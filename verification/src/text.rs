//! Text helpers: decimal rendering of integers, character pushes and
//! string comparison.
use vstd::prelude::*;

verus! {

/// The ASCII digit for `d` (which should be below ten).
pub open spec fn digit_char(d: nat) -> char {
    ((d + 48) as u32) as char
}

/// The decimal digits of `n`, most significant first, without leading zeros
/// (zero is the single digit `0`).
pub open spec fn digits(n: nat) -> Seq<char>
    decreases n,
{
    if n < 10 {
        seq![digit_char(n)]
    } else {
        digits(n / 10).push(digit_char(n % 10))
    }
}

proof fn lemma_digit_char_value(d: nat)
    requires
        d < 10,
    ensures
        crate::lexer::digit_value(digit_char(d)) == d,
        '0' <= digit_char(d) <= '9',
{
    assert(digit_char(d) as u32 == d + 48);
}

/// The digits of `n` are decimal digits, and reading them back as a
/// decimal literal gives `n`.
pub proof fn lemma_digits_read_back(n: nat)
    ensures
        crate::lexer::digits_value(digits(n), 10) == n,
        forall|i: int| 0 <= i < digits(n).len() ==> '0' <= #[trigger] digits(n)[i] <= '9',
    decreases n,
{
    if n < 10 {
        lemma_digit_char_value(n);
        let w = digits(n);
        assert(w == seq![digit_char(n)]);
        assert(w.drop_last() =~= Seq::<char>::empty());
        assert(crate::lexer::digits_value(w, 10) == crate::lexer::digits_value(w.drop_last(), 10) * 10
            + crate::lexer::digit_value(w.last()));
    } else {
        lemma_digits_read_back(n / 10);
        lemma_digit_char_value(n % 10);
        let w = digits(n);
        assert(w == digits(n / 10).push(digit_char(n % 10)));
        assert(w.drop_last() =~= digits(n / 10));
        assert(crate::lexer::digits_value(w, 10) == crate::lexer::digits_value(w.drop_last(), 10) * 10
            + crate::lexer::digit_value(w.last()));
        assert((n / 10) * 10 + n % 10 == n);
        assert forall|i: int| 0 <= i < w.len() implies '0' <= #[trigger] w[i] <= '9' by {
            if i < w.len() - 1 {
                assert(w[i] == digits(n / 10)[i]);
            }
        }
    }
}

/// The decimal text of a signed integer: a minus sign before the digits of
/// its magnitude when it is negative.
pub open spec fn signed_digits(n: int) -> Seq<char> {
    if n < 0 {
        seq!['-'] + digits((-n) as nat)
    } else {
        digits(n as nat)
    }
}

/// Appends `c` to `s` by `String::push`. Trusted: the contract takes from
/// the documentation of `String::push` that the text gains `c` at its end
/// and is otherwise unchanged.
#[verifier::external_body]
pub(crate) fn push_char(s: &mut String, c: char)
    ensures
        final(s)@ == old(s)@.push(c),
{
    s.push(c);
}

/// Whether two string slices hold the same characters.
pub(crate) fn str_eq(a: &str, b: &str) -> (r: bool)
    ensures
        r == (a@ == b@),
{
    let ac = crate::lexer::chars_of(a);
    let bc = crate::lexer::chars_of(b);
    if ac.len() != bc.len() {
        return false;
    }
    let mut i: usize = 0;
    while i < ac.len()
        invariant
            ac@ == a@,
            bc@ == b@,
            ac.len() == bc.len(),
            i <= ac.len(),
            forall|k: int| 0 <= k < i ==> ac@[k] == bc@[k],
        decreases ac.len() - i,
    {
        if ac[i] != bc[i] {
            assert(ac@[i as int] != bc@[i as int]);
            return false;
        }
        i += 1;
    }
    assert(ac@ =~= bc@);
    true
}

/// Appends the string slice `t` to `s`.
pub fn push_str(s: &mut String, t: &str)
    ensures
        final(s)@ == old(s)@ + t@,
{
    s.append(t);
}

/// Appends the decimal digits of `n` to `s`.
pub fn push_u64(s: &mut String, n: u64)
    ensures
        final(s)@ == old(s)@ + digits(n as nat),
    decreases n,
{
    if n >= 10 {
        push_u64(s, n / 10);
    }
    let d: u32 = (n % 10) as u32;
    let c: char = char_of_digit(d);
    push_char(s, c);
    proof {
        if n >= 10 {
            assert(digits(n as nat) == digits((n / 10) as nat).push(digit_char((n % 10) as nat)));
        } else {
            assert(digits(n as nat) == seq![digit_char(n as nat)]);
        }
    }
}

fn char_of_digit(d: u32) -> (c: char)
    requires
        d < 10,
    ensures
        c == digit_char(d as nat),
{
    match d {
        0 => '0',
        1 => '1',
        2 => '2',
        3 => '3',
        4 => '4',
        5 => '5',
        6 => '6',
        7 => '7',
        8 => '8',
        _ => '9',
    }
}

/// Appends the decimal text of the signed integer `n` to `s`.
pub fn push_i64(s: &mut String, n: i64)
    ensures
        final(s)@ == old(s)@ + signed_digits(n as int),
{
    if n < 0 {
        push_char(s, '-');
        let m: u64 = if n == i64::MIN {
            9223372036854775808u64
        } else {
            (-n) as u64
        };
        push_u64(s, m);
        assert(final(s)@ =~= old(s)@ + signed_digits(n as int));
    } else {
        push_u64(s, n as u64);
    }
}

/// The decimal text of `n`.
pub fn u64_text(n: u64) -> (r: String)
    ensures
        r@ == digits(n as nat),
{
    let mut s = String::new();
    push_u64(&mut s, n);
    assert(s@ =~= digits(n as nat));
    s
}

} // verus!

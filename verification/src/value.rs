//! Run-time values of the interpreter and their text.
use vstd::prelude::*;
use crate::text::{push_i64, push_str};

verus! {

/// A run-time value. A floating-point value is held as the text of the
/// literal that gave it.
#[derive(Debug)]
pub enum Value {
    Void,
    Bool(bool),
    Int(i64),
    Float(String),
    String(String),
    Array(Vec<Value>),
    Null,
}

/// The model of [`Value`].
pub enum SValue {
    Void,
    Bool(bool),
    Int(i64),
    Float(Seq<char>),
    String(Seq<char>),
    Array(Seq<SValue>),
    Null,
}

pub open spec fn value_view(v: Value) -> SValue
    decreases v, 0int,
{
    match v {
        Value::Void => SValue::Void,
        Value::Bool(b) => SValue::Bool(b),
        Value::Int(n) => SValue::Int(n),
        Value::Float(t) => SValue::Float(t@),
        Value::String(s) => SValue::String(s@),
        Value::Array(a) => SValue::Array(values_view(a@)),
        Value::Null => SValue::Null,
    }
}

pub open spec fn values_view(vs: Seq<Value>) -> Seq<SValue>
    decreases vs, 1int,
{
    if vs.len() == 0 {
        Seq::empty()
    } else {
        values_view(vs.subrange(0, vs.len() - 1)).push(value_view(vs[vs.len() - 1]))
    }
}

impl View for Value {
    type V = SValue;

    open spec fn view(&self) -> SValue {
        value_view(*self)
    }
}

/// The truth of a value: a boolean is itself, an integer is true when it is
/// not zero, null is false, and every other value is true.
pub open spec fn truth(v: SValue) -> bool {
    match v {
        SValue::Bool(b) => b,
        SValue::Int(n) => n != 0,
        SValue::Null => false,
        _ => true,
    }
}

/// The integer of a value: an integer is itself, every other value is 0.
pub open spec fn int_of(v: SValue) -> i64 {
    match v {
        SValue::Int(n) => n,
        _ => 0,
    }
}

/// A part of the text of a value: plain text, or a floating-point number
/// (the text of its literal) that the host shows as the `f64` it denotes,
/// in Rust's shortest decimal form.
#[derive(Debug, Clone, PartialEq)]
pub enum Piece {
    Text(String),
    Float(String),
}

/// The model of [`Piece`].
pub enum SPiece {
    Text(Seq<char>),
    Float(Seq<char>),
}

impl View for Piece {
    type V = SPiece;

    open spec fn view(&self) -> SPiece {
        match *self {
            Piece::Text(s) => SPiece::Text(s@),
            Piece::Float(t) => SPiece::Float(t@),
        }
    }
}

pub open spec fn pieces_view(ps: Seq<Piece>) -> Seq<SPiece> {
    ps.map_values(|p: Piece| p@)
}

/// The text of a value, in pieces: nothing for void, `true` or `false`,
/// the decimal integer, the float, the string itself, `[a, b, ...]` for an
/// array and `null` for null.
pub open spec fn render(v: SValue) -> Seq<SPiece>
    decreases v, 0int,
{
    match v {
        SValue::Void => Seq::empty(),
        SValue::Bool(b) => seq![SPiece::Text(if b { "true"@ } else { "false"@ })],
        SValue::Int(n) => seq![SPiece::Text(crate::text::signed_digits(n as int))],
        SValue::Float(b) => seq![SPiece::Float(b)],
        SValue::String(s) => seq![SPiece::Text(s)],
        SValue::Array(a) => seq![SPiece::Text("["@)] + render_items(a) + seq![SPiece::Text("]"@)],
        SValue::Null => seq![SPiece::Text("null"@)],
    }
}

/// A boolean is shown as the word for it: `true` exactly when it holds,
/// `false` exactly when it does not.
pub proof fn lemma_bool_text(b: bool)
    ensures
        render(SValue::Bool(b)).len() == 1,
        render(SValue::Bool(b))[0] matches SPiece::Text(t) && (t == "true"@ <==> b) && (t == "false"@ <==> !b),
{
    reveal_strlit("true");
    reveal_strlit("false");
    assert("true"@.len() == 4 && "false"@.len() == 5);
}

/// An integer is shown in decimal: the text of a non-negative integer is
/// its digits, which read back as a decimal literal give the integer; the
/// text of a negative one is `-` and then the digits of its size.
pub proof fn lemma_int_text(n: i64)
    ensures
        render(SValue::Int(n)).len() == 1,
        render(SValue::Int(n))[0] matches SPiece::Text(t) && t.len() > 0 && (n >= 0 ==> ('0' <= t[0] <= '9'
            && crate::lexer::digits_value(t, 10) == n)) && (n < 0 ==> (t[0] == '-'
            && crate::lexer::digits_value(t.drop_first(), 10) == -n)),
{
    if n >= 0 {
        crate::text::lemma_digits_read_back(n as nat);
        assert(crate::text::digits(n as nat).len() > 0);
    } else {
        crate::text::lemma_digits_read_back((-n) as nat);
        let t = seq!['-'] + crate::text::digits((-n) as nat);
        assert(t.drop_first() =~= crate::text::digits((-n) as nat));
    }
}

/// The texts of the values `a`, separated by `, `.
pub open spec fn render_items(a: Seq<SValue>) -> Seq<SPiece>
    decreases a, 1int,
{
    if a.len() == 0 {
        Seq::empty()
    } else if a.len() == 1 {
        render(a[0])
    } else {
        render_items(a.subrange(0, a.len() - 1)) + seq![SPiece::Text(", "@)] + render(
            a[a.len() - 1],
        )
    }
}

fn text_piece(s: &str) -> (p: Piece)
    ensures
        p@ == SPiece::Text(s@),
{
    Piece::Text(s.to_owned())
}


fn copy_values(a: &Vec<Value>) -> (r: Vec<Value>)
    ensures
        values_view(r@) == values_view(a@),
    decreases a, 1int,
{
    let mut r: Vec<Value> = Vec::new();
    let mut i: usize = 0;
    assert(values_view(r@) =~= values_view(a@.take(0)));
    while i < a.len()
        invariant
            i <= a.len(),
            values_view(r@) == values_view(a@.take(i as int)),
        decreases a.len() - i,
    {
        let x = a[i].copy();
        let ghost before = r@;
        r.push(x);
        i += 1;
        assert(r@.subrange(0, r@.len() - 1) =~= before);
        assert(a@.take(i as int).subrange(0, i - 1) =~= a@.take(i - 1));
    }
    assert(a@.take(a.len() as int) =~= a@);
    r
}

fn push_items(a: &Vec<Value>, out: &mut Vec<Piece>)
    ensures
        pieces_view(final(out)@) == pieces_view(old(out)@) + render_items(values_view(a@)),
    decreases a, 1int,
{
    let ghost start = pieces_view(out@);
    let mut i: usize = 0;
    assert(a@.take(0) =~= Seq::<Value>::empty());
    assert(values_view(a@.take(0)) =~= Seq::<SValue>::empty());
    assert(pieces_view(out@) =~= start + render_items(values_view(a@.take(0))));
    while i < a.len()
        invariant
            i <= a.len(),
            pieces_view(out@) == start + render_items(values_view(a@.take(i as int))),
        decreases a.len() - i,
    {
        let ghost prev = values_view(a@.take(i as int));
        let ghost mid = pieces_view(out@);
        if i > 0 {
            out.push(text_piece(", "));
        }
        let ghost mid2 = pieces_view(out@);
        a[i].push_pieces(out);
        proof {
            let now = values_view(a@.take(i + 1));
            assert(a@.take(i + 1).subrange(0, i as int) =~= a@.take(i as int));
            assert(now == prev.push(a@[i as int]@));
            assert(now.subrange(0, now.len() - 1) =~= prev);
            if i == 0 {
                assert(now.len() == 1);
                assert(render_items(now) == render(now[0]));
                assert(mid2 == mid);
                assert(prev.len() == 0);
                assert(render_items(prev) == Seq::<SPiece>::empty());
            } else {
                assert(render_items(now) == render_items(prev) + seq![SPiece::Text(", "@)] + render(now[now.len() - 1]));
                assert(mid2 =~= mid + seq![SPiece::Text(", "@)]);
            }
        }
        i += 1;
        assert(pieces_view(out@) =~= start + render_items(values_view(a@.take(i as int))));
    }
    assert(a@.take(a.len() as int) =~= a@);
}

impl Value {
    /// A copy of this value.
    pub fn copy(&self) -> (r: Value)
        ensures
            r@ == self@,
        decreases self, 0int,
    {
        match self {
            Value::Void => Value::Void,
            Value::Bool(b) => Value::Bool(*b),
            Value::Int(n) => Value::Int(*n),
            Value::Float(t) => Value::Float(t.clone()),
            Value::String(s) => Value::String(s.clone()),
            Value::Array(a) => Value::Array(copy_values(a)),
            Value::Null => Value::Null,
        }
    }

    /// The truth of this value.
    pub fn as_bool(&self) -> (r: bool)
        ensures
            r == truth(self@),
    {
        match self {
            Value::Bool(b) => *b,
            Value::Int(n) => *n != 0,
            Value::Null => false,
            _ => true,
        }
    }

    /// The integer of this value.
    pub fn as_int(&self) -> (r: i64)
        ensures
            r == int_of(self@),
    {
        match self {
            Value::Int(n) => *n,
            _ => 0,
        }
    }

    /// Appends the pieces of the text of this value to `out`.
    pub fn push_pieces(&self, out: &mut Vec<Piece>)
        ensures
            pieces_view(final(out)@) == pieces_view(old(out)@) + render(self@),
        decreases self, 0int,
    {
        let ghost start = pieces_view(out@);
        match self {
            Value::Void => {
                assert(pieces_view(out@) =~= start + render(self@));
            },
            Value::Bool(b) => {
                out.push(if *b { text_piece("true") } else { text_piece("false") });
                assert(pieces_view(out@) =~= start + render(self@));
            },
            Value::Int(n) => {
                let mut s = String::new();
                push_i64(&mut s, *n);
                out.push(Piece::Text(s));
                assert(pieces_view(out@) =~= start + render(self@));
            },
            Value::Float(b) => {
                out.push(Piece::Float(b.clone()));
                assert(pieces_view(out@) =~= start + render(self@));
            },
            Value::String(s) => {
                out.push(Piece::Text(s.clone()));
                assert(pieces_view(out@) =~= start + render(self@));
            },
            Value::Array(a) => {
                out.push(text_piece("["));
                let ghost m1 = pieces_view(out@);
                assert(m1 =~= start + seq![SPiece::Text("["@)]);
                push_items(a, out);
                let ghost m2 = pieces_view(out@);
                out.push(text_piece("]"));
                assert(pieces_view(out@) =~= m2 + seq![SPiece::Text("]"@)]);
                assert(self@ == SValue::Array(values_view(a@)));
                assert(pieces_view(out@) =~= start + render(self@));
            },
            Value::Null => {
                out.push(text_piece("null"));
                assert(pieces_view(out@) =~= start + render(self@));
            },
        }
    }

    /// The pieces of the text of this value.
    pub fn pieces(&self) -> (r: Vec<Piece>)
        ensures
            pieces_view(r@) == render(self@),
    {
        let mut out: Vec<Piece> = Vec::new();
        assert(pieces_view(out@) =~= Seq::<SPiece>::empty());
        self.push_pieces(&mut out);
        assert(pieces_view(out@) =~= render(self@));
        out
    }
}

// ---------------------------------------------------------------------
// Trimming
// ---------------------------------------------------------------------

/// Unicode white space (the `White_Space` property), as `char::is_whitespace`
/// defines it.
pub open spec fn is_white(c: char) -> bool {
    let u = c as u32;
    (0x09 <= u <= 0x0d) || u == 0x20 || u == 0x85 || u == 0xa0 || u == 0x1680 || (0x2000 <= u
        <= 0x200a) || u == 0x2028 || u == 0x2029 || u == 0x202f || u == 0x205f || u == 0x3000
}

/// The number of white-space characters at the start of `s`.
pub open spec fn lead_white(s: Seq<char>) -> nat
    decreases s.len(),
{
    if s.len() > 0 && is_white(s[0]) {
        1 + lead_white(s.drop_first())
    } else {
        0
    }
}

/// The number of white-space characters at the end of `s`.
pub open spec fn trail_white(s: Seq<char>) -> nat
    decreases s.len(),
{
    if s.len() > 0 && is_white(s.last()) {
        1 + trail_white(s.drop_last())
    } else {
        0
    }
}

/// `s` without its leading and trailing white space.
pub open spec fn trim(s: Seq<char>) -> Seq<char> {
    let a = lead_white(s);
    if a == s.len() {
        Seq::empty()
    } else {
        s.subrange(a as int, s.len() - trail_white(s))
    }
}

fn white(c: char) -> (r: bool)
    ensures
        r == is_white(c),
{
    let u = c as u32;
    (0x09 <= u && u <= 0x0d) || u == 0x20 || u == 0x85 || u == 0xa0 || u == 0x1680 || (0x2000 <= u
        && u <= 0x200a) || u == 0x2028 || u == 0x2029 || u == 0x202f || u == 0x205f || u == 0x3000
}

proof fn lemma_lead_white(s: Seq<char>, i: int)
    requires
        0 <= i <= s.len(),
        forall|k: int| 0 <= k < i ==> is_white(s[k]),
    ensures
        lead_white(s) == i + lead_white(s.subrange(i, s.len() as int)),
    decreases i,
{
    if i > 0 {
        assert(s.drop_first().subrange(i - 1, s.len() - 1) =~= s.subrange(i, s.len() as int));
        lemma_lead_white(s.drop_first(), i - 1);
    } else {
        assert(s.subrange(0, s.len() as int) =~= s);
    }
}

proof fn lemma_trail_white(s: Seq<char>, j: int)
    requires
        0 <= j <= s.len(),
        forall|k: int| j <= k < s.len() ==> is_white(s[k]),
    ensures
        trail_white(s) == (s.len() - j) + trail_white(s.subrange(0, j)),
    decreases s.len() - j,
{
    if j < s.len() {
        assert(s.drop_last().subrange(0, j) =~= s.subrange(0, j));
        lemma_trail_white(s.drop_last(), j);
    } else {
        assert(s.subrange(0, j) =~= s);
    }
}

proof fn lemma_lead_bounds(s: Seq<char>)
    ensures
        lead_white(s) <= s.len(),
        forall|k: int| 0 <= k < lead_white(s) ==> is_white(#[trigger] s[k]),
        lead_white(s) < s.len() ==> !is_white(s[lead_white(s) as int]),
    decreases s.len(),
{
    if s.len() > 0 && is_white(s[0]) {
        let t = s.drop_first();
        lemma_lead_bounds(t);
        assert forall|k: int| 0 <= k < lead_white(s) implies is_white(#[trigger] s[k]) by {
            if k > 0 {
                assert(s[k] == t[k - 1]);
            }
        }
        if lead_white(s) < s.len() {
            assert(s[lead_white(s) as int] == t[lead_white(t) as int]);
        }
    }
}

proof fn lemma_trail_bounds(s: Seq<char>)
    ensures
        trail_white(s) <= s.len(),
        forall|k: int| s.len() - trail_white(s) <= k < s.len() ==> is_white(#[trigger] s[k]),
        trail_white(s) < s.len() ==> !is_white(s[s.len() - 1 - trail_white(s)]),
    decreases s.len(),
{
    if s.len() > 0 && is_white(s.last()) {
        let t = s.drop_last();
        lemma_trail_bounds(t);
        assert forall|k: int| s.len() - trail_white(s) <= k < s.len() implies is_white(#[trigger] s[k]) by {
            if k < s.len() - 1 {
                assert(s[k] == t[k]);
            }
        }
        if trail_white(s) < s.len() {
            assert(s[s.len() - 1 - trail_white(s)] == t[t.len() - 1 - trail_white(t)]);
        }
    }
}

/// Trimming takes away white space from both ends and nothing else: the
/// result is a run of consecutive characters of `s`, everything before and
/// after it is white space, and it neither starts nor ends with white space.
pub proof fn lemma_trim_law(s: Seq<char>)
    ensures
        exists|a: int, b: int|
            0 <= a <= b <= s.len() && trim(s) == s.subrange(a, b) && (forall|k: int|
                0 <= k < a ==> is_white(#[trigger] s[k])) && (forall|k: int| b <= k < s.len() ==> is_white(
                #[trigger] s[k],
            )),
        trim(s).len() > 0 ==> !is_white(trim(s)[0]) && !is_white(trim(s).last()),
{
    lemma_lead_bounds(s);
    lemma_trail_bounds(s);
    let a = lead_white(s) as int;
    if a == s.len() {
        assert(trim(s) == s.subrange(a, a));
    } else {
        let b = s.len() - trail_white(s);
        if b <= a {
            assert(is_white(s[a]));
        }
        assert(trim(s) == s.subrange(a, b));
        assert(trim(s)[0] == s[a]);
        assert(trim(s).last() == s[b - 1]);
    }
}

/// `s` without its leading and trailing white space (`str::trim`).
pub fn trim_string(s: &String) -> (r: String)
    ensures
        r@ == trim(s@),
{
    let cs = crate::lexer::chars_of(s.as_str());
    let ghost t = cs@;
    let mut a: usize = 0;
    while a < cs.len() && white(cs[a])
        invariant
            a <= cs.len(),
            forall|k: int| 0 <= k < a ==> is_white(t[k]),
            t == cs@,
        decreases cs.len() - a,
    {
        a += 1;
    }
    proof {
        lemma_lead_white(t, a as int);
        assert(lead_white(t.subrange(a as int, t.len() as int)) == 0);
    }
    let mut out = String::new();
    if a == cs.len() {
        assert(out@ =~= trim(s@));
        return out;
    }
    let mut b: usize = cs.len();
    while b > a && white(cs[b - 1])
        invariant
            a < cs.len(),
            a <= b <= cs.len(),
            forall|k: int| b <= k < t.len() ==> is_white(t[k]),
            t == cs@,
            !is_white(t[a as int]),
        decreases b,
    {
        b -= 1;
    }
    proof {
        lemma_trail_white(t, b as int);
        assert(b > a);
        assert(trail_white(t.subrange(0, b as int)) == 0);
    }
    let mut i = a;
    while i < b
        invariant
            a <= i <= b <= cs.len(),
            out@ == t.subrange(a as int, i as int),
            t == cs@,
        decreases b - i,
    {
        crate::text::push_char(&mut out, cs[i]);
        i += 1;
        assert(out@ =~= t.subrange(a as int, i as int));
    }
    out
}

} // verus!

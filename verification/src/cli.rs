//! The decisions of the command line: which command the arguments name,
//! what the package manager is asked to do, the addresses and file names
//! that it uses, how an imported module's text becomes its functions, and
//! which entries of the module repository's listing a search shows.
use vstd::prelude::*;
use crate::interpreter::FnTable;
use crate::lexer::chars_of;
use crate::text::{push_str, str_eq};

verus! {

/// The texts of a sequence of strings.
pub open spec fn texts(v: Seq<String>) -> Seq<Seq<char>> {
    v.map_values(|s: String| s@)
}

// ---------------------------------------------------------------------
// Arguments
// ---------------------------------------------------------------------

/// What the arguments of the program ask for.
pub enum Command {
    /// Fewer than two arguments: show the usage.
    Usage,
    /// The package manager, with the arguments that follow `trpip`.
    Trpip(Vec<String>),
    /// Run the program in file `input`, or build it when `build` is set.
    Run { input: String, build: bool },
}

/// Whether one of the arguments (the program's own name included) is
/// exactly `--build`.
pub open spec fn asks_build(args: Seq<String>) -> bool {
    exists|i: int| 0 <= i < args.len() && #[trigger] args[i]@ == "--build"@
}

/// Reads the arguments of the program, its own name first.
pub fn parse_command(args: &Vec<String>) -> (c: Command)
    ensures
        args.len() < 2 ==> c is Usage,
        args.len() >= 2 && args@[1]@ == "trpip"@ ==> (c matches Command::Trpip(rest) && texts(
            rest@,
        ) == texts(args@.skip(2))),
        args.len() >= 2 && args@[1]@ != "trpip"@ ==> (c matches Command::Run { input, build }
            && input@ == args@[1]@ && build == asks_build(args@)),
{
    if args.len() < 2 {
        return Command::Usage;
    }
    if str_eq(args[1].as_str(), "trpip") {
        let mut rest: Vec<String> = Vec::new();
        let mut i: usize = 2;
        while i < args.len()
            invariant
                2 <= i <= args.len(),
                texts(rest@) == texts(args@.subrange(2, i as int)),
            decreases args.len() - i,
        {
            rest.push(args[i].clone());
            assert(texts(args@.subrange(2, i + 1)) =~= texts(args@.subrange(2, i as int)).push(
                args@[i as int]@,
            ));
            i += 1;
        }
        assert(args@.subrange(2, args.len() as int) =~= args@.skip(2));
        return Command::Trpip(rest);
    }
    let mut build = false;
    let mut i: usize = 0;
    while i < args.len()
        invariant
            i <= args.len(),
            build <==> exists|j: int| 0 <= j < i && #[trigger] args@[j]@ == "--build"@,
        decreases args.len() - i,
    {
        if str_eq(args[i].as_str(), "--build") {
            assert(args@[i as int]@ == "--build"@);
            build = true;
        }
        i += 1;
    }
    Command::Run { input: args[1].clone(), build }
}

/// What the package manager is asked to do.
pub enum TrpipAction {
    /// Install the named module; with no name, nothing is done.
    Install(Option<String>),
    /// Remove the named installed module; with no name, nothing is done.
    Remove(Option<String>),
    /// Search the repository for modules whose names hold the text.
    Search(String),
    /// List the installed modules.
    List,
    /// Show the package manager's commands.
    Help,
}

/// Reads the arguments that follow `trpip`.
pub fn trpip_action(a: &Vec<String>) -> (r: TrpipAction)
    ensures
        a.len() == 0 ==> r is Help,
        a.len() > 0 && a@[0]@ == "install"@ ==> (r matches TrpipAction::Install(n) && (if a.len()
            > 1 {
            n matches Some(x) && x@ == a@[1]@
        } else {
            n is None
        })),
        a.len() > 0 && a@[0]@ == "search"@ ==> (r matches TrpipAction::Search(q) && q@ == (if a.len()
            > 1 {
            a@[1]@
        } else {
            Seq::<char>::empty()
        })),
        a.len() > 0 && a@[0]@ == "remove"@ ==> (r matches TrpipAction::Remove(n) && (if a.len()
            > 1 {
            n matches Some(x) && x@ == a@[1]@
        } else {
            n is None
        })),
        a.len() > 0 && a@[0]@ == "list"@ ==> r is List,
        a.len() > 0 && a@[0]@ != "install"@ && a@[0]@ != "search"@ && a@[0]@ != "list"@ && a@[0]@
            != "remove"@ ==> r is Help,
{
    proof {
        reveal_strlit("install");
        reveal_strlit("search");
        reveal_strlit("list");
        reveal_strlit("remove");
        assert("install"@.len() == 7 && "search"@.len() == 6 && "list"@.len() == 4);
        assert("remove"@.len() == 6 && "remove"@[0] == 'r' && "search"@[0] == 's');
    }
    if a.len() == 0 {
        return TrpipAction::Help;
    }
    let verb = a[0].as_str();
    if str_eq(verb, "install") {
        if a.len() > 1 {
            TrpipAction::Install(Some(a[1].clone()))
        } else {
            TrpipAction::Install(None)
        }
    } else if str_eq(verb, "search") {
        if a.len() > 1 {
            TrpipAction::Search(a[1].clone())
        } else {
            TrpipAction::Search(String::new())
        }
    } else if str_eq(verb, "remove") {
        if a.len() > 1 {
            TrpipAction::Remove(Some(a[1].clone()))
        } else {
            TrpipAction::Remove(None)
        }
    } else if str_eq(verb, "list") {
        TrpipAction::List
    } else {
        TrpipAction::Help
    }
}

// ---------------------------------------------------------------------
// Addresses and file names
// ---------------------------------------------------------------------

/// The address from which module `name` is installed.
pub open spec fn module_url_text(name: Seq<char>) -> Seq<char> {
    "https://raw.githubusercontent.com/ivan2002312/Trinity-Module/main/"@ + name + "/"@ + name
        + ".trm"@
}

/// The address from which module `name` is installed.
pub fn module_url(name: &str) -> (u: String)
    ensures
        u@ == module_url_text(name@),
{
    let mut u = String::new();
    push_str(&mut u, "https://raw.githubusercontent.com/ivan2002312/Trinity-Module/main/");
    push_str(&mut u, name);
    push_str(&mut u, "/");
    push_str(&mut u, name);
    push_str(&mut u, ".trm");
    assert(u@ =~= module_url_text(name@));
    u
}

/// The name of the file that holds module `name`.
pub fn module_file_name(name: &str) -> (f: String)
    ensures
        f@ == name@ + ".trm"@,
{
    let mut f = String::new();
    push_str(&mut f, name);
    push_str(&mut f, ".trm");
    assert(f@ =~= name@ + ".trm"@);
    f
}

/// The manifest of the standalone program that a build of program `name`
/// produces.
pub open spec fn build_manifest_text(name: Seq<char>) -> Seq<char> {
    "[package]\nname = \""@ + name + "\"\nversion = \"0.1.0\"\nedition = \"2021\"\n\n[[bin]]\nname = \""@
        + name + "\"\npath = \""@ + name + ".rs\""@
}

/// The manifest of the standalone program that a build of program `name`
/// produces.
pub fn build_manifest(name: &str) -> (m: String)
    ensures
        m@ == build_manifest_text(name@),
{
    let mut m = String::new();
    push_str(&mut m, "[package]\nname = \"");
    push_str(&mut m, name);
    push_str(&mut m, "\"\nversion = \"0.1.0\"\nedition = \"2021\"\n\n[[bin]]\nname = \"");
    push_str(&mut m, name);
    push_str(&mut m, "\"\npath = \"");
    push_str(&mut m, name);
    push_str(&mut m, ".rs\"");
    assert(m@ =~= build_manifest_text(name@));
    m
}

// ---------------------------------------------------------------------
// Imported modules
// ---------------------------------------------------------------------

/// The tokens that a module's text gives: none where the text does not
/// lex.
pub open spec fn source_tokens(s: Seq<char>) -> Seq<(crate::lexer::SToken, crate::ast::Span)> {
    let (toks, errs) = crate::lexer::lex_from(s, 0);
    if errs.len() == 0 {
        toks
    } else {
        Seq::empty()
    }
}

/// The functions that an imported module's text offers: the text is lexed
/// (a text that does not lex gives no tokens) and parsed, and its functions
/// and the methods of its classes are taken in order.
pub fn module_from_source(source: &str) -> (t: FnTable)
    requires
        crate::lexer::byte_len(source@) <= usize::MAX,
    ensures
        t@ == crate::interpreter::register_decls(
            Seq::empty(),
            crate::parser::p_module(source_tokens(source@)).declarations,
        ),
{
    let tokens = match crate::lexer::tokenize(source) {
        Ok(v) => v,
        Err(_) => Vec::new(),
    };
    proof {
        if source_tokens(source@).len() == 0 {
            assert(crate::lexer::tokens_view(tokens@) =~= source_tokens(source@));
        }
    }
    match crate::parser::parse(tokens, source) {
        Ok(m) => crate::interpreter::module_functions(&m),
        Err(_) => FnTable::new(),
    }
}

// ---------------------------------------------------------------------
// Searching the module repository
// ---------------------------------------------------------------------

/// The address of the module repository's listing.
pub fn listing_url() -> (u: &'static str)
    ensures
        u@ == "https://api.github.com/repos/ivan2002312/Trinity-Module/contents"@,
{
    "https://api.github.com/repos/ivan2002312/Trinity-Module/contents"
}

/// One entry of the listing: its `name` and `type` fields, each where it
/// is a string.
pub open spec fn entry_view(e: (Option<String>, Option<String>)) -> (
    Option<Seq<char>>,
    Option<Seq<char>>,
) {
    (
        match e.0 {
            Some(s) => Some(s@),
            None => None,
        },
        match e.1 {
            Some(s) => Some(s@),
            None => None,
        },
    )
}

/// What a JSON text holds when it is read as a listing: `None` where it is
/// not JSON or not an array; otherwise, for each element in order, its
/// `name` and `type` fields where they are strings.
pub uninterp spec fn json_listing(body: Seq<char>) -> Option<
    Seq<(Option<Seq<char>>, Option<Seq<char>>)>,
>;

/// Reads a JSON text as a listing with `serde_json::from_str` into a
/// `serde_json::Value`, then `as_array`, and of each element the fields
/// `["name"]` and `["type"]` by `as_str` (indexing a missing field or a
/// non-object gives `Null`, whose `as_str` is `None`). Trusted: the
/// contract claims only that the result, read as plain values, is
/// `json_listing` of the text; what JSON parsing gives is not stated.
#[verifier::external_body]
fn listing_entries(body: &str) -> (r: Option<Vec<(Option<String>, Option<String>)>>)
    ensures
        match r {
            Some(v) => json_listing(body@) == Some(v@.map_values(
                |e: (Option<String>, Option<String>)| entry_view(e),
            )),
            None => json_listing(body@) is None,
        },
{
    match serde_json::from_str::<serde_json::Value>(body) {
        Ok(json) => json.as_array().map(|items| items.iter().map(|item| (
            item["name"].as_str().map(|s| s.to_string()),
            item["type"].as_str().map(|s| s.to_string()),
        )).collect()),
        Err(_) => None,
    }
}

/// The name of an entry; an entry without one has the empty name.
pub open spec fn entry_name(e: (Option<Seq<char>>, Option<Seq<char>>)) -> Seq<char> {
    match e.0 {
        Some(n) => n,
        None => Seq::empty(),
    }
}

/// The type of an entry; an entry without one has the empty type.
pub open spec fn entry_kind(e: (Option<Seq<char>>, Option<Seq<char>>)) -> Seq<char> {
    match e.1 {
        Some(k) => k,
        None => Seq::empty(),
    }
}

/// Whether `q` occurs in `s` as a run of consecutive characters.
pub open spec fn contains_text(s: Seq<char>, q: Seq<char>) -> bool {
    exists|i: int| 0 <= i && i + q.len() <= s.len() && #[trigger] s.subrange(i, i + q.len()) == q
}

/// Whether a search for `q` shows an entry: a directory other than `.git`
/// whose name holds `q` (every name holds the empty text).
pub open spec fn is_hit(e: (Option<Seq<char>>, Option<Seq<char>>), q: Seq<char>) -> bool {
    &&& entry_kind(e) == "dir"@
    &&& entry_name(e) != ".git"@
    &&& (q.len() == 0 || contains_text(entry_name(e), q))
}

/// The names that a search for `q` shows, in the listing's order.
pub open spec fn hits(es: Seq<(Option<Seq<char>>, Option<Seq<char>>)>, q: Seq<char>) -> Seq<
    Seq<char>,
>
    decreases es.len(),
{
    if es.len() == 0 {
        Seq::empty()
    } else {
        let h = hits(es.drop_last(), q);
        if is_hit(es.last(), q) {
            h.push(entry_name(es.last()))
        } else {
            h
        }
    }
}

/// Whether `q` occurs in `s` at position `i`.
fn occurs_at(s: &Vec<char>, q: &Vec<char>, i: usize) -> (r: bool)
    requires
        i + q.len() <= s.len(),
    ensures
        r == (s@.subrange(i as int, i + q.len()) == q@),
{
    let mut k: usize = 0;
    while k < q.len()
        invariant
            k <= q.len(),
            i + q.len() <= s.len(),
            forall|m: int| 0 <= m < k ==> s@[i + m] == q@[m],
        decreases q.len() - k,
    {
        if s[i + k] != q[k] {
            assert(s@.subrange(i as int, i + q.len())[k as int] != q@[k as int]);
            return false;
        }
        k += 1;
    }
    assert(s@.subrange(i as int, i + q.len()) =~= q@);
    true
}

/// Whether `q` occurs in `s`.
fn holds_text(s: &str, q: &str) -> (r: bool)
    ensures
        r == contains_text(s@, q@),
{
    let sc = chars_of(s);
    let qc = chars_of(q);
    if qc.len() > sc.len() {
        return false;
    }
    let last = sc.len() - qc.len();
    let mut i: usize = 0;
    loop
        invariant
            i <= last,
            last == sc.len() - qc.len(),
            qc.len() <= sc.len(),
            sc@ == s@,
            qc@ == q@,
            forall|j: int| 0 <= j < i ==> #[trigger] sc@.subrange(j, j + qc.len()) != qc@,
        decreases last - i,
    {
        if occurs_at(&sc, &qc, i) {
            assert(sc@.subrange(i as int, i + qc.len()) == qc@);
            return true;
        }
        if i == last {
            return false;
        }
        i += 1;
    }
}

/// The names of the entries that a search for `q` shows, in the listing's
/// order.
pub fn search_hits(entries: &Vec<(Option<String>, Option<String>)>, q: &str) -> (r: Vec<String>)
    ensures
        texts(r@) == hits(
            entries@.map_values(|e: (Option<String>, Option<String>)| entry_view(e)),
            q@,
        ),
{
    let ghost es = entries@.map_values(|e: (Option<String>, Option<String>)| entry_view(e));
    let mut r: Vec<String> = Vec::new();
    let mut i: usize = 0;
    assert(es.take(0) =~= Seq::<(Option<Seq<char>>, Option<Seq<char>>)>::empty());
    while i < entries.len()
        invariant
            i <= entries.len(),
            es == entries@.map_values(|e: (Option<String>, Option<String>)| entry_view(e)),
            texts(r@) == hits(es.take(i as int), q@),
        decreases entries.len() - i,
    {
        let ghost t = es.take(i + 1);
        assert(t.drop_last() =~= es.take(i as int));
        assert(t.last() == entry_view(entries@[i as int]));
        let name: String = match &entries[i].0 {
            Some(n) => n.clone(),
            None => String::new(),
        };
        let is_dir = match &entries[i].1 {
            Some(k) => str_eq(k.as_str(), "dir"),
            None => {
                proof {
                    reveal_strlit("dir");
                    assert("dir"@.len() == 3);
                }
                false
            },
        };
        assert(name@ == entry_name(t.last()));
        if is_dir && !str_eq(name.as_str(), ".git") {
            let shown = if q.is_empty() {
                true
            } else {
                holds_text(name.as_str(), q)
            };
            if shown {
                r.push(name);
                assert(texts(r@) =~= hits(es.take(i as int), q@).push(entry_name(t.last())));
            } else {
                assert(!is_hit(t.last(), q@));
            }
        } else {
            assert(!is_hit(t.last(), q@));
        }
        assert(texts(r@) == hits(t, q@));
        i += 1;
    }
    assert(es.take(entries.len() as int) =~= es);
    r
}

/// Reads the repository's listing and gives the names that a search for
/// `q` shows; `None` where the text is not a JSON array.
pub fn search_listing(body: &str, q: &str) -> (r: Option<Vec<String>>)
    ensures
        match json_listing(body@) {
            None => r is None,
            Some(es) => r matches Some(v) && texts(v@) == hits(es, q@),
        },
{
    match listing_entries(body) {
        Some(entries) => Some(search_hits(&entries, q)),
        None => None,
    }
}

} // verus!

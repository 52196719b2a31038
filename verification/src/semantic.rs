//! The type checker's registry of a module's declarations.
use vstd::prelude::*;
use crate::ast::{ClassDecl, Declaration, FunctionDecl, Module, SClass, SDecl, SFunction, SType, Type};

verus! {

/// A table of entries by name, as a sequence of models.
pub open spec fn entries_view<V: View>(s: Seq<(String, V)>) -> Seq<(Seq<char>, V::V)> {
    s.map_values(|p: (String, V)| (p.0@, p.1@))
}

/// The index of the last entry of `table` with key `k`.
fn find_key<V: View>(table: &Vec<(String, V)>, k: &String) -> (r: Option<usize>)
    ensures
        match r {
            Some(j) => crate::interpreter::find_last(entries_view(table@), k@) == Some(j as int)
                && j < table.len(),
            None => crate::interpreter::find_last(entries_view(table@), k@) is None,
        },
{
    let ghost full = entries_view(table@);
    let mut i = table.len();
    assert(full.take(i as int) =~= full);
    while i > 0
        invariant
            i <= table.len(),
            full == entries_view(table@),
            full.len() == table.len(),
            crate::interpreter::find_last(full, k@) == crate::interpreter::find_last(
                full.take(i as int),
                k@,
            ),
        decreases i,
    {
        let ghost t = full.take(i as int);
        assert(t.drop_last() =~= full.take(i - 1));
        if table[i - 1].0 == *k {
            assert(t.last().0 == k@);
            return Some(i - 1);
        }
        i -= 1;
    }
    None
}

/// Binds `k` to `x` in `table`: the entry with key `k` is replaced, or a
/// new entry is added.
fn put<V: View>(table: &mut Vec<(String, V)>, k: String, x: V)
    ensures
        entries_view(final(table)@) == crate::interpreter::assign(entries_view(old(table)@), k@, x@),
{
    let ghost before = entries_view(table@);
    let ghost xv = x@;
    match find_key(table, &k) {
        Some(j) => {
            table.set(j, (k, x));
            assert(entries_view(table@) =~= before.update(j as int, (k@, xv)));
        },
        None => {
            table.push((k, x));
            assert(entries_view(table@) =~= before.push((k@, xv)));
        },
    }
}

/// The keys of a table, in order.
fn keys<V>(table: &Vec<(String, V)>) -> (r: Vec<String>)
    ensures
        r@.map_values(|s: String| s@) == table@.map_values(|p: (String, V)| p.0@),
{
    let mut r: Vec<String> = Vec::new();
    let mut i: usize = 0;
    while i < table.len()
        invariant
            i <= table.len(),
            r@.len() == i,
            forall|k: int| 0 <= k < i ==> (#[trigger] r@[k])@ == table@[k].0@,
        decreases table.len() - i,
    {
        r.push(table[i].0.clone());
        i += 1;
    }
    assert(r@.map_values(|s: String| s@) =~= table@.map_values(|p: (String, V)| p.0@));
    r
}

/// The type checker: its scopes, and the functions and classes of the
/// module it checked, each by name (a later declaration of a name replaces
/// the earlier one).
pub struct TypeChecker {
    scopes: Vec<Vec<(String, Type)>>,
    functions: Vec<(String, FunctionDecl)>,
    classes: Vec<(String, ClassDecl)>,
}

impl TypeChecker {
    /// Each name is registered once: a later declaration of a name replaces
    /// the earlier one.
    #[verifier::type_invariant]
    spec fn names_distinct(self) -> bool {
        &&& crate::interpreter::keys_distinct(entries_view(self.functions@))
        &&& crate::interpreter::keys_distinct(entries_view(self.classes@))
    }
}

/// The model of [`TypeChecker`].
pub struct SChecker {
    pub scopes: Seq<Seq<(Seq<char>, SType)>>,
    pub functions: Seq<(Seq<char>, SFunction)>,
    pub classes: Seq<(Seq<char>, SClass)>,
}

impl View for TypeChecker {
    type V = SChecker;

    closed spec fn view(&self) -> SChecker {
        SChecker {
            scopes: self.scopes@.map_values(|sc: Vec<(String, Type)>| entries_view(sc@)),
            functions: entries_view(self.functions@),
            classes: entries_view(self.classes@),
        }
    }
}

/// The registry after the declarations `ds`: each function by its name,
/// each class by its name.
pub open spec fn register(c: SChecker, ds: Seq<SDecl>) -> SChecker
    decreases ds.len(),
{
    if ds.len() == 0 {
        c
    } else {
        let c1 = register(c, ds.drop_last());
        match ds.last() {
            SDecl::Function(f) => SChecker { functions: crate::interpreter::assign(c1.functions, f.name, f), ..c1 },
            SDecl::Class(k) => SChecker { classes: crate::interpreter::assign(c1.classes, k.name, k), ..c1 },
            _ => c1,
        }
    }
}

impl TypeChecker {
    /// A checker with one empty scope and nothing registered.
    pub fn new() -> (t: TypeChecker)
        ensures
            t@.scopes == seq![Seq::<(Seq<char>, SType)>::empty()],
            t@.functions == Seq::<(Seq<char>, SFunction)>::empty(),
            t@.classes == Seq::<(Seq<char>, SClass)>::empty(),
    {
        let mut scopes: Vec<Vec<(String, Type)>> = Vec::new();
        let first: Vec<(String, Type)> = Vec::new();
        assert(entries_view(first@) =~= Seq::<(Seq<char>, SType)>::empty());
        scopes.push(first);
        let t = TypeChecker { scopes, functions: Vec::new(), classes: Vec::new() };
        assert(t@.scopes =~= seq![Seq::<(Seq<char>, SType)>::empty()]);
        assert(t@.functions =~= Seq::<(Seq<char>, SFunction)>::empty());
        assert(t@.classes =~= Seq::<(Seq<char>, SClass)>::empty());
        t
    }

    /// Registers the functions and classes of a module. Checking never
    /// fails.
    pub fn check_module(&mut self, module: &Module) -> (r: Result<(), String>)
        ensures
            r is Ok,
            final(self)@ == register(old(self)@, module@.declarations),
    {
        let ghost ds = module@.declarations;
        let mut i: usize = 0;
        assert(ds.take(0) =~= Seq::<SDecl>::empty());
        while i < module.declarations.len()
            invariant
                i <= module.declarations.len(),
                ds == module@.declarations,
                ds.len() == module.declarations.len(),
                self@ == register(old(self)@, ds.take(i as int)),
            decreases module.declarations.len() - i,
        {
            let ghost t = ds.take(i + 1);
            assert(t.drop_last() =~= ds.take(i as int));
            assert(t.last() == module.declarations@[i as int]@);
            proof {
                use_type_invariant(&*self);
            }
            match &module.declarations[i] {
                Declaration::Function(f) => {
                    proof {
                        crate::interpreter::lemma_assign_distinct(entries_view(self.functions@), f.name@, f@);
                    }
                    let mut fs: Vec<(String, FunctionDecl)> = Vec::new();
                    std::mem::swap(&mut fs, &mut self.functions);
                    put(&mut fs, f.name.clone(), f.copy());
                    self.functions = fs;
                },
                Declaration::Class(c) => {
                    proof {
                        crate::interpreter::lemma_assign_distinct(entries_view(self.classes@), c.name@, c@);
                    }
                    let mut cs: Vec<(String, ClassDecl)> = Vec::new();
                    std::mem::swap(&mut cs, &mut self.classes);
                    put(&mut cs, c.name.clone(), c.copy());
                    self.classes = cs;
                },
                _ => {},
            }
            i += 1;
        }
        assert(ds.take(ds.len() as int) =~= ds);
        Ok(())
    }

    /// The names of the registered functions, each once.
    pub fn function_names(&self) -> (r: Vec<String>)
        ensures
            r@.map_values(|s: String| s@) == self@.functions.map_values(
                |p: (Seq<char>, SFunction)| p.0,
            ),
            crate::interpreter::keys_distinct(self@.functions),
    {
        proof {
            use_type_invariant(self);
        }
        let r = keys(&self.functions);
        assert(r@.map_values(|s: String| s@) =~= self@.functions.map_values(
            |p: (Seq<char>, SFunction)| p.0,
        ));
        r
    }

    /// The names of the registered classes, each once.
    pub fn class_names(&self) -> (r: Vec<String>)
        ensures
            r@.map_values(|s: String| s@) == self@.classes.map_values(|p: (Seq<char>, SClass)| p.0),
            crate::interpreter::keys_distinct(self@.classes),
    {
        proof {
            use_type_invariant(self);
        }
        let r = keys(&self.classes);
        assert(r@.map_values(|s: String| s@) =~= self@.classes.map_values(
            |p: (Seq<char>, SClass)| p.0,
        ));
        r
    }
}

} // verus!

//! C code generation: a C program with one stub per top-level function.
use vstd::prelude::*;
use crate::ast::{Declaration, Module, SDecl, SModule};
use crate::text::push_str;

verus! {

/// The stub that stands for function `name` in the C program.
pub open spec fn c_stub(name: Seq<char>) -> Seq<char> {
    "int "@ + name + "() {\n"@ + "    // TODO: generate function body\n"@ + "    return 0;\n"@ + "}\n\n"@
}

/// The stubs of the top-level functions among `ds`, in order.
pub open spec fn c_stubs(ds: Seq<SDecl>) -> Seq<char>
    decreases ds.len(),
{
    if ds.len() == 0 {
        Seq::empty()
    } else {
        c_stubs(ds.drop_last()) + match ds.last() {
            SDecl::Function(f) => c_stub(f.name),
            _ => Seq::empty(),
        }
    }
}

/// The C program for a module: the headers, the stubs, and a `main` that
/// prints `Trinity program`.
pub open spec fn c_program(m: SModule) -> Seq<char> {
    "#include <stdio.h>\n"@ + "#include <stdlib.h>\n\n"@ + c_stubs(m.declarations) + "int main() {\n"@
        + "    printf(\"Trinity program\\n\");\n"@ + "    return 0;\n"@ + "}\n"@
}

/// The C program for a module.
pub fn c_source(module: &Module) -> (c: String)
    ensures
        c@ == c_program(module@),
{
    let ghost ds = module@.declarations;
    let mut c = String::new();
    push_str(&mut c, "#include <stdio.h>\n");
    push_str(&mut c, "#include <stdlib.h>\n\n");
    let ghost head = c@;
    let mut i: usize = 0;
    assert(ds.take(0) =~= Seq::<SDecl>::empty());
    assert(c@ =~= head + c_stubs(ds.take(0)));
    while i < module.declarations.len()
        invariant
            i <= module.declarations.len(),
            ds == module@.declarations,
            ds.len() == module.declarations.len(),
            c@ == head + c_stubs(ds.take(i as int)),
        decreases module.declarations.len() - i,
    {
        let ghost before = c@;
        let ghost t = ds.take(i + 1);
        assert(t.drop_last() =~= ds.take(i as int));
        assert(t.last() == module.declarations@[i as int]@);
        match &module.declarations[i] {
            Declaration::Function(f) => {
                push_str(&mut c, "int ");
                push_str(&mut c, f.name.as_str());
                push_str(&mut c, "() {\n");
                push_str(&mut c, "    // TODO: generate function body\n");
                push_str(&mut c, "    return 0;\n");
                push_str(&mut c, "}\n\n");
                assert(c@ =~= before + c_stub(f.name@));
            },
            _ => {
                assert(c@ =~= before + Seq::<char>::empty());
            },
        }
        i += 1;
        assert(c@ =~= head + c_stubs(ds.take(i as int)));
    }
    assert(ds.take(ds.len() as int) =~= ds);
    let ghost mid = c@;
    push_str(&mut c, "int main() {\n");
    push_str(&mut c, "    printf(\"Trinity program\\n\");\n");
    push_str(&mut c, "    return 0;\n");
    push_str(&mut c, "}\n");
    assert(c@ =~= c_program(module@));
    c
}

} // verus!

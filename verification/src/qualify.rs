//! The shared naming utility: flattening a struct-instance variable
//! name and a field name into the single identifier the desugared
//! assignments and the emitted node slots use. A dot separates the
//! two parts, so the flattening is injective as long as base names
//! carry no dot themselves.

use vstd::prelude::*;
use vstd::string::StringExecFns;

verus! {

/// The flattened identifier of one field of a struct-typed variable:
/// the base name, a dot, the field name.
pub open spec fn qualified_name(base: Seq<char>, field: Seq<char>) -> Seq<char> {
    base.push('.') + field
}

/// Flattens a struct-instance variable name and a field name into the
/// single identifier used for desugared targets and emitted slots.
pub fn qualify_struct_var_name(fieldname: &String, basename: &String) -> (r: String)
    ensures
        r@ == qualified_name(basename@, fieldname@),
{
    let mut s = basename.clone();
    s.append(".");
    s.append(fieldname.as_str());
    proof {
        reveal_strlit(".");
        assert("."@ =~= Seq::<char>::empty().push('.'));
        assert(s@ =~= qualified_name(basename@, fieldname@));
    }
    s
}

/// Flattened names collide only when both parts agree: two qualified
/// names built from dot-free base names are equal exactly when their
/// bases and their fields are equal.
pub proof fn lemma_qualified_name_injective(
    b1: Seq<char>,
    f1: Seq<char>,
    b2: Seq<char>,
    f2: Seq<char>,
)
    requires
        !b1.contains('.'),
        !b2.contains('.'),
        qualified_name(b1, f1) == qualified_name(b2, f2),
    ensures
        b1 == b2,
        f1 == f2,
{
    let q = qualified_name(b1, f1);
    assert(q.len() == b1.len() + 1 + f1.len());
    assert(q.len() == b2.len() + 1 + f2.len());
    assert forall|i: int| 0 <= i < b1.len() implies q[i] == b1[i] by {
        assert(b1.push('.')[i] == b1[i]);
    }
    assert(q[b1.len() as int] == '.') by {
        assert(b1.push('.')[b1.len() as int] == '.');
    }
    assert forall|i: int| 0 <= i < b2.len() implies q[i] == b2[i] by {
        assert(b2.push('.')[i] == b2[i]);
    }
    assert(q[b2.len() as int] == '.') by {
        assert(b2.push('.')[b2.len() as int] == '.');
    }
    if b1.len() < b2.len() {
        assert(b2[b1.len() as int] == '.');
        assert(b2.contains('.'));
        assert(false);
    }
    if b2.len() < b1.len() {
        assert(b1[b2.len() as int] == '.');
        assert(b1.contains('.'));
        assert(false);
    }
    assert(b1 =~= b2);
    assert forall|i: int| 0 <= i < f1.len() implies f1[i] == f2[i] by {
        assert(q[b1.len() + 1 + i] == f1[i]);
        assert(q[b2.len() + 1 + i] == f2[i]);
    }
    assert(f1 =~= f2);
}

} // verus!

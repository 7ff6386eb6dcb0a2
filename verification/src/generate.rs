//! Projecting a parsed program into C declarations: one struct per
//! component, one member per field with the stored type text and name
//! verbatim, in declared order, then one tagged union aggregating all
//! component structs by component name.

use vstd::prelude::*;
use vstd::string::StringExecFns;

use crate::components::{cfields_view, Component};
use crate::program::{comps_view, Parsed};

verus! {

/// One member line: the field's type text and name, verbatim.
pub open spec fn gen_field(typ: Seq<char>, name: Seq<char>) -> Seq<char> {
    typ + " "@ + name + ";"@
}

/// The members of one struct, in declared order.
pub open spec fn gen_fields(fields: Seq<(Seq<char>, Seq<char>)>) -> Seq<char>
    decreases fields.len(),
{
    if fields.len() == 0 {
        Seq::empty()
    } else {
        gen_fields(fields.drop_last()) + gen_field(fields.last().0, fields.last().1)
    }
}

/// One component's struct declaration.
pub open spec fn gen_component(name: Seq<char>, fields: Seq<(Seq<char>, Seq<char>)>) -> Seq<char> {
    "struct v_component_"@ + name + " {"@ + gen_fields(fields) + "};"@
}

/// All component structs, in declared order.
pub open spec fn gen_components(comps: Seq<(Seq<char>, Seq<(Seq<char>, Seq<char>)>)>) -> Seq<char>
    decreases comps.len(),
{
    if comps.len() == 0 {
        Seq::empty()
    } else {
        gen_components(comps.drop_last()) + gen_component(comps.last().0, comps.last().1)
    }
}

/// One member of the component union.
pub open spec fn gen_union_member(name: Seq<char>) -> Seq<char> {
    "struct v_component_"@ + name + " "@ + name + ";"@
}

/// The members of the component union, in declared order.
pub open spec fn gen_union_members(comps: Seq<(Seq<char>, Seq<(Seq<char>, Seq<char>)>)>) -> Seq<
    char,
>
    decreases comps.len(),
{
    if comps.len() == 0 {
        Seq::empty()
    } else {
        gen_union_members(comps.drop_last()) + gen_union_member(comps.last().0)
    }
}

/// The whole projection: each component struct, then the union.
pub open spec fn gen_program(comps: Seq<(Seq<char>, Seq<(Seq<char>, Seq<char>)>)>) -> Seq<char> {
    gen_components(comps) + "union v_component {"@ + gen_union_members(comps) + "};"@
}

/// Append one struct's members.
fn push_fields(out: &mut String, c: &Component)
    ensures
        final(out)@ == old(out)@ + gen_fields(cfields_view(c.fields@)),
{
    let ghost fv = cfields_view(c.fields@);
    let n = c.fields.len();
    let mut i: usize = 0;
    proof {
        crate::components::lemma_cfields_view_elems(c.fields@);
        assert(old(out)@ + gen_fields(fv.take(0)) =~= old(out)@) by {
            assert(fv.take(0) =~= Seq::<(Seq<char>, Seq<char>)>::empty());
        }
    }
    while i < n
        invariant
            i <= n,
            n == c.fields@.len(),
            fv == cfields_view(c.fields@),
            fv.len() == n,
            forall|m: int|
                0 <= m < n ==> fv[m] == ((#[trigger] c.fields@[m]).typ@, c.fields@[m].name@),
            out@ == old(out)@ + gen_fields(fv.take(i as int)),
        decreases n - i,
    {
        let f = &c.fields[i];
        out.append(f.typ.as_str());
        out.append(" ");
        out.append(f.name.as_str());
        out.append(";");
        proof {
            assert(fv.take(i + 1).drop_last() =~= fv.take(i as int));
            assert(fv.take(i + 1).last() == fv[i as int]);
            assert(out@ =~= old(out)@ + gen_fields(fv.take(i + 1)));
        }
        i = i + 1;
    }
    proof {
        assert(fv.take(n as int) =~= fv);
    }
}

/// Emit the C declarations for a parsed program: a struct for each
/// component, one member per field in declared order, then a union
/// aggregating all component structs by component name, in declaration
/// order throughout.
pub fn generate(parsed: &Parsed) -> (r: String)
    ensures
        r@ == gen_program(comps_view(parsed.components@)),
{
    let ghost cv = comps_view(parsed.components@);
    let mut out = String::new();
    let n = parsed.components.len();
    proof {
        lemma_comps_view_elems(parsed.components@);
        assert(Seq::<char>::empty() + gen_components(cv.take(0)) =~= Seq::<char>::empty()) by {
            assert(cv.take(0) =~= Seq::<(Seq<char>, Seq<(Seq<char>, Seq<char>)>)>::empty());
        }
        assert(out@ =~= Seq::<char>::empty() + gen_components(cv.take(0)));
    }
    let mut i: usize = 0;
    while i < n
        invariant
            i <= n,
            n == parsed.components@.len(),
            cv == comps_view(parsed.components@),
            cv.len() == n,
            forall|m: int|
                0 <= m < n ==> cv[m] == ((#[trigger] parsed.components@[m]).name@, cfields_view(
                    parsed.components@[m].fields@,
                )),
            out@ == gen_components(cv.take(i as int)),
        decreases n - i,
    {
        let c = &parsed.components[i];
        out.append("struct v_component_");
        out.append(c.name.as_str());
        out.append(" {");
        push_fields(&mut out, c);
        out.append("};");
        proof {
            assert(cv.take(i + 1).drop_last() =~= cv.take(i as int));
            assert(cv.take(i + 1).last() == cv[i as int]);
            assert(out@ =~= gen_components(cv.take(i + 1)));
        }
        i = i + 1;
    }
    proof {
        assert(cv.take(n as int) =~= cv);
    }
    out.append("union v_component {");
    let ghost mid = out@;
    proof {
        assert(mid + gen_union_members(cv.take(0)) =~= mid) by {
            assert(cv.take(0) =~= Seq::<(Seq<char>, Seq<(Seq<char>, Seq<char>)>)>::empty());
        }
    }
    let mut i2: usize = 0;
    while i2 < n
        invariant
            i2 <= n,
            n == parsed.components@.len(),
            cv == comps_view(parsed.components@),
            cv.len() == n,
            forall|m: int|
                0 <= m < n ==> cv[m] == ((#[trigger] parsed.components@[m]).name@, cfields_view(
                    parsed.components@[m].fields@,
                )),
            mid == gen_components(cv) + "union v_component {"@,
            out@ == mid + gen_union_members(cv.take(i2 as int)),
        decreases n - i2,
    {
        let c = &parsed.components[i2];
        out.append("struct v_component_");
        out.append(c.name.as_str());
        out.append(" ");
        out.append(c.name.as_str());
        out.append(";");
        proof {
            assert(cv.take(i2 + 1).drop_last() =~= cv.take(i2 as int));
            assert(cv.take(i2 + 1).last() == cv[i2 as int]);
            assert(out@ =~= mid + gen_union_members(cv.take(i2 + 1)));
        }
        i2 = i2 + 1;
    }
    out.append("};");
    proof {
        assert(cv.take(n as int) =~= cv);
        assert(out@ =~= gen_program(cv));
    }
    out
}

/// The length and elements of the component views, pair by pair.
pub proof fn lemma_comps_view_elems(s: Seq<Component>)
    ensures
        comps_view(s).len() == s.len(),
        forall|m: int|
            0 <= m < s.len() ==> comps_view(s)[m] == ((#[trigger] s[m]).name@, cfields_view(
                s[m].fields@,
            )),
    decreases s.len(),
{
    if s.len() > 0 {
        lemma_comps_view_elems(s.drop_last());
        assert forall|m: int| 0 <= m < s.len() implies comps_view(s)[m] == ((
        #[trigger] s[m]).name@, cfields_view(s[m].fields@)) by {
            if m < s.len() - 1 {
                assert(s.drop_last()[m] == s[m]);
                assert(comps_view(s)[m] == comps_view(s.drop_last())[m]);
            } else {
                assert(s[m] == s.last());
            }
        }
    }
}

} // verus!

//! Component declarations: the `component` tag, a name, and a record body
//! of `type name;` fields.

use vstd::prelude::*;

use crate::location::Span;
use crate::msg::str_to_chars;
use crate::records::{parse_record, spec_record, RecordParse};
use crate::results::{ParseResult, ParseSuccess};
use crate::source::ParseSrc;
use crate::struct_like::{fields_view, parse_struct_field, spec_struct_field, FieldParse, StructField};

verus! {

/// A single component member: its type and its name.
#[derive(Debug, Clone, PartialEq, Eq)]
pub struct ComponentField {
    pub typ: String,
    pub name: String,
}

impl ComponentField {
    pub fn new(typ: String, name: String) -> (f: ComponentField)
        ensures
            f.typ == typ,
            f.name == name,
    {
        ComponentField { typ, name }
    }
}

/// A named component: a name and its fields in declared order.
#[derive(Debug, PartialEq, Eq)]
pub struct Component {
    pub name: String,
    pub fields: Vec<ComponentField>,
}

impl Component {
    pub fn new(name: String, fields: Vec<ComponentField>) -> (c: Component)
        ensures
            c.name == name,
            c.fields == fields,
    {
        Component { name, fields }
    }
}

/// The field views of a component: type and name character sequences.
pub open spec fn cfields_view(s: Seq<ComponentField>) -> Seq<(Seq<char>, Seq<char>)>
    decreases s,
{
    if s.len() == 0 {
        Seq::empty()
    } else {
        cfields_view(s.drop_last()).push((s.last().typ@, s.last().name@))
    }
}

pub proof fn lemma_cfields_view_elems(s: Seq<ComponentField>)
    ensures
        cfields_view(s).len() == s.len(),
        forall|m: int|
            0 <= m < s.len() ==> cfields_view(s)[m] == ((#[trigger] s[m]).typ@, s[m].name@),
    decreases s.len(),
{
    if s.len() > 0 {
        lemma_cfields_view_elems(s.drop_last());
        assert forall|m: int| 0 <= m < s.len() implies cfields_view(s)[m] == ((
        #[trigger] s[m]).typ@, s[m].name@) by {
            if m < s.len() - 1 {
                assert(s.drop_last()[m] == s[m]);
                assert(cfields_view(s)[m] == cfields_view(s.drop_last())[m]);
            } else {
                assert(s[m] == s.last());
            }
        }
    }
}

pub proof fn lemma_sfields_view_elems(s: Seq<StructField>)
    ensures
        fields_view(s).len() == s.len(),
        forall|m: int|
            0 <= m < s.len() ==> fields_view(s)[m] == ((#[trigger] s[m]).typ@, s[m].name@),
    decreases s.len(),
{
    if s.len() > 0 {
        lemma_sfields_view_elems(s.drop_last());
        assert forall|m: int| 0 <= m < s.len() implies fields_view(s)[m] == ((
        #[trigger] s[m]).typ@, s[m].name@) by {
            if m < s.len() - 1 {
                assert(s.drop_last()[m] == s[m]);
                assert(fields_view(s)[m] == fields_view(s.drop_last())[m]);
            } else {
                assert(s[m] == s.last());
            }
        }
    }
}

/// Turn generic record fields into component fields, keeping order.
pub fn record_to_component_fields(fields: Vec<StructField>) -> (out: Vec<ComponentField>)
    ensures
        cfields_view(out@) == fields_view(fields@),
{
    let ghost orig = fields@;
    let mut rest = fields;
    let mut out: Vec<ComponentField> = Vec::new();
    proof {
        lemma_sfields_view_elems(orig);
    }
    while rest.len() > 0
        invariant
            out@.len() + rest@.len() == orig.len(),
            forall|m: int|
                0 <= m < out@.len() ==> ((#[trigger] out@[m]).typ@, out@[m].name@) == (orig[
                    m].typ@, orig[m].name@),
            forall|m: int|
                0 <= m < rest@.len() ==> #[trigger] rest@[m] == orig[out@.len() + m],
        decreases rest@.len(),
    {
        let f = rest.remove(0);
        out.push(ComponentField { typ: f.typ, name: f.name });
    }
    proof {
        lemma_cfields_view_elems(out@);
        lemma_sfields_view_elems(orig);
        assert forall|m: int| 0 <= m < out@.len() implies cfields_view(out@)[m] == fields_view(
            orig,
        )[m] by {
            assert(((#[trigger] out@[m]).typ@, out@[m].name@) == (orig[m].typ@, orig[m].name@));
        }
        assert(cfields_view(out@) =~= fields_view(orig));
    }
    out
}

/// Match a component declaration at the cursor: the `component` tag, a
/// name, and a brace-delimited sequence of `type name;` fields.
pub fn parse_component<'a>(src: ParseSrc<'a>) -> (r: ParseResult<'a, Component>)
    requires
        src.wf(),
    ensures
        ({
            let text = src.text@;
            let i0 = src.pos();
            match r {
                Ok(s) => {
                    &&& spec_record(text, i0, "component"@) matches RecordParse::RecordOk {
                        name,
                        fields,
                        end,
                    }
                    &&& s.value.name@ == name
                    &&& cfields_view(s.value.fields@) == fields
                    &&& s.src.pos() == end
                    &&& s.src.pos() > i0
                    &&& s.src.wf()
                    &&& s.src.text == src.text
                    &&& s.span == (Span { start: src.location, end: s.src.location })
                },
                Err(e) => {
                    &&& spec_record(text, i0, "component"@) matches RecordParse::RecordFailed {
                        at,
                        msg,
                    }
                    &&& crate::location::loc_wf(text, e.location)
                    &&& e.location.index == at
                    &&& e.message@ == msg
                },
            }
        }),
{
    let tag = str_to_chars("component");
    proof {
        reveal_strlit("component");
        assert forall|k: int| 0 <= k < tag@.len() implies #[trigger] tag@[k] != '\r' && tag@[k]
            != '\n' by {
            assert(tag@ == "component"@);
        }
    }
    match parse_record(tag.as_slice(), src) {
        Ok(s) => {
            let (name, rfields) = s.value;
            let fields = record_to_component_fields(rfields);
            Ok(ParseSuccess { value: Component { name, fields }, span: s.span, src: s.src })
        },
        Err(e) => Err(e),
    }
}

/// Match one component field at the cursor: identifiers up to a `;`, the
/// last being the field's name and the text before it its type.
pub fn parse_component_field<'a>(src: ParseSrc<'a>) -> (r: ParseResult<'a, ComponentField>)
    requires
        src.wf(),
    ensures
        ({
            let text = src.text@;
            let i0 = src.pos();
            match r {
                Ok(s) => {
                    &&& spec_struct_field(text, i0) matches FieldParse::FieldOk {
                        typ,
                        name,
                        end,
                    }
                    &&& s.value.typ@ == typ
                    &&& s.value.name@ == name
                    &&& s.src.pos() == end
                    &&& s.src.pos() > i0
                    &&& s.src.wf()
                    &&& s.src.text == src.text
                    &&& s.span == (Span { start: src.location, end: s.src.location })
                },
                Err(e) => {
                    &&& spec_struct_field(text, i0) matches FieldParse::FieldFailed { at, msg }
                    &&& crate::location::loc_wf(text, e.location)
                    &&& e.location.index == at
                    &&& e.message@ == msg
                },
            }
        }),
{
    match parse_struct_field(src) {
        Ok(s) => {
            let f = s.value;
            Ok(
                ParseSuccess {
                    value: ComponentField { typ: f.typ, name: f.name },
                    span: s.span,
                    src: s.src,
                },
            )
        },
        Err(e) => Err(e),
    }
}

} // verus!

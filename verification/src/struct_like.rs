//! Brace-delimited field records with multi-token types: a name, then
//! `{`, then `type-tokens... name;` fields, then `}`. The field's name is
//! the last identifier before the terminating `;`; everything before it
//! is the type text, taken verbatim from the source and trimmed.

use vstd::prelude::*;

use crate::basic::identifiers::{ident_end, msg_ident_bad_start, msg_ident_ended, parse_identifier};
use crate::basic::strings::{lemma_skip_ws_bounds, msg_char_mismatch, parse_char, parse_whitespace, skip_ws};
use crate::comments::trim_spec;
use crate::location::Span;
use crate::results::{ParseResult, ParseSuccess};
use crate::source::{logical_at, logical_step, ParseSrc};
use crate::text::is_ident_start;

verus! {

/// A single record member: its type text and its name.
#[derive(Debug, Clone, PartialEq, Eq)]
pub struct StructField {
    pub typ: String,
    pub name: String,
}

impl StructField {
    pub fn new(typ: String, name: String) -> (f: StructField)
        ensures
            f.typ == typ,
            f.name == name,
    {
        StructField { typ, name }
    }
}

/// A named record: a name and its fields in declared order.
#[derive(Debug, Clone, PartialEq, Eq)]
pub struct Struct {
    pub name: String,
    pub fields: Vec<StructField>,
}

impl Struct {
    pub fn new(name: String, fields: Vec<StructField>) -> (s: Struct)
        ensures
            s.name == name,
            s.fields == fields,
    {
        Struct { name, fields }
    }
}

/// The field views: type text and name as character sequences.
pub open spec fn fields_view(s: Seq<StructField>) -> Seq<(Seq<char>, Seq<char>)>
    decreases s,
{
    if s.len() == 0 {
        Seq::empty()
    } else {
        fields_view(s.drop_last()).push((s.last().typ@, s.last().name@))
    }
}

pub proof fn lemma_fields_view_push(s: Seq<StructField>, f: StructField)
    ensures
        fields_view(s.push(f)) == fields_view(s).push((f.typ@, f.name@)),
{
    assert(s.push(f).drop_last() =~= s);
    assert(s.push(f).last() == f);
}

/// The outcome of the field rule: the type text, the name, and the end
/// position.
pub enum FieldParse {
    FieldOk { typ: Seq<char>, name: Seq<char>, end: int },
    FieldFailed { at: int, msg: Seq<char> },
}

/// The rest of one field after its opening identifier: from `from`, the
/// type text read so far reaches to `typ_end`, and the next identifier
/// starts at `j`. The last identifier before the `;` is the name; each
/// earlier one extends the type text.
pub open spec fn spec_field_rest(text: Seq<char>, from: int, typ_end: int, j: int) -> FieldParse
    decreases text.len() - j,
{
    if !(0 <= j <= text.len()) {
        FieldParse::FieldFailed { at: j, msg: Seq::empty() }
    } else if !(j < text.len() && is_ident_start(logical_at(text, j))) {
        FieldParse::FieldFailed {
            at: j,
            msg: if j < text.len() {
                msg_ident_bad_start(logical_at(text, j))
            } else {
                msg_ident_ended()
            },
        }
    } else {
        let e = ident_end(text, j + 1);
        let j2 = skip_ws(text, e);
        if j2 == text.len() {
            FieldParse::FieldOk {
                typ: trim_spec(text.subrange(from, typ_end)),
                name: text.subrange(j, e),
                end: j2,
            }
        } else if logical_at(text, j2) == ';' {
            FieldParse::FieldOk {
                typ: trim_spec(text.subrange(from, typ_end)),
                name: text.subrange(j, e),
                end: logical_step(text, j2),
            }
        } else if j < j2 <= text.len() {
            spec_field_rest(text, from, j2, j2)
        } else {
            FieldParse::FieldFailed { at: j2, msg: Seq::empty() }
        }
    }
}

/// What the field rule yields at `i`: one identifier opening the type,
/// then further identifiers, the last of which is the name.
pub open spec fn spec_struct_field(text: Seq<char>, i: int) -> FieldParse {
    if !(0 <= i < text.len() && is_ident_start(logical_at(text, i))) {
        FieldParse::FieldFailed {
            at: i,
            msg: if 0 <= i < text.len() {
                msg_ident_bad_start(logical_at(text, i))
            } else {
                msg_ident_ended()
            },
        }
    } else {
        spec_field_rest(text, i, ident_end(text, i + 1), skip_ws(text, ident_end(text, i + 1)))
    }
}

/// Match one field at the cursor: identifiers up to a `;`, the last being
/// the field's name and the text before it its type.
pub fn parse_struct_field<'a>(src: ParseSrc<'a>) -> (r: ParseResult<'a, StructField>)
    requires
        src.wf(),
    ensures
        ({
            let text = src.text@;
            let i0 = src.pos();
            match r {
                Ok(s) => {
                    &&& spec_struct_field(text, i0) matches FieldParse::FieldOk {
                        typ,
                        name,
                        end,
                    }
                    &&& s.value.typ@ == typ
                    &&& s.value.name@ == name
                    &&& s.src.pos() == end
                    &&& s.src.pos() > i0
                    &&& s.src.wf()
                    &&& s.src.text == src.text
                    &&& s.span == (Span { start: src.location, end: s.src.location })
                },
                Err(e) => {
                    &&& spec_struct_field(text, i0) matches FieldParse::FieldFailed { at, msg }
                    &&& crate::location::loc_wf(text, e.location)
                    &&& e.location.index == at
                    &&& e.message@ == msg
                },
            }
        }),
{
    let ghost text = src.text@;
    let ghost i0 = src.pos();
    let start = src;
    let first = match parse_identifier(src) {
        Ok(f) => f,
        Err(e) => {
            return Err(e);
        },
    };
    let mut typ = first.value;
    let w = parse_whitespace(first.src)?;
    let mut cur = w.src;
    let ghost mut typ_end = first.src.pos();
    proof {
        crate::basic::identifiers::lemma_ident_end_bounds(text, i0 + 1);
        lemma_skip_ws_bounds(text, first.src.pos());
        assert(!crate::source::crlf_at(text, i0));
        lemma_ident_run_trimmed(text, i0, typ_end);
    }
    loop
        invariant
            cur.wf(),
            cur.text == src.text,
            text == src.text@,
            i0 < typ_end <= cur.pos() <= text.len(),
            i0 == src.pos(),
            start == src,
            src.wf(),
            typ@ == trim_spec(text.subrange(i0, typ_end)),
            spec_struct_field(text, i0) == spec_field_rest(text, i0, typ_end, cur.pos()),
        decreases text.len() - cur.pos(),
    {
        let ghost j = cur.pos();
        let cont = match parse_identifier(cur) {
            Ok(c) => c,
            Err(e) => {
                return Err(e);
            },
        };
        let w2 = parse_whitespace(cont.src)?;
        let after = w2.src;
        proof {
            crate::basic::identifiers::lemma_ident_end_bounds(text, j + 1);
            lemma_skip_ws_bounds(text, cont.src.pos());
        }
        match parse_char(';', after) {
            Ok(fin) => {
                return Ok(
                    ParseSuccess {
                        value: StructField { typ, name: cont.value },
                        span: fin.src.span_from(&start),
                        src: fin.src,
                    },
                );
            },
            Err(_) => {},
        }
        let tspan = after.span_from(&start);
        let raw = after.slice(tspan);
        typ = crate::comments::trim_to_string(raw);
        proof {
            typ_end = after.pos();
        }
        cur = after;
    }
}

/// An identifier run carries no surrounding white space, so trimming the
/// slice from its start to its end changes nothing.
proof fn lemma_ident_run_trimmed(text: Seq<char>, i: int, e: int)
    requires
        0 <= i < e <= text.len(),
        is_ident_start(text[i]),
        e == ident_end(text, i + 1),
    ensures
        trim_spec(text.subrange(i, e)) == text.subrange(i, e),
{
    let s = text.subrange(i, e);
    assert(s[0] == text[i]);
    assert(!crate::text::is_space(s[0]));
    assert(crate::comments::ltrim_idx(s, 0) == 0);
    if e - 1 > i {
        crate::basic::identifiers::lemma_ident_end_cont(text, i + 1, e - 1);
        assert(crate::text::is_ident_cont(text[e - 1]));
    } else {
        assert(e == i + 1);
    }
    assert(s[s.len() - 1] == text[e - 1]);
    assert(!crate::text::is_space(s[s.len() - 1]));
    assert(crate::comments::rtrim_idx(s, s.len() as int) == s.len());
    assert(trim_spec(s) == s.subrange(0, s.len() as int));
    assert(s.subrange(0, s.len() as int) =~= s);
}

/// What the record rule yields at `i`: a name, `{`, fields, `}`.
pub enum StructParse {
    StructOk { name: Seq<char>, fields: Seq<(Seq<char>, Seq<char>)>, end: int },
    StructFailed { at: int, msg: Seq<char> },
}

/// The fields of a record from `j` until the closing brace.
pub open spec fn spec_struct_fields(
    text: Seq<char>,
    name: Seq<char>,
    j: int,
    acc: Seq<(Seq<char>, Seq<char>)>,
) -> StructParse
    decreases text.len() - j,
{
    if !(0 <= j <= text.len()) {
        StructParse::StructFailed { at: j, msg: Seq::empty() }
    } else if j == text.len() {
        StructParse::StructOk { name, fields: acc, end: j }
    } else if logical_at(text, j) == '}' {
        StructParse::StructOk { name, fields: acc, end: logical_step(text, j) }
    } else {
        match spec_struct_field(text, j) {
            FieldParse::FieldFailed { at, msg } => StructParse::StructFailed { at, msg },
            FieldParse::FieldOk { typ, name: fname, end } => {
                let j2 = skip_ws(text, end);
                if j < j2 <= text.len() {
                    spec_struct_fields(text, name, j2, acc.push((typ, fname)))
                } else {
                    StructParse::StructFailed { at: j2, msg: Seq::empty() }
                }
            },
        }
    }
}

/// What the record rule yields at `i`.
pub open spec fn spec_struct(text: Seq<char>, i: int) -> StructParse {
    if !(0 <= i < text.len() && is_ident_start(logical_at(text, i))) {
        StructParse::StructFailed {
            at: i,
            msg: if 0 <= i < text.len() {
                msg_ident_bad_start(logical_at(text, i))
            } else {
                msg_ident_ended()
            },
        }
    } else {
        let e = ident_end(text, i + 1);
        let name = text.subrange(i, e);
        let j = skip_ws(text, e);
        if j == text.len() {
            spec_struct_fields(text, name, j, Seq::empty())
        } else if logical_at(text, j) != '{' {
            StructParse::StructFailed { at: j, msg: msg_char_mismatch('{', logical_at(text, j)) }
        } else {
            spec_struct_fields(text, name, skip_ws(text, logical_step(text, j)), Seq::empty())
        }
    }
}

/// Match a record at the cursor: a name, `{`, any number of fields, `}`.
pub fn parse_struct<'a>(src: ParseSrc<'a>) -> (r: ParseResult<'a, Struct>)
    requires
        src.wf(),
    ensures
        ({
            let text = src.text@;
            let i0 = src.pos();
            match r {
                Ok(s) => {
                    &&& spec_struct(text, i0) matches StructParse::StructOk {
                        name,
                        fields,
                        end,
                    }
                    &&& s.value.name@ == name
                    &&& fields_view(s.value.fields@) == fields
                    &&& s.src.pos() == end
                    &&& s.src.pos() > i0
                    &&& s.src.wf()
                    &&& s.src.text == src.text
                    &&& s.span == (Span { start: src.location, end: s.src.location })
                },
                Err(e) => {
                    &&& spec_struct(text, i0) matches StructParse::StructFailed { at, msg }
                    &&& crate::location::loc_wf(text, e.location)
                    &&& e.location.index == at
                    &&& e.message@ == msg
                },
            }
        }),
{
    let ghost text = src.text@;
    let ghost i0 = src.pos();
    let start = src;
    let parsed_name = match parse_identifier(src) {
        Ok(n) => n,
        Err(e) => {
            return Err(e);
        },
    };
    let ghost name_v = parsed_name.value@;
    let w = parse_whitespace(parsed_name.src)?;
    proof {
        crate::basic::identifiers::lemma_ident_end_bounds(text, i0 + 1);
        lemma_skip_ws_bounds(text, parsed_name.src.pos());
    }
    let brace = match parse_char('{', w.src) {
        Ok(b) => b,
        Err(e) => {
            return Err(e);
        },
    };
    let w2 = parse_whitespace(brace.src)?;
    let mut cur = w2.src;
    proof {
        if w.src.pos() < text.len() {
            lemma_skip_ws_bounds(text, logical_step(text, w.src.pos()));
        }
    }
    let mut fields: Vec<StructField> = Vec::new();
    proof {
        assert(fields_view(fields@) =~= Seq::<(Seq<char>, Seq<char>)>::empty());
        assert(spec_struct(text, i0) == spec_struct_fields(
            text,
            name_v,
            cur.pos(),
            fields_view(fields@),
        ));
    }
    loop
        invariant
            cur.wf(),
            cur.text == src.text,
            text == src.text@,
            i0 < cur.pos() <= text.len(),
            i0 == src.pos(),
            start == src,
            src.wf(),
            spec_struct(text, i0) == spec_struct_fields(text, name_v, cur.pos(), fields_view(
                fields@,
            )),
            name_v == parsed_name.value@,
        decreases text.len() - cur.pos(),
    {
        let ghost j = cur.pos();
        let ghost acc = fields_view(fields@);
        match parse_char('}', cur) {
            Ok(fin) => {
                return Ok(
                    ParseSuccess {
                        value: Struct { name: parsed_name.value, fields },
                        span: fin.src.span_from(&start),
                        src: fin.src,
                    },
                );
            },
            Err(_) => {},
        }
        let field = match parse_struct_field(cur) {
            Ok(f) => f,
            Err(e) => {
                return Err(e);
            },
        };
        let w3 = parse_whitespace(field.src)?;
        proof {
            lemma_skip_ws_bounds(text, field.src.pos());
        }
        let ghost prev_fields = fields@;
        fields.push(field.value);
        cur = w3.src;
        proof {
            lemma_fields_view_push(prev_fields, field.value);
            assert(spec_struct_fields(text, name_v, j, acc) == spec_struct_fields(
                text,
                name_v,
                cur.pos(),
                fields_view(fields@),
            ));
        }
    }
}

} // verus!

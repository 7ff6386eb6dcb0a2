//! The shared shape of component and event declarations: a tag word, a
//! name, and a brace-delimited sequence of `type-tokens... name;` fields,
//! where the last identifier before each `;` is the field's name and the
//! text before it its type.

use vstd::prelude::*;

use crate::basic::identifiers::{ident_end, msg_ident_bad_start, msg_ident_ended, parse_identifier};
use crate::basic::strings::{lemma_lit_scan_word, lemma_skip_ws_bounds, lit_scan, msg_char_mismatch, parse_char, parse_str, parse_whitespace, skip_ws};
use crate::comments::opener_err_msg;
use crate::location::Span;
use crate::results::{ParseResult, ParseSuccess};
use crate::source::{logical_at, logical_step, ParseSrc};
use crate::struct_like::{fields_view, lemma_fields_view_push, parse_struct_field, spec_struct_field, FieldParse, StructField};
use crate::text::is_ident_start;

verus! {

/// What parsing a tagged record yields at `i`.
pub enum RecordParse {
    RecordOk { name: Seq<char>, fields: Seq<(Seq<char>, Seq<char>)>, end: int },
    RecordFailed { at: int, msg: Seq<char> },
}

/// The fields of a record from `j`: fields while they match, then the
/// closing brace.
pub open spec fn spec_record_fields(
    text: Seq<char>,
    name: Seq<char>,
    j: int,
    acc: Seq<(Seq<char>, Seq<char>)>,
) -> RecordParse
    decreases text.len() - j,
{
    if !(0 <= j <= text.len()) {
        RecordParse::RecordFailed { at: j, msg: Seq::empty() }
    } else {
        match spec_struct_field(text, j) {
            FieldParse::FieldOk { typ, name: fname, end } => {
                let j2 = skip_ws(text, end);
                if j < j2 <= text.len() {
                    spec_record_fields(text, name, j2, acc.push((typ, fname)))
                } else {
                    RecordParse::RecordFailed { at: j2, msg: Seq::empty() }
                }
            },
            FieldParse::FieldFailed { at, msg } => {
                if j == text.len() {
                    RecordParse::RecordOk { name, fields: acc, end: j }
                } else if logical_at(text, j) == '}' {
                    RecordParse::RecordOk { name, fields: acc, end: logical_step(text, j) }
                } else {
                    RecordParse::RecordFailed {
                        at: j,
                        msg: msg_char_mismatch('}', logical_at(text, j)),
                    }
                }
            },
        }
    }
}

/// What the tagged record rule yields at `i`: the tag word, a name, `{`,
/// fields, `}`.
pub open spec fn spec_record(text: Seq<char>, i: int, tag: Seq<char>) -> RecordParse {
    if !(lit_scan(text, i, tag, 0) is Done) {
        RecordParse::RecordFailed { at: i, msg: opener_err_msg(text, i, tag) }
    } else {
        let j = skip_ws(text, i + tag.len());
        if !(j < text.len() && is_ident_start(logical_at(text, j))) {
            RecordParse::RecordFailed {
                at: j,
                msg: if j < text.len() {
                    msg_ident_bad_start(logical_at(text, j))
                } else {
                    msg_ident_ended()
                },
            }
        } else {
            let e = ident_end(text, j + 1);
            let name = text.subrange(j, e);
            let j2 = skip_ws(text, e);
            if j2 == text.len() {
                spec_record_fields(text, name, j2, Seq::empty())
            } else if logical_at(text, j2) != '{' {
                RecordParse::RecordFailed {
                    at: j2,
                    msg: msg_char_mismatch('{', logical_at(text, j2)),
                }
            } else {
                spec_record_fields(text, name, skip_ws(text, logical_step(text, j2)), Seq::empty())
            }
        }
    }
}

/// Match a tagged record at the cursor. The tag must hold no carriage
/// return or line feed.
pub fn parse_record<'a>(tag: &[char], src: ParseSrc<'a>) -> (r: ParseResult<
    'a,
    (String, Vec<StructField>),
>)
    requires
        src.wf(),
        forall|k: int| 0 <= k < tag@.len() ==> #[trigger] tag@[k] != '\r' && tag@[k] != '\n',
    ensures
        ({
            let text = src.text@;
            let i0 = src.pos();
            match r {
                Ok(s) => {
                    &&& spec_record(text, i0, tag@) matches RecordParse::RecordOk {
                        name,
                        fields,
                        end,
                    }
                    &&& s.value.0@ == name
                    &&& fields_view(s.value.1@) == fields
                    &&& s.src.pos() == end
                    &&& s.src.pos() > i0 || tag@.len() == 0
                    &&& s.src.wf()
                    &&& s.src.text == src.text
                    &&& s.span == (Span { start: src.location, end: s.src.location })
                },
                Err(e) => {
                    &&& spec_record(text, i0, tag@) matches RecordParse::RecordFailed {
                        at,
                        msg,
                    }
                    &&& crate::location::loc_wf(text, e.location)
                    &&& e.location.index == at
                    &&& e.message@ == msg
                },
            }
        }),
{
    let ghost text = src.text@;
    let ghost i0 = src.pos();
    let start = src;
    proof {
        lemma_lit_scan_word(text, i0, tag@, 0);
    }
    let opener = match parse_str(tag, src) {
        Ok(o) => o,
        Err(e) => {
            return Err(e);
        },
    };
    let w0 = parse_whitespace(opener.src)?;
    proof {
        lemma_skip_ws_bounds(text, opener.src.pos());
    }
    let parsed_name = match parse_identifier(w0.src) {
        Ok(n) => n,
        Err(e) => {
            return Err(e);
        },
    };
    let ghost name_v = parsed_name.value@;
    let w = parse_whitespace(parsed_name.src)?;
    proof {
        crate::basic::identifiers::lemma_ident_end_bounds(text, w0.src.pos() + 1);
        lemma_skip_ws_bounds(text, parsed_name.src.pos());
    }
    let brace = match parse_char('{', w.src) {
        Ok(b) => b,
        Err(e) => {
            return Err(e);
        },
    };
    let w2 = parse_whitespace(brace.src)?;
    let mut cur = w2.src;
    proof {
        if w.src.pos() < text.len() {
            lemma_skip_ws_bounds(text, logical_step(text, w.src.pos()));
        }
    }
    let mut fields: Vec<StructField> = Vec::new();
    proof {
        assert(fields_view(fields@) =~= Seq::<(Seq<char>, Seq<char>)>::empty());
        assert(spec_record(text, i0, tag@) == spec_record_fields(
            text,
            name_v,
            cur.pos(),
            fields_view(fields@),
        ));
    }
    loop
        invariant
            cur.wf(),
            cur.text == src.text,
            text == src.text@,
            i0 <= cur.pos() <= text.len(),
            i0 == src.pos(),
            start == src,
            src.wf(),
            name_v == parsed_name.value@,
            spec_record(text, i0, tag@) == spec_record_fields(text, name_v, cur.pos(), fields_view(
                fields@,
            )),
            tag@.len() == 0 || i0 < cur.pos(),
        decreases text.len() - cur.pos(),
    {
        let ghost j = cur.pos();
        let ghost acc = fields_view(fields@);
        let field = match parse_struct_field(cur) {
            Ok(f) => f,
            Err(_) => {
                match parse_char('}', cur) {
                    Ok(fin) => {
                        return Ok(
                            ParseSuccess {
                                value: (parsed_name.value, fields),
                                span: fin.src.span_from(&start),
                                src: fin.src,
                            },
                        );
                    },
                    Err(e2) => {
                        return Err(e2);
                    },
                }
            },
        };
        let w3 = parse_whitespace(field.src)?;
        proof {
            lemma_skip_ws_bounds(text, field.src.pos());
        }
        let ghost prev_fields = fields@;
        fields.push(field.value);
        cur = w3.src;
        proof {
            lemma_fields_view_push(prev_fields, field.value);
            assert(spec_record_fields(text, name_v, j, acc) == spec_record_fields(
                text,
                name_v,
                cur.pos(),
                fields_view(fields@),
            ));
        }
    }
}

} // verus!

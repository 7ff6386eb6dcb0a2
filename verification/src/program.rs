//! The top level of the declaration grammar: a sequence of component,
//! event and system declarations in any order, bucketed by kind in source
//! order. Reaching the end of the input between declarations is the sole
//! successful termination.

use vstd::prelude::*;
use vstd::string::StringExecFns;

use crate::basic::strings::{lemma_skip_ws_bounds, parse_whitespace, skip_ws};
use crate::components::{cfields_view, parse_component, Component};
use crate::events::{efields_view, parse_event, Event};
use crate::function_like::{params_view, FunctionParse};
use crate::msg::append_chars;
use crate::records::{spec_record, RecordParse};
use crate::location::Span;
use crate::results::{ParseError, ParseResult, ParseSuccess};
use crate::source::{logical_at, logical_step, ParseSrc};
use crate::systems::{parse_system, spec_system, System};

verus! {

/// The parsed program: components, events and systems, each in source
/// order.
#[derive(Debug, PartialEq, Eq)]
pub struct Parsed {
    pub components: Vec<Component>,
    pub events: Vec<Event>,
    pub systems: Vec<System>,
}

impl Parsed {
    /// An empty program.
    pub fn new() -> (p: Parsed)
        ensures
            p.components@ == Seq::<Component>::empty(),
            p.events@ == Seq::<Event>::empty(),
            p.systems@ == Seq::<System>::empty(),
    {
        Parsed { components: Vec::new(), events: Vec::new(), systems: Vec::new() }
    }
}

/// The component views: name and fields.
pub open spec fn comps_view(s: Seq<Component>) -> Seq<(Seq<char>, Seq<(Seq<char>, Seq<char>)>)>
    decreases s,
{
    if s.len() == 0 {
        Seq::empty()
    } else {
        comps_view(s.drop_last()).push((s.last().name@, cfields_view(s.last().fields@)))
    }
}

/// The event views: name and fields.
pub open spec fn evts_view(s: Seq<Event>) -> Seq<(Seq<char>, Seq<(Seq<char>, Seq<char>)>)>
    decreases s,
{
    if s.len() == 0 {
        Seq::empty()
    } else {
        evts_view(s.drop_last()).push((s.last().name@, efields_view(s.last().fields@)))
    }
}

/// The system views: name and dependencies.
pub open spec fn syss_view(s: Seq<System>) -> Seq<(Seq<char>, Seq<Seq<char>>)>
    decreases s,
{
    if s.len() == 0 {
        Seq::empty()
    } else {
        syss_view(s.drop_last()).push((s.last().name@, params_view(s.last().params@)))
    }
}

pub proof fn lemma_comps_view_push(s: Seq<Component>, c: Component)
    ensures
        comps_view(s.push(c)) == comps_view(s).push((c.name@, cfields_view(c.fields@))),
{
    assert(s.push(c).drop_last() =~= s);
    assert(s.push(c).last() == c);
}

pub proof fn lemma_evts_view_push(s: Seq<Event>, c: Event)
    ensures
        evts_view(s.push(c)) == evts_view(s).push((c.name@, efields_view(c.fields@))),
{
    assert(s.push(c).drop_last() =~= s);
    assert(s.push(c).last() == c);
}

pub proof fn lemma_syss_view_push(s: Seq<System>, c: System)
    ensures
        syss_view(s.push(c)) == syss_view(s).push((c.name@, params_view(c.params@))),
{
    assert(s.push(c).drop_last() =~= s);
    assert(s.push(c).last() == c);
}

/// What the top level yields: the three buckets and the end position, or
/// a located message.
pub enum ProgramParse {
    ProgramOk {
        comps: Seq<(Seq<char>, Seq<(Seq<char>, Seq<char>)>)>,
        evts: Seq<(Seq<char>, Seq<(Seq<char>, Seq<char>)>)>,
        syss: Seq<(Seq<char>, Seq<Seq<char>>)>,
        end: int,
    },
    ProgramFailed { at: int, msg: Seq<char> },
}

/// The first line of the text from `i`, capped at `left` characters.
pub open spec fn line_preview(text: Seq<char>, i: int, left: int) -> Seq<char>
    decreases text.len() - i,
{
    if !(0 <= i < text.len()) || left <= 0 {
        Seq::empty()
    } else if logical_at(text, i) == '\n' {
        Seq::empty()
    } else {
        seq![logical_at(text, i)] + line_preview(text, logical_step(text, i), left - 1)
    }
}

/// The message reported where no declaration matches.
pub open spec fn msg_program(text: Seq<char>, i: int) -> Seq<char> {
    "expected component, event or system, but found: "@ + line_preview(text, i, 200)
}

/// One declaration after another from `j`: a component, an event or a
/// system, tried in that order; the end of the input between
/// declarations ends the program.
pub open spec fn spec_program_loop(
    text: Seq<char>,
    j: int,
    cs: Seq<(Seq<char>, Seq<(Seq<char>, Seq<char>)>)>,
    es: Seq<(Seq<char>, Seq<(Seq<char>, Seq<char>)>)>,
    ss: Seq<(Seq<char>, Seq<Seq<char>>)>,
) -> ProgramParse
    decreases text.len() - j,
{
    if !(0 <= j <= text.len()) {
        ProgramParse::ProgramFailed { at: j, msg: Seq::empty() }
    } else {
        match spec_record(text, j, "component"@) {
            RecordParse::RecordOk { name, fields, end } => {
                let j2 = skip_ws(text, end);
                if j < j2 <= text.len() {
                    spec_program_loop(text, j2, cs.push((name, fields)), es, ss)
                } else {
                    ProgramParse::ProgramFailed { at: j2, msg: Seq::empty() }
                }
            },
            RecordParse::RecordFailed { .. } => match spec_record(text, j, "event"@) {
                RecordParse::RecordOk { name, fields, end } => {
                    let j2 = skip_ws(text, end);
                    if j < j2 <= text.len() {
                        spec_program_loop(text, j2, cs, es.push((name, fields)), ss)
                    } else {
                        ProgramParse::ProgramFailed { at: j2, msg: Seq::empty() }
                    }
                },
                RecordParse::RecordFailed { .. } => match spec_system(text, j) {
                    FunctionParse::FunctionOk { name, params, end } => {
                        let j2 = skip_ws(text, end);
                        if j < j2 <= text.len() {
                            spec_program_loop(text, j2, cs, es, ss.push((name, params)))
                        } else {
                            ProgramParse::ProgramFailed { at: j2, msg: Seq::empty() }
                        }
                    },
                    FunctionParse::FunctionFailed { .. } => {
                        if j == text.len() {
                            ProgramParse::ProgramOk { comps: cs, evts: es, syss: ss, end: j }
                        } else {
                            ProgramParse::ProgramFailed { at: j, msg: msg_program(text, j) }
                        }
                    },
                },
            },
        }
    }
}

/// What the whole program parse yields at `i`: leading white space, then
/// declarations until the end of the input.
pub open spec fn spec_program(text: Seq<char>, i: int) -> ProgramParse {
    spec_program_loop(
        text,
        skip_ws(text, i),
        Seq::empty(),
        Seq::empty(),
        Seq::empty(),
    )
}

/// The first line of the text at the cursor, capped, for diagnostics.
fn peek_line<'a>(src: &ParseSrc<'a>) -> (r: Vec<char>)
    requires
        src.wf(),
    ensures
        r@ == line_preview(src.text@, src.pos(), 200),
{
    let mut cur = *src;
    let mut out: Vec<char> = Vec::new();
    let mut left: usize = 200;
    let ghost text = src.text@;
    loop
        invariant
            cur.wf(),
            cur.text == src.text,
            text == src.text@,
            src.wf(),
            left <= 200,
            line_preview(text, src.pos(), 200) == out@ + line_preview(
                text,
                cur.pos(),
                left as int,
            ),
        ensures
            out@ == line_preview(text, src.pos(), 200),
        decreases text.len() - cur.pos(),
    {
        let c = match cur.peek() {
            Some(c) => c,
            None => {
                proof {
                    assert(out@ + line_preview(text, cur.pos(), left as int) =~= out@);
                }
                break ;
            },
        };
        if c == '\n' || left == 0 {
            proof {
                assert(out@ + line_preview(text, cur.pos(), left as int) =~= out@);
            }
            break ;
        }
        let ghost prev_out = out@;
        let ghost prev_pos = cur.pos();
        let ghost prev_left = left as int;
        out.push(c);
        let _ = cur.next();
        left = left - 1;
        proof {
            assert(line_preview(text, prev_pos, prev_left) == seq![c] + line_preview(
                text,
                cur.pos(),
                left as int,
            ));
            assert(prev_out + (seq![c] + line_preview(text, cur.pos(), left as int)) =~= out@
                + line_preview(text, cur.pos(), left as int));
        }
    }
    out
}

/// Parse a whole program at the cursor: white space, then declarations
/// until the end of the input. A failure inside a declaration propagates
/// its own located message; text that no declaration matches is named in
/// full up to the end of its line.
pub fn parse<'a>(src: ParseSrc<'a>) -> (r: ParseResult<'a, Parsed>)
    requires
        src.wf(),
    ensures
        ({
            let text = src.text@;
            let i0 = src.pos();
            match r {
                Ok(s) => {
                    &&& spec_program(text, i0) matches ProgramParse::ProgramOk {
                        comps,
                        evts,
                        syss,
                        end,
                    }
                    &&& comps_view(s.value.components@) == comps
                    &&& evts_view(s.value.events@) == evts
                    &&& syss_view(s.value.systems@) == syss
                    &&& s.src.pos() == end
                    &&& s.src.wf()
                    &&& s.src.text == src.text
                    &&& s.span == (Span { start: src.location, end: s.src.location })
                },
                Err(e) => {
                    &&& spec_program(text, i0) matches ProgramParse::ProgramFailed { at, msg }
                    &&& crate::location::loc_wf(text, e.location)
                    &&& e.location.index == at
                    &&& e.message@ == msg
                },
            }
        }),
{
    let ghost text = src.text@;
    let ghost i0 = src.pos();
    let start = src;
    let w = parse_whitespace(src)?;
    let mut cur = w.src;
    proof {
        lemma_skip_ws_bounds(text, i0);
    }
    let mut parsed = Parsed::new();
    proof {
        assert(comps_view(parsed.components@) =~= Seq::<(
            Seq<char>,
            Seq<(Seq<char>, Seq<char>)>,
        )>::empty());
        assert(evts_view(parsed.events@) =~= Seq::<(
            Seq<char>,
            Seq<(Seq<char>, Seq<char>)>,
        )>::empty());
        assert(syss_view(parsed.systems@) =~= Seq::<(Seq<char>, Seq<Seq<char>>)>::empty());
    }
    loop
        invariant
            cur.wf(),
            cur.text == src.text,
            text == src.text@,
            i0 <= cur.pos() <= text.len(),
            i0 == src.pos(),
            start == src,
            src.wf(),
            spec_program(text, i0) == spec_program_loop(
                text,
                cur.pos(),
                comps_view(parsed.components@),
                evts_view(parsed.events@),
                syss_view(parsed.systems@),
            ),
        decreases text.len() - cur.pos(),
    {
        let ghost j = cur.pos();
        let ghost cs = comps_view(parsed.components@);
        let ghost es = evts_view(parsed.events@);
        let ghost ss = syss_view(parsed.systems@);
        match parse_component(cur) {
            Ok(c) => {
                let w2 = parse_whitespace(c.src)?;
                proof {
                    lemma_skip_ws_bounds(text, c.src.pos());
                    lemma_comps_view_push(parsed.components@, c.value);
                }
                parsed.components.push(c.value);
                cur = w2.src;
                proof {
                    assert(spec_program_loop(text, j, cs, es, ss) == spec_program_loop(
                        text,
                        cur.pos(),
                        comps_view(parsed.components@),
                        evts_view(parsed.events@),
                        syss_view(parsed.systems@),
                    ));
                }
                continue ;
            },
            Err(_) => {},
        }
        match parse_event(cur) {
            Ok(c) => {
                let w2 = parse_whitespace(c.src)?;
                proof {
                    lemma_skip_ws_bounds(text, c.src.pos());
                    lemma_evts_view_push(parsed.events@, c.value);
                }
                parsed.events.push(c.value);
                cur = w2.src;
                proof {
                    assert(spec_program_loop(text, j, cs, es, ss) == spec_program_loop(
                        text,
                        cur.pos(),
                        comps_view(parsed.components@),
                        evts_view(parsed.events@),
                        syss_view(parsed.systems@),
                    ));
                }
                continue ;
            },
            Err(_) => {},
        }
        match parse_system(cur) {
            Ok(c) => {
                let w2 = parse_whitespace(c.src)?;
                proof {
                    lemma_skip_ws_bounds(text, c.src.pos());
                    lemma_syss_view_push(parsed.systems@, c.value);
                }
                parsed.systems.push(c.value);
                cur = w2.src;
                proof {
                    assert(spec_program_loop(text, j, cs, es, ss) == spec_program_loop(
                        text,
                        cur.pos(),
                        comps_view(parsed.components@),
                        evts_view(parsed.events@),
                        syss_view(parsed.systems@),
                    ));
                }
                continue ;
            },
            Err(_) => {},
        }
        if cur.is_empty() {
            return Ok(ParseSuccess { value: parsed, span: cur.span_from(&start), src: cur });
        }
        let preview = peek_line(&cur);
        let mut m = String::from_str("expected component, event or system, but found: ");
        append_chars(&mut m, preview.as_slice());
        return Err(ParseError::new(cur.location, m));
    }
}

} // verus!

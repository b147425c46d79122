//! The trusted boundary to the outside parser.
//!
//! Source text goes in; a flat sequence of traversal events comes out, one
//! per node boundary and one per token, in document order.  Everything after
//! this point — assembling the events into a tree and all analysis over the
//! tree — is verified code.

use vstd::prelude::*;
use vstd::string::StringSliceAdditionalSpecFns;
use rnix::{NodeOrToken, WalkEvent};

verus! {

/// Event tag: a node opens here.
pub const TAG_OPEN: u8 = 0;

/// Event tag: a token stands here.
pub const TAG_TOKEN: u8 = 1;

/// Event tag: the innermost open node closes here.
pub const TAG_CLOSE: u8 = 2;

/// One step of a preorder walk over the parsed syntax tree.
pub struct RawEvent {
    pub tag: u8,
    pub kind: u16,
    pub start: u32,
    pub end: u32,
    pub text: String,
}

impl RawEvent {
    pub fn open(kind: u16, start: u32, end: u32) -> (r: RawEvent)
        ensures
            r.tag == TAG_OPEN,
            r.kind == kind,
            r.start == start,
            r.end == end,
            r.text@ == Seq::<char>::empty(),
    {
        RawEvent { tag: TAG_OPEN, kind, start, end, text: String::new() }
    }

    pub fn token(kind: u16, start: u32, end: u32, text: String) -> (r: RawEvent)
        ensures
            r.tag == TAG_TOKEN,
            r.kind == kind,
            r.start == start,
            r.end == end,
            r.text == text,
    {
        RawEvent { tag: TAG_TOKEN, kind, start, end, text }
    }

    pub fn close() -> (r: RawEvent)
        ensures
            r.tag == TAG_CLOSE,
            r.kind == 0,
            r.start == 0,
            r.end == 0,
            r.text@ == Seq::<char>::empty(),
    {
        RawEvent { tag: TAG_CLOSE, kind: 0, start: 0, end: 0, text: String::new() }
    }
}

/// The events that the outside parser produces for a given source text.  The
/// parser is deterministic: the events are a function of the text alone.
pub uninterp spec fn parse_events_of(source: Seq<char>) -> Seq<RawEvent>;

/// Relies on rnix::Root::parse and rowan's preorder traversal: parsing is
/// error-tolerant and total, and the traversal emits matched enter/leave
/// events for nodes and one event per token, with kinds in their u16
/// representation and byte offsets of each element's range.  The parser
/// stores offsets as 32-bit values and aborts on a text too long for them,
/// so the source must stay below that range.
#[verifier::external_body]
pub fn parse_events(source: &str) -> (r: Vec<RawEvent>)
    requires
        source.spec_bytes().len() < u32::MAX,
    ensures
        r@ == parse_events_of(source@),
{
    let syntax = rnix::Root::parse(source).syntax();
    syntax.preorder_with_tokens().filter_map(|ev| match ev {
        WalkEvent::Enter(NodeOrToken::Node(n)) => {
            let r = n.text_range();
            Some(RawEvent::open(n.kind() as u16, r.start().into(), r.end().into()))
        }
        WalkEvent::Enter(NodeOrToken::Token(t)) => {
            let r = t.text_range();
            Some(RawEvent::token(t.kind() as u16, r.start().into(), r.end().into(), t.text().to_string()))
        }
        WalkEvent::Leave(NodeOrToken::Node(_)) => Some(RawEvent::close()),
        WalkEvent::Leave(NodeOrToken::Token(_)) => None,
    }).collect()
}

} // verus!

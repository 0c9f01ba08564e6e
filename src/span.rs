//! Turning decoded events into spans: wall-clock times from one startup correlation
//! sample, a name and the attributes.
use vstd::prelude::*;
use crate::event::{BPFEvent, COMM_LEN};

verus! {

/// A monotonic-clock reading and a wall-clock reading (nanoseconds since the Unix
/// epoch), taken together once at startup.
#[derive(Clone, Copy, Debug, PartialEq, Eq, Structural)]
pub struct ClockSample {
    pub monotonic_ns: u64,
    pub wall_ns: u64,
}

/// One attribute of a span.
pub struct SpanAttribute {
    pub key: String,
    pub value: u64,
}

/// A span ready for export: name, wall-clock start and end (nanoseconds since the Unix
/// epoch) and its ordered attributes.
pub struct SpanRecord {
    pub name: String,
    pub start_wall_ns: i128,
    pub end_wall_ns: i128,
    pub attributes: Vec<SpanAttribute>,
}

/// The wall-clock time of monotonic time `t`, by the startup sample.
pub open spec fn wall_time(sample: ClockSample, t: u64) -> int {
    sample.wall_ns + (t - sample.monotonic_ns)
}

/// The text that `String::from_utf8_lossy` makes of some bytes.
pub uninterp spec fn utf8_lossy_of(b: Seq<u8>) -> Seq<char>;

/// Relies on String::from_utf8_lossy: the text depends on the bytes alone.
#[verifier::external_body]
fn lossy_text(b: &[u8]) -> (r: String)
    ensures
        r@ == utf8_lossy_of(b@),
{
    String::from_utf8_lossy(b).into_owned()
}

/// The process name of an event: its name field up to the first NUL byte.
pub open spec fn comm_text(comm: Seq<u8>, name: Seq<u8>) -> bool {
    &&& name.len() <= COMM_LEN
    &&& name == comm.subrange(0, name.len() as int)
    &&& forall|i: int| 0 <= i < name.len() ==> name[i] != 0
    &&& name.len() < COMM_LEN ==> comm[name.len() as int] == 0
}

/// `s` is the span of event `e`.
pub open spec fn span_of(sample: ClockSample, e: BPFEvent, s: SpanRecord) -> bool {
    &&& s.start_wall_ns == wall_time(sample, e.timestamp_start)
    &&& s.end_wall_ns == wall_time(sample, e.timestamp_end)
    &&& exists|name: Seq<u8>| comm_text(e.comm@, name) && s.name@ == "bpf_event: "@ + utf8_lossy_of(name)
    &&& s.attributes@.len() == 3
    &&& s.attributes@[0].key@ == "pid"@ && s.attributes@[0].value == e.pid
    &&& s.attributes@[1].key@ == "timestamp_start"@ && s.attributes@[1].value == e.timestamp_start
    &&& s.attributes@[2].key@ == "timestamp_end"@ && s.attributes@[2].value == e.timestamp_end
}

/// The wall-clock time of monotonic time `t`, by the startup sample.
pub fn wall_clock_ns(sample: &ClockSample, t: u64) -> (r: i128)
    ensures
        r == wall_time(*sample, t),
{
    sample.wall_ns as i128 + (t as i128 - sample.monotonic_ns as i128)
}

/// The span of one event, named after `comm_text`, the text of the event's process name.
pub fn span_with_name(sample: &ClockSample, event: &BPFEvent, comm_text: &str) -> (r: SpanRecord)
    ensures
        r.name@ == "bpf_event: "@ + comm_text@,
        r.start_wall_ns == wall_time(*sample, event.timestamp_start),
        r.end_wall_ns == wall_time(*sample, event.timestamp_end),
        r.attributes@.len() == 3,
        r.attributes@[0].key@ == "pid"@ && r.attributes@[0].value == event.pid,
        r.attributes@[1].key@ == "timestamp_start"@ && r.attributes@[1].value == event.timestamp_start,
        r.attributes@[2].key@ == "timestamp_end"@ && r.attributes@[2].value == event.timestamp_end,
{
    let mut name = String::from_str("bpf_event: ");
    name.append(comm_text);
    let mut attributes: Vec<SpanAttribute> = Vec::new();
    attributes.push(SpanAttribute { key: String::from_str("pid"), value: event.pid as u64 });
    attributes.push(SpanAttribute { key: String::from_str("timestamp_start"), value: event.timestamp_start });
    attributes.push(SpanAttribute { key: String::from_str("timestamp_end"), value: event.timestamp_end });
    SpanRecord {
        name,
        start_wall_ns: wall_clock_ns(sample, event.timestamp_start),
        end_wall_ns: wall_clock_ns(sample, event.timestamp_end),
        attributes,
    }
}

/// The span of one event.
pub fn to_span(sample: &ClockSample, event: &BPFEvent) -> (r: SpanRecord)
    ensures
        span_of(*sample, *event, r),
{
    let comm = event.comm_name();
    let text = lossy_text(comm.as_slice());
    let r = span_with_name(sample, event, text.as_str());
    assert(comm_text(event.comm@, comm@));
    r
}

/// Spans keep the order of their events' start times: events in non-decreasing order of
/// `timestamp_start` give spans in non-decreasing order of start time.
pub proof fn lemma_spans_keep_order(sample: ClockSample, events: Seq<BPFEvent>, spans: Seq<SpanRecord>)
    requires
        spans.len() == events.len(),
        forall|i: int| 0 <= i < events.len() ==> span_of(sample, #[trigger] events[i], spans[i]),
        forall|i: int, j: int|
            0 <= i <= j < events.len() ==> (#[trigger] events[i]).timestamp_start <= (
            #[trigger] events[j]).timestamp_start,
    ensures
        forall|i: int, j: int|
            0 <= i <= j < spans.len() ==> (#[trigger] spans[i]).start_wall_ns <= (
            #[trigger] spans[j]).start_wall_ns,
{
    assert forall|i: int, j: int| 0 <= i <= j < spans.len() implies (#[trigger] spans[i]).start_wall_ns
        <= (#[trigger] spans[j]).start_wall_ns by {
        assert(span_of(sample, events[i], spans[i]));
        assert(span_of(sample, events[j], spans[j]));
        assert(events[i].timestamp_start <= events[j].timestamp_start);
    }
}

} // verus!

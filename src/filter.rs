//! The per-packet decision of a receive core, and the small rules around it:
//! which hand-off shard a flow goes to, how a core picks its mode, and what
//! it counts.
use vstd::prelude::*;
use vstd::slice::slice_subrange;
use crate::flow::Flow;
use crate::flow_table::FlowTable;
use crate::packet::{L4Context, ParseError, parse_frame, context_flow};
use crate::rules::{CompiledRuleSet, set_matches};

verus! {

/// What a receive core does with one frame.
#[derive(Clone, Copy, Debug, PartialEq, Eq, Structural)]
pub enum Verdict {
    /// The frame did not parse; it is counted and dropped.
    Dropped(ParseError),
    /// A new flow whose payload matched no rule; the frame is dropped.
    Rejected(Flow),
    /// The flow was already admitted; its stamp was refreshed.
    Refreshed(Flow),
    /// A new flow whose payload matched a rule; it is now admitted.
    Admitted(Flow),
}

impl Verdict {
    /// The flow to hand the frame off under, if it is accepted.
    pub fn accepted(&self) -> (r: Option<Flow>)
        ensures
            r == match *self {
                Verdict::Refreshed(f) => Some(f),
                Verdict::Admitted(f) => Some(f),
                _ => None::<Flow>,
            },
    {
        match *self {
            Verdict::Refreshed(f) => Some(f),
            Verdict::Admitted(f) => Some(f),
            _ => None,
        }
    }
}

/// The payload bytes that a parsed frame carries.
pub open spec fn payload_of(frame: Seq<u8>, c: L4Context) -> Seq<u8> {
    frame.subrange(c.offset as int, c.offset + c.length)
}

/// Classifies one frame received at `now`: parse it, refresh its flow if
/// the flow is already admitted, otherwise admit the flow when a rule
/// matches its payload.
pub fn process_frame(table: &mut FlowTable, rules: &CompiledRuleSet, frame: &[u8], now: u64) -> (r: Verdict)
    requires
        old(table).wf(),
    ensures
        final(table).wf(),
        final(table).spec_timeout() == old(table).spec_timeout(),
        match parse_frame(frame@) {
            Err(e) => r == Verdict::Dropped(e) && final(table)@ == old(table)@,
            Ok(c) => {
                let f = context_flow(c);
                if old(table)@.contains_key(f) {
                    r == Verdict::Refreshed(f) && final(table)@ == old(table)@.insert(f, now)
                } else if set_matches(rules@, payload_of(frame@, c)) {
                    r == Verdict::Admitted(f) && final(table)@ == old(table)@.insert(f, now)
                } else {
                    r == Verdict::Rejected(f) && final(table)@ == old(table)@
                }
            },
        },
{
    let n = frame.len();
    let ctx = match L4Context::new(frame) {
        Ok(c) => c,
        Err(e) => return Verdict::Dropped(e),
    };
    let flow = ctx.get_flow();
    if table.check_and_refresh(&flow, now) {
        return Verdict::Refreshed(flow);
    }
    let payload = slice_subrange(frame, ctx.offset, ctx.offset + ctx.length);
    let matched = rules.is_match(payload);
    admit_if_matched(table, flow, matched, now)
}

/// The decision for a flow that is not yet admitted, once its payload has
/// been screened: admit it at `now` when a rule matched, else reject it.
pub fn admit_if_matched(table: &mut FlowTable, flow: Flow, matched: bool, now: u64) -> (r: Verdict)
    requires
        old(table).wf(),
    ensures
        final(table).wf(),
        final(table).spec_timeout() == old(table).spec_timeout(),
        matched ==> r == Verdict::Admitted(flow) && final(table)@ == old(table)@.insert(flow, now),
        !matched ==> r == Verdict::Rejected(flow) && final(table)@ == old(table)@,
{
    if matched {
        table.insert(flow, now);
        Verdict::Admitted(flow)
    } else {
        Verdict::Rejected(flow)
    }
}

/// The hand-off shard for a flow whose hash is `hash`, among `shards`.
pub fn shard_index(hash: u64, shards: usize) -> (r: usize)
    requires
        shards > 0,
    ensures
        r == hash as int % shards as int,
        r < shards,
{
    (hash % (shards as u64)) as usize
}

/// The two kinds of receive queue.
#[derive(Clone, Copy, Debug, PartialEq, Eq, Structural)]
pub enum QueueType {
    /// Frames are parsed and classified.
    Receive,
    /// Frames are counted and discarded.
    Sink,
}

/// A core runs in the mode of its first queue.
pub fn core_mode(queues: &Vec<QueueType>) -> (r: QueueType)
    requires
        queues@.len() > 0,
    ensures
        r == queues@[0],
{
    queues[0]
}

/// Whether all queues of a core are of one type.
pub fn queues_homogeneous(queues: &Vec<QueueType>) -> (r: bool)
    ensures
        r == forall|i: int| 0 <= i < queues@.len() ==> #[trigger] queues@[i] == queues@[0],
{
    let mut i: usize = 0;
    while i < queues.len()
        invariant
            i <= queues@.len(),
            forall|j: int| 0 <= j < i ==> #[trigger] queues@[j] == queues@[0],
        decreases queues@.len() - i,
    {
        if queues[i] != queues[0] {
            return false;
        }
        i = i + 1;
    }
    true
}

/// Packets and bytes a core has received. The counters wrap around.
#[derive(Clone, Copy, Debug, PartialEq, Eq, Structural)]
pub struct CoreCounters {
    pub packets: u64,
    pub bytes: u64,
}

impl CoreCounters {
    /// Both counters at zero.
    pub fn new() -> (r: CoreCounters)
        ensures
            r.packets == 0 && r.bytes == 0,
    {
        CoreCounters { packets: 0, bytes: 0 }
    }

    /// Counts one packet of `len` bytes.
    pub fn record(&mut self, len: u64)
        ensures
            final(self).packets == (old(self).packets + 1) % 0x1_0000_0000_0000_0000int,
            final(self).bytes == (old(self).bytes + len) % 0x1_0000_0000_0000_0000int,
    {
        self.packets = self.packets.wrapping_add(1);
        self.bytes = self.bytes.wrapping_add(len);
    }
}

} // verus!

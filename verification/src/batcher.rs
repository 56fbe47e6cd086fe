//! The batcher: finished packets are gathered into batches, and a batch
//! leaves when it is full or when its first packet has waited long enough.

use crate::chunks::duration_as_micros;
use crate::chunks::instant_elapsed;
use crate::handoff::SendOutcome;
use crate::limits::PACKET_DATA_SIZE;
use crate::packet::concat;
use crate::packet::into_packet;
use crate::packet::Packet;
use crate::packet::PacketAccumulator;
use crate::packet::PacketMeta;
use crate::sampling::should_track_packet;
use crate::stats::count;
use crate::stats::StreamerStats;
use std::time::Instant;
use vstd::prelude::*;

verus! {

/// The number of packets that a batch holds when it is full.
pub const PACKETS_PER_BATCH: usize = 64;

/// What the batcher does next.
#[derive(Clone, Copy, Debug, PartialEq, Eq, Structural)]
pub enum BatcherAction {
    /// The server is shutting down: the batcher ends.
    Exit,
    /// The batch is due: it is to be sent to the consumer now.
    Send,
    /// The batch holds packets and is not due yet: the next packet is
    /// waited for, for at most this many nanoseconds.
    WaitAtMost(u128),
    /// The batch is empty: the next packet is waited for.
    Wait,
}

/// The rule of the batcher, for a batch of `len` packets whose first packet
/// came `elapsed` nanoseconds ago, under a coalescing time of `coalesce`
/// nanoseconds.
pub open spec fn batcher_action(len: nat, coalesce: u128, elapsed: u128, exit: bool)
    -> BatcherAction {
    if exit {
        BatcherAction::Exit
    } else if len >= PACKETS_PER_BATCH || (len > 0 && elapsed >= coalesce) {
        BatcherAction::Send
    } else if len > 0 {
        BatcherAction::WaitAtMost((coalesce - elapsed) as u128)
    } else {
        BatcherAction::Wait
    }
}

/// The number of bytes of all packets together.
pub open spec fn batch_bytes(packets: Seq<Packet>) -> nat
    decreases packets.len(),
{
    if packets.len() == 0 {
        0
    } else {
        batch_bytes(packets.drop_last()) + packets.last().meta.size as nat
    }
}

/// Whether no packet is larger than a packet may be.
pub open spec fn packets_sized(packets: Seq<Packet>) -> bool {
    forall|i: int| 0 <= i < packets.len() ==> (#[trigger] packets[i]).meta.size <= PACKET_DATA_SIZE
}

proof fn lemma_batch_bytes_bound(packets: Seq<Packet>)
    requires
        packets_sized(packets),
    ensures
        batch_bytes(packets) <= packets.len() * PACKET_DATA_SIZE,
    decreases packets.len(),
{
    if packets.len() > 0 {
        let front = packets.drop_last();
        assert(packets_sized(front)) by {
            assert forall|i: int| 0 <= i < front.len() implies (#[trigger] front[i]).meta.size
                <= PACKET_DATA_SIZE by {
                assert(front[i] == packets[i]);
            }
        }
        lemma_batch_bytes_bound(front);
        assert(packets[packets.len() - 1].meta.size <= PACKET_DATA_SIZE);
        assert(packets.len() * PACKET_DATA_SIZE == front.len() * PACKET_DATA_SIZE
            + PACKET_DATA_SIZE) by (nonlinear_arith)
            requires
                front.len() == packets.len() - 1,
        ;
    }
}

/// Counts the time that each of the sampled packets has taken since its
/// stream began.
pub fn track_streamer_fetch_packet_performance(
    packet_perf_measure: &Vec<Instant>,
    stats: &StreamerStats,
) {
    let mut i: usize = 0;
    while i < packet_perf_measure.len()
        invariant
            i <= packet_perf_measure.len(),
        decreases packet_perf_measure.len() - i,
    {
        let micros: u128 = duration_as_micros(&instant_elapsed(&packet_perf_measure[i]));
        let counted: usize = if micros > usize::MAX as u128 {
            usize::MAX
        } else {
            micros as usize
        };
        count(&stats.process_sampled_packets, 1);
        count(&stats.process_sampled_packets_us_total, counted);
        i = i + 1;
    }
}

/// The batch that is being gathered.
pub struct PacketBatcher {
    batch: Vec<Packet>,
    total_bytes: usize,
    coalesce: u128,
    /// When the stream of each sampled packet of the batch began.
    packet_perf_measure: Vec<Instant>,
}

impl PacketBatcher {
    /// The packets of the batch, in the order in which they came.
    pub closed spec fn packets(&self) -> Seq<Packet> {
        self.batch@
    }

    /// The coalescing time, in nanoseconds.
    pub closed spec fn coalesce(&self) -> u128 {
        self.coalesce
    }

    /// The running count of the bytes in the batch.
    pub closed spec fn total_bytes(&self) -> nat {
        self.total_bytes as nat
    }

    /// The number of packets of the batch whose time through the server is
    /// measured.
    pub closed spec fn sampled(&self) -> nat {
        self.packet_perf_measure@.len()
    }

    /// The invariant of the batcher: the batch is never over its size, and
    /// the running count of its bytes is right.
    pub open spec fn wf(&self) -> bool {
        &&& self.packets().len() <= PACKETS_PER_BATCH
        &&& packets_sized(self.packets())
        &&& self.total_bytes() == batch_bytes(self.packets())
    }

    /// A batcher with an empty batch.
    pub fn new(coalesce: u128, stats: &StreamerStats) -> (batcher: Self)
        ensures
            batcher.wf(),
            batcher.packets().len() == 0,
            batcher.coalesce() == coalesce,
            batcher.sampled() == 0,
    {
        count(&stats.total_packet_batches_allocated, 1);
        count(&stats.total_packets_allocated, PACKETS_PER_BATCH);
        PacketBatcher {
            batch: Vec::new(),
            total_bytes: 0,
            coalesce,
            packet_perf_measure: Vec::new(),
        }
    }

    /// The number of packets in the batch.
    pub fn len(&self) -> (len: usize)
        ensures
            len == self.packets().len(),
    {
        self.batch.len()
    }

    pub fn is_empty(&self) -> (empty: bool)
        ensures
            empty == (self.packets().len() == 0),
    {
        self.batch.len() == 0
    }

    /// The packets of the batch, for sending.
    pub fn pending(&self) -> (batch: &Vec<Packet>)
        ensures
            batch@ == self.packets(),
    {
        &self.batch
    }

    /// What to do next, `elapsed` nanoseconds after the first packet of the
    /// batch came.
    pub fn next_action(&self, elapsed: u128, exit: bool) -> (action: BatcherAction)
        ensures
            action == batcher_action(self.packets().len(), self.coalesce(), elapsed, exit),
    {
        if exit {
            BatcherAction::Exit
        } else if self.batch.len() >= PACKETS_PER_BATCH || (self.batch.len() > 0 && elapsed
            >= self.coalesce) {
            BatcherAction::Send
        } else if self.batch.len() > 0 {
            BatcherAction::WaitAtMost(self.coalesce - elapsed)
        } else {
            BatcherAction::Wait
        }
    }

    /// Puts a packet into the batch.
    fn push_packet(
        &mut self,
        packet: Packet,
        start_time: Instant,
        num_chunks: usize,
        track: bool,
        stats: &StreamerStats,
    )
        requires
            old(self).wf(),
            old(self).packets().len() < PACKETS_PER_BATCH,
            packet.meta.size <= PACKET_DATA_SIZE,
        ensures
            final(self).wf(),
            final(self).coalesce() == old(self).coalesce(),
            final(self).packets() == old(self).packets().push(
                (Packet {
                    buffer: packet.buffer,
                    meta: (PacketMeta { track_performance: track, ..packet.meta }),
                }),
            ),
            final(self).sampled() == old(self).sampled() + (if track {
                1int
            } else {
                0int
            }),
    {
        let mut packet = packet;
        packet.meta.track_performance = track;
        if track {
            self.packet_perf_measure.push(start_time);
        }
        proof {
            lemma_batch_bytes_bound(self.packets());
            assert(self.packets().len() * PACKET_DATA_SIZE <= 64 * 1232) by (nonlinear_arith)
                requires
                    self.packets().len() <= 64,
                    PACKET_DATA_SIZE == 1232,
            ;
            assert(self.batch@.push(packet).drop_last() == self.batch@);
        }
        self.total_bytes = self.total_bytes + packet.meta.size;
        self.batch.push(packet);
        count(&stats.total_chunks_processed_by_batcher, num_chunks);
    }

    /// Puts the packet of a finished stream into the batch. `track` says
    /// whether the time of the packet through the server is measured.
    pub fn push(
        &mut self,
        packet_accumulator: PacketAccumulator,
        track: bool,
        stats: &StreamerStats,
    )
        requires
            old(self).wf(),
            old(self).packets().len() < PACKETS_PER_BATCH,
            packet_accumulator.wf(),
        ensures
            final(self).wf(),
            final(self).coalesce() == old(self).coalesce(),
            final(self).packets().len() == old(self).packets().len() + 1,
            final(self).packets().drop_last() == old(self).packets(),
            final(self).packets().last().data() == concat(packet_accumulator.gathered()),
            final(self).packets().last().meta == (PacketMeta {
                track_performance: track,
                ..packet_accumulator.meta
            }),
            final(self).sampled() == old(self).sampled() + (if track {
                1int
            } else {
                0int
            }),
    {
        let num_chunks: usize = packet_accumulator.num_chunks();
        let start_time: Instant = packet_accumulator.start_time;
        let packet: Packet = into_packet(packet_accumulator);
        proof {
            assert(self.packets().push(
                (Packet {
                    buffer: packet.buffer,
                    meta: (PacketMeta { track_performance: track, ..packet.meta }),
                }),
            ).drop_last() == self.packets());
        }
        self.push_packet(packet, start_time, num_chunks, track, stats);
    }

    /// Puts the packet of a finished stream into the batch, and has its time
    /// through the server measured if it is one of the packets sampled.
    /// Which packets are sampled is left to chance; what happens either way
    /// is what `push` does.
    pub fn push_sampled(&mut self, packet_accumulator: PacketAccumulator, stats: &StreamerStats)
        requires
            old(self).wf(),
            old(self).packets().len() < PACKETS_PER_BATCH,
            packet_accumulator.wf(),
        ensures
            final(self).wf(),
            final(self).coalesce() == old(self).coalesce(),
            final(self).packets().len() == old(self).packets().len() + 1,
            final(self).packets().drop_last() == old(self).packets(),
            final(self).packets().last().data() == concat(packet_accumulator.gathered()),
            final(self).packets().last().meta == (PacketMeta {
                track_performance: final(self).packets().last().meta.track_performance,
                ..packet_accumulator.meta
            }),
            final(self).sampled() == old(self).sampled() + (if final(self).packets().last().meta.track_performance {
                1int
            } else {
                0int
            }),
    {
        let num_chunks: usize = packet_accumulator.num_chunks();
        let start_time: Instant = packet_accumulator.start_time;
        let packet: Packet = into_packet(packet_accumulator);
        let track: bool = should_track_packet(&packet.buffer);
        proof {
            assert(self.packets().push(
                (Packet {
                    buffer: packet.buffer,
                    meta: (PacketMeta { track_performance: track, ..packet.meta }),
                }),
            ).drop_last() == self.packets());
        }
        self.push_packet(packet, start_time, num_chunks, track, stats);
    }

    /// Takes note of how the sending of the batch has ended, and says
    /// whether the batcher goes on.
    ///
    /// A batch that was sent is gone, and a new one begins. A batch that the
    /// consumer had no room for stays as it is, to be sent again: no packet
    /// that has reached the batch is lost. While a full batch waits, the
    /// queue from the connections fills, and it is there that packets are
    /// dropped. Where the consumer is gone, the batcher ends, and the server
    /// with it.
    pub fn on_send(&mut self, outcome: SendOutcome, stats: &StreamerStats) -> (goes_on: bool)
        requires
            old(self).wf(),
        ensures
            final(self).wf(),
            final(self).coalesce() == old(self).coalesce(),
            goes_on == (outcome != SendOutcome::Disconnected),
            outcome == SendOutcome::Sent ==> final(self).packets().len() == 0 && final(self).sampled() == 0,
            outcome != SendOutcome::Sent ==> final(self).packets() == old(self).packets()
                && final(self).sampled() == old(self).sampled(),
    {
        match outcome {
            SendOutcome::Sent => {
                track_streamer_fetch_packet_performance(&self.packet_perf_measure, stats);
                self.packet_perf_measure = Vec::new();
                count(&stats.total_packet_batches_sent, 1);
                count(&stats.total_packets_sent_to_consumer, self.batch.len());
                count(&stats.total_bytes_sent_to_consumer, self.total_bytes);
                self.batch = Vec::new();
                self.total_bytes = 0;
                count(&stats.total_packet_batches_allocated, 1);
                count(&stats.total_packets_allocated, PACKETS_PER_BATCH);
                true
            },
            SendOutcome::Full => {
                count(&stats.total_packet_batch_send_err, 1);
                true
            },
            SendOutcome::Disconnected => {
                count(&stats.total_packet_batch_send_err, 1);
                false
            },
        }
    }
}

/// One thing that happens to the batch: a packet is put into it, or it is
/// sent with some outcome.
pub enum BatcherStep {
    Push(Packet),
    Send(SendOutcome),
}

/// The batch after a step. A packet is taken only while the batch is not
/// full.
pub open spec fn batch_after(batch: Seq<Packet>, step: BatcherStep) -> Seq<Packet> {
    match step {
        BatcherStep::Push(packet) => if batch.len() < PACKETS_PER_BATCH {
            batch.push(packet)
        } else {
            batch
        },
        BatcherStep::Send(SendOutcome::Sent) => Seq::empty(),
        BatcherStep::Send(_) => batch,
    }
}

/// The packets that a step hands to the consumer.
pub open spec fn sent_by(batch: Seq<Packet>, step: BatcherStep) -> Seq<Packet> {
    match step {
        BatcherStep::Send(SendOutcome::Sent) => batch,
        _ => Seq::empty(),
    }
}

/// The packets that a step takes into the batch.
pub open spec fn taken_by(batch: Seq<Packet>, step: BatcherStep) -> Seq<Packet> {
    match step {
        BatcherStep::Push(packet) => if batch.len() < PACKETS_PER_BATCH {
            seq![packet]
        } else {
            Seq::empty()
        },
        _ => Seq::empty(),
    }
}

/// The batch after a run of steps that begins with an empty batch.
pub open spec fn batch_after_steps(steps: Seq<BatcherStep>) -> Seq<Packet>
    decreases steps.len(),
{
    if steps.len() == 0 {
        Seq::empty()
    } else {
        batch_after(batch_after_steps(steps.drop_last()), steps.last())
    }
}

/// All packets handed to the consumer in a run of steps, batch after batch.
pub open spec fn sent_in_steps(steps: Seq<BatcherStep>) -> Seq<Packet>
    decreases steps.len(),
{
    if steps.len() == 0 {
        Seq::empty()
    } else {
        sent_in_steps(steps.drop_last()) + sent_by(
            batch_after_steps(steps.drop_last()),
            steps.last(),
        )
    }
}

/// All packets taken into the batch in a run of steps, in their order.
pub open spec fn taken_in_steps(steps: Seq<BatcherStep>) -> Seq<Packet>
    decreases steps.len(),
{
    if steps.len() == 0 {
        Seq::empty()
    } else {
        taken_in_steps(steps.drop_last()) + taken_by(
            batch_after_steps(steps.drop_last()),
            steps.last(),
        )
    }
}

/// Through every run of the batcher, the packets handed to the consumer,
/// batch after batch, and behind them those still in the batch, are the
/// packets taken in, each once, in the order in which they came and as
/// they came. A batch that the consumer has no room for loses no packet,
/// and no batch is over its size.
pub proof fn lemma_batches_carry_packets_in_order(steps: Seq<BatcherStep>)
    ensures
        sent_in_steps(steps) + batch_after_steps(steps) == taken_in_steps(steps),
        batch_after_steps(steps).len() <= PACKETS_PER_BATCH,
    decreases steps.len(),
{
    if steps.len() > 0 {
        let front = steps.drop_last();
        lemma_batches_carry_packets_in_order(front);
        let batch = batch_after_steps(front);
        let sent = sent_in_steps(front);
        match steps.last() {
            BatcherStep::Push(packet) => {
                if batch.len() < PACKETS_PER_BATCH {
                    assert((sent + Seq::<Packet>::empty()) + batch.push(packet) == (sent + batch)
                        + seq![packet]);
                } else {
                    assert((sent + Seq::<Packet>::empty()) + batch == (sent + batch)
                        + Seq::<Packet>::empty());
                }
            },
            BatcherStep::Send(SendOutcome::Sent) => {
                assert((sent + batch) + Seq::<Packet>::empty() == (sent + batch)
                    + Seq::<Packet>::empty());
            },
            BatcherStep::Send(_) => {
                assert((sent + Seq::<Packet>::empty()) + batch == (sent + batch)
                    + Seq::<Packet>::empty());
            },
        }
    }
}

/// A batch leaves when it is full, or when it holds a packet and its first
/// packet has waited for the coalescing time; until then the batcher waits,
/// and never longer than until the batch is due.
pub proof fn lemma_batch_due(len: nat, coalesce: u128, elapsed: u128)
    ensures
        batcher_action(len, coalesce, elapsed, false) == BatcherAction::Send <==> (len
            >= PACKETS_PER_BATCH || (len > 0 && elapsed >= coalesce)),
        batcher_action(len, coalesce, elapsed, true) == BatcherAction::Exit,
        batcher_action(len, coalesce, elapsed, false) is WaitAtMost ==> batcher_action(
            len,
            coalesce,
            elapsed,
            false,
        )->WaitAtMost_0 + elapsed == coalesce,
        len == 0 ==> batcher_action(len, coalesce, elapsed, false) == BatcherAction::Wait,
{
}

} // verus!

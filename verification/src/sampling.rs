//! Chance and proportion, as the eviction rules use them.

use bytes::Bytes;
use percentage::Percentage;
use rand::thread_rng;
use rand::Rng;
use solana_packet::Meta;
use solana_perf::packet::BytesPacket;
use solana_transaction_metrics_tracker::signature_if_should_track_packet;
use vstd::prelude::*;

verus! {

/// `Rng::gen_range` on the thread's generator, for the range from zero up
/// to, and without, `size`: an index below `size`. Which one is left to
/// chance. The range may not be empty.
#[verifier::external_body]
pub(crate) fn random_index(size: usize) -> (index: usize)
    requires
        size > 0,
    ensures
        index < size,
{
    thread_rng().gen_range(0..size)
}

/// `signature_if_should_track_packet` on a packet of the given bytes:
/// whether the packet is one of those whose time through the server is
/// measured. The packet is chosen where its signature matches a mask that
/// each process draws at random; a packet without a signature is not
/// chosen.
#[verifier::external_body]
pub(crate) fn should_track_packet(buffer: &Bytes) -> bool {
    let packet = BytesPacket::new(buffer.clone(), Meta::default());
    signature_if_should_track_packet(&packet).ok().flatten().is_some()
}

/// `Percentage::from(percent).apply_to(value)`: the product of the two,
/// divided by one hundred and rounded down. The percentage may not be over
/// one hundred, and the product has to fit.
#[verifier::external_body]
pub(crate) fn percent_of(percent: u8, value: usize) -> (part: usize)
    requires
        percent <= 100,
        value * percent <= usize::MAX,
    ensures
        part == (value * percent) / 100,
{
    Percentage::from(percent).apply_to(value)
}

} // verus!

//! Generations from headers, and sequence-number unwrapping.

use safecast::keying::granularity::Granularity;
use safecast::receiver::generation::{frame_generation, GenerationScheme};
use safecast::receiver::index_recovery::IndexRecovery;

/// Each frame's packets share one generation, and the generation increments by
/// one per frame period.
#[test]
fn frame_generation_increments_per_frame() {
    // the epoch's first timestamp
    let start = 1000u32;
    // ticks per frame (90 kHz clock/60 fps)
    let period = 1500u32;
    assert_eq!(frame_generation(start, start, period), 0);
    assert_eq!(frame_generation(start, start, period), 0);
    assert_eq!(frame_generation(start + period, start, period), 1);
    assert_eq!(frame_generation(start + period + 700, start, period), 1);
    assert_eq!(frame_generation(start + 5 * period, start, period), 5);
}

/// A timestamp that has wrapped past 2^32 still gives the right generation.
#[test]
fn frame_generation_survives_timestamp_wrap() {
    let period = 1500u32;
    // two frame periods before the wrap
    let start = u32::MAX - 2 * period + 1;
    let ts = start.wrapping_add(3 * period);
    assert_eq!(frame_generation(ts, start, period), 3);
}

/// With no packet seen yet, the index is the sequence number.
#[test]
fn index_recovery_cold_start() {
    let rec = IndexRecovery::default();
    assert_eq!(rec.recover(0), 0);
    assert_eq!(rec.recover(500), 500);
}

/// A sequence number near the last seen one stays in its rollover.
#[test]
fn index_recovery_within_rollover() {
    let mut rec = IndexRecovery::default();
    rec.update(40_000);
    assert_eq!(rec.recover(40_010), 40_010);
    assert_eq!(rec.recover(39_990), 39_990);
}

/// Both directions across a wrap resolve to the right rollover.
#[test]
fn index_recovery_across_wrap() {
    let mut rec = IndexRecovery::default();
    // rollover 0, near the wrap
    rec.update(65_530);
    // past the wrap: the start of rollover 1
    assert_eq!(rec.recover(3), 65_536 + 3);
    // just past the wrap
    rec.update(65_536 + 2);
    // a late packet from before the wrap
    assert_eq!(rec.recover(65_534), 65_534);
    // near the reference in rollover 1
    assert_eq!(rec.recover(50), 65_536 + 50);
}

/// The recovered index keeps the sequence number and is the nearest such
/// index, so truncating any index within half a rollover is undone.
#[test]
fn index_recovery_undoes_truncation_nearby() {
    for highest in [70_000u64, 131_071, 131_072, 1 << 40] {
        let mut rec = IndexRecovery::default();
        rec.update(highest);
        for index in [highest - 32_767, highest - 1, highest, highest + 1, highest + 32_767] {
            let seq = (index % 65_536) as u16;
            assert_eq!(rec.recover(seq), index);
            assert_eq!(rec.recover(seq) % 65_536, seq as u64);
        }
    }
}

/// The highest index never falls.
#[test]
fn index_recovery_keeps_the_highest() {
    let mut rec = IndexRecovery::default();
    rec.update(200_000);
    rec.update(150_000);
    // still resolved against 200,000
    assert_eq!(rec.recover((200_001u64 % 65_536) as u16), 200_001);
}

/// Each granularity has its receiver-side scheme.
#[test]
fn schemes_match_granularities() {
    assert!(matches!(
        GenerationScheme::for_granularity(Granularity::EpochOnly, 5, 1500, 9),
        GenerationScheme::EpochOnly
    ));
    assert!(matches!(
        GenerationScheme::for_granularity(Granularity::Frame, 5, 1500, 9),
        GenerationScheme::Frame { epoch_start_ts: 5, frame_period: 1500 }
    ));
    assert!(matches!(
        GenerationScheme::for_granularity(Granularity::Packet, 5, 1500, 9),
        GenerationScheme::Packet { base: 9 }
    ));
    assert!(matches!(
        GenerationScheme::for_granularity(Granularity::EveryN(6), 5, 1500, 9),
        GenerationScheme::EveryN { base: 9, n: 6 }
    ));
}

//! The simulated network: zero disturbance changes nothing, the seed
//! determines the run, jitter creates reordering, the two loss models lose at
//! their configured rate and shape, the dual-path merge rescues and reorders,
//! and a packet is lost only if both copies are lost.

use safecast::simulation::network::{
    disturb, measure_displacement, merge_copies, LossModel, NetworkConfig, PathConfig, CERTAIN,
};

/// Send times for the tests: one packet every 1000 ns.
const SPACING_NS: u64 = 1000;

/// Send time of packet i.
fn send(i: u64) -> u64 {
    i * SPACING_NS
}

/// Base transit time of every test path: 50 us.
const BASE_DELAY_NS: u64 = 50_000;

/// A probability in the units of the loss models.
fn chance(p: f64) -> u64 {
    (p * CERTAIN as f64).ceil() as u64
}

/// A path with the given jitter and loss, base delay BASE_DELAY_NS.
fn path(jitter_ns: u64, loss: LossModel) -> PathConfig {
    PathConfig {
        base_delay_ns: BASE_DELAY_NS,
        jitter_ns,
        loss,
    }
}

/// Single-path network around one path config.
fn single(p: PathConfig, seed: u64) -> NetworkConfig {
    NetworkConfig {
        path_a: p,
        path_b: None,
        seed,
    }
}

/// No jitter, no loss, one path: every packet arrives, in send order, at
/// exactly send time + base delay, with zero displacement.
#[test]
fn zero_disturbance_changes_nothing() {
    let n = 10_000;
    let (schedule, stats) = disturb(n, send, &single(path(0, LossModel::Lossless), 7));
    // every single packet arrives
    assert_eq!(stats.delivered, n);
    assert_eq!(stats.lost_packets, 0);
    for (k, &(arrival, idx)) in schedule.iter().enumerate() {
        // send order preserved: k-th arrival is packet k
        assert_eq!(idx, k as u64);
        // arrival = send + base delay, nothing else
        assert_eq!(arrival, send(idx) + BASE_DELAY_NS);
    }
    // no packet ever arrives late
    assert_eq!(stats.displacement.max_lateness, 0);
    assert_eq!(stats.displacement.reordered, 0);
    // no packet ever jumps over another one
    assert_eq!(stats.displacement.gaps, 0);
    assert_eq!(stats.displacement.max_gap, 0);
}

/// Same seed = identical schedule and stats, different seed = different
/// schedule.
#[test]
fn seed_determines_the_run() {
    let n = 50_000;
    // a config with real randomness (jitter and loss), seed 42
    let cfg = single(path(10_000, LossModel::Independent { p: chance(0.01) }), 42);
    // running the identical config twice gives the identical result
    let (sched_1, stats_1) = disturb(n, send, &cfg);
    let (sched_2, stats_2) = disturb(n, send, &cfg);
    assert_eq!(sched_1, sched_2);
    assert_eq!(stats_1.delivered, stats_2.delivered);
    // a different seed draws different jitter/losses
    let other = NetworkConfig { seed: 43, ..cfg };
    let (sched_3, _) = disturb(n, send, &other);
    assert_ne!(sched_1, sched_3);
}

/// With up to 10,000 ns of extra delay and packets 1000 ns apart, a packet can
/// be overtaken by at most 10 later packets.
#[test]
fn jitter_creates_bounded_reordering() {
    let n = 100_000;
    let (schedule, stats) = disturb(n, send, &single(path(10_000, LossModel::Lossless), 1));
    // nothing is lost, order is disturbed
    assert_eq!(stats.delivered, n);
    assert!(stats.displacement.reordered > 0, "jitter must reorder");
    // lateness can never exceed jitter span/send spacing
    assert!(
        stats.displacement.max_lateness <= 10_000 / SPACING_NS,
        "lateness {} exceeds the physical bound",
        stats.displacement.max_lateness
    );
    // the schedule is sorted by arrival time
    assert!(schedule.windows(2).all(|w| w[0].0 <= w[1].0));
}

/// With loss probability p, about a fraction p of all packets gets lost, and
/// the counters add up.
#[test]
fn loss_rate_and_conservation() {
    let n = 200_000;
    // single path, no jitter, each packet lost with probability 1%
    let (_, stats) =
        disturb(n, send, &single(path(0, LossModel::Independent { p: chance(0.01) }), 5));
    // every packet is either delivered or lost
    assert_eq!(stats.delivered + stats.lost_packets, n);
    // expected losses: around 2000
    assert!(
        (1700..=2300).contains(&stats.lost_packets),
        "loss rate off: {} lost",
        stats.lost_packets
    );
}

/// Bursty (Gilbert-Elliott) loss loses several consecutive packets in a row,
/// on average 1/p_bad_to_good of them.
#[test]
fn bursty_loss_comes_in_runs() {
    let n = 300_000;
    let loss = LossModel::GilbertElliott {
        p_good_to_bad: chance(0.001),
        p_bad_to_good: chance(0.3),
    };
    // no jitter, so every loss run shows up as a gap between consecutive
    // delivered indices
    let (schedule, stats) = disturb(n, send, &single(path(0, loss), 11));
    assert_eq!(stats.delivered + stats.lost_packets, n);
    assert!(
        schedule.windows(2).all(|w| w[0].1 < w[1].1),
        "without jitter, delivered indices must be strictly increasing"
    );

    // the length of every loss run
    let mut runs: Vec<u64> = Vec::new();
    let mut prev: Option<u64> = None;
    for &(_, idx) in &schedule {
        if let Some(p) = prev {
            if idx > p + 1 {
                runs.push(idx - p - 1);
            }
        }
        prev = Some(idx);
    }

    assert!(!runs.is_empty(), "no loss runs at all");

    // mean run length must be near 1/0.3 = 3.33
    let mean = runs.iter().sum::<u64>() as f64 / runs.len() as f64;
    assert!(
        (2.6..=4.2).contains(&mean),
        "mean burst length {mean} not near 3.33"
    );

    // each loss run makes exactly one arrival jump over exactly that many
    // packets
    assert_eq!(stats.displacement.gaps, runs.len() as u64);
    assert_eq!(
        stats.displacement.max_gap,
        *runs.iter().max().unwrap()
    );
}

/// Dual path with a lossy path A and a slower lossless path B: every packet
/// still arrives, and each rescued packet arrives late by the skew.
#[test]
fn dual_path_rescues_and_reorders() {
    let n = 100_000;
    let cfg = NetworkConfig {
        // A loses 5% of copies, no jitter
        path_a: path(0, LossModel::Independent { p: chance(0.05) }),
        // B is 5000 ns slower (5 packet spacings) and loses nothing
        path_b: Some(PathConfig {
            base_delay_ns: BASE_DELAY_NS + 5 * SPACING_NS,
            jitter_ns: 0,
            loss: LossModel::Lossless,
        }),
        seed: 3,
    };
    let (schedule, stats) = disturb(n, send, &cfg);
    // nothing is ever fully lost
    assert_eq!(stats.delivered, n);
    assert_eq!(stats.lost_packets, 0);
    // one entry per packet: the merge never delivers a packet twice
    assert_eq!(schedule.len() as u64, n);
    // every A loss is exactly one B win
    assert_eq!(stats.wins_b, stats.lost_a);
    // all other packets had their slower twin dropped
    assert_eq!(stats.duplicates_dropped, n - stats.lost_a);
    assert!(stats.lost_a > 0, "test needs some A losses to mean anything");
    // a rescued packet is overtaken by at most the 5 packets sent right after
    assert!(stats.displacement.max_lateness <= 5);
    assert!(stats.displacement.reordered > 0);
}

/// A packet is lost only if BOTH copies are lost.
#[test]
fn packet_lost_only_if_both_copies_lost() {
    let n = 1_000;
    // a path that loses every single copy (p=1.0)
    let dead = LossModel::Independent { p: chance(1.0) };
    // A dead, B clean: all n arrive via B
    let cfg = NetworkConfig {
        path_a: path(0, dead),
        path_b: Some(path(0, LossModel::Lossless)),
        seed: 2,
    };
    let (_, stats) = disturb(n, send, &cfg);
    // everything delivered, every delivery came from B
    assert_eq!(stats.delivered, n);
    assert_eq!(stats.wins_b, n);
    // A lost all its copies, yet not one packet was lost
    assert_eq!(stats.lost_a, n);
    assert_eq!(stats.lost_packets, 0);

    // both paths dead
    let cfg = NetworkConfig {
        path_a: path(0, dead),
        path_b: Some(path(0, dead)),
        seed: 2,
    };
    let (schedule, stats) = disturb(n, send, &cfg);
    // nothing delivered, all n counted as lost packets
    assert!(schedule.is_empty());
    assert_eq!(stats.lost_packets, n);
}

/// Displacement of a hand-made schedule, in every counter.
#[test]
fn displacement_of_a_known_schedule() {
    // arrivals 0, 3, 1, 2, 7: 3 jumps over two, 1 is 2 late, 2 is 1 late,
    // 7 jumps over three
    let stats = measure_displacement(&[(0, 0), (1, 3), (2, 1), (3, 2), (4, 7)]);
    assert_eq!(stats.reordered, 2);
    assert_eq!(stats.max_lateness, 2);
    // sorted latenesses: 0, 0, 0, 1, 2
    assert_eq!(stats.p50, 0);
    assert_eq!(stats.p99, 2);
    assert_eq!(stats.p99_9, 2);
    assert_eq!(stats.gaps, 2);
    assert_eq!(stats.max_gap, 3);
    // a schedule of nothing displaces nothing
    assert_eq!(measure_displacement(&[]).reordered, 0);
}

/// The merge keeps the earlier copy and counts what happened to the other.
#[test]
fn merge_keeps_the_earlier_copy() {
    let copies = vec![
        (Some(30), Some(20)),
        (Some(10), Some(40)),
        (None, Some(5)),
        (Some(7), None),
        (None, None),
    ];
    let (schedule, stats) = merge_copies(&copies, true);
    assert_eq!(schedule, vec![(5, 2), (7, 3), (10, 1), (20, 0)]);
    assert_eq!(stats.delivered, 4);
    assert_eq!(stats.lost_packets, 1);
    assert_eq!(stats.wins_b, 2);
    assert_eq!(stats.duplicates_dropped, 2);
    assert_eq!(stats.lost_a, 2);
    assert_eq!(stats.lost_b, 2);
}

/// Every copy arrives within the path's jitter, and every packet at most once.
#[test]
fn copies_arrive_within_jitter() {
    let n = 2_000;
    let (schedule, _) = disturb(n, send, &single(path(3_000, LossModel::Lossless), 9));
    let mut seen: Vec<u64> = schedule.iter().map(|&(_, idx)| idx).collect();
    for &(arrival, idx) in &schedule {
        let earliest = send(idx) + BASE_DELAY_NS;
        assert!((earliest..=earliest + 3_000).contains(&arrival));
    }
    seen.sort();
    seen.dedup();
    assert_eq!(seen.len() as u64, n);
}

/// Each percentile covers its share of the arrivals, also where the share falls
/// between two of them.
#[test]
fn percentiles_cover_their_share() {
    // 52 arrivals, of which only the last is late: 51 of 52 are under 99%
    let mut schedule: Vec<(u64, u64)> = (0..51).map(|i| (i, i + 1)).collect();
    schedule.push((51, 0));
    let stats = measure_displacement(&schedule);
    assert_eq!(stats.p50, 0);
    assert_eq!(stats.p99, 51);
    assert_eq!(stats.p99_9, 51);
    assert_eq!(stats.max_lateness, 51);

    // 100 arrivals, one late: 99 of 100 are exactly 99%
    let mut schedule: Vec<(u64, u64)> = (0..99).map(|i| (i, i + 1)).collect();
    schedule.push((99, 0));
    let stats = measure_displacement(&schedule);
    assert_eq!(stats.p99, 0);
    assert_eq!(stats.p99_9, 99);

    // two arrivals: the first is half of them
    let stats = measure_displacement(&[(0, 5), (1, 3)]);
    assert_eq!(stats.p50, 0);
    assert_eq!(stats.p99, 2);
}

/// A single path counts nothing under the second one, and a lossless path saves
/// every packet, whatever the other one does.
#[test]
fn paths_are_counted_apart() {
    let lossy = LossModel::Independent { p: chance(0.3) };
    let n = 2_000;
    let single = NetworkConfig { path_a: path(5_000, lossy), path_b: None, seed: 11 };
    let (schedule, stats) = disturb(n, send, &single);
    assert!(stats.lost_packets > 0);
    assert_eq!(stats.lost_a, stats.lost_packets);
    assert_eq!((stats.lost_b, stats.wins_b, stats.duplicates_dropped), (0, 0, 0));
    assert_eq!(stats.wins_a, stats.delivered);
    assert_eq!(schedule.len() as u64, stats.delivered);

    let rescued = NetworkConfig {
        path_a: path(5_000, lossy),
        path_b: Some(path(5_000, LossModel::Lossless)),
        seed: 11,
    };
    let (_, stats) = disturb(n, send, &rescued);
    assert!(stats.lost_a > 0);
    assert_eq!((stats.lost_b, stats.lost_packets), (0, 0));
    assert_eq!(stats.delivered, n);
}

/// Packets that arrive at the same time come in the order of their numbers.
#[test]
fn equal_times_are_ordered_by_number() {
    let cfg = NetworkConfig {
        path_a: path(3, LossModel::Lossless),
        path_b: Some(path(3, LossModel::Lossless)),
        seed: 5,
    };
    let (schedule, _) = disturb(500, |i| i / 10, &cfg);
    let mut ties = 0;
    for pair in schedule.windows(2) {
        assert!(pair[0] < pair[1]);
        assert!(pair[1].1 < 500);
        if pair[0].0 == pair[1].0 {
            ties += 1;
        }
    }
    assert!(ties > 0);
}

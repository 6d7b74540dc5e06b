//! The simulated network: decides, for every sent packet, when it arrives at
//! the receiver, or that it is lost. Reordering emerges from the arrival
//! times: a packet delayed longer than the send spacing is overtaken.
//!
//! The model is ST 2022-7 dual-path protection: every packet travels twice,
//! over two independent paths. Each copy arrives at its send time plus the
//! path's base delay plus a random jitter, unless the path's loss model drops
//! it. The merge keeps whichever copy arrives first. A packet is lost only if
//! both copies are lost. Without a second path there is just the one copy.
//!
//! Besides the arrivals, a run reports how much displacement happened, in both
//! directions. Backwards: a packet's lateness is how far its number lies
//! behind the highest number that arrived before it. Forwards: a gap is an
//! arrival that jumps past packets that have not arrived yet.
//!
//! One seeded generator drives all randomness: the same seed and
//! configuration give the same run.

use rand::{Rng, RngCore, SeedableRng};
use rand_chacha::ChaCha20Rng;
use vstd::prelude::*;

verus! {

/// The probability of one, in the units in which probabilities are given.
pub const CERTAIN: u64 = 0x20_0000_0000_0000;

/// Loss behavior of one path. Probabilities are multiples of 2^-53, the grain
/// at which a uniform number below one is drawn: `p` stands for `p / CERTAIN`.
#[derive(Clone, Copy, Debug)]
pub enum LossModel {
    /// No copy is ever lost on this path.
    Lossless,
    /// Each copy is lost independently with probability `p`.
    Independent { p: u64 },
    /// Bursty loss (Gilbert-Elliott): the path is either good (delivers
    /// everything) or bad (drops everything), and may switch state after each
    /// copy. Losses therefore come in runs.
    GilbertElliott { p_good_to_bad: u64, p_bad_to_good: u64 },
}

/// One network path: fixed transit time, per-packet jitter, loss.
#[derive(Clone, Copy, Debug)]
pub struct PathConfig {
    /// Fixed transit time of this path in ns.
    pub base_delay_ns: u64,
    /// Per-packet random extra delay: uniform in `0..=jitter_ns`.
    pub jitter_ns: u64,
    /// Whether and how this path loses copies.
    pub loss: LossModel,
}

/// The whole network between sender and receiver.
#[derive(Clone, Copy, Debug)]
pub struct NetworkConfig {
    pub path_a: PathConfig,
    /// The second, redundant path. `None` for a single path.
    pub path_b: Option<PathConfig>,
    /// Seed of the generator.
    pub seed: u64,
}

/// How much displacement the delivered packets experienced.
#[derive(Clone, Copy, Debug, PartialEq, Eq, Structural)]
pub struct DisplacementStats {
    /// Delivered packets that arrived out of order (lateness above zero).
    pub reordered: u64,
    /// The single worst lateness of the run.
    pub max_lateness: u64,
    /// Half of all delivered packets had at most this lateness.
    pub p50: u64,
    /// 99% of all delivered packets had at most this lateness.
    pub p99: u64,
    /// 99.9% of all delivered packets had at most this lateness.
    pub p99_9: u64,
    /// Arrivals that jumped past at least one packet not yet arrived.
    pub gaps: u64,
    /// The largest number of packets that such an arrival skipped.
    pub max_gap: u64,
}

/// No displacement.
pub open spec fn no_displacement() -> DisplacementStats {
    DisplacementStats {
        reordered: 0,
        max_lateness: 0,
        p50: 0,
        p99: 0,
        p99_9: 0,
        gaps: 0,
        max_gap: 0,
    }
}

impl Default for DisplacementStats {
    fn default() -> (r: Self)
        ensures
            r == no_displacement(),
            r.reordered == 0 && r.max_lateness == 0 && r.gaps == 0 && r.max_gap == 0,
            r.p50 == 0 && r.p99 == 0 && r.p99_9 == 0,
    {
        DisplacementStats {
            reordered: 0,
            max_lateness: 0,
            p50: 0,
            p99: 0,
            p99_9: 0,
            gaps: 0,
            max_gap: 0,
        }
    }
}

/// The highest packet number in a list of `(arrival time, packet)` pairs.
pub open spec fn newest(schedule: Seq<(u64, u64)>) -> Option<u64>
    decreases schedule.len(),
{
    if schedule.len() == 0 {
        None
    } else {
        match newest(schedule.drop_last()) {
            Some(m) => if schedule.last().1 > m { Some(schedule.last().1) } else { Some(m) },
            None => Some(schedule.last().1),
        }
    }
}

/// How far the `i`-th arrival lies behind the newest packet before it.
pub open spec fn lateness(schedule: Seq<(u64, u64)>, i: int) -> u64 {
    match newest(schedule.take(i)) {
        Some(m) => if schedule[i].1 < m { (m - schedule[i].1) as u64 } else { 0 },
        None => 0,
    }
}

/// How many packets that have not arrived yet the `i`-th arrival jumps over.
pub open spec fn skipped(schedule: Seq<(u64, u64)>, i: int) -> u64 {
    match newest(schedule.take(i)) {
        Some(m) => if schedule[i].1 > m { (schedule[i].1 - m - 1) as u64 } else { 0 },
        None => schedule[i].1,
    }
}

/// The lateness of every arrival.
pub open spec fn all_lateness(schedule: Seq<(u64, u64)>) -> Seq<u64> {
    Seq::new(schedule.len(), |i: int| lateness(schedule, i))
}

/// What every arrival skips.
pub open spec fn all_skipped(schedule: Seq<(u64, u64)>) -> Seq<u64> {
    Seq::new(schedule.len(), |i: int| skipped(schedule, i))
}

/// How many of the numbers are above zero.
pub open spec fn count_positive(s: Seq<u64>) -> nat
    decreases s.len(),
{
    if s.len() == 0 {
        0
    } else {
        count_positive(s.drop_last()) + if s.last() > 0 { 1nat } else { 0nat }
    }
}

/// The largest of the numbers, or zero.
pub open spec fn largest(s: Seq<u64>) -> u64
    decreases s.len(),
{
    if s.len() == 0 {
        0
    } else if s.last() > largest(s.drop_last()) {
        s.last()
    } else {
        largest(s.drop_last())
    }
}

/// The order of numbers.
pub open spec fn number_order() -> spec_fn(u64, u64) -> bool {
    |a: u64, b: u64| a <= b
}

/// The order of arrivals: by time, and by packet number at the same time.
pub open spec fn arrival_order() -> spec_fn((u64, u64), (u64, u64)) -> bool {
    |a: (u64, u64), b: (u64, u64)| a.0 < b.0 || (a.0 == b.0 && a.1 <= b.1)
}

/// Position of the `num / den` quantile among `n` numbers in ascending order
/// (nearest rank): the first one with at least `n * num / den` of the numbers
/// at or before it.
pub open spec fn nearest_rank(n: int, num: int, den: int) -> int {
    (n * num + den - 1) / den - 1
}

/// How many of the numbers are at most `bound`.
pub open spec fn count_at_most(s: Seq<u64>, bound: u64) -> nat
    decreases s.len(),
{
    if s.len() == 0 {
        0
    } else {
        count_at_most(s.drop_last(), bound) + if s.last() <= bound { 1nat } else { 0nat }
    }
}

/// The displacement of a run.
pub open spec fn displacement(schedule: Seq<(u64, u64)>) -> DisplacementStats {
    let n = schedule.len() as int;
    let sorted = all_lateness(schedule).sort_by(number_order());
    if n == 0 {
        no_displacement()
    } else {
        DisplacementStats {
            reordered: count_positive(all_lateness(schedule)) as u64,
            max_lateness: sorted[n - 1],
            p50: sorted[nearest_rank(n, 1, 2)],
            p99: sorted[nearest_rank(n, 99, 100)],
            p99_9: sorted[nearest_rank(n, 999, 1000)],
            gaps: count_positive(all_skipped(schedule)) as u64,
            max_gap: largest(all_skipped(schedule)),
        }
    }
}

/// `slice::sort_unstable` on numbers. Claimed, as its documentation says: the
/// numbers stay the same and end up in ascending order.
#[verifier::external_body]
fn sort_numbers(v: &mut Vec<u64>)
    ensures
        final(v)@.to_multiset() == old(v)@.to_multiset(),
        vstd::relations::sorted_by(final(v)@, number_order()),
{
    v.sort_unstable()
}

/// `slice::sort` on pairs of numbers. Claimed, as its documentation and that of
/// the order of tuples say: the pairs stay the same and end up ordered by
/// their first number, and by their second where the first are equal.
#[verifier::external_body]
fn sort_arrivals(v: &mut Vec<(u64, u64)>)
    ensures
        final(v)@.to_multiset() == old(v)@.to_multiset(),
        vstd::relations::sorted_by(final(v)@, arrival_order()),
{
    v.sort()
}

/// Numbers in ascending order are their sorted sequence.
proof fn lemma_sorted_numbers(s: Seq<u64>, sorted: Seq<u64>)
    requires
        sorted.to_multiset() == s.to_multiset(),
        vstd::relations::sorted_by(sorted, number_order()),
    ensures
        sorted == s.sort_by(number_order()),
        sorted.len() == s.len(),
{
    s.lemma_sort_by_ensures(number_order());
    vstd::seq_lib::lemma_sorted_unique(sorted, s.sort_by(number_order()), number_order());
    broadcast use vstd::seq_lib::group_to_multiset_ensures;

    assert(s.to_multiset().len() == s.len());
    assert(sorted.to_multiset().len() == sorted.len());
}

/// Pairs in arrival order are their sorted sequence.
proof fn lemma_sorted_arrivals(s: Seq<(u64, u64)>, sorted: Seq<(u64, u64)>)
    requires
        sorted.to_multiset() == s.to_multiset(),
        vstd::relations::sorted_by(sorted, arrival_order()),
    ensures
        sorted == s.sort_by(arrival_order()),
        sorted.len() == s.len(),
{
    assert(vstd::relations::antisymmetric(arrival_order())) by {
        assert forall|a: (u64, u64), b: (u64, u64)|
            #[trigger] arrival_order()(a, b) && #[trigger] arrival_order()(b, a) implies a == b by {
            assert(a.0 == b.0 && a.1 == b.1);
        }
    }
    s.lemma_sort_by_ensures(arrival_order());
    vstd::seq_lib::lemma_sorted_unique(sorted, s.sort_by(arrival_order()), arrival_order());
    broadcast use vstd::seq_lib::group_to_multiset_ensures;

    assert(s.to_multiset().len() == s.len());
    assert(sorted.to_multiset().len() == sorted.len());
}

/// The nearest rank lies among the numbers and covers its share of them.
proof fn lemma_nearest_rank(n: int, num: int, den: int)
    requires
        n >= 1,
        1 <= num <= den,
    ensures
        0 <= nearest_rank(n, num, den) < n,
        den * (nearest_rank(n, num, den) + 1) >= num * n,
{
    let scaled = n * num + den - 1;
    let q = scaled / den;
    vstd::arithmetic::div_mod::lemma_fundamental_div_mod(scaled, den);
    assert(den * q >= num * n) by (nonlinear_arith)
        requires
            scaled == n * num + den - 1,
            scaled == den * q + scaled % den,
            0 <= scaled % den < den,
    ;
    assert(1 <= q <= n) by (nonlinear_arith)
        requires
            scaled == n * num + den - 1,
            scaled == den * q + scaled % den,
            0 <= scaled % den < den,
            n >= 1,
            1 <= num <= den,
    ;
}

/// Position of a quantile among `n` numbers in ascending order.
fn quantile_position(n: usize, num: u32, den: u32) -> (r: usize)
    requires
        n >= 1,
        1 <= num <= den,
    ensures
        r == nearest_rank(n as int, num as int, den as int),
        r < n,
{
    proof {
        lemma_nearest_rank(n as int, num as int, den as int);
        assert(n * num <= 0xffff_ffff_ffff_ffff * 0xffff_ffff) by (nonlinear_arith)
            requires
                n <= 0xffff_ffff_ffff_ffff,
                num <= 0xffff_ffff,
        ;
    }
    let scaled: u128 = n as u128 * num as u128 + (den - 1) as u128;
    let position: u128 = scaled / den as u128 - 1;
    position as usize
}

/// Walks the arrivals in order and measures each one's displacement in both
/// directions.
pub fn measure_displacement(schedule: &[(u64, u64)]) -> (r: DisplacementStats)
    requires
        schedule@.len() <= u64::MAX,
    ensures
        r == displacement(schedule@),
{
    let mut late: Vec<u64> = Vec::new();
    let mut max_seen: Option<u64> = None;
    let mut reordered: u64 = 0;
    let mut gaps: u64 = 0;
    let mut max_gap: u64 = 0;
    let mut i: usize = 0;
    proof {
        assert(schedule@.take(0) =~= Seq::empty());
        assert(all_lateness(schedule@).take(0) =~= Seq::empty());
        assert(all_skipped(schedule@).take(0) =~= Seq::empty());
    }
    while i < schedule.len()
        invariant
            i <= schedule@.len() <= u64::MAX,
            max_seen == newest(schedule@.take(i as int)),
            late@ == all_lateness(schedule@).take(i as int),
            reordered == count_positive(all_lateness(schedule@).take(i as int)),
            reordered <= i,
            gaps == count_positive(all_skipped(schedule@).take(i as int)),
            gaps <= i,
            max_gap == largest(all_skipped(schedule@).take(i as int)),
        decreases schedule@.len() - i,
    {
        let idx: u64 = schedule[i].1;
        let (behind, jumped): (u64, u64) = match max_seen {
            Some(m) => if idx < m {
                (m - idx, 0)
            } else if idx > m {
                (0, idx - m - 1)
            } else {
                (0, 0)
            },
            // the very first arrival jumps over every packet before it
            None => (0, idx),
        };
        proof {
            let n = i as int;
            assert(schedule@.take(n + 1).drop_last() =~= schedule@.take(n));
            assert(all_lateness(schedule@).take(n + 1).drop_last() =~= all_lateness(
                schedule@,
            ).take(n));
            assert(all_skipped(schedule@).take(n + 1).drop_last() =~= all_skipped(schedule@).take(
                n,
            ));
            assert(all_lateness(schedule@).take(n + 1).last() == behind);
            assert(all_skipped(schedule@).take(n + 1).last() == jumped);
        }
        late.push(behind);
        if behind > 0 {
            reordered += 1;
        }
        if jumped > 0 {
            gaps += 1;
            if jumped > max_gap {
                max_gap = jumped;
            }
        }
        let ahead: bool = match max_seen {
            Some(m) => idx > m,
            None => true,
        };
        if ahead {
            max_seen = Some(idx);
        }
        assert(late@ =~= all_lateness(schedule@).take(i + 1));
        i += 1;
    }
    assert(all_lateness(schedule@).take(i as int) =~= all_lateness(schedule@));
    assert(all_skipped(schedule@).take(i as int) =~= all_skipped(schedule@));
    let n: usize = late.len();
    if n == 0 {
        return DisplacementStats::default();
    }
    let ghost unsorted = late@;
    sort_numbers(&mut late);
    proof {
        lemma_sorted_numbers(unsorted, late@);
    }
    let half: usize = quantile_position(n, 1, 2);
    let p99: usize = quantile_position(n, 99, 100);
    let p99_9: usize = quantile_position(n, 999, 1000);
    DisplacementStats {
        reordered,
        max_lateness: late[n - 1],
        p50: late[half],
        p99: late[p99],
        p99_9: late[p99_9],
        gaps,
        max_gap,
    }
}

/// How many numbers are at most a bound does not depend on their order.
proof fn lemma_count_of_multiset(s: Seq<u64>, bound: u64)
    ensures
        count_at_most(s, bound) == s.to_multiset().filter(|x: u64| x <= bound).len(),
    decreases s.len(),
{
    broadcast use vstd::seq_lib::group_to_multiset_ensures;
    broadcast use vstd::multiset::group_multiset_axioms;

    let small = |x: u64| x <= bound;
    if s.len() == 0 {
        assert(s.to_multiset().filter(small) =~= vstd::multiset::Multiset::empty());
    } else {
        let rest = s.drop_last();
        lemma_count_of_multiset(rest, bound);
        assert(s =~= rest.push(s.last()));
        assert(s.to_multiset() =~= rest.to_multiset().insert(s.last()));
        if s.last() <= bound {
            assert(s.to_multiset().filter(small) =~= rest.to_multiset().filter(small).insert(
                s.last(),
            ));
        } else {
            assert(s.to_multiset().filter(small) =~= rest.to_multiset().filter(small));
        }
    }
}

/// The first `k` numbers count if they are at most the bound.
proof fn lemma_count_of_prefix(s: Seq<u64>, bound: u64, k: int)
    requires
        0 <= k <= s.len(),
        forall|i: int| 0 <= i < k ==> s[i] <= bound,
    ensures
        count_at_most(s, bound) >= k,
    decreases s.len(),
{
    if s.len() > 0 {
        if k == s.len() {
            lemma_count_of_prefix(s.drop_last(), bound, k - 1);
        } else {
            lemma_count_of_prefix(s.drop_last(), bound, k);
        }
    }
}

/// The number at the nearest rank covers its share of the numbers.
proof fn lemma_rank_covers(s: Seq<u64>, num: int, den: int)
    requires
        s.len() >= 1,
        1 <= num <= den,
    ensures
        den * count_at_most(
            s,
            s.sort_by(number_order())[nearest_rank(s.len() as int, num, den)],
        ) >= num * s.len(),
{
    let n = s.len() as int;
    let sorted = s.sort_by(number_order());
    let rank = nearest_rank(n, num, den);
    let bound = sorted[rank];
    lemma_nearest_rank(n, num, den);
    s.lemma_sort_by_ensures(number_order());
    lemma_sorted_numbers(s, sorted);
    assert forall|i: int| 0 <= i < rank + 1 implies sorted[i] <= bound by {
        if i < rank {
            assert(number_order()(sorted[i], sorted[rank]));
        }
    }
    lemma_count_of_prefix(sorted, bound, rank + 1);
    lemma_count_of_multiset(s, bound);
    lemma_count_of_multiset(sorted, bound);
    let covered = count_at_most(s, bound) as int;
    assert(den * covered >= num * n) by (nonlinear_arith)
        requires
            covered >= rank + 1,
            den * (rank + 1) >= num * n,
            den >= 1,
    ;
}

/// Law: half of all delivered packets had at most the `p50` lateness, 99% at
/// most the `p99` lateness, 99.9% at most the `p99_9` lateness, and all at most
/// the maximum.
pub proof fn law_percentiles_cover_their_share(schedule: Seq<(u64, u64)>)
    requires
        schedule.len() >= 1,
    ensures
        2 * count_at_most(all_lateness(schedule), displacement(schedule).p50) >= schedule.len(),
        100 * count_at_most(all_lateness(schedule), displacement(schedule).p99) >= 99
            * schedule.len(),
        1000 * count_at_most(all_lateness(schedule), displacement(schedule).p99_9) >= 999
            * schedule.len(),
        count_at_most(all_lateness(schedule), displacement(schedule).max_lateness)
            == schedule.len(),
{
    let late = all_lateness(schedule);
    lemma_rank_covers(late, 1, 2);
    lemma_rank_covers(late, 99, 100);
    lemma_rank_covers(late, 999, 1000);
    lemma_rank_covers(late, 1, 1);
    lemma_count_bounded(late, displacement(schedule).max_lateness);
}

/// No more numbers are counted than there are.
proof fn lemma_count_bounded(s: Seq<u64>, bound: u64)
    ensures
        count_at_most(s, bound) <= s.len(),
    decreases s.len(),
{
    if s.len() > 0 {
        lemma_count_bounded(s.drop_last(), bound);
    }
}

/// The generator `ChaCha20Rng` of `rand_chacha`, read only through its draws.
#[verifier::external_type_specification]
#[verifier::external_body]
pub struct ExChaCha20Rng(rand_chacha::ChaCha20Rng);

/// The 64-bit words that a generator has yet to give, by position.
pub uninterp spec fn words_to_come(rng: ChaCha20Rng) -> Map<nat, u64>;

/// The words that a generator gives when it starts from a seed.
pub uninterp spec fn seeded_words(seed: u64) -> Map<nat, u64>;

/// The number in `0..=max` that a uniform draw makes of the words to come, and
/// how many words it uses up.
pub uninterp spec fn uniform_draw(words: Map<nat, u64>, max: u64) -> (u64, nat);

/// The words that are left after `n` of them.
pub open spec fn words_after(words: Map<nat, u64>, n: nat) -> Map<nat, u64> {
    Map::new(|i: nat| true, |i: nat| words[i + n])
}

/// `ChaCha20Rng::seed_from_u64`. Claimed: the words to come depend on the seed
/// alone.
#[verifier::external_body]
fn rng_from_seed(seed: u64) -> (r: ChaCha20Rng)
    ensures
        words_to_come(r) == seeded_words(seed),
{
    ChaCha20Rng::seed_from_u64(seed)
}

/// `ChaCha20Rng::next_u64`. Claimed: it gives the next word and uses it up.
#[verifier::external_body]
fn next_word(rng: &mut ChaCha20Rng) -> (r: u64)
    ensures
        r == words_to_come(*old(rng))[0],
        words_to_come(*final(rng)) == words_after(words_to_come(*old(rng)), 1),
{
    rng.next_u64()
}

/// `Rng::random_range` over `0..=max`. Claimed: the number lies in the range,
/// and it and the words used up depend on the words to come and the range
/// alone.
#[verifier::external_body]
fn uniform_up_to(rng: &mut ChaCha20Rng, max: u64) -> (r: u64)
    ensures
        r <= max,
        r == uniform_draw(words_to_come(*old(rng)), max).0,
        words_to_come(*final(rng)) == words_after(
            words_to_come(*old(rng)),
            uniform_draw(words_to_come(*old(rng)), max).1,
        ),
{
    rng.random_range(0..=max)
}

/// Whether a word comes out below a probability: its top 53 bits, as a number
/// below one, lie below `p`.
pub open spec fn comes_true(word: u64, p: u64) -> bool {
    word / 0x800 < p
}

/// What the loss model makes of one copy.
pub struct LossOutcome {
    pub lost: bool,
    /// Gilbert-Elliott only: the path is in its bad state afterwards.
    pub in_bad: bool,
    /// The words left.
    pub words: Map<nat, u64>,
}

/// Whether the next copy on a path is lost. A bursty path loses it exactly in
/// its bad state, and then may switch for the copy after it.
pub open spec fn loss_outcome(
    model: LossModel,
    in_bad: bool,
    words: Map<nat, u64>,
) -> LossOutcome {
    match model {
        LossModel::Lossless => LossOutcome { lost: false, in_bad, words },
        LossModel::Independent { p } => LossOutcome {
            lost: comes_true(words[0], p),
            in_bad,
            words: words_after(words, 1),
        },
        LossModel::GilbertElliott { p_good_to_bad, p_bad_to_good } => LossOutcome {
            lost: in_bad,
            in_bad: if in_bad {
                !comes_true(words[0], p_bad_to_good)
            } else {
                comes_true(words[0], p_good_to_bad)
            },
            words: words_after(words, 1),
        },
    }
}

/// The jitter of a copy: a uniform draw, within its range.
pub open spec fn jitter(words: Map<nat, u64>, max: u64) -> u64 {
    let drawn = uniform_draw(words, max).0;
    if drawn <= max { drawn } else { max }
}

/// What one path makes of one copy.
pub struct CopyOutcome {
    /// When the copy arrives; `None` if it is lost.
    pub arrival: Option<u64>,
    pub in_bad: bool,
    pub words: Map<nat, u64>,
}

/// When a copy sent at `send_ns` arrives on a path.
pub open spec fn copy_outcome(
    path: PathConfig,
    send_ns: u64,
    in_bad: bool,
    words: Map<nat, u64>,
) -> CopyOutcome {
    let loss = loss_outcome(path.loss, in_bad, words);
    if loss.lost {
        CopyOutcome { arrival: None, in_bad: loss.in_bad, words: loss.words }
    } else {
        CopyOutcome {
            arrival: Some(
                (send_ns + path.base_delay_ns + jitter(loss.words, path.jitter_ns)) as u64,
            ),
            in_bad: loss.in_bad,
            words: words_after(loss.words, uniform_draw(loss.words, path.jitter_ns).1),
        }
    }
}

/// What the network has made of the packets so far.
pub struct RunState {
    pub in_bad_a: bool,
    pub in_bad_b: bool,
    pub words: Map<nat, u64>,
    /// Per packet: when its copy on path A and its copy on path B arrive.
    pub copies: Seq<(Option<u64>, Option<u64>)>,
}

/// The network after packets with these send times. Path A draws first.
pub open spec fn run(sends: Seq<u64>, cfg: NetworkConfig) -> RunState
    decreases sends.len(),
{
    if sends.len() == 0 {
        RunState {
            in_bad_a: false,
            in_bad_b: false,
            words: seeded_words(cfg.seed),
            copies: Seq::empty(),
        }
    } else {
        let s = run(sends.drop_last(), cfg);
        let a = copy_outcome(cfg.path_a, sends.last(), s.in_bad_a, s.words);
        match cfg.path_b {
            Some(path_b) => {
                let b = copy_outcome(path_b, sends.last(), s.in_bad_b, a.words);
                RunState {
                    in_bad_a: a.in_bad,
                    in_bad_b: b.in_bad,
                    words: b.words,
                    copies: s.copies.push((a.arrival, b.arrival)),
                }
            },
            None => RunState {
                in_bad_a: a.in_bad,
                in_bad_b: s.in_bad_b,
                words: a.words,
                copies: s.copies.push((a.arrival, None)),
            },
        }
    }
}

/// When a packet arrives: with the earlier of its copies, if any.
pub open spec fn first_arrival(copy: (Option<u64>, Option<u64>)) -> Option<u64> {
    match copy {
        (Some(a), Some(b)) => if a <= b { Some(a) } else { Some(b) },
        (Some(a), None) => Some(a),
        (None, Some(b)) => Some(b),
        (None, None) => None,
    }
}

/// The `(arrival time, packet)` pairs of the delivered packets, by number.
pub open spec fn deliveries(copies: Seq<(Option<u64>, Option<u64>)>) -> Seq<(u64, u64)>
    decreases copies.len(),
{
    if copies.len() == 0 {
        Seq::empty()
    } else {
        let earlier = deliveries(copies.drop_last());
        match first_arrival(copies.last()) {
            Some(t) => earlier.push((t, (copies.len() - 1) as u64)),
            None => earlier,
        }
    }
}

/// Ground-truth counters of one network run.
#[derive(Clone, Copy, Debug, PartialEq, Eq, Structural)]
pub struct NetworkStats {
    /// Packets the sender sent.
    pub sent: u64,
    /// Packets that reached the receiver.
    pub delivered: u64,
    /// Copies lost on path A and on path B.
    pub lost_a: u64,
    pub lost_b: u64,
    /// Packets never delivered at all.
    pub lost_packets: u64,
    /// Deliveries per path: whose copy the receiver ended up with.
    pub wins_a: u64,
    pub wins_b: u64,
    /// Second copies dropped by the merge (both copies survived).
    pub duplicates_dropped: u64,
    /// The measured displacement of the delivered packets.
    pub displacement: DisplacementStats,
}

/// All counters at zero.
pub open spec fn no_traffic() -> NetworkStats {
    NetworkStats {
        sent: 0,
        delivered: 0,
        lost_a: 0,
        lost_b: 0,
        lost_packets: 0,
        wins_a: 0,
        wins_b: 0,
        duplicates_dropped: 0,
        displacement: no_displacement(),
    }
}

impl Default for NetworkStats {
    fn default() -> (r: Self)
        ensures
            r == no_traffic(),
            r.sent == 0 && r.delivered == 0 && r.lost_packets == 0 && r.duplicates_dropped == 0,
            r.lost_a == 0 && r.lost_b == 0 && r.wins_a == 0 && r.wins_b == 0,
            r.displacement.reordered == 0 && r.displacement.gaps == 0,
    {
        NetworkStats {
            sent: 0,
            delivered: 0,
            lost_a: 0,
            lost_b: 0,
            lost_packets: 0,
            wins_a: 0,
            wins_b: 0,
            duplicates_dropped: 0,
            displacement: DisplacementStats::default(),
        }
    }
}

/// How many of the packets satisfy a condition on their copies.
pub open spec fn count_copies(
    copies: Seq<(Option<u64>, Option<u64>)>,
    holds: spec_fn((Option<u64>, Option<u64>)) -> bool,
) -> nat
    decreases copies.len(),
{
    if copies.len() == 0 {
        0
    } else {
        count_copies(copies.drop_last(), holds) + if holds(copies.last()) { 1nat } else { 0nat }
    }
}

/// Whether the copy on path A is the one that is delivered: it survived, and
/// the other did not come earlier.
pub open spec fn a_wins(copy: (Option<u64>, Option<u64>)) -> bool {
    copy.0 matches Some(a) && (copy.1 matches Some(b) ==> a <= b)
}

/// Whether the copy on path B is the one that is delivered.
pub open spec fn b_wins(copy: (Option<u64>, Option<u64>)) -> bool {
    copy.1 matches Some(b) && (copy.0 matches Some(a) ==> b < a)
}

/// The counters of a run.
pub open spec fn tally(copies: Seq<(Option<u64>, Option<u64>)>, dual: bool) -> NetworkStats {
    NetworkStats {
        sent: copies.len() as u64,
        delivered: deliveries(copies).len() as u64,
        lost_a: count_copies(copies, |c: (Option<u64>, Option<u64>)| c.0 is None) as u64,
        lost_b: if dual {
            count_copies(copies, |c: (Option<u64>, Option<u64>)| c.1 is None) as u64
        } else {
            0
        },
        lost_packets: count_copies(
            copies,
            |c: (Option<u64>, Option<u64>)| c.0 is None && c.1 is None,
        ) as u64,
        wins_a: count_copies(copies, |c: (Option<u64>, Option<u64>)| a_wins(c)) as u64,
        wins_b: count_copies(copies, |c: (Option<u64>, Option<u64>)| b_wins(c)) as u64,
        duplicates_dropped: count_copies(
            copies,
            |c: (Option<u64>, Option<u64>)| c.0 is Some && c.1 is Some,
        ) as u64,
        displacement: displacement(deliveries(copies).sort_by(arrival_order())),
    }
}

/// What the receiver gets out of a run: the deliveries in arrival order.
pub open spec fn arrivals(sends: Seq<u64>, cfg: NetworkConfig) -> Seq<(u64, u64)> {
    deliveries(run(sends, cfg).copies).sort_by(arrival_order())
}

/// The counters of a run.
pub open spec fn traffic(sends: Seq<u64>, cfg: NetworkConfig) -> NetworkStats {
    tally(run(sends, cfg).copies, cfg.path_b is Some)
}

/// Whether every arrival time of a packet sent at `send_ns` fits 64 bits.
pub open spec fn times_fit(cfg: NetworkConfig, send_ns: u64) -> bool {
    &&& send_ns + cfg.path_a.base_delay_ns + cfg.path_a.jitter_ns <= u64::MAX
    &&& cfg.path_b matches Some(b) ==> send_ns + b.base_delay_ns + b.jitter_ns <= u64::MAX
}

/// Per-path loss state: the decisions of one path's loss model.
pub struct LossState {
    model: LossModel,
    /// Gilbert-Elliott only: currently in the bad (dropping) state.
    in_bad: bool,
}

impl LossState {
    pub closed spec fn model(&self) -> LossModel {
        self.model
    }

    pub closed spec fn is_bad(&self) -> bool {
        self.in_bad
    }

    /// A path starts in its good state.
    pub fn new(model: LossModel) -> (r: Self)
        ensures
            r.model() == model,
            !r.is_bad(),
    {
        LossState { model, in_bad: false }
    }

    /// Decides whether the next copy on this path is lost.
    pub fn next_lost(&mut self, rng: &mut ChaCha20Rng) -> (r: bool)
        ensures
            final(self).model() == old(self).model(),
            ({
                let outcome = loss_outcome(
                    old(self).model(),
                    old(self).is_bad(),
                    words_to_come(*old(rng)),
                );
                &&& r == outcome.lost
                &&& final(self).is_bad() == outcome.in_bad
                &&& words_to_come(*final(rng)) == outcome.words
            }),
    {
        match self.model {
            LossModel::Lossless => false,
            LossModel::Independent { p } => next_word(rng) / 0x800 < p,
            LossModel::GilbertElliott { p_good_to_bad, p_bad_to_good } => {
                // the current state decides this copy's fate, and then may flip
                let lost: bool = self.in_bad;
                let word: u64 = next_word(rng);
                if lost {
                    if word / 0x800 < p_bad_to_good {
                        self.in_bad = false;
                    }
                } else if word / 0x800 < p_good_to_bad {
                    self.in_bad = true;
                }
                lost
            },
        }
    }
}

/// One copy's arrival time on one path, or `None` if the path lost it.
pub fn copy_arrival(
    path: &PathConfig,
    send_ns: u64,
    loss: &mut LossState,
    rng: &mut ChaCha20Rng,
) -> (r: Option<u64>)
    requires
        old(loss).model() == path.loss,
        send_ns + path.base_delay_ns + path.jitter_ns <= u64::MAX,
    ensures
        final(loss).model() == old(loss).model(),
        ({
            let outcome = copy_outcome(
                *path,
                send_ns,
                old(loss).is_bad(),
                words_to_come(*old(rng)),
            );
            &&& r == outcome.arrival
            &&& final(loss).is_bad() == outcome.in_bad
            &&& words_to_come(*final(rng)) == outcome.words
        }),
{
    if loss.next_lost(rng) {
        return None;
    }
    let extra: u64 = uniform_up_to(rng, path.jitter_ns);
    Some(send_ns + path.base_delay_ns + extra)
}

/// Merges the copies of every packet, sorts the deliveries by arrival and
/// counts.
pub fn merge_copies(copies: &Vec<(Option<u64>, Option<u64>)>, dual: bool) -> (r: (
    Vec<(u64, u64)>,
    NetworkStats,
))
    requires
        copies@.len() <= u64::MAX,
    ensures
        r.0@ == deliveries(copies@).sort_by(arrival_order()),
        r.1 == tally(copies@, dual),
{
    let mut schedule: Vec<(u64, u64)> = Vec::new();
    let mut stats = NetworkStats::default();
    let ghost a_lost = |c: (Option<u64>, Option<u64>)| c.0 is None;
    let ghost b_lost = |c: (Option<u64>, Option<u64>)| c.1 is None;
    let ghost both_lost = |c: (Option<u64>, Option<u64>)| c.0 is None && c.1 is None;
    let ghost a_won = |c: (Option<u64>, Option<u64>)| a_wins(c);
    let ghost b_won = |c: (Option<u64>, Option<u64>)| b_wins(c);
    let ghost both = |c: (Option<u64>, Option<u64>)| c.0 is Some && c.1 is Some;
    let mut i: usize = 0;
    assert(copies@.take(0) =~= Seq::empty());
    while i < copies.len()
        invariant
            i <= copies@.len() <= u64::MAX,
            a_lost == (|c: (Option<u64>, Option<u64>)| c.0 is None),
            b_lost == (|c: (Option<u64>, Option<u64>)| c.1 is None),
            both_lost == (|c: (Option<u64>, Option<u64>)| c.0 is None && c.1 is None),
            a_won == (|c: (Option<u64>, Option<u64>)| a_wins(c)),
            b_won == (|c: (Option<u64>, Option<u64>)| b_wins(c)),
            both == (|c: (Option<u64>, Option<u64>)| c.0 is Some && c.1 is Some),
            schedule@ == deliveries(copies@.take(i as int)),
            schedule@.len() <= i,
            stats == (NetworkStats {
                lost_a: stats.lost_a,
                lost_b: stats.lost_b,
                lost_packets: stats.lost_packets,
                wins_a: stats.wins_a,
                wins_b: stats.wins_b,
                duplicates_dropped: stats.duplicates_dropped,
                ..no_traffic()
            }),
            stats.lost_a == count_copies(copies@.take(i as int), a_lost),
            stats.lost_a <= i,
            stats.lost_b == if dual { count_copies(copies@.take(i as int), b_lost) } else { 0 },
            stats.lost_b <= i,
            stats.lost_packets == count_copies(copies@.take(i as int), both_lost),
            stats.lost_packets <= i,
            stats.wins_a == count_copies(copies@.take(i as int), a_won),
            stats.wins_a <= i,
            stats.wins_b == count_copies(copies@.take(i as int), b_won),
            stats.wins_b <= i,
            stats.duplicates_dropped == count_copies(copies@.take(i as int), both),
            stats.duplicates_dropped <= i,
        decreases copies@.len() - i,
    {
        proof {
            assert(copies@.take(i + 1).drop_last() =~= copies@.take(i as int));
            assert(copies@.take(i + 1).last() == copies@[i as int]);
        }
        let (a, b) = copies[i];
        match (a, b) {
            (None, None) => {
                stats.lost_a = stats.lost_a + 1;
                if dual {
                    stats.lost_b = stats.lost_b + 1;
                }
                stats.lost_packets = stats.lost_packets + 1;
            },
            (Some(t), None) => {
                if dual {
                    stats.lost_b = stats.lost_b + 1;
                }
                stats.wins_a = stats.wins_a + 1;
                schedule.push((t, i as u64));
            },
            (None, Some(t)) => {
                stats.lost_a = stats.lost_a + 1;
                stats.wins_b = stats.wins_b + 1;
                schedule.push((t, i as u64));
            },
            (Some(ta), Some(tb)) => {
                if ta <= tb {
                    stats.wins_a = stats.wins_a + 1;
                    schedule.push((ta, i as u64));
                } else {
                    stats.wins_b = stats.wins_b + 1;
                    schedule.push((tb, i as u64));
                }
                stats.duplicates_dropped = stats.duplicates_dropped + 1;
            },
        }
        i += 1;
    }
    assert(copies@.take(i as int) =~= copies@);
    let ghost unsorted = schedule@;
    sort_arrivals(&mut schedule);
    proof {
        lemma_sorted_arrivals(unsorted, schedule@);
    }
    stats.sent = copies.len() as u64;
    stats.delivered = schedule.len() as u64;
    stats.displacement = measure_displacement(schedule.as_slice());
    (schedule, stats)
}

/// Sends packets with the given send times through the network. Returns what
/// the receiver gets, as `(arrival time, packet)` pairs in arrival order, and
/// the counters of the run.
pub fn disturb_sends(sends: &Vec<u64>, cfg: &NetworkConfig) -> (r: (
    Vec<(u64, u64)>,
    NetworkStats,
))
    requires
        sends@.len() <= u64::MAX,
        forall|i: int| 0 <= i < sends@.len() ==> times_fit(*cfg, #[trigger] sends@[i]),
    ensures
        r.0@ == arrivals(sends@, *cfg),
        r.1 == traffic(sends@, *cfg),
{
    let mut rng = rng_from_seed(cfg.seed);
    let mut loss_a = LossState::new(cfg.path_a.loss);
    let mut loss_b = LossState::new(
        match cfg.path_b {
            Some(path_b) => path_b.loss,
            None => LossModel::Lossless,
        },
    );
    let mut copies: Vec<(Option<u64>, Option<u64>)> = Vec::new();
    let mut i: usize = 0;
    assert(sends@.take(0) =~= Seq::empty());
    while i < sends.len()
        invariant
            i <= sends@.len(),
            forall|j: int| 0 <= j < sends@.len() ==> times_fit(*cfg, #[trigger] sends@[j]),
            loss_a.model() == cfg.path_a.loss,
            cfg.path_b matches Some(b) ==> loss_b.model() == b.loss,
            ({
                let s = run(sends@.take(i as int), *cfg);
                &&& copies@ == s.copies
                &&& copies@.len() == i
                &&& loss_a.is_bad() == s.in_bad_a
                &&& loss_b.is_bad() == s.in_bad_b
                &&& words_to_come(rng) == s.words
            }),
        decreases sends@.len() - i,
    {
        proof {
            assert(sends@.take(i + 1).drop_last() =~= sends@.take(i as int));
            assert(sends@.take(i + 1).last() == sends@[i as int]);
            assert(times_fit(*cfg, sends@[i as int]));
        }
        let a = copy_arrival(&cfg.path_a, sends[i], &mut loss_a, &mut rng);
        let b = match &cfg.path_b {
            Some(path_b) => copy_arrival(path_b, sends[i], &mut loss_b, &mut rng),
            None => None,
        };
        copies.push((a, b));
        i += 1;
    }
    assert(sends@.take(i as int) =~= sends@);
    merge_copies(&copies, cfg.path_b.is_some())
}

/// Sends packets `0..n` through the network, packet `i` at `send_ns(i)`.
pub fn disturb(n: u64, send_ns: impl Fn(u64) -> u64, cfg: &NetworkConfig) -> (r: (
    Vec<(u64, u64)>,
    NetworkStats,
))
    requires
        n <= usize::MAX,
        forall|i: u64| i < n ==> call_requires(send_ns, (i,)),
        forall|i: u64, s: u64| i < n && #[trigger] call_ensures(send_ns, (i,), s) ==> times_fit(
            *cfg,
            s,
        ),
    ensures
        exists|sends: Seq<u64>|
            {
                &&& sends.len() == n
                &&& forall|i: u64| i < n ==> call_ensures(send_ns, (i,), #[trigger] sends[i as int])
                &&& r.0@ == #[trigger] arrivals(sends, *cfg)
                &&& r.1 == traffic(sends, *cfg)
            },
{
    let mut sends: Vec<u64> = Vec::new();
    let mut i: u64 = 0;
    while i < n
        invariant
            i <= n,
            sends@.len() == i,
            forall|j: u64| j < n ==> call_requires(send_ns, (j,)),
            forall|j: u64| j < i ==> call_ensures(send_ns, (j,), #[trigger] sends@[j as int]),
        decreases n - i,
    {
        let s: u64 = send_ns(i);
        sends.push(s);
        i += 1;
    }
    assert forall|j: int| 0 <= j < sends@.len() implies times_fit(*cfg, #[trigger] sends@[j]) by {
        assert(call_ensures(send_ns, (j as u64,), sends@[j as u64 as int]));
    }
    let r = disturb_sends(&sends, cfg);
    assert(r.0@ == arrivals(sends@, *cfg));
    r
}

/// Every packet has its copies counted once.
proof fn lemma_run_len(sends: Seq<u64>, cfg: NetworkConfig)
    ensures
        run(sends, cfg).copies.len() == sends.len(),
    decreases sends.len(),
{
    if sends.len() > 0 {
        lemma_run_len(sends.drop_last(), cfg);
    }
}

/// The deliveries are those packets of which a copy survived, each with its
/// first arrival, by ascending number.
proof fn lemma_deliveries(copies: Seq<(Option<u64>, Option<u64>)>)
    requires
        copies.len() <= u64::MAX,
    ensures
        forall|k: int|
            0 <= k < deliveries(copies).len() ==> {
                &&& (#[trigger] deliveries(copies)[k]).1 < copies.len()
                &&& first_arrival(copies[deliveries(copies)[k].1 as int]) == Some(
                    deliveries(copies)[k].0,
                )
            },
        forall|j: int, k: int|
            0 <= j < k < deliveries(copies).len() ==> (#[trigger] deliveries(copies)[j]).1 < (
            #[trigger] deliveries(copies)[k]).1,
        forall|i: int|
            0 <= i < copies.len() && first_arrival(#[trigger] copies[i]) is Some
                ==> deliveries(copies).contains((first_arrival(copies[i])->0, i as u64)),
    decreases copies.len(),
{
    if copies.len() > 0 {
        let before = copies.drop_last();
        lemma_deliveries(before);
        let d = deliveries(copies);
        let e = deliveries(before);
        assert forall|k: int| 0 <= k < e.len() implies #[trigger] d[k] == e[k] by {}
        assert forall|i: int|
            0 <= i < copies.len() && first_arrival(#[trigger] copies[i]) is Some implies d.contains(
            (first_arrival(copies[i])->0, i as u64),
        ) by {
            let pair = (first_arrival(copies[i])->0, i as u64);
            if i < before.len() {
                assert(before[i] == copies[i]);
                assert(e.contains(pair));
                let k = choose|k: int| 0 <= k < e.len() && e[k] == pair;
                assert(d[k] == pair);
            } else {
                assert(d[d.len() - 1] == pair);
            }
        }
    }
}

/// Sorting keeps the pairs.
proof fn lemma_sorting_keeps_pairs(s: Seq<(u64, u64)>)
    ensures
        s.sort_by(arrival_order()).len() == s.len(),
        s.sort_by(arrival_order()).to_multiset() == s.to_multiset(),
        vstd::relations::sorted_by(s.sort_by(arrival_order()), arrival_order()),
        forall|x: (u64, u64)| s.contains(x) <==> #[trigger] s.sort_by(arrival_order()).contains(x),
{
    assert(vstd::relations::antisymmetric(arrival_order())) by {
        assert forall|a: (u64, u64), b: (u64, u64)|
            #[trigger] arrival_order()(a, b) && #[trigger] arrival_order()(b, a) implies a == b by {
            assert(a.0 == b.0 && a.1 == b.1);
        }
    }
    s.lemma_sort_by_ensures(arrival_order());
    broadcast use vstd::seq_lib::group_to_multiset_ensures;

    let t = s.sort_by(arrival_order());
    assert(s.to_multiset().len() == s.len());
    assert(t.to_multiset().len() == t.len());
    assert forall|x: (u64, u64)| s.contains(x) <==> #[trigger] t.contains(x) by {
        assert(s.to_multiset().count(x) == t.to_multiset().count(x));
    }
}

/// Two counts over the same packets, split by a condition.
proof fn lemma_counts(copies: Seq<(Option<u64>, Option<u64>)>)
    ensures
        count_copies(copies, |c: (Option<u64>, Option<u64>)| a_wins(c)) + count_copies(
            copies,
            |c: (Option<u64>, Option<u64>)| b_wins(c),
        ) == deliveries(copies).len(),
        deliveries(copies).len() + count_copies(
            copies,
            |c: (Option<u64>, Option<u64>)| c.0 is None && c.1 is None,
        ) == copies.len(),
        count_copies(copies, |c: (Option<u64>, Option<u64>)| c.0 is None) + count_copies(
            copies,
            |c: (Option<u64>, Option<u64>)| c.1 is None,
        ) + count_copies(copies, |c: (Option<u64>, Option<u64>)| c.0 is Some && c.1 is Some)
            == copies.len() + count_copies(
            copies,
            |c: (Option<u64>, Option<u64>)| c.0 is None && c.1 is None,
        ),
        count_copies(copies, |c: (Option<u64>, Option<u64>)| c.0 is None) <= copies.len(),
        count_copies(copies, |c: (Option<u64>, Option<u64>)| c.1 is None) <= copies.len(),
        count_copies(copies, |c: (Option<u64>, Option<u64>)| c.0 is Some && c.1 is Some)
            <= copies.len(),
    decreases copies.len(),
{
    if copies.len() > 0 {
        lemma_counts(copies.drop_last());
    }
}

/// Law: no packet vanishes. Every packet sent is delivered or lost, every
/// delivery is one path's win, and with two paths every second copy is
/// accounted for.
pub proof fn law_every_packet_is_accounted_for(sends: Seq<u64>, cfg: NetworkConfig)
    requires
        sends.len() <= u64::MAX,
    ensures
        traffic(sends, cfg).sent == sends.len(),
        traffic(sends, cfg).delivered == arrivals(sends, cfg).len(),
        traffic(sends, cfg).delivered + traffic(sends, cfg).lost_packets == traffic(
            sends,
            cfg,
        ).sent,
        traffic(sends, cfg).wins_a + traffic(sends, cfg).wins_b == traffic(sends, cfg).delivered,
        cfg.path_b is Some ==> traffic(sends, cfg).lost_a + traffic(sends, cfg).lost_b + traffic(
            sends,
            cfg,
        ).duplicates_dropped == traffic(sends, cfg).sent + traffic(sends, cfg).lost_packets,
{
    lemma_run_len(sends, cfg);
    lemma_counts(run(sends, cfg).copies);
    lemma_sorting_keeps_pairs(deliveries(run(sends, cfg).copies));
}

/// Counting a condition that no packet satisfies gives nothing.
proof fn lemma_count_none(
    copies: Seq<(Option<u64>, Option<u64>)>,
    holds: spec_fn((Option<u64>, Option<u64>)) -> bool,
)
    requires
        forall|i: int| 0 <= i < copies.len() ==> !holds(#[trigger] copies[i]),
    ensures
        count_copies(copies, holds) == 0,
    decreases copies.len(),
{
    if copies.len() > 0 {
        let rest = copies.drop_last();
        assert forall|i: int| 0 <= i < rest.len() implies !holds(#[trigger] rest[i]) by {
            assert(rest[i] == copies[i]);
        }
        lemma_count_none(rest, holds);
        assert(!holds(copies[copies.len() - 1]));
    }
}

/// Conditions that agree on every packet count the same.
proof fn lemma_count_same(
    copies: Seq<(Option<u64>, Option<u64>)>,
    a: spec_fn((Option<u64>, Option<u64>)) -> bool,
    b: spec_fn((Option<u64>, Option<u64>)) -> bool,
)
    requires
        forall|i: int| 0 <= i < copies.len() ==> a(#[trigger] copies[i]) == b(copies[i]),
    ensures
        count_copies(copies, a) == count_copies(copies, b),
    decreases copies.len(),
{
    if copies.len() > 0 {
        let rest = copies.drop_last();
        assert forall|i: int| 0 <= i < rest.len() implies a(#[trigger] rest[i]) == b(rest[i]) by {
            assert(rest[i] == copies[i]);
        }
        lemma_count_same(rest, a, b);
        assert(a(copies[copies.len() - 1]) == b(copies[copies.len() - 1]));
    }
}

/// A lossless path brings every copy, and a path that is not there brings none.
proof fn lemma_copies_of_paths(sends: Seq<u64>, cfg: NetworkConfig, i: int)
    requires
        0 <= i < sends.len(),
    ensures
        run(sends, cfg).copies.len() == sends.len(),
        cfg.path_a.loss is Lossless ==> run(sends, cfg).copies[i].0 is Some,
        cfg.path_b is None ==> run(sends, cfg).copies[i].1 is None,
        (cfg.path_b matches Some(b) && b.loss is Lossless) ==> run(sends, cfg).copies[i].1 is Some,
    decreases sends.len(),
{
    lemma_run_len(sends, cfg);
    let before = sends.drop_last();
    lemma_run_len(before, cfg);
    if i < before.len() {
        lemma_copies_of_paths(before, cfg, i);
        assert(run(sends, cfg).copies[i] == run(before, cfg).copies[i]);
    }
}

/// Law: a lossless path loses nothing. No copy is lost on it, and with it no
/// packet is lost at all, whatever the other path does.
pub proof fn law_lossless_path_loses_nothing(sends: Seq<u64>, cfg: NetworkConfig)
    ensures
        cfg.path_a.loss is Lossless ==> traffic(sends, cfg).lost_a == 0 && traffic(
            sends,
            cfg,
        ).lost_packets == 0,
        (cfg.path_b matches Some(b) && b.loss is Lossless) ==> traffic(sends, cfg).lost_b == 0
            && traffic(sends, cfg).lost_packets == 0,
{
    let copies = run(sends, cfg).copies;
    let lost_a = |c: (Option<u64>, Option<u64>)| c.0 is None;
    let lost_b = |c: (Option<u64>, Option<u64>)| c.1 is None;
    let lost = |c: (Option<u64>, Option<u64>)| c.0 is None && c.1 is None;
    lemma_run_len(sends, cfg);
    assert forall|i: int| 0 <= i < copies.len() implies {
        &&& cfg.path_a.loss is Lossless ==> (#[trigger] copies[i]).0 is Some
        &&& (cfg.path_b matches Some(b) && b.loss is Lossless) ==> copies[i].1 is Some
    } by {
        lemma_copies_of_paths(sends, cfg, i);
    }
    if cfg.path_a.loss is Lossless {
        lemma_count_none(copies, lost_a);
        lemma_count_none(copies, lost);
    }
    if cfg.path_b is Some && cfg.path_b->0.loss is Lossless {
        lemma_count_none(copies, lost_b);
        lemma_count_none(copies, lost);
    }
}

/// Law: with a single path, nothing is counted under the second one. Every
/// delivery is a win of path A, every lost copy a lost packet, and there are no
/// duplicates.
pub proof fn law_single_path_is_path_a(sends: Seq<u64>, cfg: NetworkConfig)
    requires
        cfg.path_b is None,
    ensures
        traffic(sends, cfg).lost_b == 0,
        traffic(sends, cfg).wins_b == 0,
        traffic(sends, cfg).duplicates_dropped == 0,
        traffic(sends, cfg).lost_a == traffic(sends, cfg).lost_packets,
        traffic(sends, cfg).wins_a == traffic(sends, cfg).delivered,
{
    let copies = run(sends, cfg).copies;
    lemma_run_len(sends, cfg);
    assert forall|i: int| 0 <= i < copies.len() implies (#[trigger] copies[i]).1 is None by {
        lemma_copies_of_paths(sends, cfg, i);
    }
    lemma_count_none(copies, |c: (Option<u64>, Option<u64>)| b_wins(c));
    lemma_count_none(copies, |c: (Option<u64>, Option<u64>)| c.0 is Some && c.1 is Some);
    lemma_count_same(
        copies,
        |c: (Option<u64>, Option<u64>)| c.0 is None,
        |c: (Option<u64>, Option<u64>)| c.0 is None && c.1 is None,
    );
    lemma_counts(copies);
}

/// Law: a packet is lost only if both its copies are. Packet `i` is among the
/// arrivals exactly if one of its copies survived, and it arrives with the
/// earlier one.
pub proof fn law_packet_lost_only_with_both_copies(
    sends: Seq<u64>,
    cfg: NetworkConfig,
    i: u64,
    t: u64,
)
    requires
        sends.len() <= u64::MAX,
        i < sends.len(),
    ensures
        arrivals(sends, cfg).contains((t, i)) <==> first_arrival(run(sends, cfg).copies[i as int])
            == Some(t),
{
    let copies = run(sends, cfg).copies;
    let d = deliveries(copies);
    lemma_run_len(sends, cfg);
    lemma_deliveries(copies);
    lemma_sorting_keeps_pairs(d);
    if arrivals(sends, cfg).contains((t, i)) {
        assert(d.contains((t, i)));
        let k = choose|k: int| 0 <= k < d.len() && d[k] == (t, i);
        assert(first_arrival(copies[d[k].1 as int]) == Some(d[k].0));
    }
    if first_arrival(copies[i as int]) == Some(t) {
        assert(d.contains((t, i)));
    }
}

/// Law: only packets that were sent are delivered.
pub proof fn law_deliveries_were_sent(sends: Seq<u64>, cfg: NetworkConfig, k: int)
    requires
        sends.len() <= u64::MAX,
        0 <= k < arrivals(sends, cfg).len(),
    ensures
        arrivals(sends, cfg)[k].1 < sends.len(),
{
    let copies = run(sends, cfg).copies;
    let d = deliveries(copies);
    let s = arrivals(sends, cfg);
    lemma_run_len(sends, cfg);
    lemma_deliveries(copies);
    lemma_sorting_keeps_pairs(d);
    assert(s.contains(s[k]));
    assert(d.contains(s[k]));
    let a = choose|a: int| 0 <= a < d.len() && d[a] == s[k];
    assert(d[a].1 < copies.len());
}

/// Law: the merge delivers no packet twice, and the arrivals come in order of
/// their times, and of their numbers at the same time.
pub proof fn law_arrivals_are_ordered_and_distinct(
    sends: Seq<u64>,
    cfg: NetworkConfig,
    j: int,
    k: int,
)
    requires
        sends.len() <= u64::MAX,
        0 <= j < k < arrivals(sends, cfg).len(),
    ensures
        arrivals(sends, cfg)[j].0 <= arrivals(sends, cfg)[k].0,
        arrivals(sends, cfg)[j].1 != arrivals(sends, cfg)[k].1,
        arrivals(sends, cfg)[j].0 == arrivals(sends, cfg)[k].0 ==> arrivals(sends, cfg)[j].1
            < arrivals(sends, cfg)[k].1,
{
    let copies = run(sends, cfg).copies;
    let d = deliveries(copies);
    let s = arrivals(sends, cfg);
    lemma_run_len(sends, cfg);
    lemma_deliveries(copies);
    lemma_sorting_keeps_pairs(d);
    assert(arrival_order()(s[j], s[k]));
    if s[j].1 == s[k].1 {
        // the same packet arrives with the same time, so the pair is there twice
        assert(s.contains(s[j]));
        assert(s.contains(s[k]));
        assert(d.contains(s[j]));
        assert(d.contains(s[k]));
        let a = choose|a: int| 0 <= a < d.len() && d[a] == s[j];
        let b = choose|b: int| 0 <= b < d.len() && d[b] == s[k];
        assert(d[a].1 == d[b].1);
        assert(a == b) by {
            if a < b {
                assert(d[a].1 < d[b].1);
            } else if b < a {
                assert(d[b].1 < d[a].1);
            }
        }
        assert(s[j] == s[k]);
        assert(d.no_duplicates()) by {
            assert forall|x: int, y: int|
                0 <= x < d.len() && 0 <= y < d.len() && x != y implies d[x] != d[y] by {
                if x < y {
                    assert(d[x].1 < d[y].1);
                } else {
                    assert(d[y].1 < d[x].1);
                }
            }
        }
        d.lemma_multiset_has_no_duplicates();
        s.lemma_multiset_has_no_duplicates_conv();
    }
}

/// A copy that is not lost arrives after the base delay and within the jitter.
proof fn lemma_copy_within_jitter(sends: Seq<u64>, cfg: NetworkConfig, i: int)
    requires
        0 <= i < sends.len(),
        forall|n: int| 0 <= n < sends.len() ==> times_fit(cfg, #[trigger] sends[n]),
    ensures
        run(sends, cfg).copies.len() == sends.len(),
        run(sends, cfg).copies[i].0 matches Some(t) ==> sends[i] + cfg.path_a.base_delay_ns <= t
            <= sends[i] + cfg.path_a.base_delay_ns + cfg.path_a.jitter_ns,
        cfg.path_b is None ==> run(sends, cfg).copies[i].1 is None,
        cfg.path_b matches Some(b) ==> (run(sends, cfg).copies[i].1 matches Some(t) ==> sends[i]
            + b.base_delay_ns <= t <= sends[i] + b.base_delay_ns + b.jitter_ns),
    decreases sends.len(),
{
    lemma_run_len(sends, cfg);
    let before = sends.drop_last();
    lemma_run_len(before, cfg);
    if i < before.len() {
        assert forall|n: int| 0 <= n < before.len() implies times_fit(
            cfg,
            #[trigger] before[n],
        ) by {
            assert(before[n] == sends[n]);
        }
        lemma_copy_within_jitter(before, cfg, i);
        assert(run(sends, cfg).copies[i] == run(before, cfg).copies[i]);
    } else {
        assert(times_fit(cfg, sends[i]));
    }
}

/// Law: a copy that is not lost arrives after its path's base delay, and at
/// most the path's jitter later.
pub proof fn law_copies_arrive_within_jitter(sends: Seq<u64>, cfg: NetworkConfig, i: int)
    requires
        0 <= i < sends.len(),
        forall|n: int| 0 <= n < sends.len() ==> times_fit(cfg, #[trigger] sends[n]),
    ensures
        run(sends, cfg).copies[i].0 matches Some(t) ==> sends[i] + cfg.path_a.base_delay_ns <= t
            <= sends[i] + cfg.path_a.base_delay_ns + cfg.path_a.jitter_ns,
        cfg.path_b matches Some(b) ==> (run(sends, cfg).copies[i].1 matches Some(t) ==> sends[i]
            + b.base_delay_ns <= t <= sends[i] + b.base_delay_ns + b.jitter_ns),
{
    lemma_copy_within_jitter(sends, cfg, i);
}

/// The newest packet among arrivals is one of them, and none is newer.
proof fn lemma_newest(schedule: Seq<(u64, u64)>)
    ensures
        newest(schedule) is Some == (schedule.len() > 0),
        newest(schedule) matches Some(m) ==> exists|j: int|
            0 <= j < schedule.len() && (#[trigger] schedule[j]).1 == m,
        newest(schedule) matches Some(m) ==> forall|j: int|
            0 <= j < schedule.len() ==> (#[trigger] schedule[j]).1 <= m,
    decreases schedule.len(),
{
    if schedule.len() > 0 {
        let before = schedule.drop_last();
        lemma_newest(before);
        assert forall|j: int| 0 <= j < before.len() implies before[j] == schedule[j] by {}
        assert(schedule[schedule.len() - 1] == schedule.last());
        if let Some(m) = newest(before) {
            let j = choose|j: int| 0 <= j < before.len() && (#[trigger] before[j]).1 == m;
            assert(schedule[j].1 == m);
        }
    }
}

/// A sorted sequence has the elements that it was sorted from.
proof fn lemma_sorted_numbers_keep(s: Seq<u64>, i: int)
    requires
        0 <= i < s.len(),
    ensures
        s.sort_by(number_order()).len() == s.len(),
        s.contains(s.sort_by(number_order())[i]),
{
    s.lemma_sort_by_ensures(number_order());
    broadcast use vstd::seq_lib::group_to_multiset_ensures;

    let t = s.sort_by(number_order());
    assert(s.to_multiset().len() == s.len());
    assert(t.to_multiset().len() == t.len());
    assert(t.contains(t[i]));
}

/// Law: jitter bounds reordering. On a single path, with packets sent at least
/// `spacing` apart, no packet is overtaken by a packet more than `jitter /
/// spacing` after it.
pub proof fn law_jitter_bounds_lateness(sends: Seq<u64>, cfg: NetworkConfig, spacing: u64, k: int)
    requires
        sends.len() <= u64::MAX,
        cfg.path_b is None,
        forall|n: int| 0 <= n < sends.len() ==> times_fit(cfg, #[trigger] sends[n]),
        forall|m: int, n: int|
            0 <= m < n < sends.len() ==> (#[trigger] sends[m]) + (n - m) * spacing <= (
            #[trigger] sends[n]),
        0 <= k < arrivals(sends, cfg).len(),
    ensures
        lateness(arrivals(sends, cfg), k) * spacing <= cfg.path_a.jitter_ns,
{
    let s = arrivals(sends, cfg);
    let copies = run(sends, cfg).copies;
    let upto = s.take(k);
    lemma_newest(upto);
    lemma_run_len(sends, cfg);
    lemma_deliveries(copies);
    lemma_sorting_keeps_pairs(deliveries(copies));
    if newest(upto) matches Some(m) && s[k].1 < m {
        let m = newest(upto)->0;
        let j = choose|j: int| 0 <= j < upto.len() && (#[trigger] upto[j]).1 == m;
        assert(upto[j] == s[j]);
        assert(arrival_order()(s[j], s[k]));
        assert(s.contains(s[j]) && s.contains(s[k]));
        let d = deliveries(copies);
        assert(d.contains(s[j]) && d.contains(s[k]));
        let a = choose|a: int| 0 <= a < d.len() && d[a] == s[j];
        let b = choose|b: int| 0 <= b < d.len() && d[b] == s[k];
        assert(d[a].1 < copies.len() && d[b].1 < copies.len());
        let early = s[k].1 as int;
        let late = m as int;
        lemma_copy_within_jitter(sends, cfg, early);
        lemma_copy_within_jitter(sends, cfg, late);
        assert(sends[early] + (late - early) * spacing <= sends[late]);
    } else {
        assert(lateness(s, k) == 0);
        assert(0 * spacing == 0);
    }
}

/// Law: a network without jitter and loss changes nothing. On a single such
/// path every packet arrives, in send order, after exactly the base delay, and
/// there is no displacement at all.
pub proof fn law_undisturbed_network_changes_nothing(sends: Seq<u64>, cfg: NetworkConfig)
    requires
        sends.len() <= u64::MAX,
        cfg.path_b is None,
        cfg.path_a.jitter_ns == 0,
        cfg.path_a.loss is Lossless,
        forall|n: int| 0 <= n < sends.len() ==> times_fit(cfg, #[trigger] sends[n]),
        forall|m: int, n: int| 0 <= m < n < sends.len() ==> sends[m] <= sends[n],
    ensures
        arrivals(sends, cfg) == Seq::new(
            sends.len(),
            |i: int| ((sends[i] + cfg.path_a.base_delay_ns) as u64, i as u64),
        ),
        traffic(sends, cfg).lost_packets == 0,
        traffic(sends, cfg).displacement == no_displacement(),
{
    let want = Seq::new(
        sends.len(),
        |i: int| ((sends[i] + cfg.path_a.base_delay_ns) as u64, i as u64),
    );
    lemma_undisturbed_deliveries(sends, cfg);
    let copies = run(sends, cfg).copies;
    assert(deliveries(copies) == want);
    assert forall|j: int, k: int| 0 <= j < k < want.len() implies #[trigger] arrival_order()(
        want[j],
        want[k],
    ) by {
        assert(times_fit(cfg, sends[j]) && times_fit(cfg, sends[k]));
        assert(sends[j] <= sends[k]);
    }
    lemma_sorted_arrivals(want, want);
    law_every_packet_is_accounted_for(sends, cfg);
    // in order: each arrival is one past the newest before it
    let n = want.len() as int;
    assert forall|k: int| 0 <= k < n implies lateness(want, k) == 0 && skipped(want, k) == 0 by {
        let upto = want.take(k);
        lemma_newest(upto);
        if k > 0 {
            let m = newest(upto)->0;
            assert(upto[k - 1].1 == k - 1);
            let j = choose|j: int| 0 <= j < upto.len() && (#[trigger] upto[j]).1 == m;
            assert(upto[j].1 == j);
            assert(m == k - 1);
        }
    }
    let late = all_lateness(want);
    let jumps = all_skipped(want);
    lemma_all_zero(late);
    lemma_all_zero(jumps);
    if n > 0 {
        assert forall|i: int| 0 <= i < n implies #[trigger] late.sort_by(number_order())[i]
            == 0 by {
            lemma_sorted_numbers_keep(late, i);
            let at = choose|at: int|
                0 <= at < late.len() && late[at] == late.sort_by(number_order())[i];
            assert(late[at] == 0);
        }
        lemma_nearest_rank(n, 1, 2);
        lemma_nearest_rank(n, 99, 100);
        lemma_nearest_rank(n, 999, 1000);
    }
}

/// Numbers that are all zero have no positive one among them, and no largest.
proof fn lemma_all_zero(s: Seq<u64>)
    requires
        forall|i: int| 0 <= i < s.len() ==> #[trigger] s[i] == 0,
    ensures
        count_positive(s) == 0,
        largest(s) == 0,
    decreases s.len(),
{
    if s.len() > 0 {
        lemma_all_zero(s.drop_last());
    }
}

/// Without jitter and loss on a single path, every packet is delivered after
/// the base delay.
proof fn lemma_undisturbed_deliveries(sends: Seq<u64>, cfg: NetworkConfig)
    requires
        sends.len() <= u64::MAX,
        cfg.path_b is None,
        cfg.path_a.jitter_ns == 0,
        cfg.path_a.loss is Lossless,
        forall|n: int| 0 <= n < sends.len() ==> times_fit(cfg, #[trigger] sends[n]),
    ensures
        deliveries(run(sends, cfg).copies) == Seq::new(
            sends.len(),
            |i: int| ((sends[i] + cfg.path_a.base_delay_ns) as u64, i as u64),
        ),
        run(sends, cfg).copies.len() == sends.len(),
    decreases sends.len(),
{
    let want = Seq::new(
        sends.len(),
        |i: int| ((sends[i] + cfg.path_a.base_delay_ns) as u64, i as u64),
    );
    lemma_run_len(sends, cfg);
    if sends.len() > 0 {
        let before = sends.drop_last();
        assert forall|n: int| 0 <= n < before.len() implies times_fit(
            cfg,
            #[trigger] before[n],
        ) by {
            assert(before[n] == sends[n]);
        }
        lemma_undisturbed_deliveries(before, cfg);
        let copies = run(sends, cfg).copies;
        assert(copies.drop_last() =~= run(before, cfg).copies);
        assert(times_fit(cfg, sends[sends.len() - 1]));
        assert(deliveries(copies) =~= want);
    } else {
        assert(want =~= Seq::empty());
    }
}

/// Law: what becomes of one copy, word by word. An independent loss takes one word
/// and loses the copy if the word falls below `p`. A bursty path loses the copy
/// exactly if it is bad, and takes one word to see whether it switches. A copy that
/// survives arrives after the base delay and a jitter drawn from the words that
/// follow.
pub proof fn law_copy_follows_its_draws(
    path: PathConfig,
    send_ns: u64,
    in_bad: bool,
    words: Map<nat, u64>,
)
    requires
        send_ns + path.base_delay_ns + path.jitter_ns <= u64::MAX,
    ensures
        ({
            let out = copy_outcome(path, send_ns, in_bad, words);
            let low = words[0] / 0x800;
            let used = if path.loss is Lossless { 0nat } else { 1nat };
            let left = if path.loss is Lossless { words } else { words_after(words, 1) };
            let draw = uniform_draw(left, path.jitter_ns);
            &&& path.loss is Lossless ==> out.arrival is Some && out.in_bad == in_bad
            &&& path.loss matches LossModel::Independent { p } ==> (out.arrival is None <==> low
                < p) && out.in_bad == in_bad
            &&& path.loss matches LossModel::GilbertElliott { p_good_to_bad, p_bad_to_good } ==> {
                &&& out.arrival is None <==> in_bad
                &&& in_bad ==> (out.in_bad <==> low >= p_bad_to_good)
                &&& !in_bad ==> (out.in_bad <==> low < p_good_to_bad)
            }
            &&& out.arrival matches Some(t) ==> send_ns + path.base_delay_ns <= t <= send_ns
                + path.base_delay_ns + path.jitter_ns
            &&& out.arrival is Some && draw.0 <= path.jitter_ns ==> out.arrival->0 == send_ns
                + path.base_delay_ns + draw.0
            &&& out.arrival is Some ==> forall|i: nat| #[trigger]
                out.words[i] == words[(i + draw.1 + used) as nat]
            &&& out.arrival is None ==> forall|i: nat| #[trigger] out.words[i] == words[i + used]
        }),
{
}

/// Law: packets pass through the network one after another. Each path's loss state
/// and the words to come carry over from one packet to the next, path A draws
/// before path B, and what has become of earlier packets stays.
pub proof fn law_paths_carry_their_state(sends: Seq<u64>, send_ns: u64, cfg: NetworkConfig)
    ensures
        ({
            let start = run(Seq::empty(), cfg);
            &&& !start.in_bad_a && !start.in_bad_b
            &&& start.words == seeded_words(cfg.seed)
            &&& start.copies.len() == 0
        }),
        ({
            let s = run(sends, cfg);
            let next = run(sends.push(send_ns), cfg);
            let a = copy_outcome(cfg.path_a, send_ns, s.in_bad_a, s.words);
            &&& next.in_bad_a == a.in_bad
            &&& match cfg.path_b {
                Some(path_b) => {
                    let b = copy_outcome(path_b, send_ns, s.in_bad_b, a.words);
                    &&& next.in_bad_b == b.in_bad
                    &&& next.words == b.words
                    &&& next.copies == s.copies.push((a.arrival, b.arrival))
                },
                None => next.words == a.words && next.copies == s.copies.push((a.arrival, None)),
            }
        }),
{
    assert(sends.push(send_ns).drop_last() =~= sends);
}

/// What becomes of a packet is settled when it has passed.
proof fn lemma_copies_stay(sends: Seq<u64>, cfg: NetworkConfig, i: int)
    requires
        0 <= i < sends.len(),
    ensures
        run(sends, cfg).copies.len() == sends.len(),
        run(sends.take(i + 1), cfg).copies.len() == i + 1,
        run(sends, cfg).copies[i] == run(sends.take(i + 1), cfg).copies[i],
    decreases sends.len(),
{
    lemma_run_len(sends, cfg);
    lemma_run_len(sends.take(i + 1), cfg);
    if i == sends.len() - 1 {
        assert(sends.take(i + 1) =~= sends);
    } else {
        let before = sends.drop_last();
        lemma_copies_stay(before, cfg, i);
        assert(before.take(i + 1) =~= sends.take(i + 1));
    }
}

/// One packet's copies, from the state that the packets before it left.
proof fn lemma_one_packet(sends: Seq<u64>, cfg: NetworkConfig, i: int)
    requires
        0 <= i < sends.len(),
    ensures
        run(sends, cfg).copies.len() == sends.len(),
        ({
            let s = run(sends.take(i), cfg);
            let next = run(sends.take(i + 1), cfg);
            let a = copy_outcome(cfg.path_a, sends[i], s.in_bad_a, s.words);
            &&& run(sends, cfg).copies[i].0 == a.arrival
            &&& next.in_bad_a == a.in_bad
            &&& cfg.path_b matches Some(path_b) ==> {
                let b = copy_outcome(path_b, sends[i], s.in_bad_b, a.words);
                &&& run(sends, cfg).copies[i].1 == b.arrival
                &&& next.in_bad_b == b.in_bad
            }
        }),
{
    lemma_copies_stay(sends, cfg, i);
    assert(sends.take(i + 1) =~= sends.take(i).push(sends[i]));
    law_paths_carry_their_state(sends.take(i), sends[i], cfg);
    lemma_run_len(sends.take(i), cfg);
}

/// Law: losses on a bursty path come in runs, on path B as on path A. The first
/// copy always arrives. After a copy that arrived, the next is lost exactly if a
/// word falls below `p_good_to_bad`; after a lost copy, the next is lost too unless
/// a word falls below `p_bad_to_good`. A switch that is certain always comes, and
/// one of probability zero never.
pub proof fn law_bursts_carry_over(
    sends: Seq<u64>,
    cfg: NetworkConfig,
    second: bool,
    p_good_to_bad: u64,
    p_bad_to_good: u64,
    i: int,
)
    requires
        0 <= i < sends.len(),
        second ==> cfg.path_b is Some,
        (if second { cfg.path_b->0 } else { cfg.path_a }).loss == (LossModel::GilbertElliott {
            p_good_to_bad,
            p_bad_to_good,
        }),
    ensures
        ({
            let copies = run(sends, cfg).copies;
            let lost = if second { copies[i].1 is None } else { copies[i].0 is None };
            let lost_next = if second { copies[i + 1].1 is None } else { copies[i + 1].0 is None };
            &&& copies.len() == sends.len()
            &&& i == 0 ==> !lost
            &&& i + 1 < sends.len() ==> {
                &&& exists|word: u64|
                    lost_next == if lost {
                        #[trigger] (word / 0x800) >= p_bad_to_good
                    } else {
                        word / 0x800 < p_good_to_bad
                    }
                &&& lost && p_bad_to_good == 0 ==> lost_next
                &&& lost && p_bad_to_good >= 0x20_0000_0000_0000 ==> !lost_next
                &&& !lost && p_good_to_bad == 0 ==> !lost_next
                &&& !lost && p_good_to_bad >= 0x20_0000_0000_0000 ==> lost_next
            }
        }),
{
    lemma_one_packet(sends, cfg, i);
    assert(sends.take(0) =~= Seq::empty());
    if i + 1 < sends.len() {
        lemma_one_packet(sends, cfg, i + 1);
        let s = run(sends.take(i), cfg);
        let a = copy_outcome(cfg.path_a, sends[i], s.in_bad_a, s.words);
        let word = if second { a.words[0] } else { s.words[0] };
        assert((word / 0x800) < 0x20_0000_0000_0000);
    }
}

/// Law: a path that turns bad for certain and never recovers loses every copy but
/// the first, on path B as on path A; one that never turns bad loses none.
pub proof fn law_path_that_never_recovers(
    sends: Seq<u64>,
    cfg: NetworkConfig,
    second: bool,
    p_good_to_bad: u64,
    p_bad_to_good: u64,
    i: int,
)
    requires
        0 <= i < sends.len(),
        second ==> cfg.path_b is Some,
        (if second { cfg.path_b->0 } else { cfg.path_a }).loss == (LossModel::GilbertElliott {
            p_good_to_bad,
            p_bad_to_good,
        }),
    ensures
        ({
            let copies = run(sends, cfg).copies;
            let lost = if second { copies[i].1 is None } else { copies[i].0 is None };
            &&& p_good_to_bad == 0x20_0000_0000_0000 && p_bad_to_good == 0 ==> (lost <==> i > 0)
            &&& p_good_to_bad == 0 ==> !lost
        }),
        forall|k: int|
            i <= k < sends.len() && p_bad_to_good == 0 && (if second {
                run(sends, cfg).copies[i].1 is None
            } else {
                run(sends, cfg).copies[i].0 is None
            }) ==> if second {
                (#[trigger] run(sends, cfg).copies[k]).1 is None
            } else {
                run(sends, cfg).copies[k].0 is None
            },
    decreases i,
{
    law_bursts_carry_over(sends, cfg, second, p_good_to_bad, p_bad_to_good, i);
    if i > 0 {
        law_path_that_never_recovers(sends, cfg, second, p_good_to_bad, p_bad_to_good, i - 1);
        law_bursts_carry_over(sends, cfg, second, p_good_to_bad, p_bad_to_good, i - 1);
    }
    assert forall|k: int|
        i <= k < sends.len() && p_bad_to_good == 0 && (if second {
            run(sends, cfg).copies[i].1 is None
        } else {
            run(sends, cfg).copies[i].0 is None
        }) implies if second {
        (#[trigger] run(sends, cfg).copies[k]).1 is None
    } else {
        run(sends, cfg).copies[k].0 is None
    } by {
        lemma_lost_for_good(sends, cfg, second, p_good_to_bad, i, k);
    }
}

/// Once bad, a path that does not recover stays bad.
proof fn lemma_lost_for_good(
    sends: Seq<u64>,
    cfg: NetworkConfig,
    second: bool,
    p_good_to_bad: u64,
    i: int,
    k: int,
)
    requires
        0 <= i <= k < sends.len(),
        second ==> cfg.path_b is Some,
        (if second { cfg.path_b->0 } else { cfg.path_a }).loss == (LossModel::GilbertElliott {
            p_good_to_bad,
            p_bad_to_good: 0,
        }),
        if second {
            run(sends, cfg).copies[i].1 is None
        } else {
            run(sends, cfg).copies[i].0 is None
        },
    ensures
        if second {
            run(sends, cfg).copies[k].1 is None
        } else {
            run(sends, cfg).copies[k].0 is None
        },
    decreases k - i,
{
    if i < k {
        lemma_lost_for_good(sends, cfg, second, p_good_to_bad, i, k - 1);
        law_bursts_carry_over(sends, cfg, second, p_good_to_bad, 0, k - 1);
    }
}

/// Law: independent losses at the ends of the scale, on path B as on path A. With
/// probability zero no copy is lost, with certainty every one.
pub proof fn law_independent_losses_at_the_ends(
    sends: Seq<u64>,
    cfg: NetworkConfig,
    second: bool,
    p: u64,
    i: int,
)
    requires
        0 <= i < sends.len(),
        second ==> cfg.path_b is Some,
        (if second { cfg.path_b->0 } else { cfg.path_a }).loss == (LossModel::Independent { p }),
    ensures
        ({
            let copies = run(sends, cfg).copies;
            let lost = if second { copies[i].1 is None } else { copies[i].0 is None };
            &&& exists|word: u64| lost == (#[trigger] (word / 0x800) < p)
            &&& p == 0 ==> !lost
            &&& p >= 0x20_0000_0000_0000 ==> lost
        }),
{
    lemma_one_packet(sends, cfg, i);
    let s = run(sends.take(i), cfg);
    let a = copy_outcome(cfg.path_a, sends[i], s.in_bad_a, s.words);
    let word = if second { a.words[0] } else { s.words[0] };
    assert((word / 0x800) < 0x20_0000_0000_0000);
}

/// Counting is filtering.
proof fn lemma_count_is_filter(
    copies: Seq<(Option<u64>, Option<u64>)>,
    holds: spec_fn((Option<u64>, Option<u64>)) -> bool,
)
    ensures
        count_copies(copies, holds) == copies.filter(holds).len(),
        copies.filter(holds).len() <= copies.len(),
    decreases copies.len(),
{
    reveal(Seq::filter);
    if copies.len() > 0 {
        lemma_count_is_filter(copies.drop_last(), holds);
    }
}

/// Law: each counter counts what it is named for, among the copies of the packets
/// sent. `counted` stands for any condition on a packet's two copies.
pub proof fn law_counters_count_copies(
    sends: Seq<u64>,
    cfg: NetworkConfig,
    counted: spec_fn((Option<u64>, Option<u64>)) -> bool,
)
    requires
        sends.len() <= u64::MAX,
    ensures
        ({
            let copies = run(sends, cfg).copies;
            let t = traffic(sends, cfg);
            let n = copies.filter(counted).len();
            &&& t.sent == sends.len()
            &&& (forall|c: (Option<u64>, Option<u64>)| #[trigger] counted(c) <==> c.0 is None)
                ==> t.lost_a == n
            &&& (forall|c: (Option<u64>, Option<u64>)| #[trigger] counted(c) <==> c.1 is None)
                ==> t.lost_b == if cfg.path_b is Some { n } else { 0 }
            &&& (forall|c: (Option<u64>, Option<u64>)| #[trigger]
                counted(c) <==> c.0 is None && c.1 is None) ==> t.lost_packets == n
            &&& (forall|c: (Option<u64>, Option<u64>)| #[trigger]
                counted(c) <==> c.0 is Some && c.1 is Some) ==> t.duplicates_dropped == n
            &&& (forall|c: (Option<u64>, Option<u64>)| #[trigger]
                counted(c) <==> c.0 is Some && (c.1 is Some ==> c.0->0 <= c.1->0)) ==> t.wins_a
                == n
            &&& (forall|c: (Option<u64>, Option<u64>)| #[trigger]
                counted(c) <==> c.1 is Some && (c.0 is Some ==> c.1->0 < c.0->0)) ==> t.wins_b == n
        }),
{
    let copies = run(sends, cfg).copies;
    lemma_run_len(sends, cfg);
    lemma_count_is_filter(copies, counted);
    if forall|c: (Option<u64>, Option<u64>)| #[trigger] counted(c) <==> c.0 is None {
        lemma_count_same(copies, counted, |c: (Option<u64>, Option<u64>)| c.0 is None);
    }
    if forall|c: (Option<u64>, Option<u64>)| #[trigger] counted(c) <==> c.1 is None {
        lemma_count_same(copies, counted, |c: (Option<u64>, Option<u64>)| c.1 is None);
    }
    if forall|c: (Option<u64>, Option<u64>)| #[trigger]
        counted(c) <==> c.0 is None && c.1 is None {
        lemma_count_same(
            copies,
            counted,
            |c: (Option<u64>, Option<u64>)| c.0 is None && c.1 is None,
        );
    }
    if forall|c: (Option<u64>, Option<u64>)| #[trigger]
        counted(c) <==> c.0 is Some && c.1 is Some {
        lemma_count_same(
            copies,
            counted,
            |c: (Option<u64>, Option<u64>)| c.0 is Some && c.1 is Some,
        );
    }
    if forall|c: (Option<u64>, Option<u64>)| #[trigger]
        counted(c) <==> c.0 is Some && (c.1 is Some ==> c.0->0 <= c.1->0) {
        lemma_count_same(copies, counted, |c: (Option<u64>, Option<u64>)| a_wins(c));
    }
    if forall|c: (Option<u64>, Option<u64>)| #[trigger]
        counted(c) <==> c.1 is Some && (c.0 is Some ==> c.1->0 < c.0->0) {
        lemma_count_same(copies, counted, |c: (Option<u64>, Option<u64>)| b_wins(c));
    }
}

/// Law: an arrival's lateness is how far its number lies behind the highest number
/// before it, zero if none is higher.
pub proof fn law_lateness_is_behind_the_highest(schedule: Seq<(u64, u64)>, i: int)
    requires
        0 <= i < schedule.len(),
    ensures
        all_lateness(schedule).len() == schedule.len(),
        forall|j: int|
            0 <= j < i ==> (#[trigger] schedule[j]).1 - schedule[i].1 <= all_lateness(schedule)[i],
        all_lateness(schedule)[i] > 0 ==> exists|j: int|
            0 <= j < i && (#[trigger] schedule[j]).1 - schedule[i].1 == all_lateness(schedule)[i],
{
    let before = schedule.take(i);
    lemma_newest(before);
    assert forall|j: int| 0 <= j < i implies (#[trigger] schedule[j]).1 - schedule[i].1
        <= all_lateness(schedule)[i] by {
        assert(before[j] == schedule[j]);
    }
    if all_lateness(schedule)[i] > 0 {
        let m = newest(before)->0;
        let j = choose|j: int| 0 <= j < before.len() && (#[trigger] before[j]).1 == m;
        assert(schedule[j].1 == m);
    }
}

/// Law: an arrival skips the numbers between the highest number before it and its
/// own, none if a higher one came before; the first arrival skips every number
/// below its own.
pub proof fn law_gap_is_what_lies_between(schedule: Seq<(u64, u64)>, i: int)
    requires
        0 <= i < schedule.len(),
    ensures
        all_skipped(schedule).len() == schedule.len(),
        i == 0 ==> all_skipped(schedule)[i] == schedule[i].1,
        i > 0 && (forall|j: int| 0 <= j < i ==> (#[trigger] schedule[j]).1 < schedule[i].1) ==> {
            &&& forall|j: int|
                0 <= j < i ==> (#[trigger] schedule[j]).1 + 1 + all_skipped(schedule)[i]
                    <= schedule[i].1
            &&& exists|j: int|
                0 <= j < i && (#[trigger] schedule[j]).1 + 1 + all_skipped(schedule)[i]
                    == schedule[i].1
        },
        (exists|j: int| 0 <= j < i && (#[trigger] schedule[j]).1 >= schedule[i].1) ==> all_skipped(
            schedule,
        )[i] == 0,
{
    let before = schedule.take(i);
    lemma_newest(before);
    assert forall|j: int| 0 <= j < i implies before[j] == schedule[j] by {}
    if i > 0 {
        let m = newest(before)->0;
        let j = choose|j: int| 0 <= j < before.len() && (#[trigger] before[j]).1 == m;
        assert(schedule[j].1 == m);
        if exists|j: int| 0 <= j < i && (#[trigger] schedule[j]).1 >= schedule[i].1 {
            let k = choose|j: int| 0 <= j < i && (#[trigger] schedule[j]).1 >= schedule[i].1;
            assert(before[k] == schedule[k]);
        }
        if forall|j: int| 0 <= j < i ==> (#[trigger] schedule[j]).1 < schedule[i].1 {
            assert forall|k: int| 0 <= k < i implies (#[trigger] schedule[k]).1 + 1 + all_skipped(
                schedule,
            )[i] <= schedule[i].1 by {
                assert(before[k] == schedule[k]);
            }
        }
    }
}

/// How many numbers are positive, and which is the largest.
proof fn lemma_positive_and_largest(s: Seq<u64>, positive: spec_fn(u64) -> bool)
    requires
        forall|x: u64| #[trigger] positive(x) <==> x > 0,
    ensures
        count_positive(s) == s.filter(positive).len(),
        s.filter(positive).len() <= s.len(),
        forall|i: int| 0 <= i < s.len() ==> #[trigger] s[i] <= largest(s),
        s.len() > 0 ==> s.contains(largest(s)),
    decreases s.len(),
{
    reveal(Seq::filter);
    if s.len() > 0 {
        let rest = s.drop_last();
        lemma_positive_and_largest(rest, positive);
        assert(positive(s.last()) <==> s.last() > 0);
        assert forall|i: int| 0 <= i < s.len() implies #[trigger] s[i] <= largest(s) by {
            if i < rest.len() {
                assert(rest[i] == s[i]);
            }
        }
        assert(s[s.len() - 1] == s.last());
        if rest.len() > 0 {
            let k = choose|k: int| 0 <= k < rest.len() && rest[k] == largest(rest);
            assert(s[k] == largest(rest));
        }
    }
}

/// Law: the displacement counters. As many packets are reordered as have a lateness
/// above zero, as many arrivals are gaps as skip anything; the worst lateness and
/// the largest gap occur, and nothing exceeds them.
pub proof fn law_displacement_counts(schedule: Seq<(u64, u64)>, positive: spec_fn(u64) -> bool)
    requires
        1 <= schedule.len() <= u64::MAX,
        forall|x: u64| #[trigger] positive(x) <==> x > 0,
    ensures
        ({
            let d = displacement(schedule);
            let late = all_lateness(schedule);
            let skips = all_skipped(schedule);
            &&& d.reordered == late.filter(positive).len()
            &&& d.gaps == skips.filter(positive).len()
            &&& forall|i: int| 0 <= i < schedule.len() ==> #[trigger] skips[i] <= d.max_gap
            &&& skips.contains(d.max_gap)
            &&& late.contains(d.max_lateness)
            &&& late.contains(d.p50) && late.contains(d.p99) && late.contains(d.p99_9)
        }),
{
    let late = all_lateness(schedule);
    let n = schedule.len() as int;
    lemma_positive_and_largest(late, positive);
    lemma_positive_and_largest(all_skipped(schedule), positive);
    lemma_nearest_rank(n, 1, 2);
    lemma_nearest_rank(n, 99, 100);
    lemma_nearest_rank(n, 999, 1000);
    lemma_sorted_numbers_keep(late, n - 1);
    lemma_sorted_numbers_keep(late, nearest_rank(n, 1, 2));
    lemma_sorted_numbers_keep(late, nearest_rank(n, 99, 100));
    lemma_sorted_numbers_keep(late, nearest_rank(n, 999, 1000));
}

/// Numbers from a position on that are above a bound are not counted.
proof fn lemma_count_before(s: Seq<u64>, bound: u64, k: int)
    requires
        0 <= k <= s.len(),
        forall|i: int| k <= i < s.len() ==> #[trigger] s[i] > bound,
    ensures
        count_at_most(s, bound) <= k,
    decreases s.len(),
{
    if s.len() > k {
        let rest = s.drop_last();
        assert forall|i: int| k <= i < rest.len() implies #[trigger] rest[i] > bound by {
            assert(rest[i] == s[i]);
        }
        lemma_count_before(rest, bound, k);
        assert(s[s.len() - 1] > bound);
    } else {
        lemma_count_bounded(s, bound);
    }
}

/// Below the number at the nearest rank lies less than its share.
proof fn lemma_rank_is_least(s: Seq<u64>, num: int, den: int, bound: u64)
    requires
        s.len() >= 1,
        1 <= num <= den,
        bound < s.sort_by(number_order())[nearest_rank(s.len() as int, num, den)],
    ensures
        den * count_at_most(s, bound) < num * s.len(),
{
    let n = s.len() as int;
    let sorted = s.sort_by(number_order());
    let rank = nearest_rank(n, num, den);
    lemma_nearest_rank(n, num, den);
    s.lemma_sort_by_ensures(number_order());
    lemma_sorted_numbers(s, sorted);
    assert forall|i: int| rank <= i < sorted.len() implies #[trigger] sorted[i] > bound by {
        if rank < i {
            assert(number_order()(sorted[rank], sorted[i]));
        }
    }
    lemma_count_before(sorted, bound, rank);
    lemma_count_of_multiset(s, bound);
    lemma_count_of_multiset(sorted, bound);
    let scaled = n * num + den - 1;
    vstd::arithmetic::div_mod::lemma_fundamental_div_mod(scaled, den);
    let q = scaled / den;
    let below = count_at_most(s, bound) as int;
    assert(den * below < num * n) by (nonlinear_arith)
        requires
            below <= rank,
            rank == q - 1,
            scaled == n * num + den - 1,
            scaled == den * q + scaled % den,
            0 <= scaled % den < den,
    ;
}

/// Law: the percentiles are the least such numbers. Fewer than half of all
/// delivered packets had a lateness at or below any number under the `p50` one, and
/// likewise for 99% and 99.9%.
pub proof fn law_percentiles_are_least(schedule: Seq<(u64, u64)>, bound: u64)
    requires
        schedule.len() >= 1,
    ensures
        bound < displacement(schedule).p50 ==> 2 * count_at_most(all_lateness(schedule), bound)
            < schedule.len(),
        bound < displacement(schedule).p99 ==> 100 * count_at_most(all_lateness(schedule), bound)
            < 99 * schedule.len(),
        bound < displacement(schedule).p99_9 ==> 1000 * count_at_most(
            all_lateness(schedule),
            bound,
        ) < 999 * schedule.len(),
{
    let late = all_lateness(schedule);
    if bound < displacement(schedule).p50 {
        lemma_rank_is_least(late, 1, 2, bound);
    }
    if bound < displacement(schedule).p99 {
        lemma_rank_is_least(late, 99, 100, bound);
    }
    if bound < displacement(schedule).p99_9 {
        lemma_rank_is_least(late, 999, 1000, bound);
    }
}

/// Law: what is counted as at most a bound are the numbers that are.
pub proof fn law_at_most_counts_numbers(s: Seq<u64>, bound: u64, low: spec_fn(u64) -> bool)
    requires
        forall|x: u64| #[trigger] low(x) <==> x <= bound,
    ensures
        count_at_most(s, bound) == s.filter(low).len(),
    decreases s.len(),
{
    reveal(Seq::filter);
    if s.len() > 0 {
        law_at_most_counts_numbers(s.drop_last(), bound, low);
        assert(low(s.last()) <==> s.last() <= bound);
    }
}

/// Law: the merge keeps the copy that comes first. A packet is among the arrivals
/// exactly if one of its copies survived, at the time of a copy of its own, and no
/// copy of it comes earlier. The displacement is measured on just these arrivals.
pub proof fn law_merge_keeps_the_earlier_copy(
    sends: Seq<u64>,
    cfg: NetworkConfig,
    i: u64,
    t: u64,
)
    requires
        sends.len() <= u64::MAX,
        i < sends.len(),
    ensures
        ({
            let copy = run(sends, cfg).copies[i as int];
            &&& arrivals(sends, cfg).contains((t, i)) <==> {
                &&& copy.0 == Some(t) || copy.1 == Some(t)
                &&& copy.0 is Some ==> t <= copy.0->0
                &&& copy.1 is Some ==> t <= copy.1->0
            }
        }),
        traffic(sends, cfg).displacement == displacement(arrivals(sends, cfg)),
{
    law_packet_lost_only_with_both_copies(sends, cfg, i, t);
}

/// Law: no arrivals, no displacement.
pub proof fn law_nothing_is_displaced_in_an_empty_run(schedule: Seq<(u64, u64)>)
    requires
        schedule.len() == 0,
    ensures
        ({
            let d = displacement(schedule);
            &&& d.reordered == 0 && d.max_lateness == 0 && d.gaps == 0 && d.max_gap == 0
            &&& d.p50 == 0 && d.p99 == 0 && d.p99_9 == 0
        }),
{
}

} // verus!

//! The TESLA one-way key chain.
//!
//! The sender picks a private random final key `K_N` and hashes backwards:
//! `K_i = F(K_{i+1})`. Only `K_0` is published, signed, in the commitment. Any
//! disclosed key verifies by hashing it down to a key that is already trusted,
//! nobody can run the chain forwards, and keys lost with their packets are
//! recovered while hashing down.
//!
//! Two functions do all the work, both built from HMAC-SHA256 and kept apart
//! by their one-byte message: `F`, the chain step, hashes 0x00 and is cut to
//! 20 bytes (RFC 4383, section 6); `F'`, the MAC-key derivation, hashes 0x01.

use rand::RngCore;
use vstd::prelude::*;

use crate::bytes::{array_at, same_bytes};
use crate::crypto::hmac_tag;

verus! {

/// Chain-key length in bytes.
pub const TESLA_KEY_LEN: usize = 20;

/// One element of the key chain.
pub type ChainKey = [u8; TESLA_KEY_LEN];

/// The chain step `F`: the first 20 bytes of HMAC-SHA256 of 0x00.
pub open spec fn chain_step(key: Seq<u8>) -> Seq<u8> {
    crate::bytes::first_bytes(
        crate::crypto::hmac_sha256(key, seq![0x00u8]),
        TESLA_KEY_LEN as nat,
    )
}

/// `steps` chain steps down from `key`.
pub open spec fn chain_down(key: Seq<u8>, steps: nat) -> Seq<u8>
    decreases steps,
{
    if steps == 0 {
        key
    } else {
        chain_step(chain_down(key, (steps - 1) as nat))
    }
}

/// The MAC-key derivation `F'`: the first `len` bytes of HMAC-SHA256 of 0x01.
pub open spec fn mac_key_of(key: Seq<u8>, len: nat) -> Seq<u8> {
    crate::bytes::first_bytes(crate::crypto::hmac_sha256(key, seq![0x01u8]), len)
}

/// These keys form a chain: each is one step down from the next.
pub open spec fn is_chain(keys: Seq<ChainKey>) -> bool {
    &&& keys.len() >= 1
    &&& forall|i: int|
        0 <= i < keys.len() - 1 ==> (#[trigger] keys[i])@ == chain_step(keys[i + 1]@)
}

/// The keys that a verified disclosure makes known: those after the trusted
/// index up to the disclosed one, with their indexes, in ascending order.
pub open spec fn recovered_keys(candidate: Seq<u8>, trusted: u32, index: u32) -> Seq<
    (u32, Seq<u8>),
> {
    Seq::new(
        (index - trusted) as nat,
        |i: int|
            ((trusted + 1 + i) as u32, chain_down(candidate, (index - trusted - 1 - i) as nat)),
    )
}

/// Stepping down `a` times and then `b` times is stepping down `a + b` times.
pub proof fn lemma_chain_down_adds(key: Seq<u8>, a: nat, b: nat)
    ensures
        chain_down(chain_down(key, a), b) == chain_down(key, a + b),
    decreases b,
{
    if b > 0 {
        lemma_chain_down_adds(key, a, (b - 1) as nat);
        assert((a + b - 1) as nat == a + (b - 1) as nat);
    }
}

/// Law: any key of a chain hashes down to every earlier one.
pub proof fn law_chain_keys_lead_down(keys: Seq<ChainKey>, low: int, high: int)
    requires
        is_chain(keys),
        0 <= low <= high < keys.len(),
    ensures
        chain_down(keys[high]@, (high - low) as nat) == keys[low]@,
    decreases high - low,
{
    if low < high {
        law_chain_keys_lead_down(keys, low + 1, high);
        assert(((high - low) as nat - 1) as nat == (high - (low + 1)) as nat);
        assert(keys[low]@ == chain_step(keys[low + 1]@));
    }
}

/// The chain step `F`: from `K_{i+1}` to `K_i`.
pub fn f_step(key: &ChainKey) -> (r: ChainKey)
    ensures
        r@ == chain_step(key@),
        forall|i: int|
            0 <= i < 20 ==> #[trigger] r@[i] == crate::crypto::hmac_sha256(key@, seq![0x00u8])[i],
{
    let message: [u8; 1] = [0x00];
    let rest: [u8; 0] = [];
    let out = hmac_tag(key.as_slice(), message.as_slice(), rest.as_slice());
    assert(message@ + rest@ =~= seq![0x00u8]);
    array_at(out.as_slice(), 0)
}

/// The MAC-key derivation `F'`, cut to `n_f` bytes: as many as the MAC in use
/// takes.
pub fn mac_key(key: &ChainKey, n_f: usize) -> (r: Vec<u8>)
    requires
        n_f <= 32,
    ensures
        r@ == mac_key_of(key@, n_f as nat),
        r@.len() == n_f,
{
    let message: [u8; 1] = [0x01];
    let rest: [u8; 0] = [];
    let out = hmac_tag(key.as_slice(), message.as_slice(), rest.as_slice());
    assert(message@ + rest@ =~= seq![0x01u8]);
    let r = vstd::slice::slice_to_vec(vstd::slice::slice_subrange(out.as_slice(), 0, n_f));
    assert(r@ =~= mac_key_of(key@, n_f as nat));
    r
}

/// The sender's chain: `K_i` for `i` in `0..=n_chain`, with `K_0` the public
/// anchor.
pub struct TeslaChain {
    keys: Vec<ChainKey>,
}

impl View for TeslaChain {
    type V = Seq<ChainKey>;

    closed spec fn view(&self) -> Seq<ChainKey> {
        self.keys@
    }
}

/// 20 random bytes from `rand::rng`, the thread's generator seeded by the
/// operating system. Nothing is claimed of them.
#[verifier::external_body]
fn random_chain_key() -> ChainKey {
    let mut k = [0u8; TESLA_KEY_LEN];
    rand::rng().fill_bytes(&mut k);
    k
}

impl TeslaChain {
    /// Builds the chain backwards from the final key `K_n_chain`.
    pub fn from_final_key(k_final: ChainKey, n_chain: u32) -> (r: Self)
        requires
            n_chain < usize::MAX,
        ensures
            r@.len() == n_chain + 1,
            is_chain(r@),
            r@[n_chain as int] == k_final,
            forall|i: int|
                0 <= i <= n_chain ==> (#[trigger] r@[i])@ == chain_down(
                    k_final@,
                    (n_chain - i) as nat,
                ),
    {
        let n: usize = n_chain as usize;
        let mut keys: Vec<ChainKey> = Vec::new();
        let mut filled: usize = 0;
        while filled < n
            invariant
                filled <= n,
                keys@.len() == filled,
            decreases n - filled,
        {
            keys.push([0u8; TESLA_KEY_LEN]);
            filled += 1;
        }
        keys.push(k_final);
        let mut i: usize = n;
        while i > 0
            invariant
                i <= n,
                n == n_chain,
                keys@.len() == n + 1,
                keys@[n as int] == k_final,
                forall|j: int|
                    i <= j <= n ==> (#[trigger] keys@[j])@ == chain_down(
                        k_final@,
                        (n - j) as nat,
                    ),
            decreases i,
        {
            i -= 1;
            let k = f_step(&keys[i + 1]);
            keys.set(i, k);
        }
        TeslaChain { keys }
    }

    /// Builds a chain from a fresh random final key.
    pub fn generate(n_chain: u32) -> (r: Self)
        requires
            n_chain < usize::MAX,
        ensures
            r@.len() == n_chain + 1,
            is_chain(r@),
    {
        Self::from_final_key(random_chain_key(), n_chain)
    }

    /// `K_i`.
    pub fn key(&self, i: u32) -> (r: &ChainKey)
        requires
            i < self@.len(),
        ensures
            *r == self@[i as int],
    {
        &self.keys[i as usize]
    }

    /// The public anchor `K_0`, which the signed commitment carries.
    pub fn anchor(&self) -> (r: &ChainKey)
        requires
            self@.len() >= 1,
        ensures
            *r == self@[0],
    {
        &self.keys[0]
    }
}

/// What a disclosed-key candidate turned out to be.
#[derive(Debug, Clone, PartialEq, Eq)]
pub enum Disclosure {
    /// The candidate hash-verified against the trusted key. Carries the newly
    /// trusted `(index, key)` pairs in ascending order: the last is the
    /// candidate itself, the earlier ones are keys whose own disclosures were
    /// never received.
    New(Vec<(u32, ChainKey)>),
    /// The candidate's index is not newer than the trusted index.
    NotNew,
    /// The candidate does not hash down to the trusted key.
    Invalid,
    /// The claimed index is more than `g_max` beyond the trusted index: the
    /// cap refuses the hash work.
    TooFarAhead,
    /// The claimed index lies beyond the committed chain.
    BeyondChain,
}

/// The indexes and keys of a list of disclosed keys.
pub open spec fn key_list(keys: Seq<(u32, ChainKey)>) -> Seq<(u32, Seq<u8>)> {
    keys.map_values(|e: (u32, ChainKey)| (e.0, e.1@))
}

/// What a [`ChainVerifier`] knows.
#[verifier::ext_equal]
pub struct Trust {
    /// Highest chain index that exists.
    pub n_chain: u32,
    /// Most hash steps that one check may spend.
    pub g_max: u32,
    /// Index of the newest proven-genuine key, and that key.
    pub index: u32,
    pub key: Seq<u8>,
}

impl Trust {
    /// Whether a claimed index is worth hashing for: new, on the chain, and
    /// within the cap.
    pub open spec fn considers(self, index: u32) -> bool {
        self.index < index <= self.n_chain && index - self.index <= self.g_max
    }

    /// Whether a candidate proves genuine: it is worth hashing for and hashes
    /// down to the trusted key.
    pub open spec fn proves(self, candidate: Seq<u8>, index: u32) -> bool {
        self.considers(index) && chain_down(candidate, (index - self.index) as nat) == self.key
    }

    /// The trust after a candidate was checked: it advances to a genuine one.
    pub open spec fn after(self, candidate: Seq<u8>, index: u32) -> Trust {
        if self.proves(candidate, index) {
            Trust { index, key: candidate, ..self }
        } else {
            self
        }
    }

    /// Whether a disclosure is what a check of this candidate finds.
    pub open spec fn finds(self, candidate: Seq<u8>, index: u32, found: Disclosure) -> bool {
        match found {
            Disclosure::NotNew => index <= self.index,
            Disclosure::BeyondChain => index > self.index && index > self.n_chain,
            Disclosure::TooFarAhead => self.index < index <= self.n_chain && index - self.index
                > self.g_max,
            Disclosure::Invalid => self.considers(index) && !self.proves(candidate, index),
            Disclosure::New(keys) => self.proves(candidate, index) && key_list(keys@)
                == recovered_keys(candidate, self.index, index),
        }
    }
}

/// Law: trust stays rooted in the anchor. If the trusted key hashes down to
/// the anchor, so does whatever key is trusted after a check.
pub proof fn law_trust_is_rooted(trust: Trust, anchor: Seq<u8>, candidate: Seq<u8>, index: u32)
    requires
        chain_down(trust.key, trust.index as nat) == anchor,
    ensures
        chain_down(
            trust.after(candidate, index).key,
            trust.after(candidate, index).index as nat,
        ) == anchor,
{
    if trust.proves(candidate, index) {
        lemma_chain_down_adds(candidate, (index - trust.index) as nat, trust.index as nat);
    }
}

/// Law: the trusted index never falls, and never passes the end of the chain.
pub proof fn law_trust_only_advances(trust: Trust, candidate: Seq<u8>, index: u32)
    ensures
        trust.after(candidate, index).index >= trust.index,
        trust.index <= trust.n_chain ==> trust.after(candidate, index).index <= trust.n_chain,
{
}

/// Law: a genuine key is accepted, and brings every key that was missed. A
/// verifier that trusts `K_t` of the sender's chain proves any later `K_i`
/// within the cap, and the keys it recovers are the chain's own `K_{t+1}` to
/// `K_i`.
pub proof fn law_genuine_key_is_accepted(trust: Trust, keys: Seq<ChainKey>, index: u32)
    requires
        is_chain(keys),
        trust.n_chain < keys.len(),
        trust.considers(index),
        trust.key == keys[trust.index as int]@,
    ensures
        trust.proves(keys[index as int]@, index),
        trust.after(keys[index as int]@, index).key == keys[index as int]@,
        recovered_keys(keys[index as int]@, trust.index, index) == Seq::new(
            (index - trust.index) as nat,
            |i: int| ((trust.index + 1 + i) as u32, keys[trust.index + 1 + i]@),
        ),
{
    law_chain_keys_lead_down(keys, trust.index as int, index as int);
    let got = recovered_keys(keys[index as int]@, trust.index, index);
    let want = Seq::new(
        (index - trust.index) as nat,
        |i: int| ((trust.index + 1 + i) as u32, keys[trust.index + 1 + i]@),
    );
    assert forall|i: int| 0 <= i < got.len() implies got[i] == want[i] by {
        law_chain_keys_lead_down(keys, trust.index + 1 + i, index as int);
    }
    assert(got =~= want);
}

/// The receiver's side of the chain: the newest key it has proven genuine,
/// starting from the signed `K_0`. Each disclosed key is checked by hashing it
/// down to that key; if it matches, it becomes the new trusted key.
pub struct ChainVerifier {
    n_chain: u32,
    g_max: u32,
    trusted_index: u32,
    trusted_key: ChainKey,
}

impl View for ChainVerifier {
    type V = Trust;

    closed spec fn view(&self) -> Trust {
        Trust {
            n_chain: self.n_chain,
            g_max: self.g_max,
            index: self.trusted_index,
            key: self.trusted_key@,
        }
    }
}

impl ChainVerifier {
    /// Starts trusting the signed anchor `K_0`.
    pub fn new(anchor: ChainKey, n_chain: u32, g_max: u32) -> (r: Self)
        ensures
            r@ == (Trust { n_chain, g_max, index: 0, key: anchor@ }),
    {
        ChainVerifier { n_chain, g_max, trusted_index: 0, trusted_key: anchor }
    }

    /// Index of the newest trusted key.
    pub fn trusted_index(&self) -> (r: u32)
        ensures
            r == self@.index,
    {
        self.trusted_index
    }

    /// Checks a disclosed-key candidate claiming index `index`. On success the
    /// trust advances to the candidate; on any failure it is untouched.
    pub fn check(&mut self, candidate: &ChainKey, index: u32) -> (r: Disclosure)
        ensures
            old(self)@.finds(candidate@, index, r),
            final(self)@ == old(self)@.after(candidate@, index),
    {
        let found = self.examine(candidate, index);
        if let Disclosure::New(_) = &found {
            self.trusted_index = index;
            self.trusted_key = *candidate;
        }
        found
    }

    /// What a check of a candidate would find. The trust stays where it is.
    pub fn examine(&self, candidate: &ChainKey, index: u32) -> (r: Disclosure)
        ensures
            self@.finds(candidate@, index, r),
    {
        if index <= self.trusted_index {
            return Disclosure::NotNew;
        }
        if index > self.n_chain {
            return Disclosure::BeyondChain;
        }
        let gap: u32 = index - self.trusted_index;
        if gap > self.g_max {
            return Disclosure::TooFarAhead;
        }
        // hashing the candidate down, collecting the keys on the way: after
        // `s` steps the value is the candidate for `K_{index - s}`
        let mut found: Vec<(u32, ChainKey)> = Vec::new();
        let mut k: ChainKey = *candidate;
        let mut s: u32 = 0;
        while s < gap
            invariant
                s <= gap,
                gap == index - self.trusted_index,
                self.trusted_index < index,
                k@ == chain_down(candidate@, s as nat),
                found@.len() == s,
                forall|i: int|
                    0 <= i < s ==> (#[trigger] found@[i]).0 == index - i && found@[i].1@
                        == chain_down(candidate@, i as nat),
            decreases gap - s,
        {
            found.push((index - s, k));
            k = f_step(&k);
            s += 1;
        }
        if !same_bytes(k.as_slice(), self.trusted_key.as_slice()) {
            return Disclosure::Invalid;
        }
        // ascending order
        let mut recovered: Vec<(u32, ChainKey)> = Vec::new();
        let mut left: usize = found.len();
        while left > 0
            invariant
                left <= found@.len(),
                found@.len() == gap,
                gap == index - self.trusted_index,
                recovered@.len() == gap - left,
                forall|i: int|
                    0 <= i < gap ==> (#[trigger] found@[i]).0 == index - i && found@[i].1@
                        == chain_down(candidate@, i as nat),
                forall|i: int|
                    0 <= i < recovered@.len() ==> (#[trigger] recovered@[i]) == found@[gap - 1 - i],
            decreases left,
        {
            left -= 1;
            recovered.push(found[left]);
        }
        assert(key_list(recovered@) =~= recovered_keys(candidate@, self.trusted_index, index)) by {
            assert forall|i: int| 0 <= i < gap implies key_list(recovered@)[i]
                == recovered_keys(candidate@, self.trusted_index, index)[i] by {
                assert(recovered@[i] == found@[gap - 1 - i]);
                assert(found@[gap - 1 - i].0 == self.trusted_index + 1 + i);
            }
        }
        Disclosure::New(recovered)
    }
}

/// Law: a chain step is the first 20 bytes of HMAC-SHA256 of 0x00 under the key,
/// and stepping down goes on from there, one step at a time.
pub proof fn law_chain_step_is_hmac(key: Seq<u8>, steps: nat)
    ensures
        chain_down(key, 0) == key,
        chain_down(key, steps + 1) == Seq::new(
            20,
            |i: int| crate::crypto::hmac_sha256(chain_down(key, steps), seq![0x00u8])[i],
        ),
{
    assert(chain_down(key, steps + 1) == chain_step(chain_down(key, steps)));
    assert(chain_down(key, steps + 1) =~= Seq::new(
        20,
        |i: int| crate::crypto::hmac_sha256(chain_down(key, steps), seq![0x00u8])[i],
    ));
}

/// Law: each answer to a candidate has its cause, and each cause its answer. What
/// is not newer than the trusted key is no news; what lies beyond the chain or
/// further than the cap is refused unhashed; of the rest, exactly what hashes down
/// to the trusted key is new, and only that moves the trust.
pub proof fn law_disclosures_have_their_cause(
    trust: Trust,
    candidate: Seq<u8>,
    index: u32,
    found: Disclosure,
)
    requires
        trust.finds(candidate, index, found),
    ensures
        found is NotNew <==> index <= trust.index,
        found is BeyondChain <==> trust.index < index && trust.n_chain < index,
        found is TooFarAhead <==> trust.index < index <= trust.n_chain && index - trust.index
            > trust.g_max,
        found is Invalid <==> trust.index < index <= trust.n_chain && index - trust.index
            <= trust.g_max && chain_down(candidate, (index - trust.index) as nat) != trust.key,
        found is New <==> trust.index < index <= trust.n_chain && index - trust.index
            <= trust.g_max && chain_down(candidate, (index - trust.index) as nat) == trust.key,
        found is New ==> trust.after(candidate, index) == (Trust {
            index,
            key: candidate,
            ..trust
        }),
        !(found is New) ==> trust.after(candidate, index) == trust,
        found matches Disclosure::New(keys) ==> {
            &&& keys@.len() == index - trust.index
            &&& forall|i: int|
                0 <= i < keys@.len() ==> (#[trigger] keys@[i]).0 == trust.index + 1 + i
                    && keys@[i].1@ == chain_down(candidate, (index - trust.index - 1 - i) as nat)
        },
{
    if let Disclosure::New(keys) = found {
        let got = recovered_keys(candidate, trust.index, index);
        assert(key_list(keys@).len() == keys@.len());
        assert forall|i: int| 0 <= i < keys@.len() implies (#[trigger] keys@[i]).0 == trust.index
            + 1 + i && keys@[i].1@ == chain_down(candidate, (index - trust.index - 1 - i) as nat) by {
            assert(key_list(keys@)[i] == got[i]);
        }
    }
}

/// Law: a claimed key within reach is always tried, and proves genuine exactly if
/// it hashes down to the trusted one. Within reach is every index that is newer
/// than the trusted one, on the chain, and at most `g_max` steps away.
pub proof fn law_key_within_reach_is_tried(trust: Trust, candidate: Seq<u8>, index: u32)
    ensures
        trust.considers(index) <==> trust.index < index && index <= trust.n_chain && index
            <= trust.index + trust.g_max,
        trust.proves(candidate, index) <==> trust.index < index && index <= trust.n_chain && index
            <= trust.index + trust.g_max && chain_down(candidate, (index - trust.index) as nat)
            == trust.key,
        trust.proves(candidate, index) ==> trust.after(candidate, index).index == index
            && trust.after(candidate, index).key == candidate,
        !trust.proves(candidate, index) ==> trust.after(candidate, index) == trust,
        trust.after(candidate, index).n_chain == trust.n_chain,
        trust.after(candidate, index).g_max == trust.g_max,
        chain_down(candidate, 0) == candidate,
{
}

/// Law: a disclosed key brings every key between the trusted one and itself, each
/// under its own index and each one step down from the next.
pub proof fn law_disclosure_brings_every_key_between(
    candidate: Seq<u8>,
    trusted: u32,
    index: u32,
    i: int,
)
    requires
        trusted < index,
        0 <= i < index - trusted,
    ensures
        ({
            let keys = recovered_keys(candidate, trusted, index);
            &&& keys.len() == index - trusted
            &&& keys[i].0 == trusted + 1 + i
            &&& i == index - trusted - 1 ==> keys[i].1 == candidate
            &&& i < index - trusted - 1 ==> keys[i].1 == chain_step(keys[i + 1].1)
        }),
{
}

} // verus!

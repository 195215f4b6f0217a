//! Deterministic, replayable pseudorandom draws keyed by (seed, key, counter).
//!
//! The seed ladder uses a documented, platform-independent hash:
//!
//! * `mix` is the splitmix64 finalizer: `z ^= z >> 30; z *= 0xbf58476d1ce4e5b9;
//!   z ^= z >> 27; z *= 0x94d049bb133111eb; z ^= z >> 31` (wrapping).
//! * `absorb(h, w) = mix(h ^ w)` takes in one 64-bit word.
//! * bytes are taken in with 64-bit FNV-1a: `h = (h ^ b) * 0x100000001b3`,
//!   starting from `0xcbf29ce484222325`.
//! * a numeric seed `n` hashes to `absorb(absorb(OFFSET, 0), n)`; a string
//!   seed with UTF-8 bytes `b` to `absorb(fnv(absorb(OFFSET, 1), b), len(b))`.
//! * the seed of key `k` (UTF-8 bytes `b`) at counter `c` is
//!   `absorb(fnv(absorb(absorb(OFFSET, base), len(b)), b), c)`.
//!
//! Draws come from ChaCha8 (`rand_chacha`), seeded from a 64-bit seed. The
//! `k`-th draw of a shuffle comes from a stream seeded with `absorb(seed, k)`.
use vstd::prelude::*;
use vstd::string::*;
use vstd::utf8::encode_utf8;

use crate::text::{lemma_text_lt_irreflexive, lemma_text_lt_total, lemma_text_lt_trans, text_less, text_lt};

use ahash::AHashMap;
use rand::Rng;
use rand::RngCore;
use rand::SeedableRng;

verus! {

pub const FNV_OFFSET: u64 = 0xcbf2_9ce4_8422_2325;

pub const FNV_PRIME: u64 = 0x0000_0100_0000_01b3;

/// A seed: a number, or a string such as "TUTORIAL".
#[derive(Debug, Clone, PartialEq)]
pub enum SeedType {
    Numeric(u64),
    String(String),
}

pub open spec fn wmul(a: u64, b: u64) -> u64 {
    vstd::wrapping::u64_specs::wrapping_mul(a, b)
}

/// The splitmix64 finalizer.
pub open spec fn mixed(z: u64) -> u64 {
    let z1 = z ^ (z >> 30u64);
    let z2 = wmul(z1, 0xbf58_476d_1ce4_e5b9);
    let z3 = z2 ^ (z2 >> 27u64);
    let z4 = wmul(z3, 0x94d0_49bb_1331_11eb);
    z4 ^ (z4 >> 31u64)
}

pub open spec fn absorbed(h: u64, w: u64) -> u64 {
    mixed(h ^ w)
}

/// 64-bit FNV-1a over `bytes`, from the state `h`.
pub open spec fn fnv(h: u64, bytes: Seq<u8>) -> u64
    decreases bytes.len(),
{
    if bytes.len() == 0 {
        h
    } else {
        fnv(wmul(h ^ (bytes[0] as u64), FNV_PRIME), bytes.drop_first())
    }
}

/// The hash of a string seed.
pub open spec fn text_hash(s: Seq<char>) -> u64 {
    let b = encode_utf8(s);
    absorbed(fnv(absorbed(FNV_OFFSET, 1), b), b.len() as u64)
}

/// The base seed derived from a global seed.
pub open spec fn seed_hash(s: SeedType) -> u64 {
    match s {
        SeedType::Numeric(n) => absorbed(absorbed(FNV_OFFSET, 0), n),
        SeedType::String(t) => text_hash(t@),
    }
}

/// The seed drawn for `key` when its counter stands at `counter`.
pub open spec fn key_hash(base: u64, key: Seq<char>, counter: u64) -> u64 {
    let b = encode_utf8(key);
    absorbed(fnv(absorbed(absorbed(FNV_OFFSET, base), b.len() as u64), b), counter)
}

/// The counter of `key`: 0 when it was never drawn.
pub open spec fn counter_of(m: Map<Seq<char>, u64>, key: Seq<char>) -> u64 {
    if m.contains_key(key) {
        m[key]
    } else {
        0
    }
}

fn mix(z: u64) -> (r: u64)
    ensures
        r == mixed(z),
{
    let z1 = z ^ (z >> 30u64);
    let z2 = z1.wrapping_mul(0xbf58_476d_1ce4_e5b9);
    let z3 = z2 ^ (z2 >> 27u64);
    let z4 = z3.wrapping_mul(0x94d0_49bb_1331_11eb);
    z4 ^ (z4 >> 31u64)
}

fn absorb(h: u64, w: u64) -> (r: u64)
    ensures
        r == absorbed(h, w),
{
    mix(h ^ w)
}

fn fnv_bytes(h: u64, bytes: &[u8]) -> (r: u64)
    ensures
        r == fnv(h, bytes@),
{
    let mut acc = h;
    let mut i: usize = 0;
    assert(bytes@.skip(0) =~= bytes@);
    while i < bytes.len()
        invariant
            i <= bytes@.len(),
            fnv(h, bytes@) == fnv(acc, bytes@.skip(i as int)),
        decreases bytes@.len() - i,
    {
        let ghost rest = bytes@.skip(i as int);
        assert(rest[0] == bytes@[i as int]);
        assert(rest.drop_first() =~= bytes@.skip(i + 1));
        acc = (acc ^ bytes[i] as u64).wrapping_mul(FNV_PRIME);
        i = i + 1;
    }
    assert(bytes@.skip(i as int) =~= Seq::<u8>::empty());
    acc
}

/// The hash of a string seed.
fn hash_text(s: &str) -> (r: u64)
    ensures
        r == text_hash(s@),
{
    let b = s.as_bytes();
    let h = fnv_bytes(absorb(FNV_OFFSET, 1), b);
    absorb(h, b.len() as u64)
}

/// The seed for `key` at `counter`, under the base seed `base`.
fn hash_key(base: u64, key: &str, counter: u64) -> (r: u64)
    ensures
        r == key_hash(base, key@, counter),
{
    let b = key.as_bytes();
    let h = fnv_bytes(absorb(absorb(FNV_OFFSET, base), b.len() as u64), b);
    absorb(h, counter)
}

/// ahash::AHashMap, held opaque; `counters_in` names what it holds.
#[verifier::external_type_specification]
#[verifier::external_body]
#[verifier::reject_recursive_types(K)]
#[verifier::reject_recursive_types(V)]
#[verifier::reject_recursive_types(S)]
pub struct ExAHashMap<K, V, S>(AHashMap<K, V, S>);

/// ahash::RandomState, the hasher state of an AHashMap, held opaque.
#[verifier::external_type_specification]
#[verifier::external_body]
pub struct ExRandomState(ahash::RandomState);

/// Relies on the derived `Clone` of ahash::AHashMap, so that states can be
/// copied; nothing is assumed of the copy.
pub assume_specification<K, V, S>[ <ahash::AHashMap<K, V, S> as std::clone::Clone>::clone ](
    m: &ahash::AHashMap<K, V, S>,
) -> ahash::AHashMap<K, V, S>
    where
        K: std::clone::Clone,
        V: std::clone::Clone,
        S: std::clone::Clone,
;

/// Per-key draw counters.
pub type KeyCounters = AHashMap<String, u64>;

/// The key counters held in a map.
pub uninterp spec fn counters_in(m: KeyCounters) -> Map<Seq<char>, u64>;

/// Relies on ahash::AHashMap::new: a map with no entries.
#[verifier::external_body]
fn counters_new() -> (r: KeyCounters)
    ensures
        counters_in(r).dom().len() == 0,
        counters_in(r).dom().finite(),
{
    ahash::AHashMap::new()
}

/// Relies on AHashMap::get (through `Deref` to `HashMap`): the value stored
/// under `key`, if any.
#[verifier::external_body]
fn counters_get(m: &KeyCounters, key: &str) -> (r: Option<u64>)
    ensures
        r == if counters_in(*m).contains_key(key@) {
            Some(counters_in(*m)[key@])
        } else {
            None
        },
{
    m.get(key).copied()
}

/// Relies on AHashMap::insert: afterwards `key` maps to `value`, the other
/// keys as before.
#[verifier::external_body]
fn counters_set(m: &mut KeyCounters, key: String, value: u64)
    ensures
        counters_in(*final(m)) == counters_in(*old(m)).insert(key@, value),
{
    m.insert(key, value);
}

/// Relies on AHashMap::iter (through `Deref` to `HashMap`): each entry once,
/// in an unspecified order.
#[verifier::external_body]
fn counters_entries(m: &KeyCounters) -> (r: Vec<(String, u64)>)
    ensures
        forall|i: int, j: int| 0 <= i < j < r@.len() ==> r@[i].0@ != r@[j].0@,
        forall|i: int|
            0 <= i < r@.len() ==> counters_in(*m).contains_key(#[trigger] r@[i].0@)
                && counters_in(*m)[r@[i].0@] == r@[i].1,
        forall|k: Seq<char>|
            counters_in(*m).contains_key(k) ==> exists|i: int| 0 <= i < r@.len() && r@[i].0@ == k,
{
    m.iter().map(|(k, v)| (k.clone(), *v)).collect()
}

fn copy_seed(s: &SeedType) -> (r: SeedType)
    ensures
        r == *s,
{
    match s {
        SeedType::Numeric(n) => SeedType::Numeric(*n),
        SeedType::String(t) => SeedType::String(t.clone()),
    }
}

/// A serializable record of an RNG's position: its global seed, base seed and
/// key counters.
#[derive(Debug, Clone)]
pub struct RngSnapshot {
    pub global_seed: SeedType,
    pub base_seed: u64,
    /// Key counters, each key once.
    pub counters: Vec<(String, u64)>,
}

/// The map of counters a snapshot lists.
pub open spec fn listed(c: Seq<(String, u64)>) -> Map<Seq<char>, u64>
    decreases c.len(),
{
    if c.len() == 0 {
        Map::empty()
    } else {
        listed(c.drop_last()).insert(c.last().0@, c.last().1)
    }
}

/// The per-key counters and the seeds they come from.
#[derive(Debug, Clone)]
pub struct PseudorandomState {
    base_seed: u64,
    key_seeds: AHashMap<String, u64>,
    global_seed: SeedType,
}

impl PseudorandomState {
    pub closed spec fn base(&self) -> u64 {
        self.base_seed
    }

    pub closed spec fn counters(&self) -> Map<Seq<char>, u64> {
        counters_in(self.key_seeds)
    }

    pub closed spec fn global(&self) -> SeedType {
        self.global_seed
    }

    /// A state with no key drawn yet.
    pub fn new(seed: SeedType) -> (r: Self)
        ensures
            r.base() == seed_hash(seed),
            r.counters() == Map::<Seq<char>, u64>::empty(),
            r.global() == seed,
    {
        let base_seed = match &seed {
            SeedType::Numeric(n) => absorb(absorb(FNV_OFFSET, 0), *n),
            SeedType::String(t) => hash_text(t.as_str()),
        };
        PseudorandomState { base_seed, key_seeds: counters_new(), global_seed: seed }
    }

    /// The seed for `key` at its current counter; the counter then advances.
    pub fn pseudoseed(&mut self, key: &str) -> (r: u64)
        ensures
            r == key_hash(old(self).base(), key@, counter_of(old(self).counters(), key@)),
            final(self).counters() == old(self).counters().insert(
                key@,
                vstd::wrapping::u64_specs::wrapping_add(counter_of(old(self).counters(), key@), 1),
            ),
            final(self).base() == old(self).base(),
            final(self).global() == old(self).global(),
    {
        let current = self.get_key_seed(key);
        let combined = hash_key(self.base_seed, key, current);
        counters_set(&mut self.key_seeds, String::from_str(key), current.wrapping_add(1));
        combined
    }

    /// The counter of `key`, without advancing it.
    pub fn get_key_seed(&self, key: &str) -> (r: u64)
        ensures
            r == counter_of(self.counters(), key@),
    {
        match counters_get(&self.key_seeds, key) {
            Some(v) => v,
            None => 0,
        }
    }

    /// Sets the counter of `key`.
    pub fn set_key_seed(&mut self, key: &str, seed: u64)
        ensures
            final(self).counters() == old(self).counters().insert(key@, seed),
            final(self).base() == old(self).base(),
            final(self).global() == old(self).global(),
    {
        counters_set(&mut self.key_seeds, String::from_str(key), seed);
    }

    /// The hash of the global seed.
    pub fn base_seed(&self) -> (r: u64)
        ensures
            r == self.base(),
    {
        self.base_seed
    }

    /// The seed the state was made from.
    pub fn global_seed(&self) -> (r: &SeedType)
        ensures
            *r == self.global(),
    {
        &self.global_seed
    }

    /// The counters of the keys drawn so far.
    pub fn key_seeds(&self) -> (r: &AHashMap<String, u64>)
        ensures
            counters_in(*r) == self.counters(),
    {
        &self.key_seeds
    }

    /// A record of this state.
    pub fn snapshot(&self) -> (s: RngSnapshot)
        ensures
            s.global_seed == self.global(),
            s.base_seed == self.base(),
            listed(s.counters@) == self.counters(),
            forall|i: int, j: int| 0 <= i < j < s.counters@.len() ==> text_lt(s.counters@[i].0@, s.counters@[j].0@),
            forall|i: int, j: int| 0 <= i < j < s.counters@.len() ==> s.counters@[i].0@ != s.counters@[j].0@,
    {
        let entries = counters_entries(&self.key_seeds);
        let counters = sort_by_key(entries);
        proof {
            let c = counters@;
            assert forall|i: int, j: int| 0 <= i < j < c.len() implies c[i].0@ != c[j].0@ by {
                lemma_text_lt_irreflexive(c[i].0@);
            }
            assert forall|i: int| 0 <= i < c.len() implies self.counters().contains_key(#[trigger] c[i].0@)
                && self.counters()[c[i].0@] == c[i].1 by {
                assert(entries@.contains(c[i]));
                let q = choose|q: int| 0 <= q < entries@.len() && entries@[q] == c[i];
            }
            assert forall|k: Seq<char>| self.counters().contains_key(k) implies exists|i: int|
                0 <= i < c.len() && c[i].0@ == k by {
                let q = choose|q: int| 0 <= q < entries@.len() && entries@[q].0@ == k;
                assert(c.contains(entries@[q]));
                let i = choose|i: int| 0 <= i < c.len() && c[i] == entries@[q];
            }
            lemma_listed(c, self.counters());
        }
        RngSnapshot { global_seed: copy_seed(&self.global_seed), base_seed: self.base_seed, counters }
    }

    /// The state a record describes.
    pub fn restore(snapshot: &RngSnapshot) -> (r: Self)
        ensures
            r.global() == snapshot.global_seed,
            r.base() == snapshot.base_seed,
            r.counters() == listed(snapshot.counters@),
    {
        let mut key_seeds = counters_new();
        let mut i: usize = 0;
        while i < snapshot.counters.len()
            invariant
                i <= snapshot.counters@.len(),
                counters_in(key_seeds) == listed(snapshot.counters@.take(i as int)),
            decreases snapshot.counters@.len() - i,
        {
            let ghost t = snapshot.counters@.take(i + 1);
            assert(t.drop_last() =~= snapshot.counters@.take(i as int));
            counters_set(&mut key_seeds, snapshot.counters[i].0.clone(), snapshot.counters[i].1);
            i = i + 1;
        }
        assert(snapshot.counters@.take(i as int) =~= snapshot.counters@);
        PseudorandomState {
            base_seed: snapshot.base_seed,
            key_seeds,
            global_seed: copy_seed(&snapshot.global_seed),
        }
    }
}

proof fn lemma_insert_keeps_order(
    before: Seq<(String, u64)>,
    x: (String, u64),
    pos: int,
    after: Seq<(String, u64)>,
)
    requires
        0 <= pos <= before.len(),
        after == before.insert(pos, x),
        forall|i: int, j: int| 0 <= i < j < before.len() ==> text_lt(before[i].0@, before[j].0@),
        forall|q: int| 0 <= q < pos ==> text_lt(before[q].0@, x.0@),
        pos < before.len() ==> text_lt(x.0@, before[pos].0@),
    ensures
        forall|i: int, j: int| 0 <= i < j < after.len() ==> text_lt(after[i].0@, after[j].0@),
{
    assert forall|i: int, j: int| 0 <= i < j < after.len() implies text_lt(after[i].0@, after[j].0@) by {
        if j < pos {
            assert(after[i] == before[i] && after[j] == before[j]);
        } else if j == pos {
            assert(after[i] == before[i]);
        } else if i == pos {
            assert(after[j] == before[j - 1]);
            if j - 1 > pos {
                lemma_text_lt_trans(x.0@, before[pos].0@, before[j - 1].0@);
            }
        } else if i < pos {
            assert(after[i] == before[i] && after[j] == before[j - 1]);
            if j - 1 > pos {
                lemma_text_lt_trans(x.0@, before[pos].0@, before[j - 1].0@);
            }
            lemma_text_lt_trans(before[i].0@, x.0@, before[j - 1].0@);
        } else {
            assert(after[i] == before[i - 1] && after[j] == before[j - 1]);
        }
    }
}

proof fn lemma_insert_tracks(
    before: Seq<(String, u64)>,
    x: (String, u64),
    pos: int,
    after: Seq<(String, u64)>,
    all: Seq<(String, u64)>,
    k: int,
    src: Seq<int>,
    dst: Seq<int>,
) -> (maps: (Seq<int>, Seq<int>))
    requires
        0 <= pos <= before.len(),
        0 <= k < all.len(),
        before.len() == k,
        x == all[k],
        after == before.insert(pos, x),
        src.len() == k,
        dst.len() == k,
        forall|q: int| 0 <= q < k ==> 0 <= #[trigger] src[q] < k && before[q] == all[src[q]],
        forall|i: int| 0 <= i < k ==> 0 <= #[trigger] dst[i] < k && before[dst[i]] == all[i],
    ensures
        maps.0.len() == k + 1,
        maps.1.len() == k + 1,
        forall|q: int| 0 <= q < k + 1 ==> 0 <= #[trigger] maps.0[q] < k + 1 && after[q] == all[maps.0[q]],
        forall|i: int| 0 <= i < k + 1 ==> 0 <= #[trigger] maps.1[i] < k + 1 && after[maps.1[i]] == all[i],
{
    let s2 = src.insert(pos, k);
    let d2 = Seq::new(
        (k + 1) as nat,
        |i: int|
            if i == k {
                pos
            } else if dst[i] >= pos {
                dst[i] + 1
            } else {
                dst[i]
            },
    );
    assert forall|q: int| 0 <= q < k + 1 implies 0 <= #[trigger] s2[q] < k + 1 && after[q] == all[s2[q]] by {
        if q < pos {
            assert(s2[q] == src[q] && after[q] == before[q]);
        } else if q > pos {
            assert(s2[q] == src[q - 1] && after[q] == before[q - 1]);
        }
    }
    assert forall|i: int| 0 <= i < k + 1 implies 0 <= #[trigger] d2[i] < k + 1 && after[d2[i]] == all[i] by {
        if i < k {
            if dst[i] >= pos {
                assert(after[dst[i] + 1] == before[dst[i]]);
            } else {
                assert(after[dst[i]] == before[dst[i]]);
            }
        }
    }
    (s2, d2)
}

/// Inserts `x` into `out`, which is ordered by key and holds no entry of the
/// same key, keeping the order; returns where it went.
fn insert_by_key(out: &mut Vec<(String, u64)>, x: (String, u64)) -> (pos: usize)
    requires
        forall|i: int, j: int| 0 <= i < j < old(out)@.len() ==> text_lt(old(out)@[i].0@, old(out)@[j].0@),
        forall|q: int| 0 <= q < old(out)@.len() ==> (#[trigger] old(out)@[q]).0@ != x.0@,
    ensures
        pos <= old(out)@.len(),
        final(out)@ == old(out)@.insert(pos as int, x),
        forall|i: int, j: int| 0 <= i < j < final(out)@.len() ==> text_lt(final(out)@[i].0@, final(out)@[j].0@),
{
    let mut pos: usize = 0;
    while pos < out.len() && text_less(out[pos].0.as_str(), x.0.as_str())
        invariant
            pos <= out@.len(),
            forall|q: int| 0 <= q < pos ==> text_lt(out@[q].0@, x.0@),
        decreases out@.len() - pos,
    {
        pos = pos + 1;
    }
    let ghost before = out@;
    proof {
        if pos < before.len() {
            assert(before[pos as int].0@ != x.0@);
            lemma_text_lt_total(before[pos as int].0@, x.0@);
        }
    }
    out.insert(pos, x);
    proof {
        assert(out@ =~= before.insert(pos as int, x));
        lemma_insert_keeps_order(before, x, pos as int, out@);
    }
    pos
}

/// The entries of `entries`, ordered by key.
fn sort_by_key(entries: Vec<(String, u64)>) -> (out: Vec<(String, u64)>)
    requires
        forall|i: int, j: int| 0 <= i < j < entries@.len() ==> entries@[i].0@ != entries@[j].0@,
    ensures
        out@.len() == entries@.len(),
        forall|i: int, j: int| 0 <= i < j < out@.len() ==> text_lt(out@[i].0@, out@[j].0@),
        forall|q: int| 0 <= q < out@.len() ==> entries@.contains(#[trigger] out@[q]),
        forall|i: int| 0 <= i < entries@.len() ==> out@.contains(#[trigger] entries@[i]),
{
    let ghost all = entries@;
    let n = entries.len();
    let mut rest = entries;
    let mut out: Vec<(String, u64)> = Vec::new();
    let mut k: usize = 0;
    let ghost mut src: Seq<int> = Seq::empty();
    let ghost mut dst: Seq<int> = Seq::empty();
    assert(all.skip(0) =~= all);
    while k < n
        invariant
            n == all.len(),
            all == entries@,
            k <= n,
            rest@ == all.skip(k as int),
            forall|i: int, j: int| 0 <= i < j < all.len() ==> all[i].0@ != all[j].0@,
            out@.len() == k,
            forall|i: int, j: int| 0 <= i < j < out@.len() ==> text_lt(out@[i].0@, out@[j].0@),
            src.len() == k,
            dst.len() == k,
            forall|q: int| 0 <= q < k ==> 0 <= #[trigger] src[q] < k && out@[q] == all[src[q]],
            forall|i: int| 0 <= i < k ==> 0 <= #[trigger] dst[i] < k && out@[dst[i]] == all[i],
        decreases n - k,
    {
        let x = rest.remove(0);
        assert(x == all[k as int]);
        assert(rest@ =~= all.skip(k + 1));
        let ghost before = out@;
        assert forall|q: int| 0 <= q < before.len() implies (#[trigger] before[q]).0@ != x.0@ by {
            assert(before[q] == all[src[q]]);
        }
        let pos = insert_by_key(&mut out, x);
        proof {
            let maps = lemma_insert_tracks(before, x, pos as int, out@, all, k as int, src, dst);
            src = maps.0;
            dst = maps.1;
        }
        k = k + 1;
    }
    proof {
        assert(all == entries@);
        assert forall|q: int| 0 <= q < out@.len() implies entries@.contains(#[trigger] out@[q]) by {
            assert(out@[q] == all[src[q]]);
        }
        assert forall|i: int| 0 <= i < entries@.len() implies out@.contains(#[trigger] entries@[i]) by {
            assert(out@[dst[i]] == all[i]);
        }
    }
    out
}

proof fn lemma_listed_has(c: Seq<(String, u64)>, k: Seq<char>)
    ensures
        listed(c).contains_key(k) <==> exists|i: int| 0 <= i < c.len() && c[i].0@ == k,
    decreases c.len(),
{
    if c.len() > 0 {
        let d = c.drop_last();
        lemma_listed_has(d, k);
        if exists|i: int| 0 <= i < d.len() && d[i].0@ == k {
            let i = choose|i: int| 0 <= i < d.len() && d[i].0@ == k;
            assert(c[i] == d[i]);
        }
        if exists|i: int| 0 <= i < c.len() && c[i].0@ == k {
            let i = choose|i: int| 0 <= i < c.len() && c[i].0@ == k;
            if i < d.len() {
                assert(d[i] == c[i]);
            }
        }
    }
}

proof fn lemma_listed(c: Seq<(String, u64)>, m: Map<Seq<char>, u64>)
    requires
        forall|i: int, j: int| 0 <= i < j < c.len() ==> c[i].0@ != c[j].0@,
        forall|i: int| 0 <= i < c.len() ==> m.contains_key(#[trigger] c[i].0@) && m[c[i].0@] == c[i].1,
        forall|k: Seq<char>| m.contains_key(k) ==> exists|i: int| 0 <= i < c.len() && c[i].0@ == k,
    ensures
        listed(c) == m,
{
    assert forall|k: Seq<char>| #[trigger] listed(c).contains_key(k) <==> m.contains_key(k) by {
        lemma_listed_has(c, k);
    }
    assert forall|k: Seq<char>| listed(c).contains_key(k) implies #[trigger] listed(c)[k] == m[k] by {
        lemma_listed_value(c, k);
    }
    assert(listed(c) =~= m);
}

proof fn lemma_listed_value(c: Seq<(String, u64)>, k: Seq<char>)
    requires
        forall|i: int, j: int| 0 <= i < j < c.len() ==> c[i].0@ != c[j].0@,
        listed(c).contains_key(k),
    ensures
        exists|i: int| 0 <= i < c.len() && c[i].0@ == k && listed(c)[k] == c[i].1,
    decreases c.len(),
{
    let d = c.drop_last();
    if c.last().0@ == k {
        assert(c[c.len() - 1].0@ == k);
    } else {
        assert forall|i: int, j: int| 0 <= i < j < d.len() implies d[i].0@ != d[j].0@ by {
            assert(d[i] == c[i] && d[j] == c[j]);
        }
        lemma_listed_value(d, k);
        let i = choose|i: int| 0 <= i < d.len() && d[i].0@ == k && listed(d)[k] == d[i].1;
        assert(c[i] == d[i]);
    }
}

/// The first 64-bit output of ChaCha8 seeded from `seed` by `seed_from_u64`.
pub uninterp spec fn chacha8_first_u64(seed: u64) -> u64;

/// What `gen_range(0..n)` gives on ChaCha8 freshly seeded from `seed`.
pub uninterp spec fn chacha8_below(seed: u64, n: u64) -> u64;

/// What `gen_range(1..=sides)` gives on ChaCha8 freshly seeded from `seed`.
pub uninterp spec fn chacha8_die(seed: u64, sides: u32) -> u32;

/// Relies on rand_chacha::ChaCha8Rng::seed_from_u64 and RngCore::next_u64:
/// the first word of the stream, a function of the seed alone.
#[verifier::external_body]
fn chacha_word(seed: u64) -> (r: u64)
    ensures
        r == chacha8_first_u64(seed),
{
    rand_chacha::ChaCha8Rng::seed_from_u64(seed).next_u64()
}

/// Relies on rand::Rng::gen_range on a freshly seeded ChaCha8 generator: a
/// value in `0..n`, a function of the seed and `n` alone (it panics on an
/// empty range).
#[verifier::external_body]
fn chacha_index(seed: u64, n: u64) -> (r: u64)
    requires
        n > 0,
    ensures
        r < n,
        r == chacha8_below(seed, n),
{
    rand_chacha::ChaCha8Rng::seed_from_u64(seed).gen_range(0..n)
}

/// Relies on rand::Rng::gen_range on a freshly seeded ChaCha8 generator: a
/// value in `1..=sides`, a function of the seed and `sides` alone.
#[verifier::external_body]
fn chacha_die(seed: u64, sides: u32) -> (r: u32)
    requires
        sides >= 1,
    ensures
        1 <= r <= sides,
        r == chacha8_die(seed, sides),
{
    rand_chacha::ChaCha8Rng::seed_from_u64(seed).gen_range(1..=sides)
}

/// Relies on rand::thread_rng and Rng::gen_range: a random value in `0..n`
/// (it panics on an empty range).
#[verifier::external_body]
fn random_below(n: usize) -> (r: usize)
    requires
        n > 0,
    ensures
        r < n,
{
    rand::thread_rng().gen_range(0..n)
}

/// One draw: an integer, or a fraction in [0, 1) given as its numerator over 2^53.
#[derive(Debug, Clone, Copy, PartialEq, Eq, Structural)]
pub enum Draw {
    Int(i64),
    Unit(u64),
}

/// Why a draw was refused.
#[derive(Debug, Clone, Copy, PartialEq, Eq, Structural)]
pub enum RngError {
    /// An empty range: the maximum below the minimum.
    BadRequest,
}

/// 2^53: the denominator of a unit draw.
pub open spec fn unit_scale() -> int {
    0x20_0000_0000_0000
}

/// The 53-bit fraction drawn from `seed`.
pub open spec fn unit_of(seed: u64) -> u64 {
    chacha8_first_u64(seed) >> 11u64
}

/// The integer in `lo..=hi` that the fraction `u / 2^53` picks.
pub open spec fn scaled(lo: int, hi: int, u: u64) -> int {
    lo + (u as int * (hi - lo + 1)) / unit_scale()
}

/// The number a seed stands for.
pub open spec fn numeric_seed(s: SeedType) -> u64 {
    match s {
        SeedType::Numeric(n) => n,
        SeedType::String(t) => text_hash(t@),
    }
}

/// The draw for a seed and bounds: an integer in `[min, max]`, in `[1, min]`
/// when only `min` is given, else a fraction.
pub open spec fn draw_of(seed: SeedType, min: Option<i32>, max: Option<i32>) -> Result<Draw, RngError> {
    let u = unit_of(numeric_seed(seed));
    match min {
        Some(lo) => {
            let hi: int = match max {
                Some(h) => h as int,
                None => lo as int,
            };
            let low: int = match max {
                Some(_) => lo as int,
                None => 1,
            };
            if hi < low {
                Err(RngError::BadRequest)
            } else {
                Ok(Draw::Int(scaled(low, hi, u) as i64))
            }
        },
        None => Ok(Draw::Unit(u)),
    }
}

/// `b` holds the elements of `a`, rearranged.
pub open spec fn is_rearrangement<T>(a: Seq<T>, b: Seq<T>) -> bool {
    &&& a.len() == b.len()
    &&& exists|p: Seq<int>| is_perm(p, a.len()) && forall|k: int| 0 <= k < b.len() ==> b[k] == a[#[trigger] p[k]]
}

/// `p` is a permutation of `0..n`.
pub open spec fn is_perm(p: Seq<int>, n: nat) -> bool {
    &&& p.len() == n
    &&& forall|k: int| 0 <= k < n ==> 0 <= #[trigger] p[k] < n
    &&& forall|a: int, b: int| 0 <= a < n && 0 <= b < n && p[a] == p[b] ==> a == b
}

pub open spec fn digits() -> Seq<char> {
    seq!['0', '1', '2', '3', '4', '5', '6', '7', '8', '9']
}

/// The decimal digits of `n`.
pub open spec fn dec(n: nat) -> Seq<char>
    decreases n,
{
    if n < 10 {
        seq![digits()[n as int]]
    } else {
        dec(n / 10).push(digits()[(n % 10) as int])
    }
}

/// The characters a starting seed is made of.
pub open spec fn seed_alphabet() -> Seq<char> {
    seq![
        'A', 'B', 'C', 'D', 'E', 'F', 'G', 'H', 'I', 'J', 'K', 'L', 'M', 'N', 'O', 'P', 'Q', 'R',
        'S', 'T', 'U', 'V', 'W', 'X', 'Y', 'Z', '0', '1', '2', '3', '4', '5', '6', '7', '8', '9',
    ]
}

fn digit_text(d: u64) -> (r: &'static str)
    requires
        d < 10,
    ensures
        r@ == seq![digits()[d as int]],
{
    let all = "0123456789";
    proof {
        reveal_strlit("0123456789");
        assert(all@ =~= digits());
    }
    all.substring_ascii(d as usize, d as usize + 1)
}

/// The decimal form of `n`.
pub fn decimal(n: u64) -> (r: String)
    ensures
        r@ == dec(n as nat),
    decreases n,
{
    let piece = digit_text(n % 10);
    if n < 10 {
        String::from_str(piece)
    } else {
        let mut r = decimal(n / 10);
        r.append(piece);
        r
    }
}

/// The RNG of a game: keyed seeds plus draws derived from them.
#[derive(Debug)]
pub struct BalatroRng {
    state: PseudorandomState,
}

impl BalatroRng {
    pub closed spec fn current(&self) -> PseudorandomState {
        self.state
    }

    /// An RNG whose keys have not been drawn yet.
    pub fn new(seed: SeedType) -> (r: Self)
        ensures
            r.current().base() == seed_hash(seed),
            r.current().counters() == Map::<Seq<char>, u64>::empty(),
            r.current().global() == seed,
    {
        BalatroRng { state: PseudorandomState::new(seed) }
    }

    /// An RNG continuing from a saved state.
    pub fn from_state(state: PseudorandomState) -> (r: Self)
        ensures
            r.current() == state,
    {
        BalatroRng { state }
    }

    /// The state, to save it.
    pub fn state(&self) -> (r: &PseudorandomState)
        ensures
            *r == self.current(),
    {
        &self.state
    }

    /// Direct access to the state.
    pub fn state_mut(&mut self) -> (r: &mut PseudorandomState)
        ensures
            *r == old(self).current(),
            *final(r) == final(self).current(),
    {
        &mut self.state
    }

    /// The seed for `key` at its current counter; the counter then advances.
    pub fn pseudoseed(&mut self, key: &str) -> (r: u64)
        ensures
            r == key_hash(old(self).current().base(), key@, counter_of(old(self).current().counters(), key@)),
            final(self).current().counters() == old(self).current().counters().insert(
                key@,
                vstd::wrapping::u64_specs::wrapping_add(counter_of(old(self).current().counters(), key@), 1),
            ),
            final(self).current().base() == old(self).current().base(),
            final(self).current().global() == old(self).current().global(),
    {
        self.state.pseudoseed(key)
    }

    /// The number a string stands for as a seed.
    pub fn pseudohash(&self, s: &str) -> (r: u64)
        ensures
            r == text_hash(s@),
    {
        hash_text(s)
    }

    /// The 53-bit fraction drawn from `seed`: the draw is `r / 2^53`, in [0, 1).
    pub fn unit_draw(&self, seed: u64) -> (r: u64)
        ensures
            r == unit_of(seed),
            r < unit_scale(),
    {
        let w = chacha_word(seed);
        assert(w >> 11u64 < 0x20_0000_0000_0000u64) by (bit_vector);
        w >> 11u64
    }

    /// One draw from the stream of `seed`: with `min` and `max`, an integer in
    /// `[min, max]`; with `min` alone, an integer in `[1, min]`; else a
    /// fraction in [0, 1).
    pub fn pseudorandom(&mut self, seed: SeedType, min: Option<i32>, max: Option<i32>) -> (r: Result<Draw, RngError>)
        ensures
            r == draw_of(seed, min, max),
            *final(self) == *old(self),
            r matches Ok(Draw::Int(v)) ==> (match max {
                Some(h) => min.unwrap() <= v <= h,
                None => 1 <= v <= min.unwrap(),
            }),
    {
        let numeric = match &seed {
            SeedType::Numeric(n) => *n,
            SeedType::String(t) => hash_text(t.as_str()),
        };
        let u = self.unit_draw(numeric);
        match min {
            None => Ok(Draw::Unit(u)),
            Some(m) => {
                let (lo, hi): (i64, i64) = match max {
                    Some(h) => (m as i64, h as i64),
                    None => (1, m as i64),
                };
                if hi < lo {
                    return Err(RngError::BadRequest);
                }
                let range = (hi - lo + 1) as u128;
                proof {
                    lemma_scaled_below(u as int, range as int);
                }
                let q = (u as u128 * range) / 0x20_0000_0000_0000u128;
                Ok(Draw::Int(lo + q as i64))
            },
        }
    }

    /// An element of `collection` picked by `seed`; none when it is empty.
    pub fn pseudorandom_element<'a, T>(&mut self, collection: &'a [T], seed: u64) -> (r: Option<&'a T>)
        ensures
            *final(self) == *old(self),
            collection@.len() == 0 ==> r is None,
            collection@.len() > 0 ==> chacha8_below(seed, collection@.len() as u64) < collection@.len()
                && r == Some(&collection@[chacha8_below(seed, collection@.len() as u64) as int]),
    {
        if collection.len() == 0 {
            return None;
        }
        let i = chacha_index(seed, collection.len() as u64);
        Some(&collection[i as usize])
    }

    /// Shuffles `list` in place by Fisher-Yates; the draws are fixed by
    /// `seed` and the length alone (see `shuffle_draws`).
    pub fn pseudoshuffle<T>(&mut self, list: &mut Vec<T>, seed: u64)
        ensures
            *final(self) == *old(self),
            final(list)@ == fisher_yates(old(list)@, shuffle_draws(seed, old(list)@.len())),
            valid_draws(shuffle_draws(seed, old(list)@.len()), old(list)@.len()),
            is_rearrangement(old(list)@, final(list)@),
    {
        let n = list.len();
        let ghost target = shuffle_draws(seed, n as nat);
        let mut draws: Vec<usize> = Vec::new();
        if n > 1 {
            let mut k: usize = 0;
            while k < n - 1
                invariant
                    n > 1,
                    k <= n - 1,
                    target == shuffle_draws(seed, n as nat),
                    draws@.len() == k,
                    forall|q: int| 0 <= q < k ==> draws@[q] == target[q],
                    forall|q: int| 0 <= q < k ==> draws@[q] <= n - 1 - q,
                decreases n - 1 - k,
            {
                let s = absorb(seed, k as u64);
                let j = chacha_index(s, (n - k) as u64);
                assert(target[k as int] == j as usize);
                draws.push(j as usize);
                k = k + 1;
            }
            assert(draws@ =~= target);
        } else {
            assert(draws@ =~= target);
        }
        shuffle_with(list, &draws);
    }

    /// Whether the draw of `seed` falls below the probability
    /// `numerator / denominator`.
    pub fn probability_check(&mut self, numerator: u64, denominator: u64, seed: u64) -> (r: bool)
        requires
            denominator > 0,
        ensures
            *final(self) == *old(self),
            r == (unit_of(seed) as int * denominator < numerator as int * unit_scale()),
    {
        let u = self.unit_draw(seed);
        proof {
            lemma_product_fits(u as int, denominator as int, 0x20_0000_0000_0000);
            lemma_product_fits(numerator as int, 0x20_0000_0000_0000, 0x1_0000_0000_0000_0000);
        }
        (u as u128) * (denominator as u128) < (numerator as u128) * 0x20_0000_0000_0000u128
    }

    /// A choice picked with chance proportional to its weight; none when the
    /// list is empty or every weight is zero.
    pub fn weighted_choice<'a, T>(&mut self, choices: &'a [(T, u32)], seed: u64) -> (r: Option<&'a T>)
        requires
            choices@.len() <= u32::MAX,
        ensures
            *final(self) == *old(self),
            weight_total(choices@) == 0 ==> r is None,
            weight_total(choices@) > 0 ==> ({
                let i = pick_from(choices@, unit_of(seed), weight_total(choices@), 0, 0);
                &&& 0 <= i < choices@.len()
                &&& choices@[i].1 > 0
                &&& r matches Some(x) && *x == choices@[i].0
            }),
    {
        let n = choices.len();
        let mut total: u64 = 0;
        let mut k: usize = 0;
        while k < n
            invariant
                n == choices@.len(),
                n <= u32::MAX,
                k <= n,
                total == weight_total(choices@.take(k as int)),
                total <= k * 0xffff_ffff,
            decreases n - k,
        {
            let ghost t = choices@.take(k + 1);
            assert(t.drop_last() =~= choices@.take(k as int));
            total = total + choices[k].1 as u64;
            k = k + 1;
        }
        assert(choices@.take(n as int) =~= choices@);
        if total == 0 {
            return None;
        }
        let m = self.unit_draw(seed);
        proof {
            lemma_product_fits(m as int, total as int, 0x20_0000_0000_0000);
        }
        let target = (m as u128) * (total as u128);
        let mut acc: u64 = 0;
        let mut i: usize = 0;
        while i < n
            invariant
                n == choices@.len(),
                n <= u32::MAX,
                i <= n,
                total == weight_total(choices@),
                total > 0,
                target == m as int * total,
                m == unit_of(seed),
                m < unit_scale(),
                acc == weight_total(choices@.take(i as int)),
                acc <= total,
                m as int * total >= acc as int * unit_scale(),
                pick_from(choices@, m, total as int, 0, 0) == pick_from(choices@, m, total as int, acc as int, i as int),
            decreases n - i,
        {
            let ghost t = choices@.take(i + 1);
            assert(t.drop_last() =~= choices@.take(i as int));
            proof {
                lemma_total_prefix(choices@, i + 1);
            }
            let next = acc + choices[i].1 as u64;
            if target < (next as u128) * 0x20_0000_0000_0000u128 {
                assert(next as int == acc as int + choices@[i as int].1);
                assert(pick_from(choices@, m, total as int, acc as int, i as int) == i as int);
                assert(choices@[i as int].1 > 0) by (nonlinear_arith)
                    requires
                        m as int * total >= acc as int * unit_scale(),
                        m as int * total < (acc as int + choices@[i as int].1) * unit_scale(),
                ;
                return Some(&choices[i].0);
            }
            acc = next;
            i = i + 1;
        }
        proof {
            assert(choices@.take(n as int) =~= choices@);
            lemma_product_fits(m as int, total as int, 0x20_0000_0000_0000);
            assert(m as int * total < unit_scale() * total) by (nonlinear_arith)
                requires
                    m < unit_scale(),
                    total > 0,
            ;
            assert(false);
        }
        Some(&choices[n - 1].0)
    }

    /// A die roll in `1..=sides` picked by `seed`.
    pub fn roll_die(&mut self, sides: u32, seed: u64) -> (r: u32)
        requires
            sides >= 1,
        ensures
            *final(self) == *old(self),
            r == chacha8_die(seed, sides),
            1 <= r <= sides,
    {
        chacha_die(seed, sides)
    }

    /// A fresh random starting seed: eight letters and digits.
    pub fn generate_starting_seed() -> (r: String)
        ensures
            r@.len() == 8,
            forall|k: int| 0 <= k < 8 ==> seed_alphabet().contains(#[trigger] r@[k]),
    {
        let chars = "ABCDEFGHIJKLMNOPQRSTUVWXYZ0123456789";
        proof {
            reveal_strlit("ABCDEFGHIJKLMNOPQRSTUVWXYZ0123456789");
            assert(chars@ =~= seed_alphabet());
        }
        let mut r = String::new();
        let mut k: usize = 0;
        while k < 8
            invariant
                k <= 8,
                chars@ == seed_alphabet(),
                r@.len() == k,
                forall|m: int| 0 <= m < k ==> seed_alphabet().contains(#[trigger] r@[m]),
            decreases 8 - k,
        {
            let i = random_below(36);
            let piece = chars.substring_ascii(i, i + 1);
            let ghost before = r@;
            r.append(piece);
            proof {
                assert(piece@ =~= seq![seed_alphabet()[i as int]]);
                assert forall|m: int| 0 <= m < k + 1 implies seed_alphabet().contains(#[trigger] r@[m]) by {
                    if m == k as int {
                        assert(r@[m] == seed_alphabet()[i as int]);
                    } else {
                        assert(r@[m] == before[m]);
                    }
                }
            }
            k = k + 1;
        }
        r
    }

    /// The seed for a card pattern: the key is `pattern`, the ante in decimal,
    /// then `append` if given.
    pub fn get_card_rng(&mut self, pattern: &str, ante: u8, append: Option<&str>) -> (r: u64)
        ensures
            ({
                let key = pattern@ + dec(ante as nat) + match append {
                    Some(a) => a@,
                    None => Seq::<char>::empty(),
                };
                &&& r == key_hash(old(self).current().base(), key, counter_of(old(self).current().counters(), key))
                &&& final(self).current().counters() == old(self).current().counters().insert(
                    key,
                    vstd::wrapping::u64_specs::wrapping_add(counter_of(old(self).current().counters(), key), 1),
                )
                &&& final(self).current().base() == old(self).current().base()
            }),
    {
        let mut key = String::from_str(pattern);
        key.append(decimal(ante as u64).as_str());
        match append {
            Some(a) => key.append(a),
            None => {},
        }
        proof {
            let k = pattern@ + dec(ante as nat) + match append {
                Some(a) => a@,
                None => Seq::<char>::empty(),
            };
            assert(key@ =~= k);
        }
        self.pseudoseed(key.as_str())
    }

    /// The seed for a shop: the key is `shop_<ante>_<reroll_count>`.
    pub fn get_shop_rng(&mut self, ante: u8, reroll_count: u32) -> (r: u64)
        ensures
            ({
                let key = "shop_"@ + dec(ante as nat) + "_"@ + dec(reroll_count as nat);
                &&& r == key_hash(old(self).current().base(), key, counter_of(old(self).current().counters(), key))
                &&& final(self).current().counters() == old(self).current().counters().insert(
                    key,
                    vstd::wrapping::u64_specs::wrapping_add(counter_of(old(self).current().counters(), key), 1),
                )
                &&& final(self).current().base() == old(self).current().base()
            }),
    {
        let mut key = String::from_str("shop_");
        key.append(decimal(ante as u64).as_str());
        key.append("_");
        key.append(decimal(reroll_count as u64).as_str());
        self.pseudoseed(key.as_str())
    }

    /// The seed for a joker effect: the key is `joker_<joker_id>_<trigger_count>`.
    pub fn get_joker_rng(&mut self, joker_id: &str, trigger_count: u32) -> (r: u64)
        ensures
            ({
                let key = "joker_"@ + joker_id@ + "_"@ + dec(trigger_count as nat);
                &&& r == key_hash(old(self).current().base(), key, counter_of(old(self).current().counters(), key))
                &&& final(self).current().counters() == old(self).current().counters().insert(
                    key,
                    vstd::wrapping::u64_specs::wrapping_add(counter_of(old(self).current().counters(), key), 1),
                )
                &&& final(self).current().base() == old(self).current().base()
            }),
    {
        let mut key = String::from_str("joker_");
        key.append(joker_id);
        key.append("_");
        key.append(decimal(trigger_count as u64).as_str());
        self.pseudoseed(key.as_str())
    }
}

/// The seed of the `k`-th draw of a shuffle driven by `seed`.
pub open spec fn step_seed(seed: u64, k: int) -> u64 {
    absorbed(seed, k as u64)
}

/// The draws of a shuffle of `n` items driven by `seed`: the `k`-th is what a
/// ChaCha8 stream seeded with `step_seed(seed, k)` gives in `0..n - k`.
pub open spec fn shuffle_draws(seed: u64, n: nat) -> Seq<usize> {
    if n <= 1 {
        Seq::empty()
    } else {
        Seq::new((n - 1) as nat, |k: int| chacha8_below(step_seed(seed, k), (n - k) as u64) as usize)
    }
}

/// `s` with the elements at places `a` and `b` exchanged.
pub open spec fn swapped<T>(s: Seq<T>, a: int, b: int) -> Seq<T> {
    s.update(a, s[b]).update(b, s[a])
}

/// Draws that fit Fisher-Yates over `n` items: one per place from the last
/// down to the second, the `k`-th at most `n - 1 - k`.
pub open spec fn valid_draws(d: Seq<usize>, n: nat) -> bool {
    &&& (n <= 1 ==> d.len() == 0)
    &&& (n > 1 ==> d.len() == n - 1)
    &&& forall|k: int| 0 <= k < d.len() ==> d[k] <= n - 1 - k
}

/// `s` after the first `k` Fisher-Yates steps: step `k` exchanges place
/// `len - k` with place `d[k - 1]`.
pub open spec fn fy_steps<T>(s: Seq<T>, d: Seq<usize>, k: nat) -> Seq<T>
    decreases k,
{
    if k == 0 {
        s
    } else {
        swapped(fy_steps(s, d, (k - 1) as nat), s.len() - k, d[k - 1] as int)
    }
}

/// `s` shuffled by Fisher-Yates with the draws `d`.
pub open spec fn fisher_yates<T>(s: Seq<T>, d: Seq<usize>) -> Seq<T> {
    fy_steps(s, d, d.len())
}

/// The places `0..n` in order.
pub open spec fn places(n: nat) -> Seq<int> {
    Seq::new(n, |i: int| i)
}

/// Where each place of a shuffle of `n` items with draws `d` takes its item from.
pub open spec fn fy_positions(n: nat, d: Seq<usize>) -> Seq<int> {
    fisher_yates(places(n), d)
}

proof fn lemma_fy_steps<T>(s: Seq<T>, d: Seq<usize>, k: nat)
    requires
        valid_draws(d, s.len()),
        k <= d.len(),
    ensures
        fy_steps(s, d, k).len() == s.len(),
        fy_steps(places(s.len()), d, k).len() == s.len(),
        is_perm(fy_steps(places(s.len()), d, k), s.len()),
        forall|x: int|
            0 <= x < s.len() ==> fy_steps(s, d, k)[x] == s[#[trigger] fy_steps(places(s.len()), d, k)[x]],
    decreases k,
{
    let n = s.len();
    let id = places(n);
    if k == 0 {
        assert forall|x: int, y: int| 0 <= x < n && 0 <= y < n && id[x] == id[y] implies x == y by {}
    } else {
        lemma_fy_steps(s, d, (k - 1) as nat);
        let t = fy_steps(s, d, (k - 1) as nat);
        let u = fy_steps(id, d, (k - 1) as nat);
        let i = n - k;
        let j = d[k - 1] as int;
        assert(0 <= j <= i < n);
        let t2 = swapped(t, i, j);
        let u2 = swapped(u, i, j);
        assert(fy_steps(s, d, k) == t2);
        assert(fy_steps(id, d, k) == u2);
        assert forall|x: int| 0 <= x < n implies t2[x] == s[#[trigger] u2[x]] by {
            if x == j {
                assert(t2[x] == t[i] && u2[x] == u[i]);
            } else if x == i {
                assert(t2[x] == t[j] && u2[x] == u[j]);
            } else {
                assert(t2[x] == t[x] && u2[x] == u[x]);
            }
        }
        assert forall|x: int| 0 <= x < n implies 0 <= #[trigger] u2[x] < n by {
            if x == j {
                assert(u2[x] == u[i]);
            } else if x == i {
                assert(u2[x] == u[j]);
            } else {
                assert(u2[x] == u[x]);
            }
        }
        assert forall|x: int, y: int| 0 <= x < n && 0 <= y < n && u2[x] == u2[y] implies x == y by {
            let px = if x == j { i } else if x == i { j } else { x };
            let py = if y == j { i } else if y == i { j } else { y };
            assert(u2[x] == u[px]);
            assert(u2[y] == u[py]);
        }
    }
}

/// A shuffle moves places, not values: with the same draws, every list of a
/// given length is rearranged the same way, by `fy_positions`.
pub proof fn lemma_shuffle_by_position<T>(s: Seq<T>, d: Seq<usize>)
    requires
        valid_draws(d, s.len()),
    ensures
        is_perm(fy_positions(s.len(), d), s.len()),
        fisher_yates(s, d).len() == s.len(),
        forall|x: int|
            0 <= x < s.len() ==> fisher_yates(s, d)[x] == s[#[trigger] fy_positions(s.len(), d)[x]],
{
    lemma_fy_steps(s, d, d.len());
}

/// Two lists of the same length shuffled with the same seed are rearranged
/// alike, whatever their elements: place `x` of each takes the element from
/// place `fy_positions(n, shuffle_draws(seed, n))[x]`.
pub proof fn lemma_same_seed_same_permutation<A, B>(a: Seq<A>, b: Seq<B>, seed: u64)
    requires
        a.len() == b.len(),
        valid_draws(shuffle_draws(seed, a.len()), a.len()),
    ensures
        ({
            let p = fy_positions(a.len(), shuffle_draws(seed, a.len()));
            &&& is_perm(p, a.len())
            &&& forall|x: int|
                0 <= x < a.len() ==> fisher_yates(a, shuffle_draws(seed, a.len()))[x] == a[p[x]]
                    && fisher_yates(b, shuffle_draws(seed, b.len()))[x] == b[p[x]]
        }),
{
    lemma_shuffle_by_position(a, shuffle_draws(seed, a.len()));
    lemma_shuffle_by_position(b, shuffle_draws(seed, b.len()));
}

/// Shuffles `list` by Fisher-Yates with the given draws.
pub fn shuffle_with<T>(list: &mut Vec<T>, draws: &Vec<usize>)
    requires
        valid_draws(draws@, old(list)@.len()),
    ensures
        final(list)@ == fisher_yates(old(list)@, draws@),
        is_rearrangement(old(list)@, final(list)@),
{
    let ghost orig = list@;
    let n = list.len();
    let mut k: usize = 0;
    while k < draws.len()
        invariant
            n == orig.len(),
            valid_draws(draws@, n as nat),
            k <= draws@.len(),
            list@ == fy_steps(orig, draws@, k as nat),
        decreases draws@.len() - k,
    {
        proof {
            lemma_fy_steps(orig, draws@, k as nat);
        }
        let i = n - 1 - k;
        let j = draws[k];
        let ghost before = list@;
        if j != i {
            let a = list.remove(i);
            let b = list.remove(j);
            list.insert(j, a);
            list.insert(i, b);
        }
        assert(list@ =~= swapped(before, i as int, j as int));
        k = k + 1;
    }
    proof {
        lemma_fy_steps(orig, draws@, draws@.len());
        let p = fy_positions(n as nat, draws@);
        assert(forall|x: int| 0 <= x < list@.len() ==> list@[x] == orig[#[trigger] p[x]]);
    }
}

/// Sum of the weights of `c`.
pub open spec fn weight_total<T>(c: Seq<(T, u32)>) -> int
    decreases c.len(),
{
    if c.len() == 0 {
        0
    } else {
        weight_total(c.drop_last()) + c.last().1
    }
}

/// The choice that the fraction `m / 2^53` of `total` lands on, scanning from
/// place `i` with `acc` the weight before it: the first whose running weight
/// passes the target.
pub open spec fn pick_from<T>(c: Seq<(T, u32)>, m: u64, total: int, acc: int, i: int) -> int
    decreases c.len() - i,
{
    if i >= c.len() {
        c.len() - 1
    } else if m * total < (acc + c[i].1) * unit_scale() {
        i
    } else {
        pick_from(c, m, total, acc + c[i].1, i + 1)
    }
}

proof fn lemma_total_prefix<T>(c: Seq<(T, u32)>, k: int)
    requires
        0 <= k <= c.len(),
    ensures
        0 <= weight_total(c.take(k)) <= weight_total(c),
    decreases c.len(),
{
    if k < c.len() {
        let d = c.drop_last();
        assert(c.take(k) =~= d.take(k));
        lemma_total_prefix(d, k);
    } else {
        assert(c.take(k) =~= c);
        lemma_total_nonneg(c);
    }
}

proof fn lemma_total_nonneg<T>(c: Seq<(T, u32)>)
    ensures
        weight_total(c) >= 0,
    decreases c.len(),
{
    if c.len() > 0 {
        lemma_total_nonneg(c.drop_last());
    }
}

proof fn lemma_product_fits(a: int, b: int, bound: int)
    requires
        0 <= a < bound,
        0 <= b <= 0xffff_ffff_ffff_ffff,
        bound <= 0x1_0000_0000_0000_0000,
    ensures
        0 <= a * b < 0x1_0000_0000_0000_0000_0000_0000_0000_0000,
{
    assert(0 <= a * b <= bound * 0xffff_ffff_ffff_ffff) by (nonlinear_arith)
        requires
            0 <= a < bound,
            0 <= b <= 0xffff_ffff_ffff_ffff,
    ;
}

proof fn lemma_scaled_below(u: int, range: int)
    requires
        0 <= u < 0x20_0000_0000_0000,
        1 <= range <= 0x1_0000_0000,
    ensures
        0 <= (u * range) / 0x20_0000_0000_0000 < range,
        u * range < 0x1_0000_0000_0000_0000_0000_0000_0000_0000,
{
    assert(0 <= u * range < 0x20_0000_0000_0000 * range) by (nonlinear_arith)
        requires
            0 <= u < 0x20_0000_0000_0000,
            1 <= range,
    ;
    assert(u * range <= 0x20_0000_0000_0000 * 0x1_0000_0000) by (nonlinear_arith)
        requires
            0 <= u < 0x20_0000_0000_0000,
            1 <= range <= 0x1_0000_0000,
    ;
    assert((u * range) / 0x20_0000_0000_0000 < range) by (nonlinear_arith)
        requires
            0 <= u * range < 0x20_0000_0000_0000 * range,
    ;
}

/// The seeds that drawing `keys` in order yields from base seed `base` and
/// counters `m`.
pub open spec fn run(base: u64, m: Map<Seq<char>, u64>, keys: Seq<Seq<char>>) -> Seq<u64>
    decreases keys.len(),
{
    if keys.len() == 0 {
        Seq::empty()
    } else {
        let k = keys[0];
        let c = counter_of(m, k);
        seq![key_hash(base, k, c)] + run(
            base,
            m.insert(k, vstd::wrapping::u64_specs::wrapping_add(c, 1)),
            keys.drop_first(),
        )
    }
}

/// The keys of `keys` equal to `k`.
pub open spec fn only(keys: Seq<Seq<char>>, k: Seq<char>) -> Seq<Seq<char>>
    decreases keys.len(),
{
    if keys.len() == 0 {
        Seq::empty()
    } else if keys[0] == k {
        seq![k] + only(keys.drop_first(), k)
    } else {
        only(keys.drop_first(), k)
    }
}

/// The outputs at the places where `keys` holds `k`.
pub open spec fn picks(out: Seq<u64>, keys: Seq<Seq<char>>, k: Seq<char>) -> Seq<u64>
    decreases keys.len(),
{
    if keys.len() == 0 || out.len() == 0 {
        Seq::empty()
    } else if keys[0] == k {
        seq![out[0]] + picks(out.drop_first(), keys.drop_first(), k)
    } else {
        picks(out.drop_first(), keys.drop_first(), k)
    }
}

/// Two RNGs made from the same seed yield the same seeds for any sequence of keys.
pub proof fn lemma_same_seed_same_run(a: BalatroRng, b: BalatroRng, seed: SeedType, keys: Seq<Seq<char>>)
    requires
        a.current().base() == seed_hash(seed),
        a.current().counters() == Map::<Seq<char>, u64>::empty(),
        b.current().base() == seed_hash(seed),
        b.current().counters() == Map::<Seq<char>, u64>::empty(),
    ensures
        run(a.current().base(), a.current().counters(), keys) == run(
            b.current().base(),
            b.current().counters(),
            keys,
        ),
{
}

proof fn lemma_run_one_key(base: u64, m1: Map<Seq<char>, u64>, m2: Map<Seq<char>, u64>, keys: Seq<Seq<char>>, k: Seq<char>)
    requires
        forall|i: int| 0 <= i < keys.len() ==> keys[i] == k,
        counter_of(m1, k) == counter_of(m2, k),
    ensures
        run(base, m1, keys) == run(base, m2, keys),
    decreases keys.len(),
{
    if keys.len() > 0 {
        let c = counter_of(m1, k);
        let n1 = m1.insert(k, vstd::wrapping::u64_specs::wrapping_add(c, 1));
        let n2 = m2.insert(k, vstd::wrapping::u64_specs::wrapping_add(c, 1));
        lemma_run_one_key(base, n1, n2, keys.drop_first(), k);
    }
}

proof fn lemma_only_is_k(keys: Seq<Seq<char>>, k: Seq<char>)
    ensures
        forall|i: int| 0 <= i < only(keys, k).len() ==> only(keys, k)[i] == k,
    decreases keys.len(),
{
    if keys.len() > 0 {
        lemma_only_is_k(keys.drop_first(), k);
        let rest = only(keys.drop_first(), k);
        if keys[0] == k {
            assert forall|i: int| 0 <= i < only(keys, k).len() implies only(keys, k)[i] == k by {
                if i > 0 {
                    assert(only(keys, k)[i] == rest[i - 1]);
                }
            }
        }
    }
}

/// Draws on other keys do not change the seeds a key yields: the seeds drawn
/// for `k` within any sequence are those of drawing `k` alone as often.
pub proof fn lemma_keys_independent(base: u64, m: Map<Seq<char>, u64>, keys: Seq<Seq<char>>, k: Seq<char>)
    ensures
        picks(run(base, m, keys), keys, k) == run(base, m, only(keys, k)),
    decreases keys.len(),
{
    if keys.len() > 0 {
        let k0 = keys[0];
        let c = counter_of(m, k0);
        let m2 = m.insert(k0, vstd::wrapping::u64_specs::wrapping_add(c, 1));
        let rest = keys.drop_first();
        let out = run(base, m, keys);
        assert(out.drop_first() =~= run(base, m2, rest));
        lemma_keys_independent(base, m2, rest, k);
        if k0 == k {
            let o = only(keys, k);
            assert(o[0] == k);
            assert(o.drop_first() =~= only(rest, k));
            assert(run(base, m, o) =~= seq![key_hash(base, k, c)] + run(base, m2, only(rest, k)));
        } else {
            assert(counter_of(m2, k) == counter_of(m, k));
            lemma_only_is_k(rest, k);
            lemma_run_one_key(base, m2, m, only(rest, k), k);
        }
    }
}

/// A state restored from a snapshot of another yields, from then on, the same
/// seeds for every sequence of keys.
pub proof fn lemma_restore_faithful(st: PseudorandomState, snap: RngSnapshot, back: PseudorandomState, keys: Seq<Seq<char>>)
    requires
        snap.global_seed == st.global(),
        snap.base_seed == st.base(),
        listed(snap.counters@) == st.counters(),
        back.global() == snap.global_seed,
        back.base() == snap.base_seed,
        back.counters() == listed(snap.counters@),
    ensures
        back.global() == st.global(),
        run(back.base(), back.counters(), keys) == run(st.base(), st.counters(), keys),
{
}

} // verus!

//! Choice of the parser shard that receives each batch: round-robin, or
//! sticky by flight so that one flight's batches stay on one shard.
use vstd::arithmetic::div_mod::lemma_fundamental_div_mod;
use vstd::prelude::*;
use vstd::utf8::encode_utf8;

verus! {

pub const FNV_OFFSET_BASIS: u64 = 0xcbf29ce484222325;

pub const FNV_PRIME: u64 = 0x100000001b3;

#[derive(Debug, Clone, Copy, PartialEq, Eq, Structural)]
pub enum DispatchStrategy {
    /// Shard `i mod N` for the `i`-th batch.
    RoundRobin,
    /// Shard `hash(flight) mod N`.
    Sticky,
}

/// 64-bit FNV-1a hash of a byte sequence.
pub open spec fn fnv1a(bytes: Seq<u8>) -> u64
    decreases bytes.len(),
{
    if bytes.len() == 0 {
        FNV_OFFSET_BASIS
    } else {
        (fnv1a(bytes.drop_last()) ^ (bytes.last() as u64)).wrapping_mul(FNV_PRIME)
    }
}

/// The shard that sticky dispatch picks for `flight` among `n` shards.
pub open spec fn sticky_shard(flight: Seq<char>, n: usize) -> usize {
    (fnv1a(encode_utf8(flight)) % (n as u64)) as usize
}

/// FNV-1a hash of the UTF-8 bytes of `s`.
pub fn flight_hash(s: &str) -> (r: u64)
    ensures
        r == fnv1a(encode_utf8(s@)),
{
    let bytes = s.as_bytes();
    let mut h: u64 = FNV_OFFSET_BASIS;
    let mut i: usize = 0;
    while i < bytes.len()
        invariant
            bytes@ == encode_utf8(s@),
            0 <= i <= bytes@.len(),
            h == fnv1a(bytes@.take(i as int)),
        decreases bytes@.len() - i,
    {
        assert(bytes@.take(i + 1).drop_last() =~= bytes@.take(i as int));
        h = (h ^ (bytes[i] as u64)).wrapping_mul(FNV_PRIME);
        i = i + 1;
    }
    assert(bytes@.take(i as int) =~= bytes@);
    h
}

/// Picks a shard for each batch; shards are numbered `0..shards`.
pub struct Dispatcher {
    shards: usize,
    next_shard_idx: usize,
    strategy: DispatchStrategy,
}

impl Dispatcher {
    pub closed spec fn wf(&self) -> bool {
        self.shards > 0 && self.next_shard_idx < self.shards
    }

    pub closed spec fn shards_spec(&self) -> usize {
        self.shards
    }

    /// The shard the next round-robin dispatch picks.
    pub closed spec fn next_spec(&self) -> usize {
        self.next_shard_idx
    }

    pub closed spec fn strategy_spec(&self) -> DispatchStrategy {
        self.strategy
    }

    /// A dispatcher over `shards` shards; none when there is no shard.
    pub fn new(shards: usize, strategy: DispatchStrategy) -> (r: Option<Self>)
        ensures
            r is None <==> shards == 0,
            r matches Some(d) ==> d.wf() && d.shards_spec() == shards && d.next_spec() == 0
                && d.strategy_spec() == strategy,
    {
        if shards == 0 {
            None
        } else {
            Some(Dispatcher { shards, next_shard_idx: 0, strategy })
        }
    }

    pub fn shards(&self) -> (r: usize)
        ensures
            r == self.shards_spec(),
    {
        self.shards
    }

    /// The shard that receives the next batch, of flight `flight`.
    pub fn pick_shard(&mut self, flight: &str) -> (r: usize)
        requires
            old(self).wf(),
        ensures
            final(self).wf(),
            final(self).shards_spec() == old(self).shards_spec(),
            final(self).strategy_spec() == old(self).strategy_spec(),
            r < old(self).shards_spec(),
            old(self).strategy_spec() == DispatchStrategy::RoundRobin ==> r == old(self).next_spec()
                && final(self).next_spec() == (old(self).next_spec() + 1) % (old(
                self,
            ).shards_spec() as int),
            old(self).strategy_spec() == DispatchStrategy::Sticky ==> r == sticky_shard(
                flight@,
                old(self).shards_spec(),
            ) && final(self).next_spec() == old(self).next_spec(),
    {
        match self.strategy {
            DispatchStrategy::RoundRobin => {
                let current = self.next_shard_idx;
                self.next_shard_idx = (self.next_shard_idx + 1) % self.shards;
                current
            },
            DispatchStrategy::Sticky => (flight_hash(flight) % (self.shards as u64)) as usize,
        }
    }

    /// Picks a shard for each of `flights`, in order.
    pub fn assign(&mut self, flights: &Vec<String>) -> (r: Vec<usize>)
        requires
            old(self).wf(),
        ensures
            final(self).wf(),
            final(self).shards_spec() == old(self).shards_spec(),
            final(self).strategy_spec() == old(self).strategy_spec(),
            r@.len() == flights@.len(),
            forall|i: int| 0 <= i < r@.len() ==> r@[i] < old(self).shards_spec(),
            old(self).strategy_spec() == DispatchStrategy::RoundRobin ==> forall|i: int|
                0 <= i < r@.len() ==> r@[i] == (old(self).next_spec() + i) % (old(
                    self,
                ).shards_spec() as int),
            old(self).strategy_spec() == DispatchStrategy::Sticky ==> forall|i: int|
                0 <= i < r@.len() ==> r@[i] == sticky_shard(
                    flights@[i]@,
                    old(self).shards_spec(),
                ),
    {
        let ghost start = self.next_shard_idx;
        let ghost n = self.shards as int;
        let mut out: Vec<usize> = Vec::new();
        let mut i: usize = 0;
        proof {
            vstd::arithmetic::div_mod::lemma_fundamental_div_mod_converse(start as int, n, 0, start as int);
        }
        while i < flights.len()
            invariant
                self.wf(),
                self.shards == n,
                self.strategy == old(self).strategy,
                0 <= i <= flights@.len(),
                out@.len() == i,
                start == old(self).next_shard_idx,
                n == old(self).shards,
                forall|j: int| 0 <= j < i ==> out@[j] < n,
                self.strategy == DispatchStrategy::RoundRobin ==> self.next_shard_idx == (start
                    + i) % n,
                self.strategy == DispatchStrategy::RoundRobin ==> forall|j: int|
                    0 <= j < i ==> out@[j] == (start + j) % n,
                self.strategy == DispatchStrategy::Sticky ==> forall|j: int|
                    0 <= j < i ==> out@[j] == sticky_shard(flights@[j]@, n as usize),
            decreases flights@.len() - i,
        {
            let s = self.pick_shard(flights[i].as_str());
            proof {
                if self.strategy == DispatchStrategy::RoundRobin {
                    lemma_mod_succ(start + i, n);
                }
            }
            out.push(s);
            i = i + 1;
        }
        out
    }
}

proof fn lemma_mod_succ(a: int, n: int)
    requires
        a >= 0,
        n > 0,
    ensures
        (a % n + 1) % n == (a + 1) % n,
{
    lemma_fundamental_div_mod(a, n);
    vstd::arithmetic::div_mod::lemma_mod_pos_bound(a, n);
    let q = a / n;
    let r = a % n;
    assert(q * n == n * q) by (nonlinear_arith);
    if r + 1 < n {
        vstd::arithmetic::div_mod::lemma_fundamental_div_mod_converse(a + 1, n, q, r + 1);
        vstd::arithmetic::div_mod::lemma_fundamental_div_mod_converse(r + 1, n, 0, r + 1);
    } else {
        assert(a + 1 == (q + 1) * n) by (nonlinear_arith)
            requires
                a == n * q + r,
                r + 1 == n,
        ;
        vstd::arithmetic::div_mod::lemma_fundamental_div_mod_converse(a + 1, n, q + 1, 0);
        vstd::arithmetic::div_mod::lemma_fundamental_div_mod_converse(r + 1, n, 1, 0);
    }
}

/// Number of positions of `picks` that hold shard `s`.
pub open spec fn shard_count(picks: Seq<usize>, s: usize) -> nat
    decreases picks.len(),
{
    if picks.len() == 0 {
        0
    } else {
        shard_count(picks.drop_last(), s) + if picks.last() == s {
            1nat
        } else {
            0nat
        }
    }
}

proof fn lemma_round_robin_prefix_count(picks: Seq<usize>, n: int, s: usize, len: int)
    requires
        n > 0,
        0 <= s < n,
        0 <= len <= picks.len(),
        forall|i: int| 0 <= i < picks.len() ==> picks[i] == i % n,
    ensures
        shard_count(picks.take(len), s) == len / n + if s < len % n {
            1int
        } else {
            0int
        },
    decreases len,
{
    if len > 0 {
        let l = len - 1;
        assert(picks.take(len).drop_last() =~= picks.take(l));
        assert(picks.take(len).last() == picks[l]);
        assert(picks[l] == l % n);
        assert((picks[l] == s) == (l % n == s));
        lemma_round_robin_prefix_count(picks, n, s, l);
        lemma_fundamental_div_mod(l, n);
        lemma_fundamental_div_mod(len, n);
        vstd::arithmetic::div_mod::lemma_mod_pos_bound(l, n);
        assert((l / n) * n == n * (l / n)) by (nonlinear_arith);
        if l % n == n - 1 {
            assert(len == (l / n + 1) * n) by (nonlinear_arith)
                requires
                    l == n * (l / n) + l % n,
                    l % n == n - 1,
                    len == l + 1,
            ;
            vstd::arithmetic::div_mod::lemma_fundamental_div_mod_converse(len, n, l / n + 1, 0);
        } else {
            vstd::arithmetic::div_mod::lemma_fundamental_div_mod_converse(
                len,
                n,
                l / n,
                l % n + 1,
            );
        }
    } else {
        assert(picks.take(0) =~= Seq::<usize>::empty());
    }
}

/// Round-robin dispatch of `k·N` batches from a fresh dispatcher over `N`
/// shards gives exactly `k` batches to each shard.
pub proof fn lemma_round_robin_balanced(picks: Seq<usize>, n: usize, k: nat, s: usize)
    requires
        n > 0,
        s < n,
        picks.len() == k * n,
        forall|i: int| 0 <= i < picks.len() ==> picks[i] == i % (n as int),
    ensures
        shard_count(picks, s) == k,
{
    lemma_round_robin_prefix_count(picks, n as int, s, picks.len() as int);
    assert(picks.take(picks.len() as int) =~= picks);
    vstd::arithmetic::div_mod::lemma_fundamental_div_mod_converse(
        (k * n) as int,
        n as int,
        k as int,
        0,
    );
}

/// With sticky dispatch, batches of the same flight go to the same shard.
pub proof fn lemma_sticky_same_flight(flights: Seq<Seq<char>>, picks: Seq<usize>, n: usize)
    requires
        picks.len() == flights.len(),
        forall|i: int| 0 <= i < picks.len() ==> picks[i] == sticky_shard(flights[i], n),
    ensures
        forall|i: int, j: int|
            0 <= i < picks.len() && 0 <= j < picks.len() && flights[i] == flights[j]
                ==> picks[i] == picks[j],
{
}

} // verus!

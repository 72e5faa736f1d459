//! A syncer that serves deposits and withdrawals from a cache: lists of past
//! events, as exported in JSON files.

use crate::decimal::{parse_u128, parse_u128_spec};
use crate::events::{Commitment, Nullifier};
use crate::primitives::{Address, B256};
use crate::sync_plan::{
    batches_from, chained_ranges, lemma_batches_partition, lemma_chained_ranges, well_chained, SyncRange,
};
use vstd::prelude::*;
use vstd::string::StringExecFns;
use vstd::utf8::encode_utf8;

verus! {

/// Why a cache could not be loaded: the file could not be read, or its JSON
/// could not be parsed (with the underlying error's message).
#[derive(Debug)]
pub enum CacheSyncerError {
    Io(String),
    Json(String),
}

impl CacheSyncerError {
    /// The error's message: `IO error: ...` or `JSON parse error: ...`.
    pub fn to_string(&self) -> (r: String)
        ensures
            r@ == (match self {
                CacheSyncerError::Io(m) => "IO error: "@ + m@,
                CacheSyncerError::Json(m) => "JSON parse error: "@ + m@,
            }),
    {
        match self {
            CacheSyncerError::Io(m) => String::from_str("IO error: ").concat(m.as_str()),
            CacheSyncerError::Json(m) => String::from_str("JSON parse error: ").concat(m.as_str()),
        }
    }
}

/// A deposit as the cache files record it.
#[derive(Clone, Copy, Debug)]
pub struct RawDeposit {
    pub block_number: u64,
    pub transaction_hash: B256,
    pub commitment: B256,
    pub leaf_index: u32,
}

/// A withdrawal as the cache files record it; the fee is decimal text.
#[derive(Clone, Debug)]
pub struct RawWithdrawal {
    pub block_number: u64,
    pub transaction_hash: B256,
    pub nullifier_hash: B256,
    pub to: Address,
    pub fee: String,
}

/// The deposits and withdrawals of a cache.
pub struct CacheSyncer {
    commitments: Vec<Commitment>,
    nullifiers: Vec<Nullifier>,
}

/// The commitment that a cached deposit stands for (the cache has no
/// timestamps).
pub open spec fn commitment_of_raw(d: RawDeposit) -> Commitment {
    Commitment {
        block_number: d.block_number,
        tx_hash: d.transaction_hash,
        commitment: d.commitment,
        leaf_index: d.leaf_index,
        timestamp: 0,
    }
}

/// The fee of a cached withdrawal: its text parsed as a `u128`, 0 where it
/// does not parse.
pub open spec fn fee_of_raw(w: RawWithdrawal) -> u128 {
    match parse_u128_spec(encode_utf8(w.fee@)) {
        Some(f) => f,
        None => 0,
    }
}

/// The nullifier that a cached withdrawal stands for (the cache has no
/// timestamps).
pub open spec fn nullifier_of_raw(w: RawWithdrawal) -> Nullifier {
    Nullifier {
        block_number: w.block_number,
        tx_hash: w.transaction_hash,
        nullifier: w.nullifier_hash,
        to: w.to,
        fee: fee_of_raw(w),
        timestamp: 0,
    }
}

/// A cached record keeps its own fields: the commitment of a deposit has the
/// deposit's commitment, transaction hash, block and leaf index, and the
/// nullifier of a withdrawal has the withdrawal's nullifier hash, transaction
/// hash, block and recipient; neither has a timestamp.
pub proof fn lemma_cached_records(d: RawDeposit, w: RawWithdrawal)
    ensures
        commitment_of_raw(d).commitment == d.commitment,
        commitment_of_raw(d).tx_hash == d.transaction_hash,
        commitment_of_raw(d).block_number == d.block_number,
        commitment_of_raw(d).leaf_index == d.leaf_index,
        commitment_of_raw(d).timestamp == 0,
        nullifier_of_raw(w).nullifier == w.nullifier_hash,
        nullifier_of_raw(w).tx_hash == w.transaction_hash,
        nullifier_of_raw(w).block_number == w.block_number,
        nullifier_of_raw(w).to == w.to,
        nullifier_of_raw(w).timestamp == 0,
{
}

/// The largest block number among `c` and `n`, or 0.
pub open spec fn max_block(c: Seq<Commitment>, n: Seq<Nullifier>) -> u64
    decreases c.len() + n.len(),
{
    if c.len() > 0 {
        let rest = max_block(c.drop_last(), n);
        if c.last().block_number > rest {
            c.last().block_number
        } else {
            rest
        }
    } else if n.len() > 0 {
        let rest = max_block(c, n.drop_last());
        if n.last().block_number > rest {
            n.last().block_number
        } else {
            rest
        }
    } else {
        0
    }
}

/// The commitments of `c` whose block lies in `from..=to`, in order.
pub open spec fn commitments_between(c: Seq<Commitment>, from: u64, to: u64) -> Seq<Commitment>
    decreases c.len(),
{
    if c.len() == 0 {
        Seq::empty()
    } else {
        let rest = commitments_between(c.drop_last(), from, to);
        if from <= c.last().block_number <= to {
            rest.push(c.last())
        } else {
            rest
        }
    }
}

/// The nullifiers of `n` whose block lies in `from..=to`, in order.
pub open spec fn nullifiers_between(n: Seq<Nullifier>, from: u64, to: u64) -> Seq<Nullifier>
    decreases n.len(),
{
    if n.len() == 0 {
        Seq::empty()
    } else {
        let rest = nullifiers_between(n.drop_last(), from, to);
        if from <= n.last().block_number <= to {
            rest.push(n.last())
        } else {
            rest
        }
    }
}

impl View for CacheSyncer {
    type V = (Seq<Commitment>, Seq<Nullifier>);

    closed spec fn view(&self) -> (Seq<Commitment>, Seq<Nullifier>) {
        (self.commitments@, self.nullifiers@)
    }
}

impl CacheSyncer {
    /// The cache of the deposits `raw_deposits` and the withdrawals
    /// `raw_withdrawals`, in their order. A fee that is not a decimal `u128`
    /// is taken as 0.
    pub fn from_raw(raw_deposits: Vec<RawDeposit>, raw_withdrawals: Vec<RawWithdrawal>) -> (r: Result<
        CacheSyncer,
        CacheSyncerError,
    >)
        ensures
            r is Ok,
            r matches Ok(s) ==> s@.0 == raw_deposits@.map_values(|d: RawDeposit| commitment_of_raw(d))
                && s@.1 == raw_withdrawals@.map_values(|w: RawWithdrawal| nullifier_of_raw(w)),
            r matches Ok(s) ==> s@.0.len() == raw_deposits@.len() && s@.1.len() == raw_withdrawals@.len(),
            r matches Ok(s) ==> forall|k: int|
                0 <= k < raw_deposits@.len() ==> (#[trigger] s@.0[k]).commitment == raw_deposits@[k].commitment
                    && s@.0[k].tx_hash == raw_deposits@[k].transaction_hash && s@.0[k].block_number
                    == raw_deposits@[k].block_number && s@.0[k].leaf_index == raw_deposits@[k].leaf_index,
            r matches Ok(s) ==> forall|k: int|
                0 <= k < raw_withdrawals@.len() ==> (#[trigger] s@.1[k]).nullifier
                    == raw_withdrawals@[k].nullifier_hash && s@.1[k].tx_hash == raw_withdrawals@[k].transaction_hash
                    && s@.1[k].block_number == raw_withdrawals@[k].block_number && s@.1[k].to
                    == raw_withdrawals@[k].to,
    {
        let mut commitments: Vec<Commitment> = Vec::new();
        let n = raw_deposits.len();
        let mut i: usize = 0;
        while i < n
            invariant
                i <= n == raw_deposits@.len(),
                commitments@ =~= raw_deposits@.subrange(0, i as int).map_values(
                    |d: RawDeposit| commitment_of_raw(d),
                ),
            decreases n - i,
        {
            let d = raw_deposits[i];
            commitments.push(
                Commitment {
                    block_number: d.block_number,
                    tx_hash: d.transaction_hash,
                    commitment: d.commitment,
                    leaf_index: d.leaf_index,
                    timestamp: 0,
                },
            );
            i = i + 1;
            assert(commitments@ =~= raw_deposits@.subrange(0, i as int).map_values(
                |d: RawDeposit| commitment_of_raw(d),
            ));
        }
        let mut nullifiers: Vec<Nullifier> = Vec::new();
        let m = raw_withdrawals.len();
        let mut j: usize = 0;
        while j < m
            invariant
                j <= m == raw_withdrawals@.len(),
                nullifiers@ =~= raw_withdrawals@.subrange(0, j as int).map_values(
                    |w: RawWithdrawal| nullifier_of_raw(w),
                ),
            decreases m - j,
        {
            let w = &raw_withdrawals[j];
            let fee = match parse_u128(w.fee.as_str()) {
                Some(f) => f,
                None => 0,
            };
            nullifiers.push(
                Nullifier {
                    block_number: w.block_number,
                    tx_hash: w.transaction_hash,
                    nullifier: w.nullifier_hash,
                    to: w.to,
                    fee,
                    timestamp: 0,
                },
            );
            j = j + 1;
            assert(nullifiers@ =~= raw_withdrawals@.subrange(0, j as int).map_values(
                |w: RawWithdrawal| nullifier_of_raw(w),
            ));
        }
        assert(raw_deposits@.subrange(0, n as int) =~= raw_deposits@);
        assert(raw_withdrawals@.subrange(0, m as int) =~= raw_withdrawals@);
        Ok(CacheSyncer { commitments, nullifiers })
    }

    /// The latest block of the cache: the largest block number of its
    /// deposits and withdrawals, or 0 for an empty cache.
    pub fn latest_block(&self) -> (r: u64)
        ensures
            r == max_block(self@.0, self@.1),
    {
        let mut best: u64 = 0;
        let mut j: usize = 0;
        let m = self.nullifiers.len();
        while j < m
            invariant
                j <= m == self.nullifiers@.len(),
                best == max_block(Seq::empty(), self.nullifiers@.subrange(0, j as int)),
            decreases m - j,
        {
            proof {
                assert(self.nullifiers@.subrange(0, j + 1).drop_last() =~= self.nullifiers@.subrange(
                    0,
                    j as int,
                ));
            }
            let b = self.nullifiers[j].block_number;
            if b > best {
                best = b;
            }
            j = j + 1;
        }
        assert(self.nullifiers@.subrange(0, m as int) =~= self.nullifiers@);
        let mut i: usize = 0;
        let n = self.commitments.len();
        assert(self.commitments@.subrange(0, 0) =~= Seq::<Commitment>::empty());
        while i < n
            invariant
                i <= n == self.commitments@.len(),
                best == max_block(self.commitments@.subrange(0, i as int), self.nullifiers@),
            decreases n - i,
        {
            proof {
                assert(self.commitments@.subrange(0, i + 1).drop_last() =~= self.commitments@.subrange(
                    0,
                    i as int,
                ));
            }
            let b = self.commitments[i].block_number;
            if b > best {
                best = b;
            }
            i = i + 1;
        }
        assert(self.commitments@.subrange(0, n as int) =~= self.commitments@);
        best
    }

    /// The cached commitments of the blocks `from_block..=to_block`, in order.
    pub fn sync_commitments(&self, from_block: u64, to_block: u64) -> (r: Vec<Commitment>)
        ensures
            r@ == commitments_between(self@.0, from_block, to_block),
    {
        let mut out: Vec<Commitment> = Vec::new();
        let n = self.commitments.len();
        let mut i: usize = 0;
        while i < n
            invariant
                i <= n == self.commitments@.len(),
                out@ == commitments_between(self.commitments@.subrange(0, i as int), from_block, to_block),
            decreases n - i,
        {
            proof {
                assert(self.commitments@.subrange(0, i + 1).drop_last() =~= self.commitments@.subrange(
                    0,
                    i as int,
                ));
            }
            let c = self.commitments[i];
            if c.block_number >= from_block && c.block_number <= to_block {
                out.push(c);
            }
            i = i + 1;
        }
        assert(self.commitments@.subrange(0, n as int) =~= self.commitments@);
        out
    }

    /// The cached nullifiers of the blocks `from_block..=to_block`, in order.
    pub fn sync_nullifiers(&self, from_block: u64, to_block: u64) -> (r: Vec<Nullifier>)
        ensures
            r@ == nullifiers_between(self@.1, from_block, to_block),
    {
        let mut out: Vec<Nullifier> = Vec::new();
        let n = self.nullifiers.len();
        let mut i: usize = 0;
        while i < n
            invariant
                i <= n == self.nullifiers@.len(),
                out@ == nullifiers_between(self.nullifiers@.subrange(0, i as int), from_block, to_block),
            decreases n - i,
        {
            proof {
                assert(self.nullifiers@.subrange(0, i + 1).drop_last() =~= self.nullifiers@.subrange(
                    0,
                    i as int,
                ));
            }
            let x = self.nullifiers[i];
            if x.block_number >= from_block && x.block_number <= to_block {
                out.push(x);
            }
            i = i + 1;
        }
        assert(self.nullifiers@.subrange(0, n as int) =~= self.nullifiers@);
        out
    }
}

} // verus!

verus! {

proof fn lemma_max_block_bounds(c: Seq<Commitment>, n: Seq<Nullifier>)
    ensures
        forall|k: int| 0 <= k < c.len() ==> (#[trigger] c[k]).block_number <= max_block(c, n),
        forall|k: int| 0 <= k < n.len() ==> (#[trigger] n[k]).block_number <= max_block(c, n),
    decreases c.len() + n.len(),
{
    if c.len() > 0 {
        lemma_max_block_bounds(c.drop_last(), n);
        assert forall|k: int| 0 <= k < c.len() implies (#[trigger] c[k]).block_number <= max_block(
            c,
            n,
        ) by {
            if k < c.len() - 1 {
                assert(c[k] == c.drop_last()[k]);
            }
        }
    } else if n.len() > 0 {
        lemma_max_block_bounds(c, n.drop_last());
        assert forall|k: int| 0 <= k < n.len() implies (#[trigger] n[k]).block_number <= max_block(
            c,
            n,
        ) by {
            if k < n.len() - 1 {
                assert(n[k] == n.drop_last()[k]);
            }
        }
    }
}

proof fn lemma_commitments_between_all(c: Seq<Commitment>, from: u64, to: u64)
    requires
        forall|k: int| 0 <= k < c.len() ==> from <= (#[trigger] c[k]).block_number <= to,
    ensures
        commitments_between(c, from, to) == c,
    decreases c.len(),
{
    if c.len() > 0 {
        assert forall|k: int| 0 <= k < c.drop_last().len() implies from <= (
        #[trigger] c.drop_last()[k]).block_number <= to by {
            assert(c.drop_last()[k] == c[k]);
        }
        lemma_commitments_between_all(c.drop_last(), from, to);
        assert(c.drop_last().push(c.last()) =~= c);
    }
}

proof fn lemma_nullifiers_between_all(n: Seq<Nullifier>, from: u64, to: u64)
    requires
        forall|k: int| 0 <= k < n.len() ==> from <= (#[trigger] n[k]).block_number <= to,
    ensures
        nullifiers_between(n, from, to) == n,
    decreases n.len(),
{
    if n.len() > 0 {
        assert forall|k: int| 0 <= k < n.drop_last().len() implies from <= (
        #[trigger] n.drop_last()[k]).block_number <= to by {
            assert(n.drop_last()[k] == n[k]);
        }
        lemma_nullifiers_between_all(n.drop_last(), from, to);
        assert(n.drop_last().push(n.last()) =~= n);
    }
}

/// A cache holds no event beyond its latest block: syncing it over the
/// blocks `0..=latest_block` yields every cached deposit and withdrawal, in
/// order.
pub proof fn lemma_cache_full_sync(s: CacheSyncer)
    ensures
        commitments_between(s@.0, 0, max_block(s@.0, s@.1)) == s@.0,
        nullifiers_between(s@.1, 0, max_block(s@.0, s@.1)) == s@.1,
{
    lemma_max_block_bounds(s@.0, s@.1);
    lemma_commitments_between_all(s@.0, 0, max_block(s@.0, s@.1));
    lemma_nullifiers_between_all(s@.1, 0, max_block(s@.0, s@.1));
}

/// Whether the commitments of `c` come in the order of their blocks, as a
/// chain records them.
pub open spec fn commitments_in_block_order(c: Seq<Commitment>) -> bool {
    forall|i: int, j: int| 0 <= i < j < c.len() ==> c[i].block_number <= c[j].block_number
}

/// Whether the nullifiers of `n` come in the order of their blocks.
pub open spec fn nullifiers_in_block_order(n: Seq<Nullifier>) -> bool {
    forall|i: int, j: int| 0 <= i < j < n.len() ==> n[i].block_number <= n[j].block_number
}

proof fn lemma_commitments_none_after(c: Seq<Commitment>, m: u64, d: u64)
    requires
        m < u64::MAX,
        forall|i: int| 0 <= i < c.len() ==> c[i].block_number <= m,
    ensures
        commitments_between(c, (m + 1) as u64, d) == Seq::<Commitment>::empty(),
    decreases c.len(),
{
    if c.len() > 0 {
        lemma_commitments_none_after(c.drop_last(), m, d);
    }
}

proof fn lemma_nullifiers_none_after(n: Seq<Nullifier>, m: u64, d: u64)
    requires
        m < u64::MAX,
        forall|i: int| 0 <= i < n.len() ==> n[i].block_number <= m,
    ensures
        nullifiers_between(n, (m + 1) as u64, d) == Seq::<Nullifier>::empty(),
    decreases n.len(),
{
    if n.len() > 0 {
        lemma_nullifiers_none_after(n.drop_last(), m, d);
    }
}

/// Syncing the blocks `a..=m` and then `m+1..=d` of events in block order
/// gives what syncing `a..=d` at once gives: no event is lost or repeated at
/// the seam.
pub proof fn lemma_commitments_split(c: Seq<Commitment>, a: u64, m: u64, d: u64)
    requires
        commitments_in_block_order(c),
        a <= m + 1,
        m <= d,
        m < u64::MAX,
    ensures
        commitments_between(c, a, m) + commitments_between(c, (m + 1) as u64, d) == commitments_between(c, a, d),
    decreases c.len(),
{
    if c.len() == 0 {
        assert(Seq::<Commitment>::empty() + Seq::<Commitment>::empty() =~= Seq::<Commitment>::empty());
    } else {
        let init = c.drop_last();
        let last = c.last();
        assert(commitments_in_block_order(init)) by {
            assert forall|i: int, j: int| 0 <= i < j < init.len() implies init[i].block_number
                <= init[j].block_number by {
                assert(init[i] == c[i] && init[j] == c[j]);
            }
        }
        lemma_commitments_split(init, a, m, d);
        let lo = commitments_between(init, a, m);
        let hi = commitments_between(init, (m + 1) as u64, d);
        if a <= last.block_number <= m {
            assert forall|i: int| 0 <= i < init.len() implies init[i].block_number <= m by {
                assert(init[i] == c[i]);
                assert(c[i].block_number <= c[c.len() - 1].block_number);
            }
            lemma_commitments_none_after(init, m, d);
            assert(hi == Seq::<Commitment>::empty());
            assert(lo.push(last) + Seq::<Commitment>::empty() =~= (lo + hi).push(last));
        } else if m + 1 <= last.block_number <= d {
            assert(lo + hi.push(last) =~= (lo + hi).push(last));
        }
    }
}

/// Syncing the blocks `a..=m` and then `m+1..=d` of nullifiers in block
/// order gives what syncing `a..=d` at once gives.
pub proof fn lemma_nullifiers_split(n: Seq<Nullifier>, a: u64, m: u64, d: u64)
    requires
        nullifiers_in_block_order(n),
        a <= m + 1,
        m <= d,
        m < u64::MAX,
    ensures
        nullifiers_between(n, a, m) + nullifiers_between(n, (m + 1) as u64, d) == nullifiers_between(n, a, d),
    decreases n.len(),
{
    if n.len() == 0 {
        assert(Seq::<Nullifier>::empty() + Seq::<Nullifier>::empty() =~= Seq::<Nullifier>::empty());
    } else {
        let init = n.drop_last();
        let last = n.last();
        assert(nullifiers_in_block_order(init)) by {
            assert forall|i: int, j: int| 0 <= i < j < init.len() implies init[i].block_number
                <= init[j].block_number by {
                assert(init[i] == n[i] && init[j] == n[j]);
            }
        }
        lemma_nullifiers_split(init, a, m, d);
        let lo = nullifiers_between(init, a, m);
        let hi = nullifiers_between(init, (m + 1) as u64, d);
        if a <= last.block_number <= m {
            assert forall|i: int| 0 <= i < init.len() implies init[i].block_number <= m by {
                assert(init[i] == n[i]);
                assert(n[i].block_number <= n[n.len() - 1].block_number);
            }
            lemma_nullifiers_none_after(init, m, d);
            assert(hi == Seq::<Nullifier>::empty());
            assert(lo.push(last) + Seq::<Nullifier>::empty() =~= (lo + hi).push(last));
        } else if m + 1 <= last.block_number <= d {
            assert(lo + hi.push(last) =~= (lo + hi).push(last));
        }
    }
}

/// The commitments that syncing each of `ranges` in turn gathers from a
/// chain whose deposits are `c`.
pub open spec fn commitments_over(c: Seq<Commitment>, ranges: Seq<SyncRange>) -> Seq<Commitment>
    decreases ranges.len(),
{
    if ranges.len() == 0 {
        Seq::empty()
    } else {
        commitments_over(c, ranges.drop_last()) + commitments_between(
            c,
            ranges.last().from_block,
            ranges.last().to_block,
        )
    }
}

/// The nullifiers that syncing each of `ranges` in turn gathers from a chain
/// whose withdrawals are `n`.
pub open spec fn nullifiers_over(n: Seq<Nullifier>, ranges: Seq<SyncRange>) -> Seq<Nullifier>
    decreases ranges.len(),
{
    if ranges.len() == 0 {
        Seq::empty()
    } else {
        nullifiers_over(n, ranges.drop_last()) + nullifiers_between(
            n,
            ranges.last().from_block,
            ranges.last().to_block,
        )
    }
}

proof fn lemma_events_over_prefix(
    c: Seq<Commitment>,
    n: Seq<Nullifier>,
    ranges: Seq<SyncRange>,
    latests: Seq<u64>,
    from: u64,
    to: u64,
)
    requires
        commitments_in_block_order(c),
        nullifiers_in_block_order(n),
        well_chained(ranges, latests, from as nat, to as nat),
        ranges.len() > 0,
    ensures
        commitments_over(c, ranges) == commitments_between(c, from, ranges.last().to_block),
        nullifiers_over(n, ranges) == nullifiers_between(n, from, ranges.last().to_block),
    decreases ranges.len(),
{
    let init = ranges.drop_last();
    let last = ranges.last();
    assert(last == ranges[ranges.len() - 1]);
    assert(commitments_over(c, ranges) == commitments_over(c, init) + commitments_between(
        c,
        last.from_block,
        last.to_block,
    ));
    assert(nullifiers_over(n, ranges) == nullifiers_over(n, init) + nullifiers_between(
        n,
        last.from_block,
        last.to_block,
    ));
    if init.len() == 0 {
        assert(ranges[0].from_block == from);
        assert(commitments_over(c, init) == Seq::<Commitment>::empty());
        assert(nullifiers_over(n, init) == Seq::<Nullifier>::empty());
        assert(Seq::<Commitment>::empty() + commitments_between(c, from, last.to_block) =~= commitments_between(
            c,
            from,
            last.to_block,
        ));
        assert(Seq::<Nullifier>::empty() + nullifiers_between(n, from, last.to_block) =~= nullifiers_between(
            n,
            from,
            last.to_block,
        ));
    } else {
        assert(well_chained(init, latests, from as nat, to as nat)) by {
            assert forall|k: int| 0 <= k < init.len() implies #[trigger] init[k] == ranges[k] by {}
            assert forall|k: int| 0 < k < init.len() implies (#[trigger] init[k]).from_block == init[k
                - 1].to_block + 1 && init[k - 1].syncer_index < init[k].syncer_index by {
                assert(init[k] == ranges[k] && init[k - 1] == ranges[k - 1]);
            }
        }
        lemma_events_over_prefix(c, n, init, latests, from, to);
        let prev = init.last();
        assert(prev == ranges[ranges.len() - 2]);
        assert(last.from_block == prev.to_block + 1);
        assert(from <= prev.from_block <= prev.to_block);
        lemma_commitments_split(c, from, prev.to_block, last.to_block);
        lemma_nullifiers_split(n, from, prev.to_block, last.to_block);
    }
}

/// A chained sync of the blocks `from..=to` loses no event and repeats
/// none: where every syncer serves the same chain, whose events come in
/// block order, the events gathered over the chained ranges are those of the
/// blocks from `from` to the end of the last range, in order; and where no
/// syncer has reached `from`, there are none.
pub proof fn lemma_chained_sync_events(
    c: Seq<Commitment>,
    n: Seq<Nullifier>,
    latests: Seq<u64>,
    from: u64,
    to: u64,
)
    requires
        commitments_in_block_order(c),
        nullifiers_in_block_order(n),
        latests.len() <= usize::MAX,
    ensures
        ({
            let ranges = chained_ranges(latests, from, to);
            &&& ranges.len() > 0 ==> commitments_over(c, ranges) == commitments_between(
                c,
                from,
                ranges.last().to_block,
            )
            &&& ranges.len() > 0 ==> nullifiers_over(n, ranges) == nullifiers_between(
                n,
                from,
                ranges.last().to_block,
            )
            &&& ranges.len() == 0 ==> commitments_over(c, ranges) == Seq::<Commitment>::empty()
            &&& ranges.len() == 0 ==> nullifiers_over(n, ranges) == Seq::<Nullifier>::empty()
        }),
{
    lemma_chained_ranges(latests, from, to);
    let ranges = chained_ranges(latests, from, to);
    if ranges.len() > 0 {
        lemma_events_over_prefix(c, n, ranges, latests, from, to);
    }
}

/// The commitments that fetching each of the batches `batches` in turn
/// gathers from a chain whose deposits are `c`.
pub open spec fn commitments_over_batches(c: Seq<Commitment>, batches: Seq<(u64, u64)>) -> Seq<Commitment>
    decreases batches.len(),
{
    if batches.len() == 0 {
        Seq::empty()
    } else {
        commitments_over_batches(c, batches.drop_last()) + commitments_between(
            c,
            batches.last().0,
            batches.last().1,
        )
    }
}

/// The nullifiers that fetching each of the batches `batches` in turn
/// gathers from a chain whose withdrawals are `n`.
pub open spec fn nullifiers_over_batches(n: Seq<Nullifier>, batches: Seq<(u64, u64)>) -> Seq<Nullifier>
    decreases batches.len(),
{
    if batches.len() == 0 {
        Seq::empty()
    } else {
        nullifiers_over_batches(n, batches.drop_last()) + nullifiers_between(
            n,
            batches.last().0,
            batches.last().1,
        )
    }
}

proof fn lemma_over_batches_prefix(
    c: Seq<Commitment>,
    n: Seq<Nullifier>,
    batches: Seq<(u64, u64)>,
    from: u64,
)
    requires
        commitments_in_block_order(c),
        nullifiers_in_block_order(n),
        batches.len() > 0,
        batches[0].0 == from,
        forall|k: int| 0 <= k < batches.len() ==> (#[trigger] batches[k]).0 <= batches[k].1,
        forall|k: int| 0 < k < batches.len() ==> (#[trigger] batches[k]).0 == batches[k - 1].1 + 1,
    ensures
        commitments_over_batches(c, batches) == commitments_between(c, from, batches.last().1),
        nullifiers_over_batches(n, batches) == nullifiers_between(n, from, batches.last().1),
    decreases batches.len(),
{
    let init = batches.drop_last();
    let last = batches.last();
    assert(last == batches[batches.len() - 1]);
    assert(commitments_over_batches(c, batches) == commitments_over_batches(c, init) + commitments_between(
        c,
        last.0,
        last.1,
    ));
    assert(nullifiers_over_batches(n, batches) == nullifiers_over_batches(n, init) + nullifiers_between(
        n,
        last.0,
        last.1,
    ));
    if init.len() == 0 {
        assert(commitments_over_batches(c, init) == Seq::<Commitment>::empty());
        assert(nullifiers_over_batches(n, init) == Seq::<Nullifier>::empty());
        assert(Seq::<Commitment>::empty() + commitments_between(c, from, last.1) =~= commitments_between(
            c,
            from,
            last.1,
        ));
        assert(Seq::<Nullifier>::empty() + nullifiers_between(n, from, last.1) =~= nullifiers_between(
            n,
            from,
            last.1,
        ));
    } else {
        assert forall|k: int| 0 <= k < init.len() implies (#[trigger] init[k]).0 <= init[k].1 by {
            assert(init[k] == batches[k]);
        }
        assert forall|k: int| 0 < k < init.len() implies (#[trigger] init[k]).0 == init[k - 1].1 + 1 by {
            assert(init[k] == batches[k] && init[k - 1] == batches[k - 1]);
        }
        assert(init[0] == batches[0]);
        lemma_over_batches_prefix(c, n, init, from);
        let prev = init.last();
        assert(prev == batches[batches.len() - 2]);
        assert(from <= prev.1) by {
            lemma_batches_ascend(batches, batches.len() - 2);
        }
        lemma_commitments_split(c, from, prev.1, last.1);
        lemma_nullifiers_split(n, from, prev.1, last.1);
    }
}

proof fn lemma_batches_ascend(batches: Seq<(u64, u64)>, k: int)
    requires
        batches.len() > 0,
        0 <= k < batches.len(),
        forall|i: int| 0 <= i < batches.len() ==> (#[trigger] batches[i]).0 <= batches[i].1,
        forall|i: int| 0 < i < batches.len() ==> (#[trigger] batches[i]).0 == batches[i - 1].1 + 1,
    ensures
        batches[0].0 <= batches[k].1,
    decreases k,
{
    assert(batches[k].0 <= batches[k].1);
    if k > 0 {
        lemma_batches_ascend(batches, k - 1);
    }
}

/// An RPC sync of the blocks `from..=to` loses no event and repeats none:
/// where the node serves a chain whose events come in block order, the
/// events fetched batch after batch are those of `from..=to`, in order.
pub proof fn lemma_batched_sync_events(
    c: Seq<Commitment>,
    n: Seq<Nullifier>,
    from: u64,
    to: u64,
    batch_size: u64,
)
    requires
        commitments_in_block_order(c),
        nullifiers_in_block_order(n),
        to < u64::MAX,
    ensures
        commitments_over_batches(c, batches_from(from as nat, to as nat, batch_size as nat))
            == commitments_between(c, from, to),
        nullifiers_over_batches(n, batches_from(from as nat, to as nat, batch_size as nat))
            == nullifiers_between(n, from, to),
{
    lemma_batches_partition(from, to, batch_size);
    let b = batches_from(from as nat, to as nat, batch_size as nat);
    if b.len() == 0 {
        lemma_commitments_between_empty(c, from, to);
        lemma_nullifiers_between_empty(n, from, to);
    } else {
        lemma_over_batches_prefix(c, n, b, from);
    }
}

proof fn lemma_commitments_between_empty(c: Seq<Commitment>, from: u64, to: u64)
    requires
        from > to,
    ensures
        commitments_between(c, from, to) == Seq::<Commitment>::empty(),
    decreases c.len(),
{
    if c.len() > 0 {
        lemma_commitments_between_empty(c.drop_last(), from, to);
    }
}

proof fn lemma_nullifiers_between_empty(n: Seq<Nullifier>, from: u64, to: u64)
    requires
        from > to,
    ensures
        nullifiers_between(n, from, to) == Seq::<Nullifier>::empty(),
    decreases n.len(),
{
    if n.len() > 0 {
        lemma_nullifiers_between_empty(n.drop_last(), from, to);
    }
}

} // verus!

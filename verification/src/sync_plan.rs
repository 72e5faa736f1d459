//! Which blocks each syncer is asked for.
//!
//! A chained syncer asks its syncers in priority order: each one that has
//! blocks beyond those already covered syncs from there up to the end of
//! what it has (or the end of the request). An RPC syncer splits a block
//! range into batches of at most `batch_size` blocks.

use crate::primitives::Address;
use vstd::prelude::*;

verus! {

/// A request to syncer number `syncer_index` for the blocks `from_block..=to_block`.
#[derive(Clone, Copy, Debug, PartialEq, Eq)]
pub struct SyncRange {
    pub syncer_index: usize,
    pub from_block: u64,
    pub to_block: u64,
}

pub open spec fn min_nat(a: nat, b: nat) -> nat {
    if a <= b {
        a
    } else {
        b
    }
}

/// The ranges that a chained syncer asks for when the syncers from number `i`
/// on report the latest blocks `latests[i..]`, blocks from `current` on are
/// still to be covered and the request ends at `to`.
pub open spec fn chained_ranges_from(latests: Seq<u64>, i: nat, current: nat, to: nat) -> Seq<SyncRange>
    decreases latests.len() - i,
{
    if i >= latests.len() || current > to {
        Seq::empty()
    } else if (latests[i as int] as nat) < current {
        chained_ranges_from(latests, i + 1, current, to)
    } else {
        let end = min_nat(latests[i as int] as nat, to);
        seq![SyncRange { syncer_index: i as usize, from_block: current as u64, to_block: end as u64 }]
            + chained_ranges_from(latests, i + 1, end + 1, to)
    }
}

/// The ranges that a chained syncer asks for, for the blocks
/// `from_block..=to_block`, when its syncers report the latest blocks `latests`.
pub open spec fn chained_ranges(latests: Seq<u64>, from_block: u64, to_block: u64) -> Seq<SyncRange> {
    chained_ranges_from(latests, 0, from_block as nat, to_block as nat)
}

/// Whether no request can make `range_end + 1` overflow: no syncer reports
/// `u64::MAX` as its latest block while the request ends at `u64::MAX`.
pub open spec fn chain_fits(latests: Seq<u64>, to_block: u64) -> bool {
    to_block < u64::MAX || forall|i: int| 0 <= i < latests.len() ==> #[trigger] latests[i] < u64::MAX
}

/// The progress of a chained sync: which syncer is asked next, and from which
/// block on the request is still uncovered.
pub struct ChainedSyncPlan {
    pub n_syncers: usize,
    pub next_syncer: usize,
    pub current_from: u64,
    pub to_block: u64,
    pub done: bool,
}

impl ChainedSyncPlan {
    /// Whether the sync is over: every syncer was asked, or every block of the
    /// request is covered.
    pub open spec fn spec_finished(self) -> bool {
        self.done || self.next_syncer >= self.n_syncers || self.current_from > self.to_block
    }

    /// The ranges still to be requested, given the latest blocks that all the
    /// syncers report.
    pub open spec fn remaining(self, latests: Seq<u64>) -> Seq<SyncRange> {
        if self.done {
            Seq::empty()
        } else {
            chained_ranges_from(latests, self.next_syncer as nat, self.current_from as nat, self.to_block as nat)
        }
    }

    /// Starts a chained sync of `from_block..=to_block` over `n_syncers`
    /// syncers taken in priority order.
    pub fn new(n_syncers: usize, from_block: u64, to_block: u64) -> (p: ChainedSyncPlan)
        ensures
            p.n_syncers == n_syncers,
            p.next_syncer == 0,
            p.current_from == from_block,
            p.to_block == to_block,
            !p.done,
            forall|latests: Seq<u64>| latests.len() == n_syncers ==> #[trigger] p.remaining(latests)
                == chained_ranges(latests, from_block, to_block),
    {
        ChainedSyncPlan { n_syncers, next_syncer: 0, current_from: from_block, to_block, done: false }
    }

    /// The syncer to ask for its latest block next, or `None` when the sync is
    /// over.
    pub fn next_syncer(&self) -> (r: Option<usize>)
        ensures
            r is None <==> self.spec_finished(),
            r matches Some(i) ==> i == self.next_syncer && i < self.n_syncers,
    {
        if self.done || self.next_syncer >= self.n_syncers || self.current_from > self.to_block {
            None
        } else {
            Some(self.next_syncer)
        }
    }

    /// Takes the latest block reported by the syncer of `next_syncer`, and
    /// gives the range to request from it, if it has any uncovered block.
    pub fn on_latest_block(&mut self, latest: u64) -> (r: Option<SyncRange>)
        requires
            !old(self).spec_finished(),
            latest < u64::MAX || old(self).to_block < u64::MAX,
        ensures
            final(self).n_syncers == old(self).n_syncers,
            final(self).to_block == old(self).to_block,
            final(self).next_syncer == old(self).next_syncer + 1,
            !final(self).done,
            latest < old(self).current_from ==> r is None && final(self).current_from == old(
                self,
            ).current_from,
            latest >= old(self).current_from ==> r == Some(
                SyncRange {
                    syncer_index: old(self).next_syncer,
                    from_block: old(self).current_from,
                    to_block: min_nat(latest as nat, old(self).to_block as nat) as u64,
                },
            ) && final(self).current_from == min_nat(latest as nat, old(self).to_block as nat) + 1,
            forall|latests: Seq<u64>|
                latests.len() == old(self).n_syncers && #[trigger] latests[old(self).next_syncer as int]
                    == latest ==> old(self).remaining(latests) == (match r {
                    Some(range) => seq![range],
                    None => Seq::empty(),
                }) + final(self).remaining(latests),
    {
        let i = self.next_syncer;
        self.next_syncer = i + 1;
        if latest < self.current_from {
            assert forall|latests: Seq<u64>|
                latests.len() == old(self).n_syncers && #[trigger] latests[i as int] == latest implies old(
                self,
            ).remaining(latests) == Seq::<SyncRange>::empty() + self.remaining(latests) by {
                assert(Seq::<SyncRange>::empty() + self.remaining(latests) =~= self.remaining(
                    latests,
                ));
            }
            return None;
        }
        let end = if latest < self.to_block {
            latest
        } else {
            self.to_block
        };
        let range = SyncRange { syncer_index: i, from_block: self.current_from, to_block: end };
        self.current_from = end + 1;
        Some(range)
    }

    /// Ends the sync, as a failed `latest_block` query does: nothing more is
    /// requested.
    pub fn abort(&mut self)
        ensures
            final(self).done,
            final(self).spec_finished(),
            forall|latests: Seq<u64>| #[trigger] final(self).remaining(latests) == Seq::<SyncRange>::empty(),
    {
        self.done = true;
    }
}

/// The ranges a chained syncer requests for `from_block..=to_block` when its
/// syncers report the latest blocks `latests` (and none fails).
pub fn plan_chained_ranges(latests: &Vec<u64>, from_block: u64, to_block: u64) -> (r: Vec<SyncRange>)
    requires
        chain_fits(latests@, to_block),
    ensures
        r@ == chained_ranges(latests@, from_block, to_block),
{
    let mut plan = ChainedSyncPlan::new(latests.len(), from_block, to_block);
    let mut out: Vec<SyncRange> = Vec::new();
    loop
        invariant
            plan.n_syncers == latests@.len(),
            plan.to_block == to_block,
            !plan.done,
            chain_fits(latests@, to_block),
            chained_ranges(latests@, from_block, to_block) == out@ + plan.remaining(latests@),
        decreases latests@.len() - plan.next_syncer,
    {
        match plan.next_syncer() {
            None => {
                assert(plan.remaining(latests@) =~= Seq::<SyncRange>::empty());
                assert(out@ + plan.remaining(latests@) =~= out@);
                return out;
            },
            Some(i) => {
                let latest = latests[i];
                let ghost before = out@;
                let step = plan.on_latest_block(latest);
                match step {
                    Some(range) => {
                        out.push(range);
                        assert(before + (seq![range] + plan.remaining(latests@)) =~= out@
                            + plan.remaining(latests@));
                    },
                    None => {
                        assert(Seq::<SyncRange>::empty() + plan.remaining(latests@) =~= plan.remaining(latests@));
                    },
                }
            },
        }
    }
}

/// The latest block of a chained syncer: the largest latest block that one of
/// its syncers reports (`None` for a syncer whose query failed), or 0.
pub open spec fn max_reported(results: Seq<Option<u64>>) -> u64
    decreases results.len(),
{
    if results.len() == 0 {
        0
    } else {
        let rest = max_reported(results.drop_last());
        match results.last() {
            Some(b) => if b > rest {
                b
            } else {
                rest
            },
            None => rest,
        }
    }
}

/// The latest block of a chained syncer is the largest block that one of its
/// syncers reports: no reported block is above it, and it is one of the
/// reported blocks, or 0 when none reports.
pub proof fn lemma_max_reported(results: Seq<Option<u64>>)
    ensures
        forall|k: int, b: u64| 0 <= k < results.len() && results[k] == Some(b) ==> max_reported(results) >= b,
        max_reported(results) == 0 || exists|k: int| 0 <= k < results.len() && results[k] == Some(
            max_reported(results),
        ),
    decreases results.len(),
{
    if results.len() > 0 {
        let init = results.drop_last();
        lemma_max_reported(init);
        assert forall|k: int, b: u64| 0 <= k < results.len() && results[k] == Some(b) implies max_reported(
            results,
        ) >= b by {
            if k < init.len() {
                assert(init[k] == results[k]);
            }
        }
        let m = max_reported(results);
        if m != 0 {
            if results.last() == Some(m) {
                assert(results[results.len() - 1] == Some(m));
            } else {
                assert(m == max_reported(init));
                let k = choose|k: int| 0 <= k < init.len() && init[k] == Some(max_reported(init));
                assert(results[k] == init[k]);
            }
        }
    }
}

/// The latest block of a chained syncer, from what each of its syncers
/// reported.
pub fn chained_latest_block(results: &Vec<Option<u64>>) -> (r: u64)
    ensures
        r == max_reported(results@),
        forall|k: int, b: u64| 0 <= k < results@.len() && results@[k] == Some(b) ==> r >= b,
        r == 0 || exists|k: int| 0 <= k < results@.len() && results@[k] == Some(r),
{
    proof {
        lemma_max_reported(results@);
    }
    let mut max_block: u64 = 0;
    let n = results.len();
    let mut i: usize = 0;
    while i < n
        invariant
            i <= n == results@.len(),
            max_block == max_reported(results@.subrange(0, i as int)),
        decreases n - i,
    {
        proof {
            assert(results@.subrange(0, i + 1).drop_last() =~= results@.subrange(0, i as int));
        }
        if let Some(block) = results[i] {
            if block > max_block {
                max_block = block;
            }
        }
        i = i + 1;
    }
    assert(results@.subrange(0, n as int) =~= results@);
    max_block
}

} // verus!

verus! {

/// Whether `ranges` lie within `current..=to`, each non-empty and asking its
/// syncer for no block beyond the one it reported, one after another without
/// gap or overlap, starting at `current`, in the syncers' priority order.
pub open spec fn well_chained(ranges: Seq<SyncRange>, latests: Seq<u64>, current: nat, to: nat) -> bool {
    &&& forall|k: int|
        0 <= k < ranges.len() ==> {
            let r = #[trigger] ranges[k];
            &&& current <= r.from_block <= r.to_block <= to
            &&& (r.syncer_index as int) < latests.len()
            &&& r.to_block <= latests[r.syncer_index as int]
        }
    &&& ranges.len() > 0 ==> ranges[0].from_block == current
    &&& forall|k: int|
        0 < k < ranges.len() ==> (#[trigger] ranges[k]).from_block == ranges[k - 1].to_block + 1
            && ranges[k - 1].syncer_index < ranges[k].syncer_index
}

/// Whether block `b` lies in one of `ranges`.
pub open spec fn covered(ranges: Seq<SyncRange>, b: nat) -> bool {
    exists|k: int| 0 <= k < ranges.len() && (#[trigger] ranges[k]).from_block <= b <= ranges[k].to_block
}

proof fn lemma_chained_ranges_from(latests: Seq<u64>, i: nat, current: nat, to: nat)
    requires
        to <= u64::MAX,
        current <= u64::MAX + 1,
        latests.len() <= usize::MAX,
    ensures
        well_chained(chained_ranges_from(latests, i, current, to), latests, current, to),
        forall|k: int|
            0 <= k < chained_ranges_from(latests, i, current, to).len() ==> #[trigger] chained_ranges_from(
                latests,
                i,
                current,
                to,
            )[k].syncer_index >= i,
        forall|b: nat, j: int|
            #![trigger latests[j], covered(chained_ranges_from(latests, i, current, to), b)]
            i <= j < latests.len() && current <= b <= to && b <= latests[j] ==> covered(
                chained_ranges_from(latests, i, current, to),
                b,
            ),
    decreases latests.len() - i,
{
    let r = chained_ranges_from(latests, i, current, to);
    if i >= latests.len() || current > to {
    } else if (latests[i as int] as nat) < current {
        lemma_chained_ranges_from(latests, i + 1, current, to);
        assert forall|b: nat, j: int|
            #![trigger latests[j], covered(r, b)]
            i <= j < latests.len() && current <= b <= to && b <= latests[j] implies covered(
            r,
            b,
        ) by {
            if j == i {
                assert(false);
            }
        }
    } else {
        let end = min_nat(latests[i as int] as nat, to);
        let first = SyncRange { syncer_index: i as usize, from_block: current as u64, to_block: end as u64 };
        let rest = chained_ranges_from(latests, i + 1, end + 1, to);
        lemma_chained_ranges_from(latests, i + 1, end + 1, to);
        assert(r == seq![first] + rest);
        assert forall|k: int| 0 <= k < r.len() implies {
            let x = #[trigger] r[k];
            &&& current <= x.from_block <= x.to_block <= to
            &&& (x.syncer_index as int) < latests.len()
            &&& x.to_block <= latests[x.syncer_index as int]
            &&& x.syncer_index >= i
        } by {
            if k > 0 {
                assert(r[k] == rest[k - 1]);
            }
        }
        assert forall|k: int| 0 < k < r.len() implies (#[trigger] r[k]).from_block == r[k - 1].to_block
            + 1 && r[k - 1].syncer_index < r[k].syncer_index by {
            assert(r[k] == rest[k - 1]);
            if k > 1 {
                assert(r[k - 1] == rest[k - 2]);
                assert(rest[k - 1].from_block == rest[k - 2].to_block + 1);
            } else {
                assert(rest[0].from_block == end + 1);
                assert(rest[0].syncer_index >= i + 1);
            }
        }
        assert forall|b: nat, j: int|
            #![trigger latests[j], covered(r, b)]
            i <= j < latests.len() && current <= b <= to && b <= latests[j] implies covered(
            r,
            b,
        ) by {
            if b <= end {
                assert(r[0] == first);
            } else {
                assert(j != i);
                assert(covered(rest, b));
                let k = choose|k: int| 0 <= k < rest.len() && (#[trigger] rest[k]).from_block <= b <= rest[k].to_block;
                assert(r[k + 1] == rest[k]);
            }
        }
    }
}

/// The ranges a chained syncer requests are well chained: each lies within
/// the request, asks its syncer for no block beyond the latest one that
/// syncer reported, and they follow one another without gap or overlap from
/// `from_block` on, in the syncers' priority order. And no block is lost:
/// every block of the request that some syncer has lies in one of them.
pub proof fn lemma_chained_ranges(latests: Seq<u64>, from_block: u64, to_block: u64)
    requires
        latests.len() <= usize::MAX,
    ensures
        well_chained(chained_ranges(latests, from_block, to_block), latests, from_block as nat, to_block as nat),
        forall|b: nat, j: int|
            #![trigger latests[j], covered(chained_ranges(latests, from_block, to_block), b)]
            0 <= j < latests.len() && from_block <= b <= to_block && b <= latests[j] ==> covered(
                chained_ranges(latests, from_block, to_block),
                b,
            ),
{
    lemma_chained_ranges_from(latests, 0, from_block as nat, to_block as nat);
}

} // verus!

verus! {

/// The last block of the batch that starts at `current`: `batch_size` blocks
/// on (at least one), but not beyond `to`.
pub open spec fn batch_end(current: nat, batch_size: nat, to: nat) -> nat {
    let span: nat = if batch_size > 0 {
        (batch_size - 1) as nat
    } else {
        0
    };
    min_nat(current + span, to)
}

/// The batches `(first, last)` in which the blocks `current..=to` are
/// fetched, `batch_size` blocks at a time.
pub open spec fn batches_from(current: nat, to: nat, batch_size: nat) -> Seq<(u64, u64)>
    decreases to + 1 - current,
{
    if current > to {
        Seq::empty()
    } else {
        let end = batch_end(current, batch_size, to);
        seq![(current as u64, end as u64)] + batches_from(end + 1, to, batch_size)
    }
}

/// The progress of an RPC sync over a block range: the next block to fetch.
pub struct BatchCursor {
    pub next_block: u64,
    pub to_block: u64,
    pub batch_size: u64,
    pub done: bool,
}

impl BatchCursor {
    /// The batches still to be fetched.
    pub open spec fn remaining(self) -> Seq<(u64, u64)> {
        if self.done {
            Seq::empty()
        } else {
            batches_from(self.next_block as nat, self.to_block as nat, self.batch_size as nat)
        }
    }

    /// Starts fetching the blocks `from_block..=to_block` in batches of
    /// `batch_size` blocks. The block after `to_block` is where the cursor
    /// ends, so `to_block` must be below `u64::MAX`.
    pub fn new(from_block: u64, to_block: u64, batch_size: u64) -> (c: BatchCursor)
        requires
            to_block < u64::MAX,
        ensures
            c.to_block == to_block,
            c.batch_size == batch_size,
            c.remaining() == batches_from(from_block as nat, to_block as nat, batch_size as nat),
    {
        BatchCursor { next_block: from_block, to_block, batch_size, done: false }
    }

    /// The next batch to fetch, or `None` when the range is done.
    pub fn next_batch(&mut self) -> (r: Option<(u64, u64)>)
        requires
            old(self).to_block < u64::MAX,
        ensures
            final(self).to_block == old(self).to_block,
            final(self).batch_size == old(self).batch_size,
            old(self).remaining() == (match r {
                Some(b) => seq![b],
                None => Seq::empty(),
            }) + final(self).remaining(),
            r is None ==> final(self).remaining() == Seq::<(u64, u64)>::empty(),
    {
        if self.done || self.next_block > self.to_block {
            self.done = true;
            assert(Seq::<(u64, u64)>::empty() + self.remaining() =~= old(self).remaining());
            return None;
        }
        let current = self.next_block;
        let span = self.batch_size.saturating_sub(1);
        let reach = current.saturating_add(span);
        let end = if reach < self.to_block {
            reach
        } else {
            self.to_block
        };
        self.next_block = end + 1;
        Some((current, end))
    }

    /// Ends the sync, as a failed log query does: the rest of the range is not
    /// fetched.
    pub fn fail(&mut self)
        ensures
            final(self).remaining() == Seq::<(u64, u64)>::empty(),
            final(self).to_block == old(self).to_block,
    {
        self.done = true;
    }
}

/// The number of blocks an RPC syncer asks logs for at a time by default.
pub const DEFAULT_RPC_BATCH_SIZE: u64 = 2000;

/// The settings of a syncer that reads a pool's events from an RPC node: the
/// pool contract whose logs it asks for, and how many blocks at a time.
#[derive(Clone, Copy, Debug)]
pub struct RpcSyncer {
    pub contract_address: Address,
    pub batch_size: u64,
}

impl RpcSyncer {
    /// A syncer of the logs of `contract_address`, 2000 blocks at a time.
    pub fn new(contract_address: Address) -> (r: RpcSyncer)
        ensures
            r.contract_address == contract_address,
            r.batch_size == DEFAULT_RPC_BATCH_SIZE,
    {
        RpcSyncer { contract_address, batch_size: DEFAULT_RPC_BATCH_SIZE }
    }

    /// The same syncer, `batch_size` blocks at a time.
    pub fn with_batch_size(self, batch_size: u64) -> (r: RpcSyncer)
        ensures
            r.contract_address == self.contract_address,
            r.batch_size == batch_size,
    {
        RpcSyncer { contract_address: self.contract_address, batch_size }
    }

    /// The batches in which the syncer fetches the logs of the blocks
    /// `from_block..=to_block`.
    pub fn batches(&self, from_block: u64, to_block: u64) -> (c: BatchCursor)
        requires
            to_block < u64::MAX,
        ensures
            c.to_block == to_block,
            c.batch_size == self.batch_size,
            c.remaining() == batches_from(from_block as nat, to_block as nat, self.batch_size as nat),
    {
        BatchCursor::new(from_block, to_block, self.batch_size)
    }
}

/// The batches of `batches_from(current, to, batch_size)` cover `current..=to`
/// one after another without gap or overlap, each of at most `batch_size`
/// blocks (one where `batch_size` is 0), and the last one ends at `to`.
proof fn lemma_batches_from(current: nat, to: nat, batch_size: nat)
    requires
        to < u64::MAX,
    ensures
        ({
            let b = batches_from(current, to, batch_size);
            &&& (b.len() == 0 <==> current > to)
            &&& b.len() > 0 ==> b[0].0 == current && b.last().1 == to
            &&& forall|k: int|
                0 <= k < b.len() ==> {
                    let x = #[trigger] b[k];
                    &&& current <= x.0 <= x.1 <= to
                    &&& x.1 - x.0 < if batch_size > 0 {
                        batch_size as int
                    } else {
                        1
                    }
                }
            &&& forall|k: int| 0 < k < b.len() ==> (#[trigger] b[k]).0 == b[k - 1].1 + 1
        }),
    decreases to + 1 - current,
{
    if current <= to {
        let end = batch_end(current, batch_size, to);
        let rest = batches_from(end + 1, to, batch_size);
        lemma_batches_from(end + 1, to, batch_size);
        let b = batches_from(current, to, batch_size);
        assert(b == seq![(current as u64, end as u64)] + rest);
        assert forall|k: int| 0 < k < b.len() implies (#[trigger] b[k]).0 == b[k - 1].1 + 1 by {
            assert(b[k] == rest[k - 1]);
            if k > 1 {
                assert(b[k - 1] == rest[k - 2]);
            }
        }
        assert forall|k: int| 0 <= k < b.len() implies {
            let x = #[trigger] b[k];
            &&& current <= x.0 <= x.1 <= to
            &&& x.1 - x.0 < if batch_size > 0 {
                batch_size as int
            } else {
                1
            }
        } by {
            if k > 0 {
                assert(b[k] == rest[k - 1]);
            }
        }
        if rest.len() > 0 {
            assert(b.last() == rest.last());
        }
    }
}

/// The batches of an RPC sync of `from_block..=to_block` cover the range one
/// after another without gap or overlap, each of at most `batch_size` blocks
/// (one where `batch_size` is 0); the first starts at `from_block` and the
/// last ends at `to_block`, and there are none when the range is empty.
pub proof fn lemma_batches_partition(from_block: u64, to_block: u64, batch_size: u64)
    requires
        to_block < u64::MAX,
    ensures
        ({
            let b = batches_from(from_block as nat, to_block as nat, batch_size as nat);
            &&& (b.len() == 0 <==> from_block > to_block)
            &&& b.len() > 0 ==> b[0].0 == from_block && b.last().1 == to_block
            &&& forall|k: int|
                0 <= k < b.len() ==> {
                    let x = #[trigger] b[k];
                    &&& from_block <= x.0 <= x.1 <= to_block
                    &&& x.1 - x.0 < if batch_size > 0 {
                        batch_size as int
                    } else {
                        1
                    }
                }
            &&& forall|k: int| 0 < k < b.len() ==> (#[trigger] b[k]).0 == b[k - 1].1 + 1
        }),
{
    lemma_batches_from(from_block as nat, to_block as nat, batch_size as nat);
}

} // verus!

//! Broadcasting proved Railgun transactions: the transaction ready to go
//! through a broadcaster, and what a provider concludes from the race between
//! the broadcaster's answer and its own indexer.

use crate::bindings::somes;
use crate::primitives::B256;
use crate::railgun::{railgun_error_message, RailgunProviderError};
use vstd::prelude::*;
use vstd::string::StringExecFns;

verus! {

/// A transaction that is ready to be broadcast through a broadcaster; once
/// it is sent, its operations are registered with `submitter`, whose proofs
/// of innocence are still pending.
pub struct BroadcastableTx<'a, T, B, S> {
    inner: T,
    broadcaster: B,
    submitter: &'a mut S,
}

impl<'a, T, B, S> BroadcastableTx<'a, T, B, S> {
    /// The proved transaction.
    pub closed spec fn spec_inner(self) -> T {
        self.inner
    }

    /// The broadcaster it goes through.
    pub closed spec fn spec_broadcaster(self) -> B {
        self.broadcaster
    }

    /// The submitter of pending proofs, as it is now.
    pub closed spec fn spec_submitter(self) -> S {
        *self.submitter
    }

    pub fn new(inner: T, broadcaster: B, submitter: &'a mut S) -> (r: BroadcastableTx<'a, T, B, S>)
        ensures
            r.spec_inner() == inner,
            r.spec_broadcaster() == broadcaster,
            r.spec_submitter() == *old(submitter),
    {
        BroadcastableTx { inner, broadcaster, submitter }
    }

    /// The transaction, the broadcaster and the submitter, to send it.
    pub fn into_parts(self) -> (r: (T, B, &'a mut S))
        ensures
            r.0 == self.spec_inner(),
            r.1 == self.spec_broadcaster(),
            *r.2 == self.spec_submitter(),
    {
        (self.inner, self.broadcaster, self.submitter)
    }
}

/// Why the indexer stopped waiting for a transaction's commitments.
#[derive(Debug)]
pub enum IndexerWaitError {
    /// The commitments did not show up in time.
    Timeout,
    /// The indexer failed, with the underlying error's message.
    Other(String),
}

/// Which side of the race between a broadcaster and the indexer finished
/// first, and how.
#[derive(Debug)]
pub enum BroadcastRace {
    /// The broadcaster answered with the transaction's hash.
    BroadcasterSent(B256),
    /// The broadcaster answered with an error, with its message.
    BroadcasterFailed(String),
    /// The indexer found the transaction's commitments on chain.
    IndexerFound,
    /// The indexer gave up.
    IndexerFailed(IndexerWaitError),
}

/// Why an operation of a provider with proofs of innocence failed.
#[derive(Debug)]
pub enum PoiProviderError {
    /// The Railgun provider underneath failed.
    RailgunProvider(RailgunProviderError),
    /// The indexer of transaction ids failed.
    TxidIndexer(String),
    /// A pending proof could not be handed to the POI service.
    PoiClient(String),
    /// The transaction could not be built.
    Build(String),
    /// The broadcaster reported an error.
    Broadcast(String),
    /// The operation did not land on chain in time.
    Timeout,
}

/// What a provider concludes from the race between the broadcaster and its
/// indexer: the transaction went through when either side says so; a
/// broadcaster's error is passed on, an indexer's timeout is a timeout, and
/// any other failure of the indexer is an error of the indexer underneath.
pub fn broadcast_outcome(race: BroadcastRace) -> (r: Result<(), PoiProviderError>)
    ensures
        (race is BroadcasterSent || race is IndexerFound) <==> r is Ok,
        race matches BroadcastRace::BroadcasterFailed(m) ==> (r matches Err(PoiProviderError::Broadcast(m2))
            && m2@ == m@),
        race matches BroadcastRace::IndexerFailed(IndexerWaitError::Timeout) ==> (r matches Err(
            PoiProviderError::Timeout,
        )),
        race matches BroadcastRace::IndexerFailed(IndexerWaitError::Other(m)) ==> (r matches Err(
            PoiProviderError::RailgunProvider(RailgunProviderError::UtxoIndexer(m2)),
        ) && m2@ == m@),
{
    match race {
        BroadcastRace::BroadcasterSent(_) => Ok(()),
        BroadcastRace::BroadcasterFailed(m) => Err(PoiProviderError::Broadcast(m)),
        BroadcastRace::IndexerFound => Ok(()),
        BroadcastRace::IndexerFailed(e) => match e {
            IndexerWaitError::Timeout => Err(PoiProviderError::Timeout),
            IndexerWaitError::Other(m) => Err(
                PoiProviderError::RailgunProvider(RailgunProviderError::UtxoIndexer(m)),
            ),
        },
    }
}

impl PoiProviderError {
    /// The error's message, naming the step that failed.
    pub fn to_string(&self) -> (r: String)
        ensures
            r@ == (match self {
                PoiProviderError::RailgunProvider(e) => "Railgun provider error: "@ + railgun_error_message(*e),
                PoiProviderError::TxidIndexer(m) => "Txid indexer error: "@ + m@,
                PoiProviderError::PoiClient(m) => "Pending POI error: "@ + m@,
                PoiProviderError::Build(m) => "Build error: "@ + m@,
                PoiProviderError::Broadcast(m) => "Broadcast error: "@ + m@,
                PoiProviderError::Timeout => "Timed out waiting for operation to land on-chain"@,
            }),
    {
        match self {
            PoiProviderError::RailgunProvider(e) => {
                let inner = e.to_string();
                String::from_str("Railgun provider error: ").concat(inner.as_str())
            },
            PoiProviderError::TxidIndexer(m) => String::from_str("Txid indexer error: ").concat(m.as_str()),
            PoiProviderError::PoiClient(m) => String::from_str("Pending POI error: ").concat(m.as_str()),
            PoiProviderError::Build(m) => String::from_str("Build error: ").concat(m.as_str()),
            PoiProviderError::Broadcast(m) => String::from_str("Broadcast error: ").concat(m.as_str()),
            PoiProviderError::Timeout => String::from_str("Timed out waiting for operation to land on-chain"),
        }
    }
}

/// The wait until the transaction ids of a transaction's operations are
/// indexed: the ids still to be seen, the last one checked first.
pub struct IndexWait {
    remaining: Vec<B256>,
}

impl IndexWait {
    /// The ids still to be seen.
    pub closed spec fn spec_remaining(self) -> Seq<B256> {
        self.remaining@
    }

    /// A wait for the ids of the operations whose ids are `txids`; an
    /// operation without an id is not waited for.
    pub fn new(txids: Vec<Option<B256>>) -> (r: IndexWait)
        ensures
            r.spec_remaining() == somes(txids@),
    {
        let ghost all = txids@;
        let mut rest = txids;
        let mut remaining: Vec<B256> = Vec::new();
        let ghost mut done: int = 0;
        while rest.len() > 0
            invariant
                0 <= done <= all.len(),
                rest@ == all.subrange(done, all.len() as int),
                remaining@ == somes(all.subrange(0, done)),
            decreases rest@.len(),
        {
            let first = rest.remove(0);
            proof {
                let next = all.subrange(0, done + 1);
                assert(next.drop_last() =~= all.subrange(0, done));
                assert(next.last() == first);
            }
            match first {
                Some(t) => {
                    remaining.push(t);
                },
                None => {},
            }
            proof {
                done = done + 1;
                assert(rest@ =~= all.subrange(done, all.len() as int));
            }
        }
        assert(all.subrange(0, done) =~= all);
        IndexWait { remaining }
    }

    /// The id to check next, or `None` when every id has been seen.
    pub fn next_txid(&self) -> (r: Option<B256>)
        ensures
            self.spec_remaining().len() == 0 ==> r is None,
            self.spec_remaining().len() > 0 ==> r == Some(self.spec_remaining().last()),
    {
        if self.remaining.len() == 0 {
            None
        } else {
            Some(self.remaining[self.remaining.len() - 1])
        }
    }

    /// Takes whether the id given by `next_txid` is indexed: an indexed id
    /// is no longer waited for; otherwise it is checked again after the next
    /// sync.
    pub fn on_checked(&mut self, indexed: bool)
        requires
            old(self).spec_remaining().len() > 0,
        ensures
            indexed ==> final(self).spec_remaining() == old(self).spec_remaining().drop_last(),
            !indexed ==> final(self).spec_remaining() == old(self).spec_remaining(),
    {
        if indexed {
            self.remaining.pop();
        }
    }
}

} // verus!

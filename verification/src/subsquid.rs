//! The Subsquid syncer's decisions: its settings, the paging of its GraphQL
//! queries by id, the retry policy of its requests, and how it reads a
//! GraphQL reply. The requests themselves are sent by the caller.

use vstd::prelude::*;
use vstd::string::StringExecFns;

verus! {

/// The number of entities asked for per page by default.
pub const DEFAULT_BATCH_SIZE: u64 = 20000;

/// The number of times a failed request is tried again by default.
pub const DEFAULT_MAX_RETRIES: usize = 3;

/// The wait before a request is tried again, in milliseconds, by default.
pub const DEFAULT_RETRY_DELAY_MS: u64 = 1000;

/// The settings of a syncer that reads from a Subsquid GraphQL endpoint.
#[derive(Debug)]
pub struct SubsquidSyncer {
    pub url: String,
    pub batch_size: u64,
    pub max_retries: usize,
    pub retry_delay_ms: u64,
}

impl SubsquidSyncer {
    /// A syncer of the endpoint `url`, with pages of 20000 entities and up to
    /// 3 retries one second apart.
    pub fn new(url: &str) -> (r: SubsquidSyncer)
        ensures
            r.url@ == url@,
            r.batch_size == DEFAULT_BATCH_SIZE,
            r.max_retries == DEFAULT_MAX_RETRIES,
            r.retry_delay_ms == DEFAULT_RETRY_DELAY_MS,
    {
        SubsquidSyncer {
            url: String::from_str(url),
            batch_size: DEFAULT_BATCH_SIZE,
            max_retries: DEFAULT_MAX_RETRIES,
            retry_delay_ms: DEFAULT_RETRY_DELAY_MS,
        }
    }

    /// The same syncer with pages of `batch_size` entities.
    pub fn with_batch_size(self, batch_size: u64) -> (r: SubsquidSyncer)
        ensures
            r.url == self.url,
            r.batch_size == batch_size,
            r.max_retries == self.max_retries,
            r.retry_delay_ms == self.retry_delay_ms,
    {
        let mut s = self;
        s.batch_size = batch_size;
        s
    }

    /// The same syncer with up to `max_retries` retries, `retry_delay_ms`
    /// milliseconds apart.
    pub fn with_retry_policy(self, max_retries: usize, retry_delay_ms: u64) -> (r: SubsquidSyncer)
        ensures
            r.url == self.url,
            r.batch_size == self.batch_size,
            r.max_retries == max_retries,
            r.retry_delay_ms == retry_delay_ms,
    {
        let mut s = self;
        s.max_retries = max_retries;
        s.retry_delay_ms = retry_delay_ms;
        s
    }
}

/// The variables of a paged query: the entities with an id after `id_gt`,
/// in the blocks `block_number_gte..=block_number_lte`, at most `limit` of
/// them.
#[derive(Debug)]
pub struct QueryVars {
    pub id_gt: String,
    pub block_number_gte: u64,
    pub block_number_lte: u64,
    pub limit: u64,
}

/// The walk through the pages of one query: the entities are asked for in
/// the order of their ids, each page after the last id of the page before,
/// until a page comes back empty.
pub struct Paginator<T> {
    from_block: u64,
    to_block: u64,
    limit: u64,
    id_gt: String,
    done: bool,
    items: Vec<T>,
}

/// What a [`Paginator`] holds: the id the next page starts after, whether
/// an empty page has come, and the entities gathered so far.
pub struct PaginatorView<T> {
    pub from_block: u64,
    pub to_block: u64,
    pub limit: u64,
    pub id_gt: Seq<char>,
    pub done: bool,
    pub items: Seq<T>,
}

impl<T> View for Paginator<T> {
    type V = PaginatorView<T>;

    closed spec fn view(&self) -> PaginatorView<T> {
        PaginatorView {
            from_block: self.from_block,
            to_block: self.to_block,
            limit: self.limit,
            id_gt: self.id_gt@,
            done: self.done,
            items: self.items@,
        }
    }
}

/// The entities of a page, without their ids.
pub open spec fn page_items<T>(page: Seq<(String, T)>) -> Seq<T> {
    page.map_values(|e: (String, T)| e.1)
}

impl<T> Paginator<T> {
    /// The walk through the entities of the blocks `from_block..=to_block`,
    /// `syncer.batch_size` at a time, from the first id on.
    pub fn new(syncer: &SubsquidSyncer, from_block: u64, to_block: u64) -> (r: Paginator<T>)
        ensures
            r@.from_block == from_block,
            r@.to_block == to_block,
            r@.limit == syncer.batch_size,
            r@.id_gt == Seq::<char>::empty(),
            !r@.done,
            r@.items == Seq::<T>::empty(),
    {
        Paginator {
            from_block,
            to_block,
            limit: syncer.batch_size,
            id_gt: String::new(),
            done: false,
            items: Vec::new(),
        }
    }

    /// Whether an empty page has come: there is nothing more to ask for.
    pub fn is_done(&self) -> (r: bool)
        ensures
            r == self@.done,
    {
        self.done
    }

    /// The variables of the next page's query.
    pub fn query(&self) -> (r: QueryVars)
        ensures
            r.id_gt@ == self@.id_gt,
            r.block_number_gte == self@.from_block,
            r.block_number_lte == self@.to_block,
            r.limit == self@.limit,
    {
        QueryVars {
            id_gt: self.id_gt.clone(),
            block_number_gte: self.from_block,
            block_number_lte: self.to_block,
            limit: self.limit,
        }
    }

    /// Takes in a page, as (id, entity) pairs in id order. An empty page ends
    /// the walk; otherwise its entities are kept and the next page starts
    /// after its last id.
    pub fn on_page(&mut self, page: Vec<(String, T)>)
        requires
            !old(self)@.done,
        ensures
            final(self)@.from_block == old(self)@.from_block,
            final(self)@.to_block == old(self)@.to_block,
            final(self)@.limit == old(self)@.limit,
            page@.len() == 0 ==> final(self)@.done && final(self)@.items == old(self)@.items
                && final(self)@.id_gt == old(self)@.id_gt,
            page@.len() > 0 ==> !final(self)@.done && final(self)@.items == old(self)@.items
                + page_items(page@) && final(self)@.id_gt == page@.last().0@,
    {
        if page.len() == 0 {
            self.done = true;
            return;
        }
        let ghost old_items = self.items@;
        let ghost last_id = page@.last().0@;
        let mut rest = page;
        let ghost all = rest@;
        let ghost mut taken: int = 0;
        while rest.len() > 0
            invariant
                0 <= taken <= all.len(),
                rest@ == all.subrange(taken, all.len() as int),
                self.items@ == old_items + page_items(all.subrange(0, taken)),
                taken < all.len() ==> self.id_gt@ == old(self).id_gt@,
                taken == all.len() && all.len() > 0 ==> self.id_gt@ == last_id,
                all.len() > 0,
                last_id == all.last().0@,
                self.from_block == old(self).from_block,
                self.to_block == old(self).to_block,
                self.limit == old(self).limit,
                !self.done,
            decreases rest@.len(),
        {
            let (id, item) = rest.remove(0);
            proof {
                assert(all[taken] == (id, item));
                assert(page_items(all.subrange(0, taken + 1)) =~= page_items(all.subrange(0, taken)).push(
                    item,
                ));
            }
            self.items.push(item);
            if rest.len() == 0 {
                proof {
                    assert(taken + 1 == all.len());
                }
                self.id_gt = id;
            }
            proof {
                taken = taken + 1;
                assert(rest@ =~= all.subrange(taken, all.len() as int));
            }
        }
        assert(all.subrange(0, all.len() as int) =~= all);
    }

    /// The entities gathered, in the order of the pages.
    pub fn into_items(self) -> (r: Vec<T>)
        ensures
            r@ == self@.items,
    {
        self.items
    }
}

/// The events of a sync: the commitments, then the nullifiers.
pub fn sync_events<T>(commitments: Vec<T>, nullifiers: Vec<T>) -> (r: Vec<T>)
    ensures
        r@ == commitments@ + nullifiers@,
{
    let mut events = commitments;
    let mut rest = nullifiers;
    events.append(&mut rest);
    events
}

/// The latest block that the endpoint has indexed: the block of the latest
/// transaction it returns, or 0 when it returns none.
pub fn latest_block(block_numbers: &Vec<u64>) -> (r: u64)
    ensures
        block_numbers@.len() == 0 ==> r == 0,
        block_numbers@.len() > 0 ==> r == block_numbers@[0],
{
    if block_numbers.len() == 0 {
        0
    } else {
        block_numbers[0]
    }
}

/// How many times a request has failed, and how many retries it is allowed.
pub struct RetryState {
    attempt: usize,
    max_retries: usize,
}

impl RetryState {
    /// The retries made so far.
    pub closed spec fn spec_attempt(self) -> usize {
        self.attempt
    }

    /// The retries allowed.
    pub closed spec fn spec_max_retries(self) -> usize {
        self.max_retries
    }

    /// A request not tried yet, allowed `syncer.max_retries` retries.
    pub fn new(syncer: &SubsquidSyncer) -> (r: RetryState)
        ensures
            r.spec_attempt() == 0,
            r.spec_max_retries() == syncer.max_retries,
    {
        RetryState { attempt: 0, max_retries: syncer.max_retries }
    }

    /// The request failed again: whether to try it once more (after the
    /// syncer's delay). It is given up, and its error returned, once it has
    /// failed one time more than the retries allowed.
    pub fn on_failure(&mut self) -> (retry: bool)
        ensures
            is_failure_step(*old(self), *final(self), retry),
    {
        if self.attempt >= self.max_retries {
            false
        } else {
            self.attempt = self.attempt + 1;
            true
        }
    }
}

/// Whether `after` and `retry` are what [`RetryState::on_failure`] gives
/// from `before`.
pub open spec fn is_failure_step(before: RetryState, after: RetryState, retry: bool) -> bool {
    &&& after.spec_max_retries() == before.spec_max_retries()
    &&& retry == (before.spec_attempt() + 1 <= before.spec_max_retries())
    &&& retry ==> after.spec_attempt() == before.spec_attempt() + 1
    &&& !retry ==> after.spec_attempt() == before.spec_attempt()
}

/// A request that fails every time is tried `max_retries + 1` times: from a
/// fresh retry state, each of the first `max_retries` failures is retried and
/// the next one is given up.
pub proof fn lemma_retry_budget(states: Seq<RetryState>, answers: Seq<bool>)
    requires
        states.len() == answers.len() + 1,
        states[0].spec_attempt() == 0,
        forall|i: int| 0 <= i < answers.len() ==> is_failure_step(states[i], states[i + 1], #[trigger] answers[i]),
        forall|i: int| 0 <= i < answers.len() - 1 ==> #[trigger] answers[i],
    ensures
        forall|i: int| 0 <= i < answers.len() ==> #[trigger] answers[i] == (i < states[0].spec_max_retries()),
{
    let max = states[0].spec_max_retries();
    assert forall|i: int| 0 <= i < answers.len() implies states[i].spec_attempt() == i
        && states[i].spec_max_retries() == max by {
        lemma_retry_prefix(states, answers, i);
    }
    assert forall|i: int| 0 <= i < answers.len() implies #[trigger] answers[i] == (i < max) by {
        assert(is_failure_step(states[i], states[i + 1], answers[i]));
    }
}

proof fn lemma_retry_prefix(states: Seq<RetryState>, answers: Seq<bool>, i: int)
    requires
        states.len() == answers.len() + 1,
        states[0].spec_attempt() == 0,
        forall|k: int| 0 <= k < answers.len() ==> is_failure_step(states[k], states[k + 1], #[trigger] answers[k]),
        forall|k: int| 0 <= k < answers.len() - 1 ==> #[trigger] answers[k],
        0 <= i < answers.len(),
    ensures
        states[i].spec_attempt() == i,
        states[i].spec_max_retries() == states[0].spec_max_retries(),
    decreases i,
{
    if i > 0 {
        lemma_retry_prefix(states, answers, i - 1);
        assert(answers[i - 1]);
        assert(is_failure_step(states[i - 1], states[i], answers[i - 1]));
    }
}

/// Why the Subsquid syncer failed, with the underlying error's message.
#[derive(Debug)]
pub enum SubsquidSyncerError {
    /// A query or a reply could not be (de)serialised.
    Serde(String),
    /// The request could not be sent or its reply not read.
    Http(String),
    /// The endpoint answered with a status other than success, and this text.
    Request(u16, String),
    /// The endpoint answered with GraphQL errors, or without data.
    GraphQL(String),
}

/// `parts` joined with `sep` between each two.
pub open spec fn joined(parts: Seq<Seq<char>>, sep: Seq<char>) -> Seq<char>
    decreases parts.len(),
{
    if parts.len() == 0 {
        Seq::empty()
    } else if parts.len() == 1 {
        parts[0]
    } else {
        joined(parts.drop_last(), sep) + sep + parts.last()
    }
}

/// The messages of `errors`.
pub open spec fn messages(errors: Seq<String>) -> Seq<Seq<char>> {
    errors.map_values(|e: String| e@)
}

/// The messages of GraphQL errors, joined with `"; "`.
pub fn join_messages(errors: &Vec<String>) -> (r: String)
    ensures
        r@ == joined(messages(errors@), "; "@),
{
    let mut out = String::new();
    let n = errors.len();
    let mut i: usize = 0;
    while i < n
        invariant
            i <= n == errors@.len(),
            out@ == joined(messages(errors@.subrange(0, i as int)), "; "@),
        decreases n - i,
    {
        let ghost before = messages(errors@.subrange(0, i as int));
        let ghost after = messages(errors@.subrange(0, i + 1));
        proof {
            assert(after.drop_last() =~= before);
            assert(after.last() == errors@[i as int]@);
        }
        if i > 0 {
            out.append("; ");
        }
        out.append(errors[i].as_str());
        proof {
            if i == 0 {
                assert(after.len() == 1);
                assert(out@ =~= after[0]);
            } else {
                assert(out@ =~= joined(before, "; "@) + "; "@ + after.last());
            }
        }
        i = i + 1;
    }
    assert(errors@.subrange(0, n as int) =~= errors@);
    out
}

/// Whether an HTTP status code is a success (`200..=299`).
pub open spec fn is_success_status(status: u16) -> bool {
    200 <= status && status <= 299
}

/// Reads the status of a reply: a status other than success is an error
/// that carries the status and the reply's text.
pub fn check_status(status: u16, text: String) -> (r: Result<(), SubsquidSyncerError>)
    ensures
        is_success_status(status) <==> r is Ok,
        !is_success_status(status) ==> (r matches Err(SubsquidSyncerError::Request(s, t)) && s
            == status && t@ == text@),
{
    if 200 <= status && status <= 299 {
        Ok(())
    } else {
        Err(SubsquidSyncerError::Request(status, text))
    }
}

/// Reads a GraphQL reply: its errors, if it has any, are the error, their
/// messages joined with `"; "`; a reply without data is an error too.
pub fn graphql_result<R>(errors: Option<Vec<String>>, data: Option<R>) -> (r: Result<
    R,
    SubsquidSyncerError,
>)
    ensures
        errors matches Some(es) ==> r matches Err(SubsquidSyncerError::GraphQL(m)) && m@ == joined(
            messages(es@),
            "; "@,
        ),
        errors is None && data is None ==> (r matches Err(SubsquidSyncerError::GraphQL(m)) && m@
            == "No data in response"@),
        errors is None && data is Some ==> r == Ok::<R, SubsquidSyncerError>(data->0),
{
    match errors {
        Some(es) => Err(SubsquidSyncerError::GraphQL(join_messages(&es))),
        None => match data {
            None => Err(SubsquidSyncerError::GraphQL(String::from_str("No data in response"))),
            Some(d) => Ok(d),
        },
    }
}

} // verus!

//! Records of the remote catalog, the file names of their cached copies, and
//! the resolver that keeps track of which ids were found in the cache, which
//! still have to be asked for, and what the remote service answered.
//!
//! Reading cache files and calling the service is the caller's part: the
//! resolver is told what came back and says what to ask for next.

use std::collections::HashMap;
use vstd::prelude::*;
use vstd::string::*;
use crate::text::{
    decimal_digits, decimal_value, lemma_decimal_round_trip, parse_u32, parse_unsigned,
    text_view, u64_to_decimal,
};

verus! {

/// Most ids that the remote service resolves in one call.
pub const BATCH_LIMIT: usize = 100;

/// One record of the remote catalog.
#[derive(Clone, Debug)]
pub struct CatalogItem {
    /// The item's id, in decimal, as the service spells it.
    pub publishedfileid: String,
    pub title: String,
    /// When the item was last updated, in seconds since the epoch.
    pub time_updated: u64,
    /// Declared size of the item's file in bytes, in decimal.
    pub file_size: String,
    /// Where the item's file can be fetched from.
    pub file_url: Option<String>,
}

/// Mathematical value of a [`CatalogItem`].
pub struct CatalogItemView {
    pub publishedfileid: Seq<char>,
    pub title: Seq<char>,
    pub time_updated: u64,
    pub file_size: Seq<char>,
    pub file_url: Option<Seq<char>>,
}

impl View for CatalogItem {
    type V = CatalogItemView;

    open spec fn view(&self) -> CatalogItemView {
        CatalogItemView {
            publishedfileid: self.publishedfileid@,
            title: self.title@,
            time_updated: self.time_updated,
            file_size: self.file_size@,
            file_url: text_view(self.file_url),
        }
    }
}

/// The id that a record is filed under: the number its `publishedfileid`
/// spells, where that is a number of at most 32 bits.
pub open spec fn item_id(item: CatalogItemView) -> Option<u32> {
    match parse_unsigned(item.publishedfileid, u32::MAX as nat) {
        Some(v) => Some(v as u32),
        None => None,
    }
}

impl CatalogItem {
    /// The id that the record is filed under; see [`item_id`].
    pub fn id(&self) -> (r: Option<u32>)
        ensures
            r == item_id(self@),
    {
        parse_u32(self.publishedfileid.as_str())
    }

    /// A copy of the record.
    pub fn duplicate(&self) -> (r: CatalogItem)
        ensures
            r@ == self@,
    {
        CatalogItem {
            publishedfileid: self.publishedfileid.clone(),
            title: self.title.clone(),
            time_updated: self.time_updated,
            file_size: self.file_size.clone(),
            file_url: match &self.file_url {
                Some(u) => Some(u.clone()),
                None => None,
            },
        }
    }
}

/// Name of the file that caches the record of `id`: the id in decimal
/// followed by `_ws.json`.
pub open spec fn cache_file_name_of(id: u32) -> Seq<char> {
    decimal_digits(id as nat) + "_ws.json"@
}

/// Builds the name of the cache file of `id`; see [`cache_file_name_of`].
pub fn cache_file_name(id: u32) -> (r: String)
    ensures
        r@ == cache_file_name_of(id),
{
    let mut name = u64_to_decimal(id as u64);
    name.append("_ws.json");
    name
}

/// Different ids are cached in different files.
pub proof fn lemma_cache_files_distinct(a: u32, b: u32)
    requires
        a != b,
    ensures
        cache_file_name_of(a) != cache_file_name_of(b),
{
    let x = decimal_digits(a as nat);
    let y = decimal_digits(b as nat);
    let tail = "_ws.json"@;
    lemma_decimal_round_trip(a as nat);
    lemma_decimal_round_trip(b as nat);
    if x + tail == y + tail {
        assert((x + tail).len() == (y + tail).len());
        assert(x.len() == y.len());
        assert(x =~= (x + tail).subrange(0, x.len() as int));
        assert(y =~= (y + tail).subrange(0, y.len() as int));
        assert(decimal_value(x) == decimal_value(y));
    }
}


/// A record together with where it came from.
#[derive(Debug)]
pub struct WorkshopResult {
    pub item: CatalogItem,
    /// Whether the record was read from the cache rather than fetched.
    pub cached: bool,
}

/// Mathematical value of a [`WorkshopResult`].
pub struct WorkshopResultView {
    pub item: CatalogItemView,
    pub cached: bool,
}

impl View for WorkshopResult {
    type V = WorkshopResultView;

    open spec fn view(&self) -> WorkshopResultView {
        WorkshopResultView { item: self.item@, cached: self.cached }
    }
}

/// Mathematical value of a [`CatalogResolver`].
pub struct ResolverView {
    /// The records found so far, by id.
    pub results: Map<u32, WorkshopResultView>,
    /// The ids that missed the cache and were not asked for yet, in the
    /// order they came.
    pub pending: Seq<u32>,
}

/// The state after the cache was consulted for `id` with outcome `cached`.
/// An id that is already resolved or pending changes nothing; a hit is
/// recorded as resolved; a miss is queued.
pub open spec fn with_candidate(
    state: ResolverView,
    id: u32,
    cached: Option<CatalogItemView>,
) -> ResolverView {
    if state.results.contains_key(id) || state.pending.contains(id) {
        state
    } else {
        match cached {
            Some(item) => ResolverView {
                results: state.results.insert(id, WorkshopResultView { item, cached: true }),
                pending: state.pending,
            },
            None => ResolverView { results: state.results, pending: state.pending.push(id) },
        }
    }
}

/// The state after a run of cache outcomes, taken in order.
pub open spec fn with_candidates(
    state: ResolverView,
    outcomes: Seq<(u32, Option<CatalogItemView>)>,
) -> ResolverView
    decreases outcomes.len(),
{
    if outcomes.len() == 0 {
        state
    } else {
        let last = outcomes.last();
        with_candidate(with_candidates(state, outcomes.drop_last()), last.0, last.1)
    }
}

/// Number of ids that the next batch takes from `pending` ids.
pub open spec fn batch_len(pending: nat) -> nat {
    if pending < BATCH_LIMIT {
        pending
    } else {
        BATCH_LIMIT as nat
    }
}

/// Number of batches it takes to ask for `pending` ids.
pub open spec fn batches_needed(pending: nat) -> nat {
    (pending + BATCH_LIMIT - 1) as nat / (BATCH_LIMIT as nat)
}

/// The state after the remote service returned `item`.  A record whose id
/// cannot be read is dropped; any other replaces what was known of its id.
pub open spec fn with_item(state: ResolverView, item: CatalogItemView) -> ResolverView {
    match item_id(item) {
        Some(id) => ResolverView {
            results: state.results.insert(id, WorkshopResultView { item, cached: false }),
            pending: state.pending,
        },
        None => state,
    }
}

/// The state after the remote service returned `items`, taken in order.
pub open spec fn with_items(state: ResolverView, items: Seq<CatalogItemView>) -> ResolverView
    decreases items.len(),
{
    if items.len() == 0 {
        state
    } else {
        with_item(with_items(state, items.drop_last()), items.last())
    }
}

/// The records of a map by their views.
pub open spec fn results_view(results: Map<u32, WorkshopResult>) -> Map<u32, WorkshopResultView> {
    results.map_values(|r: WorkshopResult| r@)
}

fn map_put(results: &mut HashMap<u32, WorkshopResult>, id: u32, found: WorkshopResult)
    ensures
        final(results)@ == old(results)@.insert(id, found),
        results_view(final(results)@) == results_view(old(results)@).insert(id, found@),
{
    broadcast use vstd::std_specs::hash::group_hash_axioms;

    results.insert(id, found);
    assert(results_view(results@) =~= results_view(old(results)@).insert(id, found@));
}

fn map_get<'a>(results: &'a HashMap<u32, WorkshopResult>, id: u32) -> (r: Option<&'a WorkshopResult>)
    ensures
        match r {
            Some(found) => results@.contains_key(id) && results@[id] == *found,
            None => !results@.contains_key(id),
        },
{
    broadcast use vstd::std_specs::hash::group_hash_axioms;

    results.get(&id)
}

/// Whether `id` is among `ids`.
pub fn contains_id(ids: &Vec<u32>, id: u32) -> (r: bool)
    ensures
        r == ids@.contains(id),
{
    let mut i: usize = 0;
    while i < ids.len()
        invariant
            i <= ids@.len(),
            forall|j: int| 0 <= j < i ==> ids@[j] != id,
        decreases ids@.len() - i,
    {
        if ids[i] == id {
            return true;
        }
        i = i + 1;
    }
    false
}

/// Keeps track of a resolve: which ids the cache answered, which ids wait
/// for the remote service, and what the service returned.
pub struct CatalogResolver {
    results: HashMap<u32, WorkshopResult>,
    pending: Vec<u32>,
}

impl View for CatalogResolver {
    type V = ResolverView;

    closed spec fn view(&self) -> ResolverView {
        ResolverView { results: results_view(self.results@), pending: self.pending@ }
    }
}

impl CatalogResolver {
    /// A resolver that knows no id yet.
    pub fn new() -> (r: CatalogResolver)
        ensures
            r@.results == Map::<u32, WorkshopResultView>::empty(),
            r@.pending == Seq::<u32>::empty(),
    {
        let r = CatalogResolver { results: HashMap::new(), pending: Vec::new() };
        assert(results_view(r.results@) =~= Map::<u32, WorkshopResultView>::empty());
        r
    }

    /// Whether `id` is already resolved or waiting, so that the cache need
    /// not be consulted for it again.
    pub fn knows(&self, id: u32) -> (r: bool)
        ensures
            r == (self@.results.contains_key(id) || self@.pending.contains(id)),
    {
        match map_get(&self.results, id) {
            Some(_) => true,
            None => contains_id(&self.pending, id),
        }
    }

    /// Takes in what the cache held for `id`; see [`with_candidate`].
    pub fn add_candidate(&mut self, id: u32, cached: Option<CatalogItem>)
        ensures
            final(self)@ == with_candidate(
                old(self)@,
                id,
                match cached {
                    Some(item) => Some(item@),
                    None => None,
                },
            ),
    {
        if self.knows(id) {
            return ;
        }
        match cached {
            Some(item) => {
                map_put(&mut self.results, id, WorkshopResult { item, cached: true });
            },
            None => {
                self.pending.push(id);
            },
        }
    }

    /// Number of ids that wait for the remote service.
    pub fn pending_len(&self) -> (n: usize)
        ensures
            n == self@.pending.len(),
    {
        self.pending.len()
    }

    /// Takes the next batch of ids to ask the remote service for: the
    /// oldest pending ids, at most [`BATCH_LIMIT`] of them.  The batch is
    /// empty exactly when nothing is pending.  Every batch that is not
    /// empty lowers the number of batches still needed by one.
    pub fn next_batch(&mut self) -> (batch: Vec<u32>)
        ensures
            batch@ == old(self)@.pending.take(batch_len(old(self)@.pending.len()) as int),
            final(self)@.pending == old(self)@.pending.skip(
                batch_len(old(self)@.pending.len()) as int,
            ),
            final(self)@.results == old(self)@.results,
            batches_needed(final(self)@.pending.len()) + (if batch@.len() > 0 {
                1nat
            } else {
                0nat
            }) == batches_needed(old(self)@.pending.len()),
    {
        let total = self.pending.len();
        let count = if total < BATCH_LIMIT {
            total
        } else {
            BATCH_LIMIT
        };
        let rest = self.pending.split_off(count);
        let mut batch = rest;
        std::mem::swap(&mut batch, &mut self.pending);
        proof {
            assert(batch@ =~= old(self)@.pending.take(count as int));
            assert(self.pending@ =~= old(self)@.pending.skip(count as int));
        }
        batch
    }

    /// Takes in one record that the remote service returned; see
    /// [`with_item`].  Returns the id whose cache file the record is to be
    /// written to, `None` for a record that was dropped.
    pub fn record_item(&mut self, item: CatalogItem) -> (r: Option<u32>)
        ensures
            r == item_id(item@),
            final(self)@ == with_item(old(self)@, item@),
    {
        match item.id() {
            Some(id) => {
                map_put(&mut self.results, id, WorkshopResult { item, cached: false });
                Some(id)
            },
            None => None,
        }
    }

    /// What is known of `id`.
    pub fn resolved(&self, id: u32) -> (r: Option<&WorkshopResult>)
        ensures
            match r {
                Some(found) => self@.results.contains_key(id) && self@.results[id] == found@,
                None => !self@.results.contains_key(id),
            },
    {
        map_get(&self.results, id)
    }
}

/// [`batches_needed`] is the number of ids divided by the limit, rounded up.
pub proof fn lemma_batches_needed(pending: nat)
    ensures
        batches_needed(pending) * BATCH_LIMIT >= pending,
        pending > 0 ==> (batches_needed(pending) - 1) * BATCH_LIMIT < pending,
        batches_needed(0) == 0,
{
}

/// Whatever the cache holds, consulting it for one more id keeps every
/// record that was already resolved.
pub proof fn lemma_candidate_keeps_results(
    state: ResolverView,
    id: u32,
    cached: Option<CatalogItemView>,
    known: u32,
)
    requires
        state.results.contains_key(known),
    ensures
        with_candidate(state, id, cached).results.contains_key(known),
        with_candidate(state, id, cached).results[known] == state.results[known],
{
}

/// What the remote service returns never removes an id from the results:
/// an id resolved by an earlier batch stays resolved whatever comes back
/// later, and also when nothing comes back.
pub proof fn lemma_items_keep_results(state: ResolverView, items: Seq<CatalogItemView>, known: u32)
    requires
        state.results.contains_key(known),
    ensures
        with_items(state, items).results.contains_key(known),
        with_items(state, items).pending == state.pending,
        with_items(state, Seq::empty()) == state,
    decreases items.len(),
{
    if items.len() > 0 {
        lemma_items_keep_results(state, items.drop_last(), known);
    }
}

/// Where the cache answers every id, nothing is left to ask the remote
/// service for: no batch is needed.
pub proof fn lemma_warm_cache_needs_no_batch(
    state: ResolverView,
    outcomes: Seq<(u32, Option<CatalogItemView>)>,
)
    requires
        state.pending.len() == 0,
        forall|i: int| 0 <= i < outcomes.len() ==> (#[trigger] outcomes[i]).1 is Some,
    ensures
        with_candidates(state, outcomes).pending.len() == 0,
        batches_needed(with_candidates(state, outcomes).pending.len()) == 0,
    decreases outcomes.len(),
{
    if outcomes.len() > 0 {
        let head = outcomes.drop_last();
        assert forall|i: int| 0 <= i < head.len() implies (#[trigger] head[i]).1 is Some by {
            assert(head[i] == outcomes[i]);
        }
        lemma_warm_cache_needs_no_batch(state, head);
    }
}


/// The state of a resolver that knows no id.
pub open spec fn empty_state() -> ResolverView {
    ResolverView { results: Map::empty(), pending: Seq::empty() }
}

/// Where the cache answers none of a run of distinct ids, every one of
/// them is queued, in order: asking for `n` such ids takes
/// `batches_needed(n)` batches.
#[verifier::rlimit(50)]
pub proof fn lemma_cold_cache_queues_every_id(outcomes: Seq<(u32, Option<CatalogItemView>)>)
    requires
        forall|i: int| 0 <= i < outcomes.len() ==> (#[trigger] outcomes[i]).1 is None,
        forall|i: int, j: int|
            0 <= i < j < outcomes.len() ==> (#[trigger] outcomes[i]).0 != (#[trigger] outcomes[j]).0,
    ensures
        with_candidates(empty_state(), outcomes).results == Map::<u32, WorkshopResultView>::empty(),
        with_candidates(empty_state(), outcomes).pending == Seq::new(
            outcomes.len(),
            |i: int| outcomes[i].0,
        ),
        batches_needed(with_candidates(empty_state(), outcomes).pending.len()) == batches_needed(
            outcomes.len(),
        ),
    decreases outcomes.len(),
{
    let ids = Seq::new(outcomes.len(), |i: int| outcomes[i].0);
    if outcomes.len() == 0 {
        assert(with_candidates(empty_state(), outcomes).pending =~= ids);
    } else {
        let head = outcomes.drop_last();
        let last = outcomes.last();
        assert forall|i: int| 0 <= i < head.len() implies (#[trigger] head[i]).1 is None by {
            assert(head[i] == outcomes[i]);
        }
        assert forall|i: int, j: int| 0 <= i < j < head.len() implies (#[trigger] head[i]).0 != (
        #[trigger] head[j]).0 by {
            assert(head[i] == outcomes[i]);
            assert(head[j] == outcomes[j]);
        }
        lemma_cold_cache_queues_every_id(head);
        let before = with_candidates(empty_state(), head);
        assert forall|k: int| 0 <= k < before.pending.len() implies before.pending[k] != last.0 by {
            assert(before.pending[k] == head[k].0);
            assert(head[k] == outcomes[k]);
            assert(outcomes[outcomes.len() - 1] == last);
        }
        assert(!before.pending.contains(last.0));
        assert(with_candidates(empty_state(), outcomes).pending =~= ids);
    }
}

/// A record read back from the cache resolves its id to the same record
/// that the remote service returned for it.
pub proof fn lemma_cached_record_resolves_alike(
    earlier: ResolverView,
    later: ResolverView,
    item: CatalogItemView,
)
    requires
        item_id(item) is Some,
        !later.results.contains_key(item_id(item)->0),
        !later.pending.contains(item_id(item)->0),
    ensures
        with_item(earlier, item).results[item_id(item)->0].item == item,
        with_candidate(later, item_id(item)->0, Some(item)).results[item_id(item)->0].item == item,
{
}

} // verus!

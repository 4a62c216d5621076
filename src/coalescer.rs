use vstd::prelude::*;
use crate::keyed::StringMap;

verus! {

/// Why a coalesced call got no result.
#[derive(Clone, Copy, Debug, PartialEq, Eq)]
pub enum CoalescingError {
    /// The lock that guards the table of groups was abandoned by a holder
    /// that failed.
    PoisonError,
    /// The group was closed before its result was published.
    RecvError,
}

/// The groups in flight, at most one per key. A group is whatever the caller
/// publishes a result through (a one-shot broadcast channel): the first caller
/// for a key opens it and does the work, the callers that arrive while it is
/// open wait on it, and the worker closes it before publishing, so that a
/// caller that comes after starts afresh.
pub struct Coalescer<G> {
    inflight: StringMap<G>,
}

/// The table after a caller with a fresh group `group` arrives for `key`: an
/// open group is kept, else the fresh one is opened.
pub open spec fn joined<G>(m: Map<Seq<char>, G>, key: Seq<char>, group: G) -> Map<Seq<char>, G> {
    if m.contains_key(key) {
        m
    } else {
        m.insert(key, group)
    }
}

/// The table after the callers with fresh groups `groups` arrived for `key`,
/// one after the other, with no worker finishing in between.
pub open spec fn joined_all<G>(m: Map<Seq<char>, G>, key: Seq<char>, groups: Seq<G>) -> Map<
    Seq<char>,
    G,
>
    decreases groups.len(),
{
    if groups.len() == 0 {
        m
    } else {
        joined(joined_all(m, key, groups.drop_last()), key, groups.last())
    }
}

/// Whether caller `i` of `groups` finds no group open for `key`, and so is
/// the one that runs the work.
pub open spec fn runs_work<G>(m: Map<Seq<char>, G>, key: Seq<char>, groups: Seq<G>, i: int) -> bool {
    !joined_all(m, key, groups.take(i)).contains_key(key)
}

impl<G> Coalescer<G> {
    pub closed spec fn wf(&self) -> bool {
        self.inflight.wf()
    }

    /// The open group of each key in flight.
    pub closed spec fn view(&self) -> Map<Seq<char>, G> {
        self.inflight@
    }

    pub fn new() -> (r: Coalescer<G>)
        ensures
            r.wf(),
            r@ == Map::<Seq<char>, G>::empty(),
    {
        Coalescer { inflight: StringMap::new() }
    }

    /// A caller arrives for `key` with a fresh `group`. If a group is open for
    /// `key` the caller gets a clone of it to wait on and the fresh one is
    /// dropped; else the fresh group is opened and `None` tells the caller to
    /// run the work.
    pub fn join(&mut self, key: String, group: G) -> (r: Option<G>)
        where
            G: Clone,
        requires
            old(self).wf(),
        ensures
            final(self).wf(),
            final(self)@ == joined(old(self)@, key@, group),
            r is None <==> !old(self)@.contains_key(key@),
            r matches Some(g) ==> cloned(old(self)@[key@], g),
    {
        match self.inflight.get(key.as_str()) {
            Some(open) => Some(open.clone()),
            None => {
                self.inflight.insert(key, group);
                None
            },
        }
    }

    /// The worker for `key` is done: its group is closed and handed back for
    /// publishing. A caller that arrives from now on starts afresh.
    pub fn finish(&mut self, key: &str) -> (r: Option<G>)
        requires
            old(self).wf(),
        ensures
            final(self).wf(),
            final(self)@ == old(self)@.remove(key@),
            r is Some <==> old(self)@.contains_key(key@),
            r matches Some(g) ==> g == old(self)@[key@],
    {
        self.inflight.remove(key)
    }
}

proof fn lemma_joined_all_keeps_first<G>(m: Map<Seq<char>, G>, key: Seq<char>, groups: Seq<G>)
    requires
        !m.contains_key(key),
        groups.len() > 0,
    ensures
        joined_all(m, key, groups).contains_key(key),
        joined_all(m, key, groups)[key] == groups[0],
    decreases groups.len(),
{
    if groups.len() == 1 {
        assert(groups.drop_last() =~= Seq::<G>::empty());
        assert(joined_all(m, key, groups.drop_last()) == m);
    } else {
        lemma_joined_all_keeps_first(m, key, groups.drop_last());
        assert(groups.drop_last()[0] == groups[0]);
    }
}

/// Callers that overlap on one key share one run of the work: of callers
/// arriving for a key that has no group open, with no worker finishing in
/// between, the first runs the work and every later one waits on the group
/// the first opened, so all see the one result published there.
pub proof fn lemma_overlapping_callers_share_one_run<G>(
    m: Map<Seq<char>, G>,
    key: Seq<char>,
    groups: Seq<G>,
)
    requires
        !m.contains_key(key),
        groups.len() >= 2,
    ensures
        runs_work(m, key, groups, 0),
        forall|i: int| 0 < i < groups.len() ==> !runs_work(m, key, groups, i),
        forall|i: int|
            0 < i <= groups.len() ==> #[trigger] joined_all(m, key, groups.take(i))[key]
                == groups[0],
{
    assert(groups.take(0) =~= Seq::<G>::empty());
    assert forall|i: int| 0 < i <= groups.len() implies #[trigger] joined_all(
        m,
        key,
        groups.take(i),
    )[key] == groups[0] && joined_all(m, key, groups.take(i)).contains_key(key) by {
        lemma_joined_all_keeps_first(m, key, groups.take(i));
    }
    assert forall|i: int| 0 < i < groups.len() implies !runs_work(m, key, groups, i) by {
        lemma_joined_all_keeps_first(m, key, groups.take(i));
    }
}

/// The table keeps no memory of a finished run: once the worker for `key`
/// has finished, the next caller for `key` runs the work again with its own
/// group, whatever the table held before.
pub proof fn lemma_later_caller_runs_again<G>(
    m: Map<Seq<char>, G>,
    key: Seq<char>,
    first: G,
    second: G,
)
    ensures
        !joined(m, key, first).remove(key).contains_key(key),
        joined(joined(m, key, first).remove(key), key, second)[key] == second,
{
}

} // verus!

//! The two-level cache behind an element's `highlight`.
//!
//! The group list (the text of the subtree, folded for search) is keyed by
//! the element's search revision, which a query change does NOT move, so
//! typing in a find bar never re-walks or re-folds text. The located
//! matches are also keyed by the matcher hash, which leaves out the find
//! cursor and the colours, so moving the find cursor only swaps the spec
//! and reuses what it already found. A listener hears the match count once
//! per new result: identity, not count, decides what is new.

use std::collections::HashMap;
use std::sync::Arc;

use vstd::prelude::*;

verus! {

broadcast use vstd::std_specs::hash::group_hash_axioms;

/// What one element's `highlight` resolved to: the spec `P` it declared and
/// the matches `M` located for it.
pub struct HighlightContext<P, M> {
    pub declaration: u64,
    pub set: P,
    pub matches: Arc<M>,
}

/// One element's cached `highlight`: the group list `G` for the revision it
/// was collected at, the matcher it located with, and the last identity
/// reported to a listener.
pub struct HighlightCacheEntry<G, P, M> {
    pub revision: u64,
    pub groups: Arc<G>,
    pub matcher_hash: u64,
    pub context: Arc<HighlightContext<P, M>>,
    pub reported: Option<u64>,
}

/// Which cache level a resolution reused.
#[derive(Clone, Copy, Debug, PartialEq, Eq, Structural)]
pub enum HighlightReuse {
    /// Nothing moved: the cached context is returned as it is.
    Unchanged,
    /// Same matches, a different spec (colours or find cursor): the located
    /// matches are reused and only the spec is swapped.
    Respecified,
    /// The matches were located again, over the cached group list when the
    /// revision still holds.
    Located { groups_reused: bool },
}

/// Another pointer to the same value; `Arc::clone` shares, it does not copy.
#[verifier::external_body]
fn share<T>(a: &Arc<T>) -> (r: Arc<T>)
    ensures
        r == *a,
{
    a.clone()
}

/// What a resolution tells a listener, and the identity it then counts as
/// reported: `before` was reported last, `ident` and `total` are the
/// identity and count of the result. A result is new by identity, not by
/// count; without a listener nothing is told and nothing is marked.
pub open spec fn listener_report(before: Option<u64>, has_listener: bool, ident: u64, total: usize) -> (Option<usize>, Option<u64>) {
    if !has_listener || before == Some(ident) {
        (None, before)
    } else {
        (Some(total), Some(ident))
    }
}

/// A listener hears each result once: telling it the same result again
/// tells it nothing.
pub proof fn lemma_reported_once(before: Option<u64>, ident: u64, total: usize)
    ensures
        listener_report(listener_report(before, true, ident, total).1, true, ident, total).0 is None,
{
}

/// A result resolved while nobody listened is still new to a listener
/// added later.
pub proof fn lemma_late_listener_hears(before: Option<u64>, ident: u64, total: usize, silent_ident: u64, silent_total: usize)
    requires
        before != Some(ident),
    ensures
        listener_report(listener_report(before, false, silent_ident, silent_total).1, true, ident, total).0 == Some(total),
{
}

/// Two results with the same count but another identity are both told.
pub proof fn lemma_identity_not_count(before: Option<u64>, a: u64, b: u64, total: usize)
    requires
        a != b,
    ensures
        listener_report(listener_report(before, true, a, total).1, true, b, total).0 == Some(total),
{
}

/// Resolve one element's `highlight`, reusing both cache levels.
///
/// `revision` is the element's search revision, `set` the spec its
/// `highlight` prop parsed to and `matcher_hash` that spec's matcher hash.
/// `same_set` compares two specs, `collect` folds the element's subtree
/// into a group list, `locate` finds the matches of a spec in a group
/// list, and `identity` gives the identity and total of some matches.
///
/// Returns the context, the match count when `has_listener` and the result
/// differs from the last one this element reported, and the cache level
/// that was reused.
pub fn resolve_highlight<G, P, M, FS, FC, FL, FI>(
    cache: &mut HashMap<u64, HighlightCacheEntry<G, P, M>>,
    id: u64,
    revision: u64,
    set: P,
    matcher_hash: u64,
    has_listener: bool,
    same_set: &FS,
    collect: &FC,
    locate: &FL,
    identity: &FI,
) -> (r: (Arc<HighlightContext<P, M>>, Option<usize>, HighlightReuse)) where
    FS: Fn(&P, &P) -> bool,
    FC: Fn() -> G,
    FL: Fn(&G, &P) -> M,
    FI: Fn(&M) -> (u64, usize),

    requires
        forall|a: &P, b: &P| #[trigger] call_requires(*same_set, (a, b)),
        call_requires(*collect, ()),
        forall|g: &G, p: &P| #[trigger] call_requires(*locate, (g, p)),
        forall|m: &M| #[trigger] call_requires(*identity, (m,)),
        // One identity and count for each result, so a result told once is
        // recognised when it comes again.
        forall|m: &M, a: (u64, usize), b: (u64, usize)|
            #[trigger] call_ensures(*identity, (m,), a) && #[trigger] call_ensures(*identity, (m,), b) ==> a == b,
    ensures
        // The entry for `id` is all that changes.
        final(cache)@.contains_key(id),
        final(cache)@.remove(id) == old(cache)@.remove(id),
        final(cache)@[id].context == r.0,
        // A hit on both keys reuses the located matches.
        (old(cache)@.contains_key(id) && old(cache)@[id].revision == revision
            && old(cache)@[id].matcher_hash == matcher_hash) <==> (r.2 is Unchanged || r.2 is Respecified),
        r.2 is Unchanged ==> {
            &&& call_ensures(*same_set, (&old(cache)@[id].context.set, &set), true)
            &&& r.0 == old(cache)@[id].context
            &&& final(cache)@[id].groups == old(cache)@[id].groups
            &&& final(cache)@[id].revision == revision
            &&& final(cache)@[id].matcher_hash == matcher_hash
        },
        r.2 is Respecified ==> {
            &&& call_ensures(*same_set, (&old(cache)@[id].context.set, &set), false)
            &&& r.0.declaration == id
            &&& r.0.set == set
            &&& r.0.matches == old(cache)@[id].context.matches
            &&& final(cache)@[id].groups == old(cache)@[id].groups
            &&& final(cache)@[id].revision == revision
            &&& final(cache)@[id].matcher_hash == matcher_hash
        },
        // A miss locates again, over the cached group list while the
        // revision holds.
        r.2 matches HighlightReuse::Located { groups_reused } ==> {
            &&& groups_reused == (old(cache)@.contains_key(id) && old(cache)@[id].revision == revision)
            &&& groups_reused ==> final(cache)@[id].groups == old(cache)@[id].groups
            &&& !groups_reused ==> call_ensures(*collect, (), *final(cache)@[id].groups)
            &&& call_ensures(*locate, (&*final(cache)@[id].groups, &set), *r.0.matches)
            &&& r.0.declaration == id
            &&& r.0.set == set
            &&& final(cache)@[id].revision == revision
            &&& final(cache)@[id].matcher_hash == matcher_hash
        },
        // A listener hears a result once; without one nothing is reported and
        // nothing is marked as reported.
        ({
            let before = if old(cache)@.contains_key(id) { old(cache)@[id].reported } else { None };
            if !has_listener {
                (r.1, final(cache)@[id].reported) == listener_report(before, false, 0, 0)
            } else {
                exists|ident: u64, total: usize| {
                    &&& #[trigger] call_ensures(*identity, (&*r.0.matches,), (ident, total))
                    &&& (r.1, final(cache)@[id].reported) == listener_report(before, true, ident, total)
                }
            }
        }),
{
    let old_entry = cache.remove(&id);
    let ghost before = match &old_entry { Some(e) => e.reported, None => None };
    assert(before == (if old(cache)@.contains_key(id) { old(cache)@[id].reported } else { None }));
    let (mut entry, context, reuse) = match old_entry {
        Some(e) => {
            if e.revision == revision && e.matcher_hash == matcher_hash {
                if same_set(&e.context.set, &set) {
                    let context = share(&e.context);
                    (e, context, HighlightReuse::Unchanged)
                } else {
                    let context = Arc::new(HighlightContext {
                        declaration: id,
                        set,
                        matches: share(&e.context.matches),
                    });
                    let entry = HighlightCacheEntry {
                        revision: e.revision,
                        groups: e.groups,
                        matcher_hash: e.matcher_hash,
                        context: share(&context),
                        reported: e.reported,
                    };
                    (entry, context, HighlightReuse::Respecified)
                }
            } else {
                let groups_reused = e.revision == revision;
                let groups = if groups_reused {
                    e.groups
                } else {
                    Arc::new(collect())
                };
                let matches = Arc::new(locate(&*groups, &set));
                let context = Arc::new(HighlightContext { declaration: id, set, matches });
                let entry = HighlightCacheEntry {
                    revision,
                    groups,
                    matcher_hash,
                    context: share(&context),
                    reported: e.reported,
                };
                (entry, context, HighlightReuse::Located { groups_reused })
            }
        },
        None => {
            let groups = Arc::new(collect());
            let matches = Arc::new(locate(&*groups, &set));
            let context = Arc::new(HighlightContext { declaration: id, set, matches });
            let entry = HighlightCacheEntry {
                revision,
                groups,
                matcher_hash,
                context: share(&context),
                reported: None,
            };
            (entry, context, HighlightReuse::Located { groups_reused: false })
        },
    };
    assert(entry.reported == before);
    if !has_listener {
        cache.insert(id, entry);
        return (context, None, reuse);
    }
    let (ident, total) = identity(&*context.matches);
    let report = if entry.reported == Some(ident) {
        None
    } else {
        entry.reported = Some(ident);
        Some(total)
    };
    cache.insert(id, entry);
    assert(call_ensures(*identity, (&*context.matches,), (ident, total)));
    assert(if before == Some(ident) {
        report is None && cache@[id].reported == before
    } else {
        report == Some(total) && cache@[id].reported == Some(ident)
    });
    (context, report, reuse)
}

} // verus!

//! The retained tree, as the verified rules read it: every element by id,
//! its parent, its children in order, its text and its style.

use std::collections::{HashMap, HashSet};

use vstd::prelude::*;

use crate::json::Json;
use crate::style::StyleDesc;
use vstd::std_specs::iter::IteratorSpec;

verus! {

broadcast use vstd::std_specs::hash::group_hash_axioms;

/// One node of the retained tree.
#[derive(Debug)]
pub struct RetainedElement {
    pub id: u64,
    pub element_type: String,
    /// The text node content, if the element carries text.
    pub content: Option<String>,
    pub children: Vec<u64>,
    pub parent: Option<u64>,
    pub style: Option<StyleDesc>,
    /// The event types a listener is registered for.
    pub events: Vec<String>,
    /// Props the host passes through untouched, by key.
    pub custom_props: Vec<(String, Json)>,
    /// Take focus once, when the element first gets a focus handle.
    pub auto_focus: bool,
}

/// The element tree kept between frames.
#[derive(Debug)]
pub struct RetainedTree {
    pub elements: HashMap<u64, RetainedElement>,
    pub root_id: Option<u64>,
}

// ── Walking up ──────────────────────────────────────────────────────

/// The walk up from `id` toward `list` ends within `fuel` steps: it reaches
/// an element that is missing, has no parent, or is a child of `list`.
pub open spec fn walk_stops(m: Map<u64, RetainedElement>, list: u64, id: u64, fuel: nat) -> bool
    decreases fuel,
{
    fuel > 0 && (!m.contains_key(id) || m[id].parent is None || m[id].parent == Some(list)
        || walk_stops(m, list, m[id].parent->0, (fuel - 1) as nat))
}

/// The ancestor of `id` (or `id` itself) that is a direct child of `list`,
/// found by following parents for at most `fuel` steps.
pub open spec fn row_ancestor_within(m: Map<u64, RetainedElement>, list: u64, id: u64, fuel: nat) -> Option<u64>
    decreases fuel,
{
    if fuel == 0 || !m.contains_key(id) {
        None
    } else {
        match m[id].parent {
            None => None,
            Some(p) => if p == list {
                Some(id)
            } else {
                row_ancestor_within(m, list, p, (fuel - 1) as nat)
            },
        }
    }
}

/// The ancestor of `id` (or `id` itself) whose parent is `list`, or `None`
/// when the walk up reaches a root or a missing element first.
pub open spec fn row_ancestor(m: Map<u64, RetainedElement>, list: u64, id: u64) -> Option<u64> {
    row_ancestor_within(m, list, id, choose|f: nat| walk_stops(m, list, id, f))
}

/// Any fuel that lets the walk end gives the same answer.
pub proof fn lemma_row_ancestor_fuel(m: Map<u64, RetainedElement>, list: u64, id: u64, f: nat, g: nat)
    requires
        walk_stops(m, list, id, f),
        walk_stops(m, list, id, g),
    ensures
        row_ancestor_within(m, list, id, f) == row_ancestor_within(m, list, id, g),
    decreases f,
{
    if m.contains_key(id) && m[id].parent is Some && m[id].parent != Some(list) {
        lemma_row_ancestor_fuel(m, list, m[id].parent->0, (f - 1) as nat, (g - 1) as nat);
    }
}

/// The row of virtual list `list_id` that holds `element_id`: the ancestor
/// (or the element itself) whose parent is the list.
pub fn virtual_row_ancestor(tree: &RetainedTree, list_id: u64, element_id: u64) -> (r: Option<u64>)
    requires
        exists|f: nat| walk_stops(tree.elements@, list_id, element_id, f),
    ensures
        r == row_ancestor(tree.elements@, list_id, element_id),
{
    let ghost m = tree.elements@;
    let ghost fuel = choose|f: nat| walk_stops(tree.elements@, list_id, element_id, f);
    let ghost mut left: nat = fuel;
    let mut current = element_id;
    assert(walk_stops(m, list_id, element_id, fuel));
    assert(row_ancestor(tree.elements@, list_id, element_id) == row_ancestor_within(m, list_id, element_id, fuel));
    loop
        invariant
            m == tree.elements@,
            row_ancestor(tree.elements@, list_id, element_id) == row_ancestor_within(m, list_id, element_id, fuel),
            walk_stops(m, list_id, current, left),
            row_ancestor_within(m, list_id, element_id, fuel) == row_ancestor_within(m, list_id, current, left),
        decreases left,
    {
        let element = match tree.elements.get(&current) {
            Some(element) => element,
            None => {
                assert(row_ancestor_within(m, list_id, current, left) == None::<u64>);
                return None;
            },
        };
        assert(*element == m[current]);
        let parent = match element.parent {
            Some(parent) => parent,
            None => {
                assert(row_ancestor_within(m, list_id, current, left) == None::<u64>);
                return None;
            },
        };
        if parent == list_id {
            assert(row_ancestor_within(m, list_id, current, left) == Some(current));
            return Some(current);
        }
        proof {
            left = (left - 1) as nat;
        }
        current = parent;
    }
}

/// The walk up from `id` toward a virtual list ends within `fuel` steps: it
/// reaches an element that is missing, has no parent, or is a child of one
/// of `lists`.
pub open spec fn list_walk_ends(m: Map<u64, RetainedElement>, lists: Set<u64>, id: u64, fuel: nat) -> bool
    decreases fuel,
{
    fuel > 0 && (!m.contains_key(id) || m[id].parent is None || lists.contains(m[id].parent->0)
        || list_walk_ends(m, lists, m[id].parent->0, (fuel - 1) as nat))
}

/// The index of the first `x` in `s`.
pub open spec fn first_position(s: Seq<u64>, x: u64) -> Option<int>
    decreases s.len(),
{
    if s.len() == 0 {
        None
    } else if s[0] == x {
        Some(0)
    } else {
        match first_position(s.drop_first(), x) {
            Some(i) => Some(i + 1),
            None => None,
        }
    }
}

/// Where `id` sits in a virtual list, following parents for at most `fuel`
/// steps: the nearest ancestor-or-self whose parent is one of `lists`,
/// as that list and the row's index among the list's children.
pub open spec fn list_location_within(m: Map<u64, RetainedElement>, lists: Set<u64>, id: u64, fuel: nat) -> Option<(u64, int)>
    decreases fuel,
{
    if fuel == 0 || !m.contains_key(id) {
        None
    } else {
        match m[id].parent {
            None => None,
            Some(p) => if lists.contains(p) {
                if m.contains_key(p) {
                    match first_position(m[p].children@, id) {
                        Some(i) => Some((p, i)),
                        None => None,
                    }
                } else {
                    None
                }
            } else {
                list_location_within(m, lists, p, (fuel - 1) as nat)
            },
        }
    }
}

/// Where `id` sits in a virtual list, if it sits in one.
pub open spec fn list_location(m: Map<u64, RetainedElement>, lists: Set<u64>, id: u64) -> Option<(u64, int)> {
    list_location_within(m, lists, id, choose|f: nat| list_walk_ends(m, lists, id, f))
}

/// Any fuel that lets the walk end gives the same location.
pub proof fn lemma_list_location_fuel(m: Map<u64, RetainedElement>, lists: Set<u64>, id: u64, f: nat, g: nat)
    requires
        list_walk_ends(m, lists, id, f),
        list_walk_ends(m, lists, id, g),
    ensures
        list_location_within(m, lists, id, f) == list_location_within(m, lists, id, g),
    decreases f,
{
    if m.contains_key(id) && m[id].parent is Some && !lists.contains(m[id].parent->0) {
        lemma_list_location_fuel(m, lists, m[id].parent->0, (f - 1) as nat, (g - 1) as nat);
    }
}

fn position_of(s: &Vec<u64>, x: u64) -> (r: Option<usize>)
    ensures
        match r {
            Some(i) => first_position(s@, x) == Some(i as int),
            None => first_position(s@, x) is None,
        },
{
    let mut i: usize = 0;
    assert(s@.skip(0) =~= s@);
    while i < s.len()
        invariant
            i <= s@.len(),
            first_position(s@, x) == (match first_position(s@.skip(i as int), x) {
                Some(j) => Some(j + i),
                None => None::<int>,
            }),
        decreases s@.len() - i,
    {
        assert(s@.skip(i as int).drop_first() =~= s@.skip(i + 1));
        if s[i] == x {
            return Some(i);
        }
        i += 1;
    }
    None
}

/// The virtual list that holds `id` and the index of the row it sits in:
/// the nearest ancestor (or `id` itself) whose parent is one of `lists`.
/// `None` when the walk up reaches a root or a missing element first.
pub fn virtual_list_location(tree: &RetainedTree, lists: &HashSet<u64>, id: u64) -> (r: Option<(u64, usize)>)
    requires
        exists|f: nat| list_walk_ends(tree.elements@, lists@, id, f),
    ensures
        match r {
            Some((list, index)) => list_location(tree.elements@, lists@, id) == Some((list, index as int)),
            None => list_location(tree.elements@, lists@, id) is None,
        },
{
    let ghost m = tree.elements@;
    let ghost fuel = choose|f: nat| list_walk_ends(tree.elements@, lists@, id, f);
    let ghost mut left: nat = fuel;
    let mut current = id;
    loop
        invariant
            m == tree.elements@,
            list_location(m, lists@, id) == list_location_within(m, lists@, id, fuel),
            list_walk_ends(m, lists@, current, left),
            list_location_within(m, lists@, id, fuel) == list_location_within(m, lists@, current, left),
        decreases left,
    {
        let parent = match tree.elements.get(&current) {
            Some(element) => match element.parent {
                Some(parent) => parent,
                None => return None,
            },
            None => return None,
        };
        if lists.contains(&parent) {
            return match tree.elements.get(&parent) {
                Some(list) => match position_of(&list.children, current) {
                    Some(index) => Some((parent, index)),
                    None => None,
                },
                None => None,
            };
        }
        proof {
            left = (left - 1) as nat;
        }
        current = parent;
    }
}

// ── Collecting text ─────────────────────────────────────────────────

/// Every element under `id` sits within `depth` levels: the subtree is
/// finite and holds no cycle.
pub open spec fn subtree_within(m: Map<u64, RetainedElement>, id: u64, depth: nat) -> bool
    decreases depth, 0nat,
{
    depth > 0 && (m.contains_key(id) ==> children_within(m, m[id].children@, (depth - 1) as nat))
}

/// Each subtree at `ids` sits within `depth` levels.
pub open spec fn children_within(m: Map<u64, RetainedElement>, ids: Seq<u64>, depth: nat) -> bool
    decreases depth, ids.len(),
{
    ids.len() == 0 || (children_within(m, ids.drop_last(), depth) && subtree_within(m, ids.last(), depth))
}

pub proof fn lemma_children_within(m: Map<u64, RetainedElement>, ids: Seq<u64>, depth: nat, i: int)
    requires
        children_within(m, ids, depth),
        0 <= i < ids.len(),
    ensures
        subtree_within(m, ids[i], depth),
    decreases ids.len(),
{
    if i < ids.len() - 1 {
        lemma_children_within(m, ids.drop_last(), depth, i);
    }
}

/// The text contents of the subtree at `id`, in document order: an
/// element's own text, then each child's subtree in child order.
pub open spec fn texts_within(m: Map<u64, RetainedElement>, id: u64, depth: nat) -> Seq<String>
    decreases depth, 0nat,
{
    if depth == 0 || !m.contains_key(id) {
        Seq::empty()
    } else {
        let own = match m[id].content {
            Some(c) => seq![c],
            None => Seq::empty(),
        };
        own + children_texts_within(m, m[id].children@, (depth - 1) as nat)
    }
}

/// The text contents of the subtrees at `ids`, one after another.
pub open spec fn children_texts_within(m: Map<u64, RetainedElement>, ids: Seq<u64>, depth: nat) -> Seq<String>
    decreases depth, ids.len(),
{
    if ids.len() == 0 {
        Seq::empty()
    } else {
        children_texts_within(m, ids.drop_last(), depth) + texts_within(m, ids.last(), depth)
    }
}

/// The text contents of the subtree at `id`, in document order.
pub open spec fn subtree_texts(m: Map<u64, RetainedElement>, id: u64) -> Seq<String> {
    texts_within(m, id, choose|d: nat| subtree_within(m, id, d))
}

/// A deeper bound gives the same text.
pub proof fn lemma_texts_depth(m: Map<u64, RetainedElement>, id: u64, d: nat, e: nat)
    requires
        subtree_within(m, id, d),
        d <= e,
    ensures
        subtree_within(m, id, e),
        texts_within(m, id, d) == texts_within(m, id, e),
    decreases d, 0nat,
{
    if m.contains_key(id) {
        lemma_children_texts_depth(m, m[id].children@, (d - 1) as nat, (e - 1) as nat);
    }
}

pub proof fn lemma_children_texts_depth(m: Map<u64, RetainedElement>, ids: Seq<u64>, d: nat, e: nat)
    requires
        children_within(m, ids, d),
        d <= e,
    ensures
        children_within(m, ids, e),
        children_texts_within(m, ids, d) == children_texts_within(m, ids, e),
    decreases d, ids.len(),
{
    if ids.len() > 0 {
        lemma_children_texts_depth(m, ids.drop_last(), d, e);
        lemma_texts_depth(m, ids.last(), d, e);
    }
}

/// Two bounds that both hold give the same text.
pub proof fn lemma_texts_any_depth(m: Map<u64, RetainedElement>, id: u64, d: nat, e: nat)
    requires
        subtree_within(m, id, d),
        subtree_within(m, id, e),
    ensures
        texts_within(m, id, d) == texts_within(m, id, e),
{
    if d <= e {
        lemma_texts_depth(m, id, d, e);
    } else {
        lemma_texts_depth(m, id, e, d);
    }
}

fn collect_text_within(id: u64, tree: &RetainedTree, texts: &mut Vec<String>, Ghost(depth): Ghost<nat>)
    requires
        subtree_within(tree.elements@, id, depth),
    ensures
        final(texts)@ == old(texts)@ + texts_within(tree.elements@, id, depth),
    decreases depth, 0nat,
{
    let ghost m = tree.elements@;
    if let Some(element) = tree.elements.get(&id) {
        if let Some(content) = &element.content {
            texts.push(content.clone());
        }
        let ghost own = texts@;
        let mut i: usize = 0;
        while i < element.children.len()
            invariant
                m == tree.elements@,
                m.contains_key(id),
                *element == m[id],
                depth > 0,
                subtree_within(m, id, depth),
                i <= element.children@.len(),
                texts@ == own + children_texts_within(m, element.children@.take(i as int), (depth - 1) as nat),
            decreases element.children@.len() - i,
        {
            let child = element.children[i];
            proof {
                lemma_children_within(m, element.children@, (depth - 1) as nat, i as int);
            }
            collect_text_within(child, tree, texts, Ghost((depth - 1) as nat));
            proof {
                let t = element.children@.take(i + 1);
                assert(t.drop_last() =~= element.children@.take(i as int));
                assert(t.last() == child);
            }
            i += 1;
        }
        proof {
            assert(element.children@.take(element.children@.len() as int) =~= element.children@);
        }
    } else {
        assert(texts@ =~= old(texts)@ + texts_within(m, id, depth));
    }
}

/// Append the text of every element in the subtree at `id`, in document
/// order, to `texts`.
pub fn collect_text(id: u64, tree: &RetainedTree, texts: &mut Vec<String>)
    requires
        exists|d: nat| subtree_within(tree.elements@, id, d),
    ensures
        final(texts)@ == old(texts)@ + subtree_texts(tree.elements@, id),
{
    let ghost d = choose|d: nat| subtree_within(tree.elements@, id, d);
    collect_text_within(id, tree, texts, Ghost(d));
}

/// The tree holds no cycle under its root.
pub open spec fn root_is_finite(tree: RetainedTree) -> bool {
    tree.root_id matches Some(r) ==> exists|d: nat| subtree_within(tree.elements@, r, d)
}

/// Every text in the tree, in document order from the root.
pub open spec fn all_text(tree: RetainedTree) -> Seq<String> {
    match tree.root_id {
        Some(r) => subtree_texts(tree.elements@, r),
        None => Seq::empty(),
    }
}

impl RetainedTree {
    /// Every text content reachable from the root, in document order.
    pub fn get_all_text(&self) -> (texts: Vec<String>)
        requires
            root_is_finite(*self),
        ensures
            texts@ == all_text(*self),
    {
        let mut texts: Vec<String> = Vec::new();
        if let Some(root_id) = self.root_id {
            collect_text(root_id, self, &mut texts);
        }
        assert(texts@ =~= all_text(*self));
        texts
    }
}

/// The id of every element, each once, in the map's own order.
pub(crate) fn element_ids(tree: &RetainedTree) -> (ids: Vec<u64>)
    ensures
        ids@.to_set() == tree.elements@.dom(),
        ids@.no_duplicates(),
{
    let mut ids: Vec<u64> = Vec::new();
    for k in it: tree.elements.keys()
        invariant
            ids@ == it.seq().take(it.index() as int).map_values(|r: &u64| *r),
    {
        ids.push(*k);
        assert(ids@ =~= it.seq().take(it.index() + 1).map_values(|r: &u64| *r));
    }
    let ghost seq = vstd::std_specs::hash::spec_keys_iter(&tree.elements).remaining();
    proof {
        assert(seq.take(seq.len() as int) =~= seq);
        assert(ids@ =~= seq.unref());
    }
    ids
}

// ── Dropping state for elements that left ───────────────────────────

/// Keep only the entries of `map` whose id is still in the tree.
fn retain_in_tree<V>(map: &mut HashMap<u64, V>, tree: &RetainedTree)
    ensures
        final(map)@ == old(map)@.restrict(tree.elements@.dom()),
{
    let mut keys: Vec<u64> = Vec::new();
    for k in it: map.keys()
        invariant
            keys@ == it.seq().take(it.index() as int).map_values(|r: &u64| *r),
    {
        keys.push(*k);
        assert(keys@ =~= it.seq().take(it.index() + 1).map_values(|r: &u64| *r));
    }
    let ghost all = keys@;
    assert(all.to_set() =~= old(map)@.dom()) by {
        assert forall|x: u64| all.to_set().contains(x) <==> old(map)@.dom().contains(x) by {
            let seq = vstd::std_specs::hash::spec_keys_iter(&*old(map)).remaining();
            assert(seq.take(seq.len() as int) =~= seq);
            if old(map)@.dom().contains(x) {
                assert(seq.unref().to_set().contains(x));
                let j = choose|j: int| 0 <= j < seq.unref().len() && seq.unref()[j] == x;
                assert(all[j] == x);
            }
            if all.to_set().contains(x) {
                let j = choose|j: int| 0 <= j < all.len() && all[j] == x;
                assert(seq.unref()[j] == x);
                assert(seq.unref().to_set().contains(x));
            }
        }
    }
    let mut i: usize = 0;
    while i < keys.len()
        invariant
            i <= keys@.len(),
            keys@ == all,
            forall|x: u64| #[trigger] map@.contains_key(x) <==> (old(map)@.contains_key(x) && !(
                exists|j: int| 0 <= j < i && all[j] == x && !tree.elements@.contains_key(x))),
            forall|x: u64| #[trigger] map@.contains_key(x) ==> map@[x] == old(map)@[x],
        decreases keys@.len() - i,
    {
        let k = keys[i];
        if !tree.elements.contains_key(&k) {
            map.remove(&k);
        }
        i += 1;
    }
    assert(map@ =~= old(map)@.restrict(tree.elements@.dom())) by {
        assert forall|x: u64| #[trigger] map@.contains_key(x) <==> old(map)@.restrict(tree.elements@.dom()).contains_key(x) by {
            if old(map)@.contains_key(x) && !tree.elements@.contains_key(x) {
                assert(all.to_set().contains(x));
            }
        }
    }
}

/// Keep only the ids of `set` that are still in the tree.
fn retain_ids_in_tree(set: &mut HashSet<u64>, tree: &RetainedTree)
    ensures
        final(set)@ == old(set)@.intersect(tree.elements@.dom()),
{
    let mut ids: Vec<u64> = Vec::new();
    for k in it: set.iter()
        invariant
            ids@ == it.seq().take(it.index() as int).map_values(|r: &u64| *r),
    {
        ids.push(*k);
        assert(ids@ =~= it.seq().take(it.index() + 1).map_values(|r: &u64| *r));
    }
    let ghost all = ids@;
    assert(all.to_set() =~= old(set)@) by {
        assert forall|x: u64| all.to_set().contains(x) <==> old(set)@.contains(x) by {
            let seq = vstd::std_specs::hash::spec_hash_keys_iter(&*old(set)).remaining();
            assert(seq.take(seq.len() as int) =~= seq);
            if old(set)@.contains(x) {
                assert(seq.unref().to_set().contains(x));
                let j = choose|j: int| 0 <= j < seq.unref().len() && seq.unref()[j] == x;
                assert(all[j] == x);
            }
            if all.to_set().contains(x) {
                let j = choose|j: int| 0 <= j < all.len() && all[j] == x;
                assert(seq.unref()[j] == x);
                assert(seq.unref().to_set().contains(x));
            }
        }
    }
    let mut i: usize = 0;
    while i < ids.len()
        invariant
            i <= ids@.len(),
            ids@ == all,
            forall|x: u64| #[trigger] set@.contains(x) <==> (old(set)@.contains(x) && !(
                exists|j: int| 0 <= j < i && all[j] == x && !tree.elements@.contains_key(x))),
        decreases ids@.len() - i,
    {
        let k = ids[i];
        if !tree.elements.contains_key(&k) {
            set.remove(&k);
        }
        i += 1;
    }
    assert(set@ =~= old(set)@.intersect(tree.elements@.dom())) by {
        assert forall|x: u64| #[trigger] set@.contains(x) <==> old(set)@.intersect(tree.elements@.dom()).contains(x) by {
            if old(set)@.contains(x) && !tree.elements@.contains_key(x) {
                assert(all.to_set().contains(x));
            }
        }
    }
}

/// Forget the scroll animations, snap watches and fired initial targets of
/// elements that left the tree. An id that left re-arms its initial target,
/// so a remounted element scrolls into view again.
pub fn prune<A, S>(
    tree: &RetainedTree,
    animations: &mut HashMap<u64, A>,
    snap: &mut HashMap<u64, S>,
    initial_done: &mut HashSet<u64>,
)
    ensures
        final(animations)@ == old(animations)@.restrict(tree.elements@.dom()),
        final(snap)@ == old(snap)@.restrict(tree.elements@.dom()),
        final(initial_done)@ == old(initial_done)@.intersect(tree.elements@.dom()),
{
    retain_in_tree(animations, tree);
    retain_in_tree(snap, tree);
    retain_ids_in_tree(initial_done, tree);
}

} // verus!

use std::collections::HashMap;
use std::sync::Arc;

use gpuix_native::highlight::{
    resolve_highlight, HighlightCacheEntry, HighlightContext, HighlightReuse,
};

/// A highlight spec: what to find, and which match the find cursor is on.
#[derive(Clone, Debug, PartialEq)]
struct Query {
    query: String,
    active: u64,
}

/// The located matches: where each starts, and how many there are.
#[derive(Debug)]
struct Found {
    starts: Vec<usize>,
    total: usize,
}

type Cache = HashMap<u64, HighlightCacheEntry<Vec<String>, Query, Found>>;

fn fnv(bytes: impl IntoIterator<Item = u8>, mut hash: u64) -> u64 {
    for b in bytes {
        hash ^= b as u64;
        hash = hash.wrapping_mul(0x100000001b3);
    }
    hash
}

/// The matcher hash leaves out the find cursor.
fn matcher_hash(q: &Query) -> u64 {
    fnv(q.query.bytes(), 0xcbf29ce484222325)
}

fn locate(groups: &Vec<String>, q: &Query) -> Found {
    let text = groups.join("\n");
    let starts: Vec<usize> = if q.query.is_empty() {
        Vec::new()
    } else {
        text.match_indices(q.query.as_str()).map(|(at, _)| at).collect()
    };
    let total = starts.len();
    Found { starts, total }
}

fn identity(found: &Found) -> (u64, usize) {
    let bytes = found.starts.iter().flat_map(|s| (*s as u64).to_le_bytes());
    (fnv(bytes, found.total as u64), found.total)
}

/// The element's text, and the search revision that moves with it.
struct Page {
    text: String,
    revision: u64,
}

impl Page {
    fn new() -> Page {
        Page { text: "a fox and a fox".to_string(), revision: 1 }
    }

    fn set_text(&mut self, text: &str) {
        self.text = text.to_string();
        self.revision += 1;
    }

    fn resolve(
        &self,
        cache: &mut Cache,
        q: Query,
        has_listener: bool,
    ) -> (Arc<HighlightContext<Query, Found>>, Option<usize>, HighlightReuse) {
        let text = self.text.clone();
        let collect = move || vec![text.clone()];
        let hash = matcher_hash(&q);
        resolve_highlight(
            cache,
            1,
            self.revision,
            q,
            hash,
            has_listener,
            &|a: &Query, b: &Query| a == b,
            &collect,
            &locate,
            &identity,
        )
    }
}

fn query(text: &str) -> Query {
    Query { query: text.to_string(), active: 0 }
}

#[test]
fn a_query_change_reuses_the_group_list() {
    let page = Page::new();
    let mut cache = HashMap::new();

    page.resolve(&mut cache, query("f"), false);
    let first = Arc::clone(&cache[&1].groups);

    page.resolve(&mut cache, query("fo"), false);
    assert!(
        Arc::ptr_eq(&cache[&1].groups, &first),
        "a query change must not rebuild the group list"
    );
}

#[test]
fn a_cursor_move_reuses_the_located_matches() {
    let page = Page::new();
    let mut cache = HashMap::new();
    let spec = |active: u64| Query { query: "fox".to_string(), active };

    page.resolve(&mut cache, spec(0), true);
    let matches = Arc::clone(&cache[&1].context.matches);

    let (context, changed, _) = page.resolve(&mut cache, spec(1), true);
    assert!(Arc::ptr_eq(&context.matches, &matches), "no rescan");
    assert_eq!(changed, None, "a cursor move is not a new result");
    assert_eq!(context.set.active, 1, "spec still swapped");
}

#[test]
fn a_text_change_rebuilds_the_group_list() {
    let mut page = Page::new();
    let mut cache = HashMap::new();

    page.resolve(&mut cache, query("fox"), true);
    let first = Arc::clone(&cache[&1].groups);

    page.set_text("one fox only");
    let (_, changed, _) = page.resolve(&mut cache, query("fox"), true);
    assert!(!Arc::ptr_eq(&cache[&1].groups, &first));
    assert_eq!(changed, Some(1), "two matches became one");
}

#[test]
fn adding_the_listener_later_still_reports() {
    let page = Page::new();
    let mut cache = HashMap::new();

    let (_, changed, _) = page.resolve(&mut cache, query("fox"), false);
    assert_eq!(changed, None, "nothing to report without a listener");

    let (_, changed, _) = page.resolve(&mut cache, query("fox"), true);
    assert_eq!(changed, Some(2), "the listener gets the current count");

    let (_, changed, _) = page.resolve(&mut cache, query("fox"), true);
    assert_eq!(changed, None, "and only once");
}

#[test]
fn each_resolution_says_which_level_it_reused() {
    let mut page = Page::new();
    let mut cache = HashMap::new();

    let (first, _, reuse) = page.resolve(&mut cache, query("fox"), false);
    assert_eq!(reuse, HighlightReuse::Located { groups_reused: false });
    assert_eq!(first.declaration, 1);
    assert_eq!(first.matches.starts, vec![2, 12]);

    let (again, _, reuse) = page.resolve(&mut cache, query("fox"), false);
    assert_eq!(reuse, HighlightReuse::Unchanged);
    assert!(Arc::ptr_eq(&again, &first), "nothing moved: the same context");

    let (_, _, reuse) = page.resolve(&mut cache, Query { query: "fox".to_string(), active: 1 }, false);
    assert_eq!(reuse, HighlightReuse::Respecified);

    let (_, _, reuse) = page.resolve(&mut cache, query("and"), false);
    assert_eq!(reuse, HighlightReuse::Located { groups_reused: true });

    page.set_text("no match here");
    let (context, _, reuse) = page.resolve(&mut cache, query("and"), false);
    assert_eq!(reuse, HighlightReuse::Located { groups_reused: false });
    assert_eq!(context.matches.total, 0);
}

#[test]
fn the_same_count_with_another_identity_is_still_reported() {
    let mut page = Page::new();
    let mut cache = HashMap::new();

    let (_, changed, _) = page.resolve(&mut cache, query("fox"), true);
    assert_eq!(changed, Some(2));

    page.set_text("fox fox");
    let (_, changed, _) = page.resolve(&mut cache, query("fox"), true);
    assert_eq!(changed, Some(2), "moved matches are a new result");
}

#[test]
fn other_elements_keep_their_entries() {
    let page = Page::new();
    let mut cache = HashMap::new();
    page.resolve(&mut cache, query("fox"), false);
    let entry = cache.remove(&1).unwrap();
    cache.insert(7, entry);
    page.resolve(&mut cache, query("fox"), false);
    assert_eq!(cache.len(), 2);
    assert_eq!(cache[&7].revision, 1);
}

use std::collections::{HashMap, HashSet};

use gpuix_native::tree::{
    collect_text, prune, virtual_list_location, virtual_row_ancestor, RetainedElement, RetainedTree,
};

fn element(id: u64, parent: Option<u64>, children: Vec<u64>, content: Option<&str>) -> RetainedElement {
    RetainedElement {
        id,
        element_type: if content.is_some() { "text".to_string() } else { "div".to_string() },
        content: content.map(|c| c.to_string()),
        children,
        parent,
        style: None,
        events: Vec::new(),
        custom_props: Vec::new(),
        auto_focus: false,
    }
}

fn sample() -> RetainedTree {
    // 1 ─ 2 ─ 4 "Hello"
    //   │   └ 5 "world"
    //   └ 3 "!"
    let mut elements = HashMap::new();
    for e in [
        element(1, None, vec![2, 3], None),
        element(2, Some(1), vec![4, 5], None),
        element(3, Some(1), vec![], Some("!")),
        element(4, Some(2), vec![], Some("Hello")),
        element(5, Some(2), vec![], Some("world")),
    ] {
        elements.insert(e.id, e);
    }
    RetainedTree { elements, root_id: Some(1) }
}

#[test]
fn all_text_comes_in_document_order() {
    assert_eq!(sample().get_all_text(), vec!["Hello", "world", "!"]);
    let empty = RetainedTree { elements: HashMap::new(), root_id: None };
    assert!(empty.get_all_text().is_empty());
}

#[test]
fn collect_text_appends_one_subtree() {
    let tree = sample();
    let mut texts = vec!["before".to_string()];
    collect_text(2, &tree, &mut texts);
    assert_eq!(texts, vec!["before", "Hello", "world"]);
    collect_text(9, &tree, &mut texts);
    assert_eq!(texts.len(), 3, "a missing element adds nothing");
}

#[test]
fn the_row_of_a_virtual_list_is_the_ancestor_under_the_list() {
    let tree = sample();
    assert_eq!(virtual_row_ancestor(&tree, 1, 5), Some(2));
    assert_eq!(virtual_row_ancestor(&tree, 1, 2), Some(2));
    assert_eq!(virtual_row_ancestor(&tree, 2, 4), Some(4));
    assert_eq!(virtual_row_ancestor(&tree, 3, 5), None, "not under the list");
    assert_eq!(virtual_row_ancestor(&tree, 1, 1), None, "the root has no parent");
    assert_eq!(virtual_row_ancestor(&tree, 1, 9), None, "a missing element");
}

#[test]
fn prune_forgets_only_elements_that_left() {
    let tree = sample();
    let mut animations: HashMap<u64, &str> = [(1, "a"), (7, "b"), (4, "c")].into_iter().collect();
    let mut snap: HashMap<u64, u32> = [(8, 1)].into_iter().collect();
    let mut done: HashSet<u64> = [3, 9].into_iter().collect();
    prune(&tree, &mut animations, &mut snap, &mut done);
    assert_eq!(animations, [(1, "a"), (4, "c")].into_iter().collect());
    assert!(snap.is_empty());
    assert_eq!(done, [3].into_iter().collect());

    prune(&tree, &mut animations, &mut snap, &mut done);
    assert_eq!(animations.len(), 2, "pruning twice changes nothing more");
}

#[test]
fn an_element_reveals_the_row_of_the_nearest_virtual_list() {
    let tree = sample();
    let lists: HashSet<u64> = [2].into_iter().collect();
    assert_eq!(virtual_list_location(&tree, &lists, 5), Some((2, 1)));
    assert_eq!(virtual_list_location(&tree, &lists, 4), Some((2, 0)));
    assert_eq!(virtual_list_location(&tree, &lists, 3), None, "not inside a list");
    let outer: HashSet<u64> = [1, 2].into_iter().collect();
    assert_eq!(virtual_list_location(&tree, &outer, 5), Some((2, 1)), "the nearest list wins");
    let root_list: HashSet<u64> = [1].into_iter().collect();
    assert_eq!(virtual_list_location(&tree, &root_list, 5), Some((1, 0)));
    assert_eq!(virtual_list_location(&tree, &root_list, 9), None, "a missing element");
}

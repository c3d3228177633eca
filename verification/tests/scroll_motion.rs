use std::collections::{HashMap, HashSet};

use gpuix_native::scroll_motion::{
    axis_target, initial_targets, smooth_ease, snap_align, snap_areas, snap_stop_always,
    snap_type, Align, Behavior, Candidate, MotionEase, Strictness,
};
use gpuix_native::style::StyleDesc;
use gpuix_native::tree::{prune, RetainedElement, RetainedTree};

fn candidate(offset: i32) -> Candidate {
    Candidate { offset, always: false }
}

fn always(offset: i32) -> Candidate {
    Candidate { offset, always: true }
}

#[test]
fn the_nearest_candidate_wins() {
    let candidates = [candidate(0), candidate(-100), candidate(-200)];
    let target = axis_target(&candidates, -80, 0, 500, Strictness::Mandatory);
    assert_eq!(target, Some(-100));
}

#[test]
fn proximity_gives_up_beyond_half_a_viewport() {
    let candidates = [candidate(-300)];
    assert_eq!(axis_target(&candidates, -100, -100, 150, Strictness::Proximity), None);
    assert_eq!(axis_target(&candidates, -200, -200, 150, Strictness::Proximity), Some(-300));
}

#[test]
fn an_always_stop_catches_a_long_scroll() {
    let candidates = [candidate(0), always(-100), candidate(-200)];
    // A fling from 0 that would rest near -200 stops at the -100 area.
    let target = axis_target(&candidates, -190, 0, 500, Strictness::Mandatory);
    assert_eq!(target, Some(-100));
    // A short move from -90 rests at -100 without a fight, because the
    // stop is not strictly between the start and the target.
    let target = axis_target(&candidates, -110, -90, 500, Strictness::Mandatory);
    assert_eq!(target, Some(-100));
}

fn snap_type_style(text: &str) -> StyleDesc {
    let mut style = StyleDesc::default();
    style.scroll_snap_type = Some(text.to_string());
    style
}

#[test]
fn snap_type_reads_axis_and_strictness() {
    let both = snap_type(Some(&snap_type_style("both mandatory"))).unwrap();
    assert!(both.x && both.y);
    assert!(both.strictness == Strictness::Mandatory);
    let x = snap_type(Some(&snap_type_style("x"))).unwrap();
    assert!(x.x && !x.y);
    assert!(x.strictness == Strictness::Proximity);
    let block = snap_type(Some(&snap_type_style("block proximity"))).unwrap();
    assert!(!block.x && block.y);
    assert!(snap_type(Some(&snap_type_style("none"))).is_none());
}

fn align_style(text: &str) -> StyleDesc {
    let mut style = StyleDesc::default();
    style.scroll_snap_align = Some(text.to_string());
    style
}

#[test]
fn snap_align_reads_one_or_two_words() {
    assert_eq!(snap_align(Some(&align_style("start"))), [Some(Align::Start); 2]);
    assert_eq!(
        snap_align(Some(&align_style("center end"))),
        [Some(Align::Center), Some(Align::End)]
    );
    assert_eq!(snap_align(Some(&align_style("none"))), [None, None]);
    assert_eq!(snap_align(None), [None, None]);
}

#[test]
fn snap_type_reads_inline_y_and_extra_space() {
    let inline = snap_type(Some(&snap_type_style("  inline   mandatory "))).unwrap();
    assert!(inline.x && !inline.y && inline.strictness == Strictness::Mandatory);
    let y = snap_type(Some(&snap_type_style("y"))).unwrap();
    assert!(!y.x && y.y && y.strictness == Strictness::Proximity);
    assert!(snap_type(Some(&snap_type_style(""))).is_none());
    assert!(snap_type(Some(&StyleDesc::default())).is_none());
    assert!(snap_type(None).is_none());
}

#[test]
fn an_unknown_inline_word_aligns_only_the_block_axis() {
    assert_eq!(snap_align(Some(&align_style("end middle"))), [Some(Align::End), None]);
    assert_eq!(snap_align(Some(&align_style(""))), [None, None]);
}

#[test]
fn snap_stop_reads_always_trimmed() {
    let mut style = StyleDesc::default();
    assert!(!snap_stop_always(Some(&style)));
    style.scroll_snap_stop = Some(" always ".to_string());
    assert!(snap_stop_always(Some(&style)));
    style.scroll_snap_stop = Some("normal".to_string());
    assert!(!snap_stop_always(Some(&style)));
    assert!(!snap_stop_always(None));
}

#[test]
fn behavior_reads_smooth_and_instant() {
    assert_eq!(Behavior::parse(Some(" smooth ")), Behavior::Smooth);
    assert_eq!(Behavior::parse(Some("instant")), Behavior::Instant);
    assert_eq!(Behavior::parse(Some("auto")), Behavior::Auto);
    assert_eq!(Behavior::parse(Some("Smooth")), Behavior::Auto);
    assert_eq!(Behavior::parse(None), Behavior::Auto);
}

#[test]
fn auto_behavior_reads_the_scroll_box() {
    let mut style = StyleDesc::default();
    assert!(!Behavior::Auto.smooth(Some(&style)));
    style.scroll_behavior = Some("smooth".to_string());
    assert!(Behavior::Auto.smooth(Some(&style)));
    assert!(!Behavior::Instant.smooth(Some(&style)));
    assert!(Behavior::Smooth.smooth(None));
    assert!(!Behavior::Auto.smooth(None));
}

#[test]
fn a_smooth_scroll_eases_in_and_out() {
    assert_eq!(smooth_ease(), MotionEase::Name("easeInOut".to_string()));
}

#[test]
fn no_candidate_stays_put() {
    assert_eq!(axis_target(&[], -10, 0, 100, Strictness::Mandatory), None);
    assert_eq!(axis_target(&[], -10, 0, 100, Strictness::Proximity), None);
}

#[test]
fn a_tie_goes_to_the_first_candidate() {
    let candidates = [candidate(-50), candidate(-150)];
    assert_eq!(axis_target(&candidates, -100, -100, 500, Strictness::Mandatory), Some(-50));
}

#[test]
fn mandatory_snaps_however_far_the_position() {
    let candidates = [candidate(-10_000)];
    assert_eq!(axis_target(&candidates, 0, 0, 10, Strictness::Mandatory), Some(-10_000));
}

#[test]
fn a_negative_reach_counts_as_zero() {
    let candidates = [candidate(-40)];
    assert_eq!(axis_target(&candidates, -40, -40, -5, Strictness::Proximity), Some(-40));
    assert_eq!(axis_target(&candidates, -41, -41, -5, Strictness::Proximity), None);
}

#[test]
fn the_always_stop_nearest_the_start_wins() {
    let candidates = [always(-150), candidate(-300), always(-60)];
    assert_eq!(axis_target(&candidates, -290, 0, 500, Strictness::Mandatory), Some(-60));
    // Scrolling back up from -300 meets -150 first.
    let candidates = [always(-60), candidate(0), always(-150)];
    assert_eq!(axis_target(&candidates, -10, -300, 500, Strictness::Mandatory), Some(-150));
}

fn element(id: u64, children: Vec<u64>, style: Option<StyleDesc>) -> RetainedElement {
    RetainedElement {
        id,
        element_type: "div".to_string(),
        content: None,
        children,
        parent: None,
        style,
        events: Vec::new(),
        custom_props: Vec::new(),
        auto_focus: false,
    }
}

fn tree_of(elements: Vec<RetainedElement>) -> RetainedTree {
    let mut map = HashMap::new();
    for e in elements {
        map.insert(e.id, e);
    }
    RetainedTree { elements: map, root_id: Some(1) }
}

#[test]
fn snap_areas_walk_the_subtree_but_not_nested_scroll_boxes() {
    let tree = tree_of(vec![
        element(1, vec![2, 3, 4], None),
        element(2, vec![5], Some(align_style("start"))),
        element(3, vec![6], None),
        element(4, vec![], Some(align_style("center"))),
        element(5, vec![], Some(align_style("end"))),
        element(6, vec![7], Some(align_style("start"))),
        element(7, vec![], Some(align_style("start"))),
    ]);
    // 3 owns a scroll handle: its children belong to its own snap port.
    let boxes: HashSet<u64> = [1, 3].into_iter().collect();
    let areas = snap_areas(&tree, 1, &boxes);
    assert_eq!(areas, vec![4, 2, 5]);

    let no_boxes: HashSet<u64> = [1].into_iter().collect();
    assert_eq!(snap_areas(&tree, 1, &no_boxes), vec![4, 6, 7, 2, 5]);
    assert_eq!(snap_areas(&tree, 99, &no_boxes), Vec::<u64>::new());
}

#[test]
fn snap_areas_skip_missing_children() {
    let tree = tree_of(vec![
        element(1, vec![2, 8], None),
        element(2, vec![], Some(align_style("none start"))),
    ]);
    let boxes: HashSet<u64> = HashSet::new();
    assert_eq!(snap_areas(&tree, 1, &boxes), vec![2]);
}

fn target_style() -> StyleDesc {
    let mut style = StyleDesc::default();
    style.scroll_initial_target = Some(" nearest".to_string());
    style
}

#[test]
fn an_initial_target_scrolls_once_after_it_paints() {
    let tree = tree_of(vec![
        element(1, vec![2, 3], None),
        element(2, vec![], Some(target_style())),
        element(3, vec![], Some(target_style())),
    ]);
    let mut done = HashSet::new();
    let painted: HashSet<u64> = [1, 2].into_iter().collect();
    let (mut targets, waiting) = initial_targets(&tree, &mut done, &painted);
    targets.sort();
    assert_eq!(targets, vec![2]);
    assert!(waiting, "3 has not painted yet");
    assert!(done.contains(&2) && !done.contains(&3));

    let painted: HashSet<u64> = [1, 2, 3].into_iter().collect();
    let (targets, waiting) = initial_targets(&tree, &mut done, &painted);
    assert_eq!(targets, vec![3]);
    assert!(!waiting);

    let (targets, waiting) = initial_targets(&tree, &mut done, &painted);
    assert!(targets.is_empty(), "each element scrolls into view once");
    assert!(!waiting);
}

#[test]
fn a_remounted_initial_target_scrolls_again() {
    let full = tree_of(vec![element(1, vec![2], None), element(2, vec![], Some(target_style()))]);
    let painted: HashSet<u64> = [1, 2].into_iter().collect();
    let mut done = HashSet::new();
    assert_eq!(initial_targets(&full, &mut done, &painted).0, vec![2]);

    let without = tree_of(vec![element(1, vec![], None)]);
    let mut animations: HashMap<u64, ()> = HashMap::new();
    let mut snap: HashMap<u64, ()> = HashMap::new();
    prune(&without, &mut animations, &mut snap, &mut done);
    assert!(done.is_empty());

    assert_eq!(initial_targets(&full, &mut done, &painted).0, vec![2]);
}

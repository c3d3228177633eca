//! CSS `scroll-behavior`, `scroll-snap-*` and `scroll-initial-target`: how a
//! style is read, and where a snap container comes to rest.
//!
//! Scroll snap watches each snap container. When it has rested, it picks the
//! nearest snap position among its snap areas and glides to it. `mandatory`
//! always snaps. `proximity` snaps only when the position is within half a
//! viewport. `scroll-snap-stop: always` on an area stops a scroll that would
//! pass over it.

use vstd::prelude::*;

use crate::style::{declared, declared_trimmed_is, trimmed_is, StyleDesc};
use crate::text::{chars_eq, chars_of, split_whitespace, words};
use crate::tree::{element_ids, RetainedElement, RetainedTree};

use std::collections::HashSet;

verus! {

/// An easing curve.
#[derive(Clone, Debug, PartialEq, Eq)]
pub enum MotionEase {
    /// A named curve such as `easeInOut`.
    Name(String),
}

/// The curve a smooth scroll glides along.
pub fn smooth_ease() -> (e: MotionEase)
    ensures
        e matches MotionEase::Name(name) && name@ == "easeInOut"@,
{
    MotionEase::Name(String::from_str("easeInOut"))
}

/// The `behavior` option of `scrollTo` and `scrollIntoView`. `Auto` reads
/// the `scroll-behavior` of each scroll box.
#[derive(Clone, Copy, Debug, PartialEq, Eq, Structural)]
pub enum Behavior {
    Auto,
    Instant,
    Smooth,
}

/// The behavior a `behavior` option names.
pub open spec fn behavior_named(word: Option<Seq<char>>) -> Behavior {
    if trimmed_is(word, "smooth"@) {
        Behavior::Smooth
    } else if trimmed_is(word, "instant"@) {
        Behavior::Instant
    } else {
        Behavior::Auto
    }
}

/// Whether a scroll of a box with this style moves smoothly.
pub open spec fn moves_smoothly(behavior: Behavior, style: Option<StyleDesc>) -> bool {
    match behavior {
        Behavior::Smooth => true,
        Behavior::Instant => false,
        Behavior::Auto => trimmed_is(declared(style, |s: StyleDesc| s.scroll_behavior), "smooth"@),
    }
}

pub open spec fn option_ref_view(style: Option<&StyleDesc>) -> Option<StyleDesc> {
    match style {
        Some(s) => Some(*s),
        None => None,
    }
}

impl Behavior {
    /// `smooth` and `instant`, trimmed; anything else is `auto`.
    pub fn parse(word: Option<&str>) -> (b: Behavior)
        ensures
            b == behavior_named(match word { Some(w) => Some(w@), None => None }),
    {
        match word {
            Some(w) => {
                let text = Some(String::from_str(w));
                if declared_trimmed_is(&text, "smooth") {
                    Behavior::Smooth
                } else if declared_trimmed_is(&text, "instant") {
                    Behavior::Instant
                } else {
                    Behavior::Auto
                }
            },
            None => Behavior::Auto,
        }
    }

    /// Whether a scroll of the box with this style moves smoothly.
    pub fn smooth(self, style: Option<&StyleDesc>) -> (b: bool)
        ensures
            b == moves_smoothly(self, option_ref_view(style)),
    {
        match self {
            Behavior::Smooth => true,
            Behavior::Instant => false,
            Behavior::Auto => match style {
                Some(s) => declared_trimmed_is(&s.scroll_behavior, "smooth"),
                None => false,
            },
        }
    }
}

/// `mandatory` or `proximity`.
#[derive(Clone, Copy, Debug, PartialEq, Eq, Structural)]
pub enum Strictness {
    Mandatory,
    Proximity,
}

/// A parsed `scroll-snap-type`.
#[derive(Clone, Copy, Debug, PartialEq, Eq, Structural)]
pub struct SnapType {
    pub x: bool,
    pub y: bool,
    pub strictness: Strictness,
}

/// The snap type that the words of a `scroll-snap-type` declare: the axis
/// first, then an optional strictness that defaults to `proximity`.
pub open spec fn snap_type_of_words(w: Seq<Seq<char>>) -> Option<SnapType> {
    if w.len() == 0 {
        None
    } else {
        let strictness = if w.len() > 1 && w[1] == "mandatory"@ {
            Strictness::Mandatory
        } else {
            Strictness::Proximity
        };
        if w[0] == "x"@ || w[0] == "inline"@ {
            Some(SnapType { x: true, y: false, strictness })
        } else if w[0] == "y"@ || w[0] == "block"@ {
            Some(SnapType { x: false, y: true, strictness })
        } else if w[0] == "both"@ {
            Some(SnapType { x: true, y: true, strictness })
        } else {
            None
        }
    }
}

/// The `scroll-snap-type` of a style, if it declares a valid one.
pub open spec fn declared_snap_type(style: Option<StyleDesc>) -> Option<SnapType> {
    match declared(style, |s: StyleDesc| s.scroll_snap_type) {
        Some(t) => snap_type_of_words(words(t)),
        None => None,
    }
}

/// Read `scroll-snap-type`.
pub fn snap_type(style: Option<&StyleDesc>) -> (r: Option<SnapType>)
    ensures
        r == declared_snap_type(option_ref_view(style)),
{
    let s = match style {
        Some(s) => s,
        None => return None,
    };
    let text = match &s.scroll_snap_type {
        Some(t) => t,
        None => return None,
    };
    let chars = chars_of(text.as_str());
    let parts = split_whitespace(chars.as_slice());
    if parts.len() == 0 {
        return None;
    }
    let strictness = if parts.len() > 1 && chars_eq(parts[1].as_slice(), "mandatory") {
        Strictness::Mandatory
    } else {
        Strictness::Proximity
    };
    let first = parts[0].as_slice();
    if chars_eq(first, "x") || chars_eq(first, "inline") {
        Some(SnapType { x: true, y: false, strictness })
    } else if chars_eq(first, "y") || chars_eq(first, "block") {
        Some(SnapType { x: false, y: true, strictness })
    } else if chars_eq(first, "both") {
        Some(SnapType { x: true, y: true, strictness })
    } else {
        None
    }
}

/// The axis of `scroll-snap-type` comes from its first word and the
/// strictness from its second, whatever the axis: `mandatory` there makes
/// it mandatory, anything else or nothing makes it proximity.
pub proof fn lemma_snap_type_words(style: StyleDesc, text: String)
    requires
        style.scroll_snap_type == Some(text),
    ensures
        ({
            let w = words(text@);
            let snap = declared_snap_type(Some(style));
            &&& snap is Some <==> (w.len() > 0 && (w[0] == "x"@ || w[0] == "inline"@ || w[0] == "y"@
                || w[0] == "block"@ || w[0] == "both"@))
            &&& snap matches Some(v) ==> {
                &&& v.strictness == (if w.len() > 1 && w[1] == "mandatory"@ {
                    Strictness::Mandatory
                } else {
                    Strictness::Proximity
                })
                &&& v.x == (w[0] == "x"@ || w[0] == "inline"@ || w[0] == "both"@)
                &&& v.y == (w[0] == "y"@ || w[0] == "block"@ || w[0] == "both"@)
            }
        }),
{
    reveal_strlit("x");
    reveal_strlit("y");
    reveal_strlit("inline");
    reveal_strlit("block");
    reveal_strlit("both");
    assert("x"@ != "y"@) by {
        assert("x"@[0] != "y"@[0]);
    }
    assert("x"@.len() == 1 && "y"@.len() == 1 && "inline"@.len() == 6 && "block"@.len() == 5 && "both"@.len() == 4);
}

/// Where an area lines up with the snap port.
#[derive(Clone, Copy, Debug, PartialEq, Eq, Structural)]
pub enum Align {
    Start,
    Center,
    End,
    Nearest,
}

/// The alignment one `scroll-snap-align` word names.
pub open spec fn align_word(w: Seq<char>) -> Option<Align> {
    if w == "start"@ {
        Some(Align::Start)
    } else if w == "center"@ {
        Some(Align::Center)
    } else if w == "end"@ {
        Some(Align::End)
    } else {
        None
    }
}

fn align_of(w: &[char]) -> (r: Option<Align>)
    ensures
        r == align_word(w@),
{
    if chars_eq(w, "start") {
        Some(Align::Start)
    } else if chars_eq(w, "center") {
        Some(Align::Center)
    } else if chars_eq(w, "end") {
        Some(Align::End)
    } else {
        None
    }
}

/// The block and inline alignment a `scroll-snap-align` declares: one word
/// stands for both axes, two are the block word then the inline word.
pub open spec fn declared_snap_align(style: Option<StyleDesc>) -> (Option<Align>, Option<Align>) {
    match declared(style, |s: StyleDesc| s.scroll_snap_align) {
        Some(t) => {
            let w = words(t);
            let block = if w.len() > 0 {
                align_word(w[0])
            } else {
                None
            };
            if w.len() > 1 {
                (block, align_word(w[1]))
            } else {
                (block, block)
            }
        },
        None => (None, None),
    }
}

/// A parsed `scroll-snap-align`, as the block word then the inline word.
pub fn snap_align(style: Option<&StyleDesc>) -> (r: [Option<Align>; 2])
    ensures
        r@[0] == declared_snap_align(option_ref_view(style)).0,
        r@[1] == declared_snap_align(option_ref_view(style)).1,
{
    let s = match style {
        Some(s) => s,
        None => return [None, None],
    };
    let text = match &s.scroll_snap_align {
        Some(t) => t,
        None => return [None, None],
    };
    let chars = chars_of(text.as_str());
    let parts = split_whitespace(chars.as_slice());
    let block = if parts.len() > 0 {
        align_of(parts[0].as_slice())
    } else {
        None
    };
    if parts.len() > 1 {
        [block, align_of(parts[1].as_slice())]
    } else {
        [block, block]
    }
}

/// Whether the style declares `scroll-snap-stop: always`.
pub fn snap_stop_always(style: Option<&StyleDesc>) -> (b: bool)
    ensures
        b == trimmed_is(declared(option_ref_view(style), |s: StyleDesc| s.scroll_snap_stop), "always"@),
{
    match style {
        Some(s) => declared_trimmed_is(&s.scroll_snap_stop, "always"),
        None => false,
    }
}

/// Whether the style declares `scroll-initial-target: nearest`.
pub fn initial_target_declared(style: Option<&StyleDesc>) -> (b: bool)
    ensures
        b == trimmed_is(declared(option_ref_view(style), |s: StyleDesc| s.scroll_initial_target), "nearest"@),
{
    match style {
        Some(s) => declared_trimmed_is(&s.scroll_initial_target, "nearest"),
        None => false,
    }
}

/// One candidate snap position on one axis. Offsets are scroll offsets on
/// that axis, in one whole unit the caller picks.
#[derive(Clone, Copy, Debug, PartialEq, Eq, Structural)]
pub struct Candidate {
    pub offset: i32,
    pub always: bool,
}

/// The distance between two offsets.
pub open spec fn distance(a: int, b: int) -> int {
    if a >= b { a - b } else { b - a }
}

/// The index of the first candidate that `keep` admits and that lies
/// nearest to `to`; an earlier candidate wins a tie, as `min_by` returns the
/// first of several equal minima.
pub open spec fn first_nearest(c: Seq<Candidate>, to: int, keep: spec_fn(Candidate) -> bool) -> Option<int>
    decreases c.len(),
{
    if c.len() == 0 {
        None
    } else {
        let rest = first_nearest(c.drop_last(), to, keep);
        let last = c.last();
        if keep(last) && (rest is None || distance(last.offset as int, to) < distance(c[rest->0].offset as int, to)) {
            Some(c.len() - 1)
        } else {
            rest
        }
    }
}

/// Every candidate admits.
pub open spec fn any_candidate() -> spec_fn(Candidate) -> bool {
    |c: Candidate| true
}

/// An `always` stop strictly between `low` and `high`.
pub open spec fn stop_between(low: int, high: int) -> spec_fn(Candidate) -> bool {
    |c: Candidate| c.always && low < c.offset && c.offset < high
}

/// The lower end of the span a scroll covers between two offsets.
pub open spec fn span_low(a: int, b: int) -> int {
    if a <= b { a } else { b }
}

/// The upper end of the span a scroll covers between two offsets.
pub open spec fn span_high(a: int, b: int) -> int {
    if a <= b { b } else { a }
}

/// The resting offset on one axis, or `None` to stay put: the nearest
/// candidate, unless `proximity` gives up beyond `reach`, and unless an
/// `always` candidate lies strictly between the start of the scroll and that
/// nearest position, in which case the one of those nearest to the start
/// wins, so a long scroll stops at it.
pub open spec fn axis_rest(c: Seq<Candidate>, current: int, from: int, reach: int, strictness: Strictness) -> Option<int> {
    match first_nearest(c, current, any_candidate()) {
        None => None,
        Some(i) => {
            let nearest = c[i].offset as int;
            if strictness == Strictness::Proximity && distance(nearest, current) > (if reach > 0 { reach } else { 0 }) {
                None
            } else {
                match first_nearest(c, from, stop_between(span_low(from, nearest), span_high(from, nearest))) {
                    Some(j) => Some(c[j].offset as int),
                    None => Some(nearest),
                }
            }
        }
    }
}

pub proof fn lemma_first_nearest_in_range(c: Seq<Candidate>, to: int, keep: spec_fn(Candidate) -> bool)
    ensures
        first_nearest(c, to, keep) matches Some(i) ==> 0 <= i < c.len() && keep(c[i]),
        first_nearest(c, to, keep) is None ==> forall|j: int| 0 <= j < c.len() ==> !keep(#[trigger] c[j]),
    decreases c.len(),
{
    if c.len() > 0 {
        lemma_first_nearest_in_range(c.drop_last(), to, keep);
        assert forall|j: int| 0 <= j < c.len() - 1 implies c.drop_last()[j] == #[trigger] c[j] by {}
    }
}

/// The candidate `first_nearest` picks is at least as near as every other
/// candidate that `keep` admits.
pub proof fn lemma_first_nearest_is_nearest(c: Seq<Candidate>, to: int, keep: spec_fn(Candidate) -> bool)
    ensures
        first_nearest(c, to, keep) matches Some(i) ==> forall|j: int| 0 <= j < c.len() && keep(c[j])
            ==> distance(c[i].offset as int, to) <= distance(#[trigger] c[j].offset as int, to),
        (exists|j: int| 0 <= j < c.len() && #[trigger] keep(c[j])) ==> first_nearest(c, to, keep) is Some,
    decreases c.len(),
{
    lemma_first_nearest_in_range(c, to, keep);
    if c.len() > 0 {
        let init = c.drop_last();
        lemma_first_nearest_is_nearest(init, to, keep);
        lemma_first_nearest_in_range(init, to, keep);
        assert forall|j: int| 0 <= j < c.len() - 1 implies init[j] == #[trigger] c[j] by {}
        if exists|j: int| 0 <= j < c.len() && #[trigger] keep(c[j]) {
            let j = choose|j: int| 0 <= j < c.len() && #[trigger] keep(c[j]);
            if j < c.len() - 1 {
                assert(keep(init[j]));
            }
        }
        if let Some(i) = first_nearest(c, to, keep) {
            assert forall|j: int| 0 <= j < c.len() && keep(c[j])
                implies distance(c[i].offset as int, to) <= distance(#[trigger] c[j].offset as int, to) by {
                if j < c.len() - 1 {
                    assert(keep(init[j]));
                }
            }
        }
    }
}

/// `mandatory` always snaps a container that has a snap position.
pub proof fn lemma_mandatory_always_snaps(c: Seq<Candidate>, current: int, from: int, reach: int)
    requires
        c.len() > 0,
    ensures
        axis_rest(c, current, from, reach, Strictness::Mandatory) is Some,
{
    assert(any_candidate()(c[0]));
    lemma_first_nearest_is_nearest(c, current, any_candidate());
}

/// `proximity` stays put exactly when every snap position is farther than
/// `reach` (half a viewport), or there is none.
pub proof fn lemma_proximity_reach(c: Seq<Candidate>, current: int, from: int, reach: int)
    ensures
        axis_rest(c, current, from, reach, Strictness::Proximity) is None <==> forall|j: int| 0 <= j < c.len()
            ==> distance(#[trigger] c[j].offset as int, current) > (if reach > 0 { reach } else { 0 }),
{
    lemma_first_nearest_in_range(c, current, any_candidate());
    lemma_first_nearest_is_nearest(c, current, any_candidate());
    let limit = if reach > 0 { reach } else { 0 };
    if exists|j: int| 0 <= j < c.len() && distance(#[trigger] c[j].offset as int, current) <= limit {
        let j = choose|j: int| 0 <= j < c.len() && distance(#[trigger] c[j].offset as int, current) <= limit;
        assert(any_candidate()(c[j]));
    }
}

/// A container comes to rest on one of its snap positions: the nearest
/// one, unless an `always` position lies strictly between the start of the
/// scroll and that nearest one; then it stops at such an `always`
/// position, the one nearest the start.
pub proof fn lemma_rest_is_a_snap_position(c: Seq<Candidate>, current: int, from: int, reach: int, strictness: Strictness)
    ensures
        axis_rest(c, current, from, reach, strictness) matches Some(t) ==> {
            let n = c[first_nearest(c, current, any_candidate())->0].offset as int;
            let low = span_low(from, n);
            let high = span_high(from, n);
            &&& forall|j: int| 0 <= j < c.len() ==> distance(n, current) <= distance(#[trigger] c[j].offset as int, current)
            &&& (forall|j: int| 0 <= j < c.len() ==> !(#[trigger] stop_between(low, high)(c[j]))) ==> t == n
            &&& (exists|j: int| 0 <= j < c.len() && #[trigger] stop_between(low, high)(c[j])) ==> exists|k: int| {
                &&& 0 <= k < c.len()
                &&& stop_between(low, high)(c[k])
                &&& t == c[k].offset as int
                &&& forall|j: int| 0 <= j < c.len() && stop_between(low, high)(c[j])
                    ==> distance(t, from) <= distance(#[trigger] c[j].offset as int, from)
            }
        },
{
    lemma_first_nearest_in_range(c, current, any_candidate());
    lemma_first_nearest_is_nearest(c, current, any_candidate());
    if let Some(i) = first_nearest(c, current, any_candidate()) {
        let n = c[i].offset as int;
        let low = span_low(from, n);
        let high = span_high(from, n);
        assert forall|j: int| 0 <= j < c.len() implies distance(n, current) <= distance(#[trigger] c[j].offset as int, current) by {
            assert(any_candidate()(c[j]));
        }
        lemma_first_nearest_in_range(c, from, stop_between(low, high));
        lemma_first_nearest_is_nearest(c, from, stop_between(low, high));
        if let Some(k) = first_nearest(c, from, stop_between(low, high)) {
            assert(0 <= k < c.len() && stop_between(low, high)(c[k]));
        }
    }
}

/// A candidate `first_nearest` picks is strictly nearer than every
/// earlier candidate that `keep` admits.
proof fn lemma_first_nearest_is_first(c: Seq<Candidate>, to: int, keep: spec_fn(Candidate) -> bool)
    ensures
        first_nearest(c, to, keep) matches Some(k) ==> forall|j: int| 0 <= j < k && keep(c[j])
            ==> distance(c[k].offset as int, to) < distance(#[trigger] c[j].offset as int, to),
    decreases c.len(),
{
    lemma_first_nearest_in_range(c, to, keep);
    if c.len() > 0 {
        let init = c.drop_last();
        lemma_first_nearest_is_first(init, to, keep);
        lemma_first_nearest_in_range(init, to, keep);
        lemma_first_nearest_is_nearest(init, to, keep);
        assert forall|j: int| 0 <= j < c.len() - 1 implies init[j] == #[trigger] c[j] by {}
        if let Some(k) = first_nearest(c, to, keep) {
            assert forall|j: int| 0 <= j < k && keep(c[j])
                implies distance(c[k].offset as int, to) < distance(#[trigger] c[j].offset as int, to) by {
                assert(keep(init[j]));
            }
        }
    }
}

/// A box comes to rest on the nearest snap position (the first of equally
/// near ones) unless an `always` stop lies strictly between where the
/// scroll started and that position. A stop at the start or at the nearest
/// position itself does not count, so a box can always leave the stop it
/// rests on.
pub proof fn lemma_nearest_unless_a_stop_lies_strictly_between(
    c: Seq<Candidate>,
    current: int,
    from: int,
    reach: int,
    strictness: Strictness,
    i: int,
)
    requires
        0 <= i < c.len(),
        forall|j: int| 0 <= j < c.len() ==> (if c[i].offset >= current { c[i].offset - current } else { current - c[i].offset })
            <= (if #[trigger] c[j].offset >= current { c[j].offset - current } else { current - c[j].offset }),
        forall|j: int| 0 <= j < i ==> (if c[i].offset >= current { c[i].offset - current } else { current - c[i].offset })
            < (if #[trigger] c[j].offset >= current { c[j].offset - current } else { current - c[j].offset }),
        strictness == Strictness::Mandatory
            || (if c[i].offset >= current { c[i].offset - current } else { current - c[i].offset }) <= reach,
        forall|j: int| 0 <= j < c.len() && #[trigger] c[j].always ==> !(
            (if from <= c[i].offset { from } else { c[i].offset as int }) < c[j].offset
            && c[j].offset < (if from <= c[i].offset { c[i].offset as int } else { from })),
    ensures
        axis_rest(c, current, from, reach, strictness) == Some(c[i].offset as int),
{
    let any = any_candidate();
    lemma_first_nearest_in_range(c, current, any);
    lemma_first_nearest_is_nearest(c, current, any);
    lemma_first_nearest_is_first(c, current, any);
    assert(any(c[i]));
    let k = first_nearest(c, current, any)->0;
    assert(any(c[k]));
    if k < i {
        assert(any(c[k]));
    } else if i < k {
        assert(any(c[i]));
    }
    assert(k == i);
    let n = c[i].offset as int;
    let keep = stop_between(span_low(from, n), span_high(from, n));
    lemma_first_nearest_in_range(c, from, keep);
    if let Some(j) = first_nearest(c, from, keep) {
        assert(keep(c[j]));
        assert(c[j].always);
    }
}

/// The index of the first kept candidate nearest `to`.
fn nearest_index(c: &[Candidate], to: i32, low: i32, high: i32, stops_only: bool) -> (r: Option<usize>)
    ensures
        r matches Some(i) ==> Some(i as int) == first_nearest(c@, to as int, if stops_only { stop_between(low as int, high as int) } else { any_candidate() }),
        r is None ==> first_nearest(c@, to as int, if stops_only { stop_between(low as int, high as int) } else { any_candidate() }) is None,
{
    let ghost keep = if stops_only { stop_between(low as int, high as int) } else { any_candidate() };
    let mut best: Option<usize> = None;
    let mut best_distance: i64 = 0;
    let mut i: usize = 0;
    while i < c.len()
        invariant
            i <= c@.len(),
            keep == (if stops_only { stop_between(low as int, high as int) } else { any_candidate() }),
            match best {
                Some(b) => Some(b as int) == first_nearest(c@.take(i as int), to as int, keep)
                    && b < i && best_distance == distance(c@[b as int].offset as int, to as int),
                None => first_nearest(c@.take(i as int), to as int, keep) is None,
            },
        decreases c@.len() - i,
    {
        let candidate = c[i];
        let admitted = if stops_only {
            candidate.always && low < candidate.offset && candidate.offset < high
        } else {
            true
        };
        let d: i64 = if candidate.offset as i64 >= to as i64 {
            candidate.offset as i64 - to as i64
        } else {
            to as i64 - candidate.offset as i64
        };
        proof {
            let t = c@.take(i + 1);
            assert(t.drop_last() =~= c@.take(i as int));
            assert(t.last() == candidate);
            assert(admitted == keep(candidate));
            if let Some(b) = best {
                assert(t[b as int] == c@[b as int]);
            }
        }
        if admitted && (best.is_none() || d < best_distance) {
            best = Some(i);
            best_distance = d;
        }
        i += 1;
    }
    assert(c@.take(c@.len() as int) =~= c@);
    best
}

/// The resting offset on one axis, or `None` to stay put. `proximity`
/// gives up beyond `reach`, half a viewport. An `always` candidate between
/// the start of the scroll and the nearest position wins, so a long scroll
/// stops at it.
pub fn axis_target(candidates: &[Candidate], current: i32, from: i32, reach: i32, strictness: Strictness) -> (r: Option<i32>)
    ensures
        match r {
            Some(v) => axis_rest(candidates@, current as int, from as int, reach as int, strictness) == Some(v as int),
            None => axis_rest(candidates@, current as int, from as int, reach as int, strictness) is None,
        },
{
    let nearest_at = match nearest_index(candidates, current, 0, 0, false) {
        Some(i) => i,
        None => return None,
    };
    proof {
        lemma_first_nearest_in_range(candidates@, current as int, any_candidate());
    }
    let nearest = candidates[nearest_at].offset;
    let gap: i64 = if nearest as i64 >= current as i64 {
        nearest as i64 - current as i64
    } else {
        current as i64 - nearest as i64
    };
    let limit: i64 = if reach > 0 { reach as i64 } else { 0 };
    if strictness == Strictness::Proximity && gap > limit {
        return None;
    }
    let (low, high) = if from <= nearest { (from, nearest) } else { (nearest, from) };
    proof {
        lemma_first_nearest_in_range(candidates@, from as int, stop_between(low as int, high as int));
    }
    match nearest_index(candidates, from, low, high, true) {
        Some(j) => Some(candidates[j].offset),
        None => Some(nearest),
    }
}


// ── Snap areas ──────────────────────────────────────────────────────

/// Whether a style makes its element a snap area: its `scroll-snap-align`
/// names an alignment on at least one axis.
pub open spec fn is_snap_area(style: Option<StyleDesc>) -> bool {
    declared_snap_align(style).0 is Some || declared_snap_align(style).1 is Some
}

/// The snap areas met by walking `ids` with a stack, within `depth` levels:
/// the last id first, each area before what lies under it, and no look
/// inside an element in `boxes` (a nested scroll box).
pub open spec fn walk_areas(m: Map<u64, RetainedElement>, boxes: Set<u64>, ids: Seq<u64>, depth: nat) -> Seq<u64>
    decreases depth, ids.len(),
{
    if ids.len() == 0 || depth == 0 {
        Seq::empty()
    } else {
        let id = ids.last();
        let rest = walk_areas(m, boxes, ids.drop_last(), depth);
        if !m.contains_key(id) {
            rest
        } else {
            let own = if is_snap_area(m[id].style) { seq![id] } else { Seq::empty() };
            let inner = if boxes.contains(id) {
                Seq::empty()
            } else {
                walk_areas(m, boxes, m[id].children@, (depth - 1) as nat)
            };
            own + inner + rest
        }
    }
}

/// The walk over `ids` ends within `depth` levels.
pub open spec fn walk_ends(m: Map<u64, RetainedElement>, boxes: Set<u64>, ids: Seq<u64>, depth: nat) -> bool
    decreases depth, ids.len(),
{
    ids.len() == 0 || (depth > 0 && walk_ends(m, boxes, ids.drop_last(), depth) && (
        (m.contains_key(ids.last()) && !boxes.contains(ids.last())) ==> walk_ends(
            m,
            boxes,
            m[ids.last()].children@,
            (depth - 1) as nat,
        )))
}

/// More depth than the walk needs changes nothing.
pub proof fn lemma_walk_depth(m: Map<u64, RetainedElement>, boxes: Set<u64>, ids: Seq<u64>, d: nat, e: nat)
    requires
        walk_ends(m, boxes, ids, d),
        d <= e,
    ensures
        walk_ends(m, boxes, ids, e),
        walk_areas(m, boxes, ids, d) == walk_areas(m, boxes, ids, e),
    decreases d, ids.len(),
{
    if ids.len() > 0 {
        lemma_walk_depth(m, boxes, ids.drop_last(), d, e);
        let id = ids.last();
        if m.contains_key(id) && !boxes.contains(id) {
            lemma_walk_depth(m, boxes, m[id].children@, (d - 1) as nat, (e - 1) as nat);
        }
    }
}

/// The snap areas of `container`: every descendant whose style aligns it,
/// without looking inside the nested scroll boxes in `boxes`.
pub open spec fn container_areas(m: Map<u64, RetainedElement>, boxes: Set<u64>, container: u64) -> Seq<u64> {
    if m.contains_key(container) {
        let ids = m[container].children@;
        walk_areas(m, boxes, ids, choose|d: nat| walk_ends(m, boxes, ids, d))
    } else {
        Seq::empty()
    }
}

proof fn lemma_walk_keeps_areas(m: Map<u64, RetainedElement>, boxes: Set<u64>, ids: Seq<u64>, d: nat, x: u64)
    requires
        walk_ends(m, boxes, ids, d),
        ids.contains(x),
        m.contains_key(x),
        is_snap_area(m[x].style),
    ensures
        walk_areas(m, boxes, ids, d).contains(x),
    decreases ids.len(),
{
    let id = ids.last();
    let rest = walk_areas(m, boxes, ids.drop_last(), d);
    if id == x {
        let inner = if boxes.contains(id) { Seq::empty() } else { walk_areas(m, boxes, m[id].children@, (d - 1) as nat) };
        let all = seq![id] + inner + rest;
        assert(all[0] == x);
    } else {
        let k = choose|k: int| 0 <= k < ids.len() && ids[k] == x;
        assert(ids.drop_last()[k] == x);
        lemma_walk_keeps_areas(m, boxes, ids.drop_last(), d, x);
        let j = choose|j: int| 0 <= j < rest.len() && rest[j] == x;
        if m.contains_key(id) {
            let own = if is_snap_area(m[id].style) { seq![id] } else { Seq::<u64>::empty() };
            let inner = if boxes.contains(id) { Seq::empty() } else { walk_areas(m, boxes, m[id].children@, (d - 1) as nat) };
            let all = own + inner + rest;
            assert(all[own.len() + inner.len() + j] == x);
        }
    }
}

proof fn lemma_walk_only_areas(m: Map<u64, RetainedElement>, boxes: Set<u64>, ids: Seq<u64>, d: nat, x: u64)
    requires
        walk_areas(m, boxes, ids, d).contains(x),
    ensures
        m.contains_key(x),
        declared_snap_align(m[x].style).0 is Some || declared_snap_align(m[x].style).1 is Some,
    decreases d, ids.len(),
{
    if ids.len() > 0 && d > 0 {
        let id = ids.last();
        let rest = walk_areas(m, boxes, ids.drop_last(), d);
        let k = choose|k: int| 0 <= k < walk_areas(m, boxes, ids, d).len() && walk_areas(m, boxes, ids, d)[k] == x;
        if !m.contains_key(id) {
            lemma_walk_only_areas(m, boxes, ids.drop_last(), d, x);
        } else {
            let own = if is_snap_area(m[id].style) { seq![id] } else { Seq::<u64>::empty() };
            let inner = if boxes.contains(id) {
                Seq::<u64>::empty()
            } else {
                walk_areas(m, boxes, m[id].children@, (d - 1) as nat)
            };
            let all = own + inner + rest;
            assert(all == walk_areas(m, boxes, ids, d));
            if k < own.len() {
                assert(x == id);
            } else if k < own.len() + inner.len() {
                assert(inner[k - own.len()] == x);
                lemma_walk_only_areas(m, boxes, m[id].children@, (d - 1) as nat, x);
            } else {
                assert(rest[k - own.len() - inner.len()] == x);
                lemma_walk_only_areas(m, boxes, ids.drop_last(), d, x);
            }
        }
    }
}

/// A container's snap areas are elements of the tree that align themselves
/// on some axis.
pub proof fn lemma_areas_are_aligned(m: Map<u64, RetainedElement>, boxes: Set<u64>, container: u64, x: u64)
    requires
        container_areas(m, boxes, container).contains(x),
    ensures
        m.contains_key(x),
        declared_snap_align(m[x].style).0 is Some || declared_snap_align(m[x].style).1 is Some,
{
    let ids = m[container].children@;
    lemma_walk_only_areas(m, boxes, ids, choose|d: nat| walk_ends(m, boxes, ids, d), x);
}

/// Every child of a container that aligns itself on some axis is one of
/// its snap areas, a nested scroll box included: being a scroll box only
/// hides what lies under it.
pub proof fn lemma_aligned_child_is_an_area(m: Map<u64, RetainedElement>, boxes: Set<u64>, container: u64, id: u64)
    requires
        m.contains_key(container),
        exists|d: nat| walk_ends(m, boxes, m[container].children@, d),
        m[container].children@.contains(id),
        m.contains_key(id),
        declared_snap_align(m[id].style).0 is Some || declared_snap_align(m[id].style).1 is Some,
    ensures
        container_areas(m, boxes, container).contains(id),
{
    let ids = m[container].children@;
    let d = choose|d: nat| walk_ends(m, boxes, ids, d);
    lemma_walk_keeps_areas(m, boxes, ids, d, id);
}

fn is_snap_area_exec(style: &Option<StyleDesc>) -> (b: bool)
    ensures
        b == is_snap_area(*style),
{
    let align = snap_align(style.as_ref());
    align[0].is_some() || align[1].is_some()
}

fn walk_areas_into(
    tree: &RetainedTree,
    boxes: &HashSet<u64>,
    ids: &Vec<u64>,
    out: &mut Vec<u64>,
    Ghost(depth): Ghost<nat>,
)
    requires
        walk_ends(tree.elements@, boxes@, ids@, depth),
    ensures
        final(out)@ == old(out)@ + walk_areas(tree.elements@, boxes@, ids@, depth),
    decreases depth,
{
    let ghost m = tree.elements@;
    let ghost start = out@;
    let mut i: usize = ids.len();
    assert(ids@.take(i as int) =~= ids@);
    while i > 0
        invariant
            m == tree.elements@,
            i <= ids@.len(),
            walk_ends(m, boxes@, ids@.take(i as int), depth),
            out@ + walk_areas(m, boxes@, ids@.take(i as int), depth) == start + walk_areas(m, boxes@, ids@, depth),
        decreases i,
    {
        let ghost t = ids@.take(i as int);
        assert(t.drop_last() =~= ids@.take(i - 1));
        let id = ids[i - 1];
        assert(t.last() == id);
        let ghost before = out@;
        if let Some(element) = tree.elements.get(&id) {
            if is_snap_area_exec(&element.style) {
                out.push(id);
            }
            if !boxes.contains(&id) {
                walk_areas_into(tree, boxes, &element.children, out, Ghost((depth - 1) as nat));
            }
            let ghost own = if is_snap_area(m[id].style) { seq![id] } else { Seq::<u64>::empty() };
            let ghost inner = if boxes@.contains(id) {
                Seq::<u64>::empty()
            } else {
                walk_areas(m, boxes@, m[id].children@, (depth - 1) as nat)
            };
            assert(out@ == before + own + inner);
            assert(walk_areas(m, boxes@, t, depth) == own + inner + walk_areas(m, boxes@, ids@.take(i - 1), depth));
            assert(out@ + walk_areas(m, boxes@, ids@.take(i - 1), depth) =~= before + walk_areas(m, boxes@, t, depth));
        }
        i -= 1;
    }
    assert(ids@.take(0) =~= Seq::<u64>::empty());
    assert(out@ =~= start + walk_areas(m, boxes@, ids@, depth));
}

/// The snap areas of a container: every descendant with a
/// `scroll-snap-align`, without looking inside the nested scroll boxes
/// (`boxes`, the elements that own a scroll handle). The walk keeps a stack,
/// so the last child and what lies under it come first.
pub fn snap_areas(tree: &RetainedTree, container: u64, boxes: &HashSet<u64>) -> (areas: Vec<u64>)
    requires
        tree.elements@.contains_key(container) ==> exists|d: nat|
            walk_ends(tree.elements@, boxes@, tree.elements@[container].children@, d),
    ensures
        areas@ == container_areas(tree.elements@, boxes@, container),
{
    let mut areas: Vec<u64> = Vec::new();
    if let Some(element) = tree.elements.get(&container) {
        let ghost m = tree.elements@;
        let ghost ids = element.children@;
        let ghost d = choose|d: nat| walk_ends(m, boxes@, ids, d);
        walk_areas_into(tree, boxes, &element.children, &mut areas, Ghost(d));
        assert(areas@ =~= container_areas(m, boxes@, container));
    }
    areas
}

// ── Initial targets ─────────────────────────────────────────────────

/// Whether the element declares `scroll-initial-target: nearest`.
pub open spec fn wants_initial_target(e: RetainedElement) -> bool {
    trimmed_is(declared(e.style, |s: StyleDesc| s.scroll_initial_target), "nearest"@)
}

/// An element of the tree that still waits to be scrolled into view.
pub open spec fn initial_target_pending(tree: RetainedTree, done: Set<u64>, id: u64) -> bool {
    &&& tree.elements@.contains_key(id)
    &&& wants_initial_target(tree.elements@[id])
    &&& !done.contains(id)
}

/// The elements one frame of `scroll-initial-target` scrolls into view.
pub open spec fn initial_fire(tree: RetainedTree, done: Set<u64>, painted: Set<u64>) -> Set<u64> {
    Set::new(|id: u64| initial_target_pending(tree, done, id) && painted.contains(id))
}

/// An element is scrolled into view once: after the frame that fired it,
/// no later frame over the same tree fires it again.
pub proof fn lemma_initial_target_fires_once(tree: RetainedTree, done: Set<u64>, painted: Set<u64>, later: Set<u64>)
    ensures
        initial_fire(tree, done + initial_fire(tree, done, painted), later).disjoint(initial_fire(tree, done, painted)),
{
}

/// An element that left the tree re-arms: once `prune` has run without
/// it, a remounted element that declares `scroll-initial-target` waits to be
/// scrolled into view again.
pub proof fn lemma_remount_rearms(done: Set<u64>, gone: RetainedTree, back: RetainedTree, id: u64)
    requires
        !gone.elements@.contains_key(id),
        back.elements@.contains_key(id),
        wants_initial_target(back.elements@[id]),
    ensures
        initial_target_pending(back, done.intersect(gone.elements@.dom()), id),
{
}

/// One frame of `scroll-initial-target`. Every element that declares it
/// and has not been scrolled to yet either goes now, when it has painted
/// (`painted` holds the ids with painted bounds), or waits for a later
/// frame. Returns the elements to scroll into view now, which are marked as
/// done, and whether one still waits.
pub fn initial_targets(tree: &RetainedTree, done: &mut HashSet<u64>, painted: &HashSet<u64>) -> (r: (Vec<u64>, bool))
    ensures
        r.0@.no_duplicates(),
        r.0@.to_set() == initial_fire(*tree, old(done)@, painted@),
        final(done)@ == old(done)@ + r.0@.to_set(),
        r.1 <==> exists|id: u64| #[trigger] initial_target_pending(*tree, old(done)@, id) && !painted@.contains(id),
{
    let ids = element_ids(tree);
    let ghost before = done@;
    let mut targets: Vec<u64> = Vec::new();
    let mut waiting = false;
    let mut i: usize = 0;
    while i < ids.len()
        invariant
            i <= ids@.len(),
            ids@.to_set() == tree.elements@.dom(),
            ids@.no_duplicates(),
            targets@.no_duplicates(),
            forall|x: u64| #[trigger] targets@.contains(x) <==> (exists|j: int| 0 <= j < i && ids@[j] == x
                && initial_target_pending(*tree, before, x) && painted@.contains(x)),
            done@ == before + targets@.to_set(),
            waiting <==> exists|j: int| 0 <= j < i && #[trigger] initial_target_pending(*tree, before, ids@[j])
                && !painted@.contains(ids@[j]),
        decreases ids@.len() - i,
    {
        let id = ids[i];
        let ghost pending = initial_target_pending(*tree, before, id);
        let ghost old_t = targets@;
        let element = tree.elements.get(&id).unwrap();
        let declared = initial_target_declared(element.style.as_ref());
        assert(declared == wants_initial_target(tree.elements@[id]));
        if declared && !done.contains(&id) {
            assert(pending);
            if !painted.contains(&id) {
                waiting = true;
            } else {
                proof {
                    if targets@.contains(id) {
                        let j = choose|j: int| 0 <= j < i && ids@[j] == id;
                        assert(ids@[j] == ids@[i as int]);
                    }
                }
                targets.push(id);
                done.insert(id);
                proof {
                    broadcast use vstd::seq_lib::group_seq_properties;
                    assert(targets@ == old_t.push(id));
                    assert(done@ =~= before + targets@.to_set());
                }
            }
        } else {
            assert(!pending);
        }
        proof {
            broadcast use vstd::seq_lib::group_seq_properties;
            assert forall|x: u64| #[trigger] targets@.contains(x) <==> (exists|j: int| 0 <= j < i + 1 && ids@[j] == x
                && initial_target_pending(*tree, before, x) && painted@.contains(x)) by {
                if x == id && pending && painted@.contains(x) {
                    assert(ids@[i as int] == x);
                }
                if old_t.contains(x) {
                    let j = choose|j: int| 0 <= j < i && ids@[j] == x
                        && initial_target_pending(*tree, before, x) && painted@.contains(x);
                    assert(0 <= j < i + 1 && ids@[j] == x);
                }
                if exists|j: int| 0 <= j < i + 1 && ids@[j] == x
                    && initial_target_pending(*tree, before, x) && painted@.contains(x) {
                    if x != id {
                        let j = choose|j: int| 0 <= j < i + 1 && ids@[j] == x
                            && initial_target_pending(*tree, before, x) && painted@.contains(x);
                        assert(j != i);
                        assert(old_t.contains(x));
                    }
                }
            }
        }
        i += 1;
    }
    proof {
        assert forall|id: u64| #[trigger] targets@.contains(id) <==> (initial_target_pending(*tree, before, id) && painted@.contains(id)) by {
            if initial_target_pending(*tree, before, id) {
                assert(ids@.to_set().contains(id));
            }
        }
        assert(targets@.to_set() =~= initial_fire(*tree, before, painted@));
        if exists|id: u64| #[trigger] initial_target_pending(*tree, before, id) && !painted@.contains(id) {
            let id = choose|id: u64| #[trigger] initial_target_pending(*tree, before, id) && !painted@.contains(id);
            assert(ids@.to_set().contains(id));
            let j = choose|j: int| 0 <= j < ids@.len() && ids@[j] == id;
            assert(initial_target_pending(*tree, before, ids@[j]));
        }
    }
    (targets, waiting)
}

} // verus!

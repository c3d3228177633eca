//! Which elements get a focus handle, where they sit in the tab order, and
//! which focus listeners stay subscribed. The handles themselves are GPUI's;
//! these are the decisions made for each element on every frame.

use vstd::prelude::*;

use crate::json::{Json, JsonNumber};
use crate::text::{chars_eq, chars_of};
use crate::tree::{RetainedElement, RetainedTree};

verus! {

/// The first custom prop stored under `key`.
pub open spec fn prop_value(props: Seq<(String, Json)>, key: Seq<char>) -> Option<Json>
    decreases props.len(),
{
    if props.len() == 0 {
        None
    } else if props[0].0@ == key {
        Some(props[0].1)
    } else {
        prop_value(props.drop_first(), key)
    }
}

/// The `tabIndex` custom prop, when it is an integer that fits an `isize`.
pub open spec fn declared_tab_index(e: RetainedElement) -> Option<isize> {
    match prop_value(e.custom_props@, "tabIndex"@) {
        Some(Json::Number(n)) => match n.as_i64 {
            Some(v) => if isize::MIN <= v && v <= isize::MAX {
                Some(v as isize)
            } else {
                None
            },
            None => None,
        },
        _ => None,
    }
}

/// The element listens for `event`.
pub open spec fn has_event(e: RetainedElement, event: Seq<char>) -> bool {
    exists|i: int| 0 <= i < e.events@.len() && #[trigger] e.events@[i]@ == event
}

/// An `input` or a `textarea`.
pub open spec fn is_text_field(e: RetainedElement) -> bool {
    e.element_type@ == "input"@ || e.element_type@ == "textarea"@
}

/// The element can take focus: a text field, an element with a
/// `tabIndex`, or one that listens for keys or for focus changes.
pub open spec fn needs_focus(e: RetainedElement) -> bool {
    ||| is_text_field(e)
    ||| declared_tab_index(e) is Some
    ||| has_event(e, "keyDown"@)
    ||| has_event(e, "keyUp"@)
    ||| has_event(e, "focus"@)
    ||| has_event(e, "blur"@)
}

/// Where the element sits in the tab order: its `tabIndex`, else 0 for a
/// text field, else nowhere in particular.
pub open spec fn tab_order(e: RetainedElement) -> Option<isize> {
    match declared_tab_index(e) {
        Some(i) => Some(i),
        None => if is_text_field(e) {
            Some(0)
        } else {
            None
        },
    }
}

/// A place in the tab order. A negative index takes focus but is skipped
/// when tabbing.
#[derive(Clone, Copy, Debug, PartialEq, Eq, Structural)]
pub struct TabPlace {
    pub index: isize,
    pub stop: bool,
}

/// The tab place an index gives.
pub open spec fn tab_place(index: isize) -> TabPlace {
    TabPlace { index, stop: index >= 0 }
}

/// What to do with an element's focus handle this frame.
#[derive(Clone, Copy, Debug, PartialEq, Eq, Structural)]
pub enum FocusAction {
    /// Make a handle, at `tab` in the tab order when given, and focus it
    /// now when `focus` (focus is taken once, at creation, so later frames
    /// never steal it back).
    Create { tab: Option<TabPlace>, focus: bool },
    /// Keep the handle, at `place` in the tab order.
    Retab { place: TabPlace },
    /// Keep the handle, out of the tab order.
    LeaveTabOrder,
    /// The element has no handle and needs none.
    Nothing,
}

/// The action for an element, given whether it already has a handle.
pub open spec fn focus_plan(e: RetainedElement, has_handle: bool) -> FocusAction {
    if needs_focus(e) && !has_handle {
        FocusAction::Create {
            tab: match tab_order(e) {
                Some(i) => Some(tab_place(i)),
                None => None,
            },
            focus: e.auto_focus,
        }
    } else if has_handle && tab_order(e) is Some {
        FocusAction::Retab { place: tab_place(tab_order(e)->0) }
    } else if has_handle {
        FocusAction::LeaveTabOrder
    } else {
        FocusAction::Nothing
    }
}

/// Focus is taken only when a handle is made, so an element that already
/// has one never has focus forced back onto it; an element that needs
/// focus gets a handle, and one that does not is left alone.
pub proof fn lemma_focus_taken_once(e: RetainedElement)
    ensures
        !(focus_plan(e, true) is Create),
        needs_focus(e) ==> focus_plan(e, false) is Create,
        !needs_focus(e) ==> focus_plan(e, false) == FocusAction::Nothing,
{
}

/// A declared integer `tabIndex` places the element in the tab order,
/// whatever its type (a text field included): a handle is made or kept at
/// that index, a tab stop exactly when the index is not negative.
pub proof fn lemma_declared_tab_index_wins(e: RetainedElement, n: JsonNumber, v: i64)
    requires
        prop_value(e.custom_props@, "tabIndex"@) == Some(Json::Number(n)),
        n.as_i64 == Some(v),
        isize::MIN <= v <= isize::MAX,
    ensures
        focus_plan(e, false) == (FocusAction::Create {
            tab: Some(TabPlace { index: v as isize, stop: v >= 0 }),
            focus: e.auto_focus,
        }),
        focus_plan(e, true) == (FocusAction::Retab { place: TabPlace { index: v as isize, stop: v >= 0 } }),
{
}

/// Without an integer `tabIndex`, an `input` or a `textarea` sits at tab
/// index 0, a tab stop.
pub proof fn lemma_text_field_defaults_to_zero(e: RetainedElement, has_handle: bool)
    requires
        declared_tab_index(e) is None,
        e.element_type@ == "input"@ || e.element_type@ == "textarea"@,
    ensures
        focus_plan(e, has_handle) == (if has_handle {
            FocusAction::Retab { place: TabPlace { index: 0, stop: true } }
        } else {
            FocusAction::Create { tab: Some(TabPlace { index: 0, stop: true }), focus: e.auto_focus }
        }),
{
}

fn string_is(s: &String, word: &str) -> (b: bool)
    ensures
        b == (s@ == word@),
{
    let chars = chars_of(s.as_str());
    chars_eq(chars.as_slice(), word)
}

/// Whether the element listens for `event`.
pub fn element_has_event(element: &RetainedElement, event: &str) -> (b: bool)
    ensures
        b == has_event(*element, event@),
{
    let mut i: usize = 0;
    while i < element.events.len()
        invariant
            i <= element.events@.len(),
            forall|j: int| 0 <= j < i ==> element.events@[j]@ != event@,
        decreases element.events@.len() - i,
    {
        if string_is(&element.events[i], event) {
            return true;
        }
        i += 1;
    }
    false
}

/// The element's `tabIndex`, when it is an integer that fits an `isize`.
pub fn tab_index(element: &RetainedElement) -> (r: Option<isize>)
    ensures
        r == declared_tab_index(*element),
{
    let props = &element.custom_props;
    let mut i: usize = 0;
    assert(props@.skip(0) =~= props@);
    while i < props.len()
        invariant
            props@ == element.custom_props@,
            i <= props@.len(),
            prop_value(props@, "tabIndex"@) == prop_value(props@.skip(i as int), "tabIndex"@),
        decreases props@.len() - i,
    {
        assert(props@.skip(i as int).drop_first() =~= props@.skip(i + 1));
        let (key, value) = &props[i];
        if string_is(key, "tabIndex") {
            assert(props@.skip(i as int)[0] == props@[i as int]);
            assert(prop_value(props@, "tabIndex"@) == Some(*value));
            let r = match value {
                Json::Number(n) => match n.as_i64 {
                    Some(v) => if isize::MIN as i64 <= v && v <= isize::MAX as i64 {
                        Some(v as isize)
                    } else {
                        None
                    },
                    None => None,
                },
                _ => None,
            };
            return r;
        }
        i += 1;
    }
    None
}

/// What to do with the element's focus handle this frame.
pub fn focus_action(element: &RetainedElement, has_handle: bool) -> (a: FocusAction)
    ensures
        a == focus_plan(*element, has_handle),
{
    let declared = tab_index(element);
    let text_field = string_is(&element.element_type, "input") || string_is(&element.element_type, "textarea");
    let order = match declared {
        Some(i) => Some(i),
        None => if text_field {
            Some(0)
        } else {
            None
        },
    };
    let needs = text_field || declared.is_some() || element_has_event(element, "keyDown")
        || element_has_event(element, "keyUp") || element_has_event(element, "focus")
        || element_has_event(element, "blur");
    if needs && !has_handle {
        FocusAction::Create {
            tab: match order {
                Some(i) => Some(TabPlace { index: i, stop: i >= 0 }),
                None => None,
            },
            focus: element.auto_focus,
        }
    } else if has_handle && order.is_some() {
        let i = order.unwrap();
        FocusAction::Retab { place: TabPlace { index: i, stop: i >= 0 } }
    } else if has_handle {
        FocusAction::LeaveTabOrder
    } else {
        FocusAction::Nothing
    }
}

/// A focus subscription for (`id`, `event`) stays while the element is in
/// the tree and still listens for that event.
pub fn subscription_holds(tree: &RetainedTree, id: u64, event: &str) -> (b: bool)
    ensures
        b == (tree.elements@.contains_key(id) && has_event(tree.elements@[id], event@)),
{
    match tree.elements.get(&id) {
        Some(element) => element_has_event(element, event),
        None => false,
    }
}

} // verus!

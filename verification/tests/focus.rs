use std::collections::HashMap;

use gpuix_native::focus::{element_has_event, focus_action, subscription_holds, tab_index, FocusAction, TabPlace};
use gpuix_native::json::{Json, JsonNumber};
use gpuix_native::number::JsNumber;
use gpuix_native::tree::{RetainedElement, RetainedTree};

fn element(element_type: &str, events: &[&str], tab: Option<Json>, auto_focus: bool) -> RetainedElement {
    let mut custom_props = vec![("title".to_string(), Json::String("x".to_string()))];
    if let Some(value) = tab {
        custom_props.push(("tabIndex".to_string(), value));
    }
    RetainedElement {
        id: 1,
        element_type: element_type.to_string(),
        content: None,
        children: Vec::new(),
        parent: None,
        style: None,
        events: events.iter().map(|e| e.to_string()).collect(),
        custom_props,
        auto_focus,
    }
}

fn integer(n: i64) -> Json {
    Json::Number(JsonNumber {
        as_u64: u64::try_from(n).ok(),
        as_i64: Some(n),
        as_f64: Some(JsNumber { bits: (n as f64).to_bits() }),
    })
}

#[test]
fn a_text_field_gets_a_handle_at_tab_index_zero() {
    let input = element("input", &[], None, false);
    assert_eq!(
        focus_action(&input, false),
        FocusAction::Create { tab: Some(TabPlace { index: 0, stop: true }), focus: false }
    );
    let area = element("textarea", &[], None, true);
    assert_eq!(
        focus_action(&area, false),
        FocusAction::Create { tab: Some(TabPlace { index: 0, stop: true }), focus: true }
    );
}

#[test]
fn a_tab_index_places_the_element_and_a_negative_one_is_no_stop() {
    let div = element("div", &[], Some(integer(3)), false);
    assert_eq!(tab_index(&div), Some(3));
    assert_eq!(
        focus_action(&div, false),
        FocusAction::Create { tab: Some(TabPlace { index: 3, stop: true }), focus: false }
    );
    let skipped = element("div", &[], Some(integer(-1)), false);
    assert_eq!(
        focus_action(&skipped, true),
        FocusAction::Retab { place: TabPlace { index: -1, stop: false } }
    );
}

#[test]
fn key_and_focus_listeners_need_a_handle() {
    for event in ["keyDown", "keyUp", "focus", "blur"] {
        let div = element("div", &["click", event], None, false);
        assert_eq!(focus_action(&div, false), FocusAction::Create { tab: None, focus: false }, "{event}");
        assert_eq!(focus_action(&div, true), FocusAction::LeaveTabOrder, "{event}");
    }
    let clickable = element("div", &["click"], None, false);
    assert_eq!(focus_action(&clickable, false), FocusAction::Nothing);
    assert_eq!(focus_action(&clickable, true), FocusAction::LeaveTabOrder);
}

#[test]
fn a_tab_index_that_is_not_an_integer_is_ignored() {
    let text = element("div", &[], Some(Json::String("2".to_string())), false);
    assert_eq!(tab_index(&text), None);
    assert_eq!(focus_action(&text, false), FocusAction::Nothing);
    let fraction = element("div", &[], Some(Json::Number(JsonNumber {
        as_u64: None,
        as_i64: None,
        as_f64: Some(JsNumber { bits: 1.5f64.to_bits() }),
    })), false);
    assert_eq!(tab_index(&fraction), None);
}

#[test]
fn autofocus_happens_only_when_the_handle_is_made() {
    let input = element("input", &[], None, true);
    assert!(matches!(focus_action(&input, false), FocusAction::Create { focus: true, .. }));
    assert_eq!(
        focus_action(&input, true),
        FocusAction::Retab { place: TabPlace { index: 0, stop: true } }
    );
}

#[test]
fn a_subscription_holds_while_the_element_listens() {
    let mut elements = HashMap::new();
    elements.insert(1, element("div", &["focus"], None, false));
    let tree = RetainedTree { elements, root_id: Some(1) };
    assert!(subscription_holds(&tree, 1, "focus"));
    assert!(!subscription_holds(&tree, 1, "blur"));
    assert!(!subscription_holds(&tree, 2, "focus"));
    assert!(element_has_event(&tree.elements[&1], "focus"));
}

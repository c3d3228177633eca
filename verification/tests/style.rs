use gpuix_native::style::{
    cursor_style, font_weight_keyword, selection_start_flag, CursorStyle, ResolveCounter,
    Resolved, State, StyleDesc,
};

fn user_select(text: &str) -> StyleDesc {
    let mut style = StyleDesc::default();
    style.user_select = Some(text.to_string());
    style
}

#[test]
fn user_select_sets_the_selection_start_flag() {
    assert_eq!(selection_start_flag(Some(&user_select("none"))), Some(false));
    assert_eq!(selection_start_flag(Some(&user_select("text"))), Some(true));
    assert_eq!(selection_start_flag(Some(&user_select("auto"))), Some(true));
    assert_eq!(selection_start_flag(Some(&user_select("all"))), None);
    assert_eq!(selection_start_flag(Some(&user_select(" none"))), None, "read as written");
    assert_eq!(selection_start_flag(Some(&StyleDesc::default())), None);
    assert_eq!(selection_start_flag(None), None);
}

#[test]
fn cursor_keywords_name_cursors() {
    assert_eq!(cursor_style("default"), Some(CursorStyle::Arrow));
    assert_eq!(cursor_style(" pointer "), Some(CursorStyle::PointingHand));
    assert_eq!(cursor_style("text"), Some(CursorStyle::IBeam));
    assert_eq!(cursor_style("no-drop"), Some(CursorStyle::OperationNotAllowed));
    assert_eq!(cursor_style("ne-resize"), Some(CursorStyle::ResizeUpRightDownLeft));
    assert_eq!(cursor_style("se-resize"), Some(CursorStyle::ResizeUpLeftDownRight));
    assert_eq!(cursor_style("context-menu"), Some(CursorStyle::ContextualMenu));
    assert_eq!(cursor_style("auto"), None);
    assert_eq!(cursor_style("Pointer"), None);
}

#[test]
fn font_weight_keywords_read_trimmed_and_any_case() {
    assert_eq!(font_weight_keyword("bold"), Some(700));
    assert_eq!(font_weight_keyword(" SemiBold "), Some(600));
    assert_eq!(font_weight_keyword("extra-light"), Some(200));
    assert_eq!(font_weight_keyword("900"), Some(900));
    assert_eq!(font_weight_keyword("Normal"), Some(400));
    assert_eq!(font_weight_keyword("650"), None, "a number is read by the caller");
    assert_eq!(font_weight_keyword("heavy"), None);
}

#[test]
fn a_state_reads_the_first_declaration() {
    let resolved: Resolved<&str, u32> = Resolved {
        base: "base",
        states: vec![(State::Active, "pressed"), (State::Hover, "over"), (State::Active, "later")],
        cascade: None,
    };
    assert_eq!(resolved.state(State::Hover), Some(&"over"));
    assert_eq!(resolved.state(State::Active), Some(&"pressed"));
    let none: Resolved<&str, u32> = Resolved { base: "base", states: vec![], cascade: None };
    assert_eq!(none.state(State::Hover), None);
}

#[test]
fn a_resolution_that_read_no_cascade_holds_under_every_cascade() {
    let same = |a: &u32, b: &u32| a == b;
    let free: Resolved<&str, u32> = Resolved { base: "base", states: vec![], cascade: None };
    assert!(free.valid_under(&1, &same));
    assert!(free.valid_under(&2, &same));
    let read: Resolved<&str, u32> = Resolved { base: "base", states: vec![], cascade: Some(1) };
    assert!(read.valid_under(&1, &same));
    assert!(!read.valid_under(&2, &same));
}

#[test]
fn the_resolve_counter_counts_and_resets() {
    let mut counter = ResolveCounter::new();
    assert_eq!(counter.resolutions(), 0);
    counter.record_resolution();
    counter.record_resolution();
    assert_eq!(counter.resolutions(), 2);
    counter.reset_resolutions();
    assert_eq!(counter.resolutions(), 0);
}

#[test]
fn move_and_all_scroll_show_the_open_hand() {
    assert_eq!(cursor_style("move"), Some(CursorStyle::OpenHand));
    assert_eq!(cursor_style(" all-scroll"), Some(CursorStyle::OpenHand));
    assert_eq!(cursor_style("grab"), Some(CursorStyle::OpenHand));
    assert_eq!(cursor_style("grabbing"), Some(CursorStyle::ClosedHand));
    assert_eq!(cursor_style("col-resize"), Some(CursorStyle::ResizeColumn));
    assert_eq!(cursor_style("bogus"), None);
}

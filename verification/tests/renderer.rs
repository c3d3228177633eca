use gpuix_native::number::JsNumber;
use gpuix_native::renderer::{
    debug_frame_overlay_mode_name, mouse_button_to_u32, parse_debug_frame_overlay_mode_str,
    window_plan, DebugFrameOverlayMode, MouseButton, NavigationDirection, WindowBackground,
    WindowOptions,
};

fn js(value: f64) -> JsNumber {
    JsNumber { bits: value.to_bits() }
}

#[test]
fn overlay_modes_parse_by_name() {
    assert_eq!(parse_debug_frame_overlay_mode_str("hidden").unwrap(), DebugFrameOverlayMode::Hidden);
    assert_eq!(parse_debug_frame_overlay_mode_str("minimal").unwrap(), DebugFrameOverlayMode::Minimal);
    assert_eq!(parse_debug_frame_overlay_mode_str("full").unwrap(), DebugFrameOverlayMode::Full);
}

#[test]
fn an_unknown_overlay_mode_is_an_error_naming_it() {
    let error = parse_debug_frame_overlay_mode_str("Full").unwrap_err();
    assert_eq!(error.mode, "Full");
    assert_eq!(
        error.message(),
        "Unknown debug frame overlay mode \"Full\". Use hidden, minimal, or full."
    );
    assert_eq!(
        parse_debug_frame_overlay_mode_str("a\"b\n").unwrap_err().message(),
        r#"Unknown debug frame overlay mode "a\"b\n". Use hidden, minimal, or full."#,
        "the mode is quoted and escaped"
    );
    assert!(parse_debug_frame_overlay_mode_str(" hidden").is_err());
    assert!(parse_debug_frame_overlay_mode_str("").is_err());
}

#[test]
fn an_overlay_mode_name_reads_back_as_the_mode() {
    for mode in [DebugFrameOverlayMode::Hidden, DebugFrameOverlayMode::Minimal, DebugFrameOverlayMode::Full] {
        let name = debug_frame_overlay_mode_name(mode);
        assert_eq!(parse_debug_frame_overlay_mode_str(name).unwrap(), mode);
    }
    assert_eq!(debug_frame_overlay_mode_name(DebugFrameOverlayMode::Minimal), "minimal");
}

#[test]
fn mouse_buttons_number_as_events_carry_them() {
    assert_eq!(mouse_button_to_u32(MouseButton::Left), 0);
    assert_eq!(mouse_button_to_u32(MouseButton::Middle), 1);
    assert_eq!(mouse_button_to_u32(MouseButton::Right), 2);
    assert_eq!(mouse_button_to_u32(MouseButton::Navigate(NavigationDirection::Back)), 3);
    assert_eq!(mouse_button_to_u32(MouseButton::Navigate(NavigationDirection::Forward)), 3);
}

#[test]
fn default_window_options() {
    let o = WindowOptions::default();
    assert_eq!(o.title.as_deref(), Some("GPUIX"));
    assert_eq!(o.width, Some(js(800.0)));
    assert_eq!(o.height, Some(js(600.0)));
    assert_eq!(o.resizable, Some(true));
    assert_eq!(o.fullscreen, Some(false));
    assert_eq!(o.transparent, Some(false));
    assert_eq!(o.titlebar_transparent, Some(false));
    assert!(o.app_name.is_none() && o.min_width.is_none() && o.window_background.is_none());
}

fn unset() -> WindowOptions {
    WindowOptions {
        title: None,
        app_name: None,
        width: None,
        height: None,
        min_width: None,
        min_height: None,
        resizable: None,
        fullscreen: None,
        transparent: None,
        titlebar_transparent: None,
        window_background: None,
        traffic_light_x: None,
        traffic_light_y: None,
    }
}

#[test]
fn unset_options_take_their_defaults() {
    let plan = window_plan(&unset());
    assert_eq!(plan.title, "GPUIX");
    assert_eq!(plan.app_name, "GPUIX");
    assert_eq!(plan.width, js(800.0));
    assert_eq!(plan.height, js(600.0));
    assert_eq!(plan.background, WindowBackground::Opaque);
    assert!(plan.resizable && !plan.fullscreen && !plan.titlebar_transparent);
    assert!(plan.min_size.is_none() && plan.traffic_light_position.is_none());
}

#[test]
fn set_options_carry_through() {
    let mut o = unset();
    o.title = Some("Notes".to_string());
    o.width = Some(js(1024.0));
    o.min_width = Some(js(300.0));
    o.min_height = Some(js(200.0));
    o.traffic_light_x = Some(js(12.0));
    o.resizable = Some(false);
    o.fullscreen = Some(true);
    o.titlebar_transparent = Some(true);
    let plan = window_plan(&o);
    assert_eq!(plan.title, "Notes");
    assert_eq!(plan.app_name, "Notes", "the app name defaults to the title");
    assert_eq!(plan.width, js(1024.0));
    assert_eq!(plan.min_size, Some((js(300.0), js(200.0))));
    assert_eq!(plan.traffic_light_position, None, "one coordinate is not a position");
    assert!(!plan.resizable && plan.fullscreen && plan.titlebar_transparent);

    o.app_name = Some("Notes App".to_string());
    o.traffic_light_y = Some(js(16.0));
    let plan = window_plan(&o);
    assert_eq!(plan.app_name, "Notes App");
    assert_eq!(plan.traffic_light_position, Some((js(12.0), js(16.0))));
}

#[test]
fn the_window_background_by_name_wins_over_transparent() {
    let mut o = unset();
    o.transparent = Some(true);
    assert_eq!(window_plan(&o).background, WindowBackground::Transparent);
    o.window_background = Some("blurred".to_string());
    assert_eq!(window_plan(&o).background, WindowBackground::Blurred);
    o.window_background = Some("opaque".to_string());
    assert_eq!(window_plan(&o).background, WindowBackground::Opaque);
    o.window_background = Some("frosted".to_string());
    assert_eq!(window_plan(&o).background, WindowBackground::Transparent, "an unknown name falls back");
    o.transparent = None;
    assert_eq!(window_plan(&o).background, WindowBackground::Opaque);
    o.window_background = Some("transparent".to_string());
    assert_eq!(window_plan(&o).background, WindowBackground::Transparent);
}

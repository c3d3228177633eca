//! The renderer's own small rules: the debug frame overlay modes, the mouse
//! button numbering events carry, and how window options become the window
//! GPUI opens.

use vstd::prelude::*;

use crate::number::JsNumber;
use crate::text::{chars_eq, chars_of, debug_quoted, quote_debug};

verus! {

// ── Debug frame overlay ─────────────────────────────────────────────

/// What the debug frame overlay paints.
#[derive(Clone, Copy, Debug, PartialEq, Eq, Structural)]
pub enum DebugFrameOverlayMode {
    Hidden,
    Minimal,
    Full,
}

/// A mode name that is not `hidden`, `minimal` or `full`.
#[derive(Clone, Debug)]
pub struct UnknownOverlayMode {
    pub mode: String,
}

/// The name JS uses for a mode.
pub open spec fn overlay_mode_name(mode: DebugFrameOverlayMode) -> Seq<char> {
    match mode {
        DebugFrameOverlayMode::Hidden => "hidden"@,
        DebugFrameOverlayMode::Minimal => "minimal"@,
        DebugFrameOverlayMode::Full => "full"@,
    }
}

/// The mode a name stands for.
pub open spec fn overlay_mode_named(name: Seq<char>) -> Option<DebugFrameOverlayMode> {
    if name == "hidden"@ {
        Some(DebugFrameOverlayMode::Hidden)
    } else if name == "minimal"@ {
        Some(DebugFrameOverlayMode::Minimal)
    } else if name == "full"@ {
        Some(DebugFrameOverlayMode::Full)
    } else {
        None
    }
}

/// `"hidden"` | `"minimal"` | `"full"`; any other text is an error that
/// carries it.
pub fn parse_debug_frame_overlay_mode_str(mode: &str) -> (r: Result<DebugFrameOverlayMode, UnknownOverlayMode>)
    ensures
        match r {
            Ok(m) => overlay_mode_named(mode@) == Some(m),
            Err(e) => overlay_mode_named(mode@) is None && e.mode@ == mode@,
        },
{
    let chars = chars_of(mode);
    let c = chars.as_slice();
    if chars_eq(c, "hidden") {
        Ok(DebugFrameOverlayMode::Hidden)
    } else if chars_eq(c, "minimal") {
        Ok(DebugFrameOverlayMode::Minimal)
    } else if chars_eq(c, "full") {
        Ok(DebugFrameOverlayMode::Full)
    } else {
        Err(UnknownOverlayMode { mode: String::from_str(mode) })
    }
}

/// The name of a mode.
pub fn debug_frame_overlay_mode_name(mode: DebugFrameOverlayMode) -> (name: &'static str)
    ensures
        name@ == overlay_mode_name(mode),
{
    match mode {
        DebugFrameOverlayMode::Hidden => "hidden",
        DebugFrameOverlayMode::Minimal => "minimal",
        DebugFrameOverlayMode::Full => "full",
    }
}

/// The text of the error for an unknown mode.
pub open spec fn unknown_overlay_message(mode: Seq<char>) -> Seq<char> {
    "Unknown debug frame overlay mode "@ + debug_quoted(mode) + ". Use hidden, minimal, or full."@
}

impl UnknownOverlayMode {
    /// The error as the text JS receives.
    pub fn message(&self) -> (m: String)
        ensures
            m@ == unknown_overlay_message(self.mode@),
    {
        let mut m = String::from_str("Unknown debug frame overlay mode ");
        let quoted = quote_debug(self.mode.as_str());
        m.append(quoted.as_str());
        m.append(". Use hidden, minimal, or full.");
        m
    }
}

/// Reading a mode's name gives the mode back.
pub proof fn lemma_overlay_name_round_trip(mode: DebugFrameOverlayMode)
    ensures
        overlay_mode_named(overlay_mode_name(mode)) == Some(mode),
{
    reveal_strlit("hidden");
    reveal_strlit("minimal");
    reveal_strlit("full");
    assert("minimal"@ != "hidden"@) by {
        assert("minimal"@[0] != "hidden"@[0]);
    }
    assert("full"@ != "hidden"@) by {
        assert("full"@.len() != "hidden"@.len());
    }
    assert("full"@ != "minimal"@) by {
        assert("full"@.len() != "minimal"@.len());
    }
}

// ── Mouse buttons ───────────────────────────────────────────────────

/// The side buttons of a mouse.
#[derive(Clone, Copy, Debug, PartialEq, Eq, Structural)]
pub enum NavigationDirection {
    Back,
    Forward,
}

/// A mouse button.
#[derive(Clone, Copy, Debug, PartialEq, Eq, Structural)]
pub enum MouseButton {
    Left,
    Middle,
    Right,
    Navigate(NavigationDirection),
}

/// The number events carry for a button: 0 = left, 1 = middle, 2 = right,
/// 3 = either navigation button.
pub fn mouse_button_to_u32(button: MouseButton) -> (n: u32)
    ensures
        n == match button {
            MouseButton::Left => 0u32,
            MouseButton::Middle => 1u32,
            MouseButton::Right => 2u32,
            MouseButton::Navigate(_) => 3u32,
        },
{
    match button {
        MouseButton::Left => 0,
        MouseButton::Middle => 1,
        MouseButton::Right => 2,
        MouseButton::Navigate(_) => 3,
    }
}

// ── Window options ──────────────────────────────────────────────────

/// The options JS opens the window with. Sizes and positions are JS numbers,
/// in logical pixels.
#[derive(Clone, Debug)]
pub struct WindowOptions {
    pub title: Option<String>,
    /// The name used inside the macOS "Hide" and "Quit" menu items. Defaults
    /// to `title`.
    pub app_name: Option<String>,
    pub width: Option<JsNumber>,
    pub height: Option<JsNumber>,
    pub min_width: Option<JsNumber>,
    pub min_height: Option<JsNumber>,
    pub resizable: Option<bool>,
    pub fullscreen: Option<bool>,
    /// Plain alpha transparency. `window_background` wins when it is set.
    pub transparent: Option<bool>,
    /// Hide the native titlebar so the app can draw chrome under the traffic
    /// lights.
    pub titlebar_transparent: Option<bool>,
    /// `"opaque"` | `"transparent"` | `"blurred"`.
    pub window_background: Option<String>,
    pub traffic_light_x: Option<JsNumber>,
    pub traffic_light_y: Option<JsNumber>,
}

/// The bits of the double 800.
pub const EIGHT_HUNDRED: u64 = 0x4089_0000_0000_0000;
/// The bits of the double 600.
pub const SIX_HUNDRED: u64 = 0x4082_C000_0000_0000;

impl Default for WindowOptions {
    fn default() -> (o: Self)
        ensures
            o.title matches Some(t) && t@ == "GPUIX"@,
            o.app_name is None,
            o.width == Some(JsNumber { bits: EIGHT_HUNDRED }),
            o.height == Some(JsNumber { bits: SIX_HUNDRED }),
            o.min_width is None,
            o.min_height is None,
            o.resizable == Some(true),
            o.fullscreen == Some(false),
            o.transparent == Some(false),
            o.titlebar_transparent == Some(false),
            o.window_background is None,
            o.traffic_light_x is None,
            o.traffic_light_y is None,
    {
        WindowOptions {
            title: Some(String::from_str("GPUIX")),
            app_name: None,
            width: Some(JsNumber { bits: EIGHT_HUNDRED }),
            height: Some(JsNumber { bits: SIX_HUNDRED }),
            min_width: None,
            min_height: None,
            resizable: Some(true),
            fullscreen: Some(false),
            transparent: Some(false),
            titlebar_transparent: Some(false),
            window_background: None,
            traffic_light_x: None,
            traffic_light_y: None,
        }
    }
}

/// How the window background is drawn.
#[derive(Clone, Copy, Debug, PartialEq, Eq, Structural)]
pub enum WindowBackground {
    Opaque,
    Transparent,
    Blurred,
}

/// The window GPUI is asked to open.
#[derive(Clone, Debug)]
pub struct WindowPlan {
    pub title: String,
    pub app_name: String,
    pub width: JsNumber,
    pub height: JsNumber,
    pub titlebar_transparent: bool,
    /// Set only when both coordinates are.
    pub traffic_light_position: Option<(JsNumber, JsNumber)>,
    pub background: WindowBackground,
    /// Set only when both sizes are.
    pub min_size: Option<(JsNumber, JsNumber)>,
    pub fullscreen: bool,
    pub resizable: bool,
}

/// The text of an optional string, or `fallback`.
pub open spec fn text_or(text: Option<String>, fallback: Seq<char>) -> Seq<char> {
    match text {
        Some(t) => t@,
        None => fallback,
    }
}

/// The background the options ask for: `window_background` by name, else
/// `transparent`, else opaque.
pub open spec fn background_for(o: WindowOptions) -> WindowBackground {
    let named = match o.window_background {
        Some(w) => if w@ == "transparent"@ {
            Some(WindowBackground::Transparent)
        } else if w@ == "blurred"@ {
            Some(WindowBackground::Blurred)
        } else if w@ == "opaque"@ {
            Some(WindowBackground::Opaque)
        } else {
            None
        },
        None => None,
    };
    match named {
        Some(b) => b,
        None => if o.transparent == Some(true) {
            WindowBackground::Transparent
        } else {
            WindowBackground::Opaque
        },
    }
}

/// A pair, when both halves are set.
pub open spec fn both(a: Option<JsNumber>, b: Option<JsNumber>) -> Option<(JsNumber, JsNumber)> {
    match (a, b) {
        (Some(x), Some(y)) => Some((x, y)),
        _ => None,
    }
}

/// Resolve the options into the window to open: every unset option takes
/// its default (title "GPUIX", app name the title, 800 by 600, resizable,
/// windowed, opaque).
pub fn window_plan(options: &WindowOptions) -> (p: WindowPlan)
    ensures
        p.title@ == text_or(options.title, "GPUIX"@),
        p.app_name@ == text_or(options.app_name, text_or(options.title, "GPUIX"@)),
        p.width == (match options.width { Some(w) => w, None => JsNumber { bits: EIGHT_HUNDRED } }),
        p.height == (match options.height { Some(h) => h, None => JsNumber { bits: SIX_HUNDRED } }),
        p.titlebar_transparent == (options.titlebar_transparent == Some(true)),
        p.traffic_light_position == both(options.traffic_light_x, options.traffic_light_y),
        p.background == background_for(*options),
        p.min_size == both(options.min_width, options.min_height),
        p.fullscreen == (options.fullscreen == Some(true)),
        p.resizable == (options.resizable != Some(false)),
{
    let title = match &options.title {
        Some(t) => t.clone(),
        None => String::from_str("GPUIX"),
    };
    let app_name = match &options.app_name {
        Some(a) => a.clone(),
        None => title.clone(),
    };
    let named = match &options.window_background {
        Some(w) => {
            let c = chars_of(w.as_str());
            let c = c.as_slice();
            if chars_eq(c, "transparent") {
                Some(WindowBackground::Transparent)
            } else if chars_eq(c, "blurred") {
                Some(WindowBackground::Blurred)
            } else if chars_eq(c, "opaque") {
                Some(WindowBackground::Opaque)
            } else {
                None
            }
        },
        None => None,
    };
    let background = match named {
        Some(b) => b,
        None => if options.transparent == Some(true) {
            WindowBackground::Transparent
        } else {
            WindowBackground::Opaque
        },
    };
    let traffic_light_position = match (options.traffic_light_x, options.traffic_light_y) {
        (Some(x), Some(y)) => Some((x, y)),
        _ => None,
    };
    let min_size = match (options.min_width, options.min_height) {
        (Some(w), Some(h)) => Some((w, h)),
        _ => None,
    };
    WindowPlan {
        title,
        app_name,
        width: match options.width {
            Some(w) => w,
            None => JsNumber { bits: EIGHT_HUNDRED },
        },
        height: match options.height {
            Some(h) => h,
            None => JsNumber { bits: SIX_HUNDRED },
        },
        titlebar_transparent: options.titlebar_transparent == Some(true),
        traffic_light_position,
        background,
        min_size,
        fullscreen: options.fullscreen == Some(true),
        resizable: options.resizable != Some(false),
    }
}

} // verus!

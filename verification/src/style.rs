//! The declared style of one element, as far as the verified rules read it,
//! and the rules that read a single declaration.

use vstd::prelude::*;

use crate::text::{chars_eq, chars_of, trim, trim_chars};

verus! {

/// The style React declared on an element. Each value is the text the
/// declaration carried, or `None` when it declared nothing.
#[derive(Clone, Debug, Default)]
pub struct StyleDesc {
    /// `scroll-behavior`.
    pub scroll_behavior: Option<String>,
    /// `scroll-snap-type`.
    pub scroll_snap_type: Option<String>,
    /// `scroll-snap-align`.
    pub scroll_snap_align: Option<String>,
    /// `scroll-snap-stop`.
    pub scroll_snap_stop: Option<String>,
    /// `scroll-initial-target`.
    pub scroll_initial_target: Option<String>,
    /// `user-select`.
    pub user_select: Option<String>,
}

/// The text of one declaration, if the style declares it.
pub open spec fn declared(style: Option<StyleDesc>, pick: spec_fn(StyleDesc) -> Option<String>) -> Option<Seq<char>> {
    match style {
        Some(s) => match pick(s) {
            Some(text) => Some(text@),
            None => None,
        },
        None => None,
    }
}

/// Whether the declaration, trimmed, is the keyword `word`.
pub open spec fn trimmed_is(text: Option<Seq<char>>, word: Seq<char>) -> bool {
    match text {
        Some(t) => trim(t) == word,
        None => false,
    }
}

/// Whether an optional declaration, trimmed, is the keyword `word`.
pub fn declared_trimmed_is(text: &Option<String>, word: &str) -> (b: bool)
    ensures
        b == match text {
            Some(t) => trim(t@) == word@,
            None => false,
        },
{
    match text {
        Some(t) => {
            let chars = chars_of(t.as_str());
            let trimmed = trim_chars(chars.as_slice());
            chars_eq(trimmed.as_slice(), word)
        },
        None => false,
    }
}

/// Whether an optional declaration is exactly the keyword `word`.
pub fn declared_is(text: &Option<String>, word: &str) -> (b: bool)
    ensures
        b == match text {
            Some(t) => t@ == word@,
            None => false,
        },
{
    match text {
        Some(t) => {
            let chars = chars_of(t.as_str());
            chars_eq(chars.as_slice(), word)
        },
        None => false,
    }
}

/// The `userSelect` an element declares for itself, as a selection start
/// flag: `none` forbids a selection to start here, `text` and `auto` allow
/// one, and anything else (or nothing) inherits.
pub open spec fn user_select_flag(style: Option<StyleDesc>) -> Option<bool> {
    match declared(style, |s: StyleDesc| s.user_select) {
        Some(t) => if t == "none"@ {
            Some(false)
        } else if t == "text"@ || t == "auto"@ {
            Some(true)
        } else {
            None
        },
        None => None,
    }
}

/// Explicit `userSelect` on this node. `None` means inherit; the ancestor
/// that set the value already owns the start region.
pub fn selection_start_flag(style: Option<&StyleDesc>) -> (r: Option<bool>)
    ensures
        r == user_select_flag(match style { Some(s) => Some(*s), None => None }),
{
    match style {
        Some(s) => {
            if declared_is(&s.user_select, "none") {
                Some(false)
            } else if declared_is(&s.user_select, "text") || declared_is(&s.user_select, "auto") {
                Some(true)
            } else {
                None
            }
        },
        None => None,
    }
}

// ── Cursor ──────────────────────────────────────────────────────────

/// The pointer cursors a CSS `cursor` keyword can ask for.
#[derive(Clone, Copy, Debug, PartialEq, Eq, Structural)]
pub enum CursorStyle {
    Arrow,
    PointingHand,
    IBeam,
    IBeamCursorForVerticalLayout,
    Crosshair,
    OpenHand,
    ClosedHand,
    OperationNotAllowed,
    ResizeColumn,
    ResizeRow,
    ResizeRight,
    ResizeLeft,
    ResizeUp,
    ResizeDown,
    ResizeLeftRight,
    ResizeUpDown,
    ResizeUpRightDownLeft,
    ResizeUpLeftDownRight,
    DragLink,
    DragCopy,
    ContextualMenu,
}

/// The cursor a trimmed `cursor` keyword names. `move` and `all-scroll`,
/// which have no cursor of their own, show the open hand of the other
/// dragging cursors.
pub open spec fn cursor_named(w: Seq<char>) -> Option<CursorStyle> {
    if w == "default"@ { Some(CursorStyle::Arrow) }
    else if w == "pointer"@ { Some(CursorStyle::PointingHand) }
    else if w == "text"@ { Some(CursorStyle::IBeam) }
    else if w == "vertical-text"@ { Some(CursorStyle::IBeamCursorForVerticalLayout) }
    else if w == "crosshair"@ { Some(CursorStyle::Crosshair) }
    else if w == "grab"@ { Some(CursorStyle::OpenHand) }
    else if w == "grabbing"@ { Some(CursorStyle::ClosedHand) }
    else if w == "move"@ || w == "all-scroll"@ { Some(CursorStyle::OpenHand) }
    else if w == "not-allowed"@ || w == "no-drop"@ { Some(CursorStyle::OperationNotAllowed) }
    else if w == "col-resize"@ { Some(CursorStyle::ResizeColumn) }
    else if w == "row-resize"@ { Some(CursorStyle::ResizeRow) }
    else if w == "e-resize"@ { Some(CursorStyle::ResizeRight) }
    else if w == "w-resize"@ { Some(CursorStyle::ResizeLeft) }
    else if w == "n-resize"@ { Some(CursorStyle::ResizeUp) }
    else if w == "s-resize"@ { Some(CursorStyle::ResizeDown) }
    else if w == "ew-resize"@ { Some(CursorStyle::ResizeLeftRight) }
    else if w == "ns-resize"@ { Some(CursorStyle::ResizeUpDown) }
    else if w == "nesw-resize"@ || w == "ne-resize"@ || w == "sw-resize"@ { Some(CursorStyle::ResizeUpRightDownLeft) }
    else if w == "nwse-resize"@ || w == "nw-resize"@ || w == "se-resize"@ { Some(CursorStyle::ResizeUpLeftDownRight) }
    else if w == "alias"@ { Some(CursorStyle::DragLink) }
    else if w == "copy"@ { Some(CursorStyle::DragCopy) }
    else if w == "context-menu"@ { Some(CursorStyle::ContextualMenu) }
    else { None }
}

/// The cursor for a CSS `cursor` keyword. `auto` and unknown words set
/// nothing, so the element keeps the cursor of whatever it sits in.
pub fn cursor_style(name: &str) -> (r: Option<CursorStyle>)
    ensures
        r == cursor_named(trim(name@)),
{
    let chars = chars_of(name);
    let w = trim_chars(chars.as_slice());
    let w = w.as_slice();
    if chars_eq(w, "default") { Some(CursorStyle::Arrow) }
    else if chars_eq(w, "pointer") { Some(CursorStyle::PointingHand) }
    else if chars_eq(w, "text") { Some(CursorStyle::IBeam) }
    else if chars_eq(w, "vertical-text") { Some(CursorStyle::IBeamCursorForVerticalLayout) }
    else if chars_eq(w, "crosshair") { Some(CursorStyle::Crosshair) }
    else if chars_eq(w, "grab") { Some(CursorStyle::OpenHand) }
    else if chars_eq(w, "grabbing") { Some(CursorStyle::ClosedHand) }
    else if chars_eq(w, "move") || chars_eq(w, "all-scroll") { Some(CursorStyle::OpenHand) }
    else if chars_eq(w, "not-allowed") || chars_eq(w, "no-drop") { Some(CursorStyle::OperationNotAllowed) }
    else if chars_eq(w, "col-resize") { Some(CursorStyle::ResizeColumn) }
    else if chars_eq(w, "row-resize") { Some(CursorStyle::ResizeRow) }
    else if chars_eq(w, "e-resize") { Some(CursorStyle::ResizeRight) }
    else if chars_eq(w, "w-resize") { Some(CursorStyle::ResizeLeft) }
    else if chars_eq(w, "n-resize") { Some(CursorStyle::ResizeUp) }
    else if chars_eq(w, "s-resize") { Some(CursorStyle::ResizeDown) }
    else if chars_eq(w, "ew-resize") { Some(CursorStyle::ResizeLeftRight) }
    else if chars_eq(w, "ns-resize") { Some(CursorStyle::ResizeUpDown) }
    else if chars_eq(w, "nesw-resize") || chars_eq(w, "ne-resize") || chars_eq(w, "sw-resize") {
        Some(CursorStyle::ResizeUpRightDownLeft)
    } else if chars_eq(w, "nwse-resize") || chars_eq(w, "nw-resize") || chars_eq(w, "se-resize") {
        Some(CursorStyle::ResizeUpLeftDownRight)
    } else if chars_eq(w, "alias") { Some(CursorStyle::DragLink) }
    else if chars_eq(w, "copy") { Some(CursorStyle::DragCopy) }
    else if chars_eq(w, "context-menu") { Some(CursorStyle::ContextualMenu) }
    else { None }
}

// ── Font weight ─────────────────────────────────────────────────────

/// `c` with ASCII capitals lowered, as `to_ascii_lowercase` does.
pub open spec fn ascii_lower(c: char) -> char {
    if 'A' <= c && c <= 'Z' {
        ((c as u32) + 32) as char
    } else {
        c
    }
}

/// `s` with ASCII capitals lowered.
pub open spec fn ascii_lowercase(s: Seq<char>) -> Seq<char> {
    s.map_values(|c: char| ascii_lower(c))
}

fn lower_chars(s: &[char]) -> (r: Vec<char>)
    ensures
        r@ == ascii_lowercase(s@),
{
    let mut r: Vec<char> = Vec::new();
    let mut i: usize = 0;
    while i < s.len()
        invariant
            i <= s@.len(),
            r@ == ascii_lowercase(s@.take(i as int)),
        decreases s@.len() - i,
    {
        let c = s[i];
        let l = if 'A' <= c && c <= 'Z' {
            ((c as u8) + 32) as char
        } else {
            c
        };
        assert(l == ascii_lower(c)) by {
            if 'A' <= c && c <= 'Z' {
                assert((c as u8) as u32 == c as u32);
            }
        }
        r.push(l);
        assert(r@ =~= ascii_lowercase(s@.take(i + 1)));
        i += 1;
    }
    assert(s@.take(s@.len() as int) =~= s@);
    r
}

/// The weight a trimmed, lowercased font-weight keyword names.
pub open spec fn weight_named(w: Seq<char>) -> Option<u16> {
    if w == "100"@ || w == "thin"@ { Some(100) }
    else if w == "200"@ || w == "extralight"@ || w == "extra-light"@ { Some(200) }
    else if w == "300"@ || w == "light"@ { Some(300) }
    else if w == "400"@ || w == "normal"@ { Some(400) }
    else if w == "500"@ || w == "medium"@ { Some(500) }
    else if w == "600"@ || w == "semibold"@ || w == "semi-bold"@ { Some(600) }
    else if w == "700"@ || w == "bold"@ { Some(700) }
    else if w == "800"@ || w == "extrabold"@ || w == "extra-bold"@ { Some(800) }
    else if w == "900"@ || w == "black"@ { Some(900) }
    else { None }
}

/// The weight a CSS font-weight keyword names ("bold", "semibold", "700"),
/// read trimmed and without regard to ASCII case. `None` for any other text,
/// which a caller reads as a number or falls back to 400 for.
pub fn font_weight_keyword(value: &str) -> (r: Option<u16>)
    ensures
        r == weight_named(ascii_lowercase(trim(value@))),
{
    let chars = chars_of(value);
    let trimmed = trim_chars(chars.as_slice());
    let lower = lower_chars(trimmed.as_slice());
    let w = lower.as_slice();
    if chars_eq(w, "100") || chars_eq(w, "thin") { Some(100) }
    else if chars_eq(w, "200") || chars_eq(w, "extralight") || chars_eq(w, "extra-light") { Some(200) }
    else if chars_eq(w, "300") || chars_eq(w, "light") { Some(300) }
    else if chars_eq(w, "400") || chars_eq(w, "normal") { Some(400) }
    else if chars_eq(w, "500") || chars_eq(w, "medium") { Some(500) }
    else if chars_eq(w, "600") || chars_eq(w, "semibold") || chars_eq(w, "semi-bold") { Some(600) }
    else if chars_eq(w, "700") || chars_eq(w, "bold") { Some(700) }
    else if chars_eq(w, "800") || chars_eq(w, "extrabold") || chars_eq(w, "extra-bold") { Some(800) }
    else if chars_eq(w, "900") || chars_eq(w, "black") { Some(900) }
    else { None }
}

// ── Resolved styles ─────────────────────────────────────────────────

/// One state pseudo-class, which is one kind of condition.
#[derive(Clone, Copy, Debug, PartialEq, Eq, Structural)]
pub enum State {
    Hover,
    Active,
}

/// A style with every value resolved: the base refinement `R`, one
/// refinement per state it declares (in declaration order), and the cascade
/// `C` it read, or `None` when it read nothing inherited.
pub struct Resolved<R, C> {
    pub base: R,
    pub states: Vec<(State, R)>,
    pub cascade: Option<C>,
}

/// The index of the first entry declared for `state`.
pub open spec fn first_state<R>(states: Seq<(State, R)>, state: State) -> Option<int>
    decreases states.len(),
{
    if states.len() == 0 {
        None
    } else if states[0].0 == state {
        Some(0)
    } else {
        match first_state(states.drop_first(), state) {
            Some(i) => Some(i + 1),
            None => None,
        }
    }
}

impl<R, C> Resolved<R, C> {
    /// The refinement for one state, or `None` when the style does not
    /// declare it.
    pub fn state(&self, state: State) -> (r: Option<&R>)
        ensures
            match first_state(self.states@, state) {
                Some(i) => r == Some(&self.states@[i].1),
                None => r is None,
            },
    {
        let mut i: usize = 0;
        assert(self.states@.skip(0) =~= self.states@);
        while i < self.states.len()
            invariant
                i <= self.states@.len(),
                first_state(self.states@, state) == (match first_state(self.states@.skip(i as int), state) {
                    Some(j) => Some(j + i),
                    None => None::<int>,
                }),
            decreases self.states@.len() - i,
        {
            assert(self.states@.skip(i as int).drop_first() =~= self.states@.skip(i + 1));
            if self.states[i].0 == state {
                return Some(&self.states[i].1);
            }
            i += 1;
        }
        None
    }

    /// Whether this resolution still holds under `cascade`: always when it
    /// read nothing inherited, else when `same` finds the cascade it read
    /// equal to `cascade`.
    pub fn valid_under<F: Fn(&C, &C) -> bool>(&self, cascade: &C, same: &F) -> (b: bool)
        requires
            forall|a: &C, c: &C| #[trigger] call_requires(*same, (a, c)),
        ensures
            match self.cascade {
                None => b,
                Some(read) => call_ensures(*same, (&read, cascade), b),
            },
    {
        match &self.cascade {
            None => true,
            Some(read) => same(read, cascade),
        }
    }
}

/// How many times a style was resolved since the last reset. Tests assert
/// on it instead of on wall-clock time: a steady-state frame must add zero,
/// one `setStyle` must add one.
pub struct ResolveCounter {
    count: u64,
}

impl ResolveCounter {
    pub closed spec fn view(&self) -> u64 {
        self.count
    }

    /// A counter at zero.
    pub fn new() -> (c: ResolveCounter)
        ensures
            c.view() == 0,
    {
        ResolveCounter { count: 0 }
    }

    /// Count one resolution. The count wraps at `u64::MAX`, as an atomic
    /// add does.
    pub fn record_resolution(&mut self)
        ensures
            final(self).view() == (if old(self).view() == u64::MAX { 0 } else { old(self).view() + 1 }),
    {
        self.count = if self.count == u64::MAX { 0 } else { self.count + 1 };
    }

    /// Read the resolve counter.
    pub fn resolutions(&self) -> (n: u64)
        ensures
            n == self.view(),
    {
        self.count
    }

    /// Set the resolve counter back to zero.
    pub fn reset_resolutions(&mut self)
        ensures
            final(self).view() == 0,
    {
        self.count = 0;
    }
}

} // verus!

//! Remembered geometry of the main desktop window, in physical pixels:
//! what is saved, what a restore does with it, and when a saved position is
//! still on a screen.
use vstd::prelude::*;

verus! {

/// The version of the saved geometry that this code reads.
pub const STATE_VERSION: u32 = 1;

/// The saved state of the main window. The display scale it was saved at
/// is kept by the caller.
#[derive(Debug)]
pub struct WindowStateFile {
    pub version: u32,
    pub remember: bool,
    /// Outer position and size of the last frame that was not maximized.
    pub x: Option<i32>,
    pub y: Option<i32>,
    pub width: Option<u32>,
    pub height: Option<u32>,
    pub maximized: bool,
}

impl Default for WindowStateFile {
    /// Remember the window, with no geometry saved yet.
    fn default() -> (s: Self)
        ensures
            s.version == STATE_VERSION,
            s.remember,
            s.x is None && s.y is None && s.width is None && s.height is None,
            !s.maximized,
    {
        WindowStateFile {
            version: STATE_VERSION,
            remember: true,
            x: None,
            y: None,
            width: None,
            height: None,
            maximized: false,
        }
    }
}

/// A zero dimension means no saved size.
pub open spec fn nonzero(d: Option<u32>) -> Option<u32> {
    match d {
        Some(0u32) => None,
        other => other,
    }
}

/// Normalizes loaded state: current version, zero dimensions dropped.
pub fn sanitize_state(state: WindowStateFile) -> (s: WindowStateFile)
    ensures
        s.version == STATE_VERSION,
        s.width == nonzero(state.width),
        s.height == nonzero(state.height),
        s.remember == state.remember,
        s.x == state.x,
        s.y == state.y,
        s.maximized == state.maximized,
{
    let mut state = state;
    state.version = STATE_VERSION;
    if let Some(width) = state.width {
        if width == 0 {
            state.width = None;
        }
    }
    if let Some(height) = state.height {
        if height == 0 {
            state.height = None;
        }
    }
    state
}

/// The state read from disk, if it is of the current version: then
/// normalized as `sanitize_state` does.
pub fn loaded_state(state: WindowStateFile) -> (r: Option<WindowStateFile>)
    ensures
        state.version != STATE_VERSION ==> r is None,
        state.version == STATE_VERSION ==> (r matches Some(s) && s.version == STATE_VERSION && s.width == nonzero(
            state.width,
        ) && s.height == nonzero(state.height) && s.remember == state.remember && s.x == state.x && s.y
            == state.y && s.maximized == state.maximized),
{
    if state.version != STATE_VERSION {
        return None;
    }
    Some(sanitize_state(state))
}

/// A monitor's work area.
#[derive(Clone, Copy, Debug, PartialEq, Eq, Structural)]
pub struct WorkArea {
    pub x: i32,
    pub y: i32,
    pub width: u32,
    pub height: u32,
}

/// `v as i32` for a `u32`.
pub open spec fn as_i32(v: u32) -> int {
    if v <= 0x7fff_ffff {
        v as int
    } else {
        v - 0x1_0000_0000
    }
}

/// Integer division by two rounding toward zero, as `/` does on `i32`.
pub open spec fn half(a: int) -> int {
    if a >= 0 {
        a / 2
    } else {
        -((-a) / 2)
    }
}

/// Whether the point lies in the work area (left and top edges included).
pub open spec fn contains_point(a: WorkArea, cx: int, cy: int) -> bool {
    a.x <= cx < a.x + as_i32(a.width) && a.y <= cy < a.y + as_i32(a.height)
}

/// Whether a window at (`x`, `y`) of this size has its centre on some work
/// area; with no monitor known it counts as visible.
pub open spec fn spec_center_visible(x: i32, y: i32, width: u32, height: u32, areas: Seq<WorkArea>) -> bool {
    let cx = x + half(as_i32(width));
    let cy = y + half(as_i32(height));
    areas.len() == 0 || exists|i: int| 0 <= i < areas.len() && contains_point(#[trigger] areas[i], cx, cy)
}

fn signed(v: u32) -> (r: i64)
    ensures
        r == as_i32(v),
{
    if v <= 0x7fff_ffff {
        v as i64
    } else {
        v as i64 - 0x1_0000_0000
    }
}

fn halved(a: i64) -> (r: i64)
    requires
        -0x1_0000_0000 <= a <= 0x1_0000_0000,
    ensures
        r == half(a as int),
{
    if a >= 0 {
        a / 2
    } else {
        -((-a) / 2)
    }
}

/// Whether a saved position is still on a screen: the window's centre lies
/// inside some monitor's work area. Arithmetic is exact; it does not wrap
/// where an `i32` sum would overflow.
pub fn center_visible(x: i32, y: i32, width: u32, height: u32, areas: &Vec<WorkArea>) -> (r: bool)
    ensures
        r == spec_center_visible(x, y, width, height, areas@),
{
    if areas.len() == 0 {
        return true;
    }
    let cx = x as i64 + halved(signed(width));
    let cy = y as i64 + halved(signed(height));
    for i in 0..areas.len()
        invariant
            cx == x + half(as_i32(width)),
            cy == y + half(as_i32(height)),
            forall|j: int| 0 <= j < i ==> !contains_point(#[trigger] areas@[j], cx as int, cy as int),
    {
        let a = areas[i];
        let left = a.x as i64;
        let top = a.y as i64;
        let right = left + signed(a.width);
        let bottom = top + signed(a.height);
        if cx >= left && cx < right && cy >= top && cy < bottom {
            proof {
                assert(contains_point(areas@[i as int], cx as int, cy as int));
            }
            return true;
        }
    }
    false
}

/// The origin that centres a length `len` in a span starting at `start` of
/// length `span`: `start + (span as i32 - len as i32) / 2`.
pub open spec fn spec_centered(start: i32, span: u32, len: u32) -> int {
    start + half(as_i32(span) - as_i32(len))
}

/// Centres a window length within a work area span.
pub fn centered(start: i32, span: u32, len: u32) -> (r: i64)
    ensures
        r == spec_centered(start, span, len),
{
    start as i64 + halved(signed(span) - signed(len))
}

/// Where a restored window goes.
#[derive(Clone, Copy, Debug, PartialEq, Eq, Structural)]
pub enum Placement {
    /// Keep the default position.
    Keep,
    /// Move to the saved position.
    At(i32, i32),
    /// The saved position is off every screen: centre on the primary monitor.
    Center,
}

/// A physical window size.
#[derive(Clone, Copy, Debug, PartialEq, Eq, Structural)]
pub struct Size {
    pub width: u32,
    pub height: u32,
}

/// What restoring saved state does to the window.
#[derive(Clone, Copy, Debug, PartialEq, Eq, Structural)]
pub struct Restore {
    /// The physical size to set, if any geometry was saved.
    pub size: Option<Size>,
    pub placement: Placement,
    pub maximize: bool,
}

pub open spec fn at_least(v: Option<u32>, min: u32) -> u32 {
    match v {
        Some(w) => if w >= min { w } else { min },
        None => min,
    }
}

pub open spec fn spec_restore(state: WindowStateFile, min_width: u32, min_height: u32, areas: Seq<WorkArea>) -> Restore {
    let width = at_least(state.width, min_width);
    let height = at_least(state.height, min_height);
    if state.width is None || state.height is None {
        Restore { size: None, placement: Placement::Keep, maximize: state.maximized }
    } else {
        Restore {
            size: Some(Size { width, height }),
            placement: match (state.x, state.y) {
                (Some(x), Some(y)) => if spec_center_visible(x, y, width, height, areas) {
                    Placement::At(x, y)
                } else {
                    Placement::Center
                },
                _ => Placement::Keep,
            },
            maximize: state.maximized,
        }
    }
}

/// Plans the restore of saved state, given the minimum physical size at
/// the current scale and the monitors' work areas: with no saved size only
/// the maximized flag applies; a saved size is raised to the minimum; a
/// saved position is used only while the window's centre is on a screen.
pub fn restore_plan(state: &WindowStateFile, min_width: u32, min_height: u32, areas: &Vec<WorkArea>) -> (r: Restore)
    ensures
        r == spec_restore(*state, min_width, min_height, areas@),
{
    let width = match state.width {
        Some(w) => if w >= min_width { w } else { min_width },
        None => min_width,
    };
    let height = match state.height {
        Some(h) => if h >= min_height { h } else { min_height },
        None => min_height,
    };
    if state.width.is_none() || state.height.is_none() {
        return Restore { size: None, placement: Placement::Keep, maximize: state.maximized };
    }
    let placement = match (state.x, state.y) {
        (Some(x), Some(y)) => if center_visible(x, y, width, height, areas) {
            Placement::At(x, y)
        } else {
            Placement::Center
        },
        _ => Placement::Keep,
    };
    Restore { size: Some(Size { width, height }), placement, maximize: state.maximized }
}

/// Records the window's current frame: the maximized flag always, the
/// position and size (raised to the minimum) only while not maximized, and
/// each only when it could be read.
pub fn capture(
    state: &mut WindowStateFile,
    maximized: bool,
    position: Option<(i32, i32)>,
    size: Option<(u32, u32)>,
    min_width: u32,
    min_height: u32,
)
    ensures
        final(state).maximized == maximized,
        final(state).version == old(state).version,
        final(state).remember == old(state).remember,
        (maximized || position is None) ==> final(state).x == old(state).x && final(state).y
            == old(state).y,
        (maximized || size is None) ==> final(state).width == old(state).width && final(state).height
            == old(state).height,
        !maximized ==> (position matches Some((x, y)) ==> final(state).x == Some(x) && final(state).y
            == Some(y)),
        !maximized ==> (size matches Some((w, h)) ==> final(state).width == Some(
            at_least(Some(w), min_width),
        ) && final(state).height == Some(at_least(Some(h), min_height))),
{
    state.maximized = maximized;
    if maximized {
        return;
    }
    if let Some((x, y)) = position {
        state.x = Some(x);
        state.y = Some(y);
    }
    if let Some((w, h)) = size {
        state.width = Some(if w >= min_width { w } else { min_width });
        state.height = Some(if h >= min_height { h } else { min_height });
    }
}

} // verus!

//! Where the menu's window goes: a rectangle centred on the chosen screen,
//! sized to its content and bounded by a fraction of the screen.
use vstd::prelude::*;

verus! {

/// A rectangle in screen pixels.
#[derive(Clone, Copy, Debug, PartialEq, Eq)]
pub struct Rect {
    pub x: u32,
    pub y: u32,
    pub w: u32,
    pub h: u32,
}

/// The width and height that a widget needs.
#[derive(Clone, Copy, Debug, PartialEq, Eq)]
pub struct Extent {
    pub w: u32,
    pub h: u32,
}

/// Why a window could not be placed.
#[derive(Clone, Copy, Debug, PartialEq, Eq)]
pub enum ConfigError {
    /// A bounding fraction lies outside `[0, 1]`.
    FractionOutOfRange,
    /// No screen has the requested index.
    ScreenIndexOutOfRange,
}

/// Fractions are given in thousandths: this stands for the whole.
pub const WHOLE: i64 = 1000;

/// The window is this many tenths of its content's size.
pub const MARGIN_TENTHS: u64 = 11;

/// The rectangle's far edges are screen coordinates too.
pub open spec fn rect_fits(r: Rect) -> bool {
    r.x + r.w <= u32::MAX && r.y + r.h <= u32::MAX
}

pub open spec fn in_unit_range(fraction: i64) -> bool {
    0 <= fraction <= WHOLE
}

/// `len` scaled by `fraction` thousandths, rounded down.
pub open spec fn scaled(len: u32, fraction: i64) -> int {
    len * fraction / WHOLE as int
}

/// A content length with the visual margin added, rounded down.
pub open spec fn with_margin(len: int) -> int {
    len * MARGIN_TENTHS / 10
}

pub open spec fn max_of(a: int, b: int) -> int {
    if a >= b { a } else { b }
}

pub open spec fn min_of(a: int, b: int) -> int {
    if a <= b { a } else { b }
}

/// The window's size: the prompt and the pattern side by side above the
/// list, with the margin added, each dimension clamped to the fraction of
/// the screen.
pub open spec fn window_size(screen: Rect, w_frac: i64, h_frac: i64, prompt: Extent, pattern: Extent, list: Extent) -> (int, int) {
    let want_w: int = with_margin(max_of(prompt.w + pattern.w, list.w as int));
    let want_h: int = with_margin(max_of(prompt.h as int, pattern.h as int) + list.h);
    (min_of(want_w, scaled(screen.w, w_frac)), min_of(want_h, scaled(screen.h, h_frac)))
}

/// A rectangle of the given size centred in `screen`.
pub open spec fn centred(screen: Rect, w: int, h: int) -> Rect {
    Rect {
        x: (screen.x + (screen.w - w) / 2) as u32,
        y: (screen.y + (screen.h - h) / 2) as u32,
        w: w as u32,
        h: h as u32,
    }
}

pub open spec fn spec_window(screen: Rect, w_frac: i64, h_frac: i64, prompt: Extent, pattern: Extent, list: Extent) -> Rect {
    let (w, h) = window_size(screen, w_frac, h_frac, prompt, pattern, list);
    centred(screen, w, h)
}

proof fn lemma_scaled_bound(len: u32, fraction: i64)
    requires
        in_unit_range(fraction),
    ensures
        len * fraction <= len * 1000,
        0 <= scaled(len, fraction) <= len,
{
    assert(len * fraction <= len * 1000) by (nonlinear_arith)
        requires
            0 <= fraction <= 1000,
            0 <= len,
    ;
    assert(0 <= len * fraction) by (nonlinear_arith)
        requires
            0 <= fraction,
            0 <= len,
    ;
    assert((len * fraction) / 1000 <= (len * 1000) / 1000) by (nonlinear_arith)
        requires
            len * fraction <= len * 1000,
    ;
}

/// The window lies inside its screen, is no larger than the bounding
/// fractions of it allow, and is centred in it to within a pixel.
pub proof fn lemma_window_within_screen(screen: Rect, w_frac: i64, h_frac: i64, prompt: Extent, pattern: Extent, list: Extent)
    requires
        rect_fits(screen),
        in_unit_range(w_frac),
        in_unit_range(h_frac),
    ensures
        ({
            let r = spec_window(screen, w_frac, h_frac, prompt, pattern, list);
            &&& screen.x <= r.x
            &&& r.x + r.w <= screen.x + screen.w
            &&& screen.y <= r.y
            &&& r.y + r.h <= screen.y + screen.h
            &&& r.w <= scaled(screen.w, w_frac)
            &&& r.h <= scaled(screen.h, h_frac)
            &&& (r.x - screen.x) - (screen.x + screen.w - (r.x + r.w)) <= 0
            &&& (screen.x + screen.w - (r.x + r.w)) - (r.x - screen.x) <= 1
            &&& (r.y - screen.y) - (screen.y + screen.h - (r.y + r.h)) <= 0
            &&& (screen.y + screen.h - (r.y + r.h)) - (r.y - screen.y) <= 1
        }),
{
    lemma_scaled_bound(screen.w, w_frac);
    lemma_scaled_bound(screen.h, h_frac);
    assert(0 <= with_margin(max_of(prompt.w + pattern.w, list.w as int))) by (nonlinear_arith);
    assert(0 <= with_margin(max_of(prompt.h as int, pattern.h as int) + list.h)) by (nonlinear_arith);
}

/// Places the menu's window on screen `screen_index` of `screens`, given
/// the bounding fractions in thousandths and the measured extents of the
/// prompt, the pattern and the list. Fails on a fraction outside `[0, 1]`
/// first, then on a screen index that does not exist.
pub fn negotiate(
    screens: &Vec<Rect>,
    screen_index: usize,
    w_frac: i64,
    h_frac: i64,
    prompt: Extent,
    pattern: Extent,
    list: Extent,
) -> (r: Result<Rect, ConfigError>)
    requires
        forall|i: int| 0 <= i < screens.len() ==> rect_fits(#[trigger] screens[i]),
    ensures
        r == Err::<Rect, ConfigError>(ConfigError::FractionOutOfRange) <==> !in_unit_range(w_frac) || !in_unit_range(h_frac),
        r == Err::<Rect, ConfigError>(ConfigError::ScreenIndexOutOfRange) <==> in_unit_range(w_frac) && in_unit_range(h_frac)
            && screen_index >= screens.len(),
        r is Ok ==> r == Ok::<Rect, ConfigError>(
            spec_window(screens[screen_index as int], w_frac, h_frac, prompt, pattern, list),
        ),
{
    if w_frac < 0 || w_frac > WHOLE || h_frac < 0 || h_frac > WHOLE {
        return Err(ConfigError::FractionOutOfRange);
    }
    if screen_index >= screens.len() {
        return Err(ConfigError::ScreenIndexOutOfRange);
    }
    let screen = screens[screen_index];
    proof {
        lemma_scaled_bound(screen.w, w_frac);
        lemma_scaled_bound(screen.h, h_frac);
    }
    let max_w: u64 = screen.w as u64 * w_frac as u64 / WHOLE as u64;
    let max_h: u64 = screen.h as u64 * h_frac as u64 / WHOLE as u64;
    let content_w: u64 = if prompt.w as u64 + pattern.w as u64 >= list.w as u64 {
        prompt.w as u64 + pattern.w as u64
    } else {
        list.w as u64
    };
    let content_h: u64 = if prompt.h >= pattern.h { prompt.h as u64 } else { pattern.h as u64 } + list.h as u64;
    let want_w: u64 = content_w * MARGIN_TENTHS / 10;
    let want_h: u64 = content_h * MARGIN_TENTHS / 10;
    let w: u64 = if want_w <= max_w { want_w } else { max_w };
    let h: u64 = if want_h <= max_h { want_h } else { max_h };
    Ok(Rect {
        x: screen.x + ((screen.w as u64 - w) / 2) as u32,
        y: screen.y + ((screen.h as u64 - h) / 2) as u32,
        w: w as u32,
        h: h as u32,
    })
}

} // verus!

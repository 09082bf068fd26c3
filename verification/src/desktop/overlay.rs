//! Geometry of the input-takeover overlay: where the target frame and its banner are
//! painted on the monitor that shows the target window.

use vstd::prelude::*;

verus! {

pub const BORDER: i32 = 8;

/// A rectangle by its edges.
#[derive(Debug, Clone, Copy, PartialEq, Eq, Structural)]
pub struct Rect {
    pub left: i32,
    pub top: i32,
    pub right: i32,
    pub bottom: i32,
}

pub open spec fn clamp_spec(v: int, lo: int, hi: int) -> int {
    if v < lo { lo } else if v > hi { hi } else { v }
}

fn clamp(v: i32, lo: i32, hi: i32) -> (r: i32)
    requires
        lo <= hi,
    ensures
        r == clamp_spec(v as int, lo as int, hi as int),
{
    if v < lo { lo } else if v > hi { hi } else { v }
}

/// The target window's rectangle in the coordinates of the overlay on its monitor,
/// clipped to the overlay's client area.
pub fn target_in_monitor(target: Rect, monitor: Rect, client: Rect) -> (r: Rect)
    requires
        client.left <= client.right,
        client.top <= client.bottom,
        i32::MIN <= target.left - monitor.left <= i32::MAX,
        i32::MIN <= target.top - monitor.top <= i32::MAX,
        i32::MIN <= target.right - monitor.left <= i32::MAX,
        i32::MIN <= target.bottom - monitor.top <= i32::MAX,
    ensures
        r.left == clamp_spec(target.left - monitor.left, client.left as int, client.right as int),
        r.top == clamp_spec(target.top - monitor.top, client.top as int, client.bottom as int),
        r.right == clamp_spec(target.right - monitor.left, client.left as int, client.right as int),
        r.bottom == clamp_spec(target.bottom - monitor.top, client.top as int, client.bottom as int),
{
    Rect {
        left: clamp(target.left - monitor.left, client.left, client.right),
        top: clamp(target.top - monitor.top, client.top, client.bottom),
        right: clamp(target.right - monitor.left, client.left, client.right),
        bottom: clamp(target.bottom - monitor.top, client.top, client.bottom),
    }
}

/// The border width drawn around a rectangle of this size.
pub open spec fn border_width(width: int, height: int) -> int {
    let a = if BORDER < width { BORDER as int } else { width };
    if a < height { a } else { height }
}

/// The four bars that frame `rect` (top, bottom, left, right), each `BORDER` thick or
/// thinner for a small rectangle; an empty rectangle gets no frame.
pub fn border_boxes(rect: Rect) -> (r: Vec<Rect>)
    requires
        i32::MIN <= rect.right - rect.left <= i32::MAX,
        i32::MIN <= rect.bottom - rect.top <= i32::MAX,
    ensures
        ({
            let w = if rect.right - rect.left > 0 { rect.right - rect.left } else { 0 };
            let h = if rect.bottom - rect.top > 0 { rect.bottom - rect.top } else { 0 };
            let b = border_width(w, h);
            if w == 0 || h == 0 {
                r@.len() == 0
            } else {
                r@ == seq![
                    Rect { left: rect.left, top: rect.top, right: rect.right, bottom: (rect.top + b) as i32 },
                    Rect { left: rect.left, top: (rect.bottom - b) as i32, right: rect.right, bottom: rect.bottom },
                    Rect { left: rect.left, top: rect.top, right: (rect.left + b) as i32, bottom: rect.bottom },
                    Rect { left: (rect.right - b) as i32, top: rect.top, right: rect.right, bottom: rect.bottom },
                ]
            }
        }),
{
    let width = if rect.right - rect.left > 0 { rect.right - rect.left } else { 0 };
    let height = if rect.bottom - rect.top > 0 { rect.bottom - rect.top } else { 0 };
    let mut boxes: Vec<Rect> = Vec::new();
    if width == 0 || height == 0 {
        return boxes;
    }
    let a = if BORDER < width { BORDER } else { width };
    let border = if a < height { a } else { height };
    boxes.push(Rect { left: rect.left, top: rect.top, right: rect.right, bottom: rect.top + border });
    boxes.push(Rect { left: rect.left, top: rect.bottom - border, right: rect.right, bottom: rect.bottom });
    boxes.push(Rect { left: rect.left, top: rect.top, right: rect.left + border, bottom: rect.bottom });
    boxes.push(Rect { left: rect.right - border, top: rect.top, right: rect.right, bottom: rect.bottom });
    boxes
}

/// The banner inside the target frame that tells the user input is taken over, or
/// nothing when the frame is too small to hold it.
pub fn banner_rect(target: Rect) -> (r: Option<Rect>)
    requires
        target.left + BORDER <= i32::MAX,
        target.top + 42 <= i32::MAX,
        target.right - BORDER >= i32::MIN,
        target.bottom - BORDER >= i32::MIN,
    ensures
        ({
            let left = target.left + BORDER;
            let top = target.top + BORDER;
            let right = target.right - BORDER;
            let bottom = if target.top + 42 < target.bottom - BORDER { target.top + 42 } else { target.bottom - BORDER };
            if right <= left || bottom <= top {
                r is None
            } else {
                r == Some(Rect { left: left as i32, top: top as i32, right: right as i32, bottom: bottom as i32 })
            }
        }),
{
    let left = target.left + BORDER;
    let top = target.top + BORDER;
    let right = target.right - BORDER;
    let bottom = if target.top + 42 < target.bottom - BORDER { target.top + 42 } else { target.bottom - BORDER };
    if right <= left || bottom <= top {
        None
    } else {
        Some(Rect { left, top, right, bottom })
    }
}

/// A Windows `COLORREF`: red in the low byte, then green, then blue.
pub fn rgb(red: u8, green: u8, blue: u8) -> (c: u32)
    ensures
        c == red as int + green as int * 256 + blue as int * 65536,
{
    let c: u32 = red as u32 + (green as u32) * 256 + (blue as u32) * 65536;
    c
}

/// The frame color: bright red while flashing, orange otherwise.
pub fn accent(bright: bool) -> (c: u32)
    ensures
        c == (if bright { 239 + 68 * 256 + 68 * 65536 } else { 249 + 115 * 256 + 22 * 65536 }),
{
    if bright { rgb(239, 68, 68) } else { rgb(249, 115, 22) }
}

} // verus!

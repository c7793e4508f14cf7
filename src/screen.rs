//! Where the picker window goes: the monitor (CRTC) that holds the focused
//! window, and the origin that centers the picker on it.
use vstd::prelude::*;

verus! {

/// A rectangle on the root window.
#[derive(Clone, Copy, Debug, PartialEq, Eq, Structural)]
pub struct Rect {
    pub x: i16,
    pub y: i16,
    pub width: u16,
    pub height: u16,
}

/// A CRTC's area, and whether any output shows it.
#[derive(Clone, Copy, Debug, PartialEq, Eq, Structural)]
pub struct Crtc {
    pub area: Rect,
    pub active: bool,
}

/// The point `(px, py)` lies in `r`, edges included.
pub open spec fn rect_holds(r: Rect, px: int, py: int) -> bool {
    r.x <= px <= r.x + r.width && r.y <= py <= r.y + r.height
}

/// Entry `k` is the first active CRTC that satisfies `p`.
pub open spec fn first_active(crtcs: Seq<Crtc>, k: int, p: spec_fn(Rect) -> bool) -> bool {
    0 <= k < crtcs.len() && crtcs[k].active && p(crtcs[k].area) && forall|j: int|
        0 <= j < k && crtcs[j].active ==> !p(#[trigger] crtcs[j].area)
}

/// The area of the first active CRTC that holds the point `(px, py)`; else
/// that of the first active CRTC; `None` where no CRTC is active.
pub fn pick_crtc(crtcs: &Vec<Crtc>, px: i16, py: i16) -> (r: Option<Rect>)
    ensures
        r matches Some(area) ==> (exists|k: int|
            first_active(crtcs@, k, |a: Rect| rect_holds(a, px as int, py as int)) && crtcs@[k].area
                == area) || ((forall|j: int|
            0 <= j < crtcs@.len() && crtcs@[j].active ==> !rect_holds(
                #[trigger] crtcs@[j].area,
                px as int,
                py as int,
            )) && exists|k: int| first_active(crtcs@, k, |a: Rect| true) && crtcs@[k].area == area),
        r is None ==> forall|j: int| 0 <= j < crtcs@.len() ==> !(#[trigger] crtcs@[j]).active,
{
    let n = crtcs.len();
    let mut fallback: Option<usize> = None;
    let mut k: usize = 0;
    while k < n
        invariant
            n == crtcs@.len(),
            k <= n,
            forall|j: int|
                0 <= j < k && crtcs@[j].active ==> !rect_holds(
                    #[trigger] crtcs@[j].area,
                    px as int,
                    py as int,
                ),
            fallback matches Some(f) ==> f < k && first_active(crtcs@, f as int, |a: Rect| true),
            fallback is None ==> forall|j: int| 0 <= j < k ==> !(#[trigger] crtcs@[j]).active,
        decreases n - k,
    {
        let c = crtcs[k];
        if c.active {
            let a = c.area;
            let px32 = px as i32;
            let py32 = py as i32;
            if a.x as i32 <= px32 && px32 <= a.x as i32 + a.width as i32 && a.y as i32 <= py32
                && py32 <= a.y as i32 + a.height as i32 {
                assert(first_active(crtcs@, k as int, |a: Rect| rect_holds(a, px as int, py as int)));
                return Some(a);
            }
            if fallback.is_none() {
                fallback = Some(k);
            }
        }
        k = k + 1;
    }
    match fallback {
        Some(f) => Some(crtcs[f].area),
        None => None,
    }
}

/// The origin that centers a window of `width` by `height` on `area`.
pub fn centered_origin(area: Rect, width: u16, height: u16) -> (r: (i32, i32))
    ensures
        r.0 == area.x + area.width / 2 - width / 2,
        r.1 == area.y + area.height / 2 - height / 2,
{
    (
        area.x as i32 + (area.width / 2) as i32 - (width / 2) as i32,
        area.y as i32 + (area.height / 2) as i32 - (height / 2) as i32,
    )
}

} // verus!

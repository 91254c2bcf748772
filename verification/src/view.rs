//! The pan/zoom state of the viewport and its input-event decisions.
//!
//! The host event loop feeds plain values in: a multiplicative zoom
//! factor per scroll step, button presses and releases, and pointer
//! positions. Every decision — whether a zoom is accepted, how the
//! offset is rescaled, how a drag accumulates — is made here.

use vstd::prelude::*;

use crate::fixed::{fadd, fdiv, fmul, fsub, Fixed, UNIT};
use crate::graph::PixelPoint;

verus! {

/// The default zoom scale: fifty pixels per unit.
pub const DEFAULT_SCALE_RAW: i64 = 50_000_000;

/// The candidate scale of a zoom step: the old scale times the factor.
pub open spec fn zoom_scale(s: int, factor: int) -> int {
    fmul(s, factor)
}

/// Whether a zoom step is accepted: only while the new scale stays
/// above one pixel per unit.
pub open spec fn zoom_accepted(s: int, factor: int) -> bool {
    zoom_scale(s, factor) > UNIT
}

/// The offset after an accepted zoom from scale `s` to `ns`: grown by
/// `(ns - s) * offset / s`, so the point under the origin anchor keeps
/// its place on screen.
pub open spec fn zoom_offset(s: int, ns: int, off: int) -> int {
    fadd(off, fdiv(fmul(fsub(ns, s), off), s))
}

/// The pan/zoom state of one viewport: the zoom scale in pixels per
/// unit, the pixel offset of the math origin, and the drag state
/// machine fed by pointer events.
#[derive(Clone, Copy, Debug)]
pub struct ViewState {
    pub scale: Fixed,
    pub offset: PixelPoint,
    pub dragging: bool,
    pub previous_position: Option<PixelPoint>,
}

impl ViewState {
    /// Well-formed: the scale is above one pixel per unit, as the zoom
    /// guard keeps it.
    pub open spec fn wf(self) -> bool {
        self.scale@ > UNIT
    }

    /// A fresh state: the given scale, no offset, no active drag.
    pub fn new(scale: Fixed) -> (r: ViewState)
        requires
            scale@ > UNIT,
        ensures
            r.scale == scale,
            r.offset@.x == 0,
            r.offset@.y == 0,
            !r.dragging,
            r.previous_position.is_none(),
            r.wf(),
    {
        ViewState {
            scale,
            offset: PixelPoint { x: Fixed::zero(), y: Fixed::zero() },
            dragging: false,
            previous_position: None,
        }
    }

    /// One scroll step: the host hands the multiplicative factor of the
    /// logarithmic zoom (greater than one exactly for an inward step).
    /// The step is applied only if the new scale stays above one pixel
    /// per unit; then the offset is rescaled proportionally and a
    /// redraw is due. A rejected step changes nothing.
    pub fn zoom(&mut self, factor: Fixed) -> (redraw: bool)
        requires
            old(self).wf(),
            factor@ > 0,
        ensures
            final(self).wf(),
            redraw == zoom_accepted(old(self).scale@, factor@),
            zoom_accepted(old(self).scale@, factor@) ==> {
                &&& final(self).scale@ == zoom_scale(old(self).scale@, factor@)
                &&& final(self).offset@.x == zoom_offset(
                    old(self).scale@,
                    final(self).scale@,
                    old(self).offset@.x,
                )
                &&& final(self).offset@.y == zoom_offset(
                    old(self).scale@,
                    final(self).scale@,
                    old(self).offset@.y,
                )
                &&& final(self).dragging == old(self).dragging
                &&& final(self).previous_position == old(self).previous_position
            },
            !zoom_accepted(old(self).scale@, factor@) ==> *final(self) == *old(self),
    {
        let new_scale = self.scale.times(factor);
        if new_scale.raw > UNIT {
            let scale_change = new_scale.minus(self.scale);
            let dx = scale_change.times(self.offset.x).over(self.scale);
            let dy = scale_change.times(self.offset.y).over(self.scale);
            self.offset = PixelPoint { x: self.offset.x.plus(dx), y: self.offset.y.plus(dy) };
            self.scale = new_scale;
            true
        } else {
            false
        }
    }

    /// A button press starts a drag.
    pub fn mouse_pressed(&mut self)
        ensures
            final(self).dragging,
            final(self).scale == old(self).scale,
            final(self).offset == old(self).offset,
            final(self).previous_position == old(self).previous_position,
    {
        self.dragging = true;
    }

    /// A button release ends the drag and forgets the remembered
    /// pointer position.
    pub fn mouse_released(&mut self)
        ensures
            !final(self).dragging,
            final(self).previous_position.is_none(),
            final(self).scale == old(self).scale,
            final(self).offset == old(self).offset,
    {
        self.dragging = false;
        self.previous_position = None;
    }

    /// A pointer move. Outside a drag it does nothing. The first move
    /// of a drag only records the position; each further move pans the
    /// offset by the move since the previous position and asks for a
    /// redraw.
    pub fn cursor_moved(&mut self, position: PixelPoint) -> (redraw: bool)
        ensures
            final(self).scale == old(self).scale,
            final(self).dragging == old(self).dragging,
            !old(self).dragging ==> *final(self) == *old(self) && !redraw,
            old(self).dragging && old(self).previous_position.is_none() ==> {
                &&& final(self).offset == old(self).offset
                &&& final(self).previous_position == Some(position)
                &&& !redraw
            },
            old(self).previous_position matches Some(prev) ==> old(self).dragging ==> {
                &&& final(self).offset@.x == fadd(old(self).offset@.x, fsub(position@.x, prev@.x))
                &&& final(self).offset@.y == fadd(old(self).offset@.y, fsub(position@.y, prev@.y))
                &&& final(self).previous_position == Some(position)
                &&& redraw
            },
    {
        if !self.dragging {
            return false;
        }
        match self.previous_position {
            None => {
                self.previous_position = Some(position);
                false
            },
            Some(prev) => {
                let dx = position.x.minus(prev.x);
                let dy = position.y.minus(prev.y);
                self.offset = PixelPoint { x: self.offset.x.plus(dx), y: self.offset.y.plus(dy) };
                self.previous_position = Some(position);
                true
            },
        }
    }
}

/// Zooming in strictly zooms in: a factor above one, applied to a scale
/// above one, is accepted and strictly increases the scale — as long as
/// the product stays representable (at the saturation bound the scale
/// can grow no further). Together with `zoom`'s guard, which rejects
/// any step that would not leave the scale above one, the scale never
/// reaches one from above.
pub proof fn lemma_zoom_strictly_increases(s: int, factor: int)
    requires
        s > UNIT,
        factor > UNIT,
        s * factor <= i64::MAX * (UNIT as int),
    ensures
        zoom_accepted(s, factor),
        zoom_scale(s, factor) > s,
{
    let u = UNIT as int;
    vstd::arithmetic::mul::lemma_mul_inequality(u + 1, factor, s);
    assert((u + 1) * s <= factor * s);
    vstd::arithmetic::mul::lemma_mul_is_distributive_add_other_way(s, u, 1);
    assert((u + 1) * s == u * s + s);
    vstd::arithmetic::div_mod::lemma_div_is_ordered(u * s + s, s * factor, u);
    vstd::arithmetic::div_mod::lemma_hoist_over_denominator(s, s, u as nat);
    assert((s + s * u) / u == s / u + s);
    vstd::arithmetic::div_mod::lemma_div_is_ordered(u, s, u);
    vstd::arithmetic::div_mod::lemma_div_basics(u);
    assert(s / u >= 1);
    assert((s * factor) / u >= s + 1);
    vstd::arithmetic::div_mod::lemma_div_is_ordered(s * factor, i64::MAX * u, u);
    vstd::arithmetic::div_mod::lemma_div_multiples_vanish(i64::MAX as int, u);
    assert((s * factor) / u <= i64::MAX);
    vstd::arithmetic::mul::lemma_mul_strictly_positive(s, factor);
    assert(crate::fixed::tdiv(s * factor, u) == (s * factor) / u);
}

} // verus!

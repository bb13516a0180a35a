use vstd::prelude::*;

use vstd::arithmetic::div_mod::{lemma_div_pos_is_pos, lemma_fundamental_div_mod};

use crate::universe::{lemma_idx_decompose, lemma_row_major, toggle_result, Universe};

verus! {

/// The absolute difference of two coordinates.
pub open spec fn dist(a: int, b: int) -> int {
    if a <= b {
        b - a
    } else {
        a - b
    }
}

/// The secondary coordinate of the rasterized segment at driving step `k`:
/// the exact interpolation from `bl` (at step 0) to `br` (at step `d`),
/// rounded to the nearest integer, halves rounding up (every interpolated
/// value is nonnegative, so this is rounding half away from zero).
pub open spec fn seg_sec(bl: int, br: int, d: int, k: int) -> int
    recommends
        0 <= bl,
        0 <= br,
        1 <= d,
        0 <= k <= d,
{
    (2 * ((d - k) * bl + k * br) + d) / (2 * d)
}

/// Whether toggling along the segment from (`x1`, `y1`) to (`x2`, `y2`)
/// touches the cell at unwrapped coordinates (`cx`, `cy`). Identical
/// endpoints touch nothing. The axis with the larger absolute delta drives,
/// a tie favoring x; the walk is normalized so the driving coordinate
/// increases, visits only the strict interior, and pairs each driving step
/// with the rounded interpolation of the secondary coordinate.
pub open spec fn seg_toggles(x1: int, y1: int, x2: int, y2: int, cx: int, cy: int) -> bool {
    if x1 == x2 && y1 == y2 {
        false
    } else if dist(y1, y2) <= dist(x1, x2) {
        if x2 < x1 {
            x2 < cx < x1 && cy == seg_sec(y2, y1, x1 - x2, cx - x2)
        } else {
            x1 < cx < x2 && cy == seg_sec(y1, y2, x2 - x1, cx - x1)
        }
    } else {
        if y2 < y1 {
            y2 < cy < y1 && cx == seg_sec(x2, x1, y1 - y2, cy - y2)
        } else {
            y1 < cy < y2 && cx == seg_sec(x1, x2, y2 - y1, cy - y1)
        }
    }
}

/// The rounded interpolation stays between zero and the larger endpoint.
proof fn lemma_seg_sec_bounds(bl: int, br: int, d: int, k: int)
    requires
        0 <= bl,
        0 <= br,
        1 <= d,
        0 <= k <= d,
    ensures
        0 <= seg_sec(bl, br, d, k),
        seg_sec(bl, br, d, k) <= (if bl <= br {
            br
        } else {
            bl
        }),
{
    let t = (d - k) * bl + k * br;
    let m = if bl <= br {
        br
    } else {
        bl
    };
    assert(0 <= t && t <= d * m) by (nonlinear_arith)
        requires
            0 <= bl,
            0 <= br,
            1 <= d,
            0 <= k <= d,
            t == (d - k) * bl + k * br,
            m == (if bl <= br {
                br
            } else {
                bl
            }),
    ;
    lemma_div_pos_is_pos(2 * t + d, 2 * d);
    lemma_fundamental_div_mod(2 * t + d, 2 * d);
    let q = (2 * t + d) / (2 * d);
    let r = (2 * t + d) % (2 * d);
    assert(q <= m) by (nonlinear_arith)
        requires
            2 * t + d == 2 * d * q + r,
            0 <= r < 2 * d,
            t <= d * m,
            1 <= d,
            0 <= m,
    ;
}

/// The product of two values below two to the thirty-second stays below two
/// to the sixty-fourth.
proof fn lemma_mul_bound_u32(p: int, q: int)
    requires
        0 <= p < 0x1_0000_0000,
        0 <= q < 0x1_0000_0000,
    ensures
        0 <= p * q < 0x1_0000_0000_0000_0000,
{
    assert(0 <= p * q < 0x1_0000_0000_0000_0000) by (nonlinear_arith)
        requires
            0 <= p < 0x1_0000_0000,
            0 <= q < 0x1_0000_0000,
    ;
}

/// A row-major index built from in-range coordinates is itself in range.
proof fn lemma_pair_in_range(w: int, h: int, cx: int, cy: int)
    requires
        1 <= w,
        1 <= h,
        0 <= cx < w,
        0 <= cy < h,
    ensures
        0 <= cy * w + cx < w * h,
{
    assert(0 <= cy * w + cx < w * h) by (nonlinear_arith)
        requires
            1 <= w,
            1 <= h,
            0 <= cx < w,
            0 <= cy < h,
    ;
}

impl Universe {
    /// The forward walk with x driving: toggles (`a`, rounded interpolation)
    /// for every a strictly between `xl` and `xr`.
    #[verifier::loop_isolation(false)]
    #[verifier::rlimit(100)]
    fn toggle_walk_x(&mut self, xl: u32, yl: u32, xr: u32, yr: u32)
        requires
            old(self).wf(),
            xl < xr,
        ensures
            final(self).wf(),
            final(self).spec_width() == old(self).spec_width(),
            final(self).spec_height() == old(self).spec_height(),
            final(self).spec_square_size() == old(self).spec_square_size(),
            final(self).spec_square_spacing() == old(self).spec_square_spacing(),
            final(self).grid().len() == old(self).grid().len(),
            forall|i: int|
                0 <= i < final(self).grid().len() ==> (#[trigger] final(self).grid()[i]) == (if (
                xl as int) < i
                    % old(self).spec_width() < (xr as int) && i / old(self).spec_width()
                    == seg_sec(
                    yl as int,
                    yr as int,
                    xr as int - xl as int,
                    i % old(self).spec_width() - xl as int,
                ) {
                    old(self).grid()[i].spec_flipped()
                } else {
                    old(self).grid()[i]
                }),
    {
        let ghost gw = old(self).spec_width();
        let ghost gh = old(self).spec_height();
        let d: u32 = xr - xl;
        let mut a: u32 = xl + 1;
        while a < xr
            invariant
                self.wf(),
                self.spec_width() == gw,
                self.spec_height() == gh,
                self.spec_square_size() == old(self).spec_square_size(),
                self.spec_square_spacing() == old(self).spec_square_spacing(),
                self.grid().len() == old(self).grid().len(),
                xl < a <= xr,
                forall|i: int|
                    0 <= i < self.grid().len() ==> self.grid()[i] == (if (xl as int) < i % gw < (
                    a as int) && i / gw == seg_sec(
                        yl as int,
                        yr as int,
                        d as int,
                        i % gw - xl as int,
                    ) {
                        old(self).grid()[i].spec_flipped()
                    } else {
                        old(self).grid()[i]
                    }),
            decreases xr - a,
        {
            let k: u32 = a - xl;
            proof {
                lemma_mul_bound_u32((d - k) as int, yl as int);
                lemma_mul_bound_u32(k as int, yr as int);
            }
            let t: u128 = (d - k) as u128 * yl as u128 + k as u128 * yr as u128;
            let sec_wide: u128 = (2 * t + d as u128) / (2 * d as u128);
            proof {
                lemma_seg_sec_bounds(yl as int, yr as int, d as int, k as int);
                assert(sec_wide as int == seg_sec(yl as int, yr as int, d as int, k as int));
            }
            let sec: u32 = sec_wide as u32;
            let ghost prev = *self;
            self.toggle_cell_at(a, sec);
            proof {
                let av = a as int;
                let sv = sec as int;
                assert(self.grid() == toggle_result(prev.grid(), gw, gh, av, sv));
                assert forall|i: int| 0 <= i < self.grid().len() implies self.grid()[i] == (if (
                xl as int) < i % gw < av + 1 && i / gw == seg_sec(
                    yl as int,
                    yr as int,
                    d as int,
                    i % gw - xl as int,
                ) {
                    old(self).grid()[i].spec_flipped()
                } else {
                    old(self).grid()[i]
                }) by {
                    lemma_idx_decompose(gw, gh, i);
                    let cx = i % gw;
                    let cy = i / gw;
                    assert(i == cy * gw + cx);
                    if 0 <= av < gw && 0 <= sv < gh {
                        lemma_pair_in_range(gw, gh, av, sv);
                        lemma_row_major(gw, av, sv);
                        if i == sv * gw + av {
                            assert(cx == av && cy == sv);
                            assert(self.grid()[i] == prev.grid()[i].spec_flipped());
                        } else {
                            assert(self.grid()[i] == prev.grid()[i]);
                            assert(cx == av ==> cy != sv);
                        }
                    } else {
                        assert(self.grid()[i] == prev.grid()[i]);
                        assert(cx == av ==> cy != sv);
                    }
                }
            }
            a = a + 1;
        }
    }

    /// The forward walk with y driving: toggles (rounded interpolation, `b`)
    /// for every b strictly between `yl` and `yr`.
    #[verifier::loop_isolation(false)]
    #[verifier::rlimit(100)]
    fn toggle_walk_y(&mut self, yl: u32, xl: u32, yr: u32, xr: u32)
        requires
            old(self).wf(),
            yl < yr,
        ensures
            final(self).wf(),
            final(self).spec_width() == old(self).spec_width(),
            final(self).spec_height() == old(self).spec_height(),
            final(self).spec_square_size() == old(self).spec_square_size(),
            final(self).spec_square_spacing() == old(self).spec_square_spacing(),
            final(self).grid().len() == old(self).grid().len(),
            forall|i: int|
                0 <= i < final(self).grid().len() ==> (#[trigger] final(self).grid()[i]) == (if (
                yl as int) < i
                    / old(self).spec_width() < (yr as int) && i % old(self).spec_width()
                    == seg_sec(
                    xl as int,
                    xr as int,
                    yr as int - yl as int,
                    i / old(self).spec_width() - yl as int,
                ) {
                    old(self).grid()[i].spec_flipped()
                } else {
                    old(self).grid()[i]
                }),
    {
        let ghost gw = old(self).spec_width();
        let ghost gh = old(self).spec_height();
        let d: u32 = yr - yl;
        let mut b: u32 = yl + 1;
        while b < yr
            invariant
                self.wf(),
                self.spec_width() == gw,
                self.spec_height() == gh,
                self.spec_square_size() == old(self).spec_square_size(),
                self.spec_square_spacing() == old(self).spec_square_spacing(),
                self.grid().len() == old(self).grid().len(),
                yl < b <= yr,
                forall|i: int|
                    0 <= i < self.grid().len() ==> self.grid()[i] == (if (yl as int) < i / gw < (
                    b as int) && i % gw == seg_sec(
                        xl as int,
                        xr as int,
                        d as int,
                        i / gw - yl as int,
                    ) {
                        old(self).grid()[i].spec_flipped()
                    } else {
                        old(self).grid()[i]
                    }),
            decreases yr - b,
        {
            let k: u32 = b - yl;
            proof {
                lemma_mul_bound_u32((d - k) as int, xl as int);
                lemma_mul_bound_u32(k as int, xr as int);
            }
            let t: u128 = (d - k) as u128 * xl as u128 + k as u128 * xr as u128;
            let sec_wide: u128 = (2 * t + d as u128) / (2 * d as u128);
            proof {
                lemma_seg_sec_bounds(xl as int, xr as int, d as int, k as int);
                assert(sec_wide as int == seg_sec(xl as int, xr as int, d as int, k as int));
            }
            let sec: u32 = sec_wide as u32;
            let ghost prev = *self;
            self.toggle_cell_at(sec, b);
            proof {
                let bv = b as int;
                let sv = sec as int;
                assert(self.grid() == toggle_result(prev.grid(), gw, gh, sv, bv));
                assert forall|i: int| 0 <= i < self.grid().len() implies self.grid()[i] == (if (
                yl as int) < i / gw < bv + 1 && i % gw == seg_sec(
                    xl as int,
                    xr as int,
                    d as int,
                    i / gw - yl as int,
                ) {
                    old(self).grid()[i].spec_flipped()
                } else {
                    old(self).grid()[i]
                }) by {
                    lemma_idx_decompose(gw, gh, i);
                    let cx = i % gw;
                    let cy = i / gw;
                    assert(i == cy * gw + cx);
                    if 0 <= sv < gw && 0 <= bv < gh {
                        lemma_pair_in_range(gw, gh, sv, bv);
                        lemma_row_major(gw, sv, bv);
                        if i == bv * gw + sv {
                            assert(cx == sv && cy == bv);
                            assert(self.grid()[i] == prev.grid()[i].spec_flipped());
                        } else {
                            assert(self.grid()[i] == prev.grid()[i]);
                            assert(cy == bv ==> cx != sv);
                        }
                    } else {
                        assert(self.grid()[i] == prev.grid()[i]);
                        assert(cy == bv ==> cx != sv);
                    }
                }
            }
            b = b + 1;
        }
    }

    /// Toggles every interior grid cell on the rasterized line segment
    /// between (`x1`, `y1`) and (`x2`, `y2`); the endpoints themselves stay
    /// as they are, and steps that land outside the unwrapped bounds are
    /// silently ignored by the bounds-checked toggle.
    #[verifier::rlimit(50)]
    pub fn toggle_cells_between(&mut self, x1: u32, y1: u32, x2: u32, y2: u32)
        requires
            old(self).wf(),
        ensures
            final(self).wf(),
            final(self).spec_width() == old(self).spec_width(),
            final(self).spec_height() == old(self).spec_height(),
            final(self).spec_square_size() == old(self).spec_square_size(),
            final(self).spec_square_spacing() == old(self).spec_square_spacing(),
            final(self).grid().len() == old(self).grid().len(),
            forall|i: int|
                0 <= i < final(self).grid().len() ==> (#[trigger] final(self).grid()[i]) == (if
                seg_toggles(
                    x1 as int,
                    y1 as int,
                    x2 as int,
                    y2 as int,
                    i % old(self).spec_width(),
                    i / old(self).spec_width(),
                ) {
                    old(self).grid()[i].spec_flipped()
                } else {
                    old(self).grid()[i]
                }),
    {
        if x1 == x2 && y1 == y2 {
            return;
        }
        let ady: u32 = if y2 >= y1 {
            y2 - y1
        } else {
            y1 - y2
        };
        let adx: u32 = if x2 >= x1 {
            x2 - x1
        } else {
            x1 - x2
        };
        if ady <= adx {
            if x2 < x1 {
                self.toggle_walk_x(x2, y2, x1, y1);
            } else {
                self.toggle_walk_x(x1, y1, x2, y2);
            }
        } else {
            if y2 < y1 {
                self.toggle_walk_y(y2, x2, y1, x1);
            } else {
                self.toggle_walk_y(y1, x1, y2, x2);
            }
        }
    }
}

} // verus!

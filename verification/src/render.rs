use vstd::prelude::*;

use vstd::arithmetic::div_mod::lemma_fundamental_div_mod_converse;

use crate::cell::Cell;
use crate::universe::Universe;

verus! {

/// An axis-aligned square requested from the drawing surface, in pixels.
#[derive(Clone, Copy, PartialEq, Eq, Structural, Debug)]
pub struct Rect {
    pub x: u64,
    pub y: u64,
    pub side: u64,
}

/// A color as four 8-bit channels, order-significant.
#[derive(Clone, Copy, PartialEq, Eq, Structural, Debug)]
pub struct Rgba {
    pub r: u8,
    pub g: u8,
    pub b: u8,
    pub a: u8,
}

impl Rgba {
    /// Channel `c` of the color, in buffer order: red, green, blue, alpha.
    pub open spec fn spec_channel(self, c: int) -> u8 {
        if c == 0 {
            self.r
        } else if c == 1 {
            self.g
        } else if c == 2 {
            self.b
        } else {
            self.a
        }
    }
}

/// Multiplying by a nonnegative factor preserves order.
proof fn lemma_mul_le(a: int, b: int, c: int)
    requires
        a <= b,
        0 <= c,
    ensures
        a * c <= b * c,
{
    assert(a * c <= b * c) by (nonlinear_arith)
        requires
            a <= b,
            0 <= c,
    ;
}

impl Universe {
    /// The pixel pitch of the cell lattice: square size plus spacing.
    pub open spec fn spec_pitch(&self) -> int {
        self.spec_square_size() + self.spec_square_spacing()
    }

    /// Canvas width in pixels, spacing borders included.
    pub open spec fn canvas_width_px(&self) -> int {
        self.spec_width() * self.spec_pitch() + self.spec_square_spacing()
    }

    /// Canvas height in pixels, spacing borders included.
    pub open spec fn canvas_height_px(&self) -> int {
        self.spec_height() * self.spec_pitch() + self.spec_square_spacing()
    }

    /// The canvas arithmetic stays within the pixel coordinate type.
    pub open spec fn canvas_fits(&self) -> bool {
        self.canvas_width_px() <= u64::MAX as int && self.canvas_height_px() <= u64::MAX as int
    }

    /// The square occupied by cell (`x`, `y`): its corner sits at
    /// `coordinate * (size + spacing) + spacing` on each axis.
    pub open spec fn spec_rect(&self, x: int, y: int) -> Rect {
        Rect {
            x: (x * self.spec_pitch() + self.spec_square_spacing()) as u64,
            y: (y * self.spec_pitch() + self.spec_square_spacing()) as u64,
            side: self.spec_square_size() as u64,
        }
    }

    /// The squares requested for the first `n` visited cells that match
    /// `target`, visiting columns outermost: cell number `n` is
    /// (`n / height`, `n mod height`).
    pub open spec fn spec_fill_rects(&self, target: Cell, n: int) -> Seq<Rect>
        recommends
            self.wf(),
        decreases n,
    {
        if n <= 0 {
            Seq::empty()
        } else {
            let x = (n - 1) / self.spec_height();
            let y = (n - 1) % self.spec_height();
            let prev = self.spec_fill_rects(target, n - 1);
            if self.spec_cell_at(x, y) == target {
                prev.push(self.spec_rect(x, y))
            } else {
                prev
            }
        }
    }

    /// Whether pixel (`px`, `py`) lies inside the square block of a cell
    /// whose state matches `target`. Each pixel belongs to at most one
    /// cell: strip the leading spacing, divide by the pitch for the cell
    /// coordinate, and demand that the remainder land inside the square
    /// rather than the trailing gap.
    pub open spec fn covered(&self, px: int, py: int, target: Cell) -> bool {
        let sz = self.spec_square_size();
        let sp = self.spec_square_spacing();
        if sz == 0 {
            false
        } else {
            let pitch = sz + sp;
            &&& sp <= px
            &&& sp <= py
            &&& (px - sp) % pitch < sz
            &&& (py - sp) % pitch < sz
            &&& (px - sp) / pitch < self.spec_width()
            &&& (py - sp) / pitch < self.spec_height()
            &&& self.spec_cell_at((px - sp) / pitch, (py - sp) / pitch) == target
        }
    }

    /// Byte `j` of the RGBA image buffer: pixel `j / 4`, channel `j mod 4`,
    /// pixels in row-major order over the canvas; the channel color where
    /// the pixel is covered by a matching cell, zero elsewhere.
    pub open spec fn image_byte(&self, j: int, target: Cell, color: Rgba) -> u8 {
        let p = j / 4;
        let c = j % 4;
        let px = p % self.canvas_width_px();
        let py = p / self.canvas_width_px();
        if self.covered(px, py, target) {
            color.spec_channel(c)
        } else {
            0
        }
    }

    /// The canvas dimensions in pixels, width then height.
    pub fn canvas_size_px(&self) -> (dims: (u64, u64))
        requires
            self.wf(),
            self.canvas_fits(),
        ensures
            dims.0 as int == self.canvas_width_px(),
            dims.1 as int == self.canvas_height_px(),
    {
        let sz: u64 = self.get_square_size() as u64;
        let sp: u64 = self.get_square_spacing() as u64;
        let pitch: u64 = sz + sp;
        let cw: u64 = self.width() as u64 * pitch + sp;
        let ch: u64 = self.height() as u64 * pitch + sp;
        (cw, ch)
    }

    /// Rectangle-fill rendering: the squares for every cell matching
    /// `target`, in visiting order, ready to hand to a surface's
    /// rectangle-fill primitive.
    pub fn fill_cells(&self, target: Cell) -> (rects: Vec<Rect>)
        requires
            self.wf(),
            self.canvas_fits(),
        ensures
            rects@ == self.spec_fill_rects(
                target,
                self.spec_width() * self.spec_height(),
            ),
    {
        let w: u32 = self.width();
        let h: u32 = self.height();
        let size: u32 = self.get_square_size();
        let spacing: u32 = self.get_square_spacing();
        let pitch: u64 = size as u64 + spacing as u64;
        let mut rects: Vec<Rect> = Vec::new();
        let mut x: u32 = 0;
        while x < w
            invariant
                self.wf(),
                self.canvas_fits(),
                x <= w,
                w as int == self.spec_width(),
                h as int == self.spec_height(),
                size as int == self.spec_square_size(),
                spacing as int == self.spec_square_spacing(),
                pitch as int == self.spec_pitch(),
                rects@ == self.spec_fill_rects(target, (x as int) * (h as int)),
            decreases w - x,
        {
            let mut y: u32 = 0;
            while y < h
                invariant
                    self.wf(),
                    self.canvas_fits(),
                    x < w,
                    y <= h,
                    w as int == self.spec_width(),
                    h as int == self.spec_height(),
                    size as int == self.spec_square_size(),
                    spacing as int == self.spec_square_spacing(),
                    pitch as int == self.spec_pitch(),
                    rects@ == self.spec_fill_rects(target, (x as int) * (h as int) + (y as int)),
                decreases h - y,
            {
                proof {
                    lemma_fundamental_div_mod_converse(
                        (x as int) * (h as int) + (y as int),
                        h as int,
                        x as int,
                        y as int,
                    );
                }
                let c: Cell = self.get_cell_at(x, y);
                if c == target {
                    proof {
                        lemma_mul_le(x as int, w as int, pitch as int);
                        lemma_mul_le(y as int, h as int, pitch as int);
                    }
                    let rx: u64 = x as u64 * pitch + spacing as u64;
                    let ry: u64 = y as u64 * pitch + spacing as u64;
                    rects.push(Rect { x: rx, y: ry, side: size as u64 });
                }
                y = y + 1;
            }
            proof {
                assert((x as int + 1) * (h as int) == (x as int) * (h as int) + (h as int))
                    by (nonlinear_arith);
            }
            x = x + 1;
        }
        rects
    }

    /// Whether pixel (`px`, `py`) is covered by a cell matching `target`.
    fn pixel_hits(&self, px: u64, py: u64, target: Cell) -> (hit: bool)
        requires
            self.wf(),
        ensures
            hit == self.covered(px as int, py as int, target),
    {
        let sz: u64 = self.get_square_size() as u64;
        let sp: u64 = self.get_square_spacing() as u64;
        if sz == 0 {
            return false;
        }
        if px < sp || py < sp {
            return false;
        }
        let pitch: u64 = sz + sp;
        let tx: u64 = px - sp;
        let ty: u64 = py - sp;
        if tx % pitch >= sz || ty % pitch >= sz {
            return false;
        }
        let cx: u64 = tx / pitch;
        let cy: u64 = ty / pitch;
        if cx >= self.width() as u64 || cy >= self.height() as u64 {
            return false;
        }
        let c: Cell = self.get_cell_at(cx as u32, cy as u32);
        c == target
    }

    /// Pixel-buffer rendering: a flat RGBA byte buffer sized for the whole
    /// canvas, spacing borders included, in which the square block of every
    /// cell matching `target` carries `color` and every other byte is zero.
    pub fn render_image_data(&self, target: Cell, color: Rgba) -> (buf: Vec<u8>)
        requires
            self.wf(),
            self.canvas_fits(),
        ensures
            buf@.len() == 4 * (self.canvas_width_px() * self.canvas_height_px()),
            forall|j: int|
                0 <= j < buf@.len() ==> (#[trigger] buf@[j]) == self.image_byte(j, target, color),
    {
        let (cw, ch): (u64, u64) = self.canvas_size_px();
        let mut buf: Vec<u8> = Vec::new();
        let mut py: u64 = 0;
        while py < ch
            invariant
                self.wf(),
                self.canvas_fits(),
                py <= ch,
                cw as int == self.canvas_width_px(),
                ch as int == self.canvas_height_px(),
                buf@.len() == 4 * ((py as int) * (cw as int)),
                forall|j: int| 0 <= j < buf@.len() ==> buf@[j] == self.image_byte(j, target, color),
            decreases ch - py,
        {
            let mut px: u64 = 0;
            while px < cw
                invariant
                    self.wf(),
                    self.canvas_fits(),
                    py < ch,
                    px <= cw,
                    cw as int == self.canvas_width_px(),
                    ch as int == self.canvas_height_px(),
                    buf@.len() == 4 * ((py as int) * (cw as int) + (px as int)),
                    forall|j: int|
                        0 <= j < buf@.len() ==> buf@[j] == self.image_byte(j, target, color),
                decreases cw - px,
            {
                let hit: bool = self.pixel_hits(px, py, target);
                proof {
                    let p = (py as int) * (cw as int) + (px as int);
                    lemma_mul_le(py as int, ch as int, cw as int);
                    lemma_fundamental_div_mod_converse(p, cw as int, py as int, px as int);
                    assert forall|c: int| 0 <= c < 4 implies self.image_byte(
                        4 * p + c,
                        target,
                        color,
                    ) == (if self.covered(px as int, py as int, target) {
                        color.spec_channel(c)
                    } else {
                        0u8
                    }) by {
                        lemma_fundamental_div_mod_converse(4 * p + c, 4, p, c);
                    }
                }
                if hit {
                    buf.push(color.r);
                    buf.push(color.g);
                    buf.push(color.b);
                    buf.push(color.a);
                } else {
                    buf.push(0);
                    buf.push(0);
                    buf.push(0);
                    buf.push(0);
                }
                px = px + 1;
            }
            proof {
                assert(((py as int) + 1) * (cw as int) == (py as int) * (cw as int) + (cw as int))
                    by (nonlinear_arith);
            }
            py = py + 1;
        }
        proof {
            assert((ch as int) * (cw as int) == (cw as int) * (ch as int)) by (nonlinear_arith);
        }
        buf
    }
}

/// Byte-level and pixel-level views of the image buffer agree: the four
/// bytes of pixel (`px`, `py`) start at `4 * (py * width + px)` and carry
/// the color's channels exactly when the pixel is covered.
pub proof fn lemma_image_byte_at(u: &Universe, px: int, py: int, c: int, target: Cell, color: Rgba)
    requires
        u.wf(),
        0 <= px < u.canvas_width_px(),
        0 <= py < u.canvas_height_px(),
        0 <= c < 4,
    ensures
        u.image_byte(4 * (py * u.canvas_width_px() + px) + c, target, color) == (if u.covered(
            px,
            py,
            target,
        ) {
            color.spec_channel(c)
        } else {
            0u8
        }),
{
    let cw = u.canvas_width_px();
    let p = py * cw + px;
    lemma_fundamental_div_mod_converse(4 * p + c, 4, p, c);
    lemma_fundamental_div_mod_converse(p, cw, py, px);
}

} // verus!

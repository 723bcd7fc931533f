use vstd::prelude::*;
use crate::color::Color;
use crate::font::{basic_glyph, glyph};
use crate::graphics::DrawCommand;
use crate::raster::{
    abs, char_code, glyph_bit, glyph_points, glyph_prefix, text_points, text_prefix, circle_points, circle_prefix, circle_running, circle_settle, circle_walk,
    lemma_circle_prefix_complete, lemma_circle_prefix_next, octants, lemma_index_of_pixel, lemma_line_err_bound, lemma_line_prefix_complete,
    lemma_line_prefix_next, lemma_line_step, lemma_line_walk_inv, lemma_paint_agree,
    lemma_paint_off_canvas, lemma_paint_union, lemma_pixel_of, lemma_pixel_range, line_at, line_inv,
    line_measure, line_points, line_prefix, line_walk, on_canvas, paint, pixel_of, rect_points,
};

verus! {

/// The points of the outline of the triangle with corners `a`, `b` and `c`:
/// the segments `a` to `b`, `b` to `c` and `c` to `a`.
pub open spec fn triangle_points(a: (int, int), b: (int, int), c: (int, int)) -> Set<(int, int)> {
    line_points(a.0, a.1, b.0, b.1).union(line_points(b.0, b.1, c.0, c.1)).union(
        line_points(c.0, c.1, a.0, a.1),
    )
}

/// The buffer after rasterizing `cmd` onto `frame`, `w` pixels wide.
pub open spec fn command_effect(frame: Seq<u8>, w: int, cmd: DrawCommand) -> Seq<u8> {
    match cmd {
        DrawCommand::Clear(color) => paint(frame, w, Set::full(), color),
        DrawCommand::Pixel { x, y, color } => paint(frame, w, set![(x as int, y as int)], color),
        DrawCommand::Line { x0, y0, x1, y1, color } => paint(
            frame,
            w,
            line_points(x0 as int, y0 as int, x1 as int, y1 as int),
            color,
        ),
        DrawCommand::Rect { x, y, w: rw, h: rh, color } => paint(
            frame,
            w,
            rect_points(x as int, y as int, rw as int, rh as int),
            color,
        ),
        DrawCommand::Circle { x, y, radius, color } => paint(
            frame,
            w,
            circle_points(x as int, y as int, radius as int),
            color,
        ),
        DrawCommand::Triangle { x1, y1, x2, y2, x3, y3, color } => paint(
            frame,
            w,
            triangle_points((x1 as int, y1 as int), (x2 as int, y2 as int), (x3 as int, y3 as int)),
            color,
        ),
        DrawCommand::Text { x, y, text, color } => paint(
            frame,
            w,
            text_points(x as int, y as int, text@),
            color,
        ),
    }
}

/// The buffer after rasterizing `cmds` onto `frame` in order, each command
/// painting over what the earlier ones left.
pub open spec fn rendered(frame: Seq<u8>, w: int, cmds: Seq<DrawCommand>) -> Seq<u8>
    decreases cmds.len(),
{
    if cmds.len() == 0 {
        frame
    } else {
        command_effect(rendered(frame, w, cmds.drop_last()), w, cmds.last())
    }
}

/// The rasterization backend: it owns the logical pixel buffer, `width *
/// height` pixels of four bytes each, row by row, and turns drawing commands
/// into byte writes.
pub struct PixelsBackend {
    frame: Vec<u8>,
    logic_width: u32,
    logic_height: u32,
}

impl View for PixelsBackend {
    type V = Seq<u8>;

    closed spec fn view(&self) -> Seq<u8> {
        self.frame@
    }
}

impl PixelsBackend {
    /// The width of the buffer in pixels.
    pub closed spec fn width(&self) -> int {
        self.logic_width as int
    }

    /// The height of the buffer in pixels.
    pub closed spec fn height(&self) -> int {
        self.logic_height as int
    }

    /// The buffer holds exactly four bytes for each pixel.
    pub open spec fn wf(&self) -> bool {
        &&& 0 <= self.width() <= u32::MAX
        &&& 0 <= self.height() <= u32::MAX
        &&& self@.len() == self.width() * self.height() * 4
    }

    /// A buffer of the given logical size, every byte zero.
    pub fn new(width: u32, height: u32) -> (r: PixelsBackend)
        requires
            width * height * 4 <= usize::MAX,
        ensures
            r.wf(),
            r.width() == width,
            r.height() == height,
            r@ == Seq::new((width * height * 4) as nat, |i: int| 0u8),
    {
        let n: usize = (width as usize) * (height as usize) * 4;
        let mut frame: Vec<u8> = Vec::with_capacity(n);
        let mut i: usize = 0;
        while i < n
            invariant
                i <= n,
                frame@ == Seq::new(i as nat, |k: int| 0u8),
            decreases n - i,
        {
            frame.push(0u8);
            i = i + 1;
        }
        PixelsBackend { frame, logic_width: width, logic_height: height }
    }

    /// The logical size, width first.
    pub fn size(&self) -> (r: (u32, u32))
        ensures
            r.0 == self.width(),
            r.1 == self.height(),
    {
        (self.logic_width, self.logic_height)
    }

    /// The pixel buffer, for presentation.
    pub fn frame(&self) -> (r: &[u8])
        ensures
            r@ == self@,
    {
        self.frame.as_slice()
    }

    /// Writes one pixel known to lie on the canvas.
    fn put(&mut self, x: u32, y: u32, color: Color)
        requires
            old(self).wf(),
            x < old(self).width(),
            y < old(self).height(),
        ensures
            final(self).wf(),
            final(self).width() == old(self).width(),
            final(self).height() == old(self).height(),
            final(self)@ == paint(old(self)@, old(self).width(), set![(x as int, y as int)], color),
    {
        let ghost w = self.width();
        let ghost h = self.height();
        let n: usize = self.frame.len();
        proof {
            lemma_pixel_range(w, h, x as int, y as int);
            assert(0 <= y * w) by (nonlinear_arith)
                requires
                    0 <= y,
                    0 <= w,
            ;
        }
        let idx: usize = ((y as usize) * (self.logic_width as usize) + (x as usize)) * 4;
        self.frame.set(idx, color.r);
        self.frame.set(idx + 1, color.g);
        self.frame.set(idx + 2, color.b);
        self.frame.set(idx + 3, color.a);
        let ghost pts = set![(x as int, y as int)];
        assert forall|i: int| 0 <= i < self@.len() implies self@[i] == paint(
            old(self)@,
            w,
            pts,
            color,
        )[i] by {
            lemma_index_of_pixel(w, x as int, y as int, i);
        }
        assert(self@ =~= paint(old(self)@, w, pts, color));
    }

    /// Writes pixel `(x, y)`; a pixel off the canvas is ignored.
    pub fn set_pixel(&mut self, x: u32, y: u32, color: Color)
        requires
            old(self).wf(),
        ensures
            final(self).wf(),
            final(self).width() == old(self).width(),
            final(self).height() == old(self).height(),
            final(self)@ == paint(old(self)@, old(self).width(), set![(x as int, y as int)], color),
    {
        if x >= self.logic_width || y >= self.logic_height {
            proof {
                lemma_paint_off_canvas(
                    self@,
                    self.width(),
                    self.height(),
                    set![(x as int, y as int)],
                    color,
                );
            }
            return;
        }
        self.put(x, y, color);
    }

    /// Overwrites every pixel with `color`.
    pub fn clear(&mut self, color: Color)
        requires
            old(self).wf(),
        ensures
            final(self).wf(),
            final(self).width() == old(self).width(),
            final(self).height() == old(self).height(),
            final(self)@ == paint(old(self)@, old(self).width(), Set::full(), color),
    {
        let n: usize = self.frame.len();
        let ghost w = self.width();
        let ghost h = self.height();
        let ghost f0 = self@;
        assert(n % 4 == 0);
        let mut i: usize = 0;
        while i < n
            invariant
                n == f0.len(),
                n % 4 == 0,
                i <= n,
                i % 4 == 0,
                self.width() == w,
                self.height() == h,
                self@.len() == n,
                forall|j: int| 0 <= j < i ==> self@[j] == color.channel(j % 4),
                forall|j: int| i <= j < n ==> self@[j] == f0[j],
            decreases n - i,
        {
            self.frame.set(i, color.r);
            self.frame.set(i + 1, color.g);
            self.frame.set(i + 2, color.b);
            self.frame.set(i + 3, color.a);
            i = i + 4;
        }
        assert(self@ =~= paint(f0, w, Set::full(), color));
    }

    /// Fills pixels `start_x..end_x` of row `row`, which lie next to each
    /// other in the buffer, in one pass over that byte range.
    fn fill_row(&mut self, row: u32, start_x: u32, end_x: u32, color: Color)
        requires
            old(self).wf(),
            row < old(self).height(),
            start_x < end_x <= old(self).width(),
        ensures
            final(self).wf(),
            final(self).width() == old(self).width(),
            final(self).height() == old(self).height(),
            final(self)@ == paint(
                old(self)@,
                old(self).width(),
                rect_points(start_x as int, row as int, end_x - start_x, 1),
                color,
            ),
    {
        let ghost w = self.width();
        let ghost h = self.height();
        let ghost f0 = self@;
        let n: usize = self.frame.len();
        proof {
            lemma_pixel_range(w, h, (end_x - 1) as int, row as int);
            assert(0 <= row * w) by (nonlinear_arith)
                requires
                    0 <= row,
                    0 <= w,
            ;
        }
        let offset: usize = ((row as usize) * (self.logic_width as usize) + (start_x as usize)) * 4;
        let end: usize = offset + ((end_x - start_x) as usize) * 4;
        let mut i: usize = offset;
        while i < end
            invariant
                self.wf(),
                self.width() == w,
                self.height() == h,
                self@.len() == n,
                n == f0.len(),
                offset % 4 == 0,
                end % 4 == 0,
                offset <= i <= end,
                end <= n,
                i % 4 == 0,
                forall|j: int| offset <= j < i ==> self@[j] == color.channel(j % 4),
                forall|j: int| 0 <= j < n && !(offset <= j < i) ==> self@[j] == f0[j],
            decreases end - i,
        {
            self.frame.set(i, color.r);
            self.frame.set(i + 1, color.g);
            self.frame.set(i + 2, color.b);
            self.frame.set(i + 3, color.a);
            i = i + 4;
        }
        let ghost pts = rect_points(start_x as int, row as int, end_x - start_x, 1);
        assert forall|j: int| 0 <= j < n implies self@[j] == paint(f0, w, pts, color)[j] by {
            lemma_pixel_of(w, h, j);
            let p = pixel_of(w, j);
            if offset <= j < end {
                let x = j / 4 - row * w;
                lemma_index_of_pixel(w, x, row as int, j);
            } else {
                lemma_index_of_pixel(w, p.0, p.1, j);
            }
        }
        assert(self@ =~= paint(f0, w, pts, color));
    }

    /// Fills the rectangle `[x, x + w) × [y, y + h)`, clipped to the canvas,
    /// one row at a time. A rectangle with no pixel on the canvas changes nothing.
    pub fn draw_rect(&mut self, x: u32, y: u32, w: u32, h: u32, color: Color)
        requires
            old(self).wf(),
        ensures
            final(self).wf(),
            final(self).width() == old(self).width(),
            final(self).height() == old(self).height(),
            final(self)@ == paint(
                old(self)@,
                old(self).width(),
                rect_points(x as int, y as int, w as int, h as int),
                color,
            ),
    {
        let ghost cw = self.width();
        let ghost ch = self.height();
        let ghost f0 = self@;
        let ghost target = rect_points(x as int, y as int, w as int, h as int);
        let x2 = x.saturating_add(w);
        let y2 = y.saturating_add(h);
        let start_x = if x < self.logic_width { x } else { self.logic_width };
        let start_y = if y < self.logic_height { y } else { self.logic_height };
        let end_x = if x2 < self.logic_width { x2 } else { self.logic_width };
        let end_y = if y2 < self.logic_height { y2 } else { self.logic_height };
        let ghost clipped = rect_points(
            start_x as int,
            start_y as int,
            end_x - start_x,
            end_y - start_y,
        );
        if start_x >= end_x || start_y >= end_y {
            proof {
                lemma_paint_off_canvas(f0, cw, ch, target, color);
            }
            return;
        }
        let mut row = start_y;
        while row < end_y
            invariant
                self.wf(),
                self.width() == cw,
                self.height() == ch,
                start_x < end_x <= cw,
                start_y <= row <= end_y,
                end_y <= ch,
                self@ == paint(
                    f0,
                    cw,
                    rect_points(start_x as int, start_y as int, end_x - start_x, row - start_y),
                    color,
                ),
            decreases end_y - row,
        {
            let ghost done = rect_points(
                start_x as int,
                start_y as int,
                end_x - start_x,
                row - start_y,
            );
            self.fill_row(row, start_x, end_x, color);
            proof {
                lemma_paint_union(
                    f0,
                    cw,
                    done,
                    rect_points(start_x as int, row as int, end_x - start_x, 1),
                    color,
                );
            }
            assert(done.union(rect_points(start_x as int, row as int, end_x - start_x, 1))
                =~= rect_points(start_x as int, start_y as int, end_x - start_x, row + 1 - start_y));
            row = row + 1;
        }
        proof {
            lemma_paint_agree(f0, cw, ch, clipped, target, color);
        }
    }

    /// Draws the segment from `(x0, y0)` to `(x1, y1)` with Bresenham's walk,
    /// both end points included. Points with a negative coordinate are
    /// skipped, and points past the right or bottom edge are clipped.
    pub fn draw_line(&mut self, x0: i32, y0: i32, x1: i32, y1: i32, color: Color)
        requires
            old(self).wf(),
        ensures
            final(self).wf(),
            final(self).width() == old(self).width(),
            final(self).height() == old(self).height(),
            final(self)@ == paint(
                old(self)@,
                old(self).width(),
                line_points(x0 as int, y0 as int, x1 as int, y1 as int),
                color,
            ),
    {
        let ghost gx0 = x0 as int;
        let ghost gy0 = y0 as int;
        let ghost gx1 = x1 as int;
        let ghost gy1 = y1 as int;
        let ghost cw = self.width();
        let ghost ch = self.height();
        let ghost f0 = self@;
        let dx: i64 = if x0 < x1 {
            x1 as i64 - x0 as i64
        } else {
            x0 as i64 - x1 as i64
        };
        let sx: i64 = if x0 < x1 { 1 } else { -1 };
        let dy: i64 = if y0 < y1 {
            y0 as i64 - y1 as i64
        } else {
            y1 as i64 - y0 as i64
        };
        let sy: i64 = if y0 < y1 { 1 } else { -1 };
        let mut err: i128 = (dx + dy) as i128;
        let mut x: i64 = x0 as i64;
        let mut y: i64 = y0 as i64;
        let ghost mut k: nat = 0;
        assert(self@ =~= paint(f0, cw, line_prefix(gx0, gy0, gx1, gy1, 0), color));
        loop
            invariant_except_break
                self.wf(),
                self.width() == cw,
                self.height() == ch,
                gx0 == x0,
                gy0 == y0,
                gx1 == x1,
                gy1 == y1,
                dx == abs(gx1 - gx0),
                dy == -abs(gy1 - gy0),
                sx == (if x0 < x1 { 1int } else { -1int }),
                sy == (if y0 < y1 { 1int } else { -1int }),
                (x as int, y as int, err as int) == line_walk(gx0, gy0, gx1, gy1, k),
                forall|j: nat| j < k ==> #[trigger] line_at(gx0, gy0, gx1, gy1, j) != (gx1, gy1),
                self@ == paint(f0, cw, line_prefix(gx0, gy0, gx1, gy1, k), color),
            ensures
                self.wf(),
                self.width() == cw,
                self.height() == ch,
                self@ == paint(f0, cw, line_points(gx0, gy0, gx1, gy1), color),
            decreases line_measure(gx0, gy0, gx1, gy1, line_walk(gx0, gy0, gx1, gy1, k)),
        {
            proof {
                lemma_line_walk_inv(gx0, gy0, gx1, gy1, k);
                lemma_line_err_bound(gx0, gy0, gx1, gy1, line_walk(gx0, gy0, gx1, gy1, k));
                lemma_line_prefix_next(gx0, gy0, gx1, gy1, k);
            }
            let ghost visited = line_prefix(gx0, gy0, gx1, gy1, k);
            let ghost here = (x as int, y as int);
            if x >= 0 && y >= 0 {
                self.set_pixel(x as u32, y as u32, color);
                proof {
                    lemma_paint_union(f0, cw, visited, set![here], color);
                }
            } else {
                proof {
                    lemma_paint_union(f0, cw, visited, set![here], color);
                    lemma_paint_off_canvas(
                        paint(f0, cw, visited, color),
                        cw,
                        ch,
                        set![here],
                        color,
                    );
                }
            }
            if x == x1 as i64 && y == y1 as i64 {
                proof {
                    lemma_line_prefix_complete(gx0, gy0, gx1, gy1, k);
                }
                break;
            }
            proof {
                lemma_line_step(gx0, gy0, gx1, gy1, line_walk(gx0, gy0, gx1, gy1, k));
            }
            let e2: i128 = 2 * err;
            if e2 >= dy as i128 {
                err = err + dy as i128;
                x = x + sx;
            }
            if e2 <= dx as i128 {
                err = err + dx as i128;
                y = y + sy;
            }
            proof {
                k = k + 1;
            }
        }
    }

    /// Writes the pixel at a point given in wide coordinates; a point off the
    /// canvas is ignored.
    fn plot(&mut self, px: i64, py: i64, color: Color)
        requires
            old(self).wf(),
        ensures
            final(self).wf(),
            final(self).width() == old(self).width(),
            final(self).height() == old(self).height(),
            final(self)@ == paint(old(self)@, old(self).width(), set![(px as int, py as int)], color),
    {
        if px >= 0 && py >= 0 && px <= u32::MAX as i64 && py <= u32::MAX as i64 {
            self.set_pixel(px as u32, py as u32, color);
        } else {
            proof {
                lemma_paint_off_canvas(
                    self@,
                    self.width(),
                    self.height(),
                    set![(px as int, py as int)],
                    color,
                );
            }
        }
    }

    /// Writes the eight points `(±x, ±y)` and `(±y, ±x)` around `(cx, cy)`.
    fn plot_octants(&mut self, cx: i64, cy: i64, x: i64, y: i64, color: Color)
        requires
            old(self).wf(),
            -0x1_0000_0000 <= cx <= 0x1_0000_0000,
            -0x1_0000_0000 <= cy <= 0x1_0000_0000,
            -0x1_0000_0000 <= x <= 0x1_0000_0000,
            -0x1_0000_0000 <= y <= 0x1_0000_0000,
        ensures
            final(self).wf(),
            final(self).width() == old(self).width(),
            final(self).height() == old(self).height(),
            final(self)@ == paint(
                old(self)@,
                old(self).width(),
                octants(cx as int, cy as int, x as int, y as int),
                color,
            ),
    {
        let ghost w = self.width();
        let ghost f0 = self@;
        let ghost (gcx, gcy, gx, gy) = (cx as int, cy as int, x as int, y as int);
        let ghost pts: Seq<(int, int)> = seq![
            (gcx + gx, gcy + gy),
            (gcx - gx, gcy + gy),
            (gcx + gx, gcy - gy),
            (gcx - gx, gcy - gy),
            (gcx + gy, gcy + gx),
            (gcx - gy, gcy + gx),
            (gcx + gy, gcy - gx),
            (gcx - gy, gcy - gx),
        ];
        self.plot(cx + x, cy + y, color);
        self.plot(cx - x, cy + y, color);
        proof { lemma_paint_union(f0, w, set![pts[0]], set![pts[1]], color); }
        self.plot(cx + x, cy - y, color);
        proof { lemma_paint_union(f0, w, set![pts[0]].union(set![pts[1]]), set![pts[2]], color); }
        self.plot(cx - x, cy - y, color);
        proof {
            lemma_paint_union(
                f0,
                w,
                set![pts[0]].union(set![pts[1]]).union(set![pts[2]]),
                set![pts[3]],
                color,
            );
        }
        let ghost half = set![pts[0]].union(set![pts[1]]).union(set![pts[2]]).union(
            set![pts[3]],
        );
        self.plot(cx + y, cy + x, color);
        proof { lemma_paint_union(f0, w, half, set![pts[4]], color); }
        self.plot(cx - y, cy + x, color);
        proof { lemma_paint_union(f0, w, half.union(set![pts[4]]), set![pts[5]], color); }
        self.plot(cx + y, cy - x, color);
        proof {
            lemma_paint_union(
                f0,
                w,
                half.union(set![pts[4]]).union(set![pts[5]]),
                set![pts[6]],
                color,
            );
        }
        self.plot(cx - y, cy - x, color);
        proof {
            let all = half.union(set![pts[4]]).union(set![pts[5]]).union(set![pts[6]]);
            lemma_paint_union(f0, w, all, set![pts[7]], color);
            assert(all.union(set![pts[7]]) =~= octants(gcx, gcy, gx, gy));
        }
    }

    /// Draws the outline of the circle of radius `radius` around `(cx, cy)`
    /// with the midpoint walk and eight-way symmetry. Points with a negative
    /// coordinate are skipped; points past the right or bottom edge are
    /// clipped. A negative radius draws nothing.
    pub fn draw_circle(&mut self, cx: i32, cy: i32, radius: i32, color: Color)
        requires
            old(self).wf(),
        ensures
            final(self).wf(),
            final(self).width() == old(self).width(),
            final(self).height() == old(self).height(),
            final(self)@ == paint(
                old(self)@,
                old(self).width(),
                circle_points(cx as int, cy as int, radius as int),
                color,
            ),
    {
        let ghost cw = self.width();
        let ghost ch = self.height();
        let ghost f0 = self@;
        let ghost r = radius as int;
        let ghost gcx = cx as int;
        let ghost gcy = cy as int;
        let mut x: i64 = radius as i64;
        let mut y: i64 = 0;
        let mut err: i128 = 0;
        let ghost mut k: nat = 0;
        assert(self@ =~= paint(f0, cw, circle_prefix(gcx, gcy, r, 0), color));
        while x >= y
            invariant
                self.wf(),
                self.width() == cw,
                self.height() == ch,
                r == radius,
                gcx == cx,
                gcy == cy,
                (x as int, y as int, err as int) == circle_walk(r, k),
                forall|j: nat| j < k ==> #[trigger] circle_running(r, j),
                0 <= y,
                y - 1 <= x <= r || (k == 0 && x == r && y == 0),
                err == x * x + y * y + 2 * y - r * r,
                self@ == paint(f0, cw, circle_prefix(gcx, gcy, r, k), color),
            decreases x - y + 1,
        {
            assert(circle_running(r, k));
            proof {
                lemma_circle_prefix_next(gcx, gcy, r, k);
            }
            let ghost emitted = circle_prefix(gcx, gcy, r, k);
            self.plot_octants(cx as i64, cy as i64, x, y, color);
            proof {
                lemma_paint_union(
                    f0,
                    cw,
                    emitted,
                    octants(gcx, gcy, x as int, y as int),
                    color,
                );
            }
            let ghost x_before = x as int;
            proof {
                assert((y + 1) * (y + 1) == y * y + 2 * y + 1) by (nonlinear_arith);
                assert(-0x1_0000_0000 <= x * x <= 0x1_0000_0000_0000_0000) by (nonlinear_arith)
                    requires
                        -0x1_0000_0000 <= x <= 0x1_0000_0000,
                ;
                assert(-0x1_0000_0000 <= y * y <= 0x1_0000_0000_0000_0000) by (nonlinear_arith)
                    requires
                        -0x1_0000_0000 <= y <= 0x1_0000_0000,
                ;
                assert(0 <= r * r <= 0x1_0000_0000_0000_0000) by (nonlinear_arith)
                    requires
                        -0x1_0000_0000 <= r <= 0x1_0000_0000,
                ;
            }
            y = y + 1;
            err = err + 2 * (y as i128) + 1;
            let ghost settled = circle_settle(x as int, y as int, err as int);
            while err > 0 && x >= y
                invariant
                    r == radius,
                    y - 1 <= x <= x_before,
                    x_before <= r,
                    1 <= y <= r + 1,
                    err == x * x + y * y + 2 * y - r * r,
                    circle_settle(x as int, y as int, err as int) == settled,
                decreases x - y + 1,
            {
                proof {
                    assert((x - 1) * (x - 1) == x * x - 2 * x + 1) by (nonlinear_arith);
                    assert(-0x1_0000_0000 <= x * x <= 0x1_0000_0000_0000_0000) by (nonlinear_arith)
                        requires
                            -0x1_0000_0000 <= x <= 0x1_0000_0000,
                    ;
                    assert(-0x1_0000_0000 <= y * y <= 0x1_0000_0000_0000_0000) by (nonlinear_arith)
                        requires
                            -0x1_0000_0000 <= y <= 0x1_0000_0000,
                    ;
                    assert(0 <= r * r <= 0x1_0000_0000_0000_0000) by (nonlinear_arith)
                        requires
                            -0x1_0000_0000 <= r <= 0x1_0000_0000,
                    ;
                }
                x = x - 1;
                err = err - (2 * (x as i128) + 1);
            }
            proof {
                k = k + 1;
            }
        }
        proof {
            lemma_circle_prefix_complete(gcx, gcy, r, k);
        }
    }

    /// Draws the glyph of ASCII code `code` with its top-left corner at `(ox, oy)`.
    fn draw_glyph(&mut self, code: u32, ox: i64, oy: i64, color: Color)
        requires
            old(self).wf(),
            code < 128,
            -0x1_0000_0000 <= ox <= 0x1_0000_0000,
            -0x1_0000_0000 <= oy <= 0x1_0000_0000,
        ensures
            final(self).wf(),
            final(self).width() == old(self).width(),
            final(self).height() == old(self).height(),
            final(self)@ == paint(
                old(self)@,
                old(self).width(),
                glyph_points(basic_glyph(code as nat), ox as int, oy as int),
                color,
            ),
    {
        let ghost cw = self.width();
        let ghost ch = self.height();
        let ghost f0 = self@;
        let g = glyph(code);
        let ghost gs = basic_glyph(code as nat);
        assert(self@ =~= paint(f0, cw, glyph_prefix(gs, ox as int, oy as int, 0), color));
        let mut row: usize = 0;
        while row < 8
            invariant
                self.wf(),
                self.width() == cw,
                self.height() == ch,
                g@ == gs,
                -0x1_0000_0000 <= ox <= 0x1_0000_0000,
                -0x1_0000_0000 <= oy <= 0x1_0000_0000,
                row <= 8,
                self@ == paint(f0, cw, glyph_prefix(gs, ox as int, oy as int, row * 8), color),
            decreases 8 - row,
        {
            let bits: u8 = g[row];
            let mut col: u8 = 0;
            while col < 8
                invariant
                    self.wf(),
                    self.width() == cw,
                    self.height() == ch,
                    g@ == gs,
                    bits == gs[row as int],
                    -0x1_0000_0000 <= ox <= 0x1_0000_0000,
                    -0x1_0000_0000 <= oy <= 0x1_0000_0000,
                    row < 8,
                    col <= 8,
                    self@ == paint(
                        f0,
                        cw,
                        glyph_prefix(gs, ox as int, oy as int, row * 8 + col),
                        color,
                    ),
                decreases 8 - col,
            {
                let ghost n = row * 8 + col;
                let ghost before = glyph_prefix(gs, ox as int, oy as int, n);
                let ghost here = (ox + col as int, oy + row as int);
                if bits & (1u8 << col) != 0 {
                    self.plot(ox + col as i64, oy + row as i64, color);
                    proof {
                        lemma_paint_union(f0, cw, before, set![here], color);
                        assert(glyph_bit(gs[row as int], col as int));
                        assert(before.union(set![here]) =~= glyph_prefix(
                            gs,
                            ox as int,
                            oy as int,
                            n + 1,
                        ));
                    }
                } else {
                    assert(!glyph_bit(gs[row as int], col as int));
                    assert(before =~= glyph_prefix(gs, ox as int, oy as int, n + 1));
                }
                col = col + 1;
            }
            row = row + 1;
        }
        assert(glyph_prefix(gs, ox as int, oy as int, 64) =~= glyph_points(
            gs,
            ox as int,
            oy as int,
        ));
    }

    /// Draws `text` with the 8×8 bitmap font, the first glyph's top-left
    /// corner at `(x, y)` and each next one 8 pixels further right. A
    /// character outside the font draws nothing but takes its 8 columns;
    /// glyph pixels off the canvas are clipped one by one.
    pub fn draw_text(&mut self, x: i32, y: i32, text: &str, color: Color)
        requires
            old(self).wf(),
        ensures
            final(self).wf(),
            final(self).width() == old(self).width(),
            final(self).height() == old(self).height(),
            final(self)@ == paint(
                old(self)@,
                old(self).width(),
                text_points(x as int, y as int, text@),
                color,
            ),
    {
        let ghost cw = self.width();
        let ghost ch = self.height();
        let ghost f0 = self@;
        let ghost s = text@;
        let width: i64 = self.logic_width as i64;
        // Once the cursor has passed the right edge nothing further can be
        // drawn, so it stays there instead of growing without bound.
        let mut cursor: i64 = x as i64;
        assert(self@ =~= paint(f0, cw, text_prefix(x as int, y as int, s, 0), color));
        for c in it: text.chars()
            invariant
                self.wf(),
                self.width() == cw,
                self.height() == ch,
                width == cw,
                it.seq() == s,
                cursor <= x + 8 * it.index(),
                cursor == x + 8 * it.index() || cursor >= width,
                cursor < width + 8 || cursor == x,
                self@ == paint(f0, cw, text_prefix(x as int, y as int, s, it.index() as int), color),
        {
            let ghost i = it.index() as int;
            let ghost before = text_prefix(x as int, y as int, s, i);
            assert(c == s[i]);
            let code: u32 = c as u32;
            assert(code == char_code(c));
            if cursor < width {
                if code < 128 {
                    self.draw_glyph(code, cursor, y as i64, color);
                    proof {
                        let g = glyph_points(basic_glyph(code as nat), cursor as int, y as int);
                        let after = text_prefix(x as int, y as int, s, i + 1);
                        lemma_paint_union(f0, cw, before, g, color);
                        assert forall|p: (int, int)| after.contains(p) implies before.union(
                            g,
                        ).contains(p) by {
                            let k = choose|k: int|
                                0 <= k < i + 1 && char_code(s[k]) < 128 && #[trigger] glyph_points(
                                    basic_glyph(char_code(s[k])),
                                    x + 8 * k,
                                    y as int,
                                ).contains(p);
                            if k < i {
                                assert(before.contains(p));
                            }
                        }
                        assert forall|p: (int, int)| g.contains(p) implies after.contains(p) by {
                            assert(glyph_points(
                                basic_glyph(char_code(s[i])),
                                x + 8 * i,
                                y as int,
                            ).contains(p));
                        }
                        assert(before.union(g) =~= after);
                    }
                } else {
                    proof {
                        let after = text_prefix(x as int, y as int, s, i + 1);
                        assert forall|p: (int, int)| after.contains(p) implies before.contains(p) by {
                            let k = choose|k: int|
                                0 <= k < i + 1 && char_code(s[k]) < 128 && #[trigger] glyph_points(
                                    basic_glyph(char_code(s[k])),
                                    x + 8 * k,
                                    y as int,
                                ).contains(p);
                            assert(k != i);
                        }
                        assert(before =~= after);
                    }
                }
                cursor = cursor + 8;
            } else {
                proof {
                    let after = text_prefix(x as int, y as int, s, i + 1);
                    assert forall|p: (int, int)| on_canvas(cw, ch, p) implies (before.contains(p)
                        <==> after.contains(p)) by {
                        if after.contains(p) && !before.contains(p) {
                            let k = choose|k: int|
                                0 <= k < i + 1 && char_code(s[k]) < 128 && #[trigger] glyph_points(
                                    basic_glyph(char_code(s[k])),
                                    x + 8 * k,
                                    y as int,
                                ).contains(p);
                            assert(k == i);
                        }
                    }
                    lemma_paint_agree(f0, cw, ch, before, after, color);
                }
            }
        }
    }

    /// Draws the outline of a triangle as its three edges.
    pub fn draw_triangle(
        &mut self,
        x1: i32,
        y1: i32,
        x2: i32,
        y2: i32,
        x3: i32,
        y3: i32,
        color: Color,
    )
        requires
            old(self).wf(),
        ensures
            final(self).wf(),
            final(self).width() == old(self).width(),
            final(self).height() == old(self).height(),
            final(self)@ == paint(
                old(self)@,
                old(self).width(),
                triangle_points(
                    (x1 as int, y1 as int),
                    (x2 as int, y2 as int),
                    (x3 as int, y3 as int),
                ),
                color,
            ),
    {
        let ghost w = self.width();
        let ghost f0 = self@;
        let ghost a = line_points(x1 as int, y1 as int, x2 as int, y2 as int);
        let ghost b = line_points(x2 as int, y2 as int, x3 as int, y3 as int);
        let ghost c = line_points(x3 as int, y3 as int, x1 as int, y1 as int);
        self.draw_line(x1, y1, x2, y2, color);
        self.draw_line(x2, y2, x3, y3, color);
        proof {
            lemma_paint_union(f0, w, a, b, color);
        }
        self.draw_line(x3, y3, x1, y1, color);
        proof {
            lemma_paint_union(f0, w, a.union(b), c, color);
        }
    }

    /// Rasterizes one command.
    pub fn draw(&mut self, cmd: &DrawCommand)
        requires
            old(self).wf(),
        ensures
            final(self).wf(),
            final(self).width() == old(self).width(),
            final(self).height() == old(self).height(),
            final(self)@ == command_effect(old(self)@, old(self).width(), *cmd),
    {
        match cmd {
            DrawCommand::Clear(color) => self.clear(*color),
            DrawCommand::Pixel { x, y, color } => self.set_pixel(*x, *y, *color),
            DrawCommand::Line { x0, y0, x1, y1, color } => self.draw_line(
                *x0,
                *y0,
                *x1,
                *y1,
                *color,
            ),
            DrawCommand::Rect { x, y, w, h, color } => self.draw_rect(*x, *y, *w, *h, *color),
            DrawCommand::Circle { x, y, radius, color } => self.draw_circle(
                *x,
                *y,
                *radius,
                *color,
            ),
            DrawCommand::Triangle { x1, y1, x2, y2, x3, y3, color } => self.draw_triangle(
                *x1,
                *y1,
                *x2,
                *y2,
                *x3,
                *y3,
                *color,
            ),
            DrawCommand::Text { x, y, text, color } => self.draw_text(
                *x,
                *y,
                text.as_str(),
                *color,
            ),
        }
    }

    /// Rasterizes a frame's commands in the order they were recorded.
    pub fn render(&mut self, commands: &[DrawCommand])
        requires
            old(self).wf(),
        ensures
            final(self).wf(),
            final(self).width() == old(self).width(),
            final(self).height() == old(self).height(),
            final(self)@ == rendered(old(self)@, old(self).width(), commands@),
    {
        let ghost w = self.width();
        let ghost h = self.height();
        let ghost f0 = self@;
        let n: usize = commands.len();
        let mut i: usize = 0;
        assert(commands@.take(0) =~= Seq::<DrawCommand>::empty());
        while i < n
            invariant
                self.wf(),
                self.width() == w,
                self.height() == h,
                n == commands@.len(),
                i <= n,
                self@ == rendered(f0, w, commands@.take(i as int)),
            decreases n - i,
        {
            self.draw(&commands[i]);
            assert(commands@.take(i + 1).drop_last() =~= commands@.take(i as int));
            i = i + 1;
        }
        assert(commands@.take(n as int) =~= commands@);
    }
}

} // verus!

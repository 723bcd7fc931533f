use vstd::prelude::*;
use crate::color::Color;

verus! {

/// One recorded drawing call. Coordinates of `Pixel` and `Rect` have been
/// normalized to the canvas quadrant when recorded; the others are clipped
/// when rasterized.
#[allow(inconsistent_fields)]
pub enum DrawCommand {
    Clear(Color),
    Pixel { x: u32, y: u32, color: Color },
    Line { x0: i32, y0: i32, x1: i32, y1: i32, color: Color },
    Rect { x: u32, y: u32, w: u32, h: u32, color: Color },
    Circle { x: i32, y: i32, radius: i32, color: Color },
    Triangle { x1: i32, y1: i32, x2: i32, y2: i32, x3: i32, y3: i32, color: Color },
    Text { x: i32, y: i32, text: String, color: Color },
}

/// Whether `cmd` is a text command with these position, characters and color.
pub open spec fn is_text_command(cmd: DrawCommand, x: i32, y: i32, s: Seq<char>, color: Color) -> bool {
    match cmd {
        DrawCommand::Text { x: a, y: b, text, color: c } => a == x && b == y && text@ == s && c
            == color,
        _ => false,
    }
}

/// The rectangle that `rect(x, y, w, h)` records, as `(x, y, w, h)`: a
/// negative origin moves to zero and the size shrinks by the overhang.
pub open spec fn normalized_rect(x: int, y: int, w: int, h: int) -> (int, int, int, int) {
    let (rx, rw) = if x < 0 {
        (0, w + x)
    } else {
        (x, w)
    };
    let (ry, rh) = if y < 0 {
        (0, h + y)
    } else {
        (y, h)
    };
    (rx, ry, rw, rh)
}

/// The drawing surface of one frame: an ordered, append-only buffer of
/// drawing commands, together with the logical and physical sizes.
pub struct Graphics {
    commands: Vec<DrawCommand>,
    logic_width: u32,
    logic_height: u32,
    window_width: u32,
    window_height: u32,
}

impl View for Graphics {
    type V = Seq<DrawCommand>;

    /// The commands recorded so far, in paint order.
    closed spec fn view(&self) -> Seq<DrawCommand> {
        self.commands@
    }
}

impl Graphics {
    /// The logical (canvas) size, width first.
    pub closed spec fn logical(&self) -> (u32, u32) {
        (self.logic_width, self.logic_height)
    }

    /// The physical window size, width first.
    pub closed spec fn window(&self) -> (u32, u32) {
        (self.window_width, self.window_height)
    }

    /// An empty command buffer for a canvas of `logic_size` shown in a
    /// window of `window_size`.
    pub fn new(logic_size: (u32, u32), window_size: (u32, u32)) -> (r: Graphics)
        ensures
            r@ == Seq::<DrawCommand>::empty(),
            r.logical() == logic_size,
            r.window() == window_size,
    {
        Graphics {
            commands: Vec::with_capacity(128),
            logic_width: logic_size.0,
            logic_height: logic_size.1,
            window_width: window_size.0,
            window_height: window_size.1,
        }
    }

    /// Discards every recorded command; called once at the start of a frame.
    pub fn begin_frame(&mut self)
        ensures
            final(self)@ == Seq::<DrawCommand>::empty(),
            final(self).logical() == old(self).logical(),
            final(self).window() == old(self).window(),
    {
        self.commands.clear();
    }

    /// The commands recorded this frame, in paint order.
    pub fn commands(&self) -> (r: &[DrawCommand])
        ensures
            r@ == self@,
    {
        self.commands.as_slice()
    }

    /// The logical (canvas) size, width first.
    pub fn logical_size(&self) -> (r: (u32, u32))
        ensures
            r == self.logical(),
    {
        (self.logic_width, self.logic_height)
    }

    /// The physical window size, width first.
    pub fn window_size(&self) -> (r: (u32, u32))
        ensures
            r == self.window(),
    {
        (self.window_width, self.window_height)
    }

    /// Records a new physical window size.
    pub fn set_window_size(&mut self, size: (u32, u32))
        ensures
            final(self)@ == old(self)@,
            final(self).logical() == old(self).logical(),
            final(self).window() == size,
    {
        self.window_width = size.0;
        self.window_height = size.1;
    }

    /// Records a clear of the whole canvas with `color`.
    pub fn clear(&mut self, color: Color)
        ensures
            final(self)@ == old(self)@.push(DrawCommand::Clear(color)),
            final(self).logical() == old(self).logical(),
            final(self).window() == old(self).window(),
    {
        self.commands.push(DrawCommand::Clear(color));
    }

    /// Records pixel `(x, y)`; a point with a negative coordinate is dropped.
    pub fn pixel(&mut self, x: i32, y: i32, color: Color)
        ensures
            final(self)@ == if x < 0 || y < 0 {
                old(self)@
            } else {
                old(self)@.push(DrawCommand::Pixel { x: x as u32, y: y as u32, color })
            },
            final(self).logical() == old(self).logical(),
            final(self).window() == old(self).window(),
    {
        if x < 0 || y < 0 {
            return;
        }
        self.commands.push(DrawCommand::Pixel { x: x as u32, y: y as u32, color });
    }

    /// Records the segment from `(x0, y0)` to `(x1, y1)`; one whose end points
    /// are both negative on the same axis lies wholly off the canvas and is
    /// dropped.
    pub fn line(&mut self, x0: i32, y0: i32, x1: i32, y1: i32, color: Color)
        ensures
            final(self)@ == if (x0 < 0 && x1 < 0) || (y0 < 0 && y1 < 0) {
                old(self)@
            } else {
                old(self)@.push(DrawCommand::Line { x0, y0, x1, y1, color })
            },
            final(self).logical() == old(self).logical(),
            final(self).window() == old(self).window(),
    {
        if x0 < 0 && x1 < 0 {
            return;
        }
        if y0 < 0 && y1 < 0 {
            return;
        }
        self.commands.push(DrawCommand::Line { x0, y0, x1, y1, color });
    }

    /// Records the rectangle at `(x, y)` of size `w` by `h`. A negative origin
    /// moves to zero and the size shrinks by the overhang; the rectangle is
    /// dropped if no width or no height is left.
    pub fn rect(&mut self, x: i32, y: i32, w: i32, h: i32, color: Color)
        ensures
            ({
                let (rx, ry, rw, rh) = normalized_rect(x as int, y as int, w as int, h as int);
                final(self)@ == if rw > 0 && rh > 0 {
                    old(self)@.push(
                        DrawCommand::Rect {
                            x: rx as u32,
                            y: ry as u32,
                            w: rw as u32,
                            h: rh as u32,
                            color,
                        },
                    )
                } else {
                    old(self)@
                }
            }),
            final(self).logical() == old(self).logical(),
            final(self).window() == old(self).window(),
    {
        let mut rx: i64 = x as i64;
        let mut ry: i64 = y as i64;
        let mut rw: i64 = w as i64;
        let mut rh: i64 = h as i64;
        if rx < 0 {
            rw = rw + rx;
            rx = 0;
        }
        if ry < 0 {
            rh = rh + ry;
            ry = 0;
        }
        if rw > 0 && rh > 0 {
            self.commands.push(
                DrawCommand::Rect {
                    x: rx as u32,
                    y: ry as u32,
                    w: rw as u32,
                    h: rh as u32,
                    color,
                },
            );
        }
    }

    /// Records the outline of the circle of radius `radius` around `(x, y)`.
    pub fn circle(&mut self, x: i32, y: i32, radius: i32, color: Color)
        ensures
            final(self)@ == old(self)@.push(DrawCommand::Circle { x, y, radius, color }),
            final(self).logical() == old(self).logical(),
            final(self).window() == old(self).window(),
    {
        self.commands.push(DrawCommand::Circle { x, y, radius, color });
    }

    /// Records the outline of the triangle with the three given corners.
    pub fn triangle(
        &mut self,
        x1: i32,
        y1: i32,
        x2: i32,
        y2: i32,
        x3: i32,
        y3: i32,
        color: Color,
    )
        ensures
            final(self)@ == old(self)@.push(
                DrawCommand::Triangle { x1, y1, x2, y2, x3, y3, color },
            ),
            final(self).logical() == old(self).logical(),
            final(self).window() == old(self).window(),
    {
        self.commands.push(DrawCommand::Triangle { x1, y1, x2, y2, x3, y3, color });
    }

    /// Records `text` drawn with the bitmap font from `(x, y)`.
    pub fn text(&mut self, x: i32, y: i32, text: &str, color: Color)
        ensures
            final(self)@.len() == old(self)@.len() + 1,
            final(self)@.drop_last() == old(self)@,
            is_text_command(final(self)@.last(), x, y, text@, color),
            final(self).logical() == old(self).logical(),
            final(self).window() == old(self).window(),
    {
        let owned: String = text.to_owned();
        self.commands.push(DrawCommand::Text { x, y, text: owned, color });
    }
}

} // verus!

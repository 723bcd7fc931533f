use vstd::prelude::*;
use vstd::arithmetic::div_mod::*;
use crate::color::Color;
use crate::font::basic_glyph;

verus! {

/// The pixel that byte `i` of a packed RGBA buffer, `w` pixels wide, belongs to.
pub open spec fn pixel_of(w: int, i: int) -> (int, int) {
    ((i / 4) % w, (i / 4) / w)
}

/// Whether `p` lies on a canvas of `w` by `h` pixels.
pub open spec fn on_canvas(w: int, h: int, p: (int, int)) -> bool {
    0 <= p.0 < w && 0 <= p.1 < h
}

/// `frame` with every pixel whose coordinates lie in `pts` overwritten by `c`.
/// A point off the canvas owns no byte, so it changes nothing.
pub open spec fn paint(frame: Seq<u8>, w: int, pts: Set<(int, int)>, c: Color) -> Seq<u8> {
    Seq::new(
        frame.len(),
        |i: int|
            if pts.contains(pixel_of(w, i)) {
                c.channel(i % 4)
            } else {
                frame[i]
            },
    )
}

/// The four bytes of pixel `(x, y)` in a buffer `w` pixels wide.
pub open spec fn pixel_bytes(frame: Seq<u8>, w: int, x: int, y: int) -> Seq<u8> {
    frame.subrange(4 * (y * w + x), 4 * (y * w + x) + 4)
}

/// The points of the axis-aligned rectangle `[x, x + w) × [y, y + h)`.
pub open spec fn rect_points(x: int, y: int, w: int, h: int) -> Set<(int, int)> {
    Set::new(|p: (int, int)| x <= p.0 < x + w && y <= p.1 < y + h)
}

/// Every byte of a buffer belongs to a pixel on the canvas, and sits at the
/// position that pixel's index gives.
pub proof fn lemma_pixel_of(w: int, h: int, i: int)
    requires
        0 < w,
        0 <= h,
        0 <= i < w * h * 4,
    ensures
        on_canvas(w, h, pixel_of(w, i)),
        i / 4 == pixel_of(w, i).1 * w + pixel_of(w, i).0,
{
    let q = i / 4;
    lemma_fundamental_div_mod(q, w);
    lemma_mod_pos_bound(q, w);
    lemma_div_pos_is_pos(q, w);
    let d = q / w;
    let m = q % w;
    assert(q < w * h);
    assert(d < h) by (nonlinear_arith)
        requires
            q == w * d + m,
            0 <= m,
            q < w * h,
            0 < w,
    ;
    assert(q == d * w + m) by (nonlinear_arith)
        requires
            q == w * d + m,
    ;
}

/// Byte `i` belongs to pixel `(x, y)` exactly when it is one of that pixel's four.
pub proof fn lemma_index_of_pixel(w: int, x: int, y: int, i: int)
    requires
        0 <= x < w,
        0 <= y,
        0 <= i,
    ensures
        pixel_of(w, i) == (x, y) <==> 4 * (y * w + x) <= i < 4 * (y * w + x) + 4,
{
    let q = i / 4;
    if 4 * (y * w + x) <= i < 4 * (y * w + x) + 4 {
        assert(q == y * w + x);
        lemma_fundamental_div_mod_converse(q, w, y, x);
    }
    if pixel_of(w, i) == (x, y) {
        lemma_fundamental_div_mod(q, w);
        assert(q == y * w + x) by (nonlinear_arith)
            requires
                q == w * (q / w) + q % w,
                q / w == y,
                q % w == x,
        ;
    }
}

/// Painting two sets in the same color is painting their union.
pub proof fn lemma_paint_union(f: Seq<u8>, w: int, a: Set<(int, int)>, b: Set<(int, int)>, c: Color)
    ensures
        paint(paint(f, w, a, c), w, b, c) == paint(f, w, a.union(b), c),
{
    assert(paint(paint(f, w, a, c), w, b, c) =~= paint(f, w, a.union(b), c));
}

/// Two sets that hold the same points of the canvas paint alike.
pub proof fn lemma_paint_agree(
    f: Seq<u8>,
    w: int,
    h: int,
    a: Set<(int, int)>,
    b: Set<(int, int)>,
    c: Color,
)
    requires
        0 <= w,
        0 <= h,
        f.len() == w * h * 4,
        forall|p: (int, int)| on_canvas(w, h, p) ==> (a.contains(p) <==> b.contains(p)),
    ensures
        paint(f, w, a, c) == paint(f, w, b, c),
{
    assert forall|i: int| 0 <= i < f.len() implies paint(f, w, a, c)[i] == paint(f, w, b, c)[i] by {
        if w > 0 {
            lemma_pixel_of(w, h, i);
        } else {
            assert(f.len() == 0) by (nonlinear_arith)
                requires
                    w == 0,
                    f.len() == w * h * 4,
            ;
        }
    }
    assert(paint(f, w, a, c) =~= paint(f, w, b, c));
}

/// Painting no point of the canvas leaves the buffer as it was.
pub proof fn lemma_paint_off_canvas(f: Seq<u8>, w: int, h: int, a: Set<(int, int)>, c: Color)
    requires
        0 <= w,
        0 <= h,
        f.len() == w * h * 4,
        forall|p: (int, int)| on_canvas(w, h, p) ==> !a.contains(p),
    ensures
        paint(f, w, a, c) == f,
{
    lemma_paint_agree(f, w, h, a, Set::empty(), c);
    assert(paint(f, w, Set::empty(), c) =~= f);
}

/// The byte range of pixel `(x, y)` lies inside the buffer.
pub proof fn lemma_pixel_range(w: int, h: int, x: int, y: int)
    requires
        0 <= x < w,
        0 <= y < h,
    ensures
        0 <= 4 * (y * w + x),
        4 * (y * w + x) + 4 <= w * h * 4,
{
    assert(0 <= y * w) by (nonlinear_arith)
        requires
            0 <= y,
            0 <= w,
    ;
    assert(y * w + x + 1 <= w * h) by (nonlinear_arith)
        requires
            0 <= x < w,
            0 <= y < h,
    ;
}


/// The absolute value of `v`.
pub open spec fn abs(v: int) -> int {
    if v < 0 {
        -v
    } else {
        v
    }
}

/// The unit step that leads from `a` toward `b`; `-1` when they are equal.
pub open spec fn step_toward(a: int, b: int) -> int {
    if a < b {
        1
    } else {
        -1
    }
}

/// One iteration of the line walk from `(x0, y0)` to `(x1, y1)` on the
/// state `(x, y, err)`: `x` advances when `2 * err >= dy`, `y` when
/// `2 * err <= dx`, both in one iteration when both hold.
pub open spec fn line_step(x0: int, y0: int, x1: int, y1: int, s: (int, int, int)) -> (int, int, int) {
    let dx = abs(x1 - x0);
    let dy = -abs(y1 - y0);
    let e2 = 2 * s.2;
    let x = if e2 >= dy {
        s.0 + step_toward(x0, x1)
    } else {
        s.0
    };
    let e1 = if e2 >= dy {
        s.2 + dy
    } else {
        s.2
    };
    let y = if e2 <= dx {
        s.1 + step_toward(y0, y1)
    } else {
        s.1
    };
    let err = if e2 <= dx {
        e1 + dx
    } else {
        e1
    };
    (x, y, err)
}

/// The state of the line walk after `n` iterations; it starts at `(x0, y0)`
/// with `err == dx + dy`.
pub open spec fn line_walk(x0: int, y0: int, x1: int, y1: int, n: nat) -> (int, int, int)
    decreases n,
{
    if n == 0 {
        (x0, y0, abs(x1 - x0) - abs(y1 - y0))
    } else {
        line_step(x0, y0, x1, y1, line_walk(x0, y0, x1, y1, (n - 1) as nat))
    }
}

/// The point that the line walk stands on after `n` iterations.
pub open spec fn line_at(x0: int, y0: int, x1: int, y1: int, n: nat) -> (int, int) {
    let s = line_walk(x0, y0, x1, y1, n);
    (s.0, s.1)
}

/// The points that the line walk visits, up to and including its first
/// arrival at the end point.
pub open spec fn line_points(x0: int, y0: int, x1: int, y1: int) -> Set<(int, int)> {
    Set::new(
        |p: (int, int)|
            exists|k: nat|
                line_at(x0, y0, x1, y1, k) == p && forall|j: nat|
                    j < k ==> #[trigger] line_at(x0, y0, x1, y1, j) != (x1, y1),
    )
}

/// The points visited in the first `k` iterations.
pub open spec fn line_prefix(x0: int, y0: int, x1: int, y1: int, k: nat) -> Set<(int, int)> {
    Set::new(|p: (int, int)| exists|j: nat| j < k && line_at(x0, y0, x1, y1, j) == p)
}

/// How far along each axis the state has come from the start.
pub open spec fn line_progress(x0: int, y0: int, x1: int, y1: int, s: (int, int, int)) -> (int, int) {
    let u = if x0 < x1 {
        s.0 - x0
    } else {
        x0 - s.0
    };
    let v = if y0 < y1 {
        s.1 - y0
    } else {
        y0 - s.1
    };
    (u, v)
}

/// What holds of every state of the walk before it reaches the end: it has
/// not passed the end on either axis, and the error term is determined by
/// the progress.
pub open spec fn line_inv(x0: int, y0: int, x1: int, y1: int, s: (int, int, int)) -> bool {
    let dx = abs(x1 - x0);
    let dyy = abs(y1 - y0);
    let (u, v) = line_progress(x0, y0, x1, y1, s);
    &&& 0 <= u <= dx
    &&& 0 <= v <= dyy
    &&& s.2 == dx * (1 + v) - dyy * (1 + u)
}

/// The number of unit moves left to the end, counted per axis.
pub open spec fn line_measure(x0: int, y0: int, x1: int, y1: int, s: (int, int, int)) -> int {
    let (u, v) = line_progress(x0, y0, x1, y1, s);
    (abs(x1 - x0) - u) + (abs(y1 - y0) - v)
}

/// A step taken before the end keeps the invariant and comes closer to the end.
pub proof fn lemma_line_step(x0: int, y0: int, x1: int, y1: int, s: (int, int, int))
    requires
        line_inv(x0, y0, x1, y1, s),
        (s.0, s.1) != (x1, y1),
    ensures
        line_inv(x0, y0, x1, y1, line_step(x0, y0, x1, y1, s)),
        0 <= line_measure(x0, y0, x1, y1, line_step(x0, y0, x1, y1, s)) < line_measure(
            x0,
            y0,
            x1,
            y1,
            s,
        ),
{
    let dx = abs(x1 - x0);
    let dyy = abs(y1 - y0);
    let (u, v) = line_progress(x0, y0, x1, y1, s);
    let e2 = 2 * s.2;
    let xs = e2 >= -dyy;
    let ys = e2 <= dx;
    if xs && u == dx {
        assert(v < dyy);
        assert(dx * (1 + v) <= dx * dyy) by (nonlinear_arith)
            requires
                dx >= 0,
                1 + v <= dyy,
        ;
        assert(dyy * (1 + u) == dyy + dx * dyy) by (nonlinear_arith)
            requires
                u == dx,
        ;
        assert(false);
    }
    if ys && v == dyy {
        assert(u < dx);
        assert(dyy * (1 + u) <= dyy * dx) by (nonlinear_arith)
            requires
                dyy >= 0,
                1 + u <= dx,
        ;
        assert(dx * (1 + v) == dx + dx * dyy) by (nonlinear_arith)
            requires
                v == dyy,
        ;
        assert(false);
    }
    let t = line_step(x0, y0, x1, y1, s);
    let u2: int = if xs {
        u + 1
    } else {
        u
    };
    let v2: int = if ys {
        v + 1
    } else {
        v
    };
    assert(line_progress(x0, y0, x1, y1, t) == (u2, v2));
    assert(dx * (1 + v2) == dx * (1 + v) + (if ys {
        dx
    } else {
        0
    })) by (nonlinear_arith)
        requires
            v2 == (if ys {
                v + 1
            } else {
                v
            }),
    ;
    assert(dyy * (1 + u2) == dyy * (1 + u) + (if xs {
        dyy
    } else {
        0
    })) by (nonlinear_arith)
        requires
            u2 == (if xs {
                u + 1
            } else {
                u
            }),
    ;
}

/// The error term of a state that keeps the invariant fits comfortably in
/// 128 bits when the end points are 32-bit values.
pub proof fn lemma_line_err_bound(x0: int, y0: int, x1: int, y1: int, s: (int, int, int))
    requires
        line_inv(x0, y0, x1, y1, s),
        i32::MIN <= x0 <= i32::MAX,
        i32::MIN <= y0 <= i32::MAX,
        i32::MIN <= x1 <= i32::MAX,
        i32::MIN <= y1 <= i32::MAX,
    ensures
        -0x4_0000_0000_0000_0000 < s.2 < 0x4_0000_0000_0000_0000,
{
    let dx = abs(x1 - x0);
    let dyy = abs(y1 - y0);
    let (u, v) = line_progress(x0, y0, x1, y1, s);
    assert(0 <= dx * (1 + v) <= 0x1_0000_0000 * 0x1_0000_0001) by (nonlinear_arith)
        requires
            0 <= dx <= 0x1_0000_0000,
            0 <= v <= 0x1_0000_0000,
    ;
    assert(0 <= dyy * (1 + u) <= 0x1_0000_0000 * 0x1_0000_0001) by (nonlinear_arith)
        requires
            0 <= dyy <= 0x1_0000_0000,
            0 <= u <= 0x1_0000_0000,
    ;
}

/// Every state reached before the end keeps the invariant.
pub proof fn lemma_line_walk_inv(x0: int, y0: int, x1: int, y1: int, k: nat)
    requires
        forall|j: nat| j < k ==> #[trigger] line_at(x0, y0, x1, y1, j) != (x1, y1),
    ensures
        line_inv(x0, y0, x1, y1, line_walk(x0, y0, x1, y1, k)),
    decreases k,
{
    if k == 0 {
        let dx = abs(x1 - x0);
        let dyy = abs(y1 - y0);
        assert(line_progress(x0, y0, x1, y1, line_walk(x0, y0, x1, y1, 0)) == (0int, 0int));
        assert(dx * (1 + 0int) - dyy * (1 + 0int) == dx - dyy) by (nonlinear_arith);
    } else {
        let j = (k - 1) as nat;
        lemma_line_walk_inv(x0, y0, x1, y1, j);
        assert(line_at(x0, y0, x1, y1, j) != (x1, y1));
        lemma_line_step(x0, y0, x1, y1, line_walk(x0, y0, x1, y1, j));
    }
}

/// Once the walk stands on the end at step `k`, and on no earlier step, the
/// points visited so far are the line's points.
pub proof fn lemma_line_prefix_complete(x0: int, y0: int, x1: int, y1: int, k: nat)
    requires
        line_at(x0, y0, x1, y1, k) == (x1, y1),
        forall|j: nat| j < k ==> #[trigger] line_at(x0, y0, x1, y1, j) != (x1, y1),
    ensures
        line_prefix(x0, y0, x1, y1, k + 1) == line_points(x0, y0, x1, y1),
{
    let a = line_prefix(x0, y0, x1, y1, k + 1);
    let b = line_points(x0, y0, x1, y1);
    assert forall|p: (int, int)| a.contains(p) implies b.contains(p) by {
        let j = choose|j: nat| j < k + 1 && line_at(x0, y0, x1, y1, j) == p;
        assert(forall|i: nat| i < j ==> #[trigger] line_at(x0, y0, x1, y1, i) != (x1, y1));
    }
    assert forall|p: (int, int)| b.contains(p) implies a.contains(p) by {
        let j = choose|j: nat|
            line_at(x0, y0, x1, y1, j) == p && forall|i: nat|
                i < j ==> #[trigger] line_at(x0, y0, x1, y1, i) != (x1, y1);
        if j > k {
            assert(line_at(x0, y0, x1, y1, k) != (x1, y1));
        }
        assert(j < k + 1);
    }
    assert(a =~= b);
}

/// Visiting the point of step `k` extends the visited set to `k + 1` steps.
pub proof fn lemma_line_prefix_next(x0: int, y0: int, x1: int, y1: int, k: nat)
    ensures
        line_prefix(x0, y0, x1, y1, k).union(set![line_at(x0, y0, x1, y1, k)]) == line_prefix(
            x0,
            y0,
            x1,
            y1,
            k + 1,
        ),
{
    let a = line_prefix(x0, y0, x1, y1, k).union(set![line_at(x0, y0, x1, y1, k)]);
    let b = line_prefix(x0, y0, x1, y1, k + 1);
    assert forall|p: (int, int)| b.contains(p) implies a.contains(p) by {
        let j = choose|j: nat| j < k + 1 && line_at(x0, y0, x1, y1, j) == p;
        if j < k {
            assert(line_prefix(x0, y0, x1, y1, k).contains(p));
        }
    }
    assert(a =~= b);
}


/// The inner adjustment of the circle walk: while the error is positive and
/// `x` has not fallen below `y`, `x` moves one inward and the error drops
/// by `2 * x + 1` (with the new `x`). Yields the settled `x` and error.
pub open spec fn circle_settle(x: int, y: int, err: int) -> (int, int)
    decreases x - y + 1,
{
    if err > 0 && x >= y {
        circle_settle(x - 1, y, err - (2 * (x - 1) + 1))
    } else {
        (x, err)
    }
}

/// The state `(x, y, err)` of the midpoint circle walk of radius `r` after
/// `n` iterations: it starts at `(r, 0, 0)`; each iteration increments `y`,
/// adds `2 * y + 1` to the error, and settles `x`.
pub open spec fn circle_walk(r: int, n: nat) -> (int, int, int)
    decreases n,
{
    if n == 0 {
        (r, 0, 0)
    } else {
        let s = circle_walk(r, (n - 1) as nat);
        let y = s.1 + 1;
        let t = circle_settle(s.0, y, s.2 + 2 * y + 1);
        (t.0, y, t.1)
    }
}

/// Whether the walk still runs at iteration `n`, that is `x >= y` there.
pub open spec fn circle_running(r: int, n: nat) -> bool {
    circle_walk(r, n).0 >= circle_walk(r, n).1
}

/// The eight points `(±x, ±y)` and `(±y, ±x)` around `(cx, cy)`.
pub open spec fn octants(cx: int, cy: int, x: int, y: int) -> Set<(int, int)> {
    set![
        (cx + x, cy + y),
        (cx - x, cy + y),
        (cx + x, cy - y),
        (cx - x, cy - y),
        (cx + y, cy + x),
        (cx - y, cy + x),
        (cx + y, cy - x),
        (cx - y, cy - x),
    ]
}

/// The points of the circle of radius `r` around `(cx, cy)`: the eight
/// symmetric points of every state of the walk while `x >= y`.
pub open spec fn circle_points(cx: int, cy: int, r: int) -> Set<(int, int)> {
    Set::new(
        |p: (int, int)|
            exists|k: nat|
                (forall|j: nat| j <= k ==> #[trigger] circle_running(r, j)) && octants(
                    cx,
                    cy,
                    circle_walk(r, k).0,
                    circle_walk(r, k).1,
                ).contains(p),
    )
}

/// The symmetric points of the first `k` states of the walk.
pub open spec fn circle_prefix(cx: int, cy: int, r: int, k: nat) -> Set<(int, int)> {
    Set::new(
        |p: (int, int)|
            exists|j: nat|
                j < k && octants(cx, cy, circle_walk(r, j).0, circle_walk(r, j).1).contains(p),
    )
}

/// Emitting the points of state `k` extends the emitted set to `k + 1` states.
pub proof fn lemma_circle_prefix_next(cx: int, cy: int, r: int, k: nat)
    ensures
        circle_prefix(cx, cy, r, k).union(
            octants(cx, cy, circle_walk(r, k).0, circle_walk(r, k).1),
        ) == circle_prefix(cx, cy, r, k + 1),
{
    let a = circle_prefix(cx, cy, r, k).union(
        octants(cx, cy, circle_walk(r, k).0, circle_walk(r, k).1),
    );
    let b = circle_prefix(cx, cy, r, k + 1);
    assert forall|p: (int, int)| b.contains(p) implies a.contains(p) by {
        let j = choose|j: nat|
            j < k + 1 && octants(cx, cy, circle_walk(r, j).0, circle_walk(r, j).1).contains(p);
        if j < k {
            assert(circle_prefix(cx, cy, r, k).contains(p));
        }
    }
    assert(a =~= b);
}

/// Once the walk stops at iteration `k`, the emitted points are the circle's.
pub proof fn lemma_circle_prefix_complete(cx: int, cy: int, r: int, k: nat)
    requires
        !circle_running(r, k),
        forall|j: nat| j < k ==> #[trigger] circle_running(r, j),
    ensures
        circle_prefix(cx, cy, r, k) == circle_points(cx, cy, r),
{
    let a = circle_prefix(cx, cy, r, k);
    let b = circle_points(cx, cy, r);
    assert forall|p: (int, int)| a.contains(p) implies b.contains(p) by {
        let j = choose|j: nat|
            j < k && octants(cx, cy, circle_walk(r, j).0, circle_walk(r, j).1).contains(p);
        assert(forall|i: nat| i <= j ==> #[trigger] circle_running(r, i));
    }
    assert forall|p: (int, int)| b.contains(p) implies a.contains(p) by {
        let j = choose|j: nat|
            (forall|i: nat| i <= j ==> #[trigger] circle_running(r, i)) && octants(
                cx,
                cy,
                circle_walk(r, j).0,
                circle_walk(r, j).1,
            ).contains(p);
        if j >= k {
            assert(circle_running(r, k));
        }
    }
    assert(a =~= b);
}


/// Whether bit `col` of a glyph row is set.
pub open spec fn glyph_bit(row: u8, col: int) -> bool {
    row & (1u8 << (col as u8)) != 0
}

/// The points a glyph with rows `g` covers when its top-left corner is `(ox, oy)`.
pub open spec fn glyph_points(g: Seq<u8>, ox: int, oy: int) -> Set<(int, int)> {
    Set::new(
        |p: (int, int)|
            0 <= p.0 - ox < 8 && 0 <= p.1 - oy < 8 && glyph_bit(g[p.1 - oy], p.0 - ox),
    )
}

/// The part of `glyph_points` among the first `n` bits, taken row by row.
pub open spec fn glyph_prefix(g: Seq<u8>, ox: int, oy: int, n: int) -> Set<(int, int)> {
    Set::new(
        |p: (int, int)|
            glyph_points(g, ox, oy).contains(p) && (p.1 - oy) * 8 + (p.0 - ox) < n,
    )
}

/// The code of a character, as the glyph table indexes it.
pub open spec fn char_code(c: char) -> nat {
    (c as u32) as nat
}

/// The points the first `n` characters of `s` cover, the text starting at
/// `(x, y)`: character `k` has its glyph at `(x + 8 * k, y)`, and one whose
/// code is 128 or more has no glyph but still takes its 8 columns.
pub open spec fn text_prefix(x: int, y: int, s: Seq<char>, n: int) -> Set<(int, int)> {
    Set::new(
        |p: (int, int)|
            exists|k: int|
                0 <= k < n && char_code(s[k]) < 128 && #[trigger] glyph_points(
                    basic_glyph(char_code(s[k])),
                    x + 8 * k,
                    y,
                ).contains(p),
    )
}

/// The points that the text `s`, starting at `(x, y)`, covers.
pub open spec fn text_points(x: int, y: int, s: Seq<char>) -> Set<(int, int)> {
    text_prefix(x, y, s, s.len() as int)
}


/// The smaller of two integers.
pub open spec fn min(a: int, b: int) -> int {
    if a < b {
        a
    } else {
        b
    }
}

/// A rectangle whose draw region, clamped to the `w` by `h` canvas, has no
/// width or no height changes no pixel of the buffer.
pub proof fn rect_clipped_away_changes_nothing(
    f: Seq<u8>,
    w: int,
    h: int,
    x: int,
    y: int,
    rw: int,
    rh: int,
    c: Color,
)
    requires
        0 <= w,
        0 <= h,
        f.len() == w * h * 4,
        min(x + rw, w) <= min(x, w) || min(y + rh, h) <= min(y, h),
    ensures
        paint(f, w, rect_points(x, y, rw, rh), c) == f,
{
    lemma_paint_off_canvas(f, w, h, rect_points(x, y, rw, rh), c);
}

/// After clearing with `c`, every pixel of the canvas holds exactly the four
/// bytes of `c`.
pub proof fn clear_then_sample(f: Seq<u8>, w: int, h: int, c: Color, x: int, y: int)
    requires
        f.len() == w * h * 4,
        0 <= x < w,
        0 <= y < h,
    ensures
        pixel_bytes(paint(f, w, Set::full(), c), w, x, y) == c.bytes(),
{
    lemma_pixel_range(w, h, x, y);
    let g = paint(f, w, Set::full(), c);
    assert(pixel_bytes(g, w, x, y) =~= c.bytes());
}


/// Whether the segment is horizontal, vertical or at 45 degrees.
pub open spec fn is_straight(x0: int, y0: int, x1: int, y1: int) -> bool {
    let dx = abs(x1 - x0);
    let dyy = abs(y1 - y0);
    dx == 0 || dyy == 0 || dx == dyy
}

/// The point `t` unit steps from `(x0, y0)` toward `(x1, y1)` on a straight
/// segment: each coordinate that differs moves by `t`.
pub open spec fn straight_at(x0: int, y0: int, x1: int, y1: int, t: int) -> (int, int) {
    let x = if x0 < x1 {
        x0 + t
    } else if x0 > x1 {
        x0 - t
    } else {
        x0
    };
    let y = if y0 < y1 {
        y0 + t
    } else if y0 > y1 {
        y0 - t
    } else {
        y0
    };
    (x, y)
}

/// The length of a straight segment in unit steps.
pub open spec fn straight_len(x0: int, y0: int, x1: int, y1: int) -> int {
    if abs(x1 - x0) >= abs(y1 - y0) {
        abs(x1 - x0)
    } else {
        abs(y1 - y0)
    }
}

/// On a straight segment the walk moves one unit step per iteration and its
/// error term never changes.
proof fn lemma_straight_walk(x0: int, y0: int, x1: int, y1: int, k: nat)
    requires
        is_straight(x0, y0, x1, y1),
        k <= straight_len(x0, y0, x1, y1),
    ensures
        line_walk(x0, y0, x1, y1, k) == (
            straight_at(x0, y0, x1, y1, k as int).0,
            straight_at(x0, y0, x1, y1, k as int).1,
            abs(x1 - x0) - abs(y1 - y0),
        ),
    decreases k,
{
    if k > 0 {
        lemma_straight_walk(x0, y0, x1, y1, (k - 1) as nat);
    }
}

/// The points of a straight segment are the unit steps from its start to its end.
proof fn lemma_straight_points(x0: int, y0: int, x1: int, y1: int)
    requires
        is_straight(x0, y0, x1, y1),
    ensures
        line_points(x0, y0, x1, y1) == Set::new(
            |p: (int, int)|
                exists|t: int|
                    0 <= t <= straight_len(x0, y0, x1, y1) && #[trigger] straight_at(
                        x0,
                        y0,
                        x1,
                        y1,
                        t,
                    ) == p,
        ),
{
    let n = straight_len(x0, y0, x1, y1);
    let b = Set::new(
        |p: (int, int)|
            exists|t: int| 0 <= t <= n && #[trigger] straight_at(x0, y0, x1, y1, t) == p,
    );
    let a = line_points(x0, y0, x1, y1);
    assert forall|k: nat| k <= n implies #[trigger] line_at(x0, y0, x1, y1, k) == straight_at(
        x0,
        y0,
        x1,
        y1,
        k as int,
    ) by {
        lemma_straight_walk(x0, y0, x1, y1, k);
    }
    assert(line_at(x0, y0, x1, y1, n as nat) == (x1, y1));
    assert forall|p: (int, int)| a.contains(p) implies b.contains(p) by {
        let k = choose|k: nat|
            line_at(x0, y0, x1, y1, k) == p && forall|j: nat|
                j < k ==> #[trigger] line_at(x0, y0, x1, y1, j) != (x1, y1);
        if k > n {
            assert(line_at(x0, y0, x1, y1, n as nat) != (x1, y1));
        }
        assert(straight_at(x0, y0, x1, y1, k as int) == p);
    }
    assert forall|p: (int, int)| b.contains(p) implies a.contains(p) by {
        let t = choose|t: int| 0 <= t <= n && #[trigger] straight_at(x0, y0, x1, y1, t) == p;
        let k = t as nat;
        assert forall|j: nat| j < k implies #[trigger] line_at(x0, y0, x1, y1, j) != (x1, y1) by {
            assert(line_at(x0, y0, x1, y1, j) == straight_at(x0, y0, x1, y1, j as int));
        }
        assert(line_at(x0, y0, x1, y1, k) == p);
    }
    assert(a =~= b);
}

/// A horizontal, vertical or 45-degree segment rasterizes to the same points
/// whichever end it is drawn from.
pub proof fn straight_line_is_symmetric(x0: int, y0: int, x1: int, y1: int)
    requires
        is_straight(x0, y0, x1, y1),
    ensures
        line_points(x0, y0, x1, y1) == line_points(x1, y1, x0, y0),
{
    lemma_straight_points(x0, y0, x1, y1);
    lemma_straight_points(x1, y1, x0, y0);
    let n = straight_len(x0, y0, x1, y1);
    assert(straight_len(x1, y1, x0, y0) == n);
    assert forall|t: int| 0 <= t <= n implies #[trigger] straight_at(x0, y0, x1, y1, t)
        == straight_at(x1, y1, x0, y0, n - t) by {}
    let a = line_points(x0, y0, x1, y1);
    let b = line_points(x1, y1, x0, y0);
    assert forall|p: (int, int)| a.contains(p) implies b.contains(p) by {
        let t = choose|t: int| 0 <= t <= n && #[trigger] straight_at(x0, y0, x1, y1, t) == p;
        assert(straight_at(x1, y1, x0, y0, n - t) == p);
    }
    assert forall|p: (int, int)| b.contains(p) implies a.contains(p) by {
        let t = choose|t: int| 0 <= t <= n && #[trigger] straight_at(x1, y1, x0, y0, t) == p;
        assert(straight_at(x0, y0, x1, y1, n - t) == straight_at(x1, y1, x0, y0, n - (n - t)));
        assert(straight_at(x0, y0, x1, y1, n - t) == p);
    }
    assert(a =~= b);
}

} // verus!

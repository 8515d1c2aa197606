//! The icon of the application: a picture frame in a tray.

use vstd::prelude::*;

verus! {

/// The side of the icon.
pub const APP_ICON_SIZE: usize = 64;

/// The colours of the icon.
#[derive(Clone, Copy, Debug, PartialEq, Eq, Structural)]
pub enum Color {
    Clear,
    Ink,
    Paper,
    Accent,
    Peak,
    PeakDark,
}

impl Color {
    /// The red, green and blue of the colour, and how opaque it is.
    pub open spec fn bytes(self) -> Seq<u8> {
        match self {
            Color::Clear => seq![0u8, 0, 0, 0],
            Color::Ink => seq![22u8, 33, 45, 255],
            Color::Paper => seq![247u8, 243, 235, 255],
            Color::Accent => seq![255u8, 191, 68, 255],
            Color::Peak => seq![14u8, 122, 138, 255],
            Color::PeakDark => seq![7u8, 74, 92, 255],
        }
    }

    /// The red, green and blue of the colour, and how opaque it is.
    pub fn rgba(&self) -> (rgba: (u8, u8, u8, u8))
        ensures
            seq![rgba.0, rgba.1, rgba.2, rgba.3] == self.bytes(),
            *self == Color::Clear ==> rgba == (0u8, 0u8, 0u8, 0u8),
            *self == Color::Ink ==> rgba == (22u8, 33u8, 45u8, 255u8),
            *self == Color::Paper ==> rgba == (247u8, 243u8, 235u8, 255u8),
            *self == Color::Accent ==> rgba == (255u8, 191u8, 68u8, 255u8),
            *self == Color::Peak ==> rgba == (14u8, 122u8, 138u8, 255u8),
            *self == Color::PeakDark ==> rgba == (7u8, 74u8, 92u8, 255u8),
    {
        match self {
            Color::Clear => (0, 0, 0, 0),
            Color::Ink => (22, 33, 45, 255),
            Color::Paper => (247, 243, 235, 255),
            Color::Accent => (255, 191, 68, 255),
            Color::Peak => (14, 122, 138, 255),
            Color::PeakDark => (7, 74, 92, 255),
        }
    }
}

// ---------------------------------------------------------------------------
// Shapes
// ---------------------------------------------------------------------------

/// A point, the abscissa first.
pub type Point = (i32, i32);

#[derive(Clone, Copy, Debug)]
pub enum Shape {
    /// A rectangle whose corners are rounded off.
    RoundedRect { x: i32, y: i32, width: i32, height: i32, radius: i32 },
    Circle { x: i32, y: i32, radius: i32 },
    Triangle { a: Point, b: Point, c: Point },
}

/// How far a coordinate lies within the rounded part of a side, or 0 if it lies
/// in the straight part.
pub open spec fn corner_depth(at: int, start: int, length: int, radius: int) -> int {
    if at < start + radius {
        start + radius - at
    } else if at >= start + length - radius {
        at - (start + length - radius - 1)
    } else {
        0
    }
}

/// Twice the signed area of a triangle.
pub open spec fn signed_area(p: (int, int), q: (int, int), r: (int, int)) -> int {
    (p.0 - r.0) * (q.1 - r.1) - (q.0 - r.0) * (p.1 - r.1)
}

/// Whether a point lies on one side of all edges of a triangle, or on an edge.
pub open spec fn inside_triangle(
    p: (int, int),
    a: (int, int),
    b: (int, int),
    c: (int, int),
) -> bool {
    let first = signed_area(p, a, b);
    let second = signed_area(p, b, c);
    let third = signed_area(p, c, a);
    (first >= 0 && second >= 0 && third >= 0) || (first <= 0 && second <= 0 && third <= 0)
}

/// Whether a number lies between the least and the greatest of three others.
pub open spec fn within_three(n: int, a: int, b: int, c: int) -> bool {
    (n >= a || n >= b || n >= c) && (n <= a || n <= b || n <= c)
}

pub open spec fn at(point: Point) -> (int, int) {
    (point.0 as int, point.1 as int)
}

impl Shape {
    /// Whether the shape covers the pixel.
    pub open spec fn covers(self, px: int, py: int) -> bool {
        match self {
            Shape::RoundedRect { x, y, width, height, radius } => {
                let dx = corner_depth(px, x as int, width as int, radius as int);
                let dy = corner_depth(py, y as int, height as int, radius as int);
                &&& x <= px < x + width
                &&& y <= py < y + height
                &&& dx == 0 || dy == 0 || dx * dx + dy * dy <= radius * radius
            },
            Shape::Circle { x, y, radius } => {
                &&& x - radius <= px <= x + radius
                &&& y - radius <= py <= y + radius
                &&& (px - x) * (px - x) + (py - y) * (py - y) <= radius * radius
            },
            Shape::Triangle { a, b, c } => {
                &&& within_three(px, a.0 as int, b.0 as int, c.0 as int)
                &&& within_three(py, a.1 as int, b.1 as int, c.1 as int)
                &&& inside_triangle((px, py), at(a), at(b), at(c))
            },
        }
    }
}

/// A canvas with a shape painted over it.
pub open spec fn painted(canvas: Seq<Color>, size: int, shape: Shape, color: Color) -> Seq<Color> {
    Seq::new(
        canvas.len(),
        |i: int|
            if i / size < size && shape.covers(i % size, i / size) {
                color
            } else {
                canvas[i]
            },
    )
}

fn product(a: i128, b: i128) -> (c: i128)
    requires
        -0x4_0000_0000 <= a <= 0x4_0000_0000,
        -0x4_0000_0000 <= b <= 0x4_0000_0000,
    ensures
        c == a * b,
        -0x10_0000_0000_0000_0000 <= c <= 0x10_0000_0000_0000_0000,
{
    assert(-0x10_0000_0000_0000_0000 <= a * b <= 0x10_0000_0000_0000_0000) by (nonlinear_arith)
        requires
            -0x4_0000_0000 <= a <= 0x4_0000_0000,
            -0x4_0000_0000 <= b <= 0x4_0000_0000,
    ;
    a * b
}

fn depth_of(at: i32, start: i32, length: i32, radius: i32) -> (depth: i128)
    ensures
        depth == corner_depth(at as int, start as int, length as int, radius as int),
        -0x2_8000_0000 <= depth <= 0x2_8000_0000,
{
    let at: i128 = at as i128;
    let start: i128 = start as i128;
    let length: i128 = length as i128;
    let radius: i128 = radius as i128;
    if at < start + radius {
        start + radius - at
    } else if at >= start + length - radius {
        at - (start + length - radius - 1)
    } else {
        0
    }
}

fn area(p: Point, q: Point, r: Point) -> (area: i128)
    ensures
        area == signed_area(at(p), at(q), at(r)),
{
    product(p.0 as i128 - r.0 as i128, q.1 as i128 - r.1 as i128) - product(
        q.0 as i128 - r.0 as i128,
        p.1 as i128 - r.1 as i128,
    )
}

fn point_in_triangle(p: Point, a: Point, b: Point, c: Point) -> (yes: bool)
    ensures
        yes == inside_triangle(at(p), at(a), at(b), at(c)),
{
    let d1: i128 = area(p, a, b);
    let d2: i128 = area(p, b, c);
    let d3: i128 = area(p, c, a);
    let has_neg = d1 < 0 || d2 < 0 || d3 < 0;
    let has_pos = d1 > 0 || d2 > 0 || d3 > 0;
    !(has_neg && has_pos)
}

fn between(n: i32, a: i32, b: i32, c: i32) -> (yes: bool)
    ensures
        yes == within_three(n as int, a as int, b as int, c as int),
{
    (n >= a || n >= b || n >= c) && (n <= a || n <= b || n <= c)
}

impl Shape {
    /// Whether the shape covers the pixel.
    pub fn is_over(&self, px: i32, py: i32) -> (yes: bool)
        ensures
            yes == self.covers(px as int, py as int),
    {
        match *self {
            Shape::RoundedRect { x, y, width, height, radius } => {
                let right: i128 = x as i128 + width as i128;
                let bottom: i128 = y as i128 + height as i128;
                if px < x || px as i128 >= right || py < y || py as i128 >= bottom {
                    return false;
                }
                let dx: i128 = depth_of(px, x, width, radius);
                let dy: i128 = depth_of(py, y, height, radius);
                dx == 0 || dy == 0 || product(dx, dx) + product(dy, dy) <= product(
                    radius as i128,
                    radius as i128,
                )
            },
            Shape::Circle { x, y, radius } => {
                let dx: i128 = px as i128 - x as i128;
                let dy: i128 = py as i128 - y as i128;
                let radius: i128 = radius as i128;
                -radius <= dx && dx <= radius && -radius <= dy && dy <= radius && product(dx, dx)
                    + product(dy, dy) <= product(radius, radius)
            },
            Shape::Triangle { a, b, c } => {
                between(px, a.0, b.0, c.0) && between(py, a.1, b.1, c.1) && point_in_triangle(
                    (px, py),
                    a,
                    b,
                    c,
                )
            },
        }
    }
}

/// Paints a shape over a square canvas.
fn fill(canvas: &mut Vec<Color>, size: usize, shape: Shape, color: Color)
    requires
        0 < size <= i32::MAX,
    ensures
        final(canvas)@ == painted(old(canvas)@, size as int, shape, color),
{
    let ghost before = canvas@;
    let mut i: usize = 0;
    while i < canvas.len()
        invariant
            0 < size <= i32::MAX,
            i <= canvas@.len() == before.len(),
            forall|j: int|
                0 <= j < i ==> #[trigger] canvas@[j] == painted(
                    before,
                    size as int,
                    shape,
                    color,
                )[j],
            forall|j: int| i <= j < before.len() ==> #[trigger] canvas@[j] == before[j],
        decreases canvas@.len() - i,
    {
        let px: usize = i % size;
        let py: usize = i / size;
        if py < size && shape.is_over(px as i32, py as i32) {
            canvas.set(i, color);
        }
        i += 1;
    }
    assert(canvas@ =~= painted(before, size as int, shape, color));
}

proof fn lemma_area_turns(p: (int, int), q: (int, int), r: (int, int))
    ensures
        signed_area(p, r, q) == -signed_area(p, q, r),
{
    let (px, py) = p;
    let (qx, qy) = q;
    let (rx, ry) = r;
    assert((px - qx) * (ry - qy) - (rx - qx) * (py - qy) == -((px - rx) * (qy - ry) - (qx - rx) * (
    py - ry))) by (nonlinear_arith);
}

/// The order in which the corners of a triangle are given does not matter for the
/// pixels that it covers.
pub proof fn law_corners_in_any_order(a: Point, b: Point, c: Point, px: int, py: int)
    ensures
        ({
            let covered = Shape::Triangle { a, b, c }.covers(px, py);
            &&& Shape::Triangle { a, b: c, c: b }.covers(px, py) == covered
            &&& Shape::Triangle { a: b, b: a, c }.covers(px, py) == covered
            &&& Shape::Triangle { a: b, b: c, c: a }.covers(px, py) == covered
            &&& Shape::Triangle { a: c, b: a, c: b }.covers(px, py) == covered
            &&& Shape::Triangle { a: c, b, c: a }.covers(px, py) == covered
        }),
{
    let p = (px, py);
    lemma_area_turns(p, at(a), at(b));
    lemma_area_turns(p, at(b), at(c));
    lemma_area_turns(p, at(c), at(a));
}

/// A triangle paints the same canvas in whichever order its corners are given.
pub proof fn law_triangle_painted_in_any_order(
    canvas: Seq<Color>,
    size: int,
    a: Point,
    b: Point,
    c: Point,
    color: Color,
)
    ensures
        ({
            let one = painted(canvas, size, Shape::Triangle { a, b, c }, color);
            &&& painted(canvas, size, Shape::Triangle { a, b: c, c: b }, color) == one
            &&& painted(canvas, size, Shape::Triangle { a: b, b: a, c }, color) == one
            &&& painted(canvas, size, Shape::Triangle { a: b, b: c, c: a }, color) == one
            &&& painted(canvas, size, Shape::Triangle { a: c, b: a, c: b }, color) == one
            &&& painted(canvas, size, Shape::Triangle { a: c, b, c: a }, color) == one
        }),
{
    let one = painted(canvas, size, Shape::Triangle { a, b, c }, color);
    assert forall|px: int, py: int| ({
        let covered = #[trigger] Shape::Triangle { a, b, c }.covers(px, py);
        &&& Shape::Triangle { a, b: c, c: b }.covers(px, py) == covered
        &&& Shape::Triangle { a: b, b: a, c }.covers(px, py) == covered
        &&& Shape::Triangle { a: b, b: c, c: a }.covers(px, py) == covered
        &&& Shape::Triangle { a: c, b: a, c: b }.covers(px, py) == covered
        &&& Shape::Triangle { a: c, b, c: a }.covers(px, py) == covered
    }) by {
        law_corners_in_any_order(a, b, c, px, py);
    }
    assert(painted(canvas, size, Shape::Triangle { a, b: c, c: b }, color) =~= one);
    assert(painted(canvas, size, Shape::Triangle { a: b, b: a, c }, color) =~= one);
    assert(painted(canvas, size, Shape::Triangle { a: b, b: c, c: a }, color) =~= one);
    assert(painted(canvas, size, Shape::Triangle { a: c, b: a, c: b }, color) =~= one);
    assert(painted(canvas, size, Shape::Triangle { a: c, b, c: a }, color) =~= one);
}

// ---------------------------------------------------------------------------
// The icon
// ---------------------------------------------------------------------------

pub open spec fn rounded_rect(x: i32, y: i32, width: i32, height: i32, radius: i32) -> Shape {
    Shape::RoundedRect { x, y, width, height, radius }
}

/// The shapes of the icon with their colours, from the bottom up.
pub open spec fn icon_layers() -> Seq<(Shape, Color)> {
    seq![
        (rounded_rect(9, 18, 46, 30, 7), Color::Ink),
        (rounded_rect(14, 10, 36, 12, 6), Color::Ink),
        (rounded_rect(17, 13, 16, 4, 2), Color::Accent),
        (rounded_rect(26, 9, 14, 6, 3), Color::Paper),
        (rounded_rect(6, 22, 52, 26, 5), Color::Ink),
        (rounded_rect(10, 26, 44, 18, 4), Color::Paper),
        (Shape::Circle { x: 45, y: 34, radius: 5 }, Color::Accent),
        (Shape::Triangle { a: (12, 44), b: (26, 29), c: (40, 44) }, Color::Peak),
        (Shape::Triangle { a: (33, 44), b: (43, 34), c: (52, 44) }, Color::PeakDark),
        (rounded_rect(9, 42, 46, 6, 3), Color::Ink),
        (rounded_rect(10, 43, 44, 4, 2), Color::Paper),
    ]
}

/// A clear canvas with the layers painted over it, from the first one on.
pub open spec fn layered(layers: Seq<(Shape, Color)>) -> Seq<Color>
    decreases layers.len(),
{
    if layers.len() == 0 {
        Seq::new((APP_ICON_SIZE * APP_ICON_SIZE) as nat, |i: int| Color::Clear)
    } else {
        painted(
            layered(layers.drop_last()),
            APP_ICON_SIZE as int,
            layers.last().0,
            layers.last().1,
        )
    }
}

/// The colours of a canvas, one after the other.
pub open spec fn canvas_bytes(canvas: Seq<Color>) -> Seq<u8>
    decreases canvas.len(),
{
    if canvas.len() == 0 {
        Seq::empty()
    } else {
        canvas_bytes(canvas.drop_last()) + canvas.last().bytes()
    }
}

fn layers() -> (layers: Vec<(Shape, Color)>)
    ensures
        layers@ == icon_layers(),
{
    let mut layers: Vec<(Shape, Color)> = Vec::new();
    layers.push((Shape::RoundedRect { x: 9, y: 18, width: 46, height: 30, radius: 7 }, Color::Ink));
    layers.push((Shape::RoundedRect { x: 14, y: 10, width: 36, height: 12, radius: 6 }, Color::Ink));
    layers.push((Shape::RoundedRect { x: 17, y: 13, width: 16, height: 4, radius: 2 }, Color::Accent));
    layers.push((Shape::RoundedRect { x: 26, y: 9, width: 14, height: 6, radius: 3 }, Color::Paper));
    layers.push((Shape::RoundedRect { x: 6, y: 22, width: 52, height: 26, radius: 5 }, Color::Ink));
    layers.push((Shape::RoundedRect { x: 10, y: 26, width: 44, height: 18, radius: 4 }, Color::Paper));
    layers.push((Shape::Circle { x: 45, y: 34, radius: 5 }, Color::Accent));
    layers.push((Shape::Triangle { a: (12, 44), b: (26, 29), c: (40, 44) }, Color::Peak));
    layers.push((Shape::Triangle { a: (33, 44), b: (43, 34), c: (52, 44) }, Color::PeakDark));
    layers.push((Shape::RoundedRect { x: 9, y: 42, width: 46, height: 6, radius: 3 }, Color::Ink));
    layers.push((Shape::RoundedRect { x: 10, y: 43, width: 44, height: 4, radius: 2 }, Color::Paper));
    assert(layers@ =~= icon_layers());
    layers
}

fn paint_layers(layers: &Vec<(Shape, Color)>) -> (canvas: Vec<Color>)
    ensures
        canvas@ == layered(layers@),
{
    let mut canvas: Vec<Color> = Vec::new();
    while canvas.len() < APP_ICON_SIZE * APP_ICON_SIZE
        invariant
            canvas@.len() <= APP_ICON_SIZE * APP_ICON_SIZE,
            forall|i: int| 0 <= i < canvas@.len() ==> #[trigger] canvas@[i] == Color::Clear,
        decreases APP_ICON_SIZE * APP_ICON_SIZE - canvas@.len(),
    {
        canvas.push(Color::Clear);
    }
    assert(canvas@ =~= layered(layers@.take(0)));
    let mut i: usize = 0;
    while i < layers.len()
        invariant
            i <= layers@.len(),
            canvas@ == layered(layers@.take(i as int)),
        decreases layers@.len() - i,
    {
        let (shape, color) = layers[i];
        fill(&mut canvas, APP_ICON_SIZE, shape, color);
        i += 1;
        assert(layers@.take(i as int).drop_last() == layers@.take(i - 1));
    }
    assert(layers@.take(i as int) == layers@);
    canvas
}

/// The pixels of the icon, four bytes for each, row by row. What nothing is
/// painted over is transparent.
pub fn app_icon_rgba() -> (rgba: Vec<u8>)
    ensures
        rgba@ == canvas_bytes(layered(icon_layers())),
        rgba@.len() == 4 * APP_ICON_SIZE * APP_ICON_SIZE,
{
    let canvas = paint_layers(&layers());
    let mut rgba: Vec<u8> = Vec::new();
    let mut i: usize = 0;
    assert(rgba@ =~= canvas_bytes(canvas@.take(0)));
    while i < canvas.len()
        invariant
            i <= canvas@.len(),
            rgba@ == canvas_bytes(canvas@.take(i as int)),
            rgba@.len() == 4 * i,
        decreases canvas@.len() - i,
    {
        let pixel: Color = canvas[i];
        let ghost before = rgba@;
        let (red, green, blue, alpha) = pixel.rgba();
        rgba.push(red);
        rgba.push(green);
        rgba.push(blue);
        rgba.push(alpha);
        i += 1;
        assert(canvas@.take(i as int).drop_last() == canvas@.take(i - 1));
        assert(rgba@ =~= before + pixel.bytes());
    }
    assert(canvas@.take(i as int) == canvas@);
    proof {
        lemma_layered(icon_layers());
    }
    rgba
}

proof fn lemma_layered(layers: Seq<(Shape, Color)>)
    ensures
        layered(layers).len() == APP_ICON_SIZE * APP_ICON_SIZE,
        forall|i: int|
            0 <= i < layered(layers).len() ==> (#[trigger] layered(layers)[i]) == Color::Clear || exists|
                k: int,
            |
                0 <= k < layers.len() && layered(layers)[i] == (#[trigger] layers[k]).1,
    decreases layers.len(),
{
    if layers.len() > 0 {
        let rest = layers.drop_last();
        lemma_layered(rest);
        assert forall|i: int| 0 <= i < layered(layers).len() implies (#[trigger] layered(layers)[i])
            == Color::Clear || exists|k: int|
            0 <= k < layers.len() && layered(layers)[i] == (#[trigger] layers[k]).1 by {
            if layered(layers)[i] == layered(rest)[i] {
                if layered(rest)[i] != Color::Clear {
                    let k = choose|k: int|
                        0 <= k < rest.len() && layered(rest)[i] == (#[trigger] rest[k]).1;
                    assert(layers[k].1 == layered(layers)[i]);
                }
            } else {
                assert(layers[layers.len() - 1].1 == layered(layers)[i]);
            }
        }
    }
}

proof fn lemma_canvas_byte(canvas: Seq<Color>, pixel: int, channel: int)
    requires
        0 <= pixel < canvas.len(),
        0 <= channel < 4,
    ensures
        canvas_bytes(canvas).len() == 4 * canvas.len(),
        canvas_bytes(canvas)[4 * pixel + channel] == canvas[pixel].bytes()[channel],
    decreases canvas.len(),
{
    let rest = canvas.drop_last();
    if pixel < rest.len() {
        lemma_canvas_byte(rest, pixel, channel);
    } else {
        lemma_canvas_len(rest);
    }
}

proof fn lemma_canvas_len(canvas: Seq<Color>)
    ensures
        canvas_bytes(canvas).len() == 4 * canvas.len(),
    decreases canvas.len(),
{
    if canvas.len() > 0 {
        lemma_canvas_len(canvas.drop_last());
    }
}

/// Each pixel of the icon is either opaque or wholly transparent, and a
/// transparent one has no colour.
pub proof fn law_icon_opaque_or_clear(pixel: int)
    requires
        0 <= pixel < APP_ICON_SIZE * APP_ICON_SIZE,
    ensures
        ({
            let rgba = canvas_bytes(layered(icon_layers()));
            &&& rgba[4 * pixel + 3] == 255 || rgba[4 * pixel + 3] == 0
            &&& rgba[4 * pixel + 3] == 0 ==> rgba[4 * pixel] == 0 && rgba[4 * pixel + 1] == 0
                && rgba[4 * pixel + 2] == 0
        }),
{
    let canvas = layered(icon_layers());
    lemma_layered(icon_layers());
    lemma_canvas_byte(canvas, pixel, 0);
    lemma_canvas_byte(canvas, pixel, 1);
    lemma_canvas_byte(canvas, pixel, 2);
    lemma_canvas_byte(canvas, pixel, 3);
    assert(canvas[pixel] == Color::Clear || exists|k: int|
        0 <= k < icon_layers().len() && canvas[pixel] == (#[trigger] icon_layers()[k]).1);
    if canvas[pixel] != Color::Clear {
        let k = choose|k: int|
            0 <= k < icon_layers().len() && canvas[pixel] == (#[trigger] icon_layers()[k]).1;
        assert(icon_layers()[k].1.bytes()[3] == 255);
    }
}

/// The bytes of the icon are those of its pixels, four for each, row by row.
pub proof fn law_canvas_bytes(canvas: Seq<Color>, pixel: int, channel: int)
    requires
        0 <= pixel < canvas.len(),
        0 <= channel < 4,
    ensures
        canvas_bytes(canvas).len() == 4 * canvas.len(),
        canvas_bytes(canvas)[4 * pixel + channel] == canvas[pixel].bytes()[channel],
{
    lemma_canvas_byte(canvas, pixel, channel);
}

/// A pixel has the colour of the topmost shape that covers it, and none where no shape
/// does.
pub proof fn law_topmost_shape(layers: Seq<(Shape, Color)>, px: int, py: int, top: int)
    requires
        0 <= px < 64,
        0 <= py < 64,
        -1 <= top < layers.len(),
        top >= 0 ==> layers[top].0.covers(px, py),
        forall|k: int| top < k < layers.len() ==> !(#[trigger] layers[k]).0.covers(px, py),
    ensures
        layered(layers).len() == 64 * 64,
        layered(layers)[64 * py + px] == if top >= 0 {
            layers[top].1
        } else {
            Color::Clear
        },
    decreases layers.len(),
{
    lemma_layered(layers);
    let at = 64 * py + px;
    assert(at / 64 == py && at % 64 == px && 0 <= at < 64 * 64);
    if layers.len() > 0 {
        let rest = layers.drop_last();
        assert(layers.last() == layers[layers.len() - 1]);
        lemma_layered(rest);
        if top < layers.len() - 1 {
            assert(forall|k: int| 0 <= k < rest.len() ==> #[trigger] rest[k] == layers[k]);
            law_topmost_shape(rest, px, py, top);
        }
    }
}

/// A circle covers the pixels that are no farther away from its centre than its
/// radius.
pub proof fn law_circle(x: i32, y: i32, radius: i32, px: int, py: int)
    requires
        radius >= 0,
    ensures
        (Shape::Circle { x, y, radius }).covers(px, py) <==> (px - x) * (px - x) + (py - y) * (py - y)
            <= radius * radius,
{
    let dx = px - x;
    let dy = py - y;
    if dx * dx + dy * dy <= radius * radius {
        assert(-radius <= dx <= radius && -radius <= dy <= radius) by (nonlinear_arith)
            requires
                dx * dx + dy * dy <= radius * radius,
                radius >= 0,
        ;
    }
}

/// A rectangle looks the same from either side, and upside down.
pub proof fn law_rectangle_mirrored(
    x: i32,
    y: i32,
    width: i32,
    height: i32,
    radius: i32,
    px: int,
    py: int,
)
    requires
        0 <= 2 * radius <= width,
        2 * radius <= height,
    ensures
        ({
            let shape = Shape::RoundedRect { x, y, width, height, radius };
            let covered = shape.covers(px, py);
            &&& shape.covers(2 * x + width - 1 - px, py) == covered
            &&& shape.covers(px, 2 * y + height - 1 - py) == covered
        }),
{
}

/// A rectangle covers all pixels between its edges but for those at its corners,
/// which are rounded off: there it covers what a circle around the inner end of the
/// corner does.
pub proof fn law_rectangle(
    x: i32,
    y: i32,
    width: i32,
    height: i32,
    radius: i32,
    px: int,
    py: int,
)
    requires
        0 <= 2 * radius <= width,
        2 * radius <= height,
    ensures
        ({
            let shape = Shape::RoundedRect { x, y, width, height, radius };
            let inside = x <= px < x + width && y <= py < y + height;
            let dx = x + radius - px;
            let dy = y + radius - py;
            &&& shape.covers(px, py) ==> inside
            &&& inside && (x + radius <= px < x + width - radius || y + radius <= py < y + height
                - radius) ==> shape.covers(px, py)
            &&& inside && dx > 0 && dy > 0 ==> (shape.covers(px, py) <==> dx * dx + dy * dy
                <= radius * radius)
        }),
{
}

/// A triangle covers its corners, and nothing that lies on different sides of its
/// edges; what lies on one side of all of them, or on an edge, it covers.
pub proof fn law_triangle(a: Point, b: Point, c: Point, px: int, py: int)
    ensures
        ({
            let shape = Shape::Triangle { a, b, c };
            let first = px * (a.1 - b.1) + a.0 * (b.1 - py) + b.0 * (py - a.1);
            let second = px * (b.1 - c.1) + b.0 * (c.1 - py) + c.0 * (py - b.1);
            let third = px * (c.1 - a.1) + c.0 * (a.1 - py) + a.0 * (py - c.1);
            let within = (px >= a.0 || px >= b.0 || px >= c.0) && (px <= a.0 || px <= b.0 || px
                <= c.0) && (py >= a.1 || py >= b.1 || py >= c.1) && (py <= a.1 || py <= b.1 || py
                <= c.1);
            &&& shape.covers(a.0 as int, a.1 as int)
            &&& shape.covers(b.0 as int, b.1 as int)
            &&& shape.covers(c.0 as int, c.1 as int)
            &&& shape.covers(px, py) <==> within && ((first >= 0 && second >= 0 && third >= 0) || (
            first <= 0 && second <= 0 && third <= 0))
        }),
{
    lemma_area(px, py, a.0 as int, a.1 as int, b.0 as int, b.1 as int);
    lemma_area(px, py, b.0 as int, b.1 as int, c.0 as int, c.1 as int);
    lemma_area(px, py, c.0 as int, c.1 as int, a.0 as int, a.1 as int);
    lemma_flat_area(at(a), at(b));
    lemma_flat_area(at(a), at(c));
    lemma_flat_area(at(b), at(a));
    lemma_flat_area(at(b), at(c));
    lemma_flat_area(at(c), at(a));
    lemma_flat_area(at(c), at(b));
}

proof fn lemma_area(px: int, py: int, qx: int, qy: int, rx: int, ry: int)
    ensures
        signed_area((px, py), (qx, qy), (rx, ry)) == px * (qy - ry) + qx * (ry - py) + rx * (py
            - qy),
{
    assert((px - rx) * (qy - ry) - (qx - rx) * (py - ry) == px * (qy - ry) + qx * (ry - py) + rx * (
    py - qy)) by (nonlinear_arith);
}

proof fn lemma_flat_area(p: (int, int), q: (int, int))
    ensures
        signed_area(p, p, q) == 0,
        signed_area(p, q, p) == 0,
{
    let (px, py) = p;
    let (qx, qy) = q;
    assert((px - qx) * (py - qy) - (px - qx) * (py - qy) == 0) by (nonlinear_arith);
    assert((px - px) * (qy - py) - (qx - px) * (py - py) == 0) by (nonlinear_arith);
}

/// The shapes of the icon: the tray, the picture in it with a sun and two peaks, and
/// the rim.
pub proof fn law_icon_layers()
    ensures
        icon_layers().len() == 11,
        icon_layers()[0] == (rounded_rect(9, 18, 46, 30, 7), Color::Ink),
        icon_layers()[1] == (rounded_rect(14, 10, 36, 12, 6), Color::Ink),
        icon_layers()[2] == (rounded_rect(17, 13, 16, 4, 2), Color::Accent),
        icon_layers()[3] == (rounded_rect(26, 9, 14, 6, 3), Color::Paper),
        icon_layers()[4] == (rounded_rect(6, 22, 52, 26, 5), Color::Ink),
        icon_layers()[5] == (rounded_rect(10, 26, 44, 18, 4), Color::Paper),
        icon_layers()[6] == (Shape::Circle { x: 45, y: 34, radius: 5 }, Color::Accent),
        icon_layers()[7] == (
            Shape::Triangle { a: (12, 44), b: (26, 29), c: (40, 44) },
            Color::Peak,
        ),
        icon_layers()[8] == (
            Shape::Triangle { a: (33, 44), b: (43, 34), c: (52, 44) },
            Color::PeakDark,
        ),
        icon_layers()[9] == (rounded_rect(9, 42, 46, 6, 3), Color::Ink),
        icon_layers()[10] == (rounded_rect(10, 43, 44, 4, 2), Color::Paper),
{
}

} // verus!

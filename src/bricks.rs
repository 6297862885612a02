//! The piece catalog and the mutable piece that the engine moves around.
use vstd::prelude::*;

verus! {

/// Largest magnitude of an offset coordinate, and largest side of a board.
/// Keeping both well inside `isize` makes every coordinate sum exact.
pub const MAX_EXTENT: usize = 0x1000_0000;

/// An opaque display tag carried by pieces and locked cells.
#[derive(Clone, Copy, Debug, PartialEq, Eq, Structural)]
pub enum Color {
    Cyan,
    Yellow,
    Red,
    Green,
    Rgb(u8, u8, u8),
}

/// The closed set of piece kinds.
#[derive(Clone, Copy, Debug, PartialEq, Eq, Structural)]
pub enum BrickType {
    I,
    O,
    T,
    S,
    Z,
    L,
    J,
    Dot,
    Desk,
    Angle,
    W,
    Bean,
}

/// The offsets of a kind's cells other than the origin, "up" being positive `y`.
pub open spec fn shape(b: BrickType) -> Seq<(int, int)> {
    match b {
        BrickType::I => seq![(0, 2), (0, 1), (0, -1)],
        BrickType::O => seq![(0, 1), (1, 1), (1, 0)],
        BrickType::T => seq![(-1, 0), (0, 1), (1, 0)],
        BrickType::S => seq![(1, 0), (0, 1), (1, -1)],
        BrickType::Z => seq![(0, 1), (-1, 0), (-1, -1)],
        BrickType::L => seq![(0, 1), (0, -1), (1, -1)],
        BrickType::J => seq![(0, 1), (0, -1), (-1, -1)],
        BrickType::Dot => seq![],
        BrickType::Desk => seq![(-1, 1), (1, 1), (1, 0), (-1, 0)],
        BrickType::Angle => seq![(0, 1), (1, 0)],
        BrickType::W => seq![(0, -1), (1, 0), (-1, -1), (1, 1)],
        BrickType::Bean => seq![(0, 1)],
    }
}

/// The display tag of a kind.
pub open spec fn tint(b: BrickType) -> Color {
    match b {
        BrickType::I => Color::Cyan,
        BrickType::O => Color::Yellow,
        BrickType::T => Color::Rgb(0x64, 0x95, 0xed),
        BrickType::S => Color::Red,
        BrickType::Z => Color::Rgb(0xec, 0xc5, 0x44),
        BrickType::L => Color::Rgb(0xef, 0x6b, 0x81),
        BrickType::J => Color::Green,
        BrickType::Dot => Color::Rgb(0x80, 0x00, 0x80),
        BrickType::Desk => Color::Rgb(0x20, 0x60, 0xee),
        BrickType::Angle => Color::Rgb(0x00, 0x60, 0x40),
        BrickType::W => Color::Rgb(0x2b, 0xdd, 0x14),
        BrickType::Bean => Color::Rgb(0xe8, 0x7d, 0x0a),
    }
}

/// Every kind, in catalog order.
pub open spec fn catalog() -> Seq<BrickType> {
    seq![
        BrickType::I,
        BrickType::O,
        BrickType::T,
        BrickType::S,
        BrickType::Z,
        BrickType::L,
        BrickType::J,
        BrickType::Dot,
        BrickType::Desk,
        BrickType::Angle,
        BrickType::W,
        BrickType::Bean,
    ]
}

/// Machine pairs read as mathematical pairs.
pub open spec fn pairs(v: Seq<(isize, isize)>) -> Seq<(int, int)> {
    v.map_values(|p: (isize, isize)| (p.0 as int, p.1 as int))
}

/// A quarter turn about the origin cell.
pub open spec fn turn(p: (int, int)) -> (int, int) {
    (p.1, -p.0)
}

pub open spec fn turned(s: Seq<(int, int)>) -> Seq<(int, int)> {
    s.map_values(|p: (int, int)| turn(p))
}

/// The origin cell followed by every offset projected from `(ox, oy)`;
/// `y` is inverted since grid rows grow downwards.
pub open spec fn absolute(ox: int, oy: int, offs: Seq<(int, int)>) -> Seq<(int, int)> {
    seq![(ox, oy)] + offs.map_values(|o: (int, int)| (ox + o.0, oy - o.1))
}

pub open spec fn combine(b: (int, int, int, int), p: (int, int)) -> (int, int, int, int) {
    (
        if p.0 < b.0 { p.0 } else { b.0 },
        if p.0 > b.1 { p.0 } else { b.1 },
        if p.1 < b.2 { p.1 } else { b.2 },
        if p.1 > b.3 { p.1 } else { b.3 },
    )
}

/// `(min_x, max_x, min_y, max_y)` over the offsets; `(0, 0, 0, 0)` when there are none.
pub open spec fn bounds(s: Seq<(int, int)>) -> (int, int, int, int)
    decreases s.len(),
{
    if s.len() == 0 {
        (0, 0, 0, 0)
    } else if s.len() == 1 {
        (s[0].0, s[0].0, s[0].1, s[0].1)
    } else {
        combine(bounds(s.drop_last()), s.last())
    }
}

pub open spec fn within_extent(s: Seq<(int, int)>) -> bool {
    forall|i: int|
        0 <= i < s.len() ==> -(MAX_EXTENT as int) <= #[trigger] s[i].0 <= MAX_EXTENT as int
            && -(MAX_EXTENT as int) <= s[i].1 <= MAX_EXTENT as int
}

/// A piece: a kind, its current offsets and its display tag.
#[derive(Clone, Debug)]
pub struct Brick {
    pub brick_type: BrickType,
    pub pixels: Vec<(isize, isize)>,
    pub color: Color,
}

impl Brick {
    pub open spec fn offsets(&self) -> Seq<(int, int)> {
        pairs(self.pixels@)
    }

    /// Every offset stays within `MAX_EXTENT` of the origin on both axes.
    pub open spec fn wf(&self) -> bool {
        within_extent(self.offsets())
    }

    pub fn limits(&self) -> (r: (isize, isize, isize, isize))
        ensures
            (r.0 as int, r.1 as int, r.2 as int, r.3 as int) == bounds(self.offsets()),
    {
        let n = self.pixels.len();
        if n == 0 {
            return (0, 0, 0, 0);
        }
        let (x0, y0) = self.pixels[0];
        let mut acc: (isize, isize, isize, isize) = (x0, x0, y0, y0);
        let mut i: usize = 1;
        assert(self.offsets().take(1).drop_last() =~= Seq::<(int, int)>::empty());
        while i < n
            invariant
                n == self.pixels@.len(),
                1 <= i <= n,
                (acc.0 as int, acc.1 as int, acc.2 as int, acc.3 as int) == bounds(
                    self.offsets().take(i as int),
                ),
            decreases n - i,
        {
            let (x, y) = self.pixels[i];
            if x < acc.0 {
                acc.0 = x;
            }
            if x > acc.1 {
                acc.1 = x;
            }
            if y < acc.2 {
                acc.2 = y;
            }
            if y > acc.3 {
                acc.3 = y;
            }
            assert(self.offsets().take(i + 1).drop_last() =~= self.offsets().take(i as int));
            i += 1;
        }
        assert(self.offsets().take(n as int) =~= self.offsets());
        acc
    }

    /// The width and height of the offsets' bounding box.
    pub fn get_size(&self) -> (r: (usize, usize))
        requires
            self.wf(),
        ensures
            r.0 == bounds(self.offsets()).1 - bounds(self.offsets()).0 + 1,
            r.1 == bounds(self.offsets()).3 - bounds(self.offsets()).2 + 1,
    {
        proof {
            lemma_bounds_within(self.offsets());
        }
        let (min_x, max_x, min_y, max_y) = self.limits();
        ((max_x - min_x) as usize + 1, (max_y - min_y) as usize + 1)
    }

    /// A fresh piece of kind `b`, with its own copy of the catalog's offsets.
    pub fn new(b: BrickType) -> (r: Brick)
        ensures
            r.brick_type == b,
            r.offsets() == shape(b),
            r.color == tint(b),
            r.wf(),
    {
        let (pixels, color): (Vec<(isize, isize)>, Color) = match b {
            BrickType::I => (vec![(0, 2), (0, 1), (0, -1)], Color::Cyan),
            BrickType::O => (vec![(0, 1), (1, 1), (1, 0)], Color::Yellow),
            BrickType::T => (vec![(-1, 0), (0, 1), (1, 0)], Color::Rgb(0x64, 0x95, 0xed)),
            BrickType::S => (vec![(1, 0), (0, 1), (1, -1)], Color::Red),
            BrickType::Z => (vec![(0, 1), (-1, 0), (-1, -1)], Color::Rgb(0xec, 0xc5, 0x44)),
            BrickType::L => (vec![(0, 1), (0, -1), (1, -1)], Color::Rgb(0xef, 0x6b, 0x81)),
            BrickType::J => (vec![(0, 1), (0, -1), (-1, -1)], Color::Green),
            BrickType::Dot => (vec![], Color::Rgb(0x80, 0x00, 0x80)),
            BrickType::Desk => (
                vec![(-1, 1), (1, 1), (1, 0), (-1, 0)],
                Color::Rgb(0x20, 0x60, 0xee),
            ),
            BrickType::Angle => (vec![(0, 1), (1, 0)], Color::Rgb(0x00, 0x60, 0x40)),
            BrickType::W => (vec![(0, -1), (1, 0), (-1, -1), (1, 1)], Color::Rgb(0x2b, 0xdd, 0x14)),
            BrickType::Bean => (vec![(0, 1)], Color::Rgb(0xe8, 0x7d, 0x0a)),
        };
        let r = Brick { brick_type: b, pixels, color };
        assert(r.offsets() =~= shape(b));
        r
    }

    /// Turns every offset a quarter turn in place: `(dx, dy)` becomes `(dy, -dx)`.
    pub fn rotate(&mut self)
        requires
            old(self).wf(),
        ensures
            final(self).offsets() == turned(old(self).offsets()),
            final(self).brick_type == old(self).brick_type,
            final(self).color == old(self).color,
            final(self).wf(),
    {
        let n = self.pixels.len();
        let mut i: usize = 0;
        while i < n
            invariant
                n == self.pixels@.len(),
                n == old(self).pixels@.len(),
                0 <= i <= n,
                self.brick_type == old(self).brick_type,
                self.color == old(self).color,
                old(self).wf(),
                forall|j: int|
                    0 <= j < i ==> (#[trigger] self.pixels@[j]).0 == old(self).pixels@[j].1
                        && self.pixels@[j].1 == -old(self).pixels@[j].0,
                forall|j: int| i <= j < n ==> #[trigger] self.pixels@[j] == old(self).pixels@[j],
            decreases n - i,
        {
            let (x, y) = self.pixels[i];
            assert(old(self).offsets()[i as int] == (x as int, y as int));
            self.pixels.set(i, (y, -x));
            i += 1;
        }
        assert(self.offsets() =~= turned(old(self).offsets()));
        proof {
            lemma_turned_within(old(self).offsets());
        }
    }

    /// The piece turned a quarter, as a new value; `self` is left as it is.
    pub fn rotated(&self) -> (r: Brick)
        requires
            self.wf(),
        ensures
            r.offsets() == turned(self.offsets()),
            r.brick_type == self.brick_type,
            r.color == self.color,
            r.wf(),
    {
        let n = self.pixels.len();
        let mut pixels: Vec<(isize, isize)> = Vec::new();
        let mut i: usize = 0;
        while i < n
            invariant
                n == self.pixels@.len(),
                0 <= i <= n,
                self.wf(),
                pixels@.len() == i,
                forall|j: int|
                    0 <= j < i ==> (#[trigger] pixels@[j]).0 == self.pixels@[j].1
                        && pixels@[j].1 == -self.pixels@[j].0,
            decreases n - i,
        {
            let (x, y) = self.pixels[i];
            assert(self.offsets()[i as int] == (x as int, y as int));
            pixels.push((y, -x));
            i += 1;
        }
        assert(pairs(pixels@) =~= turned(self.offsets()));
        proof {
            lemma_turned_within(self.offsets());
        }
        Brick { brick_type: self.brick_type, pixels, color: self.color }
    }

    /// The origin cell `(offset_x, offset_y)` followed by each offset projected
    /// from it, `y` inverted.
    pub fn pixels_info(&self, offset_x: isize, offset_y: isize) -> (r: Vec<(isize, isize)>)
        requires
            forall|i: int|
                0 <= i < self.offsets().len() ==> isize::MIN <= offset_x + #[trigger] self.offsets()[i].0
                    <= isize::MAX && isize::MIN <= offset_y - self.offsets()[i].1 <= isize::MAX,
        ensures
            pairs(r@) == absolute(offset_x as int, offset_y as int, self.offsets()),
    {
        let n = self.pixels.len();
        let mut absolute_positions: Vec<(isize, isize)> = vec![(offset_x, offset_y)];
        let mut i: usize = 0;
        while i < n
            invariant
                n == self.pixels@.len(),
                0 <= i <= n,
                forall|i: int|
                    0 <= i < self.offsets().len() ==> isize::MIN <= offset_x
                        + #[trigger] self.offsets()[i].0 <= isize::MAX && isize::MIN <= offset_y
                        - self.offsets()[i].1 <= isize::MAX,
                absolute_positions@.len() == i + 1,
                absolute_positions@[0] == (offset_x, offset_y),
                forall|j: int|
                    0 <= j < i ==> (#[trigger] absolute_positions@[j + 1]).0 == offset_x
                        + self.pixels@[j].0 && absolute_positions@[j + 1].1 == offset_y
                        - self.pixels@[j].1,
            decreases n - i,
        {
            let (dx, dy) = self.pixels[i];
            assert(self.offsets()[i as int] == (dx as int, dy as int));
            absolute_positions.push((offset_x + dx, offset_y - dy));
            i += 1;
        }
        assert forall|j: int| 0 <= j < n implies absolute_positions@[j + 1].0 == offset_x
            + self.pixels@[j].0 by {}
        assert(pairs(absolute_positions@) =~= absolute(
            offset_x as int,
            offset_y as int,
            self.offsets(),
        ));
        absolute_positions
    }
}

impl BrickType {
    /// Every kind, in catalog order.
    pub fn all() -> (r: Vec<BrickType>)
        ensures
            r@ == catalog(),
    {
        let r = vec![
            BrickType::I,
            BrickType::O,
            BrickType::T,
            BrickType::S,
            BrickType::Z,
            BrickType::L,
            BrickType::J,
            BrickType::Dot,
            BrickType::Desk,
            BrickType::Angle,
            BrickType::W,
            BrickType::Bean,
        ];
        assert(r@ =~= catalog());
        r
    }
}

/// The bounding box of offsets within the extent lies within it, and is ordered.
pub proof fn lemma_bounds_within(s: Seq<(int, int)>)
    requires
        within_extent(s),
    ensures
        -(MAX_EXTENT as int) <= bounds(s).0 <= bounds(s).1 <= MAX_EXTENT as int,
        -(MAX_EXTENT as int) <= bounds(s).2 <= bounds(s).3 <= MAX_EXTENT as int,
    decreases s.len(),
{
    if s.len() > 1 {
        assert(s.drop_last()[0] == s[0]);
        lemma_bounds_within(s.drop_last());
        assert(s.last() == s[s.len() - 1]);
    } else if s.len() == 1 {
        assert(s[0] == s[0]);
    }
}

/// A quarter turn keeps offsets within the extent.
pub proof fn lemma_turned_within(s: Seq<(int, int)>)
    requires
        within_extent(s),
    ensures
        within_extent(turned(s)),
{
    assert forall|i: int| 0 <= i < turned(s).len() implies -(MAX_EXTENT as int)
        <= #[trigger] turned(s)[i].0 <= MAX_EXTENT as int && -(MAX_EXTENT as int) <= turned(s)[i].1
        <= MAX_EXTENT as int by {
        assert(turned(s)[i] == turn(s[i]));
    }
}

/// Rotating any catalog piece four times gives back its catalog offsets.
pub proof fn rotate_four_times_is_identity(kind: BrickType)
    ensures
        turned(turned(turned(turned(shape(kind))))) == shape(kind),
{
    let s = shape(kind);
    assert(turned(turned(turned(turned(s)))) =~= s);
}

} // verus!

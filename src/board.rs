//! The grid: a fixed matrix of optional occupants, row 0 at the top.
use vstd::prelude::*;
use crate::bricks::Color;

verus! {

/// One grid cell: empty, or holding the display tag of what locked there.
#[derive(Clone, Copy, Debug, PartialEq, Eq, Structural)]
pub struct Unit(pub Option<Color>);

pub open spec fn full_row(r: Seq<Unit>) -> bool {
    forall|j: int| 0 <= j < r.len() ==> (#[trigger] r[j]).0 is Some
}

pub open spec fn empty_row(w: nat) -> Seq<Unit> {
    Seq::new(w, |j: int| Unit(None))
}

/// The rows that are full, in order.
pub open spec fn full_rows(rows: Seq<Seq<Unit>>) -> Seq<Seq<Unit>> {
    rows.filter(|r: Seq<Unit>| full_row(r))
}

/// The rows that are not full, in order.
pub open spec fn kept_rows(rows: Seq<Seq<Unit>>) -> Seq<Seq<Unit>> {
    rows.filter(|r: Seq<Unit>| !full_row(r))
}

/// The grid after clearing: one empty row on top for each full row removed,
/// then the other rows in their order.
pub open spec fn cleared(rows: Seq<Seq<Unit>>, w: nat) -> Seq<Seq<Unit>> {
    Seq::new(full_rows(rows).len(), |i: int| empty_row(w)) + kept_rows(rows)
}

/// Whether `(x, y)` lies on the grid and holds an occupant.
pub open spec fn filled(rows: Seq<Seq<Unit>>, x: int, y: int) -> bool {
    &&& 0 <= y < rows.len()
    &&& 0 <= x < rows[y].len()
    &&& rows[y][x].0 is Some
}

#[derive(Clone, Debug)]
pub struct Board {
    pub center: usize,
    pub width: usize,
    pub height: usize,
    pub datas: Vec<Vec<Unit>>,
}

impl Board {
    pub open spec fn rows(&self) -> Seq<Seq<Unit>> {
        self.datas@.map_values(|r: Vec<Unit>| r@)
    }

    /// `height` rows of `width` cells each, and the spawn column in the middle.
    pub open spec fn wf(&self) -> bool {
        &&& self.datas@.len() == self.height
        &&& forall|y: int| 0 <= y < self.height ==> (#[trigger] self.datas@[y])@.len() == self.width
        &&& self.center == self.width / 2
    }

    /// An empty grid.
    pub fn new(width: usize, height: usize) -> (r: Board)
        ensures
            r.wf(),
            r.width == width,
            r.height == height,
            r.rows() == Seq::new(height as nat, |y: int| empty_row(width as nat)),
    {
        let mut datas: Vec<Vec<Unit>> = Vec::new();
        let mut i: usize = 0;
        while i < height
            invariant
                0 <= i <= height,
                datas@.len() == i,
                forall|y: int| 0 <= y < i ==> (#[trigger] datas@[y])@ == empty_row(width as nat),
            decreases height - i,
        {
            datas.push(Self::empty_line(width));
            i += 1;
        }
        let r = Self { width, height, datas, center: width / 2 };
        assert(r.rows() =~= Seq::new(height as nat, |y: int| empty_row(width as nat)));
        r
    }

    fn empty_line(width: usize) -> (r: Vec<Unit>)
        ensures
            r@ == empty_row(width as nat),
    {
        let mut line: Vec<Unit> = Vec::new();
        let mut i: usize = 0;
        while i < width
            invariant
                0 <= i <= width,
                line@ =~= empty_row(i as nat),
            decreases width - i,
        {
            line.push(Unit(None));
            i += 1;
        }
        line
    }

    /// Whether every cell of `line` is occupied.
    pub fn line_full(line: &Vec<Unit>) -> (r: bool)
        ensures
            r == full_row(line@),
    {
        let mut i: usize = 0;
        while i < line.len()
            invariant
                0 <= i <= line@.len(),
                forall|j: int| 0 <= j < i ==> (#[trigger] line@[j]).0 is Some,
            decreases line@.len() - i,
        {
            if line[i].0.is_none() {
                return false;
            }
            i += 1;
        }
        true
    }

    /// Whether row `row` is full.
    pub fn row_is_full(&self, row: usize) -> (r: bool)
        requires
            self.wf(),
            row < self.height,
        ensures
            r == full_row(self.rows()[row as int]),
    {
        Self::line_full(&self.datas[row])
    }

    /// Whether `(x, y)` is on the grid and occupied; off the grid nothing is.
    pub fn is_occupied(&self, x: isize, y: isize) -> (r: bool)
        requires
            self.wf(),
        ensures
            r == filled(self.rows(), x as int, y as int),
    {
        if x < 0 || y < 0 || y as usize >= self.height || x as usize >= self.width {
            return false;
        }
        self.datas[y as usize][x as usize].0.is_some()
    }

    /// Writes an occupant into cell `(x, y)`.
    pub fn occupy(&mut self, x: usize, y: usize, color: Color)
        requires
            old(self).wf(),
            x < old(self).width,
            y < old(self).height,
        ensures
            final(self).wf(),
            final(self).width == old(self).width,
            final(self).height == old(self).height,
            final(self).rows() == old(self).rows().update(
                y as int,
                old(self).rows()[y as int].update(x as int, Unit(Some(color))),
            ),
    {
        self.datas[y][x] = Unit(Some(color));
        assert(self.rows() =~= old(self).rows().update(
            y as int,
            old(self).rows()[y as int].update(x as int, Unit(Some(color))),
        ));
    }

    /// Removes every full row and inserts an empty row on top for each;
    /// returns how many were removed.
    pub fn clear_full_rows(&mut self) -> (r: usize)
        requires
            old(self).wf(),
        ensures
            final(self).wf(),
            final(self).width == old(self).width,
            final(self).height == old(self).height,
            final(self).center == old(self).center,
            final(self).rows() == cleared(old(self).rows(), old(self).width as nat),
            r == full_rows(old(self).rows()).len(),
    {
        let ghost pre = self.rows();
        let ghost w = self.width as nat;
        let mut count: usize = 0;
        let mut i: usize = 0;
        while i < self.height
            invariant
                self.wf(),
                self.width == old(self).width,
                self.height == old(self).height,
                self.center == old(self).center,
                w == self.width,
                pre == old(self).rows(),
                pre.len() == self.height,
                0 <= i <= self.height,
                count == full_rows(pre.take(i as int)).len(),
                self.rows() == Seq::new(count as nat, |k: int| empty_row(w)) + kept_rows(
                    pre.take(i as int),
                ) + pre.skip(i as int),
            decreases self.height - i,
        {
            proof {
                lemma_split_len(pre.take(i as int));
                lemma_take_step(pre, i as int);
                assert(self.rows()[i as int] == pre[i as int]);
            }
            if Self::line_full(&self.datas[i]) {
                let ghost mid = self.rows();
                let ghost k = kept_rows(pre.take(i as int));
                self.datas.remove(i);
                assert(self.rows() =~= mid.remove(i as int));
                assert(mid.remove(i as int) =~= Seq::new(count as nat, |k: int| empty_row(w)) + k
                    + pre.skip(i + 1));
                let line = Self::empty_line(self.width);
                let ghost mid2 = self.rows();
                self.datas.insert(0, line);
                assert(self.rows() =~= mid2.insert(0, empty_row(w)));
                count += 1;
                assert(mid2.insert(0, empty_row(w)) =~= Seq::new(count as nat, |k: int| empty_row(w))
                    + k + pre.skip(i + 1));
                assert(self.rows() =~= Seq::new(count as nat, |k: int| empty_row(w)) + kept_rows(
                    pre.take(i + 1),
                ) + pre.skip(i + 1));
            } else {
                assert(self.rows() =~= Seq::new(count as nat, |k: int| empty_row(w)) + kept_rows(
                    pre.take(i + 1),
                ) + pre.skip(i + 1));
            }
            i += 1;
        }
        assert(pre.take(i as int) =~= pre);
        assert(self.rows() =~= cleared(pre, w));
        count
    }
}

proof fn lemma_take_step(s: Seq<Seq<Unit>>, i: int)
    requires
        0 <= i < s.len(),
    ensures
        full_rows(s.take(i + 1)) == if full_row(s[i]) {
            full_rows(s.take(i)).push(s[i])
        } else {
            full_rows(s.take(i))
        },
        kept_rows(s.take(i + 1)) == if full_row(s[i]) {
            kept_rows(s.take(i))
        } else {
            kept_rows(s.take(i)).push(s[i])
        },
{
    reveal(Seq::filter);
    assert(s.take(i + 1).drop_last() =~= s.take(i));
}

proof fn lemma_split_len(s: Seq<Seq<Unit>>)
    ensures
        full_rows(s).len() + kept_rows(s).len() == s.len(),
    decreases s.len(),
{
    reveal(Seq::filter);
    if s.len() > 0 {
        lemma_split_len(s.drop_last());
    }
}

/// Clearing keeps the number of rows: as many empty rows on top as rows were
/// full, every one of which was full, then every row that was not full, in
/// its order.
pub proof fn clearing_keeps_height(rows: Seq<Seq<Unit>>, w: nat)
    ensures
        cleared(rows, w).len() == rows.len(),
        forall|i: int| 0 <= i < full_rows(rows).len() ==> #[trigger] cleared(rows, w)[i] == empty_row(w),
        forall|i: int| 0 <= i < full_rows(rows).len() ==> full_row(#[trigger] full_rows(rows)[i]),
        cleared(rows, w).skip(full_rows(rows).len() as int) == kept_rows(rows),
        forall|i: int| 0 <= i < kept_rows(rows).len() ==> !full_row(#[trigger] kept_rows(rows)[i]),
{
    lemma_split_len(rows);
    assert(cleared(rows, w).skip(full_rows(rows).len() as int) =~= kept_rows(rows));
    assert forall|i: int| 0 <= i < full_rows(rows).len() implies full_row(
        #[trigger] full_rows(rows)[i],
    ) by {
        rows.lemma_filter_pred(|r: Seq<Unit>| full_row(r), i);
    }
    assert forall|i: int| 0 <= i < kept_rows(rows).len() implies !full_row(
        #[trigger] kept_rows(rows)[i],
    ) by {
        rows.lemma_filter_pred(|r: Seq<Unit>| !full_row(r), i);
    }
}

} // verus!

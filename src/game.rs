//! The engine: spawn, movement, rotation, gravity, locking, line clearing,
//! game over and the ghost projection.
use vstd::prelude::*;
use std::collections::VecDeque;
use crate::board::{cleared, filled, full_rows, Board, Unit};
use crate::bricks::{
    absolute, pairs, shape, tint, turned, Brick, BrickType, Color, MAX_EXTENT,
};
use crate::record::{apply_clear, Record, Tally};
use rand::seq::SliceRandom;

verus! {

/// How many pieces wait in the upcoming queue.
pub const QUEUE_LEN: usize = 3;

/// Where the session stands; `Exit` is final.
#[derive(Clone, Copy, Debug, PartialEq, Eq, Structural)]
pub enum GameStatus {
    Running,
    Pause,
    Accelerative,
    Exit,
}

/// What one gravity step did.
#[derive(Clone, Copy, Debug, PartialEq, Eq, Structural)]
pub enum InGameStatus {
    GameJustOver,
    KeepDroping,
    FinishDropping,
}

/// Which sideways moves are blocked.
#[derive(Clone, Copy, Debug, PartialEq, Eq, Structural)]
pub enum ControlLimit {
    CantLeft,
    CantRight,
    CantLeftAndRight,
}

/// A discrete command for the engine.
#[derive(Clone, Copy, Debug, PartialEq, Eq, Structural)]
pub enum Signal {
    Quit,
    Rotate,
    Left,
    Right,
    Accelerate,
    Sink,
}

/// Every cell lies within the board's columns and above its floor; cells above
/// the top row are allowed.
pub open spec fn legal(b: Board, cells: Seq<(int, int)>) -> bool {
    forall|i: int|
        0 <= i < cells.len() ==> 0 <= (#[trigger] cells[i]).0 < b.width && cells[i].1 < b.height
}

/// Some cell lands on an occupied cell of the grid.
pub open spec fn overlaps(b: Board, cells: Seq<(int, int)>) -> bool {
    exists|i: int| 0 <= i < cells.len() && filled(b.rows(), (#[trigger] cells[i]).0, cells[i].1)
}

/// Some cell on the grid rests on the floor row (or below it) or on an occupied cell.
pub open spec fn lands(b: Board, cells: Seq<(int, int)>) -> bool {
    exists|i: int|
        0 <= i < cells.len() && 0 <= (#[trigger] cells[i]).1 && (cells[i].1 >= b.height - 1
            || filled(b.rows(), cells[i].0, cells[i].1 + 1))
}

/// Some cell touches the left wall or has an occupied cell on its left.
pub open spec fn blocked_left(b: Board, cells: Seq<(int, int)>) -> bool {
    exists|i: int|
        0 <= i < cells.len() && ((#[trigger] cells[i]).0 <= 0 || filled(
            b.rows(),
            cells[i].0 - 1,
            cells[i].1,
        ))
}

/// Some cell touches the right wall or has an occupied cell on its right.
pub open spec fn blocked_right(b: Board, cells: Seq<(int, int)>) -> bool {
    exists|i: int|
        0 <= i < cells.len() && ((#[trigger] cells[i]).0 >= b.width - 1 || filled(
            b.rows(),
            cells[i].0 + 1,
            cells[i].1,
        ))
}

/// Coordinates far enough inside `isize` that a step in any direction is exact.
pub open spec fn in_frame(cells: Seq<(int, int)>) -> bool {
    forall|i: int|
        0 <= i < cells.len() ==> -4 * MAX_EXTENT <= (#[trigger] cells[i]).0 <= 4 * MAX_EXTENT
            && -4 * MAX_EXTENT <= cells[i].1 <= 4 * MAX_EXTENT
}

/// A fresh copy of the catalog piece of kind `k`.
pub open spec fn fresh(b: Brick, k: BrickType) -> bool {
    &&& b.brick_type == k
    &&& b.offsets() == shape(k)
    &&& b.color == tint(k)
}

/// `after` is the piece `before` turned a quarter.
pub open spec fn quarter_turn_of(after: Option<Brick>, before: Option<Brick>) -> bool {
    match (after, before) {
        (Some(b), Some(a)) => b.offsets() == turned(a.offsets()) && b.brick_type == a.brick_type
            && b.color == a.color,
        _ => false,
    }
}

/// The grid with every on-grid cell of `cells` holding `c`.
pub open spec fn locked_rows(rows: Seq<Seq<Unit>>, cells: Seq<(int, int)>, c: Color) -> Seq<Seq<Unit>> {
    Seq::new(
        rows.len(),
        |y: int|
            Seq::new(
                rows[y].len(),
                |x: int|
                    if cells.contains((x, y)) {
                        Unit(Some(c))
                    } else {
                        rows[y][x]
                    },
            ),
    )
}

/// Every cell moved `k` rows down.
pub open spec fn shift_by(cells: Seq<(int, int)>, k: int) -> Seq<(int, int)> {
    cells.map_values(|c: (int, int)| (c.0, c.1 + k))
}

/// After a lock: the landed piece is written into the grid, full rows are
/// cleared and scored, the next queued piece becomes active at the spawn cell
/// and a fresh piece of kind `next` joins the queue; the session ends when the
/// new piece overlaps the grid.
pub open spec fn settles(pre: Tetris, post: Tetris, next: BrickType, r: InGameStatus) -> bool {
    let locked = locked_rows(pre.board.rows(), pre.cells(), pre.now_brick.unwrap().color);
    &&& post.board.width == pre.board.width
    &&& post.board.height == pre.board.height
    &&& post.board.center == pre.board.center
    &&& post.board.rows() == cleared(locked, pre.board.width as nat)
    &&& post.record@ == apply_clear(pre.record@, full_rows(locked).len())
    &&& post.now_brick == Some(pre.following_bricks@[0])
    &&& post.following_bricks@.len() == QUEUE_LEN
    &&& post.following_bricks@[0] == pre.following_bricks@[1]
    &&& post.following_bricks@[1] == pre.following_bricks@[2]
    &&& fresh(post.following_bricks@[2], next)
    &&& post.now_brick_position == (pre.board.center as isize, 0isize)
    &&& if overlaps(post.board, post.cells()) {
        post.status == GameStatus::Exit && r == InGameStatus::GameJustOver
    } else {
        post.status == pre.status && r == InGameStatus::FinishDropping
    }
}

/// The session with the active piece `dy` rows lower and `bonus` more points.
pub open spec fn dropped(pre: Tetris, dy: int, bonus: int) -> Tetris {
    Tetris {
        now_brick_position: (pre.now_brick_position.0, (pre.now_brick_position.1 + dy) as isize),
        record: Record { score: (pre.record.score + bonus) as i64, ..pre.record },
        ..pre
    }
}

/// One gravity step: nothing once the session is over; one row down while
/// the piece has not landed; a lock otherwise.
pub open spec fn tick_step(pre: Tetris, post: Tetris, next: BrickType, r: InGameStatus) -> bool {
    if pre.status == GameStatus::Exit {
        post == pre && r == InGameStatus::GameJustOver
    } else if !lands(pre.board, pre.cells()) {
        post == dropped(pre, 1, 0) && r == InGameStatus::KeepDroping
    } else {
        settles(pre, post, next, r)
    }
}

/// The session with the active piece moved `dx` columns.
pub open spec fn moved(pre: Tetris, dx: int) -> Tetris {
    Tetris {
        now_brick_position: ((pre.now_brick_position.0 + dx) as isize, pre.now_brick_position.1),
        ..pre
    }
}

/// A move left: nothing when idle or blocked on the left.
pub open spec fn left_step(pre: Tetris) -> Tetris {
    if pre.idle() || blocked_left(pre.board, pre.cells()) {
        pre
    } else {
        moved(pre, -1)
    }
}

/// A move right: nothing when idle or blocked on the right.
pub open spec fn right_step(pre: Tetris) -> Tetris {
    if pre.idle() || blocked_right(pre.board, pre.cells()) {
        pre
    } else {
        moved(pre, 1)
    }
}

/// A rotation: committed exactly when the turned piece is legal and overlaps
/// nothing; otherwise nothing changes.
pub open spec fn rotate_step(pre: Tetris, post: Tetris, r: bool) -> bool {
    &&& r == (!pre.idle() && legal(pre.board, pre.rotated_cells()) && !overlaps(
        pre.board,
        pre.rotated_cells(),
    ))
    &&& r ==> quarter_turn_of(post.now_brick, pre.now_brick)
    &&& r ==> post == (Tetris { now_brick: post.now_brick, ..pre })
    &&& !r ==> post == pre
}

/// How many rows the cells fall before they land.
pub open spec fn drop_depth(b: Board, cells: Seq<(int, int)>) -> nat
    decreases b.height - cells[0].1,
{
    if cells.len() == 0 || cells[0].1 >= b.height || lands(b, cells) {
        0
    } else {
        1 + drop_depth(b, shift_by(cells, 1))
    }
}

/// Where the cells come to rest when dropped straight down.
pub open spec fn ghost_cells(b: Board, cells: Seq<(int, int)>) -> Seq<(int, int)> {
    shift_by(cells, drop_depth(b, cells) as int)
}

/// A hard drop: nothing once the session is over; otherwise the piece falls
/// until it lands, a point for each row, and locks.
pub open spec fn sink_step(pre: Tetris, post: Tetris, next: BrickType, r: InGameStatus) -> bool {
    if pre.status == GameStatus::Exit {
        post == pre && r == InGameStatus::GameJustOver
    } else {
        let d = drop_depth(pre.board, pre.cells()) as int;
        settles(dropped(pre, d, d), post, next, r)
    }
}

/// A soft drop: nothing once the session is over; otherwise a point and one
/// gravity step.
pub open spec fn accelerate_step(pre: Tetris, post: Tetris, next: BrickType, r: InGameStatus) -> bool {
    if pre.status == GameStatus::Exit {
        post == pre && r == InGameStatus::GameJustOver
    } else {
        tick_step(dropped(pre, 0, 1), post, next, r)
    }
}

/// A start: nothing once the session is over; otherwise the session runs and
/// the first queued piece becomes active at the spawn cell, a fresh piece of
/// kind `next` joining the queue; the session ends at once if it overlaps.
pub open spec fn start_step(pre: Tetris, post: Tetris, next: BrickType) -> bool {
    if pre.status == GameStatus::Exit {
        post == pre
    } else {
        &&& post.board == pre.board
        &&& post.record == pre.record
        &&& post.now_brick == Some(pre.following_bricks@[0])
        &&& post.following_bricks@.len() == QUEUE_LEN
        &&& post.following_bricks@[0] == pre.following_bricks@[1]
        &&& post.following_bricks@[1] == pre.following_bricks@[2]
        &&& fresh(post.following_bricks@[2], next)
        &&& post.now_brick_position == (pre.board.center as isize, 0isize)
        &&& post.status == if overlaps(post.board, post.cells()) {
            GameStatus::Exit
        } else {
            GameStatus::Running
        }
    }
}

/// Relies on rand's `SliceRandom::choose` with the thread-local generator:
/// `None` exactly for an empty slice, otherwise one of its elements.
#[verifier::external_body]
fn choose_kind(kinds: &Vec<BrickType>) -> (r: Option<BrickType>)
    ensures
        r is None <==> kinds@.len() == 0,
        match r {
            Some(k) => kinds@.contains(k),
            None => true,
        },
{
    kinds.as_slice().choose(&mut rand::thread_rng()).copied()
}

/// A kind drawn at random from the whole catalog.
pub fn random_kind() -> (r: BrickType)
    ensures
        crate::bricks::catalog().contains(r),
{
    let kinds = BrickType::all();
    let k = choose_kind(&kinds);
    k.unwrap()
}

/// Moves every cell one row down.
fn shift_down(poss: &mut Vec<(isize, isize)>)
    requires
        in_frame(pairs(old(poss)@)),
    ensures
        pairs(final(poss)@) == shift_by(pairs(old(poss)@), 1),
{
    let n = poss.len();
    let mut i: usize = 0;
    while i < n
        invariant
            n == poss@.len(),
            n == old(poss)@.len(),
            0 <= i <= n,
            in_frame(pairs(old(poss)@)),
            forall|j: int|
                0 <= j < i ==> (#[trigger] poss@[j]).0 == old(poss)@[j].0 && poss@[j].1
                    == old(poss)@[j].1 + 1,
            forall|j: int| i <= j < n ==> #[trigger] poss@[j] == old(poss)@[j],
        decreases n - i,
    {
        let (x, y) = poss[i];
        assert(pairs(old(poss)@)[i as int] == (x as int, y as int));
        poss.set(i, (x, y + 1));
        i += 1;
    }
    assert(pairs(poss@) =~= shift_by(pairs(old(poss)@), 1));
}

#[derive(Debug)]
pub struct Tetris {
    pub board: Board,
    pub status: GameStatus,
    pub now_brick: Option<Brick>,
    pub now_brick_position: (isize, isize),
    pub following_bricks: VecDeque<Brick>,
    pub record: Record,
}

impl Tetris {
    /// The active piece's absolute cells, origin first; none without an active piece.
    pub open spec fn cells(&self) -> Seq<(int, int)> {
        match self.now_brick {
            Some(b) => absolute(
                self.now_brick_position.0 as int,
                self.now_brick_position.1 as int,
                b.offsets(),
            ),
            None => Seq::empty(),
        }
    }

    pub open spec fn wf(&self) -> bool {
        &&& self.board.wf()
        &&& 1 <= self.board.width <= MAX_EXTENT
        &&& 1 <= self.board.height <= MAX_EXTENT
        &&& 0 <= self.now_brick_position.0 < self.board.width
        &&& 0 <= self.now_brick_position.1 < self.board.height
        &&& self.following_bricks@.len() == QUEUE_LEN
        &&& forall|i: int|
            0 <= i < QUEUE_LEN ==> fresh(
                #[trigger] self.following_bricks@[i],
                self.following_bricks@[i].brick_type,
            )
        &&& self.now_brick matches Some(b) ==> b.wf()
    }

    /// No command changes the session: it is over, or has not started.
    pub open spec fn idle(&self) -> bool {
        self.status == GameStatus::Exit || self.now_brick is None
    }

    /// The active piece's absolute cells.
    pub fn get_absolute(&self) -> (r: Vec<(isize, isize)>)
        requires
            self.wf(),
        ensures
            pairs(r@) == self.cells(),
            in_frame(pairs(r@)),
    {
        match &self.now_brick {
            Some(b) => {
                let r = b.pixels_info(self.now_brick_position.0, self.now_brick_position.1);
                proof {
                    self.lemma_cells_in_frame();
                }
                r
            },
            None => {
                let r: Vec<(isize, isize)> = Vec::new();
                assert(pairs(r@) =~= self.cells());
                r
            },
        }
    }

    proof fn lemma_cells_in_frame(&self)
        requires
            self.wf(),
        ensures
            in_frame(self.cells()),
            forall|i: int|
                0 <= i < self.cells().len() ==> self.now_brick_position.1 - MAX_EXTENT
                    <= #[trigger] self.cells()[i].1 <= self.now_brick_position.1 + MAX_EXTENT,
    {
        if let Some(b) = self.now_brick {
            let c = self.cells();
            assert forall|i: int| 0 < i < c.len() implies c[i] == (
                self.now_brick_position.0 + b.offsets()[i - 1].0,
                self.now_brick_position.1 - b.offsets()[i - 1].1,
            ) by {}
        }
    }

    /// Whether every cell of `poss` is within the columns and above the floor.
    pub fn legal_cells(&self, poss: &Vec<(isize, isize)>) -> (r: bool)
        requires
            self.board.wf(),
        ensures
            r == legal(self.board, pairs(poss@)),
    {
        let mut i: usize = 0;
        while i < poss.len()
            invariant
                0 <= i <= poss@.len(),
                forall|j: int|
                    0 <= j < i ==> 0 <= (#[trigger] pairs(poss@)[j]).0 < self.board.width
                        && pairs(poss@)[j].1 < self.board.height,
            decreases poss@.len() - i,
        {
            let (x, y) = poss[i];
            if x < 0 || x as usize >= self.board.width || (y >= 0 && y as usize >= self.board.height) {
                assert(pairs(poss@)[i as int] == (x as int, y as int));
                return false;
            }
            i += 1;
        }
        true
    }

    /// Whether some cell of `poss` is an occupied grid cell.
    pub fn overlapped_cells(&self, poss: &Vec<(isize, isize)>) -> (r: bool)
        requires
            self.board.wf(),
        ensures
            r == overlaps(self.board, pairs(poss@)),
    {
        let mut i: usize = 0;
        while i < poss.len()
            invariant
                self.board.wf(),
                0 <= i <= poss@.len(),
                forall|j: int|
                    0 <= j < i ==> !filled(
                        self.board.rows(),
                        (#[trigger] pairs(poss@)[j]).0,
                        pairs(poss@)[j].1,
                    ),
            decreases poss@.len() - i,
        {
            let (x, y) = poss[i];
            assert(pairs(poss@)[i as int] == (x as int, y as int));
            if self.board.is_occupied(x, y) {
                return true;
            }
            i += 1;
        }
        false
    }

    /// The landing test on candidate cells.
    pub fn landing_test(&self, poss: &Vec<(isize, isize)>) -> (r: bool)
        requires
            self.board.wf(),
            1 <= self.board.height <= MAX_EXTENT,
            in_frame(pairs(poss@)),
        ensures
            r == lands(self.board, pairs(poss@)),
    {
        let mut i: usize = 0;
        while i < poss.len()
            invariant
                self.board.wf(),
                1 <= self.board.height <= MAX_EXTENT,
                in_frame(pairs(poss@)),
                0 <= i <= poss@.len(),
                forall|j: int|
                    0 <= j < i ==> !(0 <= (#[trigger] pairs(poss@)[j]).1 && (pairs(poss@)[j].1
                        >= self.board.height - 1 || filled(
                        self.board.rows(),
                        pairs(poss@)[j].0,
                        pairs(poss@)[j].1 + 1,
                    ))),
            decreases poss@.len() - i,
        {
            let (x, y) = poss[i];
            assert(pairs(poss@)[i as int] == (x as int, y as int));
            if y >= 0 {
                if y as usize >= self.board.height - 1 || self.board.is_occupied(x, y + 1) {
                    return true;
                }
            }
            i += 1;
        }
        false
    }

    /// Which sideways moves the active piece cannot make.
    pub fn limited(&self) -> (r: Option<ControlLimit>)
        requires
            self.wf(),
        ensures
            r == match (blocked_left(self.board, self.cells()), blocked_right(self.board, self.cells())) {
                (true, true) => Some(ControlLimit::CantLeftAndRight),
                (true, false) => Some(ControlLimit::CantLeft),
                (false, true) => Some(ControlLimit::CantRight),
                (false, false) => None,
            },
    {
        let poss = self.get_absolute();
        let mut cant_l = false;
        let mut cant_r = false;
        let mut i: usize = 0;
        while i < poss.len()
            invariant
                self.wf(),
                in_frame(pairs(poss@)),
                pairs(poss@) == self.cells(),
                0 <= i <= poss@.len(),
                cant_l == exists|j: int|
                    0 <= j < i && ((#[trigger] pairs(poss@)[j]).0 <= 0 || filled(
                        self.board.rows(),
                        pairs(poss@)[j].0 - 1,
                        pairs(poss@)[j].1,
                    )),
                cant_r == exists|j: int|
                    0 <= j < i && ((#[trigger] pairs(poss@)[j]).0 >= self.board.width - 1
                        || filled(self.board.rows(), pairs(poss@)[j].0 + 1, pairs(poss@)[j].1)),
            decreases poss@.len() - i,
        {
            let (x, y) = poss[i];
            assert(pairs(poss@)[i as int] == (x as int, y as int));
            if x <= 0 || self.board.is_occupied(x - 1, y) {
                cant_l = true;
            }
            if (x >= 0 && x as usize >= self.board.width - 1) || self.board.is_occupied(x + 1, y) {
                cant_r = true;
            }
            i += 1;
        }
        match (cant_l, cant_r) {
            (true, true) => Some(ControlLimit::CantLeftAndRight),
            (true, false) => Some(ControlLimit::CantLeft),
            (false, true) => Some(ControlLimit::CantRight),
            (false, false) => None,
        }
    }

    /// The active piece's cells as they would be after a quarter turn.
    pub open spec fn rotated_cells(&self) -> Seq<(int, int)> {
        match self.now_brick {
            Some(b) => absolute(
                self.now_brick_position.0 as int,
                self.now_brick_position.1 as int,
                turned(b.offsets()),
            ),
            None => Seq::empty(),
        }
    }

    /// Whether the active piece is within the columns and above the floor.
    pub fn is_legal_positions(&self) -> (r: bool)
        requires
            self.wf(),
        ensures
            r == legal(self.board, self.cells()),
    {
        let poss = self.get_absolute();
        self.legal_cells(&poss)
    }

    /// Whether the active piece covers an occupied cell.
    pub fn is_overlapped(&self) -> (r: bool)
        requires
            self.wf(),
        ensures
            r == overlaps(self.board, self.cells()),
    {
        let poss = self.get_absolute();
        self.overlapped_cells(&poss)
    }

    /// Turns the active piece a quarter if the turned piece is legal and
    /// overlaps nothing; otherwise leaves everything as it was.
    pub fn try_rotate(&mut self) -> (r: bool)
        requires
            old(self).wf(),
        ensures
            final(self).wf(),
            rotate_step(*old(self), *final(self), r),
    {
        if self.status == GameStatus::Exit {
            return false;
        }
        let cand = match &self.now_brick {
            None => {
                return false;
            },
            Some(b) => b.rotated(),
        };
        let poss = cand.pixels_info(self.now_brick_position.0, self.now_brick_position.1);
        if !self.legal_cells(&poss) || self.overlapped_cells(&poss) {
            return false;
        }
        self.now_brick = Some(cand);
        true
    }

    pub fn event_rotate(&mut self)
        requires
            old(self).wf(),
        ensures
            final(self).wf(),
            exists|r: bool| rotate_step(*old(self), *final(self), r),
    {
        let r = self.try_rotate();
        assert(rotate_step(*old(self), *self, r));
    }

    /// Moves the active piece one column left unless that side is blocked.
    pub fn event_left(&mut self)
        requires
            old(self).wf(),
        ensures
            final(self).wf(),
            *final(self) == left_step(*old(self)),
    {
        if self.status == GameStatus::Exit || self.now_brick.is_none() {
            return;
        }
        match self.limited() {
            Some(ControlLimit::CantLeft) => {
                return;
            },
            Some(ControlLimit::CantLeftAndRight) => {
                return;
            },
            _ => {},
        }
        assert(self.cells()[0] == (self.now_brick_position.0 as int, self.now_brick_position.1 as int));
        self.now_brick_position.0 = self.now_brick_position.0 - 1;
    }

    /// Moves the active piece one column right unless that side is blocked.
    pub fn event_right(&mut self)
        requires
            old(self).wf(),
        ensures
            final(self).wf(),
            *final(self) == right_step(*old(self)),
    {
        if self.status == GameStatus::Exit || self.now_brick.is_none() {
            return;
        }
        match self.limited() {
            Some(ControlLimit::CantRight) => {
                return;
            },
            Some(ControlLimit::CantLeftAndRight) => {
                return;
            },
            _ => {},
        }
        assert(self.cells()[0] == (self.now_brick_position.0 as int, self.now_brick_position.1 as int));
        self.now_brick_position.0 = self.now_brick_position.0 + 1;
    }

    /// Ends the session.
    pub fn event_quit(&mut self)
        ensures
            *final(self) == (Tetris { status: GameStatus::Exit, ..*old(self) }),
    {
        self.status = GameStatus::Exit;
    }

    /// Writes every on-grid cell of `poss` into the grid with `color`.
    fn collapse(&mut self, poss: &Vec<(isize, isize)>, color: Color)
        requires
            old(self).board.wf(),
        ensures
            final(self).board.wf(),
            final(self).board.width == old(self).board.width,
            final(self).board.height == old(self).board.height,
            final(self).board.center == old(self).board.center,
            final(self).board.rows() == locked_rows(old(self).board.rows(), pairs(poss@), color),
            *final(self) == (Tetris { board: final(self).board, ..*old(self) }),
    {
        let ghost pre = self.board.rows();
        let mut i: usize = 0;
        assert(self.board.rows() =~~= locked_rows(pre, pairs(poss@).take(0), color));
        while i < poss.len()
            invariant
                self.board.wf(),
                self.board.width == old(self).board.width,
                self.board.height == old(self).board.height,
                self.board.center == old(self).board.center,
                *self == (Tetris { board: self.board, ..*old(self) }),
                pre == old(self).board.rows(),
                0 <= i <= poss@.len(),
                self.board.rows() == locked_rows(pre, pairs(poss@).take(i as int), color),
            decreases poss@.len() - i,
        {
            let (x, y) = poss[i];
            assert(pairs(poss@).take(i + 1) =~= pairs(poss@).take(i as int).push((x as int, y as int)));
            proof {
                lemma_lock_step(pre, pairs(poss@).take(i as int), (x as int, y as int), color);
            }
            if x >= 0 && y >= 0 && (x as usize) < self.board.width && (y as usize) < self.board.height {
                self.board.occupy(x as usize, y as usize, color);
            }
            i += 1;
        }
        assert(pairs(poss@).take(poss@.len() as int) =~= pairs(poss@));
    }

    /// Makes the next queued piece active at the spawn cell and queues a fresh
    /// piece of kind `next`; ends the session when the new piece overlaps the grid.
    fn new_small_run(&mut self, next: BrickType)
        requires
            old(self).wf(),
        ensures
            final(self).wf(),
            final(self).board == old(self).board,
            final(self).record == old(self).record,
            final(self).now_brick == Some(old(self).following_bricks@[0]),
            final(self).following_bricks@.len() == QUEUE_LEN,
            final(self).following_bricks@[0] == old(self).following_bricks@[1],
            final(self).following_bricks@[1] == old(self).following_bricks@[2],
            fresh(final(self).following_bricks@[2], next),
            final(self).now_brick_position == (old(self).board.center as isize, 0isize),
            final(self).status == if overlaps(final(self).board, final(self).cells()) {
                GameStatus::Exit
            } else {
                old(self).status
            },
    {
        let new_brick = self.following_bricks.pop_front().unwrap();
        proof {
            lemma_fresh_wf(new_brick);
        }
        self.now_brick = Some(new_brick);
        self.following_bricks.push_back(Brick::new(next));
        self.now_brick_position = (self.board.center as isize, 0);
        assert(forall|i: int|
            0 <= i < QUEUE_LEN ==> fresh(
                #[trigger] self.following_bricks@[i],
                self.following_bricks@[i].brick_type,
            ));
        if self.is_overlapped() {
            self.status = GameStatus::Exit;
        }
    }

    /// One gravity step with `next` as the kind queued if the piece locks.
    pub fn down_settle(&mut self, next: BrickType) -> (r: InGameStatus)
        requires
            old(self).wf(),
            old(self).now_brick is Some,
            old(self).record.has_room(old(self).board.height as nat, 0),
        ensures
            final(self).wf(),
            tick_step(*old(self), *final(self), next, r),
    {
        if self.status == GameStatus::Exit {
            return InGameStatus::GameJustOver;
        }
        let poss = self.get_absolute();
        if !self.landing_test(&poss) {
            assert(self.cells()[0] == (
                self.now_brick_position.0 as int,
                self.now_brick_position.1 as int,
            ));
            self.now_brick_position.1 = self.now_brick_position.1 + 1;
            return InGameStatus::KeepDroping;
        }
        let color = self.now_brick.as_ref().unwrap().color;
        self.collapse(&poss, color);
        let rows = self.board.clear_full_rows();
        proof {
            crate::board::clearing_keeps_height(
                locked_rows(old(self).board.rows(), pairs(poss@), color),
                self.board.width as nat,
            );
            lemma_full_rows_bound(locked_rows(old(self).board.rows(), pairs(poss@), color));
            crate::record::lemma_room_shrinks(
                self.record,
                self.record,
                self.board.height as nat,
                rows as nat,
                0,
                0,
            );
        }
        self.record.compute(rows);
        self.new_small_run(next);
        if self.status == GameStatus::Exit {
            InGameStatus::GameJustOver
        } else {
            InGameStatus::FinishDropping
        }
    }

    /// Where the active piece would come to rest if dropped now; reads only.
    pub fn get_shadow(&self) -> (r: Vec<(isize, isize)>)
        requires
            self.wf(),
        ensures
            pairs(r@) == ghost_cells(self.board, self.cells()),
    {
        let mut poss = self.get_absolute();
        let ghost start = self.cells();
        if poss.len() == 0 {
            assert(shift_by(start, 0) =~= start);
            return poss;
        }
        proof {
            self.lemma_cells_in_frame();
            assert(shift_by(start, 0) =~= start);
        }
        let ghost mut j: int = 0;
        while !self.landing_test(&poss)
            invariant
                self.wf(),
                start == self.cells(),
                start.len() > 0,
                start[0].1 == self.now_brick_position.1,
                forall|i: int|
                    0 <= i < start.len() ==> self.now_brick_position.1 - MAX_EXTENT
                        <= #[trigger] start[i].1 <= self.now_brick_position.1 + MAX_EXTENT,
                in_frame(start),
                0 <= j,
                self.now_brick_position.1 + j < self.board.height,
                pairs(poss@) == shift_by(start, j),
                in_frame(pairs(poss@)),
                drop_depth(self.board, start) == j + drop_depth(self.board, shift_by(start, j)),
            decreases self.board.height - (self.now_brick_position.1 + j),
        {
            let ghost cur = shift_by(start, j);
            assert(cur[0].1 == start[0].1 + j);
            assert(shift_by(cur, 1) =~= shift_by(start, j + 1));
            shift_down(&mut poss);
            proof {
                j = j + 1;
            }
            assert forall|i: int| 0 <= i < pairs(poss@).len() implies -4 * MAX_EXTENT
                <= (#[trigger] pairs(poss@)[i]).0 <= 4 * MAX_EXTENT && -4 * MAX_EXTENT
                <= pairs(poss@)[i].1 <= 4 * MAX_EXTENT by {
                assert(pairs(poss@)[i] == (start[i].0, start[i].1 + j));
            }
        }
        proof {
            assert(shift_by(start, j)[0].1 == start[0].1 + j);
        }
        poss
    }

    /// A session on an empty `w` by `h` grid, paused, with the given kinds queued.
    pub fn with_upcoming(w: usize, h: usize, upcoming: Vec<BrickType>) -> (r: Tetris)
        requires
            1 <= w <= MAX_EXTENT,
            1 <= h <= MAX_EXTENT,
            upcoming@.len() == QUEUE_LEN,
        ensures
            r.wf(),
            r.board.width == w,
            r.board.height == h,
            r.board.rows() == Seq::new(h as nat, |y: int| crate::board::empty_row(w as nat)),
            r.status == GameStatus::Pause,
            r.now_brick is None,
            r.now_brick_position == ((w / 2) as isize, 0isize),
            r.record@ == (Tally { score: 0, combo: 0, best: 0, rows: 0 }),
            forall|i: int| 0 <= i < QUEUE_LEN ==> fresh(#[trigger] r.following_bricks@[i], upcoming@[i]),
    {
        let mut q: VecDeque<Brick> = VecDeque::new();
        let mut i: usize = 0;
        while i < QUEUE_LEN
            invariant
                upcoming@.len() == QUEUE_LEN,
                0 <= i <= QUEUE_LEN,
                q@.len() == i,
                forall|j: int| 0 <= j < i ==> fresh(#[trigger] q@[j], upcoming@[j]),
            decreases QUEUE_LEN - i,
        {
            q.push_back(Brick::new(upcoming[i]));
            i += 1;
        }
        let board = Board::new(w, h);
        let c = board.center;
        Tetris {
            board,
            status: GameStatus::Pause,
            now_brick_position: (c as isize, 0),
            following_bricks: q,
            now_brick: None,
            record: Record::new(),
        }
    }

    /// A session on an empty `w` by `h` grid, paused, with random kinds queued.
    pub fn new(w: usize, h: usize) -> (r: Tetris)
        requires
            1 <= w <= MAX_EXTENT,
            1 <= h <= MAX_EXTENT,
        ensures
            r.wf(),
            r.board.width == w,
            r.board.height == h,
            r.board.rows() == Seq::new(h as nat, |y: int| crate::board::empty_row(w as nat)),
            r.status == GameStatus::Pause,
            r.now_brick is None,
            r.now_brick_position == ((w / 2) as isize, 0isize),
            r.record@ == (Tally { score: 0, combo: 0, best: 0, rows: 0 }),
    {
        let mut kinds: Vec<BrickType> = Vec::new();
        let mut i: usize = 0;
        while i < QUEUE_LEN
            invariant
                0 <= i <= QUEUE_LEN,
                kinds@.len() == i,
            decreases QUEUE_LEN - i,
        {
            kinds.push(random_kind());
            i += 1;
        }
        Self::with_upcoming(w, h, kinds)
    }

    /// Starts the session with `next` as the kind that refills the queue.
    pub fn start_with(&mut self, next: BrickType)
        requires
            old(self).wf(),
        ensures
            final(self).wf(),
            start_step(*old(self), *final(self), next),
    {
        if self.status == GameStatus::Exit {
            return;
        }
        self.status = GameStatus::Running;
        self.new_small_run(next);
    }

    /// Starts the session, refilling the queue with a random kind.
    pub fn start(&mut self)
        requires
            old(self).wf(),
        ensures
            final(self).wf(),
            exists|k: BrickType| start_step(*old(self), *final(self), k),
    {
        let k = random_kind();
        self.start_with(k);
    }

    /// One gravity step, refilling the queue with a random kind if the piece locks.
    pub fn update(&mut self)
        requires
            old(self).wf(),
            old(self).now_brick is Some,
            old(self).record.has_room(old(self).board.height as nat, 0),
        ensures
            final(self).wf(),
            exists|k: BrickType, r: InGameStatus| tick_step(*old(self), *final(self), k, r),
    {
        let k = random_kind();
        self.down_settle(k);
    }

    /// Soft drop with `next` as the kind queued if the piece locks.
    pub fn accelerate_with(&mut self, next: BrickType) -> (r: InGameStatus)
        requires
            old(self).wf(),
            old(self).now_brick is Some,
            old(self).record.has_room(old(self).board.height as nat, 1),
        ensures
            final(self).wf(),
            accelerate_step(*old(self), *final(self), next, r),
    {
        if self.status == GameStatus::Exit {
            return InGameStatus::GameJustOver;
        }
        proof {
            crate::record::lemma_rows_in_turn_grow(self.record@, 0, self.board.height as nat);
            crate::record::lemma_room_shrinks(
                self.record,
                Record { score: (self.record.score + 1) as i64, ..self.record },
                self.board.height as nat,
                self.board.height as nat,
                1,
                1,
            );
        }
        self.record.score = self.record.score + 1;
        self.down_settle(next)
    }

    /// Soft drop, refilling the queue with a random kind if the piece locks.
    pub fn accelerate(&mut self)
        requires
            old(self).wf(),
            old(self).now_brick is Some,
            old(self).record.has_room(old(self).board.height as nat, 1),
        ensures
            final(self).wf(),
            exists|k: BrickType, r: InGameStatus| accelerate_step(*old(self), *final(self), k, r),
    {
        let k = random_kind();
        self.accelerate_with(k);
    }

    /// Hard drop with `next` as the kind queued when the piece locks.
    pub fn event_sink_with(&mut self, next: BrickType) -> (r: InGameStatus)
        requires
            old(self).wf(),
            old(self).now_brick is Some,
            old(self).record.has_room(old(self).board.height as nat, old(self).board.height as int),
        ensures
            final(self).wf(),
            sink_step(*old(self), *final(self), next, r),
    {
        if self.status == GameStatus::Exit {
            return InGameStatus::GameJustOver;
        }
        let ghost start = self.cells();
        let ghost h = self.board.height as int;
        let ghost mut j: int = 0;
        proof {
            assert(shift_by(start, 0) =~= start);
            assert(dropped(*old(self), 0, 0) == *self);
        }
        loop
            invariant
                self.wf(),
                old(self).wf(),
                old(self).status != GameStatus::Exit,
                old(self).now_brick is Some,
                h == self.board.height,
                0 <= j,
                *self == dropped(*old(self), j, j),
                self.now_brick_position.1 == old(self).now_brick_position.1 + j,
                self.record.score == old(self).record.score + j,
                start == old(self).cells(),
                self.cells() == shift_by(start, j),
                drop_depth(self.board, start) == j + drop_depth(self.board, shift_by(start, j)),
                self.record.has_room(h as nat, h - j),
            ensures
                lands(self.board, self.cells()),
            decreases h - self.now_brick_position.1,
        {
            let poss = self.get_absolute();
            if self.landing_test(&poss) {
                break;
            }
            proof {
                let cur = shift_by(start, j);
                assert(cur[0] == self.cells()[0]);
                assert(shift_by(cur, 1) =~= shift_by(start, j + 1));
                crate::record::lemma_rows_in_turn_grow(self.record@, 0, h as nat);
                crate::record::lemma_room_shrinks(
                    self.record,
                    Record { score: (self.record.score + 1) as i64, ..self.record },
                    h as nat,
                    h as nat,
                    h - j,
                    1,
                );
            }
            self.now_brick_position.1 = self.now_brick_position.1 + 1;
            self.record.score = self.record.score + 1;
            proof {
                j = j + 1;
            }
            proof {
                assert(self.cells() =~= shift_by(start, j));
            }
        }
        proof {
            assert(shift_by(start, j)[0] == self.cells()[0]);
            assert(drop_depth(self.board, shift_by(start, j)) == 0);
            crate::record::lemma_room_shrinks(self.record, self.record, h as nat, h as nat, h - j, 0);
            assert(self.record == Record { score: (self.record.score + 0) as i64, ..self.record });
        }
        self.down_settle(next)
    }

    /// Hard drop, refilling the queue with a random kind when the piece locks.
    pub fn event_sink(&mut self)
        requires
            old(self).wf(),
            old(self).now_brick is Some,
            old(self).record.has_room(old(self).board.height as nat, old(self).board.height as int),
        ensures
            final(self).wf(),
            exists|k: BrickType, r: InGameStatus| sink_step(*old(self), *final(self), k, r),
    {
        let k = random_kind();
        self.event_sink_with(k);
    }

    /// Whether the ledger can take a hard drop or a soft drop of any depth on
    /// this board, the rows it may clear included.
    pub fn has_headroom(&self) -> (r: bool)
        requires
            self.wf(),
        ensures
            r == self.record.has_room(self.board.height as nat, self.board.height as int),
    {
        self.record.room_for(self.board.height, self.board.height as i64)
    }

    /// Applies one command; `next` is the kind queued if a drop locks the piece.
    pub fn apply_signal(&mut self, signal: Signal, next: BrickType)
        requires
            old(self).wf(),
            old(self).now_brick is Some,
            old(self).record.has_room(old(self).board.height as nat, old(self).board.height as int),
        ensures
            final(self).wf(),
            match signal {
                Signal::Quit => *final(self) == (Tetris { status: GameStatus::Exit, ..*old(self) }),
                Signal::Rotate => exists|r: bool| rotate_step(*old(self), *final(self), r),
                Signal::Left => *final(self) == left_step(*old(self)),
                Signal::Right => *final(self) == right_step(*old(self)),
                Signal::Accelerate => exists|r: InGameStatus|
                    accelerate_step(*old(self), *final(self), next, r),
                Signal::Sink => exists|r: InGameStatus| sink_step(*old(self), *final(self), next, r),
            },
    {
        match signal {
            Signal::Quit => self.event_quit(),
            Signal::Rotate => self.event_rotate(),
            Signal::Left => self.event_left(),
            Signal::Right => self.event_right(),
            Signal::Accelerate => {
                self.accelerate_with(next);
            },
            Signal::Sink => {
                self.event_sink_with(next);
            },
        }
    }
}

proof fn lemma_lock_step(rows: Seq<Seq<Unit>>, cells: Seq<(int, int)>, p: (int, int), c: Color)
    ensures
        locked_rows(rows, cells.push(p), c) == if 0 <= p.1 < rows.len() && 0 <= p.0 < rows[p.1].len() {
            locked_rows(rows, cells, c).update(
                p.1,
                locked_rows(rows, cells, c)[p.1].update(p.0, Unit(Some(c))),
            )
        } else {
            locked_rows(rows, cells, c)
        },
{
    assert forall|q: (int, int)| cells.push(p).contains(q) <==> (cells.contains(q) || q == p) by {
        if cells.push(p).contains(q) {
            let j = choose|j: int| 0 <= j < cells.push(p).len() && cells.push(p)[j] == q;
            if j < cells.len() {
                assert(cells[j] == q);
            }
        }
        if cells.contains(q) {
            let j = choose|j: int| 0 <= j < cells.len() && cells[j] == q;
            assert(cells.push(p)[j] == q);
        }
        if q == p {
            assert(cells.push(p)[cells.len() as int] == q);
        }
    }
    let lhs = locked_rows(rows, cells.push(p), c);
    let base = locked_rows(rows, cells, c);
    if 0 <= p.1 < rows.len() && 0 <= p.0 < rows[p.1].len() {
        let rhs = base.update(p.1, base[p.1].update(p.0, Unit(Some(c))));
        assert forall|y: int| 0 <= y < lhs.len() implies #[trigger] lhs[y] =~= rhs[y] by {
            assert forall|x: int| 0 <= x < lhs[y].len() implies #[trigger] lhs[y][x] == rhs[y][x] by {
                if y == p.1 && x == p.0 {
                    assert(cells.push(p)[cells.len() as int] == (x, y));
                    assert(cells.push(p).contains((x, y)));
                }
            }
        }
        assert(lhs =~= rhs);
    } else {
        assert(lhs =~~= base);
    }
}

proof fn lemma_full_rows_bound(rows: Seq<Seq<Unit>>)
    ensures
        full_rows(rows).len() <= rows.len(),
{
    crate::board::clearing_keeps_height(rows, 0);
}

/// A fresh catalog piece keeps its offsets within the extent.
pub proof fn lemma_fresh_wf(b: Brick)
    requires
        fresh(b, b.brick_type),
    ensures
        b.wf(),
{
    let s = b.offsets();
    assert(crate::bricks::within_extent(s)) by {
        assert forall|i: int| 0 <= i < s.len() implies -(MAX_EXTENT as int) <= #[trigger] s[i].0
            <= MAX_EXTENT as int && -(MAX_EXTENT as int) <= s[i].1 <= MAX_EXTENT as int by {
            assert(-2 <= s[i].0 <= 2 && -2 <= s[i].1 <= 2);
        }
    }
}

/// A cell in the last column blocks moving right and one in the first column
/// blocks moving left; a legal piece stays legal however far above the grid
/// it is lifted.
pub proof fn boundary_rules(b: Board, cells: Seq<(int, int)>, k: int)
    requires
        0 <= k,
    ensures
        (exists|i: int| 0 <= i < cells.len() && (#[trigger] cells[i]).0 == b.width - 1)
            ==> blocked_right(b, cells),
        (exists|i: int| 0 <= i < cells.len() && (#[trigger] cells[i]).0 == 0) ==> blocked_left(
            b,
            cells,
        ),
        legal(b, cells) ==> legal(b, shift_by(cells, -k)),
{
    if legal(b, cells) {
        assert forall|i: int| 0 <= i < shift_by(cells, -k).len() implies 0 <= (
        #[trigger] shift_by(cells, -k)[i]).0 < b.width && shift_by(cells, -k)[i].1 < b.height by {
            assert(shift_by(cells, -k)[i] == (cells[i].0, cells[i].1 - k));
        }
    }
}

/// Once the session is over no command changes it.
pub proof fn exited_session_is_frozen(
    pre: Tetris,
    post: Tetris,
    next: BrickType,
    r: InGameStatus,
    turned_ok: bool,
)
    requires
        pre.status == GameStatus::Exit,
    ensures
        left_step(pre) == pre,
        right_step(pre) == pre,
        (Tetris { status: GameStatus::Exit, ..pre }) == pre,
        rotate_step(pre, post, turned_ok) ==> post == pre,
        tick_step(pre, post, next, r) ==> post == pre,
        accelerate_step(pre, post, next, r) ==> post == pre,
        sink_step(pre, post, next, r) ==> post == pre,
        start_step(pre, post, next) ==> post == pre,
{
}

/// The ghost projection already rests: projecting it again gives the same
/// cells. As `get_shadow` only reads, two calls in a row agree.
pub proof fn ghost_projection_is_idempotent(b: Board, cells: Seq<(int, int)>)
    ensures
        ghost_cells(b, ghost_cells(b, cells)) == ghost_cells(b, cells),
    decreases b.height - cells[0].1,
{
    if cells.len() == 0 || cells[0].1 >= b.height || lands(b, cells) {
        assert(shift_by(cells, 0) =~= cells);
    } else {
        let c1 = shift_by(cells, 1);
        assert(c1[0].1 == cells[0].1 + 1);
        ghost_projection_is_idempotent(b, c1);
        assert(shift_by(c1, drop_depth(b, c1) as int) =~= shift_by(
            cells,
            drop_depth(b, cells) as int,
        ));
    }
}

/// Frames between two gravity steps: a fixed pace, or with acceleration one
/// frame quicker per thousand points down to a floor.
pub open spec fn gravity_interval(score: int, accelerate: bool) -> int {
    if !accelerate || score < 1000 {
        SLOW_FRAMES as int
    } else if score / 1000 >= (SLOW_FRAMES - FAST_FRAMES) as int {
        FAST_FRAMES as int
    } else {
        SLOW_FRAMES - score / 1000
    }
}

/// Frames between gravity steps at the start of a session.
pub const SLOW_FRAMES: u64 = 50;

/// The shortest interval that acceleration reaches.
pub const FAST_FRAMES: u64 = 10;

/// Whether the driving loop owes a gravity step on frame `counter`.
pub fn gravity_due(counter: u64, score: i64, accelerate: bool) -> (r: bool)
    ensures
        r == (counter % gravity_interval(score as int, accelerate) as u64 == 0),
{
    let interval: u64 = if !accelerate || score < 1000 {
        SLOW_FRAMES
    } else if score / 1000 >= (SLOW_FRAMES - FAST_FRAMES) as i64 {
        FAST_FRAMES
    } else {
        SLOW_FRAMES - (score / 1000) as u64
    };
    counter % interval == 0
}

} // verus!

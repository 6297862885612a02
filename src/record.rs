//! The score ledger: running score, combo streak, best combo and rows cleared.
use vstd::prelude::*;

verus! {

/// Points for a cleared row when no combo is running.
pub const BASE: i64 = 100;

/// Extra points per step of the running combo.
pub const STEP: i64 = 30;

/// The ledger as mathematical integers.
pub struct Tally {
    pub score: int,
    pub combo: int,
    pub best: int,
    pub rows: int,
}

/// One cleared row: its points depend on the combo running before it.
pub open spec fn one_row(t: Tally) -> Tally {
    Tally {
        score: t.score + BASE + t.combo * STEP,
        combo: t.combo + 1,
        best: if t.combo + 1 > t.best {
            t.combo + 1
        } else {
            t.best
        },
        rows: t.rows + 1,
    }
}

/// `n` rows cleared one after another.
pub open spec fn rows_in_turn(t: Tally, n: nat) -> Tally
    decreases n,
{
    if n == 0 {
        t
    } else {
        one_row(rows_in_turn(t, (n - 1) as nat))
    }
}

/// Points for `n` rows cleared in turn with `combo` running before the first.
pub open spec fn gain(combo: int, n: nat) -> int {
    BASE * n + STEP * (combo * n + n * (n - 1) / 2)
}

/// Clearing rows in turn, in closed form.
pub proof fn lemma_rows_in_turn_closed(t: Tally, n: nat)
    ensures
        rows_in_turn(t, n).score == t.score + gain(t.combo, n),
        rows_in_turn(t, n).combo == t.combo + n,
        rows_in_turn(t, n).rows == t.rows + n,
        n > 0 ==> rows_in_turn(t, n) == apply_clear(t, n),
    decreases n,
{
    if n > 0 {
        let m = (n - 1) as nat;
        lemma_rows_in_turn_closed(t, m);
        let c = t.combo;
        assert(n * (n - 1) == m * (m - 1) + 2 * m) by (nonlinear_arith)
            requires
                m == n - 1,
        ;
        assert((m * (m - 1) + 2 * m) / 2 == m * (m - 1) / 2 + m);
        assert(c * n == c * m + c) by (nonlinear_arith)
            requires
                m == n - 1,
        ;
    }
}

/// The ledger after a lock event that cleared `n` rows: each row scores
/// `BASE` plus `STEP` per step of the combo running before it, and raises the
/// combo by one; no rows break the combo.
pub open spec fn apply_clear(t: Tally, n: nat) -> Tally {
    if n == 0 {
        Tally { combo: 0, ..t }
    } else {
        Tally {
            score: t.score + gain(t.combo, n),
            combo: t.combo + n,
            best: if t.combo + n > t.best {
                t.combo + n
            } else {
                t.best
            },
            rows: t.rows + n,
        }
    }
}

/// The ledger after a sequence of lock events, in order.
pub open spec fn apply_all(t: Tally, counts: Seq<nat>) -> Tally
    decreases counts.len(),
{
    if counts.len() == 0 {
        t
    } else {
        apply_clear(apply_all(t, counts.drop_last()), counts.last())
    }
}

#[derive(Clone, Copy, Debug)]
pub struct Record {
    pub score: i64,
    pub combo: usize,
    pub high_combo: usize,
    pub eliminate_rows: usize,
}

impl View for Record {
    type V = Tally;

    open spec fn view(&self) -> Tally {
        Tally {
            score: self.score as int,
            combo: self.combo as int,
            best: self.high_combo as int,
            rows: self.eliminate_rows as int,
        }
    }
}

impl Record {
    /// Clearing `n` more rows in turn, with `bonus` more points besides, keeps every
    /// counter within its machine type.
    pub open spec fn has_room(&self, n: nat, bonus: int) -> bool {
        &&& self.score + gain(self.combo as int, n) + bonus <= i64::MAX
        &&& self.combo + n <= usize::MAX
        &&& self.eliminate_rows + n <= usize::MAX
        &&& BASE + STEP * (self.combo + n) <= i64::MAX
    }

    /// An empty ledger.
    pub fn new() -> (r: Record)
        ensures
            r@ == (Tally { score: 0, combo: 0, best: 0, rows: 0 }),
    {
        Self { score: 0, combo: 0, eliminate_rows: 0, high_combo: 0 }
    }

    /// Whether `has_room(n, bonus)` holds.
    pub fn room_for(&self, n: usize, bonus: i64) -> (r: bool)
        requires
            bonus >= 0,
        ensures
            r == self.has_room(n as nat, bonus as int),
    {
        proof {
            lemma_rows_in_turn_closed(self@, n as nat);
        }
        if self.combo > usize::MAX - n || self.eliminate_rows > usize::MAX - n {
            return false;
        }
        let last = self.combo + n;
        if last as u64 > ((i64::MAX - BASE) / STEP) as u64 {
            assert(BASE + STEP * last > i64::MAX) by (nonlinear_arith)
                requires
                    last > (i64::MAX - BASE) as int / STEP as int,
            ;
            return false;
        }
        assert(BASE + STEP * last <= i64::MAX) by (nonlinear_arith)
            requires
                last <= (i64::MAX - BASE) as int / STEP as int,
        ;
        let mut score: i64 = self.score;
        let mut i: usize = 0;
        while i < n
            invariant
                0 <= i <= n,
                bonus >= 0,
                last == self.combo + n,
                BASE + STEP * last <= i64::MAX,
                rows_in_turn(self@, n as nat).score == self.score + gain(self.combo as int, n as nat),
                score == rows_in_turn(self@, i as nat).score,
            decreases n - i,
        {
            proof {
                lemma_rows_in_turn_grow(self@, i as nat, i as nat);
                lemma_rows_in_turn_grow(self@, (i + 1) as nat, n as nat);
            }
            let row_points = BASE + STEP * ((self.combo + i) as i64);
            assert(rows_in_turn(self@, (i + 1) as nat).score == score + row_points);
            if score > i64::MAX - row_points {
                return false;
            }
            score = score + row_points;
            i += 1;
        }
        score <= i64::MAX - bonus
    }

    /// Records a lock event that cleared `rows_num` rows.
    pub fn compute(&mut self, rows_num: usize)
        requires
            old(self).has_room(rows_num as nat, 0),
        ensures
            final(self)@ == apply_clear(old(self)@, rows_num as nat),
    {
        if rows_num == 0 {
            self.combo = 0;
            return;
        }
        let mut i: usize = 0;
        while i < rows_num
            invariant
                0 <= i <= rows_num,
                old(self).has_room(rows_num as nat, 0),
                self@ == rows_in_turn(old(self)@, i as nat),
            decreases rows_num - i,
        {
            proof {
                lemma_rows_in_turn_grow(old(self)@, (i + 1) as nat, rows_num as nat);
                lemma_rows_in_turn_closed(old(self)@, rows_num as nat);
            }
            self.combo_once();
            i += 1;
        }
        proof {
            lemma_rows_in_turn_closed(old(self)@, rows_num as nat);
        }
    }

    /// One cleared row.
    pub fn combo_once(&mut self)
        requires
            one_row(old(self)@).score <= i64::MAX,
            one_row(old(self)@).combo <= usize::MAX,
            one_row(old(self)@).rows <= usize::MAX,
            BASE + STEP * old(self).combo <= i64::MAX,
        ensures
            final(self)@ == one_row(old(self)@),
    {
        self.score = self.score + BASE + STEP * (self.combo as i64);
        self.eliminate_rows += 1;
        self.combo += 1;
        if self.combo > self.high_combo {
            self.high_combo = self.combo;
        }
    }
}

/// Every counter of the ledger only grows while rows are cleared in turn.
pub proof fn lemma_rows_in_turn_grow(t: Tally, i: nat, n: nat)
    requires
        t.combo >= 0,
        i <= n,
    ensures
        rows_in_turn(t, i).score <= rows_in_turn(t, n).score,
        rows_in_turn(t, i).combo <= rows_in_turn(t, n).combo,
        rows_in_turn(t, i).rows <= rows_in_turn(t, n).rows,
        rows_in_turn(t, i).best <= rows_in_turn(t, n).best,
        rows_in_turn(t, n).combo == t.combo + n,
        rows_in_turn(t, n).rows == t.rows + n,
    decreases n,
{
    if n > 0 {
        if i < n {
            lemma_rows_in_turn_grow(t, i, (n - 1) as nat);
        } else {
            lemma_rows_in_turn_grow(t, (n - 1) as nat, (n - 1) as nat);
        }
        assert(rows_in_turn(t, (n - 1) as nat).combo >= 0);
    }
}

/// Room for `n` rows leaves room for fewer rows, and for a part of the bonus
/// once the rest of it is paid.
pub proof fn lemma_room_shrinks(r: Record, s: Record, n: nat, k: nat, bonus: int, paid: int)
    requires
        r.has_room(n, bonus),
        k <= n,
        0 <= paid <= bonus,
        s == (Record { score: (r.score + paid) as i64, ..r }),
        r.score + paid <= i64::MAX,
    ensures
        s.has_room(k, bonus - paid),
{
    lemma_rows_in_turn_grow(r@, k, n);
    lemma_rows_in_turn_closed(r@, k);
    lemma_rows_in_turn_closed(r@, n);
}

/// Over any sequence of lock events the best combo never goes down, and the
/// running combo is zero after an event exactly when that event cleared no row.
pub proof fn best_combo_never_decreases(r: Record, counts: Seq<nat>)
    ensures
        forall|i: int, j: int|
            0 <= i <= j <= counts.len() ==> #[trigger] apply_all(r@, counts.take(i)).best
                <= #[trigger] apply_all(r@, counts.take(j)).best,
        forall|i: int|
            0 <= i < counts.len() ==> (#[trigger] apply_all(r@, counts.take(i + 1)).combo == 0
                <==> counts[i] == 0),
{
    assert forall|i: int, j: int|
        0 <= i <= j <= counts.len() implies #[trigger] apply_all(r@, counts.take(i)).best
        <= #[trigger] apply_all(r@, counts.take(j)).best by {
        lemma_best_prefix(r@, counts, i, j);
    }
    assert forall|i: int| 0 <= i < counts.len() implies (#[trigger] apply_all(
        r@,
        counts.take(i + 1),
    ).combo == 0 <==> counts[i] == 0) by {
        lemma_apply_all_combo_nonneg(r@, counts.take(i));
        assert(counts.take(i + 1).drop_last() =~= counts.take(i));
    }
}

proof fn lemma_apply_all_combo_nonneg(t: Tally, counts: Seq<nat>)
    requires
        t.combo >= 0,
    ensures
        apply_all(t, counts).combo >= 0,
    decreases counts.len(),
{
    if counts.len() > 0 {
        lemma_apply_all_combo_nonneg(t, counts.drop_last());
    }
}

proof fn lemma_best_prefix(t: Tally, counts: Seq<nat>, i: int, j: int)
    requires
        t.combo >= 0,
        0 <= i <= j <= counts.len(),
    ensures
        apply_all(t, counts.take(i)).best <= apply_all(t, counts.take(j)).best,
    decreases j - i,
{
    if i < j {
        lemma_best_prefix(t, counts, i, j - 1);
        assert(counts.take(j).drop_last() =~= counts.take(j - 1));
        lemma_apply_all_combo_nonneg(t, counts.take(j - 1));
    }
}

} // verus!

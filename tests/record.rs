use tetris::record::Record;

#[test]
fn one_row_from_no_combo_scores_base() {
    let mut r = Record::new();
    r.compute(1);
    assert_eq!(r.score, 100);
    assert_eq!(r.combo, 1);
    assert_eq!(r.high_combo, 1);
    assert_eq!(r.eliminate_rows, 1);
}

#[test]
fn combo_grows_per_row_not_per_event() {
    let mut r = Record::new();
    r.compute(2);
    assert_eq!(r.score, 100 + 130);
    assert_eq!(r.combo, 2);
    let mut s = Record::new();
    s.compute(1);
    s.compute(2);
    assert_eq!(s.score, 100 + 130 + 160);
    assert_eq!(s.combo, 3);
    assert_eq!(s.high_combo, 3);
    assert_eq!(s.eliminate_rows, 3);
}

#[test]
fn clear_of_no_rows_resets_combo_only() {
    let mut r = Record::new();
    r.compute(3);
    let before = r;
    r.compute(0);
    assert_eq!(r.combo, 0);
    assert_eq!(r.score, before.score);
    assert_eq!(r.high_combo, 3);
    assert_eq!(r.eliminate_rows, 3);
    r.compute(1);
    assert_eq!(r.score, before.score + 100);
    assert_eq!(r.high_combo, 3);
}

#[test]
fn best_combo_never_drops_over_a_sequence() {
    let mut r = Record::new();
    let mut best = 0;
    for n in [1usize, 2, 0, 1, 0, 4, 0, 0, 2] {
        r.compute(n);
        assert!(r.high_combo >= best);
        assert_eq!(r.combo == 0, n == 0);
        best = r.high_combo;
    }
    assert_eq!(best, 4);
}

#[test]
fn room_for_detects_overflow() {
    let r = Record::new();
    assert!(r.room_for(20, 20));
    let full = Record { score: i64::MAX - 50, combo: 0, high_combo: 0, eliminate_rows: 0 };
    assert!(!full.room_for(1, 0));
    assert!(full.room_for(0, 50));
    assert!(!full.room_for(0, 51));
    let worn = Record { score: 0, combo: usize::MAX, high_combo: 0, eliminate_rows: 0 };
    assert!(!worn.room_for(1, 0));
}

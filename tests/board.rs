use tetris::board::{Board, Unit};
use tetris::bricks::Color;

fn fill_row(b: &mut Board, y: usize, color: Color) {
    for x in 0..b.width {
        b.occupy(x, y, color);
    }
}

#[test]
fn new_board_is_empty() {
    let b = Board::new(4, 3);
    assert_eq!(b.datas.len(), 3);
    assert!(b.datas.iter().all(|r| r.len() == 4 && r.iter().all(|u| *u == Unit(None))));
    assert_eq!(b.center, 2);
}

#[test]
fn occupy_and_query() {
    let mut b = Board::new(4, 3);
    b.occupy(1, 2, Color::Red);
    assert!(b.is_occupied(1, 2));
    assert!(!b.is_occupied(2, 1));
    assert!(!b.is_occupied(-1, 0));
    assert!(!b.is_occupied(0, -1));
    assert!(!b.is_occupied(4, 0));
    assert!(!b.is_occupied(0, 3));
    assert_eq!(b.datas[2][1], Unit(Some(Color::Red)));
}

#[test]
fn row_is_full_needs_every_cell() {
    let mut b = Board::new(3, 2);
    b.occupy(0, 1, Color::Green);
    b.occupy(1, 1, Color::Green);
    assert!(!b.row_is_full(1));
    b.occupy(2, 1, Color::Green);
    assert!(b.row_is_full(1));
    assert!(!b.row_is_full(0));
}

#[test]
fn clear_full_rows_counts_and_keeps_order() {
    let mut b = Board::new(3, 5);
    b.occupy(0, 0, Color::Cyan); // row 0: partial
    fill_row(&mut b, 1, Color::Red); // full
    b.occupy(1, 2, Color::Yellow); // row 2: partial
    fill_row(&mut b, 3, Color::Red); // full
    b.occupy(2, 4, Color::Green); // row 4: partial
    let k = b.clear_full_rows();
    assert_eq!(k, 2);
    assert_eq!(b.datas.len(), 5);
    assert!(b.datas[0].iter().all(|u| *u == Unit(None)));
    assert!(b.datas[1].iter().all(|u| *u == Unit(None)));
    assert_eq!(b.datas[2], vec![Unit(Some(Color::Cyan)), Unit(None), Unit(None)]);
    assert_eq!(b.datas[3], vec![Unit(None), Unit(Some(Color::Yellow)), Unit(None)]);
    assert_eq!(b.datas[4], vec![Unit(None), Unit(None), Unit(Some(Color::Green))]);
}

#[test]
fn clear_with_nothing_full_changes_nothing() {
    let mut b = Board::new(2, 2);
    b.occupy(0, 1, Color::Red);
    let before = b.datas.clone();
    assert_eq!(b.clear_full_rows(), 0);
    assert_eq!(b.datas, before);
}

#[test]
fn clear_every_row_full() {
    let mut b = Board::new(2, 3);
    for y in 0..3 {
        fill_row(&mut b, y, Color::Red);
    }
    assert_eq!(b.clear_full_rows(), 3);
    assert!(b.datas.iter().all(|r| r.iter().all(|u| *u == Unit(None))));
}

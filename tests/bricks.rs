use tetris::bricks::{Brick, BrickType, Color};

fn sorted(mut v: Vec<(isize, isize)>) -> Vec<(isize, isize)> {
    v.sort();
    v
}

#[test]
fn new_copies_catalog_offsets_and_color() {
    let b = Brick::new(BrickType::I);
    assert_eq!(b.brick_type, BrickType::I);
    assert_eq!(b.pixels, vec![(0, 2), (0, 1), (0, -1)]);
    assert_eq!(b.color, Color::Cyan);
    let t = Brick::new(BrickType::T);
    assert_eq!(t.pixels, vec![(-1, 0), (0, 1), (1, 0)]);
    assert_eq!(t.color, Color::Rgb(0x64, 0x95, 0xed));
    let d = Brick::new(BrickType::Dot);
    assert!(d.pixels.is_empty());
}

#[test]
fn rotate_turns_each_offset_a_quarter() {
    let mut b = Brick::new(BrickType::T);
    b.rotate();
    assert_eq!(b.pixels, vec![(0, 1), (1, 0), (0, -1)]);
    assert_eq!(b.brick_type, BrickType::T);
    // the catalog itself is untouched
    assert_eq!(Brick::new(BrickType::T).pixels, vec![(-1, 0), (0, 1), (1, 0)]);
}

#[test]
fn rotate_four_times_round_trip_every_kind() {
    for kind in BrickType::all() {
        let catalog_piece = Brick::new(kind);
        let mut b = Brick::new(kind);
        for _ in 0..4 {
            b.rotate();
        }
        assert_eq!(sorted(b.pixels.clone()), sorted(catalog_piece.pixels.clone()), "{:?}", kind);
        assert_eq!(b.pixels, catalog_piece.pixels);
    }
}

#[test]
fn rotated_leaves_the_piece_alone() {
    let b = Brick::new(BrickType::S);
    let r = b.rotated();
    assert_eq!(b.pixels, vec![(1, 0), (0, 1), (1, -1)]);
    assert_eq!(r.pixels, vec![(0, -1), (1, 0), (-1, -1)]);
}

#[test]
fn limits_and_size() {
    let i = Brick::new(BrickType::I);
    assert_eq!(i.limits(), (0, 0, -1, 2));
    assert_eq!(i.get_size(), (1, 4));
    let dot = Brick::new(BrickType::Dot);
    assert_eq!(dot.limits(), (0, 0, 0, 0));
    assert_eq!(dot.get_size(), (1, 1));
    let desk = Brick::new(BrickType::Desk);
    assert_eq!(desk.limits(), (-1, 1, 0, 1));
    assert_eq!(desk.get_size(), (3, 2));
}

#[test]
fn pixels_info_starts_at_origin_and_inverts_y() {
    let b = Brick::new(BrickType::L);
    assert_eq!(b.pixels_info(5, 3), vec![(5, 3), (5, 2), (5, 4), (6, 4)]);
    let dot = Brick::new(BrickType::Dot);
    assert_eq!(dot.pixels_info(-1, -7), vec![(-1, -7)]);
}

#[test]
fn all_lists_every_kind_once() {
    let all = BrickType::all();
    assert_eq!(all.len(), 12);
    assert_eq!(all[0], BrickType::I);
    assert_eq!(all[11], BrickType::Bean);
}

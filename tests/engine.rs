use tetris::board::Unit;
use tetris::bricks::{BrickType, Color};
use tetris::game::{
    gravity_due, random_kind, ControlLimit, GameStatus, InGameStatus, Signal, Tetris,
};

fn started(w: usize, h: usize, kinds: [BrickType; 4]) -> Tetris {
    let mut t = Tetris::with_upcoming(w, h, vec![kinds[0], kinds[1], kinds[2]]);
    t.start_with(kinds[3]);
    t
}

fn snapshot(t: &Tetris) -> (Vec<Vec<Unit>>, (isize, isize), Vec<(isize, isize)>, i64, usize, GameStatus) {
    (
        t.board.datas.clone(),
        t.now_brick_position,
        t.now_brick.as_ref().map(|b| b.pixels.clone()).unwrap_or_default(),
        t.record.score,
        t.record.combo,
        t.status,
    )
}

#[test]
fn new_session_is_paused_with_three_queued() {
    let t = Tetris::new(10, 20);
    assert_eq!(t.status, GameStatus::Pause);
    assert!(t.now_brick.is_none());
    assert_eq!(t.following_bricks.len(), 3);
    assert_eq!(t.now_brick_position, (5, 0));
    assert_eq!(t.board.datas.len(), 20);
    assert_eq!(t.record.score, 0);
}

#[test]
fn random_kind_is_a_catalog_kind() {
    let all = BrickType::all();
    for _ in 0..50 {
        assert!(all.contains(&random_kind()));
    }
}

#[test]
fn start_takes_the_first_queued_piece() {
    let mut t = Tetris::with_upcoming(6, 8, vec![BrickType::T, BrickType::O, BrickType::S]);
    t.start_with(BrickType::Z);
    assert_eq!(t.status, GameStatus::Running);
    assert_eq!(t.now_brick.as_ref().unwrap().brick_type, BrickType::T);
    let queued: Vec<BrickType> = t.following_bricks.iter().map(|b| b.brick_type).collect();
    assert_eq!(queued, vec![BrickType::O, BrickType::S, BrickType::Z]);
    assert_eq!(t.now_brick_position, (3, 0));
    assert_eq!(t.get_absolute(), vec![(3, 0), (2, 0), (3, -1), (4, 0)]);
}

#[test]
fn random_start_and_update_keep_queue_length() {
    let mut t = Tetris::new(10, 20);
    t.start();
    assert!(t.now_brick.is_some());
    for _ in 0..40 {
        t.update();
    }
    assert_eq!(t.following_bricks.len(), 3);
}

#[test]
fn moves_stop_at_the_walls() {
    let mut t = started(6, 8, [BrickType::T, BrickType::T, BrickType::T, BrickType::T]);
    t.event_left();
    assert_eq!(t.now_brick_position, (2, 0));
    for _ in 0..10 {
        t.event_left();
    }
    assert_eq!(t.now_brick_position, (1, 0));
    assert!(matches!(t.limited(), Some(ControlLimit::CantLeft)));
    for _ in 0..10 {
        t.event_right();
    }
    assert_eq!(t.now_brick_position, (4, 0));
    assert!(matches!(t.limited(), Some(ControlLimit::CantRight)));
}

#[test]
fn right_wall_blocks_and_cells_above_are_legal() {
    let mut t = started(4, 6, [BrickType::T, BrickType::T, BrickType::T, BrickType::T]);
    // T at (2, 0): cells (2, 0), (1, 0), (2, -1), (3, 0); x = 3 is the last column
    assert!(t.get_absolute().contains(&(3, 0)));
    assert!(matches!(t.limited(), Some(ControlLimit::CantRight)));
    assert!(t.is_legal_positions());
    assert!(t.get_absolute().iter().any(|&(_, y)| y < 0));
    assert!(!t.is_overlapped());
    t.event_right();
    assert_eq!(t.now_brick_position, (2, 0));
}

#[test]
fn narrow_board_blocks_both_sides() {
    let t = started(3, 6, [BrickType::T, BrickType::T, BrickType::T, BrickType::T]);
    assert!(matches!(t.limited(), Some(ControlLimit::CantLeftAndRight)));
}

#[test]
fn free_piece_has_no_limit() {
    let t = started(8, 6, [BrickType::O, BrickType::O, BrickType::O, BrickType::O]);
    assert!(t.limited().is_none());
}

#[test]
fn rotation_commits_when_legal() {
    let mut t = started(6, 8, [BrickType::I, BrickType::I, BrickType::I, BrickType::I]);
    assert!(t.try_rotate());
    assert_eq!(t.now_brick.as_ref().unwrap().pixels, vec![(2, 0), (1, 0), (-1, 0)]);
    assert_eq!(t.get_absolute(), vec![(3, 0), (5, 0), (4, 0), (2, 0)]);
}

#[test]
fn rotation_refused_at_the_wall_reverts() {
    let mut t = started(6, 8, [BrickType::I, BrickType::I, BrickType::I, BrickType::I]);
    for _ in 0..10 {
        t.event_right();
    }
    assert_eq!(t.now_brick_position, (5, 0));
    let before = snapshot(&t);
    assert!(!t.try_rotate());
    t.event_rotate();
    assert_eq!(snapshot(&t), before);
}

#[test]
fn rotation_refused_on_overlap() {
    let mut t = started(6, 8, [BrickType::I, BrickType::I, BrickType::I, BrickType::I]);
    t.board.occupy(5, 0, Color::Red);
    let before = snapshot(&t);
    assert!(!t.try_rotate());
    assert_eq!(snapshot(&t), before);
}

#[test]
fn gravity_step_moves_down_then_locks() {
    let mut t = started(4, 3, [BrickType::Dot, BrickType::O, BrickType::O, BrickType::O]);
    assert_eq!(t.down_settle(BrickType::I), InGameStatus::KeepDroping);
    assert_eq!(t.now_brick_position, (2, 1));
    assert_eq!(t.down_settle(BrickType::I), InGameStatus::KeepDroping);
    assert_eq!(t.now_brick_position, (2, 2));
    assert_eq!(t.down_settle(BrickType::I), InGameStatus::FinishDropping);
    assert_eq!(t.board.datas[2][2], Unit(Some(Color::Rgb(0x80, 0x00, 0x80))));
    assert_eq!(t.now_brick_position, (2, 0));
    assert_eq!(t.now_brick.as_ref().unwrap().brick_type, BrickType::O);
    let queued: Vec<BrickType> = t.following_bricks.iter().map(|b| b.brick_type).collect();
    assert_eq!(queued, vec![BrickType::O, BrickType::O, BrickType::I]);
    assert_eq!(t.record.combo, 0);
    assert_eq!(t.record.score, 0);
}

#[test]
fn ghost_projection_is_stable_and_read_only() {
    let t = started(4, 6, [BrickType::O, BrickType::O, BrickType::O, BrickType::O]);
    let before = snapshot(&t);
    let g1 = t.get_shadow();
    let g2 = t.get_shadow();
    assert_eq!(g1, g2);
    assert_eq!(g1, vec![(2, 5), (2, 4), (3, 4), (3, 5)]);
    assert_eq!(snapshot(&t), before);
}

#[test]
fn ghost_projection_rests_on_locked_cells() {
    let mut t = started(4, 6, [BrickType::Dot, BrickType::Dot, BrickType::Dot, BrickType::Dot]);
    t.board.occupy(2, 3, Color::Red);
    assert_eq!(t.get_shadow(), vec![(2, 2)]);
}

#[test]
fn hard_drop_scores_rows_fallen_and_clears() {
    let mut t = started(4, 6, [BrickType::O, BrickType::O, BrickType::O, BrickType::O]);
    assert_eq!(t.event_sink_with(BrickType::J), InGameStatus::FinishDropping);
    assert_eq!(t.record.score, 5);
    assert_eq!(t.board.datas[5][2], Unit(Some(Color::Yellow)));
    assert_eq!(t.board.datas[4][3], Unit(Some(Color::Yellow)));
    assert_eq!(t.board.datas[5][0], Unit(None));
    assert_eq!(t.now_brick_position, (2, 0));
    t.event_left();
    t.event_left();
    t.event_left();
    assert_eq!(t.now_brick_position, (0, 0));
    assert_eq!(t.event_sink_with(BrickType::J), InGameStatus::FinishDropping);
    assert_eq!(t.record.score, 5 + 5 + 100 + 130);
    assert_eq!(t.record.combo, 2);
    assert_eq!(t.record.high_combo, 2);
    assert_eq!(t.record.eliminate_rows, 2);
    assert!(t.board.datas.iter().all(|r| r.iter().all(|u| *u == Unit(None))));
    assert_eq!(t.status, GameStatus::Running);
}

#[test]
fn soft_drop_adds_a_point_and_one_step() {
    let mut t = started(4, 6, [BrickType::O, BrickType::O, BrickType::O, BrickType::O]);
    assert_eq!(t.accelerate_with(BrickType::I), InGameStatus::KeepDroping);
    assert_eq!(t.record.score, 1);
    assert_eq!(t.now_brick_position, (2, 1));
    t.accelerate();
    assert_eq!(t.record.score, 2);
    assert_eq!(t.now_brick_position, (2, 2));
}

#[test]
fn game_over_when_spawn_overlaps() {
    let mut t = started(4, 4, [BrickType::I, BrickType::I, BrickType::I, BrickType::I]);
    assert_eq!(t.status, GameStatus::Running);
    assert_eq!(t.down_settle(BrickType::I), InGameStatus::KeepDroping);
    assert_eq!(t.down_settle(BrickType::I), InGameStatus::KeepDroping);
    assert_eq!(t.down_settle(BrickType::I), InGameStatus::GameJustOver);
    assert_eq!(t.status, GameStatus::Exit);
    for y in 0..4 {
        assert_eq!(t.board.datas[y][2], Unit(Some(Color::Cyan)));
    }
    assert!(t.is_overlapped());
    // no further mutation is accepted
    let before = snapshot(&t);
    assert_eq!(t.down_settle(BrickType::O), InGameStatus::GameJustOver);
    t.event_left();
    t.event_right();
    t.event_rotate();
    assert_eq!(t.event_sink_with(BrickType::O), InGameStatus::GameJustOver);
    assert_eq!(t.accelerate_with(BrickType::O), InGameStatus::GameJustOver);
    t.start_with(BrickType::O);
    assert_eq!(snapshot(&t), before);
}

#[test]
fn game_over_after_row_zero_fills() {
    let mut t = started(4, 4, [BrickType::O, BrickType::O, BrickType::O, BrickType::O]);
    let mut outcome = InGameStatus::KeepDroping;
    let mut locks = 0;
    while outcome != InGameStatus::GameJustOver && locks < 10 {
        outcome = t.down_settle(BrickType::O);
        if outcome != InGameStatus::KeepDroping {
            locks += 1;
        }
    }
    assert_eq!(outcome, InGameStatus::GameJustOver);
    assert_eq!(t.status, GameStatus::Exit);
    assert!(t.board.datas[0][2].0.is_some());
}

#[test]
fn signals_dispatch_to_commands() {
    let mut t = started(6, 8, [BrickType::T, BrickType::T, BrickType::T, BrickType::T]);
    t.apply_signal(Signal::Left, BrickType::I);
    assert_eq!(t.now_brick_position, (2, 0));
    t.apply_signal(Signal::Right, BrickType::I);
    assert_eq!(t.now_brick_position, (3, 0));
    t.apply_signal(Signal::Accelerate, BrickType::I);
    assert_eq!(t.now_brick_position, (3, 1));
    assert_eq!(t.record.score, 1);
    t.apply_signal(Signal::Rotate, BrickType::I);
    assert_eq!(t.now_brick.as_ref().unwrap().pixels, vec![(0, 1), (1, 0), (0, -1)]);
    t.apply_signal(Signal::Sink, BrickType::I);
    assert_eq!(t.now_brick_position, (3, 0));
    assert_eq!(t.record.score, 1 + 5);
    t.apply_signal(Signal::Quit, BrickType::I);
    assert_eq!(t.status, GameStatus::Exit);
}

#[test]
fn quit_ends_the_session() {
    let mut t = started(6, 8, [BrickType::T, BrickType::T, BrickType::T, BrickType::T]);
    t.event_quit();
    assert_eq!(t.status, GameStatus::Exit);
    let before = snapshot(&t);
    t.event_left();
    assert_eq!(snapshot(&t), before);
}

#[test]
fn headroom_on_a_fresh_session() {
    let mut t = started(6, 8, [BrickType::T, BrickType::T, BrickType::T, BrickType::T]);
    assert!(t.has_headroom());
    t.record.score = i64::MAX - 3;
    assert!(!t.has_headroom());
}

#[test]
fn gravity_cadence() {
    assert!(gravity_due(0, 0, false));
    assert!(gravity_due(100, 0, false));
    assert!(!gravity_due(49, 0, false));
    assert!(gravity_due(45, 5000, true));
    assert!(!gravity_due(45, 5000, false));
    assert!(gravity_due(20, 1_000_000, true));
    assert!(!gravity_due(15, 1_000_000, true));
}

#[test]
fn default_settings() {
    let d = tetris::env::EnvConfig::default();
    assert!(d.feature_brick);
    assert!(d.accelerate);
    assert_eq!((d.width, d.height), (10, 20));
    assert_eq!(d.texture, ['#', 'H', ' ', '.']);
}

#[test]
fn board_size_limits() {
    let mut d = tetris::env::EnvConfig::default();
    assert!(d.board_fits());
    d.width = 0;
    assert!(!d.board_fits());
    d.width = 268435456;
    assert!(d.board_fits());
    d.height = 268435457;
    assert!(!d.board_fits());
}

#[test]
fn cell_predicates_on_candidates() {
    let mut t = started(4, 5, [BrickType::Dot, BrickType::Dot, BrickType::Dot, BrickType::Dot]);
    assert!(t.legal_cells(&vec![(0, -5), (3, 4)]));
    assert!(!t.legal_cells(&vec![(-1, 0)]));
    assert!(!t.legal_cells(&vec![(4, 0)]));
    assert!(!t.legal_cells(&vec![(0, 5)]));
    t.board.occupy(1, 2, Color::Green);
    assert!(t.overlapped_cells(&vec![(0, 0), (1, 2)]));
    assert!(!t.overlapped_cells(&vec![(1, -2), (0, 2)]));
    assert!(t.landing_test(&vec![(1, 1)]));
    assert!(t.landing_test(&vec![(3, 4)]));
    assert!(!t.landing_test(&vec![(3, 3), (1, -1)]));
    assert!(!t.landing_test(&vec![(1, -1)]));
}

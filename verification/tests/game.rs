use rdn::tetris::{drop_interval_for_level, FallingPiece, Piece, Tetris, BOARD_HEIGHT, BOARD_WIDTH};

fn game_with(piece: Piece, next: Piece) -> Tetris {
    let mut t = Tetris::new();
    t.current = FallingPiece::new(piece);
    t.next = next;
    t
}

#[test]
fn fresh_game() {
    let t = Tetris::new();
    assert_eq!(t.score, 0);
    assert_eq!(t.lines_cleared, 0);
    assert_eq!(t.level, 1);
    assert!(!t.game_over && !t.paused);
    assert_eq!(t.drop_interval, 800);
    assert!(t.board.iter().all(|r| r.iter().all(|&c| c == 0)));
    assert_eq!((t.current.x, t.current.y, t.current.rotation), (3, 0, 0));
    assert_eq!(BOARD_WIDTH, 10);
    assert_eq!(BOARD_HEIGHT, 20);
}

#[test]
fn drop_intervals_follow_the_speed_curve() {
    for level in 1u32..=80 {
        let ms = (800.0 * 0.85f64.powi((level - 1) as i32)) as u64;
        assert_eq!(drop_interval_for_level(level), ms.max(50), "level {}", level);
    }
}

#[test]
fn shapes_and_cells() {
    assert_eq!(FallingPiece::new(Piece::T).cells(), vec![(0, 4), (1, 3), (1, 4), (1, 5)]);
    assert_eq!(Piece::I.color_index(), 1);
    assert_eq!(Piece::L.color_index(), 7);
    let i1 = Piece::I.shape(1);
    for r in 0..4 {
        assert!(i1[r][2]);
    }
    let rotate = |g: [[bool; 4]; 4]| {
        let mut out = [[false; 4]; 4];
        for r in 0..4 {
            for c in 0..4 {
                out[c][3 - r] = g[r][c];
            }
        }
        out
    };
    for p in [Piece::I, Piece::O, Piece::T, Piece::S, Piece::Z, Piece::J, Piece::L] {
        let mut g = p.shape(0);
        for rot in 0u8..8 {
            assert_eq!(p.shape(rot), g, "{:?} rotation {}", p, rot);
            g = rotate(g);
        }
    }
    assert_eq!(Piece::S.shape(0)[0], [false, true, true, false]);
}

#[test]
fn hard_drop_scores_and_locks() {
    let mut t = game_with(Piece::I, Piece::O);
    assert_eq!(t.ghost_y(), 18);
    t.hard_drop();
    assert_eq!(t.score, 36);
    assert_eq!(t.board[19], [0, 0, 0, 1, 1, 1, 1, 0, 0, 0]);
    assert_eq!(t.current.piece, Piece::O);
    assert_eq!((t.current.x, t.current.y), (3, 0));
    assert!(!t.game_over);
}

#[test]
fn clearing_a_line_and_levelling_up() {
    let mut t = game_with(Piece::I, Piece::T);
    t.board[19] = [5, 5, 5, 0, 0, 0, 0, 5, 5, 5];
    t.board[18] = [0, 0, 2, 0, 0, 0, 0, 0, 0, 0];
    t.lines_cleared = 9;
    t.current.y = 16;
    t.hard_drop();
    assert_eq!(t.lines_cleared, 10);
    assert_eq!(t.score, 2 * 2 + 100);
    assert_eq!(t.level, 2);
    assert_eq!(t.drop_interval, 680);
    assert_eq!(t.board[19], [0, 0, 2, 0, 0, 0, 0, 0, 0, 0]);
    assert_eq!(t.board[18], [0; 10]);
}

#[test]
fn moving_and_rotating() {
    let mut t = game_with(Piece::I, Piece::O);
    for _ in 0..5 {
        t.move_left();
    }
    assert_eq!(t.current.x, 0);
    for _ in 0..10 {
        t.move_right();
    }
    assert_eq!(t.current.x, 6);
    t.current.x = 3;
    t.rotate();
    assert_eq!((t.current.rotation, t.current.x), (1, 3));
    for _ in 0..10 {
        t.move_left();
    }
    assert_eq!(t.current.x, -2);
    t.rotate();
    assert_eq!((t.current.rotation, t.current.x), (2, 0));
    assert!(t.move_down());
    assert_eq!(t.current.y, 1);
}

#[test]
fn gravity_and_pause() {
    let mut t = game_with(Piece::O, Piece::O);
    t.toggle_pause();
    assert!(t.paused);
    assert!(!t.gravity(1_000_000));
    assert_eq!(t.current.y, 0);
    t.toggle_pause();
    assert!(!t.gravity(799));
    assert!(t.gravity(800));
    assert_eq!(t.current.y, 1);
    t.tick();
    assert!(t.current.y <= 2);
}

#[test]
fn blocked_spawn_ends_the_game() {
    let mut t = game_with(Piece::I, Piece::O);
    for r in 2..BOARD_HEIGHT {
        t.board[r] = [3, 3, 3, 3, 3, 3, 3, 3, 3, 0];
    }
    t.hard_drop();
    assert!(t.game_over);
    assert_eq!(t.score, 0);
    let before = (t.current.x, t.current.y, t.score);
    t.move_left();
    t.hard_drop();
    assert!(!t.move_down());
    assert_eq!((t.current.x, t.current.y, t.score), before);
    t.restart();
    assert!(!t.game_over);
    assert_eq!(t.score, 0);
    assert!(t.board.iter().all(|r| r.iter().all(|&c| c == 0)));
}

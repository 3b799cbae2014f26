use snake_core::MATRIX_SIZE;
use snake_core::board::{Board, Tie};
use snake_core::game::{Game, GameStatus};
use snake_core::motion::{Direction, Point, request_turn, step};

fn p(x: u8, y: u8) -> Point {
    Point { x, y }
}

/// Issues one turn-and-tick that prefers moving the head one cell closer
/// to the current food, falling back to any move whose target cell is not
/// a body segment (other than the tail cell vacated by the very move).
fn step_toward_food(g: &mut Game) {
    let h = g.head();
    let f = g.food();
    let cur = g.direction();
    let want = if f.x != h.x {
        if f.x > h.x { Direction::Right } else { Direction::Left }
    } else {
        if f.y > h.y { Direction::Down } else { Direction::Up }
    };
    let tail = *g.coordinates().last().unwrap();
    let candidates = [
        want,
        Direction::Up,
        Direction::Down,
        Direction::Left,
        Direction::Right,
    ];
    for d in candidates {
        // the heading the snake will actually travel in after requesting d
        let effective = request_turn(cur, d);
        let target = step(h, effective);
        if !g.occupies(target) || target == tail {
            g.change_direction(d);
            g.update_position();
            return;
        }
    }
    panic!("no safe move available");
}

#[test]
fn request_turn_rejects_reversals() {
    assert_eq!(request_turn(Direction::Up, Direction::Down), Direction::Up);
    assert_eq!(request_turn(Direction::Down, Direction::Up), Direction::Down);
    assert_eq!(request_turn(Direction::Left, Direction::Right), Direction::Left);
    assert_eq!(request_turn(Direction::Right, Direction::Left), Direction::Right);
    assert_eq!(request_turn(Direction::Up, Direction::Up), Direction::Up);
    assert_eq!(request_turn(Direction::Left, Direction::Left), Direction::Left);
}

#[test]
fn request_turn_accepts_orthogonal_turns() {
    assert_eq!(request_turn(Direction::Up, Direction::Left), Direction::Left);
    assert_eq!(request_turn(Direction::Up, Direction::Right), Direction::Right);
    assert_eq!(request_turn(Direction::Down, Direction::Left), Direction::Left);
    assert_eq!(request_turn(Direction::Left, Direction::Up), Direction::Up);
    assert_eq!(request_turn(Direction::Left, Direction::Down), Direction::Down);
    assert_eq!(request_turn(Direction::Right, Direction::Down), Direction::Down);
}

#[test]
fn step_wraps_at_every_edge() {
    let n = (MATRIX_SIZE - 1) as u8;
    assert_eq!(step(p(0, 5), Direction::Left), p(n, 5));
    assert_eq!(step(p(n, 5), Direction::Right), p(0, 5));
    assert_eq!(step(p(7, 0), Direction::Up), p(7, n));
    assert_eq!(step(p(7, n), Direction::Down), p(7, 0));
}

#[test]
fn step_moves_one_cell_inside_the_grid() {
    assert_eq!(step(p(12, 12), Direction::Left), p(11, 12));
    assert_eq!(step(p(12, 12), Direction::Right), p(13, 12));
    assert_eq!(step(p(12, 12), Direction::Up), p(12, 11));
    assert_eq!(step(p(12, 12), Direction::Down), p(12, 13));
}

#[test]
fn new_game_initial_state() {
    let g = Game::new();
    assert_eq!(g.status(), GameStatus::Running);
    assert_eq!(g.direction(), Direction::Left);
    assert_eq!(g.head(), p(12, 12));
    assert_eq!(g.snake_size(), 3);
    assert_eq!(g.coordinates(), &vec![p(12, 12), p(13, 12), p(14, 12)]);
    assert_eq!(g.food(), p(6, 6));
    assert_eq!(g.cell_at(6, 6), Some(Tie::Food));
    assert_eq!(g.cell_at(12, 12), Some(Tie::Particle));
    assert_eq!(g.cell_at(13, 12), Some(Tie::Particle));
    assert_eq!(g.cell_at(14, 12), Some(Tie::Particle));
    assert_eq!(g.cell_at(0, 0), None);
    assert_eq!(g.cell_at(11, 12), None);
}

#[test]
fn one_tick_advances_left() {
    let mut g = Game::new();
    g.update_position();
    assert_eq!(g.head(), p(11, 12));
    assert_eq!(g.coordinates(), &vec![p(11, 12), p(12, 12), p(13, 12)]);
    assert!(!g.occupies(p(14, 12)));
    assert_eq!(g.cell_at(14, 12), None);
    assert_eq!(g.cell_at(11, 12), Some(Tie::Particle));
    assert_eq!(g.snake_size(), 3);
    assert_eq!(g.status(), GameStatus::Running);
    assert_eq!(g.food(), p(6, 6));
}

#[test]
fn tick_wraps_across_the_left_edge() {
    let mut g = Game::new();
    // walk to (0, 5) without touching the food at (6, 6): left along row
    // 12 to x = 7, up column 7 to y = 5, then left along row 5 to x = 0
    for _ in 0..5 {
        g.update_position();
    }
    assert_eq!(g.head(), p(7, 12));
    g.change_direction(Direction::Up);
    for _ in 0..7 {
        g.update_position();
    }
    assert_eq!(g.head(), p(7, 5));
    g.change_direction(Direction::Left);
    for _ in 0..7 {
        g.update_position();
    }
    assert_eq!(g.head(), p(0, 5));
    assert_eq!(g.status(), GameStatus::Running);
    g.update_position();
    assert_eq!(g.head(), p((MATRIX_SIZE - 1) as u8, 5));
    assert_eq!(g.head().y, 5);
    assert_eq!(g.status(), GameStatus::Running);
}

#[test]
fn eating_food_grows_the_snake() {
    let mut g = Game::new();
    // walk onto the food at (6, 6): left along row 12, then up column 6
    for _ in 0..6 {
        g.update_position();
    }
    assert_eq!(g.head(), p(6, 12));
    g.change_direction(Direction::Up);
    for _ in 0..5 {
        g.update_position();
    }
    assert_eq!(g.head(), p(6, 7));
    assert_eq!(g.snake_size(), 3);
    g.update_position();
    // the head landed on the food, one cell further in the direction of travel
    assert_eq!(g.head(), p(6, 6));
    assert_eq!(g.snake_size(), 4);
    assert_eq!(g.coordinates().len(), 4);
    assert_eq!(g.status(), GameStatus::Running);
    // a new food was placed on a free cell
    let f = g.food();
    assert_ne!(f, p(6, 6));
    assert!(!g.occupies(f));
    assert_eq!(g.cell_at(f.x, f.y), Some(Tie::Food));
}

#[test]
fn pause_skips_ticks_and_toggles_back() {
    let mut g = Game::new();
    g.pause();
    assert_eq!(g.status(), GameStatus::Paused);
    let before = g.coordinates().clone();
    g.update_position();
    assert_eq!(g.coordinates(), &before);
    assert_eq!(g.head(), p(12, 12));
    g.pause();
    assert_eq!(g.status(), GameStatus::Running);
    g.update_position();
    assert_eq!(g.head(), p(11, 12));
}

#[test]
fn change_direction_arbitrates_turns() {
    let mut g = Game::new();
    assert_eq!(g.direction(), Direction::Left);
    // a direct reversal is silently ignored
    g.change_direction(Direction::Right);
    assert_eq!(g.direction(), Direction::Left);
    // an orthogonal turn is accepted
    g.change_direction(Direction::Up);
    assert_eq!(g.direction(), Direction::Up);
    // now Down is the reversal and is ignored
    g.change_direction(Direction::Down);
    assert_eq!(g.direction(), Direction::Up);
}

#[test]
fn full_board_yields_no_food_spot() {
    let mut b = Board::new();
    for x in 0..MATRIX_SIZE as u8 {
        for y in 0..MATRIX_SIZE as u8 {
            b.update_board(x, y, Some(Tie::Particle));
        }
    }
    assert_eq!(b.find_empty_spot(), None);
    assert_eq!(b.generate_food(), None);
    // the board is left unchanged
    assert_eq!(b.get(0, 0), Some(Tie::Particle));
    assert_eq!(b.get(13, 20), Some(Tie::Particle));
}

#[test]
fn single_empty_cell_is_the_forced_food_spot() {
    let mut b = Board::new();
    for x in 0..MATRIX_SIZE as u8 {
        for y in 0..MATRIX_SIZE as u8 {
            if !(x == 5 && y == 7) {
                b.update_board(x, y, Some(Tie::Particle));
            }
        }
    }
    assert_eq!(b.find_empty_spot(), Some((5, 7)));
    assert_eq!(b.generate_food(), Some((5, 7)));
    assert_eq!(b.get(5, 7), Some(Tie::Food));
}

#[test]
fn food_is_placed_on_an_empty_cell() {
    let mut b = Board::new();
    // leave a handful of empty cells and check the random pick hits one
    for x in 0..MATRIX_SIZE as u8 {
        for y in 0..MATRIX_SIZE as u8 {
            if y != 3 {
                b.update_board(x, y, Some(Tie::Particle));
            }
        }
    }
    for _ in 0..20 {
        let spot = b.find_empty_spot().expect("empty cells remain");
        assert_eq!(spot.1, 3);
        assert_eq!(b.get(spot.0, spot.1), None);
    }
}

#[test]
fn self_collision_finishes_the_game() {
    let mut g = Game::new();
    // grow to six segments by walking onto the food repeatedly; a snake
    // this short cannot collide while walking straight lines
    let mut guard: u32 = 0;
    while g.snake_size() < 6 {
        step_toward_food(&mut g);
        assert_eq!(g.status(), GameStatus::Running);
        guard += 1;
        assert!(guard < 10_000, "navigation should reach the food quickly");
    }
    // three food-eats grew the three-segment snake to exactly six
    assert_eq!(g.snake_size(), 6);
    assert_eq!(g.coordinates().len(), 6);
    // now turn every tick: the head runs a two-by-two circle and must hit
    // a body segment that is not the vacated tail
    let mut finished_coordinates: Option<Vec<Point>> = None;
    let mut guard: u32 = 0;
    while g.status() != GameStatus::Finished {
        let before = g.coordinates().clone();
        let turn = match g.direction() {
            Direction::Up => Direction::Right,
            Direction::Right => Direction::Down,
            Direction::Down => Direction::Left,
            Direction::Left => Direction::Up,
        };
        g.change_direction(turn);
        g.update_position();
        if g.status() == GameStatus::Finished {
            // the colliding tick mutates neither the body nor the board
            assert_eq!(g.coordinates(), &before);
            finished_coordinates = Some(before);
        }
        guard += 1;
        assert!(guard < 10_000, "circling must end in a self-collision");
    }
    assert_eq!(g.status(), GameStatus::Finished);
    let frozen = finished_coordinates.expect("the loop ended in a collision");
    // a finished game ignores ticks and input
    g.update_position();
    assert_eq!(g.coordinates(), &frozen);
    g.pause();
    assert_eq!(g.status(), GameStatus::Finished);
    let dir = g.direction();
    g.change_direction(Direction::Up);
    g.change_direction(Direction::Left);
    assert_eq!(g.direction(), dir);
    g.update_position();
    assert_eq!(g.coordinates(), &frozen);
}

//! The simulation state and the per-tick rules: movement on the toroidal
//! grid, food consumption and growth, self-collision, pause handling and
//! the terminal conditions. One value of [`Game`] owns the board and the
//! snake together, so the two never disagree about occupancy.
use vstd::prelude::*;

use crate::MATRIX_SIZE;
use crate::board::{Board, Tie};
use crate::motion::{Direction, Point, in_range, next_point, request_turn, step, turn_allowed};

verus! {

/// The driver-visible phase of the game. `Finished` is terminal: neither
/// ticks nor input affect a finished game.
#[derive(Copy, Clone, Debug, PartialEq, Eq, Structural)]
pub enum GameStatus {
    Running,
    Paused,
    Finished,
}

/// The whole simulation state: the occupancy grid, the snake's body
/// (head first), the active heading, the current food cell and the phase.
pub struct Game {
    board: Board,
    status: GameStatus,
    direction: Direction,
    coordinates: Vec<Point>,
    snake_size: usize,
    food: Point,
}

/// The point at grid coordinates `(x, y)`.
pub open spec fn pt(x: int, y: int) -> Point {
    Point { x: x as u8, y: y as u8 }
}

impl Game {
    /// The snake's body as a sequence of cells, head first.
    pub closed spec fn segments(self) -> Seq<Point> {
        self.coordinates@
    }

    /// The driver-visible phase.
    pub closed spec fn status_spec(self) -> GameStatus {
        self.status
    }

    /// The active heading.
    pub closed spec fn direction_spec(self) -> Direction {
        self.direction
    }

    /// The recorded food cell.
    pub closed spec fn food_spec(self) -> Point {
        self.food
    }

    /// The body-length counter.
    pub closed spec fn size_spec(self) -> usize {
        self.snake_size
    }

    /// The board's recorded state at `(x, y)`.
    pub closed spec fn cell(self, x: int, y: int) -> Option<Tie> {
        self.board.cell(x, y)
    }

    /// Whether the owned board has its fixed square shape.
    pub closed spec fn board_wf(self) -> bool {
        self.board.wf()
    }

    /// The front body segment.
    pub open spec fn head_spec(self) -> Point {
        self.segments()[0]
    }

    /// The last body segment: the cell vacated on a normal move.
    pub open spec fn tail_spec(self) -> Point {
        self.segments().last()
    }

    /// Whether `p` is one of the body cells.
    pub open spec fn occupies_spec(self, p: Point) -> bool {
        self.segments().contains(p)
    }

    /// Structural consistency between the snake and the board: sizes
    /// agree, every segment and the food cell are in range, segments are
    /// pairwise distinct, and the board records exactly the body cells as
    /// particles.
    pub closed spec fn wf_core(self) -> bool {
        &&& self.board.wf()
        &&& self.coordinates@.len() == self.snake_size
        &&& self.coordinates@.len() >= 1
        &&& self.coordinates@.len() <= MATRIX_SIZE * MATRIX_SIZE
        &&& forall|i: int|
            0 <= i < self.coordinates@.len() ==> in_range(#[trigger] self.coordinates@[i])
        &&& self.coordinates@.no_duplicates()
        &&& forall|x: int, y: int|
            0 <= x < MATRIX_SIZE && 0 <= y < MATRIX_SIZE ==> ((#[trigger] self.board.cell(x, y))
                == Some(Tie::Particle) <==> self.coordinates@.contains(pt(x, y)))
        &&& in_range(self.food)
    }

    /// While the game is not finished, the board records exactly the
    /// recorded food cell as food.
    pub closed spec fn food_ok(self) -> bool {
        self.status != GameStatus::Finished ==> forall|x: int, y: int|
            0 <= x < MATRIX_SIZE && 0 <= y < MATRIX_SIZE ==> ((#[trigger] self.board.cell(x, y))
                == Some(Tie::Food) <==> pt(x, y) == self.food)
    }

    /// Full well-formedness: structural consistency plus the food cell
    /// agreement. Established by [`Game::new`] and preserved by every
    /// method of the game.
    pub open spec fn wf(self) -> bool {
        self.wf_core() && self.food_ok()
    }

    /// A fresh game: an empty board except for food at `(6, 6)`, and a
    /// three-segment snake in row 12 heading left.
    pub fn new() -> (g: Game)
        ensures
            g.wf(),
            g.status_spec() == GameStatus::Running,
            g.direction_spec() == Direction::Left,
            g.food_spec() == pt(6, 6),
            g.segments() =~= seq![pt(12, 12), pt(13, 12), pt(14, 12)],
            g.size_spec() == 3,
    {
        let mut board = Board::new();
        board.update_board(6, 6, Some(Tie::Food));
        board.update_board(12, 12, Some(Tie::Particle));
        board.update_board(13, 12, Some(Tie::Particle));
        board.update_board(14, 12, Some(Tie::Particle));
        let mut coordinates: Vec<Point> = Vec::new();
        coordinates.push(Point { x: 12, y: 12 });
        coordinates.push(Point { x: 13, y: 12 });
        coordinates.push(Point { x: 14, y: 12 });
        let g = Game {
            board,
            status: GameStatus::Running,
            direction: Direction::Left,
            coordinates,
            snake_size: 3,
            food: Point { x: 6, y: 6 },
        };
        proof {
            assert(g.coordinates@ =~= seq![pt(12, 12), pt(13, 12), pt(14, 12)]);
            assert forall|x: int, y: int| 0 <= x < MATRIX_SIZE && 0 <= y < MATRIX_SIZE implies ((
            g.board.cell(x, y)) == Some(Tie::Particle) <==> g.coordinates@.contains(
                pt(x, y),
            )) by {
                if g.coordinates@.contains(pt(x, y)) {
                    let i = choose|i: int|
                        0 <= i < g.coordinates@.len() && g.coordinates@[i] == pt(x, y);
                    assert(g.board.cell(x, y) == Some(Tie::Particle));
                } else {
                    if g.board.cell(x, y) == Some(Tie::Particle) {
                        assert(x == 12 && y == 12 || x == 13 && y == 12 || x == 14 && y == 12);
                        assert(g.coordinates@[0] == pt(12, 12));
                        assert(g.coordinates@[1] == pt(13, 12));
                        assert(g.coordinates@[2] == pt(14, 12));
                        assert(false);
                    }
                }
            }
        }
        g
    }

    /// Toggles between `Running` and `Paused`; once `Finished`, a no-op.
    pub fn pause(&mut self)
        requires
            old(self).wf(),
        ensures
            final(self).wf(),
            final(self).status_spec() == (match old(self).status_spec() {
                GameStatus::Running => GameStatus::Paused,
                GameStatus::Paused => GameStatus::Running,
                GameStatus::Finished => GameStatus::Finished,
            }),
            final(self).segments() == old(self).segments(),
            final(self).size_spec() == old(self).size_spec(),
            final(self).direction_spec() == old(self).direction_spec(),
            final(self).food_spec() == old(self).food_spec(),
            forall|x: int, y: int|
                0 <= x < MATRIX_SIZE && 0 <= y < MATRIX_SIZE ==> (#[trigger] final(self).cell(x, y))
                    == old(self).cell(x, y),
    {
        match self.status {
            GameStatus::Running => {
                self.status = GameStatus::Paused;
            },
            GameStatus::Paused => {
                self.status = GameStatus::Running;
            },
            GameStatus::Finished => {},
        }
    }

    /// Applies direction-change arbitration to one input event: an
    /// orthogonal request replaces the heading, anything else (including a
    /// direct reversal) keeps it, and a finished game ignores input.
    pub fn change_direction(&mut self, direction: Direction)
        requires
            old(self).wf(),
        ensures
            final(self).wf(),
            final(self).direction_spec() == (if old(self).status_spec() != GameStatus::Finished
                && turn_allowed(old(self).direction_spec(), direction) {
                direction
            } else {
                old(self).direction_spec()
            }),
            final(self).status_spec() == old(self).status_spec(),
            final(self).segments() == old(self).segments(),
            final(self).size_spec() == old(self).size_spec(),
            final(self).food_spec() == old(self).food_spec(),
            forall|x: int, y: int|
                0 <= x < MATRIX_SIZE && 0 <= y < MATRIX_SIZE ==> (#[trigger] final(self).cell(x, y))
                    == old(self).cell(x, y),
    {
        match self.status {
            GameStatus::Finished => {},
            _ => {
                self.direction = request_turn(self.direction, direction);
            },
        }
    }
}

/// All in-range cells of `post` agree with `pre`, except possibly `a` and
/// `b`.
pub open spec fn cells_unchanged_except(pre: Game, post: Game, a: Point, b: Point) -> bool {
    forall|x: int, y: int|
        0 <= x < MATRIX_SIZE && 0 <= y < MATRIX_SIZE && pt(x, y) != a && pt(x, y) != b ==> (
        #[trigger] post.cell(x, y)) == pre.cell(x, y)
}

/// All in-range cells agree between `pre` and `post`.
pub open spec fn cells_eq(pre: Game, post: Game) -> bool {
    forall|x: int, y: int|
        0 <= x < MATRIX_SIZE && 0 <= y < MATRIX_SIZE ==> (#[trigger] post.cell(x, y)) == pre.cell(
            x,
            y,
        )
}

/// The cell the head moves into on the next tick.
pub open spec fn target(g: Game) -> Point {
    next_point(g.head_spec(), g.direction_spec())
}

/// The next tick consumes food: the target cell holds the food item.
pub open spec fn eats(g: Game) -> bool {
    g.cell(target(g).x as int, target(g).y as int) == Some(Tie::Food)
}

/// The next tick self-collides: the target cell is a body segment other
/// than the tail cell about to be vacated.
pub open spec fn collides(g: Game) -> bool {
    g.occupies_spec(target(g)) && target(g) != g.tail_spec()
}

/// How one simulation tick relates the state `pre` before it to the state
/// `post` after it. Paused and finished games are left unchanged. Otherwise
/// the head steps one cell in the active direction, wrapping at the edges,
/// and the target cell's pre-move state decides: food grows the snake and
/// asks for a new random placement (a full board finishes the game as a
/// win); a body particle other than the tail cell being vacated finishes
/// the game with nothing mutated (self-collision); anything else advances
/// the snake, vacating the old tail cell and occupying the new head cell.
pub open spec fn tick_rel(pre: Game, post: Game) -> bool {
    if pre.status_spec() != GameStatus::Running {
        post == pre
    } else {
        let nh = target(pre);
        if eats(pre) {
            &&& post.segments() == seq![nh] + pre.segments()
            &&& post.size_spec() == pre.size_spec() + 1
            &&& post.direction_spec() == pre.direction_spec()
            &&& post.cell(nh.x as int, nh.y as int) == Some(Tie::Particle)
            &&& (if exists|x: int, y: int|
                0 <= x < MATRIX_SIZE && 0 <= y < MATRIX_SIZE && (#[trigger] pre.cell(
                    x,
                    y,
                )) is None {
                &&& post.status_spec() == GameStatus::Running
                &&& in_range(post.food_spec())
                &&& pre.cell(post.food_spec().x as int, post.food_spec().y as int) is None
                &&& post.cell(post.food_spec().x as int, post.food_spec().y as int) == Some(
                    Tie::Food,
                )
                &&& cells_unchanged_except(pre, post, nh, post.food_spec())
            } else {
                &&& post.status_spec() == GameStatus::Finished
                &&& post.food_spec() == pre.food_spec()
                &&& cells_unchanged_except(pre, post, nh, nh)
            })
        } else if collides(pre) {
            &&& post.status_spec() == GameStatus::Finished
            &&& post.segments() == pre.segments()
            &&& post.size_spec() == pre.size_spec()
            &&& post.direction_spec() == pre.direction_spec()
            &&& post.food_spec() == pre.food_spec()
            &&& cells_eq(pre, post)
        } else {
            &&& post.status_spec() == GameStatus::Running
            &&& post.segments() == seq![nh] + pre.segments().drop_last()
            &&& post.size_spec() == pre.size_spec()
            &&& post.direction_spec() == pre.direction_spec()
            &&& post.food_spec() == pre.food_spec()
            &&& post.cell(nh.x as int, nh.y as int) == Some(Tie::Particle)
            &&& (nh != pre.tail_spec() ==> post.cell(
                pre.tail_spec().x as int,
                pre.tail_spec().y as int,
            ) is None)
            &&& cells_unchanged_except(pre, post, nh, pre.tail_spec())
        }
    }
}

/// Pairwise-distinct in-range points are at most as many as the grid has
/// cells.
proof fn lemma_distinct_points_bound(s: Seq<Point>)
    requires
        forall|i: int| 0 <= i < s.len() ==> in_range(#[trigger] s[i]),
        s.no_duplicates(),
    ensures
        s.len() <= MATRIX_SIZE * MATRIX_SIZE,
{
    let size = MATRIX_SIZE as int;
    let f = |p: Point| p.x as int * size + p.y as int;
    let idx = s.map_values(f);
    assert forall|i: int, j: int|
        0 <= i < idx.len() && 0 <= j < idx.len() && i != j implies idx[i] != idx[j] by {
        let a = s[i];
        let b = s[j];
        if f(a) == f(b) {
            assert(a.x == b.x && a.y == b.y) by (nonlinear_arith)
                requires
                    a.x < size,
                    a.y < size,
                    b.x < size,
                    b.y < size,
                    a.x as int * size + a.y as int == b.x as int * size + b.y as int,
            ;
            assert(false);
        }
    }
    idx.unique_seq_to_set();
    assert forall|v: int| idx.to_set().contains(v) implies vstd::set_lib::set_int_range(
        0,
        size * size,
    ).contains(v) by {
        let k = choose|k: int| 0 <= k < idx.len() && idx[k] == v;
        let a = s[k];
        assert(0 <= v < size * size) by (nonlinear_arith)
            requires
                a.x < size,
                a.y < size,
                0 < size,
                v == a.x as int * size + a.y as int,
        ;
    }
    vstd::set_lib::lemma_int_range(0, size * size);
    vstd::set_lib::lemma_len_subset(idx.to_set(), vstd::set_lib::set_int_range(0, size * size));
}

impl Game {
    /// Normal movement, in the fixed board order: vacate the cell the tail
    /// is leaving, then prepend `new_head` and occupy its cell as a
    /// particle. The body length is unchanged. The caller has already
    /// evaluated the target cell: it holds no food and is no body cell,
    /// except possibly the tail cell vacated by this very move.
    pub fn advance(&mut self, new_head: Point)
        requires
            old(self).wf(),
            old(self).status_spec() == GameStatus::Running,
            in_range(new_head),
            !old(self).occupies_spec(new_head) || new_head == old(self).tail_spec(),
            old(self).cell(new_head.x as int, new_head.y as int) != Some(Tie::Food),
        ensures
            final(self).wf(),
            final(self).status_spec() == GameStatus::Running,
            final(self).segments() == seq![new_head] + old(self).segments().drop_last(),
            final(self).size_spec() == old(self).size_spec(),
            final(self).direction_spec() == old(self).direction_spec(),
            final(self).food_spec() == old(self).food_spec(),
            final(self).cell(new_head.x as int, new_head.y as int) == Some(Tie::Particle),
            new_head != old(self).tail_spec() ==> final(self).cell(
                old(self).tail_spec().x as int,
                old(self).tail_spec().y as int,
            ) is None,
            cells_unchanged_except(*old(self), *final(self), new_head, old(self).tail_spec()),
    {
        let ghost pre = *self;
        let tail_index = self.coordinates.len() - 1;
        let t = self.coordinates[tail_index];
        proof {
            assert(pre.segments().contains(t));
            assert(pre.cell(t.x as int, t.y as int) == Some(Tie::Particle));
        }
        // (1) vacate the cell the tail is leaving
        self.board.update_board(t.x, t.y, None);
        self.coordinates.remove(tail_index);
        self.coordinates.insert(0, new_head);
        // (3) occupy the new head cell
        self.board.update_board(new_head.x, new_head.y, Some(Tie::Particle));
        proof {
            let segs = self.coordinates@;
            let old_segs = pre.segments();
            assert(segs =~= seq![new_head] + old_segs.drop_last());
            assert forall|p: Point| old_segs.drop_last().contains(p) implies old_segs.contains(
                p,
            ) && (p != t || !old_segs.no_duplicates()) by {
                let k = choose|k: int| 0 <= k < old_segs.drop_last().len() && old_segs.drop_last()[k]
                    == p;
                assert(old_segs[k] == p);
                if p == t && old_segs.no_duplicates() {
                    assert(old_segs[old_segs.len() - 1] == t);
                    assert(false);
                }
            }
            assert forall|p: Point|
                old_segs.contains(p) && p != t implies old_segs.drop_last().contains(p) by {
                let k = choose|k: int| 0 <= k < old_segs.len() && old_segs[k] == p;
                assert(old_segs.drop_last()[k] == p);
            }
            assert(segs.no_duplicates()) by {
                assert forall|i: int, j: int|
                    0 <= i < segs.len() && 0 <= j < segs.len() && i != j implies segs[i]
                    != segs[j] by {
                    if i == 0 || j == 0 {
                        let k = if i == 0 { j } else { i };
                        if segs[k] == new_head {
                            assert(old_segs.drop_last()[k - 1] == new_head);
                            assert(old_segs.contains(new_head));
                            assert(new_head == t);
                            assert(false);
                        }
                    } else {
                        assert(old_segs[i - 1] != old_segs[j - 1]);
                    }
                }
            }
            assert forall|x: int, y: int| 0 <= x < MATRIX_SIZE && 0 <= y < MATRIX_SIZE implies ((
            #[trigger] self.board.cell(x, y)) == Some(Tie::Particle) <==> segs.contains(
                pt(x, y),
            )) by {
                let p = pt(x, y);
                if p == new_head {
                    assert(segs[0] == new_head);
                } else if p == t {
                    assert(self.board.cell(x, y) is None);
                    if segs.contains(p) {
                        let k = choose|k: int| 0 <= k < segs.len() && segs[k] == p;
                        assert(k >= 1);
                        assert(old_segs.drop_last()[k - 1] == p);
                        assert(false);
                    }
                } else {
                    assert(self.board.cell(x, y) == pre.cell(x, y));
                    if segs.contains(p) {
                        let k = choose|k: int| 0 <= k < segs.len() && segs[k] == p;
                        assert(k >= 1);
                        assert(old_segs.drop_last()[k - 1] == p);
                        assert(old_segs.contains(p));
                    }
                    if old_segs.contains(p) {
                        assert(old_segs.drop_last().contains(p));
                        let k = choose|k: int|
                            0 <= k < old_segs.drop_last().len() && old_segs.drop_last()[k] == p;
                        assert(segs[k + 1] == p);
                    }
                }
            }
            assert(self.food_ok()) by {
                assert(pre.cell(self.food.x as int, self.food.y as int) == Some(Tie::Food));
                assert(t != self.food);
                assert(new_head != self.food);
            }
        }
    }

    /// Growth on food consumption: prepends `new_head` and occupies its
    /// cell as a particle without removing the tail, so the body length
    /// increases by one. Afterwards no food remains on the board; the
    /// caller is expected to request a new placement.
    pub fn grow(&mut self, new_head: Point)
        requires
            old(self).wf(),
            old(self).status_spec() == GameStatus::Running,
            in_range(new_head),
            old(self).cell(new_head.x as int, new_head.y as int) == Some(Tie::Food),
        ensures
            final(self).wf_core(),
            final(self).status_spec() == GameStatus::Running,
            final(self).segments() == seq![new_head] + old(self).segments(),
            final(self).size_spec() == old(self).size_spec() + 1,
            final(self).direction_spec() == old(self).direction_spec(),
            final(self).food_spec() == old(self).food_spec(),
            final(self).cell(new_head.x as int, new_head.y as int) == Some(Tie::Particle),
            cells_unchanged_except(*old(self), *final(self), new_head, new_head),
            forall|x: int, y: int|
                0 <= x < MATRIX_SIZE && 0 <= y < MATRIX_SIZE ==> (#[trigger] final(self).cell(x, y))
                    != Some(Tie::Food),
    {
        let ghost pre = *self;
        proof {
            // the target holds food, so it is no body cell and the grown body
            // stays distinct and still fits on the grid
            assert(!pre.occupies_spec(new_head));
            let grown = pre.segments().push(new_head);
            assert forall|i: int| 0 <= i < grown.len() implies in_range(#[trigger] grown[i]) by {}
            assert(grown.no_duplicates()) by {
                assert forall|i: int, j: int|
                    0 <= i < grown.len() && 0 <= j < grown.len() && i != j implies grown[i]
                    != grown[j] by {
                    if i == grown.len() - 1 || j == grown.len() - 1 {
                        let k = if i == grown.len() - 1 { j } else { i };
                        if grown[k] == new_head {
                            assert(pre.segments()[k] == new_head);
                            assert(pre.segments().contains(new_head));
                            assert(false);
                        }
                    }
                }
            }
            lemma_distinct_points_bound(grown);
        }
        self.coordinates.insert(0, new_head);
        self.snake_size = self.snake_size + 1;
        self.board.update_board(new_head.x, new_head.y, Some(Tie::Particle));
        proof {
            let segs = self.coordinates@;
            let old_segs = pre.segments();
            assert(segs =~= seq![new_head] + old_segs);
            assert(segs.no_duplicates()) by {
                assert forall|i: int, j: int|
                    0 <= i < segs.len() && 0 <= j < segs.len() && i != j implies segs[i]
                    != segs[j] by {
                    if i == 0 || j == 0 {
                        let k = if i == 0 { j } else { i };
                        if segs[k] == new_head {
                            assert(old_segs[k - 1] == new_head);
                            assert(old_segs.contains(new_head));
                            assert(false);
                        }
                    } else {
                        assert(old_segs[i - 1] != old_segs[j - 1]);
                    }
                }
            }
            assert forall|x: int, y: int| 0 <= x < MATRIX_SIZE && 0 <= y < MATRIX_SIZE implies ((
            #[trigger] self.board.cell(x, y)) == Some(Tie::Particle) <==> segs.contains(
                pt(x, y),
            )) by {
                let p = pt(x, y);
                if p == new_head {
                    assert(segs[0] == new_head);
                } else {
                    assert(self.board.cell(x, y) == pre.cell(x, y));
                    if segs.contains(p) {
                        let k = choose|k: int| 0 <= k < segs.len() && segs[k] == p;
                        assert(k >= 1);
                        assert(old_segs[k - 1] == p);
                        assert(old_segs.contains(p));
                    }
                    if old_segs.contains(p) {
                        let k = choose|k: int| 0 <= k < old_segs.len() && old_segs[k] == p;
                        assert(segs[k + 1] == p);
                    }
                }
            }
            assert forall|x: int, y: int| 0 <= x < MATRIX_SIZE && 0 <= y < MATRIX_SIZE implies (
            #[trigger] self.board.cell(x, y)) != Some(Tie::Food) by {
                let p = pt(x, y);
                if p != new_head {
                    assert(self.board.cell(x, y) == pre.cell(x, y));
                    if pre.cell(x, y) == Some(Tie::Food) {
                        assert(p == pre.food);
                        assert(pre.cell(new_head.x as int, new_head.y as int) == Some(Tie::Food));
                        assert(new_head == pre.food);
                        assert(false);
                    }
                }
            }
        }
    }

    /// Requests a new random food placement and records it. When the board
    /// is completely full no placement is possible and the game finishes
    /// instead: the board-full win condition, not an error.
    pub fn generate_food(&mut self)
        requires
            old(self).wf_core(),
            old(self).status_spec() == GameStatus::Running,
            forall|x: int, y: int|
                0 <= x < MATRIX_SIZE && 0 <= y < MATRIX_SIZE ==> (#[trigger] old(self).cell(x, y))
                    != Some(Tie::Food),
        ensures
            final(self).wf(),
            final(self).segments() == old(self).segments(),
            final(self).size_spec() == old(self).size_spec(),
            final(self).direction_spec() == old(self).direction_spec(),
            (if exists|x: int, y: int|
                0 <= x < MATRIX_SIZE && 0 <= y < MATRIX_SIZE && (#[trigger] old(self).cell(
                    x,
                    y,
                )) is None {
                &&& final(self).status_spec() == GameStatus::Running
                &&& in_range(final(self).food_spec())
                &&& old(self).cell(
                    final(self).food_spec().x as int,
                    final(self).food_spec().y as int,
                ) is None
                &&& final(self).cell(
                    final(self).food_spec().x as int,
                    final(self).food_spec().y as int,
                ) == Some(Tie::Food)
                &&& cells_unchanged_except(
                    *old(self),
                    *final(self),
                    final(self).food_spec(),
                    final(self).food_spec(),
                )
            } else {
                &&& final(self).status_spec() == GameStatus::Finished
                &&& final(self).food_spec() == old(self).food_spec()
                &&& cells_eq(*old(self), *final(self))
            }),
    {
        let ghost pre = *self;
        match self.board.generate_food() {
            Some((x, y)) => {
                self.food = Point { x, y };
                proof {
                    assert(self.food_ok()) by {
                        assert forall|i: int, j: int|
                            0 <= i < MATRIX_SIZE && 0 <= j < MATRIX_SIZE implies ((
                        #[trigger] self.board.cell(i, j)) == Some(Tie::Food) <==> pt(i, j)
                            == self.food) by {
                            if pt(i, j) != self.food {
                                assert(self.board.cell(i, j) == pre.cell(i, j));
                            }
                        }
                    }
                }
            },
            None => {
                self.status = GameStatus::Finished;
            },
        }
    }

    /// Food consumption: grows the snake onto the consumed food cell, then
    /// requests a new placement; when the board is full the game finishes
    /// as a win.
    pub fn eat_food(&mut self, new_head: Point)
        requires
            old(self).wf(),
            old(self).status_spec() == GameStatus::Running,
            in_range(new_head),
            old(self).cell(new_head.x as int, new_head.y as int) == Some(Tie::Food),
        ensures
            final(self).wf(),
            final(self).segments() == seq![new_head] + old(self).segments(),
            final(self).size_spec() == old(self).size_spec() + 1,
            final(self).direction_spec() == old(self).direction_spec(),
            final(self).cell(new_head.x as int, new_head.y as int) == Some(Tie::Particle),
            (if exists|x: int, y: int|
                0 <= x < MATRIX_SIZE && 0 <= y < MATRIX_SIZE && (#[trigger] old(self).cell(
                    x,
                    y,
                )) is None {
                &&& final(self).status_spec() == GameStatus::Running
                &&& in_range(final(self).food_spec())
                &&& old(self).cell(
                    final(self).food_spec().x as int,
                    final(self).food_spec().y as int,
                ) is None
                &&& final(self).cell(
                    final(self).food_spec().x as int,
                    final(self).food_spec().y as int,
                ) == Some(Tie::Food)
                &&& cells_unchanged_except(
                    *old(self),
                    *final(self),
                    new_head,
                    final(self).food_spec(),
                )
            } else {
                &&& final(self).status_spec() == GameStatus::Finished
                &&& final(self).food_spec() == old(self).food_spec()
                &&& cells_unchanged_except(*old(self), *final(self), new_head, new_head)
            }),
    {
        let ghost pre = *self;
        self.grow(new_head);
        let ghost mid = *self;
        proof {
            // growing only turned the consumed food cell into a particle, so
            // the empty cells are exactly those of the pre-state
            assert forall|x: int, y: int|
                0 <= x < MATRIX_SIZE && 0 <= y < MATRIX_SIZE implies ((#[trigger] mid.cell(
                x,
                y,
            )) is None <==> pre.cell(x, y) is None) by {
                if pt(x, y) != new_head {
                    assert(mid.cell(x, y) == pre.cell(x, y));
                }
            }
        }
        self.generate_food();
        proof {
            if exists|x: int, y: int|
                0 <= x < MATRIX_SIZE && 0 <= y < MATRIX_SIZE && (#[trigger] pre.cell(
                    x,
                    y,
                )) is None {
                let (x, y) = choose|x: int, y: int|
                    0 <= x < MATRIX_SIZE && 0 <= y < MATRIX_SIZE && (#[trigger] pre.cell(
                        x,
                        y,
                    )) is None;
                assert(mid.cell(x, y) is None);
                assert(exists|x: int, y: int|
                    0 <= x < MATRIX_SIZE && 0 <= y < MATRIX_SIZE && (#[trigger] mid.cell(
                        x,
                        y,
                    )) is None);
                assert(pre.cell(self.food_spec().x as int, self.food_spec().y as int) is None);
                assert forall|i: int, j: int|
                    0 <= i < MATRIX_SIZE && 0 <= j < MATRIX_SIZE && pt(i, j) != new_head && pt(
                        i,
                        j,
                    ) != self.food_spec() implies (#[trigger] self.cell(i, j)) == pre.cell(
                    i,
                    j,
                ) by {
                    assert(self.cell(i, j) == mid.cell(i, j));
                    assert(mid.cell(i, j) == pre.cell(i, j));
                }
            } else {
                assert forall|x: int, y: int|
                    0 <= x < MATRIX_SIZE && 0 <= y < MATRIX_SIZE implies !((#[trigger] mid.cell(
                    x,
                    y,
                )) is None) by {
                    assert(!(pre.cell(x, y) is None));
                }
                assert forall|i: int, j: int|
                    0 <= i < MATRIX_SIZE && 0 <= j < MATRIX_SIZE && pt(i, j) != new_head implies (
                #[trigger] self.cell(i, j)) == pre.cell(i, j) by {
                    assert(self.cell(i, j) == mid.cell(i, j));
                    assert(mid.cell(i, j) == pre.cell(i, j));
                }
            }
        }
    }

    /// One simulation tick. A game that is not running is left untouched.
    /// Otherwise the head steps one cell in the active direction with
    /// wrap-around, and the board is updated in the fixed order: the tail
    /// cell is vacated (on a normal move), the target cell's pre-move state
    /// decides between growth, self-collision and plain advancement, and
    /// the new head cell is occupied. Moving into the cell the tail vacates
    /// this very tick is allowed and is not a collision.
    pub fn update_position(&mut self)
        requires
            old(self).wf(),
        ensures
            final(self).wf(),
            tick_rel(*old(self), *final(self)),
            old(self).status_spec() == GameStatus::Running && !collides(*old(self)) ==> {
                &&& final(self).head_spec() == target(*old(self))
                &&& final(self).occupies_spec(final(self).head_spec())
                &&& final(self).cell(
                    final(self).head_spec().x as int,
                    final(self).head_spec().y as int,
                ) == Some(Tie::Particle)
            },
    {
        let ghost pre = *self;
        match self.status {
            GameStatus::Running => {},
            _ => {
                return ;
            },
        }
        let head = self.coordinates[0];
        let new_head = step(head, self.direction);
        let t = self.coordinates[self.coordinates.len() - 1];
        proof {
            assert(new_head == target(pre));
            assert(t == pre.tail_spec());
            assert(pre.segments().contains(t));
        }
        match self.board.get(new_head.x, new_head.y) {
            Some(Tie::Food) => {
                self.eat_food(new_head);
                proof {
                    assert(self.segments()[0] == new_head);
                }
            },
            Some(Tie::Particle) => {
                if new_head == t {
                    // the head moves into the cell its own tail vacates
                    proof {
                        assert(!collides(pre));
                    }
                    self.advance(new_head);
                    proof {
                        assert(self.segments()[0] == new_head);
                    }
                } else {
                    proof {
                        assert(pre.occupies_spec(new_head));
                        assert(collides(pre));
                    }
                    self.status = GameStatus::Finished;
                }
            },
            None => {
                proof {
                    assert(!pre.occupies_spec(new_head));
                }
                self.advance(new_head);
                proof {
                    assert(self.segments()[0] == new_head);
                }
            },
        }
    }

    /// The current front segment.
    pub fn head(&self) -> (r: Point)
        requires
            self.wf(),
        ensures
            r == self.head_spec(),
    {
        self.coordinates[0]
    }

    /// The driver-visible phase, for the host loop to decide whether to
    /// keep ticking.
    pub fn status(&self) -> (r: GameStatus)
        ensures
            r == self.status_spec(),
    {
        self.status
    }

    /// The current food cell, for rendering.
    pub fn food(&self) -> (r: Point)
        ensures
            r == self.food_spec(),
    {
        self.food
    }

    /// The body-length counter.
    pub fn snake_size(&self) -> (r: usize)
        ensures
            r == self.size_spec(),
    {
        self.snake_size
    }

    /// The active heading.
    pub fn direction(&self) -> (r: Direction)
        ensures
            r == self.direction_spec(),
    {
        self.direction
    }

    /// The ordered body segments, head first, for rendering.
    pub fn coordinates(&self) -> (r: &Vec<Point>)
        ensures
            r@ == self.segments(),
    {
        &self.coordinates
    }

    /// Membership test used for self-collision detection: whether `p` is
    /// one of the body cells.
    pub fn occupies(&self, p: Point) -> (r: bool)
        ensures
            r == self.occupies_spec(p),
    {
        let mut i: usize = 0;
        while i < self.coordinates.len()
            invariant
                i <= self.coordinates@.len(),
                forall|k: int| 0 <= k < i ==> self.coordinates@[k] != p,
            decreases self.coordinates@.len() - i,
        {
            if self.coordinates[i] == p {
                return true;
            }
            i += 1;
        }
        false
    }

    /// Read-only query of the board cell at `(x, y)`.
    pub fn cell_at(&self, x: u8, y: u8) -> (r: Option<Tie>)
        requires
            self.wf(),
            x < MATRIX_SIZE,
            y < MATRIX_SIZE,
        ensures
            r == self.cell(x as int, y as int),
    {
        self.board.get(x, y)
    }
}

/// What well-formedness guarantees about a game, stated over the public
/// spec functions: sizes agree, segments and food are in range, segments
/// are pairwise distinct, the board records exactly the body cells as
/// particles, and — while the game is not finished — exactly the food cell
/// as food.
pub proof fn lemma_wf_cells(g: Game)
    requires
        g.wf(),
    ensures
        g.board_wf(),
        forall|x: int, y: int|
            0 <= x < MATRIX_SIZE && 0 <= y < MATRIX_SIZE ==> ((#[trigger] g.cell(x, y)) == Some(
                Tie::Particle,
            ) <==> g.occupies_spec(pt(x, y))),
        g.status_spec() != GameStatus::Finished ==> forall|x: int, y: int|
            0 <= x < MATRIX_SIZE && 0 <= y < MATRIX_SIZE ==> ((#[trigger] g.cell(x, y)) == Some(
                Tie::Food,
            ) <==> pt(x, y) == g.food_spec()),
        g.segments().len() == g.size_spec(),
        g.segments().len() >= 1,
        g.segments().len() <= MATRIX_SIZE * MATRIX_SIZE,
        forall|i: int| 0 <= i < g.segments().len() ==> in_range(#[trigger] g.segments()[i]),
        g.segments().no_duplicates(),
        in_range(g.food_spec()),
{
}

/// The converse direction: a game whose parts satisfy all of the above is
/// well-formed. Together with [`lemma_wf_cells`] this pins down what
/// [`Game::wf`] says without exposing the representation.
pub proof fn lemma_wf_from_cells(g: Game)
    requires
        g.board_wf(),
        forall|x: int, y: int|
            0 <= x < MATRIX_SIZE && 0 <= y < MATRIX_SIZE ==> ((#[trigger] g.cell(x, y)) == Some(
                Tie::Particle,
            ) <==> g.occupies_spec(pt(x, y))),
        g.status_spec() != GameStatus::Finished ==> forall|x: int, y: int|
            0 <= x < MATRIX_SIZE && 0 <= y < MATRIX_SIZE ==> ((#[trigger] g.cell(x, y)) == Some(
                Tie::Food,
            ) <==> pt(x, y) == g.food_spec()),
        g.segments().len() == g.size_spec(),
        g.segments().len() >= 1,
        g.segments().len() <= MATRIX_SIZE * MATRIX_SIZE,
        forall|i: int| 0 <= i < g.segments().len() ==> in_range(#[trigger] g.segments()[i]),
        g.segments().no_duplicates(),
        in_range(g.food_spec()),
    ensures
        g.wf(),
{
    assert forall|x: int, y: int| 0 <= x < MATRIX_SIZE && 0 <= y < MATRIX_SIZE implies ((
    #[trigger] g.board.cell(x, y)) == Some(Tie::Particle) <==> g.coordinates@.contains(
        pt(x, y),
    )) by {
        assert(g.cell(x, y) == g.board.cell(x, y));
    }
    if g.status != GameStatus::Finished {
        assert forall|x: int, y: int| 0 <= x < MATRIX_SIZE && 0 <= y < MATRIX_SIZE implies ((
        #[trigger] g.board.cell(x, y)) == Some(Tie::Food) <==> pt(x, y) == g.food) by {
            assert(g.cell(x, y) == g.board.cell(x, y));
        }
    }
}

/// Law: the food cell is never a cell occupied by a body segment, as long
/// as the game has not finished.
pub proof fn lemma_food_not_on_body(g: Game)
    requires
        g.wf(),
        g.status_spec() != GameStatus::Finished,
    ensures
        !g.occupies_spec(g.food_spec()),
{
    if g.occupies_spec(g.food_spec()) {
        let f = g.food_spec();
        assert(pt(f.x as int, f.y as int) == f);
        assert(g.cell(f.x as int, f.y as int) == Some(Tie::Particle));
        assert(g.cell(f.x as int, f.y as int) == Some(Tie::Food));
        assert(false);
    }
}

/// Law: on a running, non-colliding tick exactly one of growth and plain
/// advancement happens — growth exactly when the target cell holds food —
/// and afterwards the head cell is occupied by the snake and recorded as a
/// particle on the board.
pub proof fn lemma_tick_running(pre: Game, post: Game)
    requires
        pre.wf(),
        tick_rel(pre, post),
        pre.status_spec() == GameStatus::Running,
        !collides(pre),
    ensures
        eats(pre) ==> post.segments() == seq![target(pre)] + pre.segments() && post.size_spec()
            == pre.size_spec() + 1,
        !eats(pre) ==> post.segments() == seq![target(pre)] + pre.segments().drop_last()
            && post.size_spec() == pre.size_spec(),
        post.head_spec() == target(pre),
        post.occupies_spec(post.head_spec()),
        post.cell(post.head_spec().x as int, post.head_spec().y as int) == Some(Tie::Particle),
{
    assert(post.segments()[0] == target(pre));
    assert(post.occupies_spec(target(pre)));
}

/// Law: a tick whose target cell is a body segment other than the tail
/// cell being vacated finishes the game, and neither the body nor the
/// board nor the food is mutated by that tick.
pub proof fn lemma_self_collision(pre: Game, post: Game)
    requires
        pre.wf(),
        tick_rel(pre, post),
        pre.status_spec() == GameStatus::Running,
        collides(pre),
    ensures
        post.status_spec() == GameStatus::Finished,
        post.segments() == pre.segments(),
        post.size_spec() == pre.size_spec(),
        post.direction_spec() == pre.direction_spec(),
        post.food_spec() == pre.food_spec(),
        cells_eq(pre, post),
{
    // a body cell holds a particle, never food, so a colliding tick cannot eat
    let nh = target(pre);
    let k = choose|k: int| 0 <= k < pre.segments().len() && pre.segments()[k] == nh;
    assert(in_range(nh));
    assert(pt(nh.x as int, nh.y as int) == nh);
    assert(pre.cell(nh.x as int, nh.y as int) == Some(Tie::Particle));
    assert(!eats(pre));
}

/// Law: a tick that eats while the snake and its meal cover every cell of
/// the grid finds no empty cell for the next placement and finishes the
/// game (the win condition).
pub proof fn lemma_full_board_wins(pre: Game, post: Game)
    requires
        pre.wf(),
        tick_rel(pre, post),
        pre.status_spec() == GameStatus::Running,
        eats(pre),
        forall|x: int, y: int|
            0 <= x < MATRIX_SIZE && 0 <= y < MATRIX_SIZE ==> pre.occupies_spec(#[trigger] pt(x, y))
                || pt(x, y) == target(pre),
    ensures
        post.status_spec() == GameStatus::Finished,
{
    assert forall|x: int, y: int|
        0 <= x < MATRIX_SIZE && 0 <= y < MATRIX_SIZE implies !((#[trigger] pre.cell(
        x,
        y,
    )) is None) by {
        if pre.occupies_spec(pt(x, y)) {
            assert(pre.cell(x, y) == Some(Tie::Particle));
        } else {
            assert(pt(x, y) == target(pre));
            assert(pre.cell(x, y) == Some(Tie::Food));
        }
    }
}

/// Whether the tick taken in state `g` consumes food.
pub open spec fn is_eat_tick(g: Game) -> bool {
    g.status_spec() == GameStatus::Running && eats(g)
}

/// The number of food-eating ticks along a trace of consecutive states.
pub open spec fn eat_count(trace: Seq<Game>) -> nat
    decreases trace.len(),
{
    if trace.len() <= 1 {
        0
    } else {
        (if is_eat_tick(trace[0]) {
            1 as nat
        } else {
            0 as nat
        }) + eat_count(trace.drop_first())
    }
}

/// Law: over any run of consecutive ticks the snake's length grows by
/// exactly the number of food-eating ticks; every other tick — plain
/// advancement, a collision, a paused or finished no-op — keeps the length
/// as it was.
pub proof fn lemma_growth_is_eat_count(trace: Seq<Game>)
    requires
        trace.len() >= 1,
        forall|i: int| 0 <= i < trace.len() ==> (#[trigger] trace[i]).wf(),
        forall|i: int| 0 <= i < trace.len() - 1 ==> tick_rel(#[trigger] trace[i], trace[i + 1]),
    ensures
        trace.last().segments().len() == trace[0].segments().len() + eat_count(trace),
    decreases trace.len(),
{
    if trace.len() > 1 {
        let rest = trace.drop_first();
        assert forall|i: int| 0 <= i < rest.len() implies (#[trigger] rest[i]).wf() by {
            assert(rest[i] == trace[i + 1]);
        }
        assert forall|i: int| 0 <= i < rest.len() - 1 implies tick_rel(
            #[trigger] rest[i],
            rest[i + 1],
        ) by {
            assert(rest[i] == trace[i + 1]);
            assert(rest[i + 1] == trace[i + 2]);
            assert(tick_rel(trace[i + 1], trace[i + 2]));
        }
        lemma_growth_is_eat_count(rest);
        let pre = trace[0];
        let post = trace[1];
        assert(tick_rel(pre, post));
        if pre.status_spec() == GameStatus::Running && !eats(pre) && !collides(pre) {
            assert(post.segments().len() == pre.segments().len());
        }
        assert(rest[0] == trace[1]);
        assert(rest.last() == trace.last());
    }
}

} // verus!

//! Core game logic: the board, the food, the score and the phases of a game.

use rand::Rng;
use vstd::prelude::*;

use crate::snake::{dx, dy, spawned, Direction, Point, Snake, SnakeView};

verus! {

// ---------------------------------------------------------------------------
// Randomness
// ---------------------------------------------------------------------------

#[verifier::external_type_specification]
#[verifier::external_body]
pub struct ExThreadRng(rand::rngs::ThreadRng);

/// Calls `rand::thread_rng`, which hands out the thread-local generator.
/// Nothing is claimed of the generator. (`rand` panics when the operating
/// system cannot seed it, and a later draw panics when reseeding fails; no
/// precondition can rule either out.)
#[verifier::external_body]
fn thread_rng() -> rand::rngs::ThreadRng {
    rand::thread_rng()
}

/// Calls `Rng::gen_range` with the half-open range `lo..hi`: the value drawn
/// lies in that range. `rand` panics on an empty range, hence `lo < hi`.
/// Which value comes out is left to chance and is not claimed.
#[verifier::external_body]
fn gen_range(rng: &mut rand::rngs::ThreadRng, lo: i32, hi: i32) -> (r: i32)
    requires
        lo < hi,
    ensures
        lo <= r < hi,
{
    rng.gen_range(lo..hi)
}

// ---------------------------------------------------------------------------
// Public types
// ---------------------------------------------------------------------------

/// Current phase of the game.
#[derive(Clone, Copy, Debug, PartialEq, Eq, Structural)]
pub enum GameState {
    /// Waiting for the player to start.
    Idle,
    /// Actively running.
    Running,
    /// The snake hit a wall or itself.
    GameOver,
    /// Player paused the game.
    Paused,
}

/// The number by which a host sees a phase:
/// `0` = Idle, `1` = Running, `2` = GameOver, `3` = Paused.
pub open spec fn state_code(s: GameState) -> u8 {
    match s {
        GameState::Idle => 0,
        GameState::Running => 1,
        GameState::GameOver => 2,
        GameState::Paused => 3,
    }
}

/// Pause toggling: running games pause, paused games resume, others stay.
pub open spec fn toggled(s: GameState) -> GameState {
    match s {
        GameState::Running => GameState::Paused,
        GameState::Paused => GameState::Running,
        other => other,
    }
}

/// What a key press asks of the game.
#[derive(Clone, Copy, Debug, PartialEq, Eq, Structural)]
pub enum KeyCommand {
    /// Turn the snake.
    Turn(Direction),
    /// Start or restart the game.
    Start,
    /// Pause or resume.
    Pause,
    /// Not a key of the game.
    Ignore,
}

/// The command that a key name stands for.
pub open spec fn command_for(key: Seq<char>) -> KeyCommand {
    if key == "ArrowUp"@ || key == "w"@ {
        KeyCommand::Turn(Direction::Up)
    } else if key == "ArrowDown"@ || key == "s"@ {
        KeyCommand::Turn(Direction::Down)
    } else if key == "ArrowLeft"@ || key == "a"@ {
        KeyCommand::Turn(Direction::Left)
    } else if key == "ArrowRight"@ || key == "d"@ {
        KeyCommand::Turn(Direction::Right)
    } else if key == "Enter"@ || key == " "@ {
        KeyCommand::Start
    } else if key == "p"@ || key == "Escape"@ {
        KeyCommand::Pause
    } else {
        KeyCommand::Ignore
    }
}

/// Compares two strings character by character (through their UTF-8 bytes).
fn str_eq(a: &str, b: &str) -> (r: bool)
    ensures
        r == (a@ == b@),
{
    let x = a.as_bytes();
    let y = b.as_bytes();
    proof {
        vstd::utf8::encode_utf8_decode_utf8(a@);
        vstd::utf8::encode_utf8_decode_utf8(b@);
    }
    if x.len() != y.len() {
        return false;
    }
    let n = x.len();
    let mut i: usize = 0;
    while i < n
        invariant
            n == x@.len(),
            n == y@.len(),
            x@ == vstd::utf8::encode_utf8(a@),
            y@ == vstd::utf8::encode_utf8(b@),
            0 <= i <= n,
            forall|j: int| 0 <= j < i ==> x@[j] == y@[j],
        decreases n - i,
    {
        if x[i] != y[i] {
            assert(a@ != b@) by {
                if a@ == b@ {
                    assert(vstd::utf8::encode_utf8(a@) == vstd::utf8::encode_utf8(b@));
                }
            }
            return false;
        }
        i = i + 1;
    }
    assert(x@ =~= y@);
    true
}

/// Reads a key name as forwarded by the host.
///
/// Accepted keys: `"ArrowUp"`, `"ArrowDown"`, `"ArrowLeft"`, `"ArrowRight"`,
/// `"w"`, `"a"`, `"s"`, `"d"` to turn; `"Enter"` / `" "` to start or restart;
/// `"p"` / `"Escape"` to pause. Matching is case-sensitive.
pub fn key_command(key: &str) -> (c: KeyCommand)
    ensures
        c == command_for(key@),
{
    if str_eq(key, "ArrowUp") || str_eq(key, "w") {
        KeyCommand::Turn(Direction::Up)
    } else if str_eq(key, "ArrowDown") || str_eq(key, "s") {
        KeyCommand::Turn(Direction::Down)
    } else if str_eq(key, "ArrowLeft") || str_eq(key, "a") {
        KeyCommand::Turn(Direction::Left)
    } else if str_eq(key, "ArrowRight") || str_eq(key, "d") {
        KeyCommand::Turn(Direction::Right)
    } else if str_eq(key, "Enter") || str_eq(key, " ") {
        KeyCommand::Start
    } else if str_eq(key, "p") || str_eq(key, "Escape") {
        KeyCommand::Pause
    } else {
        KeyCommand::Ignore
    }
}

// ---------------------------------------------------------------------------
// The model of a game
// ---------------------------------------------------------------------------

/// The mathematical model of a [`Game`].
pub struct GameModel {
    pub width: u32,
    pub height: u32,
    pub snake: SnakeView,
    pub food: Point,
    pub state: GameState,
    pub score: u32,
    pub tick_counter: u32,
    pub ticks_per_move: u32,
}

impl GameModel {
    /// The board has at least one cell in each direction and its sides fit in
    /// `i32`, the type of the coordinates.
    pub open spec fn board_ok(self) -> bool {
        &&& 1 <= self.width <= i32::MAX
        &&& 1 <= self.height <= i32::MAX
    }

    /// `p` lies on the board.
    pub open spec fn in_bounds(self, p: Point) -> bool {
        &&& 0 <= p.x < self.width
        &&& 0 <= p.y < self.height
    }

    /// What holds of every game: a valid board, a valid snake, and a head on
    /// the board whenever the game is running or paused.
    pub open spec fn wf(self) -> bool {
        &&& self.board_ok()
        &&& self.snake.inv()
        &&& (self.state == GameState::Running || self.state == GameState::Paused) ==> self.in_bounds(
            self.snake.head(),
        )
    }

    /// `p` is a cell of the board that the snake does not occupy.
    pub open spec fn is_free(self, p: Point) -> bool {
        cell_free(self.width, self.height, self.snake.cells, p)
    }

    pub open spec fn has_free_cell(self) -> bool {
        board_has_room(self.width, self.height, self.snake.cells)
    }

    /// Where food may be placed: a free cell, or `(0, 0)` on a full board.
    pub open spec fn is_food_cell(self, p: Point) -> bool {
        food_cell(self.width, self.height, self.snake.cells, p)
    }

    pub open spec fn food_placed(self) -> bool {
        self.is_food_cell(self.food)
    }

    /// The snake that a new or restarted game begins with: length 3, head at
    /// the centre, moving right.
    pub open spec fn fresh_snake(self) -> SnakeView {
        spawned((self.width / 2) as i32, (self.height / 2) as i32, 3)
    }

    /// The game after a (re)start, with the food placed at `food`.
    pub open spec fn restarted(self, food: Point) -> GameModel {
        GameModel {
            width: self.width,
            height: self.height,
            snake: self.fresh_snake(),
            food,
            state: GameState::Running,
            score: 0,
            tick_counter: 0,
            ticks_per_move: 10,
        }
    }

    /// The game after a direction request.
    pub open spec fn direction_changed(self, d: Direction) -> GameModel {
        if self.state == GameState::Running {
            GameModel { snake: self.snake.turned(d), ..self }
        } else {
            self
        }
    }

    pub open spec fn pause_toggled(self) -> GameModel {
        GameModel { state: toggled(self.state), ..self }
    }

    /// The next step of a running game hits neither a wall nor the snake and
    /// lands on the food.
    pub open spec fn eats(self) -> bool {
        let moved = self.snake.advanced();
        &&& self.state == GameState::Running
        &&& self.in_bounds(moved.head())
        &&& !moved.bites_itself()
        &&& moved.head() == self.food
    }

    /// The score after eating once more.
    pub open spec fn next_score(self) -> u32 {
        (self.score + 10) as u32
    }

    /// One step of the simulation; `food` is where new food is placed when
    /// the snake eats.
    pub open spec fn stepped(self, food: Point) -> GameModel {
        let moved = self.snake.advanced();
        if self.state != GameState::Running {
            self
        } else if !self.in_bounds(moved.head()) || moved.bites_itself() {
            GameModel { snake: moved, state: GameState::GameOver, ..self }
        } else if moved.head() == self.food {
            let score = self.next_score();
            GameModel {
                snake: moved.grown(self.snake.tail()),
                score,
                ticks_per_move: if score % 50 == 0 && self.ticks_per_move > 2 {
                    (self.ticks_per_move - 1) as u32
                } else {
                    self.ticks_per_move
                },
                food,
                ..self
            }
        } else {
            GameModel { snake: moved, ..self }
        }
    }

    /// The next render tick makes the snake move.
    pub open spec fn tick_moves(self) -> bool {
        self.state == GameState::Running && self.tick_counter + 1 >= self.ticks_per_move
    }

    /// One render tick: the snake moves every `ticks_per_move` ticks.
    pub open spec fn ticked(self, food: Point) -> GameModel {
        if self.state != GameState::Running {
            self
        } else if self.tick_counter + 1 < self.ticks_per_move {
            GameModel { tick_counter: (self.tick_counter + 1) as u32, ..self }
        } else {
            GameModel { tick_counter: 0, ..self }.stepped(food)
        }
    }

    /// `k` render ticks in a row, with new food (if any is eaten) at `food`.
    pub open spec fn ticked_times(self, k: nat, food: Point) -> GameModel
        decreases k,
    {
        if k == 0 {
            self
        } else {
            self.ticked_times((k - 1) as nat, food).ticked(food)
        }
    }

    /// The game after a key command; `food` is used only by a (re)start.
    pub open spec fn after_command(self, c: KeyCommand, food: Point) -> GameModel {
        match c {
            KeyCommand::Turn(d) => self.direction_changed(d),
            KeyCommand::Start => if self.state == GameState::Idle || self.state
                == GameState::GameOver {
                self.restarted(food)
            } else {
                self
            },
            KeyCommand::Pause => self.pause_toggled(),
            KeyCommand::Ignore => self,
        }
    }

    /// The command restarts the game.
    pub open spec fn restarts_on(self, c: KeyCommand) -> bool {
        c == KeyCommand::Start && (self.state == GameState::Idle || self.state
            == GameState::GameOver)
    }

    /// The cell of the flat buffer at index `k` (`k == y * width + x`).
    pub open spec fn cell_at(self, k: int) -> Point {
        Point { x: (k % (self.width as int)) as i32, y: (k / (self.width as int)) as i32 }
    }

    /// Score, length and speed agree: ten points per cell grown beyond the
    /// first three, and the speed that goes with the score.
    pub open spec fn progress_ok(self) -> bool {
        &&& self.score % 10 == 0
        &&& self.snake.cells.len() == 3 + self.score / 10
        &&& self.ticks_per_move == speed_for(self.score)
    }

    /// The snake is shaped; unless the game is over, its cells are distinct
    /// cells of the board, and the food lies on the board off the snake.
    pub open spec fn layout_ok(self) -> bool {
        &&& self.snake.shaped()
        &&& self.state != GameState::GameOver ==> {
            &&& forall|i: int|
                0 <= i < self.snake.cells.len() ==> self.in_bounds(#[trigger] self.snake.cells[i])
            &&& self.snake.cells.no_duplicates()
            &&& self.in_bounds(self.food)
            &&& !self.snake.cells.contains(self.food)
        }
    }

    /// What holds of every game that play reaches from a new game on a board
    /// at least four cells wide.
    pub open spec fn reachable(self) -> bool {
        &&& self.wf()
        &&& self.width >= 4
        &&& self.progress_ok()
        &&& self.layout_ok()
    }

    /// The code of a cell: `0` empty, `1` snake body, `2` snake head, `3` food.
    pub open spec fn code_at(self, p: Point) -> u8 {
        if !self.in_bounds(p) {
            0
        } else if p == self.food {
            3
        } else if p == self.snake.head() {
            2
        } else if self.snake.cells.contains(p) {
            1
        } else {
            0
        }
    }
}

/// `p` is a cell of a `width × height` board that `cells` do not cover.
pub open spec fn cell_free(width: u32, height: u32, cells: Seq<Point>, p: Point) -> bool {
    &&& 0 <= p.x < width
    &&& 0 <= p.y < height
    &&& !cells.contains(p)
}

/// Some cell of the board is free.
pub open spec fn board_has_room(width: u32, height: u32, cells: Seq<Point>) -> bool {
    exists|p: Point| cell_free(width, height, cells, p)
}

/// Where food may be placed: a free cell, or `(0, 0)` when there is none.
pub open spec fn food_cell(width: u32, height: u32, cells: Seq<Point>, p: Point) -> bool {
    if board_has_room(width, height, cells) {
        cell_free(width, height, cells, p)
    } else {
        p == Point { x: 0, y: 0 }
    }
}

/// Every index of the flat buffer names a cell of the board.
proof fn lemma_cell_at_in_bounds(m: GameModel, k: int)
    requires
        m.board_ok(),
        0 <= k < m.width * m.height,
    ensures
        m.in_bounds(m.cell_at(k)),
        0 <= k / (m.width as int) < m.height,
        0 <= k % (m.width as int) < m.width,
        k == (m.width as int) * (k / (m.width as int)) + k % (m.width as int),
{
    let w = m.width as int;
    let h = m.height as int;
    vstd::arithmetic::div_mod::lemma_fundamental_div_mod(k, w);
    vstd::arithmetic::div_mod::lemma_mod_bound(k, w);
    let q = k / w;
    let r = k % w;
    assert(0 <= q < h) by (nonlinear_arith)
        requires
            k == w * q + r,
            0 <= r < w,
            0 <= k < w * h,
            w > 0,
    ;
}

/// The index `y * width + x` of a cell on the board lies in the buffer, names
/// that cell, and is the only index that does.
proof fn lemma_cell_index(m: GameModel, p: Point)
    requires
        m.board_ok(),
        m.in_bounds(p),
    ensures
        0 <= p.y * m.width <= p.y * m.width + p.x < m.width * m.height,
        m.cell_at(p.y * m.width + p.x) == p,
        forall|k: int|
            0 <= k < m.width * m.height && #[trigger] m.cell_at(k) == p ==> k == p.y * m.width
                + p.x,
{
    let w = m.width as int;
    let h = m.height as int;
    let x = p.x as int;
    let y = p.y as int;
    let idx = y * w + x;
    assert(0 <= y * w && y * w + x < w * h) by (nonlinear_arith)
        requires
            0 <= x < w,
            0 <= y < h,
    ;
    assert(y * w == w * y) by (nonlinear_arith);
    vstd::arithmetic::div_mod::lemma_fundamental_div_mod_converse(idx, w, y, x);
    assert forall|k: int| 0 <= k < w * h && #[trigger] m.cell_at(k) == p implies k == idx by {
        lemma_cell_at_in_bounds(m, k);
    }
}

/// A new, idle game on a `width × height` board with the food at `food`.
pub open spec fn created(width: u32, height: u32, food: Point) -> GameModel {
    GameModel {
        width,
        height,
        snake: spawned((width / 2) as i32, (height / 2) as i32, 3),
        food,
        state: GameState::Idle,
        score: 0,
        tick_counter: 0,
        ticks_per_move: 10,
    }
}

/// The ticks per move that go with a score: ten at first, one fewer for every
/// fifty points, and never fewer than two.
pub open spec fn speed_for(score: u32) -> u32 {
    if score / 50 >= 8 {
        2
    } else {
        (10 - score / 50) as u32
    }
}

/// `p` comes no later than `q` when the board is read row by row, each row
/// from left to right.
pub open spec fn row_major_le(p: Point, q: Point) -> bool {
    p.y < q.y || (p.y == q.y && p.x <= q.x)
}

// ---------------------------------------------------------------------------
// Game
// ---------------------------------------------------------------------------

/// The complete game instance.
pub struct Game {
    pub width: u32,
    pub height: u32,
    pub snake: Snake,
    pub food: Point,
    pub state: GameState,
    pub score: u32,
    /// Number of ticks since the last movement (used for speed throttling).
    pub tick_counter: u32,
    /// How many ticks must pass before the snake moves.
    pub ticks_per_move: u32,
}

impl View for Game {
    type V = GameModel;

    open spec fn view(&self) -> GameModel {
        GameModel {
            width: self.width,
            height: self.height,
            snake: self.snake@,
            food: self.food,
            state: self.state,
            score: self.score,
            tick_counter: self.tick_counter,
            ticks_per_move: self.ticks_per_move,
        }
    }
}

impl Game {
    /// Create a new game on a `width × height` grid.
    ///
    /// The snake starts at the centre with length 3, moving right.
    /// A piece of food is placed at a random free cell.
    pub fn new(width: u32, height: u32) -> (g: Self)
        requires
            1 <= width <= i32::MAX,
            1 <= height <= i32::MAX,
        ensures
            g@ == created(width, height, g.food),
            g@.food_placed(),
            g@.wf(),
    {
        let cx = (width / 2) as i32;
        let cy = (height / 2) as i32;
        let snake = Snake::new(cx, cy, 3);
        let mut game = Game {
            width,
            height,
            snake,
            food: Point::new(0, 0),
            state: GameState::Idle,
            score: 0,
            tick_counter: 0,
            ticks_per_move: 10,
        };
        game.food = game.random_free_cell();
        game
    }

    // ------------------------------------------------------------------
    // Accessors
    // ------------------------------------------------------------------

    /// Board width in cells.
    pub fn width(&self) -> (w: u32)
        ensures
            w == self.width,
    {
        self.width
    }

    /// Board height in cells.
    pub fn height(&self) -> (h: u32)
        ensures
            h == self.height,
    {
        self.height
    }

    /// Current score.
    pub fn score(&self) -> (s: u32)
        ensures
            s == self.score,
    {
        self.score
    }

    /// Current [`GameState`] as a `u8`:
    /// `0` = Idle, `1` = Running, `2` = GameOver, `3` = Paused.
    pub fn state(&self) -> (code: u8)
        ensures
            code == state_code(self.state),
    {
        match self.state {
            GameState::Idle => 0,
            GameState::Running => 1,
            GameState::GameOver => 2,
            GameState::Paused => 3,
        }
    }

    /// Snake length (number of cells).
    pub fn snake_length(&self) -> (n: usize)
        requires
            self@.snake.inv(),
        ensures
            n == self@.snake.cells.len(),
    {
        self.snake.len()
    }

    /// Food position as `[x, y]`.
    pub fn food_pos(&self) -> (v: Vec<u32>)
        ensures
            v@ == seq![self.food.x as u32, self.food.y as u32],
    {
        vec![self.food.x as u32, self.food.y as u32]
    }

    /// Flat array of all snake body cells `[x0, y0, x1, y1, …]`.
    pub fn snake_cells(&self) -> (v: Vec<u32>)
        requires
            2 * self@.snake.cells.len() <= u32::MAX,
        ensures
            v@.len() == 2 * self@.snake.cells.len(),
            forall|i: int|
                0 <= i < self@.snake.cells.len() ==> {
                    &&& #[trigger] v@[2 * i] == self@.snake.cells[i].x as u32
                    &&& v@[2 * i + 1] == self@.snake.cells[i].y as u32
                },
    {
        let body = self.snake.body();
        let n = body.len();
        let mut v: Vec<u32> = Vec::new();
        let mut i: usize = 0;
        while i < n
            invariant
                n == self@.snake.cells.len(),
                body@ == self@.snake.cells,
                2 * n <= u32::MAX,
                0 <= i <= n,
                v@.len() == 2 * i,
                forall|j: int|
                    0 <= j < i ==> {
                        &&& #[trigger] v@[2 * j] == self@.snake.cells[j].x as u32
                        &&& v@[2 * j + 1] == self@.snake.cells[j].y as u32
                    },
            decreases n - i,
        {
            let p = body[i];
            let ghost prev = v@;
            v.push(p.x as u32);
            v.push(p.y as u32);
            assert forall|j: int| 0 <= j < i + 1 implies {
                &&& #[trigger] v@[2 * j] == self@.snake.cells[j].x as u32
                &&& v@[2 * j + 1] == self@.snake.cells[j].y as u32
            } by {
                if j < i {
                    assert(v@[2 * j] == prev[2 * j]);
                    assert(v@[2 * j + 1] == prev[2 * j + 1]);
                }
            }
            i = i + 1;
        }
        v
    }

    /// Builds the cell buffer as a plain `Vec<u8>`, one entry per cell:
    /// `0` = empty, `1` = snake body, `2` = snake head, `3` = food.
    ///
    /// Index formula: `y * width + x`.
    pub fn cells_vec(&self) -> (buf: Vec<u8>)
        requires
            self@.board_ok(),
            self@.snake.inv(),
            self.width * self.height <= u32::MAX,
        ensures
            buf@.len() == self.width * self.height,
            forall|k: int|
                0 <= k < buf@.len() ==> #[trigger] buf@[k] == self@.code_at(self@.cell_at(k)),
            forall|p: Point| #[trigger]
                self@.in_bounds(p) ==> buf@[p.y * self.width + p.x] == (if p == self.food {
                    3u8
                } else if p == self@.snake.cells[0] {
                    2u8
                } else if self@.snake.cells.contains(p) {
                    1u8
                } else {
                    0u8
                }),
    {
        let total = (self.width * self.height) as usize;
        let mut buf: Vec<u8> = vec![0u8; total];
        let body = self.snake.body();
        let n = body.len();
        let ghost cells = self@.snake.cells;
        let mut i: usize = 0;
        while i < n
            invariant
                self@.board_ok(),
                self.width * self.height <= u32::MAX,
                total == self.width * self.height,
                buf@.len() == total,
                n == cells.len(),
                body@ == cells,
                cells == self@.snake.cells,
                0 <= i <= n,
                forall|k: int|
                    0 <= k < total ==> #[trigger] buf@[k] == (if cells.subrange(0, i as int).contains(
                        self@.cell_at(k),
                    ) {
                        1u8
                    } else {
                        0u8
                    }),
            decreases n - i,
        {
            let p = body[i];
            let ghost prev = buf@;
            if self.in_bounds(p) {
                proof {
                    lemma_cell_index(self@, p);
                }
                let idx = (p.y as u32 * self.width + p.x as u32) as usize;
                buf.set(idx, 1);
            }
            assert forall|k: int| 0 <= k < total implies #[trigger] buf@[k] == (if cells.subrange(
                0,
                i + 1,
            ).contains(self@.cell_at(k)) {
                1u8
            } else {
                0u8
            }) by {
                let q = self@.cell_at(k);
                lemma_cell_at_in_bounds(self@, k);
                assert(prev[k] == (if cells.subrange(0, i as int).contains(q) {
                    1u8
                } else {
                    0u8
                }));
                assert(cells.subrange(0, i + 1) =~= cells.subrange(0, i as int).push(p));
                assert(cells.subrange(0, i + 1).contains(q) <==> (cells.subrange(
                    0,
                    i as int,
                ).contains(q) || q == p)) by {
                    if q == p {
                        assert(cells.subrange(0, i + 1)[i as int] == q);
                    }
                    if cells.subrange(0, i + 1).contains(q) && q != p {
                        let j = choose|j: int|
                            0 <= j < i + 1 && #[trigger] cells.subrange(0, i + 1)[j] == q;
                        assert(cells.subrange(0, i as int)[j] == q);
                    }
                }
                if self@.in_bounds(p) {
                    lemma_cell_index(self@, p);
                    if k == p.y * self.width + p.x {
                        assert(q == p);
                    } else {
                        assert(q != p);
                        assert(buf@[k] == prev[k]);
                    }
                } else {
                    assert(q != p);
                    assert(buf@[k] == prev[k]);
                }
            }
            i = i + 1;
        }
        assert(cells.subrange(0, n as int) =~= cells);
        let head = self.snake.head();
        if self.in_bounds(head) {
            proof {
                lemma_cell_index(self@, head);
            }
            let idx = (head.y as u32 * self.width + head.x as u32) as usize;
            buf.set(idx, 2);
        }
        let ghost after_head = buf@;
        assert forall|k: int| 0 <= k < total implies #[trigger] buf@[k] == (if self@.cell_at(k)
            == head {
            2u8
        } else if cells.contains(self@.cell_at(k)) {
            1u8
        } else {
            0u8
        }) by {
            lemma_cell_at_in_bounds(self@, k);
            if self@.in_bounds(head) {
                lemma_cell_index(self@, head);
            }
        }
        if self.in_bounds(self.food) {
            proof {
                lemma_cell_index(self@, self.food);
            }
            let idx = (self.food.y as u32 * self.width + self.food.x as u32) as usize;
            buf.set(idx, 3);
        }
        assert forall|k: int| 0 <= k < total implies #[trigger] buf@[k] == self@.code_at(
            self@.cell_at(k),
        ) by {
            lemma_cell_at_in_bounds(self@, k);
            assert(after_head[k] == (if self@.cell_at(k) == head {
                2u8
            } else if cells.contains(self@.cell_at(k)) {
                1u8
            } else {
                0u8
            }));
            if self@.in_bounds(self.food) {
                lemma_cell_index(self@, self.food);
            }
        }
        assert forall|p: Point| #[trigger]
            self@.in_bounds(p) implies buf@[p.y * self.width + p.x] == (if p == self.food {
                3u8
            } else if p == self@.snake.cells[0] {
                2u8
            } else if self@.snake.cells.contains(p) {
                1u8
            } else {
                0u8
            }) by {
            lemma_cell_index(self@, p);
            assert(buf@[p.y * self.width + p.x] == self@.code_at(self@.cell_at(p.y * self.width + p.x)));
        }
        buf
    }

    // ------------------------------------------------------------------
    // Input / control
    // ------------------------------------------------------------------

    /// Start or restart the game.
    pub fn start(&mut self)
        requires
            old(self)@.board_ok(),
        ensures
            final(self)@ == old(self)@.restarted(final(self).food),
            final(self)@.food_placed(),
            final(self)@.wf(),
    {
        let cx = (self.width / 2) as i32;
        let cy = (self.height / 2) as i32;
        self.snake = Snake::new(cx, cy, 3);
        self.score = 0;
        self.tick_counter = 0;
        self.ticks_per_move = 10;
        self.food = self.random_free_cell();
        self.state = GameState::Running;
    }

    /// Toggle pause / resume.
    pub fn toggle_pause(&mut self)
        ensures
            final(self)@ == old(self)@.pause_toggled(),
            old(self)@.wf() ==> final(self)@.wf(),
    {
        self.state = match self.state {
            GameState::Running => GameState::Paused,
            GameState::Paused => GameState::Running,
            other => other,
        };
    }

    /// Forward a keyboard key string to the game.
    ///
    /// Accepted keys: `"ArrowUp"`, `"ArrowDown"`, `"ArrowLeft"`, `"ArrowRight"`,
    /// `"w"`, `"a"`, `"s"`, `"d"` (case-sensitive).
    ///
    /// Also handles `"Enter"` / `" "` for start/restart and `"p"` / `"Escape"` for pause.
    pub fn key_down(&mut self, key: &str)
        requires
            old(self)@.wf(),
        ensures
            final(self)@ == old(self)@.after_command(command_for(key@), final(self).food),
            old(self)@.restarts_on(command_for(key@)) ==> final(self)@.food_placed(),
            final(self)@.wf(),
    {
        match key_command(key) {
            KeyCommand::Turn(d) => self.change_direction(d),
            KeyCommand::Start => {
                if self.state == GameState::Idle || self.state == GameState::GameOver {
                    self.start();
                }
            },
            KeyCommand::Pause => self.toggle_pause(),
            KeyCommand::Ignore => {},
        }
    }

    /// Change the snake's requested direction (ignores 180-degree reversals).
    pub fn change_direction(&mut self, dir: Direction)
        requires
            old(self)@.snake.inv(),
        ensures
            final(self)@ == old(self)@.direction_changed(dir),
            old(self)@.wf() ==> final(self)@.wf(),
    {
        if self.state == GameState::Running {
            self.snake.set_direction(dir);
        }
    }

    // ------------------------------------------------------------------
    // Simulation
    // ------------------------------------------------------------------

    /// Advance the simulation by one *render* tick.
    ///
    /// The snake only moves every `ticks_per_move` calls; call this on every
    /// `requestAnimationFrame` and let the game decide when to actually step.
    pub fn tick(&mut self)
        requires
            old(self)@.wf(),
            old(self).state == GameState::Running ==> old(self).tick_counter < u32::MAX,
            old(self)@.tick_moves() && old(self)@.eats() ==> old(self).score + 10 <= u32::MAX,
        ensures
            final(self)@ == old(self)@.ticked(final(self).food),
            old(self)@.tick_moves() && old(self)@.eats() ==> final(self)@.food_placed(),
            final(self)@.wf(),
    {
        if self.state != GameState::Running {
            return;
        }
        self.tick_counter += 1;
        if self.tick_counter < self.ticks_per_move {
            return;
        }
        self.tick_counter = 0;
        self.step();
    }

    /// Force a single game step (used internally and in tests).
    pub fn step(&mut self)
        requires
            old(self)@.wf(),
            old(self)@.eats() ==> old(self).score + 10 <= u32::MAX,
        ensures
            final(self)@ == old(self)@.stepped(final(self).food),
            old(self)@.eats() ==> final(self)@.food_placed(),
            final(self)@.wf(),
    {
        if self.state != GameState::Running {
            return;
        }
        let old_tail = self.snake.advance();
        let head = self.snake.head();

        // Wall collision
        if !self.in_bounds(head) {
            self.state = GameState::GameOver;
            return;
        }
        // Self collision
        if self.snake.is_self_colliding() {
            self.state = GameState::GameOver;
            return;
        }
        // Food eaten
        if head == self.food {
            self.snake.grow(old_tail);
            self.score += 10;
            // Speed up every 50 points (minimum 2 ticks per move)
            if self.score % 50 == 0 && self.ticks_per_move > 2 {
                self.ticks_per_move -= 1;
            }
            self.food = self.random_free_cell();
        }
    }

    // ------------------------------------------------------------------
    // Helpers
    // ------------------------------------------------------------------

    /// Returns `true` if the next step eats the food: the game is running and
    /// the head's next cell is on the board, free of the body, and the food.
    pub fn step_eats(&self) -> (r: bool)
        requires
            self@.wf(),
        ensures
            r == self@.eats(),
    {
        if self.state != GameState::Running {
            return false;
        }
        let next = self.snake.next_head();
        self.in_bounds(next) && !self.snake.next_step_bites() && next == self.food
    }

    /// Returns `true` when `p` is within the board boundaries.
    pub fn in_bounds(&self, p: Point) -> (r: bool)
        requires
            self@.board_ok(),
        ensures
            r == self@.in_bounds(p),
    {
        p.x >= 0 && p.y >= 0 && p.x < self.width as i32 && p.y < self.height as i32
    }

    /// The first free cell when the board is read row by row, each row from
    /// left to right; `None` when the snake covers the board.
    pub fn first_free_cell(&self) -> (r: Option<Point>)
        requires
            self@.board_ok(),
        ensures
            match r {
                Some(p) => self@.is_free(p) && forall|q: Point| #[trigger]
                    self@.is_free(q) ==> row_major_le(p, q),
                None => !self@.has_free_cell(),
            },
    {
        let w = self.width as i32;
        let h = self.height as i32;
        let mut y: i32 = 0;
        while y < h
            invariant
                self@.board_ok(),
                w == self.width,
                h == self.height,
                0 <= y <= h,
                forall|q: Point| #[trigger] self@.is_free(q) ==> q.y >= y,
            decreases h - y,
        {
            let mut x: i32 = 0;
            while x < w
                invariant
                    self@.board_ok(),
                    w == self.width,
                    h == self.height,
                    0 <= y < h,
                    0 <= x <= w,
                    forall|q: Point| #[trigger]
                        self@.is_free(q) ==> q.y > y || (q.y == y && q.x >= x),
                decreases w - x,
            {
                let p = Point::new(x, y);
                if !self.snake.occupies(p) {
                    assert(self@.is_free(p));
                    return Some(p);
                }
                x = x + 1;
            }
            y = y + 1;
        }
        assert forall|q: Point| !#[trigger] cell_free(self.width, self.height, self@.snake.cells, q) by {
            if self@.is_free(q) {
                assert(q.y >= y);
            }
        }
        None
    }

    /// Pick a random cell that is not currently occupied by the snake.
    ///
    /// Falls back to `(0, 0)` if the board is completely full (extremely unlikely).
    pub fn random_free_cell(&self) -> (p: Point)
        requires
            self@.board_ok(),
        ensures
            self@.is_food_cell(p),
    {
        let mut rng = thread_rng();
        let w = self.width as i32;
        let h = self.height as i32;
        for _attempt in 0..1000u32
            invariant
                self@.board_ok(),
                w == self.width,
                h == self.height,
        {
            let x = gen_range(&mut rng, 0, w);
            let y = gen_range(&mut rng, 0, h);
            let p = Point::new(x, y);
            if !self.snake.occupies(p) {
                assert(self@.is_free(p));
                return p;
            }
        }
        // Fallback (board nearly full)
        match self.first_free_cell() {
            Some(p) => p,
            None => Point::new(0, 0),
        }
    }
}

// ---------------------------------------------------------------------------
// Laws
// ---------------------------------------------------------------------------

/// Toggling pause twice gives back the phase one started from.
pub proof fn lemma_toggle_twice(s: GameState)
    ensures
        toggled(toggled(s)) == s,
{
}

/// Only a running game moves: in any other phase a step, a tick or a
/// direction request leaves the game unchanged (a finished game stays
/// finished until it is restarted).
pub proof fn lemma_only_running_moves(m: GameModel, food: Point, d: Direction)
    requires
        m.state != GameState::Running,
    ensures
        m.stepped(food) == m,
        m.ticked(food) == m,
        m.direction_changed(d) == m,
{
}

/// Steps and ticks keep a game well formed, and a running game either keeps
/// running or ends.
pub proof fn lemma_step_keeps_wf(m: GameModel, food: Point)
    requires
        m.wf(),
    ensures
        m.stepped(food).wf(),
        m.ticked(food).wf(),
        m.state == GameState::Running ==> (m.stepped(food).state == GameState::Running
            || m.stepped(food).state == GameState::GameOver),
{
    crate::snake::lemma_advance_keeps_shape(m.snake);
    crate::snake::lemma_advance_then_grow(m.snake);
}

/// The score rises by ten exactly when the snake eats and grows by one cell;
/// otherwise neither the score nor the length changes.
pub proof fn lemma_score_follows_growth(m: GameModel, food: Point)
    requires
        m.wf(),
        m.eats() ==> m.score + 10 <= u32::MAX,
    ensures
        m.eats() ==> m.stepped(food).score == m.score + 10 && m.stepped(food).snake.cells.len()
            == m.snake.cells.len() + 1,
        !m.eats() ==> m.stepped(food).score == m.score && m.stepped(food).snake.cells.len()
            == m.snake.cells.len(),
{
    crate::snake::lemma_advance_keeps_shape(m.snake);
    crate::snake::lemma_advance_then_grow(m.snake);
}

/// The speed only ever rises by one step at a time, and never beyond two ticks
/// per move.
pub proof fn lemma_speed_floor(m: GameModel, food: Point)
    ensures
        m.stepped(food).ticks_per_move <= m.ticks_per_move,
        m.stepped(food).ticks_per_move + 1 >= m.ticks_per_move,
        m.ticks_per_move >= 2 ==> m.stepped(food).ticks_per_move >= 2,
{
}

/// A (re)start forgets everything about the game but the size of its board,
/// and gives a well-formed, running game.
pub proof fn lemma_restart_forgets(a: GameModel, b: GameModel, food: Point)
    requires
        a.width == b.width,
        a.height == b.height,
        a.board_ok(),
    ensures
        a.restarted(food) == b.restarted(food),
        a.restarted(food).wf(),
        a.restarted(food).state == GameState::Running,
{
}

/// Throttling: in a running game whose tick counter is at zero, the first
/// `ticks_per_move - 1` ticks only count, and the next one moves the snake.
pub proof fn lemma_throttle(m: GameModel, food: Point, k: nat)
    requires
        m.state == GameState::Running,
        m.tick_counter == 0,
        1 <= m.ticks_per_move,
        k <= m.ticks_per_move,
    ensures
        k < m.ticks_per_move ==> m.ticked_times(k, food) == (GameModel {
            tick_counter: k as u32,
            ..m
        }),
        k == m.ticks_per_move ==> m.ticked_times(k, food) == m.stepped(food),
    decreases k,
{
    if k > 0 {
        lemma_throttle(m, food, (k - 1) as nat);
    }
}

/// A board with more cells than the snake has a free cell.
pub proof fn lemma_room(m: GameModel)
    requires
        m.board_ok(),
        m.snake.cells.len() < m.width * m.height,
    ensures
        m.has_free_cell(),
{
    let w = m.width as int;
    let n = w * (m.height as int);
    let cells = m.snake.cells;
    let idx = cells.map_values(|p: Point| p.y * w + p.x);
    idx.lemma_cardinality_of_set();
    vstd::set_lib::lemma_int_range(0, n);
    vstd::seq_lib::seq_to_set_is_finite(idx);
    if !m.has_free_cell() {
        assert forall|k: int|
            #[trigger] vstd::set_lib::set_int_range(0, n).contains(k) implies idx.to_set().contains(
            k,
        ) by {
            lemma_cell_at_in_bounds(m, k);
            let q = m.cell_at(k);
            assert(!cell_free(m.width, m.height, cells, q));
            assert(cells.contains(q));
            let j = choose|j: int| 0 <= j < cells.len() && cells[j] == q;
            lemma_cell_index(m, q);
            assert(idx[j] == k);
        }
        vstd::set_lib::lemma_len_subset(vstd::set_lib::set_int_range(0, n), idx.to_set());
    }
}

/// The snake a game begins with lies on any board at least four cells wide,
/// its cells distinct, and leaves room for the food.
proof fn lemma_fresh_layout(m: GameModel)
    requires
        m.board_ok(),
        m.width >= 4,
        m.snake == m.fresh_snake(),
    ensures
        m.snake.shaped(),
        forall|i: int| 0 <= i < m.snake.cells.len() ==> m.in_bounds(#[trigger] m.snake.cells[i]),
        m.snake.cells.no_duplicates(),
        m.has_free_cell(),
        m.snake.cells.len() == 3,
{
    let cx = (m.width / 2) as i32;
    let cy = (m.height / 2) as i32;
    crate::snake::lemma_spawned_shaped(cx, cy, 3);
    let cells = m.snake.cells;
    assert forall|i: int| 0 <= i < cells.len() implies m.in_bounds(#[trigger] cells[i]) by {
        assert(cells[i].x == cx - i);
    }
    assert forall|i: int, j: int| 0 <= i < cells.len() && 0 <= j < cells.len() && i != j implies cells[i]
        != cells[j] by {
        assert(cells[i].x == cx - i);
        assert(cells[j].x == cx - j);
    }
    assert(3 < m.width * m.height) by (nonlinear_arith)
        requires
            m.width >= 4,
            m.height >= 1,
    ;
    lemma_room(m);
}

/// A new game on a board at least four cells wide, with its food placed, is
/// reachable: score, length and speed agree, and the snake and the food lie
/// on the board apart.
pub proof fn lemma_created_reachable(width: u32, height: u32, food: Point)
    requires
        4 <= width <= i32::MAX,
        1 <= height <= i32::MAX,
        created(width, height, food).food_placed(),
    ensures
        created(width, height, food).reachable(),
{
    lemma_fresh_layout(created(width, height, food));
}

/// A (re)start of a reachable game, with its food placed, is reachable.
pub proof fn lemma_restart_reachable(m: GameModel, food: Point)
    requires
        m.reachable(),
        m.restarted(food).food_placed(),
    ensures
        m.restarted(food).reachable(),
{
    lemma_fresh_layout(m.restarted(food));
}

/// A step keeps a game reachable, provided that when the snake eats, its
/// score has room to grow and the grown snake leaves a cell of the board
/// free. Over any sequence of steps the snake's cells stay distinct cells of
/// the board, each sharing a side with the next, and the food stays on the
/// board off the snake, until the game is over.
pub proof fn lemma_step_keeps_reachable(m: GameModel, n: GameModel)
    requires
        m.reachable(),
        n == m.stepped(n.food),
        m.eats() ==> n.food_placed(),
        m.eats() ==> m.score + 10 <= u32::MAX,
        m.eats() ==> m.snake.cells.len() + 1 < m.width * m.height,
    ensures
        n.reachable(),
{
    lemma_step_keeps_wf(m, n.food);
    if m.state == GameState::Running {
        let v = m.snake;
        let moved = v.advanced();
        crate::snake::lemma_advance_keeps_shape(v);
        crate::snake::lemma_advance_then_grow(v);
        let nh = moved.head();
        if !m.in_bounds(nh) || moved.bites_itself() {
        } else {
            // the cells behind the new head are the old cells, the last dropped
            // unless the snake ate
            assert forall|i: int| 1 <= i < moved.cells.len() implies moved.cells[i] == v.cells[i
                - 1] by {}
            assert(!v.cells.drop_last().contains(nh)) by {
                if v.cells.drop_last().contains(nh) {
                    let j = choose|j: int|
                        0 <= j < v.cells.drop_last().len() && #[trigger] v.cells.drop_last()[j]
                            == nh;
                    assert(moved.cells[j + 1] == nh);
                }
            }
            if nh == m.food {
                let cells = n.snake.cells;
                assert(cells == seq![nh] + v.cells);
                assert forall|i: int| 0 <= i < cells.len() implies m.in_bounds(
                    #[trigger] cells[i],
                ) by {
                    if i >= 1 {
                        assert(cells[i] == v.cells[i - 1]);
                    }
                }
                assert(cells.no_duplicates()) by {
                    assert forall|i: int, j: int|
                        0 <= i < cells.len() && 0 <= j < cells.len() && i != j implies cells[i]
                        != cells[j] by {
                        if i == 0 && j >= 1 {
                            assert(cells[j] == v.cells[j - 1]);
                        } else if j == 0 && i >= 1 {
                            assert(cells[i] == v.cells[i - 1]);
                        } else if i >= 1 && j >= 1 {
                            assert(cells[i] == v.cells[i - 1]);
                            assert(cells[j] == v.cells[j - 1]);
                        }
                    }
                }
                lemma_room(n);
                let q = m.score / 50;
                assert(n.score == m.score + 10);
                assert(n.score % 10 == 0);
                assert(n.score / 10 == m.score / 10 + 1);
                assert(n.score % 50 == 0 <==> n.score / 50 == q + 1);
                assert(n.score % 50 != 0 ==> n.score / 50 == q);
            } else {
                let cells = n.snake.cells;
                assert(cells == seq![nh] + v.cells.drop_last());
                assert forall|i: int| 0 <= i < cells.len() implies m.in_bounds(
                    #[trigger] cells[i],
                ) by {
                    if i >= 1 {
                        assert(cells[i] == v.cells[i - 1]);
                    }
                }
                assert(cells.no_duplicates()) by {
                    assert forall|i: int, j: int|
                        0 <= i < cells.len() && 0 <= j < cells.len() && i != j implies cells[i]
                        != cells[j] by {
                        if i == 0 && j >= 1 {
                            assert(cells[j] == v.cells.drop_last()[j - 1]);
                        } else if j == 0 && i >= 1 {
                            assert(cells[i] == v.cells.drop_last()[i - 1]);
                        } else if i >= 1 && j >= 1 {
                            assert(cells[i] == v.cells[i - 1]);
                            assert(cells[j] == v.cells[j - 1]);
                        }
                    }
                }
                assert(!cells.contains(m.food)) by {
                    if cells.contains(m.food) {
                        let j = choose|j: int| 0 <= j < cells.len() && #[trigger] cells[j] == m.food;
                        assert(j >= 1);
                        assert(v.cells[j - 1] == m.food);
                    }
                }
            }
        }
    }
}

/// A render tick keeps a game reachable, on the same provisos as a step when
/// the tick moves the snake.
pub proof fn lemma_tick_keeps_reachable(m: GameModel, n: GameModel)
    requires
        m.reachable(),
        n == m.ticked(n.food),
        m.tick_moves() && m.eats() ==> n.food_placed(),
        m.tick_moves() && m.eats() ==> m.score + 10 <= u32::MAX,
        m.tick_moves() && m.eats() ==> m.snake.cells.len() + 1 < m.width * m.height,
    ensures
        n.reachable(),
{
    if m.state == GameState::Running && m.tick_counter + 1 >= m.ticks_per_move {
        let z = GameModel { tick_counter: 0, ..m };
        lemma_step_keeps_reachable(z, n);
    }
}

/// Key commands, direction requests and pause toggling keep a game
/// reachable (a restart places its food).
pub proof fn lemma_command_keeps_reachable(m: GameModel, c: KeyCommand, n: GameModel)
    requires
        m.reachable(),
        n == m.after_command(c, n.food),
        m.restarts_on(c) ==> n.food_placed(),
    ensures
        n.reachable(),
{
    match c {
        KeyCommand::Turn(d) => {
            crate::snake::lemma_turn_keeps_shape(m.snake, d);
        },
        KeyCommand::Start => {
            if m.restarts_on(c) {
                lemma_restart_reachable(m, n.food);
            }
        },
        _ => {},
    }
}

/// The cell buffer, read at `y * width + x`, draws every cell of the board:
/// `3` for the food, else `2` for the head, else `1` for any cell of the
/// snake (whatever its length), else `0`.
pub proof fn lemma_cell_codes(m: GameModel, p: Point)
    requires
        m.board_ok(),
        m.snake.cells.len() >= 1,
        0 <= p.x < m.width,
        0 <= p.y < m.height,
    ensures
        m.code_at(m.cell_at(p.y * m.width + p.x)) == (if p == m.food {
            3u8
        } else if p == m.snake.cells[0] {
            2u8
        } else if exists|i: int| 0 <= i < m.snake.cells.len() && m.snake.cells[i] == p {
            1u8
        } else {
            0u8
        }),
{
    lemma_cell_index(m, p);
}

/// What one step does to a running game, in terms of the cell
/// `(x + dx, y + dy)` that the head moves to in the queued direction: the
/// game ends exactly when that cell is off the board or is a cell of the body
/// other than its last one (the tail leaves its cell in the same move, so
/// the head may take it). Otherwise the game runs on with that cell as the
/// new head: on the food the snake keeps its tail and scores ten points and
/// new food is placed, elsewhere the tail cell is dropped and nothing else
/// changes.
pub proof fn lemma_step_outcome(m: GameModel, food: Point)
    requires
        m.wf(),
        m.state == GameState::Running,
        m.score + 10 <= u32::MAX,
    ensures
        ({
            let head = m.snake.cells[0];
            let d = m.snake.next_direction;
            let nx = head.x + dx(d);
            let ny = head.y + dy(d);
            let nh = Point { x: nx as i32, y: ny as i32 };
            let cells = m.snake.cells;
            let ends = !(0 <= nx < m.width && 0 <= ny < m.height) || exists|i: int|
                0 <= i < cells.len() - 1 && cells[i] == nh;
            let n = m.stepped(food);
            &&& (n.state == GameState::GameOver <==> ends)
            &&& (!ends ==> n.state == GameState::Running)
            &&& (ends ==> n.score == m.score && n.snake.cells.len() == cells.len() && n.food
                == m.food)
            &&& (!ends && nh == m.food ==> n.snake.cells == seq![nh] + cells && n.score == m.score
                + 10 && n.food == food && n.ticks_per_move == (if (m.score + 10) % 50 == 0
                && m.ticks_per_move > 2 {
                m.ticks_per_move - 1
            } else {
                m.ticks_per_move as int
            }))
            &&& (!ends && nh != m.food ==> n.snake.cells == seq![nh] + cells.drop_last()
                && n.score == m.score && n.food == m.food && n.ticks_per_move
                == m.ticks_per_move)
            &&& (m.eats() <==> (!ends && nh == m.food))
        }),
{
    let v = m.snake;
    let moved = v.advanced();
    let head = v.cells[0];
    let d = v.next_direction;
    let nh = Point { x: (head.x + dx(d)) as i32, y: (head.y + dy(d)) as i32 };
    assert(moved.head() == nh);
    assert(moved.cells == seq![nh] + v.cells.drop_last());
    crate::snake::lemma_advance_then_grow(v);
    let bites = exists|i: int| 0 <= i < v.cells.len() - 1 && v.cells[i] == nh;
    assert(moved.bites_itself() <==> bites) by {
        if moved.bites_itself() {
            let j = choose|j: int| 1 <= j < moved.cells.len() && #[trigger] moved.cells[j] == moved.cells[0];
            assert(v.cells[j - 1] == nh);
        }
        if bites {
            let i = choose|i: int| 0 <= i < v.cells.len() - 1 && v.cells[i] == nh;
            assert(moved.cells[i + 1] == nh);
        }
    }
}

/// The keys of the game, case-sensitive: the arrow keys and `w`, `s`, `a`,
/// `d` turn up, down, left and right; Enter and space start; `p` and Escape
/// pause.
pub proof fn lemma_documented_keys()
    ensures
        command_for("ArrowUp"@) == KeyCommand::Turn(Direction::Up),
        command_for("w"@) == KeyCommand::Turn(Direction::Up),
        command_for("ArrowDown"@) == KeyCommand::Turn(Direction::Down),
        command_for("s"@) == KeyCommand::Turn(Direction::Down),
        command_for("ArrowLeft"@) == KeyCommand::Turn(Direction::Left),
        command_for("a"@) == KeyCommand::Turn(Direction::Left),
        command_for("ArrowRight"@) == KeyCommand::Turn(Direction::Right),
        command_for("d"@) == KeyCommand::Turn(Direction::Right),
        command_for("Enter"@) == KeyCommand::Start,
        command_for(" "@) == KeyCommand::Start,
        command_for("p"@) == KeyCommand::Pause,
        command_for("Escape"@) == KeyCommand::Pause,
{
    reveal_strlit("ArrowUp");
    reveal_strlit("w");
    reveal_strlit("ArrowDown");
    reveal_strlit("s");
    reveal_strlit("ArrowLeft");
    reveal_strlit("a");
    reveal_strlit("ArrowRight");
    reveal_strlit("d");
    reveal_strlit("Enter");
    reveal_strlit(" ");
    reveal_strlit("p");
    reveal_strlit("Escape");
    assert("ArrowLeft"@[5] != "ArrowDown"@[5]);
    assert("ArrowRight"@.len() != "ArrowUp"@.len() && "ArrowRight"@.len() != "ArrowDown"@.len()
        && "ArrowRight"@.len() != "ArrowLeft"@.len());
    assert("ArrowRight"@ != "ArrowUp"@ && "ArrowRight"@ != "ArrowDown"@ && "ArrowRight"@
        != "ArrowLeft"@);
    assert("Escape"@.len() != "ArrowUp"@.len() && "Escape"@.len() != "ArrowDown"@.len()
        && "Escape"@.len() != "ArrowLeft"@.len() && "Escape"@.len() != "ArrowRight"@.len()
        && "Escape"@.len() != "Enter"@.len());
    assert("Escape"@ != "ArrowUp"@ && "Escape"@ != "ArrowDown"@ && "Escape"@ != "ArrowLeft"@
        && "Escape"@ != "ArrowRight"@ && "Escape"@ != "Enter"@);
    assert("s"@[0] != "w"@[0]);
    assert("a"@[0] != "w"@[0] && "a"@[0] != "s"@[0]);
    assert("d"@[0] != "w"@[0] && "d"@[0] != "s"@[0] && "d"@[0] != "a"@[0]);
    assert(" "@[0] != "w"@[0] && " "@[0] != "s"@[0] && " "@[0] != "a"@[0] && " "@[0] != "d"@[0]);
    assert("p"@[0] != "w"@[0] && "p"@[0] != "s"@[0] && "p"@[0] != "a"@[0] && "p"@[0] != "d"@[0]
        && "p"@[0] != " "@[0]);
}

/// Every other key is ignored.
pub proof fn lemma_other_keys_ignored(key: Seq<char>)
    requires
        key != "ArrowUp"@,
        key != "w"@,
        key != "ArrowDown"@,
        key != "s"@,
        key != "ArrowLeft"@,
        key != "a"@,
        key != "ArrowRight"@,
        key != "d"@,
        key != "Enter"@,
        key != " "@,
        key != "p"@,
        key != "Escape"@,
    ensures
        command_for(key) == KeyCommand::Ignore,
{
}

/// Start or restart: Enter (or space) restarts an idle or finished game with
/// a centred snake of three cells moving right, score zero and ten ticks per
/// move; a running or paused game is left as it is.
pub proof fn lemma_start_key(m: GameModel, food: Point)
    ensures
        (m.state == GameState::Running || m.state == GameState::Paused) ==> m.after_command(
            KeyCommand::Start,
            food,
        ) == m,
        (m.state == GameState::Running || m.state == GameState::Paused) ==> !m.restarts_on(
            KeyCommand::Start,
        ),
        (m.state == GameState::Idle || m.state == GameState::GameOver) ==> ({
            let n = m.after_command(KeyCommand::Start, food);
            &&& m.restarts_on(KeyCommand::Start)
            &&& n.state == GameState::Running
            &&& n.width == m.width && n.height == m.height
            &&& n.score == 0 && n.tick_counter == 0 && n.ticks_per_move == 10
            &&& n.snake.cells.len() == 3
            &&& n.snake.cells[0] == Point { x: (m.width / 2) as i32, y: (m.height / 2) as i32 }
            &&& n.snake.direction == Direction::Right
            &&& n.snake.next_direction == Direction::Right
            &&& n.food == food
        }),
{
}

/// Where food may go: on a board with a cell that the snake leaves free, a
/// cell of the board off the snake; on a covered board, `(0, 0)`.
pub proof fn lemma_food_cell_meaning(m: GameModel, p: Point)
    ensures
        (exists|q: Point|
            0 <= q.x < m.width && 0 <= q.y < m.height && !m.snake.cells.contains(q))
            ==> (m.is_food_cell(p) <==> (0 <= p.x < m.width && 0 <= p.y < m.height
            && !m.snake.cells.contains(p))),
        !(exists|q: Point|
            0 <= q.x < m.width && 0 <= q.y < m.height && !m.snake.cells.contains(q))
            ==> (m.is_food_cell(p) <==> p == Point { x: 0, y: 0 }),
{
    if exists|q: Point| 0 <= q.x < m.width && 0 <= q.y < m.height && !m.snake.cells.contains(q) {
        let q = choose|q: Point|
            0 <= q.x < m.width && 0 <= q.y < m.height && !m.snake.cells.contains(q);
        assert(cell_free(m.width, m.height, m.snake.cells, q));
    }
}

/// The pause key pauses a running game and resumes a paused one; an idle or
/// finished game is left as it is. Nothing but the phase changes.
pub proof fn lemma_pause_key(m: GameModel, food: Point)
    ensures
        ({
            let n = m.after_command(KeyCommand::Pause, food);
            &&& m.state == GameState::Running ==> n.state == GameState::Paused
            &&& m.state == GameState::Paused ==> n.state == GameState::Running
            &&& (m.state == GameState::Idle || m.state == GameState::GameOver) ==> n == m
            &&& n == (GameModel { state: n.state, ..m })
        }),
{
}

} // verus!

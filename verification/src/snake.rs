//! Snake entity: tracks body segments and movement direction.

use std::collections::VecDeque;
use vstd::prelude::*;

verus! {

/// Cardinal directions the snake can travel.
#[derive(Clone, Copy, Debug, PartialEq, Eq, Structural)]
pub enum Direction {
    Up,
    Down,
    Left,
    Right,
}

impl Direction {
    /// `other` is the direct opposite of `self`.
    pub open spec fn opposes(self, other: Direction) -> bool {
        match (self, other) {
            (Direction::Up, Direction::Down) => true,
            (Direction::Down, Direction::Up) => true,
            (Direction::Left, Direction::Right) => true,
            (Direction::Right, Direction::Left) => true,
            _ => false,
        }
    }

    /// Returns `true` when `other` is the direct opposite of `self`.
    ///
    /// The snake may not reverse directly into itself.
    pub fn is_opposite(self, other: Direction) -> (r: bool)
        ensures
            r == self.opposes(other),
    {
        match (self, other) {
            (Direction::Up, Direction::Down) => true,
            (Direction::Down, Direction::Up) => true,
            (Direction::Left, Direction::Right) => true,
            (Direction::Right, Direction::Left) => true,
            _ => false,
        }
    }
}

/// A single cell position on the board.
#[derive(Clone, Copy, Debug, PartialEq, Eq, Structural)]
pub struct Point {
    pub x: i32,
    pub y: i32,
}

impl Point {
    /// Create a new [`Point`].
    pub fn new(x: i32, y: i32) -> (p: Self)
        ensures
            p.x == x,
            p.y == y,
    {
        Point { x, y }
    }
}

/// The cell next to `p` in direction `d` (the y axis grows downwards).
pub open spec fn neighbour(p: Point, d: Direction) -> Point {
    match d {
        Direction::Up => Point { x: p.x, y: (p.y - 1) as i32 },
        Direction::Down => Point { x: p.x, y: (p.y + 1) as i32 },
        Direction::Left => Point { x: (p.x - 1) as i32, y: p.y },
        Direction::Right => Point { x: (p.x + 1) as i32, y: p.y },
    }
}

/// Moving from `p` in direction `d` stays within the range of `i32`.
pub open spec fn can_move(p: Point, d: Direction) -> bool {
    match d {
        Direction::Up => p.y > i32::MIN,
        Direction::Down => p.y < i32::MAX,
        Direction::Left => p.x > i32::MIN,
        Direction::Right => p.x < i32::MAX,
    }
}

/// The mathematical model of a snake: its cells from head to tail, the
/// direction it last moved in, and the direction it will move in next.
pub struct SnakeView {
    pub cells: Seq<Point>,
    pub direction: Direction,
    pub next_direction: Direction,
}

/// The step in `x` that a move in direction `d` makes.
pub open spec fn dx(d: Direction) -> int {
    match d {
        Direction::Left => -1,
        Direction::Right => 1,
        _ => 0,
    }
}

/// The step in `y` that a move in direction `d` makes.
pub open spec fn dy(d: Direction) -> int {
    match d {
        Direction::Up => -1,
        Direction::Down => 1,
        _ => 0,
    }
}

/// `p` and `q` share a side: they differ by one in exactly one coordinate.
pub open spec fn adjacent(p: Point, q: Point) -> bool {
    let ax: int = if p.x >= q.x { p.x - q.x } else { q.x - p.x };
    let ay: int = if p.y >= q.y { p.y - q.y } else { q.y - p.y };
    ax + ay == 1
}

impl SnakeView {
    /// What every snake satisfies: it has a body, and the queued direction
    /// never reverses the current one.
    pub open spec fn inv(self) -> bool {
        &&& self.cells.len() >= 1
        &&& !self.direction.opposes(self.next_direction)
    }

    pub open spec fn head(self) -> Point {
        self.cells[0]
    }

    /// Cells `i` and `i + 1` share a side.
    pub open spec fn linked(self, i: int) -> bool {
        adjacent(self.cells[i], self.cells[i + 1])
    }

    /// Each cell shares a side with the next one.
    pub open spec fn connected(self) -> bool {
        forall|i: int| 0 <= i < self.cells.len() - 1 ==> #[trigger] self.linked(i)
    }

    /// The head lies one step beyond the second cell in the direction the
    /// snake last moved in.
    pub open spec fn neck_behind(self) -> bool {
        self.cells.len() >= 2 ==> {
            &&& self.cells[0].x == self.cells[1].x + dx(self.direction)
            &&& self.cells[0].y == self.cells[1].y + dy(self.direction)
        }
    }

    /// The shape of a snake that only moved, turned and grew by the tail it
    /// just vacated: a chain of cells sharing sides, its head ahead of its
    /// neck.
    pub open spec fn shaped(self) -> bool {
        &&& self.inv()
        &&& self.connected()
        &&& self.neck_behind()
    }

    /// The cell that the tail occupies.
    pub open spec fn tail(self) -> Point {
        self.cells.last()
    }

    /// A request to turn towards `d`: ignored when it would reverse the snake
    /// or when it repeats the direction the snake already moves in.
    pub open spec fn turned(self, d: Direction) -> SnakeView {
        if self.direction.opposes(d) || d == self.direction {
            self
        } else {
            SnakeView { cells: self.cells, direction: self.direction, next_direction: d }
        }
    }

    /// The head may take the next step without leaving the range of `i32`.
    pub open spec fn can_advance(self) -> bool {
        can_move(self.head(), self.next_direction)
    }

    /// One step: the queued direction is committed, a new head is added in
    /// that direction and the tail cell is vacated.
    pub open spec fn advanced(self) -> SnakeView {
        SnakeView {
            cells: seq![neighbour(self.head(), self.next_direction)] + self.cells.drop_last(),
            direction: self.next_direction,
            next_direction: self.next_direction,
        }
    }

    /// The cell `tail` is added behind the tail.
    pub open spec fn grown(self, tail: Point) -> SnakeView {
        SnakeView {
            cells: self.cells.push(tail),
            direction: self.direction,
            next_direction: self.next_direction,
        }
    }

    /// The head occupies a body segment behind it.
    pub open spec fn bites_itself(self) -> bool {
        exists|i: int| 1 <= i < self.cells.len() && #[trigger] self.cells[i] == self.cells[0]
    }
}

/// A freshly spawned snake of `length` cells: head at `(head_x, head_y)`, the
/// body extending to the left, moving right.
pub open spec fn spawned(head_x: i32, head_y: i32, length: nat) -> SnakeView {
    SnakeView {
        cells: Seq::new(length, |i: int| Point { x: (head_x - i) as i32, y: head_y }),
        direction: Direction::Right,
        next_direction: Direction::Right,
    }
}

/// The snake: a deque of [`Point`]s where `front` is the head.
#[derive(Debug, Clone)]
pub struct Snake {
    body: VecDeque<Point>,
    direction: Direction,
    /// Pending direction change queued from user input.
    next_direction: Direction,
}

impl View for Snake {
    type V = SnakeView;

    closed spec fn view(&self) -> SnakeView {
        SnakeView {
            cells: self.body@,
            direction: self.direction,
            next_direction: self.next_direction,
        }
    }
}

impl Snake {
    /// Spawn a new snake of the given `length` with its *head* at `(x, y)`,
    /// oriented to move [`Direction::Right`].
    pub fn new(head_x: i32, head_y: i32, length: usize) -> (s: Self)
        requires
            length > 0,
            length <= i32::MAX,
            head_x - length + 1 >= i32::MIN,
        ensures
            s@ == spawned(head_x, head_y, length as nat),
            s@.inv(),
            s@.shaped(),
    {
        let mut body: VecDeque<Point> = VecDeque::with_capacity(length);
        let n: i32 = length as i32;
        let mut i: i32 = 0;
        while i < n
            invariant
                0 <= i <= n,
                n == length,
                head_x - length + 1 >= i32::MIN,
                body@ == spawned(head_x, head_y, i as nat).cells,
            decreases n - i,
        {
            body.push_back(Point::new(head_x - i, head_y));
            i = i + 1;
            assert(body@ =~= spawned(head_x, head_y, i as nat).cells);
        }
        proof {
            lemma_spawned_shaped(head_x, head_y, length as nat);
        }
        Snake { body, direction: Direction::Right, next_direction: Direction::Right }
    }

    /// The head position.
    pub fn head(&self) -> (p: Point)
        requires
            self@.inv(),
        ensures
            p == self@.head(),
    {
        self.body[0]
    }

    /// Immutable view of the whole body.
    pub fn body(&self) -> (b: &VecDeque<Point>)
        ensures
            b@ == self@.cells,
    {
        &self.body
    }

    /// Current *effective* direction (already applied for the last step).
    pub fn direction(&self) -> (d: Direction)
        ensures
            d == self@.direction,
    {
        self.direction
    }

    /// Queue a new direction.  Reversal and duplicate requests are silently ignored.
    pub fn set_direction(&mut self, dir: Direction)
        requires
            old(self)@.inv(),
        ensures
            final(self)@ == old(self)@.turned(dir),
            final(self)@.inv(),
            old(self)@.shaped() ==> final(self)@.shaped(),
    {
        proof {
            lemma_turn_keeps_shape(old(self)@, dir);
        }
        if !self.direction.is_opposite(dir) && dir != self.direction {
            self.next_direction = dir;
        }
    }

    /// The cell the head moves to on the next step.
    pub fn next_head(&self) -> (p: Point)
        requires
            self@.inv(),
            self@.can_advance(),
        ensures
            p == self@.advanced().head(),
    {
        let head = self.head();
        match self.next_direction {
            Direction::Up => Point::new(head.x, head.y - 1),
            Direction::Down => Point::new(head.x, head.y + 1),
            Direction::Left => Point::new(head.x - 1, head.y),
            Direction::Right => Point::new(head.x + 1, head.y),
        }
    }

    /// Returns `true` if the next step would move the head onto a body
    /// segment that stays behind it.
    pub fn next_step_bites(&self) -> (r: bool)
        requires
            self@.inv(),
            self@.can_advance(),
        ensures
            r == self@.advanced().bites_itself(),
    {
        let new_head = self.next_head();
        let n = self.body.len() - 1;
        let ghost moved = self@.advanced();
        let mut i: usize = 0;
        while i < n
            invariant
                n + 1 == self@.cells.len(),
                moved == self@.advanced(),
                new_head == moved.head(),
                0 <= i <= n,
                forall|j: int| 0 <= j < i ==> self@.cells[j] != new_head,
            decreases n - i,
        {
            if self.body[i] == new_head {
                assert(moved.cells[i + 1] == new_head);
                return true;
            }
            i = i + 1;
        }
        assert forall|j: int| 1 <= j < moved.cells.len() implies #[trigger] moved.cells[j]
            != moved.cells[0] by {
            assert(moved.cells[j] == self@.cells[j - 1]);
        }
        false
    }

    /// Move the snake one cell, applying any queued direction.
    ///
    /// Returns the tail cell that was vacated (callers decide whether to keep it
    /// for growth).
    pub fn advance(&mut self) -> (tail: Point)
        requires
            old(self)@.inv(),
            old(self)@.can_advance(),
        ensures
            final(self)@ == old(self)@.advanced(),
            final(self)@.inv(),
            tail == old(self)@.tail(),
            !old(self)@.direction.opposes(final(self)@.direction),
            old(self)@.shaped() ==> final(self)@.shaped(),
            old(self)@.shaped() && old(self)@.cells.len() >= 2 ==> final(self)@.head()
                != old(self)@.cells[1],
    {
        proof {
            if old(self)@.shaped() {
                lemma_advance_keeps_shape(old(self)@);
            }
        }
        let new_head = self.next_head();
        self.direction = self.next_direction;
        self.body.push_front(new_head);
        let tail = self.body.pop_back();
        match tail {
            Some(t) => {
                assert(self.body@ =~= seq![new_head] + old(self)@.cells.drop_last());
                t
            },
            None => {
                proof {
                    assert(false);
                }
                new_head
            },
        }
    }

    /// Extend the snake by re-adding the given tail cell.
    pub fn grow(&mut self, tail: Point)
        requires
            old(self)@.inv(),
        ensures
            final(self)@ == old(self)@.grown(tail),
            final(self)@.inv(),
    {
        self.body.push_back(tail);
    }

    /// Returns `true` if the head occupies any body segment behind it.
    pub fn is_self_colliding(&self) -> (r: bool)
        requires
            self@.inv(),
        ensures
            r == self@.bites_itself(),
    {
        let head = self.head();
        let n = self.body.len();
        let mut i: usize = 1;
        while i < n
            invariant
                1 <= i <= n,
                n == self@.cells.len(),
                head == self@.cells[0],
                forall|j: int| 1 <= j < i ==> self@.cells[j] != head,
            decreases n - i,
        {
            if self.body[i] == head {
                return true;
            }
            i = i + 1;
        }
        false
    }

    /// Number of body cells.
    pub fn len(&self) -> (n: usize)
        requires
            self@.inv(),
        ensures
            n == self@.cells.len(),
            n >= 1,
    {
        self.body.len()
    }

    /// Returns `true` when the snake has no body cells (never happens in normal usage).
    pub fn is_empty(&self) -> (r: bool)
        ensures
            r == (self@.cells.len() == 0),
            self@.inv() ==> !r,
    {
        self.body.len() == 0
    }

    /// Returns `true` if the snake occupies the given point.
    pub fn occupies(&self, point: Point) -> (r: bool)
        ensures
            r == self@.cells.contains(point),
    {
        let n = self.body.len();
        let mut i: usize = 0;
        while i < n
            invariant
                0 <= i <= n,
                n == self@.cells.len(),
                forall|j: int| 0 <= j < i ==> self@.cells[j] != point,
            decreases n - i,
        {
            if self.body[i] == point {
                return true;
            }
            i = i + 1;
        }
        false
    }
}

// ---------------------------------------------------------------------------
// Laws
// ---------------------------------------------------------------------------

/// Opposition of directions is symmetric, and no direction opposes itself.
pub proof fn lemma_opposes_symmetric(a: Direction, b: Direction)
    ensures
        a.opposes(b) == b.opposes(a),
        !a.opposes(a),
{
}

/// A turn request keeps the body and the invariant; a request that would
/// reverse the snake is ignored.
pub proof fn lemma_turn_keeps_shape(v: SnakeView, d: Direction)
    requires
        v.inv(),
    ensures
        v.turned(d).cells == v.cells,
        v.turned(d).inv(),
        v.direction.opposes(d) || d == v.direction ==> v.turned(d) == v,
        v.shaped() ==> v.turned(d).shaped(),
{
    if v.shaped() {
        let t = v.turned(d);
        assert forall|i: int| 0 <= i < t.cells.len() - 1 implies #[trigger] t.linked(i) by {
            assert(v.linked(i));
        }
    }
}

/// A freshly spawned snake is shaped: a straight chain with its head in
/// front, moving right.
pub proof fn lemma_spawned_shaped(head_x: i32, head_y: i32, length: nat)
    requires
        length >= 1,
        head_x - length + 1 >= i32::MIN,
    ensures
        spawned(head_x, head_y, length).shaped(),
{
    let v = spawned(head_x, head_y, length);
    assert forall|i: int| 0 <= i < v.cells.len() - 1 implies #[trigger] v.linked(i) by {
        assert(v.cells[i].x == head_x - i);
        assert(v.cells[i + 1].x == head_x - i - 1);
    }
}

/// A step keeps the length of the snake and its invariant, and the snake never
/// reverses into itself. A shaped snake stays shaped, and its new head never
/// lands on its old neck.
pub proof fn lemma_advance_keeps_shape(v: SnakeView)
    requires
        v.inv(),
    ensures
        v.advanced().cells.len() == v.cells.len(),
        v.advanced().inv(),
        !v.direction.opposes(v.advanced().direction),
        v.shaped() && v.can_advance() ==> v.advanced().shaped(),
        v.shaped() && v.can_advance() && v.cells.len() >= 2 ==> v.advanced().head() != v.cells[1],
{
    if v.shaped() && v.can_advance() {
        let w = v.advanced();
        let nh = w.head();
        assert(nh.x == v.head().x + dx(v.next_direction));
        assert(nh.y == v.head().y + dy(v.next_direction));
        assert forall|i: int| 0 <= i < w.cells.len() - 1 implies #[trigger] w.linked(i) by {
            if i >= 1 {
                assert(w.cells[i] == v.cells[i - 1]);
                assert(w.cells[i + 1] == v.cells[i]);
                assert(v.linked(i - 1));
            } else {
                assert(w.cells[1] == v.cells[0]);
            }
        }
        if v.cells.len() >= 2 {
            assert(w.cells[1] == v.cells[0]);
        }
    }
}

/// Growing by the tail cell that a step vacated gives back the whole old body
/// behind the new head: the snake is one cell longer, and a shaped snake
/// stays shaped.
pub proof fn lemma_advance_then_grow(v: SnakeView)
    requires
        v.inv(),
    ensures
        v.advanced().grown(v.tail()).cells == seq![v.advanced().head()] + v.cells,
        v.advanced().grown(v.tail()).cells.len() == v.cells.len() + 1,
        v.advanced().grown(v.tail()).inv(),
        v.shaped() && v.can_advance() ==> v.advanced().grown(v.tail()).shaped(),
{
    let moved = v.advanced();
    let g = moved.grown(v.tail());
    assert(g.cells =~= seq![moved.head()] + v.cells);
    lemma_advance_keeps_shape(v);
    if v.shaped() && v.can_advance() {
        assert(moved.head().x == v.head().x + dx(v.next_direction));
        assert(moved.head().y == v.head().y + dy(v.next_direction));
        assert forall|i: int| 0 <= i < g.cells.len() - 1 implies #[trigger] g.linked(i) by {
            if i >= 1 {
                assert(g.cells[i] == v.cells[i - 1]);
                assert(g.cells[i + 1] == v.cells[i]);
                assert(v.linked(i - 1));
            } else {
                assert(g.cells[1] == v.cells[0]);
            }
        }
        assert(g.cells[1] == v.cells[0]);
    }
}

/// Two directions oppose each other exactly when a move in one undoes a
/// move in the other.
pub proof fn lemma_opposes_undoes(a: Direction, b: Direction)
    ensures
        a.opposes(b) <==> (dx(a) + dx(b) == 0 && dy(a) + dy(b) == 0),
{
}

/// A turn request for a direction that neither repeats nor reverses the
/// current one is queued, so the next step goes that way; any other request
/// leaves the snake as it is. The body and the current direction never
/// change.
pub proof fn lemma_turn_queues(v: SnakeView, d: Direction)
    ensures
        d != v.direction && !(dx(d) + dx(v.direction) == 0 && dy(d) + dy(v.direction) == 0)
            ==> v.turned(d).next_direction == d,
        d == v.direction || (dx(d) + dx(v.direction) == 0 && dy(d) + dy(v.direction) == 0)
            ==> v.turned(d) == v,
        v.turned(d).cells == v.cells,
        v.turned(d).direction == v.direction,
{
}

} // verus!

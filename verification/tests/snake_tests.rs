use snake_wasm::{Direction, Point, Snake};

#[test]
fn new_snake_has_correct_length() {
    let s = Snake::new(5, 5, 3);
    assert_eq!(s.len(), 3);
}

#[test]
fn new_snake_head_position() {
    let s = Snake::new(5, 5, 3);
    assert_eq!(s.head(), Point::new(5, 5));
}

#[test]
fn new_snake_body_extends_left() {
    let s = Snake::new(5, 5, 3);
    let body: Vec<_> = s.body().iter().copied().collect();
    assert_eq!(body, vec![Point::new(5, 5), Point::new(4, 5), Point::new(3, 5)]);
}

#[test]
fn advance_right_moves_head() {
    let mut s = Snake::new(5, 5, 1);
    s.advance();
    assert_eq!(s.head(), Point::new(6, 5));
}

#[test]
fn advance_up_moves_head() {
    let mut s = Snake::new(5, 5, 1);
    s.set_direction(Direction::Up);
    s.advance();
    assert_eq!(s.head(), Point::new(5, 4));
}

#[test]
fn advance_down_moves_head() {
    let mut s = Snake::new(5, 5, 1);
    s.set_direction(Direction::Down);
    s.advance();
    assert_eq!(s.head(), Point::new(5, 6));
}

#[test]
fn advance_left_moves_head() {
    let mut s = Snake::new(5, 5, 1);
    // Must first go up or down before going left (can't reverse directly from Right)
    s.set_direction(Direction::Up);
    s.advance(); // now at (5,4) going Up
    s.set_direction(Direction::Left);
    s.advance(); // now at (4,4) going Left
    assert_eq!(s.head(), Point::new(4, 4));
}

#[test]
fn cannot_reverse_direction() {
    let mut s = Snake::new(5, 5, 1);
    // Going Right, try to go Left (reverse) – should be ignored
    s.set_direction(Direction::Left);
    s.advance();
    // Head should still have moved right
    assert_eq!(s.head(), Point::new(6, 5));
}

#[test]
fn grow_increases_length() {
    let mut s = Snake::new(5, 5, 1);
    let tail = s.advance();
    s.grow(tail);
    assert_eq!(s.len(), 2);
}

#[test]
fn self_collision_detected() {
    let mut s = Snake::new(3, 3, 4);
    s.set_direction(Direction::Down);
    let t1 = s.advance();
    s.grow(t1);
    // A snake that has only turned once cannot touch itself.
    assert!(!s.is_self_colliding());
}

#[test]
fn occupies_returns_true_for_body() {
    let s = Snake::new(5, 5, 3);
    assert!(s.occupies(Point::new(5, 5)));
    assert!(s.occupies(Point::new(4, 5)));
    assert!(s.occupies(Point::new(3, 5)));
    assert!(!s.occupies(Point::new(6, 5)));
}

#[test]
fn is_opposite_works() {
    assert!(Direction::Up.is_opposite(Direction::Down));
    assert!(Direction::Down.is_opposite(Direction::Up));
    assert!(Direction::Left.is_opposite(Direction::Right));
    assert!(Direction::Right.is_opposite(Direction::Left));
    assert!(!Direction::Up.is_opposite(Direction::Left));
}

// ---------------------------------------------------------------------------
// Further cases
// ---------------------------------------------------------------------------

#[test]
fn opposition_is_symmetric_and_irreflexive() {
    let all = [Direction::Up, Direction::Down, Direction::Left, Direction::Right];
    for a in all {
        assert!(!a.is_opposite(a));
        for b in all {
            assert_eq!(a.is_opposite(b), b.is_opposite(a));
        }
    }
}

#[test]
fn advance_returns_vacated_tail_and_keeps_length() {
    let mut s = Snake::new(5, 5, 3);
    let tail = s.advance();
    assert_eq!(tail, Point::new(3, 5));
    let body: Vec<_> = s.body().iter().copied().collect();
    assert_eq!(body, vec![Point::new(6, 5), Point::new(5, 5), Point::new(4, 5)]);
}

#[test]
fn advance_then_grow_prepends_new_head() {
    let mut s = Snake::new(5, 5, 3);
    let tail = s.advance();
    s.grow(tail);
    let body: Vec<_> = s.body().iter().copied().collect();
    assert_eq!(
        body,
        vec![Point::new(6, 5), Point::new(5, 5), Point::new(4, 5), Point::new(3, 5)]
    );
}

#[test]
fn direction_is_committed_by_advance() {
    let mut s = Snake::new(5, 5, 2);
    assert_eq!(s.direction(), Direction::Right);
    s.set_direction(Direction::Down);
    // Queued only: the effective direction changes on the next step.
    assert_eq!(s.direction(), Direction::Right);
    s.advance();
    assert_eq!(s.direction(), Direction::Down);
    assert_eq!(s.head(), Point::new(5, 6));
}

#[test]
fn self_collision_when_head_meets_body() {
    // Body (5,5) (4,5) (3,5) (2,5) (1,5); loop back onto it: up, left, down.
    let mut s = Snake::new(5, 5, 5);
    s.set_direction(Direction::Up);
    s.advance(); // (5,4)
    s.set_direction(Direction::Left);
    s.advance(); // (4,4)
    assert!(!s.is_self_colliding());
    s.set_direction(Direction::Down);
    s.advance(); // (4,5), still part of the body
    assert_eq!(s.head(), Point::new(4, 5));
    assert!(s.is_self_colliding());
}

#[test]
fn snake_is_never_empty() {
    let s = Snake::new(0, 0, 1);
    assert!(!s.is_empty());
    assert_eq!(s.len(), 1);
}

#[test]
fn duplicate_request_keeps_queued_turn() {
    let mut s = Snake::new(5, 5, 1);
    s.set_direction(Direction::Up);
    s.set_direction(Direction::Right); // same as the current direction: ignored
    s.advance();
    assert_eq!(s.head(), Point::new(5, 4));
}

#[test]
fn head_never_lands_on_neck() {
    let all = [Direction::Up, Direction::Down, Direction::Left, Direction::Right];
    for d in all {
        let mut s = Snake::new(5, 5, 3);
        let neck = Point::new(4, 5);
        s.set_direction(d);
        s.advance();
        assert_ne!(s.head(), neck);
        let body: Vec<_> = s.body().iter().copied().collect();
        for w in body.windows(2) {
            assert_eq!((w[0].x - w[1].x).abs() + (w[0].y - w[1].y).abs(), 1);
        }
    }
}

use snake_wasm::{Direction, Game, GameState, KeyCommand, Point};

fn running_game() -> Game {
    let mut g = Game::new(20, 20);
    g.start();
    g
}

#[test]
fn new_game_is_idle() {
    let g = Game::new(20, 20);
    assert_eq!(g.state, GameState::Idle);
}

#[test]
fn start_sets_running() {
    let g = running_game();
    assert_eq!(g.state, GameState::Running);
}

#[test]
fn start_resets_score() {
    let mut g = running_game();
    g.score = 100;
    g.start();
    assert_eq!(g.score, 0);
}

#[test]
fn start_resets_snake_length() {
    let mut g = running_game();
    g.start();
    assert_eq!(g.snake_length(), 3);
}

#[test]
fn tick_does_nothing_when_idle() {
    let mut g = Game::new(20, 20);
    let head_before = g.snake.head();
    g.tick();
    assert_eq!(g.snake.head(), head_before);
}

#[test]
fn tick_does_nothing_when_paused() {
    let mut g = running_game();
    g.toggle_pause();
    let head_before = g.snake.head();
    for _ in 0..20 {
        g.tick();
    }
    assert_eq!(g.snake.head(), head_before);
}

#[test]
fn step_advances_snake() {
    let mut g = running_game();
    let head_before = g.snake.head();
    g.step();
    let head_after = g.snake.head();
    // Default direction is Right
    assert_eq!(head_after.x, head_before.x + 1);
    assert_eq!(head_after.y, head_before.y);
}

#[test]
fn wall_collision_ends_game() {
    let mut g = Game::new(10, 10);
    g.start();
    // Move right until we hit the wall
    for _ in 0..20 {
        g.step();
    }
    assert_eq!(g.state, GameState::GameOver);
}

#[test]
fn snake_grows_on_food() {
    let mut g = running_game();
    let initial_len = g.snake_length();
    // Place food directly in front of the head
    let head = g.snake.head();
    g.food = Point::new(head.x + 1, head.y);
    g.step();
    assert_eq!(g.snake_length(), initial_len + 1);
}

#[test]
fn score_increases_on_food() {
    let mut g = running_game();
    let head = g.snake.head();
    g.food = Point::new(head.x + 1, head.y);
    g.step();
    assert_eq!(g.score, 10);
}

#[test]
fn toggle_pause_pauses_and_resumes() {
    let mut g = running_game();
    g.toggle_pause();
    assert_eq!(g.state, GameState::Paused);
    g.toggle_pause();
    assert_eq!(g.state, GameState::Running);
}

#[test]
fn toggle_pause_does_not_affect_idle() {
    let mut g = Game::new(20, 20);
    g.toggle_pause();
    assert_eq!(g.state, GameState::Idle);
}

#[test]
fn cells_returns_correct_size() {
    let g = Game::new(10, 15);
    assert_eq!(g.cells_vec().len(), 150);
}

#[test]
fn cells_marks_food_and_head() {
    let mut g = running_game();
    // Place food in top-left corner and start going up/left away from it
    g.food = Point::new(0, 0);
    let cells = g.cells_vec();
    assert_eq!(cells[0], 3); // food at (0,0)
    // Head should be marked as 2
    let head = g.snake.head();
    let idx = (head.y as u32 * g.width + head.x as u32) as usize;
    assert_eq!(cells[idx], 2);
}

#[test]
fn in_bounds_works() {
    let g = Game::new(10, 10);
    assert!(g.in_bounds(Point::new(0, 0)));
    assert!(g.in_bounds(Point::new(9, 9)));
    assert!(!g.in_bounds(Point::new(10, 5)));
    assert!(!g.in_bounds(Point::new(5, 10)));
    assert!(!g.in_bounds(Point::new(-1, 5)));
}

#[test]
fn key_down_changes_direction() {
    let mut g = running_game();
    g.key_down("ArrowUp");
    g.step();
    // After stepping up the y should have decreased
    let head = g.snake.head();
    // The snake started at centre (10,10), moved up once
    assert_eq!(head.y, (20 / 2) - 1);
}

#[test]
fn key_down_start_from_idle() {
    let mut g = Game::new(20, 20);
    assert_eq!(g.state, GameState::Idle);
    g.key_down("Enter");
    assert_eq!(g.state, GameState::Running);
}

#[test]
fn key_down_pause() {
    let mut g = running_game();
    g.key_down("p");
    assert_eq!(g.state, GameState::Paused);
}

#[test]
fn key_down_wasd() {
    let mut g = running_game();
    g.key_down("w");
    g.step();
    let head = g.snake.head();
    assert_eq!(head.y, (20 / 2) - 1);
}

#[test]
fn speed_increases_at_50_points() {
    let mut g = running_game();
    let initial_speed = g.ticks_per_move;
    // Simulate eating 5 food items (50 points)
    for _ in 0..5 {
        let head = g.snake.head();
        g.food = Point::new(head.x + 1, head.y);
        g.step();
    }
    assert!(g.ticks_per_move < initial_speed);
}

#[test]
fn game_over_does_not_step() {
    let mut g = running_game();
    // Force game over by walking into wall
    for _ in 0..20 {
        g.step();
    }
    assert_eq!(g.state, GameState::GameOver);
    let head = g.snake.head();
    g.step(); // extra step should do nothing
    assert_eq!(g.snake.head(), head);
}

#[test]
fn random_free_cell_is_free() {
    let g = running_game();
    for _ in 0..50 {
        let p = g.random_free_cell();
        assert!(!g.snake.occupies(p));
    }
}

#[test]
fn ticks_per_move_throttles_movement() {
    let mut g = running_game();
    g.ticks_per_move = 5;
    g.tick_counter = 0;
    let head_before = g.snake.head();
    // Only 4 ticks – should not have moved yet
    for _ in 0..4 {
        g.tick();
    }
    assert_eq!(g.snake.head(), head_before);
    // 5th tick triggers movement
    g.tick();
    assert_ne!(g.snake.head(), head_before);
}

// ---------------------------------------------------------------------------
// Further cases
// ---------------------------------------------------------------------------

#[test]
fn new_game_places_snake_at_centre() {
    let g = Game::new(20, 10);
    assert_eq!(g.width(), 20);
    assert_eq!(g.height(), 10);
    assert_eq!(g.score(), 0);
    assert_eq!(g.snake.head(), Point::new(10, 5));
    assert_eq!(g.snake_length(), 3);
    assert_eq!(g.tick_counter, 0);
    assert_eq!(g.ticks_per_move, 10);
    assert!(g.in_bounds(g.food));
    assert!(!g.snake.occupies(g.food));
}

#[test]
fn state_codes() {
    let mut g = Game::new(20, 20);
    assert_eq!(g.state(), 0);
    g.start();
    assert_eq!(g.state(), 1);
    g.toggle_pause();
    assert_eq!(g.state(), 3);
    g.state = GameState::GameOver;
    assert_eq!(g.state(), 2);
}

#[test]
fn toggle_pause_twice_restores_state() {
    let mut g = running_game();
    for _ in 0..2 {
        g.toggle_pause();
    }
    assert_eq!(g.state, GameState::Running);
    g.state = GameState::GameOver;
    g.toggle_pause();
    assert_eq!(g.state, GameState::GameOver);
}

#[test]
fn food_pos_and_snake_cells() {
    let mut g = Game::new(20, 20);
    g.food = Point::new(3, 4);
    assert_eq!(g.food_pos(), vec![3, 4]);
    assert_eq!(g.snake_cells(), vec![10, 10, 9, 10, 8, 10]);
}

#[test]
fn cells_codes_body_head_food_empty() {
    let mut g = Game::new(5, 3);
    // snake (2,1) (1,1) (0,1)
    g.food = Point::new(4, 2);
    let cells = g.cells_vec();
    assert_eq!(
        cells,
        vec![
            0, 0, 0, 0, 0, //
            1, 1, 2, 0, 0, //
            0, 0, 0, 0, 3,
        ]
    );
}

#[test]
fn cells_food_on_head_shows_food_and_off_board_food_is_skipped() {
    let mut g = Game::new(5, 3);
    g.food = Point::new(2, 1);
    let cells = g.cells_vec();
    assert_eq!(cells[7], 3);
    g.food = Point::new(7, 7);
    let cells = g.cells_vec();
    assert_eq!(cells.iter().filter(|&&c| c == 3).count(), 0);
    assert_eq!(cells[7], 2);
}

#[test]
fn key_commands() {
    assert_eq!(snake_wasm::game::key_command("ArrowUp"), KeyCommand::Turn(Direction::Up));
    assert_eq!(snake_wasm::game::key_command("s"), KeyCommand::Turn(Direction::Down));
    assert_eq!(snake_wasm::game::key_command("S"), KeyCommand::Ignore);
    assert_eq!(snake_wasm::game::key_command("W"), KeyCommand::Ignore);
    assert_eq!(snake_wasm::game::key_command("P"), KeyCommand::Ignore);
    assert_eq!(snake_wasm::game::key_command("a"), KeyCommand::Turn(Direction::Left));
    assert_eq!(snake_wasm::game::key_command("ArrowRight"), KeyCommand::Turn(Direction::Right));
    assert_eq!(snake_wasm::game::key_command(" "), KeyCommand::Start);
    assert_eq!(snake_wasm::game::key_command("Escape"), KeyCommand::Pause);
    assert_eq!(snake_wasm::game::key_command("arrowup"), KeyCommand::Ignore);
    assert_eq!(snake_wasm::game::key_command("Enter "), KeyCommand::Ignore);
    assert_eq!(snake_wasm::game::key_command(""), KeyCommand::Ignore);
}

#[test]
fn direction_keys_ignored_unless_running() {
    let mut g = running_game();
    g.toggle_pause();
    g.key_down("ArrowDown");
    g.toggle_pause();
    g.step();
    // The request made while paused was dropped: still moving right.
    assert_eq!(g.snake.head(), Point::new(11, 10));
}

#[test]
fn enter_does_not_restart_running_game() {
    let mut g = running_game();
    g.step();
    g.key_down("Enter");
    assert_eq!(g.snake.head(), Point::new(11, 10));
    g.key_down("unknown");
    assert_eq!(g.snake.head(), Point::new(11, 10));
}

#[test]
fn enter_restarts_after_game_over() {
    let mut g = running_game();
    for _ in 0..20 {
        g.step();
    }
    assert_eq!(g.state, GameState::GameOver);
    g.key_down("Enter");
    assert_eq!(g.state, GameState::Running);
    assert_eq!(g.snake.head(), Point::new(10, 10));
    assert_eq!(g.score, 0);
}

#[test]
fn score_and_length_rise_together_and_speed_floor_is_two() {
    let mut g = Game::new(200, 3);
    g.start();
    let mut eaten: u32 = 0;
    for _ in 0..60 {
        let head = g.snake.head();
        g.food = Point::new(head.x + 1, head.y);
        g.step();
        eaten += 1;
        assert_eq!(g.score, 10 * eaten);
        assert_eq!(g.snake_length() as u32, 3 + eaten);
        assert!(g.ticks_per_move >= 2);
    }
    // 600 points: 12 multiples of 50, but the speed stops at 2 ticks per move.
    assert_eq!(g.ticks_per_move, 2);
}

#[test]
fn self_collision_ends_game() {
    let mut g = Game::new(20, 20);
    g.start();
    // Grow to length 5 moving right, then loop back onto the body.
    for _ in 0..2 {
        let head = g.snake.head();
        g.food = Point::new(head.x + 1, head.y);
        g.step();
    }
    g.change_direction(Direction::Up);
    g.step();
    g.change_direction(Direction::Left);
    g.step();
    assert_eq!(g.state, GameState::Running);
    g.change_direction(Direction::Down);
    g.step();
    assert_eq!(g.state, GameState::GameOver);
}

#[test]
fn first_free_cell_reads_row_major() {
    let g = Game::new(5, 1);
    // snake (2,0) (1,0) (0,0)
    assert_eq!(g.first_free_cell(), Some(Point::new(3, 0)));
    let full = Game::new(1, 1);
    assert_eq!(full.first_free_cell(), None);
}

#[test]
fn full_board_food_falls_back_to_origin() {
    let g = Game::new(3, 1);
    // snake (1,0) (0,0) (-1,0): the cell (2,0) is free.
    assert_eq!(g.food, Point::new(2, 0));
    let g = Game::new(1, 1);
    // snake (0,0) (-1,0) (-2,0): no free cell left.
    assert_eq!(g.food, Point::new(0, 0));
    assert_eq!(g.random_free_cell(), Point::new(0, 0));
}

#[test]
fn random_free_cell_draws_varied_cells() {
    let g = Game::new(5, 1);
    // Free cells are (3,0) and (4,0); both must come up.
    let mut saw_three = false;
    let mut saw_four = false;
    for _ in 0..200 {
        let p = g.random_free_cell();
        assert!(p == Point::new(3, 0) || p == Point::new(4, 0));
        saw_three |= p == Point::new(3, 0);
        saw_four |= p == Point::new(4, 0);
    }
    assert!(saw_three && saw_four);
}

#[test]
fn step_eats_predicts_eating() {
    let mut g = Game::new(20, 20);
    let head = g.snake.head();
    g.food = Point::new(head.x + 1, head.y);
    assert!(!g.step_eats()); // idle
    g.start();
    g.food = Point::new(head.x + 1, head.y);
    assert!(g.step_eats());
    g.food = Point::new(head.x, head.y + 1);
    assert!(!g.step_eats());
}

#[test]
fn capital_keys_change_nothing() {
    let mut g = running_game();
    g.key_down("W");
    g.key_down("P");
    assert_eq!(g.state, GameState::Running);
    g.step();
    assert_eq!(g.snake.head(), Point::new(11, 10));
}

fn check_layout(g: &Game) {
    let cells: Vec<Point> = g.snake.body().iter().copied().collect();
    for (i, p) in cells.iter().enumerate() {
        assert!(g.in_bounds(*p));
        for q in &cells[i + 1..] {
            assert_ne!(p, q);
        }
        if i + 1 < cells.len() {
            let q = cells[i + 1];
            assert_eq!((p.x - q.x).abs() + (p.y - q.y).abs(), 1);
        }
    }
    assert!(g.in_bounds(g.food));
    assert!(!g.snake.occupies(g.food));
}

fn speed_for(score: u32) -> u32 {
    if score / 50 >= 8 {
        2
    } else {
        10 - score / 50
    }
}

#[test]
fn play_keeps_layout_and_progress() {
    let mut g = Game::new(30, 30);
    g.start();
    let turns = [Direction::Up, Direction::Left, Direction::Down, Direction::Right];
    let mut t = 0;
    for round in 0..200 {
        if g.state != GameState::Running {
            break;
        }
        check_layout(&g);
        assert_eq!(g.score % 10, 0);
        assert_eq!(g.snake_length() as u32, 3 + g.score / 10);
        assert_eq!(g.ticks_per_move, speed_for(g.score));
        // Feed the snake every other step, and turn now and then.
        if round % 2 == 0 {
            let head = g.snake.head();
            let next = match g.snake.direction() {
                Direction::Up => Point::new(head.x, head.y - 1),
                Direction::Down => Point::new(head.x, head.y + 1),
                Direction::Left => Point::new(head.x - 1, head.y),
                Direction::Right => Point::new(head.x + 1, head.y),
            };
            if g.in_bounds(next) && !g.snake.occupies(next) {
                g.food = next;
            }
        }
        if round % 7 == 3 {
            g.change_direction(turns[t % 4]);
            t += 1;
        }
        g.step();
    }
}

use snake_tui::game::Game;
use snake_tui::utils::{get_eight_dirs, FourDirs, Point};
use snake_tui::GRID_SIZE;

fn game_at(grid_size: i32, body: &[(i32, i32)], food: (i32, i32), dir: FourDirs) -> Game {
    let body: Vec<Point> = body.iter().map(|&(x, y)| Point::new(x, y)).collect();
    Game {
        head: body[0],
        body,
        food: Point::new(food.0, food.1),
        dir,
        is_dead: false,
        total_steps: 0,
        no_food_steps: 0,
        grid_size,
    }
}

#[test]
fn fresh_game_has_three_segments() {
    let game = Game::new();
    assert_eq!(GRID_SIZE, 15);
    assert_eq!(game.grid_size, 15);
    assert_eq!(game.score(), 3);
    assert_eq!(game.head, Point::new(7, 7));
    assert_eq!(game.body, vec![Point::new(7, 7), Point::new(6, 7), Point::new(5, 7)]);
    assert!(!game.is_dead);
    assert_eq!(game.total_steps, 0);
    assert_eq!(game.no_food_steps, 0);
    assert!(game.food.x >= 1 && game.food.x <= 13);
    assert!(game.food.y >= 1 && game.food.y <= 13);
    assert!(game.is_valid());
}

#[test]
fn default_game_is_a_fresh_game() {
    let game = Game::default();
    assert_eq!(game.body, vec![Point::new(7, 7), Point::new(6, 7), Point::new(5, 7)]);
    assert!(!game.is_dead);
}

#[test]
fn fresh_game_on_a_grid_of_five() {
    for _ in 0..50 {
        let game = Game::with_grid_size(5);
        assert_eq!(game.head, Point::new(2, 2));
        assert_eq!(game.body, vec![Point::new(2, 2), Point::new(1, 2), Point::new(0, 2)]);
        assert!((1..=3).contains(&game.food.x));
        assert!((1..=3).contains(&game.food.y));
        assert!(game.is_valid());
    }
}

#[test]
fn smallest_grid_has_one_food_cell() {
    let game = Game::with_grid_size(3);
    assert_eq!(game.head, Point::new(1, 1));
    assert_eq!(game.food, Point::new(1, 1));
}

#[test]
fn step_moves_head_and_shifts_body() {
    let mut game = game_at(15, &[(7, 7), (6, 7), (5, 7)], (1, 1), FourDirs::Right);
    game.update(FourDirs::Top);
    assert_eq!(game.head, Point::new(7, 8));
    assert_eq!(game.body, vec![Point::new(7, 8), Point::new(7, 7), Point::new(6, 7)]);
    assert_eq!(game.dir, FourDirs::Top);
    assert_eq!(game.total_steps, 1);
    assert_eq!(game.no_food_steps, 1);
    assert_eq!(game.food, Point::new(1, 1));
    assert!(!game.is_dead);
    assert_eq!(game.score(), 3);

    game.update(FourDirs::Right);
    assert_eq!(game.body, vec![Point::new(8, 8), Point::new(7, 8), Point::new(7, 7)]);
    game.update(FourDirs::Bottom);
    assert_eq!(game.body, vec![Point::new(8, 7), Point::new(8, 8), Point::new(7, 8)]);
    game.update(FourDirs::Left);
    assert_eq!(game.body, vec![Point::new(7, 7), Point::new(8, 7), Point::new(8, 8)]);
    assert_eq!(game.total_steps, 4);
    assert_eq!(game.no_food_steps, 4);
    assert!(!game.is_dead);
}

#[test]
fn stepping_into_a_wall_terminates_and_freezes_the_body() {
    let cases = [
        ((4, 2), FourDirs::Right, (5, 2)),
        ((1, 2), FourDirs::Left, (0, 2)),
        ((2, 4), FourDirs::Top, (2, 5)),
        ((2, 1), FourDirs::Bottom, (2, 0)),
    ];
    for (start, dir, wall) in cases {
        let mut game = game_at(5, &[start], (3, 3), FourDirs::Right);
        game.update(dir);
        assert!(game.is_dead);
        assert_eq!(game.head, Point::new(wall.0, wall.1));
        let body = game.body.clone();
        for later in [FourDirs::Left, FourDirs::Right, FourDirs::Top, FourDirs::Bottom] {
            game.update(later);
            assert!(game.is_dead);
            assert_eq!(game.body, body);
            assert_eq!(game.head, Point::new(wall.0, wall.1));
            assert_eq!(game.total_steps, 1);
            assert_eq!(game.dir, dir);
        }
    }
}

#[test]
fn every_valid_position_next_to_a_wall_dies_on_it() {
    let grid = 6;
    for y in 1..grid {
        let mut game = game_at(grid, &[(grid - 1, y)], (1, 1), FourDirs::Top);
        game.update(FourDirs::Right);
        assert!(game.is_dead);
        let mut game = game_at(grid, &[(1, y)], (2, 2), FourDirs::Top);
        game.update(FourDirs::Left);
        assert!(game.is_dead);
    }
}

#[test]
fn eating_grows_by_exactly_one_and_relocates_food() {
    for _ in 0..100 {
        let mut game = game_at(7, &[(3, 3), (2, 3), (1, 3)], (3, 3), FourDirs::Right);
        game.no_food_steps = 4;
        game.total_steps = 9;
        game.update(FourDirs::Right);
        assert_eq!(game.score(), 4);
        assert_eq!(
            game.body,
            vec![Point::new(4, 3), Point::new(3, 3), Point::new(2, 3), Point::new(1, 3)]
        );
        assert_eq!(game.no_food_steps, 0);
        assert_eq!(game.total_steps, 10);
        assert!((1..=5).contains(&game.food.x));
        assert!((1..=5).contains(&game.food.y));
        assert!(!game.is_dead);
    }
}

#[test]
fn food_is_relocated_over_the_whole_food_range() {
    let mut seen = [[false; 4]; 4];
    for _ in 0..2000 {
        let mut game = game_at(5, &[(2, 2)], (2, 2), FourDirs::Right);
        game.update(FourDirs::Right);
        seen[game.food.x as usize][game.food.y as usize] = true;
    }
    for x in 1..=3 {
        for y in 1..=3 {
            assert!(seen[x][y]);
        }
    }
}

#[test]
fn a_step_without_food_keeps_the_score() {
    let mut game = game_at(7, &[(3, 3), (2, 3)], (5, 5), FourDirs::Right);
    game.update(FourDirs::Right);
    assert_eq!(game.score(), 2);
    assert_eq!(game.food, Point::new(5, 5));
    assert_eq!(game.no_food_steps, 1);
}

#[test]
fn running_into_the_own_body_terminates() {
    let mut game =
        game_at(7, &[(2, 2), (3, 2), (3, 3), (2, 3), (1, 3)], (5, 5), FourDirs::Left);
    game.update(FourDirs::Top);
    assert_eq!(game.head, Point::new(2, 3));
    assert!(game.is_dead);
}

#[test]
fn reversing_runs_into_the_second_segment() {
    let mut game = game_at(15, &[(7, 7), (6, 7), (5, 7)], (1, 1), FourDirs::Right);
    game.update(FourDirs::Left);
    assert_eq!(game.body, vec![Point::new(6, 7), Point::new(7, 7), Point::new(6, 7)]);
    assert!(game.is_dead);
}

#[test]
fn following_the_tail_is_safe() {
    let mut game = game_at(7, &[(2, 2), (3, 2), (3, 3), (2, 3)], (5, 5), FourDirs::Left);
    game.update(FourDirs::Top);
    assert_eq!(game.head, Point::new(2, 3));
    assert!(!game.is_dead);
}

#[test]
fn a_dead_game_ignores_updates() {
    let mut game = game_at(7, &[(3, 3), (2, 3)], (3, 3), FourDirs::Right);
    game.is_dead = true;
    game.update(FourDirs::Top);
    assert_eq!(game.head, Point::new(3, 3));
    assert_eq!(game.body, vec![Point::new(3, 3), Point::new(2, 3)]);
    assert_eq!(game.total_steps, 0);
    assert_eq!(game.dir, FourDirs::Right);
    assert_eq!(game.food, Point::new(3, 3));
    assert_eq!(game.score(), 2);
}

#[test]
fn walls_are_the_border_coordinates() {
    let game = Game::with_grid_size(5);
    for v in 1..5 {
        assert!(!game.is_wall(Point::new(v, 1)));
        assert!(!game.is_wall(Point::new(4, v)));
    }
    for v in -1..=6 {
        assert!(game.is_wall(Point::new(0, v)));
        assert!(game.is_wall(Point::new(5, v)));
        assert!(game.is_wall(Point::new(v, 0)));
        assert!(game.is_wall(Point::new(v, 5)));
    }
    assert!(game.is_wall(Point::new(-3, 2)));
    assert!(game.is_wall(Point::new(2, 17)));
}

#[test]
fn body_query_leaves_out_the_head() {
    let game = game_at(7, &[(3, 3), (2, 3), (1, 3)], (5, 5), FourDirs::Right);
    assert!(!game.is_snake_body(Point::new(3, 3)));
    assert!(game.is_snake_body(Point::new(2, 3)));
    assert!(game.is_snake_body(Point::new(1, 3)));
    assert!(!game.is_snake_body(Point::new(4, 3)));
    let single = game_at(7, &[(3, 3)], (5, 5), FourDirs::Right);
    assert!(!single.is_snake_body(Point::new(3, 3)));
}

#[test]
fn score_is_the_body_length() {
    let game = game_at(9, &[(5, 5), (4, 5), (3, 5), (2, 5), (1, 5)], (7, 7), FourDirs::Right);
    assert_eq!(game.score(), 5);
}

#[test]
fn validity_is_checked() {
    let good = game_at(7, &[(3, 3), (2, 3)], (5, 5), FourDirs::Right);
    assert!(good.is_valid());

    let mut small = game_at(7, &[(1, 1)], (1, 1), FourDirs::Right);
    small.grid_size = 2;
    assert!(!small.is_valid());

    let mut headless = game_at(7, &[(3, 3), (2, 3)], (5, 5), FourDirs::Right);
    headless.head = Point::new(4, 3);
    assert!(!headless.is_valid());

    let in_wall = game_at(7, &[(7, 3)], (5, 5), FourDirs::Right);
    assert!(!in_wall.is_valid());
    let mut dead_in_wall = game_at(7, &[(7, 3)], (5, 5), FourDirs::Right);
    dead_in_wall.is_dead = true;
    assert!(dead_in_wall.is_valid());

    let mut counters = game_at(7, &[(3, 3)], (5, 5), FourDirs::Right);
    counters.no_food_steps = 2;
    counters.total_steps = 1;
    assert!(!counters.is_valid());

    let mut empty = game_at(7, &[(3, 3)], (5, 5), FourDirs::Right);
    empty.body.clear();
    assert!(!empty.is_valid());
}

#[test]
fn a_clone_is_equal() {
    let game = game_at(7, &[(3, 3), (2, 3)], (5, 5), FourDirs::Top);
    assert_eq!(game.clone(), game);
}

#[test]
fn direction_values() {
    assert_eq!(FourDirs::Left.value(), (-1, 0));
    assert_eq!(FourDirs::Right.value(), (1, 0));
    assert_eq!(FourDirs::Top.value(), (0, 1));
    assert_eq!(FourDirs::Bottom.value(), (0, -1));
    assert_eq!(FourDirs::default(), FourDirs::Left);
}

#[test]
fn direction_reversal() {
    assert_eq!(FourDirs::Left.reverse(), FourDirs::Right);
    assert_eq!(FourDirs::Right.reverse(), FourDirs::Left);
    assert_eq!(FourDirs::Top.reverse(), FourDirs::Bottom);
    assert_eq!(FourDirs::Bottom.reverse(), FourDirs::Top);
}

#[test]
fn direction_one_hot() {
    assert_eq!(FourDirs::Left.get_one_hot_dir(), vec![1, 0, 0, 0]);
    assert_eq!(FourDirs::Right.get_one_hot_dir(), vec![0, 1, 0, 0]);
    assert_eq!(FourDirs::Bottom.get_one_hot_dir(), vec![0, 0, 1, 0]);
    assert_eq!(FourDirs::Top.get_one_hot_dir(), vec![0, 0, 0, 1]);
}

#[test]
fn direction_by_index() {
    assert_eq!(FourDirs::from_index(0), FourDirs::Left);
    assert_eq!(FourDirs::from_index(1), FourDirs::Right);
    assert_eq!(FourDirs::from_index(2), FourDirs::Bottom);
    assert_eq!(FourDirs::from_index(3), FourDirs::Top);
    assert_eq!(FourDirs::from_index(9), FourDirs::Top);
}

#[test]
fn random_direction_takes_all_four_values() {
    let mut seen = [false; 4];
    for _ in 0..1000 {
        let k = match FourDirs::get_rand_dir() {
            FourDirs::Left => 0,
            FourDirs::Right => 1,
            FourDirs::Bottom => 2,
            FourDirs::Top => 3,
        };
        seen[k] = true;
    }
    assert_eq!(seen, [true; 4]);
}

#[test]
fn eight_ray_directions() {
    assert_eq!(
        get_eight_dirs(),
        [(-1, 0), (1, 0), (0, -1), (0, 1), (-1, 1), (1, 1), (1, -1), (-1, -1)]
    );
}

#[test]
fn point_basics() {
    let p = Point::new(3, -4);
    assert_eq!(p.x, 3);
    assert_eq!(p.y, -4);
    assert!(p.equals(Point { x: 3, y: -4 }));
    assert!(!p.equals(Point { x: 3, y: 4 }));
    assert!(!p.equals(Point { x: -3, y: -4 }));
    assert_eq!(Point::default(), Point::new(0, 0));
    assert_eq!(Point::from((5, 6)), Point::new(5, 6));
    let pair: (i32, i32) = Point::new(7, 8).into();
    assert_eq!(pair, (7, 8));
}

#[test]
fn random_points_cover_the_food_range_and_stay_in_it() {
    let mut seen_x = [false; 15];
    let mut seen_y = [false; 15];
    for _ in 0..5000 {
        let p = Point::rand();
        assert!((1..=13).contains(&p.x));
        assert!((1..=13).contains(&p.y));
        seen_x[p.x as usize] = true;
        seen_y[p.y as usize] = true;
    }
    for v in 1..=13 {
        assert!(seen_x[v]);
        assert!(seen_y[v]);
    }
    for _ in 0..200 {
        let p = Point::rand_within(4);
        assert!(p.x == 1 || p.x == 2);
        assert!(p.y == 1 || p.y == 2);
    }
}

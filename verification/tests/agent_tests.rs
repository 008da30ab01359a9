use snake_tui::agent::{Agent, FITNESS_THRESHOLD, RAY_CAP};
use snake_tui::game::Game;
use snake_tui::nn::Net;
use snake_tui::utils::{FourDirs, Point};
use snake_tui::{NUM_STEPS, SENSOR_COUNT};

fn agent_at(grid_size: i32, body: &[(i32, i32)], food: (i32, i32), dir: FourDirs) -> Agent {
    let body: Vec<Point> = body.iter().map(|&(x, y)| Point::new(x, y)).collect();
    Agent {
        game: Game {
            head: body[0],
            body,
            food: Point::new(food.0, food.1),
            dir,
            is_dead: false,
            total_steps: 0,
            no_food_steps: 0,
            grid_size,
        },
        brain: Net::zeroed(&[24, 16, 8, 4]),
    }
}

fn agent_with(score: usize, steps: usize) -> Agent {
    let body: Vec<(i32, i32)> = (0..score).map(|_| (3, 3)).collect();
    let mut agent = agent_at(7, &body, (5, 5), FourDirs::Right);
    agent.game.total_steps = steps;
    agent
}

#[test]
fn constants_of_the_agent() {
    assert_eq!(RAY_CAP, 1000);
    assert_eq!(FITNESS_THRESHOLD, 5);
    assert_eq!(NUM_STEPS, 75);
    assert_eq!(SENSOR_COUNT, 24);
}

#[test]
fn new_agent_plays_a_fresh_game() {
    let agent = Agent::with_brain(Net::zeroed(&[24, 16, 8, 4]));
    assert_eq!(agent.game.body, vec![Point::new(7, 7), Point::new(6, 7), Point::new(5, 7)]);
    assert_eq!(agent.brain, Net::zeroed(&[24, 16, 8, 4]));
    let small = Agent::with_brain_on(Net::zeroed(&[2, 1]), 5);
    assert_eq!(small.game.grid_size, 5);
    assert_eq!(small.game.head, Point::new(2, 2));
    assert_eq!(small.brain.layer_sizes(), vec![2, 1]);
}

#[test]
fn fitness_has_a_floor_of_one_point() {
    assert_eq!(agent_with(1, 0).fitness(), 10);
    assert_eq!(agent_with(1, 5000).fitness(), 10);
}

#[test]
fn fitness_below_the_threshold_is_exponential_in_the_score() {
    assert_eq!(agent_with(2, 10).fitness(), 4 * 2 * 10);
    assert_eq!(agent_with(3, 10).fitness(), 8 * 3 * 10);
    assert_eq!(agent_with(4, 10).fitness(), 16 * 4 * 10);
    assert_eq!(agent_with(3, 75).fitness(), 1800);
    assert_eq!(agent_with(3, 0).fitness(), 0);
}

#[test]
fn fitness_from_the_threshold_is_cubic_in_the_score() {
    assert_eq!(agent_with(5, 7).fitness(), 125 * 7);
    assert_eq!(agent_with(6, 1).fitness(), 216);
    assert_eq!(agent_with(10, 300).fitness(), 300_000);
    assert_eq!(agent_with(40, 1000).fitness(), 64_000_000);
    assert_eq!(agent_with(5, 0).fitness(), 0);
}

#[test]
fn fitness_is_held_at_the_greatest_value() {
    assert_eq!(agent_with(2, usize::MAX).fitness(), u64::MAX);
    assert_eq!(agent_with(100, usize::MAX).fitness(), u64::MAX);
    assert_eq!(agent_with(100, usize::MAX / 1_000_000).fitness(), 18_446_744_073_709_000_000);
}

#[test]
fn fitness_never_falls_with_score_or_steps() {
    let mut last = 0;
    for score in 2..40 {
        let f = agent_with(score, 50).fitness();
        assert!(f >= last);
        last = f;
    }
    let mut last = 0;
    for steps in 0..200 {
        let f = agent_with(7, steps).fitness();
        assert!(f >= last);
        last = f;
    }
    assert!(agent_with(4, 10).fitness() < agent_with(5, 10).fitness());
}

#[test]
fn step_limit_grows_with_the_score_in_tiers() {
    for (score, limit) in [
        (1, 75),
        (3, 75),
        (5, 75),
        (6, 150),
        (20, 150),
        (21, 225),
        (30, 225),
        (31, 450),
        (100, 450),
    ] {
        assert_eq!(agent_with(score, 0).get_step_limit(), limit);
    }
}

#[test]
fn decision_takes_the_greatest_output() {
    let agent = agent_at(15, &[(7, 7), (6, 7)], (1, 1), FourDirs::Top);
    assert_eq!(agent.get_brain_output(&[9, 1, 2, 3]), FourDirs::Left);
    assert_eq!(agent.get_brain_output(&[1, 9, 2, 3]), FourDirs::Right);
    assert_eq!(agent.get_brain_output(&[1, 2, 3, 9]), FourDirs::Top);
    let down = agent_at(15, &[(7, 7), (6, 7)], (1, 1), FourDirs::Bottom);
    assert_eq!(down.get_brain_output(&[1, 2, 9, 3]), FourDirs::Bottom);
}

#[test]
fn decision_never_reverses() {
    let right = agent_at(15, &[(7, 7), (6, 7)], (1, 1), FourDirs::Right);
    assert_eq!(right.get_brain_output(&[9, 1, 2, 3]), FourDirs::Top);
    assert_eq!(right.get_brain_output(&[9, 5, 2, 3]), FourDirs::Right);
    let left = agent_at(15, &[(7, 7), (8, 7)], (1, 1), FourDirs::Left);
    assert_eq!(left.get_brain_output(&[1, 9, 7, 3]), FourDirs::Bottom);
    let top = agent_at(15, &[(7, 7), (7, 6)], (1, 1), FourDirs::Top);
    assert_eq!(top.get_brain_output(&[1, 2, 9, 3]), FourDirs::Top);
    let bottom = agent_at(15, &[(7, 7), (7, 8)], (1, 1), FourDirs::Bottom);
    assert_eq!(bottom.get_brain_output(&[4, 2, 1, 9]), FourDirs::Left);
    for dir in [FourDirs::Left, FourDirs::Right, FourDirs::Top, FourDirs::Bottom] {
        let agent = agent_at(15, &[(7, 7)], (1, 1), dir);
        for outputs in [[0, 0, 0, 0], [1, 2, 3, 4], [4, 3, 2, 1], [7, 7, 1, 7], [0, 9, 9, 0]] {
            assert!(agent.get_brain_output(&outputs) != dir.reverse());
        }
    }
}

#[test]
fn decision_breaks_ties_by_order() {
    let top = agent_at(15, &[(7, 7)], (1, 1), FourDirs::Top);
    assert_eq!(top.get_brain_output(&[0, 0, 0, 0]), FourDirs::Left);
    assert_eq!(top.get_brain_output(&[1, 5, 3, 5]), FourDirs::Right);
    let right = agent_at(15, &[(7, 7)], (1, 1), FourDirs::Right);
    assert_eq!(right.get_brain_output(&[0, 0, 0, 0]), FourDirs::Right);
    let left = agent_at(15, &[(7, 7)], (1, 1), FourDirs::Left);
    assert_eq!(left.get_brain_output(&[1, 5, 3, 5]), FourDirs::Top);
    assert_eq!(left.get_brain_output(&[0, 0, 0, 0]), FourDirs::Left);
}

#[test]
fn keys_of_non_negative_doubles_order_as_the_doubles() {
    let outputs = [0.0f64, 0.25, 3.5, 1e-300];
    let keys = [outputs[0].to_bits(), outputs[1].to_bits(), outputs[2].to_bits(), outputs[3].to_bits()];
    let agent = agent_at(15, &[(7, 7)], (1, 1), FourDirs::Left);
    assert_eq!(agent.get_brain_output(&keys), FourDirs::Bottom);
    let keys = [f64::INFINITY.to_bits(), 1e308f64.to_bits(), 0, 0];
    assert_eq!(agent.get_brain_output(&keys), FourDirs::Left);
}

#[test]
fn tick_moves_the_game() {
    let mut agent = agent_at(15, &[(7, 7), (6, 7), (5, 7)], (1, 1), FourDirs::Right);
    let alive = agent.update(&[0, 0, 0, 9]);
    assert!(alive);
    assert_eq!(agent.game.head, Point::new(7, 8));
    assert_eq!(agent.game.dir, FourDirs::Top);
    assert_eq!(agent.game.total_steps, 1);
    assert_eq!(agent.brain, Net::zeroed(&[24, 16, 8, 4]));
}

#[test]
fn tick_on_a_dead_game_does_nothing() {
    let mut agent = agent_at(15, &[(7, 7), (6, 7), (5, 7)], (1, 1), FourDirs::Right);
    agent.game.is_dead = true;
    assert!(!agent.update(&[0, 0, 0, 9]));
    assert_eq!(agent.game.head, Point::new(7, 7));
    assert_eq!(agent.game.total_steps, 0);
}

#[test]
fn tick_reports_a_death_by_collision() {
    let mut agent = agent_at(5, &[(4, 2), (3, 2)], (1, 1), FourDirs::Right);
    assert!(!agent.update(&[0, 9, 0, 0]));
    assert!(agent.game.is_dead);
    assert_eq!(agent.game.head, Point::new(5, 2));
}

#[test]
fn tick_substitutes_the_second_best_for_a_reversal() {
    let mut agent = agent_at(15, &[(7, 7), (6, 7), (5, 7)], (1, 1), FourDirs::Right);
    assert!(agent.update(&[9, 0, 5, 1]));
    assert_eq!(agent.game.dir, FourDirs::Bottom);
    assert_eq!(agent.game.head, Point::new(7, 6));
}

#[test]
fn tick_ends_a_game_that_exceeds_its_budget() {
    let mut agent = agent_at(200, &[(50, 50), (49, 50), (48, 50)], (1, 1), FourDirs::Right);
    agent.game.total_steps = 74;
    agent.game.no_food_steps = 74;
    assert!(agent.update(&[0, 9, 0, 0]));
    assert_eq!(agent.game.no_food_steps, 75);
    assert!(!agent.game.is_dead);
    assert!(!agent.update(&[0, 9, 0, 0]));
    assert_eq!(agent.game.no_food_steps, 76);
    assert!(agent.game.is_dead);
    assert_eq!(agent.game.head, Point::new(52, 50));
}

#[test]
fn budget_of_a_longer_snake_is_larger() {
    let body: Vec<(i32, i32)> = (0..6).map(|i| (50 - i, 50)).collect();
    let mut agent = agent_at(200, &body, (1, 1), FourDirs::Right);
    agent.game.total_steps = 100;
    agent.game.no_food_steps = 100;
    assert!(agent.update(&[0, 9, 0, 0]));
    agent.game.total_steps = 150;
    agent.game.no_food_steps = 150;
    assert!(!agent.update(&[0, 9, 0, 0]));
    assert_eq!(agent.game.no_food_steps, 151);
}

#[test]
fn eating_resets_the_budget() {
    let mut agent = agent_at(200, &[(50, 50), (49, 50), (48, 50)], (50, 50), FourDirs::Right);
    agent.game.total_steps = 75;
    agent.game.no_food_steps = 75;
    assert!(agent.update(&[0, 9, 0, 0]));
    assert_eq!(agent.game.no_food_steps, 0);
    assert_eq!(agent.game.score(), 4);
}

#[test]
fn ray_runs_to_the_wall() {
    let agent = agent_at(15, &[(7, 7), (6, 7), (5, 7)], (1, 1), FourDirs::Right);
    let head = agent.game.head;
    assert_eq!(agent.vision_in_dir(head, (1, 0)), (8, false));
    assert_eq!(agent.vision_in_dir(head, (0, 1)), (8, false));
    assert_eq!(agent.vision_in_dir(head, (0, -1)), (7, false));
    assert_eq!(agent.vision_in_dir(head, (1, 1)), (8, false));
    assert_eq!(agent.vision_in_dir(head, (1, -1)), (7, false));
    assert_eq!(agent.vision_in_dir(head, (-1, 1)), (7, false));
}

#[test]
fn ray_stops_at_the_body() {
    let agent = agent_at(15, &[(7, 7), (6, 7), (5, 7)], (1, 1), FourDirs::Right);
    assert_eq!(agent.vision_in_dir(agent.game.head, (-1, 0)), (1, false));
    let bent = agent_at(15, &[(7, 7), (7, 8), (8, 8), (9, 8), (9, 7)], (1, 1), FourDirs::Bottom);
    assert_eq!(bent.vision_in_dir(bent.game.head, (1, 0)), (2, false));
    assert_eq!(bent.vision_in_dir(bent.game.head, (0, 1)), (1, false));
    assert_eq!(bent.vision_in_dir(bent.game.head, (1, 1)), (1, false));
}

#[test]
fn ray_sees_food_before_the_obstacle_only() {
    let agent = agent_at(15, &[(7, 7), (6, 7), (5, 7)], (10, 7), FourDirs::Right);
    assert_eq!(agent.vision_in_dir(agent.game.head, (1, 0)), (8, true));
    assert_eq!(agent.vision_in_dir(agent.game.head, (0, 1)), (8, false));
    let diagonal = agent_at(15, &[(7, 7), (6, 7)], (4, 4), FourDirs::Right);
    assert_eq!(diagonal.vision_in_dir(diagonal.game.head, (-1, -1)), (7, true));
    let behind = agent_at(15, &[(7, 7), (6, 7), (5, 7)], (3, 7), FourDirs::Right);
    assert_eq!(behind.vision_in_dir(behind.game.head, (-1, 0)), (1, false));
    let on_head = agent_at(15, &[(7, 7), (6, 7)], (7, 7), FourDirs::Right);
    assert_eq!(on_head.vision_in_dir(on_head.game.head, (0, 1)), (8, true));
    let on_wall = agent_at(15, &[(7, 7), (6, 7)], (15, 7), FourDirs::Right);
    assert_eq!(on_wall.vision_in_dir(on_wall.game.head, (1, 0)), (8, false));
}

#[test]
fn ray_from_an_occupied_cell_has_length_zero() {
    let agent = agent_at(15, &[(7, 7), (6, 7), (5, 7)], (1, 1), FourDirs::Right);
    assert_eq!(agent.vision_in_dir(Point::new(0, 7), (1, 0)), (0, false));
    assert_eq!(agent.vision_in_dir(Point::new(6, 7), (1, 0)), (0, false));
    assert_eq!(agent.vision_in_dir(Point::new(i32::MAX, i32::MIN), (1, -1)), (0, false));
}

#[test]
fn ray_gives_up_at_the_cap() {
    let agent = agent_at(5000, &[(10, 10), (9, 10)], (2000, 10), FourDirs::Right);
    assert_eq!(agent.vision_in_dir(agent.game.head, (1, 0)), (1000, false));
    let near = agent_at(5000, &[(10, 10), (9, 10)], (1009, 10), FourDirs::Right);
    assert_eq!(near.vision_in_dir(near.game.head, (1, 0)), (1000, true));
    assert_eq!(near.vision_in_dir(near.game.head, (0, 0)), (1000, false));
    let wall = agent_at(1010, &[(10, 10), (9, 10)], (1, 1), FourDirs::Right);
    assert_eq!(wall.vision_in_dir(wall.game.head, (1, 0)), (1000, false));
    let closer = agent_at(1009, &[(10, 10), (9, 10)], (1, 1), FourDirs::Right);
    assert_eq!(closer.vision_in_dir(closer.game.head, (1, 0)), (999, false));
}

#[test]
fn reading_has_rays_then_head_then_tail() {
    let agent = agent_at(15, &[(7, 7), (6, 7), (5, 7)], (10, 7), FourDirs::Top);
    let input = agent.get_brain_input();
    assert_eq!(input.len(), 24);
    assert_eq!(
        input,
        vec![
            1, 0, // left: the body is next to the head
            8, 1, // right: the wall, with the food on the way
            7, 0, // bottom
            8, 0, // top
            7, 0, // left and up
            8, 0, // right and up
            7, 0, // right and down
            7, 0, // left and down
            0, 0, 0, 1, // heading to the top
            1, 0, 0, 0, // the tail points to the left
        ]
    );
}

#[test]
fn reading_of_a_fresh_agent() {
    let agent = Agent::with_brain(Net::zeroed(&[24, 16, 8, 4]));
    let input = agent.get_brain_input();
    assert_eq!(input.len(), SENSOR_COUNT);
    assert_eq!(input[0], 1);
    assert_eq!(input[2], 8);
    for k in 0..8 {
        assert!(input[2 * k] <= 8);
        assert!(input[2 * k + 1] <= 1);
    }
    assert_eq!(input[16..20].iter().sum::<u32>(), 1);
    assert_eq!(agent.get_tail_direction(), FourDirs::Left);
    assert_eq!(&input[20..24], &[1, 0, 0, 0]);
    let proximity: Vec<f64> = (0..8).map(|k| 1.0 / input[2 * k] as f64).collect();
    assert_eq!(proximity[0], 1.0);
    assert_eq!(proximity[1], 0.125);
}

#[test]
fn tail_direction_follows_the_last_two_segments() {
    let cases = [
        ((6, 7), (5, 7), FourDirs::Left),
        ((6, 7), (7, 7), FourDirs::Right),
        ((6, 8), (6, 7), FourDirs::Bottom),
        ((6, 6), (6, 7), FourDirs::Top),
        ((6, 7), (6, 7), FourDirs::Top),
        ((9, 9), (6, 7), FourDirs::Top),
    ];
    for (before, tail, expected) in cases {
        let agent = agent_at(15, &[(3, 3), before, tail], (1, 1), FourDirs::Left);
        assert_eq!(agent.get_tail_direction(), expected);
    }
    let single = agent_at(15, &[(3, 3)], (1, 1), FourDirs::Bottom);
    assert_eq!(single.get_tail_direction(), FourDirs::Bottom);
    let far = agent_at(15, &[(3, 3), (i32::MIN, 0), (i32::MAX, 0)], (1, 1), FourDirs::Left);
    assert_eq!(far.get_tail_direction(), FourDirs::Top);
}

#[test]
fn a_cloned_agent_is_equal() {
    let agent = agent_at(15, &[(7, 7), (6, 7)], (2, 2), FourDirs::Top);
    let copy = agent.clone();
    assert_eq!(copy.game, agent.game);
    assert_eq!(copy.brain, agent.brain);
}

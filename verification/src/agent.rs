//! An agent: one game played by one network. The agent turns the state of
//! its game into a sensor reading, turns the outputs that the network gives
//! for that reading into a move, and scores the game for selection.
//!
//! Readings and outputs cross this boundary as integers. A reading holds
//! ray lengths and flags; the caller maps a length `d` to the proximity
//! `1 / d` before it feeds the network. An output is handed in as a key that
//! orders as the output does; for a non-negative double its bit pattern is
//! such a key.

use crate::configs::{nn_arch, GRID_SIZE, NUM_STEPS, SENSOR_COUNT};
use crate::game::{Game, GameState};
use crate::nn::{Net, NetView};
use crate::utils::{get_eight_dirs, eight_dirs, FourDirs, Point};
use vstd::arithmetic::power2::{lemma2_to64, pow2};
use vstd::prelude::*;

verus! {

/// The number of cells after which a ray gives up.
pub const RAY_CAP: u32 = 1000;

/// The score from which fitness grows with the cube of the score.
pub const FITNESS_THRESHOLD: usize = 5;

/// One game and the network that plays it.
#[derive(Debug)]
pub struct Agent {
    pub game: Game,
    pub brain: Net,
}

/// The mathematical value of an agent.
pub struct AgentView {
    pub game: GameState,
    pub brain: NetView,
}

impl AgentView {
    /// Fitness in tenths of a point, held at `u64::MAX` where it would
    /// exceed it.
    pub open spec fn fitness(self) -> u64 {
        let exact = fitness_value(self.game.score(), self.game.total_steps);
        if exact <= u64::MAX {
            exact as u64
        } else {
            u64::MAX
        }
    }
}

impl View for Agent {
    type V = AgentView;

    open spec fn view(&self) -> AgentView {
        AgentView { game: self.game@, brain: self.brain@ }
    }
}

/// The cell `d` steps of `dir` away from `start`.
pub open spec fn ray_cell(start: Point, dir: (i32, i32), d: int) -> (int, int) {
    (start.x + d * dir.0, start.y + d * dir.1)
}

/// The cell is wall or holds a body segment other than the first.
pub open spec fn occupied(g: GameState, cell: (int, int)) -> bool {
    ||| cell.0 >= g.grid_size
    ||| cell.0 <= 0
    ||| cell.1 >= g.grid_size
    ||| cell.1 <= 0
    ||| exists|i: int|
        1 <= i < g.body.len() && (#[trigger] g.body[i]).x == cell.0 && g.body[i].y == cell.1
}

/// The food lies on the cell.
pub open spec fn food_on(g: GameState, cell: (int, int)) -> bool {
    g.food.x == cell.0 && g.food.y == cell.1
}

/// What one ray reports: `dist` is the number of free cells from `start`
/// on, up to the first occupied cell or to `RAY_CAP`, and `food` says
/// whether the food lies on one of them.
pub open spec fn ray_reading(
    g: GameState,
    start: Point,
    dir: (i32, i32),
    dist: int,
    food: bool,
) -> bool {
    &&& 0 <= dist <= RAY_CAP
    &&& forall|d: int| 0 <= d < dist ==> !occupied(g, #[trigger] ray_cell(start, dir, d))
    &&& dist < RAY_CAP ==> occupied(g, ray_cell(start, dir, dist))
    &&& food <==> exists|d: int| 0 <= d < dist && food_on(g, #[trigger] ray_cell(start, dir, d))
}

/// The orientation of the tail: the direction that leads from the segment
/// before the last to the last. Where the two are not one step to the
/// left, to the right or to the bottom of each other it is `Top`; where the
/// body has fewer than two segments it is the current direction.
pub open spec fn tail_direction(g: GameState) -> FourDirs {
    if g.body.len() >= 2 {
        let tail = g.body[g.body.len() - 1];
        let before = g.body[g.body.len() - 2];
        let dx = tail.x - before.x;
        let dy = tail.y - before.y;
        if dx == -1 && dy == 0 {
            FourDirs::Left
        } else if dx == 1 && dy == 0 {
            FourDirs::Right
        } else if dx == 0 && dy == -1 {
            FourDirs::Bottom
        } else {
            FourDirs::Top
        }
    } else {
        g.dir
    }
}

/// Entries `2 * k` and `2 * k + 1` of `values` are the length and the food
/// flag, as `0` or `1`, of the ray from `start` in direction `dir`.
pub open spec fn ray_entry(
    g: GameState,
    start: Point,
    dir: (i32, i32),
    values: Seq<u32>,
    k: int,
) -> bool {
    &&& values[2 * k + 1] <= 1
    &&& ray_reading(g, start, dir, values[2 * k] as int, values[2 * k + 1] == 1)
}

/// The full sensor reading of a game: for each of the eight rays from the
/// head its length and its food flag, then the one-hot current direction,
/// then the one-hot orientation of the tail.
pub open spec fn is_reading(g: GameState, input: Seq<u32>) -> bool {
    &&& input.len() == SENSOR_COUNT
    &&& forall|k: int| 0 <= k < 8 ==> #[trigger] ray_entry(g, g.head, eight_dirs()[k], input, k)
    &&& forall|j: int| 0 <= j < 4 ==> input[16 + j] == #[trigger] g.dir.one_hot()[j]
    &&& forall|j: int| 0 <= j < 4 ==> input[20 + j] == #[trigger] tail_direction(g).one_hot()[j]
}

/// One step of the search for the first greatest output: `i` replaces
/// `best` where it is allowed and strictly greater.
pub open spec fn better(outputs: Seq<u64>, excluded: int, best: int, i: int) -> int {
    if i == excluded {
        best
    } else if best < 0 || outputs[i] > outputs[best] {
        i
    } else {
        best
    }
}

/// The position of the greatest of the four outputs, `excluded` left out;
/// among equals the first.
pub open spec fn first_max_excluding(outputs: Seq<u64>, excluded: int) -> int {
    better(
        outputs,
        excluded,
        better(
            outputs,
            excluded,
            better(outputs, excluded, better(outputs, excluded, -1, 0), 1),
            2,
        ),
        3,
    )
}

/// The move an agent makes: the direction with the greatest output among
/// those that do not reverse the current direction; among equals the first
/// in the order left, right, bottom, top.
pub open spec fn decide(current: FourDirs, outputs: Seq<u64>) -> FourDirs {
    FourDirs::at(first_max_excluding(outputs, current.opposite().index()))
}

/// The budget of steps without food at a given score.
pub open spec fn step_limit(score: nat) -> nat {
    if score > 30 {
        (NUM_STEPS * 6) as nat
    } else if score > 20 {
        (NUM_STEPS * 3) as nat
    } else if score > 5 {
        (NUM_STEPS * 2) as nat
    } else {
        NUM_STEPS as nat
    }
}

/// Fitness in tenths of a point. A score of at most one gives the floor of
/// one point. Below `FITNESS_THRESHOLD` fitness is `2^score * score` tenths
/// per step taken, from there on `score^3` tenths per step taken.
pub open spec fn fitness_value(score: nat, steps: nat) -> nat {
    if score <= 1 {
        10
    } else if score < FITNESS_THRESHOLD {
        pow2(score) * score * steps
    } else {
        score * score * score * steps
    }
}

/// One tick of an agent whose network gave `outputs`. A dead game stays as
/// it is. A live one makes the decided move, and is ended if the steps
/// since the last food then exceed the budget of its score.
pub open spec fn tick(g: GameState, outputs: Seq<u64>, new_food: Point) -> GameState {
    if g.is_dead {
        g
    } else {
        let moved = g.step(decide(g.dir, outputs), new_food);
        if moved.no_food_steps > step_limit(moved.score()) {
            GameState { is_dead: true, ..moved }
        } else {
            moved
        }
    }
}

/// The decided move never reverses the current direction, and no other
/// allowed direction has a greater output.
pub proof fn lemma_decide(current: FourDirs, outputs: Seq<u64>)
    requires
        outputs.len() == 4,
    ensures
        decide(current, outputs) != current.opposite(),
        forall|d: FourDirs|
            d != current.opposite() ==> outputs[#[trigger] d.index()] <= outputs[decide(
                current,
                outputs,
            ).index()],
{
    let ex = current.opposite().index();
    let b0 = better(outputs, ex, -1, 0);
    let b1 = better(outputs, ex, b0, 1);
    let b2 = better(outputs, ex, b1, 2);
    let b3 = better(outputs, ex, b2, 3);
    assert(b3 == first_max_excluding(outputs, ex));
    assert(0 <= b3 < 4 && b3 != ex);
    assert(FourDirs::at(b3).index() == b3);
    assert forall|d: FourDirs| d != current.opposite() implies outputs[#[trigger] d.index()]
        <= outputs[b3] by {
        assert(d.index() != ex);
    }
}

/// The tenths per step below the threshold: 8, 24 and 64 at the scores 2, 3
/// and 4.
pub proof fn lemma_fitness_below_threshold(score: nat, steps: nat)
    requires
        2 <= score < FITNESS_THRESHOLD,
    ensures
        score == 2 ==> fitness_value(score, steps) == 8 * steps,
        score == 3 ==> fitness_value(score, steps) == 24 * steps,
        score == 4 ==> fitness_value(score, steps) == 64 * steps,
{
    lemma2_to64();
    if score == 2 {
        assert(pow2(2) * 2 * steps == 8 * steps);
    } else if score == 3 {
        assert(pow2(3) * 3 * steps == 24 * steps);
    } else {
        assert(score == 4);
        assert(pow2(4) * 4 * steps == 64 * steps);
    }
}

/// Fitness never falls when, at a score of two or more, the score or the
/// number of steps grows.
pub proof fn lemma_fitness_monotonic(score1: nat, steps1: nat, score2: nat, steps2: nat)
    requires
        2 <= score1 <= score2,
        steps1 <= steps2,
    ensures
        fitness_value(score1, steps1) <= fitness_value(score2, steps2),
{
    let c1: nat = if score1 == 2 {
        8
    } else if score1 == 3 {
        24
    } else if score1 == 4 {
        64
    } else {
        score1 * score1 * score1
    };
    let c2: nat = if score2 == 2 {
        8
    } else if score2 == 3 {
        24
    } else if score2 == 4 {
        64
    } else {
        score2 * score2 * score2
    };
    if score1 < 5 {
        lemma_fitness_below_threshold(score1, steps1);
    }
    if score2 < 5 {
        lemma_fitness_below_threshold(score2, steps2);
    }
    assert(fitness_value(score1, steps1) == c1 * steps1);
    assert(fitness_value(score2, steps2) == c2 * steps2);
    assert(c1 <= c2) by {
        if score2 >= 5 {
            assert(score2 * score2 * score2 >= 125) by (nonlinear_arith)
                requires
                    score2 >= 5,
            ;
            if score1 >= 5 {
                assert(score1 * score1 * score1 <= score2 * score2 * score2) by (nonlinear_arith)
                    requires
                        0 <= score1 <= score2,
                ;
            }
        }
    }
    assert(c1 * steps1 <= c2 * steps2) by (nonlinear_arith)
        requires
            0 <= c1 <= c2,
            0 <= steps1 <= steps2,
    ;
}

impl Agent {
    /// An agent with a network of the default topology, every parameter
    /// drawn afresh, and a fresh game on the default grid.
    pub fn new<D: Fn() -> u64>(draw: &D) -> (agent: Self)
        requires
            call_requires(*draw, ()),
        ensures
            agent.brain@.wf(),
            agent.brain@.layer_sizes() == seq![24nat, 16nat, 8nat, 4nat],
            agent.brain@.is_drawn(*draw),
            agent.game@ == GameState::initial(GRID_SIZE as int, agent.game.food, agent.game.dir),
            agent.game.food.in_food_range(GRID_SIZE as int),
            agent.game@.valid(),
    {
        let arch = nn_arch();
        let brain = Net::new(arch.as_slice(), draw);
        assert(arch@.map_values(|s: usize| s as nat) =~= seq![24nat, 16nat, 8nat, 4nat]);
        Self::with_brain(brain)
    }

    /// An agent with the given network and a fresh game on the default grid.
    pub fn with_brain(brain: Net) -> (agent: Self)
        ensures
            agent.brain@ == brain@,
            agent.game@ == GameState::initial(GRID_SIZE as int, agent.game.food, agent.game.dir),
            agent.game.food.in_food_range(GRID_SIZE as int),
            agent.game@.valid(),
    {
        Self { game: Game::new(), brain }
    }

    /// An agent with the given network and a fresh game on a grid of side
    /// `grid_size`.
    pub fn with_brain_on(brain: Net, grid_size: i32) -> (agent: Self)
        requires
            grid_size >= 3,
        ensures
            agent.brain@ == brain@,
            agent.game@ == GameState::initial(grid_size as int, agent.game.food, agent.game.dir),
            agent.game.food.in_food_range(grid_size as int),
            agent.game@.valid(),
    {
        Self { game: Game::with_grid_size(grid_size), brain }
    }

    /// One tick: makes the move decided from `outputs`, the keys of the four
    /// outputs that the network gave for the current reading, and ends the
    /// game if it has gone too long without food. Returns whether the game
    /// is still live afterwards.
    pub fn update(&mut self, outputs: &[u64; 4]) -> (alive: bool)
        requires
            old(self).game@.valid(),
            !old(self).game.is_dead ==> old(self).game.total_steps < usize::MAX,
        ensures
            final(self).game@ == tick(old(self).game@, outputs@, final(self).game.food),
            final(self).brain@ == old(self).brain@,
            alive == !final(self).game.is_dead,
            final(self).game@.valid(),
            !old(self).game.is_dead && old(self).game@.eats()
                ==> final(self).game.food.in_food_range(old(self).game.grid_size as int),
    {
        if self.game.is_dead {
            return false;
        }
        let dir = self.get_brain_output(outputs);
        self.game.update(dir);

        let step_limit = self.get_step_limit();
        if self.game.no_food_steps > step_limit {
            self.game.is_dead = true;
        }
        !self.game.is_dead
    }

    /// Fitness in tenths of a point, held at `u64::MAX` where it would
    /// exceed it.
    pub fn fitness(&self) -> (f: u64)
        ensures
            f == self@.fitness(),
    {
        let score: usize = self.game.body.len();
        if score <= 1 {
            return 10;
        }
        let steps: u64 = self.game.total_steps as u64;
        if steps == 0 {
            assert(fitness_value(score as nat, 0) == 0) by (nonlinear_arith)
                requires
                    fitness_value(score as nat, 0) == pow2(score as nat) * score * 0
                        || fitness_value(score as nat, 0) == score * score * score * 0,
            ;
            return 0;
        }
        let s: u64 = score as u64;
        let per_step: Option<u64> = if score < FITNESS_THRESHOLD {
            proof {
                lemma_fitness_below_threshold(score as nat, steps as nat);
            }
            if score == 2 {
                Some(8)
            } else if score == 3 {
                Some(24)
            } else {
                Some(64)
            }
        } else {
            match s.checked_mul(s) {
                Some(square) => square.checked_mul(s),
                None => {
                    assert(s * s * s > u64::MAX) by (nonlinear_arith)
                        requires
                            s * s > u64::MAX,
                            s >= 1,
                    ;
                    None
                },
            }
        };
        let ghost exact = fitness_value(score as nat, steps as nat);
        match per_step {
            Some(c) => {
                assert(exact == c * steps) by {
                    if score >= FITNESS_THRESHOLD {
                        assert(c == s * s * s);
                    }
                }
                match c.checked_mul(steps) {
                    Some(f) => f,
                    None => u64::MAX,
                }
            },
            None => {
                assert(exact > u64::MAX) by (nonlinear_arith)
                    requires
                        exact == s * s * s * steps,
                        s * s * s > u64::MAX,
                        steps >= 1,
                ;
                u64::MAX
            },
        }
    }

    /// The move decided from the keys of the four outputs: the direction of
    /// the greatest; where that would reverse the current direction, the
    /// direction of the greatest of the other three.
    pub fn get_brain_output(&self, outputs: &[u64; 4]) -> (dir: FourDirs)
        ensures
            dir == decide(self.game.dir, outputs@),
    {
        let best: usize = Self::first_max(outputs, 4);
        let candidate = FourDirs::from_index(best as i32);
        if candidate == self.game.dir.reverse() {
            let second: usize = Self::first_max(outputs, best);
            FourDirs::from_index(second as i32)
        } else {
            candidate
        }
    }

    /// The position of the greatest of the four outputs, position `skip`
    /// left out; among equals the first.
    fn first_max(outputs: &[u64; 4], skip: usize) -> (best: usize)
        ensures
            best < 4,
            best != skip,
            best == first_max_excluding(outputs@, if skip < 4 { skip as int } else { -1 }),
            forall|i: int| 0 <= i < 4 && i != skip ==> outputs[i] <= outputs[best as int],
            forall|i: int| 0 <= i < best && i != skip ==> outputs[i] < outputs[best as int],
    {
        let mut best: usize = if skip == 0 {
            1
        } else {
            0
        };
        let mut i: usize = best + 1;
        let ghost ex: int = if skip < 4 {
            skip as int
        } else {
            -1
        };
        while i < 4
            invariant
                best < i <= 4,
                best != skip,
                ex == (if skip < 4 { skip as int } else { -1 }),
                forall|j: int| 0 <= j < i && j != skip ==> outputs[j] <= outputs[best as int],
                forall|j: int| 0 <= j < best && j != skip ==> outputs[j] < outputs[best as int],
                i == 1 ==> best == better(outputs@, ex, -1, 0),
                i == 2 ==> best == better(outputs@, ex, better(outputs@, ex, -1, 0), 1),
                i == 3 ==> best == better(
                    outputs@,
                    ex,
                    better(outputs@, ex, better(outputs@, ex, -1, 0), 1),
                    2,
                ),
                i == 4 ==> best == first_max_excluding(outputs@, ex),
            decreases 4 - i,
        {
            if i != skip && outputs[i] > outputs[best] {
                best = i;
            }
            i += 1;
        }
        best
    }

    /// The sensor reading of the current state: 24 values. For each of
    /// the eight rays its length and its food flag, then the one-hot current
    /// direction, then the one-hot orientation of the tail.
    pub fn get_brain_input(&self) -> (input: Vec<u32>)
        ensures
            is_reading(self.game@, input@),
    {
        let eight = get_eight_dirs();
        let mut dirs: Vec<(i32, i32)> = Vec::new();
        let mut k: usize = 0;
        while k < 8
            invariant
                k <= 8,
                eight@ == eight_dirs(),
                dirs@ == eight_dirs().take(k as int),
            decreases 8 - k,
        {
            dirs.push(eight[k]);
            assert(dirs@ =~= eight_dirs().take(k + 1));
            k += 1;
        }
        assert(dirs@ =~= eight_dirs());
        let mut input = self.get_snake_vision(dirs);
        let head_dir = self.game.dir.get_one_hot_dir();
        let tail_dir = self.get_tail_direction().get_one_hot_dir();
        let ghost vision = input@;
        let mut j: usize = 0;
        while j < 4
            invariant
                j <= 4,
                head_dir@ == self.game.dir.one_hot(),
                input@ == vision + Seq::new(j as nat, |i: int| head_dir[i] as u32),
            decreases 4 - j,
        {
            input.push(head_dir[j] as u32);
            assert(input@ =~= vision + Seq::new((j + 1) as nat, |i: int| head_dir[i] as u32));
            j += 1;
        }
        let ghost with_head = input@;
        let mut j: usize = 0;
        while j < 4
            invariant
                j <= 4,
                tail_dir@ == tail_direction(self.game@).one_hot(),
                input@ == with_head + Seq::new(j as nat, |i: int| tail_dir[i] as u32),
            decreases 4 - j,
        {
            input.push(tail_dir[j] as u32);
            assert(input@ =~= with_head + Seq::new((j + 1) as nat, |i: int| tail_dir[i] as u32));
            j += 1;
        }
        proof {
            let g = self.game@;
            assert(input@.len() == 24);
            assert forall|k: int| 0 <= k < 8 implies #[trigger] ray_entry(
                g,
                g.head,
                eight_dirs()[k],
                input@,
                k,
            ) by {
                assert(ray_entry(g, g.head, eight_dirs()[k], vision, k));
                assert(input@[2 * k] == vision[2 * k]);
                assert(input@[2 * k + 1] == vision[2 * k + 1]);
            }
            assert forall|j: int| 0 <= j < 4 implies input@[16 + j]
                == #[trigger] g.dir.one_hot()[j] by {
                assert(input@[16 + j] == with_head[16 + j]);
            }
        }
        input
    }

    /// Casts one ray from the head in each of `dirs`: for each direction,
    /// in order, the length of the ray and then its food flag.
    fn get_snake_vision(&self, dirs: Vec<(i32, i32)>) -> (vision: Vec<u32>)
        requires
            forall|k: int|
                0 <= k < dirs.len() ==> -1 <= (#[trigger] dirs[k]).0 <= 1 && -1 <= dirs[k].1 <= 1,
        ensures
            vision.len() == 2 * dirs.len(),
            forall|k: int|
                0 <= k < dirs.len() ==> #[trigger] ray_entry(
                    self.game@,
                    self.game.head,
                    dirs[k],
                    vision@,
                    k,
                ),
    {
        let mut vision: Vec<u32> = Vec::new();
        let mut k: usize = 0;
        while k < dirs.len()
            invariant
                k <= dirs.len(),
                forall|i: int|
                    0 <= i < dirs.len() ==> -1 <= (#[trigger] dirs[i]).0 <= 1 && -1 <= dirs[i].1
                        <= 1,
                vision.len() == 2 * k,
                forall|i: int|
                    0 <= i < k ==> #[trigger] ray_entry(
                        self.game@,
                        self.game.head,
                        dirs[i],
                        vision@,
                        i,
                    ),
            decreases dirs.len() - k,
        {
            let d = dirs[k];
            let (solid, food) = self.vision_in_dir(self.game.head, d);
            let ghost before = vision@;
            vision.push(solid);
            vision.push(
                if food {
                    1
                } else {
                    0
                },
            );
            assert forall|i: int| 0 <= i < k + 1 implies #[trigger] ray_entry(
                self.game@,
                self.game.head,
                dirs[i],
                vision@,
                i,
            ) by {
                if i < k {
                    assert(ray_entry(self.game@, self.game.head, dirs[i], before, i));
                    assert(vision[2 * i] == before[2 * i]);
                    assert(vision[2 * i + 1] == before[2 * i + 1]);
                }
            }
            k += 1;
        }
        vision
    }

    /// Casts one ray from `st` in direction `dir`: walks until a cell is
    /// wall or body, or `RAY_CAP` cells were walked, and reports how many
    /// cells were free and whether the food lay on one of them.
    pub fn vision_in_dir(&self, st: Point, dir: (i32, i32)) -> (seen: (u32, bool))
        requires
            -1 <= dir.0 <= 1,
            -1 <= dir.1 <= 1,
        ensures
            ray_reading(self.game@, st, dir, seen.0 as int, seen.1),
    {
        let ghost g = self.game@;
        let mut food = false;
        let mut temp_pt: Point = st;
        let mut dist: u32 = 0;

        loop
            invariant_except_break
                dist < RAY_CAP,
                (temp_pt.x as int, temp_pt.y as int) == ray_cell(st, dir, dist as int),
            invariant
                g == self.game@,
                -1 <= dir.0 <= 1,
                -1 <= dir.1 <= 1,
                dist <= RAY_CAP,
                forall|d: int| 0 <= d < dist ==> !occupied(g, #[trigger] ray_cell(st, dir, d)),
                food <==> exists|d: int|
                    0 <= d < dist && food_on(g, #[trigger] ray_cell(st, dir, d)),
            ensures
                dist < RAY_CAP ==> occupied(g, ray_cell(st, dir, dist as int)),
            decreases RAY_CAP - dist,
        {
            proof {
                lemma_occupied(g, temp_pt);
            }
            if self.game.is_wall(temp_pt) || self.game.is_snake_body(temp_pt) {
                break ;
            }
            if self.game.food == temp_pt {
                food = true;
            }
            let ghost here = dist as int;
            assert(food_on(g, ray_cell(st, dir, here)) == (self.game.food == temp_pt));
            assert((here + 1) * dir.0 == here * dir.0 + dir.0 && (here + 1) * dir.1 == here * dir.1
                + dir.1) by (nonlinear_arith);
            temp_pt = Point::new(temp_pt.x + dir.0, temp_pt.y + dir.1);
            dist += 1;
            assert forall|d: int| 0 <= d < dist implies !occupied(
                g,
                #[trigger] ray_cell(st, dir, d),
            ) by {
                if d == here {
                }
            }
            if dist >= RAY_CAP {
                break ;
            }
        }

        (dist, food)
    }

    /// The budget of steps without food at the current score.
    pub fn get_step_limit(&self) -> (limit: usize)
        ensures
            limit == step_limit(self.game@.score()),
    {
        let score = self.game.score();
        if score > 30 {
            NUM_STEPS * 6
        } else if score > 20 {
            NUM_STEPS * 3
        } else if score > 5 {
            NUM_STEPS * 2
        } else {
            NUM_STEPS
        }
    }

    /// The orientation of the tail: the direction from the segment before
    /// the last to the last.
    pub fn get_tail_direction(&self) -> (dir: FourDirs)
        ensures
            dir == tail_direction(self.game@),
    {
        let n = self.game.body.len();
        if n >= 2 {
            let tail = self.game.body[n - 1];
            let before = self.game.body[n - 2];
            let x: i64 = tail.x as i64 - before.x as i64;
            let y: i64 = tail.y as i64 - before.y as i64;
            if x == -1 && y == 0 {
                FourDirs::Left
            } else if x == 1 && y == 0 {
                FourDirs::Right
            } else if x == 0 && y == -1 {
                FourDirs::Bottom
            } else {
                FourDirs::Top
            }
        } else {
            self.game.dir
        }
    }
}

/// A point is occupied exactly when it is wall or body.
pub proof fn lemma_occupied(g: GameState, pt: Point)
    ensures
        occupied(g, (pt.x as int, pt.y as int)) == (g.is_wall(pt) || g.is_snake_body(pt)),
{
    if g.is_snake_body(pt) {
        let i = choose|i: int| 1 <= i < g.body.len() && g.body[i] == pt;
        assert(g.body[i].x == pt.x && g.body[i].y == pt.y);
    }
    if occupied(g, (pt.x as int, pt.y as int)) && !g.is_wall(pt) {
        let i = choose|i: int|
            1 <= i < g.body.len() && (#[trigger] g.body[i]).x == pt.x && g.body[i].y == pt.y;
        assert(g.body[i] == pt);
    }
}

impl Clone for Agent {
    fn clone(&self) -> (copy: Self)
        ensures
            copy@ == self@,
    {
        Agent { game: self.game.clone(), brain: self.brain.clone() }
    }
}

} // verus!

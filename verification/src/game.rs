//! The snake game: a deterministic state machine on a square grid, random
//! only in where food reappears.

use crate::configs::GRID_SIZE;
use crate::utils::{FourDirs, Point};
use vstd::prelude::*;

verus! {

/// One game in progress. `body` runs from the head to the tail.
#[derive(Debug, PartialEq, Eq)]
pub struct Game {
    pub head: Point,
    pub body: Vec<Point>,
    pub food: Point,
    pub dir: FourDirs,
    pub is_dead: bool,
    pub total_steps: usize,
    pub no_food_steps: usize,
    /// Side length of the grid: coordinates `0` and `grid_size` are wall.
    pub grid_size: i32,
}

/// The mathematical state of a game.
pub struct GameState {
    pub head: Point,
    pub body: Seq<Point>,
    pub food: Point,
    pub dir: FourDirs,
    pub is_dead: bool,
    pub total_steps: nat,
    pub no_food_steps: nat,
    pub grid_size: int,
}

impl GameState {
    /// A cell on or beyond the border of the grid.
    pub open spec fn is_wall(self, pt: Point) -> bool {
        pt.x >= self.grid_size || pt.x <= 0 || pt.y >= self.grid_size || pt.y <= 0
    }

    /// A cell occupied by a body segment other than the first.
    pub open spec fn is_snake_body(self, pt: Point) -> bool {
        exists|i: int| 1 <= i < self.body.len() && self.body[i] == pt
    }

    /// The head stands on the food.
    pub open spec fn eats(self) -> bool {
        self.head == self.food
    }

    /// What every state reached from a fresh game satisfies: the body starts
    /// with the head, a live head is off the wall, and the steps since the
    /// last food never exceed the steps taken.
    pub open spec fn valid(self) -> bool {
        &&& 3 <= self.grid_size <= i32::MAX
        &&& self.body.len() >= 1
        &&& self.body[0] == self.head
        &&& !self.is_dead ==> !self.is_wall(self.head)
        &&& self.no_food_steps <= self.total_steps
    }

    /// A fresh game: the head in the middle of the grid, two more segments
    /// to its left, no step taken.
    pub open spec fn initial(grid_size: int, food: Point, dir: FourDirs) -> GameState {
        let mid = (grid_size / 2) as i32;
        let head = Point { x: mid, y: mid };
        GameState {
            head,
            body: seq![
                head,
                Point { x: (mid - 1) as i32, y: mid },
                Point { x: (mid - 2) as i32, y: mid },
            ],
            food,
            dir,
            is_dead: false,
            total_steps: 0,
            no_food_steps: 0,
            grid_size,
        }
    }

    /// The head after one move in direction `dir`.
    pub open spec fn next_head(self, dir: FourDirs) -> Point {
        Point {
            x: (self.head.x + dir.delta().0) as i32,
            y: (self.head.y + dir.delta().1) as i32,
        }
    }

    /// The body after one move: when the head stands on food a copy of the
    /// head is appended first; then every segment takes the place of the one
    /// before it and the first becomes the new head.
    pub open spec fn next_body(self, dir: FourDirs) -> Seq<Point> {
        let grown = if self.eats() {
            self.body.push(self.head)
        } else {
            self.body
        };
        seq![self.next_head(dir)] + grown.drop_last()
    }

    /// The transition function. A dead game stays as it is. A live one
    /// records `dir`, counts the step, eats if the head stands on food (the
    /// food then moves to `new_food`, wherever that is), moves, and dies
    /// if the new head is on the wall or on its own body.
    pub open spec fn step(self, dir: FourDirs, new_food: Point) -> GameState {
        if self.is_dead {
            self
        } else {
            let moved = GameState {
                head: self.next_head(dir),
                body: self.next_body(dir),
                food: if self.eats() {
                    new_food
                } else {
                    self.food
                },
                dir,
                is_dead: false,
                total_steps: self.total_steps + 1,
                no_food_steps: if self.eats() {
                    0
                } else {
                    self.no_food_steps + 1
                },
                grid_size: self.grid_size,
            };
            GameState {
                is_dead: moved.is_wall(moved.head) || moved.is_snake_body(moved.head),
                ..moved
            }
        }
    }

    /// The number of body segments.
    pub open spec fn score(self) -> nat {
        self.body.len()
    }
}

/// A fresh game is valid.
pub proof fn lemma_initial_valid(grid_size: int, food: Point, dir: FourDirs)
    requires
        3 <= grid_size <= i32::MAX,
    ensures
        GameState::initial(grid_size, food, dir).valid(),
{
}

/// A step keeps a valid state valid.
pub proof fn lemma_step_valid(s: GameState, dir: FourDirs, new_food: Point)
    requires
        s.valid(),
    ensures
        s.step(dir, new_food).valid(),
        s.step(dir, new_food).grid_size == s.grid_size,
{
    if !s.is_dead {
        let next = s.step(dir, new_food);
        assert(next.body[0] == next.head);
    }
}

/// Stepping onto a wall cell ends the game, and nothing moves afterwards:
/// every later step leaves the state, the body with it, as it is.
pub proof fn lemma_wall_ends_game(
    s: GameState,
    dir: FourDirs,
    new_food: Point,
    later_dir: FourDirs,
    later_food: Point,
)
    requires
        s.valid(),
        !s.is_dead,
        s.is_wall(s.next_head(dir)),
    ensures
        s.step(dir, new_food).is_dead,
        s.step(dir, new_food).step(later_dir, later_food) == s.step(dir, new_food),
        s.step(dir, new_food).step(later_dir, later_food).body == s.step(dir, new_food).body,
{
}

/// A step from a cell with food raises the score by exactly one and moves
/// the food to the new cell; a step from any other cell keeps score and
/// food.
pub proof fn lemma_eating_grows(s: GameState, dir: FourDirs, new_food: Point)
    requires
        s.valid(),
        !s.is_dead,
    ensures
        s.eats() ==> s.step(dir, new_food).score() == s.score() + 1 && s.step(dir, new_food).food
            == new_food,
        !s.eats() ==> s.step(dir, new_food).score() == s.score() && s.step(dir, new_food).food
            == s.food,
{
}

impl View for Game {
    type V = GameState;

    open spec fn view(&self) -> GameState {
        GameState {
            head: self.head,
            body: self.body@,
            food: self.food,
            dir: self.dir,
            is_dead: self.is_dead,
            total_steps: self.total_steps as nat,
            no_food_steps: self.no_food_steps as nat,
            grid_size: self.grid_size as int,
        }
    }
}

impl Game {
    /// A fresh game on the default grid, with food and direction drawn at
    /// random.
    pub fn new() -> (game: Self)
        ensures
            game@ == GameState::initial(GRID_SIZE as int, game.food, game.dir),
            game.food.in_food_range(GRID_SIZE as int),
            game@.valid(),
    {
        Self::with_grid_size(GRID_SIZE)
    }

    /// A fresh game on a grid of side `grid_size`, with food and direction
    /// drawn at random.
    pub fn with_grid_size(grid_size: i32) -> (game: Self)
        requires
            grid_size >= 3,
        ensures
            game@ == GameState::initial(grid_size as int, game.food, game.dir),
            game.food.in_food_range(grid_size as int),
            game@.valid(),
    {
        let mid: i32 = grid_size / 2;
        let head = Point::new(mid, mid);
        let mut body: Vec<Point> = Vec::new();
        body.push(head);
        body.push(Point::new(head.x - 1, head.y));
        body.push(Point::new(head.x - 2, head.y));
        let game = Self {
            body,
            head,
            food: Point::rand_within(grid_size),
            dir: FourDirs::get_rand_dir(),
            is_dead: false,
            total_steps: 0,
            no_food_steps: 0,
            grid_size,
        };
        assert(game@.body =~= GameState::initial(grid_size as int, game.food, game.dir).body);
        game
    }

    /// Whether the state satisfies `valid`.
    pub fn is_valid(&self) -> (ok: bool)
        ensures
            ok == self@.valid(),
    {
        self.grid_size >= 3 && self.body.len() >= 1 && self.body[0].equals(self.head) && (
        self.is_dead || !self.is_wall(self.head)) && self.no_food_steps <= self.total_steps
    }

    /// Advances the game by one move in direction `dir`.
    pub fn update(&mut self, dir: FourDirs)
        requires
            old(self)@.valid(),
            !old(self).is_dead ==> old(self).total_steps < usize::MAX,
        ensures
            final(self)@ == old(self)@.step(dir, final(self).food),
            !old(self).is_dead && old(self)@.eats() ==> final(self).food.in_food_range(
                old(self).grid_size as int,
            ) && final(self)@.score() == old(self)@.score() + 1,
            final(self)@.valid(),
    {
        if self.is_dead {
            return ;
        }
        self.total_steps += 1;
        self.dir = dir;
        self.handle_food_collision();
        self.update_snake_positions();

        if self.is_wall(self.head) || self.is_snake_body(self.head) {
            self.is_dead = true;
        }
    }

    /// The score: the number of body segments.
    pub fn score(&self) -> (n: usize)
        ensures
            n == self@.score(),
    {
        self.body.len()
    }

    /// Whether `pt` lies on or beyond the border of the grid.
    pub fn is_wall(&self, pt: Point) -> (hit: bool)
        ensures
            hit == self@.is_wall(pt),
    {
        pt.x >= self.grid_size || pt.x <= 0 || pt.y >= self.grid_size || pt.y <= 0
    }

    /// Whether a body segment other than the first occupies `pt`.
    pub fn is_snake_body(&self, pt: Point) -> (hit: bool)
        ensures
            hit == self@.is_snake_body(pt),
    {
        let mut i: usize = 1;
        while i < self.body.len()
            invariant
                1 <= i,
                forall|j: int| 1 <= j < i && j < self.body.len() ==> self.body[j] != pt,
            decreases self.body.len() - i,
        {
            if self.body[i].equals(pt) {
                assert(self@.body[i as int] == pt);
                return true;
            }
            i += 1;
        }
        false
    }

    /// Moves the head one cell in the current direction and lets every
    /// segment take the place of the one before it.
    fn update_snake_positions(&mut self)
        requires
            old(self).body.len() >= 1,
            i32::MIN < old(self).head.x < i32::MAX,
            i32::MIN < old(self).head.y < i32::MAX,
        ensures
            final(self).head == old(self)@.next_head(old(self).dir),
            final(self).body@ == seq![final(self).head] + old(self).body@.drop_last(),
            final(self).food == old(self).food,
            final(self).dir == old(self).dir,
            final(self).is_dead == old(self).is_dead,
            final(self).total_steps == old(self).total_steps,
            final(self).no_food_steps == old(self).no_food_steps,
            final(self).grid_size == old(self).grid_size,
    {
        self.head.x += self.dir.value().0;
        self.head.y += self.dir.value().1;

        let ghost before = self.body@;
        let n: usize = self.body.len();
        let mut i: usize = n - 1;
        while i >= 1
            invariant
                i < n,
                self.body.len() == n,
                before.len() == n,
                forall|j: int| 0 <= j <= i ==> self.body[j] == before[j],
                forall|j: int| i < j < n ==> self.body[j] == before[j - 1],
                self.head == old(self)@.next_head(old(self).dir),
                self.food == old(self).food,
                self.dir == old(self).dir,
                self.is_dead == old(self).is_dead,
                self.total_steps == old(self).total_steps,
                self.no_food_steps == old(self).no_food_steps,
                self.grid_size == old(self).grid_size,
            decreases i,
        {
            self.body[i] = self.body[i - 1];
            i -= 1;
        }
        self.body[0] = self.head;
        assert(self.body@ =~= seq![self.head] + before.drop_last());
    }

    /// Eats the food under the head, if any: the body grows by a copy of
    /// the head and the food reappears at a random cell, which may be one
    /// that the snake occupies.
    fn handle_food_collision(&mut self)
        requires
            old(self).grid_size >= 3,
            old(self).no_food_steps < usize::MAX,
        ensures
            old(self)@.eats() ==> {
                &&& final(self).no_food_steps == 0
                &&& final(self).body@ == old(self).body@.push(old(self).head)
                &&& final(self).food.in_food_range(old(self).grid_size as int)
            },
            !old(self)@.eats() ==> {
                &&& final(self).no_food_steps == old(self).no_food_steps + 1
                &&& final(self).body@ == old(self).body@
                &&& final(self).food == old(self).food
            },
            final(self).head == old(self).head,
            final(self).dir == old(self).dir,
            final(self).is_dead == old(self).is_dead,
            final(self).total_steps == old(self).total_steps,
            final(self).grid_size == old(self).grid_size,
    {
        if !self.head.equals(self.food) {
            self.no_food_steps += 1;
            return ;
        }
        self.no_food_steps = 0;
        self.body.push(Point::new(self.head.x, self.head.y));
        self.food = Point::rand_within(self.grid_size);
    }
}

impl Clone for Game {
    fn clone(&self) -> (copy: Self)
        ensures
            copy@ == self@,
    {
        Game {
            head: self.head,
            body: self.body.clone(),
            food: self.food,
            dir: self.dir,
            is_dead: self.is_dead,
            total_steps: self.total_steps,
            no_food_steps: self.no_food_steps,
            grid_size: self.grid_size,
        }
    }
}

impl Default for Game {
    fn default() -> (game: Self)
        ensures
            game@ == GameState::initial(GRID_SIZE as int, game.food, game.dir),
            game.food.in_food_range(GRID_SIZE as int),
            game@.valid(),
    {
        Self::new()
    }
}

} // verus!

//! The simulation engine: one call of `Game::turn` is one tick of the arena.

use crate::geometry::{is_inside, next_cell, on_border, Direction, Point, HEIGHT, WIDTH};
use crate::snake::{drawn_direction, spawn, spawn_y, stepped, toward_food, turned, Snake, SnakeView, MAX_SNAKES};
use vstd::prelude::*;

verus! {

/// Milliseconds between two ticks.
pub const SPEED: u64 = 100;

/// How many times a new match draws its food before falling back to a
/// fixed free cell.
pub const FOOD_DRAWS: u32 = 16;

/// Points scored for each food eaten.
pub const POINTS: i32 = 10;

/// The score shown to players as the goal; the engine itself never ends a game on it.
pub const POINTS_TO_WIN: u32 = 100;

/// The longest body a snake may reach: its score, ten points per cell, must
/// stay within an `i32`.
pub const MAX_BODY_LEN: usize = 100_000_000;

/// What became of a player: still playing with a score, or out.
#[derive(Clone, Copy, PartialEq, Eq, Structural, Debug)]
pub enum PlayerStatus {
    Loser,
    Leaver,
    Player(i32),
}

/// How the bots steer.
#[derive(Clone, Copy, PartialEq, Eq, Structural, Debug)]
pub enum BotMovement {
    /// A direction drawn uniformly at each tick.
    Random,
    /// A greedy chase of the food.
    ToTheFood,
}

/// The command given for one snake in one tick.
#[derive(Clone, Copy, PartialEq, Eq, Structural, Debug)]
pub enum Input {
    Left,
    Right,
    Up,
    Down,
    Quit,
}

/// The state of a match. Slot `i` of `snakes` and `scores` belongs to the
/// snake with id `i + 1`; an eliminated snake's slot holds `None`.
#[derive(Clone, Debug)]
pub struct Game {
    pub nb_snakes: u32,
    pub snakes: Vec<Option<Snake>>,
    /// Ids of the snakes steered by the engine.
    pub bots: Vec<u32>,
    pub bots_difficulty: BotMovement,
    pub points_to_win: u32,
    pub food: Point,
    pub scores: Vec<PlayerStatus>,
    pub speed: u64,
}

/// What a tick ends in.
pub enum TurnOutcome {
    /// The match goes on; the ids eliminated during this tick, in increasing order.
    Playing(Vec<u32>),
    /// The match is over: the last snake standing, or `None` for a draw.
    End(Option<u32>),
}

pub open spec fn opt_view(o: Option<Snake>) -> Option<SnakeView> {
    match o {
        Some(s) => Some(s@),
        None => None,
    }
}

/// The mathematical value of a slot array.
pub open spec fn slots_view(s: Seq<Option<Snake>>) -> Seq<Option<SnakeView>> {
    s.map_values(|o: Option<Snake>| opt_view(o))
}

/// A living snake in slot `i` with status `st`: right id, a body of one cell
/// per ten points, the head inside the arena.
pub open spec fn snake_ok(s: SnakeView, i: int, st: PlayerStatus) -> bool {
    &&& s.id == i + 1
    &&& 1 <= s.body.len() <= MAX_BODY_LEN
    &&& is_inside(s.head)
    &&& st is Player
    &&& st->Player_0 == POINTS * (s.body.len() - 1)
}

/// The number of occupied slots.
pub open spec fn alive_count(s: Seq<Option<SnakeView>>) -> nat
    decreases s.len(),
{
    if s.len() == 0 {
        0
    } else {
        alive_count(s.drop_last()) + if s.last() is Some {
            1nat
        } else {
            0nat
        }
    }
}

impl Game {
    pub open spec fn slots(&self) -> Seq<Option<SnakeView>> {
        slots_view(self.snakes@)
    }

    /// The invariant of a match in progress.
    pub open spec fn wf(&self) -> bool {
        &&& 2 <= self.nb_snakes <= MAX_SNAKES
        &&& self.snakes@.len() == self.nb_snakes
        &&& self.scores@.len() == self.nb_snakes
        &&& forall|i: int|
            0 <= i < self.nb_snakes ==> match #[trigger] self.slots()[i] {
                Some(s) => snake_ok(s, i, self.scores@[i]),
                None => self.scores@[i] is Loser || self.scores@[i] is Leaver,
            }
        &&& self.bots@.no_duplicates()
        &&& self.bots@.len() < self.nb_snakes
        &&& forall|k: int| 0 <= k < self.bots@.len() ==> 1 <= #[trigger] self.bots@[k] <= self.nb_snakes
        &&& is_inside(self.food)
    }

    /// Every living snake can still grow by one cell.
    pub open spec fn can_grow(&self) -> bool {
        forall|i: int|
            0 <= i < self.slots().len() && #[trigger] self.slots()[i] is Some
                ==> self.slots()[i]->Some_0.body.len() < MAX_BODY_LEN
    }
}

/// The ids of the bots of a game of `nb_snakes` snakes with `nb_bots` bots: the
/// last ones.
pub open spec fn bot_ids(nb_snakes: u32, nb_bots: u32) -> Seq<u32> {
    id_range(nb_snakes - nb_bots + 1, nb_bots as int)
}

/// The `count` consecutive ids from `first` on.
pub open spec fn id_range(first: int, count: int) -> Seq<u32> {
    Seq::new(count as nat, |k: int| (first + k) as u32)
}

/// No living snake has its head on `p`.
pub open spec fn free_of_heads(slots: Seq<Option<SnakeView>>, p: Point) -> bool {
    forall|i: int| 0 <= i < slots.len() && #[trigger] slots[i] is Some ==> slots[i]->Some_0.head != p
}

/// Every living snake sits in the slot of its id.
pub open spec fn ids_in_slots(slots: Seq<Option<SnakeView>>) -> bool {
    forall|i: int| 0 <= i < slots.len() && #[trigger] slots[i] is Some ==> slots[i]->Some_0.id == i + 1
}

/// A valid configuration: two to four snakes, at least one of them human.
pub open spec fn valid_config(nb_snakes: u32, nb_bots: u32) -> bool {
    2 <= nb_snakes <= MAX_SNAKES && nb_bots < nb_snakes
}

/// The direction a command asks for (`Quit` asks for none).
pub open spec fn input_direction(c: Input) -> Direction {
    match c {
        Input::Left => Direction::Left,
        Input::Right => Direction::Right,
        Input::Up => Direction::Up,
        _ => Direction::Down,
    }
}

/// The command given for slot `i`, if any.
pub open spec fn input_at(inputs: Seq<Option<Input>>, i: int) -> Option<Input> {
    if 0 <= i < inputs.len() {
        inputs[i]
    } else {
        None
    }
}

/// The living snake of slot `i` leaves the match this tick.
pub open spec fn quits(slots: Seq<Option<SnakeView>>, inputs: Seq<Option<Input>>, i: int) -> bool {
    slots[i] is Some && input_at(inputs, i) == Some(Input::Quit)
}

/// A slot after its command: a direction goes through `turned`.
pub open spec fn with_input(o: Option<SnakeView>, c: Option<Input>) -> Option<SnakeView> {
    match o {
        Some(s) => match c {
            Some(c) => if c == Input::Quit {
                o
            } else {
                Some(
                    SnakeView {
                        id: s.id,
                        head: s.head,
                        body: s.body,
                        direction: turned(s.direction, input_direction(c)),
                    },
                )
            },
            None => o,
        },
        None => None,
    }
}

/// The slots after the commands of one tick.
pub open spec fn with_inputs(slots: Seq<Option<SnakeView>>, inputs: Seq<Option<Input>>) -> Seq<
    Option<SnakeView>,
> {
    Seq::new(slots.len(), |i: int| with_input(slots[i], input_at(inputs, i)))
}

/// Slot `b` becomes `a` when the engine steers it (`bot`) or leaves it alone.
pub open spec fn steered_slot(
    b: Option<SnakeView>,
    a: Option<SnakeView>,
    bot: bool,
    policy: BotMovement,
    food: Point,
) -> bool {
    match b {
        None => a is None,
        Some(s) => {
            &&& a is Some
            &&& a->Some_0.id == s.id
            &&& a->Some_0.head == s.head
            &&& a->Some_0.body == s.body
            &&& if !bot {
                a->Some_0.direction == s.direction
            } else {
                match policy {
                    BotMovement::ToTheFood => a->Some_0.direction == toward_food(
                        s.head,
                        s.direction,
                        food,
                    ),
                    BotMovement::Random => exists|n: int|
                        1 <= n <= 4 && a->Some_0.direction == drawn_direction(n),
                }
            }
        },
    }
}

/// `after` is `before` once every living bot has been steered by `policy`.
pub open spec fn steered(
    before: Seq<Option<SnakeView>>,
    after: Seq<Option<SnakeView>>,
    bots: Seq<u32>,
    policy: BotMovement,
    food: Point,
) -> bool {
    &&& after.len() == before.len()
    &&& forall|i: int|
        0 <= i < before.len() ==> steered_slot(
            #[trigger] before[i],
            after[i],
            bots.contains((i + 1) as u32),
            policy,
            food,
        )
}

/// The two slot arrays hold the same snakes in the same places, up to their
/// directions.
pub open spec fn same_bodies(a: Seq<Option<SnakeView>>, b: Seq<Option<SnakeView>>) -> bool {
    &&& a.len() == b.len()
    &&& forall|i: int|
        0 <= i < a.len() ==> (#[trigger] a[i] is Some <==> b[i] is Some) && (a[i] is Some ==> {
            &&& a[i]->Some_0.id == b[i]->Some_0.id
            &&& a[i]->Some_0.head == b[i]->Some_0.head
            &&& a[i]->Some_0.body == b[i]->Some_0.body
        })
}

impl Game {
    /// Everything but the slots, the scores and the food is the same in both.
    pub open spec fn same_setup(&self, other: &Game) -> bool {
        &&& self.nb_snakes == other.nb_snakes
        &&& self.bots@ == other.bots@
        &&& self.bots_difficulty == other.bots_difficulty
        &&& self.points_to_win == other.points_to_win
        &&& self.speed == other.speed
    }
}

/// The snake's next head is the food.
pub open spec fn eats(s: SnakeView, food: Point) -> bool {
    next_cell(s.head, s.direction) == food
}

/// Every living snake steps once, growing if it eats.
pub open spec fn advanced(slots: Seq<Option<SnakeView>>, food: Point) -> Seq<Option<SnakeView>> {
    Seq::new(
        slots.len(),
        |i: int|
            match slots[i] {
                Some(s) => Some(stepped(s, eats(s, food))),
                None => None,
            },
    )
}

/// Some living snake eats this tick.
pub open spec fn someone_eats(slots: Seq<Option<SnakeView>>, food: Point) -> bool {
    exists|i: int| 0 <= i < slots.len() && #[trigger] slots[i] is Some && eats(slots[i]->Some_0, food)
}

/// The scores once the snakes that eat have gained their points.
pub open spec fn fed_scores(
    slots: Seq<Option<SnakeView>>,
    scores: Seq<PlayerStatus>,
    food: Point,
) -> Seq<PlayerStatus> {
    Seq::new(
        scores.len(),
        |i: int|
            if slots[i] is Some && eats(slots[i]->Some_0, food) && scores[i] is Player {
                PlayerStatus::Player((scores[i]->Player_0 + POINTS) as i32)
            } else {
                scores[i]
            },
    )
}

/// `other` kills `s`: its body holds `s`'s head, or the two heads meet.
pub open spec fn hits(other: SnakeView, s: SnakeView) -> bool {
    other.body.contains(s.head) || (other.head == s.head && other.id != s.id)
}

/// The living snake of slot `i` loses: its head is on the border, in a body,
/// or on another head.
pub open spec fn is_loser(slots: Seq<Option<SnakeView>>, i: int) -> bool {
    &&& slots[i] is Some
    &&& on_border(slots[i]->Some_0.head) || exists|j: int|
        0 <= j < slots.len() && #[trigger] slots[j] is Some && hits(slots[j]->Some_0, slots[i]->Some_0)
}

/// The ids `1..=flags.len()` whose flag is set, in increasing order, are
/// exactly the elements of `ids`.
pub open spec fn ids_of_flags(ids: Seq<u32>, flags: Seq<bool>) -> bool {
    &&& forall|a: int, b: int| 0 <= a < b < ids.len() ==> ids[a] < ids[b]
    &&& forall|id: u32| #[trigger] ids.contains(id) <==> (1 <= id <= flags.len() && flags[id - 1])
}

/// The slots once the losers and leavers of a tick are removed.
pub open spec fn survivors(
    adv: Seq<Option<SnakeView>>,
    s0: Seq<Option<SnakeView>>,
    inputs: Seq<Option<Input>>,
) -> Seq<Option<SnakeView>> {
    Seq::new(
        adv.len(),
        |i: int|
            if is_loser(adv, i) || quits(s0, inputs, i) {
                None
            } else {
                adv[i]
            },
    )
}

/// Which slots are emptied during the tick.
pub open spec fn eliminated_flags(
    adv: Seq<Option<SnakeView>>,
    s0: Seq<Option<SnakeView>>,
    inputs: Seq<Option<Input>>,
) -> Seq<bool> {
    Seq::new(adv.len(), |i: int| is_loser(adv, i) || quits(s0, inputs, i))
}

/// The statuses at the end of the tick: a loser is recorded as `Loser` even
/// when it also left.
pub open spec fn settled_scores(
    adv: Seq<Option<SnakeView>>,
    s0: Seq<Option<SnakeView>>,
    inputs: Seq<Option<Input>>,
    fed: Seq<PlayerStatus>,
) -> Seq<PlayerStatus> {
    Seq::new(
        fed.len(),
        |i: int|
            if is_loser(adv, i) {
                PlayerStatus::Loser
            } else if quits(s0, inputs, i) {
                PlayerStatus::Leaver
            } else {
                fed[i]
            },
    )
}

/// The outcome of a tick that ends with `slots`: a draw when no snake is left,
/// the last snake's id when one is, else the ids eliminated during the tick.
pub open spec fn outcome_ok(slots: Seq<Option<SnakeView>>, eliminated: Seq<bool>, r: TurnOutcome) -> bool {
    &&& alive_count(slots) == 0 ==> r is End && r->End_0 is None
    &&& alive_count(slots) == 1 ==> r is End && r->End_0 is Some && exists|i: int|
        0 <= i < slots.len() && #[trigger] slots[i] is Some && slots[i]->Some_0.id == r->End_0->Some_0
    &&& alive_count(slots) >= 2 ==> r is Playing && ids_of_flags(r->Playing_0@, eliminated)
}

/// One tick from `g0` to `g1` under the commands `inputs`, where `moved` is the
/// slots once commands and bots have set the directions.
pub open spec fn tick(
    g0: Game,
    inputs: Seq<Option<Input>>,
    moved: Seq<Option<SnakeView>>,
    g1: Game,
    r: TurnOutcome,
) -> bool {
    let s0 = g0.slots();
    let adv = advanced(moved, g0.food);
    &&& steered(with_inputs(s0, inputs), moved, g0.bots@, g0.bots_difficulty, g0.food)
    &&& g1.same_setup(&g0)
    &&& g1.slots() == survivors(adv, s0, inputs)
    &&& g1.scores@ == settled_scores(adv, s0, inputs, fed_scores(moved, g0.scores@, g0.food))
    &&& if someone_eats(moved, g0.food) {
        is_inside(g1.food)
    } else {
        g1.food == g0.food
    }
    &&& outcome_ok(g1.slots(), eliminated_flags(adv, s0, inputs), r)
}

proof fn lemma_alive_count_prefix(s: Seq<Option<SnakeView>>, i: int)
    requires
        0 <= i < s.len(),
    ensures
        alive_count(s.subrange(0, i + 1)) == alive_count(s.subrange(0, i)) + if s[i] is Some {
            1nat
        } else {
            0nat
        },
{
    assert(s.subrange(0, i + 1).drop_last() =~= s.subrange(0, i));
}

/// The state after a tick is again a match in progress.
proof fn lemma_tick_wf(g0: Game, inputs: Seq<Option<Input>>, moved: Seq<Option<SnakeView>>, g1: Game)
    requires
        g0.wf(),
        g0.can_grow(),
        steered(with_inputs(g0.slots(), inputs), moved, g0.bots@, g0.bots_difficulty, g0.food),
        g1.same_setup(&g0),
        g1.snakes@.len() == g0.snakes@.len(),
        g1.scores@.len() == g0.scores@.len(),
        g1.slots() == survivors(advanced(moved, g0.food), g0.slots(), inputs),
        g1.scores@ == settled_scores(
            advanced(moved, g0.food),
            g0.slots(),
            inputs,
            fed_scores(moved, g0.scores@, g0.food),
        ),
        is_inside(g1.food),
    ensures
        g1.wf(),
{
    let adv = advanced(moved, g0.food);
    let s1 = with_inputs(g0.slots(), inputs);
    assert forall|i: int| 0 <= i < g1.nb_snakes implies match #[trigger] g1.slots()[i] {
        Some(s) => snake_ok(s, i, g1.scores@[i]),
        None => g1.scores@[i] is Loser || g1.scores@[i] is Leaver,
    } by {
        assert(steered_slot(s1[i], moved[i], g0.bots@.contains((i + 1) as u32), g0.bots_difficulty, g0.food));
        if g1.slots()[i] is Some {
            let s = g0.slots()[i]->Some_0;
            assert(g0.slots()[i] is Some);
            assert(snake_ok(s, i, g0.scores@[i]));
            let m = moved[i]->Some_0;
            assert(m.body == s.body && m.head == s.head && m.id == s.id);
            let a = stepped(m, eats(m, g0.food));
            assert(g1.slots()[i] == Some(a));
            assert(!on_border(a.head));
            if eats(m, g0.food) {
                assert(a.body.len() == s.body.len() + 1);
            } else {
                assert(a.body.len() == s.body.len());
            }
        }
    }
}

proof fn lemma_wf_same_bodies(g1: &Game, g2: &Game)
    requires
        g1.wf(),
        g2.same_setup(g1),
        g2.scores@ == g1.scores@,
        g2.food == g1.food,
        g2.snakes@.len() == g1.snakes@.len(),
        same_bodies(g1.slots(), g2.slots()),
    ensures
        g2.wf(),
{
    assert forall|i: int| 0 <= i < g2.nb_snakes implies match #[trigger] g2.slots()[i] {
        Some(s) => snake_ok(s, i, g2.scores@[i]),
        None => g2.scores@[i] is Loser || g2.scores@[i] is Leaver,
    } by {
        assert(g1.slots()[i] is Some <==> g2.slots()[i] is Some);
    }
}

proof fn lemma_spawn_ok(n: u32, id: u32)
    requires
        2 <= n <= MAX_SNAKES,
        1 <= id <= n,
    ensures
        snake_ok(spawn(n, id), id - 1, PlayerStatus::Player(0)),
{
    let y = spawn(n, id).head.y;
    let f: int = (id + 1) / 2;
    let fl: int = (n + 1) / 2 + 1;
    let sz: int = HEIGHT as int / fl;
    assert(2 <= fl <= 3);
    assert(fl == 2 ==> sz == HEIGHT as int / 2);
    assert(fl == 3 ==> sz == HEIGHT as int / 3);
    assert(n == 2 ==> f == 1);
    assert(7 <= f * sz <= 20) by (nonlinear_arith)
        requires
            1 <= f <= 2,
            7 <= sz <= 10,
            fl == 2 ==> f == 1,
            fl == 2 ==> sz == 10,
            fl == 3 ==> sz == 7,
            2 <= fl <= 3,
    ;
    assert(2 <= y < 21);
}

proof fn lemma_spawn_x(n: u32, id: u32)
    ensures
        spawn(n, id).head.x == 15 || spawn(n, id).head.x == 45,
{
}

/// Whether some living snake has its head on `p`.
fn on_a_head(snakes: &Vec<Option<Snake>>, p: &Point) -> (r: bool)
    ensures
        r == !free_of_heads(slots_view(snakes@), *p),
{
    let mut i: usize = 0;
    while i < snakes.len()
        invariant
            0 <= i <= snakes@.len(),
            forall|k: int| 0 <= k < i && #[trigger] slots_view(snakes@)[k] is Some ==> slots_view(snakes@)[k]->Some_0.head != *p,
        decreases snakes@.len() - i,
    {
        proof {
            assert(slots_view(snakes@)[i as int] == opt_view(snakes@[i as int]));
        }
        match &snakes[i] {
            Some(s) => {
                if s.head == *p {
                    return true;
                }
            },
            None => {},
        }
        i += 1;
    }
    false
}

impl Game {
    /// A new match of `nb_snakes` snakes, the last `nb_bots` of them bots
    /// chasing the food.
    pub fn init(nb_snakes: u32, nb_bots: u32) -> (r: Result<Game, String>)
        ensures
            r is Ok <==> valid_config(nb_snakes, nb_bots),
            nb_snakes > MAX_SNAKES ==> r is Err && r->Err_0@ == "Maximum 4 snakes"@,
            nb_snakes <= MAX_SNAKES && nb_snakes < 2 ==> r is Err && r->Err_0@
                == "At least 2 snakes is needed"@,
            2 <= nb_snakes <= MAX_SNAKES && nb_snakes <= nb_bots ==> r is Err && r->Err_0@
                == "At least 1 human player is needed"@,
            r is Ok ==> {
                let g = r->Ok_0;
                &&& g.wf()
                &&& g.nb_snakes == nb_snakes
                &&& forall|i: int| 0 <= i < nb_snakes ==> #[trigger] g.slots()[i] == Some(spawn(nb_snakes, (i + 1) as u32))
                &&& forall|i: int| 0 <= i < nb_snakes ==> #[trigger] g.scores@[i] == PlayerStatus::Player(0)
                &&& free_of_heads(g.slots(), g.food)
                &&& g.bots@ == bot_ids(nb_snakes, nb_bots)
                &&& g.bots_difficulty == BotMovement::ToTheFood
                &&& g.points_to_win == POINTS_TO_WIN
                &&& g.speed == SPEED
            },
    {
        if nb_snakes > MAX_SNAKES {
            return Err(String::from_str("Maximum 4 snakes"));
        }
        if nb_snakes < 2 {
            return Err(String::from_str("At least 2 snakes is needed"));
        }
        if nb_snakes <= nb_bots {
            return Err(String::from_str("At least 1 human player is needed"));
        }
        let mut snakes: Vec<Option<Snake>> = Vec::new();
        let mut scores: Vec<PlayerStatus> = Vec::new();
        let mut bots: Vec<u32> = Vec::new();
        let mut player_nb: u32 = 1;
        while player_nb <= nb_snakes
            invariant
                valid_config(nb_snakes, nb_bots),
                1 <= player_nb <= nb_snakes + 1,
                snakes@.len() == player_nb - 1,
                scores@.len() == player_nb - 1,
                forall|i: int| 0 <= i < player_nb - 1 ==> opt_view(#[trigger] snakes@[i]) == Some(spawn(nb_snakes, (i + 1) as u32)),
                forall|i: int| 0 <= i < player_nb - 1 ==> #[trigger] scores@[i] == PlayerStatus::Player(0),
                player_nb - 1 <= nb_snakes - nb_bots ==> bots@.len() == 0,
                player_nb - 1 > nb_snakes - nb_bots ==> bots@ == id_range(nb_snakes - nb_bots + 1, player_nb - 1 - (nb_snakes - nb_bots)),
            decreases nb_snakes + 1 - player_nb,
        {
            if player_nb > nb_snakes - nb_bots {
                bots.push(player_nb);
                proof {
                    let m = player_nb - (nb_snakes - nb_bots);
                    assert(bots@ =~= id_range(nb_snakes - nb_bots + 1, m));
                }
            }
            snakes.push(Some(Snake::init(nb_snakes, player_nb)));
            scores.push(PlayerStatus::Player(0));
            player_nb += 1;
        }
        proof {
            assert forall|i: int| 0 <= i < nb_snakes implies #[trigger] slots_view(snakes@)[i] == Some(spawn(nb_snakes, (i + 1) as u32)) by {
                assert(slots_view(snakes@)[i] == opt_view(snakes@[i]));
            }
        }
        let mut food = Point::random();
        let mut draws: u32 = 1;
        while draws < FOOD_DRAWS && on_a_head(&snakes, &food)
            invariant
                is_inside(food),
            decreases FOOD_DRAWS - draws,
        {
            food = Point::random();
            draws += 1;
        }
        if on_a_head(&snakes, &food) {
            food = Point::new(2, 2);
            proof {
                assert forall|i: int| 0 <= i < nb_snakes && #[trigger] slots_view(snakes@)[i] is Some
                    implies slots_view(snakes@)[i]->Some_0.head != food by {
                    lemma_spawn_x(nb_snakes, (i + 1) as u32);
                }
            }
        }
        let game = Game {
            nb_snakes,
            snakes,
            food,
            bots,
            bots_difficulty: BotMovement::ToTheFood,
            points_to_win: POINTS_TO_WIN,
            scores,
            speed: SPEED,
        };
        proof {
            if nb_bots == 0 {
                assert(game.bots@ =~= bot_ids(nb_snakes, nb_bots));
            }
            assert forall|i: int| 0 <= i < nb_snakes implies #[trigger] game.slots()[i] == Some(spawn(nb_snakes, (i + 1) as u32)) by {
                assert(game.slots()[i] == opt_view(game.snakes@[i]));
            }
            assert forall|i: int| 0 <= i < nb_snakes implies match #[trigger] game.slots()[i] {
                Some(s) => snake_ok(s, i, game.scores@[i]),
                None => game.scores@[i] is Loser || game.scores@[i] is Leaver,
            } by {
                assert(game.slots()[i] == opt_view(game.snakes@[i]));
                lemma_spawn_ok(nb_snakes, (i + 1) as u32);
            }
            assert(game.bots@.no_duplicates());
        }
        Ok(game)
    }
}

impl Game {
    /// Applies the commands of one tick, slot by slot: a direction turns the
    /// living snake of its slot; `Quit` marks it as leaving. Returns, for each
    /// slot, whether it leaves.
    fn handle_inputs(&mut self, inputs: &Vec<Option<Input>>) -> (leaving: Vec<bool>)
        requires
            old(self).wf(),
        ensures
            final(self).wf(),
            final(self).same_setup(old(self)),
            final(self).scores@ == old(self).scores@,
            final(self).food == old(self).food,
            final(self).slots() == with_inputs(old(self).slots(), inputs@),
            same_bodies(old(self).slots(), final(self).slots()),
            leaving@.len() == old(self).nb_snakes,
            forall|i: int|
                0 <= i < old(self).nb_snakes ==> #[trigger] leaving@[i] == quits(
                    old(self).slots(),
                    inputs@,
                    i,
                ),
    {
        let ghost g0 = *self;
        let n = self.snakes.len();
        let mut leaving: Vec<bool> = Vec::new();
        let mut i: usize = 0;
        while i < n
            invariant
                g0 == *old(self),
                g0.wf(),
                n == g0.snakes@.len(),
                self.snakes@.len() == n,
                self.same_setup(&g0),
                self.scores@ == g0.scores@,
                self.food == g0.food,
                0 <= i <= n,
                leaving@.len() == i,
                forall|k: int| 0 <= k < i ==> #[trigger] leaving@[k] == quits(g0.slots(), inputs@, k),
                forall|k: int|
                    0 <= k < i ==> opt_view(#[trigger] self.snakes@[k]) == with_inputs(
                        g0.slots(),
                        inputs@,
                    )[k],
                forall|k: int| i <= k < n ==> #[trigger] self.snakes@[k] == g0.snakes@[k],
            decreases n - i,
        {
            proof {
                assert(g0.slots()[i as int] == opt_view(g0.snakes@[i as int]));
            }
            let mut quit = false;
            if i < inputs.len() {
                match inputs[i] {
                    Some(c) => {
                        if c == Input::Quit {
                            quit = self.snakes[i].is_some();
                        } else {
                            let d = direction_of(c);
                            match &mut self.snakes[i] {
                                Some(snake) => snake.change_direction(d),
                                None => {},
                            }
                        }
                    },
                    None => {},
                }
            }
            leaving.push(quit);
            i += 1;
        }
        proof {
            assert(self.slots() =~= with_inputs(g0.slots(), inputs@)) by {
                assert forall|k: int| 0 <= k < n implies #[trigger] self.slots()[k] == with_inputs(g0.slots(), inputs@)[k] by {
                    assert(self.slots()[k] == opt_view(self.snakes@[k]));
                }
            }
            lemma_wf_same_bodies(&g0, self);
        }
        leaving
    }
}

/// The direction a non-`Quit` command asks for.
fn direction_of(c: Input) -> (d: Direction)
    ensures
        d == input_direction(c),
{
    match c {
        Input::Left => Direction::Left,
        Input::Right => Direction::Right,
        Input::Up => Direction::Up,
        _ => Direction::Down,
    }
}

impl Game {
    /// Steers every living bot by the game's policy.
    fn move_snake_bots(&mut self)
        requires
            old(self).wf(),
        ensures
            final(self).wf(),
            final(self).same_setup(old(self)),
            final(self).scores@ == old(self).scores@,
            final(self).food == old(self).food,
            steered(
                old(self).slots(),
                final(self).slots(),
                old(self).bots@,
                old(self).bots_difficulty,
                old(self).food,
            ),
            same_bodies(old(self).slots(), final(self).slots()),
    {
        let ghost g0 = *self;
        let food = self.food;
        let policy = self.bots_difficulty;
        let nb = self.bots.len();
        let mut k: usize = 0;
        while k < nb
            invariant
                g0 == *old(self),
                g0.wf(),
                food == g0.food,
                policy == g0.bots_difficulty,
                nb == g0.bots@.len(),
                self.snakes@.len() == g0.snakes@.len(),
                self.same_setup(&g0),
                self.scores@ == g0.scores@,
                self.food == g0.food,
                0 <= k <= nb,
                forall|i: int|
                    0 <= i < g0.nb_snakes && g0.bots@.subrange(0, k as int).contains((i + 1) as u32)
                        ==> steered_slot(#[trigger] g0.slots()[i], self.slots()[i], true, policy, food),
                forall|i: int|
                    0 <= i < g0.nb_snakes && !g0.bots@.subrange(0, k as int).contains((i + 1) as u32)
                        ==> #[trigger] self.snakes@[i] == g0.snakes@[i],
            decreases nb - k,
        {
            let b = self.bots[k];
            let ghost prev = self.snakes@;
            proof {
                assert(g0.bots@.subrange(0, k + 1) =~= g0.bots@.subrange(0, k as int).push(b));
                assert(!g0.bots@.subrange(0, k as int).contains(b)) by {
                    if g0.bots@.subrange(0, k as int).contains(b) {
                        let j = choose|j: int| 0 <= j < k && g0.bots@.subrange(0, k as int)[j] == b;
                        assert(g0.bots@[j] == g0.bots@[k as int]);
                    }
                }
                assert(1 <= b <= g0.nb_snakes);
                let bi = b - 1;
                assert(g0.slots()[bi] == opt_view(g0.snakes@[bi]));
                assert(!g0.bots@.subrange(0, k as int).contains((bi + 1) as u32));
                assert(self.snakes@[bi] == g0.snakes@[bi]);
            }
            match &mut self.snakes[(b - 1) as usize] {
                Some(snake) => {
                    match policy {
                        BotMovement::Random => snake.move_randomly(),
                        BotMovement::ToTheFood => snake.move_to_food(&food),
                    }
                },
                None => {},
            }
            k += 1;
            proof {
                assert forall|i: int| 0 <= i < g0.nb_snakes implies (g0.bots@.subrange(0, k as int).contains((i + 1) as u32)
                        ==> steered_slot(#[trigger] g0.slots()[i], self.slots()[i], true, policy, food))
                    && (!g0.bots@.subrange(0, k as int).contains((i + 1) as u32) ==> self.snakes@[i] == g0.snakes@[i]) by {
                    assert(self.slots()[i] == opt_view(self.snakes@[i]));
                    assert(g0.slots()[i] == opt_view(g0.snakes@[i]));
                    if i != b - 1 {
                        assert(self.snakes@[i] == prev[i]);
                        assert(g0.bots@.subrange(0, k as int).contains((i + 1) as u32)
                            == g0.bots@.subrange(0, k - 1).contains((i + 1) as u32));
                    } else {
                        assert(g0.bots@.subrange(0, k as int).contains((i + 1) as u32)) by {
                            assert(g0.bots@.subrange(0, k as int)[k - 1] == b);
                        }
                    }
                }
            }
        }
        proof {
            assert(g0.bots@.subrange(0, nb as int) =~= g0.bots@);
            assert forall|i: int| 0 <= i < g0.nb_snakes implies steered_slot(
                #[trigger] g0.slots()[i],
                self.slots()[i],
                g0.bots@.contains((i + 1) as u32),
                policy,
                food,
            ) by {
                assert(self.slots()[i] == opt_view(self.snakes@[i]));
                assert(g0.slots()[i] == opt_view(g0.snakes@[i]));
            }
            assert forall|i: int| 0 <= i < g0.nb_snakes implies (#[trigger] g0.slots()[i] is Some <==> self.slots()[i] is Some) && (g0.slots()[i] is Some ==> {
                &&& g0.slots()[i]->Some_0.id == self.slots()[i]->Some_0.id
                &&& g0.slots()[i]->Some_0.head == self.slots()[i]->Some_0.head
                &&& g0.slots()[i]->Some_0.body == self.slots()[i]->Some_0.body
            }) by {
                assert(self.slots()[i] == opt_view(self.snakes@[i]));
                assert(g0.slots()[i] == opt_view(g0.snakes@[i]));
            }
            lemma_wf_same_bodies(&g0, self);
        }
    }
}

impl Game {
    /// Steps every living snake; a snake whose next head is the food grows and
    /// scores. Returns whether some snake ate.
    fn step_snakes(&mut self) -> (ate: bool)
        requires
            old(self).wf(),
            old(self).can_grow(),
        ensures
            final(self).same_setup(old(self)),
            final(self).food == old(self).food,
            final(self).snakes@.len() == old(self).snakes@.len(),
            final(self).slots() == advanced(old(self).slots(), old(self).food),
            final(self).scores@ == fed_scores(old(self).slots(), old(self).scores@, old(self).food),
            ate == someone_eats(old(self).slots(), old(self).food),
    {
        let ghost g0 = *self;
        let food = self.food;
        let n = self.snakes.len();
        let mut ate = false;
        let mut i: usize = 0;
        while i < n
            invariant
                g0 == *old(self),
                g0.wf(),
                g0.can_grow(),
                food == g0.food,
                n == g0.snakes@.len(),
                self.snakes@.len() == n,
                self.scores@.len() == n,
                self.same_setup(&g0),
                self.food == g0.food,
                0 <= i <= n,
                forall|k: int| 0 <= k < i ==> opt_view(#[trigger] self.snakes@[k]) == advanced(g0.slots(), food)[k],
                forall|k: int| i <= k < n ==> #[trigger] self.snakes@[k] == g0.snakes@[k],
                forall|k: int| 0 <= k < i ==> #[trigger] self.scores@[k] == fed_scores(g0.slots(), g0.scores@, food)[k],
                forall|k: int| i <= k < n ==> #[trigger] self.scores@[k] == g0.scores@[k],
                ate == exists|k: int| 0 <= k < i && #[trigger] g0.slots()[k] is Some && eats(g0.slots()[k]->Some_0, food),
            decreases n - i,
        {
            proof {
                assert(g0.slots()[i as int] == opt_view(g0.snakes@[i as int]));
            }
            let mut grow = false;
            match &mut self.snakes[i] {
                Some(snake) => {
                    grow = Point::next_point(&snake.head, &snake.direction) == food;
                    snake.step(grow);
                },
                None => {},
            }
            if grow {
                match self.scores[i] {
                    PlayerStatus::Player(p) => {
                        proof {
                            let len = g0.slots()[i as int]->Some_0.body.len();
                            assert(p == POINTS * (len - 1));
                            assert(len < MAX_BODY_LEN);
                        }
                        self.scores[i] = PlayerStatus::Player(p + POINTS);
                    },
                    _ => {},
                }
                ate = true;
            }
            i += 1;
        }
        proof {
            assert(self.slots() =~= advanced(g0.slots(), food)) by {
                assert forall|k: int| 0 <= k < n implies #[trigger] self.slots()[k] == advanced(g0.slots(), food)[k] by {
                    assert(self.slots()[k] == opt_view(self.snakes@[k]));
                }
            }
            assert(self.scores@ =~= fed_scores(g0.slots(), g0.scores@, food));
        }
        ate
    }

    /// For each slot, whether its living snake loses.
    fn loser_flags(&self) -> (r: Vec<bool>)
        ensures
            r@.len() == self.snakes@.len(),
            forall|i: int| 0 <= i < r@.len() ==> #[trigger] r@[i] == is_loser(self.slots(), i),
    {
        let n = self.snakes.len();
        let mut flags: Vec<bool> = Vec::new();
        let mut i: usize = 0;
        while i < n
            invariant
                n == self.snakes@.len(),
                0 <= i <= n,
                flags@.len() == i,
                forall|k: int| 0 <= k < i ==> #[trigger] flags@[k] == is_loser(self.slots(), k),
            decreases n - i,
        {
            proof {
                assert(self.slots()[i as int] == opt_view(self.snakes@[i as int]));
            }
            match &self.snakes[i] {
                Some(s) => {
                    let mut lost = s.head.x <= 1 || s.head.y <= 1 || s.head.x >= WIDTH
                        || s.head.y >= HEIGHT;
                    let ghost me = s@;
                    let mut j: usize = 0;
                    while j < n
                        invariant
                            n == self.snakes@.len(),
                            0 <= i < n,
                            0 <= j <= n,
                            self.slots()[i as int] == Some(me),
                            me == s@,
                            lost == (on_border(me.head) || exists|m: int|
                                0 <= m < j && #[trigger] self.slots()[m] is Some && hits(
                                    self.slots()[m]->Some_0,
                                    me,
                                )),
                        decreases n - j,
                    {
                        proof {
                            assert(self.slots()[j as int] == opt_view(self.snakes@[j as int]));
                        }
                        match &self.snakes[j] {
                            Some(o) => {
                                if o.is_in_body(&s.head) || (o.head == s.head && o.id != s.id) {
                                    lost = true;
                                }
                            },
                            None => {},
                        }
                        j += 1;
                    }
                    flags.push(lost);
                },
                None => {
                    flags.push(false);
                },
            }
            i += 1;
        }
        flags
    }
}

/// The ids `i + 1` of the set flags, in increasing order.
fn ids_of(flags: &Vec<bool>) -> (r: Vec<u32>)
    requires
        flags@.len() < u32::MAX,
    ensures
        ids_of_flags(r@, flags@),
{
    let mut ids: Vec<u32> = Vec::new();
    let mut i: usize = 0;
    while i < flags.len()
        invariant
            flags@.len() < u32::MAX,
            0 <= i <= flags@.len(),
            forall|a: int, b: int| 0 <= a < b < ids@.len() ==> ids@[a] < ids@[b],
            forall|a: int| 0 <= a < ids@.len() ==> 1 <= #[trigger] ids@[a] <= i,
            forall|id: u32| #[trigger] ids@.contains(id) <==> (1 <= id <= i && flags@[id - 1]),
        decreases flags@.len() - i,
    {
        if flags[i] {
            let ghost before = ids@;
            ids.push((i + 1) as u32);
            proof {
                assert forall|id: u32| #[trigger] ids@.contains(id) <==> (1 <= id <= i + 1 && flags@[id - 1]) by {
                    if id == i + 1 {
                        assert(ids@[ids@.len() - 1] == id);
                    } else if ids@.contains(id) {
                        let a = choose|a: int| 0 <= a < ids@.len() && ids@[a] == id;
                        assert(a < before.len());
                        assert(before[a] == id);
                        assert(before.contains(id));
                    } else if 1 <= id <= i && flags@[id - 1] {
                        assert(before.contains(id));
                        let a = choose|a: int| 0 <= a < before.len() && before[a] == id;
                        assert(ids@[a] == id);
                    }
                }
            }
        } else {
            proof {
                assert forall|id: u32| #[trigger] ids@.contains(id) <==> (1 <= id <= i + 1 && flags@[id - 1]) by {
                    if id == i + 1 && ids@.contains(id) {
                        let a = choose|a: int| 0 <= a < ids@.len() && ids@[a] == id;
                        assert(ids@[a] <= i);
                    }
                    if 1 <= id <= i && flags@[id - 1] {
                        assert(ids@.contains(id));
                    }
                }
            }
        }
        i += 1;
    }
    ids
}

impl Game {
    /// The ids of the living snakes that lose in the current position: a head
    /// on the border, in a body, or on another head. They come in slot order,
    /// so in increasing order when each snake sits in the slot of its id.
    pub fn check_collisions(&mut self) -> (r: Vec<u32>)
        ensures
            *final(self) == *old(self),
            forall|id: u32|
                #[trigger] r@.contains(id) <==> exists|i: int|
                    0 <= i < old(self).slots().len() && is_loser(old(self).slots(), i)
                        && #[trigger] old(self).slots()[i]->Some_0.id == id,
            ids_in_slots(old(self).slots()) ==> forall|a: int, b: int|
                0 <= a < b < r@.len() ==> r@[a] < r@[b],
    {
        let flags = self.loser_flags();
        let n = self.snakes.len();
        let mut ids: Vec<u32> = Vec::new();
        let mut i: usize = 0;
        while i < n
            invariant
                n == self.snakes@.len(),
                flags@.len() == n,
                forall|k: int| 0 <= k < n ==> #[trigger] flags@[k] == is_loser(self.slots(), k),
                0 <= i <= n,
                forall|id: u32|
                    #[trigger] ids@.contains(id) <==> exists|k: int|
                        0 <= k < i && is_loser(self.slots(), k) && #[trigger] self.slots()[k]->Some_0.id == id,
                ids_in_slots(self.slots()) ==> forall|a: int, b: int|
                    0 <= a < b < ids@.len() ==> ids@[a] < ids@[b],
                ids_in_slots(self.slots()) ==> forall|a: int| 0 <= a < ids@.len() ==> #[trigger] ids@[a] <= i,
            decreases n - i,
        {
            proof {
                assert(self.slots()[i as int] == opt_view(self.snakes@[i as int]));
            }
            if flags[i] {
                match &self.snakes[i] {
                    Some(s) => {
                        let ghost before = ids@;
                        ids.push(s.id);
                        proof {
                            assert forall|id: u32|
                                #[trigger] ids@.contains(id) <==> exists|k: int|
                                    0 <= k < i + 1 && is_loser(self.slots(), k)
                                        && #[trigger] self.slots()[k]->Some_0.id == id by {
                                if ids@.contains(id) {
                                    let a = choose|a: int| 0 <= a < ids@.len() && ids@[a] == id;
                                    if a < before.len() {
                                        assert(before[a] == id);
                                        assert(before.contains(id));
                                    } else {
                                        assert(self.slots()[i as int]->Some_0.id == id);
                                    }
                                }
                                if exists|k: int|
                                    0 <= k < i + 1 && is_loser(self.slots(), k)
                                        && #[trigger] self.slots()[k]->Some_0.id == id {
                                    let k = choose|k: int|
                                        0 <= k < i + 1 && is_loser(self.slots(), k)
                                            && #[trigger] self.slots()[k]->Some_0.id == id;
                                    if k < i {
                                        assert(before.contains(id));
                                        let a = choose|a: int| 0 <= a < before.len() && before[a] == id;
                                        assert(ids@[a] == id);
                                    } else {
                                        assert(ids@[ids@.len() - 1] == id);
                                    }
                                }
                            }
                        }
                    },
                    None => {},
                }
            }
            i += 1;
        }
        proof {
            assert(self.slots().len() == n);
        }
        ids
    }
}

impl Game {
    /// Plays one tick: commands, bots, steps and food, collisions, removal of
    /// losers and leavers, and the terminal check.
    pub fn turn(&mut self, inputs: Vec<Option<Input>>) -> (r: TurnOutcome)
        requires
            old(self).wf(),
            old(self).can_grow(),
        ensures
            final(self).wf(),
            exists|moved: Seq<Option<SnakeView>>| tick(*old(self), inputs@, moved, *final(self), r),
    {
        let ghost g0 = *self;
        let leaving = self.handle_inputs(&inputs);
        let ghost g1 = *self;
        self.move_snake_bots();
        let ghost g2 = *self;
        let ghost moved = self.slots();
        proof {
            assert forall|i: int| 0 <= i < g2.slots().len() && #[trigger] g2.slots()[i] is Some
                implies g2.slots()[i]->Some_0.body.len() < MAX_BODY_LEN by {
                assert(g1.slots()[i] is Some);
                assert(g0.slots()[i] is Some);
            }
        }
        let ate = self.step_snakes();
        if ate {
            self.food = Point::random();
        }
        let ghost g3 = *self;
        let losers = self.loser_flags();
        let ghost adv = advanced(moved, g0.food);
        let ghost fs = survivors(adv, g0.slots(), inputs@);
        let ghost fed = fed_scores(moved, g0.scores@, g0.food);
        let n = self.snakes.len();
        proof {
            assert(moved.len() == n);
            assert(fs.len() == n);
            assert(fed.len() == n);
        }
        let mut eliminated: Vec<bool> = Vec::new();
        let mut count: usize = 0;
        let mut winner: Option<u32> = None;
        let mut i: usize = 0;
        while i < n
            invariant
                adv == advanced(moved, g0.food),
                fs == survivors(adv, g0.slots(), inputs@),
                fed == fed_scores(moved, g0.scores@, g0.food),
                g3.slots() == adv,
                g3.scores@ == fed,
                fs.len() == n,
                fed.len() == n,
                n == g3.snakes@.len(),
                n == g0.nb_snakes,
                losers@.len() == n,
                leaving@.len() == n,
                forall|k: int| 0 <= k < n ==> #[trigger] losers@[k] == is_loser(adv, k),
                forall|k: int| 0 <= k < n ==> #[trigger] leaving@[k] == quits(g0.slots(), inputs@, k),
                self.snakes@.len() == n,
                self.scores@.len() == n,
                self.same_setup(&g3),
                self.food == g3.food,
                0 <= i <= n,
                eliminated@.len() == i,
                forall|k: int| 0 <= k < i ==> #[trigger] eliminated@[k] == eliminated_flags(adv, g0.slots(), inputs@)[k],
                forall|k: int| 0 <= k < i ==> opt_view(#[trigger] self.snakes@[k]) == fs[k],
                forall|k: int| i <= k < n ==> #[trigger] self.snakes@[k] == g3.snakes@[k],
                forall|k: int| 0 <= k < i ==> #[trigger] self.scores@[k] == settled_scores(adv, g0.slots(), inputs@, fed)[k],
                forall|k: int| i <= k < n ==> #[trigger] self.scores@[k] == g3.scores@[k],
                count <= i,
                count == alive_count(fs.subrange(0, i as int)),
                count > 0 ==> winner is Some && exists|k: int| 0 <= k < i && #[trigger] fs[k] is Some && fs[k]->Some_0.id == winner->Some_0,
            decreases n - i,
        {
            proof {
                assert(g3.slots()[i as int] == opt_view(g3.snakes@[i as int]));
                lemma_alive_count_prefix(fs, i as int);
            }
            if losers[i] {
                proof {
                    assert(fs[i as int] is None);
                }
                self.snakes[i] = None;
                self.scores[i] = PlayerStatus::Loser;
                eliminated.push(true);
            } else if leaving[i] {
                proof {
                    assert(fs[i as int] is None);
                }
                self.snakes[i] = None;
                self.scores[i] = PlayerStatus::Leaver;
                eliminated.push(true);
            } else {
                proof {
                    assert(!is_loser(adv, i as int));
                    assert(!quits(g0.slots(), inputs@, i as int));
                    assert(fs[i as int] == adv[i as int]);
                    assert(self.snakes@[i as int] == g3.snakes@[i as int]);
                    assert(opt_view(self.snakes@[i as int]) == fs[i as int]);
                }
                eliminated.push(false);
                match &self.snakes[i] {
                    Some(s) => {
                        count += 1;
                        winner = Some(s.id);
                    },
                    None => {},
                }
            }
            i += 1;
        }
        proof {
            assert(self.slots() =~= fs) by {
                assert forall|k: int| 0 <= k < n implies #[trigger] self.slots()[k] == fs[k] by {
                    assert(self.slots()[k] == opt_view(self.snakes@[k]));
                }
            }
            assert(fs.subrange(0, n as int) =~= fs);
            assert(self.scores@ =~= settled_scores(adv, g0.slots(), inputs@, fed));
            assert(eliminated@ =~= eliminated_flags(adv, g0.slots(), inputs@));
            lemma_tick_wf(g0, inputs@, moved, *self);
        }
        let r = if count == 0 {
            TurnOutcome::End(None)
        } else if count == 1 {
            TurnOutcome::End(winner)
        } else {
            TurnOutcome::Playing(ids_of(&eliminated))
        };
        proof {
            assert(tick(g0, inputs@, moved, *self, r));
        }
        r
    }
}

impl Game {
    /// Whether every living snake can still grow by one cell, as `turn` needs.
    pub fn has_room_to_grow(&self) -> (r: bool)
        ensures
            r == self.can_grow(),
    {
        let n = self.snakes.len();
        let mut i: usize = 0;
        while i < n
            invariant
                n == self.snakes@.len(),
                0 <= i <= n,
                forall|k: int|
                    0 <= k < i && #[trigger] self.slots()[k] is Some ==> self.slots()[k]->Some_0.body.len()
                        < MAX_BODY_LEN,
            decreases n - i,
        {
            proof {
                assert(self.slots()[i as int] == opt_view(self.snakes@[i as int]));
            }
            match &self.snakes[i] {
                Some(s) => {
                    if s.body.len() >= MAX_BODY_LEN {
                        return false;
                    }
                },
                None => {},
            }
            i += 1;
        }
        true
    }
}

/// After a tick, every living snake's score is ten points per body cell
/// beyond the first.
pub proof fn law_score_follows_length(
    g0: Game,
    inputs: Seq<Option<Input>>,
    moved: Seq<Option<SnakeView>>,
    g1: Game,
    r: TurnOutcome,
    i: int,
)
    requires
        g0.wf(),
        g0.can_grow(),
        tick(g0, inputs, moved, g1, r),
        g1.snakes@.len() == g0.snakes@.len(),
        g1.scores@.len() == g0.scores@.len(),
        0 <= i < g1.slots().len(),
        g1.slots()[i] is Some,
    ensures
        g1.scores@[i] == PlayerStatus::Player((POINTS * (g1.slots()[i]->Some_0.body.len() - 1)) as i32),
{
    lemma_tick_wf(g0, inputs, moved, g1);
    assert(snake_ok(g1.slots()[i]->Some_0, i, g1.scores@[i]));
}

/// A tick ends in a draw exactly when no snake is left, with a winner exactly
/// when one is, and goes on otherwise.
pub proof fn law_outcome(
    g0: Game,
    inputs: Seq<Option<Input>>,
    moved: Seq<Option<SnakeView>>,
    g1: Game,
    r: TurnOutcome,
)
    requires
        tick(g0, inputs, moved, g1, r),
    ensures
        (r is End && r->End_0 is None) <==> alive_count(g1.slots()) == 0,
        (r is End && r->End_0 is Some) <==> alive_count(g1.slots()) == 1,
        r is Playing <==> alive_count(g1.slots()) >= 2,
{
}

/// A snake whose step takes its head onto the border loses in that tick.
pub proof fn law_border_loses(
    g0: Game,
    inputs: Seq<Option<Input>>,
    moved: Seq<Option<SnakeView>>,
    g1: Game,
    r: TurnOutcome,
    i: int,
)
    requires
        g0.wf(),
        tick(g0, inputs, moved, g1, r),
        0 <= i < moved.len(),
        moved[i] is Some,
        on_border(next_cell(moved[i]->Some_0.head, moved[i]->Some_0.direction)),
    ensures
        g1.slots()[i] is None,
        g1.scores@[i] == PlayerStatus::Loser,
{
    let adv = advanced(moved, g0.food);
    assert(adv[i] is Some);
    assert(is_loser(adv, i));
}

/// Two snakes whose heads meet after the step both lose in that tick.
pub proof fn law_head_on_both_lose(
    g0: Game,
    inputs: Seq<Option<Input>>,
    moved: Seq<Option<SnakeView>>,
    g1: Game,
    r: TurnOutcome,
    i: int,
    j: int,
)
    requires
        g0.wf(),
        tick(g0, inputs, moved, g1, r),
        0 <= i < moved.len(),
        0 <= j < moved.len(),
        i != j,
        moved[i] is Some,
        moved[j] is Some,
        next_cell(moved[i]->Some_0.head, moved[i]->Some_0.direction) == next_cell(
            moved[j]->Some_0.head,
            moved[j]->Some_0.direction,
        ),
    ensures
        g1.scores@[i] == PlayerStatus::Loser,
        g1.scores@[j] == PlayerStatus::Loser,
{
    let adv = advanced(moved, g0.food);
    let s1 = with_inputs(g0.slots(), inputs);
    assert(steered_slot(s1[i], moved[i], g0.bots@.contains((i + 1) as u32), g0.bots_difficulty, g0.food));
    assert(steered_slot(s1[j], moved[j], g0.bots@.contains((j + 1) as u32), g0.bots_difficulty, g0.food));
    assert(g0.slots()[i] is Some);
    assert(g0.slots()[j] is Some);
    assert(snake_ok(g0.slots()[i]->Some_0, i, g0.scores@[i]));
    assert(snake_ok(g0.slots()[j]->Some_0, j, g0.scores@[j]));
    assert(adv[i] is Some && adv[j] is Some);
    assert(hits(adv[j]->Some_0, adv[i]->Some_0));
    assert(hits(adv[i]->Some_0, adv[j]->Some_0));
    assert(is_loser(adv, i));
    assert(is_loser(adv, j));
}

/// The food moves only in a tick where some snake eats, and then to a cell
/// inside the arena's margin.
pub proof fn law_food_moves_only_when_eaten(
    g0: Game,
    inputs: Seq<Option<Input>>,
    moved: Seq<Option<SnakeView>>,
    g1: Game,
    r: TurnOutcome,
)
    requires
        tick(g0, inputs, moved, g1, r),
    ensures
        g1.food != g0.food ==> someone_eats(moved, g0.food),
        someone_eats(moved, g0.food) ==> is_inside(g1.food),
{
}

} // verus!

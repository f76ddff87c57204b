//! What a client needs to lay out the arena on a terminal, and the interface
//! of its renderers.

use crate::game::Game;
use crate::geometry::{Direction, WIDTH};
use crate::protocol::ClientMsg;
use vstd::prelude::*;

verus! {

/// A terminal cell is about half as wide as it is high: each arena column
/// takes this many terminal columns.
pub const X_RATIO: u16 = 2;

/// The number of distinct snake colours a terminal client has.
pub const NB_PLAYER_COLORS: u32 = 4;

/// The number of key sets, one per local player, a terminal client has.
pub const NB_PLAYER_CONTROLS: u32 = 2;

/// The width of the arena in terminal columns.
pub fn client_width() -> (r: u16)
    ensures
        r == X_RATIO * WIDTH,
{
    X_RATIO * WIDTH
}

/// The number of players a terminal client can show: the larger of its
/// colour count and its key-set count.
pub fn max_players_on_terminal() -> (r: u32)
    ensures
        r == if NB_PLAYER_COLORS >= NB_PLAYER_CONTROLS {
            NB_PLAYER_COLORS
        } else {
            NB_PLAYER_CONTROLS
        },
{
    if NB_PLAYER_COLORS >= NB_PLAYER_CONTROLS {
        NB_PLAYER_COLORS
    } else {
        NB_PLAYER_CONTROLS
    }
}

/// A renderer of the match on a client.
pub trait Drawer: Sized {
    /// A renderer for `nb_players` local players whose snakes have ids `serpents`.
    fn init(nb_players: u32, serpents: Vec<u32>) -> Self;

    fn draw_game(&mut self, game: &Game);

    fn draw_error(&mut self);

    fn draw_end(&mut self, winner: Option<u32>);
}

/// The key that makes a client leave.
pub const ESCAPE: u8 = 27;

/// The direction key `c` asks for player `i`: the first player steers with
/// `q z d s`, the second with `j i l k` (left, up, right, down), as ASCII
/// codes.
pub open spec fn key_direction(i: int, c: u8) -> Option<Direction> {
    if i == 0 {
        if c == 113 {
            Some(Direction::Left)
        } else if c == 122 {
            Some(Direction::Up)
        } else if c == 100 {
            Some(Direction::Right)
        } else if c == 115 {
            Some(Direction::Down)
        } else {
            None
        }
    } else if i == 1 {
        if c == 106 {
            Some(Direction::Left)
        } else if c == 105 {
            Some(Direction::Up)
        } else if c == 108 {
            Some(Direction::Right)
        } else if c == 107 {
            Some(Direction::Down)
        } else {
            None
        }
    } else {
        None
    }
}

/// The direction asked for by the last of `keys` that is one of player `i`'s.
pub open spec fn last_direction(keys: Seq<u8>, i: int) -> Option<Direction>
    decreases keys.len(),
{
    if keys.len() == 0 {
        None
    } else {
        match key_direction(i, keys.last()) {
            Some(d) => Some(d),
            None => last_direction(keys.drop_last(), i),
        }
    }
}

fn key_to_direction(i: usize, c: u8) -> (r: Option<Direction>)
    ensures
        r == key_direction(i as int, c),
{
    if i == 0 {
        if c == 113 {  // 'q'
            Some(Direction::Left)
        } else if c == 122 {  // 'z'
            Some(Direction::Up)
        } else if c == 100 {  // 'd'
            Some(Direction::Right)
        } else if c == 115 {  // 's'
            Some(Direction::Down)
        } else {
            None
        }
    } else if i == 1 {
        if c == 106 {  // 'j'
            Some(Direction::Left)
        } else if c == 105 {  // 'i'
            Some(Direction::Up)
        } else if c == 108 {  // 'l'
            Some(Direction::Right)
        } else if c == 107 {  // 'k'
            Some(Direction::Down)
        } else {
            None
        }
    } else {
        None
    }
}

/// The message for the keys pressed during one tick by `nb_players` local
/// players: `Leave` if Escape was pressed, else each player's last direction key.
pub fn keys_to_msg(keys: &Vec<u8>, nb_players: u32) -> (r: ClientMsg)
    requires
        nb_players <= NB_PLAYER_CONTROLS,
    ensures
        keys@.contains(ESCAPE) ==> r is Leave && r->Leave_0 == nb_players,
        !keys@.contains(ESCAPE) ==> r is SnakeDirection && r->SnakeDirection_0@ == Seq::new(
            nb_players as nat,
            |i: int| last_direction(keys@, i),
        ),
{
    let n = nb_players as usize;
    let mut v: Vec<Option<Direction>> = Vec::new();
    let mut i: usize = 0;
    while i < n
        invariant
            0 <= i <= n,
            v@.len() == i,
            forall|p: int| 0 <= p < i ==> #[trigger] v@[p] is None,
        decreases n - i,
    {
        v.push(None);
        i += 1;
    }
    let mut k: usize = 0;
    while k < keys.len()
        invariant
            n == nb_players,
            0 <= k <= keys@.len(),
            v@.len() == n,
            forall|p: int| 0 <= p < n ==> #[trigger] v@[p] == last_direction(keys@.subrange(0, k as int), p),
            !keys@.subrange(0, k as int).contains(ESCAPE),
        decreases keys@.len() - k,
    {
        let c = keys[k];
        proof {
            assert(keys@.subrange(0, k + 1).drop_last() =~= keys@.subrange(0, k as int));
            assert(keys@.subrange(0, k + 1).last() == c);
        }
        let mut p: usize = 0;
        while p < n
            invariant
                n == nb_players,
                0 <= k < keys@.len(),
                c == keys@[k as int],
                0 <= p <= n,
                v@.len() == n,
                forall|q: int| 0 <= q < p ==> #[trigger] v@[q] == last_direction(keys@.subrange(0, k + 1), q),
                forall|q: int| p <= q < n ==> #[trigger] v@[q] == last_direction(keys@.subrange(0, k as int), q),
                keys@.subrange(0, k + 1).drop_last() == keys@.subrange(0, k as int),
                keys@.subrange(0, k + 1).last() == c,
            decreases n - p,
        {
            match key_to_direction(p, c) {
                Some(d) => v.set(p, Some(d)),
                None => {},
            }
            p += 1;
        }
        if c == ESCAPE {
            proof {
                assert(keys@[k as int] == ESCAPE);
            }
            return ClientMsg::Leave(nb_players);
        }
        proof {
            if keys@.subrange(0, k + 1).contains(ESCAPE) {
                let m = choose|m: int| 0 <= m < k + 1 && #[trigger] keys@.subrange(0, k + 1)[m] == ESCAPE;
                if m < k {
                    assert(keys@.subrange(0, k as int)[m] == ESCAPE);
                }
            }
        }
        k += 1;
    }
    proof {
        assert(keys@.subrange(0, keys@.len() as int) =~= keys@);
        assert(v@ =~= Seq::new(nb_players as nat, |i: int| last_direction(keys@, i)));
    }
    ClientMsg::SnakeDirection(v)
}

} // verus!

//! Messages between clients and server, and the registration of players
//! before a match starts.

use crate::game::{id_range, Game, Input};
use crate::geometry::Direction;
use vstd::prelude::*;

verus! {

/// What a client sends.
#[derive(Clone, Debug)]
pub enum ClientMsg {
    /// The number of players on the client, sent once on connecting.
    Init(u32),
    /// One entry per local snake: the direction asked for, if any.
    SnakeDirection(Vec<Option<Direction>>),
    /// The client's players leave.
    Leave(u32),
}

/// What the server sends.
#[derive(Clone, Debug)]
pub enum ServerMsg {
    /// The ids given to the client's players.
    InitAck(Vec<u32>),
    /// The state after a tick, and the ids eliminated during it.
    Playing(Game, Vec<u32>),
    /// The winner, or `None` for a draw.
    End(Option<u32>),
    Error(String),
}

/// The server's count of human players while it waits for them: ids are
/// handed out in order, `1..=players_pending` so far.
pub struct Registration {
    pub nb_humans: u32,
    pub players_pending: u32,
}

impl Registration {
    pub open spec fn wf(&self) -> bool {
        self.players_pending <= self.nb_humans
    }

    /// Waits for `nb_humans` human players.
    pub fn new(nb_humans: u32) -> (r: Registration)
        ensures
            r.wf(),
            r.nb_humans == nb_humans,
            r.players_pending == 0,
    {
        Registration { nb_humans, players_pending: 0 }
    }

    /// All human players have their ids.
    pub fn is_complete(&self) -> (r: bool)
        ensures
            r == (self.players_pending >= self.nb_humans),
    {
        self.players_pending >= self.nb_humans
    }

    /// Answers the first message of a new connection. `Init(n)` gets the next
    /// `n` ids, or an error when fewer than `n` places are left; any other
    /// message gets no answer, and the connection is to be closed.
    pub fn register(&mut self, msg: &ClientMsg) -> (r: Option<ServerMsg>)
        requires
            old(self).wf(),
        ensures
            final(self).wf(),
            final(self).nb_humans == old(self).nb_humans,
            match msg {
                ClientMsg::Init(n) => if old(self).players_pending + *n > old(self).nb_humans {
                    &&& r is Some
                    &&& r->Some_0 is Error
                    &&& r->Some_0->Error_0@ == "Too many players for this game"@
                    &&& final(self).players_pending == old(self).players_pending
                } else {
                    &&& r is Some
                    &&& r->Some_0 is InitAck
                    &&& r->Some_0->InitAck_0@ == id_range(old(self).players_pending + 1, *n as int)
                    &&& final(self).players_pending == old(self).players_pending + *n
                },
                _ => r is None && final(self).players_pending == old(self).players_pending,
            },
    {
        match msg {
            ClientMsg::Init(n) => {
                let n = *n;
                if n > self.nb_humans - self.players_pending {
                    Some(ServerMsg::Error(String::from_str("Too many players for this game")))
                } else if n == 0 {
                    let ids: Vec<u32> = Vec::new();
                    proof {
                        assert(ids@ =~= id_range(self.players_pending + 1, 0));
                    }
                    Some(ServerMsg::InitAck(ids))
                } else {
                    let first = self.players_pending + 1;
                    let mut ids: Vec<u32> = Vec::new();
                    let mut k: u32 = 0;
                    while k < n
                        invariant
                            0 <= k <= n,
                            first + n <= self.nb_humans + 1,
                            ids@ == id_range(first as int, k as int),
                        decreases n - k,
                    {
                        ids.push(first + k);
                        proof {
                            assert(ids@ =~= id_range(first as int, k + 1));
                        }
                        k += 1;
                    }
                    self.players_pending = self.players_pending + n;
                    Some(ServerMsg::InitAck(ids))
                }
            },
            _ => None,
        }
    }
}

/// The command that asks for direction `d`.
pub open spec fn dir_input(d: Direction) -> Input {
    match d {
        Direction::Up => Input::Up,
        Direction::Down => Input::Down,
        Direction::Left => Input::Left,
        Direction::Right => Input::Right,
    }
}

/// The command that message `msg` gives for the `j`-th snake of its client:
/// `Leave` makes every snake of the client quit.
pub open spec fn input_of(msg: ClientMsg, j: int) -> Option<Input> {
    match msg {
        ClientMsg::Leave(_) => Some(Input::Quit),
        ClientMsg::SnakeDirection(d) => if 0 <= j < d@.len() {
            match d@[j] {
                Some(dir) => Some(dir_input(dir)),
                None => None,
            }
        } else {
            None
        },
        ClientMsg::Init(_) => None,
    }
}

/// No id is owned twice, by two clients or twice by one.
pub open spec fn owners_disjoint(clients: Seq<(Vec<u32>, ClientMsg)>) -> bool {
    forall|c1: int, j1: int, c2: int, j2: int|
        0 <= c1 < clients.len() && 0 <= c2 < clients.len() && 0 <= j1 < clients[c1].0@.len() && 0
            <= j2 < clients[c2].0@.len() && #[trigger] clients[c1].0@[j1] == #[trigger] clients[c2].0@[j2]
            ==> c1 == c2 && j1 == j2
}

/// Some client owns `id`.
pub open spec fn owned(clients: Seq<(Vec<u32>, ClientMsg)>, id: int) -> bool {
    exists|c: int, j: int|
        0 <= c < clients.len() && 0 <= j < clients[c].0@.len() && #[trigger] clients[c].0@[j] == id
}

fn input_of_dir(d: Direction) -> (r: Input)
    ensures
        r == dir_input(d),
{
    match d {
        Direction::Up => Input::Up,
        Direction::Down => Input::Down,
        Direction::Left => Input::Left,
        Direction::Right => Input::Right,
    }
}

/// The commands of one tick, one per slot of a game of `nb_slots` snakes,
/// from the message of each client: `clients[c]` holds the ids client `c`
/// owns and the message it sent. Slot `id - 1` gets what the message of the
/// owner of `id` asks for it; a slot that no client owns gets none.
pub fn slot_inputs(nb_slots: usize, clients: &Vec<(Vec<u32>, ClientMsg)>) -> (r: Vec<Option<Input>>)
    requires
        owners_disjoint(clients@),
    ensures
        r@.len() == nb_slots,
        forall|c: int, j: int|
            0 <= c < clients@.len() && 0 <= j < clients@[c].0@.len() && 1 <= #[trigger] clients@[c].0@[j]
                <= nb_slots ==> r@[clients@[c].0@[j] - 1] == input_of(clients@[c].1, j),
        forall|s: int| 0 <= s < nb_slots && !owned(clients@, s + 1) ==> #[trigger] r@[s] is None,
{
    let mut res: Vec<Option<Input>> = Vec::new();
    let mut s: usize = 0;
    while s < nb_slots
        invariant
            0 <= s <= nb_slots,
            res@.len() == s,
            forall|k: int| 0 <= k < s ==> #[trigger] res@[k] is None,
        decreases nb_slots - s,
    {
        res.push(None);
        s += 1;
    }
    let mut c: usize = 0;
    while c < clients.len()
        invariant
            owners_disjoint(clients@),
            0 <= c <= clients@.len(),
            res@.len() == nb_slots,
            forall|c1: int, j1: int|
                0 <= c1 < c && 0 <= j1 < clients@[c1].0@.len() && 1 <= #[trigger] clients@[c1].0@[j1]
                    <= nb_slots ==> res@[clients@[c1].0@[j1] - 1] == input_of(clients@[c1].1, j1),
            forall|k: int|
                0 <= k < nb_slots && !(exists|c1: int, j1: int|
                    0 <= c1 < c && 0 <= j1 < clients@[c1].0@.len() && #[trigger] clients@[c1].0@[j1]
                        == k + 1) ==> #[trigger] res@[k] is None,
        decreases clients@.len() - c,
    {
        let ids = &clients[c].0;
        let msg = &clients[c].1;
        let mut j: usize = 0;
        while j < ids.len()
            invariant
                owners_disjoint(clients@),
                0 <= c < clients@.len(),
                *ids == clients@[c as int].0,
                *msg == clients@[c as int].1,
                0 <= j <= ids@.len(),
                res@.len() == nb_slots,
                forall|c1: int, j1: int|
                    0 <= c1 < c && 0 <= j1 < clients@[c1].0@.len() && 1 <= #[trigger] clients@[c1].0@[j1]
                        <= nb_slots ==> res@[clients@[c1].0@[j1] - 1] == input_of(clients@[c1].1, j1),
                forall|j1: int|
                    0 <= j1 < j && 1 <= #[trigger] ids@[j1] <= nb_slots ==> res@[ids@[j1] - 1]
                        == input_of(*msg, j1),
                forall|k: int|
                    0 <= k < nb_slots && !(exists|c1: int, j1: int|
                        0 <= c1 < c && 0 <= j1 < clients@[c1].0@.len() && #[trigger] clients@[c1].0@[j1]
                            == k + 1) && !(exists|j1: int| 0 <= j1 < j && #[trigger] ids@[j1] == k + 1)
                        ==> #[trigger] res@[k] is None,
            decreases ids@.len() - j,
        {
            let id = ids[j];
            if id >= 1 && id as usize <= nb_slots {
                let inp = match msg {
                    ClientMsg::Leave(_) => Some(Input::Quit),
                    ClientMsg::SnakeDirection(d) => {
                        if j < d.len() {
                            match d[j] {
                                Some(x) => Some(input_of_dir(x)),
                                None => None,
                            }
                        } else {
                            None
                        }
                    },
                    ClientMsg::Init(_) => None,
                };
                let ghost before = res@;
                res.set((id - 1) as usize, inp);
                proof {
                    assert forall|c1: int, j1: int|
                        0 <= c1 < c && 0 <= j1 < clients@[c1].0@.len() && 1 <= #[trigger] clients@[c1].0@[j1]
                            <= nb_slots implies res@[clients@[c1].0@[j1] - 1] == input_of(clients@[c1].1, j1) by {
                        if clients@[c1].0@[j1] == id {
                            assert(clients@[c as int].0@[j as int] == id);
                        }
                    }
                    assert forall|j1: int|
                        0 <= j1 < j + 1 && 1 <= #[trigger] ids@[j1] <= nb_slots implies res@[ids@[j1] - 1]
                            == input_of(*msg, j1) by {
                        if j1 < j && ids@[j1] == id {
                            assert(clients@[c as int].0@[j1] == clients@[c as int].0@[j as int]);
                        }
                    }
                }
            }
            j += 1;
        }
        c += 1;
    }
    proof {
        assert forall|s: int| 0 <= s < nb_slots && !owned(clients@, s + 1) implies #[trigger] res@[s] is None by {
            if exists|c1: int, j1: int|
                0 <= c1 < clients@.len() && 0 <= j1 < clients@[c1].0@.len() && #[trigger] clients@[c1].0@[j1]
                    == s + 1 {
                let (c1, j1) = choose|c1: int, j1: int|
                    0 <= c1 < clients@.len() && 0 <= j1 < clients@[c1].0@.len() && #[trigger] clients@[c1].0@[j1]
                        == s + 1;
                assert(owned(clients@, s + 1));
            }
        }
    }
    res
}

/// Whether the id at position `j1` of client `c1` occurs nowhere else.
fn occurs_once(clients: &Vec<(Vec<u32>, ClientMsg)>, c1: usize, j1: usize) -> (r: bool)
    requires
        c1 < clients@.len(),
        j1 < clients@[c1 as int].0@.len(),
    ensures
        r == forall|c2: int, j2: int|
            0 <= c2 < clients@.len() && 0 <= j2 < clients@[c2].0@.len() && #[trigger] clients@[c2].0@[j2]
                == clients@[c1 as int].0@[j1 as int] ==> c2 == c1 && j2 == j1,
{
    let id = clients[c1].0[j1];
    let mut c2: usize = 0;
    while c2 < clients.len()
        invariant
            c1 < clients@.len(),
            j1 < clients@[c1 as int].0@.len(),
            id == clients@[c1 as int].0@[j1 as int],
            0 <= c2 <= clients@.len(),
            forall|c: int, j: int|
                0 <= c < c2 && 0 <= j < clients@[c].0@.len() && #[trigger] clients@[c].0@[j] == id ==> c
                    == c1 && j == j1,
        decreases clients@.len() - c2,
    {
        let ids = &clients[c2].0;
        let mut j2: usize = 0;
        while j2 < ids.len()
            invariant
                c1 < clients@.len(),
                j1 < clients@[c1 as int].0@.len(),
                id == clients@[c1 as int].0@[j1 as int],
                0 <= c2 < clients@.len(),
                *ids == clients@[c2 as int].0,
                0 <= j2 <= ids@.len(),
                forall|c: int, j: int|
                    0 <= c < c2 && 0 <= j < clients@[c].0@.len() && #[trigger] clients@[c].0@[j] == id ==> c
                        == c1 && j == j1,
                forall|j: int| 0 <= j < j2 && #[trigger] ids@[j] == id ==> c2 == c1 && j == j1,
            decreases ids@.len() - j2,
        {
            if ids[j2] == id && (c2 != c1 || j2 != j1) {
                return false;
            }
            j2 += 1;
        }
        c2 += 1;
    }
    true
}

/// Whether no id is owned twice, as `slot_inputs` needs.
pub fn ids_are_disjoint(clients: &Vec<(Vec<u32>, ClientMsg)>) -> (r: bool)
    ensures
        r == owners_disjoint(clients@),
{
    let mut c1: usize = 0;
    while c1 < clients.len()
        invariant
            0 <= c1 <= clients@.len(),
            forall|c: int, j: int, c2: int, j2: int|
                0 <= c < c1 && 0 <= j < clients@[c].0@.len() && 0 <= c2 < clients@.len() && 0 <= j2
                    < clients@[c2].0@.len() && #[trigger] clients@[c].0@[j] == #[trigger] clients@[c2].0@[j2]
                    ==> c == c2 && j == j2,
        decreases clients@.len() - c1,
    {
        let n1 = clients[c1].0.len();
        let mut j1: usize = 0;
        while j1 < n1
            invariant
                0 <= c1 < clients@.len(),
                n1 == clients@[c1 as int].0@.len(),
                0 <= j1 <= n1,
                forall|c: int, j: int, c2: int, j2: int|
                    0 <= c < c1 && 0 <= j < clients@[c].0@.len() && 0 <= c2 < clients@.len() && 0 <= j2
                        < clients@[c2].0@.len() && #[trigger] clients@[c].0@[j] == #[trigger] clients@[c2].0@[j2]
                        ==> c == c2 && j == j2,
                forall|j: int, c2: int, j2: int|
                    0 <= j < j1 && 0 <= c2 < clients@.len() && 0 <= j2 < clients@[c2].0@.len()
                        && #[trigger] clients@[c1 as int].0@[j] == #[trigger] clients@[c2].0@[j2] ==> c1 == c2
                        && j == j2,
            decreases n1 - j1,
        {
            if !occurs_once(clients, c1, j1) {
                return false;
            }
            j1 += 1;
        }
        c1 += 1;
    }
    true
}

} // verus!

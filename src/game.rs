use vstd::prelude::*;
use vstd::string::StringExecFns;

use crate::events::JoinRoomResponse;

verus! {

/// A room with its creator waiting for a second player.
pub struct PendingGame {
    pub username: String,
}

impl PendingGame {
    pub fn new(username: String) -> (r: Self)
        ensures
            r.username@ == username@,
    {
        PendingGame { username }
    }
}

/// The state of a game that both players have joined.
pub struct Game {}

impl Game {
    pub fn new() -> Self {
        Game {}
    }
}

/// An active room: its id, its two occupants and the game they play.
struct ActiveGame {
    room: String,
    host: String,
    guest: String,
    game: Game,
}

/// What the registry holds: pending rooms map to their creator, active rooms
/// to their two occupants.
pub ghost struct RoomsView {
    pub pending: Map<Seq<char>, Seq<char>>,
    pub active: Map<Seq<char>, (Seq<char>, Seq<char>)>,
}

impl RoomsView {
    /// No room id is both pending and active.
    pub open spec fn valid(self) -> bool {
        forall|k: Seq<char>| !(#[trigger] self.pending.contains_key(k) && self.active.contains_key(k))
    }
}

/// The outcome of one join: the pending entry, if there is one, moves to the
/// active rooms with the joiner as second occupant.
pub open spec fn join_outcome(pre: RoomsView, room: Seq<char>, joiner: Seq<char>) -> (
    RoomsView,
    JoinRoomResponse,
) {
    if pre.pending.contains_key(room) {
        (
            RoomsView {
                pending: pre.pending.remove(room),
                active: pre.active.insert(room, (pre.pending[room], joiner)),
            },
            JoinRoomResponse::Success,
        )
    } else if pre.active.contains_key(room) {
        (pre, JoinRoomResponse::Full)
    } else {
        (pre, JoinRoomResponse::NotFound)
    }
}

/// Joins applied one after another, in the order given; the final state and
/// each join's response.
pub open spec fn join_sequence(pre: RoomsView, room: Seq<char>, joiners: Seq<Seq<char>>) -> (
    RoomsView,
    Seq<JoinRoomResponse>,
)
    decreases joiners.len(),
{
    if joiners.len() == 0 {
        (pre, Seq::empty())
    } else {
        let (mid, first) = join_outcome(pre, room, joiners[0]);
        let (post, rest) = join_sequence(mid, room, joiners.subrange(1, joiners.len() as int));
        (post, seq![first] + rest)
    }
}

/// One more join at the end extends the sequence by that join's outcome.
pub proof fn lemma_join_sequence_push(
    pre: RoomsView,
    room: Seq<char>,
    joiners: Seq<Seq<char>>,
    joiner: Seq<char>,
)
    ensures
        join_sequence(pre, room, joiners.push(joiner)) == ({
            let (mid, rs) = join_sequence(pre, room, joiners);
            let (post, last) = join_outcome(mid, room, joiner);
            (post, rs.push(last))
        }),
    decreases joiners.len(),
{
    let all = joiners.push(joiner);
    let (mid, first) = join_outcome(pre, room, all[0]);
    if joiners.len() == 0 {
        assert(all.subrange(1, all.len() as int) =~= Seq::<Seq<char>>::empty());
        assert(all[0] == joiner);
        assert(join_sequence(mid, room, Seq::<Seq<char>>::empty()) == (
            mid,
            Seq::<JoinRoomResponse>::empty(),
        ));
        assert(join_sequence(pre, room, joiners) == (pre, Seq::<JoinRoomResponse>::empty()));
        assert(seq![first] + Seq::<JoinRoomResponse>::empty() =~= Seq::<
            JoinRoomResponse,
        >::empty().push(first));
    } else {
        let tail = joiners.subrange(1, joiners.len() as int);
        assert(all.subrange(1, all.len() as int) =~= tail.push(joiner));
        lemma_join_sequence_push(mid, room, tail, joiner);
        assert(all[0] == joiners[0]);
        let (m2, rs) = join_sequence(mid, room, tail);
        let (post, last) = join_outcome(m2, room, joiner);
        assert(join_sequence(pre, room, joiners) == (m2, seq![first] + rs));
        assert(join_sequence(pre, room, all) == (
            join_sequence(mid, room, tail.push(joiner)).0,
            seq![first] + join_sequence(mid, room, tail.push(joiner)).1,
        ));
        assert(seq![first] + rs.push(last) =~= (seq![first] + rs).push(last));
    }
}

proof fn lemma_joins_on_active_room(pre: RoomsView, room: Seq<char>, joiners: Seq<Seq<char>>)
    requires
        pre.active.contains_key(room),
        !pre.pending.contains_key(room),
    ensures
        join_sequence(pre, room, joiners).0 == pre,
        join_sequence(pre, room, joiners).1.len() == joiners.len(),
        forall|i: int|
            0 <= i < joiners.len() ==> #[trigger] join_sequence(pre, room, joiners).1[i]
                == JoinRoomResponse::Full,
    decreases joiners.len(),
{
    if joiners.len() > 0 {
        lemma_joins_on_active_room(pre, room, joiners.subrange(1, joiners.len() as int));
        let rest = join_sequence(pre, room, joiners.subrange(1, joiners.len() as int)).1;
        assert forall|i: int| 0 <= i < joiners.len() implies #[trigger] join_sequence(
            pre,
            room,
            joiners,
        ).1[i] == JoinRoomResponse::Full by {
            if i > 0 {
                assert(rest[i - 1] == JoinRoomResponse::Full);
            }
        }
    }
}

/// However many players race to join one pending room, the joins take effect
/// one at a time: the first gets `Success`, every later one `Full`, and the
/// room ends active with its creator and the winner as occupants.
pub proof fn lemma_exactly_one_join_wins(pre: RoomsView, room: Seq<char>, joiners: Seq<Seq<char>>)
    requires
        pre.valid(),
        pre.pending.contains_key(room),
        joiners.len() >= 1,
    ensures
        join_sequence(pre, room, joiners).1.len() == joiners.len(),
        join_sequence(pre, room, joiners).1[0] == JoinRoomResponse::Success,
        forall|i: int|
            1 <= i < joiners.len() ==> #[trigger] join_sequence(pre, room, joiners).1[i]
                == JoinRoomResponse::Full,
        join_sequence(pre, room, joiners).0.active[room] == (pre.pending[room], joiners[0]),
        !join_sequence(pre, room, joiners).0.pending.contains_key(room),
{
    let (mid, first) = join_outcome(pre, room, joiners[0]);
    let tail = joiners.subrange(1, joiners.len() as int);
    lemma_joins_on_active_room(mid, room, tail);
    let rest = join_sequence(mid, room, tail).1;
    assert forall|i: int| 1 <= i < joiners.len() implies #[trigger] join_sequence(
        pre,
        room,
        joiners,
    ).1[i] == JoinRoomResponse::Full by {
        assert(rest[i - 1] == JoinRoomResponse::Full);
    }
}

/// Every key in `keys` is at most `b` long.
proof fn key_length_bound(keys: Seq<Seq<char>>) -> (b: int)
    ensures
        forall|i: int| 0 <= i < keys.len() ==> (#[trigger] keys[i]).len() <= b,
    decreases keys.len(),
{
    if keys.len() == 0 {
        0
    } else {
        let rest = keys.drop_last();
        let b0 = key_length_bound(rest);
        let last = keys.last().len() as int;
        let b = if last > b0 { last } else { b0 };
        assert forall|i: int| 0 <= i < keys.len() implies (#[trigger] keys[i]).len() <= b by {
            if i < keys.len() - 1 {
                assert(keys[i] == rest[i]);
            }
        }
        b
    }
}

/// The room registry: pending rooms waiting for a second player and active
/// rooms with two. Callers that share it across connections hold it behind
/// one lock, so each call is one atomic step.
pub struct GlobalState {
    pending_games: Vec<(String, PendingGame)>,
    games: Vec<ActiveGame>,
    rooms: Ghost<RoomsView>,
}

impl View for GlobalState {
    type V = RoomsView;

    closed spec fn view(&self) -> RoomsView {
        self.rooms@
    }
}

impl GlobalState {
    /// The vectors hold exactly the rooms of the view, each id once.
    pub closed spec fn wf(&self) -> bool {
        &&& self@.valid()
        &&& forall|i: int, j: int|
            0 <= i < j < self.pending_games.len() ==> self.pending_games[i].0@
                != self.pending_games[j].0@
        &&& forall|i: int|
            0 <= i < self.pending_games.len() ==> self@.pending.contains_key(
                #[trigger] self.pending_games[i].0@,
            ) && self@.pending[self.pending_games[i].0@] == self.pending_games[i].1.username@
        &&& forall|k: Seq<char>|
            #[trigger] self@.pending.contains_key(k) ==> exists|i: int|
                0 <= i < self.pending_games.len() && self.pending_games[i].0@ == k
        &&& forall|i: int, j: int|
            0 <= i < j < self.games.len() ==> self.games[i].room@ != self.games[j].room@
        &&& forall|i: int|
            0 <= i < self.games.len() ==> self@.active.contains_key(#[trigger] self.games[i].room@)
                && self@.active[self.games[i].room@] == (
                self.games[i].host@,
                self.games[i].guest@,
            )
        &&& forall|k: Seq<char>|
            #[trigger] self@.active.contains_key(k) ==> exists|i: int|
                0 <= i < self.games.len() && self.games[i].room@ == k
    }

    /// A well-formed registry never holds an id both pending and active.
    pub proof fn lemma_wf_valid(&self)
        requires
            self.wf(),
        ensures
            self@.valid(),
    {
    }

    pub fn new() -> (r: Self)
        ensures
            r.wf(),
            r@.valid(),
            r@.pending == Map::<Seq<char>, Seq<char>>::empty(),
            r@.active == Map::<Seq<char>, (Seq<char>, Seq<char>)>::empty(),
    {
        GlobalState {
            pending_games: Vec::new(),
            games: Vec::new(),
            rooms: Ghost(RoomsView { pending: Map::empty(), active: Map::empty() }),
        }
    }

    fn find_pending(&self, room: &String) -> (r: Option<usize>)
        requires
            self.wf(),
        ensures
            match r {
                Some(i) => i < self.pending_games.len() && self.pending_games[i as int].0@
                    == room@,
                None => !self@.pending.contains_key(room@),
            },
    {
        let mut i: usize = 0;
        while i < self.pending_games.len()
            invariant
                self.wf(),
                i <= self.pending_games.len(),
                forall|j: int| 0 <= j < i ==> self.pending_games[j].0@ != room@,
            decreases self.pending_games.len() - i,
        {
            if self.pending_games[i].0 == *room {
                return Some(i);
            }
            i = i + 1;
        }
        None
    }

    fn is_active(&self, room: &String) -> (r: bool)
        requires
            self.wf(),
        ensures
            r == self@.active.contains_key(room@),
    {
        let mut i: usize = 0;
        while i < self.games.len()
            invariant
                self.wf(),
                i <= self.games.len(),
                forall|j: int| 0 <= j < i ==> self.games[j].room@ != room@,
            decreases self.games.len() - i,
        {
            if self.games[i].room == *room {
                return true;
            }
            i = i + 1;
        }
        false
    }

    /// Opens a pending room created by `username`, under an id that no room
    /// holds: `base` when it is free, else `base` followed by as many `+` as
    /// make it free.
    pub fn create_room(&mut self, base: String, username: String) -> (r: String)
        requires
            old(self).wf(),
        ensures
            final(self).wf(),
            final(self)@.valid(),
            !old(self)@.pending.contains_key(r@),
            !old(self)@.active.contains_key(r@),
            !old(self)@.pending.contains_key(base@) && !old(self)@.active.contains_key(base@)
                ==> r@ == base@,
            final(self)@.pending == old(self)@.pending.insert(r@, username@),
            final(self)@.active == old(self)@.active,
    {
        let ghost pending_bound = key_length_bound(self.pending_games@.map_values(|e: (String, PendingGame)| e.0@));
        let ghost active_bound = key_length_bound(self.games@.map_values(|g: ActiveGame| g.room@));
        let ghost bound = if pending_bound > active_bound { pending_bound } else { active_bound };
        proof {
            assert forall|i: int| 0 <= i < self.pending_games.len() implies (
            #[trigger] self.pending_games[i]).0@.len() <= bound by {
                assert(self.pending_games@.map_values(|e: (String, PendingGame)| e.0@)[i]
                    == self.pending_games[i].0@);
            }
            assert forall|i: int| 0 <= i < self.games.len() implies (
            #[trigger] self.games[i]).room@.len() <= bound by {
                assert(self.games@.map_values(|g: ActiveGame| g.room@)[i] == self.games[i].room@);
            }
        }
        let ghost base_view = base@;
        let mut room = base;
        while self.find_pending(&room).is_some() || self.is_active(&room)
            invariant
                self.wf(),
                self == old(self),
                forall|i: int| 0 <= i < self.pending_games.len() ==> (#[trigger] self.pending_games[i]).0@.len() <= bound,
                forall|i: int| 0 <= i < self.games.len() ==> (#[trigger] self.games[i]).room@.len() <= bound,
                room@ == base_view || self@.pending.contains_key(base_view)
                    || self@.active.contains_key(base_view),
            decreases bound + 1 - room@.len(),
        {
            proof {
                if self@.pending.contains_key(room@) {
                    let i = choose|i: int| 0 <= i < self.pending_games.len() && self.pending_games[i].0@ == room@;
                    assert(self.pending_games[i].0@.len() <= bound);
                } else {
                    let i = choose|i: int| 0 <= i < self.games.len() && self.games[i].room@ == room@;
                    assert(self.games[i].room@.len() <= bound);
                }
            }
            proof {
                reveal_strlit("+");
            }
            room = room.concat("+");
        }
        let ghost pre = self@;
        let answer = room.clone();
        self.pending_games.push((room, PendingGame::new(username)));
        self.rooms = Ghost(RoomsView { pending: pre.pending.insert(answer@, username@), active: pre.active });
        let ghost n = self.pending_games.len() - 1;
        assert forall|k: Seq<char>| #[trigger] self@.pending.contains_key(k) implies exists|j: int|
            0 <= j < self.pending_games.len() && self.pending_games[j].0@ == k by {
            if k != answer@ {
                let j = choose|j: int|
                    0 <= j < old(self).pending_games.len() && old(self).pending_games[j].0@ == k;
                assert(self.pending_games[j].0@ == k);
            } else {
                assert(self.pending_games[n].0@ == k);
            }
        }
        answer
    }

    /// Lets `username` join `room`. A pending room becomes active with both
    /// occupants, in one step; a room that is already active answers `Full`;
    /// an unknown id answers `NotFound`.
    pub fn join_room(&mut self, room: &String, username: String) -> (r: JoinRoomResponse)
        requires
            old(self).wf(),
        ensures
            final(self).wf(),
            final(self)@.valid(),
            (final(self)@, r) == join_outcome(old(self)@, room@, username@),
    {
        let ghost pre = self@;
        match self.find_pending(room) {
            None => {
                if self.is_active(room) {
                    JoinRoomResponse::Full
                } else {
                    JoinRoomResponse::NotFound
                }
            },
            Some(i) => {
                let (id, pending) = self.pending_games.remove(i);
                assert(pre.pending.contains_key(room@));
                assert(!pre.active.contains_key(room@));
                let ghost host = pending.username@;
                let ghost old_len = self.games.len();
                self.games.push(ActiveGame { room: id, host: pending.username, guest: username, game: Game::new() });
                self.rooms = Ghost(
                    RoomsView {
                        pending: pre.pending.remove(room@),
                        active: pre.active.insert(room@, (host, username@)),
                    },
                );
                assert forall|k: Seq<char>| #[trigger] self@.pending.contains_key(k) implies exists|
                    j: int,
                |
                    0 <= j < self.pending_games.len() && self.pending_games[j].0@ == k by {
                    assert(old(self)@.pending.contains_key(k));
                    let j = choose|j: int|
                        0 <= j < old(self).pending_games.len() && old(self).pending_games[j].0@
                            == k;
                    assert(j != i);
                    if j < i {
                        assert(self.pending_games[j].0@ == k);
                    } else {
                        assert(self.pending_games[j - 1].0@ == k);
                    }
                }
                assert forall|k: Seq<char>| #[trigger] self@.active.contains_key(k) implies exists|
                    j: int,
                |
                    0 <= j < self.games.len() && self.games[j].room@ == k by {
                    if k != room@ {
                        assert(old(self)@.active.contains_key(k));
                        let j = choose|j: int|
                            0 <= j < old(self).games.len() && old(self).games[j].room@ == k;
                        assert(self.games[j].room@ == k);
                    } else {
                        assert(self.games[old_len as int].room@ == k);
                    }
                }
                assert forall|a: int, b: int|
                    0 <= a < b < self.pending_games.len() implies self.pending_games[a].0@
                    != self.pending_games[b].0@ by {
                    let a0 = if a < i { a } else { a + 1 };
                    let b0 = if b < i { b } else { b + 1 };
                    assert(self.pending_games[a] == old(self).pending_games[a0]);
                    assert(self.pending_games[b] == old(self).pending_games[b0]);
                }
                assert forall|a: int|
                    0 <= a < self.pending_games.len() implies self@.pending.contains_key(
                    #[trigger] self.pending_games[a].0@,
                ) && self@.pending[self.pending_games[a].0@] == self.pending_games[a].1.username@ by {
                    let a0 = if a < i { a } else { a + 1 };
                    assert(self.pending_games[a] == old(self).pending_games[a0]);
                    assert(a0 != i);
                }
                assert(self@.pending =~= pre.pending.remove(room@));
                JoinRoomResponse::Success
            },
        }
    }
}

} // verus!

use vstd::prelude::*;

use std::collections::VecDeque;

use crate::game::room::new_room_id;
use crate::game::session::GameSession;
use crate::game::state::types::{GameMode, GameStatus, Player};
use crate::shared::types::{empty_grid, grid, BoardSize};

verus! {

/// A player waiting for an opponent.
#[derive(Debug)]
pub struct WaitingPlayer {
    pub socket_id: String,
    pub board_size: BoardSize,
}

/// Two matched players and their game.
#[derive(Debug)]
pub struct Match {
    pub room_id: String,
    pub board_size: BoardSize,
    pub session: GameSession,
    pub black_socket_id: String,
    pub white_socket_id: String,
}

/// What each matched player is told.
#[derive(Debug)]
pub struct MatchFoundPayload {
    pub room: String,
    pub color: Player,
    pub board_size: BoardSize,
}

/// A match just made: its room, the socket of the player that waited
/// (Black), and what each side is told.
#[derive(Debug)]
pub struct MatchCreated {
    pub room_id: String,
    pub black_socket_id: String,
    pub black: MatchFoundPayload,
    pub white: MatchFoundPayload,
}

/// Pairs players as they arrive: the first to come waits, the next one
/// is matched with it.
#[derive(Debug)]
pub struct Matchmaker {
    /// Players waiting, in arrival order.
    pub waiting: VecDeque<WaitingPlayer>,
    /// Matches under way, one per room id.
    pub matches: Vec<Match>,
    /// For each matched socket, its room id.
    pub socket_to_room: Vec<(String, String)>,
}

/// Some pair of `pairs` has key `id`.
pub open spec fn key_in(pairs: Seq<(String, String)>, id: Seq<char>) -> bool {
    exists|i: int| 0 <= i < pairs.len() && #[trigger] pairs[i].0@ == id
}

/// The room paired with key `id` in `pairs`.
pub open spec fn value_for(pairs: Seq<(String, String)>, id: Seq<char>) -> Seq<char> {
    let i = choose|i: int| 0 <= i < pairs.len() && #[trigger] pairs[i].0@ == id;
    pairs[i].1@
}

/// Some match of `ms` is in room `room`.
pub open spec fn room_in(ms: Seq<Match>, room: Seq<char>) -> bool {
    exists|j: int| 0 <= j < ms.len() && #[trigger] ms[j].room_id@ == room
}

/// The position in `ms` of the match in room `room`.
pub open spec fn match_index(ms: Seq<Match>, room: Seq<char>) -> int {
    choose|j: int| 0 <= j < ms.len() && #[trigger] ms[j].room_id@ == room
}

/// The match of `ms` in room `room`.
pub open spec fn match_for(ms: Seq<Match>, room: Seq<char>) -> Match {
    ms[match_index(ms, room)]
}

proof fn lemma_remove_keeps_keys_distinct(s: Seq<(String, String)>, i: int)
    requires
        0 <= i < s.len(),
        forall|a: int, b: int| 0 <= a < b < s.len() ==> (#[trigger] s[a]).0@ != (#[trigger] s[b]).0@,
    ensures
        forall|a: int, b: int|
            0 <= a < b < s.remove(i).len() ==> (#[trigger] s.remove(i)[a]).0@ != (#[trigger] s.remove(
                i,
            )[b]).0@,
{
    let r = s.remove(i);
    assert forall|a: int, b: int| 0 <= a < b < r.len() implies (#[trigger] r[a]).0@ != (
    #[trigger] r[b]).0@ by {
        let a0 = if a < i { a } else { a + 1 };
        let b0 = if b < i { b } else { b + 1 };
        assert(r[a] == s[a0]);
        assert(r[b] == s[b0]);
    }
}

/// Removing the entry at `i` leaves any other key `k` where it was, with the
/// same room.
proof fn lemma_remove_keeps_other_key(s: Seq<(String, String)>, i: int, k: Seq<char>)
    requires
        0 <= i < s.len(),
        k != s[i].0@,
        forall|a: int, b: int| 0 <= a < b < s.len() ==> (#[trigger] s[a]).0@ != (#[trigger] s[b]).0@,
    ensures
        key_in(s.remove(i), k) == key_in(s, k),
        key_in(s, k) ==> value_for(s.remove(i), k) == value_for(s, k),
{
    let r = s.remove(i);
    if key_in(r, k) {
        let q = choose|q: int| 0 <= q < r.len() && #[trigger] r[q].0@ == k;
        let q0 = if q < i { q } else { q + 1 };
        assert(r[q] == s[q0]);
    }
    if key_in(s, k) {
        let q = choose|q: int| 0 <= q < s.len() && #[trigger] s[q].0@ == k;
        assert(q != i);
        let q1 = if q < i { q } else { q - 1 };
        assert(r[q1] == s[q]);
        assert(key_in(r, k));
        let qr = choose|q: int| 0 <= q < r.len() && #[trigger] r[q].0@ == k;
        let qr0 = if qr < i { qr } else { qr + 1 };
        assert(r[qr] == s[qr0]);
        assert(qr0 == q);
    }
}

/// Removing the match at `i` leaves the match of any other room `rm` in place.
proof fn lemma_remove_keeps_other_match(s: Seq<Match>, i: int, rm: Seq<char>)
    requires
        0 <= i < s.len(),
        rm != s[i].room_id@,
        forall|a: int, b: int|
            0 <= a < b < s.len() ==> (#[trigger] s[a]).room_id@ != (#[trigger] s[b]).room_id@,
    ensures
        room_in(s.remove(i), rm) == room_in(s, rm),
        room_in(s, rm) ==> match_for(s.remove(i), rm) == match_for(s, rm),
{
    let r = s.remove(i);
    if room_in(r, rm) {
        let q = choose|q: int| 0 <= q < r.len() && #[trigger] r[q].room_id@ == rm;
        let q0 = if q < i { q } else { q + 1 };
        assert(r[q] == s[q0]);
    }
    if room_in(s, rm) {
        let q = choose|q: int| 0 <= q < s.len() && #[trigger] s[q].room_id@ == rm;
        assert(q != i);
        let q1 = if q < i { q } else { q - 1 };
        assert(r[q1] == s[q]);
        assert(room_in(r, rm));
        let qr = choose|q: int| 0 <= q < r.len() && #[trigger] r[q].room_id@ == rm;
        let qr0 = if qr < i { qr } else { qr + 1 };
        assert(r[qr] == s[qr0]);
        assert(qr0 == q);
    }
}

proof fn lemma_remove_keeps_matches_sound(s: Seq<Match>, i: int)
    requires
        0 <= i < s.len(),
        forall|a: int, b: int|
            0 <= a < b < s.len() ==> (#[trigger] s[a]).room_id@ != (#[trigger] s[b]).room_id@,
        forall|a: int| 0 <= a < s.len() ==> (#[trigger] s[a]).session.wf(),
    ensures
        forall|a: int, b: int|
            0 <= a < b < s.remove(i).len() ==> (#[trigger] s.remove(i)[a]).room_id@ != (
            #[trigger] s.remove(i)[b]).room_id@,
        forall|a: int| 0 <= a < s.remove(i).len() ==> (#[trigger] s.remove(i)[a]).session.wf(),
{
    let r = s.remove(i);
    assert forall|a: int, b: int| 0 <= a < b < r.len() implies (#[trigger] r[a]).room_id@ != (
    #[trigger] r[b]).room_id@ by {
        let a0 = if a < i { a } else { a + 1 };
        let b0 = if b < i { b } else { b + 1 };
        assert(r[a] == s[a0]);
        assert(r[b] == s[b0]);
    }
    assert forall|a: int| 0 <= a < r.len() implies (#[trigger] r[a]).session.wf() by {
        let a0 = if a < i { a } else { a + 1 };
        assert(r[a] == s[a0]);
    }
}

impl Match {
    /// The color the socket plays in this match.
    pub fn player_for_socket(&self, socket_id: &str) -> (r: Option<Player>)
        ensures
            socket_id@ == self.black_socket_id@ ==> r == Some(Player::Black),
            socket_id@ != self.black_socket_id@ && socket_id@ == self.white_socket_id@ ==> r == Some(
                Player::White,
            ),
            socket_id@ != self.black_socket_id@ && socket_id@ != self.white_socket_id@ ==> r
                is None,
    {
        let id = socket_id.to_owned();
        if id == self.black_socket_id {
            Some(Player::Black)
        } else if id == self.white_socket_id {
            Some(Player::White)
        } else {
            None
        }
    }
}

impl Default for Matchmaker {
    fn default() -> (r: Self)
        ensures
            r.wf(),
            r.rooms_consistent(),
            r.waiting@.len() == 0,
            r.matches@.len() == 0,
            r.socket_to_room@.len() == 0,
    {
        Matchmaker { waiting: VecDeque::new(), matches: Vec::new(), socket_to_room: Vec::new() }
    }
}

impl Matchmaker {
    /// The socket waits for an opponent.
    pub open spec fn waiting_at(&self, id: Seq<char>) -> bool {
        exists|i: int| 0 <= i < self.waiting@.len() && #[trigger] self.waiting@[i].socket_id@ == id
    }

    /// The socket plays in a match.
    pub open spec fn assigned(&self, id: Seq<char>) -> bool {
        key_in(self.socket_to_room@, id)
    }

    /// The room of a matched socket.
    pub open spec fn room_for(&self, id: Seq<char>) -> Seq<char> {
        value_for(self.socket_to_room@, id)
    }

    /// A match is under way in the room.
    pub open spec fn has_match(&self, room: Seq<char>) -> bool {
        room_in(self.matches@, room)
    }

    /// The match in the room.
    pub open spec fn match_in(&self, room: Seq<char>) -> Match {
        match_for(self.matches@, room)
    }

    /// The opponent of `id` in the match of `room`.
    pub open spec fn partner(&self, room: Seq<char>, id: Seq<char>) -> Seq<char> {
        let m = self.match_in(room);
        if m.black_socket_id@ == id {
            m.white_socket_id@
        } else {
            m.black_socket_id@
        }
    }

    /// Going from `a` to `b` by removing socket `id` of room `room` kept
    /// every other match, and every other socket's room but that of its
    /// opponent.
    pub open spec fn others_kept(a: Matchmaker, b: Matchmaker, room: Seq<char>, id: Seq<char>) -> bool {
        &&& forall|rm: Seq<char>|
            #![trigger b.has_match(rm)]
            rm != room ==> b.has_match(rm) == a.has_match(rm) && (a.has_match(rm) ==> b.match_in(rm)
                == a.match_in(rm))
        &&& forall|t: Seq<char>|
            #![trigger b.assigned(t)]
            t != id && !(a.has_match(room) && t == a.partner(room, id)) ==> b.assigned(t)
                == a.assigned(t) && (a.assigned(t) ==> b.room_for(t) == a.room_for(t))
    }

    /// Every matched socket's room has a match in which that socket plays
    /// Black or White: a room holds no socket but its two players.
    pub open spec fn rooms_consistent(&self) -> bool {
        forall|t: Seq<char>|
            #![trigger self.assigned(t)]
            self.assigned(t) ==> self.has_match(self.room_for(t)) && (self.match_in(
                self.room_for(t),
            ).black_socket_id@ == t || self.match_in(self.room_for(t)).white_socket_id@ == t)
    }

    /// No socket waits twice or is matched twice, no socket both waits and
    /// plays, no two matches share a room, and every match's game is sound.
    pub open spec fn wf(&self) -> bool {
        &&& forall|i: int, j: int|
            0 <= i < j < self.waiting@.len() ==> (#[trigger] self.waiting@[i]).socket_id@
                != (#[trigger] self.waiting@[j]).socket_id@
        &&& forall|i: int, j: int|
            0 <= i < j < self.socket_to_room@.len() ==> (#[trigger] self.socket_to_room@[i]).0@
                != (#[trigger] self.socket_to_room@[j]).0@
        &&& forall|i: int, j: int|
            0 <= i < j < self.matches@.len() ==> (#[trigger] self.matches@[i]).room_id@
                != (#[trigger] self.matches@[j]).room_id@
        &&& forall|i: int|
            0 <= i < self.waiting@.len() ==> !self.assigned(#[trigger] self.waiting@[i].socket_id@)
        &&& forall|j: int| 0 <= j < self.matches@.len() ==> (#[trigger] self.matches@[j]).session.wf()
    }

    fn find_waiting(&self, id: &String) -> (r: Option<usize>)
        ensures
            r matches Some(i) ==> i < self.waiting@.len() && self.waiting@[i as int].socket_id@ == id@,
            r is None ==> !self.waiting_at(id@),
    {
        let mut i: usize = 0;
        while i < self.waiting.len()
            invariant
                i <= self.waiting@.len(),
                forall|k: int| 0 <= k < i ==> (#[trigger] self.waiting@[k]).socket_id@ != id@,
            decreases self.waiting.len() - i,
        {
            if self.waiting[i].socket_id == *id {
                return Some(i);
            }
            i += 1;
        }
        None
    }

    fn find_socket(&self, id: &String) -> (r: Option<usize>)
        ensures
            r matches Some(i) ==> i < self.socket_to_room@.len() && self.socket_to_room@[i as int].0@
                == id@,
            r is None ==> !self.assigned(id@),
    {
        let mut i: usize = 0;
        while i < self.socket_to_room.len()
            invariant
                i <= self.socket_to_room@.len(),
                forall|k: int| 0 <= k < i ==> (#[trigger] self.socket_to_room@[k]).0@ != id@,
            decreases self.socket_to_room.len() - i,
        {
            if self.socket_to_room[i].0 == *id {
                return Some(i);
            }
            i += 1;
        }
        None
    }

    fn find_match(&self, room: &String) -> (r: Option<usize>)
        ensures
            r matches Some(j) ==> j < self.matches@.len() && self.matches@[j as int].room_id@ == room@,
            r is None ==> !self.has_match(room@),
    {
        let mut j: usize = 0;
        while j < self.matches.len()
            invariant
                j <= self.matches@.len(),
                forall|k: int| 0 <= k < j ==> (#[trigger] self.matches@[k]).room_id@ != room@,
            decreases self.matches.len() - j,
        {
            if self.matches[j].room_id == *room {
                return Some(j);
            }
            j += 1;
        }
        None
    }

    pub fn is_waiting(&self, socket_id: &str) -> (r: bool)
        ensures
            r == self.waiting_at(socket_id@),
    {
        let id = socket_id.to_owned();
        self.find_waiting(&id).is_some()
    }

    pub fn is_in_match(&self, socket_id: &str) -> (r: bool)
        ensures
            r == self.assigned(socket_id@),
    {
        let id = socket_id.to_owned();
        self.find_socket(&id).is_some()
    }

    /// Adds `m`, replacing a match with the same room id.
    fn insert_match(&mut self, m: Match)
        requires
            old(self).wf(),
            m.session.wf(),
        ensures
            final(self).wf(),
            final(self).waiting == old(self).waiting,
            final(self).socket_to_room == old(self).socket_to_room,
            final(self).has_match(m.room_id@),
            final(self).match_in(m.room_id@) == m,
            forall|room: Seq<char>|
                room != m.room_id@ ==> (final(self).has_match(room) == old(self).has_match(room)
                    && (old(self).has_match(room) ==> final(self).match_in(room) == old(
                    self,
                ).match_in(room))),
    {
        let ghost old_matches = self.matches@;
        let ghost room = m.room_id@;
        match self.find_match(&m.room_id) {
            Some(j) => {
                self.matches[j] = m;
                assert(self.matches@ == old_matches.update(j as int, m));
                assert(self.matches@[j as int] == m);
            },
            None => {
                self.matches.push(m);
                assert(self.matches@[old_matches.len() as int] == m);
            },
        }
        assert forall|r: Seq<char>| r != room implies (self.has_match(r) == old(self).has_match(r)
            && (old(self).has_match(r) ==> self.match_in(r) == old(self).match_in(r))) by {
            if old(self).has_match(r) {
                let j = choose|j: int|
                    0 <= j < old_matches.len() && #[trigger] old_matches[j].room_id@ == r;
                assert(self.matches@[j] == old_matches[j]);
            }
            if self.has_match(r) {
                let j = choose|j: int|
                    0 <= j < self.matches@.len() && #[trigger] self.matches@[j].room_id@ == r;
                assert(old_matches[j] == self.matches@[j]);
            }
        }
    }

    /// Queues the socket, or, when another player is waiting, matches the
    /// two: the player who waited first plays Black, the newcomer White, on
    /// the board size the waiting player asked for. A socket already waiting
    /// or matched is ignored.
    pub fn enqueue_or_match(&mut self, socket_id: &str, board_size: BoardSize) -> (r: Option<
        MatchCreated,
    >)
        requires
            old(self).wf(),
        ensures
            final(self).wf(),
            old(self).rooms_consistent() && (r matches Some(c) ==> !old(self).has_match(
                c.room_id@,
            )) ==> final(self).rooms_consistent(),
            old(self).assigned(socket_id@) || old(self).waiting_at(socket_id@) ==> r is None
                && *final(self) == *old(self),
            !old(self).assigned(socket_id@) && !old(self).waiting_at(socket_id@) && old(
                self,
            ).waiting@.len() == 0 ==> {
                &&& r is None
                &&& final(self).matches == old(self).matches
                &&& final(self).socket_to_room == old(self).socket_to_room
                &&& final(self).waiting@.len() == 1
                &&& final(self).waiting@[0].socket_id@ == socket_id@
                &&& final(self).waiting@[0].board_size == board_size
            },
            !old(self).assigned(socket_id@) && !old(self).waiting_at(socket_id@) && old(
                self,
            ).waiting@.len() > 0 ==> (r matches Some(c) && {
                let other = old(self).waiting@[0];
                let room = c.room_id@;
                let m = final(self).match_in(room);
                &&& c.black_socket_id@ == other.socket_id@
                &&& c.black.room@ == room
                &&& c.white.room@ == room
                &&& c.black.color == Player::Black
                &&& c.white.color == Player::White
                &&& c.black.board_size == other.board_size
                &&& c.white.board_size == other.board_size
                &&& final(self).waiting@ == old(self).waiting@.drop_first()
                &&& final(self).assigned(socket_id@)
                &&& final(self).room_for(socket_id@) == room
                &&& final(self).assigned(other.socket_id@)
                &&& final(self).room_for(other.socket_id@) == room
                &&& final(self).has_match(room)
                &&& m.black_socket_id@ == other.socket_id@
                &&& m.white_socket_id@ == socket_id@
                &&& m.board_size == other.board_size
                &&& m.session.room.id@ == room
                &&& m.session.state.board.len() == other.board_size
                &&& m.session.state.history@.len() == 0
                &&& m.session.state.status == GameStatus::Ongoing
                &&& m.session.mode == GameMode::PvP
                &&& !m.session.eve_loop_running
                &&& grid(&m.session.state.board) == empty_grid(other.board_size as nat)
                &&& m.session.state.turn.current_player == Player::Black
                &&& m.session.state.turn.turn == 0
                &&& m.session.state.turn.forbidden_sequences@.len() == 0
                &&& forall|s: Seq<char>|
                    s != socket_id@ && s != other.socket_id@ ==> {
                        &&& #[trigger] final(self).assigned(s) == old(self).assigned(s)
                        &&& old(self).assigned(s) ==> final(self).room_for(s) == old(self).room_for(s)
                    }
                &&& forall|rm: Seq<char>|
                    rm != room ==> {
                        &&& #[trigger] final(self).has_match(rm) == old(self).has_match(rm)
                        &&& old(self).has_match(rm) ==> final(self).match_in(rm) == old(self).match_in(rm)
                    }
            }),
    {
        let id = socket_id.to_owned();
        if self.find_socket(&id).is_some() || self.find_waiting(&id).is_some() {
            return None;
        }
        if self.waiting.len() == 0 {
            self.waiting.push_back(WaitingPlayer { socket_id: id, board_size });
            proof {
                if old(self).rooms_consistent() {
                    assert forall|t: Seq<char>|
                        #![trigger self.assigned(t)]
                        self.assigned(t) implies self.has_match(self.room_for(t)) && (self.match_in(
                            self.room_for(t),
                        ).black_socket_id@ == t || self.match_in(self.room_for(t)).white_socket_id@
                            == t) by {
                        assert(old(self).assigned(t));
                    }
                }
            }
            return None;
        }
        let ghost w0 = self.waiting@;
        let ghost s0 = self.socket_to_room@;
        let other = match self.waiting.pop_front() {
            Some(w) => w,
            None => {
                return None;
            },
        };
        assert(self.waiting@ =~= w0.drop_first());
        let room_id = new_room_id();
        let chosen_board_size = other.board_size;
        let mut session = GameSession::new(chosen_board_size);
        session.room.id = room_id.clone();
        let m = Match {
            room_id: room_id.clone(),
            board_size: chosen_board_size,
            session,
            black_socket_id: other.socket_id.clone(),
            white_socket_id: id.clone(),
        };
        assert(other.socket_id@ != id@) by {
            assert(w0[0] == other);
        }
        assert(!old(self).assigned(other.socket_id@)) by {
            assert(w0[0] == other);
        }
        self.socket_to_room.push((other.socket_id.clone(), room_id.clone()));
        self.socket_to_room.push((id.clone(), room_id.clone()));
        let ghost s2 = self.socket_to_room@;
        proof {
            assert(s2 == s0.push((other.socket_id, room_id)).push((id, room_id)));
            assert(s2[s0.len() as int].0@ == other.socket_id@);
            assert(s2[s0.len() + 1int].0@ == id@);
            assert forall|i: int, j: int|
                0 <= i < j < s2.len() implies (#[trigger] s2[i]).0@ != (#[trigger] s2[j]).0@ by {
                if j == s0.len() {
                    assert(s2[i] == s0[i]);
                    if s0[i].0@ == other.socket_id@ {
                        assert(old(self).assigned(other.socket_id@));
                    }
                } else if j == s0.len() + 1int {
                    if i < s0.len() {
                        assert(s2[i] == s0[i]);
                        if s0[i].0@ == id@ {
                            assert(old(self).assigned(id@));
                        }
                    }
                } else {
                    assert(s2[i] == s0[i]);
                    assert(s2[j] == s0[j]);
                }
            }
            assert forall|i: int|
                0 <= i < self.waiting@.len() implies !self.assigned(
                #[trigger] self.waiting@[i].socket_id@,
            ) by {
                let w = self.waiting@[i];
                assert(w == w0[i + 1]);
                assert(w.socket_id@ != id@);
                assert(w.socket_id@ != other.socket_id@) by {
                    assert(w0[0] == other);
                }
                if self.assigned(w.socket_id@) {
                    let k = choose|k: int|
                        0 <= k < s2.len() && #[trigger] s2[k].0@ == w.socket_id@;
                    if k < s0.len() {
                        assert(s2[k] == s0[k]);
                        assert(old(self).assigned(w.socket_id@));
                    }
                }
            }
            assert(self.assigned(id@));
            assert(self.assigned(other.socket_id@));
        }
        self.insert_match(m);
        proof {
            assert forall|s: Seq<char>|
                #![trigger self.assigned(s)]
                s != id@ && s != other.socket_id@ implies self.assigned(s) == old(self).assigned(s) && (old(self).assigned(s) ==> self.room_for(s) == old(self).room_for(s)) by {
                if self.assigned(s) {
                    let k = choose|k: int| 0 <= k < s2.len() && #[trigger] s2[k].0@ == s;
                    assert(k < s0.len());
                    assert(s2[k] == s0[k]);
                }
                if old(self).assigned(s) {
                    let k0 = choose|k: int| 0 <= k < s0.len() && #[trigger] s0[k].0@ == s;
                    assert(s2[k0] == s0[k0]);
                    let k2 = choose|k: int| 0 <= k < s2.len() && #[trigger] s2[k].0@ == s;
                    assert(k2 < s0.len());
                    assert(s2[k2] == s0[k2]);
                    assert(k2 == k0);
                }
            }
        }
        proof {
            let room = room_id@;
            let k1 = choose|i: int|
                0 <= i < s2.len() && #[trigger] s2[i].0@ == id@;
            assert(k1 == s0.len() + 1int) by {
                if k1 < s0.len() {
                    assert(s2[k1] == s0[k1]);
                    assert(old(self).assigned(id@));
                } else if k1 == s0.len() {
                }
            }
            let k2 = choose|i: int|
                0 <= i < s2.len() && #[trigger] s2[i].0@ == other.socket_id@;
            assert(k2 == s0.len()) by {
                if k2 < s0.len() {
                    assert(s2[k2] == s0[k2]);
                    assert(old(self).assigned(other.socket_id@));
                }
            }
            assert(self.room_for(id@) == room);
            assert(self.room_for(other.socket_id@) == room);
            if old(self).rooms_consistent() && !old(self).has_match(room) {
                assert forall|t: Seq<char>|
                    #![trigger self.assigned(t)]
                    self.assigned(t) implies self.has_match(self.room_for(t)) && (self.match_in(
                        self.room_for(t),
                    ).black_socket_id@ == t || self.match_in(self.room_for(t)).white_socket_id@
                        == t) by {
                    if t != id@ && t != other.socket_id@ {
                        assert(old(self).assigned(t));
                        assert(old(self).has_match(old(self).room_for(t)));
                    }
                }
            }
        }
        let black = MatchFoundPayload {
            room: room_id.clone(),
            color: Player::Black,
            board_size: chosen_board_size,
        };
        let white = MatchFoundPayload {
            room: room_id,
            color: Player::White,
            board_size: chosen_board_size,
        };
        Some(
            MatchCreated {
                room_id: black.room.clone(),
                black_socket_id: other.socket_id,
                black,
                white,
            },
        )
    }

    /// The match in the room.
    pub fn get_match_by_room(&self, room_id: &str) -> (r: Option<&Match>)
        requires
            self.wf(),
        ensures
            r is Some <==> self.has_match(room_id@),
            r matches Some(m) ==> *m == self.match_in(room_id@),
    {
        let room = room_id.to_owned();
        match self.find_match(&room) {
            None => None,
            Some(j) => {
                proof {
                    let k = choose|k: int|
                        0 <= k < self.matches@.len() && #[trigger] self.matches@[k].room_id@
                            == room@;
                    assert(k == j);
                }
                Some(&self.matches[j])
            },
        }
    }

    /// The match the socket plays in.
    pub fn get_match_by_socket(&self, socket_id: &str) -> (r: Option<&Match>)
        requires
            self.wf(),
        ensures
            r is Some <==> (self.assigned(socket_id@) && self.has_match(
                self.room_for(socket_id@),
            )),
            r matches Some(m) ==> *m == self.match_in(self.room_for(socket_id@)) && m.session.wf(),
    {
        let id = socket_id.to_owned();
        match self.find_socket(&id) {
            None => None,
            Some(i) => {
                proof {
                    let k = choose|k: int|
                        0 <= k < self.socket_to_room@.len()
                            && #[trigger] self.socket_to_room@[k].0@ == id@;
                    assert(k == i);
                }
                let room = &self.socket_to_room[i].1;
                match self.find_match(room) {
                    None => None,
                    Some(j) => {
                        proof {
                            let k = choose|k: int|
                                0 <= k < self.matches@.len() && #[trigger] self.matches@[k].room_id@
                                    == room@;
                            assert(k == j);
                        }
                        Some(&self.matches[j])
                    },
                }
            },
        }
    }

    /// The match the socket plays in, to be changed in place.
    pub fn get_match_mut_by_socket(&mut self, socket_id: &str) -> (r: Option<&mut Match>)
        requires
            old(self).wf(),
        ensures
            r is Some <==> (old(self).assigned(socket_id@) && old(self).has_match(
                old(self).room_for(socket_id@),
            )),
            r matches Some(m) ==> {
                let j = match_index(old(self).matches@, old(self).room_for(socket_id@));
                &&& *m == old(self).match_in(old(self).room_for(socket_id@))
                &&& final(self).waiting == old(self).waiting
                &&& final(self).socket_to_room == old(self).socket_to_room
                &&& final(self).matches@ == old(self).matches@.update(j, *final(m))
            },
            r is None ==> *final(self) == *old(self),
    {
        let id = socket_id.to_owned();
        match self.find_socket(&id) {
            None => None,
            Some(i) => {
                proof {
                    let k = choose|k: int|
                        0 <= k < self.socket_to_room@.len()
                            && #[trigger] self.socket_to_room@[k].0@ == id@;
                    assert(k == i);
                }
                let room = self.socket_to_room[i].1.clone();
                match self.find_match(&room) {
                    None => None,
                    Some(j) => {
                        proof {
                            let k = choose|k: int|
                                0 <= k < self.matches@.len() && #[trigger] self.matches@[k].room_id@
                                    == room@;
                            assert(k == j);
                        }
                        Some(&mut self.matches[j])
                    },
                }
            },
        }
    }

    /// Removes the socket: a matched socket takes its whole match and its
    /// opponent's room entry with it, and its room id is returned; a waiting
    /// socket leaves the queue.
    #[verifier::spinoff_prover]
    pub fn cleanup_socket(&mut self, socket_id: &str) -> (r: Option<String>)
        requires
            old(self).wf(),
        ensures
            final(self).wf(),
            old(self).rooms_consistent() ==> final(self).rooms_consistent(),
            !final(self).assigned(socket_id@),
            !final(self).waiting_at(socket_id@),
            forall|s: Seq<char>| #[trigger] final(self).assigned(s) ==> old(self).assigned(s),
            old(self).assigned(socket_id@) ==> (r matches Some(room) && {
                &&& room@ == old(self).room_for(socket_id@)
                &&& !final(self).has_match(room@)
                &&& final(self).waiting == old(self).waiting
                &&& old(self).has_match(room@) ==> !final(self).assigned(
                    old(self).partner(room@, socket_id@),
                )
                &&& Self::others_kept(*old(self), *final(self), room@, socket_id@)
            }),
            !old(self).assigned(socket_id@) ==> {
                &&& r is None
                &&& final(self).matches == old(self).matches
                &&& final(self).socket_to_room == old(self).socket_to_room
                &&& forall|w: Seq<char>|
                    #[trigger] final(self).waiting_at(w) <==> (old(self).waiting_at(w) && w
                        != socket_id@)
            },
    {
        let id = socket_id.to_owned();
        if let Some(i) = self.find_socket(&id) {
            let ghost s0 = self.socket_to_room@;
            let ghost m0 = self.matches@;
            proof {
                let k = choose|k: int| 0 <= k < s0.len() && #[trigger] s0[k].0@ == id@;
                assert(k == i);
            }
            proof {
                lemma_remove_keeps_keys_distinct(s0, i as int);
            }
            let (_, room_id) = self.socket_to_room.remove(i);
            let ghost s1 = self.socket_to_room@;
            assert forall|t: Seq<char>| #![trigger key_in(s1, t)] t != id@ implies key_in(s1, t) == key_in(s0, t) && (key_in(s0, t) ==> value_for(s1, t) == value_for(s0, t)) by {
                lemma_remove_keeps_other_key(s0, i as int, t);
            }
            assert forall|s: Seq<char>| #[trigger] key_in(s1, s) implies key_in(s0, s) && s != id@ by {
                let k = choose|k: int| 0 <= k < s1.len() && #[trigger] s1[k].0@ == s;
                if k < i {
                    assert(s1[k] == s0[k]);
                } else {
                    assert(s1[k] == s0[k + 1]);
                }
            }
            if let Some(j) = self.find_match(&room_id) {
                proof {
                    let k = choose|k: int| 0 <= k < m0.len() && #[trigger] m0[k].room_id@ == room_id@;
                    assert(k == j);
                }
                proof {
                    lemma_remove_keeps_matches_sound(m0, j as int);
                }
                let m = self.matches.remove(j);
                assert forall|rm: Seq<char>| #![trigger room_in(self.matches@, rm)] rm != room_id@ implies room_in(self.matches@, rm) == room_in(m0, rm) && (room_in(m0, rm) ==> match_for(self.matches@, rm) == match_for(m0, rm)) by {
                    lemma_remove_keeps_other_match(m0, j as int, rm);
                }
                assert(!self.has_match(room_id@)) by {
                    if self.has_match(room_id@) {
                        let k = choose|k: int|
                            0 <= k < self.matches@.len() && #[trigger] self.matches@[k].room_id@
                                == room_id@;
                        if k < j {
                            assert(self.matches@[k] == m0[k]);
                        } else {
                            assert(self.matches@[k] == m0[k + 1]);
                        }
                    }
                }
                let other = if m.black_socket_id == id {
                    m.white_socket_id
                } else {
                    m.black_socket_id
                };
                if let Some(k) = self.find_socket(&other) {
                    let ghost s2 = self.socket_to_room@;
                    proof {
                        lemma_remove_keeps_keys_distinct(s2, k as int);
                    }
                    self.socket_to_room.remove(k);
                    let ghost s3 = self.socket_to_room@;
                    assert forall|t: Seq<char>| #![trigger key_in(s3, t)] t != other@ implies key_in(s3, t) == key_in(s2, t) && (key_in(s2, t) ==> value_for(s3, t) == value_for(s2, t)) by {
                        lemma_remove_keeps_other_key(s2, k as int, t);
                    }
                    assert forall|s: Seq<char>| #[trigger] key_in(s3, s) implies key_in(s0, s) && s
                        != id@ && s != other@ by {
                        let q = choose|q: int| 0 <= q < s3.len() && #[trigger] s3[q].0@ == s;
                        if q < k {
                            assert(s3[q] == s2[q]);
                        } else {
                            assert(s3[q] == s2[q + 1]);
                        }
                        let t = if q < k { q } else { q + 1 };
                        assert(s2[t].0@ == s);
                        assert(s1.len() == s2.len());
                        assert(s1[t] == s2[t]);
                        if t < i {
                            assert(s1[t] == s0[t]);
                        } else {
                            assert(s1[t] == s0[t + 1]);
                        }
                    }
                }
            }
            proof {
                let other = old(self).partner(room_id@, id@);
                assert forall|rm: Seq<char>|
                    #![trigger self.has_match(rm)]
                    rm != room_id@ implies self.has_match(rm) == old(self).has_match(rm) && (old(
                        self,
                    ).has_match(rm) ==> self.match_in(rm) == old(self).match_in(rm)) by {
                    assert(room_in(self.matches@, rm) == room_in(m0, rm));
                    if room_in(m0, rm) {
                        assert(match_for(self.matches@, rm) == match_for(m0, rm));
                    }
                }
                assert forall|t: Seq<char>|
                    #![trigger self.assigned(t)]
                    t != id@ && !(old(self).has_match(room_id@) && t == other) implies self.assigned(t)
                        == old(self).assigned(t) && (old(self).assigned(t) ==> self.room_for(t)
                        == old(self).room_for(t)) by {
                    assert(key_in(self.socket_to_room@, t) == key_in(s0, t));
                    if key_in(s0, t) {
                        assert(value_for(self.socket_to_room@, t) == value_for(s0, t));
                    }
                }
                assert(Self::others_kept(*old(self), *self, room_id@, id@));
                if old(self).rooms_consistent() {
                    assert(!self.assigned(id@));
                    assert(old(self).has_match(room_id@) ==> !self.assigned(other));
                    assert(old(self).assigned(id@));
                    assert(room_id@ == old(self).room_for(id@));
                    assert(old(self).has_match(room_id@));
                    assert forall|t: Seq<char>|
                        #![trigger self.assigned(t)]
                        self.assigned(t) implies self.has_match(self.room_for(t)) && (self.match_in(
                            self.room_for(t),
                        ).black_socket_id@ == t || self.match_in(self.room_for(t)).white_socket_id@
                            == t) by {
                        assert(t != id@ && t != other);
                        assert(old(self).assigned(t));
                        let rt = old(self).room_for(t);
                        assert(self.room_for(t) == rt);
                        assert(old(self).has_match(rt));
                        if rt == room_id@ {
                            let mm = old(self).match_in(room_id@);
                            assert(mm.black_socket_id@ == t || mm.white_socket_id@ == t);
                            assert(mm.black_socket_id@ == id@ || mm.white_socket_id@ == id@);
                            assert(false);
                        }
                        assert(self.has_match(rt));
                        assert(self.match_in(rt) == old(self).match_in(rt));
                    }
                }
            }
            return Some(room_id);
        }
        if let Some(i) = self.find_waiting(&id) {
            let ghost w0 = self.waiting@;
            proof {
                let r = w0.remove(i as int);
                assert forall|a: int, b: int| 0 <= a < b < r.len() implies (#[trigger] r[a]).socket_id@
                    != (#[trigger] r[b]).socket_id@ by {
                    let a0 = if a < i { a } else { a + 1 };
                    let b0 = if b < i { b } else { b + 1 };
                    assert(r[a] == w0[a0]);
                    assert(r[b] == w0[b0]);
                }
                assert forall|a: int| 0 <= a < r.len() implies !self.assigned(
                    #[trigger] r[a].socket_id@,
                ) by {
                    let a0 = if a < i { a } else { a + 1 };
                    assert(r[a] == w0[a0]);
                }
            }
            let _ = self.waiting.remove(i);
            proof {
                if old(self).rooms_consistent() {
                    assert forall|t: Seq<char>|
                        #![trigger self.assigned(t)]
                        self.assigned(t) implies self.has_match(self.room_for(t)) && (self.match_in(
                            self.room_for(t),
                        ).black_socket_id@ == t || self.match_in(self.room_for(t)).white_socket_id@
                            == t) by {
                        assert(old(self).assigned(t));
                    }
                }
            }
            let ghost w1 = self.waiting@;
            assert forall|w: Seq<char>| #[trigger] self.waiting_at(w) <==> (old(self).waiting_at(w)
                && w != id@) by {
                if self.waiting_at(w) {
                    let k = choose|k: int| 0 <= k < w1.len() && #[trigger] w1[k].socket_id@ == w;
                    if k < i {
                        assert(w1[k] == w0[k]);
                    } else {
                        assert(w1[k] == w0[k + 1]);
                    }
                }
                if old(self).waiting_at(w) && w != id@ {
                    let k = choose|k: int| 0 <= k < w0.len() && #[trigger] w0[k].socket_id@ == w;
                    if k < i {
                        assert(w1[k] == w0[k]);
                    } else {
                        assert(k != i);
                        assert(w1[k - 1] == w0[k]);
                    }
                }
            }
        }
        None
    }
}

} // verus!

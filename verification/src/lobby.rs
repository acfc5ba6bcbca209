//! The lobby: players gather, pick rim seats, and are handed over to a
//! fresh game in seating order.

use vstd::prelude::*;
use vstd::multiset::Multiset;
use vstd::pervasive::VecAdditionalExecFns;

use crate::board::{spec_edge_position, edge_position, EdgePos, Position, NOT_READY};
use crate::errors::LobbyError;
use crate::random::{random_below, thread_rng_handle};

verus! {

/// The most seats a lobby may offer.
pub const MAX_PLAYERS: usize = 11;

/// A character allowed in a lobby code: an ASCII capital, with the easily
/// confused I and O left out.
pub open spec fn is_code_char(c: char) -> bool {
    ||| c == 'A'
    ||| c == 'B'
    ||| c == 'C'
    ||| c == 'D'
    ||| c == 'E'
    ||| c == 'F'
    ||| c == 'G'
    ||| c == 'H'
    ||| c == 'J'
    ||| c == 'K'
    ||| c == 'L'
    ||| c == 'M'
    ||| c == 'N'
    ||| c == 'P'
    ||| c == 'Q'
    ||| c == 'R'
    ||| c == 'S'
    ||| c == 'T'
    ||| c == 'U'
    ||| c == 'V'
    ||| c == 'W'
    ||| c == 'X'
    ||| c == 'Y'
    ||| c == 'Z'
}

fn code_char(i: usize) -> (r: &'static str)
    requires
        i < 24,
    ensures
        r@.len() == 1,
        is_code_char(r@[0]),
{
    let r: &'static str = if i == 0 { "A" } else if i == 1 { "B" } else if i == 2 { "C" }
    else if i == 3 { "D" } else if i == 4 { "E" } else if i == 5 { "F" } else if i == 6 { "G" }
    else if i == 7 { "H" } else if i == 8 { "J" } else if i == 9 { "K" } else if i == 10 { "L" }
    else if i == 11 { "M" } else if i == 12 { "N" } else if i == 13 { "P" } else if i == 14 { "Q" }
    else if i == 15 { "R" } else if i == 16 { "S" } else if i == 17 { "T" } else if i == 18 { "U" }
    else if i == 19 { "V" } else if i == 20 { "W" } else if i == 21 { "X" } else if i == 22 { "Y" }
    else { "Z" };
    proof {
        reveal_strlit("A");
        reveal_strlit("B");
        reveal_strlit("C");
        reveal_strlit("D");
        reveal_strlit("E");
        reveal_strlit("F");
        reveal_strlit("G");
        reveal_strlit("H");
        reveal_strlit("J");
        reveal_strlit("K");
        reveal_strlit("L");
        reveal_strlit("M");
        reveal_strlit("N");
        reveal_strlit("P");
        reveal_strlit("Q");
        reveal_strlit("R");
        reveal_strlit("S");
        reveal_strlit("T");
        reveal_strlit("U");
        reveal_strlit("V");
        reveal_strlit("W");
        reveal_strlit("X");
        reveal_strlit("Y");
        reveal_strlit("Z");
    }
    r
}

/// A four-letter lobby code drawn from the 24 unambiguous capitals.
#[verifier::loop_isolation(false)]
pub fn generate_lobby_code() -> (r: String)
    ensures
        r@.len() == 4,
        forall|i: int| 0 <= i < 4 ==> is_code_char(#[trigger] r@[i]),
{
    let mut code = String::new();
    let mut rng = thread_rng_handle();
    let mut k: usize = 0;
    while k < 4
        invariant
            k <= 4,
            code@.len() == k as int,
            forall|i: int| 0 <= i < k as int ==> is_code_char(#[trigger] code@[i]),
        decreases 4 - k,
    {
        let c = code_char(random_below(&mut rng, 24));
        code.append(c);
        k += 1;
    }
    code
}

/// The mathematical model of a lobby: usernames, a parallel list of seat
/// choices (48 while a player has not picked yet), and the seat limit.
#[verifier::ext_equal]
pub ghost struct LobbyView {
    pub names: Seq<Seq<char>>,
    pub start_positions: Seq<i8>,
    pub max_num_players: int,
}

/// A gathering of players before the game starts.
#[derive(Debug, PartialEq)]
pub struct Lobby {
    /// Usernames of the present players.
    pub names: Vec<String>,
    /// Parallel vector of starting positions.
    pub start_positions: Vec<EdgePos>,
    /// Total number of players to allow.
    pub max_num_players: usize,
}

impl View for Lobby {
    type V = LobbyView;

    open spec fn view(&self) -> LobbyView {
        LobbyView {
            names: self.names.deep_view(),
            start_positions: self.start_positions@,
            max_num_players: self.max_num_players as int,
        }
    }
}

/// The lobby invariant: the two seat lists stay parallel, every chosen
/// seat is a legal encoding, and the seat limit is within bounds.
pub open spec fn wf_lobby(l: LobbyView) -> bool {
    &&& l.names.len() == l.start_positions.len()
    &&& forall|i: int|
        0 <= i < l.start_positions.len() ==> 0 <= #[trigger] l.start_positions[i] <= NOT_READY
    &&& l.max_num_players <= MAX_PLAYERS
}

/// The index at or after `i` of the player called `name`, if any.
pub open spec fn spec_find_name(names: Seq<Seq<char>>, name: Seq<char>, i: int) -> Option<int>
    decreases names.len() - i,
{
    if i < 0 || i >= names.len() {
        None
    } else if names[i] == name {
        Some(i)
    } else {
        spec_find_name(names, name, i + 1)
    }
}

impl Lobby {
    /// A fresh lobby: the creating player is the host, unseated, with two
    /// seats offered.
    pub fn new(username: String) -> (r: Lobby)
        ensures
            r@.names == seq![username@],
            r@.start_positions == seq![NOT_READY],
            r@.max_num_players == 2,
            wf_lobby(r@),
    {
        let max_num_players: usize = 2;
        let mut names: Vec<String> = Vec::new();
        names.push(username);
        let mut start_positions: Vec<EdgePos> = Vec::new();
        start_positions.push(NOT_READY);
        let r = Lobby { names, start_positions, max_num_players };
        proof {
            assert(r@.names =~= seq![r.names@[0]@]);
            assert(r@.start_positions =~= seq![NOT_READY]);
        }
        r
    }

    /// The host: the player who created the lobby.
    pub fn host(&self) -> (r: &String)
        requires
            self@.names.len() > 0,
        ensures
            r@ == self@.names[0],
    {
        &self.names[0]
    }

    /// Change the seat limit.  Fails exactly when the request exceeds the
    /// overall maximum; shrinking below the current population drops the
    /// latest arrivals.
    pub fn resize(&mut self, new_size: usize) -> (r: Result<(), LobbyError>)
        requires
            wf_lobby(old(self)@),
        ensures
            wf_lobby(final(self)@),
            new_size > MAX_PLAYERS ==> r == Err::<(), LobbyError>(LobbyError::TooManyPlayers)
                && final(self)@ == old(self)@,
            new_size <= MAX_PLAYERS ==> {
                &&& r == Ok::<(), LobbyError>(())
                &&& final(self)@.max_num_players == new_size
                &&& final(self)@.names == if old(self)@.names.len() > new_size {
                    old(self)@.names.take(new_size as int)
                } else {
                    old(self)@.names
                }
                &&& final(self)@.start_positions == if old(self)@.names.len() > new_size {
                    old(self)@.start_positions.take(new_size as int)
                } else {
                    old(self)@.start_positions
                }
            },
    {
        if new_size > MAX_PLAYERS {
            return Err(LobbyError::TooManyPlayers);
        }
        self.max_num_players = new_size;
        if self.names.len() > new_size {
            self.names.truncate(new_size);
            self.start_positions.truncate(new_size);
        }
        proof {
            if old(self)@.names.len() > new_size {
                assert(final(self)@.names =~= old(self)@.names.take(new_size as int));
                assert(final(self)@.start_positions =~= old(self)@.start_positions.take(
                    new_size as int,
                ));
            }
        }
        Ok(())
    }

    /// Seat `username` at `seat_idx`: an already-present player moves to
    /// the new seat, a new player joins with it.  Fails exactly when the
    /// seat number is not a legal encoding.
    #[verifier::loop_isolation(false)]
    pub fn take_seat(&mut self, seat_idx: EdgePos, username: String) -> (r: Result<
        (),
        LobbyError,
    >)
        requires
            wf_lobby(old(self)@),
        ensures
            wf_lobby(final(self)@),
            !(0 <= seat_idx <= NOT_READY) ==> r == Err::<(), LobbyError>(LobbyError::InvalidSeat)
                && final(self)@ == old(self)@,
            0 <= seat_idx <= NOT_READY ==> {
                &&& r == Ok::<(), LobbyError>(())
                &&& match spec_find_name(old(self)@.names, username@, 0) {
                    Some(i) => final(self)@.names == old(self)@.names
                        && final(self)@.start_positions == old(self)@.start_positions.update(
                        i,
                        seat_idx,
                    ),
                    None => final(self)@.names == old(self)@.names.push(username@)
                        && final(self)@.start_positions == old(self)@.start_positions.push(
                        seat_idx,
                    ),
                }
            },
    {
        if !crate::board::is_valid_edge_position(seat_idx) {
            return Err(LobbyError::InvalidSeat);
        }
        let n = self.names.len();
        let mut i: usize = 0;
        while i < n
            invariant
                i <= n,
                n == self@.names.len(),
                wf_lobby(self@),
                self@ == old(self)@,
                spec_find_name(self@.names, username@, 0) == spec_find_name(
                    self@.names,
                    username@,
                    i as int,
                ),
            decreases n - i,
        {
            if self.names[i] == username {
                self.start_positions.set(i, seat_idx);
                proof {
                    assert(final(self)@.names =~= old(self)@.names);
                    assert(final(self)@.start_positions =~= old(self)@.start_positions.update(
                        i as int,
                        seat_idx,
                    ));
                    assert(spec_find_name(old(self)@.names, username@, 0) == Some(i as int));
                }
                return Ok(());
            }
            i += 1;
        }
        self.names.push(username);
        self.start_positions.push(seat_idx);
        proof {
            assert(final(self)@.names =~= old(self)@.names.push(username@));
        }
        Ok(())
    }
}

/// The usernames of the players who have picked a seat, in lobby order.
pub open spec fn spec_seated_names(names: Seq<Seq<char>>, pos: Seq<i8>) -> Seq<Seq<char>>
    decreases names.len(),
{
    if names.len() == 0 || pos.len() == 0 {
        Seq::empty()
    } else {
        let rest = spec_seated_names(names.drop_last(), pos.drop_last());
        if pos.last() < NOT_READY {
            rest.push(names.last())
        } else {
            rest
        }
    }
}

/// The seated players with their decoded starting positions, in lobby
/// order.
pub open spec fn spec_seated_players(names: Seq<Seq<char>>, pos: Seq<i8>) -> Seq<
    (Seq<char>, Position),
>
    decreases names.len(),
{
    if names.len() == 0 || pos.len() == 0 {
        Seq::empty()
    } else {
        let rest = spec_seated_players(names.drop_last(), pos.drop_last());
        if pos.last() < NOT_READY {
            rest.push((names.last(), spec_edge_position(pos.last() as int)))
        } else {
            rest
        }
    }
}

/// Whether any player has picked a seat.
pub open spec fn spec_any_seated(pos: Seq<i8>) -> bool {
    exists|i: int| 0 <= i < pos.len() && #[trigger] pos[i] < NOT_READY
}

/// Whether `username` may start the game from this lobby, and the reason
/// when not: only the host may start, and only once somebody is seated.
pub open spec fn spec_pregame(l: LobbyView, username: Seq<char>) -> Result<(), LobbyError> {
    if l.max_num_players > MAX_PLAYERS {
        Err(LobbyError::TooManyPlayers)
    } else if username != l.names[0] {
        Err(LobbyError::NotHost)
    } else if !spec_any_seated(l.start_positions) {
        Err(LobbyError::NoPlayersReady)
    } else {
        Ok(())
    }
}

impl Lobby {
    /// The usernames of the players who have picked a seat, in lobby
    /// order.
    #[verifier::loop_isolation(false)]
    pub fn player_names(&self) -> (r: Vec<String>)
        requires
            wf_lobby(self@),
        ensures
            r.deep_view() == spec_seated_names(self@.names, self@.start_positions),
    {
        let n = self.names.len();
        let mut r: Vec<String> = Vec::new();
        let mut i: usize = 0;
        while i < n
            invariant
                i <= n,
                r.deep_view() == spec_seated_names(
                    self@.names.take(i as int),
                    self@.start_positions.take(i as int),
                ),
            decreases n - i,
        {
            let ghost di = i as int;
            proof {
                assert(self@.names.take(di + 1).drop_last() =~= self@.names.take(di));
                assert(self@.start_positions.take(di + 1).drop_last() =~= self@.start_positions.take(
                    di,
                ));
                assert(self@.names.take(di + 1).last() == self@.names[di]);
            }
            if self.start_positions[i] < NOT_READY {
                r.push(self.names[i].clone());
                proof {
                    assert(r.deep_view() =~= spec_seated_names(
                        self@.names.take(di + 1),
                        self@.start_positions.take(di + 1),
                    ));
                }
            }
            i += 1;
        }
        proof {
            assert(self@.names.take(n as int) =~= self@.names);
            assert(self@.start_positions.take(n as int) =~= self@.start_positions);
        }
        r
    }

    /// Consume the lobby and hand out the seated players with their
    /// decoded starting positions, in lobby order.
    #[verifier::loop_isolation(false)]
    pub fn into_seated_players(self) -> (r: Vec<(String, Position)>)
        requires
            wf_lobby(self@),
        ensures
            r@.len() == spec_seated_players(self@.names, self@.start_positions).len(),
            forall|i: int|
                0 <= i < r@.len() ==> (#[trigger] r@[i]).0@ == spec_seated_players(
                    self@.names,
                    self@.start_positions,
                )[i].0 && r@[i].1 == spec_seated_players(self@.names, self@.start_positions)[i].1,
    {
        let n = self.names.len();
        let mut r: Vec<(String, Position)> = Vec::new();
        let mut i: usize = 0;
        while i < n
            invariant
                i <= n,
                r@.len() == spec_seated_players(
                    self@.names.take(i as int),
                    self@.start_positions.take(i as int),
                ).len(),
                forall|j: int|
                    0 <= j < r@.len() ==> (#[trigger] r@[j]).0@ == spec_seated_players(
                        self@.names.take(i as int),
                        self@.start_positions.take(i as int),
                    )[j].0 && r@[j].1 == spec_seated_players(
                        self@.names.take(i as int),
                        self@.start_positions.take(i as int),
                    )[j].1,
            decreases n - i,
        {
            let ghost di = i as int;
            proof {
                assert(self@.names.take(di + 1).drop_last() =~= self@.names.take(di));
                assert(self@.start_positions.take(di + 1).drop_last() =~= self@.start_positions.take(
                    di,
                ));
                assert(self@.names.take(di + 1).last() == self@.names[di]);
            }
            if self.start_positions[i] < NOT_READY {
                r.push((self.names[i].clone(), edge_position(self.start_positions[i])));
            }
            i += 1;
        }
        proof {
            assert(self@.names.take(n as int) =~= self@.names);
            assert(self@.start_positions.take(n as int) =~= self@.start_positions);
        }
        r
    }

    /// Whether `username` may start the game: only the host may, and only
    /// once somebody is seated.  Succeeds exactly when [`spec_pregame`]
    /// says so.
    #[verifier::loop_isolation(false)]
    pub fn run_pregame_checks(&self, username: &str) -> (r: Result<(), LobbyError>)
        requires
            wf_lobby(self@),
            self@.names.len() > 0,
        ensures
            r == spec_pregame(self@, username@),
    {
        if self.max_num_players > MAX_PLAYERS {
            return Err(LobbyError::TooManyPlayers);
        }
        let key: String = username.to_owned();
        if !(self.names[0] == key) {
            return Err(LobbyError::NotHost);
        }
        let n = self.start_positions.len();
        let mut i: usize = 0;
        while i < n
            invariant
                i <= n,
                forall|j: int| 0 <= j < i as int ==> #[trigger] self@.start_positions[j]
                    >= NOT_READY,
            decreases n - i,
        {
            if self.start_positions[i] < NOT_READY {
                return Ok(());
            }
            i += 1;
        }
        Err(LobbyError::NoPlayersReady)
    }
}

/// The lobby's seat assignments as (username, seat) pairs.
pub open spec fn lobby_pairs(names: Seq<Seq<char>>, pos: Seq<i8>) -> Seq<(Seq<char>, i8)> {
    Seq::new(names.len(), |i: int| (names[i], pos[i]))
}

/// The (username, seat) pairs of the players who have picked a seat.
pub open spec fn seated_pairs(names: Seq<Seq<char>>, pos: Seq<i8>) -> Seq<(Seq<char>, i8)>
    decreases names.len(),
{
    if names.len() == 0 || pos.len() == 0 {
        Seq::empty()
    } else {
        let rest = seated_pairs(names.drop_last(), pos.drop_last());
        if pos.last() < NOT_READY {
            rest.push((names.last(), pos.last()))
        } else {
            rest
        }
    }
}

/// How many players have picked a seat.
pub open spec fn seated_count(pos: Seq<i8>) -> nat
    decreases pos.len(),
{
    if pos.len() == 0 {
        0
    } else {
        seated_count(pos.drop_last()) + if pos.last() < NOT_READY {
            1nat
        } else {
            0nat
        }
    }
}

/// The seats are listed in ascending order.
pub open spec fn pos_sorted(pos: Seq<i8>) -> bool {
    forall|i: int, j: int| 0 <= i < j < pos.len() ==> pos[i] <= pos[j]
}

proof fn lemma_seated_count_remove(pos: Seq<i8>, k: int)
    requires
        0 <= k < pos.len(),
    ensures
        seated_count(pos.remove(k)) + (if pos[k] < NOT_READY {
            1nat
        } else {
            0nat
        }) == seated_count(pos),
    decreases pos.len(),
{
    let p2 = pos.remove(k);
    if k == pos.len() - 1 {
        assert(p2 =~= pos.drop_last());
    } else {
        assert(p2.drop_last() =~= pos.drop_last().remove(k));
        lemma_seated_count_remove(pos.drop_last(), k);
        assert(p2.last() == pos.last());
    }
}

proof fn lemma_seated_count_push(pos: Seq<i8>, v: i8)
    ensures
        seated_count(pos.push(v)) == seated_count(pos) + (if v < NOT_READY {
            1nat
        } else {
            0nat
        }),
{
    assert(pos.push(v).drop_last() =~= pos);
}

/// On a run of seated seats followed only by unseated ones, the seated
/// count is the length of that run.
proof fn lemma_seated_count_split(pos: Seq<i8>, h: int)
    requires
        0 <= h <= pos.len(),
        forall|i: int| 0 <= i < h ==> #[trigger] pos[i] < NOT_READY,
        forall|i: int| h <= i < pos.len() ==> #[trigger] pos[i] >= NOT_READY,
    ensures
        seated_count(pos) == h,
    decreases pos.len(),
{
    if pos.len() > 0 {
        if h == pos.len() {
            lemma_seated_count_split(pos.drop_last(), h - 1);
        } else {
            lemma_seated_count_split(pos.drop_last(), h);
        }
    }
}

/// With such a split the seated pairs are exactly the leading run.
proof fn lemma_seated_pairs_split(names: Seq<Seq<char>>, pos: Seq<i8>, h: int)
    requires
        names.len() == pos.len(),
        0 <= h <= pos.len(),
        forall|i: int| 0 <= i < h ==> #[trigger] pos[i] < NOT_READY,
        forall|i: int| h <= i < pos.len() ==> #[trigger] pos[i] >= NOT_READY,
    ensures
        seated_pairs(names, pos) == lobby_pairs(names, pos).take(h),
    decreases pos.len(),
{
    if pos.len() == 0 {
        assert(seated_pairs(names, pos) =~= lobby_pairs(names, pos).take(h));
    } else {
        assert(lobby_pairs(names, pos).drop_last() =~= lobby_pairs(
            names.drop_last(),
            pos.drop_last(),
        ));
        if h == pos.len() {
            lemma_seated_pairs_split(names.drop_last(), pos.drop_last(), h - 1);
            assert(lobby_pairs(names.drop_last(), pos.drop_last()).take(h - 1)
                =~= lobby_pairs(names, pos).take(h).drop_last());
            assert(seated_pairs(names, pos) =~= lobby_pairs(names, pos).take(h));
        } else {
            lemma_seated_pairs_split(names.drop_last(), pos.drop_last(), h);
            assert(lobby_pairs(names.drop_last(), pos.drop_last()).take(h) =~= lobby_pairs(
                names,
                pos,
            ).take(h));
        }
    }
}

/// How a pair is counted among the seated pairs: like in the full list
/// when its seat is picked, not at all otherwise.
proof fn lemma_seated_pairs_count(names: Seq<Seq<char>>, pos: Seq<i8>, x: (Seq<char>, i8))
    requires
        names.len() == pos.len(),
    ensures
        seated_pairs(names, pos).to_multiset().count(x) == if x.1 < NOT_READY {
            lobby_pairs(names, pos).to_multiset().count(x)
        } else {
            0
        },
    decreases names.len(),
{
    broadcast use vstd::seq_lib::group_to_multiset_ensures;

    if names.len() == 0 {
        assert(seated_pairs(names, pos).to_multiset() =~= Multiset::empty());
        assert(lobby_pairs(names, pos).to_multiset() =~= Multiset::empty());
    } else {
        lemma_seated_pairs_count(names.drop_last(), pos.drop_last(), x);
        let full = lobby_pairs(names, pos);
        let fulld = lobby_pairs(names.drop_last(), pos.drop_last());
        assert(full =~= fulld.push((names.last(), pos.last())));
        assert(full.to_multiset() == fulld.to_multiset().insert((names.last(), pos.last())));
        let seat = seated_pairs(names, pos);
        let seatd = seated_pairs(names.drop_last(), pos.drop_last());
        if pos.last() < NOT_READY {
            assert(seat.to_multiset() == seatd.to_multiset().insert((names.last(), pos.last())));
        }
    }
}

/// How many of the integer seats below `p` occur in `pos`.
pub open spec fn count_contained(pos: Seq<i8>, p: int) -> nat
    decreases p,
{
    if p <= 0 {
        0
    } else {
        count_contained(pos, p - 1) + if pos.contains((p - 1) as i8) {
            1nat
        } else {
            0nat
        }
    }
}

proof fn lemma_to_multiset_empty<A>(s: Seq<A>)
    requires
        s.len() == 0,
    ensures
        s.to_multiset() =~= Multiset::empty(),
{
    broadcast use vstd::seq_lib::group_to_multiset_ensures;
    broadcast use vstd::multiset::group_multiset_axioms;

    assert forall|x: A| s.to_multiset().count(x) == 0 by {
        assert(!s.contains(x));
    }
}

proof fn lemma_count_drop(pos: Seq<i8>, p: int)
    requires
        pos.len() >= 1,
        p <= 48,
    ensures
        count_contained(pos, p) <= count_contained(pos.drop_last(), p) + (if 0 <= pos.last() < p {
            1nat
        } else {
            0nat
        }),
    decreases p,
{
    if p > 0 {
        lemma_count_drop(pos, p - 1);
        let a = (p - 1) as i8;
        let h1: nat = if pos.contains(a) { 1nat } else { 0nat };
        let h2: nat = if pos.drop_last().contains(a) { 1nat } else { 0nat };
        assert(count_contained(pos, p) == count_contained(pos, p - 1) + h1);
        assert(count_contained(pos.drop_last(), p) == count_contained(pos.drop_last(), p - 1)
            + h2);
        if pos.last() == a {
            assert(0 <= pos.last() < p);
        } else {
            if pos.contains(a) {
                let w = choose|w: int| 0 <= w < pos.len() && pos[w] == a;
                assert(w < pos.len() - 1);
                assert(pos.drop_last()[w] == a);
                assert(pos.drop_last().contains(a));
            }
            assert(h1 <= h2);
            if 0 <= pos.last() < p - 1 {
            } else {
                assert(!(0 <= pos.last() < p));
            }
        }
    }
}

/// A list of seats can contain at most as many distinct seat numbers as
/// it has entries.
proof fn lemma_count_contained_len(pos: Seq<i8>, p: int)
    requires
        p <= 48,
    ensures
        count_contained(pos, p) <= pos.len(),
    decreases pos.len(),
{
    if pos.len() == 0 {
        lemma_count_empty(pos, p);
    } else {
        lemma_count_drop(pos, p);
        lemma_count_contained_len(pos.drop_last(), p);
    }
}

proof fn lemma_count_empty(pos: Seq<i8>, p: int)
    requires
        pos.len() == 0,
    ensures
        count_contained(pos, p) == 0,
    decreases p,
{
    if p > 0 {
        lemma_count_empty(pos, p - 1);
    }
}

fn ai_name(i: usize) -> (r: &'static str)
    requires
        1 <= i <= 10,
{
    if i == 1 { "AI player #1" } else if i == 2 { "AI player #2" } else if i == 3 {
        "AI player #3"
    } else if i == 4 { "AI player #4" } else if i == 5 { "AI player #5" } else if i == 6 {
        "AI player #6"
    } else if i == 7 { "AI player #7" } else if i == 8 { "AI player #8" } else if i == 9 {
        "AI player #9"
    } else {
        "AI player #10"
    }
}

impl Lobby {
    #[verifier::loop_isolation(false)]
    fn contains_position(&self, p: EdgePos) -> (r: bool)
        ensures
            r == self@.start_positions.contains(p),
    {
        let n = self.start_positions.len();
        let mut i: usize = 0;
        while i < n
            invariant
                i <= n,
                forall|j: int| 0 <= j < i as int ==> #[trigger] self@.start_positions[j] != p,
            decreases n - i,
        {
            if self.start_positions[i] == p {
                return true;
            }
            i += 1;
        }
        proof {
            assert(!self@.start_positions.contains(p));
        }
        false
    }

    /// Make the lobby ready to seed a game: reseat everyone in ascending
    /// seat order (building fresh lists rather than permuting in place),
    /// drop the players who never picked a seat, and fill the remaining
    /// capacity with agent-controlled players on distinct unused seats.
    #[verifier::loop_isolation(false)]
    #[verifier::rlimit(100)]
    pub fn prepare_for_game(&mut self)
        requires
            wf_lobby(old(self)@),
            seated_count(old(self)@.start_positions) >= 1,
            seated_count(old(self)@.start_positions) <= old(self)@.max_num_players,
        ensures
            wf_lobby(final(self)@),
            final(self)@.max_num_players == old(self)@.max_num_players,
            ({
                let h = seated_count(old(self)@.start_positions) as int;
                let fnames = final(self)@.names;
                let fpos = final(self)@.start_positions;
                &&& (h < old(self)@.max_num_players ==> fnames.len() == old(
                    self,
                )@.max_num_players)
                &&& (h >= old(self)@.max_num_players ==> fnames.len() == old(self)@.names.len())
                &&& lobby_pairs(fnames, fpos).take(h).to_multiset() == seated_pairs(
                    old(self)@.names,
                    old(self)@.start_positions,
                ).to_multiset()
                &&& pos_sorted(fpos.take(h))
                &&& forall|i: int| 0 <= i < h ==> #[trigger] fpos[i] < NOT_READY
                &&& (h < old(self)@.max_num_players ==> forall|i: int|
                    h <= i < fpos.len() ==> (0 <= #[trigger] fpos[i] < NOT_READY && forall|j: int|
                        0 <= j < i ==> fpos[j] != fpos[i]))
                &&& (h >= old(self)@.max_num_players ==> forall|i: int|
                    h <= i < fpos.len() ==> #[trigger] fpos[i] == NOT_READY)
            }),
    {
        let ghost l0 = self@;
        // Reseat everyone in ascending seat order, building new lists.
        let mut snames: Vec<String> = Vec::new();
        let mut spositions: Vec<EdgePos> = Vec::new();
        proof {
            broadcast use vstd::multiset::group_multiset_axioms;

            lemma_to_multiset_empty(lobby_pairs(snames.deep_view(), spositions@));
            assert(lobby_pairs(snames.deep_view(), spositions@).to_multiset().add(
                lobby_pairs(self@.names, self@.start_positions).to_multiset(),
            ) =~= lobby_pairs(l0.names, l0.start_positions).to_multiset());
        }
        while self.names.len() > 0
            invariant
                self@.names.len() == self@.start_positions.len(),
                snames.deep_view().len() == spositions@.len(),
                snames.deep_view().len() + self@.names.len() == l0.names.len(),
                lobby_pairs(snames.deep_view(), spositions@).to_multiset().add(
                    lobby_pairs(self@.names, self@.start_positions).to_multiset(),
                ) == lobby_pairs(l0.names, l0.start_positions).to_multiset(),
                seated_count(spositions@) + seated_count(self@.start_positions) == seated_count(
                    l0.start_positions,
                ),
                pos_sorted(spositions@),
                forall|i: int, j: int|
                    0 <= i < spositions@.len() && 0 <= j < self@.start_positions.len()
                        ==> #[trigger] spositions@[i] <= #[trigger] self@.start_positions[j],
                forall|i: int| 0 <= i < spositions@.len() ==> 0 <= #[trigger] spositions@[i]
                    <= NOT_READY,
                forall|i: int|
                    0 <= i < self@.start_positions.len() ==> 0 <= #[trigger] self@.start_positions[i]
                        <= NOT_READY,
                self@.max_num_players == l0.max_num_players,
            decreases self.names.len(),
        {
            // Find the first seat with the minimal number.
            let len = self.names.len();
            let mut m: usize = 0;
            let mut k: usize = 1;
            while k < len
                invariant
                    m < k <= len,
                    forall|j: int| 0 <= j < k as int ==> self@.start_positions[m as int]
                        <= #[trigger] self@.start_positions[j],
                decreases len - k,
            {
                if self.start_positions[k] < self.start_positions[m] {
                    m = k;
                }
                k += 1;
            }
            let ghost mid_names = self@.names;
            let ghost mid_pos = self@.start_positions;
            let ghost sn0 = snames.deep_view();
            let ghost sp0 = spositions@;
            let nm = self.names.remove(m);
            let p = self.start_positions.remove(m);
            snames.push(nm);
            spositions.push(p);
            proof {
                broadcast use vstd::seq_lib::group_to_multiset_ensures;

                let x = (mid_names[m as int], mid_pos[m as int]);
                assert(lobby_pairs(self@.names, self@.start_positions) =~= lobby_pairs(
                    mid_names,
                    mid_pos,
                ).remove(m as int));
                assert(lobby_pairs(mid_names, mid_pos)[m as int] == x);
                assert(lobby_pairs(snames.deep_view(), spositions@) =~= lobby_pairs(
                    sn0,
                    sp0,
                ).push(x));
                assert(lobby_pairs(snames.deep_view(), spositions@).to_multiset() == lobby_pairs(
                    sn0,
                    sp0,
                ).to_multiset().insert(x));
                assert(lobby_pairs(self@.names, self@.start_positions).to_multiset()
                    == lobby_pairs(mid_names, mid_pos).to_multiset().remove(x));
                assert(lobby_pairs(snames.deep_view(), spositions@).to_multiset().add(
                    lobby_pairs(self@.names, self@.start_positions).to_multiset(),
                ) =~= lobby_pairs(l0.names, l0.start_positions).to_multiset());
                lemma_seated_count_remove(mid_pos, m as int);
                lemma_seated_count_push(sp0, mid_pos[m as int]);
                assert forall|i: int, j: int|
                    0 <= i < spositions@.len() && 0 <= j
                        < self@.start_positions.len() implies #[trigger] spositions@[i]
                    <= #[trigger] self@.start_positions[j] by {
                    assert(self@.start_positions[j] == if j < m as int {
                        mid_pos[j]
                    } else {
                        mid_pos[j + 1]
                    });
                }
            }
        }
        let ghost rem_names = self@.names;
        let ghost rem_pos = self@.start_positions;
        self.names = snames;
        self.start_positions = spositions;
        // The seated players now form a leading run; count them.
        let total = self.names.len();
        let mut h: usize = 0;
        while h < total && self.start_positions[h] < NOT_READY
            invariant
                h <= total,
                forall|j: int| 0 <= j < h as int ==> #[trigger] self@.start_positions[j]
                    < NOT_READY,
            decreases total - h,
        {
            h += 1;
        }
        proof {
            assert forall|i: int| h as int <= i < total as int implies #[trigger] self@.start_positions[i]
                >= NOT_READY by {
                if h < total {
                    assert(self@.start_positions[h as int] >= NOT_READY);
                }
            }
            lemma_seated_count_split(self@.start_positions, h as int);
            lemma_seated_pairs_split(self@.names, self@.start_positions, h as int);
            broadcast use vstd::multiset::group_multiset_axioms;

            assert(lobby_pairs(self@.names, self@.start_positions).to_multiset() =~= lobby_pairs(
                l0.names,
                l0.start_positions,
            ).to_multiset()) by {
                lemma_to_multiset_empty(lobby_pairs(rem_names, rem_pos));
                assert(lobby_pairs(self@.names, self@.start_positions).to_multiset().add(
                    lobby_pairs(rem_names, rem_pos).to_multiset(),
                ) == lobby_pairs(l0.names, l0.start_positions).to_multiset());
                assert(lobby_pairs(self@.names, self@.start_positions).to_multiset().add(
                    Multiset::<(Seq<char>, i8)>::empty(),
                ) =~= lobby_pairs(self@.names, self@.start_positions).to_multiset());
            }
            assert forall|x: (Seq<char>, i8)|
                true implies seated_pairs(self@.names, self@.start_positions).to_multiset().count(
                x,
            ) == seated_pairs(l0.names, l0.start_positions).to_multiset().count(x) by {
                lemma_seated_pairs_count(self@.names, self@.start_positions, x);
                lemma_seated_pairs_count(l0.names, l0.start_positions, x);
            }
            assert(seated_pairs(self@.names, self@.start_positions).to_multiset()
                =~= seated_pairs(l0.names, l0.start_positions).to_multiset());
        }
        let ghost hh = h as int;
        let ghost sorted_pairs = lobby_pairs(self@.names, self@.start_positions);
        if h < self.max_num_players {
            self.names.truncate(h);
            self.start_positions.truncate(h);
            proof {
                assert(lobby_pairs(self@.names, self@.start_positions) =~= sorted_pairs.take(hh));
            }
            // Collect the seats that nobody picked.
            let mut free: Vec<EdgePos> = Vec::new();
            let mut p: EdgePos = 0;
            while p < NOT_READY
                invariant
                    0 <= p <= NOT_READY,
                    free@.len() + count_contained(self@.start_positions, p as int) == p as int,
                    forall|i: int| 0 <= i < free@.len() ==> 0 <= #[trigger] free@[i] < p,
                    forall|i: int, j: int| 0 <= i < j < free@.len() ==> free@[i] < free@[j],
                    forall|i: int|
                        0 <= i < free@.len() ==> !self@.start_positions.contains(
                            #[trigger] free@[i],
                        ),
                decreases NOT_READY - p,
            {
                if !self.contains_position(p) {
                    free.push(p);
                }
                p += 1;
            }
            proof {
                lemma_count_contained_len(self@.start_positions, 48);
            }
            // Fill the remaining seats with agent players on unused seats.
            let fill = self.max_num_players - h;
            let mut rng = thread_rng_handle();
            let mut k: usize = 0;
            while k < fill
                invariant
                    k <= fill,
                    fill == l0.max_num_players - hh,
                    self@.names.len() == self@.start_positions.len(),
                    self@.names.len() == hh + k as int,
                    free@.len() >= 37 - k as int,
                    self@.max_num_players == l0.max_num_players,
                    lobby_pairs(self@.names, self@.start_positions).take(hh) == sorted_pairs.take(
                        hh,
                    ),
                    pos_sorted(self@.start_positions.take(hh)),
                    forall|i: int| 0 <= i < hh ==> 0 <= #[trigger] self@.start_positions[i]
                        < NOT_READY,
                    forall|i: int|
                        hh <= i < self@.start_positions.len() ==> (0
                            <= #[trigger] self@.start_positions[i] < NOT_READY && forall|j: int|
                            0 <= j < i ==> self@.start_positions[j] != self@.start_positions[i]),
                    forall|i: int, j: int| 0 <= i < j < free@.len() ==> free@[i] < free@[j],
                    forall|i: int| 0 <= i < free@.len() ==> 0 <= #[trigger] free@[i] < NOT_READY,
                    forall|i: int|
                        0 <= i < free@.len() ==> !self@.start_positions.contains(
                            #[trigger] free@[i],
                        ),
                decreases fill - k,
            {
                let pick = random_below(&mut rng, free.len());
                let ghost free0 = free@;
                let ghost names0 = self@.names;
                let ghost pos0 = self@.start_positions;
                let seat = free.remove(pick);
                let name = ai_name(k + 1);
                self.names.push(String::from_str(name));
                self.start_positions.push(seat);
                proof {
                    assert(lobby_pairs(self@.names, self@.start_positions).take(hh)
                        =~= lobby_pairs(names0, pos0).take(hh));
                    assert(self@.start_positions.take(hh) =~= pos0.take(hh));
                    assert(!pos0.contains(seat));
                    assert forall|i: int|
                        hh <= i < self@.start_positions.len() implies (0
                        <= #[trigger] self@.start_positions[i] < NOT_READY && forall|j: int|
                        0 <= j < i ==> self@.start_positions[j] != self@.start_positions[i]) by {
                        if i < pos0.len() {
                            assert(self@.start_positions[i] == pos0[i]);
                        } else {
                            assert(self@.start_positions[i] == seat);
                            assert forall|j: int| 0 <= j < i implies self@.start_positions[j]
                                != self@.start_positions[i] by {
                                assert(pos0.contains(pos0[j]));
                            }
                        }
                    }
                    assert forall|i: int| 0 <= i < free@.len() implies !self@.start_positions.contains(
                        #[trigger] free@[i],
                    ) by {
                        let v = free@[i];
                        assert(v == if i < pick as int {
                            free0[i]
                        } else {
                            free0[i + 1]
                        });
                        assert(!pos0.contains(v));
                        assert(v != seat);
                        assert forall|j: int|
                            0 <= j < self@.start_positions.len() implies self@.start_positions[j]
                            != v by {
                            if j < pos0.len() {
                                assert(pos0.contains(pos0[j]));
                            }
                        }
                    }
                }
                k += 1;
            }
        }
        proof {
            assert(hh == seated_count(l0.start_positions) as int);
            assert(lobby_pairs(final(self)@.names, final(self)@.start_positions).take(hh)
                =~= sorted_pairs.take(hh));
            assert(lobby_pairs(final(self)@.names, final(self)@.start_positions).take(
                hh,
            ).to_multiset() == seated_pairs(l0.names, l0.start_positions).to_multiset());
            assert(final(self)@.names.len() == final(self)@.start_positions.len());
            assert(final(self)@.max_num_players == l0.max_num_players);
            assert(pos_sorted(final(self)@.start_positions.take(hh)));
            assert(forall|i: int|
                0 <= i < hh ==> #[trigger] final(self)@.start_positions[i] < NOT_READY);
            assert(hh < l0.max_num_players ==> final(self)@.names.len()
                == l0.max_num_players);
            assert(hh >= l0.max_num_players ==> final(self)@.names.len() == l0.names.len());
            assert(forall|i: int|
                0 <= i < final(self)@.start_positions.len() ==> 0
                    <= #[trigger] final(self)@.start_positions[i] <= NOT_READY);
        }
    }
}

} // verus!

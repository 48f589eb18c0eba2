//! The room registry: authoritative owner of the token-to-room mapping.
//!
//! The registry allocates monotonically increasing room ids, draws a random
//! token per room, records the session handle created for the room, and
//! answers create, join and list requests. All mutations are serialized by
//! the single owner of the registry value, as through a mailbox: at most one
//! operation observes or changes the room map at a time.

use vstd::prelude::*;
use crate::decimal::{spec_decimal, u32_to_decimal};
use crate::token::{is_room_token, random_token};

verus! {

/// Opaque reference to a running game session, created once per room.
///
/// The registry owns the start of the session's lifecycle, not its
/// teardown. Handles are numbered by the id of the room they were started
/// for; the surrounding process maps a handle to the live session it names.
#[derive(Clone, Copy, PartialEq, Eq, Structural, Debug)]
pub struct SessionHandle {
    pub session_id: u32,
}

/// Mathematical image of one room record.
pub struct RoomModel {
    pub id: u32,
    pub name: Seq<char>,
    pub max_players: u32,
    pub time_limit_seconds: u32,
    pub token: Seq<char>,
    pub session: SessionHandle,
}

/// A single room: authoritative record, owned exclusively by the registry.
///
/// `id`, `token` and `game` are assigned exactly once at creation and never
/// mutated; `name`, `max_players` and `time_limit_seconds` are immutable
/// display metadata.
pub struct Room {
    pub id: u32,
    pub name: String,
    pub max_players: u32,
    pub time_limit_seconds: u32,
    pub token: String,
    pub game: SessionHandle,
}

impl View for Room {
    type V = RoomModel;

    open spec fn view(&self) -> RoomModel {
        RoomModel {
            id: self.id,
            name: self.name@,
            max_players: self.max_players,
            time_limit_seconds: self.time_limit_seconds,
            token: self.token@,
            session: self.game,
        }
    }
}

impl Room {
    /// Build the record for a freshly created room and start its session:
    /// the session handle is numbered by the room id.
    pub fn new(id: u32, name: String, max_players: u32, time_limit_seconds: u32, token: String) -> (r:
        Room)
        ensures
            r@ == (RoomModel {
                id,
                name: name@,
                max_players,
                time_limit_seconds,
                token: token@,
                session: SessionHandle { session_id: id },
            }),
    {
        Room {
            id,
            name,
            max_players,
            time_limit_seconds,
            token,
            game: SessionHandle { session_id: id },
        }
    }
}

/// Mathematical image of the whole registry.
pub struct RegistryModel {
    pub next_id: u32,
    pub rooms: Seq<RoomModel>,
}

impl RegistryModel {
    /// Well-formedness: every recorded id was allocated below the counter,
    /// rooms stand in strictly increasing id order (creation order), and
    /// tokens are unique among live rooms and well shaped.
    pub open spec fn wf(self) -> bool {
        &&& forall|i: int| 0 <= i < self.rooms.len() ==> (#[trigger] self.rooms[i]).id
            < self.next_id
        &&& forall|i: int, j: int|
            0 <= i < j < self.rooms.len() ==> self.rooms[i].id < self.rooms[j].id
        &&& forall|i: int, j: int|
            0 <= i < self.rooms.len() && 0 <= j < self.rooms.len() && i != j
                ==> self.rooms[i].token != self.rooms[j].token
        &&& forall|i: int| 0 <= i < self.rooms.len() ==> is_room_token(
            (#[trigger] self.rooms[i]).token,
        )
    }

    /// Some live room carries this token.
    pub open spec fn has_token(self, t: Seq<char>) -> bool {
        exists|i: int| 0 <= i < self.rooms.len() && (#[trigger] self.rooms[i]).token == t
    }

    /// Position of the room carrying this token (unique in a well-formed
    /// registry).
    pub open spec fn token_index(self, t: Seq<char>) -> int {
        choose|i: int| 0 <= i < self.rooms.len() && (#[trigger] self.rooms[i]).token == t
    }

    /// The room carrying this token.
    pub open spec fn room_of(self, t: Seq<char>) -> RoomModel {
        self.rooms[self.token_index(t)]
    }
}

/// Effect of one room creation on the registry: the counter advances, a
/// room that carried the same token (if any) is replaced — exactly as an
/// insert into the token-keyed map would replace it — and the new record is
/// appended with the freshly allocated id and its session handle.
pub open spec fn create_step(
    m: RegistryModel,
    name: Seq<char>,
    max_players: u32,
    time_limit_seconds: u32,
    tok: Seq<char>,
) -> RegistryModel {
    let kept = if m.has_token(tok) {
        m.rooms.remove(m.token_index(tok))
    } else {
        m.rooms
    };
    RegistryModel {
        next_id: (m.next_id + 1) as u32,
        rooms: kept.push(
            RoomModel {
                id: m.next_id,
                name,
                max_players,
                time_limit_seconds,
                token: tok,
                session: SessionHandle { session_id: m.next_id },
            },
        ),
    }
}

/// Request: create a room with the given metadata.
pub struct CreateRoom {
    pub name: String,
    pub max_players: u32,
    pub time_limit_seconds: u32,
}

/// Creation receipt: the allocated id rendered as a decimal string, the
/// echoed metadata and the token under which the room can be joined.
pub struct RoomCreated {
    pub id: String,
    pub name: String,
    pub max_players: u32,
    pub time_limit_seconds: u32,
    pub token: String,
}

/// Request: join the room carrying this token, with caller identity.
pub struct JoinRoom {
    pub room_token: String,
    pub api_key: String,
    pub team_name: String,
}

/// Successful join: the session handle of the room plus the caller-supplied
/// identity fields, unmodified.
#[derive(Debug)]
pub struct RoomJoined {
    pub game_addr: SessionHandle,
    pub room_token: String,
    pub api_key: String,
    pub team_name: String,
}

/// Request: list all live rooms.
pub struct ListRooms;

/// Snapshot of the live rooms, sorted ascending by id.
pub struct RoomList {
    pub rooms: Vec<RoomDetail>,
}

/// One row of the room listing.
pub struct RoomDetail {
    pub id: u32,
    pub name: String,
    pub max_players: u32,
    pub time_limit_seconds: u32,
    pub token: String,
}

/// How a registry operation can be rejected.
#[derive(Clone, Copy, PartialEq, Eq, Structural, Debug)]
pub enum RegistryError {
    /// The token names no live room.
    NotFound,
}

/// The registry actor: serializes every create, join and list request.
pub struct RoomActor {
    id_counter: u32,
    rooms: Vec<Room>,
}

impl View for RoomActor {
    type V = RegistryModel;

    closed spec fn view(&self) -> RegistryModel {
        RegistryModel {
            next_id: self.id_counter,
            rooms: Seq::new(self.rooms@.len(), |i: int| self.rooms@[i]@),
        }
    }
}

impl RoomActor {
    /// An empty registry: no rooms, ids start at zero.
    pub fn new() -> (r: RoomActor)
        ensures
            r@.wf(),
            r@.next_id == 0,
            r@.rooms == Seq::<RoomModel>::empty(),
    {
        let r = RoomActor { id_counter: 0, rooms: Vec::new() };
        proof {
            assert(r@.rooms =~= Seq::<RoomModel>::empty());
        }
        r
    }

    /// The id the next creation will allocate. Creation requires this to
    /// be below the counter's capacity; an unverified caller tests it
    /// here first.
    pub fn next_id(&self) -> (n: u32)
        ensures
            n == self@.next_id,
    {
        self.id_counter
    }

    /// Position of the room carrying `token`, if any, together with the
    /// fact that the position agrees with the model's `token_index`.
    fn find_token(&self, token: &String) -> (r: Option<usize>)
        requires
            self@.wf(),
        ensures
            r matches Some(i) ==> self@.has_token(token@) && i as int == self@.token_index(
                token@,
            ),
            r is None ==> !self@.has_token(token@),
    {
        let n = self.rooms.len();
        let mut i: usize = 0;
        while i < n
            invariant
                self@.wf(),
                0 <= i <= n,
                n == self@.rooms.len(),
                forall|j: int| 0 <= j < i ==> (#[trigger] self@.rooms[j]).token != token@,
            decreases n - i,
        {
            if self.rooms[i].token == *token {
                proof {
                    assert(self@.rooms[i as int].token == token@);
                    let k = self@.token_index(token@);
                    assert(0 <= k < self@.rooms.len() && self@.rooms[k].token == token@);
                    assert(k == i as int);
                }
                return Some(i);
            }
            i = i + 1;
        }
        proof {
            assert forall|j: int| 0 <= j < self@.rooms.len() implies (#[trigger] self@.rooms[j]).token
                != token@ by {}
        }
        None
    }

    /// Create a room: allocate the next id, draw a random token, start the
    /// session, record the room and return the creation receipt.
    pub fn create_room(&mut self, name: String, max_players: u32, time_limit_seconds: u32) -> (r:
        RoomCreated)
        requires
            old(self)@.wf(),
            old(self)@.next_id < u32::MAX,
        ensures
            final(self)@ == create_step(
                old(self)@,
                name@,
                max_players,
                time_limit_seconds,
                r.token@,
            ),
            final(self)@.wf(),
            is_room_token(r.token@),
            r.id@ == spec_decimal(old(self)@.next_id as nat),
            r.name@ == name@,
            r.max_players == max_players,
            r.time_limit_seconds == time_limit_seconds,
    {
        let ghost m0 = self@;
        let current_id_counter = self.id_counter;
        let token = random_token();
        let ghost kept: Seq<RoomModel>;
        match self.find_token(&token) {
            Some(i) => {
                self.rooms.remove(i);
                proof {
                    kept = m0.rooms.remove(m0.token_index(token@));
                    assert(Seq::new(self.rooms@.len(), |j: int| self.rooms@[j]@) =~= kept);
                }
            },
            None => {
                proof {
                    kept = m0.rooms;
                    assert(Seq::new(self.rooms@.len(), |j: int| self.rooms@[j]@) =~= kept);
                }
            },
        }
        let room = Room::new(
            current_id_counter,
            name.clone(),
            max_players,
            time_limit_seconds,
            token.clone(),
        );
        self.rooms.push(room);
        self.id_counter = current_id_counter + 1;
        proof {
            let mafter = create_step(m0, name@, max_players, time_limit_seconds, token@);
            assert(self@.rooms =~= mafter.rooms);
            assert(self@ == mafter);
            lemma_create_step_wf(m0, name@, max_players, time_limit_seconds, token@);
        }
        let id_string = u32_to_decimal(current_id_counter);
        RoomCreated { id: id_string, name, max_players, time_limit_seconds, token }
    }

    /// Look the token up; on a hit hand out the session handle of that room
    /// together with the caller-supplied identity fields, unmodified. The
    /// registry checks neither capacity nor identity: those are collaborator
    /// concerns, applied before this call.
    pub fn join_room(&self, msg: JoinRoom) -> (r: Result<RoomJoined, RegistryError>)
        requires
            self@.wf(),
        ensures
            r is Ok <==> self@.has_token(msg.room_token@),
            r is Ok ==> {
                let j = r->Ok_0;
                &&& j.game_addr == self@.room_of(msg.room_token@).session
                &&& j.room_token@ == msg.room_token@
                &&& j.api_key@ == msg.api_key@
                &&& j.team_name@ == msg.team_name@
            },
            r is Err ==> r->Err_0 == RegistryError::NotFound,
    {
        match self.find_token(&msg.room_token) {
            Some(i) => {
                proof {
                    let k = self@.token_index(msg.room_token@);
                    assert(0 <= k < self@.rooms.len() && self@.rooms[k].token == msg.room_token@);
                    assert(i as int == k);
                    assert(self@.rooms[k] == self.rooms@[k]@);
                }
                let room = &self.rooms[i];
                Ok(
                    RoomJoined {
                        game_addr: room.game,
                        room_token: msg.room_token,
                        api_key: msg.api_key,
                        team_name: msg.team_name,
                    },
                )
            },
            None => Err(RegistryError::NotFound),
        }
    }

    /// Snapshot every live room, sorted ascending by id. Well-formedness
    /// keeps the records in creation order, which is id order.
    pub fn list_rooms(&self, _msg: ListRooms) -> (r: RoomList)
        requires
            self@.wf(),
        ensures
            r.rooms@.len() == self@.rooms.len(),
            forall|i: int| 0 <= i < self@.rooms.len() ==> {
                let d = #[trigger] r.rooms@[i];
                &&& d.id == self@.rooms[i].id
                &&& d.name@ == self@.rooms[i].name
                &&& d.max_players == self@.rooms[i].max_players
                &&& d.time_limit_seconds == self@.rooms[i].time_limit_seconds
                &&& d.token@ == self@.rooms[i].token
            },
            forall|i: int, j: int|
                0 <= i < j < r.rooms@.len() ==> r.rooms@[i].id < r.rooms@[j].id,
    {
        let n = self.rooms.len();
        let mut details: Vec<RoomDetail> = Vec::new();
        let mut i: usize = 0;
        while i < n
            invariant
                self@.wf(),
                0 <= i <= n,
                n == self@.rooms.len(),
                details@.len() == i,
                forall|k: int| 0 <= k < i ==> {
                    let d = #[trigger] details@[k];
                    &&& d.id == self@.rooms[k].id
                    &&& d.name@ == self@.rooms[k].name
                    &&& d.max_players == self@.rooms[k].max_players
                    &&& d.time_limit_seconds == self@.rooms[k].time_limit_seconds
                    &&& d.token@ == self@.rooms[k].token
                },
            decreases n - i,
        {
            let room = &self.rooms[i];
            details.push(
                RoomDetail {
                    id: room.id,
                    name: room.name.clone(),
                    max_players: room.max_players,
                    time_limit_seconds: room.time_limit_seconds,
                    token: room.token.clone(),
                },
            );
            i = i + 1;
        }
        RoomList { rooms: details }
    }
}

/// Creation preserves well-formedness, and the id it hands out strictly
/// exceeds every id already present: across any sequence of creations the
/// returned ids are pairwise distinct and strictly increasing in completion
/// order.
pub proof fn lemma_create_step_wf(
    m: RegistryModel,
    name: Seq<char>,
    max_players: u32,
    time_limit_seconds: u32,
    tok: Seq<char>,
)
    requires
        m.wf(),
        m.next_id < u32::MAX,
        is_room_token(tok),
    ensures
        create_step(m, name, max_players, time_limit_seconds, tok).wf(),
        create_step(m, name, max_players, time_limit_seconds, tok).next_id == m.next_id + 1,
        forall|i: int| 0 <= i < m.rooms.len() ==> (#[trigger] m.rooms[i]).id < m.next_id,
{
    let m1 = create_step(m, name, max_players, time_limit_seconds, tok);
    let kept = if m.has_token(tok) {
        m.rooms.remove(m.token_index(tok))
    } else {
        m.rooms
    };
    assert forall|i: int| 0 <= i < kept.len() implies exists|j: int|
        0 <= j < m.rooms.len() && #[trigger] kept[i] == m.rooms[j] && i <= j by {
        if m.has_token(tok) {
            let k = m.token_index(tok);
            if i < k {
                assert(kept[i] == m.rooms[i]);
            } else {
                assert(kept[i] == m.rooms[i + 1]);
            }
        } else {
            assert(kept[i] == m.rooms[i]);
        }
    }
    assert forall|i: int| 0 <= i < kept.len() implies (#[trigger] kept[i]).token != tok by {
        if m.has_token(tok) {
            let k = m.token_index(tok);
            assert(0 <= k < m.rooms.len() && m.rooms[k].token == tok);
            if i < k {
                assert(kept[i] == m.rooms[i]);
            } else {
                assert(kept[i] == m.rooms[i + 1]);
            }
        } else {
            assert(kept[i] == m.rooms[i]);
            assert(!(exists|j: int|
                0 <= j < m.rooms.len() && (#[trigger] m.rooms[j]).token == tok));
        }
    }
    assert forall|i: int, j: int| 0 <= i < j < m1.rooms.len() implies m1.rooms[i].id
        < m1.rooms[j].id by {
        if m.has_token(tok) {
            let k = m.token_index(tok);
            if j < m1.rooms.len() - 1 {
                if i < k && j < k {
                } else if i < k {
                    assert(kept[j] == m.rooms[j + 1]);
                } else {
                    assert(kept[i] == m.rooms[i + 1]);
                    assert(kept[j] == m.rooms[j + 1]);
                }
            }
        }
    }
    assert forall|i: int, j: int|
        0 <= i < m1.rooms.len() && 0 <= j < m1.rooms.len() && i != j implies m1.rooms[i].token
        != m1.rooms[j].token by {
        if i < m1.rooms.len() - 1 && j < m1.rooms.len() - 1 {
            if m.has_token(tok) {
                let k = m.token_index(tok);
                let i2 = if i < k { i } else { i + 1 };
                let j2 = if j < k { j } else { j + 1 };
                assert(kept[i] == m.rooms[i2]);
                assert(kept[j] == m.rooms[j2]);
            }
        }
    }
}

/// Two creations completing one after the other hand out strictly
/// increasing ids: the first receipt carries `m.next_id`, and the second,
/// on the registry the first one left, carries `m.next_id + 1`.
pub proof fn lemma_successive_created_ids(
    m: RegistryModel,
    name1: Seq<char>,
    max_players1: u32,
    time_limit_seconds1: u32,
    tok1: Seq<char>,
)
    requires
        m.next_id < u32::MAX,
    ensures
        m.next_id < create_step(m, name1, max_players1, time_limit_seconds1, tok1).next_id,
{
}

/// Ids of live rooms are pairwise distinct in any well-formed registry.
pub proof fn lemma_room_ids_distinct(m: RegistryModel)
    requires
        m.wf(),
    ensures
        forall|i: int, j: int|
            0 <= i < m.rooms.len() && 0 <= j < m.rooms.len() && i != j ==> m.rooms[i].id
                != m.rooms[j].id,
{
    assert forall|i: int, j: int|
        0 <= i < m.rooms.len() && 0 <= j < m.rooms.len() && i != j implies m.rooms[i].id
        != m.rooms[j].id by {
        if i < j {
            assert(m.rooms[i].id < m.rooms[j].id);
        } else {
            assert(m.rooms[j].id < m.rooms[i].id);
        }
    }
}

/// Creation introduces no token besides the one in its receipt: a token
/// never handed out by a prior successful creation stays absent, so a join
/// with it keeps failing with `NotFound`.
pub proof fn lemma_create_adds_only_its_token(
    m: RegistryModel,
    name: Seq<char>,
    max_players: u32,
    time_limit_seconds: u32,
    tok: Seq<char>,
    t: Seq<char>,
)
    requires
        m.wf(),
        t != tok,
    ensures
        create_step(m, name, max_players, time_limit_seconds, tok).has_token(t) == m.has_token(t),
{
    let m1 = create_step(m, name, max_players, time_limit_seconds, tok);
    let kept = if m.has_token(tok) {
        m.rooms.remove(m.token_index(tok))
    } else {
        m.rooms
    };
    if m1.has_token(t) {
        let i = choose|i: int| 0 <= i < m1.rooms.len() && (#[trigger] m1.rooms[i]).token == t;
        assert(i < m1.rooms.len() - 1);
        if m.has_token(tok) {
            let k = m.token_index(tok);
            if i < k {
                assert(m.rooms[i].token == t);
            } else {
                assert(m.rooms[i + 1].token == t);
            }
        } else {
            assert(m.rooms[i].token == t);
        }
        assert(m.has_token(t));
    }
    if m.has_token(t) {
        let i = choose|i: int| 0 <= i < m.rooms.len() && (#[trigger] m.rooms[i]).token == t;
        if m.has_token(tok) {
            let k = m.token_index(tok);
            assert(m.rooms[k].token == tok);
            assert(i != k);
            if i < k {
                assert(kept[i] == m.rooms[i]);
                assert(m1.rooms[i].token == t);
            } else {
                assert(kept[i - 1] == m.rooms[i]);
                assert(m1.rooms[i - 1].token == t);
            }
        } else {
            assert(m1.rooms[i].token == t);
        }
        assert(m1.has_token(t));
    }
}

/// The room a creation records is found again under its token: joining
/// with the token of the receipt yields exactly the session handle that
/// the creation associated with the room.
pub proof fn lemma_join_finds_created_session(
    m: RegistryModel,
    name: Seq<char>,
    max_players: u32,
    time_limit_seconds: u32,
    tok: Seq<char>,
)
    requires
        m.wf(),
        m.next_id < u32::MAX,
        is_room_token(tok),
    ensures
        create_step(m, name, max_players, time_limit_seconds, tok).has_token(tok),
        create_step(m, name, max_players, time_limit_seconds, tok).room_of(tok) == (RoomModel {
            id: m.next_id,
            name,
            max_players,
            time_limit_seconds,
            token: tok,
            session: SessionHandle { session_id: m.next_id },
        }),
{
    lemma_create_step_wf(m, name, max_players, time_limit_seconds, tok);
    let m1 = create_step(m, name, max_players, time_limit_seconds, tok);
    let last = m1.rooms.len() - 1;
    assert(m1.rooms[last].token == tok);
    assert(m1.has_token(tok));
    let k = m1.token_index(tok);
    assert(0 <= k < m1.rooms.len() && m1.rooms[k].token == tok);
    assert(k == last);
}

} // verus!

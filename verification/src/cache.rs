//! The cache command surface and its store semantics.
//!
//! Room metadata is mirrored, best effort, into an external key-value
//! store: per room token a hash of string fields under `room:{token}` and a
//! presence set of player keys under `room:{token}:players`. This module
//! gives the command structs of that surface, the key layout, and a store
//! that carries out each command on an in-memory mirror with the exact
//! field-map and member-set semantics the commands rely on. The process
//! boundary that speaks the store's wire protocol executes the same
//! commands against the external store; the mirror here is authoritative
//! for what each command means.

use vstd::prelude::*;
use vstd::string::StringExecFns;

verus! {

/// Read one hash field of a room mirror.
pub struct GetRoomFieldCommand {
    pub room_token: String,
    pub field: String,
}

/// Write one hash field of a room mirror.
pub struct UpdateRoomFieldCommand {
    pub room_token: String,
    pub field: String,
    pub value: String,
}

/// Bulk-write several hash fields of a room mirror in one request.
pub struct SetRoomCommand {
    pub room_token: String,
    pub fields: Vec<(String, String)>,
}

/// Query the cardinality of a room's presence set.
pub struct GetRoomSizeCommand {
    pub room_token: String,
}

/// Add a player key to a room's presence set.
pub struct AddRoomPlayerCommand {
    pub room_token: String,
    pub player_key: String,
}

/// Remove a player key from a room's presence set.
pub struct RemoveRoomPlayerCommand {
    pub room_token: String,
    pub player_key: String,
}

/// How a cache read can fail against the mirror itself.
#[derive(Clone, Copy, PartialEq, Eq, Structural, Debug)]
pub enum CacheError {
    /// The room or the field is not present in the store.
    Missing,
}

/// Key of the hash that mirrors a room's metadata fields.
pub fn room_key(token: &str) -> (r: String)
    ensures
        r@ == "room:"@ + token@,
{
    let mut s = "room:".to_owned();
    s.append(token);
    s
}

/// Key of the set that tracks a room's present players.
pub fn room_players_key(token: &str) -> (r: String)
    ensures
        r@ == "room:"@ + token@ + ":players"@,
{
    let mut s = "room:".to_owned();
    s.append(token);
    s.append(":players");
    s
}

/// Mathematical image of one room mirror: its field map and presence set.
#[verifier::ext_equal]
pub struct MirrorModel {
    pub fields: Map<Seq<char>, Seq<char>>,
    pub players: Set<Seq<char>>,
}

impl MirrorModel {
    /// A mirror with nothing written yet.
    pub open spec fn empty() -> MirrorModel {
        MirrorModel { fields: Map::empty(), players: Set::empty() }
    }
}

/// The mirror recorded under a token, or an empty one: writes against an
/// absent key create it, reads of an absent key see nothing.
pub open spec fn mirror_of(m: Map<Seq<char>, MirrorModel>, tok: Seq<char>) -> MirrorModel {
    if m.contains_key(tok) {
        m[tok]
    } else {
        MirrorModel::empty()
    }
}

/// The map described by an association list, later entries winning.
pub open spec fn assoc_model<K: View, V: View>(s: Seq<(K, V)>) -> Map<K::V, V::V>
    decreases s.len(),
{
    if s.len() == 0 {
        Map::empty()
    } else {
        assoc_model(s.drop_last()).insert(s.last().0@, s.last().1@)
    }
}

/// The set described by a list of members.
pub open spec fn members_model<T: View>(s: Seq<T>) -> Set<T::V>
    decreases s.len(),
{
    if s.len() == 0 {
        Set::empty()
    } else {
        members_model(s.drop_last()).insert(s.last()@)
    }
}

proof fn lemma_assoc_absent<K: View, V: View>(s: Seq<(K, V)>, k: K::V)
    requires
        forall|i: int| 0 <= i < s.len() ==> (#[trigger] s[i]).0@ != k,
    ensures
        !assoc_model(s).contains_key(k),
    decreases s.len(),
{
    if s.len() > 0 {
        lemma_assoc_absent(s.drop_last(), k);
    }
}

proof fn lemma_assoc_found<K: View, V: View>(s: Seq<(K, V)>, i: int)
    requires
        0 <= i < s.len(),
        forall|j: int| i < j < s.len() ==> (#[trigger] s[j]).0@ != s[i].0@,
    ensures
        assoc_model(s).contains_key(s[i].0@),
        assoc_model(s)[s[i].0@] == s[i].1@,
    decreases s.len(),
{
    if i == s.len() - 1 {
    } else {
        lemma_assoc_found(s.drop_last(), i);
    }
}

proof fn lemma_assoc_remove<K: View, V: View>(s: Seq<(K, V)>, i: int)
    requires
        0 <= i < s.len(),
        forall|j: int| 0 <= j < s.len() && j != i ==> (#[trigger] s[j]).0@ != s[i].0@,
    ensures
        assoc_model(s.remove(i)) == assoc_model(s).remove(s[i].0@),
    decreases s.len(),
{
    if i == s.len() - 1 {
        assert(s.remove(i) =~= s.drop_last());
        lemma_assoc_absent(s.drop_last(), s[i].0@);
        assert(assoc_model(s.drop_last()) =~= assoc_model(s.drop_last()).insert(
            s.last().0@,
            s.last().1@,
        ).remove(s[i].0@));
    } else {
        lemma_assoc_remove(s.drop_last(), i);
        assert(s.remove(i).drop_last() =~= s.drop_last().remove(i));
        assert(s.remove(i).last() == s.last());
        assert(assoc_model(s.remove(i)) == assoc_model(s.drop_last().remove(i)).insert(
            s.last().0@,
            s.last().1@,
        ));
        assert(assoc_model(s.drop_last()).remove(s[i].0@).insert(s.last().0@, s.last().1@)
            =~= assoc_model(s.drop_last()).insert(s.last().0@, s.last().1@).remove(s[i].0@));
    }
}

proof fn lemma_members_absent<T: View>(s: Seq<T>, e: T::V)
    requires
        forall|i: int| 0 <= i < s.len() ==> (#[trigger] s[i])@ != e,
    ensures
        !members_model(s).contains(e),
    decreases s.len(),
{
    if s.len() > 0 {
        lemma_members_absent(s.drop_last(), e);
    }
}

proof fn lemma_members_found<T: View>(s: Seq<T>, i: int)
    requires
        0 <= i < s.len(),
    ensures
        members_model(s).contains(s[i]@),
    decreases s.len(),
{
    if i == s.len() - 1 {
    } else {
        lemma_members_found(s.drop_last(), i);
    }
}

proof fn lemma_members_remove<T: View>(s: Seq<T>, i: int)
    requires
        0 <= i < s.len(),
        forall|j: int| 0 <= j < s.len() && j != i ==> (#[trigger] s[j])@ != s[i]@,
    ensures
        members_model(s.remove(i)) == members_model(s).remove(s[i]@),
    decreases s.len(),
{
    if i == s.len() - 1 {
        assert(s.remove(i) =~= s.drop_last());
        lemma_members_absent(s.drop_last(), s[i]@);
        assert(members_model(s.drop_last()) =~= members_model(s.drop_last()).insert(
            s.last()@,
        ).remove(s[i]@));
    } else {
        lemma_members_remove(s.drop_last(), i);
        assert(s.remove(i).drop_last() =~= s.drop_last().remove(i));
        assert(s.remove(i).last() == s.last());
        assert(members_model(s.drop_last()).remove(s[i]@).insert(s.last()@) =~= members_model(
            s.drop_last(),
        ).insert(s.last()@).remove(s[i]@));
    }
}

proof fn lemma_members_card<T: View>(s: Seq<T>)
    requires
        forall|i: int, j: int|
            0 <= i < s.len() && 0 <= j < s.len() && i != j ==> (#[trigger] s[i])@ != (
            #[trigger] s[j])@,
    ensures
        members_model(s).finite(),
        members_model(s).len() == s.len(),
    decreases s.len(),
{
    if s.len() > 0 {
        lemma_members_card(s.drop_last());
        lemma_members_absent(s.drop_last(), s.last()@);
    }
}

/// Round trip of a bulk write: a field just written by `set_room` is read
/// back by `get_room_field` exactly as written, whatever the store held
/// under the token before.
pub proof fn lemma_set_then_get(
    m: Map<Seq<char>, MirrorModel>,
    tok: Seq<char>,
    pairs: Seq<(String, String)>,
    f: Seq<char>,
)
    requires
        assoc_model(pairs).contains_key(f),
    ensures
        ({
            let m1 = m.insert(
                tok,
                MirrorModel {
                    fields: mirror_of(m, tok).fields.union_prefer_right(assoc_model(pairs)),
                    players: mirror_of(m, tok).players,
                },
            );
            &&& m1.contains_key(tok)
            &&& m1[tok].fields.contains_key(f)
            &&& m1[tok].fields[f] == assoc_model(pairs)[f]
        }),
{
}

/// Presence-set counting: adding an absent player key grows the
/// cardinality by one, adding a present key leaves it unchanged (set
/// semantics, a key added twice counts once), and removing a present key
/// shrinks it by one.
pub proof fn lemma_presence_counting(m: Map<Seq<char>, MirrorModel>, tok: Seq<char>, key: Seq<char>)
    requires
        mirror_of(m, tok).players.finite(),
    ensures
        ({
            let p = mirror_of(m, tok).players;
            let after_add = m.insert(
                tok,
                MirrorModel { fields: mirror_of(m, tok).fields, players: p.insert(key) },
            );
            let after_remove = m.insert(
                tok,
                MirrorModel { fields: mirror_of(m, tok).fields, players: p.remove(key) },
            );
            &&& !p.contains(key) ==> mirror_of(after_add, tok).players.len() == p.len() + 1
            &&& p.contains(key) ==> mirror_of(after_add, tok).players.len() == p.len()
            &&& p.contains(key) ==> mirror_of(after_remove, tok).players.len() == p.len() - 1
            &&& mirror_of(after_add, tok).players.insert(key) == mirror_of(after_add, tok).players
        }),
{
    let p = mirror_of(m, tok).players;
    vstd::set::axiom_set_insert_len(p, key);
    vstd::set::axiom_set_remove_len(p, key);
    assert(p.insert(key).insert(key) =~= p.insert(key));
}

/// One room's mirror: its hash fields and its presence set.
struct CacheRoom {
    fields: Vec<(String, String)>,
    players: Vec<String>,
}

impl View for CacheRoom {
    type V = MirrorModel;

    closed spec fn view(&self) -> MirrorModel {
        MirrorModel { fields: assoc_model(self.fields@), players: members_model(self.players@) }
    }
}

impl CacheRoom {
    /// Field names and player keys each occur at most once.
    spec fn inv(&self) -> bool {
        &&& forall|i: int, j: int|
            0 <= i < self.fields@.len() && 0 <= j < self.fields@.len() && i != j ==> (
            #[trigger] self.fields@[i]).0@ != (#[trigger] self.fields@[j]).0@
        &&& forall|i: int, j: int|
            0 <= i < self.players@.len() && 0 <= j < self.players@.len() && i != j ==> (
            #[trigger] self.players@[i])@ != (#[trigger] self.players@[j])@
    }

    fn empty() -> (r: CacheRoom)
        ensures
            r.inv(),
            r@ == MirrorModel::empty(),
    {
        let r = CacheRoom { fields: Vec::new(), players: Vec::new() };
        proof {
            assert(r@.fields =~= Map::<Seq<char>, Seq<char>>::empty());
            assert(r@.players =~= Set::<Seq<char>>::empty());
        }
        r
    }

    /// Position of a field by name, with no later occurrence of the name.
    fn find_field(&self, field: &String) -> (r: Option<usize>)
        ensures
            r matches Some(i) ==> 0 <= i < self.fields@.len() && self.fields@[i as int].0@
                == field@ && (forall|j: int|
                i < j < self.fields@.len() ==> (#[trigger] self.fields@[j]).0@ != field@),
            r is None ==> forall|i: int|
                0 <= i < self.fields@.len() ==> (#[trigger] self.fields@[i]).0@ != field@,
    {
        let n = self.fields.len();
        let mut i: usize = n;
        while i > 0
            invariant
                0 <= i <= n,
                n == self.fields@.len(),
                forall|j: int| i <= j < n ==> (#[trigger] self.fields@[j]).0@ != field@,
            decreases i,
        {
            i = i - 1;
            if self.fields[i].0 == *field {
                return Some(i);
            }
        }
        None
    }

    fn find_player(&self, key: &String) -> (r: Option<usize>)
        ensures
            r matches Some(i) ==> 0 <= i < self.players@.len() && self.players@[i as int]@
                == key@,
            r is None ==> forall|i: int|
                0 <= i < self.players@.len() ==> (#[trigger] self.players@[i])@ != key@,
    {
        let n = self.players.len();
        let mut i: usize = 0;
        while i < n
            invariant
                0 <= i <= n,
                n == self.players@.len(),
                forall|j: int| 0 <= j < i ==> (#[trigger] self.players@[j])@ != key@,
            decreases n - i,
        {
            if self.players[i] == *key {
                return Some(i);
            }
            i = i + 1;
        }
        None
    }

    /// Write one field: overwrite the recorded value or append the name.
    fn upsert_field(&mut self, field: String, value: String)
        requires
            old(self).inv(),
        ensures
            final(self).inv(),
            final(self)@ == (MirrorModel {
                fields: old(self)@.fields.insert(field@, value@),
                players: old(self)@.players,
            }),
    {
        let ghost f0 = self.fields@;
        match self.find_field(&field) {
            Some(i) => {
                proof {
                    lemma_assoc_remove(f0, i as int);
                }
                self.fields.remove(i);
                self.fields.push((field, value));
                proof {
                    assert(self.fields@.drop_last() =~= f0.remove(i as int));
                    assert(assoc_model(self.fields@) =~= assoc_model(f0).insert(
                        self.fields@.last().0@,
                        self.fields@.last().1@,
                    ));
                }
            },
            None => {
                self.fields.push((field, value));
                proof {
                    assert(self.fields@.drop_last() =~= f0);
                }
            },
        }
    }

    /// Add a member: set semantics, a present key is left alone.
    fn add_player(&mut self, key: String)
        requires
            old(self).inv(),
        ensures
            final(self).inv(),
            final(self)@ == (MirrorModel {
                fields: old(self)@.fields,
                players: old(self)@.players.insert(key@),
            }),
    {
        let ghost p0 = self.players@;
        match self.find_player(&key) {
            Some(i) => {
                proof {
                    lemma_members_found(p0, i as int);
                    assert(members_model(p0) =~= members_model(p0).insert(key@));
                }
            },
            None => {
                self.players.push(key);
                proof {
                    assert(self.players@.drop_last() =~= p0);
                }
            },
        }
    }

    /// Remove a member: an absent key leaves the set unchanged.
    fn remove_player(&mut self, key: String)
        requires
            old(self).inv(),
        ensures
            final(self).inv(),
            final(self)@ == (MirrorModel {
                fields: old(self)@.fields,
                players: old(self)@.players.remove(key@),
            }),
    {
        let ghost p0 = self.players@;
        match self.find_player(&key) {
            Some(i) => {
                proof {
                    lemma_members_remove(p0, i as int);
                }
                self.players.remove(i);
            },
            None => {
                proof {
                    lemma_members_absent(p0, key@);
                    assert(members_model(p0) =~= members_model(p0).remove(key@));
                }
            },
        }
    }
}

/// An in-memory store keyed by room token, carrying out the cache command
/// surface with the store's field-map and member-set semantics.
pub struct CacheStore {
    rooms: Vec<(String, CacheRoom)>,
}

impl View for CacheStore {
    type V = Map<Seq<char>, MirrorModel>;

    closed spec fn view(&self) -> Map<Seq<char>, MirrorModel> {
        assoc_model(self.rooms@)
    }
}

impl CacheStore {
    /// Tokens occur at most once, and every mirror is internally unique.
    pub closed spec fn inv(&self) -> bool {
        &&& forall|i: int, j: int|
            0 <= i < self.rooms@.len() && 0 <= j < self.rooms@.len() && i != j ==> (
            #[trigger] self.rooms@[i]).0@ != (#[trigger] self.rooms@[j]).0@
        &&& forall|i: int| 0 <= i < self.rooms@.len() ==> (#[trigger] self.rooms@[i]).1.inv()
    }

    /// An empty store.
    pub fn new() -> (r: CacheStore)
        ensures
            r.inv(),
            r@ == Map::<Seq<char>, MirrorModel>::empty(),
    {
        let r = CacheStore { rooms: Vec::new() };
        proof {
            assert(r@ =~= Map::<Seq<char>, MirrorModel>::empty());
        }
        r
    }

    /// Position of a token, with no later occurrence of it.
    fn find_room(&self, token: &String) -> (r: Option<usize>)
        ensures
            r matches Some(i) ==> 0 <= i < self.rooms@.len() && self.rooms@[i as int].0@
                == token@ && (forall|j: int|
                i < j < self.rooms@.len() ==> (#[trigger] self.rooms@[j]).0@ != token@),
            r is None ==> forall|i: int|
                0 <= i < self.rooms@.len() ==> (#[trigger] self.rooms@[i]).0@ != token@,
    {
        let n = self.rooms.len();
        let mut i: usize = n;
        while i > 0
            invariant
                0 <= i <= n,
                n == self.rooms@.len(),
                forall|j: int| i <= j < n ==> (#[trigger] self.rooms@[j]).0@ != token@,
            decreases i,
        {
            i = i - 1;
            if self.rooms[i].0 == *token {
                return Some(i);
            }
        }
        None
    }

    /// Take the mirror of a token out of the store, or start an empty one:
    /// the store afterwards has no entry for the token.
    fn take_room(&mut self, token: &String) -> (r: CacheRoom)
        requires
            old(self).inv(),
        ensures
            final(self).inv(),
            r.inv(),
            r@ == mirror_of(old(self)@, token@),
            final(self)@ == old(self)@.remove(token@),
            forall|j: int|
                0 <= j < final(self).rooms@.len() ==> (#[trigger] final(self).rooms@[j]).0@
                    != token@,
    {
        let ghost r0 = self.rooms@;
        match self.find_room(token) {
            Some(i) => {
                proof {
                    lemma_assoc_found(r0, i as int);
                    lemma_assoc_remove(r0, i as int);
                }
                let (_, room) = self.rooms.remove(i);
                room
            },
            None => {
                proof {
                    lemma_assoc_absent(r0, token@);
                    assert(self@ =~= self@.remove(token@));
                }
                CacheRoom::empty()
            },
        }
    }

    /// Put a mirror back under a token that is absent from the store.
    fn put_room(&mut self, token: String, room: CacheRoom)
        requires
            old(self).inv(),
            room.inv(),
            forall|j: int|
                0 <= j < old(self).rooms@.len() ==> (#[trigger] old(self).rooms@[j]).0@
                    != token@,
        ensures
            final(self).inv(),
            final(self)@ == old(self)@.insert(token@, room@),
    {
        let ghost r0 = self.rooms@;
        let ghost tok = token@;
        let ghost mirror = room@;
        self.rooms.push((token, room));
        proof {
            assert(self.rooms@.drop_last() =~= r0);
            assert(self.rooms@.last().0@ == tok);
            assert(self.rooms@.last().1@ == mirror);
            assert(self@ == assoc_model(r0).insert(tok, mirror));
        }
    }

    /// Read one hash field under `room:{token}`: fails when neither the
    /// room nor the field has ever been written.
    pub fn get_room_field(&self, msg: &GetRoomFieldCommand) -> (r: Result<String, CacheError>)
        requires
            self.inv(),
        ensures
            (self@.contains_key(msg.room_token@) && self@[msg.room_token@].fields.contains_key(
                msg.field@,
            )) ==> (r matches Ok(v) && v@ == self@[msg.room_token@].fields[msg.field@]),
            !(self@.contains_key(msg.room_token@) && self@[msg.room_token@].fields.contains_key(
                msg.field@,
            )) ==> r == Err::<String, CacheError>(CacheError::Missing),
    {
        match self.find_room(&msg.room_token) {
            Some(i) => {
                proof {
                    lemma_assoc_found(self.rooms@, i as int);
                }
                let room = &self.rooms[i].1;
                match room.find_field(&msg.field) {
                    Some(fi) => {
                        proof {
                            lemma_assoc_found(room.fields@, fi as int);
                        }
                        Ok(room.fields[fi].1.clone())
                    },
                    None => {
                        proof {
                            lemma_assoc_absent(room.fields@, msg.field@);
                        }
                        Err(CacheError::Missing)
                    },
                }
            },
            None => {
                proof {
                    lemma_assoc_absent(self.rooms@, msg.room_token@);
                }
                Err(CacheError::Missing)
            },
        }
    }

    /// Write one hash field under `room:{token}`, creating the mirror if
    /// the token was never written.
    pub fn update_room_field(&mut self, msg: UpdateRoomFieldCommand)
        requires
            old(self).inv(),
        ensures
            final(self).inv(),
            final(self)@ == old(self)@.insert(
                msg.room_token@,
                MirrorModel {
                    fields: mirror_of(old(self)@, msg.room_token@).fields.insert(
                        msg.field@,
                        msg.value@,
                    ),
                    players: mirror_of(old(self)@, msg.room_token@).players,
                },
            ),
    {
        let ghost m0 = self@;
        let mut room = self.take_room(&msg.room_token);
        room.upsert_field(msg.field, msg.value);
        self.put_room(msg.room_token, room);
        proof {
            assert(final(self)@ =~= m0.insert(
                msg.room_token@,
                MirrorModel {
                    fields: mirror_of(m0, msg.room_token@).fields.insert(msg.field@, msg.value@),
                    players: mirror_of(m0, msg.room_token@).players,
                },
            ));
        }
    }

    /// Bulk-write hash fields under `room:{token}` in one request, in
    /// order, later entries winning; used at room creation to seed the
    /// mirror.
    pub fn set_room(&mut self, msg: SetRoomCommand)
        requires
            old(self).inv(),
        ensures
            final(self).inv(),
            final(self)@ == old(self)@.insert(
                msg.room_token@,
                MirrorModel {
                    fields: mirror_of(old(self)@, msg.room_token@).fields.union_prefer_right(
                        assoc_model(msg.fields@),
                    ),
                    players: mirror_of(old(self)@, msg.room_token@).players,
                },
            ),
    {
        let ghost m0 = self@;
        let ghost pairs = msg.fields@;
        let mut room = self.take_room(&msg.room_token);
        let ghost base = room@.fields;
        let n = msg.fields.len();
        let mut k: usize = 0;
        while k < n
            invariant
                room.inv(),
                0 <= k <= n,
                n == pairs.len(),
                msg.fields@ == pairs,
                room@.players == mirror_of(m0, msg.room_token@).players,
                room@.fields == base.union_prefer_right(assoc_model(pairs.take(k as int))),
            decreases n - k,
        {
            let f = msg.fields[k].0.clone();
            let v = msg.fields[k].1.clone();
            proof {
                assert(pairs.take(k as int + 1).drop_last() =~= pairs.take(k as int));
                assert(pairs.take(k as int + 1).last() == pairs[k as int]);
                assert(base.union_prefer_right(assoc_model(pairs.take(k as int))).insert(
                    pairs[k as int].0@,
                    pairs[k as int].1@,
                ) =~= base.union_prefer_right(assoc_model(pairs.take(k as int + 1))));
            }
            room.upsert_field(f, v);
            k = k + 1;
        }
        proof {
            assert(pairs.take(n as int) =~= pairs);
        }
        self.put_room(msg.room_token, room);
        proof {
            assert(final(self)@ =~= m0.insert(
                msg.room_token@,
                MirrorModel {
                    fields: mirror_of(m0, msg.room_token@).fields.union_prefer_right(
                        assoc_model(pairs),
                    ),
                    players: mirror_of(m0, msg.room_token@).players,
                },
            ));
        }
    }

    /// Cardinality of the presence set under `room:{token}:players`; an
    /// unwritten set is empty.
    pub fn get_room_size(&self, msg: &GetRoomSizeCommand) -> (n: usize)
        requires
            self.inv(),
        ensures
            n == mirror_of(self@, msg.room_token@).players.len(),
            mirror_of(self@, msg.room_token@).players.finite(),
    {
        match self.find_room(&msg.room_token) {
            Some(i) => {
                proof {
                    lemma_assoc_found(self.rooms@, i as int);
                    lemma_members_card(self.rooms@[i as int].1.players@);
                }
                self.rooms[i].1.players.len()
            },
            None => {
                proof {
                    lemma_assoc_absent(self.rooms@, msg.room_token@);
                    assert(mirror_of(self@, msg.room_token@).players.len() == 0);
                }
                0
            },
        }
    }

    /// Add a player key to the presence set: store-side atomic, set
    /// semantics, so a key added twice counts once.
    pub fn add_room_player(&mut self, msg: AddRoomPlayerCommand)
        requires
            old(self).inv(),
        ensures
            final(self).inv(),
            final(self)@ == old(self)@.insert(
                msg.room_token@,
                MirrorModel {
                    fields: mirror_of(old(self)@, msg.room_token@).fields,
                    players: mirror_of(old(self)@, msg.room_token@).players.insert(
                        msg.player_key@,
                    ),
                },
            ),
    {
        let ghost m0 = self@;
        let mut room = self.take_room(&msg.room_token);
        room.add_player(msg.player_key);
        self.put_room(msg.room_token, room);
        proof {
            assert(final(self)@ =~= m0.insert(
                msg.room_token@,
                MirrorModel {
                    fields: mirror_of(m0, msg.room_token@).fields,
                    players: mirror_of(m0, msg.room_token@).players.insert(msg.player_key@),
                },
            ));
        }
    }

    /// Remove a player key from the presence set.
    pub fn remove_room_player(&mut self, msg: RemoveRoomPlayerCommand)
        requires
            old(self).inv(),
        ensures
            final(self).inv(),
            final(self)@ == old(self)@.insert(
                msg.room_token@,
                MirrorModel {
                    fields: mirror_of(old(self)@, msg.room_token@).fields,
                    players: mirror_of(old(self)@, msg.room_token@).players.remove(
                        msg.player_key@,
                    ),
                },
            ),
    {
        let ghost m0 = self@;
        let mut room = self.take_room(&msg.room_token);
        room.remove_player(msg.player_key);
        self.put_room(msg.room_token, room);
        proof {
            assert(final(self)@ =~= m0.insert(
                msg.room_token@,
                MirrorModel {
                    fields: mirror_of(m0, msg.room_token@).fields,
                    players: mirror_of(m0, msg.room_token@).players.remove(msg.player_key@),
                },
            ));
        }
    }
}

} // verus!

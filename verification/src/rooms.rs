//! The room engine: per-room state, its invariants, and the mutations the
//! HTTP handlers perform under the registry lock. Every mutation publishes
//! a small action event on the room's bus; events carry only the
//! originator and an action tag, never content.

use vstd::prelude::*;
use vstd::utf8::encode_utf8;

use crate::bus::{bus_channel, bus_publish};
use crate::kvmap::KvMap;
use crate::templates::{RoomTemplate, SetNameTemplate};
use crate::utils::{name_to_color, spec_name_to_color};

verus! {

/// The server-side cap on one message's size, in UTF-8 bytes.
pub const MAX_MESSAGE_SIZE: usize = 4000;

/// Path parameter naming a room.
pub struct RoomParams {
    pub room_id: String,
}

/// Body of a typing update or a message submission.
pub struct TypingRequest {
    pub message: String,
}

/// Body of a set-name request.
pub struct SetNameRequest {
    pub name: String,
}

/// Query parameters giving a new room's lifetime.
pub struct ExpirationParams {
    pub hours: Option<u64>,
    pub minutes: Option<u64>,
}

/// What happened in a room; subscribers re-read state and re-render.
#[derive(Clone, Copy, PartialEq, Eq, Structural, Debug)]
pub enum Action {
    Typing,
    Send,
    SetName,
    ShutdownRoom,
    UpdateTime,
    MajorError,
}

/// A bus event: who acted, and what kind of change it was.
pub struct ActionEvent {
    pub connection_id: String,
    pub action: Action,
}

impl Clone for ActionEvent {
    fn clone(&self) -> (r: Self)
        ensures
            r == *self,
    {
        ActionEvent { connection_id: self.connection_id.clone(), action: self.action }
    }
}

/// One chat or typing entry; the color is derived from the name and cached
/// at write time.
pub struct Message {
    pub name: String,
    pub connection_id: String,
    pub color: String,
    pub content: String,
}

impl Clone for Message {
    fn clone(&self) -> (r: Self)
        ensures
            r == *self,
    {
        Message {
            name: self.name.clone(),
            connection_id: self.connection_id.clone(),
            color: self.color.clone(),
            content: self.content.clone(),
        }
    }
}

/// The warning that replaces an oversize message.
pub open spec fn cap_warning() -> Seq<char> {
    "This message was too long! Keep it under 4,000 characters"@
}

/// A message as it enters the room: over the cap it is replaced, never
/// truncated.
pub open spec fn spec_capped(raw: Seq<char>) -> Seq<char> {
    if encode_utf8(raw).len() > 4000 {
        cap_warning()
    } else {
        raw
    }
}

/// Enforce the message-size cap.
pub fn cap_message(message: &String) -> (r: String)
    ensures
        r@ == spec_capped(message@),
{
    if message.as_str().as_bytes().len() > MAX_MESSAGE_SIZE {
        "This message was too long! Keep it under 4,000 characters".to_owned()
    } else {
        message.clone()
    }
}

/// `m` is the entry a participant `name` with connection `cid` writes when
/// the text is `content`.
pub open spec fn is_message(m: Message, name: Seq<char>, cid: Seq<char>, content: Seq<char>) -> bool {
    &&& m.name@ == name
    &&& m.connection_id@ == cid
    &&& m.color@ == spec_name_to_color(name)
    &&& m.content@ == content
}

/// One chat room. All fields are read and written only under the registry
/// lock; the bus sender is the one piece subscribers keep a handle to.
pub struct Room {
    pub tx: tokio::sync::broadcast::Sender<ActionEvent>,
    pub message_history: Vec<Message>,
    pub typing_state: KvMap<Message>,
    pub join_count: u32,
    pub name_to_id: KvMap<String>,
    pub id_to_name: KvMap<String>,
    pub name_to_color: KvMap<String>,
    pub expiration: u64,
}

impl Room {
    /// The room invariants: the name and id maps are mutual inverses, the
    /// color cache covers exactly the named participants, every typing
    /// entry belongs to a named participant and is coherent with the maps,
    /// and every logged message carries its author's color.
    pub open spec fn wf(&self) -> bool {
        &&& self.typing_state.wf()
        &&& self.name_to_id.wf()
        &&& self.id_to_name.wf()
        &&& self.name_to_color.wf()
        &&& forall|n: Seq<char>| #[trigger]
            self.name_to_id.spec_contains(n) ==> {
                let id = self.name_to_id.spec_get(n)@;
                self.id_to_name.spec_contains(id) && self.id_to_name.spec_get(id)@ == n
            }
        &&& forall|id: Seq<char>| #[trigger]
            self.id_to_name.spec_contains(id) ==> {
                let n = self.id_to_name.spec_get(id)@;
                self.name_to_id.spec_contains(n) && self.name_to_id.spec_get(n)@ == id
            }
        &&& forall|n: Seq<char>|
            #![trigger self.name_to_color.spec_contains(n)]
            #![trigger self.name_to_id.spec_contains(n)]
            self.name_to_color.spec_contains(n) == self.name_to_id.spec_contains(n)
        &&& forall|n: Seq<char>| #[trigger]
            self.name_to_color.spec_contains(n) ==> self.name_to_color.spec_get(n)@
                == spec_name_to_color(n)
        &&& forall|n: Seq<char>| #[trigger]
            self.typing_state.spec_contains(n) ==> {
                let m = self.typing_state.spec_get(n);
                &&& self.name_to_id.spec_contains(n)
                &&& m.name@ == n
                &&& m.color@ == spec_name_to_color(n)
                &&& m.connection_id@ == self.name_to_id.spec_get(n)@
            }
        &&& forall|j: int|
            0 <= j < self.message_history@.len() ==> {
                let m = #[trigger] self.message_history@[j];
                m.color@ == spec_name_to_color(m.name@) && self.name_to_id.spec_contains(m.name@)
            }
    }
}

/// A freshly created room: nobody has joined, spoken or chosen a name.
pub open spec fn room_empty(r: Room, exp: u64) -> bool {
    &&& r.wf()
    &&& r.message_history@.len() == 0
    &&& r.typing_state.spec_len() == 0
    &&& r.name_to_id.spec_len() == 0
    &&& r.id_to_name.spec_len() == 0
    &&& r.name_to_color.spec_len() == 0
    &&& r.join_count == 0
    &&& r.expiration == exp
}

/// `n` and `o` agree on the bus, the join counter and the clock.
pub open spec fn same_admin(o: Room, n: Room) -> bool {
    &&& n.tx == o.tx
    &&& n.join_count == o.join_count
    &&& n.expiration == o.expiration
}

/// `n` and `o` agree on all three participant maps.
pub open spec fn same_idmaps(o: Room, n: Room) -> bool {
    &&& n.name_to_id == o.name_to_id
    &&& n.id_to_name == o.id_to_name
    &&& n.name_to_color == o.name_to_color
}

/// `n`'s typing table is `o`'s with `name`'s entry overwritten by a fresh
/// entry carrying `content`.
pub open spec fn typing_set(o: Room, n: Room, name: Seq<char>, cid: Seq<char>, content: Seq<char>) -> bool {
    &&& n.typing_state.wf()
    &&& n.typing_state.spec_contains(name)
    &&& is_message(n.typing_state.spec_get(name), name, cid, content)
    &&& forall|k2: Seq<char>|
        k2 != name ==> n.typing_state.spec_contains(k2) == o.typing_state.spec_contains(k2)
    &&& forall|k2: Seq<char>|
        k2 != name && o.typing_state.spec_contains(k2) ==> n.typing_state.spec_get(k2)
            == o.typing_state.spec_get(k2)
    &&& n.typing_state.key_seq() == if o.typing_state.spec_contains(name) {
        o.typing_state.key_seq()
    } else {
        o.typing_state.key_seq().push(name)
    }
}

/// The typing transition of one room: only the originator's typing entry
/// changes, overwritten with the capped text.
pub open spec fn room_after_typing(o: Room, n: Room, cid: Seq<char>, raw: Seq<char>) -> bool {
    let name = o.id_to_name.spec_get(cid)@;
    &&& same_admin(o, n)
    &&& same_idmaps(o, n)
    &&& n.message_history@ == o.message_history@
    &&& typing_set(o, n, name, cid, spec_capped(raw))
}

/// The submit transition of one room: the capped message is appended to
/// the history — never mutated or removed afterwards — and the author's
/// typing entry is cleared.
pub open spec fn room_after_submit(o: Room, n: Room, cid: Seq<char>, raw: Seq<char>) -> bool {
    let name = o.id_to_name.spec_get(cid)@;
    &&& same_admin(o, n)
    &&& same_idmaps(o, n)
    &&& n.message_history@.len() == o.message_history@.len() + 1
    &&& n.message_history@.drop_last() == o.message_history@
    &&& is_message(n.message_history@.last(), name, cid, spec_capped(raw))
    &&& typing_set(o, n, name, cid, Seq::<char>::empty())
}

impl Room {
    /// A new empty room with its own bus, expiring at `expiration_ms` on
    /// the server's monotonic clock.
    pub fn new(expiration_ms: u64) -> (r: (Room, tokio::sync::broadcast::Receiver<ActionEvent>))
        ensures
            room_empty(r.0, expiration_ms),
    {
        let (tx, rx) = bus_channel(100);
        let room = Room {
            tx,
            message_history: Vec::new(),
            typing_state: KvMap::new(),
            join_count: 0,
            name_to_id: KvMap::new(),
            id_to_name: KvMap::new(),
            name_to_color: KvMap::new(),
            expiration: expiration_ms,
        };
        (room, rx)
    }

    /// Count one more subscription; the counter only ever grows.
    pub fn join(&mut self)
        ensures
            final(self).join_count == if old(self).join_count < u32::MAX {
                (old(self).join_count + 1) as u32
            } else {
                old(self).join_count
            },
            final(self).join_count >= old(self).join_count,
            final(self).tx == old(self).tx,
            final(self).message_history == old(self).message_history,
            final(self).typing_state == old(self).typing_state,
            final(self).name_to_id == old(self).name_to_id,
            final(self).id_to_name == old(self).id_to_name,
            final(self).name_to_color == old(self).name_to_color,
            final(self).expiration == old(self).expiration,
            old(self).wf() ==> final(self).wf(),
    {
        if self.join_count < u32::MAX {
            self.join_count = self.join_count + 1;
        }
    }

    /// Overwrite the originator's typing entry with the capped text
    /// (§ typing handler). The caller has already resolved the name.
    pub fn apply_typing(&mut self, connection_id: &String, message: &String)
        requires
            old(self).wf(),
            old(self).id_to_name.spec_contains(connection_id@),
        ensures
            final(self).wf(),
            room_after_typing(*old(self), *final(self), connection_id@, message@),
    {
        let name = match self.id_to_name.get(connection_id) {
            Some(n) => n.clone(),
            None => vstd::pervasive::unreached(),
        };
        let content = cap_message(message);
        let color = name_to_color(name.as_str());
        let msg = Message {
            name: name.clone(),
            connection_id: connection_id.clone(),
            color,
            content,
        };
        self.typing_state.set(name, msg);
        proof {
            lemma_typing_wf(*old(self), *self, connection_id@, message@);
        }
    }

    /// Append the capped message to the history and clear the author's
    /// typing entry (§ submit handler).
    pub fn apply_submit(&mut self, connection_id: &String, message: &String)
        requires
            old(self).wf(),
            old(self).id_to_name.spec_contains(connection_id@),
        ensures
            final(self).wf(),
            room_after_submit(*old(self), *final(self), connection_id@, message@),
    {
        let name = match self.id_to_name.get(connection_id) {
            Some(n) => n.clone(),
            None => vstd::pervasive::unreached(),
        };
        let content = cap_message(message);
        let color = name_to_color(name.as_str());
        let msg = Message {
            name: name.clone(),
            connection_id: connection_id.clone(),
            color,
            content,
        };
        self.message_history.push(msg);
        let color2 = name_to_color(name.as_str());
        let cleared = Message {
            name: name.clone(),
            connection_id: connection_id.clone(),
            color: color2,
            content: String::new(),
        };
        self.typing_state.set(name, cleared);
        proof {
            assert(self.message_history@.drop_last() =~= old(self).message_history@);
            lemma_submit_wf(*old(self), *self, connection_id@, message@);
        }
    }
}

/// `n` is `o` with the string `v` stored under `k` and nothing else
/// disturbed.
pub open spec fn str_map_set(o: KvMap<String>, n: KvMap<String>, k: Seq<char>, v: Seq<char>) -> bool {
    &&& n.wf()
    &&& n.spec_contains(k)
    &&& n.spec_get(k)@ == v
    &&& forall|k2: Seq<char>| k2 != k ==> n.spec_contains(k2) == o.spec_contains(k2)
    &&& forall|k2: Seq<char>| k2 != k && o.spec_contains(k2) ==> n.spec_get(k2) == o.spec_get(k2)
    &&& n.key_seq() == if o.spec_contains(k) {
        o.key_seq()
    } else {
        o.key_seq().push(k)
    }
}

/// The set-name transition of one room: both direction maps, the color
/// cache and an empty typing entry appear together.
pub open spec fn room_after_set_name(o: Room, n: Room, cid: Seq<char>, name: Seq<char>) -> bool {
    &&& n.tx == o.tx
    &&& n.join_count == o.join_count
    &&& n.expiration == o.expiration
    &&& n.message_history@ == o.message_history@
    &&& str_map_set(o.name_to_id, n.name_to_id, name, cid)
    &&& str_map_set(o.id_to_name, n.id_to_name, cid, name)
    &&& str_map_set(o.name_to_color, n.name_to_color, name, spec_name_to_color(name))
    &&& typing_set(o, n, name, cid, Seq::<char>::empty())
}

impl Room {
    /// Claim a free name for a still-unnamed participant (§ set-name
    /// handler). The caller has already ruled out a taken name and a
    /// participant renaming themselves.
    pub fn apply_set_name(&mut self, connection_id: &String, name: &String)
        requires
            old(self).wf(),
            !old(self).name_to_id.spec_contains(name@),
            !old(self).id_to_name.spec_contains(connection_id@),
        ensures
            final(self).wf(),
            room_after_set_name(*old(self), *final(self), connection_id@, name@),
    {
        let color = name_to_color(name.as_str());
        self.name_to_id.set(name.clone(), connection_id.clone());
        self.id_to_name.set(connection_id.clone(), name.clone());
        self.name_to_color.set(name.clone(), color);
        let color2 = name_to_color(name.as_str());
        let entry = Message {
            name: name.clone(),
            connection_id: connection_id.clone(),
            color: color2,
            content: String::new(),
        };
        self.typing_state.set(name.clone(), entry);
        proof {
            lemma_set_name_wf(*old(self), *self, connection_id@, name@);
        }
    }
}

/// Claiming a fresh name for a fresh connection preserves the invariants.
proof fn lemma_set_name_wf(o: Room, n: Room, cid: Seq<char>, name: Seq<char>)
    requires
        o.wf(),
        !o.name_to_id.spec_contains(name),
        !o.id_to_name.spec_contains(cid),
        room_after_set_name(o, n, cid, name),
    ensures
        n.wf(),
{
    assert forall|n2: Seq<char>| #[trigger] n.name_to_id.spec_contains(n2) implies {
        let id = n.name_to_id.spec_get(n2)@;
        n.id_to_name.spec_contains(id) && n.id_to_name.spec_get(id)@ == n2
    } by {
        if n2 == name {
        } else {
            assert(o.name_to_id.spec_contains(n2));
            let id = o.name_to_id.spec_get(n2)@;
            assert(o.id_to_name.spec_contains(id) && o.id_to_name.spec_get(id)@ == n2);
            assert(id != cid);
            assert(n.name_to_id.spec_get(n2) == o.name_to_id.spec_get(n2));
            assert(n.id_to_name.spec_get(id) == o.id_to_name.spec_get(id));
        }
    }
    assert forall|id2: Seq<char>| #[trigger] n.id_to_name.spec_contains(id2) implies {
        let nm = n.id_to_name.spec_get(id2)@;
        n.name_to_id.spec_contains(nm) && n.name_to_id.spec_get(nm)@ == id2
    } by {
        if id2 == cid {
        } else {
            assert(o.id_to_name.spec_contains(id2));
            let nm = o.id_to_name.spec_get(id2)@;
            assert(o.name_to_id.spec_contains(nm) && o.name_to_id.spec_get(nm)@ == id2);
            assert(nm != name);
            assert(n.id_to_name.spec_get(id2) == o.id_to_name.spec_get(id2));
            assert(n.name_to_id.spec_get(nm) == o.name_to_id.spec_get(nm));
        }
    }
    assert forall|n2: Seq<char>|
        #![trigger n.name_to_color.spec_contains(n2)]
        #![trigger n.name_to_id.spec_contains(n2)]
        n.name_to_color.spec_contains(n2) == n.name_to_id.spec_contains(n2) by {
        if n2 != name {
            assert(o.name_to_color.spec_contains(n2) == o.name_to_id.spec_contains(n2));
        }
    }
    assert forall|n2: Seq<char>| #[trigger] n.name_to_color.spec_contains(n2) implies n
        .name_to_color.spec_get(n2)@ == spec_name_to_color(n2) by {
        if n2 != name {
            assert(o.name_to_color.spec_contains(n2));
        }
    }
    assert forall|n2: Seq<char>| #[trigger] n.typing_state.spec_contains(n2) implies {
        let m = n.typing_state.spec_get(n2);
        &&& n.name_to_id.spec_contains(n2)
        &&& m.name@ == n2
        &&& m.color@ == spec_name_to_color(n2)
        &&& m.connection_id@ == n.name_to_id.spec_get(n2)@
    } by {
        if n2 == name {
        } else {
            assert(o.typing_state.spec_contains(n2));
            assert(o.name_to_id.spec_contains(n2));
            assert(n.name_to_id.spec_get(n2) == o.name_to_id.spec_get(n2));
        }
    }
    assert forall|j: int| 0 <= j < n.message_history@.len() implies {
        let m = #[trigger] n.message_history@[j];
        m.color@ == spec_name_to_color(m.name@) && n.name_to_id.spec_contains(m.name@)
    } by {
        assert(o.message_history@[j] == n.message_history@[j]);
        let m = o.message_history@[j];
        assert(o.name_to_id.spec_contains(m.name@));
    }
}

/// Typing preserves the room invariants.
proof fn lemma_typing_wf(o: Room, n: Room, cid: Seq<char>, raw: Seq<char>)
    requires
        o.wf(),
        o.id_to_name.spec_contains(cid),
        same_admin(o, n),
        same_idmaps(o, n),
        n.message_history@ == o.message_history@,
        typing_set(o, n, o.id_to_name.spec_get(cid)@, cid, spec_capped(raw)),
    ensures
        n.wf(),
{
    let name = o.id_to_name.spec_get(cid)@;
    assert(o.name_to_id.spec_contains(name) && o.name_to_id.spec_get(name)@ == cid);
    assert forall|n2: Seq<char>| #[trigger] n.typing_state.spec_contains(n2) implies {
        let m = n.typing_state.spec_get(n2);
        &&& n.name_to_id.spec_contains(n2)
        &&& m.name@ == n2
        &&& m.color@ == spec_name_to_color(n2)
        &&& m.connection_id@ == n.name_to_id.spec_get(n2)@
    } by {
        if n2 == name {
        } else {
            assert(o.typing_state.spec_contains(n2));
        }
    }
}

/// Submitting preserves the room invariants.
proof fn lemma_submit_wf(o: Room, n: Room, cid: Seq<char>, raw: Seq<char>)
    requires
        o.wf(),
        o.id_to_name.spec_contains(cid),
        same_admin(o, n),
        same_idmaps(o, n),
        n.message_history@.len() == o.message_history@.len() + 1,
        n.message_history@.drop_last() == o.message_history@,
        is_message(
            n.message_history@.last(),
            o.id_to_name.spec_get(cid)@,
            cid,
            spec_capped(raw),
        ),
        typing_set(o, n, o.id_to_name.spec_get(cid)@, cid, Seq::<char>::empty()),
    ensures
        n.wf(),
{
    let name = o.id_to_name.spec_get(cid)@;
    assert(o.name_to_id.spec_contains(name) && o.name_to_id.spec_get(name)@ == cid);
    assert forall|n2: Seq<char>| #[trigger] n.typing_state.spec_contains(n2) implies {
        let m = n.typing_state.spec_get(n2);
        &&& n.name_to_id.spec_contains(n2)
        &&& m.name@ == n2
        &&& m.color@ == spec_name_to_color(n2)
        &&& m.connection_id@ == n.name_to_id.spec_get(n2)@
    } by {
        if n2 == name {
        } else {
            assert(o.typing_state.spec_contains(n2));
        }
    }
    assert forall|j: int| 0 <= j < n.message_history@.len() implies {
        let m = #[trigger] n.message_history@[j];
        m.color@ == spec_name_to_color(m.name@) && n.name_to_id.spec_contains(m.name@)
    } by {
        if j < o.message_history@.len() {
            assert(n.message_history@.drop_last()[j] == o.message_history@[j]);
            assert(n.message_history@[j] == n.message_history@.drop_last()[j]);
        } else {
            assert(n.message_history@[j] == n.message_history@.last());
        }
    }
}

/// The registry of living rooms; `main` holds it behind the single lock.
pub struct AllRooms {
    pub rooms: KvMap<Room>,
}

impl AllRooms {
    /// Every registered room satisfies its own invariants.
    pub open spec fn wf(&self) -> bool {
        &&& self.rooms.wf()
        &&& forall|k: Seq<char>| #[trigger]
            self.rooms.spec_contains(k) ==> self.rooms.spec_get(k).wf()
    }

    pub fn new() -> (r: AllRooms)
        ensures
            r.wf(),
            r.rooms.spec_len() == 0,
            forall|k: Seq<char>| !r.rooms.spec_contains(k),
    {
        AllRooms { rooms: KvMap::new() }
    }
}

/// Registry transition: the room under `k` was replaced; every other room
/// and the key order are untouched.
pub open spec fn rooms_updated(o: AllRooms, n: AllRooms, k: Seq<char>) -> bool {
    &&& n.rooms.wf()
    &&& o.rooms.spec_contains(k)
    &&& n.rooms.spec_contains(k)
    &&& forall|k2: Seq<char>| k2 != k ==> n.rooms.spec_contains(k2) == o.rooms.spec_contains(k2)
    &&& forall|k2: Seq<char>|
        k2 != k && o.rooms.spec_contains(k2) ==> n.rooms.spec_get(k2) == o.rooms.spec_get(k2)
    &&& n.rooms.key_seq() == o.rooms.key_seq()
}

/// Registry transition: a fresh empty room appeared under `k`.
pub open spec fn rooms_created(o: AllRooms, n: AllRooms, k: Seq<char>, exp: u64) -> bool {
    &&& n.rooms.wf()
    &&& !o.rooms.spec_contains(k)
    &&& n.rooms.spec_contains(k)
    &&& room_empty(n.rooms.spec_get(k), exp)
    &&& forall|k2: Seq<char>| k2 != k ==> n.rooms.spec_contains(k2) == o.rooms.spec_contains(k2)
    &&& forall|k2: Seq<char>|
        k2 != k && o.rooms.spec_contains(k2) ==> n.rooms.spec_get(k2) == o.rooms.spec_get(k2)
    &&& n.rooms.key_seq() == o.rooms.key_seq().push(k)
}

/// When a room is created with a lifetime request it dies at
/// `now + hours·3600s + minutes·60s`, clamped to the clock's range.
pub open spec fn spec_expiration(now_ms: u64, hours: u64, minutes: u64) -> u64 {
    if now_ms + hours * 3600000 + minutes * 60000 <= u64::MAX {
        (now_ms + hours * 3600000 + minutes * 60000) as u64
    } else {
        u64::MAX
    }
}

/// An unset hours field counts as zero.
pub open spec fn effective_hours(h: Option<u64>) -> u64 {
    match h {
        Some(v) => v,
        None => 0,
    }
}

/// An unset minutes field counts as one, and any supplied lifetime buys at
/// least one minute.
pub open spec fn effective_minutes(m: Option<u64>) -> u64 {
    match m {
        Some(v) => if v < 1 {
            1
        } else {
            v
        },
        None => 1,
    }
}

/// The instant a room created now with this lifetime request expires.
pub fn expiration_ms(now_ms: u64, hours: u64, minutes: u64) -> (r: u64)
    ensures
        r == spec_expiration(now_ms, hours, minutes),
{
    let hm = match hours.checked_mul(3600000) {
        Some(v) => v,
        None => u64::MAX,
    };
    let mm = match minutes.checked_mul(60000) {
        Some(v) => v,
        None => u64::MAX,
    };
    now_ms.saturating_add(hm).saturating_add(mm)
}

/// What the room page answers: the shell, or a redirect home when the room
/// is gone and no lifetime was asked for.
pub enum RenderRoomResponse {
    Page(RoomTemplate),
    RedirectHome,
}

/// The room-page decision, in full: an existing room renders unchanged; an
/// absent room with no lifetime request redirects; otherwise the room is
/// created empty with the requested expiration.
pub open spec fn render_transition(
    o: AllRooms,
    n: AllRooms,
    room_id: Seq<char>,
    params: ExpirationParams,
    now_ms: u64,
    r: RenderRoomResponse,
) -> bool {
    match r {
        RenderRoomResponse::Page(t) => {
            &&& t.room_id@ == room_id
            &&& if o.rooms.spec_contains(room_id) {
                n == o
            } else {
                &&& !(params.hours is None && params.minutes is None)
                &&& rooms_created(
                    o,
                    n,
                    room_id,
                    spec_expiration(
                        now_ms,
                        effective_hours(params.hours),
                        effective_minutes(params.minutes),
                    ),
                )
            }
        },
        RenderRoomResponse::RedirectHome => {
            &&& params.hours is None
            &&& params.minutes is None
            &&& !o.rooms.spec_contains(room_id)
            &&& n == o
        },
    }
}

impl AllRooms {
    /// GET of the room page (§ room page handler).
    pub fn render_room(&mut self, room_id: &String, params: &ExpirationParams, now_ms: u64) -> (r:
        RenderRoomResponse)
        requires
            old(self).wf(),
        ensures
            final(self).wf(),
            render_transition(*old(self), *final(self), room_id@, *params, now_ms, r),
    {
        if self.rooms.contains_key(room_id) {
            return RenderRoomResponse::Page(RoomTemplate { room_id: room_id.clone() });
        }
        if params.hours.is_none() && params.minutes.is_none() {
            return RenderRoomResponse::RedirectHome;
        }
        let hours = match params.hours {
            Some(v) => v,
            None => 0,
        };
        let minutes0 = match params.minutes {
            Some(v) => v,
            None => 1,
        };
        let minutes = if minutes0 < 1 {
            1
        } else {
            minutes0
        };
        let exp = expiration_ms(now_ms, hours, minutes);
        let (room, _rx) = Room::new(exp);
        self.rooms.set(room_id.clone(), room);
        proof {
            assert forall|k: Seq<char>| #[trigger] self.rooms.spec_contains(k) implies self
                .rooms.spec_get(k).wf() by {
                if k != room_id@ {
                    assert(old(self).rooms.spec_contains(k));
                }
            }
        }
        RenderRoomResponse::Page(RoomTemplate { room_id: room_id.clone() })
    }
}

/// What a typing update or a submission answers over HTTP.
pub enum PostMessageResponse {
    Accepted,
    MissingCookie,
    RoomGone,
    Unnamed,
}

/// The typing-update decision: without a cookie an inline error, into a
/// vanished room a silent success, from an unnamed participant a
/// `MajorError` event, and otherwise exactly the typing transition on this
/// room alone.
pub open spec fn typing_transition(
    o: AllRooms,
    n: AllRooms,
    room_id: Seq<char>,
    connection_id: Option<String>,
    raw: Seq<char>,
    r: PostMessageResponse,
) -> bool {
    match r {
        PostMessageResponse::MissingCookie => connection_id is None && n == o,
        PostMessageResponse::RoomGone => {
            &&& connection_id is Some
            &&& !o.rooms.spec_contains(room_id)
            &&& n == o
        },
        PostMessageResponse::Unnamed => {
            &&& connection_id matches Some(cid)
            &&& o.rooms.spec_contains(room_id)
            &&& !o.rooms.spec_get(room_id).id_to_name.spec_contains(cid@)
            &&& n == o
        },
        PostMessageResponse::Accepted => {
            &&& connection_id matches Some(cid)
            &&& o.rooms.spec_contains(room_id)
            &&& o.rooms.spec_get(room_id).id_to_name.spec_contains(cid@)
            &&& rooms_updated(o, n, room_id)
            &&& room_after_typing(
                o.rooms.spec_get(room_id),
                n.rooms.spec_get(room_id),
                cid@,
                raw,
            )
        },
    }
}

/// The submit decision: the same gates as typing, then the submit
/// transition on this room alone.
pub open spec fn submit_transition(
    o: AllRooms,
    n: AllRooms,
    room_id: Seq<char>,
    connection_id: Option<String>,
    raw: Seq<char>,
    r: PostMessageResponse,
) -> bool {
    match r {
        PostMessageResponse::MissingCookie => connection_id is None && n == o,
        PostMessageResponse::RoomGone => {
            &&& connection_id is Some
            &&& !o.rooms.spec_contains(room_id)
            &&& n == o
        },
        PostMessageResponse::Unnamed => {
            &&& connection_id matches Some(cid)
            &&& o.rooms.spec_contains(room_id)
            &&& !o.rooms.spec_get(room_id).id_to_name.spec_contains(cid@)
            &&& n == o
        },
        PostMessageResponse::Accepted => {
            &&& connection_id matches Some(cid)
            &&& o.rooms.spec_contains(room_id)
            &&& o.rooms.spec_get(room_id).id_to_name.spec_contains(cid@)
            &&& rooms_updated(o, n, room_id)
            &&& room_after_submit(
                o.rooms.spec_get(room_id),
                n.rooms.spec_get(room_id),
                cid@,
                raw,
            )
        },
    }
}

impl AllRooms {
    /// POST of a typing update (§ typing handler). The matching `Typing`
    /// or `MajorError` event is broadcast best-effort on the room's bus.
    pub fn update_room(
        &mut self,
        room_id: &String,
        connection_id: Option<String>,
        payload: &TypingRequest,
    ) -> (r: PostMessageResponse)
        requires
            old(self).wf(),
        ensures
            final(self).wf(),
            typing_transition(
                *old(self),
                *final(self),
                room_id@,
                connection_id,
                payload.message@,
                r,
            ),
    {
        let cid = match &connection_id {
            Some(c) => c.clone(),
            None => {
                return PostMessageResponse::MissingCookie;
            },
        };
        let idx = match self.rooms.index_of(room_id) {
            Some(i) => i,
            None => {
                return PostMessageResponse::RoomGone;
            },
        };
        proof {
            self.rooms.lemma_index(room_id@, idx as int);
        }
        if !self.rooms.vals[idx].id_to_name.contains_key(&cid) {
            bus_publish(
                &self.rooms.vals[idx].tx,
                ActionEvent { connection_id: cid, action: Action::MajorError },
            );
            return PostMessageResponse::Unnamed;
        }
        let room = &mut self.rooms.vals[idx];
        room.apply_typing(&cid, &payload.message);
        bus_publish(&room.tx, ActionEvent { connection_id: cid, action: Action::Typing });
        proof {
            lemma_registry_update(*old(self), *self, room_id@, idx as int);
        }
        PostMessageResponse::Accepted
    }

    /// POST of a message (§ submit handler). The matching `Send` or
    /// `MajorError` event is broadcast best-effort on the room's bus.
    pub fn submit_message(
        &mut self,
        room_id: &String,
        connection_id: Option<String>,
        payload: &TypingRequest,
    ) -> (r: PostMessageResponse)
        requires
            old(self).wf(),
        ensures
            final(self).wf(),
            submit_transition(
                *old(self),
                *final(self),
                room_id@,
                connection_id,
                payload.message@,
                r,
            ),
    {
        let cid = match &connection_id {
            Some(c) => c.clone(),
            None => {
                return PostMessageResponse::MissingCookie;
            },
        };
        let idx = match self.rooms.index_of(room_id) {
            Some(i) => i,
            None => {
                return PostMessageResponse::RoomGone;
            },
        };
        proof {
            self.rooms.lemma_index(room_id@, idx as int);
        }
        if !self.rooms.vals[idx].id_to_name.contains_key(&cid) {
            bus_publish(
                &self.rooms.vals[idx].tx,
                ActionEvent { connection_id: cid, action: Action::MajorError },
            );
            return PostMessageResponse::Unnamed;
        }
        let room = &mut self.rooms.vals[idx];
        room.apply_submit(&cid, &payload.message);
        bus_publish(&room.tx, ActionEvent { connection_id: cid, action: Action::Send });
        proof {
            lemma_registry_update(*old(self), *self, room_id@, idx as int);
        }
        PostMessageResponse::Accepted
    }
}

/// What the set-name endpoint answers.
pub enum SetNameResponse {
    Accepted,
    MissingCookie,
    RoomNotFound,
    NameTaken(SetNameTemplate),
    AlreadyNamed,
}

/// The set-name decision: a taken name is refused with a re-rendered name
/// form; a participant who already owns a name has the request ignored (a
/// rename would break the name/id inverse maps, so this engine rejects it);
/// otherwise the name is installed atomically with its color and an empty
/// typing entry.
pub open spec fn set_name_transition(
    o: AllRooms,
    n: AllRooms,
    room_id: Seq<char>,
    connection_id: Option<String>,
    name: Seq<char>,
    r: SetNameResponse,
) -> bool {
    match r {
        SetNameResponse::MissingCookie => connection_id is None && n == o,
        SetNameResponse::RoomNotFound => {
            &&& connection_id is Some
            &&& !o.rooms.spec_contains(room_id)
            &&& n == o
        },
        SetNameResponse::NameTaken(t) => {
            &&& connection_id is Some
            &&& o.rooms.spec_contains(room_id)
            &&& o.rooms.spec_get(room_id).name_to_id.spec_contains(name)
            &&& t.room_id@ == room_id
            &&& t.message@ == "Name already taken"@
            &&& n == o
        },
        SetNameResponse::AlreadyNamed => {
            &&& connection_id matches Some(cid)
            &&& o.rooms.spec_contains(room_id)
            &&& !o.rooms.spec_get(room_id).name_to_id.spec_contains(name)
            &&& o.rooms.spec_get(room_id).id_to_name.spec_contains(cid@)
            &&& n == o
        },
        SetNameResponse::Accepted => {
            &&& connection_id matches Some(cid)
            &&& o.rooms.spec_contains(room_id)
            &&& !o.rooms.spec_get(room_id).name_to_id.spec_contains(name)
            &&& !o.rooms.spec_get(room_id).id_to_name.spec_contains(cid@)
            &&& rooms_updated(o, n, room_id)
            &&& room_after_set_name(
                o.rooms.spec_get(room_id),
                n.rooms.spec_get(room_id),
                cid@,
                name,
            )
        },
    }
}

impl AllRooms {
    /// POST of a name choice (§ set-name handler). On success a `SetName`
    /// event is broadcast best-effort on the room's bus.
    pub fn set_name(
        &mut self,
        room_id: &String,
        connection_id: Option<String>,
        payload: &SetNameRequest,
    ) -> (r: SetNameResponse)
        requires
            old(self).wf(),
        ensures
            final(self).wf(),
            set_name_transition(
                *old(self),
                *final(self),
                room_id@,
                connection_id,
                payload.name@,
                r,
            ),
    {
        let cid = match &connection_id {
            Some(c) => c.clone(),
            None => {
                return SetNameResponse::MissingCookie;
            },
        };
        let idx = match self.rooms.index_of(room_id) {
            Some(i) => i,
            None => {
                return SetNameResponse::RoomNotFound;
            },
        };
        proof {
            self.rooms.lemma_index(room_id@, idx as int);
        }
        if self.rooms.vals[idx].name_to_id.contains_key(&payload.name) {
            return SetNameResponse::NameTaken(
                SetNameTemplate { room_id: room_id.clone(), message: "Name already taken".to_owned() },
            );
        }
        if self.rooms.vals[idx].id_to_name.contains_key(&cid) {
            return SetNameResponse::AlreadyNamed;
        }
        let room = &mut self.rooms.vals[idx];
        room.apply_set_name(&cid, &payload.name);
        bus_publish(&room.tx, ActionEvent { connection_id: cid, action: Action::SetName });
        proof {
            lemma_registry_update(*old(self), *self, room_id@, idx as int);
        }
        SetNameResponse::Accepted
    }

    /// One janitor tick (§ janitor): every living room hears `UpdateTime`,
    /// every expired one hears `ShutdownRoom` and leaves the registry. The
    /// removed room ids come back so the caller can log them.
    #[verifier::loop_isolation(false)]
    pub fn cleanup_rooms(&mut self, now_ms: u64) -> (removed: Vec<String>)
        requires
            old(self).wf(),
        ensures
            final(self).wf(),
            forall|k: Seq<char>| #[trigger]
                final(self).rooms.spec_contains(k) ==> old(self).rooms.spec_contains(k),
            forall|k: Seq<char>| #[trigger]
                old(self).rooms.spec_contains(k) && old(self).rooms.spec_get(k).expiration
                    >= now_ms ==> final(self).rooms.spec_contains(k)
                    && final(self).rooms.spec_get(k) == old(self).rooms.spec_get(k),
            forall|k: Seq<char>| #[trigger]
                old(self).rooms.spec_contains(k) && old(self).rooms.spec_get(k).expiration
                    < now_ms ==> !final(self).rooms.spec_contains(k),
            forall|j: int|
                0 <= j < removed@.len() ==> old(self).rooms.spec_contains(#[trigger] removed@[j]@)
                    && old(self).rooms.spec_get(removed@[j]@).expiration < now_ms,
            forall|k: Seq<char>| #[trigger]
                old(self).rooms.spec_contains(k) && old(self).rooms.spec_get(k).expiration
                    < now_ms ==> exists|j: int| 0 <= j < removed@.len() && removed@[j]@ == k,
    {
        let mut removed: Vec<String> = Vec::new();
        let n = self.rooms.len();
        let mut i: usize = 0;
        while i < n
            invariant
                i <= n,
                forall|j: int|
                    0 <= j < removed@.len() ==> self.rooms.spec_contains(#[trigger] removed@[j]@)
                        && self.rooms.spec_get(removed@[j]@).expiration < now_ms,
                forall|m: int|
                    0 <= m < i && self.rooms.spec_get(#[trigger] self.rooms.key_seq()[m]).expiration
                        < now_ms ==> exists|j: int|
                        0 <= j < removed@.len() && removed@[j]@ == self.rooms.key_seq()[m],
            decreases n - i,
        {
            proof {
                self.rooms.lemma_index(self.rooms.keys@[i as int]@, i as int);
            }
            let ghost removed0 = removed@;
            if self.rooms.vals[i].expiration < now_ms {
                bus_publish(
                    &self.rooms.vals[i].tx,
                    ActionEvent { connection_id: system_id(), action: Action::ShutdownRoom },
                );
                removed.push(self.rooms.keys[i].clone());
                proof {
                    assert(removed@[removed0.len() as int]@ == self.rooms.key_seq()[i as int]);
                }
            } else {
                bus_publish(
                    &self.rooms.vals[i].tx,
                    ActionEvent { connection_id: system_id(), action: Action::UpdateTime },
                );
            }
            proof {
                assert forall|m: int|
                    0 <= m < i + 1 && self.rooms.spec_get(
                        #[trigger] self.rooms.key_seq()[m],
                    ).expiration < now_ms implies exists|j: int|
                    0 <= j < removed@.len() && removed@[j]@ == self.rooms.key_seq()[m] by {
                    if m < i {
                        let j0 = choose|j: int|
                            0 <= j < removed0.len() && removed0[j]@ == self.rooms.key_seq()[m];
                        assert(removed@[j0]@ == self.rooms.key_seq()[m]);
                    } else {
                        assert(self.rooms.key_seq()[m] == self.rooms.keys@[i as int]@);
                        assert(removed@[removed0.len() as int]@ == self.rooms.key_seq()[m]);
                    }
                }
            }
            i = i + 1;
        }
        proof {
            assert forall|k: Seq<char>| #[trigger]
                self.rooms.spec_contains(k) && self.rooms.spec_get(k).expiration
                    < now_ms implies exists|j: int|
                0 <= j < removed@.len() && removed@[j]@ == k by {
                let m = self.rooms.spec_index(k);
                self.rooms.lemma_index(k, m);
                assert(self.rooms.key_seq()[m] == k);
            }
        }
        let mut j: usize = 0;
        while j < removed.len()
            invariant
                j <= removed@.len(),
                self.rooms.wf(),
                forall|k: Seq<char>| #[trigger]
                    self.rooms.spec_contains(k) ==> old(self).rooms.spec_contains(k),
                forall|k: Seq<char>|
                    old(self).rooms.spec_contains(k) && !(exists|q: int|
                        0 <= q < j && removed@[q]@ == k) ==> #[trigger] self.rooms.spec_contains(k)
                        && self.rooms.spec_get(k) == old(self).rooms.spec_get(k),
                forall|q: int| 0 <= q < j ==> !self.rooms.spec_contains(#[trigger] removed@[q]@),
            decreases removed@.len() - j,
        {
            self.rooms.remove_key(&removed[j]);
            j = j + 1;
        }
        proof {
            assert forall|k: Seq<char>| #[trigger]
                old(self).rooms.spec_contains(k) && old(self).rooms.spec_get(k).expiration
                    >= now_ms implies self.rooms.spec_contains(k) && self.rooms.spec_get(k) == old(
                self,
            ).rooms.spec_get(k) by {
                assert(!(exists|q: int| 0 <= q < removed@.len() && removed@[q]@ == k));
            }
            assert forall|k: Seq<char>| #[trigger] self.rooms.spec_contains(k) implies self
                .rooms.spec_get(k).wf() by {
                assert(old(self).rooms.spec_contains(k));
                if self.rooms.spec_get(k) == old(self).rooms.spec_get(k) {
                } else {
                    // only a removal could have changed the value, and a
                    // removed key is no longer present
                    assert(exists|q: int| 0 <= q < removed@.len() && removed@[q]@ == k);
                    assert(false);
                }
            }
        }
        removed
    }
}

/// In every well-formed room the name and id maps are mutual inverses: a
/// name maps to an id exactly when that id maps back to the name.
pub proof fn lemma_maps_inverse(r: Room, n: Seq<char>, id: Seq<char>)
    requires
        r.wf(),
    ensures
        r.name_to_id.spec_contains(n) && r.name_to_id.spec_get(n)@ == id
            ==> r.id_to_name.spec_contains(id) && r.id_to_name.spec_get(id)@ == n,
        r.id_to_name.spec_contains(id) && r.id_to_name.spec_get(id)@ == n
            ==> r.name_to_id.spec_contains(n) && r.name_to_id.spec_get(n)@ == id,
{
}

/// Every message in a well-formed room's history carries the color derived
/// from its author's name.
pub proof fn lemma_history_colors(r: Room, j: int)
    requires
        r.wf(),
        0 <= j < r.message_history@.len(),
    ensures
        r.message_history@[j].color@ == spec_name_to_color(r.message_history@[j].name@),
{
}

/// No two distinct connections hold the same name at the same time: whoever
/// the id map says owns a name is its only owner.
pub proof fn lemma_name_owned_once(r: Room, id1: Seq<char>, id2: Seq<char>, n: Seq<char>)
    requires
        r.wf(),
        r.id_to_name.spec_contains(id1),
        r.id_to_name.spec_get(id1)@ == n,
        r.id_to_name.spec_contains(id2),
        r.id_to_name.spec_get(id2)@ == n,
    ensures
        id1 == id2,
{
    assert(r.name_to_id.spec_get(n)@ == id1);
    assert(r.name_to_id.spec_get(n)@ == id2);
}

/// The color hash is a pure function of the name: equal names give equal
/// colors, in every room and on every machine.
pub proof fn lemma_color_deterministic(n1: Seq<char>, n2: Seq<char>)
    requires
        n1 == n2,
    ensures
        spec_name_to_color(n1) == spec_name_to_color(n2),
{
}

/// Across every room transition the message history only grows, and what
/// was logged stays logged unchanged: the old history is a prefix of the
/// new one.
pub proof fn lemma_history_monotone(o: Room, n: Room, cid: Seq<char>, x: Seq<char>)
    requires
        room_after_typing(o, n, cid, x) || room_after_submit(o, n, cid, x)
            || room_after_set_name(o, n, cid, x),
    ensures
        n.message_history@.len() >= o.message_history@.len(),
        o.message_history@.is_prefix_of(n.message_history@),
{
    if room_after_submit(o, n, cid, x) {
        assert(n.message_history@.subrange(0, o.message_history@.len() as int)
            =~= n.message_history@.drop_last());
        assert(o.message_history@.is_prefix_of(n.message_history@));
    } else {
        assert(n.message_history@ == o.message_history@);
        assert(n.message_history@.subrange(0, o.message_history@.len() as int)
            =~= o.message_history@);
    }
}

/// A typing update with the empty string arriving after a send leaves the
/// author's typing entry present and empty.
pub proof fn lemma_empty_typing_after_send(
    r0: Room,
    r1: Room,
    r2: Room,
    cid: Seq<char>,
    raw: Seq<char>,
)
    requires
        r0.wf(),
        r0.id_to_name.spec_contains(cid),
        room_after_submit(r0, r1, cid, raw),
        room_after_typing(r1, r2, cid, Seq::<char>::empty()),
    ensures
        r2.typing_state.spec_contains(r0.id_to_name.spec_get(cid)@),
        r2.typing_state.spec_get(r0.id_to_name.spec_get(cid)@).content@ == Seq::<char>::empty(),
{
    let name = r0.id_to_name.spec_get(cid)@;
    assert(r1.id_to_name == r0.id_to_name);
    assert(r1.id_to_name.spec_get(cid)@ == name);
    assert(encode_utf8(Seq::<char>::empty()).len() == 0);
    assert(spec_capped(Seq::<char>::empty()) == Seq::<char>::empty());
}

/// The sentinel originator of janitor-generated events.
pub fn system_id() -> (r: String)
    ensures
        r@ == "System"@,
{
    "System".to_owned()
}

/// After replacing the value at `idx` (the slot `room_id` occupies) with a
/// well-formed room, the registry transition and invariant hold.
pub(crate) proof fn lemma_registry_update(o: AllRooms, n: AllRooms, room_id: Seq<char>, idx: int)
    requires
        o.wf(),
        0 <= idx < o.rooms.keys@.len(),
        o.rooms.keys@[idx]@ == room_id,
        n.rooms.keys@ == o.rooms.keys@,
        n.rooms.vals@ == o.rooms.vals@.update(idx, n.rooms.vals@[idx]),
        n.rooms.vals@.len() == o.rooms.vals@.len(),
        n.rooms.vals@[idx].wf(),
    ensures
        n.wf(),
        rooms_updated(o, n, room_id),
        n.rooms.spec_get(room_id) == n.rooms.vals@[idx],
        o.rooms.spec_get(room_id) == o.rooms.vals@[idx],
{
    assert(n.rooms.key_seq() =~= o.rooms.key_seq());
    o.rooms.lemma_index(room_id, idx);
    n.rooms.lemma_index(room_id, idx);
    assert forall|k2: Seq<char>|
        k2 != room_id && o.rooms.spec_contains(k2) implies n.rooms.spec_get(k2)
        == o.rooms.spec_get(k2) by {
        let j = o.rooms.spec_index(k2);
        assert(0 <= j < o.rooms.keys@.len() && o.rooms.keys@[j]@ == k2);
        o.rooms.lemma_index(k2, j);
        n.rooms.lemma_index(k2, j);
        assert(j != idx);
    }
    assert forall|k: Seq<char>| #[trigger] n.rooms.spec_contains(k) implies n.rooms.spec_get(
        k,
    ).wf() by {
        if k == room_id {
        } else {
            assert(o.rooms.spec_contains(k));
            assert(n.rooms.spec_get(k) == o.rooms.spec_get(k));
        }
    }
}

} // verus!

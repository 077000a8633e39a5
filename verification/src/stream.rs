//! Decisions of the per-subscriber stream driver: what a new subscriber is
//! primed with, and what each bus event makes the driver emit. The driver
//! re-reads current room state for every event — events carry no content —
//! so a dropped event can only cost an intermediate view, never truth.

use vstd::pervasive::cloned;
use vstd::prelude::*;
use vstd::string::StringExecFns;

use crate::bus::bus_subscribe;
use crate::rooms::{
    lemma_registry_update, Action, ActionEvent, AllRooms, Message, Room,
};
use crate::templates::{
    ChatInputTemplate, InitNameTemplate, MajorErrorTemplate, ShutdownTemplate, SubmitTemplate,
    TypingTemplate,
};
use crate::utils::{format_time, spec_format_time};

verus! {

/// One rendered view to merge into the subscriber's page.
pub enum ViewFragment {
    Submit(SubmitTemplate),
    Typing(TypingTemplate),
    ChatInput(ChatInputTemplate),
    InitName(InitNameTemplate),
    Shutdown(ShutdownTemplate),
    MajorError(MajorErrorTemplate),
}

/// One instruction to the stream writer.
pub enum SseDirective {
    /// An empty data event, sent once to prime the connection.
    Flush,
    /// A `datastar-merge-fragments` event; `framed` asks for the per-line
    /// `fragments ` framing of the rendered view.
    MergeFragments { fragment: ViewFragment, framed: bool },
    /// A `datastar-merge-signals` event carrying exactly this body.
    MergeSignals { body: String },
    /// Stop writing; the room has shut down.
    EndStream,
}

/// `d` merges the chat log as seen by `cid`.
pub open spec fn d_submit(d: SseDirective, history: Seq<Message>, cid: Seq<char>, framed: bool) -> bool {
    match d {
        SseDirective::MergeFragments { fragment: ViewFragment::Submit(t), framed: f } => {
            &&& f == framed
            &&& t.messages@ == history
            &&& t.connection_id@ == cid
        },
        _ => false,
    }
}

/// `d` merges the typing buffers as seen by `cid`.
pub open spec fn d_typing(d: SseDirective, typing: Seq<Message>, cid: Seq<char>, framed: bool) -> bool {
    match d {
        SseDirective::MergeFragments { fragment: ViewFragment::Typing(t), framed: f } => {
            &&& f == framed
            &&& t.messages@ == typing
            &&& t.connection_id@ == cid
        },
        _ => false,
    }
}

/// `d` merges the chat input bound to `person`.
pub open spec fn d_chat_input(d: SseDirective, room_id: Seq<char>, person: Seq<char>) -> bool {
    match d {
        SseDirective::MergeFragments { fragment: ViewFragment::ChatInput(t), framed: f } => {
            &&& f == false
            &&& t.room_id@ == room_id
            &&& t.person@ == person
        },
        _ => false,
    }
}

/// `d` merges the name prompt.
pub open spec fn d_init_name(d: SseDirective, room_id: Seq<char>) -> bool {
    match d {
        SseDirective::MergeFragments { fragment: ViewFragment::InitName(t), framed: f } => {
            &&& f == false
            &&& t.room_id@ == room_id
        },
        _ => false,
    }
}

/// `d` merges the shutdown notice.
pub open spec fn d_shutdown(d: SseDirective) -> bool {
    match d {
        SseDirective::MergeFragments { fragment: ViewFragment::Shutdown(_), framed: f } => f
            == false,
        _ => false,
    }
}

/// `d` merges the unrecoverable-error notice.
pub open spec fn d_major_error(d: SseDirective) -> bool {
    match d {
        SseDirective::MergeFragments { fragment: ViewFragment::MajorError(_), framed: f } => f
            == false,
        _ => false,
    }
}

/// `d` pushes a signal with exactly this body.
pub open spec fn d_signal(d: SseDirective, body: Seq<char>) -> bool {
    match d {
        SseDirective::MergeSignals { body: b } => b@ == body,
        _ => false,
    }
}

/// Whole seconds a room still has to live.
pub open spec fn spec_remaining_secs(expiration: u64, now_ms: u64) -> nat {
    if expiration >= now_ms {
        (((expiration - now_ms) as u64) / 1000) as nat
    } else {
        0
    }
}

/// The countdown signal body.
pub open spec fn remaining_signal(expiration: u64, now_ms: u64) -> Seq<char> {
    "signals {remaining: '"@ + spec_format_time(spec_remaining_secs(expiration, now_ms)) + "'}"@
}

fn clone_messages(v: &Vec<Message>) -> (r: Vec<Message>)
    ensures
        r@ == v@,
{
    let r = v.clone();
    proof {
        assert forall|i: int| 0 <= i < v@.len() implies r@[i] == v@[i] by {
            assert(cloned::<Message>(v@[i], r@[i]));
        }
        assert(r@ =~= v@);
    }
    r
}

fn submit_fragment(room: &Room, cid: &String, framed: bool) -> (d: SseDirective)
    ensures
        d_submit(d, room.message_history@, cid@, framed),
{
    SseDirective::MergeFragments {
        fragment: ViewFragment::Submit(
            SubmitTemplate {
                messages: clone_messages(&room.message_history),
                connection_id: cid.clone(),
            },
        ),
        framed,
    }
}

fn typing_fragment(room: &Room, cid: &String, framed: bool) -> (d: SseDirective)
    ensures
        d_typing(d, room.typing_state.vals@, cid@, framed),
{
    SseDirective::MergeFragments {
        fragment: ViewFragment::Typing(
            TypingTemplate {
                messages: clone_messages(&room.typing_state.vals),
                connection_id: cid.clone(),
            },
        ),
        framed,
    }
}

/// The five priming directives a new subscriber receives, in order: a
/// flush, the chat log, the typing buffers, the chat log again in per-line
/// framing, and the chat input when this connection already owns a name —
/// the name prompt when it does not.
pub open spec fn connect_directives(
    room: Room,
    room_id: Seq<char>,
    cid: Seq<char>,
    ds: Seq<SseDirective>,
) -> bool {
    &&& ds.len() == 5
    &&& ds[0] is Flush
    &&& d_submit(ds[1], room.message_history@, cid, false)
    &&& d_typing(ds[2], room.typing_state.vals@, cid, false)
    &&& d_submit(ds[3], room.message_history@, cid, true)
    &&& if room.id_to_name.spec_contains(cid) {
        d_chat_input(ds[4], room_id, room.id_to_name.spec_get(cid)@)
    } else {
        d_init_name(ds[4], room_id)
    }
}

/// A just-created room after its first subscription.
pub open spec fn room_fresh_joined(r: Room, exp: u64) -> bool {
    &&& r.wf()
    &&& r.message_history@.len() == 0
    &&& r.typing_state.spec_len() == 0
    &&& r.name_to_id.spec_len() == 0
    &&& r.id_to_name.spec_len() == 0
    &&& r.name_to_color.spec_len() == 0
    &&& r.join_count == 1
    &&& r.expiration == exp
}

/// One more subscription was counted; nothing else moved.
pub open spec fn room_after_join(o: Room, n: Room) -> bool {
    &&& n.join_count == if o.join_count < u32::MAX {
        (o.join_count + 1) as u32
    } else {
        o.join_count
    }
    &&& n.tx == o.tx
    &&& n.message_history == o.message_history
    &&& n.typing_state == o.typing_state
    &&& n.name_to_id == o.name_to_id
    &&& n.id_to_name == o.id_to_name
    &&& n.name_to_color == o.name_to_color
    &&& n.expiration == o.expiration
}

/// A subscriber joining an absent room creates it with this default
/// lifetime, clamped to the clock's range.
pub open spec fn spec_default_expiration(now_ms: u64) -> u64 {
    if now_ms + 30000 <= u64::MAX {
        (now_ms + 30000) as u64
    } else {
        u64::MAX
    }
}

/// The connect decision: join the room — creating it with the default
/// lifetime when absent — and prime the new subscriber from its current
/// state.
pub open spec fn connect_transition(
    o: AllRooms,
    n: AllRooms,
    room_id: Seq<char>,
    cid: Seq<char>,
    now_ms: u64,
    ds: Seq<SseDirective>,
) -> bool {
    &&& if o.rooms.spec_contains(room_id) {
        &&& n.rooms.wf()
        &&& n.rooms.spec_contains(room_id)
        &&& forall|k2: Seq<char>|
            k2 != room_id ==> n.rooms.spec_contains(k2) == o.rooms.spec_contains(k2)
        &&& forall|k2: Seq<char>|
            k2 != room_id && o.rooms.spec_contains(k2) ==> n.rooms.spec_get(k2)
                == o.rooms.spec_get(k2)
        &&& n.rooms.key_seq() == o.rooms.key_seq()
        &&& room_after_join(o.rooms.spec_get(room_id), n.rooms.spec_get(room_id))
    } else {
        &&& n.rooms.wf()
        &&& n.rooms.spec_contains(room_id)
        &&& forall|k2: Seq<char>|
            k2 != room_id ==> n.rooms.spec_contains(k2) == o.rooms.spec_contains(k2)
        &&& forall|k2: Seq<char>|
            k2 != room_id && o.rooms.spec_contains(k2) ==> n.rooms.spec_get(k2)
                == o.rooms.spec_get(k2)
        &&& n.rooms.key_seq() == o.rooms.key_seq().push(room_id)
        &&& room_fresh_joined(n.rooms.spec_get(room_id), spec_default_expiration(now_ms))
    }
    &&& connect_directives(n.rooms.spec_get(room_id), room_id, cid, ds)
}

impl AllRooms {
    /// GET of the live stream (§ live subscribe handler): create or join
    /// the room, count the subscription, subscribe to the bus, and compute
    /// the priming directives. The caller then drives the loop, handing
    /// each received event to `room_event_directives`.
    pub fn connect_to_room(&mut self, room_id: &String, connection_id: &String, now_ms: u64) -> (r:
        (tokio::sync::broadcast::Receiver<ActionEvent>, Vec<SseDirective>))
        requires
            old(self).wf(),
        ensures
            final(self).wf(),
            connect_transition(
                *old(self),
                *final(self),
                room_id@,
                connection_id@,
                now_ms,
                r.1@,
            ),
    {
        let idx: usize;
        match self.rooms.index_of(room_id) {
            Some(i) => {
                proof {
                    self.rooms.lemma_index(room_id@, i as int);
                }
                let room = &mut self.rooms.vals[i];
                room.join();
                proof {
                    lemma_registry_update(*old(self), *self, room_id@, i as int);
                }
                idx = i;
            },
            None => {
                let exp = now_ms.saturating_add(30000);
                let (mut room, _rx0) = Room::new(exp);
                room.join();
                self.rooms.set(room_id.clone(), room);
                proof {
                    assert forall|k: Seq<char>| #[trigger] self.rooms.spec_contains(k) implies self
                        .rooms.spec_get(k).wf() by {
                        if k != room_id@ {
                            assert(old(self).rooms.spec_contains(k));
                        }
                    }
                }
                idx = match self.rooms.index_of(room_id) {
                    Some(i) => {
                        proof {
                            self.rooms.lemma_index(room_id@, i as int);
                        }
                        i
                    },
                    None => vstd::pervasive::unreached(),
                };
            },
        }
        let room = &self.rooms.vals[idx];
        let rx = bus_subscribe(&room.tx);
        let d1 = submit_fragment(room, connection_id, false);
        let d2 = typing_fragment(room, connection_id, false);
        let d3 = submit_fragment(room, connection_id, true);
        let d4 = match room.id_to_name.get(connection_id) {
            Some(name) => SseDirective::MergeFragments {
                fragment: ViewFragment::ChatInput(
                    ChatInputTemplate { room_id: room_id.clone(), person: name.clone() },
                ),
                framed: false,
            },
            None => SseDirective::MergeFragments {
                fragment: ViewFragment::InitName(InitNameTemplate { room_id: room_id.clone() }),
                framed: false,
            },
        };
        let mut ds: Vec<SseDirective> = Vec::new();
        ds.push(SseDirective::Flush);
        ds.push(d1);
        ds.push(d2);
        ds.push(d3);
        ds.push(d4);
        proof {
            assert(self.rooms.spec_get(room_id@) == self.rooms.vals@[idx as int]);
        }
        (rx, ds)
    }
}

/// What each bus event makes the driver emit, in order. Typing, send and
/// time updates re-read the room and are skipped silently when it is gone;
/// shutdown ends the stream; error and input fragments go only to the
/// event's originator.
pub open spec fn event_directives(
    a: AllRooms,
    room_id: Seq<char>,
    self_id: Seq<char>,
    event: ActionEvent,
    now_ms: u64,
    ds: Seq<SseDirective>,
) -> bool {
    match event.action {
        Action::Typing => if a.rooms.spec_contains(room_id) {
            ds.len() == 1 && d_typing(
                ds[0],
                a.rooms.spec_get(room_id).typing_state.vals@,
                self_id,
                true,
            )
        } else {
            ds.len() == 0
        },
        Action::Send => if a.rooms.spec_contains(room_id) {
            let room = a.rooms.spec_get(room_id);
            if event.connection_id@ == self_id {
                &&& ds.len() == 3
                &&& d_submit(ds[0], room.message_history@, self_id, true)
                &&& d_signal(ds[1], "signals {message: ''}"@)
                &&& d_typing(ds[2], room.typing_state.vals@, self_id, true)
            } else {
                &&& ds.len() == 2
                &&& d_submit(ds[0], room.message_history@, self_id, true)
                &&& d_typing(ds[1], room.typing_state.vals@, self_id, true)
            }
        } else {
            ds.len() == 0
        },
        Action::SetName => if a.rooms.spec_contains(room_id) {
            let room = a.rooms.spec_get(room_id);
            if room.id_to_name.spec_contains(self_id) {
                if event.connection_id@ == self_id {
                    &&& ds.len() == 2
                    &&& d_chat_input(ds[0], room_id, room.id_to_name.spec_get(self_id)@)
                    &&& d_typing(ds[1], room.typing_state.vals@, self_id, true)
                } else {
                    ds.len() == 1 && d_typing(ds[0], room.typing_state.vals@, self_id, true)
                }
            } else {
                ds.len() == 0
            }
        } else {
            ds.len() == 0
        },
        Action::UpdateTime => if a.rooms.spec_contains(room_id) {
            ds.len() == 1 && d_signal(
                ds[0],
                remaining_signal(a.rooms.spec_get(room_id).expiration, now_ms),
            )
        } else {
            ds.len() == 0
        },
        Action::ShutdownRoom => ds.len() == 2 && d_shutdown(ds[0]) && ds[1] is EndStream,
        Action::MajorError => if event.connection_id@ == self_id {
            ds.len() == 1 && d_major_error(ds[0])
        } else {
            ds.len() == 0
        },
    }
}

/// The drive-loop step (§ drive loop): turn one received event into the
/// directives for this subscriber, re-reading current room state.
pub fn room_event_directives(
    rooms: &AllRooms,
    room_id: &String,
    connection_id: &String,
    event: &ActionEvent,
    now_ms: u64,
) -> (ds: Vec<SseDirective>)
    requires
        rooms.wf(),
    ensures
        event_directives(*rooms, room_id@, connection_id@, *event, now_ms, ds@),
{
    let mut ds: Vec<SseDirective> = Vec::new();
    match event.action {
        Action::Typing => {
            match rooms.rooms.get(room_id) {
                Some(room) => {
                    ds.push(typing_fragment(room, connection_id, true));
                },
                None => {},
            }
        },
        Action::Send => {
            match rooms.rooms.get(room_id) {
                Some(room) => {
                    ds.push(submit_fragment(room, connection_id, true));
                    if event.connection_id == *connection_id {
                        ds.push(
                            SseDirective::MergeSignals {
                                body: "signals {message: ''}".to_owned(),
                            },
                        );
                    }
                    ds.push(typing_fragment(room, connection_id, true));
                },
                None => {},
            }
        },
        Action::SetName => {
            match rooms.rooms.get(room_id) {
                Some(room) => {
                    match room.id_to_name.get(connection_id) {
                        Some(name) => {
                            if event.connection_id == *connection_id {
                                ds.push(
                                    SseDirective::MergeFragments {
                                        fragment: ViewFragment::ChatInput(
                                            ChatInputTemplate {
                                                room_id: room_id.clone(),
                                                person: name.clone(),
                                            },
                                        ),
                                        framed: false,
                                    },
                                );
                            }
                            ds.push(typing_fragment(room, connection_id, true));
                        },
                        None => {},
                    }
                },
                None => {},
            }
        },
        Action::UpdateTime => {
            match rooms.rooms.get(room_id) {
                Some(room) => {
                    let secs: u64 = if room.expiration >= now_ms {
                        (room.expiration - now_ms) / 1000
                    } else {
                        0
                    };
                    let t = format_time(secs);
                    let mut body = "signals {remaining: '".to_owned();
                    body.append(t.as_str());
                    body.append("'}");
                    proof {
                        assert(body@ =~= remaining_signal(room.expiration, now_ms));
                    }
                    ds.push(SseDirective::MergeSignals { body });
                },
                None => {},
            }
        },
        Action::ShutdownRoom => {
            ds.push(
                SseDirective::MergeFragments {
                    fragment: ViewFragment::Shutdown(ShutdownTemplate {}),
                    framed: false,
                },
            );
            ds.push(SseDirective::EndStream);
        },
        Action::MajorError => {
            if event.connection_id == *connection_id {
                ds.push(
                    SseDirective::MergeFragments {
                        fragment: ViewFragment::MajorError(MajorErrorTemplate {}),
                        framed: false,
                    },
                );
            }
        },
    }
    ds
}

/// The inline wire form of one pushed fragment, as the non-stream handlers
/// answer it: the event line, one framed data line, and the blank line
/// that ends the event.
pub open spec fn spec_sse_fragment_body(html: Seq<char>) -> Seq<char> {
    "event: datastar-merge-fragments\ndata: fragments "@ + html + "\n\n"@
}

/// Assemble the inline event-stream body carrying one rendered fragment.
pub fn sse_fragment_message(html: &str) -> (r: String)
    ensures
        r@ == spec_sse_fragment_body(html@),
{
    let mut s = "event: datastar-merge-fragments\ndata: fragments ".to_owned();
    s.append(html);
    s.append("\n\n");
    proof {
        assert(s@ =~= spec_sse_fragment_body(html@));
    }
    s
}

} // verus!

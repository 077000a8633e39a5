use impermachat::public::{create_room, CreateRoomForm, CreateRoomResponse};
use impermachat::rooms::{
    Action, ActionEvent, AllRooms, ExpirationParams, PostMessageResponse, RenderRoomResponse,
    SetNameRequest, SetNameResponse, TypingRequest,
};
use impermachat::stream::{room_event_directives, SseDirective, ViewFragment};
use tokio::sync::broadcast::Receiver;

fn room_id() -> String {
    String::from("testroom")
}

fn make_room(rooms: &mut AllRooms, now_ms: u64, hours: u64, minutes: u64) {
    let params = ExpirationParams { hours: Some(hours), minutes: Some(minutes) };
    assert!(matches!(
        rooms.render_room(&room_id(), &params, now_ms),
        RenderRoomResponse::Page(_)
    ));
}

fn recv(rx: &mut Receiver<ActionEvent>) -> ActionEvent {
    rx.try_recv().expect("an event should be waiting")
}

fn is_flush(d: &SseDirective) -> bool {
    matches!(d, SseDirective::Flush)
}

fn submit_messages(d: &SseDirective, framed: bool) -> &[impermachat::rooms::Message] {
    match d {
        SseDirective::MergeFragments { fragment: ViewFragment::Submit(t), framed: f } => {
            assert_eq!(*f, framed);
            &t.messages
        },
        _ => panic!("expected a submit fragment"),
    }
}

fn typing_messages(d: &SseDirective, framed: bool) -> &[impermachat::rooms::Message] {
    match d {
        SseDirective::MergeFragments { fragment: ViewFragment::Typing(t), framed: f } => {
            assert_eq!(*f, framed);
            &t.messages
        },
        _ => panic!("expected a typing fragment"),
    }
}

fn signal_body(d: &SseDirective) -> &str {
    match d {
        SseDirective::MergeSignals { body } => body,
        _ => panic!("expected a signals event"),
    }
}

#[test]
fn connect_before_naming_prompts_for_a_name() {
    let mut rooms = AllRooms::new();
    make_room(&mut rooms, 0, 0, 5);
    let (_rx, ds) = rooms.connect_to_room(&room_id(), &String::from("cid-dan"), 0);
    assert_eq!(ds.len(), 5);
    assert!(is_flush(&ds[0]));
    assert!(submit_messages(&ds[1], false).is_empty());
    assert!(typing_messages(&ds[2], false).is_empty());
    assert!(submit_messages(&ds[3], true).is_empty());
    match &ds[4] {
        SseDirective::MergeFragments { fragment: ViewFragment::InitName(t), framed: false } => {
            assert_eq!(t.room_id, "testroom");
        },
        _ => panic!("expected the name prompt"),
    }
}

#[test]
fn connect_after_naming_gets_the_chat_input() {
    let mut rooms = AllRooms::new();
    make_room(&mut rooms, 0, 0, 5);
    let alice = String::from("cid-alice");
    let (_rx, _ds) = rooms.connect_to_room(&room_id(), &alice, 0);
    let r = rooms.set_name(&room_id(), Some(alice.clone()), &SetNameRequest {
        name: String::from("alice"),
    });
    assert!(matches!(r, SetNameResponse::Accepted));
    // a reconnect of the same browser now skips the name prompt
    let (_rx2, ds) = rooms.connect_to_room(&room_id(), &alice, 0);
    match &ds[4] {
        SseDirective::MergeFragments { fragment: ViewFragment::ChatInput(t), framed: false } => {
            assert_eq!(t.room_id, "testroom");
            assert_eq!(t.person, "alice");
        },
        _ => panic!("expected the chat input"),
    }
}

#[test]
fn connect_counts_every_subscription() {
    let mut rooms = AllRooms::new();
    let (_rx1, _) = rooms.connect_to_room(&room_id(), &String::from("a"), 0);
    let (_rx2, _) = rooms.connect_to_room(&room_id(), &String::from("b"), 0);
    let room = rooms.rooms.get(&room_id()).unwrap();
    assert_eq!(room.join_count, 2);
    // the bus-created room got the thirty-second default lifetime
    assert_eq!(room.expiration, 30_000);
}

#[test]
fn create_and_chat() {
    // Alice names a room on the landing page and is redirected
    let form = CreateRoomForm { room_name: String::from("Test Room!"), hours: 0, minutes: 2 };
    let path = match create_room(&form) {
        CreateRoomResponse::Redirect(p) => p,
        CreateRoomResponse::Page(_) => panic!("expected a redirect"),
    };
    assert_eq!(path, "/room/testroom?hours=0&minutes=2");
    // the first visit creates the room with the two-minute lifetime
    let mut rooms = AllRooms::new();
    make_room(&mut rooms, 0, 0, 2);
    assert_eq!(rooms.rooms.get(&room_id()).unwrap().expiration, 120_000);
    // she connects and takes her name
    let alice = String::from("cid-alice");
    let (mut rx, _ds) = rooms.connect_to_room(&room_id(), &alice, 0);
    let r = rooms.set_name(&room_id(), Some(alice.clone()), &SetNameRequest {
        name: String::from("alice"),
    });
    assert!(matches!(r, SetNameResponse::Accepted));
    let ev = recv(&mut rx);
    assert_eq!(ev.action, Action::SetName);
    assert_eq!(ev.connection_id, "cid-alice");
    // she submits a message and her own stream sees it plus the clear signal
    let r = rooms.submit_message(&room_id(), Some(alice.clone()), &TypingRequest {
        message: String::from("hi"),
    });
    assert!(matches!(r, PostMessageResponse::Accepted));
    let ev = recv(&mut rx);
    assert_eq!(ev.action, Action::Send);
    let ds = room_event_directives(&rooms, &room_id(), &alice, &ev, 1_000);
    assert_eq!(ds.len(), 3);
    let history = submit_messages(&ds[0], true);
    assert_eq!(history.len(), 1);
    assert_eq!(history[0].name, "alice");
    assert_eq!(history[0].content, "hi");
    assert_eq!(history[0].color, "#5fe8c8");
    assert_eq!(signal_body(&ds[1]), "signals {message: ''}");
    let typing = typing_messages(&ds[2], true);
    assert_eq!(typing.len(), 1);
    assert_eq!(typing[0].content, "");
}

#[test]
fn two_participants() {
    let mut rooms = AllRooms::new();
    make_room(&mut rooms, 0, 0, 5);
    let alice = String::from("cid-alice");
    let bob = String::from("cid-bob");
    let (mut rx_alice, _) = rooms.connect_to_room(&room_id(), &alice, 0);
    rooms.set_name(&room_id(), Some(alice.clone()), &SetNameRequest {
        name: String::from("alice"),
    });
    rooms.submit_message(&room_id(), Some(alice.clone()), &TypingRequest {
        message: String::from("hi"),
    });
    // Bob connects after Alice has spoken: his primer already carries "hi"
    let (mut rx_bob, ds) = rooms.connect_to_room(&room_id(), &bob, 0);
    let primer = submit_messages(&ds[1], false);
    assert_eq!(primer.len(), 1);
    assert_eq!(primer[0].content, "hi");
    // Bob takes a name and types; both streams re-render the typing state
    rooms.set_name(&room_id(), Some(bob.clone()), &SetNameRequest { name: String::from("bob") });
    rooms.update_room(&room_id(), Some(bob.clone()), &TypingRequest {
        message: String::from("yo"),
    });
    // drain Alice's queue up to the typing event
    while recv(&mut rx_alice).action != Action::Typing {}
    let ev = ActionEvent { connection_id: bob.clone(), action: Action::Typing };
    for viewer in [&alice, &bob] {
        let ds = room_event_directives(&rooms, &room_id(), viewer, &ev, 0);
        assert_eq!(ds.len(), 1);
        let typing = typing_messages(&ds[0], true);
        assert_eq!(typing.len(), 2);
        assert_eq!(typing[0].name, "alice");
        assert_eq!(typing[0].content, "");
        assert_eq!(typing[1].name, "bob");
        assert_eq!(typing[1].content, "yo");
    }
    // Bob submits: both see the two-message history, only Bob gets the
    // clear-input signal
    rooms.submit_message(&room_id(), Some(bob.clone()), &TypingRequest {
        message: String::from("yo"),
    });
    while recv(&mut rx_bob).action != Action::Send {}
    let ev = ActionEvent { connection_id: bob.clone(), action: Action::Send };
    let ds_bob = room_event_directives(&rooms, &room_id(), &bob, &ev, 0);
    assert_eq!(ds_bob.len(), 3);
    let ds_alice = room_event_directives(&rooms, &room_id(), &alice, &ev, 0);
    assert_eq!(ds_alice.len(), 2);
    let history = submit_messages(&ds_alice[0], true);
    assert_eq!(history.len(), 2);
    assert_eq!(history[0].content, "hi");
    assert_eq!(history[1].content, "yo");
}

#[test]
fn expiration_ticks_then_shuts_down() {
    let mut rooms = AllRooms::new();
    make_room(&mut rooms, 0, 0, 1);
    let alice = String::from("cid-alice");
    let (mut rx, _) = rooms.connect_to_room(&room_id(), &alice, 0);
    // a tick before the deadline announces the time
    let removed = rooms.cleanup_rooms(1_000);
    assert!(removed.is_empty());
    let ev = recv(&mut rx);
    assert_eq!(ev.action, Action::UpdateTime);
    assert_eq!(ev.connection_id, "System");
    let ds = room_event_directives(&rooms, &room_id(), &alice, &ev, 1_000);
    assert_eq!(ds.len(), 1);
    assert_eq!(signal_body(&ds[0]), "signals {remaining: '00:00:59 remaining...'}");
    // a tick past the deadline shuts the room down and evicts it
    let removed = rooms.cleanup_rooms(60_001);
    assert_eq!(removed, vec![String::from("testroom")]);
    let ev = recv(&mut rx);
    assert_eq!(ev.action, Action::ShutdownRoom);
    let ds = room_event_directives(&rooms, &room_id(), &alice, &ev, 60_001);
    assert_eq!(ds.len(), 2);
    assert!(matches!(
        ds[0],
        SseDirective::MergeFragments { fragment: ViewFragment::Shutdown(_), framed: false }
    ));
    assert!(matches!(ds[1], SseDirective::EndStream));
    // a later visit without a lifetime request goes home
    let params = ExpirationParams { hours: None, minutes: None };
    assert!(matches!(
        rooms.render_room(&room_id(), &params, 61_000),
        RenderRoomResponse::RedirectHome
    ));
}

#[test]
fn missing_name_submit_errors_only_the_originator() {
    let mut rooms = AllRooms::new();
    make_room(&mut rooms, 0, 0, 5);
    let alice = String::from("cid-alice");
    let dan = String::from("cid-dan");
    let (mut rx_alice, _) = rooms.connect_to_room(&room_id(), &alice, 0);
    let (mut rx_dan, _) = rooms.connect_to_room(&room_id(), &dan, 0);
    let r = rooms.submit_message(&room_id(), Some(dan.clone()), &TypingRequest {
        message: String::from("hello?"),
    });
    assert!(matches!(r, PostMessageResponse::Unnamed));
    // both streams carry the event, but only Dan renders anything
    let ev = recv(&mut rx_dan);
    assert_eq!(ev.action, Action::MajorError);
    let ev_a = recv(&mut rx_alice);
    assert_eq!(ev_a.action, Action::MajorError);
    let ds_dan = room_event_directives(&rooms, &room_id(), &dan, &ev, 0);
    assert_eq!(ds_dan.len(), 1);
    assert!(matches!(
        ds_dan[0],
        SseDirective::MergeFragments { fragment: ViewFragment::MajorError(_), framed: false }
    ));
    let ds_alice = room_event_directives(&rooms, &room_id(), &alice, &ev_a, 0);
    assert!(ds_alice.is_empty());
    assert_eq!(rooms.rooms.get(&room_id()).unwrap().message_history.len(), 0);
}

#[test]
fn events_carry_only_originator_and_tag() {
    let mut rooms = AllRooms::new();
    make_room(&mut rooms, 0, 0, 5);
    let alice = String::from("cid-alice");
    let (mut rx, _) = rooms.connect_to_room(&room_id(), &alice, 0);
    rooms.set_name(&room_id(), Some(alice.clone()), &SetNameRequest {
        name: String::from("alice"),
    });
    rooms.submit_message(&room_id(), Some(alice.clone()), &TypingRequest {
        message: String::from("secret text"),
    });
    let ev1 = recv(&mut rx);
    assert_eq!(ev1.connection_id, "cid-alice");
    assert_eq!(ev1.action, Action::SetName);
    let ev2 = recv(&mut rx);
    assert_eq!(ev2.connection_id, "cid-alice");
    assert_eq!(ev2.action, Action::Send);
}

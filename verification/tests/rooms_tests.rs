use impermachat::rooms::{
    AllRooms, ExpirationParams, PostMessageResponse, RenderRoomResponse, SetNameRequest,
    SetNameResponse, TypingRequest,
};

fn room_id() -> String {
    String::from("testroom")
}

fn make_room(rooms: &mut AllRooms, now_ms: u64, hours: u64, minutes: u64) {
    let params = ExpirationParams { hours: Some(hours), minutes: Some(minutes) };
    match rooms.render_room(&room_id(), &params, now_ms) {
        RenderRoomResponse::Page(t) => assert_eq!(t.room_id, "testroom"),
        RenderRoomResponse::RedirectHome => panic!("room should have been created"),
    }
}

fn join_with_name(rooms: &mut AllRooms, cid: &str, name: &str) {
    let r = rooms.set_name(
        &room_id(),
        Some(String::from(cid)),
        &SetNameRequest { name: String::from(name) },
    );
    assert!(matches!(r, SetNameResponse::Accepted));
}

#[test]
fn absent_room_without_query_redirects_home() {
    let mut rooms = AllRooms::new();
    let params = ExpirationParams { hours: None, minutes: None };
    assert!(matches!(
        rooms.render_room(&room_id(), &params, 0),
        RenderRoomResponse::RedirectHome
    ));
}

#[test]
fn one_minute_room_expires_after_sixty_seconds() {
    let mut rooms = AllRooms::new();
    make_room(&mut rooms, 1_000, 0, 1);
    let room = rooms.rooms.get(&room_id()).expect("room exists");
    assert_eq!(room.expiration, 61_000);
    // at exactly sixty seconds the room still lives; past it, the janitor
    // evicts it
    let removed = rooms.cleanup_rooms(61_000);
    assert!(removed.is_empty());
    let removed = rooms.cleanup_rooms(61_001);
    assert_eq!(removed, vec![String::from("testroom")]);
    assert!(rooms.rooms.get(&room_id()).is_none());
}

#[test]
fn hours_and_minutes_both_count() {
    let mut rooms = AllRooms::new();
    make_room(&mut rooms, 0, 2, 30);
    let room = rooms.rooms.get(&room_id()).expect("room exists");
    assert_eq!(room.expiration, 2 * 3_600_000 + 30 * 60_000);
}

#[test]
fn minutes_zero_still_buys_one_minute() {
    let mut rooms = AllRooms::new();
    make_room(&mut rooms, 0, 0, 0);
    let room = rooms.rooms.get(&room_id()).expect("room exists");
    assert_eq!(room.expiration, 60_000);
}

#[test]
fn set_name_installs_both_maps_and_color() {
    let mut rooms = AllRooms::new();
    make_room(&mut rooms, 0, 0, 5);
    join_with_name(&mut rooms, "cid-alice", "alice");
    let room = rooms.rooms.get(&room_id()).expect("room exists");
    assert_eq!(room.name_to_id.get(&String::from("alice")), Some(&String::from("cid-alice")));
    assert_eq!(room.id_to_name.get(&String::from("cid-alice")), Some(&String::from("alice")));
    assert_eq!(room.name_to_color.get(&String::from("alice")), Some(&String::from("#5fe8c8")));
    let entry = room.typing_state.get(&String::from("alice")).expect("typing entry");
    assert_eq!(entry.content, "");
    assert_eq!(entry.connection_id, "cid-alice");
}

#[test]
fn name_collision_is_refused_and_owner_kept() {
    let mut rooms = AllRooms::new();
    make_room(&mut rooms, 0, 0, 5);
    join_with_name(&mut rooms, "cid-alice", "alice");
    let r = rooms.set_name(
        &room_id(),
        Some(String::from("cid-carol")),
        &SetNameRequest { name: String::from("alice") },
    );
    match r {
        SetNameResponse::NameTaken(t) => {
            assert_eq!(t.room_id, "testroom");
            assert_eq!(t.message, "Name already taken");
        },
        _ => panic!("expected a name collision"),
    }
    let room = rooms.rooms.get(&room_id()).expect("room exists");
    assert_eq!(room.name_to_id.get(&String::from("alice")), Some(&String::from("cid-alice")));
    assert_eq!(room.id_to_name.get(&String::from("cid-carol")), None);
}

#[test]
fn second_name_for_same_connection_is_ignored() {
    let mut rooms = AllRooms::new();
    make_room(&mut rooms, 0, 0, 5);
    join_with_name(&mut rooms, "cid-alice", "alice");
    let r = rooms.set_name(
        &room_id(),
        Some(String::from("cid-alice")),
        &SetNameRequest { name: String::from("alicia") },
    );
    assert!(matches!(r, SetNameResponse::AlreadyNamed));
    let room = rooms.rooms.get(&room_id()).expect("room exists");
    assert_eq!(room.id_to_name.get(&String::from("cid-alice")), Some(&String::from("alice")));
    assert!(room.name_to_id.get(&String::from("alicia")).is_none());
}

#[test]
fn submit_appends_message_with_cached_color() {
    let mut rooms = AllRooms::new();
    make_room(&mut rooms, 0, 0, 5);
    join_with_name(&mut rooms, "cid-alice", "alice");
    let r = rooms.submit_message(
        &room_id(),
        Some(String::from("cid-alice")),
        &TypingRequest { message: String::from("hi") },
    );
    assert!(matches!(r, PostMessageResponse::Accepted));
    let room = rooms.rooms.get(&room_id()).expect("room exists");
    assert_eq!(room.message_history.len(), 1);
    let m = &room.message_history[0];
    assert_eq!(m.name, "alice");
    assert_eq!(m.content, "hi");
    assert_eq!(m.color, "#5fe8c8");
    assert_eq!(m.connection_id, "cid-alice");
    // the author's typing entry is cleared by the send
    assert_eq!(room.typing_state.get(&String::from("alice")).unwrap().content, "");
}

#[test]
fn typing_then_send_then_empty_typing_leaves_empty_entry() {
    let mut rooms = AllRooms::new();
    make_room(&mut rooms, 0, 0, 5);
    join_with_name(&mut rooms, "cid-alice", "alice");
    let typing = rooms.update_room(
        &room_id(),
        Some(String::from("cid-alice")),
        &TypingRequest { message: String::from("hello ther") },
    );
    assert!(matches!(typing, PostMessageResponse::Accepted));
    {
        let room = rooms.rooms.get(&room_id()).unwrap();
        assert_eq!(room.typing_state.get(&String::from("alice")).unwrap().content, "hello ther");
    }
    rooms.submit_message(
        &room_id(),
        Some(String::from("cid-alice")),
        &TypingRequest { message: String::from("hello there") },
    );
    let after_send = rooms.update_room(
        &room_id(),
        Some(String::from("cid-alice")),
        &TypingRequest { message: String::new() },
    );
    assert!(matches!(after_send, PostMessageResponse::Accepted));
    let room = rooms.rooms.get(&room_id()).unwrap();
    assert_eq!(room.typing_state.get(&String::from("alice")).unwrap().content, "");
}

#[test]
fn unnamed_submit_appends_nothing() {
    let mut rooms = AllRooms::new();
    make_room(&mut rooms, 0, 0, 5);
    let r = rooms.submit_message(
        &room_id(),
        Some(String::from("cid-dan")),
        &TypingRequest { message: String::from("hi") },
    );
    assert!(matches!(r, PostMessageResponse::Unnamed));
    let room = rooms.rooms.get(&room_id()).unwrap();
    assert_eq!(room.message_history.len(), 0);
}

#[test]
fn missing_cookie_is_reported() {
    let mut rooms = AllRooms::new();
    make_room(&mut rooms, 0, 0, 5);
    let r = rooms.update_room(&room_id(), None, &TypingRequest { message: String::from("x") });
    assert!(matches!(r, PostMessageResponse::MissingCookie));
}

#[test]
fn vanished_room_accepts_silently() {
    let mut rooms = AllRooms::new();
    let r = rooms.submit_message(
        &room_id(),
        Some(String::from("cid")),
        &TypingRequest { message: String::from("x") },
    );
    assert!(matches!(r, PostMessageResponse::RoomGone));
}

#[test]
fn oversize_message_is_replaced_in_history() {
    let mut rooms = AllRooms::new();
    make_room(&mut rooms, 0, 0, 5);
    join_with_name(&mut rooms, "cid-eve", "eve");
    let big = "e".repeat(5000);
    let r = rooms.submit_message(
        &room_id(),
        Some(String::from("cid-eve")),
        &TypingRequest { message: big },
    );
    assert!(matches!(r, PostMessageResponse::Accepted));
    let room = rooms.rooms.get(&room_id()).unwrap();
    assert_eq!(room.message_history.len(), 1);
    assert_eq!(
        room.message_history[0].content,
        "This message was too long! Keep it under 4,000 characters"
    );
}

#[test]
fn boundary_message_passes_unchanged() {
    let mut rooms = AllRooms::new();
    make_room(&mut rooms, 0, 0, 5);
    join_with_name(&mut rooms, "cid-eve", "eve");
    let exact = "e".repeat(4000);
    rooms.submit_message(
        &room_id(),
        Some(String::from("cid-eve")),
        &TypingRequest { message: exact.clone() },
    );
    let over = "e".repeat(4001);
    rooms.submit_message(
        &room_id(),
        Some(String::from("cid-eve")),
        &TypingRequest { message: over },
    );
    let room = rooms.rooms.get(&room_id()).unwrap();
    assert_eq!(room.message_history[0].content, exact);
    assert_eq!(
        room.message_history[1].content,
        "This message was too long! Keep it under 4,000 characters"
    );
}

#[test]
fn janitor_keeps_living_rooms_untouched() {
    let mut rooms = AllRooms::new();
    make_room(&mut rooms, 0, 0, 5);
    join_with_name(&mut rooms, "cid-alice", "alice");
    rooms.submit_message(
        &room_id(),
        Some(String::from("cid-alice")),
        &TypingRequest { message: String::from("hi") },
    );
    let removed = rooms.cleanup_rooms(10_000);
    assert!(removed.is_empty());
    let room = rooms.rooms.get(&room_id()).unwrap();
    assert_eq!(room.message_history.len(), 1);
    assert_eq!(room.id_to_name.get(&String::from("cid-alice")), Some(&String::from("alice")));
}

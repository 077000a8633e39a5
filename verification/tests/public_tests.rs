use impermachat::public::{create_room, index, CreateRoomForm, CreateRoomResponse};

#[test]
fn index_shows_no_message() {
    let page = index();
    assert!(!page.show_message);
    assert_eq!(page.message, "");
}

#[test]
fn create_room_redirects_to_sanitized_path() {
    let form = CreateRoomForm {
        room_name: String::from("Test Room!"),
        hours: 0,
        minutes: 2,
    };
    match create_room(&form) {
        CreateRoomResponse::Redirect(path) => {
            assert_eq!(path, "/room/testroom?hours=0&minutes=2");
        },
        CreateRoomResponse::Page(_) => panic!("expected a redirect"),
    }
}

#[test]
fn create_room_blank_name_complains() {
    let form = CreateRoomForm { room_name: String::from("   "), hours: 1, minutes: 0 };
    match create_room(&form) {
        CreateRoomResponse::Page(page) => {
            assert!(page.show_message);
            assert_eq!(page.message, "Enter a room name");
        },
        CreateRoomResponse::Redirect(_) => panic!("expected the landing page"),
    }
}

#[test]
fn create_room_empty_name_complains() {
    let form = CreateRoomForm { room_name: String::new(), hours: 0, minutes: 1 };
    assert!(matches!(create_room(&form), CreateRoomResponse::Page(_)));
}

#[test]
fn create_room_unicode_blank_name_complains() {
    // vertical tab, form feed, no-break space, em space: all whitespace to
    // the usual string trim
    let form = CreateRoomForm {
        room_name: String::from("\u{000B}\u{000C}\u{00A0}\u{2003}"),
        hours: 0,
        minutes: 1,
    };
    match create_room(&form) {
        CreateRoomResponse::Page(page) => {
            assert!(page.show_message);
            assert_eq!(page.message, "Enter a room name");
        },
        CreateRoomResponse::Redirect(_) => panic!("expected the landing page"),
    }
}

#[test]
fn create_room_name_with_exotic_whitespace_around_it_redirects() {
    let form = CreateRoomForm {
        room_name: String::from("\u{00A0}Room\u{2028}"),
        hours: 0,
        minutes: 1,
    };
    match create_room(&form) {
        CreateRoomResponse::Redirect(path) => {
            assert_eq!(path, "/room/room?hours=0&minutes=1");
        },
        CreateRoomResponse::Page(_) => panic!("expected a redirect"),
    }
}

//! The landing surface: the index page model, room-name sanitization, and
//! the create-room decision that turns a form into a redirect target.

use vstd::prelude::*;
use vstd::string::{StrSliceExecFns, StringExecFns};

use crate::text::{spec_u64_digits, u64_to_string};

verus! {

/// Model of the landing page: an optional status line above the form.
pub struct IndexTemplate {
    pub show_message: bool,
    pub message: String,
}

/// The landing form naming a room and how long it should live.
pub struct CreateRoomForm {
    pub room_name: String,
    pub hours: u64,
    pub minutes: u64,
}

/// What the create-room endpoint answers: the landing page again, or a
/// redirect to the room path.
pub enum CreateRoomResponse {
    Page(IndexTemplate),
    Redirect(String),
}

/// Characters a room name may keep: ASCII letters, digits, `-` and `_`.
pub open spec fn keep_char(c: char) -> bool {
    let u = c as u32;
    (97 <= u && u <= 122) || (65 <= u && u <= 90) || (48 <= u && u <= 57) || u == 45 || u == 95
}

/// ASCII uppercase folded to lowercase; everything else unchanged.
pub open spec fn lower_char(c: char) -> char {
    let u = c as u32;
    if 65 <= u && u <= 90 {
        ((u + 32) as u32) as char
    } else {
        c
    }
}

/// A sanitized room name: only the kept characters, lowercased.
pub open spec fn spec_sanitize(s: Seq<char>) -> Seq<char>
    decreases s.len(),
{
    if s.len() == 0 {
        Seq::empty()
    } else {
        spec_sanitize(s.drop_last()) + if keep_char(s.last()) {
            seq![lower_char(s.last())]
        } else {
            Seq::<char>::empty()
        }
    }
}

fn lower_str(u: u32) -> (r: &'static str)
    requires
        65 <= u && u <= 90,
    ensures
        r@ == seq![((u + 32) as u32) as char],
{
    proof {
        reveal_strlit("a");
        reveal_strlit("b");
        reveal_strlit("c");
        reveal_strlit("d");
        reveal_strlit("e");
        reveal_strlit("f");
        reveal_strlit("g");
        reveal_strlit("h");
        reveal_strlit("i");
        reveal_strlit("j");
        reveal_strlit("k");
        reveal_strlit("l");
        reveal_strlit("m");
        reveal_strlit("n");
        reveal_strlit("o");
        reveal_strlit("p");
        reveal_strlit("q");
        reveal_strlit("r");
        reveal_strlit("s");
        reveal_strlit("t");
        reveal_strlit("u");
        reveal_strlit("v");
        reveal_strlit("w");
        reveal_strlit("x");
        reveal_strlit("y");
        reveal_strlit("z");
    }
    let r = match u {
        65 => "a",
        66 => "b",
        67 => "c",
        68 => "d",
        69 => "e",
        70 => "f",
        71 => "g",
        72 => "h",
        73 => "i",
        74 => "j",
        75 => "k",
        76 => "l",
        77 => "m",
        78 => "n",
        79 => "o",
        80 => "p",
        81 => "q",
        82 => "r",
        83 => "s",
        84 => "t",
        85 => "u",
        86 => "v",
        87 => "w",
        88 => "x",
        89 => "y",
        _ => "z",
    };
    proof {
        assert(r@ =~= seq![((u + 32) as u32) as char]);
    }
    r
}

/// Keep only `[A-Za-z0-9_-]` and lowercase the result.
#[verifier::loop_isolation(false)]
pub fn sanitize_room_name(name: &str) -> (r: String)
    ensures
        r@ == spec_sanitize(name@),
{
    let n = name.unicode_len();
    let mut out = String::new();
    let mut i: usize = 0;
    proof {
        assert(name@.subrange(0, 0) =~= Seq::<char>::empty());
    }
    while i < n
        invariant
            i <= n,
            out@ == spec_sanitize(name@.subrange(0, i as int)),
        decreases n - i,
    {
        let c = name.get_char(i);
        let u = c as u32;
        proof {
            assert(name@.subrange(0, i + 1).drop_last() =~= name@.subrange(0, i as int));
            assert(name@.subrange(0, i + 1).last() == c);
        }
        if 65 <= u && u <= 90 {
            out.append(lower_str(u));
            proof {
                assert(out@ =~= spec_sanitize(name@.subrange(0, i + 1)));
            }
        } else if (97 <= u && u <= 122) || (48 <= u && u <= 57) || u == 45 || u == 95 {
            out.append(name.substring_char(i, i + 1));
            proof {
                assert(name@.subrange(i as int, i + 1) =~= seq![c]);
                assert(lower_char(c) == c);
                assert(out@ =~= spec_sanitize(name@.subrange(0, i + 1)));
            }
        } else {
            proof {
                assert(out@ =~= spec_sanitize(name@.subrange(0, i + 1)));
            }
        }
        i = i + 1;
    }
    proof {
        assert(name@.subrange(0, n as int) =~= name@);
    }
    out
}

/// Sanitizing a name a second time changes nothing.
pub proof fn lemma_sanitize_idempotent(s: Seq<char>)
    ensures
        spec_sanitize(spec_sanitize(s)) == spec_sanitize(s),
    decreases s.len(),
{
    if s.len() == 0 {
    } else {
        lemma_sanitize_idempotent(s.drop_last());
        let c = s.last();
        if keep_char(c) {
            let d = lower_char(c);
            assert(keep_char(d));
            assert(lower_char(d) == d);
            let prev = spec_sanitize(s.drop_last());
            assert(spec_sanitize(s) == prev + seq![d]);
            assert((prev + seq![d]).drop_last() =~= prev);
            assert((prev + seq![d]).last() == d);
            assert(spec_sanitize(spec_sanitize(s)) =~= spec_sanitize(s));
        } else {
            assert(spec_sanitize(s) =~= spec_sanitize(s.drop_last()));
        }
    }
}

/// A blank character, for deciding whether a submitted room name is
/// effectively empty: every character with Unicode's White_Space property,
/// the set the usual string trim removes.
pub open spec fn is_blank_char(c: char) -> bool {
    let u = c as u32;
    ||| u == 0x09
    ||| u == 0x0A
    ||| u == 0x0B
    ||| u == 0x0C
    ||| u == 0x0D
    ||| u == 0x20
    ||| u == 0x85
    ||| u == 0xA0
    ||| u == 0x1680
    ||| (0x2000 <= u && u <= 0x200A)
    ||| u == 0x2028
    ||| u == 0x2029
    ||| u == 0x202F
    ||| u == 0x205F
    ||| u == 0x3000
}

/// A name that is empty or all blanks.
pub open spec fn is_blank(s: Seq<char>) -> bool {
    forall|i: int| 0 <= i < s.len() ==> is_blank_char(s[i])
}

/// The path a created room redirects to, keeping the requested lifetime in
/// the query string.
pub open spec fn spec_room_path(name: Seq<char>, hours: nat, minutes: nat) -> Seq<char> {
    seq!['/', 'r', 'o', 'o', 'm', '/'] + spec_sanitize(name) + seq![
        '?',
        'h',
        'o',
        'u',
        'r',
        's',
        '=',
    ] + spec_u64_digits(hours) + seq!['&', 'm', 'i', 'n', 'u', 't', 'e', 's', '=']
        + spec_u64_digits(minutes)
}

#[verifier::loop_isolation(false)]
fn is_blank_exec(s: &str) -> (r: bool)
    ensures
        r == is_blank(s@),
{
    let n = s.unicode_len();
    let mut i: usize = 0;
    while i < n
        invariant
            i <= n,
            forall|m: int| 0 <= m < i ==> is_blank_char(s@[m]),
        decreases n - i,
    {
        let c = s.get_char(i);
        let u = c as u32;
        let blank = u == 0x09 || u == 0x0A || u == 0x0B || u == 0x0C || u == 0x0D || u == 0x20
            || u == 0x85 || u == 0xA0 || u == 0x1680 || (0x2000 <= u && u <= 0x200A) || u == 0x2028
            || u == 0x2029 || u == 0x202F || u == 0x205F || u == 0x3000;
        if !blank {
            return false;
        }
        i = i + 1;
    }
    true
}

/// The landing page, with no status line.
pub fn index() -> (t: IndexTemplate)
    ensures
        t.show_message == false,
        t.message@ == Seq::<char>::empty(),
{
    IndexTemplate { show_message: false, message: String::new() }
}

/// Decide what the create-room form leads to: a complaint when the name is
/// blank, otherwise a redirect to the sanitized room path.
pub fn create_room(create_room_form: &CreateRoomForm) -> (r: CreateRoomResponse)
    ensures
        match r {
            CreateRoomResponse::Page(t) => {
                &&& is_blank(create_room_form.room_name@)
                &&& t.show_message == true
                &&& t.message@ == "Enter a room name"@
            },
            CreateRoomResponse::Redirect(p) => {
                &&& !is_blank(create_room_form.room_name@)
                &&& p@ == spec_room_path(
                    create_room_form.room_name@,
                    create_room_form.hours as nat,
                    create_room_form.minutes as nat,
                )
            },
        },
{
    if is_blank_exec(create_room_form.room_name.as_str()) {
        return CreateRoomResponse::Page(
            IndexTemplate { show_message: true, message: "Enter a room name".to_owned() },
        );
    }
    let mut p = "/room/".to_owned();
    let sanitized = sanitize_room_name(create_room_form.room_name.as_str());
    p.append(sanitized.as_str());
    p.append("?hours=");
    let h = u64_to_string(create_room_form.hours);
    p.append(h.as_str());
    p.append("&minutes=");
    let m = u64_to_string(create_room_form.minutes);
    p.append(m.as_str());
    proof {
        reveal_strlit("/room/");
        reveal_strlit("?hours=");
        reveal_strlit("&minutes=");
        assert("/room/"@ =~= seq!['/', 'r', 'o', 'o', 'm', '/']);
        assert("?hours="@ =~= seq!['?', 'h', 'o', 'u', 'r', 's', '=']);
        assert("&minutes="@ =~= seq!['&', 'm', 'i', 'n', 'u', 't', 'e', 's', '=']);
        assert(p@ =~= spec_room_path(
            create_room_form.room_name@,
            create_room_form.hours as nat,
            create_room_form.minutes as nat,
        ));
    }
    CreateRoomResponse::Redirect(p)
}

} // verus!

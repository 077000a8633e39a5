//! Pure helpers of the room engine: the deterministic name-to-color hash,
//! the countdown formatter, the per-line `fragments ` framing for pushed
//! HTML, and the connection cookie lookup.

use vstd::prelude::*;
use vstd::string::{StrSliceExecFns, StringExecFns};
use vstd::utf8::encode_utf8;
use vstd::wrapping::u32_specs;

use crate::text::{hex_byte_push, hex_digit_char, pad2_string, spec_pad2};

verus! {

/// The color hash folded over the UTF-8 bytes of a name: add each byte,
/// then multiply by 31, both wrapping at 32 bits.
pub open spec fn color_hash(bytes: Seq<u8>) -> u32
    decreases bytes.len(),
{
    if bytes.len() == 0 {
        0u32
    } else {
        u32_specs::wrapping_mul(
            u32_specs::wrapping_add(color_hash(bytes.drop_last()), bytes.last() as u32),
            31u32,
        )
    }
}

/// Two lowercase hex digits of a channel value below 256.
pub open spec fn hex2(v: nat) -> Seq<char> {
    seq![hex_digit_char((v / 16) as int), hex_digit_char((v % 16) as int)]
}

/// The `#rrggbb` color a name maps to: each channel is a slice of the hash
/// squeezed into 55..=254 so no color comes out near black.
pub open spec fn spec_name_to_color(name: Seq<char>) -> Seq<char> {
    let h = color_hash(encode_utf8(name));
    seq!['#'] + hex2((h % 200 + 55) as nat) + hex2((h / 256 % 200 + 55) as nat) + hex2(
        (h / 65536 % 200 + 55) as nat,
    )
}

/// Deterministic name-to-color mapping; the same name always gets the same
/// color, on any machine.
#[verifier::loop_isolation(false)]
pub fn name_to_color(name: &str) -> (r: String)
    ensures
        r@ == spec_name_to_color(name@),
{
    let bytes = name.as_bytes();
    let mut hash: u32 = 0;
    let mut i: usize = 0;
    proof {
        assert(bytes@.subrange(0, 0) =~= Seq::<u8>::empty());
    }
    while i < bytes.len()
        invariant
            i <= bytes@.len(),
            hash == color_hash(bytes@.subrange(0, i as int)),
        decreases bytes@.len() - i,
    {
        hash = hash.wrapping_add(bytes[i] as u32).wrapping_mul(31);
        proof {
            assert(bytes@.subrange(0, i + 1).drop_last() =~= bytes@.subrange(0, i as int));
        }
        i = i + 1;
    }
    proof {
        assert(bytes@.subrange(0, bytes@.len() as int) =~= bytes@);
    }
    let rc = hash % 200 + 55;
    let gc = hash / 256 % 200 + 55;
    let bc = hash / 65536 % 200 + 55;
    proof {
        reveal_strlit("#");
    }
    let mut s = "#".to_owned();
    hex_byte_push(&mut s, rc as u64);
    hex_byte_push(&mut s, gc as u64);
    hex_byte_push(&mut s, bc as u64);
    proof {
        assert(s@ =~= spec_name_to_color(name@));
    }
    s
}

/// The fixed tail of every countdown signal.
pub open spec fn remaining_suffix() -> Seq<char> {
    seq![' ', 'r', 'e', 'm', 'a', 'i', 'n', 'i', 'n', 'g', '.', '.', '.']
}

/// `HH:MM:SS remaining...`, each field two-digit zero-padded.
pub open spec fn spec_format_time(total_seconds: nat) -> Seq<char> {
    spec_pad2(total_seconds / 3600) + seq![':'] + spec_pad2((total_seconds % 3600) / 60)
        + seq![':'] + spec_pad2(total_seconds % 60) + remaining_suffix()
}

/// Render the time a room still has to live.
pub fn format_time(total_seconds: u64) -> (r: String)
    ensures
        r@ == spec_format_time(total_seconds as nat),
{
    let hours = total_seconds / 3600;
    let minutes = (total_seconds % 3600) / 60;
    let seconds = total_seconds % 60;
    let mut s = pad2_string(hours);
    let m = pad2_string(minutes);
    let sec = pad2_string(seconds);
    s.append(":");
    s.append(m.as_str());
    s.append(":");
    s.append(sec.as_str());
    s.append(" remaining...");
    proof {
        reveal_strlit(":");
        reveal_strlit(" remaining...");
        assert(" remaining..."@ =~= remaining_suffix());
        assert(s@ =~= spec_format_time(total_seconds as nat));
    }
    s
}

/// The token every pushed HTML line is prefixed with.
pub open spec fn fragments_prefix() -> Seq<char> {
    seq!['f', 'r', 'a', 'g', 'm', 'e', 'n', 't', 's', ' ']
}

/// A line terminated by a newline loses a carriage return directly before
/// that newline; an unterminated final line keeps every character.
pub open spec fn strip_cr(line: Seq<char>) -> Seq<char> {
    if line.len() > 0 && line.last() == '\r' {
        line.drop_last()
    } else {
        line
    }
}

/// One pass over the rendered text: `out` is what has been emitted, `cur`
/// the line being collected. Every completed line is emitted as
/// `fragments <line>\n`; a nonempty final line is emitted the same way.
pub open spec fn frag_fold(rest: Seq<char>, out: Seq<char>, cur: Seq<char>) -> Seq<char>
    decreases rest.len(),
{
    if rest.len() == 0 {
        if cur.len() == 0 {
            out
        } else {
            out + fragments_prefix() + cur + seq!['\n']
        }
    } else if rest.first() == '\n' {
        frag_fold(rest.drop_first(), out + fragments_prefix() + strip_cr(cur) + seq!['\n'], Seq::empty())
    } else {
        frag_fold(rest.drop_first(), out, cur.push(rest.first()))
    }
}

/// The per-line framed form of a rendered template.
pub open spec fn spec_fragments_event(s: Seq<char>) -> Seq<char> {
    frag_fold(s, Seq::empty(), Seq::empty())
}

/// Re-frame rendered HTML so each source line becomes one `fragments ` data
/// line; consumers concatenate them back together.
#[verifier::loop_isolation(false)]
pub fn create_fragments_event(rendered_template: String) -> (r: String)
    ensures
        r@ == spec_fragments_event(rendered_template@),
{
    let t = rendered_template.as_str();
    let n = t.unicode_len();
    let mut out = String::new();
    let mut start: usize = 0;
    let mut i: usize = 0;
    proof {
        assert(t@.subrange(0, n as int) =~= t@);
        assert(t@.subrange(0, 0) =~= Seq::<char>::empty());
    }
    while i < n
        invariant
            start <= i <= n,
            spec_fragments_event(rendered_template@) == frag_fold(
                t@.subrange(i as int, n as int),
                out@,
                t@.subrange(start as int, i as int),
            ),
        decreases n - i,
    {
        let ghost rest0 = t@.subrange(i as int, n as int);
        let ghost cur0 = t@.subrange(start as int, i as int);
        let ghost out0 = out@;
        let c = t.get_char(i);
        proof {
            assert(rest0.first() == t@[i as int]);
            assert(rest0.drop_first() =~= t@.subrange(i + 1, n as int));
        }
        if c == '\n' {
            let mut end = i;
            if end > start && t.get_char(end - 1) == '\r' {
                end = end - 1;
            }
            out.append("fragments ");
            out.append(t.substring_char(start, end));
            out.append("\n");
            proof {
                reveal_strlit("fragments ");
                reveal_strlit("\n");
                assert("fragments "@ =~= fragments_prefix());
                assert("\n"@ =~= seq!['\n']);
                assert(strip_cr(cur0) =~= t@.subrange(start as int, end as int));
                assert(out@ =~= out0 + fragments_prefix() + strip_cr(cur0) + seq!['\n']);
                assert(t@.subrange(i + 1, i + 1) =~= Seq::<char>::empty());
            }
            start = i + 1;
        } else {
            proof {
                assert(cur0.push(rest0.first()) =~= t@.subrange(start as int, i + 1));
            }
        }
        i = i + 1;
    }
    if start < n {
        let ghost out0 = out@;
        let ghost cur0 = t@.subrange(start as int, n as int);
        out.append("fragments ");
        out.append(t.substring_char(start, n));
        out.append("\n");
        proof {
            reveal_strlit("fragments ");
            reveal_strlit("\n");
            assert("fragments "@ =~= fragments_prefix());
            assert("\n"@ =~= seq!['\n']);
            assert(t@.subrange(n as int, n as int) =~= Seq::<char>::empty());
            assert(out@ =~= out0 + fragments_prefix() + cur0 + seq!['\n']);
        }
    } else {
        proof {
            assert(t@.subrange(n as int, n as int) =~= Seq::<char>::empty());
            assert(t@.subrange(start as int, n as int) =~= Seq::<char>::empty());
        }
    }
    out
}

/// One pass splitting a header at every `;`: `cur` is the piece being
/// collected, `acc` the pieces already complete. A trailing or empty piece
/// still counts, as with the usual string split.
pub open spec fn split_fold(rest: Seq<char>, cur: Seq<char>, acc: Seq<Seq<char>>) -> Seq<Seq<char>>
    decreases rest.len(),
{
    if rest.len() == 0 {
        acc.push(cur)
    } else if rest.first() == ';' {
        split_fold(rest.drop_first(), Seq::empty(), acc.push(cur))
    } else {
        split_fold(rest.drop_first(), cur.push(rest.first()), acc)
    }
}

/// The `;`-separated pieces of a header value.
pub open spec fn split_semi(s: Seq<char>) -> Seq<Seq<char>> {
    split_fold(s, Seq::empty(), Seq::empty())
}

/// Drop leading blanks from one cookie piece.
pub open spec fn ltrim(s: Seq<char>) -> Seq<char>
    decreases s.len(),
{
    if s.len() > 0 && (s.first() == ' ' || s.first() == '\t') {
        ltrim(s.drop_first())
    } else {
        s
    }
}

/// The name this server stores its connection id under, with the `=` that
/// separates a cookie's name from its value.
pub open spec fn cookie_prefix() -> Seq<char> {
    seq!['i', 'm', 'p', 'e', 'r', 'm', 'a', 'c', 'h', 'a', 't', '_', 'i', 'd', '=']
}

/// Whether one `;`-separated piece carries the connection id.
pub open spec fn seg_match(seg: Seq<char>) -> bool {
    ltrim(seg).len() >= cookie_prefix().len() && ltrim(seg).subrange(
        0,
        cookie_prefix().len() as int,
    ) == cookie_prefix()
}

/// The value of the first piece that carries the connection id.
pub open spec fn find_cookie(segs: Seq<Seq<char>>) -> Option<Seq<char>>
    decreases segs.len(),
{
    if segs.len() == 0 {
        None
    } else if seg_match(segs.first()) {
        Some(ltrim(segs.first()).skip(cookie_prefix().len() as int))
    } else {
        find_cookie(segs.drop_first())
    }
}

/// The connection id a `Cookie` header carries, if any.
pub open spec fn spec_connection_cookie(header: Seq<char>) -> Option<Seq<char>> {
    find_cookie(split_semi(header))
}

#[verifier::loop_isolation(false)]
fn split_semi_exec<'a>(s: &'a str) -> (segs: Vec<&'a str>)
    ensures
        segs@.map_values(|t: &str| t@) == split_semi(s@),
{
    let n = s.unicode_len();
    let mut segs: Vec<&str> = Vec::new();
    let mut start: usize = 0;
    let mut i: usize = 0;
    proof {
        assert(s@.subrange(0, n as int) =~= s@);
        assert(s@.subrange(0, 0) =~= Seq::<char>::empty());
        assert(segs@.map_values(|t: &str| t@) =~= Seq::<Seq<char>>::empty());
    }
    while i < n
        invariant
            start <= i <= n,
            split_semi(s@) == split_fold(
                s@.subrange(i as int, n as int),
                s@.subrange(start as int, i as int),
                segs@.map_values(|t: &str| t@),
            ),
        decreases n - i,
    {
        let ghost rest0 = s@.subrange(i as int, n as int);
        let ghost cur0 = s@.subrange(start as int, i as int);
        let ghost acc0 = segs@.map_values(|t: &str| t@);
        let c = s.get_char(i);
        proof {
            assert(rest0.first() == s@[i as int]);
            assert(rest0.drop_first() =~= s@.subrange(i + 1, n as int));
        }
        if c == ';' {
            segs.push(s.substring_char(start, i));
            proof {
                assert(segs@.map_values(|t: &str| t@) =~= acc0.push(cur0));
                assert(s@.subrange(i + 1, i + 1) =~= Seq::<char>::empty());
            }
            start = i + 1;
        } else {
            proof {
                assert(cur0.push(rest0.first()) =~= s@.subrange(start as int, i + 1));
            }
        }
        i = i + 1;
    }
    let ghost acc0 = segs@.map_values(|t: &str| t@);
    segs.push(s.substring_char(start, n));
    proof {
        assert(s@.subrange(n as int, n as int) =~= Seq::<char>::empty());
        assert(segs@.map_values(|t: &str| t@) =~= acc0.push(s@.subrange(start as int, n as int)));
    }
    segs
}

#[verifier::loop_isolation(false)]
fn match_segment(seg: &str) -> (r: Option<String>)
    ensures
        match r {
            Some(v) => seg_match(seg@) && v@ == ltrim(seg@).skip(cookie_prefix().len() as int),
            None => !seg_match(seg@),
        },
{
    let n = seg.unicode_len();
    let mut k: usize = 0;
    proof {
        assert(seg@.subrange(0, n as int) =~= seg@);
    }
    while k < n && (seg.get_char(k) == ' ' || seg.get_char(k) == '\t')
        invariant
            k <= n,
            ltrim(seg@) == ltrim(seg@.subrange(k as int, n as int)),
        decreases n - k,
    {
        proof {
            let sub = seg@.subrange(k as int, n as int);
            assert(sub.first() == seg@[k as int]);
            assert(sub.drop_first() =~= seg@.subrange(k + 1, n as int));
        }
        k = k + 1;
    }
    proof {
        assert(ltrim(seg@) =~= seg@.subrange(k as int, n as int));
    }
    if n - k < 15 {
        return None;
    }
    let p = "impermachat_id=";
    proof {
        reveal_strlit("impermachat_id=");
        assert(p@ =~= cookie_prefix());
    }
    let mut j: usize = 0;
    while j < 15
        invariant
            j <= 15,
            15 <= n - k,
            forall|m: int| 0 <= m < j ==> seg@[k + m] == cookie_prefix()[m],
        decreases 15 - j,
    {
        if seg.get_char(k + j) != p.get_char(j) {
            proof {
                let lt = ltrim(seg@);
                assert(lt[j as int] == seg@[k + j]);
                assert(lt.subrange(0, 15)[j as int] == lt[j as int]);
                assert(lt.subrange(0, 15) != cookie_prefix());
            }
            return None;
        }
        j = j + 1;
    }
    let v = seg.substring_char(k + 15, n).to_owned();
    proof {
        let lt = ltrim(seg@);
        assert(lt.subrange(0, 15) =~= cookie_prefix());
        assert(v@ =~= lt.skip(15));
    }
    Some(v)
}

/// Pull the connection id out of a `Cookie` header value, if the header
/// names `impermachat_id` in any of its `;`-separated pieces.
#[verifier::loop_isolation(false)]
pub fn get_connection_cookie(cookie_header: &str) -> (r: Option<String>)
    ensures
        match r {
            Some(v) => spec_connection_cookie(cookie_header@) == Some(v@),
            None => spec_connection_cookie(cookie_header@) is None,
        },
{
    let segs = split_semi_exec(cookie_header);
    let ghost sv = split_semi(cookie_header@);
    let mut i: usize = 0;
    proof {
        assert(sv.skip(0) =~= sv);
    }
    while i < segs.len()
        invariant
            i <= segs@.len(),
            segs@.map_values(|t: &str| t@) == sv,
            spec_connection_cookie(cookie_header@) == find_cookie(sv.skip(i as int)),
        decreases segs@.len() - i,
    {
        proof {
            assert(sv.skip(i as int).first() == segs@[i as int]@);
            assert(sv.skip(i as int).drop_first() =~= sv.skip(i + 1));
        }
        match match_segment(segs[i]) {
            Some(v) => {
                return Some(v);
            },
            None => {},
        }
        i = i + 1;
    }
    proof {
        assert(sv.skip(i as int).len() == 0);
    }
    None
}

} // verus!

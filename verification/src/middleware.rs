//! The identity middleware's decision: every browser gets a stable
//! connection id in a cookie, minted on the first response that lacks one.

use vstd::prelude::*;
use vstd::string::StringExecFns;

use crate::utils::{get_connection_cookie, spec_connection_cookie};

verus! {

/// Relies on uuid::Uuid::new_v4 and its hyphenated `Display` form: a fresh
/// random version-4 identifier, rendered as 36 characters.
#[verifier::external_body]
pub fn mint_connection_id() -> (r: String)
    ensures
        r@.len() == 36,
{
    uuid::Uuid::new_v4().to_string()
}

/// The full Set-Cookie value bestowing an id.
pub open spec fn spec_identity_cookie(id: Seq<char>) -> Seq<char> {
    "impermachat_id="@ + id + "; Path=/; HttpOnly"@
}

/// Build the Set-Cookie value for a freshly minted id.
pub fn make_identity_cookie(id: &str) -> (r: String)
    ensures
        r@ == spec_identity_cookie(id@),
{
    let mut s = "impermachat_id=".to_owned();
    s.append(id);
    s.append("; Path=/; HttpOnly");
    proof {
        assert(s@ =~= spec_identity_cookie(id@));
    }
    s
}

/// The identity decision (§ identity middleware): a request whose cookie
/// header already carries the connection id passes unchanged; any other —
/// header missing or unreadable — earns a Set-Cookie with a minted id.
pub fn ensure_uid(cookie_header: Option<&String>) -> (r: Option<String>)
    ensures
        match cookie_header {
            Some(h) => (r is Some) == (spec_connection_cookie(h@) is None),
            None => r is Some,
        },
        r matches Some(c) ==> exists|id: Seq<char>|
            id.len() == 36 && c@ == spec_identity_cookie(id),
{
    let has = match cookie_header {
        Some(h) => get_connection_cookie(h.as_str()).is_some(),
        None => false,
    };
    if has {
        None
    } else {
        let fresh = mint_connection_id();
        let c = make_identity_cookie(fresh.as_str());
        proof {
            assert(fresh@.len() == 36 && c@ == spec_identity_cookie(fresh@));
        }
        Some(c)
    }
}

} // verus!

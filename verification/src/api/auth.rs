//! Who may use the part of the API that is for the staff.

use vstd::prelude::*;
use crate::text::{chars_of, has_prefix, starts_with};

verus! {

/// The token that an `Authorization` header carries as a bearer token.
pub open spec fn bearer_token(header: Seq<char>) -> Option<Seq<char>> {
    if has_prefix(header, "Bearer "@) {
        Some(header.skip("Bearer "@.len() as int))
    } else {
        None
    }
}

/// The request carries the staff's token as its bearer token.
pub open spec fn is_staff(header: Option<Seq<char>>, api_token: Seq<char>) -> bool {
    match header {
        Some(header) => bearer_token(header) == Some(api_token),
        None => false,
    }
}

/// The text of the header, if there is one.
pub open spec fn header_view(header: Option<&str>) -> Option<Seq<char>> {
    match header {
        Some(header) => Some(header@),
        None => None,
    }
}

/// Whether a request with this `Authorization` header, if any, comes from
/// the staff: whether the header is `Bearer`, a blank and the staff's
/// token.
pub fn staff_api_auth(auth_header: Option<&str>, api_token: &str) -> (r: bool)
    ensures
        r == is_staff(header_view(auth_header), api_token@),
{
    let header = match auth_header {
        Some(header) => header,
        None => {
            return false;
        },
    };
    let chars = chars_of(header);
    let start = match starts_with(&chars, "Bearer ") {
        Some(n) => n,
        None => {
            return false;
        },
    };
    let token = chars_of(api_token);
    if chars.len() - start != token.len() {
        proof {
            assert(header@.skip(start as int).len() != api_token@.len());
        }
        return false;
    }
    let mut i: usize = 0;
    while i < token.len()
        invariant
            i <= token.len(),
            start + token.len() == chars.len(),
            start == "Bearer "@.len(),
            has_prefix(header@, "Bearer "@),
            header_view(auth_header) == Some(header@),
            chars@ == header@,
            token@ == api_token@,
            forall|k: int| 0 <= k < i ==> chars@[start + k] == token@[k],
        decreases token.len() - i,
    {
        if chars[start + i] != token[i] {
            proof {
                assert(header@.skip(start as int)[i as int] != api_token@[i as int]);
            }
            return false;
        }
        i += 1;
    }
    proof {
        assert(header@.skip(start as int) =~= api_token@);
    }
    true
}

} // verus!

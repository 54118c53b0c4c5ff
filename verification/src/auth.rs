//! Who sends a request.

use crate::text::characters;
use vstd::prelude::*;

verus! {

/// The bearer token of a request.
pub struct BearerToken(pub String);

/// The status of a request that has no bearer token.
pub const UNAUTHORIZED: u16 = 401;

impl BearerToken {
    /// The token in the header `Authorization`: what follows `Bearer `. A
    /// request without that header, or with another scheme, has none and is
    /// answered with the status of one that is not authorized.
    pub fn from_header(header: Option<&str>) -> (token: Result<BearerToken, u16>)
        ensures
            match header {
                Some(text) if "Bearer "@.is_prefix_of(text@) => {
                    token matches Ok(t) && text@ == "Bearer "@ + t.0@
                },
                _ => token == Err::<BearerToken, u16>(UNAUTHORIZED),
            },
    {
        proof {
            reveal_strlit("Bearer ");
        }
        let text = match header {
            None => {
                return Err(UNAUTHORIZED);
            },
            Some(text) => text,
        };
        let scheme = characters("Bearer ");
        let given = characters(text);
        if given.len() < scheme.len() {
            return Err(UNAUTHORIZED);
        }
        let mut i: usize = 0;
        while i < scheme.len()
            invariant
                i <= scheme@.len() <= given@.len(),
                scheme@ == "Bearer "@,
                given@ == text@,
                header == Some(text),
                forall|j: int| 0 <= j < i ==> scheme@[j] == given@[j],
            ensures
                i == scheme@.len(),
            decreases scheme@.len() - i,
        {
            if scheme[i] != given[i] {
                assert(!"Bearer "@.is_prefix_of(given@));
                return Err(UNAUTHORIZED);
            }
            i = i + 1;
        }
        let token = text.substring_char(scheme.len(), given.len());
        assert(text@ =~= "Bearer "@ + token@);
        Ok(BearerToken(token.to_string()))
    }
}

/// What stands behind the scheme is the token, all of it, whatever it is.
pub proof fn law_a_token_is_what_follows_the_scheme(
    header: &str,
    token: Seq<char>,
    read: Result<BearerToken, u16>,
)
    requires
        header@ == "Bearer "@ + token,
        call_ensures(BearerToken::from_header, (Some(header),), read),
    ensures
        read matches Ok(given) && given.0@ == token,
{
    assert("Bearer "@.is_prefix_of(header@));
    if let Ok(given) = read {
        let n = "Bearer "@.len() as int;
        assert(header@.skip(n) =~= token);
        assert(("Bearer "@ + given.0@).skip(n) =~= given.0@);
    }
}

/// A request is authorized only by a header that starts with the scheme, and
/// without one the answer is that of a request that is not.
pub proof fn law_no_token_without_the_scheme(header: Option<&str>, read: Result<BearerToken, u16>)
    requires
        call_ensures(BearerToken::from_header, (header,), read),
    ensures
        match read {
            Ok(token) => header matches Some(text) && text@ == seq![
                'B',
                'e',
                'a',
                'r',
                'e',
                'r',
                ' ',
            ] + token.0@,
            Err(status) => status == 401,
        },
        header is None ==> read is Err,
{
    reveal_strlit("Bearer ");
    assert("Bearer "@ =~= seq!['B', 'e', 'a', 'r', 'e', 'r', ' ']);
}

} // verus!

//! Token authentication for the dispatch layer.

use vstd::prelude::*;

use crate::error::TunnelError;

verus! {

/// Authentication configuration: the expected token and the header it is
/// read from.
#[derive(Clone)]
pub struct AuthConfig {
    pub token: String,
    pub header: String,
}

/// The value of the first header named `name`, if any.
pub open spec fn header_lookup(hs: Seq<(String, String)>, name: Seq<char>) -> Option<Seq<char>>
    decreases hs,
{
    if hs.len() == 0 {
        None
    } else if hs[0].0@ == name {
        Some(hs[0].1@)
    } else {
        header_lookup(hs.drop_first(), name)
    }
}

/// Validates the authentication token: `Ok` exactly when the configured
/// header is present and carries exactly the configured token; any other
/// request is unauthorized.
#[verifier::loop_isolation(false)]
pub fn validate_auth(headers: &Vec<(String, String)>, config: &AuthConfig) -> (r: Result<
    (),
    TunnelError,
>)
    ensures
        r is Ok <==> header_lookup(headers@, config.header@) == Some(config.token@),
        r matches Err(e) ==> e is Unauthorized,
{
    let n = headers.len();
    let mut i: usize = 0;
    proof {
        assert(headers@.skip(0) =~= headers@);
    }
    while i < n
        invariant
            i <= n,
            header_lookup(headers@, config.header@) == header_lookup(
                headers@.skip(i as int),
                config.header@,
            ),
        decreases n - i,
    {
        proof {
            assert(headers@.skip(i as int)[0] == headers@[i as int]);
        }
        if headers[i].0 == config.header {
            if headers[i].1 == config.token {
                return Ok(());
            } else {
                return Err(TunnelError::Unauthorized);
            }
        }
        proof {
            assert(headers@.skip(i as int).drop_first() =~= headers@.skip(i + 1 as int));
        }
        i = i + 1;
    }
    proof {
        assert(headers@.skip(n as int).len() == 0);
    }
    Err(TunnelError::Unauthorized)
}

/// The authentication decision for one request: CORS preflight requests
/// (method `OPTIONS`) bypass authentication; every other request must
/// carry the configured token.
pub fn auth_decision(method: &str, headers: &Vec<(String, String)>, config: &AuthConfig) -> (r:
    Result<(), TunnelError>)
    ensures
        method@ == "OPTIONS"@ ==> r is Ok,
        method@ != "OPTIONS"@ ==> (r is Ok <==> header_lookup(headers@, config.header@) == Some(
            config.token@,
        )),
        r matches Err(e) ==> e is Unauthorized,
{
    let m: String = method.to_owned();
    if m == "OPTIONS".to_owned() {
        return Ok(());
    }
    validate_auth(headers, config)
}

} // verus!

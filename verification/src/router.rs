//! The router: a pure function from method and path to a handler.

use crate::codec::bytes_eq;
use crate::codec::Method;
use vstd::prelude::*;
use vstd::string::StringSliceAdditionalSpecFns;

verus! {

/// Where a request is sent.
#[derive(Clone, Copy, Debug, PartialEq, Eq, Structural)]
pub enum Route {
    ListUsers,
    CreateUser,
    UpdateUser,
    DeleteUser,
    CorsPreflight,
    MethodNotAllowed,
    NotFound,
}

/// Whether a path names the users resource; with or without the trailing
/// slash, it is the same resource.
pub open spec fn spec_users_path(path: Seq<u8>) -> bool {
    path == ("/users").spec_bytes() || path == ("/users/").spec_bytes()
}

/// The routing rule. The path is looked at first: an unknown path is not
/// found whatever the method, and only a known path with an unsupported
/// method is refused as such.
pub open spec fn spec_route(m: Method, path: Seq<u8>) -> Route {
    if spec_users_path(path) {
        match m {
            Method::Get => Route::ListUsers,
            Method::Post => Route::CreateUser,
            Method::Put => Route::UpdateUser,
            Method::Delete => Route::DeleteUser,
            Method::Options => Route::CorsPreflight,
            Method::Other => Route::MethodNotAllowed,
        }
    } else {
        Route::NotFound
    }
}

/// Selects the handler for a method and a path.
pub fn route(m: Method, path: &[u8]) -> (r: Route)
    ensures
        r == spec_route(m, path@),
{
    if bytes_eq(path, ("/users").as_bytes()) || bytes_eq(path, ("/users/").as_bytes()) {
        match m {
            Method::Get => Route::ListUsers,
            Method::Post => Route::CreateUser,
            Method::Put => Route::UpdateUser,
            Method::Delete => Route::DeleteUser,
            Method::Options => Route::CorsPreflight,
            Method::Other => Route::MethodNotAllowed,
        }
    } else {
        Route::NotFound
    }
}

} // verus!

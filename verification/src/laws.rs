//! The service's stated laws: properties tying several functions together,
//! each proved once, for all inputs.

use crate::codec::spec_http_response;
use crate::codec::spec_response_head;
use crate::codec::Method;
use crate::handlers::spec_create_name;
use crate::handlers::spec_create_post;
use crate::router::spec_route;
use crate::router::spec_users_path;
use crate::router::Route;
use crate::store::lemma_filter_keeps_all;
use crate::store::spec_delete;
use crate::store::spec_update;
use crate::store::User;
use crate::store::UserStore;
use vstd::prelude::*;
use vstd::string::StringSliceAdditionalSpecFns;

verus! {

/// The routing table. On the users path each method reaches its documented
/// handler and any other method is refused as a method; any other path is
/// not found whatever the method: the path takes precedence.
pub proof fn lemma_router_table(m: Method, p: Seq<u8>)
    ensures
        spec_users_path(p) && m == Method::Get ==> spec_route(m, p) == Route::ListUsers,
        spec_users_path(p) && m == Method::Post ==> spec_route(m, p) == Route::CreateUser,
        spec_users_path(p) && m == Method::Put ==> spec_route(m, p) == Route::UpdateUser,
        spec_users_path(p) && m == Method::Delete ==> spec_route(m, p) == Route::DeleteUser,
        spec_users_path(p) && m == Method::Options ==> spec_route(m, p) == Route::CorsPreflight,
        spec_users_path(p) && m == Method::Other ==> spec_route(m, p) == Route::MethodNotAllowed,
        !spec_users_path(p) ==> spec_route(m, p) == Route::NotFound,
{
}

/// A created row is listed. After a successful create every old row stands
/// unchanged, one new row stands last with the created name and an id of at
/// least 1, and if no old row carried that name, the new row is the only
/// one that does.
pub proof fn lemma_created_row_listed(
    old_s: UserStore,
    new_s: UserStore,
    body: Seq<u8>,
    r: Seq<u8>,
    name: Seq<char>,
)
    requires
        old_s.wf(),
        new_s.wf(),
        spec_create_post(old_s, new_s, body, r),
        spec_create_name(body) == Some(name),
    ensures
        new_s.users@.len() == old_s.users@.len() + 1,
        forall|i: int| 0 <= i < old_s.users@.len() ==> (#[trigger] new_s.users@[i])
            == old_s.users@[i],
        new_s.users@.last().name@ == name,
        new_s.users@.last().id >= 1,
        (forall|i: int| 0 <= i < old_s.users@.len() ==> (#[trigger] old_s.users@[i]).name@ != name)
            ==> (forall|i: int|
            0 <= i < new_s.users@.len() && (#[trigger] new_s.users@[i]).name@ == name ==> i
                == new_s.users@.len() - 1),
{
    assert forall|i: int| 0 <= i < old_s.users@.len() implies (#[trigger] new_s.users@[i])
        == old_s.users@[i] by {
        assert(new_s.users@.drop_last()[i] == new_s.users@[i]);
    }
}

/// An update never creates a row, and updating an id no row carries
/// changes nothing at all.
pub proof fn lemma_update_no_create(users: Seq<User>, id: i64, name: String)
    ensures
        spec_update(users, id, name).len() == users.len(),
        (forall|i: int| 0 <= i < users.len() ==> (#[trigger] users[i]).id != id) ==> spec_update(
            users,
            id,
            name,
        ) == users,
{
    if forall|i: int| 0 <= i < users.len() ==> (#[trigger] users[i]).id != id {
        assert(spec_update(users, id, name) =~= users);
    }
}

/// Deleting is idempotent: a second delete of the same id finds nothing
/// left to remove, and no surviving row carries the deleted id.
pub proof fn lemma_delete_idempotent(users: Seq<User>, id: i64)
    ensures
        spec_delete(spec_delete(users, id), id) == spec_delete(users, id),
        forall|i: int|
            0 <= i < spec_delete(users, id).len() ==> (#[trigger] spec_delete(users, id)[i]).id
                != id,
{
    let once = spec_delete(users, id);
    assert forall|i: int| 0 <= i < once.len() implies (#[trigger] once[i]).id != id by {
        users.lemma_filter_pred(|u: User| u.id != id, i);
    }
    lemma_filter_keeps_all(once, |u: User| u.id != id);
}

/// The emitted `Content-Length` is exact: every response is its head —
/// whose last header field holds the decimal rendering of the body's byte
/// length — then the blank line, then the body bytes, whole and alone.
pub proof fn lemma_content_length_exact(code: nat, status: Seq<char>, body: Seq<u8>)
    ensures
        spec_http_response(code, status, body) == spec_response_head(code, status, body.len()) + (
        "\r\n\r\n").spec_bytes() + body,
{
    assert(spec_http_response(code, status, body) =~= spec_response_head(
        code,
        status,
        body.len(),
    ) + ("\r\n\r\n").spec_bytes() + body);
}

/// That `news` is `olds` with rows for `names` appended, in order.
pub open spec fn spec_rows_appended(olds: Seq<User>, news: Seq<User>, names: Seq<Seq<char>>) -> bool {
    &&& news.len() == olds.len() + names.len()
    &&& forall|i: int| 0 <= i < olds.len() ==> (#[trigger] news[i]) == olds[i]
    &&& forall|k: int| 0 <= k < names.len() ==> (#[trigger] news[olds.len() + k]).name@ == names[k]
}

/// No creates yet: the table is what it was.
pub proof fn lemma_rows_appended_none(olds: Seq<User>)
    ensures
        spec_rows_appended(olds, olds, Seq::<Seq<char>>::empty()),
{
}

/// Serialized creates accumulate. The store is handled under exclusive
/// access, so any set of concurrent creates reaches it as some sequence of
/// single creates; each one keeps every earlier row and appends its own,
/// so after N distinct creates the listing holds all N names.
pub proof fn lemma_rows_appended_step(
    olds: Seq<User>,
    mids: Seq<User>,
    news: Seq<User>,
    names: Seq<Seq<char>>,
    name: Seq<char>,
)
    requires
        spec_rows_appended(olds, mids, names),
        news.len() == mids.len() + 1,
        news.drop_last() == mids,
        news.last().name@ == name,
    ensures
        spec_rows_appended(olds, news, names.push(name)),
{
    assert forall|i: int| 0 <= i < mids.len() implies news[i] == mids[i] by {
        assert(news.drop_last()[i] == news[i]);
    }
}

} // verus!

//! The resource handlers: list, create, update and delete over the users
//! table, and the request dispatcher that ties codec, router and handlers
//! together.

use crate::codec::extract_body;
use crate::codec::http_response;
use crate::codec::method_of;
use crate::codec::options_response;
use crate::codec::spec_body;
use crate::codec::spec_extract_body;
use crate::codec::spec_http_response;
use crate::codec::spec_method;
use crate::codec::spec_parse_ok;
use crate::codec::spec_path;
use crate::codec::split_lines;
use crate::codec::split_tokens;
use crate::codec::views_of;
use crate::codec::OPTIONS_RESPONSE;
use crate::form::decode_form;
use crate::form::first_value;
use crate::form::form_decoded;
use crate::form::is_blank;
use crate::form::parse_id;
use crate::form::spec_blank;
use crate::form::spec_first_value;
use crate::form::spec_parse_i64;
use crate::json::render_response;
use crate::json::render_response_with_errors;
use crate::json::render_users_payload;
use crate::json::spec_data_json;
use crate::json::spec_error_json;
use crate::json::spec_response_json;
use crate::json::Response;
use crate::json::ResponseWithErrors;
use crate::router::route;
use crate::router::spec_route;
use crate::router::Route;
use crate::store::User;
use crate::store::UserStore;
use crate::store::spec_delete;
use vstd::prelude::*;
use vstd::string::StringSliceAdditionalSpecFns;

verus! {

/// The response for a plain status: its envelope as the body.
pub open spec fn spec_status_response(code: nat, status: Seq<char>) -> Seq<u8> {
    spec_http_response(code, status, spec_response_json(status, code))
}

/// The rejection of an invalid mutating request: 400 with a field-specific
/// message.
pub open spec fn spec_reject_response(msg: Seq<char>) -> Seq<u8> {
    spec_http_response(
        400,
        ("Bad Request")@,
        spec_error_json(("Bad Request")@, 400, msg),
    )
}

/// The listing response: 200 with every row.
pub open spec fn spec_list_response(users: Seq<User>) -> Seq<u8> {
    spec_http_response(200, ("OK")@, spec_data_json(("OK")@, 200, users))
}

/// Renders a plain status response.
pub fn status_response(code: u16, status: &str) -> (r: Vec<u8>)
    ensures
        r@ == spec_status_response(code as nat, status@),
{
    let envelope = Response { status: status.to_owned(), code };
    let body = render_response(&envelope);
    http_response(code, status, body.as_slice())
}

/// Renders a 400 rejection with the given message.
pub fn reject_response(msg: &str) -> (r: Vec<u8>)
    ensures
        r@ == spec_reject_response(msg@),
{
    let envelope = ResponseWithErrors {
        status: ("Bad Request").to_owned(),
        code: 400,
        errors: msg.to_owned(),
    };
    let body = render_response_with_errors(&envelope);
    http_response(400, "Bad Request", body.as_slice())
}

/// Renders the answer given when a storage write fails: the original wire
/// format's bare `HTTP/1.1 0` response with an empty body.
pub fn storage_failure_response() -> (r: Vec<u8>)
    ensures
        r@ == spec_http_response(0, ("")@, Seq::<u8>::empty()),
{
    let body: Vec<u8> = Vec::new();
    let r = http_response(0, "", body.as_slice());
    proof {
        assert(body@ =~= Seq::<u8>::empty());
    }
    r
}

/// Lists every row: always 200, rows in insertion order.
pub fn handle_read_users(store: &UserStore) -> (r: Vec<u8>)
    ensures
        r@ == spec_list_response(store.users@),
{
    let users = store.list_all();
    let body = render_users_payload("OK", 200, users);
    http_response(200, "OK", body.as_slice())
}

/// What a create request asks for: the validated name, present exactly
/// when the body is non-empty, carries a `name` field, and that field's
/// first value is not blank.
pub open spec fn spec_create_name(body: Seq<u8>) -> Option<Seq<char>> {
    if body.len() == 0 {
        None
    } else {
        match spec_first_value(form_decoded(body), ("name")@) {
            None => None,
            Some(v) => if spec_blank(v) {
                None
            } else {
                Some(v)
            },
        }
    }
}

/// What the create handler decides from the request lines.
pub enum CreateDecision {
    Reject,
    Insert(String),
}

/// Validates a create request: the name to insert, or a rejection.
pub fn create_decision(request: &Vec<Vec<u8>>) -> (r: CreateDecision)
    ensures
        ({
            let body = spec_extract_body(views_of(request@));
            match r {
                CreateDecision::Reject => spec_create_name(body) is None,
                CreateDecision::Insert(name) => spec_create_name(body) == Some(name@),
            }
        }),
{
    let body = extract_body(request);
    if body.len() == 0 {
        return CreateDecision::Reject;
    }
    let pairs = decode_form(body.as_slice());
    match first_value(&pairs, "name") {
        None => CreateDecision::Reject,
        Some(name) => {
            if is_blank(&name) {
                CreateDecision::Reject
            } else {
                CreateDecision::Insert(name)
            }
        },
    }
}

/// What holds after a create: on a valid name the store gains exactly one
/// row, last, with the next id and that name; otherwise the store is
/// untouched and the caller is told what was missing.
pub open spec fn spec_create_post(
    old_s: UserStore,
    new_s: UserStore,
    body: Seq<u8>,
    r: Seq<u8>,
) -> bool {
    match spec_create_name(body) {
        None => {
            &&& new_s.users@ == old_s.users@
            &&& new_s.next_id == old_s.next_id
            &&& r == spec_reject_response(("Missing 'name' parameter")@)
        },
        Some(name) => {
            &&& new_s.users@.len() == old_s.users@.len() + 1
            &&& new_s.users@.drop_last() == old_s.users@
            &&& new_s.users@.last().id == old_s.next_id
            &&& new_s.users@.last().name@ == name
            &&& new_s.next_id == old_s.next_id + 1
            &&& r == spec_status_response(201, ("Created")@)
        },
    }
}

/// Creates a row from the form field `name`: 201 on success, 400 with
/// `Missing 'name' parameter` when the field is absent or blank.
pub fn handle_create_user(request: &Vec<Vec<u8>>, store: &mut UserStore) -> (r: Vec<u8>)
    requires
        old(store).wf(),
        old(store).can_insert(),
    ensures
        final(store).wf(),
        spec_create_post(*old(store), *final(store), spec_extract_body(views_of(request@)), r@),
{
    match create_decision(request) {
        CreateDecision::Reject => reject_response("Missing 'name' parameter"),
        CreateDecision::Insert(name) => {
            let ghost users0 = store.users@;
            store.insert(name);
            proof {
                assert(store.users@.drop_last() =~= users0);
            }
            status_response(201, "Created")
        },
    }
}

/// What an update request asks for: the raw id and the name, present
/// exactly when the body is non-empty, both fields appear, and neither
/// first value is blank.
pub open spec fn spec_update_fields(body: Seq<u8>) -> Option<(Seq<char>, Seq<char>)> {
    if body.len() == 0 {
        None
    } else {
        match (
            spec_first_value(form_decoded(body), ("id")@),
            spec_first_value(form_decoded(body), ("name")@),
        ) {
            (Some(id), Some(name)) => if spec_blank(id) || spec_blank(name) {
                None
            } else {
                Some((id, name))
            },
            _ => None,
        }
    }
}

/// What the update handler decides from the request lines.
pub enum UpdateDecision {
    Reject,
    Apply(String, String),
}

/// Validates an update request: the raw id and name to apply, or a
/// rejection.
pub fn update_decision(request: &Vec<Vec<u8>>) -> (r: UpdateDecision)
    ensures
        ({
            let body = spec_extract_body(views_of(request@));
            match r {
                UpdateDecision::Reject => spec_update_fields(body) is None,
                UpdateDecision::Apply(id, name) => spec_update_fields(body) == Some(
                    (id@, name@),
                ),
            }
        }),
{
    let body = extract_body(request);
    if body.len() == 0 {
        return UpdateDecision::Reject;
    }
    let pairs = decode_form(body.as_slice());
    let id = first_value(&pairs, "id");
    let name = first_value(&pairs, "name");
    match (id, name) {
        (Some(id), Some(name)) => {
            if is_blank(&id) || is_blank(&name) {
                UpdateDecision::Reject
            } else {
                UpdateDecision::Apply(id, name)
            }
        },
        _ => UpdateDecision::Reject,
    }
}

/// Row-wise effect of renaming `id` to `name`: ids and row count are kept,
/// the matching row takes the name, every other row is untouched.
pub open spec fn spec_renamed(olds: Seq<User>, news: Seq<User>, id: int, name: Seq<char>) -> bool {
    &&& news.len() == olds.len()
    &&& forall|i: int| 0 <= i < olds.len() ==> (#[trigger] news[i]).id == olds[i].id
    &&& forall|i: int|
        0 <= i < olds.len() && olds[i].id == id ==> (#[trigger] news[i]).name@ == name
    &&& forall|i: int| 0 <= i < olds.len() && olds[i].id != id ==> (#[trigger] news[i]) == olds[i]
}

/// What holds after an update: on valid fields the matching row (if any)
/// is renamed and 200 is returned whether or not any row matched — an id
/// that parses to no 64-bit value matches no row; on invalid fields the
/// store is untouched and 400 names the fields.
pub open spec fn spec_update_post(
    old_s: UserStore,
    new_s: UserStore,
    body: Seq<u8>,
    r: Seq<u8>,
) -> bool {
    match spec_update_fields(body) {
        None => {
            &&& new_s.users@ == old_s.users@
            &&& new_s.next_id == old_s.next_id
            &&& r == spec_reject_response(("Missing 'id' or 'name' parameter")@)
        },
        Some((id, name)) => {
            &&& match spec_parse_i64(id) {
                Some(v) => spec_renamed(old_s.users@, new_s.users@, v, name),
                None => new_s.users@ == old_s.users@,
            }
            &&& new_s.next_id == old_s.next_id
            &&& r == spec_status_response(200, ("OK")@)
        },
    }
}

/// Renames the row named by the form fields `id` and `name`: 200 whether
/// or not a row matched (an absent id is a silent no-op), 400 with
/// `Missing 'id' or 'name' parameter` when a field is absent or blank.
pub fn handle_update_user(request: &Vec<Vec<u8>>, store: &mut UserStore) -> (r: Vec<u8>)
    requires
        old(store).wf(),
    ensures
        final(store).wf(),
        spec_update_post(*old(store), *final(store), spec_extract_body(views_of(request@)), r@),
{
    match update_decision(request) {
        UpdateDecision::Reject => reject_response("Missing 'id' or 'name' parameter"),
        UpdateDecision::Apply(id, name) => {
            let ghost users0 = store.users@;
            match parse_id(id.as_str()) {
                Some(v) => {
                    store.update_name(v, name);
                },
                None => {},
            }
            status_response(200, "OK")
        },
    }
}

/// What a delete request asks for: the raw id, present exactly when the
/// body is non-empty, the field appears, and its first value is not blank.
pub open spec fn spec_delete_field(body: Seq<u8>) -> Option<Seq<char>> {
    if body.len() == 0 {
        None
    } else {
        match spec_first_value(form_decoded(body), ("id")@) {
            None => None,
            Some(v) => if spec_blank(v) {
                None
            } else {
                Some(v)
            },
        }
    }
}

/// What the delete handler decides from the request lines.
pub enum DeleteDecision {
    Reject,
    Apply(String),
}

/// Validates a delete request: the raw id to delete, or a rejection.
pub fn delete_decision(request: &Vec<Vec<u8>>) -> (r: DeleteDecision)
    ensures
        ({
            let body = spec_extract_body(views_of(request@));
            match r {
                DeleteDecision::Reject => spec_delete_field(body) is None,
                DeleteDecision::Apply(id) => spec_delete_field(body) == Some(id@),
            }
        }),
{
    let body = extract_body(request);
    if body.len() == 0 {
        return DeleteDecision::Reject;
    }
    let pairs = decode_form(body.as_slice());
    match first_value(&pairs, "id") {
        None => DeleteDecision::Reject,
        Some(id) => {
            if is_blank(&id) {
                DeleteDecision::Reject
            } else {
                DeleteDecision::Apply(id)
            }
        },
    }
}

/// What holds after a delete: on a valid id the matching row (if any) is
/// gone and 200 is returned either way; on an invalid field the store is
/// untouched and 400 names the field.
pub open spec fn spec_delete_post(
    old_s: UserStore,
    new_s: UserStore,
    body: Seq<u8>,
    r: Seq<u8>,
) -> bool {
    match spec_delete_field(body) {
        None => {
            &&& new_s.users@ == old_s.users@
            &&& new_s.next_id == old_s.next_id
            &&& r == spec_reject_response(("Missing 'id' parameter")@)
        },
        Some(id) => {
            &&& match spec_parse_i64(id) {
                Some(v) => new_s.users@ == spec_delete(old_s.users@, v as i64),
                None => new_s.users@ == old_s.users@,
            }
            &&& new_s.next_id == old_s.next_id
            &&& r == spec_status_response(200, ("OK")@)
        },
    }
}

/// Deletes the row named by the form field `id`: 200 whether or not a row
/// matched (deleting an absent id is a silent no-op), 400 with
/// `Missing 'id' parameter` when the field is absent or blank.
pub fn handle_delete_user(request: &Vec<Vec<u8>>, store: &mut UserStore) -> (r: Vec<u8>)
    requires
        old(store).wf(),
    ensures
        final(store).wf(),
        spec_delete_post(*old(store), *final(store), spec_extract_body(views_of(request@)), r@),
{
    match delete_decision(request) {
        DeleteDecision::Reject => reject_response("Missing 'id' parameter"),
        DeleteDecision::Apply(id) => {
            match parse_id(id.as_str()) {
                Some(v) => {
                    store.delete_by_id(v);
                },
                None => {},
            }
            status_response(200, "OK")
        },
    }
}

/// What holds of the answer to a whole buffer: nothing comes back on a
/// malformed request line; otherwise the routed handler's contract holds,
/// and any route that does not mutate leaves the store untouched.
pub open spec fn spec_request_post(
    old_s: UserStore,
    new_s: UserStore,
    buffer: Seq<u8>,
    r: Option<Seq<u8>>,
) -> bool {
    match r {
        None => {
            &&& !spec_parse_ok(buffer)
            &&& new_s.users@ == old_s.users@
            &&& new_s.next_id == old_s.next_id
        },
        Some(resp) => {
            &&& spec_parse_ok(buffer)
            &&& match spec_route(spec_method(buffer), spec_path(buffer)) {
                Route::ListUsers => {
                    &&& new_s.users@ == old_s.users@
                    &&& new_s.next_id == old_s.next_id
                    &&& resp == spec_list_response(old_s.users@)
                },
                Route::CreateUser => spec_create_post(old_s, new_s, spec_body(buffer), resp),
                Route::UpdateUser => spec_update_post(old_s, new_s, spec_body(buffer), resp),
                Route::DeleteUser => spec_delete_post(old_s, new_s, spec_body(buffer), resp),
                Route::CorsPreflight => {
                    &&& new_s.users@ == old_s.users@
                    &&& new_s.next_id == old_s.next_id
                    &&& resp == OPTIONS_RESPONSE.spec_bytes()
                },
                Route::MethodNotAllowed => {
                    &&& new_s.users@ == old_s.users@
                    &&& new_s.next_id == old_s.next_id
                    &&& resp == spec_status_response(405, ("Method Not Allowed")@)
                },
                Route::NotFound => {
                    &&& new_s.users@ == old_s.users@
                    &&& new_s.next_id == old_s.next_id
                    &&& resp == spec_status_response(404, ("Not Found")@)
                },
            }
        },
    }
}

/// Serves one raw request buffer against the store: parse, route, handle,
/// serialize. A malformed request line yields no response at all, and the
/// connection is simply closed.
pub fn handle_request(buffer: &[u8], store: &mut UserStore) -> (r: Option<Vec<u8>>)
    requires
        old(store).wf(),
        spec_parse_ok(buffer@) && spec_route(spec_method(buffer@), spec_path(buffer@))
            == Route::CreateUser ==> old(store).can_insert(),
    ensures
        final(store).wf(),
        spec_request_post(
            *old(store),
            *final(store),
            buffer@,
            match r {
                Some(resp) => Some(resp@),
                None => None,
            },
        ),
{
    let lines = split_lines(buffer);
    if lines.len() == 0 {
        return None;
    }
    let tokens = split_tokens(lines[0].as_slice());
    proof {
        assert(views_of(lines@)[0] == lines@[0]@);
    }
    if tokens.len() < 2 {
        return None;
    }
    let method = method_of(tokens[0].as_slice());
    proof {
        assert(views_of(tokens@)[0] == tokens@[0]@);
        assert(views_of(tokens@)[1] == tokens@[1]@);
    }
    let resp = match route(method, tokens[1].as_slice()) {
        Route::ListUsers => handle_read_users(store),
        Route::CreateUser => handle_create_user(&lines, store),
        Route::UpdateUser => handle_update_user(&lines, store),
        Route::DeleteUser => handle_delete_user(&lines, store),
        Route::CorsPreflight => options_response(),
        Route::MethodNotAllowed => status_response(405, "Method Not Allowed"),
        Route::NotFound => status_response(404, "Not Found"),
    };
    Some(resp)
}

} // verus!

use users_wire::codec::http_response;
use users_wire::codec::options_response;
use users_wire::codec::parse_request;
use users_wire::codec::Method;
use users_wire::form::parse_id;
use users_wire::handlers::handle_create_user;
use users_wire::handlers::handle_delete_user;
use users_wire::handlers::handle_read_users;
use users_wire::handlers::handle_request;
use users_wire::handlers::handle_update_user;
use users_wire::handlers::storage_failure_response;
use users_wire::router::route;
use users_wire::router::Route;
use users_wire::store::UserStore;

fn expected_response(code: u16, status: &str, body: &str) -> Vec<u8> {
    format!(
        "HTTP/1.1 {} {}\r\nAccess-Control-Allow-Origin: *\r\nAccess-Control-Allow-Methods: GET, POST, PUT, DELETE, OPTIONS\r\nAccess-Control-Allow-Headers: Content-Type\r\nContent-Type: application/json\r\nContent-Length: {}\r\n\r\n{}",
        code,
        status,
        body.len(),
        body
    )
    .into_bytes()
}

fn request(text: &str) -> Vec<u8> {
    text.as_bytes().to_vec()
}

fn serve(store: &mut UserStore, text: &str) -> Vec<u8> {
    handle_request(&request(text), store).expect("well-formed request")
}

#[test]
fn router_table() {
    for path in ["/users", "/users/"] {
        let p = path.as_bytes();
        assert_eq!(route(Method::Get, p), Route::ListUsers);
        assert_eq!(route(Method::Post, p), Route::CreateUser);
        assert_eq!(route(Method::Put, p), Route::UpdateUser);
        assert_eq!(route(Method::Delete, p), Route::DeleteUser);
        assert_eq!(route(Method::Options, p), Route::CorsPreflight);
        assert_eq!(route(Method::Other, p), Route::MethodNotAllowed);
    }
    assert_eq!(route(Method::Get, b"/user"), Route::NotFound);
    assert_eq!(route(Method::Get, b"/"), Route::NotFound);
    assert_eq!(route(Method::Other, b"/nowhere"), Route::NotFound);
}

#[test]
fn unknown_path_is_404() {
    let mut store = UserStore::new();
    let r = serve(&mut store, "GET /nothing HTTP/1.1\r\n\r\n");
    assert_eq!(
        r,
        expected_response(404, "Not Found", "{\"status\":\"Not Found\",\"code\":404}")
    );
}

#[test]
fn unsupported_method_on_users_is_405() {
    let mut store = UserStore::new();
    let r = serve(&mut store, "PATCH /users HTTP/1.1\r\n\r\n");
    assert_eq!(
        r,
        expected_response(
            405,
            "Method Not Allowed",
            "{\"status\":\"Method Not Allowed\",\"code\":405}"
        )
    );
}

#[test]
fn options_carries_cors_and_no_body() {
    let mut store = UserStore::new();
    let r = serve(&mut store, "OPTIONS /users HTTP/1.1\r\n\r\n");
    assert_eq!(r, options_response());
    let text = String::from_utf8(r).unwrap();
    assert!(text.starts_with("HTTP/1.1 200 OK\r\n"));
    assert!(text.contains("Access-Control-Allow-Origin: *"));
    assert!(text.ends_with("\r\n\r\n"));
}

#[test]
fn malformed_request_line_gets_no_answer() {
    let mut store = UserStore::new();
    assert!(handle_request(&request("GET\r\n\r\n"), &mut store).is_none());
    assert!(handle_request(&request(""), &mut store).is_none());
    assert!(handle_request(&request("   \r\n\r\n"), &mut store).is_none());
}

#[test]
fn create_then_list_shows_the_row() {
    let mut store = UserStore::new();
    let created = serve(&mut store, "POST /users HTTP/1.1\r\n\r\nname=Ada");
    assert_eq!(
        created,
        expected_response(201, "Created", "{\"status\":\"Created\",\"code\":201}")
    );
    let listed = serve(&mut store, "GET /users HTTP/1.1\r\n\r\n");
    assert_eq!(
        listed,
        expected_response(
            200,
            "OK",
            "{\"status\":\"OK\",\"code\":200,\"data\":[{\"id\":1,\"name\":\"Ada\"}]}"
        )
    );
}

#[test]
fn create_decodes_percent_and_plus() {
    let mut store = UserStore::new();
    serve(&mut store, "POST /users HTTP/1.1\r\n\r\nname=Ada+Lovelace%21");
    let listed = serve(&mut store, "GET /users HTTP/1.1\r\n\r\n");
    assert_eq!(
        listed,
        expected_response(
            200,
            "OK",
            "{\"status\":\"OK\",\"code\":200,\"data\":[{\"id\":1,\"name\":\"Ada Lovelace!\"}]}"
        )
    );
}

#[test]
fn listing_escapes_json_characters() {
    let mut store = UserStore::new();
    serve(&mut store, "POST /users HTTP/1.1\r\n\r\nname=say%20%22hi%22%5C");
    let listed = serve(&mut store, "GET /users HTTP/1.1\r\n\r\n");
    assert_eq!(
        listed,
        expected_response(
            200,
            "OK",
            "{\"status\":\"OK\",\"code\":200,\"data\":[{\"id\":1,\"name\":\"say \\\"hi\\\"\\\\\"}]}"
        )
    );
}

#[test]
fn create_with_blank_name_is_400() {
    let mut store = UserStore::new();
    let r = serve(&mut store, "POST /users HTTP/1.1\r\n\r\nname=%20%20");
    assert_eq!(
        r,
        expected_response(
            400,
            "Bad Request",
            "{\"status\":\"Bad Request\",\"code\":400,\"errors\":\"Missing 'name' parameter\"}"
        )
    );
    let listed = serve(&mut store, "GET /users HTTP/1.1\r\n\r\n");
    assert_eq!(
        listed,
        expected_response(200, "OK", "{\"status\":\"OK\",\"code\":200,\"data\":[]}")
    );
}

#[test]
fn create_with_absent_name_is_400() {
    let mut store = UserStore::new();
    let missing_field = serve(&mut store, "POST /users HTTP/1.1\r\n\r\nfood=cake");
    let empty_body = serve(&mut store, "POST /users HTTP/1.1\r\n\r\n");
    let expected = expected_response(
        400,
        "Bad Request",
        "{\"status\":\"Bad Request\",\"code\":400,\"errors\":\"Missing 'name' parameter\"}",
    );
    assert_eq!(missing_field, expected);
    assert_eq!(empty_body, expected);
}

#[test]
fn create_uses_first_duplicate_field() {
    let mut store = UserStore::new();
    serve(&mut store, "POST /users HTTP/1.1\r\n\r\nname=First&name=Second");
    let listed = serve(&mut store, "GET /users HTTP/1.1\r\n\r\n");
    assert_eq!(
        listed,
        expected_response(
            200,
            "OK",
            "{\"status\":\"OK\",\"code\":200,\"data\":[{\"id\":1,\"name\":\"First\"}]}"
        )
    );
}

#[test]
fn update_renames_the_matching_row() {
    let mut store = UserStore::new();
    serve(&mut store, "POST /users HTTP/1.1\r\n\r\nname=Ada");
    serve(&mut store, "POST /users HTTP/1.1\r\n\r\nname=Alan");
    let updated = serve(&mut store, "PUT /users HTTP/1.1\r\n\r\nid=2&name=Grace");
    assert_eq!(
        updated,
        expected_response(200, "OK", "{\"status\":\"OK\",\"code\":200}")
    );
    let listed = serve(&mut store, "GET /users HTTP/1.1\r\n\r\n");
    assert_eq!(
        listed,
        expected_response(
            200,
            "OK",
            "{\"status\":\"OK\",\"code\":200,\"data\":[{\"id\":1,\"name\":\"Ada\"},{\"id\":2,\"name\":\"Grace\"}]}"
        )
    );
}

#[test]
fn update_of_absent_id_is_200_and_creates_nothing() {
    let mut store = UserStore::new();
    serve(&mut store, "POST /users HTTP/1.1\r\n\r\nname=Ada");
    let updated = serve(&mut store, "PUT /users HTTP/1.1\r\n\r\nid=999&name=Grace");
    assert_eq!(
        updated,
        expected_response(200, "OK", "{\"status\":\"OK\",\"code\":200}")
    );
    let listed = serve(&mut store, "GET /users HTTP/1.1\r\n\r\n");
    assert_eq!(
        listed,
        expected_response(
            200,
            "OK",
            "{\"status\":\"OK\",\"code\":200,\"data\":[{\"id\":1,\"name\":\"Ada\"}]}"
        )
    );
}

#[test]
fn update_with_missing_field_is_400() {
    let mut store = UserStore::new();
    serve(&mut store, "POST /users HTTP/1.1\r\n\r\nname=Ada");
    let expected = expected_response(
        400,
        "Bad Request",
        "{\"status\":\"Bad Request\",\"code\":400,\"errors\":\"Missing 'id' or 'name' parameter\"}",
    );
    let no_id = serve(&mut store, "PUT /users HTTP/1.1\r\n\r\nname=Grace");
    let no_name = serve(&mut store, "PUT /users HTTP/1.1\r\n\r\nid=1");
    let blank_id = serve(&mut store, "PUT /users HTTP/1.1\r\n\r\nid=%20&name=Grace");
    assert_eq!(no_id, expected);
    assert_eq!(no_name, expected);
    assert_eq!(blank_id, expected);
}

#[test]
fn delete_twice_is_idempotent() {
    let mut store = UserStore::new();
    serve(&mut store, "POST /users HTTP/1.1\r\n\r\nname=Ada");
    serve(&mut store, "POST /users HTTP/1.1\r\n\r\nname=Alan");
    let ok = expected_response(200, "OK", "{\"status\":\"OK\",\"code\":200}");
    let first = serve(&mut store, "DELETE /users HTTP/1.1\r\n\r\nid=1");
    assert_eq!(first, ok);
    let listed = serve(&mut store, "GET /users HTTP/1.1\r\n\r\n");
    assert_eq!(
        listed,
        expected_response(
            200,
            "OK",
            "{\"status\":\"OK\",\"code\":200,\"data\":[{\"id\":2,\"name\":\"Alan\"}]}"
        )
    );
    let second = serve(&mut store, "DELETE /users HTTP/1.1\r\n\r\nid=1");
    assert_eq!(second, ok);
    let listed_again = serve(&mut store, "GET /users HTTP/1.1\r\n\r\n");
    assert_eq!(listed_again, listed);
}

#[test]
fn delete_with_missing_id_is_400() {
    let mut store = UserStore::new();
    let expected = expected_response(
        400,
        "Bad Request",
        "{\"status\":\"Bad Request\",\"code\":400,\"errors\":\"Missing 'id' parameter\"}",
    );
    let empty_body = serve(&mut store, "DELETE /users HTTP/1.1\r\n\r\n");
    let other_field = serve(&mut store, "DELETE /users HTTP/1.1\r\n\r\nname=Ada");
    assert_eq!(empty_body, expected);
    assert_eq!(other_field, expected);
}

#[test]
fn ids_are_monotone_and_never_reused() {
    let mut store = UserStore::new();
    serve(&mut store, "POST /users HTTP/1.1\r\n\r\nname=A");
    serve(&mut store, "POST /users HTTP/1.1\r\n\r\nname=B");
    serve(&mut store, "DELETE /users HTTP/1.1\r\n\r\nid=2");
    serve(&mut store, "POST /users HTTP/1.1\r\n\r\nname=C");
    let listed = serve(&mut store, "GET /users HTTP/1.1\r\n\r\n");
    assert_eq!(
        listed,
        expected_response(
            200,
            "OK",
            "{\"status\":\"OK\",\"code\":200,\"data\":[{\"id\":1,\"name\":\"A\"},{\"id\":3,\"name\":\"C\"}]}"
        )
    );
}

#[test]
fn serialized_creates_all_land() {
    let mut store = UserStore::new();
    let names = ["n1", "n2", "n3", "n4", "n5", "n6", "n7", "n8"];
    for name in names {
        let r = serve(
            &mut store,
            &format!("POST /users HTTP/1.1\r\n\r\nname={}", name),
        );
        assert_eq!(
            r,
            expected_response(201, "Created", "{\"status\":\"Created\",\"code\":201}")
        );
    }
    let listed = String::from_utf8(serve(&mut store, "GET /users HTTP/1.1\r\n\r\n")).unwrap();
    for (i, name) in names.iter().enumerate() {
        assert!(listed.contains(&format!("{{\"id\":{},\"name\":\"{}\"}}", i + 1, name)));
    }
    let users = handle_read_users(&store);
    assert!(String::from_utf8(users).unwrap().contains("\"code\":200"));
}

#[test]
fn content_length_is_exact_byte_length() {
    for body in ["", "{}", "{\"status\":\"OK\",\"code\":200}", "émile—☃"] {
        let rendered = http_response(200, "OK", body.as_bytes());
        let text_bytes = rendered;
        let split_at = text_bytes
            .windows(4)
            .position(|w| w == b"\r\n\r\n")
            .expect("blank line");
        let head = std::str::from_utf8(&text_bytes[..split_at]).unwrap();
        let wire_body = &text_bytes[split_at + 4..];
        let marker = "Content-Length: ";
        let start = head.find(marker).expect("content length") + marker.len();
        let declared: usize = head[start..].parse().unwrap();
        assert_eq!(declared, body.len());
        assert_eq!(wire_body, body.as_bytes());
    }
}

#[test]
fn parse_then_render_round_trip() {
    let buffer = request("POST /users HTTP/1.1\r\nHost: here\r\n\r\nname=Ada");
    let parsed = parse_request(&buffer).expect("parses");
    assert_eq!(parsed.method, Method::Post);
    assert_eq!(parsed.path, b"/users".to_vec());
    assert_eq!(parsed.body, b"name=Ada".to_vec());
    let rendered = http_response(200, "OK", &parsed.body);
    let text = String::from_utf8(rendered).unwrap();
    assert!(text.contains("Content-Length: 8\r\n\r\nname=Ada"));
}

#[test]
fn body_needs_a_blank_line() {
    let buffer = request("POST /users HTTP/1.1\r\nname=Ada");
    let parsed = parse_request(&buffer).expect("parses");
    assert_eq!(parsed.body, Vec::<u8>::new());
}

#[test]
fn parse_id_accepts_plain_integers() {
    assert_eq!(parse_id("0"), Some(0));
    assert_eq!(parse_id("123"), Some(123));
    assert_eq!(parse_id("-5"), Some(-5));
    assert_eq!(parse_id("007"), Some(7));
    assert_eq!(parse_id("9223372036854775807"), Some(i64::MAX));
    assert_eq!(parse_id("-9223372036854775808"), Some(i64::MIN));
}

#[test]
fn parse_id_rejects_everything_else() {
    assert_eq!(parse_id(""), None);
    assert_eq!(parse_id("-"), None);
    assert_eq!(parse_id("12a"), None);
    assert_eq!(parse_id(" 7"), None);
    assert_eq!(parse_id("9223372036854775808"), None);
    assert_eq!(parse_id("-9223372036854775809"), None);
    assert_eq!(parse_id("99999999999999999999999"), None);
}

#[test]
fn unparseable_id_is_a_silent_no_op() {
    let mut store = UserStore::new();
    serve(&mut store, "POST /users HTTP/1.1\r\n\r\nname=Ada");
    let ok = expected_response(200, "OK", "{\"status\":\"OK\",\"code\":200}");
    let updated = serve(&mut store, "PUT /users HTTP/1.1\r\n\r\nid=abc&name=Grace");
    let deleted = serve(&mut store, "DELETE /users HTTP/1.1\r\n\r\nid=abc");
    assert_eq!(updated, ok);
    assert_eq!(deleted, ok);
    let listed = serve(&mut store, "GET /users HTTP/1.1\r\n\r\n");
    assert_eq!(
        listed,
        expected_response(
            200,
            "OK",
            "{\"status\":\"OK\",\"code\":200,\"data\":[{\"id\":1,\"name\":\"Ada\"}]}"
        )
    );
}

#[test]
fn storage_failure_reply_matches_the_wire_format() {
    assert_eq!(
        storage_failure_response(),
        expected_response(0, "", "")
    );
}

#[test]
fn handlers_take_request_lines_directly() {
    let mut store = UserStore::new();
    let lines: Vec<Vec<u8>> = vec![
        b"POST /users HTTP/1.1".to_vec(),
        b"".to_vec(),
        b"name=Ada".to_vec(),
    ];
    let created = handle_create_user(&lines, &mut store);
    assert_eq!(
        created,
        expected_response(201, "Created", "{\"status\":\"Created\",\"code\":201}")
    );
    let update_lines: Vec<Vec<u8>> = vec![
        b"PUT /users HTTP/1.1".to_vec(),
        b"".to_vec(),
        b"id=1&name=Grace".to_vec(),
    ];
    let ok = expected_response(200, "OK", "{\"status\":\"OK\",\"code\":200}");
    assert_eq!(handle_update_user(&update_lines, &mut store), ok);
    let delete_lines: Vec<Vec<u8>> =
        vec![b"DELETE /users HTTP/1.1".to_vec(), b"".to_vec(), b"id=1".to_vec()];
    assert_eq!(handle_delete_user(&delete_lines, &mut store), ok);
    let listed = serve(&mut store, "GET /users HTTP/1.1\r\n\r\n");
    assert_eq!(
        listed,
        expected_response(200, "OK", "{\"status\":\"OK\",\"code\":200,\"data\":[]}")
    );
}

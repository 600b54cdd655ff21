use users_wire::json::render_response;
use users_wire::json::render_response_with_data;
use users_wire::json::render_response_with_errors;
use users_wire::json::Response;
use users_wire::json::ResponseWithData;
use users_wire::json::ResponseWithErrors;
use users_wire::store::User;
use users_wire::store::UserStore;

#[test]
fn bare_envelope_renders_status_and_code() {
    let r = Response { status: "Created".to_string(), code: 201 };
    assert_eq!(
        render_response(&r),
        b"{\"status\":\"Created\",\"code\":201}".to_vec()
    );
}

#[test]
fn error_envelope_renders_the_message() {
    let r = ResponseWithErrors {
        status: "Bad Request".to_string(),
        code: 400,
        errors: "Missing 'name' parameter".to_string(),
    };
    assert_eq!(
        render_response_with_errors(&r),
        b"{\"status\":\"Bad Request\",\"code\":400,\"errors\":\"Missing 'name' parameter\"}"
            .to_vec()
    );
}

#[test]
fn data_envelope_renders_rows_in_order() {
    let r = ResponseWithData {
        status: "OK".to_string(),
        code: 200,
        data: vec![
            User { id: 1, name: "Ada".to_string() },
            User { id: -7, name: "negative".to_string() },
        ],
    };
    assert_eq!(
        render_response_with_data(&r),
        b"{\"status\":\"OK\",\"code\":200,\"data\":[{\"id\":1,\"name\":\"Ada\"},{\"id\":-7,\"name\":\"negative\"}]}"
            .to_vec()
    );
}

#[test]
fn data_envelope_escapes_control_characters() {
    let r = ResponseWithData {
        status: "OK".to_string(),
        code: 200,
        data: vec![User { id: 2, name: "a\tb\nc\u{1}".to_string() }],
    };
    assert_eq!(
        render_response_with_data(&r),
        b"{\"status\":\"OK\",\"code\":200,\"data\":[{\"id\":2,\"name\":\"a\\tb\\nc\\u0001\"}]}"
            .to_vec()
    );
}

#[test]
fn store_assigns_ids_from_one() {
    let mut store = UserStore::new();
    store.insert("Ada".to_string());
    store.insert("Alan".to_string());
    let rows = store.list_all();
    assert_eq!(rows.len(), 2);
    assert_eq!(rows[0].id, 1);
    assert_eq!(rows[0].name, "Ada");
    assert_eq!(rows[1].id, 2);
    assert_eq!(rows[1].name, "Alan");
}

#[test]
fn store_update_touches_only_the_matching_row() {
    let mut store = UserStore::new();
    store.insert("Ada".to_string());
    store.insert("Alan".to_string());
    store.update_name(1, "Grace".to_string());
    store.update_name(42, "Nobody".to_string());
    let rows = store.list_all();
    assert_eq!(rows.len(), 2);
    assert_eq!(rows[0].name, "Grace");
    assert_eq!(rows[1].name, "Alan");
}

#[test]
fn store_delete_removes_only_the_matching_row() {
    let mut store = UserStore::new();
    store.insert("Ada".to_string());
    store.insert("Alan".to_string());
    store.delete_by_id(1);
    store.delete_by_id(1);
    let rows = store.list_all();
    assert_eq!(rows.len(), 1);
    assert_eq!(rows[0].id, 2);
    assert_eq!(rows[0].name, "Alan");
}

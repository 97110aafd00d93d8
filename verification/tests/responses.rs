use warp_api::handlers::{
    bad_request_response, create_user_response, hello_response, list_users_outcome,
    list_users_response, not_found_response, post_users_request, DbError, PostAction,
};
use warp_api::json::hex_chars;
use warp_api::user::{user_json_chars, User};

fn cs(s: &str) -> Vec<char> {
    s.chars().collect()
}

fn text(v: &Vec<char>) -> String {
    v.iter().collect()
}

#[test]
fn hello_is_exactly_the_greeting() {
    let r = hello_response();
    assert_eq!(r.status, 200);
    assert_eq!(text(&r.body), "\"Hello, World!\"");
}

#[test]
fn not_found_is_404() {
    let r = not_found_response();
    assert_eq!(r.status, 404);
    assert_eq!(text(&r.body), "{\"error\":\"not found\"}");
}

#[test]
fn bad_request_is_400() {
    let r = bad_request_response();
    assert_eq!(r.status, 400);
    assert_eq!(text(&r.body), "{\"error\":\"bad request\"}");
}

#[test]
fn hex_rendering_is_exact() {
    let r = hex_chars(&vec![0xffu8, 0x00, 0x1a]);
    assert_eq!(text(&r), "ff001a");
}

#[test]
fn successful_insert_returns_the_id() {
    let oid: Vec<u8> = vec![0, 1, 2, 3, 4, 5, 6, 7, 8, 9, 10, 11];
    let r = create_user_response(Ok(oid));
    assert_eq!(r.status, 200);
    assert_eq!(text(&r.body), "{\"id\":\"000102030405060708090a0b\"}");
}

#[test]
fn id_text_is_never_empty() {
    let oid: Vec<u8> = vec![7u8; 12];
    let r = create_user_response(Ok(oid));
    let v: serde_json::Value = serde_json::from_str(&text(&r.body)).unwrap();
    assert!(!v["id"].as_str().unwrap().is_empty());
}

#[test]
fn failed_insert_is_500() {
    let r = create_user_response(Err(DbError));
    assert_eq!(r.status, 500);
    assert_eq!(text(&r.body), "{\"error\":\"server error\"}");
}

#[test]
fn distinct_oids_give_distinct_ids() {
    let a: Vec<u8> = vec![1u8; 12];
    let b: Vec<u8> = {
        let mut v = vec![1u8; 12];
        v[11] = 2;
        v
    };
    let ra = create_user_response(Ok(a));
    let rb = create_user_response(Ok(b));
    assert_ne!(text(&ra.body), text(&rb.body));
}

#[test]
fn empty_collection_lists_as_empty_array() {
    let r = list_users_response(&Vec::new());
    assert_eq!(r.status, 200);
    assert_eq!(text(&r.body), "[]");
}

#[test]
fn listing_renders_every_record() {
    let users = vec![
        User { id: Some(cs("000102030405060708090a0b")), name: cs("Alice"), age: 30 },
        User { id: None, name: cs("Bob"), age: 0 },
    ];
    let r = list_users_response(&users);
    assert_eq!(r.status, 200);
    assert_eq!(
        text(&r.body),
        "[{\"id\":\"000102030405060708090a0b\",\"name\":\"Alice\",\"age\":30},{\"id\":null,\"name\":\"Bob\",\"age\":0}]"
    );
}

#[test]
fn listing_is_real_json() {
    let users = vec![
        User { id: Some(cs("aa")), name: cs("quo\"te\\back\nline"), age: 4294967295 },
    ];
    let r = list_users_response(&users);
    let v: serde_json::Value = serde_json::from_str(&text(&r.body)).unwrap();
    assert_eq!(v[0]["id"].as_str().unwrap(), "aa");
    assert_eq!(v[0]["name"].as_str().unwrap(), "quo\"te\\back\nline");
    assert_eq!(v[0]["age"].as_u64().unwrap(), 4294967295u64);
}

#[test]
fn user_object_escapes_its_name() {
    let u = User { id: None, name: cs("a\"b\\c\td"), age: 1 };
    let body = user_json_chars(&u);
    assert_eq!(
        text(&body),
        "{\"id\":null,\"name\":\"a\\\"b\\\\c\\u0009d\",\"age\":1}"
    );
}

#[test]
fn good_body_leads_to_insert() {
    match post_users_request(&cs("{\"name\":\"Eve\",\"age\":9}")) {
        PostAction::Insert(u) => {
            assert!(u.id.is_none());
            assert_eq!(text(&u.name), "Eve");
            assert_eq!(u.age, 9);
        },
        PostAction::Reject(_) => panic!("a valid body must lead to an insert"),
    }
}

#[test]
fn bad_body_is_rejected_before_any_insert() {
    match post_users_request(&cs("{\"age\":9}")) {
        PostAction::Insert(_) => panic!("a body without a name must be rejected"),
        PostAction::Reject(r) => {
            assert_eq!(r.status, 400);
            assert_eq!(text(&r.body), "{\"error\":\"bad request\"}");
        },
    }
}

#[test]
fn created_record_round_trips_into_the_listing() {
    let body = "{\"name\":\"Ada\",\"age\":36}";
    let u = match post_users_request(&cs(body)) {
        PostAction::Insert(u) => u,
        PostAction::Reject(_) => panic!("a valid body must lead to an insert"),
    };
    let oid: Vec<u8> = vec![9u8; 12];
    let created = create_user_response(Ok(oid.clone()));
    let cv: serde_json::Value = serde_json::from_str(&text(&created.body)).unwrap();
    let id = cv["id"].as_str().unwrap().to_string();
    let stored = User { id: Some(id.chars().collect()), name: u.name, age: u.age };
    let listed = list_users_response(&vec![stored]);
    let lv: serde_json::Value = serde_json::from_str(&text(&listed.body)).unwrap();
    assert_eq!(lv[0]["id"].as_str().unwrap(), id);
    assert_eq!(lv[0]["name"].as_str().unwrap(), "Ada");
    assert_eq!(lv[0]["age"].as_u64().unwrap(), 36);
}

#[test]
fn successful_find_lists_the_records() {
    let users = vec![User { id: None, name: cs("Zoe"), age: 5 }];
    let r = list_users_outcome(Ok(users));
    assert_eq!(r.status, 200);
    assert_eq!(text(&r.body), "[{\"id\":null,\"name\":\"Zoe\",\"age\":5}]");
}

#[test]
fn failed_find_is_500() {
    let r = list_users_outcome(Err(DbError));
    assert_eq!(r.status, 500);
    assert_eq!(text(&r.body), "{\"error\":\"server error\"}");
}

use warp_api::router::{route, Route};

fn cs(s: &str) -> Vec<char> {
    s.chars().collect()
}

#[test]
fn get_hello_routes_to_hello() {
    assert_eq!(route(&cs("GET"), &cs("/hello")), Route::Hello);
}

#[test]
fn post_users_routes_to_create() {
    assert_eq!(route(&cs("POST"), &cs("/users")), Route::CreateUser);
}

#[test]
fn get_users_routes_to_list() {
    assert_eq!(route(&cs("GET"), &cs("/users")), Route::ListUsers);
}

#[test]
fn unknown_path_is_not_found() {
    assert_eq!(route(&cs("GET"), &cs("/nope")), Route::NotFound);
}

#[test]
fn wrong_method_is_not_found() {
    assert_eq!(route(&cs("DELETE"), &cs("/users")), Route::NotFound);
    assert_eq!(route(&cs("POST"), &cs("/hello")), Route::NotFound);
}

#[test]
fn method_is_case_sensitive() {
    assert_eq!(route(&cs("get"), &cs("/users")), Route::NotFound);
}

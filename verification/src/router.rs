//! Maps a request's method and path to the one handler that serves it.
use vstd::prelude::*;

verus! {

/// The routes this service offers; anything else is not found.
#[derive(PartialEq, Eq, Structural, Clone, Copy, Debug)]
pub enum Route {
    Hello,
    CreateUser,
    ListUsers,
    NotFound,
}

/// The text `GET`.
pub open spec fn get_method() -> Seq<char> {
    seq!['G', 'E', 'T']
}

/// The text `POST`.
pub open spec fn post_method() -> Seq<char> {
    seq!['P', 'O', 'S', 'T']
}

/// The path `/hello`.
pub open spec fn hello_path() -> Seq<char> {
    seq!['/', 'h', 'e', 'l', 'l', 'o']
}

/// The path `/users`.
pub open spec fn users_path() -> Seq<char> {
    seq!['/', 'u', 's', 'e', 'r', 's']
}

/// The routing table: `GET /hello`, `POST /users` and `GET /users` each map
/// to their handler, and every other method or path is not found.
pub open spec fn spec_route(method: Seq<char>, path: Seq<char>) -> Route {
    if method == get_method() && path == hello_path() {
        Route::Hello
    } else if method == post_method() && path == users_path() {
        Route::CreateUser
    } else if method == get_method() && path == users_path() {
        Route::ListUsers
    } else {
        Route::NotFound
    }
}

fn eq_lit3(v: &Vec<char>, a: char, b: char, c: char) -> (r: bool)
    ensures
        r == (v@ == seq![a, b, c]),
{
    let r = v.len() == 3 && v[0] == a && v[1] == b && v[2] == c;
    proof {
        if r {
            assert(v@ =~= seq![a, b, c]);
        }
        if v@ == seq![a, b, c] {
            assert(v@.len() == 3);
            assert(v@[0] == a && v@[1] == b && v@[2] == c);
        }
    }
    r
}

fn eq_lit4(v: &Vec<char>, a: char, b: char, c: char, d: char) -> (r: bool)
    ensures
        r == (v@ == seq![a, b, c, d]),
{
    let r = v.len() == 4 && v[0] == a && v[1] == b && v[2] == c && v[3] == d;
    proof {
        if r {
            assert(v@ =~= seq![a, b, c, d]);
        }
        if v@ == seq![a, b, c, d] {
            assert(v@.len() == 4);
            assert(v@[0] == a && v@[1] == b && v@[2] == c && v@[3] == d);
        }
    }
    r
}

fn eq_lit6(v: &Vec<char>, a: char, b: char, c: char, d: char, e: char, f: char) -> (r: bool)
    ensures
        r == (v@ == seq![a, b, c, d, e, f]),
{
    let r = v.len() == 6 && v[0] == a && v[1] == b && v[2] == c && v[3] == d && v[4] == e
        && v[5] == f;
    proof {
        if r {
            assert(v@ =~= seq![a, b, c, d, e, f]);
        }
        if v@ == seq![a, b, c, d, e, f] {
            assert(v@.len() == 6);
            assert(v@[0] == a && v@[1] == b && v@[2] == c && v@[3] == d && v@[4] == e
                && v@[5] == f);
        }
    }
    r
}

/// Picks the route for a request.
pub fn route(method: &Vec<char>, path: &Vec<char>) -> (r: Route)
    ensures
        r == spec_route(method@, path@),
{
    let is_get = eq_lit3(method, 'G', 'E', 'T');
    let is_post = eq_lit4(method, 'P', 'O', 'S', 'T');
    let is_hello = eq_lit6(path, '/', 'h', 'e', 'l', 'l', 'o');
    let is_users = eq_lit6(path, '/', 'u', 's', 'e', 'r', 's');
    if is_get && is_hello {
        Route::Hello
    } else if is_post && is_users {
        Route::CreateUser
    } else if is_get && is_users {
        Route::ListUsers
    } else {
        Route::NotFound
    }
}

} // verus!

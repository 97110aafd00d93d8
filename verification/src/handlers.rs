//! The response each route produces, as a function of the request and of the
//! database outcome. The surrounding process performs the one database
//! operation a handler asks for and hands its outcome back as a plain value.
use vstd::prelude::*;
use crate::json::{hex_seq, lemma_hex_len, push_hex_from};
use crate::parse::parse_user;
use crate::parse::parse_user_chars;
use crate::user::{id_key, users_json, users_json_chars, views_of, User};

verus! {

/// An HTTP response: a status code and a JSON body.
pub struct Response {
    pub status: u16,
    pub body: Vec<char>,
}

/// A failed database operation. The cause is deliberately not carried: the
/// service discloses nothing about it to the caller.
pub struct DbError;

/// The body of the greeting: the JSON string `"Hello, World!"`.
pub open spec fn hello_json() -> Seq<char> {
    seq!['"', 'H', 'e', 'l', 'l', 'o', ',', ' ', 'W', 'o', 'r', 'l', 'd', '!', '"']
}

/// The body of a successful create: an object holding the new identifier.
pub open spec fn created_json(oid: Seq<u8>) -> Seq<char> {
    seq!['{'] + id_key() + seq!['"'] + hex_seq(oid) + seq!['"', '}']
}

/// The opaque body of a server error.
pub open spec fn server_error_json() -> Seq<char> {
    seq![
        '{', '"', 'e', 'r', 'r', 'o', 'r', '"', ':', '"', 's', 'e', 'r', 'v', 'e', 'r',
        ' ', 'e', 'r', 'r', 'o', 'r', '"', '}',
    ]
}

/// The body rejecting a request whose JSON body is not a valid user.
pub open spec fn bad_request_json() -> Seq<char> {
    seq![
        '{', '"', 'e', 'r', 'r', 'o', 'r', '"', ':', '"', 'b', 'a', 'd', ' ', 'r', 'e',
        'q', 'u', 'e', 's', 't', '"', '}',
    ]
}

/// The body of the not-found response.
pub open spec fn not_found_json() -> Seq<char> {
    seq![
        '{', '"', 'e', 'r', 'r', 'o', 'r', '"', ':', '"', 'n', 'o', 't', ' ', 'f', 'o',
        'u', 'n', 'd', '"', '}',
    ]
}

/// The greeting. It takes nothing and consults nothing — in particular no
/// database — so it succeeds with this exact body whatever else is down.
pub fn hello_response() -> (r: Response)
    ensures
        r.status == 200,
        r.body@ == hello_json(),
{
    let mut out: Vec<char> = Vec::new();
    out.push('"');
    out.push('H');
    out.push('e');
    out.push('l');
    out.push('l');
    out.push('o');
    out.push(',');
    out.push(' ');
    out.push('W');
    out.push('o');
    out.push('r');
    out.push('l');
    out.push('d');
    out.push('!');
    out.push('"');
    proof {
        assert(out@ =~= hello_json());
    }
    Response { status: 200, body: out }
}

fn push_error_object(out: &mut Vec<char>)
    ensures
        final(out)@ == old(out)@ + seq!['{', '"', 'e', 'r', 'r', 'o', 'r', '"', ':', '"'],
{
    out.push('{');
    out.push('"');
    out.push('e');
    out.push('r');
    out.push('r');
    out.push('o');
    out.push('r');
    out.push('"');
    out.push(':');
    out.push('"');
    assert(out@ =~= old(out)@ + seq!['{', '"', 'e', 'r', 'r', 'o', 'r', '"', ':', '"']);
}

/// The response to an unmatched route.
pub fn not_found_response() -> (r: Response)
    ensures
        r.status == 404,
        r.body@ == not_found_json(),
{
    let mut out: Vec<char> = Vec::new();
    push_error_object(&mut out);
    out.push('n');
    out.push('o');
    out.push('t');
    out.push(' ');
    out.push('f');
    out.push('o');
    out.push('u');
    out.push('n');
    out.push('d');
    out.push('"');
    out.push('}');
    proof {
        assert(out@ =~= not_found_json());
    }
    Response { status: 404, body: out }
}

/// The response rejecting an unparsable create-user body.
pub fn bad_request_response() -> (r: Response)
    ensures
        r.status == 400,
        r.body@ == bad_request_json(),
{
    let mut out: Vec<char> = Vec::new();
    push_error_object(&mut out);
    out.push('b');
    out.push('a');
    out.push('d');
    out.push(' ');
    out.push('r');
    out.push('e');
    out.push('q');
    out.push('u');
    out.push('e');
    out.push('s');
    out.push('t');
    out.push('"');
    out.push('}');
    proof {
        assert(out@ =~= bad_request_json());
    }
    Response { status: 400, body: out }
}

/// The opaque 500 response to any failed database operation; no cause is
/// disclosed to the caller.
pub fn server_error_response() -> (r: Response)
    ensures
        r.status == 500,
        r.body@ == server_error_json(),
{
    let mut out: Vec<char> = Vec::new();
    push_error_object(&mut out);
    out.push('s');
    out.push('e');
    out.push('r');
    out.push('v');
    out.push('e');
    out.push('r');
    out.push(' ');
    out.push('e');
    out.push('r');
    out.push('r');
    out.push('o');
    out.push('r');
    out.push('"');
    out.push('}');
    proof {
        assert(out@ =~= server_error_json());
    }
    Response { status: 500, body: out }
}

/// The response to a create-user insert. A successful insert answers 200 with
/// the generated identifier — twelve bytes, rendered as twenty-four hex
/// digits, so the identifier text is never empty. Any failed insert,
/// unreachable database included, answers a 500 whose body discloses nothing
/// about the cause.
pub fn create_user_response(insert_result: Result<Vec<u8>, DbError>) -> (r: Response)
    requires
        (match insert_result {
            Result::Ok(oid) => oid@.len() == 12,
            Result::Err(_) => true,
        }),
    ensures
        (match insert_result {
            Result::Ok(oid) => r.status == 200 && r.body@ == created_json(oid@)
                && r.body@.len() == 33,
            Result::Err(_) => r.status == 500 && r.body@ == server_error_json(),
        }),
{
    match insert_result {
        Result::Ok(oid) => {
            let mut out: Vec<char> = Vec::new();
            out.push('{');
            out.push('"');
            out.push('i');
            out.push('d');
            out.push('"');
            out.push(':');
            out.push('"');
            push_hex_from(&oid, 0, &mut out);
            out.push('"');
            out.push('}');
            proof {
                assert(oid@.skip(0) =~= oid@);
                assert(out@ =~= created_json(oid@));
                lemma_hex_len(oid@);
            }
            Response { status: 200, body: out }
        },
        Result::Err(_) => server_error_response(),
    }
}

/// The response listing every stored user: always a 200 whose body is the
/// JSON array of all the records handed in, an empty collection giving the
/// empty array.
pub fn list_users_response(users: &Vec<User>) -> (r: Response)
    ensures
        r.status == 200,
        r.body@ == users_json(views_of(users@)),
{
    Response { status: 200, body: users_json_chars(users) }
}

/// What the create-user route decides from a request body: insert the parsed
/// user, or reject without touching the database.
pub enum PostAction {
    Insert(User),
    Reject(Response),
}

/// The create-user route's first step. Exactly the bodies in the accepted
/// grammar lead to an insert — of the parsed user, identifier unset — and
/// every other body is rejected with a 400 before any database work.
pub fn post_users_request(body: &Vec<char>) -> (r: PostAction)
    ensures
        (match r {
            PostAction::Insert(u) => parse_user(body@) == Option::Some((u.name@, u.age))
                && u.id is None,
            PostAction::Reject(resp) => parse_user(body@) is None && resp.status == 400
                && resp.body@ == bad_request_json(),
        }),
{
    match parse_user_chars(body) {
        Some(u) => PostAction::Insert(u),
        None => PostAction::Reject(bad_request_response()),
    }
}


/// Distinct generated identifiers render as distinct create responses: two
/// successful creates for different stored records never answer with the
/// same identifier text.
pub proof fn lemma_created_distinct(a: Seq<u8>, b: Seq<u8>)
    requires
        a != b,
    ensures
        created_json(a) != created_json(b),
{
    if created_json(a) == created_json(b) {
        lemma_hex_len(a);
        lemma_hex_len(b);
        assert(created_json(a).len() == created_json(b).len());
        assert(created_json(a).len() == 9 + hex_seq(a).len());
        assert(created_json(b).len() == 9 + hex_seq(b).len());
        assert(hex_seq(a).len() == hex_seq(b).len());
        assert(hex_seq(a) =~= hex_seq(b)) by {
            assert forall|m: int| 0 <= m < hex_seq(a).len() implies hex_seq(a)[m]
                == #[trigger] hex_seq(b)[m] by {
                assert(created_json(a)[7 + m] == hex_seq(a)[m]);
                assert(created_json(b)[7 + m] == hex_seq(b)[m]);
            };
        };
        crate::json::lemma_hex_injective(a, b);
    }
}


/// The response to the list query's outcome: the full listing on a
/// successful find, and on any failure the one opaque 500 — the failing
/// request ends alone, with an explicit server error and no partial result.
pub fn list_users_outcome(find_result: Result<Vec<User>, DbError>) -> (r: Response)
    ensures
        (match find_result {
            Result::Ok(users) => r.status == 200 && r.body@ == users_json(views_of(users@)),
            Result::Err(_) => r.status == 500 && r.body@ == server_error_json(),
        }),
{
    match find_result {
        Result::Ok(users) => list_users_response(&users),
        Result::Err(_) => server_error_response(),
    }
}

} // verus!

//! The one entity this service stores: a user with a generated identifier, a
//! name, and a non-negative age, together with the exact JSON texts in which
//! the service renders one user and a list of users.
use vstd::prelude::*;
use crate::json::{dec_seq, esc_seq, hex_seq, push_dec, push_quoted, quoted};

verus! {

/// A user record. `id` is the identifier the database assigned, rendered as
/// lowercase hex; it is absent on client-supplied input and present on
/// retrieval.
pub struct User {
    pub id: Option<Vec<char>>,
    pub name: Vec<char>,
    pub age: u32,
}

/// The mathematical value of a `User`.
pub struct UserView {
    pub id: Option<Seq<char>>,
    pub name: Seq<char>,
    pub age: u32,
}

impl View for User {
    type V = UserView;

    open spec fn view(&self) -> UserView {
        UserView {
            id: match self.id {
                Option::Some(v) => Option::Some(v@),
                Option::None => Option::None,
            },
            name: self.name@,
            age: self.age,
        }
    }
}

/// The `"id":` member prefix.
pub open spec fn id_key() -> Seq<char> {
    seq!['"', 'i', 'd', '"', ':']
}

/// The `"name":` member prefix.
pub open spec fn name_key() -> Seq<char> {
    seq!['"', 'n', 'a', 'm', 'e', '"', ':']
}

/// The `"age":` member prefix.
pub open spec fn age_key() -> Seq<char> {
    seq!['"', 'a', 'g', 'e', '"', ':']
}

/// The JSON text `null`.
pub open spec fn null_seq() -> Seq<char> {
    seq!['n', 'u', 'l', 'l']
}

/// The JSON object in which the service renders one user: the `id`, `name`
/// and `age` members in that order, the identifier and name as JSON strings,
/// the age in decimal, and `null` for an absent identifier.
pub open spec fn user_json(u: UserView) -> Seq<char> {
    seq!['{'] + id_key() + (match u.id {
        Option::Some(s) => quoted(s),
        Option::None => null_seq(),
    }) + seq![','] + name_key() + quoted(u.name) + seq![','] + age_key()
        + dec_seq(u.age as nat) + seq!['}']
}

/// The JSON objects of a list of users, separated by commas.
pub open spec fn users_items(l: Seq<UserView>) -> Seq<char>
    decreases l.len(),
{
    if l.len() == 0 {
        Seq::empty()
    } else if l.len() == 1 {
        user_json(l[0])
    } else {
        user_json(l[0]) + seq![','] + users_items(l.drop_first())
    }
}

/// The JSON array in which the service renders a list of users.
pub open spec fn users_json(l: Seq<UserView>) -> Seq<char> {
    seq!['['] + users_items(l) + seq![']']
}

/// The views of a list of user records.
pub open spec fn views_of(l: Seq<User>) -> Seq<UserView> {
    l.map_values(|u: User| u@)
}

/// An empty collection renders as the empty JSON array, not as an error.
pub proof fn lemma_users_json_empty()
    ensures
        users_json(views_of(Seq::<User>::empty())) =~= seq!['[', ']'],
{
    assert(views_of(Seq::<User>::empty()).len() == 0);
}

fn push_user_json(u: &User, out: &mut Vec<char>)
    ensures
        final(out)@ == old(out)@ + user_json(u@),
{
    out.push('{');
    out.push('"');
    out.push('i');
    out.push('d');
    out.push('"');
    out.push(':');
    match &u.id {
        Option::Some(v) => push_quoted(v, out),
        Option::None => {
            out.push('n');
            out.push('u');
            out.push('l');
            out.push('l');
        },
    }
    out.push(',');
    out.push('"');
    out.push('n');
    out.push('a');
    out.push('m');
    out.push('e');
    out.push('"');
    out.push(':');
    push_quoted(&u.name, out);
    out.push(',');
    out.push('"');
    out.push('a');
    out.push('g');
    out.push('e');
    out.push('"');
    out.push(':');
    push_dec(u.age, out);
    out.push('}');
    assert(out@ =~= old(out)@ + user_json(u@));
}

/// Renders one user as its JSON object.
pub fn user_json_chars(u: &User) -> (r: Vec<char>)
    ensures
        r@ == user_json(u@),
{
    let mut out: Vec<char> = Vec::new();
    push_user_json(u, &mut out);
    out
}

fn push_users_items(users: &Vec<User>, i: usize, out: &mut Vec<char>)
    requires
        i <= users.len(),
    ensures
        final(out)@ == old(out)@ + users_items(views_of(users@).skip(i as int)),
    decreases users.len() - i,
{
    if i == users.len() {
        assert(out@ =~= old(out)@ + users_items(views_of(users@).skip(i as int)));
    } else {
        push_user_json(&users[i], out);
        assert(views_of(users@).skip(i as int)[0] == users@[i as int]@);
        if i + 1 < users.len() {
            out.push(',');
        }
        push_users_items(users, i + 1, out);
        assert(views_of(users@).skip(i as int).drop_first() =~= views_of(users@).skip(
            i as int + 1,
        ));
        assert(out@ =~= old(out)@ + users_items(views_of(users@).skip(i as int)));
    }
}

/// Renders a list of users as its JSON array.
pub fn users_json_chars(users: &Vec<User>) -> (r: Vec<char>)
    ensures
        r@ == users_json(views_of(users@)),
{
    let mut out: Vec<char> = Vec::new();
    out.push('[');
    push_users_items(users, 0, &mut out);
    out.push(']');
    proof {
        assert(views_of(users@).skip(0) =~= views_of(users@));
        assert(out@ =~= users_json(views_of(users@)));
    }
    out
}


proof fn lemma_items_contain(l: Seq<UserView>, k: int)
    requires
        0 <= k < l.len(),
    ensures
        exists|a: int|
            0 <= a && a + user_json(l[k]).len() <= users_items(l).len()
                && #[trigger] users_items(l).subrange(
                a,
                a + user_json(l[k]).len(),
            ) == user_json(l[k]),
    decreases l.len(),
{
    let w = user_json(l[k]);
    if k == 0 {
        let aw: int = 0;
        assert(users_items(l).subrange(aw, aw + user_json(l[k]).len()) =~= w);
        assert(0 <= aw && aw + user_json(l[k]).len() <= users_items(l).len()
            && users_items(l).subrange(aw, aw + user_json(l[k]).len()) == user_json(
            l[k],
        ));
    } else {
        let rest = l.drop_first();
        lemma_items_contain(rest, k - 1);
        let a0: int = choose|a: int|
            0 <= a && a + user_json(rest[k - 1]).len() <= users_items(rest).len()
                && #[trigger] users_items(rest).subrange(
                a,
                a + user_json(rest[k - 1]).len(),
            ) == user_json(rest[k - 1]);
        assert(rest[k - 1] == l[k]);
        let off: int = user_json(l[0]).len() as int + 1;
        assert(users_items(l) == user_json(l[0]) + seq![','] + users_items(rest));
        let aw: int = off + a0;
        assert(users_items(l).subrange(aw, aw + w.len()) =~= w) by {
            assert forall|m: int| 0 <= m < w.len() implies users_items(l).subrange(
                aw,
                aw + w.len(),
            )[m] == w[m] by {
                assert(users_items(l).subrange(aw, aw + w.len())[m] == users_items(l)[aw
                    + m]);
                assert(users_items(l)[aw + m] == users_items(rest)[a0 + m]);
                assert(users_items(rest).subrange(a0, a0 + w.len())[m] == users_items(
                    rest,
                )[a0 + m]);
            };
        };
        assert(0 <= aw && aw + user_json(l[k]).len() <= users_items(l).len()
            && users_items(l).subrange(aw, aw + user_json(l[k]).len()) == user_json(
            l[k],
        ));
    }
}

/// Every record handed to the listing stands whole and contiguous inside the
/// rendered array: a created record, once stored, appears in a later listing
/// exactly as its own JSON object.
pub proof fn lemma_listing_contains_record(l: Seq<UserView>, k: int)
    requires
        0 <= k < l.len(),
    ensures
        exists|a: int|
            0 <= a && a + user_json(l[k]).len() <= users_json(l).len()
                && #[trigger] users_json(l).subrange(
                a,
                a + user_json(l[k]).len(),
            ) == user_json(l[k]),
{
    let w = user_json(l[k]);
    lemma_items_contain(l, k);
    let a0: int = choose|a: int|
        0 <= a && a + user_json(l[k]).len() <= users_items(l).len()
            && #[trigger] users_items(l).subrange(a, a + user_json(l[k]).len())
            == user_json(l[k]);
    let aw: int = 1 + a0;
    assert(users_json(l).subrange(aw, aw + w.len()) =~= w) by {
        assert forall|m: int| 0 <= m < w.len() implies users_json(l).subrange(
            aw,
            aw + w.len(),
        )[m] == w[m] by {
            assert(users_json(l).subrange(aw, aw + w.len())[m] == users_json(l)[aw + m]);
            assert(users_json(l)[aw + m] == users_items(l)[a0 + m]);
            assert(users_items(l).subrange(a0, a0 + w.len())[m] == users_items(l)[a0
                + m]);
        };
    };
    assert(0 <= aw && aw + user_json(l[k]).len() <= users_json(l).len() && users_json(
        l,
    ).subrange(aw, aw + user_json(l[k]).len()) == user_json(l[k]));
}

} // verus!

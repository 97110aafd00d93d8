//! The JSON body accepted by the create-user route: an object whose members
//! may come in any order, holding exactly one `name` member (a JSON string)
//! and exactly one `age` member (a non-negative decimal integer that fits in
//! 32 bits), with arbitrary whitespace between tokens. Other members are
//! read and ignored, whatever JSON value they hold — except `id`, which a
//! client may never supply. String values take the full JSON escape set:
//! the short escapes, and `\u` with four hex digits of either case, a
//! surrogate pair standing for one character and a lone surrogate rejected.
//! A missing or duplicated `name` or `age`, a non-numeric age, or trailing
//! text is rejected.
use vstd::prelude::*;
use crate::json::{dec_seq, digit_char, esc_char, esc_seq, quoted};
use crate::user::User;

verus! {

/// JSON whitespace.
pub open spec fn is_ws(c: char) -> bool {
    c == ' ' || c == '\t' || c == '\n' || c == '\r'
}

/// A decimal digit character.
pub open spec fn is_digit(c: char) -> bool {
    0x30 <= (c as u32) && (c as u32) <= 0x39
}

/// The value of a decimal digit character.
pub open spec fn digit_val(c: char) -> nat
    recommends
        is_digit(c),
{
    ((c as u32) - 0x30) as nat
}

/// A hexadecimal digit character, either case.
pub open spec fn is_hex_digit(c: char) -> bool {
    is_digit(c) || (0x41 <= (c as u32) && (c as u32) <= 0x46) || (0x61 <= (c as u32) && (
    c as u32) <= 0x66)
}

/// The value of a hexadecimal digit character.
pub open spec fn hex_val(c: char) -> nat
    recommends
        is_hex_digit(c),
{
    if is_digit(c) {
        digit_val(c)
    } else if 0x41 <= (c as u32) && (c as u32) <= 0x46 {
        ((c as u32) - 0x37) as nat
    } else {
        ((c as u32) - 0x57) as nat
    }
}

/// The character a short escape letter names, if the letter is one.
pub open spec fn short_escape(c: char) -> Option<char> {
    if c == '"' {
        Option::Some('"')
    } else if c == '\\' {
        Option::Some('\\')
    } else if c == '/' {
        Option::Some('/')
    } else if c == 'b' {
        Option::Some('\u{0008}')
    } else if c == 'f' {
        Option::Some('\u{000C}')
    } else if c == 'n' {
        Option::Some('\n')
    } else if c == 'r' {
        Option::Some('\r')
    } else if c == 't' {
        Option::Some('\t')
    } else {
        Option::None
    }
}

/// The value of the four hex digits at `i`.
pub open spec fn hex4_val(s: Seq<char>, i: int) -> nat {
    hex_val(s[i]) * 0x1000 + hex_val(s[i + 1]) * 0x100 + hex_val(s[i + 2]) * 16 + hex_val(
        s[i + 3],
    )
}

/// A high (leading) surrogate code unit.
pub open spec fn is_high_surrogate(v: nat) -> bool {
    0xD800 <= v && v <= 0xDBFF
}

/// A low (trailing) surrogate code unit.
pub open spec fn is_low_surrogate(v: nat) -> bool {
    0xDC00 <= v && v <= 0xDFFF
}

/// The scalar value a surrogate pair stands for.
pub open spec fn combined_scalar(hi: nat, lo: nat) -> nat
    recommends
        is_high_surrogate(hi),
        is_low_surrogate(lo),
{
    (0x10000 + (hi - 0xD800) * 0x400 + (lo - 0xDC00)) as nat
}

/// The character with scalar value `v`.
pub open spec fn scalar_char(v: nat) -> char
    recommends
        v <= 0x10FFFF && !is_high_surrogate(v) && !is_low_surrogate(v),
{
    (v as u32) as char
}

/// The first position at or after `i` holding no whitespace.
pub open spec fn skip_ws(s: Seq<char>, i: int) -> int
    decreases s.len() - i,
{
    if 0 <= i && i < s.len() && is_ws(s[i]) {
        skip_ws(s, i + 1)
    } else {
        i
    }
}

/// Reads a JSON string body starting just after its opening quote: the text
/// it names and the position just after its closing quote.
pub open spec fn parse_str_body(s: Seq<char>, i: int) -> Option<(Seq<char>, int)>
    decreases s.len() - i,
{
    if i < 0 || i >= s.len() {
        Option::None
    } else if s[i] == '"' {
        Option::Some((Seq::empty(), i + 1))
    } else if s[i] == '\\' {
        if i + 1 >= s.len() {
            Option::None
        } else {
            match short_escape(s[i + 1]) {
                Option::Some(e) => match parse_str_body(s, i + 2) {
                    Option::Some((t, j)) => Option::Some((seq![e] + t, j)),
                    Option::None => Option::None,
                },
                Option::None => if s[i + 1] == 'u' && i + 5 < s.len() && is_hex_digit(
                    s[i + 2],
                ) && is_hex_digit(s[i + 3]) && is_hex_digit(s[i + 4]) && is_hex_digit(
                    s[i + 5],
                ) {
                    let v: nat = hex4_val(s, i + 2);
                    if is_low_surrogate(v) {
                        Option::None
                    } else if is_high_surrogate(v) {
                        if i + 11 < s.len() && s[i + 6] == '\\' && s[i + 7] == 'u'
                            && is_hex_digit(s[i + 8]) && is_hex_digit(s[i + 9])
                            && is_hex_digit(s[i + 10]) && is_hex_digit(s[i + 11])
                            && is_low_surrogate(hex4_val(s, i + 8)) {
                            match parse_str_body(s, i + 12) {
                                Option::Some((t, j)) => Option::Some(
                                    (
                                        seq![
                                            scalar_char(
                                                combined_scalar(v, hex4_val(s, i + 8)),
                                            ),
                                        ] + t,
                                        j,
                                    ),
                                ),
                                Option::None => Option::None,
                            }
                        } else {
                            Option::None
                        }
                    } else {
                        match parse_str_body(s, i + 6) {
                            Option::Some((t, j)) => Option::Some(
                                (seq![scalar_char(v)] + t, j),
                            ),
                            Option::None => Option::None,
                        }
                    }
                } else {
                    Option::None
                },
            }
        }
    } else if (s[i] as u32) < 0x20 {
        Option::None
    } else {
        match parse_str_body(s, i + 1) {
            Option::Some((t, j)) => Option::Some((seq![s[i]] + t, j)),
            Option::None => Option::None,
        }
    }
}

/// Reads a complete JSON string starting at `i`.
pub open spec fn parse_quoted(s: Seq<char>, i: int) -> Option<(Seq<char>, int)> {
    if 0 <= i && i < s.len() && s[i] == '"' {
        parse_str_body(s, i + 1)
    } else {
        Option::None
    }
}

/// The end of the run of digit characters starting at `i`.
pub open spec fn digits_end(s: Seq<char>, i: int) -> int
    decreases s.len() - i,
{
    if 0 <= i && i < s.len() && is_digit(s[i]) {
        digits_end(s, i + 1)
    } else {
        i
    }
}

/// The value of the digit characters in `[i, j)`.
pub open spec fn digits_val(s: Seq<char>, i: int, j: int) -> nat
    decreases j - i,
{
    if j <= i {
        0
    } else {
        digits_val(s, i, j - 1) * 10 + digit_val(s[j - 1])
    }
}

/// Reads the age value: a JSON non-negative integer with at least one digit,
/// no leading zero, and a value that fits in 32 bits.
pub open spec fn parse_num(s: Seq<char>, i: int) -> Option<(u32, int)> {
    let j: int = digits_end(s, i);
    if j == i {
        Option::None
    } else if s[i] == '0' && j > i + 1 {
        Option::None
    } else if digits_val(s, i, j) > u32::MAX {
        Option::None
    } else {
        Option::Some((digits_val(s, i, j) as u32, j))
    }
}

/// Reads past the fraction part of a number, if one stands at `i`.
pub open spec fn skip_frac(s: Seq<char>, i: int) -> Option<int> {
    if 0 <= i && i < s.len() && s[i] == '.' {
        let j: int = digits_end(s, i + 1);
        if j == i + 1 {
            Option::None
        } else {
            Option::Some(j)
        }
    } else {
        Option::Some(i)
    }
}

/// Reads past the exponent part of a number, if one stands at `i`.
pub open spec fn skip_exp(s: Seq<char>, i: int) -> Option<int> {
    if 0 <= i && i < s.len() && (s[i] == 'e' || s[i] == 'E') {
        let d: int = if i + 1 < s.len() && (s[i + 1] == '+' || s[i + 1] == '-') {
            i + 2
        } else {
            i + 1
        };
        let j: int = digits_end(s, d);
        if j == d {
            Option::None
        } else {
            Option::Some(j)
        }
    } else {
        Option::Some(i)
    }
}

/// Reads past a full JSON number — sign, integer part with no leading zero,
/// fraction, exponent — as an ignored member's value may hold one.
pub open spec fn skip_number(s: Seq<char>, i: int) -> Option<int> {
    let a: int = if 0 <= i && i < s.len() && s[i] == '-' {
        i + 1
    } else {
        i
    };
    let b: int = digits_end(s, a);
    if b == a {
        Option::None
    } else if s[a] == '0' && b > a + 1 {
        Option::None
    } else {
        match skip_frac(s, b) {
            Option::Some(f) => skip_exp(s, f),
            Option::None => Option::None,
        }
    }
}

/// The text `true`.
pub open spec fn true_text() -> Seq<char> {
    seq!['t', 'r', 'u', 'e']
}

/// The text `false`.
pub open spec fn false_text() -> Seq<char> {
    seq!['f', 'a', 'l', 's', 'e']
}

/// The text `null`.
pub open spec fn null_text() -> Seq<char> {
    seq!['n', 'u', 'l', 'l']
}

/// Reads past one JSON value of any kind, as an ignored member holds one.
/// The inner guards against a non-advancing position can never fire — every
/// read moves forward — and only carry the termination argument.
pub open spec fn skip_value(s: Seq<char>, i: int) -> Option<int>
    decreases s.len() - i, 0int,
{
    if i < 0 || i >= s.len() {
        Option::None
    } else if s[i] == '"' {
        match parse_str_body(s, i + 1) {
            Option::Some((t, j)) => Option::Some(j),
            Option::None => Option::None,
        }
    } else if s[i] == 't' {
        if i + 4 <= s.len() && s.subrange(i, i + 4) == true_text() {
            Option::Some(i + 4)
        } else {
            Option::None
        }
    } else if s[i] == 'f' {
        if i + 5 <= s.len() && s.subrange(i, i + 5) == false_text() {
            Option::Some(i + 5)
        } else {
            Option::None
        }
    } else if s[i] == 'n' {
        if i + 4 <= s.len() && s.subrange(i, i + 4) == null_text() {
            Option::Some(i + 4)
        } else {
            Option::None
        }
    } else if s[i] == '[' {
        let k: int = skip_ws(s, i + 1);
        if k <= i || k > s.len() {
            Option::None
        } else {
            skip_items(s, k)
        }
    } else if s[i] == '{' {
        let k: int = skip_ws(s, i + 1);
        if k <= i || k > s.len() {
            Option::None
        } else {
            skip_pairs(s, k)
        }
    } else {
        skip_number(s, i)
    }
}

/// Reads past the items of an ignored array, standing at an item or at the
/// closing bracket; no trailing comma.
pub open spec fn skip_items(s: Seq<char>, i: int) -> Option<int>
    decreases s.len() - i, 1int,
{
    if i < 0 || i > s.len() {
        Option::None
    } else if i < s.len() && s[i] == ']' {
        Option::Some(i + 1)
    } else {
        match skip_value(s, i) {
            Option::Some(j) => if j <= i {
                Option::None
            } else {
                let k: int = skip_ws(s, j);
                if k < s.len() && s[k] == ',' {
                    let m: int = skip_ws(s, k + 1);
                    if m <= i || m > s.len() {
                        Option::None
                    } else if m < s.len() && s[m] == ']' {
                        Option::None
                    } else {
                        skip_items(s, m)
                    }
                } else if k < s.len() && s[k] == ']' {
                    Option::Some(k + 1)
                } else {
                    Option::None
                }
            },
            Option::None => Option::None,
        }
    }
}

/// Reads past the members of an ignored object, standing at a key or at the
/// closing brace; no trailing comma.
pub open spec fn skip_pairs(s: Seq<char>, i: int) -> Option<int>
    decreases s.len() - i, 1int,
{
    if i < 0 || i > s.len() {
        Option::None
    } else if i < s.len() && s[i] == '}' {
        Option::Some(i + 1)
    } else {
        match parse_quoted(s, i) {
            Option::Some((key, j)) => if j <= i {
                Option::None
            } else {
                let c: int = skip_ws(s, j);
                if c < s.len() && s[c] == ':' {
                    let v0: int = skip_ws(s, c + 1);
                    if v0 <= i || v0 > s.len() {
                        Option::None
                    } else {
                        match skip_value(s, v0) {
                            Option::Some(j2) => if j2 <= v0 {
                                Option::None
                            } else {
                                let e: int = skip_ws(s, j2);
                                if e < s.len() && s[e] == ',' {
                                    let m: int = skip_ws(s, e + 1);
                                    if m <= i || m > s.len() {
                                        Option::None
                                    } else if m < s.len() && s[m] == '}' {
                                        Option::None
                                    } else {
                                        skip_pairs(s, m)
                                    }
                                } else if e < s.len() && s[e] == '}' {
                                    Option::Some(e + 1)
                                } else {
                                    Option::None
                                }
                            },
                            Option::None => Option::None,
                        }
                    }
                } else {
                    Option::None
                }
            },
            Option::None => Option::None,
        }
    }
}

/// The member name `name`.
pub open spec fn name_text() -> Seq<char> {
    seq!['n', 'a', 'm', 'e']
}

/// The member name `age`.
pub open spec fn age_text() -> Seq<char> {
    seq!['a', 'g', 'e']
}

/// The member name `id`, which a client may never supply.
pub open spec fn id_text() -> Seq<char> {
    seq!['i', 'd']
}

/// Reads the members of the user object, standing at a key or at the closing
/// brace; `nm` and `ag` hold what earlier members bound. Yields the name, the
/// age and the position just after the closing brace.
#[verifier::rlimit(60)]
pub open spec fn parse_members(
    s: Seq<char>,
    i: int,
    nm: Option<Seq<char>>,
    ag: Option<u32>,
) -> Option<(Seq<char>, u32, int)>
    decreases s.len() - i,
{
    if i < 0 || i >= s.len() {
        Option::None
    } else if s[i] == '}' {
        match (nm, ag) {
            (Option::Some(n), Option::Some(a)) => Option::Some((n, a, i + 1)),
            _ => Option::None,
        }
    } else {
        match parse_quoted(s, i) {
            Option::Some((key, j)) => if j <= i {
                Option::None
            } else {
                let c: int = skip_ws(s, j);
                if c < s.len() && s[c] == ':' {
                    let v0: int = skip_ws(s, c + 1);
                    if v0 <= i {
                        Option::None
                    } else if key == name_text() {
                        if nm is Some {
                            Option::None
                        } else {
                            match parse_quoted(s, v0) {
                                Option::Some((val, j2)) => if j2 <= v0 || j2 > s.len() {
                                    Option::None
                                } else {
                                    parse_more(s, j2, Option::Some(val), ag)
                                },
                                Option::None => Option::None,
                            }
                        }
                    } else if key == age_text() {
                        if ag is Some {
                            Option::None
                        } else {
                            match parse_num(s, v0) {
                                Option::Some((val, j2)) => if j2 <= v0 || j2 > s.len() {
                                    Option::None
                                } else {
                                    parse_more(s, j2, nm, Option::Some(val))
                                },
                                Option::None => Option::None,
                            }
                        }
                    } else if key == id_text() {
                        Option::None
                    } else {
                        match skip_value(s, v0) {
                            Option::Some(j2) => if j2 <= v0 || j2 > s.len() {
                                Option::None
                            } else {
                                parse_more(s, j2, nm, ag)
                            },
                            Option::None => Option::None,
                        }
                    }
                } else {
                    Option::None
                }
            },
            Option::None => Option::None,
        }
    }
}

/// After a member's value: the comma and the next member, or the closing
/// brace — which demands that both `name` and `age` were bound.
pub open spec fn parse_more(
    s: Seq<char>,
    i: int,
    nm: Option<Seq<char>>,
    ag: Option<u32>,
) -> Option<(Seq<char>, u32, int)>
    decreases s.len() - i,
{
    if i < 0 || i > s.len() {
        Option::None
    } else {
        parse_more_inner(s, i, nm, ag)
    }
}

/// The body of `parse_more`, once the position is known to lie in the text.
pub open spec fn parse_more_inner(
    s: Seq<char>,
    i: int,
    nm: Option<Seq<char>>,
    ag: Option<u32>,
) -> Option<(Seq<char>, u32, int)>
    decreases s.len() - i, 0int,
{
    let e: int = skip_ws(s, i);
    if e < s.len() && s[e] == ',' {
        let m: int = skip_ws(s, e + 1);
        if m <= i || m > s.len() {
            Option::None
        } else if m < s.len() && s[m] == '}' {
            Option::None
        } else {
            parse_members(s, m, nm, ag)
        }
    } else if e < s.len() && s[e] == '}' {
        match (nm, ag) {
            (Option::Some(n), Option::Some(a)) => Option::Some((n, a, e + 1)),
            _ => Option::None,
        }
    } else {
        Option::None
    }
}

/// The whole accepted body: the text of the `name` member and the value of
/// the `age` member, or nothing where the body falls outside the grammar.
pub open spec fn parse_user(s: Seq<char>) -> Option<(Seq<char>, u32)> {
    let i0: int = skip_ws(s, 0);
    if i0 < s.len() && s[i0] == '{' {
        match parse_members(s, skip_ws(s, i0 + 1), Option::None, Option::None) {
            Option::Some((nm, ag, e)) => if skip_ws(s, e) == s.len() {
                Option::Some((nm, ag))
            } else {
                Option::None
            },
            Option::None => Option::None,
        }
    } else {
        Option::None
    }
}


fn is_ws_exec(c: char) -> (r: bool)
    ensures
        r == is_ws(c),
{
    c == ' ' || c == '\t' || c == '\n' || c == '\r'
}

fn skip_ws_exec(s: &Vec<char>, i: usize) -> (r: usize)
    requires
        i <= s.len(),
    ensures
        r == skip_ws(s@, i as int),
        i <= r <= s.len(),
{
    let mut j: usize = i;
    while j < s.len() && is_ws_exec(s[j])
        invariant
            i <= j <= s.len(),
            skip_ws(s@, i as int) == skip_ws(s@, j as int),
        decreases s.len() - j,
    {
        j += 1;
    }
    j
}

fn is_digit_exec(c: char) -> (r: bool)
    ensures
        r == is_digit(c),
{
    let v = c as u32;
    0x30 <= v && v <= 0x39
}

fn is_hex_exec(c: char) -> (r: bool)
    ensures
        r == is_hex_digit(c),
{
    let v = c as u32;
    (0x30 <= v && v <= 0x39) || (0x41 <= v && v <= 0x46) || (0x61 <= v && v <= 0x66)
}

fn hex_val_exec(c: char) -> (r: u8)
    requires
        is_hex_digit(c),
    ensures
        r as nat == hex_val(c),
        r < 16,
{
    let v = c as u32;
    if v <= 0x39 {
        (v - 0x30) as u8
    } else if v <= 0x46 {
        (v - 0x37) as u8
    } else {
        (v - 0x57) as u8
    }
}

fn short_escape_exec(c: char) -> (r: Option<char>)
    ensures
        r == short_escape(c),
{
    match c {
        '"' => Some('"'),
        '\\' => Some('\\'),
        '/' => Some('/'),
        'b' => Some('\u{0008}'),
        'f' => Some('\u{000C}'),
        'n' => Some('\n'),
        'r' => Some('\r'),
        't' => Some('\t'),
        _ => None,
    }
}

fn hex4_exec(s: &Vec<char>, i: usize) -> (r: u32)
    requires
        i + 4 <= s.len(),
        is_hex_digit(s@[i as int]),
        is_hex_digit(s@[i as int + 1]),
        is_hex_digit(s@[i as int + 2]),
        is_hex_digit(s@[i as int + 3]),
    ensures
        r as nat == hex4_val(s@, i as int),
        r < 0x10000,
{
    (hex_val_exec(s[i]) as u32) * 0x1000 + (hex_val_exec(s[i + 1]) as u32) * 0x100 + (
    hex_val_exec(s[i + 2]) as u32) * 16 + (hex_val_exec(s[i + 3]) as u32)
}

/// Relies on char::from_u32: a Unicode scalar value — neither a surrogate
/// nor above 0x10FFFF — converts to the character with exactly that value.
#[verifier::external_body]
fn char_of_scalar(v: u32) -> (c: char)
    requires
        v < 0xD800 || (0xE000 <= v && v <= 0x10FFFF),
    ensures
        c as u32 == v,
{
    match char::from_u32(v) {
        Some(c) => c,
        None => ' ',
    }
}

fn match_at(s: &Vec<char>, i: usize, pat: &Vec<char>) -> (r: bool)
    requires
        i <= s.len(),
    ensures
        r == (i + pat@.len() <= s@.len() && s@.subrange(i as int, i as int + pat@.len())
            == pat@),
{
    let n = s.len();
    if n - i < pat.len() {
        return false;
    }
    let mut j: usize = 0;
    while j < pat.len()
        invariant
            n == s@.len(),
            i + pat@.len() <= n,
            j <= pat@.len(),
            forall|k: int| 0 <= k < j ==> s@[i + k] == pat@[k],
        decreases pat@.len() - j,
    {
        if s[i + j] != pat[j] {
            proof {
                let full: Seq<char> = s@;
                assert(full.subrange(i as int, i as int + pat@.len())[j as int] == full[i
                    + j]);
            }
            return false;
        }
        j += 1;
    }
    proof {
        assert(s@.subrange(i as int, i as int + pat@.len()) =~= pat@);
    }
    true
}

fn scan_str_body(s: &Vec<char>, i: usize) -> (r: Option<(Vec<char>, usize)>)
    requires
        i <= s.len(),
    ensures
        (match r {
            Option::Some((t, j)) => parse_str_body(s@, i as int) == Option::Some(
                (t@, j as int),
            ) && i < j <= s.len(),
            Option::None => parse_str_body(s@, i as int) is None,
        }),
    decreases s.len() - i,
{
    if i >= s.len() {
        return None;
    }
    let c = s[i];
    if c == '"' {
        Some((Vec::new(), i + 1))
    } else if c == '\\' {
        if i + 1 >= s.len() {
            return None;
        }
        match short_escape_exec(s[i + 1]) {
            Some(e) => match scan_str_body(s, i + 2) {
                Some(p) => {
                    let (mut t, j) = p;
                    let ghost told: Seq<char> = t@;
                    t.insert(0, e);
                    proof {
                        assert(t@ =~= seq![e] + told);
                    }
                    Some((t, j))
                },
                None => None,
            },
            None => {
                if s[i + 1] == 'u' && s.len() - i > 5 && is_hex_exec(s[i + 2])
                    && is_hex_exec(s[i + 3]) && is_hex_exec(s[i + 4]) && is_hex_exec(
                    s[i + 5],
                ) {
                    let v = hex4_exec(s, i + 2);
                    if 0xDC00 <= v && v <= 0xDFFF {
                        None
                    } else if 0xD800 <= v && v <= 0xDBFF {
                        if s.len() - i > 11 && s[i + 6] == '\\' && s[i + 7] == 'u'
                            && is_hex_exec(s[i + 8]) && is_hex_exec(s[i + 9])
                            && is_hex_exec(s[i + 10]) && is_hex_exec(s[i + 11]) {
                            let w = hex4_exec(s, i + 8);
                            if 0xDC00 <= w && w <= 0xDFFF {
                                let cp: u32 = 0x10000 + (v - 0xD800) * 0x400 + (w
                                    - 0xDC00);
                                let ch = char_of_scalar(cp);
                                proof {
                                    vstd::utf8::char_u32_cast(ch, cp);
                                    assert(cp as nat == combined_scalar(
                                        v as nat,
                                        w as nat,
                                    ));
                                    assert(ch == scalar_char(
                                        combined_scalar(v as nat, w as nat),
                                    ));
                                }
                                match scan_str_body(s, i + 12) {
                                    Some(p) => {
                                        let (mut t, j) = p;
                                        let ghost told: Seq<char> = t@;
                                        t.insert(0, ch);
                                        proof {
                                            assert(t@ =~= seq![ch] + told);
                                        }
                                        Some((t, j))
                                    },
                                    None => None,
                                }
                            } else {
                                None
                            }
                        } else {
                            None
                        }
                    } else {
                        let ch = char_of_scalar(v);
                        proof {
                            vstd::utf8::char_u32_cast(ch, v);
                            assert(ch == scalar_char(v as nat));
                        }
                        match scan_str_body(s, i + 6) {
                            Some(p) => {
                                let (mut t, j) = p;
                                let ghost told: Seq<char> = t@;
                                t.insert(0, ch);
                                proof {
                                    assert(t@ =~= seq![ch] + told);
                                }
                                Some((t, j))
                            },
                            None => None,
                        }
                    }
                } else {
                    None
                }
            },
        }
    } else if (c as u32) < 0x20 {
        None
    } else {
        match scan_str_body(s, i + 1) {
            Some(p) => {
                let (mut t, j) = p;
                let ghost told: Seq<char> = t@;
                t.insert(0, c);
                proof {
                    assert(t@ =~= seq![s@[i as int]] + told);
                }
                Some((t, j))
            },
            None => None,
        }
    }
}

fn scan_quoted(s: &Vec<char>, i: usize) -> (r: Option<(Vec<char>, usize)>)
    requires
        i <= s.len(),
    ensures
        (match r {
            Option::Some((t, j)) => parse_quoted(s@, i as int) == Option::Some((t@, j as int))
                && i < j <= s.len(),
            Option::None => parse_quoted(s@, i as int) is None,
        }),
{
    if i < s.len() && s[i] == '"' {
        scan_str_body(s, i + 1)
    } else {
        None
    }
}

proof fn lemma_digits_val_mono(s: Seq<char>, i: int, j1: int, j2: int)
    requires
        i <= j1 <= j2,
    ensures
        digits_val(s, i, j2) >= digits_val(s, i, j1),
    decreases j2 - j1,
{
    if j2 > j1 {
        lemma_digits_val_mono(s, i, j1, j2 - 1);
    }
}

fn scan_number(s: &Vec<char>, i: usize) -> (r: Option<(u32, usize)>)
    requires
        i <= s.len(),
    ensures
        (match r {
            Option::Some((v, j)) => parse_num(s@, i as int) == Option::Some((v, j as int)) && i
                < j <= s.len(),
            Option::None => parse_num(s@, i as int) is None,
        }),
{
    let mut j: usize = i;
    while j < s.len() && is_digit_exec(s[j])
        invariant
            i <= j <= s.len(),
            digits_end(s@, i as int) == digits_end(s@, j as int),
            forall|k: int| i <= k < j ==> is_digit(s@[k]),
        decreases s.len() - j,
    {
        j += 1;
    }
    if j == i {
        return None;
    }
    if s[i] == '0' && j > i + 1 {
        return None;
    }
    let mut acc: u64 = 0;
    let mut k: usize = i;
    while k < j
        invariant
            i <= k <= j <= s.len(),
            digits_end(s@, i as int) == j,
            forall|k2: int| i <= k2 < j ==> is_digit(s@[k2]),
            acc == digits_val(s@, i as int, k as int),
            acc <= 0xFFFF_FFFFu64,
        decreases j - k,
    {
        let c = s[k];
        let v = c as u32;
        let d: u8 = (v - 0x30) as u8;
        acc = acc * 10 + (d as u64);
        if acc > 0xFFFF_FFFFu64 {
            proof {
                lemma_digits_val_mono(s@, i as int, k as int + 1, j as int);
            }
            return None;
        }
        k += 1;
    }
    Some((acc as u32, j))
}

fn scan_digits_end(s: &Vec<char>, i: usize) -> (r: usize)
    requires
        i <= s.len(),
    ensures
        r == digits_end(s@, i as int),
        i <= r <= s.len(),
{
    let mut j: usize = i;
    while j < s.len() && is_digit_exec(s[j])
        invariant
            i <= j <= s.len(),
            digits_end(s@, i as int) == digits_end(s@, j as int),
        decreases s.len() - j,
    {
        j += 1;
    }
    j
}

fn scan_skip_number(s: &Vec<char>, i: usize) -> (r: Option<usize>)
    requires
        i <= s.len(),
    ensures
        (match r {
            Option::Some(j) => skip_number(s@, i as int) == Option::Some(j as int) && i < j
                <= s.len(),
            Option::None => skip_number(s@, i as int) is None,
        }),
{
    let a: usize = if i < s.len() && s[i] == '-' {
        i + 1
    } else {
        i
    };
    let b = scan_digits_end(s, a);
    if b == a {
        return None;
    }
    if s[a] == '0' && b > a + 1 {
        return None;
    }
    let f: usize;
    if b < s.len() && s[b] == '.' {
        let j = scan_digits_end(s, b + 1);
        if j == b + 1 {
            return None;
        }
        f = j;
    } else {
        f = b;
    }
    if f < s.len() && (s[f] == 'e' || s[f] == 'E') {
        let d: usize = if f + 1 < s.len() && (s[f + 1] == '+' || s[f + 1] == '-') {
            f + 2
        } else {
            f + 1
        };
        let j = scan_digits_end(s, d);
        if j == d {
            return None;
        }
        Some(j)
    } else {
        Some(f)
    }
}

fn true_vec() -> (r: Vec<char>)
    ensures
        r@ == true_text(),
{
    let mut v: Vec<char> = Vec::new();
    v.push('t');
    v.push('r');
    v.push('u');
    v.push('e');
    proof {
        assert(v@ =~= true_text());
    }
    v
}

fn false_vec() -> (r: Vec<char>)
    ensures
        r@ == false_text(),
{
    let mut v: Vec<char> = Vec::new();
    v.push('f');
    v.push('a');
    v.push('l');
    v.push('s');
    v.push('e');
    proof {
        assert(v@ =~= false_text());
    }
    v
}

fn null_vec() -> (r: Vec<char>)
    ensures
        r@ == null_text(),
{
    let mut v: Vec<char> = Vec::new();
    v.push('n');
    v.push('u');
    v.push('l');
    v.push('l');
    proof {
        assert(v@ =~= null_text());
    }
    v
}

fn scan_value(s: &Vec<char>, i: usize) -> (r: Option<usize>)
    requires
        i <= s.len(),
    ensures
        (match r {
            Option::Some(j) => skip_value(s@, i as int) == Option::Some(j as int) && i < j
                <= s.len(),
            Option::None => skip_value(s@, i as int) is None,
        }),
    decreases s.len() - i, 0int,
{
    let n = s.len();
    if i >= n {
        return None;
    }
    let c = s[i];
    if c == '"' {
        match scan_str_body(s, i + 1) {
            Some(p) => Some(p.1),
            None => None,
        }
    } else if c == 't' {
        let pat = true_vec();
        if match_at(s, i, &pat) {
            Some(i + 4)
        } else {
            None
        }
    } else if c == 'f' {
        let pat = false_vec();
        if match_at(s, i, &pat) {
            Some(i + 5)
        } else {
            None
        }
    } else if c == 'n' {
        let pat = null_vec();
        if match_at(s, i, &pat) {
            Some(i + 4)
        } else {
            None
        }
    } else if c == '[' {
        let k = skip_ws_exec(s, i + 1);
        scan_items(s, k)
    } else if c == '{' {
        let k = skip_ws_exec(s, i + 1);
        scan_pairs(s, k)
    } else {
        scan_skip_number(s, i)
    }
}

fn scan_items(s: &Vec<char>, i: usize) -> (r: Option<usize>)
    requires
        i <= s.len(),
    ensures
        (match r {
            Option::Some(j) => skip_items(s@, i as int) == Option::Some(j as int) && i < j
                <= s.len(),
            Option::None => skip_items(s@, i as int) is None,
        }),
    decreases s.len() - i, 1int,
{
    if i < s.len() && s[i] == ']' {
        return Some(i + 1);
    }
    match scan_value(s, i) {
        Some(j) => {
            let k = skip_ws_exec(s, j);
            if k < s.len() && s[k] == ',' {
                let m = skip_ws_exec(s, k + 1);
                if m < s.len() && s[m] == ']' {
                    None
                } else {
                    scan_items(s, m)
                }
            } else if k < s.len() && s[k] == ']' {
                Some(k + 1)
            } else {
                None
            }
        },
        None => None,
    }
}

fn scan_pairs(s: &Vec<char>, i: usize) -> (r: Option<usize>)
    requires
        i <= s.len(),
    ensures
        (match r {
            Option::Some(j) => skip_pairs(s@, i as int) == Option::Some(j as int) && i < j
                <= s.len(),
            Option::None => skip_pairs(s@, i as int) is None,
        }),
    decreases s.len() - i, 1int,
{
    if i < s.len() && s[i] == '}' {
        return Some(i + 1);
    }
    match scan_quoted(s, i) {
        Some(p) => {
            let j = p.1;
            let c = skip_ws_exec(s, j);
            if c < s.len() && s[c] == ':' {
                let v0 = skip_ws_exec(s, c + 1);
                match scan_value(s, v0) {
                    Some(j2) => {
                        let e = skip_ws_exec(s, j2);
                        if e < s.len() && s[e] == ',' {
                            let m = skip_ws_exec(s, e + 1);
                            if m < s.len() && s[m] == '}' {
                                None
                            } else {
                                scan_pairs(s, m)
                            }
                        } else if e < s.len() && s[e] == '}' {
                            Some(e + 1)
                        } else {
                            None
                        }
                    },
                    None => None,
                }
            } else {
                None
            }
        },
        None => None,
    }
}

/// The mathematical value a held name option stands for.
pub open spec fn opt_view(o: Option<Vec<char>>) -> Option<Seq<char>> {
    match o {
        Option::Some(v) => Option::Some(v@),
        Option::None => Option::None,
    }
}

fn is_name_key(v: &Vec<char>) -> (r: bool)
    ensures
        r == (v@ == name_text()),
{
    let r = v.len() == 4 && v[0] == 'n' && v[1] == 'a' && v[2] == 'm' && v[3] == 'e';
    proof {
        if r {
            assert(v@ =~= name_text());
        }
        if v@ == name_text() {
            assert(v@.len() == 4);
            assert(v@[0] == 'n' && v@[1] == 'a' && v@[2] == 'm' && v@[3] == 'e');
        }
    }
    r
}

fn is_age_key(v: &Vec<char>) -> (r: bool)
    ensures
        r == (v@ == age_text()),
{
    let r = v.len() == 3 && v[0] == 'a' && v[1] == 'g' && v[2] == 'e';
    proof {
        if r {
            assert(v@ =~= age_text());
        }
        if v@ == age_text() {
            assert(v@.len() == 3);
            assert(v@[0] == 'a' && v@[1] == 'g' && v@[2] == 'e');
        }
    }
    r
}

fn is_id_key(v: &Vec<char>) -> (r: bool)
    ensures
        r == (v@ == id_text()),
{
    let r = v.len() == 2 && v[0] == 'i' && v[1] == 'd';
    proof {
        if r {
            assert(v@ =~= id_text());
        }
        if v@ == id_text() {
            assert(v@.len() == 2);
            assert(v@[0] == 'i' && v@[1] == 'd');
        }
    }
    r
}

fn scan_members(s: &Vec<char>, i: usize, nm: Option<Vec<char>>, ag: Option<u32>) -> (r:
    Option<(Vec<char>, u32, usize)>)
    requires
        i <= s.len(),
    ensures
        (match r {
            Option::Some((n2, a2, e2)) => parse_members(s@, i as int, opt_view(nm), ag)
                == Option::Some((n2@, a2, e2 as int)) && e2 <= s.len(),
            Option::None => parse_members(s@, i as int, opt_view(nm), ag) is None,
        }),
    decreases s.len() - i,
{
    if i >= s.len() {
        return None;
    }
    if s[i] == '}' {
        return (match (nm, ag) {
            (Some(n), Some(a)) => Some((n, a, i + 1)),
            _ => None,
        });
    }
    match scan_quoted(s, i) {
        Some(p) => {
            let (key, j) = p;
            let c = skip_ws_exec(s, j);
            if c < s.len() && s[c] == ':' {
                let v0 = skip_ws_exec(s, c + 1);
                if is_name_key(&key) {
                    if nm.is_some() {
                        return None;
                    }
                    match scan_quoted(s, v0) {
                        Some(p2) => {
                            let (val, j2) = p2;
                            scan_more(s, j2, Some(val), ag)
                        },
                        None => None,
                    }
                } else if is_age_key(&key) {
                    if ag.is_some() {
                        return None;
                    }
                    match scan_number(s, v0) {
                        Some(p2) => {
                            let (val, j2) = p2;
                            scan_more(s, j2, nm, Some(val))
                        },
                        None => None,
                    }
                } else if is_id_key(&key) {
                    None
                } else {
                    match scan_value(s, v0) {
                        Some(j2) => scan_more(s, j2, nm, ag),
                        None => None,
                    }
                }
            } else {
                None
            }
        },
        None => None,
    }
}

fn scan_more(s: &Vec<char>, i: usize, nm: Option<Vec<char>>, ag: Option<u32>) -> (r: Option<
    (Vec<char>, u32, usize)>)
    requires
        i <= s.len(),
    ensures
        (match r {
            Option::Some((n2, a2, e2)) => parse_more(s@, i as int, opt_view(nm), ag)
                == Option::Some((n2@, a2, e2 as int)) && e2 <= s.len(),
            Option::None => parse_more(s@, i as int, opt_view(nm), ag) is None,
        }),
    decreases s.len() - i,
{
    let e = skip_ws_exec(s, i);
    if e < s.len() && s[e] == ',' {
        let m = skip_ws_exec(s, e + 1);
        if m < s.len() && s[m] == '}' {
            None
        } else {
            scan_members(s, m, nm, ag)
        }
    } else if e < s.len() && s[e] == '}' {
        match (nm, ag) {
            (Some(n), Some(a)) => Some((n, a, e + 1)),
            _ => None,
        }
    } else {
        None
    }
}

/// Reads a create-user request body. Yields the user it names — identifier
/// absent, exactly as a client must send it — precisely when the body lies
/// in the accepted grammar, and nothing otherwise.
pub fn parse_user_chars(body: &Vec<char>) -> (r: Option<User>)
    ensures
        (match r {
            Option::Some(u) => parse_user(body@) == Option::Some((u.name@, u.age)) && u.id
                is None,
            Option::None => parse_user(body@) is None,
        }),
{
    let i0 = skip_ws_exec(body, 0);
    if !(i0 < body.len() && body[i0] == '{') {
        return None;
    }
    let i1 = skip_ws_exec(body, i0 + 1);
    match scan_members(body, i1, None, None) {
        Some(t) => {
            let (nm, ag, e) = t;
            let fin = skip_ws_exec(body, e);
            if fin == body.len() {
                Some(User { id: None, name: nm, age: ag })
            } else {
                None
            }
        },
        None => None,
    }
}


/// The canonical JSON text of a create-user payload: the `name` member first,
/// then the `age` member, with no whitespace.
pub open spec fn payload_json(name: Seq<char>, age: u32) -> Seq<char> {
    seq!['{', '"', 'n', 'a', 'm', 'e', '"', ':'] + quoted(name) + seq![','] + seq![
        '"', 'a', 'g', 'e', '"', ':',
    ] + dec_seq(age as nat) + seq!['}']
}

proof fn lemma_digit_char_digit(d: nat)
    requires
        d < 10,
    ensures
        is_digit(digit_char(d)),
        digit_val(digit_char(d)) == d,
{
}

proof fn lemma_digit_char_hex(d: nat)
    requires
        d < 16,
    ensures
        is_hex_digit(digit_char(d)),
        hex_val(digit_char(d)) == d,
{
}

proof fn lemma_dec_seq_digits(n: nat)
    ensures
        forall|k: int| 0 <= k < dec_seq(n).len() ==> is_digit(#[trigger] dec_seq(n)[k]),
    decreases n,
{
    if n < 10 {
        lemma_digit_char_digit(n);
    } else {
        lemma_dec_seq_digits(n / 10);
        lemma_digit_char_digit(n % 10);
        assert forall|k: int| 0 <= k < dec_seq(n).len() implies is_digit(
            #[trigger] dec_seq(n)[k],
        ) by {
            if k < dec_seq(n / 10).len() {
                assert(dec_seq(n)[k] == dec_seq(n / 10)[k]);
            }
        };
    }
}

proof fn lemma_dec_seq_lead(n: nat)
    requires
        n >= 1,
    ensures
        dec_seq(n)[0] != '0',
    decreases n,
{
    if n >= 10 {
        lemma_dec_seq_lead(n / 10);
        assert(dec_seq(n)[0] == dec_seq(n / 10)[0]);
    }
}

proof fn lemma_skip_digits(s: Seq<char>, i: int, j: int)
    requires
        0 <= i <= j <= s.len(),
        forall|k: int| i <= k < j ==> is_digit(#[trigger] s[k]),
        j == s.len() || !is_digit(s[j]),
    ensures
        digits_end(s, i) == j,
    decreases j - i,
{
    if i < j {
        lemma_skip_digits(s, i + 1, j);
    }
}

proof fn lemma_dec_val(s: Seq<char>, i: int, n: nat)
    requires
        0 <= i,
        i + dec_seq(n).len() <= s.len(),
        s.subrange(i, i + dec_seq(n).len()) == dec_seq(n),
    ensures
        digits_val(s, i, i + dec_seq(n).len()) == n,
    decreases n,
{
    let l: int = dec_seq(n).len() as int;
    if n < 10 {
        assert(s.subrange(i, i + 1)[0] == s[i]);
        assert(s[i] == dec_seq(n)[0]);
        assert(s[i] == digit_char(n));
        lemma_digit_char_digit(n);
        assert(digits_val(s, i, i) == 0);
        assert(digits_val(s, i, i + 1) == digits_val(s, i, i) * 10 + digit_val(s[i]));
    } else {
        assert(s.subrange(i, i + l - 1) =~= dec_seq(n / 10)) by {
            assert forall|m: int| 0 <= m < l - 1 implies s.subrange(i, i + l - 1)[m]
                == #[trigger] dec_seq(n / 10)[m] by {
                assert(s.subrange(i, i + l)[m] == s[i + m]);
                assert(s.subrange(i, i + l - 1)[m] == s[i + m]);
                assert(dec_seq(n)[m] == dec_seq(n / 10)[m]);
            };
        };
        lemma_dec_val(s, i, n / 10);
        assert(s.subrange(i, i + l)[l - 1] == s[i + l - 1]);
        assert(s[i + l - 1] == digit_char(n % 10));
        lemma_digit_char_digit(n % 10);
        assert(digits_val(s, i, i + l) == digits_val(s, i, i + l - 1) * 10 + digit_val(
            s[i + l - 1],
        ));
    }
}

proof fn lemma_parse_dec(s: Seq<char>, i: int, n: u32)
    requires
        0 <= i,
        i + dec_seq(n as nat).len() <= s.len(),
        s.subrange(i, i + dec_seq(n as nat).len()) == dec_seq(n as nat),
        i + dec_seq(n as nat).len() == s.len() || !is_digit(s[i + dec_seq(n as nat).len()]),
    ensures
        parse_num(s, i) == Option::Some((n, i + dec_seq(n as nat).len())),
{
    let l: int = dec_seq(n as nat).len() as int;
    lemma_dec_seq_digits(n as nat);
    assert forall|k: int| i <= k < i + l implies is_digit(#[trigger] s[k]) by {
        assert(s.subrange(i, i + l)[k - i] == s[k]);
        assert(dec_seq(n as nat)[k - i] == s[k]);
    };
    lemma_skip_digits(s, i, i + l);
    lemma_dec_val(s, i, n as nat);
    if l > 1 {
        assert(n as nat >= 10);
        lemma_dec_seq_lead(n as nat);
        assert(s.subrange(i, i + l)[0] == s[i]);
        assert(s[i] != '0');
    }
}

proof fn lemma_esc_plain(t: Seq<char>)
    requires
        forall|k: int| 0 <= k < t.len() ==> (#[trigger] t[k]) != '"' && t[k] != '\\' && (
        t[k] as u32) >= 0x20,
    ensures
        esc_seq(t) == t,
    decreases t.len(),
{
    if t.len() > 0 {
        assert forall|k: int| 0 <= k < t.drop_first().len() implies (#[trigger] t.drop_first()[
            k
        ]) != '"' && t.drop_first()[k] != '\\' && (t.drop_first()[k] as u32) >= 0x20 by {
            assert(t.drop_first()[k] == t[k + 1]);
        };
        lemma_esc_plain(t.drop_first());
        assert(esc_char(t[0]) == seq![t[0]]);
        assert(esc_seq(t) =~= t);
    }
}

proof fn lemma_parse_escaped(s: Seq<char>, i: int, name: Seq<char>)
    requires
        0 <= i,
        i + esc_seq(name).len() + 1 <= s.len(),
        s.subrange(i, i + esc_seq(name).len() + 1) == esc_seq(name) + seq!['"'],
    ensures
        parse_str_body(s, i) == Option::Some((name, i + esc_seq(name).len() + 1)),
    decreases name.len(),
{
    let e = esc_seq(name);
    let l: int = e.len() as int;
    let all = e + seq!['"'];
    assert forall|m: int| 0 <= m < l + 1 implies s[i + m] == all[m] by {
        assert(s.subrange(i, i + l + 1)[m] == s[i + m]);
    };
    if name.len() == 0 {
        assert(all[0] == '"');
        assert(s[i + 0] == all[0]);
        assert(s[i] == '"');
    } else {
        let c = name[0];
        let rest = name.drop_first();
        let ec = esc_char(c);
        let k: int = ec.len() as int;
        assert(e == ec + esc_seq(rest));
        assert(esc_seq(rest).len() == l - k);
        assert forall|m: int| 0 <= m < k implies s[i + m] == ec[m] by {
            assert(all[m] == e[m]);
            assert(e[m] == ec[m]);
        };
        assert(s.subrange(i + k, i + l + 1) =~= esc_seq(rest) + seq!['"']) by {
            assert forall|m: int| 0 <= m < l + 1 - k implies s.subrange(i + k, i + l + 1)[m]
                == (esc_seq(rest) + seq!['"'])[m] by {
                assert(s.subrange(i + k, i + l + 1)[m] == s[i + k + m]);
                assert(s[i + k + m] == all[k + m]);
                if k + m < l {
                    assert(all[k + m] == e[k + m]);
                    assert(e[k + m] == esc_seq(rest)[m]);
                }
            };
        };
        lemma_parse_escaped(s, i + k, rest);
        assert(seq![c] + rest =~= name);
        if c == '"' {
            assert(s[i] == '\\' && s[i + 1] == '"');
            assert(short_escape(s[i + 1]) == Option::Some('"'));
            assert(parse_str_body(s, i) == Option::Some((name, i + l + 1)));
        } else if c == '\\' {
            assert(s[i] == '\\' && s[i + 1] == '\\');
            assert(short_escape(s[i + 1]) == Option::Some('\\'));
            assert(parse_str_body(s, i) == Option::Some((name, i + l + 1)));
        } else if (c as u32) < 0x20 {
            let u: u32 = c as u32;
            let v: int = u as int;
            assert(s[i] == '\\' && s[i + 1] == 'u' && s[i + 2] == '0' && s[i + 3] == '0');
            assert(short_escape('u') is None);
            assert(s[i + 4] == digit_char((v / 16) as nat));
            assert(s[i + 5] == digit_char((v % 16) as nat));
            lemma_digit_char_hex((v / 16) as nat);
            lemma_digit_char_hex((v % 16) as nat);
            assert(hex_val('0') == 0);
            assert(hex4_val(s, i + 2) == hex_val(s[i + 4]) * 16 + hex_val(s[i + 5]));
            assert(hex_val(s[i + 4]) * 16 + hex_val(s[i + 5]) == v) by {
                vstd::arithmetic::div_mod::lemma_fundamental_div_mod(v, 16);
            };
            assert(!is_low_surrogate(v as nat) && !is_high_surrogate(v as nat));
            vstd::utf8::char_u32_cast(c, u);
            assert(scalar_char(v as nat) == c);
            assert(parse_str_body(s, i) == Option::Some((name, i + l + 1)));
        } else {
            assert(s[i] == c);
            assert(parse_str_body(s, i) == Option::Some((name, i + l + 1)));
        }
    }
}

proof fn lemma_payload_name_part(name: Seq<char>, age: u32)
    ensures
        payload_json(name, age).len() == 18 + esc_seq(name).len() + dec_seq(
            age as nat,
        ).len(),
        payload_json(name, age)[0] == '{',
        payload_json(name, age)[1] == '"',
        payload_json(name, age)[7] == ':',
        skip_ws(payload_json(name, age), 0) == 0,
        skip_ws(payload_json(name, age), 1) == 1,
        skip_ws(payload_json(name, age), 7) == 7,
        skip_ws(payload_json(name, age), 8) == 8,
        parse_quoted(payload_json(name, age), 1) == Option::Some((name_text(), 7int)),
        parse_quoted(payload_json(name, age), 8) == Option::Some(
            (name, 10 + esc_seq(name).len() as int),
        ),
{
    let p = payload_json(name, age);
    let el: int = esc_seq(name).len() as int;
    assert(p[0] == '{');
    assert(p[1] == '"');
    assert(p[2] == 'n' && p[3] == 'a' && p[4] == 'm' && p[5] == 'e');
    assert(p[6] == '"');
    assert(p[7] == ':');
    assert(p[8] == '"');
    assert(name_text()[0] == 'n' && name_text()[1] == 'a' && name_text()[2] == 'm'
        && name_text()[3] == 'e');
    lemma_esc_plain(name_text());
    assert(p.subrange(2, 7) =~= esc_seq(name_text()) + seq!['"']);
    lemma_parse_escaped(p, 2, name_text());
    assert forall|m: int| 0 <= m < el + 1 implies p[9 + m] == (esc_seq(name)
        + seq!['"'])[m] by {
        assert(p[9 + m] == quoted(name)[m + 1]);
    };
    assert(p.subrange(9, 9 + el + 1) =~= esc_seq(name) + seq!['"']) by {
        assert forall|m: int| 0 <= m < el + 1 implies p.subrange(9, 9 + el + 1)[m]
            == (esc_seq(name) + seq!['"'])[m] by {
            assert(p.subrange(9, 9 + el + 1)[m] == p[9 + m]);
        };
    };
    lemma_parse_escaped(p, 9, name);
}

proof fn lemma_payload_age_part(name: Seq<char>, age: u32)
    ensures
        payload_json(name, age)[10 + esc_seq(name).len() as int] == ',',
        payload_json(name, age)[11 + esc_seq(name).len() as int] == '"',
        payload_json(name, age)[16 + esc_seq(name).len() as int] == ':',
        payload_json(name, age)[17 + esc_seq(name).len() + dec_seq(age as nat).len() as int]
            == '}',
        skip_ws(payload_json(name, age), 10 + esc_seq(name).len() as int) == 10 + esc_seq(
            name,
        ).len(),
        skip_ws(payload_json(name, age), 11 + esc_seq(name).len() as int) == 11 + esc_seq(
            name,
        ).len(),
        skip_ws(payload_json(name, age), 16 + esc_seq(name).len() as int) == 16 + esc_seq(
            name,
        ).len(),
        skip_ws(payload_json(name, age), 17 + esc_seq(name).len() as int) == 17 + esc_seq(
            name,
        ).len(),
        skip_ws(
            payload_json(name, age),
            17 + esc_seq(name).len() + dec_seq(age as nat).len() as int,
        ) == 17 + esc_seq(name).len() + dec_seq(age as nat).len() as int,
        skip_ws(
            payload_json(name, age),
            18 + esc_seq(name).len() + dec_seq(age as nat).len() as int,
        ) == payload_json(name, age).len(),
        parse_quoted(payload_json(name, age), 11 + esc_seq(name).len() as int) == Option::Some(
            (age_text(), 16 + esc_seq(name).len() as int),
        ),
        parse_num(payload_json(name, age), 17 + esc_seq(name).len() as int) == Option::Some(
            (age, 17 + esc_seq(name).len() + dec_seq(age as nat).len() as int),
        ),
{
    let p = payload_json(name, age);
    let el: int = esc_seq(name).len() as int;
    let dl: int = dec_seq(age as nat).len() as int;
    assert(p.len() == 18 + el + dl);
    assert(p[10 + el] == ',');
    assert(p[11 + el] == '"');
    assert(p[12 + el] == 'a' && p[13 + el] == 'g' && p[14 + el] == 'e');
    assert(p[15 + el] == '"');
    assert(p[16 + el] == ':');
    assert(age_text()[0] == 'a' && age_text()[1] == 'g' && age_text()[2] == 'e');
    lemma_esc_plain(age_text());
    assert(p.subrange(12 + el, 16 + el) =~= esc_seq(age_text()) + seq!['"']);
    lemma_parse_escaped(p, 12 + el, age_text());
    assert forall|m: int| 0 <= m < dl implies p[17 + el + m] == #[trigger] dec_seq(
        age as nat,
    )[m] by {
    };
    assert(p[17 + el + dl] == '}');
    lemma_dec_seq_digits(age as nat);
    assert(is_digit(p[17 + el]));
    assert(p.subrange(17 + el, 17 + el + dl) =~= dec_seq(age as nat)) by {
        assert forall|m: int| 0 <= m < dl implies p.subrange(17 + el, 17 + el + dl)[m]
            == dec_seq(age as nat)[m] by {
            assert(p.subrange(17 + el, 17 + el + dl)[m] == p[17 + el + m]);
        };
    };
    lemma_parse_dec(p, 17 + el, age);
}

/// Any payload in the canonical form — every name and every age — parses
/// back to exactly that name and that age: accepting the documented grammar
/// never loses or alters a valid record on its way in.
#[verifier::rlimit(100)]
pub proof fn lemma_payload_round_trip(name: Seq<char>, age: u32)
    ensures
        parse_user(payload_json(name, age)) == Option::Some((name, age)),
{
    let p = payload_json(name, age);
    let el: int = esc_seq(name).len() as int;
    let dl: int = dec_seq(age as nat).len() as int;
    lemma_payload_name_part(name, age);
    lemma_payload_age_part(name, age);
    assert(age_text() != name_text());
    assert(parse_more(p, 17 + el + dl, Option::Some(name), Option::Some(age))
        == Option::Some((name, age, 18 + el + dl)));
    assert(parse_members(p, 11 + el, Option::Some(name), Option::None) == Option::Some(
        (name, age, 18 + el + dl),
    ));
    assert(parse_more(p, 10 + el, Option::Some(name), Option::None) == Option::Some(
        (name, age, 18 + el + dl),
    ));
    assert(parse_members(p, 1, Option::None, Option::None) == Option::Some(
        (name, age, 18 + el + dl),
    ));
}

} // verus!

//! Character-level building blocks for the JSON texts this service emits and
//! accepts: digits, decimal rendering, lowercase hex, and string escaping.
use vstd::prelude::*;

verus! {

/// The sixteen lowercase digit characters, used both for decimal rendering
/// (values below ten) and for hexadecimal rendering.
pub open spec fn digit_char(d: nat) -> char
    recommends
        d < 16,
{
    if d == 0 {
        '0'
    } else if d == 1 {
        '1'
    } else if d == 2 {
        '2'
    } else if d == 3 {
        '3'
    } else if d == 4 {
        '4'
    } else if d == 5 {
        '5'
    } else if d == 6 {
        '6'
    } else if d == 7 {
        '7'
    } else if d == 8 {
        '8'
    } else if d == 9 {
        '9'
    } else if d == 10 {
        'a'
    } else if d == 11 {
        'b'
    } else if d == 12 {
        'c'
    } else if d == 13 {
        'd'
    } else if d == 14 {
        'e'
    } else {
        'f'
    }
}

/// Distinct digit values render as distinct characters.
pub proof fn lemma_digit_char_injective(x: nat, y: nat)
    requires
        x < 16,
        y < 16,
        digit_char(x) == digit_char(y),
    ensures
        x == y,
{
}

fn digit_char_exec(d: u8) -> (c: char)
    requires
        d < 16,
    ensures
        c == digit_char(d as nat),
{
    match d {
        0 => '0',
        1 => '1',
        2 => '2',
        3 => '3',
        4 => '4',
        5 => '5',
        6 => '6',
        7 => '7',
        8 => '8',
        9 => '9',
        10 => 'a',
        11 => 'b',
        12 => 'c',
        13 => 'd',
        14 => 'e',
        _ => 'f',
    }
}

/// The decimal rendering of a number, most significant digit first, with no
/// leading zeros (a lone `0` for zero).
pub open spec fn dec_seq(n: nat) -> Seq<char>
    decreases n,
{
    if n < 10 {
        seq![digit_char(n)]
    } else {
        dec_seq(n / 10).push(digit_char(n % 10))
    }
}

/// Appends the decimal rendering of `n` to `out`.
pub fn push_dec(n: u32, out: &mut Vec<char>)
    ensures
        final(out)@ == old(out)@ + dec_seq(n as nat),
    decreases n,
{
    if n < 10 {
        out.push(digit_char_exec(n as u8));
        assert(out@ =~= old(out)@ + dec_seq(n as nat));
    } else {
        push_dec(n / 10, out);
        out.push(digit_char_exec((n % 10) as u8));
        assert(out@ =~= old(out)@ + dec_seq(n as nat));
    }
}

/// The lowercase hexadecimal rendering of a byte string: two digits per byte,
/// high digit first.
pub open spec fn hex_seq(bytes: Seq<u8>) -> Seq<char>
    decreases bytes.len(),
{
    if bytes.len() == 0 {
        Seq::empty()
    } else {
        seq![
            digit_char((bytes[0] / 16) as nat),
            digit_char((bytes[0] % 16) as nat),
        ] + hex_seq(bytes.drop_first())
    }
}

/// A hex rendering is twice as long as the byte string it renders.
pub proof fn lemma_hex_len(bytes: Seq<u8>)
    ensures
        hex_seq(bytes).len() == 2 * bytes.len(),
    decreases bytes.len(),
{
    if bytes.len() > 0 {
        lemma_hex_len(bytes.drop_first());
    }
}

/// Distinct byte strings render as distinct hex strings; in particular two
/// distinct identifiers never collide once rendered.
pub proof fn lemma_hex_injective(a: Seq<u8>, b: Seq<u8>)
    requires
        hex_seq(a) == hex_seq(b),
    ensures
        a == b,
    decreases a.len(),
{
    lemma_hex_len(a);
    lemma_hex_len(b);
    if a.len() == 0 {
        assert(a =~= b);
    } else {
        assert(hex_seq(a)[0] == digit_char((a[0] / 16) as nat));
        assert(hex_seq(a)[1] == digit_char((a[0] % 16) as nat));
        assert(hex_seq(b)[0] == digit_char((b[0] / 16) as nat));
        assert(hex_seq(b)[1] == digit_char((b[0] % 16) as nat));
        lemma_digit_char_injective((a[0] / 16) as nat, (b[0] / 16) as nat);
        lemma_digit_char_injective((a[0] % 16) as nat, (b[0] % 16) as nat);
        assert(a[0] == b[0]);
        assert(hex_seq(a).skip(2) =~= hex_seq(a.drop_first()));
        assert(hex_seq(b).skip(2) =~= hex_seq(b.drop_first()));
        lemma_hex_injective(a.drop_first(), b.drop_first());
        assert forall|i: int| 0 <= i < a.len() implies a[i] == b[i] by {
            if i > 0 {
                assert(a[i] == a.drop_first()[i - 1]);
                assert(b[i] == b.drop_first()[i - 1]);
            }
        };
        assert(a =~= b);
    }
}

pub(crate) fn push_hex_from(bytes: &Vec<u8>, i: usize, out: &mut Vec<char>)
    requires
        i <= bytes.len(),
    ensures
        final(out)@ == old(out)@ + hex_seq(bytes@.skip(i as int)),
    decreases bytes.len() - i,
{
    if i == bytes.len() {
        assert(out@ =~= old(out)@ + hex_seq(bytes@.skip(i as int)));
    } else {
        let b = bytes[i];
        out.push(digit_char_exec(b / 16));
        out.push(digit_char_exec(b % 16));
        push_hex_from(bytes, i + 1, out);
        assert(bytes@.skip(i as int).drop_first() =~= bytes@.skip(i as int + 1));
        assert(out@ =~= old(out)@ + hex_seq(bytes@.skip(i as int)));
    }
}

/// The lowercase hex rendering of `bytes`, as the service renders a stored
/// record's generated identifier.
pub fn hex_chars(bytes: &Vec<u8>) -> (r: Vec<char>)
    ensures
        r@ == hex_seq(bytes@),
{
    let mut out: Vec<char> = Vec::new();
    push_hex_from(bytes, 0, &mut out);
    proof {
        assert(bytes@.skip(0) =~= bytes@);
    }
    out
}

/// How one character appears inside a JSON string literal: quote and backslash
/// are escaped, control characters take the `\u00XX` form, and everything else
/// stands for itself.
pub open spec fn esc_char(c: char) -> Seq<char> {
    if c == '"' {
        seq!['\\', '"']
    } else if c == '\\' {
        seq!['\\', '\\']
    } else if (c as u32) < 0x20 {
        seq![
            '\\',
            'u',
            '0',
            '0',
            digit_char(((c as u32) / 16) as nat),
            digit_char(((c as u32) % 16) as nat),
        ]
    } else {
        seq![c]
    }
}

/// The body of a JSON string literal holding the text `s`.
pub open spec fn esc_seq(s: Seq<char>) -> Seq<char>
    decreases s.len(),
{
    if s.len() == 0 {
        Seq::empty()
    } else {
        esc_char(s[0]) + esc_seq(s.drop_first())
    }
}

/// A complete JSON string literal: the escaped text between double quotes.
pub open spec fn quoted(s: Seq<char>) -> Seq<char> {
    seq!['"'] + esc_seq(s) + seq!['"']
}

fn push_esc_from(s: &Vec<char>, i: usize, out: &mut Vec<char>)
    requires
        i <= s.len(),
    ensures
        final(out)@ == old(out)@ + esc_seq(s@.skip(i as int)),
    decreases s.len() - i,
{
    if i == s.len() {
        assert(out@ =~= old(out)@ + esc_seq(s@.skip(i as int)));
    } else {
        let c = s[i];
        if c == '"' {
            out.push('\\');
            out.push('"');
        } else if c == '\\' {
            out.push('\\');
            out.push('\\');
        } else if (c as u32) < 0x20 {
            let v = c as u32;
            out.push('\\');
            out.push('u');
            out.push('0');
            out.push('0');
            out.push(digit_char_exec((v / 16) as u8));
            out.push(digit_char_exec((v % 16) as u8));
        }
        if (c as u32) >= 0x20 && c != '"' && c != '\\' {
            out.push(c);
        }
        push_esc_from(s, i + 1, out);
        assert(s@.skip(i as int).drop_first() =~= s@.skip(i as int + 1));
        assert(out@ =~= old(out)@ + esc_seq(s@.skip(i as int)));
    }
}

/// Appends the JSON string literal holding the text `s` to `out`.
pub fn push_quoted(s: &Vec<char>, out: &mut Vec<char>)
    ensures
        final(out)@ == old(out)@ + quoted(s@),
{
    out.push('"');
    push_esc_from(s, 0, out);
    out.push('"');
    proof {
        assert(s@.skip(0) =~= s@);
        assert(out@ =~= old(out)@ + quoted(s@));
    }
}

} // verus!

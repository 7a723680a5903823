//! Character-level helpers shared by the encoders and the ordered registries:
//! lexicographic order, UTF-16 code units, decimal and hexadecimal digits,
//! and byte copies.
use vstd::prelude::*;

verus! {

/// Lexicographic "strictly less" on integer sequences: a proper prefix is
/// smaller, otherwise the first differing element decides.
pub open spec fn lex_lt(a: Seq<int>, b: Seq<int>) -> bool
    decreases a.len(),
{
    if a.len() == 0 {
        b.len() > 0
    } else if b.len() == 0 {
        false
    } else if a[0] != b[0] {
        a[0] < b[0]
    } else {
        lex_lt(a.drop_first(), b.drop_first())
    }
}

/// The code points of a character sequence.
pub open spec fn code_points(s: Seq<char>) -> Seq<int> {
    s.map_values(|c: char| c as int)
}

/// Code-point lexicographic order on strings (the order of Rust's `str`).
pub open spec fn text_lt(a: Seq<char>, b: Seq<char>) -> bool {
    lex_lt(code_points(a), code_points(b))
}

/// The UTF-16 code units of one character.
pub open spec fn utf16_of_char(c: char) -> Seq<int> {
    let v = c as int;
    if v < 0x10000 {
        seq![v]
    } else {
        seq![0xD800 + (v - 0x10000) / 0x400, 0xDC00 + (v - 0x10000) % 0x400]
    }
}

/// The UTF-16 code units of a character sequence.
pub open spec fn utf16(s: Seq<char>) -> Seq<int>
    decreases s.len(),
{
    if s.len() == 0 {
        seq![]
    } else {
        utf16(s.drop_last()) + utf16_of_char(s.last())
    }
}

/// UTF-16 code-unit lexicographic order, the member order of RFC 8785.
pub open spec fn utf16_lt(a: Seq<char>, b: Seq<char>) -> bool {
    lex_lt(utf16(a), utf16(b))
}

pub proof fn lemma_lex_lt_irreflexive(a: Seq<int>)
    ensures
        !lex_lt(a, a),
    decreases a.len(),
{
    if a.len() > 0 {
        lemma_lex_lt_irreflexive(a.drop_first());
    }
}

pub proof fn lemma_lex_lt_transitive(a: Seq<int>, b: Seq<int>, c: Seq<int>)
    requires
        lex_lt(a, b),
        lex_lt(b, c),
    ensures
        lex_lt(a, c),
    decreases a.len(),
{
    if a.len() > 0 && b.len() > 0 && c.len() > 0 && a[0] == b[0] && b[0] == c[0] {
        lemma_lex_lt_transitive(a.drop_first(), b.drop_first(), c.drop_first());
    }
}

pub proof fn lemma_lex_lt_total(a: Seq<int>, b: Seq<int>)
    ensures
        lex_lt(a, b) || lex_lt(b, a) || a == b,
    decreases a.len(),
{
    if a.len() > 0 && b.len() > 0 && a[0] == b[0] {
        lemma_lex_lt_total(a.drop_first(), b.drop_first());
        if a.drop_first() == b.drop_first() {
            assert(a =~= seq![a[0]] + a.drop_first());
            assert(b =~= seq![b[0]] + b.drop_first());
        }
    } else if a.len() == 0 && b.len() == 0 {
        assert(a =~= b);
    }
}

pub proof fn lemma_lex_lt_asymmetric(a: Seq<int>, b: Seq<int>)
    requires
        lex_lt(a, b),
    ensures
        !lex_lt(b, a),
{
    if lex_lt(b, a) {
        lemma_lex_lt_transitive(a, b, a);
        lemma_lex_lt_irreflexive(a);
    }
}

/// The last code unit of a character's UTF-16 encoding is a low surrogate
/// exactly when the character lies outside the Basic Multilingual Plane.
proof fn lemma_utf16_of_char_shape(c: char)
    ensures
        (c as int) < 0x10000 ==> utf16_of_char(c).len() == 1 && !(0xDC00 <= utf16_of_char(c)[0] <= 0xDFFF),
        (c as int) >= 0x10000 ==> utf16_of_char(c).len() == 2 && 0xDC00 <= utf16_of_char(c)[1] <= 0xDFFF,
{
}

/// Distinct texts have distinct UTF-16 encodings.
pub proof fn lemma_utf16_injective(a: Seq<char>, b: Seq<char>)
    requires
        utf16(a) == utf16(b),
    ensures
        a == b,
    decreases a.len(),
{
    if a.len() == 0 && b.len() == 0 {
        assert(a =~= b);
    } else if a.len() == 0 {
        assert(utf16(b).len() >= utf16_of_char(b.last()).len());
    } else if b.len() == 0 {
        assert(utf16(a).len() >= utf16_of_char(a.last()).len());
    } else {
        let (ca, cb) = (a.last(), b.last());
        let (ea, eb) = (utf16_of_char(ca), utf16_of_char(cb));
        let (pa, pb) = (utf16(a.drop_last()), utf16(b.drop_last()));
        let u = utf16(a);
        lemma_utf16_of_char_shape(ca);
        lemma_utf16_of_char_shape(cb);
        assert(u == pa + ea);
        assert(u == pb + eb);
        assert(u.last() == ea.last());
        assert(u.last() == eb.last());
        assert(ea.len() == eb.len());
        if ea.len() == 1 {
            assert(ea[0] == eb[0]);
            assert(ca == cb);
        } else {
            assert(ea[0] == u[u.len() - 2]);
            assert(eb[0] == u[u.len() - 2]);
            let (x, y) = ((ca as int) - 0x10000, (cb as int) - 0x10000);
            assert(x / 0x400 == y / 0x400 && x % 0x400 == y % 0x400);
            assert(x == 0x400 * (x / 0x400) + x % 0x400) by (nonlinear_arith);
            assert(y == 0x400 * (y / 0x400) + y % 0x400) by (nonlinear_arith);
            assert(ca == cb);
        }
        assert(pa =~= u.take(u.len() - ea.len()));
        assert(pb =~= u.take(u.len() - eb.len()));
        lemma_utf16_injective(a.drop_last(), b.drop_last());
        assert(a =~= a.drop_last().push(ca));
        assert(b =~= b.drop_last().push(cb));
    }
}

/// UTF-16 order is a strict total order on texts.
pub proof fn lemma_utf16_lt_total(a: Seq<char>, b: Seq<char>)
    ensures
        utf16_lt(a, b) || utf16_lt(b, a) || a == b,
{
    lemma_lex_lt_total(utf16(a), utf16(b));
    if utf16(a) == utf16(b) {
        lemma_utf16_injective(a, b);
    }
}

/// The text of an optional string.
pub open spec fn text_of(o: Option<String>) -> Option<Seq<char>> {
    match o {
        Some(s) => Some(s@),
        None => None,
    }
}

/// Compares two optional strings by their text.
pub fn same_text(a: &Option<String>, b: &Option<String>) -> (r: bool)
    ensures
        r == (text_of(*a) == text_of(*b)),
{
    match (a, b) {
        (Some(x), Some(y)) => *x == *y,
        (None, None) => true,
        _ => false,
    }
}

/// Collects the characters of a string slice, in order.
pub fn chars_of(s: &str) -> (out: Vec<char>)
    ensures
        out@ == s@,
{
    broadcast use vstd::string::group_string_axioms;
    let mut out: Vec<char> = Vec::new();
    for c in iter: s.chars()
        invariant
            out@ == iter.seq().take(iter.index() as int),
            iter.seq() == s@,
    {
        out.push(c);
    }
    out
}

/// Appends one character to a string (`String::push`).
#[verifier::external_body]
pub(crate) fn push_char(s: &mut String, c: char)
    ensures
        final(s)@ == old(s)@.push(c),
{
    s.push(c);
}

/// Compares two character vectors in code-point lexicographic order.
pub fn chars_lt(a: &Vec<char>, b: &Vec<char>) -> (r: bool)
    ensures
        r == text_lt(a@, b@),
{
    let mut i: usize = 0;
    assert(a@.skip(0) =~= a@);
    assert(b@.skip(0) =~= b@);
    while i < a.len() && i < b.len()
        invariant
            i <= a.len(),
            i <= b.len(),
            forall|k: int| 0 <= k < i ==> a@[k] == b@[k],
            text_lt(a@, b@) == text_lt(a@.skip(i as int), b@.skip(i as int)),
        decreases a.len() - i,
    {
        let x = a[i];
        let y = b[i];
        assert(code_points(a@.skip(i as int))[0] == x as int);
        assert(code_points(b@.skip(i as int))[0] == y as int);
        if x < y {
            return true;
        }
        if x > y {
            return false;
        }
        assert(code_points(a@.skip(i as int)).drop_first() =~= code_points(a@.skip(i + 1)));
        assert(code_points(b@.skip(i as int)).drop_first() =~= code_points(b@.skip(i + 1)));
        i = i + 1;
        assert(a@[i - 1] == b@[i - 1]);
    }
    assert(code_points(a@.skip(i as int)).len() == a.len() - i);
    assert(code_points(b@.skip(i as int)).len() == b.len() - i);
    i < b.len()
}

/// Compares two strings in code-point lexicographic order.
pub fn str_lt(a: &str, b: &str) -> (r: bool)
    ensures
        r == text_lt(a@, b@),
{
    let x = chars_of(a);
    let y = chars_of(b);
    chars_lt(&x, &y)
}

/// The ASCII decimal digits of a natural number, most significant first.
pub open spec fn decimal(n: nat) -> Seq<u8>
    decreases n,
{
    if n < 10 {
        seq![(48 + n) as u8]
    } else {
        decimal(n / 10) + seq![(48 + n % 10) as u8]
    }
}

/// Appends the decimal digits of `n`.
pub fn push_decimal(n: u64, out: &mut Vec<u8>)
    ensures
        final(out)@ == old(out)@ + decimal(n as nat),
    decreases n,
{
    if n >= 10 {
        push_decimal(n / 10, out);
    }
    out.push((48 + n % 10) as u8);
    proof {
        if n < 10 {
            assert(final(out)@ =~= old(out)@ + decimal(n as nat));
        } else {
            assert(final(out)@ =~= old(out)@ + decimal(n as nat));
        }
    }
}

/// The lowercase hexadecimal digit for a value below 16.
pub open spec fn hex_digit(v: int) -> char {
    if v < 10 {
        (48 + v) as char
    } else {
        (87 + v) as char
    }
}

/// Two lowercase hexadecimal digits per byte, most significant first.
pub open spec fn lower_hex(bytes: Seq<u8>) -> Seq<char>
    decreases bytes.len(),
{
    if bytes.len() == 0 {
        seq![]
    } else {
        seq![hex_digit(bytes[0] as int / 16), hex_digit(bytes[0] as int % 16)] + lower_hex(bytes.drop_first())
    }
}

/// The hex text of some bytes has two lowercase hexadecimal digits per byte.
pub proof fn lemma_lower_hex_shape(bytes: Seq<u8>)
    ensures
        lower_hex(bytes).len() == 2 * bytes.len(),
        forall|i: int|
            0 <= i < lower_hex(bytes).len() ==> ('0' <= #[trigger] lower_hex(bytes)[i] <= '9' || 'a' <= lower_hex(
                bytes,
            )[i] <= 'f'),
    decreases bytes.len(),
{
    if bytes.len() > 0 {
        let rest = bytes.drop_first();
        lemma_lower_hex_shape(rest);
        let head = seq![hex_digit(bytes[0] as int / 16), hex_digit(bytes[0] as int % 16)];
        assert(lower_hex(bytes) == head + lower_hex(rest));
        assert forall|i: int| 0 <= i < lower_hex(bytes).len() implies ('0' <= #[trigger] lower_hex(bytes)[i] <= '9'
            || 'a' <= lower_hex(bytes)[i] <= 'f') by {
            if i >= 2 {
                assert(lower_hex(bytes)[i] == lower_hex(rest)[i - 2]);
            } else {
                assert(lower_hex(bytes)[i] == head[i]);
            }
        }
    }
}

fn hex_char(v: u8) -> (r: char)
    requires
        v < 16,
    ensures
        r == hex_digit(v as int),
{
    if v < 10 {
        (48 + v) as char
    } else {
        (87 + v) as char
    }
}

/// Appends the lowercase hexadecimal digits of the bytes to a string.
pub fn push_lower_hex(bytes: &[u8], out: &mut String)
    ensures
        final(out)@ == old(out)@ + lower_hex(bytes@),
{
    let mut i: usize = 0;
    assert(bytes@.skip(0) =~= bytes@);
    while i < bytes.len()
        invariant
            i <= bytes@.len(),
            out@ + lower_hex(bytes@.skip(i as int)) == old(out)@ + lower_hex(bytes@),
        decreases bytes@.len() - i,
    {
        let b = bytes[i];
        proof {
            assert(bytes@.skip(i as int).drop_first() =~= bytes@.skip(i + 1));
        }
        let ghost before = out@;
        push_char(out, hex_char(b / 16));
        push_char(out, hex_char(b % 16));
        proof {
            assert(lower_hex(bytes@.skip(i as int)) == seq![hex_digit(b as int / 16), hex_digit(b as int % 16)] + lower_hex(bytes@.skip(i + 1)));
            assert(out@ + lower_hex(bytes@.skip(i + 1)) =~= before + lower_hex(bytes@.skip(i as int)));
        }
        i = i + 1;
    }
    proof {
        assert(bytes@.skip(i as int) =~= Seq::<u8>::empty());
    }
}

/// Appends the UTF-16 code units of one character.
fn push_utf16(c: char, out: &mut Vec<u32>)
    ensures
        final(out)@.map_values(|u: u32| u as int) == old(out)@.map_values(|u: u32| u as int) + utf16_of_char(c),
{
    let v = c as u32;
    if v < 0x10000 {
        out.push(v);
    } else {
        out.push(0xD800 + (v - 0x10000) / 0x400);
        out.push(0xDC00 + (v - 0x10000) % 0x400);
    }
    assert(final(out)@.map_values(|u: u32| u as int) =~= old(out)@.map_values(|u: u32| u as int) + utf16_of_char(c));
}

/// The UTF-16 code units of a string.
pub fn utf16_units(s: &str) -> (r: Vec<u32>)
    ensures
        r@.map_values(|u: u32| u as int) == utf16(s@),
{
    let chars = chars_of(s);
    let mut out: Vec<u32> = Vec::new();
    let mut i: usize = 0;
    while i < chars.len()
        invariant
            i <= chars@.len(),
            chars@ == s@,
            out@.map_values(|u: u32| u as int) == utf16(chars@.take(i as int)),
        decreases chars@.len() - i,
    {
        push_utf16(chars[i], &mut out);
        proof {
            assert(chars@.take(i + 1).drop_last() =~= chars@.take(i as int));
        }
        i = i + 1;
    }
    proof {
        assert(chars@.take(i as int) =~= chars@);
    }
    out
}

/// Compares code-unit sequences lexicographically.
pub fn units_lt(a: &Vec<u32>, b: &Vec<u32>) -> (r: bool)
    ensures
        r == lex_lt(a@.map_values(|u: u32| u as int), b@.map_values(|u: u32| u as int)),
{
    let ghost x = a@.map_values(|u: u32| u as int);
    let ghost y = b@.map_values(|u: u32| u as int);
    let mut i: usize = 0;
    assert(x.skip(0) =~= x);
    assert(y.skip(0) =~= y);
    while i < a.len() && i < b.len()
        invariant
            i <= a.len(),
            i <= b.len(),
            x == a@.map_values(|u: u32| u as int),
            y == b@.map_values(|u: u32| u as int),
            lex_lt(x, y) == lex_lt(x.skip(i as int), y.skip(i as int)),
        decreases a.len() - i,
    {
        if a[i] < b[i] {
            return true;
        }
        if a[i] > b[i] {
            return false;
        }
        assert(x.skip(i as int).drop_first() =~= x.skip(i + 1));
        assert(y.skip(i as int).drop_first() =~= y.skip(i + 1));
        i = i + 1;
    }
    i < b.len()
}

/// A copy of a byte vector.
pub(crate) fn copy_bytes(v: &Vec<u8>) -> (r: Vec<u8>)
    ensures
        r@ == v@,
{
    let mut out: Vec<u8> = Vec::new();
    let mut i: usize = 0;
    while i < v.len()
        invariant
            i <= v@.len(),
            out@ == v@.take(i as int),
        decreases v@.len() - i,
    {
        out.push(v[i]);
        i = i + 1;
        assert(v@.take(i as int) =~= v@.take(i - 1 as int).push(v@[i - 1]));
    }
    assert(v@.take(i as int) =~= v@);
    out
}

} // verus!

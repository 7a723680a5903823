//! Restricted RFC 8785 canonical JSON encoding, content hashes and
//! domain-separated signature input.
use vstd::prelude::*;

use sha2::Digest;

use crate::text::{
    decimal, lemma_lex_lt_irreflexive, lemma_lower_hex_shape, lemma_lex_lt_transitive, lemma_utf16_lt_total, lower_hex, push_decimal,
    push_lower_hex, units_lt, utf16, utf16_lt, utf16_units,
};

verus! {

/// The largest integer magnitude that JSON consumers can represent exactly
/// (2^53 - 1).
pub const MAX_INTEROPERABLE_INTEGER: u64 = 9_007_199_254_740_991;

/// A JSON number as the encoder sees it: an integer that fits `i64`, a
/// larger non-negative integer that fits `u64`, or any other (floating
/// point) number.
#[derive(Clone, Copy, Debug, PartialEq, Eq, Structural)]
pub enum JsonNumber {
    Signed(i64),
    Unsigned(u64),
    Float,
}

/// A JSON value. Object members are kept in the order given; the encoder
/// orders them.
#[derive(Debug, PartialEq, Eq)]
pub enum JsonValue {
    Null,
    Bool(bool),
    Number(JsonNumber),
    String(String),
    Array(Vec<JsonValue>),
    Object(Vec<JsonMember>),
}

/// One object member: a name and its value.
#[derive(Debug, PartialEq, Eq)]
pub struct JsonMember {
    pub name: String,
    pub value: JsonValue,
}

/// The mathematical content of a JSON value.
pub enum JsonTree {
    Null,
    Bool(bool),
    Number(JsonNumber),
    Text(Seq<char>),
    Array(Seq<JsonTree>),
    Object(Seq<(Seq<char>, JsonTree)>),
}

/// The tree of a JSON value.
pub open spec fn json_tree(v: JsonValue) -> JsonTree
    decreases v,
{
    match v {
        JsonValue::Null => JsonTree::Null,
        JsonValue::Bool(b) => JsonTree::Bool(b),
        JsonValue::Number(n) => JsonTree::Number(n),
        JsonValue::String(s) => JsonTree::Text(s@),
        JsonValue::Array(items) => JsonTree::Array(
            Seq::new(
                items@.len(),
                |i: int|
                    if 0 <= i < items@.len() {
                        json_tree(items@[i])
                    } else {
                        JsonTree::Null
                    },
            ),
        ),
        JsonValue::Object(members) => JsonTree::Object(
            Seq::new(
                members@.len(),
                |i: int|
                    if 0 <= i < members@.len() {
                        (members@[i].name@, json_tree(members@[i].value))
                    } else {
                        (Seq::empty(), JsonTree::Null)
                    },
            ),
        ),
    }
}

impl View for JsonValue {
    type V = JsonTree;

    open spec fn view(&self) -> JsonTree {
        json_tree(*self)
    }
}

/// A failure to encode a value in the restricted canonical profile.
#[derive(Clone, Copy, Debug, PartialEq, Eq, Structural)]
pub enum CanonicalError {
    Float,
    Null,
    IntegerRange,
    InvalidSchema,
}

/// The canonical bytes of a number: decimal integers within ±(2^53 - 1).
pub open spec fn number_encoding(n: JsonNumber) -> Result<Seq<u8>, CanonicalError> {
    match n {
        JsonNumber::Signed(i) => if i > MAX_INTEROPERABLE_INTEGER || -i > MAX_INTEROPERABLE_INTEGER {
            Err(CanonicalError::IntegerRange)
        } else if i < 0 {
            Ok(seq![45u8] + decimal((-i) as nat))
        } else {
            Ok(decimal(i as nat))
        },
        JsonNumber::Unsigned(u) => if u > MAX_INTEROPERABLE_INTEGER {
            Err(CanonicalError::IntegerRange)
        } else {
            Ok(decimal(u as nat))
        },
        JsonNumber::Float => Err(CanonicalError::Float),
    }
}

/// The JSON escape of one character: quote, reverse solidus and the named
/// controls use two-character escapes, other controls below U+0020 use
/// `\u00xx` with lowercase hex, everything else is its UTF-8 encoding.
pub open spec fn escape_char(c: char) -> Seq<u8> {
    let v = c as int;
    if v == 0x22 {
        seq![92u8, 34u8]
    } else if v == 0x5C {
        seq![92u8, 92u8]
    } else if v == 0x08 {
        seq![92u8, 98u8]
    } else if v == 0x09 {
        seq![92u8, 116u8]
    } else if v == 0x0A {
        seq![92u8, 110u8]
    } else if v == 0x0C {
        seq![92u8, 102u8]
    } else if v == 0x0D {
        seq![92u8, 114u8]
    } else if v < 0x20 {
        seq![92u8, 117u8, 48u8, 48u8, (48 + v / 16) as u8, (if v % 16 < 10 { 48 + v % 16 } else { 87 + v % 16 }) as u8]
    } else {
        vstd::utf8::encode_scalar(c as u32)
    }
}

/// The escaped contents of a JSON string.
pub open spec fn escaped(s: Seq<char>) -> Seq<u8>
    decreases s.len(),
{
    if s.len() == 0 {
        seq![]
    } else {
        escape_char(s[0]) + escaped(s.drop_first())
    }
}

/// A JSON string literal: the escaped contents between double quotes.
pub open spec fn json_string(s: Seq<char>) -> Seq<u8> {
    seq![34u8] + escaped(s) + seq![34u8]
}

/// `serde_json::to_string` on a string slice, as bytes. Its contract claims
/// the escaping that the crate's compact formatter performs: the text in
/// double quotes, `"` and `\` escaped with a backslash, the controls
/// U+0008, U+0009, U+000A, U+000C and U+000D as `\b`, `\t`, `\n`, `\f`,
/// `\r`, other controls below U+0020 as `\u00xx`, and every other character
/// as its UTF-8 bytes. Serializing a string slice into memory does not fail.
#[verifier::external_body]
fn quoted_json_string(s: &str) -> (r: Vec<u8>)
    ensures
        r@ == json_string(s@),
{
    serde_json::to_string(s).expect("serializing a JSON string cannot fail").into_bytes()
}

/// Inserts index `i` into a key-ordered index sequence after every index
/// whose key is not greater (a stable insertion).
pub open spec fn insert_ordered(order: Seq<int>, i: int, keys: Seq<Seq<char>>) -> Seq<int>
    decreases order.len(),
{
    if order.len() == 0 {
        seq![i]
    } else if utf16_lt(keys[i], keys[order[0]]) {
        seq![i] + order
    } else {
        seq![order[0]] + insert_ordered(order.drop_first(), i, keys)
    }
}

/// The stable UTF-16 order of the first `n` keys, as indices.
pub open spec fn key_order(keys: Seq<Seq<char>>, n: nat) -> Seq<int>
    decreases n,
{
    if n == 0 {
        seq![]
    } else {
        insert_ordered(key_order(keys, (n - 1) as nat), n - 1, keys)
    }
}

pub open spec fn member_keys(members: Seq<(Seq<char>, JsonTree)>) -> Seq<Seq<char>> {
    members.map_values(|m: (Seq<char>, JsonTree)| m.0)
}

/// The order in which object members are encoded.
pub open spec fn member_order(members: Seq<(Seq<char>, JsonTree)>) -> Seq<int> {
    key_order(member_keys(members), members.len())
}

/// The canonical bytes of a value, or why it has none.
pub open spec fn encoding(v: JsonTree) -> Result<Seq<u8>, CanonicalError>
    decreases v, 0nat,
{
    match v {
        JsonTree::Null => Err(CanonicalError::Null),
        JsonTree::Bool(b) => Ok(
            if b {
                seq![116u8, 114u8, 117u8, 101u8]
            } else {
                seq![102u8, 97u8, 108u8, 115u8, 101u8]
            },
        ),
        JsonTree::Number(n) => number_encoding(n),
        JsonTree::Text(s) => Ok(json_string(s)),
        JsonTree::Array(items) => match items_encoding(items, items.len()) {
            Ok(body) => Ok(seq![91u8] + body + seq![93u8]),
            Err(e) => Err(e),
        },
        JsonTree::Object(members) => match members_encoding(members, member_order(members), members.len()) {
            Ok(body) => Ok(seq![123u8] + body + seq![125u8]),
            Err(e) => Err(e),
        },
    }
}

/// The first `n` array items, comma-separated.
pub open spec fn items_encoding(items: Seq<JsonTree>, n: nat) -> Result<Seq<u8>, CanonicalError>
    decreases items, n,
{
    if n == 0 || n > items.len() {
        Ok(seq![])
    } else {
        match items_encoding(items, (n - 1) as nat) {
            Err(e) => Err(e),
            Ok(prefix) => match encoding(items[n - 1]) {
                Err(e) => Err(e),
                Ok(item) => Ok(
                    if n == 1 {
                        item
                    } else {
                        prefix + seq![44u8] + item
                    },
                ),
            },
        }
    }
}

/// The first `n` object members in the given order, comma-separated, each
/// as its quoted name, a colon and its value.
pub open spec fn members_encoding(members: Seq<(Seq<char>, JsonTree)>, order: Seq<int>, n: nat) -> Result<
    Seq<u8>,
    CanonicalError,
>
    decreases members, n,
{
    if n == 0 || n > order.len() || !(0 <= order[n - 1] < members.len()) {
        Ok(seq![])
    } else {
        match members_encoding(members, order, (n - 1) as nat) {
            Err(e) => Err(e),
            Ok(prefix) => match encoding(members[order[n - 1]].1) {
                Err(e) => Err(e),
                Ok(value) => {
                    let member = json_string(members[order[n - 1]].0) + seq![58u8] + value;
                    Ok(
                        if n == 1 {
                            member
                        } else {
                            prefix + seq![44u8] + member
                        },
                    )
                },
            },
        }
    }
}

proof fn lemma_insert_ordered_at(order: Seq<int>, i: int, keys: Seq<Seq<char>>, p: int)
    requires
        0 <= p <= order.len(),
        forall|q: int| 0 <= q < p ==> !utf16_lt(keys[i], keys[#[trigger] order[q]]),
        p < order.len() ==> utf16_lt(keys[i], keys[order[p]]),
    ensures
        insert_ordered(order, i, keys) == order.take(p) + seq![i] + order.skip(p),
    decreases order.len(),
{
    if order.len() == 0 {
        assert(order.take(p) + seq![i] + order.skip(p) =~= seq![i]);
    } else if p == 0 {
        assert(order.take(p) + seq![i] + order.skip(p) =~= seq![i] + order);
    } else {
        let rest = order.drop_first();
        assert forall|q: int| 0 <= q < p - 1 implies !utf16_lt(keys[i], keys[#[trigger] rest[q]]) by {
            assert(rest[q] == order[q + 1]);
        }
        lemma_insert_ordered_at(rest, i, keys, p - 1);
        assert(order.take(p) + seq![i] + order.skip(p) =~= seq![order[0]] + (rest.take(p - 1) + seq![i]
            + rest.skip(p - 1)));
    }
}

/// The names of the members of a JSON object value.
pub open spec fn member_names(members: Seq<JsonMember>) -> Seq<Seq<char>> {
    members.map_values(|m: JsonMember| m.name@)
}

/// The indices of the members in encoding order.
fn member_order_of(members: &Vec<JsonMember>) -> (order: Vec<usize>)
    ensures
        order@.map_values(|x: usize| x as int) == key_order(member_names(members@), members@.len()),
        order@.len() == members@.len(),
        forall|q: int| 0 <= q < order@.len() ==> #[trigger] order@[q] < members@.len(),
{
    let ghost keys = member_names(members@);
    let n = members.len();
    let mut units: Vec<Vec<u32>> = Vec::new();
    let mut i: usize = 0;
    while i < n
        invariant
            n == members@.len(),
            keys == member_names(members@),
            i <= n,
            units@.len() == i,
            forall|j: int| 0 <= j < i ==> (#[trigger] units@[j])@.map_values(|u: u32| u as int) == utf16(keys[j]),
        decreases n - i,
    {
        units.push(utf16_units(members[i].name.as_str()));
        i = i + 1;
    }
    let mut order: Vec<usize> = Vec::new();
    let mut i: usize = 0;
    while i < n
        invariant
            n == members@.len(),
            keys == member_names(members@),
            keys.len() == n,
            i <= n,
            units@.len() == n,
            forall|j: int| 0 <= j < n ==> (#[trigger] units@[j])@.map_values(|u: u32| u as int) == utf16(keys[j]),
            order@.map_values(|x: usize| x as int) == key_order(keys, i as nat),
            order@.len() == i,
            forall|q: int| 0 <= q < order@.len() ==> #[trigger] order@[q] < i,
        decreases n - i,
    {
        let ghost before = order@.map_values(|x: usize| x as int);
        let mut p: usize = 0;
        while p < order.len() && !units_lt(&units[i], &units[order[p]])
            invariant
                p <= order@.len(),
                i < n,
                units@.len() == n,
                forall|q: int| 0 <= q < order@.len() ==> #[trigger] order@[q] < i,
                before == order@.map_values(|x: usize| x as int),
                forall|j: int| 0 <= j < n ==> (#[trigger] units@[j])@.map_values(|u: u32| u as int) == utf16(keys[j]),
                forall|q: int| 0 <= q < p ==> !utf16_lt(keys[i as int], keys[#[trigger] before[q]]),
            decreases order@.len() - p,
        {
            p = p + 1;
        }
        proof {
            lemma_insert_ordered_at(before, i as int, keys, p as int);
        }
        order.insert(p, i);
        proof {
            assert(order@.map_values(|x: usize| x as int) =~= before.take(p as int) + seq![i as int] + before.skip(p as int));
        }
        i = i + 1;
    }
    order
}

proof fn lemma_items_error_persists(items: Seq<JsonTree>, n: nat, m: nat)
    requires
        n <= m <= items.len(),
        items_encoding(items, n) is Err,
    ensures
        items_encoding(items, m) == items_encoding(items, n),
    decreases m,
{
    if m > n {
        lemma_items_error_persists(items, n, (m - 1) as nat);
    }
}

proof fn lemma_members_error_persists(members: Seq<(Seq<char>, JsonTree)>, order: Seq<int>, n: nat, m: nat)
    requires
        n <= m <= order.len(),
        forall|q: int| 0 <= q < order.len() ==> 0 <= #[trigger] order[q] < members.len(),
        members_encoding(members, order, n) is Err,
    ensures
        members_encoding(members, order, m) == members_encoding(members, order, n),
    decreases m,
{
    if m > n {
        lemma_members_error_persists(members, order, n, (m - 1) as nat);
    }
}

fn encode_number(value: JsonNumber, output: &mut Vec<u8>) -> (r: Result<(), CanonicalError>)
    ensures
        match number_encoding(value) {
            Ok(bytes) => r is Ok && final(output)@ == old(output)@ + bytes,
            Err(e) => r == Err::<(), CanonicalError>(e),
        },
{
    match value {
        JsonNumber::Signed(v) => {
            if v > MAX_INTEROPERABLE_INTEGER as i64 || v < -(MAX_INTEROPERABLE_INTEGER as i64) {
                return Err(CanonicalError::IntegerRange);
            }
            if v < 0 {
                output.push(45u8);
                push_decimal((-v) as u64, output);
                assert(final(output)@ =~= old(output)@ + (seq![45u8] + decimal((-v) as nat)));
            } else {
                push_decimal(v as u64, output);
            }
            Ok(())
        },
        JsonNumber::Unsigned(v) => {
            if v > MAX_INTEROPERABLE_INTEGER {
                return Err(CanonicalError::IntegerRange);
            }
            push_decimal(v, output);
            Ok(())
        },
        JsonNumber::Float => Err(CanonicalError::Float),
    }
}

fn push_all(output: &mut Vec<u8>, bytes: &Vec<u8>)
    ensures
        final(output)@ == old(output)@ + bytes@,
{
    push_slice(output, bytes.as_slice());
}

fn push_slice(output: &mut Vec<u8>, bytes: &[u8])
    ensures
        final(output)@ == old(output)@ + bytes@,
{
    let mut i: usize = 0;
    while i < bytes.len()
        invariant
            i <= bytes@.len(),
            output@ == old(output)@ + bytes@.take(i as int),
        decreases bytes@.len() - i,
    {
        output.push(bytes[i]);
        i = i + 1;
        assert(bytes@.take(i as int) =~= bytes@.take(i - 1 as int).push(bytes@[i - 1]));
    }
    assert(bytes@.take(i as int) =~= bytes@);
}

fn encode(value: &JsonValue, output: &mut Vec<u8>) -> (r: Result<(), CanonicalError>)
    ensures
        match encoding(value@) {
            Ok(bytes) => r is Ok && final(output)@ == old(output)@ + bytes,
            Err(e) => r == Err::<(), CanonicalError>(e),
        },
    decreases value,
{
    match value {
        JsonValue::Null => Err(CanonicalError::Null),
        JsonValue::Bool(b) => {
            if *b {
                output.push(116u8);
                output.push(114u8);
                output.push(117u8);
                output.push(101u8);
            } else {
                output.push(102u8);
                output.push(97u8);
                output.push(108u8);
                output.push(115u8);
                output.push(101u8);
            }
            assert(final(output)@ =~= old(output)@ + encoding(value@)->Ok_0);
            Ok(())
        },
        JsonValue::Number(n) => encode_number(*n, output),
        JsonValue::String(s) => {
            let quoted = quoted_json_string(s.as_str());
            push_all(output, &quoted);
            Ok(())
        },
        JsonValue::Array(items) => {
            let ghost tree = value@->Array_0;
            output.push(91u8);
            let ghost start = output@;
            let mut i: usize = 0;
            while i < items.len()
                invariant
                    *value == JsonValue::Array(*items),
                    tree == value@->Array_0,
                    tree.len() == items@.len(),
                    forall|j: int| 0 <= j < items@.len() ==> #[trigger] tree[j] == items@[j]@,
                    i <= items@.len(),
                    items_encoding(tree, i as nat) is Ok,
                    output@ == start + items_encoding(tree, i as nat)->Ok_0,
                decreases items@.len() - i,
            {
                if i != 0 {
                    output.push(44u8);
                }
                proof {
                    assert(decreases_to!(*value => value->Array_0));
                    assert(decreases_to!(*items => items@));
                    assert(decreases_to!(items@ => items@[i as int]));
                    assert(tree[i as int] == items@[i as int]@);
                }
                match encode(&items[i], output) {
                    Err(e) => {
                        proof {
                            assert(items_encoding(tree, (i + 1) as nat) == Err::<Seq<u8>, CanonicalError>(e));
                            lemma_items_error_persists(tree, (i + 1) as nat, tree.len());
                        }
                        return Err(e);
                    },
                    Ok(()) => {},
                }
                i = i + 1;
                proof {
                    assert(output@ =~= start + items_encoding(tree, i as nat)->Ok_0);
                }
            }
            output.push(93u8);
            assert(final(output)@ =~= old(output)@ + encoding(value@)->Ok_0);
            Ok(())
        },
        JsonValue::Object(members) => {
            let ghost tree = value@->Object_0;
            let order = member_order_of(members);
            let ghost ord = order@.map_values(|x: usize| x as int);
            proof {
                assert(member_keys(tree) =~= member_names(members@));
            }
            output.push(123u8);
            let ghost start = output@;
            let mut k: usize = 0;
            while k < order.len()
                invariant
                    *value == JsonValue::Object(*members),
                    tree == value@->Object_0,
                    tree.len() == members@.len(),
                    forall|j: int| 0 <= j < members@.len() ==> #[trigger] tree[j] == (members@[j].name@, members@[j].value@),
                    k <= order@.len(),
                    order@.len() == members@.len(),
                    ord == order@.map_values(|x: usize| x as int),
                    ord == member_order(tree),
                    forall|q: int| 0 <= q < order@.len() ==> #[trigger] order@[q] < members@.len(),
                    members_encoding(tree, ord, k as nat) is Ok,
                    output@ == start + members_encoding(tree, ord, k as nat)->Ok_0,
                decreases order@.len() - k,
            {
                if k != 0 {
                    output.push(44u8);
                }
                let member = &members[order[k]];
                let quoted = quoted_json_string(member.name.as_str());
                push_all(output, &quoted);
                output.push(58u8);
                proof {
                    assert(ord[k as int] == order@[k as int] as int);
                    assert(decreases_to!(*value => value->Object_0));
                    assert(decreases_to!(*members => members@));
                    assert(decreases_to!(members@ => members@[ord[k as int]]));
                    assert(decreases_to!(members@[ord[k as int]] => members@[ord[k as int]].value));
                    assert(tree[ord[k as int]] == (members@[ord[k as int]].name@, members@[ord[k as int]].value@));
                }
                match encode(&member.value, output) {
                    Err(e) => {
                        proof {
                            assert forall|q: int| 0 <= q < ord.len() implies 0 <= #[trigger] ord[q] < tree.len() by {
                                assert(ord[q] == order@[q] as int);
                            }
                            assert(members_encoding(tree, ord, (k + 1) as nat) == Err::<Seq<u8>, CanonicalError>(e));
                            lemma_members_error_persists(tree, ord, (k + 1) as nat, ord.len());
                        }
                        return Err(e);
                    },
                    Ok(()) => {},
                }
                k = k + 1;
                proof {
                    assert(ord[k - 1] == order@[k - 1] as int);
                    assert(output@ =~= start + members_encoding(tree, ord, k as nat)->Ok_0);
                }
            }
            output.push(125u8);
            assert(final(output)@ =~= old(output)@ + encoding(value@)->Ok_0);
            Ok(())
        },
    }
}

/// Encodes JSON in the restricted RFC 8785 profile: object members ordered
/// by UTF-16 code units, compact string escaping, no whitespace; floats,
/// nulls and integers outside ±(2^53 - 1) are rejected.
pub fn canonicalize(value: &JsonValue) -> (r: Result<Vec<u8>, CanonicalError>)
    ensures
        match encoding(value@) {
            Ok(bytes) => r matches Ok(out) && out@ == bytes,
            Err(e) => r == Err::<Vec<u8>, CanonicalError>(e),
        },
{
    let mut output: Vec<u8> = Vec::new();
    match encode(value, &mut output) {
        Err(e) => Err(e),
        Ok(()) => {
            assert(output@ =~= encoding(value@)->Ok_0);
            Ok(output)
        },
    }
}

/// The SHA-256 digest of some bytes.
pub uninterp spec fn sha256(data: Seq<u8>) -> Seq<u8>;

/// `sha2::Sha256::digest`: the digest is a function of the input bytes
/// alone and is 32 bytes long (the algorithm itself is not restated).
#[verifier::external_body]
fn sha256_digest(data: &[u8]) -> (r: Vec<u8>)
    ensures
        r@ == sha256(data@),
        r@.len() == 32,
{
    sha2::Sha256::digest(data).to_vec()
}

/// The contract form of a content hash: `sha256:` and the lowercase hex of
/// the digest.
pub open spec fn hash_reference(body: Seq<u8>) -> Seq<char> {
    "sha256:"@ + lower_hex(sha256(body))
}

/// Returns the contract-safe SHA-256 reference for canonical body bytes.
pub fn body_hash(canonical_body: &[u8]) -> (r: String)
    ensures
        r@ == hash_reference(canonical_body@),
        r@.len() == 71,
        forall|i: int| 7 <= i < 71 ==> ('0' <= #[trigger] r@[i] <= '9' || 'a' <= r@[i] <= 'f'),
{
    let digest = sha256_digest(canonical_body);
    proof {
        lemma_lower_hex_shape(digest@);
    }
    let mut out = String::from_str("sha256:");
    push_lower_hex(digest.as_slice(), &mut out);
    proof {
        reveal_strlit("sha256:");
        let hex = lower_hex(digest@);
        assert(out@ == "sha256:"@ + hex);
        assert forall|i: int| 7 <= i < 71 implies ('0' <= #[trigger] out@[i] <= '9' || 'a' <= out@[i] <= 'f') by {
            assert(out@[i] == hex[i - 7]);
        }
    }
    out
}

/// The tag that opens every signature input, before its NUL separator.
pub const SIGNATURE_DOMAIN_TAG: &'static str = "ghostnet-artifact-v1";

/// The signature input: the domain tag, NUL, the schema identifier, NUL,
/// then the canonical body.
pub open spec fn signature_bytes(schema: Seq<char>, body: Seq<u8>) -> Seq<u8> {
    vstd::utf8::encode_utf8(SIGNATURE_DOMAIN_TAG@) + seq![0u8] + vstd::utf8::encode_utf8(schema) + seq![0u8] + body
}

/// A schema identifier is usable when it is non-empty and holds no NUL.
pub open spec fn valid_schema(schema: Seq<char>) -> bool {
    schema.len() > 0 && !vstd::utf8::encode_utf8(schema).contains(0u8)
}

/// Constructs the bytes submitted to detached signing; an empty schema or
/// one containing NUL would make domain separation ambiguous and is
/// rejected.
pub fn signature_input(schema: &str, canonical_body: &[u8]) -> (r: Result<Vec<u8>, CanonicalError>)
    ensures
        if valid_schema(schema@) {
            r matches Ok(out) && out@ == signature_bytes(schema@, canonical_body@)
        } else {
            r == Err::<Vec<u8>, CanonicalError>(CanonicalError::InvalidSchema)
        },
{
    let schema_bytes = schema.as_bytes();
    if schema.is_empty() {
        return Err(CanonicalError::InvalidSchema);
    }
    let mut i: usize = 0;
    while i < schema_bytes.len()
        invariant
            i <= schema_bytes@.len(),
            schema_bytes@ == vstd::utf8::encode_utf8(schema@),
            forall|j: int| 0 <= j < i ==> schema_bytes@[j] != 0u8,
        decreases schema_bytes@.len() - i,
    {
        if schema_bytes[i] == 0 {
            assert(schema_bytes@.contains(0u8));
            return Err(CanonicalError::InvalidSchema);
        }
        i = i + 1;
    }
    let mut output: Vec<u8> = Vec::new();
    push_slice(&mut output, SIGNATURE_DOMAIN_TAG.as_bytes());
    output.push(0u8);
    push_slice(&mut output, schema_bytes);
    output.push(0u8);
    push_slice(&mut output, canonical_body);
    assert(output@ =~= signature_bytes(schema@, canonical_body@));
    Ok(output)
}

/// Inserts a member into a key-ordered member sequence after every member
/// whose name is not greater: `insert_ordered` on the members themselves.
pub open spec fn insert_member(sorted: Seq<(Seq<char>, JsonTree)>, m: (Seq<char>, JsonTree)) -> Seq<
    (Seq<char>, JsonTree),
>
    decreases sorted.len(),
{
    if sorted.len() == 0 {
        seq![m]
    } else if utf16_lt(m.0, sorted[0].0) {
        seq![m] + sorted
    } else {
        seq![sorted[0]] + insert_member(sorted.drop_first(), m)
    }
}

/// The members of an object in the order in which they are encoded.
pub open spec fn sorted_members(members: Seq<(Seq<char>, JsonTree)>) -> Seq<(Seq<char>, JsonTree)>
    decreases members.len(),
{
    if members.len() == 0 {
        seq![]
    } else {
        insert_member(sorted_members(members.drop_last()), members.last())
    }
}

/// The members at the given indices.
pub open spec fn picked(members: Seq<(Seq<char>, JsonTree)>, order: Seq<int>) -> Seq<(Seq<char>, JsonTree)> {
    order.map_values(|j: int| members[j])
}

/// The first `n` members of a list, comma-separated, each as its quoted
/// name, a colon and its value.
pub open spec fn listed_encoding(list: Seq<(Seq<char>, JsonTree)>, n: nat) -> Result<Seq<u8>, CanonicalError>
    decreases n,
{
    if n == 0 || n > list.len() {
        Ok(seq![])
    } else {
        match listed_encoding(list, (n - 1) as nat) {
            Err(e) => Err(e),
            Ok(prefix) => match encoding(list[n - 1].1) {
                Err(e) => Err(e),
                Ok(value) => {
                    let member = json_string(list[n - 1].0) + seq![58u8] + value;
                    Ok(
                        if n == 1 {
                            member
                        } else {
                            prefix + seq![44u8] + member
                        },
                    )
                },
            },
        }
    }
}

/// No member name is ever before an earlier one.
pub open spec fn names_ordered(s: Seq<(Seq<char>, JsonTree)>) -> bool {
    forall|i: int, j: int| 0 <= i < j < s.len() ==> !utf16_lt(#[trigger] s[j].0, #[trigger] s[i].0)
}

/// No two members share a name.
pub open spec fn names_distinct(s: Seq<(Seq<char>, JsonTree)>) -> bool {
    forall|i: int, j: int| 0 <= i < j < s.len() ==> #[trigger] s[i].0 != #[trigger] s[j].0
}

proof fn lemma_insert_ordered_picks(order: Seq<int>, i: int, members: Seq<(Seq<char>, JsonTree)>)
    requires
        0 <= i < members.len(),
        forall|q: int| 0 <= q < order.len() ==> 0 <= #[trigger] order[q] < members.len(),
    ensures
        picked(members, insert_ordered(order, i, member_keys(members))) == insert_member(
            picked(members, order),
            members[i],
        ),
        forall|q: int|
            0 <= q < insert_ordered(order, i, member_keys(members)).len() ==> {
                let r = #[trigger] insert_ordered(order, i, member_keys(members))[q];
                r == i || order.contains(r)
            },
        insert_ordered(order, i, member_keys(members)).len() == order.len() + 1,
    decreases order.len(),
{
    let keys = member_keys(members);
    let result = insert_ordered(order, i, keys);
    if order.len() == 0 {
        assert(picked(members, result) =~= seq![members[i]]);
    } else {
        assert(keys[i] == members[i].0);
        assert(keys[order[0]] == members[order[0]].0);
        assert(picked(members, order)[0] == members[order[0]]);
        if utf16_lt(keys[i], keys[order[0]]) {
            assert(picked(members, result) =~= seq![members[i]] + picked(members, order));
            assert forall|q: int| 0 <= q < result.len() implies {
                let r = #[trigger] result[q];
                r == i || order.contains(r)
            } by {
                if q > 0 {
                    assert(result[q] == order[q - 1]);
                }
            }
        } else {
            let rest = order.drop_first();
            lemma_insert_ordered_picks(rest, i, members);
            assert(picked(members, order).drop_first() =~= picked(members, rest));
            assert(picked(members, result) =~= seq![members[order[0]]] + picked(
                members,
                insert_ordered(rest, i, keys),
            ));
            assert forall|q: int| 0 <= q < result.len() implies {
                let r = #[trigger] result[q];
                r == i || order.contains(r)
            } by {
                if q > 0 {
                    let r = insert_ordered(rest, i, keys)[q - 1];
                    assert(result[q] == r);
                    if r != i {
                        let k = choose|k: int| 0 <= k < rest.len() && rest[k] == r;
                        assert(order[k + 1] == r);
                    }
                } else {
                    assert(order[0] == result[0]);
                }
            }
        }
    }
}

proof fn lemma_key_order_picks(members: Seq<(Seq<char>, JsonTree)>, n: nat)
    requires
        n <= members.len(),
    ensures
        picked(members, key_order(member_keys(members), n)) == sorted_members(members.take(n as int)),
        key_order(member_keys(members), n).len() == n,
        forall|q: int|
            0 <= q < key_order(member_keys(members), n).len() ==> 0 <= #[trigger] key_order(member_keys(members), n)[q]
                < n,
    decreases n,
{
    let keys = member_keys(members);
    if n == 0 {
        assert(picked(members, key_order(keys, 0)) =~= Seq::<(Seq<char>, JsonTree)>::empty());
        assert(members.take(0) =~= Seq::<(Seq<char>, JsonTree)>::empty());
    } else {
        let before = key_order(keys, (n - 1) as nat);
        lemma_key_order_picks(members, (n - 1) as nat);
        lemma_insert_ordered_picks(before, n - 1, members);
        assert(members.take(n as int).drop_last() =~= members.take(n - 1));
        assert(members.take(n as int).last() == members[n - 1]);
        let after = key_order(keys, n);
        assert forall|q: int| 0 <= q < after.len() implies 0 <= #[trigger] after[q] < n by {
            let r = after[q];
            if r != n - 1 {
                let k = choose|k: int| 0 <= k < before.len() && before[k] == r;
                assert(0 <= before[k] < n - 1);
            }
        }
    }
}

proof fn lemma_members_listed(members: Seq<(Seq<char>, JsonTree)>, order: Seq<int>, n: nat)
    requires
        n <= order.len(),
        forall|q: int| 0 <= q < order.len() ==> 0 <= #[trigger] order[q] < members.len(),
    ensures
        members_encoding(members, order, n) == listed_encoding(picked(members, order), n),
    decreases n,
{
    if n > 0 {
        lemma_members_listed(members, order, (n - 1) as nat);
        assert(picked(members, order)[n - 1] == members[order[n - 1]]);
    }
}

proof fn lemma_insert_member_contents(s: Seq<(Seq<char>, JsonTree)>, m: (Seq<char>, JsonTree))
    ensures
        insert_member(s, m).len() == s.len() + 1,
        forall|x: (Seq<char>, JsonTree)| #[trigger] insert_member(s, m).contains(x) <==> (s.contains(x) || x == m),
    decreases s.len(),
{
    let r = insert_member(s, m);
    if s.len() == 0 {
        assert(r[0] == m);
    } else if utf16_lt(m.0, s[0].0) {
        assert forall|x: (Seq<char>, JsonTree)| r.contains(x) <==> (s.contains(x) || x == m) by {
            if r.contains(x) {
                let k = choose|k: int| 0 <= k < r.len() && r[k] == x;
                if k > 0 {
                    assert(s[k - 1] == x);
                }
            }
            if s.contains(x) {
                let k = choose|k: int| 0 <= k < s.len() && s[k] == x;
                assert(r[k + 1] == x);
            }
            if x == m {
                assert(r[0] == x);
            }
        }
    } else {
        let rest = s.drop_first();
        lemma_insert_member_contents(rest, m);
        let tail = insert_member(rest, m);
        assert(r == seq![s[0]] + tail);
        assert forall|x: (Seq<char>, JsonTree)| r.contains(x) <==> (s.contains(x) || x == m) by {
            if r.contains(x) {
                let k = choose|k: int| 0 <= k < r.len() && r[k] == x;
                if k > 0 {
                    assert(tail[k - 1] == x);
                    assert(tail.contains(x));
                    if rest.contains(x) {
                        let j = choose|j: int| 0 <= j < rest.len() && rest[j] == x;
                        assert(s[j + 1] == x);
                    }
                } else {
                    assert(s[0] == x);
                }
            }
            if s.contains(x) {
                let k = choose|k: int| 0 <= k < s.len() && s[k] == x;
                if k == 0 {
                    assert(r[0] == x);
                } else {
                    assert(rest[k - 1] == x);
                    assert(tail.contains(x));
                    let j = choose|j: int| 0 <= j < tail.len() && tail[j] == x;
                    assert(r[j + 1] == x);
                }
            }
            if x == m {
                assert(tail.contains(x));
                let j = choose|j: int| 0 <= j < tail.len() && tail[j] == x;
                assert(r[j + 1] == x);
            }
        }
    }
}

proof fn lemma_insert_member_ordered(s: Seq<(Seq<char>, JsonTree)>, m: (Seq<char>, JsonTree))
    requires
        names_ordered(s),
    ensures
        names_ordered(insert_member(s, m)),
    decreases s.len(),
{
    let r = insert_member(s, m);
    if s.len() == 0 {
    } else if utf16_lt(m.0, s[0].0) {
        assert forall|i: int, j: int| 0 <= i < j < r.len() implies !utf16_lt(#[trigger] r[j].0, #[trigger] r[i].0) by {
            if i == 0 {
                if j > 1 {
                    assert(!utf16_lt(s[j - 1].0, s[0].0));
                }
                if utf16_lt(s[j - 1].0, m.0) {
                    lemma_lex_lt_transitive(utf16(s[j - 1].0), utf16(m.0), utf16(s[0].0));
                    if j == 1 {
                        lemma_lex_lt_irreflexive(utf16(s[0].0));
                    }
                }
            } else {
                assert(r[i] == s[i - 1] && r[j] == s[j - 1]);
            }
        }
    } else {
        let rest = s.drop_first();
        lemma_insert_member_ordered(rest, m);
        lemma_insert_member_contents(rest, m);
        let tail = insert_member(rest, m);
        assert(r == seq![s[0]] + tail);
        assert forall|i: int, j: int| 0 <= i < j < r.len() implies !utf16_lt(#[trigger] r[j].0, #[trigger] r[i].0) by {
            if i == 0 {
                let x = tail[j - 1];
                assert(tail.contains(x));
                if x != m {
                    let k = choose|k: int| 0 <= k < rest.len() && rest[k] == x;
                    assert(s[k + 1] == x);
                }
            } else {
                assert(r[i] == tail[i - 1] && r[j] == tail[j - 1]);
            }
        }
    }
}

proof fn lemma_insert_member_distinct(s: Seq<(Seq<char>, JsonTree)>, m: (Seq<char>, JsonTree))
    requires
        names_distinct(s),
        forall|k: int| 0 <= k < s.len() ==> (#[trigger] s[k]).0 != m.0,
    ensures
        names_distinct(insert_member(s, m)),
    decreases s.len(),
{
    let r = insert_member(s, m);
    if s.len() == 0 {
    } else if utf16_lt(m.0, s[0].0) {
        assert forall|i: int, j: int| 0 <= i < j < r.len() implies #[trigger] r[i].0 != #[trigger] r[j].0 by {
            assert(r[j] == s[j - 1]);
            if i > 0 {
                assert(r[i] == s[i - 1]);
            }
        }
    } else {
        let rest = s.drop_first();
        lemma_insert_member_distinct(rest, m);
        lemma_insert_member_contents(rest, m);
        let tail = insert_member(rest, m);
        assert(r == seq![s[0]] + tail);
        assert forall|i: int, j: int| 0 <= i < j < r.len() implies #[trigger] r[i].0 != #[trigger] r[j].0 by {
            if i == 0 {
                let x = tail[j - 1];
                assert(tail.contains(x));
                if x != m {
                    let k = choose|k: int| 0 <= k < rest.len() && rest[k] == x;
                    assert(s[k + 1] == x);
                }
            } else {
                assert(r[i] == tail[i - 1] && r[j] == tail[j - 1]);
            }
        }
    }
}

proof fn lemma_sorted_members(members: Seq<(Seq<char>, JsonTree)>)
    ensures
        sorted_members(members).len() == members.len(),
        forall|x: (Seq<char>, JsonTree)| #[trigger] sorted_members(members).contains(x) <==> members.contains(x),
        names_ordered(sorted_members(members)),
        member_keys(members).no_duplicates() ==> names_distinct(sorted_members(members)),
    decreases members.len(),
{
    if members.len() > 0 {
        let init = members.drop_last();
        let m = members.last();
        let before = sorted_members(init);
        lemma_sorted_members(init);
        lemma_insert_member_contents(before, m);
        lemma_insert_member_ordered(before, m);
        assert(members =~= init.push(m));
        assert forall|x: (Seq<char>, JsonTree)| #[trigger] sorted_members(members).contains(x) <==> members.contains(x) by {
            if members.contains(x) && x != m {
                let k = choose|k: int| 0 <= k < members.len() && members[k] == x;
                assert(init[k] == x);
            }
            if init.contains(x) {
                let k = choose|k: int| 0 <= k < init.len() && init[k] == x;
                assert(members[k] == x);
            }
            if x == m {
                assert(members[members.len() - 1] == x);
            }
        }
        if member_keys(members).no_duplicates() {
            let keys = member_keys(members);
            assert(member_keys(init) =~= keys.drop_last());
            assert forall|k: int| 0 <= k < before.len() implies (#[trigger] before[k]).0 != m.0 by {
                assert(before.contains(before[k]));
                let j = choose|j: int| 0 <= j < init.len() && init[j] == before[k];
                assert(keys[j] == before[k].0);
                assert(keys[members.len() - 1] == m.0);
            }
            lemma_insert_member_distinct(before, m);
        }
    }
}

proof fn lemma_ordered_members_unique(x: Seq<(Seq<char>, JsonTree)>, y: Seq<(Seq<char>, JsonTree)>)
    requires
        names_ordered(x),
        names_distinct(x),
        names_ordered(y),
        names_distinct(y),
        forall|e: (Seq<char>, JsonTree)| x.contains(e) <==> y.contains(e),
    ensures
        x == y,
    decreases x.len(),
{
    if x.len() == 0 {
        if y.len() > 0 {
            assert(y.contains(y[0]));
        }
        assert(x =~= y);
    } else {
        assert(x.contains(x[0]));
        let k = choose|k: int| 0 <= k < y.len() && y[k] == x[0];
        assert(y.contains(y[0]));
        let m = choose|m: int| 0 <= m < x.len() && x[m] == y[0];
        if k > 0 {
            assert(!utf16_lt(y[k].0, y[0].0));
            lemma_utf16_lt_total(y[0].0, y[k].0);
            assert(utf16_lt(x[m].0, x[0].0));
            if m == 0 {
                lemma_lex_lt_irreflexive(utf16(x[0].0));
            } else {
                assert(!utf16_lt(x[m].0, x[0].0));
            }
        }
        assert(y[0] == x[0]);
        let (xs, ys) = (x.drop_first(), y.drop_first());
        assert forall|e: (Seq<char>, JsonTree)| xs.contains(e) <==> ys.contains(e) by {
            if xs.contains(e) {
                let i = choose|i: int| 0 <= i < xs.len() && xs[i] == e;
                assert(x[i + 1] == e);
                assert(x[0].0 != x[i + 1].0);
                assert(y.contains(e));
                let j = choose|j: int| 0 <= j < y.len() && y[j] == e;
                assert(j != 0);
                assert(ys[j - 1] == e);
            }
            if ys.contains(e) {
                let i = choose|i: int| 0 <= i < ys.len() && ys[i] == e;
                assert(y[i + 1] == e);
                assert(y[0].0 != y[i + 1].0);
                assert(x.contains(e));
                let j = choose|j: int| 0 <= j < x.len() && x[j] == e;
                assert(j != 0);
                assert(xs[j - 1] == e);
            }
        }
        assert forall|i: int, j: int| 0 <= i < j < xs.len() implies !utf16_lt(#[trigger] xs[j].0, #[trigger] xs[i].0)
            && xs[i].0 != xs[j].0 by {
            assert(xs[i] == x[i + 1] && xs[j] == x[j + 1]);
        }
        assert forall|i: int, j: int| 0 <= i < j < ys.len() implies !utf16_lt(#[trigger] ys[j].0, #[trigger] ys[i].0)
            && ys[i].0 != ys[j].0 by {
            assert(ys[i] == y[i + 1] && ys[j] == y[j + 1]);
        }
        lemma_ordered_members_unique(xs, ys);
        assert(x =~= seq![x[0]] + xs);
        assert(y =~= seq![y[0]] + ys);
    }
}

/// The canonical bytes of an object depend on its members and not on the
/// order in which they are given: two objects whose members are the same,
/// each name occurring once (as in any JSON object), are encoded alike, or
/// refused with the same error.
pub proof fn law_member_order_does_not_change_encoding(
    a: Seq<(Seq<char>, JsonTree)>,
    b: Seq<(Seq<char>, JsonTree)>,
)
    requires
        member_keys(a).no_duplicates(),
        member_keys(b).no_duplicates(),
        a.to_multiset() == b.to_multiset(),
    ensures
        encoding(JsonTree::Object(a)) == encoding(JsonTree::Object(b)),
{
    broadcast use vstd::seq_lib::group_to_multiset_ensures;

    assert forall|e: (Seq<char>, JsonTree)| a.contains(e) <==> b.contains(e) by {
        assert(a.contains(e) <==> a.to_multiset().count(e) > 0);
        assert(b.contains(e) <==> b.to_multiset().count(e) > 0);
    }
    lemma_sorted_members(a);
    lemma_sorted_members(b);
    lemma_ordered_members_unique(sorted_members(a), sorted_members(b));
    lemma_key_order_picks(a, a.len());
    lemma_key_order_picks(b, b.len());
    assert(a.take(a.len() as int) =~= a);
    assert(b.take(b.len() as int) =~= b);
    lemma_members_listed(a, member_order(a), a.len());
    lemma_members_listed(b, member_order(b), b.len());
}

/// Domain separation is unambiguous: two usable schema identifiers and
/// bodies give the same signature input only when they are the same schema
/// and the same body.
pub proof fn law_signature_input_is_unambiguous(
    schema1: Seq<char>,
    body1: Seq<u8>,
    schema2: Seq<char>,
    body2: Seq<u8>,
)
    requires
        valid_schema(schema1),
        valid_schema(schema2),
        signature_bytes(schema1, body1) == signature_bytes(schema2, body2),
    ensures
        schema1 == schema2,
        body1 == body2,
{
    let prefix = vstd::utf8::encode_utf8(SIGNATURE_DOMAIN_TAG@) + seq![0u8];
    let (e1, e2) = (vstd::utf8::encode_utf8(schema1), vstd::utf8::encode_utf8(schema2));
    let rest1 = e1 + seq![0u8] + body1;
    let rest2 = e2 + seq![0u8] + body2;
    assert(signature_bytes(schema1, body1) =~= prefix + rest1);
    assert(signature_bytes(schema2, body2) =~= prefix + rest2);
    assert(rest1 =~= (prefix + rest1).skip(prefix.len() as int));
    assert(rest2 =~= (prefix + rest2).skip(prefix.len() as int));
    assert(rest1 == rest2);
    if e1.len() < e2.len() {
        assert(rest1[e1.len() as int] == 0u8);
        assert(rest2[e1.len() as int] == e2[e1.len() as int]);
        assert(e2.contains(0u8));
    } else if e2.len() < e1.len() {
        assert(rest2[e2.len() as int] == 0u8);
        assert(rest1[e2.len() as int] == e1[e2.len() as int]);
        assert(e1.contains(0u8));
    }
    assert(e1 =~= rest1.take(e1.len() as int));
    assert(e2 =~= rest2.take(e2.len() as int));
    assert(body1 =~= rest1.skip(e1.len() as int + 1));
    assert(body2 =~= rest2.skip(e2.len() as int + 1));
    vstd::utf8::encode_utf8_decode_utf8(schema1);
    vstd::utf8::encode_utf8_decode_utf8(schema2);
}

} // verus!

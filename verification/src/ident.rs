//! Identifiers for catalog entries. A name without a natural key is
//! identified by the MD5 digest of its UTF-8 bytes, written as 32 lower-case
//! hexadecimal digits; a numeric key is identified by its decimal rendering.
//! Both depend on nothing but the name or the key.

use crate::order::names;
use crate::text::{
    decimal, decimal_chars, lemma_decimal_digits, lemma_decimal_injective, str_eq, string_of,
};
use vstd::prelude::*;
use vstd::string::StringSliceAdditionalSpecFns;
use vstd::utf8::encode_utf8;

verus! {

/// The MD5 digest of a byte sequence, as the `md5` crate computes it.
pub uninterp spec fn md5_digest(data: Seq<u8>) -> Seq<u8>;

/// `md5::compute` on a byte slice. The digest is trusted to depend on the
/// bytes alone; its length of 16 is the type's.
#[verifier::external_body]
fn md5_of(data: &[u8]) -> (d: [u8; 16])
    ensures
        d@ == md5_digest(data@),
{
    md5::compute(data).0
}

/// The lower-case hexadecimal digit for `n`.
pub open spec fn hex_digit(n: int) -> char
    recommends
        0 <= n < 16,
{
    if n < 10 {
        ((48 + n) as u8) as char
    } else {
        ((87 + n) as u8) as char
    }
}

/// Whether `c` is a lower-case hexadecimal digit.
pub open spec fn is_hex_digit(c: char) -> bool {
    48 <= c as int <= 57 || 97 <= c as int <= 102
}

/// `bytes` in hexadecimal: two lower-case digits for each byte, the high
/// half first.
pub open spec fn hex(bytes: Seq<u8>) -> Seq<char> {
    Seq::new(
        2 * bytes.len(),
        |i: int|
            hex_digit(
                if i % 2 == 0 {
                    bytes[i / 2] as int / 16
                } else {
                    bytes[i / 2] as int % 16
                },
            ),
    )
}

/// The identifier of the name `name`.
pub open spec fn name_key(name: Seq<char>) -> Seq<char> {
    hex(md5_digest(encode_utf8(name)))
}

/// The identifier of the numeric key `n`.
pub open spec fn number_key(n: usize) -> Seq<char> {
    decimal(n as nat)
}

/// A hexadecimal rendering holds hexadecimal digits only.
pub proof fn lemma_hex_digits(bytes: Seq<u8>)
    ensures
        hex(bytes).len() == 2 * bytes.len(),
        forall|i: int| 0 <= i < hex(bytes).len() ==> is_hex_digit(#[trigger] hex(bytes)[i]),
{
}

fn hex_char(n: u8) -> (c: char)
    requires
        n < 16,
    ensures
        c == hex_digit(n as int),
{
    if n < 10 {
        (48 + n) as char
    } else {
        (87 + n) as char
    }
}

/// Writes `bytes` in lower-case hexadecimal.
pub fn hex_string(bytes: &[u8]) -> (s: String)
    ensures
        s@ == hex(bytes@),
{
    let mut s = String::new();
    let mut i: usize = 0;
    while i < bytes.len()
        invariant
            i <= bytes.len(),
            s@ == hex(bytes@).take(2 * i),
        decreases bytes.len() - i,
    {
        let b = bytes[i];
        s.push(hex_char(b / 16));
        s.push(hex_char(b % 16));
        i += 1;
    }
    s
}

/// Derives the identifier of a name.
pub fn name_id(name: &str) -> (id: String)
    ensures
        id@ == name_key(name@),
        id@.len() == 32,
{
    let digest = md5_of(name.as_bytes());
    hex_string(digest.as_slice())
}

/// Derives the identifier of a numeric key.
pub fn number_id(n: usize) -> (id: String)
    ensures
        id@ == number_key(n),
{
    let digits = decimal_chars(n);
    string_of(&digits)
}

/// No two of the names `s` have the same identifier.
pub open spec fn told_apart(s: Seq<Seq<char>>) -> bool {
    forall|a: int, b: int|
        0 <= a < b < s.len() ==> name_key(#[trigger] s[a]) != name_key(#[trigger] s[b])
}

/// Tests whether no two of the names `v` have the same identifier.
pub fn names_told_apart(v: &Vec<String>) -> (r: bool)
    ensures
        r == told_apart(names(v@)),
{
    let ghost given = names(v@);
    let mut ids: Vec<String> = Vec::new();
    let mut i: usize = 0;
    while i < v.len()
        invariant
            i <= v.len(),
            given == names(v@),
            ids.len() == i,
            forall|k: int| 0 <= k < i ==> (#[trigger] ids[k])@ == name_key(given[k]),
        decreases v.len() - i,
    {
        let id = name_id(v[i].as_str());
        ids.push(id);
        i += 1;
    }
    let mut a: usize = 0;
    while a < ids.len()
        invariant
            a <= ids.len(),
            given == names(v@),
            ids.len() == given.len(),
            forall|k: int| 0 <= k < ids.len() ==> (#[trigger] ids[k])@ == name_key(given[k]),
            forall|x: int, y: int|
                0 <= x < a && x < y < given.len() ==> name_key(#[trigger] given[x]) != name_key(
                    #[trigger] given[y],
                ),
        decreases ids.len() - a,
    {
        let mut b: usize = a + 1;
        while b < ids.len()
            invariant
                a < b <= ids.len(),
                given == names(v@),
                ids.len() == given.len(),
                forall|k: int| 0 <= k < ids.len() ==> (#[trigger] ids[k])@ == name_key(given[k]),
                forall|y: int|
                    a < y < b ==> name_key(given[a as int]) != name_key(#[trigger] given[y]),
            decreases ids.len() - b,
        {
            if str_eq(ids[a].as_str(), ids[b].as_str()) {
                return false;
            }
            b += 1;
        }
        a += 1;
    }
    true
}

/// The identifier of a name holds 32 characters and no slash.
pub proof fn lemma_name_key_plain(name: Seq<char>)
    requires
        md5_digest(encode_utf8(name)).len() == 16,
    ensures
        name_key(name).len() == 32,
        !name_key(name).contains('/'),
{
    lemma_hex_digits(md5_digest(encode_utf8(name)));
    let key = name_key(name);
    assert forall|w: int| 0 <= w < key.len() implies key[w] != '/' by {
        assert(is_hex_digit(key[w]));
    }
}

/// The identifier of a numeric key holds no slash, and numbers that
/// differ have identifiers that differ.
pub proof fn lemma_number_key_plain(n: usize)
    ensures
        !number_key(n).contains('/'),
        forall|m: usize| number_key(m) == number_key(n) ==> m == n,
{
    lemma_decimal_digits(n as nat);
    assert forall|m: usize| number_key(m) == number_key(n) implies m == n by {
        lemma_decimal_injective(m as nat, n as nat);
    }
}

} // verus!

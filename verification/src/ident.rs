//! Random identifiers: paint tokens and admin session ids.

use vstd::prelude::*;
use crate::events::hex_lower;

verus! {

/// `Uuid::new_v4`, as its 16 bytes (`into_bytes`): random, except that the
/// high nibble of byte 6 is the version, 4, and the top two bits of byte 8
/// are the variant, `10`.
#[verifier::external_body]
fn new_v4_bytes() -> (b: [u8; 16])
    ensures
        b[6] / 16 == 4,
        b[8] / 64 == 2,
{
    uuid::Uuid::new_v4().into_bytes()
}

pub open spec fn is_lower_hex(c: char) -> bool {
    '0' <= c <= '9' || 'a' <= c <= 'f'
}

/// Character `i` of the hyphenated lower-case form of the UUID with bytes
/// `b`: 32 hex digits, two per byte (high nibble first), with hyphens at
/// positions 8, 13, 18 and 23.
pub open spec fn uuid_char(b: [u8; 16], i: int) -> char {
    if i == 8 || i == 13 || i == 18 || i == 23 {
        '-'
    } else {
        let j = if i < 8 {
            i
        } else if i < 13 {
            i - 1
        } else if i < 18 {
            i - 2
        } else if i < 23 {
            i - 3
        } else {
            i - 4
        };
        let byte = b[j / 2];
        if j % 2 == 0 {
            hex_lower((byte / 16) as int)
        } else {
            hex_lower((byte % 16) as int)
        }
    }
}

/// The hyphenated lower-case form of the UUID with bytes `b`.
pub open spec fn hyphenated(b: [u8; 16]) -> Seq<char> {
    Seq::new(36, |i: int| uuid_char(b, i))
}

/// The hyphenated lower-case form of a UUID:
/// `xxxxxxxx-xxxx-xxxx-xxxx-xxxxxxxxxxxx`.
pub open spec fn is_uuid_text(s: Seq<char>) -> bool {
    &&& s.len() == 36
    &&& forall|i: int|
        0 <= i < 36 ==> if i == 8 || i == 13 || i == 18 || i == 23 {
            #[trigger] s[i] == '-'
        } else {
            is_lower_hex(s[i])
        }
}

/// The text of a random (version 4, RFC 4122 variant) UUID: the version
/// digit `4` at position 14 and a variant digit `8`, `9`, `a` or `b` at 19.
pub open spec fn is_uuid_v4_text(s: Seq<char>) -> bool {
    &&& is_uuid_text(s)
    &&& s[14] == '4'
    &&& (s[19] == '8' || s[19] == '9' || s[19] == 'a' || s[19] == 'b')
}

/// `Uuid::from_bytes` then `Display` (via `to_string`): the hyphenated
/// lower-case form of the UUID with these bytes.
#[verifier::external_body]
fn uuid_text(b: [u8; 16]) -> (s: String)
    ensures
        s@ == hyphenated(b),
{
    uuid::Uuid::from_bytes(b).to_string()
}

proof fn lemma_hex_lower_digit(d: int)
    requires
        0 <= d < 16,
    ensures
        is_lower_hex(hex_lower(d)),
        hex_lower(d) != '-',
{
}

/// The text of a version 4 UUID's bytes has the version and variant digits.
proof fn lemma_v4_text(b: [u8; 16])
    requires
        b[6] / 16 == 4,
        b[8] / 64 == 2,
    ensures
        is_uuid_v4_text(hyphenated(b)),
{
    let s = hyphenated(b);
    assert forall|i: int| 0 <= i < 36 implies if i == 8 || i == 13 || i == 18 || i == 23 {
        #[trigger] s[i] == '-'
    } else {
        is_lower_hex(s[i])
    } by {
        assert(s[i] == uuid_char(b, i));
        if !(i == 8 || i == 13 || i == 18 || i == 23) {
            let j = if i < 8 {
                i
            } else if i < 13 {
                i - 1
            } else if i < 18 {
                i - 2
            } else if i < 23 {
                i - 3
            } else {
                i - 4
            };
            assert(0 <= j < 32);
            let byte = b[j / 2];
            lemma_hex_lower_digit((byte / 16) as int);
            lemma_hex_lower_digit((byte % 16) as int);
        }
    }
    assert(s[14] == hex_lower((b[6] / 16) as int));
    assert(s[19] == hex_lower((b[8] / 16) as int));
    assert(8 <= b[8] / 16 < 12);
}

/// A fresh random paint token: the text of a version 4 UUID.
pub fn new_token() -> (t: String)
    ensures
        is_uuid_v4_text(t@),
{
    let b = new_v4_bytes();
    proof {
        lemma_v4_text(b);
    }
    uuid_text(b)
}

/// A fresh opaque admin session id: two random UUIDs back to back.
pub fn new_session_id() -> (s: String)
    ensures
        s@.len() == 72,
        is_uuid_v4_text(s@.subrange(0, 36)),
        is_uuid_v4_text(s@.subrange(36, 72)),
{
    let mut s = new_token();
    let second = new_token();
    let ghost a = s@;
    s.append(second.as_str());
    assert(s@.subrange(0, 36) =~= a);
    assert(s@.subrange(36, 72) =~= second@);
    s
}

} // verus!

//! The short names by which log messages tell plugin instances apart.

use uuid::Uuid;
use vstd::prelude::*;
use vstd::string::StrSliceExecFns;
use vstd::string::StringExecFns;

verus! {

/// A hexadecimal digit in lower case.
pub open spec fn hex_digit(n: int) -> char {
    if n < 10 {
        (48 + n) as char
    } else {
        (87 + n) as char
    }
}

/// Bytes as hexadecimal digits, two for each, the higher one first.
pub open spec fn hex_text(bytes: Seq<u8>) -> Seq<char> {
    Seq::new(
        2 * bytes.len(),
        |i: int|
            hex_digit(
                if i % 2 == 0 {
                    bytes[i / 2] as int / 16
                } else {
                    bytes[i / 2] as int % 16
                },
            ),
    )
}

/// The text of a UUID as a URN: hexadecimal digits in groups of eight, three times four, and
/// twelve, behind a prefix.
pub open spec fn urn_text(bytes: Seq<u8>) -> Seq<char> {
    "urn:uuid:"@ + hex_text(bytes.subrange(0, 4)) + "-"@ + hex_text(bytes.subrange(4, 6)) + "-"@
        + hex_text(bytes.subrange(6, 8)) + "-"@ + hex_text(bytes.subrange(8, 10)) + "-"@ + hex_text(
        bytes.subrange(10, 16),
    )
}

/// Calls [`Uuid::new_v4`] and hands out its bytes. They are random but for the version, four, and
/// the variant, whose two bits are one and zero.
#[verifier::external_body]
fn random_uuid() -> (bytes: [u8; 16])
    ensures
        bytes@[6] / 16 == 4,
        bytes@[8] / 64 == 2,
{
    Uuid::new_v4().into_bytes()
}

/// Formats a UUID, given by its bytes, through [`Uuid::as_urn`].
#[verifier::external_body]
fn urn(bytes: [u8; 16]) -> (text: String)
    ensures
        text@ == urn_text(bytes@),
{
    Uuid::from_bytes(bytes).as_urn().to_string()
}

/// The short name that goes with a UUID: its last twelve digits.
pub fn id_of(bytes: [u8; 16]) -> (id: String)
    ensures
        id@ == hex_text(bytes@.subrange(10, 16)),
        id@.len() == 12,
{
    let text: String = urn(bytes);
    proof {
        reveal_strlit("urn:uuid:");
        reveal_strlit("-");
    }
    assert(text@.len() == 45);
    let tail: &str = text.as_str().substring_char(33, 45);
    assert(tail@ =~= hex_text(bytes@.subrange(10, 16)));
    String::from_str(tail)
}

/// A short name for a new instance: the last twelve digits of a random UUID.
pub fn new_id() -> (id: String)
    ensures
        exists|bytes: Seq<u8>|
            bytes.len() == 16 && bytes[6] / 16 == 4 && bytes[8] / 64 == 2 && id@ == #[trigger] hex_text(
                bytes.subrange(10, 16),
            ),
{
    let bytes: [u8; 16] = random_uuid();
    id_of(bytes)
}

/// Names of different tails differ.
pub proof fn law_ids_tell_tails_apart(a: Seq<u8>, b: Seq<u8>)
    requires
        a.len() == b.len(),
        hex_text(a) == hex_text(b),
    ensures
        a == b,
{
    assert forall|i: int| 0 <= i < a.len() implies a[i] == b[i] by {
        let x = hex_text(a);
        let y = hex_text(b);
        assert(x[2 * i] == y[2 * i]);
        assert(x[2 * i + 1] == y[2 * i + 1]);
        assert((2 * i) / 2 == i);
        assert((2 * i + 1) / 2 == i);
        lemma_digits_differ(a[i] as int / 16, b[i] as int / 16);
        lemma_digits_differ(a[i] as int % 16, b[i] as int % 16);
    }
    assert(a =~= b);
}

proof fn lemma_digits_differ(m: int, n: int)
    requires
        0 <= m < 16,
        0 <= n < 16,
        hex_digit(m) == hex_digit(n),
    ensures
        m == n,
{
    assert(hex_digit(m) as int == if m < 10 {
        48 + m
    } else {
        87 + m
    });
    assert(hex_digit(n) as int == if n < 10 {
        48 + n
    } else {
        87 + n
    });
}

/// The digits of a byte, the higher one first: `0` to `9` for the numbers up to nine, and `a` to `f`
/// for those from ten on.
pub proof fn law_hex_digits(bytes: Seq<u8>, i: int)
    requires
        0 <= i < bytes.len(),
    ensures
        hex_text(bytes).len() == 2 * bytes.len(),
        ({
            let high = hex_text(bytes)[2 * i] as int;
            let low = hex_text(bytes)[2 * i + 1] as int;
            let h = if high < 'a' as int {
                high - '0' as int
            } else {
                high - 'a' as int + 10
            };
            let l = if low < 'a' as int {
                low - '0' as int
            } else {
                low - 'a' as int + 10
            };
            &&& 0 <= h < 16
            &&& 0 <= l < 16
            &&& bytes[i] == 16 * h + l
        }),
{
    assert((2 * i) / 2 == i && (2 * i) % 2 == 0);
    assert((2 * i + 1) / 2 == i && (2 * i + 1) % 2 == 1);
    let b = bytes[i] as int;
    assert(hex_digit(b / 16) as int == if b / 16 < 10 {
        48 + b / 16
    } else {
        87 + b / 16
    });
    assert(hex_digit(b % 16) as int == if b % 16 < 10 {
        48 + b % 16
    } else {
        87 + b % 16
    });
}

} // verus!

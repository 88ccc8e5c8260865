//! Identifiers: short base-62 ids and UUIDs.

use vstd::prelude::*;

use super::clock::now_millis;
use super::text::{ascii_alnum, chars_of, is_ascii_alnum, string_of_chars};

verus! {

/// Length of an identifier in base 62.
pub const ID_LENGTH: usize = 10;

/// The base-62 digits: `0-9`, then `a-z`, then `A-Z`.
pub open spec fn base62_char(d: nat) -> char {
    if d < 10 {
        ((d + 48) as u8) as char
    } else if d < 36 {
        ((d - 10 + 97) as u8) as char
    } else {
        ((d - 36 + 65) as u8) as char
    }
}

/// The last `n` base-62 digits of `v`, most significant first.
pub open spec fn base62_digits(v: nat, n: nat) -> Seq<char>
    decreases n,
{
    if n == 0 {
        Seq::empty()
    } else {
        base62_digits(v / 62, (n - 1) as nat).push(base62_char(v % 62))
    }
}

/// A valid identifier: `ID_LENGTH` ASCII letters and digits.
pub open spec fn is_id(s: Seq<char>) -> bool {
    &&& s.len() == ID_LENGTH
    &&& forall|i: int| 0 <= i < s.len() ==> #[trigger] is_ascii_alnum(s[i])
}

/// A UUID in its hyphenated lower-case form: 36 characters, hyphens at
/// positions 8, 13, 18 and 23, lower-case hexadecimal digits elsewhere.
pub open spec fn is_hyphenated_uuid(s: Seq<char>) -> bool {
    &&& s.len() == 36
    &&& forall|i: int|
        0 <= i < 36 ==> if i == 8 || i == 13 || i == 18 || i == 23 {
            #[trigger] s[i] == '-'
        } else {
            ('0' <= s[i] && s[i] <= '9') || ('a' <= s[i] && s[i] <= 'f')
        }
}

fn base62_digit(d: u64) -> (c: char)
    requires
        d < 62,
    ensures
        c == base62_char(d as nat),
        is_ascii_alnum(c),
{
    if d < 10 {
        ((d + 48) as u8) as char
    } else if d < 36 {
        ((d - 10 + 97) as u8) as char
    } else {
        ((d - 36 + 65) as u8) as char
    }
}

/// The last `ID_LENGTH` base-62 digits of `value`, most significant first.
pub fn encode_base62(value: u64) -> (r: String)
    ensures
        r@ == base62_digits(value as nat, ID_LENGTH as nat),
        is_id(r@),
{
    let mut digits: Vec<char> = Vec::new();
    let mut v: u64 = value;
    let mut n: usize = 0;
    while n < ID_LENGTH
        invariant
            n <= ID_LENGTH,
            digits.len() == n,
            base62_digits(value as nat, ID_LENGTH as nat) == base62_digits(v as nat, (ID_LENGTH - n) as nat)
                + digits@.reverse(),
            forall|i: int| 0 <= i < digits.len() ==> #[trigger] is_ascii_alnum(digits@[i]),
        decreases ID_LENGTH - n,
    {
        let ghost prev = digits@;
        let c = base62_digit(v % 62);
        digits.push(c);
        proof {
            assert(base62_digits(v as nat, (ID_LENGTH - n) as nat) == base62_digits(
                (v / 62) as nat,
                (ID_LENGTH - n - 1) as nat,
            ).push(base62_char((v % 62) as nat)));
            assert(digits@.reverse() =~= seq![c] + prev.reverse());
            assert(base62_digits(v as nat, (ID_LENGTH - n) as nat) + prev.reverse() =~= base62_digits(
                (v / 62) as nat,
                (ID_LENGTH - n - 1) as nat,
            ) + digits@.reverse());
        }
        v = v / 62;
        n = n + 1;
    }
    let mut out: Vec<char> = Vec::new();
    let mut i: usize = digits.len();
    while i > 0
        invariant
            i <= digits.len(),
            out@ =~= digits@.subrange(i as int, digits.len() as int).reverse(),
        decreases i,
    {
        i = i - 1;
        let ghost prev = out@;
        out.push(digits[i]);
        proof {
            assert(digits@.subrange(i as int, digits.len() as int).reverse() =~= prev.push(digits@[i as int]));
        }
    }
    proof {
        assert(digits@.subrange(0, digits.len() as int) =~= digits@);
        assert(base62_digits(v as nat, 0) =~= Seq::<char>::empty());
        assert(out@ =~= base62_digits(value as nat, ID_LENGTH as nat));
        assert forall|k: int| 0 <= k < out@.len() implies #[trigger] is_ascii_alnum(out@[k]) by {
            assert(out@[k] == digits@[digits.len() - 1 - k]);
        }
    }
    string_of_chars(&out)
}

/// A random number from `rand::thread_rng`.
///
/// Trusted, and nothing is promised of the value.
#[verifier::external_body]
fn random_u64() -> (r: u64) {
    rand::Rng::gen::<u64>(&mut rand::thread_rng())
}

/// A new identifier: the current time in milliseconds since the epoch
/// mixed with a random number, written with `ID_LENGTH` base-62 digits.
pub fn generate_id() -> (r: String)
    ensures
        is_id(r@),
{
    let now = now_millis();
    let t: u64 = if now < 0 {
        0
    } else {
        now as u64
    };
    let x = random_u64();
    encode_base62(t ^ x)
}

/// Whether `id` is a valid identifier: `ID_LENGTH` ASCII letters and digits.
pub fn is_valid_id(id: &str) -> (r: bool)
    ensures
        r == is_id(id@),
{
    let cs = chars_of(id);
    if cs.len() != ID_LENGTH {
        return false;
    }
    let mut i: usize = 0;
    while i < cs.len()
        invariant
            cs@ == id@,
            i <= cs.len(),
            forall|j: int| 0 <= j < i ==> #[trigger] is_ascii_alnum(cs@[j]),
        decreases cs.len() - i,
    {
        if !ascii_alnum(cs[i]) {
            return false;
        }
        i = i + 1;
    }
    true
}

/// `id` as an owned identifier if it is valid.
pub fn parse_id(id: &str) -> (r: Option<String>)
    ensures
        match r {
            Some(s) => is_id(id@) && s@ == id@,
            None => !is_id(id@),
        },
{
    if is_valid_id(id) {
        Some(id.to_owned())
    } else {
        None
    }
}

/// A new random UUID (version 4) in its hyphenated lower-case form, from
/// `uuid::Uuid::new_v4`.
///
/// Trusted: the crate writes a UUID as 36 characters, lower-case
/// hexadecimal digits with hyphens at positions 8, 13, 18 and 23. Which
/// UUID comes out is left open: it is random.
#[verifier::external_body]
pub fn generate_uuid() -> (r: String)
    ensures
        is_hyphenated_uuid(r@),
{
    uuid::Uuid::new_v4().to_string()
}

} // verus!

//! Target ids.
//!
//! A target id is a UUID, held as the 128-bit number whose big-endian bytes it
//! is. Ids of targets are derived from a namespace and a designation, so that
//! the same designation has the same id in every run; ids of aliases are drawn
//! at random. In stored rows an id is its hyphenated text.

use vstd::prelude::*;
use vstd::utf8::encode_utf8;

use crate::text::texts;

verus! {

/// An error of `uuid::Uuid::parse_str`.
#[verifier::external_type_specification]
#[verifier::external_body]
pub struct ExUuidError(uuid::Error);

// ── Text form ────────────────────────────────────────────────────────────────

/// The lower-case hexadecimal digit of `d`.
pub open spec fn hex_char(d: nat) -> char {
    if d < 10 {
        (0x30 + d) as char
    } else {
        (0x57 + d) as char
    }
}

/// The last `k` hexadecimal digits of `n`, most significant first.
pub open spec fn hex_text(n: nat, k: nat) -> Seq<char>
    decreases k,
{
    if k == 0 {
        Seq::empty()
    } else {
        hex_text(n / 16, (k - 1) as nat).push(hex_char(n % 16))
    }
}

/// The hyphenated form of an id: its 32 lower-case hexadecimal digits in groups
/// of 8, 4, 4, 4 and 12.
pub open spec fn hyphenated(id: u128) -> Seq<char> {
    let h = hex_text(id as nat, 32);
    h.subrange(0, 8).push('-') + h.subrange(8, 12).push('-') + h.subrange(12, 16).push('-')
        + h.subrange(16, 20).push('-') + h.subrange(20, 32)
}

/// The value of a hexadecimal digit of either case.
pub open spec fn hex_digit(c: char) -> Option<nat> {
    let u = c as u32;
    if 0x30 <= u <= 0x39 {
        Some((u - 0x30) as nat)
    } else if 0x61 <= u <= 0x66 {
        Some((u - 0x57) as nat)
    } else if 0x41 <= u <= 0x46 {
        Some((u - 0x37) as nat)
    } else {
        None
    }
}

/// The number that hexadecimal digits denote; `None` where any character is no
/// such digit.
pub open spec fn hex_value(s: Seq<char>) -> Option<nat>
    decreases s.len(),
{
    if s.len() == 0 {
        Some(0)
    } else {
        match (hex_value(s.drop_last()), hex_digit(s.last())) {
            (Some(v), Some(d)) => Some(v * 16 + d),
            _ => None,
        }
    }
}

/// The id that a hyphenated text of 36 characters denotes.
pub open spec fn id_of_hyphenated(s: Seq<char>) -> Option<nat> {
    if s.len() == 36 && s[8] == '-' && s[13] == '-' && s[18] == '-' && s[23] == '-' {
        hex_value(
            s.subrange(0, 8) + s.subrange(9, 13) + s.subrange(14, 18) + s.subrange(19, 23)
                + s.subrange(24, 36),
        )
    } else {
        None
    }
}

/// Whether `s` is `urn:uuid:`, in any case.
pub open spec fn is_urn_prefix(s: Seq<char>) -> bool {
    &&& s.len() == 9
    &&& s[0] == 'u' || s[0] == 'U'
    &&& s[1] == 'r' || s[1] == 'R'
    &&& s[2] == 'n' || s[2] == 'N'
    &&& s[3] == ':'
    &&& s[4] == 'u' || s[4] == 'U'
    &&& s[5] == 'u' || s[5] == 'U'
    &&& s[6] == 'i' || s[6] == 'I'
    &&& s[7] == 'd' || s[7] == 'D'
    &&& s[8] == ':'
}

/// The id that a text denotes: 32 hexadecimal digits, or the hyphenated form,
/// alone, in braces or behind `urn:uuid:`.
pub open spec fn id_of_text(s: Seq<char>) -> Option<u128> {
    let value = if s.len() == 32 {
        hex_value(s)
    } else if s.len() == 38 && s[0] == '{' && s[37] == '}' {
        id_of_hyphenated(s.subrange(1, 37))
    } else if s.len() == 45 && is_urn_prefix(s.subrange(0, 9)) {
        id_of_hyphenated(s.subrange(9, 45))
    } else {
        id_of_hyphenated(s)
    };
    match value {
        Some(v) => Some(v as u128),
        None => None,
    }
}

/// `uuid::Uuid::parse_str` reads the simple, hyphenated, braced and URN forms of
/// a UUID, with digits of either case, and nothing else; the number is that of
/// its big-endian bytes. Which error it gives is left open.
#[verifier::external_body]
pub(crate) fn parse_id(s: &str) -> (r: Result<u128, uuid::Error>)
    ensures
        match r {
            Ok(id) => id_of_text(s@) == Some(id),
            Err(_) => id_of_text(s@) is None,
        },
{
    uuid::Uuid::parse_str(s).map(|u| u.as_u128())
}

/// `to_string` of a `uuid::Uuid` is its hyphenated form in lower case.
#[verifier::external_body]
pub(crate) fn id_text(id: u128) -> (s: String)
    ensures
        s@ == hyphenated(id),
{
    uuid::Uuid::from_u128(id).to_string()
}

/// `16` to the power of `k`.
spec fn power16(k: nat) -> nat
    decreases k,
{
    if k == 0 {
        1
    } else {
        16 * power16((k - 1) as nat)
    }
}

proof fn lemma_hex_round_trip(n: nat, k: nat)
    requires
        n < power16(k),
    ensures
        hex_text(n, k).len() == k,
        hex_value(hex_text(n, k)) == Some(n),
    decreases k,
{
    if k > 0 {
        lemma_hex_round_trip(n / 16, (k - 1) as nat);
        let front = hex_text(n / 16, (k - 1) as nat);
        let all = hex_text(n, k);
        assert(all.drop_last() =~= front);
        assert(hex_digit(hex_char(n % 16)) == Some(n % 16));
    }
}

/// Reading the text of an id gives the id back.
pub proof fn id_text_round_trips(id: u128)
    ensures
        id_of_text(hyphenated(id)) == Some(id),
        hyphenated(id).len() == 36,
{
    let h = hex_text(id as nat, 32);
    assert(power16(32) == 0x1_0000_0000_0000_0000_0000_0000_0000_0000nat) by {
        reveal_with_fuel(power16, 9);
        assert(power16(8) == 0x1_0000_0000nat);
        assert(power16(16) == 0x1_0000_0000_0000_0000nat);
        assert(power16(24) == 0x1_0000_0000_0000_0000_0000_0000nat);
    }
    lemma_hex_round_trip(id as nat, 32);
    let s = hyphenated(id);
    assert(s.len() == 36);
    assert(s.subrange(0, 8) + s.subrange(9, 13) + s.subrange(14, 18) + s.subrange(19, 23)
        + s.subrange(24, 36) =~= h);
}

/// Different ids have different texts.
pub proof fn id_texts_differ(a: u128, b: u128)
    requires
        hyphenated(a) == hyphenated(b),
    ensures
        a == b,
{
    id_text_round_trips(a);
    id_text_round_trips(b);
}

// ── Derived ids ──────────────────────────────────────────────────────────────

/// The name-based (version 5) UUID of `name` in a namespace: what
/// `uuid::Uuid::new_v5` computes with SHA-1.
pub uninterp spec fn named_id(namespace: u128, name: Seq<u8>) -> u128;

/// `uuid::Uuid::new_v5` of the namespace and the bytes of `name`.
#[verifier::external_body]
fn derive_id(namespace: u128, name: &str) -> (id: u128)
    ensures
        id == named_id(namespace, encode_utf8(name@)),
{
    uuid::Uuid::new_v5(&uuid::Uuid::from_u128(namespace), name.as_bytes()).as_u128()
}

/// The namespace of host names, under which seeds are turned into namespaces.
pub const DNS_NAMESPACE: u128 = 0x6ba7_b810_9dad_11d1_80b4_00c0_4fd4_30c8;

/// The namespace that a seed stands for.
pub open spec fn namespace_of(seed: Seq<char>) -> u128 {
    named_id(DNS_NAMESPACE, encode_utf8(seed))
}

/// The id that a designation has in a namespace.
pub open spec fn target_id(namespace: u128, designation: Seq<char>) -> u128 {
    named_id(namespace, encode_utf8(designation))
}

/// A stable namespace for a seed, such as `my-app.targets`.
pub fn namespace(seed: &str) -> (id: u128)
    ensures
        id == namespace_of(seed@),
{
    derive_id(DNS_NAMESPACE, seed)
}

/// The stable id of a designation in a namespace.
pub fn target_id_from_designation(namespace: u128, designation: &str) -> (id: u128)
    ensures
        id == target_id(namespace, designation@),
{
    derive_id(namespace, designation)
}

// ── Random ids ───────────────────────────────────────────────────────────────

/// `uuid::Uuid::new_v4`: a random UUID. Nothing is claimed of which.
#[verifier::external_body]
fn random_id() -> (id: u128) {
    uuid::Uuid::new_v4().as_u128()
}

/// Whether `s` is the hyphenated form of an id.
pub open spec fn is_id_text(s: Seq<char>) -> bool {
    exists|id: u128| s == hyphenated(id)
}

/// The texts of `n` random ids.
pub fn random_ids(n: usize) -> (out: Vec<String>)
    ensures
        out@.len() == n,
        forall|i: int| 0 <= i < n ==> is_id_text(#[trigger] texts(out@)[i]),
{
    let mut out: Vec<String> = Vec::new();
    while out.len() < n
        invariant
            out@.len() <= n,
            forall|i: int| 0 <= i < out@.len() ==> is_id_text(#[trigger] texts(out@)[i]),
        decreases n - out@.len(),
    {
        let ghost done = out@;
        let text = id_text(random_id());
        assert(is_id_text(text@));
        out.push(text);
        assert(texts(out@) =~= texts(done).push(text@));
    }
    out
}

} // verus!

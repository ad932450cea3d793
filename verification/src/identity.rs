//! Identity validation and prefix combination.
//!
//! Identity strings become cgroup dirnames on Linux, Windows Job Object names,
//! and argv[0] tags on macOS. The character set is restrictive by design so
//! the same string is safe in all three contexts.

use vstd::prelude::*;
use vstd::utf8::encode_utf8;

use crate::error::Error;
use crate::text::{
    chars_of, dec_chars, decimal_string, lemma_utf8_len, lemma_utf8_len_concat, utf8_byte_len,
    utf8_len, utf8_width,
};

verus! {

pub const MAX_LENGTH: usize = 200;

/// Characters allowed in identities: ASCII letters and digits, `.`, `_`,
/// `-` and `:`.
pub open spec fn valid_identity_char(c: char) -> bool {
    crate::text::is_ascii_alnum(c) || c == '.' || c == '_' || c == '-' || c == ':'
}

fn is_valid_identity_char(c: char) -> (b: bool)
    ensures
        b == valid_identity_char(c),
{
    crate::text::is_ascii_alphanumeric(c) || c == '.' || c == '_' || c == '-' || c == ':'
}

/// Why `raw` is not a valid identity, or `None` when it is one. The length
/// bound counts UTF-8 bytes.
pub open spec fn identity_violation(raw: Seq<char>) -> Option<Seq<char>> {
    let n = encode_utf8(raw).len();
    if raw.len() == 0 || n > MAX_LENGTH {
        Some("must be 1..=200 chars, got "@ + dec_chars(n))
    } else if exists|i: int| 0 <= i < raw.len() && !valid_identity_char(#[trigger] raw[i]) {
        Some("allowed chars: a-z A-Z 0-9 . _ - :"@)
    } else {
        None
    }
}

pub open spec fn is_valid_identity(raw: Seq<char>) -> bool {
    identity_violation(raw) is None
}

/// Accepts `raw` exactly when it is a valid identity; otherwise fails with
/// `Error::InvalidIdentity` carrying the reason.
pub fn validate(raw: &str) -> (r: Result<(), Error>)
    ensures
        match r {
            Ok(()) => is_valid_identity(raw@),
            Err(Error::InvalidIdentity(m)) => identity_violation(raw@) == Some(m@),
            Err(_) => false,
        },
{
    let cs = chars_of(raw);
    let n = utf8_byte_len(cs.as_slice());
    if cs.len() == 0 || n > MAX_LENGTH as u128 {
        let shown = decimal_string(n);
        let mut m = String::from_str("must be 1..=200 chars, got ");
        m.append(shown.as_str());
        return Err(Error::InvalidIdentity(m));
    }
    let mut i: usize = 0;
    while i < cs.len()
        invariant
            i <= cs@.len(),
            cs@ == raw@,
            cs@.len() > 0,
            n == encode_utf8(raw@).len(),
            n <= MAX_LENGTH,
            forall|j: int| 0 <= j < i ==> valid_identity_char(#[trigger] cs@[j]),
        decreases cs.len() - i,
    {
        if !is_valid_identity_char(cs[i]) {
            assert(!valid_identity_char(raw@[i as int]));
            assert(!(raw@.len() == 0 || encode_utf8(raw@).len() > MAX_LENGTH));
            let m = String::from_str("allowed chars: a-z A-Z 0-9 . _ - :");
            assert(identity_violation(raw@) == Some(m@));
            return Err(Error::InvalidIdentity(m));
        }
        i += 1;
    }
    Ok(())
}

/// `<prefix>:<identity>`.
pub open spec fn combined(prefix: Seq<char>, identity: Seq<char>) -> Seq<char> {
    prefix + ":"@ + identity
}

pub fn combine(prefix: &str, identity: &str) -> (r: String)
    ensures
        r@ == combined(prefix@, identity@),
{
    let mut s = String::from_str(prefix);
    s.append(":");
    s.append(identity);
    s
}

/// Apps with different prefixes never share a combined identity, whatever
/// identities they spawn, as long as neither prefix contains the separator
/// `:`.
pub proof fn law_distinct_prefixes_never_collide(
    p1: Seq<char>,
    i1: Seq<char>,
    p2: Seq<char>,
    i2: Seq<char>,
)
    requires
        !p1.contains(':'),
        !p2.contains(':'),
        p1 != p2,
    ensures
        combined(p1, i1) != combined(p2, i2),
{
    reveal_strlit(":");
    let c1 = combined(p1, i1);
    let c2 = combined(p2, i2);
    if c1 == c2 {
        if p1.len() == p2.len() {
            assert forall|k: int| 0 <= k < p1.len() implies p1[k] == p2[k] by {
                assert(c1[k] == p1[k]);
                assert(c2[k] == p2[k]);
            }
            assert(p1 =~= p2);
        } else if p1.len() < p2.len() {
            let k = p1.len() as int;
            assert(c1[k] == ':');
            assert(c2[k] == p2[k]);
            assert(p2.contains(p2[k]));
        } else {
            let k = p2.len() as int;
            assert(c2[k] == ':');
            assert(c1[k] == p1[k]);
            assert(p1.contains(p1[k]));
        }
    }
}

/// Combining a valid prefix with a valid identity gives a valid identity
/// whenever the two fit the length bound together with the separator.
pub proof fn law_combined_identity_is_valid(prefix: Seq<char>, identity: Seq<char>)
    requires
        is_valid_identity(prefix),
        is_valid_identity(identity),
        encode_utf8(prefix).len() + 1 + encode_utf8(identity).len() <= MAX_LENGTH,
    ensures
        is_valid_identity(combined(prefix, identity)),
{
    reveal_strlit(":");
    let c = combined(prefix, identity);
    lemma_utf8_len(prefix);
    lemma_utf8_len(identity);
    lemma_utf8_len(c);
    lemma_utf8_len_concat(prefix, ":"@);
    lemma_utf8_len_concat(prefix + ":"@, identity);
    assert(utf8_len(":"@) == 1) by {
        assert(utf8_len(Seq::<char>::empty()) == 0);
        assert(":"@.drop_first() =~= Seq::<char>::empty());
        assert(":"@[0] == ':');
        assert(utf8_width(':') == 1);
    }
    assert forall|i: int| 0 <= i < c.len() implies valid_identity_char(#[trigger] c[i]) by {
        if i < prefix.len() {
            assert(c[i] == prefix[i]);
            assert(!!valid_identity_char(prefix[i]));
        } else if i == prefix.len() {
            assert(c[i] == ':');
        } else {
            assert(c[i] == identity[i - prefix.len() - 1]);
            assert(!!valid_identity_char(identity[i - prefix.len() - 1]));
        }
    }
}

/// The identity character set, by code point: ASCII letters, ASCII digits,
/// `.`, `_`, `-` and `:`, and nothing else.
pub proof fn law_identity_chars(c: char)
    ensures
        valid_identity_char(c) <==> ((97 <= c as u32 && c as u32 <= 122) || (65 <= c as u32
            && c as u32 <= 90) || (48 <= c as u32 && c as u32 <= 57) || c as u32 == 46 || c as u32
            == 95 || c as u32 == 45 || c as u32 == 58),
{
}

/// An identity holding any character outside that set (such as `+`, `@`,
/// a space, `/` or a non-ASCII letter) is refused.
pub proof fn law_foreign_char_refused(raw: Seq<char>, i: int)
    requires
        0 <= i < raw.len(),
        !((97 <= raw[i] as u32 && raw[i] as u32 <= 122) || (65 <= raw[i] as u32 && raw[i] as u32
            <= 90) || (48 <= raw[i] as u32 && raw[i] as u32 <= 57) || raw[i] as u32 == 46
            || raw[i] as u32 == 95 || raw[i] as u32 == 45 || raw[i] as u32 == 58),
    ensures
        !is_valid_identity(raw),
{
    law_identity_chars(raw[i]);
}

} // verus!

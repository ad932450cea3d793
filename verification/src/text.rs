//! Character-level text handling shared by every parser in the crate.
//!
//! The supervisor reads the output of `ps`, cgroup control files and
//! plist tools, and builds identity tags, paths and messages. All of that
//! is done here over `Seq<char>` models that mirror the behaviour of the
//! corresponding `str` methods (`lines`, `trim`, `parse::<u32>`, decimal
//! `Display`, `Path::join`, `Path::file_name`).

use vstd::prelude::*;
use vstd::utf8::encode_utf8;

verus! {

// ---------------------------------------------------------------------
// Character classes
// ---------------------------------------------------------------------

/// Unicode `White_Space`, the set `char::is_whitespace` accepts.
pub open spec fn is_ws(c: char) -> bool {
    let u = c as u32;
    (9 <= u && u <= 13) || u == 32 || u == 0x85 || u == 0xA0 || u == 0x1680 || (0x2000 <= u
        && u <= 0x200A) || u == 0x2028 || u == 0x2029 || u == 0x202F || u == 0x205F || u
        == 0x3000
}

/// ASCII decimal digit.
pub open spec fn is_digit(c: char) -> bool {
    48 <= (c as u32) && (c as u32) <= 57
}

/// ASCII letter or digit (`char::is_ascii_alphanumeric`).
pub open spec fn is_ascii_alnum(c: char) -> bool {
    let u = c as u32;
    (48 <= u && u <= 57) || (65 <= u && u <= 90) || (97 <= u && u <= 122)
}

pub open spec fn digit_val(c: char) -> nat {
    ((c as u32) - 48) as nat
}

pub fn is_whitespace(c: char) -> (b: bool)
    ensures
        b == is_ws(c),
{
    let u = c as u32;
    (9 <= u && u <= 13) || u == 32 || u == 0x85 || u == 0xA0 || u == 0x1680 || (0x2000 <= u
        && u <= 0x200A) || u == 0x2028 || u == 0x2029 || u == 0x202F || u == 0x205F || u
        == 0x3000
}

pub fn is_ascii_alphanumeric(c: char) -> (b: bool)
    ensures
        b == is_ascii_alnum(c),
{
    let u = c as u32;
    (48 <= u && u <= 57) || (65 <= u && u <= 90) || (97 <= u && u <= 122)
}

// ---------------------------------------------------------------------
// UTF-8 length (`str::len`)
// ---------------------------------------------------------------------

pub open spec fn utf8_width(c: char) -> nat {
    let u = c as u32;
    if u <= 0x7F {
        1
    } else if u <= 0x7FF {
        2
    } else if u <= 0xFFFF {
        3
    } else {
        4
    }
}

pub open spec fn utf8_len(s: Seq<char>) -> nat
    decreases s.len(),
{
    if s.len() == 0 {
        0
    } else {
        utf8_width(s[0]) + utf8_len(s.drop_first())
    }
}

pub proof fn lemma_utf8_len(s: Seq<char>)
    ensures
        encode_utf8(s).len() == utf8_len(s),
    decreases s.len(),
{
    if s.len() > 0 {
        vstd::utf8::char_is_scalar(s[0]);
        lemma_utf8_len(s.drop_first());
    }
}

/// The UTF-8 length of a concatenation is the sum of the lengths.
pub proof fn lemma_utf8_len_concat(a: Seq<char>, b: Seq<char>)
    ensures
        utf8_len(a + b) == utf8_len(a) + utf8_len(b),
    decreases a.len(),
{
    if a.len() == 0 {
        assert(a + b =~= b);
    } else {
        lemma_utf8_len_concat(a.drop_first(), b);
        assert((a + b).drop_first() =~= a.drop_first() + b);
        assert((a + b)[0] == a[0]);
    }
}

/// Number of bytes in the UTF-8 encoding of `v` (what `str::len` reports).
pub fn utf8_byte_len(v: &[char]) -> (n: u128)
    ensures
        n == encode_utf8(v@).len(),
{
    let mut n: u128 = 0;
    let mut i: usize = v.len();
    assert(v@.skip(v@.len() as int) =~= Seq::<char>::empty());
    while i > 0
        invariant
            i <= v@.len(),
            n == utf8_len(v@.skip(i as int)),
            n <= 4 * (v@.len() - i),
        decreases i,
    {
        let u = v[i - 1] as u32;
        let w: u128 = if u <= 0x7F {
            1
        } else if u <= 0x7FF {
            2
        } else if u <= 0xFFFF {
            3
        } else {
            4
        };
        assert(v@.skip(i - 1).drop_first() =~= v@.skip(i as int));
        assert(v@.skip(i - 1)[0] == v@[i - 1]);
        n = n + w;
        i = i - 1;
    }
    assert(v@.skip(0) =~= v@);
    proof {
        lemma_utf8_len(v@);
    }
    n
}

// ---------------------------------------------------------------------
// Conversions between `str`, `String` and `Vec<char>`
// ---------------------------------------------------------------------

/// `String::push`.
#[verifier::external_body]
pub(crate) fn push_char(s: &mut String, c: char)
    ensures
        final(s)@ == old(s)@.push(c),
{
    s.push(c);
}

pub fn chars_of(s: &str) -> (v: Vec<char>)
    ensures
        v@ == s@,
{
    let mut v: Vec<char> = Vec::new();
    for c in it: s.chars()
        invariant
            v@ == it.seq().take(it.index() as int),
            it.seq() == s@,
    {
        v.push(c);
    }
    v
}

pub fn string_from_chars(v: &[char]) -> (s: String)
    ensures
        s@ == v@,
{
    let mut s = String::new();
    let mut i: usize = 0;
    while i < v.len()
        invariant
            i <= v.len(),
            s@ == v@.take(i as int),
        decreases v.len() - i,
    {
        push_char(&mut s, v[i]);
        i += 1;
        assert(v@.take(i as int) =~= v@.take(i - 1).push(v@[i - 1]));
    }
    assert(v@.take(v.len() as int) =~= v@);
    s
}

/// Appends `t` to `s`.
pub fn append_chars(s: &mut String, t: &[char])
    ensures
        final(s)@ == old(s)@ + t@,
{
    let mut i: usize = 0;
    while i < t.len()
        invariant
            i <= t.len(),
            s@ == old(s)@ + t@.take(i as int),
        decreases t.len() - i,
    {
        push_char(s, t[i]);
        i += 1;
        assert(t@.take(i as int) =~= t@.take(i - 1).push(t@[i - 1]));
    }
    assert(t@.take(t.len() as int) =~= t@);
}

pub fn sub_chars(v: &[char], a: usize, b: usize) -> (r: Vec<char>)
    requires
        a <= b <= v@.len(),
    ensures
        r@ == v@.subrange(a as int, b as int),
{
    let mut r: Vec<char> = Vec::new();
    let mut i = a;
    while i < b
        invariant
            a <= i <= b,
            b <= v@.len(),
            r@ == v@.subrange(a as int, i as int),
        decreases b - i,
    {
        r.push(v[i]);
        i += 1;
        assert(r@ =~= v@.subrange(a as int, i as int));
    }
    r
}

pub fn chars_eq(a: &[char], b: &[char]) -> (r: bool)
    ensures
        r == (a@ == b@),
{
    if a.len() != b.len() {
        return false;
    }
    let mut i: usize = 0;
    while i < a.len()
        invariant
            i <= a.len(),
            a@.len() == b@.len(),
            forall|j: int| 0 <= j < i ==> a@[j] == b@[j],
        decreases a.len() - i,
    {
        if a[i] != b[i] {
            return false;
        }
        i += 1;
    }
    assert(a@ =~= b@);
    true
}

pub open spec fn has_prefix(s: Seq<char>, p: Seq<char>) -> bool {
    p.len() <= s.len() && s.take(p.len() as int) == p
}

pub fn starts_with(s: &[char], p: &[char]) -> (r: bool)
    ensures
        r == has_prefix(s@, p@),
{
    if p.len() > s.len() {
        return false;
    }
    let mut i: usize = 0;
    while i < p.len()
        invariant
            i <= p.len(),
            p@.len() <= s@.len(),
            forall|j: int| 0 <= j < i ==> s@[j] == p@[j],
        decreases p.len() - i,
    {
        if s[i] != p[i] {
            assert(s@.take(p@.len() as int)[i as int] != p@[i as int]);
            return false;
        }
        i += 1;
    }
    assert(s@.take(p@.len() as int) =~= p@);
    true
}

// ---------------------------------------------------------------------
// Trimming (`str::trim_start`, `str::trim_end`, `str::trim`)
// ---------------------------------------------------------------------

pub open spec fn ws_prefix(s: Seq<char>) -> nat
    decreases s.len(),
{
    if s.len() > 0 && is_ws(s[0]) {
        1 + ws_prefix(s.drop_first())
    } else {
        0
    }
}

pub open spec fn ws_suffix(s: Seq<char>) -> nat
    decreases s.len(),
{
    if s.len() > 0 && is_ws(s.last()) {
        1 + ws_suffix(s.drop_last())
    } else {
        0
    }
}

pub open spec fn trim_start(s: Seq<char>) -> Seq<char> {
    s.skip(ws_prefix(s) as int)
}

pub open spec fn trim_end(s: Seq<char>) -> Seq<char> {
    s.take(s.len() - ws_suffix(s))
}

pub open spec fn trim(s: Seq<char>) -> Seq<char> {
    trim_end(trim_start(s))
}

proof fn lemma_ws_prefix(s: Seq<char>, i: int)
    requires
        0 <= i <= s.len(),
        forall|j: int| 0 <= j < i ==> is_ws(#[trigger] s[j]),
        i == s.len() || !is_ws(s[i]),
    ensures
        ws_prefix(s) == i,
    decreases i,
{
    if i > 0 {
        let t = s.drop_first();
        assert forall|j: int| 0 <= j < i - 1 implies is_ws(#[trigger] t[j]) by {
            assert(t[j] == s[j + 1]);
        }
        lemma_ws_prefix(t, i - 1);
    }
}

proof fn lemma_ws_suffix(s: Seq<char>, k: int)
    requires
        0 <= k <= s.len(),
        forall|j: int| s.len() - k <= j < s.len() ==> is_ws(#[trigger] s[j]),
        k == s.len() || !is_ws(s[s.len() - k - 1]),
    ensures
        ws_suffix(s) == k,
    decreases k,
{
    if k > 0 {
        let t = s.drop_last();
        assert forall|j: int| t.len() - (k - 1) <= j < t.len() implies is_ws(#[trigger] t[j]) by {
            assert(t[j] == s[j]);
        }
        lemma_ws_suffix(t, k - 1);
    }
}

/// Index of the first character of `v` that is not whitespace.
fn leading_ws_count(v: &[char]) -> (n: usize)
    ensures
        n == ws_prefix(v@),
        n <= v@.len(),
{
    let mut i: usize = 0;
    while i < v.len() && is_whitespace(v[i])
        invariant
            i <= v.len(),
            forall|j: int| 0 <= j < i ==> is_ws(#[trigger] v@[j]),
        decreases v.len() - i,
    {
        i += 1;
    }
    proof {
        lemma_ws_prefix(v@, i as int);
    }
    i
}

fn trailing_ws_count(v: &[char]) -> (n: usize)
    ensures
        n == ws_suffix(v@),
        n <= v@.len(),
{
    let mut k: usize = 0;
    while k < v.len() && is_whitespace(v[v.len() - 1 - k])
        invariant
            k <= v.len(),
            forall|j: int| v@.len() - k <= j < v@.len() ==> is_ws(#[trigger] v@[j]),
        decreases v.len() - k,
    {
        k += 1;
    }
    proof {
        lemma_ws_suffix(v@, k as int);
    }
    k
}

pub fn trimmed_start(v: &[char]) -> (r: Vec<char>)
    ensures
        r@ == trim_start(v@),
{
    let a = leading_ws_count(v);
    let r = sub_chars(v, a, v.len());
    assert(r@ =~= v@.skip(a as int));
    r
}

pub fn trimmed_end(v: &[char]) -> (r: Vec<char>)
    ensures
        r@ == trim_end(v@),
{
    let k = trailing_ws_count(v);
    let r = sub_chars(v, 0, v.len() - k);
    assert(r@ =~= v@.take(v@.len() - k));
    r
}

pub fn trimmed(v: &[char]) -> (r: Vec<char>)
    ensures
        r@ == trim(v@),
{
    let s = trimmed_start(v);
    trimmed_end(s.as_slice())
}

// ---------------------------------------------------------------------
// Lines (`str::lines`)
// ---------------------------------------------------------------------

/// Drops the `'\r'` of a `"\r\n"` line ending.
pub open spec fn strip_cr(l: Seq<char>) -> Seq<char> {
    if l.len() > 0 && l.last() == '\r' {
        l.drop_last()
    } else {
        l
    }
}

/// The lines of `s`, with `cur` the text of the line read so far. A line
/// ends at `'\n'` (a `'\r'` just before it is dropped); the last line needs
/// no line ending, and an empty last line is not a line.
pub open spec fn lines_from(s: Seq<char>, cur: Seq<char>) -> Seq<Seq<char>>
    decreases s.len(),
{
    if s.len() == 0 {
        if cur.len() == 0 {
            Seq::empty()
        } else {
            seq![cur]
        }
    } else if s[0] == '\n' {
        seq![strip_cr(cur)] + lines_from(s.drop_first(), Seq::empty())
    } else {
        lines_from(s.drop_first(), cur.push(s[0]))
    }
}

pub open spec fn lines(s: Seq<char>) -> Seq<Seq<char>> {
    lines_from(s, Seq::empty())
}

pub open spec fn views(v: Seq<Vec<char>>) -> Seq<Seq<char>> {
    v.map_values(|x: Vec<char>| x@)
}

pub fn lines_of(text: &str) -> (r: Vec<Vec<char>>)
    ensures
        views(r@) == lines(text@),
{
    let cs = chars_of(text);
    let mut out: Vec<Vec<char>> = Vec::new();
    let mut cur: Vec<char> = Vec::new();
    let mut i: usize = 0;
    assert(cs@.skip(0) =~= cs@);
    while i < cs.len()
        invariant
            i <= cs@.len(),
            cs@ == text@,
            views(out@) + lines_from(cs@.skip(i as int), cur@) == lines(text@),
        decreases cs.len() - i,
    {
        let c = cs[i];
        let ghost rest = cs@.skip(i as int);
        assert(rest[0] == c);
        assert(rest.drop_first() =~= cs@.skip(i + 1));
        if c == '\n' {
            let mut line = cur;
            if line.len() > 0 && line[line.len() - 1] == '\r' {
                line.pop();
            }
            assert(line@ == strip_cr(cur@));
            let ghost before = views(out@);
            out.push(line);
            assert(views(out@) =~= before.push(strip_cr(cur@)));
            assert(before + (seq![strip_cr(cur@)] + lines_from(cs@.skip(i + 1), Seq::empty()))
                =~= before.push(strip_cr(cur@)) + lines_from(cs@.skip(i + 1), Seq::empty()));
            cur = Vec::new();
            assert(cur@ =~= Seq::<char>::empty());
        } else {
            cur.push(c);
        }
        i += 1;
    }
    if cur.len() > 0 {
        let ghost before = views(out@);
        out.push(cur);
        assert(views(out@) =~= before.push(cur@));
    }
    assert(cs@.skip(i as int) =~= Seq::<char>::empty());
    assert(views(out@) =~= lines(text@));
    out
}


// ---------------------------------------------------------------------
// Unsigned decimal numbers (`str::parse::<u32>`, `Display` for integers)
// ---------------------------------------------------------------------

pub open spec fn all_digits(s: Seq<char>) -> bool {
    forall|i: int| 0 <= i < s.len() ==> is_digit(#[trigger] s[i])
}

pub open spec fn digits_value(s: Seq<char>) -> nat
    decreases s.len(),
{
    if s.len() == 0 {
        0
    } else {
        digits_value(s.drop_last()) * 10 + digit_val(s.last())
    }
}

/// `s.parse::<u32>()`: an optional `'+'`, then one or more ASCII digits
/// whose value fits in 32 bits.
pub open spec fn parse_u32(s: Seq<char>) -> Option<u32> {
    let d = if s.len() > 0 && s[0] == '+' {
        s.drop_first()
    } else {
        s
    };
    if d.len() > 0 && all_digits(d) && digits_value(d) <= u32::MAX {
        Some(digits_value(d) as u32)
    } else {
        None
    }
}

proof fn lemma_digits_value_grows(t: Seq<char>, c: char)
    requires
        is_digit(c),
    ensures
        digits_value(t.push(c)) == digits_value(t) * 10 + digit_val(c),
        digits_value(t.push(c)) >= digits_value(t),
{
    assert(t.push(c).drop_last() =~= t);
    let v = digits_value(t);
    assert(v * 10 + digit_val(c) >= v) by (nonlinear_arith);
}

pub fn parse_u32_chars(s: &[char]) -> (r: Option<u32>)
    ensures
        r == parse_u32(s@),
{
    let start: usize = if s.len() > 0 && s[0] == '+' {
        1
    } else {
        0
    };
    let ghost d = if s@.len() > 0 && s@[0] == '+' {
        s@.drop_first()
    } else {
        s@
    };
    assert(d =~= s@.skip(start as int));
    if start >= s.len() {
        return None;
    }
    let mut acc: u64 = 0;
    let mut over = false;
    let mut i = start;
    assert(d.take(0) =~= Seq::<char>::empty());
    while i < s.len()
        invariant
            start <= i <= s@.len(),
            d == s@.skip(start as int),
            d == (if s@.len() > 0 && s@[0] == '+' {
                s@.drop_first()
            } else {
                s@
            }),
            d.len() > 0,
            forall|j: int| 0 <= j < i - start ==> is_digit(#[trigger] d[j]),
            !over ==> acc as nat == digits_value(d.take(i - start)) && acc <= u32::MAX,
            over ==> digits_value(d.take(i - start)) > u32::MAX,
        decreases s.len() - i,
    {
        let c = s[i];
        let u = c as u32;
        assert(d[i - start] == s@[i as int]);
        if !(48 <= u && u <= 57) {
            assert(!is_digit(d[i - start]));
            assert(!all_digits(d));
            assert(parse_u32(s@) == None::<u32>);
            return None;
        }
        let dv = (u - 48) as u64;
        proof {
            assert(d.take(i - start + 1) =~= d.take(i - start).push(d[i - start]));
            lemma_digits_value_grows(d.take(i - start), d[i - start]);
        }
        if !over {
            acc = acc * 10 + dv;
            if acc > 0xFFFF_FFFF {
                over = true;
            }
        }
        i += 1;
    }
    assert(d.take(d.len() as int) =~= d);
    if over {
        None
    } else {
        Some(acc as u32)
    }
}

pub open spec fn dec_digits(n: nat) -> Seq<nat>
    decreases n,
{
    if n < 10 {
        seq![n]
    } else {
        dec_digits(n / 10).push(n % 10)
    }
}

pub open spec fn digit_char(d: nat) -> char {
    ((d + 48) as u8) as char
}

/// Decimal rendering of `n`, as `Display` writes an unsigned integer.
pub open spec fn dec_chars(n: nat) -> Seq<char> {
    dec_digits(n).map_values(|d: nat| digit_char(d))
}

/// The decimal rendering of `n`: one or more digits, worth `n`.
pub proof fn lemma_dec_chars(n: nat)
    ensures
        dec_chars(n).len() > 0,
        all_digits(dec_chars(n)),
        digits_value(dec_chars(n)) == n,
    decreases n,
{
    if n < 10 {
        assert(dec_chars(n) =~= seq![digit_char(n)]);
        assert(seq![digit_char(n)].drop_last() =~= Seq::<char>::empty());
        assert(digits_value(Seq::<char>::empty()) == 0);
        assert(digit_val(digit_char(n)) == n);
        assert(digits_value(seq![digit_char(n)]) == n);
    } else {
        lemma_dec_chars(n / 10);
        let hi = dec_chars(n / 10);
        let c = digit_char(n % 10);
        assert(dec_chars(n) =~= hi.push(c));
        assert(hi.push(c).drop_last() =~= hi);
        assert(is_digit(c));
        assert(digit_val(c) == n % 10);
        assert(digits_value(hi.push(c)) == digits_value(hi) * 10 + digit_val(c));
        assert((n / 10) * 10 + n % 10 == n) by (nonlinear_arith);
        assert forall|i: int| 0 <= i < hi.push(c).len() implies is_digit(#[trigger] hi.push(c)[i]) by {
            if i < hi.len() {
                assert(hi.push(c)[i] == hi[i]);
            }
        }
    }
}

/// Parsing the trimmed decimal rendering of a `u32` gives it back, as
/// `n.to_string().trim().parse::<u32>()` does.
pub proof fn lemma_parse_decimal(n: u32)
    ensures
        parse_u32(trim(dec_chars(n as nat))) == Some(n),
{
    let s = dec_chars(n as nat);
    lemma_dec_chars(n as nat);
    assert(is_digit(s[0]));
    assert(is_digit(s.last()));
    assert(ws_prefix(s) == 0);
    assert(trim_start(s) =~= s);
    assert(ws_suffix(s) == 0);
    assert(trim_end(s) =~= s);
    assert(trim(s) == s);
    assert(s[0] != '+');
}

pub fn decimal_string(n: u128) -> (s: String)
    ensures
        s@ == dec_chars(n as nat),
{
    let mut digits: Vec<char> = Vec::new();
    let mut m = n;
    while m >= 10
        invariant
            dec_chars(n as nat) == dec_chars(m as nat) + digits@,
        decreases m,
    {
        let d = (m % 10) as u8;
        let c = (d + 48) as char;
        assert(c == digit_char((m % 10) as nat));
        let ghost old_digits = digits@;
        digits.insert(0, c);
        assert(dec_digits(m as nat) == dec_digits((m / 10) as nat).push((m % 10) as nat));
        assert(dec_chars(m as nat) =~= dec_chars((m / 10) as nat).push(c));
        assert(digits@ =~= seq![c] + old_digits);
        assert(dec_chars(n as nat) =~= dec_chars((m / 10) as nat) + digits@);
        m = m / 10;
    }
    let d = m as u8;
    let c = (d + 48) as char;
    assert(c == digit_char(m as nat));
    let ghost old_digits = digits@;
    digits.insert(0, c);
    assert(dec_digits(m as nat) == seq![m as nat]);
    assert(dec_chars(m as nat) =~= seq![c]);
    assert(digits@ =~= seq![c] + old_digits);
    string_from_chars(digits.as_slice())
}

// ---------------------------------------------------------------------
// Splitting at whitespace (`str::split_once(char::is_whitespace)` and the
// first words of `str::split_whitespace`)
// ---------------------------------------------------------------------

/// Number of leading characters of `s` that are not whitespace.
pub open spec fn word_len(s: Seq<char>) -> nat
    decreases s.len(),
{
    if s.len() > 0 && !is_ws(s[0]) {
        1 + word_len(s.drop_first())
    } else {
        0
    }
}

/// `s.split_once(char::is_whitespace)`: the text before the first
/// whitespace character and the text after it.
pub open spec fn split_once_ws(s: Seq<char>) -> Option<(Seq<char>, Seq<char>)> {
    let k = word_len(s);
    if k < s.len() {
        Some((s.take(k as int), s.skip(k as int + 1)))
    } else {
        None
    }
}

/// First word of `s` and the text after it (as `split_whitespace` sees it):
/// the word is empty when `s` holds only whitespace.
pub open spec fn next_word(s: Seq<char>) -> (Seq<char>, Seq<char>) {
    let t = trim_start(s);
    (t.take(word_len(t) as int), t.skip(word_len(t) as int))
}

proof fn lemma_word_len(s: Seq<char>, i: int)
    requires
        0 <= i <= s.len(),
        forall|j: int| 0 <= j < i ==> !is_ws(#[trigger] s[j]),
        i == s.len() || is_ws(s[i]),
    ensures
        word_len(s) == i,
    decreases i,
{
    if i > 0 {
        let t = s.drop_first();
        assert forall|j: int| 0 <= j < i - 1 implies !is_ws(#[trigger] t[j]) by {
            assert(t[j] == s[j + 1]);
        }
        lemma_word_len(t, i - 1);
    }
}

fn word_count(v: &[char]) -> (n: usize)
    ensures
        n == word_len(v@),
        n <= v@.len(),
{
    let mut i: usize = 0;
    while i < v.len() && !is_whitespace(v[i])
        invariant
            i <= v.len(),
            forall|j: int| 0 <= j < i ==> !is_ws(#[trigger] v@[j]),
        decreases v.len() - i,
    {
        i += 1;
    }
    proof {
        lemma_word_len(v@, i as int);
    }
    i
}

pub fn split_once_whitespace(v: &[char]) -> (r: Option<(Vec<char>, Vec<char>)>)
    ensures
        match r {
            Some((a, b)) => split_once_ws(v@) == Some((a@, b@)),
            None => split_once_ws(v@) is None,
        },
{
    let k = word_count(v);
    if k < v.len() {
        let a = sub_chars(v, 0, k);
        let b = sub_chars(v, k + 1, v.len());
        assert(a@ =~= v@.take(k as int));
        assert(b@ =~= v@.skip(k + 1));
        Some((a, b))
    } else {
        None
    }
}

pub fn first_word(v: &[char]) -> (r: (Vec<char>, Vec<char>))
    ensures
        (r.0@, r.1@) == next_word(v@),
{
    let t = trimmed_start(v);
    let k = word_count(t.as_slice());
    let a = sub_chars(t.as_slice(), 0, k);
    let b = sub_chars(t.as_slice(), k, t.len());
    assert(a@ =~= t@.take(k as int));
    assert(b@ =~= t@.skip(k as int));
    (a, b)
}

// ---------------------------------------------------------------------
// Unix paths (`Path::join`, `Path::file_name`, `Path::extension`)
// ---------------------------------------------------------------------

/// `Path::new(base).join(rel)` on Unix: an absolute `rel` replaces `base`;
/// otherwise a `'/'` separates the two unless `base` is empty or already
/// ends with one.
pub open spec fn path_join(base: Seq<char>, rel: Seq<char>) -> Seq<char> {
    if rel.len() > 0 && rel[0] == '/' {
        rel
    } else if base.len() == 0 || base.last() == '/' {
        base + rel
    } else {
        base + seq!['/'] + rel
    }
}

pub fn join_path(base: &[char], rel: &[char]) -> (r: String)
    ensures
        r@ == path_join(base@, rel@),
{
    let mut s = String::new();
    if rel.len() > 0 && rel[0] == '/' {
        append_chars(&mut s, rel);
        return s;
    }
    append_chars(&mut s, base);
    if !(base.len() == 0 || base[base.len() - 1] == '/') {
        push_char(&mut s, '/');
    }
    append_chars(&mut s, rel);
    s
}

/// Number of trailing characters of `s` that are not `'/'`.
pub open spec fn tail_len(s: Seq<char>) -> nat
    decreases s.len(),
{
    if s.len() > 0 && s.last() != '/' {
        1 + tail_len(s.drop_last())
    } else {
        0
    }
}

/// `Path::file_name` on Unix: the last path component, ignoring empty
/// and `.` components; `None` when there is none or it is `..`.
pub open spec fn file_name(s: Seq<char>) -> Option<Seq<char>>
    decreases s.len(),
{
    let k = tail_len(s);
    let seg = s.skip(s.len() - k);
    if seg.len() == 0 || seg == seq!['.'] {
        if k >= s.len() {
            None
        } else {
            file_name(s.take(s.len() - k - 1))
        }
    } else if seg == seq!['.', '.'] {
        None
    } else {
        Some(seg)
    }
}

proof fn lemma_tail_len(s: Seq<char>, k: int)
    requires
        0 <= k <= s.len(),
        forall|j: int| s.len() - k <= j < s.len() ==> #[trigger] s[j] != '/',
        k == s.len() || s[s.len() - k - 1] == '/',
    ensures
        tail_len(s) == k,
    decreases k,
{
    if k > 0 {
        let t = s.drop_last();
        assert forall|j: int| t.len() - (k - 1) <= j < t.len() implies #[trigger] t[j] != '/' by {
            assert(t[j] == s[j]);
        }
        lemma_tail_len(t, k - 1);
    }
}

pub fn path_file_name(v: &[char]) -> (r: Option<Vec<char>>)
    ensures
        match r {
            Some(x) => file_name(v@) == Some(x@),
            None => file_name(v@) is None,
        },
    decreases v@.len(),
{
    let mut k: usize = 0;
    while k < v.len() && v[v.len() - 1 - k] != '/'
        invariant
            k <= v.len(),
            forall|j: int| v@.len() - k <= j < v@.len() ==> #[trigger] v@[j] != '/',
        decreases v.len() - k,
    {
        k += 1;
    }
    proof {
        lemma_tail_len(v@, k as int);
    }
    let seg = sub_chars(v, v.len() - k, v.len());
    assert(seg@ =~= v@.skip(v@.len() - k));
    let is_dot = seg.len() == 1 && seg[0] == '.';
    let is_dotdot = seg.len() == 2 && seg[0] == '.' && seg[1] == '.';
    assert(is_dot == (seg@ == seq!['.'])) by {
        if seg@ == seq!['.'] {
            assert(seg@[0] == '.');
        }
        if is_dot {
            assert(seg@ =~= seq!['.']);
        }
    }
    assert(is_dotdot == (seg@ == seq!['.', '.'])) by {
        if seg@ == seq!['.', '.'] {
            assert(seg@[0] == '.' && seg@[1] == '.');
        }
        if is_dotdot {
            assert(seg@ =~= seq!['.', '.']);
        }
    }
    if seg.len() == 0 || is_dot {
        if k >= v.len() {
            None
        } else {
            let before = sub_chars(v, 0, v.len() - k - 1);
            assert(before@ =~= v@.take(v@.len() - k - 1));
            path_file_name(before.as_slice())
        }
    } else if is_dotdot {
        None
    } else {
        Some(seg)
    }
}

/// Number of trailing characters of `s` that are not `'.'`.
pub open spec fn after_dot_len(s: Seq<char>) -> nat
    decreases s.len(),
{
    if s.len() > 0 && s.last() != '.' {
        1 + after_dot_len(s.drop_last())
    } else {
        0
    }
}

/// `Path::extension`: the text after the last `'.'` of the file name,
/// unless that dot is the name's first character.
pub open spec fn extension(s: Seq<char>) -> Option<Seq<char>> {
    match file_name(s) {
        None => None,
        Some(name) => {
            let k = after_dot_len(name);
            if name.len() == 0 || k >= name.len() - 1 {
                None
            } else {
                Some(name.skip(name.len() - k))
            }
        },
    }
}

proof fn lemma_after_dot_len(s: Seq<char>, k: int)
    requires
        0 <= k <= s.len(),
        forall|j: int| s.len() - k <= j < s.len() ==> #[trigger] s[j] != '.',
        k == s.len() || s[s.len() - k - 1] == '.',
    ensures
        after_dot_len(s) == k,
    decreases k,
{
    if k > 0 {
        let t = s.drop_last();
        assert forall|j: int| t.len() - (k - 1) <= j < t.len() implies #[trigger] t[j] != '.' by {
            assert(t[j] == s[j]);
        }
        lemma_after_dot_len(t, k - 1);
    }
}

pub fn path_extension(v: &[char]) -> (r: Option<Vec<char>>)
    ensures
        match r {
            Some(x) => extension(v@) == Some(x@),
            None => extension(v@) is None,
        },
{
    match path_file_name(v) {
        None => None,
        Some(name) => {
            let mut k: usize = 0;
            while k < name.len() && name[name.len() - 1 - k] != '.'
                invariant
                    k <= name.len(),
                    forall|j: int|
                        name@.len() - k <= j < name@.len() ==> #[trigger] name@[j] != '.',
                decreases name.len() - k,
            {
                k += 1;
            }
            proof {
                lemma_after_dot_len(name@, k as int);
            }
            if name.len() == 0 || k >= name.len() - 1 {
                None
            } else {
                let e = sub_chars(name.as_slice(), name.len() - k, name.len());
                assert(e@ =~= name@.skip(name@.len() - k));
                Some(e)
            }
        },
    }
}

// ---------------------------------------------------------------------
// Searching lines
// ---------------------------------------------------------------------

/// The rest of the first line of `ls` that starts with `p`
/// (`lines().find_map(|l| l.strip_prefix(p))`).
pub open spec fn find_prefixed(ls: Seq<Seq<char>>, p: Seq<char>) -> Option<Seq<char>>
    decreases ls.len(),
{
    if ls.len() == 0 {
        None
    } else if has_prefix(ls[0], p) {
        Some(ls[0].skip(p.len() as int))
    } else {
        find_prefixed(ls.drop_first(), p)
    }
}

pub fn find_prefixed_line(ls: &Vec<Vec<char>>, p: &[char]) -> (r: Option<Vec<char>>)
    ensures
        match r {
            Some(x) => find_prefixed(views(ls@), p@) == Some(x@),
            None => find_prefixed(views(ls@), p@) is None,
        },
{
    let ghost all = views(ls@);
    let mut i: usize = 0;
    assert(all.skip(0) =~= all);
    while i < ls.len()
        invariant
            i <= ls@.len(),
            all == views(ls@),
            find_prefixed(all, p@) == find_prefixed(all.skip(i as int), p@),
        decreases ls.len() - i,
    {
        let ghost rest = all.skip(i as int);
        assert(rest[0] == ls@[i as int]@);
        assert(rest.drop_first() =~= all.skip(i + 1));
        if starts_with(ls[i].as_slice(), p) {
            let r = sub_chars(ls[i].as_slice(), p.len(), ls[i].len());
            assert(r@ =~= ls@[i as int]@.skip(p@.len() as int));
            return Some(r);
        }
        i += 1;
    }
    assert(all.skip(i as int) =~= Seq::<Seq<char>>::empty());
    None
}

/// Whether some line of `ls` is exactly `target`.
pub open spec fn some_line_is(ls: Seq<Seq<char>>, target: Seq<char>) -> bool {
    exists|k: int| 0 <= k < ls.len() && ls[k] == target
}

pub fn some_line_equals(ls: &Vec<Vec<char>>, target: &[char]) -> (r: bool)
    ensures
        r == some_line_is(views(ls@), target@),
{
    let mut i: usize = 0;
    while i < ls.len()
        invariant
            i <= ls@.len(),
            forall|k: int| 0 <= k < i ==> views(ls@)[k] != target@,
        decreases ls.len() - i,
    {
        if chars_eq(ls[i].as_slice(), target) {
            assert(views(ls@)[i as int] == target@);
            return true;
        }
        i += 1;
    }
    false
}

/// `s.trim_start_matches(c)`.
pub open spec fn strip_leading(s: Seq<char>, c: char) -> Seq<char>
    decreases s.len(),
{
    if s.len() > 0 && s[0] == c {
        strip_leading(s.drop_first(), c)
    } else {
        s
    }
}

pub fn strip_leading_chars(v: &[char], c: char) -> (r: Vec<char>)
    ensures
        r@ == strip_leading(v@, c),
{
    let mut i: usize = 0;
    assert(v@.skip(0) =~= v@);
    while i < v.len() && v[i] == c
        invariant
            i <= v@.len(),
            strip_leading(v@, c) == strip_leading(v@.skip(i as int), c),
        decreases v.len() - i,
    {
        assert(v@.skip(i as int).drop_first() =~= v@.skip(i + 1));
        i += 1;
    }
    let r = sub_chars(v, i, v.len());
    assert(r@ =~= v@.skip(i as int));
    r
}

/// `s.lines().next().unwrap_or("")`.
pub open spec fn first_line(s: Seq<char>) -> Seq<char> {
    if lines(s).len() > 0 {
        lines(s)[0]
    } else {
        Seq::empty()
    }
}

pub fn first_line_of(text: &str) -> (r: Vec<char>)
    ensures
        r@ == first_line(text@),
{
    let ls = lines_of(text);
    if ls.len() > 0 {
        let l = ls[0].clone();
        assert(l@ == views(ls@)[0]);
        l
    } else {
        Vec::new()
    }
}

// ---------------------------------------------------------------------
// Collecting over sequences
// ---------------------------------------------------------------------

pub open spec fn opt_seq<B>(o: Option<B>) -> Seq<B> {
    match o {
        Some(b) => seq![b],
        None => Seq::empty(),
    }
}

/// `iter().filter_map(f)` over a sequence.
pub open spec fn filter_map<A, B>(s: Seq<A>, f: spec_fn(A) -> Option<B>) -> Seq<B>
    decreases s.len(),
{
    if s.len() == 0 {
        Seq::empty()
    } else {
        filter_map(s.drop_last(), f) + opt_seq(f(s.last()))
    }
}

pub proof fn lemma_filter_map_push<A, B>(s: Seq<A>, x: A, f: spec_fn(A) -> Option<B>)
    ensures
        filter_map(s.push(x), f) == filter_map(s, f) + opt_seq(f(x)),
{
    assert(s.push(x).drop_last() =~= s);
}

/// Keeps the first occurrence of each value.
pub open spec fn dedup(s: Seq<u32>) -> Seq<u32>
    decreases s.len(),
{
    if s.len() == 0 {
        Seq::empty()
    } else {
        let d = dedup(s.drop_last());
        if d.contains(s.last()) {
            d
        } else {
            d.push(s.last())
        }
    }
}

pub proof fn lemma_dedup_push(s: Seq<u32>, x: u32)
    ensures
        dedup(s.push(x)) == (if dedup(s).contains(x) {
            dedup(s)
        } else {
            dedup(s).push(x)
        }),
{
    assert(s.push(x).drop_last() =~= s);
}

pub proof fn lemma_dedup_props(s: Seq<u32>)
    ensures
        dedup(s).no_duplicates(),
        forall|x: u32| dedup(s).contains(x) <==> s.contains(x),
    decreases s.len(),
{
    if s.len() > 0 {
        let t = s.drop_last();
        lemma_dedup_props(t);
        assert(s =~= t.push(s.last()));
        let d = dedup(t);
        assert forall|x: u32| dedup(s).contains(x) <==> s.contains(x) by {
            if s.contains(x) {
                let i = choose|i: int| 0 <= i < s.len() && s[i] == x;
                if i < t.len() {
                    assert(t[i] == x);
                    assert(t.contains(x));
                }
            }
            if t.contains(x) {
                let i = choose|i: int| 0 <= i < t.len() && t[i] == x;
                assert(s[i] == x);
            }
            if dedup(s).contains(x) && !d.contains(x) {
                assert(!d.contains(s.last()));
                let i = choose|i: int| 0 <= i < dedup(s).len() && dedup(s)[i] == x;
                assert(dedup(s) == d.push(s.last()));
                if i < d.len() {
                    assert(d[i] == x);
                }
                assert(x == s.last());
                assert(s[s.len() - 1] == x);
            }
            if d.contains(x) {
                let i = choose|i: int| 0 <= i < d.len() && d[i] == x;
                assert(dedup(s)[i] == x);
            }
            if x == s.last() && !d.contains(x) {
                assert(dedup(s) == d.push(x));
                assert(dedup(s)[d.len() as int] == x);
            }
        }
    }
}

} // verus!

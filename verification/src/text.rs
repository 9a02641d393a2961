//! Character-level text utilities shared by the parsers and the matchers.
//!
//! Text is handled as sequences of Unicode scalar values (`Seq<char>`), which is
//! what the view of `str` and `String` gives.
use vstd::prelude::*;

verus! {

// ---------------------------------------------------------------------------
// Conversions between strings and character vectors
// ---------------------------------------------------------------------------

/// The characters of a string slice, in order.
pub fn chars_of(s: &str) -> (v: Vec<char>)
    ensures
        v@ == s@,
{
    let mut v: Vec<char> = Vec::new();
    for c in it: s.chars()
        invariant
            v@ == it.seq().take(it.index() as int),
    {
        v.push(c);
    }
    v
}

/// Builds a `String` holding exactly the given characters.
///
/// Trusted: calls std's `FromIterator<&char> for String` (`Iterator::collect`),
/// which the std documentation describes as appending each character in turn.
#[verifier::external_body]
pub(crate) fn string_of(chars: &[char]) -> (s: String)
    ensures
        s@ == chars@,
{
    chars.iter().collect()
}

/// A string literal or slice as an owned `String`.
pub fn owned(s: &str) -> (r: String)
    ensures
        r@ == s@,
{
    s.to_owned()
}

/// Character equality of two string slices.
pub fn str_equal(a: &str, b: &str) -> (r: bool)
    ensures
        r == (a@ == b@),
{
    let x = chars_of(a);
    let y = chars_of(b);
    seq_equal(&x, &y)
}

/// Element-wise equality of two character slices.
pub fn seq_equal(a: &[char], b: &[char]) -> (r: bool)
    ensures
        r == (a@ == b@),
{
    if a.len() != b.len() {
        return false;
    }
    let mut i: usize = 0;
    while i < a.len()
        invariant
            a@.len() == b@.len(),
            i <= a@.len(),
            forall|k: int| 0 <= k < i ==> a@[k] == b@[k],
        decreases a.len() - i,
    {
        if a[i] != b[i] {
            return false;
        }
        i += 1;
    }
    assert(a@ =~= b@);
    true
}

// ---------------------------------------------------------------------------
// Whitespace and trimming
// ---------------------------------------------------------------------------

/// Unicode `White_Space`, the property that `char::is_whitespace` and
/// `str::trim` use.
pub open spec fn is_ws(c: char) -> bool {
    let n = c as u32;
    ||| 0x09 <= n <= 0x0D
    ||| n == 0x20
    ||| n == 0x85
    ||| n == 0xA0
    ||| n == 0x1680
    ||| 0x2000 <= n <= 0x200A
    ||| n == 0x2028
    ||| n == 0x2029
    ||| n == 0x202F
    ||| n == 0x205F
    ||| n == 0x3000
}

/// Executable form of [`is_ws`].
pub fn char_is_ws(c: char) -> (r: bool)
    ensures
        r == is_ws(c),
{
    let n = c as u32;
    (0x09 <= n && n <= 0x0D) || n == 0x20 || n == 0x85 || n == 0xA0 || n == 0x1680 || (0x2000
        <= n && n <= 0x200A) || n == 0x2028 || n == 0x2029 || n == 0x202F || n == 0x205F || n
        == 0x3000
}

/// The sequence without its leading whitespace.
pub open spec fn trim_start(s: Seq<char>) -> Seq<char>
    decreases s.len(),
{
    if s.len() > 0 && is_ws(s[0]) {
        trim_start(s.drop_first())
    } else {
        s
    }
}

/// The sequence without its trailing whitespace.
pub open spec fn trim_end(s: Seq<char>) -> Seq<char>
    decreases s.len(),
{
    if s.len() > 0 && is_ws(s.last()) {
        trim_end(s.drop_last())
    } else {
        s
    }
}

/// The sequence without leading and trailing whitespace (`str::trim`).
pub open spec fn trim(s: Seq<char>) -> Seq<char> {
    trim_end(trim_start(s))
}

/// Whether every character is whitespace.
pub open spec fn all_ws(s: Seq<char>) -> bool {
    forall|i: int| 0 <= i < s.len() ==> is_ws(#[trigger] s[i])
}

proof fn lemma_trim_start_skip(s: Seq<char>, i: int)
    requires
        0 <= i < s.len(),
        is_ws(s[i]),
    ensures
        trim_start(s.skip(i)) == trim_start(s.skip(i + 1)),
{
    assert(s.skip(i).drop_first() =~= s.skip(i + 1));
}

proof fn lemma_trim_end_take(s: Seq<char>, j: int)
    requires
        0 < j <= s.len(),
        is_ws(s[j - 1]),
    ensures
        trim_end(s.take(j)) == trim_end(s.take(j - 1)),
{
    assert(s.take(j).drop_last() =~= s.take(j - 1));
}

/// Index of the first non-whitespace character (or the length).
fn first_non_ws(s: &[char]) -> (i: usize)
    ensures
        i <= s@.len(),
        trim_start(s@) == s@.skip(i as int),
        forall|k: int| 0 <= k < i ==> is_ws(#[trigger] s@[k]),
{
    let mut i: usize = 0;
    assert(s@.skip(0) =~= s@);
    while i < s.len() && char_is_ws(s[i])
        invariant
            i <= s@.len(),
            trim_start(s@) == trim_start(s@.skip(i as int)),
            forall|k: int| 0 <= k < i ==> is_ws(#[trigger] s@[k]),
        decreases s.len() - i,
    {
        proof {
            lemma_trim_start_skip(s@, i as int);
        }
        i += 1;
    }
    i
}

/// Length of the prefix that remains after removing trailing whitespace.
fn end_non_ws(s: &[char]) -> (j: usize)
    ensures
        j <= s@.len(),
        trim_end(s@) == s@.take(j as int),
        forall|k: int| j <= k < s@.len() ==> is_ws(#[trigger] s@[k]),
{
    let mut j: usize = s.len();
    assert(s@.take(s@.len() as int) =~= s@);
    while j > 0 && char_is_ws(s[j - 1])
        invariant
            j <= s@.len(),
            trim_end(s@) == trim_end(s@.take(j as int)),
            forall|k: int| j <= k < s@.len() ==> is_ws(#[trigger] s@[k]),
        decreases j,
    {
        proof {
            lemma_trim_end_take(s@, j as int);
        }
        j -= 1;
    }
    j
}

/// Copy of a subrange of a character slice.
pub fn slice_vec(s: &[char], from: usize, to: usize) -> (r: Vec<char>)
    requires
        from <= to <= s@.len(),
    ensures
        r@ == s@.subrange(from as int, to as int),
{
    let mut r: Vec<char> = Vec::new();
    let mut i = from;
    while i < to
        invariant
            from <= i <= to <= s@.len(),
            r@ == s@.subrange(from as int, i as int),
        decreases to - i,
    {
        r.push(s[i]);
        i += 1;
        assert(r@ =~= s@.subrange(from as int, i as int));
    }
    r
}

proof fn lemma_trim_end_of_skip(s: Seq<char>, i: int, j: int)
    requires
        0 <= i <= s.len(),
        0 <= j <= s.len(),
        trim_start(s) == s.skip(i),
        trim_end(s) == s.take(j),
        forall|k: int| 0 <= k < i ==> is_ws(#[trigger] s[k]),
        forall|k: int| j <= k < s.len() ==> is_ws(#[trigger] s[k]),
    ensures
        i <= j ==> trim(s) == s.subrange(i, j),
        j < i ==> trim(s) == Seq::<char>::empty(),
    decreases s.len(),
{
    // trim_end over the suffix s[i..] strips exactly s[j..] when i <= j.
    if i <= j {
        lemma_trim_end_suffix(s, i, j);
    } else {
        lemma_trim_end_suffix_all(s, i);
    }
}

proof fn lemma_trim_end_suffix(s: Seq<char>, i: int, j: int)
    requires
        0 <= i <= j <= s.len(),
        trim_end(s) == s.take(j),
        forall|k: int| j <= k < s.len() ==> is_ws(#[trigger] s[k]),
    ensures
        trim_end(s.skip(i)) == s.subrange(i, j),
    decreases s.len() - j,
{
    if j == s.len() {
        assert(s.take(j) =~= s);
        // trim_end(s) == s means s is empty or its last is not whitespace.
        if s.len() > 0 && is_ws(s.last()) {
            lemma_trim_end_len(s.drop_last());
            assert(trim_end(s).len() <= s.drop_last().len());
        }
        assert(s.skip(i) =~= s.subrange(i, j));
        if s.skip(i).len() > 0 {
            assert(s.skip(i).last() == s.last());
        }
    } else {
        // s[s.len()-1] is whitespace; drop it on both sides.
        let t = s.drop_last();
        assert(is_ws(s[s.len() - 1]));
        assert(trim_end(s) == trim_end(t));
        assert(t.take(j) =~= s.take(j));
        assert forall|k: int| j <= k < t.len() implies is_ws(#[trigger] t[k]) by {
            assert(t[k] == s[k]);
        }
        lemma_trim_end_suffix(t, i, j);
        assert(s.skip(i).drop_last() =~= t.skip(i));
        assert(s.skip(i).len() > 0);
        assert(s.skip(i).last() == s[s.len() - 1]);
        assert(t.subrange(i, j) =~= s.subrange(i, j));
    }
}

proof fn lemma_trim_end_len(s: Seq<char>)
    ensures
        trim_end(s).len() <= s.len(),
    decreases s.len(),
{
    if s.len() > 0 && is_ws(s.last()) {
        lemma_trim_end_len(s.drop_last());
    }
}

proof fn lemma_trim_end_suffix_all(s: Seq<char>, i: int)
    requires
        0 <= i <= s.len(),
        all_ws(s.skip(i)),
    ensures
        trim_end(s.skip(i)) == Seq::<char>::empty(),
    decreases s.len() - i,
{
    let t = s.skip(i);
    lemma_all_ws_trim_end(t);
}

proof fn lemma_all_ws_trim_end(t: Seq<char>)
    requires
        all_ws(t),
    ensures
        trim_end(t) == Seq::<char>::empty(),
    decreases t.len(),
{
    if t.len() > 0 {
        assert(is_ws(t[t.len() - 1]));
        assert forall|k: int| 0 <= k < t.drop_last().len() implies is_ws(
            #[trigger] t.drop_last()[k],
        ) by {
            assert(t.drop_last()[k] == t[k]);
        }
        lemma_all_ws_trim_end(t.drop_last());
    } else {
        assert(t =~= Seq::<char>::empty());
    }
}

/// `str::trim` on a character slice.
pub fn trim_chars(s: &[char]) -> (r: Vec<char>)
    ensures
        r@ == trim(s@),
{
    let i = first_non_ws(s);
    let j = end_non_ws(s);
    proof {
        if j < i {
            assert forall|k: int| 0 <= k < s@.skip(i as int).len() implies is_ws(
                #[trigger] s@.skip(i as int)[k],
            ) by {
                assert(s@.skip(i as int)[k] == s@[i + k]);
            }
        }
        lemma_trim_end_of_skip(s@, i as int, j as int);
    }
    if i <= j {
        slice_vec(s, i, j)
    } else {
        Vec::new()
    }
}

/// Whether the characters are all whitespace (or there are none), which is
/// `str::trim(..).is_empty()`.
pub fn is_blank(s: &[char]) -> (r: bool)
    ensures
        r == (trim(s@).len() == 0),
{
    let t = trim_chars(s);
    t.len() == 0
}

// ---------------------------------------------------------------------------
// ASCII case
// ---------------------------------------------------------------------------

/// `char::to_ascii_lowercase`.
pub open spec fn ascii_lower(c: char) -> char {
    if 'A' <= c <= 'Z' {
        ((c as u32) + 32) as char
    } else {
        c
    }
}

/// `char::to_ascii_uppercase`.
pub open spec fn ascii_upper(c: char) -> char {
    if 'a' <= c <= 'z' {
        ((c as u32) - 32) as char
    } else {
        c
    }
}

/// `str::to_ascii_lowercase`.
pub open spec fn lower_seq(s: Seq<char>) -> Seq<char> {
    s.map_values(|c: char| ascii_lower(c))
}

/// `str::to_ascii_uppercase`.
pub open spec fn upper_seq(s: Seq<char>) -> Seq<char> {
    s.map_values(|c: char| ascii_upper(c))
}

/// Executable form of [`ascii_lower`].
pub fn lower_char(c: char) -> (r: char)
    ensures
        r == ascii_lower(c),
{
    if 'A' <= c && c <= 'Z' {
        let n = (c as u32) + 32;
        assert(0x61 <= n <= 0x7A);
        char_from_ascii(n)
    } else {
        c
    }
}

/// Executable form of [`ascii_upper`].
pub fn upper_char(c: char) -> (r: char)
    ensures
        r == ascii_upper(c),
{
    if 'a' <= c && c <= 'z' {
        let n = (c as u32) - 32;
        char_from_ascii(n)
    } else {
        c
    }
}

/// The character with an ASCII code.
///
/// Trusted: `char::from_u32` returns `Some` of the scalar value for every
/// value below 0xD800, per the std documentation.
#[verifier::external_body]
fn char_from_ascii(n: u32) -> (c: char)
    requires
        n < 128,
    ensures
        c == n as char,
        c as u32 == n,
{
    char::from_u32(n).unwrap()
}

/// `str::to_ascii_lowercase` on a character slice.
pub fn lower_chars(s: &[char]) -> (r: Vec<char>)
    ensures
        r@ == lower_seq(s@),
{
    let mut r: Vec<char> = Vec::new();
    let mut i: usize = 0;
    while i < s.len()
        invariant
            i <= s@.len(),
            r@ == lower_seq(s@.take(i as int)),
        decreases s.len() - i,
    {
        r.push(lower_char(s[i]));
        i += 1;
        assert(r@ =~= lower_seq(s@.take(i as int)));
    }
    assert(s@.take(s@.len() as int) =~= s@);
    r
}

/// `str::to_ascii_uppercase` on a character slice.
pub fn upper_chars(s: &[char]) -> (r: Vec<char>)
    ensures
        r@ == upper_seq(s@),
{
    let mut r: Vec<char> = Vec::new();
    let mut i: usize = 0;
    while i < s.len()
        invariant
            i <= s@.len(),
            r@ == upper_seq(s@.take(i as int)),
        decreases s.len() - i,
    {
        r.push(upper_char(s[i]));
        i += 1;
        assert(r@ =~= upper_seq(s@.take(i as int)));
    }
    assert(s@.take(s@.len() as int) =~= s@);
    r
}

/// `str::eq_ignore_ascii_case`.
pub open spec fn eq_ignore_case(a: Seq<char>, b: Seq<char>) -> bool {
    lower_seq(a) == lower_seq(b)
}

/// Executable form of [`eq_ignore_case`].
pub fn eq_ignore_case_chars(a: &[char], b: &[char]) -> (r: bool)
    ensures
        r == eq_ignore_case(a@, b@),
{
    let x = lower_chars(a);
    let y = lower_chars(b);
    let r = seq_equal(&x, &y);
    r
}

/// `str::eq_ignore_ascii_case` on string slices.
pub fn str_eq_ignore_case(a: &str, b: &str) -> (r: bool)
    ensures
        r == eq_ignore_case(a@, b@),
{
    let x = chars_of(a);
    let y = chars_of(b);
    eq_ignore_case_chars(&x, &y)
}

// ---------------------------------------------------------------------------
// Prefixes, suffixes and substrings
// ---------------------------------------------------------------------------

/// `str::starts_with` for a string pattern.
pub open spec fn has_prefix(s: Seq<char>, p: Seq<char>) -> bool {
    p.len() <= s.len() && s.take(p.len() as int) == p
}

/// `str::ends_with` for a string pattern.
pub open spec fn has_suffix(s: Seq<char>, p: Seq<char>) -> bool {
    p.len() <= s.len() && s.skip(s.len() - p.len()) == p
}

/// Whether `needle` occurs in `hay` starting at `i`.
pub open spec fn occurs_at(hay: Seq<char>, needle: Seq<char>, i: int) -> bool {
    0 <= i && i + needle.len() <= hay.len() && hay.subrange(i, i + needle.len()) == needle
}

/// `str::contains` for a string pattern.
pub open spec fn contains_seq(hay: Seq<char>, needle: Seq<char>) -> bool {
    exists|i: int| #[trigger] occurs_at(hay, needle, i)
}

/// Executable form of [`has_prefix`].
pub fn starts_with_chars(s: &[char], p: &[char]) -> (r: bool)
    ensures
        r == has_prefix(s@, p@),
{
    if p.len() > s.len() {
        return false;
    }
    let mut i: usize = 0;
    while i < p.len()
        invariant
            p@.len() <= s@.len(),
            i <= p@.len(),
            forall|k: int| 0 <= k < i ==> s@[k] == p@[k],
        decreases p.len() - i,
    {
        if s[i] != p[i] {
            assert(s@.take(p@.len() as int)[i as int] == s@[i as int]);
            return false;
        }
        i += 1;
    }
    assert(s@.take(p@.len() as int) =~= p@);
    true
}

/// Executable form of [`has_suffix`].
pub fn ends_with_chars(s: &[char], p: &[char]) -> (r: bool)
    ensures
        r == has_suffix(s@, p@),
{
    if p.len() > s.len() {
        return false;
    }
    let sl = s.len();
    let off = sl - p.len();
    let mut i: usize = 0;
    while i < p.len()
        invariant
            sl == s@.len(),
            p@.len() <= s@.len(),
            off == s@.len() - p@.len(),
            off + p@.len() == s@.len(),
            i <= p@.len(),
            forall|k: int| 0 <= k < i ==> s@[off + k] == p@[k],
        decreases p.len() - i,
    {
        if s[off + i] != p[i] {
            assert(s@.skip(off as int)[i as int] == s@[off + i]);
            return false;
        }
        i += 1;
    }
    assert(s@.skip(off as int) =~= p@);
    true
}

/// Whether `needle` occurs at position `i` of `hay`.
fn occurs_at_exec(hay: &[char], needle: &[char], i: usize) -> (r: bool)
    requires
        i + needle@.len() <= hay@.len(),
    ensures
        r == occurs_at(hay@, needle@, i as int),
{
    let hl = hay.len();
    let mut k: usize = 0;
    while k < needle.len()
        invariant
            hl == hay@.len(),
            i + needle@.len() <= hay@.len(),
            k <= needle@.len(),
            forall|t: int| 0 <= t < k ==> hay@[i + t] == needle@[t],
        decreases needle.len() - k,
    {
        assert(i + k < hay@.len());
        if hay[i + k] != needle[k] {
            assert(hay@.subrange(i as int, i + needle@.len())[k as int] == hay@[i + k]);
            return false;
        }
        k += 1;
    }
    assert(hay@.subrange(i as int, i + needle@.len()) =~= needle@);
    true
}

/// Executable form of [`contains_seq`].
pub fn contains_chars(hay: &[char], needle: &[char]) -> (r: bool)
    ensures
        r == contains_seq(hay@, needle@),
{
    if needle.len() > hay.len() {
        return false;
    }
    let last = hay.len() - needle.len();
    let mut i: usize = 0;
    while i <= last
        invariant
            last == hay@.len() - needle@.len(),
            i <= last + 1,
            forall|t: int| 0 <= t < i ==> !occurs_at(hay@, needle@, t),
        decreases last + 1 - i,
    {
        if occurs_at_exec(hay, needle, i) {
            return true;
        }
        if i == last {
            return false;
        }
        i += 1;
    }
    false
}

// ---------------------------------------------------------------------------
// UTF-8 lengths
// ---------------------------------------------------------------------------

/// The number of bytes `char::len_utf8` gives.
pub open spec fn char_utf8_len(c: char) -> nat {
    let n = c as u32;
    if n < 0x80 {
        1
    } else if n < 0x800 {
        2
    } else if n < 0x10000 {
        3
    } else {
        4
    }
}

/// The UTF-8 byte length of a character sequence (`str::len`).
pub open spec fn utf8_len(s: Seq<char>) -> nat
    decreases s.len(),
{
    if s.len() == 0 {
        0
    } else {
        utf8_len(s.drop_last()) + char_utf8_len(s.last())
    }
}

/// Executable form of [`char_utf8_len`].
pub fn char_utf8_len_exec(c: char) -> (n: usize)
    ensures
        n == char_utf8_len(c),
{
    let v = c as u32;
    if v < 0x80 {
        1
    } else if v < 0x800 {
        2
    } else if v < 0x10000 {
        3
    } else {
        4
    }
}

/// The UTF-8 byte length of a character slice.
pub fn utf8_len_exec(s: &[char]) -> (n: usize)
    requires
        s@.len() <= usize::MAX / 4,
    ensures
        n == utf8_len(s@),
{
    let mut n: usize = 0;
    let mut i: usize = 0;
    while i < s.len()
        invariant
            s@.len() <= usize::MAX / 4,
            i <= s@.len(),
            n == utf8_len(s@.take(i as int)),
            n <= 4 * i,
        decreases s.len() - i,
    {
        assert(s@.take(i + 1).drop_last() =~= s@.take(i as int));
        n = n + char_utf8_len_exec(s[i]);
        i += 1;
    }
    assert(s@.take(s@.len() as int) =~= s@);
    n
}

// ---------------------------------------------------------------------------
// Decimal numbers
// ---------------------------------------------------------------------------

/// `char::is_ascii_digit`.
pub open spec fn is_digit(c: char) -> bool {
    '0' <= c <= '9'
}

/// The value of an ASCII digit.
pub open spec fn digit_value(c: char) -> int {
    c as int - '0' as int
}

/// Whether every character is an ASCII digit.
pub open spec fn all_digits(s: Seq<char>) -> bool {
    forall|i: int| 0 <= i < s.len() ==> is_digit(#[trigger] s[i])
}

/// The value of a string of ASCII digits, read in base ten.
pub open spec fn decimal_value(s: Seq<char>) -> int
    decreases s.len(),
{
    if s.len() == 0 {
        0
    } else {
        decimal_value(s.drop_last()) * 10 + digit_value(s.last())
    }
}

/// The digits that `str::parse` reads after an optional leading `+`.
pub open spec fn unsigned_digits(s: Seq<char>) -> Seq<char> {
    if s.len() > 0 && s[0] == '+' {
        s.drop_first()
    } else {
        s
    }
}

/// `str::parse::<u32>()`: an optional `+`, then at least one ASCII digit, with
/// a value that fits.
pub open spec fn parse_u32_spec(s: Seq<char>) -> Option<u32> {
    let d = unsigned_digits(s);
    if d.len() > 0 && all_digits(d) && decimal_value(d) <= u32::MAX {
        Some(decimal_value(d) as u32)
    } else {
        None
    }
}

/// `str::parse::<u64>()`: an optional `+`, then at least one ASCII digit, with
/// a value that fits.
pub open spec fn parse_u64_spec(s: Seq<char>) -> Option<u64> {
    let d = unsigned_digits(s);
    if d.len() > 0 && all_digits(d) && decimal_value(d) <= u64::MAX {
        Some(decimal_value(d) as u64)
    } else {
        None
    }
}

/// The sign and digits that `str::parse::<i64>()` reads.
pub open spec fn signed_parts(s: Seq<char>) -> (bool, Seq<char>) {
    if s.len() > 0 && s[0] == '-' {
        (true, s.drop_first())
    } else if s.len() > 0 && s[0] == '+' {
        (false, s.drop_first())
    } else {
        (false, s)
    }
}

/// `str::parse::<i64>()`: an optional sign, then at least one ASCII digit, with
/// a value in range.
pub open spec fn parse_i64_spec(s: Seq<char>) -> Option<i64> {
    let (neg, d) = signed_parts(s);
    if d.len() == 0 || !all_digits(d) {
        None
    } else if neg {
        if -decimal_value(d) >= i64::MIN {
            Some((-decimal_value(d)) as i64)
        } else {
            None
        }
    } else if decimal_value(d) <= i64::MAX {
        Some(decimal_value(d) as i64)
    } else {
        None
    }
}

/// A prefix of a digit string never has a larger value than the whole.
pub proof fn lemma_decimal_prefix(s: Seq<char>, i: int)
    requires
        0 <= i <= s.len(),
        all_digits(s),
    ensures
        0 <= decimal_value(s.take(i)) <= decimal_value(s),
    decreases s.len() - i,
{
    lemma_decimal_nonneg(s.take(i));
    if i < s.len() {
        lemma_decimal_prefix(s, i + 1);
        assert(s.take(i + 1).drop_last() =~= s.take(i));
        assert(is_digit(s[i]));
    } else {
        assert(s.take(i) =~= s);
    }
}

/// Digit strings have non-negative values.
pub proof fn lemma_decimal_nonneg(s: Seq<char>)
    requires
        all_digits(s),
    ensures
        decimal_value(s) >= 0,
    decreases s.len(),
{
    if s.len() > 0 {
        assert(is_digit(s[s.len() - 1]));
        lemma_decimal_nonneg(s.drop_last());
    }
}

/// Reads a non-empty digit string no larger than `limit`; `None` when a
/// character is not a digit or the value exceeds the limit.
fn read_decimal(s: &[char], start: usize, limit: u64) -> (r: Option<u64>)
    requires
        start <= s@.len(),
        limit <= u64::MAX / 20,
    ensures
        match r {
            Some(v) => all_digits(s@.skip(start as int)) && v == decimal_value(s@.skip(start as int))
                && v <= limit,
            None => !all_digits(s@.skip(start as int)) || decimal_value(s@.skip(start as int))
                > limit,
        },
{
    let ghost d = s@.skip(start as int);
    let mut acc: u64 = 0;
    let mut i = start;
    while i < s.len()
        invariant
            start <= i <= s@.len(),
            d == s@.skip(start as int),
            limit <= u64::MAX / 20,
            all_digits(d.take(i - start)),
            acc == decimal_value(d.take(i - start)),
            acc <= limit,
        decreases s.len() - i,
    {
        let c = s[i];
        if !('0' <= c && c <= '9') {
            assert(d[i - start] == c);
            assert(!all_digits(d));
            return None;
        }
        let dv = (c as u32 - '0' as u32) as u64;
        assert(d.take(i - start + 1).drop_last() =~= d.take(i - start));
        assert(d.take(i - start + 1).last() == c);
        acc = acc * 10 + dv;
        i += 1;
        assert forall|k: int| 0 <= k < i - start implies is_digit(#[trigger] d.take(i - start)[k]) by {
            if k < i - start - 1 {
                assert(d.take(i - start)[k] == d.take(i - start - 1)[k]);
            }
        }
        if acc > limit {
            proof {
                if all_digits(d) {
                    lemma_decimal_prefix(d, i - start);
                }
            }
            return None;
        }
    }
    assert(d.take(i - start) =~= d);
    Some(acc)
}

/// `str::parse::<u32>()` on a character slice.
pub fn parse_u32(s: &[char]) -> (r: Option<u32>)
    ensures
        r == parse_u32_spec(s@),
{
    let start: usize = if s.len() > 0 && s[0] == '+' { 1 } else { 0 };
    assert(unsigned_digits(s@) =~= s@.skip(start as int));
    if start >= s.len() {
        return None;
    }
    match read_decimal(s, start, 0xFFFF_FFFF) {
        Some(v) => Some(v as u32),
        None => None,
    }
}

/// `str::parse::<u64>()` on a character slice.
pub fn parse_u64(s: &[char]) -> (r: Option<u64>)
    ensures
        r == parse_u64_spec(s@),
{
    let start: usize = if s.len() > 0 && s[0] == '+' { 1 } else { 0 };
    assert(unsigned_digits(s@) =~= s@.skip(start as int));
    if start >= s.len() {
        return None;
    }
    let ghost d = s@.skip(start as int);
    let limit: u128 = 0xFFFF_FFFF_FFFF_FFFF;
    let mut acc: u128 = 0;
    let mut i = start;
    while i < s.len()
        invariant
            start <= i <= s@.len(),
            d == s@.skip(start as int),
            unsigned_digits(s@) == d,
            d.len() > 0,
            limit == u64::MAX,
            all_digits(d.take(i - start)),
            acc == decimal_value(d.take(i - start)),
            acc <= limit,
        decreases s.len() - i,
    {
        let c = s[i];
        if !('0' <= c && c <= '9') {
            assert(d[i - start] == c);
            assert(!all_digits(d));
            return None;
        }
        let dv = (c as u32 - '0' as u32) as u128;
        assert(d.take(i - start + 1).drop_last() =~= d.take(i - start));
        assert(d.take(i - start + 1).last() == c);
        acc = acc * 10 + dv;
        i += 1;
        assert forall|k: int| 0 <= k < i - start implies is_digit(#[trigger] d.take(i - start)[k]) by {
            if k < i - start - 1 {
                assert(d.take(i - start)[k] == d.take(i - start - 1)[k]);
            }
        }
        if acc > limit {
            proof {
                if all_digits(d) {
                    lemma_decimal_prefix(d, i - start);
                }
            }
            return None;
        }
    }
    assert(d.take(i - start) =~= d);
    Some(acc as u64)
}

/// `str::parse::<i64>()` on a character slice.
pub fn parse_i64(s: &[char]) -> (r: Option<i64>)
    ensures
        r == parse_i64_spec(s@),
{
    let neg = s.len() > 0 && s[0] == '-';
    let start: usize = if s.len() > 0 && (s[0] == '-' || s[0] == '+') { 1 } else { 0 };
    assert(signed_parts(s@).1 =~= s@.skip(start as int));
    if start >= s.len() {
        return None;
    }
    // Read up to 2^63 (the magnitude of i64::MIN) in two halves so the limit
    // fits the reader's bound.
    let ghost d = s@.skip(start as int);
    let r = read_decimal_i64(s, start);
    match r {
        Some(v) => {
            if neg {
                if v <= 0x8000_0000_0000_0000 {
                    if v == 0x8000_0000_0000_0000 {
                        Some(i64::MIN)
                    } else {
                        Some(-(v as i64))
                    }
                } else {
                    None
                }
            } else if v <= 0x7FFF_FFFF_FFFF_FFFF {
                Some(v as i64)
            } else {
                None
            }
        },
        None => None,
    }
}

/// Reads a digit string whose value is at most 2^63; `None` when a character
/// is not a digit or the value is larger.
fn read_decimal_i64(s: &[char], start: usize) -> (r: Option<u64>)
    requires
        start <= s@.len(),
    ensures
        match r {
            Some(v) => all_digits(s@.skip(start as int)) && v == decimal_value(s@.skip(start as int))
                && v <= 0x8000_0000_0000_0000,
            None => !all_digits(s@.skip(start as int)) || decimal_value(s@.skip(start as int))
                > 0x8000_0000_0000_0000,
        },
{
    let ghost d = s@.skip(start as int);
    let limit: u64 = 0x8000_0000_0000_0000;
    let mut acc: u64 = 0;
    let mut i = start;
    while i < s.len()
        invariant
            start <= i <= s@.len(),
            d == s@.skip(start as int),
            limit == 0x8000_0000_0000_0000,
            all_digits(d.take(i - start)),
            acc == decimal_value(d.take(i - start)),
            acc <= limit,
        decreases s.len() - i,
    {
        let c = s[i];
        if !('0' <= c && c <= '9') {
            assert(d[i - start] == c);
            assert(!all_digits(d));
            return None;
        }
        let dv = (c as u32 - '0' as u32) as u64;
        assert(d.take(i - start + 1).drop_last() =~= d.take(i - start));
        assert(d.take(i - start + 1).last() == c);
        assert forall|k: int| 0 <= k < i - start + 1 implies is_digit(
            #[trigger] d.take(i - start + 1)[k],
        ) by {
            if k < i - start {
                assert(d.take(i - start + 1)[k] == d.take(i - start)[k]);
            }
        }
        if acc > (limit - dv) / 10 {
            // acc * 10 + dv > limit
            assert(acc * 10 + dv > limit) by (nonlinear_arith)
                requires
                    acc > (limit - dv) / 10,
                    dv <= 9,
                    limit == 0x8000_0000_0000_0000u64,
            ;
            i += 1;
            proof {
                if all_digits(d) {
                    lemma_decimal_prefix(d, i - start);
                }
            }
            return None;
        }
        assert(acc * 10 + dv <= limit) by (nonlinear_arith)
            requires
                acc <= (limit - dv) / 10,
                dv <= 9,
                limit == 0x8000_0000_0000_0000u64,
        ;
        acc = acc * 10 + dv;
        i += 1;
    }
    assert(d.take(i - start) =~= d);
    Some(acc)
}

/// The decimal digits of a natural number (no leading zeros; `"0"` for zero).
pub open spec fn decimal_digits(n: nat) -> Seq<char>
    decreases n,
{
    if n < 10 {
        seq![digit_char(n)]
    } else {
        decimal_digits(n / 10).push(digit_char(n % 10))
    }
}

/// The ASCII digit of a value below ten.
pub open spec fn digit_char(d: nat) -> char {
    (('0' as u32) + d) as char
}

/// The decimal digits, left-padded with zeros to at least `width` characters
/// (the `{:0width}` format).
pub open spec fn zero_padded(n: nat, width: nat) -> Seq<char> {
    let d = decimal_digits(n);
    if d.len() >= width {
        d
    } else {
        Seq::new((width - d.len()) as nat, |i: int| '0') + d
    }
}

/// The `Display` form of a signed integer.
pub open spec fn int_text(n: int) -> Seq<char> {
    if n < 0 {
        seq!['-'] + decimal_digits((-n) as nat)
    } else {
        decimal_digits(n as nat)
    }
}

fn digit_char_exec(d: u64) -> (c: char)
    requires
        d < 10,
    ensures
        c == digit_char(d as nat),
{
    char_from_ascii((('0' as u32) + d as u32))
}

proof fn lemma_decimal_digits_len(n: nat)
    ensures
        n < 10 ==> decimal_digits(n).len() == 1,
        decimal_digits(n).len() >= 1,
    decreases n,
{
    if n >= 10 {
        lemma_decimal_digits_len(n / 10);
    }
}

/// The decimal digits of an unsigned integer.
pub fn u64_digits(n: u64) -> (r: Vec<char>)
    ensures
        r@ == decimal_digits(n as nat),
    decreases n,
{
    if n < 10 {
        let mut v: Vec<char> = Vec::new();
        v.push(digit_char_exec(n));
        assert(v@ =~= seq![digit_char(n as nat)]);
        v
    } else {
        let mut v = u64_digits(n / 10);
        v.push(digit_char_exec(n % 10));
        v
    }
}

/// The decimal digits of an unsigned integer, zero-padded to `width`.
pub fn u64_padded(n: u64, width: usize) -> (r: Vec<char>)
    ensures
        r@ == zero_padded(n as nat, width as nat),
{
    let d = u64_digits(n);
    if d.len() >= width {
        d
    } else {
        let mut v: Vec<char> = Vec::new();
        let pad = width - d.len();
        let mut i: usize = 0;
        while i < pad
            invariant
                i <= pad,
                v@ == Seq::new(i as nat, |k: int| '0'),
            decreases pad - i,
        {
            v.push('0');
            i += 1;
            assert(v@ =~= Seq::new(i as nat, |k: int| '0'));
        }
        let mut j: usize = 0;
        let ghost p = v@;
        while j < d.len()
            invariant
                j <= d@.len(),
                v@ == p + d@.take(j as int),
            decreases d.len() - j,
        {
            v.push(d[j]);
            j += 1;
            assert(v@ =~= p + d@.take(j as int));
        }
        assert(d@.take(d@.len() as int) =~= d@);
        v
    }
}

/// The `Display` form of a signed integer.
pub fn i64_text(n: i64) -> (r: Vec<char>)
    ensures
        r@ == int_text(n as int),
{
    if n < 0 {
        let m: u64 = if n == i64::MIN {
            0x8000_0000_0000_0000
        } else {
            (-n) as u64
        };
        let d = u64_digits(m);
        let mut v: Vec<char> = Vec::new();
        v.push('-');
        append(&mut v, &d);
        v
    } else {
        u64_digits(n as u64)
    }
}

/// Appends the characters of `b` to `a`.
pub fn append(a: &mut Vec<char>, b: &[char])
    ensures
        final(a)@ == old(a)@ + b@,
{
    let ghost start = a@;
    let mut j: usize = 0;
    while j < b.len()
        invariant
            j <= b@.len(),
            a@ == start + b@.take(j as int),
        decreases b.len() - j,
    {
        a.push(b[j]);
        j += 1;
        assert(a@ =~= start + b@.take(j as int));
    }
    assert(b@.take(b@.len() as int) =~= b@);
}

/// Appends the characters of a string slice to `a`.
pub fn append_str(a: &mut Vec<char>, b: &str)
    ensures
        final(a)@ == old(a)@ + b@,
{
    let v = chars_of(b);
    append(a, &v);
}


// ---------------------------------------------------------------------------
// Splitting
// ---------------------------------------------------------------------------

/// The first index at or after `i` that holds `c`, or the length when there is
/// none.
pub open spec fn next_index_of(s: Seq<char>, c: char, i: int) -> int
    decreases s.len() - i,
{
    if i >= s.len() {
        s.len() as int
    } else if s[i] == c {
        i
    } else {
        next_index_of(s, c, i + 1)
    }
}

pub proof fn lemma_next_index_of(s: Seq<char>, c: char, i: int)
    requires
        0 <= i <= s.len(),
    ensures
        i <= next_index_of(s, c, i) <= s.len(),
        next_index_of(s, c, i) < s.len() ==> s[next_index_of(s, c, i)] == c,
        forall|k: int| i <= k < next_index_of(s, c, i) ==> s[k] != c,
    decreases s.len() - i,
{
    if i < s.len() && s[i] != c {
        lemma_next_index_of(s, c, i + 1);
    }
}

/// Executable form of [`next_index_of`].
pub fn find_char_from(s: &[char], c: char, i: usize) -> (j: usize)
    requires
        i <= s@.len(),
    ensures
        j == next_index_of(s@, c, i as int),
        i <= j <= s@.len(),
{
    let mut j = i;
    while j < s.len() && s[j] != c
        invariant
            i <= j <= s@.len(),
            next_index_of(s@, c, i as int) == next_index_of(s@, c, j as int),
        decreases s.len() - j,
    {
        j += 1;
    }
    j
}

/// The pieces of `s[i..]` between occurrences of `c` (`str::split` with a
/// character pattern); always at least one piece.
pub open spec fn split_from(s: Seq<char>, c: char, i: int) -> Seq<Seq<char>>
    decreases s.len() + 1 - i,
{
    if i < 0 || i > s.len() {
        Seq::empty()
    } else {
        let j = next_index_of(s, c, i);
        if j >= s.len() || j < i {
            seq![s.subrange(i, s.len() as int)]
        } else {
            seq![s.subrange(i, j)] + split_from(s, c, j + 1)
        }
    }
}

/// `str::split(c)` as a sequence of pieces.
pub open spec fn split_seq(s: Seq<char>, c: char) -> Seq<Seq<char>> {
    split_from(s, c, 0)
}

/// Executable form of [`split_seq`].
pub fn split_chars(s: &[char], c: char) -> (r: Vec<Vec<char>>)
    ensures
        r@.map_values(|v: Vec<char>| v@) == split_seq(s@, c),
{
    let mut r: Vec<Vec<char>> = Vec::new();
    let mut i: usize = 0;
    loop
        invariant
            i <= s@.len(),
            r@.map_values(|v: Vec<char>| v@) + split_from(s@, c, i as int) == split_seq(s@, c),
        decreases s@.len() - i,
    {
        proof {
            lemma_next_index_of(s@, c, i as int);
        }
        let j = find_char_from(s, c, i);
        let piece = slice_vec(s, i, j);
        let ghost before = r@.map_values(|v: Vec<char>| v@);
        r.push(piece);
        assert(r@.map_values(|v: Vec<char>| v@) =~= before.push(s@.subrange(i as int, j as int)));
        if j >= s.len() {
            assert(split_from(s@, c, i as int) =~= seq![s@.subrange(i as int, s@.len() as int)]);
            assert(r@.map_values(|v: Vec<char>| v@) =~= before + split_from(s@, c, i as int));
            return r;
        }
        assert(split_from(s@, c, i as int) =~= seq![s@.subrange(i as int, j as int)] + split_from(
            s@,
            c,
            j + 1,
        ));
        assert(r@.map_values(|v: Vec<char>| v@) + split_from(s@, c, j + 1) =~= before
            + split_from(s@, c, i as int));
        i = j + 1;
    }
}

/// `str::splitn(n, c)`: at most `n` pieces, the last holding the remainder.
pub open spec fn splitn_seq(s: Seq<char>, n: nat, c: char) -> Seq<Seq<char>>
    decreases n,
{
    if n == 0 {
        Seq::empty()
    } else if n == 1 {
        seq![s]
    } else {
        let j = next_index_of(s, c, 0);
        if j >= s.len() || j < 0 {
            seq![s]
        } else {
            seq![s.take(j)] + splitn_seq(s.skip(j + 1), (n - 1) as nat, c)
        }
    }
}

/// Executable form of [`splitn_seq`].
pub fn splitn_chars(s: &[char], n: usize, c: char) -> (r: Vec<Vec<char>>)
    ensures
        r@.map_values(|v: Vec<char>| v@) == splitn_seq(s@, n as nat, c),
        r@.len() <= n,
{
    let mut r: Vec<Vec<char>> = Vec::new();
    if n == 0 {
        assert(r@.map_values(|v: Vec<char>| v@) =~= splitn_seq(s@, 0, c));
        return r;
    }
    let mut rest = slice_vec(s, 0, s.len());
    assert(s@.subrange(0, s@.len() as int) =~= s@);
    let mut k: usize = n;
    loop
        invariant
            1 <= k <= n,
            r@.len() + k == n,
            r@.map_values(|v: Vec<char>| v@) + splitn_seq(rest@, k as nat, c) == splitn_seq(
                s@,
                n as nat,
                c,
            ),
        decreases k,
    {
        let ghost before = r@.map_values(|v: Vec<char>| v@);
        if k == 1 {
            r.push(rest);
            assert(r@.map_values(|v: Vec<char>| v@) =~= before + splitn_seq(rest@, 1, c));
            return r;
        }
        proof {
            lemma_next_index_of(rest@, c, 0);
        }
        let j = find_char_from(&rest, c, 0);
        if j >= rest.len() {
            let ghost rv = rest@;
            r.push(rest);
            assert(r@.map_values(|v: Vec<char>| v@) =~= before + splitn_seq(rv, k as nat, c));
            return r;
        }
        let head = slice_vec(&rest, 0, j);
        let tail = slice_vec(&rest, j + 1, rest.len());
        assert(head@ =~= rest@.take(j as int));
        assert(tail@ =~= rest@.skip(j + 1));
        r.push(head);
        assert(splitn_seq(rest@, k as nat, c) =~= seq![rest@.take(j as int)] + splitn_seq(
            rest@.skip(j + 1),
            (k - 1) as nat,
            c,
        ));
        assert(r@.map_values(|v: Vec<char>| v@) + splitn_seq(tail@, (k - 1) as nat, c)
            =~= before + splitn_seq(rest@, k as nat, c));
        rest = tail;
        k = k - 1;
    }
}

/// One line of `str::lines`: the piece before a newline loses a trailing
/// carriage return; the final piece without a newline is kept as it is.
pub open spec fn line_piece(s: Seq<char>, i: int, j: int) -> Seq<char> {
    let raw = s.subrange(i, j);
    if j < s.len() && raw.len() > 0 && raw.last() == '\r' {
        raw.drop_last()
    } else {
        raw
    }
}

/// `str::lines` on `s[i..]`.
pub open spec fn lines_from(s: Seq<char>, i: int) -> Seq<Seq<char>>
    decreases s.len() - i,
{
    if i < 0 || i >= s.len() {
        Seq::empty()
    } else {
        let j = next_index_of(s, '\n', i);
        if j < i {
            Seq::empty()
        } else if j >= s.len() {
            seq![line_piece(s, i, j)]
        } else {
            seq![line_piece(s, i, j)] + lines_from(s, j + 1)
        }
    }
}

/// `str::lines`.
pub open spec fn lines_seq(s: Seq<char>) -> Seq<Seq<char>> {
    lines_from(s, 0)
}

/// Executable form of [`lines_seq`].
pub fn lines_chars(s: &[char]) -> (r: Vec<Vec<char>>)
    ensures
        r@.map_values(|v: Vec<char>| v@) == lines_seq(s@),
{
    let mut r: Vec<Vec<char>> = Vec::new();
    let mut i: usize = 0;
    while i < s.len()
        invariant
            i <= s@.len(),
            r@.map_values(|v: Vec<char>| v@) + lines_from(s@, i as int) == lines_seq(s@),
        decreases s@.len() - i,
    {
        proof {
            lemma_next_index_of(s@, '\n', i as int);
        }
        let j = find_char_from(s, '\n', i);
        let mut piece = slice_vec(s, i, j);
        if j < s.len() && piece.len() > 0 && piece[piece.len() - 1] == '\r' {
            piece.pop();
        }
        assert(piece@ == line_piece(s@, i as int, j as int)) by {
            let raw = s@.subrange(i as int, j as int);
            if j < s@.len() && raw.len() > 0 && raw.last() == '\r' {
                assert(raw.drop_last() =~= piece@);
            }
        }
        let ghost before = r@.map_values(|v: Vec<char>| v@);
        r.push(piece);
        assert(r@.map_values(|v: Vec<char>| v@) =~= before.push(line_piece(s@, i as int, j as int)));
        assert(r@.map_values(|v: Vec<char>| v@) + lines_from(s@, j + 1) =~= before + lines_from(
            s@,
            i as int,
        ));
        if j >= s.len() {
            assert(lines_from(s@, j + 1) =~= Seq::<Seq<char>>::empty());
            assert(r@.map_values(|v: Vec<char>| v@) + Seq::<Seq<char>>::empty() =~= r@.map_values(
                |v: Vec<char>| v@,
            ));
            return r;
        }
        i = j + 1;
    }
    assert(lines_from(s@, i as int) =~= Seq::<Seq<char>>::empty());
    assert(r@.map_values(|v: Vec<char>| v@) + Seq::<Seq<char>>::empty() =~= r@.map_values(
        |v: Vec<char>| v@,
    ));
    r
}

/// The pieces joined with `sep` between consecutive pieces (`[T]::join`).
pub open spec fn join_seq(pieces: Seq<Seq<char>>, sep: Seq<char>) -> Seq<char>
    decreases pieces.len(),
{
    if pieces.len() == 0 {
        Seq::empty()
    } else if pieces.len() == 1 {
        pieces[0]
    } else {
        join_seq(pieces.drop_last(), sep) + sep + pieces.last()
    }
}

/// Executable form of [`join_seq`].
pub fn join_chars(pieces: &Vec<Vec<char>>, sep: &[char]) -> (r: Vec<char>)
    ensures
        r@ == join_seq(pieces@.map_values(|v: Vec<char>| v@), sep@),
{
    let ghost ps = pieces@.map_values(|v: Vec<char>| v@);
    let mut r: Vec<char> = Vec::new();
    let mut i: usize = 0;
    while i < pieces.len()
        invariant
            i <= pieces@.len(),
            ps == pieces@.map_values(|v: Vec<char>| v@),
            r@ == join_seq(ps.take(i as int), sep@),
        decreases pieces.len() - i,
    {
        assert(ps.take(i + 1).drop_last() =~= ps.take(i as int));
        if i > 0 {
            append(&mut r, sep);
        }
        append(&mut r, &pieces[i]);
        i += 1;
        proof {
            if i == 1 {
                assert(r@ =~= ps.take(1)[0]);
            }
        }
    }
    assert(ps.take(pieces@.len() as int) =~= ps);
    r
}

// ---------------------------------------------------------------------------
// Optional strings
// ---------------------------------------------------------------------------

/// The text of an optional `String`.
pub open spec fn opt_view(o: Option<String>) -> Option<Seq<char>> {
    match o {
        Some(s) => Some(s@),
        None => None,
    }
}

/// A copy of an optional `String`.
pub fn clone_opt(o: &Option<String>) -> (r: Option<String>)
    ensures
        opt_view(r) == opt_view(*o),
{
    match o {
        Some(s) => Some(s.clone()),
        None => None,
    }
}

/// Whether two optional strings hold the same text.
pub fn opt_equal(a: &Option<String>, b: &Option<String>) -> (r: bool)
    ensures
        r == (opt_view(*a) == opt_view(*b)),
{
    match (a, b) {
        (Some(x), Some(y)) => str_equal(x.as_str(), y.as_str()),
        (None, None) => true,
        _ => false,
    }
}

/// Whether the characters spell the literal.
pub fn chars_are(s: &[char], lit: &str) -> (r: bool)
    ensures
        r == (s@ == lit@),
{
    let l = chars_of(lit);
    seq_equal(s, &l)
}

// ---------------------------------------------------------------------------
// Last separator
// ---------------------------------------------------------------------------

/// What follows the last `c` in `s`, or all of `s` when `c` does not occur
/// (the first piece `str::rsplit` gives).
pub open spec fn after_last(s: Seq<char>, c: char) -> Seq<char>
    decreases s.len(),
{
    if s.len() == 0 {
        s
    } else if s.last() == c {
        Seq::empty()
    } else {
        after_last(s.drop_last(), c).push(s.last())
    }
}

pub fn after_last_exec(s: &[char], c: char) -> (r: Vec<char>)
    ensures
        r@ == after_last(s@, c),
{
    let mut k = s.len();
    proof {
        assert(s@.take(s@.len() as int) =~= s@);
        assert(after_last(s@, c) + s@.skip(s@.len() as int) =~= after_last(s@, c));
    }
    while k > 0 && s[k - 1] != c
        invariant
            k <= s@.len(),
            after_last(s@, c) == after_last(s@.take(k as int), c) + s@.skip(k as int),
        decreases k,
    {
        assert(s@.take(k as int).drop_last() =~= s@.take(k - 1));
        assert(after_last(s@.take(k - 1), c) + s@.skip(k - 1) =~= after_last(s@.take(k - 1), c).push(
            s@[k - 1],
        ) + s@.skip(k as int));
        k -= 1;
    }
    assert(after_last(s@.take(k as int), c) =~= Seq::<char>::empty());
    assert(s@.skip(k as int) =~= s@.subrange(k as int, s@.len() as int));
    slice_vec(s, k, s.len())
}

/// The first index of `c` in `s`, if any.
pub open spec fn first_index_of(s: Seq<char>, c: char, i: int) -> Option<int>
    decreases s.len() - i,
{
    if i < 0 || i >= s.len() {
        None
    } else if s[i] == c {
        Some(i)
    } else {
        first_index_of(s, c, i + 1)
    }
}

pub proof fn lemma_first_index_of(s: Seq<char>, c: char, i: int)
    ensures
        first_index_of(s, c, i) matches Some(e) ==> 0 <= i <= e < s.len() && s[e] == c,
    decreases s.len() - i,
{
    if 0 <= i < s.len() && s[i] != c {
        lemma_first_index_of(s, c, i + 1);
    }
}

/// Executable form of [`first_index_of`] from the start.
pub fn first_index_of_exec(s: &[char], c: char) -> (r: Option<usize>)
    ensures
        match r {
            Some(k) => first_index_of(s@, c, 0) == Some(k as int) && k < s@.len(),
            None => first_index_of(s@, c, 0) is None,
        },
{
    let mut k: usize = 0;
    while k < s.len()
        invariant
            k <= s@.len(),
            first_index_of(s@, c, 0) == first_index_of(s@, c, k as int),
        decreases s.len() - k,
    {
        if s[k] == c {
            return Some(k);
        }
        k += 1;
    }
    None
}

// ---------------------------------------------------------------------------
// Unicode case
// ---------------------------------------------------------------------------

/// The Unicode upper-case form of a text, as std's `str::to_uppercase`
/// gives it.
pub uninterp spec fn unicode_upper(s: Seq<char>) -> Seq<char>;

/// Trusted: std's `str::to_uppercase`, whose result (the Unicode upper-case
/// mapping) depends on the text alone; nothing more is stated of it.
#[verifier::external_body]
pub(crate) fn to_uppercase_text(s: &str) -> (r: String)
    ensures
        r@ == unicode_upper(s@),
{
    s.to_uppercase()
}

/// The Unicode lower-case form of a character (one or more characters), as
/// std's `char::to_lowercase` gives it.
pub uninterp spec fn unicode_lower_char(c: char) -> Seq<char>;

/// Trusted: std's `char::to_lowercase`, collected; its result (the Unicode
/// lower-case mapping of the character) depends on the character alone.
#[verifier::external_body]
pub(crate) fn lowercase_char(c: char) -> (r: Vec<char>)
    ensures
        r@ == unicode_lower_char(c),
{
    c.to_lowercase().collect()
}

/// Whether a character is alphabetic or numeric in Unicode, as std's
/// `char::is_alphanumeric` tells.
pub uninterp spec fn unicode_alphanumeric(c: char) -> bool;

/// Trusted: std's `char::is_alphanumeric`, a property of the character
/// alone.
#[verifier::external_body]
pub(crate) fn is_alphanumeric_char(c: char) -> (r: bool)
    ensures
        r == unicode_alphanumeric(c),
{
    c.is_alphanumeric()
}

/// The Unicode lower-case form of a text, as std's `str::to_lowercase`
/// gives it.
pub uninterp spec fn unicode_lower(s: Seq<char>) -> Seq<char>;

/// Trusted: std's `str::to_lowercase`, whose result depends on the text
/// alone.
#[verifier::external_body]
pub(crate) fn to_lowercase_text(s: &str) -> (r: String)
    ensures
        r@ == unicode_lower(s@),
{
    s.to_lowercase()
}

// ---------------------------------------------------------------------------
// Text order
// ---------------------------------------------------------------------------

/// Whether `a` comes strictly before `b` lexicographically by character.
pub open spec fn text_less(a: Seq<char>, b: Seq<char>) -> bool
    decreases a.len(),
{
    if b.len() == 0 {
        false
    } else if a.len() == 0 {
        true
    } else if a[0] != b[0] {
        a[0] < b[0]
    } else {
        text_less(a.drop_first(), b.drop_first())
    }
}

/// Whether `x` comes strictly before `y` (see [`text_less`]).
pub fn text_less_exec(x: &[char], y: &[char]) -> (r: bool)
    ensures
        r == text_less(x@, y@),
{
    let mut i: usize = 0;
    assert(x@.skip(0) =~= x@);
    assert(y@.skip(0) =~= y@);
    while i < x.len() && i < y.len() && x[i] == y[i]
        invariant
            i <= x@.len(),
            i <= y@.len(),
            text_less(x@, y@) == text_less(x@.skip(i as int), y@.skip(i as int)),
        decreases x.len() - i,
    {
        assert(x@.skip(i as int).drop_first() =~= x@.skip(i + 1));
        assert(y@.skip(i as int).drop_first() =~= y@.skip(i + 1));
        i += 1;
    }
    if i == y.len() {
        false
    } else if i == x.len() {
        true
    } else {
        assert(x@.skip(i as int)[0] == x@[i as int]);
        assert(y@.skip(i as int)[0] == y@[i as int]);
        x[i] < y[i]
    }
}

/// The text order is asymmetric and total.
pub proof fn lemma_text_less_asymmetric(a: Seq<char>, b: Seq<char>)
    ensures
        !(text_less(a, b) && text_less(b, a)),
        a != b ==> text_less(a, b) || text_less(b, a),
    decreases a.len(),
{
    if a.len() > 0 && b.len() > 0 && a[0] == b[0] {
        lemma_text_less_asymmetric(a.drop_first(), b.drop_first());
        if a != b {
            assert(a.drop_first() != b.drop_first()) by {
                if a.drop_first() == b.drop_first() {
                    assert(a =~= seq![a[0]] + a.drop_first());
                    assert(b =~= seq![b[0]] + b.drop_first());
                }
            }
        }
    } else if a.len() == 0 && b.len() == 0 {
        assert(a =~= b);
    }
}

/// The text order is transitive.
pub proof fn lemma_text_less_transitive(a: Seq<char>, b: Seq<char>, c: Seq<char>)
    requires
        text_less(a, b),
        text_less(b, c),
    ensures
        text_less(a, c),
    decreases a.len(),
{
    if a.len() > 0 && b.len() > 0 && c.len() > 0 && a[0] == b[0] && b[0] == c[0] {
        lemma_text_less_transitive(a.drop_first(), b.drop_first(), c.drop_first());
    }
}


/// The digit of a value below ten is a digit with that value.
pub proof fn lemma_digit_char(d: nat)
    requires
        d < 10,
    ensures
        is_digit(digit_char(d)),
        digit_value(digit_char(d)) == d,
{
}

/// The decimal digits of `n` are digits with value `n`.
pub proof fn lemma_decimal_digits_value(n: nat)
    ensures
        all_digits(decimal_digits(n)),
        decimal_value(decimal_digits(n)) == n,
        decimal_digits(n).len() >= 1,
    decreases n,
{
    if n < 10 {
        lemma_digit_char(n);
        assert(seq![digit_char(n)].drop_last() =~= Seq::<char>::empty());
        assert(decimal_value(Seq::<char>::empty()) == 0);
        assert(decimal_value(seq![digit_char(n)]) == decimal_value(Seq::<char>::empty()) * 10 + digit_value(
            digit_char(n),
        ));
    } else {
        lemma_decimal_digits_value(n / 10);
        lemma_digit_char(n % 10);
        let d = decimal_digits(n / 10).push(digit_char(n % 10));
        assert(d.drop_last() =~= decimal_digits(n / 10));
        assert(decimal_value(d) == decimal_value(decimal_digits(n / 10)) * 10 + digit_value(digit_char(n % 10)));
        assert(decimal_value(d) == n);
        assert forall|i: int| 0 <= i < d.len() implies is_digit(#[trigger] d[i]) by {
            if i < d.len() - 1 {
                assert(d[i] == decimal_digits(n / 10)[i]);
            }
        }
    }
}

/// Leading zeros do not change a value.
pub proof fn lemma_leading_zeros_value(k: nat, s: Seq<char>)
    ensures
        decimal_value(Seq::new(k, |i: int| '0') + s) == decimal_value(s),
    decreases s.len(), k,
{
    let z = Seq::new(k, |i: int| '0');
    if s.len() == 0 {
        assert(z + s =~= z);
        if k > 0 {
            assert(z.drop_last() =~= Seq::new((k - 1) as nat, |i: int| '0'));
            lemma_leading_zeros_value((k - 1) as nat, s);
            assert(Seq::new((k - 1) as nat, |i: int| '0') + s =~= Seq::new((k - 1) as nat, |i: int| '0'));
        }
    } else {
        assert((z + s).drop_last() =~= z + s.drop_last());
        assert((z + s).last() == s.last());
        lemma_leading_zeros_value(k, s.drop_last());
    }
}

/// A zero-padded number is a non-empty digit string of that value.
pub proof fn lemma_zero_padded_value(n: nat, width: nat)
    ensures
        all_digits(zero_padded(n, width)),
        decimal_value(zero_padded(n, width)) == n,
        zero_padded(n, width).len() >= 1,
{
    lemma_decimal_digits_value(n);
    let d = decimal_digits(n);
    if d.len() < width {
        let z = Seq::new((width - d.len()) as nat, |i: int| '0');
        lemma_leading_zeros_value((width - d.len()) as nat, d);
        assert forall|i: int| 0 <= i < (z + d).len() implies is_digit(#[trigger] (z + d)[i]) by {
            if i >= z.len() {
                assert((z + d)[i] == d[i - z.len()]);
            }
        }
    }
}

} // verus!

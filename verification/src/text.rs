//! Character-level primitives shared by the caption, prompt and profile logic.
//!
//! Text is modelled as `Seq<char>`; executable code works on `Vec<char>` and
//! converts at the boundary with `chars_of` and `string_of`.
use vstd::prelude::*;
use vstd::std_specs::iter::IteratorSpec;

verus! {

// ---------------------------------------------------------------------------
// Unicode character properties (std `char` methods)
// ---------------------------------------------------------------------------

/// Whether a character beyond ASCII has the Unicode White_Space property.
pub uninterp spec fn unicode_white_space(c: char) -> bool;

/// Whether `c` has the Unicode White_Space property (`char::is_whitespace`):
/// in ASCII, exactly tab, line feed, vertical tab, form feed, carriage return
/// and space (U+0009 to U+000D and U+0020).
pub open spec fn char_is_whitespace(c: char) -> bool {
    if (c as u32) < 0x80 {
        c == ' ' || ('\t' <= c && c <= '\r')
    } else {
        unicode_white_space(c)
    }
}

/// Whether `c` is alphabetic or numeric (`char::is_alphanumeric`).
pub uninterp spec fn char_is_alphanumeric(c: char) -> bool;

/// The full lowercase mapping of `c` (`char::to_lowercase`).
pub uninterp spec fn char_lowercase(c: char) -> Seq<char>;

/// std `char::is_whitespace`. Trusted: the result is the White_Space
/// property that its documentation names (Unicode's PropList.txt); in ASCII
/// that property holds for U+0009 to U+000D and U+0020 only, and U+00A0 (a
/// documented example) has it. Which other characters beyond ASCII have it
/// is left to the name.
#[verifier::external_body]
pub(crate) fn is_whitespace(c: char) -> (r: bool)
    ensures
        (c as u32) < 0x80 ==> (r <==> (c == ' ' || ('\t' <= c && c <= '\r'))),
        (c as u32) >= 0x80 ==> r == unicode_white_space(c),
        c == '\u{A0}' ==> r,
{
    c.is_whitespace()
}

/// std `char::is_alphanumeric`. Trusted: the result is the named property
/// of `c` (alphabetic or numeric); in ASCII exactly the letters and digits
/// have it. Which characters beyond ASCII have it is left to the name.
#[verifier::external_body]
pub(crate) fn is_alphanumeric(c: char) -> (r: bool)
    ensures
        r == char_is_alphanumeric(c),
        (c as u32) < 0x80 ==> (r <==> (('a' <= c && c <= 'z') || ('A' <= c && c <= 'Z') || ('0'
            <= c && c <= '9'))),
{
    c.is_alphanumeric()
}

/// std `char::to_lowercase`, collected. Trusted: the characters are the
/// lowercase mapping of `c`, which the documentation says is one or more
/// chars; an ASCII character maps to its ASCII lowercase alone (an uppercase
/// letter moves by 32, every other ASCII character stays).
#[verifier::external_body]
pub(crate) fn lowercase_of(c: char) -> (r: Vec<char>)
    ensures
        r@ == char_lowercase(c),
        r@.len() >= 1,
        (c as u32) < 0x80 ==> r@ == seq![ascii_lower(c)],
{
    c.to_lowercase().collect()
}

/// std `String::push`. Trusted: the result is the old contents followed by `c`.
#[verifier::external_body]
pub(crate) fn push_char(s: &mut String, c: char)
    ensures
        final(s)@ == old(s)@.push(c),
{
    s.push(c);
}

// ---------------------------------------------------------------------------
// Conversions
// ---------------------------------------------------------------------------

/// The characters of `s`, in order.
pub fn chars_of(s: &str) -> (r: Vec<char>)
    ensures
        r@ == s@,
{
    let mut out: Vec<char> = Vec::new();
    for c in it: s.chars()
        invariant
            out@ == it.seq().take(it.index() as int),
            it.seq() == s@,
    {
        out.push(c);
    }
    out
}

/// A `String` holding exactly the characters of `v`.
pub fn string_of(v: &[char]) -> (r: String)
    ensures
        r@ == v@,
{
    let mut out = String::new();
    let mut i: usize = 0;
    while i < v.len()
        invariant
            i <= v@.len(),
            out@ == v@.take(i as int),
        decreases v@.len() - i,
    {
        push_char(&mut out, v[i]);
        assert(v@.take(i as int + 1) == v@.take(i as int).push(v@[i as int]));
        i = i + 1;
    }
    assert(v@.take(v@.len() as int) == v@);
    out
}

// ---------------------------------------------------------------------------
// Sequence helpers
// ---------------------------------------------------------------------------

/// Appends all characters of `s` to `out`.
pub fn append_chars(out: &mut Vec<char>, s: &[char])
    ensures
        final(out)@ == old(out)@ + s@,
{
    let ghost start = out@;
    let mut i: usize = 0;
    while i < s.len()
        invariant
            i <= s@.len(),
            out@ == start + s@.take(i as int),
        decreases s@.len() - i,
    {
        out.push(s[i]);
        assert(s@.take(i as int + 1) == s@.take(i as int).push(s@[i as int]));
        i = i + 1;
    }
    assert(s@.take(s@.len() as int) == s@);
}

/// The characters `s[from..to]`.
pub fn sub_chars(s: &[char], from: usize, to: usize) -> (r: Vec<char>)
    requires
        from <= to <= s@.len(),
    ensures
        r@ == s@.subrange(from as int, to as int),
{
    let mut out: Vec<char> = Vec::new();
    let mut i: usize = from;
    while i < to
        invariant
            from <= i <= to <= s@.len(),
            out@ == s@.subrange(from as int, i as int),
        decreases to - i,
    {
        out.push(s[i]);
        assert(s@.subrange(from as int, i as int + 1) == s@.subrange(from as int, i as int).push(
            s@[i as int],
        ));
        i = i + 1;
    }
    out
}

/// A copy of `s`.
pub fn copy_chars(s: &[char]) -> (r: Vec<char>)
    ensures
        r@ == s@,
{
    let r = sub_chars(s, 0, s.len());
    assert(s@.subrange(0, s@.len() as int) == s@);
    r
}

/// Whether the two character sequences are equal.
pub fn chars_eq(a: &[char], b: &[char]) -> (r: bool)
    ensures
        r == (a@ == b@),
{
    if a.len() != b.len() {
        return false;
    }
    let mut i: usize = 0;
    while i < a.len()
        invariant
            a@.len() == b@.len(),
            i <= a@.len(),
            forall|j: int| 0 <= j < i ==> a@[j] == b@[j],
        decreases a@.len() - i,
    {
        if a[i] != b[i] {
            return false;
        }
        i = i + 1;
    }
    assert(a@ =~= b@);
    true
}

/// Whether the two strings hold the same characters.
pub fn str_eq(a: &str, b: &str) -> (r: bool)
    ensures
        r == (a@ == b@),
{
    let x = chars_of(a);
    let y = chars_of(b);
    chars_eq(&x, &y)
}

/// `prefix`, then `middle`, then `suffix`.
pub fn surround(prefix: &str, middle: &[char], suffix: &str) -> (r: Vec<char>)
    ensures
        r@ == prefix@ + middle@ + suffix@,
{
    let mut out = chars_of(prefix);
    append_chars(&mut out, middle);
    let tail = chars_of(suffix);
    append_chars(&mut out, &tail);
    out
}

/// Whether `p` occurs in `s` (`str::contains`).
pub open spec fn contains_text(s: Seq<char>, p: Seq<char>) -> bool {
    exists|i: int| 0 <= i && i + p.len() <= s.len() && #[trigger] s.subrange(i, i + p.len()) == p
}

/// See `contains_text`.
pub fn contains_chars(s: &[char], p: &[char]) -> (r: bool)
    ensures
        r == contains_text(s@, p@),
{
    if p.len() > s.len() {
        return false;
    }
    let n = s.len();
    let last = n - p.len();
    let mut i: usize = 0;
    while i <= last
        invariant
            n == s@.len(),
            p@.len() <= s@.len(),
            last == s@.len() - p@.len(),
            i <= last + 1,
            forall|k: int| 0 <= k < i ==> #[trigger] s@.subrange(k, k + p@.len()) != p@,
        decreases last + 1 - i,
    {
        let piece = sub_chars(s, i, i + p.len());
        if chars_eq(&piece, p) {
            return true;
        }
        if i == last {
            assert forall|k: int| 0 <= k && k + p@.len() <= s@.len() implies #[trigger] s@.subrange(
                k,
                k + p@.len(),
            ) != p@ by {
                assert(k <= last);
            }
            return false;
        }
        i = i + 1;
    }
    false
}

/// Whether `s` begins with `p`.
pub fn starts_with(s: &[char], p: &[char]) -> (r: bool)
    ensures
        r == p@.is_prefix_of(s@),
{
    if p.len() > s.len() {
        return false;
    }
    let mut i: usize = 0;
    while i < p.len()
        invariant
            p@.len() <= s@.len(),
            i <= p@.len(),
            forall|j: int| 0 <= j < i ==> p@[j] == s@[j],
        decreases p@.len() - i,
    {
        if p[i] != s[i] {
            assert(s@.subrange(0, p@.len() as int)[i as int] == s@[i as int]);
            return false;
        }
        i = i + 1;
    }
    assert(p@ =~= s@.subrange(0, p@.len() as int));
    true
}

/// Whether `s` ends with `p`.
pub fn ends_with(s: &[char], p: &[char]) -> (r: bool)
    ensures
        r == p@.is_suffix_of(s@),
{
    if p.len() > s.len() {
        return false;
    }
    let off = s.len() - p.len();
    let mut i: usize = 0;
    while i < p.len()
        invariant
            p@.len() <= s@.len(),
            off == s@.len() - p@.len(),
            off + p@.len() == s@.len(),
            s@.len() <= usize::MAX,
            i <= p@.len(),
            forall|j: int| 0 <= j < i ==> p@[j] == s@[off + j],
        decreases p@.len() - i,
    {
        if p[i] != s[off + i] {
            assert(s@.subrange(off as int, s@.len() as int)[i as int] == s@[off + i]);
            return false;
        }
        i = i + 1;
    }
    assert(p@ =~= s@.subrange(off as int, s@.len() as int));
    true
}

// ---------------------------------------------------------------------------
// Trimming
// ---------------------------------------------------------------------------

/// The character classes that the library trims.
#[derive(Clone, Copy)]
pub enum CharClass {
    /// Unicode whitespace (`str::trim`).
    Whitespace,
    /// Whitespace and the caption decorations `-`, `>`, `:` and `|`.
    LineDecoration,
    /// Everything that is not alphanumeric.
    NonAlphanumeric,
}

pub open spec fn in_class(k: CharClass, c: char) -> bool {
    match k {
        CharClass::Whitespace => char_is_whitespace(c),
        CharClass::LineDecoration => char_is_whitespace(c) || c == '-' || c == '>' || c == ':'
            || c == '|',
        CharClass::NonAlphanumeric => !char_is_alphanumeric(c),
    }
}

/// `s` without its leading characters of class `k`.
pub open spec fn trim_start_class(s: Seq<char>, k: CharClass) -> Seq<char>
    decreases s.len(),
{
    if s.len() > 0 && in_class(k, s[0]) {
        trim_start_class(s.drop_first(), k)
    } else {
        s
    }
}

/// `s` without its trailing characters of class `k`.
pub open spec fn trim_end_class(s: Seq<char>, k: CharClass) -> Seq<char>
    decreases s.len(),
{
    if s.len() > 0 && in_class(k, s.last()) {
        trim_end_class(s.drop_last(), k)
    } else {
        s
    }
}

/// `s` without leading and trailing characters of class `k` (`str::trim_matches`).
pub open spec fn trim_class(s: Seq<char>, k: CharClass) -> Seq<char> {
    trim_end_class(trim_start_class(s, k), k)
}

/// `s` without leading and trailing whitespace (`str::trim`).
pub open spec fn trim(s: Seq<char>) -> Seq<char> {
    trim_class(s, CharClass::Whitespace)
}

pub fn char_in_class(k: CharClass, c: char) -> (r: bool)
    ensures
        r == in_class(k, c),
{
    match k {
        CharClass::Whitespace => is_whitespace(c),
        CharClass::LineDecoration => is_whitespace(c) || c == '-' || c == '>' || c == ':' || c
            == '|',
        CharClass::NonAlphanumeric => !is_alphanumeric(c),
    }
}

proof fn lemma_trim_start_skip(s: Seq<char>, k: CharClass, i: int)
    requires
        0 <= i < s.len(),
        in_class(k, s[i]),
    ensures
        trim_start_class(s.skip(i), k) == trim_start_class(s.skip(i + 1), k),
{
    assert(s.skip(i).drop_first() =~= s.skip(i + 1));
}

proof fn lemma_trim_end_sub(s: Seq<char>, k: CharClass, i: int, j: int)
    requires
        0 <= i < j <= s.len(),
        in_class(k, s[j - 1]),
    ensures
        trim_end_class(s.subrange(i, j), k) == trim_end_class(s.subrange(i, j - 1), k),
{
    assert(s.subrange(i, j).drop_last() =~= s.subrange(i, j - 1));
}

/// Removes leading and trailing characters of class `k`.
pub fn trim_chars_class(s: &[char], k: CharClass) -> (r: Vec<char>)
    ensures
        r@ == trim_class(s@, k),
{
    let n = s.len();
    let mut i: usize = 0;
    assert(s@.skip(0) =~= s@);
    while i < n && char_in_class(k, s[i])
        invariant
            n == s@.len(),
            i <= n,
            trim_start_class(s@, k) == trim_start_class(s@.skip(i as int), k),
        decreases n - i,
    {
        proof {
            lemma_trim_start_skip(s@, k, i as int);
        }
        i = i + 1;
    }
    assert(trim_start_class(s@, k) == s@.skip(i as int)) by {
        if i < n {
            assert(s@.skip(i as int)[0] == s@[i as int]);
        } else {
            assert(s@.skip(i as int).len() == 0);
        }
    }
    assert(s@.skip(i as int) =~= s@.subrange(i as int, n as int));
    let mut j: usize = n;
    while j > i && char_in_class(k, s[j - 1])
        invariant
            n == s@.len(),
            i <= j <= n,
            trim_end_class(s@.subrange(i as int, n as int), k) == trim_end_class(
                s@.subrange(i as int, j as int),
                k,
            ),
        decreases j - i,
    {
        proof {
            lemma_trim_end_sub(s@, k, i as int, j as int);
        }
        j = j - 1;
    }
    assert(trim_end_class(s@.subrange(i as int, j as int), k) == s@.subrange(
        i as int,
        j as int,
    )) by {
        if j > i {
            assert(s@.subrange(i as int, j as int).last() == s@[j - 1]);
        }
    }
    sub_chars(s, i, j)
}

/// Removes leading and trailing whitespace (`str::trim`).
pub fn trim_chars(s: &[char]) -> (r: Vec<char>)
    ensures
        r@ == trim(s@),
{
    trim_chars_class(s, CharClass::Whitespace)
}

/// `items` joined by `sep` (`[T]::join`).
pub open spec fn join_with(items: Seq<Seq<char>>, sep: Seq<char>) -> Seq<char>
    decreases items.len(),
{
    if items.len() == 0 {
        Seq::empty()
    } else if items.len() == 1 {
        items[0]
    } else {
        join_with(items.drop_last(), sep) + sep + items.last()
    }
}

pub open spec fn char_rows(v: Seq<Vec<char>>) -> Seq<Seq<char>> {
    Seq::new(v.len(), |i: int| v[i]@)
}

/// The rows joined by `sep`.
pub fn join_chars(items: &Vec<Vec<char>>, sep: &[char]) -> (r: Vec<char>)
    ensures
        r@ == join_with(char_rows(items@), sep@),
{
    let ghost rows = char_rows(items@);
    let mut out: Vec<char> = Vec::new();
    if items.len() == 0 {
        return out;
    }
    append_chars(&mut out, &items[0]);
    assert(rows.take(1) =~= seq![rows[0]]);
    let mut i: usize = 1;
    while i < items.len()
        invariant
            rows == char_rows(items@),
            1 <= i <= items@.len(),
            out@ == join_with(rows.take(i as int), sep@),
        decreases items@.len() - i,
    {
        assert(rows.take(i as int + 1).drop_last() =~= rows.take(i as int));
        append_chars(&mut out, sep);
        append_chars(&mut out, &items[i]);
        i = i + 1;
    }
    assert(rows.take(items@.len() as int) =~= rows);
    out
}

// ---------------------------------------------------------------------------
// ASCII case mapping
// ---------------------------------------------------------------------------

/// ASCII lowercase of one character (`char::to_ascii_lowercase`).
pub open spec fn ascii_lower(c: char) -> char {
    if 'A' <= c && c <= 'Z' {
        ((c as u32) + 32) as char
    } else {
        c
    }
}

/// ASCII uppercase of one character (`char::to_ascii_uppercase`).
pub open spec fn ascii_upper(c: char) -> char {
    if 'a' <= c && c <= 'z' {
        ((c as u32) - 32) as char
    } else {
        c
    }
}

pub open spec fn ascii_lower_seq(s: Seq<char>) -> Seq<char> {
    Seq::new(s.len(), |i: int| ascii_lower(s[i]))
}

pub open spec fn ascii_upper_seq(s: Seq<char>) -> Seq<char> {
    Seq::new(s.len(), |i: int| ascii_upper(s[i]))
}

pub fn to_ascii_lower(c: char) -> (r: char)
    ensures
        r == ascii_lower(c),
{
    if 'A' <= c && c <= 'Z' {
        let b = (c as u8) + 32;
        b as char
    } else {
        c
    }
}

pub fn to_ascii_upper(c: char) -> (r: char)
    ensures
        r == ascii_upper(c),
{
    if 'a' <= c && c <= 'z' {
        let b = (c as u8) - 32;
        b as char
    } else {
        c
    }
}

pub fn ascii_lower_chars(s: &[char]) -> (r: Vec<char>)
    ensures
        r@ == ascii_lower_seq(s@),
{
    let mut out: Vec<char> = Vec::new();
    let mut i: usize = 0;
    while i < s.len()
        invariant
            i <= s@.len(),
            out@ =~= ascii_lower_seq(s@.take(i as int)),
        decreases s@.len() - i,
    {
        out.push(to_ascii_lower(s[i]));
        i = i + 1;
    }
    assert(s@.take(s@.len() as int) =~= s@);
    out
}

pub fn ascii_upper_chars(s: &[char]) -> (r: Vec<char>)
    ensures
        r@ == ascii_upper_seq(s@),
{
    let mut out: Vec<char> = Vec::new();
    let mut i: usize = 0;
    while i < s.len()
        invariant
            i <= s@.len(),
            out@ =~= ascii_upper_seq(s@.take(i as int)),
        decreases s@.len() - i,
    {
        out.push(to_ascii_upper(s[i]));
        i = i + 1;
    }
    assert(s@.take(s@.len() as int) =~= s@);
    out
}

} // verus!

verus! {

// ---------------------------------------------------------------------------
// Facts about trimming
// ---------------------------------------------------------------------------

/// Trimming the start removes a prefix, and what remains does not start with
/// a character of the class.
pub proof fn lemma_trim_start_shape(s: Seq<char>, k: CharClass)
    ensures
        trim_start_class(s, k).is_suffix_of(s),
        trim_start_class(s, k).len() > 0 ==> !in_class(k, trim_start_class(s, k)[0]),
    decreases s.len(),
{
    if s.len() > 0 && in_class(k, s[0]) {
        lemma_trim_start_shape(s.drop_first(), k);
        let t = trim_start_class(s.drop_first(), k);
        assert(s.subrange(s.len() - t.len(), s.len() as int) =~= s.drop_first().subrange(
            s.drop_first().len() - t.len(),
            s.drop_first().len() as int,
        ));
    } else {
        assert(s.subrange(0, s.len() as int) =~= s);
    }
}

/// Trimming the end removes a suffix, and what remains does not end with a
/// character of the class.
pub proof fn lemma_trim_end_shape(s: Seq<char>, k: CharClass)
    ensures
        trim_end_class(s, k).is_prefix_of(s),
        trim_end_class(s, k).len() > 0 ==> !in_class(k, trim_end_class(s, k).last()),
    decreases s.len(),
{
    if s.len() > 0 && in_class(k, s.last()) {
        lemma_trim_end_shape(s.drop_last(), k);
        let t = trim_end_class(s.drop_last(), k);
        assert(s.subrange(0, t.len() as int) =~= s.drop_last().subrange(0, t.len() as int));
    } else {
        assert(s.subrange(0, s.len() as int) =~= s);
    }
}

/// A sequence that neither starts nor ends with a character of the class is
/// left as it is.
pub proof fn lemma_trim_noop(s: Seq<char>, k: CharClass)
    requires
        s.len() > 0 ==> !in_class(k, s[0]) && !in_class(k, s.last()),
    ensures
        trim_class(s, k) == s,
{
}

/// What trimming leaves neither starts nor ends with a character of the class.
pub proof fn lemma_trim_shape(s: Seq<char>, k: CharClass)
    ensures
        trim_class(s, k).len() > 0 ==> !in_class(k, trim_class(s, k)[0]) && !in_class(
            k,
            trim_class(s, k).last(),
        ),
        trim_class(s, k).len() <= s.len(),
{
    let a = trim_start_class(s, k);
    lemma_trim_start_shape(s, k);
    lemma_trim_end_shape(a, k);
    let b = trim_end_class(a, k);
    if b.len() > 0 {
        assert(b[0] == a[0]);
    }
}

/// Trimming twice is trimming once.
pub proof fn lemma_trim_idempotent(s: Seq<char>, k: CharClass)
    ensures
        trim_class(trim_class(s, k), k) == trim_class(s, k),
{
    lemma_trim_shape(s, k);
    lemma_trim_noop(trim_class(s, k), k);
}

} // verus!

//! Cleanup of raw Live Captions text: artifact removal, whitespace
//! normalisation, line splitting and duplicate-line removal.
use vstd::prelude::*;

use crate::text::{
    append_chars, ascii_lower_chars, ascii_lower_seq, char_is_whitespace, chars_eq, chars_of,
    is_whitespace, string_of, trim, trim_chars, trim_chars_class, trim_class, trim_start_class,
    CharClass,
};

verus! {

// ---------------------------------------------------------------------------
// Whitespace collapsing (`split_whitespace().join(" ")`)
// ---------------------------------------------------------------------------

/// Scans `s` left to right: the words seen so far joined by single spaces, and
/// whether the last character was whitespace (or nothing was seen).
pub open spec fn collapse_state(s: Seq<char>) -> (Seq<char>, bool)
    decreases s.len(),
{
    if s.len() == 0 {
        (Seq::empty(), true)
    } else {
        let (out, gap) = collapse_state(s.drop_last());
        let c = s.last();
        if char_is_whitespace(c) {
            (out, true)
        } else if gap && out.len() > 0 {
            (out.push(' ').push(c), false)
        } else {
            (out.push(c), false)
        }
    }
}

/// The whitespace-separated words of `s` joined by single spaces.
pub open spec fn collapse_whitespace(s: Seq<char>) -> Seq<char> {
    collapse_state(s).0
}

pub fn collapse_whitespace_chars(s: &[char]) -> (r: Vec<char>)
    ensures
        r@ == collapse_whitespace(s@),
{
    let mut out: Vec<char> = Vec::new();
    let mut gap = true;
    let mut i: usize = 0;
    assert(s@.take(0) =~= Seq::<char>::empty());
    while i < s.len()
        invariant
            i <= s@.len(),
            (out@, gap) == collapse_state(s@.take(i as int)),
        decreases s@.len() - i,
    {
        let c = s[i];
        assert(s@.take(i as int + 1).drop_last() =~= s@.take(i as int));
        if is_whitespace(c) {
            gap = true;
        } else {
            if gap && out.len() > 0 {
                out.push(' ');
            }
            out.push(c);
            gap = false;
        }
        i = i + 1;
    }
    assert(s@.take(s@.len() as int) =~= s@);
    out
}

/// `str::split_whitespace` joined by single spaces.
pub fn sanitize_caption_text(text: &str) -> (r: String)
    ensures
        r@ == collapse_whitespace(text@),
{
    let chars = chars_of(text);
    let out = collapse_whitespace_chars(&chars);
    string_of(&out)
}

// ---------------------------------------------------------------------------
// Replacement
// ---------------------------------------------------------------------------

/// Left-to-right, non-overlapping replacement of the non-empty `pat` by `rep`
/// (`str::replace`).
pub open spec fn replace_all(s: Seq<char>, pat: Seq<char>, rep: Seq<char>) -> Seq<char>
    decreases s.len(),
{
    if s.len() == 0 {
        s
    } else if pat.len() > 0 && pat.is_prefix_of(s) {
        rep + replace_all(s.skip(pat.len() as int), pat, rep)
    } else {
        seq![s[0]] + replace_all(s.drop_first(), pat, rep)
    }
}

/// Whether `p` occurs in `s` at position `i`.
pub fn matches_at(s: &[char], i: usize, p: &[char]) -> (r: bool)
    requires
        i <= s@.len(),
    ensures
        r == p@.is_prefix_of(s@.skip(i as int)),
{
    if p.len() > s.len() - i {
        return false;
    }
    let mut k: usize = 0;
    while k < p.len()
        invariant
            i <= s@.len(),
            p@.len() <= s@.len() - i,
            s@.len() <= usize::MAX,
            k <= p@.len(),
            forall|j: int| 0 <= j < k ==> p@[j] == s@[i + j],
        decreases p@.len() - k,
    {
        if p[k] != s[i + k] {
            assert(s@.skip(i as int).subrange(0, p@.len() as int)[k as int] == s@[i + k]);
            return false;
        }
        k = k + 1;
    }
    assert(p@ =~= s@.skip(i as int).subrange(0, p@.len() as int));
    true
}

/// `replace_all` on characters.
pub fn replace_chars(s: &[char], pat: &[char], rep: &[char]) -> (r: Vec<char>)
    requires
        pat@.len() > 0,
    ensures
        r@ == replace_all(s@, pat@, rep@),
{
    let mut out: Vec<char> = Vec::new();
    let mut i: usize = 0;
    assert(s@.skip(0) =~= s@);
    while i < s.len()
        invariant
            pat@.len() > 0,
            i <= s@.len(),
            out@ + replace_all(s@.skip(i as int), pat@, rep@) == replace_all(s@, pat@, rep@),
        decreases s@.len() - i,
    {
        let ghost rest = s@.skip(i as int);
        if matches_at(s, i, pat) {
            assert(rest.skip(pat@.len() as int) =~= s@.skip(i + pat@.len()));
            assert(out@ + rep@ + replace_all(s@.skip(i + pat@.len()), pat@, rep@) =~= out@ + (rep@
                + replace_all(rest.skip(pat@.len() as int), pat@, rep@)));
            append_chars(&mut out, rep);
            i = i + pat.len();
        } else {
            assert(rest.drop_first() =~= s@.skip(i + 1));
            assert(rest[0] == s@[i as int]);
            assert(out@.push(s@[i as int]) + replace_all(s@.skip(i + 1), pat@, rep@) =~= out@ + (
            seq![rest[0]] + replace_all(rest.drop_first(), pat@, rep@)));
            out.push(s[i]);
            i = i + 1;
        }
    }
    assert(s@.skip(s@.len() as int) =~= Seq::<char>::empty());
    assert(out@ + Seq::<char>::empty() =~= out@);
    out
}

/// Applies `replace_all(_, p, " ")` for each pattern `p` of `pats`, in order.
pub open spec fn replace_each_by_space(s: Seq<char>, pats: Seq<Seq<char>>) -> Seq<char>
    decreases pats.len(),
{
    if pats.len() == 0 {
        s
    } else {
        replace_all(replace_each_by_space(s, pats.drop_last()), pats.last(), seq![' '])
    }
}

/// The bracketed sound annotations that Live Captions inserts.
pub open spec fn caption_artifacts() -> Seq<Seq<char>> {
    seq![
        "[Music]"@,
        "(Music)"@,
        "[Applause]"@,
        "(Applause)"@,
        "[Laughter]"@,
        "(Laughter)"@,
        "[Inaudible]"@,
        "(Inaudible)"@,
        "[Silence]"@,
        "(Silence)"@,
    ]
}

/// `s` with the music notes U+266A and U+266B replaced by spaces.
pub open spec fn replace_music_notes(s: Seq<char>) -> Seq<char> {
    Seq::new(
        s.len(),
        |i: int|
            if s[i] == '\u{266a}' || s[i] == '\u{266b}' {
                ' '
            } else {
                s[i]
            },
    )
}

/// One caption line with music notes and sound annotations removed, the
/// decorations `- > : |` and whitespace trimmed, and inner whitespace collapsed.
pub open spec fn clean_caption_line(line: Seq<char>) -> Seq<char> {
    collapse_whitespace(
        trim_class(
            replace_each_by_space(replace_music_notes(line), caption_artifacts()),
            CharClass::LineDecoration,
        ),
    )
}

fn artifact_patterns() -> (r: Vec<Vec<char>>)
    ensures
        r@.len() == caption_artifacts().len(),
        forall|i: int| 0 <= i < r@.len() ==> #[trigger] r@[i]@ == caption_artifacts()[i],
{
    let mut v: Vec<Vec<char>> = Vec::new();
    v.push(chars_of("[Music]"));
    v.push(chars_of("(Music)"));
    v.push(chars_of("[Applause]"));
    v.push(chars_of("(Applause)"));
    v.push(chars_of("[Laughter]"));
    v.push(chars_of("(Laughter)"));
    v.push(chars_of("[Inaudible]"));
    v.push(chars_of("(Inaudible)"));
    v.push(chars_of("[Silence]"));
    v.push(chars_of("(Silence)"));
    v
}

proof fn lemma_artifacts_nonempty()
    ensures
        forall|i: int|
            0 <= i < caption_artifacts().len() ==> #[trigger] caption_artifacts()[i].len() > 0,
{
    reveal_strlit("[Music]");
    reveal_strlit("(Music)");
    reveal_strlit("[Applause]");
    reveal_strlit("(Applause)");
    reveal_strlit("[Laughter]");
    reveal_strlit("(Laughter)");
    reveal_strlit("[Inaudible]");
    reveal_strlit("(Inaudible)");
    reveal_strlit("[Silence]");
    reveal_strlit("(Silence)");
}

fn replace_music_notes_chars(s: &[char]) -> (r: Vec<char>)
    ensures
        r@ == replace_music_notes(s@),
{
    let mut out: Vec<char> = Vec::new();
    let mut i: usize = 0;
    while i < s.len()
        invariant
            i <= s@.len(),
            out@ =~= replace_music_notes(s@.take(i as int)),
        decreases s@.len() - i,
    {
        let c = s[i];
        if c == '\u{266a}' || c == '\u{266b}' {
            out.push(' ');
        } else {
            out.push(c);
        }
        i = i + 1;
    }
    assert(s@.take(s@.len() as int) =~= s@);
    out
}

pub fn clean_caption_line_chars(line: &[char]) -> (r: Vec<char>)
    ensures
        r@ == clean_caption_line(line@),
{
    let pats = artifact_patterns();
    let space: Vec<char> = vec![' '];
    assert(space@ =~= seq![' ']);
    let mut cur = replace_music_notes_chars(line);
    let ghost base = cur@;
    let mut k: usize = 0;
    proof {
        lemma_artifacts_nonempty();
        assert(caption_artifacts().take(0) =~= Seq::<Seq<char>>::empty());
    }
    while k < pats.len()
        invariant
            k <= pats@.len(),
            pats@.len() == caption_artifacts().len(),
            forall|i: int| 0 <= i < pats@.len() ==> #[trigger] pats@[i]@ == caption_artifacts()[i],
            forall|i: int|
                0 <= i < caption_artifacts().len() ==> #[trigger] caption_artifacts()[i].len() > 0,
            space@ == seq![' '],
            cur@ == replace_each_by_space(base, caption_artifacts().take(k as int)),
        decreases pats@.len() - k,
    {
        assert(pats@[k as int]@ == caption_artifacts()[k as int]);
        cur = replace_chars(&cur, &pats[k], &space);
        assert(caption_artifacts().take(k as int + 1).drop_last() =~= caption_artifacts().take(
            k as int,
        ));
        k = k + 1;
    }
    assert(caption_artifacts().take(pats@.len() as int) =~= caption_artifacts());
    let trimmed = trim_chars_class(&cur, CharClass::LineDecoration);
    collapse_whitespace_chars(&trimmed)
}

// ---------------------------------------------------------------------------
// Lines (`str::lines`)
// ---------------------------------------------------------------------------

pub open spec fn strip_carriage_return(s: Seq<char>) -> Seq<char> {
    if s.len() > 0 && s.last() == '\r' {
        s.drop_last()
    } else {
        s
    }
}

/// Scans `s`: the lines ended by `'\n'` so far (without `"\n"` or `"\r\n"`),
/// and the unfinished line.
pub open spec fn line_state(s: Seq<char>) -> (Seq<Seq<char>>, Seq<char>)
    decreases s.len(),
{
    if s.len() == 0 {
        (Seq::empty(), Seq::empty())
    } else {
        let (done, cur) = line_state(s.drop_last());
        if s.last() == '\n' {
            (done.push(strip_carriage_return(cur)), Seq::empty())
        } else {
            (done, cur.push(s.last()))
        }
    }
}

/// The lines of `s` as `str::lines` yields them: split at `"\n"` or `"\r\n"`,
/// with no empty final line after a final line ending.
pub open spec fn text_lines(s: Seq<char>) -> Seq<Seq<char>> {
    let (done, cur) = line_state(s);
    if cur.len() == 0 {
        done
    } else {
        done.push(cur)
    }
}

pub open spec fn views(v: Seq<Vec<char>>) -> Seq<Seq<char>> {
    Seq::new(v.len(), |i: int| v[i]@)
}

fn strip_carriage_return_chars(s: Vec<char>) -> (r: Vec<char>)
    ensures
        r@ == strip_carriage_return(s@),
{
    let mut s = s;
    if s.len() > 0 && s[s.len() - 1] == '\r' {
        s.pop();
    }
    s
}

pub fn split_lines(s: &[char]) -> (r: Vec<Vec<char>>)
    ensures
        views(r@) == text_lines(s@),
{
    let mut done: Vec<Vec<char>> = Vec::new();
    let mut cur: Vec<char> = Vec::new();
    let mut i: usize = 0;
    assert(s@.take(0) =~= Seq::<char>::empty());
    assert(views(done@) =~= Seq::<Seq<char>>::empty());
    while i < s.len()
        invariant
            i <= s@.len(),
            (views(done@), cur@) == line_state(s@.take(i as int)),
        decreases s@.len() - i,
    {
        assert(s@.take(i as int + 1).drop_last() =~= s@.take(i as int));
        let c = s[i];
        if c == '\n' {
            let finished = strip_carriage_return_chars(cur);
            let ghost old_done = done@;
            done.push(finished);
            assert(views(done@) =~= views(old_done).push(finished@));
            cur = Vec::new();
        } else {
            cur.push(c);
        }
        i = i + 1;
    }
    assert(s@.take(s@.len() as int) =~= s@);
    if cur.len() > 0 {
        let ghost old_done = done@;
        done.push(cur);
        assert(views(done@) =~= views(old_done).push(cur@));
    }
    done
}

// ---------------------------------------------------------------------------
// Whole-text cleanup
// ---------------------------------------------------------------------------

/// The key under which a cleaned line counts as a duplicate: trimmed of
/// whitespace and of surrounding non-alphanumeric characters, ASCII-lowercased.
pub open spec fn normalize_for_dedupe(line: Seq<char>) -> Seq<char> {
    ascii_lower_seq(trim_class(trim(line), CharClass::NonAlphanumeric))
}

pub fn normalize_for_dedupe_chars(line: &[char]) -> (r: Vec<char>)
    ensures
        r@ == normalize_for_dedupe(line@),
{
    let t = trim_chars(line);
    let u = trim_chars_class(&t, CharClass::NonAlphanumeric);
    ascii_lower_chars(&u)
}

/// Scans the raw lines: the cleaned lines kept so far, and the dedupe keys seen.
/// A cleaned line is kept unless it or its key is empty or its key was seen.
pub open spec fn dedupe_state(lines: Seq<Seq<char>>) -> (Seq<Seq<char>>, Seq<Seq<char>>)
    decreases lines.len(),
{
    if lines.len() == 0 {
        (Seq::empty(), Seq::empty())
    } else {
        let (kept, seen) = dedupe_state(lines.drop_last());
        let line = clean_caption_line(lines.last());
        let key = normalize_for_dedupe(line);
        if line.len() == 0 || key.len() == 0 || seen.contains(key) {
            (kept, seen)
        } else {
            (kept.push(line), seen.push(key))
        }
    }
}

/// The lines joined by single spaces.
pub open spec fn join_state(lines: Seq<Seq<char>>) -> Seq<char>
    decreases lines.len(),
{
    if lines.len() == 0 {
        Seq::empty()
    } else {
        let r = join_state(lines.drop_last());
        if r.len() == 0 {
            r + lines.last()
        } else {
            r.push(' ') + lines.last()
        }
    }
}

pub open spec fn join_caption_sentences(lines: Seq<Seq<char>>) -> Seq<char> {
    trim(join_state(lines))
}

/// Caption text cleaned line by line, without duplicate lines, joined into one
/// line of text.
pub open spec fn spec_clean_caption_text(text: Seq<char>) -> Seq<char> {
    join_caption_sentences(dedupe_state(text_lines(text)).0)
}

/// Cleaning no text gives no text.
pub proof fn lemma_clean_empty()
    ensures
        spec_clean_caption_text(Seq::<char>::empty()) == Seq::<char>::empty(),
{
    let e = Seq::<char>::empty();
    assert(line_state(e) == (Seq::<Seq<char>>::empty(), e));
    assert(text_lines(e) =~= Seq::<Seq<char>>::empty());
    assert(dedupe_state(text_lines(e)).0 =~= Seq::<Seq<char>>::empty());
    assert(join_state(dedupe_state(text_lines(e)).0) =~= e);
    crate::text::lemma_trim_shape(e, CharClass::Whitespace);
}

/// Collapsed text: words separated by single spaces, with no other
/// whitespace and none at either end.
pub open spec fn single_spaced(s: Seq<char>) -> bool {
    &&& forall|i: int| 0 <= i < s.len() ==> #[trigger] s[i] == ' ' || !char_is_whitespace(s[i])
    &&& forall|i: int, j: int|
        0 <= i && j == i + 1 && j < s.len() && #[trigger] s[i] == ' ' ==> #[trigger] s[j] != ' '
    &&& s.len() > 0 ==> !char_is_whitespace(s[0]) && !char_is_whitespace(s.last())
}

proof fn lemma_collapse_state_shape(s: Seq<char>)
    ensures
        single_spaced(collapse_state(s).0),
        !collapse_state(s).1 ==> collapse_state(s).0.len() > 0,
    decreases s.len(),
{
    if s.len() > 0 {
        lemma_collapse_state_shape(s.drop_last());
        let (out, gap) = collapse_state(s.drop_last());
        let c = s.last();
        if !char_is_whitespace(c) {
            if gap && out.len() > 0 {
                let o = out.push(' ').push(c);
                assert(o[out.len() as int] == ' ');
                assert forall|i: int| 0 <= i < o.len() implies #[trigger] o[i] == ' '
                    || !char_is_whitespace(o[i]) by {
                    if i < out.len() {
                        assert(o[i] == out[i]);
                    }
                }
                assert forall|i: int, j: int|
                    0 <= i && j == i + 1 && j < o.len() && #[trigger] o[i] == ' ' implies #[trigger] o[j]
                        != ' ' by {
                    if j < out.len() {
                        assert(o[i] == out[i] && o[j] == out[j]);
                    } else if j == out.len() {
                        assert(o[i] == out.last());
                    }
                }
                assert(o[0] == out[0]);
            } else {
                let o = out.push(c);
                assert forall|i: int| 0 <= i < o.len() implies #[trigger] o[i] == ' '
                    || !char_is_whitespace(o[i]) by {
                    if i < out.len() {
                        assert(o[i] == out[i]);
                    }
                }
                assert forall|i: int, j: int|
                    0 <= i && j == i + 1 && j < o.len() && #[trigger] o[i] == ' ' implies #[trigger] o[j]
                        != ' ' by {
                    if j < out.len() {
                        assert(o[i] == out[i] && o[j] == out[j]);
                    }
                }
                if out.len() > 0 {
                    assert(o[0] == out[0]);
                }
            }
        }
    }
}

/// Collapsed whitespace has the single-spaced shape.
pub proof fn lemma_collapse_shape(s: Seq<char>)
    ensures
        single_spaced(collapse_whitespace(s)),
{
    lemma_collapse_state_shape(s);
}

proof fn lemma_join_shape(lines: Seq<Seq<char>>)
    requires
        forall|k: int| 0 <= k < lines.len() ==> #[trigger] single_spaced(lines[k]) && lines[k].len() > 0,
    ensures
        single_spaced(join_state(lines)),
        lines.len() > 0 ==> join_state(lines).len() > 0,
    decreases lines.len(),
{
    if lines.len() > 0 {
        let prev = lines.drop_last();
        assert forall|k: int| 0 <= k < prev.len() implies #[trigger] single_spaced(prev[k])
            && prev[k].len() > 0 by {
            assert(prev[k] == lines[k]);
        }
        lemma_join_shape(prev);
        let r = join_state(prev);
        let l = lines.last();
        assert(single_spaced(lines[lines.len() - 1]));
        if r.len() > 0 {
            let o = r.push(' ') + l;
            let n = r.len() as int;
            assert(o[n] == ' ');
            assert forall|i: int| 0 <= i < o.len() implies #[trigger] o[i] == ' '
                || !char_is_whitespace(o[i]) by {
                if i < n {
                    assert(o[i] == r[i]);
                } else if i > n {
                    assert(o[i] == l[i - n - 1]);
                }
            }
            assert forall|i: int, j: int|
                0 <= i && j == i + 1 && j < o.len() && #[trigger] o[i] == ' ' implies #[trigger] o[j]
                    != ' ' by {
                if j < n {
                    assert(o[i] == r[i] && o[j] == r[j]);
                } else if j == n {
                    assert(o[i] == r.last());
                } else if i == n {
                    assert(o[j] == l[0]);
                } else {
                    assert(o[i] == l[i - n - 1] && o[j] == l[j - n - 1]);
                }
            }
            assert(o[0] == r[0]);
            assert(o.last() == l.last());
        } else {
            assert(r + l =~= l);
        }
    }
}

proof fn lemma_kept_lines_shape(lines: Seq<Seq<char>>)
    ensures
        forall|k: int|
            0 <= k < dedupe_state(lines).0.len() ==> #[trigger] single_spaced(dedupe_state(lines).0[k])
                && dedupe_state(lines).0[k].len() > 0,
    decreases lines.len(),
{
    if lines.len() > 0 {
        lemma_kept_lines_shape(lines.drop_last());
        let (kept, seen) = dedupe_state(lines.drop_last());
        let line = clean_caption_line(lines.last());
        lemma_collapse_shape(
            trim_class(
                replace_each_by_space(replace_music_notes(lines.last()), caption_artifacts()),
                CharClass::LineDecoration,
            ),
        );
        let nk = dedupe_state(lines).0;
        assert forall|k: int| 0 <= k < nk.len() implies #[trigger] single_spaced(nk[k]) && nk[k].len()
            > 0 by {
            if k < kept.len() {
                assert(nk[k] == kept[k]);
            } else {
                assert(nk[k] == line);
            }
        }
    }
}

/// Law: cleaned caption text is one line of single-spaced words: no line
/// break, nothing else but a space between words, and nothing to trim.
pub proof fn law_cleaned_text_is_one_trimmed_line(text: Seq<char>)
    ensures
        single_spaced(spec_clean_caption_text(text)),
        forall|i: int|
            0 <= i < spec_clean_caption_text(text).len() ==> #[trigger] spec_clean_caption_text(text)[i]
                != '\n',
        trim(spec_clean_caption_text(text)) == spec_clean_caption_text(text),
{
    let kept = dedupe_state(text_lines(text)).0;
    lemma_kept_lines_shape(text_lines(text));
    lemma_join_shape(kept);
    let j = join_state(kept);
    crate::text::lemma_trim_noop(j, CharClass::Whitespace);
    let r = spec_clean_caption_text(text);
    assert(r == j);
    assert forall|i: int| 0 <= i < r.len() implies #[trigger] r[i] != '\n' by {
        assert(r[i] == ' ' || !char_is_whitespace(r[i]));
    }
}

// ---------------------------------------------------------------------------
// Facts for cleaning twice
// ---------------------------------------------------------------------------

proof fn lemma_collapse_prefix_noop(s: Seq<char>, i: int)
    requires
        single_spaced(s),
        0 <= i <= s.len(),
    ensures
        collapse_state(s.take(i)) == (
            if i > 0 && s[i - 1] == ' ' {
                s.take(i - 1)
            } else {
                s.take(i)
            },
            i == 0 || s[i - 1] == ' ',
        ),
    decreases i,
{
    if i > 0 {
        lemma_collapse_prefix_noop(s, i - 1);
        assert(s.take(i).drop_last() =~= s.take(i - 1));
        let c = s[i - 1];
        if c == ' ' {
            assert(i - 1 > 0) by {
                if i - 1 == 0 {
                    assert(!char_is_whitespace(s[0]));
                }
            }
            assert(s[i - 2] != ' ');
            assert(!char_is_whitespace(s[i - 2]));
        } else {
            assert(!char_is_whitespace(c));
            if i - 1 > 0 && s[i - 2] == ' ' {
                assert(s.take(i - 2).push(' ').push(c) =~= s.take(i));
                assert(s.take(i - 2).len() > 0) by {
                    if i - 2 == 0 {
                        assert(!char_is_whitespace(s[0]));
                    }
                }
            } else {
                assert(s.take(i - 1).push(c) =~= s.take(i));
            }
        }
    }
}

/// Collapsing single-spaced text changes nothing.
proof fn lemma_collapse_noop(s: Seq<char>)
    requires
        single_spaced(s),
    ensures
        collapse_whitespace(s) == s,
{
    lemma_collapse_prefix_noop(s, s.len() as int);
    assert(s.take(s.len() as int) =~= s);
    if s.len() > 0 {
        assert(s.last() != ' ');
    }
}

proof fn lemma_collapse_first(s: Seq<char>)
    requires
        s.len() > 0,
        !char_is_whitespace(s[0]),
    ensures
        collapse_whitespace(s).len() > 0,
        collapse_whitespace(s)[0] == s[0],
    decreases s.len(),
{
    if s.len() > 1 {
        lemma_collapse_first(s.drop_last());
        let (out, gap) = collapse_state(s.drop_last());
        assert(out.len() > 0 && out[0] == s[0]);
        let c = s.last();
        assert(s.drop_last()[0] == s[0]);
        if !char_is_whitespace(c) {
            if gap && out.len() > 0 {
                assert(collapse_state(s).0 == out.push(' ').push(c));
                assert(out.push(' ').push(c)[0] == out[0]);
            } else {
                assert(collapse_state(s).0 == out.push(c));
                assert(out.push(c)[0] == out[0]);
            }
        } else {
            assert(collapse_state(s).0 == out);
        }
    } else {
        assert(s.drop_last() =~= Seq::<char>::empty());
        assert(collapse_state(s.drop_last()) == (Seq::<char>::empty(), true));
        assert(collapse_state(s).0 =~= seq![s[0]]);
    }
}

proof fn lemma_collapse_last(s: Seq<char>)
    requires
        s.len() > 0,
        !char_is_whitespace(s.last()),
    ensures
        collapse_whitespace(s).len() > 0,
        collapse_whitespace(s).last() == s.last(),
{
}

/// `q` occurs in `s` at position `i`.
pub open spec fn occurs_at(s: Seq<char>, q: Seq<char>, i: int) -> bool {
    0 <= i && i + q.len() <= s.len() && s.subrange(i, i + q.len()) == q
}

/// `q` occurs nowhere in `s`.
pub open spec fn free_of(s: Seq<char>, q: Seq<char>) -> bool {
    forall|i: int| !#[trigger] occurs_at(s, q, i)
}

pub open spec fn has_no_space(q: Seq<char>) -> bool {
    forall|t: int| 0 <= t < q.len() ==> #[trigger] q[t] != ' '
}

proof fn lemma_free_drop_first(s: Seq<char>, q: Seq<char>)
    requires
        s.len() > 0,
        free_of(s, q),
    ensures
        free_of(s.drop_first(), q),
{
    assert forall|i: int| !#[trigger] occurs_at(s.drop_first(), q, i) by {
        if occurs_at(s.drop_first(), q, i) {
            assert(s.drop_first().subrange(i, i + q.len()) =~= s.subrange(i + 1, i + 1 + q.len()));
            assert(occurs_at(s, q, i + 1));
        }
    }
}

proof fn lemma_free_skip(s: Seq<char>, q: Seq<char>, m: int)
    requires
        0 <= m <= s.len(),
        free_of(s, q),
    ensures
        free_of(s.skip(m), q),
{
    assert forall|i: int| !#[trigger] occurs_at(s.skip(m), q, i) by {
        if occurs_at(s.skip(m), q, i) {
            assert(s.skip(m).subrange(i, i + q.len()) =~= s.subrange(i + m, i + m + q.len()));
            assert(occurs_at(s, q, i + m));
        }
    }
}

proof fn lemma_free_subrange(s: Seq<char>, q: Seq<char>, a: int, b: int)
    requires
        0 <= a <= b <= s.len(),
        free_of(s, q),
    ensures
        free_of(s.subrange(a, b), q),
{
    assert forall|i: int| !#[trigger] occurs_at(s.subrange(a, b), q, i) by {
        if occurs_at(s.subrange(a, b), q, i) {
            assert(s.subrange(a, b).subrange(i, i + q.len()) =~= s.subrange(a + i, a + i + q.len()));
            assert(occurs_at(s, q, a + i));
        }
    }
}

/// Replacing a pattern that does not occur changes nothing.
proof fn lemma_replace_noop(s: Seq<char>, pat: Seq<char>, rep: Seq<char>)
    requires
        pat.len() > 0,
        free_of(s, pat),
    ensures
        replace_all(s, pat, rep) == s,
    decreases s.len(),
{
    if s.len() > 0 {
        if pat.is_prefix_of(s) {
            assert(s.subrange(0, pat.len() as int) =~= pat);
            assert(occurs_at(s, pat, 0));
        }
        lemma_free_drop_first(s, pat);
        lemma_replace_noop(s.drop_first(), pat, rep);
        assert(seq![s[0]] + s.drop_first() =~= s);
    }
}

/// A space-free text at the start of a replacement result was at the start
/// of the original, where the pattern did not start.
proof fn lemma_prefix_of_replaced(s: Seq<char>, pat: Seq<char>, q: Seq<char>)
    requires
        pat.len() > 0,
        q.len() > 0,
        has_no_space(q),
        q.is_prefix_of(replace_all(s, pat, seq![' '])),
    ensures
        q.is_prefix_of(s),
        !pat.is_prefix_of(s),
    decreases s.len(),
{
    let r = replace_all(s, pat, seq![' ']);
    if s.len() == 0 {
        assert(r.len() == 0);
    } else if pat.is_prefix_of(s) {
        assert(r[0] == ' ');
        assert(q[0] == r[0]);
    } else {
        let r1 = replace_all(s.drop_first(), pat, seq![' ']);
        assert(r == seq![s[0]] + r1);
        assert(q[0] == r[0]);
        if q.len() > 1 {
            let q1 = q.drop_first();
            assert forall|t: int| 0 <= t < q1.len() implies #[trigger] q1[t] != ' ' by {
                assert(q1[t] == q[t + 1]);
            }
            assert forall|t: int| 0 <= t < q1.len() implies q1[t] == r1[t] by {
                assert(q1[t] == q[t + 1]);
                assert(q[t + 1] == r[t + 1]);
            }
            assert(q1.is_prefix_of(r1));
            lemma_prefix_of_replaced(s.drop_first(), pat, q1);
            assert forall|t: int| 0 <= t < q.len() implies q[t] == s[t] by {
                if t > 0 {
                    assert(q[t] == q1[t - 1]);
                }
            }
        }
        assert(q =~= s.subrange(0, q.len() as int));
    }
}

/// After replacing `pat` by a space, neither `pat` nor a space-free text that
/// did not occur before occurs.
proof fn lemma_replace_free(s: Seq<char>, pat: Seq<char>, q: Seq<char>)
    requires
        pat.len() > 0,
        q.len() > 0,
        has_no_space(q),
        q == pat || free_of(s, q),
    ensures
        free_of(replace_all(s, pat, seq![' ']), q),
    decreases s.len(),
{
    let r = replace_all(s, pat, seq![' ']);
    if s.len() > 0 {
        let m = if pat.is_prefix_of(s) {
            pat.len() as int
        } else {
            1
        };
        let rest = s.skip(m);
        if q != pat {
            lemma_free_skip(s, q, m);
        }
        lemma_replace_free(rest, pat, q);
        let r1 = replace_all(rest, pat, seq![' ']);
        if pat.is_prefix_of(s) {
            assert(r == seq![' '] + r1);
        } else {
            assert(s.drop_first() =~= rest);
            assert(r == seq![s[0]] + r1);
        }
        assert forall|i: int| !#[trigger] occurs_at(r, q, i) by {
            if occurs_at(r, q, i) {
                if i == 0 {
                    assert(q.is_prefix_of(r));
                    lemma_prefix_of_replaced(s, pat, q);
                    assert(s.subrange(0, q.len() as int) =~= q);
                    assert(occurs_at(s, q, 0));
                } else {
                    assert(r.subrange(i, i + q.len()) =~= r1.subrange(i - 1, i - 1 + q.len()));
                    assert(occurs_at(r1, q, i - 1));
                }
            }
        }
    }
}

/// After all replacements, none of the patterns occurs.
proof fn lemma_replace_each_free(s: Seq<char>, pats: Seq<Seq<char>>)
    requires
        forall|k: int| 0 <= k < pats.len() ==> #[trigger] pats[k].len() > 0 && has_no_space(pats[k]),
    ensures
        forall|k: int| 0 <= k < pats.len() ==> free_of(replace_each_by_space(s, pats), #[trigger] pats[k]),
    decreases pats.len(),
{
    if pats.len() > 0 {
        let prev = pats.drop_last();
        assert forall|k: int| 0 <= k < prev.len() implies #[trigger] prev[k].len() > 0 && has_no_space(prev[k]) by {
            assert(prev[k] == pats[k]);
        }
        lemma_replace_each_free(s, prev);
        let t = replace_each_by_space(s, prev);
        let last = pats.last();
        assert(pats[pats.len() - 1] == last);
        assert forall|k: int| 0 <= k < pats.len() implies free_of(replace_each_by_space(s, pats), #[trigger] pats[k]) by {
            if k < prev.len() {
                assert(prev[k] == pats[k]);
                assert(free_of(t, pats[k]));
                lemma_replace_free(t, last, pats[k]);
            } else {
                lemma_replace_free(t, last, last);
            }
        }
    }
}

/// Replacements leave no pattern that occurs nowhere to replace.
proof fn lemma_replace_each_noop(s: Seq<char>, pats: Seq<Seq<char>>)
    requires
        forall|k: int| 0 <= k < pats.len() ==> #[trigger] pats[k].len() > 0 && free_of(s, pats[k]),
    ensures
        replace_each_by_space(s, pats) == s,
    decreases pats.len(),
{
    if pats.len() > 0 {
        let prev = pats.drop_last();
        assert forall|k: int| 0 <= k < prev.len() implies #[trigger] prev[k].len() > 0 && free_of(s, prev[k]) by {
            assert(prev[k] == pats[k]);
        }
        lemma_replace_each_noop(s, prev);
        assert(pats[pats.len() - 1] == pats.last());
        lemma_replace_noop(s, pats.last(), seq![' ']);
    }
}

/// The run of non-whitespace characters at the end of `s`.
pub open spec fn trailing_word(s: Seq<char>) -> Seq<char>
    decreases s.len(),
{
    if s.len() > 0 && !char_is_whitespace(s.last()) {
        trailing_word(s.drop_last()).push(s.last())
    } else {
        Seq::empty()
    }
}

pub open spec fn has_no_whitespace(q: Seq<char>) -> bool {
    forall|t: int| 0 <= t < q.len() ==> !char_is_whitespace(#[trigger] q[t])
}

proof fn lemma_trailing_word_shape(s: Seq<char>)
    ensures
        trailing_word(s).len() <= s.len(),
        trailing_word(s) == s.subrange(s.len() - trailing_word(s).len(), s.len() as int),
        trailing_word(s).len() < s.len() ==> char_is_whitespace(
            s[s.len() - trailing_word(s).len() - 1],
        ),
    decreases s.len(),
{
    if s.len() > 0 && !char_is_whitespace(s.last()) {
        lemma_trailing_word_shape(s.drop_last());
        let w = trailing_word(s.drop_last());
        assert(w.push(s.last()) =~= s.subrange(s.len() - w.len() - 1, s.len() as int));
    } else {
        assert(s.subrange(s.len() as int, s.len() as int) =~= Seq::<char>::empty());
    }
}

/// A whitespace-free text that ends `s` lies in its trailing word.
proof fn lemma_end_occurrence_in_word(s: Seq<char>, q: Seq<char>, i: int)
    requires
        occurs_at(s, q, i),
        i + q.len() == s.len(),
        has_no_whitespace(q),
    ensures
        q.len() <= trailing_word(s).len(),
        occurs_at(trailing_word(s), q, trailing_word(s).len() - q.len()),
{
    lemma_trailing_word_shape(s);
    let w = trailing_word(s);
    if q.len() > w.len() {
        let j = s.len() - w.len() - 1;
        assert(s[j] == s.subrange(i, i + q.len())[j - i]);
        assert(!char_is_whitespace(q[j - i]));
    }
    assert(w.subrange(w.len() - q.len(), w.len() as int) =~= s.subrange(i, i + q.len()));
}

proof fn lemma_collapse_state_free(s: Seq<char>, q: Seq<char>)
    requires
        q.len() > 0,
        has_no_whitespace(q),
        free_of(s, q),
    ensures
        collapse_state(s).1 == (s.len() == 0 || char_is_whitespace(s.last())),
        !collapse_state(s).1 ==> trailing_word(collapse_state(s).0) == trailing_word(s),
        free_of(collapse_state(s).0, q),
    decreases s.len(),
{
    if s.len() > 0 {
        let p = s.drop_last();
        assert forall|i: int| !#[trigger] occurs_at(p, q, i) by {
            if occurs_at(p, q, i) {
                assert(p.subrange(i, i + q.len()) =~= s.subrange(i, i + q.len()));
                assert(occurs_at(s, q, i));
            }
        }
        lemma_collapse_state_free(p, q);
        lemma_collapse_state_shape(p);
        let (out, gap) = collapse_state(p);
        let c = s.last();
        assert(p.push(c) =~= s);
        if !char_is_whitespace(c) {
            let o = collapse_state(s).0;
            if gap && out.len() > 0 {
                let mid = out.push(' ');
                assert(o == mid.push(c));
                assert(trailing_word(mid) == Seq::<char>::empty());
                assert(trailing_word(p) == Seq::<char>::empty());
                assert(o.drop_last() =~= mid);
                assert(o.last() == c);
                assert(s.drop_last() =~= p);
                assert(trailing_word(o) == trailing_word(mid).push(c));
                assert(trailing_word(s) == trailing_word(p).push(c));
                assert(trailing_word(o) =~= trailing_word(s));
            } else {
                assert(o == out.push(c));
                if gap {
                    assert(out.len() == 0);
                    assert(trailing_word(p) == Seq::<char>::empty());
                    assert(trailing_word(out) == Seq::<char>::empty());
                }
                assert(o.drop_last() =~= out);
                assert(o.last() == c);
                assert(s.drop_last() =~= p);
                assert(trailing_word(o) == trailing_word(out).push(c));
                assert(trailing_word(s) == trailing_word(p).push(c));
                assert(trailing_word(o) =~= trailing_word(s));
            }
            assert forall|i: int| !#[trigger] occurs_at(o, q, i) by {
                if occurs_at(o, q, i) {
                    if i + q.len() == o.len() {
                        lemma_end_occurrence_in_word(o, q, i);
                        lemma_trailing_word_shape(s);
                        let w = trailing_word(s);
                        let j = s.len() - w.len() + (w.len() - q.len());
                        assert(s.subrange(j, j + q.len()) =~= w.subrange(
                            w.len() - q.len(),
                            w.len() as int,
                        ));
                        assert(occurs_at(s, q, j));
                    } else {
                        let d = o.drop_last();
                        assert(d.subrange(i, i + q.len()) =~= o.subrange(i, i + q.len()));
                        if gap && out.len() > 0 {
                            assert(d == out.push(' '));
                            if i + q.len() == d.len() {
                                assert(q[q.len() - 1] == d[d.len() - 1]);
                            } else {
                                assert(out.subrange(i, i + q.len()) =~= d.subrange(i, i + q.len()));
                                assert(occurs_at(out, q, i));
                            }
                        } else {
                            assert(d =~= out);
                            assert(occurs_at(out, q, i));
                        }
                    }
                }
            }
        }
    }
}

proof fn lemma_collapse_free(s: Seq<char>, q: Seq<char>)
    requires
        q.len() > 0,
        has_no_whitespace(q),
        free_of(s, q),
    ensures
        free_of(collapse_whitespace(s), q),
{
    lemma_collapse_state_free(s, q);
}

proof fn lemma_join_free(lines: Seq<Seq<char>>, q: Seq<char>)
    requires
        q.len() > 0,
        has_no_space(q),
        forall|k: int| 0 <= k < lines.len() ==> free_of(#[trigger] lines[k], q),
    ensures
        free_of(join_state(lines), q),
    decreases lines.len(),
{
    if lines.len() > 0 {
        let prev = lines.drop_last();
        assert forall|k: int| 0 <= k < prev.len() implies free_of(#[trigger] prev[k], q) by {
            assert(prev[k] == lines[k]);
        }
        lemma_join_free(prev, q);
        let r = join_state(prev);
        let l = lines.last();
        assert(free_of(lines[lines.len() - 1], q));
        if r.len() > 0 {
            let o = r.push(' ') + l;
            let n = r.len() as int;
            assert forall|i: int| !#[trigger] occurs_at(o, q, i) by {
                if occurs_at(o, q, i) {
                    if i + q.len() <= n {
                        assert(o.subrange(i, i + q.len()) =~= r.subrange(i, i + q.len()));
                        assert(occurs_at(r, q, i));
                    } else if i > n {
                        assert(o.subrange(i, i + q.len()) =~= l.subrange(i - n - 1, i - n - 1 + q.len()));
                        assert(occurs_at(l, q, i - n - 1));
                    } else {
                        assert(o[n] == ' ');
                        assert(q[n - i] == o.subrange(i, i + q.len())[n - i]);
                    }
                }
            }
        } else {
            assert(r + l =~= l);
        }
    }
}

pub open spec fn is_music_note(c: char) -> bool {
    c == '\u{266a}' || c == '\u{266b}'
}

pub open spec fn no_music_notes(s: Seq<char>) -> bool {
    forall|i: int| 0 <= i < s.len() ==> !is_music_note(#[trigger] s[i])
}

proof fn lemma_replace_keeps_no_notes(s: Seq<char>, pat: Seq<char>)
    requires
        no_music_notes(s),
    ensures
        no_music_notes(replace_all(s, pat, seq![' '])),
    decreases s.len(),
{
    if s.len() > 0 {
        let r = replace_all(s, pat, seq![' ']);
        if pat.len() > 0 && pat.is_prefix_of(s) {
            let rest = s.skip(pat.len() as int);
            assert forall|i: int| 0 <= i < rest.len() implies !is_music_note(#[trigger] rest[i]) by {
                assert(rest[i] == s[i + pat.len()]);
            }
            lemma_replace_keeps_no_notes(rest, pat);
            let r1 = replace_all(rest, pat, seq![' ']);
            assert forall|i: int| 0 <= i < r.len() implies !is_music_note(#[trigger] r[i]) by {
                if i > 0 {
                    assert(r[i] == r1[i - 1]);
                }
            }
        } else {
            let rest = s.drop_first();
            assert forall|i: int| 0 <= i < rest.len() implies !is_music_note(#[trigger] rest[i]) by {
                assert(rest[i] == s[i + 1]);
            }
            lemma_replace_keeps_no_notes(rest, pat);
            let r1 = replace_all(rest, pat, seq![' ']);
            assert forall|i: int| 0 <= i < r.len() implies !is_music_note(#[trigger] r[i]) by {
                if i > 0 {
                    assert(r[i] == r1[i - 1]);
                } else {
                    assert(r[0] == s[0]);
                }
            }
        }
    }
}

proof fn lemma_replace_each_keeps_no_notes(s: Seq<char>, pats: Seq<Seq<char>>)
    requires
        no_music_notes(s),
    ensures
        no_music_notes(replace_each_by_space(s, pats)),
    decreases pats.len(),
{
    if pats.len() > 0 {
        lemma_replace_each_keeps_no_notes(s, pats.drop_last());
        lemma_replace_keeps_no_notes(replace_each_by_space(s, pats.drop_last()), pats.last());
    }
}

proof fn lemma_collapse_keeps_no_notes(s: Seq<char>)
    requires
        no_music_notes(s),
    ensures
        no_music_notes(collapse_state(s).0),
    decreases s.len(),
{
    if s.len() > 0 {
        let p = s.drop_last();
        assert forall|i: int| 0 <= i < p.len() implies !is_music_note(#[trigger] p[i]) by {
            assert(p[i] == s[i]);
        }
        lemma_collapse_keeps_no_notes(p);
        let (out, gap) = collapse_state(p);
        let o = collapse_state(s).0;
        let c = s.last();
        assert(!is_music_note(s[s.len() - 1]));
        if !char_is_whitespace(c) {
            if gap && out.len() > 0 {
                assert(o == out.push(' ').push(c));
            } else {
                assert(o == out.push(c));
            }
            assert forall|i: int| 0 <= i < o.len() implies !is_music_note(#[trigger] o[i]) by {
                if i < out.len() {
                    assert(o[i] == out[i]);
                }
            }
        }
    }
}

proof fn lemma_join_keeps_no_notes(lines: Seq<Seq<char>>)
    requires
        forall|k: int| 0 <= k < lines.len() ==> no_music_notes(#[trigger] lines[k]),
    ensures
        no_music_notes(join_state(lines)),
    decreases lines.len(),
{
    if lines.len() > 0 {
        let prev = lines.drop_last();
        assert forall|k: int| 0 <= k < prev.len() implies no_music_notes(#[trigger] prev[k]) by {
            assert(prev[k] == lines[k]);
        }
        lemma_join_keeps_no_notes(prev);
        let r = join_state(prev);
        let l = lines.last();
        assert(no_music_notes(lines[lines.len() - 1]));
        let o = join_state(lines);
        let n = r.len() as int;
        if n > 0 {
            assert(o == r.push(' ') + l);
            assert forall|i: int| 0 <= i < o.len() implies !is_music_note(#[trigger] o[i]) by {
                if i < n {
                    assert(o[i] == r[i]);
                } else if i > n {
                    assert(o[i] == l[i - n - 1]);
                }
            }
        } else {
            assert(o =~= l);
        }
    }
}

/// The first line starts the joined text and the last line ends it.
proof fn lemma_join_ends(lines: Seq<Seq<char>>)
    requires
        lines.len() > 0,
        forall|k: int| 0 <= k < lines.len() ==> #[trigger] lines[k].len() > 0,
    ensures
        lines[0].is_prefix_of(join_state(lines)),
        join_state(lines).len() > 0,
        join_state(lines).last() == lines.last().last(),
    decreases lines.len(),
{
    let prev = lines.drop_last();
    let l = lines.last();
    assert(lines[lines.len() - 1].len() > 0);
    let o = join_state(lines);
    if prev.len() > 0 {
        assert forall|k: int| 0 <= k < prev.len() implies #[trigger] prev[k].len() > 0 by {
            assert(prev[k] == lines[k]);
        }
        lemma_join_ends(prev);
        let r = join_state(prev);
        assert(prev[0] == lines[0]);
        assert(o == r.push(' ') + l);
        assert forall|t: int| 0 <= t < lines[0].len() implies o[t] == lines[0][t] by {
            assert(r[t] == lines[0][t]);
        }
        assert(lines[0] =~= o.subrange(0, lines[0].len() as int));
    } else {
        assert(join_state(prev) == Seq::<char>::empty());
        assert(o =~= l);
        assert(lines[0] == l);
        assert(lines[0] =~= o.subrange(0, lines[0].len() as int));
    }
}

proof fn lemma_trim_start_keeps(s: Seq<char>, k: CharClass, j: int)
    requires
        0 <= j < s.len(),
        !crate::text::in_class(k, s[j]),
    ensures
        trim_start_class(s, k).len() >= s.len() - j,
    decreases s.len(),
{
    if s.len() > 0 && crate::text::in_class(k, s[0]) {
        assert(s.drop_first()[j - 1] == s[j]);
        lemma_trim_start_keeps(s.drop_first(), k, j - 1);
    }
}

proof fn lemma_trim_end_keeps(s: Seq<char>, k: CharClass, j: int)
    requires
        0 <= j < s.len(),
        !crate::text::in_class(k, s[j]),
    ensures
        crate::text::trim_end_class(s, k).len() > j,
    decreases s.len(),
{
    if s.len() > 0 && crate::text::in_class(k, s.last()) {
        assert(s.drop_last()[j] == s[j]);
        lemma_trim_end_keeps(s.drop_last(), k, j);
    }
}

/// Trimming a class keeps something when some character is outside it.
proof fn lemma_trim_keeps(s: Seq<char>, k: CharClass, j: int)
    requires
        0 <= j < s.len(),
        !crate::text::in_class(k, s[j]),
    ensures
        trim_class(s, k).len() > 0,
{
    lemma_trim_start_keeps(s, k, j);
    crate::text::lemma_trim_start_shape(s, k);
    let a = trim_start_class(s, k);
    let jj = j - (s.len() - a.len());
    assert(a[jj] == s[j]);
    lemma_trim_end_keeps(a, k, jj);
}

pub open spec fn has_alphanumeric(s: Seq<char>) -> bool {
    exists|i: int| 0 <= i < s.len() && crate::text::char_is_alphanumeric(#[trigger] s[i])
}

/// A non-empty dedupe key comes from a line with an alphanumeric character.
proof fn lemma_key_has_alphanumeric(line: Seq<char>)
    requires
        normalize_for_dedupe(line).len() > 0,
    ensures
        has_alphanumeric(line),
{
    let t = trim(line);
    let u = trim_class(t, CharClass::NonAlphanumeric);
    assert(u.len() > 0);
    crate::text::lemma_trim_shape(u, CharClass::NonAlphanumeric);
    crate::text::lemma_trim_shape(t, CharClass::NonAlphanumeric);
    crate::text::lemma_trim_start_shape(t, CharClass::NonAlphanumeric);
    crate::text::lemma_trim_end_shape(trim_start_class(t, CharClass::NonAlphanumeric), CharClass::NonAlphanumeric);
    crate::text::lemma_trim_start_shape(line, CharClass::Whitespace);
    crate::text::lemma_trim_end_shape(trim_start_class(line, CharClass::Whitespace), CharClass::Whitespace);
    let a = trim_start_class(t, CharClass::NonAlphanumeric);
    assert(u[0] == a[0]);
    let ia = t.len() - a.len();
    assert(a[0] == t[ia]);
    let b = trim_start_class(line, CharClass::Whitespace);
    assert(t[ia] == b[ia]);
    let ib = line.len() - b.len();
    assert(b[ia] == line[ib + ia]);
    assert(crate::text::char_is_alphanumeric(line[ib + ia]));
}

proof fn lemma_line_state_plain(s: Seq<char>)
    requires
        forall|i: int| 0 <= i < s.len() ==> #[trigger] s[i] != '\n',
    ensures
        line_state(s) == (Seq::<Seq<char>>::empty(), s),
    decreases s.len(),
{
    if s.len() > 0 {
        let p = s.drop_last();
        assert forall|i: int| 0 <= i < p.len() implies #[trigger] p[i] != '\n' by {
            assert(p[i] == s[i]);
        }
        lemma_line_state_plain(p);
        assert(s[s.len() - 1] != '\n');
        assert(p.push(s.last()) =~= s);
    }
}

proof fn lemma_artifacts_plain()
    ensures
        forall|k: int|
            0 <= k < caption_artifacts().len() ==> #[trigger] caption_artifacts()[k].len() > 0
                && has_no_whitespace(caption_artifacts()[k]) && has_no_space(caption_artifacts()[k]),
{
    reveal_strlit("[Music]");
    reveal_strlit("(Music)");
    reveal_strlit("[Applause]");
    reveal_strlit("(Applause)");
    reveal_strlit("[Laughter]");
    reveal_strlit("(Laughter)");
    reveal_strlit("[Inaudible]");
    reveal_strlit("(Inaudible)");
    reveal_strlit("[Silence]");
    reveal_strlit("(Silence)");
    let a = caption_artifacts();
    assert forall|k: int| 0 <= k < a.len() implies #[trigger] a[k].len() > 0 && has_no_whitespace(a[k])
        && has_no_space(a[k]) by {
        let p = a[k];
        assert forall|t: int| 0 <= t < p.len() implies !char_is_whitespace(#[trigger] p[t]) by {
            assert(p[t] != ' ' && !('\t' <= p[t] && p[t] <= '\r'));
        }
    }
}

/// What a cleaned line holds: single-spaced words, no music note, no sound
/// annotation, and no decoration at either end.
pub open spec fn clean_line_facts(l: Seq<char>) -> bool {
    &&& single_spaced(l)
    &&& no_music_notes(l)
    &&& forall|k: int|
        0 <= k < caption_artifacts().len() ==> free_of(l, #[trigger] caption_artifacts()[k])
    &&& l.len() > 0 ==> !crate::text::in_class(CharClass::LineDecoration, l[0])
        && !crate::text::in_class(CharClass::LineDecoration, l.last())
}

proof fn lemma_clean_line_facts(raw: Seq<char>)
    ensures
        clean_line_facts(clean_caption_line(raw)),
{
    let arts = caption_artifacts();
    lemma_artifacts_plain();
    let n = replace_music_notes(raw);
    assert forall|i: int| 0 <= i < n.len() implies !is_music_note(#[trigger] n[i]) by {}
    let y = replace_each_by_space(n, arts);
    lemma_replace_each_keeps_no_notes(n, arts);
    lemma_replace_each_free(n, arts);
    let k = CharClass::LineDecoration;
    let a = trim_start_class(y, k);
    crate::text::lemma_trim_start_shape(y, k);
    crate::text::lemma_trim_end_shape(a, k);
    crate::text::lemma_trim_shape(y, k);
    let x = trim_class(y, k);
    assert(a == y.subrange(y.len() - a.len(), y.len() as int));
    assert(x == a.subrange(0, x.len() as int));
    assert forall|q: int| 0 <= q < arts.len() implies free_of(x, #[trigger] arts[q]) by {
        lemma_free_subrange(y, arts[q], y.len() - a.len(), y.len() as int);
        lemma_free_subrange(a, arts[q], 0, x.len() as int);
    }
    assert forall|i: int| 0 <= i < x.len() implies !is_music_note(#[trigger] x[i]) by {
        assert(x[i] == a[i]);
        assert(a[i] == y[y.len() - a.len() + i]);
    }
    let l = collapse_whitespace(x);
    assert(l == clean_caption_line(raw));
    lemma_collapse_shape(x);
    lemma_collapse_keeps_no_notes(x);
    assert forall|q: int| 0 <= q < arts.len() implies free_of(l, #[trigger] arts[q]) by {
        lemma_collapse_free(x, arts[q]);
    }
    if l.len() > 0 {
        if x.len() == 0 {
            assert(collapse_state(x) == (Seq::<char>::empty(), true));
        }
        lemma_collapse_first(x);
        lemma_collapse_last(x);
    }
}

proof fn lemma_kept_lines_clean(lines: Seq<Seq<char>>)
    ensures
        forall|k: int|
            0 <= k < dedupe_state(lines).0.len() ==> clean_line_facts(#[trigger] dedupe_state(lines).0[k])
                && dedupe_state(lines).0[k].len() > 0 && normalize_for_dedupe(
                dedupe_state(lines).0[k],
            ).len() > 0,
    decreases lines.len(),
{
    if lines.len() > 0 {
        lemma_kept_lines_clean(lines.drop_last());
        let (kept, seen) = dedupe_state(lines.drop_last());
        let line = clean_caption_line(lines.last());
        lemma_clean_line_facts(lines.last());
        let nk = dedupe_state(lines).0;
        assert forall|k: int| 0 <= k < nk.len() implies clean_line_facts(#[trigger] nk[k]) && nk[k].len()
            > 0 && normalize_for_dedupe(nk[k]).len() > 0 by {
            if k < kept.len() {
                assert(nk[k] == kept[k]);
            } else {
                assert(nk[k] == line);
            }
        }
    }
}

/// Law: cleaning cleaned caption text changes nothing.
pub proof fn law_cleaning_twice_changes_nothing(text: Seq<char>)
    ensures
        spec_clean_caption_text(spec_clean_caption_text(text)) == spec_clean_caption_text(text),
{
    law_cleaned_text_is_one_trimmed_line(text);
    let kept = dedupe_state(text_lines(text)).0;
    let r = spec_clean_caption_text(text);
    lemma_kept_lines_shape(text_lines(text));
    lemma_join_shape(kept);
    crate::text::lemma_trim_noop(join_state(kept), CharClass::Whitespace);
    assert(r == join_state(kept));
    if kept.len() == 0 {
        assert(r == Seq::<char>::empty());
        lemma_clean_empty();
    } else {
        lemma_kept_lines_clean(text_lines(text));
        let arts = caption_artifacts();
        lemma_artifacts_plain();
        assert forall|k: int| 0 <= k < kept.len() implies no_music_notes(#[trigger] kept[k]) by {
            assert(clean_line_facts(kept[k]));
        }
        lemma_join_keeps_no_notes(kept);
        assert forall|q: int| 0 <= q < arts.len() implies free_of(r, #[trigger] arts[q]) by {
            assert forall|k: int| 0 <= k < kept.len() implies free_of(#[trigger] kept[k], arts[q]) by {
                assert(clean_line_facts(kept[k]));
            }
            lemma_join_free(kept, arts[q]);
        }
        assert forall|k: int| 0 <= k < kept.len() implies #[trigger] kept[k].len() > 0 by {}
        lemma_join_ends(kept);
        assert(clean_line_facts(kept[0]));
        assert(clean_line_facts(kept[kept.len() - 1]));
        assert(r[0] == kept[0][0]);
        // The cleaned text is its own only line.
        lemma_line_state_plain(r);
        assert(text_lines(r) == seq![r]);
        // That line is already clean.
        assert(replace_music_notes(r) =~= r);
        assert forall|q: int| 0 <= q < arts.len() implies #[trigger] arts[q].len() > 0 && free_of(r, arts[q]) by {}
        lemma_replace_each_noop(r, arts);
        crate::text::lemma_trim_noop(r, CharClass::LineDecoration);
        lemma_collapse_noop(r);
        assert(clean_caption_line(r) == r);
        // Its key is not empty.
        assert(normalize_for_dedupe(kept[0]).len() > 0);
        lemma_key_has_alphanumeric(kept[0]);
        let i = choose|i: int| 0 <= i < kept[0].len() && crate::text::char_is_alphanumeric(#[trigger] kept[0][i]);
        assert(r[i] == kept[0][i]);
        lemma_trim_keeps(r, CharClass::NonAlphanumeric, i);
        assert(trim(r) == r);
        let key = normalize_for_dedupe(r);
        assert(key.len() > 0);
        let one = seq![r];
        assert(one.drop_last() =~= Seq::<Seq<char>>::empty());
        assert(one.last() == r);
        assert(dedupe_state(one.drop_last()) == (Seq::<Seq<char>>::empty(), Seq::<Seq<char>>::empty()));
        assert(dedupe_state(one).0 == seq![r]);
        assert(seq![r].drop_last() =~= Seq::<Seq<char>>::empty());
        assert(join_state(seq![r].drop_last()) == Seq::<char>::empty());
        assert(Seq::<char>::empty() + r =~= r);
        assert(join_state(seq![r]) == Seq::<char>::empty() + r);
    }
}

proof fn lemma_line_state_after_newline(r: Seq<char>)
    ensures
        line_state(seq!['\n'] + r) == (seq![Seq::<char>::empty()] + line_state(r).0, line_state(r).1),
    decreases r.len(),
{
    let e = Seq::<char>::empty();
    if r.len() == 0 {
        assert(seq!['\n'] + r =~= seq!['\n']);
        assert(seq!['\n'].drop_last() =~= e);
        assert(line_state(e) == (Seq::<Seq<char>>::empty(), e));
        assert(strip_carriage_return(e) == e);
        assert(seq![e] + Seq::<Seq<char>>::empty() =~= Seq::<Seq<char>>::empty().push(e));
    } else {
        lemma_line_state_after_newline(r.drop_last());
        assert((seq!['\n'] + r).drop_last() =~= seq!['\n'] + r.drop_last());
        assert((seq!['\n'] + r).last() == r.last());
        let (d, c) = line_state(r.drop_last());
        if r.last() == '\n' {
            assert((seq![e] + d).push(strip_carriage_return(c)) =~= seq![e] + d.push(
                strip_carriage_return(c),
            ));
        }
    }
}

proof fn lemma_clean_line_empty()
    ensures
        clean_caption_line(Seq::<char>::empty()) == Seq::<char>::empty(),
{
    let e = Seq::<char>::empty();
    assert(replace_music_notes(e) =~= e);
    lemma_artifacts_nonempty();
    assert forall|k: int| 0 <= k < caption_artifacts().len() implies #[trigger] caption_artifacts()[k].len()
        > 0 && free_of(e, caption_artifacts()[k]) by {
        assert forall|i: int| !#[trigger] occurs_at(e, caption_artifacts()[k], i) by {}
    }
    lemma_replace_each_noop(e, caption_artifacts());
    crate::text::lemma_trim_shape(e, CharClass::LineDecoration);
    assert(collapse_state(e) == (e, true));
}

proof fn lemma_dedupe_after_empty_line(lines: Seq<Seq<char>>)
    ensures
        dedupe_state(seq![Seq::<char>::empty()] + lines) == dedupe_state(lines),
    decreases lines.len(),
{
    let e = Seq::<char>::empty();
    lemma_clean_line_empty();
    if lines.len() == 0 {
        assert(seq![e] + lines =~= seq![e]);
        assert(seq![e].drop_last() =~= Seq::<Seq<char>>::empty());
        assert(seq![e].last() == e);
        let z = Seq::<Seq<char>>::empty();
        assert(dedupe_state(z) == (z, z));
        assert(dedupe_state(seq![e]) == (z, z));
    } else {
        lemma_dedupe_after_empty_line(lines.drop_last());
        assert((seq![e] + lines).drop_last() =~= seq![e] + lines.drop_last());
        assert((seq![e] + lines).last() == lines.last());
    }
}

/// A line break in front of a text changes nothing of its cleaning.
pub proof fn lemma_clean_after_newline(r: Seq<char>)
    ensures
        spec_clean_caption_text(seq!['\n'] + r) == spec_clean_caption_text(r),
{
    let e = Seq::<char>::empty();
    lemma_line_state_after_newline(r);
    let (d, c) = line_state(r);
    if c.len() == 0 {
        assert(text_lines(seq!['\n'] + r) == seq![e] + text_lines(r));
    } else {
        assert((seq![e] + d).push(c) =~= seq![e] + d.push(c));
        assert(text_lines(seq!['\n'] + r) == seq![e] + text_lines(r));
    }
    lemma_dedupe_after_empty_line(text_lines(r));
}

fn contains_chars(seen: &Vec<Vec<char>>, key: &[char]) -> (r: bool)
    ensures
        r == views(seen@).contains(key@),
{
    let mut i: usize = 0;
    while i < seen.len()
        invariant
            i <= seen@.len(),
            forall|j: int| 0 <= j < i ==> seen@[j]@ != key@,
        decreases seen@.len() - i,
    {
        if chars_eq(&seen[i], key) {
            assert(views(seen@)[i as int] == key@);
            return true;
        }
        i = i + 1;
    }
    assert(!views(seen@).contains(key@)) by {
        if views(seen@).contains(key@) {
            let j = choose|j: int| 0 <= j < views(seen@).len() && views(seen@)[j] == key@;
            assert(seen@[j]@ == key@);
        }
    }
    false
}

pub fn clean_caption_text_chars(text: &[char]) -> (r: Vec<char>)
    ensures
        r@ == spec_clean_caption_text(text@),
{
    let lines = split_lines(text);
    let ghost ls = text_lines(text@);
    let mut kept: Vec<Vec<char>> = Vec::new();
    let mut seen: Vec<Vec<char>> = Vec::new();
    let mut i: usize = 0;
    assert(ls.take(0) =~= Seq::<Seq<char>>::empty());
    assert(views(kept@) =~= Seq::<Seq<char>>::empty());
    assert(views(seen@) =~= Seq::<Seq<char>>::empty());
    while i < lines.len()
        invariant
            views(lines@) == ls,
            i <= lines@.len(),
            (views(kept@), views(seen@)) == dedupe_state(ls.take(i as int)),
        decreases lines@.len() - i,
    {
        assert(ls.take(i as int + 1).drop_last() =~= ls.take(i as int));
        assert(ls.take(i as int + 1).last() == lines@[i as int]@);
        let line = clean_caption_line_chars(&lines[i]);
        let key = normalize_for_dedupe_chars(&line);
        if line.len() == 0 || key.len() == 0 || contains_chars(&seen, &key) {
        } else {
            let ghost old_kept = kept@;
            let ghost old_seen = seen@;
            kept.push(line);
            seen.push(key);
            assert(views(kept@) =~= views(old_kept).push(line@));
            assert(views(seen@) =~= views(old_seen).push(key@));
        }
        i = i + 1;
    }
    assert(ls.take(lines@.len() as int) =~= ls);
    join_caption_sentences_chars(&kept)
}

pub fn join_caption_sentences_chars(lines: &Vec<Vec<char>>) -> (r: Vec<char>)
    ensures
        r@ == join_caption_sentences(views(lines@)),
{
    let ghost ls = views(lines@);
    let mut out: Vec<char> = Vec::new();
    let mut i: usize = 0;
    assert(ls.take(0) =~= Seq::<Seq<char>>::empty());
    while i < lines.len()
        invariant
            ls == views(lines@),
            i <= lines@.len(),
            out@ == join_state(ls.take(i as int)),
        decreases lines@.len() - i,
    {
        assert(ls.take(i as int + 1).drop_last() =~= ls.take(i as int));
        assert(ls.take(i as int + 1).last() == lines@[i as int]@);
        if out.len() > 0 {
            out.push(' ');
        }
        append_chars(&mut out, &lines[i]);
        i = i + 1;
    }
    assert(ls.take(lines@.len() as int) =~= ls);
    trim_chars(&out)
}

/// Cleans caption text: see `spec_clean_caption_text`.
pub fn clean_caption_text(text: &str) -> (r: String)
    ensures
        r@ == spec_clean_caption_text(text@),
{
    let chars = chars_of(text);
    let out = clean_caption_text_chars(&chars);
    string_of(&out)
}

} // verus!

//! Word-level matching between caption snapshots: tokenisation, tolerant
//! token comparison, and the searches that locate one snapshot inside another.
use vstd::prelude::*;

use crate::text::{
    append_chars, char_is_alphanumeric, char_lowercase, is_alphanumeric, lowercase_of,
    starts_with, sub_chars, trim, trim_chars,
};

verus! {

/// Minimum number of matched word characters before an overlap is trusted.
pub const MIN_SOURCE_OVERLAP_CHARS: usize = 8;

/// A word of a caption snapshot: its lowercased characters and the index of
/// its first character in the snapshot.
pub struct Token {
    pub norm: Seq<char>,
    pub start: int,
}

/// Executable form of `Token`.
pub struct SourceToken {
    pub normalized: Vec<char>,
    pub start: usize,
}

impl View for SourceToken {
    type V = Token;

    open spec fn view(&self) -> Token {
        Token { norm: self.normalized@, start: self.start as int }
    }
}

pub open spec fn token_views(v: Seq<SourceToken>) -> Seq<Token> {
    Seq::new(v.len(), |i: int| v[i]@)
}

// ---------------------------------------------------------------------------
// Tokenisation
// ---------------------------------------------------------------------------

/// Scans `s`: the finished words, the lowercased characters of the word in
/// progress, and where that word started.
pub open spec fn token_state(s: Seq<char>) -> (Seq<Token>, Seq<char>, Option<int>)
    decreases s.len(),
{
    if s.len() == 0 {
        (Seq::empty(), Seq::empty(), None)
    } else {
        let (toks, norm, start) = token_state(s.drop_last());
        let i = s.len() - 1;
        let c = s.last();
        if char_is_alphanumeric(c) {
            (toks, norm + char_lowercase(c), if start is Some { start } else { Some(i) })
        } else if start is Some {
            (toks.push(Token { norm, start: start->0 }), Seq::empty(), None)
        } else {
            (toks, norm, None)
        }
    }
}

/// The maximal runs of alphanumeric characters of `s`, lowercased.
pub open spec fn tokenize(s: Seq<char>) -> Seq<Token> {
    let (toks, norm, start) = token_state(s);
    if start is Some {
        toks.push(Token { norm, start: start->0 })
    } else {
        toks
    }
}

pub open spec fn starts_within(t: Seq<Token>, n: int) -> bool {
    forall|i: int| 0 <= i < t.len() ==> 0 <= #[trigger] t[i].start < n
}

pub open spec fn opt_int(o: Option<usize>) -> Option<int> {
    match o {
        Some(x) => Some(x as int),
        None => None,
    }
}

pub fn source_tokens(text: &[char]) -> (r: Vec<SourceToken>)
    ensures
        token_views(r@) == tokenize(text@),
        starts_within(tokenize(text@), text@.len() as int),
{
    let mut tokens: Vec<SourceToken> = Vec::new();
    let mut normalized: Vec<char> = Vec::new();
    let mut start: Option<usize> = None;
    let mut i: usize = 0;
    assert(text@.take(0) =~= Seq::<char>::empty());
    assert(token_views(tokens@) =~= Seq::<Token>::empty());
    while i < text.len()
        invariant
            i <= text@.len(),
            (token_views(tokens@), normalized@, opt_int(start)) == token_state(text@.take(i as int)),
            starts_within(token_views(tokens@), i as int),
            start matches Some(s) ==> s < i,
        decreases text@.len() - i,
    {
        assert(text@.take(i as int + 1).drop_last() =~= text@.take(i as int));
        let c = text[i];
        if is_alphanumeric(c) {
            if start.is_none() {
                start = Some(i);
            }
            let lower = lowercase_of(c);
            append_chars(&mut normalized, &lower);
        } else if let Some(s) = start {
            let ghost old_tokens = tokens@;
            let tok = SourceToken { normalized, start: s };
            tokens.push(tok);
            assert(token_views(tokens@) =~= token_views(old_tokens).push(
                Token { norm: tok.normalized@, start: s as int },
            ));
            normalized = Vec::new();
            start = None;
        }
        i = i + 1;
    }
    assert(text@.take(text@.len() as int) =~= text@);
    if let Some(s) = start {
        let ghost old_tokens = tokens@;
        let tok = SourceToken { normalized, start: s };
        tokens.push(tok);
        assert(token_views(tokens@) =~= token_views(old_tokens).push(
            Token { norm: tok.normalized@, start: s as int },
        ));
    }
    tokens
}

// ---------------------------------------------------------------------------
// Single-token comparison
// ---------------------------------------------------------------------------

pub open spec fn min_len(a: Seq<char>, b: Seq<char>) -> int {
    if a.len() <= b.len() {
        a.len() as int
    } else {
        b.len() as int
    }
}

/// `a` and `b` agree everywhere except possibly at position `k`.
pub open spec fn differs_only_at(a: Seq<char>, b: Seq<char>, k: int) -> bool {
    forall|j: int| 0 <= j < a.len() && j != k ==> a[j] == b[j]
}

/// `a` and `b` are at most one substitution, insertion or deletion apart.
pub open spec fn one_edit_apart(a: Seq<char>, b: Seq<char>) -> bool {
    ||| (a.len() == b.len() && exists|k: int| #[trigger] differs_only_at(a, b, k))
    ||| (a.len() + 1 == b.len() && exists|k: int| 0 <= k < b.len() && #[trigger] b.remove(k) == a)
    ||| (b.len() + 1 == a.len() && exists|k: int| 0 <= k < a.len() && #[trigger] a.remove(k) == b)
}

/// Two words are similar when they are equal, when one extends the other and
/// both have at least four characters, or when both have at least four
/// characters and are one edit apart.
pub open spec fn tokens_similar(l: Seq<char>, r: Seq<char>) -> bool {
    ||| l == r
    ||| (min_len(l, r) >= 4 && (r.is_prefix_of(l) || l.is_prefix_of(r)))
    ||| (min_len(l, r) >= 4 && one_edit_apart(l, r))
}

/// First position at which `s` and `l` differ, where `s` is at most as long.
proof fn lemma_remove_at_first_mismatch(s: Seq<char>, l: Seq<char>, k: int, k0: int)
    requires
        s.len() + 1 == l.len(),
        0 <= k < l.len(),
        l.remove(k) == s,
        0 <= k0 < s.len(),
        s[k0] != l[k0],
        forall|j: int| 0 <= j < k0 ==> s[j] == l[j],
    ensures
        l.remove(k0) =~= s,
{
    if k > k0 {
        assert(l.remove(k)[k0] == l[k0]);
    }
    assert forall|m: int| 0 <= m < s.len() implies #[trigger] l.remove(k0)[m] == s[m] by {
        if m >= k0 {
            assert(l.remove(k)[m] == l[m + 1]);
        }
    }
}

pub fn is_one_edit_apart(left: &[char], right: &[char]) -> (r: bool)
    ensures
        r == one_edit_apart(left@, right@),
{
    let ll = left.len();
    let rl = right.len();
    if (ll > rl && ll - rl > 1) || (rl > ll && rl - ll > 1) {
        return false;
    }
    let left_is_shorter = ll <= rl;
    let (shorter, longer) = if left_is_shorter {
        (left, right)
    } else {
        (right, left)
    };
    let ghost s = shorter@;
    let ghost l = longer@;
    let same_len = shorter.len() == longer.len();
    let mut si: usize = 0;
    let mut li: usize = 0;
    let mut edits: usize = 0;
    let ghost mut k0: int = 0;
    while si < shorter.len() && li < longer.len()
        invariant
            s == shorter@,
            l == longer@,
            left_is_shorter ==> (s == left@ && l == right@),
            !left_is_shorter ==> (s == right@ && l == left@),
            s.len() <= l.len() <= s.len() + 1,
            same_len == (s.len() == l.len()),
            edits <= 1,
            edits == 0 ==> si == li && forall|j: int| 0 <= j < si ==> s[j] == l[j],
            edits == 1 ==> {
                &&& 0 <= k0 < l.len()
                &&& k0 < s.len() ==> s[k0] != l[k0]
                &&& forall|j: int| 0 <= j < k0 ==> s[j] == l[j]
                &&& if same_len {
                    &&& si == li
                    &&& k0 < si
                    &&& forall|j: int| k0 < j < si ==> s[j] == l[j]
                } else {
                    &&& li == si + 1
                    &&& k0 <= si
                    &&& forall|j: int| k0 <= j < si ==> s[j] == l[j + 1]
                }
            },
            si <= s.len(),
            li <= l.len(),
        decreases s.len() + l.len() - si - li,
    {
        if shorter[si] == longer[li] {
            si = si + 1;
            li = li + 1;
            continue;
        }
        if edits == 1 {
            // A second mismatch: no single edit relates the two words.
            proof {
                if same_len {
                    assert forall|k: int| !differs_only_at(s, l, k) by {
                        if differs_only_at(s, l, k) {
                            if k == k0 {
                                assert(s[si as int] == l[si as int]);
                            } else {
                                assert(s[k0] == l[k0]);
                            }
                        }
                    }
                    assert forall|k: int| !differs_only_at(l, s, k) by {
                        if differs_only_at(l, s, k) {
                            if k == k0 {
                                assert(l[si as int] == s[si as int]);
                            } else {
                                assert(l[k0] == s[k0]);
                            }
                        }
                    }
                } else {
                    assert forall|k: int| 0 <= k < l.len() implies #[trigger] l.remove(k) != s by {
                        if l.remove(k) == s {
                            lemma_remove_at_first_mismatch(s, l, k, k0);
                            assert(l.remove(k0)[si as int] == l[si + 1]);
                        }
                    }
                }
            }
            proof {
                if left_is_shorter {
                    assert(s == left@ && l == right@);
                } else {
                    assert(s == right@ && l == left@);
                }
            }
            return false;
        }
        proof {
            k0 = si as int;
        }
        edits = 1;
        if same_len {
            si = si + 1;
        }
        li = li + 1;
    }
    let tail: usize = if li < longer.len() {
        1
    } else {
        0
    };
    let result = edits + tail <= 1;
    proof {
        if same_len {
            // Equal lengths: at most one differing position.
            assert(si == s.len());
            if edits == 0 {
                assert(differs_only_at(s, l, 0));
                assert(differs_only_at(l, s, 0));
            } else {
                assert(differs_only_at(s, l, k0));
                assert(differs_only_at(l, s, k0));
            }
            assert(result);
        } else {
            if edits == 0 {
                // The shorter word is a prefix: deleting the last character works.
                assert(si == s.len());
                assert(li == s.len());
                assert(l.remove(s.len() as int) =~= s);
                assert(result);
            } else {
                assert(si == s.len());
                assert(l.remove(k0) =~= s) by {
                    assert forall|m: int| 0 <= m < s.len() implies #[trigger] l.remove(k0)[m]
                        == s[m] by {
                        if m >= k0 {
                            assert(s[m] == l[m + 1]);
                        }
                    }
                }
                assert(result);
            }
        }
        if left_is_shorter {
            assert(s == left@ && l == right@);
        } else {
            assert(s == right@ && l == left@);
        }
    }
    result
}

pub fn tokens_are_similar(left: &[char], right: &[char]) -> (r: bool)
    ensures
        r == tokens_similar(left@, right@),
{
    let shorter_len = if left.len() <= right.len() {
        left.len()
    } else {
        right.len()
    };
    if crate::text::chars_eq(left, right) {
        return true;
    }
    if shorter_len >= 4 && (starts_with(left, right) || starts_with(right, left)) {
        return true;
    }
    shorter_len >= 4 && is_one_edit_apart(left, right)
}

// ---------------------------------------------------------------------------
// Token sequences
// ---------------------------------------------------------------------------

/// How many mismatching words a run of `n` words may contain.
pub open spec fn allowed_mismatches(n: int) -> int {
    if n >= 4 {
        if n / 8 >= 1 {
            n / 8
        } else {
            1
        }
    } else {
        0
    }
}

pub fn allowed_token_mismatches(n: usize) -> (r: usize)
    ensures
        r == allowed_mismatches(n as int),
{
    if n >= 4 {
        if n / 8 >= 1 {
            n / 8
        } else {
            1
        }
    } else {
        0
    }
}

/// Total number of word characters in `t`.
pub open spec fn total_chars(t: Seq<Token>) -> int
    decreases t.len(),
{
    if t.len() == 0 {
        0
    } else {
        total_chars(t.drop_last()) + t.last().norm.len()
    }
}

/// Whether the words of `t` carry enough characters to be matched reliably.
pub open spec fn has_minimum_strength(t: Seq<Token>) -> bool {
    total_chars(t) >= MIN_SOURCE_OVERLAP_CHARS
}

pub fn tokens_have_minimum_strength(t: &[SourceToken]) -> (r: bool)
    ensures
        r == has_minimum_strength(token_views(t@)),
{
    let ghost tv = token_views(t@);
    let mut sum: usize = 0;
    let mut i: usize = 0;
    assert(tv.take(0) =~= Seq::<Token>::empty());
    while i < t.len()
        invariant
            tv == token_views(t@),
            i <= t@.len(),
            sum < MIN_SOURCE_OVERLAP_CHARS ==> sum == total_chars(tv.take(i as int)),
            sum >= MIN_SOURCE_OVERLAP_CHARS ==> total_chars(tv.take(i as int))
                >= MIN_SOURCE_OVERLAP_CHARS,
            sum < 2 * MIN_SOURCE_OVERLAP_CHARS,
        decreases t@.len() - i,
    {
        assert(tv.take(i as int + 1).drop_last() =~= tv.take(i as int));
        assert(tv.take(i as int + 1).last() == t@[i as int]@);
        proof {
            lemma_total_chars_nonneg(tv.take(i as int));
        }
        if sum < MIN_SOURCE_OVERLAP_CHARS {
            let n = t[i].normalized.len();
            let add = if n < MIN_SOURCE_OVERLAP_CHARS {
                n
            } else {
                MIN_SOURCE_OVERLAP_CHARS
            };
            sum = sum + add;
        }
        i = i + 1;
    }
    assert(tv.take(t@.len() as int) =~= tv);
    sum >= MIN_SOURCE_OVERLAP_CHARS
}

pub proof fn lemma_total_chars_nonneg(t: Seq<Token>)
    ensures
        total_chars(t) >= 0,
    decreases t.len(),
{
    if t.len() > 0 {
        lemma_total_chars_nonneg(t.drop_last());
    }
}

/// Number of the first `k` words of `n` that are not similar to the words of
/// `h` from position `p` on.
pub open spec fn window_mismatches(h: Seq<Token>, p: int, n: Seq<Token>, k: int) -> int
    decreases k,
{
    if k <= 0 {
        0
    } else {
        window_mismatches(h, p, n, k - 1) + if tokens_similar(h[p + k - 1].norm, n[k - 1].norm) {
            0int
        } else {
            1int
        }
    }
}

/// The words of `h` from position `p` on match the non-empty `n`, with the
/// allowed number of mismatches.
pub open spec fn window_similar(h: Seq<Token>, p: int, n: Seq<Token>) -> bool {
    &&& n.len() > 0
    &&& 0 <= p
    &&& p + n.len() <= h.len()
    &&& window_mismatches(h, p, n, n.len() as int) <= allowed_mismatches(n.len() as int)
}

fn token_sequences_are_similar(h: &[SourceToken], p: usize, n: &[SourceToken]) -> (r: bool)
    requires
        n@.len() > 0,
        p + n@.len() <= h@.len(),
    ensures
        r == window_similar(token_views(h@), p as int, token_views(n@)),
{
    let ghost hv = token_views(h@);
    let ghost nv = token_views(n@);
    let mut mismatches: usize = 0;
    let mut k: usize = 0;
    let hl = h.len();
    while k < n.len()
        invariant
            hl == h@.len(),
            hv == token_views(h@),
            nv == token_views(n@),
            p + n@.len() <= h@.len(),
            k <= n@.len(),
            mismatches == window_mismatches(hv, p as int, nv, k as int),
            mismatches <= k,
        decreases n@.len() - k,
    {
        assert(hv[p + k] == h@[p + k]@);
        assert(nv[k as int] == n@[k as int]@);
        if !tokens_are_similar(&h[p + k].normalized, &n[k].normalized) {
            mismatches = mismatches + 1;
        }
        k = k + 1;
    }
    mismatches <= allowed_token_mismatches(n.len())
}

/// The first position from `p` on at which `n` matches `h`.
pub open spec fn first_similar_window(h: Seq<Token>, n: Seq<Token>, p: int) -> Option<int>
    decreases h.len() + 1 - p,
{
    if p < 0 || p + n.len() > h.len() {
        None
    } else if window_similar(h, p, n) {
        Some(p)
    } else {
        first_similar_window(h, n, p + 1)
    }
}

/// Where `needle` first occurs in `haystack` word by word, tolerating small
/// recognition differences; `None` for an empty or too weak needle.
pub open spec fn similar_sequence_start(haystack: Seq<Token>, needle: Seq<Token>) -> Option<int> {
    if needle.len() == 0 || needle.len() > haystack.len() || !has_minimum_strength(needle) {
        None
    } else {
        first_similar_window(haystack, needle, 0)
    }
}

pub fn find_similar_sequence(haystack: &[SourceToken], needle: &[SourceToken]) -> (r: Option<
    usize,
>)
    ensures
        opt_int(r) == similar_sequence_start(token_views(haystack@), token_views(needle@)),
{
    let ghost hv = token_views(haystack@);
    let ghost nv = token_views(needle@);
    if needle.len() == 0 || needle.len() > haystack.len() || !tokens_have_minimum_strength(
        needle,
    ) {
        return None;
    }
    let last = haystack.len() - needle.len();
    let hl = haystack.len();
    let mut p: usize = 0;
    while p <= last
        invariant
            hl == haystack@.len(),
            hv == token_views(haystack@),
            has_minimum_strength(nv),
            nv.len() <= hv.len(),
            nv == token_views(needle@),
            needle@.len() > 0,
            last + needle@.len() == haystack@.len(),
            p <= last + 1,
            first_similar_window(hv, nv, 0) == first_similar_window(hv, nv, p as int),
        decreases last + 1 - p,
    {
        if token_sequences_are_similar(haystack, p, needle) {
            assert(first_similar_window(hv, nv, p as int) == Some(p as int));
            return Some(p);
        }
        assert(first_similar_window(hv, nv, p as int) == first_similar_window(hv, nv, p + 1));
        p = p + 1;
    }
    None
}

// ---------------------------------------------------------------------------
// Rolling-window suffix overlap
// ---------------------------------------------------------------------------

/// Number of similar characters when the last `len` words of `prev` are laid
/// over the `len` words of `cur` that end at `end`.
pub open spec fn suffix_matched_chars(prev: Seq<Token>, cur: Seq<Token>, end: int, len: int) -> int
    decreases len,
{
    if len <= 0 {
        0
    } else {
        let pt = prev[prev.len() - len].norm;
        let ct = cur[end - len].norm;
        suffix_matched_chars(prev, cur, end, len - 1) + if tokens_similar(pt, ct) {
            min_len(pt, ct)
        } else {
            0
        }
    }
}

/// Number of dissimilar word pairs in the same overlay.
pub open spec fn suffix_mismatches(prev: Seq<Token>, cur: Seq<Token>, end: int, len: int) -> int
    decreases len,
{
    if len <= 0 {
        0
    } else {
        suffix_mismatches(prev, cur, end, len - 1) + if tokens_similar(
            prev[prev.len() - len].norm,
            cur[end - len].norm,
        ) {
            0int
        } else {
            1int
        }
    }
}

/// The last `len` words of `prev` reappear, tolerantly, as the words of `cur`
/// starting at `start`.
pub open spec fn suffix_candidate(prev: Seq<Token>, cur: Seq<Token>, start: int, len: int) -> bool {
    &&& 0 <= start
    &&& 1 <= len <= prev.len()
    &&& start + len <= cur.len()
    &&& suffix_matched_chars(prev, cur, start + len, len) >= MIN_SOURCE_OVERLAP_CHARS
    &&& suffix_mismatches(prev, cur, start + len, len) <= allowed_mismatches(len)
}

/// `(start, len)` is a candidate and no candidate is longer, or as long and earlier.
pub open spec fn best_suffix_candidate(prev: Seq<Token>, cur: Seq<Token>, start: int, len: int) -> bool {
    &&& suffix_candidate(prev, cur, start, len)
    &&& forall|s2: int, l2: int|
        #[trigger] suffix_candidate(prev, cur, s2, l2) ==> l2 < len || (l2 == len && s2 >= start)
}

/// The longest tail of `prev` that reappears in `cur`, earliest first among
/// equally long ones, as `(start in cur, number of words)`.
pub open spec fn find_similar_suffix(prev: Seq<Token>, cur: Seq<Token>) -> Option<(int, int)> {
    if exists|s: int, l: int| best_suffix_candidate(prev, cur, s, l) {
        Some(choose|s: int, l: int| best_suffix_candidate(prev, cur, s, l))
    } else {
        None
    }
}

proof fn lemma_best_unique(prev: Seq<Token>, cur: Seq<Token>, s: int, l: int, s2: int, l2: int)
    requires
        best_suffix_candidate(prev, cur, s, l),
        best_suffix_candidate(prev, cur, s2, l2),
    ensures
        s == s2 && l == l2,
{
    assert(suffix_candidate(prev, cur, s2, l2));
    assert(suffix_candidate(prev, cur, s, l));
}

pub open spec fn opt_pair(o: Option<(usize, usize)>) -> Option<(int, int)> {
    match o {
        Some((a, b)) => Some((a as int, b as int)),
        None => None,
    }
}

pub fn find_similar_suffix_in_current(prev: &[SourceToken], cur: &[SourceToken]) -> (r: Option<
    (usize, usize),
>)
    ensures
        opt_pair(r) == find_similar_suffix(token_views(prev@), token_views(cur@)),
        r matches Some((s, l)) ==> s + l <= cur@.len(),
{
    let ghost pv = token_views(prev@);
    let ghost cv = token_views(cur@);
    let mut best: Option<(usize, usize)> = None;
    let mut e: usize = 0;
    while e < cur.len()
        invariant
            pv == token_views(prev@),
            cv == token_views(cur@),
            e <= cur@.len(),
            best matches Some((bs, bl)) ==> bs + bl <= e && suffix_candidate(
                pv,
                cv,
                bs as int,
                bl as int,
            ),
            forall|s2: int, l2: int|
                #[trigger] suffix_candidate(pv, cv, s2, l2) && s2 + l2 <= e ==> (best matches Some(
                    (bs, bl),
                ) && (l2 < bl || (l2 == bl && s2 >= bs))),
        decreases cur@.len() - e,
    {
        let current_end = e + 1;
        let maximum_overlap = if prev.len() < current_end {
            prev.len()
        } else {
            current_end
        };
        let mut mismatches: usize = 0;
        let mut matched: usize = 0;
        let mut o: usize = 0;
        while o < maximum_overlap
            invariant
                pv == token_views(prev@),
                cv == token_views(cur@),
                current_end == e + 1,
                1 <= current_end <= cur@.len(),
                maximum_overlap <= prev@.len(),
                maximum_overlap <= current_end,
                prev@.len() < current_end ==> maximum_overlap == prev@.len(),
                prev@.len() >= current_end ==> maximum_overlap == current_end,
                o <= maximum_overlap,
                mismatches == suffix_mismatches(pv, cv, current_end as int, o as int),
                mismatches <= o,
                matched < MIN_SOURCE_OVERLAP_CHARS ==> matched == suffix_matched_chars(
                    pv,
                    cv,
                    current_end as int,
                    o as int,
                ),
                matched >= MIN_SOURCE_OVERLAP_CHARS ==> suffix_matched_chars(
                    pv,
                    cv,
                    current_end as int,
                    o as int,
                ) >= MIN_SOURCE_OVERLAP_CHARS,
                matched < 2 * MIN_SOURCE_OVERLAP_CHARS,
                best matches Some((bs, bl)) ==> bs + bl <= current_end && suffix_candidate(
                    pv,
                    cv,
                    bs as int,
                    bl as int,
                ),
                forall|s2: int, l2: int|
                    #[trigger] suffix_candidate(pv, cv, s2, l2) && (s2 + l2 < current_end || (s2
                        + l2 == current_end && l2 <= o)) ==> (best matches Some((bs, bl)) && (l2
                        < bl || (l2 == bl && s2 >= bs))),
            decreases maximum_overlap - o,
        {
            let overlap_len = o + 1;
            let pi = prev.len() - overlap_len;
            let ci = current_end - overlap_len;
            assert(pv[pi as int] == prev@[pi as int]@);
            assert(cv[ci as int] == cur@[ci as int]@);
            proof {
                lemma_suffix_matched_nonneg(pv, cv, current_end as int, o as int);
            }
            if tokens_are_similar(&prev[pi].normalized, &cur[ci].normalized) {
                if matched < MIN_SOURCE_OVERLAP_CHARS {
                    let a = prev[pi].normalized.len();
                    let b = cur[ci].normalized.len();
                    let m = if a <= b {
                        a
                    } else {
                        b
                    };
                    let add = if m < MIN_SOURCE_OVERLAP_CHARS {
                        m
                    } else {
                        MIN_SOURCE_OVERLAP_CHARS
                    };
                    matched = matched + add;
                }
            } else {
                mismatches = mismatches + 1;
            }
            let allowed = allowed_token_mismatches(overlap_len);
            if !(matched < MIN_SOURCE_OVERLAP_CHARS || mismatches > allowed) {
                let start = current_end - overlap_len;
                assert(suffix_candidate(pv, cv, start as int, overlap_len as int));
                let should_replace = match best {
                    None => true,
                    Some((best_start, best_len)) => overlap_len > best_len || (overlap_len
                        == best_len && start < best_start),
                };
                if should_replace {
                    best = Some((start, overlap_len));
                }
            } else {
                assert(!suffix_candidate(
                    pv,
                    cv,
                    (current_end - overlap_len) as int,
                    overlap_len as int,
                ));
            }
            o = o + 1;
        }
        assert forall|s2: int, l2: int|
            #[trigger] suffix_candidate(pv, cv, s2, l2) && s2 + l2 <= current_end implies (
            best matches Some((bs, bl)) && (l2 < bl || (l2 == bl && s2 >= bs))) by {
            if s2 + l2 == current_end {
                assert(l2 <= maximum_overlap);
            }
        }
        e = e + 1;
    }
    proof {
        match best {
            Some((bs, bl)) => {
                assert(best_suffix_candidate(pv, cv, bs as int, bl as int));
                let (cs, cl) = choose|s: int, l: int| best_suffix_candidate(pv, cv, s, l);
                lemma_best_unique(pv, cv, bs as int, bl as int, cs, cl);
            },
            None => {
                assert(!exists|s: int, l: int| best_suffix_candidate(pv, cv, s, l));
            },
        }
    }
    best
}

proof fn lemma_suffix_matched_nonneg(prev: Seq<Token>, cur: Seq<Token>, end: int, len: int)
    ensures
        suffix_matched_chars(prev, cur, end, len) >= 0,
    decreases len,
{
    if len > 0 {
        lemma_suffix_matched_nonneg(prev, cur, end, len - 1);
    }
}

// ---------------------------------------------------------------------------
// Character-level helpers
// ---------------------------------------------------------------------------

/// The trimmed text from the start of word `consumed` on; empty when there is
/// no such word.
pub open spec fn text_after_tokens(text: Seq<char>, tokens: Seq<Token>, consumed: int) -> Seq<
    char,
> {
    if 0 <= consumed < tokens.len() {
        trim(text.skip(tokens[consumed].start))
    } else {
        Seq::empty()
    }
}

pub fn text_after_tokens_exec(text: &[char], tokens: &[SourceToken], consumed: usize) -> (r: Vec<
    char,
>)
    requires
        starts_within(token_views(tokens@), text@.len() as int),
    ensures
        r@ == text_after_tokens(text@, token_views(tokens@), consumed as int),
{
    if consumed < tokens.len() {
        let start = tokens[consumed].start;
        assert(token_views(tokens@)[consumed as int].start == start);
        let rest = sub_chars(text, start, text.len());
        assert(rest@ =~= text@.skip(start as int));
        trim_chars(&rest)
    } else {
        Vec::new()
    }
}

/// `end` is a prefix length of `cur` of at least eight characters that
/// `prev` ends with.
pub open spec fn overlap_end_ok(cur: Seq<char>, prev: Seq<char>, end: int) -> bool {
    &&& MIN_SOURCE_OVERLAP_CHARS <= end <= cur.len()
    &&& cur.take(end).is_suffix_of(prev)
}

/// The longest prefix of `cur`, at least eight characters long, that `prev`
/// ends with, as a length.
pub open spec fn longest_source_overlap_end(cur: Seq<char>, prev: Seq<char>) -> Option<int> {
    if exists|e: int| overlap_end_ok(cur, prev, e) {
        Some(choose|e: int| overlap_end_ok(cur, prev, e) && forall|e2: int| #[trigger] overlap_end_ok(cur, prev, e2) ==> e2 <= e)
    } else {
        None
    }
}

pub fn longest_source_overlap_end_exec(cur: &[char], prev: &[char]) -> (r: Option<usize>)
    ensures
        opt_int(r) == longest_source_overlap_end(cur@, prev@),
        r matches Some(e) ==> e <= cur@.len(),
{
    let mut end: usize = cur.len();
    while end >= MIN_SOURCE_OVERLAP_CHARS
        invariant
            end <= cur@.len(),
            forall|e2: int| #[trigger] overlap_end_ok(cur@, prev@, e2) ==> e2 <= end,
        decreases end,
    {
        let prefix = sub_chars(cur, 0, end);
        assert(prefix@ =~= cur@.take(end as int));
        if crate::text::ends_with(prev, &prefix) {
            proof {
                assert(overlap_end_ok(cur@, prev@, end as int));
                let c = choose|e: int|
                    overlap_end_ok(cur@, prev@, e) && forall|e2: int| #[trigger]
                        overlap_end_ok(cur@, prev@, e2) ==> e2 <= e;
                assert(c <= end);
                assert(end <= c);
            }
            return Some(end);
        }
        end = end - 1;
    }
    proof {
        assert forall|e: int| !overlap_end_ok(cur@, prev@, e) by {
            if overlap_end_ok(cur@, prev@, e) {
                assert(e <= end);
            }
        }
    }
    None
}

/// Number of leading characters on which `l` and `r` agree.
pub open spec fn common_prefix_len(l: Seq<char>, r: Seq<char>) -> int
    decreases l.len(),
{
    if l.len() > 0 && r.len() > 0 && l[0] == r[0] {
        1 + common_prefix_len(l.drop_first(), r.drop_first())
    } else {
        0
    }
}

pub fn common_prefix_chars(l: &[char], r: &[char]) -> (n: usize)
    ensures
        n == common_prefix_len(l@, r@),
{
    let mut i: usize = 0;
    assert(l@.skip(0) =~= l@);
    assert(r@.skip(0) =~= r@);
    while i < l.len() && i < r.len() && l[i] == r[i]
        invariant
            i <= l@.len(),
            i <= r@.len(),
            common_prefix_len(l@, r@) == i + common_prefix_len(l@.skip(i as int), r@.skip(
                i as int,
            )),
        decreases l@.len() - i,
    {
        assert(l@.skip(i as int).drop_first() =~= l@.skip(i as int + 1));
        assert(r@.skip(i as int).drop_first() =~= r@.skip(i as int + 1));
        i = i + 1;
    }
    proof {
        if i < l@.len() && i < r@.len() {
            assert(l@.skip(i as int)[0] == l@[i as int]);
            assert(r@.skip(i as int)[0] == r@[i as int]);
        }
    }
    i
}

} // verus!

//! Assembly of the prompt that Mode 1 and Mode 2 submit: the new caption batch
//! after any kept draft, and the active profile prompt in front.
use vstd::prelude::*;

use crate::text::{
    append_chars, chars_eq, chars_of, ends_with, in_class, lemma_trim_idempotent,
    lemma_trim_noop, lemma_trim_shape, starts_with, string_of, trim, trim_chars, CharClass,
};

verus! {

/// `existing` and `new_text`, trimmed, on separate lines; `new_text` is left
/// out when it is empty or already ends `existing`.
pub open spec fn spec_merge_prompt_text(existing: Seq<char>, new_text: Seq<char>) -> Seq<char> {
    let e = trim(existing);
    let n = trim(new_text);
    if e.len() == 0 {
        n
    } else if n.len() == 0 || e == n || n.is_suffix_of(e) {
        e
    } else {
        e.push('\n') + n
    }
}

/// The active profile prompt in front of `prompt`, unless `prompt` already
/// starts with it as its own first line(s).
pub open spec fn spec_merge_profile_prompt(profile_prompt: Seq<char>, prompt: Seq<char>) -> Seq<
    char,
> {
    let p = trim(profile_prompt);
    let q = trim(prompt);
    if p.len() == 0 {
        q
    } else if q == p || (p.is_prefix_of(q) && q.len() > p.len() && q[p.len() as int] == '\n') {
        q
    } else {
        spec_merge_prompt_text(p, q)
    }
}

pub fn merge_prompt_text_chars(existing: &[char], new_text: &[char]) -> (r: Vec<char>)
    ensures
        r@ == spec_merge_prompt_text(existing@, new_text@),
{
    let e = trim_chars(existing);
    let n = trim_chars(new_text);
    if e.len() == 0 {
        return n;
    }
    if n.len() == 0 || chars_eq(&e, &n) || ends_with(&e, &n) {
        return e;
    }
    let mut out = e;
    out.push('\n');
    append_chars(&mut out, &n);
    out
}

/// Combines a kept prompt with a new caption batch; see `spec_merge_prompt_text`.
pub fn merge_prompt_text(existing: &str, new_text: &str) -> (r: String)
    ensures
        r@ == spec_merge_prompt_text(existing@, new_text@),
{
    let e = chars_of(existing);
    let n = chars_of(new_text);
    string_of(&merge_prompt_text_chars(&e, &n))
}

pub fn merge_profile_prompt_chars(profile_prompt: &[char], prompt: &[char]) -> (r: Vec<char>)
    ensures
        r@ == spec_merge_profile_prompt(profile_prompt@, prompt@),
{
    let p = trim_chars(profile_prompt);
    let q = trim_chars(prompt);
    if p.len() == 0 {
        return q;
    }
    if chars_eq(&q, &p) || (starts_with(&q, &p) && q.len() > p.len() && q[p.len()] == '\n') {
        return q;
    }
    merge_prompt_text_chars(&p, &q)
}

/// Puts the active profile prompt in front of a prompt; see
/// `spec_merge_profile_prompt`.
pub fn merge_profile_prompt(profile_prompt: &str, prompt: &str) -> (r: String)
    ensures
        r@ == spec_merge_profile_prompt(profile_prompt@, prompt@),
{
    let p = chars_of(profile_prompt);
    let q = chars_of(prompt);
    string_of(&merge_profile_prompt_chars(&p, &q))
}

proof fn lemma_join_trimmed(e: Seq<char>, n: Seq<char>)
    requires
        e.len() > 0,
        n.len() > 0,
        trim(e) == e,
        trim(n) == n,
    ensures
        trim(e.push('\n') + n) == e.push('\n') + n,
{
    lemma_trim_shape(e, CharClass::Whitespace);
    lemma_trim_shape(n, CharClass::Whitespace);
    let j = e.push('\n') + n;
    assert(j[0] == e[0]);
    assert(j.last() == n.last());
    lemma_trim_noop(j, CharClass::Whitespace);
}

/// The merged prompt is trimmed.
proof fn lemma_merge_prompt_trimmed(existing: Seq<char>, new_text: Seq<char>)
    ensures
        trim(spec_merge_prompt_text(existing, new_text)) == spec_merge_prompt_text(
            existing,
            new_text,
        ),
{
    let e = trim(existing);
    let n = trim(new_text);
    lemma_trim_idempotent(existing, CharClass::Whitespace);
    lemma_trim_idempotent(new_text, CharClass::Whitespace);
    if e.len() > 0 && !(n.len() == 0 || e == n || n.is_suffix_of(e)) {
        lemma_join_trimmed(e, n);
    }
}

/// Law: merging keeps the existing prompt in front and ends with the new text,
/// so the result carries exactly one copy of the new batch at its end.
pub proof fn law_merge_prompt_keeps_both(existing: Seq<char>, new_text: Seq<char>)
    ensures
        trim(existing).is_prefix_of(spec_merge_prompt_text(existing, new_text)),
        trim(new_text).is_suffix_of(spec_merge_prompt_text(existing, new_text)),
{
    let e = trim(existing);
    let n = trim(new_text);
    let r = spec_merge_prompt_text(existing, new_text);
    if e.len() == 0 {
        assert(e.is_prefix_of(r));
        assert(n.is_suffix_of(r)) by {
            assert(r.subrange(r.len() - n.len(), r.len() as int) =~= r);
        }
    } else if n.len() == 0 || e == n || n.is_suffix_of(e) {
        assert(e.is_prefix_of(r)) by {
            assert(r.subrange(0, e.len() as int) =~= e);
        }
        if n.len() == 0 {
            assert(n.is_suffix_of(r)) by {
                assert(r.subrange(r.len() - 0, r.len() as int) =~= n);
            }
        } else if e == n {
            assert(n.is_suffix_of(r)) by {
                assert(r.subrange(r.len() - n.len(), r.len() as int) =~= n);
            }
        }
    } else {
        assert(e.is_prefix_of(r)) by {
            assert(r.subrange(0, e.len() as int) =~= e);
        }
        assert(n.is_suffix_of(r)) by {
            assert(r.subrange(r.len() - n.len(), r.len() as int) =~= n);
        }
    }
}

/// Law: merging the same new text twice gives the same prompt as merging it once.
pub proof fn law_merge_prompt_idempotent(existing: Seq<char>, new_text: Seq<char>)
    ensures
        spec_merge_prompt_text(spec_merge_prompt_text(existing, new_text), new_text)
            == spec_merge_prompt_text(existing, new_text),
{
    let r = spec_merge_prompt_text(existing, new_text);
    lemma_merge_prompt_trimmed(existing, new_text);
    law_merge_prompt_keeps_both(existing, new_text);
    let n = trim(new_text);
    if r.len() == 0 {
        // Both parts were empty.
        assert(n.len() == 0);
    } else if n.len() == 0 {
    } else if r == n {
    } else {
        assert(n.is_suffix_of(r));
    }
}

/// Law: applying the active profile prompt twice gives the same prompt as
/// applying it once, so the profile prompt is never duplicated.
pub proof fn law_merge_profile_prompt_idempotent(profile_prompt: Seq<char>, prompt: Seq<char>)
    ensures
        spec_merge_profile_prompt(profile_prompt, spec_merge_profile_prompt(profile_prompt, prompt))
            == spec_merge_profile_prompt(profile_prompt, prompt),
{
    let p = trim(profile_prompt);
    let q = trim(prompt);
    let r = spec_merge_profile_prompt(profile_prompt, prompt);
    lemma_trim_idempotent(profile_prompt, CharClass::Whitespace);
    lemma_trim_idempotent(prompt, CharClass::Whitespace);
    if p.len() == 0 {
    } else if q == p || (p.is_prefix_of(q) && q.len() > p.len() && q[p.len() as int] == '\n') {
    } else {
        lemma_merge_prompt_trimmed(p, q);
        if q.len() == 0 || p == q || q.is_suffix_of(p) {
            assert(r == p);
        } else {
            assert(r == p.push('\n') + q);
            assert(p.is_prefix_of(r)) by {
                assert(r.subrange(0, p.len() as int) =~= p);
            }
            assert(r[p.len() as int] == '\n');
        }
    }
}

} // verus!

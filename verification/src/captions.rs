//! Live Captions collection: merging rolling caption snapshots into one
//! pending batch, and detaching batches at submission boundaries.
use vstd::prelude::*;

use crate::caption_clean::{spec_clean_caption_text, clean_caption_text_chars, collapse_whitespace};
use crate::caption_match::{
    common_prefix_chars, common_prefix_len, similar_sequence_start, find_similar_sequence,
    find_similar_suffix, find_similar_suffix_in_current, has_minimum_strength,
    longest_source_overlap_end, longest_source_overlap_end_exec, opt_int, opt_pair, source_tokens,
    text_after_tokens, text_after_tokens_exec, token_views, tokenize,
    tokens_have_minimum_strength, MIN_SOURCE_OVERLAP_CHARS,
};
use crate::text::{
    append_chars, ascii_lower_chars, ascii_lower_seq, chars_eq, chars_of, copy_chars, ends_with,
    starts_with, string_of, sub_chars, trim, trim_chars,
};

verus! {

// ---------------------------------------------------------------------------
// State
// ---------------------------------------------------------------------------

/// What the caption panel shows and what the next batch will contain.
#[derive(Debug, PartialEq, Eq)]
pub struct CaptionSnapshot {
    pub is_monitoring: bool,
    pub window_found: bool,
    pub text_element_found: bool,
    pub launch_attempted: bool,
    /// The batch as displayed.
    pub current_caption_text: String,
    /// The last batch copied into ChatGPT from the caption panel.
    pub last_submitted_caption_text: String,
    /// The cleaned Live Captions text already accounted for by earlier batches.
    pub last_submitted_source_text: String,
    /// The batch that the next submission takes.
    pub pending_caption_text: String,
    /// The last raw Live Captions snapshot.
    pub latest_caption: String,
    pub caption_buffer: Vec<String>,
    pub last_error: Option<String>,
}

/// The mathematical content of a `CaptionSnapshot`.
pub struct CaptionState {
    pub is_monitoring: bool,
    pub window_found: bool,
    pub text_element_found: bool,
    pub launch_attempted: bool,
    pub current: Seq<char>,
    pub last_submitted_caption: Seq<char>,
    pub last_submitted_source: Seq<char>,
    pub pending: Seq<char>,
    pub latest: Seq<char>,
    pub buffer: Seq<Seq<char>>,
    pub last_error: Option<Seq<char>>,
}

pub open spec fn opt_view(o: Option<String>) -> Option<Seq<char>> {
    match o {
        Some(s) => Some(s@),
        None => None,
    }
}

pub open spec fn string_views(v: Seq<String>) -> Seq<Seq<char>> {
    Seq::new(v.len(), |i: int| v[i]@)
}

impl View for CaptionSnapshot {
    type V = CaptionState;

    open spec fn view(&self) -> CaptionState {
        CaptionState {
            is_monitoring: self.is_monitoring,
            window_found: self.window_found,
            text_element_found: self.text_element_found,
            launch_attempted: self.launch_attempted,
            current: self.current_caption_text@,
            last_submitted_caption: self.last_submitted_caption_text@,
            last_submitted_source: self.last_submitted_source_text@,
            pending: self.pending_caption_text@,
            latest: self.latest_caption@,
            buffer: string_views(self.caption_buffer@),
            last_error: opt_view(self.last_error),
        }
    }
}

pub open spec fn empty_caption_state() -> CaptionState {
    CaptionState {
        is_monitoring: false,
        window_found: false,
        text_element_found: false,
        launch_attempted: false,
        current: Seq::empty(),
        last_submitted_caption: Seq::empty(),
        last_submitted_source: Seq::empty(),
        pending: Seq::empty(),
        latest: Seq::empty(),
        buffer: Seq::empty(),
        last_error: None,
    }
}

impl Default for CaptionSnapshot {
    fn default() -> (r: Self)
        ensures
            r@ == empty_caption_state(),
    {
        let r = CaptionSnapshot {
            is_monitoring: false,
            window_found: false,
            text_element_found: false,
            launch_attempted: false,
            current_caption_text: String::new(),
            last_submitted_caption_text: String::new(),
            last_submitted_source_text: String::new(),
            pending_caption_text: String::new(),
            latest_caption: String::new(),
            caption_buffer: Vec::new(),
            last_error: None,
        };
        assert(string_views(r.caption_buffer@) =~= Seq::<Seq<char>>::empty());
        r
    }
}

impl CaptionSnapshot {
    /// A field-by-field copy.
    pub fn duplicate(&self) -> (r: Self)
        ensures
            r@ == self@,
    {
        let mut buffer: Vec<String> = Vec::new();
        let mut i: usize = 0;
        while i < self.caption_buffer.len()
            invariant
                i <= self.caption_buffer@.len(),
                string_views(buffer@) =~= string_views(self.caption_buffer@).take(i as int),
            decreases self.caption_buffer@.len() - i,
        {
            let x = self.caption_buffer[i].clone();
            assert(x@ == self.caption_buffer@[i as int]@);
            let ghost old_buffer = buffer@;
            buffer.push(x);
            assert(string_views(buffer@) =~= string_views(old_buffer).push(x@));
            assert(string_views(self.caption_buffer@).take(i as int + 1) =~= string_views(
                self.caption_buffer@,
            ).take(i as int).push(x@));
            i = i + 1;
        }
        assert(string_views(self.caption_buffer@).take(self.caption_buffer@.len() as int)
            =~= string_views(self.caption_buffer@));
        CaptionSnapshot {
            is_monitoring: self.is_monitoring,
            window_found: self.window_found,
            text_element_found: self.text_element_found,
            launch_attempted: self.launch_attempted,
            current_caption_text: self.current_caption_text.clone(),
            last_submitted_caption_text: self.last_submitted_caption_text.clone(),
            last_submitted_source_text: self.last_submitted_source_text.clone(),
            pending_caption_text: self.pending_caption_text.clone(),
            latest_caption: self.latest_caption.clone(),
            caption_buffer: buffer,
            last_error: match &self.last_error {
                Some(e) => Some(e.clone()),
                None => None,
            },
        }
    }
}

/// Errors of the caption commands.
#[derive(Debug)]
pub struct CaptionCommandError {
    pub code: &'static str,
    pub message: String,
}

/// The running Live Captions monitor, identified by its worker number.
pub struct CaptionMonitor {
    pub worker: u64,
}

/// The shared caption state and the monitor that feeds it.
pub struct CaptionStore {
    pub snapshot: CaptionSnapshot,
    pub monitor: Option<CaptionMonitor>,
}

impl CaptionStore {
    pub fn new() -> (r: Self)
        ensures
            r.snapshot@ == empty_caption_state(),
            r.monitor is None,
    {
        CaptionStore { snapshot: CaptionSnapshot::default(), monitor: None }
    }
}

/// Removes the registered monitor only when it is `worker`; returns whether it was.
/// A worker that exits late cannot unregister a monitor started after it.
pub fn clear_monitor_if_matches(store: &mut CaptionStore, worker: u64) -> (r: bool)
    ensures
        r == (old(store).monitor matches Some(m) && m.worker == worker),
        r ==> final(store).monitor is None,
        !r ==> final(store).monitor == old(store).monitor,
        final(store).snapshot == old(store).snapshot,
{
    let is_current = match &store.monitor {
        Some(m) => m.worker == worker,
        None => false,
    };
    if is_current {
        store.monitor = None;
    }
    is_current
}

// ---------------------------------------------------------------------------
// Merging rules
// ---------------------------------------------------------------------------

/// `base` and `delta` as two lines, cleaned into one.
pub open spec fn append_caption_text(base: Seq<char>, delta: Seq<char>) -> Seq<char> {
    spec_clean_caption_text(trim(base) + seq!['\n'] + trim(delta))
}

/// `candidate` has words, enough word characters, and occurs in `source`.
pub open spec fn source_contains_similar_sequence(source: Seq<char>, candidate: Seq<char>) -> bool {
    let c = tokenize(candidate);
    c.len() > 0 && has_minimum_strength(c) && similar_sequence_start(tokenize(source), c) is Some
}

/// What `current` says after the point that `previous` already covered:
/// `Some(empty)` when `current` lies inside `previous`, the words after
/// `previous` when `current` contains it, the words after the overlap when a
/// tail of `previous` reappears in `current`, and `None` otherwise.
pub open spec fn caption_delta_after_boundary(current: Seq<char>, previous: Seq<char>) -> Option<
    Seq<char>,
> {
    let ct = tokenize(current);
    let pt = tokenize(previous);
    if ct.len() == 0 || pt.len() == 0 {
        None
    } else if similar_sequence_start(pt, ct) is Some {
        Some(Seq::empty())
    } else {
        match similar_sequence_start(ct, pt) {
            Some(st) => Some(text_after_tokens(current, ct, st + pt.len())),
            None => match find_similar_suffix(pt, ct) {
                Some((st, l)) => Some(text_after_tokens(current, ct, st + l)),
                None => None,
            },
        }
    }
}

/// The part of the visible `current` caption that `last_submitted` does not
/// already account for.
pub open spec fn spec_pending_caption_text(current: Seq<char>, last_submitted: Seq<char>) -> Seq<char> {
    let c = trim(current);
    let l = trim(last_submitted);
    if c.len() == 0 || l.len() == 0 {
        c
    } else if c.is_suffix_of(l) {
        Seq::empty()
    } else if l.is_prefix_of(c) && trim(c.skip(l.len() as int)).len() > 0 {
        trim(c.skip(l.len() as int))
    } else {
        match longest_source_overlap_end(c, l) {
            Some(e) => trim(c.skip(e)),
            None => match caption_delta_after_boundary(c, l) {
                Some(d) => d,
                None => c,
            },
        }
    }
}

/// Extends `accumulated` by `current` without repeating what they share.
pub open spec fn merge_rolling_text(accumulated: Seq<char>, current: Seq<char>) -> Seq<char> {
    if accumulated == current || current.is_suffix_of(accumulated) {
        accumulated
    } else if accumulated.is_prefix_of(current) {
        current
    } else {
        match longest_source_overlap_end(current, accumulated) {
            Some(e) => append_caption_text(accumulated, current.skip(e)),
            None => append_caption_text(accumulated, current),
        }
    }
}

/// The accumulated batch after Live Captions changed its visible text from
/// `previous_visible` to `current_visible`.
pub open spec fn merge_caption_capture(
    accumulated: Seq<char>,
    previous_visible: Seq<char>,
    current_visible: Seq<char>,
) -> Seq<char> {
    let acc = trim(accumulated);
    let prev = trim(previous_visible);
    let cur = trim(current_visible);
    if cur.len() == 0 || cur == prev {
        acc
    } else if acc.len() == 0 {
        cur
    } else if source_contains_similar_sequence(cur, acc) {
        cur
    } else if source_contains_similar_sequence(acc, cur) {
        acc
    } else {
        match caption_delta_after_boundary(cur, acc) {
            Some(delta) => append_caption_text(acc, delta),
            None => if prev.len() == 0 {
                merge_rolling_text(acc, cur)
            } else if prev.is_prefix_of(cur) {
                if prev.is_suffix_of(acc) {
                    append_caption_text(acc.take(acc.len() - prev.len()), cur)
                } else {
                    merge_rolling_text(acc, cur)
                }
            } else if cur.is_prefix_of(prev) {
                acc
            } else {
                match longest_source_overlap_end(cur, prev) {
                    Some(e) => append_caption_text(acc, cur.skip(e)),
                    None => if prev.is_suffix_of(acc) && common_prefix_len(prev, cur)
                        >= MIN_SOURCE_OVERLAP_CHARS {
                        append_caption_text(acc.take(acc.len() - prev.len()), cur)
                    } else {
                        merge_rolling_text(acc, cur)
                    },
                }
            },
        }
    }
}

/// The new boundary after `caption_text` left the panel: the cleaned latest
/// snapshot when there is one, else the old boundary extended by the batch.
pub open spec fn submitted_source_text(s: CaptionState, caption_text: Seq<char>) -> Seq<char> {
    let latest = spec_clean_caption_text(s.latest);
    if latest.len() > 0 {
        latest
    } else {
        append_caption_text(s.last_submitted_source, caption_text)
    }
}

/// The state after Live Captions showed `caption`.
pub open spec fn push_caption_spec(s: CaptionState, caption: Seq<char>) -> CaptionState {
    if caption.len() == 0 || s.latest == caption {
        s
    } else {
        let previous_visible = spec_pending_caption_text(
            spec_clean_caption_text(s.latest),
            s.last_submitted_source,
        );
        let visible = spec_pending_caption_text(spec_clean_caption_text(caption), s.last_submitted_source);
        let pending = merge_caption_capture(s.pending, previous_visible, visible);
        if pending.len() == 0 {
            CaptionState {
                latest: caption,
                current: Seq::empty(),
                pending: Seq::empty(),
                buffer: Seq::empty(),
                ..s
            }
        } else {
            CaptionState {
                latest: caption,
                current: pending,
                pending: pending,
                buffer: Seq::empty(),
                ..s
            }
        }
    }
}

/// The text a submission takes: the cleaned pending batch, or the cleaned
/// displayed batch when nothing is pending.
pub open spec fn batch_text(s: CaptionState) -> Seq<char> {
    if trim(s.pending).len() == 0 {
        spec_clean_caption_text(s.current)
    } else {
        spec_clean_caption_text(s.pending)
    }
}

/// The state after the batch `caption_text` was detached or submitted: the
/// collected text is dropped and the boundary moves past it.
pub open spec fn after_submission(s: CaptionState, caption_text: Seq<char>, keep: Seq<char>) -> CaptionState {
    CaptionState {
        last_submitted_source: submitted_source_text(s, caption_text),
        last_submitted_caption: keep,
        current: Seq::empty(),
        pending: Seq::empty(),
        latest: Seq::empty(),
        buffer: Seq::empty(),
        last_error: None,
        ..s
    }
}

/// The state after Clear: everything collected is dropped, and the text still
/// visible in Live Captions becomes the boundary.
pub open spec fn clear_collection_spec(s: CaptionState) -> CaptionState {
    let visible = spec_clean_caption_text(s.latest);
    CaptionState {
        last_submitted_source: if visible.len() > 0 {
            visible
        } else {
            s.last_submitted_source
        },
        current: Seq::empty(),
        last_submitted_caption: Seq::empty(),
        pending: Seq::empty(),
        latest: Seq::empty(),
        buffer: Seq::empty(),
        last_error: None,
        ..s
    }
}

pub open spec fn no_caption_message() -> Seq<char> {
    "No caption text is ready to submit."@
}

// ---------------------------------------------------------------------------
// Executable merging
// ---------------------------------------------------------------------------

pub fn append_caption_text_exec(base: &[char], delta: &[char]) -> (r: Vec<char>)
    ensures
        r@ == append_caption_text(base@, delta@),
{
    let mut joined = trim_chars(base);
    joined.push('\n');
    let d = trim_chars(delta);
    append_chars(&mut joined, &d);
    assert(joined@ =~= trim(base@) + seq!['\n'] + trim(delta@));
    clean_caption_text_chars(&joined)
}

pub fn source_contains_similar_sequence_exec(source: &[char], candidate: &[char]) -> (r: bool)
    ensures
        r == source_contains_similar_sequence(source@, candidate@),
{
    let source_words = source_tokens(source);
    let candidate_tokens = source_tokens(candidate);
    candidate_tokens.len() > 0 && tokens_have_minimum_strength(&candidate_tokens)
        && find_similar_sequence(&source_words, &candidate_tokens).is_some()
}

pub fn caption_delta_after_boundary_exec(current: &[char], previous: &[char]) -> (r: Option<
    Vec<char>,
>)
    ensures
        match r {
            Some(v) => caption_delta_after_boundary(current@, previous@) == Some(v@),
            None => caption_delta_after_boundary(current@, previous@) is None,
        },
{
    let current_tokens = source_tokens(current);
    let previous_tokens = source_tokens(previous);
    if current_tokens.len() == 0 || previous_tokens.len() == 0 {
        return None;
    }
    if find_similar_sequence(&previous_tokens, &current_tokens).is_some() {
        return Some(Vec::new());
    }
    match find_similar_sequence(&current_tokens, &previous_tokens) {
        Some(start) => {
            let consumed = if start <= current_tokens.len() - previous_tokens.len() {
                start + previous_tokens.len()
            } else {
                current_tokens.len()
            };
            proof {
                let ct = tokenize(current@);
                let pt = tokenize(previous@);
                lemma_first_window_in_range(ct, pt, 0);
            }
            Some(text_after_tokens_exec(current, &current_tokens, consumed))
        },
        None => match find_similar_suffix_in_current(&previous_tokens, &current_tokens) {
            Some((start, overlap_len)) => Some(
                text_after_tokens_exec(current, &current_tokens, start + overlap_len),
            ),
            None => None,
        },
    }
}

proof fn lemma_first_window_in_range(h: Seq<crate::caption_match::Token>, n: Seq<crate::caption_match::Token>, p: int)
    ensures
        crate::caption_match::first_similar_window(h, n, p) matches Some(q) ==> 0 <= q && q + n.len() <= h.len(),
    decreases h.len() + 1 - p,
{
    if !(p < 0 || p + n.len() > h.len()) && !crate::caption_match::window_similar(h, p, n) {
        lemma_first_window_in_range(h, n, p + 1);
    }
}

pub fn pending_caption_text_chars(current: &[char], last_submitted: &[char]) -> (r: Vec<char>)
    ensures
        r@ == spec_pending_caption_text(current@, last_submitted@),
{
    let c = trim_chars(current);
    let l = trim_chars(last_submitted);
    if c.len() == 0 || l.len() == 0 {
        return c;
    }
    if ends_with(&l, &c) {
        return Vec::new();
    }
    if starts_with(&c, &l) {
        let rest = sub_chars(&c, l.len(), c.len());
        assert(rest@ =~= c@.skip(l@.len() as int));
        let delta = trim_chars(&rest);
        if delta.len() > 0 {
            return delta;
        }
    }
    match longest_source_overlap_end_exec(&c, &l) {
        Some(e) => {
            let rest = sub_chars(&c, e, c.len());
            assert(rest@ =~= c@.skip(e as int));
            trim_chars(&rest)
        },
        None => match caption_delta_after_boundary_exec(&c, &l) {
            Some(d) => d,
            None => c,
        },
    }
}

/// The part of `current` not yet covered by `last_submitted`; see
/// `spec_pending_caption_text`.
pub fn pending_caption_text(current: &str, last_submitted: &str) -> (r: String)
    ensures
        r@ == spec_pending_caption_text(current@, last_submitted@),
{
    let c = chars_of(current);
    let l = chars_of(last_submitted);
    string_of(&pending_caption_text_chars(&c, &l))
}

pub fn merge_rolling_text_chars(accumulated: &[char], current: &[char]) -> (r: Vec<char>)
    ensures
        r@ == merge_rolling_text(accumulated@, current@),
{
    if chars_eq(accumulated, current) || ends_with(accumulated, current) {
        return copy_chars(accumulated);
    }
    if starts_with(current, accumulated) {
        return copy_chars(current);
    }
    match longest_source_overlap_end_exec(current, accumulated) {
        Some(e) => {
            let rest = sub_chars(current, e, current.len());
            assert(rest@ =~= current@.skip(e as int));
            append_caption_text_exec(accumulated, &rest)
        },
        None => append_caption_text_exec(accumulated, current),
    }
}

pub fn merge_caption_capture_chars(
    accumulated: &[char],
    previous_visible: &[char],
    current_visible: &[char],
) -> (r: Vec<char>)
    ensures
        r@ == merge_caption_capture(accumulated@, previous_visible@, current_visible@),
{
    let acc = trim_chars(accumulated);
    let prev = trim_chars(previous_visible);
    let cur = trim_chars(current_visible);
    if cur.len() == 0 || chars_eq(&cur, &prev) {
        return acc;
    }
    if acc.len() == 0 {
        return cur;
    }
    if source_contains_similar_sequence_exec(&cur, &acc) {
        return cur;
    }
    if source_contains_similar_sequence_exec(&acc, &cur) {
        return acc;
    }
    if let Some(delta) = caption_delta_after_boundary_exec(&cur, &acc) {
        return append_caption_text_exec(&acc, &delta);
    }
    if prev.len() == 0 {
        return merge_rolling_text_chars(&acc, &cur);
    }
    if starts_with(&cur, &prev) {
        if ends_with(&acc, &prev) {
            let head = sub_chars(&acc, 0, acc.len() - prev.len());
            assert(head@ =~= acc@.take(acc@.len() - prev@.len()));
            return append_caption_text_exec(&head, &cur);
        }
        return merge_rolling_text_chars(&acc, &cur);
    }
    if starts_with(&prev, &cur) {
        return acc;
    }
    if let Some(e) = longest_source_overlap_end_exec(&cur, &prev) {
        let rest = sub_chars(&cur, e, cur.len());
        assert(rest@ =~= cur@.skip(e as int));
        return append_caption_text_exec(&acc, &rest);
    }
    if ends_with(&acc, &prev) && common_prefix_chars(&prev, &cur) >= MIN_SOURCE_OVERLAP_CHARS {
        let head = sub_chars(&acc, 0, acc.len() - prev.len());
        assert(head@ =~= acc@.take(acc@.len() - prev@.len()));
        return append_caption_text_exec(&head, &cur);
    }
    merge_rolling_text_chars(&acc, &cur)
}

/// The accumulated batch after a change of the visible caption; see
/// `merge_caption_capture`.
pub fn merge_caption_capture_str(accumulated: &str, previous_visible: &str, current_visible: &str) -> (r: String)
    ensures
        r@ == merge_caption_capture(accumulated@, previous_visible@, current_visible@),
{
    let a = chars_of(accumulated);
    let p = chars_of(previous_visible);
    let c = chars_of(current_visible);
    string_of(&merge_caption_capture_chars(&a, &p, &c))
}

fn submitted_source_text_exec(snapshot: &CaptionSnapshot, caption_text: &[char]) -> (r: Vec<char>)
    ensures
        r@ == submitted_source_text(snapshot@, caption_text@),
{
    let latest = chars_of(snapshot.latest_caption.as_str());
    let latest_source_text = clean_caption_text_chars(&latest);
    if latest_source_text.len() > 0 {
        return latest_source_text;
    }
    let base = chars_of(snapshot.last_submitted_source_text.as_str());
    append_caption_text_exec(&base, caption_text)
}

fn batch_text_exec(snapshot: &CaptionSnapshot) -> (r: Vec<char>)
    ensures
        r@ == batch_text(snapshot@),
{
    let pending = chars_of(snapshot.pending_caption_text.as_str());
    let trimmed = trim_chars(&pending);
    if trimmed.len() == 0 {
        let current = chars_of(snapshot.current_caption_text.as_str());
        clean_caption_text_chars(&current)
    } else {
        clean_caption_text_chars(&pending)
    }
}

// ---------------------------------------------------------------------------
// Snapshot operations
// ---------------------------------------------------------------------------

/// Records a new Live Captions snapshot.
pub fn push_caption(snapshot: &mut CaptionSnapshot, caption: String)
    ensures
        final(snapshot)@ == push_caption_spec(old(snapshot)@, caption@),
{
    if caption.as_str().is_empty() || snapshot.latest_caption == caption {
        return;
    }
    let latest = chars_of(snapshot.latest_caption.as_str());
    let cap = chars_of(caption.as_str());
    let previous_source_text = clean_caption_text_chars(&latest);
    let source_text = clean_caption_text_chars(&cap);
    let boundary = chars_of(snapshot.last_submitted_source_text.as_str());
    let previous_visible_pending = pending_caption_text_chars(&previous_source_text, &boundary);
    let visible_pending = pending_caption_text_chars(&source_text, &boundary);
    let accumulated = chars_of(snapshot.pending_caption_text.as_str());
    let pending_caption = merge_caption_capture_chars(
        &accumulated,
        &previous_visible_pending,
        &visible_pending,
    );

    snapshot.latest_caption = caption;
    snapshot.caption_buffer = Vec::new();
    assert(string_views(snapshot.caption_buffer@) =~= Seq::<Seq<char>>::empty());

    if pending_caption.len() == 0 {
        snapshot.current_caption_text = String::new();
        snapshot.pending_caption_text = String::new();
        return;
    }
    snapshot.current_caption_text = string_of(&pending_caption);
    snapshot.pending_caption_text = string_of(&pending_caption);
}

pub open spec fn window_not_found_message() -> Seq<char> {
    "Live Captions window was not found through UI Automation."@
}

/// What one poll of Live Captions does to the panel: text that was read marks
/// the window and its text element found, clears the error and is recorded;
/// no window marks both not found and, once the search has `timed_out`,
/// reports it; a read error is shown and changes nothing else.
pub open spec fn capture_outcome_spec(s: CaptionState, outcome: Result<Option<Seq<char>>, Seq<char>>, timed_out: bool) -> CaptionState {
    match outcome {
        Ok(Some(text)) => push_caption_spec(
            CaptionState { window_found: true, text_element_found: true, last_error: None, ..s },
            text,
        ),
        Ok(None) => CaptionState {
            window_found: false,
            text_element_found: false,
            last_error: if timed_out {
                Some(window_not_found_message())
            } else {
                s.last_error
            },
            ..s
        },
        Err(e) => CaptionState { last_error: Some(e), ..s },
    }
}

pub open spec fn capture_outcome_view(outcome: Result<Option<String>, String>) -> Result<Option<Seq<char>>, Seq<char>> {
    match outcome {
        Ok(Some(t)) => Ok(Some(t@)),
        Ok(None) => Ok(None),
        Err(e) => Err(e@),
    }
}

/// See `capture_outcome_spec`.
pub fn apply_capture_outcome(snapshot: &mut CaptionSnapshot, outcome: Result<Option<String>, String>, timed_out: bool)
    ensures
        final(snapshot)@ == capture_outcome_spec(old(snapshot)@, capture_outcome_view(outcome), timed_out),
{
    match outcome {
        Ok(Some(text)) => {
            snapshot.window_found = true;
            snapshot.text_element_found = true;
            snapshot.last_error = None;
            push_caption(snapshot, text);
        },
        Ok(None) => {
            snapshot.window_found = false;
            snapshot.text_element_found = false;
            if timed_out {
                snapshot.last_error = Some(
                    string_of(&chars_of("Live Captions window was not found through UI Automation.")),
                );
            }
        },
        Err(error) => {
            snapshot.last_error = Some(error);
        },
    }
}

/// Detaches the current batch for a hotkey submission and moves the boundary
/// past it. With nothing to take, returns an empty batch when `allow_empty`
/// holds and an error otherwise, and leaves the snapshot unchanged.
pub fn take_caption_batch_from_snapshot(snapshot: &mut CaptionSnapshot, allow_empty: bool) -> (r:
    Result<String, String>)
    ensures
        batch_text(old(snapshot)@).len() == 0 ==> {
            &&& final(snapshot)@ == old(snapshot)@
            &&& allow_empty ==> (r matches Ok(t) && t@.len() == 0)
            &&& !allow_empty ==> (r matches Err(e) && e@ == no_caption_message())
        },
        batch_text(old(snapshot)@).len() > 0 ==> {
            &&& (r matches Ok(t) && t@ == batch_text(old(snapshot)@))
            &&& final(snapshot)@ == after_submission(
                old(snapshot)@,
                batch_text(old(snapshot)@),
                Seq::empty(),
            )
        },
{
    let caption_text = batch_text_exec(snapshot);
    if caption_text.len() == 0 {
        return if allow_empty {
            Ok(String::new())
        } else {
            Err(String::from_str("No caption text is ready to submit."))
        };
    }
    let source = submitted_source_text_exec(snapshot, &caption_text);
    snapshot.last_submitted_source_text = string_of(&source);
    snapshot.last_submitted_caption_text = String::new();
    snapshot.current_caption_text = String::new();
    snapshot.pending_caption_text = String::new();
    snapshot.latest_caption = String::new();
    snapshot.caption_buffer = Vec::new();
    snapshot.last_error = None;
    assert(string_views(snapshot.caption_buffer@) =~= Seq::<Seq<char>>::empty());
    Ok(string_of(&caption_text))
}

/// The text the caption panel would submit, or an error when there is none.
pub fn caption_text_for_submission(snapshot: &CaptionSnapshot) -> (r: Result<String, String>)
    ensures
        batch_text(snapshot@).len() == 0 ==> (r matches Err(e) && e@ == no_caption_message()),
        batch_text(snapshot@).len() > 0 ==> (r matches Ok(t) && t@ == batch_text(snapshot@)),
{
    let caption_text = batch_text_exec(snapshot);
    if caption_text.len() == 0 {
        Err(String::from_str("No caption text is ready to submit."))
    } else {
        Ok(string_of(&caption_text))
    }
}

/// Records that `caption_text` was copied into ChatGPT from the caption panel.
pub fn mark_caption_submitted(snapshot: &mut CaptionSnapshot, caption_text: String)
    ensures
        final(snapshot)@ == after_submission(old(snapshot)@, caption_text@, caption_text@),
{
    let text = chars_of(caption_text.as_str());
    let source = submitted_source_text_exec(snapshot, &text);
    snapshot.last_submitted_caption_text = caption_text;
    snapshot.last_submitted_source_text = string_of(&source);
    snapshot.current_caption_text = String::new();
    snapshot.pending_caption_text = String::new();
    snapshot.latest_caption = String::new();
    snapshot.caption_buffer = Vec::new();
    snapshot.last_error = None;
    assert(string_views(snapshot.caption_buffer@) =~= Seq::<Seq<char>>::empty());
}

/// Discards the collected batch and starts a new one at the text that Live
/// Captions currently shows.
pub fn clear_caption_collection(snapshot: &mut CaptionSnapshot)
    ensures
        final(snapshot)@ == clear_collection_spec(old(snapshot)@),
{
    let latest = chars_of(snapshot.latest_caption.as_str());
    let current_source_text = clean_caption_text_chars(&latest);
    if current_source_text.len() > 0 {
        snapshot.last_submitted_source_text = string_of(&current_source_text);
    }
    snapshot.current_caption_text = String::new();
    snapshot.last_submitted_caption_text = String::new();
    snapshot.pending_caption_text = String::new();
    snapshot.latest_caption = String::new();
    snapshot.caption_buffer = Vec::new();
    snapshot.last_error = None;
    assert(string_views(snapshot.caption_buffer@) =~= Seq::<Seq<char>>::empty());
}

// ---------------------------------------------------------------------------
// Laws
// ---------------------------------------------------------------------------

/// Law: when Live Captions extends the text it showed (the previous visible
/// text is a prefix of the new one) and the batch ends with that previous
/// text, the merged batch is the batch with that tail replaced by the new
/// text, so none of its words is counted twice. (The word-matching rules that
/// come first, finding one text inside the other or the new words after the
/// batch, are left out.)
pub proof fn law_extended_caption_replaces_its_tail(accumulated: Seq<char>, previous_visible: Seq<char>, current_visible: Seq<char>)
    requires
        trim(previous_visible).len() > 0,
        trim(previous_visible).is_prefix_of(trim(current_visible)),
        trim(previous_visible).is_suffix_of(trim(accumulated)),
        trim(current_visible) != trim(previous_visible),
        !source_contains_similar_sequence(trim(current_visible), trim(accumulated)),
        !source_contains_similar_sequence(trim(accumulated), trim(current_visible)),
        caption_delta_after_boundary(trim(current_visible), trim(accumulated)) is None,
    ensures
        merge_caption_capture(accumulated, previous_visible, current_visible) == spec_clean_caption_text(
            trim(
                trim(accumulated).take(
                    trim(accumulated).len() - trim(previous_visible).len(),
                ),
            ) + seq!['\n'] + trim(current_visible),
        ),
{
    crate::text::lemma_trim_idempotent(current_visible, crate::text::CharClass::Whitespace);
    assert(trim(accumulated).len() > 0);
    assert(trim(current_visible).len() > 0);
}

/// Law: from an empty panel, a caption `a` followed by a caption `b` that
/// extends it (Live Captions adding words) leaves exactly the cleaned `b`
/// pending: the words of `a` are not counted twice. (The case in which the
/// word-matching rules find the new text inside the old one, or new words
/// after it, is left out.)
pub proof fn law_growing_caption_is_not_repeated(a: Seq<char>, b: Seq<char>)
    requires
        a.len() > 0,
        b.len() > 0,
        a != b,
        spec_clean_caption_text(a).len() > 0,
        spec_clean_caption_text(a).is_prefix_of(spec_clean_caption_text(b)),
        !source_contains_similar_sequence(spec_clean_caption_text(a), spec_clean_caption_text(b)),
        caption_delta_after_boundary(spec_clean_caption_text(b), spec_clean_caption_text(a)) is None,
    ensures
        push_caption_spec(push_caption_spec(empty_caption_state(), a), b).pending
            == spec_clean_caption_text(b),
{
    let e = Seq::<char>::empty();
    let ca = spec_clean_caption_text(a);
    let cb = spec_clean_caption_text(b);
    crate::caption_clean::lemma_clean_empty();
    crate::caption_clean::law_cleaned_text_is_one_trimmed_line(a);
    crate::caption_clean::law_cleaned_text_is_one_trimmed_line(b);
    crate::caption_clean::law_cleaning_twice_changes_nothing(b);
    crate::text::lemma_trim_noop(e, crate::text::CharClass::Whitespace);
    assert(trim(e) == e);
    let s1 = push_caption_spec(empty_caption_state(), a);
    assert(spec_pending_caption_text(e, e) == e);
    assert(spec_pending_caption_text(ca, e) == ca);
    assert(merge_caption_capture(e, e, ca) == ca);
    assert(s1.pending == ca && s1.latest == a && s1.last_submitted_source == e);
    assert(spec_pending_caption_text(cb, e) == cb);
    if ca == cb {
        assert(merge_caption_capture(ca, ca, cb) == cb);
    } else if source_contains_similar_sequence(cb, ca) {
        assert(merge_caption_capture(ca, ca, cb) == cb);
    } else {
        assert(ca.is_suffix_of(ca)) by {
            assert(ca.subrange(0, ca.len() as int) =~= ca);
        }
        assert(ca.take(0) =~= e);
        assert(e + seq!['\n'] + cb =~= seq!['\n'] + cb);
        crate::caption_clean::lemma_clean_after_newline(cb);
        assert(merge_caption_capture(ca, ca, cb) == cb);
    }
}

/// Law: nothing of the visible caption is left out unless the last submitted
/// text covers it: the pending part is empty only when the visible text is a
/// tail of the boundary, overlaps its end, or matches it word for word with
/// small recognition differences; visible text that the boundary matches in
/// none of these ways is pending whole.
pub proof fn law_unmatched_caption_is_pending(current: Seq<char>, last_submitted: Seq<char>)
    ensures
        spec_pending_caption_text(current, last_submitted).len() == 0 && trim(current).len() > 0
            ==> trim(current).is_suffix_of(trim(last_submitted)) || longest_source_overlap_end(
            trim(current),
            trim(last_submitted),
        ) is Some || caption_delta_after_boundary(trim(current), trim(last_submitted)) is Some,
        !trim(current).is_suffix_of(trim(last_submitted)) && !trim(last_submitted).is_prefix_of(
            trim(current),
        ) && longest_source_overlap_end(trim(current), trim(last_submitted)) is None
            && caption_delta_after_boundary(trim(current), trim(last_submitted)) is None
            ==> spec_pending_caption_text(current, last_submitted) == trim(current),
{
}

/// Law: a caption snapshot seen again changes nothing, so polling the same
/// Live Captions text never adds it twice.
pub proof fn law_repeated_snapshot_adds_nothing(s: CaptionState, caption: Seq<char>)
    ensures
        push_caption_spec(push_caption_spec(s, caption), caption) == push_caption_spec(s, caption),
{
}

proof fn lemma_visible_text_is_seen(s: CaptionState, caption: Seq<char>)
    requires
        s.latest.len() == 0,
        s.pending.len() == 0,
        spec_clean_caption_text(caption).len() > 0 ==> s.last_submitted_source
            == spec_clean_caption_text(caption),
    ensures
        push_caption_spec(s, caption).pending.len() == 0,
        push_caption_spec(s, caption).current.len() == 0 || push_caption_spec(s, caption) == s,
{
    crate::caption_clean::lemma_clean_empty();
    if caption.len() > 0 {
        let src = s.last_submitted_source;
        let visible = spec_pending_caption_text(spec_clean_caption_text(caption), src);
        if spec_clean_caption_text(caption).len() > 0 {
            let c = trim(spec_clean_caption_text(caption));
            if c.len() > 0 {
                assert(c.is_suffix_of(c));
            }
        }
        assert(visible.len() == 0);
        assert(trim(Seq::<char>::empty()).len() == 0) by {
            crate::text::lemma_trim_shape(Seq::<char>::empty(), crate::text::CharClass::Whitespace);
        }
    }
}

/// Law: after Clear, the text still visible in Live Captions is treated as
/// already seen: showing it again collects nothing.
pub proof fn law_clear_treats_visible_text_as_seen(s: CaptionState)
    ensures
        clear_collection_spec(s).pending.len() == 0,
        clear_collection_spec(s).current.len() == 0,
        push_caption_spec(clear_collection_spec(s), s.latest).pending.len() == 0,
{
    lemma_visible_text_is_seen(clear_collection_spec(s), s.latest);
}

/// Law: once a batch is taken, the Live Captions text it came from is not
/// collected again into the next batch.
pub proof fn law_taken_batch_is_not_collected_again(s: CaptionState, caption_text: Seq<char>, keep: Seq<char>)
    ensures
        after_submission(s, caption_text, keep).pending.len() == 0,
        push_caption_spec(after_submission(s, caption_text, keep), s.latest).pending.len() == 0,
{
    lemma_visible_text_is_seen(after_submission(s, caption_text, keep), s.latest);
}

} // verus!

//! Submitting a caption prompt to ChatGPT: the text is typed into the
//! composer with up to three attempts, then sent; when sending fails the text
//! is typed again so that it is not lost. The page work is done by the caller,
//! which performs each action this machine asks for and hands back its
//! outcome.
use vstd::prelude::*;

use crate::decimal::{decimal, decimal_chars};
use crate::text::{append_chars, char_rows, chars_of, join_chars, join_with, string_of};

verus! {

/// How often the caption text is typed before giving up.
pub const CAPTION_INPUT_ATTEMPTS: u32 = 3;

#[derive(Debug, Clone, Copy, PartialEq, Eq, Structural)]
pub enum SubmitPhase {
    /// Typing the caption text, at attempt `attempt`.
    Inserting,
    /// Waiting for the send button and pressing it.
    Submitting,
    /// Sending failed; typing the text again so that it stays in the composer.
    Restoring,
    Done,
}

/// What the caller does next.
#[derive(Debug)]
pub enum SubmitAction {
    /// Type the caption text into the composer.
    Insert,
    /// Wait the retry delay, then type the caption text.
    PauseThenInsert,
    /// Wait for the send button and press it.
    WaitAndSubmit,
    /// Stop with this outcome.
    Finish(Result<(), String>),
}

/// The state of one submission.
#[derive(Debug)]
pub struct CaptionSubmit {
    pub phase: SubmitPhase,
    pub attempt: u32,
    pub input_errors: Vec<String>,
    pub submit_error: String,
}

pub struct SubmitView {
    pub phase: SubmitPhase,
    pub attempt: nat,
    pub input_errors: Seq<Seq<char>>,
    pub submit_error: Seq<char>,
}

pub open spec fn string_views(v: Seq<String>) -> Seq<Seq<char>> {
    Seq::new(v.len(), |i: int| v[i]@)
}

impl View for CaptionSubmit {
    type V = SubmitView;

    open spec fn view(&self) -> SubmitView {
        SubmitView {
            phase: self.phase,
            attempt: self.attempt as nat,
            input_errors: string_views(self.input_errors@),
            submit_error: self.submit_error@,
        }
    }
}

pub enum ActionView {
    Insert,
    PauseThenInsert,
    WaitAndSubmit,
    Finish(Result<(), Seq<char>>),
}

pub open spec fn action_view(a: SubmitAction) -> ActionView {
    match a {
        SubmitAction::Insert => ActionView::Insert,
        SubmitAction::PauseThenInsert => ActionView::PauseThenInsert,
        SubmitAction::WaitAndSubmit => ActionView::WaitAndSubmit,
        SubmitAction::Finish(Ok(())) => ActionView::Finish(Ok(())),
        SubmitAction::Finish(Err(e)) => ActionView::Finish(Err(e@)),
    }
}

pub open spec fn outcome_view(r: Result<(), String>) -> Result<(), Seq<char>> {
    match r {
        Ok(()) => Ok(()),
        Err(e) => Err(e@),
    }
}

/// The state a submission keeps to: attempts count from 1 to 3, and while
/// typing, one error is kept per failed attempt.
pub open spec fn submit_wf(s: SubmitView) -> bool {
    &&& 1 <= s.attempt <= 3
    &&& s.phase == SubmitPhase::Inserting ==> s.input_errors.len() == s.attempt - 1
}

pub open spec fn start_view() -> SubmitView {
    SubmitView {
        phase: SubmitPhase::Inserting,
        attempt: 1,
        input_errors: Seq::empty(),
        submit_error: Seq::empty(),
    }
}

pub open spec fn attempt_error(attempt: nat, error: Seq<char>) -> Seq<char> {
    "attempt "@ + decimal(attempt) + ": "@ + error
}

pub open spec fn insert_gave_up_message(errors: Seq<Seq<char>>) -> Seq<char> {
    "The caption text could not be inserted after 3 attempts. "@ + join_with(errors, "; "@)
}

pub open spec fn text_left_message(submit_error: Seq<char>) -> Seq<char> {
    "Caption submission failed while waiting for ChatGPT: "@ + submit_error
        + ". The text was left in the ChatGPT prompt."@
}

pub open spec fn text_lost_message(submit_error: Seq<char>, restore_error: Seq<char>) -> Seq<char> {
    "Caption submission failed while waiting for ChatGPT: "@ + submit_error
        + ". The text could not be restored in the ChatGPT prompt: "@ + restore_error + "."@
}

/// The step after typing the text: on success, send (or, when restoring,
/// report that the text was left in the composer); on failure, retry after a
/// pause until the third attempt, and when restoring, report both errors.
pub open spec fn insert_step(s: SubmitView, outcome: Result<(), Seq<char>>) -> (SubmitView, ActionView) {
    if s.phase == SubmitPhase::Inserting {
        match outcome {
            Ok(()) => (SubmitView { phase: SubmitPhase::Submitting, ..s }, ActionView::WaitAndSubmit),
            Err(e) => {
                let errors = s.input_errors.push(attempt_error(s.attempt, e));
                if s.attempt < 3 {
                    (
                        SubmitView { attempt: s.attempt + 1, input_errors: errors, ..s },
                        ActionView::PauseThenInsert,
                    )
                } else {
                    (
                        SubmitView { phase: SubmitPhase::Done, input_errors: errors, ..s },
                        ActionView::Finish(Err(insert_gave_up_message(errors))),
                    )
                }
            },
        }
    } else {
        match outcome {
            Ok(()) => (
                SubmitView { phase: SubmitPhase::Done, ..s },
                ActionView::Finish(Err(text_left_message(s.submit_error))),
            ),
            Err(f) => (
                SubmitView { phase: SubmitPhase::Done, ..s },
                ActionView::Finish(Err(text_lost_message(s.submit_error, f))),
            ),
        }
    }
}

/// The step after sending: done on success, otherwise type the text again.
pub open spec fn submit_step(s: SubmitView, outcome: Result<(), Seq<char>>) -> (SubmitView, ActionView) {
    match outcome {
        Ok(()) => (SubmitView { phase: SubmitPhase::Done, ..s }, ActionView::Finish(Ok(()))),
        Err(e) => (
            SubmitView { phase: SubmitPhase::Restoring, submit_error: e, ..s },
            ActionView::Insert,
        ),
    }
}

fn attempt_error_text(attempt: u32, error: &str) -> (r: String)
    ensures
        r@ == attempt_error(attempt as nat, error@),
{
    let mut out = chars_of("attempt ");
    append_chars(&mut out, &decimal_chars(attempt as u128));
    append_chars(&mut out, &chars_of(": "));
    append_chars(&mut out, &chars_of(error));
    string_of(&out)
}

impl CaptionSubmit {
    /// A new submission; its first action is `Insert`.
    pub fn new() -> (r: Self)
        ensures
            r@ == start_view(),
            submit_wf(r@),
    {
        let r = CaptionSubmit {
            phase: SubmitPhase::Inserting,
            attempt: 1,
            input_errors: Vec::new(),
            submit_error: String::new(),
        };
        assert(r@.input_errors =~= Seq::<Seq<char>>::empty());
        r
    }

    /// Takes the outcome of typing the text; see `insert_step`.
    pub fn on_insert(&mut self, outcome: Result<(), String>) -> (r: SubmitAction)
        requires
            submit_wf(old(self)@),
            old(self)@.phase == SubmitPhase::Inserting || old(self)@.phase
                == SubmitPhase::Restoring,
        ensures
            (final(self)@, action_view(r)) == insert_step(old(self)@, outcome_view(outcome)),
            submit_wf(final(self)@),
    {
        if self.phase == SubmitPhase::Inserting {
            match outcome {
                Ok(()) => {
                    self.phase = SubmitPhase::Submitting;
                    SubmitAction::WaitAndSubmit
                },
                Err(error) => {
                    let ghost before = self@.input_errors;
                    let entry = attempt_error_text(self.attempt, error.as_str());
                    let ghost e = entry@;
                    self.input_errors.push(entry);
                    assert(self@.input_errors =~= before.push(e));
                    if self.attempt < CAPTION_INPUT_ATTEMPTS {
                        self.attempt = self.attempt + 1;
                        SubmitAction::PauseThenInsert
                    } else {
                        self.phase = SubmitPhase::Done;
                        let mut rows: Vec<Vec<char>> = Vec::new();
                        let mut i: usize = 0;
                        while i < self.input_errors.len()
                            invariant
                                i <= self.input_errors@.len(),
                                char_rows(rows@) =~= string_views(self.input_errors@).take(
                                    i as int,
                                ),
                            decreases self.input_errors@.len() - i,
                        {
                            let row = chars_of(self.input_errors[i].as_str());
                            let ghost prev = char_rows(rows@);
                            rows.push(row);
                            assert(char_rows(rows@) =~= prev.push(row@));
                            i = i + 1;
                        }
                        assert(string_views(self.input_errors@).take(
                            self.input_errors@.len() as int,
                        ) =~= string_views(self.input_errors@));
                        let mut text = chars_of(
                            "The caption text could not be inserted after 3 attempts. ",
                        );
                        append_chars(&mut text, &join_chars(&rows, &chars_of("; ")));
                        SubmitAction::Finish(Err(string_of(&text)))
                    }
                },
            }
        } else {
            self.phase = SubmitPhase::Done;
            let mut text = chars_of("Caption submission failed while waiting for ChatGPT: ");
            append_chars(&mut text, &chars_of(self.submit_error.as_str()));
            match outcome {
                Ok(()) => {
                    append_chars(&mut text, &chars_of(". The text was left in the ChatGPT prompt."));
                    SubmitAction::Finish(Err(string_of(&text)))
                },
                Err(restore_error) => {
                    append_chars(
                        &mut text,
                        &chars_of(". The text could not be restored in the ChatGPT prompt: "),
                    );
                    append_chars(&mut text, &chars_of(restore_error.as_str()));
                    append_chars(&mut text, &chars_of("."));
                    SubmitAction::Finish(Err(string_of(&text)))
                },
            }
        }
    }

    /// Takes the outcome of sending; see `submit_step`.
    pub fn on_submit(&mut self, outcome: Result<(), String>) -> (r: SubmitAction)
        requires
            submit_wf(old(self)@),
            old(self)@.phase == SubmitPhase::Submitting,
        ensures
            (final(self)@, action_view(r)) == submit_step(old(self)@, outcome_view(outcome)),
            submit_wf(final(self)@),
    {
        match outcome {
            Ok(()) => {
                self.phase = SubmitPhase::Done;
                SubmitAction::Finish(Ok(()))
            },
            Err(error) => {
                self.phase = SubmitPhase::Restoring;
                self.submit_error = error;
                SubmitAction::Insert
            },
        }
    }
}

/// How many more outcomes a submission can take before it finishes.
pub open spec fn steps_left(s: SubmitView) -> int {
    match s.phase {
        SubmitPhase::Inserting => 3 + (3 - s.attempt),
        SubmitPhase::Submitting => 2,
        SubmitPhase::Restoring => 1,
        SubmitPhase::Done => 0,
    }
}

/// Law: every outcome brings a submission closer to its end, so it finishes
/// after at most five actions (three attempts to type, one send, one
/// restoring retype); it finishes exactly when it reaches `Done`.
pub proof fn law_submission_finishes(s: SubmitView, outcome: Result<(), Seq<char>>)
    requires
        submit_wf(s),
    ensures
        steps_left(start_view()) == 5,
        (s.phase == SubmitPhase::Inserting || s.phase == SubmitPhase::Restoring) ==> {
            let (t, a) = insert_step(s, outcome);
            &&& 0 <= steps_left(t) < steps_left(s)
            &&& (a is Finish <==> t.phase == SubmitPhase::Done)
        },
        s.phase == SubmitPhase::Submitting ==> {
            let (t, a) = submit_step(s, outcome);
            &&& 0 <= steps_left(t) < steps_left(s)
            &&& (a is Finish <==> t.phase == SubmitPhase::Done)
        },
{
}

/// Law: a submission succeeds only by a successful send, and after a failed
/// send the text is typed again before the submission ends.
pub proof fn law_success_only_after_send(s: SubmitView, outcome: Result<(), Seq<char>>)
    ensures
        insert_step(s, outcome).1 != ActionView::Finish(Ok(())),
        submit_step(s, outcome).1 == ActionView::Finish(Ok(())) <==> outcome is Ok,
        outcome is Err ==> submit_step(s, outcome).1 == ActionView::Insert,
{
}

} // verus!

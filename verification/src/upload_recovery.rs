//! Mode 2 after its screenshot upload failed: remove the image that was put
//! into the composer, then submit the caption text alone; when the image
//! cannot be removed, leave the text in the composer unsent instead. The page
//! work is done by the caller, which performs each action asked for and hands
//! back its outcome.
use vstd::prelude::*;

use crate::automation::{cancelled_error, cancelled_message, UploadState};
use crate::text::{append_chars, chars_of, string_of, trim, trim_chars};

verus! {

#[derive(Debug, Clone, Copy, PartialEq, Eq, Structural)]
pub enum RecoveryPhase {
    /// Removing the image attachment that was put into the composer.
    Discarding,
    /// The attachment stayed; putting the caption text back into the composer.
    LeavingPrompt,
    /// Submitting the caption text alone.
    Submitting,
    Done,
}

/// What the caller does next.
#[derive(Debug)]
pub enum RecoveryAction {
    /// Remove the image attachments from the composer.
    Discard,
    /// Type the caption text into the composer, without sending it.
    LeavePrompt,
    /// Submit the caption text (see `caption_submit`).
    SubmitCaption,
    /// Stop with this outcome.
    Finish(Result<UploadState, String>),
    /// Stop successfully with the upload marked failed, and show this warning.
    FinishWithWarning(String),
}

pub struct UploadRecovery {
    pub phase: RecoveryPhase,
    pub upload_error: String,
    pub discard_error: String,
    pub prompt_is_blank: bool,
}

pub struct RecoveryView {
    pub phase: RecoveryPhase,
    pub upload_error: Seq<char>,
    pub discard_error: Seq<char>,
    pub prompt_is_blank: bool,
}

impl View for UploadRecovery {
    type V = RecoveryView;

    open spec fn view(&self) -> RecoveryView {
        RecoveryView {
            phase: self.phase,
            upload_error: self.upload_error@,
            discard_error: self.discard_error@,
            prompt_is_blank: self.prompt_is_blank,
        }
    }
}

pub enum RecoveryActionView {
    Discard,
    LeavePrompt,
    SubmitCaption,
    Finish(Result<UploadState, Seq<char>>),
    FinishWithWarning(Seq<char>),
}

pub open spec fn recovery_action_view(a: RecoveryAction) -> RecoveryActionView {
    match a {
        RecoveryAction::Discard => RecoveryActionView::Discard,
        RecoveryAction::LeavePrompt => RecoveryActionView::LeavePrompt,
        RecoveryAction::SubmitCaption => RecoveryActionView::SubmitCaption,
        RecoveryAction::Finish(Ok(u)) => RecoveryActionView::Finish(Ok(u)),
        RecoveryAction::Finish(Err(e)) => RecoveryActionView::Finish(Err(e@)),
        RecoveryAction::FinishWithWarning(w) => RecoveryActionView::FinishWithWarning(w@),
    }
}

pub open spec fn unit_view(r: Result<(), String>) -> Result<(), Seq<char>> {
    match r {
        Ok(()) => Ok(()),
        Err(e) => Err(e@),
    }
}

pub open spec fn no_caption_message(upload_error: Seq<char>) -> Seq<char> {
    "Image upload failed and no Live Captions text was available to submit: "@ + upload_error
}

pub open spec fn attachment_stayed_prefix(upload_error: Seq<char>, discard_error: Seq<char>) -> Seq<char> {
    "Image upload failed: "@ + upload_error + ". The image attachment could not be removed: "@
        + discard_error
}

/// Once no attachment is in the way: submit the caption text, unless there is
/// none.
pub open spec fn after_discard(s: RecoveryView) -> (RecoveryView, RecoveryActionView) {
    if s.prompt_is_blank {
        (
            RecoveryView { phase: RecoveryPhase::Done, ..s },
            RecoveryActionView::Finish(Err(no_caption_message(s.upload_error))),
        )
    } else {
        (RecoveryView { phase: RecoveryPhase::Submitting, ..s }, RecoveryActionView::SubmitCaption)
    }
}

/// The start of recovery: a workflow already cancelled ends with the upload
/// error (or the cancellation, when it came just after); otherwise an
/// attachment that was put in is removed first.
pub open spec fn recovery_start(
    upload_error: Seq<char>,
    cancelled: bool,
    cancelled_after_check: bool,
    upload_was_injected: bool,
    prompt_text: Seq<char>,
) -> (RecoveryView, RecoveryActionView) {
    let s = RecoveryView {
        phase: RecoveryPhase::Done,
        upload_error,
        discard_error: Seq::empty(),
        prompt_is_blank: trim(prompt_text).len() == 0,
    };
    if cancelled {
        (s, RecoveryActionView::Finish(Err(upload_error)))
    } else if cancelled_after_check {
        (s, RecoveryActionView::Finish(Err(cancelled_message())))
    } else if upload_was_injected {
        (RecoveryView { phase: RecoveryPhase::Discarding, ..s }, RecoveryActionView::Discard)
    } else {
        after_discard(s)
    }
}

pub open spec fn discard_step(s: RecoveryView, outcome: Result<(), Seq<char>>) -> (RecoveryView, RecoveryActionView) {
    match outcome {
        Ok(()) => after_discard(s),
        Err(d) => (
            RecoveryView { phase: RecoveryPhase::LeavingPrompt, discard_error: d, ..s },
            RecoveryActionView::LeavePrompt,
        ),
    }
}

pub open spec fn leave_prompt_step(s: RecoveryView, outcome: Result<(), Seq<char>>) -> (RecoveryView, RecoveryActionView) {
    let prefix = attachment_stayed_prefix(s.upload_error, s.discard_error);
    (
        RecoveryView { phase: RecoveryPhase::Done, ..s },
        RecoveryActionView::Finish(
            Err(
                match outcome {
                    Ok(()) => prefix
                        + ". The caption text was left in the ChatGPT prompt and was not submitted."@,
                    Err(p) => prefix + ". The caption text could not be left in the ChatGPT prompt: "@
                        + p + "."@,
                },
            ),
        ),
    )
}

pub open spec fn submit_caption_step(s: RecoveryView, outcome: Result<(), Seq<char>>) -> (RecoveryView, RecoveryActionView) {
    (
        RecoveryView { phase: RecoveryPhase::Done, ..s },
        match outcome {
            Ok(()) => RecoveryActionView::FinishWithWarning(
                "Image upload failed, so only the caption text was submitted: "@ + s.upload_error,
            ),
            Err(e) => RecoveryActionView::Finish(
                Err("Image upload failed: "@ + s.upload_error + ". "@ + e),
            ),
        },
    )
}

impl UploadRecovery {
    /// Begins recovery; see `recovery_start`.
    pub fn start(
        upload_error: String,
        cancelled: bool,
        cancelled_after_check: bool,
        upload_was_injected: bool,
        prompt_text: &str,
    ) -> (r: (Self, RecoveryAction))
        ensures
            (r.0@, recovery_action_view(r.1)) == recovery_start(
                upload_error@,
                cancelled,
                cancelled_after_check,
                upload_was_injected,
                prompt_text@,
            ),
    {
        let blank = trim_chars(&chars_of(prompt_text)).len() == 0;
        let mut s = UploadRecovery {
            phase: RecoveryPhase::Done,
            upload_error,
            discard_error: String::new(),
            prompt_is_blank: blank,
        };
        proof {
            assert(s@.discard_error =~= Seq::<char>::empty());
        }
        if cancelled {
            let e = s.upload_error.clone();
            return (s, RecoveryAction::Finish(Err(e)));
        }
        if cancelled_after_check {
            return (s, RecoveryAction::Finish(Err(cancelled_error())));
        }
        if upload_was_injected {
            s.phase = RecoveryPhase::Discarding;
            return (s, RecoveryAction::Discard);
        }
        let a = s.after_discard();
        (s, a)
    }

    fn after_discard(&mut self) -> (r: RecoveryAction)
        ensures
            (final(self)@, recovery_action_view(r)) == after_discard(old(self)@),
    {
        if self.prompt_is_blank {
            self.phase = RecoveryPhase::Done;
            let mut text = chars_of(
                "Image upload failed and no Live Captions text was available to submit: ",
            );
            append_chars(&mut text, &chars_of(self.upload_error.as_str()));
            RecoveryAction::Finish(Err(string_of(&text)))
        } else {
            self.phase = RecoveryPhase::Submitting;
            RecoveryAction::SubmitCaption
        }
    }

    /// Takes the outcome of removing the attachment; see `discard_step`.
    pub fn on_discard(&mut self, outcome: Result<(), String>) -> (r: RecoveryAction)
        requires
            old(self)@.phase == RecoveryPhase::Discarding,
        ensures
            (final(self)@, recovery_action_view(r)) == discard_step(old(self)@, unit_view(outcome)),
    {
        match outcome {
            Ok(()) => self.after_discard(),
            Err(d) => {
                self.phase = RecoveryPhase::LeavingPrompt;
                self.discard_error = d;
                RecoveryAction::LeavePrompt
            },
        }
    }

    /// Takes the outcome of putting the text back; see `leave_prompt_step`.
    pub fn on_leave_prompt(&mut self, outcome: Result<(), String>) -> (r: RecoveryAction)
        requires
            old(self)@.phase == RecoveryPhase::LeavingPrompt,
        ensures
            (final(self)@, recovery_action_view(r)) == leave_prompt_step(
                old(self)@,
                unit_view(outcome),
            ),
    {
        self.phase = RecoveryPhase::Done;
        let mut text = chars_of("Image upload failed: ");
        append_chars(&mut text, &chars_of(self.upload_error.as_str()));
        append_chars(&mut text, &chars_of(". The image attachment could not be removed: "));
        append_chars(&mut text, &chars_of(self.discard_error.as_str()));
        match outcome {
            Ok(()) => {
                append_chars(
                    &mut text,
                    &chars_of(
                        ". The caption text was left in the ChatGPT prompt and was not submitted.",
                    ),
                );
            },
            Err(p) => {
                append_chars(
                    &mut text,
                    &chars_of(". The caption text could not be left in the ChatGPT prompt: "),
                );
                append_chars(&mut text, &chars_of(p.as_str()));
                append_chars(&mut text, &chars_of("."));
            },
        }
        RecoveryAction::Finish(Err(string_of(&text)))
    }

    /// Takes the outcome of submitting the caption text; see
    /// `submit_caption_step`.
    pub fn on_submit(&mut self, outcome: Result<(), String>) -> (r: RecoveryAction)
        requires
            old(self)@.phase == RecoveryPhase::Submitting,
        ensures
            (final(self)@, recovery_action_view(r)) == submit_caption_step(
                old(self)@,
                unit_view(outcome),
            ),
    {
        self.phase = RecoveryPhase::Done;
        match outcome {
            Ok(()) => {
                let mut text = chars_of(
                    "Image upload failed, so only the caption text was submitted: ",
                );
                append_chars(&mut text, &chars_of(self.upload_error.as_str()));
                RecoveryAction::FinishWithWarning(string_of(&text))
            },
            Err(e) => {
                let mut text = chars_of("Image upload failed: ");
                append_chars(&mut text, &chars_of(self.upload_error.as_str()));
                append_chars(&mut text, &chars_of(". "));
                append_chars(&mut text, &chars_of(e.as_str()));
                RecoveryAction::Finish(Err(string_of(&text)))
            },
        }
    }
}

/// Law: when the failed image could not be removed, the caption text is
/// never submitted: the only step left is to put it back, and then recovery
/// ends with an error.
pub proof fn law_stuck_attachment_is_never_submitted(s: RecoveryView, d: Seq<char>, outcome: Result<(), Seq<char>>)
    requires
        s.phase == RecoveryPhase::Discarding,
    ensures
        discard_step(s, Err(d)).1 == RecoveryActionView::LeavePrompt,
        leave_prompt_step(discard_step(s, Err(d)).0, outcome).1 matches RecoveryActionView::Finish(
            Err(_),
        ),
        leave_prompt_step(discard_step(s, Err(d)).0, outcome).0.phase == RecoveryPhase::Done,
{
}

/// Law: recovery submits the caption text only when there is some, and a
/// cancelled workflow does nothing more.
pub proof fn law_recovery_submits_only_real_text(
    upload_error: Seq<char>,
    cancelled: bool,
    cancelled_after_check: bool,
    injected: bool,
    prompt_text: Seq<char>,
    outcome: Result<(), Seq<char>>,
)
    ensures
        cancelled ==> recovery_start(upload_error, cancelled, cancelled_after_check, injected, prompt_text).1
            == RecoveryActionView::Finish(Err(upload_error)),
        recovery_start(upload_error, cancelled, cancelled_after_check, injected, prompt_text).1
            == RecoveryActionView::SubmitCaption ==> trim(prompt_text).len() > 0,
        ({
            let s = recovery_start(upload_error, cancelled, cancelled_after_check, injected, prompt_text).0;
            s.phase == RecoveryPhase::Discarding && discard_step(s, outcome).1
                == RecoveryActionView::SubmitCaption
        }) ==> trim(prompt_text).len() > 0,
{
}

} // verus!

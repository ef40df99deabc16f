//! The retry ladder for embedding calls. The remote embedding backend may
//! reject a text as too long; the caller then retries with progressively
//! smaller character budgets (256, 192, 160, 120) and a reduced context
//! hint, up to four shrink retries, before giving up. Classifying the
//! backend's answer and computing each retry's input are decisions, so
//! they live here; the call itself is outside work.

use vstd::prelude::*;

use crate::text::{chars_of, clamp_spec, clamp_to, contains_lit, contains_seq, lower_seq,
    lower_vec};

verus! {

/// Whether an error body reports a context-length failure: lower-cased it
/// mentions a context length or calls the input too long.
pub open spec fn spec_is_context_length_error(body: Seq<char>) -> bool {
    ||| contains_seq(lower_seq(body), "context length"@)
    ||| contains_seq(lower_seq(body), "exceeds the context length"@)
    ||| contains_seq(lower_seq(body), "too long"@)
}

/// Executable test for [`spec_is_context_length_error`].
pub fn is_context_length_error(body: &str) -> (b: bool)
    ensures
        b == spec_is_context_length_error(body@),
{
    let cs = chars_of(body);
    let lowered = lower_vec(&cs);
    contains_lit(&lowered, "context length") || contains_lit(
        &lowered,
        "exceeds the context length",
    ) || contains_lit(&lowered, "too long")
}

/// The character budget of the `k`-th shrink retry.
pub open spec fn shrink_budget(k: int) -> usize {
    if k == 0 {
        256
    } else if k == 1 {
        192
    } else if k == 2 {
        160
    } else {
        120
    }
}

/// Most shrink retries before the failure is surfaced.
pub const MAX_SHRINK_RETRIES: usize = 4;

/// The retry ladder state for one embedding input.
pub struct EmbedRetry {
    /// The full original text.
    pub text: String,
    /// The clamped text of the current attempt.
    pub attempt_text: String,
    /// The context-size hint of the current attempt.
    pub num_ctx: usize,
    /// How many shrink retries happened so far.
    pub shrinks: usize,
}

impl EmbedRetry {
    /// Starts the ladder: the first attempt sends the text clamped to
    /// `max_chars` with the caller's context hint.
    pub fn new(text: String, max_chars: usize, num_ctx: usize) -> (r: EmbedRetry)
        ensures
            r.shrinks == 0,
            r.text@ == text@,
            r.attempt_text@ == clamp_spec(text@, max_chars as nat),
            r.num_ctx == num_ctx,
    {
        let attempt_text = clamp_to(text.as_str(), max_chars);
        EmbedRetry { text, attempt_text, num_ctx, shrinks: 0 }
    }

    /// Reacts to a context-length failure: while shrink retries are left,
    /// the next attempt clamps the original text to the next budget of the
    /// ladder — 256, then 192, 160, 120 characters — and caps the context
    /// hint at 1024, and the call is retried (`true`). After the fourth
    /// shrink the failure is final (`false`) and nothing changes.
    pub fn on_context_length_failure(&mut self) -> (retry: bool)
        ensures
            final(self).text@ == old(self).text@,
            retry == (old(self).shrinks < MAX_SHRINK_RETRIES),
            retry ==> {
                &&& final(self).shrinks == old(self).shrinks + 1
                &&& final(self).attempt_text@ == clamp_spec(
                    old(self).text@,
                    shrink_budget(old(self).shrinks as int) as nat,
                )
                &&& final(self).num_ctx == (if old(self).num_ctx < 1024 {
                    old(self).num_ctx
                } else {
                    1024
                })
            },
            !retry ==> *final(self) == *old(self),
    {
        if self.shrinks >= MAX_SHRINK_RETRIES {
            return false;
        }
        let budget: usize = if self.shrinks == 0 {
            256
        } else if self.shrinks == 1 {
            192
        } else if self.shrinks == 2 {
            160
        } else {
            120
        };
        self.attempt_text = clamp_to(self.text.as_str(), budget);
        if self.num_ctx > 1024 {
            self.num_ctx = 1024;
        }
        self.shrinks = self.shrinks + 1;
        true
    }
}

} // verus!

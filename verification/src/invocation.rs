//! Operator invocation audit records.

use crate::bytes::{chars_of, decimal_string, decimal_text, string_from_chars};
use crate::error::push_str;
use vstd::prelude::*;

verus! {

/// `n` spaces.
pub open spec fn spaces(n: nat) -> Seq<char> {
    Seq::new(n, |_i: int| ' ')
}

/// `s` right-aligned in a field of `width` characters.
pub open spec fn pad_left(s: Seq<char>, width: nat) -> Seq<char> {
    if s.len() < width {
        spaces((width - s.len()) as nat) + s
    } else {
        s
    }
}

/// `s` left-aligned in a field of `width` characters.
pub open spec fn pad_right(s: Seq<char>, width: nat) -> Seq<char> {
    if s.len() < width {
        s + spaces((width - s.len()) as nat)
    } else {
        s
    }
}

/// Appends `s` aligned in a field of `width` characters: to the right when
/// `right` holds, else to the left.
fn push_aligned(text: &mut String, s: &str, width: usize, right: bool)
    ensures
        final(text)@ == old(text)@ + if right {
            pad_left(s@, width as nat)
        } else {
            pad_right(s@, width as nat)
        },
{
    let chars = chars_of(s);
    let mut fill: Vec<char> = Vec::new();
    if chars.len() < width {
        let missing = width - chars.len();
        let mut i: usize = 0;
        while i < missing
            invariant
                i <= missing,
                fill@ == spaces(i as nat),
            decreases missing - i,
        {
            fill.push(' ');
            i = i + 1;
            proof {
                assert(fill@ =~= spaces(i as nat));
            }
        }
    }
    let padding = string_from_chars(&fill);
    if right {
        push_str(text, padding.as_str());
        push_str(text, s);
    } else {
        push_str(text, s);
        push_str(text, padding.as_str());
    }
    proof {
        if chars@.len() >= width {
            assert(fill@ =~= Seq::<char>::empty());
        }
        assert(final(text)@ =~= old(text)@ + if right {
            pad_left(s@, width as nat)
        } else {
            pad_right(s@, width as nat)
        });
    }
}

/// What caused an invocation.
#[derive(Debug, Clone, Copy, PartialEq, Eq, Structural)]
pub enum Trigger {
    Manual,
    Event,
    Interval,
    Threshold,
}

/// The name of a trigger as an operator reads it.
pub open spec fn trigger_name(t: Trigger) -> Seq<char> {
    match t {
        Trigger::Manual => "manual"@,
        Trigger::Event => "event"@,
        Trigger::Interval => "interval"@,
        Trigger::Threshold => "threshold"@,
    }
}

impl Trigger {
    /// The trigger's name as an operator reads it.
    pub fn label(self) -> (s: &'static str)
        ensures
            s@ == trigger_name(self),
    {
        match self {
            Trigger::Manual => "manual",
            Trigger::Event => "event",
            Trigger::Interval => "interval",
            Trigger::Threshold => "threshold",
        }
    }
}

/// How an invocation ended.
#[derive(Debug, Clone, Copy, PartialEq, Eq, Structural)]
pub enum Outcome {
    Succeeded,
    Error,
}

/// The name of an outcome as an operator reads it.
pub open spec fn outcome_name(o: Outcome) -> Seq<char> {
    match o {
        Outcome::Succeeded => "ok"@,
        Outcome::Error => "error"@,
    }
}

impl Outcome {
    /// The outcome's name as an operator reads it.
    pub fn label(self) -> (s: &'static str)
        ensures
            s@ == outcome_name(self),
    {
        match self {
            Outcome::Succeeded => "ok",
            Outcome::Error => "error",
        }
    }
}

/// One recorded invocation.
#[derive(Debug, Clone, PartialEq, Eq)]
pub struct Invocation {
    /// Monotonic ordinal, allocated inside the recording transaction.
    pub ordinal: u64,
    pub at: u64,
    pub trigger: Trigger,
    pub command: String,
    pub arguments: Vec<String>,
    pub outcome: Outcome,
    pub duration_ms: u64,
    /// Failure reason, or a short result summary.
    pub detail: Option<String>,
}

/// The fields a caller supplies when recording an invocation; the store
/// allocates the ordinal.
#[derive(Debug, Clone, PartialEq, Eq)]
pub struct InvocationInput {
    pub at: u64,
    pub trigger: Trigger,
    pub command: String,
    pub arguments: Vec<String>,
    pub outcome: Outcome,
    pub duration_ms: u64,
    pub detail: Option<String>,
}

/// One invocation rendered as a line: ordinal, time, trigger, command,
/// duration, outcome and detail, in aligned columns.
pub open spec fn render_line(inv: Invocation) -> Seq<char> {
    pad_left(decimal_text(inv.ordinal as nat), 6) + "  "@ + decimal_text(inv.at as nat) + "  "@ + pad_right(trigger_name(inv.trigger), 9) + " "@
        + pad_right(inv.command@, 10) + " "@ + pad_left(decimal_text(inv.duration_ms as nat), 7) + "ms  "@ + outcome_name(inv.outcome)
        + match inv.detail {
        Some(d) => "  "@ + d@,
        None => Seq::<char>::empty(),
    }
}

impl Invocation {
    /// Rendered as one line, for an operator reading the log directly.
    pub fn render(&self) -> (line: String)
        ensures
            line@ == render_line(*self),
    {
        let mut line = String::new();
        push_aligned(&mut line, decimal_string(self.ordinal).as_str(), 6, true);
        push_str(&mut line, "  ");
        push_str(&mut line, decimal_string(self.at).as_str());
        push_str(&mut line, "  ");
        push_aligned(&mut line, self.trigger.label(), 9, false);
        push_str(&mut line, " ");
        push_aligned(&mut line, self.command.as_str(), 10, false);
        push_str(&mut line, " ");
        push_aligned(&mut line, decimal_string(self.duration_ms).as_str(), 7, true);
        push_str(&mut line, "ms  ");
        push_str(&mut line, self.outcome.label());
        match &self.detail {
            Some(d) => {
                push_str(&mut line, "  ");
                push_str(&mut line, d.as_str());
            },
            None => {},
        }
        proof {
            reveal_strlit("  ");
            reveal_strlit(" ");
            reveal_strlit("ms  ");
            assert(line@ =~= render_line(*self));
        }
        line
    }

    /// The record of `input` under the ordinal `ordinal`.
    pub open spec fn spec_recorded(ordinal: u64, input: InvocationInput) -> Self {
        Invocation {
            ordinal,
            at: input.at,
            trigger: input.trigger,
            command: input.command,
            arguments: input.arguments,
            outcome: input.outcome,
            duration_ms: input.duration_ms,
            detail: input.detail,
        }
    }

    /// The record of `input` under the ordinal the store allocated.
    pub fn recorded(ordinal: u64, input: InvocationInput) -> (r: Self)
        ensures
            r == Self::spec_recorded(ordinal, input),
            r.ordinal == ordinal,
            r.at == input.at,
            r.trigger == input.trigger,
            r.command == input.command,
            r.arguments == input.arguments,
            r.outcome == input.outcome,
            r.duration_ms == input.duration_ms,
            r.detail == input.detail,
    {
        Invocation {
            ordinal,
            at: input.at,
            trigger: input.trigger,
            command: input.command,
            arguments: input.arguments,
            outcome: input.outcome,
            duration_ms: input.duration_ms,
            detail: input.detail,
        }
    }
}

} // verus!

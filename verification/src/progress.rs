//! The progress bridge: what one engine progress callback means for the
//! display. Selection between a visual bar, structured status lines, or
//! silence is fixed once at startup; out-of-range percentages are ignored
//! rather than corrupting the display.

use vstd::prelude::*;
use crate::digits::{all_digits, digits_val, u32_to_decimal};

verus! {

/// How progress is shown for the whole run.
#[derive(Clone, Copy, PartialEq, Eq, Structural, Debug)]
pub enum ProgressMode {
    /// A terminal progress bar.
    Bar,
    /// One structured status line per update.
    Structured,
    /// Nothing.
    Quiet,
}

/// What one progress callback asks of the display.
#[derive(Clone, Copy, PartialEq, Eq, Structural, Debug)]
pub enum ProgressAction {
    /// The value is out of range and must be ignored.
    Ignore,
    /// Move the indicator to this position.
    Update,
    /// The job is complete: terminate the indicator visibly.
    Finish,
}

/// Classifies one reported percentage: values above 100 are ignored, 100
/// finishes the display, anything else moves it.
pub fn progress_action(percent: u32) -> (r: ProgressAction)
    ensures
        r == if percent > 100 {
            ProgressAction::Ignore
        } else if percent == 100 {
            ProgressAction::Finish
        } else {
            ProgressAction::Update
        },
{
    if percent > 100 {
        ProgressAction::Ignore
    } else if percent == 100 {
        ProgressAction::Finish
    } else {
        ProgressAction::Update
    }
}

/// The display state of the bridge: the position shown never exceeds 100,
/// and a finished display stays finished.
pub struct ProgressState {
    position: u32,
    finished: bool,
}

impl ProgressState {
    /// The shown position.
    pub closed spec fn spec_position(self) -> u32 {
        self.position
    }

    /// Whether the display has terminated.
    pub closed spec fn spec_finished(self) -> bool {
        self.finished
    }

    /// The shown position never exceeds 100, and a finished display shows 100.
    pub closed spec fn wf(self) -> bool {
        self.position <= 100 && (self.finished ==> self.position == 100)
    }

    /// A fresh display at position 0.
    pub fn new() -> (r: ProgressState)
        ensures
            r.wf(),
            r.spec_position() == 0,
            !r.spec_finished(),
    {
        ProgressState { position: 0, finished: false }
    }

    /// The shown position, at most 100.
    pub fn position(&self) -> (r: u32)
        requires
            self.wf(),
        ensures
            r == self.spec_position(),
            r <= 100,
    {
        self.position
    }

    /// Whether the display has terminated.
    pub fn is_finished(&self) -> (r: bool)
        ensures
            r == self.spec_finished(),
    {
        self.finished
    }

    /// Applies one engine callback: a percentage above 100 changes nothing,
    /// 100 moves the display there and terminates it, and anything else
    /// moves the display.
    pub fn update(&mut self, percent: u32)
        requires
            old(self).wf(),
        ensures
            final(self).wf(),
            percent > 100 ==> *final(self) == *old(self),
            percent <= 100 ==> final(self).spec_position() == percent,
            percent <= 100 ==> final(self).spec_finished() == (percent == 100),
    {
        if percent <= 100 {
            self.position = percent;
            self.finished = percent == 100;
        }
    }
}

/// The structured status line for one update, for machine consumption:
/// exactly one line per in-range callback, none for an out-of-range one.
pub fn progress_record(percent: u32) -> (r: Option<String>)
    ensures
        match r {
            Some(l) => percent <= 100 && l@ == "{\"type\": \"progress\", \"percent\": "@ + decimal_digits(
                l@,
            ) + "}"@ && digits_of_record(l@, percent),
            None => percent > 100,
        },
{
    if percent > 100 {
        return None;
    }
    let num = u32_to_decimal(percent);
    let ghost nv = num@;
    let mut l = "{\"type\": \"progress\", \"percent\": ".to_owned();
    l.append(num.as_str());
    l.append("}");
    proof {
        let prefix = "{\"type\": \"progress\", \"percent\": "@;
        let suffix = "}"@;
        assert(l@ == prefix + nv + suffix);
        assert(decimal_digits(l@) =~= nv) by {
            reveal_strlit("{\"type\": \"progress\", \"percent\": ");
            reveal_strlit("}");
        }
    }
    Some(l)
}

/// The digit characters of a status line: what stands between its fixed
/// prefix and its closing brace.
pub open spec fn decimal_digits(l: Seq<char>) -> Seq<char> {
    l.subrange(
        "{\"type\": \"progress\", \"percent\": "@.len() as int,
        l.len() - "}"@.len(),
    )
}

/// The digits of the status line spell exactly this percentage.
pub open spec fn digits_of_record(l: Seq<char>, percent: u32) -> bool {
    all_digits(decimal_digits(l)) && digits_val(decimal_digits(l)) == percent
}

} // verus!

//! The job events that the names of the watched channels announce.

use vstd::prelude::*;

verus! {

/// What happened to a job.
#[derive(Clone, Copy, Debug, PartialEq, Eq, Structural)]
pub enum JobEvent {
    Completed,
    Failed,
    Active,
    Waiting,
}

/// Whether `text` ends with `suffix`.
pub open spec fn has_suffix(text: Seq<char>, suffix: Seq<char>) -> bool {
    suffix.len() <= text.len() && text.skip(text.len() - suffix.len()) == suffix
}

/// The event that a channel name ends with, if any.
pub open spec fn event_of(channel: Seq<char>) -> Option<JobEvent> {
    if has_suffix(channel, ":completed"@) {
        Some(JobEvent::Completed)
    } else if has_suffix(channel, ":failed"@) {
        Some(JobEvent::Failed)
    } else if has_suffix(channel, ":active"@) {
        Some(JobEvent::Active)
    } else if has_suffix(channel, ":waiting"@) {
        Some(JobEvent::Waiting)
    } else {
        None
    }
}

/// Calls `str::ends_with` with a string as the pattern: whether the last
/// characters of `text` are those of `suffix`.
#[verifier::external_body]
fn ends_with(text: &str, suffix: &str) -> (b: bool)
    ensures
        b == has_suffix(text@, suffix@),
{
    text.ends_with(suffix)
}

/// Tells from the name of a channel what happened to the job.
pub fn job_event(channel: &str) -> (event: Option<JobEvent>)
    ensures
        event == event_of(channel@),
{
    if ends_with(channel, ":completed") {
        Some(JobEvent::Completed)
    } else if ends_with(channel, ":failed") {
        Some(JobEvent::Failed)
    } else if ends_with(channel, ":active") {
        Some(JobEvent::Active)
    } else if ends_with(channel, ":waiting") {
        Some(JobEvent::Waiting)
    } else {
        None
    }
}

} // verus!

//! How statuses are shown on a terminal: the mark and colour chosen for
//! each status. Printing itself is left to the program.
use vstd::prelude::*;
use crate::{StatusEnum, is_running};

verus! {

/// The colours a mark or a text is shown in.
#[derive(Debug, Clone, Copy, PartialEq, Eq, Structural)]
pub enum Tone {
    Green,
    Red,
    Yellow,
    Dim,
}

/// The mark shown before a service, and its colour.
pub open spec fn service_mark_spec(s: StatusEnum) -> (Seq<char>, Tone) {
    match s {
        StatusEnum::Up => ("✅"@, Tone::Green),
        StatusEnum::Unhealthy => ("🛑"@, Tone::Red),
        StatusEnum::Unknown => ("⚠️"@, Tone::Yellow),
        StatusEnum::Exited => ("❌"@, Tone::Red),
        _ => ("❓"@, Tone::Dim),
    }
}

/// The colour of a service's status text (shown bold).
pub open spec fn service_tone_spec(s: StatusEnum) -> Tone {
    match s {
        StatusEnum::Up | StatusEnum::Healthy => Tone::Green,
        StatusEnum::Exited | StatusEnum::Unhealthy => Tone::Red,
        StatusEnum::Unknown => Tone::Yellow,
        _ => Tone::Dim,
    }
}

/// The mark shown before a container, and its colour.
pub open spec fn container_mark_spec(s: StatusEnum) -> (Seq<char>, Tone) {
    match s {
        StatusEnum::Up | StatusEnum::Healthy => ("▶"@, Tone::Green),
        StatusEnum::Exited => ("■"@, Tone::Red),
        _ => ("●"@, Tone::Dim),
    }
}

/// The colour of a container's status text.
pub open spec fn container_tone_spec(s: StatusEnum) -> Tone {
    match s {
        StatusEnum::Up | StatusEnum::Healthy => Tone::Green,
        StatusEnum::Exited | StatusEnum::Unhealthy => Tone::Red,
        StatusEnum::Unknown => Tone::Yellow,
        _ => Tone::Dim,
    }
}

/// What the colours say of a status text, the same for a service and for
/// a container: green exactly for a running status (`Up`, `Healthy`), red
/// exactly for a failing one (`Exited`, `Unhealthy`), yellow exactly for
/// `Unknown`, and dim for `NotFound`.
pub proof fn lemma_status_tones(s: StatusEnum)
    ensures
        service_tone_spec(s) == container_tone_spec(s),
        (service_tone_spec(s) == Tone::Green) == is_running(s),
        (service_tone_spec(s) == Tone::Red) == (s == StatusEnum::Exited || s == StatusEnum::Unhealthy),
        (service_tone_spec(s) == Tone::Yellow) == (s == StatusEnum::Unknown),
        (service_tone_spec(s) == Tone::Dim) == (s == StatusEnum::NotFound),
{
}

/// What the marks say: a container's mark is green exactly when it runs
/// and red exactly when it exited. A service's overall status (`Up`,
/// `Unhealthy` or `Unknown`) gets its own mark for each, green for `Up`,
/// red for `Unhealthy`, yellow for `Unknown`; an exited status is red too.
pub proof fn lemma_status_marks(s: StatusEnum, t: StatusEnum)
    ensures
        (container_mark_spec(s).1 == Tone::Green) == is_running(s),
        (container_mark_spec(s).1 == Tone::Red) == (s == StatusEnum::Exited),
        (service_mark_spec(s).1 == Tone::Green) == (s == StatusEnum::Up),
        (service_mark_spec(s).1 == Tone::Red) == (s == StatusEnum::Exited || s == StatusEnum::Unhealthy),
        (service_mark_spec(s).1 == Tone::Yellow) == (s == StatusEnum::Unknown),
        (s == StatusEnum::Up || s == StatusEnum::Unhealthy || s == StatusEnum::Unknown)
            && (t == StatusEnum::Up || t == StatusEnum::Unhealthy || t == StatusEnum::Unknown)
            && s != t ==> service_mark_spec(s).0 != service_mark_spec(t).0,
{
    reveal_strlit("✅");
    reveal_strlit("🛑");
    reveal_strlit("⚠️");
    if service_mark_spec(s).0 == service_mark_spec(t).0 {
        assert(service_mark_spec(s).0[0] == service_mark_spec(t).0[0]);
    }
}

/// The mark shown before a service in a status listing.
pub fn service_mark(s: StatusEnum) -> (res: (&'static str, Tone))
    ensures
        (res.0@, res.1) == service_mark_spec(s),
{
    match s {
        StatusEnum::Up => ("✅", Tone::Green),
        StatusEnum::Unhealthy => ("🛑", Tone::Red),
        StatusEnum::Unknown => ("⚠️", Tone::Yellow),
        StatusEnum::Exited => ("❌", Tone::Red),
        _ => ("❓", Tone::Dim),
    }
}

/// The colour of a service's status text.
pub fn service_tone(s: StatusEnum) -> (res: Tone)
    ensures
        res == service_tone_spec(s),
{
    match s {
        StatusEnum::Up | StatusEnum::Healthy => Tone::Green,
        StatusEnum::Exited | StatusEnum::Unhealthy => Tone::Red,
        StatusEnum::Unknown => Tone::Yellow,
        _ => Tone::Dim,
    }
}

/// The mark shown before a container in a status listing.
pub fn container_mark(s: StatusEnum) -> (res: (&'static str, Tone))
    ensures
        (res.0@, res.1) == container_mark_spec(s),
{
    match s {
        StatusEnum::Up | StatusEnum::Healthy => ("▶", Tone::Green),
        StatusEnum::Exited => ("■", Tone::Red),
        _ => ("●", Tone::Dim),
    }
}

/// The colour of a container's status text.
pub fn container_tone(s: StatusEnum) -> (res: Tone)
    ensures
        res == container_tone_spec(s),
{
    match s {
        StatusEnum::Up | StatusEnum::Healthy => Tone::Green,
        StatusEnum::Exited | StatusEnum::Unhealthy => Tone::Red,
        StatusEnum::Unknown => Tone::Yellow,
        _ => Tone::Dim,
    }
}

} // verus!

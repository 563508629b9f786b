//! Measures how long a stage takes, without touching what it returns.

use vstd::prelude::*;

verus! {

#[verifier::external_type_specification]
#[verifier::external_body]
pub struct ExInstant(std::time::Instant);

/// `std::time::Instant::now` reads the clock. Nothing is claimed of the
/// instant that it returns.
pub assume_specification[ std::time::Instant::now ]() -> (now: std::time::Instant)
;

/// `std::time::Instant::elapsed` gives the time that has passed since the
/// instant. Nothing is claimed of the duration that it returns.
pub assume_specification[ std::time::Instant::elapsed ](start: &std::time::Instant) -> (elapsed:
    std::time::Duration)
;

/// How long a stage took.
#[derive(Debug)]
pub struct StageTiming {
    /// The name that the stage was measured under.
    pub name: String,
    /// The time between its start and its end.
    pub elapsed: std::time::Duration,
}

/// Runs a stage once and measures it. What the stage returns is handed on as
/// it is, beside the time that it took under the given name.
pub fn measure_time<T, F: FnOnce() -> T>(f: F, name: &str) -> (r: (T, StageTiming))
    requires
        f.requires(()),
    ensures
        f.ensures((), r.0),
        r.1.name@ == name@,
{
    let start = std::time::Instant::now();
    let result = f();
    let elapsed = start.elapsed();
    (result, StageTiming { name: name.to_owned(), elapsed })
}

} // verus!

//! Durations as they are given on the command line.

use vstd::prelude::*;

verus! {

/// A duration that is positive and not zero.
#[derive(Clone, Copy, PartialEq, Eq, Structural, Debug)]
pub struct PositiveDuration {
    secs: i64,
    nanos: i32,
}

/// Why a text is no positive duration.
#[derive(Clone, Copy, PartialEq, Eq, Structural, Debug)]
pub enum DurationError {
    /// The text spells no duration.
    NotADuration,
    /// The duration is negative or zero.
    NotPositive,
}

/// A span of time: whole seconds, and less than a second of nanoseconds.
#[derive(Clone, Copy, PartialEq, Eq, Structural, Debug)]
pub struct Duration {
    pub secs: u64,
    pub nanos: u32,
}

/// Nanoseconds per second.
pub const NANOS_PER_SEC: u32 = 1_000_000_000;

/// The duration that `jiff::SignedDuration` reads from a text: its whole seconds and the nanoseconds
/// left, both with its sign. None where it reads none.
pub uninterp spec fn signed_duration(text: Seq<char>) -> Option<(i64, i32)>;

/// `<jiff::SignedDuration as std::str::FromStr>::from_str`, and the parts of the duration. There are
/// less than a second of nanoseconds, and seconds and nanoseconds do not differ in sign.
#[verifier::external_body]
fn parse_signed(text: &str) -> (r: Option<(i64, i32)>)
    ensures
        r == signed_duration(text@),
        r matches Some(d) ==> -1_000_000_000 < d.1 < 1_000_000_000,
        r matches Some(d) ==> !(d.0 > 0 && d.1 < 0) && !(d.0 < 0 && d.1 > 0),
{
    let duration: jiff::SignedDuration = text.parse().ok()?;
    Some((duration.as_secs(), duration.subsec_nanos()))
}

/// The seconds and nanoseconds of a positive duration, or why it is none.
pub open spec fn positive_duration(text: Seq<char>) -> Result<(i64, i32), DurationError> {
    match signed_duration(text) {
        None => Err(DurationError::NotADuration),
        Some((secs, nanos)) => if secs > 0 || (secs == 0 && nanos > 0) {
            Ok((secs, nanos))
        } else {
            Err(DurationError::NotPositive)
        },
    }
}

impl std::str::FromStr for PositiveDuration {
    type Err = DurationError;

    fn from_str(text: &str) -> (r: Result<Self, DurationError>)
        ensures
            match r {
                Ok(d) => positive_duration(text@) == Ok::<_, DurationError>(d.parts()),
                Err(e) => positive_duration(text@) == Err::<(i64, i32), _>(e),
            },
    {
        PositiveDuration::parse(text)
    }
}

impl PositiveDuration {
    #[verifier::type_invariant]
    spec fn is_positive(self) -> bool {
        &&& self.secs >= 0
        &&& 0 <= self.nanos < 1_000_000_000
        &&& self.secs > 0 || self.nanos > 0
    }

    /// The seconds and the nanoseconds left.
    pub closed spec fn parts(self) -> (i64, i32) {
        (self.secs, self.nanos)
    }

    /// The duration that signed seconds and nanoseconds make, if it is positive.
    pub fn from_signed(secs: i64, nanos: i32) -> (r: Result<Self, DurationError>)
        requires
            -1_000_000_000 < nanos < 1_000_000_000,
            !(secs > 0 && nanos < 0) && !(secs < 0 && nanos > 0),
        ensures
            match r {
                Ok(d) => (secs > 0 || (secs == 0 && nanos > 0)) && d.parts() == (secs, nanos),
                Err(e) => !(secs > 0 || (secs == 0 && nanos > 0)) && e
                    == DurationError::NotPositive,
            },
    {
        if secs > 0 || (secs == 0 && nanos > 0) {
            Ok(PositiveDuration { secs, nanos })
        } else {
            Err(DurationError::NotPositive)
        }
    }

    /// Reads a duration such as `2s` or `500ms`.
    pub fn parse(text: &str) -> (r: Result<Self, DurationError>)
        ensures
            match r {
                Ok(d) => positive_duration(text@) == Ok::<_, DurationError>(d.parts()),
                Err(e) => positive_duration(text@) == Err::<(i64, i32), _>(e),
            },
    {
        match parse_signed(text) {
            Some((secs, nanos)) => Self::from_signed(secs, nanos),
            None => Err(DurationError::NotADuration),
        }
    }

    /// The duration without its sign.
    pub fn into_duration(self) -> (r: Duration)
        ensures
            r.secs == self.parts().0,
            r.nanos == self.parts().1,
            r.nanos < NANOS_PER_SEC,
            r.secs > 0 || r.nanos > 0,
    {
        proof {
            use_type_invariant(&self);
        }
        Duration { secs: self.secs as u64, nanos: self.nanos as u32 }
    }
}

} // verus!

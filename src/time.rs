use vstd::prelude::*;

verus! {

/// Seconds since 1970-01-01 00:00:00 on a naive (zone-less) clock.
pub type Timestamp = i64;

/// Why a time value could not be built.
#[derive(Debug, Clone, Copy, PartialEq, Eq, Structural)]
pub enum TimeError {
    /// The text is not of the form `YYYY-MM-DD HH:MM:SS`.
    BadTimestamp,
    /// The start lies after the end.
    StartAfterEnd,
}

/// What `NaiveDateTime::parse_from_str(s, "%Y-%m-%d %H:%M:%S")` yields for `s`,
/// as seconds since the epoch; `None` where it refuses the text.
pub uninterp spec fn parsed_datetime(s: Seq<char>) -> Option<i64>;

/// Relies on chrono's `NaiveDateTime::parse_from_str` with the pattern
/// `%Y-%m-%d %H:%M:%S`, and on `and_utc().timestamp()` to count seconds.
/// An empty text is refused (chrono reports it as too short).
#[verifier::external_body]
fn parse_datetime(s: &str) -> (r: Option<i64>)
    ensures
        r == parsed_datetime(s@),
        s@.len() == 0 ==> r is None,
{
    chrono::NaiveDateTime::parse_from_str(s, "%Y-%m-%d %H:%M:%S").ok().map(|d| d.and_utc().timestamp())
}

/// A closed time range `[start, end]`.
#[derive(Debug, Clone, Copy, PartialEq, Eq, Structural)]
pub struct TimePeriod {
    pub start: Timestamp,
    pub end: Timestamp,
}

impl TimePeriod {
    /// A period is well formed when it does not end before it starts.
    pub open spec fn wf(self) -> bool {
        self.start <= self.end
    }

    pub open spec fn contains_spec(self, other: TimePeriod) -> bool {
        self.start <= other.start && self.end >= other.end
    }

    pub open spec fn overlaps_spec(self, other: TimePeriod) -> bool {
        self.start <= other.end && self.end >= other.start
    }

    /// The period from `start` to `end`; refused when `start > end`.
    pub fn new(start: Timestamp, end: Timestamp) -> (r: Result<TimePeriod, TimeError>)
        ensures
            start <= end <==> r is Ok,
            r is Err ==> r == Err::<TimePeriod, TimeError>(TimeError::StartAfterEnd),
            r matches Ok(p) ==> p.start == start && p.end == end && p.wf(),
    {
        if start > end {
            Err(TimeError::StartAfterEnd)
        } else {
            Ok(TimePeriod { start, end })
        }
    }

    /// Reads one timestamp written as `YYYY-MM-DD HH:MM:SS`.
    pub fn parse(s: &str) -> (r: Result<Timestamp, TimeError>)
        ensures
            match parsed_datetime(s@) {
                Some(t) => r == Ok::<Timestamp, TimeError>(t),
                None => r == Err::<Timestamp, TimeError>(TimeError::BadTimestamp),
            },
    {
        match parse_datetime(s) {
            Some(t) => Ok(t),
            None => Err(TimeError::BadTimestamp),
        }
    }

    /// Reads a period from its start text and optional end text; a missing
    /// end means the period is the single instant of its start.
    pub fn parse_period(start_str: &str, end_str: Option<&str>) -> (r: Result<TimePeriod, TimeError>)
        ensures
            r == period_of(start_str@, opt_view(end_str)),
    {
        let start = match Self::parse(start_str) {
            Ok(t) => t,
            Err(e) => return Err(e),
        };
        let end = match end_str {
            Some(e) => match Self::parse(e) {
                Ok(t) => t,
                Err(e) => return Err(e),
            },
            None => start,
        };
        Self::new(start, end)
    }

    pub fn is_contain(&self, other: &TimePeriod) -> (r: bool)
        ensures
            r == self.contains_spec(*other),
    {
        self.start <= other.start && self.end >= other.end
    }

    pub fn is_overlap(&self, other: &TimePeriod) -> (r: bool)
        ensures
            r == self.overlaps_spec(*other),
    {
        self.start <= other.end && self.end >= other.start
    }
}

/// The view of an optional text.
pub open spec fn opt_view(s: Option<&str>) -> Option<Seq<char>> {
    match s {
        Some(t) => Some(t@),
        None => None,
    }
}

/// The period read from a start text and an optional end text.
pub open spec fn period_of(start: Seq<char>, end: Option<Seq<char>>) -> Result<TimePeriod, TimeError> {
    match parsed_datetime(start) {
        None => Err(TimeError::BadTimestamp),
        Some(s) => {
            let e = match end {
                None => Some(s),
                Some(t) => parsed_datetime(t),
            };
            match e {
                None => Err(TimeError::BadTimestamp),
                Some(e) => if s <= e {
                    Ok(TimePeriod { start: s, end: e })
                } else {
                    Err(TimeError::StartAfterEnd)
                },
            }
        },
    }
}

/// Containment implies overlap, overlap is symmetric, and every well-formed
/// period contains and overlaps itself.
pub proof fn lemma_period_relations(a: TimePeriod, b: TimePeriod)
    requires
        a.wf(),
        b.wf(),
    ensures
        a.contains_spec(b) ==> a.overlaps_spec(b),
        a.overlaps_spec(b) <==> b.overlaps_spec(a),
        a.contains_spec(a),
        a.overlaps_spec(a),
{
}

} // verus!

use vstd::prelude::*;
use crate::accumulator::{GroupModel, SimilarityAccumulator, ingest_model};
use crate::config::Config;
use crate::filters::{Filters, noisy};
use crate::text::{seq_contains, seq_starts_with, str_contains, str_starts_with};
use crate::timestamp::{TimestampExtractor, strip_brackets, timestamp_of};

verus! {

/// The marker of a line that opens a stack trace.
pub const TRACE_MARKER: &'static str = "Stack trace:";

/// The prefix of a line that opens a chained stack trace.
pub const NEXT_PREFIX: &'static str = "Next";

/// The marker of the line that closes a stack trace.
pub const TRACE_END: &'static str = "{main}";

/// The line opens a stack trace.
pub open spec fn enters_trace(line: Seq<char>) -> bool {
    seq_contains(line, TRACE_MARKER@) || seq_starts_with(line, NEXT_PREFIX@)
}

/// The line closes a stack trace.
pub open spec fn exits_trace(line: Seq<char>) -> bool {
    seq_contains(line, TRACE_END@)
}

/// The noise test rejects the line.
pub open spec fn rejected_as_noise(filters: Option<Seq<Seq<char>>>, line: Seq<char>) -> bool {
    filters matches Some(p) && noisy(p, line)
}

/// The line's known instant lies before the start bound.
pub open spec fn before_start(start: Option<i64>, time: Option<i64>) -> bool {
    start matches Some(s) && time matches Some(t) && t < s
}

/// The line's known instant lies after the end bound.
pub open spec fn after_end(end: Option<i64>, time: Option<i64>) -> bool {
    end matches Some(e) && time matches Some(t) && t > e
}

/// The search text is set and the line does not contain it.
pub open spec fn misses_search(search: Option<Seq<char>>, line: Seq<char>) -> bool {
    search matches Some(s) && !seq_contains(line, s)
}

/// The search text of a run, as characters.
pub open spec fn search_of(cfg: &Config) -> Option<Seq<char>> {
    match &cfg.search {
        Some(s) => Some(s@),
        None => None,
    }
}

/// The noise substrings in force, if any.
pub open spec fn patterns_of(filters: Option<&Filters>) -> Option<Seq<Seq<char>>> {
    match filters {
        Some(f) => Some(f.patterns()),
        None => None,
    }
}

/// The filter chain keeps the line: it is not noise, its known instant lies
/// within the date bounds, and it holds the search text.
pub open spec fn accepted(cfg: &Config, filters: Option<Seq<Seq<char>>>, line: Seq<char>, time: Option<i64>) -> bool {
    &&& !rejected_as_noise(filters, line)
    &&& !before_start(cfg.start_date, time)
    &&& !after_end(cfg.end_date, time)
    &&& !misses_search(search_of(cfg), line)
}

/// Runs the filter chain on a line whose instant is `time`: the noise test,
/// the start bound, the end bound and the search test, in that order.
pub fn accepts(cfg: &Config, filters: Option<&Filters>, line: &str, time: Option<i64>) -> (r: bool)
    ensures
        r == accepted(cfg, patterns_of(filters), line@, time),
{
    if let Some(f) = filters {
        if f.is_filtered(line) {
            return false;
        }
    }
    if let Some(start) = cfg.start_date {
        if let Some(t) = time {
            if t < start {
                return false;
            }
        }
    }
    if let Some(end) = cfg.end_date {
        if let Some(t) = time {
            if t > end {
                return false;
            }
        }
    }
    if let Some(search) = &cfg.search {
        if !str_contains(line, search.as_str()) {
            return false;
        }
    }
    true
}

/// What became of one line.
#[derive(Debug, PartialEq, Eq, Structural)]
pub enum LineOutcome {
    /// An empty line, skipped.
    Blank,
    /// Dropped by the filter chain.
    Rejected,
    /// Inside a stack trace that is being left out.
    Suppressed,
    /// To be printed as it is (stream mode).
    Emitted,
    /// Taken into the message groups (count mode).
    Counted,
}

/// Whether the line lies in a stack trace, given the state before it.
pub open spec fn inside_trace(exclude: bool, in_trace: bool, line: Seq<char>) -> bool {
    in_trace || (exclude && enters_trace(line))
}

/// The trace state after an accepted line.
pub open spec fn trace_after(exclude: bool, in_trace: bool, line: Seq<char>) -> bool {
    if exclude && exits_trace(line) {
        false
    } else {
        inside_trace(exclude, in_trace, line)
    }
}

/// The state of the scan of one file: whether it is inside a stack trace, and
/// the message groups seen so far.
pub struct FileState {
    in_trace: bool,
    acc: SimilarityAccumulator,
}

impl FileState {
    pub closed spec fn spec_in_trace(&self) -> bool {
        self.in_trace
    }

    pub closed spec fn groups(&self) -> Seq<GroupModel> {
        self.acc.model()
    }

    /// How many lines have been counted.
    pub closed spec fn spec_counted(&self) -> nat {
        self.acc.spec_ingested()
    }

    pub closed spec fn spec_threshold(&self) -> Option<crate::similarity::Fraction> {
        self.acc.spec_threshold()
    }

    pub closed spec fn wf(&self) -> bool {
        self.acc.wf()
    }

    /// The state at the start of a file: outside any trace, no groups.
    pub fn new(cfg: &Config) -> (r: FileState)
        requires
            cfg.wf(),
        ensures
            r.wf(),
            !r.spec_in_trace(),
            r.groups() == Seq::<GroupModel>::empty(),
            r.spec_counted() == 0,
            r.spec_threshold() == cfg.similarity_threshold,
    {
        FileState { in_trace: false, acc: SimilarityAccumulator::new(cfg.similarity_threshold) }
    }

    /// How many lines have been counted.
    pub fn counted(&self) -> (r: u64)
        ensures
            r == self.spec_counted(),
    {
        self.acc.ingested()
    }

    /// The message groups, in the order they were opened.
    pub fn accumulator(&self) -> (r: &SimilarityAccumulator)
        ensures
            r.model() == self.groups(),
            r.wf() == self.wf(),
    {
        &self.acc
    }
}

/// Takes one line of a file through the pipeline: timestamp extraction, the
/// filter chain, the stack-trace tracker, and then either the stream or the
/// message groups.
pub fn process_line(cfg: &Config, filters: Option<&Filters>, x: &TimestampExtractor, state: &mut FileState, line: &str) -> (r: LineOutcome)
    requires
        old(state).wf(),
        old(state).spec_counted() < u64::MAX,
    ensures
        final(state).wf(),
        final(state).spec_threshold() == old(state).spec_threshold(),
        line@.len() == 0 ==> r == LineOutcome::Blank && *final(state) == *old(state),
        line@.len() > 0 && !accepted(cfg, patterns_of(filters), line@, timestamp_of(line@)) ==>
            r == LineOutcome::Rejected && *final(state) == *old(state),
        line@.len() > 0 && accepted(cfg, patterns_of(filters), line@, timestamp_of(line@)) ==> {
            let inside = inside_trace(cfg.exclude_trace, old(state).spec_in_trace(), line@);
            &&& r == (if inside {
                LineOutcome::Suppressed
            } else if cfg.count_mode {
                LineOutcome::Counted
            } else {
                LineOutcome::Emitted
            })
            &&& final(state).spec_in_trace() == trace_after(cfg.exclude_trace, old(state).spec_in_trace(), line@)
            &&& !inside && cfg.count_mode ==> final(state).groups() == ingest_model(
                old(state).groups(),
                old(state).spec_threshold(),
                strip_brackets(line@),
            ) && final(state).spec_counted() == old(state).spec_counted() + 1
            &&& !(!inside && cfg.count_mode) ==> final(state).groups() == old(state).groups()
                && final(state).spec_counted() == old(state).spec_counted()
        },
{
    if line.is_empty() {
        return LineOutcome::Blank;
    }
    let time = x.extract(line);
    if !accepts(cfg, filters, line, time) {
        return LineOutcome::Rejected;
    }
    if cfg.exclude_trace {
        if str_contains(line, TRACE_MARKER) || str_starts_with(line, NEXT_PREFIX) {
            state.in_trace = true;
        }
    }
    let outcome = if state.in_trace {
        LineOutcome::Suppressed
    } else if cfg.count_mode {
        let msg = x.normalize(line);
        state.acc.ingest(msg);
        LineOutcome::Counted
    } else {
        LineOutcome::Emitted
    };
    if cfg.exclude_trace && str_contains(line, TRACE_END) {
        state.in_trace = false;
    }
    outcome
}

} // verus!

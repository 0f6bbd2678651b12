//! Facts that hold across calls of the library.
use vstd::prelude::*;
use crate::accumulator::{GroupModel, best_index, best_match, ingest_model, lemma_best_index_bound, new_group, scores_against};
use crate::config::Config;
use crate::pipeline::{accepted, after_end, before_start, exits_trace, enters_trace, inside_trace, trace_after};
use crate::similarity::{Fraction, frac_eq, frac_gt, is_one, score_of};
use crate::timestamp::{bracket_token, lemma_no_bracket_no_timestamp, timestamp_of};

verus! {

/// A line without a bracketed token has no timestamp, so neither date bound
/// rejects it, whatever the bounds are.
pub proof fn untimed_lines_pass_date_bounds(start: Option<i64>, end: Option<i64>, line: Seq<char>)
    requires
        bracket_token(line) is None,
    ensures
        timestamp_of(line) is None,
        !before_start(start, timestamp_of(line)),
        !after_end(end, timestamp_of(line)),
{
}

/// In particular a line without any `[` passes both date bounds.
pub proof fn lines_without_brackets_pass_date_bounds(start: Option<i64>, end: Option<i64>, line: Seq<char>)
    requires
        forall|i: int| 0 <= i < line.len() ==> line[i] != '[',
    ensures
        timestamp_of(line) is None,
        !before_start(start, timestamp_of(line)),
        !after_end(end, timestamp_of(line)),
{
    lemma_no_bracket_no_timestamp(line);
    untimed_lines_pass_date_bounds(start, end, line);
}

/// Every line the filter chain keeps whose instant is known lies within the
/// configured bounds.
pub proof fn kept_lines_lie_in_range(cfg: &Config, filters: Option<Seq<Seq<char>>>, line: Seq<char>, time: Option<i64>)
    requires
        accepted(cfg, filters, line, time),
    ensures
        cfg.start_date is Some && time is Some ==> cfg.start_date->0 <= time->0,
        cfg.end_date is Some && time is Some ==> time->0 <= cfg.end_date->0,
{
}

/// Which of `lines`, all kept by the filter chain, the trace tracker
/// suppresses, starting from `in_trace`.
pub open spec fn suppressed_run(exclude: bool, in_trace: bool, lines: Seq<Seq<char>>) -> Seq<bool>
    decreases lines.len(),
{
    if lines.len() == 0 {
        Seq::empty()
    } else {
        seq![inside_trace(exclude, in_trace, lines[0])]
            + suppressed_run(exclude, trace_after(exclude, in_trace, lines[0]), lines.drop_first())
    }
}

/// With trace exclusion on, a line that opens a trace and every line after
/// it up to and including the first that closes it are all suppressed.
pub proof fn trace_span_is_suppressed(in_trace: bool, lines: Seq<Seq<char>>)
    requires
        lines.len() > 0,
        enters_trace(lines[0]),
        forall|k: int| 0 <= k < lines.len() - 1 ==> !exits_trace(#[trigger] lines[k]),
    ensures
        suppressed_run(true, in_trace, lines).len() == lines.len(),
        forall|k: int| 0 <= k < lines.len() ==> #[trigger] suppressed_run(true, in_trace, lines)[k],
    decreases lines.len(),
{
    lemma_run_inside(true, lines);
}

/// Once inside a trace, lines stay suppressed up to and including the first
/// that closes it.
proof fn lemma_run_inside(in_trace: bool, lines: Seq<Seq<char>>)
    requires
        lines.len() > 0 ==> inside_trace(true, in_trace, lines[0]),
        forall|k: int| 0 <= k < lines.len() - 1 ==> !exits_trace(#[trigger] lines[k]),
    ensures
        suppressed_run(true, in_trace, lines).len() == lines.len(),
        forall|k: int| 0 <= k < lines.len() ==> #[trigger] suppressed_run(true, in_trace, lines)[k],
    decreases lines.len(),
{
    if lines.len() > 0 {
        let rest = lines.drop_first();
        let next = trace_after(true, in_trace, lines[0]);
        if rest.len() > 0 {
            assert(!exits_trace(lines[0]));
            assert(rest[0] == lines[1]);
        }
        assert forall|k: int| 0 <= k < rest.len() - 1 implies !exits_trace(#[trigger] rest[k]) by {
            assert(rest[k] == lines[k + 1]);
        }
        lemma_run_inside(next, rest);
        let run = suppressed_run(true, in_trace, lines);
        assert forall|k: int| 0 <= k < lines.len() implies #[trigger] run[k] by {
            if k > 0 {
                assert(run[k] == suppressed_run(true, next, rest)[k - 1]);
            }
        }
    }
}

/// With trace exclusion off, a tracker that starts outside a trace never
/// suppresses a line.
pub proof fn no_suppression_when_disabled(lines: Seq<Seq<char>>)
    ensures
        suppressed_run(false, false, lines).len() == lines.len(),
        forall|k: int| 0 <= k < lines.len() ==> !#[trigger] suppressed_run(false, false, lines)[k],
    decreases lines.len(),
{
    if lines.len() > 0 {
        let rest = lines.drop_first();
        no_suppression_when_disabled(rest);
        let run = suppressed_run(false, false, lines);
        assert forall|k: int| 0 <= k < lines.len() implies !#[trigger] run[k] by {
            if k > 0 {
                assert(run[k] == suppressed_run(false, false, rest)[k - 1]);
            }
        }
    }
}

/// Under any threshold below one, taking the same message twice into empty
/// groups gives one group, keyed by the message, with count two and
/// similarity one.
pub proof fn same_message_twice(t: Fraction, msg: Seq<char>)
    requires
        t.wf(),
        t.num < t.den,
    ensures
        ({
            let g = ingest_model(ingest_model(Seq::empty(), Some(t), msg), Some(t), msg);
            &&& g.len() == 1
            &&& g[0].key == msg
            &&& g[0].count == 2
            &&& is_one(g[0].similarity)
        }),
{
    let g1 = ingest_model(Seq::<GroupModel>::empty(), Some(t), msg);
    assert(best_index(scores_against(Seq::<GroupModel>::empty(), msg), t, 0) is None);
    assert(g1 =~= seq![new_group(msg)]);
    let sc = scores_against(g1, msg);
    assert(sc[0] == score_of(msg, msg));
    assert(frac_gt(sc[0], t)) by {
        assert((1 as int) * (t.den as int) > (t.num as int) * (1 as int));
    }
    assert(best_index(sc, t, 0) is None);
    assert(best_match(g1, t, msg) == Some(0int));
}

/// Every position a scan settles on holds a score strictly above the
/// threshold.
proof fn lemma_best_index_exceeds(scores: Seq<Fraction>, t: Fraction, n: int)
    ensures
        best_index(scores, t, n) matches Some(j) ==> frac_gt(scores[j], t),
    decreases n,
{
    if n > 0 {
        lemma_best_index_exceeds(scores, t, n - 1);
    }
}

/// A group whose key scores exactly the threshold against a message never
/// takes that message in: merging asks for a score strictly above it.
pub proof fn equal_score_does_not_merge(groups: Seq<GroupModel>, t: Fraction, msg: Seq<char>, j: int)
    requires
        0 <= j < groups.len(),
        frac_eq(score_of(groups[j].key, msg), t),
    ensures
        best_match(groups, t, msg) != Some(j),
        ingest_model(groups, Some(t), msg)[j] == groups[j],
{
    let sc = scores_against(groups, msg);
    lemma_best_index_exceeds(sc, t, groups.len() as int);
    lemma_best_index_bound(sc, t, groups.len() as int);
    assert(sc[j] == score_of(groups[j].key, msg));
}

} // verus!

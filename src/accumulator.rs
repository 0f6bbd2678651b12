use vstd::prelude::*;
use crate::similarity::{Fraction, frac_gt, greater_than, score_of, similarity};

verus! {

/// One group of messages: the text that opened it, how many messages it
/// holds, and the similarity of the message merged into it last.
pub struct MessageGroup {
    pub key: String,
    pub count: u64,
    pub similarity: Fraction,
}

/// What a group stands for.
pub ghost struct GroupModel {
    pub key: Seq<char>,
    pub count: nat,
    pub similarity: Fraction,
}

impl MessageGroup {
    pub open spec fn model(&self) -> GroupModel {
        GroupModel { key: self.key@, count: self.count as nat, similarity: self.similarity }
    }
}

/// The position that a scan of the first `n` scores settles on: the highest
/// score strictly above `t`, the earliest one on a tie, or none when no score
/// exceeds `t`.
pub open spec fn best_index(scores: Seq<Fraction>, t: Fraction, n: int) -> Option<int>
    decreases n,
{
    if n <= 0 {
        None
    } else {
        let prev = best_index(scores, t, n - 1);
        let s = scores[n - 1];
        if frac_gt(s, t) && (prev is None || frac_gt(s, scores[prev->0])) {
            Some(n - 1)
        } else {
            prev
        }
    }
}

/// `a > b >= c` gives `a > c`, for fractions with positive denominators.
proof fn lemma_frac_gt_ge(a: Fraction, b: Fraction, c: Fraction)
    requires
        a.den > 0,
        b.den > 0,
        c.den > 0,
        frac_gt(a, b),
        !frac_gt(c, b),
    ensures
        frac_gt(a, c),
{
    let (an, ad, bn, bd, cn, cd) = (a.num as int, a.den as int, b.num as int, b.den as int, c.num as int, c.den as int);
    assert(an * bd * cd > bn * ad * cd) by (nonlinear_arith)
        requires
            an * bd > bn * ad,
            cd > 0,
    ;
    assert(cn * bd * ad <= bn * cd * ad) by (nonlinear_arith)
        requires
            cn * bd <= bn * cd,
            ad > 0,
    ;
    assert(an * cd > cn * ad) by (nonlinear_arith)
        requires
            an * bd * cd > bn * ad * cd,
            cn * bd * ad <= bn * cd * ad,
            bd > 0,
    ;
}

/// What the scan settles on, stated directly: nothing exactly when no score
/// exceeds `t`; otherwise a score above `t` that no score exceeds and that
/// exceeds every score before it.
pub proof fn best_index_is_first_maximum(scores: Seq<Fraction>, t: Fraction, n: int)
    requires
        0 <= n <= scores.len(),
        t.den > 0,
        forall|i: int| 0 <= i < n ==> (#[trigger] scores[i]).den > 0,
    ensures
        best_index(scores, t, n) is None <==> forall|i: int| 0 <= i < n ==> !frac_gt(#[trigger] scores[i], t),
        best_index(scores, t, n) matches Some(j) ==> {
            &&& 0 <= j < n
            &&& frac_gt(scores[j], t)
            &&& forall|i: int| 0 <= i < n ==> !frac_gt(#[trigger] scores[i], scores[j])
            &&& forall|i: int| 0 <= i < j ==> frac_gt(scores[j], #[trigger] scores[i])
        },
    decreases n,
{
    if n > 0 {
        best_index_is_first_maximum(scores, t, n - 1);
        let prev = best_index(scores, t, n - 1);
        let s = scores[n - 1];
        if frac_gt(s, t) && (prev is None || frac_gt(s, scores[prev->0])) {
            assert forall|i: int| 0 <= i < n - 1 implies frac_gt(s, #[trigger] scores[i]) by {
                match prev {
                    None => lemma_frac_gt_ge(s, t, scores[i]),
                    Some(p) => lemma_frac_gt_ge(s, scores[p], scores[i]),
                }
            }
        } else {
            match prev {
                None => {},
                Some(p) => {
                    if frac_gt(s, t) {
                        assert(!frac_gt(s, scores[p]));
                    } else {
                        lemma_frac_gt_ge(scores[p], t, s);
                    }
                },
            }
        }
    }
}

/// The similarity of `msg` to each group's key, in group order.
pub open spec fn scores_against(groups: Seq<GroupModel>, msg: Seq<char>) -> Seq<Fraction> {
    Seq::new(groups.len(), |i: int| score_of(groups[i].key, msg))
}

/// The group that `msg` merges into under threshold `t`, if any.
pub open spec fn best_match(groups: Seq<GroupModel>, t: Fraction, msg: Seq<char>) -> Option<int> {
    best_index(scores_against(groups, msg), t, groups.len() as int)
}

/// Picks, among `scores`, the highest one strictly above `threshold`, the
/// earliest on a tie; `None` when no score exceeds the threshold.
pub fn choose_group(scores: &Vec<Fraction>, threshold: Fraction) -> (r: Option<usize>)
    ensures
        match r {
            None => best_index(scores@, threshold, scores@.len() as int) is None,
            Some(j) => best_index(scores@, threshold, scores@.len() as int) == Some(j as int),
        },
{
    let n = scores.len();
    let mut found: Option<usize> = None;
    let mut i: usize = 0;
    while i < n
        invariant
            n == scores@.len(),
            i <= n,
            match found {
                None => best_index(scores@, threshold, i as int) is None,
                Some(b) => b < i && best_index(scores@, threshold, i as int) == Some(b as int),
            },
        decreases n - i,
    {
        let s = scores[i];
        let better = match found {
            None => true,
            Some(b) => greater_than(s, scores[b]),
        };
        if greater_than(s, threshold) && better {
            found = Some(i);
        }
        i += 1;
    }
    found
}

/// The index of the first of the first `n` groups whose key is `msg`.
pub open spec fn exact_match(groups: Seq<GroupModel>, msg: Seq<char>, n: int) -> Option<int>
    decreases n,
{
    if n <= 0 {
        None
    } else {
        match exact_match(groups, msg, n - 1) {
            Some(j) => Some(j),
            None => if groups[n - 1].key == msg { Some(n - 1) } else { None },
        }
    }
}

/// A fresh group opened by `msg`.
pub open spec fn new_group(msg: Seq<char>) -> GroupModel {
    GroupModel { key: msg, count: 1, similarity: Fraction { num: 1, den: 1 } }
}

/// The groups after one message is taken in: with a threshold, merged into
/// the best group scoring above it (its similarity replaced by that score) or
/// opening a new group; without one, counted under its exact text.
pub open spec fn ingest_model(groups: Seq<GroupModel>, threshold: Option<Fraction>, msg: Seq<char>) -> Seq<GroupModel> {
    match threshold {
        Some(t) => match best_match(groups, t, msg) {
            Some(j) => groups.update(j, GroupModel {
                key: groups[j].key,
                count: groups[j].count + 1,
                similarity: score_of(groups[j].key, msg),
            }),
            None => groups.push(new_group(msg)),
        },
        None => match exact_match(groups, msg, groups.len() as int) {
            Some(j) => groups.update(j, GroupModel { count: groups[j].count + 1, ..groups[j] }),
            None => groups.push(new_group(msg)),
        },
    }
}

/// The sum of the groups' counts.
pub open spec fn total_count(groups: Seq<GroupModel>) -> int
    decreases groups.len(),
{
    if groups.len() == 0 {
        0
    } else {
        total_count(groups.drop_last()) + groups.last().count
    }
}

/// No two groups share a key.
pub open spec fn keys_unique(groups: Seq<GroupModel>) -> bool {
    forall|i: int, j: int| 0 <= i < j < groups.len() ==> #[trigger] groups[i].key != #[trigger] groups[j].key
}

/// Messages identical to a key always merge into it: exact grouping, or a
/// threshold below one.
pub open spec fn identical_messages_merge(threshold: Option<Fraction>) -> bool {
    match threshold {
        Some(t) => t.num < t.den,
        None => true,
    }
}

/// The message groups of one file.
pub struct SimilarityAccumulator {
    groups: Vec<MessageGroup>,
    threshold: Option<Fraction>,
    ingested: u64,
}

impl SimilarityAccumulator {
    pub closed spec fn model(&self) -> Seq<GroupModel> {
        Seq::new(self.groups@.len(), |i: int| self.groups@[i].model())
    }

    pub closed spec fn spec_threshold(&self) -> Option<Fraction> {
        self.threshold
    }

    /// How many messages have been taken in.
    pub closed spec fn spec_ingested(&self) -> nat {
        self.ingested as nat
    }

    pub closed spec fn wf(&self) -> bool {
        &&& match self.threshold {
            Some(t) => t.wf(),
            None => true,
        }
        &&& forall|i: int| 0 <= i < self.groups@.len() ==> #[trigger] self.groups@[i].count <= self.ingested
        &&& forall|i: int| 0 <= i < self.groups@.len() ==> #[trigger] self.groups@[i].similarity.wf()
        &&& total_count(self.model()) == self.ingested
        &&& identical_messages_merge(self.threshold) ==> keys_unique(self.model())
    }

    /// The groups' counts add up to the number of messages taken in, and
    /// where identical messages always merge, no two groups share a key.
    pub proof fn lemma_wf_facts(&self)
        requires
            self.wf(),
        ensures
            total_count(self.model()) == self.spec_ingested(),
            identical_messages_merge(self.spec_threshold()) ==> keys_unique(self.model()),
    {
    }

    /// An empty accumulator; with `threshold` similar messages are grouped,
    /// without one only identical messages are.
    pub fn new(threshold: Option<Fraction>) -> (r: SimilarityAccumulator)
        requires
            match threshold {
                Some(t) => t.wf(),
                None => true,
            },
        ensures
            r.wf(),
            r.model() == Seq::<GroupModel>::empty(),
            r.spec_threshold() == threshold,
            r.spec_ingested() == 0,
    {
        let r = SimilarityAccumulator { groups: Vec::new(), threshold, ingested: 0 };
        assert(r.model() =~= Seq::<GroupModel>::empty());
        assert(total_count(r.model()) == 0);
        r
    }

    /// How many messages have been taken in.
    pub fn ingested(&self) -> (r: u64)
        ensures
            r == self.spec_ingested(),
    {
        self.ingested
    }

    /// The groups in the order they were opened.
    pub fn groups(&self) -> (r: &Vec<MessageGroup>)
        ensures
            r@.len() == self.model().len(),
            forall|i: int| 0 <= i < r@.len() ==> #[trigger] r@[i].model() == self.model()[i],
    {
        &self.groups
    }

    /// Takes in one normalized message.
    pub fn ingest(&mut self, msg: String)
        requires
            old(self).wf(),
            old(self).spec_ingested() < u64::MAX,
        ensures
            final(self).wf(),
            final(self).model() == ingest_model(old(self).model(), old(self).spec_threshold(), msg@),
            final(self).spec_threshold() == old(self).spec_threshold(),
            final(self).spec_ingested() == old(self).spec_ingested() + 1,
    {
        let ghost groups0 = self.model();
        let n = self.groups.len();
        let mut found: Option<usize> = None;
        match self.threshold {
            Some(t) => {
                let mut scores: Vec<Fraction> = Vec::new();
                let mut i: usize = 0;
                while i < n
                    invariant
                        n == self.groups@.len(),
                        groups0 == self.model(),
                        i <= n,
                        scores@ == scores_against(groups0, msg@).subrange(0, i as int),
                    decreases n - i,
                {
                    let s = similarity(self.groups[i].key.as_str(), msg.as_str());
                    scores.push(s);
                    i += 1;
                    proof {
                        assert(scores@ =~= scores_against(groups0, msg@).subrange(0, i as int));
                    }
                }
                assert(scores@ =~= scores_against(groups0, msg@));
                found = choose_group(&scores, t);
                proof {
                    if let Some(j) = found {
                        lemma_best_index_bound(scores@, t, n as int);
                    }
                }
            },
            None => {
                let mut i: usize = 0;
                while i < n && found.is_none()
                    invariant
                        n == self.groups@.len(),
                        groups0 == self.model(),
                        i <= n,
                        match found {
                            None => exact_match(groups0, msg@, i as int) is None,
                            Some(b) => b < n && exact_match(groups0, msg@, n as int) == Some(b as int),
                        },
                    decreases n - i,
                {
                    if self.groups[i].key == msg {
                        found = Some(i);
                        proof { lemma_exact_match_stays(groups0, msg@, i as int + 1, n as int); }
                    }
                    i += 1;
                }
            },
        }
        self.ingested = self.ingested + 1;
        match found {
            Some(j) => {
                let key = self.groups[j].key.clone();
                let sim = match self.threshold {
                    Some(_) => similarity(key.as_str(), msg.as_str()),
                    None => self.groups[j].similarity,
                };
                let count = self.groups[j].count + 1;
                self.groups.set(j, MessageGroup { key, count, similarity: sim });
            },
            None => {
                self.groups.push(MessageGroup { key: msg, count: 1, similarity: Fraction { num: 1, den: 1 } });
            },
        }
        assert(self.model() =~= ingest_model(groups0, self.threshold, msg@));
        proof {
            let g1 = self.model();
            match found {
                Some(j) => {
                    lemma_total_update(groups0, j as int, g1[j as int]);
                    assert(g1 =~= groups0.update(j as int, g1[j as int]));
                    if identical_messages_merge(self.threshold) {
                        assert forall|a: int, b: int| 0 <= a < b < g1.len() implies #[trigger] g1[a].key != #[trigger] g1[b].key by {
                            assert(groups0[a].key != groups0[b].key);
                        }
                    }
                },
                None => {
                    assert(g1.drop_last() =~= groups0);
                    if identical_messages_merge(self.threshold) {
                        assert forall|a: int| 0 <= a < groups0.len() implies #[trigger] groups0[a].key != msg@ by {
                            match self.threshold {
                                Some(t) => {
                                    let sc = scores_against(groups0, msg@);
                                    lemma_no_best_index(sc, t, n as int, a);
                                    assert(sc[a] == score_of(groups0[a].key, msg@));
                                    if groups0[a].key == msg@ {
                                        assert((1 as int) * (t.den as int) > (t.num as int) * (1 as int));
                                    }
                                },
                                None => lemma_no_exact_match(groups0, msg@, n as int, a),
                            }
                        }
                        assert forall|a: int, b: int| 0 <= a < b < g1.len() implies #[trigger] g1[a].key != #[trigger] g1[b].key by {
                            if b < groups0.len() {
                                assert(groups0[a].key != groups0[b].key);
                            } else {
                                assert(groups0[a].key != msg@);
                            }
                        }
                    }
                },
            }
        }
    }
}

/// A position that the scan settles on lies among the scores it looked at.
pub(crate) proof fn lemma_best_index_bound(scores: Seq<Fraction>, t: Fraction, n: int)
    ensures
        best_index(scores, t, n) matches Some(j) ==> 0 <= j < n,
    decreases n,
{
    if n > 0 {
        lemma_best_index_bound(scores, t, n - 1);
    }
}

/// Replacing one group changes the total by the difference of the counts.
proof fn lemma_total_update(groups: Seq<GroupModel>, j: int, g: GroupModel)
    requires
        0 <= j < groups.len(),
    ensures
        total_count(groups.update(j, g)) == total_count(groups) - groups[j].count + g.count,
    decreases groups.len(),
{
    let u = groups.update(j, g);
    if j == groups.len() - 1 {
        assert(u.drop_last() =~= groups.drop_last());
    } else {
        lemma_total_update(groups.drop_last(), j, g);
        assert(u.drop_last() =~= groups.drop_last().update(j, g));
    }
}

/// When a scan settles on nothing, no score it looked at exceeds the
/// threshold.
proof fn lemma_no_best_index(scores: Seq<Fraction>, t: Fraction, n: int, a: int)
    requires
        0 <= a < n,
        best_index(scores, t, n) is None,
    ensures
        !frac_gt(scores[a], t),
    decreases n,
{
    if a < n - 1 {
        lemma_no_best_index(scores, t, n - 1, a);
    }
}

/// When no exact match is found, no key equals the message.
proof fn lemma_no_exact_match(groups: Seq<GroupModel>, msg: Seq<char>, n: int, a: int)
    requires
        0 <= a < n,
        exact_match(groups, msg, n) is None,
    ensures
        groups[a].key != msg,
    decreases n,
{
    if a < n - 1 {
        lemma_no_exact_match(groups, msg, n - 1, a);
    }
}

/// Once the first exact match lies among the first `i` groups, it stays the
/// first over any longer prefix.
proof fn lemma_exact_match_stays(groups: Seq<GroupModel>, msg: Seq<char>, i: int, n: int)
    requires
        0 <= i <= n,
        exact_match(groups, msg, i) is Some,
    ensures
        exact_match(groups, msg, n) == exact_match(groups, msg, i),
    decreases n - i,
{
    if i < n {
        lemma_exact_match_stays(groups, msg, i, n - 1);
    }
}

} // verus!

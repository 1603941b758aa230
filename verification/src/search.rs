//! Fuzzy matcher / ranker over the registry: the command palette's
//! query-to-ranked-list mapping.
//!
//! A query matches a candidate name when its characters appear in the name
//! as an in-order, not necessarily contiguous subsequence; the score
//! rewards runs of consecutive matches and high coverage of the name and
//! penalises gaps. Scoring is done by the `sublime_fuzzy` crate with this
//! launcher's weights; ranking is by descending score, ties broken by the
//! candidates' registry order. An empty query returns every candidate in
//! registry order; a query that matches nothing returns the empty list.

use vstd::prelude::*;
use crate::registry::ScriptRegistry;

verus! {

/// Bonus for each run of consecutively matched characters.
pub const BONUS_CONSECUTIVE: isize = 12;

/// Bonus for a match at a word start (not weighted by this launcher).
pub const BONUS_WORD_START: isize = 0;

/// Bonus proportional to how much of the name the matches cover.
pub const BONUS_COVERAGE: isize = 64;

/// Penalty per character of gap between consecutive matches.
pub const PENALTY_DISTANCE: isize = 4;

/// What the fuzzy search of `sublime_fuzzy` returns for this query, this
/// target and these weights: the best full match's score and matched
/// positions, or nothing when the query is no subsequence of the target.
/// The result depends on the arguments alone.
pub uninterp spec fn fuzzy_outcome(
    query: Seq<u8>,
    target: Seq<u8>,
    bonus_consecutive: int,
    bonus_word_start: int,
    bonus_coverage: int,
    penalty_distance: int,
) -> Option<(int, Seq<int>)>;

/// Relies on `sublime_fuzzy::FuzzySearch` (case-insensitive, with the
/// given `ScoreConfig` weights): the best full match of the query in the
/// target, as score and matched positions; `None` when the query cannot be
/// fully matched, and always `None` for an empty query, an empty target,
/// or text that is not UTF-8.
#[verifier::external_body]
fn fuzzy_best_match(
    query: &Vec<u8>,
    target: &Vec<u8>,
    bonus_consecutive: isize,
    bonus_word_start: isize,
    bonus_coverage: isize,
    penalty_distance: isize,
) -> (r: Option<(isize, Vec<usize>)>)
    ensures
        (r is Some) == (fuzzy_outcome(
            query@,
            target@,
            bonus_consecutive as int,
            bonus_word_start as int,
            bonus_coverage as int,
            penalty_distance as int,
        ) is Some),
        r is Some ==> r->Some_0.0 as int == fuzzy_outcome(
            query@,
            target@,
            bonus_consecutive as int,
            bonus_word_start as int,
            bonus_coverage as int,
            penalty_distance as int,
        )->Some_0.0 && r->Some_0.1@.map_values(|p: usize| p as int) == fuzzy_outcome(
            query@,
            target@,
            bonus_consecutive as int,
            bonus_word_start as int,
            bonus_coverage as int,
            penalty_distance as int,
        )->Some_0.1,
        query@.len() == 0 ==> r is None,
        target@.len() == 0 ==> r is None,
{
    let (q, t) = match (std::str::from_utf8(query), std::str::from_utf8(target)) {
        (Ok(q), Ok(t)) => (q, t),
        _ => return None,
    };
    let config = sublime_fuzzy::ScoreConfig {
        bonus_consecutive, bonus_word_start, bonus_coverage, penalty_distance,
    };
    let mut search = sublime_fuzzy::FuzzySearch::new(q, t, true);
    search.set_score_config(config);
    search.best_match().map(|m| (m.score(), m.matches().clone()))
}

/// The outcome for one registry candidate under this launcher's weights.
pub open spec fn candidate_outcome(query: Seq<u8>, name: Seq<u8>) -> Option<(int, Seq<int>)> {
    fuzzy_outcome(
        query,
        name,
        BONUS_CONSECUTIVE as int,
        BONUS_WORD_START as int,
        BONUS_COVERAGE as int,
        PENALTY_DISTANCE as int,
    )
}

/// One ranked hit: transient, recomputed for every query, never persisted.
pub struct QueryScore {
    /// Registry id of the candidate, valid for the current generation.
    pub id: usize,
    pub score: isize,
    /// Positions of the matched characters within the candidate name.
    pub positions: Vec<usize>,
}

/// `e` reports exactly what the scorer says about its candidate.
pub open spec fn entry_valid(e: QueryScore, query: Seq<u8>, reg: ScriptRegistry) -> bool {
    &&& e.id < reg.scripts@.len()
    &&& candidate_outcome(query, reg.scripts@[e.id as int].metadata@.name) is Some
    &&& e.score as int == candidate_outcome(
        query,
        reg.scripts@[e.id as int].metadata@.name,
    )->Some_0.0
    &&& e.positions@.map_values(|p: usize| p as int) == candidate_outcome(
        query,
        reg.scripts@[e.id as int].metadata@.name,
    )->Some_0.1
}

/// `a` ranks strictly before `b`: higher score, or equal score and earlier
/// registry order.
pub open spec fn ranks_before(a: QueryScore, b: QueryScore) -> bool {
    a.score > b.score || (a.score == b.score && a.id < b.id)
}

pub open spec fn ranked_order(r: Seq<QueryScore>) -> bool {
    forall|i: int, j: int| 0 <= i < j < r.len() ==> ranks_before(#[trigger] r[i], #[trigger] r[j])
}

pub open spec fn contains_id(r: Seq<QueryScore>, id: int) -> bool {
    exists|i: int| 0 <= i < r.len() && (#[trigger] r[i]).id == id
}

/// The whole contract of a search: for an empty query every candidate in
/// registry order with score 0; otherwise exactly the matching candidates,
/// each with its scorer-reported score and positions, in strictly
/// descending rank.
pub open spec fn ranked_for(r: Seq<QueryScore>, query: Seq<u8>, reg: ScriptRegistry) -> bool {
    if query.len() == 0 {
        &&& r.len() == reg.scripts@.len()
        &&& forall|i: int|
            0 <= i < r.len() ==> (#[trigger] r[i]).id == i && r[i].score == 0 && r[
                i
            ].positions@.len() == 0
    } else {
        &&& forall|i: int| 0 <= i < r.len() ==> entry_valid(#[trigger] r[i], query, reg)
        &&& ranked_order(r)
        &&& forall|id: int|
            0 <= id < reg.scripts@.len() && candidate_outcome(
                query,
                (#[trigger] reg.scripts@[id]).metadata@.name,
            ) is Some ==> contains_id(r, id)
    }
}

fn ranks_before_exec(a: &QueryScore, b: &QueryScore) -> (r: bool)
    ensures
        r == ranks_before(*a, *b),
{
    a.score > b.score || (a.score == b.score && a.id < b.id)
}

fn insert_ranked(v: &mut Vec<QueryScore>, x: QueryScore, Ghost(query): Ghost<Seq<u8>>, Ghost(reg): Ghost<ScriptRegistry>)
    requires
        ranked_order(old(v)@),
        forall|k: int| 0 <= k < old(v)@.len() ==> entry_valid(#[trigger] old(v)@[k], query, reg),
        forall|k: int| 0 <= k < old(v)@.len() ==> (#[trigger] old(v)@[k]).id != x.id,
        entry_valid(x, query, reg),
    ensures
        ranked_order(final(v)@),
        forall|k: int| 0 <= k < final(v)@.len() ==> entry_valid(#[trigger] final(v)@[k], query, reg),
        final(v)@.len() == old(v)@.len() + 1,
        forall|id: int| contains_id(final(v)@, id) <==> (contains_id(old(v)@, id) || id == x.id),
{
    let ghost s0 = v@;
    let mut pos: usize = 0;
    while pos < v.len() && ranks_before_exec(&v[pos], &x)
        invariant
            pos <= v@.len(),
            v@ == s0,
            forall|k: int| 0 <= k < pos ==> ranks_before(#[trigger] v@[k], x),
        decreases v@.len() - pos,
    {
        pos = pos + 1;
    }
    proof {
        s0.insert_ensures(pos as int, x);
        assert(forall|k: int| pos <= k < s0.len() ==> ranks_before(x, #[trigger] s0[k]));
    }
    v.insert(pos, x);
    proof {
        let s1 = v@;
        assert forall|i: int, j: int| 0 <= i < j < s1.len() implies ranks_before(
            #[trigger] s1[i],
            #[trigger] s1[j],
        ) by {
            if i < pos && j == pos {
            } else if i == pos && j > pos {
            }
        }
        assert forall|id: int| contains_id(s1, id) <==> (contains_id(s0, id) || id == x.id) by {
            if contains_id(s1, id) {
                let i = choose|i: int| 0 <= i < s1.len() && (#[trigger] s1[i]).id == id;
                if i < pos {
                    assert(s0[i].id == id);
                } else if i == pos {
                } else {
                    assert(s0[i - 1].id == id);
                }
            }
            if contains_id(s0, id) {
                let i = choose|i: int| 0 <= i < s0.len() && (#[trigger] s0[i]).id == id;
                if i < pos {
                    assert(s1[i].id == id);
                } else {
                    assert(s1[i + 1].id == id);
                }
            }
            if id == x.id {
                assert(s1[pos as int].id == id);
            }
        }
    }
}

/// Scores every registry candidate against `query` and returns the hits,
/// best first; see [`ranked_for`] for the exact promise.
pub fn search(query: &Vec<u8>, registry: &ScriptRegistry) -> (r: Vec<QueryScore>)
    ensures
        ranked_for(r@, query@, *registry),
{
    let n = registry.scripts.len();
    if query.len() == 0 {
        let mut all: Vec<QueryScore> = Vec::new();
        let mut i: usize = 0;
        while i < n
            invariant
                n == registry.scripts@.len(),
                all@.len() == i <= n,
                forall|k: int|
                    0 <= k < i ==> (#[trigger] all@[k]).id == k && all@[k].score == 0 && all@[
                        k
                    ].positions@.len() == 0,
            decreases n - i,
        {
            all.push(QueryScore { id: i, score: 0, positions: Vec::new() });
            i = i + 1;
        }
        return all;
    }
    let mut cand: Vec<QueryScore> = Vec::new();
    let mut i: usize = 0;
    while i < n
        invariant
            n == registry.scripts@.len(),
            query@.len() > 0,
            i <= n,
            forall|k: int| 0 <= k < cand@.len() ==> entry_valid(#[trigger] cand@[k], query@, *registry),
            forall|a: int, b: int|
                0 <= a < b < cand@.len() ==> (#[trigger] cand@[a]).id < (#[trigger] cand@[b]).id,
            forall|k: int| 0 <= k < cand@.len() ==> (#[trigger] cand@[k]).id < i,
            forall|id: int|
                0 <= id < i && candidate_outcome(
                    query@,
                    (#[trigger] registry.scripts@[id]).metadata@.name,
                ) is Some ==> contains_id(cand@, id),
        decreases n - i,
    {
        let ghost c0 = cand@;
        match fuzzy_best_match(
            query,
            &registry.scripts[i].metadata.name,
            BONUS_CONSECUTIVE,
            BONUS_WORD_START,
            BONUS_COVERAGE,
            PENALTY_DISTANCE,
        ) {
            Some((sc, pos)) => {
                cand.push(QueryScore { id: i, score: sc, positions: pos });
                proof {
                    assert(forall|k: int| 0 <= k < c0.len() ==> cand@[k] == c0[k]);
                    assert(forall|id: int|
                        contains_id(c0, id) ==> contains_id(cand@, id)) by {
                        assert forall|id: int| contains_id(c0, id) implies contains_id(
                            cand@,
                            id,
                        ) by {
                            let k = choose|k: int| 0 <= k < c0.len() && (#[trigger] c0[k]).id == id;
                            assert(cand@[k].id == id);
                        }
                    }
                    assert(cand@[cand@.len() - 1].id == i);
                }
            },
            None => {},
        }
        i = i + 1;
    }
    let ghost cand0 = cand@;
    let mut out: Vec<QueryScore> = Vec::new();
    while cand.len() > 0
        invariant
            query@.len() > 0,
            ranked_order(out@),
            forall|k: int| 0 <= k < out@.len() ==> entry_valid(#[trigger] out@[k], query@, *registry),
            forall|k: int| 0 <= k < cand@.len() ==> entry_valid(#[trigger] cand@[k], query@, *registry),
            forall|a: int, b: int|
                0 <= a < b < cand@.len() ==> (#[trigger] cand@[a]).id < (#[trigger] cand@[b]).id,
            forall|a: int, b: int|
                0 <= a < out@.len() && 0 <= b < cand@.len() ==> (#[trigger] out@[a]).id != (
                #[trigger] cand@[b]).id,
            forall|id: int|
                contains_id(cand0, id) <==> (contains_id(out@, id) || contains_id(cand@, id)),
        decreases cand@.len(),
    {
        let ghost r0 = cand@;
        let ghost o0 = out@;
        let x = cand.remove(0);
        proof {
            assert(cand@ =~= r0.drop_first());
            assert(x == r0[0]);
            assert(forall|k: int| 0 <= k < cand@.len() ==> cand@[k] == r0[k + 1]);
            assert forall|id: int| contains_id(r0, id) implies (id == x.id || contains_id(
                cand@,
                id,
            )) by {
                let k = choose|k: int| 0 <= k < r0.len() && (#[trigger] r0[k]).id == id;
                if k > 0 {
                    assert(cand@[k - 1].id == id);
                }
            }
            assert forall|id: int| contains_id(cand@, id) implies contains_id(r0, id) by {
                let k = choose|k: int| 0 <= k < cand@.len() && (#[trigger] cand@[k]).id == id;
                assert(r0[k + 1].id == id);
            }
        }
        insert_ranked(&mut out, x, Ghost(query@), Ghost(*registry));
        proof {
            assert forall|a: int, b: int|
                0 <= a < out@.len() && 0 <= b < cand@.len() implies (#[trigger] out@[a]).id != (
            #[trigger] cand@[b]).id by {
                let id = out@[a].id as int;
                assert(contains_id(out@, id));
                assert(cand@[b] == r0[b + 1]);
                if contains_id(o0, id) {
                    let k = choose|k: int| 0 <= k < o0.len() && (#[trigger] o0[k]).id == id;
                    assert(o0[k].id != r0[b + 1].id);
                } else {
                    assert(id == x.id);
                    assert(r0[0].id < r0[b + 1].id);
                }
            }
        }
    }
    proof {
        assert forall|id: int|
            0 <= id < registry.scripts@.len() && candidate_outcome(
                query@,
                (#[trigger] registry.scripts@[id]).metadata@.name,
            ) is Some implies contains_id(out@, id) by {
            assert(contains_id(cand0, id));
        }
    }
    out
}


/// Law: a ranked list lists each candidate at most once. Two hits with the
/// same id would report the same candidate's score twice, and the strict
/// rank order leaves no room for that.
pub proof fn lemma_ranked_ids_unique(r: Seq<QueryScore>, query: Seq<u8>, reg: ScriptRegistry)
    requires
        query.len() > 0,
        ranked_for(r, query, reg),
    ensures
        forall|i: int, j: int| 0 <= i < j < r.len() ==> (#[trigger] r[i]).id != (#[trigger] r[j]).id,
{
    assert forall|i: int, j: int| 0 <= i < j < r.len() implies (#[trigger] r[i]).id != (
    #[trigger] r[j]).id by {
        if r[i].id == r[j].id {
            assert(entry_valid(r[i], query, reg) && entry_valid(r[j], query, reg));
            assert(r[i].score == r[j].score);
            assert(ranks_before(r[i], r[j]));
        }
    }
}

} // verus!

//! Candidate aggregation for one work and assembly of the final records:
//! canonicalizing the search-term set, deduplicating retrieved candidates by
//! catalog identifier, and joining accepted matches back onto the works.

use crate::dates::{Date, date_index, date_shifted_by, format_date, parse_date_cjk, parse_date_iso,
    spec_date_from_parts, spec_format_date, spec_parse_ymd};
use crate::matcher::CandidateWork;
use crate::models::{AnimeWork, BangumiInfoboxItem, BangumiSubject, InfoEntry, InfoValue};
use crate::text::{lemma_lex_connex, lemma_lex_irrefl, lemma_lex_trans, lex_lt, str_eq, str_lex_lt,
    strictly_sorted_strings};
use vstd::prelude::*;
use vstd::string::StringExecFns;

verus! {

/// Whether some candidate in the list already carries this identifier.
pub open spec fn spec_has_id(s: Seq<CandidateWork>, id: u32) -> bool {
    exists|i: int| 0 <= i < s.len() && s[i].bangumi_id == id
}

pub fn contains_id(s: &Vec<CandidateWork>, id: u32) -> (r: bool)
    ensures
        r == spec_has_id(s@, id),
{
    let mut i: usize = 0;
    while i < s.len()
        invariant
            i <= s@.len(),
            forall|j: int| 0 <= j < i ==> s@[j].bangumi_id != id,
        decreases s@.len() - i,
    {
        if s[i].bangumi_id == id {
            return true;
        }
        i = i + 1;
    }
    false
}

/// The accumulator after one retrieval's candidates are folded in: each new
/// candidate is appended only if its identifier was not seen yet, so the
/// first occurrence of an identifier is the one that is kept.
pub open spec fn spec_merge(acc: Seq<CandidateWork>, incoming: Seq<CandidateWork>) -> Seq<
    CandidateWork,
>
    decreases incoming.len(),
{
    if incoming.len() == 0 {
        acc
    } else {
        let acc2 = if spec_has_id(acc, incoming[0].bangumi_id) {
            acc
        } else {
            acc.push(incoming[0])
        };
        spec_merge(acc2, incoming.drop_first())
    }
}

/// Folds one retrieval's candidates into the accumulated list, keeping the
/// first occurrence of every catalog identifier and dropping later ones.
pub fn merge_candidates(acc: &mut Vec<CandidateWork>, incoming: Vec<CandidateWork>)
    ensures
        final(acc)@ == spec_merge(old(acc)@, incoming@),
{
    let mut rest = incoming;
    while rest.len() > 0
        invariant
            spec_merge(old(acc)@, incoming@) == spec_merge(acc@, rest@),
        decreases rest@.len(),
    {
        let ghost pre = rest@;
        let c = rest.remove(0);
        proof {
            assert(pre[0] == c);
            assert(pre.drop_first() =~= rest@);
        }
        if !contains_id(acc, c.bangumi_id) {
            acc.push(c);
        }
    }
    proof {
        assert(rest@.len() == 0);
    }
}

/// Nothing new, nothing changed: folding in candidates whose identifiers are
/// all already present leaves the accumulator exactly as it was.
pub proof fn lemma_merge_no_new(acc: Seq<CandidateWork>, incoming: Seq<CandidateWork>)
    requires
        forall|j: int| 0 <= j < incoming.len() ==> spec_has_id(acc, incoming[j].bangumi_id),
    ensures
        spec_merge(acc, incoming) == acc,
    decreases incoming.len(),
{
    if incoming.len() > 0 {
        assert(spec_has_id(acc, incoming[0].bangumi_id));
        assert forall|j: int| 0 <= j < incoming.drop_first().len() implies spec_has_id(
            acc,
            incoming.drop_first()[j].bangumi_id,
        ) by {
            assert(incoming.drop_first()[j] == incoming[j + 1]);
        }
        lemma_merge_no_new(acc, incoming.drop_first());
    }
}

/// Merging only grows the accumulator, and every identifier that went in —
/// already accumulated or newly arrived — is present afterwards.
pub proof fn lemma_merge_keeps_ids(acc: Seq<CandidateWork>, incoming: Seq<CandidateWork>)
    ensures
        forall|id: u32|
            spec_has_id(acc, id) || spec_has_id(incoming, id) <==> #[trigger] spec_has_id(
                spec_merge(acc, incoming),
                id,
            ),
    decreases incoming.len(),
{
    if incoming.len() > 0 {
        let c = incoming[0];
        let acc2 = if spec_has_id(acc, c.bangumi_id) {
            acc
        } else {
            acc.push(c)
        };
        lemma_merge_keeps_ids(acc2, incoming.drop_first());
        assert forall|id: u32|
            spec_has_id(acc, id) || spec_has_id(incoming, id) <==> #[trigger] spec_has_id(
                spec_merge(acc, incoming),
                id,
            ) by {
            assert(spec_merge(acc, incoming) == spec_merge(acc2, incoming.drop_first()));
            assert(spec_has_id(acc2, id) || spec_has_id(incoming.drop_first(), id)
                <==> spec_has_id(spec_merge(acc2, incoming.drop_first()), id));
            if spec_has_id(incoming, id) {
                let j = choose|j: int| 0 <= j < incoming.len() && incoming[j].bangumi_id == id;
                if j == 0 {
                    assert(spec_has_id(acc2, id)) by {
                        if !spec_has_id(acc, c.bangumi_id) {
                            assert(acc2[acc2.len() - 1].bangumi_id == id);
                        }
                    }
                } else {
                    assert(incoming.drop_first()[j - 1].bangumi_id == id);
                    assert(spec_has_id(incoming.drop_first(), id));
                }
            }
            if spec_has_id(acc, id) {
                let j = choose|j: int| 0 <= j < acc.len() && acc[j].bangumi_id == id;
                assert(acc2[j].bangumi_id == id);
                assert(spec_has_id(acc2, id));
            }
            if spec_has_id(spec_merge(acc, incoming), id) {
                if spec_has_id(acc2, id) && !spec_has_id(acc, id) {
                    let j = choose|j: int| 0 <= j < acc2.len() && acc2[j].bangumi_id == id;
                    assert(j == acc.len());
                    assert(incoming[0].bangumi_id == id);
                }
                if spec_has_id(incoming.drop_first(), id) {
                    let j = choose|j: int|
                        0 <= j < incoming.drop_first().len() && incoming.drop_first()[j].bangumi_id
                            == id;
                    assert(incoming[j + 1].bangumi_id == id);
                }
            }
        }
    }
}

/// Law: deduplication by identifier is idempotent.  Folding the same
/// retrieval in a second time changes nothing: every identifier it carries
/// is already accumulated, so the candidate set from duplicated search terms
/// equals the set from the deduplicated terms.
pub proof fn lemma_merge_idempotent(acc: Seq<CandidateWork>, incoming: Seq<CandidateWork>)
    ensures
        spec_merge(spec_merge(acc, incoming), incoming) == spec_merge(acc, incoming),
{
    lemma_merge_keeps_ids(acc, incoming);
    assert forall|j: int| 0 <= j < incoming.len() implies spec_has_id(
        spec_merge(acc, incoming),
        incoming[j].bangumi_id,
    ) by {
        assert(spec_has_id(incoming, incoming[j].bangumi_id));
    }
    lemma_merge_no_new(spec_merge(acc, incoming), incoming);
}

/// Inserts one term into a strictly ascending term list: into its ordered
/// place if its text is new, nowhere if it is already present.
pub fn insert_term(terms: &mut Vec<String>, term: String)
    requires
        strictly_sorted_strings(old(terms).deep_view()),
    ensures
        strictly_sorted_strings(final(terms).deep_view()),
        final(terms).deep_view().to_set() == old(terms).deep_view().to_set().insert(term@),
{
    let mut i: usize = 0;
    while i < terms.len() && str_lex_lt(terms[i].as_str(), term.as_str())
        invariant
            i <= terms@.len(),
            *terms == *old(terms),
            forall|j: int| 0 <= j < i ==> lex_lt(terms.deep_view()[j], term@),
        decreases terms@.len() - i,
    {
        proof {
            assert(terms.deep_view()[i as int] == terms@[i as int]@);
        }
        i = i + 1;
    }
    let ghost d = terms.deep_view();
    if i < terms.len() && str_eq(terms[i].as_str(), term.as_str()) {
        proof {
            assert(d[i as int] == term@);
            assert(d.contains(term@));
            assert(d.to_set() =~= d.to_set().insert(term@));
        }
    } else {
        proof {
            if i < d.len() {
                assert(d[i as int] == terms@[i as int]@);
                assert(!lex_lt(d[i as int], term@));
                assert(d[i as int] != term@);
                if !lex_lt(term@, d[i as int]) {
                    lemma_lex_connex(d[i as int], term@);
                }
                assert(lex_lt(term@, d[i as int]));
            }
        }
        terms.insert(i, term);
        proof {
            assert(terms@ == old(terms)@.insert(i as int, term));
            let nd = terms.deep_view();
            assert forall|k: int| 0 <= k < nd.len() implies nd[k] == d.insert(i as int, term@)[k]
                by {
                assert(nd[k] == terms@[k]@);
                if k < i {
                    assert(terms@[k] == old(terms)@[k]);
                } else if k == i {
                    assert(terms@[k] == term);
                } else {
                    assert(terms@[k] == old(terms)@[k - 1]);
                }
            }
            assert(nd =~= d.insert(i as int, term@));
            // Order: everything before slot `i` lies below the new term,
            // everything after lies above it, transitively.
            assert forall|p: int, q: int| 0 <= p < q < nd.len() implies lex_lt(nd[p], nd[q]) by {
                if p < i && q == i {
                } else if p == i && q > i {
                    assert(nd[q] == d[q - 1]);
                    if q - 1 > i {
                        assert(lex_lt(d[i as int], d[q - 1]));
                        lemma_lex_trans(term@, d[i as int], d[q - 1]);
                    }
                } else if p < i && q > i {
                    assert(nd[p] == d[p] && nd[q] == d[q - 1]);
                    if q - 1 == i {
                        lemma_lex_trans(d[p], term@, d[i as int]);
                    } else {
                        assert(lex_lt(d[p], d[q - 1]));
                    }
                } else if p < i && q < i {
                    assert(nd[p] == d[p] && nd[q] == d[q]);
                } else {
                    assert(p > i || (p == i && q <= i) || (p < i && q <= i && q >= i));
                    if p > i {
                        assert(nd[p] == d[p - 1] && nd[q] == d[q - 1]);
                    }
                }
            }
            // Membership: the new list holds exactly the old terms plus this one.
            assert forall|x: Seq<char>| nd.to_set().contains(x) implies d.to_set().insert(
                term@,
            ).contains(x) by {
                let k = choose|k: int| 0 <= k < nd.len() && nd[k] == x;
                if k < i {
                    assert(d[k] == x);
                } else if k > i {
                    assert(d[k - 1] == x);
                }
            }
            assert forall|x: Seq<char>| d.to_set().insert(term@).contains(x) implies nd.to_set().contains(
                x,
            ) by {
                if x == term@ {
                    assert(nd[i as int] == x);
                } else {
                    let k = choose|k: int| 0 <= k < d.len() && d[k] == x;
                    if k < i {
                        assert(nd[k] == x);
                    } else {
                        assert(nd[k + 1] == x);
                    }
                }
            }
            assert(nd.to_set() =~= d.to_set().insert(term@));
        }
    }
}

/// The search-term set for one work — its cleaned title and every keyword —
/// canonicalized: duplicates dropped and the terms in ascending order, so
/// that equal term sets always query the catalog identically.
pub fn build_search_terms(work: &AnimeWork) -> (r: Vec<String>)
    ensures
        strictly_sorted_strings(r.deep_view()),
        r.deep_view().to_set() == work.keywords.deep_view().to_set().insert(
            work.cleaned_title@,
        ),
{
    let mut terms: Vec<String> = Vec::new();
    let mut i: usize = 0;
    while i < work.keywords.len()
        invariant
            i <= work.keywords@.len(),
            strictly_sorted_strings(terms.deep_view()),
            terms.deep_view().to_set() == work.keywords.deep_view().take(i as int).to_set(),
        decreases work.keywords@.len() - i,
    {
        let ghost before = terms.deep_view().to_set();
        insert_term(&mut terms, work.keywords[i].clone());
        proof {
            let kd = work.keywords.deep_view();
            assert(kd[i as int] == work.keywords@[i as int]@);
            assert forall|x: Seq<char>| kd.take(i + 1).to_set().contains(x) implies before.insert(
                kd[i as int],
            ).contains(x) by {
                let k = choose|k: int| 0 <= k < kd.take(i + 1).len() && #[trigger] kd.take(i + 1)[k]
                    == x;
                if k < i {
                    assert(kd.take(i as int)[k] == x);
                }
            }
            assert forall|x: Seq<char>| before.insert(kd[i as int]).contains(x) implies kd.take(
                i + 1,
            ).to_set().contains(x) by {
                if x == kd[i as int] {
                    assert(kd.take(i + 1)[i as int] == x);
                } else {
                    let k = choose|k: int| 0 <= k < kd.take(i as int).len() && kd.take(i as int)[k] == x;
                    assert(kd.take(i + 1)[k] == x);
                }
            }
            assert(terms.deep_view().to_set() =~= kd.take(i + 1).to_set());
        }
        i = i + 1;
    }
    insert_term(&mut terms, work.cleaned_title.clone());
    proof {
        assert(work.keywords.deep_view().take(work.keywords@.len() as int)
            =~= work.keywords.deep_view());
    }
    terms
}

/// Files one work's aggregation outcome: a work that found candidates gets
/// a matching task, recorded with its position in the work list; a work
/// whose every query came back empty is not forwarded into the matching
/// stage at all.
pub fn plan_search_task(
    tasks: &mut Vec<(AnimeWork, Vec<CandidateWork>)>,
    work_indices: &mut Vec<usize>,
    work: AnimeWork,
    index: usize,
    candidates: Vec<CandidateWork>,
)
    ensures
        candidates@.len() == 0 ==> final(tasks)@ == old(tasks)@ && final(work_indices)@
            == old(work_indices)@,
        candidates@.len() > 0 ==> final(tasks)@.len() == old(tasks)@.len() + 1
            && final(tasks)@ == old(tasks)@.push(final(tasks)@.last())
            && final(tasks)@.last().0 == work && final(tasks)@.last().1@ == candidates@
            && final(work_indices)@ == old(work_indices)@.push(index),
{
    if candidates.len() > 0 {
        tasks.push((work, candidates));
        work_indices.push(index);
        proof {
            assert(final(tasks)@ =~= old(tasks)@.push(final(tasks)@.last()));
        }
    }
}

/// The position of the first candidate carrying this identifier, if any.
pub open spec fn spec_first_with_id(s: Seq<CandidateWork>, id: u32) -> Option<int>
    decreases s.len(),
{
    if s.len() == 0 {
        None
    } else if s[0].bangumi_id == id {
        Some(0)
    } else {
        match spec_first_with_id(s.drop_first(), id) {
            Some(k) => Some(k + 1),
            None => None,
        }
    }
}

pub proof fn lemma_first_with_id_props(s: Seq<CandidateWork>, id: u32)
    ensures
        match spec_first_with_id(s, id) {
            Some(k) => 0 <= k < s.len() && s[k].bangumi_id == id && forall|j: int|
                0 <= j < k ==> s[j].bangumi_id != id,
            None => forall|j: int| 0 <= j < s.len() ==> s[j].bangumi_id != id,
        },
    decreases s.len(),
{
    if s.len() > 0 && s[0].bangumi_id != id {
        lemma_first_with_id_props(s.drop_first(), id);
        match spec_first_with_id(s.drop_first(), id) {
            Some(k) => {
                assert(s[k + 1] == s.drop_first()[k]);
                assert forall|j: int| 0 <= j < k + 1 implies s[j].bangumi_id != id by {
                    if j > 0 {
                        assert(s.drop_first()[j - 1] == s[j]);
                    }
                }
            },
            None => {
                assert forall|j: int| 0 <= j < s.len() implies s[j].bangumi_id != id by {
                    if j > 0 {
                        assert(s.drop_first()[j - 1] == s[j]);
                    }
                }
            },
        }
    }
}

/// What an accepted lookup result guarantees: the task is real, its result
/// was this identifier, and the named candidate really is the first one of
/// that task carrying it.
pub proof fn lemma_match_for_work_props(
    work_indices: Seq<usize>,
    tasks: Seq<(AnimeWork, Vec<CandidateWork>)>,
    matched: Seq<Option<u32>>,
    idx: int,
    t: int,
)
    requires
        work_indices.len() == tasks.len(),
        work_indices.len() == matched.len(),
        0 <= t,
    ensures
        match spec_match_for_work(work_indices, tasks, matched, idx, t) {
            Some(p) => {
                &&& t <= p.1 < work_indices.len()
                &&& work_indices[p.1] == idx
                &&& matched[p.1] == Some(p.0)
                &&& spec_first_with_id(tasks[p.1].1@, p.0) == Some(p.2)
                &&& 0 <= p.2 < tasks[p.1].1@.len()
                &&& tasks[p.1].1@[p.2].bangumi_id == p.0
            },
            None => true,
        },
    decreases work_indices.len() - t,
{
    if t < work_indices.len() {
        if work_indices[t] == idx && matched[t] is Some && spec_first_with_id(
            tasks[t].1@,
            matched[t]->0,
        ) is Some {
            lemma_first_with_id_props(tasks[t].1@, matched[t]->0);
        } else {
            lemma_match_for_work_props(work_indices, tasks, matched, idx, t + 1);
        }
    }
}

pub fn first_with_id(s: &Vec<CandidateWork>, id: u32) -> (r: Option<usize>)
    ensures
        match r {
            Some(k) => spec_first_with_id(s@, id) == Some(k as int),
            None => spec_first_with_id(s@, id) is None,
        },
{
    proof {
        lemma_first_with_id_props(s@, id);
    }
    let mut i: usize = 0;
    while i < s.len()
        invariant
            i <= s@.len(),
            forall|j: int| 0 <= j < i ==> s@[j].bangumi_id != id,
        decreases s@.len() - i,
    {
        if s[i].bangumi_id == id {
            proof {
                lemma_first_with_id_props(s@, id);
            }
            return Some(i);
        }
        i = i + 1;
    }
    proof {
        lemma_first_with_id_props(s@, id);
    }
    None
}

/// The match the assembler uses for the work at position `idx`, scanning the
/// tasks from `t` on: the first task made for this work whose result was
/// accepted and whose identifier names one of the task's own candidates.
/// Yields the identifier, the task's position and the candidate's position.
pub open spec fn spec_match_for_work(
    work_indices: Seq<usize>,
    tasks: Seq<(AnimeWork, Vec<CandidateWork>)>,
    matched: Seq<Option<u32>>,
    idx: int,
    t: int,
) -> Option<(u32, int, int)>
    decreases work_indices.len() - t,
{
    if t < 0 || t >= work_indices.len() {
        None
    } else if work_indices[t] == idx && matched[t] is Some && spec_first_with_id(
        tasks[t].1@,
        matched[t]->0,
    ) is Some {
        Some((matched[t]->0, t, spec_first_with_id(tasks[t].1@, matched[t]->0)->0))
    } else {
        spec_match_for_work(work_indices, tasks, matched, idx, t + 1)
    }
}

fn lookup_match(
    work_indices: &Vec<usize>,
    tasks: &Vec<(AnimeWork, Vec<CandidateWork>)>,
    matched: &Vec<Option<u32>>,
    idx: usize,
) -> (r: Option<(u32, usize, usize)>)
    requires
        work_indices@.len() == tasks@.len(),
        work_indices@.len() == matched@.len(),
    ensures
        match r {
            Some(p) => spec_match_for_work(work_indices@, tasks@, matched@, idx as int, 0)
                == Some((p.0, p.1 as int, p.2 as int)),
            None => spec_match_for_work(work_indices@, tasks@, matched@, idx as int, 0) is None,
        },
{
    let n = work_indices.len();
    let mut t: usize = 0;
    while t < n
        invariant
            t <= n,
            n == work_indices@.len(),
            n == tasks@.len(),
            n == matched@.len(),
            spec_match_for_work(work_indices@, tasks@, matched@, idx as int, 0)
                == spec_match_for_work(work_indices@, tasks@, matched@, idx as int, t as int),
        decreases n - t,
    {
        if work_indices[t] == idx {
            match matched[t] {
                Some(id) => {
                    match first_with_id(&tasks[t].1, id) {
                        Some(ci) => {
                            return Some((id, t, ci));
                        },
                        None => {},
                    }
                },
                None => {},
            }
        }
        t = t + 1;
    }
    None
}

/// Whether a record repeats its work's own values, field for field.
pub open spec fn record_carries_work(rec: crate::models::BangumiResult, w: AnimeWork) -> bool {
    &&& rec.original_title@ == w.original_title@
    &&& rec.cleaned_title@ == w.cleaned_title@
    &&& rec.air_date == w.air_date
    &&& rec.keywords.deep_view() == w.keywords.deep_view()
}

/// Joins the accepted matches back onto the works.  One record per work, in
/// the works' own order, always: a work whose task got no accepted match —
/// or that never had candidates, so never had a task — gets the explicit
/// no-match record, with no identifier and no aliases.
pub fn assemble_results(
    works: &Vec<AnimeWork>,
    work_indices: &Vec<usize>,
    search_tasks: &Vec<(AnimeWork, Vec<CandidateWork>)>,
    matched_ids: &Vec<Option<u32>>,
) -> (r: Vec<crate::models::BangumiResult>)
    requires
        work_indices@.len() == search_tasks@.len(),
        work_indices@.len() == matched_ids@.len(),
    ensures
        r@.len() == works@.len(),
        forall|i: int| 0 <= i < works@.len() ==> record_carries_work(#[trigger] r@[i], works@[i]),
        forall|i: int|
            0 <= i < works@.len() ==> match spec_match_for_work(
                work_indices@,
                search_tasks@,
                matched_ids@,
                i,
                0,
            ) {
                Some(p) => {
                    let c = search_tasks@[p.1].1@[p.2];
                    &&& (#[trigger] r@[i]).bangumi_id == Some(p.0)
                    &&& r@[i].aliases.deep_view() == c.aliases.deep_view()
                    &&& (if c.chinese_title@.len() > 0 {
                        r@[i].chinese_name matches Some(n) && n@ == c.chinese_title@
                    } else {
                        r@[i].chinese_name is None
                    })
                },
                None => {
                    &&& (#[trigger] r@[i]).bangumi_id is None
                    &&& r@[i].chinese_name is None
                    &&& r@[i].aliases.deep_view() =~= Seq::<Seq<char>>::empty()
                },
            },
{
    let mut r: Vec<crate::models::BangumiResult> = Vec::new();
    let mut i: usize = 0;
    while i < works.len()
        invariant
            i <= works@.len(),
            work_indices@.len() == search_tasks@.len(),
            work_indices@.len() == matched_ids@.len(),
            r@.len() == i,
            forall|k: int| 0 <= k < i ==> record_carries_work(#[trigger] r@[k], works@[k]),
            forall|k: int|
                0 <= k < i ==> match spec_match_for_work(
                    work_indices@,
                    search_tasks@,
                    matched_ids@,
                    k,
                    0,
                ) {
                    Some(p) => {
                        let c = search_tasks@[p.1].1@[p.2];
                        &&& (#[trigger] r@[k]).bangumi_id == Some(p.0)
                        &&& r@[k].aliases.deep_view() == c.aliases.deep_view()
                        &&& (if c.chinese_title@.len() > 0 {
                            r@[k].chinese_name matches Some(n) && n@ == c.chinese_title@
                        } else {
                            r@[k].chinese_name is None
                        })
                    },
                    None => {
                        &&& (#[trigger] r@[k]).bangumi_id is None
                        &&& r@[k].chinese_name is None
                        &&& r@[k].aliases.deep_view() =~= Seq::<Seq<char>>::empty()
                    },
                },
        decreases works@.len() - i,
    {
        let work = &works[i];
        let rec = match lookup_match(work_indices, search_tasks, matched_ids, i) {
            Some((id, t, ci)) => {
                proof {
                    lemma_match_for_work_props(
                        work_indices@,
                        search_tasks@,
                        matched_ids@,
                        i as int,
                        0,
                    );
                }
                let cand = &search_tasks[t].1[ci];
                let chinese_name = if cand.chinese_title.as_str().unicode_len() > 0 {
                    Some(cand.chinese_title.clone())
                } else {
                    None
                };
                crate::models::BangumiResult {
                    original_title: work.original_title.clone(),
                    cleaned_title: work.cleaned_title.clone(),
                    bangumi_id: Some(id),
                    chinese_name,
                    aliases: crate::text::clone_string_vec(&cand.aliases),
                    air_date: work.air_date,
                    keywords: crate::text::clone_string_vec(&work.keywords),
                }
            },
            None => crate::models::BangumiResult {
                original_title: work.original_title.clone(),
                cleaned_title: work.cleaned_title.clone(),
                bangumi_id: None,
                chinese_name: None,
                aliases: Vec::new(),
                air_date: work.air_date,
                keywords: crate::text::clone_string_vec(&work.keywords),
            },
        };
        r.push(rec);
        i = i + 1;
    }
    r
}

/// Keys of the catalog's info block that carry alias or translated names.
pub open spec fn is_alias_key(k: Seq<char>) -> bool {
    k == "别名"@ || k == "中文名"@ || k == "译名"@
}

/// The alias strings one info value contributes: a plain string itself, the
/// string entries of a list (bare or under a value key), nothing else.
pub open spec fn spec_entry_string(e: InfoEntry) -> Seq<Seq<char>> {
    match e {
        InfoEntry::Text(s) => seq![s@],
        InfoEntry::Labeled(s) => seq![s@],
        InfoEntry::Other => Seq::empty(),
    }
}

pub open spec fn spec_entries_strings(es: Seq<InfoEntry>) -> Seq<Seq<char>>
    decreases es.len(),
{
    if es.len() == 0 {
        Seq::empty()
    } else {
        spec_entry_string(es[0]) + spec_entries_strings(es.drop_first())
    }
}

pub open spec fn spec_value_strings(v: InfoValue) -> Seq<Seq<char>> {
    match v {
        InfoValue::Text(s) => seq![s@],
        InfoValue::List(es) => spec_entries_strings(es@),
        InfoValue::Other => Seq::empty(),
    }
}

/// Every alias the info block carries, in the order it appears: the values
/// under alias keys, flattened.
pub open spec fn spec_aliases(items: Seq<BangumiInfoboxItem>) -> Seq<Seq<char>>
    decreases items.len(),
{
    if items.len() == 0 {
        Seq::empty()
    } else {
        (if is_alias_key(items[0].key@) {
            spec_value_strings(items[0].value)
        } else {
            Seq::empty()
        }) + spec_aliases(items.drop_first())
    }
}

fn push_string_clone(out: &mut Vec<String>, s: &String)
    ensures
        final(out).deep_view() == old(out).deep_view().push(s@),
{
    let ghost prev = out@;
    let ghost prev_deep = out.deep_view();
    let c = s.clone();
    out.push(c);
    proof {
        assert forall|k: int| 0 <= k < out.deep_view().len() implies out.deep_view()[k]
            == prev_deep.push(s@)[k] by {
            assert(out.deep_view()[k] == out@[k]@);
            if k < prev.len() {
                assert(out@[k] == prev[k]);
                assert(prev_deep[k] == prev[k]@);
            } else {
                assert(out@[k] == c);
            }
        }
        assert(out.deep_view() =~= prev_deep.push(s@));
    }
}

fn is_alias_key_exec(k: &String) -> (r: bool)
    ensures
        r == is_alias_key(k@),
{
    str_eq(k.as_str(), "别名") || str_eq(k.as_str(), "中文名") || str_eq(k.as_str(), "译名")
}

/// Collects the alias names out of a catalog record's info block, in order:
/// the string values under the alias, Chinese-name and translated-name keys.
pub fn extract_aliases_from_infobox(infobox: &Vec<BangumiInfoboxItem>) -> (r: Vec<String>)
    ensures
        r.deep_view() == spec_aliases(infobox@),
{
    let mut out: Vec<String> = Vec::new();
    let ghost items = infobox@;
    proof {
        assert(items.skip(0) =~= items);
    }
    let mut i: usize = 0;
    while i < infobox.len()
        invariant
            i <= items.len(),
            items == infobox@,
            out.deep_view() + spec_aliases(items.skip(i as int)) =~= spec_aliases(items),
        decreases items.len() - i,
    {
        let ghost rest = items.skip(i as int);
        proof {
            assert(rest[0] == items[i as int]);
            assert(rest.drop_first() =~= items.skip(i + 1));
        }
        let item = &infobox[i];
        if is_alias_key_exec(&item.key) {
            match &item.value {
                InfoValue::Text(s) => {
                    push_string_clone(&mut out, s);
                    proof {
                        assert(out.deep_view() + spec_aliases(items.skip(i + 1)) =~= spec_aliases(
                            items,
                        ));
                    }
                },
                InfoValue::List(es) => {
                    let ghost entries = es@;
                    proof {
                        assert(entries.skip(0) =~= entries);
                    }
                    let mut j: usize = 0;
                    while j < es.len()
                        invariant
                            j <= entries.len(),
                            entries == es@,
                            out.deep_view() + spec_entries_strings(entries.skip(j as int))
                                + spec_aliases(items.skip(i + 1)) =~= spec_aliases(items),
                        decreases entries.len() - j,
                    {
                        let ghost erest = entries.skip(j as int);
                        proof {
                            assert(erest[0] == entries[j as int]);
                            assert(erest.drop_first() =~= entries.skip(j + 1));
                        }
                        match &es[j] {
                            InfoEntry::Text(s) => {
                                push_string_clone(&mut out, s);
                            },
                            InfoEntry::Labeled(s) => {
                                push_string_clone(&mut out, s);
                            },
                            InfoEntry::Other => {},
                        }
                        proof {
                            assert(out.deep_view() + spec_entries_strings(entries.skip(j + 1))
                                + spec_aliases(items.skip(i + 1)) =~= spec_aliases(items));
                        }
                        j = j + 1;
                    }
                    proof {
                        assert(entries.skip(entries.len() as int)
                            =~= Seq::<InfoEntry>::empty());
                        assert(out.deep_view() + spec_aliases(items.skip(i + 1)) =~= spec_aliases(
                            items,
                        ));
                    }
                },
                InfoValue::Other => {
                    proof {
                        assert(out.deep_view() + spec_aliases(items.skip(i + 1)) =~= spec_aliases(
                            items,
                        ));
                    }
                },
            }
        } else {
            proof {
                assert(out.deep_view() + spec_aliases(items.skip(i + 1)) =~= spec_aliases(items));
            }
        }
        i = i + 1;
    }
    proof {
        assert(items.skip(items.len() as int) =~= Seq::<BangumiInfoboxItem>::empty());
        assert(out.deep_view() =~= spec_aliases(items));
    }
    out
}

/// A date read from free text: the `YYYY-MM-DD` form if it fits, else the
/// `YYYY年MM月DD日` form, else nothing.
pub open spec fn spec_date_of_parts_opt(o: Option<(int, int, int)>) -> Option<Date> {
    match o {
        Some(t) => spec_date_from_parts(t.0, t.1, t.2),
        None => None,
    }
}

pub open spec fn spec_date_from_text(s: Seq<char>) -> Option<Date> {
    match spec_date_of_parts_opt(spec_parse_ymd(s, '-', '-', Seq::empty())) {
        Some(d) => Some(d),
        None => spec_date_of_parts_opt(spec_parse_ymd(s, '年', '月', "日"@)),
    }
}

pub fn date_from_text(s: &str) -> (r: Option<Date>)
    ensures
        r == spec_date_from_text(s@),
        r matches Some(d) ==> d.wf(),
{
    match parse_date_iso(s) {
        Some(d) => Some(d),
        None => parse_date_cjk(s),
    }
}

/// Keys of the info block that announce when broadcasting began.
pub open spec fn is_air_date_key(k: Seq<char>) -> bool {
    k == "放送开始"@ || k == "开始"@
}

/// The first broadcast date the info block yields: the first item under an
/// air-date key whose plain-string value reads as a date.
pub open spec fn spec_air_date_from_infobox(items: Seq<BangumiInfoboxItem>) -> Option<Date>
    decreases items.len(),
{
    if items.len() == 0 {
        None
    } else if is_air_date_key(items[0].key@) && (items[0].value matches InfoValue::Text(s)
        && spec_date_from_text(s@) is Some) {
        spec_date_from_text(items[0].value->Text_0@)
    } else {
        spec_air_date_from_infobox(items.drop_first())
    }
}

/// Reads the broadcast date out of a record's info block: the first
/// air-date-keyed plain string that parses in either accepted date form.
pub fn extract_air_date_from_infobox(infobox: &Vec<BangumiInfoboxItem>) -> (r: Option<Date>)
    ensures
        r == spec_air_date_from_infobox(infobox@),
        r matches Some(d) ==> d.wf(),
{
    let ghost items = infobox@;
    proof {
        assert(items.skip(0) =~= items);
    }
    let mut i: usize = 0;
    while i < infobox.len()
        invariant
            i <= items.len(),
            items == infobox@,
            spec_air_date_from_infobox(items.skip(i as int)) == spec_air_date_from_infobox(items),
        decreases items.len() - i,
    {
        let ghost rest = items.skip(i as int);
        proof {
            assert(rest[0] == items[i as int]);
            assert(rest.drop_first() =~= items.skip(i + 1));
        }
        let item = &infobox[i];
        if str_eq(item.key.as_str(), "放送开始") || str_eq(item.key.as_str(), "开始") {
            match &item.value {
                InfoValue::Text(s) => {
                    match date_from_text(s.as_str()) {
                        Some(d) => {
                            return Some(d);
                        },
                        None => {},
                    }
                },
                _ => {},
            }
        }
        i = i + 1;
    }
    proof {
        assert(items.skip(items.len() as int) =~= Seq::<BangumiInfoboxItem>::empty());
    }
    None
}

/// The broadcast date of a whole record: its top-level date field when that
/// parses in either accepted form, else whatever the info block yields.
pub open spec fn spec_air_date_from_subject(su: &BangumiSubject) -> Option<Date> {
    match su.date {
        Some(ds) => match spec_date_from_text(ds@) {
            Some(d) => Some(d),
            None => spec_air_date_from_infobox(su.infobox@),
        },
        None => spec_air_date_from_infobox(su.infobox@),
    }
}

/// Reads a record's broadcast date: the top-level date field first, the
/// info block as the fallback.
pub fn extract_air_date_from_subject(subject: &BangumiSubject) -> (r: Option<Date>)
    ensures
        r == spec_air_date_from_subject(subject),
        r matches Some(d) ==> d.wf(),
{
    match &subject.date {
        Some(ds) => match date_from_text(ds.as_str()) {
            Some(d) => Some(d),
            None => extract_air_date_from_infobox(&subject.infobox),
        },
        None => extract_air_date_from_infobox(&subject.infobox),
    }
}

impl CandidateWork {
    /// A candidate built from one raw catalog record: the identifier and the
    /// two titles carried over, the aliases and the broadcast date read out
    /// of the info block, the date re-rendered in `YYYY-MM-DD` form.
    pub fn from_subject(subject: &BangumiSubject) -> (r: CandidateWork)
        ensures
            r.bangumi_id == subject.id,
            r.japanese_title@ == subject.name@,
            r.chinese_title@ == subject.name_cn@,
            r.aliases.deep_view() == spec_aliases(subject.infobox@),
            match spec_air_date_from_subject(subject) {
                Some(d) => r.air_date matches Some(s) && s@ == spec_format_date(d),
                None => r.air_date is None,
            },
    {
        let air_date = match extract_air_date_from_subject(subject) {
            Some(d) => Some(format_date(&d)),
            None => None,
        };
        CandidateWork {
            bangumi_id: subject.id,
            japanese_title: subject.name.clone(),
            chinese_title: subject.name_cn.clone(),
            aliases: extract_aliases_from_infobox(&subject.infobox),
            air_date,
        }
    }
}

/// The two bounds of the retrieval window around an air date: the calendar
/// days 100 days before and 100 days after it.
pub fn air_date_window(d: &Date) -> (r: (Date, Date))
    requires
        d.wf(),
        1 <= d.year <= 9998,
    ensures
        r.0.wf(),
        r.1.wf(),
        date_index(r.0) == date_index(*d) - 100,
        date_index(r.1) == date_index(*d) + 100,
{
    let lo = date_shifted_by(d, false, 100);
    let hi = date_shifted_by(d, true, 100);
    (lo, hi)
}

/// What a well-formed date filter pair says: an inclusive lower bound at the
/// day 100 days before the air date and an exclusive upper bound at the day
/// 100 days after it, both in wire form.
pub open spec fn spec_filter_ok(d: Date, lo_s: Seq<char>, hi_s: Seq<char>) -> bool {
    exists|lo: Date, hi: Date|
        {
            &&& lo.wf()
            &&& hi.wf()
            &&& date_index(lo) == date_index(d) - 100
            &&& date_index(hi) == date_index(d) + 100
            &&& lo_s == ">="@ + #[trigger] spec_format_date(lo)
            &&& hi_s == "<"@ + #[trigger] spec_format_date(hi)
        }
}

/// The air-date range filter for one query: present exactly when the work
/// has an air date the calendar can window, and then holding the inclusive
/// `>=` bound 100 days before it and the exclusive `<` bound 100 days after.
/// The catalog's reference timezone differs from UTC by whole hours, so a
/// civil date keeps its year, month and day under the conversion and none is
/// applied here.
pub fn build_air_date_filter(air_date: &Option<Date>) -> (r: Option<(String, String)>)
    requires
        air_date matches Some(d) ==> d.wf(),
    ensures
        match air_date {
            Some(d) => {
                if 1 <= d.year <= 9998 {
                    r matches Some(p) && spec_filter_ok(*d, p.0@, p.1@)
                } else {
                    r is None
                }
            },
            None => r is None,
        },
{
    match air_date {
        Some(d) => {
            if 1 <= d.year && d.year <= 9998 {
                let (lo, hi) = air_date_window(d);
                let mut lo_s = String::from_str(">=");
                lo_s.append(format_date(&lo).as_str());
                let mut hi_s = String::from_str("<");
                hi_s.append(format_date(&hi).as_str());
                proof {
                    assert(lo_s@ == ">="@ + spec_format_date(lo));
                    assert(hi_s@ == "<"@ + spec_format_date(hi));
                }
                Some((lo_s, hi_s))
            } else {
                None
            }
        },
        None => None,
    }
}

/// The wire form of one catalog search request: the escaped keyword, the
/// relevance sort, the single category facet, and — when a window applies —
/// the two air-date bounds.
pub open spec fn spec_search_request_body(
    keyword: Seq<char>,
    filter: Option<(Seq<char>, Seq<char>)>,
) -> Seq<char> {
    "{\"keyword\":\""@ + crate::text::spec_json_escape(keyword)
        + "\",\"sort\":\"rank\",\"filter\":{\"type\":[2]"@ + (match filter {
        Some(f) => ",\"air_date\":[\""@ + crate::text::spec_json_escape(f.0) + "\",\""@
            + crate::text::spec_json_escape(f.1) + "\"]"@,
        None => Seq::empty(),
    }) + "}}"@
}

/// Frames one catalog search request body.
pub fn build_search_request_body(keyword: &str, filter: &Option<(String, String)>) -> (r: String)
    ensures
        r@ == spec_search_request_body(
            keyword@,
            match filter {
                Some(f) => Some((f.0@, f.1@)),
                None => None,
            },
        ),
{
    let mut out = String::from_str("{\"keyword\":\"");
    crate::text::push_json_escaped(&mut out, keyword);
    out.append("\",\"sort\":\"rank\",\"filter\":{\"type\":[2]");
    match filter {
        Some(f) => {
            out.append(",\"air_date\":[\"");
            crate::text::push_json_escaped(&mut out, f.0.as_str());
            out.append("\",\"");
            crate::text::push_json_escaped(&mut out, f.1.as_str());
            out.append("\"]");
        },
        None => {},
    }
    out.append("}}");
    proof {
        assert(out@ =~= spec_search_request_body(
            keyword@,
            match filter {
                Some(f) => Some((f.0@, f.1@)),
                None => None,
            },
        ));
    }
    out
}

/// How many records resolved to a catalog identity.
pub open spec fn spec_count_matched(s: Seq<crate::models::BangumiResult>) -> int
    decreases s.len(),
{
    if s.len() == 0 {
        0
    } else {
        (if s[0].bangumi_id is Some {
            1int
        } else {
            0int
        }) + spec_count_matched(s.drop_first())
    }
}

pub fn count_with_bangumi(s: &Vec<crate::models::BangumiResult>) -> (n: usize)
    ensures
        n == spec_count_matched(s@),
{
    proof {
        lemma_count_matched_bound(s@);
    }
    let mut n: usize = 0;
    let mut i: usize = 0;
    while i < s.len()
        invariant
            i <= s@.len(),
            n == spec_count_matched(s@.take(i as int)),
            n <= i,
        decreases s@.len() - i,
    {
        proof {
            assert(s@.take(i + 1).drop_last() =~= s@.take(i as int));
            lemma_count_matched_last(s@.take(i + 1));
        }
        if s[i].bangumi_id.is_some() {
            n = n + 1;
        }
        i = i + 1;
    }
    proof {
        assert(s@.take(s@.len() as int) =~= s@);
    }
    n
}

proof fn lemma_count_matched_bound(s: Seq<crate::models::BangumiResult>)
    ensures
        0 <= spec_count_matched(s) <= s.len(),
    decreases s.len(),
{
    if s.len() > 0 {
        lemma_count_matched_bound(s.drop_first());
    }
}

/// Counting from the front or peeling the last element agree.
proof fn lemma_count_matched_last(s: Seq<crate::models::BangumiResult>)
    requires
        s.len() > 0,
    ensures
        spec_count_matched(s) == spec_count_matched(s.drop_last()) + (if s.last().bangumi_id
            is Some {
            1int
        } else {
            0int
        }),
    decreases s.len(),
{
    if s.len() == 1 {
        assert(s.drop_last().len() == 0);
        assert(s.drop_first().len() == 0);
        assert(spec_count_matched(s.drop_first()) == 0);
        assert(spec_count_matched(s.drop_last()) == 0);
        assert(s.last() == s[0]);
    } else {
        lemma_count_matched_last(s.drop_first());
        assert(s.drop_first().drop_last() =~= s.drop_last().drop_first());
        assert(s.drop_last()[0] == s[0]);
        assert(s.last() == s.drop_first().last());
        assert(spec_count_matched(s) == (if s[0].bangumi_id is Some {
            1int
        } else {
            0int
        }) + spec_count_matched(s.drop_first()));
        assert(spec_count_matched(s.drop_last()) == (if s.drop_last()[0].bangumi_id is Some {
            1int
        } else {
            0int
        }) + spec_count_matched(s.drop_last().drop_first()));
        assert(spec_count_matched(s.drop_last().drop_first()) == spec_count_matched(
            s.drop_first().drop_last(),
        ));
    }
}

} // verus!

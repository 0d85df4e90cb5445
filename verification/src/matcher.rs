//! The semantic-matching core: the candidate and result types of one matching
//! task, the hard confidence threshold, stripping of code fences from the
//! classifier's reply, re-keying reported matches onto their tasks, and the
//! batching of tasks with fail-safe merging of per-batch outcomes.

use crate::models::AnimeWork;
use crate::text::{has_prefix, has_suffix, is_space_char, lemma_trim_end, lemma_trim_start,
    spec_has_prefix, spec_has_suffix, trim_end_spec, trim_spec, trim_start_spec, trim_str};
use vstd::prelude::*;
use vstd::string::StrSliceExecFns;

verus! {

/// One catalog record offered to the classifier as a possible identity.
#[derive(Debug, Clone, PartialEq, Eq)]
pub struct CandidateWork {
    pub bangumi_id: u32,
    pub japanese_title: String,
    pub chinese_title: String,
    pub aliases: Vec<String>,
    pub air_date: Option<String>,
}

/// The classifier's whole reply to one batch.
#[derive(Debug, Clone, PartialEq, Eq)]
pub struct BatchMatchResponse {
    pub matches: Vec<BatchMatchResult>,
}

/// One reported match: which task of the batch it answers, the chosen
/// catalog identifier (or none), and how sure the classifier is.
/// Confidence is held in millionths of 1.0, so 700000 stands for 0.7.
#[derive(Debug, Clone, PartialEq, Eq)]
pub struct BatchMatchResult {
    pub source_index: usize,
    pub matched_bangumi_id: Option<u32>,
    pub confidence: u64,
    pub reasoning: String,
}

/// One confidence unit is a millionth of 1.0.
pub const CONFIDENCE_SCALE: u64 = 1000000;

/// The acceptance cutoff: a match counts only above 0.7, never at it.
pub const MATCH_CONFIDENCE_THRESHOLD: u64 = 700000;

/// The acceptance rule: strictly above the threshold.
pub open spec fn accepts_match(m: BatchMatchResult) -> bool {
    m.confidence > MATCH_CONFIDENCE_THRESHOLD
}

/// What stripping a Markdown code fence leaves: the trimmed reply with a
/// leading ```` ```json ```` or ```` ``` ```` fence and its closing fence
/// removed and the payload trimmed again; an unfenced reply only trimmed.
pub open spec fn spec_strip_fence(s: Seq<char>) -> Seq<char> {
    let t = trim_spec(s);
    if t.len() >= 10 && spec_has_prefix(t, "```json"@) && spec_has_suffix(t, "```"@) {
        trim_spec(t.subrange(7, t.len() - 3))
    } else if t.len() >= 6 && spec_has_prefix(t, "```"@) && spec_has_suffix(t, "```"@) {
        trim_spec(t.subrange(3, t.len() - 3))
    } else {
        t
    }
}

/// Strips a Markdown code fence from a classifier reply, so that a fenced
/// JSON payload decodes exactly like a bare one.
pub fn strip_code_fence(content: &str) -> (r: String)
    ensures
        r@ == spec_strip_fence(content@),
{
    proof {
        reveal_strlit("```json");
        reveal_strlit("```");
    }
    let t = trim_str(content);
    let n = t.as_str().unicode_len();
    if n >= 10 && has_prefix(t.as_str(), "```json") && has_suffix(t.as_str(), "```") {
        let inner = t.as_str().substring_char(7, n - 3);
        trim_str(inner)
    } else if n >= 6 && has_prefix(t.as_str(), "```") && has_suffix(t.as_str(), "```") {
        let inner = t.as_str().substring_char(3, n - 3);
        trim_str(inner)
    } else {
        t
    }
}

/// The result array after the reported matches are folded, in order, onto an
/// accumulator with one slot per task: a report whose index is in range and
/// whose confidence clears the threshold writes its identifier into its
/// slot; every other report changes nothing.
pub open spec fn spec_collect(matches: Seq<BatchMatchResult>, acc: Seq<Option<u32>>) -> Seq<
    Option<u32>,
>
    decreases matches.len(),
{
    if matches.len() == 0 {
        acc
    } else {
        let m = matches[0];
        let acc2 = if m.source_index < acc.len() && accepts_match(m) {
            acc.update(m.source_index as int, m.matched_bangumi_id)
        } else {
            acc
        };
        spec_collect(matches.drop_first(), acc2)
    }
}

/// Re-keys the classifier's reported matches onto a result array with one
/// slot per task of the batch, every slot starting at `None` and written
/// only by an in-range report strictly above the confidence threshold.
pub fn collect_batch_results(response: &BatchMatchResponse, task_count: usize) -> (r: Vec<
    Option<u32>,
>)
    ensures
        r@.len() == task_count,
        r@ == spec_collect(
            response.matches@,
            Seq::new(task_count as nat, |i: int| None::<u32>),
        ),
{
    let mut results: Vec<Option<u32>> = Vec::new();
    let mut i: usize = 0;
    while i < task_count
        invariant
            i <= task_count,
            results@ =~= Seq::new(i as nat, |k: int| None::<u32>),
        decreases task_count - i,
    {
        results.push(None);
        i = i + 1;
    }
    proof {
        assert(results@ =~= Seq::new(task_count as nat, |k: int| None::<u32>));
    }
    let ghost init = results@;
    proof {
        assert(response.matches@.subrange(0, response.matches@.len() as int)
            =~= response.matches@);
    }
    let mut j: usize = 0;
    while j < response.matches.len()
        invariant
            j <= response.matches@.len(),
            results@.len() == task_count,
            spec_collect(response.matches@, init) == spec_collect(
                response.matches@.subrange(j as int, response.matches@.len() as int),
                results@,
            ),
        decreases response.matches@.len() - j,
    {
        let ghost pre = results@;
        let ghost rest = response.matches@.subrange(j as int, response.matches@.len() as int);
        let m = &response.matches[j];
        if m.source_index < results.len() && m.confidence > MATCH_CONFIDENCE_THRESHOLD {
            results[m.source_index] = m.matched_bangumi_id;
        }
        proof {
            assert(rest.drop_first() =~= response.matches@.subrange(
                j + 1,
                response.matches@.len() as int,
            ));
            assert(rest[0] == response.matches@[j as int]);
        }
        j = j + 1;
    }
    proof {
        assert(response.matches@.subrange(
            response.matches@.len() as int,
            response.matches@.len() as int,
        ) =~= Seq::<BatchMatchResult>::empty());
    }
    results
}

/// Law: the confidence cutoff is strict.  A single report for a task is
/// accepted exactly when its confidence lies strictly above the threshold;
/// at the threshold itself the slot stays `None`, just as for an explicit
/// no-match report.
pub proof fn lemma_threshold_boundary(m: BatchMatchResult, task_count: nat)
    requires
        m.source_index < task_count,
    ensures
        accepts_match(m) ==> spec_collect(seq![m], Seq::new(task_count, |i: int| None::<u32>))[
            m.source_index as int] == m.matched_bangumi_id,
        !accepts_match(m) ==> spec_collect(seq![m], Seq::new(task_count, |i: int| None::<u32>))[
            m.source_index as int] is None,
        m.confidence == MATCH_CONFIDENCE_THRESHOLD ==> !accepts_match(m),
        m.confidence > MATCH_CONFIDENCE_THRESHOLD ==> accepts_match(m),
{
    let init = Seq::new(task_count, |i: int| None::<u32>);
    let reports = seq![m];
    assert(reports[0] == m);
    let tail = reports.drop_first();
    assert(tail =~= Seq::<BatchMatchResult>::empty());
    assert(init.len() == task_count);
    if accepts_match(m) {
        let acc2 = init.update(m.source_index as int, m.matched_bangumi_id);
        assert(spec_collect(reports, init) == spec_collect(tail, acc2));
        assert(spec_collect(tail, acc2) == acc2);
    } else {
        assert(spec_collect(reports, init) == spec_collect(tail, init));
        assert(spec_collect(tail, init) == init);
    }
}

/// Law: fence stripping is transparent.  A payload that carries no leading
/// fence and no surrounding whitespace of its own comes back unchanged,
/// whether it arrives bare or wrapped in a ```` ```json ```` fence: the two
/// replies decode from exactly the same characters.
pub proof fn lemma_fence_stripping(payload: Seq<char>)
    requires
        trim_spec(payload) == payload,
        !spec_has_prefix(payload, "```"@),
    ensures
        spec_strip_fence("```json\n"@ + payload + "\n```"@) == payload,
        spec_strip_fence(payload) == payload,
{
    reveal_strlit("```json");
    reveal_strlit("```");
    reveal_strlit("```json\n");
    reveal_strlit("\n```");
    lemma_trim_fixpoint_facts(payload);
    // The bare payload: no fence applies, and trimming changes nothing.
    assert(!spec_has_prefix(payload, "```json"@)) by {
        if spec_has_prefix(payload, "```json"@) {
            assert(payload.subrange(0, 3) =~= "```"@) by {
                assert(payload.subrange(0, 7)[0] == payload[0]);
                assert(payload.subrange(0, 7)[1] == payload[1]);
                assert(payload.subrange(0, 7)[2] == payload[2]);
            }
        }
    }
    assert(spec_strip_fence(payload) == payload);
    // The wrapped payload.
    let w = "```json\n"@ + payload + "\n```"@;
    assert(w.len() == payload.len() + 12);
    assert(w[0] == '`' && w[w.len() - 1] == '`');
    lemma_trim_start(w, 0);
    assert(w.subrange(0, w.len() as int) =~= w);
    lemma_trim_end(w, w.len() as int);
    assert(trim_spec(w) == w);
    assert(w.subrange(0, 7) =~= "```json"@);
    assert(w.subrange(w.len() - 3, w.len() as int) =~= "```"@);
    let inner = w.subrange(7, w.len() - 3);
    assert(inner =~= seq!['\n'] + payload + seq!['\n']);
    if payload.len() == 0 {
        assert(inner =~= seq!['\n', '\n']);
        lemma_trim_start(inner, inner.len() as int);
        assert(inner.subrange(inner.len() as int, inner.len() as int) =~= Seq::<char>::empty());
        assert(trim_spec(inner) =~= payload);
    } else {
        lemma_trim_start(inner, 1);
        let inner2 = inner.subrange(1, inner.len() as int);
        assert(inner2 =~= payload + seq!['\n']);
        lemma_trim_end(inner2, payload.len() as int);
        assert(inner2.subrange(0, payload.len() as int) =~= payload);
    }
}

/// A text that trimming leaves unchanged has no space at either end.
proof fn lemma_trim_fixpoint_facts(s: Seq<char>)
    requires
        trim_spec(s) == s,
    ensures
        s.len() > 0 ==> !is_space_char(s[0]),
        s.len() > 0 ==> !is_space_char(s[s.len() - 1]),
{
    lemma_trim_start_shorter(s);
    lemma_trim_end_shorter(trim_start_spec(s));
    if s.len() > 0 {
        if is_space_char(s[0]) {
            // Then trimming at the front strictly shortens, while the
            // hypothesis keeps the whole length: impossible.
            lemma_trim_start_shorter(s.drop_first());
            assert(trim_start_spec(s) == trim_start_spec(s.drop_first()));
            assert(trim_start_spec(s).len() < s.len());
            assert(trim_spec(s).len() < s.len());
            assert(false);
        }
        assert(trim_start_spec(s) == s);
        if is_space_char(s[s.len() - 1]) {
            lemma_trim_end_shorter(s.drop_last());
            assert(trim_end_spec(s) == trim_end_spec(s.drop_last()));
            assert(trim_spec(s).len() < s.len());
            assert(false);
        }
    }
}

proof fn lemma_trim_start_shorter(s: Seq<char>)
    ensures
        trim_start_spec(s).len() <= s.len(),
    decreases s.len(),
{
    if s.len() > 0 && is_space_char(s[0]) {
        lemma_trim_start_shorter(s.drop_first());
    }
}

proof fn lemma_trim_end_shorter(s: Seq<char>)
    ensures
        trim_end_spec(s).len() <= s.len(),
    decreases s.len(),
{
    if s.len() > 0 && is_space_char(s[s.len() - 1]) {
        lemma_trim_end_shorter(s.drop_last());
    }
}

/// How many chunks a task list of `total` entries makes at `size` per chunk.
pub open spec fn spec_chunk_count(total: int, size: int) -> int {
    (total + size - 1) / size
}

/// Splits `0..total` into contiguous index ranges of at most `batch_size`,
/// in order, the last possibly shorter: the batching plan for a task list.
pub fn batch_bounds(total: usize, batch_size: usize) -> (r: Vec<(usize, usize)>)
    requires
        batch_size >= 1,
    ensures
        r@.len() == spec_chunk_count(total as int, batch_size as int),
        forall|k: int|
            0 <= k < r@.len() ==> (#[trigger] r@[k]).0 == k * batch_size && r@[k].1 == (if (k + 1)
                * batch_size <= total {
                (k + 1) * batch_size
            } else {
                total as int
            }),
{
    let mut r: Vec<(usize, usize)> = Vec::new();
    let mut start: usize = 0;
    proof {
        assert(0 * batch_size == 0) by (nonlinear_arith);
    }
    while start < total
        invariant
            batch_size >= 1,
            start <= total,
            start == r@.len() * batch_size || (start == total && r@.len() * batch_size >= total),
            total > 0 ==> r@.len() * batch_size < total + batch_size,
            total == 0 ==> r@.len() == 0,
            forall|k: int|
                0 <= k < r@.len() ==> (#[trigger] r@[k]).0 == k * batch_size && r@[k].1 == (if (k
                    + 1) * batch_size <= total {
                    (k + 1) * batch_size
                } else {
                    total as int
                }),
        decreases total - start,
    {
        let end = if total - start > batch_size {
            start + batch_size
        } else {
            total
        };
        let ghost k = r@.len() as int;
        r.push((start, end));
        proof {
            assert((k + 1) * batch_size == k * batch_size + batch_size) by (nonlinear_arith);
        }
        start = end;
    }
    proof {
        let n = r@.len() as int;
        let size = batch_size as int;
        if total == 0 {
            assert(n == 0);
            assert(spec_chunk_count(0, size) == 0) by (nonlinear_arith)
                requires
                    size >= 1,
            ;
        } else {
            assert(n * size >= total);
            assert((n - 1) * size == n * size - size) by (nonlinear_arith);
            assert(n * size < total + size);
            assert(n == (total + size - 1) / size) by (nonlinear_arith)
                requires
                    size >= 1,
                    n * size >= total as int,
                    n * size < total as int + size,
            ;
        }
    }
    r
}

/// What one batch contributes to the flat result list: its own results when
/// the backend answered, one `None` per task when it failed.
pub open spec fn spec_segment(outcome: Option<Seq<Option<u32>>>, size: nat) -> Seq<Option<u32>> {
    match outcome {
        Some(v) => v,
        None => Seq::new(size, |i: int| None::<u32>),
    }
}

pub open spec fn spec_sum_sizes(sizes: Seq<usize>) -> int
    decreases sizes.len(),
{
    if sizes.len() == 0 {
        0
    } else {
        sizes[0] + spec_sum_sizes(sizes.drop_first())
    }
}

/// The flat result list of a run: every batch's segment, in batch order.
pub open spec fn spec_flatten(
    outcomes: Seq<Option<Seq<Option<u32>>>>,
    sizes: Seq<usize>,
) -> Seq<Option<u32>>
    decreases outcomes.len(),
{
    if outcomes.len() == 0 || sizes.len() == 0 {
        Seq::empty()
    } else {
        spec_segment(outcomes[0], sizes[0] as nat) + spec_flatten(
            outcomes.drop_first(),
            sizes.drop_first(),
        )
    }
}

/// Appends one batch's outcome to the flat result list: the batch's own
/// results if the backend answered, or one `None` per task of the batch if
/// it failed — a failure degrades its own batch and nothing else.
pub fn append_batch_outcome(
    all: &mut Vec<Option<u32>>,
    outcome: &Option<Vec<Option<u32>>>,
    chunk_len: usize,
)
    requires
        outcome matches Some(v) ==> v@.len() == chunk_len,
    ensures
        final(all)@ == old(all)@ + spec_segment(
            match outcome {
                Some(v) => Some(v.deep_view()),
                None => None,
            },
            chunk_len as nat,
        ),
{
    match outcome {
        Some(v) => {
            let mut k: usize = 0;
            while k < v.len()
                invariant
                    k <= v@.len(),
                    all@ =~= old(all)@ + v@.take(k as int),
                decreases v@.len() - k,
            {
                all.push(v[k]);
                proof {
                    assert(v@.take(k + 1) =~= v@.take(k as int).push(v@[k as int]));
                }
                k = k + 1;
            }
            proof {
                assert(v@.take(v@.len() as int) =~= v@);
                assert(v.deep_view() =~= v@);
            }
        },
        None => {
            let mut k: usize = 0;
            while k < chunk_len
                invariant
                    k <= chunk_len,
                    all@ =~= old(all)@ + Seq::new(k as nat, |i: int| None::<u32>),
                decreases chunk_len - k,
            {
                all.push(None);
                proof {
                    assert(Seq::new((k + 1) as nat, |i: int| None::<u32>) =~= Seq::new(
                        k as nat,
                        |i: int| None::<u32>,
                    ).push(None));
                }
                k = k + 1;
            }
        },
    }
    proof {
        assert(final(all)@ =~= old(all)@ + spec_segment(
            match outcome {
                Some(v) => Some(v.deep_view()),
                None => None,
            },
            chunk_len as nat,
        ));
    }
}

pub proof fn lemma_flatten_len(outcomes: Seq<Option<Seq<Option<u32>>>>, sizes: Seq<usize>)
    requires
        outcomes.len() == sizes.len(),
        forall|i: int|
            0 <= i < outcomes.len() ==> ((#[trigger] outcomes[i]) matches Some(v) ==> v.len()
                == sizes[i]),
    ensures
        spec_flatten(outcomes, sizes).len() == spec_sum_sizes(sizes),
    decreases outcomes.len(),
{
    if outcomes.len() > 0 {
        assert forall|i: int| 0 <= i < outcomes.drop_first().len() implies (
        #[trigger] outcomes.drop_first()[i]) matches Some(v) ==> v.len()
            == sizes.drop_first()[i] by {
            assert(outcomes.drop_first()[i] == outcomes[i + 1]);
        }
        lemma_flatten_len(outcomes.drop_first(), sizes.drop_first());
    }
}

/// Law: batch failures are isolated.  In the flat result list, the span of
/// batch `b` is exactly that batch's own outcome — its reported results when
/// the backend answered, all `None` when that one batch failed — whatever
/// became of the other batches.
pub proof fn lemma_batch_failure_isolation(
    outcomes: Seq<Option<Seq<Option<u32>>>>,
    sizes: Seq<usize>,
    b: int,
)
    requires
        outcomes.len() == sizes.len(),
        0 <= b < outcomes.len(),
        forall|i: int|
            0 <= i < outcomes.len() ==> ((#[trigger] outcomes[i]) matches Some(v) ==> v.len()
                == sizes[i]),
    ensures
        forall|k: int|
            0 <= k < sizes[b] ==> spec_flatten(outcomes, sizes)[spec_sum_sizes(
                sizes.subrange(0, b),
            ) + k] == spec_segment(outcomes[b], sizes[b] as nat)[k],
    decreases b,
{
    lemma_flatten_len(outcomes, sizes);
    assert forall|i: int| 0 <= i < outcomes.drop_first().len() implies (
    #[trigger] outcomes.drop_first()[i]) matches Some(v) ==> v.len() == sizes.drop_first()[i] by {
        assert(outcomes.drop_first()[i] == outcomes[i + 1]);
    }
    if b == 0 {
        assert(sizes.subrange(0, 0) =~= Seq::<usize>::empty());
        assert(spec_segment(outcomes[0], sizes[0] as nat).len() == sizes[0]);
    } else {
        lemma_batch_failure_isolation(outcomes.drop_first(), sizes.drop_first(), b - 1);
        assert(sizes.drop_first().subrange(0, b - 1) =~= sizes.subrange(0, b).drop_first());
        assert(spec_sum_sizes(sizes.subrange(0, b)) == sizes[0] + spec_sum_sizes(
            sizes.drop_first().subrange(0, b - 1),
        ));
        assert(spec_segment(outcomes[0], sizes[0] as nat).len() == sizes[0]);
        assert forall|k: int| 0 <= k < sizes[b] implies spec_flatten(outcomes, sizes)[
        spec_sum_sizes(sizes.subrange(0, b)) + k] == spec_segment(outcomes[b], sizes[b] as nat)[k]
            by {
            lemma_flatten_len(outcomes.drop_first(), sizes.drop_first());
            assert(outcomes.drop_first()[b - 1] == outcomes[b]);
            assert(sizes.drop_first()[b - 1] == sizes[b]);
            lemma_sum_prefix_nonneg(sizes.drop_first().subrange(0, b - 1));
            lemma_sum_prefix_bound(sizes.drop_first(), b - 1);
            assert(spec_flatten(outcomes, sizes)[spec_sum_sizes(sizes.subrange(0, b)) + k]
                == spec_flatten(outcomes.drop_first(), sizes.drop_first())[spec_sum_sizes(
                sizes.drop_first().subrange(0, b - 1),
            ) + k]);
        }
    }
}

/// The alias list as the prompt shows it, from position `i` on: each alias
/// in corner brackets, the entries joined by an enumeration comma.
pub open spec fn spec_alias_join(al: Seq<Seq<char>>, i: int) -> Seq<char>
    decreases al.len() - i,
{
    if i < 0 || i >= al.len() {
        Seq::empty()
    } else {
        (if i > 0 {
            "、"@
        } else {
            Seq::empty()
        }) + "『"@ + al[i] + "』"@ + spec_alias_join(al, i + 1)
    }
}

pub open spec fn spec_alias_display(al: Seq<Seq<char>>) -> Seq<char> {
    if al.len() == 0 {
        "无别名"@
    } else {
        spec_alias_join(al, 0)
    }
}

fn push_alias_display(out: &mut String, aliases: &Vec<String>)
    ensures
        final(out)@ == old(out)@ + spec_alias_display(aliases.deep_view()),
{
    let ghost al = aliases.deep_view();
    if aliases.len() == 0 {
        out.append("无别名");
        proof {
            assert(final(out)@ =~= old(out)@ + spec_alias_display(al));
        }
        return ;
    }
    let mut i: usize = 0;
    while i < aliases.len()
        invariant
            i <= al.len(),
            al == aliases.deep_view(),
            al.len() == aliases@.len(),
            out@ + spec_alias_join(al, i as int) =~= old(out)@ + spec_alias_join(al, 0),
        decreases al.len() - i,
    {
        proof {
            assert(al[i as int] == aliases@[i as int]@);
        }
        if i > 0 {
            out.append("、");
        }
        out.append("『");
        out.append(aliases[i].as_str());
        out.append("』");
        proof {
            assert(out@ + spec_alias_join(al, i + 1) =~= old(out)@ + spec_alias_join(al, 0));
        }
        i = i + 1;
    }
    proof {
        assert(spec_alias_join(al, al.len() as int) =~= Seq::<char>::empty());
        assert(final(out)@ =~= old(out)@ + spec_alias_display(al));
    }
}

/// The keyword list as the prompt shows it, from position `i` on: each
/// keyword quoted and escaped, the entries comma separated.
pub open spec fn spec_keyword_join(ks: Seq<Seq<char>>, i: int) -> Seq<char>
    decreases ks.len() - i,
{
    if i < 0 || i >= ks.len() {
        Seq::empty()
    } else {
        (if i > 0 {
            ", "@
        } else {
            Seq::empty()
        }) + "\""@ + crate::text::spec_json_escape(ks[i]) + "\""@ + spec_keyword_join(ks, i + 1)
    }
}

pub open spec fn spec_keyword_display(ks: Seq<Seq<char>>) -> Seq<char> {
    "["@ + spec_keyword_join(ks, 0) + "]"@
}

fn push_keyword_display(out: &mut String, keywords: &Vec<String>)
    ensures
        final(out)@ == old(out)@ + spec_keyword_display(keywords.deep_view()),
{
    let ghost ks = keywords.deep_view();
    out.append("[");
    let mut i: usize = 0;
    while i < keywords.len()
        invariant
            i <= ks.len(),
            ks == keywords.deep_view(),
            ks.len() == keywords@.len(),
            out@ + spec_keyword_join(ks, i as int) =~= old(out)@ + "["@ + spec_keyword_join(
                ks,
                0,
            ),
        decreases ks.len() - i,
    {
        proof {
            assert(ks[i as int] == keywords@[i as int]@);
        }
        if i > 0 {
            out.append(", ");
        }
        out.append("\"");
        crate::text::push_json_escaped(out, keywords[i].as_str());
        out.append("\"");
        proof {
            assert(out@ + spec_keyword_join(ks, i + 1) =~= old(out)@ + "["@ + spec_keyword_join(
                ks,
                0,
            ));
        }
        i = i + 1;
    }
    out.append("]");
    proof {
        assert(spec_keyword_join(ks, ks.len() as int) =~= Seq::<char>::empty());
        assert(final(out)@ =~= old(out)@ + spec_keyword_display(ks));
    }
}

/// One candidate's line of the prompt: its rank, identifier, titles, air
/// date (or the unknown marker) and aliases.
pub open spec fn spec_candidate_line(rank: int, c: CandidateWork) -> Seq<char> {
    crate::text::spec_decimal(rank) + ". [ID: "@ + crate::text::spec_decimal(
        c.bangumi_id as int,
    ) + "] 日文标题:『"@ + c.japanese_title@ + "』 中文标题:『"@ + c.chinese_title@
        + "』 放映时间:『"@ + (match c.air_date {
        Some(s) => s@,
        None => "未知"@,
    }) + "』 别名: "@ + spec_alias_display(c.aliases.deep_view())
}

pub open spec fn spec_candidate_join(cs: Seq<CandidateWork>, i: int) -> Seq<char>
    decreases cs.len() - i,
{
    if i < 0 || i >= cs.len() {
        Seq::empty()
    } else {
        (if i > 0 {
            "\n"@
        } else {
            Seq::empty()
        }) + spec_candidate_line(i + 1, cs[i]) + spec_candidate_join(cs, i + 1)
    }
}

/// The candidate block of one task: the candidates line by line, or the
/// no-candidates marker.
pub open spec fn spec_format_candidate_works(cs: Seq<CandidateWork>) -> Seq<char> {
    if cs.len() == 0 {
        "无候选作品"@
    } else {
        spec_candidate_join(cs, 0)
    }
}

fn push_candidate_line(out: &mut String, rank: u64, c: &CandidateWork)
    ensures
        final(out)@ == old(out)@ + spec_candidate_line(rank as int, *c),
{
    crate::text::push_decimal(out, rank);
    out.append(". [ID: ");
    crate::text::push_decimal(out, c.bangumi_id as u64);
    out.append("] 日文标题:『");
    out.append(c.japanese_title.as_str());
    out.append("』 中文标题:『");
    out.append(c.chinese_title.as_str());
    out.append("』 放映时间:『");
    match &c.air_date {
        Some(s) => out.append(s.as_str()),
        None => out.append("未知"),
    }
    out.append("』 别名: ");
    push_alias_display(out, &c.aliases);
    proof {
        assert(final(out)@ =~= old(out)@ + spec_candidate_line(rank as int, *c));
    }
}

/// Renders the candidate block of one task for the prompt.
pub fn format_candidate_works(candidates: &Vec<CandidateWork>) -> (r: String)
    ensures
        r@ == spec_format_candidate_works(candidates@),
{
    let mut out = String::new();
    if candidates.len() == 0 {
        out.append("无候选作品");
        proof {
            assert(out@ =~= spec_format_candidate_works(candidates@));
        }
        return out;
    }
    let ghost cs = candidates@;
    let mut i: usize = 0;
    while i < candidates.len()
        invariant
            i <= cs.len(),
            cs == candidates@,
            out@ + spec_candidate_join(cs, i as int) =~= spec_candidate_join(cs, 0),
        decreases cs.len() - i,
    {
        if i > 0 {
            out.append("\n");
        }
        push_candidate_line(&mut out, (i as u64) + 1, &candidates[i]);
        proof {
            assert(out@ + spec_candidate_join(cs, i + 1) =~= spec_candidate_join(cs, 0));
        }
        i = i + 1;
    }
    proof {
        assert(spec_candidate_join(cs, cs.len() as int) =~= Seq::<char>::empty());
        assert(out@ =~= spec_format_candidate_works(cs));
    }
    out
}

/// The source-work lines of one task's block: the work's titles, its air
/// date (or the unknown marker) and its keyword list.
pub open spec fn spec_work_info(w: AnimeWork) -> Seq<char> {
    "[源作品信息]\n- 原标题: "@ + w.original_title@ + "\n- 清理标题: "@ + w.cleaned_title@
        + "\n- 放映时间: "@ + (match w.air_date {
        Some(d) => if d.wf() {
            crate::dates::spec_format_date(d)
        } else {
            "未知"@
        },
        None => "未知"@,
    }) + "\n- 关键词: "@ + spec_keyword_display(w.keywords.deep_view())
}

/// One task's block of the prompt: its index, the work's own lines and its
/// candidate block, fenced by task markers.
pub open spec fn spec_task_block(i: int, t: (AnimeWork, Vec<CandidateWork>)) -> Seq<char> {
    "\n=== 任务 "@ + crate::text::spec_decimal(i) + " ===\n"@ + spec_work_info(t.0)
        + "\n\n[候选作品列表]\n"@ + spec_format_candidate_works(t.1@) + "\n=== 任务 "@
        + crate::text::spec_decimal(i) + " 结束 ==="@
}

fn push_work_info(out: &mut String, work: &AnimeWork)
    ensures
        final(out)@ == old(out)@ + spec_work_info(*work),
{
    out.append("[源作品信息]\n- 原标题: ");
    out.append(work.original_title.as_str());
    out.append("\n- 清理标题: ");
    out.append(work.cleaned_title.as_str());
    out.append("\n- 放映时间: ");
    match &work.air_date {
        Some(d) => {
            if d.year <= 9999 && 1 <= d.month && d.month <= 12 && 1 <= d.day && d.day
                <= crate::dates::month_length(d.year, d.month) {
                let f = crate::dates::format_date(d);
                out.append(f.as_str());
            } else {
                out.append("未知");
            }
        },
        None => out.append("未知"),
    }
    out.append("\n- 关键词: ");
    push_keyword_display(out, &work.keywords);
    proof {
        assert(final(out)@ =~= old(out)@ + spec_work_info(*work));
    }
}

pub open spec fn spec_task_join(ts: Seq<(AnimeWork, Vec<CandidateWork>)>, i: int) -> Seq<char>
    decreases ts.len() - i,
{
    if i < 0 || i >= ts.len() {
        Seq::empty()
    } else {
        (if i > 0 {
            "\n\n"@
        } else {
            Seq::empty()
        }) + spec_task_block(i, ts[i]) + spec_task_join(ts, i + 1)
    }
}

/// The whole task list of one batch as the prompt shows it.
pub open spec fn spec_format_batch_tasks(ts: Seq<(AnimeWork, Vec<CandidateWork>)>) -> Seq<char> {
    spec_task_join(ts, 0)
}

/// Renders every task of a batch, each labelled by its index and fenced off
/// from its neighbours, so the classifier can treat them independently.
fn push_task_block(out: &mut String, i: usize, t: &(AnimeWork, Vec<CandidateWork>))
    ensures
        final(out)@ == old(out)@ + spec_task_block(i as int, *t),
{
    out.append("\n=== 任务 ");
    crate::text::push_decimal(out, i as u64);
    out.append(" ===\n");
    push_work_info(out, &t.0);
    out.append("\n\n[候选作品列表]\n");
    let cand_block = format_candidate_works(&t.1);
    out.append(cand_block.as_str());
    out.append("\n=== 任务 ");
    crate::text::push_decimal(out, i as u64);
    out.append(" 结束 ===");
    proof {
        assert(final(out)@ =~= old(out)@ + spec_task_block(i as int, *t));
    }
}

pub fn format_batch_match_tasks(tasks: &Vec<(AnimeWork, Vec<CandidateWork>)>) -> (r: String)
    ensures
        r@ == spec_format_batch_tasks(tasks@),
{
    let ghost ts = tasks@;
    let mut out = String::new();
    let mut i: usize = 0;
    while i < tasks.len()
        invariant
            i <= ts.len(),
            ts == tasks@,
            out@ + spec_task_join(ts, i as int) =~= spec_task_join(ts, 0),
        decreases ts.len() - i,
    {
        if i > 0 {
            out.append("\n\n");
        }
        push_task_block(&mut out, i, &tasks[i]);
        proof {
            assert(out@ + spec_task_join(ts, i + 1) =~= spec_task_join(ts, 0));
        }
        i = i + 1;
    }
    proof {
        assert(spec_task_join(ts, ts.len() as int) =~= Seq::<char>::empty());
        assert(out@ =~= spec_format_batch_tasks(ts));
    }
    out
}

/// The one prompt of a batch request: the fixed instructions around the
/// rendered task list, telling the classifier the tasks are independent, to
/// answer once per task, and to report `null` below the hard threshold.
pub fn build_batch_match_prompt(tasks: &Vec<(AnimeWork, Vec<CandidateWork>)>) -> (r: String)
    ensures
        r@ == "请为以下多个独立的匹配任务找到最合适的Bangumi作品。每个任务都是完全独立的，请不要混淆不同任务之间的信息。\n\n重要规则：\n1. 每个任务都是独立的，只考虑该任务内的源作品和候选作品\n2. 不要将任务A的关键词与任务B的候选作品匹配\n3. 每个任务必须单独评估，互不影响\n\n任务列表：\n"@
            + spec_format_batch_tasks(tasks@)
            + "\n\n匹配标准（对每个任务独立应用）：\n- 标题语义相似性（包括特殊符号、季度表示差异）\n- 放映时间的接近程度（前后30天内）\n- 关键词与候选作品标题/别名的匹配度\n- 是否为同一作品的不同季度\n\n返回格式要求：\n- 必须为每个任务返回一个结果，即使没有匹配也要返回null\n- confidence必须基于该任务内的信息独立计算\n- reasoning必须说明为什么选择这个匹配（或为什么不匹配）\n\n请返回JSON格式：\n{\n  \"matches\": [\n    {\"source_index\": 0, \"matched_bangumi_id\": <ID或null>, \"confidence\": <0-1的置信度>, \"reasoning\": \"匹配理由\"},\n    {\"source_index\": 1, \"matched_bangumi_id\": <ID或null>, \"confidence\": <0-1的置信度>, \"reasoning\": \"匹配理由\"},\n    // ... 确保每个任务都有对应的结果\n  ]\n}\n\n注意：如果没有高度匹配（confidence > 0.7），请返回null。"@,
{
    let mut out = String::from_str(
        "请为以下多个独立的匹配任务找到最合适的Bangumi作品。每个任务都是完全独立的，请不要混淆不同任务之间的信息。\n\n重要规则：\n1. 每个任务都是独立的，只考虑该任务内的源作品和候选作品\n2. 不要将任务A的关键词与任务B的候选作品匹配\n3. 每个任务必须单独评估，互不影响\n\n任务列表：\n",
    );
    let body = format_batch_match_tasks(tasks);
    out.append(body.as_str());
    out.append(
        "\n\n匹配标准（对每个任务独立应用）：\n- 标题语义相似性（包括特殊符号、季度表示差异）\n- 放映时间的接近程度（前后30天内）\n- 关键词与候选作品标题/别名的匹配度\n- 是否为同一作品的不同季度\n\n返回格式要求：\n- 必须为每个任务返回一个结果，即使没有匹配也要返回null\n- confidence必须基于该任务内的信息独立计算\n- reasoning必须说明为什么选择这个匹配（或为什么不匹配）\n\n请返回JSON格式：\n{\n  \"matches\": [\n    {\"source_index\": 0, \"matched_bangumi_id\": <ID或null>, \"confidence\": <0-1的置信度>, \"reasoning\": \"匹配理由\"},\n    {\"source_index\": 1, \"matched_bangumi_id\": <ID或null>, \"confidence\": <0-1的置信度>, \"reasoning\": \"匹配理由\"},\n    // ... 确保每个任务都有对应的结果\n  ]\n}\n\n注意：如果没有高度匹配（confidence > 0.7），请返回null。",
    );
    out
}

/// The wire form of one chat-completion request: the model name and a
/// single user message holding the prompt, both JSON-escaped.
pub open spec fn spec_chat_request_body(model: Seq<char>, content: Seq<char>) -> Seq<char> {
    "{\"model\":\""@ + crate::text::spec_json_escape(model)
        + "\",\"messages\":[{\"role\":\"user\",\"content\":\""@ + crate::text::spec_json_escape(
        content,
    ) + "\"}]}"@
}

/// Frames one chat-completion request body.
pub fn build_chat_request_body(model: &str, content: &str) -> (r: String)
    ensures
        r@ == spec_chat_request_body(model@, content@),
{
    let mut out = String::from_str("{\"model\":\"");
    crate::text::push_json_escaped(&mut out, model);
    out.append("\",\"messages\":[{\"role\":\"user\",\"content\":\"");
    crate::text::push_json_escaped(&mut out, content);
    out.append("\"}]}");
    proof {
        assert(out@ =~= spec_chat_request_body(model@, content@));
    }
    out
}

proof fn lemma_sum_prefix_nonneg(sizes: Seq<usize>)
    ensures
        spec_sum_sizes(sizes) >= 0,
    decreases sizes.len(),
{
    if sizes.len() > 0 {
        lemma_sum_prefix_nonneg(sizes.drop_first());
    }
}

/// A proper prefix of the sizes, plus the next size, never exceeds the total.
proof fn lemma_sum_prefix_bound(sizes: Seq<usize>, j: int)
    requires
        0 <= j < sizes.len(),
    ensures
        spec_sum_sizes(sizes.subrange(0, j)) + sizes[j] <= spec_sum_sizes(sizes),
    decreases j,
{
    if j == 0 {
        assert(sizes.subrange(0, 0) =~= Seq::<usize>::empty());
        lemma_sum_prefix_nonneg(sizes.drop_first());
    } else {
        lemma_sum_prefix_bound(sizes.drop_first(), j - 1);
        assert(sizes.drop_first().subrange(0, j - 1) =~= sizes.subrange(0, j).drop_first());
        assert(spec_sum_sizes(sizes.subrange(0, j)) == sizes[0] + spec_sum_sizes(
            sizes.drop_first().subrange(0, j - 1),
        ));
    }
}

} // verus!

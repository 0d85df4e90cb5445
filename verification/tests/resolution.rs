use bangumi_rules::bangumi::{assemble_results, build_search_terms, merge_candidates,
    plan_search_task};
use bangumi_rules::matcher::{append_batch_outcome, batch_bounds, collect_batch_results,
    strip_code_fence, BatchMatchResponse, BatchMatchResult, CandidateWork,
    MATCH_CONFIDENCE_THRESHOLD};
use bangumi_rules::models::AnimeWork;
use bangumi_rules::dates::Date;

fn work(original: &str, cleaned: &str, date: Option<Date>, keywords: &[&str]) -> AnimeWork {
    AnimeWork {
        original_title: original.to_string(),
        cleaned_title: cleaned.to_string(),
        air_date: date,
        keywords: keywords.iter().map(|k| k.to_string()).collect(),
    }
}

fn candidate(id: u32, jp: &str, cn: &str, aliases: &[&str], air: Option<&str>) -> CandidateWork {
    CandidateWork {
        bangumi_id: id,
        japanese_title: jp.to_string(),
        chinese_title: cn.to_string(),
        aliases: aliases.iter().map(|a| a.to_string()).collect(),
        air_date: air.map(|s| s.to_string()),
    }
}

fn report(idx: usize, id: Option<u32>, confidence: u64) -> BatchMatchResult {
    BatchMatchResult {
        source_index: idx,
        matched_bangumi_id: id,
        confidence,
        reasoning: "reasoning".to_string(),
    }
}

#[test]
fn threshold_is_strict_at_the_boundary() {
    // Exactly 0.7 is rejected; 0.70001 is accepted.
    let at = BatchMatchResponse { matches: vec![report(0, Some(42), MATCH_CONFIDENCE_THRESHOLD)] };
    assert_eq!(collect_batch_results(&at, 1), vec![None]);
    let above = BatchMatchResponse { matches: vec![report(0, Some(42), 700_010)] };
    assert_eq!(collect_batch_results(&above, 1), vec![Some(42)]);
    let below = BatchMatchResponse { matches: vec![report(0, Some(42), 699_999)] };
    assert_eq!(collect_batch_results(&below, 1), vec![None]);
}

#[test]
fn out_of_range_report_changes_nothing() {
    let resp = BatchMatchResponse { matches: vec![report(5, Some(9), 999_999)] };
    assert_eq!(collect_batch_results(&resp, 2), vec![None, None]);
}

#[test]
fn explicit_null_match_stays_none() {
    let resp = BatchMatchResponse { matches: vec![report(0, None, 990_000)] };
    assert_eq!(collect_batch_results(&resp, 1), vec![None]);
}

#[test]
fn independent_tasks_do_not_cross_contaminate() {
    // Two tasks in one batch: an obvious match for the first, an explicit
    // no-match for the second; the second must stay unresolved.
    let resp = BatchMatchResponse {
        matches: vec![report(0, Some(564421), 950_000), report(1, None, 200_000)],
    };
    assert_eq!(collect_batch_results(&resp, 2), vec![Some(564421), None]);
}

#[test]
fn fenced_reply_decodes_like_a_bare_one() {
    let bare = "{\"matches\":[]}";
    let fenced = "```json\n{\"matches\":[]}\n```";
    assert_eq!(strip_code_fence(fenced), bare);
    assert_eq!(strip_code_fence(bare), bare);
    let plain_fence = "```\n{\"matches\":[]}\n```";
    assert_eq!(strip_code_fence(plain_fence), bare);
    assert_eq!(strip_code_fence("  hello  "), "hello");
}

#[test]
fn batch_failure_is_isolated() {
    // Batch 2 of 3 fails; batches 1 and 3 keep their results.
    let mut all: Vec<Option<u32>> = Vec::new();
    append_batch_outcome(&mut all, &Some(vec![Some(1), None]), 2);
    append_batch_outcome(&mut all, &None, 2);
    append_batch_outcome(&mut all, &Some(vec![Some(3)]), 1);
    assert_eq!(all, vec![Some(1), None, None, None, Some(3)]);
}

#[test]
fn batch_bounds_partition_in_order() {
    assert_eq!(batch_bounds(0, 10), Vec::<(usize, usize)>::new());
    assert_eq!(batch_bounds(5, 10), vec![(0, 5)]);
    assert_eq!(batch_bounds(25, 10), vec![(0, 10), (10, 20), (20, 25)]);
    assert_eq!(batch_bounds(20, 10), vec![(0, 10), (10, 20)]);
}

#[test]
fn duplicate_search_terms_canonicalize_identically() {
    // {A, A, B} yields the very same term list as {A, B}.
    let doubled = work("t", "B", None, &["A", "A"]);
    let single = work("t", "B", None, &["A"]);
    let terms1 = build_search_terms(&doubled);
    let terms2 = build_search_terms(&single);
    assert_eq!(terms1, terms2);
    assert_eq!(terms1, vec!["A".to_string(), "B".to_string()]);
}

#[test]
fn search_terms_include_cleaned_title_once() {
    let w = work("t", "A", None, &["A", "B"]);
    assert_eq!(build_search_terms(&w), vec!["A".to_string(), "B".to_string()]);
}

#[test]
fn candidate_dedup_keeps_first_and_is_idempotent() {
    let c1 = candidate(1, "one", "", &[], None);
    let c1_later = candidate(1, "one-again", "", &[], None);
    let c2 = candidate(2, "two", "", &[], None);
    let mut acc: Vec<CandidateWork> = Vec::new();
    merge_candidates(&mut acc, vec![c1.clone(), c1_later.clone(), c2.clone()]);
    assert_eq!(acc.len(), 2);
    assert_eq!(acc[0].japanese_title, "one");
    assert_eq!(acc[1].bangumi_id, 2);
    // Folding the same retrieval in again changes nothing.
    let before = acc.clone();
    merge_candidates(&mut acc, vec![c1, c1_later, c2]);
    assert_eq!(acc, before);
}

#[test]
fn one_record_per_work_in_input_order() {
    // The isekai-quartet scenario: the right candidate wins for the first
    // work; a work with no plausible candidates resolves to an explicit
    // no-match without any task.
    let w0 = work(
        "異世界かるてっと3",
        "异世界四重奏3",
        Some(Date { year: 2025, month: 10, day: 13 }),
        &["Isekai Quartet 3", "異世界かるてっと3"],
    );
    let w1 = work("架空のアニメ作品", "虚构的动画作品", None, &["Fictional Anime Work"]);
    let works = vec![w0.clone(), w1.clone()];
    let cands = vec![
        candidate(564421, "異世界かるてっと3", "异世界四重奏3", &["Isekai Quartet 3"], Some("2025-10-14")),
        candidate(111111, "unrelated one", "", &[], Some("2024-01-01")),
        candidate(222222, "unrelated two", "", &[], Some("2026-06-01")),
    ];
    let tasks = vec![(w0.clone(), cands)];
    let records = assemble_results(&works, &vec![0], &tasks, &vec![Some(564421)]);
    assert_eq!(records.len(), works.len());
    assert_eq!(records[0].original_title, w0.original_title);
    assert_eq!(records[0].cleaned_title, w0.cleaned_title);
    assert_eq!(records[0].air_date, w0.air_date);
    assert_eq!(records[0].keywords, w0.keywords);
    assert_eq!(records[0].bangumi_id, Some(564421));
    assert_eq!(records[0].chinese_name.as_deref(), Some("异世界四重奏3"));
    assert_eq!(records[0].aliases, vec!["Isekai Quartet 3".to_string()]);
    // The candidate-less work still gets its record, in place, unmatched.
    assert_eq!(records[1].original_title, w1.original_title);
    assert_eq!(records[1].bangumi_id, None);
    assert_eq!(records[1].chinese_name, None);
    assert!(records[1].aliases.is_empty());
}

#[test]
fn candidate_less_works_get_no_matching_task() {
    // A work whose every query came back empty never reaches the matching
    // stage: no task, no classifier call for it.
    let mut tasks: Vec<(AnimeWork, Vec<CandidateWork>)> = Vec::new();
    let mut indices: Vec<usize> = Vec::new();
    plan_search_task(&mut tasks, &mut indices, work("a", "a", None, &[]), 0, Vec::new());
    assert!(tasks.is_empty());
    assert!(indices.is_empty());
    plan_search_task(
        &mut tasks,
        &mut indices,
        work("b", "b", None, &[]),
        1,
        vec![candidate(9, "x", "y", &[], None)],
    );
    assert_eq!(tasks.len(), 1);
    assert_eq!(indices, vec![1]);
}

#[test]
fn unmatched_task_yields_no_match_record() {
    let w0 = work("a", "a", None, &[]);
    let tasks = vec![(w0.clone(), vec![candidate(5, "x", "y", &[], None)])];
    let records = assemble_results(&vec![w0], &vec![0], &tasks, &vec![None]);
    assert_eq!(records.len(), 1);
    assert_eq!(records[0].bangumi_id, None);
    assert!(records[0].aliases.is_empty());
}

#[test]
fn matched_id_missing_from_candidates_degrades_to_no_match() {
    let w0 = work("a", "a", None, &[]);
    let tasks = vec![(w0.clone(), vec![candidate(5, "x", "y", &[], None)])];
    let records = assemble_results(&vec![w0], &vec![0], &tasks, &vec![Some(999)]);
    assert_eq!(records[0].bangumi_id, None);
}

#[test]
fn empty_chinese_title_yields_no_chinese_name() {
    let w0 = work("a", "a", None, &[]);
    let tasks = vec![(w0.clone(), vec![candidate(5, "x", "", &["al"], None)])];
    let records = assemble_results(&vec![w0], &vec![0], &tasks, &vec![Some(5)]);
    assert_eq!(records[0].bangumi_id, Some(5));
    assert_eq!(records[0].chinese_name, None);
    assert_eq!(records[0].aliases, vec!["al".to_string()]);
}

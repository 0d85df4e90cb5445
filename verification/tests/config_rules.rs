use bangumi_rules::bangumi::count_with_bangumi;
use bangumi_rules::dates::Date;
use bangumi_rules::matcher::{build_batch_match_prompt, format_batch_match_tasks,
    format_candidate_works, CandidateWork};
use bangumi_rules::models::{parse_site_type, AiConfig, AiProvider, AnimeWork, BangumiResult,
    SiteType, Statistics};
use bangumi_rules::rules_qb::{generate_qb_rules, sanitize_work_name};

fn record(
    cleaned: &str,
    id: Option<u32>,
    chinese: Option<&str>,
    aliases: &[&str],
    keywords: &[&str],
) -> BangumiResult {
    BangumiResult {
        original_title: cleaned.to_string(),
        cleaned_title: cleaned.to_string(),
        bangumi_id: id,
        chinese_name: chinese.map(|s| s.to_string()),
        aliases: aliases.iter().map(|s| s.to_string()).collect(),
        air_date: None,
        keywords: keywords.iter().map(|s| s.to_string()).collect(),
    }
}

#[test]
fn site_type_parsing_ignores_ascii_case() {
    assert_eq!(parse_site_type("kansou"), Ok(SiteType::Kansou));
    assert_eq!(parse_site_type("KANSOU"), Ok(SiteType::Kansou));
    assert_eq!(parse_site_type("modelscope"), Err("不支持的站点类型: modelscope".to_string()));
    assert_eq!(SiteType::Kansou.name(), "kansou");
    assert_eq!(AiProvider::DeepSeek.name(), "deepseek");
}

#[test]
fn deepseek_config_values() {
    let cfg = AiConfig::deepseek();
    assert_eq!(cfg.model, "deepseek-chat");
    assert_eq!(cfg.api_url, "https://api.deepseek.com/v1/chat/completions");
}

#[test]
fn statistics_accumulate_usage() {
    let mut stats = Statistics::new();
    stats.record_usage(100, 20);
    stats.record_usage(30, 5);
    assert_eq!(stats.ai_requests_count, 2);
    assert_eq!(stats.ai_input_tokens, 130);
    assert_eq!(stats.ai_output_tokens, 25);
    assert_eq!(stats.qb_rules_generated, 0);
}

#[test]
fn counts_resolved_records() {
    let rs = vec![
        record("a", Some(1), None, &[], &[]),
        record("b", None, None, &[], &[]),
        record("c", Some(3), None, &[], &[]),
    ];
    assert_eq!(count_with_bangumi(&rs), 2);
}

#[test]
fn sanitizes_file_names() {
    assert_eq!(sanitize_work_name("a/b:c*d?e\"f<g>h|i\\j"), "a／b：c＊d？e＂f＜g＞h｜i＼j");
    assert_eq!(sanitize_work_name("  spaced  "), "spaced");
    assert_eq!(sanitize_work_name("   "), "Unknown_Work");
    assert_eq!(sanitize_work_name(""), "Unknown_Work");
}

#[test]
fn one_rule_per_work_with_exact_pattern() {
    let rs = vec![record("罗小黑战记", Some(442114), Some("罗小黑战记"), &[], &[])];
    let out = generate_qb_rules(&rs, "D:\\Anime", "2025年10月新番");
    assert!(out.failed_works.is_empty());
    assert_eq!(out.rules.len(), 1);
    let (name, rule) = &out.rules[0];
    assert_eq!(name, "2025年10月新番 罗小黑战记");
    assert_eq!(rule.assigned_category, "Anime/2025年10月新番");
    assert_eq!(rule.save_path, "D:\\Anime\\2025年10月新番\\罗小黑战记");
    assert_eq!(rule.torrent_params.save_path, "D:/Anime/2025年10月新番/罗小黑战记");
    assert_eq!(
        rule.must_contain,
        ".+(罗小黑战记).+((1080|2160|WebRip).+(CHS|CHT|GB|BIG5|简|繁|B-Global|Baha|bilibili|CR|Sentai|x264\\sAAC|无字幕)|(CHS|CHT|GB|BIG5|简|繁|B-Global|Baha|bilibili|CR|Sentai|x264\\sAAC|无字幕).+(1080|2160|WebRip)).+"
    );
    assert_eq!(rule.must_not_contain, ".+01\\-.+|.+合集.+|.+先行.+|.+\\[V0.+|.+全集.+");
    assert!(rule.enabled);
    assert!(rule.use_regex);
    assert_eq!(rule.torrent_params.download_limit, -1);
    assert_eq!(rule.affected_feeds.len(), 4);
}

#[test]
fn rule_names_are_escaped_and_deduplicated() {
    // An unresolved record falls back to the generated keywords; a name with
    // regex metacharacters is escaped in the pattern.
    let rs = vec![record("a.b", None, None, &[], &["a.b", "x+y"])];
    let out = generate_qb_rules(&rs, "R", "S");
    let (_, rule) = &out.rules[0];
    assert!(rule.must_contain.starts_with(".+(a\\.b|x\\+y).+"));
}

#[test]
fn later_records_replace_same_named_rules() {
    let rs = vec![
        record("same", Some(1), Some("same"), &["first"], &[]),
        record("other", Some(2), Some("other"), &[], &[]),
        record("same", Some(3), Some("same"), &["second"], &[]),
    ];
    let out = generate_qb_rules(&rs, "R", "S");
    assert_eq!(out.rules.len(), 2);
    let same = out.rules.iter().find(|(n, _)| n == "S same").unwrap();
    assert!(same.1.must_contain.contains("second"));
    assert!(!same.1.must_contain.contains("first"));
}

#[test]
fn candidate_block_lists_every_candidate() {
    let cands = vec![CandidateWork {
        bangumi_id: 7,
        japanese_title: "ジ".to_string(),
        chinese_title: "中".to_string(),
        aliases: vec!["甲".to_string(), "乙".to_string()],
        air_date: Some("2025-01-02".to_string()),
    }];
    assert_eq!(
        format_candidate_works(&cands),
        "1. [ID: 7] 日文标题:『ジ』 中文标题:『中』 放映时间:『2025-01-02』 别名: 『甲』、『乙』"
    );
    assert_eq!(format_candidate_works(&Vec::new()), "无候选作品");
}

#[test]
fn task_block_is_rendered_exactly() {
    let w = AnimeWork {
        original_title: "T".to_string(),
        cleaned_title: "C".to_string(),
        air_date: None,
        keywords: Vec::new(),
    };
    let tasks = vec![(w, Vec::new())];
    assert_eq!(
        format_batch_match_tasks(&tasks),
        "\n=== 任务 0 ===\n[源作品信息]\n- 原标题: T\n- 清理标题: C\n- 放映时间: 未知\n- 关键词: []\n\n[候选作品列表]\n无候选作品\n=== 任务 0 结束 ==="
    );
}

#[test]
fn task_block_shows_date_and_keywords() {
    let w = AnimeWork {
        original_title: "T".to_string(),
        cleaned_title: "C".to_string(),
        air_date: Some(Date { year: 2025, month: 10, day: 13 }),
        keywords: vec!["k1".to_string(), "k\"2".to_string()],
    };
    let rendered = format_batch_match_tasks(&vec![(w, Vec::new())]);
    assert!(rendered.contains("- 放映时间: 2025-10-13"));
    assert!(rendered.contains("- 关键词: [\"k1\", \"k\\\"2\"]"));
}

#[test]
fn batch_prompt_frames_the_tasks() {
    let w = AnimeWork {
        original_title: "T".to_string(),
        cleaned_title: "C".to_string(),
        air_date: None,
        keywords: Vec::new(),
    };
    let prompt = build_batch_match_prompt(&vec![(w, Vec::new())]);
    assert!(prompt.starts_with("请为以下多个独立的匹配任务找到最合适的Bangumi作品。"));
    assert!(prompt.contains("=== 任务 0 ==="));
    assert!(prompt.contains("confidence > 0.7"));
    assert!(prompt.ends_with("请返回null。"));
}

use bangumi_rules::bangumi::{build_air_date_filter, build_search_request_body,
    extract_air_date_from_infobox, extract_air_date_from_subject, extract_aliases_from_infobox};
use bangumi_rules::dates::{date_from_ymd, date_shifted_by, format_date, parse_date_cjk,
    parse_date_iso, Date};
use bangumi_rules::matcher::{build_chat_request_body, CandidateWork};
use bangumi_rules::models::{BangumiInfoboxItem, BangumiSubject, InfoEntry, InfoValue};
use bangumi_rules::table::{extract_season_name_from_table_title, is_undetermined_date,
    parse_air_date, parse_table_works, text_contains};

fn d(y: u32, m: u32, dd: u32) -> Date {
    Date { year: y, month: m, day: dd }
}

#[test]
fn calendar_validity() {
    assert!(date_from_ymd(2024, 2, 29).is_some());
    assert!(date_from_ymd(2025, 2, 29).is_none());
    assert!(date_from_ymd(1900, 2, 29).is_none());
    assert!(date_from_ymd(2000, 2, 29).is_some());
    assert!(date_from_ymd(2025, 0, 1).is_none());
    assert!(date_from_ymd(2025, 13, 1).is_none());
    assert!(date_from_ymd(2025, 4, 31).is_none());
    assert!(date_from_ymd(10000, 1, 1).is_none());
}

#[test]
fn formats_dates_zero_padded() {
    assert_eq!(format_date(&d(2025, 10, 13)), "2025-10-13");
    assert_eq!(format_date(&d(80, 1, 2)), "0080-01-02");
}

#[test]
fn shifts_dates_across_month_and_year_ends() {
    // The ±100-day window edges around 2025-10-13.
    assert_eq!(date_shifted_by(&d(2025, 10, 13), false, 100), d(2025, 7, 5));
    assert_eq!(date_shifted_by(&d(2025, 10, 13), true, 100), d(2026, 1, 21));
    // A shift must not hand the input back unchanged.
    assert_eq!(date_shifted_by(&d(2024, 2, 28), true, 1), d(2024, 2, 29));
    assert_eq!(date_shifted_by(&d(2025, 1, 1), false, 1), d(2024, 12, 31));
}

#[test]
fn air_date_filter_carries_the_window_bounds() {
    let filter = build_air_date_filter(&Some(d(2025, 10, 13))).unwrap();
    assert_eq!(filter.0, ">=2025-07-05");
    assert_eq!(filter.1, "<2026-01-21");
    assert!(build_air_date_filter(&None).is_none());
}

#[test]
fn search_request_body_is_exact() {
    let filter = Some((">=2025-07-05".to_string(), "<2026-01-21".to_string()));
    assert_eq!(
        build_search_request_body("SANDA", &filter),
        "{\"keyword\":\"SANDA\",\"sort\":\"rank\",\"filter\":{\"type\":[2],\"air_date\":[\">=2025-07-05\",\"<2026-01-21\"]}}"
    );
    assert_eq!(
        build_search_request_body("a\"b\\c", &None),
        "{\"keyword\":\"a\\\"b\\\\c\",\"sort\":\"rank\",\"filter\":{\"type\":[2]}}"
    );
}

#[test]
fn chat_request_body_escapes_the_prompt() {
    assert_eq!(
        build_chat_request_body("deepseek-chat", "hi \"there\"\n"),
        "{\"model\":\"deepseek-chat\",\"messages\":[{\"role\":\"user\",\"content\":\"hi \\\"there\\\"\\n\"}]}"
    );
}

#[test]
fn parses_both_plain_date_forms() {
    assert_eq!(parse_date_iso("2025-10-13"), Some(d(2025, 10, 13)));
    assert_eq!(parse_date_iso("2025-2-3"), Some(d(2025, 2, 3)));
    assert_eq!(parse_date_iso("2025-02-30"), None);
    assert_eq!(parse_date_iso("2025-10-13x"), None);
    assert_eq!(parse_date_cjk("2025年10月13日"), Some(d(2025, 10, 13)));
    assert_eq!(parse_date_cjk("2025-10-13"), None);
}

#[test]
fn air_date_from_listing_text() {
    assert_eq!(parse_air_date("2025/09/01(火)"), Some(d(2025, 9, 1)));
    assert_eq!(parse_air_date("2025/9/1"), Some(d(2025, 9, 1)));
    assert_eq!(parse_air_date("放送 2025/09/01(火) 開始"), Some(d(2025, 9, 1)));
    assert_eq!(parse_air_date("2025年10月"), Some(d(2025, 10, 1)));
    assert_eq!(parse_air_date("2025/10"), Some(d(2025, 10, 1)));
    assert_eq!(parse_air_date("未定"), None);
    assert_eq!(parse_air_date("2025/02/30"), None);
}

#[test]
fn undetermined_dates_are_recognized() {
    assert!(is_undetermined_date("未定"));
    assert!(is_undetermined_date("2025年10月"));
    assert!(!is_undetermined_date("2025/10/1"));
    assert!(!is_undetermined_date("2025/09/01(火)"));
}

#[test]
fn season_name_from_table_title() {
    assert_eq!(extract_season_name_from_table_title("2025年10月新番表", 2000, 1), "2025年10月新番");
    assert_eq!(extract_season_name_from_table_title("2025年04月", 2000, 1), "2025年04月新番");
    assert_eq!(extract_season_name_from_table_title("2025年秋アニメ", 2000, 1), "2025年10月新番");
    assert_eq!(extract_season_name_from_table_title("2025年 春の新作", 2000, 1), "2025年04月新番");
    // No pattern: fall back to the current quarter.
    assert_eq!(extract_season_name_from_table_title("アニメ一覧", 2025, 11), "2025年10月新番");
    assert_eq!(extract_season_name_from_table_title("アニメ一覧", 2025, 2), "2025年01月新番");
}

#[test]
fn table_rows_become_works() {
    let header = vec!["作品名".to_string(), "放送開始日".to_string()];
    let rows = vec![
        vec!["タイトルA".to_string(), "2025/10/01(水)".to_string()],
        vec!["タイトルB".to_string(), "未定".to_string()],
        vec!["".to_string(), "2025/10/02(木)".to_string()],
        vec!["タイトルC".to_string(), "2025/12/20(土)".to_string()],
    ];
    let works = parse_table_works(&header, &rows);
    assert_eq!(works.len(), 2);
    assert_eq!(works[0].original_title, "タイトルA");
    assert_eq!(works[0].cleaned_title, "タイトルA");
    assert_eq!(works[0].air_date, Some(d(2025, 10, 1)));
    assert!(works[0].keywords.is_empty());
    assert_eq!(works[1].original_title, "タイトルC");
    assert_eq!(works[1].air_date, Some(d(2025, 12, 20)));
}

#[test]
fn header_columns_are_found_by_name() {
    let header = vec!["No.".to_string(), "放送開始日".to_string(), "作品名タイトル".to_string()];
    let rows = vec![vec!["1".to_string(), "2025/10/01(水)".to_string(), "X".to_string()]];
    let works = parse_table_works(&header, &rows);
    assert_eq!(works.len(), 1);
    assert_eq!(works[0].original_title, "X");
}

#[test]
fn contains_is_substring_search() {
    assert!(text_contains("abc作品名xyz", "作品名"));
    assert!(!text_contains("abc", "作品名"));
    assert!(text_contains("anything", ""));
}

#[test]
fn aliases_come_out_of_the_info_block_in_order() {
    let infobox = vec![
        BangumiInfoboxItem {
            key: "别名".to_string(),
            value: InfoValue::List(vec![
                InfoEntry::Text("a".to_string()),
                InfoEntry::Labeled("b".to_string()),
                InfoEntry::Other,
            ]),
        },
        BangumiInfoboxItem { key: "导演".to_string(), value: InfoValue::Text("ignored".to_string()) },
        BangumiInfoboxItem { key: "中文名".to_string(), value: InfoValue::Text("c".to_string()) },
    ];
    assert_eq!(extract_aliases_from_infobox(&infobox), vec!["a", "b", "c"]);
}

#[test]
fn air_date_prefers_the_top_level_field() {
    let subject = BangumiSubject {
        id: 7,
        name: "名前".to_string(),
        name_cn: "名字".to_string(),
        date: Some("2025年10月13日".to_string()),
        infobox: vec![BangumiInfoboxItem {
            key: "放送开始".to_string(),
            value: InfoValue::Text("1999-01-01".to_string()),
        }],
    };
    assert_eq!(extract_air_date_from_subject(&subject), Some(d(2025, 10, 13)));
    let fallback = BangumiSubject { date: Some("someday".to_string()), ..subject };
    assert_eq!(extract_air_date_from_subject(&fallback), Some(d(1999, 1, 1)));
}

#[test]
fn candidate_from_subject_rerenders_the_date() {
    let subject = BangumiSubject {
        id: 564421,
        name: "異世界かるてっと3".to_string(),
        name_cn: "异世界四重奏3".to_string(),
        date: Some("2025年10月13日".to_string()),
        infobox: vec![BangumiInfoboxItem {
            key: "别名".to_string(),
            value: InfoValue::Text("Isekai Quartet 3".to_string()),
        }],
    };
    let c = CandidateWork::from_subject(&subject);
    assert_eq!(c.bangumi_id, 564421);
    assert_eq!(c.japanese_title, "異世界かるてっと3");
    assert_eq!(c.chinese_title, "异世界四重奏3");
    assert_eq!(c.aliases, vec!["Isekai Quartet 3".to_string()]);
    assert_eq!(c.air_date.as_deref(), Some("2025-10-13"));
}

#[test]
fn infobox_air_date_skips_unreadable_items() {
    let infobox = vec![
        BangumiInfoboxItem { key: "开始".to_string(), value: InfoValue::Text("nope".to_string()) },
        BangumiInfoboxItem { key: "开始".to_string(), value: InfoValue::Text("2025-04-06".to_string()) },
    ];
    assert_eq!(extract_air_date_from_infobox(&infobox), Some(d(2025, 4, 6)));
    assert_eq!(extract_air_date_from_infobox(&Vec::new()), None);
}

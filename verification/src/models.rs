//! The data model of the pipeline: works to resolve, catalog records,
//! configuration, and the wire shapes of the AI chat endpoint, all as plain
//! values.

use crate::dates::Date;
use vstd::prelude::*;
use vstd::string::StringExecFns;

verus! {

/// The listing sites the program knows how to process.
#[derive(Debug, Clone, PartialEq, Eq)]
pub enum SiteType {
    Kansou,
}

impl SiteType {
    /// The site's lower-case wire name.
    pub fn name(&self) -> (r: String)
        ensures
            self matches SiteType::Kansou ==> r@ == "kansou"@,
    {
        match self {
            SiteType::Kansou => "kansou".to_owned(),
        }
    }
}

/// Reads a site name, ASCII case aside; an unknown name is reported in the
/// error, prefixed as the configuration loader words it.
pub fn parse_site_type(s: &str) -> (r: Result<SiteType, String>)
    ensures
        match r {
            Ok(t) => t matches SiteType::Kansou && crate::text::spec_eq_ignore_ascii_case(
                s@,
                "kansou"@,
            ),
            Err(e) => !crate::text::spec_eq_ignore_ascii_case(s@, "kansou"@) && e@
                == "不支持的站点类型: "@ + s@,
        },
{
    if crate::text::eq_ignore_ascii_case(s, "kansou") {
        Ok(SiteType::Kansou)
    } else {
        let mut e = String::from_str("不支持的站点类型: ");
        e.append(s);
        Err(e)
    }
}

impl core::str::FromStr for SiteType {
    type Err = String;

    fn from_str(s: &str) -> Result<SiteType, String> {
        parse_site_type(s)
    }
}

/// The AI backends the pipeline can be configured with; a closed set, so an
/// unsupported provider cannot reach a call site.
#[derive(Debug, Clone, PartialEq, Eq)]
pub enum AiProvider {
    DeepSeek,
}

impl AiProvider {
    /// The provider's lower-case wire name.
    pub fn name(&self) -> (r: String)
        ensures
            self matches AiProvider::DeepSeek ==> r@ == "deepseek"@,
    {
        match self {
            AiProvider::DeepSeek => "deepseek".to_owned(),
        }
    }
}

/// One run's configuration: which site to process and where downloads go.
#[derive(Debug, Clone)]
pub struct Task {
    pub description: String,
    pub site: SiteType,
    pub root_path: String,
}

/// A table scraped from the listing page, with the heading found next to it.
#[derive(Debug, Clone)]
pub struct TableInfo {
    pub title: String,
    pub table_html: String,
}

/// One scraped work: the raw title, the cleaned title and keyword variants
/// from the title-cleaning stage, and the air date read from the listing.
#[derive(Debug, Clone, PartialEq, Eq)]
pub struct AnimeWork {
    pub original_title: String,
    pub cleaned_title: String,
    pub air_date: Option<Date>,
    pub keywords: Vec<String>,
}

/// Whether two works carry the same values, field by field.
pub open spec fn same_work(a: AnimeWork, b: AnimeWork) -> bool {
    &&& a.original_title@ == b.original_title@
    &&& a.cleaned_title@ == b.cleaned_title@
    &&& a.air_date == b.air_date
    &&& a.keywords.deep_view() == b.keywords.deep_view()
}

/// The pipeline's final per-work record: the work's own values plus the
/// resolved catalog identity, or `None` for the explicit no-match outcome.
#[derive(Debug, Clone, PartialEq, Eq)]
pub struct BangumiResult {
    pub original_title: String,
    pub cleaned_title: String,
    pub bangumi_id: Option<u32>,
    pub chinese_name: Option<String>,
    pub aliases: Vec<String>,
    pub air_date: Option<Date>,
    pub keywords: Vec<String>,
}

/// Counters reported at the end of a run.
#[derive(Debug, Clone, PartialEq, Eq)]
pub struct Statistics {
    pub total_works_from_table: usize,
    pub works_with_undetermined_date: usize,
    pub works_processed_by_ai: usize,
    pub works_with_bangumi_info: usize,
    pub works_without_bangumi_info: usize,
    pub qb_rules_generated: usize,
    pub qb_rules_failed: usize,
    pub ai_requests_count: usize,
    pub ai_input_tokens: usize,
    pub ai_output_tokens: usize,
}

impl Statistics {
    /// A fresh report with every counter at zero.
    pub fn new() -> (r: Statistics)
        ensures
            r == (Statistics {
                total_works_from_table: 0,
                works_with_undetermined_date: 0,
                works_processed_by_ai: 0,
                works_with_bangumi_info: 0,
                works_without_bangumi_info: 0,
                qb_rules_generated: 0,
                qb_rules_failed: 0,
                ai_requests_count: 0,
                ai_input_tokens: 0,
                ai_output_tokens: 0,
            }),
    {
        Statistics {
            total_works_from_table: 0,
            works_with_undetermined_date: 0,
            works_processed_by_ai: 0,
            works_with_bangumi_info: 0,
            works_without_bangumi_info: 0,
            qb_rules_generated: 0,
            qb_rules_failed: 0,
            ai_requests_count: 0,
            ai_input_tokens: 0,
            ai_output_tokens: 0,
        }
    }

    /// Adds one request's token usage, saturating rather than overflowing.
    pub fn record_usage(&mut self, prompt_tokens: usize, completion_tokens: usize)
        ensures
            final(self).ai_requests_count == old(self).ai_requests_count + 1
                || final(self).ai_requests_count == usize::MAX,
            final(self).ai_input_tokens == old(self).ai_input_tokens + prompt_tokens
                || final(self).ai_input_tokens == usize::MAX,
            final(self).ai_output_tokens == old(self).ai_output_tokens + completion_tokens
                || final(self).ai_output_tokens == usize::MAX,
            final(self).total_works_from_table == old(self).total_works_from_table,
            final(self).works_with_undetermined_date == old(self).works_with_undetermined_date,
            final(self).works_processed_by_ai == old(self).works_processed_by_ai,
            final(self).works_with_bangumi_info == old(self).works_with_bangumi_info,
            final(self).works_without_bangumi_info == old(self).works_without_bangumi_info,
            final(self).qb_rules_generated == old(self).qb_rules_generated,
            final(self).qb_rules_failed == old(self).qb_rules_failed,
    {
        self.ai_requests_count = self.ai_requests_count.saturating_add(1);
        self.ai_input_tokens = self.ai_input_tokens.saturating_add(prompt_tokens);
        self.ai_output_tokens = self.ai_output_tokens.saturating_add(completion_tokens);
    }
}

/// Which backend to call, with which model, at which endpoint.
#[derive(Debug, Clone)]
pub struct AiConfig {
    pub provider: AiProvider,
    pub model: String,
    pub api_url: String,
}

impl AiConfig {
    /// The stock DeepSeek configuration.
    pub fn deepseek() -> (r: AiConfig)
        ensures
            r.provider matches AiProvider::DeepSeek,
            r.model@ == "deepseek-chat"@,
            r.api_url@ == "https://api.deepseek.com/v1/chat/completions"@,
    {
        AiConfig {
            provider: AiProvider::DeepSeek,
            model: "deepseek-chat".to_owned(),
            api_url: "https://api.deepseek.com/v1/chat/completions".to_owned(),
        }
    }
}

/// A chat-completion request: one model name and the messages to send.
#[derive(Debug, Clone)]
pub struct AiRequest {
    pub model: String,
    pub messages: Vec<AiMessage>,
}

/// One chat message of a request.
#[derive(Debug, Clone)]
pub struct AiMessage {
    pub role: String,
    pub content: String,
}

/// The parts of a chat-completion response the pipeline reads.
#[derive(Debug, Clone)]
pub struct AiResponse {
    pub choices: Vec<AiChoice>,
    pub usage: Option<AiUsage>,
}

/// Token accounting attached to a response.
#[derive(Debug, Clone, PartialEq, Eq)]
pub struct AiUsage {
    pub prompt_tokens: usize,
    pub completion_tokens: usize,
}

/// One alternative answer of a response; the pipeline reads the first.
#[derive(Debug, Clone)]
pub struct AiChoice {
    pub message: AiChoiceMessage,
}

/// The text of one answer.
#[derive(Debug, Clone)]
pub struct AiChoiceMessage {
    pub content: String,
}

/// A catalog search call as plain values: the keyword and, when a date window
/// applies, the two bounds of the window in wire form.
#[derive(Debug, Clone)]
pub struct BangumiSearchRequest {
    pub keyword: String,
    pub air_date: Option<Vec<String>>,
}

/// A value of a catalog record's info block, reduced to the shapes the
/// pipeline reads: a plain string, a list of entries, or anything else.
#[derive(Debug, Clone, PartialEq, Eq)]
pub enum InfoValue {
    Text(String),
    List(Vec<InfoEntry>),
    Other,
}

/// One element of an info-block list: a plain string, an object carrying its
/// string under a value key, or anything else.
#[derive(Debug, Clone, PartialEq, Eq)]
pub enum InfoEntry {
    Text(String),
    Labeled(String),
    Other,
}

/// One key/value pair of a catalog record's info block.
#[derive(Debug, Clone, PartialEq, Eq)]
pub struct BangumiInfoboxItem {
    pub key: String,
    pub value: InfoValue,
}

/// One raw catalog record, as plain values.
#[derive(Debug, Clone, PartialEq, Eq)]
pub struct BangumiSubject {
    pub id: u32,
    pub name: String,
    pub name_cn: String,
    pub date: Option<String>,
    pub infobox: Vec<BangumiInfoboxItem>,
}

/// One qBittorrent RSS download rule, as plain values.
#[derive(Debug, Clone, PartialEq, Eq)]
pub struct QBRule {
    pub affected_feeds: Vec<String>,
    pub assigned_category: String,
    pub enabled: bool,
    pub episode_filter: String,
    pub ignore_days: u32,
    pub last_match: String,
    pub must_contain: String,
    pub must_not_contain: String,
    pub previously_matched_episodes: Vec<String>,
    pub priority: i32,
    pub save_path: String,
    pub smart_filter: bool,
    pub torrent_params: TorrentParams,
    pub use_regex: bool,
}

/// The torrent-handling parameters of one rule.
#[derive(Debug, Clone, PartialEq, Eq)]
pub struct TorrentParams {
    pub category: String,
    pub download_limit: i32,
    pub download_path: String,
    pub inactive_seeding_time_limit: i32,
    pub operating_mode: String,
    pub ratio_limit: i32,
    pub save_path: String,
    pub seeding_time_limit: i32,
    pub share_limit_action: String,
    pub skip_checking: bool,
    pub ssl_certificate: String,
    pub ssl_dh_params: String,
    pub ssl_private_key: String,
    pub tags: Vec<String>,
    pub upload_limit: i32,
    pub use_auto_tmm: bool,
}

/// What rule generation hands back: the rules keyed by rule name — later
/// rules replacing earlier ones of the same name — and the works no rule
/// could be produced for, with the reason.
#[derive(Debug, Clone, PartialEq, Eq)]
pub struct RuleGenerationResult {
    pub rules: Vec<(String, QBRule)>,
    pub failed_works: Vec<(String, String)>,
}

} // verus!

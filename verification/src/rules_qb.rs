//! Download-rule generation over resolved records: file-name sanitizing,
//! regular-expression escaping, and the assembly of one qBittorrent rule per
//! distinct work name.

use crate::models::{BangumiResult, QBRule, RuleGenerationResult, TorrentParams};
use crate::text::{strictly_sorted_strings, trim_spec, trim_str};
use vstd::prelude::*;
use vstd::string::StrSliceExecFns;
use vstd::string::StringExecFns;

verus! {

/// How one character of a work name appears in a file name: the characters
/// Windows file names refuse are replaced by their full-width lookalikes.
pub open spec fn spec_sanitize_char(c: char) -> char {
    if c == '/' {
        '／'
    } else if c == '\\' {
        '＼'
    } else if c == ':' {
        '：'
    } else if c == '*' {
        '＊'
    } else if c == '?' {
        '？'
    } else if c == '"' {
        '＂'
    } else if c == '<' {
        '＜'
    } else if c == '>' {
        '＞'
    } else if c == '|' {
        '｜'
    } else {
        c
    }
}

pub open spec fn spec_replace_illegal(s: Seq<char>) -> Seq<char> {
    Seq::new(s.len(), |i: int| spec_sanitize_char(s[i]))
}

/// A work name fit for a file name: the refused characters replaced by
/// full-width ones, surrounding whitespace trimmed, and a fallback name when
/// nothing is left.
pub open spec fn spec_sanitize_work_name(s: Seq<char>) -> Seq<char> {
    let t = trim_spec(spec_replace_illegal(s));
    if t.len() == 0 {
        "Unknown_Work"@
    } else {
        t
    }
}

fn push_sanitized_char(out: &mut String, s: &str, i: usize)
    requires
        i < s@.len(),
    ensures
        final(out)@ == old(out)@.push(spec_sanitize_char(s@[i as int])),
{
    let _n = s.unicode_len();
    let c = s.get_char(i);
    if c == '/' {
        out.append("／");
        proof {
            reveal_strlit("／");
        }
    } else if c == '\\' {
        out.append("＼");
        proof {
            reveal_strlit("＼");
        }
    } else if c == ':' {
        out.append("：");
        proof {
            reveal_strlit("：");
        }
    } else if c == '*' {
        out.append("＊");
        proof {
            reveal_strlit("＊");
        }
    } else if c == '?' {
        out.append("？");
        proof {
            reveal_strlit("？");
        }
    } else if c == '"' {
        out.append("＂");
        proof {
            reveal_strlit("＂");
        }
    } else if c == '<' {
        out.append("＜");
        proof {
            reveal_strlit("＜");
        }
    } else if c == '>' {
        out.append("＞");
        proof {
            reveal_strlit("＞");
        }
    } else if c == '|' {
        out.append("｜");
        proof {
            reveal_strlit("｜");
        }
    } else {
        let one = s.substring_char(i, i + 1);
        out.append(one);
        proof {
            assert(one@ =~= seq![c]);
        }
    }
    proof {
        assert(final(out)@ =~= old(out)@.push(spec_sanitize_char(s@[i as int])));
    }
}

/// Makes a work name usable as a file name: illegal characters become their
/// full-width lookalikes, outer whitespace goes, and an empty result falls
/// back to a fixed name.
pub fn sanitize_work_name(work_name: &str) -> (r: String)
    ensures
        r@ == spec_sanitize_work_name(work_name@),
{
    let n = work_name.unicode_len();
    let mut replaced = String::new();
    let mut i: usize = 0;
    while i < n
        invariant
            i <= n,
            n == work_name@.len(),
            replaced@ =~= spec_replace_illegal(work_name@.take(i as int)),
        decreases n - i,
    {
        push_sanitized_char(&mut replaced, work_name, i);
        proof {
            assert(replaced@ =~= spec_replace_illegal(work_name@.take(i + 1)));
        }
        i = i + 1;
    }
    proof {
        assert(work_name@.take(n as int) =~= work_name@);
        assert(spec_replace_illegal(work_name@.take(n as int)) =~= spec_replace_illegal(
            work_name@,
        ));
    }
    let trimmed = trim_str(replaced.as_str());
    if trimmed.as_str().unicode_len() == 0 {
        proof {
            reveal_strlit("Unknown_Work");
        }
        String::from_str("Unknown_Work")
    } else {
        trimmed
    }
}

/// The characters a regular expression gives meaning to, each of which the
/// escaper must precede with a backslash.
pub open spec fn is_regex_meta(c: char) -> bool {
    c == '\\' || c == '.' || c == '+' || c == '*' || c == '?' || c == '(' || c == ')' || c == '|'
        || c == '[' || c == ']' || c == '{' || c == '}' || c == '^' || c == '$' || c == '#'
        || c == '&' || c == '-' || c == '~'
}

pub open spec fn spec_regex_escape_char(c: char) -> Seq<char> {
    if is_regex_meta(c) {
        seq!['\\', c]
    } else {
        seq![c]
    }
}

/// A text with every regex metacharacter escaped, so it matches itself.
pub open spec fn spec_regex_escape(s: Seq<char>) -> Seq<char>
    decreases s.len(),
{
    if s.len() == 0 {
        Seq::empty()
    } else {
        spec_regex_escape(s.drop_last()) + spec_regex_escape_char(s.last())
    }
}

/// Appends `s` to `out` with every regex metacharacter escaped.
pub fn push_regex_escaped(out: &mut String, s: &str)
    ensures
        final(out)@ == old(out)@ + spec_regex_escape(s@),
{
    let n = s.unicode_len();
    let mut i: usize = 0;
    while i < n
        invariant
            i <= n,
            n == s@.len(),
            out@ == old(out)@ + spec_regex_escape(s@.take(i as int)),
        decreases n - i,
    {
        let c = s.get_char(i);
        let meta = c == '\\' || c == '.' || c == '+' || c == '*' || c == '?' || c == '(' || c
            == ')' || c == '|' || c == '[' || c == ']' || c == '{' || c == '}' || c == '^' || c
            == '$' || c == '#' || c == '&' || c == '-' || c == '~';
        if meta {
            out.append("\\");
            proof {
                reveal_strlit("\\");
            }
        }
        let one = s.substring_char(i, i + 1);
        out.append(one);
        proof {
            reveal_strlit("\\");
            assert(one@ =~= seq![c]);
            assert(s@.take(i + 1).drop_last() =~= s@.take(i as int));
            assert(s@.take(i + 1).last() == s@[i as int]);
            assert(out@ =~= old(out)@ + spec_regex_escape(s@.take(i + 1)));
        }
        i = i + 1;
    }
    proof {
        assert(s@.take(n as int) =~= s@);
    }
}

/// The alternation of the escaped names, in list order, `|`-separated.
pub open spec fn spec_escaped_alternation(names: Seq<Seq<char>>, i: int) -> Seq<char>
    decreases names.len() - i,
{
    if i < 0 || i >= names.len() {
        Seq::empty()
    } else {
        (if i > 0 {
            "|"@
        } else {
            Seq::empty()
        }) + spec_regex_escape(names[i]) + spec_escaped_alternation(names, i + 1)
    }
}

/// Appends the `|`-joined, regex-escaped name list to `out`.
pub fn push_escaped_alternation(out: &mut String, names: &Vec<String>)
    ensures
        final(out)@ == old(out)@ + spec_escaped_alternation(names.deep_view(), 0),
{
    let ghost ns = names.deep_view();
    let mut i: usize = 0;
    while i < names.len()
        invariant
            i <= ns.len(),
            ns == names.deep_view(),
            ns.len() == names@.len(),
            out@ + spec_escaped_alternation(ns, i as int) =~= old(out)@
                + spec_escaped_alternation(ns, 0),
        decreases ns.len() - i,
    {
        proof {
            assert(ns[i as int] == names@[i as int]@);
        }
        if i > 0 {
            out.append("|");
        }
        push_regex_escaped(out, names[i].as_str());
        proof {
            assert(out@ + spec_escaped_alternation(ns, i + 1) =~= old(out)@
                + spec_escaped_alternation(ns, 0));
        }
        i = i + 1;
    }
    proof {
        assert(spec_escaped_alternation(ns, ns.len() as int) =~= Seq::<char>::empty());
        assert(final(out)@ =~= old(out)@ + spec_escaped_alternation(ns, 0));
    }
}

/// The name a rule is built around: the Chinese name when the catalog gave
/// one, the cleaned title otherwise.
pub open spec fn spec_work_name(res: BangumiResult) -> Seq<char> {
    match res.chinese_name {
        Some(n) => n@,
        None => res.cleaned_title@,
    }
}

/// Every name a rule should match for this record: the work name itself,
/// then — when the record resolved — the aliases and the cleaned title, or
/// — when it did not — the generated keywords.
pub open spec fn spec_rule_name_set(res: BangumiResult) -> Set<Seq<char>> {
    if res.bangumi_id is Some {
        res.aliases.deep_view().to_set().insert(spec_work_name(res)).insert(res.cleaned_title@)
    } else {
        res.keywords.deep_view().to_set().insert(spec_work_name(res))
    }
}

/// The names of one record's rule, canonicalized: duplicates dropped and the
/// list in ascending order (by `lemma_sorted_unique` the list the set pins
/// down is unique).
pub fn collect_rule_names(res: &BangumiResult) -> (r: Vec<String>)
    ensures
        strictly_sorted_strings(r.deep_view()),
        r.deep_view().to_set() == spec_rule_name_set(*res),
{
    let mut names: Vec<String> = Vec::new();
    let work_name = match &res.chinese_name {
        Some(n) => n.clone(),
        None => res.cleaned_title.clone(),
    };
    crate::bangumi::insert_term(&mut names, work_name);
    if res.bangumi_id.is_some() {
        let mut i: usize = 0;
        while i < res.aliases.len()
            invariant
                i <= res.aliases@.len(),
                strictly_sorted_strings(names.deep_view()),
                names.deep_view().to_set() =~= res.aliases.deep_view().take(
                    i as int,
                ).to_set().insert(spec_work_name(*res)),
            decreases res.aliases@.len() - i,
        {
            let ghost before = names.deep_view().to_set();
            crate::bangumi::insert_term(&mut names, res.aliases[i].clone());
            proof {
                let ad = res.aliases.deep_view();
                assert(ad[i as int] == res.aliases@[i as int]@);
                assert forall|x: Seq<char>| ad.take(i + 1).to_set().contains(x) implies before.insert(
                    ad[i as int],
                ).contains(x) by {
                    let k = choose|k: int|
                        0 <= k < ad.take(i + 1).len() && #[trigger] ad.take(i + 1)[k] == x;
                    if k < i {
                        assert(ad.take(i as int)[k] == x);
                    }
                }
                assert forall|x: Seq<char>| before.insert(ad[i as int]).contains(x) implies ad.take(
                    i + 1,
                ).to_set().insert(spec_work_name(*res)).contains(x) by {
                    if x == ad[i as int] {
                        assert(ad.take(i + 1)[i as int] == x);
                    } else if x != spec_work_name(*res) {
                        let k = choose|k: int|
                            0 <= k < ad.take(i as int).len() && #[trigger] ad.take(i as int)[k]
                                == x;
                        assert(ad.take(i + 1)[k] == x);
                    }
                }
                assert(names.deep_view().to_set() =~= ad.take(i + 1).to_set().insert(
                    spec_work_name(*res),
                ));
            }
            i = i + 1;
        }
        proof {
            assert(res.aliases.deep_view().take(res.aliases@.len() as int)
                =~= res.aliases.deep_view());
        }
        crate::bangumi::insert_term(&mut names, res.cleaned_title.clone());
        proof {
            assert(names.deep_view().to_set() =~= spec_rule_name_set(*res));
        }
    } else {
        let mut i: usize = 0;
        while i < res.keywords.len()
            invariant
                i <= res.keywords@.len(),
                strictly_sorted_strings(names.deep_view()),
                names.deep_view().to_set() =~= res.keywords.deep_view().take(
                    i as int,
                ).to_set().insert(spec_work_name(*res)),
            decreases res.keywords@.len() - i,
        {
            let ghost before = names.deep_view().to_set();
            crate::bangumi::insert_term(&mut names, res.keywords[i].clone());
            proof {
                let kd = res.keywords.deep_view();
                assert(kd[i as int] == res.keywords@[i as int]@);
                assert forall|x: Seq<char>| kd.take(i + 1).to_set().contains(x) implies before.insert(
                    kd[i as int],
                ).contains(x) by {
                    let k = choose|k: int|
                        0 <= k < kd.take(i + 1).len() && #[trigger] kd.take(i + 1)[k] == x;
                    if k < i {
                        assert(kd.take(i as int)[k] == x);
                    }
                }
                assert forall|x: Seq<char>| before.insert(kd[i as int]).contains(x) implies kd.take(
                    i + 1,
                ).to_set().insert(spec_work_name(*res)).contains(x) by {
                    if x == kd[i as int] {
                        assert(kd.take(i + 1)[i as int] == x);
                    } else if x != spec_work_name(*res) {
                        let k = choose|k: int|
                            0 <= k < kd.take(i as int).len() && #[trigger] kd.take(i as int)[k]
                                == x;
                        assert(kd.take(i + 1)[k] == x);
                    }
                }
                assert(names.deep_view().to_set() =~= kd.take(i + 1).to_set().insert(
                    spec_work_name(*res),
                ));
            }
            i = i + 1;
        }
        proof {
            assert(res.keywords.deep_view().take(res.keywords@.len() as int)
                =~= res.keywords.deep_view());
            assert(names.deep_view().to_set() =~= spec_rule_name_set(*res));
        }
    }
    names
}

/// A path with every backslash turned forward.
pub open spec fn spec_forward_slashes(s: Seq<char>) -> Seq<char> {
    Seq::new(s.len(), |i: int| if s[i] == '\\' { '/' } else { s[i] })
}

fn forward_slashes(s: &str) -> (r: String)
    ensures
        r@ == spec_forward_slashes(s@),
{
    let n = s.unicode_len();
    let mut out = String::new();
    let mut i: usize = 0;
    while i < n
        invariant
            i <= n,
            n == s@.len(),
            out@ =~= spec_forward_slashes(s@.take(i as int)),
        decreases n - i,
    {
        let c = s.get_char(i);
        if c == '\\' {
            out.append("/");
            proof {
                reveal_strlit("/");
            }
        } else {
            let one = s.substring_char(i, i + 1);
            out.append(one);
            proof {
                assert(one@ =~= seq![c]);
            }
        }
        proof {
            assert(out@ =~= spec_forward_slashes(s@.take(i + 1)));
        }
        i = i + 1;
    }
    proof {
        assert(s@.take(n as int) =~= s@);
    }
    out
}

/// What the rule built for one record must hold, given the run's root path
/// and season name.
pub open spec fn spec_rule_matches(
    rule: QBRule,
    res: BangumiResult,
    root: Seq<char>,
    season: Seq<char>,
) -> bool {
    let save_path = root + "\\"@ + season + "\\"@ + spec_sanitize_work_name(spec_work_name(res));
    &&& rule.affected_feeds.deep_view() =~= seq![
        "https://acg.rip/1.xml"@,
        "https://nyaa.si/?page=rss&c=1_4"@,
        "https://acg.rip/page/6.xml?term=jibaketa+kiratto]"@,
        "https://share.dmhy.org/topics/rss/sort_id/2/rss.xml"@,
    ]
    &&& rule.assigned_category@ == "Anime/"@ + season
    &&& rule.enabled
    &&& rule.episode_filter@ == Seq::<char>::empty()
    &&& rule.ignore_days == 0
    &&& rule.last_match@ == "05 Aug 2025 16:59:34 +0000"@
    &&& (exists|names: Seq<Seq<char>>|
        {
            &&& strictly_sorted_strings(names)
            &&& names.to_set() == spec_rule_name_set(res)
            &&& rule.must_contain@ == ".+("@ + #[trigger] spec_escaped_alternation(names, 0)
                + ").+((1080|2160|WebRip).+(CHS|CHT|GB|BIG5|简|繁|B-Global|Baha|bilibili|CR|Sentai|x264\\sAAC|无字幕)|(CHS|CHT|GB|BIG5|简|繁|B-Global|Baha|bilibili|CR|Sentai|x264\\sAAC|无字幕).+(1080|2160|WebRip)).+"@
        })
    &&& rule.must_not_contain@ == ".+01\\-.+|.+合集.+|.+先行.+|.+\\[V0.+|.+全集.+"@
    &&& rule.previously_matched_episodes.deep_view() =~= Seq::<Seq<char>>::empty()
    &&& rule.priority == 0
    &&& rule.save_path@ == save_path
    &&& !rule.smart_filter
    &&& rule.torrent_params.category@ == "Anime/"@ + season
    &&& rule.torrent_params.download_limit == -1
    &&& rule.torrent_params.download_path@ == Seq::<char>::empty()
    &&& rule.torrent_params.inactive_seeding_time_limit == -2
    &&& rule.torrent_params.operating_mode@ == "AutoManaged"@
    &&& rule.torrent_params.ratio_limit == -2
    &&& rule.torrent_params.save_path@ == spec_forward_slashes(save_path)
    &&& rule.torrent_params.seeding_time_limit == -2
    &&& rule.torrent_params.share_limit_action@ == "Default"@
    &&& !rule.torrent_params.skip_checking
    &&& rule.torrent_params.ssl_certificate@ == Seq::<char>::empty()
    &&& rule.torrent_params.ssl_dh_params@ == Seq::<char>::empty()
    &&& rule.torrent_params.ssl_private_key@ == Seq::<char>::empty()
    &&& rule.torrent_params.tags.deep_view() =~= Seq::<Seq<char>>::empty()
    &&& rule.torrent_params.upload_limit == -1
    &&& !rule.torrent_params.use_auto_tmm
    &&& rule.use_regex
}

/// The key one record's rule is stored under.
pub open spec fn spec_rule_name(res: BangumiResult, season: Seq<char>) -> Seq<char> {
    season + " "@ + spec_work_name(res)
}

/// Builds the one download rule for a record.
pub fn build_qb_rule(res: &BangumiResult, root_path: &str, season_name: &str) -> (r: (
    String,
    QBRule,
))
    ensures
        r.0@ == spec_rule_name(*res, season_name@),
        spec_rule_matches(r.1, *res, root_path@, season_name@),
{
    let work_name = match &res.chinese_name {
        Some(n) => n.clone(),
        None => res.cleaned_title.clone(),
    };
    let names = collect_rule_names(res);
    let mut must_contain = String::from_str(".+(");
    push_escaped_alternation(&mut must_contain, &names);
    must_contain.append(
        ").+((1080|2160|WebRip).+(CHS|CHT|GB|BIG5|简|繁|B-Global|Baha|bilibili|CR|Sentai|x264\\sAAC|无字幕)|(CHS|CHT|GB|BIG5|简|繁|B-Global|Baha|bilibili|CR|Sentai|x264\\sAAC|无字幕).+(1080|2160|WebRip)).+",
    );
    let sanitized = sanitize_work_name(work_name.as_str());
    let mut save_path = String::from_str(root_path);
    save_path.append("\\");
    save_path.append(season_name);
    save_path.append("\\");
    save_path.append(sanitized.as_str());
    let save_path_forward = forward_slashes(save_path.as_str());
    let mut category = String::from_str("Anime/");
    category.append(season_name);
    let mut rule_name = String::from_str(season_name);
    rule_name.append(" ");
    rule_name.append(work_name.as_str());
    let mut feeds: Vec<String> = Vec::new();
    feeds.push(String::from_str("https://acg.rip/1.xml"));
    feeds.push(String::from_str("https://nyaa.si/?page=rss&c=1_4"));
    feeds.push(String::from_str("https://acg.rip/page/6.xml?term=jibaketa+kiratto]"));
    feeds.push(String::from_str("https://share.dmhy.org/topics/rss/sort_id/2/rss.xml"));
    proof {
        assert(feeds.deep_view() =~= seq![
            "https://acg.rip/1.xml"@,
            "https://nyaa.si/?page=rss&c=1_4"@,
            "https://acg.rip/page/6.xml?term=jibaketa+kiratto]"@,
            "https://share.dmhy.org/topics/rss/sort_id/2/rss.xml"@,
        ]);
    }
    let empty_tags: Vec<String> = Vec::new();
    let empty_eps: Vec<String> = Vec::new();
    proof {
        assert(empty_tags.deep_view() =~= Seq::<Seq<char>>::empty());
        assert(empty_eps.deep_view() =~= Seq::<Seq<char>>::empty());
    }
    let rule = QBRule {
        affected_feeds: feeds,
        assigned_category: category.clone(),
        enabled: true,
        episode_filter: String::new(),
        ignore_days: 0,
        last_match: String::from_str("05 Aug 2025 16:59:34 +0000"),
        must_contain,
        must_not_contain: String::from_str(".+01\\-.+|.+合集.+|.+先行.+|.+\\[V0.+|.+全集.+"),
        previously_matched_episodes: empty_eps,
        priority: 0,
        save_path: save_path,
        smart_filter: false,
        torrent_params: TorrentParams {
            category: category,
            download_limit: -1,
            download_path: String::new(),
            inactive_seeding_time_limit: -2,
            operating_mode: String::from_str("AutoManaged"),
            ratio_limit: -2,
            save_path: save_path_forward,
            seeding_time_limit: -2,
            share_limit_action: String::from_str("Default"),
            skip_checking: false,
            ssl_certificate: String::new(),
            ssl_dh_params: String::new(),
            ssl_private_key: String::new(),
            tags: empty_tags,
            upload_limit: -1,
            use_auto_tmm: false,
        },
        use_regex: true,
    };
    proof {
        assert(spec_rule_matches(rule, *res, root_path@, season_name@));
    }
    (rule_name, rule)
}

/// Whether the rule list already carries a rule under this name.
pub open spec fn spec_has_rule_name(rules: Seq<(String, QBRule)>, name: Seq<char>) -> bool {
    exists|k: int| 0 <= k < rules.len() && rules[k].0@ == name
}

/// Whether a rule entry is exactly the rule of the last record bearing its
/// name: later records with the same work name replace earlier rules.
pub open spec fn spec_rule_from_latest_record(
    entry: (String, QBRule),
    results: Seq<BangumiResult>,
    root: Seq<char>,
    season: Seq<char>,
) -> bool {
    exists|i: int|
        {
            &&& 0 <= i < results.len()
            &&& entry.0@ == spec_rule_name(#[trigger] results[i], season)
            &&& spec_rule_matches(entry.1, results[i], root, season)
            &&& forall|j: int|
                i < j < results.len() ==> spec_rule_name(#[trigger] results[j], season)
                    != entry.0@
        }
}

/// A rule still comes from the latest name-bearing record after one more
/// record with a different rule name is taken into view.
proof fn lemma_latest_extends(
    entry: (String, QBRule),
    results: Seq<BangumiResult>,
    i: int,
    root: Seq<char>,
    season: Seq<char>,
)
    requires
        spec_rule_from_latest_record(entry, results.take(i), root, season),
        0 <= i < results.len(),
        spec_rule_name(results[i], season) != entry.0@,
    ensures
        spec_rule_from_latest_record(entry, results.take(i + 1), root, season),
{
    let w = choose|w: int|
        {
            &&& 0 <= w < results.take(i).len()
            &&& entry.0@ == spec_rule_name(#[trigger] results.take(i)[w], season)
            &&& spec_rule_matches(entry.1, results.take(i)[w], root, season)
            &&& forall|j: int|
                w < j < results.take(i).len() ==> spec_rule_name(
                    #[trigger] results.take(i)[j],
                    season,
                ) != entry.0@
        };
    assert(results.take(i + 1)[w] == results.take(i)[w]);
    assert forall|j: int| w < j < results.take(i + 1).len() implies spec_rule_name(
        #[trigger] results.take(i + 1)[j],
        season,
    ) != entry.0@ by {
        if j < i {
            assert(results.take(i + 1)[j] == results.take(i)[j]);
        } else {
            assert(results.take(i + 1)[j] == results[i]);
        }
    }
}

/// One download rule per distinct work name, built over all resolved
/// records: every record contributes its rule, a later record with the same
/// work name replacing the earlier rule, as a rule file keyed by name would
/// merge them.  Building a rule cannot fail here, so the failure list stays
/// empty.
pub fn generate_qb_rules(
    bangumi_results: &Vec<BangumiResult>,
    root_path: &str,
    season_name: &str,
) -> (r: RuleGenerationResult)
    ensures
        r.failed_works@.len() == 0,
        forall|k1: int, k2: int|
            0 <= k1 < k2 < r.rules@.len() ==> (#[trigger] r.rules@[k1]).0@ != (
            #[trigger] r.rules@[k2]).0@,
        forall|i: int|
            0 <= i < bangumi_results@.len() ==> spec_has_rule_name(
                r.rules@,
                spec_rule_name(#[trigger] bangumi_results@[i], season_name@),
            ),
        forall|k: int|
            0 <= k < r.rules@.len() ==> spec_rule_from_latest_record(
                #[trigger] r.rules@[k],
                bangumi_results@,
                root_path@,
                season_name@,
            ),
{
    let mut rules: Vec<(String, QBRule)> = Vec::new();
    let mut i: usize = 0;
    while i < bangumi_results.len()
        invariant
            i <= bangumi_results@.len(),
            forall|k1: int, k2: int|
                0 <= k1 < k2 < rules@.len() ==> (#[trigger] rules@[k1]).0@ != (
                #[trigger] rules@[k2]).0@,
            forall|j: int|
                0 <= j < i ==> spec_has_rule_name(
                    rules@,
                    spec_rule_name(#[trigger] bangumi_results@[j], season_name@),
                ),
            forall|k: int|
                0 <= k < rules@.len() ==> spec_rule_from_latest_record(
                    #[trigger] rules@[k],
                    bangumi_results@.take(i as int),
                    root_path@,
                    season_name@,
                ),
        decreases bangumi_results@.len() - i,
    {
        let (name, rule) = build_qb_rule(&bangumi_results[i], root_path, season_name);
        let ghost pre = rules@;
        let mut idx: Option<usize> = None;
        let mut k: usize = 0;
        while k < rules.len()
            invariant
                k <= rules@.len(),
                rules@ == pre,
                match idx {
                    None => forall|k2: int| 0 <= k2 < k ==> (#[trigger] pre[k2]).0@ != name@,
                    Some(j) => j < pre.len() && pre[j as int].0@ == name@,
                },
            decreases rules@.len() - k,
        {
            if idx.is_none() && crate::text::str_eq(rules[k].0.as_str(), name.as_str()) {
                idx = Some(k);
            }
            k = k + 1;
        }
        match idx {
            Some(j) => {
                rules[j] = (name, rule);
                proof {
                    assert(rules@ =~= pre.update(j as int, rules@[j as int]));
                    assert forall|k1: int, k2: int| 0 <= k1 < k2 < rules@.len() implies (
                    #[trigger] rules@[k1]).0@ != (#[trigger] rules@[k2]).0@ by {
                        assert(rules@[k1].0@ == pre[k1].0@);
                        assert(rules@[k2].0@ == pre[k2].0@);
                    }
                    assert forall|j2: int| 0 <= j2 < i + 1 implies spec_has_rule_name(
                        rules@,
                        spec_rule_name(#[trigger] bangumi_results@[j2], season_name@),
                    ) by {
                        if j2 < i {
                            let w = choose|w: int|
                                0 <= w < pre.len() && pre[w].0@ == spec_rule_name(
                                    bangumi_results@[j2],
                                    season_name@,
                                );
                            assert(rules@[w].0@ == pre[w].0@);
                        } else {
                            assert(rules@[j as int].0@ == spec_rule_name(
                                bangumi_results@[i as int],
                                season_name@,
                            ));
                        }
                    }
                    assert forall|k2: int| 0 <= k2 < rules@.len() implies spec_rule_from_latest_record(
                        #[trigger] rules@[k2],
                        bangumi_results@.take(i + 1),
                        root_path@,
                        season_name@,
                    ) by {
                        let prefix1 = bangumi_results@.take(i + 1);
                        assert(prefix1[i as int] == bangumi_results@[i as int]);
                        if k2 == j {
                            assert(rules@[k2].0@ == spec_rule_name(
                                prefix1[i as int],
                                season_name@,
                            ) && spec_rule_matches(
                                rules@[k2].1,
                                prefix1[i as int],
                                root_path@,
                                season_name@,
                            ));
                        } else {
                            assert(rules@[k2] == pre[k2]);
                            assert(pre[k2].0@ != pre[j as int].0@);
                            lemma_latest_extends(
                                pre[k2],
                                bangumi_results@,
                                i as int,
                                root_path@,
                                season_name@,
                            );
                        }
                    }
                }
            },
            None => {
                rules.push((name, rule));
                proof {
                    assert forall|k1: int, k2: int| 0 <= k1 < k2 < rules@.len() implies (
                    #[trigger] rules@[k1]).0@ != (#[trigger] rules@[k2]).0@ by {
                        if k2 == pre.len() {
                            assert(rules@[k1] == pre[k1]);
                            assert(rules@[k2].0@ == name@);
                        } else {
                            assert(rules@[k1] == pre[k1] && rules@[k2] == pre[k2]);
                        }
                    }
                    assert forall|j2: int| 0 <= j2 < i + 1 implies spec_has_rule_name(
                        rules@,
                        spec_rule_name(#[trigger] bangumi_results@[j2], season_name@),
                    ) by {
                        if j2 < i {
                            let w = choose|w: int|
                                0 <= w < pre.len() && pre[w].0@ == spec_rule_name(
                                    bangumi_results@[j2],
                                    season_name@,
                                );
                            assert(rules@[w].0@ == pre[w].0@);
                        } else {
                            assert(rules@[pre.len() as int].0@ == spec_rule_name(
                                bangumi_results@[i as int],
                                season_name@,
                            ));
                        }
                    }
                    assert forall|k2: int| 0 <= k2 < rules@.len() implies spec_rule_from_latest_record(
                        #[trigger] rules@[k2],
                        bangumi_results@.take(i + 1),
                        root_path@,
                        season_name@,
                    ) by {
                        let prefix1 = bangumi_results@.take(i + 1);
                        assert(prefix1[i as int] == bangumi_results@[i as int]);
                        if k2 == pre.len() {
                            assert(rules@[k2].0@ == spec_rule_name(
                                prefix1[i as int],
                                season_name@,
                            ) && spec_rule_matches(
                                rules@[k2].1,
                                prefix1[i as int],
                                root_path@,
                                season_name@,
                            ));
                        } else {
                            assert(rules@[k2] == pre[k2]);
                            assert(pre[k2].0@ != name@);
                            lemma_latest_extends(
                                pre[k2],
                                bangumi_results@,
                                i as int,
                                root_path@,
                                season_name@,
                            );
                        }
                    }
                }
            },
        }
        i = i + 1;
    }
    proof {
        assert(bangumi_results@.take(bangumi_results@.len() as int) =~= bangumi_results@);
    }
    RuleGenerationResult { rules, failed_works: Vec::new() }
}

} // verus!

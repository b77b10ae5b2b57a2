use pistachio_dictionary::error::AppError;
use pistachio_dictionary::search::{
    contains_cjk, english_match, english_match_marked, escape_like, flat_pinyin, get_entry, is_cjk, push_rows, search,
    segment_lookup, EntrySummary, QueryKind, SearchQuery,
};

fn entry(id: i64, simplified: &str, pinyin: &str, defs: &str) -> EntrySummary {
    EntrySummary {
        id,
        traditional: simplified.to_string(),
        simplified: simplified.to_string(),
        pinyin_marks: pinyin.to_string(),
        definitions: defs.to_string(),
    }
}

#[test]
fn cjk_detection() {
    assert!(is_cjk('开'));
    assert!(is_cjk('\u{3400}'));
    assert!(is_cjk('\u{4DBF}'));
    assert!(is_cjk('\u{F900}'));
    assert!(!is_cjk('a'));
    assert!(!is_cjk('。'));
    assert!(!is_cjk('\u{4DC0}'));
    assert!(contains_cjk("hello 世界"));
    assert!(!contains_cjk("kai1 xin1"));
    assert!(!contains_cjk(""));
}

#[test]
fn flat_pinyin_strips_marks_digits_and_separators() {
    assert_eq!(flat_pinyin("kāi xīn"), "kaixin");
    assert_eq!(flat_pinyin("Kai1 Xin1"), "kaixin");
    assert_eq!(flat_pinyin("nǚ'ér"), "nver");
    assert_eq!(flat_pinyin("lü4"), "lv");
    assert_eq!(flat_pinyin("ni3 hao3!"), "nihao");
    assert_eq!(flat_pinyin("开心"), "");
    assert_eq!(flat_pinyin("6789"), "");
}

#[test]
fn flat_pinyin_strips_marks_from_capitals() {
    assert_eq!(flat_pinyin("Ānhuī"), "anhui");
    assert_eq!(flat_pinyin("Ā"), "a");
    assert_eq!(flat_pinyin("ÁÉÍÓÚ"), "aeiou");
    assert_eq!(flat_pinyin("ǍĚǏǑǓ ÀÈÌÒÙ ĒĪŌŪ"), "aeiouaeioueiou");
    assert_eq!(flat_pinyin("LǙ4 Ü Ǖ Ǘ Ǜ"), "lvvvvv");
    assert_eq!(flat_pinyin("Ōu'zhōu"), "ouzhou");
}

#[test]
fn flat_pinyin_is_idempotent_and_lowercase() {
    for s in ["Zhōng guó", "XIAN3", "a'b c", "ǘǚǜ"] {
        let f = flat_pinyin(s);
        assert!(f.chars().all(|c| c.is_ascii_lowercase()));
        assert_eq!(flat_pinyin(&f), f);
    }
}

#[test]
fn escape_like_escapes_wildcards_and_backslash() {
    assert_eq!(escape_like("100%"), "100\\%");
    assert_eq!(escape_like("a_b"), "a\\_b");
    assert_eq!(escape_like("c:\\x"), "c:\\\\x");
    assert_eq!(escape_like("开心"), "开心");
    let text = "a\\%_b";
    assert_eq!(text.replace('\\', "\\\\").replace('%', "\\%").replace('_', "\\_"), escape_like(text));
}

#[test]
fn english_match_builds_prefix_terms() {
    assert_eq!(english_match("happy"), Some("\"happy\"*".to_string()));
    assert_eq!(english_match("  to be-happy  "), Some("\"to\"* \"be-happy\"*".to_string()));
    assert_eq!(english_match("don't!? stop"), Some("\"don't\"* \"stop\"*".to_string()));
    assert_eq!(english_match("?? !!"), None);
    assert_eq!(english_match(""), None);
    assert_eq!(english_match("é2"), Some("\"é2\"*".to_string()));
}

#[test]
fn english_terms_follow_the_alphanumeric_flags() {
    let marked = |s: &str, alnum: &[bool]| -> Vec<(char, bool)> {
        s.chars().zip(alnum.iter().copied()).collect()
    };
    // The flags decide which characters stay, whatever the characters are.
    assert_eq!(
        english_match_marked(&marked("a! b?", &[true, true, false, true, false])),
        Some("\"a!\"* \"b\"*".to_string())
    );
    assert_eq!(english_match_marked(&marked("ab", &[false, false])), None);
    assert_eq!(
        english_match_marked(&marked("x-y z'", &[false, false, false, false, false, false])),
        Some("\"-\"* \"'\"*".to_string())
    );
    assert_eq!(english_match_marked(&Vec::new()), None);
    // With std's flags it is the English match of the text.
    let text = "to be-happy, ok?";
    let flags: Vec<bool> = text.chars().map(|c| c.is_alphanumeric()).collect();
    assert_eq!(english_match_marked(&marked(text, &flags)), english_match(text));
}

#[test]
fn push_rows_skips_duplicates_and_stops_at_limit() {
    let mut out = vec![entry(1, "开", "kāi", "open")];
    let rows = vec![
        Ok(entry(1, "开", "kāi", "open")),
        Ok(entry(2, "开心", "kāi xīn", "happy")),
        Ok(entry(3, "心", "xīn", "heart")),
        Ok(entry(4, "好", "hǎo", "good")),
    ];
    assert_eq!(push_rows(rows, 3, &mut out), Ok(()));
    assert_eq!(out.iter().map(|e| e.id).collect::<Vec<_>>(), vec![1, 2, 3]);
}

#[test]
fn push_rows_reports_a_failed_row() {
    let mut out = Vec::new();
    let rows = vec![Ok(entry(5, "好", "hǎo", "good")), Err(AppError::Db("broken".into())), Ok(entry(6, "x", "x", "x"))];
    assert_eq!(push_rows(rows, 10, &mut out), Err(AppError::Db("broken".into())));
    assert_eq!(out.len(), 1);
}

fn dictionary() -> Vec<EntrySummary> {
    vec![
        entry(1, "开", "kai1", "to open"),
        entry(2, "开心", "kai1 xin1", "happy"),
        entry(3, "开心果", "kai1 xin1 guo3", "pistachio"),
        entry(4, "心", "xin1", "heart"),
        entry(5, "公开", "gong1 kai1", "public"),
    ]
}

/// Answers a lookup the way the dictionary's SQL does: matching rows
/// ordered by length then id, at most `limit` of them.
fn answer(dict: &[EntrySummary], q: &SearchQuery, limit: usize) -> Vec<Result<EntrySummary, AppError>> {
    let flat = |e: &EntrySummary| flat_pinyin(&e.pinyin_marks);
    let mut hits: Vec<EntrySummary> = dict
        .iter()
        .filter(|e| match q.kind {
            QueryKind::HanziExact => e.simplified == q.text,
            QueryKind::HanziLike => {
                let inner = q.text.trim_start_matches('%').trim_end_matches('%');
                if q.text.starts_with('%') {
                    e.simplified.contains(inner)
                } else {
                    e.simplified.starts_with(inner)
                }
            }
            QueryKind::PinyinExact => flat(e) == q.text,
            QueryKind::PinyinPrefix => flat(e).starts_with(&q.text),
            QueryKind::English => e.definitions.contains(q.text.trim_matches(|c| c == '"' || c == '*')),
        })
        .cloned()
        .collect();
    hits.sort_by_key(|e| (e.simplified.chars().count(), e.id));
    hits.into_iter().take(limit).map(Ok).collect()
}

fn run_with(dict: &[EntrySummary], query: &str, limit: usize) -> (Vec<SearchQuery>, Vec<i64>) {
    let mut run = search(query, limit);
    let mut asked = Vec::new();
    while let Some(q) = run.next_query() {
        let rows = answer(dict, &q, run.limit());
        asked.push(q);
        run.feed(rows).unwrap();
    }
    (asked, run.results().iter().map(|e| e.id).collect())
}

fn run(query: &str, limit: usize) -> (Vec<SearchQuery>, Vec<i64>) {
    run_with(&dictionary(), query, limit)
}

#[test]
fn hanzi_search_runs_exact_prefix_substring() {
    let (asked, ids) = run(" 开心 ", 50);
    assert_eq!(
        asked,
        vec![
            SearchQuery { kind: QueryKind::HanziExact, text: "开心".into() },
            SearchQuery { kind: QueryKind::HanziLike, text: "开心%".into() },
            SearchQuery { kind: QueryKind::HanziLike, text: "%开心%".into() },
        ]
    );
    assert_eq!(ids, vec![2, 3]);
}

#[test]
fn hanzi_search_may_pass_the_limit() {
    let dict = vec![entry(1, "公开", "", ""), entry(2, "开心", "", ""), entry(3, "开心果", "", "")];
    let (_, ids) = run_with(&dict, "开", 1);
    assert_eq!(ids, vec![2, 1]);
    let (_, ids) = run("开", 1);
    assert_eq!(ids, vec![1]);
}

#[test]
fn a_failed_row_ends_the_search() {
    let mut run = search("开", 10);
    let q = run.next_query().unwrap();
    assert_eq!(q.kind, QueryKind::HanziExact);
    assert_eq!(run.feed(vec![Err(AppError::Db("malformed".into()))]), Err(AppError::Db("malformed".into())));
}

#[test]
fn latin_search_runs_pinyin_then_english() {
    let (asked, ids) = run("kai1 xin1", 50);
    assert_eq!(
        asked,
        vec![
            SearchQuery { kind: QueryKind::PinyinExact, text: "kaixin".into() },
            SearchQuery { kind: QueryKind::PinyinPrefix, text: "kaixin".into() },
            SearchQuery { kind: QueryKind::English, text: "\"kai1\"* \"xin1\"*".into() },
        ]
    );
    assert_eq!(ids, vec![2, 3]);
}

#[test]
fn latin_search_stops_at_the_limit() {
    let (asked, ids) = run("kaixin", 1);
    assert_eq!(asked, vec![SearchQuery { kind: QueryKind::PinyinExact, text: "kaixin".into() }]);
    assert_eq!(ids, vec![2]);
}

#[test]
fn one_letter_queries_skip_the_pinyin_prefix() {
    let (asked, _) = run("x", 10);
    assert_eq!(
        asked,
        vec![
            SearchQuery { kind: QueryKind::PinyinExact, text: "x".into() },
            SearchQuery { kind: QueryKind::English, text: "\"x\"*".into() },
        ]
    );
}

#[test]
fn english_only_query() {
    let (asked, ids) = run("happy", 10);
    assert_eq!(asked.last().unwrap().kind, QueryKind::English);
    assert_eq!(ids, vec![2]);
}

#[test]
fn empty_query_looks_nothing_up_and_limits_are_clamped() {
    let (asked, ids) = run("   ", 10);
    assert!(asked.is_empty());
    assert!(ids.is_empty());
    assert_eq!(search("kai", 0).limit(), 1);
    assert_eq!(search("kai", 5000).limit(), 200);
    assert_eq!(search("kai", 50).limit(), 50);
}

#[test]
fn get_entry_outcomes() {
    let e = entry(9, "好", "hao3", "good");
    assert_eq!(get_entry(9, Ok(Some(e.clone()))), Ok(e));
    assert_eq!(get_entry(-12, Ok(None)), Err(AppError::NotFound("entry -12".into())));
    assert_eq!(get_entry(9, Err(AppError::Db("x".into()))), Err(AppError::Db("x".into())));
}

fn segment(text: &str, max: usize, words: &[&str]) -> Vec<(String, Option<i64>)> {
    let mut seg = segment_lookup(text, max);
    let mut lookups = 0;
    while let Some(w) = seg.next_lookup() {
        lookups += 1;
        assert!(lookups < 1000);
        let found = words.iter().position(|d| *d == w).map(|i| entry(i as i64, &w, "", ""));
        seg.feed(found);
    }
    seg.segments().into_iter().map(|s| (s.surface, s.entry.map(|e| e.id))).collect()
}

#[test]
fn segmentation_is_greedy_longest_match() {
    let got = segment("  我开心果!ab 开 ", 8, &["开", "开心", "开心果", "心"]);
    assert_eq!(
        got,
        vec![
            ("我".to_string(), None),
            ("开心果".to_string(), Some(2)),
            ("!ab ".to_string(), None),
            ("开".to_string(), Some(0)),
        ]
    );
}

#[test]
fn segmentation_respects_the_word_length() {
    let got = segment("开心果", 2, &["开", "开心", "开心果"]);
    assert_eq!(got, vec![("开心".to_string(), Some(1)), ("果".to_string(), None)]);
    let got = segment("开心", 0, &["开心"]);
    assert_eq!(got, vec![("开".to_string(), None), ("心".to_string(), None)]);
}

#[test]
fn segmentation_spells_out_the_text() {
    let text = "他说：“你好，world!”好的";
    let got = segment(text, 8, &["你好", "好的", "说"]);
    let joined: String = got.iter().map(|(s, _)| s.as_str()).collect();
    assert_eq!(joined, text.trim());
    for pair in got.windows(2) {
        let plain = |s: &(String, Option<i64>)| s.1.is_none() && !s.0.chars().any(is_cjk);
        assert!(!(plain(&pair[0]) && plain(&pair[1])));
    }
    assert!(segment("   ", 8, &[]).is_empty());
}

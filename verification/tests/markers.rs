use tingmo::markers::{
    accept_all_pending, apply_rule_corrections, format_glossary_for_prompt,
    format_markers_markdown_export, inject_glossary, is_asr_correction_prompt, merge_markers,
    parse_correction_output, remove_marker_at, replace_case_insensitive, upsert_marker,
    AsrMarker, AsrMarkerStore, MarkerCache, MarkerChangelogEntry, MarkerConfidence,
    MarkerMatchMode,
};

fn marker(errors: &[&str], correct: &str, category: &str, confidence: MarkerConfidence, mode: MarkerMatchMode) -> AsrMarker {
    AsrMarker {
        asr_errors: errors.iter().map(|s| s.to_string()).collect(),
        correct: correct.into(),
        category: category.into(),
        note: None,
        source: None,
        confidence,
        match_mode: mode,
    }
}

#[test]
fn apply_rules_longest_first() {
    let store = AsrMarkerStore {
        version: 1,
        markers: vec![
            AsrMarker {
                asr_errors: vec!["国家烟草转卖局".into(), "转卖".into()],
                correct: "国家烟草专卖局".into(),
                category: "org".into(),
                note: None,
                source: None,
                confidence: MarkerConfidence::Verified,
                match_mode: MarkerMatchMode::Exact,
            },
            AsrMarker {
                asr_errors: vec!["转卖".into()],
                correct: "专卖".into(),
                category: "term".into(),
                note: None,
                source: None,
                confidence: MarkerConfidence::Verified,
                match_mode: MarkerMatchMode::Exact,
            },
        ],
        changelog: vec![],
    };
    let out = apply_rule_corrections("访问国家烟草转卖局", &store);
    assert!(out.contains("国家烟草专卖局"), "got {out}");
}

#[test]
fn apply_rules_case_insensitive() {
    let store = AsrMarkerStore {
        version: 1,
        markers: vec![AsrMarker {
            asr_errors: vec!["handy".into()],
            correct: "Handy".into(),
            category: "term".into(),
            note: None,
            source: None,
            confidence: MarkerConfidence::Verified,
            match_mode: MarkerMatchMode::CaseInsensitive,
        }],
        changelog: vec![],
    };
    let out = apply_rule_corrections("I use HANDY daily and handy rocks", &store);
    assert_eq!(out, "I use Handy daily and Handy rocks");
}

#[test]
fn apply_rules_regex_capture() {
    let store = AsrMarkerStore {
        version: 1,
        markers: vec![AsrMarker {
            asr_errors: vec![r"标{2,}".into()],
            correct: "标".into(),
            category: "format".into(),
            note: None,
            source: None,
            confidence: MarkerConfidence::Verified,
            match_mode: MarkerMatchMode::Regex,
        }],
        changelog: vec![],
    };
    let out = apply_rule_corrections("出现标标标问题", &store);
    assert_eq!(out, "出现标问题");
}

#[test]
fn parse_new_markers_table() {
    let raw = r#"今天去职工进修学院开会。

【新增标识物】
| ASR误识 | 正确形式 | 类别 |
| --- | --- | --- |
| 职培精 | 职工进修学院 | org |
| 标体细 | 标准体系 | term |
"#;
    let parsed = parse_correction_output(raw, Some("test"));
    assert!(parsed.body.contains("职工进修学院"));
    assert!(!parsed.body.contains("新增标识物"));
    assert_eq!(parsed.new_markers.len(), 2);
    assert_eq!(parsed.new_markers[0].correct, "职工进修学院");
    assert_eq!(parsed.new_markers[0].confidence, MarkerConfidence::Pending);
}

#[test]
fn merge_skips_duplicates() {
    let mut store = AsrMarkerStore::default();
    let c = AsrMarker {
        asr_errors: vec!["a".into()],
        correct: "A".into(),
        category: "other".into(),
        note: None,
        source: None,
        confidence: MarkerConfidence::Pending,
        match_mode: MarkerMatchMode::Exact,
    };
    assert_eq!(merge_markers(&mut store, vec![c.clone()], None, None), 1);
    assert_eq!(merge_markers(&mut store, vec![c], None, None), 0);
    assert_eq!(store.markers.len(), 1);
}

#[test]
fn inject_glossary_placeholder() {
    let p = "G:\n${glossary}\n\nT:\n${output}";
    let out = inject_glossary(p, "table");
    assert!(out.contains("table"));
    assert!(!out.contains("${glossary}"));
    assert!(out.contains("${output}"));
}

#[test]
fn inject_glossary_appends_when_placeholder_missing() {
    let out = inject_glossary("Fix this:", "| a | b |");
    assert_eq!(out, "Fix this:\n\n# Glossary (auto-injected)\n| a | b |\n");
    assert_eq!(inject_glossary("Fix this:", "(empty — no markers yet)"), "Fix this:");
    assert_eq!(inject_glossary("Fix this:", ""), "Fix this:");
}

#[test]
fn correction_prompt_detection() {
    assert!(is_asr_correction_prompt("default_asr_domain_correct", "anything"));
    assert!(is_asr_correction_prompt("custom", "use ${glossary} here"));
    assert!(is_asr_correction_prompt("custom", "append 【新增标识物】 table"));
    assert!(!is_asr_correction_prompt("custom", "plain prompt"));
}

#[test]
fn parse_without_header_keeps_body() {
    let parsed = parse_correction_output("  just text \n", None);
    assert_eq!(parsed.body, "just text");
    assert!(parsed.new_markers.is_empty());
}

#[test]
fn parse_english_fallback_header() {
    let raw = "Body text.\nNew markers:\n| foo / bar | Foo |  |\n";
    let parsed = parse_correction_output(raw, None);
    assert_eq!(parsed.body, "Body text.");
    assert_eq!(parsed.new_markers.len(), 1);
    assert_eq!(parsed.new_markers[0].asr_errors, vec!["foo".to_string(), "bar".to_string()]);
    assert_eq!(parsed.new_markers[0].correct, "Foo");
    assert_eq!(parsed.new_markers[0].category, "other");
    assert_eq!(parsed.new_markers[0].source, None);
}

#[test]
fn parse_splits_error_forms_and_keeps_source() {
    let raw = "正文\n【新增标识物】\n| 甲、乙，丙 | 丁 | term |\n| 无效 |  | x |\n";
    let parsed = parse_correction_output(raw, Some("llm"));
    assert_eq!(parsed.body, "正文");
    assert_eq!(parsed.new_markers.len(), 1);
    let m = &parsed.new_markers[0];
    assert_eq!(m.asr_errors, vec!["甲".to_string(), "乙".to_string(), "丙".to_string()]);
    assert_eq!(m.source.as_deref(), Some("llm"));
    assert_eq!(m.match_mode, MarkerMatchMode::Exact);
}

#[test]
fn glossary_formatting() {
    let empty = AsrMarkerStore::default();
    assert_eq!(format_glossary_for_prompt(&empty), "(empty — no markers yet)");
    let store = AsrMarkerStore {
        version: 1,
        markers: vec![
            marker(&["a|b", "c"], "C", "term", MarkerConfidence::Verified, MarkerMatchMode::Exact),
            marker(&["x"], "Y\nZ", "org", MarkerConfidence::Pending, MarkerMatchMode::Exact),
        ],
        changelog: vec![],
    };
    assert_eq!(
        format_glossary_for_prompt(&store),
        "| ASR misrecognition | Correct form | Category | Confidence |\n|---|---|---|---|\n| a\\|b / c | C | term | verified |\n| x | Y Z | org | pending |"
    );
}

#[test]
fn markdown_export_formatting() {
    let header = "---\ntags: [asr, markers, handy]\n---\n\n# ASR 标识物清单\n\n> Exported from Handy. Paste the table into Handy **Import markdown table**,\n> or convert offline with `代码研究/scripts/md_markers_to_json.mjs`.\n\n| ASR误识 | 正确形式 | 类别 | 匹配 | 状态 |\n| --- | --- | --- | --- | --- |\n";
    let empty = AsrMarkerStore::default();
    assert_eq!(
        format_markers_markdown_export(&empty),
        format!("{header}|  |  |  |  |  |\n\n")
    );
    let store = AsrMarkerStore {
        version: 1,
        markers: vec![marker(&["hndy"], "Handy", "term", MarkerConfidence::Pending, MarkerMatchMode::CaseInsensitive)],
        changelog: vec![
            MarkerChangelogEntry { date: "2024-01-01".into(), summary: "first".into(), source: None, count: 1 },
            MarkerChangelogEntry { date: "2024-01-02".into(), summary: "second".into(), source: Some("ui".into()), count: 1 },
        ],
    };
    assert_eq!(
        format_markers_markdown_export(&store),
        format!("{header}| hndy | Handy | term | case_insensitive | pending |\n\n## Changelog\n\n- 2024-01-02 — second (ui)\n- 2024-01-01 — first (-)\n\n")
    );
}

#[test]
fn export_keeps_only_recent_changelog() {
    let mut store = AsrMarkerStore::default();
    for i in 0..25 {
        store.changelog.push(MarkerChangelogEntry { date: format!("d{i}"), summary: "s".into(), source: None, count: 0 });
    }
    let out = format_markers_markdown_export(&store);
    assert!(out.contains("- d24 — s (-)"));
    assert!(out.contains("- d5 — s (-)"));
    assert!(!out.contains("- d4 — s (-)"));
}

#[test]
fn merge_forces_confidence_and_logs() {
    let mut store = AsrMarkerStore::default();
    let cands = vec![
        marker(&["a"], "A", "other", MarkerConfidence::Verified, MarkerMatchMode::Exact),
        marker(&["b"], "  ", "other", MarkerConfidence::Verified, MarkerMatchMode::Exact),
        marker(&[], "C", "other", MarkerConfidence::Verified, MarkerMatchMode::Exact),
        marker(&["d"], "D", "other", MarkerConfidence::Verified, MarkerMatchMode::Exact),
    ];
    let n = merge_markers(&mut store, cands, Some(MarkerConfidence::Pending), Some("llm"));
    assert_eq!(n, 2);
    assert_eq!(store.markers.len(), 2);
    assert!(store.markers.iter().all(|m| m.confidence == MarkerConfidence::Pending));
    assert_eq!(store.changelog.len(), 1);
    assert_eq!(store.changelog[0].summary, "Added 2 marker(s)");
    assert_eq!(store.changelog[0].source.as_deref(), Some("llm"));
    assert_eq!(store.changelog[0].count, 2);
    assert_eq!(store.changelog[0].date.len(), 10);
}

#[test]
fn accept_pending_promotes_and_is_idempotent() {
    let mut store = AsrMarkerStore::default();
    store.markers.push(marker(&["a"], "A", "other", MarkerConfidence::Pending, MarkerMatchMode::Exact));
    store.markers.push(marker(&["b"], "B", "other", MarkerConfidence::Verified, MarkerMatchMode::Exact));
    store.markers.push(marker(&["c"], "C", "other", MarkerConfidence::Pending, MarkerMatchMode::Exact));
    assert_eq!(accept_all_pending(&mut store), 2);
    assert!(store.markers.iter().all(|m| m.confidence == MarkerConfidence::Verified));
    assert_eq!(store.changelog.last().unwrap().summary, "Accepted 2 pending marker(s)");
    assert_eq!(accept_all_pending(&mut store), 0);
    assert_eq!(store.changelog.len(), 1);
}

#[test]
fn remove_marker_reports_range_error() {
    let mut store = AsrMarkerStore::default();
    store.markers.push(marker(&["a"], "A", "other", MarkerConfidence::Verified, MarkerMatchMode::Exact));
    assert_eq!(remove_marker_at(&mut store, 3), Err("Marker index 3 out of range".to_string()));
    assert_eq!(store.markers.len(), 1);
    assert_eq!(remove_marker_at(&mut store, 0), Ok(()));
    assert!(store.markers.is_empty());
    assert_eq!(store.changelog.last().unwrap().summary, "Removed marker → A");
    assert_eq!(store.changelog.last().unwrap().source.as_deref(), Some("ui"));
}

#[test]
fn upsert_extends_existing_marker() {
    let mut store = AsrMarkerStore::default();
    assert!(upsert_marker(&mut store, marker(&["a"], "A", "other", MarkerConfidence::Pending, MarkerMatchMode::Exact)));
    assert!(!upsert_marker(&mut store, marker(&["a", "aa"], "A", "other", MarkerConfidence::Verified, MarkerMatchMode::Exact)));
    assert_eq!(store.markers.len(), 1);
    assert_eq!(store.markers[0].asr_errors, vec!["a".to_string(), "aa".to_string()]);
    assert_eq!(store.markers[0].confidence, MarkerConfidence::Verified);
    assert!(upsert_marker(&mut store, marker(&["b"], "A", "other", MarkerConfidence::Pending, MarkerMatchMode::Exact)));
    assert_eq!(store.markers.len(), 2);
}

#[test]
fn rules_skip_pending_and_identity() {
    let store = AsrMarkerStore {
        version: 1,
        markers: vec![
            marker(&["foo"], "bar", "term", MarkerConfidence::Pending, MarkerMatchMode::Exact),
            marker(&["same"], "same", "term", MarkerConfidence::Verified, MarkerMatchMode::Exact),
            marker(&[" qux "], "Qux", "term", MarkerConfidence::Verified, MarkerMatchMode::Exact),
        ],
        changelog: vec![],
    };
    assert_eq!(apply_rule_corrections("foo same qux", &store), "foo same Qux");
}

#[test]
fn rules_skip_invalid_regex() {
    let store = AsrMarkerStore {
        version: 1,
        markers: vec![marker(&["(unclosed"], "x", "format", MarkerConfidence::Verified, MarkerMatchMode::Regex)],
        changelog: vec![],
    };
    assert_eq!(apply_rule_corrections("(unclosed text", &store), "(unclosed text");
}

#[test]
fn case_insensitive_replace_edges() {
    assert_eq!(replace_case_insensitive("abc", "", "x"), "abc");
    assert_eq!(replace_case_insensitive("ab", "abc", "x"), "ab");
    assert_eq!(replace_case_insensitive("AaAa", "aa", "b"), "bb");
    assert_eq!(replace_case_insensitive("中文Abc", "ABC", "x"), "中文x");
}

#[test]
fn cache_remembers_and_invalidates() {
    let mut cache = MarkerCache::new();
    assert!(cache.get().is_none());
    let mut store = AsrMarkerStore::default();
    store.version = 7;
    cache.remember(store);
    assert_eq!(cache.get().unwrap().version, 7);
    tingmo::markers::invalidate_cache(&mut cache);
    assert!(cache.get().is_none());
}

#[test]
fn merging_twice_changes_nothing() {
    let mut store = AsrMarkerStore::default();
    let cands = vec![
        marker(&["a"], "A", "other", MarkerConfidence::Pending, MarkerMatchMode::Exact),
        marker(&["b"], "B", "other", MarkerConfidence::Pending, MarkerMatchMode::Exact),
    ];
    assert_eq!(merge_markers(&mut store, cands.clone(), None, Some("x")), 2);
    let markers_before = store.markers.len();
    let log_before = store.changelog.len();
    assert_eq!(merge_markers(&mut store, cands, None, Some("x")), 0);
    assert_eq!(store.markers.len(), markers_before);
    assert_eq!(store.changelog.len(), log_before);
}

use tingmo::text_punctuate::{
    apply_pause_rules, ends_with_sentence_punct, ensure_default_punctuator, finish_batch_refinement,
    finish_segment_display, join_display_segments, local_punctuator_available,
    punctuate_batch_transcript, punctuate_segment, refine_heuristic, set_local_punctuator,
    LocalPunctuator, PunctuatorRegistry, TextPunctuationMode,
};

struct Upper;

impl LocalPunctuator for Upper {
    fn refine(&self, raw: &str) -> String {
        raw.to_uppercase()
    }
}

struct Blank;

impl LocalPunctuator for Blank {
    fn refine(&self, _raw: &str) -> String {
        "   ".to_string()
    }
}

#[test]
fn short_pause_gets_comma() {
    let s = apply_pause_rules("今天开会", 350, false);
    assert!(s.ends_with('，'), "{s}");
}

#[test]
fn long_pause_gets_period() {
    let s = apply_pause_rules("今天开会", 450, false);
    assert!(s.ends_with('。'), "{s}");
}

#[test]
fn paragraph_pause_newline() {
    let s = apply_pause_rules("第一点", 1600, false);
    assert!(s.contains('\n'), "{s}");
}

#[test]
fn force_cut_ellipsis() {
    let s = apply_pause_rules("说了很久还没停", 0, true);
    assert!(s.ends_with('…'), "{s}");
}

#[test]
fn join_display() {
    let parts = vec!["你好，".into(), "世界。".into()];
    assert_eq!(join_display_segments(&parts), "你好，\n世界。");
}

#[test]
fn join_display_skips_empty() {
    let parts = vec!["第一段。".into(), "  ".into(), "第二段。".into()];
    assert_eq!(join_display_segments(&parts), "第一段。\n第二段。");
}

#[test]
fn batch_l2_adds_period_and_breaks() {
    let mut registry = PunctuatorRegistry::new();
    ensure_default_punctuator(&mut registry);
    let raw = "今天开会讨论标准然后我们看数字化谢谢大家";
    let out = punctuate_batch_transcript(raw, TextPunctuationMode::LocalPunc, &mut registry);
    assert!(out.contains('。') || out.contains('？'), "{out}");
    assert!(out.contains("谢谢大家") || out.ends_with('。'), "{out}");
}

#[test]
fn batch_none_is_identity() {
    let raw = "没有标点";
    let mut registry = PunctuatorRegistry::new();
    assert_eq!(
        punctuate_batch_transcript(raw, TextPunctuationMode::Off, &mut registry),
        raw
    );
}

#[test]
fn pause_rule_exact_outputs() {
    assert_eq!(apply_pause_rules("  今天开会 ", 100, false), "今天开会，");
    assert_eq!(apply_pause_rules("今天开会", 300, false), "今天开会，");
    assert_eq!(apply_pause_rules("今天开会", 400, false), "今天开会。");
    assert_eq!(apply_pause_rules("今天开会", 1500, false), "今天开会。\n");
    assert_eq!(apply_pause_rules("好的。", 1600, true), "好的。");
    assert_eq!(apply_pause_rules("   ", 1600, false), "");
}

#[test]
fn pause_rules_are_stable_on_their_output() {
    let once = apply_pause_rules("第一点", 1600, false);
    assert_eq!(apply_pause_rules(&once, 0, false), "第一点。");
    let cut = apply_pause_rules("没说完", 0, true);
    assert_eq!(apply_pause_rules(&cut, 2000, false), cut);
}

#[test]
fn sentence_punct_detection() {
    assert!(ends_with_sentence_punct("done.  "));
    assert!(ends_with_sentence_punct("好，\n"));
    assert!(!ends_with_sentence_punct("好"));
    assert!(!ends_with_sentence_punct("   "));
}

#[test]
fn heuristic_examples() {
    assert_eq!(refine_heuristic("你好吗"), "你好吗？");
    assert_eq!(refine_heuristic("但是我们走吧…"), "但是我们走吧。");
    assert_eq!(refine_heuristic("他说但是不行"), "他说。但是不行。");
    assert_eq!(refine_heuristic("他说，但是不行"), "他说，但是不行。");
    assert_eq!(refine_heuristic("你去吗。他呢。"), "你去吗？他呢？");
    assert_eq!(refine_heuristic("  "), "");
}

#[test]
fn batch_paths() {
    let mut registry = PunctuatorRegistry::new();
    assert!(!local_punctuator_available(&registry));
    assert_eq!(punctuate_batch_transcript("   ", TextPunctuationMode::Rules, &mut registry), "");
    assert!(!local_punctuator_available(&registry));
    assert_eq!(punctuate_batch_transcript(" 你好吗 ", TextPunctuationMode::Rules, &mut registry), "你好吗？");
    assert!(local_punctuator_available(&registry));
}

#[test]
fn batch_custom_and_blank_refinement() {
    let mut registry = PunctuatorRegistry::new();
    set_local_punctuator(&mut registry, Some(Box::new(Upper)));
    assert_eq!(punctuate_batch_transcript(" abc ", TextPunctuationMode::LocalPunc, &mut registry), "ABC");
    set_local_punctuator(&mut registry, Some(Box::new(Blank)));
    assert_eq!(punctuate_batch_transcript(" abc ", TextPunctuationMode::LocalPunc, &mut registry), "abc");
    set_local_punctuator(&mut registry, None);
    assert!(!local_punctuator_available(&registry));
}

#[test]
fn refinement_finishers() {
    assert_eq!(finish_batch_refinement("raw", " \n".to_string()), "raw");
    assert_eq!(finish_batch_refinement("raw", "Raw.".to_string()), "Raw.");
    assert_eq!(finish_segment_display("ruled，".into(), " ".into(), 500, false), "ruled，");
    assert_eq!(finish_segment_display("r".into(), "done!".into(), 500, false), "done!");
    assert_eq!(finish_segment_display("r".into(), " open ".into(), 100, false), " open ");
    assert_eq!(finish_segment_display("r".into(), " open ".into(), 100, true), "open…");
    assert_eq!(finish_segment_display("r".into(), " open ".into(), 500, false), "open。");
    assert_eq!(finish_segment_display("r".into(), " open ".into(), 1500, false), "open。\n");
}

#[test]
fn segment_modes() {
    let mut registry = PunctuatorRegistry::new();
    let off = punctuate_segment(" 今天 ", 500, false, TextPunctuationMode::Off, &mut registry);
    assert_eq!(off.raw, "今天");
    assert_eq!(off.display, "今天");
    assert_eq!(off.silence_ms, 500);
    let rules = punctuate_segment(" 今天 ", 500, false, TextPunctuationMode::Rules, &mut registry);
    assert_eq!(rules.display, "今天。");
    assert!(!local_punctuator_available(&registry));
    let local = punctuate_segment("你好吗", 100, false, TextPunctuationMode::LocalPunc, &mut registry);
    assert_eq!(local.display, "你好吗？");
    assert!(local_punctuator_available(&registry));
    set_local_punctuator(&mut registry, Some(Box::new(Upper)));
    let custom = punctuate_segment("abc", 500, false, TextPunctuationMode::LocalPunc, &mut registry);
    assert_eq!(custom.display, "ABC。");
    set_local_punctuator(&mut registry, Some(Box::new(Blank)));
    let blank = punctuate_segment("abc", 500, true, TextPunctuationMode::LocalPunc, &mut registry);
    assert_eq!(blank.display, "abc…");
    assert!(blank.force_cut);
}

#[test]
fn default_punctuator_installed_once_and_kept() {
    let mut registry = PunctuatorRegistry::new();
    ensure_default_punctuator(&mut registry);
    assert!(local_punctuator_available(&registry));
    assert_eq!(punctuate_batch_transcript("你好吗", TextPunctuationMode::LocalPunc, &mut registry), "你好吗？");
    ensure_default_punctuator(&mut registry);
    assert_eq!(punctuate_batch_transcript("你好吗", TextPunctuationMode::LocalPunc, &mut registry), "你好吗？");
    // A registered punctuator is kept by a later ensure.
    set_local_punctuator(&mut registry, Some(Box::new(Upper)));
    ensure_default_punctuator(&mut registry);
    assert_eq!(punctuate_batch_transcript(" abc ", TextPunctuationMode::Rules, &mut registry), "ABC");
}

//! L1 pause-based punctuation and L2 hooks for semi-realtime text.
//!
//! L1: map trailing silence after a VAD segment to ， / 。 / newline.
//! L2: optional local punctuation model on *completed* segment raw text
//!     (pluggable; the built-in discourse-marker heuristic is installed on
//!     demand).

use vstd::prelude::*;
use crate::text::{
    is_blank, is_ws, lead_end, lemma_lead_end_bounds, lemma_tail_end_bounds, lemma_trim_facts,
    lemma_trim_idempotent, tail_end, trim_start, chars_of, copy_range, find, find_chars, last_non_ws, last_non_ws_char, lemma_find_from_facts,
    replace_all, replace_chars, string_of, trim, trim_vec, views, vviews,
};

verus! {

/// Pause → punctuation thresholds (ms of trailing silence). VAD hangover is
/// about 450 ms, which maps to a full stop (utterance end).
pub const PAUSE_COMMA_MS: u64 = 300;

pub const PAUSE_PERIOD_MS: u64 = 400;

pub const PAUSE_PARAGRAPH_MS: u64 = 1500;

/// How transcript text is punctuated.
#[derive(Clone, Copy, Debug, PartialEq, Eq, Structural)]
pub enum TextPunctuationMode {
    /// Keep the raw ASR text (no punctuation pass).
    Off,
    /// L1 pause rules (live) / L2 refinement (batch).
    Rules,
    /// L1 for display shape plus L2 local punctuation.
    LocalPunc,
}

/// One finished speech segment for the pipeline.
#[derive(Debug, Clone)]
pub struct SegmentText {
    /// Unpunctuated (or lightly cleaned) ASR text.
    pub raw: String,
    /// Display text after L1 (+ optional L2).
    pub display: String,
    pub silence_ms: u64,
    pub force_cut: bool,
}

// ---------------------------------------------------------------------------
// Specification
// ---------------------------------------------------------------------------

/// Characters that already close a clause or sentence.
pub open spec fn is_sentence_punct(c: char) -> bool {
    c == '。' || c == '？' || c == '！' || c == '；' || c == '.' || c == '?' || c == '!' || c
        == '…' || c == '，' || c == ','
}

/// The last non-whitespace character closes a clause or sentence.
pub open spec fn ends_with_sentence_punct_spec(s: Seq<char>) -> bool {
    last_non_ws(s) matches Some(c) && is_sentence_punct(c)
}

/// Punctuation appended for a trailing silence of `silence_ms`.
pub open spec fn pause_suffix(silence_ms: u64) -> Seq<char> {
    if silence_ms >= PAUSE_PARAGRAPH_MS {
        seq!['。', '\n']
    } else if silence_ms >= PAUSE_PERIOD_MS {
        seq!['。']
    } else {
        seq!['，']
    }
}

/// L1: the trimmed segment, left alone when it already ends in
/// punctuation, otherwise closed by `…` (forced cut) or the pause suffix.
pub open spec fn pause_rule_text(raw: Seq<char>, silence_ms: u64, force_cut: bool) -> Seq<char> {
    let t = trim(raw);
    if t.len() == 0 {
        Seq::empty()
    } else if ends_with_sentence_punct_spec(t) {
        t
    } else if force_cut {
        t.push('…')
    } else {
        t + pause_suffix(silence_ms)
    }
}

/// Segments joined one per line: each trimmed, blank ones dropped.
pub open spec fn display_join(parts: Seq<Seq<char>>) -> Seq<char>
    decreases parts.len(),
{
    if parts.len() == 0 {
        Seq::empty()
    } else {
        let prev = display_join(parts.drop_last());
        let t = trim(parts.last());
        if t.len() == 0 {
            prev
        } else if prev.len() == 0 {
            t
        } else {
            prev + seq!['\n'] + t
        }
    }
}

/// Trailing `…` removed (all of them).
pub open spec fn strip_ellipsis(t: Seq<char>) -> Seq<char>
    decreases t.len(),
{
    if t.len() > 0 && t.last() == '…' {
        strip_ellipsis(t.drop_last())
    } else {
        t
    }
}

/// Discourse openers before which the heuristic starts a new sentence.
pub open spec fn break_words() -> Seq<Seq<char>> {
    seq![
        seq!['但', '是'],
        seq!['然', '而'],
        seq!['因', '此'],
        seq!['所', '以'],
        seq!['另', '外'],
        seq!['此', '外'],
        seq!['第', '一'],
        seq!['第', '二'],
        seq!['第', '三'],
        seq!['首', '先'],
        seq!['其', '次'],
        seq!['最', '后'],
        seq!['总', '之'],
        seq!['接', '下', '来'],
        seq!['下', '面'],
        seq!['各', '位'],
        seq!['同', '志', '们'],
        seq!['谢', '谢', '大', '家'],
    ]
}

/// Characters after which no extra sentence break is inserted.
pub open spec fn closes_clause(c: char) -> bool {
    c == '。' || c == '？' || c == '！' || c == '；' || c == '\n' || c == '，' || c == ','
}

/// A `。` inserted before the first occurrence of `b`, unless that
/// occurrence starts the text or follows clause punctuation.
pub open spec fn insert_break(t: Seq<char>, b: Seq<char>) -> Seq<char> {
    if let Some(idx) = find(t, b) {
        if idx > 0 && !closes_clause(t[idx - 1]) {
            t.take(idx) + seq!['。'] + t.skip(idx)
        } else {
            t
        }
    } else {
        t
    }
}

/// `insert_break` for each opener in turn.
pub open spec fn insert_breaks(t: Seq<char>, bs: Seq<Seq<char>>) -> Seq<char>
    decreases bs.len(),
{
    if bs.len() == 0 {
        t
    } else {
        insert_break(insert_breaks(t, bs.drop_last()), bs.last())
    }
}

/// Question particles that close a question.
pub open spec fn is_question_particle(c: char) -> bool {
    c == '吗' || c == '呢' || c == '么'
}

/// The built-in L2 heuristic on raw ASR text.
pub open spec fn heuristic_refine(raw: Seq<char>) -> Seq<char> {
    let t0 = trim(raw);
    if t0.len() == 0 {
        t0
    } else {
        let t1 = trim(strip_ellipsis(t0));
        let t2 = insert_breaks(t1, break_words());
        let t3 = replace_all(replace_all(t2, seq!['吗', '。'], seq!['吗', '？']), seq!['呢', '。'], seq!['呢', '？']);
        if t3.len() > 0 && is_question_particle(t3.last()) {
            t3.push('？')
        } else if !ends_with_sentence_punct_spec(t3) {
            t3.push('。')
        } else {
            t3
        }
    }
}

// ---------------------------------------------------------------------------
// L1
// ---------------------------------------------------------------------------

/// Whether the last non-whitespace character closes a clause or sentence.
pub fn ends_with_sentence_punct(s: &str) -> (r: bool)
    ensures
        r == ends_with_sentence_punct_spec(s@),
{
    let v = chars_of(s);
    ends_with_sentence_punct_chars(&v)
}

fn is_sentence_punct_exec(c: char) -> (r: bool)
    ensures
        r == is_sentence_punct(c),
{
    c == '。' || c == '？' || c == '！' || c == '；' || c == '.' || c == '?' || c == '!' || c
        == '…' || c == '，' || c == ','
}

fn ends_with_sentence_punct_chars(s: &[char]) -> (r: bool)
    ensures
        r == ends_with_sentence_punct_spec(s@),
{
    match last_non_ws_char(s) {
        Some(c) => is_sentence_punct_exec(c),
        None => false,
    }
}

fn pause_rule_chars(raw: &[char], silence_ms: u64, force_cut: bool) -> (r: Vec<char>)
    ensures
        r@ == pause_rule_text(raw@, silence_ms, force_cut),
{
    let mut t = trim_vec(raw);
    if t.len() == 0 {
        return Vec::new();
    }
    if ends_with_sentence_punct_chars(&t) {
        return t;
    }
    if force_cut {
        t.push('…');
        return t;
    }
    if silence_ms >= PAUSE_PARAGRAPH_MS {
        t.push('。');
        t.push('\n');
    } else if silence_ms >= PAUSE_PERIOD_MS {
        t.push('。');
    } else if silence_ms >= PAUSE_COMMA_MS {
        t.push('，');
    } else {
        // Below the hangover band: still a segment boundary; prefer a comma.
        t.push('，');
    }
    proof {
        let tt = trim(raw@);
        if silence_ms >= PAUSE_PARAGRAPH_MS {
            assert(t@ =~= tt + seq!['。', '\n']);
        } else {
            assert(t@ =~= tt + pause_suffix(silence_ms));
        }
    }
    t
}

/// Apply L1 pause rules to a raw segment.
pub fn apply_pause_rules(raw: &str, silence_ms: u64, force_cut: bool) -> (r: String)
    ensures
        r@ == pause_rule_text(raw@, silence_ms, force_cut),
{
    let v = chars_of(raw);
    let out = pause_rule_chars(&v, silence_ms, force_cut);
    string_of(&out)
}

/// Join display segments for the full transcript: one segment per line,
/// each trimmed; blank segments are skipped and internal newlines kept.
pub fn join_display_segments(parts: &[String]) -> (r: String)
    ensures
        r@ == display_join(views(parts@)),
{
    let mut out: Vec<char> = Vec::new();
    let mut i: usize = 0;
    while i < parts.len()
        invariant
            i <= parts@.len(),
            out@ == display_join(views(parts@.take(i as int))),
        decreases parts@.len() - i,
    {
        let v = chars_of(parts[i].as_str());
        let t = trim_vec(&v);
        let ghost prev = out@;
        assert(views(parts@.take(i + 1)).drop_last() =~= views(parts@.take(i as int)));
        assert(views(parts@.take(i + 1)).last() == parts@[i as int]@);
        if t.len() > 0 {
            if out.len() > 0 {
                out.push('\n');
            }
            let mut k: usize = 0;
            let ghost base = out@;
            while k < t.len()
                invariant
                    k <= t@.len(),
                    out@ == base + t@.take(k as int),
                decreases t@.len() - k,
            {
                out.push(t[k]);
                k = k + 1;
                assert(out@ =~= base + t@.take(k as int));
            }
            assert(t@.take(t@.len() as int) =~= t@);
            proof {
                if prev.len() == 0 {
                    assert(out@ =~= t@);
                } else {
                    assert(out@ =~= prev + seq!['\n'] + t@);
                }
            }
        }
        i = i + 1;
    }
    assert(parts@.take(parts@.len() as int) =~= parts@);
    string_of(&out)
}

// ---------------------------------------------------------------------------
// L2
// ---------------------------------------------------------------------------

/// L2: local punctuation on raw ASR text (full transcript or one segment).
/// Implementations are free to return any text; callers fall back to the
/// raw or L1 text when the result is blank.
pub trait LocalPunctuator: Send + Sync {
    fn refine(&self, raw: &str) -> String;
}

/// Interim L2 until a downloaded punctuation model is registered:
/// discourse-marker heuristics for Chinese ASR dumps, not semantic NLP.
pub struct HeuristicPunctuator;

impl LocalPunctuator for HeuristicPunctuator {
    fn refine(&self, raw: &str) -> (r: String)
        ensures
            r@ == heuristic_refine(raw@),
    {
        refine_heuristic(raw)
    }
}

fn strip_ellipsis_chars(t: &mut Vec<char>)
    ensures
        final(t)@ == strip_ellipsis(old(t)@),
{
    while t.len() > 0 && t[t.len() - 1] == '…'
        invariant
            strip_ellipsis(t@) == strip_ellipsis(old(t)@),
        decreases t@.len(),
    {
        t.pop();
    }
}

fn is_question_particle_exec(c: char) -> (r: bool)
    ensures
        r == is_question_particle(c),
{
    c == '吗' || c == '呢' || c == '么'
}

fn closes_clause_exec(c: char) -> (r: bool)
    ensures
        r == closes_clause(c),
{
    c == '。' || c == '？' || c == '！' || c == '；' || c == '\n' || c == '，' || c == ','
}

fn break_words_exec() -> (r: Vec<Vec<char>>)
    ensures
        vviews(r@) == break_words(),
{
    let r = vec![
        vec!['但', '是'],
        vec!['然', '而'],
        vec!['因', '此'],
        vec!['所', '以'],
        vec!['另', '外'],
        vec!['此', '外'],
        vec!['第', '一'],
        vec!['第', '二'],
        vec!['第', '三'],
        vec!['首', '先'],
        vec!['其', '次'],
        vec!['最', '后'],
        vec!['总', '之'],
        vec!['接', '下', '来'],
        vec!['下', '面'],
        vec!['各', '位'],
        vec!['同', '志', '们'],
        vec!['谢', '谢', '大', '家'],
    ];
    assert(vviews(r@) =~= break_words());
    r
}

fn insert_break_chars(t: Vec<char>, b: &[char]) -> (r: Vec<char>)
    ensures
        r@ == insert_break(t@, b@),
{
    match find_chars(&t, b, 0) {
        Some(idx) => {
            proof {
                lemma_find_from_facts(t@, b@, 0);
            }
            if idx > 0 && !closes_clause_exec(t[idx - 1]) {
                let mut r = copy_range(&t, 0, idx);
                r.push('。');
                let mut k = idx;
                let ghost base = r@;
                while k < t.len()
                    invariant
                        idx <= k <= t@.len(),
                        r@ == base + t@.subrange(idx as int, k as int),
                    decreases t@.len() - k,
                {
                    r.push(t[k]);
                    k = k + 1;
                    assert(r@ =~= base + t@.subrange(idx as int, k as int));
                }
                assert(r@ =~= t@.take(idx as int) + seq!['。'] + t@.skip(idx as int));
                r
            } else {
                t
            }
        },
        None => t,
    }
}

fn refine_heuristic_chars(raw: &[char]) -> (r: Vec<char>)
    ensures
        r@ == heuristic_refine(raw@),
{
    let t0 = trim_vec(raw);
    if t0.len() == 0 {
        return t0;
    }
    // Strip trailing ellipses left by forced cuts before re-punctuating.
    let mut t = t0;
    strip_ellipsis_chars(&mut t);
    let mut t = trim_vec(&t);
    // Insert sentence breaks before common discourse openers (mid-string).
    let breaks = break_words_exec();
    let ghost t1 = t@;
    let mut i: usize = 0;
    while i < breaks.len()
        invariant
            i <= breaks@.len(),
            vviews(breaks@) == break_words(),
            t@ == insert_breaks(t1, break_words().take(i as int)),
        decreases breaks@.len() - i,
    {
        assert(break_words().take(i + 1).drop_last() =~= break_words().take(i as int));
        assert(break_words().take(i + 1).last() == breaks@[i as int]@);
        t = insert_break_chars(t, &breaks[i]);
        i = i + 1;
    }
    assert(break_words().take(breaks@.len() as int) =~= break_words());
    // Question particles near the end of clauses.
    let t = replace_chars(&t, &['吗', '。'], &['吗', '？']);
    let mut t = replace_chars(&t, &['呢', '。'], &['呢', '？']);
    proof {
        assert(seq!['吗', '。'] =~= [ '吗', '。' ]@);
    }
    if t.len() > 0 && is_question_particle_exec(t[t.len() - 1]) {
        t.push('？');
    } else if !ends_with_sentence_punct_chars(&t) {
        t.push('。');
    }
    t
}

/// The built-in L2 heuristic.
pub fn refine_heuristic(raw: &str) -> (r: String)
    ensures
        r@ == heuristic_refine(raw@),
{
    let v = chars_of(raw);
    let out = refine_heuristic_chars(&v);
    string_of(&out)
}


// ---------------------------------------------------------------------------
// L2 registry
// ---------------------------------------------------------------------------

/// The registered L2 punctuator.
pub enum PunctuatorSlot {
    /// Nothing registered.
    Empty,
    /// The built-in discourse-marker heuristic.
    Builtin(HeuristicPunctuator),
    /// A punctuator supplied by the application (e.g. a local model).
    Custom(Box<dyn LocalPunctuator>),
}

/// What kind of L2 punctuator a registry holds.
#[derive(Clone, Copy, Debug, PartialEq, Eq, Structural)]
pub enum PunctuatorKind {
    Unset,
    Builtin,
    Custom,
}

/// Holder of the L2 punctuator used by the batch and live paths.
pub struct PunctuatorRegistry {
    slot: PunctuatorSlot,
}

impl PunctuatorRegistry {
    pub closed spec fn kind(&self) -> PunctuatorKind {
        match self.slot {
            PunctuatorSlot::Empty => PunctuatorKind::Unset,
            PunctuatorSlot::Builtin(_) => PunctuatorKind::Builtin,
            PunctuatorSlot::Custom(_) => PunctuatorKind::Custom,
        }
    }

    /// A registry with nothing registered.
    pub fn new() -> (r: Self)
        ensures
            r.kind() == PunctuatorKind::Unset,
    {
        PunctuatorRegistry { slot: PunctuatorSlot::Empty }
    }
}

/// Register L2 (a real model later). Pass `None` to clear.
pub fn set_local_punctuator(registry: &mut PunctuatorRegistry, p: Option<Box<dyn LocalPunctuator>>)
    ensures
        final(registry).kind() == (if p is Some {
            PunctuatorKind::Custom
        } else {
            PunctuatorKind::Unset
        }),
{
    registry.slot = match p {
        Some(b) => PunctuatorSlot::Custom(b),
        None => PunctuatorSlot::Empty,
    };
}

/// Install the built-in heuristic L2 if nothing is registered yet.
pub fn ensure_default_punctuator(registry: &mut PunctuatorRegistry)
    ensures
        old(registry).kind() == PunctuatorKind::Unset ==> final(registry).kind()
            == PunctuatorKind::Builtin,
        old(registry).kind() != PunctuatorKind::Unset ==> *final(registry) == *old(registry),
{
    if let PunctuatorSlot::Empty = registry.slot {
        registry.slot = PunctuatorSlot::Builtin(HeuristicPunctuator);
    }
}

/// Whether an L2 punctuator is registered.
pub fn local_punctuator_available(registry: &PunctuatorRegistry) -> (r: bool)
    ensures
        r == (registry.kind() != PunctuatorKind::Unset),
{
    match registry.slot {
        PunctuatorSlot::Empty => false,
        _ => true,
    }
}

/// Batch result after L2: the refined text, or the raw text when the
/// punctuator returned nothing but whitespace.
pub open spec fn batch_finish(raw: Seq<char>, refined: Seq<char>) -> Seq<char> {
    if trim(refined).len() == 0 {
        raw
    } else {
        refined
    }
}

/// Live display after L2: the L1 text when the refinement is blank;
/// otherwise the refinement, closed by the pause rules when it does not
/// already end in punctuation (a short pause leaves it open).
pub open spec fn segment_display(ruled: Seq<char>, refined: Seq<char>, silence_ms: u64, force_cut: bool) -> Seq<char> {
    if trim(refined).len() == 0 {
        ruled
    } else if ends_with_sentence_punct_spec(refined) {
        refined
    } else if force_cut {
        trim(refined).push('…')
    } else if silence_ms >= PAUSE_PARAGRAPH_MS {
        trim(refined) + seq!['。', '\n']
    } else if silence_ms >= PAUSE_PERIOD_MS {
        trim(refined).push('。')
    } else {
        refined
    }
}

/// Batch result for a given L2 output on the trimmed raw text.
pub fn finish_batch_refinement(raw: &str, refined: String) -> (r: String)
    ensures
        r@ == batch_finish(raw@, refined@),
{
    let v = chars_of(refined.as_str());
    if is_blank(&v) {
        String::from_str(raw)
    } else {
        refined
    }
}

/// Live display text for a given L1 text and L2 output.
pub fn finish_segment_display(ruled: String, refined: String, silence_ms: u64, force_cut: bool) -> (r: String)
    ensures
        r@ == segment_display(ruled@, refined@, silence_ms, force_cut),
{
    let v = chars_of(refined.as_str());
    if is_blank(&v) {
        return ruled;
    }
    if ends_with_sentence_punct_chars(&v) {
        return refined;
    }
    if !force_cut && silence_ms < PAUSE_PERIOD_MS {
        return refined;
    }
    let mut t = trim_vec(&v);
    if force_cut {
        t.push('…');
    } else if silence_ms >= PAUSE_PARAGRAPH_MS {
        t.push('。');
        t.push('\n');
        assert(t@ =~= trim(refined@) + seq!['。', '\n']);
    } else {
        t.push('。');
    }
    string_of(&t)
}

/// Runs the registered punctuator on `raw`, if any.
fn run_registered(registry: &PunctuatorRegistry, raw: &str) -> (r: Option<String>)
    ensures
        registry.kind() == PunctuatorKind::Unset <==> r is None,
        registry.kind() == PunctuatorKind::Builtin ==> (r matches Some(s) && s@ == heuristic_refine(raw@)),
{
    match &registry.slot {
        PunctuatorSlot::Empty => None,
        PunctuatorSlot::Builtin(h) => Some(h.refine(raw)),
        PunctuatorSlot::Custom(p) => Some(p.refine(raw)),
    }
}

/// Pure batch / history path: **no L1**, raw ASR then L2 only.
///
/// - `Off`: the trimmed raw text
/// - `Rules` / `LocalPunc`: L2 refinement of the full trimmed text (the
///   default heuristic is installed first if nothing is registered)
pub fn punctuate_batch_transcript(raw: &str, mode: TextPunctuationMode, registry: &mut PunctuatorRegistry) -> (r: String)
    ensures
        trim(raw@).len() == 0 ==> r@ == Seq::<char>::empty() && *final(registry) == *old(registry),
        trim(raw@).len() > 0 && mode == TextPunctuationMode::Off ==> r@ == trim(raw@)
            && *final(registry) == *old(registry),
        trim(raw@).len() > 0 && mode != TextPunctuationMode::Off ==> {
            &&& old(registry).kind() == PunctuatorKind::Unset ==> final(registry).kind()
                == PunctuatorKind::Builtin
            &&& old(registry).kind() != PunctuatorKind::Unset ==> *final(registry) == *old(registry)
            &&& final(registry).kind() == PunctuatorKind::Builtin ==> r@ == heuristic_refine(trim(raw@))
            &&& final(registry).kind() == PunctuatorKind::Custom ==> exists|out: Seq<char>|
                r@ == batch_finish(trim(raw@), out)
        },
{
    let v = chars_of(raw);
    let t = trim_vec(&v);
    if t.len() == 0 {
        return String::new();
    }
    let raw_t = string_of(&t);
    match mode {
        TextPunctuationMode::Off => raw_t,
        TextPunctuationMode::Rules | TextPunctuationMode::LocalPunc => {
            ensure_default_punctuator(registry);
            match run_registered(registry, raw_t.as_str()) {
                Some(out) => {
                    let ghost o = out@;
                    proof {
                        lemma_trim_idempotent(raw@);
                        if registry.kind() == PunctuatorKind::Builtin {
                            lemma_heuristic_closes(raw_t@);
                        }
                    }
                    let r = finish_batch_refinement(raw_t.as_str(), out);
                    assert(r@ == batch_finish(trim(raw@), o));
                    r
                },
                None => raw_t,
            }
        },
    }
}

/// `seg` is what L1 (and, in `LocalPunc` mode, L2) make of `raw`, where the
/// registry went from `before` to `after` (the default heuristic is installed
/// when `LocalPunc` finds nothing registered).
pub open spec fn punctuated_segment(
    raw: Seq<char>,
    silence_ms: u64,
    force_cut: bool,
    mode: TextPunctuationMode,
    before: PunctuatorRegistry,
    after: PunctuatorRegistry,
    seg: SegmentText,
) -> bool {
    &&& seg.raw@ == trim(raw)
    &&& seg.silence_ms == silence_ms
    &&& seg.force_cut == force_cut
    &&& mode != TextPunctuationMode::LocalPunc ==> after == before
    &&& mode == TextPunctuationMode::Off ==> seg.display@ == trim(raw)
    &&& mode == TextPunctuationMode::Rules ==> seg.display@ == pause_rule_text(raw, silence_ms, force_cut)
    &&& mode == TextPunctuationMode::LocalPunc ==> {
        &&& before.kind() == PunctuatorKind::Unset ==> after.kind() == PunctuatorKind::Builtin
        &&& before.kind() != PunctuatorKind::Unset ==> after == before
        &&& after.kind() == PunctuatorKind::Builtin ==> seg.display@ == (if trim(raw).len() == 0 {
            Seq::<char>::empty()
        } else {
            heuristic_refine(trim(raw))
        })
        &&& after.kind() == PunctuatorKind::Custom ==> exists|out: Seq<char>|
            seg.display@ == #[trigger] segment_display(pause_rule_text(raw, silence_ms, force_cut), out, silence_ms, force_cut)
    }
}

/// Run L1 and optional L2 on a finished segment.
pub fn punctuate_segment(
    raw: &str,
    silence_ms: u64,
    force_cut: bool,
    mode: TextPunctuationMode,
    registry: &mut PunctuatorRegistry,
) -> (r: SegmentText)
    ensures
        punctuated_segment(raw@, silence_ms, force_cut, mode, *old(registry), *final(registry), r),
{
    let v = chars_of(raw);
    let t = trim_vec(&v);
    let raw_t = string_of(&t);
    proof {
        lemma_trim_idempotent(raw@);
    }
    let display = match mode {
        TextPunctuationMode::Off => string_of(&t),
        TextPunctuationMode::Rules => {
            let d = pause_rule_chars(&t, silence_ms, force_cut);
            string_of(&d)
        },
        TextPunctuationMode::LocalPunc => {
            // Live: L1 for the immediate display shape, L2 on *raw* for clauses.
            ensure_default_punctuator(registry);
            let ruled_v = pause_rule_chars(&t, silence_ms, force_cut);
            let ruled = string_of(&ruled_v);
            match run_registered(registry, raw_t.as_str()) {
                Some(refined) => {
                    let ghost o = refined@;
                    proof {
                        if registry.kind() == PunctuatorKind::Builtin && raw_t@.len() > 0 {
                            lemma_heuristic_closes(raw_t@);
                        }
                    }
                    let d = finish_segment_display(ruled, refined, silence_ms, force_cut);
                    assert(d@ == segment_display(pause_rule_text(raw@, silence_ms, force_cut), o, silence_ms, force_cut));
                    d
                },
                None => ruled,
            }
        },
    };
    SegmentText { raw: raw_t, display, silence_ms, force_cut }
}

// ---------------------------------------------------------------------------
// Laws
// ---------------------------------------------------------------------------

proof fn lemma_last_non_ws_push(s: Seq<char>, c: char)
    requires
        !is_ws(c),
    ensures
        last_non_ws(s.push(c)) == Some(c),
{
    assert(s.push(c)[s.len() as int] == c);
}

/// Registering then ensuring a default: after `set_local_punctuator(p)`
/// (`r0` to `r1`) a punctuator is available exactly when `p` is `Some`; a
/// following `ensure_default_punctuator` (`r1` to `r2`) keeps a registered
/// punctuator and otherwise installs the built-in one, so one is available;
/// a second `ensure_default_punctuator` (`r2` to `r3`) changes nothing. The
/// requirements are what those calls state.
pub proof fn lemma_registry_sequence(
    r1: PunctuatorRegistry,
    r2: PunctuatorRegistry,
    r3: PunctuatorRegistry,
    set_some: bool,
)
    requires
        r1.kind() == (if set_some {
            PunctuatorKind::Custom
        } else {
            PunctuatorKind::Unset
        }),
        r1.kind() == PunctuatorKind::Unset ==> r2.kind() == PunctuatorKind::Builtin,
        r1.kind() != PunctuatorKind::Unset ==> r2 == r1,
        r2.kind() == PunctuatorKind::Unset ==> r3.kind() == PunctuatorKind::Builtin,
        r2.kind() != PunctuatorKind::Unset ==> r3 == r2,
    ensures
        (r1.kind() != PunctuatorKind::Unset) == set_some,
        r2.kind() != PunctuatorKind::Unset,
        set_some ==> r2 == r1,
        !set_some ==> r2.kind() == PunctuatorKind::Builtin,
        r3 == r2,
{
}

/// Whenever the raw text is not blank, the heuristic's output is not blank
/// and ends in sentence punctuation.
pub proof fn lemma_heuristic_closes(raw: Seq<char>)
    requires
        trim(raw).len() > 0,
    ensures
        ends_with_sentence_punct_spec(heuristic_refine(raw)),
        trim(heuristic_refine(raw)).len() > 0,
{
    let t0 = trim(raw);
    let t1 = trim(strip_ellipsis(t0));
    let t2 = insert_breaks(t1, break_words());
    let t3 = replace_all(replace_all(t2, seq!['吗', '。'], seq!['吗', '？']), seq!['呢', '。'], seq!['呢', '？']);
    let out = heuristic_refine(raw);
    if t3.len() > 0 && is_question_particle(t3.last()) {
        lemma_last_non_ws_push(t3, '？');
    } else if !ends_with_sentence_punct_spec(t3) {
        lemma_last_non_ws_push(t3, '。');
    }
    lemma_closed_not_blank(out);
}

/// Text whose last non-whitespace character exists is not blank.
proof fn lemma_closed_not_blank(s: Seq<char>)
    requires
        last_non_ws(s) is Some,
    ensures
        trim(s).len() > 0,
{
    let j = tail_end(s, s.len() as int);
    lemma_tail_end_bounds(s, s.len() as int);
    lemma_trim_facts(s);
    assert(!is_ws(s[j - 1]));
}

/// L1 closes every non-blank segment: its output is empty exactly when the
/// input is blank, and otherwise ends in sentence punctuation.
pub proof fn lemma_pause_rules_close(raw: Seq<char>, silence_ms: u64, force_cut: bool)
    ensures
        pause_rule_text(raw, silence_ms, force_cut).len() == 0 <==> trim(raw).len() == 0,
        trim(raw).len() > 0 ==> ends_with_sentence_punct_spec(
            pause_rule_text(raw, silence_ms, force_cut),
        ),
{
    let t = trim(raw);
    if t.len() > 0 && !ends_with_sentence_punct_spec(t) {
        if force_cut {
            lemma_last_non_ws_push(t, '…');
        } else if silence_ms >= PAUSE_PARAGRAPH_MS {
            let s = t + seq!['。', '\n'];
            assert(s == t.push('。').push('\n'));
            lemma_last_non_ws_push(t, '。');
            assert(is_ws('\n'));
            assert(s[s.len() - 1] == '\n');
            assert(tail_end(s, s.len() as int) == tail_end(s, s.len() - 1));
            assert(s[s.len() - 2] == '。');
        } else {
            lemma_last_non_ws_push(t, (if silence_ms >= PAUSE_PERIOD_MS { '。' } else { '，' }));
            assert(t + pause_suffix(silence_ms) =~= t.push(
                if silence_ms >= PAUSE_PERIOD_MS {
                    '。'
                } else {
                    '，'
                },
            ));
        }
    }
}

/// L1 applied to its own output only trims it: closed text stays closed.
pub proof fn lemma_pause_rules_stable(raw: Seq<char>, silence_ms: u64, force_cut: bool, silence2: u64, force2: bool)
    ensures
        pause_rule_text(pause_rule_text(raw, silence_ms, force_cut), silence2, force2) == trim(
            pause_rule_text(raw, silence_ms, force_cut),
        ),
{
    let p = pause_rule_text(raw, silence_ms, force_cut);
    lemma_pause_rules_close(raw, silence_ms, force_cut);
    lemma_trim_idempotent(p);
    if trim(p).len() > 0 {
        lemma_trim_last_non_ws(p);
    }
}

/// Trimming keeps the last non-whitespace character.
pub proof fn lemma_trim_last_non_ws(s: Seq<char>)
    requires
        trim(s).len() > 0,
    ensures
        last_non_ws(trim(s)) == last_non_ws(s),
{
    let a = lead_end(s, 0);
    lemma_lead_end_bounds(s, 0);
    let t = trim_start(s);
    let b = tail_end(t, t.len() as int);
    lemma_tail_end_bounds(t, t.len() as int);
    lemma_trim_facts(s);
    let u = trim(s);
    assert(u.last() == t[b - 1]);
    assert(tail_end(u, u.len() as int) == u.len());
    // In `s` the trailing whitespace run ends right after index a + b - 1.
    lemma_tail_end_bounds(s, s.len() as int);
    let j = tail_end(s, s.len() as int);
    assert(t[b - 1] == s[a + b - 1]);
    assert forall|k: int| a + b <= k < s.len() implies is_ws(#[trigger] s[k]) by {
        assert(t[k - a] == s[k]);
    }
    if j > a + b {
        assert(is_ws(s[j - 1]));
    }
    if j < a + b {
        assert(is_ws(s[a + b - 1]));
    }
}

/// A non-blank segment whose last non-whitespace character is one of
/// 。？！；.?!…，, is returned trimmed and otherwise unchanged; any other
/// non-blank segment gets `…` (forced cut) or, by the trailing silence, `，`
/// (under 400 ms), `。` (400 ms on) or `。` and a line break (1500 ms on)
/// after its trimmed text.
pub proof fn lemma_pause_rules_respect_punctuation(raw: Seq<char>, silence_ms: u64, force_cut: bool)
    requires
        trim(raw).len() > 0,
    ensures
        last_non_ws(raw) is Some,
        ({
            let c = last_non_ws(raw)->0;
            let closed = c == '。' || c == '？' || c == '！' || c == '；' || c == '.' || c == '?' || c
                == '!' || c == '…' || c == '，' || c == ',';
            &&& closed ==> pause_rule_text(raw, silence_ms, force_cut) == trim(raw)
            &&& !closed ==> pause_rule_text(raw, silence_ms, force_cut) == if force_cut {
                trim(raw).push('…')
            } else if silence_ms >= 1500 {
                trim(raw) + seq!['。', '\n']
            } else if silence_ms >= 400 {
                trim(raw).push('。')
            } else {
                trim(raw).push('，')
            }
        }),
{
    lemma_trim_last_non_ws(raw);
    let t = trim(raw);
    lemma_trim_facts(raw);
    lemma_tail_end_bounds(t, t.len() as int);
    assert(tail_end(t, t.len() as int) == t.len());
    assert(last_non_ws(t) is Some);
    if silence_ms < 1500 && silence_ms >= 400 {
        assert(t + seq!['。'] =~= t.push('。'));
    } else if silence_ms < 400 {
        assert(t + seq!['，'] =~= t.push('，'));
    }
}

/// Substitution keeps the last character when the pattern cannot end there.
proof fn lemma_subst_keeps_last(s: Seq<char>, p: Seq<char>, r: Seq<char>, i: int)
    requires
        0 <= i < s.len(),
        p.len() > 0 ==> p.last() != s.last(),
    ensures
        crate::text::subst(s, s, p, r, i).len() > 0,
        crate::text::subst(s, s, p, r, i).last() == s.last(),
    decreases s.len() - i,
{
    let out = crate::text::subst(s, s, p, r, i);
    if p.len() > 0 && i + p.len() <= s.len() && crate::text::matches_at(s, p, i) {
        if i + p.len() == s.len() {
            assert(s.subrange(i, i + p.len())[p.len() - 1] == s.last());
        }
        lemma_subst_keeps_last(s, p, r, i + p.len());
        let rest = crate::text::subst(s, s, p, r, i + p.len());
        assert(out == r + rest);
        assert((r + rest).last() == rest.last());
    } else {
        let rest = crate::text::subst(s, s, p, r, i + 1);
        assert(out == seq![s[i]] + rest);
        if i + 1 < s.len() {
            lemma_subst_keeps_last(s, p, r, i + 1);
            assert((seq![s[i]] + rest).last() == rest.last());
        } else {
            assert(rest == Seq::<char>::empty());
            assert(out =~= seq![s[i]]);
        }
    }
}

/// A sentence break is inserted before the end, never after it.
proof fn lemma_insert_break_keeps_last(t: Seq<char>, b: Seq<char>)
    requires
        t.len() > 0,
    ensures
        insert_break(t, b).len() > 0,
        insert_break(t, b).last() == t.last(),
{
    lemma_find_from_facts(t, b, 0);
    if let Some(idx) = find(t, b) {
        if idx > 0 && !closes_clause(t[idx - 1]) {
            if b.len() == 0 {
                assert(crate::text::matches_at(t, b, 0)) by {
                    assert(t.subrange(0, 0) =~= b);
                }
            }
            let out = t.take(idx) + seq!['。'] + t.skip(idx);
            assert(out.last() == t.skip(idx).last());
        }
    }
}

proof fn lemma_insert_breaks_keeps_last(t: Seq<char>, bs: Seq<Seq<char>>)
    requires
        t.len() > 0,
    ensures
        insert_breaks(t, bs).len() > 0,
        insert_breaks(t, bs).last() == t.last(),
    decreases bs.len(),
{
    if bs.len() > 0 {
        lemma_insert_breaks_keeps_last(t, bs.drop_last());
        lemma_insert_break_keeps_last(insert_breaks(t, bs.drop_last()), bs.last());
    }
}

/// Raw text whose trimmed form ends in a question particle (吗, 呢 or 么)
/// comes back from the heuristic ending in that particle followed by `？`.
pub proof fn lemma_heuristic_question(raw: Seq<char>)
    requires
        trim(raw).len() > 0,
        trim(raw).last() == '吗' || trim(raw).last() == '呢' || trim(raw).last() == '么',
    ensures
        heuristic_refine(raw).len() >= 2,
        heuristic_refine(raw).last() == '？',
        heuristic_refine(raw)[heuristic_refine(raw).len() - 2] == trim(raw).last(),
{
    let t0 = trim(raw);
    let c = t0.last();
    assert(strip_ellipsis(t0) == t0);
    lemma_trim_idempotent(raw);
    let t1 = trim(strip_ellipsis(t0));
    assert(t1 == t0);
    let t2 = insert_breaks(t1, break_words());
    lemma_insert_breaks_keeps_last(t1, break_words());
    let q1 = seq!['吗', '。'];
    let q2 = seq!['呢', '。'];
    let u = replace_all(t2, q1, seq!['吗', '？']);
    lemma_subst_keeps_last(t2, q1, seq!['吗', '？'], 0);
    let t3 = replace_all(u, q2, seq!['呢', '？']);
    lemma_subst_keeps_last(u, q2, seq!['呢', '？'], 0);
    assert(t3.last() == c);
    assert(is_question_particle(t3.last()));
    assert(heuristic_refine(raw) == t3.push('？'));
}

} // verus!

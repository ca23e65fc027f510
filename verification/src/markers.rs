//! ASR correction markers (易错词 / 标识物) knowledge base.
//!
//! Persistent `error → correct` pairs used for:
//! 1. Rule-based pre-correction after raw ASR
//! 2. Glossary injection into LLM post-process prompts (`${glossary}`)
//! 3. Incremental merge of newly discovered pairs from LLM output

use vstd::prelude::*;
pub use crate::clock::chrono_date_string;
use crate::text::{
    chars_of, concat, contains, contains_chars, copy_range, find, find_chars, join_sep,
    join_strings, lowercase_chars, replace_all, replace_chars, split_by, split_chars,
    str_contains, str_eq, str_lowercase, string_of, trim, trim_char, trim_char_vec, trim_vec,
    views, vviews, lemma_find_from_facts, find_from, matches_at, lines_text,
};

verus! {

/// Version written into new stores.
pub const STORE_VERSION: u32 = 1;

/// Confidence of a marker entry.
#[derive(Clone, Copy, Debug, PartialEq, Eq, Structural)]
pub enum MarkerConfidence {
    /// Human- or pipeline-verified; safe for rule replacement.
    Verified,
    /// Proposed by the LLM; shown in the UI until accepted.
    Pending,
}

impl Default for MarkerConfidence {
    fn default() -> (r: Self)
        ensures
            r == MarkerConfidence::Verified,
    {
        MarkerConfidence::Verified
    }
}

/// How `asr_errors` patterns match the transcript.
#[derive(Clone, Copy, Debug, PartialEq, Eq, Structural)]
pub enum MarkerMatchMode {
    /// Exact substring (default; longest patterns first).
    Exact,
    /// Case-insensitive substring (mainly Latin; CJK is unchanged).
    CaseInsensitive,
    /// Full regex; the replacement may use `$1` capture groups.
    Regex,
}

impl Default for MarkerMatchMode {
    fn default() -> (r: Self)
        ensures
            r == MarkerMatchMode::Exact,
    {
        MarkerMatchMode::Exact
    }
}

/// One `error forms → correct form` entry.
#[derive(Debug, Clone)]
pub struct AsrMarker {
    /// One or more mis-recognized surface forms.
    pub asr_errors: Vec<String>,
    /// Canonical correct form.
    pub correct: String,
    /// Taxonomy bucket (org / term / person / place / code / format / other).
    pub category: String,
    pub note: Option<String>,
    /// First discovery scene / source label.
    pub source: Option<String>,
    pub confidence: MarkerConfidence,
    /// Match strategy for `asr_errors` (default exact).
    pub match_mode: MarkerMatchMode,
}

/// One line of the store's change history.
#[derive(Debug, Clone)]
pub struct MarkerChangelogEntry {
    pub date: String,
    pub summary: String,
    pub source: Option<String>,
    pub count: u32,
}

/// The persisted marker store.
#[derive(Debug, Clone)]
pub struct AsrMarkerStore {
    pub version: u32,
    pub markers: Vec<AsrMarker>,
    pub changelog: Vec<MarkerChangelogEntry>,
}

/// Category given to markers that do not name one.
pub fn default_category() -> (r: String)
    ensures
        r@ == "other"@,
{
    String::from_str("other")
}

/// Version assumed for stores that do not record one.
pub fn default_store_version() -> (r: u32)
    ensures
        r == STORE_VERSION,
{
    STORE_VERSION
}

impl Default for AsrMarkerStore {
    fn default() -> (r: Self)
        ensures
            r.version == STORE_VERSION,
            r.markers@.len() == 0,
            r.changelog@.len() == 0,
    {
        AsrMarkerStore { version: STORE_VERSION, markers: Vec::new(), changelog: Vec::new() }
    }
}

/// In-memory copy of the last store read or written.
pub struct MarkerCache {
    cached: Option<AsrMarkerStore>,
}

impl MarkerCache {
    pub closed spec fn stored(&self) -> Option<AsrMarkerStore> {
        self.cached
    }

    /// An empty cache.
    pub fn new() -> (r: Self)
        ensures
            r.stored() is None,
    {
        MarkerCache { cached: None }
    }

    /// The cached store, if any.
    pub fn get(&self) -> (r: Option<&AsrMarkerStore>)
        ensures
            r matches Some(s) ==> self.stored() == Some(*s),
            r is None <==> self.stored() is None,
    {
        match &self.cached {
            Some(s) => Some(s),
            None => None,
        }
    }

    /// Remember `store` as the current contents.
    pub fn remember(&mut self, store: AsrMarkerStore)
        ensures
            final(self).stored() == Some(store),
    {
        self.cached = Some(store);
    }
}

/// Forget the cached store so the next load reads the file again.
pub fn invalidate_cache(cache: &mut MarkerCache)
    ensures
        final(cache).stored() is None,
{
    cache.cached = None;
}

// ---------------------------------------------------------------------------
// Prompt helpers
// ---------------------------------------------------------------------------

/// The glossary placeholder in post-process prompts.
pub open spec fn glossary_placeholder() -> Seq<char> {
    "${glossary}"@
}

/// Header of the new-markers table in LLM output.
pub open spec fn new_markers_header() -> Seq<char> {
    "【新增标识物】"@
}

/// Glossary text of an empty store.
pub open spec fn empty_glossary() -> Seq<char> {
    "(empty — no markers yet)"@
}

/// `${glossary}` filled in; a template without the placeholder gets the
/// glossary appended when there is one.
pub open spec fn injected(template: Seq<char>, glossary: Seq<char>) -> Seq<char> {
    if contains(template, glossary_placeholder()) {
        replace_all(template, glossary_placeholder(), glossary)
    } else if glossary != empty_glossary() && glossary.len() > 0 {
        template + "\n\n# Glossary (auto-injected)\n"@ + glossary + "\n"@
    } else {
        template
    }
}

/// Inject `${glossary}` (and leave `${output}` for the existing pipeline).
pub fn inject_glossary(prompt_template: &str, glossary: &str) -> (r: String)
    ensures
        r@ == injected(prompt_template@, glossary@),
{
    if str_contains(prompt_template, "${glossary}") {
        let t = chars_of(prompt_template);
        let p = chars_of("${glossary}");
        let g = chars_of(glossary);
        let out = replace_chars(&t, &p, &g);
        string_of(&out)
    } else if !str_eq(glossary, "(empty — no markers yet)") && glossary.unicode_len() > 0 {
        // Append the glossary when the template forgot the placeholder.
        let mut out = String::from_str(prompt_template);
        out.append("\n\n# Glossary (auto-injected)\n");
        out.append(glossary);
        out.append("\n");
        out
    } else {
        String::from_str(prompt_template)
    }
}

/// Every `$` of `s` is two characters before an `o` (as in `${output}`).
spec fn dollars_open_o(s: Seq<char>) -> bool {
    forall|j: int| 0 <= j < s.len() && #[trigger] s[j] == '$' ==> j + 2 < s.len() && s[j + 2] == 'o'
}

proof fn lemma_fill_leaves_output_dollars(t: Seq<char>, g: Seq<char>, i: int)
    requires
        0 <= i,
        forall|k: int| 0 <= k < g.len() ==> g[k] != '$',
        forall|k: int|
            0 <= k < t.len() && t[k] == '$' ==> crate::text::matches_at(t, "${glossary}"@, k)
                || crate::text::matches_at(t, "${output}"@, k),
    ensures
        dollars_open_o(crate::text::subst(t, t, "${glossary}"@, g, i)),
    decreases t.len() - i,
{
    reveal_strlit("${glossary}");
    reveal_strlit("${output}");
    let p = "${glossary}"@;
    let out = crate::text::subst(t, t, p, g, i);
    if i < t.len() {
        if p.len() > 0 && i + p.len() <= t.len() && crate::text::matches_at(t, p, i) {
            lemma_fill_leaves_output_dollars(t, g, i + p.len());
            let rest = crate::text::subst(t, t, p, g, i + p.len());
            assert(out == g + rest);
            assert forall|j: int| 0 <= j < out.len() && #[trigger] out[j] == '$' implies j + 2 < out.len() && out[j + 2] == 'o' by {
                if j < g.len() {
                    assert(out[j] == g[j]);
                } else {
                    assert(out[j] == rest[j - g.len()]);
                    assert(rest[j - g.len()] == '$');
                    assert(j - g.len() + 2 < rest.len() && rest[j - g.len() + 2] == 'o');
                    assert(out[j + 2] == rest[j - g.len() + 2]);
                }
            }
        } else {
            lemma_fill_leaves_output_dollars(t, g, i + 1);
            let rest = crate::text::subst(t, t, p, g, i + 1);
            assert(out == seq![t[i]] + rest);
            if t[i] == '$' {
                assert(crate::text::matches_at(t, "${output}"@, i));
                assert(t.subrange(i, i + 9)[1] == t[i + 1]);
                assert(t.subrange(i, i + 9)[2] == t[i + 2]);
                assert(t[i + 1] == '{');
                assert(t[i + 2] == 'o');
                if crate::text::matches_at(t, p, i + 1) {
                    assert(t.subrange(i + 1, i + 12)[0] == t[i + 1]);
                }
                assert(rest == seq![t[i + 1]] + crate::text::subst(t, t, p, g, i + 2));
                if crate::text::matches_at(t, p, i + 2) {
                    assert(t.subrange(i + 2, i + 13)[0] == t[i + 2]);
                }
                assert(crate::text::subst(t, t, p, g, i + 2) == seq![t[i + 2]] + crate::text::subst(t, t, p, g, i + 3));
                assert(out[2] == 'o');
            }
            assert forall|j: int| 0 <= j < out.len() && #[trigger] out[j] == '$' implies j + 2 < out.len() && out[j + 2] == 'o' by {
                if j > 0 {
                    assert(out[j] == rest[j - 1]);
                    assert(rest[j - 1] == '$');
                    assert(dollars_open_o(rest));
                    assert((j - 1) + 2 < rest.len() && rest[(j - 1) + 2] == 'o');
                    assert(out[j + 2] == rest[j + 1]);
                }
            }
        }
    }
}

/// Filling the glossary leaves no `${glossary}` behind: when the template
/// holds the placeholder, the glossary holds no `$`, and every `$` of the
/// template opens a `${glossary}` or an `${output}` placeholder (as in the
/// built-in correction prompt), the injected prompt holds no `${glossary}`.
pub proof fn lemma_inject_fills_every_placeholder(t: Seq<char>, g: Seq<char>)
    requires
        contains(t, "${glossary}"@),
        forall|k: int| 0 <= k < g.len() ==> g[k] != '$',
        forall|k: int|
            0 <= k < t.len() && t[k] == '$' ==> crate::text::matches_at(t, "${glossary}"@, k)
                || crate::text::matches_at(t, "${output}"@, k),
    ensures
        !contains(injected(t, g), "${glossary}"@),
{
    reveal_strlit("${glossary}");
    let p = "${glossary}"@;
    let out = injected(t, g);
    assert(out == crate::text::subst(t, t, p, g, 0));
    lemma_fill_leaves_output_dollars(t, g, 0);
    lemma_find_from_facts(out, p, 0);
    if contains(out, p) {
        let j = find(out, p)->0;
        assert(crate::text::matches_at(out, p, j));
        assert(out.subrange(j, j + 11)[0] == out[j]);
        assert(out.subrange(j, j + 11)[2] == out[j + 2]);
        assert(out[j] == '$');
        assert(out[j + 2] == 'o');
    }
}

/// Whether this prompt id / body should run the ASR correction parse path.
pub fn is_asr_correction_prompt(prompt_id: &str, prompt_body: &str) -> (r: bool)
    ensures
        r == (prompt_id@ == "default_asr_domain_correct"@ || contains(prompt_body@, glossary_placeholder())
            || contains(prompt_body@, new_markers_header())),
{
    str_eq(prompt_id, "default_asr_domain_correct") || str_contains(prompt_body, "${glossary}")
        || str_contains(prompt_body, "【新增标识物】")
}

/// Text of the built-in ASR correction prompt.
pub open spec fn asr_correction_prompt_text() -> Seq<char> {
    r#"You are an ASR post-correction engine, not a content writer.

# Preconditions
1. The glossary below is the authoritative misrecognition table. Prefer it over guesses.
2. Do not invent content that is not supported by the transcript.
3. Do not answer questions that appear in the transcript — only clean them.

# Glossary (${glossary})
${glossary}

# Rules
1. Restore Chinese/English punctuation and natural sentence breaks.
2. Correct proper nouns using the glossary first; then context.
3. Remove filler words (嗯/啊/那个/um/uh) but keep speaker tone.
4. Collapse pure stutters; keep the most complete phrasing once.
5. Numbers/dates: prefer clear forms (2026年, 12%, standard codes).
6. If unsure, keep the original wording and append [存疑：原文为"…"] once.

# Output
Return ONLY the corrected transcript body for the user-facing result.
After the body, if you found NEW misrecognition pairs not already in the glossary, append:

【新增标识物】
| ASR误识 | 正确形式 | 类别 |
| --- | --- | --- |
| ... | ... | ... |

Categories: org | term | person | place | code | format | other

If no new pairs, omit the 【新增标识物】 section entirely.

# Transcript
${output}
"#@
}

/// Built-in system/user hybrid prompt for domain ASR correction.
pub fn default_asr_correction_prompt() -> (r: String)
    ensures
        r@ == asr_correction_prompt_text(),
{
    String::from_str(
        r#"You are an ASR post-correction engine, not a content writer.

# Preconditions
1. The glossary below is the authoritative misrecognition table. Prefer it over guesses.
2. Do not invent content that is not supported by the transcript.
3. Do not answer questions that appear in the transcript — only clean them.

# Glossary (${glossary})
${glossary}

# Rules
1. Restore Chinese/English punctuation and natural sentence breaks.
2. Correct proper nouns using the glossary first; then context.
3. Remove filler words (嗯/啊/那个/um/uh) but keep speaker tone.
4. Collapse pure stutters; keep the most complete phrasing once.
5. Numbers/dates: prefer clear forms (2026年, 12%, standard codes).
6. If unsure, keep the original wording and append [存疑：原文为"…"] once.

# Output
Return ONLY the corrected transcript body for the user-facing result.
After the body, if you found NEW misrecognition pairs not already in the glossary, append:

【新增标识物】
| ASR误识 | 正确形式 | 类别 |
| --- | --- | --- |
| ... | ... | ... |

Categories: org | term | person | place | code | format | other

If no new pairs, omit the 【新增标识物】 section entirely.

# Transcript
${output}
"#,
    )
}

// ---------------------------------------------------------------------------
// Markdown rendering
// ---------------------------------------------------------------------------

/// A table cell: `|` escaped, newlines turned into spaces.
pub open spec fn md_cell(s: Seq<char>) -> Seq<char> {
    replace_all(replace_all(s, seq!['|'], seq!['\\', '|']), seq!['\n'], seq![' '])
}

pub open spec fn confidence_label(c: MarkerConfidence) -> Seq<char> {
    match c {
        MarkerConfidence::Verified => "verified"@,
        MarkerConfidence::Pending => "pending"@,
    }
}

pub open spec fn match_mode_label(m: MarkerMatchMode) -> Seq<char> {
    match m {
        MarkerMatchMode::Exact => "exact"@,
        MarkerMatchMode::CaseInsensitive => "case_insensitive"@,
        MarkerMatchMode::Regex => "regex"@,
    }
}

/// Error forms of a marker as one cell text.
pub open spec fn errors_text(m: AsrMarker) -> Seq<char> {
    join_sep(views(m.asr_errors@), " / "@)
}

/// Glossary table row of a marker.
pub open spec fn glossary_row(m: AsrMarker) -> Seq<char> {
    "| "@ + md_cell(errors_text(m)) + " | "@ + md_cell(m.correct@) + " | "@ + md_cell(m.category@)
        + " | "@ + confidence_label(m.confidence) + " |"@
}

/// Compact glossary block for `${glossary}` prompt injection.
pub open spec fn glossary_text(markers: Seq<AsrMarker>) -> Seq<char> {
    if markers.len() == 0 {
        empty_glossary()
    } else {
        join_sep(
            seq![
                "| ASR misrecognition | Correct form | Category | Confidence |"@,
                "|---|---|---|---|"@,
            ] + markers.map_values(|m: AsrMarker| glossary_row(m)),
            "\n"@,
        )
    }
}

fn escape_md_cell(s: &str) -> (r: String)
    ensures
        r@ == md_cell(s@),
{
    let v = chars_of(s);
    let a = replace_chars(&v, &['|'], &['\\', '|']);
    proof {
        assert(['|']@ =~= seq!['|']);
        assert(['\\', '|']@ =~= seq!['\\', '|']);
        assert(['\n']@ =~= seq!['\n']);
        assert([' ']@ =~= seq![' ']);
    }
    let b = replace_chars(&a, &['\n'], &[' ']);
    string_of(&b)
}

fn confidence_str(c: MarkerConfidence) -> (r: &'static str)
    ensures
        r@ == confidence_label(c),
{
    match c {
        MarkerConfidence::Verified => "verified",
        MarkerConfidence::Pending => "pending",
    }
}

fn match_mode_str(m: MarkerMatchMode) -> (r: &'static str)
    ensures
        r@ == match_mode_label(m),
{
    match m {
        MarkerMatchMode::Exact => "exact",
        MarkerMatchMode::CaseInsensitive => "case_insensitive",
        MarkerMatchMode::Regex => "regex",
    }
}

fn glossary_row_exec(m: &AsrMarker) -> (r: String)
    ensures
        r@ == glossary_row(*m),
{
    let errors = join_strings(&m.asr_errors, " / ");
    let mut out = String::from_str("| ");
    out.append(escape_md_cell(errors.as_str()).as_str());
    out.append(" | ");
    out.append(escape_md_cell(m.correct.as_str()).as_str());
    out.append(" | ");
    out.append(escape_md_cell(m.category.as_str()).as_str());
    out.append(" | ");
    out.append(confidence_str(m.confidence));
    out.append(" |");
    out
}

/// Compact glossary block for `${glossary}` prompt injection (verified and
/// pending markers).
pub fn format_glossary_for_prompt(store: &AsrMarkerStore) -> (r: String)
    ensures
        r@ == glossary_text(store.markers@),
{
    if store.markers.len() == 0 {
        return String::from_str("(empty — no markers yet)");
    }
    let mut lines: Vec<String> = Vec::new();
    lines.push(String::from_str("| ASR misrecognition | Correct form | Category | Confidence |"));
    lines.push(String::from_str("|---|---|---|---|"));
    let ghost head = seq![
        "| ASR misrecognition | Correct form | Category | Confidence |"@,
        "|---|---|---|---|"@,
    ];
    assert(views(lines@) =~= head);
    let mut i: usize = 0;
    while i < store.markers.len()
        invariant
            i <= store.markers@.len(),
            views(lines@) == head + store.markers@.take(i as int).map_values(|m: AsrMarker| glossary_row(m)),
        decreases store.markers@.len() - i,
    {
        let row = glossary_row_exec(&store.markers[i]);
        let ghost before = lines@;
        lines.push(row);
        assert(views(lines@) =~= views(before).push(glossary_row(store.markers@[i as int])));
        assert(store.markers@.take(i + 1) =~= store.markers@.take(i as int).push(store.markers@[i as int]));
        i = i + 1;
        assert(views(lines@) =~= head + store.markers@.take(i as int).map_values(|m: AsrMarker| glossary_row(m)));
    }
    assert(store.markers@.take(store.markers@.len() as int) =~= store.markers@);
    join_strings(&lines, "\n")
}

/// Lines of the front matter, title, note and table header of the Markdown
/// export.
pub open spec fn export_header_lines() -> Seq<Seq<char>> {
    seq![
        "---"@,
        "tags: [asr, markers, handy]"@,
        "---"@,
        ""@,
        "# ASR 标识物清单"@,
        ""@,
        "> Exported from Handy. Paste the table into Handy **Import markdown table**,"@,
        "> or convert offline with `代码研究/scripts/md_markers_to_json.mjs`."@,
        ""@,
        "| ASR误识 | 正确形式 | 类别 | 匹配 | 状态 |"@,
        "| --- | --- | --- | --- | --- |"@,
    ]
}

/// Front matter, title, note and table header of the Markdown export.
pub open spec fn export_header() -> Seq<char> {
    lines_text(export_header_lines())
}

/// Export table line of a marker (without its line break).
pub open spec fn export_line(m: AsrMarker) -> Seq<char> {
    "| "@ + md_cell(errors_text(m)) + " | "@ + md_cell(m.correct@) + " | "@ + md_cell(m.category@)
        + " | "@ + match_mode_label(m.match_mode) + " | "@ + confidence_label(m.confidence) + " |"@
}

/// Export table row of a marker.
pub open spec fn export_row(m: AsrMarker) -> Seq<char> {
    export_line(m) + "\n"@
}

/// Changelog bullet text of an entry (without its line break).
pub open spec fn changelog_text(e: MarkerChangelogEntry) -> Seq<char> {
    "- "@ + e.date@ + " — "@ + e.summary@ + " ("@ + (match e.source {
        Some(s) => s@,
        None => "-"@,
    }) + ")"@
}

/// Changelog bullet of an entry.
pub open spec fn changelog_line(e: MarkerChangelogEntry) -> Seq<char> {
    changelog_text(e) + "\n"@
}

/// The newest (at most 20) changelog entries, newest first.
pub open spec fn recent_changes(log: Seq<MarkerChangelogEntry>) -> Seq<MarkerChangelogEntry> {
    let n = if log.len() < 20 {
        log.len() as int
    } else {
        20
    };
    Seq::new(n as nat, |i: int| log[log.len() - 1 - i])
}

/// Markdown document for vault notes (export side of sync).
pub open spec fn markdown_export(store: AsrMarkerStore) -> Seq<char> {
    export_header() + concat(store.markers@.map_values(|m: AsrMarker| export_row(m))) + (if store.markers@.len() == 0 {
        "|  |  |  |  |  |\n"@
    } else {
        Seq::empty()
    }) + "\n"@ + (if store.changelog@.len() == 0 {
        Seq::empty()
    } else {
        "## Changelog\n\n"@ + concat(
            recent_changes(store.changelog@).map_values(|e: MarkerChangelogEntry| changelog_line(e)),
        ) + "\n"@
    })
}

fn export_row_exec(m: &AsrMarker) -> (r: String)
    ensures
        r@ == export_row(*m),
{
    let errors = join_strings(&m.asr_errors, " / ");
    let mut out = String::from_str("| ");
    out.append(escape_md_cell(errors.as_str()).as_str());
    out.append(" | ");
    out.append(escape_md_cell(m.correct.as_str()).as_str());
    out.append(" | ");
    out.append(escape_md_cell(m.category.as_str()).as_str());
    out.append(" | ");
    out.append(match_mode_str(m.match_mode));
    out.append(" | ");
    out.append(confidence_str(m.confidence));
    out.append(" |");
    out.append("\n");
    out
}

fn changelog_line_exec(e: &MarkerChangelogEntry) -> (r: String)
    ensures
        r@ == changelog_line(*e),
{
    let mut out = String::from_str("- ");
    out.append(e.date.as_str());
    out.append(" — ");
    out.append(e.summary.as_str());
    out.append(" (");
    match &e.source {
        Some(s) => out.append(s.as_str()),
        None => out.append("-"),
    }
    out.append(")");
    out.append("\n");
    out
}

/// Markdown document suitable for vault notes (export side of sync).
///
/// The table body can be imported again with the markdown import; the match
/// mode is written in its own column so round-trips stay human-editable.
pub fn format_markers_markdown_export(store: &AsrMarkerStore) -> (r: String)
    ensures
        r@ == markdown_export(*store),
{
    let header = [
        "---",
        "tags: [asr, markers, handy]",
        "---",
        "",
        "# ASR 标识物清单",
        "",
        "> Exported from Handy. Paste the table into Handy **Import markdown table**,",
        "> or convert offline with `代码研究/scripts/md_markers_to_json.mjs`.",
        "",
        "| ASR误识 | 正确形式 | 类别 | 匹配 | 状态 |",
        "| --- | --- | --- | --- | --- |",
    ];
    let ghost hl = export_header_lines();
    assert(header@.map_values(|l: &str| l@) =~= hl);
    let mut out = String::new();
    let mut h: usize = 0;
    while h < header.len()
        invariant
            h <= header@.len(),
            hl == export_header_lines(),
            header@.map_values(|l: &str| l@) == hl,
            out@ == lines_text(hl.take(h as int)),
        decreases header@.len() - h,
    {
        assert(header@[h as int]@ == hl[h as int]);
        out.append(header[h]);
        out.append("\n");
        proof {
            let f = |l: Seq<char>| l + "\n"@;
            assert(hl.take(h + 1).map_values(f).drop_last() =~= hl.take(h as int).map_values(f));
            assert(hl.take(h + 1).map_values(f).last() == hl[h as int] + "\n"@);
        }
        h = h + 1;
    }
    assert(hl.take(hl.len() as int) =~= hl);
    let ghost rows = store.markers@.map_values(|m: AsrMarker| export_row(m));
    let mut i: usize = 0;
    while i < store.markers.len()
        invariant
            i <= store.markers@.len(),
            rows == store.markers@.map_values(|m: AsrMarker| export_row(m)),
            out@ == export_header() + concat(rows.take(i as int)),
        decreases store.markers@.len() - i,
    {
        let row = export_row_exec(&store.markers[i]);
        out.append(row.as_str());
        assert(rows.take(i + 1).drop_last() =~= rows.take(i as int));
        i = i + 1;
    }
    assert(rows.take(rows.len() as int) =~= rows);
    if store.markers.len() == 0 {
        out.append("|  |  |  |  |  |\n");
    }
    out.append("\n");
    let ghost mid = out@;
    if store.changelog.len() > 0 {
        out.append("## Changelog\n\n");
        let n = store.changelog.len();
        let take = if n < 20 { n } else { 20 };
        let ghost recent = recent_changes(store.changelog@);
        let ghost lines = recent.map_values(|e: MarkerChangelogEntry| changelog_line(e));
        let ghost base = out@;
        let mut k: usize = 0;
        while k < take
            invariant
                k <= take,
                n == store.changelog@.len(),
                take == recent.len(),
                recent == recent_changes(store.changelog@),
                lines == recent.map_values(|e: MarkerChangelogEntry| changelog_line(e)),
                out@ == base + concat(lines.take(k as int)),
            decreases take - k,
        {
            let line = changelog_line_exec(&store.changelog[n - 1 - k]);
            assert(recent[k as int] == store.changelog@[n - 1 - k]);
            out.append(line.as_str());
            assert(lines.take(k + 1).drop_last() =~= lines.take(k as int));
            k = k + 1;
        }
        assert(lines.take(take as int) =~= lines);
        out.append("\n");
    }
    out
}


// ---------------------------------------------------------------------------
// Parsing LLM output
// ---------------------------------------------------------------------------

/// Result of parsing LLM correction output.
#[derive(Debug, Clone)]
pub struct ParsedCorrection {
    pub body: String,
    pub new_markers: Vec<AsrMarker>,
}

/// Separators between error forms in one table cell.
pub open spec fn error_separators() -> Seq<char> {
    seq!['/', '、', ',', '，']
}

/// Every element trimmed.
pub open spec fn trim_all(s: Seq<Seq<char>>) -> Seq<Seq<char>> {
    s.map_values(|x: Seq<char>| trim(x))
}

/// The non-empty elements, in order.
pub open spec fn nonempty_only(s: Seq<Seq<char>>) -> Seq<Seq<char>>
    decreases s.len(),
{
    if s.len() == 0 {
        Seq::empty()
    } else {
        let pre = nonempty_only(s.drop_last());
        if s.last().len() > 0 {
            pre.push(s.last())
        } else {
            pre
        }
    }
}

/// Trimmed cells of a table line (outer `|` removed).
pub open spec fn row_cells(t: Seq<char>) -> Seq<Seq<char>> {
    trim_all(split_by(trim_char(t, '|'), seq!['|']))
}

/// Header / separator cells of the marker table.
pub open spec fn is_header_row(c0: Seq<char>, c1: Seq<char>) -> bool {
    contains(c0, "ASR"@) || contains(c0, "---"@) || contains(c0, "误识"@) || contains(c1, "---"@)
        || contains(c1, "正确"@)
}

/// A table line read as `(error forms, correct form, category)`, if it is a
/// data row.
pub open spec fn table_row(line: Seq<char>) -> Option<(Seq<Seq<char>>, Seq<char>, Seq<char>)> {
    let t = trim(line);
    if t.len() == 0 || t[0] != '|' {
        None
    } else {
        let cells = row_cells(t);
        if cells.len() < 2 {
            None
        } else {
            let c0 = cells[0];
            let c1 = cells[1];
            if is_header_row(c0, c1) || c0.len() == 0 || c1.len() == 0 {
                None
            } else {
                let category = if cells.len() > 2 && cells[2].len() > 0 {
                    cells[2]
                } else {
                    "other"@
                };
                let errors = nonempty_only(trim_all(split_by(c0, error_separators())));
                if errors.len() == 0 {
                    None
                } else {
                    Some((errors, c1, category))
                }
            }
        }
    }
}

/// Data rows of the given lines, in order.
pub open spec fn table_rows(lines: Seq<Seq<char>>) -> Seq<(Seq<Seq<char>>, Seq<char>, Seq<char>)>
    decreases lines.len(),
{
    if lines.len() == 0 {
        Seq::empty()
    } else {
        let pre = table_rows(lines.drop_last());
        match table_row(lines.last()) {
            Some(r) => pre.push(r),
            None => pre,
        }
    }
}

/// Data rows of a Markdown marker table.
pub open spec fn marker_table(table: Seq<char>) -> Seq<(Seq<Seq<char>>, Seq<char>, Seq<char>)> {
    table_rows(split_by(table, seq!['\n']))
}

pub open spec fn opt_view(o: Option<String>) -> Option<Seq<char>> {
    match o {
        Some(s) => Some(s@),
        None => None,
    }
}

pub open spec fn opt_str_view(o: Option<&str>) -> Option<Seq<char>> {
    match o {
        Some(s) => Some(s@),
        None => None,
    }
}

/// `m` is the pending exact-match marker read from `row` with `source`.
pub open spec fn is_row_marker(
    m: AsrMarker,
    row: (Seq<Seq<char>>, Seq<char>, Seq<char>),
    source: Option<Seq<char>>,
) -> bool {
    &&& views(m.asr_errors@) == row.0
    &&& m.correct@ == row.1
    &&& m.category@ == row.2
    &&& m.note is None
    &&& opt_view(m.source) == source
    &&& m.confidence == MarkerConfidence::Pending
    &&& m.match_mode == MarkerMatchMode::Exact
}

/// Body and table parts of LLM output, split at the 【新增标识物】 header (or,
/// failing that, after the line holding an English "new markers" header).
///
/// The English header is looked for in the lowercased text and its position
/// is used as a character index into the text itself; it is used only when
/// it lies within the text. Where lowercasing changes the number of
/// characters before the header, that index is off by the difference (an
/// index into the UTF-8 bytes of the lowercased text would not be a valid
/// position in the text either).
pub open spec fn correction_parts(raw0: Seq<char>) -> Option<(Seq<char>, Seq<char>)> {
    let raw = trim(raw0);
    if let Some(idx) = find(raw, new_markers_header()) {
        Some((raw.take(idx), raw.skip(idx + new_markers_header().len())))
    } else if let Some(idx) = find(str_lowercase(raw), "new markers"@) {
        if idx <= raw.len() {
            let split_at = match find(raw.skip(idx), seq!['\n']) {
                Some(i) => idx + i + 1,
                None => raw.len() as int,
            };
            Some((raw.take(idx), raw.skip(split_at)))
        } else {
            None
        }
    } else {
        None
    }
}

fn trim_each(v: &Vec<Vec<char>>) -> (r: Vec<Vec<char>>)
    ensures
        vviews(r@) == trim_all(vviews(v@)),
{
    let mut r: Vec<Vec<char>> = Vec::new();
    let mut i: usize = 0;
    while i < v.len()
        invariant
            i <= v@.len(),
            vviews(r@) == trim_all(vviews(v@.take(i as int))),
        decreases v@.len() - i,
    {
        let ghost before = r@;
        r.push(trim_vec(&v[i]));
        assert(vviews(r@) =~= vviews(before).push(trim(v@[i as int]@)));
        assert(v@.take(i + 1) =~= v@.take(i as int).push(v@[i as int]));
        assert(vviews(v@.take(i + 1)) =~= vviews(v@.take(i as int)).push(v@[i as int]@));
        i = i + 1;
        assert(vviews(r@) =~= trim_all(vviews(v@.take(i as int))));
    }
    assert(v@.take(v@.len() as int) =~= v@);
    r
}

fn keep_nonempty(v: Vec<Vec<char>>) -> (r: Vec<Vec<char>>)
    ensures
        vviews(r@) == nonempty_only(vviews(v@)),
{
    let mut r: Vec<Vec<char>> = Vec::new();
    let mut i: usize = 0;
    while i < v.len()
        invariant
            i <= v@.len(),
            vviews(r@) == nonempty_only(vviews(v@.take(i as int))),
        decreases v@.len() - i,
    {
        let ghost pre = vviews(v@.take(i as int));
        assert(vviews(v@.take(i + 1)).drop_last() =~= pre);
        assert(vviews(v@.take(i + 1)).last() == v@[i as int]@);
        if v[i].len() > 0 {
            let ghost before = r@;
            r.push(copy_range(&v[i], 0, v[i].len()));
            assert(v@[i as int]@.subrange(0, v@[i as int]@.len() as int) =~= v@[i as int]@);
            assert(vviews(r@) =~= vviews(before).push(v@[i as int]@));
        }
        i = i + 1;
    }
    assert(v@.take(v@.len() as int) =~= v@);
    r
}

fn strings_of(v: &Vec<Vec<char>>) -> (r: Vec<String>)
    ensures
        views(r@) == vviews(v@),
{
    let mut r: Vec<String> = Vec::new();
    let mut i: usize = 0;
    while i < v.len()
        invariant
            i <= v@.len(),
            views(r@) == vviews(v@.take(i as int)),
        decreases v@.len() - i,
    {
        let ghost before = r@;
        r.push(string_of(&v[i]));
        assert(views(r@) =~= views(before).push(v@[i as int]@));
        assert(v@.take(i + 1) =~= v@.take(i as int).push(v@[i as int]));
        assert(vviews(v@.take(i + 1)) =~= vviews(v@.take(i as int)).push(v@[i as int]@));
        i = i + 1;
        assert(views(r@) =~= vviews(v@.take(i as int)));
    }
    assert(v@.take(v@.len() as int) =~= v@);
    r
}

fn parse_row(line: &[char]) -> (r: Option<(Vec<Vec<char>>, Vec<char>, Vec<char>)>)
    ensures
        r matches Some(x) ==> table_row(line@) == Some((vviews(x.0@), x.1@, x.2@)),
        r is None ==> table_row(line@) is None,
{
    let t = trim_vec(line);
    if t.len() == 0 || t[0] != '|' {
        return None;
    }
    let inner = trim_char_vec(&t, '|');
    let pieces = split_chars(&inner, &['|']);
    proof {
        assert(['|']@ =~= seq!['|']);
    }
    let cells = trim_each(&pieces);
    assert(vviews(cells@) == row_cells(t@));
    if cells.len() < 2 {
        return None;
    }
    let c0 = &cells[0];
    let c1 = &cells[1];
    assert(c0@ == row_cells(t@)[0]);
    assert(c1@ == row_cells(t@)[1]);
    // Skip header / separator rows.
    let asr = chars_of("ASR");
    let dashes = chars_of("---");
    let misrec = chars_of("误识");
    let correct_hdr = chars_of("正确");
    if contains_chars(c0, &asr) || contains_chars(c0, &dashes) || contains_chars(c0, &misrec)
        || contains_chars(c1, &dashes) || contains_chars(c1, &correct_hdr) {
        return None;
    }
    if c0.len() == 0 || c1.len() == 0 {
        return None;
    }
    let category = if cells.len() > 2 && cells[2].len() > 0 {
        assert(cells[2]@ == row_cells(t@)[2]);
        copy_range(&cells[2], 0, cells[2].len())
    } else {
        chars_of("other")
    };
    proof {
        if cells.len() > 2 && cells[2]@.len() > 0 {
            assert(cells[2]@.subrange(0, cells[2]@.len() as int) =~= cells[2]@);
        }
    }
    let seps = ['/', '、', ',', '，'];
    assert(seps@ =~= error_separators());
    let parts = split_chars(c0, &seps);
    let trimmed = trim_each(&parts);
    let errors = keep_nonempty(trimmed);
    if errors.len() == 0 {
        return None;
    }
    let correct = copy_range(c1, 0, c1.len());
    assert(c1@.subrange(0, c1@.len() as int) =~= c1@);
    Some((errors, correct, category))
}

fn opt_string(o: Option<&str>) -> (r: Option<String>)
    ensures
        opt_view(r) == opt_str_view(o),
{
    match o {
        Some(s) => Some(String::from_str(s)),
        None => None,
    }
}

/// Data rows of a Markdown table as pending, exact-match markers.
pub fn parse_marker_table(table: &str, source: Option<&str>) -> (r: Vec<AsrMarker>)
    ensures
        r@.len() == marker_table(table@).len(),
        forall|i: int| 0 <= i < r@.len() ==> #[trigger] is_row_marker(r@[i], marker_table(table@)[i], opt_str_view(source)),
{
    let t = chars_of(table);
    let lines = split_chars(&t, &['\n']);
    proof {
        assert(['\n']@ =~= seq!['\n']);
    }
    let ghost all = vviews(lines@);
    let mut out: Vec<AsrMarker> = Vec::new();
    let mut i: usize = 0;
    while i < lines.len()
        invariant
            i <= lines@.len(),
            all == vviews(lines@),
            all == split_by(table@, seq!['\n']),
            out@.len() == table_rows(all.take(i as int)).len(),
            forall|k: int| 0 <= k < out@.len() ==> #[trigger] is_row_marker(out@[k], table_rows(all.take(i as int))[k], opt_str_view(source)),
        decreases lines@.len() - i,
    {
        assert(all.take(i + 1).drop_last() =~= all.take(i as int));
        assert(all.take(i + 1).last() == lines@[i as int]@);
        match parse_row(&lines[i]) {
            Some((errors, correct, category)) => {
                let m = AsrMarker {
                    asr_errors: strings_of(&errors),
                    correct: string_of(&correct),
                    category: string_of(&category),
                    note: None,
                    source: opt_string(source),
                    confidence: MarkerConfidence::Pending,
                    match_mode: MarkerMatchMode::Exact,
                };
                out.push(m);
                proof {
                    let rows = table_rows(all.take(i + 1));
                    assert forall|k: int| 0 <= k < out@.len() implies #[trigger] is_row_marker(out@[k], rows[k], opt_str_view(source)) by {
                        if k < out@.len() - 1 {
                            assert(rows[k] == table_rows(all.take(i as int))[k]);
                        }
                    }
                }
            },
            None => {},
        }
        i = i + 1;
    }
    assert(all.take(lines@.len() as int) =~= all);
    out
}

/// Split the corrected body from an optional 【新增标识物】 table (see
/// [`correction_parts`] for how the English "new markers" header is placed).
pub fn parse_correction_output(raw: &str, source: Option<&str>) -> (r: ParsedCorrection)
    ensures
        correction_parts(raw@) is None ==> r.body@ == trim(raw@) && r.new_markers@.len() == 0,
        correction_parts(raw@) matches Some((body, table)) ==> {
            &&& r.body@ == trim(body)
            &&& r.new_markers@.len() == marker_table(table).len()
            &&& forall|i: int| 0 <= i < r.new_markers@.len() ==> #[trigger] is_row_marker(r.new_markers@[i], marker_table(table)[i], opt_str_view(source))
        },
{
    let v = chars_of(raw);
    let t = trim_vec(&v);
    let header = chars_of("【新增标识物】");
    let found = find_chars(&t, &header, 0);
    proof {
        lemma_find_from_facts(t@, header@, 0);
    }
    let parts: Option<(Vec<char>, Vec<char>)> = match found {
        Some(idx) => {
            assert(matches_at(t@, header@, idx as int));
            let hl = header.len();
            let tl = t.len();
            assert(idx + hl <= tl);
            Some((copy_range(&t, 0, idx), copy_range(&t, idx + hl, t.len())))
        },
        None => {
            let traw = string_of(&t);
            let lower = lowercase_chars(traw.as_str());
            let en = chars_of("new markers");
            match find_chars(&lower, &en, 0) {
                Some(idx) => {
                    if idx <= t.len() {
                        // English fallback header: the table starts on the next line.
                        let nl = find_chars(&t, &['\n'], idx);
                        proof {
                            assert(['\n']@ =~= seq!['\n']);
                            lemma_find_from_facts(t@, seq!['\n'], idx as int);
                            lemma_find_shift(t@, seq!['\n'], idx as int);
                        }
                        let split_at = match nl {
                            Some(i) => i + 1,
                            None => t.len(),
                        };
                        Some((copy_range(&t, 0, idx), copy_range(&t, split_at, t.len())))
                    } else {
                        None
                    }
                },
                None => None,
            }
        },
    };
    match parts {
        Some((body_part, table_part)) => {
            let body = trim_vec(&body_part);
            let table = string_of(&table_part);
            let new_markers = parse_marker_table(table.as_str(), source);
            ParsedCorrection { body: string_of(&body), new_markers }
        },
        None => ParsedCorrection { body: string_of(&t), new_markers: Vec::new() },
    }
}

/// Searching from `i` in `s` is searching from 0 in `s.skip(i)`, shifted.
proof fn lemma_find_shift(s: Seq<char>, p: Seq<char>, i: int)
    requires
        0 <= i <= s.len(),
    ensures
        find_from(s, p, i) matches Some(k) ==> find(s.skip(i), p) == Some(k - i),
        find_from(s, p, i) is None ==> find(s.skip(i), p) is None,
{
    lemma_find_shift_from(s, p, i, 0);
}

proof fn lemma_find_shift_from(s: Seq<char>, p: Seq<char>, i: int, j: int)
    requires
        0 <= i <= s.len(),
        0 <= j,
    ensures
        find_from(s, p, i + j) matches Some(k) ==> crate::text::find_from(s.skip(i), p, j) == Some(k - i),
        find_from(s, p, i + j) is None ==> crate::text::find_from(s.skip(i), p, j) is None,
    decreases s.len() + 1 - (i + j),
{
    let t = s.skip(i);
    if i + j + p.len() > s.len() {
    } else {
        assert(t.subrange(j, j + p.len()) =~= s.subrange(i + j, i + j + p.len()));
        if !matches_at(s, p, i + j) {
            lemma_find_shift_from(s, p, i, j + 1);
        }
    }
}


// ---------------------------------------------------------------------------
// Store maintenance
// ---------------------------------------------------------------------------

/// `m` has `c`'s correct form and at least one of `c`'s error forms.
pub open spec fn same_entry(m: AsrMarker, c: AsrMarker) -> bool {
    &&& m.correct@ == c.correct@
    &&& exists|j: int| 0 <= j < c.asr_errors@.len() && views(m.asr_errors@).contains(#[trigger] c.asr_errors@[j]@)
}

/// Some marker of `markers` already records `c` (same correct form and an
/// overlapping error form).
pub open spec fn marker_in(markers: Seq<AsrMarker>, c: AsrMarker) -> bool {
    exists|i: int| 0 <= i < markers.len() && #[trigger] same_entry(markers[i], c)
}

/// `c` with its confidence replaced when one is forced.
pub open spec fn with_confidence(c: AsrMarker, force: Option<MarkerConfidence>) -> AsrMarker {
    match force {
        Some(k) => AsrMarker { confidence: k, ..c },
        None => c,
    }
}

/// A candidate worth keeping: non-blank correct form and some error form.
pub open spec fn is_mergeable(c: AsrMarker) -> bool {
    trim(c.correct@).len() > 0 && c.asr_errors@.len() > 0
}

/// `markers` with `c` appended unless it is not mergeable or already known.
pub open spec fn merge_step(markers: Seq<AsrMarker>, c: AsrMarker) -> Seq<AsrMarker> {
    if is_mergeable(c) && !marker_in(markers, c) {
        markers.push(c)
    } else {
        markers
    }
}

/// The candidates merged one after another.
pub open spec fn merged(markers: Seq<AsrMarker>, cs: Seq<AsrMarker>, force: Option<MarkerConfidence>) -> Seq<AsrMarker>
    decreases cs.len(),
{
    if cs.len() == 0 {
        markers
    } else {
        merge_step(merged(markers, cs.drop_last(), force), with_confidence(cs.last(), force))
    }
}

/// `e` is a changelog entry dated by the clock with this summary, source and
/// count.
pub open spec fn is_change_entry(e: MarkerChangelogEntry, summary: Seq<char>, source: Option<Seq<char>>, count: u32) -> bool {
    &&& exists|secs: u64| e.date@ == #[trigger] crate::clock::date_label(secs)
    &&& e.summary@ == summary
    &&& opt_view(e.source) == source
    &&& e.count == count
}

fn vec_contains_str(v: &Vec<String>, s: &String) -> (r: bool)
    ensures
        r == views(v@).contains(s@),
{
    let mut i: usize = 0;
    while i < v.len()
        invariant
            i <= v@.len(),
            forall|k: int| 0 <= k < i ==> v@[k]@ != s@,
        decreases v@.len() - i,
    {
        if str_eq(v[i].as_str(), s.as_str()) {
            assert(views(v@)[i as int] == s@);
            return true;
        }
        i = i + 1;
    }
    proof {
        if views(v@).contains(s@) {
            let k = choose|k: int| 0 <= k < views(v@).len() && views(v@)[k] == s@;
            assert(v@[k]@ == s@);
        }
    }
    false
}

fn same_entry_exec(m: &AsrMarker, c: &AsrMarker) -> (r: bool)
    ensures
        r == same_entry(*m, *c),
{
    if !str_eq(m.correct.as_str(), c.correct.as_str()) {
        return false;
    }
    let mut j: usize = 0;
    while j < c.asr_errors.len()
        invariant
            j <= c.asr_errors@.len(),
            m.correct@ == c.correct@,
            forall|k: int| 0 <= k < j ==> !views(m.asr_errors@).contains(#[trigger] c.asr_errors@[k]@),
        decreases c.asr_errors@.len() - j,
    {
        if vec_contains_str(&m.asr_errors, &c.asr_errors[j]) {
            assert(views(m.asr_errors@).contains(c.asr_errors@[j as int]@));
            return true;
        }
        j = j + 1;
    }
    false
}

/// Whether the store already records `candidate`.
pub fn marker_exists(store: &AsrMarkerStore, candidate: &AsrMarker) -> (r: bool)
    ensures
        r == marker_in(store.markers@, *candidate),
{
    let mut i: usize = 0;
    while i < store.markers.len()
        invariant
            i <= store.markers@.len(),
            forall|k: int| 0 <= k < i ==> !(#[trigger] same_entry(store.markers@[k], *candidate)),
        decreases store.markers@.len() - i,
    {
        if same_entry_exec(&store.markers[i], candidate) {
            return true;
        }
        i = i + 1;
    }
    false
}

fn change_entry(summary: String, source: Option<String>, count: u32) -> (e: MarkerChangelogEntry)
    ensures
        is_change_entry(e, summary@, opt_view(source), count),
{
    let date = crate::clock::chrono_date_string();
    MarkerChangelogEntry { date, summary, source, count }
}

fn counted_summary(prefix: &str, n: u32, suffix: &str) -> (r: String)
    ensures
        r@ == prefix@ + crate::text::decimal(n as nat) + suffix@,
{
    let mut s = String::from_str(prefix);
    let digits = crate::text::decimal_chars(n as u64);
    crate::text::push_chars(&mut s, &digits);
    s.append(suffix);
    s
}

/// Merge candidates into the store, skipping blank ones and ones already
/// recorded (same correct form and an overlapping error form). Returns the
/// number of newly inserted markers; a changelog entry records them.
pub fn merge_markers(
    store: &mut AsrMarkerStore,
    candidates: Vec<AsrMarker>,
    force_confidence: Option<MarkerConfidence>,
    changelog_source: Option<&str>,
) -> (r: u32)
    requires
        candidates@.len() <= u32::MAX,
    ensures
        final(store).version == old(store).version,
        final(store).markers@ == merged(old(store).markers@, candidates@, force_confidence),
        r == final(store).markers@.len() - old(store).markers@.len(),
        r == 0 ==> final(store).changelog@ == old(store).changelog@,
        r > 0 ==> {
            &&& final(store).changelog@.len() == old(store).changelog@.len() + 1
            &&& final(store).changelog@.drop_last() == old(store).changelog@
            &&& is_change_entry(final(store).changelog@.last(), "Added "@ + crate::text::decimal(r as nat) + " marker(s)"@, opt_str_view(changelog_source), r)
        },
{
    let ghost start = store.markers@;
    let ghost cs = candidates@;
    let mut added: u32 = 0;
    for c0 in it: candidates
        invariant
            it.seq() == cs,
            cs.len() <= u32::MAX,
            store.version == old(store).version,
            store.changelog@ == old(store).changelog@,
            store.markers@ == merged(start, cs.take(it.index() as int), force_confidence),
            added == store.markers@.len() - start.len(),
            added <= it.index(),
    {
        let ghost done = it.index() as int;
        assert(cs.take(done + 1).drop_last() =~= cs.take(done));
        let mut c = c0;
        if let Some(conf) = force_confidence {
            c.confidence = conf;
        }
        assert(c == with_confidence(cs[done], force_confidence));
        let blank = {
            let v = chars_of(c.correct.as_str());
            crate::text::is_blank(&v)
        };
        if !blank && c.asr_errors.len() > 0 && !marker_exists(store, &c) {
            store.markers.push(c);
            added = added + 1;
        }
    }
    let ghost n = cs.len();
    assert(cs.take(n as int) =~= cs);
    if added > 0 {
        let summary = counted_summary("Added ", added, " marker(s)");
        let src = opt_string(changelog_source);
        let e = change_entry(summary, src, added);
        store.changelog.push(e);
    }
    added
}

/// `m` with a pending confidence promoted to verified.
pub open spec fn accepted(m: AsrMarker) -> AsrMarker {
    if m.confidence == MarkerConfidence::Pending {
        AsrMarker { confidence: MarkerConfidence::Verified, ..m }
    } else {
        m
    }
}

/// Number of pending markers.
pub open spec fn pending_count(ms: Seq<AsrMarker>) -> nat
    decreases ms.len(),
{
    if ms.len() == 0 {
        0
    } else {
        pending_count(ms.drop_last()) + (if ms.last().confidence == MarkerConfidence::Pending {
            1nat
        } else {
            0nat
        })
    }
}

pub proof fn lemma_pending_count_bound(ms: Seq<AsrMarker>)
    ensures
        pending_count(ms) <= ms.len(),
    decreases ms.len(),
{
    if ms.len() > 0 {
        lemma_pending_count_bound(ms.drop_last());
    }
}

/// Accept all pending markers (promote to verified); returns how many.
pub fn accept_all_pending(store: &mut AsrMarkerStore) -> (r: u32)
    requires
        old(store).markers@.len() <= u32::MAX,
    ensures
        final(store).version == old(store).version,
        final(store).markers@ == old(store).markers@.map_values(|m: AsrMarker| accepted(m)),
        r == pending_count(old(store).markers@),
        r == 0 ==> final(store).changelog@ == old(store).changelog@,
        r > 0 ==> {
            &&& final(store).changelog@.len() == old(store).changelog@.len() + 1
            &&& final(store).changelog@.drop_last() == old(store).changelog@
            &&& is_change_entry(final(store).changelog@.last(), "Accepted "@ + crate::text::decimal(r as nat) + " pending marker(s)"@, Some("ui"@), r)
        },
{
    let ghost start = store.markers@;
    let mut n: u32 = 0;
    let mut i: usize = 0;
    while i < store.markers.len()
        invariant
            i <= store.markers@.len() == start.len() <= u32::MAX,
            store.version == old(store).version,
            store.changelog@ == old(store).changelog@,
            forall|k: int| 0 <= k < i ==> #[trigger] store.markers@[k] == accepted(start[k]),
            forall|k: int| i <= k < start.len() ==> #[trigger] store.markers@[k] == start[k],
            n == pending_count(start.take(i as int)),
            n <= i,
        decreases start.len() - i,
    {
        assert(start.take(i + 1).drop_last() =~= start.take(i as int));
        if store.markers[i].confidence == MarkerConfidence::Pending {
            store.markers[i].confidence = MarkerConfidence::Verified;
            n = n + 1;
        }
        i = i + 1;
    }
    assert(start.take(start.len() as int) =~= start);
    assert(store.markers@ =~= start.map_values(|m: AsrMarker| accepted(m)));
    if n > 0 {
        let summary = counted_summary("Accepted ", n, " pending marker(s)");
        let e = change_entry(summary, Some(String::from_str("ui")), n);
        store.changelog.push(e);
    }
    n
}

/// Delete the marker at `index` (error when out of range).
pub fn remove_marker_at(store: &mut AsrMarkerStore, index: usize) -> (r: Result<(), String>)
    ensures
        index >= old(store).markers@.len() ==> {
            &&& r matches Err(e) && e@ == "Marker index "@ + crate::text::decimal(index as nat) + " out of range"@
            &&& *final(store) == *old(store)
        },
        index < old(store).markers@.len() ==> {
            &&& r is Ok
            &&& final(store).version == old(store).version
            &&& final(store).markers@ == old(store).markers@.remove(index as int)
            &&& final(store).changelog@.drop_last() == old(store).changelog@
            &&& final(store).changelog@.len() == old(store).changelog@.len() + 1
            &&& is_change_entry(final(store).changelog@.last(), "Removed marker → "@ + old(store).markers@[index as int].correct@, Some("ui"@), 1)
        },
{
    if index >= store.markers.len() {
        let msg = counted_summary_usize("Marker index ", index, " out of range");
        return Err(msg);
    }
    let removed = store.markers.remove(index);
    let mut summary = String::from_str("Removed marker → ");
    summary.append(removed.correct.as_str());
    let e = change_entry(summary, Some(String::from_str("ui")), 1);
    store.changelog.push(e);
    Ok(())
}

fn counted_summary_usize(prefix: &str, n: usize, suffix: &str) -> (r: String)
    ensures
        r@ == prefix@ + crate::text::decimal(n as nat) + suffix@,
{
    let mut s = String::from_str(prefix);
    let digits = crate::text::decimal_chars(n as u64);
    crate::text::push_chars(&mut s, &digits);
    s.append(suffix);
    s
}

/// `errs` extended by the forms of `add` it does not contain yet, in order.
pub open spec fn extend_unique(errs: Seq<Seq<char>>, add: Seq<Seq<char>>) -> Seq<Seq<char>>
    decreases add.len(),
{
    if add.len() == 0 {
        errs
    } else {
        let pre = extend_unique(errs, add.drop_last());
        if pre.contains(add.last()) {
            pre
        } else {
            pre.push(add.last())
        }
    }
}

/// Index of the first marker with correct form `correct` at or after `i`.
pub open spec fn first_with_correct(ms: Seq<AsrMarker>, correct: Seq<char>, i: int) -> int
    decreases ms.len() - i,
{
    if i < 0 || i >= ms.len() {
        ms.len() as int
    } else if ms[i].correct@ == correct {
        i
    } else {
        first_with_correct(ms, correct, i + 1)
    }
}

proof fn lemma_first_with_correct(ms: Seq<AsrMarker>, correct: Seq<char>, i: int, w: int)
    requires
        0 <= i <= w < ms.len(),
        ms[w].correct@ == correct,
    ensures
        i <= first_with_correct(ms, correct, i) <= w,
        ms[first_with_correct(ms, correct, i)].correct@ == correct,
        forall|k: int| i <= k < first_with_correct(ms, correct, i) ==> (#[trigger] ms[k]).correct@ != correct,
    decreases ms.len() - i,
{
    if ms[i].correct@ != correct {
        lemma_first_with_correct(ms, correct, i + 1, w);
    }
}

/// `m2` is `m1` with the error forms of `marker` added (no duplicates) and
/// its confidence raised to verified when `marker` is verified.
pub open spec fn extended_by(m2: AsrMarker, m1: AsrMarker, marker: AsrMarker) -> bool {
    &&& views(m2.asr_errors@) == extend_unique(views(m1.asr_errors@), views(marker.asr_errors@))
    &&& m2.correct == m1.correct
    &&& m2.category == m1.category
    &&& m2.note == m1.note
    &&& m2.source == m1.source
    &&& m2.match_mode == m1.match_mode
    &&& m2.confidence == (if marker.confidence == MarkerConfidence::Verified {
        MarkerConfidence::Verified
    } else {
        m1.confidence
    })
}

/// `after` is `before` with `marker` upserted: appended when no marker
/// records it yet, otherwise its error forms (and verified confidence)
/// merged into the first marker with the same correct form, all others
/// unchanged.
pub open spec fn upserted(before: Seq<AsrMarker>, after: Seq<AsrMarker>, marker: AsrMarker) -> bool {
    if !marker_in(before, marker) {
        after == before.push(marker)
    } else {
        let k = first_with_correct(before, marker.correct@, 0);
        &&& 0 <= k < before.len()
        &&& before[k].correct@ == marker.correct@
        &&& after.len() == before.len()
        &&& forall|i: int| 0 <= i < after.len() && i != k ==> #[trigger] after[i] == before[i]
        &&& extended_by(after[k], before[k], marker)
    }
}

/// Upsert a single marker from the UI. A marker already recorded extends the
/// first marker with the same correct form (returns `false`); otherwise it is
/// appended (returns `true`).
pub fn upsert_marker(store: &mut AsrMarkerStore, marker: AsrMarker) -> (r: bool)
    ensures
        final(store).version == old(store).version,
        final(store).changelog@ == old(store).changelog@,
        r == !marker_in(old(store).markers@, marker),
        upserted(old(store).markers@, final(store).markers@, marker),
{
    if marker_exists(store, &marker) {
        let ghost ms = store.markers@;
        proof {
            let w = choose|w: int| 0 <= w < ms.len() && #[trigger] same_entry(ms[w], marker);
            lemma_first_with_correct(ms, marker.correct@, 0, w);
        }
        let ghost k = first_with_correct(ms, marker.correct@, 0);
        // Extend the error forms of the first marker with the same correct form.
        let mut i: usize = 0;
        while i < store.markers.len()
            invariant
                store.markers@ == ms,
                marker_in(ms, marker),
                0 <= k < ms.len(),
                i <= k,
                k == first_with_correct(ms, marker.correct@, 0),
                forall|j: int| 0 <= j < k ==> (#[trigger] ms[j]).correct@ != marker.correct@,
                ms[k].correct@ == marker.correct@,
                store.version == old(store).version,
                store.changelog@ == old(store).changelog@,
                ms == old(store).markers@,
            decreases ms.len() - i,
        {
            if str_eq(store.markers[i].correct.as_str(), marker.correct.as_str()) {
                assert(i == k);
                let mut m = store.markers.remove(i);
                let ghost m0 = m;
                let mut j: usize = 0;
                while j < marker.asr_errors.len()
                    invariant
                        j <= marker.asr_errors@.len(),
                        views(m.asr_errors@) == extend_unique(views(m0.asr_errors@), views(marker.asr_errors@.take(j as int))),
                        m.correct == m0.correct,
                        m.category == m0.category,
                        m.note == m0.note,
                        m.source == m0.source,
                        m.match_mode == m0.match_mode,
                        m.confidence == m0.confidence,
                    decreases marker.asr_errors@.len() - j,
                {
                    let ghost before = views(m.asr_errors@);
                    assert(views(marker.asr_errors@.take(j + 1)).drop_last() =~= views(marker.asr_errors@.take(j as int)));
                    assert(views(marker.asr_errors@.take(j + 1)).last() == marker.asr_errors@[j as int]@);
                    if !vec_contains_str(&m.asr_errors, &marker.asr_errors[j]) {
                        let e = marker.asr_errors[j].clone();
                        m.asr_errors.push(e);
                        assert(views(m.asr_errors@) =~= before.push(marker.asr_errors@[j as int]@));
                    }
                    j = j + 1;
                }
                assert(marker.asr_errors@.take(marker.asr_errors@.len() as int) =~= marker.asr_errors@);
                if marker.confidence == MarkerConfidence::Verified {
                    m.confidence = MarkerConfidence::Verified;
                }
                store.markers.insert(i, m);
                assert(store.markers@ =~= ms.update(k, m));
                return false;
            }
            i = i + 1;
        }
        // A recorded marker has a marker with the same correct form before it.
        assert(false);
        return false;
    }
    store.markers.push(marker);
    true
}


// ---------------------------------------------------------------------------
// Rule-based correction
// ---------------------------------------------------------------------------

#[verifier::external_type_specification]
#[verifier::external_body]
pub struct ExRegex(regex::Regex);

/// Whether `regex::Regex::new` accepts this pattern.
pub uninterp spec fn regex_is_valid(pattern: Seq<char>) -> bool;

/// What `Regex::replace_all` returns for a pattern, haystack and replacement
/// template (`$1` etc. expand to capture groups).
pub uninterp spec fn regex_replaced(pattern: Seq<char>, haystack: Seq<char>, replacement: Seq<char>) -> Seq<char>;

/// A compiled regex together with the pattern it was compiled from.
pub struct CompiledPattern {
    source: String,
    re: regex::Regex,
}

impl CompiledPattern {
    pub closed spec fn pattern(&self) -> Seq<char> {
        self.source@
    }
}

/// `regex::Regex::new`: compiles `pattern`; `None` exactly when the regex
/// crate rejects it. Which patterns it rejects is not stated here.
#[verifier::external_body]
fn regex_new(pattern: &str) -> (r: Option<CompiledPattern>)
    ensures
        r is Some <==> regex_is_valid(pattern@),
        r matches Some(c) ==> c.pattern() == pattern@,
{
    match regex::Regex::new(pattern) {
        Ok(re) => Some(CompiledPattern { source: pattern.to_string(), re }),
        Err(_) => None,
    }
}

/// `Regex::replace_all`: every non-overlapping match in `haystack` replaced
/// by the expanded template. The result is named, not described.
#[verifier::external_body]
fn regex_replace_all(c: &CompiledPattern, haystack: &str, replacement: &str) -> (r: String)
    ensures
        r@ == regex_replaced(c.pattern(), haystack@, replacement@),
{
    c.re.replace_all(haystack, replacement).into_owned()
}

/// A replacement rule: `(pattern, correct form, match mode, rank)`; the rank
/// is the pattern's length in characters.
pub type RuleView = (Seq<char>, Seq<char>, MarkerMatchMode, nat);

/// Rules of a verified marker from its (trimmed, non-empty) error forms;
/// exact and case-insensitive forms equal to the correct form are skipped.
pub open spec fn error_rules(errs: Seq<Seq<char>>, m: AsrMarker) -> Seq<RuleView>
    decreases errs.len(),
{
    if errs.len() == 0 {
        Seq::empty()
    } else {
        let pre = error_rules(errs.drop_last(), m);
        let e = trim(errs.last());
        if e.len() == 0 || (m.match_mode != MarkerMatchMode::Regex && e == m.correct@) {
            pre
        } else {
            pre.push((e, m.correct@, m.match_mode, e.len()))
        }
    }
}

/// Rules contributed by one marker: none unless it is verified and has a
/// non-blank correct form.
pub open spec fn marker_rules(m: AsrMarker) -> Seq<RuleView> {
    if m.confidence != MarkerConfidence::Verified || trim(m.correct@).len() == 0 {
        Seq::empty()
    } else {
        error_rules(views(m.asr_errors@), m)
    }
}

/// Rules of all markers, in store order.
pub open spec fn collect_rules(ms: Seq<AsrMarker>) -> Seq<RuleView>
    decreases ms.len(),
{
    if ms.len() == 0 {
        Seq::empty()
    } else {
        collect_rules(ms.drop_last()) + marker_rules(ms.last())
    }
}

/// First index at or after `j` whose rank is below `r` (or the length).
pub open spec fn rank_pos(sorted: Seq<RuleView>, r: nat, j: int) -> int
    decreases sorted.len() - j,
{
    if j < 0 || j >= sorted.len() {
        sorted.len() as int
    } else if sorted[j].3 < r {
        j
    } else {
        rank_pos(sorted, r, j + 1)
    }
}

/// `x` inserted after every rule of rank at least its own.
pub open spec fn insert_by_rank(sorted: Seq<RuleView>, x: RuleView) -> Seq<RuleView> {
    sorted.insert(rank_pos(sorted, x.3, 0), x)
}

/// Stable sort by rank, longest first.
pub open spec fn sort_by_rank(ps: Seq<RuleView>) -> Seq<RuleView>
    decreases ps.len(),
{
    if ps.len() == 0 {
        Seq::empty()
    } else {
        insert_by_rank(sort_by_rank(ps.drop_last()), ps.last())
    }
}

/// Case-insensitive, left-to-right, non-overlapping replacement: matches are
/// found in the lowercased text, characters are copied from the text itself.
pub open spec fn ci_replaced(hay: Seq<char>, needle: Seq<char>, rep: Seq<char>) -> Seq<char> {
    if needle.len() == 0 || str_lowercase(needle).len() == 0 {
        hay
    } else {
        crate::text::subst(str_lowercase(hay), hay, str_lowercase(needle), rep, 0)
    }
}

/// One rule applied to `text`.
pub open spec fn apply_rule(text: Seq<char>, r: RuleView) -> Seq<char> {
    match r.2 {
        MarkerMatchMode::Exact => replace_all(text, r.0, r.1),
        MarkerMatchMode::CaseInsensitive => ci_replaced(text, r.0, r.1),
        MarkerMatchMode::Regex => if regex_is_valid(r.0) {
            regex_replaced(r.0, text, r.1)
        } else {
            text
        },
    }
}

/// Rules applied in order.
pub open spec fn apply_rules(text: Seq<char>, rs: Seq<RuleView>) -> Seq<char>
    decreases rs.len(),
{
    if rs.len() == 0 {
        text
    } else {
        apply_rule(apply_rules(text, rs.drop_last()), rs.last())
    }
}

/// Text after rule replacement with the store's verified markers, longest
/// error forms first.
pub open spec fn rule_corrected(text: Seq<char>, ms: Seq<AsrMarker>) -> Seq<char> {
    apply_rules(text, sort_by_rank(collect_rules(ms)))
}

struct RulePair {
    pattern: Vec<char>,
    correct: Vec<char>,
    mode: MarkerMatchMode,
    rank: usize,
}

spec fn rview(p: RulePair) -> RuleView {
    (p.pattern@, p.correct@, p.mode, p.rank as nat)
}

spec fn rviews(v: Seq<RulePair>) -> Seq<RuleView> {
    v.map_values(|p: RulePair| rview(p))
}

/// Case-insensitive substring replace (left-to-right, non-overlapping).
pub fn replace_case_insensitive(haystack: &str, needle: &str, replacement: &str) -> (r: String)
    ensures
        r@ == ci_replaced(haystack@, needle@, replacement@),
{
    if needle.unicode_len() == 0 {
        return String::from_str(haystack);
    }
    let hay_lower = lowercase_chars(haystack);
    let needle_lower = lowercase_chars(needle);
    if needle_lower.len() == 0 {
        return String::from_str(haystack);
    }
    let hay_chars = chars_of(haystack);
    let rep = chars_of(replacement);
    let out = crate::text::subst_chars(&hay_lower, &hay_chars, &needle_lower, &rep);
    string_of(&out)
}

fn marker_rule_pairs(m: &AsrMarker, out: &mut Vec<RulePair>)
    ensures
        rviews(final(out)@) == rviews(old(out)@) + marker_rules(*m),
{
    let ghost start = rviews(out@);
    let cv = chars_of(m.correct.as_str());
    if m.confidence != MarkerConfidence::Verified || crate::text::is_blank(&cv) {
        assert(rviews(out@) =~= start + marker_rules(*m));
        return;
    }
    let mut i: usize = 0;
    while i < m.asr_errors.len()
        invariant
            i <= m.asr_errors@.len(),
            cv@ == m.correct@,
            m.confidence == MarkerConfidence::Verified,
            trim(m.correct@).len() > 0,
            rviews(out@) == start + error_rules(views(m.asr_errors@.take(i as int)), *m),
        decreases m.asr_errors@.len() - i,
    {
        let ghost pre = rviews(out@);
        assert(views(m.asr_errors@.take(i + 1)).drop_last() =~= views(m.asr_errors@.take(i as int)));
        assert(views(m.asr_errors@.take(i + 1)).last() == m.asr_errors@[i as int]@);
        let ev = chars_of(m.asr_errors[i].as_str());
        let e = trim_vec(&ev);
        // Exact / case-insensitive: skip no-op identity. A regex may reformat.
        let identity = m.match_mode != MarkerMatchMode::Regex && crate::text::chars_eq(&e, &cv);
        if e.len() > 0 && !identity {
            let rank = e.len();
            let correct = copy_range(&cv, 0, cv.len());
            assert(cv@.subrange(0, cv@.len() as int) =~= cv@);
            let ghost outv = out@;
            out.push(RulePair { pattern: e, correct, mode: m.match_mode, rank });
            assert(rviews(out@) =~= rviews(outv).push(rview(out@.last())));
        }
        i = i + 1;
    }
    assert(m.asr_errors@.take(m.asr_errors@.len() as int) =~= m.asr_errors@);
}

fn collect_rule_pairs(ms: &Vec<AsrMarker>) -> (r: Vec<RulePair>)
    ensures
        rviews(r@) == collect_rules(ms@),
{
    let mut out: Vec<RulePair> = Vec::new();
    let mut i: usize = 0;
    while i < ms.len()
        invariant
            i <= ms@.len(),
            rviews(out@) == collect_rules(ms@.take(i as int)),
        decreases ms@.len() - i,
    {
        assert(ms@.take(i + 1).drop_last() =~= ms@.take(i as int));
        marker_rule_pairs(&ms[i], &mut out);
        i = i + 1;
    }
    assert(ms@.take(ms@.len() as int) =~= ms@);
    out
}

fn rank_insert_position(sorted: &Vec<RulePair>, r: usize) -> (p: usize)
    ensures
        p == rank_pos(rviews(sorted@), r as nat, 0),
{
    let mut j: usize = 0;
    while j < sorted.len() && sorted[j].rank >= r
        invariant
            j <= sorted@.len(),
            rank_pos(rviews(sorted@), r as nat, 0) == rank_pos(rviews(sorted@), r as nat, j as int),
        decreases sorted@.len() - j,
    {
        j = j + 1;
    }
    j
}

fn sort_rule_pairs(v: Vec<RulePair>) -> (r: Vec<RulePair>)
    ensures
        rviews(r@) == sort_by_rank(rviews(v@)),
{
    let ghost vs = v@;
    let mut sorted: Vec<RulePair> = Vec::new();
    for x in it: v
        invariant
            it.seq() == vs,
            rviews(sorted@) == sort_by_rank(rviews(vs.take(it.index() as int))),
    {
        let ghost k = it.index() as int;
        assert(rviews(vs.take(k + 1)).drop_last() =~= rviews(vs.take(k)));
        assert(rviews(vs.take(k + 1)).last() == rview(x));
        let p = rank_insert_position(&sorted, x.rank);
        proof {
            lemma_rank_pos_bounds(rviews(sorted@), x.rank as nat, 0);
        }
        let ghost before = sorted@;
        sorted.insert(p, x);
        assert(rviews(sorted@) =~= rviews(before).insert(p as int, rview(x)));
    }
    assert(vs.take(vs.len() as int) =~= vs);
    sorted
}

proof fn lemma_rank_pos_bounds(s: Seq<RuleView>, r: nat, j: int)
    requires
        0 <= j <= s.len(),
    ensures
        j <= rank_pos(s, r, j) <= s.len(),
    decreases s.len() - j,
{
    if j < s.len() && s[j].3 >= r {
        lemma_rank_pos_bounds(s, r, j + 1);
    }
}

/// Rule replacement using verified markers (longest error forms first).
/// Supports exact, case-insensitive, and regex match modes per marker; an
/// invalid regex is skipped.
pub fn apply_rule_corrections(text: &str, store: &AsrMarkerStore) -> (r: String)
    ensures
        r@ == rule_corrected(text@, store.markers@),
{
    let pairs = collect_rule_pairs(&store.markers);
    let sorted = sort_rule_pairs(pairs);
    let ghost rs = rviews(sorted@);
    let mut out = String::from_str(text);
    let mut i: usize = 0;
    while i < sorted.len()
        invariant
            i <= sorted@.len(),
            rs == rviews(sorted@),
            out@ == apply_rules(text@, rs.take(i as int)),
        decreases sorted@.len() - i,
    {
        assert(rs.take(i + 1).drop_last() =~= rs.take(i as int));
        assert(rs.take(i + 1).last() == rview(sorted@[i as int]));
        let p = &sorted[i];
        let next = match p.mode {
            MarkerMatchMode::Exact => {
                let ov = chars_of(out.as_str());
                let replaced = replace_chars(&ov, &p.pattern, &p.correct);
                string_of(&replaced)
            },
            MarkerMatchMode::CaseInsensitive => {
                let pat = string_of(&p.pattern);
                let rep = string_of(&p.correct);
                replace_case_insensitive(out.as_str(), pat.as_str(), rep.as_str())
            },
            MarkerMatchMode::Regex => {
                let pat = string_of(&p.pattern);
                match regex_new(pat.as_str()) {
                    Some(re) => {
                        let rep = string_of(&p.correct);
                        regex_replace_all(&re, out.as_str(), rep.as_str())
                    },
                    None => out,
                }
            },
        };
        out = next;
        i = i + 1;
    }
    assert(rs.take(rs.len() as int) =~= rs);
    out
}

/// Pending markers never rewrite text: with no verified marker the rules
/// leave the text unchanged.
pub proof fn lemma_unverified_markers_keep_text(text: Seq<char>, ms: Seq<AsrMarker>)
    requires
        forall|i: int| 0 <= i < ms.len() ==> (#[trigger] ms[i]).confidence != MarkerConfidence::Verified,
    ensures
        rule_corrected(text, ms) == text,
{
    lemma_no_rules(ms);
}

proof fn lemma_no_rules(ms: Seq<AsrMarker>)
    requires
        forall|i: int| 0 <= i < ms.len() ==> (#[trigger] ms[i]).confidence != MarkerConfidence::Verified,
    ensures
        collect_rules(ms) == Seq::<RuleView>::empty(),
    decreases ms.len(),
{
    if ms.len() > 0 {
        assert(ms.last() == ms[ms.len() - 1]);
        lemma_no_rules(ms.drop_last());
    }
}

/// Rules are applied longest first: the sorted rules are ordered by
/// non-increasing rank and are a rearrangement of the collected ones.
pub proof fn lemma_sort_by_rank_sorted(ps: Seq<RuleView>)
    ensures
        forall|i: int, j: int| 0 <= i < j < sort_by_rank(ps).len() ==> #[trigger] sort_by_rank(ps)[i].3 >= #[trigger] sort_by_rank(ps)[j].3,
        sort_by_rank(ps).to_multiset() == ps.to_multiset(),
    decreases ps.len(),
{
    if ps.len() > 0 {
        let s = sort_by_rank(ps.drop_last());
        lemma_sort_by_rank_sorted(ps.drop_last());
        let x = ps.last();
        let p = rank_pos(s, x.3, 0);
        lemma_rank_pos_facts(s, x.3, 0);
        let t = s.insert(p, x);
        assert forall|i: int, j: int| 0 <= i < j < t.len() implies #[trigger] t[i].3 >= #[trigger] t[j].3 by {
            if j < p {
                assert(t[i] == s[i] && t[j] == s[j]);
            } else if j == p {
                assert(t[i] == s[i]);
            } else if i < p {
                assert(t[i] == s[i] && t[j] == s[j - 1]);
                if i < j - 1 {
                    assert(s[i].3 >= s[j - 1].3);
                }
            } else if i == p {
                assert(t[j] == s[j - 1]);
            } else {
                assert(t[i] == s[i - 1] && t[j] == s[j - 1]);
            }
        }
        vstd::seq_lib::to_multiset_insert(s, p, x);
        assert(ps =~= ps.drop_last().push(x));
        vstd::seq_lib::to_multiset_build(ps.drop_last(), x);
        assert(sort_by_rank(ps) == t);
        assert(t.to_multiset() == s.to_multiset().insert(x));
        assert(ps.to_multiset() == ps.drop_last().to_multiset().insert(x));
    } else {
        assert(ps =~= Seq::<RuleView>::empty());
    }
}

/// Every rule's rank is the character length of its pattern.
pub open spec fn ranked_by_length(rs: Seq<RuleView>) -> bool {
    forall|i: int| 0 <= i < rs.len() ==> #[trigger] rs[i].3 == rs[i].0.len()
}

proof fn lemma_error_rules_ranked(errs: Seq<Seq<char>>, m: AsrMarker)
    ensures
        ranked_by_length(error_rules(errs, m)),
    decreases errs.len(),
{
    if errs.len() > 0 {
        lemma_error_rules_ranked(errs.drop_last(), m);
    }
}

proof fn lemma_collect_rules_ranked(ms: Seq<AsrMarker>)
    ensures
        ranked_by_length(collect_rules(ms)),
    decreases ms.len(),
{
    if ms.len() > 0 {
        lemma_collect_rules_ranked(ms.drop_last());
        let a = collect_rules(ms.drop_last());
        let b = marker_rules(ms.last());
        if ms.last().confidence == MarkerConfidence::Verified && trim(ms.last().correct@).len() > 0 {
            lemma_error_rules_ranked(views(ms.last().asr_errors@), ms.last());
        }
        assert forall|i: int| 0 <= i < (a + b).len() implies #[trigger] (a + b)[i].3 == (a + b)[i].0.len() by {
            if i < a.len() {
                assert((a + b)[i] == a[i]);
            } else {
                assert((a + b)[i] == b[i - a.len()]);
            }
        }
    }
}

proof fn lemma_sort_keeps_ranked(ps: Seq<RuleView>)
    requires
        ranked_by_length(ps),
    ensures
        ranked_by_length(sort_by_rank(ps)),
    decreases ps.len(),
{
    if ps.len() > 0 {
        let pre = ps.drop_last();
        assert(ranked_by_length(pre)) by {
            assert forall|i: int| 0 <= i < pre.len() implies #[trigger] pre[i].3 == pre[i].0.len() by {
                assert(pre[i] == ps[i]);
            }
        }
        lemma_sort_keeps_ranked(pre);
        lemma_sort_by_rank_sorted(pre);
        let s = sort_by_rank(pre);
        let x = ps.last();
        assert(x.3 == x.0.len());
        let p = rank_pos(s, x.3, 0);
        lemma_rank_pos_facts(s, x.3, 0);
        let t = s.insert(p, x);
        assert forall|i: int| 0 <= i < t.len() implies #[trigger] t[i].3 == t[i].0.len() by {
            if i < p {
                assert(t[i] == s[i]);
            } else if i > p {
                assert(t[i] == s[i - 1]);
            }
        }
    }
}

/// Rules run longest error form first: the corrected text is the text with
/// the verified markers' rules applied in an order that is a rearrangement
/// of the collected rules in which every rule's rank is its error form's
/// length in characters, and the error forms never get longer along the
/// order.
pub proof fn lemma_rules_longest_first(text: Seq<char>, ms: Seq<AsrMarker>)
    ensures
        ({
            let rs = sort_by_rank(collect_rules(ms));
            &&& rule_corrected(text, ms) == apply_rules(text, rs)
            &&& rs.to_multiset() == collect_rules(ms).to_multiset()
            &&& forall|i: int| 0 <= i < rs.len() ==> #[trigger] rs[i].3 == rs[i].0.len()
            &&& forall|i: int, j: int|
                0 <= i < j < rs.len() ==> #[trigger] rs[i].0.len() >= #[trigger] rs[j].0.len()
        }),
{
    let rs = sort_by_rank(collect_rules(ms));
    lemma_collect_rules_ranked(ms);
    lemma_sort_keeps_ranked(collect_rules(ms));
    lemma_sort_by_rank_sorted(collect_rules(ms));
    assert forall|i: int, j: int| 0 <= i < j < rs.len() implies #[trigger] rs[i].0.len() >= #[trigger] rs[j].0.len() by {
        assert(rs[i].3 >= rs[j].3);
    }
}

proof fn lemma_rank_pos_facts(s: Seq<RuleView>, r: nat, j: int)
    requires
        0 <= j <= s.len(),
        forall|a: int, b: int| 0 <= a < b < s.len() ==> #[trigger] s[a].3 >= #[trigger] s[b].3,
    ensures
        j <= rank_pos(s, r, j) <= s.len(),
        forall|k: int| j <= k < rank_pos(s, r, j) ==> #[trigger] s[k].3 >= r,
        rank_pos(s, r, j) < s.len() ==> s[rank_pos(s, r, j)].3 < r,
    decreases s.len() - j,
{
    if j < s.len() && s[j].3 >= r {
        lemma_rank_pos_facts(s, r, j + 1);
    }
}


// ---------------------------------------------------------------------------
// Laws of the store operations
// ---------------------------------------------------------------------------

proof fn lemma_marker_in_push(ms: Seq<AsrMarker>, x: AsrMarker, c: AsrMarker)
    requires
        marker_in(ms, c),
    ensures
        marker_in(ms.push(x), c),
{
    let i = choose|i: int| 0 <= i < ms.len() && #[trigger] same_entry(ms[i], c);
    assert(ms.push(x)[i] == ms[i]);
}

proof fn lemma_same_entry_self(c: AsrMarker)
    requires
        c.asr_errors@.len() > 0,
    ensures
        same_entry(c, c),
{
    assert(views(c.asr_errors@)[0] == c.asr_errors@[0]@);
    assert(views(c.asr_errors@).contains(c.asr_errors@[0]@));
}

/// Every mergeable candidate is recorded once the candidates are merged.
proof fn lemma_merged_records(ms: Seq<AsrMarker>, cs: Seq<AsrMarker>, f: Option<MarkerConfidence>)
    ensures
        forall|k: int| 0 <= k < cs.len() && is_mergeable(with_confidence(cs[k], f)) ==> marker_in(
            merged(ms, cs, f),
            #[trigger] with_confidence(cs[k], f),
        ),
    decreases cs.len(),
{
    if cs.len() > 0 {
        let pre = cs.drop_last();
        lemma_merged_records(ms, pre, f);
        let m0 = merged(ms, pre, f);
        let x = with_confidence(cs.last(), f);
        assert forall|k: int| 0 <= k < cs.len() && is_mergeable(with_confidence(cs[k], f)) implies marker_in(
            merged(ms, cs, f),
            #[trigger] with_confidence(cs[k], f),
        ) by {
            if k < cs.len() - 1 {
                assert(cs[k] == pre[k]);
                if is_mergeable(x) && !marker_in(m0, x) {
                    lemma_marker_in_push(m0, x, with_confidence(cs[k], f));
                }
            } else {
                if is_mergeable(x) && !marker_in(m0, x) {
                    lemma_same_entry_self(x);
                    assert(m0.push(x)[m0.len() as int] == x);
                }
            }
        }
    }
}

/// Candidates that are all recorded (or not mergeable) change nothing.
proof fn lemma_merged_known(ms: Seq<AsrMarker>, cs: Seq<AsrMarker>, f: Option<MarkerConfidence>)
    requires
        forall|k: int| 0 <= k < cs.len() && is_mergeable(with_confidence(cs[k], f)) ==> marker_in(
            ms,
            #[trigger] with_confidence(cs[k], f),
        ),
    ensures
        merged(ms, cs, f) == ms,
    decreases cs.len(),
{
    if cs.len() > 0 {
        let pre = cs.drop_last();
        assert forall|k: int| 0 <= k < pre.len() && is_mergeable(with_confidence(pre[k], f)) implies marker_in(
            ms,
            #[trigger] with_confidence(pre[k], f),
        ) by {
            assert(pre[k] == cs[k]);
        }
        lemma_merged_known(ms, pre, f);
        assert(cs.last() == cs[cs.len() - 1]);
    }
}

/// A second `merge_markers` call with the same candidates returns 0 and
/// leaves the store as it was: `s1` is the store the first call left, and
/// `s2`, `r` are the store and count of the second call, related as
/// `merge_markers` states.
pub proof fn lemma_merge_twice(
    s0: AsrMarkerStore,
    s1: AsrMarkerStore,
    s2: AsrMarkerStore,
    cs: Seq<AsrMarker>,
    f: Option<MarkerConfidence>,
    r: u32,
)
    requires
        s1.markers@ == merged(s0.markers@, cs, f),
        s2.version == s1.version,
        s2.markers@ == merged(s1.markers@, cs, f),
        r == s2.markers@.len() - s1.markers@.len(),
        r == 0 ==> s2.changelog@ == s1.changelog@,
    ensures
        r == 0,
        s2.version == s1.version,
        s2.markers@ == s1.markers@,
        s2.changelog@ == s1.changelog@,
{
    lemma_merge_idempotent(s0.markers@, cs, f);
}

/// Merging is idempotent: merging the same candidates again adds nothing.
pub proof fn lemma_merge_idempotent(ms: Seq<AsrMarker>, cs: Seq<AsrMarker>, f: Option<MarkerConfidence>)
    ensures
        merged(merged(ms, cs, f), cs, f) == merged(ms, cs, f),
{
    lemma_merged_records(ms, cs, f);
    lemma_merged_known(merged(ms, cs, f), cs, f);
}

/// Merging only appends: the existing markers stay in place.
pub proof fn lemma_merge_appends(ms: Seq<AsrMarker>, cs: Seq<AsrMarker>, f: Option<MarkerConfidence>)
    ensures
        merged(ms, cs, f).len() >= ms.len(),
        merged(ms, cs, f).len() <= ms.len() + cs.len(),
        merged(ms, cs, f).subrange(0, ms.len() as int) == ms,
    decreases cs.len(),
{
    if cs.len() > 0 {
        lemma_merge_appends(ms, cs.drop_last(), f);
        let m0 = merged(ms, cs.drop_last(), f);
        assert(m0.push(with_confidence(cs.last(), f)).subrange(0, ms.len() as int) =~= m0.subrange(0, ms.len() as int));
    } else {
        assert(ms.subrange(0, ms.len() as int) =~= ms);
    }
}

/// After accepting, nothing is pending, and accepting again changes nothing.
pub proof fn lemma_accept_idempotent(ms: Seq<AsrMarker>)
    ensures
        pending_count(ms.map_values(|m: AsrMarker| accepted(m))) == 0,
        ms.map_values(|m: AsrMarker| accepted(m)).map_values(|m: AsrMarker| accepted(m)) == ms.map_values(
            |m: AsrMarker| accepted(m),
        ),
    decreases ms.len(),
{
    let a = ms.map_values(|m: AsrMarker| accepted(m));
    if ms.len() > 0 {
        lemma_accept_idempotent(ms.drop_last());
        assert(a.drop_last() =~= ms.drop_last().map_values(|m: AsrMarker| accepted(m)));
    }
    assert(a.map_values(|m: AsrMarker| accepted(m)) =~= a);
}

proof fn lemma_extend_unique_contains(errs: Seq<Seq<char>>, add: Seq<Seq<char>>)
    ensures
        forall|j: int| 0 <= j < add.len() ==> extend_unique(errs, add).contains(#[trigger] add[j]),
        forall|j: int| 0 <= j < errs.len() ==> extend_unique(errs, add).contains(#[trigger] errs[j]),
    decreases add.len(),
{
    if add.len() > 0 {
        let pre = add.drop_last();
        lemma_extend_unique_contains(errs, pre);
        let e = extend_unique(errs, pre);
        assert forall|j: int| 0 <= j < add.len() implies extend_unique(errs, add).contains(#[trigger] add[j]) by {
            if j < add.len() - 1 {
                assert(add[j] == pre[j]);
                assert(e.contains(pre[j]));
                if !e.contains(add.last()) {
                    let w = choose|w: int| 0 <= w < e.len() && e[w] == pre[j];
                    assert(e.push(add.last())[w] == pre[j]);
                }
            } else {
                if !e.contains(add.last()) {
                    assert(e.push(add.last())[e.len() as int] == add.last());
                }
            }
        }
        assert forall|j: int| 0 <= j < errs.len() implies extend_unique(errs, add).contains(#[trigger] errs[j]) by {
            assert(e.contains(errs[j]));
            if !e.contains(add.last()) {
                let w = choose|w: int| 0 <= w < e.len() && e[w] == errs[j];
                assert(e.push(add.last())[w] == errs[j]);
            }
        }
    }
}

/// An upserted marker with at least one error form is recorded afterwards,
/// whichever branch was taken.
pub proof fn lemma_upsert_records(old_ms: Seq<AsrMarker>, new_ms: Seq<AsrMarker>, marker: AsrMarker, is_new: bool)
    requires
        marker.asr_errors@.len() > 0,
        is_new == !marker_in(old_ms, marker),
        is_new ==> new_ms == old_ms.push(marker),
        !is_new ==> {
            let k = first_with_correct(old_ms, marker.correct@, 0);
            &&& 0 <= k < old_ms.len()
            &&& new_ms.len() == old_ms.len()
            &&& old_ms[k].correct@ == marker.correct@
            &&& extended_by(new_ms[k], old_ms[k], marker)
        },
    ensures
        marker_in(new_ms, marker),
{
    if is_new {
        lemma_same_entry_self(marker);
        assert(new_ms[old_ms.len() as int] == marker);
    } else {
        let k = first_with_correct(old_ms, marker.correct@, 0);
        lemma_extend_unique_contains(views(old_ms[k].asr_errors@), views(marker.asr_errors@));
        assert(views(marker.asr_errors@)[0] == marker.asr_errors@[0]@);
        assert(views(new_ms[k].asr_errors@).contains(marker.asr_errors@[0]@));
        assert(same_entry(new_ms[k], marker));
    }
}

} // verus!

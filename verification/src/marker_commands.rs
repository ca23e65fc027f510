//! Store updates behind the marker commands of the UI (add, set confidence,
//! Markdown import, one-word correction). Loading and saving the store is
//! left to the caller.

use vstd::prelude::*;
use crate::markers::{
    correction_parts, is_change_entry, is_row_marker, marker_in, marker_table, merge_markers,
    merged, opt_str_view, opt_view, parse_correction_output, upsert_marker, upserted, AsrMarker,
    AsrMarkerStore, MarkerChangelogEntry, MarkerConfidence, MarkerMatchMode,
};
use crate::text::{chars_of, split_by, string_of, trim, trim_vec, views};

verus! {

/// Status of the speech model for the UI.
#[derive(Clone, Debug)]
pub struct ModelLoadStatus {
    pub is_loaded: bool,
    pub current_model: Option<String>,
}

fn ui_entry(summary: &str, source: &str) -> (e: MarkerChangelogEntry)
    ensures
        is_change_entry(e, summary@, Some(source@), 1),
{
    let date = crate::clock::chrono_date_string();
    MarkerChangelogEntry {
        date,
        summary: String::from_str(summary),
        source: Some(String::from_str(source)),
        count: 1,
    }
}

/// Add (or merge) a marker entered in the UI; a new marker is logged in the
/// changelog. Returns whether it was new.
pub fn add_marker_from_ui(store: &mut AsrMarkerStore, marker: AsrMarker) -> (r: bool)
    ensures
        final(store).version == old(store).version,
        r == !marker_in(old(store).markers@, marker),
        upserted(old(store).markers@, final(store).markers@, marker),
        r ==> final(store).changelog@.drop_last() == old(store).changelog@ && final(store).changelog@.len()
            == old(store).changelog@.len() + 1 && is_change_entry(
            final(store).changelog@.last(),
            "Added marker from UI"@,
            Some("ui"@),
            1,
        ),
        !r ==> final(store).changelog@ == old(store).changelog@,
{
    let is_new = upsert_marker(store, marker);
    if is_new {
        store.changelog.push(ui_entry("Added marker from UI", "ui"));
    }
    is_new
}

/// Set the confidence of the marker at `index` (error when out of range).
pub fn set_marker_confidence(store: &mut AsrMarkerStore, index: usize, confidence: MarkerConfidence) -> (r: Result<(), String>)
    ensures
        index >= old(store).markers@.len() ==> (r matches Err(e) && e@ == "Marker index "@
            + crate::text::decimal(index as nat) + " out of range"@) && *final(store) == *old(store),
        index < old(store).markers@.len() ==> r is Ok && final(store).version == old(store).version
            && final(store).changelog@ == old(store).changelog@ && final(store).markers@
            == old(store).markers@.update(index as int, AsrMarker { confidence, ..old(store).markers@[index as int] }),
{
    if index >= store.markers.len() {
        let mut msg = String::from_str("Marker index ");
        let digits = crate::text::decimal_chars(index as u64);
        crate::text::push_chars(&mut msg, &digits);
        msg.append(" out of range");
        return Err(msg);
    }
    store.markers[index].confidence = confidence;
    assert(store.markers@ =~= old(store).markers@.update(index as int, AsrMarker { confidence, ..old(store).markers@[index as int] }));
    Ok(())
}

/// The document parsed by the Markdown import: a placeholder body, the
/// new-markers header, then the pasted table.
pub open spec fn import_document(markdown: Seq<char>) -> Seq<char> {
    "body\n\n【新增标识物】\n"@ + markdown
}

proof fn lemma_split_by_len(s: Seq<char>, seps: Seq<char>)
    ensures
        split_by(s, seps).len() <= s.len() + 1,
    decreases s.len(),
{
    if s.len() > 0 {
        lemma_split_by_len(s.drop_last(), seps);
        crate::text::lemma_split_by_nonempty(s.drop_last(), seps);
    }
}

proof fn lemma_table_rows_len(lines: Seq<Seq<char>>)
    ensures
        crate::markers::table_rows(lines).len() <= lines.len(),
    decreases lines.len(),
{
    if lines.len() > 0 {
        lemma_table_rows_len(lines.drop_last());
    }
}

/// Import markers from a Markdown table dump (e.g. a vault note). Rows like
/// `| error | correct | category |` become pending markers, merged into the
/// store as by `merge_markers` with the given source (default
/// `markdown_import`). Returns the number added.
///
/// The markdown is at most `u32::MAX - 2` characters long, so that the rows
/// read from it (at most one per line) can be counted in a `u32`.
pub fn import_markers_markdown(store: &mut AsrMarkerStore, markdown: &str, source: Option<&str>) -> (r: u32)
    requires
        markdown@.len() <= u32::MAX - 2,
    ensures
        final(store).version == old(store).version,
        exists|cands: Seq<AsrMarker>|
            {
                &&& correction_parts(import_document(markdown@)) matches Some((body, table))
                    && cands.len() == marker_table(table).len() && forall|i: int|
                    0 <= i < cands.len() ==> #[trigger] is_row_marker(cands[i], marker_table(table)[i], opt_str_view(source))
                &&& final(store).markers@ == merged(old(store).markers@, cands, Some(MarkerConfidence::Pending))
            },
        r == final(store).markers@.len() - old(store).markers@.len(),
        r == 0 ==> final(store).changelog@ == old(store).changelog@,
        r > 0 ==> final(store).changelog@.drop_last() == old(store).changelog@ && is_change_entry(
            final(store).changelog@.last(),
            "Added "@ + crate::text::decimal(r as nat) + " marker(s)"@,
            Some(match source {
                Some(s) => s@,
                None => "markdown_import"@,
            }),
            r,
        ),
{
    let mut doc = String::from_str("body\n\n【新增标识物】\n");
    doc.append(markdown);
    let parsed = parse_correction_output(doc.as_str(), source);
    proof {
        // The header is present, so the document always splits.
        let d = import_document(markdown@);
        assert(doc@ == d);
        let w = crate::marker_sync::lemma_import_table(markdown@);
        let (body, table) = correction_parts(d)->0;
        reveal_strlit("\n");
        assert(table + w == "\n"@ + markdown@);
        assert((table + w).len() == table.len() + w.len());
        assert(("\n"@ + markdown@).len() == markdown@.len() + 1);
        lemma_split_by_len(table, seq!['\n']);
        lemma_table_rows_len(split_by(table, seq!['\n']));
        assert(parsed.new_markers@.len() == marker_table(table).len());
        assert(parsed.new_markers@.len() <= u32::MAX);
    }
    let changelog_source = match source {
        Some(s) => s,
        None => "markdown_import",
    };
    let ghost cands = parsed.new_markers@;
    merge_markers(store, parsed.new_markers, Some(MarkerConfidence::Pending), Some(changelog_source))
}

/// The marker recorded by a one-word correction, or the error for blank
/// input.
pub open spec fn one_word_marker_ok(m: AsrMarker, wrong: Seq<char>, correct: Seq<char>, category: Option<Seq<char>>) -> bool {
    &&& views(m.asr_errors@) == seq![trim(wrong)]
    &&& m.correct@ == trim(correct)
    &&& m.category@ == (match category {
        Some(c) => c,
        None => "other"@,
    })
    &&& opt_view(m.note) == Some("history/UI one-word correction"@)
    &&& opt_view(m.source) == Some("history_correct"@)
    &&& m.confidence == MarkerConfidence::Verified
    &&& m.match_mode == MarkerMatchMode::Exact
}

/// Validate a quick “one-word correction” (`wrong → correct`) and build its
/// verified marker; both words must be non-blank.
pub fn one_word_marker(wrong: &str, correct: &str, category: Option<String>) -> (r: Result<AsrMarker, String>)
    ensures
        (trim(wrong@).len() == 0 || trim(correct@).len() == 0) ==> (r matches Err(e) && e@
            == "wrong and correct must be non-empty"@),
        (trim(wrong@).len() > 0 && trim(correct@).len() > 0) ==> (r matches Ok(m) && one_word_marker_ok(
            m,
            wrong@,
            correct@,
            opt_view(category),
        )),
{
    let wv = chars_of(wrong);
    let w = trim_vec(&wv);
    let cv = chars_of(correct);
    let c = trim_vec(&cv);
    if w.len() == 0 || c.len() == 0 {
        return Err(String::from_str("wrong and correct must be non-empty"));
    }
    let mut errors: Vec<String> = Vec::new();
    errors.push(string_of(&w));
    assert(views(errors@) =~= seq![trim(wrong@)]);
    let category = match category {
        Some(c) => c,
        None => String::from_str("other"),
    };
    Ok(AsrMarker {
        asr_errors: errors,
        correct: string_of(&c),
        category,
        note: Some(String::from_str("history/UI one-word correction")),
        source: Some(String::from_str("history_correct")),
        confidence: MarkerConfidence::Verified,
        match_mode: MarkerMatchMode::Exact,
    })
}

/// Record a one-word correction: upsert its marker and log it.
pub fn record_one_word_correction(store: &mut AsrMarkerStore, marker: AsrMarker)
    ensures
        final(store).version == old(store).version,
        upserted(old(store).markers@, final(store).markers@, marker),
        final(store).changelog@.drop_last() == old(store).changelog@,
        final(store).changelog@.len() == old(store).changelog@.len() + 1,
        is_change_entry(final(store).changelog@.last(), "One-word correction from UI"@, Some("history_correct"@), 1),
{
    upsert_marker(store, marker);
    store.changelog.push(ui_entry("One-word correction from UI", "history_correct"));
}

} // verus!

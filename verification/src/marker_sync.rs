//! Reading Markdown back into the marker store: what the Markdown import
//! reads from the Markdown export, and what the split of LLM output leaves
//! in the body. For markers whose cells survive a Markdown table unchanged,
//! the table rows read back are exactly the markers' error forms, correct
//! forms and categories, in order; and a body never holds the new-markers
//! header.

use vstd::prelude::*;
use crate::markers::{
    changelog_line, changelog_text, export_header, export_line, export_row, markdown_export,
    recent_changes, AsrMarkerStore, MarkerChangelogEntry, correction_parts, new_markers_header,
    is_mergeable, is_row_marker, marker_in, merged, same_entry, with_confidence, MarkerConfidence, MarkerMatchMode,
    error_separators, errors_text, export_header_lines, is_header_row, marker_table, nonempty_only, row_cells,
    table_row, table_rows, trim_all, AsrMarker,
};
use crate::marker_commands::import_document;
use crate::text::{
    find, find_from, lemma_find_from_facts, str_lowercase, tail_end,
    all_ws, contains, free_of, is_clean, matches_at, is_ws, join_sep, lead_end, lemma_lead_end_bounds,
    lemma_split_by_append_plain, lemma_split_by_nonempty, lemma_split_by_plain, lemma_split_by_sep,
    lemma_tail_end_bounds, lemma_trim_facts, lemma_trim_of_clean, lemma_trim_padded, lines_text, concat,
    lemma_lines_text_append, lemma_lines_text_one, lemma_split_lines_text, lemma_trim_push_ws, split_by,
    tail_end_of, lead_end_of, trim, trim_char, trim_end, trim_start, views,
};

verus! {

/// A row read from the marker table: error forms, correct form, category.
pub type TableRow = (Seq<Seq<char>>, Seq<char>, Seq<char>);

/// The row a marker is expected to read back as.
pub open spec fn marker_row(m: AsrMarker) -> TableRow {
    (views(m.asr_errors@), m.correct@, m.category@)
}

/// A table cell that the export writes unchanged and the import reads back:
/// non-empty, no surrounding whitespace, no `|` and no line break.
pub open spec fn safe_cell(s: Seq<char>) -> bool {
    is_clean(s) && free_of(s, seq!['|', '\n'])
}

/// An error form that also holds no error-form separator.
pub open spec fn safe_error_form(s: Seq<char>) -> bool {
    safe_cell(s) && free_of(s, error_separators())
}

/// A marker that the Markdown table carries unchanged: its error forms,
/// correct form and category are safe cells, and its first two cells are
/// not taken for the table header.
pub open spec fn table_safe(m: AsrMarker) -> bool {
    &&& m.asr_errors@.len() > 0
    &&& forall|j: int| 0 <= j < m.asr_errors@.len() ==> safe_error_form(#[trigger] m.asr_errors@[j]@)
    &&& safe_cell(m.correct@)
    &&& safe_cell(m.category@)
    &&& !is_header_row(errors_text(m), m.correct@)
}

/// `table_rows` over two halves.
proof fn lemma_table_rows_append(a: Seq<Seq<char>>, b: Seq<Seq<char>>)
    ensures
        table_rows(a + b) == table_rows(a) + table_rows(b),
    decreases b.len(),
{
    if b.len() == 0 {
        assert(a + b =~= a);
        assert(table_rows(a) + table_rows(b) =~= table_rows(a));
    } else {
        lemma_table_rows_append(a, b.drop_last());
        assert((a + b).drop_last() =~= a + b.drop_last());
        assert((a + b).last() == b.last());
        match table_row(b.last()) {
            Some(r) => {
                assert((table_rows(a) + table_rows(b.drop_last())).push(r) =~= table_rows(a)
                    + table_rows(b.drop_last()).push(r));
            },
            None => {},
        }
    }
}

/// Lines none of which is a data row give no rows.
proof fn lemma_table_rows_none(ls: Seq<Seq<char>>)
    requires
        forall|i: int| 0 <= i < ls.len() ==> table_row(#[trigger] ls[i]) is None,
    ensures
        table_rows(ls) == Seq::<TableRow>::empty(),
    decreases ls.len(),
{
    if ls.len() > 0 {
        let pre = ls.drop_last();
        assert forall|i: int| 0 <= i < pre.len() implies table_row(#[trigger] pre[i]) is None by {
            assert(pre[i] == ls[i]);
        }
        lemma_table_rows_none(pre);
        assert(table_row(ls[ls.len() - 1]) is None);
    }
}

/// A blank line is no data row.
proof fn lemma_blank_not_row()
    ensures
        table_row(Seq::<char>::empty()) is None,
{
    lemma_trim_facts(Seq::<char>::empty());
}

/// Trailing whitespace (line breaks included) adds no rows.
proof fn lemma_marker_table_ws_suffix(s: Seq<char>, w: Seq<char>)
    requires
        all_ws(w),
    ensures
        marker_table(s + w) == marker_table(s),
    decreases w.len(),
{
    if w.len() == 0 {
        assert(s + w =~= s);
    } else {
        let w0 = w.drop_last();
        assert(all_ws(w0)) by {
            assert forall|k: int| 0 <= k < w0.len() implies is_ws(#[trigger] w0[k]) by {
                assert(w0[k] == w[k]);
            }
        }
        lemma_marker_table_ws_suffix(s, w0);
        let c = w.last();
        assert(is_ws(w[w.len() - 1]));
        assert((s + w).drop_last() =~= s + w0);
        assert((s + w).last() == c);
        let pre = split_by(s + w0, seq!['\n']);
        lemma_split_by_nonempty(s + w0, seq!['\n']);
        if c == '\n' {
            assert(seq!['\n'][0] == '\n');
            lemma_blank_not_row();
            assert(pre.push(Seq::<char>::empty()).drop_last() =~= pre);
        } else {
            assert(!seq!['\n'].contains(c));
            let q = pre.update(pre.len() - 1, pre.last().push(c));
            assert(q.drop_last() =~= pre.drop_last());
            lemma_trim_push_ws(pre.last(), c);
            assert(table_row(pre.last().push(c)) == table_row(pre.last()));
        }
    }
}

/// A line starting with something other than whitespace or `|` is no row.
proof fn lemma_line_not_row(l: Seq<char>)
    requires
        l.len() > 0,
        !is_ws(l[0]),
        l[0] != '|',
    ensures
        table_row(l) is None,
{
    assert(lead_end(l, 0) == 0);
    assert(trim_start(l) =~= l);
    lemma_trim_facts(l);
    if trim(l).len() == 0 {
        assert(is_ws(l[0]));
    }
    assert(trim(l) == trim_end(l));
    lemma_tail_end_bounds(l, l.len() as int);
    assert(trim_end(l)[0] == l[0]);
}

/// Exactly one `|` is trimmed at each end of a table line.
proof fn lemma_trim_char_bars(l: Seq<char>)
    requires
        l.len() >= 3,
        l[0] == '|',
        l[1] != '|',
        l.last() == '|',
        l[l.len() - 2] != '|',
    ensures
        trim_char(l, '|') == l.subrange(1, l.len() - 1),
{
    assert(lead_end_of(l, '|', 1) == 1);
    assert(lead_end_of(l, '|', 0) == 1);
    let t = l.subrange(1, l.len() as int);
    assert(t[t.len() - 2] == l[l.len() - 2]);
    assert(tail_end_of(t, '|', t.len() - 1) == t.len() - 1);
    assert(t[t.len() - 1] == '|');
    assert(tail_end_of(t, '|', t.len() as int) == t.len() - 1);
    assert(t.subrange(0, t.len() - 1) =~= l.subrange(1, l.len() - 1));
}

/// Cells of `|p|rest|`: the trimmed first cell, then those of `rest`.
proof fn lemma_row_cells_split(l: Seq<char>, p: Seq<char>, rest: Seq<char>)
    requires
        l == seq!['|'] + p + seq!['|'] + rest + seq!['|'],
        p.len() > 0,
        p[0] != '|',
        rest.len() > 0,
        rest.last() != '|',
        free_of(p, seq!['|']),
    ensures
        row_cells(l) == seq![trim(p)] + trim_all(split_by(rest, seq!['|'])),
        row_cells(l).len() >= 2,
{
    assert(l[1] == p[0]);
    assert(l[l.len() - 2] == rest.last());
    assert(l.last() == '|');
    lemma_trim_char_bars(l);
    let inner = l.subrange(1, l.len() - 1);
    assert(inner =~= p + seq!['|'] + rest);
    assert(seq!['|'][0] == '|');
    lemma_split_by_sep(p, '|', rest, seq!['|']);
    lemma_split_by_plain(p, seq!['|']);
    lemma_split_by_nonempty(rest, seq!['|']);
    let f = |x: Seq<char>| trim(x);
    assert((seq![p] + split_by(rest, seq!['|'])).map_values(f) =~= seq![trim(p)] + split_by(
        rest,
        seq!['|'],
    ).map_values(f));
}

/// Membership in the two-character set of `|` and line break.
proof fn lemma_bar_nl(c: char)
    ensures
        seq!['|', '\n'].contains(c) <==> (c == '|' || c == '\n'),
{
    let s = seq!['|', '\n'];
    if c == '|' {
        assert(s[0] == c);
    } else if c == '\n' {
        assert(s[1] == c);
    } else if s.contains(c) {
        let i = choose|i: int| 0 <= i < s.len() && s[i] == c;
        assert(i == 0 || i == 1);
    }
}

proof fn lemma_nl(c: char)
    ensures
        seq!['\n'].contains(c) <==> c == '\n',
{
    let s = seq!['\n'];
    if c == '\n' {
        assert(s[0] == c);
    } else if s.contains(c) {
        let i = choose|i: int| 0 <= i < s.len() && s[i] == c;
        assert(i == 0);
    }
}

/// A cell without `|` and line breaks is written as it is.
proof fn lemma_md_cell_plain(s: Seq<char>)
    requires
        free_of(s, seq!['|', '\n']),
    ensures
        crate::markers::md_cell(s) == s,
        free_of(s, seq!['|']),
        free_of(s, seq!['\n']),
{
    assert forall|k: int| 0 <= k < s.len() implies s[k] != '|' && s[k] != '\n' by {
        lemma_bar_nl(s[k]);
    }
    crate::text::lemma_replace_absent(s, '|', seq!['\\', '|']);
    crate::text::lemma_replace_absent(s, '\n', seq![' ']);
    assert forall|k: int| 0 <= k < s.len() implies !seq!['|'].contains(#[trigger] s[k]) by {
        if seq!['|'].contains(s[k]) {
            let i = choose|i: int| 0 <= i < 1 && seq!['|'][i] == s[k];
            assert(i == 0);
        }
    }
    assert forall|k: int| 0 <= k < s.len() implies !seq!['\n'].contains(#[trigger] s[k]) by {
        lemma_nl(s[k]);
    }
}

/// Joined safe error forms make a clean cell without `|` and line breaks.
proof fn lemma_join_slash_safe(es: Seq<Seq<char>>)
    requires
        es.len() > 0,
        forall|i: int| 0 <= i < es.len() ==> safe_error_form(#[trigger] es[i]),
    ensures
        is_clean(join_sep(es, " / "@)),
        free_of(join_sep(es, " / "@), seq!['|', '\n']),
    decreases es.len(),
{
    reveal_strlit(" / ");
    assert(safe_error_form(es[es.len() - 1]));
    if es.len() > 1 {
        let pre = es.drop_last();
        assert forall|i: int| 0 <= i < pre.len() implies safe_error_form(#[trigger] pre[i]) by {
            assert(pre[i] == es[i]);
        }
        lemma_join_slash_safe(pre);
        let j = join_sep(pre, " / "@);
        let last = es.last();
        let s = j + " / "@ + last;
        assert(join_sep(es, " / "@) == s);
        assert(s[0] == j[0]);
        assert(s.last() == last.last());
        assert forall|k: int| 0 <= k < s.len() implies !seq!['|', '\n'].contains(#[trigger] s[k]) by {
            lemma_bar_nl(s[k]);
            if k < j.len() {
                assert(s[k] == j[k]);
                lemma_bar_nl(j[k]);
            } else if k < j.len() + 3 {
                assert(s[k] == " / "@[k - j.len()]);
            } else {
                assert(s[k] == last[k - j.len() - 3]);
                lemma_bar_nl(last[k - j.len() - 3]);
            }
        }
    }
}

proof fn lemma_free_of_append(a: Seq<char>, b: Seq<char>, cs: Seq<char>)
    requires
        free_of(a, cs),
        free_of(b, cs),
    ensures
        free_of(a + b, cs),
{
    assert forall|k: int| 0 <= k < (a + b).len() implies !cs.contains(#[trigger] (a + b)[k]) by {
        if k < a.len() {
            assert((a + b)[k] == a[k]);
        } else {
            assert((a + b)[k] == b[k - a.len()]);
        }
    }
}

/// `x` with a space on each side.
pub open spec fn padded(x: Seq<char>) -> Seq<char> {
    seq![' '] + x + seq![' ']
}

proof fn lemma_padded_free(x: Seq<char>, cs: Seq<char>)
    requires
        free_of(x, cs),
        !cs.contains(' '),
    ensures
        free_of(padded(x), cs),
{
    assert(free_of(seq![' '], cs)) by {
        assert forall|j: int| 0 <= j < 1 implies !cs.contains(#[trigger] seq![' '][j]) by {
            assert(seq![' '][j] == ' ');
        }
    }
    lemma_free_of_append(seq![' '], x, cs);
    lemma_free_of_append(seq![' '] + x, seq![' '], cs);
}

proof fn lemma_labels_one_line(m: AsrMarker)
    ensures
        free_of(crate::markers::match_mode_label(m.match_mode), seq!['\n']),
        free_of(crate::markers::confidence_label(m.confidence), seq!['\n']),
{
    reveal_strlit("exact");
    reveal_strlit("case_insensitive");
    reveal_strlit("regex");
    reveal_strlit("verified");
    reveal_strlit("pending");
    let mm = crate::markers::match_mode_label(m.match_mode);
    let f = crate::markers::confidence_label(m.confidence);
    assert forall|j: int| 0 <= j < mm.len() implies !seq!['\n'].contains(#[trigger] mm[j]) by {
        lemma_nl(mm[j]);
    }
    assert forall|j: int| 0 <= j < f.len() implies !seq!['\n'].contains(#[trigger] f[j]) by {
        lemma_nl(f[j]);
    }
}

/// The rest of an export line after its first cell.
pub open spec fn line_rest(m: AsrMarker) -> Seq<char> {
    padded(m.correct@) + seq!['|'] + (padded(m.category@) + seq!['|'] + (padded(
        crate::markers::match_mode_label(m.match_mode),
    ) + seq!['|'] + padded(crate::markers::confidence_label(m.confidence))))
}

proof fn lemma_export_line_shape(m: AsrMarker)
    requires
        table_safe(m),
    ensures
        crate::markers::export_line(m) == seq!['|'] + padded(errors_text(m)) + seq!['|'] + line_rest(m)
            + seq!['|'],
{
    let es = views(m.asr_errors@);
    assert forall|i: int| 0 <= i < es.len() implies safe_error_form(#[trigger] es[i]) by {
        assert(es[i] == m.asr_errors@[i]@);
    }
    lemma_join_slash_safe(es);
    lemma_md_cell_plain(errors_text(m));
    lemma_md_cell_plain(m.correct@);
    lemma_md_cell_plain(m.category@);
    reveal_strlit("| ");
    reveal_strlit(" | ");
    reveal_strlit(" |");
    assert(crate::markers::export_line(m) =~= seq!['|'] + padded(errors_text(m)) + seq!['|']
        + line_rest(m) + seq!['|']);
}

proof fn lemma_export_line_one_line(m: AsrMarker)
    requires
        table_safe(m),
    ensures
        free_of(crate::markers::export_line(m), seq!['\n']),
{
    let es = views(m.asr_errors@);
    assert forall|i: int| 0 <= i < es.len() implies safe_error_form(#[trigger] es[i]) by {
        assert(es[i] == m.asr_errors@[i]@);
    }
    lemma_join_slash_safe(es);
    lemma_export_line_shape(m);
    lemma_labels_one_line(m);
    lemma_md_cell_plain(errors_text(m));
    lemma_md_cell_plain(m.correct@);
    lemma_md_cell_plain(m.category@);
    lemma_nl(' ');
    lemma_nl('|');
    let bar = seq!['|'];
    let nl = seq!['\n'];
    assert(free_of(bar, nl)) by {
        assert forall|j: int| 0 <= j < 1 implies !nl.contains(#[trigger] bar[j]) by {
            assert(bar[j] == '|');
        }
    }
    let mm = crate::markers::match_mode_label(m.match_mode);
    let f = crate::markers::confidence_label(m.confidence);
    lemma_padded_free(errors_text(m), nl);
    lemma_padded_free(m.correct@, nl);
    lemma_padded_free(m.category@, nl);
    lemma_padded_free(mm, nl);
    lemma_padded_free(f, nl);
    lemma_free_of_append(padded(mm), bar, nl);
    lemma_free_of_append(padded(mm) + bar, padded(f), nl);
    lemma_free_of_append(padded(m.category@), bar, nl);
    lemma_free_of_append(padded(m.category@) + bar, padded(mm) + bar + padded(f), nl);
    lemma_free_of_append(padded(m.correct@), bar, nl);
    lemma_free_of_append(padded(m.correct@) + bar, padded(m.category@) + bar + (padded(mm) + bar + padded(f)), nl);
    lemma_free_of_append(bar, padded(errors_text(m)), nl);
    lemma_free_of_append(bar + padded(errors_text(m)), bar, nl);
    lemma_free_of_append(bar + padded(errors_text(m)) + bar, line_rest(m), nl);
    lemma_free_of_append(bar + padded(errors_text(m)) + bar + line_rest(m), bar, nl);
}

proof fn lemma_bar_free(x: Seq<char>)
    requires
        free_of(x, seq!['|', '\n']),
    ensures
        free_of(padded(x), seq!['|']),
{
    lemma_md_cell_plain(x);
    assert(!seq!['|'].contains(' ')) by {
        if seq!['|'].contains(' ') {
            let i = choose|i: int| 0 <= i < 1 && seq!['|'][i] == ' ';
            assert(i == 0);
        }
    }
    lemma_padded_free(x, seq!['|']);
}

/// The export line of a table-safe marker is one line, and reads back as
/// the marker's row.
proof fn lemma_export_line_reads_back(m: AsrMarker)
    requires
        table_safe(m),
    ensures
        free_of(crate::markers::export_line(m), seq!['\n']),
        table_row(crate::markers::export_line(m)) == Some(marker_row(m)),
{
    lemma_export_line_one_line(m);
    lemma_export_line_shape(m);
    let es = views(m.asr_errors@);
    assert forall|i: int| 0 <= i < es.len() implies safe_error_form(#[trigger] es[i]) by {
        assert(es[i] == m.asr_errors@[i]@);
    }
    lemma_join_slash_safe(es);
    let e = errors_text(m);
    let c = m.correct@;
    let k = m.category@;
    let l = crate::markers::export_line(m);
    let bar = seq!['|'];
    let rest3 = padded(crate::markers::match_mode_label(m.match_mode)) + bar + padded(
        crate::markers::confidence_label(m.confidence),
    );
    let rest2 = padded(k) + bar + rest3;
    let rest = line_rest(m);
    assert(rest == padded(c) + bar + rest2);
    lemma_bar_free(e);
    lemma_bar_free(c);
    lemma_bar_free(k);
    lemma_row_cells_split(l, padded(e), rest);
    assert(bar[0] == '|');
    lemma_split_by_sep(padded(c), '|', rest2, bar);
    lemma_split_by_sep(padded(k), '|', rest3, bar);
    lemma_split_by_plain(padded(c), bar);
    lemma_split_by_plain(padded(k), bar);
    lemma_split_by_nonempty(rest3, bar);
    assert(all_ws(seq![' '])) by {
        assert(is_ws(' '));
    }
    lemma_trim_padded(seq![' '], e, seq![' ']);
    lemma_trim_padded(seq![' '], c, seq![' ']);
    lemma_trim_padded(seq![' '], k, seq![' ']);
    let cells = row_cells(l);
    let tail = split_by(rest, bar);
    assert(tail == seq![padded(c)] + (seq![padded(k)] + split_by(rest3, bar)));
    assert(cells == seq![trim(padded(e))] + trim_all(tail));
    assert(cells.len() >= 4);
    assert(cells[0] == e);
    assert(trim_all(tail)[0] == trim(padded(c)));
    assert(cells[1] == c);
    assert(trim_all(tail)[1] == trim(padded(k)));
    assert(cells[2] == k);
    assert(l[0] == '|');
    assert(l.last() == '|');
    assert(!is_ws('|'));
    lemma_trim_of_clean(l);
    lemma_error_cell_reads_back(es);
}

/// The `i`-th piece of an error cell split at its separators: the error
/// form with the spaces of the surrounding ` / ` joints.
pub open spec fn slash_piece(es: Seq<Seq<char>>, i: int) -> Seq<char> {
    (if i > 0 {
        seq![' ']
    } else {
        Seq::empty()
    }) + es[i] + (if i < es.len() - 1 {
        seq![' ']
    } else {
        Seq::empty()
    })
}

proof fn lemma_separator_facts()
    ensures
        error_separators().contains('/'),
        !error_separators().contains(' '),
{
    let s = error_separators();
    assert(s[0] == '/');
    if s.contains(' ') {
        let i = choose|i: int| 0 <= i < s.len() && s[i] == ' ';
        assert(i == 0 || i == 1 || i == 2 || i == 3);
    }
}

/// An error cell splits into its error forms, each padded by the joint's
/// spaces.
proof fn lemma_split_error_text(es: Seq<Seq<char>>)
    requires
        es.len() > 0,
        forall|i: int| 0 <= i < es.len() ==> free_of(#[trigger] es[i], error_separators()),
    ensures
        split_by(join_sep(es, " / "@), error_separators()) == Seq::new(
            es.len(),
            |i: int| slash_piece(es, i),
        ),
    decreases es.len(),
{
    reveal_strlit(" / ");
    let seps = error_separators();
    lemma_separator_facts();
    let n = es.len() as int;
    if n == 1 {
        lemma_split_by_plain(es[0], seps);
        assert(slash_piece(es, 0) =~= es[0]);
        assert(Seq::new(1, |i: int| slash_piece(es, i)) =~= seq![es[0]]);
    } else {
        let pre = es.drop_last();
        assert forall|i: int| 0 <= i < pre.len() implies free_of(#[trigger] pre[i], seps) by {
            assert(pre[i] == es[i]);
        }
        lemma_split_error_text(pre);
        let j = join_sep(pre, " / "@);
        let last = es.last();
        assert(join_sep(es, " / "@) =~= (j + seq![' ']) + seq!['/'] + (seq![' '] + last));
        lemma_split_by_sep(j + seq![' '], '/', seq![' '] + last, seps);
        assert(free_of(seq![' '], seps)) by {
            assert forall|k: int| 0 <= k < 1 implies !seps.contains(#[trigger] seq![' '][k]) by {
                assert(seq![' '][k] == ' ');
            }
        }
        lemma_split_by_append_plain(j, seq![' '], seps);
        assert(free_of(seq![' '] + last, seps)) by {
            assert(free_of(last, seps));
            assert forall|k: int| 0 <= k < 1 + last.len() implies !seps.contains(
                #[trigger] (seq![' '] + last)[k],
            ) by {
                if k > 0 {
                    assert((seq![' '] + last)[k] == last[k - 1]);
                }
            }
        }
        lemma_split_by_plain(seq![' '] + last, seps);
        let q = split_by(j, seps);
        assert(q == Seq::new((n - 1) as nat, |i: int| slash_piece(pre, i)));
        let whole = q.update(q.len() - 1, q.last() + seq![' ']) + seq![seq![' '] + last];
        assert forall|i: int| 0 <= i < n implies #[trigger] whole[i] == slash_piece(es, i) by {
            if i < n - 2 {
                assert(whole[i] == slash_piece(pre, i));
                assert(pre[i] == es[i]);
            } else if i == n - 2 {
                assert(whole[i] == slash_piece(pre, i) + seq![' ']);
                assert(pre[i] == es[i]);
                assert(slash_piece(pre, i) + seq![' '] =~= slash_piece(es, i));
            } else {
                assert(whole[i] == seq![' '] + last);
                assert(seq![' '] + last =~= slash_piece(es, i));
            }
        }
        assert(whole =~= Seq::new(n as nat, |i: int| slash_piece(es, i)));
    }
}

/// Keeping the non-empty elements of a sequence with no empty element
/// keeps all of it.
proof fn lemma_nonempty_only_all(s: Seq<Seq<char>>)
    requires
        forall|i: int| 0 <= i < s.len() ==> (#[trigger] s[i]).len() > 0,
    ensures
        nonempty_only(s) == s,
    decreases s.len(),
{
    if s.len() > 0 {
        let pre = s.drop_last();
        assert forall|i: int| 0 <= i < pre.len() implies (#[trigger] pre[i]).len() > 0 by {
            assert(pre[i] == s[i]);
        }
        lemma_nonempty_only_all(pre);
        assert(s[s.len() - 1].len() > 0);
        assert(pre.push(s.last()) =~= s);
    }
}

/// The error forms of an error cell, read back.
proof fn lemma_error_cell_reads_back(es: Seq<Seq<char>>)
    requires
        es.len() > 0,
        forall|i: int| 0 <= i < es.len() ==> safe_error_form(#[trigger] es[i]),
    ensures
        nonempty_only(trim_all(split_by(join_sep(es, " / "@), error_separators()))) == es,
{
    assert forall|i: int| 0 <= i < es.len() implies free_of(#[trigger] es[i], error_separators()) by {
        assert(safe_error_form(es[i]));
    }
    lemma_split_error_text(es);
    let pieces = Seq::new(es.len(), |i: int| slash_piece(es, i));
    let t = trim_all(pieces);
    assert forall|i: int| 0 <= i < es.len() implies #[trigger] t[i] == es[i] by {
        assert(safe_error_form(es[i]));
        let a: Seq<char> = if i > 0 {
            seq![' ']
        } else {
            Seq::empty()
        };
        let b: Seq<char> = if i < es.len() - 1 {
            seq![' ']
        } else {
            Seq::empty()
        };
        assert(all_ws(a));
        assert(all_ws(b));
        assert(pieces[i] == a + es[i] + b);
        lemma_trim_padded(a, es[i], b);
    }
    assert(t =~= es);
    assert forall|i: int| 0 <= i < t.len() implies (#[trigger] t[i]).len() > 0 by {
        assert(safe_error_form(es[i]));
    }
    lemma_nonempty_only_all(t);
}

/// A line whose first cell marks it as the table header, or is blank, is
/// no data row.
proof fn lemma_first_cell_not_row(l: Seq<char>, p: Seq<char>, rest: Seq<char>)
    requires
        l == seq!['|'] + p + seq!['|'] + rest + seq!['|'],
        p.len() > 0,
        p[0] != '|',
        rest.len() > 0,
        rest.last() != '|',
        free_of(p, seq!['|']),
        contains(trim(p), "ASR"@) || contains(trim(p), "---"@) || trim(p).len() == 0,
    ensures
        table_row(l) is None,
{
    lemma_row_cells_split(l, p, rest);
    assert(l[0] == '|');
    assert(l.last() == '|');
    assert(!is_ws('|'));
    lemma_trim_of_clean(l);
    assert(row_cells(l)[0] == trim(p));
}

proof fn lemma_literal_bar_free(p: Seq<char>)
    requires
        forall|k: int| 0 <= k < p.len() ==> p[k] != '|',
    ensures
        free_of(p, seq!['|']),
{
    assert forall|k: int| 0 <= k < p.len() implies !seq!['|'].contains(#[trigger] p[k]) by {
        if seq!['|'].contains(p[k]) {
            let i = choose|i: int| 0 <= i < 1 && seq!['|'][i] == p[k];
            assert(i == 0);
        }
    }
}

proof fn lemma_literal_one_line(p: Seq<char>)
    requires
        forall|k: int| 0 <= k < p.len() ==> p[k] != '\n',
    ensures
        free_of(p, seq!['\n']),
{
    assert forall|k: int| 0 <= k < p.len() implies !seq!['\n'].contains(#[trigger] p[k]) by {
        lemma_nl(p[k]);
    }
}

/// The header lines of the export are single lines and hold no data row.
proof fn lemma_header_lines()
    ensures
        forall|i: int| 0 <= i < export_header_lines().len() ==> free_of(
            #[trigger] export_header_lines()[i],
            seq!['\n'],
        ),
        table_rows(export_header_lines()) == Seq::<TableRow>::empty(),
{
    let hl = export_header_lines();
    reveal_strlit("---");
    reveal_strlit("tags: [asr, markers, handy]");
    reveal_strlit("");
    reveal_strlit("# ASR 标识物清单");
    reveal_strlit("> Exported from Handy. Paste the table into Handy **Import markdown table**,");
    reveal_strlit("> or convert offline with `代码研究/scripts/md_markers_to_json.mjs`.");
    reveal_strlit("| ASR误识 | 正确形式 | 类别 | 匹配 | 状态 |");
    reveal_strlit("| --- | --- | --- | --- | --- |");
    reveal_strlit(" ASR误识 ");
    reveal_strlit(" 正确形式 | 类别 | 匹配 | 状态 ");
    reveal_strlit(" --- ");
    reveal_strlit(" --- | --- | --- | --- ");
    reveal_strlit("ASR误识");
    reveal_strlit("ASR");
    assert forall|i: int| 0 <= i < hl.len() implies free_of(#[trigger] hl[i], seq!['\n']) by {
        lemma_literal_one_line(hl[i]);
    }
    lemma_blank_not_row();
    assert(all_ws(seq![' '])) by {
        assert(is_ws(' '));
    }
    // The column header row: its first cell names the ASR column.
    let p1 = " ASR误识 "@;
    lemma_literal_bar_free(p1);
    assert(hl[9] =~= seq!['|'] + p1 + seq!['|'] + " 正确形式 | 类别 | 匹配 | 状态 "@ + seq!['|']);
    assert(p1 =~= seq![' '] + "ASR误识"@ + seq![' ']);
    lemma_trim_padded(seq![' '], "ASR误识"@, seq![' ']);
    assert(matches_at("ASR误识"@, "ASR"@, 0)) by {
        assert("ASR误识"@.subrange(0, 3) =~= "ASR"@);
    }
    lemma_first_cell_not_row(hl[9], p1, " 正确形式 | 类别 | 匹配 | 状态 "@);
    // The separator row.
    let p2 = " --- "@;
    lemma_literal_bar_free(p2);
    assert(hl[10] =~= seq!['|'] + p2 + seq!['|'] + " --- | --- | --- | --- "@ + seq!['|']);
    assert(p2 =~= seq![' '] + "---"@ + seq![' ']);
    lemma_trim_padded(seq![' '], "---"@, seq![' ']);
    assert(matches_at("---"@, "---"@, 0)) by {
        assert("---"@.subrange(0, 3) =~= "---"@);
    }
    lemma_first_cell_not_row(hl[10], p2, " --- | --- | --- | --- "@);
    assert forall|i: int| 0 <= i < hl.len() implies table_row(#[trigger] hl[i]) is None by {
        if i == 3 || i == 5 || i == 8 {
            assert(hl[i] =~= Seq::<char>::empty());
        } else if i < 9 {
            lemma_line_not_row(hl[i]);
        }
    }
    lemma_table_rows_none(hl);
}

/// A changelog entry printed on a single line: no line break in its date,
/// summary or source.
pub open spec fn single_line_entry(e: MarkerChangelogEntry) -> bool {
    &&& free_of(e.date@, seq!['\n'])
    &&& free_of(e.summary@, seq!['\n'])
    &&& (e.source matches Some(s) ==> free_of(s@, seq!['\n']))
}

/// A changelog bullet of a single-line entry is one line and no data row.
proof fn lemma_changelog_text_line(e: MarkerChangelogEntry)
    requires
        single_line_entry(e),
    ensures
        free_of(changelog_text(e), seq!['\n']),
        table_row(changelog_text(e)) is None,
{
    reveal_strlit("- ");
    reveal_strlit(" — ");
    reveal_strlit(" (");
    reveal_strlit(")");
    reveal_strlit("-");
    let nl = seq!['\n'];
    lemma_literal_one_line("- "@);
    lemma_literal_one_line(" — "@);
    lemma_literal_one_line(" ("@);
    lemma_literal_one_line(")"@);
    lemma_literal_one_line("-"@);
    let src = match e.source {
        Some(s) => s@,
        None => "-"@,
    };
    assert(free_of(src, nl));
    lemma_free_of_append("- "@, e.date@, nl);
    lemma_free_of_append("- "@ + e.date@, " — "@, nl);
    lemma_free_of_append("- "@ + e.date@ + " — "@, e.summary@, nl);
    lemma_free_of_append("- "@ + e.date@ + " — "@ + e.summary@, " ("@, nl);
    lemma_free_of_append("- "@ + e.date@ + " — "@ + e.summary@ + " ("@, src, nl);
    lemma_free_of_append("- "@ + e.date@ + " — "@ + e.summary@ + " ("@ + src, ")"@, nl);
    let l = changelog_text(e);
    assert(l[0] == '-');
    lemma_line_not_row(l);
}

/// The empty-table placeholder row and the changelog title are no data
/// rows, and are single lines.
proof fn lemma_filler_lines()
    ensures
        table_row("|  |  |  |  |  |"@) is None,
        free_of("|  |  |  |  |  |"@, seq!['\n']),
        table_row("## Changelog"@) is None,
        free_of("## Changelog"@, seq!['\n']),
{
    reveal_strlit("|  |  |  |  |  |");
    reveal_strlit("  ");
    reveal_strlit("  |  |  |  ");
    reveal_strlit("## Changelog");
    lemma_literal_one_line("|  |  |  |  |  |"@);
    lemma_literal_one_line("## Changelog"@);
    lemma_literal_bar_free("  "@);
    lemma_trim_facts("  "@);
    assert("|  |  |  |  |  |"@ =~= seq!['|'] + "  "@ + seq!['|'] + "  |  |  |  "@ + seq!['|']);
    lemma_first_cell_not_row("|  |  |  |  |  |"@, "  "@, "  |  |  |  "@);
    lemma_line_not_row("## Changelog"@);
}

/// Table lines of the export's changelog section.
pub open spec fn changelog_lines(log: Seq<MarkerChangelogEntry>) -> Seq<Seq<char>> {
    if log.len() == 0 {
        Seq::empty()
    } else {
        seq!["## Changelog"@, Seq::<char>::empty()] + recent_changes(log).map_values(
            |e: MarkerChangelogEntry| changelog_text(e),
        ) + seq![Seq::<char>::empty()]
    }
}

/// The lines of a line break followed by the Markdown export.
pub open spec fn export_lines(store: AsrMarkerStore) -> Seq<Seq<char>> {
    seq![Seq::<char>::empty()] + export_header_lines() + store.markers@.map_values(
        |m: AsrMarker| export_line(m),
    ) + (if store.markers@.len() == 0 {
        seq!["|  |  |  |  |  |"@]
    } else {
        Seq::empty()
    }) + seq![Seq::<char>::empty()] + changelog_lines(store.changelog@)
}

proof fn lemma_lines_text_two(a: Seq<char>, b: Seq<char>)
    ensures
        lines_text(seq![a, b]) == a + "\n"@ + b + "\n"@,
{
    assert(seq![a, b] =~= seq![a] + seq![b]);
    lemma_lines_text_append(seq![a], seq![b]);
    lemma_lines_text_one(a);
    lemma_lines_text_one(b);
    assert(a + "\n"@ + (b + "\n"@) =~= a + "\n"@ + b + "\n"@);
}

proof fn lemma_lines_text_empty()
    ensures
        lines_text(Seq::<Seq<char>>::empty()) == Seq::<char>::empty(),
{
    assert(Seq::<Seq<char>>::empty().map_values(|l: Seq<char>| l + "\n"@) =~= Seq::<Seq<char>>::empty());
}

/// A line break followed by the export is the text of `export_lines`.
proof fn lemma_export_lines_text(store: AsrMarkerStore)
    ensures
        "\n"@ + markdown_export(store) == lines_text(export_lines(store)),
{
    reveal_strlit("\n");
    reveal_strlit("|  |  |  |  |  |\n");
    reveal_strlit("|  |  |  |  |  |");
    reveal_strlit("## Changelog\n\n");
    reveal_strlit("## Changelog");
    let e = Seq::<char>::empty();
    let ms = store.markers@;
    let lines_m = ms.map_values(|m: AsrMarker| export_line(m));
    let z: Seq<Seq<char>> = if ms.len() == 0 {
        seq!["|  |  |  |  |  |"@]
    } else {
        Seq::empty()
    };
    let cl = changelog_lines(store.changelog@);
    lemma_lines_text_one(e);
    assert(e + "\n"@ =~= "\n"@);
    // Marker rows.
    assert(lines_m.map_values(|l: Seq<char>| l + "\n"@) =~= ms.map_values(|m: AsrMarker| export_row(m)));
    // Placeholder row.
    let zt: Seq<char> = if ms.len() == 0 {
        "|  |  |  |  |  |\n"@
    } else {
        Seq::empty()
    };
    if ms.len() == 0 {
        lemma_lines_text_one("|  |  |  |  |  |"@);
        assert("|  |  |  |  |  |"@ + "\n"@ =~= "|  |  |  |  |  |\n"@);
    } else {
        lemma_lines_text_empty();
    }
    assert(lines_text(z) == zt);
    // Changelog section.
    let log = store.changelog@;
    let ct: Seq<char> = if log.len() == 0 {
        Seq::empty()
    } else {
        "## Changelog\n\n"@ + concat(
            recent_changes(log).map_values(|x: MarkerChangelogEntry| changelog_line(x)),
        ) + "\n"@
    };
    if log.len() == 0 {
        lemma_lines_text_empty();
    } else {
        let r = recent_changes(log).map_values(|x: MarkerChangelogEntry| changelog_text(x));
        assert(r.map_values(|l: Seq<char>| l + "\n"@) =~= recent_changes(log).map_values(
            |x: MarkerChangelogEntry| changelog_line(x),
        ));
        lemma_lines_text_two("## Changelog"@, e);
        lemma_lines_text_append(seq!["## Changelog"@, e], r);
        lemma_lines_text_append(seq!["## Changelog"@, e] + r, seq![e]);
        assert("## Changelog"@ + "\n"@ + e + "\n"@ =~= "## Changelog\n\n"@);
    }
    assert(lines_text(cl) == ct);
    let h = export_header_lines();
    lemma_lines_text_append(seq![e], h);
    lemma_lines_text_append(seq![e] + h, lines_m);
    lemma_lines_text_append(seq![e] + h + lines_m, z);
    lemma_lines_text_append(seq![e] + h + lines_m + z, seq![e]);
    lemma_lines_text_append(seq![e] + h + lines_m + z + seq![e], cl);
    assert(markdown_export(store) == export_header() + concat(ms.map_values(|m: AsrMarker| export_row(m)))
        + zt + "\n"@ + ct);
    assert("\n"@ + markdown_export(store) =~= lines_text(export_lines(store)));
}

/// Table lines of the markers in the export.
pub open spec fn marker_lines(ms: Seq<AsrMarker>) -> Seq<Seq<char>> {
    ms.map_values(|m: AsrMarker| export_line(m))
}

/// Export lines of table-safe markers read back as their rows.
proof fn lemma_marker_lines_rows(ms: Seq<AsrMarker>)
    requires
        forall|i: int| 0 <= i < ms.len() ==> table_safe(#[trigger] ms[i]),
    ensures
        table_rows(marker_lines(ms)) == ms.map_values(|m: AsrMarker| marker_row(m)),
        forall|i: int| 0 <= i < ms.len() ==> free_of(#[trigger] marker_lines(ms)[i], seq!['\n']),
    decreases ms.len(),
{
    let ls = marker_lines(ms);
    assert forall|i: int| 0 <= i < ms.len() implies free_of(#[trigger] ls[i], seq!['\n']) by {
        lemma_export_line_one_line(ms[i]);
    }
    if ms.len() > 0 {
        let pre = ms.drop_last();
        assert forall|i: int| 0 <= i < pre.len() implies table_safe(#[trigger] pre[i]) by {
            assert(pre[i] == ms[i]);
        }
        lemma_marker_lines_rows(pre);
        assert(ls.drop_last() =~= marker_lines(pre));
        assert(table_safe(ms[ms.len() - 1]));
        lemma_export_line_reads_back(ms.last());
        assert(ls.last() == export_line(ms.last()));
        assert(pre.map_values(|m: AsrMarker| marker_row(m)).push(marker_row(ms.last()))
            =~= ms.map_values(|m: AsrMarker| marker_row(m)));
    }
}

/// The rows and line structure of `export_lines`.
proof fn lemma_export_lines_rows(store: AsrMarkerStore)
    requires
        forall|i: int| 0 <= i < store.markers@.len() ==> table_safe(#[trigger] store.markers@[i]),
        forall|i: int| 0 <= i < store.changelog@.len() ==> single_line_entry(
            #[trigger] store.changelog@[i],
        ),
    ensures
        forall|i: int| 0 <= i < export_lines(store).len() ==> free_of(
            #[trigger] export_lines(store)[i],
            seq!['\n'],
        ),
        table_rows(export_lines(store)) == store.markers@.map_values(|m: AsrMarker| marker_row(m)),
{
    let e = Seq::<char>::empty();
    let ms = store.markers@;
    let h = export_header_lines();
    let lm = ms.map_values(|m: AsrMarker| export_line(m));
    let z: Seq<Seq<char>> = if ms.len() == 0 {
        seq!["|  |  |  |  |  |"@]
    } else {
        Seq::empty()
    };
    let log = store.changelog@;
    let cl = changelog_lines(log);
    lemma_blank_not_row();
    lemma_header_lines();
    lemma_marker_lines_rows(ms);
    lemma_filler_lines();
    assert(free_of(e, seq!['\n']));
    // Changelog section: single lines, no rows.
    assert forall|i: int| 0 <= i < cl.len() implies free_of(#[trigger] cl[i], seq!['\n'])
        && table_row(cl[i]) is None by {
        let r = recent_changes(log);
        if 2 <= i < cl.len() - 1 {
            let j = i - 2;
            let n = log.len() as int;
            assert(cl[i] == changelog_text(r[j]));
            assert(r[j] == log[n - 1 - j]);
            assert(single_line_entry(log[n - 1 - j]));
            lemma_changelog_text_line(r[j]);
        }
    }
    lemma_table_rows_none(cl);
    lemma_table_rows_none(z);
    lemma_table_rows_none(seq![e]);
    lemma_table_rows_append(seq![e], h);
    lemma_table_rows_append(seq![e] + h, lm);
    lemma_table_rows_append(seq![e] + h + lm, z);
    lemma_table_rows_append(seq![e] + h + lm + z, seq![e]);
    lemma_table_rows_append(seq![e] + h + lm + z + seq![e], cl);
    let all = export_lines(store);
    assert(all == seq![e] + h + lm + z + seq![e] + cl);
    assert(table_rows(all) =~= ms.map_values(|m: AsrMarker| marker_row(m)));
    assert forall|i: int| 0 <= i < all.len() implies free_of(#[trigger] all[i], seq!['\n']) by {
        let a = 1 + h.len();
        let b = a + lm.len();
        let c = b + z.len();
        if i == 0 || i == c {
            assert(all[i] == e);
        } else if i < a {
            assert(all[i] == h[i - 1]);
        } else if i < b {
            assert(all[i] == lm[i - a]);
        } else if i < c {
            assert(all[i] == z[i - b]);
        } else {
            assert(all[i] == cl[i - c - 1]);
        }
    }
}

/// The table part of an imported document is the pasted Markdown after a
/// line break, with trailing whitespace removed.
pub(crate) proof fn lemma_import_table(md: Seq<char>) -> (w: Seq<char>)
    ensures
        all_ws(w),
        correction_parts(import_document(md)) matches Some((body, table)) && table + w == "\n"@ + md
            && trim(body) == "body"@,
{
    reveal_strlit("body\n\n【新增标识物】\n");
    reveal_strlit("body");
    reveal_strlit("【新增标识物】");
    reveal_strlit("\n");
    let d = import_document(md);
    let h = new_markers_header();
    assert(d[0] == 'b');
    assert(lead_end(d, 0) == 0);
    assert(trim_start(d) =~= d);
    let te = tail_end(d, d.len() as int);
    lemma_tail_end_bounds(d, d.len() as int);
    assert(!is_ws(d[12]));
    if te < 13 {
        assert(is_ws(d[12]));
    }
    let t = trim(d);
    assert(t == d.subrange(0, te));
    assert(t.subrange(6, 13) =~= h);
    assert(matches_at(t, h, 6));
    lemma_find_from_facts(t, h, 0);
    let k = find_from(t, h, 0)->0;
    if k < 6 {
        assert(t.subrange(k, k + 7)[0] == t[k]);
        assert(h[0] == '【');
    }
    assert(find(t, h) == Some(6int));
    let w = d.subrange(te, d.len() as int);
    assert(all_ws(w)) by {
        assert forall|j: int| 0 <= j < w.len() implies is_ws(#[trigger] w[j]) by {
            assert(w[j] == d[te + j]);
        }
    }
    assert(t.skip(13) + w =~= "\n"@ + md);
    assert(t.take(6) =~= Seq::<char>::empty() + "body"@ + seq!['\n', '\n']);
    assert(all_ws(Seq::<char>::empty()));
    assert(all_ws(seq!['\n', '\n'])) by {
        assert(is_ws('\n'));
    }
    lemma_trim_padded(Seq::<char>::empty(), "body"@, seq!['\n', '\n']);
    w
}

/// Exporting the store to Markdown and importing the document reads back,
/// in order, each marker's error forms, correct form and category, provided
/// every marker is table-safe (its cells hold no `|`, line break or stray
/// surrounding whitespace, its error forms no separator, and its first cells
/// do not look like the table header) and every changelog entry is a single
/// line.
pub proof fn lemma_export_import_rows(store: AsrMarkerStore)
    requires
        forall|i: int| 0 <= i < store.markers@.len() ==> table_safe(#[trigger] store.markers@[i]),
        forall|i: int| 0 <= i < store.changelog@.len() ==> single_line_entry(
            #[trigger] store.changelog@[i],
        ),
    ensures
        correction_parts(import_document(markdown_export(store))) matches Some((body, table))
            && marker_table(table) == store.markers@.map_values(|m: AsrMarker| marker_row(m)),
{
    let md = markdown_export(store);
    let w = lemma_import_table(md);
    let (body, table) = correction_parts(import_document(md))->0;
    lemma_marker_table_ws_suffix(table, w);
    lemma_export_lines_text(store);
    lemma_export_lines_rows(store);
    let all = export_lines(store);
    lemma_split_lines_text(all);
    lemma_blank_not_row();
    lemma_table_rows_none(seq![Seq::<char>::empty()]);
    lemma_table_rows_append(all, seq![Seq::<char>::empty()]);
    assert(all.push(Seq::<char>::empty()) =~= all + seq![Seq::<char>::empty()]);
    assert(table_rows(all) + Seq::<TableRow>::empty() =~= table_rows(all));
}

/// Parsing the export of a store wrapped as LLM output (a `body` line, the
/// new-markers header, then the export) gives back the body `body` and, in
/// order, one pending exact-match marker per stored marker with its error
/// forms, correct form and category, provided every marker is table-safe and
/// every changelog entry is a single line. `body` and `markers` are what
/// `parse_correction_output` returns for that text, as it states them.
pub proof fn lemma_export_parse_round_trip(
    store: AsrMarkerStore,
    body: Seq<char>,
    markers: Seq<AsrMarker>,
    source: Option<Seq<char>>,
)
    requires
        forall|i: int| 0 <= i < store.markers@.len() ==> table_safe(#[trigger] store.markers@[i]),
        forall|i: int| 0 <= i < store.changelog@.len() ==> single_line_entry(
            #[trigger] store.changelog@[i],
        ),
        correction_parts(import_document(markdown_export(store))) matches Some((b, t)) && body
            == trim(b) && markers.len() == marker_table(t).len() && forall|i: int|
            0 <= i < markers.len() ==> #[trigger] is_row_marker(markers[i], marker_table(t)[i], source),
    ensures
        body == "body"@,
        markers.len() == store.markers@.len(),
        forall|i: int|
            0 <= i < markers.len() ==> marker_row(#[trigger] markers[i]) == marker_row(store.markers@[i])
                && markers[i].confidence == MarkerConfidence::Pending && markers[i].match_mode
                == MarkerMatchMode::Exact,
{
    lemma_export_import_rows(store);
    let _w = lemma_import_table(markdown_export(store));
    let (b, t) = correction_parts(import_document(markdown_export(store)))->0;
    assert(marker_table(t) == store.markers@.map_values(|m: AsrMarker| marker_row(m)));
    assert forall|i: int| 0 <= i < markers.len() implies marker_row(#[trigger] markers[i]) == marker_row(
        store.markers@[i],
    ) && markers[i].confidence == MarkerConfidence::Pending && markers[i].match_mode
        == MarkerMatchMode::Exact by {
        assert(is_row_marker(markers[i], marker_table(t)[i], source));
    }
}

/// Merging candidates into an empty store keeps every one of them, in
/// order and with the forced confidence, when each is mergeable and none
/// records the entry of an earlier one.
pub proof fn lemma_merge_distinct_keeps_all(cs: Seq<AsrMarker>, f: Option<MarkerConfidence>)
    requires
        forall|i: int| 0 <= i < cs.len() ==> is_mergeable(#[trigger] cs[i]),
        forall|i: int, j: int| 0 <= i < j < cs.len() ==> !same_entry(#[trigger] cs[i], #[trigger] cs[j]),
    ensures
        merged(Seq::empty(), cs, f) == cs.map_values(|c: AsrMarker| with_confidence(c, f)),
    decreases cs.len(),
{
    if cs.len() > 0 {
        let pre = cs.drop_last();
        assert forall|i: int| 0 <= i < pre.len() implies is_mergeable(#[trigger] pre[i]) by {
            assert(pre[i] == cs[i]);
        }
        assert forall|i: int, j: int| 0 <= i < j < pre.len() implies !same_entry(
            #[trigger] pre[i],
            #[trigger] pre[j],
        ) by {
            assert(pre[i] == cs[i]);
            assert(pre[j] == cs[j]);
        }
        lemma_merge_distinct_keeps_all(pre, f);
        let n = cs.len() - 1;
        let c = with_confidence(cs.last(), f);
        let done = pre.map_values(|x: AsrMarker| with_confidence(x, f));
        assert(is_mergeable(cs[n]));
        assert(is_mergeable(c));
        if marker_in(done, c) {
            let i = choose|i: int| 0 <= i < done.len() && #[trigger] same_entry(done[i], c);
            assert(done[i] == with_confidence(cs[i], f));
            assert(same_entry(cs[i], cs[n]));
        }
        assert(done.push(c) =~= cs.map_values(|x: AsrMarker| with_confidence(x, f)));
    }
}

/// Importing the Markdown export of a store into an empty store restores its
/// markers in order, as pending, with their error forms, correct forms and
/// categories unchanged: `cands` are the markers the import reads from the
/// document, and the store's markers are table-safe, its changelog entries
/// single lines, and no marker records the entry of an earlier one.
pub proof fn lemma_export_import_restores(store: AsrMarkerStore, cands: Seq<AsrMarker>, source: Option<Seq<char>>)
    requires
        forall|i: int| 0 <= i < store.markers@.len() ==> table_safe(#[trigger] store.markers@[i]),
        forall|i: int| 0 <= i < store.changelog@.len() ==> single_line_entry(
            #[trigger] store.changelog@[i],
        ),
        forall|i: int, j: int|
            0 <= i < j < store.markers@.len() ==> !same_entry(
                #[trigger] store.markers@[i],
                #[trigger] store.markers@[j],
            ),
        correction_parts(import_document(markdown_export(store))) matches Some((body, table))
            && cands.len() == marker_table(table).len() && forall|i: int|
            0 <= i < cands.len() ==> #[trigger] is_row_marker(cands[i], marker_table(table)[i], source),
    ensures
        merged(Seq::empty(), cands, Some(MarkerConfidence::Pending)).len() == store.markers@.len(),
        forall|i: int|
            0 <= i < store.markers@.len() ==> marker_row(
                #[trigger] merged(Seq::empty(), cands, Some(MarkerConfidence::Pending))[i],
            ) == marker_row(store.markers@[i]) && merged(
                Seq::empty(),
                cands,
                Some(MarkerConfidence::Pending),
            )[i].confidence == MarkerConfidence::Pending,
{
    lemma_export_import_rows(store);
    let (body, table) = correction_parts(import_document(markdown_export(store)))->0;
    let ms = store.markers@;
    let rows = marker_table(table);
    assert(rows == ms.map_values(|m: AsrMarker| marker_row(m)));
    assert forall|i: int| 0 <= i < cands.len() implies marker_row(#[trigger] cands[i]) == marker_row(ms[i])
        && cands[i].confidence == MarkerConfidence::Pending by {
        assert(is_row_marker(cands[i], rows[i], source));
    }
    assert forall|i: int| 0 <= i < cands.len() implies is_mergeable(#[trigger] cands[i]) by {
        assert(marker_row(cands[i]) == marker_row(ms[i]));
        assert(table_safe(ms[i]));
        lemma_trim_of_clean(cands[i].correct@);
        assert(views(cands[i].asr_errors@).len() == views(ms[i].asr_errors@).len());
    }
    assert forall|i: int, j: int| 0 <= i < j < cands.len() implies !same_entry(
        #[trigger] cands[i],
        #[trigger] cands[j],
    ) by {
        assert(marker_row(cands[i]) == marker_row(ms[i]));
        assert(marker_row(cands[j]) == marker_row(ms[j]));
        if same_entry(cands[i], cands[j]) {
            let k = choose|k: int| 0 <= k < cands[j].asr_errors@.len() && views(
                cands[i].asr_errors@,
            ).contains(#[trigger] cands[j].asr_errors@[k]@);
            assert(views(cands[j].asr_errors@)[k] == cands[j].asr_errors@[k]@);
            assert(views(ms[j].asr_errors@)[k] == ms[j].asr_errors@[k]@);
            assert(same_entry(ms[i], ms[j]));
        }
    }
    lemma_merge_distinct_keeps_all(cands, Some(MarkerConfidence::Pending));
    let f = Some(MarkerConfidence::Pending);
    assert forall|i: int| 0 <= i < cands.len() implies #[trigger] with_confidence(cands[i], f) == cands[i] by {
        assert(cands[i].confidence == MarkerConfidence::Pending);
    }
    assert(cands.map_values(|c: AsrMarker| with_confidence(c, f)) =~= cands);
}

/// `trim(x)` is a contiguous part of `x`.
proof fn lemma_trim_range(x: Seq<char>) -> (ab: (int, int))
    ensures
        0 <= ab.0 <= ab.1 <= x.len(),
        trim(x) == x.subrange(ab.0, ab.1),
{
    let a = lead_end(x, 0);
    lemma_lead_end_bounds(x, 0);
    let t = trim_start(x);
    let b = tail_end(t, t.len() as int);
    lemma_tail_end_bounds(t, t.len() as int);
    assert(trim(x) =~= x.subrange(a, a + b));
    (a, a + b)
}

/// No occurrence of `p` in `s` before `limit` leaves none in the trimmed
/// prefix `trim(s.take(limit))`.
proof fn lemma_no_match_in_trimmed_prefix(s: Seq<char>, p: Seq<char>, limit: int)
    requires
        0 <= limit <= s.len(),
        p.len() > 0,
        forall|j: int| 0 <= j < limit ==> !matches_at(s, p, j),
    ensures
        !contains(trim(s.take(limit)), p),
{
    let body = s.take(limit);
    let (a, b) = lemma_trim_range(body);
    let tb = trim(body);
    if contains(tb, p) {
        lemma_find_from_facts(tb, p, 0);
        let j = find(tb, p)->0;
        assert(matches_at(tb, p, j));
        assert(tb.subrange(j, j + p.len()) =~= s.subrange(a + j, a + j + p.len()));
        assert(a + j < limit);
        assert(matches_at(s, p, a + j));
    }
}

/// The body split off LLM output never holds the new-markers header: it
/// ends before the header's first occurrence, or there is none.
pub proof fn lemma_body_without_header(raw: Seq<char>)
    ensures
        correction_parts(raw) matches Some((body, table)) ==> !contains(trim(body), new_markers_header()),
        correction_parts(raw) is None ==> !contains(trim(raw), new_markers_header()),
{
    let t = trim(raw);
    let h = new_markers_header();
    reveal_strlit("【新增标识物】");
    lemma_find_from_facts(t, h, 0);
    lemma_find_from_facts(str_lowercase(t), "new markers"@, 0);
    match find(t, h) {
        Some(idx) => {
            lemma_no_match_in_trimmed_prefix(t, h, idx);
        },
        None => {
            match find(str_lowercase(t), "new markers"@) {
                Some(idx) => {
                    if idx <= t.len() {
                        lemma_no_match_in_trimmed_prefix(t, h, idx);
                    }
                },
                None => {},
            }
        },
    }
}

} // verus!

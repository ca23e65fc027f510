//! Naming and content rules for post-process prompts persisted as Markdown
//! files under the app's `prompts/` directory.

use vstd::prelude::*;
use crate::text::{
    chars_eq, chars_of, copy_range, is_blank, is_whitespace, is_ws, push_chars, replace_all,
    replace_chars, string_of, trim, trim_char, trim_char_vec, trim_end, trim_end_vec,
};

verus! {

/// A post-process prompt from the settings.
#[derive(Clone, Debug)]
pub struct LLMPrompt {
    pub id: String,
    pub name: String,
    pub prompt: String,
}

/// Character kept in a file name: ASCII letters, digits, `-` and `_` stay,
/// whitespace becomes `_`, anything else `-`.
pub open spec fn file_name_char(c: char) -> char {
    if ('0' <= c && c <= '9') || ('a' <= c && c <= 'z') || ('A' <= c && c <= 'Z') || c == '-' || c
        == '_' {
        c
    } else if is_ws(c) {
        '_'
    } else {
        '-'
    }
}

/// File-name stem taken from a prompt's name (its id when the name is blank
/// or nothing is left), with leading/trailing `-` then `_` removed.
pub open spec fn file_base(id: Seq<char>, name: Seq<char>) -> Seq<char> {
    let base0 = if trim(name).len() == 0 {
        id
    } else {
        name.map_values(|c: char| file_name_char(c))
    };
    let base1 = trim_char(trim_char(base0, '-'), '_');
    if base1.len() == 0 {
        id
    } else {
        base1
    }
}

/// File name of a prompt: `{base}__{id}.md`.
pub open spec fn prompt_file_name(id: Seq<char>, name: Seq<char>) -> Seq<char> {
    file_base(id, name) + "__"@ + id + ".md"@
}

/// `s` ends with `suffix`.
pub open spec fn ends_with(s: Seq<char>, suffix: Seq<char>) -> bool {
    s.len() >= suffix.len() && s.skip(s.len() - suffix.len()) == suffix
}

fn file_name_char_exec(c: char) -> (r: char)
    ensures
        r == file_name_char(c),
{
    if ('0' <= c && c <= '9') || ('a' <= c && c <= 'z') || ('A' <= c && c <= 'Z') || c == '-' || c
        == '_' {
        c
    } else if is_whitespace(c) {
        '_'
    } else {
        '-'
    }
}

/// File name for a prompt: a file-system-safe form of its name followed by
/// `__{id}.md`.
pub fn safe_filename(id: &str, name: &str) -> (r: String)
    ensures
        r@ == prompt_file_name(id@, name@),
{
    let idv = chars_of(id);
    let namev = chars_of(name);
    let base0: Vec<char> = if is_blank(&namev) {
        copy_range(&idv, 0, idv.len())
    } else {
        let mut v: Vec<char> = Vec::new();
        let mut i: usize = 0;
        while i < namev.len()
            invariant
                i <= namev@.len(),
                v@ == namev@.take(i as int).map_values(|c: char| file_name_char(c)),
            decreases namev@.len() - i,
        {
            v.push(file_name_char_exec(namev[i]));
            i = i + 1;
            assert(v@ =~= namev@.take(i as int).map_values(|c: char| file_name_char(c)));
        }
        assert(namev@.take(namev@.len() as int) =~= namev@);
        v
    };
    proof {
        assert(idv@.subrange(0, idv@.len() as int) =~= idv@);
    }
    let b = trim_char_vec(&base0, '-');
    let base1 = trim_char_vec(&b, '_');
    let mut out = if base1.len() == 0 { string_of(&idv) } else { string_of(&base1) };
    out.append("__");
    out.append(id);
    out.append(".md");
    out
}

/// Whether a file stem (name without extension) belongs to the prompt `id`.
pub fn is_prompt_file_stem(stem: &str, id: &str) -> (r: bool)
    ensures
        r == ends_with(stem@, "__"@ + id@),
{
    let mut suffix = String::from_str("__");
    suffix.append(id);
    let s = chars_of(stem);
    let suf = chars_of(suffix.as_str());
    if suf.len() > s.len() {
        return false;
    }
    let tail = copy_range(&s, s.len() - suf.len(), s.len());
    chars_eq(&tail, &suf)
}

/// Markdown body written for a prompt: front matter with its id and
/// (single-line) name, then the prompt text without trailing whitespace.
pub open spec fn prompt_file_body_text(p: LLMPrompt) -> Seq<char> {
    "---\nid: "@ + p.id@ + "\nname: "@ + replace_all(p.name@, seq!['\n'], seq![' ']) + "\n---\n\n"@
        + trim_end(p.prompt@) + "\n"@
}

/// Contents of the file written for a prompt.
pub fn prompt_file_body(prompt: &LLMPrompt) -> (r: String)
    ensures
        r@ == prompt_file_body_text(*prompt),
{
    let name = chars_of(prompt.name.as_str());
    let name1 = replace_chars(&name, &['\n'], &[' ']);
    proof {
        assert(['\n']@ =~= seq!['\n']);
        assert([' ']@ =~= seq![' ']);
    }
    let body = chars_of(prompt.prompt.as_str());
    let body1 = trim_end_vec(&body);
    let mut out = String::from_str("---\nid: ");
    out.append(prompt.id.as_str());
    out.append("\nname: ");
    push_chars(&mut out, &name1);
    out.append("\n---\n\n");
    push_chars(&mut out, &body1);
    out.append("\n");
    out
}

/// The file written for a prompt is found again by its id: the stem of its
/// file name ends with `__{id}`.
pub proof fn lemma_prompt_file_found_by_id(id: Seq<char>, name: Seq<char>)
    ensures
        ends_with(file_base(id, name) + "__"@ + id, "__"@ + id),
        prompt_file_name(id, name) == (file_base(id, name) + "__"@ + id) + ".md"@,
{
    let stem = file_base(id, name) + "__"@ + id;
    let suf = "__"@ + id;
    assert(stem.skip(stem.len() - suf.len()) =~= suf);
}

/// Characters kept as they are in a file name.
pub open spec fn is_file_name_safe(c: char) -> bool {
    ('0' <= c && c <= '9') || ('a' <= c && c <= 'z') || ('A' <= c && c <= 'Z') || c == '-' || c
        == '_'
}

/// `trim_char` keeps a contiguous part of its input.
proof fn lemma_trim_char_range(s: Seq<char>, c: char) -> (ab: (int, int))
    ensures
        0 <= ab.0 <= ab.1 <= s.len(),
        trim_char(s, c) == s.subrange(ab.0, ab.1),
{
    let a = crate::text::lead_end_of(s, c, 0);
    crate::text::lemma_lead_end_of_bounds(s, c, 0);
    let t = s.subrange(a, s.len() as int);
    let b = crate::text::tail_end_of(t, c, t.len() as int);
    crate::text::lemma_tail_end_of_bounds(t, c, t.len() as int);
    assert(trim_char(s, c) =~= s.subrange(a, a + b));
    (a, a + b)
}

/// The stem taken from a non-blank prompt name is file-system safe: unless
/// it falls back to the id, it holds only ASCII letters, digits, `-` and `_`.
pub proof fn lemma_file_base_safe(id: Seq<char>, name: Seq<char>)
    ensures
        trim(name).len() > 0 ==> file_base(id, name) == id || forall|k: int|
            0 <= k < file_base(id, name).len() ==> is_file_name_safe(#[trigger] file_base(id, name)[k]),
{
    let base0 = name.map_values(|c: char| file_name_char(c));
    if trim(name).len() > 0 {
        let (a1, b1) = lemma_trim_char_range(base0, '-');
        let s1 = trim_char(base0, '-');
        let (a2, b2) = lemma_trim_char_range(s1, '_');
        let s2 = trim_char(s1, '_');
        if s2.len() > 0 {
            assert forall|k: int| 0 <= k < s2.len() implies is_file_name_safe(#[trigger] s2[k]) by {
                assert(s2[k] == s1[a2 + k]);
                assert(s1[a2 + k] == base0[a1 + a2 + k]);
                assert(base0[a1 + a2 + k] == file_name_char(name[a1 + a2 + k]));
            }
            assert(file_base(id, name) == s2);
        }
    }
}

} // verus!

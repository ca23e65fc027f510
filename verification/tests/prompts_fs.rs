use tingmo::prompts_fs::{is_prompt_file_stem, prompt_file_body, safe_filename, LLMPrompt};

#[test]
fn safe_filename_sanitizes_name() {
    assert_eq!(safe_filename("p1", "My Prompt!"), "My_Prompt__p1.md");
    assert_eq!(safe_filename("p2", "a-b_c"), "a-b_c__p2.md");
    assert_eq!(safe_filename("p3", "中文 名"), "p3__p3.md");
    assert_eq!(safe_filename("p4", "Ab 中"), "Ab__p4.md");
}

#[test]
fn safe_filename_falls_back_to_id() {
    assert_eq!(safe_filename("id9", "   "), "id9__id9.md");
    assert_eq!(safe_filename("id9", "!!!"), "id9__id9.md");
    assert_eq!(safe_filename("id9", "--x--"), "x__id9.md");
}

#[test]
fn prompt_stem_matching() {
    let name = safe_filename("abc", "Fix Text");
    let stem = name.trim_end_matches(".md");
    assert!(is_prompt_file_stem(stem, "abc"));
    assert!(!is_prompt_file_stem(stem, "ab"));
    assert!(!is_prompt_file_stem("abc", "abc"));
}

#[test]
fn prompt_body_front_matter() {
    let p = LLMPrompt {
        id: "p1".into(),
        name: "Two\nLines".into(),
        prompt: "Do it.  \n\n".into(),
    };
    assert_eq!(prompt_file_body(&p), "---\nid: p1\nname: Two Lines\n---\n\nDo it.\n");
}

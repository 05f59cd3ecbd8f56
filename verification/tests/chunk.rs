use wcore::channels::chunk::chunk_message;

#[test]
fn short_text_is_single_chunk() {
    assert_eq!(chunk_message("hello", 100), vec!["hello"]);
}

#[test]
fn empty_text_is_single_empty_chunk() {
    assert_eq!(chunk_message("", 100), vec![""]);
}

#[test]
fn zero_max_disables_chunking() {
    let long = "x".repeat(10_000);
    assert_eq!(chunk_message(&long, 0), vec![long]);
}

#[test]
fn hard_split_for_unbroken_run() {
    let s = "abcdefghij";
    let out = chunk_message(s, 4);
    assert_eq!(out, vec!["abcd", "efgh", "ij"]);
    assert!(out.iter().all(|c| c.chars().count() <= 4));
    assert_eq!(out.concat(), s);
}

#[test]
fn prefers_newline_break() {
    let s = "line one\nline two\nline three";
    let out = chunk_message(s, 12);
    assert_eq!(out[0], "line one\n");
    assert_eq!(out.concat(), s);
    assert!(out.iter().all(|c| c.chars().count() <= 12));
}

#[test]
fn prefers_space_break_when_no_newline() {
    let s = "the quick brown fox";
    let out = chunk_message(s, 10);
    assert_eq!(out[0], "the quick ");
    assert_eq!(out.concat(), s);
    assert!(out.iter().all(|c| c.chars().count() <= 10));
}

#[test]
fn never_splits_a_codepoint() {
    let s = "αβγδεζηθ";
    let out = chunk_message(s, 3);
    assert_eq!(
        out.iter().map(|c| c.chars().count()).collect::<Vec<_>>(),
        vec![3, 3, 2]
    );
    assert_eq!(out.concat(), s);
}

#[test]
fn leading_break_char_does_not_loop() {
    let s = " aaaaaaaa";
    let out = chunk_message(s, 4);
    assert_eq!(out.concat(), s);
    assert!(out.iter().all(|c| !c.is_empty() && c.chars().count() <= 4));
}

#[test]
fn newline_at_window_start_hard_splits_without_space_fallback() {
    // A newline at the first window position is refused and the space
    // later in the window is not consulted: the chunk is a hard split.
    let out = chunk_message("\nab cdefg", 4);
    assert_eq!(out[0], "\nab ");
    assert_eq!(out.concat(), "\nab cdefg");
}

#[test]
fn chunks_break_after_spaces_and_join_back() {
    let text = "aaaa bbbb cccc";
    let chunks = chunk_message(text, 6);
    assert_eq!(chunks, vec!["aaaa ".to_string(), "bbbb ".to_string(), "cccc".to_string()]);
    assert_eq!(chunks.concat(), text);
    let hard = chunk_message("abcdefgh", 3);
    assert_eq!(hard, vec!["abc".to_string(), "def".to_string(), "gh".to_string()]);
}

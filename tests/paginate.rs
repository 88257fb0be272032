use frozenbbs::paginate::{paginate, shrink, splitted, MAX_LENGTH};

fn strings(v: &[&str]) -> Vec<String> {
    v.iter().map(|s| s.to_string()).collect()
}

#[test]
fn single_page() {
    let lines = vec!["line1".to_string(), "line2".to_string()];
    let pages = paginate(lines, 20);
    assert_eq!(pages, vec!["line1\nline2"]);
}

#[test]
fn multi_page() {
    let lines = vec!["line1".to_string(), "line2".to_string()];
    let pages = paginate(lines, 10);
    assert_eq!(pages, vec!["line1\n\nPage 1/2", "line2\n\nPage 2/2"]);
}

#[test]
fn multi_page_trimmed() {
    let lines = vec![
        "line1\n\n\n\n\n\n\n".to_string(),
        "line2\n\n\n\n\n\n\n\n\n\n\n".to_string(),
    ];
    let pages = paginate(lines, 10);
    assert_eq!(pages, vec!["line1\n\nPage 1/2", "line2\n\nPage 2/2"]);
}

#[test]
fn eat_internal_stacked_newlines() {
    let lines = vec!["line1\n\n\n\n\n\n\n\n\n\n\nline2".to_string()];
    let pages = paginate(lines, 15);
    assert_eq!(pages, vec!["line1\n\nline2"]);
}

#[test]
fn multi_page_trimmed_empty_cdr() {
    let lines = vec!["line1\n\n\n\n\n\n\n\n\n\n".to_string()];
    let pages = paginate(lines, 10);
    assert_eq!(pages, vec!["line1"]);
}

#[test]
fn shrunk() {
    let text = "\n\n\n\nfoo\n\n\n\nbar    baz\n\n\n\n".to_string();
    let trimmed = shrink(text);
    assert_eq!(trimmed, "foo\n\nbar baz\n\n".to_string());
}

#[test]
fn shard() {
    let text = "012345678901234567890123456".to_string();
    let shards = splitted(text, 10);
    assert_eq!(
        shards,
        vec![
            "0123456789".to_string(),
            "0123456789".to_string(),
            "0123456".to_string()
        ]
    )
}

#[test]
fn fitting_text_is_one_page_without_footer() {
    let lines = strings(&["a", "", "b  c", "d\n\n\n\ne"]);
    let pages = paginate(lines, MAX_LENGTH);
    assert_eq!(pages, vec!["a\n\nb  c\nd\n\n\n\ne"]);
}

#[test]
fn no_lines_make_one_empty_page() {
    assert_eq!(paginate(Vec::new(), 10), vec![""]);
}

#[test]
fn pages_keep_every_visible_character() {
    let lines = strings(&[
        "The quick brown fox",
        "jumps   over",
        "the lazy dog",
        "and keeps running far away",
    ]);
    let joined = lines.join("\n");
    let pages = paginate(lines, 30);
    assert!(pages.len() > 1);
    let n = pages.len();
    let mut body = String::new();
    for (i, page) in pages.iter().enumerate() {
        let footer = format!("\n\nPage {}/{}", i + 1, n);
        assert!(page.ends_with(&footer));
        let text = &page[..page.len() - footer.len()];
        assert!(text.len() <= 30);
        body.push_str(text);
    }
    let visible = |s: &str| s.chars().filter(|c| !c.is_whitespace()).collect::<String>();
    assert_eq!(visible(&body), visible(&joined));
}

#[test]
fn greedy_packing_fills_pages() {
    let lines = strings(&["aaaaaa", "bbbbbb", "cccccc", "dddddd"]);
    let pages = paginate(lines, 25);
    assert_eq!(
        pages,
        vec!["aaaaaa\nbbbbbb\n\nPage 1/2", "cccccc\ndddddd\n\nPage 2/2"]
    );
}

#[test]
fn long_line_is_cut_into_chunks() {
    let lines = strings(&["0123456789012345678901234"]);
    let pages = paginate(lines, 10);
    assert_eq!(
        pages,
        vec!["0123456789\n\nPage 1/3", "0123456789\n\nPage 2/3", "01234\n\nPage 3/3"]
    );
}

#[test]
fn cuts_never_split_a_character() {
    let text = "ééééé".to_string();
    let shards = splitted(text, 3);
    assert_eq!(shards, vec!["é", "é", "é", "é", "é"]);
}

#[test]
fn cuts_trim_whitespace_at_the_cut() {
    let shards = splitted("abcd    efgh".to_string(), 5);
    assert_eq!(shards, vec!["abcd", "efgh"]);
}

#[test]
fn shrink_collapses_spaces_and_newlines() {
    assert_eq!(shrink("  a  b\n\n\nc".to_string()), "a b\n\nc");
    assert_eq!(shrink(String::new()), "");
}

#[test]
fn whitespace_only_lines_make_no_pages() {
    let lines = strings(&["      ", "      "]);
    assert_eq!(paginate(lines, 10), Vec::<String>::new());
}

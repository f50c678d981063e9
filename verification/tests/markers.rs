use waseda_moodle_checker::canonical::Canonicalizer;

fn rewrite(text: &str) -> String {
    Canonicalizer::new().unwrap().rewrite_markers(text)
}

#[test]
fn a_marker_loses_its_suffix() {
    assert_eq!(
        rewrite("<form id=\"single_button5f3a9c1e\" method=\"post\">"),
        "<form id=\"single_button\" method=\"post\">"
    );
}

#[test]
fn a_marker_without_a_suffix_stays() {
    assert_eq!(rewrite("id=\"single_button\""), "id=\"single_button\"");
}

#[test]
fn every_marker_is_rewritten() {
    assert_eq!(
        rewrite("a=\"single_button1\" b=\"single_button22\" c=\"other\""),
        "a=\"single_button\" b=\"single_button\" c=\"other\""
    );
}

#[test]
fn a_marker_runs_to_the_next_double_quote_whatever_is_between() {
    assert_eq!(rewrite("single_button a\nb 'c' <d>\" rest"), "single_button\" rest");
    assert_eq!(rewrite("single_buttonsingle_button\"x"), "single_button\"x");
    assert_eq!(rewrite("xsingle_buttonあ\"single_button\"\""), "xsingle_button\"single_button\"\"");
}

#[test]
fn without_a_double_quote_behind_it_nothing_is_rewritten() {
    assert_eq!(rewrite("single_button123"), "single_button123");
    assert_eq!(rewrite("\"single_button123 and single_button4"), "\"single_button123 and single_button4");
    assert_eq!(rewrite("a\"single_button1\"single_button2"), "a\"single_button\"single_button2");
}

#[test]
fn a_text_without_the_word_stays() {
    assert_eq!(rewrite("<p class=\"single-button\">single_butto\"</p>"), "<p class=\"single-button\">single_butto\"</p>");
    assert_eq!(rewrite(""), "");
}

#[test]
fn rewriting_twice_is_rewriting_once() {
    let cases = [
        "id=\"single_button77\" x=\"single_button\"",
        "single_button",
        "single_buttonsingle_button\"single_button\"",
        "plain",
    ];
    for text in cases {
        let once = rewrite(text);
        assert_eq!(rewrite(&once), once);
    }
}

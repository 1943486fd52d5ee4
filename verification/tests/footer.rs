//! Row counts of word-wrapped footer lines.

use medulla_tui::footer::{
    grapheme_of, rendered_height, spans_height, symbol_line_height, symbol_lines_height,
    wrapped_line_height,
    Grapheme,
};


fn line(text: &str) -> Vec<Grapheme> {
    text.chars()
        .map(|c| Grapheme { width: 1, whitespace: c.is_whitespace() })
        .collect()
}

#[test]
fn a_line_that_fits_takes_one_row() {
    assert_eq!(wrapped_line_height(&line("hello world"), 11), 1);
    assert_eq!(wrapped_line_height(&line(""), 4), 1, "an empty line still takes a row");
}

#[test]
fn words_move_to_the_next_row_whole() {
    assert_eq!(wrapped_line_height(&line("hello world"), 5), 2);
    assert_eq!(wrapped_line_height(&line("a b c d"), 3), 2);
    assert_eq!(wrapped_line_height(&line("aa bb cc dd"), 2), 4);
}

#[test]
fn a_word_longer_than_the_line_is_not_broken_here() {
    assert_eq!(wrapped_line_height(&line("abcdefgh"), 3), 1);
    assert_eq!(wrapped_line_height(&line("ab"), 0), 1, "a zero width wraps at one column");
}

#[test]
fn a_grapheme_wider_than_the_line_is_skipped() {
    let mut wide = line("ab ");
    wide.push(Grapheme { width: 4, whitespace: false });
    wide.extend(line("cd"));
    assert_eq!(wrapped_line_height(&wide, 3), 2);
}

#[test]
fn the_footer_height_is_the_sum_of_its_lines() {
    // "a b c d" is four columns of words, so it keeps to one row of five.
    let lines = vec![line("hello world"), line(""), line("a b c d")];
    assert_eq!(rendered_height(&lines, 5), 2 + 1 + 1);
    assert_eq!(rendered_height(&[], 5), 0);
}

fn symbols(text: &str) -> Vec<String> {
    text.chars().map(|c| c.to_string()).collect()
}

#[test]
fn symbols_are_measured_by_their_display_width() {
    assert_eq!(grapheme_of("任"), Grapheme { width: 2, whitespace: false });
    assert_eq!(grapheme_of(" "), Grapheme { width: 1, whitespace: true });
    assert_eq!(grapheme_of("\u{3000}"), Grapheme { width: 2, whitespace: true });
    // Two wide characters, then two more: eight columns of words do not fit in five.
    assert_eq!(symbol_line_height(&symbols("任务 一二"), 5), Some(2));
    assert_eq!(symbol_line_height(&symbols("任务 一二"), 9), Some(1));
}

#[test]
fn footer_height_accounts_for_wrapped_detail_lines() {
    let lines = vec![line("A detailed footer sentence that exceeds the pane width")];
    assert_eq!(rendered_height(&lines, 10), 6);
}

#[test]
fn spaces_between_words_do_not_count_toward_a_row() {
    // "exceeds" and "the" share a row: 7 + 3 columns of words.
    assert_eq!(wrapped_line_height(&line("exceeds the pane"), 10), 2);
    let symbols = vec![
        "A detailed footer sentence that exceeds the pane width"
            .chars()
            .map(|c| c.to_string())
            .collect::<Vec<_>>(),
    ];
    assert_eq!(symbol_lines_height(&symbols, 10), Some(6));
    assert_eq!(symbol_lines_height(&[symbols[0].clone(), Vec::new()], 10), Some(7));
}

#[test]
fn lines_given_by_their_spans_are_cut_into_graphemes() {
    let sentence = vec![vec![
        "A detailed footer ".to_string(),
        "sentence that exceeds the pane width".to_string(),
    ]];
    assert_eq!(spans_height(&sentence, 10), Some(6));
    let wide = vec![vec!["任务".to_string(), " 一二".to_string()], vec![]];
    assert_eq!(spans_height(&wide, 5), Some(3));
    assert_eq!(spans_height(&vec![], 5), Some(0));
}

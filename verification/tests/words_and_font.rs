use shore::font::FontSizer;
use shore::words::concat_slice;
use shore::words::join_slice;
use shore::words::split_on_spaces;

fn strings(words: &[&str]) -> Vec<String> {
    let mut out: Vec<String> = Vec::new();
    for w in words {
        out.push((*w).to_string());
    }
    out
}

#[test]
fn split_on_single_spaces() {
    let toks = split_on_spaces("the quick brown fox");
    assert_eq!(toks, strings(&["the", "quick", "brown", "fox"]));
}

#[test]
fn split_keeps_empty_tokens_of_space_runs() {
    let toks = split_on_spaces("a b  c");
    assert_eq!(toks, strings(&["a", "b", "", "c"]));
}

#[test]
fn split_of_empty_string_is_one_empty_token() {
    let toks = split_on_spaces("");
    assert_eq!(toks, strings(&[""]));
}

#[test]
fn join_slice_restores_spaces() {
    let toks = strings(&["the", "quick", "brown", "fox"]);
    assert_eq!(join_slice(&toks, 1, 4), "quick brown fox");
    assert_eq!(join_slice(&toks, 0, 1), "the");
    let with_empty = strings(&["a", "", "b"]);
    assert_eq!(join_slice(&with_empty, 0, 3), "a  b");
}

#[test]
fn concat_slice_runs_tokens_together() {
    let toks = strings(&["the", "quick", "brown"]);
    assert_eq!(concat_slice(&toks, 0, 3), "thequickbrown");
    assert_eq!(concat_slice(&toks, 1, 1), "");
}

#[test]
fn width_sums_character_advances() {
    let sizer = FontSizer::new(vec![('h', 10), ('e', 8), ('y', 7), (' ', 3)], 16);
    assert_eq!(sizer.get_width("hey"), 25);
    assert_eq!(sizer.get_width("he"), 18);
    assert_eq!(sizer.get_width(""), 0);
    // A character without an advance entry measures zero.
    assert_eq!(sizer.get_width("hez"), 18);
    // Spaces count whenever the table knows them.
    assert_eq!(sizer.get_width("h e"), 21);
}

#[test]
fn width_uses_first_entry_for_a_character() {
    let sizer = FontSizer::new(vec![('a', 5), ('a', 9)], 16);
    assert_eq!(sizer.get_width("aa"), 10);
}

#[test]
fn height_is_the_line_height() {
    let sizer = FontSizer::new(vec![], 21);
    assert_eq!(sizer.get_height(), 21);
}

use blink_pairs::config::grammar_for;
use blink_pairs::matcher::{Kind, Match, State};
use blink_pairs::parse::parse;

fn parse_text(filetype: &str, text: &str) -> Vec<Vec<Match>> {
    let def = grammar_for(filetype).unwrap();
    let lines: Vec<&str> = text.split('\n').collect();
    parse(&def, &lines, State::Normal).0
}

#[test]
fn parse_test_parse() {
    assert_eq!(
        parse_text("c", "{\n}"),
        vec![
            vec![Match::delimiter('{', 0, Some(0))],
            vec![Match::delimiter('}', 0, Some(0))]
        ]
    );

    assert_eq!(
        parse_text("c", "// comment {}\n}"),
        vec![
            vec![Match::line_comment("//", 0)],
            vec![Match::delimiter('}', 0, Some(0))],
        ]
    );

    assert_eq!(
        parse_text("c", "/* comment {} */\n}"),
        vec![
            vec![
                Match::block_comment("/*", 0),
                Match::block_comment("*/", 14)
            ],
            vec![Match::delimiter('}', 0, Some(0))]
        ]
    );
}

#[test]
fn test_tex() {
    assert_eq!(
        parse_text("tex", "test 90\\% ( and b )\n%abc"),
        vec![
            vec![
                Match::delimiter('(', 10, Some(0)),
                Match::delimiter(')', 18, Some(0))
            ],
            vec![Match::line_comment("%", 0)]
        ]
    );
}

#[test]
fn unbalanced_opener_is_tolerated() {
    // A lone opening bracket parses without failure and is left dangling.
    assert_eq!(
        parse_text("c", "{"),
        vec![vec![Match::delimiter('{', 0, None)]]
    );
}

#[test]
fn block_comment_boundaries_are_non_pairing() {
    let rows = parse_text("c", "/* a { */\n}");
    assert_eq!(rows[0].len(), 2);
    assert_eq!(rows[0][0].kind, Kind::NonPair);
    assert_eq!(rows[0][0].col, 0);
    assert_eq!(rows[0][1].kind, Kind::NonPair);
    assert_eq!(rows[0][1].col, 7);
    assert_eq!(rows[0][0].stack_height, None);
    assert_eq!(rows[1], vec![Match::delimiter('}', 0, Some(0))]);
}

#[test]
fn escaped_quote_stays_inside_string() {
    // "a\"b" closes only at the final unescaped quote; the escaped quote
    // yields no boundary match.
    let rows = parse_text("c", "\"a\\\"b\"");
    assert_eq!(rows[0].len(), 2);
    assert_eq!(rows[0][0].kind, Kind::NonPair);
    assert_eq!(rows[0][0].col, 0);
    assert_eq!(rows[0][1].kind, Kind::NonPair);
    assert_eq!(rows[0][1].col, 5);
}

#[test]
fn double_backslash_does_not_escape() {
    // Two backslashes cancel: the quote after them still closes the string.
    let rows = parse_text("c", "\"a\\\\\"{");
    assert_eq!(rows[0].len(), 3);
    assert_eq!(rows[0][1].col, 4);
    assert_eq!(rows[0][2], Match::delimiter('{', 5, None));
}

#[test]
fn parse_twice_is_identical() {
    let def = grammar_for("c").unwrap();
    let lines = vec!["int main() {", "  // {{{", "  return \"}\";", "}"];
    let (m1, s1) = parse(&def, &lines, State::Normal);
    let (m2, s2) = parse(&def, &lines, State::Normal);
    assert_eq!(m1, m2);
    assert_eq!(s1, s2);
}

#[test]
fn balanced_heights_count_nesting_depth() {
    let rows = parse_text("c", "([{}])");
    let heights: Vec<Option<usize>> = rows[0].iter().map(|m| m.stack_height).collect();
    assert_eq!(
        heights,
        vec![Some(0), Some(1), Some(2), Some(2), Some(1), Some(0)]
    );
}

#[test]
fn lean_block_comment_markers() {
    let rows = parse_text("lean", "/- { -/ (");
    assert_eq!(rows[0].len(), 3);
    assert_eq!(rows[0][0].kind, Kind::NonPair);
    assert_eq!(rows[0][1].kind, Kind::NonPair);
    assert_eq!(rows[0][2], Match::delimiter('(', 8, None));
}

#[test]
fn elixir_block_string_swallows_quotes() {
    // The three-quote marker wins over the single quote and opens a block
    // string which runs to the next three-quote marker.
    let rows = parse_text("elixir", "\"\"\"\n{ not a match }\n\"\"\"");
    assert_eq!(rows[0].len(), 1);
    assert_eq!(rows[0][0].kind, Kind::NonPair);
    assert_eq!(rows[1].len(), 0);
    assert_eq!(rows[2].len(), 1);
}

#[test]
fn states_carry_across_lines() {
    let def = grammar_for("c").unwrap();
    let lines = vec!["/* open", "still inside", "*/ {"];
    let (_, states) = parse(&def, &lines, State::Normal);
    assert_eq!(
        states[0],
        State::InBlockComment("/*".as_bytes().to_vec())
    );
    assert_eq!(
        states[1],
        State::InBlockComment("/*".as_bytes().to_vec())
    );
    assert_eq!(states[2], State::Normal);
}

#[test]
fn mismatched_closer_gets_a_depth() {
    // A closer that does not match the open top of stack is still recorded,
    // with a computed depth, and does not disturb the unrelated opener.
    assert_eq!(
        parse_text("c", "(]"),
        vec![vec![
            Match::delimiter('(', 0, None),
            Match::delimiter(']', 1, Some(1)),
        ]]
    );
}

#[test]
fn cpp_raw_string_swallows_delimiters() {
    // The three-byte raw-string opener wins over the plain quote; brackets
    // inside the raw string yield no matches.
    let rows = parse_text("cpp", "R\"( { )\" (");
    assert_eq!(rows[0].len(), 3);
    assert_eq!(rows[0][0].kind, Kind::NonPair);
    assert_eq!(rows[0][0].col, 0);
    assert_eq!(rows[0][1].kind, Kind::NonPair);
    assert_eq!(rows[0][1].col, 6);
    assert_eq!(rows[0][2], Match::delimiter('(', 9, None));
}

#[test]
fn nix_symmetric_block_string() {
    // A block string whose open and close markers are the same literal.
    let rows = parse_text("nix", "'' { ''");
    assert_eq!(rows[0].len(), 2);
    assert_eq!(rows[0][0].kind, Kind::NonPair);
    assert_eq!(rows[0][0].col, 0);
    assert_eq!(rows[0][1].kind, Kind::NonPair);
    assert_eq!(rows[0][1].col, 5);
}

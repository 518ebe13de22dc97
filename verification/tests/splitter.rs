//! Tests of the delimiter-aware splitter: cuts at top-level separators only,
//! never inside a group, and never yields a trailing empty segment.

use inline_json::split::split;
use inline_json::split::split_first;
use inline_json::token::Delim;
use inline_json::token::Spacing;
use inline_json::token::Token;

fn leaf(text: &str) -> Token {
    Token::Leaf(text.to_string())
}

fn punct(c: char) -> Token {
    Token::Punct(c, Spacing::Alone)
}

#[test]
fn split_three_segments_with_nested_group() {
    // a,[b,c],d on `,`: the comma inside the bracket group is inert.
    let tokens = vec![
        leaf("a"),
        punct(','),
        Token::Group(Delim::Bracket, vec![leaf("b"), punct(','), leaf("c")]),
        punct(','),
        leaf("d"),
    ];
    let segments = split(tokens, ',');
    assert_eq!(
        segments,
        vec![
            vec![leaf("a")],
            vec![Token::Group(
                Delim::Bracket,
                vec![leaf("b"), punct(','), leaf("c")]
            )],
            vec![leaf("d")],
        ]
    );
}

#[test]
fn split_key_value_with_nested_colon() {
    // "k":[1:2] on `:`: the colon inside the bracket group is inert.
    let tokens = vec![
        leaf("\"k\""),
        punct(':'),
        Token::Group(Delim::Bracket, vec![leaf("1"), punct(':'), leaf("2")]),
    ];
    let segments = split(tokens, ':');
    assert_eq!(
        segments,
        vec![
            vec![leaf("\"k\"")],
            vec![Token::Group(
                Delim::Bracket,
                vec![leaf("1"), punct(':'), leaf("2")]
            )],
        ]
    );
}

#[test]
fn split_empty_input_yields_no_segments() {
    let segments = split(Vec::new(), ',');
    assert_eq!(segments, Vec::<Vec<Token>>::new());
}

#[test]
fn split_trailing_separator_adds_no_segment() {
    let tokens = vec![leaf("a"), punct(','), leaf("b"), punct(',')];
    let segments = split(tokens, ',');
    assert_eq!(segments, vec![vec![leaf("a")], vec![leaf("b")]]);
}

#[test]
fn split_adjacent_separators_keep_empty_middle_segment() {
    let tokens = vec![leaf("a"), punct(','), punct(','), leaf("b")];
    let segments = split(tokens, ',');
    assert_eq!(segments, vec![vec![leaf("a")], Vec::new(), vec![leaf("b")]]);
}

#[test]
fn split_lone_separator_yields_one_empty_segment() {
    let segments = split(vec![punct(',')], ',');
    assert_eq!(segments, vec![Vec::<Token>::new()]);
}

#[test]
fn split_other_punctuation_does_not_cut() {
    let tokens = vec![leaf("a"), punct('+'), leaf("b")];
    let segments = split(tokens, ',');
    assert_eq!(
        segments,
        vec![vec![leaf("a"), punct('+'), leaf("b")]]
    );
}

#[test]
fn split_first_cuts_at_first_separator_only() {
    let tokens = vec![
        leaf("\"k\""),
        punct(':'),
        leaf("v"),
        punct(':'),
        leaf("w"),
    ];
    let (first, rest) = split_first(tokens, ':');
    assert_eq!(first, vec![leaf("\"k\"")]);
    assert_eq!(
        rest,
        Some(vec![leaf("v"), punct(':'), leaf("w")])
    );
}

#[test]
fn split_first_without_separator_returns_whole_input() {
    let tokens = vec![leaf("a"), leaf("b")];
    let (first, rest) = split_first(tokens, ':');
    assert_eq!(first, vec![leaf("a"), leaf("b")]);
    assert_eq!(rest, None);
}

#[test]
fn joint_separator_still_cuts() {
    // "a":-1: the colon is joint with the minus sign, but only the
    // character decides a cut.
    let tokens = vec![
        leaf("\"a\""),
        Token::Punct(':', Spacing::Joint),
        Token::Punct('-', Spacing::Alone),
        leaf("1"),
    ];
    let segments = split(tokens, ':');
    assert_eq!(
        segments,
        vec![
            vec![leaf("\"a\"")],
            vec![Token::Punct('-', Spacing::Alone), leaf("1")],
        ]
    );
}

#[test]
fn spacing_of_other_punctuation_is_carried_through() {
    // a::b split on `,`: the joint colons of the path stay exactly as they
    // came, so the host tokens can be rebuilt unchanged.
    let tokens = vec![
        leaf("a"),
        Token::Punct(':', Spacing::Joint),
        Token::Punct(':', Spacing::Alone),
        leaf("b"),
    ];
    let segments = split(tokens, ',');
    assert_eq!(
        segments,
        vec![vec![
            leaf("a"),
            Token::Punct(':', Spacing::Joint),
            Token::Punct(':', Spacing::Alone),
            leaf("b"),
        ]]
    );
}

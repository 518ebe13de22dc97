//! Tests of the recursive value compiler: classification by bracket kind,
//! entry and element counts in source order, nesting, the scalar fallback,
//! and the structural errors.

use inline_json::compile::compile;
use inline_json::compile::json;
use inline_json::compile::CompileError;
use inline_json::compile::Entry;
use inline_json::compile::Fragment;
use inline_json::token::Delim;
use inline_json::token::Spacing;
use inline_json::token::Token;

fn leaf(text: &str) -> Token {
    Token::Leaf(text.to_string())
}

fn punct(c: char) -> Token {
    Token::Punct(c, Spacing::Alone)
}

fn scalar(text: &str) -> Fragment {
    Fragment::Scalar(vec![leaf(text)])
}

#[test]
fn object_with_two_entries_inserts_both_in_source_order() {
    // {"a": 1, "b": 2}
    let tokens = vec![Token::Group(
        Delim::Brace,
        vec![
            leaf("\"a\""),
            punct(':'),
            leaf("1"),
            punct(','),
            leaf("\"b\""),
            punct(':'),
            leaf("2"),
        ],
    )];
    assert_eq!(
        compile(tokens),
        Ok(Fragment::Object(vec![
            Entry { key: vec![leaf("\"a\"")], value: scalar("1") },
            Entry { key: vec![leaf("\"b\"")], value: scalar("2") },
        ]))
    );
}

#[test]
fn empty_object_inserts_nothing() {
    let tokens = vec![Token::Group(Delim::Brace, Vec::new())];
    assert_eq!(compile(tokens), Ok(Fragment::Object(Vec::new())));
}

#[test]
fn array_with_two_elements_appends_both_in_source_order() {
    // [x, y]
    let tokens = vec![Token::Group(
        Delim::Bracket,
        vec![leaf("x"), punct(','), leaf("y")],
    )];
    assert_eq!(
        compile(tokens),
        Ok(Fragment::Array(vec![scalar("x"), scalar("y")]))
    );
}

#[test]
fn empty_array_appends_nothing() {
    let tokens = vec![Token::Group(Delim::Bracket, Vec::new())];
    assert_eq!(compile(tokens), Ok(Fragment::Array(Vec::new())));
}

#[test]
fn trailing_entry_separator_is_permitted() {
    // [1, 2,]
    let tokens = vec![Token::Group(
        Delim::Bracket,
        vec![leaf("1"), punct(','), leaf("2"), punct(',')],
    )];
    assert_eq!(
        compile(tokens),
        Ok(Fragment::Array(vec![scalar("1"), scalar("2")]))
    );
}

#[test]
fn nesting_is_order_preserving() {
    // {"a": [1, {"b": 2}]}: one entry whose value is an array of two
    // elements, the second being an object with one entry.
    let inner_object = Token::Group(
        Delim::Brace,
        vec![leaf("\"b\""), punct(':'), leaf("2")],
    );
    let array = Token::Group(
        Delim::Bracket,
        vec![leaf("1"), punct(','), inner_object],
    );
    let tokens = vec![Token::Group(
        Delim::Brace,
        vec![leaf("\"a\""), punct(':'), array],
    )];
    assert_eq!(
        compile(tokens),
        Ok(Fragment::Object(vec![Entry {
            key: vec![leaf("\"a\"")],
            value: Fragment::Array(vec![
                scalar("1"),
                Fragment::Object(vec![Entry {
                    key: vec![leaf("\"b\"")],
                    value: scalar("2"),
                }]),
            ]),
        }]))
    );
}

#[test]
fn bracket_group_is_never_an_object() {
    // ["k": 1] holds a colon, but brackets make an array whatever is inside.
    let tokens = vec![Token::Group(
        Delim::Bracket,
        vec![leaf("\"k\""), punct(':'), leaf("1")],
    )];
    assert_eq!(
        compile(tokens),
        Ok(Fragment::Array(vec![Fragment::Scalar(vec![
            leaf("\"k\""),
            punct(':'),
            leaf("1"),
        ])]))
    );
}

#[test]
fn brace_group_is_never_an_array() {
    let tokens = vec![Token::Group(
        Delim::Brace,
        vec![leaf("\"k\""), punct(':'), leaf("1")],
    )];
    assert_eq!(
        compile(tokens),
        Ok(Fragment::Object(vec![Entry {
            key: vec![leaf("\"k\"")],
            value: scalar("1"),
        }]))
    );
}

#[test]
fn bare_expression_compiles_to_single_conversion() {
    // 1 + 2 with no enclosing group: a scalar, never object or array.
    let tokens = vec![leaf("1"), punct('+'), leaf("2")];
    assert_eq!(
        compile(tokens),
        Ok(Fragment::Scalar(vec![
            leaf("1"),
            punct('+'),
            leaf("2"),
        ]))
    );
}

#[test]
fn parenthesis_group_is_a_scalar() {
    let tokens = vec![Token::Group(
        Delim::Parenthesis,
        vec![leaf("1"), punct('+'), leaf("2")],
    )];
    assert_eq!(
        compile(tokens),
        Ok(Fragment::Scalar(vec![Token::Group(
            Delim::Parenthesis,
            vec![leaf("1"), punct('+'), leaf("2")],
        )]))
    );
}

#[test]
fn entry_without_separator_is_a_structural_error() {
    // {"k"}: no top-level `:`, reported, not silently compiled as a scalar.
    let tokens = vec![Token::Group(Delim::Brace, vec![leaf("\"k\"")])];
    assert_eq!(
        compile(tokens),
        Err(CompileError::MissingKeyValueSeparator)
    );
}

#[test]
fn nested_colon_does_not_count_as_entry_separator() {
    // {["k": 1]}: the only colon is inside a bracket group, so the entry has
    // no top-level separator.
    let tokens = vec![Token::Group(
        Delim::Brace,
        vec![Token::Group(
            Delim::Bracket,
            vec![leaf("\"k\""), punct(':'), leaf("1")],
        )],
    )];
    assert_eq!(
        compile(tokens),
        Err(CompileError::MissingKeyValueSeparator)
    );
}

#[test]
fn no_tokens_at_all_is_an_empty_expression() {
    assert_eq!(compile(Vec::new()), Err(CompileError::EmptyExpression));
}

#[test]
fn empty_array_element_is_an_empty_expression() {
    // [1,,2]
    let tokens = vec![Token::Group(
        Delim::Bracket,
        vec![
            leaf("1"),
            punct(','),
            punct(','),
            leaf("2"),
        ],
    )];
    assert_eq!(compile(tokens), Err(CompileError::EmptyExpression));
}

#[test]
fn empty_object_value_is_an_empty_expression() {
    // {"k":}
    let tokens = vec![Token::Group(
        Delim::Brace,
        vec![leaf("\"k\""), punct(':')],
    )];
    assert_eq!(compile(tokens), Err(CompileError::EmptyExpression));
}

#[test]
fn tokens_after_an_object_group_are_rejected() {
    // {} extra: the group must be the entire remaining sequence, so the
    // trailing token is a structural error, never silently dropped.
    let tokens = vec![Token::Group(Delim::Brace, Vec::new()), leaf("extra")];
    assert_eq!(
        compile(tokens),
        Err(CompileError::TrailingTokensAfterGroup)
    );
}

#[test]
fn tokens_after_an_array_group_are_rejected() {
    // [1] + x
    let tokens = vec![
        Token::Group(Delim::Bracket, vec![leaf("1")]),
        punct('+'),
        leaf("x"),
    ];
    assert_eq!(
        compile(tokens),
        Err(CompileError::TrailingTokensAfterGroup)
    );
}

#[test]
fn parenthesis_group_with_trailing_tokens_is_a_scalar() {
    // (1) + 2: a parenthesis group never classifies, so the whole sequence
    // is one scalar expression.
    let tokens = vec![
        Token::Group(Delim::Parenthesis, vec![leaf("1")]),
        punct('+'),
        leaf("2"),
    ];
    assert_eq!(
        compile(tokens),
        Ok(Fragment::Scalar(vec![
            Token::Group(Delim::Parenthesis, vec![leaf("1")]),
            punct('+'),
            leaf("2"),
        ]))
    );
}

#[test]
fn json_splits_type_descriptor_from_literal() {
    // T, {"k": v}
    let tokens = vec![
        leaf("T"),
        punct(','),
        Token::Group(
            Delim::Brace,
            vec![leaf("\"k\""), punct(':'), leaf("v")],
        ),
    ];
    assert_eq!(
        json(tokens),
        Ok((
            vec![leaf("T")],
            Fragment::Object(vec![Entry {
                key: vec![leaf("\"k\"")],
                value: scalar("v"),
            }]),
        ))
    );
}

#[test]
fn json_without_literal_is_an_empty_expression() {
    let tokens = vec![leaf("T")];
    assert_eq!(json(tokens), Err(CompileError::EmptyExpression));
}

#[test]
fn json_scalar_literal_compiles_to_conversion() {
    // T, 1 + 2
    let tokens = vec![
        leaf("T"),
        punct(','),
        leaf("1"),
        punct('+'),
        leaf("2"),
    ];
    assert_eq!(
        json(tokens),
        Ok((
            vec![leaf("T")],
            Fragment::Scalar(vec![leaf("1"), punct('+'), leaf("2")]),
        ))
    );
}

#[test]
fn scalar_keeps_joint_punctuation_spacing() {
    // T, String::new(): the joint colons of the path reach the scalar
    // fragment unchanged, so the rendered code keeps the `::` operator.
    let tokens = vec![
        leaf("T"),
        punct(','),
        leaf("String"),
        Token::Punct(':', Spacing::Joint),
        Token::Punct(':', Spacing::Alone),
        leaf("new"),
        Token::Group(Delim::Parenthesis, Vec::new()),
    ];
    assert_eq!(
        json(tokens),
        Ok((
            vec![leaf("T")],
            Fragment::Scalar(vec![
                leaf("String"),
                Token::Punct(':', Spacing::Joint),
                Token::Punct(':', Spacing::Alone),
                leaf("new"),
                Token::Group(Delim::Parenthesis, Vec::new()),
            ]),
        ))
    );
}

#[test]
fn joint_entry_colon_still_separates_key_and_value() {
    // {"a":-1}: the colon is joint with the minus sign and still counts as
    // the key/value separator.
    let tokens = vec![Token::Group(
        Delim::Brace,
        vec![
            leaf("\"a\""),
            Token::Punct(':', Spacing::Joint),
            Token::Punct('-', Spacing::Alone),
            leaf("1"),
        ],
    )];
    assert_eq!(
        compile(tokens),
        Ok(Fragment::Object(vec![Entry {
            key: vec![leaf("\"a\"")],
            value: Fragment::Scalar(vec![
                Token::Punct('-', Spacing::Alone),
                leaf("1"),
            ]),
        }]))
    );
}

use asa::parser::labels::grab_braced_label_definitions;
use asa::parser::literals::{char_and_hex_to_dec, convert_strings, string_to_tokens};
use asa::parser::other::{
    expand_mults, fix_instructions_and_collapse_label_definitions, handle_assignments, insert_asm_macro,
};
use asa::error::AsmErrorKind;
use asa::tokens::{tokens_from_token_variant_vec, IntOrString, LabelOffset, Token, TokenVariant};

#[test]
fn braced_labels() {
    let input: Vec<Token> = tokens_from_token_variant_vec(vec![
        (0, TokenVariant::BraceOpen),
        (1, TokenVariant::Label { name: "label1".to_string() }),
        (2, TokenVariant::LabelArrow { offset: LabelOffset::Int(0) }),
        (3, TokenVariant::DecLiteral { value: 1234 }),
        (4, TokenVariant::BraceClose),
        (5, TokenVariant::BraceOpen),
        (6, TokenVariant::Label { name: "label2".to_string() }),
        (7, TokenVariant::LabelArrow { offset: LabelOffset::Int(0) }),
        (8, TokenVariant::Label { name: "TEXT".to_string() }),
        (9, TokenVariant::BraceClose),
    ]);
    let expected: Vec<Token> = tokens_from_token_variant_vec(vec![
        (
            2,
            TokenVariant::BracedLabelDefinition {
                name: "label1".to_string(),
                data: IntOrString::Int(1234),
            },
        ),
        (
            7,
            TokenVariant::BracedLabelDefinition {
                name: "label2".to_string(),
                data: IntOrString::Str("TEXT".to_string()),
            },
        ),
    ]);
    let output = grab_braced_label_definitions(input).unwrap();
    assert_eq!(output, expected);
}

#[test]
fn char_hex_to_dec_basic() {
    let mut input: Vec<Token> = tokens_from_token_variant_vec(vec![
        (0, TokenVariant::CharLiteral { value: '~' }),
        (0, TokenVariant::CharLiteral { value: '\0' }),
        (0, TokenVariant::CharLiteral { value: 'P' }),
        (0, TokenVariant::HexLiteral { value: "8000".to_string() }),
        (0, TokenVariant::HexLiteral { value: "0123".to_string() }),
        (0, TokenVariant::HexLiteral { value: "-0AA".to_string() }),
    ]);
    let expected: Vec<Token> = tokens_from_token_variant_vec(vec![
        (0, TokenVariant::DecLiteral { value: 126 }),
        (0, TokenVariant::DecLiteral { value: 0 }),
        (0, TokenVariant::DecLiteral { value: 80 }),
        (0, TokenVariant::DecLiteral { value: 32768 }),
        (0, TokenVariant::DecLiteral { value: 291 }),
        (0, TokenVariant::DecLiteral { value: -170 }),
    ]);
    char_and_hex_to_dec(&mut input).unwrap();
    assert_eq!(input, expected);
}

#[test]
fn garbage_hex_is_refused() {
    let mut input: Vec<Token> = tokens_from_token_variant_vec(vec![(
        0,
        TokenVariant::HexLiteral { value: "GARBAGE".to_string() },
    )]);
    let before = tokens_from_token_variant_vec(vec![(
        0,
        TokenVariant::HexLiteral { value: "GARBAGE".to_string() },
    )]);
    let err = char_and_hex_to_dec(&mut input).unwrap_err();
    assert_eq!(err.kind, AsmErrorKind::InvalidHexLiteral);
    assert_eq!(input, before);
}

#[test]
fn garbage_escape_sequence_is_refused() {
    let input: Vec<Token> = tokens_from_token_variant_vec(vec![(
        0,
        TokenVariant::StrLiteral { value: "Hello, \\q World".to_string() },
    )]);
    let err = convert_strings(input).unwrap_err();
    assert_eq!(err.kind, AsmErrorKind::InvalidEscapeSequence);
}

#[test]
fn convert_strings_basic() {
    let input: Vec<Token> = tokens_from_token_variant_vec(vec![(
        0,
        TokenVariant::StrLiteral { value: "Hello, \\t\\nW0rld!".to_string() },
    )]);
    let expected: Vec<Token> = tokens_from_token_variant_vec(vec![
        (0, TokenVariant::DecLiteral { value: 72 }),
        (0, TokenVariant::DecLiteral { value: 101 }),
        (0, TokenVariant::DecLiteral { value: 108 }),
        (0, TokenVariant::DecLiteral { value: 108 }),
        (0, TokenVariant::DecLiteral { value: 111 }),
        (0, TokenVariant::DecLiteral { value: 44 }),
        (0, TokenVariant::DecLiteral { value: 32 }),
        (0, TokenVariant::DecLiteral { value: 9 }),
        (0, TokenVariant::DecLiteral { value: 10 }),
        (0, TokenVariant::DecLiteral { value: 87 }),
        (0, TokenVariant::DecLiteral { value: 48 }),
        (0, TokenVariant::DecLiteral { value: 114 }),
        (0, TokenVariant::DecLiteral { value: 108 }),
        (0, TokenVariant::DecLiteral { value: 100 }),
        (0, TokenVariant::DecLiteral { value: 33 }),
        (0, TokenVariant::DecLiteral { value: 0 }),
    ]);
    let output = convert_strings(input).unwrap();
    assert_eq!(output, expected);
}

#[test]
fn string_to_tokens_ends_with_zero() {
    let tok = tokens_from_token_variant_vec(vec![(3, TokenVariant::StrLiteral { value: "ab".to_string() })]);
    let out = string_to_tokens(&tok[0], "ab");
    let expected = tokens_from_token_variant_vec(vec![
        (3, TokenVariant::DecLiteral { value: 97 }),
        (3, TokenVariant::DecLiteral { value: 98 }),
        (3, TokenVariant::DecLiteral { value: 0 }),
    ]);
    assert_eq!(out, expected);
}

#[test]
fn test_assignment() {
    let input: Vec<Token> = tokens_from_token_variant_vec(vec![
        (0, TokenVariant::Label { name: "label".to_string() }),
        (0, TokenVariant::Equals),
        (0, TokenVariant::DecLiteral { value: 0 }),
        (0, TokenVariant::Linebreak),
        (0, TokenVariant::Label { name: "label2".to_string() }),
        (0, TokenVariant::Equals),
        (0, TokenVariant::DecLiteral { value: 120 }),
        (0, TokenVariant::Label { name: "label_a".to_string() }),
        (0, TokenVariant::Equals),
        (0, TokenVariant::Label { name: "label_b".to_string() }),
    ]);
    let expected: Vec<Token> = tokens_from_token_variant_vec(vec![
        (0, TokenVariant::MacroCall { name: "ASM::AssignZero".to_string() }),
        (0, TokenVariant::Label { name: "label".to_string() }),
        (0, TokenVariant::Linebreak),
        (0, TokenVariant::MacroCall { name: "ASM::AssignLit".to_string() }),
        (0, TokenVariant::Label { name: "label2".to_string() }),
        (0, TokenVariant::DecLiteral { value: 120 }),
        (0, TokenVariant::MacroCall { name: "ASM::AssignLabel".to_string() }),
        (0, TokenVariant::Label { name: "label_a".to_string() }),
        (0, TokenVariant::Label { name: "label_b".to_string() }),
    ]);
    let output = handle_assignments(&input).unwrap();
    assert_eq!(output, expected);
}

#[test]
fn assignment_to_a_number_is_refused() {
    let input: Vec<Token> = tokens_from_token_variant_vec(vec![
        (0, TokenVariant::DecLiteral { value: 3 }),
        (1, TokenVariant::Equals),
        (2, TokenVariant::DecLiteral { value: 4 }),
    ]);
    let err = handle_assignments(&input).unwrap_err();
    assert_eq!(err.kind, AsmErrorKind::AssignmentLhsNotLabel);
}

#[test]
fn test_mult() {
    let input: Vec<Token> = tokens_from_token_variant_vec(vec![
        (0, TokenVariant::Asterisk),
        (1, TokenVariant::Label { name: "label".to_owned() }),
        (2, TokenVariant::DecLiteral { value: 10 }),
        (3, TokenVariant::Asterisk),
        (4, TokenVariant::DecLiteral { value: 5 }),
    ]);
    let expected: Vec<Token> = tokens_from_token_variant_vec(vec![
        (0, TokenVariant::Asterisk),
        (1, TokenVariant::Label { name: "label".to_owned() }),
        (2, TokenVariant::DecLiteral { value: 10 }),
        (2, TokenVariant::DecLiteral { value: 10 }),
        (2, TokenVariant::DecLiteral { value: 10 }),
        (2, TokenVariant::DecLiteral { value: 10 }),
        (2, TokenVariant::DecLiteral { value: 10 }),
    ]);
    let output = expand_mults(&input);
    assert_eq!(output, expected);
}

#[test]
fn test_fix_instructions_and_collapse_label_definitions() {
    let input: Vec<Token> = tokens_from_token_variant_vec(vec![
        (0, TokenVariant::Label { name: "label".to_owned() }),
        (1, TokenVariant::LabelArrow { offset: LabelOffset::Int(0) }),
        (2, TokenVariant::Label { name: "a".to_owned() }),
        (3, TokenVariant::Subleq),
        (4, TokenVariant::Label { name: "b".to_owned() }),
        (5, TokenVariant::Linebreak),
        (6, TokenVariant::Label { name: "b".to_owned() }),
        (7, TokenVariant::Label { name: "a".to_owned() }),
        (8, TokenVariant::Label { name: "c".to_owned() }),
        (9, TokenVariant::Linebreak),
    ]);
    let expected: Vec<Token> = tokens_from_token_variant_vec(vec![
        (1, TokenVariant::LabelDefinition { name: "label".to_owned(), offset: 0 }),
        (4, TokenVariant::Label { name: "b".to_owned() }),
        (2, TokenVariant::Label { name: "a".to_owned() }),
        (6, TokenVariant::Relative { offset: 1 }),
        (6, TokenVariant::Label { name: "b".to_owned() }),
        (7, TokenVariant::Label { name: "a".to_owned() }),
        (8, TokenVariant::Label { name: "c".to_owned() }),
    ]);
    let output = fix_instructions_and_collapse_label_definitions(&input, &mut Vec::new()).unwrap();
    assert_eq!(output, expected);
}

#[test]
fn label_arrow_after_number_is_refused() {
    let input: Vec<Token> = tokens_from_token_variant_vec(vec![
        (0, TokenVariant::DecLiteral { value: 1 }),
        (1, TokenVariant::LabelArrow { offset: LabelOffset::Int(0) }),
    ]);
    let err = fix_instructions_and_collapse_label_definitions(&input, &mut Vec::new()).unwrap_err();
    assert_eq!(err.kind, AsmErrorKind::OnlyLabelBeforeArrow);
}

#[test]
fn asm_macro_call_is_prepended() {
    let toks = tokens_from_token_variant_vec(vec![
        (5, TokenVariant::Label { name: "x".to_owned() }),
        (6, TokenVariant::DecLiteral { value: 2 }),
    ]);
    let out = insert_asm_macro("ASM::Test".to_owned(), &toks[0], vec![&toks[0], &toks[1]]);
    let expected = tokens_from_token_variant_vec(vec![
        (5, TokenVariant::MacroCall { name: "ASM::Test".to_owned() }),
        (5, TokenVariant::Label { name: "x".to_owned() }),
        (6, TokenVariant::DecLiteral { value: 2 }),
    ]);
    assert_eq!(out, expected);
}

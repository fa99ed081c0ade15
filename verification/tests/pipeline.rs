use asa::assembler::assemble;
use asa::error::{ArgType, AsmErrorKind, Note, NoteKind};
use asa::lexer::{clean, generic_sanitisation, splice_include, tokenise};
use asa::parser::macros::{insert_macros, macro_argument_type_check, read_macros};
use asa::parser::parse;
use asa::parser::statements::separate_statements;
use asa::sanitiser::sanitise;
use asa::tokens::{tokens_from_token_variant_vec, LabelOffset, Token, TokenVariant};

fn variants(toks: &[Token]) -> Vec<String> {
    toks.iter().map(|t| format!("{:?}", t.variant)).collect()
}

#[test]
fn sanitisation_replaces_line_endings_and_tabs() {
    assert_eq!(generic_sanitisation("a\r\n\tb"), "a\n    b");
    assert_eq!(generic_sanitisation("\r\r\n"), "\r\n");
    let once = generic_sanitisation("x\t\r\ny");
    assert_eq!(generic_sanitisation(&once), once);
}

#[test]
fn clean_makes_tabs_single_spaces() {
    assert_eq!(clean("a\tb\r\n".to_string()), "a b\n");
}

#[test]
fn tokenise_reads_an_instruction() {
    let toks = tokenise("a -= b\n\n\nc", 3).unwrap();
    assert_eq!(
        variants(&toks),
        vec![
            "Label { name: \"a\" }",
            "Subleq",
            "Label { name: \"b\" }",
            "Linebreak",
            "Label { name: \"c\" }",
            "Linebreak",
        ]
    );
    assert!(toks.iter().all(|t| t.info.file == 3));
    assert_eq!(toks[2].info.start_char, 6);
    assert_eq!(toks[4].info.line_number, 4);
}

#[test]
fn tokenise_reads_literals_and_arrows() {
    let toks = tokenise("x -b> 0x1F 'a' \"hi\" $2 & -7 @M !M", 0).unwrap();
    assert_eq!(
        variants(&toks),
        vec![
            "Label { name: \"x\" }",
            "LabelArrow { offset: Char('b') }",
            "HexLiteral { value: \"01F\" }",
            "CharLiteral { value: 'a' }",
            "StrLiteral { value: \"hi\" }",
            "Relative { offset: 2 }",
            "Relative { offset: 1 }",
            "DecLiteral { value: -7 }",
            "MacroDeclaration { name: \"M\" }",
            "MacroCall { name: \"M\" }",
            "Linebreak",
        ]
    );
}

#[test]
fn tokenise_reads_unicode_labels_and_escapes() {
    let toks = tokenise("äb? '\\n'", 0);
    let err = toks.unwrap_err();
    assert_eq!(err.kind, AsmErrorKind::UnexpectedCharacter);
    let toks = tokenise("bä? '\\n'", 0).unwrap();
    assert_eq!(variants(&toks), vec!["Label { name: \"bä?\" }", "CharLiteral { value: '\\n' }", "Linebreak"]);
}

#[test]
fn tokenise_refuses_bad_input() {
    assert_eq!(tokenise("?a", 0).unwrap_err().kind, AsmErrorKind::LabelStartsWithQuestionMark);
    assert_eq!(tokenise("0a", 0).unwrap_err().kind, AsmErrorKind::LabelStartsWithNumber);
    assert_eq!(tokenise("99999999999", 0).unwrap_err().kind, AsmErrorKind::NumberTooLarge);
    assert_eq!(tokenise("-x", 0).unwrap_err().kind, AsmErrorKind::ExpectedSubleqOrArrow);
    assert_eq!(tokenise("$x", 0).unwrap_err().kind, AsmErrorKind::ExpectedOffset);
    assert_eq!(tokenise("'\\q'", 0).unwrap_err().kind, AsmErrorKind::InvalidEscapeSequence);
    assert_eq!(tokenise("''", 0).unwrap_err().kind, AsmErrorKind::EmptyCharLiteral);
    let e = tokenise("a\n  %", 0).unwrap_err();
    assert_eq!(e.kind, AsmErrorKind::UnexpectedCharacter);
    assert_eq!(e.info.unwrap().line_number, 2);
}

#[test]
fn tokenise_drops_comments() {
    let toks = tokenise("a ; comment\n** block\n comment **b", 0).unwrap();
    assert_eq!(
        variants(&toks),
        vec!["Label { name: \"a\" }", "Linebreak", "Label { name: \"b\" }", "Linebreak"]
    );
}

#[test]
fn includes_are_spliced() {
    let main = tokenise("#lib\nx\n", 0).unwrap();
    assert_eq!(variants(&main)[0], "Namespace { name: \"lib\" }");
    let lib = tokenise("y", 1).unwrap();
    let all = splice_include(&main, 0, lib);
    assert_eq!(
        variants(&all),
        vec!["Label { name: \"y\" }", "Linebreak", "Label { name: \"x\" }", "Linebreak"]
    );
    assert_eq!(all[0].info.file, 1);
    assert_eq!(all[2].info.file, 0);
    let again = splice_include(&main, 0, Vec::new());
    assert_eq!(variants(&again), vec!["Linebreak", "Label { name: \"x\" }", "Linebreak"]);
}

#[test]
fn macros_are_read_and_expanded() {
    let toks = tokenise("@Twice a? {\n a? a?\n}\n!Twice 7\n", 0).unwrap();
    let (rest, macros) = read_macros(&toks, &mut Vec::new()).unwrap();
    assert_eq!(macros.len(), 1);
    assert_eq!(macros[0].name, "Twice");
    assert_eq!(macros[0].params.len(), 1);
    let out = insert_macros(rest, &macros, Vec::new(), true, &mut Vec::new()).unwrap();
    let dec: Vec<String> = variants(&out)
        .into_iter()
        .filter(|v| v.starts_with("DecLiteral"))
        .collect();
    assert_eq!(dec, vec!["DecLiteral { value: 7 }", "DecLiteral { value: 7 }"]);
    let seven = out.iter().find(|t| matches!(t.variant, TokenVariant::DecLiteral { .. })).unwrap();
    assert_eq!(seven.origin_info.len(), 2);
    assert_eq!(seven.origin_info[0].line_number, 4);
}

#[test]
fn macro_labels_are_renamed() {
    let toks = tokenise("@M {\n l -> l\n}\n!M\n", 0).unwrap();
    let (rest, macros) = read_macros(&toks, &mut Vec::new()).unwrap();
    assert_eq!(macros[0].labels_defined_in_macro, vec!["l".to_string()]);
    let out = insert_macros(rest, &macros, Vec::new(), true, &mut Vec::new()).unwrap();
    assert!(variants(&out).contains(&"Label { name: \"?M?l\" }".to_string()));
}

#[test]
fn macro_errors() {
    let toks = tokenise("!Nope\n", 0).unwrap();
    let (rest, macros) = read_macros(&toks, &mut Vec::new()).unwrap();
    assert_eq!(insert_macros(rest, &macros, Vec::new(), true, &mut Vec::new()).unwrap_err().kind, AsmErrorKind::UndefinedMacro);
    let toks = tokenise("@M {\n !M\n}\n", 0).unwrap();
    assert_eq!(read_macros(&toks, &mut Vec::new()).unwrap_err().kind, AsmErrorKind::RecursiveMacroCall);
    let toks = tokenise("@M a? b? {\n a? b?\n}\n!M 1\n", 0).unwrap();
    let (rest, macros) = read_macros(&toks, &mut Vec::new()).unwrap();
    assert_eq!(
        insert_macros(rest, &macros, Vec::new(), true, &mut Vec::new()).unwrap_err().kind,
        AsmErrorKind::MissingMacroArguments
    );
    let toks = tokenise("]", 0).unwrap();
    assert_eq!(read_macros(&toks, &mut Vec::new()).unwrap_err().kind, AsmErrorKind::UnexpectedMacroBodyToken);
}

#[test]
fn mutually_recursive_macros_stop() {
    let toks = tokenise("@A {\n !B\n}\n@B {\n !A\n}\n!A\n", 0).unwrap();
    let (rest, macros) = read_macros(&toks, &mut Vec::new()).unwrap();
    let err = insert_macros(rest, &macros, Vec::new(), true, &mut Vec::new()).unwrap_err();
    assert_eq!(err.kind, AsmErrorKind::MacroNestingTooDeep);
}

#[test]
fn argument_types() {
    let toks = tokens_from_token_variant_vec(vec![
        (0, TokenVariant::Scope),
        (0, TokenVariant::BraceOpen),
        (0, TokenVariant::DecLiteral { value: 1 }),
        (0, TokenVariant::Label { name: "x".to_string() }),
    ]);
    assert!(macro_argument_type_check("s_body?", &toks[0]));
    assert!(!macro_argument_type_check("S_body?", &toks[3]));
    assert!(macro_argument_type_check("m_call?", &toks[1]));
    assert!(macro_argument_type_check("l_value?", &toks[2]));
    assert!(macro_argument_type_check("a_any?", &toks[2]));
    assert!(macro_argument_type_check("value?", &toks[3]));
    assert!(!macro_argument_type_check("value?", &toks[2]));
}

#[test]
fn parse_resolves_labels() {
    let toks = tokenise("x y 0\nx -> 5\ny -> 6\n", 0).unwrap();
    let out = parse(toks, true, &mut Vec::new()).unwrap();
    assert_eq!(
        variants(&out),
        vec![
            "DecLiteral { value: 3 }",
            "DecLiteral { value: 4 }",
            "DecLiteral { value: 0 }",
            "LabelDefinition { name: \"x\", offset: 0 }",
            "DecLiteral { value: 5 }",
            "LabelDefinition { name: \"y\", offset: 0 }",
            "DecLiteral { value: 6 }",
        ]
    );
}

#[test]
fn parse_refuses_undefined_labels() {
    let toks = tokenise("x y 0\n", 0).unwrap();
    assert_eq!(parse(toks, true, &mut Vec::new()).unwrap_err().kind, AsmErrorKind::UndefinedLabel);
    let toks = tokenise("* 5\n", 0).unwrap();
    assert_eq!(parse(toks, true, &mut Vec::new()).unwrap_err().kind, AsmErrorKind::DerefWithoutLabel);
}

#[test]
fn assemble_gives_words() {
    let toks = tokenise("a -= b\na -> 1\nb -> 2 \"A\"\n", 0).unwrap();
    let (mem, toks) = assemble(toks, true, &mut Vec::new()).unwrap();
    assert_eq!(mem, vec![4, 3, 3, 1, 2, 65, 0]);
    assert_eq!(mem.len(), toks.len());
    let toks = tokenise("@M x? {\n x? x? x?\n}\n!M 9\n", 0).unwrap();
    let (mem, _) = assemble(toks, true, &mut Vec::new()).unwrap();
    assert_eq!(mem, vec![9, 9, 9]);
}

#[test]
fn separate_statements_orders_operands() {
    let input = tokens_from_token_variant_vec(vec![
        (0, TokenVariant::Label { name: "l".to_owned() }),
        (1, TokenVariant::LabelArrow { offset: LabelOffset::Char('c') }),
        (2, TokenVariant::Label { name: "a".to_owned() }),
        (3, TokenVariant::Subleq),
        (4, TokenVariant::Label { name: "b".to_owned() }),
        (5, TokenVariant::Linebreak),
    ]);
    let out = separate_statements(&input).unwrap();
    let expected = tokens_from_token_variant_vec(vec![
        (1, TokenVariant::LabelDefinition { name: "l".to_owned(), offset: 2 }),
        (4, TokenVariant::Label { name: "b".to_owned() }),
        (2, TokenVariant::Label { name: "a".to_owned() }),
        (9, TokenVariant::Relative { offset: 1 }),
    ]);
    assert_eq!(out, expected);
}

#[test]
fn sanitise_removes_line_comments() {
    assert_eq!(sanitise("a ; note\r\nb \";\" ';'".to_string()), "a \nb \";\" ';'");
}

#[test]
fn macro_notes() {
    let toks = tokenise("@M a {\n a\n}\n@M b? {\n b?\n}\n@U [\n x -> 0\n]\n", 0).unwrap();
    let mut notes: Vec<Note> = Vec::new();
    read_macros(&toks, &mut notes).unwrap();
    let kinds: Vec<NoteKind> = notes.iter().map(|n| n.kind).collect();
    assert_eq!(
        kinds,
        vec![NoteKind::ParameterWithoutQuestionMark, NoteKind::DuplicateMacro, NoteKind::LabelInUnscopedMacro]
    );
    assert_eq!(notes[0].name, "a");
    assert_eq!(notes[1].related.as_ref().unwrap().line_number, 1);
    assert_eq!(notes[1].info.line_number, 4);
}

#[test]
fn argument_type_notes() {
    let toks = tokenise("@M s_body? l_n? {\n s_body?\n}\n!M 5 x\n", 0).unwrap();
    let (rest, macros) = read_macros(&toks, &mut Vec::new()).unwrap();
    let mut notes: Vec<Note> = Vec::new();
    insert_macros(rest, &macros, Vec::new(), true, &mut notes).unwrap();
    let kinds: Vec<NoteKind> = notes.iter().map(|n| n.kind).collect();
    assert_eq!(
        kinds,
        vec![NoteKind::WrongArgumentType(ArgType::Scope), NoteKind::WrongArgumentType(ArgType::Literal)]
    );
    let toks = tokenise("@M s_body? l_n? {\n s_body?\n}\n!M 5 x\n", 0).unwrap();
    let (rest, macros) = read_macros(&toks, &mut Vec::new()).unwrap();
    let mut notes: Vec<Note> = Vec::new();
    insert_macros(rest, &macros, Vec::new(), false, &mut notes).unwrap();
    assert!(notes.is_empty());
}

#[test]
fn unreadable_parameter_name_is_refused_when_checking() {
    let toks = tokenise("@M aé? {\n aé?\n}\n!M 5\n", 0).unwrap();
    let (rest, macros) = read_macros(&toks, &mut Vec::new()).unwrap();
    let err = insert_macros(rest, &macros, Vec::new(), true, &mut Vec::new()).unwrap_err();
    assert_eq!(err.kind, AsmErrorKind::UnreadableParameterName);
    let toks = tokenise("@M aé? {\n aé?\n}\n!M 5\n", 0).unwrap();
    let (rest, macros) = read_macros(&toks, &mut Vec::new()).unwrap();
    assert!(insert_macros(rest, &macros, Vec::new(), false, &mut Vec::new()).is_ok());
}

#[test]
fn braced_definition_holds_the_address_of_its_label() {
    let toks = tokenise("(p -> t) 0 0\nt -> 9\n", 0).unwrap();
    let (mem, _) = assemble(toks, true, &mut Vec::new()).unwrap();
    assert_eq!(mem, vec![3, 0, 0, 9]);
    let toks = tokenise("(p -> nowhere) 0 0\n", 0).unwrap();
    let err = assemble(toks, true, &mut Vec::new()).unwrap_err();
    assert_eq!(err.kind, AsmErrorKind::UndefinedLabel);
    assert_eq!(err.name, "nowhere");
}

#[test]
fn labels_defined_twice_in_a_scope_are_warned_of() {
    let toks = tokenise("x -> 1\nx -> 2\n", 0).unwrap();
    let mut notes: Vec<Note> = Vec::new();
    let (mem, _) = assemble(toks, true, &mut notes).unwrap();
    assert_eq!(mem, vec![1, 2]);
    assert_eq!(notes.len(), 1);
    assert_eq!(notes[0].kind, NoteKind::DuplicateLabel);
    assert_eq!(notes[0].name, "x");
    assert!(notes[0].info.line_number > notes[0].related.as_ref().unwrap().line_number);
    let toks = tokenise("x -> 1\n{\nx -> 2\n}\n", 0).unwrap();
    let mut notes: Vec<Note> = Vec::new();
    assemble(toks, true, &mut notes).unwrap();
    assert!(notes.is_empty());
}

#[test]
fn jump_targets_should_start_with_a_dot() {
    let toks = tokenise("b -= a c\na -> 1\nb -> 2\nc -> 3\n", 0).unwrap();
    let mut notes: Vec<Note> = Vec::new();
    assemble(toks, true, &mut notes).unwrap();
    assert_eq!(notes.len(), 1);
    assert_eq!(notes[0].kind, NoteKind::JumpLabelWithoutDot);
    assert_eq!(notes[0].name, "c");
    let toks = tokenise("b -= a .c\na -> 1\nb -> 2\n.c -> 3\n", 0).unwrap();
    let mut notes: Vec<Note> = Vec::new();
    assemble(toks, true, &mut notes).unwrap();
    assert!(notes.is_empty());
}

#[test]
fn large_numbers_wrap_with_a_warning() {
    let toks = tokenise("1 { x -> -1 } 65537\n", 0).unwrap();
    let mut notes: Vec<Note> = Vec::new();
    let (mem, _) = assemble(toks, true, &mut notes).unwrap();
    assert_eq!(mem, vec![1, 0xFFFF, 1]);
    assert_eq!(notes.len(), 1);
    assert_eq!(notes[0].kind, NoteKind::NumberWraps(65537));
}

#[test]
fn errors_name_their_label_or_macro() {
    let toks = tokenise("x y 0\n", 0).unwrap();
    let err = parse(toks, true, &mut Vec::new()).unwrap_err();
    assert_eq!(err.name, "x");
    let toks = tokenise("!Nope\n", 0).unwrap();
    let err = parse(toks, true, &mut Vec::new()).unwrap_err();
    assert_eq!(err.kind, AsmErrorKind::UndefinedMacro);
    assert_eq!(err.name, "Nope");
    let toks = tokenise("@M a? b? {\n a? b?\n}\n!M 1\n", 0).unwrap();
    let err = parse(toks, true, &mut Vec::new()).unwrap_err();
    assert_eq!(err.kind, AsmErrorKind::MissingMacroArguments);
    assert_eq!(err.counts, Some((2, 1)));
}

#[test]
fn a_macro_may_nest_deeper_than_there_are_macros() {
    let src = "@Foo x? {\n x? x? x?\n}\n@Mac b? {\n b? 10\n}\n!Mac ( !Mac ( !Mac ( !Foo ) ) )\n";
    let toks = tokenise(src, 0).unwrap();
    let (mem, _) = assemble(toks, true, &mut Vec::new()).unwrap();
    assert_eq!(mem, vec![10, 10, 10, 10, 10]);
}

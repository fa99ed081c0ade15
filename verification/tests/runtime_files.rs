use asa::args::{effective_log_level, Args, FeedbackLevel};
use asa::feedback::{asm_runtime_error, origin_info_or_info, sub_message_level_check, Level, LevelFilter, RuntimeReport, Type};
use asa::files::{from_bytes, from_text, to_bytes, to_text, InputFileType, OutputFile, OutputFileType};
use asa::interpreter::{interpret_fast, interpret_single, revert_historic_instruction, IOOperation, InstructionHistoryItem};
use asa::runtimes::debugger::{display_window, run_with_debugger, DebugKey, Debugger, Effect, SessionEnd};
use asa::runtimes::interpreter::{append_output, interpret_step, needs_input, step_would_panic, Next, Output};
use asa::runtimes::RuntimeError;
use asa::scopes::{add_sub_scope, get_base_scope};
use asa::tokens::{tokens_from_token_variant_vec, Info, Token, TokenVariant};
use asa::utils::{with_thousands, IterVec};

#[test]
fn output_file() {
    let result = OutputFile::new(&None, "Sublib".to_owned());
    assert_eq!(result, None);

    let result = OutputFile::new(&Some(Some("sblx".to_owned())), "mod".to_owned());
    assert_eq!(
        result,
        Some(OutputFile { file_base: "mod".to_string(), file_type: OutputFileType::Plaintext })
    );
    let result = OutputFile::new(&Some(Some("bin".to_owned())), "mod2".to_owned());
    assert_eq!(
        result,
        Some(OutputFile { file_base: "mod2".to_string(), file_type: OutputFileType::Binary })
    );

    let result = OutputFile::new(&Some(Some("test".to_owned())), "mod3".to_owned());
    assert_eq!(
        result,
        Some(OutputFile { file_base: "test".to_string(), file_type: OutputFileType::Binary })
    );

    let result = OutputFile::new(&Some(Some("abc/file.sblx".to_owned())), "mod4".to_owned());
    assert_eq!(
        result,
        Some(OutputFile { file_base: "abc/file".to_string(), file_type: OutputFileType::Plaintext })
    );
    let result = OutputFile::new(&Some(Some("abc/defg/file.sblx.hello".to_owned())), "mod4".to_owned());
    assert_eq!(
        result,
        Some(OutputFile {
            file_base: "abc/defg/file.sblx.hello".to_string(),
            file_type: OutputFileType::Binary
        })
    );

    let result = OutputFile::new(&Some(None), "mod5".to_owned());
    assert_eq!(
        result,
        Some(OutputFile { file_base: "mod5".to_string(), file_type: OutputFileType::Binary })
    );
}

#[test]
fn file_types_ignore_case_and_spaces() {
    assert_eq!(InputFileType::from_str(" SBL "), Some(InputFileType::Sublang));
    assert_eq!(InputFileType::from_str("Sblx"), Some(InputFileType::Plaintext));
    assert_eq!(InputFileType::from_str("txt"), None);
    assert_eq!(OutputFileType::from_str("BIN"), Some(OutputFileType::Binary));
    assert_eq!(OutputFileType::Plaintext.extension(), "sblx");
}

#[test]
fn bytes_round_trip() {
    let words = vec![0x1234u16, 0xFFFF, 0];
    let bytes = to_bytes(&words);
    assert_eq!(bytes, vec![0x12, 0x34, 0xFF, 0xFF, 0, 0]);
    assert_eq!(from_bytes(&bytes), words);
}

#[test]
fn text_round_trip() {
    let words = vec![1u16, 65535, 0, 42];
    let text = to_text(&words);
    assert_eq!(text, "1 65535 0 42");
    assert_eq!(from_text(&text), Some(words));
    assert_eq!(from_text(" 7\n\t8 "), Some(vec![7, 8]));
    assert_eq!(from_text("65536"), None);
    assert_eq!(from_text("x"), None);
    assert_eq!(to_text(&[]), "");
}

#[test]
fn single_steps_and_undo() {
    let mut mem: Vec<u16> = vec![6, 7, 3, 0, 0, 0, 2, 5];
    let (npc, io, item) = interpret_single(&mut mem, 0).unwrap();
    assert_eq!(mem[7], 3);
    assert_eq!(npc, 3);
    assert_eq!(io, IOOperation::Nothing);
    let mut out = String::new();
    let pc = revert_historic_instruction(&mut mem, &item, &mut out);
    assert_eq!(pc, 0);
    assert_eq!(mem, vec![6, 7, 3, 0, 0, 0, 2, 5]);
    let item = InstructionHistoryItem { pc: 0, original_value_at_b: 9, io_operation: IOOperation::Char('x') };
    let mut out = String::from("ab");
    revert_historic_instruction(&mut mem, &item, &mut out);
    assert_eq!(out, "a");
    assert_eq!(mem[7], 9);
}

#[test]
fn fast_interpreter_halts() {
    // 3 - 3 = 0 at address 3, then jump to -1.
    let mut mem: Vec<u16> = vec![3, 3, 0xFFFF, 3];
    assert_eq!(interpret_fast(&mut mem, 10), Ok(true));
    assert_eq!(mem[3], 0);
    let mut mem: Vec<u16> = vec![9, 0, 0];
    assert_eq!(interpret_fast(&mut mem, 10), Err(asa::interpreter::RuntimeError::AOutOfRange(0)));
}

#[test]
fn runtime_steps() {
    let mut mem: Vec<u16> = vec![6, 0xFFFF, 3, 7, 0xFFFE, 0xFFFF, 65, 0xFFF9];
    assert!(!needs_input(&mem, 0));
    assert!(!step_would_panic(&mem, 0));
    let r = interpret_step(&mut mem, 0, 0xFFFF, '\0');
    assert_eq!(r.output, Output::Char('A'));
    assert_eq!(r.next, Next::Continue(3));
    let r = interpret_step(&mut mem, 3, 0, '\0');
    assert_eq!(r.output, Output::Number(-7));
    assert_eq!(r.next, Next::Halt);
    let mut text = String::new();
    append_output(&mut text, Output::Char('A'));
    append_output(&mut text, Output::Number(-7));
    append_output(&mut text, Output::Number(120));
    assert_eq!(text, "A-7120");
    let mut mem: Vec<u16> = vec![0xFFFF, 4, 0, 0, 0];
    assert!(needs_input(&mem, 0));
    let r = interpret_step(&mut mem, 0, 0xFFFF, 'z');
    assert_eq!(mem[4], 'z' as u16);
    assert_eq!(r.next, Next::Continue(0));
    let r = interpret_step(&mut mem, 3, 0, 'z');
    assert_eq!(r.next, Next::Fail(RuntimeError::COutOfRange(0)));
    let mut mem: Vec<u16> = vec![1, 1, 0xFFFE];
    let r = interpret_step(&mut mem, 0, 0, '\0');
    assert_eq!(r.next, Next::Fail(RuntimeError::Breakpoint(0)));
    let mem: Vec<u16> = vec![9, 0xFFFF, 0];
    assert!(step_would_panic(&mem, 0));
}

#[test]
fn debugger_test_debugger() {
    let keys = vec![
        DebugKey::Right,
        DebugKey::Right,
        DebugKey::Right,
        DebugKey::Left,
        DebugKey::Left,
        DebugKey::Right,
        DebugKey::Left,
        DebugKey::Char('o'),
        DebugKey::Right,
        DebugKey::Right,
        DebugKey::Right,
        DebugKey::Right,
        DebugKey::Char('m'),
        DebugKey::Left,
        DebugKey::Right,
        DebugKey::Left,
        DebugKey::Right,
        DebugKey::Char('m'),
        DebugKey::Left,
        DebugKey::Left,
        DebugKey::Left,
        DebugKey::Right,
        DebugKey::Right,
        DebugKey::Right,
        DebugKey::Right,
        DebugKey::Left,
        DebugKey::Left,
        DebugKey::Left,
        DebugKey::Left,
        DebugKey::Char('h'),
    ];
    let mut mem: Vec<u16> = vec![14, 12, 3, 14, 13, 6, 13, 14, 9, 12, 12, 0, 0, 1, 0];
    let expected: Vec<u16> = vec![14, 12, 3, 14, 13, 6, 13, 14, 9, 12, 12, 0, 0, 1, 0xFFFF];
    let tokens = &tokens_from_token_variant_vec(vec![
        (0, TokenVariant::DecLiteral { value: 14 }),
        (0, TokenVariant::DecLiteral { value: 12 }),
        (0, TokenVariant::DecLiteral { value: 3 }),
        (0, TokenVariant::DecLiteral { value: 14 }),
        (0, TokenVariant::DecLiteral { value: 13 }),
        (0, TokenVariant::DecLiteral { value: 6 }),
        (0, TokenVariant::DecLiteral { value: 13 }),
        (0, TokenVariant::DecLiteral { value: 14 }),
        (0, TokenVariant::DecLiteral { value: 9 }),
        (0, TokenVariant::DecLiteral { value: 12 }),
        (0, TokenVariant::DecLiteral { value: 12 }),
        (0, TokenVariant::DecLiteral { value: 0 }),
        (0, TokenVariant::DecLiteral { value: 0 }),
        (0, TokenVariant::DecLiteral { value: 1 }),
        (0, TokenVariant::DecLiteral { value: 0 }),
    ]);
    let end = run_with_debugger(&mut mem, tokens, &keys, &[], 1000);
    assert_eq!(end, SessionEnd::Quit);
    assert_eq!(mem, expected);
}

#[test]
fn debugger_left_undoes_right() {
    let mut mem: Vec<u16> = vec![4, 5, 3, 0, 2, 9];
    let mut dbg = Debugger::new();
    let ev = dbg.evaluate(&mem, '\0');
    assert_eq!(ev.result, 7);
    assert_eq!(dbg.apply(&mut mem, &ev, 0, DebugKey::Right), Effect::Proceed);
    assert_eq!(mem[5], 7);
    assert_eq!(dbg.pc, 3);
    let ev = dbg.evaluate(&mem, '\0');
    assert_eq!(dbg.apply(&mut mem, &ev, 0, DebugKey::Left), Effect::Again);
    assert_eq!(mem, vec![4, 5, 3, 0, 2, 9]);
    assert_eq!(dbg.pc, 0);
    assert!(dbg.history.is_empty());
}

#[test]
fn runtime_error_reports() {
    let toks = tokens_from_token_variant_vec(vec![(0, TokenVariant::DecLiteral { value: 1 }); 3]);
    match asm_runtime_error(RuntimeError::BOutOfRange(1), &Some(toks.clone())) {
        RuntimeReport::AtToken { index, message } => {
            assert_eq!(index, 2);
            assert_eq!(message, "Address at 'B' is outside of memory bounds");
        },
        _ => panic!("expected a token"),
    }
    assert!(matches!(asm_runtime_error(RuntimeError::COutOfRange(1), &Some(toks)), RuntimeReport::Nothing));
    match asm_runtime_error(RuntimeError::Breakpoint(6), &None) {
        RuntimeReport::AtPc { pc, message } => {
            assert_eq!(pc, 6);
            assert_eq!(message, "Breakpoint");
        },
        _ => panic!("expected a pc"),
    }
}

#[test]
fn message_levels() {
    assert_eq!(Type::Trace.to_log_level(), Level::Info);
    assert_eq!(Type::Warn.label(), "WARN");
    assert!(sub_message_level_check(LevelFilter::Info, Level::Warn));
    assert!(!sub_message_level_check(LevelFilter::Error, Level::Warn));
    assert!(!sub_message_level_check(LevelFilter::Off, Level::Error));
    assert_eq!(FeedbackLevel::Note.to_log_level(), LevelFilter::Info);
    assert_eq!(FeedbackLevel::default(), FeedbackLevel::Note);
    assert_eq!(FeedbackLevel::Warn.name(), "warn");
    let args = Args {
        target: None,
        feedback_level: FeedbackLevel::Debug,
        disable_execution: false,
        debugger: false,
        libs_path: "./subleq/libs".to_string(),
        disable_type_checking: false,
        output: None,
        silent: true,
        pedantic: false,
        warnings_are_errors: false,
    };
    assert_eq!(effective_log_level(&args), LevelFilter::Error);
}

#[test]
fn origin_info_picks_last_call() {
    let mut t: Token = tokens_from_token_variant_vec(vec![(4, TokenVariant::Linebreak)]).pop().unwrap();
    assert_eq!(origin_info_or_info(&t).start_char, 4);
    t.origin_info.push(Info { start_char: 9, length: 1, line_number: 2, file: 0, sourceline_suffix: None });
    assert_eq!(origin_info_or_info(&t).start_char, 9);
}

#[test]
fn thousands_groups() {
    assert_eq!(with_thousands("1234567".to_string()), "1,234,567");
    assert_eq!(with_thousands("123".to_string()), "123");
    assert_eq!(with_thousands("".to_string()), "");
    assert_eq!(with_thousands("1234".to_string()), "1,234");
}

#[test]
fn iter_vec_cursor() {
    let v = vec![10, 20, 30];
    let mut it = IterVec::new(&v);
    assert_eq!(*it.current(), 10);
    assert_eq!(*it.consume(), 10);
    assert_eq!(*it.get(1), 30);
    assert_eq!(*it.get(-1), 10);
    assert_eq!(it.current_index(), 1);
    assert_eq!(it.len(), 3);
    assert!(!it.is_empty());
    it.consume();
    it.consume();
    assert!(it.finished());
}

#[test]
fn scope_tree() {
    let mut tree = get_base_scope();
    let a = add_sub_scope(&mut tree, 0);
    let b = add_sub_scope(&mut tree, a);
    assert_eq!(tree.scopes[0].sub_scopes, vec![a]);
    assert_eq!(tree.scopes[b].parent_scope, Some(a));
    assert_eq!(tree.scopes.len(), 3);
}

#[test]
fn debugger_window_moves_at_file_edges() {
    assert_eq!(display_window(50, 100), (34, 65));
    assert_eq!(display_window(1, 100), (0, 31));
    assert_eq!(display_window(100, 100), (68, 99));
    assert_eq!(display_window(3, 10), (0, 9));
}

#[test]
fn include_paths_find_lib_files_and_add_extensions() {
    assert_eq!(asa::files::include_path("dir", "Std", false), "dir/Std.sbl");
    assert_eq!(asa::files::include_path("dir", "Std", true), "dir/Std/Lib.sbl");
    assert_eq!(asa::files::include_path("dir", "my.sbl", false), "dir/my.sbl");
    assert_eq!(asa::files::include_path("dir/", "x.txt", false), "dir/x.txt");
}

#[test]
fn debugger_session_right_left_restores_memory() {
    // mem[5] -= mem[4] at pc 0, then mem[0] -= mem[0] at pc 3 (halts via -1).
    let start: Vec<u16> = vec![4, 5, 3, 0, 2, 9];
    let tokens = tokens_from_token_variant_vec(
        start.iter().map(|v| (0, TokenVariant::DecLiteral { value: *v as i32 })).collect(),
    );
    let mut mem = start.clone();
    let end = run_with_debugger(&mut mem, &tokens, &[DebugKey::Right, DebugKey::Left, DebugKey::Char('h')], &[], 10);
    assert_eq!(end, SessionEnd::Quit);
    let mut direct = start.clone();
    let end2 = run_with_debugger(&mut direct, &tokens, &[DebugKey::Char('h')], &[], 10);
    assert_eq!(end2, SessionEnd::Quit);
    assert_eq!(mem, direct);
    assert_eq!(mem, start);
}

#[test]
fn fast_run_matches_single_steps() {
    // Counts mem[9] down by mem[10] until it is at most zero, then halts.
    let program: Vec<u16> = vec![10, 9, 6, 11, 11, 0, 11, 11, 0xFFFF, 7, 2, 0];
    let mut fast = program.clone();
    assert_eq!(interpret_fast(&mut fast, 100), Ok(true));
    let mut stepped = program.clone();
    let mut pc: usize = 0;
    loop {
        let (npc, io, _) = interpret_single(&mut stepped, pc).unwrap();
        if io == IOOperation::Halt {
            break;
        }
        pc = npc;
    }
    assert_eq!(fast, stepped);
    assert_eq!(fast[9], 0xFFFF);
}

#[test]
fn debugger_step_back_after_earlier_keys() {
    let start: Vec<u16> = vec![6, 7, 3, 6, 7, 6, 1, 9, 0];
    let tokens = tokens_from_token_variant_vec(
        start.iter().map(|v| (0, TokenVariant::DecLiteral { value: *v as i32 })).collect(),
    );
    let mut back = start.clone();
    let keys = [DebugKey::Right, DebugKey::Right, DebugKey::Left, DebugKey::Char('h')];
    assert_eq!(run_with_debugger(&mut back, &tokens, &keys, &[], 10), SessionEnd::Quit);
    let mut quit = start.clone();
    let keys = [DebugKey::Right, DebugKey::Char('h')];
    assert_eq!(run_with_debugger(&mut quit, &tokens, &keys, &[], 10), SessionEnd::Quit);
    assert_eq!(back, quit);
    assert_eq!(back, vec![6, 7, 3, 6, 7, 6, 1, 8, 0]);
}

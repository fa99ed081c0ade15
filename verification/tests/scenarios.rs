use asa::assembler::assemble;
use asa::lexer::tokenise;
use asa::runtimes::interpreter::{append_output, interpret_step, needs_input, step_would_panic, Next};

fn words(text: &str) -> Vec<u16> {
    assemble(tokenise(text, 0).unwrap(), true, &mut Vec::new()).unwrap().0
}

fn run(mem: &mut Vec<u16>) -> (String, Next) {
    let mut pc = 0;
    let mut prev = 0xFFFF;
    let mut out = String::new();
    for _ in 0..1000 {
        assert!(!needs_input(mem, pc));
        assert!(!step_would_panic(mem, pc));
        let step = interpret_step(mem, pc, prev, '\0');
        append_output(&mut out, step.output);
        match step.next {
            Next::Continue(n) => {
                prev = pc;
                pc = n;
            },
            other => return (out, other),
        }
    }
    (out, Next::Continue(pc))
}

#[test]
fn plain_subleq_words() {
    assert_eq!(words("1 2 3\n"), vec![1, 2, 3]);
}

#[test]
fn subleq_forms_are_equivalent() {
    let a = words("a -= b\na -> 1\nb -> 2\n");
    let b = words("a -= b $1\na -> 1\nb -> 2\n");
    let c = words("b a $1\na -> 1\nb -> 2\n");
    assert_eq!(a, vec![4, 3, 3, 1, 2]);
    assert_eq!(a, b);
    assert_eq!(a, c);
}

#[test]
fn inner_scopes_shadow_labels() {
    let mem = words("Z -> 123\nX -> 456\n{\n    Z -> 789\n    X -= Z\n}\n");
    assert_eq!(mem, vec![123, 456, 789, 2, 1, 6]);
}

#[test]
fn ampersand_is_relative_one() {
    assert_eq!(words("p -> &123\n"), vec![1, 123]);
    assert_eq!(words("p -> $1 123\n"), vec![1, 123]);
}

#[test]
fn hex_counts_repeat() {
    assert_eq!(words("0x123 * 0x4\n"), vec![291, 291, 291, 291]);
}

#[test]
fn curried_macros() {
    let text = "@Mac b_some_macro? {\n    b_some_macro? 10\n    b_some_macro? 3\n}\n\
                @CurriedMacro l_a? l_b? {\n    l_a? -= l_b?\n}\n!Mac ( !CurriedMacro 5 )\n";
    assert_eq!(words(text), vec![10, 5, 3, 3, 5, 6]);
}

#[test]
fn scope_arguments_keep_their_braces() {
    let text = "@Mac s_my_scope? {\n    s_my_scope?\n}\n!Mac { 1 2 3 }\n";
    assert_eq!(words(text), vec![1, 2, 3]);
}

#[test]
fn hygienic_macro_labels() {
    let text = "a -> 0\n@MyMacro b? {\n    a -= b?\n    a -> 123\n}\n!MyMacro a\n";
    // The macro's own `a` is renamed, so the instruction subtracts the
    // outer `a` (address 0) from the macro's `a` (address 4).
    assert_eq!(words(text), vec![0, 0, 4, 4, 123]);
}

#[test]
fn printing_and_halting() {
    let mut mem = words("-1 -= char\nW -= W -1\nchar -> 'a'\nW -> 0\n");
    assert_eq!(mem, vec![6, 0xFFFF, 3, 7, 7, 0xFFFF, 97, 0]);
    let (out, end) = run(&mut mem);
    assert_eq!(out, "a");
    assert_eq!(end, Next::Halt);
}

use omni_compiler::inout_desugar::lower_inout_call;
use omni_compiler::mir::Instruction;

#[test]
fn lower_inout_call_generates_correct_mir() {
    let instrs = lower_inout_call("result", "update", &["x".to_string()], &[true]);

    assert!(instrs.len() >= 2);

    let has_linear_move = instrs.iter().any(|i| matches!(i, Instruction::LinearMove { .. }));
    assert!(has_linear_move);
}

#[test]
fn inout_call_with_mixed_args() {
    let instrs = lower_inout_call(
        "result",
        "foo",
        &["normal".to_string(), "inout_val".to_string()],
        &[false, true],
    );

    let move_count = instrs.iter().filter(|i| matches!(i, Instruction::Move { .. })).count();
    let linear_move_count = instrs
        .iter()
        .filter(|i| matches!(i, Instruction::LinearMove { .. }))
        .count();

    assert!(move_count >= 1);
    assert!(linear_move_count >= 1);
}

fn describe(i: &Instruction) -> String {
    match i {
        Instruction::Move { dest, src } => format!("move {} <- {}", dest, src),
        Instruction::LinearMove { dest, src } => format!("linear {} <- {}", dest, src),
        Instruction::Call { dest, func, args } => format!("call {} = {}({})", dest, func, args.join(",")),
    }
}

#[test]
fn inout_call_exact_sequence() {
    let instrs = lower_inout_call("r", "f", &["a".to_string(), "b".to_string()], &[false, true]);
    let text: Vec<String> = instrs.iter().map(describe).collect();
    assert_eq!(
        text,
        vec![
            "move __arg_f_0 <- a",
            "linear __inout_arg_f_1 <- b",
            "call r__inout_result = f(a,b)",
            "linear b <- __inout_out_f_1",
        ]
    );
}

#[test]
fn extra_arguments_without_flags_are_only_passed() {
    let instrs = lower_inout_call("r", "g", &["a".to_string(), "b".to_string()], &[true]);
    let text: Vec<String> = instrs.iter().map(describe).collect();
    assert_eq!(
        text,
        vec![
            "linear __inout_arg_g_0 <- a",
            "call r__inout_result = g(a,b)",
            "linear a <- __inout_out_g_0",
        ]
    );
}

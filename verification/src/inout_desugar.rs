//! Lowering of calls with `inout` arguments: each inout argument is moved into
//! the callee as a linear value and moved back out after the call.

use vstd::prelude::*;
use crate::mir::{Instruction, InstrView, instrs_view, strings_view};
use crate::text::{decimal, push_decimal, push_str};

verus! {

/// `prefix` followed by the function name, `_`, and the argument position.
pub open spec fn slot_name(prefix: Seq<char>, func: Seq<char>, i: nat) -> Seq<char> {
    prefix + func + "_"@ + decimal(i)
}

/// The move of argument `i` into the call.
pub open spec fn move_in(func: Seq<char>, arg: Seq<char>, inout: bool, i: nat) -> InstrView {
    if inout {
        InstrView::LinearMove { dest: slot_name("__inout_arg_"@, func, i), src: arg }
    } else {
        InstrView::Move { dest: slot_name("__arg_"@, func, i), src: arg }
    }
}

/// The moves back out of the call for the inout arguments among the first `n`.
pub open spec fn moves_out(func: Seq<char>, args: Seq<Seq<char>>, inout: Seq<bool>, n: nat) -> Seq<InstrView>
    decreases n,
{
    if n == 0 {
        seq![]
    } else {
        let rest = moves_out(func, args, inout, (n - 1) as nat);
        if inout[n - 1] {
            rest.push(InstrView::LinearMove { dest: args[n - 1], src: slot_name("__inout_out_"@, func, (n - 1) as nat) })
        } else {
            rest
        }
    }
}

/// The instructions for `dest = func(args)`: a move in for each argument
/// (paired with its inout flag), the call with all arguments, then a linear
/// move back for each inout argument.
pub open spec fn inout_call(dest: Seq<char>, func: Seq<char>, args: Seq<Seq<char>>, inout: Seq<bool>) -> Seq<InstrView> {
    let n = if args.len() <= inout.len() { args.len() } else { inout.len() };
    Seq::new(n, |i: int| move_in(func, args[i], inout[i], i as nat))
        + seq![InstrView::Call { dest: dest + "__inout_result"@, func, args }]
        + moves_out(func, args, inout, n)
}

fn slot(prefix: &str, func: &str, i: usize) -> (s: String)
    ensures
        s@ == slot_name(prefix@, func@, i as nat),
{
    let mut s = String::new();
    push_str(&mut s, prefix);
    push_str(&mut s, func);
    push_str(&mut s, "_");
    push_decimal(&mut s, i);
    s
}

/// Lowers `dest = func(args)` where `is_inout[i]` marks the inout arguments.
pub fn lower_inout_call(dest: &str, func: &str, args: &[String], is_inout: &[bool]) -> (r: Vec<Instruction>)
    ensures
        instrs_view(r@) == inout_call(dest@, func@, strings_view(args@), is_inout@),
{
    let ghost av = strings_view(args@);
    let ghost io = is_inout@;
    let n = if args.len() <= is_inout.len() { args.len() } else { is_inout.len() };
    let ghost ins = Seq::new(n as nat, |i: int| move_in(func@, av[i], io[i], i as nat));
    let mut instrs: Vec<Instruction> = Vec::new();
    let mut i: usize = 0;
    while i < n
        invariant
            i <= n,
            n <= args@.len(),
            n <= is_inout@.len(),
            av == strings_view(args@),
            io == is_inout@,
            ins.len() == n,
            forall|q: int| 0 <= q < n ==> #[trigger] ins[q] == move_in(func@, av[q], io[q], q as nat),
            instrs_view(instrs@) == ins.take(i as int),
        decreases n - i,
    {
        let src = args[i].clone();
        let ins_i = if is_inout[i] {
            Instruction::LinearMove { dest: slot("__inout_arg_", func, i), src }
        } else {
            Instruction::Move { dest: slot("__arg_", func, i), src }
        };
        let ghost before = instrs@;
        assert(ins_i@ == ins[i as int]);
        instrs.push(ins_i);
        assert(instrs_view(instrs@) =~= instrs_view(before).push(ins_i@));
        assert(instrs_view(instrs@) =~= ins.take(i + 1));
        i = i + 1;
    }
    let mut all_args: Vec<String> = Vec::new();
    let mut k: usize = 0;
    while k < args.len()
        invariant
            k <= args@.len(),
            all_args@.len() == k,
            forall|q: int| 0 <= q < k ==> (#[trigger] all_args@[q])@ == args@[q]@,
        decreases args.len() - k,
    {
        all_args.push(args[k].clone());
        k = k + 1;
    }
    assert(strings_view(all_args@) =~= av);
    let mut call_dest = String::new();
    push_str(&mut call_dest, dest);
    push_str(&mut call_dest, "__inout_result");
    assert(ins.take(n as int) =~= ins);
    let ghost before_call = instrs@;
    let call = Instruction::Call { dest: call_dest, func: String::from_str(func), args: all_args };
    let ghost cv = call@;
    instrs.push(call);
    assert(instrs_view(instrs@) =~= instrs_view(before_call).push(cv));
    let ghost head = ins + seq![InstrView::Call { dest: dest@ + "__inout_result"@, func: func@, args: av }];
    assert(instrs_view(instrs@) =~= head + moves_out(func@, av, io, 0));
    let mut j: usize = 0;
    while j < n
        invariant
            j <= n,
            n <= args@.len(),
            n <= is_inout@.len(),
            av == strings_view(args@),
            io == is_inout@,
            instrs_view(instrs@) == head + moves_out(func@, av, io, j as nat),
        decreases n - j,
    {
        let ghost before = instrs@;
        if is_inout[j] {
            let ins_j = Instruction::LinearMove { dest: args[j].clone(), src: slot("__inout_out_", func, j) };
            let ghost v = ins_j@;
            instrs.push(ins_j);
            assert(instrs_view(instrs@) =~= instrs_view(before).push(v));
        }
        assert(instrs_view(instrs@) =~= head + moves_out(func@, av, io, (j + 1) as nat));
        j = j + 1;
    }
    instrs
}

} // verus!

//! The grammar by which the bytes of a function body are parsed.

use crate::instr_table::{instr_info, spec_instr};
use crate::parser::prs::{alternatives_view, Grammar, Rule, RuleModel};
use crate::wasm_model::{ADD_U64_OP, INSTR, START, STMT, STMTS};
use vstd::prelude::*;

verus! {

/// The alternatives of an instruction among the first `upto` opcodes: each
/// opcode that the catalogue assigns, alone, in order.
pub open spec fn spec_opcode_alternatives(upto: nat) -> Seq<Seq<u64>>
    decreases upto,
{
    if upto == 0 {
        Seq::empty()
    } else {
        let before = spec_opcode_alternatives((upto - 1) as nat);
        if spec_instr((upto - 1) as u8).name.len() > 0 {
            before.push(seq![(upto - 1) as u64])
        } else {
            before
        }
    }
}

/// The grammar of function bodies: a body is a run of statements, a
/// statement is an instruction or an addition, and an instruction is one
/// of the opcodes that the catalogue assigns.
pub open spec fn spec_parser_grammar() -> Seq<RuleModel<u64>> {
    seq![
        RuleModel { left_hand: START, right_hand: seq![seq![STMTS]] },
        RuleModel { left_hand: STMTS, right_hand: seq![seq![STMT], seq![STMTS, STMT]] },
        RuleModel { left_hand: STMT, right_hand: seq![seq![ADD_U64_OP], seq![INSTR]] },
        RuleModel { left_hand: INSTR, right_hand: spec_opcode_alternatives(256) },
    ]
}

fn one(a: u64) -> (r: Vec<u64>)
    ensures
        r@ == seq![a],
{
    let mut v: Vec<u64> = Vec::new();
    v.push(a);
    v
}

fn two(a: u64, b: u64) -> (r: Vec<u64>)
    ensures
        r@ == seq![a, b],
{
    let mut v: Vec<u64> = Vec::new();
    v.push(a);
    v.push(b);
    v
}

fn rule(left_hand: u64, first: Vec<u64>, second: Option<Vec<u64>>) -> (r: Rule<u64>)
    ensures
        r@ == (RuleModel {
            left_hand,
            right_hand: match second {
                Some(s) => seq![first@, s@],
                None => seq![first@],
            },
        }),
{
    let mut right_hand: Vec<Vec<u64>> = Vec::new();
    right_hand.push(first);
    match second {
        Some(s) => {
            right_hand.push(s);
            assert(alternatives_view(right_hand@) =~= seq![first@, s@]);
        },
        None => {
            assert(alternatives_view(right_hand@) =~= seq![first@]);
        },
    }
    Rule { left_hand, right_hand }
}

/// The grammar of function bodies.
pub fn parser_grammar() -> (r: Grammar<u64>)
    ensures
        r@ == spec_parser_grammar(),
{
    let mut opcodes: Vec<Vec<u64>> = Vec::new();
    let mut op: u16 = 0;
    assert(alternatives_view(opcodes@) =~= spec_opcode_alternatives(0));
    while op < 256
        invariant
            op <= 256,
            alternatives_view(opcodes@) == spec_opcode_alternatives(op as nat),
        decreases 256 - op,
    {
        if !instr_info(op as u8).name.is_empty() {
            let alternative = one(op as u64);
            assert(alternatives_view(opcodes@.push(alternative)) =~= alternatives_view(
                opcodes@,
            ).push(alternative@));
            opcodes.push(alternative);
        }
        op = op + 1;
    }
    let mut rules: Vec<Rule<u64>> = Vec::new();
    rules.push(rule(START, one(STMTS), None));
    rules.push(rule(STMTS, one(STMT), Some(two(STMTS, STMT))));
    rules.push(rule(STMT, one(ADD_U64_OP), Some(one(INSTR))));
    rules.push(Rule { left_hand: INSTR, right_hand: opcodes });
    let grammar = Grammar::new(rules);
    assert(grammar@ =~= spec_parser_grammar());
    grammar
}

} // verus!

//! Laws of the parser: what every tree it accepts is like, and how its state evolves.
use vstd::prelude::*;
use crate::ast::{BinaryOp, ExprView};
use crate::grammar::{
    PState, Parsed, LOGICAL_OR, advanced, comma_run, finish_call, macro_name, parse_args, parse_assignment,
    parse_binary, parse_binary_rest, parse_comma, parse_comma_rest, parse_operand, parse_power,
    parse_primary, parse_tokens, parse_unary, nan_numeral,
};
use crate::lexer::{TokenView, is_decimal_numeral, lemma_run_len_bound};
use crate::lexer::lex;
use crate::lexer_laws::{law_tokens_well_formed, token_well_formed, tokens_well_formed};
use crate::parser::{initial_funcs, start_state};

verus! {

/// A tree that the evaluator can run without a syntax error, relative to the set `funcs` of
/// known functions: every number is a decimal numeral or the `NaN` of an empty expression,
/// both of which `f32::from_str` accepts; the left side of
/// every assignment is a name; every `$` macro call has a name as its first argument; and
/// every other call names a known function.
pub open spec fn well_formed(e: ExprView, funcs: Set<Seq<char>>) -> bool
    decreases e,
{
    match e {
        ExprView::Number(n) => is_decimal_numeral(n) || n == nan_numeral(),
        ExprView::Variable(_) => true,
        ExprView::Binary { op, left, right } => {
            &&& (op == BinaryOp::Assign ==> *left is Variable)
            &&& well_formed(*left, funcs)
            &&& well_formed(*right, funcs)
        },
        ExprView::Unary { op, operand } => well_formed(*operand, funcs),
        ExprView::FunctionCall { name, args } => {
            &&& (name == macro_name() ==> args.len() > 0 && args[0] is Variable)
            &&& (name != macro_name() ==> funcs.contains(name))
            &&& forall|i: int| 0 <= i < args.len() ==> well_formed(#[trigger] args[i], funcs)
        },
    }
}

/// Every tree in `es` is well formed.
pub open spec fn all_well_formed(es: Seq<ExprView>, funcs: Set<Seq<char>>) -> bool {
    forall|i: int| 0 <= i < es.len() ==> well_formed(#[trigger] es[i], funcs)
}

/// A well-formed tree stays well formed when more functions become known.
pub proof fn lemma_well_formed_mono(e: ExprView, f1: Set<Seq<char>>, f2: Set<Seq<char>>)
    requires
        well_formed(e, f1),
        f1.subset_of(f2),
    ensures
        well_formed(e, f2),
    decreases e,
{
    match e {
        ExprView::Binary { op, left, right } => {
            lemma_well_formed_mono(*left, f1, f2);
            lemma_well_formed_mono(*right, f1, f2);
        },
        ExprView::Unary { op, operand } => lemma_well_formed_mono(*operand, f1, f2),
        ExprView::FunctionCall { name, args } => {
            assert forall|i: int| 0 <= i < args.len() implies well_formed(#[trigger] args[i], f2) by {
                lemma_well_formed_mono(args[i], f1, f2);
            }
        },
        _ => {},
    }
}

proof fn lemma_all_well_formed_mono(es: Seq<ExprView>, f1: Set<Seq<char>>, f2: Set<Seq<char>>)
    requires
        all_well_formed(es, f1),
        f1.subset_of(f2),
    ensures
        all_well_formed(es, f2),
{
    assert forall|i: int| 0 <= i < es.len() implies well_formed(#[trigger] es[i], f2) by {
        lemma_well_formed_mono(es[i], f1, f2);
    }
}

/// What holds of every parse step from `st`: the known functions only grow, and a success
/// advances and gives a well-formed tree.
pub open spec fn sound_step(t: Seq<TokenView>, st: PState, p: Parsed) -> bool {
    &&& st.funcs.subset_of(p.0.funcs)
    &&& p.1 is Ok ==> advanced(t, st, p.0)
    &&& p.1 matches Ok(e) ==> well_formed(e, p.0.funcs)
}

/// The same for a step that continues a chain: it may consume nothing.
pub open spec fn sound_rest(t: Seq<TokenView>, st: PState, p: Parsed) -> bool {
    &&& st.funcs.subset_of(p.0.funcs)
    &&& p.1 is Ok ==> st.pos <= p.0.pos <= t.len()
    &&& p.1 matches Ok(e) ==> well_formed(e, p.0.funcs)
}

/// The state of a parse of well-formed tokens.
pub open spec fn good_state(t: Seq<TokenView>, st: PState) -> bool {
    &&& tokens_well_formed(t)
    &&& 0 <= st.pos <= t.len()
}

proof fn lemma_finish_call(st: PState, name: Seq<char>, args: Seq<ExprView>)
    requires
        all_well_formed(args, st.funcs),
    ensures
        st.funcs.subset_of(finish_call(st, name, args).0.funcs),
        finish_call(st, name, args).0.pos == st.pos,
        finish_call(st, name, args).1 matches Ok(e) ==> well_formed(e, finish_call(st, name, args).0.funcs),
{
    let p = finish_call(st, name, args);
    lemma_all_well_formed_mono(args, st.funcs, p.0.funcs);
}

proof fn lemma_primary(t: Seq<TokenView>, st: PState)
    requires
        good_state(t, st),
    ensures
        sound_step(t, st, parse_primary(t, st)),
    decreases t.len() - st.pos, 0int,
{
    if st.pos < t.len() {
        let st1 = PState { pos: st.pos + 1, funcs: st.funcs };
        assert(token_well_formed(t[st.pos]));
        match t[st.pos] {
            TokenView::Identifier(name) => {
                if st1.pos < t.len() && t[st1.pos] == TokenView::LParen {
                    let st2 = PState { pos: st1.pos + 1, funcs: st.funcs };
                    if !(st2.pos < t.len() && t[st2.pos] == TokenView::RParen) {
                        lemma_args(t, st2, seq![]);
                        let (st3, r) = parse_args(t, st2, seq![]);
                        if let Ok(args) = r {
                            if st3.pos < t.len() && t[st3.pos] == TokenView::RParen {
                                lemma_finish_call(PState { pos: st3.pos + 1, funcs: st3.funcs }, name, args);
                            }
                        }
                    } else {
                        lemma_finish_call(PState { pos: st2.pos + 1, funcs: st.funcs }, name, seq![]);
                    }
                }
            },
            TokenView::LParen => {
                lemma_comma(t, st1);
            },
            _ => {},
        }
    }
}

proof fn lemma_args(t: Seq<TokenView>, st: PState, args: Seq<ExprView>)
    requires
        good_state(t, st),
        all_well_formed(args, st.funcs),
    ensures
        st.funcs.subset_of(parse_args(t, st, args).0.funcs),
        parse_args(t, st, args).1 is Ok ==> advanced(t, st, parse_args(t, st, args).0),
        parse_args(t, st, args).1 matches Ok(es) ==> all_well_formed(es, parse_args(t, st, args).0.funcs),
    decreases t.len() - st.pos, 26int,
{
    lemma_assignment(t, st);
    let (st1, r) = parse_assignment(t, st);
    if let Ok(e) = r {
        let args1 = args.push(e);
        lemma_all_well_formed_mono(args, st.funcs, st1.funcs);
        assert(all_well_formed(args1, st1.funcs)) by {
            assert forall|i: int| 0 <= i < args1.len() implies well_formed(#[trigger] args1[i], st1.funcs) by {
                if i < args.len() {
                    assert(args1[i] == args[i]);
                }
            }
        }
        if st1.pos < t.len() && t[st1.pos] == TokenView::Comma {
            lemma_args(t, PState { pos: st1.pos + 1, funcs: st1.funcs }, args1);
        }
    }
}

proof fn lemma_unary(t: Seq<TokenView>, st: PState)
    requires
        good_state(t, st),
    ensures
        sound_step(t, st, parse_unary(t, st)),
    decreases t.len() - st.pos, 1int,
{
    if st.pos < t.len() {
        lemma_unary(t, PState { pos: st.pos + 1, funcs: st.funcs });
    }
    lemma_primary(t, st);
}

proof fn lemma_power(t: Seq<TokenView>, st: PState)
    requires
        good_state(t, st),
    ensures
        sound_step(t, st, parse_power(t, st)),
    decreases t.len() - st.pos, 2int,
{
    lemma_unary(t, st);
    let (st1, r) = parse_unary(t, st);
    if let Ok(e) = r {
        if st1.pos < t.len() && t[st1.pos] == TokenView::Power {
            let st2 = PState { pos: st1.pos + 1, funcs: st1.funcs };
            lemma_power(t, st2);
            let (st3, r2) = parse_power(t, st2);
            if r2 is Ok {
                lemma_well_formed_mono(e, st1.funcs, st3.funcs);
            }
        }
    }
}

proof fn lemma_operand(t: Seq<TokenView>, st: PState, level: nat)
    requires
        good_state(t, st),
    ensures
        sound_step(t, st, parse_operand(t, st, level)),
    decreases t.len() - st.pos, 2 * level + 3,
{
    if level <= 1 {
        lemma_power(t, st);
    } else {
        lemma_binary(t, st, (level - 1) as nat);
    }
}

proof fn lemma_binary(t: Seq<TokenView>, st: PState, level: nat)
    requires
        good_state(t, st),
    ensures
        sound_step(t, st, parse_binary(t, st, level)),
    decreases t.len() - st.pos, 2 * level + 4,
{
    lemma_operand(t, st, level);
    let (st1, r) = parse_operand(t, st, level);
    if let Ok(e) = r {
        if advanced(t, st, st1) {
            lemma_binary_rest(t, st1, level, e);
        }
    }
}

proof fn lemma_binary_rest(t: Seq<TokenView>, st: PState, level: nat, lhs: ExprView)
    requires
        good_state(t, st),
        well_formed(lhs, st.funcs),
    ensures
        sound_rest(t, st, parse_binary_rest(t, st, level, lhs)),
    decreases t.len() - st.pos, 2 * level + 3,
{
    if st.pos < t.len() {
        let st1 = PState { pos: st.pos + 1, funcs: st.funcs };
        lemma_operand(t, st1, level);
        let (st2, r) = parse_operand(t, st1, level);
        if let Ok(rhs) = r {
            lemma_well_formed_mono(lhs, st.funcs, st2.funcs);
            if let Some(op) = crate::grammar::binary_op_at(level, t[st.pos]) {
                let e = ExprView::Binary { op, left: Box::new(lhs), right: Box::new(rhs) };
                if advanced(t, st, st2) {
                    lemma_binary_rest(t, st2, level, e);
                }
            }
        }
    }
}

proof fn lemma_assignment(t: Seq<TokenView>, st: PState)
    requires
        good_state(t, st),
    ensures
        sound_step(t, st, parse_assignment(t, st)),
    decreases t.len() - st.pos, 25int,
{
    lemma_binary(t, st, LOGICAL_OR as nat);
    let (st1, r) = parse_binary(t, st, LOGICAL_OR as nat);
    if let Ok(e) = r {
        if st1.pos < t.len() && t[st1.pos] == TokenView::Assign && advanced(t, st, st1) {
            let st2 = PState { pos: st1.pos + 1, funcs: st1.funcs };
            lemma_assignment(t, st2);
            let (st3, rv) = parse_assignment(t, st2);
            if rv is Ok {
                lemma_well_formed_mono(e, st1.funcs, st3.funcs);
            }
        }
    }
}

proof fn lemma_comma(t: Seq<TokenView>, st: PState)
    requires
        good_state(t, st),
    ensures
        sound_step(t, st, parse_comma(t, st)),
    decreases t.len() - st.pos, 27int,
{
    lemma_assignment(t, st);
    let (st1, r) = parse_assignment(t, st);
    if let Ok(e) = r {
        if advanced(t, st, st1) {
            lemma_comma_rest(t, st1, e);
        }
    }
}

proof fn lemma_comma_rest(t: Seq<TokenView>, st: PState, lhs: ExprView)
    requires
        good_state(t, st),
        well_formed(lhs, st.funcs),
    ensures
        sound_rest(t, st, parse_comma_rest(t, st, lhs)),
    decreases t.len() - st.pos, 26int,
{
    if st.pos < t.len() && t[st.pos] == TokenView::Comma {
        lemma_run_len_bound(t, st.pos + 1, |k: TokenView| k is Comma);
        let st1 = PState { pos: st.pos + 1 + comma_run(t, st.pos + 1), funcs: st.funcs };
        if st1.pos < t.len() {
            lemma_assignment(t, st1);
            let (st2, r) = parse_assignment(t, st1);
            if let Ok(rhs) = r {
                lemma_well_formed_mono(lhs, st.funcs, st2.funcs);
                let e = ExprView::Binary { op: BinaryOp::Comma, left: Box::new(lhs), right: Box::new(rhs) };
                if advanced(t, st, st2) {
                    lemma_comma_rest(t, st2, e);
                }
            }
        }
    }
}

/// Law: parsing well-formed tokens (as the lexer makes them) only ever adds known functions,
/// and a successful parse reads every token and gives a well-formed tree: every number is a
/// float numeral (`NaN` for no tokens), every assignment assigns to a name, and every call is of a known function
/// or a `$` macro with a name first.
pub proof fn law_parse_well_formed(t: Seq<TokenView>, st: PState)
    requires
        good_state(t, st),
    ensures
        st.funcs.subset_of(parse_tokens(t, st).0.funcs),
        parse_tokens(t, st).1 matches Ok(e) ==> {
            &&& well_formed(e, parse_tokens(t, st).0.funcs)
            &&& t.len() > 0 ==> parse_tokens(t, st).0.pos == t.len()
        },
{
    if t.len() > 0 {
        lemma_comma(t, st);
    }
}

/// Law: whatever text the lexer and parser accept gives a well-formed tree, relative to the
/// functions known at the end of the parse, which include the initial ones.
pub proof fn law_text_parses_well_formed(s: Seq<char>)
    ensures
        lex(s) matches Ok(t) ==> {
            let p = parse_tokens(t, start_state());
            &&& initial_funcs().subset_of(p.0.funcs)
            &&& p.1 matches Ok(e) ==> well_formed(e, p.0.funcs)
        },
{
    law_tokens_well_formed(s);
    if let Ok(t) = lex(s) {
        law_parse_well_formed(t, start_state());
    }
}

} // verus!

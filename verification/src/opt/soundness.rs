use vstd::prelude::*;
use crate::fe::ast::{evaluate, fold_arith, fold_relop, fold_unary, reduced, transfer, Node};
use crate::opt::constant_propagation_pass::{rewrite_block, run_block, Facts};
use crate::opt::lattice::Value;
use crate::opt::lattice::join;
use crate::opt::state::{join_states, lookup};

verus! {

/// The values that the identifiers of a running program hold at one moment.
pub type Env = Map<Seq<char>, i32>;

/// An expression of identifiers, literals and arithmetic, relational and
/// unary operations: one that reads no memory and calls nothing.
pub open spec fn is_plain(n: Node) -> bool
    decreases n,
{
    match n {
        Node::Iden { .. } => true,
        Node::Num { .. } => true,
        Node::Arith { lhs, rhs, .. } => is_plain(*lhs) && is_plain(*rhs),
        Node::Relop { lhs, rhs, .. } => is_plain(*lhs) && is_plain(*rhs),
        Node::Unary { var, .. } => is_plain(*var),
        _ => false,
    }
}

/// The value of a plain expression in a running program, where integer
/// arithmetic alone gives it: `None` where an identifier holds nothing, a
/// result leaves 32 bits or a divisor is zero.
pub open spec fn value_of(n: Node, env: Env) -> Option<i32>
    decreases n,
{
    match n {
        Node::Iden { name, .. } => if env.contains_key(name) {
            Some(env[name])
        } else {
            None
        },
        Node::Num { num, .. } => Some(num),
        Node::Arith { op, lhs, rhs, .. } => match (value_of(*lhs, env), value_of(*rhs, env)) {
            (Some(a), Some(b)) => constant_in(fold_arith(op, a, b)),
            _ => None,
        },
        Node::Relop { op, lhs, rhs, .. } => match (value_of(*lhs, env), value_of(*rhs, env)) {
            (Some(a), Some(b)) => constant_in(fold_relop(op, a, b)),
            _ => None,
        },
        Node::Unary { op, var, .. } => match value_of(*var, env) {
            Some(a) => constant_in(fold_unary(op, a)),
            _ => None,
        },
        _ => None,
    }
}

/// The constant that an abstract value names, if it names one.
pub open spec fn constant_in(v: Value) -> Option<i32> {
    match v {
        Value::Constant(c) => Some(c),
        _ => None,
    }
}

/// A state describes a running program: every identifier that the state
/// binds to a constant holds that constant.
pub open spec fn describes(state: Facts, env: Env) -> bool {
    forall|name: Seq<char>| #[trigger]
        state.contains_key(name) ==> (match state[name] {
            Value::Constant(c) => env.contains_key(name) && env[name] == c,
            _ => true,
        })
}

/// An instruction whose effect integer arithmetic alone gives: an
/// assignment of a plain expression, or a return of one.
pub open spec fn is_simple(n: Node) -> bool {
    match n {
        Node::Assignment { var, .. } => is_plain(*var),
        Node::Ret { var, .. } => is_plain(*var),
        _ => false,
    }
}

/// The identifiers after a simple instruction, from the identifiers before
/// it; `None` where the value that it computes is not given.
pub open spec fn step_env(n: Node, env: Env) -> Option<Env> {
    match n {
        Node::Assignment { name, var, .. } => match value_of(*var, env) {
            Some(v) => Some(env.insert(name, v)),
            None => None,
        },
        Node::Ret { var, .. } => match value_of(*var, env) {
            Some(v) => Some(env),
            None => None,
        },
        _ => None,
    }
}

/// The identifiers after a list of simple instructions.
pub open spec fn run_env(insts: Seq<Node>, env: Env) -> Option<Env>
    decreases insts.len(),
{
    if insts.len() == 0 {
        Some(env)
    } else {
        match run_env(insts.drop_last(), env) {
            Some(before) => step_env(insts.last(), before),
            None => None,
        }
    }
}

/// Substitution is sound: under a state that describes the running
/// program, a plain expression and its reduced form have the same value.
pub proof fn lemma_reduced_keeps_value(n: Node, state: Facts, env: Env)
    requires
        is_plain(n),
        describes(state, env),
    ensures
        is_plain(reduced(n, state)),
        value_of(reduced(n, state), env) == value_of(n, env),
    decreases n,
{
    match n {
        Node::Iden { name, loc } => {
            if state.contains_key(name) {
                assert(lookup(state, name) == state[name]);
            }
        },
        Node::Arith { op, lhs, rhs, loc } => {
            lemma_reduced_keeps_value(*lhs, state, env);
            lemma_reduced_keeps_value(*rhs, state, env);
        },
        Node::Relop { op, lhs, rhs, loc } => {
            lemma_reduced_keeps_value(*lhs, state, env);
            lemma_reduced_keeps_value(*rhs, state, env);
        },
        Node::Unary { op, var, loc } => {
            lemma_reduced_keeps_value(*var, state, env);
        },
        _ => {},
    }
}

/// Evaluation is sound: a plain expression that evaluates to a constant
/// has that constant as its value in every running program.
pub proof fn lemma_evaluate_is_value(n: Node, env: Env)
    requires
        is_plain(n),
        evaluate(n) is Constant,
    ensures
        value_of(n, env) == Some(evaluate(n)->Constant_0),
    decreases n,
{
    match n {
        Node::Arith { op, lhs, rhs, loc } => {
            lemma_evaluate_is_value(*lhs, env);
            lemma_evaluate_is_value(*rhs, env);
        },
        Node::Relop { op, lhs, rhs, loc } => {
            lemma_evaluate_is_value(*lhs, env);
            lemma_evaluate_is_value(*rhs, env);
        },
        Node::Unary { op, var, loc } => {
            lemma_evaluate_is_value(*var, env);
        },
        _ => {},
    }
}

/// The transfer of a simple instruction is sound: where the state before
/// it describes the running program before it, the state after it
/// describes the running program after it, and the reduced instruction
/// does to the running program what the instruction does.
pub proof fn lemma_step_sound(n: Node, state: Facts, env: Env)
    requires
        is_simple(n),
        describes(state, env),
        step_env(n, env) is Some,
    ensures
        is_simple(reduced(n, state)),
        step_env(reduced(n, state), env) == step_env(n, env),
        describes(transfer(n, state), step_env(n, env).unwrap()),
{
    match n {
        Node::Assignment { name, var, loc } => {
            lemma_reduced_keeps_value(*var, state, env);
            let after = transfer(n, state);
            let value = evaluate(reduced(*var, state));
            if value is Constant {
                lemma_evaluate_is_value(reduced(*var, state), env);
            }
            assert forall|x: Seq<char>| #[trigger] after.contains_key(x) implies (match after[x] {
                Value::Constant(c) => step_env(n, env).unwrap().contains_key(x) && step_env(
                    n,
                    env,
                ).unwrap()[x] == c,
                _ => true,
            }) by {
                if x != name {
                    assert(state.contains_key(x));
                }
            }
        },
        Node::Ret { var, loc } => {
            lemma_reduced_keeps_value(*var, state, env);
        },
        _ => {},
    }
}

/// Constant propagation is sound on straight-line arithmetic: where the
/// entry state of a block of simple instructions describes the running
/// program on entry, and the program runs through the block, the rewritten
/// block leaves the identifiers as the block does, and the state after the
/// block describes them.
pub proof fn lemma_block_sound(insts: Seq<Node>, state: Facts, env: Env)
    requires
        forall|i: int| 0 <= i < insts.len() ==> is_simple(#[trigger] insts[i]),
        describes(state, env),
        run_env(insts, env) is Some,
    ensures
        run_env(rewrite_block(insts, state), env) == run_env(insts, env),
        describes(run_block(insts, state), run_env(insts, env).unwrap()),
    decreases insts.len(),
{
    if insts.len() > 0 {
        let front = insts.drop_last();
        assert forall|i: int| 0 <= i < front.len() implies is_simple(#[trigger] front[i]) by {
            assert(front[i] == insts[i]);
        }
        lemma_block_sound(front, state, env);
        let before = run_env(front, env).unwrap();
        lemma_step_sound(insts.last(), run_block(front, state), before);
        let done = rewrite_block(insts, state);
        assert(done.drop_last() =~= rewrite_block(front, state));
    }
}


/// The join at the entry of a block is sound for what a predecessor
/// knows: where the state of a predecessor describes the running program
/// and binds an identifier to more than `Undefined`, a constant that the
/// join with another state leaves for that identifier is the value that
/// the identifier holds.
pub proof fn lemma_join_keeps_known(own: Facts, other: Facts, env: Env, name: Seq<char>)
    requires
        describes(own, env),
        own.contains_key(name),
        !(own[name] is Undefined),
        join_states(own, other)[name] is Constant,
    ensures
        env.contains_key(name),
        env[name] == join_states(own, other)[name]->Constant_0,
{
    assert(join_states(own, other)[name] == join(lookup(own, name), lookup(other, name)));
}

} // verus!

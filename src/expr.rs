use crate::chunk::{
    ChunkView, OP_ADD, OP_CONSTANT, OP_DIVIDE, OP_MULTIPLY, OP_NEGATE, OP_RETURN, OP_SUBTRACT,
};
use crate::value::Value;
use crate::vm::{transition, Arith, InterpretResult, Step, STACK_MAX};
use vstd::prelude::*;

verus! {

/// The binary arithmetic operators.
#[derive(Clone, Copy, Debug, PartialEq, Eq, Structural)]
pub enum BinOp {
    Add,
    Subtract,
    Multiply,
    Divide,
}

/// An arithmetic expression over constants of a pool, named by index.
pub enum Expr {
    Constant(u8),
    Negate(Box<Expr>),
    Binary(BinOp, Box<Expr>, Box<Expr>),
}

pub open spec fn binop_byte(op: BinOp) -> u8 {
    match op {
        BinOp::Add => OP_ADD,
        BinOp::Subtract => OP_SUBTRACT,
        BinOp::Multiply => OP_MULTIPLY,
        BinOp::Divide => OP_DIVIDE,
    }
}

pub open spec fn binop_arith(op: BinOp, a: Value, b: Value) -> Arith {
    match op {
        BinOp::Add => Arith::Add(a, b),
        BinOp::Subtract => Arith::Subtract(a, b),
        BinOp::Multiply => Arith::Multiply(a, b),
        BinOp::Divide => Arith::Divide(a, b),
    }
}

/// The bytecode of an expression in postfix form: operands first, left
/// before right, then the operator.
pub open spec fn code_of(e: Expr) -> Seq<u8>
    decreases e,
{
    match e {
        Expr::Constant(i) => seq![OP_CONSTANT, i],
        Expr::Negate(x) => code_of(*x) + seq![OP_NEGATE],
        Expr::Binary(op, l, r) => code_of(*l) + code_of(*r) + seq![binop_byte(op)],
    }
}

/// How many instructions the code of an expression holds.
pub open spec fn steps_of(e: Expr) -> nat
    decreases e,
{
    match e {
        Expr::Constant(_) => 1,
        Expr::Negate(x) => steps_of(*x) + 1,
        Expr::Binary(_, l, r) => steps_of(*l) + steps_of(*r) + 1,
    }
}

/// How many stack slots evaluating an expression takes at most.
pub open spec fn depth_of(e: Expr) -> nat
    decreases e,
{
    match e {
        Expr::Constant(_) => 1,
        Expr::Negate(x) => depth_of(*x),
        Expr::Binary(_, l, r) => {
            let dl = depth_of(*l);
            let dr = depth_of(*r) + 1;
            if dl >= dr {
                dl
            } else {
                dr
            }
        },
    }
}

/// Every constant that the expression names is in a pool of `n` values.
pub open spec fn indices_within(e: Expr, n: nat) -> bool
    decreases e,
{
    match e {
        Expr::Constant(i) => (i as nat) < n,
        Expr::Negate(x) => indices_within(*x, n),
        Expr::Binary(_, l, r) => indices_within(*l, n) && indices_within(*r, n),
    }
}

/// The value of an expression, with each operation computed by `f`.
pub open spec fn value_of(e: Expr, pool: Seq<Value>, f: spec_fn(Arith) -> Value) -> Value
    decreases e,
{
    match e {
        Expr::Constant(i) => pool[i as int],
        Expr::Negate(x) => f(Arith::Negate(value_of(*x, pool, f))),
        Expr::Binary(op, l, r) => f(binop_arith(op, value_of(*l, pool, f), value_of(*r, pool, f))),
    }
}

/// The state after `n` steps of a machine whose driver answers every
/// arithmetic step with `f`; none where one of those steps ends the run.
pub open spec fn run_steps(
    c: ChunkView,
    ip: int,
    stack: Seq<Value>,
    f: spec_fn(Arith) -> Value,
    n: nat,
) -> Option<(int, Seq<Value>)>
    decreases n,
{
    if n == 0 {
        Some((ip, stack))
    } else {
        let (ip2, s2, step) = transition(c, ip, stack);
        match step {
            Step::Next => run_steps(c, ip2, s2, f, (n - 1) as nat),
            Step::Compute(a) => run_steps(c, ip2, s2.push(f(a)), f, (n - 1) as nat),
            _ => None,
        }
    }
}

/// How a run ends within `fuel` steps, with the driver answering every
/// arithmetic step with `f`: the outcome, and the value that `RETURN`
/// handed out.
pub open spec fn run(
    c: ChunkView,
    ip: int,
    stack: Seq<Value>,
    f: spec_fn(Arith) -> Value,
    fuel: nat,
) -> Option<(InterpretResult, Option<Value>)>
    decreases fuel,
{
    if fuel == 0 {
        None
    } else {
        let (ip2, s2, step) = transition(c, ip, stack);
        match step {
            Step::Next => run(c, ip2, s2, f, (fuel - 1) as nat),
            Step::Compute(a) => run(c, ip2, s2.push(f(a)), f, (fuel - 1) as nat),
            Step::Return(v) => Some((InterpretResult::InterpretOk, Some(v))),
            Step::Halt(r) => Some((r, None)),
        }
    }
}

proof fn lemma_run_after_steps(
    c: ChunkView,
    ip: int,
    stack: Seq<Value>,
    f: spec_fn(Arith) -> Value,
    n: nat,
    m: nat,
)
    requires
        run_steps(c, ip, stack, f, n) is Some,
    ensures
        run(c, ip, stack, f, n + m) == run(
            c,
            run_steps(c, ip, stack, f, n).unwrap().0,
            run_steps(c, ip, stack, f, n).unwrap().1,
            f,
            m,
        ),
    decreases n,
{
    if n > 0 {
        let (ip2, s2, step) = transition(c, ip, stack);
        match step {
            Step::Next => lemma_run_after_steps(c, ip2, s2, f, (n - 1) as nat, m),
            Step::Compute(a) => lemma_run_after_steps(c, ip2, s2.push(f(a)), f, (n - 1) as nat, m),
            _ => {},
        }
        assert((n + m - 1) as nat == ((n - 1) as nat + m));
    }
}

proof fn lemma_steps_compose(
    c: ChunkView,
    ip: int,
    stack: Seq<Value>,
    f: spec_fn(Arith) -> Value,
    n: nat,
    m: nat,
)
    requires
        run_steps(c, ip, stack, f, n) is Some,
    ensures
        run_steps(c, ip, stack, f, n + m) == run_steps(
            c,
            run_steps(c, ip, stack, f, n).unwrap().0,
            run_steps(c, ip, stack, f, n).unwrap().1,
            f,
            m,
        ),
    decreases n,
{
    if n > 0 {
        let (ip2, s2, step) = transition(c, ip, stack);
        match step {
            Step::Next => lemma_steps_compose(c, ip2, s2, f, (n - 1) as nat, m),
            Step::Compute(a) => lemma_steps_compose(c, ip2, s2.push(f(a)), f, (n - 1) as nat, m),
            _ => {},
        }
        assert((n + m - 1) as nat == ((n - 1) as nat + m));
    }
}

proof fn lemma_code_runs(
    c: ChunkView,
    e: Expr,
    ip: int,
    stack: Seq<Value>,
    f: spec_fn(Arith) -> Value,
)
    requires
        c.wf(),
        0 <= ip,
        ip + code_of(e).len() <= c.code.len(),
        forall|k: int| 0 <= k < code_of(e).len() ==> c.code[ip + k] == #[trigger] code_of(e)[k],
        indices_within(e, c.constants.len()),
        stack.len() + depth_of(e) <= STACK_MAX,
    ensures
        run_steps(c, ip, stack, f, steps_of(e)) == Some(
            (ip + code_of(e).len(), stack.push(value_of(e, c.constants, f))),
        ),
    decreases e,
{
    let pool = c.constants;
    match e {
        Expr::Constant(i) => {
            assert(c.code[ip] == code_of(e)[0]);
            assert(c.code[ip + 1] == code_of(e)[1]);
            assert(run_steps(c, ip + 2, stack.push(pool[i as int]), f, 0) == Some(
                (ip + 2, stack.push(pool[i as int])),
            ));
        },
        Expr::Negate(x) => {
            let cx = code_of(*x);
            assert forall|k: int| 0 <= k < cx.len() implies c.code[ip + k] == #[trigger] cx[k] by {
                assert(code_of(e)[k] == cx[k]);
            }
            lemma_code_runs(c, *x, ip, stack, f);
            lemma_steps_compose(c, ip, stack, f, steps_of(*x), 1);
            let at = ip + cx.len();
            let vx = value_of(*x, pool, f);
            assert(c.code[at] == code_of(e)[cx.len() as int]);
            assert(stack.push(vx).drop_last() =~= stack);
            let (ip2, s2, step) = transition(c, at, stack.push(vx));
            assert(step == Step::Compute(Arith::Negate(vx)));
            assert(run_steps(c, ip2, s2.push(f(Arith::Negate(vx))), f, 0) == Some(
                (ip2, s2.push(f(Arith::Negate(vx)))),
            ));
        },
        Expr::Binary(op, l, r) => {
            let cl = code_of(*l);
            let cr = code_of(*r);
            assert(code_of(e) == cl + cr + seq![binop_byte(op)]);
            assert forall|k: int| 0 <= k < cl.len() implies c.code[ip + k] == #[trigger] cl[k] by {
                assert(code_of(e)[k] == cl[k]);
            }
            assert forall|k: int| 0 <= k < cr.len() implies c.code[(ip + cl.len()) + k]
                == #[trigger] cr[k] by {
                assert(code_of(e)[cl.len() + k] == cr[k]);
            }
            let vl = value_of(*l, pool, f);
            let vr = value_of(*r, pool, f);
            lemma_code_runs(c, *l, ip, stack, f);
            lemma_code_runs(c, *r, ip + cl.len(), stack.push(vl), f);
            lemma_steps_compose(c, ip, stack, f, steps_of(*l), steps_of(*r));
            lemma_steps_compose(c, ip, stack, f, steps_of(*l) + steps_of(*r), 1);
            let at = ip + cl.len() + cr.len();
            let s = stack.push(vl).push(vr);
            assert(c.code[at] == code_of(e)[(cl.len() + cr.len()) as int]);
            assert(s.subrange(0, s.len() - 2) =~= stack);
            let (ip2, s2, step) = transition(c, at, s);
            assert(step == Step::Compute(binop_arith(op, vl, vr)));
            assert(run_steps(c, ip2, s2.push(f(binop_arith(op, vl, vr))), f, 0) == Some(
                (ip2, s2.push(f(binop_arith(op, vl, vr)))),
            ));
        },
    }
}

/// A chunk whose code is an expression in postfix form followed by `RETURN`
/// runs to `InterpretOk` and hands out the expression's value, where the
/// driver answers each arithmetic step with `f`. Each operation reaches `f`
/// with its operands in source order, so with IEEE-754 arithmetic as `f` the
/// value is the double that evaluating the expression left to right gives.
/// The expression must fit the stack and name only constants of the pool.
pub proof fn lemma_expression_result(c: ChunkView, e: Expr, f: spec_fn(Arith) -> Value)
    requires
        c.wf(),
        c.code == code_of(e).push(OP_RETURN),
        indices_within(e, c.constants.len()),
        depth_of(e) <= STACK_MAX,
    ensures
        run(c, 0, Seq::empty(), f, steps_of(e) + 1) == Some(
            (InterpretResult::InterpretOk, Some(value_of(e, c.constants, f))),
        ),
{
    let v = value_of(e, c.constants, f);
    assert forall|k: int| 0 <= k < code_of(e).len() implies c.code[0 + k] == #[trigger] code_of(
        e,
    )[k] by {}
    lemma_code_runs(c, e, 0, Seq::empty(), f);
    lemma_run_after_steps(c, 0, Seq::empty(), f, steps_of(e), 1);
    let at = code_of(e).len() as int;
    assert(c.code[at] == OP_RETURN);
    assert(Seq::<Value>::empty().push(v).last() == v);
}

} // verus!

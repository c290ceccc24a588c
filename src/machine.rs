use vstd::prelude::*;
use crate::error::{Failure, Fault};
use crate::value::{Builtin, Kind, Term, Node, Val, Value, same_terms, val_text};

verus! {

/// Operations on reals; the host that runs the evaluator computes them.
#[derive(Clone, Copy, Debug, PartialEq, Eq, Structural)]
pub enum RealOp {
    Add,
    Sub,
    Mul,
    Div,
    Rem,
    Gt,
    Lt,
    Eq,
}

/// Mathematical model of the evaluator's state.
pub struct Machine {
    /// The operand stack, bottom first.
    pub stack: Seq<Val>,
    /// The body bound to each variable slot.
    pub vars: Seq<Seq<Term>>,
    /// The lines that `print_stack` has produced.
    pub output: Seq<Seq<char>>,
}

impl Machine {
    pub open spec fn empty() -> Machine {
        Machine { stack: Seq::empty(), vars: Seq::empty(), output: Seq::empty() }
    }

    pub open spec fn with_stack(self, stack: Seq<Val>) -> Machine {
        Machine { stack, vars: self.vars, output: self.output }
    }
}

/// The result of running code: the state afterwards, and the error that
/// stopped it, if any. State changed before an error is kept.
pub struct Outcome {
    pub machine: Machine,
    pub error: Option<Failure>,
}

pub open spec fn done(m: Machine) -> Outcome {
    Outcome { machine: m, error: None }
}

pub open spec fn failed(m: Machine, line: usize, column: usize, fault: Fault) -> Outcome {
    Outcome { machine: m, error: Some(Failure { line, column, fault }) }
}

/// What a host's answer must be: a boolean Symbol for a comparison, a Real otherwise.
pub open spec fn answer_shape(op: RealOp, v: Val) -> bool {
    if op == RealOp::Gt || op == RealOp::Lt || op == RealOp::Eq {
        v == boolean(true) || v == boolean(false)
    } else {
        v is Real
    }
}

/// A host for reals answers every question, with an answer of the right shape,
/// and the same question always the same way.
pub open spec fn real_host<R: Fn(RealOp, String, String) -> Value>(host: R) -> bool {
    &&& forall|op: RealOp, x: String, y: String, v: Value| #[trigger] host.ensures((op, x, y), v)
        ==> answer_shape(op, v@)
    &&& forall|op: RealOp, x: String, y: String| #[trigger] host.requires((op, x, y))
    &&& forall|op: RealOp, x1: String, y1: String, x2: String, y2: String, v1: Value, v2: Value|
        x1@ == x2@ && y1@ == y2@ && #[trigger] host.ensures((op, x1, y1), v1) && #[trigger] host.ensures(
            (op, x2, y2),
            v2,
        ) ==> v1@ == v2@
}

/// The host's answer to `op` on two reals given by their texts.
pub open spec fn real_result<R: Fn(RealOp, String, String) -> Value>(
    host: R,
    op: RealOp,
    a: Seq<char>,
    b: Seq<char>,
) -> Val {
    (choose|t: (String, String, Value)| t.0@ == a && t.1@ == b && #[trigger] host.ensures((op, t.0, t.1), t.2)).2@
}

pub proof fn lemma_real_result<R: Fn(RealOp, String, String) -> Value>(
    host: R,
    op: RealOp,
    x: String,
    y: String,
    v: Value,
)
    requires
        real_host(host),
        host.ensures((op, x, y), v),
    ensures
        real_result(host, op, x@, y@) == v@,
{
    let w = (x, y, v);
    assert(w.0@ == x@ && w.1@ == y@ && host.ensures((op, w.0, w.1), w.2));
    let t = choose|t: (String, String, Value)| t.0@ == x@ && t.1@ == y@ && #[trigger] host.ensures((op, t.0, t.1), t.2);
    assert(host.ensures((op, t.0, t.1), t.2));
}

/// The boolean Symbols `t` and `f`.
pub open spec fn boolean(b: bool) -> Val {
    Val::Symbol(if b { "t"@ } else { "f"@ })
}

pub open spec fn abs(a: int) -> nat {
    if a < 0 { (-a) as nat } else { a as nat }
}

/// Integer division rounding toward zero.
pub open spec fn trunc_div(a: int, b: int) -> int {
    let q = (abs(a) / abs(b)) as int;
    if (a < 0) == (b < 0) { q } else { -q }
}

/// The remainder of division rounding toward zero; its sign is that of `a`.
pub open spec fn trunc_rem(a: int, b: int) -> int {
    let r = (abs(a) % abs(b)) as int;
    if a < 0 { -r } else { r }
}

/// An integer result, or an overflow error when it leaves the 32-bit range.
pub open spec fn checked(x: int) -> Result<Val, Fault> {
    if i32::MIN <= x <= i32::MAX {
        Ok(Val::Integer(x as i32))
    } else {
        Err(Fault::Overflow)
    }
}

pub open spec fn int_arith(op: Builtin, a: int, b: int) -> Result<Val, Fault> {
    match op {
        Builtin::Add => checked(a + b),
        Builtin::Sub => checked(a - b),
        Builtin::Mul => checked(a * b),
        Builtin::Div => if b == 0 { Err(Fault::DivisionByZero) } else { checked(trunc_div(a, b)) },
        _ => if b == 0 { Err(Fault::DivisionByZero) } else { checked(trunc_rem(a, b)) },
    }
}

pub open spec fn real_op(op: Builtin) -> RealOp {
    match op {
        Builtin::Add => RealOp::Add,
        Builtin::Sub => RealOp::Sub,
        Builtin::Mul => RealOp::Mul,
        Builtin::Div => RealOp::Div,
        Builtin::Mod => RealOp::Rem,
        Builtin::Gt => RealOp::Gt,
        Builtin::Lt => RealOp::Lt,
        _ => RealOp::Eq,
    }
}

/// Lexicographic order of character sequences, by code point.
pub open spec fn seq_less(a: Seq<char>, b: Seq<char>) -> bool
    decreases a.len(),
{
    if a.len() == 0 {
        b.len() > 0
    } else if b.len() == 0 {
        false
    } else if a[0] != b[0] {
        (a[0] as u32) < (b[0] as u32)
    } else {
        seq_less(a.drop_first(), b.drop_first())
    }
}

pub open spec fn is_arith(op: Builtin) -> bool {
    op == Builtin::Add || op == Builtin::Sub || op == Builtin::Mul || op == Builtin::Div || op
        == Builtin::Mod
}

pub open spec fn is_binary(op: Builtin) -> bool {
    is_arith(op) || op == Builtin::Cat || op == Builtin::Gt || op == Builtin::Lt || op
        == Builtin::Eq
}

/// `lhs op rhs` for the arithmetic operations.
pub open spec fn arith<R: Fn(RealOp, String, String) -> Value>(
    op: Builtin,
    lhs: Val,
    rhs: Val,
    host: R,
) -> Result<Val, Fault> {
    match lhs {
        Val::Integer(a) => match rhs {
            Val::Integer(b) => int_arith(op, a as int, b as int),
            _ => Err(Fault::TypeMismatch { expected: Kind::Integer, found: rhs.kind() }),
        },
        Val::Real(a) => match rhs {
            Val::Real(b) => Ok(real_result(host, real_op(op), a, b)),
            _ => Err(Fault::TypeMismatch { expected: Kind::Real, found: rhs.kind() }),
        },
        _ => Err(Fault::NotNumeric { found: lhs.kind() }),
    }
}

/// `lhs cat rhs`: the concatenation of two Strings.
pub open spec fn concat(lhs: Val, rhs: Val) -> Result<Val, Fault> {
    match lhs {
        Val::Str(a) => match rhs {
            Val::Str(b) => Ok(Val::Str(a + b)),
            _ => Err(Fault::TypeMismatch { expected: Kind::String, found: rhs.kind() }),
        },
        _ => Err(Fault::TypeMismatch { expected: Kind::String, found: lhs.kind() }),
    }
}

/// `lhs gt rhs` or `lhs lt rhs`.
pub open spec fn compare<R: Fn(RealOp, String, String) -> Value>(
    op: Builtin,
    lhs: Val,
    rhs: Val,
    host: R,
) -> Result<Val, Fault> {
    let greater = op == Builtin::Gt;
    match lhs {
        Val::Integer(a) => match rhs {
            Val::Integer(b) => Ok(boolean(if greater { a > b } else { a < b })),
            _ => Err(Fault::TypeMismatch { expected: Kind::Integer, found: rhs.kind() }),
        },
        Val::Real(a) => match rhs {
            Val::Real(b) => Ok(real_result(host, real_op(op), a, b)),
            _ => Err(Fault::TypeMismatch { expected: Kind::Real, found: rhs.kind() }),
        },
        Val::Str(a) => match rhs {
            Val::Str(b) => Ok(boolean(if greater { seq_less(b, a) } else { seq_less(a, b) })),
            _ => Err(Fault::TypeMismatch { expected: Kind::String, found: rhs.kind() }),
        },
        _ => Err(Fault::NotOrdered { found: lhs.kind() }),
    }
}

/// `lhs eq rhs`: true only for two values of one kind with equal content;
/// Quotes compare their bodies, ignoring positions.
pub open spec fn equal<R: Fn(RealOp, String, String) -> Value>(lhs: Val, rhs: Val, host: R) -> Val {
    match (lhs, rhs) {
        (Val::Integer(a), Val::Integer(b)) => boolean(a == b),
        (Val::Real(a), Val::Real(b)) => real_result(host, RealOp::Eq, a, b),
        (Val::Str(a), Val::Str(b)) => boolean(a == b),
        (Val::Symbol(a), Val::Symbol(b)) => boolean(a == b),
        (Val::Quote(a), Val::Quote(b)) => boolean(same_terms(a, b)),
        _ => boolean(false),
    }
}

pub open spec fn binary_result<R: Fn(RealOp, String, String) -> Value>(
    op: Builtin,
    lhs: Val,
    rhs: Val,
    host: R,
) -> Result<Val, Fault> {
    if is_arith(op) {
        arith(op, lhs, rhs, host)
    } else if op == Builtin::Cat {
        concat(lhs, rhs)
    } else if op == Builtin::Eq {
        Ok(equal(lhs, rhs, host))
    } else {
        compare(op, lhs, rhs, host)
    }
}

/// A binary operation pops the right operand, then the left one, and pushes
/// `lhs op rhs`. Operands popped before an error stay popped.
pub open spec fn binary_step<R: Fn(RealOp, String, String) -> Value>(
    op: Builtin,
    m: Machine,
    line: usize,
    column: usize,
    host: R,
) -> Outcome {
    let s = m.stack;
    if s.len() == 0 {
        failed(m, line, column, Fault::StackUnderflow)
    } else if s.len() == 1 {
        failed(m.with_stack(Seq::empty()), line, column, Fault::StackUnderflow)
    } else {
        let rest = s.subrange(0, s.len() - 2);
        match binary_result(op, s[s.len() - 2], s.last(), host) {
            Ok(v) => done(m.with_stack(rest.push(v))),
            Err(f) => failed(m.with_stack(rest), line, column, f),
        }
    }
}

/// The display texts of values, separated by single spaces.
pub open spec fn vals_text(s: Seq<Val>) -> Seq<char>
    decreases s.len(),
{
    if s.len() == 0 {
        Seq::empty()
    } else if s.len() == 1 {
        val_text(s[0], true)
    } else {
        vals_text(s.drop_last()) + seq![' '] + val_text(s.last(), true)
    }
}

/// The text that `print_stack` emits for a stack.
pub open spec fn stack_text(s: Seq<Val>) -> Seq<char> {
    seq!['['] + vals_text(s) + seq![']']
}

/// The builtins that do not run code: everything but `app` and the binary ones.
pub open spec fn stack_step(op: Builtin, m: Machine, line: usize, column: usize) -> Outcome {
    let s = m.stack;
    match op {
        Builtin::PrintStack => done(
            Machine { stack: s, vars: m.vars, output: m.output.push(stack_text(s)) },
        ),
        Builtin::Swap => if s.len() == 0 {
            failed(m, line, column, Fault::StackUnderflow)
        } else if s.len() == 1 {
            failed(m.with_stack(Seq::empty()), line, column, Fault::StackUnderflow)
        } else {
            done(m.with_stack(s.subrange(0, s.len() - 2).push(s.last()).push(s[s.len() - 2])))
        },
        _ => if s.len() == 0 {
            failed(m, line, column, Fault::StackUnderflow)
        } else {
            let rest = s.drop_last();
            let v = s.last();
            match op {
                Builtin::Dup => done(m.with_stack(s.push(v))),
                Builtin::Not => match v {
                    Val::Symbol(t) => if t == "t"@ {
                        done(m.with_stack(rest.push(boolean(false))))
                    } else if t == "f"@ {
                        done(m.with_stack(rest.push(boolean(true))))
                    } else {
                        failed(m.with_stack(rest), line, column, Fault::NotBoolean(t))
                    },
                    _ => failed(
                        m.with_stack(rest),
                        line,
                        column,
                        Fault::TypeMismatch { expected: Kind::Symbol, found: v.kind() },
                    ),
                },
                _ => done(m.with_stack(rest)),
            }
        },
    }
}

/// Runs `code` from left to right at nesting budget `depth`, stopping at the first error.
pub open spec fn run_seq<R: Fn(RealOp, String, String) -> Value>(
    depth: nat,
    code: Seq<Term>,
    m: Machine,
    host: R,
) -> Outcome
    decreases depth, code.len(), 2nat,
{
    if code.len() == 0 {
        done(m)
    } else {
        let o = run_seq(depth, code.drop_last(), m, host);
        if o.error is Some {
            o
        } else {
            run_term(depth, code.last(), o.machine, host)
        }
    }
}

/// Runs one expression. A variable reference runs the body bound to it now,
/// one level deeper; a Store only records its body.
pub open spec fn run_term<R: Fn(RealOp, String, String) -> Value>(
    depth: nat,
    t: Term,
    m: Machine,
    host: R,
) -> Outcome
    decreases depth, 0nat, 1nat,
{
    match t.node {
        Node::Symbol(s) => done(m.with_stack(m.stack.push(Val::Symbol(s)))),
        Node::Str(s) => done(m.with_stack(m.stack.push(Val::Str(s)))),
        Node::Integer(i) => done(m.with_stack(m.stack.push(Val::Integer(i)))),
        Node::Real(s) => done(m.with_stack(m.stack.push(Val::Real(s)))),
        Node::Quote(c) => done(m.with_stack(m.stack.push(Val::Quote(c)))),
        Node::Store(i, c) => done(
            Machine {
                stack: m.stack,
                vars: if (i as int) < m.vars.len() {
                    m.vars.update(i as int, c)
                } else {
                    m.vars.push(c)
                },
                output: m.output,
            },
        ),
        Node::Var(i) => if (i as int) >= m.vars.len() {
            failed(m, t.line, t.column, Fault::Unbound(i))
        } else if depth == 0 {
            failed(m, t.line, t.column, Fault::TooDeep)
        } else {
            run_seq((depth - 1) as nat, m.vars[i as int], m, host)
        },
        Node::Builtin(b) => if b == Builtin::App {
            run_app(depth, m, t.line, t.column, host)
        } else if is_binary(b) {
            binary_step(b, m, t.line, t.column, host)
        } else {
            stack_step(b, m, t.line, t.column)
        },
    }
}

/// `app` pops a Quote and runs its body one level deeper.
pub open spec fn run_app<R: Fn(RealOp, String, String) -> Value>(
    depth: nat,
    m: Machine,
    line: usize,
    column: usize,
    host: R,
) -> Outcome
    decreases depth, 0nat, 0nat,
{
    let s = m.stack;
    if s.len() == 0 {
        failed(m, line, column, Fault::StackUnderflow)
    } else {
        let m1 = m.with_stack(s.drop_last());
        match s.last() {
            Val::Quote(c) => if depth == 0 {
                failed(m1, line, column, Fault::TooDeep)
            } else {
                run_seq((depth - 1) as nat, c, m1, host)
            },
            v => failed(
                m1,
                line,
                column,
                Fault::TypeMismatch { expected: Kind::Quote, found: v.kind() },
            ),
        }
    }
}

/// Once a prefix of the code has failed, the rest of it does not run.
pub proof fn lemma_run_seq_stops<R: Fn(RealOp, String, String) -> Value>(
    depth: nat,
    code: Seq<Term>,
    k: int,
    m: Machine,
    host: R,
)
    requires
        0 <= k <= code.len(),
        run_seq(depth, code.subrange(0, k), m, host).error is Some,
    ensures
        run_seq(depth, code, m, host) == run_seq(depth, code.subrange(0, k), m, host),
    decreases code.len(),
{
    if code.len() == k {
        assert(code.subrange(0, k) =~= code);
    } else {
        assert(code.drop_last().subrange(0, k) =~= code.subrange(0, k));
        lemma_run_seq_stops(depth, code.drop_last(), k, m, host);
    }
}

} // verus!

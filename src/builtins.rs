use vstd::prelude::*;
use crate::error::{Error, ErrorKind, Fault};
use crate::eval::{Evaluator, MAX_DEPTH, settles};
use crate::machine::{
    RealOp, binary_result, binary_step, boolean, int_arith, is_arith, is_binary, lemma_real_result,
    real_host, real_op, run_app, run_term, stack_step,
};
use crate::text::{owned, push_text, text_less};
use crate::value::{Builtin, Kind, Node, Term, Val, Value, same_exprs};

verus! {

fn boolean_value(b: bool) -> (v: Value)
    ensures
        v@ == boolean(b),
{
    if b {
        Value::Symbol(owned("t"))
    } else {
        Value::Symbol(owned("f"))
    }
}

fn real_op_of(op: Builtin) -> (r: RealOp)
    ensures
        r == real_op(op),
{
    match op {
        Builtin::Add => RealOp::Add,
        Builtin::Sub => RealOp::Sub,
        Builtin::Mul => RealOp::Mul,
        Builtin::Div => RealOp::Div,
        Builtin::Mod => RealOp::Rem,
        Builtin::Gt => RealOp::Gt,
        Builtin::Lt => RealOp::Lt,
        _ => RealOp::Eq,
    }
}

fn magnitude(x: i64) -> (r: u64)
    requires
        -0x8000_0000 <= x <= 0x8000_0000,
    ensures
        r as int == crate::machine::abs(x as int),
{
    if x < 0 {
        (0 - x) as u64
    } else {
        x as u64
    }
}

/// `a op b` on integers, checked for overflow and division by zero.
fn int_value(op: Builtin, a: i32, b: i32) -> (r: Result<Value, ErrorKind>)
    requires
        is_arith(op),
    ensures
        match r {
            Ok(v) => int_arith(op, a as int, b as int) == Ok::<Val, Fault>(v@),
            Err(k) => int_arith(op, a as int, b as int) == Err::<Val, Fault>(k@),
        },
{
    let x = a as i64;
    let y = b as i64;
    let z: i64 = if op == Builtin::Add {
        x + y
    } else if op == Builtin::Sub {
        x - y
    } else if op == Builtin::Mul {
        assert(-0x4000_0000_0000_0000 <= x * y <= 0x4000_0000_0000_0000) by (nonlinear_arith)
            requires
                -0x8000_0000 <= x <= 0x8000_0000,
                -0x8000_0000 <= y <= 0x8000_0000,
        ;
        x * y
    } else {
        if b == 0 {
            return Err(ErrorKind::DivisionByZero);
        }
        let ua = magnitude(x);
        let ub = magnitude(y);
        if op == Builtin::Div {
            let q = ua / ub;
            assert(q <= ua) by (nonlinear_arith)
                requires
                    q == ua / ub,
                    ub >= 1,
            ;
            if (x < 0) == (y < 0) {
                q as i64
            } else {
                -(q as i64)
            }
        } else {
            let m = ua % ub;
            assert(m < ub) by (nonlinear_arith)
                requires
                    m == ua % ub,
                    ub >= 1,
            ;
            if x < 0 {
                -(m as i64)
            } else {
                m as i64
            }
        }
    };
    if z < -0x8000_0000 || z > 0x7fff_ffff {
        Err(ErrorKind::Overflow)
    } else {
        Ok(Value::Integer(z as i32))
    }
}

/// `lhs op rhs` for a binary builtin, or the error it gives.
fn binary_value<R: Fn(RealOp, String, String) -> Value>(
    op: Builtin,
    lhs: Value,
    rhs: Value,
    host: &R,
) -> (r: Result<Value, ErrorKind>)
    requires
        is_binary(op),
        real_host(*host),
    ensures
        match r {
            Ok(v) => binary_result(op, lhs@, rhs@, *host) == Ok::<Val, Fault>(v@),
            Err(k) => binary_result(op, lhs@, rhs@, *host) == Err::<Val, Fault>(k@),
        },
{
    let rk = rhs.kind();
    let lk = lhs.kind();
    if op == Builtin::Cat {
        match (lhs, rhs) {
            (Value::String(a), Value::String(b)) => {
                let mut s = a;
                push_text(&mut s, b.as_str());
                Ok(Value::String(s))
            },
            (Value::String(_), _) => Err(ErrorKind::TypeMismatch { expected: Kind::String, found: rk }),
            _ => Err(ErrorKind::TypeMismatch { expected: Kind::String, found: lk }),
        }
    } else if op == Builtin::Eq {
        match (lhs, rhs) {
            (Value::Integer(a), Value::Integer(b)) => Ok(boolean_value(a == b)),
            (Value::Real(a), Value::Real(b)) => {
                let v = host(RealOp::Eq, a, b);
                proof {
                    lemma_real_result(*host, RealOp::Eq, a, b, v);
                }
                Ok(v)
            },
            (Value::String(a), Value::String(b)) => Ok(boolean_value(a == b)),
            (Value::Symbol(a), Value::Symbol(b)) => Ok(boolean_value(a == b)),
            (Value::Quote(a), Value::Quote(b)) => Ok(boolean_value(same_exprs(&a, &b))),
            _ => Ok(boolean_value(false)),
        }
    } else if is_arith_exec(op) {
        match (lhs, rhs) {
            (Value::Integer(a), Value::Integer(b)) => int_value(op, a, b),
            (Value::Integer(_), _) => Err(ErrorKind::TypeMismatch { expected: Kind::Integer, found: rk }),
            (Value::Real(a), Value::Real(b)) => {
                let ro = real_op_of(op);
                let v = host(ro, a, b);
                proof {
                    lemma_real_result(*host, ro, a, b, v);
                }
                Ok(v)
            },
            (Value::Real(_), _) => Err(ErrorKind::TypeMismatch { expected: Kind::Real, found: rk }),
            _ => Err(ErrorKind::NotNumeric { found: lk }),
        }
    } else {
        let greater = op == Builtin::Gt;
        match (lhs, rhs) {
            (Value::Integer(a), Value::Integer(b)) => Ok(boolean_value(if greater { a > b } else { a < b })),
            (Value::Integer(_), _) => Err(ErrorKind::TypeMismatch { expected: Kind::Integer, found: rk }),
            (Value::Real(a), Value::Real(b)) => {
                let ro = real_op_of(op);
                let v = host(ro, a, b);
                proof {
                    lemma_real_result(*host, ro, a, b, v);
                }
                Ok(v)
            },
            (Value::Real(_), _) => Err(ErrorKind::TypeMismatch { expected: Kind::Real, found: rk }),
            (Value::String(a), Value::String(b)) => Ok(boolean_value(if greater { text_less(&b, &a) } else { text_less(&a, &b) })),
            (Value::String(_), _) => Err(ErrorKind::TypeMismatch { expected: Kind::String, found: rk }),
            _ => Err(ErrorKind::NotOrdered { found: lk }),
        }
    }
}

fn is_arith_exec(op: Builtin) -> (r: bool)
    ensures
        r == is_arith(op),
{
    op == Builtin::Add || op == Builtin::Sub || op == Builtin::Mul || op == Builtin::Div || op == Builtin::Mod
}

impl Evaluator {
    fn binary<R: Fn(RealOp, String, String) -> Value>(
        &mut self,
        op: Builtin,
        line: usize,
        column: usize,
        host: &R,
    ) -> (r: Result<(), Error>)
        requires
            is_binary(op),
            real_host(*host),
        ensures
            final(self)@ == binary_step(op, old(self)@, line, column, *host).machine,
            settles(r, binary_step(op, old(self)@, line, column, *host)),
            final(self).pending() == old(self).pending(),
    {
        let ghost s = self@.stack;
        let rhs = match self.pop(line, column) {
            Ok(v) => v,
            Err(e) => return Err(e),
        };
        let lhs = match self.pop(line, column) {
            Ok(v) => v,
            Err(e) => {
                assert(s.drop_last() =~= Seq::<Val>::empty());
                return Err(e);
            },
        };
        assert(s.drop_last().drop_last() =~= s.subrange(0, s.len() - 2));
        match binary_value(op, lhs, rhs, host) {
            Ok(v) => self.push(v),
            Err(k) => Err(Error::new(line, column, k)),
        }
    }

    /// The builtins that only rearrange or inspect the stack.
    fn stack_op(&mut self, op: Builtin, line: usize, column: usize) -> (r: Result<(), Error>)
        requires
            !is_binary(op),
            op != Builtin::App,
        ensures
            final(self)@ == stack_step(op, old(self)@, line, column).machine,
            settles(r, stack_step(op, old(self)@, line, column)),
            final(self).pending() == old(self).pending(),
    {
        let ghost s = self@.stack;
        if op == Builtin::PrintStack {
            self.emit_stack();
            return Ok(());
        }
        if op == Builtin::Swap {
            let a = match self.pop(line, column) {
                Ok(v) => v,
                Err(e) => return Err(e),
            };
            let b = match self.pop(line, column) {
                Ok(v) => v,
                Err(e) => {
                    assert(s.drop_last() =~= Seq::<Val>::empty());
                    return Err(e);
                },
            };
            let _ = self.push(a);
            let r = self.push(b);
            assert(s.drop_last().drop_last().push(s.last()).push(s[s.len() - 2]) =~= s.subrange(0, s.len() - 2).push(s.last()).push(s[s.len() - 2]));
            return r;
        }
        let v = match self.pop(line, column) {
            Ok(v) => v,
            Err(e) => return Err(e),
        };
        if op == Builtin::Dup {
            let c = v.deep_copy();
            let _ = self.push(c);
            let r = self.push(v);
            assert(s.drop_last().push(s.last()).push(s.last()) =~= s.push(s.last()));
            r
        } else if op == Builtin::Not {
            match v {
                Value::Symbol(t) => {
                    if t == owned("t") {
                        self.push(boolean_value(false))
                    } else if t == owned("f") {
                        self.push(boolean_value(true))
                    } else {
                        Err(Error::new(line, column, ErrorKind::NotBoolean(t)))
                    }
                },
                _ => Err(Error::new(line, column, ErrorKind::TypeMismatch { expected: Kind::Symbol, found: v.kind() })),
            }
        } else {
            Ok(())
        }
    }

    /// Dispatches a builtin at nesting budget `depth`.
    pub(crate) fn apply_builtin<R: Fn(RealOp, String, String) -> Value>(
        &mut self,
        op: Builtin,
        line: usize,
        column: usize,
        depth: usize,
        host: &R,
    ) -> (r: Result<(), Error>)
        requires
            real_host(*host),
        ensures
            final(self)@ == run_term(depth as nat, (Term { node: Node::Builtin(op), line, column }), old(self)@, *host).machine,
            settles(r, run_term(depth as nat, (Term { node: Node::Builtin(op), line, column }), old(self)@, *host)),
            final(self).pending() == old(self).pending(),
        decreases depth, 0usize, 1usize,
    {
        if op == Builtin::App {
            self.run_quote(line, column, depth, host)
        } else if is_binary_exec(op) {
            self.binary(op, line, column, host)
        } else {
            self.stack_op(op, line, column)
        }
    }

    /// Pops a Quote and runs its body at nesting budget `depth - 1`.
    pub(crate) fn run_quote<R: Fn(RealOp, String, String) -> Value>(
        &mut self,
        line: usize,
        column: usize,
        depth: usize,
        host: &R,
    ) -> (r: Result<(), Error>)
        requires
            real_host(*host),
        ensures
            final(self)@ == run_app(depth as nat, old(self)@, line, column, *host).machine,
            settles(r, run_app(depth as nat, old(self)@, line, column, *host)),
            final(self).pending() == old(self).pending(),
        decreases depth, 0usize, 0usize,
    {
        let val = match self.pop(line, column) {
            Ok(v) => v,
            Err(e) => return Err(e),
        };
        match val {
            Value::Quote(body) => {
                if depth == 0 {
                    Err(Error::new(line, column, ErrorKind::TooDeep))
                } else {
                    self.eval_seq(&body, depth - 1, host)
                }
            },
            _ => Err(Error::new(line, column, ErrorKind::TypeMismatch { expected: Kind::Quote, found: val.kind() })),
        }
    }
}

impl Evaluator {
    /// `a b add` pushes `a + b`: Integers checked for overflow, Reals through the host.
    pub fn add<R: Fn(RealOp, String, String) -> Value>(&mut self, line: usize, column: usize, host: &R) -> (r: Result<(), Error>)
        requires
            real_host(*host),
        ensures
            final(self)@ == binary_step(Builtin::Add, old(self)@, line, column, *host).machine,
            settles(r, binary_step(Builtin::Add, old(self)@, line, column, *host)),
            final(self).pending() == old(self).pending(),
    {
        self.binary(Builtin::Add, line, column, host)
    }
    /// `a b sub` pushes `a - b`.
    pub fn sub<R: Fn(RealOp, String, String) -> Value>(&mut self, line: usize, column: usize, host: &R) -> (r: Result<(), Error>)
        requires
            real_host(*host),
        ensures
            final(self)@ == binary_step(Builtin::Sub, old(self)@, line, column, *host).machine,
            settles(r, binary_step(Builtin::Sub, old(self)@, line, column, *host)),
            final(self).pending() == old(self).pending(),
    {
        self.binary(Builtin::Sub, line, column, host)
    }
    /// `a b mul` pushes `a * b`.
    pub fn mul<R: Fn(RealOp, String, String) -> Value>(&mut self, line: usize, column: usize, host: &R) -> (r: Result<(), Error>)
        requires
            real_host(*host),
        ensures
            final(self)@ == binary_step(Builtin::Mul, old(self)@, line, column, *host).machine,
            settles(r, binary_step(Builtin::Mul, old(self)@, line, column, *host)),
            final(self).pending() == old(self).pending(),
    {
        self.binary(Builtin::Mul, line, column, host)
    }
    /// `a b div` pushes `a / b`, rounding toward zero; a zero divisor is an error.
    pub fn div<R: Fn(RealOp, String, String) -> Value>(&mut self, line: usize, column: usize, host: &R) -> (r: Result<(), Error>)
        requires
            real_host(*host),
        ensures
            final(self)@ == binary_step(Builtin::Div, old(self)@, line, column, *host).machine,
            settles(r, binary_step(Builtin::Div, old(self)@, line, column, *host)),
            final(self).pending() == old(self).pending(),
    {
        self.binary(Builtin::Div, line, column, host)
    }
    /// `a b %` pushes the remainder of `a / b`; a zero divisor is an error.
    pub fn modulo<R: Fn(RealOp, String, String) -> Value>(&mut self, line: usize, column: usize, host: &R) -> (r: Result<(), Error>)
        requires
            real_host(*host),
        ensures
            final(self)@ == binary_step(Builtin::Mod, old(self)@, line, column, *host).machine,
            settles(r, binary_step(Builtin::Mod, old(self)@, line, column, *host)),
            final(self).pending() == old(self).pending(),
    {
        self.binary(Builtin::Mod, line, column, host)
    }
    /// `a b cat` pushes the concatenation of two Strings.
    pub fn cat<R: Fn(RealOp, String, String) -> Value>(&mut self, line: usize, column: usize, host: &R) -> (r: Result<(), Error>)
        requires
            real_host(*host),
        ensures
            final(self)@ == binary_step(Builtin::Cat, old(self)@, line, column, *host).machine,
            settles(r, binary_step(Builtin::Cat, old(self)@, line, column, *host)),
            final(self).pending() == old(self).pending(),
    {
        self.binary(Builtin::Cat, line, column, host)
    }
    /// `a b eq` pushes `t` when both have one kind and equal content, else `f`; never fails on kinds.
    pub fn eq<R: Fn(RealOp, String, String) -> Value>(&mut self, line: usize, column: usize, host: &R) -> (r: Result<(), Error>)
        requires
            real_host(*host),
        ensures
            final(self)@ == binary_step(Builtin::Eq, old(self)@, line, column, *host).machine,
            settles(r, binary_step(Builtin::Eq, old(self)@, line, column, *host)),
            final(self).pending() == old(self).pending(),
    {
        self.binary(Builtin::Eq, line, column, host)
    }
    /// `a b gt` pushes whether `a > b`.
    pub fn gt<R: Fn(RealOp, String, String) -> Value>(&mut self, line: usize, column: usize, host: &R) -> (r: Result<(), Error>)
        requires
            real_host(*host),
        ensures
            final(self)@ == binary_step(Builtin::Gt, old(self)@, line, column, *host).machine,
            settles(r, binary_step(Builtin::Gt, old(self)@, line, column, *host)),
            final(self).pending() == old(self).pending(),
    {
        self.binary(Builtin::Gt, line, column, host)
    }
    /// `a b lt` pushes whether `a < b`.
    pub fn lt<R: Fn(RealOp, String, String) -> Value>(&mut self, line: usize, column: usize, host: &R) -> (r: Result<(), Error>)
        requires
            real_host(*host),
        ensures
            final(self)@ == binary_step(Builtin::Lt, old(self)@, line, column, *host).machine,
            settles(r, binary_step(Builtin::Lt, old(self)@, line, column, *host)),
            final(self).pending() == old(self).pending(),
    {
        self.binary(Builtin::Lt, line, column, host)
    }
    /// Pushes a copy of the top of the stack.
    pub fn dup(&mut self, line: usize, column: usize) -> (r: Result<(), Error>)
        ensures
            final(self)@ == stack_step(Builtin::Dup, old(self)@, line, column).machine,
            settles(r, stack_step(Builtin::Dup, old(self)@, line, column)),
            final(self).pending() == old(self).pending(),
    {
        self.stack_op(Builtin::Dup, line, column)
    }
    /// Discards the top of the stack.
    pub fn pop_stack(&mut self, line: usize, column: usize) -> (r: Result<(), Error>)
        ensures
            final(self)@ == stack_step(Builtin::Pop, old(self)@, line, column).machine,
            settles(r, stack_step(Builtin::Pop, old(self)@, line, column)),
            final(self).pending() == old(self).pending(),
    {
        self.stack_op(Builtin::Pop, line, column)
    }
    /// Exchanges the top two entries of the stack.
    pub fn swap(&mut self, line: usize, column: usize) -> (r: Result<(), Error>)
        ensures
            final(self)@ == stack_step(Builtin::Swap, old(self)@, line, column).machine,
            settles(r, stack_step(Builtin::Swap, old(self)@, line, column)),
            final(self).pending() == old(self).pending(),
    {
        self.stack_op(Builtin::Swap, line, column)
    }
    /// Negates the boolean Symbol on top of the stack.
    pub fn not(&mut self, line: usize, column: usize) -> (r: Result<(), Error>)
        ensures
            final(self)@ == stack_step(Builtin::Not, old(self)@, line, column).machine,
            settles(r, stack_step(Builtin::Not, old(self)@, line, column)),
            final(self).pending() == old(self).pending(),
    {
        self.stack_op(Builtin::Not, line, column)
    }
    /// Appends the text of the whole stack to the output.
    pub fn print_stack(&mut self, line: usize, column: usize) -> (r: Result<(), Error>)
        ensures
            final(self)@ == stack_step(Builtin::PrintStack, old(self)@, line, column).machine,
            settles(r, stack_step(Builtin::PrintStack, old(self)@, line, column)),
            final(self).pending() == old(self).pending(),
    {
        self.stack_op(Builtin::PrintStack, line, column)
    }
    /// Pops a Quote and runs its body in place.
    pub fn app<R: Fn(RealOp, String, String) -> Value>(&mut self, line: usize, column: usize, host: &R) -> (r: Result<(), Error>)
        requires
            real_host(*host),
        ensures
            final(self)@ == run_app(MAX_DEPTH as nat, old(self)@, line, column, *host).machine,
            settles(r, run_app(MAX_DEPTH as nat, old(self)@, line, column, *host)),
            final(self).pending() == old(self).pending(),
    {
        self.run_quote(line, column, MAX_DEPTH, host)
    }
}

fn is_binary_exec(op: Builtin) -> (r: bool)
    ensures
        r == is_binary(op),
{
    is_arith_exec(op) || op == Builtin::Cat || op == Builtin::Gt || op == Builtin::Lt || op == Builtin::Eq
}

} // verus!

use vstd::prelude::*;
use crate::error::{Error, ErrorKind, Fault};
use crate::machine::{Machine, Outcome, RealOp, lemma_run_seq_stops, real_host, run_seq, run_term, stack_text, vals_text};
use crate::value::{Expr, ExprT, Term, Val, Value, copy_exprs, lemma_terms_of, lemma_terms_of_extend, lemma_terms_of_prefix, terms_of, val_text};
use crate::text::{push_char, push_text};

verus! {

/// How deeply variable bodies and quotes may run inside one another.
pub const MAX_DEPTH: usize = 512;

/// Whether a call's result agrees with the outcome the semantics gives.
pub open spec fn settles(r: Result<(), Error>, o: Outcome) -> bool {
    match r {
        Ok(_) => o.error is None,
        Err(e) => o.error == Some(e@),
    }
}

/// The stack machine: an operand stack and a table of variable bindings that
/// persist across evaluations, and the expressions to evaluate next.
pub struct Evaluator {
    stack: Vec<Value>,
    vars: Vec<Vec<Expr>>,
    input: Vec<Expr>,
    output: Vec<String>,
}

impl View for Evaluator {
    type V = Machine;

    closed spec fn view(&self) -> Machine {
        Machine {
            stack: self.stack@.map_values(|v: Value| v@),
            vars: self.vars@.map_values(|c: Vec<Expr>| terms_of(c@)),
            output: self.output@.map_values(|s: String| s@),
        }
    }
}

impl Evaluator {
    /// The expressions that `eval` runs.
    pub closed spec fn pending(&self) -> Seq<Term> {
        terms_of(self.input@)
    }

    /// A machine with an empty stack and no bindings, to run `input`.
    pub fn new(input: Vec<Expr>) -> (r: Evaluator)
        ensures
            r@ == Machine::empty(),
            r.pending() == terms_of(input@),
    {
        let r = Evaluator { stack: Vec::new(), vars: Vec::new(), input, output: Vec::new() };
        assert(r@.stack =~= Machine::empty().stack);
        assert(r@.vars =~= Machine::empty().vars);
        assert(r@.output =~= Machine::empty().output);
        r
    }

    /// Replaces the expressions to run; the stack and bindings stay.
    pub fn update(&mut self, expressions: Vec<Expr>)
        ensures
            final(self)@ == old(self)@,
            final(self).pending() == terms_of(expressions@),
    {
        self.input = expressions;
    }

    pub fn push(&mut self, val: Value) -> (r: Result<(), Error>)
        ensures
            final(self)@ == old(self)@.with_stack(old(self)@.stack.push(val@)),
            final(self).pending() == old(self).pending(),
            r is Ok,
    {
        self.stack.push(val);
        assert(self@.stack =~= old(self)@.stack.push(val@));
        Ok(())
    }

    /// Removes the top of the stack; on an empty stack, fails with a stack underflow
    /// at the given position and changes nothing.
    pub fn pop(&mut self, line: usize, column: usize) -> (r: Result<Value, Error>)
        ensures
            final(self).pending() == old(self).pending(),
            old(self)@.stack.len() == 0 ==> final(self)@ == old(self)@,
            old(self)@.stack.len() == 0 ==> (r matches Err(e) && e@ == (crate::error::Failure {
                line,
                column,
                fault: Fault::StackUnderflow,
            })),
            old(self)@.stack.len() > 0 ==> final(self)@ == old(self)@.with_stack(
                old(self)@.stack.drop_last(),
            ),
            old(self)@.stack.len() > 0 ==> (r matches Ok(v) && v@ == old(self)@.stack.last()),
    {
        match self.stack.pop() {
            Some(v) => {
                assert(self@.stack =~= old(self)@.stack.drop_last());
                Ok(v)
            },
            None => Err(Error::new(line, column, ErrorKind::StackUnderflow)),
        }
    }

    /// Appends the text of the whole stack to the output.
    pub(crate) fn emit_stack(&mut self)
        ensures
            final(self)@ == (Machine {
                stack: old(self)@.stack,
                vars: old(self)@.vars,
                output: old(self)@.output.push(stack_text(old(self)@.stack)),
            }),
            final(self).pending() == old(self).pending(),
    {
        let mut s = String::new();
        push_char(&mut s, '[');
        let ghost s0 = s@;
        let ghost vs = self@.stack;
        let mut i: usize = 0;
        while i < self.stack.len()
            invariant
                i <= self.stack.len(),
                self@.stack == vs,
                vs.len() == self.stack@.len(),
                s@ == s0 + vals_text(vs.subrange(0, i as int)),
            decreases self.stack.len() - i,
        {
            proof {
                let p = vs.subrange(0, i as int);
                assert(vs.subrange(0, i + 1).drop_last() =~= p);
                assert(vs.subrange(0, i + 1).last() == vs[i as int]);
            }
            if i > 0 {
                push_char(&mut s, ' ');
            }
            let t = self.stack[i].deep_copy().get_lit(true);
            push_text(&mut s, t.as_str());
            i += 1;
            assert(s@ =~= s0 + vals_text(vs.subrange(0, i as int)));
        }
        push_char(&mut s, ']');
        assert(vs.subrange(0, vs.len() as int) =~= vs);
        assert(s@ =~= stack_text(vs));
        self.output.push(s);
        assert(self@.output =~= old(self)@.output.push(stack_text(vs)));
    }

    /// Hands out the lines produced by `print_stack` so far and forgets them.
    pub fn take_output(&mut self) -> (r: Vec<String>)
        ensures
            r@.map_values(|s: String| s@) == old(self)@.output,
            final(self)@ == (Machine { stack: old(self)@.stack, vars: old(self)@.vars, output: Seq::empty() }),
            final(self).pending() == old(self).pending(),
    {
        let r = self.output.split_off(0);
        assert(r@ =~= old(self).output@);
        assert(self@.output =~= Seq::empty());
        r
    }

    /// Runs `code` left to right at nesting budget `depth`, stopping at the first error.
    pub(crate) fn eval_seq<R: Fn(RealOp, String, String) -> Value>(
        &mut self,
        code: &Vec<Expr>,
        depth: usize,
        host: &R,
    ) -> (r: Result<(), Error>)
        requires
            real_host(*host),
        ensures
            final(self)@ == run_seq(depth as nat, terms_of(code@), old(self)@, *host).machine,
            settles(r, run_seq(depth as nat, terms_of(code@), old(self)@, *host)),
            final(self).pending() == old(self).pending(),
        decreases depth, code.len(), 3usize,
    {
        let ghost m0 = self@;
        let mut i: usize = 0;
        assert(terms_of(code@.subrange(0, 0)) =~= Seq::<Term>::empty());
        while i < code.len()
            invariant
                i <= code.len(),
                m0 == old(self)@,
                real_host(*host),
                self.pending() == old(self).pending(),
                self@ == run_seq(depth as nat, terms_of(code@.subrange(0, i as int)), m0, *host).machine,
                run_seq(depth as nat, terms_of(code@.subrange(0, i as int)), m0, *host).error is None,
            decreases code.len() - i,
        {
            let r = self.exec_expr(&code[i], depth, host);
            proof {
                lemma_terms_of_extend(code@, i as int);
                let done_part = terms_of(code@.subrange(0, i as int));
                let with_next = terms_of(code@.subrange(0, i + 1));
                assert(with_next.drop_last() =~= done_part);
                assert(with_next.last() == code@[i as int]@);
            }
            i += 1;
            if r.is_err() {
                proof {
                    lemma_terms_of_prefix(code@, i as int);
                    lemma_terms_of(code@);
                    lemma_run_seq_stops(depth as nat, terms_of(code@), i as int, m0, *host);
                }
                return r;
            }
        }
        assert(code@.subrange(0, code.len() as int) =~= code@);
        Ok(())
    }

    /// Runs one expression at nesting budget `depth`.
    pub(crate) fn exec_expr<R: Fn(RealOp, String, String) -> Value>(
        &mut self,
        e: &Expr,
        depth: usize,
        host: &R,
    ) -> (r: Result<(), Error>)
        requires
            real_host(*host),
        ensures
            final(self)@ == run_term(depth as nat, e@, old(self)@, *host).machine,
            settles(r, run_term(depth as nat, e@, old(self)@, *host)),
            final(self).pending() == old(self).pending(),
        decreases depth, 0usize, 2usize,
    {
        match &e.kind {
            ExprT::Symbol(s) => self.push(Value::Symbol(s.clone())),
            ExprT::String(s) => self.push(Value::String(s.clone())),
            ExprT::Integer(i) => self.push(Value::Integer(*i)),
            ExprT::Real(s) => self.push(Value::Real(s.clone())),
            ExprT::Quote(c) => self.push(Value::Quote(copy_exprs(c))),
            ExprT::Store(i, c) => {
                let body = copy_exprs(c);
                let idx = *i as usize;
                if idx < self.vars.len() {
                    self.vars.set(idx, body);
                } else {
                    self.vars.push(body);
                }
                assert(self@.vars =~= run_term(depth as nat, e@, old(self)@, *host).machine.vars);
                Ok(())
            },
            ExprT::Var(i) => {
                let idx = *i as usize;
                if idx >= self.vars.len() {
                    Err(Error::new(e.line, e.column, ErrorKind::Unbound(*i)))
                } else if depth == 0 {
                    Err(Error::new(e.line, e.column, ErrorKind::TooDeep))
                } else {
                    let body = copy_exprs(&self.vars[idx]);
                    self.eval_seq(&body, depth - 1, host)
                }
            },
            ExprT::Builtin(b) => self.apply_builtin(*b, e.line, e.column, depth, host),
        }
    }

    /// Runs one expression, with the full nesting budget.
    pub fn eval_expr<R: Fn(RealOp, String, String) -> Value>(&mut self, expr: Expr, host: &R) -> (r: Result<(), Error>)
        requires
            real_host(*host),
        ensures
            final(self)@ == run_term(MAX_DEPTH as nat, expr@, old(self)@, *host).machine,
            settles(r, run_term(MAX_DEPTH as nat, expr@, old(self)@, *host)),
            final(self).pending() == old(self).pending(),
    {
        self.exec_expr(&expr, MAX_DEPTH, host)
    }

    /// Runs the pending expressions and returns a copy of the top of the stack.
    pub fn eval<R: Fn(RealOp, String, String) -> Value>(&mut self, host: &R) -> (r: Result<Option<Value>, Error>)
        requires
            real_host(*host),
        ensures
            final(self)@ == run_seq(MAX_DEPTH as nat, old(self).pending(), old(self)@, *host).machine,
            final(self).pending() == old(self).pending(),
            match r {
                Ok(top) => run_seq(MAX_DEPTH as nat, old(self).pending(), old(self)@, *host).error is None
                    && match top {
                        Some(v) => final(self)@.stack.len() > 0 && v@ == final(self)@.stack.last(),
                        None => final(self)@.stack.len() == 0,
                    },
                Err(e) => run_seq(MAX_DEPTH as nat, old(self).pending(), old(self)@, *host).error == Some(e@),
            },
    {
        let input = copy_exprs(&self.input);
        match self.eval_seq(&input, MAX_DEPTH, host) {
            Ok(_) => {},
            Err(e) => return Err(e),
        }
        let n = self.stack.len();
        if n == 0 {
            Ok(None)
        } else {
            Ok(Some(self.stack[n - 1].deep_copy()))
        }
    }
}

} // verus!

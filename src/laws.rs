use vstd::prelude::*;
use crate::error::Fault;
use crate::machine::{
    Machine, RealOp, binary_step, boolean, done, is_binary, run_app, run_seq, run_term, stack_step,
};
use crate::error::Failure;
use crate::parser::{
    builtin_of, digits_end, digits_value, first_slot, is_digit_char, is_terminator, parsed, quote_end,
    read_all, read_block, read_declare, space_end,
    read_token,
    term_at, word_end,
};
use crate::text::{digit_char, nat_text};
use crate::value::{Builtin, Kind, Node, Term, Val, Value, real_text, val_text};

verus! {

/// `dup` followed by `pop` leaves the machine as it was, and succeeds on a
/// non-empty stack.
pub proof fn law_dup_then_pop(m: Machine, line: usize, column: usize)
    ensures
        stack_step(Builtin::Pop, stack_step(Builtin::Dup, m, line, column).machine, line, column).machine
            == m,
        m.stack.len() > 0 ==> stack_step(Builtin::Dup, m, line, column).error is None
            && stack_step(
            Builtin::Pop,
            stack_step(Builtin::Dup, m, line, column).machine,
            line,
            column,
        ).error is None,
{
    if m.stack.len() > 0 {
        assert(m.stack.push(m.stack.last()).drop_last() =~= m.stack);
    }
}

/// `swap` applied twice restores the top two entries of the stack.
pub proof fn law_swap_twice(m: Machine, line: usize, column: usize)
    requires
        m.stack.len() >= 2,
    ensures
        stack_step(Builtin::Swap, stack_step(Builtin::Swap, m, line, column).machine, line, column)
            == done(m),
{
    let s = m.stack;
    let s1 = s.subrange(0, s.len() - 2).push(s.last()).push(s[s.len() - 2]);
    assert(s1.subrange(0, s1.len() - 2) =~= s.subrange(0, s.len() - 2));
    assert(s1.subrange(0, s1.len() - 2).push(s1.last()).push(s1[s1.len() - 2]) =~= s);
}

/// The code `a b op` for two integer literals and a builtin, all at one position.
pub open spec fn int_code(a: i32, b: i32, op: Builtin, line: usize, column: usize) -> Seq<Term> {
    seq![
        Term { node: Node::Integer(a), line, column },
        Term { node: Node::Integer(b), line, column },
        Term { node: Node::Builtin(op), line, column },
    ]
}

proof fn lemma_int_code<R: Fn(RealOp, String, String) -> Value>(
    depth: nat,
    a: i32,
    b: i32,
    op: Builtin,
    line: usize,
    column: usize,
    m: Machine,
    host: R,
)
    ensures
        run_seq(depth, int_code(a, b, op, line, column), m, host) == run_term(
            depth,
            Term { node: Node::Builtin(op), line, column },
            m.with_stack(m.stack.push(Val::Integer(a)).push(Val::Integer(b))),
            host,
        ),
{
    let c = int_code(a, b, op, line, column);
    let c1 = c.drop_last().drop_last();
    let c2 = c.drop_last();
    assert(c1.drop_last() =~= Seq::<Term>::empty());
    assert(c1.last() == c[0]);
    assert(c2.drop_last() =~= c1);
    assert(c2.last() == c[1]);
    let m1 = m.with_stack(m.stack.push(Val::Integer(a)));
    let m2 = m.with_stack(m.stack.push(Val::Integer(a)).push(Val::Integer(b)));
    assert(run_seq(depth, Seq::<Term>::empty(), m, host) == done(m));
    assert(run_seq(depth, c1, m, host) == run_term(depth, c[0], m, host));
    assert(run_seq(depth, c1, m, host) == done(m1));
    assert(run_seq(depth, c2, m, host) == run_term(depth, c[1], m1, host));
    assert(run_seq(depth, c2, m, host) == done(m2));
    assert(run_seq(depth, c, m, host) == run_term(depth, c[2], m2, host));
}

/// Evaluating `a b +` leaves `a + b` on top of the stack, and `a b -` leaves `a - b`,
/// whenever the result fits a 32-bit integer.
pub proof fn law_add_sub<R: Fn(RealOp, String, String) -> Value>(
    depth: nat,
    a: i32,
    b: i32,
    line: usize,
    column: usize,
    m: Machine,
    host: R,
)
    ensures
        i32::MIN <= a + b <= i32::MAX ==> run_seq(depth, int_code(a, b, Builtin::Add, line, column), m, host)
            == done(m.with_stack(m.stack.push(Val::Integer((a + b) as i32)))),
        i32::MIN <= a - b <= i32::MAX ==> run_seq(depth, int_code(a, b, Builtin::Sub, line, column), m, host)
            == done(m.with_stack(m.stack.push(Val::Integer((a - b) as i32)))),
{
    let s = m.stack.push(Val::Integer(a)).push(Val::Integer(b));
    assert(s.subrange(0, s.len() - 2) =~= m.stack);
    lemma_int_code(depth, a, b, Builtin::Add, line, column, m, host);
    lemma_int_code(depth, a, b, Builtin::Sub, line, column, m, host);
}

/// Popping from an empty stack fails with a stack underflow and changes nothing.
pub proof fn law_pop_empty(m: Machine, line: usize, column: usize)
    requires
        m.stack.len() == 0,
    ensures
        stack_step(Builtin::Pop, m, line, column).machine == m,
        stack_step(Builtin::Pop, m, line, column).error matches Some(f) && f.fault
            == Fault::StackUnderflow,
{
}

/// `eq` on two values of different kinds pushes `f` and never fails.
pub proof fn law_eq_across_kinds<R: Fn(RealOp, String, String) -> Value>(
    m: Machine,
    lhs: Val,
    rhs: Val,
    line: usize,
    column: usize,
    host: R,
)
    requires
        lhs.kind() != rhs.kind(),
    ensures
        binary_step(Builtin::Eq, m.with_stack(m.stack.push(lhs).push(rhs)), line, column, host)
            == done(m.with_stack(m.stack.push(boolean(false)))),
{
    let s = m.stack.push(lhs).push(rhs);
    assert(s.subrange(0, s.len() - 2) =~= m.stack);
}

/// Applying a quoted block runs its body in place: `[ code ] app` at nesting
/// budget `depth + 1` ends exactly as `code` does at budget `depth`.
pub proof fn law_app_inlines<R: Fn(RealOp, String, String) -> Value>(
    depth: nat,
    code: Seq<Term>,
    line: usize,
    column: usize,
    m: Machine,
    host: R,
)
    ensures
        run_seq(
            depth + 1,
            seq![
                Term { node: Node::Quote(code), line, column },
                Term { node: Node::Builtin(Builtin::App), line, column },
            ],
            m,
            host,
        ) == run_seq(depth, code, m, host),
{
    let c = seq![
        Term { node: Node::Quote(code), line, column },
        Term { node: Node::Builtin(Builtin::App), line, column },
    ];
    let c1 = c.drop_last();
    assert(c1.drop_last() =~= Seq::<Term>::empty());
    assert(c1.last() == c[0]);
    let d1: nat = depth + 1;
    let m1 = m.with_stack(m.stack.push(Val::Quote(code)));
    assert(run_seq(d1, Seq::<Term>::empty(), m, host) == done(m));
    assert(run_seq(d1, c1, m, host) == run_term(d1, c[0], m, host));
    assert(run_seq(d1, c1, m, host) == done(m1));
    assert(m1.stack.drop_last() =~= m.stack);
    assert(m1.with_stack(m1.stack.drop_last()) == m);
    assert(run_seq(d1, c, m, host) == run_term(d1, c[1], m1, host));
    assert(run_term(d1, c[1], m1, host) == crate::machine::run_app(d1, m1, line, column, host));
}

} // verus!

verus! {

proof fn lemma_digit_char(d: nat)
    requires
        d < 10,
    ensures
        is_digit_char(digit_char(d)),
        (digit_char(d) as u32) - ('0' as u32) == d,
        !is_terminator(digit_char(d)),
        digit_char(d) != '.',
{
}

proof fn lemma_nat_text(n: nat)
    ensures
        nat_text(n).len() >= 1,
        forall|k: int| 0 <= k < nat_text(n).len() ==> is_digit_char(#[trigger] nat_text(n)[k]),
        digits_value(nat_text(n)) == n,
    decreases n,
{
    if n < 10 {
        lemma_digit_char(n);
        assert(nat_text(n).drop_last() =~= Seq::<char>::empty());
        assert(nat_text(n).last() == digit_char(n));
        assert(digits_value(Seq::<char>::empty()) == 0);
        assert(digits_value(nat_text(n)) == digits_value(Seq::<char>::empty()) * 10 + ((digit_char(n) as u32) - ('0' as u32)) as nat);
    } else {
        lemma_nat_text(n / 10);
        lemma_digit_char(n % 10);
        let s = nat_text(n);
        assert(s.drop_last() =~= nat_text(n / 10));
        assert(s.last() == digit_char(n % 10));
        assert((n / 10) * 10 + n % 10 == n);
        assert(digits_value(s) == digits_value(nat_text(n / 10)) * 10 + ((s.last() as u32) - ('0' as u32)) as nat);
        assert forall|k: int| 0 <= k < s.len() implies is_digit_char(#[trigger] s[k]) by {
            if k < s.len() - 1 {
                assert(s[k] == nat_text(n / 10)[k]);
            }
        }
    }
}

proof fn lemma_digits_end(s: Seq<char>, i: int, j: int)
    requires
        0 <= i <= j <= s.len(),
        forall|k: int| i <= k < j ==> is_digit_char(#[trigger] s[k]),
        j == s.len() || !is_digit_char(s[j]),
    ensures
        digits_end(s, i) == j,
    decreases j - i,
{
    if i < j {
        lemma_digits_end(s, i + 1, j);
    }
}

proof fn lemma_quote_end(s: Seq<char>, i: int, j: int)
    requires
        0 <= i <= j < s.len(),
        forall|k: int| i <= k < j ==> #[trigger] s[k] != '"',
        s[j] == '"',
    ensures
        quote_end(s, i) == j,
    decreases j - i,
{
    if i < j {
        lemma_quote_end(s, i + 1, j);
    }
}

proof fn lemma_word_end(s: Seq<char>, i: int)
    requires
        0 <= i <= s.len(),
        forall|k: int| i <= k < s.len() ==> !is_terminator(#[trigger] s[k]),
    ensures
        word_end(s, i) == s.len(),
    decreases s.len() - i,
{
    if i < s.len() {
        lemma_word_end(s, i + 1);
    }
}

/// A whole input made of one token reads back as that token alone.
proof fn lemma_single_token(s: Seq<char>, names: Seq<Seq<char>>, t: Term)
    requires
        s.len() > 0,
        read_token(s, 0, names) == Ok::<(Option<Term>, int, Seq<Seq<char>>), Failure>((Some(t), s.len() as int, names)),
    ensures
        parsed(s, names) == Ok::<(Seq<Term>, Seq<Seq<char>>), Failure>((seq![t], names)),
{
    assert(read_all(s, s.len() as int, names) == Ok::<(Seq<Term>, Seq<Seq<char>>), Failure>((Seq::<Term>::empty(), names)));
    assert(seq![t] + Seq::<Term>::empty() =~= seq![t]);
}

/// The literal text of a non-negative Integer parses back to that Integer, which
/// evaluation then pushes.
pub proof fn law_integer_round_trip<R: Fn(RealOp, String, String) -> Value>(
    v: i32,
    names: Seq<Seq<char>>,
    depth: nat,
    m: Machine,
    host: R,
)
    requires
        v >= 0,
    ensures
        ({
            let s = val_text(Val::Integer(v), true);
            &&& parsed(s, names) == Ok::<(Seq<Term>, Seq<Seq<char>>), Failure>(
                (seq![term_at(s, 1, Node::Integer(v))], names),
            )
            &&& run_term(depth, term_at(s, 1, Node::Integer(v)), m, host) == done(
                m.with_stack(m.stack.push(Val::Integer(v))),
            )
        }),
{
    let s = val_text(Val::Integer(v), true);
    lemma_nat_text(v as nat);
    assert(s == nat_text(v as nat));
    assert(is_digit_char(s[0]));
    lemma_digits_end(s, 1, s.len() as int);
    assert(s.subrange(0, s.len() as int) =~= s);
    lemma_single_token(s, names, term_at(s, 1, Node::Integer(v)));
}

/// The literal text of a String without double quotes parses back to that
/// String, which evaluation then pushes.
pub proof fn law_string_round_trip<R: Fn(RealOp, String, String) -> Value>(
    t: Seq<char>,
    names: Seq<Seq<char>>,
    depth: nat,
    m: Machine,
    host: R,
)
    requires
        forall|k: int| 0 <= k < t.len() ==> #[trigger] t[k] != '"',
    ensures
        ({
            let s = val_text(Val::Str(t), true);
            &&& parsed(s, names) == Ok::<(Seq<Term>, Seq<Seq<char>>), Failure>(
                (seq![term_at(s, 1, Node::Str(t))], names),
            )
            &&& run_term(depth, term_at(s, 1, Node::Str(t)), m, host) == done(
                m.with_stack(m.stack.push(Val::Str(t))),
            )
        }),
{
    let s = val_text(Val::Str(t), true);
    assert(s == seq!['"'] + t + seq!['"']);
    assert(forall|k: int| 1 <= k < t.len() + 1 ==> #[trigger] s[k] == t[k - 1]);
    lemma_quote_end(s, 1, t.len() as int + 1);
    assert(s.subrange(1, t.len() as int + 1) =~= t);
    lemma_single_token(s, names, term_at(s, 1, Node::Str(t)));
}

/// The literal text of a Symbol, `#` and its name, parses back to that Symbol
/// when the name holds no terminator; evaluation then pushes it.
pub proof fn law_symbol_round_trip<R: Fn(RealOp, String, String) -> Value>(
    t: Seq<char>,
    names: Seq<Seq<char>>,
    depth: nat,
    m: Machine,
    host: R,
)
    requires
        forall|k: int| 0 <= k < t.len() ==> !is_terminator(#[trigger] t[k]),
    ensures
        ({
            let s = val_text(Val::Symbol(t), true);
            &&& parsed(s, names) == Ok::<(Seq<Term>, Seq<Seq<char>>), Failure>(
                (seq![term_at(s, 1, Node::Symbol(t))], names),
            )
            &&& run_term(depth, term_at(s, 1, Node::Symbol(t)), m, host) == done(
                m.with_stack(m.stack.push(Val::Symbol(t))),
            )
        }),
{
    let s = val_text(Val::Symbol(t), true);
    assert(s == seq!['#'] + t);
    assert(forall|k: int| 1 <= k < s.len() ==> #[trigger] s[k] == t[k - 1]);
    lemma_word_end(s, 1);
    assert(s.subrange(1, s.len() as int) =~= t);
    lemma_single_token(s, names, term_at(s, 1, Node::Symbol(t)));
}

/// The literal text of a Real written as digits, `.`, digits parses back to
/// that Real, which evaluation then pushes.
pub proof fn law_real_round_trip<R: Fn(RealOp, String, String) -> Value>(
    whole: Seq<char>,
    frac: Seq<char>,
    names: Seq<Seq<char>>,
    depth: nat,
    m: Machine,
    host: R,
)
    requires
        whole.len() >= 1,
        forall|k: int| 0 <= k < whole.len() ==> is_digit_char(#[trigger] whole[k]),
        forall|k: int| 0 <= k < frac.len() ==> is_digit_char(#[trigger] frac[k]),
    ensures
        ({
            let r = whole + seq!['.'] + frac;
            let s = val_text(Val::Real(r), true);
            &&& parsed(s, names) == Ok::<(Seq<Term>, Seq<Seq<char>>), Failure>(
                (seq![term_at(s, 1, Node::Real(r))], names),
            )
            &&& run_term(depth, term_at(s, 1, Node::Real(r)), m, host) == done(
                m.with_stack(m.stack.push(Val::Real(r))),
            )
        }),
{
    let r = whole + seq!['.'] + frac;
    let w = whole.len() as int;
    assert(r[w] == '.');
    assert(real_text(r) == r);
    let s = val_text(Val::Real(r), true);
    assert(s == r);
    assert(forall|k: int| 0 <= k < w ==> #[trigger] s[k] == whole[k]);
    assert(forall|k: int| w + 1 <= k < s.len() ==> #[trigger] s[k] == frac[k - w - 1]);
    assert(is_digit_char(s[0]));
    lemma_digits_end(s, 1, w);
    lemma_digits_end(s, w + 1, s.len() as int);
    assert(s.subrange(0, s.len() as int) =~= s);
    lemma_single_token(s, names, term_at(s, 1, Node::Real(r)));
}

} // verus!

verus! {

/// The source text `2 3 +` parses to two Integer literals and `+`, and running
/// it pushes `5`.
pub proof fn law_two_three_plus<R: Fn(RealOp, String, String) -> Value>(
    names: Seq<Seq<char>>,
    depth: nat,
    m: Machine,
    host: R,
)
    ensures
        ({
            let s = "2 3 +"@;
            let code = seq![
                term_at(s, 1, Node::Integer(2)),
                term_at(s, 3, Node::Integer(3)),
                term_at(s, 5, Node::Builtin(Builtin::Add)),
            ];
            &&& parsed(s, names) == Ok::<(Seq<Term>, Seq<Seq<char>>), Failure>((code, names))
            &&& run_seq(depth, code, m, host) == done(m.with_stack(m.stack.push(Val::Integer(5))))
        }),
{
    reveal_strlit("2 3 +");
    let s = "2 3 +"@;
    assert(s.len() == 5);
    assert(s[0] == '2' && s[1] == ' ' && s[2] == '3' && s[3] == ' ' && s[4] == '+');
    let t0 = term_at(s, 1, Node::Integer(2));
    let t1 = term_at(s, 3, Node::Integer(3));
    let t2 = term_at(s, 5, Node::Builtin(Builtin::Add));
    assert(digits_end(s, 1) == 1);
    assert(s.subrange(0, 1).drop_last() =~= Seq::<char>::empty());
    assert(s.subrange(0, 1).last() == '2');
    assert(digits_value(Seq::<char>::empty()) == 0);
    assert(('2' as u32) - ('0' as u32) == 2);
    assert(('3' as u32) - ('0' as u32) == 3);
    assert(digits_value(s.subrange(0, 1)) == 2);
    assert(digits_end(s, 3) == 3);
    assert(s.subrange(2, 3).drop_last() =~= Seq::<char>::empty());
    assert(s.subrange(2, 3).last() == '3');
    assert(digits_value(s.subrange(2, 3)) == 3);
    assert(word_end(s, 5) == 5);
    assert(s.subrange(4, 5) =~= "+"@) by {
        reveal_strlit("+");
    }
    assert(s.subrange(4, 5) != "let"@) by {
        reveal_strlit("let");
    }
    assert(builtin_of(s.subrange(4, 5)) == Some(Builtin::Add));
    let e = Seq::<Term>::empty();
    assert(read_all(s, 5, names) == Ok::<(Seq<Term>, Seq<Seq<char>>), Failure>((e, names)));
    assert(read_token(s, 4, names) == Ok::<(Option<Term>, int, Seq<Seq<char>>), Failure>((Some(t2), 5, names)));
    assert(read_all(s, 4, names) == Ok::<(Seq<Term>, Seq<Seq<char>>), Failure>((seq![t2] + e, names)));
    assert(read_all(s, 3, names) == read_all(s, 4, names));
    assert(read_token(s, 2, names) == Ok::<(Option<Term>, int, Seq<Seq<char>>), Failure>((Some(t1), 3, names)));
    assert(read_all(s, 2, names) == Ok::<(Seq<Term>, Seq<Seq<char>>), Failure>((seq![t1] + (seq![t2] + e), names)));
    assert(read_all(s, 1, names) == read_all(s, 2, names));
    assert(read_token(s, 0, names) == Ok::<(Option<Term>, int, Seq<Seq<char>>), Failure>((Some(t0), 1, names)));
    assert(seq![t0] + (seq![t1] + (seq![t2] + e)) =~= seq![t0, t1, t2]);
    let code = seq![t0, t1, t2];
    let c1 = code.drop_last().drop_last();
    let c2 = code.drop_last();
    assert(c1.drop_last() =~= e);
    assert(c2.drop_last() =~= c1);
    let m1 = m.with_stack(m.stack.push(Val::Integer(2)));
    let m2 = m.with_stack(m.stack.push(Val::Integer(2)).push(Val::Integer(3)));
    assert(run_seq(depth, e, m, host) == done(m));
    assert(c1.last() == t0);
    assert(run_term(depth, t0, m, host) == done(m1));
    assert(run_seq(depth, c1, m, host) == done(m1));
    assert(c2.last() == t1);
    assert(c2.last() == t1);
    assert(run_term(depth, t1, m1, host) == done(m2));
    assert(run_seq(depth, c2, m, host) == done(m2));
    assert(m2.stack.subrange(0, m2.stack.len() - 2) =~= m.stack);
    assert(run_seq(depth, code, m, host) == run_term(depth, t2, m2, host));
}

} // verus!

verus! {

/// The source text `dup pop` parses to `dup` and `pop`, and running it leaves
/// the machine as it was.
pub proof fn law_dup_pop_text<R: Fn(RealOp, String, String) -> Value>(
    names: Seq<Seq<char>>,
    depth: nat,
    m: Machine,
    host: R,
)
    ensures
        ({
            let s = "dup pop"@;
            let code = seq![
                term_at(s, 1, Node::Builtin(Builtin::Dup)),
                term_at(s, 5, Node::Builtin(Builtin::Pop)),
            ];
            &&& parsed(s, names) == Ok::<(Seq<Term>, Seq<Seq<char>>), Failure>((code, names))
            &&& run_seq(depth, code, m, host).machine == m
        }),
{
    reveal_strlit("dup pop");
    reveal_strlit("+");
    reveal_strlit("-");
    reveal_strlit("*");
    reveal_strlit("/");
    reveal_strlit("%");
    reveal_strlit("dup");
    reveal_strlit("app");
    reveal_strlit("cat");
    reveal_strlit("pop");
    reveal_strlit("let");
    let s = "dup pop"@;
    assert(s.len() == 7);
    let t0 = term_at(s, 1, Node::Builtin(Builtin::Dup));
    let t1 = term_at(s, 5, Node::Builtin(Builtin::Pop));
    assert(s[0] == 'd' && s[1] == 'u' && s[2] == 'p' && s[3] == ' ' && s[4] == 'p' && s[5] == 'o' && s[6] == 'p');
    assert(word_end(s, 3) == 3);
    assert(word_end(s, 2) == 3);
    assert(word_end(s, 1) == 3);
    assert(word_end(s, 7) == 7);
    assert(word_end(s, 6) == 7);
    assert(word_end(s, 5) == 7);
    assert(s.subrange(0, 3) =~= "dup"@);
    assert(s.subrange(4, 7) =~= "pop"@);
    assert(builtin_of(s.subrange(0, 3)) == Some(Builtin::Dup));
    assert(builtin_of(s.subrange(4, 7)) == Some(Builtin::Pop));
    let e = Seq::<Term>::empty();
    assert(read_all(s, 7, names) == Ok::<(Seq<Term>, Seq<Seq<char>>), Failure>((e, names)));
    assert(read_token(s, 4, names) == Ok::<(Option<Term>, int, Seq<Seq<char>>), Failure>((Some(t1), 7, names)));
    assert(read_all(s, 4, names) == Ok::<(Seq<Term>, Seq<Seq<char>>), Failure>((seq![t1] + e, names)));
    assert(read_all(s, 3, names) == read_all(s, 4, names));
    assert(read_token(s, 0, names) == Ok::<(Option<Term>, int, Seq<Seq<char>>), Failure>((Some(t0), 3, names)));
    assert(seq![t0] + (seq![t1] + e) =~= seq![t0, t1]);
    let code = seq![t0, t1];
    assert(code.drop_last().drop_last() =~= e);
    assert(code.drop_last().last() == t0);
    assert(code.last() == t1);
    assert(run_seq(depth, e, m, host) == done(m));
    assert(!is_binary(Builtin::Dup) && !is_binary(Builtin::Pop));
    assert(run_term(depth, t0, m, host) == stack_step(Builtin::Dup, m, t0.line, t0.column));
    assert(run_seq(depth, code.drop_last(), m, host) == stack_step(Builtin::Dup, m, t0.line, t0.column));
    let m1 = stack_step(Builtin::Dup, m, t0.line, t0.column).machine;
    assert(run_term(depth, t1, m1, host) == stack_step(Builtin::Pop, m1, t1.line, t1.column));
    law_dup_then_pop(m, t0.line, t0.column);
    assert(stack_step(Builtin::Pop, m1, t1.line, t1.column).machine == stack_step(Builtin::Pop, m1, t0.line, t0.column).machine);
    if m.stack.len() > 0 {
        assert(m.stack.push(m.stack.last()).drop_last() =~= m.stack);
    }
}

} // verus!

verus! {

/// The source text `1 "a" +` parses to an Integer, a String and `+`; running
/// it fails with a type mismatch that expects an Integer and found a String.
pub proof fn law_integer_plus_string_text<R: Fn(RealOp, String, String) -> Value>(
    names: Seq<Seq<char>>,
    depth: nat,
    m: Machine,
    host: R,
)
    ensures
        ({
            let s = "1 \"a\" +"@;
            let code = seq![
                term_at(s, 1, Node::Integer(1)),
                term_at(s, 3, Node::Str("a"@)),
                term_at(s, 7, Node::Builtin(Builtin::Add)),
            ];
            &&& parsed(s, names) == Ok::<(Seq<Term>, Seq<Seq<char>>), Failure>((code, names))
            &&& run_seq(depth, code, m, host).error matches Some(f) && f.fault == Fault::TypeMismatch {
                expected: Kind::Integer,
                found: Kind::String,
            }
        }),
{
    reveal_strlit("1 \"a\" +");
    reveal_strlit("a");
    reveal_strlit("+");
    reveal_strlit("let");
    let s = "1 \"a\" +"@;
    assert(s.len() == 7);
    assert(s[0] == '1' && s[1] == ' ' && s[2] == '"' && s[3] == 'a' && s[4] == '"' && s[5] == ' ' && s[6] == '+');
    let t0 = term_at(s, 1, Node::Integer(1));
    let t1 = term_at(s, 3, Node::Str("a"@));
    let t2 = term_at(s, 7, Node::Builtin(Builtin::Add));
    assert(digits_end(s, 1) == 1);
    assert(s.subrange(0, 1).drop_last() =~= Seq::<char>::empty());
    assert(s.subrange(0, 1).last() == '1');
    assert(digits_value(Seq::<char>::empty()) == 0);
    assert(('1' as u32) - ('0' as u32) == 1);
    assert(digits_value(s.subrange(0, 1)) == 1);
    assert(quote_end(s, 4) == 4);
    assert(quote_end(s, 3) == 4);
    assert(s.subrange(3, 4) =~= "a"@);
    assert(word_end(s, 7) == 7);
    assert(s.subrange(6, 7) =~= "+"@);
    assert(builtin_of(s.subrange(6, 7)) == Some(Builtin::Add));
    let e = Seq::<Term>::empty();
    assert(read_all(s, 7, names) == Ok::<(Seq<Term>, Seq<Seq<char>>), Failure>((e, names)));
    assert(read_token(s, 6, names) == Ok::<(Option<Term>, int, Seq<Seq<char>>), Failure>((Some(t2), 7, names)));
    assert(read_all(s, 6, names) == Ok::<(Seq<Term>, Seq<Seq<char>>), Failure>((seq![t2] + e, names)));
    assert(read_all(s, 5, names) == read_all(s, 6, names));
    assert(read_token(s, 2, names) == Ok::<(Option<Term>, int, Seq<Seq<char>>), Failure>((Some(t1), 5, names)));
    assert(read_all(s, 2, names) == Ok::<(Seq<Term>, Seq<Seq<char>>), Failure>((seq![t1] + (seq![t2] + e), names)));
    assert(read_all(s, 1, names) == read_all(s, 2, names));
    assert(read_token(s, 0, names) == Ok::<(Option<Term>, int, Seq<Seq<char>>), Failure>((Some(t0), 1, names)));
    assert(seq![t0] + (seq![t1] + (seq![t2] + e)) =~= seq![t0, t1, t2]);
    let code = seq![t0, t1, t2];
    let c1 = code.drop_last().drop_last();
    let c2 = code.drop_last();
    assert(c1.drop_last() =~= e);
    assert(c2.drop_last() =~= c1);
    assert(c1.last() == t0);
    assert(c2.last() == t1);
    let m1 = m.with_stack(m.stack.push(Val::Integer(1)));
    let m2 = m.with_stack(m.stack.push(Val::Integer(1)).push(Val::Str("a"@)));
    assert(run_seq(depth, e, m, host) == done(m));
    assert(run_term(depth, t0, m, host) == done(m1));
    assert(run_seq(depth, c1, m, host) == done(m1));
    assert(run_term(depth, t1, m1, host) == done(m2));
    assert(run_seq(depth, c2, m, host) == done(m2));
    assert(run_seq(depth, code, m, host) == run_term(depth, t2, m2, host));
    assert(m2.stack[m2.stack.len() - 2] == Val::Integer(1));
    assert(m2.stack.last() == Val::Str("a"@));
}

} // verus!

verus! {

/// The source text `1 "1" eq` parses to an Integer, a String and `eq`; running
/// it pushes `f`: values of different kinds are never equal.
pub proof fn law_integer_eq_string_text<R: Fn(RealOp, String, String) -> Value>(
    names: Seq<Seq<char>>,
    depth: nat,
    m: Machine,
    host: R,
)
    ensures
        ({
            let s = "1 \"1\" eq"@;
            let code = seq![
                term_at(s, 1, Node::Integer(1)),
                term_at(s, 3, Node::Str("1"@)),
                term_at(s, 7, Node::Builtin(Builtin::Eq)),
            ];
            &&& parsed(s, names) == Ok::<(Seq<Term>, Seq<Seq<char>>), Failure>((code, names))
            &&& run_seq(depth, code, m, host) == done(m.with_stack(m.stack.push(boolean(false))))
        }),
{
    reveal_strlit("1 \"1\" eq");
    reveal_strlit("1");
    reveal_strlit("+");
    reveal_strlit("-");
    reveal_strlit("*");
    reveal_strlit("/");
    reveal_strlit("%");
    reveal_strlit("dup");
    reveal_strlit("app");
    reveal_strlit("cat");
    reveal_strlit("pop");
    reveal_strlit("swap");
    reveal_strlit("print_stack");
    reveal_strlit("eq");
    reveal_strlit("let");
    let s = "1 \"1\" eq"@;
    assert(s.len() == 8);
    assert(s[0] == '1' && s[1] == ' ' && s[2] == '"' && s[3] == '1' && s[4] == '"' && s[5] == ' ' && s[6] == 'e' && s[7] == 'q');
    let t0 = term_at(s, 1, Node::Integer(1));
    let t1 = term_at(s, 3, Node::Str("1"@));
    let t2 = term_at(s, 7, Node::Builtin(Builtin::Eq));
    assert(digits_end(s, 1) == 1);
    assert(s.subrange(0, 1).drop_last() =~= Seq::<char>::empty());
    assert(s.subrange(0, 1).last() == '1');
    assert(digits_value(Seq::<char>::empty()) == 0);
    assert(('1' as u32) - ('0' as u32) == 1);
    assert(digits_value(s.subrange(0, 1)) == 1);
    assert(quote_end(s, 4) == 4);
    assert(quote_end(s, 3) == 4);
    assert(s.subrange(3, 4) =~= "1"@);
    assert(word_end(s, 8) == 8);
    assert(word_end(s, 7) == 8);
    assert(s.subrange(6, 8) =~= "eq"@);
    assert(builtin_of(s.subrange(6, 8)) == Some(Builtin::Eq));
    let e = Seq::<Term>::empty();
    assert(read_all(s, 8, names) == Ok::<(Seq<Term>, Seq<Seq<char>>), Failure>((e, names)));
    assert(read_token(s, 6, names) == Ok::<(Option<Term>, int, Seq<Seq<char>>), Failure>((Some(t2), 8, names)));
    assert(read_all(s, 6, names) == Ok::<(Seq<Term>, Seq<Seq<char>>), Failure>((seq![t2] + e, names)));
    assert(read_all(s, 5, names) == read_all(s, 6, names));
    assert(read_token(s, 2, names) == Ok::<(Option<Term>, int, Seq<Seq<char>>), Failure>((Some(t1), 5, names)));
    assert(read_all(s, 2, names) == Ok::<(Seq<Term>, Seq<Seq<char>>), Failure>((seq![t1] + (seq![t2] + e), names)));
    assert(read_all(s, 1, names) == read_all(s, 2, names));
    assert(read_token(s, 0, names) == Ok::<(Option<Term>, int, Seq<Seq<char>>), Failure>((Some(t0), 1, names)));
    assert(seq![t0] + (seq![t1] + (seq![t2] + e)) =~= seq![t0, t1, t2]);
    let code = seq![t0, t1, t2];
    let c1 = code.drop_last().drop_last();
    let c2 = code.drop_last();
    assert(c1.drop_last() =~= e);
    assert(c2.drop_last() =~= c1);
    assert(c1.last() == t0);
    assert(c2.last() == t1);
    let m1 = m.with_stack(m.stack.push(Val::Integer(1)));
    let m2 = m.with_stack(m.stack.push(Val::Integer(1)).push(Val::Str("1"@)));
    assert(run_seq(depth, e, m, host) == done(m));
    assert(run_term(depth, t0, m, host) == done(m1));
    assert(run_seq(depth, c1, m, host) == done(m1));
    assert(run_term(depth, t1, m1, host) == done(m2));
    assert(run_seq(depth, c2, m, host) == done(m2));
    assert(run_seq(depth, code, m, host) == run_term(depth, t2, m2, host));
    assert(m2.stack[m2.stack.len() - 2] == Val::Integer(1));
    assert(m2.stack.last() == Val::Str("1"@));
    assert(m2.stack.subrange(0, m2.stack.len() - 2) =~= m.stack);
}

} // verus!

verus! {

/// The source text `[ 1 2 + ] app` parses to a Quote of `1 2 +` and `app`;
/// with nesting budget left, running it pushes `3`, as `1 2 +` does.
pub proof fn law_quote_app_text<R: Fn(RealOp, String, String) -> Value>(
    names: Seq<Seq<char>>,
    depth: nat,
    m: Machine,
    host: R,
)
    requires
        depth >= 1,
    ensures
        ({
            let s = "[ 1 2 + ] app"@;
            let body = seq![
                term_at(s, 3, Node::Integer(1)),
                term_at(s, 5, Node::Integer(2)),
                term_at(s, 7, Node::Builtin(Builtin::Add)),
            ];
            let code = seq![
                term_at(s, 1, Node::Quote(body)),
                term_at(s, 11, Node::Builtin(Builtin::App)),
            ];
            &&& parsed(s, names) == Ok::<(Seq<Term>, Seq<Seq<char>>), Failure>((code, names))
            &&& run_seq(depth, code, m, host) == done(m.with_stack(m.stack.push(Val::Integer(3))))
        }),
{
    reveal_strlit("[ 1 2 + ] app");
    reveal_strlit("+");
    reveal_strlit("-");
    reveal_strlit("*");
    reveal_strlit("/");
    reveal_strlit("%");
    reveal_strlit("dup");
    reveal_strlit("app");
    reveal_strlit("let");
    let s = "[ 1 2 + ] app"@;
    assert(s.len() == 13);
    assert(s[0] == '[' && s[1] == ' ' && s[2] == '1' && s[3] == ' ' && s[4] == '2' && s[5] == ' '
        && s[6] == '+' && s[7] == ' ' && s[8] == ']' && s[9] == ' ' && s[10] == 'a' && s[11] == 'p'
        && s[12] == 'p');
    let b0 = term_at(s, 3, Node::Integer(1));
    let b1 = term_at(s, 5, Node::Integer(2));
    let b2 = term_at(s, 7, Node::Builtin(Builtin::Add));
    let body = seq![b0, b1, b2];
    let t0 = term_at(s, 1, Node::Quote(body));
    let t1 = term_at(s, 11, Node::Builtin(Builtin::App));
    let e = Seq::<Term>::empty();
    assert(digits_value(Seq::<char>::empty()) == 0);
    assert(('1' as u32) - ('0' as u32) == 1);
    assert(('2' as u32) - ('0' as u32) == 2);
    assert(digits_end(s, 3) == 3);
    assert(s.subrange(2, 3).drop_last() =~= Seq::<char>::empty());
    assert(s.subrange(2, 3).last() == '1');
    assert(digits_value(s.subrange(2, 3)) == 1);
    assert(digits_end(s, 5) == 5);
    assert(s.subrange(4, 5).drop_last() =~= Seq::<char>::empty());
    assert(s.subrange(4, 5).last() == '2');
    assert(digits_value(s.subrange(4, 5)) == 2);
    assert(word_end(s, 7) == 7);
    assert(s.subrange(6, 7) =~= "+"@);
    assert(builtin_of(s.subrange(6, 7)) == Some(Builtin::Add));
    assert(word_end(s, 13) == 13);
    assert(word_end(s, 12) == 13);
    assert(word_end(s, 11) == 13);
    assert(s.subrange(10, 13) =~= "app"@);
    assert(builtin_of(s.subrange(10, 13)) == Some(Builtin::App));
    assert(read_block(s, 8, ']', names) == Ok::<(Seq<Term>, int, Seq<Seq<char>>), Failure>((e, 9, names)));
    assert(read_token(s, 7, names) == Ok::<(Option<Term>, int, Seq<Seq<char>>), Failure>((None, 8, names)));
    assert(read_block(s, 7, ']', names) == Ok::<(Seq<Term>, int, Seq<Seq<char>>), Failure>((e, 9, names)));
    assert(read_token(s, 6, names) == Ok::<(Option<Term>, int, Seq<Seq<char>>), Failure>((Some(b2), 7, names)));
    assert(read_block(s, 6, ']', names) == Ok::<(Seq<Term>, int, Seq<Seq<char>>), Failure>((seq![b2] + e, 9, names)));
    assert(read_token(s, 5, names) == Ok::<(Option<Term>, int, Seq<Seq<char>>), Failure>((None, 6, names)));
    assert(read_block(s, 5, ']', names) == read_block(s, 6, ']', names));
    assert(read_token(s, 4, names) == Ok::<(Option<Term>, int, Seq<Seq<char>>), Failure>((Some(b1), 5, names)));
    assert(read_block(s, 4, ']', names) == Ok::<(Seq<Term>, int, Seq<Seq<char>>), Failure>((seq![b1] + (seq![b2] + e), 9, names)));
    assert(read_token(s, 3, names) == Ok::<(Option<Term>, int, Seq<Seq<char>>), Failure>((None, 4, names)));
    assert(read_block(s, 3, ']', names) == read_block(s, 4, ']', names));
    assert(read_token(s, 2, names) == Ok::<(Option<Term>, int, Seq<Seq<char>>), Failure>((Some(b0), 3, names)));
    assert(read_block(s, 2, ']', names) == Ok::<(Seq<Term>, int, Seq<Seq<char>>), Failure>((seq![b0] + (seq![b1] + (seq![b2] + e)), 9, names)));
    assert(seq![b0] + (seq![b1] + (seq![b2] + e)) =~= body);
    assert(read_token(s, 1, names) == Ok::<(Option<Term>, int, Seq<Seq<char>>), Failure>((None, 2, names)));
    assert(read_block(s, 1, ']', names) == read_block(s, 2, ']', names));
    assert(read_all(s, 13, names) == Ok::<(Seq<Term>, Seq<Seq<char>>), Failure>((e, names)));
    assert(read_token(s, 10, names) == Ok::<(Option<Term>, int, Seq<Seq<char>>), Failure>((Some(t1), 13, names)));
    assert(read_all(s, 10, names) == Ok::<(Seq<Term>, Seq<Seq<char>>), Failure>((seq![t1] + e, names)));
    assert(read_token(s, 9, names) == Ok::<(Option<Term>, int, Seq<Seq<char>>), Failure>((None, 10, names)));
    assert(read_all(s, 9, names) == read_all(s, 10, names));
    assert(read_token(s, 0, names) == Ok::<(Option<Term>, int, Seq<Seq<char>>), Failure>((Some(t0), 9, names)));
    assert(seq![t0] + (seq![t1] + e) =~= seq![t0, t1]);
    let code = seq![t0, t1];
    let m1 = m.with_stack(m.stack.push(Val::Quote(body)));
    assert(code.drop_last().drop_last() =~= e);
    assert(code.drop_last().last() == t0);
    assert(run_seq(depth, e, m, host) == done(m));
    assert(run_term(depth, t0, m, host) == done(m1));
    assert(run_seq(depth, code.drop_last(), m, host) == done(m1));
    assert(m1.stack.drop_last() =~= m.stack);
    assert(m1.with_stack(m1.stack.drop_last()) == m);
    let d: nat = (depth - 1) as nat;
    assert(code.last() == t1);
    assert(run_seq(depth, code, m, host) == run_term(depth, t1, m1, host));
    assert(run_term(depth, t1, m1, host) == run_app(depth, m1, t1.line, t1.column, host));
    assert(run_app(depth, m1, t1.line, t1.column, host) == run_seq(d, body, m, host));
    let c1 = body.drop_last().drop_last();
    let c2 = body.drop_last();
    assert(c1.drop_last() =~= e);
    assert(c2.drop_last() =~= c1);
    assert(c1.last() == b0);
    assert(c2.last() == b1);
    let n1 = m.with_stack(m.stack.push(Val::Integer(1)));
    let n2 = m.with_stack(m.stack.push(Val::Integer(1)).push(Val::Integer(2)));
    assert(run_seq(d, e, m, host) == done(m));
    assert(run_term(d, b0, m, host) == done(n1));
    assert(run_seq(d, c1, m, host) == done(n1));
    assert(run_term(d, b1, n1, host) == done(n2));
    assert(run_seq(d, c2, m, host) == done(n2));
    assert(n2.stack.subrange(0, n2.stack.len() - 2) =~= m.stack);
    assert(run_seq(d, body, m, host) == run_term(d, b2, n2, host));
}

} // verus!

verus! {

/// The source text `pop` parses to the `pop` builtin; on an empty stack running
/// it fails with a stack underflow and changes nothing.
pub proof fn law_pop_text<R: Fn(RealOp, String, String) -> Value>(
    names: Seq<Seq<char>>,
    depth: nat,
    m: Machine,
    host: R,
)
    requires
        m.stack.len() == 0,
    ensures
        ({
            let s = "pop"@;
            let code = seq![term_at(s, 1, Node::Builtin(Builtin::Pop))];
            &&& parsed(s, names) == Ok::<(Seq<Term>, Seq<Seq<char>>), Failure>((code, names))
            &&& run_seq(depth, code, m, host).machine == m
            &&& run_seq(depth, code, m, host).error matches Some(f) && f.fault == Fault::StackUnderflow
        }),
{
    reveal_strlit("pop");
    reveal_strlit("+");
    reveal_strlit("-");
    reveal_strlit("*");
    reveal_strlit("/");
    reveal_strlit("%");
    reveal_strlit("dup");
    reveal_strlit("app");
    reveal_strlit("cat");
    reveal_strlit("let");
    let s = "pop"@;
    assert(s.len() == 3);
    assert(s[0] == 'p' && s[1] == 'o' && s[2] == 'p');
    let t0 = term_at(s, 1, Node::Builtin(Builtin::Pop));
    assert(word_end(s, 3) == 3);
    assert(word_end(s, 2) == 3);
    assert(word_end(s, 1) == 3);
    assert(s.subrange(0, 3) =~= s);
    assert(builtin_of(s) == Some(Builtin::Pop));
    assert(read_token(s, 0, names) == Ok::<(Option<Term>, int, Seq<Seq<char>>), Failure>((Some(t0), 3, names)));
    lemma_single_token(s, names, t0);
    let code = seq![t0];
    assert(code.drop_last() =~= Seq::<Term>::empty());
    assert(code.last() == t0);
    assert(run_seq(depth, Seq::<Term>::empty(), m, host) == done(m));
    assert(!is_binary(Builtin::Pop));
    assert(run_term(depth, t0, m, host) == stack_step(Builtin::Pop, m, t0.line, t0.column));
}

} // verus!

verus! {

/// `let X ( 1 1 + )` parses, from an empty table, to a Store of `1 1 +` in slot
/// 0 and declares `X`; `X` then parses to a reference to slot 0. Running the
/// declaration and then the reference twice pushes `2` each time: the body is
/// run again on every use.
pub proof fn law_let_text<R: Fn(RealOp, String, String) -> Value>(depth: nat, host: R)
    requires
        depth >= 1,
    ensures
        ({
            let s = "let X ( 1 1 + )"@;
            let body = seq![
                term_at(s, 9, Node::Integer(1)),
                term_at(s, 11, Node::Integer(1)),
                term_at(s, 13, Node::Builtin(Builtin::Add)),
            ];
            let decl = seq![term_at(s, 3, Node::Store(0, body))];
            let x = "X"@;
            let use_x = seq![term_at(x, 1, Node::Var(0))];
            let m0 = Machine::empty();
            let m1 = run_seq(depth, decl, m0, host).machine;
            let m2 = run_seq(depth, use_x, m1, host).machine;
            let m3 = run_seq(depth, use_x, m2, host);
            &&& parsed(s, Seq::empty()) == Ok::<(Seq<Term>, Seq<Seq<char>>), Failure>((decl, seq![x]))
            &&& parsed(x, seq![x]) == Ok::<(Seq<Term>, Seq<Seq<char>>), Failure>((use_x, seq![x]))
            &&& m2.stack == seq![Val::Integer(2)]
            &&& m3.error is None
            &&& m3.machine.stack == seq![Val::Integer(2), Val::Integer(2)]
        }),
{
    reveal_strlit("let X ( 1 1 + )");
    reveal_strlit("X");
    reveal_strlit("+");
    reveal_strlit("-");
    reveal_strlit("*");
    reveal_strlit("/");
    reveal_strlit("%");
    reveal_strlit("dup");
    reveal_strlit("app");
    reveal_strlit("cat");
    reveal_strlit("pop");
    reveal_strlit("swap");
    reveal_strlit("print_stack");
    reveal_strlit("eq");
    reveal_strlit("not");
    reveal_strlit("gt");
    reveal_strlit("lt");
    reveal_strlit("let");
    let s = "let X ( 1 1 + )"@;
    let x = "X"@;
    let names = seq![x];
    assert(s.len() == 15);
    assert(s[0] == 'l' && s[1] == 'e' && s[2] == 't' && s[3] == ' ' && s[4] == 'X' && s[5] == ' '
        && s[6] == '(' && s[7] == ' ' && s[8] == '1' && s[9] == ' ' && s[10] == '1' && s[11] == ' '
        && s[12] == '+' && s[13] == ' ' && s[14] == ')');
    let b0 = term_at(s, 9, Node::Integer(1));
    let b1 = term_at(s, 11, Node::Integer(1));
    let b2 = term_at(s, 13, Node::Builtin(Builtin::Add));
    let body = seq![b0, b1, b2];
    let e = Seq::<Term>::empty();
    let no = Seq::<Seq<char>>::empty();
    assert(digits_value(Seq::<char>::empty()) == 0);
    assert(('1' as u32) - ('0' as u32) == 1);
    assert(digits_end(s, 9) == 9);
    assert(s.subrange(8, 9).drop_last() =~= Seq::<char>::empty());
    assert(s.subrange(8, 9).last() == '1');
    assert(digits_value(s.subrange(8, 9)) == 1);
    assert(digits_end(s, 11) == 11);
    assert(s.subrange(10, 11).drop_last() =~= Seq::<char>::empty());
    assert(s.subrange(10, 11).last() == '1');
    assert(digits_value(s.subrange(10, 11)) == 1);
    assert(word_end(s, 13) == 13);
    assert(s.subrange(12, 13) =~= "+"@);
    assert(builtin_of(s.subrange(12, 13)) == Some(Builtin::Add));
    let skip = |q: int| Ok::<(Option<Term>, int, Seq<Seq<char>>), Failure>((None, q, no));
    assert(read_block(s, 14, ')', no) == Ok::<(Seq<Term>, int, Seq<Seq<char>>), Failure>((e, 15, no)));
    assert(read_token(s, 13, no) == skip(14));
    assert(read_block(s, 13, ')', no) == Ok::<(Seq<Term>, int, Seq<Seq<char>>), Failure>((e, 15, no)));
    assert(read_token(s, 12, no) == Ok::<(Option<Term>, int, Seq<Seq<char>>), Failure>((Some(b2), 13, no)));
    assert(read_block(s, 12, ')', no) == Ok::<(Seq<Term>, int, Seq<Seq<char>>), Failure>((seq![b2] + e, 15, no)));
    assert(read_token(s, 11, no) == skip(12));
    assert(read_block(s, 11, ')', no) == read_block(s, 12, ')', no));
    assert(read_token(s, 10, no) == Ok::<(Option<Term>, int, Seq<Seq<char>>), Failure>((Some(b1), 11, no)));
    assert(read_block(s, 10, ')', no) == Ok::<(Seq<Term>, int, Seq<Seq<char>>), Failure>((seq![b1] + (seq![b2] + e), 15, no)));
    assert(read_token(s, 9, no) == skip(10));
    assert(read_block(s, 9, ')', no) == read_block(s, 10, ')', no));
    assert(read_token(s, 8, no) == Ok::<(Option<Term>, int, Seq<Seq<char>>), Failure>((Some(b0), 9, no)));
    assert(read_block(s, 8, ')', no) == Ok::<(Seq<Term>, int, Seq<Seq<char>>), Failure>((seq![b0] + (seq![b1] + (seq![b2] + e)), 15, no)));
    assert(seq![b0] + (seq![b1] + (seq![b2] + e)) =~= body);
    assert(read_token(s, 7, no) == skip(8));
    assert(read_block(s, 7, ')', no) == read_block(s, 8, ')', no));
    assert(space_end(s, 4) == 4);
    assert(space_end(s, 3) == 4);
    assert(word_end(s, 5) == 5);
    assert(word_end(s, 4) == 5);
    assert(space_end(s, 6) == 6);
    assert(space_end(s, 5) == 6);
    assert(s.subrange(4, 5) =~= x);
    assert(first_slot(no, x, 0) is None);
    let st = term_at(s, 3, Node::Store(0, body));
    assert(read_declare(s, 3, no) == Ok::<(Term, int, Seq<Seq<char>>), Failure>((st, 15, no.push(x))));
    assert(no.push(x) =~= names);
    assert(word_end(s, 3) == 3);
    assert(word_end(s, 2) == 3);
    assert(word_end(s, 1) == 3);
    assert(s.subrange(0, 3) =~= "let"@);
    assert(read_token(s, 0, no) == Ok::<(Option<Term>, int, Seq<Seq<char>>), Failure>((Some(st), 15, names)));
    assert(read_all(s, 15, names) == Ok::<(Seq<Term>, Seq<Seq<char>>), Failure>((e, names)));
    assert(seq![st] + e =~= seq![st]);
    assert(x.len() == 1 && x[0] == 'X');
    assert(word_end(x, 1) == 1);
    assert(x.subrange(0, 1) =~= x);
    assert(x != "let"@);
    assert(builtin_of(x) is None);
    assert(first_slot(names, x, 0) == Some(0nat));
    let v = term_at(x, 1, Node::Var(0));
    assert(read_token(x, 0, names) == Ok::<(Option<Term>, int, Seq<Seq<char>>), Failure>((Some(v), 1, names)));
    lemma_single_token(x, names, v);
    let decl = seq![st];
    let use_x = seq![v];
    let m0 = Machine::empty();
    assert(decl.drop_last() =~= e);
    assert(use_x.drop_last() =~= e);
    assert(decl.last() == st);
    assert(use_x.last() == v);
    let m1 = Machine { stack: Seq::empty(), vars: seq![body], output: Seq::empty() };
    assert(run_seq(depth, e, m0, host) == done(m0));
    assert(m0.vars.push(body) =~= seq![body]);
    assert(run_term(depth, st, m0, host) == done(m1));
    assert(run_seq(depth, decl, m0, host) == done(m1));
    let d: nat = (depth - 1) as nat;
    let c1 = body.drop_last().drop_last();
    let c2 = body.drop_last();
    assert(c1.drop_last() =~= e);
    assert(c2.drop_last() =~= c1);
    assert(c1.last() == b0);
    assert(c2.last() == b1);
    assert(body.last() == b2);
    let k = m1.stack;
    let n1 = m1.with_stack(k.push(Val::Integer(1)));
    let n2 = m1.with_stack(k.push(Val::Integer(1)).push(Val::Integer(1)));
    assert(run_seq(d, e, m1, host) == done(m1));
    assert(run_term(d, b0, m1, host) == done(n1));
    assert(run_seq(d, c1, m1, host) == done(n1));
    assert(run_term(d, b1, n1, host) == done(n2));
    assert(run_seq(d, c2, m1, host) == done(n2));
    assert(n2.stack.subrange(0, n2.stack.len() - 2) =~= k);
    let m2 = m1.with_stack(k.push(Val::Integer(2)));
    assert(run_seq(d, body, m1, host) == run_term(d, b2, n2, host));
    assert(is_binary(Builtin::Add));
    assert(run_seq(d, body, m1, host) == done(m2));
    assert(run_seq(depth, e, m1, host) == done(m1));
    assert(run_seq(depth, use_x, m1, host) == run_term(depth, v, m1, host));
    assert(run_term(depth, v, m1, host) == done(m2));
    assert(k.push(Val::Integer(2)) =~= seq![Val::Integer(2)]);
    let k2 = m2.stack;
    let r1 = m2.with_stack(k2.push(Val::Integer(1)));
    let r2 = m2.with_stack(k2.push(Val::Integer(1)).push(Val::Integer(1)));
    assert(run_seq(d, e, m2, host) == done(m2));
    assert(run_term(d, b0, m2, host) == done(r1));
    assert(run_seq(d, c1, m2, host) == done(r1));
    assert(run_term(d, b1, r1, host) == done(r2));
    assert(run_seq(d, c2, m2, host) == done(r2));
    assert(r2.stack.subrange(0, r2.stack.len() - 2) =~= k2);
    let m3 = m2.with_stack(k2.push(Val::Integer(2)));
    assert(run_seq(d, body, m2, host) == run_term(d, b2, r2, host));
    assert(run_seq(d, body, m2, host) == done(m3));
    assert(run_seq(depth, e, m2, host) == done(m2));
    assert(run_seq(depth, use_x, m2, host) == run_term(depth, v, m2, host));
    assert(run_term(depth, v, m2, host) == done(m3));
    assert(k2.push(Val::Integer(2)) =~= seq![Val::Integer(2), Val::Integer(2)]);
}

} // verus!

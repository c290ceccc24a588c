use vstd::prelude::*;
use crate::text::{push_char, push_int, push_nat, push_text, owned, int_text, nat_text};

verus! {

/// The kinds a runtime value can have.
#[derive(Clone, Copy, Debug, PartialEq, Eq, Structural)]
pub enum Kind {
    Integer,
    Real,
    String,
    Quote,
    Symbol,
}

/// The fixed set of primitive stack operations.
#[derive(Clone, Copy, Debug, PartialEq, Eq, Structural)]
pub enum Builtin {
    Add,
    Sub,
    Mul,
    Div,
    Mod,
    Dup,
    App,
    Cat,
    Pop,
    Swap,
    PrintStack,
    Eq,
    Not,
    Gt,
    Lt,
}

/// The node of a parsed expression.
#[derive(Debug)]
pub enum ExprT {
    Symbol(String),
    String(String),
    Integer(i32),
    /// A real literal, held as its decimal text.
    Real(String),
    Quote(Vec<Expr>),
    Store(u16, Vec<Expr>),
    Var(u16),
    Builtin(Builtin),
}

/// A parsed expression with the position where it starts.
#[derive(Debug)]
pub struct Expr {
    pub kind: ExprT,
    pub line: usize,
    pub column: usize,
}

/// A runtime value on the operand stack.
#[derive(Debug)]
pub enum Value {
    Integer(i32),
    /// A real number, held as its decimal text.
    Real(String),
    String(String),
    Quote(Vec<Expr>),
    Symbol(String),
}

/// Mathematical model of an expression node.
pub enum Node {
    Symbol(Seq<char>),
    Str(Seq<char>),
    Integer(i32),
    Real(Seq<char>),
    Quote(Seq<Term>),
    Store(u16, Seq<Term>),
    Var(u16),
    Builtin(Builtin),
}

/// Mathematical model of an expression.
pub struct Term {
    pub node: Node,
    pub line: usize,
    pub column: usize,
}

/// Mathematical model of a runtime value.
pub enum Val {
    Integer(i32),
    Real(Seq<char>),
    Str(Seq<char>),
    Quote(Seq<Term>),
    Symbol(Seq<char>),
}

pub open spec fn term_of(e: Expr) -> Term
    decreases e,
{
    Term { node: node_of(e.kind), line: e.line, column: e.column }
}

pub open spec fn node_of(k: ExprT) -> Node
    decreases k,
{
    match k {
        ExprT::Symbol(s) => Node::Symbol(s@),
        ExprT::String(s) => Node::Str(s@),
        ExprT::Integer(i) => Node::Integer(i),
        ExprT::Real(s) => Node::Real(s@),
        ExprT::Quote(c) => Node::Quote(terms_of(c@)),
        ExprT::Store(i, c) => Node::Store(i, terms_of(c@)),
        ExprT::Var(i) => Node::Var(i),
        ExprT::Builtin(b) => Node::Builtin(b),
    }
}

pub open spec fn terms_of(s: Seq<Expr>) -> Seq<Term>
    decreases s,
{
    if s.len() == 0 {
        Seq::empty()
    } else {
        terms_of(s.drop_last()).push(term_of(s.last()))
    }
}

impl View for Expr {
    type V = Term;

    open spec fn view(&self) -> Term {
        term_of(*self)
    }
}

impl View for Value {
    type V = Val;

    open spec fn view(&self) -> Val {
        match *self {
            Value::Integer(i) => Val::Integer(i),
            Value::Real(s) => Val::Real(s@),
            Value::String(s) => Val::Str(s@),
            Value::Quote(c) => Val::Quote(terms_of(c@)),
            Value::Symbol(s) => Val::Symbol(s@),
        }
    }
}

pub proof fn lemma_terms_of(s: Seq<Expr>)
    ensures
        terms_of(s).len() == s.len(),
        forall|i: int| 0 <= i < s.len() ==> #[trigger] terms_of(s)[i] == s[i]@,
    decreases s.len(),
{
    if s.len() > 0 {
        lemma_terms_of(s.drop_last());
    }
}

pub proof fn lemma_terms_of_extend(s: Seq<Expr>, i: int)
    requires
        0 <= i < s.len(),
    ensures
        terms_of(s.subrange(0, i + 1)) == terms_of(s.subrange(0, i)).push(s[i]@),
{
    assert(s.subrange(0, i + 1).drop_last() =~= s.subrange(0, i));
}

pub proof fn lemma_terms_of_push(s: Seq<Expr>, e: Expr)
    ensures
        terms_of(s.push(e)) == terms_of(s).push(e@),
{
    assert(s.push(e).drop_last() =~= s);
}

pub proof fn lemma_terms_of_prefix(s: Seq<Expr>, i: int)
    requires
        0 <= i <= s.len(),
    ensures
        terms_of(s.subrange(0, i)) == terms_of(s).subrange(0, i),
{
    lemma_terms_of(s);
    lemma_terms_of(s.subrange(0, i));
    assert(terms_of(s.subrange(0, i)) =~= terms_of(s).subrange(0, i));
}

/// Two expression sequences whose elements have the same models have the same model.
pub proof fn lemma_terms_of_eq(a: Seq<Expr>, b: Seq<Expr>)
    requires
        a.len() == b.len(),
        forall|i: int| 0 <= i < a.len() ==> a[i]@ == b[i]@,
    ensures
        terms_of(a) == terms_of(b),
{
    lemma_terms_of(a);
    lemma_terms_of(b);
    assert(terms_of(a) =~= terms_of(b));
}

impl Val {
    pub open spec fn kind(self) -> Kind {
        match self {
            Val::Integer(_) => Kind::Integer,
            Val::Real(_) => Kind::Real,
            Val::Str(_) => Kind::String,
            Val::Quote(_) => Kind::Quote,
            Val::Symbol(_) => Kind::Symbol,
        }
    }
}

/// The name of a kind, as used in diagnostics.
pub open spec fn kind_name(k: Kind) -> Seq<char> {
    match k {
        Kind::Integer => "Integer"@,
        Kind::Real => "Real"@,
        Kind::String => "String"@,
        Kind::Quote => "Quote"@,
        Kind::Symbol => "Symbol"@,
    }
}

/// The name by which source text refers to a builtin.
pub open spec fn builtin_name(b: Builtin) -> Seq<char> {
    match b {
        Builtin::Add => "+"@,
        Builtin::Sub => "-"@,
        Builtin::Mul => "*"@,
        Builtin::Div => "/"@,
        Builtin::Mod => "%"@,
        Builtin::Dup => "dup"@,
        Builtin::App => "app"@,
        Builtin::Cat => "cat"@,
        Builtin::Pop => "pop"@,
        Builtin::Swap => "swap"@,
        Builtin::PrintStack => "print_stack"@,
        Builtin::Eq => "eq"@,
        Builtin::Not => "not"@,
        Builtin::Gt => "gt"@,
        Builtin::Lt => "lt"@,
    }
}

pub fn builtin_str(b: Builtin) -> (r: &'static str)
    ensures
        r@ == builtin_name(b),
{
    match b {
        Builtin::Add => "+",
        Builtin::Sub => "-",
        Builtin::Mul => "*",
        Builtin::Div => "/",
        Builtin::Mod => "%",
        Builtin::Dup => "dup",
        Builtin::App => "app",
        Builtin::Cat => "cat",
        Builtin::Pop => "pop",
        Builtin::Swap => "swap",
        Builtin::PrintStack => "print_stack",
        Builtin::Eq => "eq",
        Builtin::Not => "not",
        Builtin::Gt => "gt",
        Builtin::Lt => "lt",
    }
}

pub fn kind_str(k: Kind) -> (r: &'static str)
    ensures
        r@ == kind_name(k),
{
    match k {
        Kind::Integer => "Integer",
        Kind::Real => "Real",
        Kind::String => "String",
        Kind::Quote => "Quote",
        Kind::Symbol => "Symbol",
    }
}

/// Source text of an expression: the literal syntax for literals, the name of
/// a builtin, and a `$`-prefixed slot number for variable references.
pub open spec fn term_text(t: Term) -> Seq<char>
    decreases t,
{
    node_text(t.node)
}

pub open spec fn node_text(n: Node) -> Seq<char>
    decreases n,
{
    match n {
        Node::Symbol(s) => seq!['#'] + s,
        Node::Str(s) => seq!['"'] + s + seq!['"'],
        Node::Integer(i) => int_text(i as int),
        Node::Real(s) => real_text(s),
        Node::Quote(c) => seq!['['] + join_text(c) + seq![']'],
        Node::Store(i, c) => seq!['$'] + nat_text(i as nat) + " => ("@ + join_text(c) + seq![')'],
        Node::Var(i) => seq!['$'] + nat_text(i as nat),
        Node::Builtin(b) => builtin_name(b),
    }
}

/// The texts of a sequence of expressions, separated by single spaces.
pub open spec fn join_text(s: Seq<Term>) -> Seq<char>
    decreases s,
{
    if s.len() == 0 {
        Seq::empty()
    } else if s.len() == 1 {
        term_text(s[0])
    } else {
        join_text(s.drop_last()) + seq![' '] + term_text(s.last())
    }
}

/// The text of a real: its decimal text, with `.0` added when it has no `.`,
/// so that it reads back as a Real.
pub open spec fn real_text(t: Seq<char>) -> Seq<char> {
    if exists|i: int| 0 <= i < t.len() && t[i] == '.' {
        t
    } else {
        t + ".0"@
    }
}

fn push_real(s: &mut String, t: &String)
    ensures
        final(s)@ == old(s)@ + real_text(t@),
{
    let n = t.as_str().unicode_len();
    let mut i: usize = 0;
    let mut dot = false;
    while i < n
        invariant
            i <= n,
            n == t@.len(),
            dot <==> exists|j: int| 0 <= j < i && t@[j] == '.',
        decreases n - i,
    {
        if t.as_str().get_char(i) == '.' {
            dot = true;
        }
        i += 1;
    }
    push_text(s, t.as_str());
    if !dot {
        push_text(s, ".0");
    }
    assert(final(s)@ =~= old(s)@ + real_text(t@));
}

/// Equality of expression nodes, ignoring the positions of nested expressions.
pub open spec fn same_node(a: Node, b: Node) -> bool
    decreases a,
{
    match (a, b) {
        (Node::Quote(x), Node::Quote(y)) => same_terms(x, y),
        (Node::Store(i, x), Node::Store(j, y)) => i == j && same_terms(x, y),
        _ => a == b,
    }
}

/// Equality of expression sequences, ignoring positions.
pub open spec fn same_terms(a: Seq<Term>, b: Seq<Term>) -> bool
    decreases a,
{
    a.len() == b.len() && (a.len() == 0 || (same_terms(a.drop_last(), b.drop_last()) && same_node(
        a.last().node,
        b.last().node,
    )))
}

fn same_expr(a: &Expr, b: &Expr) -> (r: bool)
    ensures
        r == same_node(a@.node, b@.node),
    decreases a,
{
    match (&a.kind, &b.kind) {
        (ExprT::Symbol(x), ExprT::Symbol(y)) => *x == *y,
        (ExprT::String(x), ExprT::String(y)) => *x == *y,
        (ExprT::Integer(x), ExprT::Integer(y)) => *x == *y,
        (ExprT::Real(x), ExprT::Real(y)) => *x == *y,
        (ExprT::Quote(x), ExprT::Quote(y)) => same_exprs(x, y),
        (ExprT::Store(i, x), ExprT::Store(j, y)) => *i == *j && same_exprs(x, y),
        (ExprT::Var(i), ExprT::Var(j)) => *i == *j,
        (ExprT::Builtin(x), ExprT::Builtin(y)) => *x == *y,
        _ => false,
    }
}

/// Whether two expression sequences are equal, ignoring positions.
pub fn same_exprs(a: &Vec<Expr>, b: &Vec<Expr>) -> (r: bool)
    ensures
        r == same_terms(terms_of(a@), terms_of(b@)),
    decreases a,
{
    proof {
        lemma_terms_of(a@);
        lemma_terms_of(b@);
    }
    if a.len() != b.len() {
        return false;
    }
    let mut i: usize = 0;
    assert(terms_of(a@.subrange(0, 0)) =~= Seq::<Term>::empty());
    assert(terms_of(b@.subrange(0, 0)) =~= Seq::<Term>::empty());
    while i < a.len()
        invariant
            i <= a.len(),
            a.len() == b.len(),
            same_terms(terms_of(a@.subrange(0, i as int)), terms_of(b@.subrange(0, i as int))),
        decreases a.len() - i,
    {
        proof {
            lemma_terms_of_extend(a@, i as int);
            lemma_terms_of_extend(b@, i as int);
            lemma_terms_of(a@.subrange(0, i as int));
            lemma_terms_of(b@.subrange(0, i as int));
            let pa = terms_of(a@.subrange(0, i as int));
            let pb = terms_of(b@.subrange(0, i as int));
            assert(pa.push(a@[i as int]@).drop_last() =~= pa);
            assert(pb.push(b@[i as int]@).drop_last() =~= pb);
        }
        if !same_expr(&a[i], &b[i]) {
            proof {
                lemma_terms_of_prefix(a@, i as int + 1);
                lemma_terms_of_prefix(b@, i as int + 1);
                lemma_terms_of(a@);
                if same_terms(terms_of(a@), terms_of(b@)) {
                    lemma_same_terms_prefix(terms_of(a@), terms_of(b@), i as int + 1);
                }
            }
            return false;
        }
        i += 1;
    }
    assert(a@.subrange(0, a.len() as int) =~= a@);
    assert(b@.subrange(0, b.len() as int) =~= b@);
    true
}

/// Sequences equal up to positions have prefixes equal up to positions.
pub proof fn lemma_same_terms_prefix(a: Seq<Term>, b: Seq<Term>, k: int)
    requires
        0 <= k <= a.len(),
        same_terms(a, b),
    ensures
        same_terms(a.subrange(0, k), b.subrange(0, k)),
    decreases a.len(),
{
    if k == a.len() {
        assert(a.subrange(0, k) =~= a);
        assert(b.subrange(0, k) =~= b);
    } else {
        assert(a.drop_last().subrange(0, k) =~= a.subrange(0, k));
        assert(b.drop_last().subrange(0, k) =~= b.subrange(0, k));
        lemma_same_terms_prefix(a.drop_last(), b.drop_last(), k);
    }
}

/// Display text of a value; strings are put in double quotes when `quotes` is set.
pub open spec fn val_text(v: Val, quotes: bool) -> Seq<char> {
    match v {
        Val::Integer(i) => int_text(i as int),
        Val::Real(s) => real_text(s),
        Val::Str(s) => if quotes { seq!['"'] + s + seq!['"'] } else { s },
        Val::Quote(c) => seq!['['] + join_text(c) + seq![']'],
        Val::Symbol(s) => if quotes { seq!['#'] + s } else { s },
    }
}

fn push_expr_text(s: &mut String, e: &Expr)
    ensures
        final(s)@ == old(s)@ + term_text(e@),
    decreases e,
{
    match &e.kind {
        ExprT::Symbol(t) => {
            push_char(s, '#');
            push_text(s, t.as_str());
        },
        ExprT::String(t) => {
            push_char(s, '"');
            push_text(s, t.as_str());
            push_char(s, '"');
        },
        ExprT::Integer(i) => {
            push_int(s, *i);
        },
        ExprT::Real(t) => {
            push_real(s, t);
        },
        ExprT::Quote(c) => {
            push_char(s, '[');
            push_exprs_text(s, c);
            push_char(s, ']');
        },
        ExprT::Store(i, c) => {
            push_char(s, '$');
            push_nat(s, *i as u32);
            push_text(s, " => (");
            push_exprs_text(s, c);
            push_char(s, ')');
        },
        ExprT::Var(i) => {
            push_char(s, '$');
            push_nat(s, *i as u32);
        },
        ExprT::Builtin(b) => {
            push_text(s, builtin_str(*b));
        },
    }
    assert(final(s)@ =~= old(s)@ + term_text(e@));
}

fn push_exprs_text(s: &mut String, v: &Vec<Expr>)
    ensures
        final(s)@ == old(s)@ + join_text(terms_of(v@)),
    decreases v,
{
    let ghost s0 = s@;
    let mut i: usize = 0;
    while i < v.len()
        invariant
            i <= v.len(),
            s@ == s0 + join_text(terms_of(v@.subrange(0, i as int))),
        decreases v.len() - i,
    {
        proof {
            lemma_terms_of_extend(v@, i as int);
            lemma_terms_of(v@.subrange(0, i as int));
            let p = terms_of(v@.subrange(0, i as int));
            assert(p.push(v@[i as int]@).drop_last() =~= p);
        }
        if i > 0 {
            push_char(s, ' ');
        }
        push_expr_text(s, &v[i]);
        i += 1;
        assert(s@ =~= s0 + join_text(terms_of(v@.subrange(0, i as int))));
    }
    assert(v@.subrange(0, v.len() as int) =~= v@);
}

pub(crate) fn copy_exprs(v: &Vec<Expr>) -> (r: Vec<Expr>)
    ensures
        r@.len() == v@.len(),
        forall|i: int| 0 <= i < v@.len() ==> #[trigger] r@[i]@ == v@[i]@,
        terms_of(r@) == terms_of(v@),
    decreases v,
{
    let mut r: Vec<Expr> = Vec::new();
    let mut i: usize = 0;
    while i < v.len()
        invariant
            i <= v.len(),
            r@.len() == i,
            forall|j: int| 0 <= j < i ==> #[trigger] r@[j]@ == v@[j]@,
        decreases v.len() - i,
    {
        let e = v[i].deep_copy();
        r.push(e);
        i += 1;
    }
    proof {
        lemma_terms_of_eq(r@, v@);
    }
    r
}

impl Expr {
    pub fn new(kind: ExprT, line: usize, column: usize) -> (r: Expr)
        ensures
            r.kind == kind,
            r.line == line,
            r.column == column,
    {
        Expr { kind, line, column }
    }

    /// A copy of the expression, nested blocks included.
    pub fn deep_copy(&self) -> (r: Expr)
        ensures
            r@ == self@,
        decreases self,
    {
        let kind = match &self.kind {
            ExprT::Symbol(t) => ExprT::Symbol(t.clone()),
            ExprT::String(t) => ExprT::String(t.clone()),
            ExprT::Integer(i) => ExprT::Integer(*i),
            ExprT::Real(t) => ExprT::Real(t.clone()),
            ExprT::Quote(c) => ExprT::Quote(copy_exprs(c)),
            ExprT::Store(i, c) => ExprT::Store(*i, copy_exprs(c)),
            ExprT::Var(i) => ExprT::Var(*i),
            ExprT::Builtin(b) => ExprT::Builtin(*b),
        };
        Expr { kind, line: self.line, column: self.column }
    }
}

impl ExprT {
    /// The source text of the expression node.
    pub fn get_lit(self) -> (r: String)
        ensures
            r@ == node_text(node_of(self)),
    {
        let e = Expr { kind: self, line: 0, column: 0 };
        let mut r = String::new();
        push_expr_text(&mut r, &e);
        proof {
            assert(r@ =~= node_text(node_of(e.kind)));
        }
        r
    }
}

impl Value {
    pub fn kind(&self) -> (k: Kind)
        ensures
            k == self@.kind(),
    {
        match self {
            Value::Integer(_) => Kind::Integer,
            Value::Real(_) => Kind::Real,
            Value::String(_) => Kind::String,
            Value::Quote(_) => Kind::Quote,
            Value::Symbol(_) => Kind::Symbol,
        }
    }

    /// The name of the value's kind.
    pub fn get_type(self) -> (r: String)
        ensures
            r@ == kind_name(self@.kind()),
    {
        owned(kind_str(self.kind()))
    }

    /// The value's display text; strings get double quotes when `quotes` is set.
    pub fn get_lit(self, quotes: bool) -> (r: String)
        ensures
            r@ == val_text(self@, quotes),
    {
        let mut r = String::new();
        match &self {
            Value::Integer(i) => {
                push_int(&mut r, *i);
            },
            Value::Real(t) => {
                push_real(&mut r, t);
            },
            Value::String(t) => {
                if quotes {
                    push_char(&mut r, '"');
                }
                push_text(&mut r, t.as_str());
                if quotes {
                    push_char(&mut r, '"');
                }
            },
            Value::Quote(c) => {
                push_char(&mut r, '[');
                push_exprs_text(&mut r, c);
                push_char(&mut r, ']');
            },
            Value::Symbol(t) => {
                if quotes {
                    push_char(&mut r, '#');
                }
                push_text(&mut r, t.as_str());
            },
        }
        assert(r@ =~= val_text(self@, quotes));
        r
    }

    /// A copy of the value, nested blocks included.
    pub fn deep_copy(&self) -> (r: Value)
        ensures
            r@ == self@,
    {
        match self {
            Value::Integer(i) => Value::Integer(*i),
            Value::Real(t) => Value::Real(t.clone()),
            Value::String(t) => Value::String(t.clone()),
            Value::Quote(c) => Value::Quote(copy_exprs(c)),
            Value::Symbol(t) => Value::Symbol(t.clone()),
        }
    }
}

} // verus!

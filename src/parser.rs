use vstd::prelude::*;
use crate::error::{Error, ErrorKind, Failure, Fault};
use crate::text::{owned, push_char};
use crate::value::{Builtin, Expr, ExprT, Node, Term, builtin_name, copy_exprs, lemma_terms_of_push, terms_of};

verus! {

/// Every variable slot that `t` mentions is below `n`.
pub open spec fn scoped(t: Term, n: nat) -> bool
    decreases t,
{
    match t.node {
        Node::Quote(c) => all_scoped(c, n),
        Node::Store(i, c) => (i as nat) < n && all_scoped(c, n),
        Node::Var(i) => (i as nat) < n,
        _ => true,
    }
}

pub open spec fn all_scoped(s: Seq<Term>, n: nat) -> bool
    decreases s,
{
    if s.len() == 0 {
        true
    } else {
        all_scoped(s.drop_last(), n) && scoped(s.last(), n)
    }
}

/// Growing the symbol table keeps expressions in scope.
pub proof fn lemma_scoped_grows(t: Term, n: nat, n2: nat)
    requires
        scoped(t, n),
        n <= n2,
    ensures
        scoped(t, n2),
    decreases t,
{
    match t.node {
        Node::Quote(c) => lemma_all_scoped_grows(c, n, n2),
        Node::Store(i, c) => lemma_all_scoped_grows(c, n, n2),
        _ => {},
    }
}

pub proof fn lemma_all_scoped_grows(s: Seq<Term>, n: nat, n2: nat)
    requires
        all_scoped(s, n),
        n <= n2,
    ensures
        all_scoped(s, n2),
    decreases s,
{
    if s.len() > 0 {
        lemma_all_scoped_grows(s.drop_last(), n, n2);
        lemma_scoped_grows(s.last(), n, n2);
    }
}

/// `b` starts with the entries of `a`.
pub open spec fn extends(a: Seq<String>, b: Seq<String>) -> bool {
    b.len() >= a.len() && forall|i: int| 0 <= i < a.len() ==> #[trigger] b[i] == a[i]
}

/// The characters that end a bare identifier or a `#` symbol.
pub open spec fn is_terminator(c: char) -> bool {
    c == '(' || c == ']' || c == ')' || c == ' ' || c == '\t' || c == '\r' || c == '\n'
}

fn terminator(c: Option<char>) -> (r: bool)
    ensures
        r == (c matches Some(x) && is_terminator(x)),
{
    match c {
        Some(x) => x == '(' || x == ']' || x == ')' || x == ' ' || x == '\t' || x == '\r' || x == '\n',
        None => false,
    }
}

fn is_digit(c: char) -> (r: bool)
    ensures
        r == ('0' <= c && c <= '9'),
{
    '0' <= c && c <= '9'
}

/// The value of a sequence of decimal digits.
pub open spec fn digits_value(s: Seq<char>) -> nat
    decreases s.len(),
{
    if s.len() == 0 {
        0
    } else {
        digits_value(s.drop_last()) * 10 + ((s.last() as u32) - ('0' as u32)) as nat
    }
}

/// Where the word starting at `i` ends: at the first terminator, or at the end.
pub open spec fn word_end(s: Seq<char>, i: int) -> int
    decreases s.len() - i,
{
    if i >= s.len() || is_terminator(s[i]) { i } else { word_end(s, i + 1) }
}

/// Where the line starting at `i` ends: at the first line feed, or at the end.
pub open spec fn line_end(s: Seq<char>, i: int) -> int
    decreases s.len() - i,
{
    if i >= s.len() || s[i] == '\n' { i } else { line_end(s, i + 1) }
}

/// The first double quote at or after `i`, or the end.
pub open spec fn quote_end(s: Seq<char>, i: int) -> int
    decreases s.len() - i,
{
    if i >= s.len() || s[i] == '"' { i } else { quote_end(s, i + 1) }
}

pub open spec fn is_digit_char(c: char) -> bool {
    '0' <= c <= '9'
}

/// The end of the run of decimal digits starting at `i`.
pub open spec fn digits_end(s: Seq<char>, i: int) -> int
    decreases s.len() - i,
{
    if i >= s.len() || !is_digit_char(s[i]) { i } else { digits_end(s, i + 1) }
}

/// The first character at or after `i` that is not a space, or the end.
pub open spec fn space_end(s: Seq<char>, i: int) -> int
    decreases s.len() - i,
{
    if i >= s.len() || s[i] != ' ' { i } else { space_end(s, i + 1) }
}

/// Line and column after reading the first `p` characters: a line feed starts
/// a new line at column 0, any other character moves one column on.
pub open spec fn position(s: Seq<char>, p: int) -> (nat, nat)
    decreases p,
{
    if p <= 0 || p > s.len() {
        (0, 0)
    } else {
        let lc = position(s, p - 1);
        if s[p - 1] == '\n' { (lc.0 + 1, 0) } else { (lc.0, lc.1 + 1) }
    }
}

/// An error located where reading the first `p` characters leaves the cursor.
pub open spec fn failure_at(s: Seq<char>, p: int, fault: Fault) -> Failure {
    Failure { line: position(s, p).0 as usize, column: position(s, p).1 as usize, fault }
}

/// An expression located where reading the first `p` characters leaves the cursor.
pub open spec fn term_at(s: Seq<char>, p: int, node: Node) -> Term {
    Term { node, line: position(s, p).0 as usize, column: position(s, p).1 as usize }
}

/// The texts of a symbol table.
pub open spec fn names_of(v: Seq<String>) -> Seq<Seq<char>> {
    v.map_values(|x: String| x@)
}

/// The first slot at or after `i` that holds `raw`.
pub open spec fn first_slot(names: Seq<Seq<char>>, raw: Seq<char>, i: int) -> Option<nat>
    decreases names.len() - i,
{
    if i < 0 || i >= names.len() {
        None
    } else if names[i] == raw {
        Some(i as nat)
    } else {
        first_slot(names, raw, i + 1)
    }
}

/// The builtin that source text names `raw`.
pub open spec fn builtin_of(raw: Seq<char>) -> Option<Builtin> {
    if raw == "+"@ {
        Some(Builtin::Add)
    } else if raw == "-"@ {
        Some(Builtin::Sub)
    } else if raw == "*"@ {
        Some(Builtin::Mul)
    } else if raw == "/"@ {
        Some(Builtin::Div)
    } else if raw == "%"@ {
        Some(Builtin::Mod)
    } else if raw == "dup"@ {
        Some(Builtin::Dup)
    } else if raw == "app"@ {
        Some(Builtin::App)
    } else if raw == "cat"@ {
        Some(Builtin::Cat)
    } else if raw == "pop"@ {
        Some(Builtin::Pop)
    } else if raw == "swap"@ {
        Some(Builtin::Swap)
    } else if raw == "print_stack"@ {
        Some(Builtin::PrintStack)
    } else if raw == "eq"@ {
        Some(Builtin::Eq)
    } else if raw == "not"@ {
        Some(Builtin::Not)
    } else if raw == "gt"@ {
        Some(Builtin::Gt)
    } else if raw == "lt"@ {
        Some(Builtin::Lt)
    } else {
        None
    }
}

/// A token, if any, in front of the tokens that follow it.
pub open spec fn with_token(t: Option<Term>, rest: Seq<Term>) -> Seq<Term> {
    match t {
        Some(x) => seq![x] + rest,
        None => rest,
    }
}

/// Reads the token at `p`: nothing for whitespace and comments, a Symbol after
/// `#`, a String between double quotes, a Quote after `[`, a number after a
/// digit, and otherwise a bare word. Gives the token, where reading stopped,
/// and the symbol table afterwards.
pub open spec fn read_token(s: Seq<char>, p: int, names: Seq<Seq<char>>) -> Result<
    (Option<Term>, int, Seq<Seq<char>>),
    Failure,
>
    decreases s.len() - p, 3nat,
{
    if p < 0 || p >= s.len() {
        Err(failure_at(s, s.len() as int, Fault::UnexpectedEof))
    } else {
        let c = s[p];
        if c == ' ' || c == '\t' || c == '\n' || c == '\r' {
            Ok((None, p + 1, names))
        } else if c == '#' {
            let q = word_end(s, p + 1);
            Ok((Some(term_at(s, p + 1, Node::Symbol(s.subrange(p + 1, q)))), q, names))
        } else if c == ';' {
            Ok((None, line_end(s, p + 1), names))
        } else if c == '[' {
            match read_block(s, p + 1, ']', names) {
                Ok((body, q, n)) => Ok((Some(term_at(s, p + 1, Node::Quote(body))), q, n)),
                Err(e) => Err(e),
            }
        } else if c == '"' {
            let e = quote_end(s, p + 1);
            if e >= s.len() {
                Err(failure_at(s, s.len() as int, Fault::UnexpectedEof))
            } else {
                Ok((Some(term_at(s, p + 1, Node::Str(s.subrange(p + 1, e)))), e + 1, names))
            }
        } else if is_digit_char(c) {
            read_number(s, p, names)
        } else {
            read_word(s, p, names)
        }
    }
}

/// A digit-led token: a Real when the digits are followed by `.`, else an
/// Integer, which must fit 32 bits.
pub open spec fn read_number(s: Seq<char>, p: int, names: Seq<Seq<char>>) -> Result<
    (Option<Term>, int, Seq<Seq<char>>),
    Failure,
> {
    let d1 = digits_end(s, p + 1);
    if d1 < s.len() && s[d1] == '.' {
        let d2 = digits_end(s, d1 + 1);
        Ok((Some(term_at(s, p + 1, Node::Real(s.subrange(p, d2)))), d2, names))
    } else {
        let v = digits_value(s.subrange(p, d1));
        if v <= i32::MAX {
            Ok((Some(term_at(s, p + 1, Node::Integer(v as i32))), d1, names))
        } else {
            Err(failure_at(s, p + 1, Fault::NumberOutOfRange))
        }
    }
}

/// A bare word: the declaration keyword, a builtin, or the first slot of a
/// declared variable; any other word is undefined.
pub open spec fn read_word(s: Seq<char>, p: int, names: Seq<Seq<char>>) -> Result<
    (Option<Term>, int, Seq<Seq<char>>),
    Failure,
>
    decreases s.len() - p, 2nat,
{
    let q = word_end(s, p + 1);
    let raw = s.subrange(p, q);
    if q <= p || q > s.len() {
        Err(failure_at(s, p, Fault::UnexpectedEof))
    } else if raw == "let"@ {
        match read_declare(s, q, names) {
            Ok((t, q2, n)) => Ok((Some(t), q2, n)),
            Err(e) => Err(e),
        }
    } else {
        match builtin_of(raw) {
            Some(b) => Ok((Some(term_at(s, p + 1, Node::Builtin(b))), q, names)),
            None => match first_slot(names, raw, 0) {
                Some(i) => Ok((Some(term_at(s, p + 1, Node::Var(i as u16))), q, names)),
                None => Err(failure_at(s, p + 1, Fault::UndefinedVariable(raw))),
            },
        }
    }
}

/// `let NAME ( body... )` after the keyword, which ends at `q`: binds NAME to
/// the body, in the first slot holding NAME once the body is read, or in a new
/// slot at the end.
pub open spec fn read_declare(s: Seq<char>, q: int, names: Seq<Seq<char>>) -> Result<
    (Term, int, Seq<Seq<char>>),
    Failure,
>
    decreases s.len() - q, 1nat,
{
    let n0 = space_end(s, q);
    let w = word_end(s, n0);
    let k = space_end(s, w);
    if q < 0 || q > s.len() || k < q || k > s.len() {
        Err(failure_at(s, q, Fault::UnexpectedEof))
    } else if w >= s.len() || k >= s.len() {
        Err(failure_at(s, s.len() as int, Fault::UnexpectedEof))
    } else if s[k] != '(' {
        Err(failure_at(s, k + 1, Fault::Unexpected { expected: '(', found: s[k] }))
    } else {
        let name = s.subrange(n0, w);
        match read_block(s, k + 1, ')', names) {
            Err(e) => Err(e),
            Ok((body, q2, n2)) => match first_slot(n2, name, 0) {
                Some(i) => Ok((term_at(s, q, Node::Store(i as u16, body)), q2, n2)),
                None => if n2.len() >= 0x10000 {
                    Err(failure_at(s, q, Fault::TooManyVariables))
                } else {
                    Ok((term_at(s, q, Node::Store(n2.len() as u16, body)), q2, n2.push(name)))
                },
            },
        }
    }
}

/// Tokens from `p` up to the closing `close`, which is consumed.
pub open spec fn read_block(s: Seq<char>, p: int, close: char, names: Seq<Seq<char>>) -> Result<
    (Seq<Term>, int, Seq<Seq<char>>),
    Failure,
>
    decreases s.len() - p, 4nat,
{
    if p < 0 || p > s.len() {
        Err(failure_at(s, s.len() as int, Fault::UnexpectedEof))
    } else if p < s.len() && s[p] == close {
        Ok((Seq::empty(), p + 1, names))
    } else {
        match read_token(s, p, names) {
            Err(e) => Err(e),
            Ok((t, q, n)) => if q <= p || q > s.len() {
                Err(failure_at(s, p, Fault::UnexpectedEof))
            } else {
                match read_block(s, q, close, n) {
                    Err(e) => Err(e),
                    Ok((rest, q2, n2)) => Ok((with_token(t, rest), q2, n2)),
                }
            },
        }
    }
}

/// All tokens from `p` to the end of the input.
pub open spec fn read_all(s: Seq<char>, p: int, names: Seq<Seq<char>>) -> Result<
    (Seq<Term>, Seq<Seq<char>>),
    Failure,
>
    decreases s.len() - p,
{
    if p < 0 || p >= s.len() {
        Ok((Seq::empty(), names))
    } else {
        match read_token(s, p, names) {
            Err(e) => Err(e),
            Ok((t, q, n)) => if q <= p || q > s.len() {
                Err(failure_at(s, p, Fault::UnexpectedEof))
            } else {
                match read_all(s, q, n) {
                    Err(e) => Err(e),
                    Ok((rest, n2)) => Ok((with_token(t, rest), n2)),
                }
            },
        }
    }
}

/// The expressions of a whole source text and the symbol table after it, or
/// the first error. Names declared before an error are not part of the result.
pub open spec fn parsed(src: Seq<char>, names: Seq<Seq<char>>) -> Result<
    (Seq<Term>, Seq<Seq<char>>),
    Failure,
> {
    read_all(src, 0, names)
}

/// `r` with `pre` put in front of the tokens it read.
pub open spec fn prefixed(pre: Seq<Term>, r: Result<(Seq<Term>, int, Seq<Seq<char>>), Failure>) -> Result<
    (Seq<Term>, int, Seq<Seq<char>>),
    Failure,
> {
    match r {
        Ok((c, q, n)) => Ok((pre + c, q, n)),
        Err(e) => Err(e),
    }
}

/// `r` with `pre` put in front of the tokens it read.
pub open spec fn prefixed_all(pre: Seq<Term>, r: Result<(Seq<Term>, Seq<Seq<char>>), Failure>) -> Result<
    (Seq<Term>, Seq<Seq<char>>),
    Failure,
> {
    match r {
        Ok((c, n)) => Ok((pre + c, n)),
        Err(e) => Err(e),
    }
}

/// An expression, if any, as its model.
pub open spec fn opt_view(t: Option<Expr>) -> Option<Term> {
    match t {
        Some(e) => Some(e@),
        None => None,
    }
}

/// The builtin that source text names `raw`, if any.
fn lookup_builtin(raw: &String) -> (r: Option<Builtin>)
    ensures
        r matches Some(b) ==> builtin_name(b) == raw@,
        r is None ==> forall|b: Builtin| builtin_name(b) != raw@,
        r == builtin_of(raw@),
{
    if *raw == owned("+") {
        return Some(Builtin::Add);
    }
    if *raw == owned("-") {
        return Some(Builtin::Sub);
    }
    if *raw == owned("*") {
        return Some(Builtin::Mul);
    }
    if *raw == owned("/") {
        return Some(Builtin::Div);
    }
    if *raw == owned("%") {
        return Some(Builtin::Mod);
    }
    if *raw == owned("dup") {
        return Some(Builtin::Dup);
    }
    if *raw == owned("app") {
        return Some(Builtin::App);
    }
    if *raw == owned("cat") {
        return Some(Builtin::Cat);
    }
    if *raw == owned("pop") {
        return Some(Builtin::Pop);
    }
    if *raw == owned("swap") {
        return Some(Builtin::Swap);
    }
    if *raw == owned("print_stack") {
        return Some(Builtin::PrintStack);
    }
    if *raw == owned("eq") {
        return Some(Builtin::Eq);
    }
    if *raw == owned("not") {
        return Some(Builtin::Not);
    }
    if *raw == owned("gt") {
        return Some(Builtin::Gt);
    }
    if *raw == owned("lt") {
        return Some(Builtin::Lt);
    }
    None
}

/// A parser for one fragment of source text, given the variable names declared so far.
pub struct Parser {
    input: Vec<char>,
    symbols: Vec<String>,
    output: Vec<Expr>,
    line: usize,
    column: usize,
    current: usize,
}

impl Parser {
    /// The parser's own invariant.
    pub closed spec fn wf(&self) -> bool {
        &&& self.current <= self.input@.len()
        &&& self.line <= self.current
        &&& self.column <= self.current
        &&& (self.line as nat, self.column as nat) == position(self.input@, self.current as int)
        &&& self.symbols@.len() <= 0x10000
        &&& all_scoped(terms_of(self.output@), self.symbols@.len() as nat)
    }

    /// A parser that has read nothing yet.
    pub closed spec fn fresh(&self) -> bool {
        self.current == 0 && self.output@.len() == 0
    }

    /// The variable names known to the parser, in slot order.
    pub closed spec fn names(&self) -> Seq<String> {
        self.symbols@
    }

    /// The text being parsed.
    pub closed spec fn source(&self) -> Seq<char> {
        self.input@
    }

    /// How many characters of the input are consumed.
    pub closed spec fn consumed(&self) -> nat {
        self.current as nat
    }

    pub closed spec fn remaining(&self) -> nat {
        (self.input@.len() - self.current) as nat
    }

    pub fn new(input: &str, symbols: Vec<String>) -> (r: Parser)
        requires
            symbols@.len() <= 0x10000,
        ensures
            r.wf(),
            r.names() == symbols@,
            r.source() == input@,
            r.consumed() == 0,
            r.fresh(),
    {
        let mut chars: Vec<char> = Vec::new();
        let n = input.unicode_len();
        let mut i: usize = 0;
        while i < n
            invariant
                i <= n,
                n == input@.len(),
                chars@ == input@.subrange(0, i as int),
            decreases n - i,
        {
            chars.push(input.get_char(i));
            i += 1;
            assert(chars@ =~= input@.subrange(0, i as int));
        }
        let r = Parser { input: chars, symbols, output: Vec::new(), line: 0, column: 0, current: 0 };
        assert(terms_of(r.output@) =~= Seq::<Term>::empty());
        r
    }

    fn text(&self, from: usize, to: usize) -> (r: String)
        requires
            from <= to <= self.input@.len(),
        ensures
            r@ == self.input@.subrange(from as int, to as int),
    {
        let mut r = String::new();
        let mut i = from;
        while i < to
            invariant
                from <= i <= to,
                to <= self.input@.len(),
                r@ == self.input@.subrange(from as int, i as int),
            decreases to - i,
        {
            push_char(&mut r, self.input[i]);
            i += 1;
            assert(r@ =~= self.input@.subrange(from as int, i as int));
        }
        r
    }

    fn peek(&self, ahead: usize) -> (r: Option<char>)
        requires
            self.wf(),
        ensures
            self.current + ahead < self.input@.len() ==> r == Some(self.input@[self.current + ahead]),
            self.current + ahead >= self.input@.len() ==> r is None,
    {
        if ahead < self.input.len() - self.current {
            Some(self.input[self.current + ahead])
        } else {
            None
        }
    }

    fn is_at_end(&self) -> (r: bool)
        requires
            self.wf(),
        ensures
            r == (self.current == self.input@.len()),
    {
        self.current >= self.input.len()
    }

    /// Consumes one character, keeping the line and column counters.
    fn pop(&mut self) -> (r: Result<char, Error>)
        requires
            old(self).wf(),
        ensures
            final(self).wf(),
            final(self).input == old(self).input,
            final(self).symbols == old(self).symbols,
            final(self).output == old(self).output,
            old(self).current < old(self).input@.len() ==> final(self).current == old(self).current + 1
                && r == Ok::<char, Error>(old(self).input@[old(self).current as int]),
            old(self).current >= old(self).input@.len() ==> final(self).current == old(self).current
                && r is Err,
            r matches Err(e) ==> e@ == failure_at(old(self).input@, old(self).current as int, Fault::UnexpectedEof),
    {
        if self.current < self.input.len() {
            let c = self.input[self.current];
            self.current += 1;
            if c == '\n' {
                self.line += 1;
                self.column = 0;
            } else {
                self.column += 1;
            }
            Ok(c)
        } else {
            Err(Error::new(self.line, self.column, ErrorKind::UnexpectedEof))
        }
    }

    fn spaces(&mut self)
        requires
            old(self).wf(),
        ensures
            final(self).wf(),
            final(self).input == old(self).input,
            final(self).symbols == old(self).symbols,
            final(self).output == old(self).output,
            final(self).current >= old(self).current,
            final(self).current == space_end(old(self).input@, old(self).current as int),
    {
        while !self.is_at_end() && self.peek(0) == Some(' ')
            invariant
                self.wf(),
                self.input == old(self).input,
                self.symbols == old(self).symbols,
                self.output == old(self).output,
                self.current >= old(self).current,
                space_end(self.input@, self.current as int) == space_end(self.input@, old(self).current as int),
            decreases self.input@.len() - self.current,
        {
            let _ = self.pop();
        }
    }

    /// Consumes one character, which must be `expected`.
    fn advance(&mut self, expected: char) -> (r: Result<(), Error>)
        requires
            old(self).wf(),
        ensures
            final(self).wf(),
            final(self).input == old(self).input,
            final(self).symbols == old(self).symbols,
            final(self).output == old(self).output,
            r is Ok ==> final(self).current == old(self).current + 1,
            r is Ok <==> old(self).current < old(self).input@.len() && old(self).input@[old(self).current as int] == expected,
            final(self).current >= old(self).current,
            old(self).current >= old(self).input@.len() ==> (r matches Err(e) && e@ == failure_at(
                old(self).input@,
                old(self).current as int,
                Fault::UnexpectedEof,
            )),
            old(self).current < old(self).input@.len() && old(self).input@[old(self).current as int] != expected
                ==> (r matches Err(e) && e@ == failure_at(
                old(self).input@,
                old(self).current + 1,
                Fault::Unexpected { expected, found: old(self).input@[old(self).current as int] },
            )),
    {
        let popped = match self.pop() {
            Ok(c) => c,
            Err(e) => return Err(e),
        };
        if popped == expected {
            Ok(())
        } else {
            Err(Error::new(self.line, self.column, ErrorKind::Unexpected { expected, found: popped }))
        }
    }

    fn find_symbol(&self, raw: &String) -> (r: Option<usize>)
        ensures
            r matches Some(i) ==> i < self.symbols@.len() && self.symbols@[i as int]@ == raw@
                && forall|j: int| 0 <= j < i ==> #[trigger] self.symbols@[j]@ != raw@,
            r is None ==> forall|i: int| 0 <= i < self.symbols@.len() ==> #[trigger] self.symbols@[i]@ != raw@,
            match r {
                Some(i) => first_slot(names_of(self.symbols@), raw@, 0) == Some(i as nat),
                None => first_slot(names_of(self.symbols@), raw@, 0) is None,
            },
    {
        let mut i: usize = 0;
        while i < self.symbols.len()
            invariant
                i <= self.symbols@.len(),
                forall|j: int| 0 <= j < i ==> #[trigger] self.symbols@[j]@ != raw@,
                first_slot(names_of(self.symbols@), raw@, 0) == first_slot(names_of(self.symbols@), raw@, i as int),
            decreases self.symbols.len() - i,
        {
            assert(names_of(self.symbols@)[i as int] == self.symbols@[i as int]@);
            if self.symbols[i] == *raw {
                return Some(i);
            }
            i += 1;
        }
        None
    }

    /// The value of the digits in `from..to`, if it fits an `i32`.
    fn int_of(&self, from: usize, to: usize) -> (r: Option<i32>)
        requires
            from <= to <= self.input@.len(),
            forall|k: int| from <= k < to ==> '0' <= #[trigger] self.input@[k] <= '9',
        ensures
            r matches Some(v) ==> v as int == digits_value(self.input@.subrange(from as int, to as int)),
            r is None ==> digits_value(self.input@.subrange(from as int, to as int)) > i32::MAX,
    {
        let mut acc: i64 = 0;
        let mut i = from;
        while i < to
            invariant
                from <= i <= to,
                to <= self.input@.len(),
                forall|k: int| from <= k < to ==> '0' <= #[trigger] self.input@[k] <= '9',
                0 <= acc <= i32::MAX,
                acc as int == digits_value(self.input@.subrange(from as int, i as int)),
            decreases to - i,
        {
            let c = self.input[i];
            let d = (c as u32 - '0' as u32) as i64;
            assert(self.input@.subrange(from as int, i + 1).drop_last() =~= self.input@.subrange(from as int, i as int));
            acc = acc * 10 + d;
            i += 1;
            if acc > 0x7fff_ffff {
                proof {
                    lemma_digits_grow(self.input@.subrange(from as int, to as int), (i - from) as int);
                    assert(self.input@.subrange(from as int, to as int).subrange(0, (i - from) as int) =~= self.input@.subrange(from as int, i as int));
                }
                return None;
            }
        }
        Some(acc as i32)
    }

    /// One token: `None` for whitespace and comments.
    fn parse_one(&mut self) -> (r: Result<Option<Expr>, Error>)
        requires
            old(self).wf(),
        ensures
            final(self).wf(),
            final(self).input == old(self).input,
            final(self).output == old(self).output,
            extends(old(self).symbols@, final(self).symbols@),
            r is Ok ==> final(self).current > old(self).current,
            final(self).current >= old(self).current,
            r matches Ok(Some(e)) ==> scoped(e@, final(self).symbols@.len() as nat),
            match r {
                Ok(t) => read_token(old(self).input@, old(self).current as int, names_of(old(self).symbols@)) == Ok::<(Option<Term>, int, Seq<Seq<char>>), Failure>((opt_view(t), final(self).current as int, names_of(final(self).symbols@))),
                Err(e) => read_token(old(self).input@, old(self).current as int, names_of(old(self).symbols@)) == Err::<(Option<Term>, int, Seq<Seq<char>>), Failure>(e@),
            },
        decreases old(self).remaining(), 2nat,
    {
        let start = self.current;
        let c = match self.pop() {
            Ok(c) => c,
            Err(e) => return Err(e),
        };
        if c == ' ' || c == '\t' || c == '\n' || c == '\r' {
            return Ok(None);
        }
        if c == '#' {
            let (line, column) = (self.line, self.column);
            while !self.is_at_end() && !terminator(self.peek(0))
                invariant
                    self.wf(),
                    self.input == old(self).input,
                    self.symbols == old(self).symbols,
                    self.output == old(self).output,
                    self.current > start,
                    start == old(self).current,
                    old(self).input@[start as int] == '#',
                    word_end(self.input@, self.current as int) == word_end(self.input@, start + 1),
                decreases self.input@.len() - self.current,
            {
                let _ = self.pop();
            }
            let s = self.text(start + 1, self.current);
            return Ok(Some(Expr::new(ExprT::Symbol(s), line, column)));
        }
        if c == ';' {
            while !self.is_at_end() && self.peek(0) != Some('\n')
                invariant
                    self.wf(),
                    self.input == old(self).input,
                    self.symbols == old(self).symbols,
                    self.output == old(self).output,
                    self.current > start,
                    start == old(self).current,
                    old(self).input@[start as int] == ';',
                    line_end(self.input@, self.current as int) == line_end(self.input@, start + 1),
                decreases self.input@.len() - self.current,
            {
                let _ = self.pop();
            }
            return Ok(None);
        }
        if c == '[' {
            let (line, column) = (self.line, self.column);
            let content = match self.block(']') {
                Ok(v) => v,
                Err(e) => return Err(e),
            };
            return Ok(Some(Expr::new(ExprT::Quote(content), line, column)));
        }
        if c == '"' {
            let (line, column) = (self.line, self.column);
            while self.peek(0) != Some('"')
                invariant
                    self.wf(),
                    self.input == old(self).input,
                    self.symbols == old(self).symbols,
                    self.output == old(self).output,
                    self.current > start,
                    start == old(self).current,
                    old(self).input@[start as int] == '"',
                    quote_end(self.input@, self.current as int) == quote_end(self.input@, start + 1),
                decreases self.input@.len() - self.current,
            {
                match self.pop() {
                    Ok(_) => {},
                    Err(e) => {
                        assert(self.current >= self.input@.len());
                        assert(quote_end(self.input@, self.current as int) == self.current);
                        return Err(e);
                    },
                }
            }
            match self.advance('"') {
                Ok(_) => {},
                Err(e) => return Err(e),
            }
            let s = self.text(start + 1, self.current - 1);
            return Ok(Some(Expr::new(ExprT::String(s), line, column)));
        }
        if is_digit(c) {
            return self.number(start);
        }
        self.identifier(start)
    }

    /// Tokens up to the closing `close`, which is consumed.
    fn block(&mut self, close: char) -> (r: Result<Vec<Expr>, Error>)
        requires
            old(self).wf(),
        ensures
            final(self).wf(),
            final(self).input == old(self).input,
            final(self).output == old(self).output,
            extends(old(self).symbols@, final(self).symbols@),
            r is Ok ==> final(self).current > old(self).current,
            final(self).current >= old(self).current,
            r matches Ok(c) ==> all_scoped(terms_of(c@), final(self).symbols@.len() as nat),
            match r {
                Ok(c) => read_block(old(self).input@, old(self).current as int, close, names_of(old(self).symbols@)) == Ok::<(Seq<Term>, int, Seq<Seq<char>>), Failure>((terms_of(c@), final(self).current as int, names_of(final(self).symbols@))),
                Err(e) => read_block(old(self).input@, old(self).current as int, close, names_of(old(self).symbols@)) == Err::<(Seq<Term>, int, Seq<Seq<char>>), Failure>(e@),
            },
        decreases old(self).remaining(), 3nat,
    {
        let mut content: Vec<Expr> = Vec::new();
        let start = self.current;
        let ghost whole = read_block(self.input@, start as int, close, names_of(self.symbols@));
        assert(terms_of(content@) =~= Seq::<Term>::empty());
        proof {
            match whole {
                Ok((c, q, n)) => {
                    assert(Seq::<Term>::empty() + c =~= c);
                },
                Err(_) => {},
            }
        }
        while self.peek(0) != Some(close)
            invariant
                self.wf(),
                self.input == old(self).input,
                self.output == old(self).output,
                extends(old(self).symbols@, self.symbols@),
                self.current >= start,
                start == old(self).current,
                all_scoped(terms_of(content@), self.symbols@.len() as nat),
                whole == read_block(old(self).input@, old(self).current as int, close, names_of(old(self).symbols@)),
                whole == prefixed(terms_of(content@), read_block(self.input@, self.current as int, close, names_of(self.symbols@))),
            decreases self.input@.len() - self.current,
        {
            let ghost n0 = self.symbols@.len() as nat;
            let ghost pre = terms_of(content@);
            let ghost cur = self.current as int;
            let ghost nv = names_of(self.symbols@);
            match self.parse_one() {
                Ok(Some(e)) => {
                    proof {
                        lemma_all_scoped_grows(terms_of(content@), n0, self.symbols@.len() as nat);
                        lemma_terms_of_push(content@, e);
                        assert(terms_of(content@).push(e@).drop_last() =~= terms_of(content@));
                        let rest = read_block(self.input@, self.current as int, close, names_of(self.symbols@));
                        match rest {
                            Ok((c, q, n)) => {
                                assert(pre + (seq![e@] + c) =~= pre.push(e@) + c);
                            },
                            Err(_) => {},
                        }
                    }
                    content.push(e);
                },
                Ok(None) => {
                    proof {
                        lemma_all_scoped_grows(terms_of(content@), n0, self.symbols@.len() as nat);
                    }
                },
                Err(e) => return Err(e),
            }
        }
        proof {
            assert(terms_of(content@) + Seq::<Term>::empty() =~= terms_of(content@));
        }
        match self.advance(close) {
            Ok(_) => {},
            Err(e) => return Err(e),
        }
        Ok(content)
    }

    /// A digit-led token: an Integer, or a Real when it holds a `.`.
    fn number(&mut self, start: usize) -> (r: Result<Option<Expr>, Error>)
        requires
            old(self).wf(),
            start < old(self).current,
            '0' <= old(self).input@[start as int] <= '9',
            start + 1 == old(self).current,
        ensures
            match r {
                Ok(t) => read_number(old(self).input@, start as int, names_of(old(self).symbols@)) == Ok::<(Option<Term>, int, Seq<Seq<char>>), Failure>((opt_view(t), final(self).current as int, names_of(final(self).symbols@))),
                Err(e) => read_number(old(self).input@, start as int, names_of(old(self).symbols@)) == Err::<(Option<Term>, int, Seq<Seq<char>>), Failure>(e@),
            },
            final(self).wf(),
            final(self).input == old(self).input,
            final(self).output == old(self).output,
            final(self).symbols == old(self).symbols,
            final(self).current >= old(self).current,
            r matches Ok(Some(e)) ==> scoped(e@, final(self).symbols@.len() as nat),
    {
        let (line, column) = (self.line, self.column);
        while !self.is_at_end() && is_digit(self.input[self.current])
            invariant
                self.wf(),
                self.input == old(self).input,
                self.symbols == old(self).symbols,
                self.output == old(self).output,
                self.current > start,
                forall|k: int| start <= k < self.current ==> '0' <= #[trigger] self.input@[k] <= '9',
                digits_end(self.input@, self.current as int) == digits_end(self.input@, start + 1),
            decreases self.input@.len() - self.current,
        {
            let _ = self.pop();
        }
        if !self.is_at_end() && self.input[self.current] == '.' {
            let ghost d1 = self.current as int;
            let _ = self.pop();
            while !self.is_at_end() && is_digit(self.input[self.current])
                invariant
                    self.wf(),
                    self.input == old(self).input,
                    self.symbols == old(self).symbols,
                    self.output == old(self).output,
                    self.current > start,
                    self.current >= old(self).current,
                    self.current > d1,
                    digits_end(self.input@, self.current as int) == digits_end(self.input@, d1 + 1),
                    d1 == digits_end(self.input@, start + 1),
                decreases self.input@.len() - self.current,
            {
                let _ = self.pop();
            }
            let s = self.text(start, self.current);
            return Ok(Some(Expr::new(ExprT::Real(s), line, column)));
        }
        match self.int_of(start, self.current) {
            Some(v) => Ok(Some(Expr::new(ExprT::Integer(v), line, column))),
            None => Err(Error::new(line, column, ErrorKind::NumberOutOfRange)),
        }
    }

    /// A bare word: the declaration keyword, a builtin, or a declared variable.
    fn identifier(&mut self, start: usize) -> (r: Result<Option<Expr>, Error>)
        requires
            old(self).wf(),
            start + 1 == old(self).current,
        ensures
            match r {
                Ok(t) => read_word(old(self).input@, start as int, names_of(old(self).symbols@)) == Ok::<(Option<Term>, int, Seq<Seq<char>>), Failure>((opt_view(t), final(self).current as int, names_of(final(self).symbols@))),
                Err(e) => read_word(old(self).input@, start as int, names_of(old(self).symbols@)) == Err::<(Option<Term>, int, Seq<Seq<char>>), Failure>(e@),
            },
            final(self).wf(),
            final(self).input == old(self).input,
            final(self).output == old(self).output,
            extends(old(self).symbols@, final(self).symbols@),
            final(self).current >= old(self).current,
            r matches Ok(Some(e)) ==> scoped(e@, final(self).symbols@.len() as nat),
        decreases old(self).remaining(), 1nat,
    {
        let (line, column) = (self.line, self.column);
        while !self.is_at_end() && !terminator(self.peek(0))
            invariant
                self.wf(),
                self.input == old(self).input,
                self.symbols == old(self).symbols,
                self.output == old(self).output,
                self.current >= old(self).current,
                word_end(self.input@, self.current as int) == word_end(self.input@, start + 1),
            decreases self.input@.len() - self.current,
        {
            let _ = self.pop();
        }
        let raw = self.text(start, self.current);
        assert(self.current == word_end(self.input@, start + 1));
        if raw == owned("let") {
            return match self.declare() {
                Ok(e) => Ok(Some(e)),
                Err(e) => Err(e),
            };
        }
        match lookup_builtin(&raw) {
            Some(b) => return Ok(Some(Expr::new(ExprT::Builtin(b), line, column))),
            None => {},
        }
        match self.find_symbol(&raw) {
            Some(i) => Ok(Some(Expr::new(ExprT::Var(i as u16), line, column))),
            None => Err(Error::new(line, column, ErrorKind::UndefinedVariable(raw))),
        }
    }

    /// `let NAME ( body... )`: binds NAME, reusing its slot when it exists.
    fn declare(&mut self) -> (r: Result<Expr, Error>)
        requires
            old(self).wf(),
        ensures
            final(self).wf(),
            final(self).input == old(self).input,
            final(self).output == old(self).output,
            extends(old(self).symbols@, final(self).symbols@),
            final(self).current >= old(self).current,
            r matches Ok(e) ==> scoped(e@, final(self).symbols@.len() as nat),
            match r {
                Ok(t) => read_declare(old(self).input@, old(self).current as int, names_of(old(self).symbols@)) == Ok::<(Term, int, Seq<Seq<char>>), Failure>((t@, final(self).current as int, names_of(final(self).symbols@))),
                Err(e) => read_declare(old(self).input@, old(self).current as int, names_of(old(self).symbols@)) == Err::<(Term, int, Seq<Seq<char>>), Failure>(e@),
            },
        decreases old(self).remaining(), 0nat,
    {
        let (line, column) = (self.line, self.column);
        self.spaces();
        let name_start = self.current;
        while !terminator(self.peek(0))
            invariant
                self.wf(),
                self.input == old(self).input,
                self.symbols == old(self).symbols,
                self.output == old(self).output,
                self.current >= name_start,
                name_start >= old(self).current,
                name_start == space_end(self.input@, old(self).current as int),
                word_end(self.input@, self.current as int) == word_end(self.input@, name_start as int),
            decreases self.input@.len() - self.current,
        {
            match self.pop() {
                Ok(_) => {},
                Err(e) => return Err(e),
            }
        }
        let name = self.text(name_start, self.current);
        self.spaces();
        match self.advance('(') {
            Ok(_) => {},
            Err(e) => return Err(e),
        }
        let content = match self.block(')') {
            Ok(v) => v,
            Err(e) => return Err(e),
        };
        let idx = match self.find_symbol(&name) {
            Some(i) => i,
            None => {
                if self.symbols.len() >= 0x10000 {
                    return Err(Error::new(line, column, ErrorKind::TooManyVariables));
                }
                let ghost n0 = self.symbols@.len() as nat;
                let ghost before = names_of(self.symbols@);
                let ghost text = name@;
                self.symbols.push(name);
                proof {
                    assert(names_of(self.symbols@) =~= before.push(text));
                    lemma_all_scoped_grows(terms_of(self.output@), n0, self.symbols@.len() as nat);
                    lemma_all_scoped_grows(terms_of(content@), n0, self.symbols@.len() as nat);
                }
                self.symbols.len() - 1
            },
        };
        Ok(Expr::new(ExprT::Store(idx as u16, content), line, column))
    }

    /// Parses the whole input. Returns the expressions and the symbol table, grown
    /// by the declarations met. Names declared before an error stay declared.
    pub fn parse(&mut self) -> (r: Result<(Vec<Expr>, Vec<String>), Error>)
        requires
            old(self).wf(),
            old(self).fresh(),
        ensures
            final(self).wf(),
            extends(old(self).names(), final(self).names()),
            final(self).source() == old(self).source(),
            r is Ok ==> final(self).consumed() == final(self).source().len(),
            match r {
                Ok(res) => parsed(old(self).source(), names_of(old(self).names())) == Ok::<(Seq<Term>, Seq<Seq<char>>), Failure>((terms_of(res.0@), names_of(res.1@))),
                Err(e) => parsed(old(self).source(), names_of(old(self).names())) == Err::<(Seq<Term>, Seq<Seq<char>>), Failure>(e@),
            },
            r matches Ok(res) ==> res.1@ == final(self).names() && all_scoped(
                terms_of(res.0@),
                res.1@.len() as nat,
            ),
    {
        let ghost whole = read_all(self.input@, 0, names_of(self.symbols@));
        assert(terms_of(self.output@) =~= Seq::<Term>::empty());
        proof {
            match whole {
                Ok((c, n)) => {
                    assert(Seq::<Term>::empty() + c =~= c);
                },
                Err(_) => {},
            }
        }
        while !self.is_at_end()
            invariant
                self.wf(),
                self.input == old(self).input,
                extends(old(self).symbols@, self.symbols@),
                whole == parsed(old(self).input@, names_of(old(self).symbols@)),
                whole == prefixed_all(terms_of(self.output@), read_all(self.input@, self.current as int, names_of(self.symbols@))),
            decreases self.input@.len() - self.current,
        {
            let ghost pre = terms_of(self.output@);
            match self.parse_one() {
                Ok(Some(e)) => {
                    proof {
                        lemma_terms_of_push(self.output@, e);
                        assert(terms_of(self.output@).push(e@).drop_last() =~= terms_of(self.output@));
                        let rest = read_all(self.input@, self.current as int, names_of(self.symbols@));
                        match rest {
                            Ok((c, n)) => {
                                assert(pre + (seq![e@] + c) =~= pre.push(e@) + c);
                            },
                            Err(_) => {},
                        }
                    }
                    self.output.push(e);
                },
                Ok(None) => {},
                Err(e) => return Err(e),
            }
        }
        proof {
            assert(terms_of(self.output@) + Seq::<Term>::empty() =~= terms_of(self.output@));
        }
        let exprs = copy_exprs(&self.output);
        let mut syms: Vec<String> = Vec::new();
        let mut i: usize = 0;
        while i < self.symbols.len()
            invariant
                i <= self.symbols@.len(),
                syms@ == self.symbols@.subrange(0, i as int),
            decreases self.symbols.len() - i,
        {
            syms.push(self.symbols[i].clone());
            i += 1;
            assert(syms@ =~= self.symbols@.subrange(0, i as int));
        }
        assert(syms@ =~= self.symbols@);
        Ok((exprs, syms))
    }
}

/// A longer digit sequence is worth at least as much as its prefix.
proof fn lemma_digits_grow(s: Seq<char>, k: int)
    requires
        0 <= k <= s.len(),
    ensures
        digits_value(s) >= digits_value(s.subrange(0, k)),
    decreases s.len(),
{
    if k < s.len() {
        assert(s.drop_last().subrange(0, k) =~= s.subrange(0, k));
        lemma_digits_grow(s.drop_last(), k);
    } else {
        assert(s.subrange(0, k) =~= s);
    }
}

} // verus!

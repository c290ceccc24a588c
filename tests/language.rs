use kitty::{Error, ErrorKind, Evaluator, Expr, ExprT, Kind, Parser, RealOp, Value};

fn sym(b: bool) -> Value {
    Value::Symbol(if b { "t" } else { "f" }.to_string())
}

fn host(op: RealOp, a: String, b: String) -> Value {
    let x: f32 = a.parse().unwrap();
    let y: f32 = b.parse().unwrap();
    match op {
        RealOp::Add => Value::Real(format!("{}", x + y)),
        RealOp::Sub => Value::Real(format!("{}", x - y)),
        RealOp::Mul => Value::Real(format!("{}", x * y)),
        RealOp::Div => Value::Real(format!("{}", x / y)),
        RealOp::Rem => Value::Real(format!("{}", x % y)),
        RealOp::Gt => sym(x > y),
        RealOp::Lt => sym(x < y),
        RealOp::Eq => sym(x == y),
    }
}

struct Session {
    ev: Evaluator,
    symbols: Vec<String>,
}

impl Session {
    fn new() -> Self {
        Session { ev: Evaluator::new(vec![]), symbols: vec![] }
    }

    fn run(&mut self, line: &str) -> Result<Option<Value>, Error> {
        let mut parser = Parser::new(line, self.symbols.clone());
        let (exprs, syms) = parser.parse()?;
        self.symbols = syms;
        self.ev.update(exprs);
        self.ev.eval(&host)
    }

    fn top(&mut self, line: &str) -> String {
        self.run(line).unwrap().unwrap().get_lit(true)
    }
}

fn eval_one(line: &str) -> Result<Option<Value>, Error> {
    Session::new().run(line)
}

fn parse(line: &str) -> Result<Vec<Expr>, Error> {
    Parser::new(line, vec![]).parse().map(|(e, _)| e)
}

fn parse_value(text: &str) -> Value {
    eval_one(text).unwrap().unwrap()
}

#[test]
fn round_trip_integer() {
    let v = Value::Integer(42);
    let back = parse_value(&v.deep_copy().get_lit(true));
    assert!(matches!(back, Value::Integer(42)));
}

#[test]
fn round_trip_real() {
    let v = Value::Real("1.5".to_string());
    let back = parse_value(&v.get_lit(true));
    assert!(matches!(back, Value::Real(ref s) if s == "1.5"));
}

#[test]
fn round_trip_string() {
    let v = Value::String("hello world".to_string());
    let back = parse_value(&v.get_lit(true));
    assert!(matches!(back, Value::String(ref s) if s == "hello world"));
}

#[test]
fn round_trip_quote() {
    let q = parse_value("[1 \"a\" 2.5 #t dup +]");
    let text = q.deep_copy().get_lit(true);
    assert_eq!(text, "[1 \"a\" 2.5 #t dup +]");
    let again = parse_value("[1 \"a\" 2.5 #t dup +]").get_lit(true);
    assert_eq!(again, text);
}

#[test]
fn dup_then_pop_keeps_stack() {
    let mut s = Session::new();
    s.run("1 2").unwrap();
    assert_eq!(s.top("dup pop"), "2");
    assert_eq!(s.top("pop"), "1");
}

#[test]
fn swap_twice_restores_order() {
    let mut s = Session::new();
    assert_eq!(s.top("1 2 swap"), "1");
    assert_eq!(s.top("swap"), "2");
    assert_eq!(s.top("pop"), "1");
}

#[test]
fn add_and_sub_order() {
    assert_eq!(eval_one("3 4 +").unwrap().unwrap().get_lit(true), "7");
    assert_eq!(eval_one("10 4 -").unwrap().unwrap().get_lit(true), "6");
    assert_eq!(eval_one("4 10 -").unwrap().unwrap().get_lit(true), "-6");
    assert_eq!(eval_one("6 7 *").unwrap().unwrap().get_lit(true), "42");
}

#[test]
fn division_and_remainder_round_toward_zero() {
    assert_eq!(eval_one("7 2 /").unwrap().unwrap().get_lit(true), "3");
    assert_eq!(eval_one("0 7 - 2 /").unwrap().unwrap().get_lit(true), "-3");
    assert_eq!(eval_one("0 7 - 2 %").unwrap().unwrap().get_lit(true), "-1");
    assert_eq!(eval_one("7 3 %").unwrap().unwrap().get_lit(true), "1");
}

#[test]
fn division_by_zero_is_an_error() {
    let e = eval_one("1 0 /").unwrap_err();
    assert_eq!(e.kind, ErrorKind::DivisionByZero);
    let e = eval_one("1 0 %").unwrap_err();
    assert_eq!(e.kind, ErrorKind::DivisionByZero);
}

#[test]
fn integer_overflow_is_an_error() {
    let e = eval_one("2147483647 1 +").unwrap_err();
    assert_eq!(e.kind, ErrorKind::Overflow);
}

#[test]
fn app_equals_direct_evaluation() {
    let mut a = Session::new();
    let mut b = Session::new();
    assert_eq!(a.top("[ 1 2 + ] app"), "3");
    assert_eq!(b.top("1 2 +"), "3");
    a.run("print_stack").unwrap();
    b.run("print_stack").unwrap();
    let out = a.ev.take_output();
    assert_eq!(out, vec!["[3]".to_string()]);
    assert_eq!(out, b.ev.take_output());
}

#[test]
fn variables_are_re_evaluated() {
    let mut s = Session::new();
    assert!(s.run("let X ( 1 1 + )").unwrap().is_none());
    assert_eq!(s.top("X"), "2");
    assert_eq!(s.top("X"), "2");
    s.run("print_stack").unwrap();
    assert_eq!(s.ev.take_output(), vec!["[2 2]".to_string()]);
    s.run("let X ( 3 )").unwrap();
    assert_eq!(s.top("X"), "3");
}

#[test]
fn variables_see_current_state() {
    let mut s = Session::new();
    s.run("let double ( dup + )").unwrap();
    assert_eq!(s.top("5 double"), "10");
    s.run("let quad ( double double )").unwrap();
    assert_eq!(s.top("quad"), "40");
}

#[test]
fn pop_on_empty_stack_underflows() {
    let mut s = Session::new();
    let e = s.run("pop").unwrap_err();
    assert_eq!(e.kind, ErrorKind::StackUnderflow);
    assert_eq!((e.line, e.column), (0, 1));
    assert!(s.ev.pop(3, 4).is_err());
    s.run("print_stack").unwrap();
    assert_eq!(s.ev.take_output(), vec!["[]".to_string()]);
}

#[test]
fn add_integer_and_string_mismatch() {
    let e = eval_one("1 \"a\" +").unwrap_err();
    assert_eq!(e.kind, ErrorKind::TypeMismatch { expected: Kind::Integer, found: Kind::String });
    assert_eq!((e.line, e.column), (0, 7));
    assert_eq!(Value::Integer(1).get_type(), "Integer");
    assert_eq!(Value::String("a".to_string()).get_type(), "String");
}

#[test]
fn eq_across_kinds_is_false() {
    assert_eq!(eval_one("1 \"1\" eq").unwrap().unwrap().get_lit(true), "#f");
    assert_eq!(eval_one("#t \"t\" eq").unwrap().unwrap().get_lit(true), "#f");
    assert_eq!(eval_one("1 1 eq").unwrap().unwrap().get_lit(true), "#t");
    assert_eq!(eval_one("\"ab\" \"ab\" eq").unwrap().unwrap().get_lit(true), "#t");
    assert_eq!(eval_one("[1] [1] eq").unwrap().unwrap().get_lit(true), "#t");
    assert_eq!(eval_one("[1] dup eq").unwrap().unwrap().get_lit(true), "#t");
    assert_eq!(eval_one("[1 [#a]] [ 1 [ #a ] ] eq").unwrap().unwrap().get_lit(true), "#t");
    assert_eq!(eval_one("[1] [2] eq").unwrap().unwrap().get_lit(true), "#f");
}

#[test]
fn comparisons() {
    assert_eq!(eval_one("3 2 gt").unwrap().unwrap().get_lit(true), "#t");
    assert_eq!(eval_one("3 2 lt").unwrap().unwrap().get_lit(true), "#f");
    assert_eq!(eval_one("\"apple\" \"banana\" lt").unwrap().unwrap().get_lit(true), "#t");
    assert_eq!(eval_one("\"b\" \"ab\" gt").unwrap().unwrap().get_lit(true), "#t");
    assert_eq!(eval_one("1.5 2.5 lt").unwrap().unwrap().get_lit(true), "#t");
    let e = eval_one("#t #f gt").unwrap_err();
    assert_eq!(e.kind, ErrorKind::NotOrdered { found: Kind::Symbol });
}

#[test]
fn real_arithmetic_goes_through_the_host() {
    assert_eq!(eval_one("1.5 2.25 +").unwrap().unwrap().get_lit(true), "3.75");
    let e = eval_one("1.5 2 +").unwrap_err();
    assert_eq!(e.kind, ErrorKind::TypeMismatch { expected: Kind::Real, found: Kind::Integer });
}

#[test]
fn concatenation() {
    assert_eq!(eval_one("\"ab\" \"cd\" cat").unwrap().unwrap().get_lit(false), "abcd");
    let e = eval_one("\"ab\" 1 cat").unwrap_err();
    assert_eq!(e.kind, ErrorKind::TypeMismatch { expected: Kind::String, found: Kind::Integer });
}

#[test]
fn negation() {
    assert_eq!(eval_one("#t not").unwrap().unwrap().get_lit(true), "#f");
    assert_eq!(eval_one("#f not").unwrap().unwrap().get_lit(true), "#t");
    let e = eval_one("#maybe not").unwrap_err();
    assert_eq!(e.kind, ErrorKind::NotBoolean("maybe".to_string()));
    let e = eval_one("1 not").unwrap_err();
    assert_eq!(e.kind, ErrorKind::TypeMismatch { expected: Kind::Symbol, found: Kind::Integer });
}

#[test]
fn app_needs_a_quote() {
    let e = eval_one("1 app").unwrap_err();
    assert_eq!(e.kind, ErrorKind::TypeMismatch { expected: Kind::Quote, found: Kind::Integer });
}

#[test]
fn self_reference_hits_the_depth_limit() {
    let mut s = Session::new();
    s.run("let loop ( 1 )").unwrap();
    s.run("let loop ( loop )").unwrap();
    let e = s.run("loop").unwrap_err();
    assert_eq!(e.kind, ErrorKind::TooDeep);
}

#[test]
fn errors_keep_earlier_effects() {
    let mut s = Session::new();
    assert!(s.run("1 2 \"x\" +").is_err());
    assert_eq!(s.top("print_stack"), "1");
    assert_eq!(s.ev.take_output(), vec!["[1]".to_string()]);
}

#[test]
fn empty_input_leaves_no_result() {
    assert!(eval_one("").unwrap().is_none());
    assert!(eval_one("  ; just a comment").unwrap().is_none());
}

#[test]
fn parse_errors() {
    let e = parse("foo").unwrap_err();
    assert_eq!(e.kind, ErrorKind::UndefinedVariable("foo".to_string()));
    assert_eq!((e.line, e.column), (0, 1));
    assert_eq!(parse("\"abc").unwrap_err().kind, ErrorKind::UnexpectedEof);
    assert_eq!(parse("[1 2").unwrap_err().kind, ErrorKind::UnexpectedEof);
    assert_eq!(parse("let X 1").unwrap_err().kind, ErrorKind::Unexpected { expected: '(', found: '1' });
    assert_eq!(parse("99999999999").unwrap_err().kind, ErrorKind::NumberOutOfRange);
}

#[test]
fn parse_resolves_names() {
    let mut p = Parser::new("let a ( 1 ) let b ( a ) a b dup", vec![]);
    let (exprs, syms) = p.parse().unwrap();
    assert_eq!(syms, vec!["a".to_string(), "b".to_string()]);
    assert_eq!(exprs.len(), 5);
    assert!(matches!(exprs[0].kind, ExprT::Store(0, _)));
    assert!(matches!(exprs[1].kind, ExprT::Store(1, _)));
    assert!(matches!(exprs[2].kind, ExprT::Var(0)));
    assert!(matches!(exprs[3].kind, ExprT::Var(1)));
    assert!(matches!(exprs[4].kind, ExprT::Builtin(kitty::Builtin::Dup)));
    let mut again = Parser::new("let a ( 2 ) a", syms);
    let (exprs, syms) = again.parse().unwrap();
    assert_eq!(syms.len(), 2);
    assert!(matches!(exprs[0].kind, ExprT::Store(0, _)));
}

#[test]
fn parse_positions_and_literals() {
    let exprs = parse("1\n  #sym \"s\" 2.5").unwrap();
    assert_eq!(exprs.len(), 4);
    assert_eq!((exprs[0].line, exprs[0].column), (0, 1));
    assert_eq!((exprs[1].line, exprs[1].column), (1, 3));
    assert!(matches!(exprs[1].kind, ExprT::Symbol(ref s) if s == "sym"));
    assert!(matches!(exprs[2].kind, ExprT::String(ref s) if s == "s"));
    assert!(matches!(exprs[3].kind, ExprT::Real(ref s) if s == "2.5"));
}

#[test]
fn expression_text() {
    let exprs = parse("let x ( 1 [ \"a\" ] ) x +").unwrap();
    let texts: Vec<String> = exprs.into_iter().map(|e| e.kind.get_lit()).collect();
    assert_eq!(texts, vec!["$0 => (1 [\"a\"])".to_string(), "$0".to_string(), "+".to_string()]);
}

#[test]
fn literal_text() {
    assert_eq!(Value::String("s".to_string()).get_lit(false), "s");
    assert_eq!(Value::Integer(-2147483648).get_lit(true), "-2147483648");
    assert_eq!(Value::Symbol("t".to_string()).get_lit(true), "#t");
}

#[test]
fn builtin_methods_directly() {
    let mut ev = Evaluator::new(vec![]);
    ev.push(Value::Integer(9)).unwrap();
    ev.push(Value::Integer(4)).unwrap();
    ev.sub(0, 0, &host).unwrap();
    assert!(matches!(ev.pop(0, 0).unwrap(), Value::Integer(5)));
    let e = ev.add(2, 3, &host).unwrap_err();
    assert_eq!((e.line, e.column, e.kind), (2, 3, ErrorKind::StackUnderflow));
}

#[test]
fn declared_but_never_stored_is_unbound() {
    let e = eval_one("[ let A ( 1 ) ] pop A").unwrap_err();
    assert_eq!(e.kind, ErrorKind::Unbound(0));
}

#[test]
fn arithmetic_needs_a_number_on_the_left() {
    let e = eval_one("\"a\" 1 +").unwrap_err();
    assert_eq!(e.kind, ErrorKind::NotNumeric { found: Kind::String });
    let e = eval_one("1 ]").unwrap_err();
    assert_eq!(e.kind, ErrorKind::UndefinedVariable("]".to_string()));
}

#[test]
fn swap_with_one_entry_underflows() {
    let mut s = Session::new();
    s.run("5").unwrap();
    assert_eq!(s.run("swap").unwrap_err().kind, ErrorKind::StackUnderflow);
    assert!(s.run("").unwrap().is_none());
}

#[test]
fn round_trip_symbol() {
    let v = Value::Symbol("sym".to_string());
    let text = v.get_lit(true);
    assert_eq!(text, "#sym");
    let back = parse_value(&text);
    assert!(matches!(back, Value::Symbol(ref s) if s == "sym"));
    assert_eq!(Value::Symbol("t".to_string()).get_lit(false), "t");
}

#[test]
fn whole_reals_render_as_reals() {
    let v = eval_one("1.5 0.5 +").unwrap().unwrap();
    assert_eq!(v.deep_copy().get_lit(true), "2.0");
    let back = parse_value(&v.get_lit(true));
    assert!(matches!(back, Value::Real(ref s) if s == "2.0"));
}

#[test]
fn non_ascii_string_literal() {
    let v = parse_value("\"héllo wörld\"");
    assert!(matches!(v, Value::String(ref s) if s == "héllo wörld"));
}

use pilisp::builtins::global_env;
use pilisp::compiler::compile;
use pilisp::eval::{apply, eval, eval_tree};
use pilisp::expr::{Builtin, Expr, LexEnv, Prim};
use pilisp::gc::{GcHandle, Heap, env_get, env_set, new_env};
use pilisp::host::Host;
use pilisp::num::count_to_bits;
use pilisp::reader::{parse, parse_all, parse_at, parse_params, parse_tokens, tokenize};
use pilisp::vm::compiler::{gen_code, is_compilable};
use pilisp::vm::machine::run_code;
use pilisp::vm::vm_eval;
use pilisp::PiLisp;

/// Numbers as `f64`, with arithmetic and comparison primitives.
#[derive(Default)]
struct F64Host;

fn num_arg(e: &Expr) -> Result<f64, String> {
    match e {
        Expr::Number(b) => Ok(f64::from_bits(*b)),
        other => Err(format!("expected a number, got {:?}", other)),
    }
}

fn flag(b: bool) -> Expr {
    Expr::Number(if b { 1.0f64 } else { 0.0f64 }.to_bits())
}

impl Host for F64Host {
    fn read_number(&self, text: &str) -> Option<u64> {
        text.parse::<f64>().ok().map(|f| f.to_bits())
    }

    fn show_number(&self, bits: u64) -> String {
        format!("{}", f64::from_bits(bits))
    }

    fn native_names(&self) -> Vec<String> {
        ["+", "-", "*", "/", "<", ">", "=", "<=", ">="].iter().map(|s| s.to_string()).collect()
    }

    fn call_native(&self, name: &str, args: &[Expr]) -> Result<Expr, String> {
        let mut ns = Vec::new();
        for a in args {
            ns.push(num_arg(a)?);
        }
        let fold = |init: f64, f: fn(f64, f64) -> f64| -> Result<Expr, String> {
            if ns.is_empty() {
                return Ok(Expr::Number(init.to_bits()));
            }
            let mut acc = ns[0];
            if ns.len() == 1 && name == "-" {
                return Ok(Expr::Number((-acc).to_bits()));
            }
            for x in &ns[1..] {
                acc = f(acc, *x);
            }
            Ok(Expr::Number(acc.to_bits()))
        };
        let cmp = |f: fn(f64, f64) -> bool| -> Result<Expr, String> {
            if ns.len() != 2 {
                return Err(format!("{}: expects 2 arguments", name));
            }
            Ok(flag(f(ns[0], ns[1])))
        };
        match name {
            "+" => fold(0.0, |a, b| a + b),
            "-" => fold(0.0, |a, b| a - b),
            "*" => fold(1.0, |a, b| a * b),
            "/" => fold(1.0, |a, b| a / b),
            "<" => cmp(|a, b| a < b),
            ">" => cmp(|a, b| a > b),
            "=" => cmp(|a, b| a == b),
            "<=" => cmp(|a, b| a <= b),
            ">=" => cmp(|a, b| a >= b),
            _ => Err(format!("unknown primitive {}", name)),
        }
    }
}

fn parse_src(src: &str) -> Result<Vec<Expr>, String> {
    parse_all(src, &mut Heap::new(), &F64Host)
}

fn n(x: f64) -> Expr {
    Expr::Number(x.to_bits())
}

fn as_f64(e: &Expr) -> f64 {
    match e {
        Expr::Number(b) => f64::from_bits(*b),
        other => panic!("not a number: {:?}", other),
    }
}

fn fresh() -> (Heap, GcHandle) {
    let mut heap = Heap::new();
    let env = global_env(&mut heap, &F64Host);
    (heap, env)
}

fn eval_str(src: &str, heap: &mut Heap, env: GcHandle) -> Result<Expr, String> {
    let exprs = parse_src(src)?;
    assert_eq!(exprs.len(), 1);
    vm_eval(&exprs[0], env, heap, &F64Host)
}

fn run(src: &str) -> Result<Expr, String> {
    let mut lisp = PiLisp::new(F64Host);
    lisp.eval(src)
}

fn show(e: &Expr) -> String {
    match e {
        Expr::Number(b) => format!("{}", f64::from_bits(*b)),
        Expr::Symbol(s) => s.clone(),
        Expr::Str(s) => format!("{:?}", s),
        Expr::List(items) => {
            let parts: Vec<String> = items.iter().map(show).collect();
            format!("({})", parts.join(" "))
        }
        other => format!("{:?}", other),
    }
}

#[test]
fn test_is_compilable() {
    let expr1 = parse_src("(+ 1 2)").unwrap().remove(0);
    assert!(is_compilable(&expr1));

    let expr2 = parse_src("(if (= 1 1) (+ 2 3) 4)").unwrap().remove(0);
    assert!(is_compilable(&expr2));

    let expr3 = parse_src("(let ((x 1)) x)").unwrap().remove(0);
    assert!(!is_compilable(&expr3));

    let expr4 = parse_src("(define x 1)").unwrap().remove(0);
    assert!(!is_compilable(&expr4));

    let expr5 = parse_src("(lambda (x) x)").unwrap().remove(0);
    assert!(!is_compilable(&expr5));

    let expr6 = parse_src("`(1 ,x)").unwrap().remove(0);
    assert!(!is_compilable(&expr6));

    let expr7 = parse_src("`(1 2 3)").unwrap().remove(0);
    assert!(is_compilable(&expr7));
}

#[test]
fn test_vm_eval_fallback() {
    let mut heap = Heap::new();
    let env = global_env(&mut heap, &F64Host);

    let res1 = eval_str("(+ 10 20)", &mut heap, env).unwrap();
    assert!(matches!(res1, Expr::Number(n) if f64::from_bits(n) == 30.0));

    let res2 = eval_str("(let ((x 5)) ((lambda (y) (+ x y)) 10))", &mut heap, env).unwrap();
    assert!(matches!(res2, Expr::Number(n) if f64::from_bits(n) == 15.0));
}

#[test]
fn readme_factorial() {
    let r = run("(define fact (lambda (n) (if (< n 1) 1 (* n (fact (- n 1)))))) (fact 10)").unwrap();
    assert_eq!(as_f64(&r), 3628800.0);
}

#[test]
fn readme_let_bindings() {
    let r = run("(let ((a 3) (b 4)) (+ (* a a) (* b b)))").unwrap();
    assert_eq!(as_f64(&r), 25.0);
}

#[test]
fn let_bindings_are_sequential() {
    let r = run("(let ((a 3) (b (+ a 1))) (* a b))").unwrap();
    assert_eq!(as_f64(&r), 12.0);
}

#[test]
fn readme_unless_macro() {
    let r = run("(defmacro unless (cond then) (list 'if (list 'not cond) then 0)) (unless 0 (+ 1 2))").unwrap();
    assert_eq!(as_f64(&r), 3.0);
    let r = run("(defmacro unless (cond then) (list 'if (list 'not cond) then 0)) (unless 1 (+ 1 2))").unwrap();
    assert_eq!(as_f64(&r), 0.0);
}

#[test]
fn macro_with_wrong_argument_count_fails() {
    assert!(run("(defmacro unless (cond then) (list 'if (list 'not cond) then 0)) (unless 1)").is_err());
}

#[test]
fn readme_unquote_splicing() {
    let r = run("(define lst (list 1 2 3)) (quasiquote (start (unquote-splicing lst) end))").unwrap();
    assert_eq!(show(&r), "(start 1 2 3 end)");
}

#[test]
fn quasiquote_shorthand() {
    let r = run("(define x 7) `(a ,x ,@(list 1 2))").unwrap();
    assert_eq!(show(&r), "(a 7 1 2)");
    let r = run("`(1 2 3)").unwrap();
    assert_eq!(show(&r), "(1 2 3)");
}

#[test]
fn splicing_a_non_list_fails() {
    assert!(run("(define x 7) `(a ,@x)").is_err());
}

#[test]
fn readme_path_interpolation() {
    let prog = "(define interp (path (i) (+ (* (- 1 i) 1) (* i 5))))";
    let mut lisp = PiLisp::new(F64Host);
    lisp.eval(prog).unwrap();
    assert_eq!(as_f64(&lisp.eval("(papply interp i0)").unwrap()), 1.0);
    assert_eq!(as_f64(&lisp.eval("(papply interp i1)").unwrap()), 5.0);
    assert_eq!(as_f64(&lisp.eval("(papply interp 0.5)").unwrap()), 3.0);
}

#[test]
fn papply_outside_the_interval_fails() {
    let mut lisp = PiLisp::new(F64Host);
    lisp.eval("(define interp (path (i) (+ i 1)))").unwrap();
    assert!(lisp.eval("(papply interp 1.5)").is_err());
    assert!(lisp.eval("(papply interp -0.5)").is_err());
    assert!(lisp.eval("(papply interp (symbol->string 'a))").is_err());
    assert!(lisp.eval("(papply 3 0.5)").is_err());
}

#[test]
fn readme_refl() {
    let r = run("(define rp (refl 42)) (papply rp 0.3)").unwrap();
    assert_eq!(as_f64(&r), 42.0);
}

#[test]
fn readme_pi_types() {
    let mut lisp = PiLisp::new(F64Host);
    lisp.eval("(define vec-type (pi (n) 0 (* n n)))").unwrap();
    assert_eq!(as_f64(&lisp.eval("(piapply vec-type 3)").unwrap()), 9.0);
    assert_eq!(as_f64(&lisp.eval("(piapply vec-type 5)").unwrap()), 25.0);
}

#[test]
fn readme_type_path() {
    let mut lisp = PiLisp::new(F64Host);
    lisp.eval("(define type-path (path (i) (pi (x) 0 (* x (+ i 1)))))").unwrap();
    assert_eq!(as_f64(&lisp.eval("(piapply (papply type-path i0) 4)").unwrap()), 4.0);
    assert_eq!(as_f64(&lisp.eval("(piapply (papply type-path i1) 4)").unwrap()), 8.0);
}

#[test]
fn sigma_codomain() {
    let r = run("(define s (sigma (x) 0 (+ x 1))) (sigmacod s 4)").unwrap();
    assert_eq!(as_f64(&r), 5.0);
    assert!(run("(define s (sigma (x) 0 (+ x 1))) (piapply s 4)").is_err());
    assert!(run("(define p (pi (x) 0 x)) (sigmacod p 4)").is_err());
}

#[test]
fn type_predicates() {
    let mut lisp = PiLisp::new(F64Host);
    assert_eq!(as_f64(&lisp.eval("(pi? (pi (x) 0 x))").unwrap()), 1.0);
    assert_eq!(as_f64(&lisp.eval("(pi? 3)").unwrap()), 0.0);
    assert_eq!(as_f64(&lisp.eval("(path? (refl 1))").unwrap()), 1.0);
    assert_eq!(as_f64(&lisp.eval("(sigma? (sigma (x) 0 x))").unwrap()), 1.0);
    assert_eq!(as_f64(&lisp.eval("(glue? (glue 1 (lambda (x) x)))").unwrap()), 1.0);
    assert_eq!(as_f64(&lisp.eval("(glue-type? (glue-type 0 (lambda (x) x)))").unwrap()), 1.0);
}

#[test]
fn unglue_applies_the_equivalence() {
    let r = run("(unglue (glue 3 (lambda (x) (* x 2))))").unwrap();
    assert_eq!(as_f64(&r), 6.0);
    assert!(run("(unglue 3)").is_err());
}

#[test]
fn funext_path_applies_the_homotopy_pointwise() {
    let defs = "(define f (lambda (x) x)) (define g (lambda (x) (+ x 1))) \
                (define p (lambda (x) (path (i) (+ x i)))) ";
    // ((papply (funext f g p) t) x) = (papply (p x) t)
    let at = |t: &str| as_f64(&run(&format!("{}((papply (funext f g p) {}) 2)", defs, t)).unwrap());
    assert_eq!(at("i0"), 2.0);
    assert_eq!(at("i1"), 3.0);
    assert_eq!(at("0.5"), 2.5);
    assert!(run(&format!("{}(papply (funext f g p) 2)", defs)).is_err());
}

#[test]
fn funext_requires_three_arguments() {
    assert!(run("(funext 1 2)").is_err());
}

#[test]
fn sentinel_symbols_evaluate_to_themselves() {
    let r = run("(__Path__ 3)").unwrap();
    assert_eq!(show(&r), "(__Path__ 3)");
}

#[test]
fn letrec_mutual_recursion() {
    let prog = "(letrec ((ev (lambda (n) (if (= n 0) 1 (od (- n 1))))) \
                         (od (lambda (n) (if (= n 0) 0 (ev (- n 1)))))) \
                  (ev 10))";
    assert_eq!(as_f64(&run(prog).unwrap()), 1.0);
}

#[test]
fn begin_gives_last_value() {
    assert_eq!(as_f64(&run("(begin 1 2 3)").unwrap()), 3.0);
    assert_eq!(show(&run("(begin)").unwrap()), "()");
}

#[test]
fn if_without_else_gives_empty_list() {
    assert_eq!(show(&run("(if 0 1)").unwrap()), "()");
    assert_eq!(show(&run("(if (list) 1)").unwrap()), "()");
    assert_eq!(as_f64(&run("(if (symbol->string 's) 1 2)").unwrap()), 1.0);
}

#[test]
fn define_then_lookup() {
    let mut lisp = PiLisp::new(F64Host);
    assert_eq!(as_f64(&lisp.eval("(define x 41)").unwrap()), 41.0);
    assert_eq!(as_f64(&lisp.eval("(+ x 1)").unwrap()), 42.0);
    assert_eq!(as_f64(&lisp.eval("(define x 1) x").unwrap()), 1.0);
}

#[test]
fn errors_of_the_evaluator() {
    assert!(run("undefined-name").is_err());
    assert!(run("(unquote 1)").is_err());
    assert!(run("(define 3 4)").is_err());
    assert!(run("(1 2)").is_err());
    assert!(run("((lambda (x) x))").is_err());
    assert!(run("(car (list))").is_err());
    assert!(run("(").is_err());
}

#[test]
fn list_primitives() {
    assert_eq!(show(&run("(cons 1 (list 2 3))").unwrap()), "(1 2 3)");
    assert_eq!(as_f64(&run("(car (list 4 5))").unwrap()), 4.0);
    assert_eq!(show(&run("(cdr (list 4 5))").unwrap()), "(5)");
    assert_eq!(as_f64(&run("(null? (list))").unwrap()), 1.0);
    assert_eq!(as_f64(&run("(null? (list 1))").unwrap()), 0.0);
    assert_eq!(as_f64(&run("(not 0)").unwrap()), 1.0);
    assert_eq!(show(&run("'(a b)").unwrap()), "(a b)");
}

#[test]
fn string_primitives() {
    assert_eq!(show(&run("(string-append (symbol->string 'ab) (symbol->string 'cd))").unwrap()), "\"abcd\"");
    assert_eq!(as_f64(&run("(string-length (symbol->string 'hello))").unwrap()), 5.0);
    assert_eq!(as_f64(&run("(string=? (symbol->string 'a) (symbol->string 'a))").unwrap()), 1.0);
    assert_eq!(as_f64(&run("(string<? (symbol->string 'a) (symbol->string 'b))").unwrap()), 1.0);
    assert_eq!(as_f64(&run("(string>? (symbol->string 'a) (symbol->string 'b))").unwrap()), 0.0);
    assert_eq!(as_f64(&run("(string<=? (symbol->string 'b) (symbol->string 'b))").unwrap()), 1.0);
    assert_eq!(as_f64(&run("(string>=? (symbol->string 'a) (symbol->string 'b))").unwrap()), 0.0);
    assert_eq!(show(&run("(string-upcase (symbol->string 'abc))").unwrap()), "\"ABC\"");
    assert_eq!(show(&run("(string-downcase (symbol->string 'ABC))").unwrap()), "\"abc\"");
    assert_eq!(show(&run("(substring (symbol->string 'hello) 1 3)").unwrap()), "\"el\"");
    assert!(run("(substring (symbol->string 'hello) 3 1)").is_err());
    assert!(run("(substring (symbol->string 'hello) 1 9)").is_err());
    assert_eq!(show(&run("(symbol->string 'abc)").unwrap()), "\"abc\"");
    assert_eq!(show(&run("(string->symbol (symbol->string 'abc))").unwrap()), "abc");
    assert_eq!(as_f64(&run("(string->number (number->string 2.5))").unwrap()), 2.5);
    assert!(run("(string->number (symbol->string 'x))").is_err());
    assert_eq!(show(&run("(number->string 3)").unwrap()), "\"3\"");
    assert_eq!(as_f64(&run("(string? (symbol->string 's))").unwrap()), 1.0);
    assert!(run("(string-append (symbol->string 'a) 1)").is_err());
}

#[test]
fn tokenize_splits_parentheses_and_quotes() {
    let toks = tokenize("(a 'b `(c ,d ,@e))");
    let expected = vec!["(", "a", "'", "b", "`", "(", "c", ",", "d", ",@", "e", ")", ")"];
    assert_eq!(toks, expected.iter().map(|s| s.to_string()).collect::<Vec<_>>());
}

#[test]
fn parse_reads_one_expression() {
    let toks = tokenize("(a 1) b");
    let mut pos = 0usize;
    let e = parse(&toks, &mut pos, &mut Heap::new(), &F64Host).unwrap();
    assert_eq!(show(&e), "(a 1)");
    assert_eq!(pos, 4);
    let e = parse(&toks, &mut pos, &mut Heap::new(), &F64Host).unwrap();
    assert_eq!(show(&e), "b");
    assert!(parse(&toks, &mut pos, &mut Heap::new(), &F64Host).is_err());
}

#[test]
fn parse_params_forms() {
    let e = parse_src("(a b)").unwrap().remove(0);
    assert_eq!(parse_params(&e, &mut Heap::new(), &F64Host).unwrap(), vec!["a".to_string(), "b".to_string()]);
    let e = parse_src("a").unwrap().remove(0);
    assert_eq!(parse_params(&e, &mut Heap::new(), &F64Host).unwrap(), vec!["a".to_string()]);
    let e = parse_src("(a 1)").unwrap().remove(0);
    assert!(parse_params(&e, &mut Heap::new(), &F64Host).is_err());
}

#[test]
fn compile_uses_de_bruijn_indices() {
    let e = parse_src("(lambda (x y) (+ x y))").unwrap().remove(0);
    let mut names = Vec::new();
    let c = compile(&e, &mut names, &mut Heap::new(), &F64Host).unwrap();
    match c {
        Expr::List(items) => {
            assert_eq!(show(&items[0]), "lambda");
            assert_eq!(as_f64(&items[1]), 2.0);
            match &items[2] {
                Expr::List(body) => {
                    assert!(matches!(body[1], Expr::Index(1)));
                    assert!(matches!(body[2], Expr::Index(0)));
                }
                other => panic!("unexpected body {:?}", other),
            }
        }
        other => panic!("unexpected {:?}", other),
    }
    assert!(names.is_empty());
}

#[test]
fn compile_rejects_malformed_lambda() {
    let e = parse_src("(lambda (x 1) x)").unwrap().remove(0);
    let mut names = Vec::new();
    assert!(compile(&e, &mut names, &mut Heap::new(), &F64Host).is_err());
}

#[test]
fn eval_and_apply_on_core_expressions() {
    let (mut heap, env) = fresh();
    let lam = Expr::List(vec![Expr::Symbol("lambda".into()), n(1.0), Expr::Index(0)]);
    let f = eval(&lam, env, &LexEnv::Empty, &mut heap, &F64Host).unwrap();
    let r = apply(f, &[n(9.0)], env, &mut heap, &F64Host).unwrap();
    assert_eq!(as_f64(&r), 9.0);
    let car = Expr::Func(Builtin::Prim(Prim::Car));
    let r = apply(car, &[Expr::List(vec![n(1.0)])], env, &mut heap, &F64Host).unwrap();
    assert_eq!(as_f64(&r), 1.0);
    assert!(eval(&Expr::Index(0), env, &LexEnv::Empty, &mut heap, &F64Host).is_err());
    assert!(eval(&n(1.0), env + 7, &LexEnv::Empty, &mut heap, &F64Host).is_err());
}

#[test]
fn eval_tree_compiles_then_evaluates() {
    let (mut heap, env) = fresh();
    let e = parse_src("((lambda (a b) (- a b)) 10 4)").unwrap().remove(0);
    assert_eq!(as_f64(&eval_tree(&e, env, &mut heap, &F64Host).unwrap()), 6.0);
}

#[test]
fn environments_bind_and_shadow() {
    let mut heap = Heap::new();
    let g = new_env(&mut heap, None);
    env_set(&mut heap, g, "x".into(), n(1.0));
    let child = new_env(&mut heap, Some(g));
    assert_eq!(as_f64(&env_get(&heap, child, "x").unwrap()), 1.0);
    env_set(&mut heap, child, "x".into(), n(2.0));
    assert_eq!(as_f64(&env_get(&heap, child, "x").unwrap()), 2.0);
    assert_eq!(as_f64(&env_get(&heap, g, "x").unwrap()), 1.0);
    assert!(env_get(&heap, g, "y").is_err());
}

#[test]
fn counts_are_exact_numbers() {
    for k in [0u64, 1, 2, 3, 10, 255, 1 << 20, (1 << 53) - 1] {
        assert_eq!(count_to_bits(k), (k as f64).to_bits());
    }
}

#[test]
fn interval_constants() {
    let mut lisp = PiLisp::new(F64Host);
    assert_eq!(as_f64(&lisp.eval("i0").unwrap()), 0.0);
    assert_eq!(as_f64(&lisp.eval("i1").unwrap()), 1.0);
    let env = lisp.env();
    assert!(env_get(lisp.heap(), env, "refl").is_ok());
}

#[test]
fn parse_gives_top_level_expressions() {
    let mut lisp = PiLisp::new(F64Host);
    let es = lisp.parse("1 (a) (symbol->string 's)").unwrap();
    assert_eq!(es.len(), 3);
    assert!(lisp.parse("(a").is_err());
    assert!(lisp.parse(")").is_err());
}

#[test]
fn eval_expr_on_parsed_input() {
    let mut lisp = PiLisp::new(F64Host);
    let e = lisp.parse("(* 6 7)").unwrap().remove(0);
    assert_eq!(as_f64(&lisp.eval_expr(&e).unwrap()), 42.0);
    assert_eq!(show(&lisp.eval("").unwrap()), "()");
}

#[test]
fn machine_runs_generated_code() {
    let (mut heap, env) = fresh();
    let e = parse_src("(if (< 1 2) (+ 1 (* 2 3)) 0)").unwrap().remove(0);
    let code = gen_code(&e, 1000).expect("compilable");
    let r = run_code(&code, env, &mut heap, &F64Host).unwrap();
    assert_eq!(as_f64(&r), 7.0);
}

#[test]
fn generator_leaves_binders_to_the_tree_walker() {
    let e = parse_src("(let ((x 1)) x)").unwrap().remove(0);
    assert!(gen_code(&e, 1000).is_none());
    let e = parse_src("`(1 2)").unwrap().remove(0);
    assert!(gen_code(&e, 1000).is_none());
}

#[test]
fn machine_and_tree_walker_agree() {
    let srcs = [
        "(begin 1 2 (+ 3 4))",
        "(if 0 1)",
        "(if (list) 1 2)",
        "'(a b c)",
        "(car (cdr (list 1 2 3)))",
        "(string-length (symbol->string 'abcd))",
        "(- 10 (* 2 (+ 1 1)))",
    ];
    for src in srcs {
        let (mut h1, e1) = fresh();
        let (mut h2, e2) = fresh();
        let e = parse_src(src).unwrap().remove(0);
        let a = vm_eval(&e, e1, &mut h1, &F64Host).unwrap();
        let b = eval_tree(&e, e2, &mut h2, &F64Host).unwrap();
        assert_eq!(show(&a), show(&b), "{}", src);
    }
}

#[test]
fn machine_calls_user_functions_and_macros() {
    let (mut heap, env) = fresh();
    for src in [
        "(define sq (lambda (x) (* x x)))",
        "(defmacro twice (e) (list 'begin e e))",
    ] {
        let e = parse_src(src).unwrap().remove(0);
        vm_eval(&e, env, &mut heap, &F64Host).unwrap();
    }
    let e = parse_src("(+ (sq 3) (sq 4))").unwrap().remove(0);
    assert_eq!(as_f64(&vm_eval(&e, env, &mut heap, &F64Host).unwrap()), 25.0);
    let e = parse_src("(twice (sq 5))").unwrap().remove(0);
    assert_eq!(as_f64(&vm_eval(&e, env, &mut heap, &F64Host).unwrap()), 25.0);
    let e = parse_src("(+ 1 (twice 2))").unwrap().remove(0);
    assert_eq!(as_f64(&vm_eval(&e, env, &mut heap, &F64Host).unwrap()), 3.0);
}

#[test]
fn machine_reports_errors() {
    let (mut heap, env) = fresh();
    for src in ["(nope 1)", "(1 2)", "(car (list))"] {
        let e = parse_src(src).unwrap().remove(0);
        assert!(vm_eval(&e, env, &mut heap, &F64Host).is_err(), "{}", src);
    }
    let e = parse_src("1").unwrap().remove(0);
    assert!(vm_eval(&e, env + 5, &mut heap, &F64Host).is_err());
}

#[test]
fn parse_with_given_number_readings() {
    let toks = tokenize("'(x 7) ) y");
    // Token 2 ("x") is read as a number here, token 3 ("7") is not.
    let nums = vec![None, None, Some(5u64), None, None, None, None];
    let mut pos = 0usize;
    let e = parse_at(&toks, &nums, &mut pos).unwrap();
    assert_eq!(pos, 5);
    match &e {
        Expr::List(items) => {
            assert!(matches!(&items[0], Expr::Symbol(s) if s == "quote"));
            match &items[1] {
                Expr::List(inner) => {
                    assert!(matches!(inner[0], Expr::Number(5)));
                    assert!(matches!(&inner[1], Expr::Symbol(s) if s == "7"));
                }
                other => panic!("expected a list, got {:?}", other),
            }
        }
        other => panic!("expected a list, got {:?}", other),
    }
    assert!(parse_at(&toks, &nums, &mut pos).is_err());
    assert_eq!(pos, 6);
    let all = parse_tokens(&toks[..5], &nums[..5].to_vec()).unwrap();
    assert_eq!(all.len(), 1);
    assert!(parse_tokens(&toks, &nums).is_err());
}

#[test]
fn default_interpreter_has_the_global_environment() {
    let mut lisp: PiLisp<F64Host> = PiLisp::default();
    assert_eq!(lisp.env(), 0);
    assert_eq!(as_f64(&lisp.eval("(+ i1 (car (list 2 3)))").unwrap()), 3.0);
}

#[test]
fn compile_quasiquote_compiles_unquoted_variables() {
    let e = parse_src("(quasiquote (1 (unquote x) (unquote-splicing x) y))").unwrap().remove(0);
    let mut names = vec!["x".to_string()];
    let c = compile(&e, &mut names, &mut Heap::new(), &F64Host).unwrap();
    assert_eq!(show(&c), "(quasiquote (1 (unquote Index(0)) (unquote-splicing Index(0)) y))");
    assert_eq!(names, vec!["x".to_string()]);
    let e = parse_src("(quasiquote (a (quasiquote (unquote x))))").unwrap().remove(0);
    let c = compile(&e, &mut names, &mut Heap::new(), &F64Host).unwrap();
    assert_eq!(show(&c), "(quasiquote (a (quasiquote (unquote x))))");
    assert_eq!(as_f64(&run("((lambda (x) (car (cdr (quasiquote (1 (unquote x)))))) 7)").unwrap()), 7.0);
}

#[test]
fn host_requests_are_recorded_and_answered() {
    let mut lisp = PiLisp::new(F64Host);
    assert_eq!(as_f64(&lisp.eval("(+ 1 (string->number (number->string 2)))").unwrap()), 3.0);
    assert_eq!(show(&lisp.eval("(quote (+ 1 2))").unwrap()), "(+ 1 2)");
}

#[test]
fn reader_error_messages() {
    assert_eq!(parse_src("(a b").unwrap_err(), "unexpected EOF in list");
    assert_eq!(parse_src(")").unwrap_err(), "unexpected )");
    assert_eq!(parse_src("'").unwrap_err(), "unexpected EOF");
    let toks = tokenize("a");
    let mut pos = 1usize;
    assert_eq!(parse(&toks, &mut pos, &mut Heap::new(), &F64Host).unwrap_err(), "unexpected EOF");
    let e = parse_src("(x 1)").unwrap().remove(0);
    assert_eq!(parse_params(&e, &mut Heap::new(), &F64Host).unwrap_err(), "parse_params: expected symbol in parameter list, got 1");
}

#[test]
fn compiler_error_messages() {
    let cases = [
        ("(path (i j) i)", "path: expected exactly one interval variable"),
        ("(lambda (x))", "lambda: expected (lambda (params...) body)"),
        ("(pi (x y) 1 2)", "pi: expected exactly one bound variable"),
        ("(sigma (x y) 1 2)", "sigma: expected exactly one bound variable"),
        ("(sigma (x) 1)", "sigma: expected (sigma (x) dom cod)"),
        ("(lambda (x 2.5 y) x)", "parse_params: expected symbol in parameter list, got 2.5"),
        ("(path ((a 2.5)) 1)", "parse_params: expected symbol in parameter list, got (a 2.5)"),
        ("(let ((x)) x)", "let: each binding must be (name expr)"),
        ("(let ((1 2)) x)", "let: binding name must be a symbol"),
        ("(letrec ((1 2)) x)", "letrec: binding name must be a symbol"),
        ("(funext 1 2)", "funext: expected (funext f g p)"),
        ("(quasiquote)", "quasiquote: expected an argument"),
    ];
    for (src, msg) in cases {
        let e = parse_src(src).unwrap().remove(0);
        assert_eq!(compile(&e, &mut Vec::new(), &mut Heap::new(), &F64Host).unwrap_err(), msg, "{}", src);
    }
}

#[test]
fn primitive_error_messages() {
    assert_eq!(run("(pi? 1 2)").unwrap_err(), "pi?: expects exactly 1 argument");
    assert_eq!(run("(glue-type? )").unwrap_err(), "glue-type?: expects exactly 1 argument");
    assert_eq!(run("(string-length)").unwrap_err(), "string-length: expects exactly 1 argument");
    assert_eq!(run("(string-upcase 1)").unwrap_err(), "string-upcase: expected a string");
    assert_eq!(run("(string-downcase)").unwrap_err(), "string-downcase: expects exactly 1 argument");
    assert_eq!(
        run("(substring (symbol->string 'abc) 2 1)").unwrap_err(),
        "substring: index out of range (start=2, end=1, len=3)"
    );
    assert_eq!(
        run("(substring (symbol->string 'abc) 0 14)").unwrap_err(),
        "substring: index out of range (start=0, end=14, len=3)"
    );
    assert_eq!(run("((lambda (x) x) 1 2)").unwrap_err(), "lambda expected 1 args, got 2");
    let (mut heap, env) = fresh();
    assert_eq!(eval(&Expr::Index(3), env, &LexEnv::Empty, &mut heap, &F64Host).unwrap_err(), "unbound index 3");
}

#[test]
fn heap_well_formedness_is_checked() {
    let mut lisp = PiLisp::new(F64Host);
    assert!(lisp.ready());
    assert!(lisp.heap().check_wf());
    lisp.eval("(define x 1)").unwrap();
    assert!(lisp.ready());
    let heap = Heap::new();
    assert!(heap.check_wf());
}

#[test]
fn error_messages_show_the_offending_value() {
    assert_eq!(run("(papply (path (i) i) 2)").unwrap_err(), "papply: interval point 2 out of bounds, expected [0,1]");
    assert_eq!(run("(papply (path (i) i) 'a)").unwrap_err(), "papply: interval point must be a number, got a");
    assert_eq!(run("(papply (list 1 'b) 0)").unwrap_err(), "papply: not a path: (1 b)");
    assert_eq!(run("(1 2)").unwrap_err(), "not a function: 1");
    assert_eq!(run("(piapply (sigma (x) 0 x) 1)").unwrap_err(), "piapply: not a pi-type: #<sigma>");
    assert_eq!(run("(sigmacod 2.5 1)").unwrap_err(), "sigmacod: not a sigma-type: 2.5");
    assert_eq!(run("(unglue (symbol->string 'q))").unwrap_err(), "unglue: not a glue term: \"q\"");
    assert_eq!(run("(symbol->string 7)").unwrap_err(), "symbol->string: expected symbol, got 7");
    assert_eq!(
        run("(string->number (symbol->string 'x))").unwrap_err(),
        "string->number: not a valid number: \"x\""
    );
    assert_eq!(run("(piapply 1)").unwrap_err(), "piapply: expected (piapply <pi-type> <value>)");
    assert_eq!(run("(sigmacod 1)").unwrap_err(), "sigmacod: expected (sigmacod <sigma-type> <value>)");
    assert_eq!(run("(glue 1)").unwrap_err(), "glue: expected (glue <val> <equiv>)");
    assert_eq!(run("(glue-type 1)").unwrap_err(), "glue-type: expected (glue-type <base-type> <equiv>)");
    assert_eq!(run("(__Path__)").unwrap_err(), "__Path__: expected 1 argument");
    assert_eq!(run("(__Glue__ 1 2)").unwrap_err(), "__Glue__: expected 1 argument");
    assert_eq!(run("(defmacro m (x 3) x)").unwrap_err(), "parse_params: expected symbol in parameter list, got 3");
}

#[test]
fn texts_read_in_order() {
    let a = "(define x 1) 'y";
    let b = "(+ x 2.5) \"s\"";
    let xs = parse_src(a).unwrap();
    let ys = parse_src(b).unwrap();
    let both = parse_src(&format!("{} {}", a, b)).unwrap();
    let joined: Vec<String> = xs.iter().chain(ys.iter()).map(show).collect();
    assert_eq!(both.iter().map(show).collect::<Vec<_>>(), joined);
    assert_eq!(both.len(), 4);
    assert_eq!(show(&both[2]), "(+ x 2.5)");
    assert!(parse_src("").unwrap().is_empty());
}

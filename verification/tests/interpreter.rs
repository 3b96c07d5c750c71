use composeable_glue::glue_interpreter::index::{MiddleIndices, TermIndex1};
use composeable_glue::glue_interpreter::lang0::ast::Ast;
use composeable_glue::glue_interpreter::lang0::expr::{ConstantExpr, Expr};
use composeable_glue::glue_interpreter::lang0::stmt::Stmt;
use composeable_glue::glue_interpreter::lexer::{lex, Lexed};
use composeable_glue::glue_interpreter::parser::{parse, read};
use composeable_glue::glue_interpreter::storage::{Storage, Term};
use composeable_glue::glue_interpreter::symbol::Symbol;

#[test]
fn interpret0() {
    // (for x (x ..) -> (x ..))
    let mut storage = Storage::new();
    let src = storage.read("(a b c d e)").unwrap();
    let ast = Ast::new(vec![
        // 0
        Stmt::assign(0, Expr::constant(0)),
        // 1
        Stmt::assign(1, Expr::len(vec![])),
        // 2
        Stmt::copy(vec![ConstantExpr::var(0)]),
        // 3
        Stmt::assign(0, Expr::add(0, ConstantExpr::constant(1))),
        // 4
        Stmt::jump(2, 0, ConstantExpr::var(1)),
        // 5
        Stmt::assign(3, Expr::len(vec![])),
        // 6
        Stmt::build(ConstantExpr::var(3)),
    ]);
    let result = ast.interpret(&mut storage, src);
    let expected = storage.read("(a b c d e)").unwrap();
    assert!(storage.terms_are_equal(result, expected));
}

#[test]
fn interpret1() {
    // (for x (x ..) -> ((a x) ..))
    let mut storage = Storage::new();
    let src = storage.read("(a b c d e)").unwrap();
    let a = storage.read("a").unwrap();
    let ast = Ast::new(vec![
        Stmt::assign(0, Expr::constant(0)),
        Stmt::assign(1, Expr::len(vec![])),
        Stmt::sym(a),
        Stmt::copy(vec![ConstantExpr::var(0)]),
        Stmt::build(ConstantExpr::constant(2)),
        Stmt::assign(0, Expr::add(0, ConstantExpr::constant(1))),
        Stmt::jump(2, 0, ConstantExpr::var(1)),
        Stmt::assign(3, Expr::len(vec![])),
        Stmt::build(ConstantExpr::var(3)),
    ]);
    let result = ast.interpret(&mut storage, src);
    let expected = storage.read("((a a) (a b) (a c) (a d) (a e))").unwrap();
    assert!(storage.terms_are_equal(result, expected));
}

#[test]
fn interpret2() {
    // (for x ((x ..) ..) -> ((x ..) ..))
    let mut storage = Storage::new();
    let src = storage.read("((a b c d e) (f g) () (h i j) (k))").unwrap();
    let _a = storage.read("a").unwrap();
    let ast = Ast::new(vec![
        Stmt::assign(0, Expr::constant(0)),
        Stmt::assign(1, Expr::len(vec![])),
        Stmt::unconditional_jump(11 /* LOOP_1_END */),
        /* LOOP_1 = 3 */
        Stmt::assign(2, Expr::constant(0)),
        Stmt::assign(3, Expr::len(vec![ConstantExpr::var(0)])),
        Stmt::unconditional_jump(8 /* LOOP_2_END */),
        /* LOOP_2 = 6 */
        Stmt::copy(vec![ConstantExpr::var(0), ConstantExpr::var(2)]),
        Stmt::assign(2, Expr::add(2, ConstantExpr::constant(1))),
        /* LOOP_2_END = 8 */
        Stmt::jump(6 /* LOOP_2 */, 2, ConstantExpr::var(3)),
        Stmt::build(ConstantExpr::var(3)),
        Stmt::assign(0, Expr::add(0, ConstantExpr::constant(1))),
        /* LOOP_1_END = 11 */
        Stmt::jump(3 /* LOOP_1 */, 0, ConstantExpr::var(1)),
        Stmt::build(ConstantExpr::var(1)),
    ]);
    let result = ast.interpret(&mut storage, src);
    let expected = storage.read("((a b c d e) (f g) () (h i j) (k))").unwrap();
    assert!(storage.terms_are_equal(result, expected));
}

#[test]
fn interpret3() {
    // (for x ((x ..) ..) -> (x .. ..))
    let mut storage = Storage::new();
    let src = storage.read("((a b c d e) (f g) () (h i j) (k))").unwrap();
    let ast = Ast::new(vec![
        Stmt::assign(0, Expr::constant(0)),
        Stmt::assign(1, Expr::len(vec![])),
        Stmt::assign(2, Expr::constant(0)),
        Stmt::unconditional_jump(12),
        Stmt::assign(3, Expr::constant(0)),
        Stmt::assign(4, Expr::len(vec![ConstantExpr::var(0)])),
        Stmt::unconditional_jump(9),
        Stmt::copy(vec![ConstantExpr::var(0), ConstantExpr::var(3)]),
        Stmt::assign(3, Expr::add(3, ConstantExpr::constant(1))),
        Stmt::jump(7, 3, ConstantExpr::var(4)),
        Stmt::assign(0, Expr::add(0, ConstantExpr::constant(1))),
        Stmt::assign(2, Expr::add(2, ConstantExpr::var(4))),
        Stmt::jump(4, 0, ConstantExpr::var(1)),
        Stmt::build(ConstantExpr::var(2)),
    ]);
    let result = ast.interpret(&mut storage, src);
    let expected = storage.read("(a b c d e f g h i j k)").unwrap();
    assert!(storage.terms_are_equal(result, expected));
}

#[test]
fn interpret_sub_and_constant_build() {
    // Builds the last two elements of the source, found by subtraction.
    let mut storage = Storage::new();
    let src = storage.read("(p q r s)").unwrap();
    let ast = Ast::new(vec![
        Stmt::assign(0, Expr::len(vec![])),
        Stmt::assign(1, Expr::sub(0, ConstantExpr::constant(2))),
        Stmt::copy(vec![ConstantExpr::var(1)]),
        Stmt::assign(1, Expr::add(1, ConstantExpr::constant(1))),
        Stmt::copy(vec![ConstantExpr::var(1)]),
        Stmt::build(ConstantExpr::constant(2)),
    ]);
    let result = ast.interpret(&mut storage, src);
    let expected = storage.read("(r s)").unwrap();
    assert!(storage.terms_are_equal(result, expected));
    let wrong = storage.read("(q r)").unwrap();
    assert!(!storage.terms_are_equal(result, wrong));
}

#[test]
fn count_repetitions1() {
    let mut storage = Storage::new();
    let k = read(&mut storage, "(0 1 2 3 4)".into()).unwrap();
    let index = TermIndex1::new(vec![], MiddleIndices::new(1, 1));
    let repetitions = index.count_repetitions(&storage, k);
    assert_eq!(repetitions, 4);
}

#[test]
fn count_repetitions2() {
    let mut storage = Storage::new();
    let k = read(&mut storage, "(0 (a b c d e (x y) g) 2 3 4)".into()).unwrap();
    let index = TermIndex1::new(vec![1, 5], MiddleIndices::new(0, 1));
    let repetitions = index.count_repetitions(&storage, k);
    assert_eq!(repetitions, 2);
}

#[test]
fn count_repetitions_edges() {
    let mut storage = Storage::new();
    let k = read(&mut storage, "(0 1 2)".into()).unwrap();
    // More counted back from the end than there are elements: none.
    assert_eq!(MiddleIndices::new(0, 4).count_repetitions(&storage, k), 0);
    // An empty range still counts one.
    assert_eq!(MiddleIndices::new(3, 1).count_repetitions(&storage, k), 1);
    assert_eq!(MiddleIndices::new(0, 0).count_repetitions(&storage, k), 4);
}

#[test]
fn lex1() {
    let l = || Lexed::Left;
    let r = || Lexed::Right;
    let s = |b: &str| Lexed::Symbol(Symbol::new(b.into()));
    assert_eq!(
        lex("(for x (id x) -> x)"),
        (
            "".into(),
            vec![
                l(),
                s("for"),
                s("x"),
                l(),
                s("id"),
                s("x"),
                r(),
                s("->"),
                s("x"),
                r()
            ]
        )
    )
}

#[test]
fn lex_keeps_trailing_spaces() {
    let (rest, tokens) = lex(" a\n(b)  \n ");
    assert_eq!(rest, "  \n ");
    assert_eq!(
        tokens,
        vec![
            Lexed::Symbol(Symbol::new("a".into())),
            Lexed::Left,
            Lexed::Symbol(Symbol::new("b".into())),
            Lexed::Right
        ]
    );
}

#[test]
fn parse1() {
    let mut s = Storage::new();
    let k = parse(&mut s, lex("(for a b (swap (pair a b)) -> (pair b a))").1);
    let expected = s.read("(for a b (swap (pair a b)) -> (pair b a))").unwrap();
    assert!(s.terms_are_equal(k, expected));
}

#[test]
fn read_rejects_unbalanced_text() {
    let mut s = Storage::new();
    assert!(s.read(")").is_none());
    assert!(s.read("(a (b)").is_none());
    assert!(s.read("   ").is_none());
    // Only the first complete term is read.
    let k = s.read("x (y)").unwrap();
    match s.get(k) {
        Some(Term::Symbol(sym)) => assert_eq!(sym.data(), "x"),
        _ => panic!("expected a symbol"),
    }
}

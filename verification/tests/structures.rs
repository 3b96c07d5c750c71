use composeable_glue::glue_interpreter::compound::Compound;
use composeable_glue::glue_interpreter::constructor2::{interpret, Constructor, Expr, IndexExpr, Instruction};
use composeable_glue::glue_interpreter::index::{
    CompoundIndex, Index4, Index5, MiddleIndices, Nomiddle, NomiddleIndex, TermIndex, TermIndexN,
};
use composeable_glue::glue_interpreter::lang0::expr::{ConstantExpr, Var};
use composeable_glue::glue_interpreter::lang0::expr::{Expr as Expr0, Index as Index0};
use composeable_glue::glue_interpreter::lang0::stmt::{Label, Stmt as Stmt0};
use composeable_glue::glue_interpreter::lang1::ast::Ast as Ast1;
use composeable_glue::glue_interpreter::lang1::stmt::{Index as Index1, IndexElement as IndexElement1, Stmt as Stmt1};
use composeable_glue::glue_interpreter::env::Env;
use composeable_glue::glue_interpreter::lang2::varmap::{LangNPlusOneVar, Varmap};
use composeable_glue::glue_interpreter::rule::Rule;
use composeable_glue::glue_interpreter::predicate::PredicateSet;
use composeable_glue::glue_interpreter::storage::{Storage, Term};
use composeable_glue::glue_interpreter::symbol::Symbol;

fn text(storage: &Storage, k: composeable_glue::glue_interpreter::storage::StorageKey, graph: bool) -> String {
    storage.println(k, graph).into_iter().collect()
}

#[test]
fn instr0() {
    // (for x (x ..) -> ((a x) ..))
    let mut storage = Storage::new();
    let a = storage.insert(Term::Symbol(Symbol::new("a".into())));
    let _constructor = Constructor::new(vec![
        Instruction::for_loop(
            0,
            Expr::constant(0),
            Expr::subtract(Expr::length(IndexExpr::new(vec![])), Expr::constant(1)),
            vec![
                Instruction::symbol(a),
                Instruction::copy(IndexExpr::new(vec![Expr::var(0)])),
                Instruction::compound(Expr::constant(2)),
            ],
        ),
        Instruction::compound(Expr::length(IndexExpr::new(vec![]))),
    ]);
}

#[test]
fn interpret_builds_from_the_bottom_of_the_stack() {
    let mut storage = Storage::new();
    let src = storage.read("(x y z)").unwrap();
    let a = storage.read("a").unwrap();
    let b = storage.read("b").unwrap();
    let c = storage.read("c").unwrap();
    // The first two keys pushed, in reverse order, then those with the rest.
    let constructor = Constructor::new(vec![
        Instruction::symbol(a),
        Instruction::symbol(b),
        Instruction::symbol(c),
        Instruction::compound(Expr::subtract(Expr::length(IndexExpr::new(vec![])), Expr::constant(1))),
        Instruction::compound(Expr::multiply(Expr::constant(1), Expr::constant(2))),
    ]);
    interpret(&constructor, &mut storage, src);
    let expected = storage.read("((b a) c)").unwrap();
    assert!(storage.terms_are_equal(src, expected));
}

#[test]
fn println_plain_and_graph_syntax() {
    let mut storage = Storage::new();
    let k = storage.read("(for x (id x) -> ())").unwrap();
    assert_eq!(text(&storage, k, false), "(for x (id x) -> ())\n");
    let a = storage.insert(Term::Symbol(Symbol::new("a".into())));
    let pair = storage.insert(Term::Compound(composeable_glue::glue_interpreter::compound::Compound::new(vec![a, a])));
    let top = storage.insert(Term::Compound(composeable_glue::glue_interpreter::compound::Compound::new(vec![pair, pair, a])));
    assert_eq!(text(&storage, top, false), "((a a) (a a) a)\n");
    // The pair is met twice first, then a: the pair gets label 1 only if a
    // is counted first, and a is met twice inside the first pair.
    assert_eq!(text(&storage, top, true), "(#1=(#0=a #0) #1 #0)\n");
}

#[test]
fn label_keys_counts_second_occurrences_in_order() {
    let mut storage = Storage::new();
    let a = storage.insert(Term::Symbol(Symbol::new("a".into())));
    let b = storage.insert(Term::Symbol(Symbol::new("b".into())));
    let t = storage.insert(Term::Compound(composeable_glue::glue_interpreter::compound::Compound::new(vec![b, a, a, b])));
    let labels = storage.label_keys_used_more_than_once(t);
    assert_eq!(labels.len(), 2);
    assert_eq!(storage.println(t, true).into_iter().collect::<String>(), "(#1=b #0=a #0 #1)\n");
    let _ = labels;
}

#[test]
fn term_index_lookups() {
    let mut storage = Storage::new();
    let k = storage.read("(0 (a b c d e (x y) g) 2 3 4)").unwrap();
    let expected_x = storage.read("x").unwrap();
    let ti = TermIndex::new(vec![1, 5, 0]);
    assert!(storage.terms_are_equal(ti.lookup(&storage, k), expected_x));
    let nm = NomiddleIndex::new(vec![Nomiddle::ZeroPlus(1), Nomiddle::LenMinus(2), Nomiddle::LenMinus(1)]);
    let y = storage.read("y").unwrap();
    assert!(storage.terms_are_equal(nm.clone().lookup(&storage, k), y));
    assert_eq!(nm.to_zp(&storage, k, &[]), vec![1, 5, 1]);
    let nm2 = NomiddleIndex::new(vec![Nomiddle::LenMinus(1)]);
    assert!(storage.terms_are_equal(nm2.lookup2(&storage, k, &[1, 5]), y));
}

#[test]
fn term_index_n_fans_out_over_middles() {
    let mut storage = Storage::new();
    let k = storage.read("((a b c) (d e) (f))").unwrap();
    let idx = TermIndexN::new(vec![
        CompoundIndex::Middle(MiddleIndices::new(0, 1)),
        CompoundIndex::ZeroPlus(0),
    ]);
    let keys = idx.lookup(&storage, k);
    assert_eq!(keys.len(), 2);
    let a = storage.read("a").unwrap();
    let d = storage.read("d").unwrap();
    assert!(storage.terms_are_equal(keys[0], a));
    assert!(storage.terms_are_equal(keys[1], d));
    let idx2 = TermIndexN::new(vec![
        CompoundIndex::ZeroPlus(1),
        CompoundIndex::LengthMinus(1),
    ]);
    let e = storage.read("e").unwrap();
    let keys2 = idx2.lookup(&storage, k);
    assert_eq!(keys2.len(), 1);
    assert!(storage.terms_are_equal(keys2[0], e));
    let ti = idx.into_term_index(&storage, k, &[1]);
    assert!(storage.terms_are_equal(ti.lookup(&storage, k), d));
}

#[test]
fn to_index5_groups_by_middle() {
    let idx = TermIndexN::new(vec![
        CompoundIndex::ZeroPlus(2),
        CompoundIndex::Middle(MiddleIndices::new(0, 1)),
        CompoundIndex::LengthMinus(1),
        CompoundIndex::Middle(MiddleIndices::new(1, 0)),
        CompoundIndex::ZeroPlus(9),
    ]);
    match idx.to_index5() {
        Index5::WithMiddle(groups) => {
            assert_eq!(groups.len(), 2);
            assert_eq!(groups[0].first, vec![Nomiddle::ZeroPlus(2)]);
            assert_eq!(groups[0].last, MiddleIndices::new(0, 1));
            assert_eq!(groups[1].first, vec![Nomiddle::LenMinus(1)]);
        }
        Index5::WithoutMiddle(_) => panic!("expected groups"),
    }
    match TermIndexN::new(vec![CompoundIndex::LengthMinus(3)]).to_index5() {
        Index5::WithoutMiddle(ns) => assert_eq!(ns, vec![Nomiddle::LenMinus(3)]),
        Index5::WithMiddle(_) => panic!("expected no groups"),
    }
}

#[test]
fn index5_prepend() {
    let mut without = Index5::new_without_middle(vec![Nomiddle::LenMinus(1)]);
    without.prepend(&[4, 5]);
    match without {
        Index5::WithoutMiddle(ns) => assert_eq!(ns, vec![Nomiddle::ZeroPlus(4), Nomiddle::ZeroPlus(5), Nomiddle::LenMinus(1)]),
        _ => panic!(),
    }
    let mut with = Index5::new_with_middle(vec![Index4::new(vec![Nomiddle::ZeroPlus(0)], MiddleIndices::new(0, 1))]);
    with.prepend(&[7]);
    match with {
        Index5::WithMiddle(g) => assert_eq!(g[0].first, vec![Nomiddle::ZeroPlus(7), Nomiddle::ZeroPlus(0)]),
        _ => panic!(),
    }
    let mut no_groups = Index5::new_with_middle(vec![]);
    no_groups.prepend(&[3]);
    match no_groups {
        Index5::WithoutMiddle(ns) => assert_eq!(ns, vec![Nomiddle::ZeroPlus(3)]),
        _ => panic!(),
    }
}

#[test]
fn varmap_hands_out_fresh_variables() {
    let mut v = Varmap::default();
    let s0 = v.enter_scope();
    let a = v.generate_var(&s0);
    let b = v.generate_var(&s0);
    assert_eq!((a.0, b.0), (0, 1));
    let s1 = v.enter_scope();
    let x = v.get_source_variable(LangNPlusOneVar::new(7), &s1);
    assert_eq!(x.0, 2);
    assert_eq!(v.get_source_variable(LangNPlusOneVar::new(7), &s1).0, 2);
    v.exit_scope(s1);
    assert_eq!(v.in_use(), 2);
    let s2 = v.enter_scope();
    // The source variable was given back with its scope.
    assert_eq!(v.get_source_variable(LangNPlusOneVar::new(7), &s2).0, 2);
    let usize_value: usize = a.into();
    assert_eq!(usize_value, 0);
}

#[test]
fn lang1_compiles_copies_and_prologues() {
    let ast = Ast1::new(vec![
        Stmt1::ForLoopPrologue {
            induction_var: Var(5),
            start: 0,
            end_at_len_minus: 1,
            elements: vec![ConstantExpr::constant(2)],
        },
        Stmt1::Copy(Index1::new(vec![
            IndexElement1::ZeroPlus(1),
            IndexElement1::LenMinus(1),
            IndexElement1::Var(5),
        ])),
    ]);
    let program = ast.compile();
    // The prologue sets variable 5 to 0 and variable 0 to one less than the
    // length of element 2; the copy reads element 1, its last element, and
    // the element variable 5 points at.
    let mut storage = Storage::new();
    let src = storage.read("(a (b (x y) (z w)) (e f))").unwrap();
    let result = program.interpret(&mut storage, src);
    let z = storage.read("z").unwrap();
    assert!(storage.terms_are_equal(result, z));
}

#[test]
fn predicate_set_starts_empty() {
    let _p = PredicateSet::new();
}

#[test]
fn label_text() {
    assert_eq!(Label(0).text().into_iter().collect::<String>(), "@0");
    assert_eq!(Label(1207).text().into_iter().collect::<String>(), "@1207");
}

#[test]
fn terms_equal_either_order() {
    let mut s = Storage::new();
    let a = s.read("(f (g x) y)").unwrap();
    let b = s.read("(f (g x) y)").unwrap();
    let c = s.read("(f (g x) (y))").unwrap();
    assert!(s.terms_are_equal(a, a));
    assert!(s.terms_are_equal(a, b));
    assert!(s.terms_are_equal(b, a));
    assert!(!s.terms_are_equal(a, c));
    assert!(!s.terms_are_equal(c, a));
}

#[test]
fn joined_paths_lead_where_steps_lead() {
    let mut storage = Storage::new();
    let k = storage.read("(0 (a b c d e (x y) g) 2 3 4)").unwrap();
    let whole = TermIndex::new(vec![1, 5, 1]).lookup(&storage, k);
    let mid = TermIndex::new(vec![1, 5]).lookup(&storage, k);
    let step = TermIndex::new(vec![1]).lookup(&storage, mid);
    assert_eq!(whole, step);
}

#[test]
fn nesting_and_cycles() {
    let mut s = Storage::new();
    assert_eq!(s.len(), 0);
    let k = s.read("(f (g x))").unwrap();
    assert_eq!(s.len(), 5);
    assert!(s.nests_within(k, 2));
    assert!(!s.nests_within(k, 1));
    assert!(s.nests_within(k, s.len() + 1));
    s.replace(k, Term::Compound(Compound::new(vec![k])));
    assert!(!s.nests_within(k, s.len() + 1));
}

#[test]
fn printed_terms_read_back() {
    let mut s = Storage::new();
    let k = s.read("(f (g x) () (y (z)))").unwrap();
    let text: String = s.println(k, false).into_iter().collect();
    assert_eq!(text, "(f (g x) () (y (z)))\n");
    let k2 = s.read(&text).unwrap();
    assert!(s.terms_are_equal(k, k2));
}

#[test]
fn closing_a_scope_gives_everything_back() {
    let mut v = Varmap::default();
    let s0 = v.enter_scope();
    let a = v.generate_var(&s0);
    let s1 = v.enter_scope();
    let _ = v.generate_var(&s1);
    let _ = v.get_source_variable(LangNPlusOneVar::new(3), &s1);
    let s2 = v.enter_scope();
    let _ = v.generate_var(&s2);
    v.exit_scope(s2);
    assert_eq!(v.in_use(), 3);
    v.exit_scope(s1);
    assert_eq!(v.in_use(), 1);
    // The next fresh variable is the first one given back.
    assert_eq!(v.generate_var(&s0).0, a.0 + 1);
}

#[test]
fn rules_keep_the_order_they_were_added_in() {
    let mut e = Env::new(vec![Rule {}]);
    e.add_rule(Rule {});
    e.add_rule(Rule {});
    assert_eq!(e.rules().len(), 3);
}

fn shown(s: &Stmt0) -> String {
    s.text().into_iter().collect()
}

#[test]
fn statements_show_as_text() {
    assert_eq!(shown(&Stmt0::assign(3, Expr0::sub(3, ConstantExpr::constant(1)))), "v3 = v3 - 1");
    assert_eq!(shown(&Stmt0::assign(0, Expr0::constant(42))), "v0 = 42");
    assert_eq!(shown(&Stmt0::copy(vec![ConstantExpr::constant(2), ConstantExpr::var(0)])), "copy [2, v0]");
    assert_eq!(shown(&Stmt0::assign(1, Expr0::len(vec![]))), "v1 = len []");
    assert_eq!(shown(&Stmt0::build(ConstantExpr::var(4))), "build v4");
    assert_eq!(shown(&Stmt0::jump(7, 2, ConstantExpr::var(5))), "jump @7 when v2 < v5");
    assert_eq!(shown(&Stmt0::unconditional_jump(12)), "jump @12");
    let mut storage = Storage::new();
    let k = storage.insert(Term::Symbol(Symbol::new("a".into())));
    assert!(shown(&Stmt0::sym(k)).starts_with("sym "));
    assert_eq!(ConstantExpr::constant(10).text().into_iter().collect::<String>(), "10");
    assert_eq!(Expr0::add(1, ConstantExpr::var(2)).text().into_iter().collect::<String>(), "v1 + v2");
    assert_eq!(Index0::new(vec![ConstantExpr::var(1)]).text().into_iter().collect::<String>(), "[v1]");
}

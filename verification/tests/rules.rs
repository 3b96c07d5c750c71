use composeable_glue::glue_interpreter::lexer::lex;
use composeable_glue::glue_interpreter::parser::parse;
use composeable_glue::glue_interpreter::rule::{
    create_match_result_single, is_captured_variable, narrow_to_captured_variables,
    parse_rule_pattern_single, parse_rule_result_multi, parse_rule_result_single, pattern_match_single,
    split_branches, Bindings, Match, MultiPattern, ResultPattern, ResultSinglePattern, SinglePattern,
};
use composeable_glue::glue_interpreter::storage::{Storage, Term};

fn branch_lengths(m: &Match) -> Vec<usize> {
    match m {
        Match::Branches(bs) => bs
            .iter()
            .map(|b| match b {
                Match::Branches(inner) => inner.len(),
                Match::Leaf(_) => usize::MAX,
            })
            .collect(),
        Match::Leaf(_) => vec![],
    }
}

#[test]
fn parse_rule_pattern_single1() {
    let mut s = Storage::new();
    let k = parse(&mut s, lex("(flatten (list (list xs ..) ..))").1);
    let vs = vec!["xs".to_string()];
    let pattern = parse_rule_pattern_single(&s, k, &vs);
    match pattern {
        SinglePattern::Compound(mp) => match *mp {
            MultiPattern::One(one) => {
                assert_eq!(one.sp, SinglePattern::Symbol("flatten".into()));
                match one.mp {
                    MultiPattern::One(inner) => assert!(matches!(inner.mp, MultiPattern::Nothing)),
                    _ => panic!("expected one element after flatten"),
                }
            }
            _ => panic!("expected a first element"),
        },
        _ => panic!("expected a compound pattern"),
    }
}

#[test]
fn pattern_match_single1() {
    let mut s = Storage::new();
    let k = parse(&mut s, lex("(flatten (list (list xs ..) ..))").1);
    let vs = vec!["xs".to_string()];
    let pattern = parse_rule_pattern_single(&s, k, &vs);
    let value_k = parse(&mut s, lex("(flatten (list (list a b c) (list d e) (list)))").1);
    let m = pattern_match_single(&s, &pattern, value_k).unwrap();
    let xs = m.get(&"xs".to_string()).unwrap();
    // The empty `(list)` binds nothing, so it contributes no branch.
    assert_eq!(branch_lengths(xs), vec![3, 2]);
}

#[test]
fn create_match_result_single1() {
    let mut s = Storage::new();

    let variables = vec!["xs".to_string()];

    let pattern_k = parse(&mut s, lex("(flatten (list (list xs ..) ..))").1);
    let pattern = parse_rule_pattern_single(&s, pattern_k, &variables);

    let result_k = parse(&mut s, lex("(list xs .. ..)").1);
    let result = parse_rule_result_single(&s, &variables, result_k);

    let value_k = parse(&mut s, lex("(flatten (list (list a b c) (list d e) (list)))").1);
    let m = pattern_match_single(&s, &pattern, value_k).unwrap();

    let r = create_match_result_single(&mut s, &m, &result);
    let expected = s.read("(list a b c d e)").unwrap();
    assert!(s.terms_are_equal(r, expected));
}

#[test]
fn pattern_symbol_mismatch_fails() {
    let mut s = Storage::new();
    let vs = vec!["x".to_string()];
    let pk = s.read("(pair x y)").unwrap();
    let pattern = parse_rule_pattern_single(&s, pk, &vs);
    let good = s.read("(pair 1 y)").unwrap();
    let bad = s.read("(pair 1 z)").unwrap();
    let short = s.read("(pair 1)").unwrap();
    let m = pattern_match_single(&s, &pattern, good).unwrap();
    let x = m.get(&"x".to_string()).unwrap();
    match x {
        Match::Leaf(k) => match s.get(*k) {
            Some(Term::Symbol(sym)) => assert_eq!(sym.data(), "1"),
            _ => panic!("expected the symbol 1"),
        },
        _ => panic!("expected a leaf"),
    }
    assert!(pattern_match_single(&s, &pattern, bad).is_none());
    assert!(pattern_match_single(&s, &pattern, short).is_none());
}

#[test]
fn repetition_is_greedy() {
    // x .. takes every element, so nothing is left for the trailing symbol.
    let mut s = Storage::new();
    let vs = vec!["x".to_string()];
    let pk = s.read("(x .. end)").unwrap();
    let pattern = parse_rule_pattern_single(&s, pk, &vs);
    let value = s.read("(a b end)").unwrap();
    assert!(pattern_match_single(&s, &pattern, value).is_none());
    let pk2 = s.read("(start x ..)").unwrap();
    let pattern2 = parse_rule_pattern_single(&s, pk2, &vs);
    let value2 = s.read("(start a b)").unwrap();
    let m = pattern_match_single(&s, &pattern2, value2).unwrap();
    match m.get(&"x".to_string()).unwrap() {
        Match::Branches(bs) => assert_eq!(bs.len(), 2),
        _ => panic!("expected branches"),
    }
}

#[test]
fn result_pattern_appends_per_dots() {
    let mut s = Storage::new();
    let vs = vec!["x".to_string()];
    let rk = s.read("(x .. .. y)").unwrap();
    let keys = match s.get(rk) {
        Some(Term::Compound(c)) => c.keys().to_vec(),
        _ => panic!("expected a compound"),
    };
    let ps = parse_rule_result_multi(&s, &vs, &keys);
    assert_eq!(ps.len(), 2);
    match &ps[0] {
        ResultPattern::Append(a) => match a.as_ref() {
            ResultPattern::Append(b) => match b.as_ref() {
                ResultPattern::Single(inner) => {
                    assert_eq!(**inner, ResultSinglePattern::Variable("x".into()))
                }
                _ => panic!("expected the variable inside"),
            },
            _ => panic!("expected a second append"),
        },
        _ => panic!("expected an append"),
    }
    assert!(matches!(&ps[1], ResultPattern::Single(_)));
    assert!(is_captured_variable(&"x".to_string(), &ps[0]));
    assert!(!is_captured_variable(&"y".to_string(), &ps[0]));
}

#[test]
fn split_and_narrow_bindings() {
    let mut s = Storage::new();
    let a = s.read("a").unwrap();
    let b = s.read("b").unwrap();
    let mut m = Bindings::new();
    m.insert("x".to_string(), Match::Branches(vec![Match::Leaf(a), Match::Leaf(b)]));
    m.insert("y".to_string(), Match::Branches(vec![Match::Leaf(b), Match::Leaf(a)]));
    m.insert("z".to_string(), Match::Leaf(a));
    let p = ResultPattern::Single(Box::new(ResultSinglePattern::Compound(vec![
        ResultPattern::Single(Box::new(ResultSinglePattern::Variable("x".into()))),
        ResultPattern::Single(Box::new(ResultSinglePattern::Variable("y".into()))),
    ])));
    let narrowed = narrow_to_captured_variables(&m, &p);
    assert_eq!(narrowed.len(), 2);
    assert!(narrowed.get(&"z".to_string()).is_none());
    let splits = split_branches(&narrowed);
    assert_eq!(splits.len(), 2);
    assert_eq!(splits[0].get(&"x".to_string()), Some(&Match::Leaf(a)));
    assert_eq!(splits[0].get(&"y".to_string()), Some(&Match::Leaf(b)));
    assert_eq!(splits[1].get(&"x".to_string()), Some(&Match::Leaf(b)));
    assert_eq!(splits[1].get(&"y".to_string()), Some(&Match::Leaf(a)));
}

#[test]
fn bindings_insert_replaces_and_extend_prefers_new() {
    let mut s = Storage::new();
    let a = s.read("a").unwrap();
    let b = s.read("b").unwrap();
    let mut m = Bindings::new();
    m.insert("x".to_string(), Match::Leaf(a));
    m.insert("x".to_string(), Match::Leaf(b));
    assert_eq!(m.len(), 1);
    assert_eq!(m.get(&"x".to_string()), Some(&Match::Leaf(b)));
    let mut other = Bindings::new();
    other.insert("x".to_string(), Match::Leaf(a));
    other.insert("w".to_string(), Match::Leaf(b));
    m.extend(other);
    assert_eq!(m.len(), 2);
    assert_eq!(m.get(&"x".to_string()), Some(&Match::Leaf(a)));
    assert_eq!(m.get(&"w".to_string()), Some(&Match::Leaf(b)));
}

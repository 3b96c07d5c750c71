use composeable_glue::glue_interpreter::constructor::{CompoundElement, SingleConstructor};
use composeable_glue::glue_interpreter::index::{Index4, Index5, MiddleIndices, Nomiddle, NomiddleIndex};
use composeable_glue::glue_interpreter::storage::Storage;

#[test]
fn construct0() {
    // (for x (x ..) -> (x ..))
    let constructor = SingleConstructor::Compound(vec![CompoundElement {
        single_constructor: SingleConstructor::Copy(NomiddleIndex::new(vec![])),
        dot_dotted_indices: Index5::new_with_middle(vec![Index4::new(vec![], MiddleIndices::new(0, 1))]),
    }]);
    let mut storage = Storage::new();
    let term = storage.read("(1 2 3 4 5 6)").unwrap();
    constructor.construct(&mut storage, term);
    let expected = storage.read("(1 2 3 4 5 6)").unwrap();
    assert!(storage.terms_are_equal(term, expected));
}

#[test]
fn construct1() {
    // (for x (x ..) -> ((a x) ..))
    let constructor = SingleConstructor::Compound(vec![CompoundElement {
        single_constructor: SingleConstructor::Compound(vec![
            CompoundElement {
                single_constructor: SingleConstructor::Symbol("a".into()),
                dot_dotted_indices: Index5::empty(),
            },
            CompoundElement {
                single_constructor: SingleConstructor::Copy(NomiddleIndex::new(vec![])),
                dot_dotted_indices: Index5::empty(),
            },
        ]),
        dot_dotted_indices: Index5::new_with_middle(vec![Index4::new(vec![], MiddleIndices::new(0, 1))]),
    }]);
    let mut storage = Storage::new();
    let term = storage.read("(1 2 3 4 5 6)").unwrap();
    constructor.construct(&mut storage, term);
    let expected = storage.read("((a 1) (a 2) (a 3) (a 4) (a 5) (a 6))").unwrap();
    assert!(storage.terms_are_equal(term, expected));
}

#[test]
fn construct2() {
    // (for x y z ((x z .. y) ..) -> (x .. y .. z .. ..))
    let constructor = SingleConstructor::Compound(vec![
        CompoundElement {
            single_constructor: SingleConstructor::Copy(NomiddleIndex::new(vec![Nomiddle::ZeroPlus(0)])),
            dot_dotted_indices: Index5::new_with_middle(vec![Index4::new(vec![], MiddleIndices::new(0, 1))]),
        },
        CompoundElement {
            single_constructor: SingleConstructor::Copy(NomiddleIndex::new(vec![Nomiddle::LenMinus(1)])),
            dot_dotted_indices: Index5::new_with_middle(vec![Index4::new(vec![], MiddleIndices::new(0, 1))]),
        },
        CompoundElement {
            single_constructor: SingleConstructor::Copy(NomiddleIndex::new(vec![])),
            dot_dotted_indices: Index5::new_with_middle(vec![
                Index4::new(vec![], MiddleIndices::new(0, 1)),
                Index4::new(vec![], MiddleIndices::new(1, 2)),
            ]),
        },
    ]);

    let mut storage = Storage::new();
    let term = storage.read("((x0 z0a z0b y0) (x1 z1a z1b y1) (x2 z2a z2b y2))").unwrap();
    constructor.construct(&mut storage, term);
    let expected = storage.read("(x0 x1 x2 y0 y1 y2 z0a z0b z1a z1b z2a z2b)").unwrap();
    assert!(storage.terms_are_equal(term, expected));
}

#[test]
fn construct3() {
    // (for x y z ((x z .. y) ..) -> ((y: y x: x z: (z ..)) ..))
    let constructor = SingleConstructor::Compound(vec![CompoundElement {
        single_constructor: SingleConstructor::Compound(vec![
            CompoundElement {
                single_constructor: SingleConstructor::Symbol("y:".into()),
                dot_dotted_indices: Index5::empty(),
            },
            CompoundElement {
                single_constructor: SingleConstructor::Copy(NomiddleIndex::new(vec![Nomiddle::LenMinus(1)])),
                dot_dotted_indices: Index5::empty(),
            },
            CompoundElement {
                single_constructor: SingleConstructor::Symbol("x:".into()),
                dot_dotted_indices: Index5::empty(),
            },
            CompoundElement {
                single_constructor: SingleConstructor::Copy(NomiddleIndex::new(vec![Nomiddle::ZeroPlus(0)])),
                dot_dotted_indices: Index5::empty(),
            },
            CompoundElement {
                single_constructor: SingleConstructor::Symbol("z:".into()),
                dot_dotted_indices: Index5::empty(),
            },
            CompoundElement {
                single_constructor: SingleConstructor::Compound(vec![CompoundElement {
                    single_constructor: SingleConstructor::Copy(NomiddleIndex::new(vec![])),
                    dot_dotted_indices: Index5::new_with_middle(vec![Index4::new(
                        vec![],
                        MiddleIndices::new(1, 2),
                    )]),
                }]),
                dot_dotted_indices: Index5::empty(),
            },
        ]),
        dot_dotted_indices: Index5::new_with_middle(vec![Index4::new(vec![], MiddleIndices::new(0, 1))]),
    }]);

    let mut storage = Storage::new();
    let term = storage.read("((x0 z0a z0b y0) (x1 z1a z1b y1) (x2 z2a z2b y2))").unwrap();
    constructor.construct(&mut storage, term);
    let expected = storage
        .read("((y: y0 x: x0 z: (z0a z0b)) (y: y1 x: x1 z: (z1a z1b)) (y: y2 x: x2 z: (z2a z2b)))")
        .unwrap();
    assert!(storage.terms_are_equal(term, expected));
}

#[test]
fn construct4() {
    // (for x (a ((b x) ..)) -> (x ..))
    let constructor = SingleConstructor::Compound(vec![CompoundElement {
        single_constructor: SingleConstructor::Copy(NomiddleIndex::new(vec![Nomiddle::ZeroPlus(1)])),
        dot_dotted_indices: Index5::new_with_middle(vec![Index4::new(
            vec![Nomiddle::ZeroPlus(1)],
            MiddleIndices::new(0, 1),
        )]),
    }]);
    let mut storage = Storage::new();
    let term = storage.read("(a ((b 1) (b 2) (b 3) (b 4) (b 5)))").unwrap();
    constructor.construct(&mut storage, term);
    let expected = storage.read("(1 2 3 4 5)").unwrap();
    assert!(storage.terms_are_equal(term, expected));
}

#[test]
fn construct_symbol_replaces_term() {
    let constructor = SingleConstructor::Symbol("done".into());
    let mut storage = Storage::new();
    let term = storage.read("(a b)").unwrap();
    constructor.construct(&mut storage, term);
    let expected = storage.read("done").unwrap();
    assert!(storage.terms_are_equal(term, expected));
}

#[test]
fn construct_copy_of_a_part() {
    // (for x (a x) -> x)
    let constructor = SingleConstructor::Copy(NomiddleIndex::new(vec![Nomiddle::LenMinus(1)]));
    let mut storage = Storage::new();
    let term = storage.read("(a (b c))").unwrap();
    constructor.construct(&mut storage, term);
    let expected = storage.read("(b c)").unwrap();
    assert!(storage.terms_are_equal(term, expected));
}

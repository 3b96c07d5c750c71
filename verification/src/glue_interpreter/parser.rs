use vstd::prelude::*;

use crate::glue_interpreter::compound::Compound;
use crate::glue_interpreter::lexer::{
    is_symbol_char, lemma_tokens_concat, lemma_tokens_symbol, lemma_tokens_symbols_ok, lex, symbol_len, symbols_ok,
    tokens, Lexed, LexedView,
};
use crate::glue_interpreter::storage::{finite_depth, print_list, print_spec, Storage, StorageKey, Term, TermView};
use crate::glue_interpreter::symbol::Symbol;

verus! {

/// A term as written: a symbol, or a parenthesized list of terms.
pub enum SExpr {
    Atom(Seq<char>),
    List(Seq<SExpr>),
}

/// What one token does to the lists still open.
pub enum ParseStep {
    /// The lists still open afterwards.
    Continue(Seq<Seq<SExpr>>),
    /// The token completes the first term.
    Done(SExpr),
    /// A `)` with no list open.
    Fail,
}

/// `e` added at the end of the innermost open list; the first term when
/// none is open.
pub open spec fn add_item(stack: Seq<Seq<SExpr>>, e: SExpr) -> ParseStep {
    if stack.len() == 0 {
        ParseStep::Done(e)
    } else {
        ParseStep::Continue(stack.update(stack.len() - 1, stack.last().push(e)))
    }
}

/// The effect of the token `t` on the open lists `stack`.
pub open spec fn parse_step(stack: Seq<Seq<SExpr>>, t: LexedView) -> ParseStep {
    match t {
        LexedView::Left => ParseStep::Continue(stack.push(Seq::empty())),
        LexedView::Right => if stack.len() == 0 {
            ParseStep::Fail
        } else {
            add_item(stack.drop_last(), SExpr::List(stack.last()))
        },
        LexedView::Symbol(s) => add_item(stack, SExpr::Atom(s)),
    }
}

/// The first term of `toks` from position `i`, with `stack` open; `None`
/// where a `)` closes nothing or the tokens end first.
pub open spec fn parse_from(toks: Seq<LexedView>, i: nat, stack: Seq<Seq<SExpr>>) -> Option<SExpr>
    decreases toks.len() - i,
{
    if i >= toks.len() {
        None
    } else {
        match parse_step(stack, toks[i as int]) {
            ParseStep::Continue(st) => parse_from(toks, i + 1, st),
            ParseStep::Done(e) => Some(e),
            ParseStep::Fail => None,
        }
    }
}

/// The first complete term of `toks`; tokens after it are not read.
pub open spec fn parse_tokens(toks: Seq<LexedView>) -> Option<SExpr> {
    parse_from(toks, 0, Seq::empty())
}

/// The key `k` holds, in `terms`, the term `e`.
pub open spec fn holds_sexpr(terms: Map<u64, TermView>, k: u64, e: SExpr) -> bool
    decreases e,
{
    terms.contains_key(k) && match e {
        SExpr::Atom(s) => terms[k] == TermView::Symbol(s),
        SExpr::List(es) => match terms[k] {
            TermView::Compound(ks) => ks.len() == es.len() && forall|i: int|
                0 <= i < es.len() ==> holds_sexpr(terms, #[trigger] ks[i]@, es[i]),
            _ => false,
        },
    }
}

/// What a key holds stays so when terms are added.
pub proof fn lemma_holds_sexpr_grows(small: Map<u64, TermView>, big: Map<u64, TermView>, k: u64, e: SExpr)
    requires
        small.submap_of(big),
        holds_sexpr(small, k, e),
    ensures
        holds_sexpr(big, k, e),
    decreases e,
{
    assert(big.contains_key(k) && big[k] == small[k]);
    if let SExpr::List(es) = e {
        if let TermView::Compound(ks) = small[k] {
            assert forall|i: int| 0 <= i < es.len() implies holds_sexpr(big, #[trigger] ks[i]@, es[i]) by {
                lemma_holds_sexpr_grows(small, big, ks[i]@, es[i]);
            }
        }
    }
}

/// The views of the tokens.
pub open spec fn token_views(lexed: Seq<Lexed>) -> Seq<LexedView> {
    lexed.map_values(|l: Lexed| l@)
}

/// Reads the first complete term of the tokens into `storage`, each
/// symbol and list as a new term; `None` where a `)` closes nothing or the
/// tokens end before the term does.
fn parse_tokens_into(storage: &mut Storage, lexed: Vec<Lexed>) -> (r: Option<StorageKey>)
    requires
        old(storage).wf(),
        old(storage).has_room(lexed@.len()),
    ensures
        r is Some == parse_tokens(token_views(lexed@)) is Some,
        r matches Some(k) ==> holds_sexpr(final(storage).spec_terms(), k@, parse_tokens(token_views(lexed@))->0),
        final(storage).wf(),
        old(storage).spec_terms().submap_of(final(storage).spec_terms()),
        final(storage).spec_fixed() == old(storage).spec_fixed(),
        final(storage).spec_rules() == old(storage).spec_rules(),
{
    let ghost toks = token_views(lexed@);
    let ghost mut st: Seq<Seq<SExpr>> = Seq::empty();
    let ghost terms0 = storage.spec_terms();
    let mut stack: Vec<Vec<StorageKey>> = Vec::new();
    let n = lexed.len();
    let mut i: usize = 0;
    while i < n
        invariant
            n == toks.len(),
            i <= n,
            n == lexed@.len(),
            toks == token_views(lexed@),
            storage.wf(),
            storage.has_room((n - i) as nat),
            terms0.submap_of(storage.spec_terms()),
            terms0 == old(storage).spec_terms(),
            storage.spec_fixed() == old(storage).spec_fixed(),
            storage.spec_rules() == old(storage).spec_rules(),
            parse_from(toks, i as nat, st) == parse_tokens(toks),
            stack@.len() == st.len(),
            forall|j: int| 0 <= j < stack@.len() ==> (#[trigger] stack@[j])@.len() == st[j].len(),
            forall|j: int, m: int| 0 <= j < stack@.len() && 0 <= m < stack@[j]@.len() ==>
                holds_sexpr(storage.spec_terms(), #[trigger] stack@[j]@[m]@, st[j][m]),
        decreases n - i,
    {
        let ghost before = storage.spec_terms();
        let ghost mut item_e: SExpr = SExpr::List(Seq::empty());
        assert(lexed@[i as int]@ == toks[i as int]);
        let item: StorageKey = match &lexed[i] {
            Lexed::Left => {
                stack.push(Vec::new());
                proof {
                    st = st.push(Seq::empty());
                }
                i = i + 1;
                continue;
            },
            Lexed::Right => {
                if stack.len() == 0 {
                    return None;
                }
                let data = stack.pop().unwrap();
                let ghost items = st.last();
                let ghost data_v = data@;
                let key = storage.insert(Term::Compound(Compound::new(data)));
                proof {
                    let after = storage.spec_terms();
                    assert forall|m: int| 0 <= m < items.len() implies holds_sexpr(after, #[trigger] data_v[m]@, items[m]) by {
                        assert(holds_sexpr(before, data_v[m]@, items[m]));
                        lemma_holds_sexpr_grows(before, after, data_v[m]@, items[m]);
                    }
                    assert(holds_sexpr(after, key@, SExpr::List(items)));
                    st = st.drop_last();
                    item_e = SExpr::List(items);
                }
                key
            },
            Lexed::Symbol(s) => {
                let ghost sv = s@;
                let key = storage.insert(Term::Symbol(s.clone()));
                proof {
                    assert(holds_sexpr(storage.spec_terms(), key@, SExpr::Atom(sv)));
                    item_e = SExpr::Atom(sv);
                }
                key
            },
        };
        proof {
            let after = storage.spec_terms();
            assert forall|k: u64| #[trigger] terms0.contains_key(k) implies after.contains_key(k) && after[k] == terms0[k] by {
                assert(before.contains_key(k));
            }
            assert forall|j: int, m: int| 0 <= j < stack@.len() && 0 <= m < stack@[j]@.len() implies
                holds_sexpr(after, #[trigger] stack@[j]@[m]@, st[j][m]) by {
                lemma_holds_sexpr_grows(before, after, stack@[j]@[m]@, st[j][m]);
            }
        }
        if stack.len() == 0 {
            return Some(item);
        }
        let mut top = stack.pop().unwrap();
        top.push(item);
        stack.push(top);
        proof {
            st = st.update(st.len() - 1, st.last().push(item_e));
        }
        i = i + 1;
    }
    None
}

/// Reads the first complete term of the tokens into `storage`, each
/// symbol and list as a new term. The tokens must hold a complete term.
pub fn parse(storage: &mut Storage, lexed: Vec<Lexed>) -> (r: StorageKey)
    requires
        old(storage).wf(),
        old(storage).has_room(lexed@.len()),
        parse_tokens(token_views(lexed@)) is Some,
    ensures
        holds_sexpr(final(storage).spec_terms(), r@, parse_tokens(token_views(lexed@))->0),
        final(storage).wf(),
        old(storage).spec_terms().submap_of(final(storage).spec_terms()),
        final(storage).spec_fixed() == old(storage).spec_fixed(),
        final(storage).spec_rules() == old(storage).spec_rules(),
{
    parse_tokens_into(storage, lexed).unwrap()
}

/// A text has no more tokens than characters.
pub proof fn lemma_tokens_len(s: Seq<char>)
    ensures
        tokens(s).len() <= s.len(),
    decreases s.len(),
{
    if s.len() > 0 {
        if s[0] == ' ' || s[0] == '\n' || s[0] == '(' || s[0] == ')' {
            lemma_tokens_len(s.drop_first());
        } else {
            let n = symbol_len(s);
            if 0 < n <= s.len() {
                lemma_tokens_len(s.skip(n as int));
            }
        }
    }
}

/// The first complete term written in `input`, read into `storage`;
/// `None` where a `)` closes nothing or the text ends before the term does.
pub fn read(storage: &mut Storage, input: &str) -> (r: Option<StorageKey>)
    requires
        old(storage).wf(),
        old(storage).has_room(input@.len()),
    ensures
        r is Some == parse_tokens(tokens(input@)) is Some,
        r matches Some(k) ==> holds_sexpr(final(storage).spec_terms(), k@, parse_tokens(tokens(input@))->0),
        final(storage).wf(),
        old(storage).spec_terms().submap_of(final(storage).spec_terms()),
        final(storage).spec_fixed() == old(storage).spec_fixed(),
        final(storage).spec_rules() == old(storage).spec_rules(),
{
    let (_, lexed) = lex(input);
    proof {
        lemma_tokens_len(input@);
    }
    parse_tokens_into(storage, lexed)
}

impl Storage {
    /// The first complete term written in `input`, read into the store; see
    /// [`read`].
    pub fn read(&mut self, input: &str) -> (r: Option<StorageKey>)
        requires
            old(self).wf(),
            old(self).has_room(input@.len()),
        ensures
            r is Some == parse_tokens(tokens(input@)) is Some,
            r matches Some(k) ==> holds_sexpr(final(self).spec_terms(), k@, parse_tokens(tokens(input@))->0),
            final(self).wf(),
            old(self).spec_terms().submap_of(final(self).spec_terms()),
            final(self).spec_fixed() == old(self).spec_fixed(),
            final(self).spec_rules() == old(self).spec_rules(),
    {
        read(self, input)
    }
}


/// The tokens `e` is written with.
pub open spec fn sexpr_tokens(e: SExpr) -> Seq<LexedView>
    decreases e, 0nat,
{
    match e {
        SExpr::Atom(s) => seq![LexedView::Symbol(s)],
        SExpr::List(es) => seq![LexedView::Left] + list_tokens(es) + seq![LexedView::Right],
    }
}

/// The tokens the terms `es` are written with, one after the other.
pub open spec fn list_tokens(es: Seq<SExpr>) -> Seq<LexedView>
    decreases es, 0nat,
{
    if es.len() == 0 {
        Seq::empty()
    } else {
        sexpr_tokens(es[0]) + list_tokens(es.drop_first())
    }
}

/// Every symbol of `e` is a nonempty run of characters a symbol can have.
pub open spec fn atoms_ok(e: SExpr) -> bool
    decreases e,
{
    match e {
        SExpr::Atom(s) => s.len() > 0 && forall|i: int| 0 <= i < s.len() ==> is_symbol_char(#[trigger] s[i]),
        SExpr::List(es) => forall|i: int| 0 <= i < es.len() ==> atoms_ok(#[trigger] es[i]),
    }
}

/// Reading the tokens of `e` from position `i`: with no list open they give
/// `e`; otherwise `e` joins the innermost open list.
proof fn lemma_parse_sexpr(toks: Seq<LexedView>, i: int, st: Seq<Seq<SExpr>>, e: SExpr)
    requires
        0 <= i,
        i + sexpr_tokens(e).len() <= toks.len(),
        toks.subrange(i, i + sexpr_tokens(e).len()) == sexpr_tokens(e),
    ensures
        st.len() == 0 ==> parse_from(toks, i as nat, st) == Some(e),
        st.len() > 0 ==> parse_from(toks, i as nat, st) == parse_from(
            toks,
            (i + sexpr_tokens(e).len()) as nat,
            st.update(st.len() - 1, st.last().push(e)),
        ),
    decreases e, 0nat,
{
    let t = sexpr_tokens(e);
    let n: int = t.len() as int;
    assert(toks[i] == toks.subrange(i, i + n)[0]);
    match e {
        SExpr::Atom(s) => {
            assert(toks[i] == LexedView::Symbol(s));
        },
        SExpr::List(es) => {
            let lt = list_tokens(es);
            let m: int = lt.len() as int;
            assert(toks[i] == LexedView::Left);
            assert(toks.subrange(i + 1, i + 1 + m) =~= lt) by {
                assert forall|j: int| 0 <= j < m implies toks.subrange(i + 1, i + 1 + m)[j] == lt[j] by {
                    assert(toks.subrange(i, i + n)[j + 1] == t[j + 1]);
                }
            }
            lemma_parse_list(toks, i + 1, st, Seq::empty(), es);
            assert(Seq::<SExpr>::empty() + es =~= es);
            let j: int = i + 1 + m;
            assert(toks[j] == LexedView::Right) by {
                assert(toks.subrange(i, i + n)[1 + m] == t[1 + m]);
            }
            assert(st.push(es).drop_last() =~= st);
        },
    }
}

/// Reading the tokens of `es` from position `i` with the innermost open
/// list holding `acc` adds `es` to it.
proof fn lemma_parse_list(toks: Seq<LexedView>, i: int, base: Seq<Seq<SExpr>>, acc: Seq<SExpr>, es: Seq<SExpr>)
    requires
        0 <= i,
        i + list_tokens(es).len() <= toks.len(),
        toks.subrange(i, i + list_tokens(es).len()) == list_tokens(es),
    ensures
        parse_from(toks, i as nat, base.push(acc)) == parse_from(toks, (i + list_tokens(es).len()) as nat, base.push(acc + es)),
    decreases es, 0nat,
{
    if es.len() == 0 {
        assert(acc + es =~= acc);
    } else {
        let lt = list_tokens(es);
        let t0 = sexpr_tokens(es[0]);
        let rest = list_tokens(es.drop_first());
        let n0: int = t0.len() as int;
        let r: int = rest.len() as int;
        assert(lt == t0 + rest);
        assert(toks.subrange(i, i + n0) =~= t0) by {
            assert forall|j: int| 0 <= j < n0 implies toks.subrange(i, i + n0)[j] == t0[j] by {
                assert(toks.subrange(i, i + lt.len())[j] == lt[j]);
            }
        }
        lemma_parse_sexpr(toks, i, base.push(acc), es[0]);
        assert(base.push(acc).update(base.len() as int, acc.push(es[0])) =~= base.push(acc.push(es[0])));
        assert(toks.subrange(i + n0, i + n0 + r) =~= rest) by {
            assert forall|j: int| 0 <= j < r implies toks.subrange(i + n0, i + n0 + r)[j] == rest[j] by {
                assert(toks.subrange(i, i + lt.len())[n0 + j] == lt[n0 + j]);
            }
        }
        lemma_parse_list(toks, i + n0, base, acc.push(es[0]), es.drop_first());
        assert(acc.push(es[0]) + es.drop_first() =~= acc + es);
    }
}

/// The tokens of a term printed in plain syntax are those it is written
/// with.
proof fn lemma_print_tokens(
    terms: Map<u64, TermView>,
    k: u64,
    e: SExpr,
    d: nat,
    labels: Map<u64, usize>,
    labeled: Set<u64>,
)
    requires
        holds_sexpr(terms, k, e),
        atoms_ok(e),
        finite_depth(terms, k, d),
    ensures
        tokens(print_spec(terms, k, d, labels, labeled, false).0) == sexpr_tokens(e),
    decreases d, 0nat,
{
    let text = print_spec(terms, k, d, labels, labeled, false).0;
    match e {
        SExpr::Atom(s) => {
            assert(text =~= s);
            lemma_tokens_symbol(s);
        },
        SExpr::List(es) => {
            let ks = terms[k]->Compound_0;
            if ks.len() == 0 {
                assert(text =~= seq!['('] + seq![')']);
                lemma_tokens_concat(seq!['('], seq![')']);
                assert(list_tokens(es) =~= Seq::<LexedView>::empty());
                assert(tokens(seq![')'].drop_first()) =~= Seq::<LexedView>::empty());
                assert(tokens(seq!['('].drop_first()) =~= Seq::<LexedView>::empty());
                assert(sexpr_tokens(e) =~= seq![LexedView::Left] + seq![LexedView::Right]);
            } else {
                let body = print_list(terms, ks, (d - 1) as nat, labels, labeled, false).0;
                assert forall|i: int| 0 <= i < ks.len() implies finite_depth(terms, #[trigger] ks[i]@, (d - 1) as nat) by {}
                lemma_print_list_tokens(terms, ks, es, (d - 1) as nat, labels, labeled);
                assert(text =~= seq!['('] + body + seq![')']);
                lemma_tokens_concat(seq!['('], body);
                lemma_tokens_concat(seq!['('] + body, seq![')']);
                assert(tokens(seq![')'].drop_first()) =~= Seq::<LexedView>::empty());
                assert(tokens(seq!['('].drop_first()) =~= Seq::<LexedView>::empty());
                assert(tokens(seq![')']) =~= seq![LexedView::Right]);
                assert(tokens(seq!['(']) =~= seq![LexedView::Left]);
            }
        },
    }
}

/// The tokens of terms printed in plain syntax, separated by spaces, are
/// those they are written with, one after the other.
proof fn lemma_print_list_tokens(
    terms: Map<u64, TermView>,
    ks: Seq<StorageKey>,
    es: Seq<SExpr>,
    d: nat,
    labels: Map<u64, usize>,
    labeled: Set<u64>,
)
    requires
        ks.len() == es.len(),
        ks.len() > 0,
        forall|i: int| 0 <= i < ks.len() ==> holds_sexpr(terms, #[trigger] ks[i]@, es[i]),
        forall|i: int| 0 <= i < es.len() ==> atoms_ok(#[trigger] es[i]),
        forall|i: int| 0 <= i < ks.len() ==> finite_depth(terms, #[trigger] ks[i]@, d),
    ensures
        tokens(print_list(terms, ks, d, labels, labeled, false).0) == list_tokens(es),
    decreases d, ks.len() + 1,
{
    let (a, l1) = print_spec(terms, ks[0]@, d, labels, labeled, false);
    assert(holds_sexpr(terms, ks[0]@, es[0]));
    assert(atoms_ok(es[0]));
    lemma_print_tokens(terms, ks[0]@, es[0], d, labels, labeled);
    if ks.len() == 1 {
        assert(es.drop_first() =~= Seq::<SExpr>::empty());
        assert(list_tokens(es.drop_first()) =~= Seq::<LexedView>::empty());
        assert(list_tokens(es) =~= sexpr_tokens(es[0]) + Seq::<LexedView>::empty());
    } else {
        let b = print_list(terms, ks.drop_first(), d, labels, l1, false).0;
        assert forall|i: int| 0 <= i < ks.drop_first().len() implies holds_sexpr(terms, #[trigger] ks.drop_first()[i]@, es.drop_first()[i]) by {
            assert(holds_sexpr(terms, ks[i + 1]@, es[i + 1]));
        }
        assert forall|i: int| 0 <= i < es.drop_first().len() implies atoms_ok(#[trigger] es.drop_first()[i]) by {
            assert(atoms_ok(es[i + 1]));
        }
        assert forall|i: int| 0 <= i < ks.drop_first().len() implies finite_depth(terms, #[trigger] ks.drop_first()[i]@, d) by {
            assert(finite_depth(terms, ks[i + 1]@, d));
        }
        lemma_print_list_tokens(terms, ks.drop_first(), es.drop_first(), d, labels, l1);
        lemma_tokens_concat(a, seq![' ']);
        lemma_tokens_concat(a + seq![' '], b);
        assert(tokens(seq![' '].drop_first()) =~= Seq::<LexedView>::empty());
        assert(tokens(seq![' ']) =~= Seq::<LexedView>::empty());
        assert(print_list(terms, ks, d, labels, labeled, false).0 =~= a + seq![' '] + b);
    }
}

/// A term whose symbols are all nonempty runs of characters a symbol can
/// have, printed in plain syntax as `Storage::println` does, reads back as
/// the same term: the tokens of the printed text parse to what the key
/// holds.
pub proof fn lemma_print_then_read(
    terms: Map<u64, TermView>,
    k: u64,
    e: SExpr,
    d: nat,
    labels: Map<u64, usize>,
    labeled: Set<u64>,
)
    requires
        holds_sexpr(terms, k, e),
        atoms_ok(e),
        finite_depth(terms, k, d),
    ensures
        parse_tokens(tokens(print_spec(terms, k, d, labels, labeled, false).0.push('\n'))) == Some(e),
{
    let text = print_spec(terms, k, d, labels, labeled, false).0;
    lemma_print_tokens(terms, k, e, d, labels, labeled);
    lemma_tokens_concat(text, seq!['\n']);
    assert(text.push('\n') =~= text + seq!['\n']);
    assert(tokens(seq!['\n'].drop_first()) =~= Seq::<LexedView>::empty());
    assert(tokens(seq!['\n']) =~= Seq::<LexedView>::empty());
    let toks = sexpr_tokens(e);
    assert(tokens(text.push('\n')) =~= toks);
    assert(toks.subrange(0, toks.len() as int) =~= toks);
    lemma_parse_sexpr(toks, 0, Seq::empty(), e);
}


/// Every term in the open lists has well-formed symbols.
pub open spec fn stack_atoms_ok(stack: Seq<Seq<SExpr>>) -> bool {
    forall|j: int, m: int| 0 <= j < stack.len() && 0 <= m < stack[j].len() ==> atoms_ok(#[trigger] stack[j][m])
}

/// From tokens whose symbols are well formed, the parser reads a term whose
/// symbols are well formed.
proof fn lemma_parse_atoms_ok(toks: Seq<LexedView>, i: nat, stack: Seq<Seq<SExpr>>)
    requires
        symbols_ok(toks),
        stack_atoms_ok(stack),
    ensures
        parse_from(toks, i, stack) matches Some(e) ==> atoms_ok(e),
    decreases toks.len() - i,
{
    if i < toks.len() {
        let t = toks[i as int];
        match t {
            LexedView::Left => {
                let st = stack.push(Seq::empty());
                assert forall|j: int, m: int| 0 <= j < st.len() && 0 <= m < st[j].len() implies atoms_ok(#[trigger] st[j][m]) by {
                    assert(st[j] == stack[j]);
                }
                lemma_parse_atoms_ok(toks, i + 1, st);
            },
            LexedView::Right => {
                if stack.len() > 0 {
                    let l = stack.last();
                    assert forall|m: int| 0 <= m < l.len() implies atoms_ok(#[trigger] l[m]) by {
                        assert(stack[stack.len() - 1][m] == l[m]);
                    }
                    lemma_add_item_ok(stack.drop_last(), SExpr::List(l), toks, i);
                }
            },
            LexedView::Symbol(x) => {
                assert(toks[i as int] == t);
                lemma_add_item_ok(stack, SExpr::Atom(x), toks, i);
            },
        }
    }
}

proof fn lemma_add_item_ok(stack: Seq<Seq<SExpr>>, e: SExpr, toks: Seq<LexedView>, i: nat)
    requires
        symbols_ok(toks),
        i < toks.len(),
        forall|j: int, m: int| 0 <= j < stack.len() && 0 <= m < stack[j].len() ==> atoms_ok(#[trigger] stack[j][m]),
        atoms_ok(e),
    ensures
        match add_item(stack, e) {
            ParseStep::Done(e2) => atoms_ok(e2),
            ParseStep::Continue(st) => parse_from(toks, i + 1, st) matches Some(e3) ==> atoms_ok(e3),
            ParseStep::Fail => true,
        },
    decreases toks.len() - i, 0nat,
{
    if stack.len() > 0 {
        let st = stack.update(stack.len() - 1, stack.last().push(e));
        assert forall|j: int, m: int| 0 <= j < st.len() && 0 <= m < st[j].len() implies atoms_ok(#[trigger] st[j][m]) by {
            if j < stack.len() - 1 {
                assert(st[j] == stack[j]);
            } else if m < stack.last().len() {
                assert(st[j][m] == stack[j][m]);
            }
        }
        lemma_parse_atoms_ok(toks, i + 1, st);
    }
}

/// Whatever term a text reads as, written out again in plain syntax as
/// `Storage::println` writes it, reads as the same term.
pub proof fn lemma_read_print_read(
    input: Seq<char>,
    terms: Map<u64, TermView>,
    k: u64,
    d: nat,
    labels: Map<u64, usize>,
    labeled: Set<u64>,
)
    requires
        parse_tokens(tokens(input)) is Some,
        holds_sexpr(terms, k, parse_tokens(tokens(input))->0),
        finite_depth(terms, k, d),
    ensures
        parse_tokens(tokens(print_spec(terms, k, d, labels, labeled, false).0.push('\n'))) == parse_tokens(tokens(input)),
{
    lemma_tokens_symbols_ok(input);
    assert(stack_atoms_ok(Seq::<Seq<SExpr>>::empty()));
    lemma_parse_atoms_ok(tokens(input), 0, Seq::empty());
    lemma_print_then_read(terms, k, parse_tokens(tokens(input))->0, d, labels, labeled);
}

} // verus!

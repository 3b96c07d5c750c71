use vstd::prelude::*;
use vstd::string::StrSliceExecFns;

use crate::glue_interpreter::symbol::Symbol;

verus! {

/// A token of the term syntax.
#[derive(Hash, PartialEq, Eq, Debug)]
pub enum Lexed {
    Left,
    Right,
    Symbol(Symbol),
}

/// What a token is, with a symbol by its characters.
pub enum LexedView {
    Left,
    Right,
    Symbol(Seq<char>),
}

impl View for Lexed {
    type V = LexedView;

    open spec fn view(&self) -> LexedView {
        match self {
            Lexed::Left => LexedView::Left,
            Lexed::Right => LexedView::Right,
            Lexed::Symbol(s) => LexedView::Symbol(s@),
        }
    }
}

/// A character that separates tokens and is not part of one.
pub open spec fn is_space(c: char) -> bool {
    c == ' ' || c == '\n'
}

/// A character that can be part of a symbol.
pub open spec fn is_symbol_char(c: char) -> bool {
    c != '(' && c != ')' && !is_space(c)
}

/// How many characters at the start of `s` can be part of a symbol.
pub open spec fn symbol_len(s: Seq<char>) -> nat
    decreases s.len(),
{
    if s.len() > 0 && is_symbol_char(s[0]) {
        1 + symbol_len(s.drop_first())
    } else {
        0
    }
}

/// The tokens of `s`: spaces and newlines separate them, parentheses are
/// tokens of their own, and every longest run of other characters is a
/// symbol.
pub open spec fn tokens(s: Seq<char>) -> Seq<LexedView>
    decreases s.len(),
{
    if s.len() == 0 {
        Seq::empty()
    } else if is_space(s[0]) {
        tokens(s.drop_first())
    } else if s[0] == '(' {
        seq![LexedView::Left] + tokens(s.drop_first())
    } else if s[0] == ')' {
        seq![LexedView::Right] + tokens(s.drop_first())
    } else {
        let n = symbol_len(s);
        if 0 < n <= s.len() {
            seq![LexedView::Symbol(s.take(n as int))] + tokens(s.skip(n as int))
        } else {
            Seq::empty()
        }
    }
}

/// Where the spaces and newlines that end `s` begin.
pub open spec fn trailing_space_start(s: Seq<char>) -> nat
    decreases s.len(),
{
    if s.len() > 0 && is_space(s.last()) {
        trailing_space_start(s.drop_last())
    } else {
        s.len()
    }
}

/// A run of symbol characters from `i` to `j`, ended by `j`, is the symbol
/// the tokens of `s.skip(i)` start with.
proof fn lemma_symbol_len_at(s: Seq<char>, i: int, j: int)
    requires
        0 <= i < j <= s.len(),
        forall|m: int| i <= m < j ==> is_symbol_char(#[trigger] s[m]),
        j == s.len() || !is_symbol_char(s[j]),
    ensures
        symbol_len(s.skip(i)) == j - i,
    decreases j - i,
{
    assert(s.skip(i)[0] == s[i]);
    assert(is_symbol_char(s[i]));
    if i + 1 < j {
        lemma_symbol_len_at(s, i + 1, j);
        assert(s.skip(i).drop_first() =~= s.skip(i + 1));
    } else {
        assert(s.skip(i).drop_first() =~= s.skip(i + 1));
        if j < s.len() {
            assert(s.skip(i + 1)[0] == s[j]);
        } else {
            assert(s.skip(i + 1).len() == 0);
        }
        assert(symbol_len(s.skip(i + 1)) == 0);
    }
}

/// Where the trailing spaces of `s` begin: past the last other character.
proof fn lemma_trailing_space_start(s: Seq<char>, j: int)
    requires
        0 <= j <= s.len(),
        j == 0 || !is_space(s[j - 1]),
        forall|i: int| j <= i < s.len() ==> is_space(#[trigger] s[i]),
    ensures
        trailing_space_start(s) == j,
    decreases s.len(),
{
    if s.len() > j {
        assert(is_space(s.last()));
        assert forall|i: int| j <= i < s.drop_last().len() implies is_space(#[trigger] s.drop_last()[i]) by {
            assert(s.drop_last()[i] == s[i]);
        }
        if j > 0 {
            assert(s.drop_last()[j - 1] == s[j - 1]);
        }
        lemma_trailing_space_start(s.drop_last(), j);
    }
}

/// No symbol runs across the end of `a` into `b`.
pub open spec fn splits_tokens(a: Seq<char>, b: Seq<char>) -> bool {
    a.len() == 0 || b.len() == 0 || !is_symbol_char(a.last()) || !is_symbol_char(b[0])
}

proof fn lemma_symbol_len_bounded(s: Seq<char>)
    ensures
        symbol_len(s) <= s.len(),
        forall|m: int| 0 <= m < symbol_len(s) ==> is_symbol_char(#[trigger] s[m]),
        symbol_len(s) < s.len() ==> !is_symbol_char(s[symbol_len(s) as int]),
    decreases s.len(),
{
    if s.len() > 0 && is_symbol_char(s[0]) {
        lemma_symbol_len_bounded(s.drop_first());
        assert forall|m: int| 0 <= m < symbol_len(s) implies is_symbol_char(#[trigger] s[m]) by {
            if m > 0 {
                assert(s[m] == s.drop_first()[m - 1]);
            }
        }
        if symbol_len(s) < s.len() {
            assert(s[symbol_len(s) as int] == s.drop_first()[symbol_len(s.drop_first()) as int]);
        }
    }
}

proof fn lemma_symbol_len_concat(a: Seq<char>, b: Seq<char>)
    requires
        splits_tokens(a, b),
        a.len() > 0,
    ensures
        symbol_len(a + b) == symbol_len(a),
    decreases a.len(),
{
    let ab = a + b;
    assert(ab[0] == a[0]);
    if is_symbol_char(a[0]) {
        assert(ab.drop_first() =~= a.drop_first() + b);
        assert(symbol_len(ab) == 1 + symbol_len(ab.drop_first()));
        assert(symbol_len(a) == 1 + symbol_len(a.drop_first()));
        if a.len() > 1 {
            assert(a.drop_first().last() == a.last());
            lemma_symbol_len_concat(a.drop_first(), b);
        } else {
            assert(a.drop_first() =~= Seq::<char>::empty());
            assert(a.drop_first() + b =~= b);
            assert(symbol_len(a.drop_first()) == 0);
            if b.len() > 0 {
                assert(a.last() == a[0]);
                assert(!is_symbol_char(b[0]));
            }
            assert(symbol_len(b) == 0);
        }
    }
}

/// Where no symbol runs across the boundary, the tokens of two texts put
/// together are the tokens of each, one after the other.
pub proof fn lemma_tokens_concat(a: Seq<char>, b: Seq<char>)
    requires
        splits_tokens(a, b),
    ensures
        tokens(a + b) == tokens(a) + tokens(b),
    decreases a.len(),
{
    let ab = a + b;
    if a.len() == 0 {
        assert(ab =~= b);
        assert(tokens(a) =~= Seq::<LexedView>::empty());
        assert(tokens(a) + tokens(b) =~= tokens(b));
    } else {
        assert(ab[0] == a[0]);
        assert(ab.drop_first() =~= a.drop_first() + b);
        if a.len() > 1 {
            assert(a.drop_first().last() == a.last());
        }
        if is_space(a[0]) || a[0] == '(' || a[0] == ')' {
            lemma_tokens_concat(a.drop_first(), b);
            if !is_space(a[0]) {
                assert(tokens(ab) =~= tokens(a) + tokens(b));
            }
        } else {
            lemma_symbol_len_concat(a, b);
            lemma_symbol_len_bounded(a);
            let n = symbol_len(a);
            assert(ab.take(n as int) =~= a.take(n as int));
            assert(ab.skip(n as int) =~= a.skip(n as int) + b);
            if a.skip(n as int).len() > 0 {
                assert(a.skip(n as int).last() == a.last());
            }
            lemma_tokens_concat(a.skip(n as int), b);
            assert(tokens(ab) =~= tokens(a) + tokens(b));
        }
    }
}

/// A nonempty run of symbol characters is one symbol.
pub proof fn lemma_tokens_symbol(s: Seq<char>)
    requires
        s.len() > 0,
        forall|i: int| 0 <= i < s.len() ==> is_symbol_char(#[trigger] s[i]),
    ensures
        tokens(s) == seq![LexedView::Symbol(s)],
{
    lemma_symbol_len_at(s, 0, s.len() as int);
    assert(s.skip(0) =~= s);
    assert(is_symbol_char(s[0]));
    assert(symbol_len(s) == s.len());
    assert(tokens(s.skip(s.len() as int)) =~= Seq::<LexedView>::empty());
    assert(s.take(s.len() as int) =~= s);
    assert(s.skip(s.len() as int) =~= Seq::<char>::empty());
    assert(tokens(s) =~= seq![LexedView::Symbol(s)]);
}

/// Every symbol token is a nonempty run of characters a symbol can have.
pub open spec fn symbols_ok(toks: Seq<LexedView>) -> bool {
    forall|i: int| 0 <= i < toks.len() ==> (#[trigger] toks[i] matches LexedView::Symbol(x) ==> {
        &&& x.len() > 0
        &&& forall|j: int| 0 <= j < x.len() ==> is_symbol_char(#[trigger] x[j])
    })
}

/// The symbols the lexer makes are nonempty runs of symbol characters.
pub proof fn lemma_tokens_symbols_ok(s: Seq<char>)
    ensures
        symbols_ok(tokens(s)),
    decreases s.len(),
{
    if s.len() > 0 {
        if is_space(s[0]) || s[0] == '(' || s[0] == ')' {
            lemma_tokens_symbols_ok(s.drop_first());
            let t = tokens(s);
            let rest = tokens(s.drop_first());
            if !is_space(s[0]) {
                assert forall|i: int| 0 <= i < t.len() implies (#[trigger] t[i] matches LexedView::Symbol(x) ==> {
                    &&& x.len() > 0
                    &&& forall|j: int| 0 <= j < x.len() ==> is_symbol_char(#[trigger] x[j])
                }) by {
                    if i > 0 {
                        assert(t[i] == rest[i - 1]);
                    }
                }
            }
        } else {
            lemma_symbol_len_bounded(s);
            let n = symbol_len(s);
            if 0 < n <= s.len() {
                lemma_tokens_symbols_ok(s.skip(n as int));
                let t = tokens(s);
                let rest = tokens(s.skip(n as int));
                assert forall|i: int| 0 <= i < t.len() implies (#[trigger] t[i] matches LexedView::Symbol(x) ==> {
                    &&& x.len() > 0
                    &&& forall|j: int| 0 <= j < x.len() ==> is_symbol_char(#[trigger] x[j])
                }) by {
                    if i > 0 {
                        assert(t[i] == rest[i - 1]);
                    } else {
                        assert(t[0] == LexedView::Symbol(s.take(n as int)));
                        assert forall|j: int| 0 <= j < n implies is_symbol_char(#[trigger] s.take(n as int)[j]) by {
                            assert(s.take(n as int)[j] == s[j]);
                        }
                    }
                }
            }
        }
    }
}

/// Splits `input` into tokens. Returns the spaces and newlines that end the
/// input, which no token follows, and the tokens.
pub fn lex(input: &str) -> (r: (&str, Vec<Lexed>))
    ensures
        r.0@ == input@.skip(trailing_space_start(input@) as int),
        r.1@.map_values(|l: Lexed| l@) == tokens(input@),
{
    let ghost s = input@;
    let n = input.unicode_len();
    let mut out: Vec<Lexed> = Vec::new();
    let mut i: usize = 0;
    let mut end_of_last: usize = 0;
    assert(s.skip(0) =~= s);
    while i < n
        invariant
            n == s.len(),
            s == input@,
            i <= n,
            end_of_last <= i,
            end_of_last == 0 || !is_space(s[end_of_last - 1]),
            forall|m: int| end_of_last <= m < i ==> is_space(#[trigger] s[m]),
            out@.map_values(|l: Lexed| l@) + tokens(s.skip(i as int)) == tokens(s),
        decreases n - i,
    {
        let c = input.get_char(i);
        let ghost rest = s.skip(i as int);
        assert(rest[0] == c);
        assert(rest.drop_first() =~= s.skip(i + 1));
        let ghost before = out@.map_values(|l: Lexed| l@);
        if c == ' ' || c == '\n' {
            i = i + 1;
        } else if c == '(' {
            out.push(Lexed::Left);
            assert(out@.map_values(|l: Lexed| l@) =~= before.push(LexedView::Left));
            assert(before.push(LexedView::Left) + tokens(s.skip(i + 1)) =~= before + (seq![LexedView::Left] + tokens(s.skip(i + 1))));
            i = i + 1;
            end_of_last = i;
        } else if c == ')' {
            out.push(Lexed::Right);
            assert(out@.map_values(|l: Lexed| l@) =~= before.push(LexedView::Right));
            assert(before.push(LexedView::Right) + tokens(s.skip(i + 1)) =~= before + (seq![LexedView::Right] + tokens(s.skip(i + 1))));
            i = i + 1;
            end_of_last = i;
        } else {
            let start = i;
            i = i + 1;
            while i < n
                invariant
                    n == s.len(),
                    s == input@,
                    start < i <= n,
                    forall|m: int| start <= m < i ==> is_symbol_char(#[trigger] s[m]),
                ensures
                    start < i <= n,
                    forall|m: int| start <= m < i ==> is_symbol_char(#[trigger] s[m]),
                    i == n || !is_symbol_char(s[i as int]),
                decreases n - i,
            {
                let d = input.get_char(i);
                if d == ' ' || d == '\n' || d == '(' || d == ')' {
                    break;
                }
                i = i + 1;
            }
            let text = input.substring_char(start, i);
            let sym = Symbol::new(text.to_owned());
            proof {
                lemma_symbol_len_at(s, start as int, i as int);
                assert(rest.take(i - start) =~= text@);
                assert(rest.skip(i - start) =~= s.skip(i as int));
            }
            out.push(Lexed::Symbol(sym));
            let ghost tok = LexedView::Symbol(text@);
            assert(out@.map_values(|l: Lexed| l@) =~= before.push(tok));
            assert(before.push(tok) + tokens(s.skip(i as int)) =~= before + (seq![tok] + tokens(s.skip(i as int))));
            end_of_last = i;
        }
    }
    proof {
        assert(s.skip(n as int).len() == 0);
        assert(out@.map_values(|l: Lexed| l@) + Seq::<LexedView>::empty() =~= out@.map_values(|l: Lexed| l@));
        lemma_trailing_space_start(s, end_of_last as int);
    }
    let rest = input.substring_char(end_of_last, n);
    (rest, out)
}

} // verus!

use vstd::prelude::*;

use crate::glue_interpreter::compound::Compound;
use crate::glue_interpreter::lang0::expr::{values_of, ConstantExpr, Expr, Index, Var};
use crate::glue_interpreter::lang0::stmt::Stmt;
use crate::glue_interpreter::storage::{
    closed_terms, index_path, lemma_index_path_grows, Storage, StorageKey, Term, TermView,
};

verus! {

/// What an entry of the key stack stands for: a key that was held before
/// the program ran, or a compound that the program built of other entries.
pub enum Val {
    Key(u64),
    Built(Seq<Val>),
}

/// The state of a run: the next statement, the variables and the stack.
pub struct RunState {
    pub ip: nat,
    pub vars: Seq<usize>,
    pub stack: Seq<Val>,
}

/// The state a run starts in.
pub open spec fn initial_state() -> RunState {
    RunState { ip: 0, vars: Seq::empty(), stack: Seq::empty() }
}

/// `vars`, grown with zeros to at least `n` entries.
pub open spec fn extend_vars(vars: Seq<usize>, n: int) -> Seq<usize> {
    let len: int = if vars.len() >= n { vars.len() as int } else { n };
    Seq::new(len as nat, |i: int| if i < vars.len() { vars[i] } else { 0usize })
}

/// One statement run on `s`, with `terms` the terms held when the run
/// began and `src` the source term; `None` where the statement fails.
pub open spec fn step(stmts: Seq<Stmt>, terms: Map<u64, TermView>, src: u64, s: RunState) -> Option<RunState> {
    let next = (s.ip + 1) as nat;
    match stmts[s.ip as int] {
        Stmt::Assign { lhs, rhs } => {
            let vars = extend_vars(s.vars, lhs.0 + 1);
            if lhs.0 < usize::MAX && rhs.ok(terms, src, vars) {
                Some(RunState { ip: next, vars: vars.update(lhs.0 as int, rhs.value(terms, src, vars)), stack: s.stack })
            } else {
                None
            }
        },
        Stmt::Sym(k) => if terms.contains_key(k@) {
            Some(RunState { ip: next, vars: s.vars, stack: s.stack.push(Val::Key(k@)) })
        } else {
            None
        },
        Stmt::Copy(index) => if index.ok(s.vars) && index.target(terms, src, s.vars) is Some {
            let t = index.target(terms, src, s.vars)->0;
            Some(RunState { ip: next, vars: s.vars, stack: s.stack.push(Val::Key(t)) })
        } else {
            None
        },
        Stmt::Build { length } => if length.ok(s.vars) && length.value(s.vars) <= s.stack.len() {
            let lo = s.stack.len() - length.value(s.vars);
            let items = s.stack.subrange(lo, s.stack.len() as int);
            Some(RunState { ip: next, vars: s.vars, stack: s.stack.subrange(0, lo).push(Val::Built(items)) })
        } else {
            None
        },
        Stmt::Jump { jump_to, when_var, le_var } => if when_var.ok(s.vars) && le_var.ok(s.vars) {
            let ip = if when_var.value(s.vars) < le_var.value(s.vars) { jump_to.0 as nat } else { next };
            Some(RunState { ip, vars: s.vars, stack: s.stack })
        } else {
            None
        },
        Stmt::UnconditionalJump(label) => Some(RunState { ip: label.0 as nat, vars: s.vars, stack: s.stack }),
    }
}

/// The state in which a run from `s` stops, past the last statement,
/// within `fuel` statements; `None` where a statement fails or the fuel
/// runs out first.
pub open spec fn run(stmts: Seq<Stmt>, terms: Map<u64, TermView>, src: u64, s: RunState, fuel: nat) -> Option<RunState>
    decreases fuel,
{
    if s.ip >= stmts.len() {
        Some(s)
    } else if fuel == 0 {
        None
    } else {
        match step(stmts, terms, src, s) {
            Some(s2) => run(stmts, terms, src, s2, (fuel - 1) as nat),
            None => None,
        }
    }
}

/// The key `k` stands, in `terms`, for what `v` says.
pub open spec fn denotes(terms: Map<u64, TermView>, k: u64, v: Val) -> bool
    decreases v,
{
    match v {
        Val::Key(k2) => k == k2,
        Val::Built(items) => terms.contains_key(k) && match terms[k] {
            TermView::Compound(ks) => ks.len() == items.len() && forall|i: int|
                0 <= i < items.len() ==> denotes(terms, #[trigger] ks[i]@, items[i]),
            _ => false,
        },
    }
}

/// What a key stands for stays true when terms are added.
pub proof fn lemma_denotes_grows(small: Map<u64, TermView>, big: Map<u64, TermView>, k: u64, v: Val)
    requires
        small.submap_of(big),
        denotes(small, k, v),
    ensures
        denotes(big, k, v),
    decreases v,
{
    if let Val::Built(items) = v {
        assert(big.contains_key(k) && big[k] == small[k]);
        if let TermView::Compound(ks) = small[k] {
            assert forall|i: int| 0 <= i < items.len() implies denotes(big, #[trigger] ks[i]@, items[i]) by {
                lemma_denotes_grows(small, big, ks[i]@, items[i]);
            }
        }
    }
}

/// A run that stops within `fuel` statements stops in the same state with
/// more fuel.
pub proof fn lemma_run_more_fuel(
    stmts: Seq<Stmt>,
    terms: Map<u64, TermView>,
    src: u64,
    s: RunState,
    fuel: nat,
    more: nat,
)
    requires
        run(stmts, terms, src, s, fuel) is Some,
        fuel <= more,
    ensures
        run(stmts, terms, src, s, more) == run(stmts, terms, src, s, fuel),
    decreases fuel,
{
    if s.ip < stmts.len() {
        let s2 = step(stmts, terms, src, s)->0;
        lemma_run_more_fuel(stmts, terms, src, s2, (fuel - 1) as nat, (more - 1) as nat);
    }
}

/// Runs are deterministic: two amounts of fuel within which a run stops
/// give the same final state.
pub proof fn lemma_run_deterministic(
    stmts: Seq<Stmt>,
    terms: Map<u64, TermView>,
    src: u64,
    s: RunState,
    n1: nat,
    n2: nat,
)
    requires
        run(stmts, terms, src, s, n1) is Some,
        run(stmts, terms, src, s, n2) is Some,
    ensures
        run(stmts, terms, src, s, n1) == run(stmts, terms, src, s, n2),
{
    if n1 <= n2 {
        lemma_run_more_fuel(stmts, terms, src, s, n1, n2);
    } else {
        lemma_run_more_fuel(stmts, terms, src, s, n2, n1);
    }
}

/// An expression evaluates on a grown store as it did before.
proof fn lemma_expr_grows(e: Expr, small: Map<u64, TermView>, big: Map<u64, TermView>, src: u64, vars: Seq<usize>)
    requires
        small.submap_of(big),
        closed_terms(small),
        small.contains_key(src),
        e.ok(small, src, vars),
    ensures
        e.ok(big, src, vars),
        e.value(big, src, vars) == e.value(small, src, vars),
{
    if let Expr::Len(index) = e {
        let p = values_of(index.spec_elements(), vars);
        lemma_index_path_grows(small, big, src, p);
        let t = index_path(small, src, p)->0;
        assert(small.contains_key(t));
        assert(big.contains_key(t));
        assert(big[t] == small[t]);
    }
}

/// A program of the stack language.
#[derive(Debug)]
pub struct Ast {
    stmts: Vec<Stmt>,
}

impl Ast {
    /// The statements, in order.
    pub closed spec fn spec_stmts(&self) -> Seq<Stmt> {
        self.stmts@
    }

    /// Run on the source term `src` among `terms`, the program stops within
    /// `n` statements with one key on the stack.
    pub open spec fn halts_within(&self, terms: Map<u64, TermView>, src: u64, n: nat) -> bool {
        run(self.spec_stmts(), terms, src, initial_state(), n) matches Some(f) && f.stack.len() == 1
    }

    /// What the one key on the stack stands for when the run stops within
    /// `n` statements.
    pub open spec fn result_within(&self, terms: Map<u64, TermView>, src: u64, n: nat) -> Val {
        run(self.spec_stmts(), terms, src, initial_state(), n)->0.stack[0]
    }

    /// The program made of `stmts`.
    pub fn new(stmts: Vec<Stmt>) -> (r: Self)
        ensures
            r.spec_stmts() == stmts@,
    {
        Self { stmts }
    }

    /// Runs the program on the term at `src`, building new compounds in
    /// `storage`, and returns the one key left on the stack.
    pub fn interpret(&self, storage: &mut Storage, src: StorageKey) -> (r: StorageKey)
        requires
            old(storage).wf(),
            old(storage).holds(src),
            exists|n: nat| #[trigger] self.halts_within(old(storage).spec_terms(), src@, n) && old(storage).has_room(n),
        ensures
            ({
                let terms = old(storage).spec_terms();
                let n = choose|n: nat| #[trigger] self.halts_within(terms, src@, n) && old(storage).has_room(n);
                denotes(final(storage).spec_terms(), r@, self.result_within(terms, src@, n))
            }),
            final(storage).wf(),
            final(storage).holds(r),
            old(storage).spec_terms().submap_of(final(storage).spec_terms()),
            final(storage).spec_fixed() == old(storage).spec_fixed(),
            final(storage).spec_rules() == old(storage).spec_rules(),
    {
        let ghost terms = storage.spec_terms();
        let ghost stmts = self.stmts@;
        let ghost n = choose|n: nat| #[trigger] self.halts_within(terms, src@, n) && old(storage).has_room(n);
        let ghost mut st = initial_state();
        let ghost mut fuel: nat = n;
        let mut instruction_pointer: usize = 0;
        let mut variables: Vec<usize> = Vec::new();
        let mut key_stack: Vec<StorageKey> = Vec::new();

        while instruction_pointer < self.stmts.len()
            invariant
                stmts == self.stmts@,
                storage.wf(),
                terms.submap_of(storage.spec_terms()),
                closed_terms(terms),
                terms.contains_key(src@),
                storage.has_room(fuel),
                storage.spec_fixed() == old(storage).spec_fixed(),
                storage.spec_rules() == old(storage).spec_rules(),
                run(stmts, terms, src@, st, fuel) == run(stmts, terms, src@, initial_state(), n),
                run(stmts, terms, src@, initial_state(), n) matches Some(f) && f.stack.len() == 1,
                instruction_pointer == st.ip,
                variables@ == st.vars,
                key_stack@.len() == st.stack.len(),
                forall|i: int| 0 <= i < key_stack@.len() ==> storage.holds(#[trigger] key_stack@[i]),
                forall|i: int| 0 <= i < key_stack@.len() ==> denotes(storage.spec_terms(), #[trigger] key_stack@[i]@, st.stack[i]),
            decreases fuel,
        {
            let ghost s2 = step(stmts, terms, src@, st)->0;
            assert(fuel > 0 && step(stmts, terms, src@, st) is Some);
            let ghost before = storage.spec_terms();
            match &self.stmts[instruction_pointer] {
                Stmt::Assign { lhs, rhs } => {
                    let ghost ext = extend_vars(st.vars, lhs.0 + 1);
                    while variables.len() <= lhs.0
                        invariant
                            lhs.0 < usize::MAX,
                            ext == extend_vars(st.vars, lhs.0 + 1),
                            st.vars.len() <= variables@.len() <= ext.len(),
                            variables@.len() <= lhs.0 + 1 || variables@.len() == st.vars.len(),
                            forall|i: int| 0 <= i < variables@.len() ==> #[trigger] variables@[i] == ext[i],
                        decreases lhs.0 + 1 - variables@.len(),
                    {
                        variables.push(0);
                    }
                    assert(variables@ =~= ext);
                    proof {
                        lemma_expr_grows(*rhs, terms, storage.spec_terms(), src@, ext);
                    }
                    let v = rhs.eval(&variables, storage, src);
                    variables.set(lhs.0, v);
                    instruction_pointer += 1;
                },
                Stmt::Sym(s) => {
                    key_stack.push(*s);
                    instruction_pointer += 1;
                },
                Stmt::Copy(c) => {
                    proof {
                        lemma_index_path_grows(terms, storage.spec_terms(), src@, values_of(c.spec_elements(), st.vars));
                    }
                    let k = c.eval(&variables, storage, src);
                    key_stack.push(k);
                    instruction_pointer += 1;
                },
                Stmt::Build { length } => {
                    let length = length.eval(&variables);
                    let lower_bound = key_stack.len() - length;
                    let data = key_stack.split_off(lower_bound);
                    let ghost items = st.stack.subrange(lower_bound as int, st.stack.len() as int);
                    let ghost data_v = data@;
                    let key = storage.insert(Term::Compound(Compound::new(data)));
                    proof {
                        let after = storage.spec_terms();
                        assert(before.submap_of(after));
                        assert forall|k: u64| #[trigger] terms.contains_key(k) implies after.contains_key(k) && after[k] == terms[k] by {
                            assert(before.contains_key(k));
                        }
                        assert forall|i: int| 0 <= i < key_stack@.len() implies denotes(after, #[trigger] key_stack@[i]@, st.stack[i]) by {
                            lemma_denotes_grows(before, after, key_stack@[i]@, st.stack[i]);
                        }
                        assert forall|i: int| 0 <= i < items.len() implies denotes(after, #[trigger] data_v[i]@, items[i]) by {
                            lemma_denotes_grows(before, after, data_v[i]@, items[i]);
                        }
                        assert(denotes(after, key@, Val::Built(items)));
                    }
                    key_stack.push(key);
                    instruction_pointer += 1;
                },
                Stmt::Jump { jump_to, when_var, le_var } => {
                    if when_var.eval(&variables) < le_var.eval(&variables) {
                        instruction_pointer = jump_to.0;
                    } else {
                        instruction_pointer += 1;
                    }
                },
                Stmt::UnconditionalJump(label) => {
                    instruction_pointer = label.0;
                },
            }
            proof {
                st = s2;
                fuel = (fuel - 1) as nat;
            }
        }
        key_stack.pop().unwrap()
    }
}

} // verus!

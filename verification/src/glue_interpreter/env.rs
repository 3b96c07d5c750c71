use vstd::prelude::*;

use crate::glue_interpreter::rule::Rule;

verus! {

/// The rules in effect, in the order they were added.
#[derive(PartialEq, Eq, Debug)]
pub struct Env {
    rules: Vec<Rule>,
}

impl View for Env {
    type V = Seq<Rule>;

    open spec fn view(&self) -> Seq<Rule> {
        self.spec_rules()@
    }
}

impl Env {
    pub closed spec fn spec_rules(&self) -> Vec<Rule> {
        self.rules
    }

    pub fn new(rules: Vec<Rule>) -> (r: Self)
        ensures
            r@ == rules@,
    {
        Self { rules }
    }

    pub fn add_rule(&mut self, rule: Rule)
        ensures
            final(self)@ == old(self)@.push(rule),
    {
        self.rules.push(rule);
    }

    pub fn rules(&self) -> (r: &[Rule])
        ensures
            r@ == self@,
    {
        self.rules.as_slice()
    }
}

/// The environments at each call: `envs[0]` is the one made with
/// [`Env::new`], and each call of [`Env::add_rule`] with the next of
/// `added` gives the next of `envs` (its contract says it pushes its rule).
/// Then, after any number of such calls, the rules are those the
/// environment was made with followed by the added ones in the order they
/// were added.
pub proof fn lemma_rules_after_adds(envs: Seq<Env>, added: Seq<Rule>)
    requires
        envs.len() == added.len() + 1,
        forall|i: int| 0 <= i < added.len() ==> #[trigger] envs[i + 1]@ == envs[i]@.push(added[i]),
    ensures
        envs.last()@ == envs[0]@ + added,
    decreases added.len(),
{
    if added.len() == 0 {
        assert(envs[0]@ + added =~= envs[0]@);
    } else {
        let n = added.len() - 1;
        let front = envs.drop_last();
        assert forall|i: int| 0 <= i < added.drop_last().len() implies #[trigger] front[i + 1]@ == front[i]@.push(added.drop_last()[i]) by {
            assert(envs[i + 1]@ == envs[i]@.push(added[i]));
        }
        lemma_rules_after_adds(front, added.drop_last());
        assert(envs[n + 1]@ == envs[n]@.push(added[n]));
        assert(front.last() == envs[n]);
        assert((envs[0]@ + added.drop_last()).push(added[n]) =~= envs[0]@ + added);
    }
}

impl Clone for Env {
    fn clone(&self) -> (r: Self)
        ensures
            r@ == self@,
    {
        let mut rules: Vec<Rule> = Vec::new();
        let mut i: usize = 0;
        while i < self.rules.len()
            invariant
                i <= self.rules@.len(),
                rules@ == self.rules@.subrange(0, i as int),
            decreases self.rules@.len() - i,
        {
            rules.push(self.rules[i]);
            i = i + 1;
        }
        Env { rules }
    }
}

} // verus!

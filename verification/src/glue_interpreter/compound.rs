use vstd::prelude::*;

use crate::glue_interpreter::storage::StorageKey;

verus! {

/// A term made of a sequence of other terms, each given by its key.
#[derive(Hash, Debug)]
pub struct Compound {
    data: Vec<StorageKey>,
}

impl View for Compound {
    type V = Seq<StorageKey>;

    open spec fn view(&self) -> Seq<StorageKey> {
        self.spec_data()@
    }
}

impl Compound {
    pub closed spec fn spec_data(&self) -> Vec<StorageKey> {
        self.data
    }

    pub fn new(data: Vec<StorageKey>) -> (r: Self)
        ensures
            r@ == data@,
    {
        Self { data }
    }

    pub fn keys(&self) -> (r: &[StorageKey])
        ensures
            r@ == self@,
    {
        self.data.as_slice()
    }
}

impl Clone for Compound {
    fn clone(&self) -> (r: Self)
        ensures
            r@ == self@,
    {
        let mut data: Vec<StorageKey> = Vec::new();
        let mut i: usize = 0;
        while i < self.data.len()
            invariant
                i <= self.data@.len(),
                data@ == self.data@.subrange(0, i as int),
            decreases self.data@.len() - i,
        {
            data.push(self.data[i]);
            i = i + 1;
        }
        Compound { data }
    }
}

} // verus!

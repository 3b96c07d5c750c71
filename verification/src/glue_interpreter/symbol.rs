use vstd::prelude::*;

verus! {

/// An atom of a term: a name made of characters.
#[derive(PartialEq, Eq, Hash, Debug)]
pub struct Symbol {
    data: String,
}

impl View for Symbol {
    type V = Seq<char>;

    open spec fn view(&self) -> Seq<char> {
        self.spec_data()@
    }
}

impl Symbol {
    pub closed spec fn spec_data(&self) -> String {
        self.data
    }

    pub fn new(data: String) -> (r: Self)
        ensures
            r.spec_data() == data,
            r@ == data@,
    {
        Self { data }
    }

    pub fn data(&self) -> (r: &String)
        ensures
            *r == self.spec_data(),
            r@ == self@,
    {
        &self.data
    }
}

impl Clone for Symbol {
    fn clone(&self) -> (r: Self)
        ensures
            r@ == self@,
    {
        Symbol { data: self.data.clone() }
    }
}

} // verus!

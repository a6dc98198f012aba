use vstd::prelude::*;

verus! {

/// The context through which states act on a target. It keeps a journal of
/// the effects performed, in order, by the name of the state that performed
/// each one.
#[derive(Debug)]
pub struct Executor {
    journal: Vec<String>,
}

impl View for Executor {
    type V = Seq<Seq<char>>;

    closed spec fn view(&self) -> Seq<Seq<char>> {
        self.journal@.map_values(|s: String| s@)
    }
}

impl Executor {
    pub fn new() -> (r: Executor)
        ensures
            r@ == Seq::<Seq<char>>::empty(),
    {
        let r = Executor { journal: Vec::new() };
        assert(r@ =~= Seq::<Seq<char>>::empty());
        r
    }

    /// Records that the state `name` acted on the target.
    pub fn record(&mut self, name: String)
        ensures
            final(self)@ == old(self)@.push(name@),
    {
        self.journal.push(name);
        assert(final(self)@ =~= old(self)@.push(name@));
    }

    /// Number of effects recorded so far.
    pub fn len(&self) -> (r: usize)
        ensures
            r == self@.len(),
    {
        self.journal.len()
    }

    /// Name of the state that performed the `i`-th recorded effect.
    pub fn entry(&self, i: usize) -> (r: &str)
        requires
            i < self@.len(),
        ensures
            r@ == self@[i as int],
    {
        self.journal[i].as_str()
    }
}

} // verus!

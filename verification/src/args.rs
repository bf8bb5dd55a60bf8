use vstd::prelude::*;

verus! {

/// The positional parameters of a shell function or script.
#[derive(Clone)]
pub struct Arguments {
    args: Vec<String>,
}

impl Arguments {
    /// The parameters as a sequence of character sequences.
    pub closed spec fn params(&self) -> Seq<Seq<char>> {
        self.args@.map_values(|a: String| a@)
    }

    /// An empty list of positional parameters.
    pub fn new() -> (res: Arguments)
        ensures
            res.params() == Seq::<Seq<char>>::empty(),
    {
        let res = Arguments { args: Vec::new() };
        assert(res.params() =~= Seq::<Seq<char>>::empty());
        res
    }

    /// Positional parameters taken from a vector of strings.
    pub fn from_vec(args: Vec<String>) -> (res: Arguments)
        ensures
            res.params() == args@.map_values(|a: String| a@),
    {
        Arguments { args }
    }

    /// The number of positional parameters.
    pub fn len(&self) -> (res: usize)
        ensures
            res == self.params().len(),
    {
        self.args.len()
    }

    /// The positional parameters, in order.
    pub fn args(&self) -> (res: &Vec<String>)
        ensures
            res@.map_values(|a: String| a@) == self.params(),
    {
        &self.args
    }
}

} // verus!

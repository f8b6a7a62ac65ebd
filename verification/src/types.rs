use vstd::prelude::*;

verus! {

/// A player's position at the table, 1-based.
///
/// Zero is not a valid seat; `Seat::new` rejects it at the boundary.
#[derive(Debug, Clone, Copy, PartialEq, Eq, Hash, Structural)]
pub struct Seat(pub usize);

impl Seat {
    /// Creates a new seat with 1-based indexing; zero is excluded.
    pub fn new(seat: usize) -> (s: Seat)
        requires
            seat > 0,
        ensures
            s.0 == seat,
    {
        Seat(seat)
    }

    /// Returns the 1-based seat number.
    pub fn value(&self) -> (v: usize)
        ensures
            v == self.0,
    {
        self.0
    }

    /// Returns the 0-based index for internal use.
    pub fn index(&self) -> (i: usize)
        requires
            self.0 > 0,
        ensures
            i == self.0 - 1,
    {
        self.0 - 1
    }
}

/// The kind of a turn-taking action.
#[derive(Debug, Clone, Copy, PartialEq, Eq, Structural)]
pub enum ActionType {
    Fold,
    Check,
    Call,
    Bet,
    Raise,
    ReRaise,
    AllIn,
    /// Represents "starting hand" or an explicit reset.
    Reset,
}

/// An action taken by a player.
#[derive(Debug, Clone, PartialEq, Eq, Structural)]
pub struct Action {
    pub seat: Seat,
    pub action_type: ActionType,
    pub amount: u64,
}

impl Action {
    pub fn new(seat: Seat, action_type: ActionType, amount: u64) -> (a: Action)
        ensures
            a.seat == seat,
            a.action_type == action_type,
            a.amount == amount,
    {
        Action { seat, action_type, amount }
    }
}

/// An Artin generator of the braid group.
///
/// `Sigma(i)` is the overcrossing at position `i`; `InverseSigma(i)` is the
/// undercrossing at the same position. The two are mutual inverses.
#[derive(Debug, Clone, Copy, PartialEq, Eq, Hash, Structural)]
pub enum Generator {
    Sigma(usize),
    InverseSigma(usize),
}

impl Generator {
    /// The 1-based index of the generator.
    pub open spec fn index_spec(&self) -> usize {
        match self {
            Generator::Sigma(i) => *i,
            Generator::InverseSigma(i) => *i,
        }
    }

    /// Returns the index of the generator (1-based).
    pub fn index(&self) -> (i: usize)
        ensures
            i == self.index_spec(),
    {
        match self {
            Generator::Sigma(i) => *i,
            Generator::InverseSigma(i) => *i,
        }
    }

    /// Returns true if this is an overcrossing.
    pub fn is_overcrossing(&self) -> (r: bool)
        ensures
            r == (self is Sigma),
    {
        matches!(self, Generator::Sigma(_))
    }

    /// Returns true if this is an undercrossing.
    pub fn is_undercrossing(&self) -> (r: bool)
        ensures
            r == (self is InverseSigma),
    {
        matches!(self, Generator::InverseSigma(_))
    }
}

/// A braid word: an ordered sequence of generators.
#[derive(Debug, Clone)]
pub struct BraidWord {
    generators: Vec<Generator>,
}

impl View for BraidWord {
    type V = Seq<Generator>;

    closed spec fn view(&self) -> Seq<Generator> {
        self.generators@
    }
}

impl BraidWord {
    /// Creates a new empty braid word.
    pub fn new() -> (w: BraidWord)
        ensures
            w@ == Seq::<Generator>::empty(),
    {
        BraidWord { generators: Vec::new() }
    }

    /// Creates a braid word from a vector of generators.
    pub fn from_generators(generators: Vec<Generator>) -> (w: BraidWord)
        ensures
            w@ == generators@,
    {
        BraidWord { generators }
    }

    /// Appends a generator to the braid word.
    pub fn push(&mut self, gen: Generator)
        ensures
            final(self)@ == old(self)@.push(gen),
    {
        self.generators.push(gen);
    }

    /// Extends the braid word with the generators of another braid word.
    pub fn extend(&mut self, other: &BraidWord)
        ensures
            final(self)@ == old(self)@ + other@,
    {
        self.generators.extend_from_slice(other.generators.as_slice());
        proof {
            assert(self@ =~= old(self)@ + other@);
        }
    }

    /// Returns the generators in order.
    pub fn iter(&self) -> (v: &Vec<Generator>)
        ensures
            v@ == self@,
    {
        &self.generators
    }

    /// Returns the number of generators in the braid word.
    pub fn len(&self) -> (n: usize)
        ensures
            n == self@.len(),
    {
        self.generators.len()
    }

    /// Returns true if the braid word is empty.
    pub fn is_empty(&self) -> (r: bool)
        ensures
            r == (self@.len() == 0),
    {
        self.generators.is_empty()
    }

    /// Replaces the generators of this braid word; used by normalization.
    pub(crate) fn replace_generators(&mut self, generators: Vec<Generator>)
        ensures
            final(self)@ == generators@,
    {
        self.generators = generators;
    }
}

impl Default for BraidWord {
    fn default() -> (w: BraidWord)
        ensures
            w@ == Seq::<Generator>::empty(),
    {
        BraidWord::new()
    }
}

} // verus!

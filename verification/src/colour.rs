use vstd::prelude::*;

verus! {

/// The fur colour of an avatar. `Any` is the sentinel for "no colour asked
/// for"; every other variant names one colour directory of the catalog.
#[derive(PartialEq, Eq, Structural, Clone, Copy, Debug)]
pub enum Colour {
    Any,
    Blue,
    Brown,
    Green,
    Grey,
    Orange,
    Pink,
    Purple,
    Red,
    White,
    Yellow,
}

impl Colour {
    /// The catalog path segment of a colour. `Any` has none.
    pub open spec fn segment(self) -> Option<Seq<char>> {
        match self {
            Colour::Any => None,
            Colour::Blue => Some("blue"@),
            Colour::Brown => Some("brown"@),
            Colour::Green => Some("green"@),
            Colour::Grey => Some("grey"@),
            Colour::Orange => Some("orange"@),
            Colour::Pink => Some("pink"@),
            Colour::Purple => Some("purple"@),
            Colour::Red => Some("red"@),
            Colour::White => Some("white"@),
            Colour::Yellow => Some("yellow"@),
        }
    }

    /// The colours a derived choice is made from: every variant but `Any`,
    /// in declaration order.
    pub open spec fn candidates() -> Seq<Colour> {
        seq![
            Colour::Blue,
            Colour::Brown,
            Colour::Green,
            Colour::Grey,
            Colour::Orange,
            Colour::Pink,
            Colour::Purple,
            Colour::Red,
            Colour::White,
            Colour::Yellow,
        ]
    }

    /// No candidate is `Any`, and every colour but `Any` is a candidate.
    pub proof fn candidates_are_the_concrete_colours()
        ensures
            Colour::candidates().len() == 10,
            forall|i: int|
                0 <= i < Colour::candidates().len() ==> Colour::candidates()[i] != Colour::Any,
            forall|c: Colour| c != Colour::Any ==> Colour::candidates().contains(c),
    {
        let all = Colour::candidates();
        assert forall|c: Colour| c != Colour::Any implies all.contains(c) by {
            match c {
                Colour::Any => {},
                Colour::Blue => assert(all[0] == c),
                Colour::Brown => assert(all[1] == c),
                Colour::Green => assert(all[2] == c),
                Colour::Grey => assert(all[3] == c),
                Colour::Orange => assert(all[4] == c),
                Colour::Pink => assert(all[5] == c),
                Colour::Purple => assert(all[6] == c),
                Colour::Red => assert(all[7] == c),
                Colour::White => assert(all[8] == c),
                Colour::Yellow => assert(all[9] == c),
            }
        }
    }

    pub fn as_str(&self) -> (name: Option<&'static str>)
        ensures
            match name {
                Some(s) => self.segment() == Some(s@),
                None => self.segment() is None,
            },
    {
        match self {
            Colour::Any => None,
            Colour::Blue => Some("blue"),
            Colour::Brown => Some("brown"),
            Colour::Green => Some("green"),
            Colour::Grey => Some("grey"),
            Colour::Orange => Some("orange"),
            Colour::Pink => Some("pink"),
            Colour::Purple => Some("purple"),
            Colour::Red => Some("red"),
            Colour::White => Some("white"),
            Colour::Yellow => Some("yellow"),
        }
    }

    /// The candidate colours as a vector, in the order of `candidates`.
    pub fn all_candidates() -> (list: Vec<Colour>)
        ensures
            list@ == Colour::candidates(),
    {
        let list = vec![
            Colour::Blue,
            Colour::Brown,
            Colour::Green,
            Colour::Grey,
            Colour::Orange,
            Colour::Pink,
            Colour::Purple,
            Colour::Red,
            Colour::White,
            Colour::Yellow,
        ];
        assert(list@ =~= Colour::candidates());
        list
    }
}

} // verus!

use vstd::prelude::*;

verus! {

/// The style family of an avatar. `Default` leaves the choice to the digest;
/// every other variant pins one set directory of the catalog.
#[derive(PartialEq, Eq, Structural, Clone, Copy, Debug)]
pub enum SetType {
    Default,
    Set1,
    Set2,
    Set3,
    Set4,
    Set5,
}

impl SetType {
    /// The catalog path segment of a set. `Default` shares the segment of
    /// the base set.
    pub open spec fn segment(self) -> Seq<char> {
        match self {
            SetType::Default => "set1"@,
            SetType::Set1 => "set1"@,
            SetType::Set2 => "set2"@,
            SetType::Set3 => "set3"@,
            SetType::Set4 => "set4"@,
            SetType::Set5 => "set5"@,
        }
    }

    /// Whether the assets of a set are kept once per colour. Only the base
    /// set is.
    pub open spec fn colour_bearing(self) -> bool {
        self == SetType::Default || self == SetType::Set1
    }

    /// The sets a derived choice is made from: every variant but `Default`,
    /// in declaration order.
    pub open spec fn candidates() -> Seq<SetType> {
        seq![SetType::Set1, SetType::Set2, SetType::Set3, SetType::Set4, SetType::Set5]
    }

    pub fn as_str(&self) -> (name: &'static str)
        ensures
            name@ == self.segment(),
    {
        match self {
            SetType::Default => "set1",
            SetType::Set1 => "set1",
            SetType::Set2 => "set2",
            SetType::Set3 => "set3",
            SetType::Set4 => "set4",
            SetType::Set5 => "set5",
        }
    }

    pub fn is_colour_bearing(&self) -> (yes: bool)
        ensures
            yes == self.colour_bearing(),
    {
        match self {
            SetType::Default => true,
            SetType::Set1 => true,
            _ => false,
        }
    }

    /// The candidate sets as a vector, in the order of `candidates`.
    pub fn all_candidates() -> (list: Vec<SetType>)
        ensures
            list@ == SetType::candidates(),
    {
        let list = vec![SetType::Set1, SetType::Set2, SetType::Set3, SetType::Set4, SetType::Set5];
        assert(list@ =~= SetType::candidates());
        list
    }
}

} // verus!

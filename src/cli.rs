//! The arguments of one changelog run.
use vstd::prelude::*;

verus! {

/// What the arguments of a run hold.
pub struct ArgsView {
    pub range: Seq<char>,
    pub description: Option<Seq<char>>,
}

/// A revision range, and an optional description to put under the header.
#[derive(Debug)]
pub struct Args {
    range: String,
    description: Option<String>,
}

pub open spec fn opt_text(o: Option<String>) -> Option<Seq<char>> {
    match o {
        Some(s) => Some(s@),
        None => None,
    }
}

impl View for Args {
    type V = ArgsView;

    closed spec fn view(&self) -> ArgsView {
        ArgsView { range: self.range@, description: opt_text(self.description) }
    }
}

impl ArgsView {
    /// The description, or empty text where none was given.
    pub open spec fn description_or_empty(self) -> Seq<char> {
        match self.description {
            Some(d) => d,
            None => Seq::empty(),
        }
    }
}

impl Args {
    pub fn new(range: String, description: Option<String>) -> (r: Args)
        ensures
            r@ == (ArgsView { range: range@, description: opt_text(description) }),
    {
        Args { range, description }
    }

    pub fn range(&self) -> (r: &str)
        ensures
            r@ == self@.range,
    {
        self.range.as_str()
    }

    pub fn description(&self) -> (r: Option<&String>)
        ensures
            r is None <==> self@.description is None,
            r matches Some(d) ==> self@.description == Some(d@),
    {
        match &self.description {
            Some(d) => Some(d),
            None => None,
        }
    }

    /// The description, or empty text where none was given.
    pub fn description_text(&self) -> (r: &str)
        ensures
            r@ == self@.description_or_empty(),
    {
        match &self.description {
            Some(d) => d.as_str(),
            None => {
                proof {
                    reveal_strlit("");
                }
                ""
            },
        }
    }
}

} // verus!

use vstd::prelude::*;

verus! {

/// What can go wrong, by the component that reports it.
#[derive(Debug)]
pub enum Error {
    /// A transport failure: sending, receiving, a size limit, the pool's capacity.
    Net(String),
    /// A protection stage refused the data.
    Guard(String),
    /// The operation is not allowed in the current mode.
    State(String),
    /// A store failed.
    Store(String),
    /// The system underneath failed.
    System(String),
}

impl Error {
    /// The words that introduce an error of this kind when it is shown.
    pub open spec fn heading(self) -> Seq<char> {
        match self {
            Error::Net(_) => "Network error: "@,
            Error::Guard(_) => "Guard error: "@,
            Error::State(_) => "State error: "@,
            Error::Store(_) => "Store error: "@,
            Error::System(_) => "System error: "@,
        }
    }

    /// The detail that the error carries.
    pub open spec fn detail(self) -> Seq<char> {
        match self {
            Error::Net(m) => m@,
            Error::Guard(m) => m@,
            Error::State(m) => m@,
            Error::Store(m) => m@,
            Error::System(m) => m@,
        }
    }

    /// The error as a line of text: its heading, then its detail.
    pub fn to_string(&self) -> (text: String)
        ensures
            text@ == self.heading() + self.detail(),
    {
        match self {
            Error::Net(m) => "Network error: ".to_string().concat(m.as_str()),
            Error::Guard(m) => "Guard error: ".to_string().concat(m.as_str()),
            Error::State(m) => "State error: ".to_string().concat(m.as_str()),
            Error::Store(m) => "Store error: ".to_string().concat(m.as_str()),
            Error::System(m) => "System error: ".to_string().concat(m.as_str()),
        }
    }
}

} // verus!

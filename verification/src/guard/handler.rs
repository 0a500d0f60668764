use vstd::prelude::*;
use crate::base::error::Error;
use crate::base::link::{Guardable, Handler};
use crate::guard::auth::Auth;
use crate::guard::check::Check;
use crate::guard::crypt::Crypt;

verus! {

impl Handler for Auth {
    /// As a stage of a chain, the signing stage signs: what comes out is
    /// the signature and then the data.
    open spec fn handles(&self, data: Seq<u8>, out: Result<Seq<u8>, Error>) -> bool {
        self.protects(data, out)
    }

    fn handle(&self, data: &[u8]) -> (out: Result<Vec<u8>, Error>) {
        self.protect(data)
    }
}

impl Handler for Crypt {
    /// As a stage of a chain, the encryption stage encrypts.
    open spec fn handles(&self, data: Seq<u8>, out: Result<Seq<u8>, Error>) -> bool {
        self.protects(data, out)
    }

    fn handle(&self, data: &[u8]) -> (out: Result<Vec<u8>, Error>) {
        self.protect(data)
    }
}

impl<F: Fn(&[u8]) -> bool + Send + Sync> Handler for Check<F> {
    /// As a stage of a chain, the validation stage holds the data against
    /// its rules: the data passes unchanged where every rule accepts it, and
    /// is refused where one does not.
    open spec fn handles(&self, data: Seq<u8>, out: Result<Seq<u8>, Error>) -> bool {
        self.checks(data, out)
    }

    fn handle(&self, data: &[u8]) -> (out: Result<Vec<u8>, Error>)
        ensures
            self.checks(data@, crate::base::link::outcome(out)),
    {
        self.validate(data)
    }
}

} // verus!

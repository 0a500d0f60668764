use vstd::prelude::*;
use crate::base::error::Error;
use crate::base::link::Guardable;

verus! {

/// Whether `rule` can answer `verdict` on `data`.
pub open spec fn answers<F: Fn(&[u8]) -> bool>(rule: F, data: Seq<u8>, verdict: bool) -> bool {
    exists|bytes: &[u8]| bytes@ == data && #[trigger] call_ensures(rule, (bytes,), verdict)
}

/// Whether every rule of `rules` can accept `data`.
pub open spec fn accepted<F: Fn(&[u8]) -> bool>(rules: Seq<F>, data: Seq<u8>) -> bool {
    forall|i: int| 0 <= i < rules.len() ==> answers(#[trigger] rules[i], data, true)
}

/// Whether some rule of `rules` can refuse `data`.
pub open spec fn refused<F: Fn(&[u8]) -> bool>(rules: Seq<F>, data: Seq<u8>) -> bool {
    exists|i: int| 0 <= i < rules.len() && answers(#[trigger] rules[i], data, false)
}

/// Whether every rule of `rules` has one answer on `data`, whenever it is
/// asked.
pub open spec fn decided<F: Fn(&[u8]) -> bool>(rules: Seq<F>, data: Seq<u8>) -> bool {
    forall|i: int|
        0 <= i < rules.len() ==> !(answers(#[trigger] rules[i], data, true) && answers(
            rules[i],
            data,
            false,
        ))
}

/// The validation stage: a list of rules that the data must meet. The data
/// itself passes unchanged.
pub struct Check<F: Fn(&[u8]) -> bool> {
    rules: Vec<F>,
}

impl<F: Fn(&[u8]) -> bool> Check<F> {
    #[verifier::type_invariant]
    spec fn callable(&self) -> bool {
        forall|i: int, bytes: &[u8]|
            0 <= i < self.rules@.len() ==> #[trigger] call_requires(self.rules@[i], (bytes,))
    }

    /// The rules, in the order in which they were added.
    pub closed spec fn rules(&self) -> Seq<F> {
        self.rules@
    }

    /// A validation stage without rules: it accepts all data.
    pub fn new() -> (check: Self)
        ensures
            check.rules() == Seq::<F>::empty(),
    {
        Check { rules: Vec::new() }
    }

    /// Adds `rule` as the last rule. The rule must take every byte sequence.
    pub fn add_rule(&mut self, rule: F)
        requires
            forall|bytes: &[u8]| call_requires(rule, (bytes,)),
        ensures
            final(self).rules() == old(self).rules().push(rule),
    {
        proof {
            use_type_invariant(&*self);
        }
        let mut rules: Vec<F> = Vec::new();
        std::mem::swap(&mut rules, &mut self.rules);
        rules.push(rule);
        std::mem::swap(&mut rules, &mut self.rules);
    }

    /// Asks the rules about `data`, in their order, until one refuses. The
    /// data is accepted when none did.
    fn verify(&self, data: &[u8]) -> (passed: bool)
        ensures
            passed ==> accepted(self.rules(), data@),
            !passed ==> refused(self.rules(), data@),
    {
        proof {
            use_type_invariant(self);
        }
        let mut i: usize = 0;
        while i < self.rules.len()
            invariant
                i <= self.rules@.len(),
                forall|j: int, bytes: &[u8]|
                    0 <= j < self.rules@.len() ==> #[trigger] call_requires(
                        self.rules@[j],
                        (bytes,),
                    ),
                forall|j: int| 0 <= j < i ==> answers(#[trigger] self.rules@[j], data@, true),
            decreases self.rules@.len() - i,
        {
            let verdict = (self.rules[i])(data);
            assert(answers(self.rules@[i as int], data@, verdict));
            if !verdict {
                return false;
            }
            i += 1;
        }
        true
    }

    /// What `protect` and `expose` may both give for `data`: the data itself
    /// where every rule accepted it, a refusal where one refused.
    pub open spec fn checks(&self, data: Seq<u8>, out: Result<Seq<u8>, Error>) -> bool {
        match out {
            Ok(bytes) => bytes == data && accepted(self.rules(), data),
            Err(e) => {
                &&& refused(self.rules(), data)
                &&& e matches Error::Guard(m)
                &&& m@ == "data validation failed"@
            },
        }
    }
}

impl<F: Fn(&[u8]) -> bool> Check<F> {
    /// Holds `data` against the rules: the data itself where every rule
    /// accepted it, a refusal where one refused.
    pub fn validate(&self, data: &[u8]) -> (out: Result<Vec<u8>, Error>)
        ensures
            self.checks(data@, crate::base::link::outcome(out)),
    {
        if !self.verify(data) {
            return Err(Error::Guard("data validation failed".to_string()));
        }
        Ok(vstd::slice::slice_to_vec(data))
    }
}

impl<F: Fn(&[u8]) -> bool> Guardable for Check<F> {
    /// `protect` gives the data itself where every rule accepted it, and a
    /// refusal where one refused.
    open spec fn protects(&self, data: Seq<u8>, out: Result<Seq<u8>, Error>) -> bool {
        self.checks(data, out)
    }

    /// `expose` asks the same rules of the same data as `protect`.
    open spec fn exposes(&self, data: Seq<u8>, out: Result<Seq<u8>, Error>) -> bool {
        self.checks(data, out)
    }

    fn protect(&self, data: &[u8]) -> (out: Result<Vec<u8>, Error>)
        ensures
            self.checks(data@, crate::base::link::outcome(out)),
    {
        self.validate(data)
    }

    fn expose(&self, data: &[u8]) -> (out: Result<Vec<u8>, Error>)
        ensures
            self.checks(data@, crate::base::link::outcome(out)),
    {
        self.validate(data)
    }
}

/// With rules that have one answer each, the stage succeeds on `data` if and
/// only if every rule accepts it, and then with the data unchanged. This
/// holds of `protect` and of `expose` alike, so the two agree on which data
/// they accept.
pub proof fn lemma_check_accepts_iff_all_rules_hold<F: Fn(&[u8]) -> bool>(
    check: Check<F>,
    data: Seq<u8>,
    protected: Result<Seq<u8>, Error>,
    exposed: Result<Seq<u8>, Error>,
)
    requires
        decided(check.rules(), data),
        check.protects(data, protected),
        check.exposes(data, exposed),
    ensures
        protected is Ok <==> accepted(check.rules(), data),
        exposed is Ok <==> accepted(check.rules(), data),
        protected is Ok <==> exposed is Ok,
        protected is Ok ==> protected == Ok::<Seq<u8>, Error>(data) && exposed == protected,
{
    if refused(check.rules(), data) {
        let i = choose|i: int|
            0 <= i < check.rules().len() && answers(#[trigger] check.rules()[i], data, false);
        assert(!answers(check.rules()[i], data, true));
    }
}

/// What was protected comes back: where the rules have one answer each,
/// `expose` of what `protect` gave for `data` succeeds with `data`.
pub proof fn lemma_check_round_trip<F: Fn(&[u8]) -> bool>(
    check: Check<F>,
    data: Seq<u8>,
    protected: Seq<u8>,
    out: Result<Seq<u8>, Error>,
)
    requires
        check.protects(data, Ok(protected)),
        decided(check.rules(), protected),
        check.exposes(protected, out),
    ensures
        protected == data,
        out == Ok::<Seq<u8>, Error>(data),
{
    lemma_check_accepts_iff_all_rules_hold(check, data, Ok(protected), out);
}

/// A stage without rules accepts all data.
pub proof fn lemma_check_without_rules<F: Fn(&[u8]) -> bool>(
    check: Check<F>,
    data: Seq<u8>,
    out: Result<Seq<u8>, Error>,
)
    requires
        check.rules().len() == 0,
        check.protects(data, out),
    ensures
        out == Ok::<Seq<u8>, Error>(data),
{
}

} // verus!

use vstd::prelude::*;

use crate::error::{Error, Result};
use crate::model::c_compatible;
use crate::params::{
    all_encodable, encode, has_key, joined, lemma_encoding_c_compatible, lookup, Config, ParamValue,
};

verus! {

/// The number of boosting rounds when a configuration names none.
pub const DEFAULT_ITERATIONS: i64 = 100;

/// The name of the entry that gives the number of boosting rounds.
pub open spec fn iterations_key() -> Seq<char> {
    seq!['n', 'u', 'm', '_', 'i', 't', 'e', 'r', 'a', 't', 'i', 'o', 'n', 's']
}

/// The number of rounds that a configuration asks for: the default where it names
/// none, its integer where it names one, and nothing where the entry is not an integer.
pub open spec fn iterations_of(s: Seq<(String, ParamValue)>) -> Option<int> {
    match lookup(s, iterations_key()) {
        None => Some(DEFAULT_ITERATIONS as int),
        Some(ParamValue::Int(n)) => Some(n as int),
        Some(_) => None,
    }
}

/// The update calls that follow the create call, which itself performs the first
/// round: one fewer than the rounds asked for, and none for a count below one.
pub open spec fn updates_for(n: int) -> nat {
    if n <= 1 {
        0
    } else {
        (n - 1) as nat
    }
}

/// The boosting rounds that training with a configuration performs.
pub open spec fn rounds_of(s: Seq<(String, ParamValue)>) -> int {
    1 + updates_for(iterations_of(s).unwrap()) as int
}

/// Without an entry of that name, the lookup finds nothing.
proof fn lemma_lookup_absent(s: Seq<(String, ParamValue)>, k: Seq<char>)
    requires
        !has_key(s, k),
    ensures
        lookup(s, k) is None,
    decreases s.len(),
{
    if s.len() > 0 {
        assert(s[s.len() - 1].0@ != k);
        let t = s.drop_last();
        assert forall|i: int| 0 <= i < t.len() implies #[trigger] t[i].0@ != k by {
            assert(t[i] == s[i]);
        }
        lemma_lookup_absent(t, k);
    }
}

/// The number of rounds that a configuration asks for.
pub fn iterations(config: &Config) -> (r: Result<i64>)
    ensures
        r is Ok <==> iterations_of(config@) is Some,
        r matches Ok(n) ==> iterations_of(config@) == Some(n as int),
        r matches Err(e) ==> e is EncodingFailure,
{
    let key = "num_iterations";
    proof {
        reveal_strlit("num_iterations");
        assert(key@ =~= iterations_key());
    }
    match config.get(key) {
        None => Ok(DEFAULT_ITERATIONS),
        Some(ParamValue::Int(n)) => Ok(*n),
        Some(_) => Err(Error::EncodingFailure(String::from_str(key))),
    }
}

/// What training does with a configuration: the parameter text for the create call,
/// and how many update calls follow it. The engine's own early-stop answer to an
/// update call does not shorten the plan.
pub struct TrainingPlan {
    params: String,
    updates: u64,
    issued: u64,
}

impl TrainingPlan {
    /// The parameter text for the create call.
    pub closed spec fn params_view(&self) -> Seq<char> {
        self.params@
    }

    /// The update calls that follow the create call.
    pub closed spec fn updates_view(&self) -> nat {
        self.updates as nat
    }

    /// The update calls already handed out.
    pub closed spec fn issued_view(&self) -> nat {
        self.issued as nat
    }

    /// No more updates are handed out than planned.
    pub open spec fn wf(&self) -> bool {
        self.issued_view() <= self.updates_view() && self.updates_view() < i64::MAX
    }

    /// The parameter text for the create call.
    pub fn params(&self) -> (r: &str)
        ensures
            r@ == self.params_view(),
    {
        self.params.as_str()
    }

    /// The boosting rounds that the plan performs: the create call and the updates.
    pub fn rounds(&self) -> (r: u64)
        requires
            self.wf(),
        ensures
            r == 1 + self.updates_view(),
    {
        1 + self.updates
    }

    /// Whether one more update call is due; if so, it counts as handed out.
    pub fn next_update(&mut self) -> (r: bool)
        requires
            old(self).wf(),
        ensures
            final(self).wf(),
            r == (old(self).issued_view() < old(self).updates_view()),
            r ==> final(self).issued_view() == old(self).issued_view() + 1,
            !r ==> final(self).issued_view() == old(self).issued_view(),
            final(self).updates_view() == old(self).updates_view(),
            final(self).params_view() == old(self).params_view(),
    {
        if self.issued < self.updates {
            self.issued = self.issued + 1;
            true
        } else {
            false
        }
    }
}

/// Plans training with a configuration: resolves the number of rounds and encodes
/// the parameter text. Fails before any native call where the round count is not an
/// integer or the configuration cannot be encoded.
pub fn plan(config: &Config) -> (r: Result<TrainingPlan>)
    ensures
        r is Ok <==> (iterations_of(config@) is Some && all_encodable(config@)),
        r matches Ok(p) ==> p.wf() && p.params_view() == joined(config@) && p.updates_view()
            == updates_for(iterations_of(config@).unwrap()) && p.issued_view() == 0,
        r matches Ok(p) ==> c_compatible(p.params_view()),
        r matches Err(e) ==> e is EncodingFailure,
{
    let n = match iterations(config) {
        Ok(n) => n,
        Err(e) => return Err(e),
    };
    let params = match encode(config) {
        Ok(t) => t,
        Err(e) => return Err(e),
    };
    proof {
        lemma_encoding_c_compatible(config@);
    }
    let updates: u64 = if n <= 1 {
        0
    } else {
        (n - 1) as u64
    };
    Ok(TrainingPlan { params, updates, issued: 0 })
}

/// Training with a configuration that names no round count performs the default
/// hundred rounds: the create call and ninety-nine updates.
pub proof fn lemma_default_rounds(config: Config)
    requires
        !has_key(config@, iterations_key()),
    ensures
        iterations_of(config@) == Some(100int),
        updates_for(iterations_of(config@).unwrap()) == 99,
        rounds_of(config@) == 100,
{
    lemma_lookup_absent(config@, iterations_key());
}

/// Training with a configuration that asks for `n` rounds, `n` at least one,
/// performs exactly `n` rounds: the create call and `n - 1` updates.
pub proof fn lemma_given_rounds(config: Config, n: i64)
    requires
        lookup(config@, iterations_key()) == Some(ParamValue::Int(n)),
        n >= 1,
    ensures
        iterations_of(config@) == Some(n as int),
        updates_for(n as int) == n - 1,
        rounds_of(config@) == n,
{
}

} // verus!

//! Joining what a plugin finds call by call.
use vstd::prelude::*;

use crate::error::{Error, ErrorView};

verus! {

/// What one call came to.
pub open spec fn outcome_view<T>(outcome: Result<Vec<T>, Error>) -> Result<Seq<T>, ErrorView> {
    match outcome {
        Ok(found) => Ok(found@),
        Err(e) => Err(e@),
    }
}

/// The results so far, followed by those of one more call, or its error.
pub open spec fn joined<T>(so_far: Seq<T>, outcome: Result<Seq<T>, ErrorView>) -> Result<
    Seq<T>,
    ErrorView,
> {
    match outcome {
        Ok(found) => Ok(so_far + found),
        Err(e) => Err(e),
    }
}

/// What a series of calls comes to.
pub open spec fn gathered<T>(outcomes: Seq<Result<Seq<T>, ErrorView>>) -> Result<
    Seq<T>,
    ErrorView,
>
    decreases outcomes.len(),
{
    if outcomes.len() == 0 {
        Ok(Seq::empty())
    } else {
        match gathered(outcomes.drop_last()) {
            Ok(so_far) => joined(so_far, outcomes.last()),
            Err(e) => Err(e),
        }
    }
}

/// The results so far, followed by those of one more call, or its error.
pub fn gather<T>(so_far: Vec<T>, outcome: Result<Vec<T>, Error>) -> (r: Result<Vec<T>, Error>)
    ensures
        outcome_view(r) == joined(so_far@, outcome_view(outcome)),
        outcome matches Err(e) ==> r == Err::<Vec<T>, Error>(e),
{
    match outcome {
        Ok(found) => {
            let mut all = so_far;
            let mut more = found;
            all.append(&mut more);
            Ok(all)
        },
        Err(e) => Err(e),
    }
}

/// Where no call fails, the results stand in the order of the calls, and
/// nothing is lost.
pub proof fn law_results_stand_in_the_order_of_the_calls<T>(
    outcomes: Seq<Result<Seq<T>, ErrorView>>,
)
    requires
        forall|i: int| 0 <= i < outcomes.len() ==> (#[trigger] outcomes[i]) is Ok,
    ensures
        gathered(outcomes) == Ok::<Seq<T>, ErrorView>(
            outcomes.map_values(|o: Result<Seq<T>, ErrorView>| o->Ok_0).flatten(),
        ),
    decreases outcomes.len(),
{
    let found = outcomes.map_values(|o: Result<Seq<T>, ErrorView>| o->Ok_0);
    found.lemma_flatten_and_flatten_alt_are_equivalent();
    if outcomes.len() > 0 {
        let front = outcomes.drop_last();
        assert forall|i: int| 0 <= i < front.len() implies (#[trigger] front[i]) is Ok by {
            assert(front[i] == outcomes[i]);
        }
        law_results_stand_in_the_order_of_the_calls(front);
        let before = front.map_values(|o: Result<Seq<T>, ErrorView>| o->Ok_0);
        before.lemma_flatten_and_flatten_alt_are_equivalent();
        assert(found.drop_last() == before);
        assert(outcomes[outcomes.len() - 1] is Ok);
        assert(found.last() == outcomes.last()->Ok_0);
    }
}

/// The first call that fails decides: its error is the result, whatever was
/// found before and whatever the calls after it would have come to.
pub proof fn law_the_first_failure_is_the_result<T>(
    outcomes: Seq<Result<Seq<T>, ErrorView>>,
    n: int,
)
    requires
        0 <= n < outcomes.len(),
        outcomes[n] is Err,
        forall|i: int| 0 <= i < n ==> (#[trigger] outcomes[i]) is Ok,
    ensures
        gathered(outcomes) == Err::<Seq<T>, ErrorView>(outcomes[n]->Err_0),
    decreases outcomes.len(),
{
    let front = outcomes.drop_last();
    assert forall|i: int| 0 <= i < n implies (#[trigger] front[i]) is Ok by {
        assert(front[i] == outcomes[i]);
    }
    if n < front.len() {
        law_the_first_failure_is_the_result(front, n);
    } else {
        law_results_stand_in_the_order_of_the_calls(front);
    }
}

} // verus!

//! What holds of the handlers taken together, proved over the functions that
//! their contracts are written in.

use crate::error::ErrorView;
use crate::handlers::{all_ids, create_outcome, lookup_outcome, try_candidates};
use crate::id::is_id;
use crate::validate::is_valid_target;
use vstd::prelude::*;

verus! {

/// Trying candidates either stores the target under an id that was free and
/// returns that id, or finds every candidate taken and changes nothing.
pub proof fn lemma_try_candidates(
    table: Map<Seq<char>, Seq<char>>,
    url: Seq<char>,
    candidates: Seq<Seq<char>>,
)
    ensures
        match try_candidates(table, url, candidates).1 {
            Ok(id) => {
                &&& !table.contains_key(id)
                &&& candidates.contains(id)
                &&& try_candidates(table, url, candidates).0 == table.insert(id, url)
            },
            Err(e) => {
                &&& e == ErrorView::CapacityExhausted
                &&& try_candidates(table, url, candidates).0 == table
                &&& forall|i: int|
                    0 <= i < candidates.len() ==> table.contains_key(#[trigger] candidates[i])
            },
        },
    decreases candidates.len(),
{
    if candidates.len() > 0 {
        if table.contains_key(candidates[0]) {
            let rest = candidates.drop_first();
            lemma_try_candidates(table, url, rest);
            match try_candidates(table, url, rest).1 {
                Ok(id) => {
                    let i = choose|i: int| 0 <= i < rest.len() && rest[i] == id;
                    assert(candidates[i + 1] == id);
                },
                Err(_) => {
                    assert forall|i: int| 0 <= i < candidates.len() implies table.contains_key(
                        #[trigger] candidates[i],
                    ) by {
                        if i > 0 {
                            assert(rest[i - 1] == candidates[i]);
                        }
                    }
                },
            }
        } else {
            assert(candidates[0] == candidates[0]);
        }
    }
}

/// Round trip: a create request for a valid target with at least one free
/// candidate returns an id, and a lookup of that id returns the target.
pub proof fn law_created_is_found(
    table: Map<Seq<char>, Seq<char>>,
    url: Seq<char>,
    candidates: Seq<Seq<char>>,
)
    requires
        is_valid_target(url),
        exists|k: int| 0 <= k < candidates.len() && !table.contains_key(#[trigger] candidates[k]),
    ensures
        create_outcome(table, url, candidates).1 is Ok,
        lookup_outcome(
            create_outcome(table, url, candidates).0,
            create_outcome(table, url, candidates).1->Ok_0,
        ) == Ok::<Seq<char>, ErrorView>(url),
{
    lemma_try_candidates(table, url, candidates);
}

/// A target that is not valid is refused with `InvalidInput`, and the table
/// is not written to.
pub proof fn law_invalid_is_refused(
    table: Map<Seq<char>, Seq<char>>,
    url: Seq<char>,
    candidates: Seq<Seq<char>>,
)
    requires
        !is_valid_target(url),
    ensures
        create_outcome(table, url, candidates).0 == table,
        create_outcome(table, url, candidates).1 is Err,
        create_outcome(table, url, candidates).1->Err_0 is InvalidInput,
{
}

/// Lookup only reads: for an id that has a link it returns that link's target,
/// the same at every call, since nothing but the table and the id goes into
/// the answer.
pub proof fn law_lookup_repeats(table: Map<Seq<char>, Seq<char>>, id: Seq<char>)
    requires
        table.contains_key(id),
    ensures
        lookup_outcome(table, id) == Ok::<Seq<char>, ErrorView>(table[id]),
{
}

/// Retry: candidates that are taken are passed over without a failure being
/// reported, and the first free one is stored and returned.
pub proof fn law_retry_reaches_first_free(
    table: Map<Seq<char>, Seq<char>>,
    url: Seq<char>,
    candidates: Seq<Seq<char>>,
    k: int,
)
    requires
        is_valid_target(url),
        0 <= k < candidates.len(),
        forall|j: int| 0 <= j < k ==> table.contains_key(#[trigger] candidates[j]),
        !table.contains_key(candidates[k]),
    ensures
        create_outcome(table, url, candidates) == (
            table.insert(candidates[k], url),
            Ok::<Seq<char>, ErrorView>(candidates[k]),
        ),
    decreases k,
{
    if k > 0 {
        let rest = candidates.drop_first();
        assert(rest[k - 1] == candidates[k]);
        assert forall|j: int| 0 <= j < k - 1 implies table.contains_key(#[trigger] rest[j]) by {
            assert(rest[j] == candidates[j + 1]);
        }
        law_retry_reaches_first_free(table, url, rest, k - 1);
    }
}

/// No overwrite: whatever a create request does, every id that had a link
/// before still leads to the same target after.
pub proof fn law_create_keeps_links(
    table: Map<Seq<char>, Seq<char>>,
    url: Seq<char>,
    candidates: Seq<Seq<char>>,
    id: Seq<char>,
)
    requires
        table.contains_key(id),
    ensures
        lookup_outcome(create_outcome(table, url, candidates).0, id) == lookup_outcome(table, id),
{
    lemma_try_candidates(table, url, candidates);
}

/// One create request of a history: its target, and the candidate ids that
/// the generator handed out for it.
pub struct CreateCall {
    pub url: Seq<char>,
    pub candidates: Seq<Seq<char>>,
}

/// The table after a history of create requests, starting from the empty one.
pub open spec fn table_after(calls: Seq<CreateCall>) -> Map<Seq<char>, Seq<char>>
    decreases calls.len(),
{
    if calls.len() == 0 {
        Map::empty()
    } else {
        create_outcome(table_after(calls.drop_last()), calls.last().url, calls.last().candidates).0
    }
}

/// The answer that the request at position `k` of a history got.
pub open spec fn answer_of(calls: Seq<CreateCall>, k: int) -> Result<Seq<char>, ErrorView> {
    create_outcome(table_after(calls.take(k)), calls[k].url, calls[k].candidates).1
}

/// Some request of the history returned `id`.
pub open spec fn was_returned(calls: Seq<CreateCall>, id: Seq<char>) -> bool {
    exists|k: int| 0 <= k < calls.len() && #[trigger] answer_of(calls, k) == Ok::<
        Seq<char>,
        ErrorView,
    >(id)
}

/// The ids with a link are the ids that create requests returned.
pub proof fn lemma_table_holds_returned(calls: Seq<CreateCall>, id: Seq<char>)
    ensures
        table_after(calls).contains_key(id) <==> was_returned(calls, id),
    decreases calls.len(),
{
    if calls.len() > 0 {
        let front = calls.drop_last();
        let last = calls.len() - 1;
        lemma_table_holds_returned(front, id);
        lemma_try_candidates(table_after(front), calls.last().url, calls.last().candidates);
        assert(calls.take(last) =~= front);
        assert forall|k: int| 0 <= k < last implies answer_of(calls, k) == answer_of(front, k) by {
            assert(calls.take(k) =~= front.take(k));
        }
        if was_returned(front, id) {
            let k = choose|k: int| 0 <= k < front.len() && #[trigger] answer_of(front, k) == Ok::<
                Seq<char>,
                ErrorView,
            >(id);
            assert(answer_of(calls, k) == Ok::<Seq<char>, ErrorView>(id));
        }
        if was_returned(calls, id) {
            let k = choose|k: int| 0 <= k < calls.len() && #[trigger] answer_of(calls, k) == Ok::<
                Seq<char>,
                ErrorView,
            >(id);
            if k < last {
                assert(answer_of(front, k) == Ok::<Seq<char>, ErrorView>(id));
            }
        }
        if answer_of(calls, last) == Ok::<Seq<char>, ErrorView>(id) {
            assert(was_returned(calls, id));
        }
    }
}

/// An id that no create request returned is not found.
pub proof fn law_unreturned_is_not_found(calls: Seq<CreateCall>, id: Seq<char>)
    requires
        !was_returned(calls, id),
    ensures
        lookup_outcome(table_after(calls), id) == Err::<Seq<char>, ErrorView>(
            ErrorView::NotFound(id),
        ),
{
    lemma_table_holds_returned(calls, id);
}

/// Uniqueness: two requests of one history never return the same id.
pub proof fn law_returned_ids_differ(calls: Seq<CreateCall>, j: int, k: int)
    requires
        0 <= j < k < calls.len(),
        answer_of(calls, j) is Ok,
    ensures
        answer_of(calls, j) != answer_of(calls, k),
{
    let id = answer_of(calls, j)->Ok_0;
    let before = calls.take(k);
    assert(answer_of(before, j) == answer_of(calls, j)) by {
        assert(before.take(j) =~= calls.take(j));
    }
    assert(was_returned(before, id));
    lemma_table_holds_returned(before, id);
    lemma_try_candidates(table_after(before), calls[k].url, calls[k].candidates);
}

/// Every request of the history drew its candidates from the id generator.
pub open spec fn candidates_are_ids(calls: Seq<CreateCall>) -> bool {
    forall|k: int| 0 <= k < calls.len() ==> all_ids(#[trigger] calls[k].candidates)
}

/// The data model: every link that create requests stored has an id of the
/// generated shape and a valid target.
pub proof fn law_stored_links_are_well_formed(calls: Seq<CreateCall>, id: Seq<char>)
    requires
        candidates_are_ids(calls),
        table_after(calls).contains_key(id),
    ensures
        is_id(id),
        is_valid_target(table_after(calls)[id]),
    decreases calls.len(),
{
    if calls.len() > 0 {
        let front = calls.drop_last();
        let last = calls.last();
        assert(candidates_are_ids(front)) by {
            assert forall|k: int| 0 <= k < front.len() implies all_ids(
                #[trigger] front[k].candidates,
            ) by {
                assert(front[k] == calls[k]);
            }
        }
        lemma_try_candidates(table_after(front), last.url, last.candidates);
        if table_after(front).contains_key(id) {
            law_stored_links_are_well_formed(front, id);
        } else {
            assert(all_ids(calls[calls.len() - 1].candidates));
            let i = choose|i: int| 0 <= i < last.candidates.len() && last.candidates[i] == id;
            assert(is_id(last.candidates[i]));
        }
    }
}

} // verus!

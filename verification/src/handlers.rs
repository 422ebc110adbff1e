//! The two request handlers: create a link for a target, look a link up.
//!
//! Each handler is given twice. As steps ([`begin_create`],
//! [`continue_create`], [`finish_lookup`]) it decides and leaves the storage
//! round trip to the caller, who hands the reply back. As a whole
//! ([`create`], [`lookup`]) it runs those steps against a [`LinkTable`].
//! [`delete_links`] is the one administrative operation.

use crate::error::{Error, ErrorView};
use crate::id::{generate_id, is_id, ID_LENGTH};
use crate::models::{Link, LinkView, NewLink};
use crate::pattern::{containment_pattern, pattern_for};
use crate::store::{get_reply, link_reply_view, table_without, LinkTable};
use crate::validate::{is_valid_target, url_parse_outcome, validate_url, verdict};
use vstd::prelude::*;

verus! {

/// How many ids a create request tries by default before it gives up.
pub const MAX_ATTEMPTS: usize = 5;

/// An [`Attempt`] as mathematics.
pub struct AttemptView {
    pub id: Seq<char>,
    pub url: Seq<char>,
    pub retries_left: nat,
}

/// One insert that a create request asks of storage: the candidate id, the
/// target, and how many further candidates may follow a conflict.
#[derive(Debug, PartialEq, Eq)]
pub struct Attempt {
    pub id: String,
    pub url: String,
    pub retries_left: usize,
}

impl View for Attempt {
    type V = AttemptView;

    open spec fn view(&self) -> AttemptView {
        AttemptView { id: self.id@, url: self.url@, retries_left: self.retries_left as nat }
    }
}

impl Attempt {
    /// The link to hand to storage.
    pub fn new_link(&self) -> (new_link: NewLink<'_>)
        ensures
            new_link.id@ == self.id@,
            new_link.url@ == self.url@,
    {
        NewLink { id: self.id.as_str(), url: self.url.as_str() }
    }
}

/// A [`CreateStep`] as mathematics.
pub enum CreateStepView {
    Insert(AttemptView),
    Done(Result<Seq<char>, ErrorView>),
}

/// Where a create request stands: it either asks for an insert or is done,
/// with the id of the new link or with the failure to report.
#[derive(Debug, PartialEq, Eq)]
pub enum CreateStep {
    Insert(Attempt),
    Done(Result<String, Error>),
}

/// A handler's answer, an id or a target or a failure, taken by view.
pub open spec fn text_reply_view(reply: Result<String, Error>) -> Result<Seq<char>, ErrorView> {
    match reply {
        Ok(text) => Ok(text@),
        Err(e) => Err(e@),
    }
}

impl View for CreateStep {
    type V = CreateStepView;

    open spec fn view(&self) -> CreateStepView {
        match self {
            CreateStep::Insert(attempt) => CreateStepView::Insert(attempt@),
            CreateStep::Done(reply) => CreateStepView::Done(text_reply_view(*reply)),
        }
    }
}

/// The candidate id that a step puts forward; the empty text where it puts
/// none forward.
pub open spec fn candidate_of(step: CreateStepView) -> Seq<char> {
    match step {
        CreateStepView::Insert(attempt) => attempt.id,
        CreateStepView::Done(_) => Seq::empty(),
    }
}

/// The first step of a create request for `url` that may try `attempts` ids,
/// the first of them `candidate`. A target that is not valid ends the request
/// before any id is tried.
pub open spec fn first_step(url: Seq<char>, attempts: nat, candidate: Seq<char>) -> CreateStepView {
    match verdict(url_parse_outcome(url)) {
        Err(e) => CreateStepView::Done(Err(e)),
        Ok(_) => if attempts == 0 {
            CreateStepView::Done(Err(ErrorView::CapacityExhausted))
        } else {
            CreateStepView::Insert(
                AttemptView { id: candidate, url, retries_left: (attempts - 1) as nat },
            )
        },
    }
}

/// The step that follows storage's reply to `attempt`. A stored link ends the
/// request with its id. A conflict is answered with `candidate` while retries
/// are left, and with `CapacityExhausted` when none is. Any other failure
/// ends the request as it is.
pub open spec fn next_step(
    attempt: AttemptView,
    reply: Result<LinkView, ErrorView>,
    candidate: Seq<char>,
) -> CreateStepView {
    match reply {
        Ok(link) => CreateStepView::Done(Ok(link.id)),
        Err(ErrorView::Conflict) => if attempt.retries_left == 0 {
            CreateStepView::Done(Err(ErrorView::CapacityExhausted))
        } else {
            CreateStepView::Insert(
                AttemptView {
                    id: candidate,
                    url: attempt.url,
                    retries_left: (attempt.retries_left - 1) as nat,
                },
            )
        },
        Err(e) => CreateStepView::Done(Err(e)),
    }
}

/// The answer to a lookup of `id`, given storage's reply: the target of the
/// link that was found, `NotFound` naming `id` where none was, any other
/// failure as it is.
pub open spec fn lookup_answer(id: Seq<char>, reply: Result<LinkView, ErrorView>) -> Result<
    Seq<char>,
    ErrorView,
> {
    match reply {
        Ok(link) => Ok(link.url),
        Err(ErrorView::NotFound(_)) => Err(ErrorView::NotFound(id)),
        Err(e) => Err(e),
    }
}

/// Starts a create request: checks the target and, where it is valid and an
/// attempt is allowed, puts a fresh id forward.
pub fn begin_create(url: &str, attempts: usize) -> (step: CreateStep)
    ensures
        step@ == first_step(url@, attempts as nat, candidate_of(step@)),
        step matches CreateStep::Insert(attempt) ==> is_id(attempt.id@),
{
    match validate_url(url) {
        Err(e) => CreateStep::Done(Err(e)),
        Ok(_) => {
            if attempts == 0 {
                CreateStep::Done(Err(Error::CapacityExhausted))
            } else {
                CreateStep::Insert(
                    Attempt { id: generate_id(), url: url.to_owned(), retries_left: attempts - 1 },
                )
            }
        },
    }
}

/// Goes on with a create request once storage has answered `attempt`.
pub fn continue_create(attempt: Attempt, reply: Result<Link, Error>) -> (step: CreateStep)
    ensures
        step@ == next_step(attempt@, link_reply_view(reply), candidate_of(step@)),
        step matches CreateStep::Insert(next) ==> is_id(next.id@),
{
    match reply {
        Ok(link) => CreateStep::Done(Ok(link.id)),
        Err(Error::Conflict) => {
            if attempt.retries_left == 0 {
                CreateStep::Done(Err(Error::CapacityExhausted))
            } else {
                CreateStep::Insert(
                    Attempt {
                        id: generate_id(),
                        url: attempt.url,
                        retries_left: attempt.retries_left - 1,
                    },
                )
            }
        },
        Err(e) => CreateStep::Done(Err(e)),
    }
}

/// Ends a lookup of `id` once storage has answered.
pub fn finish_lookup(id: &str, reply: Result<Link, Error>) -> (answer: Result<String, Error>)
    ensures
        text_reply_view(answer) == lookup_answer(id@, link_reply_view(reply)),
{
    match reply {
        Ok(link) => Ok(link.url),
        Err(Error::NotFound(_)) => Err(Error::NotFound(id.to_owned())),
        Err(e) => Err(e),
    }
}

/// Every candidate has the shape of a generated id.
pub open spec fn all_ids(candidates: Seq<Seq<char>>) -> bool {
    forall|i: int| 0 <= i < candidates.len() ==> is_id(#[trigger] candidates[i])
}

/// What becomes of the table and of a request for a valid target when the
/// candidates are tried in turn: the first one that is free is stored and
/// returned. Where none is free the table stays and the request fails with
/// `CapacityExhausted`.
pub open spec fn try_candidates(
    table: Map<Seq<char>, Seq<char>>,
    url: Seq<char>,
    candidates: Seq<Seq<char>>,
) -> (Map<Seq<char>, Seq<char>>, Result<Seq<char>, ErrorView>)
    decreases candidates.len(),
{
    if candidates.len() == 0 {
        (table, Err(ErrorView::CapacityExhausted))
    } else if table.contains_key(candidates[0]) {
        try_candidates(table, url, candidates.drop_first())
    } else {
        (table.insert(candidates[0], url), Ok(candidates[0]))
    }
}

/// What becomes of the table and of a create request for `url`, given the
/// candidate ids that the generator hands out: a target that is not valid is
/// refused and the table stays, a valid one goes through [`try_candidates`].
pub open spec fn create_outcome(
    table: Map<Seq<char>, Seq<char>>,
    url: Seq<char>,
    candidates: Seq<Seq<char>>,
) -> (Map<Seq<char>, Seq<char>>, Result<Seq<char>, ErrorView>) {
    match verdict(url_parse_outcome(url)) {
        Err(e) => (table, Err(e)),
        Ok(_) => try_candidates(table, url, candidates),
    }
}

/// The answer to a lookup of `id` in `table`: the target stored under it, or
/// `NotFound` naming the id.
pub open spec fn lookup_outcome(table: Map<Seq<char>, Seq<char>>, id: Seq<char>) -> Result<
    Seq<char>,
    ErrorView,
> {
    lookup_answer(id, get_reply(table, id))
}

/// Candidates that are taken change nothing: trying goes on behind them.
pub proof fn lemma_taken_are_skipped(
    table: Map<Seq<char>, Seq<char>>,
    url: Seq<char>,
    taken: Seq<Seq<char>>,
    rest: Seq<Seq<char>>,
)
    requires
        forall|i: int| 0 <= i < taken.len() ==> table.contains_key(#[trigger] taken[i]),
    ensures
        try_candidates(table, url, taken + rest) == try_candidates(table, url, rest),
    decreases taken.len(),
{
    if taken.len() == 0 {
        assert(taken + rest =~= rest);
    } else {
        assert((taken + rest)[0] == taken[0]);
        assert((taken + rest).drop_first() =~= taken.drop_first() + rest);
        assert forall|i: int| 0 <= i < taken.drop_first().len() implies table.contains_key(
            #[trigger] taken.drop_first()[i],
        ) by {
            assert(taken.drop_first()[i] == taken[i + 1]);
        }
        lemma_taken_are_skipped(table, url, taken.drop_first(), rest);
    }
}

/// A text with the shape of an id.
spec fn some_id() -> Seq<char> {
    Seq::new(ID_LENGTH as nat, |i: int| 'a')
}

/// Creates a link for `url` in `table` and returns its id.
///
/// A target that is not valid is refused with `InvalidInput` and the reason.
/// For a valid one up to `attempts` fresh ids are tried: the first that the
/// table does not hold yet is stored with the target and returned. Which ids
/// are tried is left to chance, so the contract says that some `attempts`
/// well-formed candidates explain the table and the answer. Only when every
/// one of them was taken does the request fail, with `CapacityExhausted`.
pub fn create(table: &mut LinkTable, url: &str, attempts: usize) -> (result: Result<String, Error>)
    ensures
        exists|candidates: Seq<Seq<char>>|
            candidates.len() == attempts && #[trigger] all_ids(candidates) && (
                final(table)@,
                text_reply_view(result),
            ) == create_outcome(old(table)@, url@, candidates),
        result matches Ok(id) ==> {
            &&& is_id(id@)
            &&& !old(table)@.contains_key(id@)
            &&& final(table)@ == old(table)@.insert(id@, url@)
            &&& lookup_outcome(final(table)@, id@) == Ok::<Seq<char>, ErrorView>(url@)
        },
        result is Err ==> final(table)@ == old(table)@,
        !is_valid_target(url@) ==> result is Err && verdict(url_parse_outcome(url@)) == Err::<
            (),
            ErrorView,
        >(result->Err_0@),
{
    let ghost start = table@;
    let mut attempt = match begin_create(url, attempts) {
        CreateStep::Done(result) => {
            proof {
                let candidates = if is_valid_target(url@) {
                    Seq::<Seq<char>>::empty()
                } else {
                    Seq::new(attempts as nat, |i: int| some_id())
                };
                assert(all_ids(candidates));
                assert((start, text_reply_view(result)) == create_outcome(start, url@, candidates));
            }
            return result;
        },
        CreateStep::Insert(attempt) => attempt,
    };
    let ghost mut tried = Seq::<Seq<char>>::empty();
    loop
        invariant
            start == old(table)@,
            table@ == start,
            is_valid_target(url@),
            attempt.url@ == url@,
            is_id(attempt.id@),
            all_ids(tried),
            forall|i: int| 0 <= i < tried.len() ==> start.contains_key(#[trigger] tried[i]),
            tried.len() + 1 + attempt.retries_left == attempts,
        decreases attempt.retries_left,
    {
        let ghost current = attempt@;
        let reply = table.create(attempt.new_link());
        match continue_create(attempt, reply) {
            CreateStep::Done(result) => {
                proof {
                    if start.contains_key(current.id) {
                        let candidates = tried.push(current.id);
                        assert(candidates + Seq::<Seq<char>>::empty() =~= candidates);
                        lemma_taken_are_skipped(start, url@, candidates, Seq::empty());
                        assert(all_ids(candidates));
                        assert((table@, text_reply_view(result)) == create_outcome(
                            start,
                            url@,
                            candidates,
                        ));
                    } else {
                        let rest = Seq::new(
                            (current.retries_left + 1) as nat,
                            |i: int| current.id,
                        );
                        let candidates = tried + rest;
                        lemma_taken_are_skipped(start, url@, tried, rest);
                        assert(rest[0] == current.id);
                        assert(all_ids(candidates));
                        assert((table@, text_reply_view(result)) == create_outcome(
                            start,
                            url@,
                            candidates,
                        ));
                    }
                }
                return result;
            },
            CreateStep::Insert(next) => {
                proof {
                    tried = tried.push(current.id);
                }
                attempt = next;
            },
        }
    }
}

/// Removes from `table` every link whose id holds `fragment` and tells how
/// many went. This is for administrators: no request handler leads here.
///
/// The fragment is wrapped into a pattern as it is, so a `%`, `_` or
/// backslash in it is read as the pattern language reads it.
pub fn delete_links(table: &mut LinkTable, fragment: &str) -> (count: usize)
    ensures
        final(table)@ == table_without(old(table)@, pattern_for(fragment@)),
        old(table)@.dom().finite(),
        count == old(table)@.len() - final(table)@.len(),
{
    let pattern = containment_pattern(fragment);
    table.delete(pattern.as_str())
}

/// Looks `id` up in `table`: the target stored under it, or `NotFound` naming
/// the id. The table is only read.
pub fn lookup(table: &LinkTable, id: &str) -> (answer: Result<String, Error>)
    ensures
        text_reply_view(answer) == lookup_outcome(table@, id@),
{
    finish_lookup(id, table.get(id))
}

} // verus!

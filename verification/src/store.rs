//! The link table: every stored link, keyed by its id.
//!
//! The rules of storage are stated once, as functions on a map from ids to
//! targets. [`LinkTable`] keeps such a map in memory and is proved to follow
//! them; durable storage is expected to follow the same rules.

use crate::error::{Error, ErrorView};
use crate::models::{Link, LinkView, NewLink};
use crate::pattern::{characters, like, like_chars};
use vstd::prelude::*;

verus! {

/// The table after an attempt to insert `url` under `id`: a taken id leaves
/// the table as it was, whatever target it holds.
pub open spec fn table_after_insert(
    table: Map<Seq<char>, Seq<char>>,
    id: Seq<char>,
    url: Seq<char>,
) -> Map<Seq<char>, Seq<char>> {
    if table.contains_key(id) {
        table
    } else {
        table.insert(id, url)
    }
}

/// The answer to an attempt to insert `url` under `id`: the stored link, or
/// `Conflict` where the id is taken.
pub open spec fn insert_reply(table: Map<Seq<char>, Seq<char>>, id: Seq<char>, url: Seq<char>)
    -> Result<LinkView, ErrorView> {
    if table.contains_key(id) {
        Err(ErrorView::Conflict)
    } else {
        Ok(LinkView { id, url })
    }
}

/// The answer to a request for the link with `id`: that link, or `NotFound`
/// naming the id.
pub open spec fn get_reply(table: Map<Seq<char>, Seq<char>>, id: Seq<char>) -> Result<
    LinkView,
    ErrorView,
> {
    if table.contains_key(id) {
        Ok(LinkView { id, url: table[id] })
    } else {
        Err(ErrorView::NotFound(id))
    }
}

/// The table without the links whose id matches `pattern`.
pub open spec fn table_without(table: Map<Seq<char>, Seq<char>>, pattern: Seq<char>) -> Map<
    Seq<char>,
    Seq<char>,
> {
    table.remove_keys(Set::new(|id: Seq<char>| like(pattern, id)))
}

/// A link or a failure, both taken by view.
pub open spec fn link_reply_view(reply: Result<Link, Error>) -> Result<LinkView, ErrorView> {
    match reply {
        Ok(link) => Ok(link@),
        Err(e) => Err(e@),
    }
}

/// What a query for the link with `id` amounts to, given the rows that
/// storage brought for it: the first row, or `NotFound` naming the id where
/// there is none.
pub open spec fn first_row_reply(id: Seq<char>, rows: Seq<Link>) -> Result<LinkView, ErrorView> {
    if rows.len() == 0 {
        Err(ErrorView::NotFound(id))
    } else {
        Ok(rows[0]@)
    }
}

/// Turns the rows that durable storage brought for `id` into the answer to a
/// `get`: the first row, or `NotFound` naming the id.
pub fn first_match(id: &str, rows: Vec<Link>) -> (reply: Result<Link, Error>)
    ensures
        link_reply_view(reply) == first_row_reply(id@, rows@),
{
    let mut rows = rows;
    if rows.len() == 0 {
        Err(Error::NotFound(id.to_owned()))
    } else {
        Ok(rows.swap_remove(0))
    }
}

/// The map that a sequence of rows stands for. Where two rows share an id the
/// later one counts; a [`LinkTable`] never holds such rows.
spec fn table_of(rows: Seq<Link>) -> Map<Seq<char>, Seq<char>>
    decreases rows.len(),
{
    if rows.len() == 0 {
        Map::empty()
    } else {
        table_of(rows.drop_last()).insert(rows.last().id@, rows.last().url@)
    }
}

/// No two rows share an id.
spec fn distinct_ids(rows: Seq<Link>) -> bool {
    forall|i: int, j: int| 0 <= i < j < rows.len() ==> rows[i].id@ != rows[j].id@
}

/// Some row has the id `id`.
spec fn has_row(rows: Seq<Link>, id: Seq<char>) -> bool {
    exists|i: int| 0 <= i < rows.len() && #[trigger] rows[i].id@ == id
}

/// The keys of the table are the ids of the rows, and there are finitely many.
proof fn lemma_table_keys(rows: Seq<Link>)
    ensures
        table_of(rows).dom().finite(),
        forall|id: Seq<char>|
            #![trigger table_of(rows).contains_key(id)]
            #![trigger has_row(rows, id)]
            table_of(rows).contains_key(id) <==> has_row(rows, id),
    decreases rows.len(),
{
    if rows.len() > 0 {
        let front = rows.drop_last();
        lemma_table_keys(front);
        assert forall|id: Seq<char>|
            #![trigger table_of(rows).contains_key(id)]
            #![trigger has_row(rows, id)]
            table_of(rows).contains_key(id) <==> has_row(rows, id) by {
            if has_row(front, id) {
                let i = choose|i: int| 0 <= i < front.len() && #[trigger] front[i].id@ == id;
                assert(rows[i].id@ == id);
            }
            if has_row(rows, id) {
                let i = choose|i: int| 0 <= i < rows.len() && #[trigger] rows[i].id@ == id;
                if i < front.len() {
                    assert(front[i].id@ == id);
                }
            }
        }
    }
}

/// With distinct ids, each row's id leads to that row's target, and the table
/// has as many keys as there are rows.
proof fn lemma_table_rows(rows: Seq<Link>)
    requires
        distinct_ids(rows),
    ensures
        forall|i: int| 0 <= i < rows.len() ==> table_of(rows)[#[trigger] rows[i].id@] == rows[i].url@,
        table_of(rows).len() == rows.len(),
    decreases rows.len(),
{
    if rows.len() > 0 {
        let front = rows.drop_last();
        lemma_table_rows(front);
        lemma_table_keys(front);
        if has_row(front, rows.last().id@) {
            let i = choose|i: int| 0 <= i < front.len() && #[trigger] front[i].id@ == rows.last().id@;
            assert(rows[i].id@ == rows[rows.len() - 1].id@);
        }
        assert forall|i: int| 0 <= i < rows.len() implies table_of(rows)[#[trigger] rows[i].id@]
            == rows[i].url@ by {
            if i < front.len() {
                assert(front[i].id@ == rows[i].id@);
                assert(rows[i].id@ != rows[rows.len() - 1].id@);
            }
        }
    }
}

/// One of the first `upto` rows says what `link` says.
spec fn row_among(rows: Seq<Link>, upto: int, link: LinkView) -> bool {
    exists|k: int| 0 <= k < upto && #[trigger] rows[k]@ == link
}

/// `kept` holds, of the first `upto` rows, those whose id does not match
/// `pattern`, and no others.
spec fn keeps_unmatched(rows: Seq<Link>, upto: int, kept: Seq<Link>, pattern: Seq<char>)
    -> bool {
    &&& forall|j: int|
        0 <= j < kept.len() ==> row_among(rows, upto, #[trigger] kept[j]@) && !like(pattern, kept[j].id@)
    &&& forall|k: int|
        0 <= k < upto && !like(pattern, rows[k].id@) ==> row_among(
            kept,
            kept.len() as int,
            #[trigger] rows[k]@,
        )
}

/// Passing over a row whose id matches the pattern keeps `kept` as it is.
proof fn lemma_row_dropped(rows: Seq<Link>, upto: int, kept: Seq<Link>, pattern: Seq<char>)
    requires
        0 <= upto < rows.len(),
        keeps_unmatched(rows, upto, kept, pattern),
        like(pattern, rows[upto].id@),
    ensures
        keeps_unmatched(rows, upto + 1, kept, pattern),
{
    assert forall|j: int| 0 <= j < kept.len() implies row_among(
        rows,
        upto + 1,
        #[trigger] kept[j]@,
    ) by {
        assert(row_among(rows, upto, kept[j]@));
        let k = choose|k: int| 0 <= k < upto && #[trigger] rows[k]@ == kept[j]@;
        assert(rows[k]@ == kept[j]@);
    }
}

/// A copy of a row whose id does not match the pattern joins `kept`, and the
/// ids in `kept` stay distinct.
proof fn lemma_row_kept(
    rows: Seq<Link>,
    upto: int,
    kept: Seq<Link>,
    pattern: Seq<char>,
    copy: Link,
)
    requires
        0 <= upto < rows.len(),
        distinct_ids(rows),
        distinct_ids(kept),
        keeps_unmatched(rows, upto, kept, pattern),
        !like(pattern, rows[upto].id@),
        copy@ == rows[upto]@,
    ensures
        distinct_ids(kept.push(copy)),
        keeps_unmatched(rows, upto + 1, kept.push(copy), pattern),
{
    let more = kept.push(copy);
    assert(more[kept.len() as int]@ == rows[upto]@);
    assert forall|a: int, b: int| 0 <= a < b < more.len() implies more[a].id@ != more[b].id@ by {
        if b < kept.len() {
            assert(kept[a].id@ != kept[b].id@);
        } else {
            assert(row_among(rows, upto, kept[a]@));
            let k = choose|k: int| 0 <= k < upto && #[trigger] rows[k]@ == kept[a]@;
            assert(rows[k].id@ != rows[upto].id@);
        }
    }
    assert forall|j: int| 0 <= j < more.len() implies row_among(rows, upto + 1, #[trigger] more[j]@)
        && !like(pattern, more[j].id@) by {
        if j < kept.len() {
            assert(row_among(rows, upto, kept[j]@));
            let k = choose|k: int| 0 <= k < upto && #[trigger] rows[k]@ == kept[j]@;
            assert(rows[k]@ == more[j]@);
        } else {
            assert(rows[upto]@ == more[j]@);
        }
    }
    assert forall|k: int| 0 <= k < upto + 1 && !like(pattern, rows[k].id@) implies row_among(
        more,
        more.len() as int,
        #[trigger] rows[k]@,
    ) by {
        if k < upto {
            assert(row_among(kept, kept.len() as int, rows[k]@));
            let j = choose|j: int| 0 <= j < kept.len() && #[trigger] kept[j]@ == rows[k]@;
            assert(more[j]@ == rows[k]@);
        } else {
            assert(more[kept.len() as int]@ == rows[k]@);
        }
    }
}

/// Rows filtered by their ids stand for the table filtered by its keys.
proof fn lemma_table_of_kept(rows: Seq<Link>, kept: Seq<Link>, pattern: Seq<char>)
    requires
        distinct_ids(rows),
        distinct_ids(kept),
        keeps_unmatched(rows, rows.len() as int, kept, pattern),
    ensures
        table_of(kept) == table_without(table_of(rows), pattern),
{
    lemma_table_keys(rows);
    lemma_table_keys(kept);
    lemma_table_rows(rows);
    lemma_table_rows(kept);
    let whole = table_of(rows);
    let rest = table_of(kept);
    assert forall|id: Seq<char>| #[trigger] rest.contains_key(id) implies whole.contains_key(id)
        && !like(pattern, id) && rest[id] == whole[id] by {
        assert(has_row(kept, id));
        let j = choose|j: int| 0 <= j < kept.len() && #[trigger] kept[j].id@ == id;
        assert(row_among(rows, rows.len() as int, kept[j]@));
        let k = choose|k: int| 0 <= k < rows.len() && #[trigger] rows[k]@ == kept[j]@;
        assert(rows[k].id@ == id);
    }
    assert forall|id: Seq<char>| #[trigger]
        whole.contains_key(id) && !like(pattern, id) implies rest.contains_key(id) by {
        assert(has_row(rows, id));
        let k = choose|k: int| 0 <= k < rows.len() && #[trigger] rows[k].id@ == id;
        assert(row_among(kept, kept.len() as int, rows[k]@));
        let j = choose|j: int| 0 <= j < kept.len() && #[trigger] kept[j]@ == rows[k]@;
        assert(kept[j].id@ == id);
    }
    assert(rest =~= table_without(whole, pattern));
}

/// An in-memory table of links with the id as its key.
pub struct LinkTable {
    rows: Vec<Link>,
}

impl View for LinkTable {
    type V = Map<Seq<char>, Seq<char>>;

    closed spec fn view(&self) -> Map<Seq<char>, Seq<char>> {
        table_of(self.rows@)
    }
}

impl LinkTable {
    #[verifier::type_invariant]
    spec fn well_formed(self) -> bool {
        distinct_ids(self.rows@)
    }

    /// An empty table.
    pub fn new() -> (table: Self)
        ensures
            table@ == Map::<Seq<char>, Seq<char>>::empty(),
    {
        LinkTable { rows: Vec::new() }
    }

    /// The number of links in the table.
    pub fn len(&self) -> (count: usize)
        ensures
            self@.dom().finite(),
            count == self@.len(),
    {
        proof {
            use_type_invariant(self);
            lemma_table_keys(self.rows@);
            lemma_table_rows(self.rows@);
        }
        self.rows.len()
    }

    /// Where in the rows the link with `id` stands, if there is one.
    fn position(&self, id: &str) -> (found: Option<usize>)
        ensures
            found is Some <==> has_row(self.rows@, id@),
            found matches Some(i) ==> i < self.rows@.len() && self.rows@[i as int].id@ == id@,
    {
        let key = id.to_owned();
        let mut i: usize = 0;
        while i < self.rows.len()
            invariant
                i <= self.rows@.len(),
                key@ == id@,
                forall|j: int| 0 <= j < i ==> self.rows@[j].id@ != id@,
            decreases self.rows@.len() - i,
        {
            if self.rows[i].id == key {
                return Some(i);
            }
            i = i + 1;
        }
        None
    }

    /// Whether the table holds a link with `id`.
    pub fn contains(&self, id: &str) -> (yes: bool)
        ensures
            yes == self@.contains_key(id@),
    {
        proof {
            lemma_table_keys(self.rows@);
        }
        self.position(id).is_some()
    }

    /// The link with `id`, or `NotFound` naming the id. The table is left
    /// as it is.
    pub fn get(&self, id: &str) -> (reply: Result<Link, Error>)
        ensures
            link_reply_view(reply) == get_reply(self@, id@),
    {
        proof {
            use_type_invariant(self);
            lemma_table_keys(self.rows@);
            lemma_table_rows(self.rows@);
        }
        match self.position(id) {
            Some(i) => Ok(self.rows[i].clone()),
            None => Err(Error::NotFound(id.to_owned())),
        }
    }

    /// Stores a new link, unless its id is taken: then the answer is
    /// `Conflict` and the table keeps the link it has.
    pub fn create(&mut self, new_link: NewLink<'_>) -> (reply: Result<Link, Error>)
        ensures
            final(self)@ == table_after_insert(old(self)@, new_link.id@, new_link.url@),
            link_reply_view(reply) == insert_reply(old(self)@, new_link.id@, new_link.url@),
    {
        proof {
            use_type_invariant(&*self);
            lemma_table_keys(self.rows@);
        }
        if self.position(new_link.id).is_some() {
            return Err(Error::Conflict);
        }
        let link = new_link.to_link();
        let stored = link.clone();
        let mut rows: Vec<Link> = Vec::new();
        std::mem::swap(&mut rows, &mut self.rows);
        let ghost before = rows@;
        rows.push(link);
        proof {
            assert(rows@.drop_last() == before);
            assert forall|i: int, j: int| 0 <= i < j < rows@.len() implies rows@[i].id@
                != rows@[j].id@ by {
                if j < before.len() {
                    assert(before[i].id@ != before[j].id@);
                } else {
                    assert(before[i].id@ == rows@[i].id@);
                }
            }
        }
        self.rows = rows;
        Ok(stored)
    }

    /// Removes every link whose id matches `pattern` and tells how many
    /// went.
    pub fn delete(&mut self, pattern: &str) -> (count: usize)
        ensures
            final(self)@ == table_without(old(self)@, pattern@),
            old(self)@.dom().finite(),
            count == old(self)@.len() - final(self)@.len(),
    {
        proof {
            use_type_invariant(&*self);
        }
        let pattern_chars = characters(pattern);
        let mut rows: Vec<Link> = Vec::new();
        std::mem::swap(&mut rows, &mut self.rows);
        let mut kept: Vec<Link> = Vec::new();
        let mut i: usize = 0;
        while i < rows.len()
            invariant
                i <= rows@.len(),
                kept@.len() <= i,
                pattern_chars@ == pattern@,
                distinct_ids(rows@),
                distinct_ids(kept@),
                keeps_unmatched(rows@, i as int, kept@, pattern@),
            decreases rows@.len() - i,
        {
            let id_chars = characters(rows[i].id.as_str());
            if like_chars(&pattern_chars, &id_chars) {
                proof {
                    lemma_row_dropped(rows@, i as int, kept@, pattern@);
                }
            } else {
                let copy = rows[i].clone();
                proof {
                    lemma_row_kept(rows@, i as int, kept@, pattern@, copy);
                }
                kept.push(copy);
            }
            i = i + 1;
        }
        proof {
            lemma_table_of_kept(rows@, kept@, pattern@);
            lemma_table_keys(rows@);
            lemma_table_rows(rows@);
            lemma_table_rows(kept@);
        }
        let count = rows.len() - kept.len();
        self.rows = kept;
        count
    }
}

} // verus!

//! Laws of the index.
//!
//! These proof functions state, over the mathematical model, how posting
//! lists grow under ingestion and what a query answers: a never-ingested
//! token answers empty, each ingested token's posting list gains the
//! document's identifier once per occurrence and in ingestion order, a
//! repeated ingestion doubles the additions, and the tokens a document does
//! not contain are untouched.

use vstd::prelude::*;

use crate::index::lookup;
use crate::index::posting_after;
use crate::index::record_token;
use crate::index::record_tokens;
use crate::token::tokens_of;

verus! {

/// How often the token `t` occurs in the token sequence `ts`.
pub open spec fn count_occ(ts: Seq<Seq<char>>, t: Seq<char>) -> nat
    decreases ts.len(),
{
    if ts.len() == 0 {
        0
    } else {
        (if ts[0] == t {
            1nat
        } else {
            0nat
        }) + count_occ(ts.drop_first(), t)
    }
}

/// `n` copies of the identifier `id`.
pub open spec fn repeated(id: usize, n: nat) -> Seq<usize> {
    Seq::new(n, |i: int| id)
}

/// `t` occurs in `ts` exactly when its occurrence count is positive.
pub proof fn lemma_count_occ_contains(ts: Seq<Seq<char>>, t: Seq<char>)
    ensures
        ts.contains(t) <==> count_occ(ts, t) > 0,
    decreases ts.len(),
{
    if ts.len() > 0 {
        lemma_count_occ_contains(ts.drop_first(), t);
        if ts[0] == t {
            assert(ts.contains(t));
        } else {
            if ts.contains(t) {
                let i = choose|i: int| 0 <= i < ts.len() && ts[i] == t;
                assert(ts.drop_first()[i - 1] == t);
                assert(ts.drop_first().contains(t));
            }
            if ts.drop_first().contains(t) {
                let i = choose|i: int| 0 <= i < ts.drop_first().len() && ts.drop_first()[i] == t;
                assert(ts[i + 1] == t);
                assert(ts.contains(t));
            }
        }
    }
}

/// Ingesting the tokens `ts` for document `id` appends `id` to the posting
/// list of `t` exactly once per occurrence of `t` in `ts`, after the
/// entries that were already there.
pub proof fn lemma_record_tokens_lookup(
    m: Map<Seq<char>, Seq<usize>>,
    ts: Seq<Seq<char>>,
    id: usize,
    t: Seq<char>,
)
    ensures
        lookup(record_tokens(m, ts, id), t) == lookup(m, t) + repeated(id, count_occ(ts, t)),
    decreases ts.len(),
{
    if ts.len() == 0 {
        assert(lookup(m, t) + repeated(id, 0) =~= lookup(m, t));
    } else {
        let m1 = record_token(m, ts[0], id);
        lemma_record_tokens_lookup(m1, ts.drop_first(), id, t);
        let c = count_occ(ts.drop_first(), t);
        if ts[0] == t {
            assert(posting_after(m, t, id) =~= lookup(m, t).push(id));
            assert(lookup(m1, t) == lookup(m, t).push(id));
            assert(lookup(m, t).push(id) + repeated(id, c) =~= lookup(m, t) + repeated(
                id,
                (c + 1) as nat,
            ));
        } else {
            assert(lookup(m1, t) == lookup(m, t));
        }
    }
}

/// After ingesting tokens `ts` for document `id`, the posting list of any
/// token `t` of `ts` keeps its old entries as a prefix, in order, and then
/// holds `id` at every later position — in particular it contains `id`.
pub proof fn lemma_ingest_appends_in_order(
    m: Map<Seq<char>, Seq<usize>>,
    ts: Seq<Seq<char>>,
    id: usize,
    t: Seq<char>,
)
    requires
        ts.contains(t),
    ensures
        lookup(record_tokens(m, ts, id), t).len() == lookup(m, t).len() + count_occ(ts, t),
        lookup(record_tokens(m, ts, id), t).take(lookup(m, t).len() as int) == lookup(m, t),
        forall|p: int|
            lookup(m, t).len() <= p < lookup(record_tokens(m, ts, id), t).len() ==> lookup(
                record_tokens(m, ts, id),
                t,
            )[p] == id,
        lookup(record_tokens(m, ts, id), t).contains(id),
{
    lemma_count_occ_contains(ts, t);
    lemma_record_tokens_lookup(m, ts, id, t);
    let before = lookup(m, t);
    let after = lookup(record_tokens(m, ts, id), t);
    assert(after.take(before.len() as int) =~= before);
    assert(after[before.len() as int] == id);
}

/// Ingesting the same tokens for the same document twice appends twice as
/// many copies of the identifier as one ingestion does: nothing is
/// deduplicated.
pub proof fn lemma_ingest_twice_doubles(
    m: Map<Seq<char>, Seq<usize>>,
    ts: Seq<Seq<char>>,
    id: usize,
    t: Seq<char>,
)
    ensures
        lookup(record_tokens(record_tokens(m, ts, id), ts, id), t) == lookup(m, t) + repeated(
            id,
            2 * count_occ(ts, t),
        ),
{
    let m1 = record_tokens(m, ts, id);
    lemma_record_tokens_lookup(m, ts, id, t);
    lemma_record_tokens_lookup(m1, ts, id, t);
    let c = count_occ(ts, t);
    assert((lookup(m, t) + repeated(id, c)) + repeated(id, c) =~= lookup(m, t) + repeated(
        id,
        2 * c,
    ));
}

/// Ingesting a document leaves the posting list of every token the document
/// does not contain unchanged: distinct tokens are touched independently.
pub proof fn lemma_ingest_other_tokens_unchanged(
    m: Map<Seq<char>, Seq<usize>>,
    ts: Seq<Seq<char>>,
    id: usize,
    t: Seq<char>,
)
    requires
        !ts.contains(t),
    ensures
        lookup(record_tokens(m, ts, id), t) == lookup(m, t),
{
    lemma_count_occ_contains(ts, t);
    lemma_record_tokens_lookup(m, ts, id, t);
    assert(lookup(m, t) + repeated(id, 0) =~= lookup(m, t));
}

/// The index after ingesting, in order, documents given as pairs of an
/// identifier and a content text.
pub open spec fn index_after(docs: Seq<(usize, Seq<char>)>) -> Map<Seq<char>, Seq<usize>>
    decreases docs.len(),
{
    if docs.len() == 0 {
        Map::empty()
    } else {
        record_tokens(index_after(docs.drop_last()), tokens_of(docs.last().1), docs.last().0)
    }
}

/// A token that occurs in no ingested document's content answers the empty
/// posting list, however many documents were ingested.
pub proof fn lemma_unseen_token_answers_empty(docs: Seq<(usize, Seq<char>)>, t: Seq<char>)
    requires
        forall|j: int| 0 <= j < docs.len() ==> !tokens_of(#[trigger] docs[j].1).contains(t),
    ensures
        lookup(index_after(docs), t) == Seq::<usize>::empty(),
    decreases docs.len(),
{
    if docs.len() == 0 {
        assert(!Map::<Seq<char>, Seq<usize>>::empty().contains_key(t));
    } else {
        assert(forall|j: int|
            0 <= j < docs.drop_last().len() ==> !tokens_of(
                #[trigger] docs.drop_last()[j].1,
            ).contains(t));
        lemma_unseen_token_answers_empty(docs.drop_last(), t);
        assert(!tokens_of(docs[docs.len() - 1].1).contains(t));
        lemma_ingest_other_tokens_unchanged(
            index_after(docs.drop_last()),
            tokens_of(docs.last().1),
            docs.last().0,
            t,
        );
    }
}

} // verus!

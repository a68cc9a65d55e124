//! The inverted index: a mapping from token to posting list.
//!
//! A posting list is the ordered sequence of identifiers of the documents
//! that contained the token, one occurrence per appearance, in ingestion
//! order. The index is modelled as a `Map<Seq<char>, Seq<usize>>`; the
//! executable structure is a vector of entries with pairwise distinct
//! tokens.

use vstd::prelude::*;

use crate::token::tokens_of;
use crate::token::tokenize;

verus! {

/// A document to be ingested: a caller-assigned identifier and its text.
#[derive(Debug)]
pub struct Document {
    pub id: usize,
    pub content: String,
}

/// The posting list of `t` after appending `id` once: extended if `t` is
/// already known, a fresh one-element list otherwise.
pub open spec fn posting_after(m: Map<Seq<char>, Seq<usize>>, t: Seq<char>, id: usize) -> Seq<
    usize,
> {
    if m.contains_key(t) {
        m[t].push(id)
    } else {
        seq![id]
    }
}

/// The index after recording one occurrence of token `t` for document `id`.
pub open spec fn record_token(
    m: Map<Seq<char>, Seq<usize>>,
    t: Seq<char>,
    id: usize,
) -> Map<Seq<char>, Seq<usize>> {
    m.insert(t, posting_after(m, t, id))
}

/// The index after recording the tokens `ts` for document `id`, left to
/// right.
pub open spec fn record_tokens(
    m: Map<Seq<char>, Seq<usize>>,
    ts: Seq<Seq<char>>,
    id: usize,
) -> Map<Seq<char>, Seq<usize>>
    decreases ts.len(),
{
    if ts.len() == 0 {
        m
    } else {
        record_tokens(record_token(m, ts[0], id), ts.drop_first(), id)
    }
}

/// The posting list a query for `t` answers: the list stored under `t`, or
/// the empty sequence when `t` is unknown.
pub open spec fn lookup(m: Map<Seq<char>, Seq<usize>>, t: Seq<char>) -> Seq<usize> {
    if m.contains_key(t) {
        m[t]
    } else {
        Seq::empty()
    }
}

/// One stored entry: a token and its posting list.
struct Posting {
    token: Vec<char>,
    ids: Vec<usize>,
}

/// Tokens of distinct entries differ.
spec fn wf_entries(es: Seq<Posting>) -> bool {
    forall|i: int, j: int| 0 <= i < j < es.len() ==> es[i].token@ != es[j].token@
}

/// The mapping the entries represent.
spec fn map_of(es: Seq<Posting>) -> Map<Seq<char>, Seq<usize>>
    decreases es.len(),
{
    if es.len() == 0 {
        Map::empty()
    } else {
        map_of(es.drop_last()).insert(es.last().token@, es.last().ids@)
    }
}

proof fn lemma_map_of_dom(es: Seq<Posting>, k: Seq<char>)
    ensures
        map_of(es).contains_key(k) <==> exists|i: int| 0 <= i < es.len() && es[i].token@ == k,
    decreases es.len(),
{
    if es.len() > 0 {
        lemma_map_of_dom(es.drop_last(), k);
        if es.last().token@ == k {
            assert(es[es.len() - 1].token@ == k);
        } else {
            if map_of(es).contains_key(k) {
                let i = choose|i: int| 0 <= i < es.drop_last().len() && es.drop_last()[i].token@
                    == k;
                assert(es[i].token@ == k);
            }
            if exists|i: int| 0 <= i < es.len() && es[i].token@ == k {
                let i = choose|i: int| 0 <= i < es.len() && es[i].token@ == k;
                assert(es.drop_last()[i].token@ == k);
            }
        }
    }
}

proof fn lemma_map_of_at(es: Seq<Posting>, i: int)
    requires
        wf_entries(es),
        0 <= i < es.len(),
    ensures
        map_of(es).contains_key(es[i].token@),
        map_of(es)[es[i].token@] == es[i].ids@,
    decreases es.len(),
{
    if i == es.len() - 1 {
    } else {
        assert(wf_entries(es.drop_last()));
        lemma_map_of_at(es.drop_last(), i);
        assert(es[i].token@ != es.last().token@);
    }
}

proof fn lemma_map_of_update(es: Seq<Posting>, i: int, e: Posting)
    requires
        wf_entries(es),
        0 <= i < es.len(),
        e.token@ == es[i].token@,
    ensures
        map_of(es.update(i, e)) == map_of(es).insert(e.token@, e.ids@),
    decreases es.len(),
{
    let es2 = es.update(i, e);
    if i == es.len() - 1 {
        assert(es2.drop_last() =~= es.drop_last());
        assert(es2.last() == e);
        assert(map_of(es2) =~= map_of(es).insert(e.token@, e.ids@));
    } else {
        assert(es2.drop_last() =~= es.drop_last().update(i, e));
        assert(wf_entries(es.drop_last()));
        assert(es.drop_last()[i] == es[i]);
        lemma_map_of_update(es.drop_last(), i, e);
        assert(es2.last() == es.last());
        assert(e.token@ != es.last().token@);
        assert(map_of(es2) =~= map_of(es).insert(e.token@, e.ids@));
    }
}

proof fn lemma_map_of_push(es: Seq<Posting>, e: Posting)
    ensures
        map_of(es.push(e)) == map_of(es).insert(e.token@, e.ids@),
{
    assert(es.push(e).drop_last() =~= es);
    assert(es.push(e).last() == e);
}

/// Append `record_token` steps one at a time from the right.
proof fn lemma_record_tokens_push(
    m: Map<Seq<char>, Seq<usize>>,
    ts: Seq<Seq<char>>,
    t: Seq<char>,
    id: usize,
)
    ensures
        record_tokens(m, ts.push(t), id) == record_token(record_tokens(m, ts, id), t, id),
    decreases ts.len(),
{
    let ps = ts.push(t);
    if ts.len() == 0 {
        assert(ps.drop_first() =~= Seq::<Seq<char>>::empty());
        assert(ps[0] == t);
        assert(record_tokens(m, ps, id) == record_tokens(
            record_token(m, t, id),
            ps.drop_first(),
            id,
        ));
        assert(record_tokens(record_token(m, t, id), ps.drop_first(), id) == record_token(
            m,
            t,
            id,
        ));
        assert(record_tokens(m, ts, id) == m);
    } else {
        assert(ps[0] == ts[0]);
        assert(ps.drop_first() =~= ts.drop_first().push(t));
        let m1 = record_token(m, ts[0], id);
        lemma_record_tokens_push(m1, ts.drop_first(), t, id);
        assert(record_tokens(m, ps, id) == record_tokens(m1, ps.drop_first(), id));
        assert(record_tokens(m1, ts.drop_first().push(t), id) == record_token(
            record_tokens(m1, ts.drop_first(), id),
            t,
            id,
        ));
        assert(record_tokens(m, ts, id) == record_tokens(m1, ts.drop_first(), id));
    }
}

/// The inverted index. Its abstract value is the mapping from each ingested
/// token to that token's posting list.
pub struct Indexer {
    index: Vec<Posting>,
}

impl View for Indexer {
    type V = Map<Seq<char>, Seq<usize>>;

    closed spec fn view(&self) -> Map<Seq<char>, Seq<usize>> {
        map_of(self.index@)
    }
}

/// Insert one occurrence of `token` for document `id` into the entries.
fn insert_posting(es: &mut Vec<Posting>, token: &Vec<char>, id: usize)
    requires
        wf_entries(old(es)@),
    ensures
        wf_entries(final(es)@),
        map_of(final(es)@) == record_token(map_of(old(es)@), token@, id),
{
    let n = es.len();
    let mut i: usize = 0;
    while i < n
        invariant
            n == es@.len(),
            i <= n,
            wf_entries(es@),
            *es == *old(es),
            forall|j: int| 0 <= j < i ==> es@[j].token@ != token@,
        decreases n - i,
    {
        if chars_eq(&es[i].token, token) {
            proof {
                lemma_map_of_at(es@, i as int);
            }
            let mut e = es.remove(i);
            e.ids.push(id);
            let ghost enew = e;
            es.insert(i, e);
            proof {
                assert(es@ =~= old(es)@.update(i as int, enew));
                lemma_map_of_update(old(es)@, i as int, enew);
                assert(wf_entries(es@));
                assert(posting_after(map_of(old(es)@), token@, id) == old(
                    es,
                )@[i as int].ids@.push(id));
            }
            return ;
        }
        i = i + 1;
    }
    proof {
        lemma_map_of_dom(es@, token@);
        assert(!map_of(es@).contains_key(token@));
    }
    let mut ids: Vec<usize> = Vec::new();
    ids.push(id);
    let e = Posting { token: copy_chars(token), ids };
    let ghost enew = e;
    es.push(e);
    proof {
        assert(enew.ids@ =~= seq![id]);
        lemma_map_of_push(old(es)@, enew);
        assert(wf_entries(es@));
    }
}

/// An owned copy of a character vector.
fn copy_chars(v: &Vec<char>) -> (r: Vec<char>)
    ensures
        r@ == v@,
{
    let mut r: Vec<char> = Vec::new();
    let mut i: usize = 0;
    while i < v.len()
        invariant
            i <= v@.len(),
            r@ == v@.take(i as int),
        decreases v@.len() - i,
    {
        r.push(v[i]);
        proof {
            assert(v@.take(i as int).push(v@[i as int]) =~= v@.take(i as int + 1));
        }
        i = i + 1;
    }
    proof {
        assert(v@.take(v@.len() as int) =~= v@);
    }
    r
}

/// An owned copy of an identifier vector.
fn copy_ids(v: &Vec<usize>) -> (r: Vec<usize>)
    ensures
        r@ == v@,
{
    let mut r: Vec<usize> = Vec::new();
    let mut i: usize = 0;
    while i < v.len()
        invariant
            i <= v@.len(),
            r@ == v@.take(i as int),
        decreases v@.len() - i,
    {
        r.push(v[i]);
        proof {
            assert(v@.take(i as int).push(v@[i as int]) =~= v@.take(i as int + 1));
        }
        i = i + 1;
    }
    proof {
        assert(v@.take(v@.len() as int) =~= v@);
    }
    r
}

/// Whether two character vectors hold the same characters.
fn chars_eq(a: &Vec<char>, b: &Vec<char>) -> (r: bool)
    ensures
        r == (a@ == b@),
{
    if a.len() != b.len() {
        return false;
    }
    let mut i: usize = 0;
    while i < a.len()
        invariant
            a@.len() == b@.len(),
            i <= a@.len(),
            forall|j: int| 0 <= j < i ==> a@[j] == b@[j],
        decreases a@.len() - i,
    {
        if a[i] != b[i] {
            return false;
        }
        i = i + 1;
    }
    proof {
        assert(a@ =~= b@);
    }
    true
}

/// Whether a string and a character vector hold the same characters.
fn str_eq_chars(s: &str, t: &Vec<char>) -> (r: bool)
    ensures
        r == (s@ == t@),
{
    let n = s.unicode_len();
    if n != t.len() {
        return false;
    }
    let mut i: usize = 0;
    while i < n
        invariant
            n == s@.len(),
            n == t@.len(),
            i <= n,
            forall|j: int| 0 <= j < i ==> s@[j] == t@[j],
        decreases n - i,
    {
        if s.get_char(i) != t[i] {
            return false;
        }
        i = i + 1;
    }
    proof {
        assert(s@ =~= t@);
    }
    true
}

impl Indexer {
    /// Tokens of distinct stored entries differ, so the entry vector
    /// faithfully represents a mapping.
    #[verifier::type_invariant]
    spec fn wf(self) -> bool {
        wf_entries(self.index@)
    }

    /// An empty index: no token has a posting list.
    pub fn new() -> (r: Self)
        ensures
            r@ == Map::<Seq<char>, Seq<usize>>::empty(),
    {
        Indexer { index: Vec::new() }
    }

    /// Split the document's content into whitespace-delimited tokens and
    /// append the document's identifier to each token's posting list, one
    /// appearance per occurrence, left to right.
    pub fn add_document(&mut self, doc: Document)
        ensures
            final(self)@ == record_tokens(old(self)@, tokens_of(doc.content@), doc.id),
    {
        proof {
            use_type_invariant(&*self);
        }
        let tokens = tokenize(doc.content.as_str());
        let ghost ts = tokens.deep_view();
        let mut es: Vec<Posting> = Vec::new();
        core::mem::swap(&mut es, &mut self.index);
        let n = tokens.len();
        let mut k: usize = 0;
        proof {
            assert(ts.take(0) =~= Seq::<Seq<char>>::empty());
        }
        while k < n
            invariant
                n == ts.len(),
                ts == tokens.deep_view(),
                k <= n,
                wf_entries(es@),
                self.index@.len() == 0,
                map_of(es@) == record_tokens(old(self)@, ts.take(k as int), doc.id),
            decreases n - k,
        {
            proof {
                assert(ts[k as int] == tokens@[k as int].deep_view());
                assert(tokens@[k as int].deep_view() =~= tokens@[k as int]@);
            }
            insert_posting(&mut es, &tokens[k], doc.id);
            proof {
                assert(ts.take(k as int).push(ts[k as int]) =~= ts.take(k as int + 1));
                lemma_record_tokens_push(old(self)@, ts.take(k as int), ts[k as int], doc.id);
            }
            k = k + 1;
        }
        proof {
            assert(ts.take(n as int) =~= ts);
        }
        self.index = es;
    }

    /// The posting list recorded for exactly the token `query`, in ingestion
    /// order; empty if the token was never seen. Read-only and total: a miss
    /// is an empty answer, not an error.
    pub fn search(&self, query: &str) -> (r: Vec<usize>)
        ensures
            r@ == lookup(self@, query@),
    {
        proof {
            use_type_invariant(self);
        }
        let n = self.index.len();
        let mut i: usize = 0;
        while i < n
            invariant
                n == self.index@.len(),
                i <= n,
                wf_entries(self.index@),
                forall|j: int| 0 <= j < i ==> self.index@[j].token@ != query@,
            decreases n - i,
        {
            if str_eq_chars(query, &self.index[i].token) {
                proof {
                    lemma_map_of_at(self.index@, i as int);
                }
                return copy_ids(&self.index[i].ids);
            }
            i = i + 1;
        }
        proof {
            lemma_map_of_dom(self.index@, query@);
        }
        Vec::new()
    }
}

} // verus!

//! The BM25 index over the tool catalog: its inverted index, what a query
//! reads from it, and the ranking of scored documents.
//!
//! The scores themselves are floating-point numbers and are computed by the
//! caller from what [`BM25Index::plan`] hands out; [`rank`] orders the
//! documents by those scores, given as the bit patterns of non-negative
//! `f32` values (whose order is that of the numbers).
use vstd::prelude::*;
use crate::catalog::CatalogEntry;
use crate::order::{
    count_in, distinct_in_order, lemma_count_bound, lemma_count_pos, lemma_count_zero,
    lemma_distinct_contains, lemma_distinct_no_dup, position, tally,
};
use crate::text::{all_ascii, ascii_lowercase, ascii_words, chars_of, copy_string, push_str, string_of, tokenize, tokens, views};

verus! {

broadcast use vstd::string::group_string_axioms;

/// The text of a catalog entry that is indexed: server, name and description
/// separated by spaces.
pub open spec fn doc_text(e: CatalogEntry) -> Seq<char> {
    e.server@ + seq![' '] + e.name@ + seq![' '] + e.description@
}

/// The token lists of the documents of a catalog.
pub open spec fn corpus(es: Seq<CatalogEntry>) -> Seq<Seq<Seq<char>>> {
    es.map_values(|e: CatalogEntry| tokens(doc_text(e)))
}

/// The postings of token `t` among the first `n` documents: each document
/// that holds `t`, in increasing order, with the number of times it holds it.
pub open spec fn postings_of(docs: Seq<Seq<Seq<char>>>, t: Seq<char>, n: nat) -> Seq<(usize, usize)>
    decreases n,
{
    if n == 0 || n > docs.len() {
        seq![]
    } else {
        let c = count_in(docs[n - 1], t);
        postings_of(docs, t, (n - 1) as nat) + if c > 0 {
            seq![((n - 1) as usize, c as usize)]
        } else {
            seq![]
        }
    }
}

/// A token held by none of the first `n` documents has no postings.
pub proof fn lemma_postings_absent(docs: Seq<Seq<Seq<char>>>, t: Seq<char>, n: nat)
    requires
        n <= docs.len(),
        forall|d: int| 0 <= d < n ==> !(#[trigger] docs[d]).contains(t),
    ensures
        postings_of(docs, t, n) == Seq::<(usize, usize)>::empty(),
    decreases n,
{
    if n > 0 {
        lemma_postings_absent(docs, t, (n - 1) as nat);
        if count_in(docs[n - 1], t) > 0 {
            lemma_count_zero_when_absent(docs[n - 1], t);
        }
    }
}

proof fn lemma_count_zero_when_absent(s: Seq<Seq<char>>, t: Seq<char>)
    requires
        !s.contains(t),
    ensures
        count_in(s, t) == 0,
{
    lemma_distinct_contains(s, t);
    lemma_count_zero(s, t);
}

/// An index over a catalog: the documents' lengths and, for each token that
/// occurs in some document, its postings.
pub struct BM25Index {
    terms: Vec<String>,
    postings: Vec<Vec<(usize, usize)>>,
    doc_lengths: Vec<usize>,
    docs: Ghost<Seq<Seq<Seq<char>>>>,
}

impl BM25Index {
    #[verifier::type_invariant]
    spec fn well_formed(self) -> bool {
        let docs = self.docs@;
        &&& self.doc_lengths@.len() == docs.len()
        &&& forall|d: int| 0 <= d < docs.len() ==> #[trigger] self.doc_lengths@[d] == docs[d].len()
        &&& self.terms@.len() == self.postings@.len()
        &&& views(self.terms@).no_duplicates()
        &&& forall|k: int|
            0 <= k < self.postings@.len() ==> (#[trigger] self.postings@[k])@ == postings_of(
                docs,
                self.terms@[k]@,
                docs.len(),
            )
        &&& forall|d: int, j: int|
            0 <= d < docs.len() && 0 <= j < docs[d].len() ==> views(self.terms@).contains(
                #[trigger] docs[d][j],
            )
    }

    /// The token lists of the indexed documents.
    pub closed spec fn view(&self) -> Seq<Seq<Seq<char>>> {
        self.docs@
    }
}

/// The text that is indexed for an entry.
fn entry_text(e: &CatalogEntry) -> (r: String)
    ensures
        r@ == doc_text(*e),
{
    let mut v = chars_of(e.server.as_str());
    v.push(' ');
    push_str(&mut v, e.name.as_str());
    v.push(' ');
    push_str(&mut v, e.description.as_str());
    string_of(&v)
}

/// Adds the postings of document `d`, given its distinct tokens and their
/// counts, to the terms and postings of the documents before it.
fn add_document(
    terms: &mut Vec<String>,
    postings: &mut Vec<Vec<(usize, usize)>>,
    d: usize,
    dist: &Vec<String>,
    cnts: &Vec<usize>,
    Ghost(all): Ghost<Seq<Seq<Seq<char>>>>,
)
    requires
        d < all.len(),
        views(dist@) == distinct_in_order(all[d as int]),
        cnts@.len() == dist@.len(),
        forall|k: int| 0 <= k < cnts@.len() ==> #[trigger] cnts@[k] == count_in(all[d as int], dist@[k]@),
        old(terms)@.len() == old(postings)@.len(),
        views(old(terms)@).no_duplicates(),
        forall|m: int|
            0 <= m < old(postings)@.len() ==> (#[trigger] old(postings)@[m])@ == postings_of(
                all,
                old(terms)@[m]@,
                d as nat,
            ),
        forall|i: int, j: int|
            0 <= i < d && 0 <= j < all[i].len() ==> views(old(terms)@).contains(#[trigger] all[i][j]),
    ensures
        final(terms)@.len() == final(postings)@.len(),
        views(final(terms)@).no_duplicates(),
        forall|m: int|
            0 <= m < final(postings)@.len() ==> (#[trigger] final(postings)@[m])@ == postings_of(
                all,
                final(terms)@[m]@,
                (d + 1) as nat,
            ),
        forall|i: int, j: int|
            0 <= i <= d && 0 <= j < all[i].len() ==> views(final(terms)@).contains(#[trigger] all[i][j]),
{
    let ghost doc = all[d as int];
    proof {
        lemma_distinct_no_dup(doc);
    }
    let mut k: usize = 0;
    while k < dist.len()
        invariant
            d < all.len(),
            doc == all[d as int],
            views(dist@) == distinct_in_order(doc),
            views(dist@).no_duplicates(),
            cnts@.len() == dist@.len(),
            forall|q: int| 0 <= q < cnts@.len() ==> #[trigger] cnts@[q] == count_in(doc, dist@[q]@),
            k <= dist.len(),
            terms@.len() == postings@.len(),
            views(terms@).no_duplicates(),
            forall|m: int|
                0 <= m < postings@.len() ==> (#[trigger] postings@[m])@ == if views(dist@).take(
                    k as int,
                ).contains(terms@[m]@) {
                    postings_of(all, terms@[m]@, (d + 1) as nat)
                } else {
                    postings_of(all, terms@[m]@, d as nat)
                },
            forall|i: int, j: int|
                0 <= i < d && 0 <= j < all[i].len() ==> views(terms@).contains(#[trigger] all[i][j]),
            forall|q: int| 0 <= q < k ==> views(terms@).contains(#[trigger] dist@[q]@),
        decreases dist.len() - k,
    {
        let ghost t = dist@[k as int]@;
        let c = cnts[k];
        proof {
            assert(views(dist@)[k as int] == t);
            lemma_distinct_contains(doc, t);
            lemma_count_pos(doc, t);
            assert(postings_of(all, t, (d + 1) as nat) == postings_of(all, t, d as nat).push(
                (d, c),
            ));
            assert(!views(dist@).take(k as int).contains(t)) by {
                if views(dist@).take(k as int).contains(t) {
                    let q = choose|q: int| 0 <= q < k && views(dist@).take(k as int)[q] == t;
                    assert(views(dist@)[q] == views(dist@)[k as int]);
                }
            }
        }
        let ghost old_terms = views(terms@);
        let ghost old_postings = postings@;
        match position(terms, &dist[k]) {
            Some(p) => {
                let mut pl: Vec<(usize, usize)> = Vec::new();
                postings.set_and_swap(p, &mut pl);
                pl.push((d, c));
                postings.set(p, pl);
                proof {
                    assert(old_terms[p as int] == t);
                    assert forall|m: int| 0 <= m < postings@.len() implies (#[trigger] postings@[m])@
                        == if views(dist@).take(k + 1).contains(terms@[m]@) {
                        postings_of(all, terms@[m]@, (d + 1) as nat)
                    } else {
                        postings_of(all, terms@[m]@, d as nat)
                    } by {
                        assert(views(dist@).take(k + 1) == views(dist@).take(k as int).push(t));
                        if m != p {
                            assert(old_terms[m] != old_terms[p as int]);
                            assert(views(dist@).take(k + 1).contains(terms@[m]@) == views(dist@).take(
                                k as int,
                            ).contains(terms@[m]@));
                        } else {
                            assert(views(dist@).take(k + 1)[k as int] == t);
                        }
                    }
                    assert forall|q: int| 0 <= q < k + 1 implies views(terms@).contains(
                        #[trigger] dist@[q]@,
                    ) by {
                        if q == k {
                            assert(views(terms@)[p as int] == t);
                        }
                    }
                }
            },
            None => {
                proof {
                    assert forall|i: int| 0 <= i < d implies !(#[trigger] all[i]).contains(t) by {
                        if all[i].contains(t) {
                            let j = choose|j: int| 0 <= j < all[i].len() && all[i][j] == t;
                            assert(views(terms@).contains(all[i][j]));
                        }
                    }
                    lemma_postings_absent(all, t, d as nat);
                }
                let mut pl: Vec<(usize, usize)> = Vec::new();
                pl.push((d, c));
                terms.push(copy_string(&dist[k]));
                postings.push(pl);
                proof {
                    assert(views(terms@) =~= old_terms.push(t));
                    assert forall|m: int| 0 <= m < postings@.len() implies (#[trigger] postings@[m])@
                        == if views(dist@).take(k + 1).contains(terms@[m]@) {
                        postings_of(all, terms@[m]@, (d + 1) as nat)
                    } else {
                        postings_of(all, terms@[m]@, d as nat)
                    } by {
                        assert(views(dist@).take(k + 1) == views(dist@).take(k as int).push(t));
                        if m < old_terms.len() {
                            assert(old_terms[m] != t);
                            assert(postings@[m] == old_postings[m]);
                            assert(views(dist@).take(k + 1).contains(terms@[m]@) == views(dist@).take(
                                k as int,
                            ).contains(terms@[m]@));
                        } else {
                            assert(views(dist@).take(k + 1)[k as int] == t);
                        }
                    }
                    assert forall|i: int, j: int|
                        0 <= i < d && 0 <= j < all[i].len() implies views(terms@).contains(
                        #[trigger] all[i][j],
                    ) by {
                        let q = choose|q: int| 0 <= q < old_terms.len() && old_terms[q] == all[i][j];
                        assert(views(terms@)[q] == all[i][j]);
                    }
                    assert forall|q: int| 0 <= q < k + 1 implies views(terms@).contains(
                        #[trigger] dist@[q]@,
                    ) by {
                        if q == k {
                            assert(views(terms@)[old_terms.len() as int] == t);
                        } else {
                            let r = choose|r: int| 0 <= r < old_terms.len() && old_terms[r] == dist@[q]@;
                            assert(views(terms@)[r] == dist@[q]@);
                        }
                    }
                }
            },
        }
        k = k + 1;
    }
    proof {
        assert(views(dist@).take(dist@.len() as int) == views(dist@));
        assert forall|m: int| 0 <= m < postings@.len() implies (#[trigger] postings@[m])@ == postings_of(
            all,
            terms@[m]@,
            (d + 1) as nat,
        ) by {
            let t = terms@[m]@;
            if !views(dist@).contains(t) {
                lemma_count_zero(doc, t);
            }
        }
        assert forall|i: int, j: int|
            0 <= i <= d && 0 <= j < all[i].len() implies views(terms@).contains(#[trigger] all[i][j]) by {
            if i == d {
                assert(doc.contains(doc[j]));
                lemma_distinct_contains(doc, doc[j]);
                let q = choose|q: int| 0 <= q < views(dist@).len() && views(dist@)[q] == doc[j];
                assert(views(terms@).contains(dist@[q]@));
            }
        }
    }
}

impl BM25Index {
    /// Builds the index of catalog entries: each entry is one document, the
    /// tokens of its server, name and description.
    pub fn build(entries: &[CatalogEntry]) -> (r: BM25Index)
        ensures
            r@ == corpus(entries@),
    {
        let ghost all = corpus(entries@);
        let mut terms: Vec<String> = Vec::new();
        let mut postings: Vec<Vec<(usize, usize)>> = Vec::new();
        let mut doc_lengths: Vec<usize> = Vec::new();
        let mut d: usize = 0;
        while d < entries.len()
            invariant
                d <= entries@.len(),
                all == corpus(entries@),
                doc_lengths@.len() == d,
                forall|i: int| 0 <= i < d ==> #[trigger] doc_lengths@[i] == all[i].len(),
                terms@.len() == postings@.len(),
                views(terms@).no_duplicates(),
                forall|k: int|
                    0 <= k < postings@.len() ==> (#[trigger] postings@[k])@ == postings_of(
                        all,
                        terms@[k]@,
                        d as nat,
                    ),
                forall|i: int, j: int|
                    0 <= i < d && 0 <= j < all[i].len() ==> views(terms@).contains(#[trigger] all[i][j]),
            decreases entries@.len() - d,
        {
            let text = entry_text(&entries[d]);
            let toks = tokenize(text.as_str());
            assert(views(toks@) == all[d as int]);
            doc_lengths.push(toks.len());
            let (dist, cnts) = tally(&toks);
            add_document(&mut terms, &mut postings, d, &dist, &cnts, Ghost(all));
            d = d + 1;
        }
        BM25Index { terms, postings, doc_lengths, docs: Ghost(all) }
    }
}

/// The postings of each query token that some document holds, in query
/// order (a token repeated in the query is repeated here).
pub open spec fn query_postings(docs: Seq<Seq<Seq<char>>>, q: Seq<Seq<char>>) -> Seq<Seq<(usize, usize)>>
    decreases q.len(),
{
    if q.len() == 0 {
        seq![]
    } else {
        let p = postings_of(docs, q.last(), docs.len());
        query_postings(docs, q.drop_last()) + if p.len() > 0 {
            seq![p]
        } else {
            seq![]
        }
    }
}

/// What a search has to do, before any score is computed.
pub enum SearchPlan {
    /// The index holds no document: there is no result.
    NoEntries,
    /// The query has no token: these documents are the results, all with
    /// score zero.
    AllEntries(Vec<usize>),
    /// The postings of the query tokens that occur in the index, in query
    /// order; the results are the documents with a positive score.
    Terms(Vec<Vec<(usize, usize)>>),
}

/// The views of a list of postings lists.
pub open spec fn postings_views(v: Seq<Vec<(usize, usize)>>) -> Seq<Seq<(usize, usize)>> {
    v.map_values(|p: Vec<(usize, usize)>| p@)
}

impl BM25Index {
    /// The number of indexed documents.
    pub fn num_docs(&self) -> (r: usize)
        ensures
            r == self@.len(),
    {
        proof {
            use_type_invariant(self);
        }
        self.doc_lengths.len()
    }

    /// The number of tokens of document `d`.
    pub fn doc_length(&self, d: usize) -> (r: usize)
        requires
            d < self@.len(),
        ensures
            r == self@[d as int].len(),
    {
        proof {
            use_type_invariant(self);
        }
        self.doc_lengths[d]
    }

    /// The postings of a token: the documents that hold it, in increasing
    /// order, each with the number of times it holds the token.
    pub fn postings(&self, token: &String) -> (r: Vec<(usize, usize)>)
        ensures
            r@ == postings_of(self@, token@, self@.len()),
    {
        proof {
            use_type_invariant(self);
        }
        match position(&self.terms, token) {
            Some(p) => {
                let src = &self.postings[p];
                let mut out: Vec<(usize, usize)> = Vec::new();
                let mut i: usize = 0;
                while i < src.len()
                    invariant
                        i <= src.len(),
                        out@ == src@.take(i as int),
                    decreases src.len() - i,
                {
                    out.push(src[i]);
                    i = i + 1;
                    assert(src@.take(i as int) == src@.take(i - 1 as int).push(src@[i - 1]));
                }
                assert(src@.take(src.len() as int) == src@);
                out
            },
            None => {
                proof {
                    let docs = self.docs@;
                    assert forall|d: int| 0 <= d < docs.len() implies !(#[trigger] docs[d]).contains(
                        token@,
                    ) by {
                        if docs[d].contains(token@) {
                            let j = choose|j: int| 0 <= j < docs[d].len() && docs[d][j] == token@;
                            assert(views(self.terms@).contains(docs[d][j]));
                        }
                    }
                    lemma_postings_absent(docs, token@, docs.len());
                }
                Vec::new()
            },
        }
    }

    /// Plans a search: no result for an empty index; the first `top_k`
    /// documents for a query without tokens; otherwise the postings of the
    /// query tokens, which the scores are computed from.
    pub fn plan(&self, query: &str, top_k: usize) -> (r: SearchPlan)
        ensures
            self@.len() == 0 ==> r is NoEntries,
            self@.len() > 0 && tokens(query@).len() == 0 ==> (r matches SearchPlan::AllEntries(v)
                && v@ == Seq::new(
                if top_k < self@.len() {
                    top_k as nat
                } else {
                    self@.len()
                },
                |i: int| i as usize,
            )),
            self@.len() > 0 && tokens(query@).len() > 0 ==> (r matches SearchPlan::Terms(ts)
                && postings_views(ts@) == query_postings(self@, tokens(query@))),
            self@.len() > 0 && all_ascii(query@) ==> tokens(query@) == ascii_words(ascii_lowercase(query@)),
    {
        let n = self.num_docs();
        if n == 0 {
            return SearchPlan::NoEntries;
        }
        let q = tokenize(query);
        if q.len() == 0 {
            let m = if top_k < n {
                top_k
            } else {
                n
            };
            let mut v: Vec<usize> = Vec::new();
            let mut i: usize = 0;
            while i < m
                invariant
                    i <= m,
                    v@ == Seq::new(i as nat, |j: int| j as usize),
                decreases m - i,
            {
                v.push(i);
                i = i + 1;
                assert(v@ =~= Seq::new(i as nat, |j: int| j as usize));
            }
            return SearchPlan::AllEntries(v);
        }
        let mut ts: Vec<Vec<(usize, usize)>> = Vec::new();
        let mut i: usize = 0;
        while i < q.len()
            invariant
                i <= q.len(),
                postings_views(ts@) == query_postings(self@, views(q@).take(i as int)),
            decreases q.len() - i,
        {
            let p = self.postings(&q[i]);
            let ghost before = postings_views(ts@);
            if p.len() > 0 {
                ts.push(p);
                assert(postings_views(ts@) =~= before.push(p@));
            }
            i = i + 1;
            assert(views(q@).take(i as int).drop_last() == views(q@).take(i - 1 as int));
            assert(views(q@).take(i as int).last() == q@[i - 1]@);
        }
        assert(views(q@).take(q.len() as int) == views(q@));
        SearchPlan::Terms(ts)
    }
}

// ---------------------------------------------------------------------------
// Ranking
// ---------------------------------------------------------------------------

/// Document `a` comes before document `b`: a higher key, or the same key and
/// a lower position (the order of a stable sort by decreasing key).
pub open spec fn ranks_before(keys: Seq<u32>, a: usize, b: usize) -> bool {
    keys[a as int] > keys[b as int] || (keys[a as int] == keys[b as int] && a < b)
}

/// The number of positive keys among the first `n`.
pub open spec fn num_positive(keys: Seq<u32>, n: nat) -> nat
    decreases n,
{
    if n == 0 || n > keys.len() {
        0
    } else {
        num_positive(keys, (n - 1) as nat) + if keys[n - 1] > 0 {
            1nat
        } else {
            0nat
        }
    }
}

/// What ranking gives for `keys` and `top_k`: the documents with a positive
/// key, ordered by decreasing key (ties in document order), the first
/// `top_k` of them.
pub open spec fn is_ranking(r: Seq<usize>, keys: Seq<u32>, top_k: usize) -> bool {
    &&& r.len() == if top_k < num_positive(keys, keys.len()) {
        top_k as nat
    } else {
        num_positive(keys, keys.len())
    }
    &&& forall|i: int| 0 <= i < r.len() ==> #[trigger] r[i] < keys.len() && keys[r[i] as int] > 0
    &&& forall|i: int, j: int| 0 <= i < j < r.len() ==> ranks_before(keys, #[trigger] r[i], #[trigger] r[j])
    &&& forall|x: usize|
        x < keys.len() && keys[x as int] > 0 && !r.contains(x) ==> forall|i: int|
            0 <= i < r.len() ==> ranks_before(keys, #[trigger] r[i], x)
}

/// Ranks documents by their keys: the documents with a positive key, by
/// decreasing key and, for equal keys, in document order, at most `top_k`.
pub fn rank(keys: &Vec<u32>, top_k: usize) -> (r: Vec<usize>)
    ensures
        is_ranking(r@, keys@, top_k),
{
    let n = keys.len();
    let mut order: Vec<usize> = Vec::new();
    let mut i: usize = 0;
    while i < n
        invariant
            n == keys@.len(),
            i <= n,
            order@.len() == num_positive(keys@, i as nat),
            forall|a: int| 0 <= a < order@.len() ==> #[trigger] order@[a] < i && keys@[order@[a] as int] > 0,
            forall|a: int, b: int|
                0 <= a < b < order@.len() ==> ranks_before(keys@, #[trigger] order@[a], #[trigger] order@[b]),
            forall|x: usize| x < i && keys@[x as int] > 0 ==> order@.contains(x),
        decreases n - i,
    {
        let ki = keys[i];
        if ki > 0 {
            let mut p: usize = 0;
            while p < order.len() && keys[order[p]] >= ki
                invariant
                    p <= order@.len(),
                    n == keys@.len(),
                    i < n,
                    ki == keys@[i as int],
                    forall|a: int| 0 <= a < order@.len() ==> #[trigger] order@[a] < i,
                    forall|a: int| 0 <= a < p ==> keys@[#[trigger] order@[a] as int] >= ki,
                decreases order@.len() - p,
            {
                p = p + 1;
            }
            let ghost old_order = order@;
            order.insert(p, i);
            proof {
                assert(order@ == old_order.insert(p as int, i));
                assert forall|a: int, b: int|
                    0 <= a < b < order@.len() implies ranks_before(
                    keys@,
                    #[trigger] order@[a],
                    #[trigger] order@[b],
                ) by {
                    if b < p {
                        assert(order@[a] == old_order[a] && order@[b] == old_order[b]);
                    } else if b == p {
                        assert(order@[a] == old_order[a]);
                    } else if a == p {
                        assert(order@[b] == old_order[b - 1]);
                        assert(keys@[old_order[p as int] as int] < ki);
                        if b - 1 > p {
                            assert(ranks_before(keys@, old_order[p as int], old_order[b - 1]));
                        }
                    } else if a < p {
                        assert(order@[a] == old_order[a] && order@[b] == old_order[b - 1]);
                    } else {
                        assert(order@[a] == old_order[a - 1] && order@[b] == old_order[b - 1]);
                    }
                }
                assert forall|x: usize| x < i + 1 && keys@[x as int] > 0 implies order@.contains(x) by {
                    if x == i {
                        assert(order@[p as int] == i);
                    } else {
                        assert(x < i);
                        assert(old_order.contains(x));
                        let a = choose|a: int| 0 <= a < old_order.len() && old_order[a] == x;
                        if a < p {
                            assert(order@[a] == x);
                        } else {
                            assert(order@[a + 1] == x);
                        }
                    }
                }
            }
        }
        i = i + 1;
    }
    proof {
        assert forall|a: int, b: int| 0 <= a < b < order@.len() implies order@[a] != order@[b] by {
            assert(ranks_before(keys@, order@[a], order@[b]));
        }
    }
    let ghost full = order@;
    if order.len() > top_k {
        order.truncate(top_k);
    }
    proof {
        assert(order@ == full.take(order@.len() as int));
        assert forall|x: usize| x < keys@.len() && keys@[x as int] > 0 && !order@.contains(x) implies forall|
            a: int,
        | 0 <= a < order@.len() ==> ranks_before(keys@, #[trigger] order@[a], x) by {
            assert(x < n);
            assert(full.contains(x));
            let b = choose|b: int| 0 <= b < full.len() && full[b] == x;
            if b < order@.len() {
                assert(order@[b] == x);
            }
            assert forall|a: int| 0 <= a < order@.len() implies ranks_before(keys@, #[trigger] order@[a], x) by {
                assert(full[a] == order@[a]);
            }
        }
    }
    order
}

// ---------------------------------------------------------------------------
// Laws
// ---------------------------------------------------------------------------

/// The postings of a token list exactly the documents that hold it, each
/// once, in increasing order, with the number of times it holds the token.
pub proof fn law_postings_exact(docs: Seq<Seq<Seq<char>>>, t: Seq<char>, n: nat)
    requires
        n <= docs.len(),
        n <= usize::MAX,
        forall|d: int| 0 <= d < n ==> (#[trigger] docs[d]).len() <= usize::MAX,
    ensures
        ({
            let p = postings_of(docs, t, n);
            &&& forall|i: int|
                0 <= i < p.len() ==> (#[trigger] p[i]).0 < n && p[i].1 == count_in(docs[p[i].0 as int], t)
                    && p[i].1 > 0
            &&& forall|i: int, j: int| 0 <= i < j < p.len() ==> (#[trigger] p[i]).0 < (#[trigger] p[j]).0
            &&& forall|d: int| 0 <= d < n && (#[trigger] docs[d]).contains(t) ==> exists|i: int|
                0 <= i < p.len() && (#[trigger] p[i]).0 == d
        }),
    decreases n,
{
    if n > 0 {
        law_postings_exact(docs, t, (n - 1) as nat);
        let prev = postings_of(docs, t, (n - 1) as nat);
        let p = postings_of(docs, t, n);
        let c = count_in(docs[n - 1], t);
        lemma_count_bound(docs[n - 1], t);
        if c > 0 {
            assert(p == prev.push(((n - 1) as usize, c as usize)));
        } else {
            assert(p == prev);
        }
        assert forall|d: int| 0 <= d < n && (#[trigger] docs[d]).contains(t) implies exists|i: int|
            0 <= i < p.len() && (#[trigger] p[i]).0 == d by {
            if d == n - 1 {
                lemma_count_pos(docs[d], t);
                assert(p[prev.len() as int].0 == d);
            } else {
                let i = choose|i: int| 0 <= i < prev.len() && (#[trigger] prev[i]).0 == d;
                assert(p[i] == prev[i]);
            }
        }
    }
}

/// The documents that a search scores are exactly those that hold some
/// token of the query.
pub proof fn law_query_postings_cover(docs: Seq<Seq<Seq<char>>>, q: Seq<Seq<char>>, d: int)
    requires
        docs.len() <= usize::MAX,
        forall|e: int| 0 <= e < docs.len() ==> (#[trigger] docs[e]).len() <= usize::MAX,
    ensures
        (exists|k: int, i: int|
            0 <= k < query_postings(docs, q).len() && 0 <= i < query_postings(docs, q)[k].len()
                && (#[trigger] query_postings(docs, q)[k][i]).0 == d) <==> (0 <= d < docs.len()
            && exists|j: int| 0 <= j < q.len() && docs[d].contains(#[trigger] q[j])),
    decreases q.len(),
{
    if q.len() > 0 {
        law_query_postings_cover(docs, q.drop_last(), d);
        law_postings_exact(docs, q.last(), docs.len());
        let prev = query_postings(docs, q.drop_last());
        let p = postings_of(docs, q.last(), docs.len());
        let qp = query_postings(docs, q);
        if p.len() > 0 {
            assert(qp == prev.push(p));
        } else {
            assert(qp == prev);
        }
        if exists|k: int, i: int| 0 <= k < qp.len() && 0 <= i < qp[k].len() && (#[trigger] qp[k][i]).0 == d {
            let (k, i) = choose|k: int, i: int| 0 <= k < qp.len() && 0 <= i < qp[k].len() && (#[trigger] qp[k][i]).0 == d;
            if k < prev.len() {
                assert(prev[k][i].0 == d);
                let j = choose|j: int| 0 <= j < q.drop_last().len() && docs[d].contains(#[trigger] q.drop_last()[j]);
                assert(q[j] == q.drop_last()[j]);
            } else {
                assert(qp[k] == p);
                assert(p[i].0 == d);
                lemma_count_pos_contains(docs[d], q.last());
                assert(q[q.len() - 1] == q.last());
            }
        }
        if 0 <= d < docs.len() && exists|j: int| 0 <= j < q.len() && docs[d].contains(#[trigger] q[j]) {
            let j = choose|j: int| 0 <= j < q.len() && docs[d].contains(#[trigger] q[j]);
            if j < q.len() - 1 {
                assert(q.drop_last()[j] == q[j]);
                let (k, i) = choose|k: int, i: int|
                    0 <= k < prev.len() && 0 <= i < prev[k].len() && (#[trigger] prev[k][i]).0 == d;
                assert(qp[k] == prev[k]);
            } else {
                assert(docs[d].contains(q.last()));
                let i = choose|i: int| 0 <= i < p.len() && (#[trigger] p[i]).0 == d;
                assert(qp[prev.len() as int] == p);
                assert(qp[prev.len() as int][i].0 == d);
            }
        }
    }
}

proof fn lemma_count_pos_contains(s: Seq<Seq<char>>, t: Seq<char>)
    requires
        count_in(s, t) > 0,
    ensures
        s.contains(t),
{
    if !s.contains(t) {
        lemma_count_zero_when_absent(s, t);
    }
}

/// The first result has the highest key of all matching documents: results
/// come sorted by score, highest first.
pub proof fn law_first_result_scores_highest(r: Seq<usize>, keys: Seq<u32>, top_k: usize)
    requires
        is_ranking(r, keys, top_k),
        r.len() > 0,
    ensures
        forall|x: usize| x < keys.len() && keys[x as int] > 0 ==> keys[r[0] as int] >= #[trigger] keys[x as int],
{
    assert forall|x: usize| x < keys.len() && keys[x as int] > 0 implies keys[r[0] as int] >= #[trigger] keys[x as int] by {
        if r.contains(x) {
            let i = choose|i: int| 0 <= i < r.len() && r[i] == x;
            if i > 0 {
                assert(ranks_before(keys, r[0], r[i]));
            }
        } else {
            assert(ranks_before(keys, r[0], x));
        }
    }
}

proof fn lemma_rankings_agree(r1: Seq<usize>, r2: Seq<usize>, keys: Seq<u32>, k1: usize, k2: usize, i: int)
    requires
        is_ranking(r1, keys, k1),
        is_ranking(r2, keys, k2),
        0 <= i < r1.len(),
        i < r2.len(),
    ensures
        forall|j: int| 0 <= j <= i ==> r1[j] == r2[j],
    decreases i,
{
    if i > 0 {
        lemma_rankings_agree(r1, r2, keys, k1, k2, i - 1);
    }
    let a = r1[i];
    let b = r2[i];
    if a != b {
        assert(r1[i] < keys.len() && keys[r1[i] as int] > 0);
        assert(r2[i] < keys.len() && keys[r2[i] as int] > 0);
        if ranks_before(keys, a, b) {
            if r2.contains(a) {
                let j = choose|j: int| 0 <= j < r2.len() && r2[j] == a;
                if j < i {
                    assert(r1[j] == r2[j]);
                    assert(ranks_before(keys, r1[j], r1[i]));
                } else {
                    assert(j > i);
                    assert(ranks_before(keys, r2[i], r2[j]));
                }
            } else {
                assert(ranks_before(keys, r2[i], a));
            }
        } else {
            assert(ranks_before(keys, b, a));
            if r1.contains(b) {
                let j = choose|j: int| 0 <= j < r1.len() && r1[j] == b;
                if j < i {
                    assert(r1[j] == r2[j]);
                    assert(ranks_before(keys, r2[j], r2[i]));
                } else {
                    assert(j > i);
                    assert(ranks_before(keys, r1[i], r1[j]));
                }
            } else {
                assert(ranks_before(keys, r1[i], b));
            }
        }
    }
}

/// A larger `top_k` only appends results: the ranking for `k1` is the
/// beginning of the ranking for any `k2 >= k1`, as long as that allows.
pub proof fn law_rank_prefix(r1: Seq<usize>, r2: Seq<usize>, keys: Seq<u32>, k1: usize, k2: usize)
    requires
        is_ranking(r1, keys, k1),
        is_ranking(r2, keys, k2),
        k1 <= k2,
    ensures
        r1.len() == if k1 < r2.len() {
            k1 as nat
        } else {
            r2.len()
        },
        r1 == r2.take(r1.len() as int),
{
    if r1.len() > 0 {
        lemma_rankings_agree(r1, r2, keys, k1, k2, r1.len() - 1);
    }
    assert(r1 =~= r2.take(r1.len() as int));
}

} // verus!

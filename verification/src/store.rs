//! The retrieval store: an incrementally growing, ordered collection of
//! content fragments with lexical search and token-budgeted context
//! assembly.
//!
//! Ids are unique within a store and insertion order is preserved; ranked
//! search breaks score ties by that order.  Persistence (one JSON file,
//! read at open and rewritten on every mutation) is the caller's part:
//! [`RAGStore::with_documents`] takes the loaded fragments, and
//! [`RAGStore::add_document`] reports whether the store changed and a
//! rewrite is due.

use vstd::prelude::*;
use vstd::string::*;
use crate::text::{
    byte_len, contains_seq, contains_str, lower_of, split_ws, str_eq, split_whitespace_vec,
    to_lowercase_str,
};

verus! {

/// Where a fragment came from and what kind it is.
#[derive(Debug)]
pub struct DocumentMetadata {
    pub file_id: String,
    pub page_number: u32,
    pub chunk_index: u32,
    /// One of `knowledge`, `example`, `exercise`; other values are
    /// allowed and rank lowest in search.
    pub doc_type: String,
    pub chapter: String,
    pub section: String,
}

/// A stored unit of text plus metadata.
#[derive(Debug)]
pub struct Document {
    pub id: String,
    pub content: String,
    pub metadata: DocumentMetadata,
}

/// The mathematical content of a [`DocumentMetadata`].
pub struct DocumentMetadataView {
    pub file_id: Seq<char>,
    pub page_number: u32,
    pub chunk_index: u32,
    pub doc_type: Seq<char>,
    pub chapter: Seq<char>,
    pub section: Seq<char>,
}

/// The mathematical content of a [`Document`].
pub struct DocumentView {
    pub id: Seq<char>,
    pub content: Seq<char>,
    pub metadata: DocumentMetadataView,
}

impl View for DocumentMetadata {
    type V = DocumentMetadataView;

    open spec fn view(&self) -> DocumentMetadataView {
        DocumentMetadataView {
            file_id: self.file_id@,
            page_number: self.page_number,
            chunk_index: self.chunk_index,
            doc_type: self.doc_type@,
            chapter: self.chapter@,
            section: self.section@,
        }
    }
}

impl View for Document {
    type V = DocumentView;

    open spec fn view(&self) -> DocumentView {
        DocumentView { id: self.id@, content: self.content@, metadata: self.metadata@ }
    }
}

/// The views of a sequence of documents.
pub open spec fn doc_views(v: Seq<Document>) -> Seq<DocumentView> {
    v.map_values(|d: Document| d@)
}

impl DocumentMetadata {
    /// A field-for-field copy.
    pub fn duplicate(&self) -> (r: DocumentMetadata)
        ensures
            r@ == self@,
    {
        DocumentMetadata {
            file_id: self.file_id.clone(),
            page_number: self.page_number,
            chunk_index: self.chunk_index,
            doc_type: self.doc_type.clone(),
            chapter: self.chapter.clone(),
            section: self.section.clone(),
        }
    }
}

impl Document {
    /// A field-for-field copy.
    pub fn duplicate(&self) -> (r: Document)
        ensures
            r@ == self@,
    {
        Document {
            id: self.id.clone(),
            content: self.content.clone(),
            metadata: self.metadata.duplicate(),
        }
    }
}

/// Some document in `docs` already carries the id `id`.
pub open spec fn has_doc_id(docs: Seq<DocumentView>, id: Seq<char>) -> bool {
    exists|i: int| 0 <= i < docs.len() && #[trigger] docs[i].id == id
}

/// What adding one document does: nothing when its id is taken, an
/// append otherwise.
pub open spec fn add_doc_model(docs: Seq<DocumentView>, d: DocumentView) -> Seq<DocumentView> {
    if has_doc_id(docs, d.id) {
        docs
    } else {
        docs.push(d)
    }
}

/// What adding a batch does, first document first.
pub open spec fn add_docs_model(docs: Seq<DocumentView>, ds: Seq<DocumentView>) -> Seq<
    DocumentView,
>
    decreases ds.len(),
{
    if ds.len() == 0 {
        docs
    } else {
        add_docs_model(add_doc_model(docs, ds[0]), ds.drop_first())
    }
}

/// Adding a document is idempotent: once its id is in the store,
/// adding it again changes nothing.
pub proof fn lemma_add_document_idempotent(docs: Seq<DocumentView>, d: DocumentView)
    ensures
        add_doc_model(add_doc_model(docs, d), d) == add_doc_model(docs, d),
{
    if !has_doc_id(docs, d.id) {
        let pushed = docs.push(d);
        assert(pushed[docs.len() as int].id == d.id);
        assert(has_doc_id(pushed, d.id));
    }
}

/// The documents of `docs` whose `doc_type` is `t`, in store order.
pub open spec fn by_type(docs: Seq<DocumentView>, t: Seq<char>) -> Seq<DocumentView>
    decreases docs.len(),
{
    if docs.len() == 0 {
        Seq::empty()
    } else {
        let rest = by_type(docs.drop_last(), t);
        if docs.last().metadata.doc_type == t {
            rest.push(docs.last())
        } else {
            rest
        }
    }
}

/// The documents of `docs` whose `chapter` is `c`, in store order.
pub open spec fn by_chapter(docs: Seq<DocumentView>, c: Seq<char>) -> Seq<DocumentView>
    decreases docs.len(),
{
    if docs.len() == 0 {
        Seq::empty()
    } else {
        let rest = by_chapter(docs.drop_last(), c);
        if docs.last().metadata.chapter == c {
            rest.push(docs.last())
        } else {
            rest
        }
    }
}

/// A ranked search hit.  Scores are kept in tenths so that the fixed
/// type weights stay integral: a document scores ten points per matched
/// query term, times 1.5 for `example`, 1.2 for `knowledge`, 1.0 for
/// `exercise` and 0.8 for anything else.
#[derive(Debug)]
pub struct SearchResult {
    pub document: Document,
    pub score: u128,
}

/// The mathematical content of a [`SearchResult`].
pub struct RankedDoc {
    pub doc: DocumentView,
    pub score: int,
}

impl View for SearchResult {
    type V = RankedDoc;

    open spec fn view(&self) -> RankedDoc {
        RankedDoc { doc: self.document@, score: self.score as int }
    }
}

/// The views of a sequence of search results.
pub open spec fn result_views(v: Seq<SearchResult>) -> Seq<RankedDoc> {
    v.map_values(|r: SearchResult| r@)
}

/// The score weight of a document type, in tenths.
pub open spec fn type_weight(t: Seq<char>) -> int {
    if t == "example"@ {
        15
    } else if t == "knowledge"@ {
        12
    } else if t == "exercise"@ {
        10
    } else {
        8
    }
}

/// How many of `terms` occur in `c` as substrings.
pub open spec fn term_matches(c: Seq<char>, terms: Seq<Seq<char>>) -> int
    decreases terms.len(),
{
    if terms.len() == 0 {
        0
    } else {
        term_matches(c, terms.drop_last()) + if contains_seq(c, terms.last()) {
            1int
        } else {
            0int
        }
    }
}

/// The score of one document for the given lowercased query terms: ten
/// points per term occurring in the lowercased content, times the type
/// weight.
pub open spec fn doc_score(d: DocumentView, terms: Seq<Seq<char>>) -> int {
    term_matches(lower_of(d.content), terms) * type_weight(d.metadata.doc_type)
}

/// The scored documents in store order, zero scores dropped.
pub open spec fn ranked(docs: Seq<DocumentView>, terms: Seq<Seq<char>>) -> Seq<RankedDoc>
    decreases docs.len(),
{
    if docs.len() == 0 {
        Seq::empty()
    } else {
        let rest = ranked(docs.drop_last(), terms);
        let sc = doc_score(docs.last(), terms);
        if sc > 0 {
            rest.push(RankedDoc { doc: docs.last(), score: sc })
        } else {
            rest
        }
    }
}

/// Inserts `x` after every element scoring at least `x.score`, so that
/// equal scores keep their earlier-first order.
pub open spec fn insert_desc(s: Seq<RankedDoc>, x: RankedDoc) -> Seq<RankedDoc>
    decreases s.len(),
{
    if s.len() == 0 {
        seq![x]
    } else if s[0].score >= x.score {
        seq![s[0]] + insert_desc(s.drop_first(), x)
    } else {
        seq![x] + s
    }
}

/// Sorts by score, descending, keeping the original order of equal
/// scores (a stable insertion sort).
pub open spec fn sort_desc(s: Seq<RankedDoc>) -> Seq<RankedDoc>
    decreases s.len(),
{
    if s.len() == 0 {
        Seq::empty()
    } else {
        insert_desc(sort_desc(s.drop_last()), s.last())
    }
}

/// Scores are non-increasing.
pub open spec fn sorted_desc(s: Seq<RankedDoc>) -> bool {
    forall|i: int, j: int| 0 <= i < j < s.len() ==> #[trigger] s[i].score >= #[trigger] s[j].score
}

/// What `search` returns: the positive-scoring documents, sorted by
/// score descending with ties in store order, cut to the first `top_k`.
pub open spec fn search_model(docs: Seq<DocumentView>, query_low: Seq<char>, top_k: int) -> Seq<
    RankedDoc,
> {
    let all = sort_desc(ranked(docs, split_ws(query_low)));
    if top_k <= all.len() {
        all.take(top_k)
    } else {
        all
    }
}

/// The line a search hit contributes to a context: its type in
/// lenticular brackets, its chapter (when present) in fullwidth
/// parentheses, then its content.
pub open spec fn entry_of(d: DocumentView) -> Seq<char> {
    "【"@ + d.metadata.doc_type + "】"@ + (if d.metadata.chapter.len() > 0 {
        "（"@ + d.metadata.chapter + "）"@
    } else {
        Seq::empty()
    }) + "\n"@ + d.content + "\n\n"@
}

/// What `build_context` returns for the ranked hits `rs`: entries are
/// appended in rank order, each costing `byte_len/4` of the token
/// budget, and assembly stops at the first entry that would overrun
/// `max_tokens` — the candidate is excluded whole, never truncated.
pub open spec fn context_model(rs: Seq<RankedDoc>, max_tokens: int, used: int) -> Seq<char>
    decreases rs.len(),
{
    if rs.len() == 0 {
        Seq::empty()
    } else {
        let e = entry_of(rs[0].doc);
        let t = byte_len(e) / 4;
        if used + t > max_tokens {
            Seq::empty()
        } else {
            e + context_model(rs.drop_first(), max_tokens, used + t)
        }
    }
}

/// The running token estimate after assembling a context from `rs`.
pub open spec fn context_estimate(rs: Seq<RankedDoc>, max_tokens: int, used: int) -> int
    decreases rs.len(),
{
    if rs.len() == 0 {
        used
    } else {
        let t = byte_len(entry_of(rs[0].doc)) / 4;
        if used + t > max_tokens {
            used
        } else {
            context_estimate(rs.drop_first(), max_tokens, used + t)
        }
    }
}

proof fn lemma_context_estimate_bounded(rs: Seq<RankedDoc>, max_tokens: int, used: int)
    requires
        used <= max_tokens,
    ensures
        context_estimate(rs, max_tokens, used) <= max_tokens,
    decreases rs.len(),
{
    if rs.len() > 0 {
        let t = byte_len(entry_of(rs[0].doc)) / 4;
        if used + t <= max_tokens {
            lemma_context_estimate_bounded(rs.drop_first(), max_tokens, used + t);
        }
    }
}

/// The context builder never overruns its budget: the `length/4` token
/// estimate of what `build_context` assembles stays within `max_tokens`.
pub proof fn lemma_build_context_within_budget(
    docs: Seq<DocumentView>,
    query_low: Seq<char>,
    max_tokens: int,
)
    requires
        0 <= max_tokens,
    ensures
        context_estimate(search_model(docs, query_low, 10), max_tokens, 0) <= max_tokens,
{
    lemma_context_estimate_bounded(search_model(docs, query_low, 10), max_tokens, 0);
}

proof fn lemma_insert_desc_at(s: Seq<RankedDoc>, x: RankedDoc, j: int)
    requires
        0 <= j <= s.len(),
        forall|k: int| 0 <= k < j ==> #[trigger] s[k].score >= x.score,
        j < s.len() ==> s[j].score < x.score,
    ensures
        insert_desc(s, x) == s.take(j) + seq![x] + s.skip(j),
    decreases j,
{
    if j == 0 {
        if s.len() == 0 {
            assert(insert_desc(s, x) =~= s.take(0) + seq![x] + s.skip(0));
        } else {
            assert(s[0].score < x.score);
            assert(insert_desc(s, x) =~= s.take(0) + seq![x] + s.skip(0));
        }
    } else {
        assert(s[0].score >= x.score);
        let rest = s.drop_first();
        assert(forall|k: int| 0 <= k < j - 1 ==> #[trigger] rest[k].score >= x.score) by {
            assert(forall|k: int| 0 <= k < j - 1 ==> #[trigger] rest[k] == s[k + 1]);
        }
        assert(j - 1 < rest.len() ==> rest[j - 1].score < x.score);
        lemma_insert_desc_at(rest, x, j - 1);
        assert(seq![s[0]] + (rest.take(j - 1) + seq![x] + rest.skip(j - 1)) =~= s.take(j) + seq![
            x,
        ] + s.skip(j));
    }
}

proof fn lemma_insert_desc_sorted(s: Seq<RankedDoc>, x: RankedDoc)
    requires
        sorted_desc(s),
    ensures
        sorted_desc(insert_desc(s, x)),
        insert_desc(s, x).len() == s.len() + 1,
        forall|i: int|
            0 <= i < insert_desc(s, x).len() ==> (#[trigger] insert_desc(s, x)[i] == x
                || exists|k: int| 0 <= k < s.len() && insert_desc(s, x)[i] == #[trigger] s[k]),
    decreases s.len(),
{
    if s.len() == 0 {
    } else if s[0].score >= x.score {
        let rest = s.drop_first();
        assert(sorted_desc(rest)) by {
            assert(forall|k: int| 0 <= k < rest.len() ==> #[trigger] rest[k] == s[k + 1]);
        }
        lemma_insert_desc_sorted(rest, x);
        let r = seq![s[0]] + insert_desc(rest, x);
        assert forall|i: int, j: int| 0 <= i < j < r.len() implies (#[trigger] r[i].score) >= (
        #[trigger] r[j].score) by {
            if i == 0 {
                // every element of the tail is x or some s[k] with k >= 1
                assert(r[j] == insert_desc(rest, x)[j - 1]);
                if insert_desc(rest, x)[j - 1] == x {
                } else {
                    let k = choose|k: int|
                        0 <= k < rest.len() && insert_desc(rest, x)[j - 1] == #[trigger] rest[k];
                    assert(rest[k] == s[k + 1]);
                }
            } else {
                assert(r[i] == insert_desc(rest, x)[i - 1]);
                assert(r[j] == insert_desc(rest, x)[j - 1]);
            }
        }
        assert forall|i: int| 0 <= i < r.len() implies (#[trigger] r[i] == x || exists|k: int|
            0 <= k < s.len() && r[i] == #[trigger] s[k]) by {
            if i == 0 {
                assert(r[0] == s[0]);
            } else if insert_desc(rest, x)[i - 1] == x {
            } else {
                let k = choose|k: int|
                    0 <= k < rest.len() && insert_desc(rest, x)[i - 1] == #[trigger] rest[k];
                assert(rest[k] == s[k + 1]);
                assert(r[i] == s[k + 1]);
            }
        }
    } else {
        let r = seq![x] + s;
        assert forall|i: int, j: int| 0 <= i < j < r.len() implies (#[trigger] r[i].score) >= (
        #[trigger] r[j].score) by {
            if i == 0 {
                assert(r[j] == s[j - 1]);
                if j - 1 > 0 {
                    assert(s[0].score >= s[j - 1].score);
                }
            } else {
                assert(r[i] == s[i - 1] && r[j] == s[j - 1]);
            }
        }
        assert forall|i: int| 0 <= i < r.len() implies (#[trigger] r[i] == x || exists|k: int|
            0 <= k < s.len() && r[i] == #[trigger] s[k]) by {
            if i > 0 {
                assert(r[i] == s[i - 1]);
            }
        }
    }
}

proof fn lemma_sort_desc_sorted(s: Seq<RankedDoc>)
    ensures
        sorted_desc(sort_desc(s)),
        sort_desc(s).len() == s.len(),
        forall|i: int|
            0 <= i < sort_desc(s).len() ==> exists|k: int|
                0 <= k < s.len() && #[trigger] sort_desc(s)[i] == s[k],
    decreases s.len(),
{
    if s.len() > 0 {
        let rest = s.drop_last();
        lemma_sort_desc_sorted(rest);
        lemma_insert_desc_sorted(sort_desc(rest), s.last());
        let r = insert_desc(sort_desc(rest), s.last());
        assert forall|i: int| 0 <= i < r.len() implies exists|k: int|
            0 <= k < s.len() && #[trigger] r[i] == s[k] by {
            if r[i] == s.last() {
                assert(r[i] == s[s.len() - 1]);
            } else {
                let m = choose|m: int|
                    0 <= m < sort_desc(rest).len() && r[i] == #[trigger] sort_desc(rest)[m];
                let k = choose|k: int|
                    0 <= k < rest.len() && #[trigger] sort_desc(rest)[m] == rest[k];
                assert(rest[k] == s[k]);
            }
        }
    }
}

proof fn lemma_ranked_positive(docs: Seq<DocumentView>, terms: Seq<Seq<char>>)
    ensures
        forall|i: int| 0 <= i < ranked(docs, terms).len() ==> #[trigger] ranked(
            docs,
            terms,
        )[i].score > 0,
    decreases docs.len(),
{
    if docs.len() > 0 {
        lemma_ranked_positive(docs.drop_last(), terms);
        let rest = ranked(docs.drop_last(), terms);
        let sc = doc_score(docs.last(), terms);
        assert forall|i: int| 0 <= i < ranked(docs, terms).len() implies (#[trigger] ranked(
            docs,
            terms,
        )[i].score) > 0 by {
            if sc > 0 {
                if i < rest.len() {
                    assert(ranked(docs, terms)[i] == rest[i]);
                } else {
                    assert(ranked(docs, terms)[i].score == sc);
                }
            } else {
                assert(ranked(docs, terms)[i] == rest[i]);
            }
        }
    }
}

/// The retrieval store: an ordered sequence of documents with unique ids.
pub struct RAGStore {
    documents: Vec<Document>,
}

impl View for RAGStore {
    type V = Seq<DocumentView>;

    closed spec fn view(&self) -> Seq<DocumentView> {
        doc_views(self.documents@)
    }
}

impl RAGStore {
    /// Ids are pairwise distinct.
    pub open spec fn wf(&self) -> bool {
        forall|i: int, j: int|
            0 <= i < j < self@.len() ==> #[trigger] self@[i].id != #[trigger] self@[j].id
    }

    /// An empty store.
    pub fn new() -> (r: RAGStore)
        ensures
            r@ =~= Seq::<DocumentView>::empty(),
            r.wf(),
    {
        let r = RAGStore { documents: Vec::new() };
        proof {
            assert(r@ =~= Seq::<DocumentView>::empty());
        }
        r
    }

    /// A store over previously persisted fragments, first deduplicated
    /// by id as loading through [`Self::add_document`] would.
    pub fn with_documents(docs: Vec<Document>) -> (r: RAGStore)
        ensures
            r@ == add_docs_model(Seq::empty(), doc_views(docs@)),
            r.wf(),
    {
        let mut r = RAGStore::new();
        r.add_documents(docs);
        proof {
            assert(add_docs_model(Seq::<DocumentView>::empty(), doc_views(docs@)) == r@);
        }
        r
    }

    /// Whether some stored document carries the id `id`.
    pub fn contains_id(&self, id: &str) -> (r: bool)
        ensures
            r == has_doc_id(self@, id@),
    {
        let n = self.documents.len();
        let mut i: usize = 0;
        while i < n
            invariant
                0 <= i <= n,
                n == self@.len(),
                forall|j: int| 0 <= j < i ==> #[trigger] self@[j].id != id@,
            decreases n - i,
        {
            if str_eq(self.documents[i].id.as_str(), id) {
                proof {
                    assert(self@[i as int].id == id@);
                }
                return true;
            }
            i += 1;
        }
        false
    }

    /// Appends `doc` unless its id is already present; reports whether
    /// the store changed (and its persisted copy is due for a rewrite).
    pub fn add_document(&mut self, doc: Document) -> (added: bool)
        requires
            old(self).wf(),
        ensures
            added == !has_doc_id(old(self)@, doc@.id),
            final(self)@ == add_doc_model(old(self)@, doc@),
            final(self).wf(),
    {
        if self.contains_id(doc.id.as_str()) {
            false
        } else {
            let ghost old_view = self@;
            self.documents.push(doc);
            proof {
                assert(self@ =~= old_view.push(self.documents@.last()@));
                assert forall|i: int, j: int|
                    0 <= i < j < self@.len() implies (#[trigger] self@[i].id) != (
                #[trigger] self@[j].id) by {
                    if j < self@.len() - 1 {
                        assert(self@[i] == old_view[i] && self@[j] == old_view[j]);
                    } else {
                        assert(self@[i] == old_view[i]);
                        assert(!has_doc_id(old_view, self@[j].id));
                    }
                }
            }
            true
        }
    }

    /// Adds each document in order, skipping those whose id is taken.
    pub fn add_documents(&mut self, docs: Vec<Document>) -> (added: usize)
        requires
            old(self).wf(),
        ensures
            final(self)@ == add_docs_model(old(self)@, doc_views(docs@)),
            final(self).wf(),
            added <= docs@.len(),
    {
        let ghost goal = add_docs_model(self@, doc_views(docs@));
        let n = docs.len();
        let mut added: usize = 0;
        let mut docs = docs;
        let ghost all = doc_views(docs@);
        proof {
            assert(doc_views(docs@).skip(0) =~= doc_views(docs@));
        }
        // consume from the front to move each document out only once
        let mut k: usize = 0;
        while k < n
            invariant
                self.wf(),
                0 <= k <= n,
                added <= k,
                n == docs@.len(),
                all == doc_views(docs@),
                goal == add_docs_model(self@, all.skip(k as int)),
            decreases n - k,
        {
            let ghost rest = all.skip(k as int);
            proof {
                assert(rest[0] == docs@[k as int]@);
                assert(rest.drop_first() =~= all.skip(k + 1));
            }
            let d = docs[k].duplicate();
            if self.add_document(d) {
                added += 1;
            }
            k += 1;
        }
        proof {
            assert(all.skip(n as int) =~= Seq::<DocumentView>::empty());
        }
        added
    }

    /// The stored documents whose `doc_type` equals `doc_type`.
    pub fn get_by_type<'a>(&'a self, doc_type: &str) -> (r: Vec<&'a Document>)
        ensures
            doc_views(r@.map_values(|d: &Document| *d)) == by_type(self@, doc_type@),
    {
        let n = self.documents.len();
        let mut out: Vec<&'a Document> = Vec::new();
        let mut i: usize = 0;
        proof {
            assert(doc_views(out@.map_values(|d: &Document| *d)) =~= by_type(
                self@.take(0),
                doc_type@,
            ));
        }
        while i < n
            invariant
                0 <= i <= n,
                n == self@.len(),
                n == self.documents@.len(),
                doc_views(out@.map_values(|d: &Document| *d)) == by_type(
                    self@.take(i as int),
                    doc_type@,
                ),
            decreases n - i,
        {
            let ghost prefix = self@.take(i as int);
            proof {
                assert(self@.take(i + 1).drop_last() =~= prefix);
                assert(self@.take(i + 1).last() == self@[i as int]);
            }
            if str_eq(self.documents[i].metadata.doc_type.as_str(), doc_type) {
                out.push(&self.documents[i]);
                proof {
                    assert(doc_views(out@.map_values(|d: &Document| *d)) =~= doc_views(
                        out@.drop_last().map_values(|d: &Document| *d),
                    ).push(self@[i as int]));
                    assert(out@.drop_last().map_values(|d: &Document| *d) =~= out@.map_values(
                        |d: &Document| *d,
                    ).drop_last());
                }
            }
            i += 1;
        }
        proof {
            assert(self@.take(n as int) =~= self@);
        }
        out
    }

    /// The stored documents whose `chapter` equals `chapter`.
    pub fn get_by_chapter<'a>(&'a self, chapter: &str) -> (r: Vec<&'a Document>)
        ensures
            doc_views(r@.map_values(|d: &Document| *d)) == by_chapter(self@, chapter@),
    {
        let n = self.documents.len();
        let mut out: Vec<&'a Document> = Vec::new();
        let mut i: usize = 0;
        proof {
            assert(doc_views(out@.map_values(|d: &Document| *d)) =~= by_chapter(
                self@.take(0),
                chapter@,
            ));
        }
        while i < n
            invariant
                0 <= i <= n,
                n == self@.len(),
                n == self.documents@.len(),
                doc_views(out@.map_values(|d: &Document| *d)) == by_chapter(
                    self@.take(i as int),
                    chapter@,
                ),
            decreases n - i,
        {
            let ghost prefix = self@.take(i as int);
            proof {
                assert(self@.take(i + 1).drop_last() =~= prefix);
                assert(self@.take(i + 1).last() == self@[i as int]);
            }
            if str_eq(self.documents[i].metadata.chapter.as_str(), chapter) {
                out.push(&self.documents[i]);
                proof {
                    assert(doc_views(out@.map_values(|d: &Document| *d)) =~= doc_views(
                        out@.drop_last().map_values(|d: &Document| *d),
                    ).push(self@[i as int]));
                    assert(out@.drop_last().map_values(|d: &Document| *d) =~= out@.map_values(
                        |d: &Document| *d,
                    ).drop_last());
                }
            }
            i += 1;
        }
        proof {
            assert(self@.take(n as int) =~= self@);
        }
        out
    }

    /// All fragments recorded as worked examples.
    pub fn get_examples<'a>(&'a self) -> (r: Vec<&'a Document>)
        ensures
            doc_views(r@.map_values(|d: &Document| *d)) == by_type(self@, "example"@),
    {
        self.get_by_type("example")
    }

    /// All raw page-text fragments.
    pub fn get_knowledge<'a>(&'a self) -> (r: Vec<&'a Document>)
        ensures
            doc_views(r@.map_values(|d: &Document| *d)) == by_type(self@, "knowledge"@),
    {
        self.get_by_type("knowledge")
    }

    fn type_weight_of(doc_type: &str) -> (w: u128)
        ensures
            w == type_weight(doc_type@),
            8 <= w <= 15,
    {
        if str_eq(doc_type, "example") {
            15
        } else if str_eq(doc_type, "knowledge") {
            12
        } else if str_eq(doc_type, "exercise") {
            10
        } else {
            8
        }
    }

    /// Ranks the stored documents against `query`: the query is lowercased
    /// and split into whitespace-delimited terms, each document scores by
    /// how many terms its lowercased content contains times its type
    /// weight, zero scores are dropped, and the `top_k` best remain,
    /// score ties keeping store order.
    pub fn search(&self, query: &str, top_k: usize) -> (r: Vec<SearchResult>)
        ensures
            result_views(r@) == search_model(self@, lower_of(query@), top_k as int),
            r@.len() <= top_k,
            forall|i: int| 0 <= i < r@.len() ==> (#[trigger] r@[i]).score > 0,
            sorted_desc(result_views(r@)),
    {
        let query_lower = to_lowercase_str(query);
        let terms = split_whitespace_vec(query_lower.as_str());
        let ghost tv = split_ws(lower_of(query@));
        let n = self.documents.len();
        let mut out: Vec<SearchResult> = Vec::new();
        let mut i: usize = 0;
        proof {
            assert(self@.take(0) =~= Seq::<DocumentView>::empty());
            assert(result_views(out@) =~= sort_desc(ranked(self@.take(0), tv)));
        }
        while i < n
            invariant
                0 <= i <= n,
                n == self@.len(),
                n == self.documents@.len(),
                crate::text::str_views(terms@) == tv,
                result_views(out@) == sort_desc(ranked(self@.take(i as int), tv)),
            decreases n - i,
        {
            let ghost prefix = self@.take(i as int);
            proof {
                assert(self@.take(i + 1).drop_last() =~= prefix);
                assert(self@.take(i + 1).last() == self@[i as int]);
            }
            let doc = &self.documents[i];
            let content_lower = to_lowercase_str(doc.content.as_str());
            let ghost c = lower_of(self@[i as int].content);
            let m = terms.len();
            let mut count: usize = 0;
            let mut j: usize = 0;
            proof {
                assert(tv.take(0) =~= Seq::<Seq<char>>::empty());
            }
            while j < m
                invariant
                    0 <= j <= m,
                    count <= j,
                    m == terms@.len(),
                    crate::text::str_views(terms@) == tv,
                    content_lower@ == c,
                    count == term_matches(c, tv.take(j as int)),
                decreases m - j,
            {
                proof {
                    assert(tv.take(j + 1).drop_last() =~= tv.take(j as int));
                    assert(tv.take(j + 1).last() == terms@[j as int]@);
                }
                if contains_str(content_lower.as_str(), terms[j].as_str()) {
                    count += 1;
                }
                j += 1;
            }
            proof {
                assert(tv.take(m as int) =~= tv);
            }
            let w = Self::type_weight_of(doc.metadata.doc_type.as_str());
            proof {
                assert((count as int) * (w as int) <= u128::MAX) by (nonlinear_arith)
                    requires
                        0 <= count <= usize::MAX,
                        0 <= w <= 15,
                ;
            }
            let score: u128 = (count as u128) * w;
            let ghost sc = doc_score(self@[i as int], tv);
            proof {
                assert(sc == score as int);
                if sc > 0 {
                    assert(ranked(self@.take(i + 1), tv) == ranked(prefix, tv).push(
                        RankedDoc { doc: self@[i as int], score: sc },
                    ));
                } else {
                    assert(ranked(self@.take(i + 1), tv) == ranked(prefix, tv));
                }
            }
            if score > 0 {
                let mut pos: usize = 0;
                while pos < out.len() && out[pos].score >= score
                    invariant
                        0 <= pos <= out@.len(),
                        forall|k: int| 0 <= k < pos ==> (#[trigger] out@[k]).score >= score,
                    decreases out@.len() - pos,
                {
                    pos += 1;
                }
                let hit = SearchResult { document: doc.duplicate(), score };
                let ghost old_views = result_views(out@);
                proof {
                    assert(hit@ == RankedDoc { doc: self@[i as int], score: sc });
                    assert(forall|k: int|
                        0 <= k < pos ==> (#[trigger] old_views[k]).score >= hit@.score);
                    assert((pos as int) < old_views.len() ==> old_views[pos as int].score
                        < hit@.score);
                    lemma_insert_desc_at(old_views, hit@, pos as int);
                }
                out.insert(pos, hit);
                proof {
                    assert(result_views(out@) =~= old_views.take(pos as int) + seq![hit@]
                        + old_views.skip(pos as int));
                    assert(ranked(prefix, tv).push(hit@).drop_last() =~= ranked(prefix, tv));
                    assert(sort_desc(ranked(prefix, tv).push(hit@)) == insert_desc(
                        sort_desc(ranked(prefix, tv)),
                        hit@,
                    ));
                }
            }
            i += 1;
        }
        proof {
            assert(self@.take(n as int) =~= self@);
        }
        let ghost all = sort_desc(ranked(self@, tv));
        if out.len() > top_k {
            out.truncate(top_k);
            proof {
                assert(result_views(out@) =~= all.take(top_k as int));
            }
        }
        proof {
            lemma_sort_desc_sorted(ranked(self@, tv));
            lemma_ranked_positive(self@, tv);
            assert(result_views(out@) == search_model(self@, lower_of(query@), top_k as int));
            assert forall|k: int| 0 <= k < out@.len() implies (#[trigger] out@[k]).score > 0 by {
                assert(result_views(out@)[k] == out@[k]@);
                assert(result_views(out@)[k] == all[k]);
                let q = choose|q: int|
                    0 <= q < ranked(self@, tv).len() && #[trigger] all[k] == ranked(self@, tv)[q];
                assert(ranked(self@, tv)[q].score > 0);
            }
            assert forall|a: int, b: int|
                0 <= a < b < result_views(out@).len() implies (
            #[trigger] result_views(out@)[a]).score >= (#[trigger] result_views(out@)[b]).score by {
                assert(result_views(out@)[a] == all[a]);
                assert(result_views(out@)[b] == all[b]);
            }
        }
        out
    }

    fn make_entry(d: &Document) -> (r: String)
        ensures
            r@ == entry_of(d@),
    {
        let mut out = String::new();
        out.append("【");
        out.append(d.metadata.doc_type.as_str());
        out.append("】");
        if !d.metadata.chapter.as_str().is_empty() {
            out.append("（");
            out.append(d.metadata.chapter.as_str());
            out.append("）");
        }
        out.append("\n");
        out.append(d.content.as_str());
        out.append("\n\n");
        proof {
            assert(out@ =~= entry_of(d@));
        }
        out
    }

    /// Assembles a context string from the ten best hits for `query`:
    /// each hit is rendered by type, chapter and content and appended
    /// while the running `length/4` token estimate stays within
    /// `max_tokens`; the first hit that would overrun the budget stops
    /// assembly.
    pub fn build_context(&self, query: &str, max_tokens: usize) -> (r: String)
        ensures
            r@ == context_model(
                search_model(self@, lower_of(query@), 10),
                max_tokens as int,
                0,
            ),
    {
        let results = self.search(query, 10);
        let ghost rs = result_views(results@);
        let ghost goal = context_model(rs, max_tokens as int, 0);
        let mut ctx = String::new();
        let mut used: usize = 0;
        let mut i: usize = 0;
        proof {
            assert(rs.skip(0) =~= rs);
            assert(Seq::<char>::empty() + context_model(rs, max_tokens as int, 0) =~= goal);
        }
        while i < results.len()
            invariant
                0 <= i <= results@.len(),
                used <= max_tokens,
                rs == result_views(results@),
                rs == search_model(self@, lower_of(query@), 10),
                goal == context_model(rs, max_tokens as int, 0),
                goal == ctx@ + context_model(rs.skip(i as int), max_tokens as int, used as int),
            decreases results@.len() - i,
        {
            let ghost rest = rs.skip(i as int);
            proof {
                assert(rest[0] == results@[i as int]@);
                assert(rest.drop_first() =~= rs.skip(i + 1));
            }
            let e = Self::make_entry(&results[i].document);
            let t = e.as_str().len() / 4;
            if t > max_tokens - used {
                proof {
                    assert(context_model(rest, max_tokens as int, used as int)
                        =~= Seq::<char>::empty());
                    assert(ctx@ =~= goal);
                }
                return ctx;
            }
            let ghost old_ctx = ctx@;
            ctx.append(e.as_str());
            used += t;
            i += 1;
            proof {
                assert(ctx@ + context_model(rs.skip(i as int), max_tokens as int, used as int)
                    =~= old_ctx + context_model(rest, max_tokens as int, (used - t) as int));
            }
        }
        proof {
            assert(rs.skip(results@.len() as int) =~= Seq::<RankedDoc>::empty());
            assert(ctx@ =~= goal);
        }
        ctx
    }

    /// Removes every document.
    pub fn clear(&mut self)
        ensures
            final(self)@ =~= Seq::<DocumentView>::empty(),
            final(self).wf(),
    {
        self.documents.clear();
        proof {
            assert(self@ =~= Seq::<DocumentView>::empty());
        }
    }

    /// The stored documents, in insertion order — what a write-through
    /// caller persists after each mutation.
    pub fn documents(&self) -> (r: &Vec<Document>)
        ensures
            doc_views(r@) == self@,
    {
        &self.documents
    }

    /// Number of stored documents.
    pub fn len(&self) -> (r: usize)
        ensures
            r == self@.len(),
    {
        self.documents.len()
    }

    /// Whether the store holds no document.
    pub fn is_empty(&self) -> (r: bool)
        ensures
            r == (self@.len() == 0),
    {
        self.documents.is_empty()
    }
}

} // verus!

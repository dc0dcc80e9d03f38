//! The analysis pipeline: drives one document's run page by page.
//!
//! The run is a state machine.  The caller (who owns the I/O) asks
//! [`AnalysisRun::next_action`] what to do — check the stop flag, fetch a
//! page's text, call the completion provider, persist the snapshot —
//! performs it, and hands the outcome back through the corresponding
//! transition.  Cancellation is cooperative: the stop flag is read only
//! at batch entry and page entry, and a stopped run performs no further
//! mutation and never reaches the snapshot.  Pages are processed in
//! strictly increasing order, so an exercise on page `n` can only
//! retrieve examples inserted from pages up to `n` of the same run.

use vstd::prelude::*;
use vstd::string::*;
use crate::chunker::{TextChunker, para_chunks};
use crate::parser::{
    Question, QuestionView, parse_examples_response, parse_exercises_response, parsed_questions,
    question_views,
};
use crate::registry::AnalysisProgressView;
use crate::store::{
    Document, DocumentMetadata, DocumentMetadataView, DocumentView, RAGStore, add_docs_model,
    context_model, doc_views, search_model,
};
use crate::text::{
    all_space, dec_str, is_blank, lower_of, split_para, str_views, u32_to_dec, usize_to_dec,
};

verus! {

/// Pages per batch: fixed batches of twenty for long documents, one
/// batch spanning everything otherwise.
pub open spec fn spec_batch_size(total: int) -> int {
    if total > 400 {
        20
    } else {
        total
    }
}

/// The last page of the batch starting at `start`.
pub open spec fn batch_end_of(start: int, total: int) -> int {
    if start + spec_batch_size(total) - 1 <= total {
        start + spec_batch_size(total) - 1
    } else {
        total
    }
}

/// The batches from `start` on: contiguous inclusive page ranges.
pub open spec fn batches_from(start: int, total: int) -> Seq<(u32, u32)>
    decreases total - start + 1
        when 1 <= start
{
    if start < 1 || start > total {
        Seq::empty()
    } else {
        seq![(start as u32, batch_end_of(start, total) as u32)] + batches_from(
            batch_end_of(start, total) + 1,
            total,
        )
    }
}

/// The batch plan for a document of `total` pages.
pub open spec fn batches(total: u32) -> Seq<(u32, u32)> {
    batches_from(1, total as int)
}

/// The batch plan, computed: each entry is an inclusive page range.
pub fn batch_ranges(total_pages: u32) -> (r: Vec<(u32, u32)>)
    ensures
        r@ == batches(total_pages),
{
    let total = total_pages as u64;
    let batch_size: u64 = if total_pages > 400 {
        20
    } else {
        total_pages as u64
    };
    let mut out: Vec<(u32, u32)> = Vec::new();
    let mut start: u64 = 1;
    proof {
        assert(out@ + batches_from(1, total_pages as int) =~= batches(total_pages));
    }
    while start <= total
        invariant
            1 <= start <= total + 1,
            total == total_pages as int,
            batch_size == spec_batch_size(total_pages as int),
            batches(total_pages) == out@ + batches_from(start as int, total_pages as int),
        decreases total + 1 - start,
    {
        let end = if total - start >= batch_size {
            start + batch_size - 1
        } else {
            total
        };
        proof {
            assert(end as int == batch_end_of(start as int, total_pages as int));
        }
        out.push((start as u32, end as u32));
        proof {
            assert(out@ =~= out@.drop_last().push((start as u32, end as u32)));
            assert(out@.drop_last() + (seq![(start as u32, end as u32)] + batches_from(
                end as int + 1,
                total_pages as int,
            )) =~= out@ + batches_from(end as int + 1, total_pages as int));
        }
        start = end + 1;
    }
    proof {
        assert(batches_from(start as int, total_pages as int) =~= Seq::<(u32, u32)>::empty());
        assert(out@ + Seq::<(u32, u32)>::empty() =~= out@);
    }
    out
}

proof fn lemma_batches_from(start: int, total: int)
    requires
        1 <= start <= total <= u32::MAX,
    ensures
        batches_from(start, total).len() >= 1,
        batches_from(start, total)[0].0 == start,
        batches_from(start, total).last().1 == total,
        forall|i: int|
            0 <= i < batches_from(start, total).len() ==> {
                let b = #[trigger] batches_from(start, total)[i];
                start <= b.0 <= b.1 <= total && b.1 - b.0 + 1 <= spec_batch_size(total)
            },
        forall|i: int|
            1 <= i < batches_from(start, total).len() ==> (#[trigger] batches_from(
                start,
                total,
            )[i]).0 == batches_from(start, total)[i - 1].1 + 1,
        total > 400 ==> batches_from(start, total).len() == (total - start) / 20 + 1,
    decreases total - start,
{
    let end = batch_end_of(start, total);
    let b = batches_from(start, total);
    if end < total {
        lemma_batches_from(end + 1, total);
        let rest = batches_from(end + 1, total);
        assert(b == seq![(start as u32, end as u32)] + rest);
        assert forall|i: int| 0 <= i < b.len() implies {
            let x = #[trigger] b[i];
            start <= x.0 <= x.1 <= total && x.1 - x.0 + 1 <= spec_batch_size(total)
        } by {
            if i > 0 {
                assert(b[i] == rest[i - 1]);
            }
        }
        assert forall|i: int| 1 <= i < b.len() implies (#[trigger] b[i]).0 == b[i - 1].1 + 1 by {
            if i > 1 {
                assert(b[i] == rest[i - 1] && b[i - 1] == rest[i - 2]);
                assert(rest[i - 1].0 == rest[i - 2].1 + 1);
            } else {
                assert(b[1] == rest[0]);
                assert(rest[0].0 == end + 1);
            }
        }
        if total > 400 {
            assert(end == start + 19);
            assert(rest.len() == (total - start - 20) / 20 + 1);
            assert((total - start - 20) / 20 + 1 == (total - start) / 20) by (nonlinear_arith)
                requires
                    total - start >= 20,
            ;
        }
    } else {
        assert(batches_from(end + 1, total) =~= Seq::<(u32, u32)>::empty());
        assert(b =~= seq![(start as u32, end as u32)]);
        if total > 400 {
            assert(total - start < 20);
            assert((total - start) / 20 == 0) by (nonlinear_arith)
                requires
                    0 <= total - start < 20,
            ;
        }
    }
}

/// Batching partitions the pages: a document of up to 400 pages is one
/// batch spanning all of them; a longer one is split into
/// `ceil(total/20)` batches of at most twenty pages each, covering
/// `[1, total]` in order with no gaps and no overlaps.
pub proof fn lemma_batches_partition(total: u32)
    ensures
        total == 0 ==> batches(total).len() == 0,
        0 < total <= 400 ==> batches(total) =~= seq![(1u32, total)],
        total > 400 ==> batches(total).len() == (total as int + 19) / 20,
        total > 0 ==> batches(total)[0].0 == 1 && batches(total).last().1 == total,
        forall|i: int|
            0 <= i < batches(total).len() ==> {
                let b = #[trigger] batches(total)[i];
                1 <= b.0 <= b.1 <= total && b.1 - b.0 + 1 <= spec_batch_size(total as int)
            },
        forall|i: int|
            1 <= i < batches(total).len() ==> (#[trigger] batches(total)[i]).0 == batches(
                total,
            )[i - 1].1 + 1,
{
    if total > 0 {
        lemma_batches_from(1, total as int);
        if total <= 400 {
            assert(batch_end_of(1, total as int) == total);
            assert(batches_from(total as int + 1, total as int) =~= Seq::<(u32, u32)>::empty());
            assert(batches(total) =~= seq![(1u32, total)]);
        } else {
            assert(batches(total).len() == (total - 1) / 20 + 1);
            assert((total - 1) / 20 + 1 == (total + 19) / 20) by (nonlinear_arith)
                requires
                    total >= 1,
            ;
        }
    }
}

/// Where a run stands, as its contracts speak of it.
pub enum Phase {
    /// Before a batch: the next stop-flag read.
    BatchCheckpoint { batch_start: u32 },
    /// Before a page: the other stop-flag read.
    PageCheckpoint { batch_start: u32, batch_end: u32, page: u32 },
    /// The page's text is being fetched.
    AwaitPageText { batch_start: u32, batch_end: u32, page: u32 },
    /// The example-extraction call for this page is in flight.
    AwaitExamples { batch_start: u32, batch_end: u32, page: u32, page_text: Seq<char> },
    /// The exercise-solving call is in flight, with the context built
    /// from the store after this page's examples went in.
    AwaitExercises {
        batch_start: u32,
        batch_end: u32,
        page: u32,
        page_text: Seq<char>,
        context: Seq<char>,
    },
    /// All pages done: the snapshot write is due.
    AwaitSnapshot,
    Completed,
    Stopped,
    Failed,
}

enum RunPhase {
    BatchCheckpoint { batch_start: u32 },
    PageCheckpoint { batch_start: u32, batch_end: u32, page: u32 },
    AwaitPageText { batch_start: u32, batch_end: u32, page: u32 },
    AwaitExamples { batch_start: u32, batch_end: u32, page: u32, page_text: String },
    AwaitExercises {
        batch_start: u32,
        batch_end: u32,
        page: u32,
        page_text: String,
        context: String,
    },
    AwaitSnapshot,
    Completed,
    Stopped,
    Failed,
}

/// What the caller must do next to move the run along.
#[derive(Debug)]
pub enum RunAction {
    /// Read the registry's stop flag and call `on_checkpoint`.
    CheckStop,
    /// Fetch the page's text and call `provide_page_text`; empty text
    /// means the page has no content.
    FetchPageText { page: u32 },
    /// Run example extraction over the page text and call
    /// `provide_examples_reply` (`None` on a failed call).
    ExtractExamples { page: u32, page_text: String },
    /// Run exercise extraction and solving over the page text with the
    /// retrieval context, and call `provide_exercises_reply`.
    SolveExercises { page: u32, page_text: String, context: String },
    /// Overwrite the result snapshot with `questions`, then call
    /// `on_snapshot_written`.
    PersistSnapshot,
    /// The run is over (completed, stopped or failed); nothing follows.
    Finished,
}

/// A progress record the caller forwards to the session registry.
#[derive(Debug)]
pub struct ProgressUpdate {
    pub status: String,
    pub current_page: u32,
    pub total_pages: u32,
    pub message: String,
    pub questions_found: u32,
}

/// The mathematical content of a [`ProgressUpdate`].
pub struct ProgressUpdateView {
    pub status: Seq<char>,
    pub current_page: u32,
    pub total_pages: u32,
    pub message: Seq<char>,
    pub questions_found: u32,
}

impl View for ProgressUpdate {
    type V = ProgressUpdateView;

    open spec fn view(&self) -> ProgressUpdateView {
        ProgressUpdateView {
            status: self.status@,
            current_page: self.current_page,
            total_pages: self.total_pages,
            message: self.message@,
            questions_found: self.questions_found,
        }
    }
}

/// The wording announced at a batch's entry.
pub open spec fn batch_message(batch_start: u32, batch_end: u32) -> Seq<char> {
    "正在分析第 "@ + dec_str(batch_start as int) + " - "@ + dec_str(batch_end as int) + " 页"@
}

/// The wording announced before a page's extraction calls.
pub open spec fn page_message(page: u32) -> Seq<char> {
    "正在识别第 "@ + dec_str(page as int) + " 页的题目"@
}

/// The update emitted at a batch's entry.
pub open spec fn batch_update(
    batch_start: u32,
    batch_end: u32,
    total: u32,
    found: u32,
) -> ProgressUpdateView {
    ProgressUpdateView {
        status: "analyzing"@,
        current_page: batch_start,
        total_pages: total,
        message: batch_message(batch_start, batch_end),
        questions_found: found,
    }
}

/// The update emitted once a page's text went into the store.
pub open spec fn page_update(page: u32, total: u32, found: u32) -> ProgressUpdateView {
    ProgressUpdateView {
        status: "analyzing"@,
        current_page: page,
        total_pages: total,
        message: page_message(page),
        questions_found: found,
    }
}

/// The knowledge fragment for chunk `idx` of a page.
pub open spec fn knowledge_doc(
    file_id: Seq<char>,
    page: u32,
    idx: int,
    content: Seq<char>,
) -> DocumentView {
    DocumentView {
        id: file_id + "_"@ + dec_str(page as int) + "_"@ + dec_str(idx),
        content: content,
        metadata: DocumentMetadataView {
            file_id: file_id,
            page_number: page,
            chunk_index: idx as u32,
            doc_type: "knowledge"@,
            chapter: Seq::empty(),
            section: Seq::empty(),
        },
    }
}

/// The knowledge fragments of a page's chunks, in chunk order.
pub open spec fn knowledge_docs(
    file_id: Seq<char>,
    page: u32,
    chunks: Seq<Seq<char>>,
) -> Seq<DocumentView> {
    Seq::new(chunks.len(), |i: int| knowledge_doc(file_id, page, i, chunks[i]))
}

/// The example fragment re-inserted for a parsed example question, so
/// later pages can retrieve it: its text and answer concatenated.
pub open spec fn example_doc(q: QuestionView) -> DocumentView {
    DocumentView {
        id: q.id,
        content: "题目："@ + q.question_text + "\n答案："@ + q.answer,
        metadata: DocumentMetadataView {
            file_id: q.file_id,
            page_number: q.page_number,
            chunk_index: 0,
            doc_type: "example"@,
            chapter: q.chapter,
            section: q.section,
        },
    }
}

/// The example fragments of a page's parsed examples, in payload order.
pub open spec fn example_docs(qs: Seq<QuestionView>) -> Seq<DocumentView> {
    Seq::new(qs.len(), |i: int| example_doc(qs[i]))
}

/// Where the run moves after finishing a page: the next page of the
/// batch, the next batch's entry, or the snapshot once the last batch
/// is done.
pub open spec fn advanced(batch_start: u32, batch_end: u32, page: u32, total: u32) -> Phase {
    if page < batch_end {
        Phase::PageCheckpoint { batch_start, batch_end, page: (page + 1) as u32 }
    } else if batch_end >= total {
        Phase::AwaitSnapshot
    } else {
        Phase::BatchCheckpoint { batch_start: (batch_end + 1) as u32 }
    }
}

fn count_u32(n: usize) -> (r: u32)
    ensures
        r == n as u32,
{
    #[verifier::truncate]
    (n as u32)
}

/// One document's analysis run.
pub struct AnalysisRun {
    file_id: String,
    total_pages: u32,
    batch_size: u32,
    model_configured: bool,
    store: RAGStore,
    questions: Vec<Question>,
    phase: RunPhase,
}

impl AnalysisRun {
    /// The document this run analyzes.
    pub closed spec fn file_id_spec(&self) -> Seq<char> {
        self.file_id@
    }

    /// How many pages the document has.
    pub closed spec fn total_pages_spec(&self) -> u32 {
        self.total_pages
    }

    /// Pages per batch.
    pub closed spec fn batch_size_spec(&self) -> u32 {
        self.batch_size
    }

    /// Whether an analysis model is configured; without one the two
    /// extraction calls are skipped.
    pub closed spec fn model_configured_spec(&self) -> bool {
        self.model_configured
    }

    /// The retrieval store's contents.
    pub closed spec fn store_view(&self) -> Seq<DocumentView> {
        self.store@
    }

    /// The questions accumulated so far.
    pub closed spec fn questions_view(&self) -> Seq<QuestionView> {
        question_views(self.questions@)
    }

    /// Where the run stands.
    pub closed spec fn phase_spec(&self) -> Phase {
        match self.phase {
            RunPhase::BatchCheckpoint { batch_start } => Phase::BatchCheckpoint { batch_start },
            RunPhase::PageCheckpoint { batch_start, batch_end, page } => Phase::PageCheckpoint {
                batch_start,
                batch_end,
                page,
            },
            RunPhase::AwaitPageText { batch_start, batch_end, page } => Phase::AwaitPageText {
                batch_start,
                batch_end,
                page,
            },
            RunPhase::AwaitExamples { batch_start, batch_end, page, ref page_text } => {
                Phase::AwaitExamples { batch_start, batch_end, page, page_text: page_text@ }
            },
            RunPhase::AwaitExercises {
                batch_start,
                batch_end,
                page,
                ref page_text,
                ref context,
            } => {
                Phase::AwaitExercises {
                    batch_start,
                    batch_end,
                    page,
                    page_text: page_text@,
                    context: context@,
                }
            },
            RunPhase::AwaitSnapshot => Phase::AwaitSnapshot,
            RunPhase::Completed => Phase::Completed,
            RunPhase::Stopped => Phase::Stopped,
            RunPhase::Failed => Phase::Failed,
        }
    }

    /// The run's fixed parameters agree.
    pub open spec fn same_config(self, other: Self) -> bool {
        &&& self.file_id_spec() == other.file_id_spec()
        &&& self.total_pages_spec() == other.total_pages_spec()
        &&& self.batch_size_spec() == other.batch_size_spec()
        &&& self.model_configured_spec() == other.model_configured_spec()
    }

    /// Store and question list agree.
    pub open spec fn same_data(self, other: Self) -> bool {
        &&& self.store_view() == other.store_view()
        &&& self.questions_view() == other.questions_view()
    }

    /// Batch bounds fit the plan: a page phase lies inside its batch,
    /// whose end is where the plan puts it.
    pub closed spec fn wf(&self) -> bool {
        &&& self.store.wf()
        &&& self.batch_size as int == spec_batch_size(self.total_pages as int)
        &&& match self.phase_spec() {
            Phase::BatchCheckpoint { batch_start } => 1 <= batch_start
                <= self.total_pages,
            Phase::PageCheckpoint { batch_start, batch_end, page } => 1 <= batch_start <= page
                <= batch_end <= self.total_pages && batch_end == batch_end_of(
                batch_start as int,
                self.total_pages as int,
            ),
            Phase::AwaitPageText { batch_start, batch_end, page } => 1 <= batch_start <= page
                <= batch_end <= self.total_pages && batch_end == batch_end_of(
                batch_start as int,
                self.total_pages as int,
            ),
            Phase::AwaitExamples { batch_start, batch_end, page, .. } => 1 <= batch_start <= page
                <= batch_end <= self.total_pages && batch_end == batch_end_of(
                batch_start as int,
                self.total_pages as int,
            ),
            Phase::AwaitExercises { batch_start, batch_end, page, .. } => 1 <= batch_start <= page
                <= batch_end <= self.total_pages && batch_end == batch_end_of(
                batch_start as int,
                self.total_pages as int,
            ),
            _ => true,
        }
    }

    /// The run is over: no transition applies any more.  A stopped run
    /// in particular never reaches `AwaitSnapshot`, so its results are
    /// never persisted.
    pub open spec fn is_terminal(&self) -> bool {
        self.phase_spec() is Completed || self.phase_spec() is Stopped || self.phase_spec()
            is Failed
    }

    /// A fresh run over a document of `total_pages` pages, on a store
    /// loaded by the caller (persisted across runs: re-running a file
    /// without clearing accumulates into the same store).
    pub fn new(file_id: String, total_pages: u32, model_configured: bool, store: RAGStore) -> (r:
        AnalysisRun)
        requires
            store.wf(),
        ensures
            r.wf(),
            r.file_id_spec() == file_id@,
            r.total_pages_spec() == total_pages,
            r.batch_size_spec() as int == spec_batch_size(total_pages as int),
            r.model_configured_spec() == model_configured,
            r.store_view() == store@,
            r.questions_view() =~= Seq::<QuestionView>::empty(),
            r.phase_spec() == if total_pages == 0 {
                Phase::AwaitSnapshot
            } else {
                Phase::BatchCheckpoint { batch_start: 1u32 }
            },
    {
        let batch_size: u32 = if total_pages > 400 {
            20
        } else {
            total_pages
        };
        let phase = if total_pages == 0 {
            RunPhase::AwaitSnapshot
        } else {
            RunPhase::BatchCheckpoint { batch_start: 1 }
        };
        let r = AnalysisRun {
            file_id,
            total_pages,
            batch_size,
            model_configured,
            store,
            questions: Vec::new(),
            phase,
        };
        proof {
            assert(r.questions_view() =~= Seq::<QuestionView>::empty());
        }
        r
    }

    /// What the caller must do next.
    pub fn next_action(&self) -> (a: RunAction)
        ensures
            match self.phase_spec() {
                Phase::BatchCheckpoint { .. } => a == RunAction::CheckStop,
                Phase::PageCheckpoint { .. } => a == RunAction::CheckStop,
                Phase::AwaitPageText { page, .. } => a matches RunAction::FetchPageText {
                    page: p,
                } && p == page,
                Phase::AwaitExamples { page, page_text, .. } => a matches
                    RunAction::ExtractExamples { page: p, page_text: t } && p == page && t@
                    == page_text,
                Phase::AwaitExercises { page, page_text, context, .. } => a matches
                    RunAction::SolveExercises { page: p, page_text: t, context: c } && p == page
                    && t@ == page_text && c@ == context,
                Phase::AwaitSnapshot => a == RunAction::PersistSnapshot,
                _ => a == RunAction::Finished,
            },
    {
        match &self.phase {
            RunPhase::BatchCheckpoint { .. } => RunAction::CheckStop,
            RunPhase::PageCheckpoint { .. } => RunAction::CheckStop,
            RunPhase::AwaitPageText { page, .. } => RunAction::FetchPageText { page: *page },
            RunPhase::AwaitExamples { page, page_text, .. } => RunAction::ExtractExamples {
                page: *page,
                page_text: page_text.clone(),
            },
            RunPhase::AwaitExercises { page, page_text, context, .. } => {
                RunAction::SolveExercises {
                    page: *page,
                    page_text: page_text.clone(),
                    context: context.clone(),
                }
            },
            RunPhase::AwaitSnapshot => RunAction::PersistSnapshot,
            RunPhase::Completed => RunAction::Finished,
            RunPhase::Stopped => RunAction::Finished,
            RunPhase::Failed => RunAction::Finished,
        }
    }

    fn advance(&mut self, batch_start: u32, batch_end: u32, page: u32)
        requires
            old(self).wf(),
            1 <= batch_start <= page <= batch_end <= old(self).total_pages_spec(),
            batch_end == batch_end_of(batch_start as int, old(self).total_pages_spec() as int),
        ensures
            final(self).wf(),
            final(self).same_config(*old(self)),
            final(self).same_data(*old(self)),
            final(self).phase_spec() == advanced(
                batch_start,
                batch_end,
                page,
                old(self).total_pages_spec(),
            ),
    {
        if page < batch_end {
            self.phase = RunPhase::PageCheckpoint { batch_start, batch_end, page: page + 1 };
        } else if batch_end >= self.total_pages {
            self.phase = RunPhase::AwaitSnapshot;
        } else {
            self.phase = RunPhase::BatchCheckpoint { batch_start: batch_end + 1 };
            proof {
                assert(batch_end_of(batch_end + 1, self.total_pages as int) >= batch_end + 1);
            }
        }
    }

    /// The stop-flag checkpoint at batch entry and page entry.  With the
    /// flag set the run becomes `Stopped` with nothing mutated — the
    /// stop request already finalized the progress record, and a stopped
    /// run never persists a snapshot.  Otherwise a batch entry announces
    /// the batch and moves to its first page, and a page entry moves on
    /// to fetching that page's text.
    pub fn on_checkpoint(&mut self, should_stop: bool) -> (r: Option<ProgressUpdate>)
        requires
            old(self).wf(),
            old(self).phase_spec() is BatchCheckpoint || old(self).phase_spec()
                is PageCheckpoint,
        ensures
            final(self).wf(),
            final(self).same_config(*old(self)),
            final(self).same_data(*old(self)),
            should_stop ==> final(self).phase_spec() == Phase::Stopped && r is None,
            !should_stop ==> match old(self).phase_spec() {
                Phase::BatchCheckpoint { batch_start } => {
                    let batch_end = batch_end_of(
                        batch_start as int,
                        old(self).total_pages_spec() as int,
                    ) as u32;
                    &&& final(self).phase_spec() == (Phase::PageCheckpoint {
                        batch_start,
                        batch_end,
                        page: batch_start,
                    })
                    &&& r matches Some(u) && u@ == batch_update(
                        batch_start,
                        batch_end,
                        old(self).total_pages_spec(),
                        old(self).questions_view().len() as u32,
                    )
                },
                Phase::PageCheckpoint { batch_start, batch_end, page } => {
                    &&& final(self).phase_spec() == (Phase::AwaitPageText {
                        batch_start,
                        batch_end,
                        page,
                    })
                    &&& r is None
                },
                _ => false,
            },
    {
        if should_stop {
            self.phase = RunPhase::Stopped;
            return None;
        }
        let (batch_start, batch_end, page, at_batch) = match &self.phase {
            RunPhase::BatchCheckpoint { batch_start } => {
                let bs = *batch_start;
                let be = if self.total_pages - bs >= self.batch_size {
                    bs + self.batch_size - 1
                } else {
                    self.total_pages
                };
                (bs, be, bs, true)
            },
            RunPhase::PageCheckpoint { batch_start, batch_end, page } => (
                *batch_start,
                *batch_end,
                *page,
                false,
            ),
            _ => {
                proof {
                    assert(false);
                }
                (0, 0, 0, false)
            },
        };
        if at_batch {
            self.phase = RunPhase::PageCheckpoint { batch_start, batch_end, page: batch_start };
            let mut message = String::new();
            message.append("正在分析第 ");
            let s_dec = u32_to_dec(batch_start);
            message.append(s_dec.as_str());
            message.append(" - ");
            let e_dec = u32_to_dec(batch_end);
            message.append(e_dec.as_str());
            message.append(" 页");
            proof {
                assert(message@ =~= batch_message(batch_start, batch_end));
            }
            let found = count_u32(self.questions.len());
            Some(
                ProgressUpdate {
                    status: "analyzing".to_owned(),
                    current_page: batch_start,
                    total_pages: self.total_pages,
                    message,
                    questions_found: found,
                },
            )
        } else {
            self.phase = RunPhase::AwaitPageText { batch_start, batch_end, page };
            None
        }
    }

    /// Takes the fetched page text.  Empty or whitespace-only text
    /// counts the page as processed with no chunks and no questions.
    /// Otherwise the text is chunked by paragraph (budget 1000 bytes)
    /// and each chunk enters the store as a `knowledge` fragment with id
    /// `{file_id}_{page}_{chunk}`; with a model configured the run then
    /// awaits example extraction, else the page is done.
    #[verifier::loop_isolation(false)]
    pub fn provide_page_text(&mut self, text: String) -> (r: Option<ProgressUpdate>)
        requires
            old(self).wf(),
            old(self).phase_spec() is AwaitPageText,
        ensures
            final(self).wf(),
            final(self).same_config(*old(self)),
            final(self).questions_view() == old(self).questions_view(),
            old(self).phase_spec() matches Phase::AwaitPageText { batch_start, batch_end, page }
                ==> if is_blank(text@) {
                &&& final(self).store_view() == old(self).store_view()
                &&& final(self).phase_spec() == advanced(
                    batch_start,
                    batch_end,
                    page,
                    old(self).total_pages_spec(),
                )
                &&& r is None
            } else {
                &&& final(self).store_view() == add_docs_model(
                    old(self).store_view(),
                    knowledge_docs(
                        old(self).file_id_spec(),
                        page,
                        para_chunks(split_para(text@), 1000, Seq::empty(), Seq::empty()),
                    ),
                )
                &&& final(self).phase_spec() == if old(self).model_configured_spec() {
                    Phase::AwaitExamples { batch_start, batch_end, page, page_text: text@ }
                } else {
                    advanced(batch_start, batch_end, page, old(self).total_pages_spec())
                }
                &&& r matches Some(u) && u@ == page_update(
                    page,
                    old(self).total_pages_spec(),
                    old(self).questions_view().len() as u32,
                )
            },
    {
        let (batch_start, batch_end, page) = match &self.phase {
            RunPhase::AwaitPageText { batch_start, batch_end, page } => (
                *batch_start,
                *batch_end,
                *page,
            ),
            _ => {
                proof {
                    assert(false);
                }
                (0, 0, 0)
            },
        };
        if all_space(text.as_str()) {
            self.advance(batch_start, batch_end, page);
            return None;
        }
        let chunker = TextChunker::new(1000, 100);
        let chunks = chunker.chunk_by_paragraph(text.as_str());
        let ghost kd = knowledge_docs(
            self.file_id@,
            page,
            para_chunks(split_para(text@), 1000, Seq::empty(), Seq::empty()),
        );
        let ghost goal = add_docs_model(self.store@, kd);
        let n = chunks.len();
        let mut i: usize = 0;
        proof {
            assert(kd.skip(0) =~= kd);
        }
        while i < n
            invariant
                0 <= i <= n,
                self.store.wf(),
                self.file_id == old(self).file_id,
                self.total_pages == old(self).total_pages,
                self.batch_size == old(self).batch_size,
                self.model_configured == old(self).model_configured,
                self.questions == old(self).questions,
                self.phase == old(self).phase,
                n == chunks@.len(),
                n == kd.len(),
                forall|k: int| 0 <= k < n ==> #[trigger] kd[k] == knowledge_doc(
                    self.file_id@,
                    page,
                    k,
                    chunks@[k]@,
                ),
                goal == add_docs_model(self.store@, kd.skip(i as int)),
            decreases n - i,
        {
            let ghost rest = kd.skip(i as int);
            proof {
                assert(rest[0] == kd[i as int]);
                assert(rest.drop_first() =~= kd.skip(i + 1));
            }
            let mut id = String::new();
            id.append(self.file_id.as_str());
            id.append("_");
            let page_dec = u32_to_dec(page);
            id.append(page_dec.as_str());
            id.append("_");
            let idx_dec = usize_to_dec(i);
            id.append(idx_dec.as_str());
            let chunk_index = count_u32(i);
            let doc = Document {
                id,
                content: chunks[i].clone(),
                metadata: DocumentMetadata {
                    file_id: self.file_id.clone(),
                    page_number: page,
                    chunk_index,
                    doc_type: "knowledge".to_owned(),
                    chapter: String::new(),
                    section: String::new(),
                },
            };
            proof {
                assert(doc@.id =~= kd[i as int].id);
                assert(doc@.metadata.chapter =~= Seq::<char>::empty());
                assert(doc@.metadata.section =~= Seq::<char>::empty());
                assert(doc@ == kd[i as int]);
            }
            self.store.add_document(doc);
            i += 1;
        }
        proof {
            assert(kd.skip(n as int) =~= Seq::<DocumentView>::empty());
        }
        let mut message = String::new();
        message.append("正在识别第 ");
        let p_dec = u32_to_dec(page);
        message.append(p_dec.as_str());
        message.append(" 页的题目");
        proof {
            assert(message@ =~= page_message(page));
        }
        let found = count_u32(self.questions.len());
        let update = ProgressUpdate {
            status: "analyzing".to_owned(),
            current_page: page,
            total_pages: self.total_pages,
            message,
            questions_found: found,
        };
        if self.model_configured {
            self.phase = RunPhase::AwaitExamples { batch_start, batch_end, page, page_text: text };
        } else {
            self.advance(batch_start, batch_end, page);
        }
        Some(update)
    }

    /// Takes the example-extraction reply (`None` for a failed or
    /// skipped call).  A reply that parses contributes its questions,
    /// and each goes into the store as an `example` fragment so later
    /// pages can retrieve it; a reply that does not parse contributes
    /// nothing (local recovery).  Either way the run then builds the
    /// retrieval context for this page — from the store as it stands
    /// after the examples went in — and awaits exercise solving.
    #[verifier::loop_isolation(false)]
    pub fn provide_examples_reply(&mut self, reply: Option<String>)
        requires
            old(self).wf(),
            old(self).phase_spec() is AwaitExamples,
        ensures
            final(self).wf(),
            final(self).same_config(*old(self)),
            old(self).phase_spec() matches Phase::AwaitExamples {
                batch_start,
                batch_end,
                page,
                page_text,
            } ==> {
                &&& match reply {
                    Some(t) => match parsed_questions(
                        t@,
                        old(self).file_id_spec(),
                        page,
                        true,
                    ) {
                        Some(qvs) => final(self).questions_view() == old(self).questions_view()
                            + qvs && final(self).store_view() == add_docs_model(
                            old(self).store_view(),
                            example_docs(qvs),
                        ),
                        None => final(self).same_data(*old(self)),
                    },
                    None => final(self).same_data(*old(self)),
                }
                &&& final(self).phase_spec() == (Phase::AwaitExercises {
                    batch_start,
                    batch_end,
                    page,
                    page_text,
                    context: context_model(
                        search_model(final(self).store_view(), lower_of(page_text), 10),
                        4000,
                        0,
                    ),
                })
            },
    {
        let (batch_start, batch_end, page, page_text) = match &self.phase {
            RunPhase::AwaitExamples { batch_start, batch_end, page, page_text } => (
                *batch_start,
                *batch_end,
                *page,
                page_text.clone(),
            ),
            _ => {
                proof {
                    assert(false);
                }
                (0, 0, 0, String::new())
            },
        };
        let mut parsed: Option<Vec<Question>> = None;
        match &reply {
            Some(t) => {
                match parse_examples_response(t.as_str(), self.file_id.as_str(), page) {
                    Ok(qs) => {
                        parsed = Some(qs);
                    },
                    Err(_) => {},
                }
            },
            None => {},
        }
        match parsed {
            Some(qs) => {
                let ghost qvs = question_views(qs@);
                let ghost ed = example_docs(qvs);
                let ghost store_goal = add_docs_model(self.store@, ed);
                let ghost q_goal = question_views(self.questions@) + qvs;
                let n = qs.len();
                let mut k: usize = 0;
                proof {
                    assert(ed.skip(0) =~= ed);
                    assert(question_views(self.questions@) + qvs.take(0) =~= question_views(
                        self.questions@,
                    ));
                }
                while k < n
                    invariant
                        0 <= k <= n,
                        self.store.wf(),
                        self.file_id == old(self).file_id,
                        self.total_pages == old(self).total_pages,
                        self.batch_size == old(self).batch_size,
                        self.model_configured == old(self).model_configured,
                        self.phase == old(self).phase,
                        n == qs@.len(),
                        n == ed.len(),
                        qvs == question_views(qs@),
                        ed == example_docs(qvs),
                        store_goal == add_docs_model(self.store@, ed.skip(k as int)),
                        q_goal == question_views(self.questions@) + qvs.skip(k as int),
                    decreases n - k,
                {
                    let ghost rest = ed.skip(k as int);
                    proof {
                        assert(rest[0] == ed[k as int]);
                        assert(rest.drop_first() =~= ed.skip(k + 1));
                        assert(ed[k as int] == example_doc(qvs[k as int]));
                        assert(qvs[k as int] == qs@[k as int]@);
                    }
                    let q = &qs[k];
                    let mut content = String::new();
                    content.append("题目：");
                    content.append(q.question_text.as_str());
                    content.append("\n答案：");
                    content.append(q.answer.as_str());
                    let doc = Document {
                        id: q.id.clone(),
                        content,
                        metadata: DocumentMetadata {
                            file_id: q.file_id.clone(),
                            page_number: q.page_number,
                            chunk_index: 0,
                            doc_type: "example".to_owned(),
                            chapter: q.chapter.clone(),
                            section: q.section.clone(),
                        },
                    };
                    proof {
                        assert(doc@.content =~= example_doc(qvs[k as int]).content);
                        assert(doc@ == ed[k as int]);
                    }
                    self.store.add_document(doc);
                    let ghost prev_q = question_views(self.questions@);
                    let copy = qs[k].duplicate();
                    self.questions.push(copy);
                    proof {
                        assert(question_views(self.questions@) =~= prev_q.push(
                            self.questions@.last()@,
                        ));
                        assert(qvs.skip(k as int).drop_first() =~= qvs.skip(k + 1));
                        assert(prev_q.push(qvs[k as int]) + qvs.skip(k + 1) =~= prev_q + qvs.skip(
                            k as int,
                        ));
                    }
                    k += 1;
                }
                proof {
                    assert(ed.skip(n as int) =~= Seq::<DocumentView>::empty());
                    assert(qvs.skip(n as int) =~= Seq::<QuestionView>::empty());
                    assert(question_views(self.questions@) + Seq::<QuestionView>::empty()
                        =~= question_views(self.questions@));
                }
            },
            None => {},
        }
        let context = self.store.build_context(page_text.as_str(), 4000);
        self.phase = RunPhase::AwaitExercises { batch_start, batch_end, page, page_text, context };
    }

    /// Takes the exercise-solving reply (`None` for a failed call).  A
    /// reply that parses appends its `exercise` questions — generated
    /// answers, no store insertion; one that does not parse contributes
    /// nothing.  The page is then done and the run advances.
    #[verifier::loop_isolation(false)]
    pub fn provide_exercises_reply(&mut self, reply: Option<String>)
        requires
            old(self).wf(),
            old(self).phase_spec() is AwaitExercises,
        ensures
            final(self).wf(),
            final(self).same_config(*old(self)),
            final(self).store_view() == old(self).store_view(),
            old(self).phase_spec() matches Phase::AwaitExercises {
                batch_start,
                batch_end,
                page,
                ..
            } ==> {
                &&& match reply {
                    Some(t) => match parsed_questions(
                        t@,
                        old(self).file_id_spec(),
                        page,
                        false,
                    ) {
                        Some(qvs) => final(self).questions_view() == old(self).questions_view()
                            + qvs,
                        None => final(self).questions_view() == old(self).questions_view(),
                    },
                    None => final(self).questions_view() == old(self).questions_view(),
                }
                &&& final(self).phase_spec() == advanced(
                    batch_start,
                    batch_end,
                    page,
                    old(self).total_pages_spec(),
                )
            },
    {
        let (batch_start, batch_end, page) = match &self.phase {
            RunPhase::AwaitExercises { batch_start, batch_end, page, .. } => (
                *batch_start,
                *batch_end,
                *page,
            ),
            _ => {
                proof {
                    assert(false);
                }
                (0, 0, 0)
            },
        };
        let mut parsed: Option<Vec<Question>> = None;
        match &reply {
            Some(t) => {
                match parse_exercises_response(t.as_str(), self.file_id.as_str(), page) {
                    Ok(qs) => {
                        parsed = Some(qs);
                    },
                    Err(_) => {},
                }
            },
            None => {},
        }
        match parsed {
            Some(qs) => {
                let ghost qvs = question_views(qs@);
                let ghost q_goal = question_views(self.questions@) + qvs;
                let n = qs.len();
                let mut k: usize = 0;
                proof {
                    assert(question_views(self.questions@) + qvs.take(0) =~= question_views(
                        self.questions@,
                    ));
                }
                while k < n
                    invariant
                        0 <= k <= n,
                        self.store == old(self).store,
                        self.file_id == old(self).file_id,
                        self.total_pages == old(self).total_pages,
                        self.batch_size == old(self).batch_size,
                        self.model_configured == old(self).model_configured,
                        self.phase == old(self).phase,
                        n == qs@.len(),
                        qvs == question_views(qs@),
                        q_goal == question_views(self.questions@) + qvs.skip(k as int),
                    decreases n - k,
                {
                    let ghost prev_q = question_views(self.questions@);
                    let copy = qs[k].duplicate();
                    self.questions.push(copy);
                    proof {
                        assert(question_views(self.questions@) =~= prev_q.push(
                            self.questions@.last()@,
                        ));
                        assert(qvs.skip(k as int)[0] == qvs[k as int]);
                        assert(qvs.skip(k as int).drop_first() =~= qvs.skip(k + 1));
                        assert(prev_q.push(qvs[k as int]) + qvs.skip(k + 1) =~= prev_q + qvs.skip(
                            k as int,
                        ));
                    }
                    k += 1;
                }
                proof {
                    assert(qvs.skip(n as int) =~= Seq::<QuestionView>::empty());
                    assert(question_views(self.questions@) + Seq::<QuestionView>::empty()
                        =~= question_views(self.questions@));
                }
            },
            None => {},
        }
        self.advance(batch_start, batch_end, page);
    }

    /// Takes the outcome of the snapshot write: success completes the
    /// run, failure ends it as `error` — a whole-run failure, unlike a
    /// single page's.  The returned update carries the terminal status.
    pub fn on_snapshot_written(&mut self, ok: bool) -> (r: ProgressUpdate)
        requires
            old(self).wf(),
            old(self).phase_spec() is AwaitSnapshot,
        ensures
            final(self).wf(),
            final(self).same_config(*old(self)),
            final(self).same_data(*old(self)),
            ok ==> final(self).phase_spec() == Phase::Completed && r@ == (ProgressUpdateView {
                status: "completed"@,
                current_page: old(self).total_pages_spec(),
                total_pages: old(self).total_pages_spec(),
                message: "分析完成"@,
                questions_found: old(self).questions_view().len() as u32,
            }),
            !ok ==> final(self).phase_spec() == Phase::Failed && r@ == (ProgressUpdateView {
                status: "error"@,
                current_page: old(self).total_pages_spec(),
                total_pages: old(self).total_pages_spec(),
                message: "保存分析结果失败"@,
                questions_found: old(self).questions_view().len() as u32,
            }),
    {
        let found = count_u32(self.questions.len());
        if ok {
            self.phase = RunPhase::Completed;
            ProgressUpdate {
                status: "completed".to_owned(),
                current_page: self.total_pages,
                total_pages: self.total_pages,
                message: "分析完成".to_owned(),
                questions_found: found,
            }
        } else {
            self.phase = RunPhase::Failed;
            ProgressUpdate {
                status: "error".to_owned(),
                current_page: self.total_pages,
                total_pages: self.total_pages,
                message: "保存分析结果失败".to_owned(),
                questions_found: found,
            }
        }
    }

    /// The questions accumulated so far — what the snapshot persists.
    pub fn questions(&self) -> (r: &Vec<Question>)
        ensures
            question_views(r@) == self.questions_view(),
    {
        &self.questions
    }

    /// The retrieval store — whose contents a write-through caller
    /// persists after each page.
    pub fn store(&self) -> (r: &RAGStore)
        ensures
            r@ == self.store_view(),
    {
        &self.store
    }

    /// The document this run analyzes.
    pub fn file_id(&self) -> (r: &str)
        ensures
            r@ == self.file_id_spec(),
    {
        self.file_id.as_str()
    }

    /// Whether the run is over.
    pub fn is_finished(&self) -> (r: bool)
        ensures
            r == self.is_terminal(),
    {
        match &self.phase {
            RunPhase::Completed => true,
            RunPhase::Stopped => true,
            RunPhase::Failed => true,
            _ => false,
        }
    }

    /// Whether the run ended by a stop request.
    pub fn is_stopped(&self) -> (r: bool)
        ensures
            r == (self.phase_spec() is Stopped),
    {
        match &self.phase {
            RunPhase::Stopped => true,
            _ => false,
        }
    }
}

} // verus!

//! The session registry: a map from document id to run state, owned by
//! whoever drives the runs and shared between control operations and the
//! running pipeline.
//!
//! All operations are short; the caller is expected to guard the registry
//! with a mutex held only across single calls.  Unknown ids degrade to
//! default values and no operation raises an error.

use vstd::prelude::*;
use vstd::string::*;
use crate::text::str_eq;

verus! {

/// The progress of one document's analysis run.  `status` is the
/// machine-readable field for polling (`idle`, `analyzing`, `completed`,
/// `error` or `stopped`); `message` carries the latest human-readable
/// wording.
#[derive(Debug)]
pub struct AnalysisProgress {
    pub file_id: String,
    pub status: String,
    pub current_page: u32,
    pub total_pages: u32,
    pub current_step: String,
    pub questions_found: u32,
    pub message: String,
}

/// The mathematical content of an [`AnalysisProgress`].
pub struct AnalysisProgressView {
    pub file_id: Seq<char>,
    pub status: Seq<char>,
    pub current_page: u32,
    pub total_pages: u32,
    pub current_step: Seq<char>,
    pub questions_found: u32,
    pub message: Seq<char>,
}

impl View for AnalysisProgress {
    type V = AnalysisProgressView;

    open spec fn view(&self) -> AnalysisProgressView {
        AnalysisProgressView {
            file_id: self.file_id@,
            status: self.status@,
            current_page: self.current_page,
            total_pages: self.total_pages,
            current_step: self.current_step@,
            questions_found: self.questions_found,
            message: self.message@,
        }
    }
}

impl AnalysisProgress {
    /// A field-for-field copy.
    pub fn duplicate(&self) -> (r: AnalysisProgress)
        ensures
            r@ == self@,
    {
        AnalysisProgress {
            file_id: self.file_id.clone(),
            status: self.status.clone(),
            current_page: self.current_page,
            total_pages: self.total_pages,
            current_step: self.current_step.clone(),
            questions_found: self.questions_found,
            message: self.message.clone(),
        }
    }
}

/// One document's run state: its progress and the cooperative stop flag.
#[derive(Debug)]
pub struct AnalysisSession {
    pub progress: AnalysisProgress,
    pub should_stop: bool,
}

/// The mathematical content of an [`AnalysisSession`].
pub struct SessionView {
    pub progress: AnalysisProgressView,
    pub should_stop: bool,
}

impl View for AnalysisSession {
    type V = SessionView;

    open spec fn view(&self) -> SessionView {
        SessionView { progress: self.progress@, should_stop: self.should_stop }
    }
}

/// The views of a sequence of sessions.
pub open spec fn session_views(v: Seq<AnalysisSession>) -> Seq<SessionView> {
    v.map_values(|s: AnalysisSession| s@)
}

/// Index of the session for `id`, if any (the first; a well-formed
/// registry has at most one).
pub open spec fn find_session(s: Seq<SessionView>, id: Seq<char>) -> Option<int>
    decreases s.len(),
{
    if s.len() == 0 {
        None
    } else if s[0].progress.file_id == id {
        Some(0)
    } else {
        match find_session(s.drop_first(), id) {
            None => None,
            Some(i) => Some(i + 1),
        }
    }
}

/// The progress of a session created by `start`.
pub open spec fn fresh_progress(file_id: Seq<char>, total_pages: u32) -> AnalysisProgressView {
    AnalysisProgressView {
        file_id: file_id,
        status: "analyzing"@,
        current_page: 0,
        total_pages: total_pages,
        current_step: "初始化"@,
        questions_found: 0,
        message: "正在准备分析..."@,
    }
}

/// The default progress reported for an id with no session.
pub open spec fn idle_progress(file_id: Seq<char>) -> AnalysisProgressView {
    AnalysisProgressView {
        file_id: file_id,
        status: "idle"@,
        current_page: 0,
        total_pages: 0,
        current_step: ""@,
        questions_found: 0,
        message: "未开始分析"@,
    }
}

/// A session after a stop request: the flag is set and the progress is
/// finalized as `stopped` at once — the request is a signal, not a
/// synchronous halt.
pub open spec fn stopped_session(s: SessionView) -> SessionView {
    SessionView {
        progress: AnalysisProgressView {
            status: "stopped"@,
            message: "分析已停止"@,
            ..s.progress
        },
        should_stop: true,
    }
}

/// A status that ends a run; a later pipeline update must not overwrite
/// it — in particular, an update for work already in flight when a stop
/// landed must not flip `stopped` back to `analyzing`.
pub open spec fn terminal_status(s: Seq<char>) -> bool {
    s == "stopped"@ || s == "error"@
}

/// A session after a pipeline progress update; the step text and the
/// stop flag keep their values.
pub open spec fn updated_session(
    s: SessionView,
    status: Seq<char>,
    current_page: u32,
    total_pages: u32,
    message: Seq<char>,
    questions_found: u32,
) -> SessionView {
    SessionView {
        progress: AnalysisProgressView {
            file_id: s.progress.file_id,
            status: status,
            current_page: current_page,
            total_pages: total_pages,
            current_step: s.progress.current_step,
            questions_found: questions_found,
            message: message,
        },
        should_stop: s.should_stop,
    }
}

proof fn lemma_find_session_bounds(s: Seq<SessionView>, id: Seq<char>)
    ensures
        match find_session(s, id) {
            Some(i) => 0 <= i < s.len() && s[i].progress.file_id == id,
            None => forall|j: int| 0 <= j < s.len() ==> (#[trigger] s[j]).progress.file_id != id,
        },
    decreases s.len(),
{
    if s.len() > 0 && s[0].progress.file_id != id {
        let rest = s.drop_first();
        lemma_find_session_bounds(rest, id);
        assert(forall|j: int| 0 <= j < rest.len() ==> #[trigger] rest[j] == s[j + 1]);
        match find_session(rest, id) {
            Some(i) => {
                assert(find_session(s, id) == Some(i + 1));
                assert(s[i + 1] == rest[i]);
            },
            None => {
                assert forall|j: int| 0 <= j < s.len() implies (
                #[trigger] s[j]).progress.file_id != id by {
                    if j > 0 {
                        assert(s[j] == rest[j - 1]);
                    }
                }
            },
        }
    }
}

/// A process-wide map from document id to run state.  Exactly one
/// session per file id; `start` for a taken id overwrites the session
/// (last writer wins).
pub struct SessionRegistry {
    sessions: Vec<AnalysisSession>,
}

impl View for SessionRegistry {
    type V = Seq<SessionView>;

    closed spec fn view(&self) -> Seq<SessionView> {
        session_views(self.sessions@)
    }
}

impl SessionRegistry {
    /// File ids are pairwise distinct.
    pub open spec fn wf(&self) -> bool {
        forall|i: int, j: int|
            0 <= i < j < self@.len() ==> (#[trigger] self@[i]).progress.file_id != (
            #[trigger] self@[j]).progress.file_id
    }

    /// An empty registry.
    pub fn new() -> (r: SessionRegistry)
        ensures
            r@ =~= Seq::<SessionView>::empty(),
            r.wf(),
    {
        let r = SessionRegistry { sessions: Vec::new() };
        proof {
            assert(r@ =~= Seq::<SessionView>::empty());
        }
        r
    }

    fn find_index(&self, file_id: &str) -> (r: Option<usize>)
        ensures
            match r {
                Some(i) => find_session(self@, file_id@) == Some(i as int) && i < self@.len(),
                None => find_session(self@, file_id@) is None,
            },
    {
        let n = self.sessions.len();
        let mut i: usize = 0;
        while i < n
            invariant
                0 <= i <= n,
                n == self@.len(),
                n == self.sessions@.len(),
                forall|j: int| 0 <= j < i ==> (#[trigger] self@[j]).progress.file_id != file_id@,
            decreases n - i,
        {
            if str_eq(self.sessions[i].progress.file_id.as_str(), file_id) {
                proof {
                    lemma_find_session_bounds(self@, file_id@);
                    let k = find_session(self@, file_id@)->Some_0;
                    if find_session(self@, file_id@) is Some {
                        if k < i {
                            assert(self@[k].progress.file_id != file_id@);
                        }
                        if k > i as int {
                            lemma_find_first(self@, file_id@, i as int);
                        }
                    } else {
                        assert(self@[i as int].progress.file_id != file_id@);
                    }
                }
                return Some(i);
            }
            i += 1;
        }
        proof {
            lemma_find_session_bounds(self@, file_id@);
            if find_session(self@, file_id@) is Some {
                let k = find_session(self@, file_id@)->Some_0;
                assert(self@[k].progress.file_id == file_id@);
            }
        }
        None
    }

    /// Creates — or overwrites — the session for `file_id`: analyzing
    /// from page zero, stop flag clear.
    pub fn start(&mut self, file_id: &str, total_pages: u32)
        requires
            old(self).wf(),
        ensures
            final(self).wf(),
            match find_session(old(self)@, file_id@) {
                Some(i) => final(self)@ == old(self)@.update(
                    i,
                    SessionView {
                        progress: fresh_progress(file_id@, total_pages),
                        should_stop: false,
                    },
                ),
                None => final(self)@ == old(self)@.push(
                    SessionView {
                        progress: fresh_progress(file_id@, total_pages),
                        should_stop: false,
                    },
                ),
            },
    {
        let fresh = AnalysisSession {
            progress: AnalysisProgress {
                file_id: file_id.to_owned(),
                status: "analyzing".to_owned(),
                current_page: 0,
                total_pages,
                current_step: "初始化".to_owned(),
                questions_found: 0,
                message: "正在准备分析...".to_owned(),
            },
            should_stop: false,
        };
        proof {
            assert(fresh@ == SessionView {
                progress: fresh_progress(file_id@, total_pages),
                should_stop: false,
            });
        }
        let ghost old_view = self@;
        match self.find_index(file_id) {
            Some(i) => {
                self.sessions.remove(i);
                self.sessions.insert(i, fresh);
                proof {
                    lemma_find_session_bounds(old_view, file_id@);
                    assert(self@ =~= old_view.update(
                        i as int,
                        SessionView {
                            progress: fresh_progress(file_id@, total_pages),
                            should_stop: false,
                        },
                    ));
                    lemma_same_ids_wf(old_view, self@);
                }
            },
            None => {
                self.sessions.push(fresh);
                proof {
                    lemma_find_session_bounds(old_view, file_id@);
                    assert(self@ =~= old_view.push(
                        SessionView {
                            progress: fresh_progress(file_id@, total_pages),
                            should_stop: false,
                        },
                    ));
                    assert forall|a: int, b: int|
                        0 <= a < b < self@.len() implies (#[trigger] self@[a]).progress.file_id
                        != (#[trigger] self@[b]).progress.file_id by {
                        if b < self@.len() - 1 {
                            assert(self@[a] == old_view[a] && self@[b] == old_view[b]);
                        } else {
                            assert(self@[a] == old_view[a]);
                            assert(old_view[a].progress.file_id != file_id@);
                        }
                    }
                }
            },
        }
    }

    /// Requests a cooperative stop: sets the flag and finalizes the
    /// progress as `stopped` at once.  Unknown ids are ignored.
    pub fn request_stop(&mut self, file_id: &str)
        requires
            old(self).wf(),
        ensures
            final(self).wf(),
            match find_session(old(self)@, file_id@) {
                Some(i) => final(self)@ == old(self)@.update(i, stopped_session(old(self)@[i])),
                None => final(self)@ == old(self)@,
            },
    {
        let ghost old_view = self@;
        match self.find_index(file_id) {
            Some(i) => {
                proof {
                    lemma_find_session_bounds(old_view, file_id@);
                }
                let mut s = self.sessions.remove(i);
                s.should_stop = true;
                s.progress.status = "stopped".to_owned();
                s.progress.message = "分析已停止".to_owned();
                self.sessions.insert(i, s);
                proof {
                    assert(self@ =~= old_view.update(i as int, stopped_session(old_view[i as int])));
                    lemma_same_ids_wf(old_view, self@);
                }
            },
            None => {
                proof {
                    assert(self@ =~= old_view);
                }
            },
        }
    }

    /// A copy of the current progress for `file_id`, or the default
    /// `idle` record (zero pages, nothing found) when it was never
    /// started.
    pub fn get_progress(&self, file_id: &str) -> (r: AnalysisProgress)
        ensures
            r@ == match find_session(self@, file_id@) {
                Some(i) => self@[i].progress,
                None => idle_progress(file_id@),
            },
    {
        match self.find_index(file_id) {
            Some(i) => {
                proof {
                    lemma_find_session_bounds(self@, file_id@);
                }
                self.sessions[i].progress.duplicate()
            },
            None => AnalysisProgress {
                file_id: file_id.to_owned(),
                status: "idle".to_owned(),
                current_page: 0,
                total_pages: 0,
                current_step: "".to_owned(),
                questions_found: 0,
                message: "未开始分析".to_owned(),
            },
        }
    }

    /// Whether a stop was requested for `file_id`; the pipeline reads
    /// this at its batch-entry and page-entry checkpoints.
    pub fn should_stop(&self, file_id: &str) -> (r: bool)
        ensures
            r == match find_session(self@, file_id@) {
                Some(i) => self@[i].should_stop,
                None => false,
            },
    {
        match self.find_index(file_id) {
            Some(i) => {
                proof {
                    lemma_find_session_bounds(self@, file_id@);
                }
                self.sessions[i].should_stop
            },
            None => false,
        }
    }

    /// Overwrites the polled progress fields for `file_id`; the step
    /// text and the stop flag keep their values.  A session whose run is
    /// already over (`stopped` or `error`) keeps its terminal record
    /// untouched, and unknown ids are ignored.
    pub fn update_progress(
        &mut self,
        file_id: &str,
        status: &str,
        current_page: u32,
        total_pages: u32,
        message: &str,
        questions_found: u32,
    )
        requires
            old(self).wf(),
        ensures
            final(self).wf(),
            match find_session(old(self)@, file_id@) {
                Some(i) => if terminal_status(old(self)@[i].progress.status) {
                    final(self)@ == old(self)@
                } else {
                    final(self)@ == old(self)@.update(
                        i,
                        updated_session(
                            old(self)@[i],
                            status@,
                            current_page,
                            total_pages,
                            message@,
                            questions_found,
                        ),
                    )
                },
                None => final(self)@ == old(self)@,
            },
    {
        let ghost old_view = self@;
        match self.find_index(file_id) {
            Some(i) => {
                proof {
                    lemma_find_session_bounds(old_view, file_id@);
                }
                let now = self.sessions[i].progress.status.as_str();
                if str_eq(now, "stopped") || str_eq(now, "error") {
                    proof {
                        assert(self@ =~= old_view);
                    }
                    return;
                }
                let mut s = self.sessions.remove(i);
                s.progress.status = status.to_owned();
                s.progress.current_page = current_page;
                s.progress.total_pages = total_pages;
                s.progress.message = message.to_owned();
                s.progress.questions_found = questions_found;
                self.sessions.insert(i, s);
                proof {
                    assert(self@ =~= old_view.update(
                        i as int,
                        updated_session(
                            old_view[i as int],
                            status@,
                            current_page,
                            total_pages,
                            message@,
                            questions_found,
                        ),
                    ));
                    lemma_same_ids_wf(old_view, self@);
                }
            },
            None => {
                proof {
                    assert(self@ =~= old_view);
                }
            },
        }
    }
}

proof fn lemma_find_first(s: Seq<SessionView>, id: Seq<char>, i: int)
    requires
        0 <= i < s.len(),
        s[i].progress.file_id == id,
    ensures
        match find_session(s, id) {
            Some(k) => k <= i,
            None => false,
        },
    decreases s.len(),
{
    if s[0].progress.file_id != id {
        let rest = s.drop_first();
        assert(rest[i - 1] == s[i]);
        lemma_find_first(rest, id, i - 1);
    }
}

proof fn lemma_same_ids_wf(a: Seq<SessionView>, b: Seq<SessionView>)
    requires
        a.len() == b.len(),
        forall|i: int, j: int|
            0 <= i < j < a.len() ==> (#[trigger] a[i]).progress.file_id != (
            #[trigger] a[j]).progress.file_id,
        forall|i: int|
            0 <= i < a.len() ==> (#[trigger] b[i]).progress.file_id == a[i].progress.file_id,
    ensures
        forall|i: int, j: int|
            0 <= i < j < b.len() ==> (#[trigger] b[i]).progress.file_id != (
            #[trigger] b[j]).progress.file_id,
{
}

} // verus!

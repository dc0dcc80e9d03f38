use qbank::pipeline::{batch_ranges, AnalysisRun, RunAction};
use qbank::registry::SessionRegistry;
use qbank::store::RAGStore;

#[test]
fn one_batch_up_to_four_hundred_pages() {
    assert_eq!(batch_ranges(1), vec![(1, 1)]);
    assert_eq!(batch_ranges(399), vec![(1, 399)]);
    assert_eq!(batch_ranges(400), vec![(1, 400)]);
}

#[test]
fn no_pages_no_batches() {
    assert!(batch_ranges(0).is_empty());
}

#[test]
fn long_documents_use_batches_of_twenty() {
    let ranges = batch_ranges(401);
    assert_eq!(ranges.len(), 21); // ceil(401 / 20)
    assert_eq!(ranges[0], (1, 20));
    assert_eq!(ranges[1], (21, 40));
    assert_eq!(ranges[20], (401, 401));
    for w in ranges.windows(2) {
        assert_eq!(w[1].0, w[0].1 + 1); // no gaps, no overlaps
    }
    for r in &ranges {
        assert!(r.1 - r.0 + 1 <= 20);
    }
    let ranges = batch_ranges(440);
    assert_eq!(ranges.len(), 22);
    assert_eq!(ranges[21], (421, 440));
}

#[test]
fn never_started_file_reports_idle() {
    let registry = SessionRegistry::new();
    let p = registry.get_progress("nobody");
    assert_eq!(p.file_id, "nobody");
    assert_eq!(p.status, "idle");
    assert_eq!(p.total_pages, 0);
    assert_eq!(p.current_page, 0);
    assert_eq!(p.questions_found, 0);
}

#[test]
fn start_then_stop_finalizes_progress() {
    let mut registry = SessionRegistry::new();
    registry.start("f1", 10);
    let p = registry.get_progress("f1");
    assert_eq!(p.status, "analyzing");
    assert_eq!(p.total_pages, 10);
    assert!(!registry.should_stop("f1"));
    registry.request_stop("f1");
    assert!(registry.should_stop("f1"));
    assert_eq!(registry.get_progress("f1").status, "stopped");
}

#[test]
fn stop_before_checkpoint_prevents_snapshot() {
    let mut registry = SessionRegistry::new();
    registry.start("f1", 3);
    let mut run = AnalysisRun::new("f1".to_string(), 3, false, RAGStore::new());
    assert!(matches!(run.next_action(), RunAction::CheckStop));
    // the stop request lands before the run reaches its checkpoint
    registry.request_stop("f1");
    let update = run.on_checkpoint(registry.should_stop("f1"));
    assert!(update.is_none());
    assert!(run.is_finished());
    assert!(run.is_stopped());
    // no snapshot action follows for this run
    assert!(matches!(run.next_action(), RunAction::Finished));
    assert_eq!(registry.get_progress("f1").status, "stopped");
}

#[test]
fn empty_pages_complete_without_questions() {
    let mut registry = SessionRegistry::new();
    registry.start("f1", 2);
    let mut run = AnalysisRun::new("f1".to_string(), 2, false, RAGStore::new());
    let mut snapshots = 0;
    loop {
        match run.next_action() {
            RunAction::CheckStop => {
                let _ = run.on_checkpoint(registry.should_stop("f1"));
            }
            RunAction::FetchPageText { .. } => {
                let r = run.provide_page_text(String::new());
                assert!(r.is_none());
            }
            RunAction::ExtractExamples { .. } | RunAction::SolveExercises { .. } => {
                panic!("no model is configured; no extraction call is due");
            }
            RunAction::PersistSnapshot => {
                snapshots += 1;
                let update = run.on_snapshot_written(true);
                assert_eq!(update.status, "completed");
                assert_eq!(update.questions_found, 0);
            }
            RunAction::Finished => break,
        }
    }
    assert_eq!(snapshots, 1);
    assert!(run.questions().is_empty());
}

#[test]
fn full_run_collects_and_grounds_questions() {
    let mut registry = SessionRegistry::new();
    registry.start("doc", 1);
    let mut run = AnalysisRun::new("doc".to_string(), 1, true, RAGStore::new());
    let page_text = "导数的定义\n\n例1：求 x^2 的导数。答案：2x。";
    let examples_reply =
        "{\"examples\": [{\"question\": \"求 x^2 的导数\", \"answer\": \"2x\"}]}";
    let exercises_reply =
        "{\"exercises\": [{\"question\": \"求 x^3 的导数\", \"answer\": \"3x^2\"}]}";
    let mut saw_context = String::new();
    loop {
        match run.next_action() {
            RunAction::CheckStop => {
                let update = run.on_checkpoint(registry.should_stop("doc"));
                if let Some(u) = update {
                    registry.update_progress(
                        "doc",
                        &u.status,
                        u.current_page,
                        u.total_pages,
                        &u.message,
                        u.questions_found,
                    );
                }
            }
            RunAction::FetchPageText { page } => {
                assert_eq!(page, 1);
                let update = run.provide_page_text(page_text.to_string()).unwrap();
                assert_eq!(update.status, "analyzing");
                assert_eq!(update.current_page, 1);
            }
            RunAction::ExtractExamples { page, page_text: t } => {
                assert_eq!(page, 1);
                assert_eq!(t, page_text);
                run.provide_examples_reply(Some(examples_reply.to_string()));
            }
            RunAction::SolveExercises { context, .. } => {
                saw_context = context;
                run.provide_exercises_reply(Some(exercises_reply.to_string()));
            }
            RunAction::PersistSnapshot => {
                let update = run.on_snapshot_written(true);
                assert_eq!(update.status, "completed");
                assert_eq!(update.questions_found, 2);
                registry.update_progress(
                    "doc",
                    &update.status,
                    update.current_page,
                    update.total_pages,
                    &update.message,
                    update.questions_found,
                );
            }
            RunAction::Finished => break,
        }
    }
    // the example inserted on this page grounded this page's exercise call
    assert!(saw_context.contains("题目：求 x^2 的导数"));
    assert!(saw_context.contains("答案：2x"));
    let qs = run.questions();
    assert_eq!(qs.len(), 2);
    assert_eq!(qs[0].id, "doc_1_example_0");
    assert!(qs[0].has_original_answer);
    assert_eq!(qs[1].id, "doc_1_exercise_0");
    assert!(!qs[1].has_original_answer);
    // the store holds the page's knowledge chunk and the example fragment
    assert!(run.store().len() >= 2);
    assert_eq!(registry.get_progress("doc").status, "completed");
}

#[test]
fn stopped_status_survives_later_updates() {
    let mut registry = SessionRegistry::new();
    registry.start("f1", 5);
    registry.request_stop("f1");
    // an update for work already in flight when the stop landed
    registry.update_progress("f1", "analyzing", 2, 5, "正在分析第 1 - 5 页", 0);
    assert_eq!(registry.get_progress("f1").status, "stopped");
    assert_eq!(registry.get_progress("f1").message, "分析已停止");
    // nor may a terminal completed update overwrite a stop
    registry.update_progress("f1", "completed", 5, 5, "分析完成", 3);
    assert_eq!(registry.get_progress("f1").status, "stopped");
    // a fresh start opens a new run as usual
    registry.start("f1", 5);
    assert_eq!(registry.get_progress("f1").status, "analyzing");
}

#[test]
fn stop_between_pages_halts_at_the_next_checkpoint() {
    let mut registry = SessionRegistry::new();
    registry.start("f1", 2);
    let mut run = AnalysisRun::new("f1".to_string(), 2, false, RAGStore::new());
    // batch entry, then page 1 passes its checkpoint and is processed
    assert!(run.on_checkpoint(registry.should_stop("f1")).is_some());
    run.on_checkpoint(registry.should_stop("f1"));
    assert!(matches!(run.next_action(), RunAction::FetchPageText { page: 1 }));
    run.provide_page_text("page one text".to_string());
    // the stop request lands before page 2's checkpoint
    registry.request_stop("f1");
    assert!(matches!(run.next_action(), RunAction::CheckStop));
    run.on_checkpoint(registry.should_stop("f1"));
    assert!(run.is_stopped());
    assert!(matches!(run.next_action(), RunAction::Finished));
    assert_eq!(registry.get_progress("f1").status, "stopped");
}

#[test]
fn later_pages_retrieve_earlier_examples() {
    let mut run = AnalysisRun::new("doc".to_string(), 2, true, RAGStore::new());
    let examples_reply =
        "{\"examples\": [{\"question\": \"链式法则例题\", \"answer\": \"按链式法则求导\"}]}";
    // page 1 contributes an example
    run.on_checkpoint(false);
    run.on_checkpoint(false);
    run.provide_page_text("第一页 链式法则".to_string());
    run.provide_examples_reply(Some(examples_reply.to_string()));
    run.provide_exercises_reply(None);
    // page 2's exercise call sees page 1's example in its context
    run.on_checkpoint(false);
    run.provide_page_text("第二页 请用 链式法则 求导".to_string());
    run.provide_examples_reply(None);
    match run.next_action() {
        RunAction::SolveExercises { context, .. } => {
            assert!(context.contains("题目：链式法则例题"));
        }
        other => panic!("expected the exercise call, got {:?}", other),
    }
}

#[test]
fn failed_snapshot_ends_in_error() {
    let mut run = AnalysisRun::new("f".to_string(), 0, false, RAGStore::new());
    assert!(matches!(run.next_action(), RunAction::PersistSnapshot));
    let update = run.on_snapshot_written(false);
    assert_eq!(update.status, "error");
    assert!(run.is_finished());
    assert!(!run.is_stopped());
}

#[test]
fn unparsable_replies_contribute_no_questions() {
    let mut run = AnalysisRun::new("f".to_string(), 1, true, RAGStore::new());
    let _ = run.on_checkpoint(false);
    let _ = run.on_checkpoint(false);
    let _ = run.provide_page_text("some page text".to_string());
    run.provide_examples_reply(Some("the model rambled".to_string()));
    run.provide_exercises_reply(None);
    assert!(matches!(run.next_action(), RunAction::PersistSnapshot));
    assert!(run.questions().is_empty());
}

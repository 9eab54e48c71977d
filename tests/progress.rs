use mkpkg::config::{Action, Config};
use mkpkg::progress::{AggregateError, ItemState, Poll, Progress, ProgressError, Scheduler};

fn config(dl: Option<u32>, build: Option<u32>) -> Config {
    Config {
        pkgbuild_dir: String::from("."),
        build_dir: String::from("build"),
        log_dir: String::from("logs"),
        licenses: vec![],
        verbose: false,
        clobber: false,
        fail_fast: false,
        parallel_build: build,
        parallel_download: dl,
        action: Action::Download { pkgs: vec![] },
    }
}

#[test]
fn worker_line_count() {
    assert_eq!(Progress::with_cpus(&config(None, None), 10, 8).bar_count, 8);
    assert_eq!(Progress::with_cpus(&config(None, None), 3, 8).bar_count, 4);
    assert_eq!(Progress::with_cpus(&config(Some(2), None), 10, 8).bar_count, 3);
    assert_eq!(Progress::with_cpus(&config(Some(5), Some(1)), 10, 8).bar_count, 2);
    assert_eq!(Progress::with_cpus(&config(None, None), 0, 1).bar_count, 2);
    let mut p = Progress::with_cpus(&config(None, None), 1, 4);
    p.add_step();
    p.add_step();
    assert_eq!(p.stages, 2);
}

#[test]
fn items_flow_through_stages_in_order() {
    let mut s = Scheduler::new(2, 2, false);
    assert_eq!(s.next(1), Poll::Wait);
    assert_eq!(s.next(0), Poll::Run(0));
    assert_eq!(s.next(0), Poll::Run(1));
    assert_eq!(s.next(0), Poll::Advance);
    assert!(s.finish(0, 0, true));
    assert_eq!(s.state(0), ItemState::Waiting(1));
    assert!(!s.finish(0, 0, true));
    assert_eq!(s.next(1), Poll::Run(0));
    assert!(s.finish(0, 1, true));
    assert_eq!(s.next(0), Poll::Advance);
    assert_eq!(s.next(1), Poll::Run(1));
    assert!(s.finish(1, 0, true));
    assert!(s.finish(1, 1, true));
    assert_eq!(s.next(1), Poll::Advance);
    assert_eq!(s.next(2), Poll::Stop);
    assert_eq!(s.succeeded(), 2);
    assert_eq!(s.failed(), 0);
}

#[test]
fn two_tarballs_one_fails() {
    let mut s = Scheduler::new(2, 2, false);
    assert_eq!(s.next(0), Poll::Run(0));
    assert!(s.finish(0, 0, true));
    assert_eq!(s.next(0), Poll::Run(1));
    assert!(s.finish(0, 1, false));
    assert_eq!(s.next(0), Poll::Advance);
    assert_eq!(s.next(1), Poll::Run(0));
    assert!(s.finish(1, 0, true));
    assert_eq!(s.next(1), Poll::Advance);
    assert_eq!(s.succeeded(), 1);
    assert_eq!(s.failed(), 1);
    assert_eq!(s.state(1), ItemState::Failed(0));
    assert_eq!(s.succeeded() + s.failed(), s.batch());
    let report = AggregateError { errs: vec![String::from("failed to download 'b': 404")] };
    assert_eq!(
        report.message(),
        "found the following 1 error(s) while working on packages\n\tfailed to download 'b': 404\n"
    );
}

#[test]
fn fail_fast_stops_new_work() {
    let mut s = Scheduler::new(10, 2, true);
    for i in 0..10 {
        assert_eq!(s.next(0), Poll::Run(i));
        assert!(s.finish(0, i, true));
    }
    assert_eq!(s.next(0), Poll::Advance);
    let mut started = vec![];
    for _ in 0..4 {
        match s.next(1) {
            Poll::Run(i) => started.push(i),
            other => panic!("unexpected {:?}", other),
        }
    }
    assert!(s.finish(1, 3, false));
    assert!(s.halted());
    for w in 0..4 {
        assert_eq!(s.next(w % 2), Poll::Stop);
    }
    assert!(s.finish(1, 0, true));
    assert!(s.finish(1, 1, true));
    assert!(s.finish(1, 2, true));
    assert_eq!(s.next(1), Poll::Stop);
    assert!(started.len() <= 4);
    for i in 4..10 {
        assert_eq!(s.state(i), ItemState::Waiting(1));
    }
    assert_eq!(s.succeeded(), 3);
    assert_eq!(s.failed(), 1);
}

#[test]
fn empty_batch_is_immediately_done() {
    let mut s = Scheduler::new(0, 1, false);
    assert_eq!(s.next(0), Poll::Advance);
    assert_eq!(s.next(1), Poll::Stop);
    assert_eq!(s.succeeded() + s.failed(), 0);
}

#[test]
fn finish_rejects_unknown_items() {
    let mut s = Scheduler::new(1, 1, false);
    assert!(!s.finish(0, 0, true));
    assert!(!s.finish(0, 5, true));
    assert!(!s.finish(3, 0, true));
    assert_eq!(s.state(0), ItemState::Waiting(0));
}

#[test]
fn progress_error_messages() {
    assert_eq!(
        ProgressError::CreateDir(String::from("build"), String::from("denied")).message(),
        "could not create directory 'build': denied"
    );
    let none = AggregateError { errs: vec![] };
    assert_eq!(none.message(), "found the following 0 error(s) while working on packages\n");
}

#[test]
fn recipe_without_sources_clears_download_stage() {
    let pkg = mkpkg::package::BuildFile::with_urls(vec![]);
    assert!(pkg.source().is_empty());
    let mut s = Scheduler::new(1, 1, false);
    assert_eq!(s.next(0), Poll::Run(0));
    assert!(s.finish(0, 0, true));
    assert_eq!(s.next(0), Poll::Advance);
    assert_eq!(s.succeeded(), 1);
    assert_eq!(s.failed(), 0);
}

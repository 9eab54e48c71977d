use mkpkg::network::{
    accepts_byte_ranges, append_body, check_complete, download_size, SourceReport,
    bar_for_response, check_file_source, file_source_path, parse_content_range, plan_git,
    plan_http, range_header, range_length, source_prefix, update_due, BarSetup, Checkout, GitBar,
    GitPlan, GitStyle, HttpPlan, NetworkError, SourceKind,
};
use mkpkg::package::PackageError;

#[test]
fn classify_http_source() {
    match SourceKind::classify("https://ex/good.tar.gz") {
        Ok(SourceKind::Http { url, filename }) => {
            assert_eq!(url, "https://ex/good.tar.gz");
            assert_eq!(filename, "good.tar.gz");
        }
        other => panic!("unexpected {:?}", other),
    }
}

#[test]
fn classify_git_source_with_tag() {
    match SourceKind::classify("git+https://ex/repo.git#tag=v1.2.3") {
        Ok(SourceKind::Git { clone_url, fragment, filename }) => {
            assert_eq!(clone_url, "https://ex/repo.git");
            assert_eq!(fragment.as_deref(), Some("tag=v1.2.3"));
            assert_eq!(filename, "repo.git");
        }
        other => panic!("unexpected {:?}", other),
    }
    match Checkout::from_fragment(Some("tag=v1.2.3"), "git+https://ex/repo.git#tag=v1.2.3") {
        Ok(Checkout::Tag(t)) => assert_eq!(t, "v1.2.3"),
        other => panic!("unexpected {:?}", other),
    }
}

#[test]
fn classify_plain_git_keeps_scheme() {
    match SourceKind::classify("git://ex/r#branch=dev") {
        Ok(SourceKind::Git { clone_url, fragment, filename }) => {
            assert_eq!(clone_url, "git://ex/r");
            assert_eq!(fragment.as_deref(), Some("branch=dev"));
            assert_eq!(filename, "r");
        }
        other => panic!("unexpected {:?}", other),
    }
}

#[test]
fn classify_file_and_unknown_scheme() {
    match SourceKind::classify("../../etc/passwd") {
        Ok(SourceKind::File { path }) => assert_eq!(path, "../../etc/passwd"),
        other => panic!("unexpected {:?}", other),
    }
    match SourceKind::classify("ftp://ex/a.tar") {
        Err(NetworkError::UnknownScheme(u)) => assert_eq!(u, "ftp://ex/a.tar"),
        other => panic!("unexpected {:?}", other),
    }
    assert!(matches!(
        SourceKind::classify("https://ex/"),
        Err(NetworkError::Package(PackageError::UnknownFilePath(_)))
    ));
}

#[test]
fn fragments() {
    assert!(matches!(Checkout::from_fragment(None, "u"), Ok(Checkout::Default)));
    match Checkout::from_fragment(Some("branch=stable"), "u") {
        Ok(Checkout::Branch(b)) => assert_eq!(b, "refs/remotes/origin/stable"),
        other => panic!("unexpected {:?}", other),
    }
    match Checkout::from_fragment(Some("commit=abc123"), "u") {
        Ok(Checkout::Commit(c)) => assert_eq!(c, "abc123"),
        other => panic!("unexpected {:?}", other),
    }
    match Checkout::from_fragment(Some("rev=1"), "git://ex/r#rev=1") {
        Err(NetworkError::UnknownFragment(u)) => assert_eq!(u, "git://ex/r#rev=1"),
        other => panic!("unexpected {:?}", other),
    }
}

#[test]
fn range_resumption_plan() {
    let len = range_length(Some("bytes"), Some(1000));
    assert_eq!(len, Some(1000));
    assert_eq!(plan_http(true, false, len, 400), HttpPlan::Resume(400));
    assert_eq!(range_header(400), "bytes=400-");
    assert_eq!(
        bar_for_response(Some("bytes 400-999/1000"), Some(600)),
        BarSetup::Bytes { length: 999, position: 400 }
    );
}

#[test]
fn http_plan_cases() {
    assert_eq!(plan_http(true, false, Some(1000), 1000), HttpPlan::Complete);
    assert_eq!(plan_http(true, false, Some(1000), 1200), HttpPlan::Fresh);
    assert_eq!(plan_http(true, true, Some(1000), 400), HttpPlan::Fresh);
    assert_eq!(plan_http(false, false, Some(1000), 0), HttpPlan::Fresh);
    assert_eq!(plan_http(true, false, None, 400), HttpPlan::Fresh);
}

#[test]
fn accept_ranges_values() {
    assert_eq!(range_length(Some(" bytes "), Some(5)), Some(5));
    assert_eq!(range_length(Some("none"), Some(5)), None);
    assert_eq!(range_length(None, Some(5)), None);
    assert_eq!(range_length(Some("bytes"), None), None);
}

#[test]
fn content_range_parsing() {
    assert_eq!(parse_content_range("bytes 0-499/1234"), Some((0, 499, Some(1234))));
    assert_eq!(parse_content_range("bytes 10-20/*"), Some((10, 20, None)));
    assert_eq!(parse_content_range("bytes */1234"), None);
    assert_eq!(parse_content_range("bytes 1-x/5"), None);
    assert_eq!(parse_content_range("items 1-2/5"), None);
    assert_eq!(parse_content_range("bytes 1-99999999999999999999/5"), None);
}

#[test]
fn bar_setup_fallbacks() {
    assert_eq!(bar_for_response(None, Some(77)), BarSetup::Bytes { length: 77, position: 0 });
    assert_eq!(bar_for_response(Some("garbage"), None), BarSetup::Spinner);
    assert_eq!(bar_for_response(None, None), BarSetup::Spinner);
}

#[test]
fn repaint_throttle() {
    assert!(!update_due(0, 249_999_999));
    assert!(update_due(0, 250_000_000));
    assert!(update_due(1, 0));
}

#[test]
fn git_bar_phases() {
    let mut g = GitBar::new();
    let u = g.on_progress(100, 10, 0, 0);
    assert_eq!(u.style, Some(GitStyle::Objects));
    assert_eq!(u.length, Some(100));
    assert_eq!(u.position, 10);
    let u = g.on_progress(100, 50, 0, 0);
    assert_eq!(u.style, None);
    assert_eq!(u.position, 50);
    let u = g.on_progress(100, 100, 40, 5);
    assert_eq!(u.style, Some(GitStyle::Deltas));
    assert_eq!(u.length, Some(40));
    assert_eq!(u.position, 5);
}

#[test]
fn git_plans() {
    assert!(matches!(plan_git(false, false, None), GitPlan::Clone));
    assert!(matches!(plan_git(true, true, Some(String::from("main"))), GitPlan::Reclone));
    assert!(matches!(plan_git(true, false, None), GitPlan::Reclone));
    match plan_git(true, false, Some(String::from("main"))) {
        GitPlan::Fetch(b) => assert_eq!(b, "main"),
        other => panic!("unexpected {:?}", other),
    }
}

#[test]
fn relative_file_source_escape_is_refused() {
    assert_eq!(file_source_path("/root/recipes", "x", "../../etc/passwd"), "/root/recipes/x/../../etc/passwd");
    match check_file_source("/root/recipes", "/etc/passwd") {
        Err(NetworkError::InvalidSource(p)) => assert_eq!(p, "/etc/passwd"),
        other => panic!("unexpected {:?}", other),
    }
    assert!(check_file_source("/root/recipes", "/root/recipes-evil/a").is_err());
    assert_eq!(check_file_source("/root/recipes", "/root/recipes/x/a").unwrap(), "/root/recipes/x/a");
    assert_eq!(check_file_source("/", "/etc").unwrap(), "/etc");
}

#[test]
fn lane_prefix() {
    assert_eq!(source_prefix("foo", 0), "foo/1");
    assert_eq!(source_prefix("foo", 9), "foo/10");
}

#[test]
fn network_error_messages() {
    assert_eq!(
        NetworkError::InvalidSource(String::from("/etc/passwd")).message(),
        "'/etc/passwd' is an invalid source file path"
    );
    assert_eq!(
        NetworkError::Reqwest(String::from("b"), String::from("404 Not Found")).message(),
        "failed to download 'b': 404 Not Found"
    );
}

#[test]
fn accept_ranges_lists() {
    assert!(accepts_byte_ranges("bytes, items"));
    assert!(accepts_byte_ranges("items,bytes"));
    assert!(!accepts_byte_ranges("bytesx, items"));
    assert!(!accepts_byte_ranges(""));
    assert_eq!(range_length(Some("bytes, items"), Some(5)), Some(5));
    assert_eq!(range_length(Some("none"), Some(5)), None);
}

#[test]
fn download_size_and_completeness() {
    assert_eq!(download_size(Some("bytes 400-999/1000"), Some(600)), Some(1000));
    assert_eq!(download_size(Some("bytes 400-999/*"), Some(600)), Some(1000));
    assert_eq!(download_size(None, Some(1000)), Some(1000));
    assert_eq!(download_size(None, None), None);
    assert!(check_complete("f", Some(1000), 1000).is_ok());
    assert!(check_complete("f", None, 3).is_ok());
    match check_complete("f", Some(1000), 1400) {
        Err(e @ NetworkError::Incomplete(..)) => {
            assert_eq!(e.message(), "downloaded file 'f' has 1400 bytes instead of 1000")
        }
        other => panic!("unexpected {:?}", other),
    }
}

#[test]
fn resumed_body_appends_only_on_partial_response() {
    assert!(append_body(HttpPlan::Resume(400), Some("bytes 400-999/1000")));
    assert!(!append_body(HttpPlan::Resume(400), None));
    assert!(!append_body(HttpPlan::Fresh, Some("bytes 0-9/10")));
}

#[test]
fn source_failures_fail_the_recipe() {
    let mut r = SourceReport::new();
    assert_eq!(r.outcome(), Ok(()));
    assert!(r.record(String::from("first"), false));
    assert!(!r.record(String::from("second"), true));
    assert_eq!(r.outcome(), Err(String::from("first\n\tsecond")));
}

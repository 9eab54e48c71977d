use mkpkg::builder::{BuildError, Builder};
use mkpkg::config::{Action, Config};
use mkpkg::package::{BuildFile, BuildFileRaw, PackageRaw};

fn config() -> Config {
    Config {
        pkgbuild_dir: String::from("."),
        build_dir: String::from("build"),
        log_dir: String::from("logs"),
        licenses: vec![],
        verbose: false,
        clobber: false,
        fail_fast: false,
        parallel_build: None,
        parallel_download: None,
        action: Action::Build { pkgs: vec![] },
    }
}

fn recipe() -> BuildFile {
    let raw = BuildFileRaw {
        env: Some(vec![(String::from("CFLAGS"), String::from("-O2"))]),
        package: PackageRaw {
            name: String::from("a"),
            version: String::from("1.0.0"),
            description: String::new(),
            license: vec![],
            source: vec![],
            skip_extract: None,
            skip_check: Some(true),
            prepare: Some(vec![String::from("patch -p1 < fix.diff")]),
            build: Some(vec![String::from("./configure"), String::from("make")]),
            check: None,
            install: None,
        },
    };
    BuildFile::open("a.yml", raw).ok().unwrap()
}

#[test]
fn phases_and_directories() {
    let steps = Builder::new().steps(&config(), &recipe());
    assert_eq!(steps.len(), 3);
    assert_eq!(steps[0].dir, "build/a-1.0.0/src");
    assert_eq!(steps[0].commands, vec![String::from("patch -p1 < fix.diff")]);
    assert_eq!(steps[1].dir, "build/a-1.0.0/build");
    assert_eq!(steps[1].commands, vec![String::from("./configure"), String::from("make")]);
    assert_eq!(steps[2].dir, "build/a-1.0.0/build");
    assert!(steps[2].commands.is_empty());
}

#[test]
fn command_environment() {
    let env = Builder::new().command_env(&recipe(), 8, "/abs/pkg", "/abs/build", "/abs/src");
    let pairs: Vec<(&str, &str)> = env.iter().map(|(k, v)| (k.as_str(), v.as_str())).collect();
    assert_eq!(
        pairs,
        vec![
            ("MAKEFLAGS", "-j8"),
            ("CFLAGS", "-O2"),
            ("name", "a"),
            ("version", "1.0.0"),
            ("pkgdir", "/abs/pkg"),
            ("builddir", "/abs/build"),
            ("srcdir", "/abs/src"),
        ]
    );
}

#[test]
fn lane_message_is_first_line_truncated() {
    assert_eq!(Builder::command_message("make all\nmake install", "a", 80), "make all");
    assert_eq!(Builder::command_message("make all\r\nx", "a", 80), "make all");
    assert_eq!(Builder::command_message("0123456789", "abcd", 15), "01234");
    assert_eq!(Builder::command_message("0123456789", "abcd", 5), "");
    assert_eq!(Builder::command_message("", "a", 80), "");
}

#[test]
fn command_exit_status() {
    assert!(Builder::command_result("a", "make", true, Some(0)).is_ok());
    match Builder::command_result("a", "make", false, Some(2)) {
        Err(e @ BuildError::Command(..)) => {
            assert_eq!(e.message(), "package 'a' failed on command 'make' with Some(2)")
        }
        other => panic!("unexpected {:?}", other),
    }
    match Builder::command_result("a", "make", false, None) {
        Err(e) => assert_eq!(e.message(), "package 'a' failed on command 'make' with None"),
        other => panic!("unexpected {:?}", other),
    }
    assert_eq!(
        BuildError::Command(String::from("a"), String::from("x"), Some(-3)).message(),
        "package 'a' failed on command 'x' with Some(-3)"
    );
}

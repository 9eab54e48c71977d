use mkpkg::config::{Action, Config};
use mkpkg::package::{env_keys_unique, subst_vars, BuildFile, BuildFileRaw, Package, PackageError, PackageRaw, Version};

fn config(build_dir: &str) -> Config {
    Config {
        pkgbuild_dir: String::from("recipes"),
        build_dir: String::from(build_dir),
        log_dir: String::from("logs"),
        licenses: vec![String::from("all")],
        verbose: false,
        clobber: false,
        fail_fast: false,
        parallel_build: None,
        parallel_download: None,
        action: Action::Build { pkgs: vec![] },
    }
}

fn raw(env: Option<Vec<(String, String)>>, name: &str, version: &str, description: &str) -> BuildFileRaw {
    BuildFileRaw {
        env,
        package: PackageRaw {
            name: name.to_string(),
            version: version.to_string(),
            description: description.to_string(),
            license: vec![String::from("MIT")],
            source: vec![String::from("https://ex/$name-$version.tar.gz")],
            skip_extract: None,
            skip_check: None,
            prepare: None,
            build: Some(vec![String::from("make")]),
            check: Some(vec![String::from("make check")]),
            install: None,
        },
    }
}

fn pair(k: &str, v: &str) -> (String, String) {
    (k.to_string(), v.to_string())
}

#[test]
fn substitution_keeps_identifier_adjacent_occurrence() {
    assert_eq!(subst_vars("$name and $nameserver", "$name", "foo"), "foo and $nameserver");
}

#[test]
fn substitution_at_end_and_between_dollars() {
    assert_eq!(subst_vars("x$a", "$a", "1"), "x1");
    assert_eq!(subst_vars("$a$a", "$a", "1"), "11");
    assert_eq!(subst_vars("$a-$ab $a_", "$a", "1"), "1-$ab $a_");
    assert_eq!(subst_vars("no vars", "$a", "1"), "no vars");
}

#[test]
fn open_substitutes_declared_variables() {
    let env = vec![pair("name", "foo")];
    let b = BuildFile::open("x/foo.yml", raw(Some(env), "$name", "1.0.0", "$name and $nameserver"))
        .ok()
        .unwrap();
    assert_eq!(b.name(), "foo");
    assert_eq!(b.description(), "foo and $nameserver");
    assert_eq!(b.source()[0], "https://ex/foo-1.0.0.tar.gz");
    assert_eq!(b.path(), "x/foo.yml");
    assert_eq!(b.parent_dir(), "x");
}

#[test]
fn open_binds_name_and_version() {
    let env = vec![pair("name", "old"), pair("cc", "gcc")];
    let b = BuildFile::open("foo.yml", raw(Some(env), "foo", "2.1.3", "d")).ok().unwrap();
    let e = b.env();
    assert_eq!(e.len(), 3);
    assert_eq!(e[0], pair("cc", "gcc"));
    assert_eq!(e[1], pair("name", "foo"));
    assert_eq!(e[2], pair("version", "2.1.3"));
    assert_eq!(b.parent_dir(), "");
}

#[test]
fn open_requires_check_step() {
    let mut r = raw(None, "foo", "1.0.0", "d");
    r.package.check = None;
    assert!(matches!(BuildFile::open("foo.yml", r), Err(PackageError::NeedsCheck)));
    let mut r = raw(None, "foo", "1.0.0", "d");
    r.package.check = None;
    r.package.skip_check = Some(true);
    assert!(BuildFile::open("foo.yml", r).is_ok());
}

#[test]
fn open_rejects_bad_version() {
    match BuildFile::open("foo.yml", raw(None, "foo", "1.0", "d")) {
        Err(PackageError::InvalidVersion(v, _)) => assert_eq!(v, "1.0"),
        other => panic!("unexpected {:?}", other),
    }
}

#[test]
fn version_text_round_trip() {
    let v = Version::parse("1.2.3-alpha.1+build.5").unwrap();
    assert_eq!((v.major, v.minor, v.patch), (1, 2, 3));
    assert_eq!(v.pre, "alpha.1");
    assert_eq!(v.build, "build.5");
    assert_eq!(v.to_text(), "1.2.3-alpha.1+build.5");
    assert_eq!(Version::new(10, 0, 7).to_text(), "10.0.7");
    assert!(Version::parse("one").is_err());
}

#[test]
fn layout_paths() {
    let b = BuildFile::open("foo.yml", raw(None, "a", "1.0.0", "d")).ok().unwrap();
    let c = config("build");
    assert_eq!(b.base_dir(&c), "build/a-1.0.0");
    assert_eq!(b.download_dir(&c), "build/a-1.0.0/src");
    assert_eq!(b.build_dir(&c), "build/a-1.0.0/build");
    assert_eq!(b.archive_out_dir(&c), "build/a-1.0.0/build");
    assert_eq!(b.pkg_dir(&c), "build/a-1.0.0/pkg");
    assert_eq!(b.log_dir(&c), "build/a-1.0.0/log");
    assert_eq!(b.stdout_log(&c), "build/a-1.0.0/log/stdout.log");
    assert_eq!(b.stderr_log(&c), "build/a-1.0.0/log/stderr.log");
    assert_eq!(b.artifact_path(&c), "build/a-1.0.0/a-1.0.0.tar.xz");
    assert_eq!(b.tar_path(&c), "build/a-1.0.0/a-1.0.0.tar");
    assert_eq!(b.pkgbuild_dir(&c), "recipes");
    let c2 = config("/tmp/out/");
    assert_eq!(b.base_dir(&c2), "/tmp/out/a-1.0.0");
}

#[test]
fn layout_is_deterministic() {
    let c = config("build");
    let b1 = BuildFile::open("foo.yml", raw(None, "a", "1.0.0", "one")).ok().unwrap();
    let b2 = BuildFile::open("other.yml", raw(None, "a", "1.0.0", "two")).ok().unwrap();
    assert_eq!(b1.base_dir(&c), b1.base_dir(&c));
    assert_eq!(b1.base_dir(&c), b2.base_dir(&c));
    assert_eq!(b1.artifact_path(&c), b2.artifact_path(&c));
    assert_eq!(b1.stdout_log(&c), b2.stdout_log(&c));
}

#[test]
fn file_path_from_url_or_path() {
    assert_eq!(BuildFile::file_path("https://ex/good.tar.gz").unwrap(), "good.tar.gz");
    assert_eq!(BuildFile::file_path("patches/fix.diff").unwrap(), "patches/fix.diff");
    match BuildFile::file_path("https://ex/dir/") {
        Err(PackageError::UnknownFilePath(u)) => assert_eq!(u, "https://ex/dir/"),
        other => panic!("unexpected {:?}", other),
    }
    assert!(matches!(BuildFile::file_path("mailto:a@b"), Err(PackageError::UnknownFilePath(_))));
}

#[test]
fn file_download_path_under_source_dir() {
    let b = BuildFile::with_urls(vec![String::from("https://ex/x.tgz")]);
    let c = config("b");
    assert_eq!(b.file_download_path(&c, "https://ex/x.tgz").unwrap(), "b/-0.0.0/src/x.tgz");
}

#[test]
fn info_lists_name_version_licenses() {
    let b = BuildFile::open("foo.yml", raw(None, "a", "1.0.0", "A tool")).ok().unwrap();
    assert_eq!(b.info(), "a 1.0.0 [\"MIT\"]\nA tool");
}

#[test]
fn getters_default_flags() {
    let b = BuildFile::with_urls(vec![]);
    assert!(!b.skip_extract());
    assert!(!b.skip_check());
    assert!(b.prepare().is_none());
    assert!(b.source().is_empty());
    let p: &Package = &b.package;
    assert_eq!(p.version.to_text(), "0.0.0");
}

#[test]
fn skip_extract_flag() {
    let mut r = raw(None, "a", "1.0.0", "d");
    r.package.skip_extract = Some(true);
    let b = BuildFile::open("a.yml", r).ok().unwrap();
    assert!(b.skip_extract());
}

#[test]
fn package_error_messages() {
    assert_eq!(PackageError::NeedsCheck.message(), "the check step is required unless skip_check is true");
    assert_eq!(
        PackageError::UnknownFilePath(String::from("https://ex/")).message(),
        "could not determine file path from the URL: https://ex/"
    );
}

#[test]
fn duplicate_variable_names_are_detected() {
    assert!(env_keys_unique(&vec![pair("a", "1"), pair("b", "2")]));
    assert!(!env_keys_unique(&vec![pair("a", "1"), pair("b", "2"), pair("a", "3")]));
    assert!(env_keys_unique(&vec![]));
}

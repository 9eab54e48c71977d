use mkpkg::config::{sorted_unique, Action};
use mkpkg::path::{is_within, join_path};
use mkpkg::util::{convert_u32, cpu_count, display_msg, is_u32, path_to_string, parse_u32, NumberError, UtilError};

#[test]
fn decimal_options() {
    assert_eq!(is_u32(String::from("42")), Ok(()));
    assert_eq!(is_u32(String::from("+7")), Ok(()));
    assert_eq!(is_u32(String::from("4294967295")), Ok(()));
    assert_eq!(is_u32(String::from("")), Err(String::from("cannot parse integer from empty string")));
    assert_eq!(is_u32(String::from("-1")), Err(String::from("invalid digit found in string")));
    assert_eq!(is_u32(String::from("+")), Err(String::from("invalid digit found in string")));
    assert_eq!(is_u32(String::from("4294967296")), Err(String::from("number too large to fit in target type")));
    assert_eq!(parse_u32("12x"), Err(NumberError::InvalidDigit));
    assert_eq!(convert_u32(Some("16")), Some(16));
    assert_eq!(convert_u32(None), None);
}

#[test]
fn messages_and_paths() {
    assert_eq!(display_msg("hello"), "mkpkg: hello");
    assert_eq!(path_to_string("a/b"), "a/b");
    assert_eq!(join_path("a", "b"), "a/b");
    assert_eq!(join_path("a/", "b"), "a/b");
    assert_eq!(join_path("", "b"), "b");
    assert_eq!(join_path("a", "/b"), "/b");
    assert!(is_within("/a", "/a"));
    assert!(is_within("/a", "/a/b"));
    assert!(!is_within("/a", "/ab"));
    assert!(cpu_count() >= 1);
}

#[test]
fn recipe_names_sorted_and_deduplicated() {
    let names = vec![String::from("zlib.yml"), String::from("bash.yml"), String::from("zlib.yml"), String::from("b.yml")];
    assert_eq!(sorted_unique(&names), vec![String::from("b.yml"), String::from("bash.yml"), String::from("zlib.yml")]);
    let a = Action::Describe { pkgs: names };
    assert_eq!(a.package_names().len(), 3);
}

#[test]
fn util_error_messages() {
    assert_eq!(
        UtilError::Copy(String::from("a"), String::from("b"), String::from("denied")).message(),
        "could not copy file from 'a' to 'b': denied"
    );
}

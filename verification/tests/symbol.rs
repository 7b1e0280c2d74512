use asynckit::remangle::symbol::{short_file_name, split_last, symbol_line};
use asynckit::text::append_decimal;

#[test]
fn symbol_lines_name_the_place() {
    assert_eq!(
        symbol_line(Some("a::b"), Some("/home/x/src/foo/src/bar.rs"), Some(12), Some(5)),
        "a::b (bar.rs:12:5)"
    );
    assert_eq!(symbol_line(Some("a::b"), Some("proj/examples/ex.rs"), Some(7), None), "a::b (ex.rs:7)");
    assert_eq!(symbol_line(Some("a"), Some("lib.rs"), None, Some(3)), "a (lib.rs)");
    assert_eq!(symbol_line(Some("a"), None, Some(1), Some(2)), "a");
    assert_eq!(symbol_line(None, Some("x.rs"), Some(1), Some(2)), "");
    assert_eq!(symbol_line(Some("a::b[1234]::c"), None, None, None), "a::b::c");
}

#[test]
fn split_last_takes_what_follows_the_last_match() {
    assert_eq!(split_last("src/asrc/b", "src/"), "b");
    assert_eq!(split_last("abc", "src/"), "abc");
    assert_eq!(split_last("x/src/", "src/"), "");
    assert_eq!(short_file_name("/a/src/examples/src/e.rs"), "e.rs");
    assert_eq!(short_file_name("/a/examples/b/src/c.rs"), "c.rs");
}

#[test]
fn decimals_have_no_leading_zeros() {
    for (n, text) in [(0u64, "0"), (7, "7"), (10, "10"), (1234567, "1234567"), (u32::MAX as u64, "4294967295"), (u64::MAX, "18446744073709551615")] {
        let mut out = String::from(">");
        append_decimal(&mut out, n);
        assert_eq!(out, format!(">{}", text));
    }
}

use saur::text::{contains, decimal, trim};
use saur::utils::{accepts, read_lines_to_strings};

#[test]
fn lines_split_on_line_feeds() {
    let lines = read_lines_to_strings("a\nbb\r\n\nc".to_string());
    assert_eq!(lines, vec!["a", "bb", "", "c"]);
}

#[test]
fn lines_without_final_empty_line() {
    assert_eq!(read_lines_to_strings("x\ny\n".to_string()), vec!["x", "y"]);
    assert_eq!(read_lines_to_strings(String::new()), Vec::<String>::new());
    assert_eq!(read_lines_to_strings("\n".to_string()), vec![""]);
}

#[test]
fn lines_keep_lone_carriage_return() {
    assert_eq!(read_lines_to_strings("a\rb\r".to_string()), vec!["a\rb\r"]);
}

#[test]
fn lines_hold_no_line_feed() {
    for l in read_lines_to_strings("p\nq\r\n\r\nr".to_string()) {
        assert!(!l.contains('\n'));
    }
}

#[test]
fn trim_strips_unicode_whitespace() {
    assert_eq!(trim("  \t hello world \n"), "hello world");
    assert_eq!(trim("\u{3000}x\u{a0}"), "x");
    assert_eq!(trim(" \n\t "), "");
    assert_eq!(trim("abc"), "abc");
}

#[test]
fn contains_finds_substrings() {
    assert!(contains("yay-bin", "yay"));
    assert!(contains("yay-bin", "-b"));
    assert!(contains("abc", ""));
    assert!(!contains("yay", "yay-bin"));
    assert!(!contains("paru", "yay"));
}

#[test]
fn decimal_writes_numbers() {
    assert_eq!(decimal(0), "0");
    assert_eq!(decimal(7), "7");
    assert_eq!(decimal(25), "25");
    assert_eq!(decimal(1034), "1034");
}

#[test]
fn accept_prompt_answers() {
    assert!(accepts("\n"));
    assert!(accepts("y\n"));
    assert!(accepts("  y  "));
    assert!(!accepts("n\n"));
    assert!(!accepts("Y\n"));
    assert!(!accepts("yes"));
}

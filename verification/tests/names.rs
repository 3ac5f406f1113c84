use digger_decoder::file_finder::{file_safe_string, number_ignoring_non_digits, File};

#[test]
fn test_number_ignoring_non_digits() {
    assert_eq!(number_ignoring_non_digits("foobar"), 0);
    assert_eq!(number_ignoring_non_digits("1foobar"), 1);
    assert_eq!(number_ignoring_non_digits("foo1bar"), 1);
    assert_eq!(number_ignoring_non_digits("foobar1"), 1);
    assert_eq!(number_ignoring_non_digits("123foobar"), 123);
    assert_eq!(number_ignoring_non_digits("foo123bar"), 123);
    assert_eq!(number_ignoring_non_digits("foobar123"), 123);
}

#[test]
fn test_number_of_scattered_digits() {
    assert_eq!(number_ignoring_non_digits("v1g2a3.dat"), 123);
    assert_eq!(number_ignoring_non_digits(""), 0);
}

#[test]
fn test_file_safe_string_keeps_letters_and_digits() {
    assert_eq!(file_safe_string("Hello, World! 42"), "Hello World 42");
    assert_eq!(file_safe_string("abc"), "abc");
    assert_eq!(file_safe_string(""), "");
}

#[test]
fn test_file_safe_string_collapses_runs() {
    // every run of other characters before a kept character becomes one
    // space, a leading run included
    assert_eq!(file_safe_string("a---b"), "a b");
    assert_eq!(file_safe_string("!!abc"), " abc");
    assert_eq!(file_safe_string("abc!!"), "abc");
}

#[test]
fn test_file_struct_carries_plain_values() {
    let f = File {
        path: String::from("lemmings/vgagr3.dat"),
        name: String::from("vgagr3.dat"),
        number: 3,
        data: vec![1, 2, 3],
    };
    assert_eq!(f.number, 3);
    assert_eq!(f.data.len(), 3);
}

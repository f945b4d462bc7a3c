use maths_api::output::extract_result;

#[test]
fn single_marker_line_is_extracted() {
    assert_eq!(extract_result("result=3\n"), Some("3".to_string()));
}

#[test]
fn surrounding_lines_do_not_matter() {
    let out = "loading stdlib\nwarming up\nresult=42\ntook 3ms\n";
    assert_eq!(extract_result(out), Some("42".to_string()));
}

#[test]
fn first_of_several_marker_lines_is_honored() {
    let out = "result=1\nresult=2\nresult=3\n";
    assert_eq!(extract_result(out), Some("1".to_string()));
}

#[test]
fn no_marker_means_no_value() {
    assert_eq!(extract_result("done\nno final expression\n"), None);
    assert_eq!(extract_result(""), None);
}

#[test]
fn marker_must_open_the_line() {
    assert_eq!(extract_result("the result=5 was printed\n"), None);
    assert_eq!(extract_result("xresult=5\n"), None);
}

#[test]
fn marker_counts_without_trailing_newline() {
    assert_eq!(extract_result("result=7"), Some("7".to_string()));
}

#[test]
fn carriage_return_before_newline_is_stripped() {
    assert_eq!(extract_result("result=7\r\nrest\r\n"), Some("7".to_string()));
}

#[test]
fn carriage_return_without_newline_stays() {
    assert_eq!(extract_result("result=7\r"), Some("7\r".to_string()));
}

#[test]
fn empty_remainder_is_still_a_value() {
    assert_eq!(extract_result("result=\n"), Some("".to_string()));
}

#[test]
fn remainder_is_taken_verbatim() {
    assert_eq!(
        extract_result("result=result=5\n"),
        Some("result=5".to_string())
    );
    assert_eq!(
        extract_result("noise\nresult= 2.75e1 \n"),
        Some(" 2.75e1 ".to_string())
    );
}

#[test]
fn non_ascii_output_is_handled() {
    let out = "längd så\nresult=3.5\nÅterstår\n";
    assert_eq!(extract_result(out), Some("3.5".to_string()));
}

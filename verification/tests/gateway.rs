use maths_api::Maths;

/// The body the HTTP layer answers with: the parsed number's decimal
/// form, or `0.0` when no result was captured.
fn response_body(maths: &Maths) -> String {
    match maths.get_result() {
        Some(text) => {
            let value: f64 = text.parse().expect("failed to parse result");
            format!("{}", value)
        }
        None => "0.0".to_string(),
    }
}

#[test]
fn test_run_route() {
    // For the script `let result = @CubeRt(27)` the interpreter's CLI
    // contract makes it print the line `result=3`; the route then answers
    // with the number's decimal form.
    let _script = "let result = @CubeRt(27)";
    let mut maths = Maths::new(Some("Maths".to_string()));
    maths.record_output("result=3\n");
    assert_eq!(maths.get_result(), Some("3".to_string()));
    assert_eq!(response_body(&maths), "3");
}

#[test]
fn no_marker_line_yields_no_value() {
    let mut maths = Maths::new(Some("Maths".to_string()));
    maths.record_output("Syntax error on line 1\nnothing evaluable\n");
    assert_eq!(maths.get_result(), None);
    assert_eq!(response_body(&maths), "0.0");
}

#[test]
fn empty_output_yields_no_value() {
    let mut maths = Maths::new(Some("Maths".to_string()));
    maths.record_output("");
    assert_eq!(maths.get_result(), None);
    assert_eq!(response_body(&maths), "0.0");
}

#[test]
fn new_call_overwrites_prior_result() {
    let mut maths = Maths::new(Some("Maths".to_string()));
    maths.record_output("result=3\n");
    assert_eq!(maths.get_result(), Some("3".to_string()));
    maths.record_output("no final expression here\n");
    assert_eq!(maths.get_result(), None);
    maths.record_output("result=-8.5\n");
    assert_eq!(maths.get_result(), Some("-8.5".to_string()));
    assert_eq!(response_body(&maths), "-8.5");
}

#[test]
fn override_path_is_adopted_unchanged() {
    // An override bypasses provisioning: the handle carries the given
    // path itself, and constructing it touches nothing else.
    let maths = Maths::new(Some("/usr/local/bin/Maths".to_string()));
    assert_eq!(maths.executable, "/usr/local/bin/Maths");
    assert_eq!(maths.get_result(), None);
}

#[test]
fn default_path_is_the_provisioned_layout() {
    let maths = Maths::new(None);
    assert_eq!(maths.executable, "./ml-api/Maths-Lang/target/debug/Maths");
    assert_eq!(maths.get_result(), None);
}

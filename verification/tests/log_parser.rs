use offleaf::diagnostics::parse_latex_log;

#[test]
fn clean_log_yields_nothing() {
    let (errors, warnings) = parse_latex_log("Some ordinary line\nAnother line\n");
    assert!(errors.is_empty());
    assert!(warnings.is_empty());
}

#[test]
fn empty_log_yields_nothing() {
    let (errors, warnings) = parse_latex_log("");
    assert!(errors.is_empty());
    assert!(warnings.is_empty());
}

#[test]
fn bang_line_is_an_error_with_unknown_line() {
    let (errors, warnings) = parse_latex_log("! Undefined control sequence.");
    assert_eq!(errors.len(), 1);
    assert_eq!(errors[0].line, 0);
    assert_eq!(errors[0].message, "Undefined control sequence.");
    assert!(errors[0].file.is_none());
    assert!(warnings.is_empty());
}

#[test]
fn repeated_bangs_are_stripped() {
    let (errors, _) = parse_latex_log("!!! oops");
    assert_eq!(errors.len(), 1);
    assert_eq!(errors[0].line, 0);
    assert_eq!(errors[0].message, "oops");
}

#[test]
fn line_number_line_is_an_error_at_that_line() {
    let (errors, warnings) = parse_latex_log("l.42 \\foo");
    assert_eq!(errors.len(), 1);
    assert_eq!(errors[0].line, 42);
    assert_eq!(errors[0].message, "\\foo");
    assert!(errors[0].file.is_none());
    assert!(warnings.is_empty());
}

#[test]
fn line_number_line_with_empty_message_is_dropped() {
    let (errors, warnings) = parse_latex_log("l.42 ");
    assert!(errors.is_empty());
    assert!(warnings.is_empty());
}

#[test]
fn line_number_without_space_is_ignored() {
    let (errors, warnings) = parse_latex_log("l.42");
    assert!(errors.is_empty());
    assert!(warnings.is_empty());
}

#[test]
fn line_number_with_letters_in_digits_is_ignored() {
    let (errors, warnings) = parse_latex_log("l.4a2 stuff");
    assert!(errors.is_empty());
    assert!(warnings.is_empty());
}

#[test]
fn huge_line_number_is_dropped() {
    let (errors, warnings) = parse_latex_log("l.99999999999 x");
    assert!(errors.is_empty());
    assert!(warnings.is_empty());
}

#[test]
fn warning_line_is_kept_verbatim() {
    let line = "LaTeX Warning: Reference `fig' undefined.";
    let (errors, warnings) = parse_latex_log(line);
    assert!(errors.is_empty());
    assert_eq!(warnings.len(), 1);
    assert_eq!(warnings[0].line, 0);
    assert_eq!(warnings[0].message, line);
    assert!(warnings[0].file.is_none());
}

#[test]
fn latex_error_line_is_kept_verbatim() {
    let line = "./main.tex:5: LaTeX Error: Environment foo undefined.";
    let (errors, warnings) = parse_latex_log(line);
    assert_eq!(errors.len(), 1);
    assert_eq!(errors[0].line, 0);
    assert_eq!(errors[0].message, line);
    assert!(warnings.is_empty());
}

#[test]
fn bang_beats_later_rules() {
    // a line that would also match the LaTeX Error rule yields exactly one
    // record, classified by the first rule
    let (errors, warnings) = parse_latex_log("! LaTeX Error: boom");
    assert_eq!(errors.len(), 1);
    assert_eq!(errors[0].message, "LaTeX Error: boom");
    assert!(warnings.is_empty());
}

#[test]
fn numbered_error_beats_warning_rule() {
    let (errors, warnings) = parse_latex_log("l.3 Warning: not really");
    assert_eq!(errors.len(), 1);
    assert_eq!(errors[0].line, 3);
    assert_eq!(errors[0].message, "Warning: not really");
    assert!(warnings.is_empty());
}

#[test]
fn records_keep_line_order_and_crlf_is_stripped() {
    let log = "! first\r\nLaTeX Warning: w1\r\nl.7 second\r\n";
    let (errors, warnings) = parse_latex_log(log);
    assert_eq!(errors.len(), 2);
    assert_eq!(errors[0].message, "first");
    assert_eq!(errors[1].line, 7);
    assert_eq!(errors[1].message, "second");
    assert_eq!(warnings.len(), 1);
    assert_eq!(warnings[0].message, "LaTeX Warning: w1");
}

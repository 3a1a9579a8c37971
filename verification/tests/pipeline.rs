use offleaf::diagnostics::parse_latex_log;
use offleaf::pipeline::{
    assemble_outcome, build_availability, combine_output, compiler_args, is_safe_relative_path,
    known_engines, main_tex_filename, output_pdf_filename, resolve_engine, CompilePhase,
    TwoPassRun,
};
use offleaf::text::chars_of;

#[test]
fn default_engine_applies_when_unset() {
    assert_eq!(resolve_engine(&None), "xelatex");
    assert_eq!(resolve_engine(&Some("pdflatex".to_string())), "pdflatex");
}

#[test]
fn the_three_known_engines_are_probed() {
    assert_eq!(
        known_engines(),
        vec!["xelatex".to_string(), "pdflatex".to_string(), "lualatex".to_string()]
    );
}

#[test]
fn availability_reports_one_entry_per_engine() {
    let avail = build_availability(true, false, true);
    assert_eq!(avail.len(), 3);
    assert_eq!(avail[0], ("xelatex".to_string(), true));
    assert_eq!(avail[1], ("pdflatex".to_string(), false));
    assert_eq!(avail[2], ("lualatex".to_string(), true));
}

#[test]
fn fixed_filenames() {
    assert_eq!(main_tex_filename(), "main.tex");
    assert_eq!(output_pdf_filename(), "main.pdf");
}

#[test]
fn compiler_arguments_are_exactly_the_required_flags() {
    let args = compiler_args("/tmp/ws", "/tmp/ws/main.tex");
    assert_eq!(
        args,
        vec![
            "-interaction=nonstopmode".to_string(),
            "-halt-on-error".to_string(),
            "-file-line-error".to_string(),
            "-output-directory".to_string(),
            "/tmp/ws".to_string(),
            "/tmp/ws/main.tex".to_string(),
        ]
    );
}

#[test]
fn combined_output_is_stdout_then_stderr() {
    assert_eq!(combine_output("out", "err"), "out\nerr");
    assert_eq!(combine_output("", ""), "\n");
}

#[test]
fn second_pass_runs_only_after_a_successful_first_pass() {
    let mut run = TwoPassRun::new();
    assert!(run.pending_pass());
    run.record_pass(true, "first log".to_string());
    assert_eq!(run.phase, CompilePhase::SecondPass);
    assert!(run.pending_pass());
    run.record_pass(false, "second log".to_string());
    assert_eq!(run.phase, CompilePhase::Finished);
    assert!(!run.pending_pass());
    // the log kept for parsing is the second pass's
    assert_eq!(run.log, "second log");
}

#[test]
fn failed_first_pass_finishes_at_once_with_its_log() {
    let mut run = TwoPassRun::new();
    run.record_pass(false, "first log".to_string());
    assert_eq!(run.phase, CompilePhase::Finished);
    assert!(!run.pending_pass());
    assert_eq!(run.log, "first log");
}

#[test]
fn absent_artifact_means_failure_regardless_of_exit_status() {
    let (errors, warnings) = parse_latex_log("! boom");
    let outcome = assemble_outcome("! boom".to_string(), None, errors, warnings);
    assert!(!outcome.success);
    assert!(outcome.pdf_data.is_none());
    assert!(outcome.pdf_path.is_none());
    assert_eq!(outcome.log, "! boom");
    assert_eq!(outcome.errors.len(), 1);
}

#[test]
fn present_artifact_means_success_with_its_bytes() {
    let (errors, warnings) = parse_latex_log("");
    let outcome = assemble_outcome(
        "fine".to_string(),
        Some(("/ws/main.pdf".to_string(), vec![1u8, 2, 3])),
        errors,
        warnings,
    );
    assert!(outcome.success);
    assert_eq!(outcome.pdf_path.as_deref(), Some("/ws/main.pdf"));
    assert_eq!(outcome.pdf_data, Some(vec![1u8, 2, 3]));
}

#[test]
fn traversal_paths_are_rejected() {
    let safe = |p: &str| is_safe_relative_path(&chars_of(p));
    assert!(safe("figs/plot.png"));
    assert!(safe("a..b/c"));
    assert!(safe("notes.tex"));
    assert!(!safe(""));
    assert!(!safe("/etc/passwd"));
    assert!(!safe(".."));
    assert!(!safe("../x"));
    assert!(!safe("a/../b"));
    assert!(!safe("a/.."));
    assert!(!safe("dir\\file"));
    assert!(!safe("C:/x"));
}

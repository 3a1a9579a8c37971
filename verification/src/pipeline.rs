//! The compile pipeline's decision core: engine selection, the compiler's
//! invocation arguments, the two-pass control state machine (a second pass
//! runs only after a successful first pass, and the log kept for parsing is
//! the second pass's if it ran, else the first's), assembly of the final
//! outcome (success is artifact presence, never the compiler's exit
//! status), and the path-traversal check every auxiliary file must pass
//! before it is written into the build workspace.

use vstd::prelude::*;
use crate::diagnostics::{CompilationError, CompilationWarning};
use vstd::string::StringExecFns;

verus! {

/// A request to compile one document: the primary text, auxiliary files as
/// relative path/content pairs in insertion order (paths unique), the
/// selected engine (the default applies when unset), and whether missing
/// packages should be installed first.
#[derive(Debug)]
pub struct CompileRequest {
    pub content: String,
    pub files: Vec<(String, String)>,
    pub engine: Option<String>,
    pub auto_install: Option<bool>,
}

impl CompileRequest {
    /// Auxiliary file paths are unique.
    pub open spec fn well_formed(&self) -> bool {
        forall|i: int, j: int|
            0 <= i < j < self.files@.len() ==> self.files@[i].0@ != self.files@[j].0@
    }
}

/// The outcome of one compile request. The artifact is present exactly when
/// the build succeeded; the log is the raw text the parser read; the
/// diagnostics are the parser's records in order.
#[derive(Debug)]
pub struct CompilationResult {
    pub success: bool,
    pub pdf_path: Option<String>,
    pub pdf_data: Option<Vec<u8>>,
    pub log: String,
    pub errors: Vec<CompilationError>,
    pub warnings: Vec<CompilationWarning>,
}

impl CompilationResult {
    /// The artifact fields are present exactly when `success` is set.
    pub open spec fn well_formed(&self) -> bool {
        &&& self.success <==> self.pdf_data is Some
        &&& self.success <==> self.pdf_path is Some
    }
}

pub open spec fn default_engine() -> Seq<char> {
    "xelatex"@
}

pub open spec fn spec_engine_name(e: Option<Seq<char>>) -> Seq<char> {
    match e {
        Some(s) => s,
        None => default_engine(),
    }
}

/// The engine a request selects: the named one, else the default.
pub fn resolve_engine(engine: &Option<String>) -> (r: String)
    ensures
        r@ == spec_engine_name(engine.deep_view()),
{
    match engine {
        Some(e) => e.clone(),
        None => String::from_str("xelatex"),
    }
}

pub open spec fn spec_known_engines() -> Seq<Seq<char>> {
    seq!["xelatex"@, "pdflatex"@, "lualatex"@]
}

/// The closed set of engines the toolchain probe asks about.
pub fn known_engines() -> (r: Vec<String>)
    ensures
        r.deep_view() == spec_known_engines(),
{
    let mut v: Vec<String> = Vec::new();
    v.push(String::from_str("xelatex"));
    v.push(String::from_str("pdflatex"));
    v.push(String::from_str("lualatex"));
    proof {
        assert(v.deep_view() =~= spec_known_engines());
    }
    v
}

/// The availability mapping, one entry per known engine, from the three
/// probe verdicts.
pub fn build_availability(xelatex_ok: bool, pdflatex_ok: bool, lualatex_ok: bool) -> (r: Vec<
    (String, bool),
>)
    ensures
        r@.len() == 3,
        r@[0].0@ == "xelatex"@ && r@[0].1 == xelatex_ok,
        r@[1].0@ == "pdflatex"@ && r@[1].1 == pdflatex_ok,
        r@[2].0@ == "lualatex"@ && r@[2].1 == lualatex_ok,
{
    let mut v: Vec<(String, bool)> = Vec::new();
    v.push((String::from_str("xelatex"), xelatex_ok));
    v.push((String::from_str("pdflatex"), pdflatex_ok));
    v.push((String::from_str("lualatex"), lualatex_ok));
    v
}

/// The fixed filename the primary document is written under.
pub fn main_tex_filename() -> (r: String)
    ensures
        r@ == "main.tex"@,
{
    String::from_str("main.tex")
}

/// The fixed filename of the expected output artifact.
pub fn output_pdf_filename() -> (r: String)
    ensures
        r@ == "main.pdf"@,
{
    String::from_str("main.pdf")
}

pub open spec fn spec_compiler_args(workspace: Seq<char>, main_path: Seq<char>) -> Seq<Seq<char>> {
    seq![
        "-interaction=nonstopmode"@,
        "-halt-on-error"@,
        "-file-line-error"@,
        "-output-directory"@,
        workspace,
        main_path,
    ]
}

/// The argument list of one compiler pass: non-interactive batch mode, halt
/// on the first error, file/line-annotated errors, the workspace as output
/// directory, then the main document.
pub fn compiler_args(workspace: &str, main_path: &str) -> (r: Vec<String>)
    ensures
        r.deep_view() == spec_compiler_args(workspace@, main_path@),
{
    let mut v: Vec<String> = Vec::new();
    v.push(String::from_str("-interaction=nonstopmode"));
    v.push(String::from_str("-halt-on-error"));
    v.push(String::from_str("-file-line-error"));
    v.push(String::from_str("-output-directory"));
    v.push(String::from_str(workspace));
    v.push(String::from_str(main_path));
    proof {
        assert(v.deep_view() =~= spec_compiler_args(workspace@, main_path@));
    }
    v
}

/// One pass's combined output, stdout first.
pub fn combine_output(stdout: &str, stderr: &str) -> (r: String)
    ensures
        r@ == stdout@ + "\n"@ + stderr@,
{
    let mut s = String::from_str(stdout);
    s.append("\n");
    s.append(stderr);
    s
}

/// Where the two-pass run stands.
#[derive(Debug, PartialEq, Eq, Structural, Clone, Copy)]
pub enum CompilePhase {
    FirstPass,
    SecondPass,
    Finished,
}

/// The two-pass compile state machine. The first pass always runs; the
/// second runs only when the first exited successfully; the log kept for
/// parsing is the last recorded pass's combined output.
#[derive(Debug)]
pub struct TwoPassRun {
    pub phase: CompilePhase,
    pub log: String,
}

impl TwoPassRun {
    /// A run that has executed nothing yet.
    pub fn new() -> (r: Self)
        ensures
            r.phase is FirstPass,
            r.log@ == Seq::<char>::empty(),
    {
        TwoPassRun { phase: CompilePhase::FirstPass, log: String::new() }
    }

    /// Another compiler pass is still owed.
    pub fn pending_pass(&self) -> (r: bool)
        ensures
            r == !(self.phase is Finished),
    {
        match self.phase {
            CompilePhase::Finished => false,
            _ => true,
        }
    }

    /// Record the pass that just ran. A successful first pass schedules the
    /// second and keeps no log (the second pass's log will replace it); a
    /// failed first pass finishes at once with its log; the second pass
    /// always finishes with its log.
    pub fn record_pass(&mut self, exit_ok: bool, combined_log: String)
        requires
            !(old(self).phase is Finished),
        ensures
            old(self).phase is FirstPass && exit_ok ==> final(self).phase is SecondPass
                && final(self).log == old(self).log,
            old(self).phase is FirstPass && !exit_ok ==> final(self).phase is Finished
                && final(self).log == combined_log,
            old(self).phase is SecondPass ==> final(self).phase is Finished && final(self).log
                == combined_log,
    {
        match self.phase {
            CompilePhase::FirstPass => {
                if exit_ok {
                    self.phase = CompilePhase::SecondPass;
                } else {
                    self.phase = CompilePhase::Finished;
                    self.log = combined_log;
                }
            },
            _ => {
                self.phase = CompilePhase::Finished;
                self.log = combined_log;
            },
        }
    }
}

/// Assemble the final outcome. Success is exactly the presence of the
/// expected artifact — never the compiler's exit status: when the artifact
/// is absent the outcome's flag is false and no bytes are carried, whatever
/// the processes reported.
pub fn assemble_outcome(
    log: String,
    artifact: Option<(String, Vec<u8>)>,
    errors: Vec<CompilationError>,
    warnings: Vec<CompilationWarning>,
) -> (r: CompilationResult)
    ensures
        r.well_formed(),
        r.success == artifact is Some,
        artifact is Some ==> r.pdf_path == Some((artifact->0).0) && r.pdf_data == Some(
            (artifact->0).1,
        ),
        r.log == log,
        r.errors == errors,
        r.warnings == warnings,
{
    match artifact {
        Some((path, data)) => CompilationResult {
            success: true,
            pdf_path: Some(path),
            pdf_data: Some(data),
            log,
            errors,
            warnings,
        },
        None => CompilationResult {
            success: false,
            pdf_path: None,
            pdf_data: None,
            log,
            errors,
            warnings,
        },
    }
}

/// `..` stands as a whole path component beginning at `i`.
pub open spec fn is_dotdot_at(p: Seq<char>, i: int) -> bool {
    &&& 0 <= i
    &&& i + 2 <= p.len()
    &&& p[i] == '.'
    &&& p[i + 1] == '.'
    &&& (i == 0 || p[i - 1] == '/')
    &&& (i + 2 == p.len() || p[i + 2] == '/')
}

/// A relative path that cannot escape the workspace root: non-empty, not
/// absolute, without backslashes or drive separators, and without any `..`
/// component.
pub open spec fn spec_safe_relative_path(p: Seq<char>) -> bool {
    &&& p.len() > 0
    &&& p[0] != '/'
    &&& forall|i: int| 0 <= i < p.len() ==> p[i] != '\\' && p[i] != ':'
    &&& !(exists|i: int| is_dotdot_at(p, i))
}

/// Decide whether an auxiliary file's relative path may be materialized
/// under the workspace root.
pub fn is_safe_relative_path(path: &Vec<char>) -> (r: bool)
    ensures
        r == spec_safe_relative_path(path@),
{
    if path.len() == 0 {
        return false;
    }
    if path[0] == '/' {
        return false;
    }
    let mut i: usize = 0;
    while i < path.len()
        invariant
            0 <= i <= path.len(),
            forall|k: int| 0 <= k < i ==> path@[k] != '\\' && path@[k] != ':',
        decreases path.len() - i,
    {
        if path[i] == '\\' || path[i] == ':' {
            return false;
        }
        i += 1;
    }
    let mut j: usize = 0;
    while j < path.len() - 1
        invariant
            0 <= j,
            j <= path.len(),
            path.len() >= 1,
            forall|k: int| 0 <= k < j ==> !is_dotdot_at(path@, k),
        decreases path.len() - j,
    {
        if path[j] == '.' && path[j + 1] == '.' && (j == 0 || path[j - 1] == '/') && (j + 2
            == path.len() || path[j + 2] == '/') {
            assert(is_dotdot_at(path@, j as int));
            return false;
        }
        assert(!is_dotdot_at(path@, j as int));
        j += 1;
    }
    proof {
        assert forall|k: int| !is_dotdot_at(path@, k) by {
            if 0 <= k && k + 2 <= path@.len() {
                assert(k < j);
            }
        }
    }
    true
}

} // verus!

//! The log parser: turns the raw text a compiler run produced into ordered,
//! typed error and warning records. It never fails; a line it cannot
//! classify is ignored. Classification is per physical line, first match
//! wins, and no line produces more than one record:
//!
//! 1. a line beginning with `!` is an error whose message is the text after
//!    the leading `!` markers, trimmed; the source line is unknown (0);
//! 2. a line beginning with `l.` followed directly by digits and then a
//!    space is an error at that source line whose message is the remaining
//!    text, trimmed; if that message is empty the line yields nothing;
//! 3. a line containing `Warning:` is a warning, kept verbatim;
//! 4. a line containing `LaTeX Error:` is an error, kept verbatim;
//! 5. anything else is ignored.

use vstd::prelude::*;
use crate::text::{
    all_digits, chars_of, contains_pat, contains_sub, dec_val, digit_run_end, is_digit,
    is_digit_char, lemma_digit_run_agrees, parse_decimal_capped, spec_lines, spec_trim,
    split_lines, string_from_range, trim_range,
};

verus! {

/// An error extracted from a compiler log. `line` is 1-based; 0 means the
/// source line is unknown. `file` is never attributed by the parser.
#[derive(Debug, Clone)]
pub struct CompilationError {
    pub line: i32,
    pub message: String,
    pub file: Option<String>,
}

/// A warning extracted from a compiler log, with the same conventions as
/// `CompilationError`.
#[derive(Debug, Clone)]
pub struct CompilationWarning {
    pub line: i32,
    pub message: String,
    pub file: Option<String>,
}

/// The line starts with the error marker `!`.
pub open spec fn is_bang_line(l: Seq<char>) -> bool {
    l.len() > 0 && l[0] == '!'
}

/// Number of leading `!` characters.
pub open spec fn bang_end(l: Seq<char>) -> int
    decreases l.len(),
{
    if l.len() > 0 && l[0] == '!' {
        1 + bang_end(l.drop_first())
    } else {
        0
    }
}

pub proof fn lemma_bang_end_agrees(l: Seq<char>, k: int)
    requires
        0 <= k <= l.len(),
        forall|i: int| 0 <= i < k ==> l[i] == '!',
        k < l.len() ==> l[k] != '!',
    ensures
        bang_end(l) == k,
    decreases k,
{
    if k > 0 {
        let t = l.drop_first();
        assert forall|i: int| 0 <= i < k - 1 implies t[i] == '!' by {
            assert(t[i] == l[i + 1]);
        }
        lemma_bang_end_agrees(t, k - 1);
    }
}

/// Message of a `!` line: the text after the leading `!` markers, trimmed.
pub open spec fn bang_message(l: Seq<char>) -> Seq<char>
    recommends
        is_bang_line(l),
{
    spec_trim(l.subrange(bang_end(l), l.len() as int))
}

/// The line matches `l.` directly followed by one or more digits and then a
/// space.
pub open spec fn is_line_num_line(l: Seq<char>) -> bool {
    l.len() >= 2 && l[0] == 'l' && l[1] == '.' && {
        let d = digit_run_end(l, 2);
        d > 2 && 0 <= d < l.len() && l[d] == ' '
    }
}

/// The source line number a `l.<digits> ` line names.
pub open spec fn line_num_val(l: Seq<char>) -> int {
    dec_val(l.subrange(2, digit_run_end(l, 2)))
}

/// The message of a `l.<digits> ` line: everything after the digits, trimmed.
pub open spec fn line_num_message(l: Seq<char>) -> Seq<char> {
    spec_trim(l.subrange(digit_run_end(l, 2), l.len() as int))
}

pub open spec fn warning_pat() -> Seq<char> {
    "Warning:"@
}

pub open spec fn latex_error_pat() -> Seq<char> {
    "LaTeX Error:"@
}

/// The error record a line yields, if any: its source line (0 for unknown)
/// and its message. A `l.<digits> ` line whose number exceeds `i32::MAX` or
/// whose message is empty yields nothing, and neither marker falls through
/// to the later rules.
pub open spec fn line_error_record(l: Seq<char>) -> Option<(int, Seq<char>)> {
    if is_bang_line(l) {
        Some((0int, bang_message(l)))
    } else if is_line_num_line(l) {
        if line_num_val(l) <= 0x7fff_ffff && line_num_message(l).len() > 0 {
            Some((line_num_val(l), line_num_message(l)))
        } else {
            None
        }
    } else if contains_sub(l, warning_pat()) {
        None
    } else if contains_sub(l, latex_error_pat()) {
        Some((0int, l))
    } else {
        None
    }
}

/// The warning record a line yields, if any: the whole line verbatim.
pub open spec fn line_warning_record(l: Seq<char>) -> Option<Seq<char>> {
    if is_bang_line(l) || is_line_num_line(l) {
        None
    } else if contains_sub(l, warning_pat()) {
        Some(l)
    } else {
        None
    }
}

pub open spec fn opt_to_seq<T>(o: Option<T>) -> Seq<T> {
    match o {
        Some(x) => seq![x],
        None => Seq::empty(),
    }
}

/// All error records of a sequence of lines, in line order.
pub open spec fn errors_of_lines(ls: Seq<Seq<char>>) -> Seq<(int, Seq<char>)>
    decreases ls.len(),
{
    if ls.len() == 0 {
        Seq::empty()
    } else {
        errors_of_lines(ls.drop_last()) + opt_to_seq(line_error_record(ls.last()))
    }
}

/// All warning records of a sequence of lines, in line order.
pub open spec fn warnings_of_lines(ls: Seq<Seq<char>>) -> Seq<Seq<char>>
    decreases ls.len(),
{
    if ls.len() == 0 {
        Seq::empty()
    } else {
        warnings_of_lines(ls.drop_last()) + opt_to_seq(line_warning_record(ls.last()))
    }
}

/// The errors of a raw log: its lines classified in order.
pub open spec fn spec_log_errors(log: Seq<char>) -> Seq<(int, Seq<char>)> {
    errors_of_lines(spec_lines(log))
}

/// The warnings of a raw log: its lines classified in order.
pub open spec fn spec_log_warnings(log: Seq<char>) -> Seq<Seq<char>> {
    warnings_of_lines(spec_lines(log))
}

/// The line/message pairs a sequence of error records carries.
pub open spec fn error_models(v: Seq<CompilationError>) -> Seq<(int, Seq<char>)> {
    v.map_values(|e: CompilationError| (e.line as int, e.message@))
}

/// The messages a sequence of warning records carries.
pub open spec fn warning_models(v: Seq<CompilationWarning>) -> Seq<Seq<char>> {
    v.map_values(|w: CompilationWarning| w.message@)
}

proof fn lemma_records_prefix(ls: Seq<Seq<char>>, k: int)
    requires
        0 <= k < ls.len(),
    ensures
        errors_of_lines(ls.subrange(0, k + 1)) == errors_of_lines(ls.subrange(0, k)) + opt_to_seq(
            line_error_record(ls[k]),
        ),
        warnings_of_lines(ls.subrange(0, k + 1)) == warnings_of_lines(ls.subrange(0, k))
            + opt_to_seq(line_warning_record(ls[k])),
{
    let p = ls.subrange(0, k + 1);
    assert(p.drop_last() =~= ls.subrange(0, k));
    assert(p.last() == ls[k]);
}

/// The line carries no recognizable marker: no classification rule yields a
/// record for it.
pub open spec fn line_unclassified(l: Seq<char>) -> bool {
    line_error_record(l) is None && line_warning_record(l) is None
}

proof fn lemma_clean_lines(ls: Seq<Seq<char>>)
    requires
        forall|i: int| 0 <= i < ls.len() ==> line_unclassified(#[trigger] ls[i]),
    ensures
        errors_of_lines(ls).len() == 0,
        warnings_of_lines(ls).len() == 0,
    decreases ls.len(),
{
    if ls.len() > 0 {
        let p = ls.drop_last();
        assert forall|i: int| 0 <= i < p.len() implies line_unclassified(#[trigger] p[i]) by {
            assert(p[i] == ls[i]);
        }
        lemma_clean_lines(p);
        assert(line_unclassified(ls.last()));
    }
}

/// A log none of whose lines carries a recognizable marker parses to empty
/// error and warning sequences.
pub proof fn lemma_clean_log_yields_nothing(log: Seq<char>)
    requires
        forall|i: int|
            0 <= i < spec_lines(log).len() ==> line_unclassified(#[trigger] spec_lines(log)[i]),
    ensures
        spec_log_errors(log).len() == 0,
        spec_log_warnings(log).len() == 0,
{
    lemma_clean_lines(spec_lines(log));
}

/// Classify one line. The first component is its error record, the second
/// its warning record; at most one is present.
fn classify_line(line: &Vec<char>) -> (r: (Option<CompilationError>, Option<CompilationWarning>))
    ensures
        match r.0 {
            Some(e) => line_error_record(line@) == Some((e.line as int, e.message@)) && e.file
                is None,
            None => line_error_record(line@) is None,
        },
        match r.1 {
            Some(w) => line_warning_record(line@) == Some(w.message@) && w.line == 0 && w.file
                is None,
            None => line_warning_record(line@) is None,
        },
{
    if line.len() > 0 && line[0] == '!' {
        // rule 1: leading error marker
        let mut k: usize = 0;
        while k < line.len() && line[k] == '!'
            invariant
                0 <= k <= line.len(),
                forall|i: int| 0 <= i < k ==> line@[i] == '!',
            decreases line.len() - k,
        {
            k += 1;
        }
        proof {
            lemma_bang_end_agrees(line@, k as int);
        }
        let (a, b) = trim_range(line, k, line.len());
        let message = string_from_range(line, a, b);
        return (
            Some(CompilationError { line: 0, message, file: None }),
            None,
        );
    }
    if line.len() >= 2 && line[0] == 'l' && line[1] == '.' {
        // rule 2 candidate: find the run of digits after "l."
        let mut d: usize = 2;
        while d < line.len() && is_digit_char(line[d])
            invariant
                2 <= d <= line.len(),
                forall|i: int| 2 <= i < d ==> is_digit(line@[i]),
            decreases line.len() - d,
        {
            d += 1;
        }
        proof {
            lemma_digit_run_agrees(line@, 2, d as int);
        }
        if d > 2 && d < line.len() && line[d] == ' ' {
            proof {
                assert(all_digits(line@.subrange(2, d as int)));
            }
            let num = parse_decimal_capped(line, 2, d);
            let (a, b) = trim_range(line, d, line.len());
            match num {
                Some(n) if b > a => {
                    let message = string_from_range(line, a, b);
                    return (
                        Some(CompilationError { line: n as i32, message, file: None }),
                        None,
                    );
                },
                _ => {
                    // number out of range, or nothing after the digits
                    return (None, None);
                },
            }
        }
        // not a recognized line-number pattern; fall through to the
        // substring rules
    }
    let warning_marker = chars_of("Warning:");
    proof {
        reveal_strlit("Warning:");
    }
    if contains_pat(line, &warning_marker) {
        // rule 3: a warning, kept verbatim
        let message = string_from_range(line, 0, line.len());
        proof {
            assert(line@.subrange(0, line@.len() as int) =~= line@);
        }
        return (
            None,
            Some(CompilationWarning { line: 0, message, file: None }),
        );
    }
    let error_marker = chars_of("LaTeX Error:");
    proof {
        reveal_strlit("LaTeX Error:");
    }
    if contains_pat(line, &error_marker) {
        // rule 4: an error, kept verbatim
        let message = string_from_range(line, 0, line.len());
        proof {
            assert(line@.subrange(0, line@.len() as int) =~= line@);
        }
        return (
            Some(CompilationError { line: 0, message, file: None }),
            None,
        );
    }
    (None, None)
}

/// Parse a raw compiler log into its ordered errors and warnings.
///
/// Every error and warning of the log, as the classification rules define
/// them, appears in the result in line order; the parser attributes no
/// file, and a record whose source line is unknown carries line 0.
pub fn parse_latex_log(log: &str) -> (r: (Vec<CompilationError>, Vec<CompilationWarning>))
    ensures
        error_models(r.0@) == spec_log_errors(log@),
        warning_models(r.1@) == spec_log_warnings(log@),
        forall|i: int| 0 <= i < r.0@.len() ==> (#[trigger] r.0@[i]).file is None,
        forall|i: int|
            0 <= i < r.1@.len() ==> (#[trigger] r.1@[i]).file is None && r.1@[i].line == 0,
{
    let chars = chars_of(log);
    let lines = split_lines(&chars);
    let ghost ls = lines.deep_view();
    let mut errors: Vec<CompilationError> = Vec::new();
    let mut warnings: Vec<CompilationWarning> = Vec::new();
    let mut k: usize = 0;
    proof {
        assert(error_models(errors@) =~= errors_of_lines(ls.subrange(0, 0)));
        assert(warning_models(warnings@) =~= warnings_of_lines(ls.subrange(0, 0)));
    }
    while k < lines.len()
        invariant
            0 <= k <= lines.len(),
            ls == lines.deep_view(),
            ls.len() == lines.len(),
            error_models(errors@) == errors_of_lines(ls.subrange(0, k as int)),
            warning_models(warnings@) == warnings_of_lines(ls.subrange(0, k as int)),
            forall|i: int| 0 <= i < errors@.len() ==> (#[trigger] errors@[i]).file is None,
            forall|i: int|
                0 <= i < warnings@.len() ==> (#[trigger] warnings@[i]).file is None
                    && warnings@[i].line == 0,
        decreases lines.len() - k,
    {
        let ghost e0 = error_models(errors@);
        let ghost w0 = warning_models(warnings@);
        let line = &lines[k];
        proof {
            assert(line@ == ls[k as int]);
        }
        let (err, warn) = classify_line(line);
        if let Some(e) = err {
            errors.push(e);
        }
        if let Some(w) = warn {
            warnings.push(w);
        }
        proof {
            lemma_records_prefix(ls, k as int);
            assert(error_models(errors@) =~= e0 + opt_to_seq(line_error_record(ls[k as int])));
            assert(warning_models(warnings@) =~= w0 + opt_to_seq(
                line_warning_record(ls[k as int]),
            ));
        }
        k += 1;
    }
    proof {
        assert(ls.subrange(0, k as int) =~= ls);
        assert(spec_lines(log@) == ls);
    }
    (errors, warnings)
}

} // verus!

//! Package-manager support: parsing the package tool's textual output into
//! typed records, and assembling the outcome of install, remove and update
//! invocations. The process runs elsewhere; everything here is a pure
//! function of the captured text and the exit verdict.

use vstd::prelude::*;
use crate::text::{
    chars_of, contains_pat, contains_sub, find_char, find_char_from, find_sub, find_sub_from,
    has_pat_at, is_ws, is_ws_char, lemma_find_sub_props, remove_all, remove_all_occurrences,
    spec_lines, spec_trim, split_lines, starts_with_at, string_from_range, subvec, trim_end_idx,
    trim_range,
};
use vstd::string::StringExecFns;

verus! {

/// One package as the package tool reports it.
#[derive(Debug, Clone)]
pub struct PackageInfo {
    pub name: String,
    pub description: String,
    pub installed: bool,
    pub version: Option<String>,
    pub size: Option<String>,
}

/// The outcome of a package search: the entries in output order.
#[derive(Debug)]
pub struct PackageSearchResult {
    pub packages: Vec<PackageInfo>,
    pub total: usize,
}

/// The outcome of one install, remove or update invocation.
#[derive(Debug)]
pub struct InstallResult {
    pub success: bool,
    pub message: String,
    pub installed_packages: Vec<String>,
}

/// `s` with every trailing colon removed.
pub open spec fn strip_trailing_colons(s: Seq<char>) -> Seq<char>
    decreases s.len(),
{
    if s.len() > 0 && s.last() == ':' {
        strip_trailing_colons(s.drop_last())
    } else {
        s
    }
}

proof fn lemma_strip_colons_agrees(s: Seq<char>, e: int)
    requires
        0 <= e <= s.len(),
        forall|i: int| e <= i < s.len() ==> s[i] == ':',
        e > 0 ==> s[e - 1] != ':',
    ensures
        strip_trailing_colons(s) == s.subrange(0, e),
    decreases s.len(),
{
    if e < s.len() {
        let t = s.drop_last();
        assert forall|i: int| e <= i < t.len() implies t[i] == ':' by {
            assert(t[i] == s[i]);
        }
        lemma_strip_colons_agrees(t, e);
        assert(t.subrange(0, e) =~= s.subrange(0, e));
    } else {
        assert(s.subrange(0, e) =~= s);
    }
}

/// A search line's entry, if it yields one: the line is trimmed; an empty
/// line yields nothing; a line with a ` - ` separator yields a name and a
/// description; otherwise a line ending in a colon yields a bare name.
pub open spec fn search_entry(line: Seq<char>) -> Option<(Seq<char>, Seq<char>)> {
    let t = spec_trim(line);
    if t.len() == 0 {
        None
    } else {
        let p = find_sub(t, 0, " - "@);
        if p < t.len() {
            Some((spec_trim(t.subrange(0, p)), spec_trim(t.subrange(p + 3, t.len() as int))))
        } else if t.last() == ':' {
            Some((strip_trailing_colons(t), Seq::empty()))
        } else {
            None
        }
    }
}

pub open spec fn search_entries_of_lines(ls: Seq<Seq<char>>) -> Seq<(Seq<char>, Seq<char>)>
    decreases ls.len(),
{
    if ls.len() == 0 {
        Seq::empty()
    } else {
        search_entries_of_lines(ls.drop_last()) + (match search_entry(ls.last()) {
            Some(e) => seq![e],
            None => Seq::empty(),
        })
    }
}

/// The entries a search output yields, in output order.
pub open spec fn spec_search_output(s: Seq<char>) -> Seq<(Seq<char>, Seq<char>)> {
    search_entries_of_lines(spec_lines(s))
}

/// An installed-list line's entry, if it yields one: the line is trimmed;
/// empty lines and the tool's own banner are skipped; an `i`-prefixed line
/// with a colon yields the name and description around the first colon.
pub open spec fn installed_entry(line: Seq<char>) -> Option<(Seq<char>, Seq<char>)> {
    let t = spec_trim(line);
    if t.len() == 0 || starts_with_at(t, 0, "tlmgr"@) {
        None
    } else if t[0] == 'i' {
        let rest = spec_trim(t.subrange(1, t.len() as int));
        let c = find_char(rest, 0, ':');
        if c < rest.len() {
            Some((spec_trim(rest.subrange(0, c)), spec_trim(rest.subrange(c + 1, rest.len() as int))))
        } else {
            None
        }
    } else {
        None
    }
}

pub open spec fn installed_entries_of_lines(ls: Seq<Seq<char>>) -> Seq<(Seq<char>, Seq<char>)>
    decreases ls.len(),
{
    if ls.len() == 0 {
        Seq::empty()
    } else {
        installed_entries_of_lines(ls.drop_last()) + (match installed_entry(ls.last()) {
            Some(e) => seq![e],
            None => Seq::empty(),
        })
    }
}

/// The entries an installed-list output yields, in output order.
pub open spec fn spec_installed_list(s: Seq<char>) -> Seq<(Seq<char>, Seq<char>)> {
    installed_entries_of_lines(spec_lines(s))
}

/// The name/description pairs a parsed package list carries.
pub open spec fn info_models(v: Seq<PackageInfo>) -> Seq<(Seq<char>, Seq<char>)> {
    v.map_values(|p: PackageInfo| (p.name@, p.description@))
}

proof fn lemma_search_prefix(ls: Seq<Seq<char>>, k: int)
    requires
        0 <= k < ls.len(),
    ensures
        search_entries_of_lines(ls.subrange(0, k + 1)) == search_entries_of_lines(
            ls.subrange(0, k),
        ) + (match search_entry(ls[k]) {
            Some(e) => seq![e],
            None => Seq::empty(),
        }),
        installed_entries_of_lines(ls.subrange(0, k + 1)) == installed_entries_of_lines(
            ls.subrange(0, k),
        ) + (match installed_entry(ls[k]) {
            Some(e) => seq![e],
            None => Seq::empty(),
        }),
{
    let p = ls.subrange(0, k + 1);
    assert(p.drop_last() =~= ls.subrange(0, k));
    assert(p.last() == ls[k]);
}

/// Start of the whitespace-delimited token that ends at `e`.
pub open spec fn token_start(l: Seq<char>, e: int) -> int
    decreases e,
{
    if e <= 0 {
        0
    } else if is_ws(l[e - 1]) {
        e
    } else {
        token_start(l, e - 1)
    }
}

/// The last whitespace-delimited token of `l`, if the line holds any
/// non-whitespace at all.
pub open spec fn last_token(l: Seq<char>) -> Option<Seq<char>> {
    let e = trim_end_idx(l);
    if e == 0 {
        None
    } else {
        Some(l.subrange(token_start(l, e), e))
    }
}

/// A colon or a period: the punctuation stripped off reported names.
pub open spec fn is_cd(c: char) -> bool {
    c == ':' || c == '.'
}

fn is_cd_char(c: char) -> (r: bool)
    ensures
        r == is_cd(c),
{
    c == ':' || c == '.'
}

pub open spec fn cd_start_idx(s: Seq<char>) -> int
    decreases s.len(),
{
    if s.len() == 0 {
        0
    } else if is_cd(s[0]) {
        1 + cd_start_idx(s.drop_first())
    } else {
        0
    }
}

pub open spec fn cd_end_idx(s: Seq<char>) -> int
    decreases s.len(),
{
    if s.len() == 0 {
        0
    } else if is_cd(s.last()) {
        cd_end_idx(s.drop_last())
    } else {
        s.len() as int
    }
}

/// `s` with leading and trailing colons and periods removed.
pub open spec fn strip_cd(s: Seq<char>) -> Seq<char> {
    if cd_start_idx(s) <= cd_end_idx(s) {
        s.subrange(cd_start_idx(s), cd_end_idx(s))
    } else {
        Seq::empty()
    }
}

proof fn lemma_cd_bounds(s: Seq<char>)
    ensures
        0 <= cd_start_idx(s) <= s.len(),
        0 <= cd_end_idx(s) <= s.len(),
    decreases s.len(),
{
    if s.len() > 0 {
        lemma_cd_bounds(s.drop_first());
        lemma_cd_bounds(s.drop_last());
    }
}

proof fn lemma_cd_start_agrees(s: Seq<char>, k: int)
    requires
        0 <= k <= s.len(),
        forall|i: int| 0 <= i < k ==> is_cd(s[i]),
        k < s.len() ==> !is_cd(s[k]),
    ensures
        cd_start_idx(s) == k,
    decreases k,
{
    if k > 0 {
        let t = s.drop_first();
        assert forall|i: int| 0 <= i < k - 1 implies is_cd(t[i]) by {
            assert(t[i] == s[i + 1]);
        }
        lemma_cd_start_agrees(t, k - 1);
    }
}

proof fn lemma_cd_end_agrees(s: Seq<char>, k: int)
    requires
        0 <= k <= s.len(),
        forall|i: int| k <= i < s.len() ==> is_cd(s[i]),
        k > 0 ==> !is_cd(s[k - 1]),
    ensures
        cd_end_idx(s) == k,
    decreases s.len(),
{
    if k < s.len() {
        let t = s.drop_last();
        assert(is_cd(s.last()));
        assert forall|i: int| k <= i < t.len() implies is_cd(t[i]) by {
            assert(t[i] == s[i]);
        }
        lemma_cd_end_agrees(t, k);
    }
}

/// The package name an install-output line reports, if it reports one: the
/// line must mention the installing marker, and the name is its last
/// whitespace-delimited token with surrounding colons and periods stripped.
pub open spec fn install_line_pkg(l: Seq<char>) -> Option<Seq<char>> {
    if contains_sub(l, "Installing"@) || contains_sub(l, "install:"@) {
        match last_token(l) {
            Some(t) => Some(strip_cd(t)),
            None => None,
        }
    } else {
        None
    }
}

pub open spec fn install_pkgs_of_lines(ls: Seq<Seq<char>>) -> Seq<Seq<char>>
    decreases ls.len(),
{
    if ls.len() == 0 {
        Seq::empty()
    } else {
        install_pkgs_of_lines(ls.drop_last()) + (match install_line_pkg(ls.last()) {
            Some(p) => seq![p],
            None => Seq::empty(),
        })
    }
}

/// The package names an install invocation reports: those its output names,
/// or the requested package alone when the output names none and the
/// invocation succeeded.
pub open spec fn spec_install_packages(stdout: Seq<char>, name: Seq<char>, ok: bool) -> Seq<
    Seq<char>,
> {
    let ps = install_pkgs_of_lines(spec_lines(stdout));
    if ps.len() == 0 && ok {
        seq![name]
    } else {
        ps
    }
}

proof fn lemma_install_prefix(ls: Seq<Seq<char>>, k: int)
    requires
        0 <= k < ls.len(),
    ensures
        install_pkgs_of_lines(ls.subrange(0, k + 1)) == install_pkgs_of_lines(ls.subrange(0, k))
            + (match install_line_pkg(ls[k]) {
            Some(p) => seq![p],
            None => Seq::empty(),
        }),
{
    let p = ls.subrange(0, k + 1);
    assert(p.drop_last() =~= ls.subrange(0, k));
    assert(p.last() == ls[k]);
}

/// Parse one install-output line. Returns the reported package name, if the
/// line reports one.
fn parse_install_line(line: &Vec<char>) -> (r: Option<String>)
    ensures
        match r {
            Some(s) => install_line_pkg(line@) == Some(s@),
            None => install_line_pkg(line@) is None,
        },
{
    let pat_installing = chars_of("Installing");
    let pat_install = chars_of("install:");
    proof {
        reveal_strlit("Installing");
        reveal_strlit("install:");
    }
    if !(contains_pat(line, &pat_installing) || contains_pat(line, &pat_install)) {
        return None;
    }
    // find the end of the last token
    let mut e: usize = line.len();
    while e > 0 && is_ws_char(line[e - 1])
        invariant
            0 <= e <= line.len(),
            forall|i: int| e <= i < line@.len() ==> is_ws(line@[i]),
        decreases e,
    {
        e -= 1;
    }
    proof {
        crate::text::lemma_trim_end_agrees(line@, e as int);
    }
    if e == 0 {
        return None;
    }
    // find its start
    let mut bstart: usize = e;
    while bstart > 0 && !is_ws_char(line[bstart - 1])
        invariant
            0 <= bstart <= e <= line.len(),
            token_start(line@, e as int) == token_start(line@, bstart as int),
        decreases bstart,
    {
        bstart -= 1;
    }
    let ghost token = line@.subrange(bstart as int, e as int);
    proof {
        assert(token_start(line@, e as int) == bstart);
    }
    // strip colons and periods from both ends of the token
    let mut a: usize = bstart;
    while a < e && is_cd_char(line[a])
        invariant
            bstart <= a <= e <= line.len(),
            forall|i: int| bstart <= i < a ==> is_cd(line@[i]),
        decreases e - a,
    {
        a += 1;
    }
    let mut b2: usize = e;
    while b2 > a && is_cd_char(line[b2 - 1])
        invariant
            a <= b2 <= e <= line.len(),
            forall|i: int| b2 <= i < e ==> is_cd(line@[i]),
        decreases b2,
    {
        b2 -= 1;
    }
    proof {
        lemma_cd_bounds(token);
        if a == e {
            // the token is all punctuation; it strips to nothing
            assert forall|i: int| 0 <= i < token.len() implies is_cd(token[i]) by {
                assert(token[i] == line@[bstart + i]);
            }
            lemma_cd_start_agrees(token, token.len() as int);
            assert(strip_cd(token) =~= line@.subrange(a as int, b2 as int));
        } else {
            assert forall|i: int| 0 <= i < a - bstart implies is_cd(token[i]) by {
                assert(token[i] == line@[bstart + i]);
            }
            assert(token[a - bstart] == line@[a as int]);
            lemma_cd_start_agrees(token, a - bstart);
            assert forall|i: int| b2 - bstart <= i < token.len() implies is_cd(token[i]) by {
                assert(token[i] == line@[bstart + i]);
            }
            assert(b2 > bstart);
            assert(token[b2 - bstart - 1] == line@[b2 - 1]);
            lemma_cd_end_agrees(token, b2 - bstart);
            assert(strip_cd(token) =~= line@.subrange(a as int, b2 as int));
        }
    }
    Some(string_from_range(line, a, b2))
}

/// The package names an install invocation's captured output reports.
fn parse_install_stdout(stdout: &str) -> (r: Vec<String>)
    ensures
        r.deep_view() == install_pkgs_of_lines(spec_lines(stdout@)),
{
    let chars = chars_of(stdout);
    let lines = split_lines(&chars);
    let ghost ls = lines.deep_view();
    let mut out: Vec<String> = Vec::new();
    let mut k: usize = 0;
    proof {
        assert(out.deep_view() =~= install_pkgs_of_lines(ls.subrange(0, 0)));
    }
    while k < lines.len()
        invariant
            0 <= k <= lines.len(),
            ls == lines.deep_view(),
            ls.len() == lines.len(),
            out.deep_view() == install_pkgs_of_lines(ls.subrange(0, k as int)),
        decreases lines.len() - k,
    {
        let ghost m0 = out.deep_view();
        let line = &lines[k];
        proof {
            assert(line@ == ls[k as int]);
        }
        match parse_install_line(line) {
            Some(name) => {
                out.push(name);
                proof {
                    lemma_install_prefix(ls, k as int);
                    assert(out.deep_view() =~= m0 + (match install_line_pkg(ls[k as int]) {
                        Some(p) => seq![p],
                        None => Seq::<Seq<char>>::empty(),
                    }));
                }
            },
            None => {
                proof {
                    lemma_install_prefix(ls, k as int);
                    assert(m0 + Seq::<Seq<char>>::empty() =~= m0);
                }
            },
        }
        k += 1;
    }
    proof {
        assert(ls.subrange(0, k as int) =~= ls);
    }
    out
}

pub open spec fn install_success_message(name: Seq<char>) -> Seq<char> {
    "Successfully installed "@ + name
}

pub open spec fn install_failure_message(name: Seq<char>, stderr: Seq<char>) -> Seq<char> {
    "Failed to install "@ + name + ": "@ + stderr
}

pub open spec fn remove_success_message(name: Seq<char>, stdout: Seq<char>) -> Seq<char> {
    "Successfully removed "@ + name + "\n"@ + stdout
}

pub open spec fn remove_failure_message(name: Seq<char>, stderr: Seq<char>) -> Seq<char> {
    "Failed to remove "@ + name + ": "@ + stderr
}

pub open spec fn update_success_message(stdout: Seq<char>) -> Seq<char> {
    "Update completed:\n"@ + stdout
}

pub open spec fn update_failure_message(stderr: Seq<char>) -> Seq<char> {
    "Update failed: "@ + stderr
}

/// The outcome of one install invocation: success is the exit verdict, the
/// package list is what the output reports (or the request itself on a
/// silent success), and the message names the package — with the captured
/// error text on failure.
pub fn install_outcome(package_name: &str, exit_ok: bool, stdout: &str, stderr: &str) -> (r:
    InstallResult)
    ensures
        r.success == exit_ok,
        r.installed_packages.deep_view() == spec_install_packages(stdout@, package_name@, exit_ok),
        exit_ok ==> r.message@ == install_success_message(package_name@),
        !exit_ok ==> r.message@ == install_failure_message(package_name@, stderr@),
{
    let mut installed_packages = parse_install_stdout(stdout);
    if installed_packages.len() == 0 && exit_ok {
        installed_packages.push(String::from_str(package_name));
        proof {
            assert(installed_packages.deep_view() =~= seq![package_name@]);
        }
    }
    let message = if exit_ok {
        let mut m = String::from_str("Successfully installed ");
        m.append(package_name);
        m
    } else {
        let mut m = String::from_str("Failed to install ");
        m.append(package_name);
        m.append(": ");
        m.append(stderr);
        proof {
            assert(m@ =~= install_failure_message(package_name@, stderr@));
        }
        m
    };
    InstallResult { success: exit_ok, message, installed_packages }
}

/// The outcome of one remove invocation: success is the exit verdict and
/// the message carries the captured output (or error text on failure).
pub fn remove_outcome(package_name: &str, exit_ok: bool, stdout: &str, stderr: &str) -> (r:
    InstallResult)
    ensures
        r.success == exit_ok,
        r.installed_packages@.len() == 0,
        exit_ok ==> r.message@ == remove_success_message(package_name@, stdout@),
        !exit_ok ==> r.message@ == remove_failure_message(package_name@, stderr@),
{
    let message = if exit_ok {
        let mut m = String::from_str("Successfully removed ");
        m.append(package_name);
        m.append("\n");
        m.append(stdout);
        proof {
            assert(m@ =~= remove_success_message(package_name@, stdout@));
        }
        m
    } else {
        let mut m = String::from_str("Failed to remove ");
        m.append(package_name);
        m.append(": ");
        m.append(stderr);
        proof {
            assert(m@ =~= remove_failure_message(package_name@, stderr@));
        }
        m
    };
    InstallResult { success: exit_ok, message, installed_packages: Vec::new() }
}

/// The outcome of one update-all invocation.
pub fn update_outcome(exit_ok: bool, stdout: &str, stderr: &str) -> (r: InstallResult)
    ensures
        r.success == exit_ok,
        r.installed_packages@.len() == 0,
        exit_ok ==> r.message@ == update_success_message(stdout@),
        !exit_ok ==> r.message@ == update_failure_message(stderr@),
{
    let message = if exit_ok {
        let mut m = String::from_str("Update completed:\n");
        m.append(stdout);
        m
    } else {
        let mut m = String::from_str("Update failed: ");
        m.append(stderr);
        m
    };
    InstallResult { success: exit_ok, message, installed_packages: Vec::new() }
}

/// Parse one search line. Returns the name and description, if the line
/// yields an entry.
fn parse_search_line(line: &Vec<char>) -> (r: Option<(String, String)>)
    ensures
        match r {
            Some(e) => search_entry(line@) == Some((e.0@, e.1@)),
            None => search_entry(line@) is None,
        },
{
    let (a, b) = trim_range(line, 0, line.len());
    proof {
        assert(line@.subrange(0, line@.len() as int) =~= line@);
    }
    if b == a {
        return None;
    }
    let t = subvec(line, a, b);
    let sep = chars_of(" - ");
    proof {
        reveal_strlit(" - ");
    }
    let p = find_sub_from(&t, 0, &sep);
    if p < t.len() {
        proof {
            lemma_find_sub_props(t@, 0, sep@);
            assert(sep@.len() == 3);
        }
        let (na, nb) = trim_range(&t, 0, p);
        let name = string_from_range(&t, na, nb);
        let (da, db) = trim_range(&t, p + 3, t.len());
        let desc = string_from_range(&t, da, db);
        return Some((name, desc));
    }
    if t[t.len() - 1] == ':' {
        let mut e: usize = t.len();
        while e > 0 && t[e - 1] == ':'
            invariant
                0 <= e <= t.len(),
                forall|i: int| e <= i < t@.len() ==> t@[i] == ':',
            decreases e,
        {
            e -= 1;
        }
        proof {
            lemma_strip_colons_agrees(t@, e as int);
        }
        let name = string_from_range(&t, 0, e);
        return Some((name, String::new()));
    }
    None
}

/// Parse one installed-list line. Returns the name and description, if the
/// line yields an entry.
fn parse_installed_line(line: &Vec<char>) -> (r: Option<(String, String)>)
    ensures
        match r {
            Some(e) => installed_entry(line@) == Some((e.0@, e.1@)),
            None => installed_entry(line@) is None,
        },
{
    let (a, b) = trim_range(line, 0, line.len());
    proof {
        assert(line@.subrange(0, line@.len() as int) =~= line@);
    }
    if b == a {
        return None;
    }
    let t = subvec(line, a, b);
    let banner = chars_of("tlmgr");
    proof {
        reveal_strlit("tlmgr");
    }
    if has_pat_at(&t, 0, &banner) {
        return None;
    }
    if t[0] != 'i' {
        return None;
    }
    let (ra, rb) = trim_range(&t, 1, t.len());
    let rest = subvec(&t, ra, rb);
    let c = find_char_from(&rest, 0, ':');
    if c == rest.len() {
        return None;
    }
    let (na, nb) = trim_range(&rest, 0, c);
    let name = string_from_range(&rest, na, nb);
    let (da, db) = trim_range(&rest, c + 1, rest.len());
    let desc = string_from_range(&rest, da, db);
    Some((name, desc))
}

/// Parse the package tool's search output. Every entry appears in output
/// order, reported as not installed and without version or size, and the
/// total is the entry count.
pub fn parse_search_output(stdout: &str) -> (r: PackageSearchResult)
    ensures
        info_models(r.packages@) == spec_search_output(stdout@),
        r.total == r.packages@.len(),
        forall|i: int|
            0 <= i < r.packages@.len() ==> !(#[trigger] r.packages@[i]).installed
                && r.packages@[i].version is None && r.packages@[i].size is None,
{
    let chars = chars_of(stdout);
    let lines = split_lines(&chars);
    let ghost ls = lines.deep_view();
    let mut packages: Vec<PackageInfo> = Vec::new();
    let mut k: usize = 0;
    proof {
        assert(info_models(packages@) =~= search_entries_of_lines(ls.subrange(0, 0)));
    }
    while k < lines.len()
        invariant
            0 <= k <= lines.len(),
            ls == lines.deep_view(),
            ls.len() == lines.len(),
            info_models(packages@) == search_entries_of_lines(ls.subrange(0, k as int)),
            forall|i: int|
                0 <= i < packages@.len() ==> !(#[trigger] packages@[i]).installed
                    && packages@[i].version is None && packages@[i].size is None,
        decreases lines.len() - k,
    {
        let ghost m0 = info_models(packages@);
        let line = &lines[k];
        proof {
            assert(line@ == ls[k as int]);
        }
        match parse_search_line(line) {
            Some((name, description)) => {
                packages.push(
                    PackageInfo { name, description, installed: false, version: None, size: None },
                );
                proof {
                    lemma_search_prefix(ls, k as int);
                    assert(info_models(packages@) =~= m0 + (match search_entry(ls[k as int]) {
                        Some(e) => seq![e],
                        None => Seq::<(Seq<char>, Seq<char>)>::empty(),
                    }));
                }
            },
            None => {
                proof {
                    lemma_search_prefix(ls, k as int);
                    assert(m0 + Seq::<(Seq<char>, Seq<char>)>::empty() =~= m0);
                }
            },
        }
        k += 1;
    }
    proof {
        assert(ls.subrange(0, k as int) =~= ls);
    }
    let total = packages.len();
    PackageSearchResult { packages, total }
}

/// Parse the package tool's installed-package listing. Every entry appears
/// in output order and is reported as installed, without version or size.
pub fn parse_installed_list(stdout: &str) -> (r: Vec<PackageInfo>)
    ensures
        info_models(r@) == spec_installed_list(stdout@),
        forall|i: int|
            0 <= i < r@.len() ==> (#[trigger] r@[i]).installed && r@[i].version is None
                && r@[i].size is None,
{
    let chars = chars_of(stdout);
    let lines = split_lines(&chars);
    let ghost ls = lines.deep_view();
    let mut packages: Vec<PackageInfo> = Vec::new();
    let mut k: usize = 0;
    proof {
        assert(info_models(packages@) =~= installed_entries_of_lines(ls.subrange(0, 0)));
    }
    while k < lines.len()
        invariant
            0 <= k <= lines.len(),
            ls == lines.deep_view(),
            ls.len() == lines.len(),
            info_models(packages@) == installed_entries_of_lines(ls.subrange(0, k as int)),
            forall|i: int|
                0 <= i < packages@.len() ==> (#[trigger] packages@[i]).installed
                    && packages@[i].version is None && packages@[i].size is None,
        decreases lines.len() - k,
    {
        let ghost m0 = info_models(packages@);
        let line = &lines[k];
        proof {
            assert(line@ == ls[k as int]);
        }
        match parse_installed_line(line) {
            Some((name, description)) => {
                packages.push(
                    PackageInfo { name, description, installed: true, version: None, size: None },
                );
                proof {
                    lemma_search_prefix(ls, k as int);
                    assert(info_models(packages@) =~= m0 + (match installed_entry(ls[k as int]) {
                        Some(e) => seq![e],
                        None => Seq::<(Seq<char>, Seq<char>)>::empty(),
                    }));
                }
            },
            None => {
                proof {
                    lemma_search_prefix(ls, k as int);
                    assert(m0 + Seq::<(Seq<char>, Seq<char>)>::empty() =~= m0);
                }
            },
        }
        k += 1;
    }
    proof {
        assert(ls.subrange(0, k as int) =~= ls);
    }
    packages
}

/// The five fields a package-info readout carries, as ghost values:
/// name, description, installed, version, size.
pub open spec fn apply_info_line(
    m: (Seq<char>, Seq<char>, bool, Option<Seq<char>>, Option<Seq<char>>),
    line: Seq<char>,
) -> (Seq<char>, Seq<char>, bool, Option<Seq<char>>, Option<Seq<char>>) {
    let t = spec_trim(line);
    if starts_with_at(t, 0, "package:"@) {
        (spec_trim(remove_all(t, "package:"@)), m.1, m.2, m.3, m.4)
    } else if starts_with_at(t, 0, "shortdesc:"@) {
        (m.0, spec_trim(remove_all(t, "shortdesc:"@)), m.2, m.3, m.4)
    } else if starts_with_at(t, 0, "installed:"@) {
        (m.0, m.1, contains_sub(t, "Yes"@), m.3, m.4)
    } else if starts_with_at(t, 0, "revision:"@) {
        (m.0, m.1, m.2, Some(spec_trim(remove_all(t, "revision:"@))), m.4)
    } else if starts_with_at(t, 0, "sizes:"@) {
        (m.0, m.1, m.2, m.3, Some(spec_trim(remove_all(t, "sizes:"@))))
    } else {
        m
    }
}

pub open spec fn info_fold(
    ls: Seq<Seq<char>>,
    init: (Seq<char>, Seq<char>, bool, Option<Seq<char>>, Option<Seq<char>>),
) -> (Seq<char>, Seq<char>, bool, Option<Seq<char>>, Option<Seq<char>>)
    decreases ls.len(),
{
    if ls.len() == 0 {
        init
    } else {
        apply_info_line(info_fold(ls.drop_last(), init), ls.last())
    }
}

/// What a package-info readout reports: each keyed line, trimmed and with
/// every occurrence of its key removed, overwrites that field; later lines
/// win; `installed` is whether its line mentions `Yes`; fields no line
/// mentions keep their defaults — the queried name, an empty description,
/// not installed, and no version or size.
pub open spec fn spec_package_info(stdout: Seq<char>, name: Seq<char>) -> (
    Seq<char>,
    Seq<char>,
    bool,
    Option<Seq<char>>,
    Option<Seq<char>>,
) {
    info_fold(spec_lines(stdout), (name, Seq::empty(), false, None, None))
}

proof fn lemma_info_prefix(
    ls: Seq<Seq<char>>,
    k: int,
    init: (Seq<char>, Seq<char>, bool, Option<Seq<char>>, Option<Seq<char>>),
)
    requires
        0 <= k < ls.len(),
    ensures
        info_fold(ls.subrange(0, k + 1), init) == apply_info_line(
            info_fold(ls.subrange(0, k), init),
            ls[k],
        ),
{
    let p = ls.subrange(0, k + 1);
    assert(p.drop_last() =~= ls.subrange(0, k));
    assert(p.last() == ls[k]);
}

/// The trimmed line with every occurrence of the key removed and the result
/// trimmed again: the value a keyed info line carries.
fn keyed_value(t: &Vec<char>, key: &Vec<char>) -> (r: String)
    requires
        key.len() > 0,
    ensures
        r@ == spec_trim(remove_all(t@, key@)),
{
    let stripped = remove_all_occurrences(t, key);
    let (a, b) = trim_range(&stripped, 0, stripped.len());
    proof {
        assert(stripped@.subrange(0, stripped@.len() as int) =~= stripped@);
    }
    string_from_range(&stripped, a, b)
}

/// Parse a package-info readout. Each recognized key line overwrites its
/// field; the name defaults to the queried package.
pub fn parse_package_info(package_name: &str, stdout: &str) -> (r: PackageInfo)
    ensures
        ({
            let m = spec_package_info(stdout@, package_name@);
            r.name@ == m.0 && r.description@ == m.1 && r.installed == m.2
                && r.version.deep_view() == m.3 && r.size.deep_view() == m.4
        }),
{
    let chars = chars_of(stdout);
    let lines = split_lines(&chars);
    let ghost ls = lines.deep_view();
    let ghost init: (Seq<char>, Seq<char>, bool, Option<Seq<char>>, Option<Seq<char>>) = (
        package_name@,
        Seq::empty(),
        false,
        None,
        None,
    );
    let mut name = String::from_str(package_name);
    let mut description = String::new();
    let mut installed = false;
    let mut version: Option<String> = None;
    let mut size: Option<String> = None;
    let key_package = chars_of("package:");
    let key_shortdesc = chars_of("shortdesc:");
    let key_installed = chars_of("installed:");
    let key_revision = chars_of("revision:");
    let key_sizes = chars_of("sizes:");
    let pat_yes = chars_of("Yes");
    proof {
        reveal_strlit("package:");
        reveal_strlit("shortdesc:");
        reveal_strlit("installed:");
        reveal_strlit("revision:");
        reveal_strlit("sizes:");
        reveal_strlit("Yes");
        assert(description@ =~= Seq::<char>::empty());
    }
    let mut k: usize = 0;
    while k < lines.len()
        invariant
            0 <= k <= lines.len(),
            ls == lines.deep_view(),
            ls.len() == lines.len(),
            key_package@ == "package:"@ && key_package@.len() > 0,
            key_shortdesc@ == "shortdesc:"@ && key_shortdesc@.len() > 0,
            key_installed@ == "installed:"@ && key_installed@.len() > 0,
            key_revision@ == "revision:"@ && key_revision@.len() > 0,
            key_sizes@ == "sizes:"@ && key_sizes@.len() > 0,
            pat_yes@ == "Yes"@ && pat_yes@.len() > 0,
            init == (package_name@, Seq::<char>::empty(), false, None::<Seq<char>>, None::<
                Seq<char>,
            >),
            ({
                let m = info_fold(ls.subrange(0, k as int), init);
                name@ == m.0 && description@ == m.1 && installed == m.2 && version.deep_view()
                    == m.3 && size.deep_view() == m.4
            }),
        decreases lines.len() - k,
    {
        let line = &lines[k];
        proof {
            assert(line@ == ls[k as int]);
            lemma_info_prefix(ls, k as int, init);
        }
        let (a, b) = trim_range(line, 0, line.len());
        proof {
            assert(line@.subrange(0, line@.len() as int) =~= line@);
        }
        let t = subvec(line, a, b);
        if has_pat_at(&t, 0, &key_package) {
            name = keyed_value(&t, &key_package);
        } else if has_pat_at(&t, 0, &key_shortdesc) {
            description = keyed_value(&t, &key_shortdesc);
        } else if has_pat_at(&t, 0, &key_installed) {
            installed = contains_pat(&t, &pat_yes);
        } else if has_pat_at(&t, 0, &key_revision) {
            version = Some(keyed_value(&t, &key_revision));
        } else if has_pat_at(&t, 0, &key_sizes) {
            size = Some(keyed_value(&t, &key_sizes));
        }
        k += 1;
    }
    proof {
        assert(ls.subrange(0, k as int) =~= ls);
    }
    PackageInfo { name, description, installed, version, size }
}

/// The curated entries the shell proposes: name/description pairs.
pub open spec fn spec_recommended() -> Seq<(Seq<char>, Seq<char>)> {
    seq![
        ("kotex"@, "Korean language support (ko.TeX)"@),
        ("cjk"@, "CJK (Chinese, Japanese, Korean) language support"@),
        ("xecjk"@, "CJK support for XeLaTeX"@),
        ("amsmath"@, "AMS mathematical facilities"@),
        ("graphicx"@, "Enhanced support for graphics"@),
        ("hyperref"@, "Extensive support for hypertext"@),
        ("tikz"@, "Create graphics programmatically"@),
        ("biblatex"@, "Sophisticated bibliographies"@),
        ("listings"@, "Typeset source code listings"@),
        ("booktabs"@, "Publication quality tables"@),
    ]
}

fn recommended(name: &str, description: &str) -> (r: PackageInfo)
    ensures
        r.name@ == name@,
        r.description@ == description@,
        !r.installed,
        r.version is None,
        r.size is None,
{
    PackageInfo {
        name: String::from_str(name),
        description: String::from_str(description),
        installed: false,
        version: None,
        size: None,
    }
}

/// The fixed recommended-package catalogue, none marked installed.
pub fn get_recommended_packages() -> (r: Vec<PackageInfo>)
    ensures
        info_models(r@) == spec_recommended(),
        forall|i: int|
            0 <= i < r@.len() ==> !(#[trigger] r@[i]).installed && r@[i].version is None
                && r@[i].size is None,
{
    let mut v: Vec<PackageInfo> = Vec::new();
    v.push(recommended("kotex", "Korean language support (ko.TeX)"));
    v.push(recommended("cjk", "CJK (Chinese, Japanese, Korean) language support"));
    v.push(recommended("xecjk", "CJK support for XeLaTeX"));
    v.push(recommended("amsmath", "AMS mathematical facilities"));
    v.push(recommended("graphicx", "Enhanced support for graphics"));
    v.push(recommended("hyperref", "Extensive support for hypertext"));
    v.push(recommended("tikz", "Create graphics programmatically"));
    v.push(recommended("biblatex", "Sophisticated bibliographies"));
    v.push(recommended("listings", "Typeset source code listings"));
    v.push(recommended("booktabs", "Publication quality tables"));
    proof {
        assert(info_models(v@) =~= spec_recommended());
    }
    v
}

} // verus!

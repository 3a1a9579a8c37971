//! Dependency resolution and installation bookkeeping. A package counts as
//! installed when the registry's file lookup succeeds for either of its two
//! candidate files (a stylesheet or a document class); resolution itself is
//! a pure function of the names and those lookup answers. Installation of a
//! batch of missing packages records each package's single attempt as
//! installed or failed, succeeds as a whole only when nothing failed, and
//! reports counts — naming the failed packages — in a summary message.

use vstd::prelude::*;
use crate::text::{join_strings, spec_digits, spec_join, u64_to_string};
use vstd::string::StringExecFns;

verus! {

/// A package a document declared, with the installed verdict the registry
/// lookups gave and the option string written in the directive.
#[derive(Debug, Clone)]
pub struct DetectedPackage {
    pub name: String,
    pub installed: bool,
    pub options: Option<String>,
}

/// The outcome of detecting every declared package: the full list in order,
/// and the names partitioned by verdict, each side in declaration order.
#[derive(Debug)]
pub struct PackageDetectionResult {
    pub packages: Vec<DetectedPackage>,
    pub missing: Vec<String>,
    pub installed: Vec<String>,
}

/// The outcome of one batch installation: what was installed, what failed,
/// overall success iff nothing failed, and a summary message.
#[derive(Debug)]
pub struct AutoInstallResult {
    pub success: bool,
    pub installed: Vec<String>,
    pub failed: Vec<String>,
    pub message: String,
}

/// The name/verdict pairs a detection list carries.
pub open spec fn det_models(v: Seq<DetectedPackage>) -> Seq<(Seq<char>, bool)> {
    v.map_values(|d: DetectedPackage| (d.name@, d.installed))
}

/// The name/outcome pairs a list of per-package attempts carries.
pub open spec fn attempt_models(v: Seq<(String, bool)>) -> Seq<(Seq<char>, bool)> {
    v.map_values(|p: (String, bool)| (p.0@, p.1))
}

/// The names among `rs` whose flag equals `flag`, in order.
pub open spec fn names_with_flag(rs: Seq<(Seq<char>, bool)>, flag: bool) -> Seq<Seq<char>>
    decreases rs.len(),
{
    if rs.len() == 0 {
        Seq::empty()
    } else {
        names_with_flag(rs.drop_last(), flag) + (if rs.last().1 == flag {
            seq![rs.last().0]
        } else {
            Seq::empty()
        })
    }
}

proof fn lemma_names_prefix(rs: Seq<(Seq<char>, bool)>, k: int, flag: bool)
    requires
        0 <= k < rs.len(),
    ensures
        names_with_flag(rs.subrange(0, k + 1), flag) == names_with_flag(rs.subrange(0, k), flag)
            + (if rs[k].1 == flag {
            seq![rs[k].0]
        } else {
            Seq::empty()
        }),
{
    let p = rs.subrange(0, k + 1);
    assert(p.drop_last() =~= rs.subrange(0, k));
    assert(p.last() == rs[k]);
}

/// A package counts as installed when either candidate lookup answer is
/// positive: the stylesheet's or the document class's.
pub open spec fn spec_installed(sty_found: bool, cls_found: bool) -> bool {
    sty_found || cls_found
}

/// Resolution of a list of declared names against the registry's lookup
/// answers, pointwise and in order.
pub open spec fn spec_resolve(names: Seq<Seq<char>>, sty: Seq<bool>, cls: Seq<bool>) -> Seq<
    (Seq<char>, bool),
> {
    names.map(|i: int, n: Seq<char>| (n, spec_installed(sty[i], cls[i])))
}

/// Resolution is a pure function of the declared names and the registry's
/// answers: two resolutions against an unchanged registry yield identical
/// statuses.
pub proof fn lemma_resolution_idempotent(
    names: Seq<Seq<char>>,
    sty: Seq<bool>,
    cls: Seq<bool>,
    r1: Seq<(Seq<char>, bool)>,
    r2: Seq<(Seq<char>, bool)>,
)
    requires
        r1 == spec_resolve(names, sty, cls),
        r2 == spec_resolve(names, sty, cls),
    ensures
        r1 == r2,
{
}

fn clone_options(o: &Option<String>) -> (r: Option<String>)
    ensures
        r == o,
{
    match o {
        Some(s) => Some(s.clone()),
        None => None,
    }
}

/// Decide one package's status from its two registry lookups.
pub fn resolve_package(
    name: String,
    options: Option<String>,
    sty_found: bool,
    cls_found: bool,
) -> (r: DetectedPackage)
    ensures
        r.name == name,
        r.options == options,
        r.installed == spec_installed(sty_found, cls_found),
{
    DetectedPackage { name, installed: sty_found || cls_found, options }
}

/// Resolve every parsed declaration against its pair of registry lookup
/// answers, in order.
pub fn resolve_packages(parsed: &Vec<(String, Option<String>)>, lookups: &Vec<(bool, bool)>) -> (r:
    Vec<DetectedPackage>)
    requires
        parsed.len() == lookups.len(),
    ensures
        r@.len() == parsed@.len(),
        forall|i: int|
            0 <= i < r@.len() ==> (#[trigger] r@[i]).name == parsed@[i].0 && r@[i].options
                == parsed@[i].1 && r@[i].installed == spec_installed(
                lookups@[i].0,
                lookups@[i].1,
            ),
        det_models(r@) == spec_resolve(
            parsed@.map_values(|p: (String, Option<String>)| p.0@),
            lookups@.map_values(|l: (bool, bool)| l.0),
            lookups@.map_values(|l: (bool, bool)| l.1),
        ),
{
    let mut out: Vec<DetectedPackage> = Vec::new();
    let mut k: usize = 0;
    while k < parsed.len()
        invariant
            0 <= k <= parsed.len(),
            parsed.len() == lookups.len(),
            out@.len() == k,
            forall|i: int|
                0 <= i < k ==> (#[trigger] out@[i]).name == parsed@[i].0 && out@[i].options
                    == parsed@[i].1 && out@[i].installed == spec_installed(
                    lookups@[i].0,
                    lookups@[i].1,
                ),
        decreases parsed.len() - k,
    {
        let l = lookups[k];
        let d = DetectedPackage {
            name: parsed[k].0.clone(),
            installed: l.0 || l.1,
            options: clone_options(&parsed[k].1),
        };
        out.push(d);
        k += 1;
    }
    proof {
        assert(det_models(out@) =~= spec_resolve(
            parsed@.map_values(|p: (String, Option<String>)| p.0@),
            lookups@.map_values(|l: (bool, bool)| l.0),
            lookups@.map_values(|l: (bool, bool)| l.1),
        ));
    }
    out
}

/// Partition the detected packages' names by verdict, keeping order.
fn partition_detected(packages: &Vec<DetectedPackage>) -> (r: (Vec<String>, Vec<String>))
    ensures
        r.0.deep_view() == names_with_flag(det_models(packages@), true),
        r.1.deep_view() == names_with_flag(det_models(packages@), false),
{
    let ghost rs = det_models(packages@);
    let mut installed: Vec<String> = Vec::new();
    let mut missing: Vec<String> = Vec::new();
    let mut k: usize = 0;
    proof {
        assert(installed.deep_view() =~= names_with_flag(rs.subrange(0, 0), true));
        assert(missing.deep_view() =~= names_with_flag(rs.subrange(0, 0), false));
    }
    while k < packages.len()
        invariant
            0 <= k <= packages.len(),
            rs == det_models(packages@),
            rs.len() == packages.len(),
            installed.deep_view() == names_with_flag(rs.subrange(0, k as int), true),
            missing.deep_view() == names_with_flag(rs.subrange(0, k as int), false),
        decreases packages.len() - k,
    {
        let ghost i0 = installed.deep_view();
        let ghost m0 = missing.deep_view();
        proof {
            assert(rs[k as int] == (packages@[k as int].name@, packages@[k as int].installed));
            lemma_names_prefix(rs, k as int, true);
            lemma_names_prefix(rs, k as int, false);
        }
        if packages[k].installed {
            installed.push(packages[k].name.clone());
            proof {
                assert(installed.deep_view() =~= i0 + seq![rs[k as int].0]);
                assert(m0 + Seq::<Seq<char>>::empty() =~= m0);
            }
        } else {
            missing.push(packages[k].name.clone());
            proof {
                assert(missing.deep_view() =~= m0 + seq![rs[k as int].0]);
                assert(i0 + Seq::<Seq<char>>::empty() =~= i0);
            }
        }
        k += 1;
    }
    proof {
        assert(rs.subrange(0, k as int) =~= rs);
    }
    (installed, missing)
}

/// The names of the detected packages the registry does not hold, in order.
pub fn missing_names(packages: &Vec<DetectedPackage>) -> (r: Vec<String>)
    ensures
        r.deep_view() == names_with_flag(det_models(packages@), false),
{
    let (_, missing) = partition_detected(packages);
    missing
}

/// Assemble the detection outcome: the full list plus the name partitions.
pub fn build_detection_result(packages: Vec<DetectedPackage>) -> (r: PackageDetectionResult)
    ensures
        r.packages == packages,
        r.installed.deep_view() == names_with_flag(det_models(packages@), true),
        r.missing.deep_view() == names_with_flag(det_models(packages@), false),
{
    let (installed, missing) = partition_detected(&packages);
    PackageDetectionResult { packages, missing, installed }
}

/// The summary of a wholly successful batch.
pub open spec fn success_message(count: nat) -> Seq<char> {
    "Successfully installed "@ + spec_digits(count) + " packages"@
}

/// The summary of a batch with failures: both counts, then the failed names.
pub open spec fn failure_message(installed_count: nat, failed: Seq<Seq<char>>) -> Seq<char> {
    "Installed "@ + spec_digits(installed_count) + " packages, "@ + spec_digits(failed.len())
        + " failed: "@ + spec_join(failed, ", "@)
}

/// The summary an attempt list earns.
pub open spec fn spec_install_message(rs: Seq<(Seq<char>, bool)>) -> Seq<char> {
    if names_with_flag(rs, false).len() == 0 {
        success_message(names_with_flag(rs, true).len())
    } else {
        failure_message(names_with_flag(rs, true).len(), names_with_flag(rs, false))
    }
}

/// Aggregate one batch of per-package installation attempts: each package's
/// single attempt is final, the batch succeeds iff nothing failed, and the
/// message reports the counts, naming every failed package.
pub fn aggregate_install_results(results: &Vec<(String, bool)>) -> (r: AutoInstallResult)
    ensures
        r.installed.deep_view() == names_with_flag(attempt_models(results@), true),
        r.failed.deep_view() == names_with_flag(attempt_models(results@), false),
        r.success == (names_with_flag(attempt_models(results@), false).len() == 0),
        r.message@ == spec_install_message(attempt_models(results@)),
{
    let ghost rs = attempt_models(results@);
    let mut installed: Vec<String> = Vec::new();
    let mut failed: Vec<String> = Vec::new();
    let mut k: usize = 0;
    proof {
        assert(installed.deep_view() =~= names_with_flag(rs.subrange(0, 0), true));
        assert(failed.deep_view() =~= names_with_flag(rs.subrange(0, 0), false));
    }
    while k < results.len()
        invariant
            0 <= k <= results.len(),
            rs == attempt_models(results@),
            rs.len() == results.len(),
            installed.deep_view() == names_with_flag(rs.subrange(0, k as int), true),
            failed.deep_view() == names_with_flag(rs.subrange(0, k as int), false),
        decreases results.len() - k,
    {
        let ghost i0 = installed.deep_view();
        let ghost f0 = failed.deep_view();
        proof {
            assert(rs[k as int] == (results@[k as int].0@, results@[k as int].1));
            lemma_names_prefix(rs, k as int, true);
            lemma_names_prefix(rs, k as int, false);
        }
        if results[k].1 {
            installed.push(results[k].0.clone());
            proof {
                assert(installed.deep_view() =~= i0 + seq![rs[k as int].0]);
                assert(f0 + Seq::<Seq<char>>::empty() =~= f0);
            }
        } else {
            failed.push(results[k].0.clone());
            proof {
                assert(failed.deep_view() =~= f0 + seq![rs[k as int].0]);
                assert(i0 + Seq::<Seq<char>>::empty() =~= i0);
            }
        }
        k += 1;
    }
    proof {
        assert(rs.subrange(0, k as int) =~= rs);
    }
    let success = failed.len() == 0;
    let message = if success {
        let mut m = String::new();
        m.append("Successfully installed ");
        let count = u64_to_string(installed.len() as u64);
        m.append(count.as_str());
        m.append(" packages");
        proof {
            assert(installed.deep_view().len() == installed@.len());
            assert(m@ =~= success_message(names_with_flag(rs, true).len()));
        }
        m
    } else {
        let mut m = String::new();
        m.append("Installed ");
        let count = u64_to_string(installed.len() as u64);
        m.append(count.as_str());
        m.append(" packages, ");
        let fcount = u64_to_string(failed.len() as u64);
        m.append(fcount.as_str());
        m.append(" failed: ");
        let joined = join_strings(&failed, ", ");
        m.append(joined.as_str());
        proof {
            assert(installed.deep_view().len() == installed@.len());
            assert(failed.deep_view().len() == failed@.len());
            assert(m@ =~= failure_message(
                names_with_flag(rs, true).len(),
                names_with_flag(rs, false),
            ));
        }
        m
    };
    AutoInstallResult { success, installed, failed, message }
}

/// The outcome of a sync request that found nothing missing: success, with
/// nothing installed and nothing failed.
pub fn all_installed_result() -> (r: AutoInstallResult)
    ensures
        r.success,
        r.installed@.len() == 0,
        r.failed@.len() == 0,
        r.message@ == "All packages are already installed"@,
{
    AutoInstallResult {
        success: true,
        installed: Vec::new(),
        failed: Vec::new(),
        message: String::from_str("All packages are already installed"),
    }
}

/// The fixed set of well-known packages the essential-audit and
/// essential-install operations work from: CJK/Korean script support, math,
/// graphics, tables, fonts, layout, references, code listing, and layout
/// helpers. Static configuration, not derived from any document.
pub open spec fn spec_essential_packages() -> Seq<Seq<char>> {
    seq![
        "kotex-utf"@,
        "cjk"@,
        "xecjk"@,
        "amsmath"@,
        "amssymb"@,
        "amsfonts"@,
        "mathtools"@,
        "graphicx"@,
        "xcolor"@,
        "pgf"@,
        "booktabs"@,
        "array"@,
        "tabularx"@,
        "longtable"@,
        "fontspec"@,
        "geometry"@,
        "fancyhdr"@,
        "titlesec"@,
        "hyperref"@,
        "biblatex"@,
        "listings"@,
        "enumitem"@,
        "caption"@,
        "float"@,
    ]
}

/// The essential-package configuration as a value, for the audit and
/// install operations to take explicitly.
pub fn essential_packages() -> (r: Vec<String>)
    ensures
        r.deep_view() == spec_essential_packages(),
{
    let mut v: Vec<String> = Vec::new();
    v.push(String::from_str("kotex-utf"));
    v.push(String::from_str("cjk"));
    v.push(String::from_str("xecjk"));
    v.push(String::from_str("amsmath"));
    v.push(String::from_str("amssymb"));
    v.push(String::from_str("amsfonts"));
    v.push(String::from_str("mathtools"));
    v.push(String::from_str("graphicx"));
    v.push(String::from_str("xcolor"));
    v.push(String::from_str("pgf"));
    v.push(String::from_str("booktabs"));
    v.push(String::from_str("array"));
    v.push(String::from_str("tabularx"));
    v.push(String::from_str("longtable"));
    v.push(String::from_str("fontspec"));
    v.push(String::from_str("geometry"));
    v.push(String::from_str("fancyhdr"));
    v.push(String::from_str("titlesec"));
    v.push(String::from_str("hyperref"));
    v.push(String::from_str("biblatex"));
    v.push(String::from_str("listings"));
    v.push(String::from_str("enumitem"));
    v.push(String::from_str("caption"));
    v.push(String::from_str("float"));
    proof {
        assert(v.deep_view() =~= spec_essential_packages());
    }
    v
}

/// The outcome of an essential-set audit that found nothing missing.
pub fn all_essential_installed_result() -> (r: AutoInstallResult)
    ensures
        r.success,
        r.installed@.len() == 0,
        r.failed@.len() == 0,
        r.message@ == "All essential packages are already installed"@,
{
    AutoInstallResult {
        success: true,
        installed: Vec::new(),
        failed: Vec::new(),
        message: String::from_str("All essential packages are already installed"),
    }
}

} // verus!

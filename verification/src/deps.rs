//! The dependency extractor: scans document source text for the two package
//! directive forms — a literal `\usepackage` or `\RequirePackage`, optional
//! whitespace, an optional bracketed option string, optional whitespace, and
//! a braced, non-empty, comma-separated list of package names. Each name is
//! trimmed; empty names are dropped; every name of one directive shares that
//! directive's option string. All occurrences of the first form are emitted
//! before those of the second; within a form, emission follows document
//! order.

use vstd::prelude::*;
use crate::text::{
    chars_of, find_char, find_char_from, has_pat_at, lemma_find_char_agrees, spec_trim,
    starts_with_at, string_from_range, subvec, trim_range, ws_run_end, ws_run_end_from,
};

verus! {

/// A directive match: position just past the match, the option string if one
/// was bracketed, and the raw text between the braces.
pub open spec fn brace_part(s: Seq<char>, j: int, opts: Option<Seq<char>>) -> Option<
    (int, Option<Seq<char>>, Seq<char>),
> {
    if 0 <= j < s.len() && s[j] == '{' {
        let m = find_char(s, j + 1, '}');
        if m >= s.len() || m == j + 1 {
            None
        } else {
            Some((m + 1, opts, s.subrange(j + 1, m)))
        }
    } else {
        None
    }
}

/// Attempt to match one directive whose keyword is `dir` at position `i`:
/// the keyword, optional whitespace, at most one `[options]` group closed by
/// the first `]`, optional whitespace, then `{names}` closed by the first
/// `}` with at least one character between the braces.
pub open spec fn directive_match(s: Seq<char>, i: int, dir: Seq<char>) -> Option<
    (int, Option<Seq<char>>, Seq<char>),
> {
    if !starts_with_at(s, i, dir) {
        None
    } else {
        let j = ws_run_end(s, i + dir.len());
        if 0 <= j < s.len() && s[j] == '[' {
            let k = find_char(s, j + 1, ']');
            if k >= s.len() {
                None
            } else {
                brace_part(s, ws_run_end(s, k + 1), Some(s.subrange(j + 1, k)))
            }
        } else {
            brace_part(s, j, None)
        }
    }
}

/// All matches of the directive `dir` in `s` at or after `i`, scanning left
/// to right and resuming just past each match.
pub open spec fn scan_directives(s: Seq<char>, i: int, dir: Seq<char>) -> Seq<
    (Option<Seq<char>>, Seq<char>),
>
    decreases s.len() - i,
{
    if i < 0 || i >= s.len() {
        Seq::empty()
    } else {
        match directive_match(s, i, dir) {
            Some(m) => {
                if i < m.0 <= s.len() {
                    seq![(m.1, m.2)] + scan_directives(s, m.0, dir)
                } else {
                    scan_directives(s, i + 1, dir)
                }
            },
            None => scan_directives(s, i + 1, dir),
        }
    }
}

/// The raw brace contents split at every comma.
pub open spec fn split_commas(raw: Seq<char>) -> Seq<Seq<char>>
    decreases raw.len(),
{
    let i = find_char(raw, 0, ',');
    if i < 0 || i >= raw.len() {
        seq![raw]
    } else {
        seq![raw.subrange(0, i)] + split_commas(raw.subrange(i + 1, raw.len() as int))
    }
}

/// Each raw name trimmed and paired with the directive's options; names that
/// trim to nothing are dropped.
pub open spec fn deps_of_names(names: Seq<Seq<char>>, opts: Option<Seq<char>>) -> Seq<
    (Seq<char>, Option<Seq<char>>),
>
    decreases names.len(),
{
    if names.len() == 0 {
        Seq::empty()
    } else {
        deps_of_names(names.drop_last(), opts) + (if spec_trim(names.last()).len() > 0 {
            seq![(spec_trim(names.last()), opts)]
        } else {
            Seq::empty()
        })
    }
}

/// The dependencies all matches of one directive form yield, in match order.
pub open spec fn deps_of_matches(ms: Seq<(Option<Seq<char>>, Seq<char>)>) -> Seq<
    (Seq<char>, Option<Seq<char>>),
>
    decreases ms.len(),
{
    if ms.len() == 0 {
        Seq::empty()
    } else {
        deps_of_matches(ms.drop_last()) + deps_of_names(split_commas(ms.last().1), ms.last().0)
    }
}

pub open spec fn usepackage_dir() -> Seq<char> {
    "\\usepackage"@
}

pub open spec fn requirepackage_dir() -> Seq<char> {
    "\\RequirePackage"@
}

/// Every declared dependency of a document: all `\usepackage` directives,
/// then all `\RequirePackage` directives, each in document order.
pub open spec fn spec_extract_deps(s: Seq<char>) -> Seq<(Seq<char>, Option<Seq<char>>)> {
    deps_of_matches(scan_directives(s, 0, usepackage_dir())) + deps_of_matches(
        scan_directives(s, 0, requirepackage_dir()),
    )
}

/// The name/options pairs an extracted dependency list carries.
pub open spec fn dep_models(v: Seq<(String, Option<String>)>) -> Seq<
    (Seq<char>, Option<Seq<char>>),
> {
    v.map_values(|p: (String, Option<String>)| (p.0@, p.1.deep_view()))
}

proof fn lemma_deps_of_names_concat(xs: Seq<Seq<char>>, ys: Seq<Seq<char>>, opts: Option<Seq<char>>)
    ensures
        deps_of_names(xs + ys, opts) == deps_of_names(xs, opts) + deps_of_names(ys, opts),
    decreases ys.len(),
{
    if ys.len() == 0 {
        assert(xs + ys =~= xs);
        assert(deps_of_names(xs, opts) + deps_of_names(ys, opts) =~= deps_of_names(xs, opts));
    } else {
        assert((xs + ys).drop_last() =~= xs + ys.drop_last());
        assert((xs + ys).last() == ys.last());
        lemma_deps_of_names_concat(xs, ys.drop_last(), opts);
        assert(deps_of_names(xs + ys, opts) =~= deps_of_names(xs, opts) + deps_of_names(ys, opts));
    }
}

proof fn lemma_deps_of_matches_concat(
    xs: Seq<(Option<Seq<char>>, Seq<char>)>,
    ys: Seq<(Option<Seq<char>>, Seq<char>)>,
)
    ensures
        deps_of_matches(xs + ys) == deps_of_matches(xs) + deps_of_matches(ys),
    decreases ys.len(),
{
    if ys.len() == 0 {
        assert(xs + ys =~= xs);
        assert(deps_of_matches(xs) + deps_of_matches(ys) =~= deps_of_matches(xs));
    } else {
        assert((xs + ys).drop_last() =~= xs + ys.drop_last());
        assert((xs + ys).last() == ys.last());
        lemma_deps_of_matches_concat(xs, ys.drop_last());
        assert(deps_of_matches(xs + ys) =~= deps_of_matches(xs) + deps_of_matches(ys));
    }
}

/// Emit the dependencies of one matched directive: split the raw text
/// `v[raw_from..raw_to]` at commas, trim each piece, drop empties, and pair
/// each name with the options `v[oj..ok]` (absent when `has_opts` is false).
fn collect_names(
    v: &Vec<char>,
    raw_from: usize,
    raw_to: usize,
    has_opts: bool,
    oj: usize,
    ok: usize,
    out: &mut Vec<(String, Option<String>)>,
)
    requires
        raw_from <= raw_to <= v.len(),
        has_opts ==> oj <= ok <= v.len(),
    ensures
        dep_models(final(out)@) == dep_models(old(out)@) + deps_of_names(
            split_commas(v@.subrange(raw_from as int, raw_to as int)),
            if has_opts {
                Some(v@.subrange(oj as int, ok as int))
            } else {
                None
            },
        ),
{
    let ghost opts: Option<Seq<char>> = if has_opts {
        Some(v@.subrange(oj as int, ok as int))
    } else {
        None
    };
    let raw = subvec(v, raw_from, raw_to);
    let ghost full = deps_of_names(split_commas(raw@), opts);
    let mut pos: usize = 0;
    proof {
        assert(raw@.subrange(0, raw@.len() as int) =~= raw@);
    }
    loop
        invariant_except_break
            pos <= raw.len(),
            raw@ == v@.subrange(raw_from as int, raw_to as int),
            has_opts ==> oj <= ok <= v.len(),
            opts == if has_opts {
                Some(v@.subrange(oj as int, ok as int))
            } else {
                None::<Seq<char>>
            },
            dep_models(old(out)@) + full == dep_models(out@) + deps_of_names(
                split_commas(raw@.subrange(pos as int, raw@.len() as int)),
                opts,
            ),
        ensures
            dep_models(out@) == dep_models(old(out)@) + full,
        decreases raw.len() - pos,
    {
        let ghost rest = raw@.subrange(pos as int, raw@.len() as int);
        let c = find_char_from(&raw, pos, ',');
        proof {
            assert forall|i: int| 0 <= i < c - pos implies rest[i] != ',' by {
                assert(rest[i] == raw@[pos + i]);
            }
            if c < raw.len() {
                assert(rest[c - pos] == raw@[c as int]);
            }
            lemma_find_char_agrees(rest, 0, c - pos, ',');
        }
        let ghost seg = raw@.subrange(pos as int, c as int);
        proof {
            assert(rest.subrange(0, c - pos) =~= seg);
            if c < raw.len() {
                assert(rest.subrange(c - pos + 1, rest.len() as int) =~= raw@.subrange(
                    c + 1,
                    raw@.len() as int,
                ));
                assert(split_commas(rest) == seq![seg] + split_commas(
                    raw@.subrange(c + 1, raw@.len() as int),
                ));
            } else {
                assert(rest =~= seg);
                assert(split_commas(rest) == seq![seg]);
            }
            assert(seq![seg].drop_last() =~= Seq::<Seq<char>>::empty());
            assert(seq![seg].last() == seg);
            assert(deps_of_names(Seq::<Seq<char>>::empty(), opts) == Seq::<
                (Seq<char>, Option<Seq<char>>),
            >::empty());
            assert(deps_of_names(seq![seg].drop_last(), opts) == Seq::<
                (Seq<char>, Option<Seq<char>>),
            >::empty());
        }
        let (a, b) = trim_range(&raw, pos, c);
        let ghost m0 = dep_models(out@);
        if b > a {
            let name = string_from_range(&raw, a, b);
            let o: Option<String> = if has_opts {
                Some(string_from_range(v, oj, ok))
            } else {
                None
            };
            let pair = (name, o);
            proof {
                assert(pair.1.deep_view() == opts);
            }
            out.push(pair);
            proof {
                assert(spec_trim(seg).len() == b - a);
                assert(dep_models(out@) =~= m0 + seq![(spec_trim(seg), opts)]);
                assert(deps_of_names(seq![seg], opts) =~= seq![(spec_trim(seg), opts)]);
            }
        } else {
            proof {
                assert(spec_trim(seg).len() == 0);
                assert(deps_of_names(seq![seg], opts) =~= Seq::<
                    (Seq<char>, Option<Seq<char>>),
                >::empty());
                assert(dep_models(out@) + Seq::<(Seq<char>, Option<Seq<char>>)>::empty()
                    =~= dep_models(out@));
            }
        }
        if c == raw.len() {
            proof {
                assert(dep_models(old(out)@) + full =~= dep_models(out@));
            }
            break ;
        }
        proof {
            let tail = raw@.subrange(c + 1, raw@.len() as int);
            lemma_deps_of_names_concat(seq![seg], split_commas(tail), opts);
        }
        pos = c + 1;
    }
}

/// Scan `v` for every match of the directive `dir` and emit its
/// dependencies in order.
fn collect_directive(v: &Vec<char>, dir: &Vec<char>, out: &mut Vec<(String, Option<String>)>)
    requires
        dir.len() > 0,
    ensures
        dep_models(final(out)@) == dep_models(old(out)@) + deps_of_matches(
            scan_directives(v@, 0, dir@),
        ),
{
    let mut i: usize = 0;
    while i < v.len()
        invariant
            i <= v.len(),
            dir@.len() > 0,
            dep_models(old(out)@) + deps_of_matches(scan_directives(v@, 0, dir@)) == dep_models(
                out@,
            ) + deps_of_matches(scan_directives(v@, i as int, dir@)),
        decreases v.len() - i,
    {
        let ghost m0 = dep_models(out@);
        if has_pat_at(v, i, dir) {
            let j = ws_run_end_from(v, i + dir.len());
            let mut has_opts = false;
            let mut oj: usize = 0;
            let mut ok: usize = 0;
            let mut j2: usize = j;
            let mut failed = false;
            if j < v.len() && v[j] == '[' {
                let k = find_char_from(v, j + 1, ']');
                if k == v.len() {
                    failed = true;
                } else {
                    has_opts = true;
                    oj = j + 1;
                    ok = k;
                    j2 = ws_run_end_from(v, k + 1);
                }
            }
            if !failed && j2 < v.len() && v[j2] == '{' {
                let m = find_char_from(v, j2 + 1, '}');
                if m == v.len() || m == j2 + 1 {
                    failed = true;
                } else {
                    // a full match: emit its names and resume past it
                    let ghost opts: Option<Seq<char>> = if has_opts {
                        Some(v@.subrange(oj as int, ok as int))
                    } else {
                        None
                    };
                    let ghost raw = v@.subrange(j2 + 1, m as int);
                    proof {
                        assert(directive_match(v@, i as int, dir@) == Some(
                            ((m + 1) as int, opts, raw),
                        ));
                        assert(scan_directives(v@, i as int, dir@) == seq![(opts, raw)]
                            + scan_directives(v@, (m + 1) as int, dir@));
                        assert(seq![(opts, raw)].drop_last() =~= Seq::<
                            (Option<Seq<char>>, Seq<char>),
                        >::empty());
                        assert(seq![(opts, raw)].last() == (opts, raw));
                        assert(deps_of_matches(
                            Seq::<(Option<Seq<char>>, Seq<char>)>::empty(),
                        ) == Seq::<(Seq<char>, Option<Seq<char>>)>::empty());
                        assert(deps_of_matches(seq![(opts, raw)].drop_last()) == Seq::<
                            (Seq<char>, Option<Seq<char>>),
                        >::empty());
                        assert(deps_of_matches(seq![(opts, raw)]) =~= deps_of_names(
                            split_commas(raw),
                            opts,
                        ));
                        lemma_deps_of_matches_concat(
                            seq![(opts, raw)],
                            scan_directives(v@, (m + 1) as int, dir@),
                        );
                    }
                    collect_names(v, j2 + 1, m, has_opts, oj, ok, out);
                    i = m + 1;
                    continue ;
                }
            } else {
                failed = true;
            }
            // no match begins exactly here; resume one character on
            proof {
                assert(directive_match(v@, i as int, dir@) is None);
                assert(scan_directives(v@, i as int, dir@) == scan_directives(
                    v@,
                    i + 1,
                    dir@,
                ));
            }
            i += 1;
        } else {
            proof {
                assert(directive_match(v@, i as int, dir@) is None);
                assert(scan_directives(v@, i as int, dir@) == scan_directives(
                    v@,
                    i + 1,
                    dir@,
                ));
            }
            i += 1;
        }
    }
    proof {
        assert(deps_of_matches(scan_directives(v@, i as int, dir@)) =~= Seq::<
            (Seq<char>, Option<Seq<char>>),
        >::empty());
        assert(dep_models(out@) + Seq::<(Seq<char>, Option<Seq<char>>)>::empty() =~= dep_models(
            out@,
        ));
    }
}

/// Extract every package declared by a `\usepackage` or `\RequirePackage`
/// directive, with the option string written beside it, one entry per name,
/// duplicates preserved.
pub fn parse_usepackages(content: &str) -> (r: Vec<(String, Option<String>)>)
    ensures
        dep_models(r@) == spec_extract_deps(content@),
{
    let v = chars_of(content);
    let mut out: Vec<(String, Option<String>)> = Vec::new();
    let d1 = chars_of("\\usepackage");
    let d2 = chars_of("\\RequirePackage");
    proof {
        reveal_strlit("\\usepackage");
        reveal_strlit("\\RequirePackage");
        assert(dep_models(out@) =~= Seq::<(Seq<char>, Option<Seq<char>>)>::empty());
    }
    collect_directive(&v, &d1, &mut out);
    collect_directive(&v, &d2, &mut out);
    proof {
        assert(dep_models(out@) =~= spec_extract_deps(content@));
    }
    out
}

} // verus!

//! Character-sequence utilities shared by the log parser, the dependency
//! extractor, and the message builders: whitespace trimming, searching,
//! splitting, and conversions between `&str`, `Vec<char>` and `String`.

use vstd::prelude::*;
use vstd::string::StrSliceExecFns;
use vstd::string::StringExecFns;

verus! {

broadcast use vstd::string::group_string_axioms;

/// The whitespace characters recognized when trimming: the ASCII blank set.
pub open spec fn is_ws(c: char) -> bool {
    c == ' ' || c == '\t' || c == '\n' || c == '\r' || c == '\x0b' || c == '\x0c'
}

/// Executable mirror of `is_ws`.
pub fn is_ws_char(c: char) -> (r: bool)
    ensures
        r == is_ws(c),
{
    c == ' ' || c == '\t' || c == '\n' || c == '\r' || c == '\x0b' || c == '\x0c'
}

/// Index of the first character at or after `from` equal to `c`, or `s.len()`
/// if there is none.
pub open spec fn find_char(s: Seq<char>, from: int, c: char) -> int
    decreases s.len() - from,
{
    if from < 0 || from >= s.len() {
        s.len() as int
    } else if s[from] == c {
        from
    } else {
        find_char(s, from + 1, c)
    }
}

/// A scan that saw no `c` in `[from, k)` and then either `c` at `k` or the end
/// of `s` has found `find_char`.
pub proof fn lemma_find_char_agrees(s: Seq<char>, from: int, k: int, c: char)
    requires
        0 <= from <= k <= s.len(),
        forall|i: int| from <= i < k ==> s[i] != c,
        k < s.len() ==> s[k] == c,
    ensures
        find_char(s, from, c) == if k < s.len() { k } else { s.len() as int },
    decreases k - from,
{
    if from < k {
        lemma_find_char_agrees(s, from + 1, k, c);
    }
}

/// `pat` occurs in `s` starting at index `i`.
pub open spec fn starts_with_at(s: Seq<char>, i: int, pat: Seq<char>) -> bool {
    0 <= i && i + pat.len() <= s.len() && s.subrange(i, i + pat.len()) == pat
}

/// Index of the first occurrence of `pat` at or after `from`, or `s.len()` if
/// there is none.
pub open spec fn find_sub(s: Seq<char>, from: int, pat: Seq<char>) -> int
    decreases s.len() - from,
{
    if from < 0 || pat.len() == 0 || from + pat.len() > s.len() {
        s.len() as int
    } else if starts_with_at(s, from, pat) {
        from
    } else {
        find_sub(s, from + 1, pat)
    }
}

pub open spec fn contains_sub(s: Seq<char>, pat: Seq<char>) -> bool {
    find_sub(s, 0, pat) < s.len()
}

pub proof fn lemma_find_sub_props(s: Seq<char>, from: int, pat: Seq<char>)
    requires
        0 <= from <= s.len(),
        pat.len() > 0,
    ensures
        from <= find_sub(s, from, pat) <= s.len(),
        find_sub(s, from, pat) < s.len() ==> starts_with_at(s, find_sub(s, from, pat), pat),
        forall|i: int| from <= i < find_sub(s, from, pat) ==> !starts_with_at(s, i, pat),
    decreases s.len() - from,
{
    if from + pat.len() <= s.len() && !starts_with_at(s, from, pat) {
        lemma_find_sub_props(s, from + 1, pat);
    }
}

/// A scan that saw no occurrence of `pat` in `[from, k)` and then one at `k`
/// has found `find_sub`; a scan to the end that saw none shows there is none.
pub proof fn lemma_find_sub_agrees(s: Seq<char>, from: int, k: int, pat: Seq<char>)
    requires
        0 <= from <= k <= s.len(),
        pat.len() > 0,
        forall|i: int| from <= i < k ==> !starts_with_at(s, i, pat),
        k + pat.len() <= s.len() ==> starts_with_at(s, k, pat),
    ensures
        find_sub(s, from, pat) == if k + pat.len() <= s.len() { k } else { s.len() as int },
    decreases k - from,
{
    if from < k {
        lemma_find_sub_agrees(s, from + 1, k, pat);
    }
}

/// Number of leading whitespace characters of `s`.
pub open spec fn trim_start_idx(s: Seq<char>) -> int
    decreases s.len(),
{
    if s.len() == 0 {
        0
    } else if is_ws(s[0]) {
        1 + trim_start_idx(s.drop_first())
    } else {
        0
    }
}

/// Index just after the last non-whitespace character of `s`; 0 if all of `s`
/// is whitespace.
pub open spec fn trim_end_idx(s: Seq<char>) -> int
    decreases s.len(),
{
    if s.len() == 0 {
        0
    } else if is_ws(s.last()) {
        trim_end_idx(s.drop_last())
    } else {
        s.len() as int
    }
}

/// `s` with leading and trailing whitespace removed.
pub open spec fn spec_trim(s: Seq<char>) -> Seq<char> {
    if trim_start_idx(s) <= trim_end_idx(s) {
        s.subrange(trim_start_idx(s), trim_end_idx(s))
    } else {
        Seq::empty()
    }
}

pub proof fn lemma_trim_start_agrees(s: Seq<char>, k: int)
    requires
        0 <= k <= s.len(),
        forall|i: int| 0 <= i < k ==> is_ws(s[i]),
        k < s.len() ==> !is_ws(s[k]),
    ensures
        trim_start_idx(s) == k,
    decreases k,
{
    if k > 0 {
        let t = s.drop_first();
        assert forall|i: int| 0 <= i < k - 1 implies is_ws(t[i]) by {
            assert(t[i] == s[i + 1]);
        }
        lemma_trim_start_agrees(t, k - 1);
    }
}

pub proof fn lemma_trim_end_agrees(s: Seq<char>, k: int)
    requires
        0 <= k <= s.len(),
        forall|i: int| k <= i < s.len() ==> is_ws(s[i]),
        k > 0 ==> !is_ws(s[k - 1]),
    ensures
        trim_end_idx(s) == k,
    decreases s.len(),
{
    if k < s.len() {
        let t = s.drop_last();
        assert(is_ws(s.last()));
        assert forall|i: int| k <= i < t.len() implies is_ws(t[i]) by {
            assert(t[i] == s[i]);
        }
        lemma_trim_end_agrees(t, k);
    }
}

pub proof fn lemma_trim_bounds(s: Seq<char>)
    ensures
        0 <= trim_start_idx(s) <= s.len(),
        0 <= trim_end_idx(s) <= s.len(),
        forall|i: int| 0 <= i < trim_start_idx(s) ==> is_ws(s[i]),
        trim_start_idx(s) < s.len() ==> !is_ws(s[trim_start_idx(s)]),
        forall|i: int| trim_end_idx(s) <= i < s.len() ==> is_ws(s[i]),
        trim_end_idx(s) > 0 ==> !is_ws(s[trim_end_idx(s) - 1]),
    decreases s.len(),
{
    if s.len() > 0 {
        let f = s.drop_first();
        let l = s.drop_last();
        lemma_trim_bounds(f);
        lemma_trim_bounds(l);
        if is_ws(s[0]) {
            assert forall|i: int| 0 <= i < trim_start_idx(s) implies is_ws(s[i]) by {
                if i > 0 {
                    assert(is_ws(f[i - 1]));
                }
            }
        }
        if is_ws(s.last()) {
            assert(trim_end_idx(s) == trim_end_idx(l));
            assert forall|i: int| trim_end_idx(s) <= i < s.len() implies is_ws(s[i]) by {
                if i < s.len() - 1 {
                    assert(is_ws(l[i]));
                }
            }
        }
    }
}

/// `c` is a decimal digit.
pub open spec fn is_digit(c: char) -> bool {
    '0' as u32 <= c as u32 && c as u32 <= '9' as u32
}

pub open spec fn digit_val(c: char) -> int {
    c as u32 - '0' as u32
}

pub open spec fn all_digits(s: Seq<char>) -> bool {
    forall|i: int| 0 <= i < s.len() ==> is_digit(s[i])
}

/// The value of `s` read as a decimal numeral.
pub open spec fn dec_val(s: Seq<char>) -> int
    decreases s.len(),
{
    if s.len() == 0 {
        0
    } else {
        dec_val(s.drop_last()) * 10 + digit_val(s.last())
    }
}

pub proof fn lemma_dec_val_nonneg(s: Seq<char>)
    requires
        all_digits(s),
    ensures
        dec_val(s) >= 0,
    decreases s.len(),
{
    if s.len() > 0 {
        assert(all_digits(s.drop_last()));
        lemma_dec_val_nonneg(s.drop_last());
    }
}

/// Extending a numeral with more digits never shrinks its value.
pub proof fn lemma_dec_val_grows(s: Seq<char>, k: int)
    requires
        all_digits(s),
        0 <= k <= s.len(),
    ensures
        dec_val(s.subrange(0, k)) <= dec_val(s),
    decreases s.len() - k,
{
    if k < s.len() {
        let p = s.subrange(0, k);
        let q = s.subrange(0, k + 1);
        assert(q.drop_last() =~= p);
        assert(all_digits(p));
        lemma_dec_val_nonneg(p);
        assert(dec_val(q) == dec_val(p) * 10 + digit_val(q.last()));
        assert(dec_val(p) * 10 >= dec_val(p));
        lemma_dec_val_grows(s, k + 1);
    } else {
        assert(s.subrange(0, k) =~= s);
    }
}

/// A line with one trailing carriage return removed, as a `\r\n` ending does
/// not belong to the line's text.
pub open spec fn chop_cr(l: Seq<char>) -> Seq<char> {
    if l.len() > 0 && l[l.len() - 1] == '\r' {
        l.drop_last()
    } else {
        l
    }
}

/// `s` split into lines: separators are `\n`, a `\r` directly before a
/// separator is dropped, and a final separator ends the last line rather
/// than opening an empty one.
pub open spec fn spec_lines(s: Seq<char>) -> Seq<Seq<char>>
    decreases s.len(),
{
    if s.len() == 0 {
        Seq::empty()
    } else {
        let i = find_char(s, 0, '\n');
        if i < 0 || i >= s.len() {
            seq![s]
        } else {
            seq![chop_cr(s.subrange(0, i))] + spec_lines(s.subrange(i + 1, s.len() as int))
        }
    }
}

/// First index at or after `from` holding a non-digit, or `s.len()`.
pub open spec fn digit_run_end(s: Seq<char>, from: int) -> int
    decreases s.len() - from,
{
    if from < 0 || from >= s.len() {
        s.len() as int
    } else if !is_digit(s[from]) {
        from
    } else {
        digit_run_end(s, from + 1)
    }
}

pub proof fn lemma_digit_run_agrees(s: Seq<char>, from: int, k: int)
    requires
        0 <= from <= k <= s.len(),
        forall|i: int| from <= i < k ==> is_digit(s[i]),
        k < s.len() ==> !is_digit(s[k]),
    ensures
        digit_run_end(s, from) == k,
    decreases k - from,
{
    if from < k {
        lemma_digit_run_agrees(s, from + 1, k);
    }
}

/// First index at or after `from` holding a non-whitespace character, or
/// `s.len()`.
pub open spec fn ws_run_end(s: Seq<char>, from: int) -> int
    decreases s.len() - from,
{
    if from < 0 || from >= s.len() {
        s.len() as int
    } else if !is_ws(s[from]) {
        from
    } else {
        ws_run_end(s, from + 1)
    }
}

pub proof fn lemma_ws_run_props(s: Seq<char>, from: int)
    requires
        0 <= from <= s.len(),
    ensures
        from <= ws_run_end(s, from) <= s.len(),
        ws_run_end(s, from) < s.len() ==> !is_ws(s[ws_run_end(s, from)]),
    decreases s.len() - from,
{
    if from < s.len() && is_ws(s[from]) {
        lemma_ws_run_props(s, from + 1);
    }
}

/// First index at or after `from` holding a non-whitespace character.
pub fn ws_run_end_from(v: &Vec<char>, from: usize) -> (r: usize)
    requires
        from <= v.len(),
    ensures
        r == ws_run_end(v@, from as int),
        from <= r <= v.len(),
{
    let mut i: usize = from;
    while i < v.len() && is_ws_char(v[i])
        invariant
            from <= i <= v.len(),
            ws_run_end(v@, from as int) == ws_run_end(v@, i as int),
        decreases v.len() - i,
    {
        i += 1;
    }
    proof {
        lemma_ws_run_props(v@, i as int);
    }
    i
}

/// Executable mirror of `is_digit`.
pub fn is_digit_char(c: char) -> (r: bool)
    ensures
        r == is_digit(c),
{
    let u = c as u32;
    '0' as u32 <= u && u <= '9' as u32
}

/// The characters of `s`, in order, as a vector.
pub fn chars_of(s: &str) -> (v: Vec<char>)
    ensures
        v@ == s@,
{
    let mut v: Vec<char> = Vec::new();
    let n = s.unicode_len();
    let mut i: usize = 0;
    while i < n
        invariant
            0 <= i <= n,
            n == s@.len(),
            v@ == s@.subrange(0, i as int),
        decreases n - i,
    {
        let c = s.get_char(i);
        v.push(c);
        assert(s@.subrange(0, i as int).push(s@[i as int]) =~= s@.subrange(0, i + 1));
        i += 1;
    }
    assert(v@ =~= s@);
    v
}

/// Relies on `String::push`: appends one character at the end of the string.
#[verifier::external_body]
fn push_char(s: &mut String, c: char)
    ensures
        final(s)@ == old(s)@.push(c),
{
    s.push(c);
}

/// A `String` holding `v[from..to]`.
pub fn string_from_range(v: &Vec<char>, from: usize, to: usize) -> (r: String)
    requires
        from <= to <= v.len(),
    ensures
        r@ == v@.subrange(from as int, to as int),
{
    let mut r = String::new();
    let mut i: usize = from;
    while i < to
        invariant
            from <= i <= to <= v.len(),
            r@ == v@.subrange(from as int, i as int),
        decreases to - i,
    {
        push_char(&mut r, v[i]);
        assert(v@.subrange(from as int, i as int).push(v@[i as int]) =~= v@.subrange(
            from as int,
            i + 1,
        ));
        i += 1;
    }
    r
}

/// A fresh copy of `v[from..to]`.
pub fn subvec(v: &Vec<char>, from: usize, to: usize) -> (r: Vec<char>)
    requires
        from <= to <= v.len(),
    ensures
        r@ == v@.subrange(from as int, to as int),
{
    let mut r: Vec<char> = Vec::new();
    let mut i: usize = from;
    while i < to
        invariant
            from <= i <= to <= v.len(),
            r@ == v@.subrange(from as int, i as int),
        decreases to - i,
    {
        r.push(v[i]);
        assert(v@.subrange(from as int, i as int).push(v@[i as int]) =~= v@.subrange(
            from as int,
            i + 1,
        ));
        i += 1;
    }
    r
}

/// First index `>= from` holding `c`, or `v.len()` if none.
pub fn find_char_from(v: &Vec<char>, from: usize, c: char) -> (r: usize)
    requires
        from <= v.len(),
    ensures
        r == find_char(v@, from as int, c),
        from <= r <= v.len(),
        r < v.len() ==> v@[r as int] == c,
        forall|i: int| from <= i < r ==> v@[i] != c,
{
    let mut i: usize = from;
    while i < v.len()
        invariant
            from <= i <= v.len(),
            forall|k: int| from <= k < i ==> v@[k] != c,
        decreases v.len() - i,
    {
        if v[i] == c {
            proof {
                lemma_find_char_agrees(v@, from as int, i as int, c);
            }
            return i;
        }
        i += 1;
    }
    proof {
        lemma_find_char_agrees(v@, from as int, v@.len() as int, c);
    }
    i
}

/// Whether `pat` occurs in `v` starting at `i`.
pub fn has_pat_at(v: &Vec<char>, i: usize, pat: &Vec<char>) -> (r: bool)
    requires
        i <= v.len(),
    ensures
        r == starts_with_at(v@, i as int, pat@),
{
    if pat.len() > v.len() - i {
        assert(!starts_with_at(v@, i as int, pat@));
        return false;
    }
    let mut j: usize = 0;
    while j < pat.len()
        invariant
            0 <= j <= pat.len(),
            i + pat.len() <= v.len(),
            forall|k: int| 0 <= k < j ==> v@[i + k] == pat@[k],
        decreases pat.len() - j,
    {
        if v[i + j] != pat[j] {
            assert(v@.subrange(i as int, i + pat@.len())[j as int] != pat@[j as int]);
            return false;
        }
        j += 1;
    }
    assert(v@.subrange(i as int, i + pat@.len()) =~= pat@);
    true
}

/// First index `>= from` where `pat` occurs, or `v.len()` if none.
pub fn find_sub_from(v: &Vec<char>, from: usize, pat: &Vec<char>) -> (r: usize)
    requires
        from <= v.len(),
        pat.len() > 0,
    ensures
        r == find_sub(v@, from as int, pat@),
{
    if pat.len() > v.len() || from > v.len() - pat.len() {
        // every start position at or after `from` would run off the end
        proof {
            assert forall|k: int| from <= k < v@.len() implies !starts_with_at(v@, k, pat@) by {}
            lemma_find_sub_agrees(v@, from as int, v@.len() as int, pat@);
        }
        return v.len();
    }
    let limit = v.len() - pat.len();
    let mut i: usize = from;
    while i <= limit
        invariant
            from <= i <= limit + 1,
            limit == v.len() - pat@.len(),
            pat@.len() > 0,
            pat@.len() <= v.len(),
            forall|k: int| from <= k < i ==> !starts_with_at(v@, k, pat@),
        decreases limit + 1 - i,
    {
        if has_pat_at(v, i, pat) {
            proof {
                lemma_find_sub_agrees(v@, from as int, i as int, pat@);
            }
            return i;
        }
        i += 1;
    }
    proof {
        assert forall|k: int| from <= k < v@.len() implies !starts_with_at(v@, k, pat@) by {
            if k + pat@.len() <= v@.len() {
                assert(k < i);
            }
        }
        lemma_find_sub_agrees(v@, from as int, v@.len() as int, pat@);
    }
    v.len()
}

/// Whether `pat` occurs anywhere in `v`.
pub fn contains_pat(v: &Vec<char>, pat: &Vec<char>) -> (r: bool)
    requires
        pat.len() > 0,
    ensures
        r == contains_sub(v@, pat@),
{
    let i = find_sub_from(v, 0, pat);
    proof {
        lemma_find_sub_props(v@, 0, pat@);
    }
    i < v.len()
}

/// Bounds of `v[from..to]` after trimming whitespace from both ends, as
/// absolute indices: the trimmed text is `v[a..b]`.
pub fn trim_range(v: &Vec<char>, from: usize, to: usize) -> (r: (usize, usize))
    requires
        from <= to <= v.len(),
    ensures
        from <= r.0 <= r.1 <= to,
        v@.subrange(r.0 as int, r.1 as int) == spec_trim(v@.subrange(from as int, to as int)),
{
    let ghost s = v@.subrange(from as int, to as int);
    let mut a: usize = from;
    while a < to && is_ws_char(v[a])
        invariant
            from <= a <= to <= v.len(),
            forall|i: int| from <= i < a ==> is_ws(v@[i]),
        decreases to - a,
    {
        a += 1;
    }
    proof {
        assert forall|i: int| 0 <= i < a - from implies is_ws(s[i]) by {
            assert(s[i] == v@[from + i]);
        }
        if a < to {
            assert(s[a - from] == v@[a as int]);
        }
        lemma_trim_start_agrees(s, a - from);
    }
    if a == to {
        // all whitespace: the trimmed text is empty
        proof {
            lemma_trim_bounds(s);
            assert(spec_trim(s) =~= v@.subrange(a as int, a as int));
        }
        return (a, a);
    }
    let mut b: usize = to;
    while b > a && is_ws_char(v[b - 1])
        invariant
            from <= a <= b <= to <= v.len(),
            forall|i: int| b <= i < to ==> is_ws(v@[i]),
        decreases b,
    {
        b -= 1;
    }
    // v[a] is not whitespace, so the trimmed text reaches at least index a
    assert(b > a);
    proof {
        assert forall|i: int| b - from <= i < s.len() implies is_ws(s[i]) by {
            assert(s[i] == v@[from + i]);
        }
        assert(s[b - from - 1] == v@[b - 1]);
        lemma_trim_end_agrees(s, b - from);
        assert(spec_trim(s) =~= v@.subrange(a as int, b as int));
    }
    (a, b)
}

/// `s` with every (non-overlapping, leftmost-first) occurrence of `pat`
/// removed.
pub open spec fn remove_all(s: Seq<char>, pat: Seq<char>) -> Seq<char>
    decreases s.len(),
{
    if pat.len() == 0 {
        s
    } else {
        let i = find_sub(s, 0, pat);
        if i < 0 || i + pat.len() > s.len() {
            s
        } else {
            s.subrange(0, i) + remove_all(s.subrange(i + pat.len(), s.len() as int), pat)
        }
    }
}

/// Append `v[from..to]` to `out`.
pub fn push_range(out: &mut Vec<char>, v: &Vec<char>, from: usize, to: usize)
    requires
        from <= to <= v.len(),
    ensures
        final(out)@ == old(out)@ + v@.subrange(from as int, to as int),
{
    let mut i: usize = from;
    while i < to
        invariant
            from <= i <= to <= v.len(),
            out@ == old(out)@ + v@.subrange(from as int, i as int),
        decreases to - i,
    {
        out.push(v[i]);
        proof {
            assert(old(out)@ + v@.subrange(from as int, i + 1) =~= (old(out)@ + v@.subrange(
                from as int,
                i as int,
            )).push(v@[i as int]));
        }
        i += 1;
    }
    proof {
        if from == to {
            assert(out@ =~= old(out)@ + v@.subrange(from as int, to as int));
        }
    }
}

/// `v` with every occurrence of `pat` removed.
pub fn remove_all_occurrences(v: &Vec<char>, pat: &Vec<char>) -> (r: Vec<char>)
    requires
        pat.len() > 0,
    ensures
        r@ == remove_all(v@, pat@),
{
    let ghost target = remove_all(v@, pat@);
    let mut out: Vec<char> = Vec::new();
    let mut pos: usize = 0;
    proof {
        assert(v@.subrange(0, v@.len() as int) =~= v@);
        assert(out@ =~= Seq::<char>::empty());
    }
    while pos < v.len()
        invariant
            pos <= v.len(),
            pat@.len() > 0,
            target == remove_all(v@, pat@),
            target == out@ + remove_all(v@.subrange(pos as int, v@.len() as int), pat@),
        decreases v.len() - pos,
    {
        let ghost rest = v@.subrange(pos as int, v@.len() as int);
        let ghost o0 = out@;
        let f = find_sub_from(v, pos, pat);
        proof {
            lemma_find_sub_props(v@, pos as int, pat@);
            assert forall|i: int| 0 <= i < f - pos implies !starts_with_at(rest, i, pat@) by {
                if i + pat@.len() <= rest.len() {
                    assert(rest.subrange(i, i + pat@.len()) =~= v@.subrange(
                        pos + i,
                        pos + i + pat@.len(),
                    ));
                    assert(!starts_with_at(v@, pos + i, pat@));
                }
            }
            if f < v.len() {
                assert(starts_with_at(v@, f as int, pat@));
                assert(rest.subrange(f - pos, f - pos + pat@.len()) =~= v@.subrange(
                    f as int,
                    f + pat@.len(),
                ));
                assert(starts_with_at(rest, f - pos, pat@));
            }
            lemma_find_sub_agrees(rest, 0, f - pos, pat@);
        }
        if f == v.len() {
            // no further occurrence: keep the remainder as it is
            proof {
                assert(find_sub(rest, 0, pat@) == rest.len());
                assert(remove_all(rest, pat@) == rest);
            }
            push_range(&mut out, v, pos, v.len());
            pos = v.len();
            proof {
                assert(v@.subrange(pos as int, v@.len() as int) =~= Seq::<char>::empty());
                assert(remove_all(Seq::<char>::empty(), pat@) == Seq::<char>::empty());
                assert(out@ + Seq::<char>::empty() =~= out@);
                assert(target == out@ + remove_all(
                    v@.subrange(pos as int, v@.len() as int),
                    pat@,
                ));
            }
        } else {
            proof {
                assert(find_sub(rest, 0, pat@) == f - pos);
                assert(starts_with_at(v@, f as int, pat@));
                assert(remove_all(rest, pat@) == rest.subrange(0, f - pos) + remove_all(
                    rest.subrange(f - pos + pat@.len(), rest.len() as int),
                    pat@,
                ));
                assert(rest.subrange(0, f - pos) =~= v@.subrange(pos as int, f as int));
                assert(rest.subrange(f - pos + pat@.len(), rest.len() as int) =~= v@.subrange(
                    f + pat@.len(),
                    v@.len() as int,
                ));
            }
            push_range(&mut out, v, pos, f);
            proof {
                assert(out@ + remove_all(v@.subrange(f + pat@.len(), v@.len() as int), pat@)
                    =~= o0 + remove_all(rest, pat@));
            }
            pos = f + pat.len();
        }
    }
    proof {
        assert(v@.subrange(pos as int, v@.len() as int) =~= Seq::<char>::empty());
        assert(remove_all(Seq::<char>::empty(), pat@) == Seq::<char>::empty());
        assert(out@ + Seq::<char>::empty() =~= out@);
    }
    out
}

/// The character for one decimal digit.
pub open spec fn digit_char(d: int) -> char {
    ((48 + d) as u8) as char
}

/// The decimal numeral of `n`, without sign or leading zeros.
pub open spec fn spec_digits(n: nat) -> Seq<char>
    decreases n,
{
    if n < 10 {
        seq![digit_char(n as int)]
    } else {
        spec_digits(n / 10).push(digit_char((n % 10) as int))
    }
}

fn push_digits(n: u64, s: &mut String)
    ensures
        final(s)@ == old(s)@ + spec_digits(n as nat),
    decreases n,
{
    if n < 10 {
        let c = (48 + n as u8) as char;
        assert(c == digit_char(n as int));
        push_char(s, c);
        assert(final(s)@ =~= old(s)@ + spec_digits(n as nat));
    } else {
        let ghost s0 = s@;
        push_digits(n / 10, s);
        let c = (48 + (n % 10) as u8) as char;
        assert(c == digit_char((n % 10) as int));
        push_char(s, c);
        assert(final(s)@ =~= s0 + spec_digits(n as nat));
    }
}

/// The decimal numeral of `n` as a `String`.
pub fn u64_to_string(n: u64) -> (r: String)
    ensures
        r@ == spec_digits(n as nat),
{
    let mut s = String::new();
    push_digits(n, &mut s);
    proof {
        assert(Seq::<char>::empty() + spec_digits(n as nat) =~= spec_digits(n as nat));
    }
    s
}

/// `parts` joined with the separator `sep` between neighbours.
pub open spec fn spec_join(parts: Seq<Seq<char>>, sep: Seq<char>) -> Seq<char>
    decreases parts.len(),
{
    if parts.len() == 0 {
        Seq::empty()
    } else if parts.len() == 1 {
        parts[0]
    } else {
        spec_join(parts.drop_last(), sep) + sep + parts.last()
    }
}

/// Join strings with a separator.
pub fn join_strings(parts: &Vec<String>, sep: &str) -> (r: String)
    ensures
        r@ == spec_join(parts.deep_view(), sep@),
{
    let mut s = String::new();
    let mut k: usize = 0;
    while k < parts.len()
        invariant
            0 <= k <= parts.len(),
            s@ == spec_join(parts.deep_view().subrange(0, k as int), sep@),
        decreases parts.len() - k,
    {
        let ghost ps = parts.deep_view();
        if k > 0 {
            s.append(sep);
        }
        s.append(parts[k].as_str());
        proof {
            let p = ps.subrange(0, k + 1);
            assert(p.drop_last() =~= ps.subrange(0, k as int));
            assert(p.last() == ps[k as int]);
            if k == 0 {
                assert(Seq::<char>::empty() + ps[0] =~= ps[0]);
            }
        }
        k += 1;
    }
    proof {
        assert(parts.deep_view().subrange(0, parts@.len() as int) =~= parts.deep_view());
    }
    s
}

/// `v` split into lines, as `spec_lines` describes.
pub fn split_lines(v: &Vec<char>) -> (r: Vec<Vec<char>>)
    ensures
        r.deep_view() == spec_lines(v@),
{
    let mut r: Vec<Vec<char>> = Vec::new();
    let mut pos: usize = 0;
    proof {
        assert(r.deep_view() =~= Seq::<Seq<char>>::empty());
        assert(v@.subrange(0, v@.len() as int) =~= v@);
    }
    while pos < v.len()
        invariant
            pos <= v.len(),
            spec_lines(v@) == r.deep_view() + spec_lines(v@.subrange(pos as int, v@.len() as int)),
        decreases v.len() - pos,
    {
        let ghost rest = v@.subrange(pos as int, v@.len() as int);
        let ghost r0 = r.deep_view();
        let j = find_char_from(v, pos, '\n');
        proof {
            assert forall|i: int| 0 <= i < j - pos implies rest[i] != '\n' by {
                assert(rest[i] == v@[pos + i]);
            }
            if j < v.len() {
                assert(rest[j - pos] == v@[j as int]);
            }
            lemma_find_char_agrees(rest, 0, j - pos, '\n');
        }
        if j == v.len() {
            let line = subvec(v, pos, j);
            proof {
                assert(line@ =~= rest);
                assert(spec_lines(rest) =~= seq![rest]);
            }
            r.push(line);
            pos = j;
            proof {
                assert(r.deep_view() =~~= r0 + seq![rest]);
                assert(spec_lines(v@.subrange(pos as int, v@.len() as int)) =~= Seq::<
                    Seq<char>,
                >::empty());
                assert(r.deep_view() + spec_lines(v@.subrange(pos as int, v@.len() as int)) =~= r0
                    + spec_lines(rest));
            }
        } else {
            let end = if j > pos && v[j - 1] == '\r' {
                j - 1
            } else {
                j
            };
            let line = subvec(v, pos, end);
            proof {
                assert(rest.subrange(0, j - pos) =~= v@.subrange(pos as int, j as int));
                if j > pos && v@[j - 1] == '\r' {
                    assert(chop_cr(rest.subrange(0, j - pos)) =~= v@.subrange(
                        pos as int,
                        end as int,
                    ));
                } else {
                    assert(chop_cr(rest.subrange(0, j - pos)) =~= v@.subrange(
                        pos as int,
                        end as int,
                    ));
                }
                assert(line@ == chop_cr(rest.subrange(0, j - pos)));
            }
            r.push(line);
            let ghost rest2 = v@.subrange(j + 1, v@.len() as int);
            proof {
                assert(rest.subrange(j - pos + 1, rest.len() as int) =~= rest2);
                assert(spec_lines(rest) == seq![chop_cr(rest.subrange(0, j - pos))] + spec_lines(
                    rest2,
                ));
                assert(r.deep_view() =~~= r0 + seq![line@]);
                assert(r.deep_view() + spec_lines(rest2) =~= r0 + spec_lines(rest));
            }
            pos = j + 1;
        }
    }
    proof {
        assert(spec_lines(v@.subrange(pos as int, v@.len() as int)) =~= Seq::<Seq<char>>::empty());
        assert(r.deep_view() + Seq::<Seq<char>>::empty() =~= r.deep_view());
    }
    r
}

/// The decimal value of the digits `v[from..to]`, unless it exceeds
/// `i32::MAX`.
pub fn parse_decimal_capped(v: &Vec<char>, from: usize, to: usize) -> (r: Option<u64>)
    requires
        from <= to <= v.len(),
        all_digits(v@.subrange(from as int, to as int)),
    ensures
        match r {
            Some(n) => n as int == dec_val(v@.subrange(from as int, to as int)) && n <= 0x7fff_ffff,
            None => dec_val(v@.subrange(from as int, to as int)) > 0x7fff_ffff,
        },
{
    let ghost run = v@.subrange(from as int, to as int);
    let mut val: u64 = 0;
    let mut i: usize = from;
    while i < to
        invariant
            from <= i <= to <= v.len(),
            run == v@.subrange(from as int, to as int),
            all_digits(run),
            val as int == dec_val(v@.subrange(from as int, i as int)),
            val <= 0x7fff_ffff,
        decreases to - i,
    {
        let c = v[i];
        proof {
            assert(run[i - from] == v@[i as int]);
        }
        let d = (c as u32 - '0' as u32) as u64;
        let val2 = val * 10 + d;
        proof {
            let p = v@.subrange(from as int, i as int);
            let q = v@.subrange(from as int, i + 1);
            assert(q.drop_last() =~= p);
            assert(q.last() == v@[i as int]);
            assert(dec_val(q) == dec_val(p) * 10 + digit_val(v@[i as int]));
        }
        if val2 > 0x7fff_ffff {
            proof {
                let k = i + 1 - from;
                assert(run.subrange(0, k) =~= v@.subrange(from as int, i + 1));
                lemma_dec_val_grows(run, k);
            }
            return None;
        }
        val = val2;
        i += 1;
    }
    proof {
        assert(v@.subrange(from as int, i as int) =~= run);
    }
    Some(val)
}

} // verus!

//! Normalization of asset URLs into deduplication keys: the query string and
//! fragment are cut off, then recognized resolution and size markers are
//! stripped from the tail of the final path segment, immediately before the
//! file extension. The normalized string is only a key: callers keep and
//! return the literal URL.

use vstd::prelude::*;
use vstd::string::*;

use crate::text::{
    is_digit, is_ascii_letter, upto_char, lemma_upto_char, find_char, exec_is_digit,
    exec_is_ascii_letter,
};

verus! {

/// Separator allowed before a size marker.
pub open spec fn is_sep(c: char) -> bool {
    c == '-' || c == '_'
}

fn exec_is_sep(c: char) -> (r: bool)
    ensures
        r == is_sep(c),
{
    c == '-' || c == '_'
}

/// End of the part of the URL kept for the key: everything before the first
/// `?` or `#`.
pub open spec fn qcut(s: Seq<char>) -> int {
    if upto_char(s, '?') <= upto_char(s, '#') {
        upto_char(s, '?')
    } else {
        upto_char(s, '#')
    }
}

/// Index of the last `.` in `s`, or `-1` if there is none.
pub open spec fn last_dot(s: Seq<char>) -> int
    decreases s.len(),
{
    if s.len() == 0 {
        -1
    } else if s[s.len() - 1] == '.' {
        s.len() - 1
    } else {
        last_dot(s.drop_last())
    }
}

pub proof fn lemma_last_dot(s: Seq<char>)
    ensures
        -1 <= last_dot(s) < s.len(),
        last_dot(s) >= 0 ==> s[last_dot(s)] == '.',
        forall|j: int| last_dot(s) < j < s.len() ==> s[j] != '.',
    decreases s.len(),
{
    if s.len() == 0 {
    } else if s[s.len() - 1] == '.' {
    } else {
        lemma_last_dot(s.drop_last());
        assert(forall|j: int| 0 <= j < s.len() - 1 ==> s.drop_last()[j] == s[j]);
    }
}

pub proof fn lemma_last_dot_unique(s: Seq<char>, d: int)
    requires
        -1 <= d < s.len(),
        d >= 0 ==> s[d] == '.',
        forall|j: int| d < j < s.len() ==> s[j] != '.',
    ensures
        d == last_dot(s),
{
    lemma_last_dot(s);
    if d < last_dot(s) {
        assert(s[last_dot(s)] == '.');
        assert(false);
    }
    if last_dot(s) < d {
        assert(s[d] == '.');
        assert(false);
    }
}

/// `s` ends in a file extension: a final `.` followed by at least one
/// character, all ASCII letters.
pub open spec fn has_ext(s: Seq<char>) -> bool {
    let d = last_dot(s);
    d >= 0 && d + 1 < s.len() && forall|j: int| d < j < s.len() ==> is_ascii_letter(s[j])
}

/// Start of the maximal run of decimal digits ending just before `e`.
pub open spec fn run_start(s: Seq<char>, e: int) -> int
    decreases e,
{
    if e > 0 && e <= s.len() && is_digit(s[e - 1]) {
        run_start(s, e - 1)
    } else {
        e
    }
}

pub proof fn lemma_run_start(s: Seq<char>, e: int)
    requires
        0 <= e <= s.len(),
    ensures
        0 <= run_start(s, e) <= e,
        forall|j: int| run_start(s, e) <= j < e ==> is_digit(s[j]),
        run_start(s, e) > 0 ==> !is_digit(s[run_start(s, e) - 1]),
    decreases e,
{
    if e > 0 && is_digit(s[e - 1]) {
        lemma_run_start(s, e - 1);
    }
}

fn run_start_exec(s: &str, e: usize) -> (r: usize)
    requires
        e <= s@.len(),
    ensures
        r as int == run_start(s@, e as int),
        r <= e,
{
    let mut i: usize = e;
    while i > 0 && exec_is_digit(s.get_char(i - 1))
        invariant
            e <= s@.len(),
            i <= e,
            run_start(s@, e as int) == run_start(s@, i as int),
        decreases i,
    {
        i = i - 1;
    }
    i
}

/// Cut for a vendor resolution marker: `-cc_ft_` or `-ft_` (or with `_`)
/// followed by 2 to 4 digits, at the stem's tail (positions below `k`).
pub open spec fn vendor_cut(s: Seq<char>, k: int) -> Option<int> {
    let rs = run_start(s, k);
    if 2 <= k - rs && k - rs <= 4 {
        if rs >= 7 && s[rs - 1] == '_' && s[rs - 2] == 't' && s[rs - 3] == 'f' && s[rs - 4] == '_'
            && s[rs - 5] == 'c' && s[rs - 6] == 'c' && is_sep(s[rs - 7]) {
            Some(rs - 7)
        } else if rs >= 4 && s[rs - 1] == '_' && s[rs - 2] == 't' && s[rs - 3] == 'f' && is_sep(
            s[rs - 4],
        ) {
            Some(rs - 4)
        } else {
            None
        }
    } else {
        None
    }
}

/// Cut for a literal `-WIDTHxHEIGHT` suffix at the stem's tail.
pub open spec fn dims_cut(s: Seq<char>, k: int) -> Option<int> {
    let r2 = run_start(s, k);
    if 2 <= k - r2 && k - r2 <= 4 && r2 >= 1 && s[r2 - 1] == 'x' {
        let r1 = run_start(s, r2 - 1);
        if 2 <= (r2 - 1) - r1 && (r2 - 1) - r1 <= 4 && r1 >= 1 && s[r1 - 1] == '-' {
            Some(r1 - 1)
        } else {
            None
        }
    } else {
        None
    }
}

/// Cut for a bare 3-4 digit resolution suffix at the stem's tail.
pub open spec fn bare_cut(s: Seq<char>, k: int) -> Option<int> {
    let rs = run_start(s, k);
    if 3 <= k - rs && k - rs <= 4 && rs >= 1 && is_sep(s[rs - 1]) {
        Some(rs - 1)
    } else {
        None
    }
}

/// Cut for an `@Nx` pixel-density suffix at the stem's tail.
pub open spec fn density_cut(s: Seq<char>, k: int) -> Option<int> {
    if k >= 3 && k <= s.len() && s[k - 1] == 'x' && is_digit(s[k - 2]) && s[k - 3] == '@' {
        Some(k - 3)
    } else {
        None
    }
}

/// The name `nm` stands at the stem's tail, preceded by a separator.
pub open spec fn name_at(s: Seq<char>, k: int, nm: Seq<char>) -> bool {
    nm.len() + 1 <= k <= s.len() && s.subrange(k - nm.len(), k) == nm && is_sep(
        s[k - nm.len() - 1],
    )
}

/// Cut for a named-size suffix at the stem's tail.
pub open spec fn named_cut(s: Seq<char>, k: int) -> Option<int> {
    if name_at(s, k, "small"@) {
        Some(k - "small"@.len() - 1)
    } else if name_at(s, k, "medium"@) {
        Some(k - "medium"@.len() - 1)
    } else if name_at(s, k, "large"@) {
        Some(k - "large"@.len() - 1)
    } else if name_at(s, k, "thumb"@) {
        Some(k - "thumb"@.len() - 1)
    } else if name_at(s, k, "thumbnail"@) {
        Some(k - "thumbnail"@.len() - 1)
    } else if name_at(s, k, "scaled"@) {
        Some(k - "scaled"@.len() - 1)
    } else if name_at(s, k, "preview"@) {
        Some(k - "preview"@.len() - 1)
    } else if name_at(s, k, "mini"@) {
        Some(k - "mini"@.len() - 1)
    } else if name_at(s, k, "full"@) {
        Some(k - "full"@.len() - 1)
    } else if name_at(s, k, "original"@) {
        Some(k - "original"@.len() - 1)
    } else {
        None
    }
}

/// The stem boundary after applying one optional cut.
pub open spec fn apply_cut(k: int, c: Option<int>) -> int {
    match c {
        Some(j) => j,
        None => k,
    }
}

/// The stem boundary after the five marker patterns, each applied once, in
/// order, at the tail of the stem `s[..k0]`.
pub open spec fn cuts_chain(s: Seq<char>, k0: int) -> int {
    let k1 = apply_cut(k0, vendor_cut(s, k0));
    let k2 = apply_cut(k1, dims_cut(s, k1));
    let k3 = apply_cut(k2, bare_cut(s, k2));
    let k4 = apply_cut(k3, density_cut(s, k3));
    apply_cut(k4, named_cut(s, k4))
}

/// The deduplication key of an asset URL: query and fragment cut off; if the
/// remainder ends in an extension, the five marker patterns are each applied
/// once, in order, at the tail of the stem.
pub open spec fn normalize_key(url: Seq<char>) -> Seq<char> {
    let t = url.subrange(0, qcut(url));
    if !has_ext(t) {
        t
    } else {
        let d = last_dot(t);
        t.subrange(0, cuts_chain(t, d)) + t.subrange(d, t.len() as int)
    }
}

/// Checks `name_at` for one size name.
fn name_at_exec(s: &str, k: usize, nm: &str) -> (r: bool)
    requires
        k <= s@.len(),
    ensures
        r == name_at(s@, k as int, nm@),
{
    let ln = nm.unicode_len();
    if k <= ln {
        return false;
    }
    if !exec_is_sep(s.get_char(k - ln - 1)) {
        return false;
    }
    let mut i: usize = 0;
    while i < ln
        invariant
            ln == nm@.len(),
            ln + 1 <= k <= s@.len(),
            i <= ln,
            forall|j: int| 0 <= j < i ==> s@[k - ln + j] == nm@[j],
        decreases ln - i,
    {
        if s.get_char(k - ln + i) != nm.get_char(i) {
            proof {
                assert(s@.subrange(k - ln, k as int)[i as int] != nm@[i as int]);
            }
            return false;
        }
        i = i + 1;
    }
    proof {
        assert(s@.subrange(k - ln, k as int) =~= nm@);
    }
    true
}

fn vendor_cut_exec(s: &str, k0: usize) -> (k: usize)
    requires
        k0 <= s@.len(),
    ensures
        k <= k0,
        k as int == apply_cut(k0 as int, vendor_cut(s@, k0 as int)),
{
    let mut k: usize = k0;
    let rs = run_start_exec(s, k);
    if 2 <= k - rs && k - rs <= 4 {
        if rs >= 7 && s.get_char(rs - 1) == '_' && s.get_char(rs - 2) == 't' && s.get_char(rs - 3)
            == 'f' && s.get_char(rs - 4) == '_' && s.get_char(rs - 5) == 'c' && s.get_char(rs - 6)
            == 'c' && exec_is_sep(s.get_char(rs - 7)) {
            k = rs - 7;
        } else if rs >= 4 && s.get_char(rs - 1) == '_' && s.get_char(rs - 2) == 't' && s.get_char(
            rs - 3,
        ) == 'f' && exec_is_sep(s.get_char(rs - 4)) {
            k = rs - 4;
        }
    }
    k
}

fn dims_cut_exec(s: &str, k0: usize) -> (k: usize)
    requires
        k0 <= s@.len(),
    ensures
        k <= k0,
        k as int == apply_cut(k0 as int, dims_cut(s@, k0 as int)),
{
    let mut k: usize = k0;
    let r2 = run_start_exec(s, k);
    if 2 <= k - r2 && k - r2 <= 4 && r2 >= 1 && s.get_char(r2 - 1) == 'x' {
        let r1 = run_start_exec(s, r2 - 1);
        if 2 <= (r2 - 1) - r1 && (r2 - 1) - r1 <= 4 && r1 >= 1 && s.get_char(r1 - 1) == '-' {
            k = r1 - 1;
        }
    }
    k
}

fn bare_cut_exec(s: &str, k0: usize) -> (k: usize)
    requires
        k0 <= s@.len(),
    ensures
        k <= k0,
        k as int == apply_cut(k0 as int, bare_cut(s@, k0 as int)),
{
    let mut k: usize = k0;
    let rb = run_start_exec(s, k);
    if 3 <= k - rb && k - rb <= 4 && rb >= 1 && exec_is_sep(s.get_char(rb - 1)) {
        k = rb - 1;
    }
    k
}

fn density_cut_exec(s: &str, k0: usize) -> (k: usize)
    requires
        k0 <= s@.len(),
    ensures
        k <= k0,
        k as int == apply_cut(k0 as int, density_cut(s@, k0 as int)),
{
    let mut k: usize = k0;
    if k >= 3 && s.get_char(k - 1) == 'x' && exec_is_digit(s.get_char(k - 2)) && s.get_char(k - 3)
        == '@' {
        k = k - 3;
    }
    k
}

#[verifier::rlimit(60)]
fn named_cut_exec(s: &str, k0: usize) -> (k: usize)
    requires
        k0 <= s@.len(),
    ensures
        k <= k0,
        k as int == apply_cut(k0 as int, named_cut(s@, k0 as int)),
{
    let mut k: usize = k0;
    if name_at_exec(s, k, "small") {
        k = k - ("small".unicode_len() + 1);
    } else if name_at_exec(s, k, "medium") {
        k = k - ("medium".unicode_len() + 1);
    } else if name_at_exec(s, k, "large") {
        k = k - ("large".unicode_len() + 1);
    } else if name_at_exec(s, k, "thumb") {
        k = k - ("thumb".unicode_len() + 1);
    } else if name_at_exec(s, k, "thumbnail") {
        k = k - ("thumbnail".unicode_len() + 1);
    } else if name_at_exec(s, k, "scaled") {
        k = k - ("scaled".unicode_len() + 1);
    } else if name_at_exec(s, k, "preview") {
        k = k - ("preview".unicode_len() + 1);
    } else if name_at_exec(s, k, "mini") {
        k = k - ("mini".unicode_len() + 1);
    } else if name_at_exec(s, k, "full") {
        k = k - ("full".unicode_len() + 1);
    } else if name_at_exec(s, k, "original") {
        k = k - ("original".unicode_len() + 1);
    }
    k
}

/// All cuts in sequence, on the stem `s[..k0]`.
fn apply_marker_cuts(s: &str, k0: usize) -> (k: usize)
    requires
        k0 <= s@.len(),
    ensures
        k <= k0,
        k as int == cuts_chain(s@, k0 as int),
{
    let k1 = vendor_cut_exec(s, k0);
    let k2 = dims_cut_exec(s, k1);
    let k3 = bare_cut_exec(s, k2);
    let k4 = density_cut_exec(s, k3);
    named_cut_exec(s, k4)
}

/// Computes the deduplication key of an asset URL.
pub fn normalize_for_dedup(s: &str) -> (r: String)
    ensures
        r@ == normalize_key(s@),
{
    let n = s.unicode_len();
    let q1 = find_char(s, '?');
    let q2 = find_char(s, '#');
    let q: usize = if q1 <= q2 {
        q1
    } else {
        q2
    };
    proof {
        lemma_upto_char(s@, '?');
        lemma_upto_char(s@, '#');
    }
    let t = s.substring_char(0, q);
    let m = t.unicode_len();
    assert(t@ == s@.subrange(0, qcut(s@)));

    // Scan the run of ASCII letters at the very end of `t`.
    let mut j: usize = m;
    while j > 0 && exec_is_ascii_letter(t.get_char(j - 1))
        invariant
            m == t@.len(),
            j <= m,
            forall|i: int| j <= i < m ==> is_ascii_letter(t@[i]),
        decreases j,
    {
        j = j - 1;
    }

    let ext_ok = j >= 1 && j < m && t.get_char(j - 1) == '.';
    proof {
        lemma_last_dot(t@);
        if ext_ok {
            assert(forall|i: int| j <= i < m ==> t@[i] != '.');
            lemma_last_dot_unique(t@, j - 1);
            assert(has_ext(t@));
        } else {
            if has_ext(t@) {
                let d = last_dot(t@);
                // every position after the last dot is a letter, so the final
                // letter run reaches back at least to d + 1
                if j > 0 {
                    assert(!is_ascii_letter(t@[j - 1]));
                    if d < j - 1 {
                        assert(t@[j - 1] != '.' || j - 1 == d);
                        assert(is_ascii_letter(t@[j - 1]));
                        assert(false);
                    } else {
                        // d >= j - 1: position d is a dot inside or at the
                        // boundary of the letter run
                        if d > j - 1 {
                            assert(is_ascii_letter(t@[d]));
                            assert(false);
                        }
                        // d == j - 1 contradicts !ext_ok given j >= 1, d + 1 < m
                        assert(j >= 1 && j < m && t@[j - 1] == '.');
                        assert(false);
                    }
                } else {
                    // the whole string is letters; no dot can exist
                    assert(t@[d] == '.');
                    assert(is_ascii_letter(t@[d]));
                    assert(false);
                }
            }
        }
    }

    if !ext_ok {
        return t.to_owned();
    }
    let d = j - 1;
    assert(d as int == last_dot(t@));

    let k = apply_marker_cuts(t, d);
    let mut out = t.substring_char(0, k).to_owned();
    out.append(t.substring_char(d, m));
    proof {
        assert(out@ == t@.subrange(0, k as int) + t@.subrange(d as int, m as int));
    }
    out
}

} // verus!

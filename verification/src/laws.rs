//! Laws of the normalizer and the merge engine: resolution variants of one
//! URL collapse to one key and the merge keeps exactly one instance; data
//! URIs never appear in merged output; the merge is order-stable and
//! source-prioritized; and no merged text fragment is shorter than three
//! characters.

use vstd::prelude::*;

use crate::merge::{
    dedup_images, dedup_text, image_kept, merged_images, merged_text, text_kept, RESULT_CAP,
};
use crate::model::{ImageView, TextView};
use crate::normalize::{
    bare_cut, cuts_chain, density_cut, dims_cut, has_ext, lemma_last_dot_unique, lemma_run_start,
    name_at, named_cut, normalize_key, qcut, run_start, vendor_cut,
};
use crate::text::{
    all_digits, is_ascii_letter, is_data_uri, is_digit, lemma_upto_char_unique, ws_collapse,
};

verus! {

proof fn lemma_run_start_unique(s: Seq<char>, e: int, r: int)
    requires
        0 <= r <= e <= s.len(),
        forall|j: int| r <= j < e ==> is_digit(s[j]),
        r > 0 ==> !is_digit(s[r - 1]),
    ensures
        r == run_start(s, e),
    decreases e - r,
{
    lemma_run_start(s, e);
    if r < run_start(s, e) {
        assert(!is_digit(s[run_start(s, e) - 1]));
        assert(is_digit(s[run_start(s, e) - 1]));
    }
    if run_start(s, e) < r {
        assert(is_digit(s[r - 1]));
    }
}

proof fn lemma_run_start_agree(s1: Seq<char>, s2: Seq<char>, e: int)
    requires
        0 <= e <= s1.len(),
        e <= s2.len(),
        forall|j: int| 0 <= j < e ==> s1[j] == s2[j],
    ensures
        run_start(s1, e) == run_start(s2, e),
{
    lemma_run_start(s1, e);
    lemma_run_start_unique(s2, e, run_start(s1, e));
}

proof fn lemma_name_at_agree(s1: Seq<char>, s2: Seq<char>, k: int, nm: Seq<char>)
    requires
        0 <= k <= s1.len(),
        k <= s2.len(),
        forall|j: int| 0 <= j < k ==> s1[j] == s2[j],
    ensures
        name_at(s1, k, nm) == name_at(s2, k, nm),
{
    if nm.len() + 1 <= k {
        assert(s1.subrange(k - nm.len(), k) =~= s2.subrange(k - nm.len(), k));
    }
}

proof fn lemma_cuts_agree(s1: Seq<char>, s2: Seq<char>, k: int)
    requires
        0 <= k <= s1.len(),
        k <= s2.len(),
        forall|j: int| 0 <= j < k ==> s1[j] == s2[j],
    ensures
        vendor_cut(s1, k) == vendor_cut(s2, k),
        dims_cut(s1, k) == dims_cut(s2, k),
        bare_cut(s1, k) == bare_cut(s2, k),
        density_cut(s1, k) == density_cut(s2, k),
        named_cut(s1, k) == named_cut(s2, k),
{
    lemma_run_start_agree(s1, s2, k);
    lemma_run_start(s1, k);
    let rs = run_start(s1, k);
    if rs >= 1 {
        lemma_run_start_agree(s1, s2, rs - 1);
    }
    lemma_name_at_agree(s1, s2, k, "small"@);
    lemma_name_at_agree(s1, s2, k, "medium"@);
    lemma_name_at_agree(s1, s2, k, "large"@);
    lemma_name_at_agree(s1, s2, k, "thumb"@);
    lemma_name_at_agree(s1, s2, k, "thumbnail"@);
    lemma_name_at_agree(s1, s2, k, "scaled"@);
    lemma_name_at_agree(s1, s2, k, "preview"@);
    lemma_name_at_agree(s1, s2, k, "mini"@);
    lemma_name_at_agree(s1, s2, k, "full"@);
    lemma_name_at_agree(s1, s2, k, "original"@);
}

/// A URL stem is inert when no marker pattern fires at its tail: it does not
/// end in a digit, a density suffix, or a named-size suffix.
pub open spec fn inert_stem(stem: Seq<char>) -> bool {
    &&& forall|j: int| 0 <= j < stem.len() ==> stem[j] != '?' && stem[j] != '#'
    &&& (stem.len() > 0 ==> !is_digit(stem[stem.len() - 1]))
    &&& density_cut(stem, stem.len() as int) is None
    &&& named_cut(stem, stem.len() as int) is None
}

/// A well-formed extension: a dot, then at least one ASCII letter.
pub open spec fn wf_ext(ext: Seq<char>) -> bool {
    ext.len() >= 2 && ext[0] == '.' && forall|j: int| 1 <= j < ext.len() ==> is_ascii_letter(
        ext[j],
    )
}

/// The URL `stem + ext` with a literal `-WIDTHxHEIGHT` marker between stem
/// and extension.
pub open spec fn with_dims_marker(stem: Seq<char>, w: Seq<char>, h: Seq<char>, ext: Seq<char>) -> Seq<
    char,
> {
    stem + seq!['-'] + w + seq!['x'] + h + ext
}

proof fn lemma_normalize_plain(stem: Seq<char>, ext: Seq<char>)
    requires
        inert_stem(stem),
        wf_ext(ext),
    ensures
        normalize_key(stem + ext) == stem + ext,
{
    let u = stem + ext;
    let sl = stem.len() as int;
    assert forall|j: int| 0 <= j < u.len() implies u[j] != '?' && u[j] != '#' by {
        if j >= sl {
            if j > sl {
                assert(is_ascii_letter(ext[j - sl]));
            }
        }
    }
    lemma_upto_char_unique(u, '?', u.len() as int);
    lemma_upto_char_unique(u, '#', u.len() as int);
    assert(qcut(u) == u.len());
    let t = u.subrange(0, u.len() as int);
    assert(t =~= u);
    assert forall|j: int| sl < j < u.len() implies u[j] != '.' by {
        assert(is_ascii_letter(ext[j - sl]));
    }
    lemma_last_dot_unique(u, sl);
    assert(has_ext(u));
    // no cut fires at the stem boundary
    lemma_run_start(u, sl);
    if stem.len() > 0 {
        lemma_run_start_unique(u, sl, sl);
    }
    assert(run_start(u, sl) == sl);
    assert(vendor_cut(u, sl) is None);
    assert(dims_cut(u, sl) is None);
    assert(bare_cut(u, sl) is None);
    lemma_cuts_agree(stem, u, sl);
    assert(density_cut(u, sl) is None);
    assert(named_cut(u, sl) is None);
    assert(cuts_chain(u, sl) == sl);
    assert(u.subrange(0, sl) + u.subrange(sl, u.len() as int) =~= stem + ext);
    assert(u.subrange(0, sl) =~= stem);
}

proof fn lemma_normalize_dims_variant(stem: Seq<char>, w: Seq<char>, h: Seq<char>, ext: Seq<char>)
    requires
        inert_stem(stem),
        wf_ext(ext),
        2 <= w.len() <= 4,
        all_digits(w),
        2 <= h.len() <= 4,
        all_digits(h),
    ensures
        normalize_key(with_dims_marker(stem, w, h, ext)) == stem + ext,
{
    let u = with_dims_marker(stem, w, h, ext);
    let sl = stem.len() as int;
    let wl = w.len() as int;
    let hl = h.len() as int;
    let d = sl + 1 + wl + 1 + hl;  // position of the extension dot
    assert(u.len() == d + ext.len());
    assert forall|j: int| 0 <= j < u.len() implies u[j] != '?' && u[j] != '#' by {
        if j < sl {
        } else if j == sl {
            assert(u[j] == '-');
        } else if j < sl + 1 + wl {
            assert(u[j] == w[j - sl - 1]);
            assert(is_digit(u[j]));
        } else if j == sl + 1 + wl {
            assert(u[j] == 'x');
        } else if j < d {
            assert(u[j] == h[j - sl - 2 - wl]);
            assert(is_digit(u[j]));
        } else if j == d {
            assert(u[j] == '.');
        } else {
            assert(u[j] == ext[j - d]);
            assert(is_ascii_letter(u[j]));
        }
    }
    lemma_upto_char_unique(u, '?', u.len() as int);
    lemma_upto_char_unique(u, '#', u.len() as int);
    assert(qcut(u) == u.len());
    assert(u.subrange(0, u.len() as int) =~= u);
    assert forall|j: int| d < j < u.len() implies u[j] != '.' by {
        assert(u[j] == ext[j - d]);
        assert(is_ascii_letter(u[j]));
    }
    assert(u[d] == '.');
    lemma_last_dot_unique(u, d);
    assert(has_ext(u));

    // vendor: the digit run before the dot is the HEIGHT digits, preceded by
    // an 'x', so neither vendor alternative matches
    assert forall|j: int| d - hl <= j < d implies is_digit(u[j]) by {
        assert(u[j] == h[j - (d - hl)]);
    }
    assert(u[d - hl - 1] == 'x');
    lemma_run_start_unique(u, d, d - hl);
    let rs = run_start(u, d);
    assert(rs == d - hl);
    assert(vendor_cut(u, d) is None);

    // dims: HEIGHT digits, 'x', WIDTH digits, '-': fires and cuts to the stem
    assert forall|j: int| sl + 1 <= j < sl + 1 + wl implies is_digit(u[j]) by {
        assert(u[j] == w[j - sl - 1]);
    }
    assert(u[sl] == '-');
    assert(sl > 0 ==> !is_digit(u[sl - 1]));
    lemma_run_start_unique(u, rs - 1, sl + 1);
    assert(run_start(u, rs - 1) == sl + 1);
    assert(dims_cut(u, d) == Some(sl));

    // after the cut, nothing else fires at the stem boundary
    lemma_run_start(u, sl);
    if stem.len() > 0 {
        lemma_run_start_unique(u, sl, sl);
    }
    assert(run_start(u, sl) == sl);
    assert(bare_cut(u, sl) is None);
    lemma_cuts_agree(stem, u, sl);
    assert(density_cut(u, sl) is None);
    assert(named_cut(u, sl) is None);
    assert(cuts_chain(u, d) == sl);
    assert(u.subrange(0, sl) =~= stem);
    assert(u.subrange(d, u.len() as int) =~= ext);
}

/// Law: a URL with an `@Nx` pixel-density suffix before the extension
/// normalizes to the suffix-free URL.
pub proof fn lemma_normalize_density_variant(stem: Seq<char>, n: char, ext: Seq<char>)
    requires
        inert_stem(stem),
        wf_ext(ext),
        is_digit(n),
    ensures
        normalize_key(stem + seq!['@', n, 'x'] + ext) == stem + ext,
{
    let u = stem + seq!['@', n, 'x'] + ext;
    let sl = stem.len() as int;
    let d = sl + 3;
    assert forall|j: int| 0 <= j < u.len() implies u[j] != '?' && u[j] != '#' by {
        if j == sl {
            assert(u[j] == '@');
        } else if j == sl + 1 {
            assert(u[j] == n);
        } else if j == sl + 2 {
            assert(u[j] == 'x');
        } else if j > d {
            assert(u[j] == ext[j - d]);
            assert(is_ascii_letter(u[j]));
        } else if j == d {
            assert(u[j] == '.');
        }
    }
    lemma_upto_char_unique(u, '?', u.len() as int);
    lemma_upto_char_unique(u, '#', u.len() as int);
    assert(u.subrange(0, u.len() as int) =~= u);
    assert forall|j: int| d < j < u.len() implies u[j] != '.' by {
        assert(u[j] == ext[j - d]);
        assert(is_ascii_letter(u[j]));
    }
    assert(u[d] == '.');
    lemma_last_dot_unique(u, d);
    assert(has_ext(u));
    // no digit run ends at the dot ('x' is not a digit), so the first three
    // patterns pass; the density pattern fires and cuts to the stem
    lemma_run_start_unique(u, d, d);
    assert(vendor_cut(u, d) is None);
    assert(dims_cut(u, d) is None);
    assert(bare_cut(u, d) is None);
    assert(u[d - 1] == 'x' && u[d - 2] == n && u[d - 3] == '@');
    assert(density_cut(u, d) == Some(sl));
    lemma_cuts_agree(stem, u, sl);
    assert(named_cut(u, sl) is None);
    assert(cuts_chain(u, d) == sl);
    assert(u.subrange(0, sl) =~= stem);
    assert(u.subrange(d, u.len() as int) =~= ext);
}

/// Law: a URL with a bare 3-4 digit resolution suffix (separator, then the
/// digits) before the extension normalizes to the suffix-free URL. Where the
/// separator is an underscore, a stem ending in 't' is left out: there the
/// tail could equally read as a vendor marker.
pub proof fn lemma_normalize_bare_variant(stem: Seq<char>, sep: char, ds: Seq<char>, ext: Seq<char>)
    requires
        inert_stem(stem),
        wf_ext(ext),
        sep == '-' || sep == '_',
        3 <= ds.len() <= 4,
        all_digits(ds),
        sep == '_' ==> stem.len() == 0 || stem[stem.len() - 1] != 't',
    ensures
        normalize_key(stem + seq![sep] + ds + ext) == stem + ext,
{
    let u = stem + seq![sep] + ds + ext;
    let sl = stem.len() as int;
    let dl = ds.len() as int;
    let d = sl + 1 + dl;
    assert forall|j: int| 0 <= j < u.len() implies u[j] != '?' && u[j] != '#' by {
        if j == sl {
            assert(u[j] == sep);
        } else if sl < j < d {
            assert(u[j] == ds[j - sl - 1]);
            assert(is_digit(u[j]));
        } else if j == d {
            assert(u[j] == '.');
        } else if j > d {
            assert(u[j] == ext[j - d]);
            assert(is_ascii_letter(u[j]));
        }
    }
    lemma_upto_char_unique(u, '?', u.len() as int);
    lemma_upto_char_unique(u, '#', u.len() as int);
    assert(u.subrange(0, u.len() as int) =~= u);
    assert forall|j: int| d < j < u.len() implies u[j] != '.' by {
        assert(u[j] == ext[j - d]);
        assert(is_ascii_letter(u[j]));
    }
    assert(u[d] == '.');
    lemma_last_dot_unique(u, d);
    assert(has_ext(u));
    assert forall|j: int| sl + 1 <= j < d implies is_digit(u[j]) by {
        assert(u[j] == ds[j - sl - 1]);
    }
    assert(u[sl] == sep && !is_digit(u[sl]));
    lemma_run_start_unique(u, d, sl + 1);
    let rs = run_start(u, d);
    assert(rs == sl + 1);
    // vendor needs an 'ft' spelling before the digits, which the separator
    // and the stem's last character rule out
    assert(vendor_cut(u, d) is None);
    // dims needs an 'x' before the digit run
    assert(dims_cut(u, d) is None);
    // bare fires and cuts to the stem
    assert(bare_cut(u, d) == Some(sl));
    lemma_cuts_agree(stem, u, sl);
    assert(density_cut(u, sl) is None);
    assert(named_cut(u, sl) is None);
    assert(cuts_chain(u, d) == sl);
    assert(u.subrange(0, sl) =~= stem);
    assert(u.subrange(d, u.len() as int) =~= ext);
}

/// Law: a URL with a vendor resolution marker (`cc_ft_` after a separator,
/// then 2-4 digits) before the extension normalizes to the marker-free URL.
pub proof fn lemma_normalize_vendor_variant(
    stem: Seq<char>,
    sep: char,
    ds: Seq<char>,
    ext: Seq<char>,
)
    requires
        inert_stem(stem),
        wf_ext(ext),
        sep == '-' || sep == '_',
        2 <= ds.len() <= 4,
        all_digits(ds),
    ensures
        normalize_key(stem + seq![sep, 'c', 'c', '_', 'f', 't', '_'] + ds + ext) == stem + ext,
{
    let u = stem + seq![sep, 'c', 'c', '_', 'f', 't', '_'] + ds + ext;
    let sl = stem.len() as int;
    let dl = ds.len() as int;
    let d = sl + 7 + dl;
    assert forall|j: int| 0 <= j < u.len() implies u[j] != '?' && u[j] != '#' by {
        if sl <= j < sl + 7 {
        } else if sl + 7 <= j < d {
            assert(u[j] == ds[j - sl - 7]);
            assert(is_digit(u[j]));
        } else if j == d {
            assert(u[j] == '.');
        } else if j > d {
            assert(u[j] == ext[j - d]);
            assert(is_ascii_letter(u[j]));
        }
    }
    lemma_upto_char_unique(u, '?', u.len() as int);
    lemma_upto_char_unique(u, '#', u.len() as int);
    assert(u.subrange(0, u.len() as int) =~= u);
    assert forall|j: int| d < j < u.len() implies u[j] != '.' by {
        assert(u[j] == ext[j - d]);
        assert(is_ascii_letter(u[j]));
    }
    assert(u[d] == '.');
    lemma_last_dot_unique(u, d);
    assert(has_ext(u));
    assert forall|j: int| sl + 7 <= j < d implies is_digit(u[j]) by {
        assert(u[j] == ds[j - sl - 7]);
    }
    assert(u[sl + 6] == '_' && !is_digit(u[sl + 6]));
    lemma_run_start_unique(u, d, sl + 7);
    let rs = run_start(u, d);
    assert(rs == sl + 7);
    assert(u[rs - 1] == '_' && u[rs - 2] == 't' && u[rs - 3] == 'f' && u[rs - 4] == '_'
        && u[rs - 5] == 'c' && u[rs - 6] == 'c' && crate::normalize::is_sep(u[rs - 7]));
    assert(vendor_cut(u, d) == Some(sl));
    lemma_run_start(u, sl);
    if stem.len() > 0 {
        lemma_run_start_unique(u, sl, sl);
    }
    assert(run_start(u, sl) == sl);
    assert(dims_cut(u, sl) is None);
    assert(bare_cut(u, sl) is None);
    lemma_cuts_agree(stem, u, sl);
    assert(density_cut(u, sl) is None);
    assert(named_cut(u, sl) is None);
    assert(cuts_chain(u, d) == sl);
    assert(u.subrange(0, sl) =~= stem);
    assert(u.subrange(d, u.len() as int) =~= ext);
}

proof fn lemma_seq_eq_index(u: Seq<char>, a: int, b: int, nm: Seq<char>)
    requires
        0 <= a <= b <= u.len(),
        u.subrange(a, b) == nm,
    ensures
        forall|j: int| a <= j < b ==> #[trigger] u[j] == nm[j - a],
{
    assert forall|j: int| a <= j < b implies #[trigger] u[j] == nm[j - a] by {
        assert(u.subrange(a, b)[j - a] == u[j]);
    }
}

/// The ten recognized size names.
pub open spec fn is_size_name(nm: Seq<char>) -> bool {
    nm == "small"@ || nm == "medium"@ || nm == "large"@ || nm == "thumb"@ || nm == "thumbnail"@
        || nm == "scaled"@ || nm == "preview"@ || nm == "mini"@ || nm == "full"@ || nm
        == "original"@
}

/// Law: a URL with a named-size suffix (separator, then one of the
/// recognized size names) before the extension normalizes to the
/// suffix-free URL.
#[verifier::rlimit(80)]
pub proof fn lemma_normalize_named_variant(
    stem: Seq<char>,
    sep: char,
    nm: Seq<char>,
    ext: Seq<char>,
)
    requires
        inert_stem(stem),
        wf_ext(ext),
        sep == '-' || sep == '_',
        is_size_name(nm),
    ensures
        normalize_key(stem + seq![sep] + nm + ext) == stem + ext,
{
    reveal_strlit("small");
    reveal_strlit("medium");
    reveal_strlit("large");
    reveal_strlit("thumb");
    reveal_strlit("thumbnail");
    reveal_strlit("scaled");
    reveal_strlit("preview");
    reveal_strlit("mini");
    reveal_strlit("full");
    reveal_strlit("original");
    let u = stem + seq![sep] + nm + ext;
    let sl = stem.len() as int;
    let nl = nm.len() as int;
    let d = sl + 1 + nl;
    assert(4 <= nl <= 9);
    assert forall|j: int| sl < j < d implies #[trigger] u[j] == nm[j - sl - 1] by {}
    assert forall|j: int| sl < j < d implies is_ascii_letter(#[trigger] u[j]) by {
        assert(u[j] == nm[j - sl - 1]);
    }
    assert forall|j: int| 0 <= j < u.len() implies u[j] != '?' && u[j] != '#' by {
        if j == sl {
            assert(u[j] == sep);
        } else if sl < j < d {
            assert(is_ascii_letter(u[j]));
        } else if j == d {
            assert(u[j] == '.');
        } else if j > d {
            assert(u[j] == ext[j - d]);
            assert(is_ascii_letter(u[j]));
        }
    }
    lemma_upto_char_unique(u, '?', u.len() as int);
    lemma_upto_char_unique(u, '#', u.len() as int);
    assert(u.subrange(0, u.len() as int) =~= u);
    assert forall|j: int| d < j < u.len() implies u[j] != '.' by {
        assert(u[j] == ext[j - d]);
        assert(is_ascii_letter(u[j]));
    }
    assert(u[d] == '.');
    lemma_last_dot_unique(u, d);
    assert(has_ext(u));
    // the character before the dot is a letter, never a digit or 'x', so
    // the digit-run and density patterns pass
    assert(u[d - 1] == nm[nl - 1]);
    assert(!is_digit(u[d - 1]));
    lemma_run_start_unique(u, d, d);
    assert(vendor_cut(u, d) is None);
    assert(dims_cut(u, d) is None);
    assert(bare_cut(u, d) is None);
    assert(u[d - 1] != 'x');
    assert(density_cut(u, d) is None);
    // the named pattern fires on exactly the given name
    assert(u.subrange(d - nl, d) =~= nm);
    assert(crate::normalize::is_sep(u[d - nl - 1]));
    assert(name_at(u, d, nm));
    assert(u[sl] == sep);
    assert(named_cut(u, d) == Some(sl)) by {
        if nm != "small"@ && name_at(u, d, "small"@) {
            assert(u.subrange(d - 5, d) == "small"@);
            lemma_seq_eq_index(u, d - 5, d, "small"@);
            assert(u[d - 1] == 'l' && u[d - 2] == 'l' && u[d - 3] == 'a' && u[d - 4] == 'm'
                && u[d - 5] == 's');
            assert(false);
        }
        if nm != "medium"@ && name_at(u, d, "medium"@) {
            assert(u.subrange(d - 6, d) == "medium"@);
            lemma_seq_eq_index(u, d - 6, d, "medium"@);
            assert(u[d - 1] == 'm');
            assert(false);
        }
        if nm != "large"@ && name_at(u, d, "large"@) {
            assert(u.subrange(d - 5, d) == "large"@);
            lemma_seq_eq_index(u, d - 5, d, "large"@);
            assert(u[d - 1] == 'e');
            assert(false);
        }
        if nm != "thumb"@ && name_at(u, d, "thumb"@) {
            assert(u.subrange(d - 5, d) == "thumb"@);
            lemma_seq_eq_index(u, d - 5, d, "thumb"@);
            assert(u[d - 1] == 'b');
            assert(false);
        }
        if nm != "thumbnail"@ && name_at(u, d, "thumbnail"@) {
            assert(u.subrange(d - 9, d) == "thumbnail"@);
            lemma_seq_eq_index(u, d - 9, d, "thumbnail"@);
            assert(u[d - 1] == 'l' && u[d - 2] == 'i' && u[d - 3] == 'a' && u[d - 4] == 'n'
                && u[d - 5] == 'b');
            assert(false);
        }
        if nm != "scaled"@ && name_at(u, d, "scaled"@) {
            assert(u.subrange(d - 6, d) == "scaled"@);
            lemma_seq_eq_index(u, d - 6, d, "scaled"@);
            assert(u[d - 1] == 'd');
            assert(false);
        }
        if nm != "preview"@ && name_at(u, d, "preview"@) {
            assert(u.subrange(d - 7, d) == "preview"@);
            lemma_seq_eq_index(u, d - 7, d, "preview"@);
            assert(u[d - 1] == 'w');
            assert(false);
        }
        if nm != "mini"@ && name_at(u, d, "mini"@) {
            assert(u.subrange(d - 4, d) == "mini"@);
            lemma_seq_eq_index(u, d - 4, d, "mini"@);
            assert(u[d - 1] == 'i');
            assert(false);
        }
        if nm != "full"@ && name_at(u, d, "full"@) {
            assert(u.subrange(d - 4, d) == "full"@);
            lemma_seq_eq_index(u, d - 4, d, "full"@);
            assert(u[d - 1] == 'l' && u[d - 2] == 'l' && u[d - 3] == 'u' && u[d - 4] == 'f');
            assert(false);
        }
        if nm != "original"@ && name_at(u, d, "original"@) {
            assert(u.subrange(d - 8, d) == "original"@);
            lemma_seq_eq_index(u, d - 8, d, "original"@);
            assert(u[d - 1] == 'l' && u[d - 2] == 'a' && u[d - 3] == 'n' && u[d - 4] == 'i');
            assert(false);
        }
    }
    lemma_cuts_agree(stem, u, sl);
    assert(cuts_chain(u, d) == sl);
    assert(u.subrange(0, sl) =~= stem);
    assert(u.subrange(d, u.len() as int) =~= ext);
}

/// One recognized resolution or size marker, or none.
pub enum SizeMarker {
    Plain,
    Dims(Seq<char>, Seq<char>),
    Density(char),
    Bare(char, Seq<char>),
    Named(char, Seq<char>),
    Vendor(char, Seq<char>),
}

/// The characters the marker puts between the stem and the extension.
pub open spec fn marker_text(m: SizeMarker) -> Seq<char> {
    match m {
        SizeMarker::Plain => Seq::empty(),
        SizeMarker::Dims(w, h) => seq!['-'] + w + seq!['x'] + h,
        SizeMarker::Density(n) => seq!['@', n, 'x'],
        SizeMarker::Bare(sep, ds) => seq![sep] + ds,
        SizeMarker::Named(sep, nm) => seq![sep] + nm,
        SizeMarker::Vendor(sep, ds) => seq![sep, 'c', 'c', '_', 'f', 't', '_'] + ds,
    }
}

/// The marker is well formed for this stem.
pub open spec fn marker_admissible(stem: Seq<char>, m: SizeMarker) -> bool {
    match m {
        SizeMarker::Plain => true,
        SizeMarker::Dims(w, h) => 2 <= w.len() <= 4 && all_digits(w) && 2 <= h.len() <= 4
            && all_digits(h),
        SizeMarker::Density(n) => is_digit(n),
        SizeMarker::Bare(sep, ds) => (sep == '-' || sep == '_') && 3 <= ds.len() <= 4
            && all_digits(ds) && (sep == '_' ==> stem.len() == 0 || stem[stem.len() - 1] != 't'),
        SizeMarker::Named(sep, nm) => (sep == '-' || sep == '_') && is_size_name(nm),
        SizeMarker::Vendor(sep, ds) => (sep == '-' || sep == '_') && 2 <= ds.len() <= 4
            && all_digits(ds),
    }
}

/// Law: a URL carrying any recognized marker before its extension
/// normalizes to the marker-free URL.
pub proof fn lemma_marker_key(stem: Seq<char>, m: SizeMarker, ext: Seq<char>)
    requires
        inert_stem(stem),
        wf_ext(ext),
        marker_admissible(stem, m),
    ensures
        normalize_key(stem + marker_text(m) + ext) == stem + ext,
{
    match m {
        SizeMarker::Plain => {
            assert(stem + marker_text(m) + ext =~= stem + ext);
            lemma_normalize_plain(stem, ext);
        },
        SizeMarker::Dims(w, h) => {
            assert(stem + marker_text(m) + ext =~= with_dims_marker(stem, w, h, ext));
            lemma_normalize_dims_variant(stem, w, h, ext);
        },
        SizeMarker::Density(n) => {
            assert(stem + marker_text(m) + ext =~= stem + seq!['@', n, 'x'] + ext);
            lemma_normalize_density_variant(stem, n, ext);
        },
        SizeMarker::Bare(sep, ds) => {
            assert(stem + marker_text(m) + ext =~= stem + seq![sep] + ds + ext);
            lemma_normalize_bare_variant(stem, sep, ds, ext);
        },
        SizeMarker::Named(sep, nm) => {
            assert(stem + marker_text(m) + ext =~= stem + seq![sep] + nm + ext);
            lemma_normalize_named_variant(stem, sep, nm, ext);
        },
        SizeMarker::Vendor(sep, ds) => {
            assert(stem + marker_text(m) + ext =~= stem + seq![
                sep,
                'c',
                'c',
                '_',
                'f',
                't',
                '_',
            ] + ds + ext);
            lemma_normalize_vendor_variant(stem, sep, ds, ext);
        },
    }
}

/// Law: image URLs differing only by a recognized resolution or size suffix
/// (or carrying none) normalize to the same deduplication key, namely the
/// suffix-free URL.
pub proof fn lemma_resolution_variants_same_key(
    stem: Seq<char>,
    m1: SizeMarker,
    m2: SizeMarker,
    ext: Seq<char>,
)
    requires
        inert_stem(stem),
        wf_ext(ext),
        marker_admissible(stem, m1),
        marker_admissible(stem, m2),
    ensures
        normalize_key(stem + marker_text(m1) + ext) == normalize_key(stem + marker_text(m2) + ext),
        normalize_key(stem + marker_text(m1) + ext) == stem + ext,
{
    lemma_marker_key(stem, m1, ext);
    lemma_marker_key(stem, m2, ext);
}

/// `v` is one of the candidates of `s`, and not a data URI.
pub open spec fn sourced_image(s: Seq<ImageView>, v: ImageView) -> bool {
    exists|j: int| 0 <= j < s.len() && #[trigger] s[j] == v && !is_data_uri(s[j].src)
}

/// `t` is the collapsed text of one of the candidates of `s`.
pub open spec fn sourced_text(s: Seq<TextView>, t: Seq<char>) -> bool {
    exists|j: int| 0 <= j < s.len() && t == ws_collapse(#[trigger] s[j].text)
}

/// Structural facts about image deduplication: every output element is an
/// input element, is not a data URI, output keys are pairwise distinct, and
/// the output is no longer than the input.
pub proof fn lemma_dedup_images_props(s: Seq<ImageView>)
    ensures
        forall|i: int|
            #![trigger dedup_images(s)[i]]
            0 <= i < dedup_images(s).len() ==> sourced_image(s, dedup_images(s)[i]),
        forall|i1: int, i2: int|
            0 <= i1 < i2 < dedup_images(s).len() ==> normalize_key(dedup_images(s)[i1].src)
                != normalize_key(dedup_images(s)[i2].src),
        dedup_images(s).len() <= s.len(),
    decreases s.len(),
{
    if s.len() > 0 {
        let pre = s.drop_last();
        lemma_dedup_images_props(pre);
        assert forall|i: int| #![trigger dedup_images(pre)[i]]
            0 <= i < dedup_images(pre).len() implies sourced_image(s, dedup_images(pre)[i]) by {
            let j = choose|j: int|
                0 <= j < pre.len() && #[trigger] pre[j] == dedup_images(pre)[i] && !is_data_uri(
                    pre[j].src,
                );
            assert(s[j] == pre[j]);
            assert(0 <= j < s.len() && s[j] == dedup_images(pre)[i] && !is_data_uri(s[j].src));
        }
        if image_kept(s, s.len() - 1) {
            assert(dedup_images(s) == dedup_images(pre).push(s.last()));
            assert forall|i: int| #![trigger dedup_images(s)[i]]
                0 <= i < dedup_images(s).len() implies sourced_image(s, dedup_images(s)[i]) by {
                if i < dedup_images(pre).len() {
                    assert(dedup_images(s)[i] == dedup_images(pre)[i]);
                    assert(sourced_image(s, dedup_images(pre)[i]));
                } else {
                    assert(dedup_images(s)[i] == s[s.len() - 1]);
                    assert(0 <= s.len() - 1 < s.len() && s[s.len() - 1] == dedup_images(s)[i] && !is_data_uri(
                        s[s.len() - 1].src,
                    ));
                }
            }
            assert forall|i1: int, i2: int|
                0 <= i1 < i2 < dedup_images(s).len() implies normalize_key(dedup_images(s)[i1].src) != normalize_key(
                dedup_images(s)[i2].src,
            ) by {
                if i2 < dedup_images(pre).len() {
                } else {
                    assert(dedup_images(s)[i2] == s.last());
                    assert(dedup_images(s)[i1] == dedup_images(pre)[i1]);
                    let j = choose|j: int| 0 <= j < pre.len() && pre[j] == dedup_images(pre)[i1] && !is_data_uri(
                        pre[j].src,
                    );
                    assert(s[j] == pre[j]);
                    assert(is_data_uri(s[j].src) || normalize_key(s[j].src) != normalize_key(
                        s[s.len() - 1].src,
                    ));
                }
            }
        } else {
            assert(dedup_images(s) == dedup_images(pre));
            assert forall|i: int| #![trigger dedup_images(s)[i]]
                0 <= i < dedup_images(s).len() implies sourced_image(s, dedup_images(s)[i]) by {
                assert(dedup_images(s)[i] == dedup_images(pre)[i]);
                assert(sourced_image(s, dedup_images(pre)[i]));
            }
            assert forall|i1: int, i2: int|
                0 <= i1 < i2 < dedup_images(s).len() implies normalize_key(dedup_images(s)[i1].src) != normalize_key(
                dedup_images(s)[i2].src,
            ) by {
                assert(dedup_images(s)[i1] == dedup_images(pre)[i1]);
                assert(dedup_images(s)[i2] == dedup_images(pre)[i2]);
            }
        }
    }
}

/// If some non-data-URI candidate carries key `k`, deduplication keeps an
/// element with key `k`.
pub proof fn lemma_dedup_images_covers(s: Seq<ImageView>, k: Seq<char>)
    requires
        exists|j: int| 0 <= j < s.len() && !is_data_uri(s[j].src) && normalize_key(s[j].src) == k,
    ensures
        exists|i: int|
            0 <= i < dedup_images(s).len() && normalize_key(dedup_images(s)[i].src) == k
                && !is_data_uri(dedup_images(s)[i].src),
    decreases s.len(),
{
    let pre = s.drop_last();
    let dp = dedup_images(pre);
    let ds = dedup_images(s);
    let j = choose|j: int| 0 <= j < s.len() && !is_data_uri(s[j].src) && normalize_key(s[j].src)
        == k;
    if j < s.len() - 1 {
        assert(pre[j] == s[j]);
        lemma_dedup_images_covers(pre, k);
        let i = choose|i: int| 0 <= i < dp.len() && normalize_key(dp[i].src) == k && !is_data_uri(
            dp[i].src,
        );
        if image_kept(s, s.len() - 1) {
            assert(ds[i] == dp[i]);
        } else {
            assert(ds == dp);
        }
        assert(0 <= i < ds.len() && normalize_key(ds[i].src) == k && !is_data_uri(ds[i].src));
    } else {
        if image_kept(s, s.len() - 1) {
            assert(ds == dp.push(s.last()));
            assert(ds[ds.len() - 1] == s.last());
            assert(0 <= ds.len() - 1 < ds.len() && normalize_key(ds[ds.len() - 1].src) == k
                && !is_data_uri(ds[ds.len() - 1].src));
        } else {
            // the last candidate is a duplicate: an earlier non-data
            // candidate carries the same key
            assert(!image_kept(s, s.len() - 1));
            assert(!is_data_uri(s[s.len() - 1].src));
            let j2 = choose|j2: int|
                0 <= j2 < s.len() - 1 && !(is_data_uri(s[j2].src) || normalize_key(s[j2].src)
                    != normalize_key(s[s.len() - 1].src));
            assert(pre[j2] == s[j2]);
            assert(0 <= j2 < pre.len() && !is_data_uri(pre[j2].src) && normalize_key(pre[j2].src)
                == k);
            lemma_dedup_images_covers(pre, k);
            let i = choose|i: int|
                0 <= i < dp.len() && normalize_key(dp[i].src) == k && !is_data_uri(dp[i].src);
            assert(ds == dp);
            assert(0 <= i < ds.len() && normalize_key(ds[i].src) == k && !is_data_uri(ds[i].src));
        }
    }
}

/// Law: the merge keeps exactly one instance per deduplication key. Where
/// some non-data-URI candidate of either pass carries key `k` and the
/// candidates fit under the cap, exactly one merged image has key `k` — and
/// merged keys are pairwise distinct regardless.
pub proof fn lemma_merge_keeps_one_instance(a: Seq<ImageView>, b: Seq<ImageView>, k: Seq<char>)
    requires
        a.len() + b.len() <= RESULT_CAP as int,
        exists|j: int|
            0 <= j < (a + b).len() && !is_data_uri((a + b)[j].src) && normalize_key((a + b)[j].src)
                == k,
    ensures
        exists|i: int|
            0 <= i < merged_images(a, b).len() && normalize_key(merged_images(a, b)[i].src) == k,
        forall|i1: int, i2: int|
            0 <= i1 < i2 < merged_images(a, b).len() ==> normalize_key(
                merged_images(a, b)[i1].src,
            ) != normalize_key(merged_images(a, b)[i2].src),
{
    lemma_dedup_images_props(a + b);
    lemma_dedup_images_covers(a + b, k);
    assert(dedup_images(a + b).len() <= RESULT_CAP as int);
    assert(merged_images(a, b) == dedup_images(a + b));
}

/// Law: data URIs never appear in the merged image list, whichever pass or
/// strategy discovered them.
pub proof fn lemma_merged_images_no_data_uri(a: Seq<ImageView>, b: Seq<ImageView>)
    ensures
        forall|i: int|
            0 <= i < merged_images(a, b).len() ==> !is_data_uri(merged_images(a, b)[i].src),
{
    lemma_dedup_images_props(a + b);
    let d = dedup_images(a + b);
    let m = merged_images(a, b);
    assert forall|i: int| 0 <= i < m.len() implies !is_data_uri(m[i].src) by {
        assert(m[i] == d[i]);
        assert(sourced_image(a + b, d[i]));
        let j = choose|j: int|
            0 <= j < (a + b).len() && #[trigger] (a + b)[j] == d[i] && !is_data_uri((a + b)[j].src);
        assert(!is_data_uri(d[i].src));
    }
}

/// Law: the merge is order-stable and source-prioritized. Given
/// rendering-pass images [A, B] and raw-markup images [B', C] where B and B'
/// share a key and the three keys are otherwise distinct, the merged list is
/// exactly [A, B, C]: B' is dropped in favour of the earlier, higher-fidelity
/// B, and encounter order is kept.
pub proof fn lemma_merge_order_stable(av: ImageView, bv: ImageView, b2: ImageView, cv: ImageView)
    requires
        !is_data_uri(av.src),
        !is_data_uri(bv.src),
        !is_data_uri(b2.src),
        !is_data_uri(cv.src),
        normalize_key(bv.src) == normalize_key(b2.src),
        normalize_key(av.src) != normalize_key(bv.src),
        normalize_key(av.src) != normalize_key(cv.src),
        normalize_key(bv.src) != normalize_key(cv.src),
    ensures
        merged_images(seq![av, bv], seq![b2, cv]) == seq![av, bv, cv],
{
    reveal_with_fuel(dedup_images, 6);
    let s = seq![av, bv] + seq![b2, cv];
    assert(s =~= seq![av, bv, b2, cv]);
    let s3 = s.drop_last();
    let s2 = s3.drop_last();
    let s1 = s2.drop_last();
    let s0 = s1.drop_last();
    assert(s3 =~= seq![av, bv, b2]);
    assert(s2 =~= seq![av, bv]);
    assert(s1 =~= seq![av]);
    assert(s0 =~= Seq::<ImageView>::empty());
    assert(s[0] == av && s[1] == bv && s[2] == b2 && s[3] == cv);
    assert(s1[0] == av);
    assert(s2[0] == av && s2[1] == bv);
    assert(s3[0] == av && s3[1] == bv && s3[2] == b2);
    assert(image_kept(s1, 0));
    assert(dedup_images(s1) =~= seq![av]);
    assert(image_kept(s2, 1));
    assert(dedup_images(s2) =~= seq![av, bv]);
    assert(!image_kept(s3, 2));
    assert(dedup_images(s3) =~= seq![av, bv]);
    assert(image_kept(s, 3));
    assert(dedup_images(s) =~= seq![av, bv, cv]);
    assert(merged_images(seq![av, bv], seq![b2, cv]) =~= seq![av, bv, cv]);
}

/// Law: no merged text fragment is shorter than three characters after
/// trimming and collapsing — and every fragment is stored in collapsed form.
pub proof fn lemma_merged_text_min_len(a: Seq<TextView>, b: Seq<TextView>)
    ensures
        forall|i: int|
            0 <= i < merged_text(a, b).len() ==> merged_text(a, b)[i].text.len() >= 3,
        forall|i: int|
            #![trigger merged_text(a, b)[i]]
            0 <= i < merged_text(a, b).len() ==> sourced_text(a + b, merged_text(a, b)[i].text),
{
    lemma_dedup_text_min_len(a + b);
    let d = dedup_text(a + b);
    let m = merged_text(a, b);
    assert forall|i: int| 0 <= i < m.len() implies m[i].text.len() >= 3 by {
        assert(m[i] == d[i]);
    }
    assert forall|i: int| #![trigger m[i]]
        0 <= i < m.len() implies sourced_text(a + b, m[i].text) by {
        assert(m[i] == d[i]);
        assert(sourced_text(a + b, d[i].text));
    }
}

proof fn lemma_dedup_text_min_len(s: Seq<TextView>)
    ensures
        forall|i: int| 0 <= i < dedup_text(s).len() ==> dedup_text(s)[i].text.len() >= 3,
        forall|i: int|
            #![trigger dedup_text(s)[i]]
            0 <= i < dedup_text(s).len() ==> sourced_text(s, dedup_text(s)[i].text),
        dedup_text(s).len() <= s.len(),
    decreases s.len(),
{
    if s.len() > 0 {
        let pre = s.drop_last();
        lemma_dedup_text_min_len(pre);
                assert forall|i: int| #![trigger dedup_text(pre)[i]]
            0 <= i < dedup_text(pre).len() implies sourced_text(s, dedup_text(pre)[i].text) by {
            let j = choose|j: int|
                0 <= j < pre.len() && dedup_text(pre)[i].text == ws_collapse(
                    #[trigger] pre[j].text,
                );
            assert(s[j] == pre[j]);
            assert(0 <= j < s.len() && dedup_text(pre)[i].text == ws_collapse(s[j].text));
        }
        if text_kept(s, s.len() - 1) {
            assert(dedup_text(s) == dedup_text(pre).push(
                TextView { tag: s.last().tag, text: ws_collapse(s.last().text) },
            ));
            assert forall|i: int| #![trigger dedup_text(s)[i]]
                0 <= i < dedup_text(s).len() implies sourced_text(s, dedup_text(s)[i].text) by {
                if i < dedup_text(pre).len() {
                    assert(dedup_text(s)[i] == dedup_text(pre)[i]);
                    assert(sourced_text(s, dedup_text(pre)[i].text));
                } else {
                    assert(dedup_text(s)[i].text == ws_collapse(s[s.len() - 1].text));
                    assert(0 <= s.len() - 1 < s.len() && dedup_text(s)[i].text == ws_collapse(
                        s[s.len() - 1].text,
                    ));
                }
            }
        }
    }
}

} // verus!

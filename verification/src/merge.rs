//! The reconciliation engine: image lists from the two passes are merged with
//! rendering-pass priority, deduplicated by normalized URL key with the first
//! occurrence kept, stripped of data URIs, and capped; text lists likewise,
//! keyed by the whitespace-collapsed fragment text, dropping fragments
//! shorter than three characters.

use vstd::prelude::*;
use vstd::string::*;

use crate::model::{ImageInfo, ImageView, TextBlock, TextView, clone_image};
use crate::normalize::normalize_key;
use crate::normalize::normalize_for_dedup;
use crate::text::{is_data_uri, is_data_uri_exec, ws_collapse, ws_normalize, str_eq};

verus! {

/// Both passes and the merged output are capped at this many entries.
pub const RESULT_CAP: usize = 500;

/// The first `RESULT_CAP` entries of `s`.
pub open spec fn cap_seq<T>(s: Seq<T>) -> Seq<T> {
    if s.len() > RESULT_CAP as int {
        s.take(RESULT_CAP as int)
    } else {
        s
    }
}

/// Candidate `i` of `s` survives deduplication: it is not a data URI and no
/// earlier non-data-URI candidate has the same normalized key.
pub open spec fn image_kept(s: Seq<ImageView>, i: int) -> bool {
    &&& !is_data_uri(s[i].src)
    &&& forall|j: int|
        0 <= j < i ==> is_data_uri(s[j].src) || normalize_key(s[j].src) != normalize_key(s[i].src)
}

/// The surviving candidates of `s`, in encounter order.
pub open spec fn dedup_images(s: Seq<ImageView>) -> Seq<ImageView>
    decreases s.len(),
{
    if s.len() == 0 {
        s
    } else {
        let rest = dedup_images(s.drop_last());
        if image_kept(s, s.len() - 1) {
            rest.push(s.last())
        } else {
            rest
        }
    }
}

/// The merged image list: rendering-pass images first, then raw-markup
/// images, deduplicated and capped.
pub open spec fn merged_images(a: Seq<ImageView>, b: Seq<ImageView>) -> Seq<ImageView> {
    cap_seq(dedup_images(a + b))
}

/// Normalized keys of the non-data-URI candidates of `s`.
pub open spec fn image_key_seq(s: Seq<ImageView>) -> Seq<Seq<char>>
    decreases s.len(),
{
    if s.len() == 0 {
        Seq::empty()
    } else {
        image_key_seq(s.drop_last()) + if !is_data_uri(s.last().src) {
            seq![normalize_key(s.last().src)]
        } else {
            Seq::empty()
        }
    }
}

proof fn lemma_image_key_seq_contains(s: Seq<ImageView>, k: Seq<char>)
    ensures
        image_key_seq(s).contains(k) <==> exists|j: int|
            0 <= j < s.len() && !is_data_uri(s[j].src) && normalize_key(s[j].src) == k,
    decreases s.len(),
{
    if s.len() == 0 {
    } else {
        let pre = s.drop_last();
        lemma_image_key_seq_contains(pre, k);
        let tailkeys = if !is_data_uri(s.last().src) {
            seq![normalize_key(s.last().src)]
        } else {
            Seq::<Seq<char>>::empty()
        };
        assert(image_key_seq(s) == image_key_seq(pre) + tailkeys);
        if image_key_seq(s).contains(k) {
            let idx = choose|idx: int| 0 <= idx < image_key_seq(s).len() && image_key_seq(s)[idx] == k;
            if idx < image_key_seq(pre).len() {
                assert(image_key_seq(pre)[idx] == k);
                assert(image_key_seq(pre).contains(k));
                let j = choose|j: int|
                    0 <= j < pre.len() && !is_data_uri(pre[j].src) && normalize_key(pre[j].src) == k;
                assert(s[j] == pre[j]);
                assert(!is_data_uri(s[j].src) && normalize_key(s[j].src) == k);
            } else {
                assert(!is_data_uri(s[s.len() - 1].src) && normalize_key(s[s.len() - 1].src) == k);
            }
        }
        if exists|j: int| 0 <= j < s.len() && !is_data_uri(s[j].src) && normalize_key(s[j].src) == k {
            let j = choose|j: int|
                0 <= j < s.len() && !is_data_uri(s[j].src) && normalize_key(s[j].src) == k;
            if j < s.len() - 1 {
                assert(pre[j] == s[j]);
                assert(image_key_seq(pre).contains(k));
                let idx = choose|idx: int|
                    0 <= idx < image_key_seq(pre).len() && image_key_seq(pre)[idx] == k;
                assert(image_key_seq(s)[idx] == k);
                assert(image_key_seq(s).contains(k));
            } else {
                assert(image_key_seq(s)[image_key_seq(pre).len() as int] == k);
                assert(image_key_seq(s).contains(k));
            }
        }
    }
}

/// Whether some entry of `v` equals `s`.
pub fn contains_string(v: &Vec<String>, s: &str) -> (r: bool)
    ensures
        r == v.deep_view().contains(s@),
{
    let n = v.len();
    let mut i: usize = 0;
    while i < n
        invariant
            n == v.len(),
            i <= n,
            forall|j: int| 0 <= j < i ==> v.deep_view()[j] != s@,
        decreases n - i,
    {
        if str_eq(v[i].as_str(), s) {
            assert(v.deep_view()[i as int] == s@);
            return true;
        }
        i = i + 1;
    }
    false
}

/// Deduplicates and caps a combined image candidate list.
pub(crate) fn dedup_images_exec(cand: &Vec<ImageInfo>) -> (r: Vec<ImageInfo>)
    ensures
        r.deep_view() == cap_seq(dedup_images(cand.deep_view())),
{
    let ghost cv = cand.deep_view();
    let n = cand.len();
    let mut out: Vec<ImageInfo> = Vec::new();
    let mut keys: Vec<String> = Vec::new();
    proof {
        assert(cv.take(0) =~= Seq::<ImageView>::empty());
        assert(out.deep_view() =~= dedup_images(cv.take(0)));
        assert(keys.deep_view() =~= image_key_seq(cv.take(0)));
    }
    let mut i: usize = 0;
    while i < n
        invariant
            n == cand.len(),
            cv == cand.deep_view(),
            i <= n,
            out.deep_view() == dedup_images(cv.take(i as int)),
            keys.deep_view() == image_key_seq(cv.take(i as int)),
        decreases n - i,
    {
        proof {
            assert(cv.take(i + 1).drop_last() =~= cv.take(i as int));
            assert(cv.take(i + 1).last() == cv[i as int]);
        }
        let img = &cand[i];
        assert(img.deep_view() == cv[i as int]);
        if !is_data_uri_exec(img.src.as_str()) {
            let key = normalize_for_dedup(img.src.as_str());
            let seen = contains_string(&keys, key.as_str());
            proof {
                lemma_image_key_seq_contains(cv.take(i as int), key@);
            }
            if !seen {
                assert(image_kept(cv.take(i + 1), i as int));
                let ghost old_out = out.deep_view();
                out.push(clone_image(img));
                proof {
                    assert(out.deep_view() =~= old_out.push(cv[i as int]));
                }
            } else {
                assert(!image_kept(cv.take(i + 1), i as int));
            }
            let ghost old_keys = keys.deep_view();
            keys.push(key);
            proof {
                assert(keys.deep_view() =~= old_keys.push(normalize_key(cv[i as int].src)));
                assert(keys.deep_view() =~= image_key_seq(cv.take(i + 1)));
            }
        } else {
            proof {
                assert(!image_kept(cv.take(i + 1), i as int));
                assert(keys.deep_view() =~= image_key_seq(cv.take(i + 1)));
            }
        }
        i = i + 1;
    }
    proof {
        assert(cv.take(n as int) =~= cv);
    }
    let ghost full = out.deep_view();
    if out.len() > RESULT_CAP {
        out.truncate(RESULT_CAP);
        proof {
            assert(out.deep_view() =~= full.take(RESULT_CAP as int));
        }
    }
    out
}

/// Merges the two passes' image lists: rendering-pass images first, then
/// raw-markup images; data URIs dropped; first occurrence per normalized key
/// kept, in encounter order; capped at `RESULT_CAP`.
pub fn merge_images(a: &Vec<ImageInfo>, b: &Vec<ImageInfo>) -> (r: Vec<ImageInfo>)
    ensures
        r.deep_view() == merged_images(a.deep_view(), b.deep_view()),
{
    let mut cand: Vec<ImageInfo> = Vec::new();
    let na = a.len();
    let mut i: usize = 0;
    while i < na
        invariant
            na == a.len(),
            i <= na,
            cand.deep_view() == a.deep_view().take(i as int),
        decreases na - i,
    {
        let ghost old_cv = cand.deep_view();
        cand.push(clone_image(&a[i]));
        proof {
            assert(cand.deep_view() =~= old_cv.push(a.deep_view()[i as int]));
            assert(cand.deep_view() =~= a.deep_view().take(i + 1));
        }
        i = i + 1;
    }
    proof {
        assert(a.deep_view().take(na as int) =~= a.deep_view());
    }
    let nb = b.len();
    let mut j: usize = 0;
    while j < nb
        invariant
            nb == b.len(),
            j <= nb,
            cand.deep_view() == a.deep_view() + b.deep_view().take(j as int),
        decreases nb - j,
    {
        let ghost old_cv = cand.deep_view();
        cand.push(clone_image(&b[j]));
        proof {
            assert(cand.deep_view() =~= old_cv.push(b.deep_view()[j as int]));
            assert(cand.deep_view() =~= a.deep_view() + b.deep_view().take(j + 1));
        }
        j = j + 1;
    }
    proof {
        assert(a.deep_view() + b.deep_view().take(nb as int) =~= a.deep_view() + b.deep_view());
    }
    dedup_images_exec(&cand)
}

/// Candidate `i` of `s` survives text deduplication: its collapsed text has
/// at least three characters and no earlier candidate collapses to the same
/// text.
pub open spec fn text_kept(s: Seq<TextView>, i: int) -> bool {
    &&& ws_collapse(s[i].text).len() >= 3
    &&& forall|j: int| 0 <= j < i ==> ws_collapse(s[j].text) != ws_collapse(s[i].text)
}

/// The surviving text fragments of `s`, in encounter order, each with its
/// text collapsed.
pub open spec fn dedup_text(s: Seq<TextView>) -> Seq<TextView>
    decreases s.len(),
{
    if s.len() == 0 {
        s
    } else {
        let rest = dedup_text(s.drop_last());
        if text_kept(s, s.len() - 1) {
            rest.push(TextView { tag: s.last().tag, text: ws_collapse(s.last().text) })
        } else {
            rest
        }
    }
}

/// The merged text list: rendering-pass fragments first, then raw-markup
/// fragments, deduplicated by exact collapsed text and capped.
pub open spec fn merged_text(a: Seq<TextView>, b: Seq<TextView>) -> Seq<TextView> {
    cap_seq(dedup_text(a + b))
}

/// Collapsed texts of the candidates of `s` that are long enough to keep.
pub open spec fn text_key_seq(s: Seq<TextView>) -> Seq<Seq<char>>
    decreases s.len(),
{
    if s.len() == 0 {
        Seq::empty()
    } else {
        text_key_seq(s.drop_last()) + if ws_collapse(s.last().text).len() >= 3 {
            seq![ws_collapse(s.last().text)]
        } else {
            Seq::empty()
        }
    }
}

proof fn lemma_text_key_seq_contains(s: Seq<TextView>, k: Seq<char>)
    ensures
        text_key_seq(s).contains(k) <==> exists|j: int|
            0 <= j < s.len() && ws_collapse(s[j].text).len() >= 3 && ws_collapse(s[j].text) == k,
    decreases s.len(),
{
    if s.len() == 0 {
    } else {
        let pre = s.drop_last();
        lemma_text_key_seq_contains(pre, k);
        let tailkeys = if ws_collapse(s.last().text).len() >= 3 {
            seq![ws_collapse(s.last().text)]
        } else {
            Seq::<Seq<char>>::empty()
        };
        assert(text_key_seq(s) == text_key_seq(pre) + tailkeys);
        if text_key_seq(s).contains(k) {
            let idx = choose|idx: int| 0 <= idx < text_key_seq(s).len() && text_key_seq(s)[idx] == k;
            if idx < text_key_seq(pre).len() {
                assert(text_key_seq(pre)[idx] == k);
                assert(text_key_seq(pre).contains(k));
                let j = choose|j: int|
                    0 <= j < pre.len() && ws_collapse(pre[j].text).len() >= 3 && ws_collapse(
                        pre[j].text,
                    ) == k;
                assert(s[j] == pre[j]);
            } else {
                assert(ws_collapse(s[s.len() - 1].text).len() >= 3 && ws_collapse(
                    s[s.len() - 1].text,
                ) == k);
            }
        }
        if exists|j: int|
            0 <= j < s.len() && ws_collapse(s[j].text).len() >= 3 && ws_collapse(s[j].text) == k {
            let j = choose|j: int|
                0 <= j < s.len() && ws_collapse(s[j].text).len() >= 3 && ws_collapse(s[j].text)
                    == k;
            if j < s.len() - 1 {
                assert(pre[j] == s[j]);
                assert(text_key_seq(pre).contains(k));
                let idx = choose|idx: int|
                    0 <= idx < text_key_seq(pre).len() && text_key_seq(pre)[idx] == k;
                assert(text_key_seq(s)[idx] == k);
                assert(text_key_seq(s).contains(k));
            } else {
                assert(text_key_seq(s)[text_key_seq(pre).len() as int] == k);
                assert(text_key_seq(s).contains(k));
            }
        }
    }
}

/// Deduplicates and caps a combined text candidate list.
pub(crate) fn dedup_text_exec(cand: &Vec<TextBlock>) -> (r: Vec<TextBlock>)
    ensures
        r.deep_view() == cap_seq(dedup_text(cand.deep_view())),
{
    let ghost cv = cand.deep_view();
    let n = cand.len();
    let mut out: Vec<TextBlock> = Vec::new();
    let mut keys: Vec<String> = Vec::new();
    proof {
        assert(cv.take(0) =~= Seq::<TextView>::empty());
        assert(out.deep_view() =~= dedup_text(cv.take(0)));
        assert(keys.deep_view() =~= text_key_seq(cv.take(0)));
    }
    let mut i: usize = 0;
    while i < n
        invariant
            n == cand.len(),
            cv == cand.deep_view(),
            i <= n,
            out.deep_view() == dedup_text(cv.take(i as int)),
            keys.deep_view() == text_key_seq(cv.take(i as int)),
        decreases n - i,
    {
        proof {
            assert(cv.take(i + 1).drop_last() =~= cv.take(i as int));
            assert(cv.take(i + 1).last() == cv[i as int]);
        }
        let tb = &cand[i];
        assert(tb.deep_view() == cv[i as int]);
        let nt = ws_normalize(tb.text.as_str());
        if nt.as_str().unicode_len() >= 3 {
            let seen = contains_string(&keys, nt.as_str());
            proof {
                lemma_text_key_seq_contains(cv.take(i as int), nt@);
            }
            if !seen {
                assert(text_kept(cv.take(i + 1), i as int));
                let ghost old_out = out.deep_view();
                let kept = TextBlock { tag: tb.tag.clone(), text: nt.clone() };
                out.push(kept);
                proof {
                    assert(out.deep_view() =~= old_out.push(
                        TextView { tag: cv[i as int].tag, text: ws_collapse(cv[i as int].text) },
                    ));
                }
            } else {
                assert(!text_kept(cv.take(i + 1), i as int));
            }
            let ghost old_keys = keys.deep_view();
            keys.push(nt);
            proof {
                assert(keys.deep_view() =~= old_keys.push(ws_collapse(cv[i as int].text)));
                assert(keys.deep_view() =~= text_key_seq(cv.take(i + 1)));
            }
        } else {
            proof {
                assert(!text_kept(cv.take(i + 1), i as int));
                assert(keys.deep_view() =~= text_key_seq(cv.take(i + 1)));
            }
        }
        i = i + 1;
    }
    proof {
        assert(cv.take(n as int) =~= cv);
    }
    let ghost full = out.deep_view();
    if out.len() > RESULT_CAP {
        out.truncate(RESULT_CAP);
        proof {
            assert(out.deep_view() =~= full.take(RESULT_CAP as int));
        }
    }
    out
}

/// Merges the two passes' text lists: rendering-pass fragments first, then
/// raw-markup fragments; fragments whose collapsed text is shorter than three
/// characters dropped; first occurrence per exact collapsed text kept, in
/// encounter order; capped at `RESULT_CAP`.
pub fn merge_text(a: &Vec<TextBlock>, b: &Vec<TextBlock>) -> (r: Vec<TextBlock>)
    ensures
        r.deep_view() == merged_text(a.deep_view(), b.deep_view()),
{
    let mut cand: Vec<TextBlock> = Vec::new();
    let na = a.len();
    let mut i: usize = 0;
    while i < na
        invariant
            na == a.len(),
            i <= na,
            cand.deep_view() == a.deep_view().take(i as int),
        decreases na - i,
    {
        let ghost old_cv = cand.deep_view();
        cand.push(crate::model::clone_text(&a[i]));
        proof {
            assert(cand.deep_view() =~= old_cv.push(a.deep_view()[i as int]));
            assert(cand.deep_view() =~= a.deep_view().take(i + 1));
        }
        i = i + 1;
    }
    proof {
        assert(a.deep_view().take(na as int) =~= a.deep_view());
    }
    let nb = b.len();
    let mut j: usize = 0;
    while j < nb
        invariant
            nb == b.len(),
            j <= nb,
            cand.deep_view() == a.deep_view() + b.deep_view().take(j as int),
        decreases nb - j,
    {
        let ghost old_cv = cand.deep_view();
        cand.push(crate::model::clone_text(&b[j]));
        proof {
            assert(cand.deep_view() =~= old_cv.push(b.deep_view()[j as int]));
            assert(cand.deep_view() =~= a.deep_view() + b.deep_view().take(j + 1));
        }
        j = j + 1;
    }
    proof {
        assert(a.deep_view() + b.deep_view().take(nb as int) =~= a.deep_view() + b.deep_view());
    }
    dedup_text_exec(&cand)
}

} // verus!

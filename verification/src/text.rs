//! Character-level string primitives shared by the normalizer and the markup
//! extractor: equality, searching, trimming, whitespace collapsing, splitting,
//! unescaping and decimal parsing, each against a spec-level definition over
//! `Seq<char>`.

use vstd::prelude::*;
use vstd::string::*;

verus! {

/// ASCII decimal digit.
pub open spec fn is_digit(c: char) -> bool {
    '0' <= c && c <= '9'
}

/// ASCII letter.
pub open spec fn is_ascii_letter(c: char) -> bool {
    ('a' <= c && c <= 'z') || ('A' <= c && c <= 'Z')
}

/// The whitespace characters this library trims and collapses.
pub open spec fn is_space_char(c: char) -> bool {
    c == ' ' || c == '\t' || c == '\n' || c == '\r'
}

pub fn exec_is_digit(c: char) -> (r: bool)
    ensures
        r == is_digit(c),
{
    '0' <= c && c <= '9'
}

pub fn exec_is_ascii_letter(c: char) -> (r: bool)
    ensures
        r == is_ascii_letter(c),
{
    ('a' <= c && c <= 'z') || ('A' <= c && c <= 'Z')
}

pub fn exec_is_space(c: char) -> (r: bool)
    ensures
        r == is_space_char(c),
{
    c == ' ' || c == '\t' || c == '\n' || c == '\r'
}

/// Exact string equality by contents.
pub fn str_eq(a: &str, b: &str) -> (r: bool)
    ensures
        r == (a@ == b@),
{
    let na = a.unicode_len();
    let nb = b.unicode_len();
    if na != nb {
        assert(a@ != b@);
        return false;
    }
    let mut i: usize = 0;
    while i < na
        invariant
            na == a@.len(),
            na == b@.len(),
            i <= na,
            forall|j: int| 0 <= j < i ==> a@[j] == b@[j],
        decreases na - i,
    {
        if a.get_char(i) != b.get_char(i) {
            return false;
        }
        i = i + 1;
    }
    proof {
        assert(a@ =~= b@);
    }
    true
}

/// `p` occurs as a prefix of `s`.
pub open spec fn is_prefix_of(p: Seq<char>, s: Seq<char>) -> bool {
    p.len() <= s.len() && s.subrange(0, p.len() as int) == p
}

pub fn starts_with_str(s: &str, p: &str) -> (r: bool)
    ensures
        r == is_prefix_of(p@, s@),
{
    let np = p.unicode_len();
    let ns = s.unicode_len();
    if np > ns {
        return false;
    }
    let mut i: usize = 0;
    while i < np
        invariant
            np == p@.len(),
            ns == s@.len(),
            np <= ns,
            i <= np,
            forall|j: int| 0 <= j < i ==> s@[j] == p@[j],
        decreases np - i,
    {
        if s.get_char(i) != p.get_char(i) {
            assert(s@.subrange(0, np as int)[i as int] != p@[i as int]);
            return false;
        }
        i = i + 1;
    }
    proof {
        assert(s@.subrange(0, np as int) =~= p@);
    }
    true
}

/// `p` occurs at position `k` of `s`.
pub open spec fn matches_at(s: Seq<char>, k: int, p: Seq<char>) -> bool {
    0 <= k && k + p.len() <= s.len() && s.subrange(k, k + p.len()) == p
}

/// `p` occurs somewhere in `s`.
pub open spec fn contains_seq(s: Seq<char>, p: Seq<char>) -> bool {
    exists|k: int| matches_at(s, k, p)
}

fn matches_at_exec(s: &str, k: usize, p: &str) -> (r: bool)
    requires
        k <= s@.len(),
    ensures
        r == matches_at(s@, k as int, p@),
{
    let np = p.unicode_len();
    let ns = s.unicode_len();
    if np > ns - k {
        return false;
    }
    let mut i: usize = 0;
    while i < np
        invariant
            np == p@.len(),
            ns == s@.len(),
            k + np <= ns,
            i <= np,
            forall|j: int| 0 <= j < i ==> s@[k + j] == p@[j],
        decreases np - i,
    {
        if s.get_char(k + i) != p.get_char(i) {
            assert(s@.subrange(k as int, k + np)[i as int] != p@[i as int]);
            return false;
        }
        i = i + 1;
    }
    proof {
        assert(s@.subrange(k as int, k + np) =~= p@);
    }
    true
}

/// Whether `s` contains `p`, by a left-to-right scan.
pub fn contains_str(s: &str, p: &str) -> (r: bool)
    ensures
        r == contains_seq(s@, p@),
{
    let ns = s.unicode_len();
    let np = p.unicode_len();
    if np > ns {
        return false;
    }
    if np == 0 {
        proof {
            assert(s@.subrange(0, 0) =~= p@);
            assert(matches_at(s@, 0, p@));
        }
        return true;
    }
    let mut k: usize = 0;
    while k <= ns - np
        invariant
            ns == s@.len(),
            np == p@.len(),
            1 <= np <= ns,
            k <= ns - np + 1,
            forall|j: int| 0 <= j < k ==> !matches_at(s@, j, p@),
        decreases ns - k,
    {
        if matches_at_exec(s, k, p) {
            return true;
        }
        k = k + 1;
    }
    proof {
        assert(forall|j: int| matches_at(s@, j, p@) ==> 0 <= j && j + np <= ns);
    }
    false
}

/// Index of the first occurrence of `c` in `s`, or `s.len()` if none.
pub open spec fn upto_char(s: Seq<char>, c: char) -> int
    decreases s.len(),
{
    if s.len() == 0 {
        0
    } else if s[0] == c {
        0
    } else {
        1 + upto_char(s.subrange(1, s.len() as int), c)
    }
}

/// The defining properties of `upto_char`.
pub proof fn lemma_upto_char(s: Seq<char>, c: char)
    ensures
        0 <= upto_char(s, c) <= s.len(),
        forall|j: int| 0 <= j < upto_char(s, c) ==> s[j] != c,
        upto_char(s, c) < s.len() ==> s[upto_char(s, c)] == c,
    decreases s.len(),
{
    if s.len() == 0 {
    } else if s[0] == c {
    } else {
        let sub = s.subrange(1, s.len() as int);
        lemma_upto_char(sub, c);
        assert forall|j: int| 0 <= j < upto_char(s, c) implies s[j] != c by {
            if j >= 1 {
                assert(s[j] == sub[j - 1]);
            }
        }
        if upto_char(s, c) < s.len() {
            assert(s[upto_char(s, c)] == sub[upto_char(s, c) - 1]);
        }
    }
}

/// Any index with the first-occurrence properties is `upto_char`.
pub proof fn lemma_upto_char_unique(s: Seq<char>, c: char, u: int)
    requires
        0 <= u <= s.len(),
        forall|j: int| 0 <= j < u ==> s[j] != c,
        u < s.len() ==> s[u] == c,
    ensures
        u == upto_char(s, c),
    decreases s.len(),
{
    lemma_upto_char(s, c);
    if u < upto_char(s, c) {
        assert(s[u] == c);
        assert(false);
    }
    if upto_char(s, c) < u {
        assert(s[upto_char(s, c)] == c);
        assert(false);
    }
}

/// First occurrence of `c` in `s`, as an executable scan.
pub fn find_char(s: &str, c: char) -> (r: usize)
    ensures
        r as int == upto_char(s@, c),
{
    let n = s.unicode_len();
    let mut i: usize = 0;
    while i < n
        invariant
            n == s@.len(),
            i <= n,
            forall|j: int| 0 <= j < i ==> s@[j] != c,
        decreases n - i,
    {
        if s.get_char(i) == c {
            proof {
                lemma_upto_char_unique(s@, c, i as int);
            }
            return i;
        }
        i = i + 1;
    }
    proof {
        lemma_upto_char_unique(s@, c, n as int);
    }
    n
}

/// `p` occurs as a suffix of `s`.
pub open spec fn is_suffix_of(p: Seq<char>, s: Seq<char>) -> bool {
    p.len() <= s.len() && s.subrange(s.len() - p.len(), s.len() as int) == p
}

/// `s` with leading whitespace removed.
pub open spec fn trim_left(s: Seq<char>) -> Seq<char>
    decreases s.len(),
{
    if s.len() > 0 && is_space_char(s[0]) {
        trim_left(s.subrange(1, s.len() as int))
    } else {
        s
    }
}

/// `s` with trailing whitespace removed.
pub open spec fn trim_right(s: Seq<char>) -> Seq<char>
    decreases s.len(),
{
    if s.len() > 0 && is_space_char(s[s.len() - 1]) {
        trim_right(s.drop_last())
    } else {
        s
    }
}

/// `s` with whitespace removed from both ends.
pub open spec fn trim_spec(s: Seq<char>) -> Seq<char> {
    trim_right(trim_left(s))
}

/// Trims whitespace from both ends.
pub fn trim_str(s: &str) -> (r: String)
    ensures
        r@ == trim_spec(s@),
{
    let n = s.unicode_len();
    proof {
        assert(s@.subrange(0, n as int) =~= s@);
    }
    let mut a: usize = 0;
    while a < n && exec_is_space(s.get_char(a))
        invariant
            n == s@.len(),
            a <= n,
            trim_left(s@) == trim_left(s@.subrange(a as int, n as int)),
        decreases n - a,
    {
        proof {
            assert(s@.subrange(a as int, n as int).subrange(1, (n - a) as int) =~= s@.subrange(
                a + 1,
                n as int,
            ));
        }
        a = a + 1;
    }
    proof {
        if a < n {
            assert(trim_left(s@.subrange(a as int, n as int)) == s@.subrange(a as int, n as int));
        } else {
            assert(s@.subrange(a as int, n as int) =~= Seq::<char>::empty());
        }
    }
    let mut e: usize = n;
    while e > a && exec_is_space(s.get_char(e - 1))
        invariant
            n == s@.len(),
            a <= e <= n,
            trim_left(s@) == s@.subrange(a as int, n as int),
            trim_right(s@.subrange(a as int, n as int)) == trim_right(
                s@.subrange(a as int, e as int),
            ),
        decreases e,
    {
        proof {
            assert(s@.subrange(a as int, e as int).drop_last() =~= s@.subrange(
                a as int,
                e - 1,
            ));
        }
        e = e - 1;
    }
    proof {
        if e > a {
            assert(trim_right(s@.subrange(a as int, e as int)) == s@.subrange(
                a as int,
                e as int,
            ));
        } else {
            assert(s@.subrange(a as int, e as int) =~= Seq::<char>::empty());
        }
    }
    s.substring_char(a, e).to_owned()
}

/// State of the whitespace-collapsing scan: before any word, inside a word,
/// or in a gap after at least one word.
pub enum WsState {
    Start,
    Word,
    Gap,
}

/// Whitespace collapse, resumed from state `st`: words of `s` joined by a
/// single space, with no leading or trailing space.
pub open spec fn collapse_from(s: Seq<char>, st: WsState) -> Seq<char>
    decreases s.len(),
{
    if s.len() == 0 {
        Seq::<char>::empty()
    } else if is_space_char(s[0]) {
        collapse_from(
            s.subrange(1, s.len() as int),
            match st {
                WsState::Start => WsState::Start,
                _ => WsState::Gap,
            },
        )
    } else {
        (match st {
            WsState::Gap => seq![' ', s[0]],
            _ => seq![s[0]],
        }) + collapse_from(s.subrange(1, s.len() as int), WsState::Word)
    }
}

/// `s` trimmed and with every whitespace run collapsed to one space.
pub open spec fn ws_collapse(s: Seq<char>) -> Seq<char> {
    collapse_from(s, WsState::Start)
}

spec fn ws_state_of(tag: u8) -> WsState {
    if tag == 0 {
        WsState::Start
    } else if tag == 1 {
        WsState::Word
    } else {
        WsState::Gap
    }
}

/// Trims and collapses whitespace runs to single spaces.
pub fn ws_normalize(s: &str) -> (r: String)
    ensures
        r@ == ws_collapse(s@),
{
    let n = s.unicode_len();
    let mut out = String::new();
    proof {
        assert(s@.subrange(0, n as int) =~= s@);
        assert(Seq::<char>::empty() + ws_collapse(s@) =~= ws_collapse(s@));
    }
    let mut st: u8 = 0;
    let mut i: usize = 0;
    while i < n
        invariant
            n == s@.len(),
            i <= n,
            st <= 2,
            ws_collapse(s@) == out@ + collapse_from(s@.subrange(i as int, n as int), ws_state_of(st)),
        decreases n - i,
    {
        proof {
            assert(s@.subrange(i as int, n as int).subrange(1, (n - i) as int) =~= s@.subrange(
                i + 1,
                n as int,
            ));
            assert(s@.subrange(i as int, n as int)[0] == s@[i as int]);
        }
        let c = s.get_char(i);
        if exec_is_space(c) {
            st = if st == 0 {
                0
            } else {
                2
            };
        } else {
            if st == 2 {
                proof {
                    reveal_strlit(" ");
                    assert(" "@ =~= seq![' ']);
                }
                out.append(" ");
            }
            let piece = s.substring_char(i, i + 1);
            proof {
                assert(piece@ =~= seq![s@[i as int]]);
            }
            out.append(piece);
            st = 1;
        }
        i = i + 1;
    }
    proof {
        assert(s@.subrange(n as int, n as int) =~= Seq::<char>::empty());
    }
    out
}

/// `s` with every literal backslash-slash pair replaced by a slash.
pub open spec fn unescape_slashes(s: Seq<char>) -> Seq<char>
    decreases s.len(),
{
    if s.len() == 0 {
        Seq::<char>::empty()
    } else if s.len() >= 2 && s[0] == '\\' && s[1] == '/' {
        seq!['/'] + unescape_slashes(s.subrange(2, s.len() as int))
    } else {
        seq![s[0]] + unescape_slashes(s.subrange(1, s.len() as int))
    }
}

/// Replaces each escaped slash (backslash before slash) by a plain slash.
pub fn unescape_slashes_exec(s: &str) -> (r: String)
    ensures
        r@ == unescape_slashes(s@),
{
    let n = s.unicode_len();
    let mut out = String::new();
    proof {
        assert(s@.subrange(0, n as int) =~= s@);
        assert(Seq::<char>::empty() + unescape_slashes(s@) =~= unescape_slashes(s@));
    }
    let mut i: usize = 0;
    while i < n
        invariant
            n == s@.len(),
            i <= n,
            unescape_slashes(s@) == out@ + unescape_slashes(s@.subrange(i as int, n as int)),
        decreases n - i,
    {
        proof {
            assert(s@.subrange(i as int, n as int)[0] == s@[i as int]);
            if i + 1 < n {
                assert(s@.subrange(i as int, n as int)[1] == s@[i + 1]);
            }
            assert(s@.subrange(i as int, n as int).subrange(1, (n - i) as int) =~= s@.subrange(
                i + 1,
                n as int,
            ));
            if i + 2 <= n {
                assert(s@.subrange(i as int, n as int).subrange(2, (n - i) as int) =~= s@.subrange(
                    i + 2,
                    n as int,
                ));
            }
        }
        let c = s.get_char(i);
        if c == '\\' && i + 1 < n && s.get_char(i + 1) == '/' {
            proof {
                reveal_strlit("/");
                assert("/"@ =~= seq!['/']);
            }
            out.append("/");
            i = i + 2;
        } else {
            let piece = s.substring_char(i, i + 1);
            proof {
                assert(piece@ =~= seq![s@[i as int]]);
            }
            out.append(piece);
            i = i + 1;
        }
    }
    proof {
        assert(s@.subrange(n as int, n as int) =~= Seq::<char>::empty());
    }
    out
}

/// Split of `cur + s` on delimiter `pat`, scanning `s` left to right with
/// `cur` the token accumulated so far.
pub open spec fn split_from(s: Seq<char>, pat: Seq<char>, cur: Seq<char>) -> Seq<Seq<char>>
    decreases s.len(),
{
    if s.len() == 0 {
        seq![cur]
    } else if pat.len() >= 1 && matches_at(s, 0, pat) {
        seq![cur] + split_from(s.subrange(pat.len() as int, s.len() as int), pat, Seq::empty())
    } else {
        split_from(s.subrange(1, s.len() as int), pat, cur.push(s[0]))
    }
}

/// The tokens of `s` between non-overlapping occurrences of `pat`.
pub open spec fn split_by(s: Seq<char>, pat: Seq<char>) -> Seq<Seq<char>> {
    split_from(s, pat, Seq::empty())
}

/// When the rest is shorter than the delimiter, one token remains.
proof fn lemma_split_from_tail(s: Seq<char>, pat: Seq<char>, cur: Seq<char>)
    requires
        s.len() < pat.len(),
    ensures
        split_from(s, pat, cur) == seq![cur + s],
    decreases s.len(),
{
    if s.len() == 0 {
        assert(cur + s =~= cur);
    } else {
        lemma_split_from_tail(s.subrange(1, s.len() as int), pat, cur.push(s[0]));
        assert(cur.push(s[0]) + s.subrange(1, s.len() as int) =~= cur + s);
    }
}

/// A split always yields at least one token.
pub proof fn lemma_split_from_len(s: Seq<char>, pat: Seq<char>, cur: Seq<char>)
    ensures
        split_from(s, pat, cur).len() >= 1,
    decreases s.len(),
{
    if s.len() == 0 {
    } else if pat.len() >= 1 && matches_at(s, 0, pat) {
    } else {
        lemma_split_from_len(s.subrange(1, s.len() as int), pat, cur.push(s[0]));
    }
}

/// Splits `s` on the literal delimiter `pat`.
pub fn split_by_exec(s: &str, pat: &str) -> (r: Vec<String>)
    requires
        pat@.len() >= 1,
    ensures
        r.deep_view() == split_by(s@, pat@),
{
    let n = s.unicode_len();
    let np = pat.unicode_len();
    let mut out: Vec<String> = Vec::new();
    if np > n {
        proof {
            lemma_split_from_tail(s@, pat@, Seq::empty());
            assert(Seq::<char>::empty() + s@ =~= s@);
        }
        out.push(s.to_owned());
        proof {
            assert(out.deep_view() =~= seq![s@]);
        }
        return out;
    }
    proof {
        assert(s@.subrange(0, n as int) =~= s@);
        assert(s@.subrange(0, 0) =~= Seq::<char>::empty());
        assert(out.deep_view() =~= Seq::<Seq<char>>::empty());
        assert(Seq::<Seq<char>>::empty() + split_by(s@, pat@) =~= split_by(s@, pat@));
    }
    let mut i: usize = 0;
    let mut t: usize = 0;
    while i <= n - np
        invariant
            n == s@.len(),
            np == pat@.len(),
            1 <= np <= n,
            t <= i <= n,
            split_by(s@, pat@) == out.deep_view() + split_from(
                s@.subrange(i as int, n as int),
                pat@,
                s@.subrange(t as int, i as int),
            ),
        decreases n - i,
    {
        proof {
            assert(s@.subrange(i as int, n as int).subrange(0, np as int) =~= s@.subrange(
                i as int,
                i + np,
            ));
        }
        if matches_at_exec(s, i, pat) {
            proof {
                assert(matches_at(s@.subrange(i as int, n as int), 0, pat@));
                assert(s@.subrange(i as int, n as int).subrange(np as int, (n - i) as int)
                    =~= s@.subrange(i + np, n as int));
            }
            let tok = s.substring_char(t, i).to_owned();
            let ghost old_dv = out.deep_view();
            out.push(tok);
            proof {
                assert(out.deep_view() =~= old_dv + seq![s@.subrange(t as int, i as int)]);
            }
            i = i + np;
            t = i;
            proof {
                assert(s@.subrange(t as int, i as int) =~= Seq::<char>::empty());
            }
        } else {
            proof {
                assert(!matches_at(s@.subrange(i as int, n as int), 0, pat@));
                assert(s@.subrange(i as int, n as int)[0] == s@[i as int]);
                assert(s@.subrange(i as int, n as int).subrange(1, (n - i) as int) =~= s@.subrange(
                    i + 1,
                    n as int,
                ));
                assert(s@.subrange(t as int, i as int).push(s@[i as int]) =~= s@.subrange(
                    t as int,
                    i + 1,
                ));
            }
            i = i + 1;
        }
    }
    proof {
        lemma_split_from_tail(
            s@.subrange(i as int, n as int),
            pat@,
            s@.subrange(t as int, i as int),
        );
        assert(s@.subrange(t as int, i as int) + s@.subrange(i as int, n as int) =~= s@.subrange(
            t as int,
            n as int,
        ));
    }
    let tok = s.substring_char(t, n).to_owned();
    let ghost old_dv = out.deep_view();
    out.push(tok);
    proof {
        assert(out.deep_view() =~= old_dv + seq![s@.subrange(t as int, n as int)]);
    }
    out
}

/// Splits `s` on a single-character delimiter.
pub fn split_char_exec(s: &str, c: char) -> (r: Vec<String>)
    ensures
        r.deep_view() == split_by(s@, seq![c]),
{
    let n = s.unicode_len();
    let mut out: Vec<String> = Vec::new();
    proof {
        assert(s@.subrange(0, n as int) =~= s@);
        assert(s@.subrange(0, 0) =~= Seq::<char>::empty());
        assert(out.deep_view() =~= Seq::<Seq<char>>::empty());
        assert(Seq::<Seq<char>>::empty() + split_by(s@, seq![c]) =~= split_by(s@, seq![c]));
    }
    let mut i: usize = 0;
    let mut t: usize = 0;
    while i < n
        invariant
            n == s@.len(),
            t <= i <= n,
            split_by(s@, seq![c]) == out.deep_view() + split_from(
                s@.subrange(i as int, n as int),
                seq![c],
                s@.subrange(t as int, i as int),
            ),
        decreases n - i,
    {
        proof {
            assert(s@.subrange(i as int, n as int)[0] == s@[i as int]);
            assert(s@.subrange(i as int, n as int).subrange(0, 1) =~= seq![s@[i as int]]);
            assert(s@.subrange(i as int, n as int).subrange(1, (n - i) as int) =~= s@.subrange(
                i + 1,
                n as int,
            ));
        }
        if s.get_char(i) == c {
            proof {
                assert(matches_at(s@.subrange(i as int, n as int), 0, seq![c]));
            }
            let tok = s.substring_char(t, i).to_owned();
            let ghost old_dv = out.deep_view();
            out.push(tok);
            proof {
                assert(out.deep_view() =~= old_dv + seq![s@.subrange(t as int, i as int)]);
            }
            i = i + 1;
            t = i;
            proof {
                assert(s@.subrange(t as int, i as int) =~= Seq::<char>::empty());
            }
        } else {
            proof {
                if matches_at(s@.subrange(i as int, n as int), 0, seq![c]) {
                    assert(s@.subrange(i as int, n as int).subrange(0, 1)[0] == c);
                    assert(false);
                }
                assert(s@.subrange(t as int, i as int).push(s@[i as int]) =~= s@.subrange(
                    t as int,
                    i + 1,
                ));
            }
            i = i + 1;
        }
    }
    proof {
        assert(s@.subrange(i as int, n as int) =~= Seq::<char>::empty());
    }
    let tok = s.substring_char(t, n).to_owned();
    let ghost old_dv = out.deep_view();
    out.push(tok);
    proof {
        assert(out.deep_view() =~= old_dv + seq![s@.subrange(t as int, n as int)]);
    }
    out
}

/// `s` with leading occurrences of `c` removed.
pub open spec fn trim_left_char(s: Seq<char>, c: char) -> Seq<char>
    decreases s.len(),
{
    if s.len() > 0 && s[0] == c {
        trim_left_char(s.subrange(1, s.len() as int), c)
    } else {
        s
    }
}

/// `s` with trailing occurrences of `c` removed.
pub open spec fn trim_right_char(s: Seq<char>, c: char) -> Seq<char>
    decreases s.len(),
{
    if s.len() > 0 && s[s.len() - 1] == c {
        trim_right_char(s.drop_last(), c)
    } else {
        s
    }
}

/// `s` with occurrences of `c` removed from both ends.
pub open spec fn trim_char(s: Seq<char>, c: char) -> Seq<char> {
    trim_right_char(trim_left_char(s, c), c)
}

/// Trims the character `c` from both ends.
pub fn trim_char_str(s: &str, c: char) -> (r: String)
    ensures
        r@ == trim_char(s@, c),
{
    let n = s.unicode_len();
    proof {
        assert(s@.subrange(0, n as int) =~= s@);
    }
    let mut a: usize = 0;
    while a < n && s.get_char(a) == c
        invariant
            n == s@.len(),
            a <= n,
            trim_left_char(s@, c) == trim_left_char(s@.subrange(a as int, n as int), c),
        decreases n - a,
    {
        proof {
            assert(s@.subrange(a as int, n as int).subrange(1, (n - a) as int) =~= s@.subrange(
                a + 1,
                n as int,
            ));
        }
        a = a + 1;
    }
    proof {
        if a < n {
            assert(trim_left_char(s@.subrange(a as int, n as int), c) == s@.subrange(
                a as int,
                n as int,
            ));
        } else {
            assert(s@.subrange(a as int, n as int) =~= Seq::<char>::empty());
        }
    }
    let mut e: usize = n;
    while e > a && s.get_char(e - 1) == c
        invariant
            n == s@.len(),
            a <= e <= n,
            trim_left_char(s@, c) == s@.subrange(a as int, n as int),
            trim_right_char(s@.subrange(a as int, n as int), c) == trim_right_char(
                s@.subrange(a as int, e as int),
                c,
            ),
        decreases e,
    {
        proof {
            assert(s@.subrange(a as int, e as int).drop_last() =~= s@.subrange(
                a as int,
                e - 1,
            ));
        }
        e = e - 1;
    }
    proof {
        if e > a {
            assert(trim_right_char(s@.subrange(a as int, e as int), c) == s@.subrange(
                a as int,
                e as int,
            ));
        } else {
            assert(s@.subrange(a as int, e as int) =~= Seq::<char>::empty());
        }
    }
    s.substring_char(a, e).to_owned()
}

/// Numeric value of a decimal digit.
pub open spec fn digit_val(c: char) -> int {
    c as int - '0' as int
}

/// Every character is a decimal digit.
pub open spec fn all_digits(s: Seq<char>) -> bool {
    forall|j: int| 0 <= j < s.len() ==> is_digit(s[j])
}

/// Value of `s` read as a decimal numeral.
pub open spec fn dec_val(s: Seq<char>) -> int
    decreases s.len(),
{
    if s.len() == 0 {
        0
    } else {
        dec_val(s.drop_last()) * 10 + digit_val(s.last())
    }
}

proof fn lemma_dec_val_nonneg(s: Seq<char>)
    requires
        all_digits(s),
    ensures
        dec_val(s) >= 0,
    decreases s.len(),
{
    if s.len() > 0 {
        assert(all_digits(s.drop_last()));
        lemma_dec_val_nonneg(s.drop_last());
    }
}

proof fn lemma_dec_val_prefix(s: Seq<char>, i: int)
    requires
        all_digits(s),
        0 <= i <= s.len(),
    ensures
        dec_val(s.subrange(0, i)) <= dec_val(s),
    decreases s.len() - i,
{
    if i < s.len() {
        lemma_dec_val_prefix(s, i + 1);
        let p = s.subrange(0, i + 1);
        assert(p.drop_last() =~= s.subrange(0, i));
        assert(all_digits(s.subrange(0, i)));
        lemma_dec_val_nonneg(s.subrange(0, i));
        assert(dec_val(s.subrange(0, i)) <= dec_val(p));
    } else {
        assert(s.subrange(0, i) =~= s);
    }
}

/// The value `s` parses to as a `u32` decimal numeral (an optional plus sign,
/// then digits), or `None` where it does not parse.
pub open spec fn parse_u32_spec(s: Seq<char>) -> Option<u32> {
    let d = if s.len() >= 1 && s[0] == '+' {
        s.subrange(1, s.len() as int)
    } else {
        s
    };
    if d.len() >= 1 && all_digits(d) && dec_val(d) <= u32::MAX as int {
        Some(dec_val(d) as u32)
    } else {
        None
    }
}

/// Parses a `u32` decimal numeral.
pub fn parse_u32(s: &str) -> (r: Option<u32>)
    ensures
        r == parse_u32_spec(s@),
{
    let n = s.unicode_len();
    let start: usize = if n >= 1 && s.get_char(0) == '+' {
        1
    } else {
        0
    };
    let ghost d = if s@.len() >= 1 && s@[0] == '+' {
        s@.subrange(1, s@.len() as int)
    } else {
        s@
    };
    if n == start {
        return None;
    }
    let mut val: u64 = 0;
    let mut i: usize = start;
    while i < n
        invariant
            n == s@.len(),
            start <= 1,
            (start == 1) == (s@.len() >= 1 && s@[0] == '+'),
            d == if s@.len() >= 1 && s@[0] == '+' {
                s@.subrange(1, s@.len() as int)
            } else {
                s@
            },
            d.len() == n - start,
            start <= i <= n,
            forall|j: int| 0 <= j < i - start ==> is_digit(d[j]),
            val as int == dec_val(d.subrange(0, i - start)),
            val <= u32::MAX,
        decreases n - i,
    {
        let c = s.get_char(i);
        proof {
            assert(d[i - start] == s@[i as int]);
        }
        if !exec_is_digit(c) {
            assert(!all_digits(d));
            return None;
        }
        let dv: u64 = (c as u32) as u64 - ('0' as u32) as u64;
        proof {
            assert(d.subrange(0, i + 1 - start).drop_last() =~= d.subrange(0, i - start));
            assert(d.subrange(0, i + 1 - start).last() == d[i - start]);
        }
        val = val * 10 + dv;
        i = i + 1;
        if val > u32::MAX as u64 {
            proof {
                if all_digits(d) {
                    lemma_dec_val_prefix(d, i - start);
                }
            }
            return None;
        }
    }
    proof {
        assert(d.subrange(0, n - start) =~= d);
    }
    Some(val as u32)
}

/// Lower-case image of an ASCII character.
pub open spec fn lower_char(c: char) -> char {
    if 'A' <= c && c <= 'Z' {
        ((c as u8) + 32) as char
    } else {
        c
    }
}

/// `s` mapped to ASCII lower case.
pub open spec fn lower_seq(s: Seq<char>) -> Seq<char> {
    s.map(|_i: int, c: char| lower_char(c))
}

pub fn lower_char_exec(c: char) -> (r: char)
    ensures
        r == lower_char(c),
{
    if 'A' <= c && c <= 'Z' {
        ((c as u8) + 32) as char
    } else {
        c
    }
}

/// Whether the lower-cased `s` contains `p` (`p` given lower-case).
pub fn contains_ci(s: &str, p: &str) -> (r: bool)
    ensures
        r == contains_seq(lower_seq(s@), p@),
{
    let ns = s.unicode_len();
    let np = p.unicode_len();
    if np > ns {
        return false;
    }
    if np == 0 {
        proof {
            assert(lower_seq(s@).subrange(0, 0) =~= p@);
            assert(matches_at(lower_seq(s@), 0, p@));
        }
        return true;
    }
    let mut k: usize = 0;
    while k <= ns - np
        invariant
            ns == s@.len(),
            np == p@.len(),
            1 <= np <= ns,
            k <= ns - np + 1,
            forall|j: int| 0 <= j < k ==> !matches_at(lower_seq(s@), j, p@),
        decreases ns - k,
    {
        let mut i: usize = 0;
        let mut hit = true;
        while i < np
            invariant
                ns == s@.len(),
                np == p@.len(),
                k + np <= ns,
                i <= np,
                hit ==> forall|j: int| 0 <= j < i ==> lower_seq(s@)[k + j] == p@[j],
                !hit ==> !matches_at(lower_seq(s@), k as int, p@),
            decreases np - i,
        {
            if lower_char_exec(s.get_char(k + i)) != p.get_char(i) {
                proof {
                    assert(lower_seq(s@)[k + i] == lower_char(s@[k + i]));
                    assert(lower_seq(s@).subrange(k as int, k + np)[i as int] == lower_seq(
                        s@,
                    )[k + i]);
                }
                hit = false;
                i = np;
            } else {
                proof {
                    assert(lower_seq(s@)[k + i] == lower_char(s@[k + i]));
                }
                i = i + 1;
            }
        }
        if hit {
            proof {
                assert(lower_seq(s@).len() == s@.len());
                assert(lower_seq(s@).subrange(k as int, k + np) =~= p@);
                assert(matches_at(lower_seq(s@), k as int, p@));
            }
            return true;
        }
        k = k + 1;
    }
    proof {
        assert(forall|j: int| matches_at(lower_seq(s@), j, p@) ==> 0 <= j && j + np <= ns);
    }
    false
}

/// Whether the lower-cased `s` ends with `p` (`p` given lower-case).
pub fn ends_with_ci(s: &str, p: &str) -> (r: bool)
    ensures
        r == is_suffix_of(p@, lower_seq(s@)),
{
    let ns = s.unicode_len();
    let np = p.unicode_len();
    if np > ns {
        return false;
    }
    let mut i: usize = 0;
    while i < np
        invariant
            ns == s@.len(),
            np == p@.len(),
            np <= ns,
            i <= np,
            forall|j: int| 0 <= j < i ==> lower_seq(s@)[ns - np + j] == p@[j],
        decreases np - i,
    {
        proof {
            assert(lower_seq(s@)[ns - np + i] == lower_char(s@[ns - np + i]));
        }
        if lower_char_exec(s.get_char(ns - np + i)) != p.get_char(i) {
            proof {
                assert(lower_seq(s@).subrange(ns - np, ns as int)[i as int] == lower_seq(
                    s@,
                )[ns - np + i]);
            }
            return false;
        }
        i = i + 1;
    }
    proof {
        assert(lower_seq(s@).subrange(ns - np, ns as int) =~= p@);
    }
    true
}

/// The string begins with the `data:` scheme.
pub open spec fn is_data_uri(s: Seq<char>) -> bool {
    s.len() >= 5 && s[0] == 'd' && s[1] == 'a' && s[2] == 't' && s[3] == 'a' && s[4] == ':'
}

/// Whether `s` is a data URI (starts with the `data:` scheme).
pub fn is_data_uri_exec(s: &str) -> (r: bool)
    ensures
        r == is_data_uri(s@),
{
    let n = s.unicode_len();
    n >= 5 && s.get_char(0) == 'd' && s.get_char(1) == 'a' && s.get_char(2) == 't' && s.get_char(3)
        == 'a' && s.get_char(4) == ':'
}

} // verus!

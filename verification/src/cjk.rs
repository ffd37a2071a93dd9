//! CJK characters in text extracted from PDF files: watermark removal and a
//! plausibility test for extracted Chinese text.
use vstd::prelude::*;
use crate::text::{
    chars_of, is_whitespace, is_ws, lemma_trim_bounds, lemma_trim_of_trimmed, lemma_trim_shape,
    string_of, trim, trim_chars, trim_end, trim_start,
};

verus! {

/// Whether `c` lies in the CJK Unified Ideographs block U+4E00..=U+9FFF.
pub open spec fn cjk(c: char) -> bool {
    '\u{4e00}' <= c <= '\u{9fff}'
}

/// Check if a char is a CJK character.
pub fn is_cjk(c: char) -> (r: bool)
    ensures
        r == cjk(c),
{
    '\u{4e00}' <= c && c <= '\u{9fff}'
}

/// Whether the character at `i` survives watermark removal: it is not CJK,
/// or a neighbour of it is CJK.
pub open spec fn kept(s: Seq<char>, i: int) -> bool {
    ||| !cjk(s[i])
    ||| (i > 0 && cjk(s[i - 1]))
    ||| (i + 1 < s.len() && cjk(s[i + 1]))
}

/// The characters among the first `n` of `s` that survive watermark removal.
pub open spec fn kept_prefix(s: Seq<char>, n: int) -> Seq<char>
    decreases n,
{
    if n <= 0 {
        seq![]
    } else {
        let r = kept_prefix(s, n - 1);
        if kept(s, n - 1) {
            r.push(s[n - 1])
        } else {
            r
        }
    }
}

/// `s` without its isolated CJK characters.
pub open spec fn without_isolated_cjk(s: Seq<char>) -> Seq<char> {
    kept_prefix(s, s.len() as int)
}

/// A space or a tab.
pub open spec fn is_blank(c: char) -> bool {
    c == ' ' || c == '\t'
}

/// Left-to-right scan that turns each run of spaces and tabs into one space:
/// the output so far and whether the last character read was blank.
pub open spec fn collapse_scan(s: Seq<char>) -> (Seq<char>, bool)
    decreases s.len(),
{
    if s.len() == 0 {
        (seq![], false)
    } else {
        let (o, blank) = collapse_scan(s.drop_last());
        if is_blank(s.last()) {
            if blank {
                (o, true)
            } else {
                (o.push(' '), true)
            }
        } else {
            (o.push(s.last()), false)
        }
    }
}

/// `s` with every run of spaces and tabs replaced by a single space.
pub open spec fn collapse_blanks(s: Seq<char>) -> Seq<char> {
    collapse_scan(s).0
}

/// Whether `s` holds no tab and no two adjacent spaces.
pub open spec fn blanks_collapsed(s: Seq<char>) -> bool {
    &&& forall|i: int| 0 <= i < s.len() ==> #[trigger] s[i] != '\t'
    &&& forall|i: int| 0 <= i < s.len() - 1 ==> !(#[trigger] s[i] == ' ' && s[i + 1] == ' ')
}

/// The scan leaves no tab and no two adjacent spaces, and remembers whether
/// its output ends with a space.
proof fn lemma_collapse_scan(s: Seq<char>)
    ensures
        blanks_collapsed(collapse_scan(s).0),
        collapse_scan(s).1 <==> (collapse_scan(s).0.len() > 0 && collapse_scan(s).0.last()
            == ' '),
    decreases s.len(),
{
    if s.len() > 0 {
        lemma_collapse_scan(s.drop_last());
        let (o, blank) = collapse_scan(s.drop_last());
        let out = collapse_scan(s).0;
        if is_blank(s.last()) && !blank {
            assert forall|i: int| 0 <= i < out.len() - 1 implies !(#[trigger] out[i] == ' '
                && out[i + 1] == ' ') by {
                if i < o.len() - 1 {
                    assert(out[i] == o[i] && out[i + 1] == o[i + 1]);
                }
            }
        } else if !is_blank(s.last()) {
            assert forall|i: int| 0 <= i < out.len() - 1 implies !(#[trigger] out[i] == ' '
                && out[i + 1] == ' ') by {
                if i < o.len() - 1 {
                    assert(out[i] == o[i] && out[i + 1] == o[i + 1]);
                }
            }
        }
    }
}

/// What `remove_isolated_cjk` returns holds no tab, no two adjacent spaces,
/// and no leading or trailing whitespace.
pub proof fn lemma_watermark_free_shape(s: Seq<char>)
    ensures
        blanks_collapsed(watermark_free(s)),
        watermark_free(s).len() > 0 ==> !is_ws(watermark_free(s)[0]) && !is_ws(
            watermark_free(s).last(),
        ),
{
    let c = collapse_blanks(without_isolated_cjk(s));
    lemma_collapse_scan(without_isolated_cjk(s));
    lemma_trim_shape(c);
    let (a, b) = choose|a: int, b: int| 0 <= a <= b <= c.len() && trim(c) == c.subrange(a, b);
    let r = trim(c);
    assert forall|i: int| 0 <= i < r.len() implies #[trigger] r[i] != '\t' by {
        assert(r[i] == c[a + i]);
    }
    assert forall|i: int| 0 <= i < r.len() - 1 implies !(#[trigger] r[i] == ' ' && r[i + 1]
        == ' ') by {
        assert(r[i] == c[a + i] && r[i + 1] == c[a + i + 1]);
    }
}

/// What `remove_isolated_cjk` returns for `s`.
pub open spec fn watermark_free(s: Seq<char>) -> Seq<char> {
    trim(collapse_blanks(without_isolated_cjk(s)))
}

/// Whether every CJK character of `s` has a CJK neighbour, so that watermark
/// removal keeps all of `s`.
pub open spec fn cjk_paired(s: Seq<char>) -> bool {
    forall|j: int| 0 <= j < s.len() ==> kept(s, j)
}

/// In what survives of the first `n` characters, every CJK character but the
/// last has a CJK neighbour; the last one has a CJK neighbour before it, or
/// is `s[n - 1]` followed by the CJK character `s[n]`.
proof fn lemma_kept_prefix_paired(s: Seq<char>, n: int)
    requires
        0 <= n <= s.len(),
    ensures
        ({
            let r = kept_prefix(s, n);
            &&& forall|j: int|
                0 <= j < r.len() - 1 && cjk(#[trigger] r[j]) ==> (j > 0 && cjk(r[j - 1])) || cjk(
                    r[j + 1],
                )
            &&& r.len() > 0 && cjk(r.last()) ==> (r.len() > 1 && cjk(r[r.len() - 2])) || (n
                < s.len() && r.last() == s[n - 1] && cjk(s[n]))
            &&& n > 0 && kept(s, n - 1) ==> r.len() > 0 && r.last() == s[n - 1]
        }),
    decreases n,
{
    if n > 0 {
        lemma_kept_prefix_paired(s, n - 1);
        let r0 = kept_prefix(s, n - 1);
        let r = kept_prefix(s, n);
        let c = s[n - 1];
        if kept(s, n - 1) {
            assert(r == r0.push(c));
            assert forall|j: int| 0 <= j < r.len() - 1 && cjk(#[trigger] r[j]) implies (j > 0
                && cjk(r[j - 1])) || cjk(r[j + 1]) by {
                assert(r[j] == r0[j]);
                if j < r0.len() - 1 {
                    assert(r[j + 1] == r0[j + 1]);
                }
                if j > 0 {
                    assert(r[j - 1] == r0[j - 1]);
                }
            }
            if cjk(c) && n >= 2 && cjk(s[n - 2]) {
                assert(kept(s, n - 2));
                assert(r[r.len() - 2] == r0.last());
            }
        } else {
            assert(r == r0);
            if r0.len() > 0 && cjk(r0.last()) && !(r0.len() > 1 && cjk(r0[r0.len() - 2])) {
                assert(r0.last() == s[n - 2]);
                assert(kept(s, n - 1));
            }
        }
    }
}

/// What survives watermark removal has a CJK neighbour for each of its CJK
/// characters.
proof fn lemma_without_isolated_paired(s: Seq<char>)
    ensures
        cjk_paired(without_isolated_cjk(s)),
{
    lemma_kept_prefix_paired(s, s.len() as int);
    let r = without_isolated_cjk(s);
    assert forall|j: int| 0 <= j < r.len() implies kept(r, j) by {
        if cjk(r[j]) && j < r.len() - 1 {
            assert(cjk(r[j + 1]) || (j > 0 && cjk(r[j - 1])));
        }
    }
}

/// Where nothing is a watermark, removal keeps every character.
proof fn lemma_kept_prefix_all(s: Seq<char>, n: int)
    requires
        0 <= n <= s.len(),
        cjk_paired(s),
    ensures
        kept_prefix(s, n) == s.take(n),
    decreases n,
{
    if n > 0 {
        lemma_kept_prefix_all(s, n - 1);
        assert(kept(s, n - 1));
        assert(s.take(n - 1).push(s[n - 1]) =~= s.take(n));
    } else {
        assert(s.take(0) =~= Seq::<char>::empty());
    }
}

/// Collapsing blanks keeps each CJK character's CJK neighbour: the scan of
/// the first `m` characters of `t` has the shape of
/// `lemma_kept_prefix_paired`.
proof fn lemma_collapse_scan_paired(t: Seq<char>, m: int)
    requires
        0 <= m <= t.len(),
        cjk_paired(t),
    ensures
        ({
            let o = collapse_scan(t.take(m)).0;
            &&& forall|j: int|
                0 <= j < o.len() - 1 && cjk(#[trigger] o[j]) ==> (j > 0 && cjk(o[j - 1])) || cjk(
                    o[j + 1],
                )
            &&& o.len() > 0 && cjk(o.last()) ==> (o.len() > 1 && cjk(o[o.len() - 2])) || (m
                < t.len() && o.last() == t[m - 1] && cjk(t[m]))
            &&& m > 0 && !is_blank(t[m - 1]) ==> o.len() > 0 && o.last() == t[m - 1]
        }),
    decreases m,
{
    if m > 0 {
        lemma_collapse_scan_paired(t, m - 1);
        assert(t.take(m).drop_last() =~= t.take(m - 1));
        assert(t.take(m).last() == t[m - 1]);
        let o0 = collapse_scan(t.take(m - 1)).0;
        let o = collapse_scan(t.take(m)).0;
        let c = t[m - 1];
        if is_blank(c) {
            if o.len() > o0.len() {
                assert(o == o0.push(' '));
                assert forall|j: int| 0 <= j < o.len() - 1 && cjk(#[trigger] o[j]) implies (j > 0
                    && cjk(o[j - 1])) || cjk(o[j + 1]) by {
                    assert(o[j] == o0[j]);
                    if j < o0.len() - 1 {
                        assert(o[j + 1] == o0[j + 1]);
                    }
                    if j > 0 {
                        assert(o[j - 1] == o0[j - 1]);
                    }
                }
            } else {
                assert(o == o0);
            }
        } else {
            assert(o == o0.push(c));
            assert forall|j: int| 0 <= j < o.len() - 1 && cjk(#[trigger] o[j]) implies (j > 0
                && cjk(o[j - 1])) || cjk(o[j + 1]) by {
                assert(o[j] == o0[j]);
                if j < o0.len() - 1 {
                    assert(o[j + 1] == o0[j + 1]);
                }
                if j > 0 {
                    assert(o[j - 1] == o0[j - 1]);
                }
            }
            if cjk(c) {
                assert(kept(t, m - 1));
                if m >= 2 && cjk(t[m - 2]) {
                    assert(o[o.len() - 2] == o0.last());
                }
            }
        }
    } else {
        assert(t.take(0) =~= Seq::<char>::empty());
    }
}

/// Where no tab and no two adjacent spaces occur, collapsing blanks changes
/// nothing.
proof fn lemma_collapse_scan_collapsed(t: Seq<char>, m: int)
    requires
        0 <= m <= t.len(),
        blanks_collapsed(t),
    ensures
        collapse_scan(t.take(m)) == (t.take(m), m > 0 && t[m - 1] == ' '),
    decreases m,
{
    if m > 0 {
        lemma_collapse_scan_collapsed(t, m - 1);
        assert(t.take(m).drop_last() =~= t.take(m - 1));
        assert(t.take(m).last() == t[m - 1]);
        assert(t[m - 1] != '\t');
        if m >= 2 && t[m - 1] == ' ' {
            assert(!(t[m - 2] == ' ' && t[m - 1] == ' '));
        }
        assert(t.take(m - 1).push(t[m - 1]) =~= t.take(m));
    } else {
        assert(t.take(0) =~= Seq::<char>::empty());
    }
}

/// Removing watermarks twice removes nothing more than removing them once.
pub proof fn lemma_watermark_free_idempotent(s: Seq<char>)
    ensures
        watermark_free(watermark_free(s)) == watermark_free(s),
{
    let w0 = without_isolated_cjk(s);
    let c = collapse_blanks(w0);
    let w = watermark_free(s);
    // Every CJK character of `w` has a CJK neighbour.
    lemma_without_isolated_paired(s);
    lemma_collapse_scan_paired(w0, w0.len() as int);
    assert(w0.take(w0.len() as int) =~= w0);
    assert(cjk_paired(c)) by {
        assert forall|j: int| 0 <= j < c.len() implies kept(c, j) by {
            if cjk(c[j]) && j < c.len() - 1 {
                assert(cjk(c[j + 1]) || (j > 0 && cjk(c[j - 1])));
            }
        }
    }
    let (a, b) = lemma_trim_bounds(c);
    assert(cjk_paired(w)) by {
        assert forall|j: int| 0 <= j < w.len() implies kept(w, j) by {
            assert(w[j] == c[a + j]);
            assert(kept(c, a + j));
            if cjk(w[j]) {
                if a + j > 0 && cjk(c[a + j - 1]) {
                    if j == 0 {
                        assert(is_ws(c[a - 1]));
                    } else {
                        assert(w[j - 1] == c[a + j - 1]);
                    }
                } else {
                    if j + 1 >= w.len() {
                        assert(is_ws(c[b]));
                    } else {
                        assert(w[j + 1] == c[a + j + 1]);
                    }
                }
            }
        }
    }
    // So nothing of `w` is removed, nothing is collapsed, nothing is trimmed.
    lemma_kept_prefix_all(w, w.len() as int);
    assert(w.take(w.len() as int) =~= w);
    lemma_watermark_free_shape(s);
    lemma_collapse_scan_collapsed(w, w.len() as int);
    lemma_trim_of_trimmed(w);
}

/// Remove isolated single CJK chars (PDF watermarks) from a string.
/// Chars that are not adjacent to another CJK char are considered watermarks.
/// Runs of spaces and tabs then become one space, and the result is trimmed.
pub fn remove_isolated_cjk(s: &str) -> (r: String)
    ensures
        r@ == watermark_free(s@),
{
    let chars = chars_of(s);
    let kept = remove_isolated_cjk_chars(chars.as_slice());
    string_of(kept.as_slice())
}

/// `chars` without isolated CJK characters, with runs of spaces and tabs
/// collapsed to one space, and trimmed.
pub fn remove_isolated_cjk_chars(chars: &[char]) -> (r: Vec<char>)
    ensures
        r@ == watermark_free(chars@),
{
    let n = chars.len();
    let mut kept_chars: Vec<char> = Vec::new();
    let mut i: usize = 0;
    while i < n
        invariant
            0 <= i <= n,
            n == chars@.len(),
            kept_chars@ == kept_prefix(chars@, i as int),
        decreases n - i,
    {
        let c = chars[i];
        let prev_cjk = i > 0 && is_cjk(chars[i - 1]);
        let next_cjk = i + 1 < n && is_cjk(chars[i + 1]);
        if !is_cjk(c) || prev_cjk || next_cjk {
            kept_chars.push(c);
        }
        i = i + 1;
    }
    let m = kept_chars.len();
    let mut out: Vec<char> = Vec::new();
    let mut prev_space = false;
    let mut j: usize = 0;
    assert(kept_chars@.take(0) =~= Seq::<char>::empty());
    while j < m
        invariant
            0 <= j <= m,
            m == kept_chars@.len(),
            (out@, prev_space) == collapse_scan(kept_chars@.take(j as int)),
        decreases m - j,
    {
        let c = kept_chars[j];
        assert(kept_chars@.take(j + 1).drop_last() =~= kept_chars@.take(j as int));
        if c == ' ' || c == '\t' {
            if !prev_space {
                out.push(' ');
            }
            prev_space = true;
        } else {
            out.push(c);
            prev_space = false;
        }
        j = j + 1;
    }
    assert(kept_chars@.take(m as int) =~= kept_chars@);
    trim_chars(out.as_slice())
}

/// The characters of `s` that are not whitespace.
pub open spec fn non_whitespace(s: Seq<char>) -> Seq<char> {
    s.filter(|c: char| !is_ws(c))
}

/// The number of CJK characters in `s`.
pub open spec fn cjk_count(s: Seq<char>) -> nat {
    s.filter(|c: char| cjk(c)).len()
}

/// Each character adds one to the CJK count exactly when it lies in
/// U+4E00..=U+9FFF.
pub proof fn lemma_cjk_count_push(s: Seq<char>, c: char)
    ensures
        cjk_count(s.push(c)) == cjk_count(s) + if '\u{4e00}' <= c && c <= '\u{9fff}' {
            1int
        } else {
            0int
        },
{
    reveal_with_fuel(Seq::filter, 2);
    assert(s.push(c).drop_last() =~= s);
}

/// A text none of whose characters lies in U+4E00..=U+9FFF has no CJK
/// character; one all of whose characters do is all CJK.
proof fn lemma_cjk_count_extremes(t: Seq<char>)
    ensures
        (forall|i: int| 0 <= i < t.len() ==> !('\u{4e00}' <= #[trigger] t[i] && t[i] <= '\u{9fff}'))
            ==> cjk_count(t) == 0,
        (forall|i: int| 0 <= i < t.len() ==> '\u{4e00}' <= #[trigger] t[i] && t[i] <= '\u{9fff}')
            ==> cjk_count(t) == t.len(),
    decreases t.len(),
{
    if t.len() == 0 {
        reveal_with_fuel(Seq::filter, 1);
    } else {
        let u = t.drop_last();
        lemma_cjk_count_extremes(u);
        lemma_cjk_count_push(u, t.last());
        assert(u.push(t.last()) =~= t);
        assert(forall|i: int| 0 <= i < u.len() ==> u[i] == t[i]);
    }
}

/// A text with at least 50 visible characters of which none lies in
/// U+4E00..=U+9FFF does not look like a Chinese document; a text with at
/// least one visible character, all of whose characters lie there, does.
pub proof fn lemma_quality_follows_cjk_block(s: Seq<char>)
    ensures
        non_whitespace(s).len() >= 50 && (forall|i: int|
            0 <= i < s.len() ==> !('\u{4e00}' <= #[trigger] s[i] && s[i] <= '\u{9fff}'))
            ==> !quality_ok(s),
        non_whitespace(s).len() >= 1 && (forall|i: int|
            0 <= i < s.len() ==> '\u{4e00}' <= #[trigger] s[i] && s[i] <= '\u{9fff}')
            ==> quality_ok(s),
{
    let t = non_whitespace(s);
    let pred = |c: char| !is_ws(c);
    assert forall|i: int| 0 <= i < t.len() implies exists|j: int|
        0 <= j < s.len() && s[j] == #[trigger] t[i] by {
        assert(t.contains(t[i]));
        s.lemma_filter_contains_rev(pred, t[i]);
    }
    lemma_cjk_count_extremes(t);
    if non_whitespace(s).len() >= 1 && (forall|i: int|
        0 <= i < s.len() ==> '\u{4e00}' <= #[trigger] s[i] && s[i] <= '\u{9fff}') {
        assert forall|i: int| 0 <= i < t.len() implies '\u{4e00}' <= #[trigger] t[i] && t[i]
            <= '\u{9fff}' by {
            let j = choose|j: int| 0 <= j < s.len() && s[j] == t[i];
            assert('\u{4e00}' <= s[j] && s[j] <= '\u{9fff}');
        }
        assert(25 * t.len() > 2 * t.len());
    }
    if non_whitespace(s).len() >= 50 && (forall|i: int|
        0 <= i < s.len() ==> !('\u{4e00}' <= #[trigger] s[i] && s[i] <= '\u{9fff}')) {
        assert forall|i: int| 0 <= i < t.len() implies !('\u{4e00}' <= #[trigger] t[i] && t[i]
            <= '\u{9fff}') by {
            let j = choose|j: int| 0 <= j < s.len() && s[j] == t[i];
            assert(!('\u{4e00}' <= s[j] && s[j] <= '\u{9fff}'));
        }
    }
}

/// What `text_quality_ok` returns for `s`: false without any visible
/// character, true under 50 of them, and otherwise whether CJK characters
/// make up more than 8% (2/25) of them.
pub open spec fn quality_ok(s: Seq<char>) -> bool {
    let t = non_whitespace(s);
    if t.len() == 0 {
        false
    } else if t.len() < 50 {
        true
    } else {
        25 * cjk_count(t) > 2 * t.len()
    }
}

/// Returns true if the text looks like a legitimate Chinese document
/// (CJK chars make up >8% of non-whitespace content).
pub fn text_quality_ok(text: &str) -> (r: bool)
    ensures
        r == quality_ok(text@),
{
    let chars = chars_of(text);
    let n = chars.len();
    let mut visible: usize = 0;
    let mut cjk_visible: usize = 0;
    let mut i: usize = 0;
    assert(chars@.take(0) =~= Seq::<char>::empty());
    while i < n
        invariant
            0 <= i <= n,
            n == chars@.len(),
            visible as nat == non_whitespace(chars@.take(i as int)).len(),
            cjk_visible as nat == cjk_count(non_whitespace(chars@.take(i as int))),
            visible <= i,
        decreases n - i,
    {
        let c = chars[i];
        let ghost pre = chars@.take(i as int);
        assert(chars@.take(i + 1).drop_last() =~= pre);
        assert(chars@.take(i + 1).last() == c);
        proof {
            reveal_with_fuel(Seq::filter, 2);
        }
        if !is_whitespace(c) {
            assert(non_whitespace(chars@.take(i + 1)) == non_whitespace(pre).push(c));
            assert(non_whitespace(chars@.take(i + 1)).drop_last() =~= non_whitespace(pre));
            visible = visible + 1;
            if is_cjk(c) {
                cjk_visible = cjk_visible + 1;
            }
        } else {
            assert(non_whitespace(chars@.take(i + 1)) == non_whitespace(pre));
        }
        i = i + 1;
    }
    assert(chars@.take(n as int) =~= chars@);
    if visible == 0 {
        return false;
    }
    if visible < 50 {
        return true;
    }
    (cjk_visible as u128) * 25 > (visible as u128) * 2
}

} // verus!

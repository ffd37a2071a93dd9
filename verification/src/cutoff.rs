//! Admission cut-off tables: each data line of the text extracted from the
//! official PDF starts with a school code of five or more digits (possibly
//! after one watermark character), continues with the school name, and holds
//! the cut-off score as the first number between 300 and 700.
use vstd::prelude::*;
use vstd::string::StringExecFns;
use vstd::utf8::{decode_utf8, encode_utf8, is_char_boundary};
use crate::cjk::{remove_isolated_cjk_chars, watermark_free};
use crate::text::{
    byte_len,
    sub_vec,
    append_chars, chars_of, contains_chars, contains_seq, decimal, join, join_chars, lines,
    lines_of, parse_u32, parse_u32_chars, push_decimal, seqs_of, string_of, tokens_of, trim,
    trim_chars, ws_tokens,
};

verus! {

broadcast use vstd::utf8::encode_utf8_decode_utf8;

/// The pattern that finds the school code at the start of a line: one optional
/// CJK character (a watermark) and then five or more digits, captured.
pub const CODE_PATTERN: &'static str = r"^[\u{4e00}-\u{9fff}]?(\d{5,})";

/// The cut-off of one entry: a plain score, or a text such as "580分及以上"
/// where the source line says the cut-off is a score "and above".
#[derive(Debug, Clone, PartialEq, Eq)]
pub enum CutoffValue {
    Score(u32),
    Text(String),
}

/// Mathematical form of a [`CutoffValue`].
pub enum CutoffView {
    Score(u32),
    Text(Seq<char>),
}

impl View for CutoffValue {
    type V = CutoffView;

    open spec fn view(&self) -> CutoffView {
        match self {
            CutoffValue::Score(n) => CutoffView::Score(*n),
            CutoffValue::Text(s) => CutoffView::Text(s@),
        }
    }
}

/// One school (group) of the cut-off table.
#[derive(Debug, Clone)]
pub struct CutoffEntry {
    pub code: String,
    pub name: String,
    pub cutoff: CutoffValue,
}

/// Mathematical form of a [`CutoffEntry`].
pub struct CutoffEntryView {
    pub code: Seq<char>,
    pub name: Seq<char>,
    pub cutoff: CutoffView,
}

impl View for CutoffEntry {
    type V = CutoffEntryView;

    open spec fn view(&self) -> CutoffEntryView {
        CutoffEntryView { code: self.code@, name: self.name@, cutoff: self.cutoff@ }
    }
}

/// The views of a sequence of entries.
pub open spec fn entry_views(v: Seq<CutoffEntry>) -> Seq<CutoffEntryView> {
    v.map_values(|e: CutoffEntry| e@)
}

/// What the `regex` crate finds when it searches `text` for `pattern`: the
/// text of capture group 1 and the byte offset (into the UTF-8 encoding of
/// `text`) where the whole match ends, or `None` where the pattern does not
/// compile, does not match, or group 1 did not take part in the match.
pub uninterp spec fn regex_capture(pattern: Seq<char>, text: Seq<char>) -> Option<(Seq<char>, nat)>;

/// Searches `text` with `regex::Regex` built from `pattern` and returns the
/// text of group 1 and the end offset of the whole match. The contract ties
/// the result to the name `regex_capture`; of the regex engine it states only
/// what `regex::Match::end` documents for a `&str` haystack: the end offset
/// lies on a character boundary of `text`.
#[verifier::external_body]
fn first_capture_and_end(pattern: &str, text: &str) -> (r: Option<(String, usize)>)
    ensures
        match r {
            Some((group, end)) => {
                &&& regex_capture(pattern@, text@) == Some((group@, end as nat))
                &&& is_char_boundary(encode_utf8(text@), end as int)
            },
            None => regex_capture(pattern@, text@) is None,
        },
{
    let re = regex::Regex::new(pattern).ok()?;
    let caps = re.captures(text)?;
    let group = caps.get(1)?;
    let whole = caps.get(0)?;
    Some((group.as_str().to_string(), whole.end()))
}

/// The text of `line` after byte offset `end` of its UTF-8 encoding.
pub open spec fn text_after_byte(line: Seq<char>, end: nat) -> Seq<char> {
    decode_utf8(encode_utf8(line).subrange(end as int, encode_utf8(line).len() as int))
}

/// Whether token `t` reads as a score in the plausible range 300..=700.
pub open spec fn plausible_score(t: Seq<char>) -> bool {
    match parse_u32(t) {
        Some(n) => 300 <= n <= 700,
        None => false,
    }
}

/// Index of the first plausible score among `tokens[k..]`.
pub open spec fn first_score_from(tokens: Seq<Seq<char>>, k: int) -> Option<int>
    decreases tokens.len() - k,
{
    if k < 0 || k >= tokens.len() {
        None
    } else if plausible_score(tokens[k]) {
        Some(k)
    } else {
        first_score_from(tokens, k + 1)
    }
}

/// Whether token `t` reads as a whole number from 300 to 700.
pub open spec fn in_score_range(t: Seq<char>) -> bool {
    parse_u32(t) matches Some(n) && 300 <= n && n <= 700
}

/// The score of a line is the first token that reads as a number from 300 to
/// 700, and the name is made of the tokens before it only: every entry comes
/// from a token `k` in that range with no token before it in range, its name
/// is the tokens before `k` joined by spaces and freed of watermarks, and its
/// cut-off is that number (or that number "and above"); a line with no token
/// in range yields no entry.
pub proof fn lemma_score_is_first_in_range(line: Seq<char>, code: Seq<char>, after: Seq<char>)
    ensures
        ({
            let tokens = ws_tokens(trim(after));
            &&& entry_after_code(line, code, after) matches Some(e) ==> exists|k: int|
                #![trigger tokens[k]]
                0 <= k < tokens.len() && in_score_range(tokens[k]) && (forall|j: int|
                    0 <= j < k ==> !in_score_range(#[trigger] tokens[j])) && e.code == code
                    && e.name == watermark_free(join(tokens.take(k), seq![' '])) && (e.cutoff
                    == CutoffView::Score(parse_u32(tokens[k])->0) || e.cutoff == CutoffView::Text(
                    and_above(parse_u32(tokens[k])->0),
                ))
            &&& (forall|j: int| 0 <= j < tokens.len() ==> !in_score_range(#[trigger] tokens[j]))
                ==> entry_after_code(line, code, after) is None
        }),
{
    let tokens = ws_tokens(trim(after));
    lemma_first_score_is_first(tokens, 0);
    lemma_first_score_plausible(tokens, 0);
}

/// `first_score_from(tokens, k)` is the first index from `k` on whose token
/// is in range.
proof fn lemma_first_score_is_first(tokens: Seq<Seq<char>>, k: int)
    requires
        0 <= k,
    ensures
        first_score_from(tokens, k) matches Some(i) ==> k <= i < tokens.len() && in_score_range(
            tokens[i],
        ) && forall|j: int| k <= j < i ==> !in_score_range(#[trigger] tokens[j]),
        first_score_from(tokens, k) is None ==> forall|j: int|
            k <= j < tokens.len() ==> !in_score_range(#[trigger] tokens[j]),
    decreases tokens.len() - k,
{
    if k < tokens.len() {
        lemma_first_score_is_first(tokens, k + 1);
    }
}

/// The cut-off text for a line that says "以上" (and above).
pub open spec fn and_above(score: u32) -> Seq<char> {
    decimal(score as nat) + "分及以上"@
}

/// The entry for a trimmed data line `line` whose code pattern matched with
/// group `code`, `after` being the text after the match.
pub open spec fn entry_after_code(line: Seq<char>, code: Seq<char>, after: Seq<char>) -> Option<
    CutoffEntryView,
> {
    let tokens = ws_tokens(trim(after));
    match first_score_from(tokens, 0) {
        None => None,
        Some(k) => {
            let score = parse_u32(tokens[k])->0;
            let name = watermark_free(join(tokens.take(k), seq![' ']));
            if name.len() == 0 {
                None
            } else {
                Some(
                    CutoffEntryView {
                        code,
                        name,
                        cutoff: if contains_seq(line, "以上"@) {
                            CutoffView::Text(and_above(score))
                        } else {
                            CutoffView::Score(score)
                        },
                    },
                )
            }
        },
    }
}

/// The entry that line `raw` of the extracted text yields, if any.
pub open spec fn entry_of_line(raw: Seq<char>) -> Option<CutoffEntryView> {
    let line = trim(raw);
    if byte_len(line) < 8 {
        None
    } else {
        match regex_capture(CODE_PATTERN@, line) {
            None => None,
            Some((code, end)) => entry_after_code(line, code, text_after_byte(line, end)),
        }
    }
}

/// The index that `first_score_from` finds holds a plausible score.
proof fn lemma_first_score_plausible(tokens: Seq<Seq<char>>, k: int)
    ensures
        first_score_from(tokens, k) matches Some(j) ==> 0 <= j < tokens.len() && plausible_score(
            tokens[j],
        ),
    decreases tokens.len() - k,
{
    if 0 <= k < tokens.len() && !plausible_score(tokens[k]) {
        lemma_first_score_plausible(tokens, k + 1);
    }
}

/// Every entry that a line yields has a non-empty name and a cut-off score
/// between 300 and 700: a plain score, or that score followed by 分及以上.
pub proof fn lemma_entry_shape(raw: Seq<char>)
    ensures
        entry_of_line(raw) matches Some(e) ==> {
            &&& e.name.len() > 0
            &&& match e.cutoff {
                CutoffView::Score(n) => 300 <= n <= 700,
                CutoffView::Text(t) => exists|n: u32| 300 <= n <= 700 && t == and_above(n),
            }
        },
{
    let line = trim(raw);
    match regex_capture(CODE_PATTERN@, line) {
        Some((code, end)) => {
            let tokens = ws_tokens(trim(text_after_byte(line, end)));
            lemma_first_score_plausible(tokens, 0);
        },
        None => {},
    }
}

/// The entries that the lines `ls` yield, in order.
pub open spec fn entries_of_lines(ls: Seq<Seq<char>>) -> Seq<CutoffEntryView>
    decreases ls.len(),
{
    if ls.len() == 0 {
        seq![]
    } else {
        let r = entries_of_lines(ls.drop_last());
        match entry_of_line(ls.last()) {
            Some(e) => r.push(e),
            None => r,
        }
    }
}

/// Copy of `v`.
fn copy_chars(v: &[char]) -> (r: Vec<char>)
    ensures
        r@ == v@,
{
    let r = sub_vec(v, 0, v.len());
    assert(v@.subrange(0, v@.len() as int) =~= v@);
    r
}

/// Index and value of the first token that reads as a score in 300..=700.
pub fn first_score_index(tokens: &Vec<Vec<char>>) -> (r: Option<(usize, u32)>)
    ensures
        match r {
            Some((k, n)) => first_score_from(seqs_of(tokens@), 0) == Some(k as int)
                && k < tokens@.len() && parse_u32(tokens@[k as int]@) == Some(n)
                && 300 <= n <= 700
                && forall|j: int| 0 <= j < k ==> !in_score_range(#[trigger] tokens@[j]@),
            None => first_score_from(seqs_of(tokens@), 0) is None
                && forall|j: int| 0 <= j < tokens@.len() ==> !in_score_range(#[trigger] tokens@[j]@),
        },
{
    let ghost tv = seqs_of(tokens@);
    let mut k: usize = 0;
    while k < tokens.len()
        invariant
            0 <= k <= tokens@.len(),
            tv == seqs_of(tokens@),
            first_score_from(tv, 0) == first_score_from(tv, k as int),
            forall|j: int| 0 <= j < k ==> !in_score_range(#[trigger] tokens@[j]@),
        decreases tokens@.len() - k,
    {
        assert(tv[k as int] == tokens@[k as int]@);
        match parse_u32_chars(tokens[k].as_slice()) {
            Some(n) => {
                if 300 <= n && n <= 700 {
                    return Some((k, n));
                }
            },
            None => {},
        }
        k = k + 1;
    }
    None
}

/// The entry of a trimmed data line `line` whose code pattern matched with
/// group `code`, `after` being the text after the match: the name is the
/// tokens before the first score in 300..=700, joined by spaces and freed of
/// watermark characters; there is no entry without such a score or with an
/// empty name.
pub fn entry_from_capture(line: &[char], code: String, after: &str) -> (r: Option<CutoffEntry>)
    ensures
        match r {
            Some(e) => entry_after_code(line@, code@, after@) == Some(e@),
            None => entry_after_code(line@, code@, after@) is None,
        },
{
    let after_chars = chars_of(after);
    let rest = trim_chars(after_chars.as_slice());
    let tokens = tokens_of(rest.as_slice());
    let ghost tv = seqs_of(tokens@);
    let (k, score) = match first_score_index(&tokens) {
        Some(found) => found,
        None => {
            return None;
        },
    };
    let mut name_tokens: Vec<Vec<char>> = Vec::new();
    let mut t: usize = 0;
    while t < k
        invariant
            0 <= t <= k < tokens@.len(),
            seqs_of(name_tokens@) == seqs_of(tokens@).take(t as int),
        decreases k - t,
    {
        let ghost before = name_tokens@;
        name_tokens.push(copy_chars(tokens[t].as_slice()));
        assert(seqs_of(name_tokens@) =~= seqs_of(before).push(tokens@[t as int]@));
        assert(seqs_of(tokens@).take(t + 1) =~= seqs_of(tokens@).take(t as int).push(
            tokens@[t as int]@,
        ));
        t = t + 1;
        assert(seqs_of(name_tokens@) =~= seqs_of(tokens@).take(t as int));
    }
    let space = [' '];
    assert(space@ =~= seq![' ']);
    let raw_name = join_chars(&name_tokens, &space);
    let name = remove_isolated_cjk_chars(raw_name.as_slice());
    if name.len() == 0 {
        return None;
    }
    let needle = chars_of("以上");
    let cutoff = if contains_chars(line, needle.as_slice()) {
        let mut label: Vec<char> = Vec::new();
        push_decimal(&mut label, score as u64);
        let suffix = chars_of("分及以上");
        append_chars(&mut label, suffix.as_slice());
        CutoffValue::Text(string_of(label.as_slice()))
    } else {
        CutoffValue::Score(score)
    };
    Some(CutoffEntry { code, name: string_of(name.as_slice()), cutoff })
}

/// The entry that one line of extracted text yields, if any.
pub fn entry_from_line(raw: &[char]) -> (r: Option<CutoffEntry>)
    ensures
        match r {
            Some(e) => entry_of_line(raw@) == Some(e@),
            None => entry_of_line(raw@) is None,
        },
{
    let line = trim_chars(raw);
    let line_text = string_of(line.as_slice());
    if line_text.as_str().len() < 8 {
        return None;
    }
    match first_capture_and_end(CODE_PATTERN, line_text.as_str()) {
        None => None,
        Some((code, end)) => {
            let (_, after) = line_text.as_str().split_at(end);
            entry_from_capture(line.as_slice(), code, after)
        },
    }
}

/// A text yields at most one entry per line.
pub proof fn lemma_at_most_one_entry_per_line(ls: Seq<Seq<char>>)
    ensures
        entries_of_lines(ls).len() <= ls.len(),
    decreases ls.len(),
{
    if ls.len() > 0 {
        lemma_at_most_one_entry_per_line(ls.drop_last());
    }
}

/// Lines are read independently: the entries of two runs of lines are the
/// entries of the first run followed by those of the second.
pub proof fn lemma_entries_of_lines_append(ls1: Seq<Seq<char>>, ls2: Seq<Seq<char>>)
    ensures
        entries_of_lines(ls1 + ls2) == entries_of_lines(ls1) + entries_of_lines(ls2),
    decreases ls2.len(),
{
    if ls2.len() == 0 {
        assert(ls1 + ls2 =~= ls1);
        assert(entries_of_lines(ls1) + Seq::<CutoffEntryView>::empty() =~= entries_of_lines(ls1));
    } else {
        assert((ls1 + ls2).drop_last() =~= ls1 + ls2.drop_last());
        assert((ls1 + ls2).last() == ls2.last());
        lemma_entries_of_lines_append(ls1, ls2.drop_last());
        match entry_of_line(ls2.last()) {
            Some(e) => {
                assert((entries_of_lines(ls1) + entries_of_lines(ls2.drop_last())).push(e)
                    =~= entries_of_lines(ls1) + entries_of_lines(ls2.drop_last()).push(e));
            },
            None => {},
        }
    }
}

/// Parse PDF text to extract cutoff data.
/// Handles watermark single-chars mixed into data lines.
pub fn parse_cutoff_lines(text: &str, _year: u32, _province: &str) -> (r: Vec<CutoffEntry>)
    ensures
        entry_views(r@) == entries_of_lines(lines(text@)),
{
    let chars = chars_of(text);
    let all_lines = lines_of(chars.as_slice());
    let ghost ls = seqs_of(all_lines@);
    let mut entries: Vec<CutoffEntry> = Vec::new();
    let mut i: usize = 0;
    assert(ls.take(0) =~= Seq::<Seq<char>>::empty());
    while i < all_lines.len()
        invariant
            0 <= i <= all_lines@.len(),
            ls == seqs_of(all_lines@),
            ls == lines(text@),
            entry_views(entries@) == entries_of_lines(ls.take(i as int)),
        decreases all_lines@.len() - i,
    {
        assert(ls.take(i + 1).drop_last() =~= ls.take(i as int));
        assert(ls.take(i + 1).last() == all_lines@[i as int]@);
        match entry_from_line(all_lines[i].as_slice()) {
            Some(e) => {
                let ghost before = entries@;
                entries.push(e);
                assert(entry_views(entries@) =~= entry_views(before).push(e@));
            },
            None => {},
        }
        i = i + 1;
    }
    assert(ls.take(all_lines@.len() as int) =~= ls);
    entries
}


/// The note that every imported table carries.
pub open spec fn import_note() -> Seq<char> {
    "580分及以上考生投档信息另行告知；部分院校Q组、中外合作办学院校专业组投档结果另行公布"@
}

/// A cut-off table imported from a PDF file.
#[derive(Debug, Clone)]
pub struct CutoffData {
    pub title: String,
    pub year: u32,
    pub province: String,
    pub note: Option<String>,
    pub data: Vec<CutoffEntry>,
    /// First ~3000 chars of raw extracted text, for debugging
    pub raw_text_sample: Option<String>,
    /// Set when text extraction succeeded but parsing found 0 entries
    pub parse_warning: Option<String>,
}

/// The title of the table for `year` and `province`.
pub open spec fn table_title(year: u32, province: Seq<char>) -> Seq<char> {
    decimal(year as nat) + "年"@ + province + "普通高校招生本科普通批次平行志愿院校专业组投档分数线"@
}

/// The last character boundary of `bytes` at or below byte offset `k`.
pub open spec fn floor_boundary(bytes: Seq<u8>, k: nat) -> nat
    decreases k,
{
    if k == 0 || is_char_boundary(bytes, k as int) {
        k
    } else {
        floor_boundary(bytes, (k - 1) as nat)
    }
}

/// The sample of the extracted text kept with the table: the text itself, or
/// its first 3000 bytes (cut back to the last character boundary at or below
/// byte 3000) followed by its length in bytes.
pub open spec fn raw_sample(text: Seq<char>) -> Seq<char> {
    if byte_len(text) > 3000 {
        decode_utf8(encode_utf8(text).subrange(0, floor_boundary(encode_utf8(text), 3000) as int))
            + "…（共"@ + decimal(byte_len(text) as nat) + "字符）"@
    } else {
        text
    }
}

/// The warning for a text of which no line yields an entry.
pub open spec fn empty_table_warning(text: Seq<char>) -> Seq<char> {
    "提取到 "@ + decimal(lines(text).len()) + " 行文本，但未匹配到任何分数线记录。请检查原始文本是否包含院校代码列。"@
}

/// The table built from the text extracted from a PDF file, for `year`
/// (2025 when absent) and `province` (上海 when absent).
pub fn cutoff_data_from_text(text: &str, year: Option<u32>, province: Option<String>) -> (r:
    CutoffData)
    ensures
        r.year == match year {
            Some(y) => y,
            None => 2025,
        },
        r.province@ == match province {
            Some(p) => p@,
            None => "上海"@,
        },
        r.title@ == table_title(r.year, r.province@),
        r.note matches Some(n) && n@ == import_note(),
        entry_views(r.data@) == entries_of_lines(lines(text@)),
        r.raw_text_sample matches Some(sample) && sample@ == raw_sample(text@),
        r.data@.len() == 0 ==> (r.parse_warning matches Some(w) && w@ == empty_table_warning(
            text@,
        )),
        r.data@.len() > 0 ==> r.parse_warning is None,
{
    let year_val: u32 = match year {
        Some(y) => y,
        None => 2025,
    };
    let province_val: String = match province {
        Some(p) => p,
        None => String::from_str("上海"),
    };
    let data = parse_cutoff_lines(text, year_val, province_val.as_str());
    let chars = chars_of(text);
    let n_bytes = text.len();
    let raw_sample_text = if n_bytes > 3000 {
        let ghost bytes = encode_utf8(text@);
        let mut cut: usize = 3000;
        while cut > 0 && !text.is_char_boundary(cut)
            invariant
                cut <= 3000,
                bytes == encode_utf8(text@),
                floor_boundary(bytes, cut as nat) == floor_boundary(bytes, 3000),
            decreases cut,
        {
            cut = cut - 1;
        }
        assert(floor_boundary(bytes, cut as nat) == cut);
        assert(is_char_boundary(bytes, cut as int)) by {
            broadcast use vstd::utf8::encode_utf8_valid_utf8;
        }
        let (head, _) = text.split_at(cut);
        let mut sample = chars_of(head);
        let open = chars_of("…（共");
        append_chars(&mut sample, open.as_slice());
        push_decimal(&mut sample, n_bytes as u64);
        let close = chars_of("字符）");
        append_chars(&mut sample, close.as_slice());
        string_of(sample.as_slice())
    } else {
        string_of(chars.as_slice())
    };
    let parse_warning = if data.len() == 0 {
        let all_lines = lines_of(chars.as_slice());
        let mut w = chars_of("提取到 ");
        push_decimal(&mut w, all_lines.len() as u64);
        let tail = chars_of(" 行文本，但未匹配到任何分数线记录。请检查原始文本是否包含院校代码列。");
        append_chars(&mut w, tail.as_slice());
        Some(string_of(w.as_slice()))
    } else {
        None
    };
    let mut title = Vec::new();
    push_decimal(&mut title, year_val as u64);
    let nian = chars_of("年");
    append_chars(&mut title, nian.as_slice());
    let prov_chars = chars_of(province_val.as_str());
    append_chars(&mut title, prov_chars.as_slice());
    let rest = chars_of("普通高校招生本科普通批次平行志愿院校专业组投档分数线");
    append_chars(&mut title, rest.as_slice());
    CutoffData {
        title: string_of(title.as_slice()),
        year: year_val,
        province: province_val,
        note: Some(
            String::from_str(
                "580分及以上考生投档信息另行告知；部分院校Q组、中外合作办学院校专业组投档结果另行公布",
            ),
        ),
        data,
        raw_text_sample: Some(raw_sample_text),
        parse_warning,
    }
}

} // verus!

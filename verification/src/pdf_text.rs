//! Text extraction from the content streams of PDF pages, for PDF files whose
//! fonts carry ToUnicode CMaps (CIDFont / Identity-H, common in official
//! Chinese documents), with GBK as the fallback for raw string bytes.
use vstd::prelude::*;
use vstd::string::StringExecFns;
use crate::cmap::{cmap_of, decode_bytes, decode_with_cmap, parse_cmap, CMap};
use crate::text::{
    append_chars, chars_eq, chars_of, from_utf8_lossy, string_of, trim, trim_chars, utf8_lossy,
};

verus! {

/// What `encoding_rs::GBK.decode` makes of `bytes` (with its BOM sniffing):
/// the decoded text and whether malformed sequences were replaced.
pub uninterp spec fn gbk_decode(bytes: Seq<u8>) -> (Seq<char>, bool);

/// `encoding_rs::GBK.decode`: the decoded text and whether there were
/// malformed sequences. The contract names the result; the GBK tables are
/// not stated. The length bound keeps the buffer size computation, which
/// panics on overflow, in range.
#[verifier::external_body]
fn decode_gbk(bytes: &[u8]) -> (r: (String, bool))
    requires
        bytes@.len() <= usize::MAX / 4,
    ensures
        (r.0@, r.1) == gbk_decode(bytes@),
{
    let (text, _, had_errors) = encoding_rs::GBK.decode(bytes);
    (text.into_owned(), had_errors)
}

/// Whether some byte of `bytes` is above 0x7F.
pub open spec fn has_high_byte(bytes: Seq<u8>) -> bool {
    exists|i: int| 0 <= i < bytes.len() && #[trigger] bytes[i] > 0x7F
}

/// The text of raw PDF string bytes: their GBK decoding when some byte is
/// above 0x7F and GBK decodes them without error, else their lossy UTF-8
/// decoding.
pub open spec fn pdf_string_text(bytes: Seq<u8>) -> Seq<char> {
    if has_high_byte(bytes) && !gbk_decode(bytes).1 {
        gbk_decode(bytes).0
    } else {
        utf8_lossy(bytes)
    }
}

/// Decode PDF string bytes: try GBK for high-byte sequences, else UTF-8 lossy.
pub fn push_pdf_string(out: &mut String, bytes: &[u8])
    requires
        bytes@.len() <= usize::MAX / 4,
    ensures
        final(out)@ == old(out)@ + pdf_string_text(bytes@),
{
    let mut piece: Vec<char> = Vec::new();
    push_pdf_chars(&mut piece, bytes);
    let text = string_of(piece.as_slice());
    out.append(text.as_str());
    assert(Seq::<char>::empty() + pdf_string_text(bytes@) =~= pdf_string_text(bytes@));
}

/// Appends the text of raw PDF string bytes to `out`.
fn push_pdf_chars(out: &mut Vec<char>, bytes: &[u8])
    requires
        bytes@.len() <= usize::MAX / 4,
    ensures
        final(out)@ == old(out)@ + pdf_string_text(bytes@),
{
    let mut high = false;
    let mut i: usize = 0;
    while i < bytes.len()
        invariant
            0 <= i <= bytes@.len(),
            high == exists|k: int| 0 <= k < i && #[trigger] bytes@[k] > 0x7F,
        decreases bytes@.len() - i,
    {
        if bytes[i] > 0x7F {
            high = true;
        }
        i = i + 1;
    }
    if high {
        let (text, had_errors) = decode_gbk(bytes);
        if !had_errors {
            let piece = chars_of(text.as_str());
            append_chars(out, piece.as_slice());
            return;
        }
    }
    let text = from_utf8_lossy(bytes);
    let piece = chars_of(text.as_str());
    append_chars(out, piece.as_slice());
}

/// The first operand of a content-stream operation, as far as text
/// extraction reads it: a name, a string, an array (its string items, other
/// items being `None`), or anything else.
pub enum PdfOperand {
    Name(Vec<u8>),
    Str(Vec<u8>),
    Array(Vec<Option<Vec<u8>>>),
    Other,
}

/// A content-stream operation: its operator and its first operand, if any.
pub struct PdfOp {
    pub operator: String,
    pub operand: Option<PdfOperand>,
}

/// A font of a page: its resource name and, where its ToUnicode entry leads
/// to a stream whose content decompresses, that content.
pub struct PageFont {
    pub name: Vec<u8>,
    pub to_unicode: Option<Vec<u8>>,
}

/// A page: its fonts in dictionary order, and its decoded content-stream
/// operations (`None` where the content cannot be read or decoded).
pub struct PdfPage {
    pub fonts: Vec<PageFont>,
    pub ops: Option<Vec<PdfOp>>,
}

/// A page as read from the document: its fonts in dictionary order, and the
/// bytes of its content streams.
pub struct PageSource {
    pub fonts: Vec<PageFont>,
    pub content: Vec<u8>,
}

/// Mathematical form of a [`PdfOperand`].
pub enum OperandView {
    Name(Seq<u8>),
    Str(Seq<u8>),
    Array(Seq<Option<Seq<u8>>>),
    Other,
}

/// The byte strings of the items of an array operand.
pub open spec fn item_views(items: Seq<Option<Vec<u8>>>) -> Seq<Option<Seq<u8>>> {
    items.map_values(
        |i: Option<Vec<u8>>|
            match i {
                Some(b) => Some(b@),
                None => None,
            },
    )
}

impl View for PdfOperand {
    type V = OperandView;

    open spec fn view(&self) -> OperandView {
        match self {
            PdfOperand::Name(n) => OperandView::Name(n@),
            PdfOperand::Str(b) => OperandView::Str(b@),
            PdfOperand::Array(items) => OperandView::Array(item_views(items@)),
            PdfOperand::Other => OperandView::Other,
        }
    }
}

/// Mathematical form of a [`PdfOp`].
pub struct PdfOpView {
    pub operator: Seq<char>,
    pub operand: Option<OperandView>,
}

impl View for PdfOp {
    type V = PdfOpView;

    open spec fn view(&self) -> PdfOpView {
        PdfOpView {
            operator: self.operator@,
            operand: match self.operand {
                Some(o) => Some(o@),
                None => None,
            },
        }
    }
}

/// The views of a sequence of operations.
pub open spec fn op_views(ops: Seq<PdfOp>) -> Seq<PdfOpView> {
    ops.map_values(|o: PdfOp| o@)
}

/// What `lopdf::content::Content::decode` reads from content-stream bytes:
/// each operation's operator and first operand, or `None` where the bytes do
/// not decode.
pub uninterp spec fn content_operations(bytes: Seq<u8>) -> Option<Seq<PdfOpView>>;

/// Whether every string that `op` carries has at most `n` bytes.
pub open spec fn op_within(op: PdfOpView, n: nat) -> bool {
    match op.operand {
        Some(OperandView::Str(b)) => b.len() <= n,
        Some(OperandView::Array(items)) => forall|j: int|
            0 <= j < items.len() ==> (#[trigger] items[j] matches Some(b) ==> b.len() <= n),
        _ => true,
    }
}

/// `lopdf::content::Content::decode` on a page's content bytes, each
/// operation converted to its operator and first operand. The contract names
/// the result, and states what lopdf's string parsers show: a literal or
/// hexadecimal string takes at least one byte of input per byte it yields,
/// so no string is longer than the content.
#[verifier::external_body]
pub fn decode_content(bytes: &[u8]) -> (r: Option<Vec<PdfOp>>)
    ensures
        match r {
            Some(ops) => content_operations(bytes@) == Some(op_views(ops@)) && forall|i: int|
                0 <= i < ops@.len() ==> op_within(#[trigger] ops@[i]@, bytes@.len()),
            None => content_operations(bytes@) is None,
        },
{
    let content = lopdf::content::Content::decode(bytes).ok()?;
    Some(content.operations.into_iter().map(|op| PdfOp {
        operand: op.operands.into_iter().next().map(|o| match o {
            lopdf::Object::Name(n) => PdfOperand::Name(n),
            lopdf::Object::String(b, _) => PdfOperand::Str(b),
            lopdf::Object::Array(items) => PdfOperand::Array(items.into_iter().map(|i| match i {
                lopdf::Object::String(b, _) => Some(b),
                _ => None,
            }).collect()),
            _ => PdfOperand::Other,
        }),
        operator: op.operator,
    }).collect())
}

/// Whether every string that `op` carries is small enough to decode.
pub open spec fn op_fits(op: PdfOpView) -> bool {
    op_within(op, (usize::MAX / 4) as nat)
}

/// Whether every string of every page is small enough to decode.
pub open spec fn pages_fit(pages: Seq<PdfPage>) -> bool {
    forall|p: int|
        0 <= p < pages.len() ==> (#[trigger] pages[p].ops matches Some(ops) ==> forall|i: int|
            0 <= i < ops@.len() ==> op_fits(#[trigger] ops@[i]@))
}

/// The font table of a page: for each font whose ToUnicode CMap reads to a
/// non-empty mapping, its name (lossy UTF-8) and that mapping, in order;
/// `None` where reading a CMap panics.
pub open spec fn font_table(fonts: Seq<PageFont>) -> Option<
    Seq<(Seq<char>, Map<Seq<u8>, Seq<char>>)>,
>
    decreases fonts.len(),
{
    if fonts.len() == 0 {
        Some(seq![])
    } else {
        match font_table(fonts.drop_last()) {
            None => None,
            Some(t) => match fonts.last().to_unicode {
                None => Some(t),
                Some(data) => match cmap_of(data@) {
                    None => None,
                    Some(c) => if c == Map::<Seq<u8>, Seq<char>>::empty() {
                        Some(t)
                    } else {
                        Some(t.push((utf8_lossy(fonts.last().name@), c)))
                    },
                },
            },
        }
    }
}

/// The mapping of the last font in `t` named `name`.
pub open spec fn font_lookup(t: Seq<(Seq<char>, Map<Seq<u8>, Seq<char>>)>, name: Seq<char>) -> Option<
    Map<Seq<u8>, Seq<char>>,
>
    decreases t.len(),
{
    if t.len() == 0 {
        None
    } else if t.last().0 == name {
        Some(t.last().1)
    } else {
        font_lookup(t.drop_last(), name)
    }
}

/// The text that string bytes show in the current font.
pub open spec fn shown_text(
    bytes: Seq<u8>,
    font: Option<Seq<char>>,
    t: Seq<(Seq<char>, Map<Seq<u8>, Seq<char>>)>,
) -> Seq<char> {
    match font {
        Some(f) => match font_lookup(t, f) {
            Some(m) => decode_bytes(bytes, m),
            None => pdf_string_text(bytes),
        },
        None => pdf_string_text(bytes),
    }
}

/// The text of the string items of a `TJ` array.
pub open spec fn array_text(
    items: Seq<Option<Seq<u8>>>,
    font: Option<Seq<char>>,
    t: Seq<(Seq<char>, Map<Seq<u8>, Seq<char>>)>,
) -> Seq<char>
    decreases items.len(),
{
    if items.len() == 0 {
        seq![]
    } else {
        array_text(items.drop_last(), font, t) + match items.last() {
            Some(b) => shown_text(b, font, t),
            None => seq![],
        }
    }
}

/// State of reading a page's operations: the text so far, whether a text
/// object is open, and the current font.
pub struct TextState {
    pub text: Seq<char>,
    pub in_text: bool,
    pub font: Option<Seq<char>>,
}

/// The operators that text extraction acts on.
pub enum OpKind {
    BeginText,
    EndText,
    NextLine,
    SetFont,
    ShowText,
    ShowArray,
    Ignored,
}

/// The kind of operator `o`.
pub open spec fn op_kind(o: Seq<char>) -> OpKind {
    if o == "BT"@ {
        OpKind::BeginText
    } else if o == "ET"@ {
        OpKind::EndText
    } else if o == "Td"@ || o == "TD"@ || o == "T*"@ {
        OpKind::NextLine
    } else if o == "Tf"@ {
        OpKind::SetFont
    } else if o == "Tj"@ || o == "'"@ {
        OpKind::ShowText
    } else if o == "TJ"@ {
        OpKind::ShowArray
    } else {
        OpKind::Ignored
    }
}

/// The state after operation `op`: `BT`/`ET` open and close a text object
/// (`ET` ending a line), `Td`/`TD`/`T*` end a line, and inside a text object
/// `Tf` sets the font and `Tj`, `'` and `TJ` show strings.
pub open spec fn op_step(
    st: TextState,
    op: PdfOpView,
    t: Seq<(Seq<char>, Map<Seq<u8>, Seq<char>>)>,
) -> TextState {
    match op_kind(op.operator) {
        OpKind::BeginText => TextState { in_text: true, ..st },
        OpKind::EndText => TextState { in_text: false, text: st.text.push('\n'), ..st },
        OpKind::NextLine => TextState { text: st.text.push('\n'), ..st },
        OpKind::SetFont => if st.in_text {
            match op.operand {
                Some(OperandView::Name(n)) => TextState { font: Some(utf8_lossy(n)), ..st },
                _ => st,
            }
        } else {
            st
        },
        OpKind::ShowText => if st.in_text {
            match op.operand {
                Some(OperandView::Str(b)) => TextState {
                    text: st.text + shown_text(b, st.font, t),
                    ..st
                },
                _ => st,
            }
        } else {
            st
        },
        OpKind::ShowArray => if st.in_text {
            match op.operand {
                Some(OperandView::Array(items)) => TextState {
                    text: st.text + array_text(items, st.font, t),
                    ..st
                },
                _ => st,
            }
        } else {
            st
        },
        OpKind::Ignored => st,
    }
}

/// Only `Tf` changes the current font: every other operation, `BT` and `ET`
/// included, keeps it, so text shown in a later text object is decoded with
/// the last font set. `Tf` inside a text object with a name operand sets the
/// font to that name; `BT` opens and `ET` closes a text object; no operation
/// but `BT`, `ET`, `Td`, `TD`, `T*`, `Tj`, `'` and `TJ` changes the text.
pub proof fn lemma_font_changes_only_at_tf(
    st: TextState,
    op: PdfOpView,
    t: Seq<(Seq<char>, Map<Seq<u8>, Seq<char>>)>,
)
    ensures
        op.operator != "Tf"@ ==> op_step(st, op, t).font == st.font,
        (op.operator == "Tf"@ && st.in_text) ==> (op.operand matches Some(OperandView::Name(n))
            ==> op_step(st, op, t).font == Some(utf8_lossy(n))),
        op.operator == "BT"@ ==> op_step(st, op, t).in_text && op_step(st, op, t).text == st.text,
        op.operator == "ET"@ ==> !op_step(st, op, t).in_text && op_step(st, op, t).text
            == st.text.push('\n'),
        op.operator != "BT"@ && op.operator != "ET"@ && op.operator != "Td"@ && op.operator
            != "TD"@ && op.operator != "T*"@ && op.operator != "Tj"@ && op.operator != "'"@
            && op.operator != "TJ"@ ==> op_step(st, op, t).text == st.text,
{
    reveal_strlit("Tf");
    reveal_strlit("BT");
    reveal_strlit("ET");
    reveal_strlit("Td");
    reveal_strlit("TD");
    reveal_strlit("T*");
    reveal_strlit("Tj");
    reveal_strlit("'");
    reveal_strlit("TJ");
    if op.operator == "Tf"@ {
        assert(op.operator[0] != "BT"@[0] || op.operator[1] != "BT"@[1]);
        assert(op.operator[0] != "ET"@[0]);
        assert(op.operator[1] != "Td"@[1]);
        assert(op.operator[1] != "TD"@[1]);
        assert(op.operator[1] != "T*"@[1]);
        assert(op_kind(op.operator) == OpKind::SetFont);
    }
    if op.operator == "ET"@ {
        assert(op.operator[0] != "BT"@[0]);
        assert(op_kind(op.operator) == OpKind::EndText);
    }
}

/// Over a run of operations, the font changes only at `Tf`: where none of
/// `ops` is a `Tf`, running them after `pre` leaves the font that `pre` set.
pub proof fn lemma_font_kept_without_tf(
    pre: Seq<PdfOpView>,
    ops: Seq<PdfOpView>,
    t: Seq<(Seq<char>, Map<Seq<u8>, Seq<char>>)>,
)
    requires
        forall|i: int| 0 <= i < ops.len() ==> (#[trigger] ops[i]).operator != "Tf"@,
    ensures
        run_ops(pre + ops, t).font == run_ops(pre, t).font,
    decreases ops.len(),
{
    if ops.len() == 0 {
        assert(pre + ops =~= pre);
    } else {
        let o = ops.drop_last();
        lemma_font_kept_without_tf(pre, o, t);
        assert((pre + ops).drop_last() =~= pre + o);
        assert((pre + ops).last() == ops.last());
        assert(ops[ops.len() - 1].operator != "Tf"@);
        lemma_font_changes_only_at_tf(run_ops(pre + o, t), ops.last(), t);
    }
}

/// The state after the operations `ops`, starting with no text, outside any
/// text object and with no font.
pub open spec fn run_ops(ops: Seq<PdfOpView>, t: Seq<(Seq<char>, Map<Seq<u8>, Seq<char>>)>) -> TextState
    decreases ops.len(),
{
    if ops.len() == 0 {
        TextState { text: seq![], in_text: false, font: None }
    } else {
        op_step(run_ops(ops.drop_last(), t), ops.last(), t)
    }
}

/// The text of a page with fonts `fonts` and operations `ops` (`None` where
/// its content does not decode: no text), or `None` where reading one of its
/// CMaps panics.
pub open spec fn page_text_of(fonts: Seq<PageFont>, ops: Option<Seq<PdfOpView>>) -> Option<
    Seq<char>,
> {
    match font_table(fonts) {
        None => None,
        Some(t) => match ops {
            None => Some(seq![]),
            Some(o) => Some(run_ops(o, t).text),
        },
    }
}

/// The views of optional operations.
pub open spec fn opt_op_views(ops: Option<Vec<PdfOp>>) -> Option<Seq<PdfOpView>> {
    match ops {
        Some(o) => Some(op_views(o@)),
        None => None,
    }
}

/// The text of one page, or `None` where reading one of its CMaps panics.
pub open spec fn page_text(page: PdfPage) -> Option<Seq<char>> {
    page_text_of(page.fonts@, opt_op_views(page.ops))
}

/// The text of the pages read from a document, in order, their content bytes
/// decoded by lopdf; `None` where a page panics.
pub open spec fn contents_text(pages: Seq<PageSource>) -> Option<Seq<char>>
    decreases pages.len(),
{
    if pages.len() == 0 {
        Some(seq![])
    } else {
        match contents_text(pages.drop_last()) {
            None => None,
            Some(before) => match page_text_of(
                pages.last().fonts@,
                content_operations(pages.last().content@),
            ) {
                None => None,
                Some(p) => Some(before + p),
            },
        }
    }
}

/// The text of the pages, in order, or `None` where a page panics.
pub open spec fn pages_text(pages: Seq<PdfPage>) -> Option<Seq<char>>
    decreases pages.len(),
{
    if pages.len() == 0 {
        Some(seq![])
    } else {
        match pages_text(pages.drop_last()) {
            None => None,
            Some(before) => match page_text(pages.last()) {
                None => None,
                Some(p) => Some(before + p),
            },
        }
    }
}

/// The error for a document without text.
pub open spec fn no_text_error() -> Seq<char> {
    "PDF中未能提取到文本（可能为扫描件或加密PDF）"@
}


/// The mathematical form of a built font table.
pub open spec fn table_view(tb: Seq<(Vec<char>, CMap)>) -> Seq<(Seq<char>, Map<Seq<u8>, Seq<char>>)> {
    tb.map_values(|e: (Vec<char>, CMap)| (e.0@, e.1@))
}

/// The mathematical form of an optional font name.
pub open spec fn font_view(f: Option<Vec<char>>) -> Option<Seq<char>> {
    match f {
        Some(v) => Some(v@),
        None => None,
    }
}

/// Builds the font table of a page; `None` where reading a CMap panics.
pub fn build_font_table(fonts: &Vec<PageFont>) -> (r: Option<Vec<(Vec<char>, CMap)>>)
    ensures
        match r {
            Some(tb) => font_table(fonts@) == Some(table_view(tb@)),
            None => font_table(fonts@) is None,
        },
{
    let mut table: Vec<(Vec<char>, CMap)> = Vec::new();
    let mut i: usize = 0;
    assert(fonts@.take(0) =~= Seq::<PageFont>::empty());
    while i < fonts.len()
        invariant
            0 <= i <= fonts@.len(),
            font_table(fonts@.take(i as int)) == Some(table_view(table@)),
        decreases fonts@.len() - i,
    {
        assert(fonts@.take(i + 1).drop_last() =~= fonts@.take(i as int));
        let font = &fonts[i];
        match &font.to_unicode {
            None => {},
            Some(data) => {
                match parse_cmap(data.as_slice()) {
                    None => {
                        proof {
                            lemma_font_table_none(fonts@, i + 1);
                        }
                        return None;
                    },
                    Some(cmap) => {
                        if !cmap.is_empty() {
                            let name_text = from_utf8_lossy(font.name.as_slice());
                            let name = chars_of(name_text.as_str());
                            let ghost before = table@;
                            table.push((name, cmap));
                            assert(table_view(table@) =~= table_view(before).push(
                                (utf8_lossy(font.name@), table@.last().1@),
                            ));
                        }
                    },
                }
            },
        }
        i = i + 1;
    }
    assert(fonts@.take(fonts@.len() as int) =~= fonts@);
    Some(table)
}

/// A panic while building the table of a prefix of the fonts is a panic for
/// all of them.
proof fn lemma_font_table_none(fonts: Seq<PageFont>, k: int)
    requires
        0 <= k <= fonts.len(),
        font_table(fonts.take(k)) is None,
    ensures
        font_table(fonts) is None,
    decreases fonts.len() - k,
{
    if k < fonts.len() {
        assert(fonts.take(k + 1).drop_last() =~= fonts.take(k));
        lemma_font_table_none(fonts, k + 1);
    } else {
        assert(fonts.take(k) =~= fonts);
    }
}

/// The CMap of the last font in the table named `name`.
pub fn find_font<'a>(table: &'a Vec<(Vec<char>, CMap)>, name: &[char]) -> (r: Option<&'a CMap>)
    ensures
        match r {
            Some(c) => font_lookup(table_view(table@), name@) == Some(c@),
            None => font_lookup(table_view(table@), name@) is None,
        },
{
    let mut i = table.len();
    assert(table_view(table@).take(i as int) =~= table_view(table@));
    while i > 0
        invariant
            i <= table@.len(),
            font_lookup(table_view(table@), name@) == font_lookup(
                table_view(table@).take(i as int),
                name@,
            ),
        decreases i,
    {
        assert(table_view(table@).take(i as int).drop_last() =~= table_view(table@).take(i - 1));
        let entry = &table[i - 1];
        if chars_eq(entry.0.as_slice(), name) {
            return Some(&entry.1);
        }
        i = i - 1;
    }
    None
}

/// Appends the text that string bytes show in the current font.
fn push_shown(
    out: &mut Vec<char>,
    bytes: &[u8],
    font: &Option<Vec<char>>,
    table: &Vec<(Vec<char>, CMap)>,
)
    requires
        bytes@.len() <= usize::MAX / 4,
    ensures
        final(out)@ == old(out)@ + shown_text(bytes@, font_view(*font), table_view(table@)),
{
    let cm = match font {
        Some(f) => find_font(table, f.as_slice()),
        None => None,
    };
    match cm {
        Some(c) => {
            let text = decode_with_cmap(bytes, c);
            let piece = chars_of(text.as_str());
            append_chars(out, piece.as_slice());
        },
        None => {
            push_pdf_chars(out, bytes);
        },
    }
}

/// The kind of operator `o`.
pub fn op_kind_of(o: &str) -> (r: OpKind)
    ensures
        r == op_kind(o@),
{
    let c = chars_of(o);
    let s = c.as_slice();
    if chars_eq(s, chars_of("BT").as_slice()) {
        OpKind::BeginText
    } else if chars_eq(s, chars_of("ET").as_slice()) {
        OpKind::EndText
    } else if chars_eq(s, chars_of("Td").as_slice()) || chars_eq(s, chars_of("TD").as_slice())
        || chars_eq(s, chars_of("T*").as_slice()) {
        OpKind::NextLine
    } else if chars_eq(s, chars_of("Tf").as_slice()) {
        OpKind::SetFont
    } else if chars_eq(s, chars_of("Tj").as_slice()) || chars_eq(s, chars_of("'").as_slice()) {
        OpKind::ShowText
    } else if chars_eq(s, chars_of("TJ").as_slice()) {
        OpKind::ShowArray
    } else {
        OpKind::Ignored
    }
}

/// Appends the text of the operations `ops` of one page.
pub fn push_page_text(out: &mut Vec<char>, ops: &Vec<PdfOp>, table: &Vec<(Vec<char>, CMap)>)
    requires
        forall|i: int| 0 <= i < ops@.len() ==> op_fits(#[trigger] ops@[i]@),
    ensures
        final(out)@ == old(out)@ + run_ops(op_views(ops@), table_view(table@)).text,
{
    let ghost tv = table_view(table@);
    let ghost ov = op_views(ops@);
    let mut in_text = false;
    let mut font: Option<Vec<char>> = None;
    let mut i: usize = 0;
    assert(ov.take(0) =~= Seq::<PdfOpView>::empty());
    assert(old(out)@ + Seq::<char>::empty() =~= old(out)@);
    while i < ops.len()
        invariant
            0 <= i <= ops@.len(),
            forall|k: int| 0 <= k < ops@.len() ==> op_fits(#[trigger] ops@[k]@),
            tv == table_view(table@),
            ov == op_views(ops@),
            out@ == old(out)@ + run_ops(ov.take(i as int), tv).text,
            in_text == run_ops(ov.take(i as int), tv).in_text,
            font_view(font) == run_ops(ov.take(i as int), tv).font,
        decreases ops@.len() - i,
    {
        assert(ov.take(i + 1).drop_last() =~= ov.take(i as int));
        assert(ov.take(i + 1).last() == ops@[i as int]@);
        let ghost before = out@;
        let ghost st = run_ops(ov.take(i as int), tv);
        let op = &ops[i];
        assert(op_fits(ops@[i as int]@));
        match op_kind_of(op.operator.as_str()) {
            OpKind::BeginText => {
                in_text = true;
            },
            OpKind::EndText => {
                in_text = false;
                out.push('\n');
                assert(out@ =~= old(out)@ + st.text.push('\n'));
            },
            OpKind::NextLine => {
                out.push('\n');
                assert(out@ =~= old(out)@ + st.text.push('\n'));
            },
            OpKind::SetFont => {
                if in_text {
                    match &op.operand {
                        Some(PdfOperand::Name(n)) => {
                            let name_text = from_utf8_lossy(n.as_slice());
                            font = Some(chars_of(name_text.as_str()));
                        },
                        _ => {},
                    }
                }
            },
            OpKind::ShowText => {
                if in_text {
                    match &op.operand {
                        Some(PdfOperand::Str(b)) => {
                            push_shown(out, b.as_slice(), &font, table);
                            assert(out@ =~= old(out)@ + (st.text + shown_text(
                                b@,
                                st.font,
                                tv,
                            )));
                        },
                        _ => {},
                    }
                }
            },
            OpKind::ShowArray => {
                if in_text {
                    match &op.operand {
                        Some(PdfOperand::Array(items)) => {
                            let ghost iv = item_views(items@);
                            let mut j: usize = 0;
                            assert(iv.take(0) =~= Seq::<Option<Seq<u8>>>::empty());
                            assert(before + Seq::<char>::empty() =~= before);
                            while j < items.len()
                                invariant
                                    0 <= j <= items@.len(),
                                    iv == item_views(items@),
                                    forall|q: int|
                                        0 <= q < iv.len() ==> (#[trigger] iv[q] matches Some(
                                            b,
                                        ) ==> b.len() <= usize::MAX / 4),
                                    tv == table_view(table@),
                                    out@ == before + array_text(
                                        iv.take(j as int),
                                        font_view(font),
                                        tv,
                                    ),
                                decreases items@.len() - j,
                            {
                                assert(iv.take(j + 1).drop_last() =~= iv.take(j as int));
                                let ghost mid = out@;
                                match &items[j] {
                                    Some(b) => {
                                        assert(iv[j as int] == Some(b@));
                                        assert(iv.take(j + 1).last() == Some(b@));
                                        push_shown(out, b.as_slice(), &font, table);
                                        assert(out@ =~= before + array_text(
                                            iv.take(j + 1),
                                            font_view(font),
                                            tv,
                                        ));
                                    },
                                    None => {
                                        assert(iv.take(j + 1).last() is None);
                                        assert(array_text(iv.take(j + 1), font_view(font), tv)
                                            =~= array_text(
                                            iv.take(j as int),
                                            font_view(font),
                                            tv,
                                        ) + Seq::<char>::empty());
                                    },
                                }
                                j = j + 1;
                            }
                            assert(iv.take(iv.len() as int) =~= iv);
                            assert(out@ =~= old(out)@ + (st.text + array_text(
                                iv,
                                st.font,
                                tv,
                            )));
                        },
                        _ => {},
                    }
                }
            },
            OpKind::Ignored => {},
        }
        i = i + 1;
    }
    assert(ov.take(ov.len() as int) =~= ov);
}

/// Appends the text of one page; `false` (and nothing appended) exactly
/// where reading one of its CMaps panics.
fn push_one_page(out: &mut Vec<char>, fonts: &Vec<PageFont>, ops: &Option<Vec<PdfOp>>) -> (ok:
    bool)
    requires
        ops matches Some(o) ==> forall|i: int| 0 <= i < o@.len() ==> op_fits(#[trigger] o@[i]@),
    ensures
        ok == page_text_of(fonts@, opt_op_views(*ops)) is Some,
        ok ==> final(out)@ == old(out)@ + page_text_of(fonts@, opt_op_views(*ops))->0,
{
    let table = match build_font_table(fonts) {
        Some(tb) => tb,
        None => {
            return false;
        },
    };
    match ops {
        None => {
            assert(old(out)@ + Seq::<char>::empty() =~= old(out)@);
        },
        Some(o) => {
            push_page_text(out, o, &table);
        },
    }
    true
}

/// The text of a document without a CMap panic: the text, or an error where
/// it is only whitespace.
fn text_result(all_text: Vec<char>) -> (r: Result<String, String>)
    ensures
        if trim(all_text@).len() == 0 {
            r matches Err(e) && e@ == no_text_error()
        } else {
            r matches Ok(s) && s@ == all_text@
        },
{
    let trimmed = trim_chars(all_text.as_slice());
    if trimmed.len() == 0 {
        Err(String::from_str("PDF中未能提取到文本（可能为扫描件或加密PDF）"))
    } else {
        Ok(string_of(all_text.as_slice()))
    }
}

/// A panic on a page of a prefix of the pages is a panic for all of them.
proof fn lemma_contents_text_none(pages: Seq<PageSource>, k: int)
    requires
        0 <= k <= pages.len(),
        contents_text(pages.take(k)) is None,
    ensures
        contents_text(pages) is None,
    decreases pages.len() - k,
{
    if k < pages.len() {
        assert(pages.take(k + 1).drop_last() =~= pages.take(k));
        lemma_contents_text_none(pages, k + 1);
    } else {
        assert(pages.take(k) =~= pages);
    }
}

/// Extracts the text of the pages read from a document: per page, its
/// content bytes are decoded into operations (a page whose content does not
/// decode has no text), its fonts' ToUnicode CMaps are read, and its
/// operations are interpreted. `None` exactly where reading a CMap panics;
/// otherwise the text, or an error where it is only whitespace.
pub fn extract_text_from_contents(pages: &Vec<PageSource>) -> (r: Option<Result<String, String>>)
    requires
        forall|p: int| 0 <= p < pages@.len() ==> #[trigger] pages@[p].content@.len() <= usize::MAX
            / 4,
    ensures
        match contents_text(pages@) {
            None => r is None,
            Some(t) => if trim(t).len() == 0 {
                r matches Some(Err(e)) && e@ == no_text_error()
            } else {
                r matches Some(Ok(s)) && s@ == t
            },
        },
{
    let mut all_text: Vec<char> = Vec::new();
    let mut p: usize = 0;
    assert(pages@.take(0) =~= Seq::<PageSource>::empty());
    while p < pages.len()
        invariant
            0 <= p <= pages@.len(),
            forall|q: int| 0 <= q < pages@.len() ==> #[trigger] pages@[q].content@.len()
                <= usize::MAX / 4,
            contents_text(pages@.take(p as int)) == Some(all_text@),
        decreases pages@.len() - p,
    {
        assert(pages@.take(p + 1).drop_last() =~= pages@.take(p as int));
        assert(pages@.take(p + 1).last() == pages@[p as int]);
        let page = &pages[p];
        let ops = decode_content(page.content.as_slice());
        assert(page.content@.len() <= usize::MAX / 4);
        assert(ops matches Some(o) ==> forall|i: int|
            0 <= i < o@.len() ==> op_fits(#[trigger] o@[i]@)) by {
            if let Some(o) = ops {
                assert forall|i: int| 0 <= i < o@.len() implies op_fits(#[trigger] o@[i]@) by {
                    assert(op_within(o@[i]@, page.content@.len()));
                }
            }
        }
        assert(opt_op_views(ops) == content_operations(page.content@));
        let ghost before = all_text@;
        if !push_one_page(&mut all_text, &page.fonts, &ops) {
            proof {
                lemma_contents_text_none(pages@, p + 1);
            }
            return None;
        }
        p = p + 1;
    }
    assert(pages@.take(pages@.len() as int) =~= pages@);
    Some(text_result(all_text))
}

/// Extracts the text of the pages: per page, the fonts' ToUnicode CMaps are
/// read, then its operations are interpreted. `None` exactly where reading a
/// CMap panics; otherwise the text, or an error where it is only whitespace.
pub fn extract_text_from_pages(pages: &Vec<PdfPage>) -> (r: Option<Result<String, String>>)
    requires
        pages_fit(pages@),
    ensures
        match pages_text(pages@) {
            None => r is None,
            Some(t) => if trim(t).len() == 0 {
                r matches Some(Err(e)) && e@ == no_text_error()
            } else {
                r matches Some(Ok(s)) && s@ == t
            },
        },
{
    let mut all_text: Vec<char> = Vec::new();
    let mut p: usize = 0;
    assert(pages@.take(0) =~= Seq::<PdfPage>::empty());
    while p < pages.len()
        invariant
            0 <= p <= pages@.len(),
            pages_fit(pages@),
            pages_text(pages@.take(p as int)) == Some(all_text@),
        decreases pages@.len() - p,
    {
        assert(pages@.take(p + 1).drop_last() =~= pages@.take(p as int));
        assert(pages@.take(p + 1).last() == pages@[p as int]);
        let page = &pages[p];
        assert(page.ops matches Some(o) ==> forall|i: int|
            0 <= i < o@.len() ==> op_fits(#[trigger] o@[i]@));
        if !push_one_page(&mut all_text, &page.fonts, &page.ops) {
            proof {
                lemma_pages_text_none(pages@, p + 1);
            }
            return None;
        }
        p = p + 1;
    }
    assert(pages@.take(pages@.len() as int) =~= pages@);
    Some(text_result(all_text))
}

/// A panic on a page of a prefix of the pages is a panic for all of them.
proof fn lemma_pages_text_none(pages: Seq<PdfPage>, k: int)
    requires
        0 <= k <= pages.len(),
        pages_text(pages.take(k)) is None,
    ensures
        pages_text(pages) is None,
    decreases pages.len() - k,
{
    if k < pages.len() {
        assert(pages.take(k + 1).drop_last() =~= pages.take(k));
        lemma_pages_text_none(pages, k + 1);
    } else {
        assert(pages.take(k) =~= pages);
    }
}

} // verus!

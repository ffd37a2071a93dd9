//! ToUnicode CMaps of PDF fonts: parsing of their `bfchar` and `bfrange`
//! sections into a map from character codes to text, and decoding of string
//! bytes with such a map.
use vstd::prelude::*;
use vstd::hash_map::HashMapWithView;
use crate::text::{
    append_chars, byte_len, char_from_u32, char_of, chars_eq, chars_of, from_utf8_lossy, lines,
    lines_of, seqs_of, starts_with, string_of, tokens_of, trim, trim_chars, utf8_lossy, ws_tokens,
};

verus! {

broadcast use {
    vstd::std_specs::hash::axiom_u8_obeys_hash_table_key_model,
    vstd::std_specs::hash::axiom_u16_obeys_hash_table_key_model,
};

/// The number of bytes that `c` takes in UTF-8 (`char::len_utf8`).
pub open spec fn utf8_width(c: char) -> nat {
    let v = c as u32;
    if v < 0x80 {
        1
    } else if v < 0x800 {
        2
    } else if v < 0x10000 {
        3
    } else {
        4
    }
}

fn utf8_width_of(c: char) -> (r: u8)
    ensures
        r as nat == utf8_width(c),
{
    let v = c as u32;
    if v < 0x80 {
        1
    } else if v < 0x800 {
        2
    } else if v < 0x10000 {
        3
    } else {
        4
    }
}

/// The value of the hexadecimal digit `c`.
pub open spec fn hex_digit(c: char) -> Option<u8> {
    if '0' <= c <= '9' {
        Some((c as u32 - '0' as u32) as u8)
    } else if 'a' <= c <= 'f' {
        Some((c as u32 - 'a' as u32 + 10) as u8)
    } else if 'A' <= c <= 'F' {
        Some((c as u32 - 'A' as u32 + 10) as u8)
    } else {
        None
    }
}

fn hex_digit_of(c: char) -> (r: Option<u8>)
    ensures
        r == hex_digit(c),
{
    if '0' <= c && c <= '9' {
        Some((c as u32 - '0' as u32) as u8)
    } else if 'a' <= c && c <= 'f' {
        Some((c as u32 - 'a' as u32 + 10) as u8)
    } else if 'A' <= c && c <= 'F' {
        Some((c as u32 - 'A' as u32 + 10) as u8)
    } else {
        None
    }
}

/// What `u8::from_str_radix(.., 16)` gives for the two-character string `a b`:
/// two hex digits, or a `+` sign and one hex digit.
pub open spec fn hex_pair(a: char, b: char) -> Option<u8> {
    if a == '+' {
        hex_digit(b)
    } else {
        match (hex_digit(a), hex_digit(b)) {
            (Some(x), Some(y)) => Some((16 * x + y) as u8),
            _ => None,
        }
    }
}

/// Outcome of reading a `<..>` hex token: its bytes, no bytes (not a valid
/// token), or the panic that slicing the token in the middle of a multi-byte
/// character causes.
pub enum HexBytes {
    Bytes(Seq<u8>),
    Invalid,
    Panics,
}

/// Reading the characters `c` two bytes at a time as hexadecimal byte values,
/// stopping at the first pair that is not one.
pub open spec fn hex_pairs(c: Seq<char>) -> HexBytes
    decreases c.len(),
{
    if c.len() == 0 {
        HexBytes::Bytes(seq![])
    } else if utf8_width(c[0]) == 1 {
        if c.len() < 2 || utf8_width(c[1]) != 1 {
            HexBytes::Panics
        } else {
            match hex_pair(c[0], c[1]) {
                None => HexBytes::Invalid,
                Some(b) => match hex_pairs(c.skip(2)) {
                    HexBytes::Bytes(bs) => HexBytes::Bytes(seq![b] + bs),
                    other => other,
                },
            }
        }
    } else if utf8_width(c[0]) == 2 {
        HexBytes::Invalid
    } else {
        HexBytes::Panics
    }
}

/// Reading token `t` as `<` hex digits `>`: the content between the angle
/// brackets must have an even length in bytes.
pub open spec fn hex_token(t: Seq<char>) -> HexBytes {
    if t.len() >= 2 && t[0] == '<' && t.last() == '>' {
        let inner = t.subrange(1, t.len() - 1);
        if byte_len(inner) % 2 != 0 {
            HexBytes::Invalid
        } else {
            hex_pairs(inner)
        }
    } else {
        HexBytes::Invalid
    }
}

/// Executable outcome of reading a hex token.
pub enum HexScan {
    Bytes(Vec<u8>),
    Invalid,
    Panics,
}

/// `bs` followed by the bytes of `h`, if `h` has bytes.
pub open spec fn prepend_bytes(bs: Seq<u8>, h: HexBytes) -> HexBytes {
    match h {
        HexBytes::Bytes(x) => HexBytes::Bytes(bs + x),
        other => other,
    }
}

/// Whether the executable outcome `r` is the outcome `h`.
pub open spec fn scan_is(r: HexScan, h: HexBytes) -> bool {
    match r {
        HexScan::Bytes(v) => h == HexBytes::Bytes(v@),
        HexScan::Invalid => h == HexBytes::Invalid,
        HexScan::Panics => h == HexBytes::Panics,
    }
}

/// Reads token `t` as `<` hex digits `>`.
pub fn scan_hex_token(t: &[char]) -> (r: HexScan)
    ensures
        scan_is(r, hex_token(t@)),
{
    let n = t.len();
    if !(n >= 2 && t[0] == '<' && t[n - 1] == '>') {
        return HexScan::Invalid;
    }
    let inner = crate::text::sub_vec(t, 1, n - 1);
    let inner_text = string_of(inner.as_slice());
    if inner_text.as_str().len() % 2 != 0 {
        return HexScan::Invalid;
    }
    let m = inner.len();
    let mut out: Vec<u8> = Vec::new();
    let mut i: usize = 0;
    assert(inner@.skip(0) =~= inner@);
    while i < m
        invariant
            0 <= i <= m,
            m == inner@.len(),
            hex_pairs(inner@) == prepend_bytes(out@, hex_pairs(inner@.skip(i as int))),
            inner@ == t@.subrange(1, t@.len() - 1),
            hex_token(t@) == hex_pairs(inner@),
        decreases m - i,
    {
        let ghost rest = inner@.skip(i as int);
        let c = inner[i];
        let w = utf8_width_of(c);
        if w == 1 {
            if i + 1 >= m {
                return HexScan::Panics;
            }
            let c2 = inner[i + 1];
            if utf8_width_of(c2) != 1 {
                return HexScan::Panics;
            }
            let value: Option<u8> = if c == '+' {
                hex_digit_of(c2)
            } else {
                match (hex_digit_of(c), hex_digit_of(c2)) {
                    (Some(x), Some(y)) => Some(16 * x + y),
                    _ => None,
                }
            };
            match value {
                None => {
                    return HexScan::Invalid;
                },
                Some(b) => {
                    assert(rest.skip(2) =~= inner@.skip(i + 2));
                    let ghost before = out@;
                    out.push(b);
                    assert(prepend_bytes(before, hex_pairs(rest)) == prepend_bytes(
                        out@,
                        hex_pairs(inner@.skip(i + 2)),
                    )) by {
                        match hex_pairs(inner@.skip(i + 2)) {
                            HexBytes::Bytes(x) => {
                                assert(before + (seq![b] + x) =~= out@ + x);
                            },
                            _ => {},
                        }
                    }
                    i = i + 2;
                },
            }
        } else if w == 2 {
            return HexScan::Invalid;
        } else {
            return HexScan::Panics;
        }
    }
    assert(inner@.skip(m as int) =~= Seq::<u8>::empty().map_values(|b: u8| b as char));
    assert(out@ + Seq::<u8>::empty() =~= out@);
    HexScan::Bytes(out)
}

/// Reads a token of the form `<` hex digits `>` as bytes.
pub fn parse_hex_bytes(s: &str) -> (r: Option<Vec<u8>>)
    requires
        hex_token(s@) != HexBytes::Panics,
    ensures
        match r {
            Some(v) => hex_token(s@) == HexBytes::Bytes(v@),
            None => hex_token(s@) == HexBytes::Invalid,
        },
{
    let t = chars_of(s);
    match scan_hex_token(t.as_slice()) {
        HexScan::Bytes(v) => Some(v),
        _ => None,
    }
}

/// The low 32 bits of the big-endian number that the bytes `b` spell.
pub open spec fn be_u32(b: Seq<u8>) -> u32
    decreases b.len(),
{
    if b.len() == 0 {
        0
    } else {
        ((be_u32(b.drop_last()) % 0x100_0000) * 256 + b.last()) as u32
    }
}

/// The bytes `b` read as a big-endian number, keeping the low 32 bits.
pub fn bytes_to_u32(b: &[u8]) -> (r: u32)
    ensures
        r == be_u32(b@),
{
    let mut acc: u32 = 0;
    let mut i: usize = 0;
    assert(b@.take(0) =~= Seq::<u8>::empty());
    while i < b.len()
        invariant
            0 <= i <= b@.len(),
            acc == be_u32(b@.take(i as int)),
        decreases b@.len() - i,
    {
        let x = b[i];
        assert(b@.take(i + 1).drop_last() =~= b@.take(i as int));
        let shifted = acc << 8u32;
        let next = shifted | (x as u32);
        assert(((acc << 8u32) | (x as u32)) == (acc % 0x100_0000) * 256 + x) by (bit_vector);
        acc = next;
        i = i + 1;
    }
    assert(b@.take(b@.len() as int) =~= b@);
    acc
}

/// The mapping of the last entry of `entries` whose key is `k`.
pub open spec fn list_lookup(entries: Seq<(Vec<u8>, String)>, k: Seq<u8>) -> Option<Seq<char>>
    decreases entries.len(),
{
    if entries.len() == 0 {
        None
    } else if entries.last().0@ == k {
        Some(entries.last().1@)
    } else {
        list_lookup(entries.drop_last(), k)
    }
}

/// The key of a two-byte code in the table of two-byte codes.
pub open spec fn pair_code(k: Seq<u8>) -> u16 {
    (k[0] as int * 256 + k[1] as int) as u16
}

/// A ToUnicode CMap: character codes (byte strings) mapped to text.
pub struct CMap {
    one: HashMapWithView<u8, String>,
    two: HashMapWithView<u16, String>,
    other: Vec<(Vec<u8>, String)>,
}

impl CMap {
    /// Codes of one or two bytes live in the hash tables, other codes in the list.
    pub closed spec fn wf(&self) -> bool {
        forall|i: int|
            0 <= i < self.other@.len() ==> #[trigger] self.other@[i].0@.len() != 1
                && self.other@[i].0@.len() != 2
    }

    /// The text that code `k` maps to.
    pub closed spec fn lookup(&self, k: Seq<u8>) -> Option<Seq<char>> {
        if k.len() == 1 {
            if self.one@.contains_key(k[0]) {
                Some(self.one@[k[0]]@)
            } else {
                None
            }
        } else if k.len() == 2 {
            if self.two@.contains_key(pair_code(k)) {
                Some(self.two@[pair_code(k)]@)
            } else {
                None
            }
        } else {
            list_lookup(self.other@, k)
        }
    }

    /// An empty map.
    pub fn new() -> (r: CMap)
        ensures
            r.wf(),
            r@ == Map::<Seq<u8>, Seq<char>>::empty(),
    {
        let r = CMap { one: HashMapWithView::new(), two: HashMapWithView::new(), other: Vec::new() };
        assert(r@ =~= Map::<Seq<u8>, Seq<char>>::empty());
        r
    }

    /// Maps `k` to `v`, replacing an earlier mapping of `k`.
    pub fn insert(&mut self, k: Vec<u8>, v: String)
        requires
            old(self).wf(),
        ensures
            final(self).wf(),
            final(self)@ == old(self)@.insert(k@, v@),
    {
        let ghost key = k@;
        if k.len() == 1 {
            self.one.insert(k[0], v);
            assert forall|j: Seq<u8>| j != key implies #[trigger] self.lookup(j) == old(
                self,
            ).lookup(j) by {
                if j.len() == 1 && j[0] == key[0] {
                    assert(j =~= key);
                }
            }
            assert(self.lookup(key) == Some(v@));
        } else if k.len() == 2 {
            let code: u16 = (k[0] as u16) * 256 + (k[1] as u16);
            self.two.insert(code, v);
            assert forall|j: Seq<u8>| j != key implies #[trigger] self.lookup(j) == old(
                self,
            ).lookup(j) by {
                if j.len() == 2 && pair_code(j) == pair_code(key) {
                    assert(j[0] == key[0] && j[1] == key[1]);
                    assert(j =~= key);
                }
            }
            assert(self.lookup(key) == Some(v@));
        } else {
            self.other.push((k, v));
            assert forall|j: Seq<u8>| j != key implies #[trigger] self.lookup(j) == old(
                self,
            ).lookup(j) by {
                assert(self.other@.drop_last() =~= old(self).other@);
            }
            assert(self.other@.drop_last() =~= old(self).other@);
            assert(self.lookup(key) == Some(v@));
        }
        assert(self@ =~= old(self)@.insert(key, v@));
    }

    /// The text that code `k` maps to.
    pub fn get(&self, k: &[u8]) -> (r: Option<&String>)
        ensures
            match r {
                Some(v) => self@.contains_key(k@) && self@[k@] == v@,
                None => !self@.contains_key(k@),
            },
    {
        if k.len() == 1 {
            self.one.get(&k[0])
        } else if k.len() == 2 {
            let code: u16 = (k[0] as u16) * 256 + (k[1] as u16);
            self.two.get(&code)
        } else {
            let mut i = self.other.len();
            assert(self.other@.take(i as int) =~= self.other@);
            while i > 0
                invariant
                    i <= self.other@.len(),
                    k@.len() != 1 && k@.len() != 2,
                    list_lookup(self.other@, k@) == list_lookup(self.other@.take(i as int), k@),
                decreases i,
            {
                let entry = &self.other[i - 1];
                assert(self.other@.take(i as int).drop_last() =~= self.other@.take(i - 1));
                if crate::text::bytes_eq(entry.0.as_slice(), k) {
                    return Some(&entry.1);
                }
                i = i - 1;
            }
            None
        }
    }

    /// Whether nothing is mapped.
    pub fn is_empty(&self) -> (r: bool)
        requires
            self.wf(),
        ensures
            r == (self@ == Map::<Seq<u8>, Seq<char>>::empty()),
    {
        let r = self.one.is_empty() && self.two.is_empty() && self.other.len() == 0;
        if r {
            assert forall|j: Seq<u8>| #[trigger] self.lookup(j) is None by {
                if j.len() == 1 {
                    assert(!self.one@.contains_key(j[0]));
                } else if j.len() == 2 {
                    assert(!self.two@.contains_key(pair_code(j)));
                }
            }
            assert(self@ =~= Map::<Seq<u8>, Seq<char>>::empty());
        } else {
            if !self.one.is_empty() {
                let ghost b = choose|b: u8| self.one@.contains_key(b);
                assert(self.one@.dom().contains(b));
                assert(self.lookup(seq![b]) is Some);
                assert(self@.contains_key(seq![b]));
            } else if !self.two.is_empty() {
                let ghost c = choose|c: u16| self.two@.contains_key(c);
                assert(self.two@.dom().contains(c));
                let ghost hi = (c / 256) as u8;
                let ghost lo = (c % 256) as u8;
                assert(hi as int == c / 256 && lo as int == c % 256);
                let ghost k = seq![hi, lo];
                assert(k[0] as int * 256 + k[1] as int == c as int);
                assert(pair_code(k) == c);
                assert(self@.contains_key(k));
            } else {
                let ghost k = self.other@.last().0@;
                assert(self.other@[self.other@.len() - 1].0@.len() != 1);
                assert(self.lookup(k) is Some);
                assert(self@.contains_key(k));
            }
        }
        r
    }
}

impl View for CMap {
    type V = Map<Seq<u8>, Seq<char>>;

    closed spec fn view(&self) -> Map<Seq<u8>, Seq<char>> {
        Map::new(|k: Seq<u8>| self.lookup(k) is Some, |k: Seq<u8>| self.lookup(k)->0)
    }
}


/// State of the line-by-line reading of a CMap: the mapping so far, which
/// sections are open, and whether reading has panicked.
pub struct CMapScan {
    pub map: Map<Seq<u8>, Seq<char>>,
    pub in_bfchar: bool,
    pub in_bfrange: bool,
    pub panicked: bool,
}

/// The code of one or two bytes for `cid` in a range whose start code has
/// `klen` bytes.
pub open spec fn range_key(cid: u32, klen: nat) -> Seq<u8> {
    if klen == 1 {
        seq![(cid % 256) as u8]
    } else {
        seq![((cid / 256) % 256) as u8, (cid % 256) as u8]
    }
}

/// `m` with the first `count` codes of a `bfrange` from code `start` to text
/// starting at `dst` mapped, skipping values that are not characters.
pub open spec fn insert_range(
    m: Map<Seq<u8>, Seq<char>>,
    start: u32,
    dst: u32,
    klen: nat,
    count: nat,
) -> Map<Seq<u8>, Seq<char>>
    decreases count,
{
    if count == 0 {
        m
    } else {
        let prev = insert_range(m, start, dst, klen, (count - 1) as nat);
        let delta = count - 1;
        match char_of((dst + delta) as u32) {
            Some(ch) => prev.insert(range_key((start + delta) as u32, klen), seq![ch]),
            None => prev,
        }
    }
}

/// One `bfchar` line with tokens `parts` applied to `m`; `None` where a hex
/// token is cut inside a character, which makes reading panic.
pub open spec fn bfchar_line(m: Map<Seq<u8>, Seq<char>>, parts: Seq<Seq<char>>) -> Option<
    Map<Seq<u8>, Seq<char>>,
> {
    let src = hex_token(parts[0]);
    let dst = hex_token(parts[1]);
    if src == HexBytes::Panics || dst == HexBytes::Panics {
        None
    } else {
        match (src, dst) {
            (HexBytes::Bytes(s), HexBytes::Bytes(d)) => match char_of(be_u32(d)) {
                Some(ch) => Some(m.insert(s, seq![ch])),
                None => Some(m),
            },
            _ => Some(m),
        }
    }
}

/// One `bfrange` line with tokens `parts` applied to `m`; `None` where
/// reading panics: a hex token cut inside a character, or a text value past
/// `u32::MAX`.
pub open spec fn bfrange_line(m: Map<Seq<u8>, Seq<char>>, parts: Seq<Seq<char>>) -> Option<
    Map<Seq<u8>, Seq<char>>,
> {
    let a = hex_token(parts[0]);
    let b = hex_token(parts[1]);
    let c = hex_token(parts[2]);
    if a == HexBytes::Panics || b == HexBytes::Panics || c == HexBytes::Panics {
        None
    } else {
        match (a, b, c) {
            (HexBytes::Bytes(sb), HexBytes::Bytes(eb), HexBytes::Bytes(db)) => {
                let s = be_u32(sb);
                let e = be_u32(eb);
                let d = be_u32(db);
                let n: nat = if e >= s {
                    (e - s) as nat
                } else {
                    0
                };
                if d + n > u32::MAX {
                    None
                } else {
                    Some(insert_range(m, s, d, sb.len(), n + 1))
                }
            },
            _ => Some(m),
        }
    }
}

/// The state after reading one more line `raw`.
pub open spec fn cmap_step(st: CMapScan, raw: Seq<char>) -> CMapScan {
    let line = trim(raw);
    if st.panicked {
        st
    } else if line == "beginbfchar"@ {
        CMapScan { in_bfchar: true, ..st }
    } else if line == "endbfchar"@ {
        CMapScan { in_bfchar: false, ..st }
    } else if line == "beginbfrange"@ {
        CMapScan { in_bfrange: true, ..st }
    } else if line == "endbfrange"@ {
        CMapScan { in_bfrange: false, ..st }
    } else {
        let parts = ws_tokens(line);
        let next = if st.in_bfchar && parts.len() >= 2 {
            bfchar_line(st.map, parts)
        } else if st.in_bfrange && parts.len() >= 3 && starts_with(parts[2], seq!['<']) {
            bfrange_line(st.map, parts)
        } else {
            Some(st.map)
        };
        match next {
            Some(m) => CMapScan { map: m, ..st },
            None => CMapScan { panicked: true, ..st },
        }
    }
}

/// The state after reading the lines `ls`.
pub open spec fn cmap_scan(ls: Seq<Seq<char>>) -> CMapScan
    decreases ls.len(),
{
    if ls.len() == 0 {
        CMapScan { map: Map::empty(), in_bfchar: false, in_bfrange: false, panicked: false }
    } else {
        cmap_step(cmap_scan(ls.drop_last()), ls.last())
    }
}

/// Once reading has panicked, it stays panicked.
proof fn lemma_panic_persists(ls: Seq<Seq<char>>, k: int)
    requires
        0 <= k <= ls.len(),
        cmap_scan(ls.take(k)).panicked,
    ensures
        cmap_scan(ls).panicked,
    decreases ls.len() - k,
{
    if k < ls.len() {
        assert(ls.take(k + 1).drop_last() =~= ls.take(k));
        lemma_panic_persists(ls, k + 1);
    } else {
        assert(ls.take(k) =~= ls);
    }
}

/// The mapping that the CMap stream `data` defines, or `None` where reading
/// it panics.
pub open spec fn cmap_of(data: Seq<u8>) -> Option<Map<Seq<u8>, Seq<char>>> {
    let st = cmap_scan(lines(utf8_lossy(data)));
    if st.panicked {
        None
    } else {
        Some(st.map)
    }
}

/// The one-character string `c`.
fn string_of_char(c: char) -> (r: String)
    ensures
        r@ == seq![c],
{
    let mut s = String::new();
    crate::text::string_push(&mut s, c);
    s
}

/// Applies one `bfchar` line with tokens `parts` to `map`; false where a hex
/// token is cut inside a character, `map` then being left as it was.
fn apply_bfchar(map: &mut CMap, parts: &Vec<Vec<char>>) -> (ok: bool)
    requires
        old(map).wf(),
        parts@.len() >= 2,
    ensures
        final(map).wf(),
        match bfchar_line(old(map)@, seqs_of(parts@)) {
            Some(m) => ok && final(map)@ == m,
            None => !ok,
        },
{
    let ghost pv = seqs_of(parts@);
    assert(pv[0] == parts@[0]@ && pv[1] == parts@[1]@);
    let a = scan_hex_token(parts[0].as_slice());
    let b = scan_hex_token(parts[1].as_slice());
    match (a, b) {
        (HexScan::Panics, _) => false,
        (_, HexScan::Panics) => false,
        (HexScan::Bytes(src), HexScan::Bytes(dst)) => {
            let code = bytes_to_u32(dst.as_slice());
            match char_from_u32(code) {
                Some(ch) => {
                    map.insert(src, string_of_char(ch));
                },
                None => {},
            }
            true
        },
        _ => true,
    }
}

/// Applies one `bfrange` line with tokens `parts` to `map`; false where a
/// hex token is cut inside a character or a value passes `u32::MAX`.
fn apply_bfrange(map: &mut CMap, parts: &Vec<Vec<char>>) -> (ok: bool)
    requires
        old(map).wf(),
        parts@.len() >= 3,
    ensures
        final(map).wf(),
        match bfrange_line(old(map)@, seqs_of(parts@)) {
            Some(m) => ok && final(map)@ == m,
            None => !ok,
        },
{
    let ghost pv = seqs_of(parts@);
    assert(pv[0] == parts@[0]@ && pv[1] == parts@[1]@ && pv[2] == parts@[2]@);
    let a = scan_hex_token(parts[0].as_slice());
    let b = scan_hex_token(parts[1].as_slice());
    let c = scan_hex_token(parts[2].as_slice());
    match (a, b, c) {
        (HexScan::Panics, _, _) => false,
        (_, HexScan::Panics, _) => false,
        (_, _, HexScan::Panics) => false,
        (HexScan::Bytes(sb), HexScan::Bytes(eb), HexScan::Bytes(db)) => {
            let s_val = bytes_to_u32(sb.as_slice());
            let e_val = bytes_to_u32(eb.as_slice());
            let d_val = bytes_to_u32(db.as_slice());
            let klen = sb.len();
            let n: u32 = if e_val >= s_val {
                e_val - s_val
            } else {
                0
            };
            if (d_val as u64) + (n as u64) > 0xFFFF_FFFFu64 {
                return false;
            }
            let ghost m0 = old(map)@;
            let mut delta: u64 = 0;
            while delta <= n as u64
                invariant
                    map.wf(),
                    0 <= delta <= n as u64 + 1,
                    d_val + n <= u32::MAX,
                    n == (if e_val >= s_val {
                        (e_val - s_val) as nat
                    } else {
                        0nat
                    }),
                    s_val as int + n <= u32::MAX,
                    map@ == insert_range(m0, s_val, d_val, klen as nat, delta as nat),
                decreases n as u64 + 1 - delta,
            {
                let dd = delta as u32;
                match char_from_u32(d_val + dd) {
                    Some(ch) => {
                        let cid: u32 = s_val + dd;
                        let mut key: Vec<u8> = Vec::new();
                        if klen == 1 {
                            key.push((cid % 256) as u8);
                        } else {
                            key.push(((cid / 256) % 256) as u8);
                            key.push((cid % 256) as u8);
                        }
                        assert(key@ =~= range_key(cid, klen as nat));
                        map.insert(key, string_of_char(ch));
                    },
                    None => {},
                }
                delta = delta + 1;
            }
            true
        },
        _ => true,
    }
}

/// Parses a ToUnicode CMap stream: the `bfchar` lines `<src> <dst>` and the
/// `bfrange` lines `<start> <end> <dst>` between their `begin..`/`end..` lines.
/// `None` exactly where a hex token is cut inside a character or a range's
/// text values pass `u32::MAX`, where reading the stream panics.
pub fn parse_cmap(data: &[u8]) -> (r: Option<CMap>)
    ensures
        match r {
            Some(c) => c.wf() && cmap_of(data@) == Some(c@),
            None => cmap_of(data@) is None,
        },
{
    let text = from_utf8_lossy(data);
    let chars = chars_of(text.as_str());
    let all_lines = lines_of(chars.as_slice());
    let ghost ls = seqs_of(all_lines@);
    let begin_char = chars_of("beginbfchar");
    let end_char = chars_of("endbfchar");
    let begin_range = chars_of("beginbfrange");
    let end_range = chars_of("endbfrange");
    let mut map = CMap::new();
    let mut in_bfchar = false;
    let mut in_bfrange = false;
    let mut i: usize = 0;
    assert(ls.take(0) =~= Seq::<Seq<char>>::empty());
    while i < all_lines.len()
        invariant
            0 <= i <= all_lines@.len(),
            ls == seqs_of(all_lines@),
            ls == lines(utf8_lossy(data@)),
            begin_char@ == "beginbfchar"@,
            end_char@ == "endbfchar"@,
            begin_range@ == "beginbfrange"@,
            end_range@ == "endbfrange"@,
            map.wf(),
            cmap_scan(ls.take(i as int)) == (CMapScan {
                map: map@,
                in_bfchar,
                in_bfrange,
                panicked: false,
            }),
        decreases all_lines@.len() - i,
    {
        assert(ls.take(i + 1).drop_last() =~= ls.take(i as int));
        assert(ls.take(i + 1).last() == all_lines@[i as int]@);
        let line = trim_chars(all_lines[i].as_slice());
        if chars_eq(line.as_slice(), begin_char.as_slice()) {
            in_bfchar = true;
        } else if chars_eq(line.as_slice(), end_char.as_slice()) {
            in_bfchar = false;
        } else if chars_eq(line.as_slice(), begin_range.as_slice()) {
            in_bfrange = true;
        } else if chars_eq(line.as_slice(), end_range.as_slice()) {
            in_bfrange = false;
        } else {
            let parts = tokens_of(line.as_slice());
            let ghost pv = seqs_of(parts@);
            if in_bfchar && parts.len() >= 2 {
                if !apply_bfchar(&mut map, &parts) {
                    proof {
                        assert(cmap_scan(ls.take(i + 1)).panicked);
                        lemma_panic_persists(ls, i + 1);
                        assert(ls.take(ls.len() as int) =~= ls);
                    }
                    return None;
                }
            } else if in_bfrange && parts.len() >= 3 && parts[2].len() >= 1 && parts[2][0] == '<' {
                assert(pv[2] == parts@[2]@);
                assert(starts_with(pv[2], seq!['<'])) by {
                    assert(pv[2].take(1) =~= seq!['<']);
                }
                if !apply_bfrange(&mut map, &parts) {
                    proof {
                        assert(cmap_scan(ls.take(i + 1)).panicked);
                        lemma_panic_persists(ls, i + 1);
                    }
                    return None;
                }
            } else {
                assert(in_bfrange && parts@.len() >= 3 ==> !starts_with(pv[2], seq!['<'])) by {
                    if in_bfrange && parts@.len() >= 3 && starts_with(pv[2], seq!['<']) {
                        assert(pv[2] == parts@[2]@);
                        assert(pv[2].take(1)[0] == '<');
                    }
                }
            }
        }
        i = i + 1;
    }
    assert(ls.take(all_lines@.len() as int) =~= ls);
    Some(map)
}

/// The text that the string bytes `bytes` stand for under mapping `m`: at
/// each position a mapped two-byte code first, else a mapped one-byte code,
/// else the byte is skipped.
pub open spec fn decode_bytes(bytes: Seq<u8>, m: Map<Seq<u8>, Seq<char>>) -> Seq<char>
    decreases bytes.len(),
{
    if bytes.len() == 0 {
        seq![]
    } else if bytes.len() >= 2 && m.contains_key(bytes.take(2)) {
        m[bytes.take(2)] + decode_bytes(bytes.skip(2), m)
    } else if m.contains_key(bytes.take(1)) {
        m[bytes.take(1)] + decode_bytes(bytes.skip(1), m)
    } else {
        decode_bytes(bytes.skip(1), m)
    }
}

/// Decodes the string bytes `bytes` with the CMap `cmap`.
pub fn decode_with_cmap(bytes: &[u8], cmap: &CMap) -> (r: String)
    ensures
        r@ == decode_bytes(bytes@, cmap@),
{
    let n = bytes.len();
    let mut out: Vec<char> = Vec::new();
    let mut i: usize = 0;
    assert(bytes@.subrange(0, n as int) =~= bytes@);
    while i < n
        invariant
            0 <= i <= n,
            n == bytes@.len(),
            decode_bytes(bytes@, cmap@) == out@ + decode_bytes(
                bytes@.subrange(i as int, n as int),
                cmap@,
            ),
        decreases n - i,
    {
        let ghost rest = bytes@.subrange(i as int, n as int);
        if i + 1 < n {
            let mut key2: Vec<u8> = Vec::new();
            key2.push(bytes[i]);
            key2.push(bytes[i + 1]);
            assert(key2@ =~= rest.take(2));
            match cmap.get(key2.as_slice()) {
                Some(s) => {
                    let piece = chars_of(s.as_str());
                    append_chars(&mut out, piece.as_slice());
                    assert(rest.skip(2) =~= bytes@.subrange(i + 2, n as int));
                    i = i + 2;
                    continue;
                },
                None => {},
            }
        }
        let mut key1: Vec<u8> = Vec::new();
        key1.push(bytes[i]);
        assert(key1@ =~= rest.take(1));
        assert(rest.skip(1) =~= bytes@.subrange(i + 1, n as int));
        match cmap.get(key1.as_slice()) {
            Some(s) => {
                let piece = chars_of(s.as_str());
                append_chars(&mut out, piece.as_slice());
            },
            None => {},
        }
        i = i + 1;
    }
    assert(bytes@.subrange(n as int, n as int) =~= Seq::<u8>::empty());
    string_of(out.as_slice())
}

} // verus!

//! Text and entity normalization.
//!
//! Character and entity references decode to scalars that are emitted
//! verbatim, bypassing the line-ending and whitespace substitution applied
//! to plain characters. Line endings in text collapse to a single `\n`;
//! inside attribute values, tab, line feed and carriage return each collapse
//! to a single space.

use vstd::prelude::*;

use crate::pos::{spec_char_bytes, spec_sat_add, char_bytes, sat_add};
use crate::chars::{chars_vec, string_from_chars};

verus! {

// ---------------------------------------------------------------------------
// XML character classes
// ---------------------------------------------------------------------------

/// Whether `c` is allowed anywhere in an XML document.
pub open spec fn spec_is_xml_char(c: char) -> bool {
    let u = c as u32;
    u == 0x9 || u == 0xA || u == 0xD || (0x20 <= u && u <= 0xD7FF) || (0xE000 <= u && u
        <= 0xFFFD) || (0x10000 <= u && u <= 0x10FFFF)
}

/// Whether `c` may start an XML name.
pub open spec fn spec_is_name_start(c: char) -> bool {
    let u = c as u32;
    (u == 0x3A)  // ':'
     || (0x41 <= u && u <= 0x5A)  // 'A'..='Z'
     || (u == 0x5F)  // '_'
     || (0x61 <= u && u <= 0x7A)  // 'a'..='z'
     || (0xC0 <= u && u <= 0xD6) || (0xD8 <= u && u <= 0xF6) || (0xF8 <= u && u <= 0x2FF) || (0x370
        <= u && u <= 0x37D) || (0x37F <= u && u <= 0x1FFF) || (0x200C <= u && u <= 0x200D) || (
    0x2070 <= u && u <= 0x218F) || (0x2C00 <= u && u <= 0x2FEF) || (0x3001 <= u && u <= 0xD7FF) || (
    0xF900 <= u && u <= 0xFDCF) || (0xFDF0 <= u && u <= 0xFFFD) || (0x10000 <= u && u <= 0xEFFFF)
}

/// Whether `c` may appear after the first character of an XML name.
pub open spec fn spec_is_name_char(c: char) -> bool {
    let u = c as u32;
    spec_is_name_start(c) || (u == 0x2D)  // '-'
     || (u == 0x2E)  // '.'
     || (0x30 <= u && u <= 0x39)  // '0'..='9'
     || (u == 0xB7) || (0x300 <= u && u <= 0x36F) || (0x203F <= u && u <= 0x2040)
}

/// Whether `c` is allowed anywhere in an XML document.
pub fn is_xml_char(c: char) -> (r: bool)
    ensures
        r == spec_is_xml_char(c),
{
    let u = c as u32;
    u == 0x9 || u == 0xA || u == 0xD || (0x20 <= u && u <= 0xD7FF) || (0xE000 <= u && u
        <= 0xFFFD) || (0x10000 <= u && u <= 0x10FFFF)
}

/// Whether `c` may start an XML name.
pub fn is_name_start(c: char) -> (r: bool)
    ensures
        r == spec_is_name_start(c),
{
    let u = c as u32;
    (u == 0x3A) || (0x41 <= u && u <= 0x5A) || (u == 0x5F) || (0x61 <= u && u <= 0x7A) || (0xC0 <= u
        && u <= 0xD6) || (0xD8 <= u && u <= 0xF6) || (0xF8 <= u && u <= 0x2FF) || (0x370 <= u && u
        <= 0x37D) || (0x37F <= u && u <= 0x1FFF) || (0x200C <= u && u <= 0x200D) || (0x2070 <= u
        && u <= 0x218F) || (0x2C00 <= u && u <= 0x2FEF) || (0x3001 <= u && u <= 0xD7FF) || (0xF900
        <= u && u <= 0xFDCF) || (0xFDF0 <= u && u <= 0xFFFD) || (0x10000 <= u && u <= 0xEFFFF)
}

/// Whether `c` may appear after the first character of an XML name.
pub fn is_name_char(c: char) -> (r: bool)
    ensures
        r == spec_is_name_char(c),
{
    let u = c as u32;
    is_name_start(c) || (u == 0x2D) || (u == 0x2E) || (0x30 <= u && u <= 0x39) || (u == 0xB7) || (
    0x300 <= u && u <= 0x36F) || (0x203F <= u && u <= 0x2040)
}

// ---------------------------------------------------------------------------
// The text buffer
// ---------------------------------------------------------------------------

/// What `push_from_attr` does: inside an attribute value a `\r\n` pair
/// contributes nothing, and a lone tab, line feed or carriage return becomes
/// a single space.
pub open spec fn spec_push_from_attr(buf: Seq<char>, current: char, next: Option<char>) -> Seq<
    char,
> {
    if current == '\r' && next == Some('\n') {
        buf
    } else if current == '\n' || current == '\r' || current == '\t' {
        buf.push(' ')
    } else {
        buf.push(current)
    }
}

/// What `push_from_text` does: a pending `\r` left at the end of the buffer
/// becomes `\n` once the following character is known, a `\r\n` pair becomes
/// a single `\n`, and a `\r` that ends the chunk becomes `\n` at once.
pub open spec fn spec_push_from_text(buf: Seq<char>, c: char, at_end: bool) -> Seq<char> {
    if buf.len() > 0 && buf.last() == '\r' {
        let swapped = buf.update(buf.len() - 1, '\n');
        if at_end && c == '\r' {
            swapped.push('\n')
        } else if c != '\n' {
            swapped.push(c)
        } else {
            swapped
        }
    } else if at_end && c == '\r' {
        buf.push('\n')
    } else {
        buf.push(c)
    }
}

/// An output buffer for normalized text.
pub struct TextBuffer {
    pub buffer: Vec<char>,
}

impl View for TextBuffer {
    type V = Seq<char>;

    open spec fn view(&self) -> Seq<char> {
        self.buffer@
    }
}

impl TextBuffer {
    /// A fresh, empty buffer.
    pub fn new() -> (r: TextBuffer)
        ensures
            r@ == Seq::<char>::empty(),
    {
        TextBuffer { buffer: Vec::new() }
    }

    /// Appends a character verbatim, with no substitution at all.
    pub fn push_raw(&mut self, c: char)
        ensures
            final(self)@ == old(self)@.push(c),
    {
        self.buffer.push(c);
    }

    /// Appends a plain character of an attribute value.
    pub fn push_from_attr(&mut self, current: char, next: Option<char>)
        ensures
            final(self)@ == spec_push_from_attr(old(self)@, current, next),
    {
        if current == '\r' && next == Some('\n') {
            return ;
        }
        let c = if current == '\n' || current == '\r' || current == '\t' {
            ' '
        } else {
            current
        };
        self.buffer.push(c);
    }

    /// Appends a plain character of a text run, normalizing line endings.
    pub fn push_from_text(&mut self, c: char, at_end: bool)
        ensures
            final(self)@ == spec_push_from_text(old(self)@, c, at_end),
    {
        let n = self.buffer.len();
        if n > 0 && self.buffer[n - 1] == '\r' {
            self.buffer.set(n - 1, '\n');
            if at_end && c == '\r' {
                self.buffer.push('\n');
            } else if c != '\n' {
                self.buffer.push(c);
            }
        } else if at_end && c == '\r' {
            self.buffer.push('\n');
        } else {
            self.buffer.push(c);
        }
    }

    /// Whether nothing has been pushed.
    pub fn is_empty(&self) -> (r: bool)
        ensures
            r == (self@.len() == 0),
    {
        self.buffer.len() == 0
    }

    /// Hands the normalized characters out.
    pub fn finish(self) -> (r: Vec<char>)
        ensures
            r@ == self@,
    {
        self.buffer
    }
}

// ---------------------------------------------------------------------------
// Character and entity references
// ---------------------------------------------------------------------------

/// An entity declared in the document's internal subset.
#[derive(Debug, Clone)]
pub struct Entity {
    pub name: String,
    pub value: String,
}

/// The mathematical shape of an [`Entity`].
#[verifier::ext_equal]
pub struct EntityV {
    pub name: Seq<char>,
    pub value: Seq<char>,
}

impl View for Entity {
    type V = EntityV;

    open spec fn view(&self) -> EntityV {
        EntityV { name: self.name@, value: self.value@ }
    }
}

/// The view of a whole entity table.
pub open spec fn entities_view(s: Seq<Entity>) -> Seq<EntityV> {
    s.map_values(|e: Entity| e@)
}

/// The replacement text of the first entity with the given name, if any.
pub open spec fn spec_find_entity(ents: Seq<EntityV>, name: Seq<char>) -> Option<Seq<char>>
    decreases ents.len(),
{
    if ents.len() == 0 {
        None
    } else if ents[0].name == name {
        Some(ents[0].value)
    } else {
        spec_find_entity(ents.drop_first(), name)
    }
}

/// What scanning a reference at a `&` yields.
#[derive(Debug, Clone, Copy, PartialEq, Eq, Structural)]
pub enum RefScan {
    /// The reference does not parse.
    RefFail,
    /// A character reference or a predefined entity, with the index just
    /// past the closing `;`.
    RefChar { c: char, next: usize },
    /// A named entity, as the index range of its name and the index just
    /// past the closing `;`.
    RefEntity { name_start: usize, name_end: usize, next: usize },
}

/// A failure inside a text run or an attribute value, with the saturated
/// absolute byte offset at which it was found.
#[derive(Debug, Clone, Copy, PartialEq, Eq, Structural)]
pub enum TextFault {
    /// A reference that does not parse.
    Malformed { pos: usize },
    /// A named reference that is not defined, as an index range into the
    /// chunk being normalized.
    Unknown { name_start: usize, name_end: usize, pos: usize },
}

/// The numeric value of a digit character, if it is one.
pub open spec fn spec_dig_val(c: char, hex: bool) -> Option<u32> {
    let u = c as u32;
    if 0x30 <= u && u <= 0x39 {
        Some((u - 0x30) as u32)
    } else if hex && 0x41 <= u && u <= 0x46 {
        Some((u - 0x41 + 10) as u32)
    } else if hex && 0x61 <= u && u <= 0x66 {
        Some((u - 0x61 + 10) as u32)
    } else {
        None
    }
}

/// Accumulates one digit into a code point, pinning anything above the
/// Unicode maximum at an invalid value.
pub open spec fn spec_ref_acc(acc: u32, radix: u32, d: u32) -> u32 {
    if acc > 0x10FFFF {
        0x110000u32
    } else if acc * radix + d > 0x10FFFF {
        0x110000u32
    } else {
        (acc * radix + d) as u32
    }
}

/// Scans a run of digits from `i`, returning the index past the run and the
/// accumulated code point.
pub open spec fn spec_scan_num(s: Seq<char>, i: int, hex: bool, acc: u32) -> (int, u32)
    decreases s.len() - i,
{
    if i < 0 || i >= s.len() {
        (i, acc)
    } else {
        match spec_dig_val(s[i], hex) {
            Some(d) => spec_scan_num(
                s,
                i + 1,
                hex,
                spec_ref_acc(
                    acc,
                    if hex {
                        16
                    } else {
                        10
                    },
                    d,
                ),
            ),
            None => (i, acc),
        }
    }
}

/// Scans name characters from `i`, returning the index past the run.
pub open spec fn spec_scan_name_end(s: Seq<char>, i: int) -> int
    decreases s.len() - i,
{
    if i < 0 || i >= s.len() {
        i
    } else if spec_is_name_char(s[i]) {
        spec_scan_name_end(s, i + 1)
    } else {
        i
    }
}

/// The character of one of the five predefined entities, if the name in
/// `s[a..j]` is one of them.
pub open spec fn spec_predefined(s: Seq<char>, a: int, j: int) -> Option<char> {
    if j - a == 3 && s[a] == 'a' && s[a + 1] == 'm' && s[a + 2] == 'p' {
        Some('&')
    } else if j - a == 2 && s[a] == 'l' && s[a + 1] == 't' {
        Some('<')
    } else if j - a == 2 && s[a] == 'g' && s[a + 1] == 't' {
        Some('>')
    } else if j - a == 4 && s[a] == 'a' && s[a + 1] == 'p' && s[a + 2] == 'o' && s[a + 3] == 's' {
        Some('\'')
    } else if j - a == 4 && s[a] == 'q' && s[a + 1] == 'u' && s[a + 2] == 'o' && s[a + 3] == 't' {
        Some('"')
    } else {
        None
    }
}

/// The character a numeric reference denotes, if the code point is a valid
/// scalar and an XML character.
pub open spec fn spec_ref_char(v: u32) -> Option<char> {
    if v < 0xD800 || (0xE000 <= v && v < 0x110000) {
        if spec_is_xml_char(v as char) {
            Some(v as char)
        } else {
            None
        }
    } else {
        None
    }
}

/// Scans the reference starting at the `&` at index `i`.
pub open spec fn spec_scan_ref(s: Seq<char>, i: int) -> RefScan {
    let a = i + 1;
    if a < s.len() && s[a] == '#' {
        if a + 1 < s.len() && s[a + 1] == 'x' {
            let jv = spec_scan_num(s, a + 2, true, 0);
            if jv.0 == a + 2 {
                RefScan::RefFail
            } else if jv.0 < s.len() && s[jv.0] == ';' {
                match spec_ref_char(jv.1) {
                    Some(c) => RefScan::RefChar { c, next: (jv.0 + 1) as usize },
                    None => RefScan::RefFail,
                }
            } else {
                RefScan::RefFail
            }
        } else {
            let jv = spec_scan_num(s, a + 1, false, 0);
            if jv.0 == a + 1 {
                RefScan::RefFail
            } else if jv.0 < s.len() && s[jv.0] == ';' {
                match spec_ref_char(jv.1) {
                    Some(c) => RefScan::RefChar { c, next: (jv.0 + 1) as usize },
                    None => RefScan::RefFail,
                }
            } else {
                RefScan::RefFail
            }
        }
    } else if a < s.len() && spec_is_name_start(s[a]) {
        let j = spec_scan_name_end(s, a + 1);
        if j < s.len() && s[j] == ';' {
            match spec_predefined(s, a, j) {
                Some(c) => RefScan::RefChar { c, next: (j + 1) as usize },
                None => RefScan::RefEntity {
                    name_start: a as usize,
                    name_end: j as usize,
                    next: (j + 1) as usize,
                },
            }
        } else {
            RefScan::RefFail
        }
    } else {
        RefScan::RefFail
    }
}

proof fn lemma_scan_num_bounds(s: Seq<char>, i: int, hex: bool, acc: u32)
    requires
        0 <= i <= s.len(),
    ensures
        i <= spec_scan_num(s, i, hex, acc).0 <= s.len(),
    decreases s.len() - i,
{
    if i < s.len() {
        match spec_dig_val(s[i], hex) {
            Some(d) => {
                lemma_scan_num_bounds(
                    s,
                    i + 1,
                    hex,
                    spec_ref_acc(
                        acc,
                        if hex {
                            16
                        } else {
                            10
                        },
                        d,
                    ),
                );
            },
            None => {},
        }
    }
}

proof fn lemma_scan_name_bounds(s: Seq<char>, i: int)
    requires
        0 <= i <= s.len(),
    ensures
        i <= spec_scan_name_end(s, i) <= s.len(),
    decreases s.len() - i,
{
    if i < s.len() && spec_is_name_char(s[i]) {
        lemma_scan_name_bounds(s, i + 1);
    }
}

/// The numeric value of a digit character, if it is one.
fn dig_val(c: char, hex: bool) -> (r: Option<u32>)
    ensures
        r == spec_dig_val(c, hex),
{
    let u = c as u32;
    if 0x30 <= u && u <= 0x39 {
        Some(u - 0x30)
    } else if hex && 0x41 <= u && u <= 0x46 {
        Some(u - 0x41 + 10)
    } else if hex && 0x61 <= u && u <= 0x66 {
        Some(u - 0x61 + 10)
    } else {
        None
    }
}

/// Scans a run of digits from `i`.
fn scan_num(s: &Vec<char>, i: usize, hex: bool) -> (r: (usize, u32))
    requires
        i <= s@.len(),
    ensures
        (r.0 as int, r.1) == spec_scan_num(s@, i as int, hex, 0),
        i <= r.0 <= s@.len(),
{
    let radix: u32 = if hex {
        16
    } else {
        10
    };
    let mut j: usize = i;
    let mut acc: u32 = 0;
    while j < s.len()
        invariant
            i <= j <= s@.len(),
            acc <= 0x110000,
            radix == if hex { 16u32 } else { 10u32 },
            spec_scan_num(s@, i as int, hex, 0) == spec_scan_num(s@, j as int, hex, acc),
        decreases s@.len() - j,
    {
        match dig_val(s[j], hex) {
            Some(d) => {
                let wide: u64 = (acc as u64) * (radix as u64) + (d as u64);
                acc = if acc > 0x10FFFF {
                    0x110000
                } else if wide > 0x10FFFF {
                    0x110000
                } else {
                    wide as u32
                };
                j = j + 1;
            },
            None => {
                return (j, acc);
            },
        }
    }
    (j, acc)
}

/// Scans name characters from `i`.
fn scan_name_end(s: &Vec<char>, i: usize) -> (r: usize)
    requires
        i <= s@.len(),
    ensures
        r as int == spec_scan_name_end(s@, i as int),
        i <= r <= s@.len(),
{
    let mut j: usize = i;
    while j < s.len()
        invariant
            i <= j <= s@.len(),
            spec_scan_name_end(s@, i as int) == spec_scan_name_end(s@, j as int),
        decreases s@.len() - j,
    {
        if !is_name_char(s[j]) {
            return j;
        }
        j = j + 1;
    }
    j
}

/// Scans the reference starting at the `&` at index `i`.
pub fn scan_ref(s: &Vec<char>, i: usize) -> (r: RefScan)
    requires
        i < s@.len(),
    ensures
        r == spec_scan_ref(s@, i as int),
{
    let n = s.len();
    if i + 1 < n && s[i + 1] == '#' {
        let hex = i + 2 < n && s[i + 2] == 'x';
        let first: usize = if hex {
            i + 3
        } else {
            i + 2
        };
        let jv = scan_num(s, first, hex);
        let j = jv.0;
        if j == first {
            RefScan::RefFail
        } else if j < n && s[j] == ';' {
            match char::from_u32(jv.1) {
                Some(c) => {
                    if is_xml_char(c) {
                        proof {
                            vstd::utf8::char_u32_cast(c, jv.1);
                        }
                        RefScan::RefChar { c, next: j + 1 }
                    } else {
                        RefScan::RefFail
                    }
                },
                None => RefScan::RefFail,
            }
        } else {
            RefScan::RefFail
        }
    } else if i + 1 < n && is_name_start(s[i + 1]) {
        let a = i + 1;
        let j = scan_name_end(s, a + 1);
        if j < n && s[j] == ';' {
            let len = j - a;
            if len == 3 && s[a] == 'a' && s[a + 1] == 'm' && s[a + 2] == 'p' {
                RefScan::RefChar { c: '&', next: j + 1 }
            } else if len == 2 && s[a] == 'l' && s[a + 1] == 't' {
                RefScan::RefChar { c: '<', next: j + 1 }
            } else if len == 2 && s[a] == 'g' && s[a + 1] == 't' {
                RefScan::RefChar { c: '>', next: j + 1 }
            } else if len == 4 && s[a] == 'a' && s[a + 1] == 'p' && s[a + 2] == 'o' && s[a + 3]
                == 's' {
                RefScan::RefChar { c: '\'', next: j + 1 }
            } else if len == 4 && s[a] == 'q' && s[a + 1] == 'u' && s[a + 2] == 'o' && s[a + 3]
                == 't' {
                RefScan::RefChar { c: '"', next: j + 1 }
            } else {
                RefScan::RefEntity { name_start: a, name_end: j, next: j + 1 }
            }
        } else {
            RefScan::RefFail
        }
    } else {
        RefScan::RefFail
    }
}

/// A successful reference scan always moves past the `&`.
pub proof fn lemma_scan_ref_next(s: Seq<char>, i: int)
    requires
        0 <= i < s.len(),
        s.len() <= usize::MAX,
    ensures
        spec_scan_ref(s, i) matches RefScan::RefChar { next, .. } ==> i < next <= s.len(),
        spec_scan_ref(s, i) matches RefScan::RefEntity { name_start, name_end, next } ==> i
            < name_start <= name_end < next <= s.len(),
{
    let a = i + 1;
    if a < s.len() && s[a] == '#' {
        if a + 1 < s.len() && s[a + 1] == 'x' {
            lemma_scan_num_bounds(s, a + 2, true, 0);
        } else {
            lemma_scan_num_bounds(s, a + 1, false, 0);
        }
    } else if a < s.len() && spec_is_name_start(s[a]) {
        lemma_scan_name_bounds(s, a + 1);
    }
}

// ---------------------------------------------------------------------------
// Attribute-value normalization
// ---------------------------------------------------------------------------

/// Advances a saturated byte offset over the characters `s[i..j]`.
pub open spec fn spec_off_advance(s: Seq<char>, i: int, j: int, off: int) -> int
    decreases j - i,
{
    if i >= j {
        off
    } else {
        spec_off_advance(s, i + 1, j, spec_sat_add(off, spec_char_bytes(s[i])))
    }
}

/// Advances a saturated byte offset over the characters `s[i..j]`.
fn advance_off(s: &Vec<char>, i: usize, j: usize, off: usize) -> (r: usize)
    requires
        i <= j <= s@.len(),
    ensures
        r as int == spec_off_advance(s@, i as int, j as int, off as int),
{
    let mut k: usize = i;
    let mut o: usize = off;
    while k < j
        invariant
            i <= k <= j <= s@.len(),
            spec_off_advance(s@, k as int, j as int, o as int) == spec_off_advance(
                s@,
                i as int,
                j as int,
                off as int,
            ),
        decreases j - k,
    {
        o = sat_add(o, char_bytes(s[k]) as usize);
        k = k + 1;
    }
    o
}

/// Whether the characters `s[a..b]` spell exactly the string `t`.
fn chars_match_str(s: &Vec<char>, a: usize, b: usize, t: &str) -> (r: bool)
    requires
        a <= b <= s@.len(),
    ensures
        r == (s@.subrange(a as int, b as int) == t@),
{
    let tn = t.unicode_len();
    if tn != b - a {
        assert(s@.subrange(a as int, b as int).len() != t@.len());
        return false;
    }
    let mut k: usize = 0;
    while k < tn
        invariant
            0 <= k <= tn,
            tn == t@.len(),
            tn == b - a,
            a <= b <= s@.len(),
            forall|m: int| 0 <= m < k ==> s@[a + m] == t@[m],
        decreases tn - k,
    {
        if s[a + k] != t.get_char(k) {
            assert(s@.subrange(a as int, b as int)[k as int] != t@[k as int]);
            return false;
        }
        k = k + 1;
    }
    proof {
        assert(s@.subrange(a as int, b as int) =~= t@);
    }
    true
}

/// Finds the first entity whose name spells `s[a..b]`.
fn find_entity(ents: &Vec<Entity>, s: &Vec<char>, a: usize, b: usize) -> (r: Option<usize>)
    requires
        a <= b <= s@.len(),
    ensures
        match r {
            Some(k) => k < ents@.len() && spec_find_entity(
                entities_view(ents@),
                s@.subrange(a as int, b as int),
            ) == Some(ents@[k as int].value@),
            None => spec_find_entity(entities_view(ents@), s@.subrange(a as int, b as int))
                is None,
        },
{
    let ghost name = s@.subrange(a as int, b as int);
    let ghost ev = entities_view(ents@);
    proof {
        assert(ev.skip(0) =~= ev);
    }
    let mut k: usize = 0;
    while k < ents.len()
        invariant
            0 <= k <= ents@.len(),
            a <= b <= s@.len(),
            name == s@.subrange(a as int, b as int),
            ev == entities_view(ents@),
            spec_find_entity(ev, name) == spec_find_entity(ev.skip(k as int), name),
        decreases ents@.len() - k,
    {
        if chars_match_str(s, a, b, ents[k].name.as_str()) {
            assert(ev.skip(k as int)[0] == ev[k as int]);
            return Some(k);
        }
        proof {
            assert(ev.skip(k as int)[0] == ev[k as int]);
            assert(ev.skip(k as int).drop_first() =~= ev.skip(k as int + 1));
        }
        k = k + 1;
    }
    proof {
        assert(ev.skip(k as int) =~= Seq::<EntityV>::empty());
    }
    None
}

/// Normalizes an attribute value from index `i` on: plain characters go
/// through the whitespace substitution, references decode and are emitted
/// verbatim. `off` is the saturated absolute byte offset of `s[i]`.
pub open spec fn spec_norm_attr_from(
    s: Seq<char>,
    ents: Seq<EntityV>,
    has_subset: bool,
    i: int,
    off: int,
    buf: Seq<char>,
) -> Result<Seq<char>, TextFault>
    decreases s.len() - i,
        when s.len() <= usize::MAX
        via spec_norm_attr_dec
{
    if i < 0 || i >= s.len() {
        Ok(buf)
    } else {
        let c = s[i];
        if c != '&' {
            let nxt: Option<char> = if i + 1 < s.len() {
                Some(s[i + 1])
            } else {
                None
            };
            spec_norm_attr_from(
                s,
                ents,
                has_subset,
                i + 1,
                spec_sat_add(off, spec_char_bytes(c)),
                spec_push_from_attr(buf, c, nxt),
            )
        } else {
            match spec_scan_ref(s, i) {
                RefScan::RefFail => Err(TextFault::Malformed { pos: off as usize }),
                RefScan::RefChar { c: rc, next } => spec_norm_attr_from(
                    s,
                    ents,
                    has_subset,
                    next as int,
                    spec_off_advance(s, i, next as int, off),
                    buf.push(rc),
                ),
                RefScan::RefEntity { name_start, name_end, next } => {
                    match spec_find_entity(
                        ents,
                        s.subrange(name_start as int, name_end as int),
                    ) {
                        Some(v) => spec_norm_attr_from(
                            s,
                            ents,
                            has_subset,
                            next as int,
                            spec_off_advance(s, i, next as int, off),
                            buf + v,
                        ),
                        None => Err(
                            if has_subset {
                                TextFault::Unknown { name_start, name_end, pos: off as usize }
                            } else {
                                TextFault::Malformed { pos: off as usize }
                            },
                        ),
                    }
                },
            }
        }
    }
}

#[via_fn]
proof fn spec_norm_attr_dec(
    s: Seq<char>,
    ents: Seq<EntityV>,
    has_subset: bool,
    i: int,
    off: int,
    buf: Seq<char>,
) {
    if 0 <= i < s.len() && s[i] == '&' {
        lemma_scan_ref_next(s, i);
    }
}

/// The whole normalized attribute value, starting from an empty buffer at
/// the byte offset of the raw value.
pub open spec fn spec_norm_attr(
    s: Seq<char>,
    ents: Seq<EntityV>,
    has_subset: bool,
    value_pos: int,
) -> Result<Seq<char>, TextFault> {
    spec_norm_attr_from(s, ents, has_subset, 0, value_pos, Seq::<char>::empty())
}

/// Whether an attribute value contains a character that normalization could
/// change.
pub open spec fn spec_needs_norm(s: Seq<char>) -> bool {
    exists|k: int|
        0 <= k < s.len() && (s[k] == '&' || s[k] == '\t' || s[k] == '\n' || s[k] == '\r')
}

/// On a value without references or whitespace to substitute, normalization
/// gives the value back unchanged.
proof fn lemma_norm_attr_plain(
    s: Seq<char>,
    ents: Seq<EntityV>,
    has_subset: bool,
    i: int,
    off: int,
    buf: Seq<char>,
)
    requires
        0 <= i <= s.len() <= usize::MAX,
        forall|k: int|
            i <= k < s.len() ==> s[k] != '&' && s[k] != '\t' && s[k] != '\n' && s[k] != '\r',
    ensures
        spec_norm_attr_from(s, ents, has_subset, i, off, buf) == Ok::<Seq<char>, TextFault>(
            buf + s.skip(i),
        ),
    decreases s.len() - i,
{
    if i >= s.len() {
        assert(buf + s.skip(i) =~= buf);
    } else {
        let c = s[i];
        let nxt: Option<char> = if i + 1 < s.len() {
            Some(s[i + 1])
        } else {
            None
        };
        assert(spec_push_from_attr(buf, c, nxt) == buf.push(c));
        lemma_norm_attr_plain(
            s,
            ents,
            has_subset,
            i + 1,
            spec_sat_add(off, spec_char_bytes(c)),
            buf.push(c),
        );
        assert(buf.push(c) + s.skip(i + 1) =~= buf + s.skip(i));
    }
}

/// Whether normalization would change anything of this attribute value.
pub fn is_normalization_required(text: &str) -> (r: bool)
    ensures
        r == spec_needs_norm(text@),
{
    let n = text.unicode_len();
    let mut k: usize = 0;
    while k < n
        invariant
            0 <= k <= n,
            n == text@.len(),
            forall|m: int|
                0 <= m < k ==> text@[m] != '&' && text@[m] != '\t' && text@[m] != '\n' && text@[m]
                    != '\r',
        decreases n - k,
    {
        let c = text.get_char(k);
        if c == '&' || c == '\t' || c == '\n' || c == '\r' {
            return true;
        }
        k = k + 1;
    }
    false
}

/// The normalization loop for an attribute value that needs work, filling
/// the given buffer.
pub fn _normalize_attribute(
    cs: &Vec<char>,
    value_pos: usize,
    ents: &Vec<Entity>,
    has_subset: bool,
    buffer: &mut TextBuffer,
) -> (r: Result<(), TextFault>)
    ensures
        match r {
            Ok(_) => spec_norm_attr_from(
                cs@,
                entities_view(ents@),
                has_subset,
                0,
                value_pos as int,
                old(buffer)@,
            ) == Ok::<Seq<char>, TextFault>(final(buffer)@),
            Err(f) => spec_norm_attr_from(
                cs@,
                entities_view(ents@),
                has_subset,
                0,
                value_pos as int,
                old(buffer)@,
            ) == Err::<Seq<char>, TextFault>(f),
        },
{
    let ghost ev = entities_view(ents@);
    let ghost goal = spec_norm_attr_from(cs@, ev, has_subset, 0, value_pos as int, old(buffer)@);
    proof {
        assert(cs@.len() == cs.len());
    }
    let mut i: usize = 0;
    let mut off: usize = value_pos;
    while i < cs.len()
        invariant
            0 <= i <= cs@.len(),
            cs@.len() <= usize::MAX,
            ev == entities_view(ents@),
            goal == spec_norm_attr_from(cs@, ev, has_subset, 0, value_pos as int, old(buffer)@),
            goal == spec_norm_attr_from(cs@, ev, has_subset, i as int, off as int, buffer@),
        decreases cs@.len() - i,
    {
        let c = cs[i];
        if c != '&' {
            let nxt: Option<char> = if i + 1 < cs.len() {
                Some(cs[i + 1])
            } else {
                None
            };
            buffer.push_from_attr(c, nxt);
            off = sat_add(off, char_bytes(c) as usize);
            i = i + 1;
        } else {
            proof {
                lemma_scan_ref_next(cs@, i as int);
            }
            match scan_ref(cs, i) {
                RefScan::RefFail => {
                    proof {
                        assert(spec_norm_attr_from(cs@, ev, has_subset, i as int, off as int, buffer@)
                            == Err::<Seq<char>, TextFault>(TextFault::Malformed { pos: off }));
                    }
                    return Err(TextFault::Malformed { pos: off });
                },
                RefScan::RefChar { c: rc, next } => {
                    buffer.push_raw(rc);
                    off = advance_off(cs, i, next, off);
                    i = next;
                },
                RefScan::RefEntity { name_start, name_end, next } => {
                    match find_entity(ents, cs, name_start, name_end) {
                        Some(k) => {
                            let vchars = chars_vec(ents[k].value.as_str());
                            let ghost snap = buffer@;
                            let mut m: usize = 0;
                            while m < vchars.len()
                                invariant
                                    0 <= m <= vchars@.len(),
                                    buffer@ == snap + vchars@.take(m as int),
                                decreases vchars@.len() - m,
                            {
                                buffer.push_raw(vchars[m]);
                                proof {
                                    assert(snap + vchars@.take(m as int + 1) =~= (snap
                                        + vchars@.take(m as int)).push(vchars@[m as int]));
                                }
                                m = m + 1;
                            }
                            proof {
                                assert(vchars@.take(vchars@.len() as int) =~= vchars@);
                            }
                            off = advance_off(cs, i, next, off);
                            i = next;
                        },
                        None => {
                            let f = if has_subset {
                                TextFault::Unknown { name_start, name_end, pos: off }
                            } else {
                                TextFault::Malformed { pos: off }
                            };
                            proof {
                                assert(spec_norm_attr_from(cs@, ev, has_subset, i as int, off as int, buffer@)
                                    == Err::<Seq<char>, TextFault>(f));
                            }
                            return Err(f);
                        },
                    }
                },
            }
        }
    }
    Ok(())
}

/// Normalizes a raw attribute value per the XML attribute-value rules.
///
/// `value_pos` is the byte offset of the raw value in the source text; it is
/// only used for the position carried by a failure.
pub fn normalize_attribute(
    value: &str,
    value_pos: usize,
    ents: &Vec<Entity>,
    has_subset: bool,
) -> (r: Result<String, TextFault>)
    ensures
        match r {
            Ok(v) => spec_norm_attr(value@, entities_view(ents@), has_subset, value_pos as int)
                == Ok::<Seq<char>, TextFault>(v@),
            Err(f) => spec_norm_attr(value@, entities_view(ents@), has_subset, value_pos as int)
                == Err::<Seq<char>, TextFault>(f),
        },
{
    let n = value.unicode_len();
    if !is_normalization_required(value) {
        proof {
            assert(value@.len() <= usize::MAX);
            lemma_norm_attr_plain(
                value@,
                entities_view(ents@),
                has_subset,
                0,
                value_pos as int,
                Seq::<char>::empty(),
            );
            assert(Seq::<char>::empty() + value@.skip(0) =~= value@);
        }
        return Ok(value.to_owned());
    }
    let cs = chars_vec(value);
    let mut buffer = TextBuffer::new();
    match _normalize_attribute(&cs, value_pos, ents, has_subset, &mut buffer) {
        Ok(_) => Ok(string_from_chars(&buffer.finish())),
        Err(f) => Err(f),
    }
}

// ---------------------------------------------------------------------------
// Text normalization
// ---------------------------------------------------------------------------

/// Normalizes a text run from index `i` on. A character that came out of a
/// decoded reference is emitted verbatim, and so is the plain character
/// right after it (`as_is`), bypassing line-ending substitution.
pub open spec fn spec_norm_text_from(
    s: Seq<char>,
    ents: Seq<EntityV>,
    has_subset: bool,
    i: int,
    off: int,
    buf: Seq<char>,
    as_is: bool,
) -> Result<Seq<char>, TextFault>
    decreases s.len() - i,
        when s.len() <= usize::MAX
        via spec_norm_text_dec
{
    if i < 0 || i >= s.len() {
        Ok(buf)
    } else {
        let c = s[i];
        if c == '&' {
            match spec_scan_ref(s, i) {
                RefScan::RefFail => Err(TextFault::Malformed { pos: off as usize }),
                RefScan::RefChar { c: rc, next } => spec_norm_text_from(
                    s,
                    ents,
                    has_subset,
                    next as int,
                    spec_off_advance(s, i, next as int, off),
                    buf.push(rc),
                    true,
                ),
                RefScan::RefEntity { name_start, name_end, next } => {
                    match spec_find_entity(
                        ents,
                        s.subrange(name_start as int, name_end as int),
                    ) {
                        Some(v) => spec_norm_text_from(
                            s,
                            ents,
                            has_subset,
                            next as int,
                            spec_off_advance(s, i, next as int, off),
                            buf + v,
                            if v.len() > 0 {
                                true
                            } else {
                                as_is
                            },
                        ),
                        None => Err(
                            if has_subset {
                                TextFault::Unknown { name_start, name_end, pos: off as usize }
                            } else {
                                TextFault::Malformed { pos: off as usize }
                            },
                        ),
                    }
                },
            }
        } else if as_is {
            spec_norm_text_from(
                s,
                ents,
                has_subset,
                i + 1,
                spec_sat_add(off, spec_char_bytes(c)),
                buf.push(c),
                false,
            )
        } else {
            spec_norm_text_from(
                s,
                ents,
                has_subset,
                i + 1,
                spec_sat_add(off, spec_char_bytes(c)),
                spec_push_from_text(buf, c, i + 1 == s.len()),
                false,
            )
        }
    }
}

#[via_fn]
proof fn spec_norm_text_dec(
    s: Seq<char>,
    ents: Seq<EntityV>,
    has_subset: bool,
    i: int,
    off: int,
    buf: Seq<char>,
    as_is: bool,
) {
    if 0 <= i < s.len() && s[i] == '&' {
        lemma_scan_ref_next(s, i);
    }
}

/// Whether a text run contains a reference or a carriage return, so that
/// normalization has any work to do.
pub open spec fn spec_text_special(s: Seq<char>) -> bool {
    exists|k: int| 0 <= k < s.len() && (s[k] == '&' || s[k] == '\r')
}

/// The normalized content of a text run: unchanged on the fast path,
/// otherwise the result of the normalization loop.
pub open spec fn spec_text_content(
    s: Seq<char>,
    ents: Seq<EntityV>,
    has_subset: bool,
    text_pos: int,
) -> Result<Seq<char>, TextFault> {
    if !spec_text_special(s) {
        Ok(s)
    } else {
        spec_norm_text_from(s, ents, has_subset, 0, text_pos, Seq::<char>::empty(), false)
    }
}

/// An unknown-entity fault always carries a name range inside the chunk.
pub proof fn lemma_norm_attr_fault(
    s: Seq<char>,
    ents: Seq<EntityV>,
    has_subset: bool,
    i: int,
    off: int,
    buf: Seq<char>,
)
    requires
        0 <= i <= s.len() <= usize::MAX,
    ensures
        match spec_norm_attr_from(s, ents, has_subset, i, off, buf) {
            Err(TextFault::Unknown { name_start, name_end, .. }) => 0 <= name_start <= name_end
                <= s.len(),
            _ => true,
        },
    decreases s.len() - i,
{
    if i < s.len() {
        let c = s[i];
        if c != '&' {
            let nxt: Option<char> = if i + 1 < s.len() {
                Some(s[i + 1])
            } else {
                None
            };
            lemma_norm_attr_fault(
                s,
                ents,
                has_subset,
                i + 1,
                spec_sat_add(off, spec_char_bytes(c)),
                spec_push_from_attr(buf, c, nxt),
            );
        } else {
            lemma_scan_ref_next(s, i);
            match spec_scan_ref(s, i) {
                RefScan::RefFail => {},
                RefScan::RefChar { c: rc, next } => {
                    lemma_norm_attr_fault(
                        s,
                        ents,
                        has_subset,
                        next as int,
                        spec_off_advance(s, i, next as int, off),
                        buf.push(rc),
                    );
                },
                RefScan::RefEntity { name_start, name_end, next } => {
                    match spec_find_entity(
                        ents,
                        s.subrange(name_start as int, name_end as int),
                    ) {
                        Some(v) => {
                            lemma_norm_attr_fault(
                                s,
                                ents,
                                has_subset,
                                next as int,
                                spec_off_advance(s, i, next as int, off),
                                buf + v,
                            );
                        },
                        None => {},
                    }
                },
            }
        }
    }
}

/// An unknown-entity fault always carries a name range inside the chunk.
pub proof fn lemma_norm_text_fault(
    s: Seq<char>,
    ents: Seq<EntityV>,
    has_subset: bool,
    i: int,
    off: int,
    buf: Seq<char>,
    as_is: bool,
)
    requires
        0 <= i <= s.len() <= usize::MAX,
    ensures
        match spec_norm_text_from(s, ents, has_subset, i, off, buf, as_is) {
            Err(TextFault::Unknown { name_start, name_end, .. }) => 0 <= name_start <= name_end
                <= s.len(),
            _ => true,
        },
    decreases s.len() - i,
{
    if i < s.len() {
        let c = s[i];
        if c == '&' {
            lemma_scan_ref_next(s, i);
            match spec_scan_ref(s, i) {
                RefScan::RefFail => {},
                RefScan::RefChar { c: rc, next } => {
                    lemma_norm_text_fault(
                        s,
                        ents,
                        has_subset,
                        next as int,
                        spec_off_advance(s, i, next as int, off),
                        buf.push(rc),
                        true,
                    );
                },
                RefScan::RefEntity { name_start, name_end, next } => {
                    match spec_find_entity(
                        ents,
                        s.subrange(name_start as int, name_end as int),
                    ) {
                        Some(v) => {
                            lemma_norm_text_fault(
                                s,
                                ents,
                                has_subset,
                                next as int,
                                spec_off_advance(s, i, next as int, off),
                                buf + v,
                                if v.len() > 0 {
                                    true
                                } else {
                                    as_is
                                },
                            );
                        },
                        None => {},
                    }
                },
            }
        } else if as_is {
            lemma_norm_text_fault(
                s,
                ents,
                has_subset,
                i + 1,
                spec_sat_add(off, spec_char_bytes(c)),
                buf.push(c),
                false,
            );
        } else {
            lemma_norm_text_fault(
                s,
                ents,
                has_subset,
                i + 1,
                spec_sat_add(off, spec_char_bytes(c)),
                spec_push_from_text(buf, c, i + 1 == s.len()),
                false,
            );
        }
    }
}

/// On reference-free text the normalization loop cannot fail, and its
/// output holds no `&` and no `\r`: every line ending has collapsed.
proof fn lemma_norm_text_clean(
    s: Seq<char>,
    ents: Seq<EntityV>,
    has_subset: bool,
    i: int,
    off: int,
    buf: Seq<char>,
)
    requires
        0 <= i <= s.len() <= usize::MAX,
        forall|k: int| i <= k < s.len() ==> s[k] != '&',
        forall|m: int| 0 <= m < buf.len() ==> buf[m] != '&',
        forall|m: int|
            0 <= m < buf.len() && buf[m] == '\r' ==> m == buf.len() - 1 && i < s.len(),
    ensures
        match spec_norm_text_from(s, ents, has_subset, i, off, buf, false) {
            Ok(t) => forall|m: int| 0 <= m < t.len() ==> t[m] != '&' && t[m] != '\r',
            Err(_) => false,
        },
    decreases s.len() - i,
{
    if i < s.len() {
        let c = s[i];
        let buf2 = spec_push_from_text(buf, c, i + 1 == s.len());
        assert(forall|m: int| 0 <= m < buf2.len() ==> buf2[m] != '&');
        assert(forall|m: int|
            0 <= m < buf2.len() && buf2[m] == '\r' ==> m == buf2.len() - 1 && i + 1 < s.len());
        lemma_norm_text_clean(
            s,
            ents,
            has_subset,
            i + 1,
            spec_sat_add(off, spec_char_bytes(c)),
            buf2,
        );
    }
}

/// Normalizing the content of a text node is idempotent: on reference-free
/// text, normalization succeeds, and feeding its result through
/// normalization again, under any entity table, internal-subset flag and
/// position, gives the same string back. A text run that does hold a `&`
/// is outside this law: its normalized content can contain a bare `&`,
/// which no later parse accepts.
pub proof fn lemma_text_normalization_idempotent(
    s: Seq<char>,
    ents: Seq<EntityV>,
    has_subset: bool,
    text_pos: int,
    ents2: Seq<EntityV>,
    has_subset2: bool,
    text_pos2: int,
)
    requires
        s.len() <= usize::MAX,
        forall|k: int| 0 <= k < s.len() ==> s[k] != '&',
    ensures
        match spec_text_content(s, ents, has_subset, text_pos) {
            Ok(t) => spec_text_content(t, ents2, has_subset2, text_pos2) == Ok::<
                Seq<char>,
                TextFault,
            >(t),
            Err(_) => false,
        },
{
    if !spec_text_special(s) {
        // The fast path: the content is the text itself, which has neither
        // `&` nor `\r`, so a second normalization takes the fast path too.
        assert(!spec_text_special(s));
    } else {
        lemma_norm_text_clean(s, ents, has_subset, 0, text_pos, Seq::<char>::empty());
        match spec_norm_text_from(s, ents, has_subset, 0, text_pos, Seq::<char>::empty(), false) {
            Ok(t) => {
                assert(!spec_text_special(t));
            },
            Err(_) => {},
        }
    }
}

/// Whether normalization would change anything of this text run.
pub fn has_text_special(text: &str) -> (r: bool)
    ensures
        r == spec_text_special(text@),
{
    let n = text.unicode_len();
    let mut k: usize = 0;
    while k < n
        invariant
            0 <= k <= n,
            n == text@.len(),
            forall|m: int| 0 <= m < k ==> text@[m] != '&' && text@[m] != '\r',
        decreases n - k,
    {
        let c = text.get_char(k);
        if c == '&' || c == '\r' {
            return true;
        }
        k = k + 1;
    }
    false
}

/// Normalizes a raw text run per the XML line-ending rules, decoding
/// character and entity references.
///
/// `text_pos` is the byte offset of the run in the source text; it is only
/// used for the position carried by a failure.
pub fn normalize_text(
    raw: &str,
    text_pos: usize,
    ents: &Vec<Entity>,
    has_subset: bool,
) -> (r: Result<String, TextFault>)
    ensures
        match r {
            Ok(v) => spec_text_content(raw@, entities_view(ents@), has_subset, text_pos as int)
                == Ok::<Seq<char>, TextFault>(v@),
            Err(f) => spec_text_content(raw@, entities_view(ents@), has_subset, text_pos as int)
                == Err::<Seq<char>, TextFault>(f),
        },
{
    if !has_text_special(raw) {
        return Ok(raw.to_owned());
    }
    let cs = chars_vec(raw);
    let ghost ev = entities_view(ents@);
    let ghost goal = spec_norm_text_from(
        cs@,
        ev,
        has_subset,
        0,
        text_pos as int,
        Seq::<char>::empty(),
        false,
    );
    let mut buffer = TextBuffer::new();
    proof {
        assert(cs@.len() == cs.len());
    }
    let mut i: usize = 0;
    let mut off: usize = text_pos;
    let mut as_is: bool = false;
    while i < cs.len()
        invariant
            0 <= i <= cs@.len(),
            cs@.len() <= usize::MAX,
            cs@ == raw@,
            spec_text_special(raw@),
            ev == entities_view(ents@),
            goal == spec_norm_text_from(
                cs@,
                ev,
                has_subset,
                0,
                text_pos as int,
                Seq::<char>::empty(),
                false,
            ),
            goal == spec_norm_text_from(
                cs@,
                ev,
                has_subset,
                i as int,
                off as int,
                buffer@,
                as_is,
            ),
        decreases cs@.len() - i,
    {
        let c = cs[i];
        if c == '&' {
            proof {
                lemma_scan_ref_next(cs@, i as int);
            }
            match scan_ref(&cs, i) {
                RefScan::RefFail => {
                    proof {
                        assert(spec_norm_text_from(cs@, ev, has_subset, i as int, off as int,
                            buffer@, as_is) == Err::<Seq<char>, TextFault>(
                            TextFault::Malformed { pos: off }));
                    }
                    return Err(TextFault::Malformed { pos: off });
                },
                RefScan::RefChar { c: rc, next } => {
                    buffer.push_raw(rc);
                    off = advance_off(&cs, i, next, off);
                    i = next;
                    as_is = true;
                },
                RefScan::RefEntity { name_start, name_end, next } => {
                    match find_entity(ents, &cs, name_start, name_end) {
                        Some(k) => {
                            let vchars = chars_vec(ents[k].value.as_str());
                            let ghost snap = buffer@;
                            if vchars.len() > 0 {
                                as_is = true;
                            }
                            let mut m: usize = 0;
                            while m < vchars.len()
                                invariant
                                    0 <= m <= vchars@.len(),
                                    buffer@ == snap + vchars@.take(m as int),
                                decreases vchars@.len() - m,
                            {
                                buffer.push_raw(vchars[m]);
                                proof {
                                    assert(snap + vchars@.take(m as int + 1) =~= (snap
                                        + vchars@.take(m as int)).push(vchars@[m as int]));
                                }
                                m = m + 1;
                            }
                            proof {
                                assert(vchars@.take(vchars@.len() as int) =~= vchars@);
                            }
                            off = advance_off(&cs, i, next, off);
                            i = next;
                        },
                        None => {
                            let f = if has_subset {
                                TextFault::Unknown { name_start, name_end, pos: off }
                            } else {
                                TextFault::Malformed { pos: off }
                            };
                            proof {
                                assert(spec_norm_text_from(cs@, ev, has_subset, i as int,
                                    off as int, buffer@, as_is) == Err::<Seq<char>, TextFault>(f));
                            }
                            return Err(f);
                        },
                    }
                },
            }
        } else if as_is {
            buffer.push_raw(c);
            as_is = false;
            off = sat_add(off, char_bytes(c) as usize);
            i = i + 1;
        } else {
            buffer.push_from_text(c, i + 1 == cs.len());
            off = sat_add(off, char_bytes(c) as usize);
            i = i + 1;
        }
    }
    Ok(string_from_chars(&buffer.finish()))
}

} // verus!

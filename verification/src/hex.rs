//! Hexadecimal text forms of EDID bytes: continuous and formatted output,
//! and a tolerant parser for continuous, space-separated and C-array hex.
use vstd::prelude::*;
use vstd::utf8::{encode_utf8, encode_scalar};
use vstd::std_specs::iter::IteratorSpec;
use crate::error::HexError;
use crate::edid::{Edid, EdidBlock, spec_concat, spec_edid_error, lemma_serialize_then_parse, spec_block_error, spec_parse_error, spec_chunk, spec_extension_chunks, spec_block_views, spec_edid_bytes};
use crate::text::string_push;

verus! {

/// Number of UTF-8 bytes of one character.
pub open spec fn spec_utf8_width(c: char) -> int {
    encode_scalar(c as u32).len() as int
}

/// Byte offset of the character at index `k` in the UTF-8 encoding of `chars`.
pub open spec fn spec_char_offset(chars: Seq<char>, k: int) -> int {
    encode_utf8(chars.take(k)).len() as int
}

/// Whitespace (ASCII), commas, semicolons and brackets separate hex bytes.
pub open spec fn spec_is_separator(c: char) -> bool {
    c == ' ' || c == '\t' || c == '\n' || c == '\x0C' || c == '\r' || c == ',' || c == ';'
        || c == '{' || c == '}' || c == '[' || c == ']'
}

/// Value of one hexadecimal digit, of either case.
pub open spec fn spec_hex_value(c: char) -> Option<u8> {
    if '0' <= c && c <= '9' {
        Some((c as u32 - '0' as u32) as u8)
    } else if 'a' <= c && c <= 'f' {
        Some((c as u32 - 'a' as u32 + 10) as u8)
    } else if 'A' <= c && c <= 'F' {
        Some((c as u32 - 'A' as u32 + 10) as u8)
    } else {
        None
    }
}

/// A `0x` / `0X` prefix starts at index `k`.
pub open spec fn spec_prefix_at(chars: Seq<char>, k: int) -> bool {
    &&& 0 <= k
    &&& k + 1 < chars.len()
    &&& chars[k] == '0'
    &&& (chars[k + 1] == 'x' || chars[k + 1] == 'X')
}

/// Result of scanning `chars` from index `k` on, with `bytes` decoded so far
/// and a pending high nibble.
pub open spec fn spec_scan(chars: Seq<char>, k: int, bytes: Seq<u8>, nibble: Option<u8>) -> Result<
    Seq<u8>,
    HexError,
>
    decreases chars.len() - k,
{
    if k < 0 || k >= chars.len() {
        match nibble {
            Some(_) => Err(HexError::OddLength { length: (2 * bytes.len() + 1) as usize }),
            None => Ok(bytes),
        }
    } else if spec_is_separator(chars[k]) {
        spec_scan(chars, k + 1, bytes, nibble)
    } else if spec_prefix_at(chars, k) {
        match nibble {
            Some(_) => Err(HexError::OddLength { length: (2 * bytes.len() + 1) as usize }),
            None => spec_scan(chars, k + 2, bytes, nibble),
        }
    } else {
        match spec_hex_value(chars[k]) {
            None => Err(
                HexError::InvalidHexCharacter {
                    offset: spec_char_offset(chars, k) as usize,
                    character: chars[k],
                },
            ),
            Some(d) => match nibble {
                None => spec_scan(chars, k + 1, bytes, Some(d)),
                Some(h) => spec_scan(chars, k + 1, bytes.push((h * 16 + d) as u8), None),
            },
        }
    }
}

/// The bytes that a hex string stands for, or the first error in it.
pub open spec fn spec_parse_hex(chars: Seq<char>) -> Result<Seq<u8>, HexError> {
    spec_scan(chars, 0, Seq::empty(), None)
}

/// UTF-8 encoding distributes over concatenation.
proof fn lemma_encode_concat(a: Seq<char>, b: Seq<char>)
    ensures
        encode_utf8(a + b) == encode_utf8(a) + encode_utf8(b),
    decreases a.len(),
{
    if a.len() == 0 {
        assert(a + b =~= b);
        assert(encode_utf8(a) =~= Seq::<u8>::empty());
        assert(encode_utf8(a) + encode_utf8(b) =~= encode_utf8(b));
    } else {
        lemma_encode_concat(a.drop_first(), b);
        assert((a + b).drop_first() =~= a.drop_first() + b);
        assert(encode_utf8(a + b) =~= encode_scalar(a[0] as u32) + encode_utf8(a.drop_first() + b));
    }
}

/// The offset of the next character is the offset of this one plus its width,
/// and every offset lies within the encoding.
proof fn lemma_offset_step(chars: Seq<char>, k: int)
    requires
        0 <= k < chars.len(),
    ensures
        spec_char_offset(chars, k + 1) == spec_char_offset(chars, k) + spec_utf8_width(chars[k]),
        spec_char_offset(chars, k + 1) <= encode_utf8(chars).len(),
{
    let a = chars.take(k);
    let c = seq![chars[k]];
    lemma_encode_concat(a, c);
    assert(chars.take(k + 1) =~= a + c);
    assert(c.drop_first() =~= Seq::<char>::empty());
    assert(encode_utf8(c) =~= encode_scalar(chars[k] as u32) + encode_utf8(Seq::<char>::empty()));
    lemma_encode_concat(chars.take(k + 1), chars.skip(k + 1));
    assert(chars.take(k + 1) + chars.skip(k + 1) =~= chars);
}

/// Number of UTF-8 bytes of `c`.
fn utf8_width(c: char) -> (w: usize)
    ensures
        w == spec_utf8_width(c),
        1 <= w <= 4,
{
    proof {
        vstd::utf8::char_is_scalar(c);
    }
    let u = c as u32;
    if u < 0x80 {
        1
    } else if u < 0x800 {
        2
    } else if u < 0x10000 {
        3
    } else {
        4
    }
}

/// The characters of a string, in order.
fn collect_chars(s: &str) -> (chars: Vec<char>)
    ensures
        chars@ == s@,
{
    let mut chars: Vec<char> = Vec::new();
    for c in it: s.chars()
        invariant
            chars@ == it.seq().take(it.index() as int),
    {
        chars.push(c);
    }
    proof {
        broadcast use vstd::string::axiom_spec_iter;
    }
    chars
}

/// Whether `c` separates hex bytes.
fn is_separator(c: char) -> (b: bool)
    ensures
        b == spec_is_separator(c),
{
    c == ' ' || c == '\t' || c == '\n' || c == '\x0C' || c == '\r' || c == ',' || c == ';'
        || c == '{' || c == '}' || c == '[' || c == ']'
}

/// Value of one hexadecimal digit.
fn hex_value(c: char) -> (r: Option<u8>)
    ensures
        r == spec_hex_value(c),
        r matches Some(d) ==> d < 16,
{
    let u = c as u32;
    if 0x30 <= u && u <= 0x39 {
        Some((u - 0x30) as u8)
    } else if 0x61 <= u && u <= 0x66 {
        Some((u - 0x61 + 10) as u8)
    } else if 0x41 <= u && u <= 0x46 {
        Some((u - 0x41 + 10) as u8)
    } else {
        None
    }
}

/// Decode a hex string into bytes.
///
/// Whitespace, commas, semicolons, brackets and `0x`/`0X` prefixes are
/// skipped; any other non-hex character is an error at its byte offset, and
/// an unpaired digit is an odd-length error.
pub fn parse_hex_bytes(s: &str) -> (res: Result<Vec<u8>, HexError>)
    ensures
        match res {
            Ok(v) => spec_parse_hex(s@) == Ok::<Seq<u8>, HexError>(v@),
            Err(e) => spec_parse_hex(s@) == Err::<Seq<u8>, HexError>(e),
        },
{
    let total = s.as_bytes().len();
    let chars = collect_chars(s);
    let n = chars.len();
    let mut bytes: Vec<u8> = Vec::new();
    let mut nibble: Option<u8> = None;
    let mut offset: usize = 0;
    let mut k: usize = 0;
    while k < n
        invariant
            n == chars.len(),
            chars@ == s@,
            total == encode_utf8(s@).len(),
            k <= n,
            offset == spec_char_offset(chars@, k as int),
            offset <= total,
            nibble matches Some(h) ==> h < 16,
            2 * bytes.len() + (if nibble is Some { 1int } else { 0int }) <= k,
            spec_scan(chars@, k as int, bytes@, nibble) == spec_parse_hex(chars@),
        decreases n - k,
    {
        let c = chars[k];
        if is_separator(c) {
            proof {
                lemma_offset_step(chars@, k as int);
            }
            offset = offset + utf8_width(c);
            k = k + 1;
        } else if c == '0' && k + 1 < n && (chars[k + 1] == 'x' || chars[k + 1] == 'X') {
            assert(spec_prefix_at(chars@, k as int));
            if nibble.is_some() {
                return Err(HexError::OddLength { length: bytes.len() * 2 + 1 });
            }
            proof {
                lemma_offset_step(chars@, k as int);
                lemma_offset_step(chars@, k + 1);
            }
            offset = offset + utf8_width(c);
            offset = offset + utf8_width(chars[k + 1]);
            k = k + 2;
        } else {
            assert(!spec_prefix_at(chars@, k as int));
            match hex_value(c) {
                None => {
                    return Err(HexError::InvalidHexCharacter { offset, character: c });
                },
                Some(d) => {
                    match nibble {
                        None => {
                            nibble = Some(d);
                        },
                        Some(h) => {
                            bytes.push(h * 16 + d);
                            nibble = None;
                        },
                    }
                },
            }
            proof {
                lemma_offset_step(chars@, k as int);
            }
            offset = offset + utf8_width(c);
            k = k + 1;
        }
    }
    if nibble.is_some() {
        return Err(HexError::OddLength { length: bytes.len() * 2 + 1 });
    }
    Ok(bytes)
}

/// The hex digit for a nibble, in upper or lower case.
pub open spec fn spec_hex_digit(n: int, upper: bool) -> char {
    if n < 10 {
        (n + 48) as char
    } else if upper {
        (n + 55) as char
    } else {
        (n + 87) as char
    }
}

/// The digit at position `i` of the two-digit form of a byte.
pub open spec fn spec_byte_digit(b: u8, i: int, upper: bool) -> char {
    if i % 2 == 0 {
        spec_hex_digit((b / 16) as int, upper)
    } else {
        spec_hex_digit((b % 16) as int, upper)
    }
}

/// Continuous lowercase hex: two digits per byte, no separators.
pub open spec fn spec_hex_lower(b: Seq<u8>) -> Seq<char> {
    Seq::new(2 * b.len(), |i: int| spec_byte_digit(b[i / 2], i % 2, false))
}

/// Separator written before byte `j` (for `j > 0`) of formatted hex.
pub open spec fn spec_line_sep(j: int) -> char {
    if j % 16 == 0 {
        '\n'
    } else {
        ' '
    }
}

/// Formatted uppercase hex: two digits per byte, bytes separated by a space
/// and every sixteenth byte starting a new line.
pub open spec fn spec_hex_formatted(b: Seq<u8>) -> Seq<char> {
    if b.len() == 0 {
        Seq::empty()
    } else {
        Seq::new(
            (3 * b.len() - 1) as nat,
            |i: int|
                if i % 3 == 2 {
                    spec_line_sep(i / 3 + 1)
                } else {
                    spec_byte_digit(b[i / 3], i % 3, true)
                },
        )
    }
}

/// Formatted blocks, separated by an empty line.
pub open spec fn spec_join_formatted(blocks: Seq<Seq<u8>>) -> Seq<char>
    decreases blocks.len(),
{
    if blocks.len() == 0 {
        Seq::empty()
    } else if blocks.len() == 1 {
        spec_hex_formatted(blocks[0])
    } else {
        spec_join_formatted(blocks.drop_last()) + seq!['\n', '\n'] + spec_hex_formatted(
            blocks.last(),
        )
    }
}

/// The digit character for a nibble.
fn hex_digit(n: u8, upper: bool) -> (c: char)
    requires
        n < 16,
    ensures
        c == spec_hex_digit(n as int, upper),
{
    if n < 10 {
        (n + 48) as char
    } else if upper {
        (n + 55) as char
    } else {
        (n + 87) as char
    }
}

/// Append the continuous lowercase hex of `b` to `s`.
fn push_hex_lower(s: &mut String, b: &[u8])
    ensures
        final(s)@ == old(s)@ + spec_hex_lower(b@),
{
    let ghost start = s@;
    let mut i: usize = 0;
    while i < b.len()
        invariant
            i <= b@.len(),
            s@ == start + spec_hex_lower(b@.take(i as int)),
        decreases b@.len() - i,
    {
        let x = b[i];
        string_push(s, hex_digit(x / 16, false));
        string_push(s, hex_digit(x % 16, false));
        i = i + 1;
        assert(spec_hex_lower(b@.take(i as int)) =~= spec_hex_lower(b@.take(i - 1)).push(
            spec_hex_digit((x / 16) as int, false),
        ).push(spec_hex_digit((x % 16) as int, false)));
    }
    assert(b@.take(i as int) =~= b@);
}

/// Append the formatted uppercase hex of `b` to `s`.
fn push_hex_formatted(s: &mut String, b: &[u8])
    ensures
        final(s)@ == old(s)@ + spec_hex_formatted(b@),
{
    let ghost start = s@;
    let mut i: usize = 0;
    while i < b.len()
        invariant
            i <= b@.len(),
            s@ == start + spec_hex_formatted(b@.take(i as int)),
        decreases b@.len() - i,
    {
        let x = b[i];
        let ghost before = s@;
        if i > 0 {
            if i % 16 == 0 {
                string_push(s, '\n');
            } else {
                string_push(s, ' ');
            }
        }
        string_push(s, hex_digit(x / 16, true));
        string_push(s, hex_digit(x % 16, true));
        proof {
            let p = b@.take(i as int);
            let q = b@.take(i + 1);
            if i == 0 {
                assert(spec_hex_formatted(q) =~= seq![
                    spec_hex_digit((x / 16) as int, true),
                    spec_hex_digit((x % 16) as int, true),
                ]);
            } else {
                assert(spec_hex_formatted(q) =~= spec_hex_formatted(p).push(spec_line_sep(i as int)).push(
                    spec_hex_digit((x / 16) as int, true),
                ).push(spec_hex_digit((x % 16) as int, true)));
            }
        }
        i = i + 1;
    }
    assert(b@.take(i as int) =~= b@);
}

/// Lowercase continuous hex of a byte slice.
pub(crate) fn hex_lower(b: &[u8]) -> (s: String)
    ensures
        s@ == spec_hex_lower(b@),
{
    let mut s = String::new();
    push_hex_lower(&mut s, b);
    assert(Seq::<char>::empty() + spec_hex_lower(b@) =~= spec_hex_lower(b@));
    s
}

/// What parsing a single block from hex text gives: its 128 bytes, or
/// the first error.
pub open spec fn spec_block_from_hex(chars: Seq<char>) -> Result<Seq<u8>, HexError> {
    match spec_parse_hex(chars) {
        Err(e) => Err(e),
        Ok(b) => if b.len() != 128 {
            Err(HexError::InvalidLength { bytes: b.len() as usize })
        } else {
            match spec_block_error(b) {
                Some(e) => Err(HexError::EdidError(e)),
                None => Ok(b),
            }
        },
    }
}

/// What parsing a complete EDID from hex text gives: its bytes, or the first
/// error.
pub open spec fn spec_edid_from_hex(chars: Seq<char>) -> Result<Seq<u8>, HexError> {
    match spec_parse_hex(chars) {
        Err(e) => Err(e),
        Ok(b) => match spec_parse_error(b) {
            Some(e) => Err(HexError::EdidError(e)),
            None => Ok(b),
        },
    }
}

impl EdidBlock {
    /// Format this 128-byte block as a lowercase continuous hex string (256 hex chars).
    pub fn to_hex(&self) -> (s: String)
        ensures
            s@ == spec_hex_lower(self.raw@),
    {
        hex_lower(self.as_bytes())
    }

    /// Format this block as 8 lines of 16 uppercase space-separated hex bytes.
    pub fn to_hex_formatted(&self) -> (s: String)
        ensures
            s@ == spec_hex_formatted(self.raw@),
    {
        let mut s = String::new();
        push_hex_formatted(&mut s, self.as_bytes());
        assert(Seq::<char>::empty() + spec_hex_formatted(self.raw@) =~= spec_hex_formatted(
            self.raw@,
        ));
        s
    }

    /// Parse a single 128-byte EDID block from a hex string.
    ///
    /// Accepts continuous hex, space-separated hex, and C-array hex (`0x00, 0xFF`),
    /// ignoring whitespace, commas, semicolons, brackets, and `0x`/`0X` prefixes.
    pub fn from_hex(s: &str) -> (res: Result<Self, HexError>)
        ensures
            match res {
                Ok(block) => spec_block_from_hex(s@) == Ok::<Seq<u8>, HexError>(block.raw@),
                Err(e) => spec_block_from_hex(s@) == Err::<Seq<u8>, HexError>(e),
            },
    {
        let bytes = parse_hex_bytes(s)?;
        if bytes.len() != 128 {
            return Err(HexError::InvalidLength { bytes: bytes.len() });
        }
        match EdidBlock::from_bytes_checked(bytes.as_slice()) {
            Ok(block) => Ok(block),
            Err(e) => Err(HexError::EdidError(e)),
        }
    }
}

impl Edid {
    /// Format the complete EDID sequence (base + extensions) as continuous hex.
    pub fn to_hex(&self) -> (s: String)
        ensures
            s@ == spec_hex_lower(spec_edid_bytes(self.base.raw@, spec_block_views(self.extensions@))),
    {
        let bytes = self.to_bytes();
        hex_lower(bytes.as_slice())
    }

    /// Format the complete EDID sequence as formatted 16-byte lines, one
    /// block after another, separated by empty lines.
    pub fn to_hex_formatted(&self) -> (s: String)
        ensures
            s@ == spec_join_formatted(seq![self.base.raw@] + spec_block_views(self.extensions@)),
    {
        let ghost blocks = seq![self.base.raw@] + spec_block_views(self.extensions@);
        let mut s = self.base.to_hex_formatted();
        let mut i: usize = 0;
        while i < self.extensions.len()
            invariant
                i <= self.extensions@.len(),
                blocks == seq![self.base.raw@] + spec_block_views(self.extensions@),
                s@ == spec_join_formatted(blocks.take(i + 1)),
            decreases self.extensions@.len() - i,
        {
            string_push(&mut s, '\n');
            string_push(&mut s, '\n');
            push_hex_formatted(&mut s, self.extensions[i].as_bytes());
            proof {
                let t = blocks.take(i + 2);
                assert(t.drop_last() =~= blocks.take(i + 1));
                assert(t.last() == self.extensions@[i as int].raw@);
                assert(s@ =~= spec_join_formatted(t));
            }
            i = i + 1;
        }
        assert(blocks.take(i + 1) =~= blocks);
        s
    }

    /// Parse a complete EDID from a hex string (validates all blocks and sequence).
    pub fn from_hex(s: &str) -> (res: Result<Self, HexError>)
        ensures
            res matches Err(e) ==> spec_edid_from_hex(s@) == Err::<Seq<u8>, HexError>(e),
            res is Ok <==> spec_edid_from_hex(s@) is Ok,
            res matches Ok(edid) ==> {
                let d = spec_edid_from_hex(s@)->Ok_0;
                &&& edid.base.raw@ == spec_chunk(d, 0)
                &&& spec_block_views(edid.extensions@) == spec_extension_chunks(d)
            },
    {
        let bytes = parse_hex_bytes(s)?;
        match Edid::from_bytes(bytes.as_slice()) {
            Ok(edid) => Ok(edid),
            Err(e) => Err(HexError::EdidError(e)),
        }
    }
}

proof fn lemma_digit_facts(n: int, upper: bool)
    requires
        0 <= n < 16,
    ensures
        !spec_is_separator(spec_hex_digit(n, upper)),
        spec_hex_value(spec_hex_digit(n, upper)) == Some(n as u8),
        spec_hex_digit(n, upper) != 'x',
        spec_hex_digit(n, upper) != 'X',
{
}

/// Two digits of one byte scan to that byte.
proof fn lemma_scan_pair(chars: Seq<char>, k: int, acc: Seq<u8>, x: u8, upper: bool)
    requires
        0 <= k,
        k + 1 < chars.len(),
        chars[k] == spec_hex_digit((x / 16) as int, upper),
        chars[k + 1] == spec_hex_digit((x % 16) as int, upper),
        k + 2 >= chars.len() || (chars[k + 2] != 'x' && chars[k + 2] != 'X'),
    ensures
        spec_scan(chars, k, acc, None) == spec_scan(chars, k + 2, acc.push(x), None),
{
    lemma_digit_facts((x / 16) as int, upper);
    lemma_digit_facts((x % 16) as int, upper);
    assert(!spec_prefix_at(chars, k));
    assert(!spec_prefix_at(chars, k + 1));
    let h = (x / 16) as u8;
    let l = (x % 16) as u8;
    assert((h * 16 + l) as u8 == x);
    assert(spec_hex_value(chars[k]) == Some(h));
    assert(spec_hex_value(chars[k + 1]) == Some(l));
    assert(spec_scan(chars, k, acc, None) == spec_scan(chars, k + 1, acc, Some(h)));
    assert(spec_scan(chars, k + 1, acc, Some(h)) == spec_scan(
        chars,
        k + 2,
        acc.push((h * 16 + l) as u8),
        None,
    ));
}

proof fn lemma_scan_lower(chars: Seq<char>, k: int, acc: Seq<u8>, b: Seq<u8>, j: int)
    requires
        0 <= k,
        0 <= j <= b.len(),
        k + 2 * b.len() <= chars.len(),
        forall|i: int| 0 <= i < 2 * b.len() ==> chars[k + i] == #[trigger] spec_hex_lower(b)[i],
        k + 2 * b.len() >= chars.len() || (chars[k + 2 * b.len()] != 'x' && chars[k + 2
            * b.len()] != 'X'),
    ensures
        spec_scan(chars, k + 2 * j, acc + b.take(j), None) == spec_scan(
            chars,
            k + 2 * b.len(),
            acc + b,
            None,
        ),
    decreases b.len() - j,
{
    if j < b.len() {
        let x = b[j];
        assert(chars[k + 2 * j] == spec_hex_lower(b)[2 * j]);
        assert(chars[k + 2 * j + 1] == spec_hex_lower(b)[2 * j + 1]);
        if j + 1 < b.len() {
            assert(chars[k + 2 * j + 2] == spec_hex_lower(b)[2 * j + 2]);
            lemma_digit_facts((b[j + 1] / 16) as int, false);
        }
        lemma_scan_pair(chars, k + 2 * j, acc + b.take(j), x, false);
        assert((acc + b.take(j)).push(x) =~= acc + b.take(j + 1));
        lemma_scan_lower(chars, k, acc, b, j + 1);
    } else {
        assert(b.take(j) =~= b);
    }
}

proof fn lemma_scan_formatted(chars: Seq<char>, k: int, acc: Seq<u8>, b: Seq<u8>, j: int)
    requires
        0 <= k,
        0 <= j < b.len(),
        k + 3 * b.len() - 1 <= chars.len(),
        forall|i: int|
            0 <= i < 3 * b.len() - 1 ==> chars[k + i] == #[trigger] spec_hex_formatted(b)[i],
        k + 3 * b.len() - 1 >= chars.len() || (chars[k + 3 * b.len() - 1] != 'x' && chars[k + 3
            * b.len() - 1] != 'X'),
    ensures
        spec_scan(chars, k + 3 * j, acc + b.take(j), None) == spec_scan(
            chars,
            k + 3 * b.len() - 1,
            acc + b,
            None,
        ),
    decreases b.len() - j,
{
    let x = b[j];
    assert(chars[k + 3 * j] == spec_hex_formatted(b)[3 * j]);
    assert(chars[k + 3 * j + 1] == spec_hex_formatted(b)[3 * j + 1]);
    assert((acc + b.take(j)).push(x) =~= acc + b.take(j + 1));
    if j + 1 < b.len() {
        assert(chars[k + 3 * j + 2] == spec_hex_formatted(b)[3 * j + 2]);
        assert(spec_is_separator(chars[k + 3 * j + 2]));
        lemma_scan_pair(chars, k + 3 * j, acc + b.take(j), x, true);
        lemma_scan_formatted(chars, k, acc, b, j + 1);
    } else {
        lemma_scan_pair(chars, k + 3 * j, acc + b.take(j), x, true);
        assert(b.take(j + 1) =~= b);
    }
}

/// Continuous and formatted hex both parse back to the bytes they were
/// written from.
pub proof fn lemma_hex_roundtrip(b: Seq<u8>)
    ensures
        spec_parse_hex(spec_hex_lower(b)) == Ok::<Seq<u8>, HexError>(b),
        spec_parse_hex(spec_hex_formatted(b)) == Ok::<Seq<u8>, HexError>(b),
{
    let l = spec_hex_lower(b);
    lemma_scan_lower(l, 0, Seq::empty(), b, 0);
    assert(Seq::<u8>::empty() + b.take(0) =~= Seq::<u8>::empty());
    assert(Seq::<u8>::empty() + b =~= b);
    if b.len() > 0 {
        let f = spec_hex_formatted(b);
        lemma_scan_formatted(f, 0, Seq::empty(), b, 0);
    } else {
        assert(spec_hex_formatted(b) =~= Seq::<char>::empty());
    }
}

/// A valid block written as hex, continuous or formatted, reads back as
/// the same block.
pub proof fn lemma_block_hex_roundtrip(raw: Seq<u8>)
    requires
        raw.len() == 128,
        spec_block_error(raw) is None,
    ensures
        spec_block_from_hex(spec_hex_lower(raw)) == Ok::<Seq<u8>, HexError>(raw),
        spec_block_from_hex(spec_hex_formatted(raw)) == Ok::<Seq<u8>, HexError>(raw),
{
    lemma_hex_roundtrip(raw);
}

proof fn lemma_scan_join(chars: Seq<char>, k: int, acc: Seq<u8>, blocks: Seq<Seq<u8>>)
    requires
        0 <= k,
        blocks.len() > 0,
        forall|i: int| 0 <= i < blocks.len() ==> (#[trigger] blocks[i]).len() > 0,
        k + spec_join_formatted(blocks).len() <= chars.len(),
        chars.subrange(k, k + spec_join_formatted(blocks).len()) == spec_join_formatted(blocks),
        k + spec_join_formatted(blocks).len() >= chars.len() || (chars[k
            + spec_join_formatted(blocks).len()] != 'x' && chars[k
            + spec_join_formatted(blocks).len()] != 'X'),
    ensures
        spec_scan(chars, k, acc, None) == spec_scan(
            chars,
            k + spec_join_formatted(blocks).len(),
            acc + spec_concat(blocks),
            None,
        ),
    decreases blocks.len(),
{
    let last = blocks.last();
    let f = spec_hex_formatted(last);
    assert(f.len() == 3 * last.len() - 1);
    if blocks.len() == 1 {
        assert forall|i: int| 0 <= i < 3 * last.len() - 1 implies chars[k + i] == #[trigger] f[i] by {
            assert(chars.subrange(k, k + f.len())[i] == chars[k + i]);
        }
        lemma_scan_formatted(chars, k, acc, last, 0);
        assert(acc + last.take(0) =~= acc);
        assert(blocks.drop_last() =~= Seq::<Seq<u8>>::empty());
        assert(spec_concat(blocks.drop_last()) =~= Seq::<u8>::empty());
        assert(spec_concat(blocks) =~= last);
    } else {
        let init = blocks.drop_last();
        let j = spec_join_formatted(init);
        let whole = spec_join_formatted(blocks);
        assert(whole == j + seq!['\n', '\n'] + f);
        assert forall|i: int| 0 <= i < j.len() implies chars.subrange(k, k + j.len())[i] == j[i] by {
            assert(chars.subrange(k, k + j.len())[i] == chars.subrange(k, k + whole.len())[i]);
        }
        assert(chars.subrange(k, k + j.len()) =~= j);
        assert(chars[k + j.len()] == whole[j.len() as int]);
        assert(chars[k + j.len() + 1] == whole[j.len() as int + 1]);
        lemma_scan_join(chars, k, acc, init);
        let k2 = k + j.len() + 2;
        let acc2 = acc + spec_concat(init);
        assert(spec_scan(chars, k + j.len(), acc2, None) == spec_scan(chars, k + j.len() + 1, acc2, None));
        assert(spec_scan(chars, k + j.len() + 1, acc2, None) == spec_scan(chars, k2, acc2, None));
        assert forall|i: int| 0 <= i < 3 * last.len() - 1 implies chars[k2 + i] == #[trigger] f[i] by {
            assert(chars.subrange(k, k + whole.len())[j.len() as int + 2 + i] == chars[k2 + i]);
            assert(whole[j.len() as int + 2 + i] == f[i]);
        }
        lemma_scan_formatted(chars, k2, acc2, last, 0);
        assert(acc2 + last.take(0) =~= acc2);
        assert(acc2 + last =~= acc + spec_concat(blocks));
    }
}

proof fn lemma_concat_front(first: Seq<u8>, rest: Seq<Seq<u8>>)
    ensures
        spec_concat(seq![first] + rest) == first + spec_concat(rest),
    decreases rest.len(),
{
    if rest.len() == 0 {
        assert(seq![first] + rest =~= seq![first]);
        assert(seq![first].drop_last() =~= Seq::<Seq<u8>>::empty());
        assert(spec_concat(seq![first].drop_last()) =~= Seq::<u8>::empty());
        assert(spec_concat(seq![first]) =~= first);
        assert(spec_concat(rest) =~= Seq::<u8>::empty());
        assert(first + spec_concat(rest) =~= first);
    } else {
        lemma_concat_front(first, rest.drop_last());
        assert((seq![first] + rest).drop_last() =~= seq![first] + rest.drop_last());
        assert(first + spec_concat(rest) =~= first + spec_concat(rest.drop_last()) + rest.last());
    }
}

/// A valid EDID written as hex, continuous or formatted block by block,
/// reads back as the same base block and extensions.
pub proof fn lemma_edid_hex_roundtrip(base: Seq<u8>, extensions: Seq<Seq<u8>>)
    requires
        base.len() == 128,
        forall|i: int| 0 <= i < extensions.len() ==> (#[trigger] extensions[i]).len() == 128,
        spec_edid_error(base, extensions) is None,
    ensures
        spec_edid_from_hex(spec_hex_lower(spec_edid_bytes(base, extensions))) == Ok::<
            Seq<u8>,
            HexError,
        >(spec_edid_bytes(base, extensions)),
        spec_edid_from_hex(spec_join_formatted(seq![base] + extensions)) == Ok::<
            Seq<u8>,
            HexError,
        >(spec_edid_bytes(base, extensions)),
        spec_chunk(spec_edid_bytes(base, extensions), 0) == base,
        spec_extension_chunks(spec_edid_bytes(base, extensions)) == extensions,
{
    let d = spec_edid_bytes(base, extensions);
    lemma_serialize_then_parse(base, extensions);
    lemma_hex_roundtrip(d);
    let blocks = seq![base] + extensions;
    let j = spec_join_formatted(blocks);
    assert forall|i: int| 0 <= i < blocks.len() implies (#[trigger] blocks[i]).len() > 0 by {
        if i > 0 {
            assert(blocks[i] == extensions[i - 1]);
        }
    }
    assert(j.subrange(0, j.len() as int) =~= j);
    lemma_scan_join(j, 0, Seq::empty(), blocks);
    lemma_concat_front(base, extensions);
    assert(Seq::<u8>::empty() + spec_concat(blocks) =~= d);
}

/// C-array hex: each byte written `0x` and two uppercase digits, bytes
/// separated by `", "`.
pub open spec fn spec_hex_c_array(b: Seq<u8>) -> Seq<char> {
    if b.len() == 0 {
        Seq::empty()
    } else {
        Seq::new(
            (6 * b.len() - 2) as nat,
            |i: int|
                if i % 6 == 0 {
                    '0'
                } else if i % 6 == 1 {
                    'x'
                } else if i % 6 == 4 {
                    ','
                } else if i % 6 == 5 {
                    ' '
                } else {
                    spec_byte_digit(b[i / 6], i % 6, true)
                },
        )
    }
}

proof fn lemma_scan_c_array(chars: Seq<char>, acc: Seq<u8>, b: Seq<u8>, j: int)
    requires
        0 <= j < b.len(),
        chars == spec_hex_c_array(b),
    ensures
        spec_scan(chars, 6 * j, acc + b.take(j), None) == Ok::<Seq<u8>, HexError>(acc + b),
    decreases b.len() - j,
{
    let k = 6 * j;
    let x = b[j];
    assert(chars.len() == 6 * b.len() - 2);
    assert(k % 6 == 0 && (k + 1) % 6 == 1 && (k + 2) % 6 == 2 && (k + 3) % 6 == 3 && (k + 2) / 6 == j && (k + 3)
        / 6 == j && (k + 4) % 6 == 4 && (k + 5) % 6 == 5) by (nonlinear_arith)
        requires
            k == 6 * j,
    ;
    assert(chars[k] == '0' && chars[k + 1] == 'x');
    assert(!spec_is_separator(chars[k]));
    assert(spec_prefix_at(chars, k));
    assert(chars[k + 2] == spec_hex_digit((x / 16) as int, true));
    assert(chars[k + 3] == spec_hex_digit((x % 16) as int, true));
    assert((acc + b.take(j)).push(x) =~= acc + b.take(j + 1));
    if j + 1 < b.len() {
        assert(chars[k + 4] == ',');
        assert(chars[k + 5] == ' ');
        lemma_scan_pair(chars, k + 2, acc + b.take(j), x, true);
        assert(spec_is_separator(chars[k + 4]) && spec_is_separator(chars[k + 5]));
        let a2 = acc + b.take(j + 1);
        assert(spec_scan(chars, k + 4, a2, None) == spec_scan(chars, k + 5, a2, None));
        assert(spec_scan(chars, k + 5, a2, None) == spec_scan(chars, k + 6, a2, None));
        lemma_scan_c_array(chars, acc, b, j + 1);
        assert(6 * (j + 1) == k + 6);
    } else {
        lemma_scan_pair(chars, k + 2, acc + b.take(j), x, true);
        assert(b.take(j + 1) =~= b);
        assert(k + 4 == chars.len());
    }
}

/// C-array hex parses back to the bytes it was written from; a valid block
/// written so reads back as the same block.
pub proof fn lemma_c_array_hex_roundtrip(b: Seq<u8>)
    ensures
        spec_parse_hex(spec_hex_c_array(b)) == Ok::<Seq<u8>, HexError>(b),
        b.len() == 128 && spec_block_error(b) is None ==> spec_block_from_hex(spec_hex_c_array(b)) == Ok::<
            Seq<u8>,
            HexError,
        >(b),
{
    if b.len() > 0 {
        lemma_scan_c_array(spec_hex_c_array(b), Seq::empty(), b, 0);
        assert(Seq::<u8>::empty() + b.take(0) =~= Seq::<u8>::empty());
        assert(Seq::<u8>::empty() + b =~= b);
    } else {
        assert(spec_hex_c_array(b) =~= Seq::<char>::empty());
        assert(b =~= Seq::<u8>::empty());
    }
}

} // verus!

//! The three text encodings of the exchange format and how a file names them.
use crate::text::{
    ascii_lowercase, ascii_lowercase_chars, chars_of, equals_str, trim, trim_chars,
};
use vstd::prelude::*;

verus! {

/// Text encodings that an exchange file may use.
#[derive(Debug, Clone, Copy, PartialEq, Eq, Structural)]
pub enum FileEncoding {
    Utf8,
    /// The value `Windows` of the `Кодировка` field.
    Windows1251,
    /// The value `DOS` of the `Кодировка` field.
    Cp866,
}

/// The encoding named by a `Кодировка=` value: the value is trimmed and
/// compared without regard to ASCII case.
pub open spec fn standard_value_encoding(value: Seq<char>) -> Option<FileEncoding> {
    let v = ascii_lowercase(trim(value));
    if v == "dos"@ {
        Some(FileEncoding::Cp866)
    } else if v == "windows"@ {
        Some(FileEncoding::Windows1251)
    } else if v == "utf-8"@ || v == "utf8"@ {
        Some(FileEncoding::Utf8)
    } else {
        None
    }
}

/// `b.to_ascii_lowercase()`.
pub open spec fn lower_byte(b: u8) -> u8 {
    if 65 <= b <= 90 {
        (b + 32) as u8
    } else {
        b
    }
}

/// `bytes[start..start + pat.len()]` equals `pat`, ignoring ASCII case.
pub open spec fn ci_match_at(bytes: Seq<u8>, start: int, pat: Seq<u8>) -> bool {
    &&& 0 <= start
    &&& start + pat.len() <= bytes.len()
    &&& forall|j: int| 0 <= j < pat.len() ==> lower_byte(#[trigger] bytes[start + j]) == lower_byte(pat[j])
}

/// The marker value ends at `at`: end of input, line break, space or tab.
pub open spec fn value_ends_at(bytes: Seq<u8>, at: int) -> bool {
    at >= bytes.len() || bytes[at] == 10 || bytes[at] == 13 || bytes[at] == 32 || bytes[at] == 9
}

pub open spec fn dos_word() -> Seq<u8> {
    seq![100u8, 111u8, 115u8]
}

pub open spec fn windows_word() -> Seq<u8> {
    seq![119u8, 105u8, 110u8, 100u8, 111u8, 119u8, 115u8]
}

pub open spec fn utf_8_word() -> Seq<u8> {
    seq![117u8, 116u8, 102u8, 45u8, 56u8]
}

pub open spec fn utf8_word() -> Seq<u8> {
    seq![117u8, 116u8, 102u8, 56u8]
}

/// `=DOS` (any case) at `i`, followed by the end of the value.
pub open spec fn dos_marker_at(bytes: Seq<u8>, i: int) -> bool {
    &&& bytes[i] == 61
    &&& i + 3 < bytes.len()
    &&& ci_match_at(bytes, i + 1, dos_word())
    &&& value_ends_at(bytes, i + 4)
}

/// `=Windows` (any case) at `i`, followed by the end of the value.
pub open spec fn windows_marker_at(bytes: Seq<u8>, i: int) -> bool {
    &&& bytes[i] == 61
    &&& i + 7 < bytes.len()
    &&& ci_match_at(bytes, i + 1, windows_word())
    &&& value_ends_at(bytes, i + 8)
}

/// `=UTF-8` or `=UTF8` (any case) at `i`.
pub open spec fn utf8_marker_at(bytes: Seq<u8>, i: int) -> bool {
    ||| (bytes[i] == 61 && i + 5 < bytes.len() && ci_match_at(bytes, i + 1, utf_8_word()))
    ||| (i + 4 < bytes.len() && bytes[i] == 61 && ci_match_at(bytes, i + 1, utf8_word()))
}

pub open spec fn has_dos_marker(bytes: Seq<u8>) -> bool {
    exists|i: int| 0 <= i < bytes.len() - 3 && dos_marker_at(bytes, i)
}

pub open spec fn has_windows_marker(bytes: Seq<u8>) -> bool {
    exists|i: int| 0 <= i < bytes.len() - 7 && windows_marker_at(bytes, i)
}

pub open spec fn has_utf8_marker(bytes: Seq<u8>) -> bool {
    exists|i: int| 0 <= i < bytes.len() - 4 && utf8_marker_at(bytes, i)
}

/// The encoding that the raw bytes of a file's beginning declare. Only the
/// ASCII markers `=DOS`, `=Windows`, `=UTF-8` and `=UTF8` are looked for, in that
/// order of precedence; without one, Windows-1251 is assumed.
pub open spec fn declared_encoding(bytes: Seq<u8>) -> FileEncoding {
    if bytes.len() == 0 {
        FileEncoding::Windows1251
    } else if has_dos_marker(bytes) {
        FileEncoding::Cp866
    } else if has_windows_marker(bytes) {
        FileEncoding::Windows1251
    } else if has_utf8_marker(bytes) {
        FileEncoding::Utf8
    } else {
        FileEncoding::Windows1251
    }
}

/// The text that `encoding_rs` produces for `bytes` under `encoding`, with BOM
/// sniffing and malformed sequences replaced by U+FFFD.
pub uninterp spec fn decoded_text(encoding: FileEncoding, bytes: Seq<u8>) -> Seq<char>;

/// The bytes start with the UTF-8 byte order mark `EF BB BF`.
pub open spec fn has_utf8_bom(bytes: Seq<u8>) -> bool {
    bytes.len() >= 3 && bytes[0] == 0xEF && bytes[1] == 0xBB && bytes[2] == 0xBF
}

/// Every byte is ASCII.
pub open spec fn all_ascii(bytes: Seq<u8>) -> bool {
    forall|i: int| 0 <= i < bytes.len() ==> #[trigger] bytes[i] < 128
}

/// `encoding_rs::Encoding::decode` on `UTF_8`, `WINDOWS_1251` or `IBM866`, with the
/// decoded text made an owned `String`.
/// Claimed: the text is `decoded_text(encoding, bytes)`, a function of the two
/// arguments alone; as the crate's source shows (no BOM is found, and input
/// that is valid as it stands is borrowed unchanged), ASCII-only input decodes
/// to the same characters in all three encodings, and valid UTF-8 without a
/// UTF-8 BOM decodes under `UTF_8` to the characters it encodes. What the
/// tables map other bytes to, and how malformed input is replaced, is not
/// stated. `requires` keeps the crate's buffer-size computation (at most three
/// output bytes per input byte, plus a few) from overflowing, where it would
/// panic.
#[verifier::external_body]
fn decode_with(encoding: FileEncoding, bytes: &[u8]) -> (text: String)
    requires
        bytes@.len() * 3 + 16 <= usize::MAX,
    ensures
        text@ == decoded_text(encoding, bytes@),
        all_ascii(bytes@) ==> text@ == bytes@.map_values(|b: u8| b as char),
        encoding == FileEncoding::Utf8 && vstd::utf8::valid_utf8(bytes@) && !has_utf8_bom(bytes@) ==> text@ == vstd::utf8::decode_utf8(bytes@),
{
    let target = match encoding {
        FileEncoding::Utf8 => encoding_rs::UTF_8,
        FileEncoding::Windows1251 => encoding_rs::WINDOWS_1251,
        FileEncoding::Cp866 => encoding_rs::IBM866,
    };
    let (cow, _, _) = target.decode(bytes);
    cow.into_owned()
}

/// Decodes a complete byte buffer in the given encoding.
pub fn decode_bytes(bytes: &[u8], encoding: FileEncoding) -> (text: String)
    requires
        bytes@.len() * 3 + 16 <= usize::MAX,
    ensures
        text@ == decoded_text(encoding, bytes@),
        all_ascii(bytes@) ==> text@ == bytes@.map_values(|b: u8| b as char),
        encoding == FileEncoding::Utf8 && vstd::utf8::valid_utf8(bytes@) && !has_utf8_bom(bytes@) ==> text@ == vstd::utf8::decode_utf8(bytes@),
{
    decode_with(encoding, bytes)
}

/// Compares `bytes[start..start + pat.len()]` with `pat`, ignoring ASCII case.
fn ci_match(bytes: &[u8], start: usize, pat: &[u8]) -> (r: bool)
    requires
        start + pat@.len() <= bytes@.len(),
    ensures
        r == ci_match_at(bytes@, start as int, pat@),
{
    let m = pat.len();
    let mut j: usize = 0;
    while j < m
        invariant
            start + m <= bytes.len(),
            bytes.len() == bytes@.len(),
            m == pat@.len(),
            0 <= j <= m,
            forall|k: int| 0 <= k < j ==> lower_byte(#[trigger] bytes@[start + k]) == lower_byte(pat@[k]),
        decreases m - j,
    {
        let a = bytes[start + j];
        let b = pat[j];
        let la = if 65 <= a && a <= 90 { a + 32 } else { a };
        let lb = if 65 <= b && b <= 90 { b + 32 } else { b };
        if la != lb {
            assert(lower_byte(bytes@[start + j]) != lower_byte(pat@[j as int]));
            return false;
        }
        j = j + 1;
    }
    true
}

fn ends_value(bytes: &[u8], at: usize) -> (r: bool)
    ensures
        r == value_ends_at(bytes@, at as int),
{
    at >= bytes.len() || bytes[at] == 10 || bytes[at] == 13 || bytes[at] == 32 || bytes[at] == 9
}

impl FileEncoding {
    /// Reads the value of a `Кодировка=...` field: `DOS`, `Windows`, `UTF-8` or
    /// `UTF8`, surrounding whitespace and ASCII case ignored.
    pub fn from_standard_value(value: &str) -> (r: Option<Self>)
        ensures
            r == standard_value_encoding(value@),
    {
        let chars = chars_of(value);
        let trimmed = trim_chars(&chars);
        let v = ascii_lowercase_chars(&trimmed);
        if equals_str(&v, "dos") {
            Some(FileEncoding::Cp866)
        } else if equals_str(&v, "windows") {
            Some(FileEncoding::Windows1251)
        } else if equals_str(&v, "utf-8") || equals_str(&v, "utf8") {
            Some(FileEncoding::Utf8)
        } else {
            None
        }
    }

    /// The encoding assumed when a file does not name one: Windows-1251.
    pub fn default_1c() -> (r: Self)
        ensures
            r == FileEncoding::Windows1251,
    {
        FileEncoding::Windows1251
    }

    /// Finds the encoding that the bytes declare; see `declared_encoding`.
    pub fn detect_from_bytes_standard(bytes: &[u8]) -> (r: Self)
        ensures
            r == declared_encoding(bytes@),
    {
        let n = bytes.len();
        if n == 0 {
            return Self::default_1c();
        }
        let dos: Vec<u8> = vec![100u8, 111u8, 115u8];
        let windows: Vec<u8> = vec![119u8, 105u8, 110u8, 100u8, 111u8, 119u8, 115u8];
        let utf_8: Vec<u8> = vec![117u8, 116u8, 102u8, 45u8, 56u8];
        let utf8: Vec<u8> = vec![117u8, 116u8, 102u8, 56u8];
        assert(dos@ == dos_word());
        assert(windows@ == windows_word());
        assert(utf_8@ == utf_8_word());
        assert(utf8@ == utf8_word());

        let end = n.saturating_sub(3);
        let mut i: usize = 0;
        while i < end
            invariant
                n == bytes@.len(),
                end == if n >= 3 { n - 3 } else { 0 },
                0 <= i <= end,
                dos@ == dos_word(),
                forall|k: int| 0 <= k < i ==> !dos_marker_at(bytes@, k),
            decreases end - i,
        {
            if bytes[i] == 61 && i + 3 < n && ci_match(bytes, i + 1, &dos) {
                if ends_value(bytes, i + 4) {
                    assert(dos_marker_at(bytes@, i as int));
                    return FileEncoding::Cp866;
                }
            }
            i = i + 1;
        }
        assert(!has_dos_marker(bytes@));

        let end = n.saturating_sub(7);
        let mut i: usize = 0;
        while i < end
            invariant
                n == bytes@.len(),
                end == if n >= 7 { n - 7 } else { 0 },
                0 <= i <= end,
                windows@ == windows_word(),
                !has_dos_marker(bytes@),
                forall|k: int| 0 <= k < i ==> !windows_marker_at(bytes@, k),
            decreases end - i,
        {
            if bytes[i] == 61 && i + 7 < n && ci_match(bytes, i + 1, &windows) {
                if ends_value(bytes, i + 8) {
                    assert(windows_marker_at(bytes@, i as int));
                    return FileEncoding::Windows1251;
                }
            }
            i = i + 1;
        }
        assert(!has_windows_marker(bytes@));

        let end = n.saturating_sub(4);
        let mut i: usize = 0;
        while i < end
            invariant
                n == bytes@.len(),
                end == if n >= 4 { n - 4 } else { 0 },
                0 <= i <= end,
                utf_8@ == utf_8_word(),
                utf8@ == utf8_word(),
                !has_dos_marker(bytes@),
                !has_windows_marker(bytes@),
                forall|k: int| 0 <= k < i ==> !utf8_marker_at(bytes@, k),
            decreases end - i,
        {
            if bytes[i] == 61 && i + 5 < n && ci_match(bytes, i + 1, &utf_8) {
                assert(utf8_marker_at(bytes@, i as int));
                return FileEncoding::Utf8;
            }
            if i + 4 < n && bytes[i] == 61 && ci_match(bytes, i + 1, &utf8) {
                assert(utf8_marker_at(bytes@, i as int));
                return FileEncoding::Utf8;
            }
            i = i + 1;
        }
        assert(!has_utf8_marker(bytes@));
        FileEncoding::Windows1251
    }
}

impl Default for FileEncoding {
    fn default() -> (r: Self)
        ensures
            r == FileEncoding::Windows1251,
    {
        Self::default_1c()
    }
}

} // verus!

verus! {

/// `from_standard_value` ignores ASCII case: a value and its lowercase form
/// name the same encoding.
pub proof fn lemma_standard_value_ignores_case(value: Seq<char>)
    ensures
        standard_value_encoding(ascii_lowercase(value)) == standard_value_encoding(value),
{
    crate::text::lemma_trim_ascii_lowercase(value);
    crate::text::lemma_trim_ascii_lowercase(trim(value));
}

} // verus!

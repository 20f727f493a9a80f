//! Binary-content detection and text decoding.
//!
//! Content with a NUL byte near the start is binary and is not decoded.
//! Otherwise, with automatic detection, the bytes are read as UTF-8 (with or
//! without a byte-order mark), then as Shift_JIS, EUC-JP and ISO-2022-JP,
//! taking the first decoding without errors, and finally as UTF-8 with
//! invalid sequences replaced. Without detection they are read as UTF-8 with
//! replacement.

use vstd::prelude::*;
use vstd::utf8::{decode_utf8, valid_utf8};
use vstd::slice::slice_subrange;

verus! {

/// How many leading bytes are inspected when deciding whether content is binary.
pub const BINARY_CHECK_BYTES: usize = 8192;

/// The content counts as binary when a NUL byte occurs among its first
/// `BINARY_CHECK_BYTES` bytes.
pub open spec fn is_binary(bytes: Seq<u8>) -> bool {
    exists|i: int| 0 <= i < bytes.len() && i < BINARY_CHECK_BYTES && bytes[i] == 0u8
}

/// Reports whether `bytes` looks like binary content (a NUL byte within the
/// first `BINARY_CHECK_BYTES` bytes).
pub fn looks_binary(bytes: &[u8]) -> (res: bool)
    ensures
        res == is_binary(bytes@),
{
    let n = if bytes.len() < BINARY_CHECK_BYTES { bytes.len() } else { BINARY_CHECK_BYTES };
    let mut i: usize = 0;
    while i < n
        invariant
            n <= bytes@.len(),
            n <= BINARY_CHECK_BYTES,
            n == bytes@.len() || n == BINARY_CHECK_BYTES,
            i <= n,
            forall|j: int| 0 <= j < i ==> bytes@[j] != 0u8,
        decreases n - i,
    {
        if bytes[i] == 0 {
            return true;
        }
        i = i + 1;
    }
    false
}


/// The legacy Japanese encodings tried after UTF-8.
#[derive(Clone, Copy, PartialEq, Eq, Structural)]
pub enum LegacyEncoding {
    ShiftJis,
    EucJp,
    Iso2022Jp,
}

/// What `encoding_rs::Encoding::decode` returns for `bytes` with the given
/// encoding: the decoded text and whether malformed sequences were replaced.
pub uninterp spec fn legacy_decode(enc: LegacyEncoding, bytes: Seq<u8>) -> (Seq<char>, bool);

/// What `String::from_utf8_lossy` returns for `bytes`.
pub uninterp spec fn utf8_lossy(bytes: Seq<u8>) -> Seq<char>;

/// Calls `encoding_rs::Encoding::decode` with `SHIFT_JIS`, `EUC_JP` or
/// `ISO_2022_JP` (BOM sniffing included, as that function does). Claimed:
/// the text and error flag are `legacy_decode(enc, bytes)`; nothing more is
/// stated about them. The function panics only when its output-size
/// computation (three bytes per input byte plus a few, rounded up to a power
/// of two) overflows `usize`, which the bound in `requires` rules out.
#[verifier::external_body]
fn decode_legacy(enc: LegacyEncoding, bytes: &[u8]) -> (res: (String, bool))
    requires
        bytes@.len() <= usize::MAX / 8,
    ensures
        (res.0@, res.1) == legacy_decode(enc, bytes@),
{
    let encoding = match enc {
        LegacyEncoding::ShiftJis => encoding_rs::SHIFT_JIS,
        LegacyEncoding::EucJp => encoding_rs::EUC_JP,
        LegacyEncoding::Iso2022Jp => encoding_rs::ISO_2022_JP,
    };
    let (text, _, had_errors) = encoding.decode(bytes);
    (text.into_owned(), had_errors)
}

/// Calls `std::str::from_utf8` and copies the text. Claimed (std's
/// documentation): it succeeds exactly on valid UTF-8, and the text is the
/// decoding of the bytes.
#[verifier::external_body]
pub fn utf8_decode(bytes: &[u8]) -> (res: Option<String>)
    ensures
        res is Some <==> valid_utf8(bytes@),
        res matches Some(s) ==> s@ == decode_utf8(bytes@),
{
    match std::str::from_utf8(bytes) {
        Ok(s) => Some(s.to_string()),
        Err(_) => None,
    }
}

/// Calls `String::from_utf8_lossy`. Claimed: the text is `utf8_lossy(bytes)`,
/// and on valid UTF-8 it is the plain decoding (std documents that valid
/// input comes back unchanged).
#[verifier::external_body]
pub fn utf8_to_string_lossy(bytes: &[u8]) -> (res: String)
    ensures
        res@ == utf8_lossy(bytes@),
        valid_utf8(bytes@) ==> res@ == decode_utf8(bytes@),
{
    String::from_utf8_lossy(bytes).into_owned()
}

/// The text of a file's bytes (see the module description); `None` for binary content.
pub open spec fn decoded_text(bytes: Seq<u8>, auto_detect: bool) -> Option<Seq<char>> {
    if is_binary(bytes) {
        None
    } else if !auto_detect {
        Some(utf8_lossy(bytes))
    } else if valid_utf8(bytes) {
        Some(decode_utf8(bytes))
    } else if bytes.len() >= 3 && bytes[0] == 0xEFu8 && bytes[1] == 0xBBu8 && bytes[2] == 0xBFu8
        && valid_utf8(bytes.skip(3)) {
        Some(decode_utf8(bytes.skip(3)))
    } else if !legacy_decode(LegacyEncoding::ShiftJis, bytes).1 {
        Some(legacy_decode(LegacyEncoding::ShiftJis, bytes).0)
    } else if !legacy_decode(LegacyEncoding::EucJp, bytes).1 {
        Some(legacy_decode(LegacyEncoding::EucJp, bytes).0)
    } else if !legacy_decode(LegacyEncoding::Iso2022Jp, bytes).1 {
        Some(legacy_decode(LegacyEncoding::Iso2022Jp, bytes).0)
    } else {
        Some(utf8_lossy(bytes))
    }
}

/// Decodes a file's bytes to text; `None` when the content is binary.
pub fn decode_content(buffer: &[u8], auto_detect: bool) -> (res: Option<String>)
    requires
        buffer@.len() <= usize::MAX / 8,
    ensures
        match res {
            Some(s) => decoded_text(buffer@, auto_detect) == Some(s@),
            None => decoded_text(buffer@, auto_detect) is None,
        },
{
    if looks_binary(buffer) {
        return None;
    }
    if !auto_detect {
        return Some(utf8_to_string_lossy(buffer));
    }
    if let Some(s) = utf8_decode(buffer) {
        return Some(s);
    }
    if buffer.len() >= 3 && buffer[0] == 0xEF && buffer[1] == 0xBB && buffer[2] == 0xBF {
        let rest = slice_subrange(buffer, 3, buffer.len());
        assert(rest@ =~= buffer@.skip(3));
        if let Some(s) = utf8_decode(rest) {
            return Some(s);
        }
    }
    let (text, had_errors) = decode_legacy(LegacyEncoding::ShiftJis, buffer);
    if !had_errors {
        return Some(text);
    }
    let (text, had_errors) = decode_legacy(LegacyEncoding::EucJp, buffer);
    if !had_errors {
        return Some(text);
    }
    let (text, had_errors) = decode_legacy(LegacyEncoding::Iso2022Jp, buffer);
    if !had_errors {
        return Some(text);
    }
    Some(utf8_to_string_lossy(buffer))
}


/// With automatic detection, text content is decoded by the first of these
/// that applies: valid UTF-8; UTF-8 after a byte-order mark; Shift_JIS,
/// EUC-JP, ISO-2022-JP in that order, each when it decodes without errors;
/// otherwise UTF-8 with invalid sequences replaced.
pub proof fn law_decoding_fallback_chain(bytes: Seq<u8>)
    requires
        !is_binary(bytes),
    ensures
        valid_utf8(bytes) ==> decoded_text(bytes, true) == Some(decode_utf8(bytes)),
        ({
            let bom = bytes.len() >= 3 && bytes[0] == 0xEFu8 && bytes[1] == 0xBBu8 && bytes[2] == 0xBFu8
                && valid_utf8(bytes.skip(3));
            let sjis = legacy_decode(LegacyEncoding::ShiftJis, bytes);
            let euc = legacy_decode(LegacyEncoding::EucJp, bytes);
            let jis = legacy_decode(LegacyEncoding::Iso2022Jp, bytes);
            &&& !valid_utf8(bytes) && bom ==> decoded_text(bytes, true) == Some(decode_utf8(bytes.skip(3)))
            &&& !valid_utf8(bytes) && !bom && !sjis.1 ==> decoded_text(bytes, true) == Some(sjis.0)
            &&& !valid_utf8(bytes) && !bom && sjis.1 && !euc.1 ==> decoded_text(bytes, true) == Some(euc.0)
            &&& !valid_utf8(bytes) && !bom && sjis.1 && euc.1 && !jis.1 ==> decoded_text(bytes, true)
                == Some(jis.0)
            &&& !valid_utf8(bytes) && !bom && sjis.1 && euc.1 && jis.1 ==> decoded_text(bytes, true)
                == Some(utf8_lossy(bytes))
        }),
        decoded_text(bytes, false) == Some(utf8_lossy(bytes)),
{
}

/// Content is decoded to text exactly when it is not binary.
pub proof fn law_text_iff_not_binary(bytes: Seq<u8>, auto_detect: bool)
    ensures
        decoded_text(bytes, auto_detect) is Some <==> !is_binary(bytes),
{
}

} // verus!

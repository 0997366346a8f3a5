//! Decoders for uploaded asset content: a permissive base64 reader and a
//! hex reader with pass-through for content that is already plain markup.
//!
//! Everything here works byte by byte. The characters these decoders accept
//! are all ASCII, so the byte reading and the character reading of the input
//! agree wherever the input decodes at all; UTF-8 validity itself is checked
//! through `core::str::from_utf8`.

use vstd::prelude::*;

use vstd::string::StringSliceAdditionalSpecFns;
use vstd::utf8::valid_utf8;

verus! {

/// Does the content look hex-wrapped markup: a '<' followed by the bytes
/// '3' 'f'?
pub open spec fn spec_is_hex_encoded(d: Seq<u8>) -> bool {
    d.len() > 2 && d[0] == 60 && d[1] == 51 && d[2] == 102
}

/// Does the content look like hex-wrapped markup?
pub fn is_hex_encoded(data: &Vec<u8>) -> (r: bool)
    ensures
        r == spec_is_hex_encoded(data@),
{
    data.len() > 2 && data[0] == 60 && data[1] == 51 && data[2] == 102
}

/// The byte is a base64 alphabet character or the padding sign.
pub open spec fn spec_is_b64_byte(b: u8) -> bool {
    (65 <= b <= 90) || (97 <= b <= 122) || (48 <= b <= 57) || b == 43 || b == 47 || b == 61
}

/// All bytes are base64 characters (so the content is ASCII) and there are
/// more than eight of them.
pub open spec fn spec_is_base64(d: Seq<u8>) -> bool {
    (forall|i: int| 0 <= i < d.len() ==> spec_is_b64_byte(#[trigger] d[i])) && d.len() > 8
}

/// Does the content look like base64 text?
pub fn is_base64(data: &[u8]) -> (r: bool)
    ensures
        r == spec_is_base64(data@),
{
    let mut i: usize = 0;
    while i < data.len()
        invariant
            0 <= i <= data@.len(),
            forall|k: int| 0 <= k < i ==> spec_is_b64_byte(#[trigger] data@[k]),
        decreases data@.len() - i,
    {
        let b = data[i];
        let ok = (65 <= b && b <= 90) || (97 <= b && b <= 122) || (48 <= b && b <= 57) || b == 43
            || b == 47 || b == 61;
        if !ok {
            return false;
        }
        i += 1;
    }
    data.len() > 8
}

/// The base64 alphabet position of the byte, or -1 for anything else,
/// padding included.
pub open spec fn spec_b64_val(b: u8) -> int {
    if 65 <= b <= 90 {
        b - 65
    } else if 97 <= b <= 122 {
        b - 97 + 26
    } else if 48 <= b <= 57 {
        b - 48 + 52
    } else if b == 43 {
        62
    } else if b == 47 {
        63
    } else {
        -1
    }
}

/// The bit width the accumulator holds: always 0, 2, 4 or 6.
pub open spec fn spec_b64_pow(bits: int) -> int {
    if bits == 0 {
        1
    } else if bits == 2 {
        4
    } else if bits == 4 {
        16
    } else {
        64
    }
}

/// The decoder state after the input so far: the bytes written out, the
/// pending accumulator and how many bits it holds. Bytes outside the
/// alphabet, padding and whitespace alike, are passed over.
pub open spec fn spec_b64_state(s: Seq<u8>) -> (Seq<u8>, int, int)
    decreases s.len(),
{
    if s.len() == 0 {
        (Seq::empty(), 0int, 0int)
    } else {
        let (out, buf, bits) = spec_b64_state(s.drop_last());
        let v = spec_b64_val(s.last());
        if v < 0 {
            (out, buf, bits)
        } else {
            let buf2 = buf * 64 + v;
            let bits2 = bits + 6;
            if bits2 >= 8 {
                let rem = bits2 - 8;
                (out.push((buf2 / spec_b64_pow(rem)) as u8), buf2 % spec_b64_pow(rem), rem)
            } else {
                (out, buf2, bits2)
            }
        }
    }
}

/// What the base64 reader produces for the input.
pub open spec fn spec_base64_decode(s: Seq<u8>) -> Seq<u8> {
    spec_b64_state(s).0
}

/// Reads base64 text, six bits per alphabet character, ignoring padding,
/// whitespace and any byte outside the alphabet, exactly as
/// `spec_base64_decode` describes.
pub fn base64_decode(input: &str) -> (r: Vec<u8>)
    ensures
        r@ == spec_base64_decode(input.spec_bytes()),
{
    let bytes = input.as_bytes();
    let ghost s = input.spec_bytes();
    let mut out: Vec<u8> = Vec::new();
    let mut buf: u32 = 0;
    let mut bits: u32 = 0;
    let mut i: usize = 0;
    proof {
        assert(s.take(0) =~= Seq::<u8>::empty());
    }
    while i < bytes.len()
        invariant
            0 <= i <= s.len(),
            bytes@ == s,
            bits == 0 || bits == 2 || bits == 4 || bits == 6,
            buf < spec_b64_pow(bits as int),
            spec_b64_state(s.take(i as int)) == (out@, buf as int, bits as int),
        decreases s.len() - i,
    {
        assert(s.take(i + 1).drop_last() =~= s.take(i as int));
        assert(s.take(i + 1).last() == s[i as int]);
        let b = bytes[i];
        let v: u32 = if 65 <= b && b <= 90 {
            (b - 65) as u32
        } else if 97 <= b && b <= 122 {
            (b - 97) as u32 + 26
        } else if 48 <= b && b <= 57 {
            (b - 48) as u32 + 52
        } else if b == 43 {
            62
        } else if b == 47 {
            63
        } else {
            1000
        };
        if v < 64 {
            assert(v == spec_b64_val(s[i as int]));
            let buf2: u32 = (buf << 6u32) | v;
            assert((buf << 6u32) | v == buf * 64 + v && ((buf << 6u32) | v) < 4096) by (bit_vector)
                requires
                    buf < 64,
                    v < 64,
            ;
            let bits2: u32 = bits + 6;
            if bits2 >= 8 {
                let rem: u32 = bits2 - 8;
                let emitted: u8;
                let kept: u32;
                if rem == 0 {
                    assert(buf2 >> 0u32 == buf2 / 1 && (buf2 & 0) == buf2 % 1) by (bit_vector);
                    emitted = (buf2 >> 0u32) as u8;
                    kept = buf2 & 0;
                } else if rem == 2 {
                    assert(buf2 >> 2u32 == buf2 / 4 && (buf2 & 3) == buf2 % 4) by (bit_vector);
                    assert(buf2 >> 2u32 < 256) by (bit_vector)
                        requires
                            buf2 < 1024,
                    ;
                    emitted = (buf2 >> 2u32) as u8;
                    kept = buf2 & 3;
                } else {
                    assert(rem == 4);
                    assert(buf2 >> 4u32 == buf2 / 16 && (buf2 & 15) == buf2 % 16) by (bit_vector);
                    assert(buf2 >> 4u32 < 256) by (bit_vector)
                        requires
                            buf2 < 4096,
                    ;
                    emitted = (buf2 >> 4u32) as u8;
                    kept = buf2 & 15;
                }
                let ghost prev = out@;
                out.push(emitted);
                proof {
                    assert(out@ =~= prev.push(emitted));
                }
                buf = kept;
                bits = rem;
            } else {
                buf = buf2;
                bits = bits2;
            }
        }
        i += 1;
    }
    proof {
        assert(s.take(s.len() as int) =~= s);
    }
    out
}

/// Relies on core::str::from_utf8: it succeeds exactly on UTF-8 input, and
/// the string it returns spells those same bytes.
#[verifier::external_body]
fn bytes_as_str(v: &[u8]) -> (r: Option<&str>)
    ensures
        r is Some <==> valid_utf8(v@),
        r matches Some(s) ==> s.spec_bytes() == v@,
{
    core::str::from_utf8(v).ok()
}

/// Reads base64 text handed over as raw bytes: the bytes must be UTF-8 (for
/// base64 content they are plain ASCII), then they decode as
/// `spec_base64_decode` describes.
pub fn decode_base64(base64_data: &[u8]) -> (r: Result<Vec<u8>, String>)
    ensures
        valid_utf8(base64_data@) ==> (r matches Ok(v) && v@ == spec_base64_decode(base64_data@)),
        !valid_utf8(base64_data@) ==> (r matches Err(m) && m@
            == "Invalid UTF-8 in base64 string"@),
{
    match bytes_as_str(base64_data) {
        None => Err("Invalid UTF-8 in base64 string".to_owned()),
        Some(s) => Ok(base64_decode(s)),
    }
}

/// The byte is one of the whitespace characters the trimming step removes.
/// Trimming is byte-based and covers the ASCII whitespace characters only;
/// padding made of other Unicode whitespace is left in place and then fails
/// the digit check.
pub open spec fn spec_is_ws(b: u8) -> bool {
    b == 32 || b == 9 || b == 10 || b == 11 || b == 12 || b == 13
}

/// Is the byte one of the whitespace characters the trimming step removes?
fn is_ws_byte(b: u8) -> (r: bool)
    ensures
        r == spec_is_ws(b),
{
    b == 32 || b == 9 || b == 10 || b == 11 || b == 12 || b == 13
}

/// The content without its leading whitespace.
pub open spec fn spec_trim_front(s: Seq<u8>) -> Seq<u8>
    decreases s.len(),
{
    if s.len() > 0 && spec_is_ws(s[0]) {
        spec_trim_front(s.drop_first())
    } else {
        s
    }
}

/// The content without its trailing whitespace.
pub open spec fn spec_trim_back(s: Seq<u8>) -> Seq<u8>
    decreases s.len(),
{
    if s.len() > 0 && spec_is_ws(s.last()) {
        spec_trim_back(s.drop_last())
    } else {
        s
    }
}

/// The content without leading or trailing ASCII whitespace.
pub open spec fn spec_trim(s: Seq<u8>) -> Seq<u8> {
    spec_trim_back(spec_trim_front(s))
}

/// The content without the escape wrapper some callers hand hex text in:
/// a `\x` prefix, or a `\u{` ... `}` shell.
pub open spec fn spec_strip_wrap(s: Seq<u8>) -> Seq<u8> {
    if s.len() >= 2 && s[0] == 92 && s[1] == 120 {
        s.skip(2)
    } else if s.len() >= 4 && s[0] == 92 && s[1] == 117 && s[2] == 123 && s.last() == 125 {
        s.subrange(3, s.len() - 1)
    } else {
        s
    }
}

/// The hex digit's value, or -1 for any other byte.
pub open spec fn spec_hex_val(b: u8) -> int {
    if 48 <= b <= 57 {
        b - 48
    } else if 97 <= b <= 102 {
        b - 97 + 10
    } else if 65 <= b <= 70 {
        b - 65 + 10
    } else {
        -1
    }
}

/// How reading hex pairs ends: the decoded bytes, a byte that is no hex
/// digit, or a dangling final digit.
pub enum HexOutcome {
    Decoded(Seq<u8>),
    BadDigit,
    OddLength,
}

/// Reads the content two hex digits per byte, left to right, stopping at
/// the first pair with a non-digit and rejecting a dangling last digit.
pub open spec fn spec_hex_pairs(s: Seq<u8>) -> HexOutcome
    decreases s.len(),
{
    if s.len() == 0 {
        HexOutcome::Decoded(Seq::empty())
    } else if s.len() == 1 {
        HexOutcome::OddLength
    } else {
        let v0 = spec_hex_val(s[0]);
        let v1 = spec_hex_val(s[1]);
        if v0 < 0 || v1 < 0 {
            HexOutcome::BadDigit
        } else {
            match spec_hex_pairs(s.skip(2)) {
                HexOutcome::Decoded(rest) => HexOutcome::Decoded(
                    seq![(v0 * 16 + v1) as u8] + rest,
                ),
                HexOutcome::BadDigit => HexOutcome::BadDigit,
                HexOutcome::OddLength => HexOutcome::OddLength,
            }
        }
    }
}

/// The content starts with the `<?xml` bytes.
pub open spec fn spec_starts_xml(s: Seq<u8>) -> bool {
    s.len() >= 5 && s[0] == 60 && s[1] == 63 && s[2] == 120 && s[3] == 109 && s[4] == 108
}

/// The content starts with the `<svg` bytes.
pub open spec fn spec_starts_svg(s: Seq<u8>) -> bool {
    s.len() >= 4 && s[0] == 60 && s[1] == 115 && s[2] == 118 && s[3] == 103
}

/// Reads hex-wrapped content. Markup that is already plain UTF-8 passes
/// through unchanged; base64-looking content is read as base64; anything
/// else must be UTF-8 hex text, optionally whitespace-padded and wrapped in
/// a `\x` or `\u{...}` escape shell, and decodes two digits per byte.
/// Reads the hex digits of `bytes[start..end]`, two per byte.
fn decode_hex_pairs(bytes: &[u8], start: usize, end: usize) -> (r: Result<Vec<u8>, String>)
    requires
        start <= end <= bytes@.len(),
    ensures
        ({
            match spec_hex_pairs(bytes@.subrange(start as int, end as int)) {
                HexOutcome::Decoded(decoded) => r matches Ok(v) && v@ == decoded,
                HexOutcome::BadDigit => r matches Err(m) && m@ == "invalid digit found in string"@,
                HexOutcome::OddLength => r matches Err(m) && m@
                    == "Odd number of digits in hex string"@,
            }
        }),
{
    let ghost h = bytes@.subrange(start as int, end as int);
    let mut out: Vec<u8> = Vec::new();
    let mut i: usize = start;
    proof {
        assert(h.skip(0) =~= h);
    }
    while i < end
        invariant
            start <= i <= end <= bytes@.len(),
            h == bytes@.subrange(start as int, end as int),
            (i - start) % 2 == 0,
            ({
                let full = spec_hex_pairs(h);
                let rest = spec_hex_pairs(h.skip(i - start));
                match rest {
                    HexOutcome::Decoded(tail) => full == HexOutcome::Decoded(out@ + tail),
                    HexOutcome::BadDigit => full == HexOutcome::BadDigit,
                    HexOutcome::OddLength => full == HexOutcome::OddLength,
                }
            }),
        decreases end - i,
    {
        let ghost rest = h.skip(i - start);
        proof {
            assert(rest[0] == bytes@[i as int]);
            if rest.len() >= 2 {
                assert(rest[1] == bytes@[i + 1]);
                assert(rest.skip(2) =~= h.skip(i + 2 - start));
            }
        }
        let b0 = bytes[i];
        let v0: u8 = if 48 <= b0 && b0 <= 57 {
            b0 - 48
        } else if 97 <= b0 && b0 <= 102 {
            b0 - 97 + 10
        } else if 65 <= b0 && b0 <= 70 {
            b0 - 65 + 10
        } else {
            255
        };
        if i + 1 >= end {
            // A dangling digit: the source reports an odd digit count.
            assert(rest.len() == 1);
            return Err("Odd number of digits in hex string".to_owned());
        }
        let b1 = bytes[i + 1];
        let v1: u8 = if 48 <= b1 && b1 <= 57 {
            b1 - 48
        } else if 97 <= b1 && b1 <= 102 {
            b1 - 97 + 10
        } else if 65 <= b1 && b1 <= 70 {
            b1 - 65 + 10
        } else {
            255
        };
        if v0 > 15 || v1 > 15 {
            assert(spec_hex_val(rest[0]) < 0 || spec_hex_val(rest[1]) < 0);
            return Err("invalid digit found in string".to_owned());
        }
        assert(v0 == spec_hex_val(rest[0]) && v1 == spec_hex_val(rest[1]));
        let ghost first = (spec_hex_val(rest[0]) * 16 + spec_hex_val(rest[1])) as u8;
        let ghost prev = out@;
        out.push(v0 * 16 + v1);
        proof {
            assert(out@ =~= prev.push(first));
        }
        i += 2;
        proof {
            match spec_hex_pairs(h.skip(i - start)) {
                HexOutcome::Decoded(tail) => {
                    assert(out@ + tail =~= prev + (seq![first] + tail));
                },
                HexOutcome::BadDigit => {},
                HexOutcome::OddLength => {},
            }
        }
    }
    proof {
        assert(h.skip(i - start).len() == 0);
        assert(spec_hex_pairs(h.skip(i - start)) == HexOutcome::Decoded(Seq::<u8>::empty()));
        assert(out@ + Seq::<u8>::empty() =~= out@);
    }
    Ok(out)
}

/// Trims the whitespace, strips the escape wrapper, and reads the hex
/// digits of what remains.
fn decode_hex_payload(bytes: &[u8]) -> (r: Result<Vec<u8>, String>)
    ensures
        ({
            match spec_hex_pairs(spec_strip_wrap(spec_trim(bytes@))) {
                HexOutcome::Decoded(decoded) => r matches Ok(v) && v@ == decoded,
                HexOutcome::BadDigit => r matches Err(m) && m@ == "invalid digit found in string"@,
                HexOutcome::OddLength => r matches Err(m) && m@
                    == "Odd number of digits in hex string"@,
            }
        }),
{
    // Trim ASCII whitespace.
    proof {
        assert(bytes@.skip(0) =~= bytes@);
    }
    let mut lo: usize = 0;
    while lo < bytes.len() && is_ws_byte(bytes[lo])
        invariant
            0 <= lo <= bytes@.len(),
            spec_trim_front(bytes@) == spec_trim_front(bytes@.skip(lo as int)),
        decreases bytes@.len() - lo,
    {
        assert(bytes@.skip(lo as int)[0] == bytes@[lo as int]);
        assert(bytes@.skip(lo as int).drop_first() =~= bytes@.skip(lo + 1));
        lo += 1;
    }
    proof {
        if lo < bytes@.len() {
            assert(bytes@.skip(lo as int)[0] == bytes@[lo as int]);
        }
        assert(spec_trim_front(bytes@) =~= bytes@.skip(lo as int));
    }
    let mut hi: usize = bytes.len();
    while hi > lo && is_ws_byte(bytes[hi - 1])
        invariant
            lo <= hi <= bytes@.len(),
            spec_trim_front(bytes@) == bytes@.skip(lo as int),
            spec_trim_back(bytes@.skip(lo as int)) == spec_trim_back(
                bytes@.subrange(lo as int, hi as int),
            ),
        decreases hi,
    {
        assert(bytes@.subrange(lo as int, hi as int).last() == bytes@[hi - 1]);
        assert(bytes@.subrange(lo as int, hi as int).drop_last() =~= bytes@.subrange(
            lo as int,
            hi - 1,
        ));
        hi -= 1;
    }
    proof {
        assert(bytes@.skip(lo as int) =~= bytes@.subrange(lo as int, bytes@.len() as int));
        if hi > lo {
            assert(bytes@.subrange(lo as int, hi as int).last() == bytes@[hi - 1]);
        }
        assert(spec_trim(bytes@) =~= bytes@.subrange(lo as int, hi as int));
    }
    // Strip the escape wrapper, if any.
    let ghost trimmed = bytes@.subrange(lo as int, hi as int);
    let mut start: usize = lo;
    let mut end: usize = hi;
    if hi - lo >= 2 && bytes[lo] == 92 && bytes[lo + 1] == 120 {
        start = lo + 2;
        proof {
            assert(spec_strip_wrap(trimmed) =~= bytes@.subrange(start as int, end as int));
        }
    } else if hi - lo >= 4 && bytes[lo] == 92 && bytes[lo + 1] == 117 && bytes[lo + 2] == 123
        && bytes[hi - 1] == 125 {
        start = lo + 3;
        end = hi - 1;
        proof {
            assert(trimmed.last() == bytes@[hi - 1]);
            assert(spec_strip_wrap(trimmed) =~= bytes@.subrange(start as int, end as int));
        }
    } else {
        proof {
            if trimmed.len() >= 4 && trimmed[0] == 92 && trimmed[1] == 117 && trimmed[2] == 123 {
                assert(trimmed.last() == bytes@[hi - 1]);
            }
            assert(spec_strip_wrap(trimmed) =~= bytes@.subrange(start as int, end as int));
        }
    }
    decode_hex_pairs(bytes, start, end)
}

/// Reads hex-wrapped content. Markup that is already plain UTF-8 passes
/// through unchanged; base64-looking content is read as base64; anything
/// else must be UTF-8 hex text, optionally padded with ASCII whitespace
/// (only ASCII whitespace is trimmed) and wrapped in a `\x` or `\u{...}`
/// escape shell, and decodes two digits per byte.
pub fn decode_hex(hex_data: &Vec<u8>) -> (r: Result<Vec<u8>, String>)
    ensures
        ({
            let d = hex_data@;
            if valid_utf8(d) && (spec_starts_xml(d) || spec_starts_svg(d)) {
                r matches Ok(v) && v@ == d
            } else if spec_is_base64(d) {
                r matches Ok(v) && v@ == spec_base64_decode(d)
            } else if !valid_utf8(d) {
                r matches Err(m) && m@ == "Invalid UTF-8 in hex data"@
            } else {
                match spec_hex_pairs(spec_strip_wrap(spec_trim(d))) {
                    HexOutcome::Decoded(bytes) => r matches Ok(v) && v@ == bytes,
                    HexOutcome::BadDigit => r matches Err(m) && m@
                        == "invalid digit found in string"@,
                    HexOutcome::OddLength => r matches Err(m) && m@
                        == "Odd number of digits in hex string"@,
                }
            }
        }),
{
    let bytes = hex_data.as_slice();
    let utf8_ok = bytes_as_str(bytes).is_some();
    if utf8_ok {
        let starts_xml = bytes.len() >= 5 && bytes[0] == 60 && bytes[1] == 63 && bytes[2] == 120
            && bytes[3] == 109 && bytes[4] == 108;
        let starts_svg = bytes.len() >= 4 && bytes[0] == 60 && bytes[1] == 115 && bytes[2] == 118
            && bytes[3] == 103;
        if starts_xml || starts_svg {
            let mut copy: Vec<u8> = Vec::new();
            let mut i: usize = 0;
            while i < bytes.len()
                invariant
                    0 <= i <= bytes@.len(),
                    copy@ == bytes@.take(i as int),
                decreases bytes@.len() - i,
            {
                copy.push(bytes[i]);
                assert(copy@ =~= bytes@.take(i + 1));
                i += 1;
            }
            assert(copy@ =~= bytes@);
            return Ok(copy);
        }
    }
    if is_base64(bytes) {
        proof {
            lemma_base64_is_ascii(bytes@);
        }
        return decode_base64(bytes);
    }
    if !utf8_ok {
        return Err("Invalid UTF-8 in hex data".to_owned());
    }
    decode_hex_payload(bytes)
}

/// Base64-looking content is ASCII and therefore valid UTF-8.
proof fn lemma_base64_is_ascii(d: Seq<u8>)
    requires
        spec_is_base64(d),
    ensures
        valid_utf8(d),
    decreases d.len(),
{
    if d.len() > 0 {
        assert(spec_is_b64_byte(d[0]));
        assert(vstd::utf8::is_leading_byte_width_1(d[0])) by {
            assert(d[0] < 128);
        }
        assert(vstd::utf8::valid_first_scalar(d));
        assert(vstd::utf8::pop_first_scalar(d) =~= d.drop_first());
        assert(spec_is_base64_chars(d.drop_first()));
        lemma_base64_ascii_rec(d.drop_first());
    }
}

/// All bytes are base64 characters.
pub open spec fn spec_is_base64_chars(d: Seq<u8>) -> bool {
    forall|i: int| 0 <= i < d.len() ==> spec_is_b64_byte(#[trigger] d[i])
}

/// ASCII-only content is valid UTF-8.
proof fn lemma_base64_ascii_rec(d: Seq<u8>)
    requires
        spec_is_base64_chars(d),
    ensures
        valid_utf8(d),
    decreases d.len(),
{
    if d.len() > 0 {
        assert(spec_is_b64_byte(d[0]));
        assert(vstd::utf8::is_leading_byte_width_1(d[0])) by {
            assert(d[0] < 128);
        }
        assert(vstd::utf8::valid_first_scalar(d));
        assert(vstd::utf8::pop_first_scalar(d) =~= d.drop_first());
        assert(spec_is_base64_chars(d.drop_first()));
        lemma_base64_ascii_rec(d.drop_first());
    }
}

} // verus!

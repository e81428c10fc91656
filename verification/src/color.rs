use vstd::prelude::*;
use vstd::string::StringSliceAdditionalSpecFns;

verus! {

/// Why a hex colour string was refused.
#[derive(PartialEq, Eq, Structural, Clone, Copy, Debug)]
pub enum HexColorError {
    /// The string, after its leading '#' characters, is not 6 bytes long; the length it has.
    InvalidLength(usize),
    /// One of the three two-character groups is not a hexadecimal byte.
    InvalidDigit,
}

/// The value of a hexadecimal digit byte, if it is one.
pub open spec fn hex_value(b: u8) -> Option<u8> {
    if 0x30 <= b <= 0x39 {
        Some((b - 0x30) as u8)
    } else if 0x61 <= b <= 0x66 {
        Some((b - 0x61 + 10) as u8)
    } else if 0x41 <= b <= 0x46 {
        Some((b - 0x41 + 10) as u8)
    } else {
        None
    }
}

/// The byte that two characters denote when read as a base-16 `u8`: two hex
/// digits, or a '+' sign followed by one hex digit.
pub open spec fn hex_pair(a: u8, b: u8) -> Option<u8> {
    if a == 0x2b {
        hex_value(b)
    } else {
        match (hex_value(a), hex_value(b)) {
            (Some(x), Some(y)) => Some((x * 16 + y) as u8),
            _ => None,
        }
    }
}

/// `s` without its leading '#' bytes.
pub open spec fn trim_hashes(s: Seq<u8>) -> Seq<u8>
    decreases s.len(),
{
    if s.len() > 0 && s[0] == 0x23 {
        trim_hashes(s.drop_first())
    } else {
        s
    }
}

/// A UTF-8 continuation byte, where a `str` cannot be cut.
pub open spec fn is_continuation(b: u8) -> bool {
    0x80 <= b <= 0xbf
}

/// Splitting the trimmed string into its three two-byte groups cuts it at
/// character boundaries (or the length check refuses it first).
pub open spec fn hex_groups_cuttable(s: Seq<u8>) -> bool {
    let t = trim_hashes(s);
    t.len() == 6 ==> !is_continuation(t[2]) && !is_continuation(t[4])
}

/// What reading a colour "#RRGGBB" (or "RRGGBB") gives: the three bytes, or why not.
pub open spec fn hex_color_result(s: Seq<u8>) -> Result<[u8; 3], HexColorError> {
    let t = trim_hashes(s);
    if t.len() != 6 {
        Err(HexColorError::InvalidLength(t.len() as usize))
    } else {
        match (hex_pair(t[0], t[1]), hex_pair(t[2], t[3]), hex_pair(t[4], t[5])) {
            (Some(r), Some(g), Some(b)) => Ok([r, g, b]),
            _ => Err(HexColorError::InvalidDigit),
        }
    }
}

fn hex_digit(b: u8) -> (r: Option<u8>)
    ensures
        r == hex_value(b),
{
    if 0x30 <= b && b <= 0x39 {
        Some(b - 0x30)
    } else if 0x61 <= b && b <= 0x66 {
        Some(b - 0x61 + 10)
    } else if 0x41 <= b && b <= 0x46 {
        Some(b - 0x41 + 10)
    } else {
        None
    }
}

fn read_pair(a: u8, b: u8) -> (r: Option<u8>)
    ensures
        r == hex_pair(a, b),
{
    if a == 0x2b {
        hex_digit(b)
    } else {
        match (hex_digit(a), hex_digit(b)) {
            (Some(x), Some(y)) => Some(x * 16 + y),
            _ => None,
        }
    }
}

proof fn lemma_trim_skip(s: Seq<u8>, k: int)
    requires
        0 <= k <= s.len(),
        forall|j: int| 0 <= j < k ==> s[j] == 0x23,
    ensures
        trim_hashes(s) == trim_hashes(s.skip(k)),
    decreases k,
{
    if k > 0 {
        assert(s[0] == 0x23);
        assert(trim_hashes(s) == trim_hashes(s.drop_first()));
        lemma_trim_skip(s.drop_first(), k - 1);
        assert(s.drop_first().skip(k - 1) =~= s.skip(k));
    } else {
        assert(s.skip(0) =~= s);
    }
}

/// Reads a colour written as "#RRGGBB" or "RRGGBB" (any number of leading '#')
/// into its red, green and blue bytes.
pub fn parse_hex_color(hex: &str) -> (r: Result<[u8; 3], HexColorError>)
    requires
        hex_groups_cuttable(hex.spec_bytes()),
    ensures
        r == hex_color_result(hex.spec_bytes()),
{
    let bytes = hex.as_bytes();
    let mut k: usize = 0;
    while k < bytes.len() && bytes[k] == 0x23
        invariant
            k <= bytes@.len(),
            forall|j: int| 0 <= j < k ==> bytes@[j] == 0x23,
        decreases bytes.len() - k,
    {
        k += 1;
    }
    proof {
        lemma_trim_skip(bytes@, k as int);
        assert(trim_hashes(bytes@.skip(k as int)) == bytes@.skip(k as int));
    }
    let n = bytes.len() - k;
    if n != 6 {
        return Err(HexColorError::InvalidLength(n));
    }
    let r = read_pair(bytes[k], bytes[k + 1]);
    let g = read_pair(bytes[k + 2], bytes[k + 3]);
    let b = read_pair(bytes[k + 4], bytes[k + 5]);
    match (r, g, b) {
        (Some(r), Some(g), Some(b)) => Ok([r, g, b]),
        _ => Err(HexColorError::InvalidDigit),
    }
}

/// Reads a colour like `parse_hex_color`, falling back to white for anything
/// that is not a valid colour.
pub fn hex_to_rgb(hex: &str) -> (r: [u8; 3])
    requires
        hex_groups_cuttable(hex.spec_bytes()),
    ensures
        r == match hex_color_result(hex.spec_bytes()) {
            Ok(c) => c,
            Err(_) => [255u8, 255u8, 255u8],
        },
{
    match parse_hex_color(hex) {
        Ok(c) => c,
        Err(_) => [255, 255, 255],
    }
}

} // verus!

use vstd::prelude::*;
use vstd::string::StringSliceAdditionalSpecFns;

verus! {

/// The byte `#`.
pub const HASH: u8 = 0x23;

/// The byte `+`, which `u8::from_str_radix` accepts as a sign.
pub const PLUS: u8 = 0x2b;

/// Value of an ASCII hexadecimal digit (either case).
pub open spec fn hex_digit_value(b: u8) -> Option<u8> {
    if 0x30 <= b <= 0x39 {
        Some((b - 0x30) as u8)
    } else if 0x41 <= b <= 0x46 {
        Some((b - 0x37) as u8)
    } else if 0x61 <= b <= 0x66 {
        Some((b - 0x57) as u8)
    } else {
        None
    }
}

/// What `u8::from_str_radix(s, 16)` gives for a two-byte string `s = [b0, b1]`:
/// an optional leading `+` followed by hexadecimal digits.
pub open spec fn radix16_pair(b0: u8, b1: u8) -> Option<u8> {
    if b0 == PLUS {
        hex_digit_value(b1)
    } else {
        match (hex_digit_value(b0), hex_digit_value(b1)) {
            (Some(hi), Some(lo)) => Some((16 * hi + lo) as u8),
            _ => None,
        }
    }
}

/// The bytes left after removing every leading `#`.
pub open spec fn strip_hashes(s: Seq<u8>) -> Seq<u8>
    decreases s.len(),
{
    if s.len() > 0 && s[0] == HASH {
        strip_hashes(s.drop_first())
    } else {
        s
    }
}

/// The color a hex code such as `#4A90E2` denotes: six bytes after the leading `#`s,
/// read as three two-byte radix-16 numbers.
pub open spec fn parse_hex_color(s: Seq<u8>) -> Option<(u8, u8, u8)> {
    let h = strip_hashes(s);
    if h.len() != 6 {
        None
    } else {
        match (radix16_pair(h[0], h[1]), radix16_pair(h[2], h[3]), radix16_pair(h[4], h[5])) {
            (Some(r), Some(g), Some(b)) => Some((r, g, b)),
            _ => None,
        }
    }
}

/// Whether a byte is an ASCII hexadecimal digit: `0`-`9`, `A`-`F` or `a`-`f`.
pub open spec fn is_ascii_hex(b: u8) -> bool {
    (0x30 <= b && b <= 0x39) || (0x41 <= b && b <= 0x46) || (0x61 <= b && b <= 0x66)
}

/// The value of an ASCII hexadecimal digit, by its character code.
pub open spec fn ascii_hex_value(b: u8) -> int {
    if b <= 0x39 {
        b - 0x30
    } else if b <= 0x46 {
        b - 0x41 + 10
    } else {
        b - 0x61 + 10
    }
}

/// A two-byte radix-16 number reads when it is two hexadecimal digits (value
/// `16 * high + low`) or a `+` sign followed by one digit (its value); nothing else reads.
pub proof fn lemma_radix16_pair_reading(b0: u8, b1: u8)
    ensures
        radix16_pair(b0, b1) is Some <==> (is_ascii_hex(b0) || b0 == 0x2b) && is_ascii_hex(b1),
        is_ascii_hex(b0) && is_ascii_hex(b1) ==> radix16_pair(b0, b1) == Some(
            (16 * ascii_hex_value(b0) + ascii_hex_value(b1)) as u8,
        ),
        is_ascii_hex(b0) && is_ascii_hex(b1) ==> 16 * ascii_hex_value(b0) + ascii_hex_value(b1) < 256,
        b0 == 0x2b && is_ascii_hex(b1) ==> radix16_pair(b0, b1) == Some(ascii_hex_value(b1) as u8),
{
}

/// How a code is read: leading `#`s are skipped one by one; what follows must be exactly
/// six bytes, read as three radix-16 pairs for red, green and blue.
pub proof fn lemma_hex_code_reading(s: Seq<u8>)
    ensures
        s.len() > 0 && s[0] == HASH ==> parse_hex_color(s) == parse_hex_color(s.drop_first()),
        (s.len() == 0 || s[0] != HASH) && s.len() != 6 ==> parse_hex_color(s) is None,
        s.len() == 6 && s[0] != HASH ==> parse_hex_color(s) == match (
            radix16_pair(s[0], s[1]),
            radix16_pair(s[2], s[3]),
            radix16_pair(s[4], s[5]),
        ) {
            (Some(r), Some(g), Some(b)) => Some((r, g, b)),
            _ => None,
        },
{
}

/// Whether a UTF-8 byte is a continuation byte, that is, not the start of a character.
pub open spec fn is_continuation(b: u8) -> bool {
    0x80 <= b < 0xc0
}

/// The string slices taken while reading a hex code fall on character boundaries:
/// byte 2 always (when six bytes remain), and byte 4 once the red pair was read.
pub open spec fn hex_code_sliceable(s: Seq<u8>) -> bool {
    let h = strip_hashes(s);
    h.len() == 6 ==> {
        &&& !is_continuation(h[2])
        &&& radix16_pair(h[0], h[1]) is Some ==> !is_continuation(h[4])
    }
}

proof fn lemma_strip_hashes_suffix(s: Seq<u8>)
    ensures
        exists|k: int| 0 <= k <= s.len() && strip_hashes(s) == s.skip(k),
    decreases s.len(),
{
    if s.len() > 0 && s[0] == HASH {
        lemma_strip_hashes_suffix(s.drop_first());
        let k = choose|k: int| 0 <= k <= s.drop_first().len() && strip_hashes(s.drop_first()) == s.drop_first().skip(k);
        assert(s.drop_first().skip(k) =~= s.skip(k + 1));
    } else {
        assert(s.skip(0) =~= s);
    }
}

/// A code made only of ASCII bytes can always be read without slicing inside a character.
pub proof fn lemma_ascii_codes_sliceable(s: Seq<u8>)
    requires
        forall|i: int| 0 <= i < s.len() ==> s[i] < 0x80,
    ensures
        hex_code_sliceable(s),
{
    lemma_strip_hashes_suffix(s);
    let k = choose|k: int| 0 <= k <= s.len() && strip_hashes(s) == s.skip(k);
    let h = strip_hashes(s);
    if h.len() == 6 {
        assert(h[2] == s[k + 2]);
        assert(h[4] == s[k + 4]);
    }
}

fn hex_digit(b: u8) -> (r: Option<u8>)
    ensures
        r == hex_digit_value(b),
{
    if 0x30 <= b && b <= 0x39 {
        Some(b - 0x30)
    } else if 0x41 <= b && b <= 0x46 {
        Some(b - 0x37)
    } else if 0x61 <= b && b <= 0x66 {
        Some(b - 0x57)
    } else {
        None
    }
}

fn parse_radix16_pair(b0: u8, b1: u8) -> (r: Option<u8>)
    ensures
        r == radix16_pair(b0, b1),
{
    if b0 == PLUS {
        return hex_digit(b1);
    }
    match (hex_digit(b0), hex_digit(b1)) {
        (Some(hi), Some(lo)) => Some(16 * hi + lo),
        _ => None,
    }
}

proof fn lemma_strip_hashes_skip(s: Seq<u8>, k: int)
    requires
        0 <= k <= s.len(),
        forall|i: int| 0 <= i < k ==> s[i] == HASH,
    ensures
        strip_hashes(s) == strip_hashes(s.skip(k)),
    decreases k,
{
    if k > 0 {
        assert(s.skip(1) =~= s.drop_first());
        assert(s.drop_first().skip(k - 1) =~= s.skip(k));
        lemma_strip_hashes_skip(s.drop_first(), k - 1);
    } else {
        assert(s.skip(0) =~= s);
    }
}

/// Counts the leading `#` bytes: what is left after them is `strip_hashes` of the bytes.
fn skip_hashes(s: &[u8]) -> (k: usize)
    ensures
        k <= s@.len(),
        strip_hashes(s@) == s@.skip(k as int),
        strip_hashes(s@.skip(k as int)) == s@.skip(k as int),
{
    let n = s.len();
    let mut k: usize = 0;
    while k < n && s[k] == HASH
        invariant
            n == s@.len(),
            0 <= k <= n,
            forall|i: int| 0 <= i < k ==> s@[i] == HASH,
        decreases n - k,
    {
        k = k + 1;
    }
    proof {
        lemma_strip_hashes_skip(s@, k as int);
    }
    assert(k == n || s@.skip(k as int)[0] != HASH);
    k
}

/// Reads a color code such as `#4A90E2` (any number of leading `#`, then six bytes of
/// three two-digit hexadecimal numbers) into its red, green and blue components.
pub fn hex_to_rgb(hex: &str) -> (r: Option<(u8, u8, u8)>)
    requires
        hex_code_sliceable(hex.spec_bytes()),
    ensures
        r == parse_hex_color(hex.spec_bytes()),
{
    let s = hex.as_bytes();
    let n = s.len();
    let k = skip_hashes(s);
    let ghost h = s@.skip(k as int);
    if n - k != 6 {
        return None;
    }
    assert(h[0] == s@[k as int] && h[1] == s@[k + 1] && h[2] == s@[k + 2]);
    assert(h[3] == s@[k + 3] && h[4] == s@[k + 4] && h[5] == s@[k + 5]);
    let r = match parse_radix16_pair(s[k], s[k + 1]) {
        Some(v) => v,
        None => return None,
    };
    let g = match parse_radix16_pair(s[k + 2], s[k + 3]) {
        Some(v) => v,
        None => return None,
    };
    let b = match parse_radix16_pair(s[k + 4], s[k + 5]) {
        Some(v) => v,
        None => return None,
    };
    Some((r, g, b))
}

/// The sixteen upper-case hexadecimal digits.
pub open spec fn upper_hex_digits() -> Seq<char> {
    seq!['0', '1', '2', '3', '4', '5', '6', '7', '8', '9', 'A', 'B', 'C', 'D', 'E', 'F']
}

/// A byte as two upper-case hexadecimal digits, as `{:02X}` writes it.
pub open spec fn hex_byte(v: u8) -> Seq<char> {
    seq![upper_hex_digits()[(v / 16) as int], upper_hex_digits()[(v % 16) as int]]
}

/// The code `#RRGGBB` of a color, in upper-case hexadecimal.
pub open spec fn hex_code(r: u8, g: u8, b: u8) -> Seq<char> {
    seq!['#'] + hex_byte(r) + hex_byte(g) + hex_byte(b)
}

fn hex_digit_str(d: u8) -> (s: &'static str)
    requires
        d < 16,
    ensures
        s@ == seq![upper_hex_digits()[d as int]],
{
    match d {
        0 => { proof { reveal_strlit("0"); } "0" },
        1 => { proof { reveal_strlit("1"); } "1" },
        2 => { proof { reveal_strlit("2"); } "2" },
        3 => { proof { reveal_strlit("3"); } "3" },
        4 => { proof { reveal_strlit("4"); } "4" },
        5 => { proof { reveal_strlit("5"); } "5" },
        6 => { proof { reveal_strlit("6"); } "6" },
        7 => { proof { reveal_strlit("7"); } "7" },
        8 => { proof { reveal_strlit("8"); } "8" },
        9 => { proof { reveal_strlit("9"); } "9" },
        10 => { proof { reveal_strlit("A"); } "A" },
        11 => { proof { reveal_strlit("B"); } "B" },
        12 => { proof { reveal_strlit("C"); } "C" },
        13 => { proof { reveal_strlit("D"); } "D" },
        14 => { proof { reveal_strlit("E"); } "E" },
        _ => { proof { reveal_strlit("F"); } "F" },
    }
}

fn push_hex_byte(s: &mut String, v: u8)
    ensures
        final(s)@ == old(s)@ + hex_byte(v),
{
    s.append(hex_digit_str(v / 16));
    s.append(hex_digit_str(v % 16));
}

/// Writes a color as `#RRGGBB` in upper-case hexadecimal (`#4A90E2` for 74, 144, 226).
pub fn format_hex(r: u8, g: u8, b: u8) -> (s: String)
    ensures
        s@ == hex_code(r, g, b),
        s@.len() == 7,
        s@[0] == '#',
        is_upper_hex_digit_of(s@[1], r / 16),
        is_upper_hex_digit_of(s@[2], r % 16),
        is_upper_hex_digit_of(s@[3], g / 16),
        is_upper_hex_digit_of(s@[4], g % 16),
        is_upper_hex_digit_of(s@[5], b / 16),
        is_upper_hex_digit_of(s@[6], b % 16),
{
    proof {
        reveal_strlit("#");
    }
    let mut s = "#".to_string();
    push_hex_byte(&mut s, r);
    push_hex_byte(&mut s, g);
    push_hex_byte(&mut s, b);
    proof {
        lemma_hex_code_digits(r, g, b);
    }
    s
}

/// `c` is the upper-case hexadecimal digit of the value `d` (below 16): `0`-`9` for 0
/// to 9, `A`-`F` for 10 to 15, by character code.
pub open spec fn is_upper_hex_digit_of(c: char, d: u8) -> bool {
    &&& 0 <= d < 16
    &&& (d < 10 ==> c as u32 == 0x30 + d)
    &&& (d >= 10 ==> c as u32 == 0x41 + (d - 10))
}

/// The code of a color is seven characters: `#`, then for red, green and blue in turn
/// the upper-case hexadecimal digit of the component's high four bits and that of its
/// low four bits (so `#050505` for 5, 5, 5, never a sign or a space).
pub proof fn lemma_hex_code_digits(r: u8, g: u8, b: u8)
    ensures
        hex_code(r, g, b).len() == 7,
        hex_code(r, g, b)[0] == '#',
        is_upper_hex_digit_of(hex_code(r, g, b)[1], r / 16),
        is_upper_hex_digit_of(hex_code(r, g, b)[2], r % 16),
        is_upper_hex_digit_of(hex_code(r, g, b)[3], g / 16),
        is_upper_hex_digit_of(hex_code(r, g, b)[4], g % 16),
        is_upper_hex_digit_of(hex_code(r, g, b)[5], b / 16),
        is_upper_hex_digit_of(hex_code(r, g, b)[6], b % 16),
{
    let c = hex_code(r, g, b);
    assert(c[1] == hex_byte(r)[0] && c[2] == hex_byte(r)[1]);
    assert(c[3] == hex_byte(g)[0] && c[4] == hex_byte(g)[1]);
    assert(c[5] == hex_byte(b)[0] && c[6] == hex_byte(b)[1]);
}

proof fn lemma_hex_byte_reads_back(v: u8, b0: u8, b1: u8)
    requires
        b0 == hex_byte(v)[0] as u8,
        b1 == hex_byte(v)[1] as u8,
    ensures
        radix16_pair(b0, b1) == Some(v),
        !is_continuation(b0),
        !is_continuation(b1),
        b0 != HASH,
{
    let hi = v / 16;
    let lo = v % 16;
    assert(hi < 16 && lo < 16);
    assert(hex_digit_value(b0) == Some(hi as u8));
    assert(hex_digit_value(b1) == Some(lo as u8));
}

/// Reading back a written code gives the color that was written: for every color,
/// the code `format_hex` writes is one `hex_to_rgb` accepts, and it reads it as that color.
pub proof fn lemma_hex_code_roundtrip(r: u8, g: u8, b: u8)
    ensures
        hex_code_sliceable(vstd::utf8::encode_utf8(hex_code(r, g, b))),
        parse_hex_color(vstd::utf8::encode_utf8(hex_code(r, g, b))) == Some((r, g, b)),
{
    let c = hex_code(r, g, b);
    assert(c.len() == 7);
    assert(c[0] == '#');
    assert(c[1] == hex_byte(r)[0] && c[2] == hex_byte(r)[1]);
    assert(c[3] == hex_byte(g)[0] && c[4] == hex_byte(g)[1]);
    assert(c[5] == hex_byte(b)[0] && c[6] == hex_byte(b)[1]);
    assert(vstd::utf8::is_ascii_chars(c)) by {
        assert forall|i: int| 0 <= i < c.len() implies '\0' <= #[trigger] c[i] <= '\u{7f}' by {
            assert(0 <= i < 7);
        }
    }
    vstd::utf8::is_ascii_chars_encode_utf8(c);
    let bytes = vstd::utf8::encode_utf8(c);
    assert(bytes.len() == 7);
    assert(bytes[0] == HASH);
    lemma_hex_byte_reads_back(r, bytes[1], bytes[2]);
    lemma_hex_byte_reads_back(g, bytes[3], bytes[4]);
    lemma_hex_byte_reads_back(b, bytes[5], bytes[6]);
    assert(strip_hashes(bytes.drop_first()) == bytes.drop_first());
    assert(strip_hashes(bytes) == bytes.drop_first());
}

/// The sixteen lower-case hexadecimal digits.
pub open spec fn lower_hex_digits() -> Seq<char> {
    seq!['0', '1', '2', '3', '4', '5', '6', '7', '8', '9', 'a', 'b', 'c', 'd', 'e', 'f']
}

/// A byte as two lower-case hexadecimal digits, as `{:02x}` writes it.
pub open spec fn lower_hex_byte(v: u8) -> Seq<char> {
    seq![lower_hex_digits()[(v / 16) as int], lower_hex_digits()[(v % 16) as int]]
}

/// The code `#rrggbb` of a color, in lower-case hexadecimal.
pub open spec fn lower_hex_code(r: u8, g: u8, b: u8) -> Seq<char> {
    seq!['#'] + lower_hex_byte(r) + lower_hex_byte(g) + lower_hex_byte(b)
}

proof fn lemma_lower_hex_byte_reads_back(v: u8, b0: u8, b1: u8)
    requires
        b0 == lower_hex_byte(v)[0] as u8,
        b1 == lower_hex_byte(v)[1] as u8,
    ensures
        radix16_pair(b0, b1) == Some(v),
        !is_continuation(b0),
        !is_continuation(b1),
        b0 != HASH,
{
    let hi = v / 16;
    let lo = v % 16;
    assert(hi < 16 && lo < 16);
    assert(hex_digit_value(b0) == Some(hi as u8));
    assert(hex_digit_value(b1) == Some(lo as u8));
}

/// Codes written in lower case read back too: for every color, `hex_to_rgb` accepts
/// its `#rrggbb` code and reads it as that color.
pub proof fn lemma_lower_hex_code_roundtrip(r: u8, g: u8, b: u8)
    ensures
        hex_code_sliceable(vstd::utf8::encode_utf8(lower_hex_code(r, g, b))),
        parse_hex_color(vstd::utf8::encode_utf8(lower_hex_code(r, g, b))) == Some((r, g, b)),
{
    let c = lower_hex_code(r, g, b);
    assert(c.len() == 7);
    assert(c[0] == '#');
    assert(c[1] == lower_hex_byte(r)[0] && c[2] == lower_hex_byte(r)[1]);
    assert(c[3] == lower_hex_byte(g)[0] && c[4] == lower_hex_byte(g)[1]);
    assert(c[5] == lower_hex_byte(b)[0] && c[6] == lower_hex_byte(b)[1]);
    assert(vstd::utf8::is_ascii_chars(c)) by {
        assert forall|i: int| 0 <= i < c.len() implies '\0' <= #[trigger] c[i] <= '\u{7f}' by {
            assert(0 <= i < 7);
        }
    }
    vstd::utf8::is_ascii_chars_encode_utf8(c);
    let bytes = vstd::utf8::encode_utf8(c);
    assert(bytes.len() == 7);
    assert(bytes[0] == HASH);
    lemma_lower_hex_byte_reads_back(r, bytes[1], bytes[2]);
    lemma_lower_hex_byte_reads_back(g, bytes[3], bytes[4]);
    lemma_lower_hex_byte_reads_back(b, bytes[5], bytes[6]);
    assert(strip_hashes(bytes.drop_first()) == bytes.drop_first());
    assert(strip_hashes(bytes) == bytes.drop_first());
}

/// A named color of the dictionary, with its code such as `#4A90E2`.
#[derive(Debug, Clone)]
pub struct ColorEntry {
    pub name: String,
    pub hex: String,
}

/// The color an entry's code denotes, if it reads as one.
pub open spec fn entry_color(e: ColorEntry) -> Option<(u8, u8, u8)> {
    parse_hex_color(vstd::utf8::encode_utf8(e.hex@))
}

/// Every code of the dictionary can be read without slicing inside a character.
pub open spec fn dictionary_sliceable(dict: Seq<ColorEntry>) -> bool {
    forall|i: int| 0 <= i < dict.len() ==> hex_code_sliceable(vstd::utf8::encode_utf8(#[trigger] dict[i].hex@))
}

/// The key of the largest finite distance: distances are compared by keys that
/// order as the non-negative distances themselves do (their bit patterns), and a
/// search starts from this one.
pub const MAX_DISTANCE_KEY: u64 = 0x7fef_ffff_ffff_ffff;

/// The best entry among the first `n` as the search goes: the latest readable entry
/// whose key is below the best key so far (starting from `MAX_DISTANCE_KEY`), with
/// that key; `None` and `MAX_DISTANCE_KEY` when there is none.
spec fn nearest_upto(dict: Seq<ColorEntry>, keys: Seq<u64>, n: int) -> (Option<int>, u64)
    decreases n,
{
    if n <= 0 {
        (None, MAX_DISTANCE_KEY)
    } else {
        let prev = nearest_upto(dict, keys, n - 1);
        if entry_color(dict[n - 1]) is Some && keys[n - 1] < prev.1 {
            (Some(n - 1), keys[n - 1])
        } else {
            prev
        }
    }
}

/// Entry `i` is the nearest one for the distance keys: its code reads as a color, its
/// key is below `MAX_DISTANCE_KEY`, no entry whose code reads has a smaller key, and
/// every earlier such entry has a larger one.
pub open spec fn is_nearest_entry(dict: Seq<ColorEntry>, keys: Seq<u64>, i: int) -> bool {
    &&& 0 <= i < dict.len()
    &&& entry_color(dict[i]) is Some
    &&& keys[i] < MAX_DISTANCE_KEY
    &&& forall|j: int| 0 <= j < dict.len() && (#[trigger] entry_color(dict[j])) is Some ==> keys[i] <= keys[j]
    &&& forall|j: int| 0 <= j < i && (#[trigger] entry_color(dict[j])) is Some ==> keys[i] < keys[j]
}

/// No entry whose code reads as a color has a key below `MAX_DISTANCE_KEY`.
pub open spec fn no_nearest_entry(dict: Seq<ColorEntry>, keys: Seq<u64>) -> bool {
    forall|j: int| 0 <= j < dict.len() && (#[trigger] entry_color(dict[j])) is Some ==> keys[j] >= MAX_DISTANCE_KEY
}

/// The dictionary entry nearest to a color, as names and codes, with its distance key.
#[derive(Debug, Clone)]
pub struct NearestColor {
    pub name: String,
    pub hex: String,
    pub distance_key: u64,
}

/// Whether `hex_to_rgb` may be called on a code (its slices fall on character boundaries).
pub fn hex_code_is_sliceable(hex: &str) -> (ok: bool)
    ensures
        ok == hex_code_sliceable(hex.spec_bytes()),
{
    let s = hex.as_bytes();
    let n = s.len();
    let k = skip_hashes(s);
    let ghost h = s@.skip(k as int);
    if n - k != 6 {
        return true;
    }
    assert(h[0] == s@[k as int] && h[1] == s@[k + 1] && h[2] == s@[k + 2]);
    assert(h[4] == s@[k + 4]);
    if 0x80 <= s[k + 2] && s[k + 2] < 0xc0 {
        return false;
    }
    match parse_radix16_pair(s[k], s[k + 1]) {
        Some(_) => !(0x80 <= s[k + 4] && s[k + 4] < 0xc0),
        None => true,
    }
}

/// Finds the dictionary entry nearest to the color `(r, g, b)`.
///
/// `distance_keys[i]` is the key of the distance from the color to entry `i`; it is
/// read only for entries whose code reads as a color. The first entry with the
/// smallest key below `MAX_DISTANCE_KEY` wins; without one the result is named
/// `Unknown`, carries the color's own code and the key `MAX_DISTANCE_KEY`.
pub fn find_nearest_color(r: u8, g: u8, b: u8, dict: &[ColorEntry], distance_keys: &[u64]) -> (res: NearestColor)
    requires
        dict@.len() == distance_keys@.len(),
        dictionary_sliceable(dict@),
    ensures
        (exists|i: int|
            {
                &&& #[trigger] is_nearest_entry(dict@, distance_keys@, i)
                &&& res.name@ == dict@[i].name@
                &&& res.hex@ == dict@[i].hex@
                &&& res.distance_key == distance_keys@[i]
            }) || {
            &&& no_nearest_entry(dict@, distance_keys@)
            &&& res.name@ == "Unknown"@
            &&& res.hex@ == hex_code(r, g, b)
            &&& res.distance_key == MAX_DISTANCE_KEY
        },
{
    let n = dict.len();
    let mut best: Option<usize> = None;
    let mut best_key: u64 = MAX_DISTANCE_KEY;
    let mut i: usize = 0;
    while i < n
        invariant
            n == dict@.len(),
            n == distance_keys@.len(),
            dictionary_sliceable(dict@),
            0 <= i <= n,
            nearest_upto(dict@, distance_keys@, i as int) == (match best {
                Some(j) => Some(j as int),
                None => None::<int>,
            }, best_key),
        decreases n - i,
    {
        let entry = &dict[i];
        assert(hex_code_sliceable(vstd::utf8::encode_utf8(dict@[i as int].hex@)));
        let parsed = hex_to_rgb(entry.hex.as_str());
        if parsed.is_some() && distance_keys[i] < best_key {
            best = Some(i);
            best_key = distance_keys[i];
        }
        i = i + 1;
    }
    proof {
        lemma_nearest_upto_minimal(dict@, distance_keys@, n as int);
    }
    match best {
        Some(j) => {
            let res = NearestColor {
                name: dict[j].name.clone(),
                hex: dict[j].hex.clone(),
                distance_key: best_key,
            };
            assert(is_nearest_entry(dict@, distance_keys@, j as int));
            res
        },
        None => {
            proof {
                reveal_strlit("Unknown");
            }
            NearestColor { name: "Unknown".to_string(), hex: format_hex(r, g, b), distance_key: best_key }
        },
    }
}

proof fn lemma_nearest_upto_minimal(dict: Seq<ColorEntry>, keys: Seq<u64>, n: int)
    requires
        0 <= n <= dict.len(),
        n <= keys.len(),
    ensures
        ({
            let (best, key) = nearest_upto(dict, keys, n);
            &&& key <= MAX_DISTANCE_KEY
            &&& forall|j: int| 0 <= j < n && (#[trigger] entry_color(dict[j])) is Some ==> key <= keys[j]
            &&& match best {
                Some(i) => {
                    &&& 0 <= i < n
                    &&& entry_color(dict[i]) is Some
                    &&& key == keys[i]
                    &&& key < MAX_DISTANCE_KEY
                    &&& forall|j: int| 0 <= j < i && (#[trigger] entry_color(dict[j])) is Some ==> key < keys[j]
                },
                None => key == MAX_DISTANCE_KEY && forall|j: int|
                    0 <= j < n && (#[trigger] entry_color(dict[j])) is Some ==> keys[j] >= MAX_DISTANCE_KEY,
            }
        }),
    decreases n,
{
    if n > 0 {
        lemma_nearest_upto_minimal(dict, keys, n - 1);
    }
}

/// There is at most one nearest entry, and there is none exactly when no entry has a
/// readable code with a key below `MAX_DISTANCE_KEY`: the contract of
/// `find_nearest_color` fixes its result.
pub proof fn lemma_nearest_entry_unique(dict: Seq<ColorEntry>, keys: Seq<u64>, i: int, j: int)
    requires
        dict.len() == keys.len(),
    ensures
        is_nearest_entry(dict, keys, i) && is_nearest_entry(dict, keys, j) ==> i == j,
        is_nearest_entry(dict, keys, i) ==> !no_nearest_entry(dict, keys),
{
    if is_nearest_entry(dict, keys, i) && is_nearest_entry(dict, keys, j) {
        if i < j {
            assert(entry_color(dict[i]) is Some);
        } else if j < i {
            assert(entry_color(dict[j]) is Some);
        }
    }
    if is_nearest_entry(dict, keys, i) {
        assert(entry_color(dict[i]) is Some);
    }
}

/// Position in the longer dictionary of entry `i`, once an entry is inserted at `p`.
pub open spec fn shifted_index(i: int, p: int) -> int {
    if i < p { i } else { i + 1 }
}

/// Entries whose code does not read as a color play no part in the search: inserting
/// one (with any key) anywhere leaves the nearest entry and its key as they were, and
/// leaves "no nearest entry" as it was; read backwards, removing one does the same.
pub proof fn lemma_unreadable_entry_ignored(
    dict: Seq<ColorEntry>,
    keys: Seq<u64>,
    p: int,
    e: ColorEntry,
    k: u64,
)
    requires
        dict.len() == keys.len(),
        0 <= p <= dict.len(),
        entry_color(e) is None,
    ensures
        no_nearest_entry(dict.insert(p, e), keys.insert(p, k)) <==> no_nearest_entry(dict, keys),
        forall|i: int|
            #[trigger] is_nearest_entry(dict, keys, i) ==> {
                &&& is_nearest_entry(dict.insert(p, e), keys.insert(p, k), shifted_index(i, p))
                &&& dict.insert(p, e)[shifted_index(i, p)] == dict[i]
                &&& keys.insert(p, k)[shifted_index(i, p)] == keys[i]
            },
        forall|i2: int|
            #[trigger] is_nearest_entry(dict.insert(p, e), keys.insert(p, k), i2) ==> exists|i: int|
                i2 == shifted_index(i, p) && #[trigger] is_nearest_entry(dict, keys, i),
{
    let d2 = dict.insert(p, e);
    let k2 = keys.insert(p, k);
    assert forall|i: int| 0 <= i < dict.len() implies d2[shifted_index(i, p)] == dict[i]
        && k2[shifted_index(i, p)] == keys[i] by {}
    assert(d2[p] == e);
    assert(no_nearest_entry(d2, k2) <==> no_nearest_entry(dict, keys)) by {
        if no_nearest_entry(dict, keys) {
            assert forall|j2: int| 0 <= j2 < d2.len() && (#[trigger] entry_color(d2[j2])) is Some implies k2[j2]
                >= MAX_DISTANCE_KEY by {
                let j = if j2 < p { j2 } else { j2 - 1 };
                assert(entry_color(dict[j]) is Some);
            }
        }
        if no_nearest_entry(d2, k2) {
            assert forall|j: int| 0 <= j < dict.len() && (#[trigger] entry_color(dict[j])) is Some implies keys[j]
                >= MAX_DISTANCE_KEY by {
                assert(entry_color(d2[shifted_index(j, p)]) is Some);
            }
        }
    }
    assert forall|i: int| #[trigger] is_nearest_entry(dict, keys, i) implies is_nearest_entry(
        d2,
        k2,
        shifted_index(i, p),
    ) by {
        let i2 = shifted_index(i, p);
        assert forall|j2: int| 0 <= j2 < d2.len() && (#[trigger] entry_color(d2[j2])) is Some implies k2[i2]
            <= k2[j2] by {
            let j = if j2 < p { j2 } else { j2 - 1 };
            assert(entry_color(dict[j]) is Some);
        }
        assert forall|j2: int| 0 <= j2 < i2 && (#[trigger] entry_color(d2[j2])) is Some implies k2[i2]
            < k2[j2] by {
            let j = if j2 < p { j2 } else { j2 - 1 };
            assert(entry_color(dict[j]) is Some);
        }
    }
    assert forall|i2: int| #[trigger] is_nearest_entry(d2, k2, i2) implies exists|i: int|
        i2 == shifted_index(i, p) && #[trigger] is_nearest_entry(dict, keys, i) by {
        assert(i2 != p);
        let i = if i2 < p { i2 } else { i2 - 1 };
        assert forall|j: int| 0 <= j < dict.len() && (#[trigger] entry_color(dict[j])) is Some implies keys[i]
            <= keys[j] by {
            assert(entry_color(d2[shifted_index(j, p)]) is Some);
        }
        assert forall|j: int| 0 <= j < i && (#[trigger] entry_color(dict[j])) is Some implies keys[i] < keys[j] by {
            assert(entry_color(d2[shifted_index(j, p)]) is Some);
        }
        assert(is_nearest_entry(dict, keys, i));
    }
}

} // verus!

use vstd::prelude::*;

use crate::text::{decimal, opt_chars, push_decimal, string_of, trim_chars, trimmed};

verus! {

/// Information read from the 128-byte EDID base block of a display.
pub struct EdidInfo {
    pub manufacturer: String,
    pub product_code: u16,
    pub display_name: Option<String>,
    pub serial_string: Option<String>,
    pub serial_number: u32,
    pub year: u16,
    pub week: u8,
    pub version: String,
    pub width_cm: u8,
    pub height_cm: u8,
    pub max_width: Option<u16>,
    pub max_height: Option<u16>,
    pub bit_depth: Option<u8>,
    pub digital: bool,
}

/// The mathematical content of an `EdidInfo`, with strings as character sequences.
pub struct EdidView {
    pub manufacturer: Seq<char>,
    pub product_code: u16,
    pub display_name: Option<Seq<char>>,
    pub serial_string: Option<Seq<char>>,
    pub serial_number: u32,
    pub year: u16,
    pub week: u8,
    pub version: Seq<char>,
    pub width_cm: u8,
    pub height_cm: u8,
    pub max_width: Option<u16>,
    pub max_height: Option<u16>,
    pub bit_depth: Option<u8>,
    pub digital: bool,
}

impl View for EdidInfo {
    type V = EdidView;

    open spec fn view(&self) -> EdidView {
        EdidView {
            manufacturer: self.manufacturer@,
            product_code: self.product_code,
            display_name: opt_chars(self.display_name),
            serial_string: opt_chars(self.serial_string),
            serial_number: self.serial_number,
            year: self.year,
            week: self.week,
            version: self.version@,
            width_cm: self.width_cm,
            height_cm: self.height_cm,
            max_width: self.max_width,
            max_height: self.max_height,
            bit_depth: self.bit_depth,
            digital: self.digital,
        }
    }
}

/// Descriptor tag of the monitor name.
pub const TAG_DISPLAY_NAME: u8 = 0xfc;

/// Descriptor tag of the monitor serial number text.
pub const TAG_SERIAL_STRING: u8 = 0xff;

/// The fixed 8-byte pattern every EDID starts with.
pub open spec fn edid_header() -> Seq<u8> {
    seq![0x00u8, 0xffu8, 0xffu8, 0xffu8, 0xffu8, 0xffu8, 0xffu8, 0x00u8]
}

/// Whether `raw` is long enough for a base block and starts with the EDID header.
pub open spec fn is_edid(raw: Seq<u8>) -> bool {
    raw.len() >= 128 && raw.subrange(0, 8) == edid_header()
}

/// The letter of a 5-bit manufacturer code (1 is 'A').
pub open spec fn id_letter(v: int) -> char {
    (64 + v) as char
}

/// The three-letter manufacturer ID packed into bytes 8 and 9 (big endian, 5 bits a letter).
pub open spec fn manufacturer_id(raw: Seq<u8>) -> Seq<char> {
    let w = raw[8] * 256 + raw[9];
    seq![id_letter((w / 1024) % 32), id_letter((w / 32) % 32), id_letter(w % 32)]
}

/// Bytes read as characters one for one (Latin-1).
pub open spec fn latin1(bytes: Seq<u8>) -> Seq<char> {
    bytes.map_values(|b: u8| b as char)
}

/// Whether a character ends descriptor text.
pub open spec fn is_text_end(c: char) -> bool {
    c == '\n' || c == '\0'
}

/// The characters before the first line feed or NUL.
pub open spec fn until_text_end(cs: Seq<char>) -> Seq<char>
    decreases cs.len(),
{
    if cs.len() == 0 || is_text_end(cs[0]) {
        Seq::empty()
    } else {
        seq![cs[0]] + until_text_end(cs.drop_first())
    }
}

/// Offset of the `i`-th 18-byte display descriptor.
pub open spec fn descriptor_base(i: int) -> int {
    54 + 18 * i
}

/// Whether the descriptor at `base` is a display descriptor with the given tag.
pub open spec fn descriptor_has_tag(raw: Seq<u8>, base: int, tag: u8) -> bool {
    raw[base] == 0 && raw[base + 1] == 0 && raw[base + 3] == tag
}

/// The text payload (bytes 5..18) of the descriptor at `base`, cut and trimmed.
pub open spec fn descriptor_text(raw: Seq<u8>, base: int) -> Seq<char> {
    trimmed(until_text_end(latin1(raw.subrange(base + 5, base + 18))))
}

/// The text of the first of the descriptors `i..4` that carries `tag`; the search
/// stops at the first descriptor that does not fit in `raw`.
pub open spec fn descriptor_string_from(raw: Seq<u8>, tag: u8, i: int) -> Option<Seq<char>>
    decreases 4 - i,
{
    if i >= 4 || descriptor_base(i) + 18 > raw.len() {
        None
    } else if descriptor_has_tag(raw, descriptor_base(i), tag) {
        Some(descriptor_text(raw, descriptor_base(i)))
    } else {
        descriptor_string_from(raw, tag, i + 1)
    }
}

/// The text of the first of the four display descriptors that carries `tag`.
pub open spec fn descriptor_string(raw: Seq<u8>, tag: u8) -> Option<Seq<char>> {
    descriptor_string_from(raw, tag, 0)
}

/// Native resolution from the first detailed timing descriptor (offset 54):
/// 12-bit active width and height, or nothing where that slot holds a display
/// descriptor or `raw` is too short.
pub open spec fn first_timing(raw: Seq<u8>) -> (Option<u16>, Option<u16>) {
    if raw.len() < 72 || (raw[54] == 0 && raw[55] == 0) {
        (None, None)
    } else {
        (
            Some((raw[56] + 256 * (raw[58] / 16)) as u16),
            Some((raw[59] + 256 * (raw[61] / 16)) as u16),
        )
    }
}

/// Bits per colour of a digital input, from bits 4..6 of the video input byte.
pub open spec fn depth_of(input: u8) -> Option<u8> {
    if input < 128 {
        None
    } else {
        let code = (input / 16) % 8;
        if 1 <= code <= 6 {
            Some((4 + 2 * code) as u8)
        } else {
            None
        }
    }
}

/// What `parse_edid` reads from a valid EDID.
pub open spec fn edid_of(raw: Seq<u8>) -> EdidView {
    EdidView {
        manufacturer: manufacturer_id(raw),
        product_code: (raw[10] + 256 * raw[11]) as u16,
        display_name: descriptor_string(raw, TAG_DISPLAY_NAME),
        serial_string: descriptor_string(raw, TAG_SERIAL_STRING),
        serial_number: (raw[12] + 256 * raw[13] + 65536 * raw[14] + 16777216 * raw[15]) as u32,
        year: (raw[17] + 1990) as u16,
        week: raw[16],
        version: decimal(raw[18] as nat) + seq!['.'] + decimal(raw[19] as nat),
        width_cm: raw[21],
        height_cm: raw[22],
        max_width: first_timing(raw).0,
        max_height: first_timing(raw).1,
        bit_depth: depth_of(raw[20]),
        digital: raw[20] >= 128,
    }
}

proof fn lemma_until_text_end_at(cs: Seq<char>, j: int)
    requires
        0 <= j <= cs.len(),
        forall|k: int| 0 <= k < j ==> !is_text_end(#[trigger] cs[k]),
        j == cs.len() || is_text_end(cs[j]),
    ensures
        until_text_end(cs) == cs.take(j),
    decreases j,
{
    if j == 0 {
        assert(cs.take(0) == Seq::<char>::empty());
    } else {
        let t = cs.drop_first();
        assert forall|k: int| 0 <= k < j - 1 implies !is_text_end(#[trigger] t[k]) by {
            assert(t[k] == cs[k + 1]);
        }
        lemma_until_text_end_at(t, j - 1);
        assert(cs.take(j) == seq![cs[0]] + t.take(j - 1));
    }
}

/// The manufacturer ID of an EDID as three letters.
pub fn decode_manufacturer(bytes: &[u8]) -> (s: String)
    requires
        bytes@.len() >= 10,
    ensures
        s@ == manufacturer_id(bytes@),
{
    let w: u16 = bytes[8] as u16 * 256 + bytes[9] as u16;
    let c1 = (((w / 1024) % 32) as u8 + 64) as char;
    let c2 = (((w / 32) % 32) as u8 + 64) as char;
    let c3 = ((w % 32) as u8 + 64) as char;
    let mut v: Vec<char> = Vec::new();
    v.push(c1);
    v.push(c2);
    v.push(c3);
    assert(v@ == manufacturer_id(bytes@));
    string_of(v.as_slice())
}

/// The trimmed text of the descriptor at `base`.
fn read_descriptor_text(bytes: &[u8], base: usize) -> (s: String)
    requires
        base <= 108,
        base + 18 <= bytes@.len(),
    ensures
        s@ == descriptor_text(bytes@, base as int),
{
    let ghost cs = latin1(bytes@.subrange(base + 5, base + 18));
    let mut v: Vec<char> = Vec::new();
    let mut k: usize = base + 5;
    while k < base + 18 && bytes[k] != 10 && bytes[k] != 0
        invariant
            base <= 108,
            base + 5 <= k <= base + 18 <= bytes@.len(),
            cs.len() == 13,
            cs == latin1(bytes@.subrange(base + 5, base + 18)),
            v@ == cs.take(k - base - 5),
            forall|m: int| 0 <= m < k - base - 5 ==> !is_text_end(#[trigger] cs[m]),
        decreases base + 18 - k,
    {
        let c = bytes[k] as char;
        assert(cs[k - base - 5] == c);
        v.push(c);
        assert(cs.take(k + 1 - base - 5) == cs.take(k - base - 5).push(c));
        k = k + 1;
    }
    proof {
        if k < base + 18 {
            assert(cs[k - base - 5] == bytes@[k as int] as char);
        }
        lemma_until_text_end_at(cs, k - base - 5);
    }
    let t = trim_chars(v.as_slice());
    string_of(t.as_slice())
}

/// The text of the first display descriptor (of four, at offsets 54, 72, 90 and
/// 108) that carries `tag`, trimmed; `None` when no descriptor that fits in
/// `bytes` carries it.
pub fn find_descriptor_string(bytes: &[u8], tag: u8) -> (r: Option<String>)
    ensures
        opt_chars(r) == descriptor_string(bytes@, tag),
{
    let mut i: usize = 0;
    while i < 4
        invariant
            i <= 4,
            descriptor_string(bytes@, tag) == descriptor_string_from(bytes@, tag, i as int),
        decreases 4 - i,
    {
        let base = 54 + i * 18;
        if base + 18 > bytes.len() {
            return None;
        }
        if bytes[base] == 0 && bytes[base + 1] == 0 && bytes[base + 3] == tag {
            let s = read_descriptor_text(bytes, base);
            return Some(s);
        }
        i = i + 1;
    }
    None
}

/// Active width and height from the first detailed timing descriptor.
pub fn parse_first_detailed_timing(raw: &[u8]) -> (r: (Option<u16>, Option<u16>))
    ensures
        r == first_timing(raw@),
{
    if raw.len() < 72 {
        return (None, None);
    }
    let base: usize = 54;
    if raw[base] == 0 && raw[base + 1] == 0 {
        return (None, None);
    }
    let h_active: u16 = raw[base + 2] as u16 + 256 * (raw[base + 4] / 16) as u16;
    let v_active: u16 = raw[base + 5] as u16 + 256 * (raw[base + 7] / 16) as u16;
    (Some(h_active), Some(v_active))
}

/// Decodes an EDID base block. Gives `None` unless `raw` holds at least 128
/// bytes and starts with the EDID header; otherwise the fields of `edid_of`.
pub fn parse_edid(raw: &[u8]) -> (r: Option<EdidInfo>)
    ensures
        r is Some <==> is_edid(raw@),
        r matches Some(info) ==> info@ == edid_of(raw@),
{
    if raw.len() < 128 {
        return None;
    }
    let header: [u8; 8] = [0x00, 0xFF, 0xFF, 0xFF, 0xFF, 0xFF, 0xFF, 0x00];
    let mut k: usize = 0;
    while k < 8
        invariant
            k <= 8,
            raw@.len() >= 128,
            header@ == edid_header(),
            forall|m: int| 0 <= m < k ==> raw@[m] == edid_header()[m],
        decreases 8 - k,
    {
        if raw[k] != header[k] {
            assert(raw@.subrange(0, 8)[k as int] != edid_header()[k as int]);
            return None;
        }
        k = k + 1;
    }
    assert(raw@.subrange(0, 8) == edid_header());

    let manufacturer = decode_manufacturer(raw);
    let product_code: u16 = raw[10] as u16 + 256 * raw[11] as u16;
    let serial_number: u32 = raw[12] as u32 + 256 * raw[13] as u32 + 65536 * raw[14] as u32
        + 16777216 * raw[15] as u32;
    let week = raw[16];
    let year: u16 = raw[17] as u16 + 1990;

    let mut vers: Vec<char> = Vec::new();
    push_decimal(&mut vers, raw[18] as u64);
    vers.push('.');
    push_decimal(&mut vers, raw[19] as u64);
    let version = string_of(vers.as_slice());

    let digital = raw[20] >= 128;
    let bit_depth: Option<u8> = if digital {
        let code = (raw[20] / 16) % 8;
        if 1 <= code && code <= 6 {
            Some(4 + 2 * code)
        } else {
            None
        }
    } else {
        None
    };

    let width_cm = raw[21];
    let height_cm = raw[22];

    let display_name = find_descriptor_string(raw, TAG_DISPLAY_NAME);
    let serial_string = find_descriptor_string(raw, TAG_SERIAL_STRING);

    let (max_width, max_height) = parse_first_detailed_timing(raw);

    assert(version@ == edid_of(raw@).version);
    let info = EdidInfo {
        manufacturer,
        product_code,
        display_name,
        serial_string,
        serial_number,
        year,
        week,
        version,
        width_cm,
        height_cm,
        max_width,
        max_height,
        bit_depth,
        digital,
    };
    Some(info)
}

} // verus!

verus! {

/// What any valid EDID decodes to stays in range: the manufacturer ID is three
/// characters from `@` to `_`, the year lies in 1990..=2245, a colour depth is
/// reported only for digital inputs and is an even number of bits from 6 to 16,
/// and the native resolution fits in 12 bits.
pub proof fn lemma_edid_fields_in_range(raw: Seq<u8>)
    requires
        is_edid(raw),
    ensures
        edid_of(raw).manufacturer.len() == 3,
        forall|k: int|
            0 <= k < 3 ==> '@' <= #[trigger] edid_of(raw).manufacturer[k] <= '_',
        1990 <= edid_of(raw).year <= 2245,
        edid_of(raw).bit_depth matches Some(b) ==> edid_of(raw).digital && 6 <= b <= 16 && b
            % 2 == 0,
        edid_of(raw).max_width matches Some(w) ==> w < 4096,
        edid_of(raw).max_height matches Some(h) ==> h < 4096,
{
}

} // verus!

verus! {

proof fn lemma_descriptor_skip(raw: Seq<u8>, tag: u8, j: int, i: int)
    requires
        0 <= j <= i < 4,
        72 + 18 * i <= raw.len(),
        forall|k: int|
            0 <= k < i ==> !(#[trigger] raw[54 + 18 * k] == 0 && raw[55 + 18 * k] == 0 && raw[57
                + 18 * k] == tag),
    ensures
        descriptor_string_from(raw, tag, j) == descriptor_string_from(raw, tag, i),
    decreases i - j,
{
    if j < i {
        assert(!(raw[54 + 18 * j] == 0 && raw[55 + 18 * j] == 0 && raw[57 + 18 * j] == tag));
        lemma_descriptor_skip(raw, tag, j + 1, i);
    }
}

/// All four display descriptors, at offsets 54, 72, 90 and 108, are searched in
/// order: when the descriptor at `54 + 18 * i` is the first to carry `tag` (bytes 0
/// and 1 zero, byte 3 the tag), the text found is that descriptor's bytes 5..18,
/// read one byte a character, cut at the first line feed or NUL, and trimmed.
pub proof fn lemma_descriptor_found_in_any_slot(raw: Seq<u8>, tag: u8, i: int)
    requires
        0 <= i < 4,
        72 + 18 * i <= raw.len(),
        raw[54 + 18 * i] == 0 && raw[55 + 18 * i] == 0 && raw[57 + 18 * i] == tag,
        forall|k: int|
            0 <= k < i ==> !(#[trigger] raw[54 + 18 * k] == 0 && raw[55 + 18 * k] == 0 && raw[57
                + 18 * k] == tag),
    ensures
        descriptor_string(raw, tag) == Some(
            trimmed(until_text_end(raw.subrange(59 + 18 * i, 72 + 18 * i).map_values(|b: u8| b as char))),
        ),
{
    lemma_descriptor_skip(raw, tag, 0, i);
}

/// When none of the four descriptors carries `tag`, nothing is found.
pub proof fn lemma_descriptor_absent(raw: Seq<u8>, tag: u8)
    requires
        raw.len() >= 126,
        forall|k: int|
            0 <= k < 4 ==> !(#[trigger] raw[54 + 18 * k] == 0 && raw[55 + 18 * k] == 0 && raw[57
                + 18 * k] == tag),
    ensures
        descriptor_string(raw, tag) is None,
{
    lemma_descriptor_skip(raw, tag, 0, 3);
    let k: int = 3;
    assert(!(raw[54 + 18 * k] == 0 && raw[55 + 18 * k] == 0 && raw[57 + 18 * k] == tag));
    assert(descriptor_base(3) == 108);
    assert(!descriptor_has_tag(raw, 108, tag));
    assert(descriptor_string_from(raw, tag, 4) is None);
}

/// The monitor name of a decoded EDID is found in whichever of the four
/// descriptors first carries the name tag 0xFC, the fourth one included.
pub proof fn lemma_display_name_from_fourth_descriptor(raw: Seq<u8>)
    requires
        is_edid(raw),
        forall|k: int|
            0 <= k < 3 ==> !(#[trigger] raw[54 + 18 * k] == 0 && raw[55 + 18 * k] == 0 && raw[57
                + 18 * k] == 0xfc),
        raw[108] == 0 && raw[109] == 0 && raw[111] == 0xfc,
    ensures
        edid_of(raw).display_name == Some(
            trimmed(until_text_end(raw.subrange(113, 126).map_values(|b: u8| b as char))),
        ),
{
    lemma_descriptor_found_in_any_slot(raw, 0xfc, 3);
}

} // verus!

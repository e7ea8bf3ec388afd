use crate::monitor::Monitor;
use vstd::prelude::*;
use vstd::utf8::encode_utf8;

verus! {

/// A panel's physical size from its identification data, in millimetres.
#[derive(Clone, Copy, Debug, PartialEq, Eq, Structural)]
pub struct EdidPhysicalSize {
    pub width_mm: u32,
    pub height_mm: u32,
}

/// Relies on `String::push`: appends one character.
#[verifier::external_body]
fn push_char(s: &mut String, c: char)
    ensures
        final(s)@ == old(s)@.push(c),
{
    s.push(c);
}

/// The fixed eight-byte header that starts every block of identification data.
pub open spec fn has_edid_header(e: Seq<u8>) -> bool {
    &&& e.len() >= 8
    &&& e[0] == 0x00 && e[1] == 0xFF && e[2] == 0xFF && e[3] == 0xFF
    &&& e[4] == 0xFF && e[5] == 0xFF && e[6] == 0xFF && e[7] == 0x00
}

/// Width in millimetres from the first detailed timing descriptor.
pub open spec fn precise_width_mm(e: Seq<u8>) -> int {
    (e[68] as int / 16) * 256 + e[66] as int
}

/// Height in millimetres from the first detailed timing descriptor.
pub open spec fn precise_height_mm(e: Seq<u8>) -> int {
    (e[68] as int % 16) * 256 + e[67] as int
}

/// The precise size is plausible: both sides positive and under two metres.
pub open spec fn precise_size_ok(e: Seq<u8>) -> bool {
    0 < precise_width_mm(e) < 2000 && 0 < precise_height_mm(e) < 2000
}

/// The physical size: the detailed timing's when plausible, else the coarse
/// size in centimetres, else unknown.
pub open spec fn physical_size_spec(e: Seq<u8>) -> Option<EdidPhysicalSize> {
    if e.len() < 128 || !has_edid_header(e) {
        None
    } else if precise_size_ok(e) {
        Some(EdidPhysicalSize { width_mm: precise_width_mm(e) as u32, height_mm: precise_height_mm(e) as u32 })
    } else if e[21] > 0 && e[22] > 0 {
        Some(EdidPhysicalSize { width_mm: (e[21] * 10) as u32, height_mm: (e[22] * 10) as u32 })
    } else {
        None
    }
}

fn has_header_exec(edid: &[u8]) -> (r: bool)
    requires
        edid@.len() >= 8,
    ensures
        r == has_edid_header(edid@),
{
    edid[0] == 0x00 && edid[1] == 0xFF && edid[2] == 0xFF && edid[3] == 0xFF && edid[4] == 0xFF && edid[5] == 0xFF
        && edid[6] == 0xFF && edid[7] == 0x00
}

/// The panel's physical size from a block of identification data.
pub fn parse_edid_physical_size(edid: &[u8]) -> (r: Option<EdidPhysicalSize>)
    ensures
        r == physical_size_spec(edid@),
{
    if edid.len() < 128 || !has_header_exec(edid) {
        return None;
    }
    let h_mm: u32 = (edid[68] as u32 / 16) * 256 + edid[66] as u32;
    let v_mm: u32 = (edid[68] as u32 % 16) * 256 + edid[67] as u32;
    if h_mm > 0 && v_mm > 0 && h_mm < 2000 && v_mm < 2000 {
        return Some(EdidPhysicalSize { width_mm: h_mm, height_mm: v_mm });
    }
    let w_cm = edid[21] as u32;
    let h_cm = edid[22] as u32;
    if w_cm > 0 && h_cm > 0 {
        return Some(EdidPhysicalSize { width_mm: w_cm * 10, height_mm: h_cm * 10 });
    }
    None
}

/// The active resolution of the detailed timing descriptor at `offset`;
/// `None` when the block does not fit, is no timing (two zero bytes) or has
/// a zero side.
pub open spec fn timing_resolution_spec(e: Seq<u8>, offset: int) -> Option<[u32; 2]> {
    if offset + 18 > e.len() {
        None
    } else if e[offset] == 0 && e[offset + 1] == 0 {
        None
    } else {
        let h = (e[offset + 4] as int / 16) * 256 + e[offset + 2] as int;
        let v = (e[offset + 7] as int / 16) * 256 + e[offset + 5] as int;
        if h > 0 && v > 0 { Some([h as u32, v as u32]) } else { None }
    }
}

pub fn parse_detailed_timing_resolution(edid: &[u8], offset: usize) -> (r: Option<[u32; 2]>)
    ensures
        r == timing_resolution_spec(edid@, offset as int),
{
    if offset > edid.len() || edid.len() - offset < 18 {
        return None;
    }
    if edid[offset] == 0 && edid[offset + 1] == 0 {
        return None;
    }
    let h: u32 = (edid[offset + 4] as u32 / 16) * 256 + edid[offset + 2] as u32;
    let v: u32 = (edid[offset + 7] as u32 / 16) * 256 + edid[offset + 5] as u32;
    if h > 0 && v > 0 {
        Some([h, v])
    } else {
        None
    }
}

/// One letter of a manufacturer code: five bits, 1 standing for 'A'.
pub open spec fn mfg_letter(bits: int) -> char {
    (bits + 64) as char
}

/// The three-letter manufacturer code packed in a big-endian 16-bit value.
pub open spec fn manufacturer_spec(raw: u16) -> Seq<char> {
    seq![mfg_letter((raw as int / 1024) % 32), mfg_letter((raw as int / 32) % 32), mfg_letter(raw as int % 32)]
}

pub fn decode_manufacturer_id(raw: u16) -> (r: String)
    ensures
        r@ == manufacturer_spec(raw),
{
    let mut s = String::new();
    push_char(&mut s, ((raw / 1024) % 32 + 64) as u8 as char);
    push_char(&mut s, ((raw / 32) % 32 + 64) as u8 as char);
    push_char(&mut s, (raw % 32 + 64) as u8 as char);
    proof {
        assert(s@ =~= manufacturer_spec(raw));
    }
    s
}

/// The bytes that `char::is_whitespace` accepts when read as Latin-1.
pub open spec fn is_space_byte(b: u8) -> bool {
    b == 0x09 || b == 0x0A || b == 0x0B || b == 0x0C || b == 0x0D || b == 0x20 || b == 0x85 || b == 0xA0
}

/// Length of the text part: up to the first line feed or zero byte.
pub open spec fn text_end(d: Seq<u8>) -> int
    decreases d.len(),
{
    if d.len() == 0 {
        0
    } else if d[0] == 0x0A || d[0] == 0x00 {
        0
    } else {
        1 + text_end(d.subrange(1, d.len() as int))
    }
}

/// The first index in `[lo, hi)` that is no space, or `hi`.
pub open spec fn first_non_space(d: Seq<u8>, lo: int, hi: int) -> int
    decreases hi - lo,
{
    if lo >= hi {
        hi
    } else if !is_space_byte(d[lo]) {
        lo
    } else {
        first_non_space(d, lo + 1, hi)
    }
}

/// One past the last index in `[lo, hi)` that is no space, or `lo`.
pub open spec fn last_non_space_end(d: Seq<u8>, lo: int, hi: int) -> int
    decreases hi - lo,
{
    if lo >= hi {
        lo
    } else if !is_space_byte(d[hi - 1]) {
        hi
    } else {
        last_non_space_end(d, lo, hi - 1)
    }
}

/// Bytes read as Latin-1 characters.
pub open spec fn latin1(d: Seq<u8>) -> Seq<char> {
    d.map_values(|b: u8| b as char)
}

/// A descriptor's text: the bytes before the first line feed or zero byte,
/// without surrounding white space.
pub open spec fn descriptor_text(d: Seq<u8>) -> Seq<char> {
    let end = text_end(d);
    let lo = first_non_space(d, 0, end);
    let hi = last_non_space_end(d, lo, end);
    latin1(d.subrange(lo, hi))
}

proof fn lemma_text_end(d: Seq<u8>, i: int)
    requires
        0 <= i <= d.len(),
        forall|j: int| 0 <= j < i ==> d[j] != 0x0A && d[j] != 0x00,
        i == d.len() || d[i] == 0x0A || d[i] == 0x00,
    ensures
        text_end(d) == i,
    decreases d.len(),
{
    if d.len() > 0 && i > 0 {
        let t = d.subrange(1, d.len() as int);
        assert forall|j: int| 0 <= j < i - 1 implies t[j] != 0x0A && t[j] != 0x00 by {
            assert(t[j] == d[j + 1]);
        }
        if i < d.len() {
            assert(t[i - 1] == d[i]);
        }
        lemma_text_end(t, i - 1);
    }
}

proof fn lemma_first_non_space(d: Seq<u8>, lo: int, hi: int, i: int)
    requires
        lo <= i <= hi,
        forall|j: int| lo <= j < i ==> is_space_byte(d[j]),
        i == hi || !is_space_byte(d[i]),
    ensures
        first_non_space(d, lo, hi) == i,
    decreases hi - lo,
{
    if lo < i {
        lemma_first_non_space(d, lo + 1, hi, i);
    }
}

proof fn lemma_last_non_space(d: Seq<u8>, lo: int, hi: int, i: int)
    requires
        lo <= i <= hi,
        forall|j: int| i <= j < hi ==> is_space_byte(d[j]),
        i == lo || !is_space_byte(d[i - 1]),
    ensures
        last_non_space_end(d, lo, hi) == i,
    decreases hi - lo,
{
    if i < hi {
        lemma_last_non_space(d, lo, hi - 1, i);
    }
}

fn is_space_byte_exec(b: u8) -> (r: bool)
    ensures
        r == is_space_byte(b),
{
    b == 0x09 || b == 0x0A || b == 0x0B || b == 0x0C || b == 0x0D || b == 0x20 || b == 0x85 || b == 0xA0
}

/// The text of a display descriptor.
pub fn parse_descriptor_string(data: &[u8]) -> (r: String)
    ensures
        r@ == descriptor_text(data@),
{
    let d = data;
    let mut end: usize = 0;
    while end < d.len() && d[end] != 0x0A && d[end] != 0x00
        invariant
            0 <= end <= d@.len(),
            forall|j: int| 0 <= j < end ==> d@[j] != 0x0A && d@[j] != 0x00,
        decreases d.len() - end,
    {
        end += 1;
    }
    proof {
        lemma_text_end(d@, end as int);
    }
    let mut lo: usize = 0;
    while lo < end && is_space_byte_exec(d[lo])
        invariant
            0 <= lo <= end <= d@.len(),
            forall|j: int| 0 <= j < lo ==> is_space_byte(d@[j]),
        decreases end - lo,
    {
        lo += 1;
    }
    proof {
        lemma_first_non_space(d@, 0, end as int, lo as int);
    }
    let mut hi: usize = end;
    while hi > lo && is_space_byte_exec(d[hi - 1])
        invariant
            lo <= hi <= end <= d@.len(),
            forall|j: int| hi <= j < end ==> is_space_byte(d@[j]),
        decreases hi - lo,
    {
        hi -= 1;
    }
    proof {
        lemma_last_non_space(d@, lo as int, end as int, hi as int);
    }
    let mut s = String::new();
    let mut i: usize = lo;
    while i < hi
        invariant
            lo <= i <= hi <= d@.len(),
            s@ == latin1(d@.subrange(lo as int, i as int)),
        decreases hi - i,
    {
        push_char(&mut s, d[i] as char);
        i += 1;
        proof {
            assert(s@ =~= latin1(d@.subrange(lo as int, i as int)));
        }
    }
    s
}

/// What a block of identification data says about a display. The gamma is
/// held in hundredths.
#[derive(Clone, Debug)]
pub struct EdidInfo {
    pub manufacturer: String,
    pub product_code: u16,
    pub serial_number: u32,
    pub manufacture_week: u8,
    pub manufacture_year: u16,
    pub edid_version: String,
    pub width_mm: u32,
    pub height_mm: u32,
    pub gamma_hundredths: Option<u16>,
    pub display_type: String,
    pub dpms_standby: bool,
    pub dpms_suspend: bool,
    pub dpms_off: bool,
    pub bit_depth: Option<u8>,
    pub monitor_name: Option<String>,
    pub monitor_serial: Option<String>,
    pub min_v_rate_hz: Option<u32>,
    pub max_v_rate_hz: Option<u32>,
    pub min_h_rate_khz: Option<u32>,
    pub max_h_rate_khz: Option<u32>,
    pub max_pixel_clock_mhz: Option<u32>,
    pub native_resolution: Option<[u32; 2]>,
}

/// Colour depth of a digital input from the input definition byte.
pub open spec fn bit_depth_spec(input: u8) -> Option<u8> {
    if input < 0x80 {
        None
    } else {
        let code = (input as int / 16) % 8;
        if 1 <= code <= 6 { Some((4 + 2 * code) as u8) } else { None }
    }
}

pub open spec fn display_type_spec(digital: bool, features: u8) -> Seq<char> {
    let code = (features as int / 8) % 4;
    if digital {
        if code == 0 {
            "RGB 4:4:4"@
        } else if code == 1 {
            "RGB 4:4:4 + YCrCb 4:4:4"@
        } else if code == 2 {
            "RGB 4:4:4 + YCrCb 4:2:2"@
        } else {
            "RGB 4:4:4 + YCrCb 4:4:4 + YCrCb 4:2:2"@
        }
    } else {
        if code == 0 {
            "Monochrome"@
        } else if code == 1 {
            "RGB Color"@
        } else if code == 2 {
            "Non-RGB Color"@
        } else {
            "Undefined"@
        }
    }
}

/// The display descriptor at `offset` (18 bytes), if it fits and is one
/// (three zero bytes first); its tag is byte 3.
pub open spec fn descriptor_at(e: Seq<u8>, offset: int) -> Option<Seq<u8>> {
    if offset + 18 <= e.len() && e[offset] == 0 && e[offset + 1] == 0 && e[offset + 2] == 0 {
        Some(e.subrange(offset, offset + 18))
    } else {
        None
    }
}

/// The last of the three descriptor slots (bytes 72, 90, 108) with the given
/// tag.
pub open spec fn last_tagged(e: Seq<u8>, tag: u8) -> Option<Seq<u8>> {
    let pick = |o: int| match descriptor_at(e, o) {
        Some(d) => if d[3] == tag { Some(d) } else { None },
        None => None,
    };
    if pick(108) is Some {
        pick(108)
    } else if pick(90) is Some {
        pick(90)
    } else {
        pick(72)
    }
}

/// Reads the little-endian 32-bit value at `i`.
pub open spec fn le_u32(e: Seq<u8>, i: int) -> int {
    e[i] as int + 256 * e[i + 1] as int + 65536 * e[i + 2] as int + 16777216 * e[i + 3] as int
}

/// `info` is what the 128 or more bytes of `e`, header checked, describe.
pub open spec fn edid_info_matches(e: Seq<u8>, info: EdidInfo) -> bool {
    let digital = e[20] >= 0x80;
    let range = last_tagged(e, 0xFD);
    &&& info.manufacturer@ == manufacturer_spec((e[8] as int * 256 + e[9] as int) as u16)
    &&& info.product_code == e[11] as int * 256 + e[10] as int
    &&& info.serial_number == le_u32(e, 12)
    &&& info.manufacture_week == e[16]
    &&& info.manufacture_year == e[17] as int + 1990
    &&& info.edid_version@ == crate::export::decimal(e[18] as nat) + seq!['.'] + crate::export::decimal(e[19] as nat)
    &&& if precise_size_ok(e) {
        info.width_mm == precise_width_mm(e) && info.height_mm == precise_height_mm(e)
    } else {
        info.width_mm == e[21] * 10 && info.height_mm == e[22] * 10
    }
    &&& info.gamma_hundredths == if e[23] != 0xFF { Some((e[23] as int + 100) as u16) } else { None }
    &&& info.display_type@ == display_type_spec(digital, e[24])
    &&& info.dpms_standby == (e[24] as int / 128 % 2 == 1)
    &&& info.dpms_suspend == (e[24] as int / 64 % 2 == 1)
    &&& info.dpms_off == (e[24] as int / 32 % 2 == 1)
    &&& info.bit_depth == bit_depth_spec(e[20])
    &&& match last_tagged(e, 0xFC) {
        Some(d) => info.monitor_name is Some && info.monitor_name->Some_0@ == descriptor_text(d.subrange(5, 18)),
        None => info.monitor_name is None,
    }
    &&& match last_tagged(e, 0xFF) {
        Some(d) => info.monitor_serial is Some && info.monitor_serial->Some_0@ == descriptor_text(d.subrange(5, 18)),
        None => info.monitor_serial is None,
    }
    &&& match range {
        Some(d) => {
            &&& info.min_v_rate_hz == Some(d[5] as u32)
            &&& info.max_v_rate_hz == Some(d[6] as u32)
            &&& info.min_h_rate_khz == Some(d[7] as u32)
            &&& info.max_h_rate_khz == Some(d[8] as u32)
            &&& info.max_pixel_clock_mhz == Some((d[9] * 10) as u32)
        },
        None => {
            &&& info.min_v_rate_hz is None && info.max_v_rate_hz is None
            &&& info.min_h_rate_khz is None && info.max_h_rate_khz is None
            &&& info.max_pixel_clock_mhz is None
        },
    }
    &&& info.native_resolution == timing_resolution_spec(e, 54)
}

fn display_type_text(digital: bool, features: u8) -> (r: String)
    ensures
        r@ == display_type_spec(digital, features),
{
    let code = (features / 8) % 4;
    let t: &str = if digital {
        if code == 0 {
            "RGB 4:4:4"
        } else if code == 1 {
            "RGB 4:4:4 + YCrCb 4:4:4"
        } else if code == 2 {
            "RGB 4:4:4 + YCrCb 4:2:2"
        } else {
            "RGB 4:4:4 + YCrCb 4:4:4 + YCrCb 4:2:2"
        }
    } else {
        if code == 0 {
            "Monochrome"
        } else if code == 1 {
            "RGB Color"
        } else if code == 2 {
            "Non-RGB Color"
        } else {
            "Undefined"
        }
    };
    t.to_owned()
}

/// Everything the identification data tells; `None` when it is shorter than
/// 128 bytes or lacks the header.
pub fn parse_edid_full(edid: &[u8]) -> (r: Option<EdidInfo>)
    ensures
        edid@.len() < 128 || !has_edid_header(edid@) <==> r is None,
        r is Some ==> edid_info_matches(edid@, r->Some_0),
{
    if edid.len() < 128 || !has_header_exec(edid) {
        return None;
    }
    let e = edid;
    let manufacturer = decode_manufacturer_id(e[8] as u16 * 256 + e[9] as u16);
    let product_code: u16 = e[11] as u16 * 256 + e[10] as u16;
    let serial_number: u32 = e[12] as u32 + 256 * e[13] as u32 + 65536 * e[14] as u32 + 16777216 * e[15] as u32;
    let mut edid_version = String::new();
    crate::export::push_decimal(&mut edid_version, e[18] as u64);
    push_char(&mut edid_version, '.');
    crate::export::push_decimal(&mut edid_version, e[19] as u64);
    proof {
        assert(edid_version@ =~= crate::export::decimal(e@[18] as nat) + seq!['.'] + crate::export::decimal(
            e@[19] as nat,
        ));
    }
    let mut width_mm: u32 = e[21] as u32 * 10;
    let mut height_mm: u32 = e[22] as u32 * 10;
    let h_mm: u32 = (e[68] as u32 / 16) * 256 + e[66] as u32;
    let v_mm: u32 = (e[68] as u32 % 16) * 256 + e[67] as u32;
    if h_mm > 0 && v_mm > 0 && h_mm < 2000 && v_mm < 2000 {
        width_mm = h_mm;
        height_mm = v_mm;
    }
    let gamma_hundredths = if e[23] != 0xFF { Some(e[23] as u16 + 100) } else { None };
    let digital = e[20] >= 0x80;
    let code = (e[20] / 16) % 8;
    let bit_depth = if digital && 1 <= code && code <= 6 { Some(4 + 2 * code) } else { None };
    let f = e[24];
    let display_type = display_type_text(digital, f);
    let mut monitor_name: Option<String> = None;
    let mut monitor_serial: Option<String> = None;
    let mut range: Option<[u32; 5]> = None;
    let native_resolution = parse_detailed_timing_resolution(e, 54);
    let offsets: [usize; 3] = [72, 90, 108];
    let mut k: usize = 0;
    while k < 3
        invariant
            0 <= k <= 3,
            e@.len() >= 128,
            offsets@ == seq![72usize, 90usize, 108usize],
            ({
                let prefix = |tag: u8| {
                    let pick = |o: int| match descriptor_at(e@, o) {
                        Some(d) => if d[3] == tag { Some(d) } else { None },
                        None => None,
                    };
                    if k >= 3 && pick(108) is Some {
                        pick(108)
                    } else if k >= 2 && pick(90) is Some {
                        pick(90)
                    } else if k >= 1 {
                        pick(72)
                    } else {
                        None
                    }
                };
                &&& match prefix(0xFC) {
                    Some(d) => monitor_name is Some && monitor_name->Some_0@ == descriptor_text(d.subrange(5, 18)),
                    None => monitor_name is None,
                }
                &&& match prefix(0xFF) {
                    Some(d) => monitor_serial is Some && monitor_serial->Some_0@ == descriptor_text(d.subrange(5, 18)),
                    None => monitor_serial is None,
                }
                &&& match prefix(0xFD) {
                    Some(d) => range is Some && range->Some_0@ == seq![d[5] as u32, d[6] as u32, d[7] as u32, d[8] as u32, (d[9] * 10) as u32],
                    None => range is None,
                }
            }),
        decreases 3 - k,
    {
        let o = offsets[k];
        if e[o] == 0 && e[o + 1] == 0 && e[o + 2] == 0 {
            let tag = e[o + 3];
            let ghost d = e@.subrange(o as int, o + 18);
            proof {
                assert(d.subrange(5, 18) =~= e@.subrange(o + 5, o + 18));
            }
            if tag == 0xFC {
                monitor_name = Some(parse_descriptor_string(vstd::slice::slice_subrange(e, o + 5, o + 18)));
            } else if tag == 0xFF {
                monitor_serial = Some(parse_descriptor_string(vstd::slice::slice_subrange(e, o + 5, o + 18)));
            } else if tag == 0xFD {
                range = Some([e[o + 5] as u32, e[o + 6] as u32, e[o + 7] as u32, e[o + 8] as u32, e[o + 9] as u32 * 10]);
            }
        }
        k += 1;
    }
    let (min_v, max_v, min_h, max_h, clock) = match range {
        Some(v) => (Some(v[0]), Some(v[1]), Some(v[2]), Some(v[3]), Some(v[4])),
        None => (None, None, None, None, None),
    };
    Some(EdidInfo {
        manufacturer,
        product_code,
        serial_number,
        manufacture_week: e[16],
        manufacture_year: e[17] as u16 + 1990,
        edid_version,
        width_mm,
        height_mm,
        gamma_hundredths,
        display_type,
        dpms_standby: f >= 128,
        dpms_suspend: (f / 64) % 2 == 1,
        dpms_off: (f / 32) % 2 == 1,
        bit_depth,
        monitor_name,
        monitor_serial,
        min_v_rate_hz: min_v,
        max_v_rate_hz: max_v,
        min_h_rate_khz: min_h,
        max_h_rate_khz: max_h,
        max_pixel_clock_mhz: clock,
        native_resolution,
    })
}

/// `n` occurs in `h` at position `i`.
pub open spec fn occurs_at(h: Seq<u8>, n: Seq<u8>, i: int) -> bool {
    0 <= i && i + n.len() <= h.len() && h.subrange(i, i + n.len()) == n
}

/// `n` occurs somewhere in `h` (the empty sequence occurs everywhere).
pub open spec fn contains_bytes(h: Seq<u8>, n: Seq<u8>) -> bool {
    exists|i: int| occurs_at(h, n, i)
}

fn contains_exec(h: &[u8], n: &[u8]) -> (r: bool)
    ensures
        r == contains_bytes(h@, n@),
{
    if n.len() > h.len() {
        return false;
    }
    let last = h.len() - n.len();
    let hl = h.len();
    let mut i: usize = 0;
    while i <= last
        invariant
            last == h@.len() - n@.len(),
            n@.len() <= h@.len(),
            hl == h@.len(),
            0 <= i <= last + 1,
            forall|k: int| 0 <= k < i ==> !occurs_at(h@, n@, k),
        decreases last + 1 - i,
    {
        let mut j: usize = 0;
        let mut same = true;
        while same && j < n.len()
            invariant
                i <= last,
                n@.len() <= h@.len(),
                hl == h@.len(),
                last == h@.len() - n@.len(),
                0 <= j <= n@.len(),
                forall|k: int| 0 <= k < j ==> h@[i + k] == n@[k],
                !same ==> j < n@.len() && h@[i + j] != n@[j as int],
            decreases n.len() - j + if same { 1int } else { 0int },
        {
            if h[i + j] == n[j] {
                j += 1;
            } else {
                same = false;
            }
        }
        if j == n.len() {
            proof {
                assert(h@.subrange(i as int, i + n@.len()) =~= n@);
                assert(occurs_at(h@, n@, i as int));
            }
            return true;
        }
        proof {
            if occurs_at(h@, n@, i as int) {
                assert(h@.subrange(i as int, i + n@.len())[j as int] == n@[j as int]);
            }
        }
        i += 1;
    }
    proof {
        assert forall|k: int| !occurs_at(h@, n@, k) by {
            if 0 <= k < i {
            }
        }
    }
    false
}

/// The size of the first entry, in list order, whose key occurs in the
/// device path, looking from entry `j` on.
pub open spec fn size_for_device(device: Seq<char>, sizes: Seq<(String, EdidPhysicalSize)>, j: int) -> Option<EdidPhysicalSize>
    decreases sizes.len() - j,
{
    if j < 0 || j >= sizes.len() {
        None
    } else if contains_bytes(encode_utf8(device), encode_utf8(sizes[j].0@)) {
        Some(sizes[j].1)
    } else {
        size_for_device(device, sizes, j + 1)
    }
}

fn find_size(device: &String, sizes: &Vec<(String, EdidPhysicalSize)>) -> (r: Option<EdidPhysicalSize>)
    ensures
        r == size_for_device(device@, sizes@, 0),
{
    let mut j: usize = 0;
    while j < sizes.len()
        invariant
            0 <= j <= sizes@.len(),
            size_for_device(device@, sizes@, 0) == size_for_device(device@, sizes@, j as int),
        decreases sizes.len() - j,
    {
        if contains_exec(device.as_str().as_bytes(), sizes[j].0.as_str().as_bytes()) {
            return Some(sizes[j].1);
        }
        j += 1;
    }
    None
}

/// Gives each monitor the physical size of the first entry whose key (a
/// hardware id fragment) occurs in its device path, marking it "edid";
/// monitors without such an entry keep their size.
pub fn apply_edid_to_monitors(monitors: &mut Vec<Monitor>, sizes: &Vec<(String, EdidPhysicalSize)>)
    ensures
        final(monitors)@.len() == old(monitors)@.len(),
        forall|i: int|
            0 <= i < old(monitors)@.len() ==> {
                let o = #[trigger] old(monitors)@[i];
                let n = final(monitors)@[i];
                &&& n.id == o.id
                &&& n.monitor_device_id@ == o.monitor_device_id@
                &&& n.resolution_x == o.resolution_x && n.resolution_y == o.resolution_y
                &&& n.position_x == o.position_x && n.position_y == o.position_y
                &&& n.is_primary == o.is_primary
                &&& match size_for_device(o.monitor_device_id@, sizes@, 0) {
                    Some(sz) => {
                        &&& n.physical_width_mm == Some(sz.width_mm)
                        &&& n.physical_height_mm == Some(sz.height_mm)
                        &&& n.size_source@ == "edid"@
                    },
                    None => {
                        &&& n.physical_width_mm == o.physical_width_mm
                        &&& n.physical_height_mm == o.physical_height_mm
                        &&& n.size_source@ == o.size_source@
                    },
                }
            },
{
    let ghost start = monitors@;
    let mut i: usize = 0;
    while i < monitors.len()
        invariant
            0 <= i <= monitors@.len(),
            monitors@.len() == start.len(),
            forall|k: int| i <= k < start.len() ==> monitors@[k] == start[k],
            forall|k: int|
                0 <= k < i ==> {
                    let o = #[trigger] start[k];
                    let n = monitors@[k];
                    &&& n.id == o.id
                    &&& n.monitor_device_id@ == o.monitor_device_id@
                    &&& n.resolution_x == o.resolution_x && n.resolution_y == o.resolution_y
                    &&& n.position_x == o.position_x && n.position_y == o.position_y
                    &&& n.is_primary == o.is_primary
                    &&& match size_for_device(o.monitor_device_id@, sizes@, 0) {
                        Some(sz) => {
                            &&& n.physical_width_mm == Some(sz.width_mm)
                            &&& n.physical_height_mm == Some(sz.height_mm)
                            &&& n.size_source@ == "edid"@
                        },
                        None => {
                            &&& n.physical_width_mm == o.physical_width_mm
                            &&& n.physical_height_mm == o.physical_height_mm
                            &&& n.size_source@ == o.size_source@
                        },
                    }
                },
        decreases monitors.len() - i,
    {
        if let Some(sz) = find_size(&monitors[i].monitor_device_id, sizes) {
            monitors[i].physical_width_mm = Some(sz.width_mm);
            monitors[i].physical_height_mm = Some(sz.height_mm);
            monitors[i].size_source = "edid".to_owned();
        }
        i += 1;
    }
}

/// No two entries share a key.
pub open spec fn keys_unique<T>(list: Seq<(String, T)>) -> bool {
    forall|i: int, j: int| 0 <= i < j < list.len() ==> (#[trigger] list[i]).0@ != (#[trigger] list[j]).0@
}

/// Records `value` under `key`, keeping keys unique: an entry with an equal
/// key is replaced in place (the last value read wins), otherwise the entry
/// is appended.
pub fn insert_or_replace<T>(list: &mut Vec<(String, T)>, key: String, value: T)
    requires
        keys_unique(old(list)@),
    ensures
        keys_unique(final(list)@),
        ({
            let o = old(list)@;
            let n = final(list)@;
            if exists|i: int| 0 <= i < o.len() && (#[trigger] o[i]).0@ == key@ {
                exists|i: int|
                    0 <= i < o.len() && (#[trigger] o[i]).0@ == key@ && n == o.update(i, (key, value))
            } else {
                n == o.push((key, value))
            }
        }),
{
    let mut i: usize = 0;
    while i < list.len()
        invariant
            0 <= i <= list@.len(),
            list@ == old(list)@,
            keys_unique(old(list)@),
            forall|j: int| 0 <= j < i ==> (#[trigger] list@[j]).0@ != key@,
        decreases list.len() - i,
    {
        if list[i].0 == key {
            let ghost o = list@;
            list.set(i, (key, value));
            proof {
                assert(o[i as int].0@ == key@);
                assert(keys_unique(o));
                assert(list@ == o.update(i as int, (key, value)));
                assert forall|a: int, b: int| 0 <= a < b < list@.len() implies (#[trigger] list@[a]).0@ != (
                #[trigger] list@[b]).0@ by {
                    if a == i {
                        assert(list@[b] == o[b]);
                        assert(o[a].0@ != o[b].0@);
                    } else if b == i {
                        assert(list@[a] == o[a]);
                        assert(o[a].0@ != o[b].0@);
                    } else {
                        assert(o[a] == list@[a] && o[b] == list@[b]);
                    }
                }
            }
            return;
        }
        i += 1;
    }
    let ghost o = list@;
    list.push((key, value));
    proof {
        assert forall|a: int, b: int| 0 <= a < b < list@.len() implies (#[trigger] list@[a]).0@ != (
        #[trigger] list@[b]).0@ by {
            if b == o.len() {
                assert(o[a].0@ != key@);
            } else {
                assert(o[a] == list@[a] && o[b] == list@[b]);
            }
        }
    }
}

} // verus!

use crate::calibration::CalibrationResult;
use crate::layout::{
    center_on_canvas, centered, compute_physical_placements, edges_within, layout_spec, size_bound,
    LayoutError, PhysicalPlacement,
};
use crate::monitor::Monitor;
use vstd::arithmetic::div_mod::lemma_mul_mod_noop_left;
use vstd::prelude::*;

verus! {

/// Greatest common divisor, by Euclid's algorithm.
pub open spec fn gcd_spec(a: nat, b: nat) -> nat
    decreases b,
{
    if b == 0 {
        a
    } else {
        gcd_spec(b, a % b)
    }
}

/// Greatest common divisor of two resolutions' components.
pub fn gcd(a: u32, b: u32) -> (r: u32)
    ensures
        r == gcd_spec(a as nat, b as nat),
{
    let mut x: u32 = a;
    let mut y: u32 = b;
    while y != 0
        invariant
            gcd_spec(x as nat, y as nat) == gcd_spec(a as nat, b as nat),
        decreases y,
    {
        let t: u32 = y;
        y = x % y;
        x = t;
    }
    x
}


/// The aspect ratio used when a resolution has no common divisor (a zero size).
pub open spec fn aspect_ratio_spec(rx: u32, ry: u32) -> [u32; 2] {
    let g = gcd_spec(rx as nat, ry as nat);
    if g == 0 {
        [16u32, 9u32]
    } else {
        [(rx as nat / g) as u32, (ry as nat / g) as u32]
    }
}

/// A resolution reduced to its smallest integer ratio; 16:9 for a zero size.
pub fn aspect_ratio(rx: u32, ry: u32) -> (r: [u32; 2])
    ensures
        r@ == aspect_ratio_spec(rx, ry)@,
{
    let g = gcd(rx, ry);
    if g == 0 {
        [16, 9]
    } else {
        [rx / g, ry / g]
    }
}

/// The marketing name of a common resolution, or the empty text.
pub open spec fn resolution_label(rx: u32, ry: u32) -> Seq<char> {
    if rx == 1920 && ry == 1080 {
        seq!['F', 'H', 'D']
    } else if rx == 1920 && ry == 1200 {
        seq!['W', 'U', 'X', 'G', 'A']
    } else if rx == 2560 && ry == 1080 {
        seq!['U', 'W', 'F', 'H', 'D']
    } else if rx == 2560 && ry == 1440 {
        seq!['Q', 'H', 'D']
    } else if rx == 3440 && ry == 1440 {
        seq!['U', 'W', 'Q', 'H', 'D']
    } else if rx == 3840 && ry == 2160 {
        seq!['4', 'K']
    } else if rx == 3840 && ry == 1600 {
        seq!['U', 'W', '4', 'K']
    } else if rx == 5120 && ry == 2160 {
        seq!['5', 'K', ' ', 'U', 'W']
    } else if rx == 5120 && ry == 1440 {
        seq!['D', 'Q', 'H', 'D']
    } else {
        Seq::empty()
    }
}

/// Names a well-known resolution ("FHD", "4K", ...); unknown ones get "".
pub fn format_resolution(rx: u32, ry: u32) -> (r: &'static str)
    ensures
        r@ == resolution_label(rx, ry),
{
    if rx == 1920 && ry == 1080 {
        proof { reveal_strlit("FHD"); }
        "FHD"
    } else if rx == 1920 && ry == 1200 {
        proof { reveal_strlit("WUXGA"); }
        "WUXGA"
    } else if rx == 2560 && ry == 1080 {
        proof { reveal_strlit("UWFHD"); }
        "UWFHD"
    } else if rx == 2560 && ry == 1440 {
        proof { reveal_strlit("QHD"); }
        "QHD"
    } else if rx == 3440 && ry == 1440 {
        proof { reveal_strlit("UWQHD"); }
        "UWQHD"
    } else if rx == 3840 && ry == 2160 {
        proof { reveal_strlit("4K"); }
        "4K"
    } else if rx == 3840 && ry == 1600 {
        proof { reveal_strlit("UW4K"); }
        "UW4K"
    } else if rx == 5120 && ry == 2160 {
        proof { reveal_strlit("5K UW"); }
        "5K UW"
    } else if rx == 5120 && ry == 1440 {
        proof { reveal_strlit("DQHD"); }
        "DQHD"
    } else {
        proof { reveal_strlit(""); }
        ""
    }
}

/// Lower-case hexadecimal digit of a value below 16.
pub open spec fn hex_char(d: nat) -> char {
    if d < 10 {
        (('0' as nat) + d) as char
    } else {
        (('a' as nat) + d - 10) as char
    }
}

/// The last `width` hexadecimal digits of `v`, most significant first.
pub open spec fn hex_digits(v: nat, width: nat) -> Seq<char>
    decreases width,
{
    if width == 0 {
        Seq::empty()
    } else {
        hex_digits(v / 16, (width - 1) as nat).push(hex_char(v % 16))
    }
}

/// Multiplier of the identifier's last group (the LCG constant of Knuth's MMIX).
pub const UUID_MULTIPLIER: u128 = 6364136223846793005;

/// The version-4-shaped identifier built from a timestamp in nanoseconds:
/// eight, four, "4" and three, four and twelve hexadecimal digits.
pub open spec fn uuid_text(nanos: nat) -> Seq<char> {
    hex_digits(nanos % 0x1_0000_0000, 8)
        + seq!['-']
        + hex_digits((nanos / 0x1_0000_0000) % 0x1_0000, 4)
        + seq!['-', '4']
        + hex_digits((nanos / 0x1_0000_0000_0000) % 0x1000, 3)
        + seq!['-']
        + hex_digits(0x8000 + (nanos / 0x1000_0000_0000_0000) % 0x4000, 4)
        + seq!['-']
        + hex_digits((nanos * (UUID_MULTIPLIER as nat)) % 0x1_0000_0000_0000, 12)
}

fn hex_char_str(d: u128) -> (r: &'static str)
    requires
        d < 16,
    ensures
        r@ == seq![hex_char(d as nat)],
{
    proof {
        reveal_strlit("0"); reveal_strlit("1"); reveal_strlit("2"); reveal_strlit("3");
        reveal_strlit("4"); reveal_strlit("5"); reveal_strlit("6"); reveal_strlit("7");
        reveal_strlit("8"); reveal_strlit("9"); reveal_strlit("a"); reveal_strlit("b");
        reveal_strlit("c"); reveal_strlit("d"); reveal_strlit("e"); reveal_strlit("f");
    }
    match d {
        0 => "0", 1 => "1", 2 => "2", 3 => "3", 4 => "4", 5 => "5", 6 => "6", 7 => "7",
        8 => "8", 9 => "9", 10 => "a", 11 => "b", 12 => "c", 13 => "d", 14 => "e", _ => "f",
    }
}

/// Appends the last `width` hexadecimal digits of `v` to `out`.
fn push_hex(out: &mut String, v: u128, width: usize)
    ensures
        final(out)@ == old(out)@ + hex_digits(v as nat, width as nat),
    decreases width,
{
    if width > 0 {
        push_hex(out, v / 16, width - 1);
        out.append(hex_char_str(v % 16));
        proof {
            assert(hex_digits(v as nat, width as nat) == hex_digits((v / 16) as nat, (width - 1) as nat).push(hex_char((v % 16) as nat)));
            assert(final(out)@ =~= old(out)@ + hex_digits(v as nat, width as nat));
        }
    } else {
        proof { assert(hex_digits(v as nat, 0) =~= Seq::empty()); assert(out@ =~= old(out)@ + Seq::empty()); }
    }
}

/// An identifier for an exported layout, derived from a timestamp in nanoseconds.
pub fn generate_uuid(nanos: u128) -> (r: String)
    ensures
        r@ == uuid_text(nanos as nat),
{
    let mut s = String::new();
    push_hex(&mut s, nanos % 0x1_0000_0000, 8);
    s.append("-");
    push_hex(&mut s, (nanos / 0x1_0000_0000) % 0x1_0000, 4);
    s.append("-4");
    push_hex(&mut s, (nanos / 0x1_0000_0000_0000) % 0x1000, 3);
    s.append("-");
    push_hex(&mut s, 0x8000 + (nanos / 0x1000_0000_0000_0000) % 0x4000, 4);
    s.append("-");
    let low: u128 = nanos % 0x1_0000_0000_0000;
    let tail: u128 = (low * UUID_MULTIPLIER) % 0x1_0000_0000_0000;
    proof {
        lemma_mul_mod_noop_left(nanos as int, UUID_MULTIPLIER as int, 0x1_0000_0000_0000);
        reveal_strlit("-");
        reveal_strlit("-4");
    }
    push_hex(&mut s, tail, 12);
    proof {
        assert(s@ =~= uuid_text(nanos as nat));
    }
    s
}

/// A monitor model in the layout tool's terms.
#[derive(Clone, Debug)]
pub struct SpanrightPreset {
    pub name: String,
    /// Diagonal in hundredths of an inch, halves rounded up.
    pub diagonal_centi_in: u64,
    pub aspect_ratio: [u32; 2],
    pub resolution_x: u32,
    pub resolution_y: u32,
}

/// One monitor of an exported layout; positions in millionths of an inch.
#[derive(Clone, Debug)]
pub struct SpanrightMonitor {
    pub preset: SpanrightPreset,
    pub physical_x: i128,
    pub physical_y: i128,
    pub rotation: Option<u32>,
    pub display_name: Option<String>,
}

/// A saved layout for the layout tool.
#[derive(Clone, Debug)]
pub struct SpanrightSavedConfig {
    pub id: String,
    pub name: String,
    /// Milliseconds since the Unix epoch.
    pub saved_at: u64,
    pub monitors: Vec<SpanrightMonitor>,
}

/// `r` is the integer square root of `v`.
pub open spec fn is_isqrt(v: int, r: int) -> bool {
    0 <= r && r * r <= v < (r + 1) * (r + 1)
}

/// The integer square root of a non-negative `v`.
pub open spec fn isqrt_spec(v: int) -> int {
    choose|r: int| is_isqrt(v, r)
}

proof fn lemma_isqrt_unique(v: int, a: int, b: int)
    requires
        is_isqrt(v, a),
        is_isqrt(v, b),
    ensures
        a == b,
{
    if a < b {
        assert((a + 1) * (a + 1) <= b * b) by (nonlinear_arith)
            requires 0 <= a < b;
    } else if b < a {
        assert((b + 1) * (b + 1) <= a * a) by (nonlinear_arith)
            requires 0 <= b < a;
    }
}

/// The integer square root, by bisection.
pub fn isqrt(v: u128) -> (r: u64)
    ensures
        is_isqrt(v as int, r as int),
        r == isqrt_spec(v as int),
{
    let mut lo: u128 = 0;
    let mut hi: u128 = 0x1_0000_0000_0000_0000;
    proof {
        assert(v < hi * hi) by (nonlinear_arith)
            requires v <= 0xFFFF_FFFF_FFFF_FFFF_FFFF_FFFF_FFFF_FFFF, hi == 0x1_0000_0000_0000_0000;
    }
    while hi - lo > 1
        invariant
            lo < hi <= 0x1_0000_0000_0000_0000,
            lo * lo <= v,
            v < hi * hi,
        decreases hi - lo,
    {
        let mid: u128 = lo + (hi - lo) / 2;
        proof {
            assert(mid * mid <= 0xFFFF_FFFF_FFFF_FFFF * 0xFFFF_FFFF_FFFF_FFFF) by (nonlinear_arith)
                requires mid < 0x1_0000_0000_0000_0000;
        }
        if mid * mid <= v {
            lo = mid;
        } else {
            hi = mid;
        }
    }
    proof {
        assert(hi == lo + 1);
        assert(is_isqrt(v as int, lo as int));
        let c = choose|c: int| is_isqrt(v as int, c);
        lemma_isqrt_unique(v as int, lo as int, c);
    }
    lo as u64
}

/// Decimal digits of `v`, most significant first.
pub open spec fn decimal(v: nat) -> Seq<char>
    decreases v,
{
    if v < 10 {
        seq![hex_char(v)]
    } else {
        decimal(v / 10).push(hex_char(v % 10))
    }
}

pub(crate) fn push_decimal(out: &mut String, v: u64)
    ensures
        final(out)@ == old(out)@ + decimal(v as nat),
    decreases v,
{
    if v >= 10 {
        push_decimal(out, v / 10);
    }
    out.append(hex_char_str((v % 10) as u128));
    proof {
        assert(final(out)@ =~= old(out)@ + decimal(v as nat));
    }
}

/// The diagonal used for a monitor, in millionths of an inch: the known
/// one, else the placement's (rounded down).
pub open spec fn export_diagonal_micro(m: Monitor, q: PhysicalPlacement) -> int {
    match m.diagonal_milli_in {
        Some(k) => k * 1000,
        None => isqrt_spec(q.w * q.w + q.h * q.h),
    }
}

/// The preset's name: the diagonal in whole inches (halves round up), an
/// inch mark, a space and the resolution's name.
pub open spec fn preset_name(diagonal_micro_in: int, rx: u32, ry: u32) -> Seq<char> {
    decimal(((diagonal_micro_in + 500_000) / 1_000_000) as nat) + seq!['"', ' '] + resolution_label(rx, ry)
}

/// The export record of one monitor at a (centred) placement.
pub open spec fn exported_monitor(m: Monitor, q: PhysicalPlacement, r: SpanrightMonitor) -> bool {
    let d = export_diagonal_micro(m, q);
    &&& r.preset.name@ == preset_name(d, m.resolution_x, m.resolution_y)
    &&& r.preset.diagonal_centi_in == (d + 5_000) / 10_000
    &&& r.preset.aspect_ratio@ == aspect_ratio_spec(m.resolution_x, m.resolution_y)@
    &&& r.preset.resolution_x == m.resolution_x
    &&& r.preset.resolution_y == m.resolution_y
    &&& r.physical_x == q.x
    &&& r.physical_y == q.y
    &&& r.rotation == if m.orientation == 1 { Some(90u32) } else { None }
    &&& match r.display_name {
        Some(n) => m.friendly_name@.len() > 0 && n@ == m.friendly_name@,
        None => m.friendly_name@.len() == 0,
    }
}

fn export_monitor(m: &Monitor, q: &PhysicalPlacement) -> (r: SpanrightMonitor)
    requires
        0 <= q.w <= size_bound(),
        0 <= q.h <= size_bound(),
    ensures
        exported_monitor(*m, *q, r),
{
    let diagonal: u128 = match m.diagonal_milli_in {
        Some(d) => d as u128 * 1000,
        None => {
            proof {
                assert(q.w * q.w <= size_bound() * size_bound()) by (nonlinear_arith)
                    requires 0 <= q.w <= size_bound();
                assert(q.h * q.h <= size_bound() * size_bound()) by (nonlinear_arith)
                    requires 0 <= q.h <= size_bound();
                assert(0 <= q.w * q.w) by (nonlinear_arith);
                assert(0 <= q.h * q.h) by (nonlinear_arith);
            }
            let w = q.w as u128;
            let h = q.h as u128;
            isqrt(w * w + h * h) as u128
        },
    };
    proof {
        assert(diagonal == export_diagonal_micro(*m, *q));
        assert(diagonal <= 0xFFFF_FFFF_FFFF_FFFF * 1000);
    }
    let mut name = String::new();
    push_decimal(&mut name, ((diagonal + 500_000) / 1_000_000) as u64);
    proof {
        reveal_strlit("\" ");
    }
    name.append("\" ");
    name.append(format_resolution(m.resolution_x, m.resolution_y));
    let display_name = if !m.friendly_name.as_str().is_empty() {
        Some(m.friendly_name.clone())
    } else {
        None
    };
    proof {
        assert(name@ =~= preset_name(diagonal as int, m.resolution_x, m.resolution_y));
    }
    SpanrightMonitor {
        preset: SpanrightPreset {
            name,
            diagonal_centi_in: ((diagonal + 5_000) / 10_000) as u64,
            aspect_ratio: aspect_ratio(m.resolution_x, m.resolution_y),
            resolution_x: m.resolution_x,
            resolution_y: m.resolution_y,
        },
        physical_x: q.x,
        physical_y: q.y,
        rotation: if m.orientation == 1 { Some(90) } else { None },
        display_name,
    }
}

/// Builds the layout tool's saved layout: the reconstructed placements
/// centred on the canvas, one record per placed monitor. `saved_at` is the
/// time in milliseconds and `nanos` the time in nanoseconds that the
/// identifier is made from.
pub fn build_spanright_config(
    monitors: &[Monitor],
    results: &[CalibrationResult],
    saved_at: u64,
    nanos: u128,
) -> (r: Result<SpanrightSavedConfig, LayoutError>)
    requires
        monitors@.len() > 0,
        edges_within(results@, monitors@.len() as int),
    ensures
        match layout_spec(monitors@, results@) {
            Err(e) => r == Err::<SpanrightSavedConfig, LayoutError>(e),
            Ok(ps) => r is Ok && {
                let cfg = r->Ok_0;
                let cs = centered(ps);
                &&& cfg.id@ == uuid_text(nanos as nat)
                &&& cfg.name@ == seq!['C', 'a', 'l', 'i', 'b', 'r', 'a', 't', 'e', 'd', ' ', 'L', 'a', 'y', 'o', 'u', 't']
                &&& cfg.saved_at == saved_at
                &&& cfg.monitors@.len() == cs.len()
                &&& forall|i: int|
                    0 <= i < cs.len() ==> cs[i].monitor_idx < monitors@.len() && exported_monitor(
                        monitors@[cs[i].monitor_idx as int],
                        cs[i],
                        #[trigger] cfg.monitors@[i],
                    )
            },
        },
{
    let placements = match compute_physical_placements(monitors, results) {
        Ok(p) => p,
        Err(e) => return Err(e),
    };
    let cs = center_on_canvas(&placements);
    let mut out: Vec<SpanrightMonitor> = Vec::new();
    let mut i: usize = 0;
    while i < cs.len()
        invariant
            0 <= i <= cs@.len(),
            cs@ == centered(placements@),
            crate::layout::placements_fit(placements@),
            crate::layout::indices_below(placements@, monitors@.len() as int),
            out@.len() == i,
            forall|j: int|
                0 <= j < i ==> cs@[j].monitor_idx < monitors@.len() && exported_monitor(
                    monitors@[cs@[j].monitor_idx as int],
                    cs@[j],
                    #[trigger] out@[j],
                ),
        decreases cs.len() - i,
    {
        let q = cs[i];
        proof {
            assert(placements@[i as int].monitor_idx < monitors@.len());
            assert(q.w == placements@[i as int].w && q.h == placements@[i as int].h);
        }
        let rec = export_monitor(&monitors[q.monitor_idx], &q);
        out.push(rec);
        i += 1;
    }
    proof {
        reveal_strlit("Calibrated Layout");
    }
    Ok(SpanrightSavedConfig {
        id: generate_uuid(nanos),
        name: String::from_str("Calibrated Layout"),
        saved_at,
        monitors: out,
    })
}

} // verus!

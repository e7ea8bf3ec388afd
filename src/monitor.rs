use crate::export::{isqrt, isqrt_spec};
use vstd::prelude::*;
use vstd::utf8::encode_utf8;

verus! {

/// One physical display as the discovery collaborator reports it.
///
/// Lengths that the operating system reports in floating point are held as
/// integers: the diagonal in thousandths of an inch, the pixel density in
/// thousandths of a pixel per inch.
#[derive(Clone, Debug)]
pub struct Monitor {
    pub id: usize,
    pub device_name: String,
    pub friendly_name: String,
    pub monitor_name: String,
    pub adapter_name: String,
    pub monitor_device_id: String,
    pub is_primary: bool,
    pub resolution_x: u32,
    pub resolution_y: u32,
    pub position_x: i32,
    pub position_y: i32,
    /// Display rotation as the OS numbers it; 1 is portrait.
    pub orientation: u32,
    pub physical_width_mm: Option<u32>,
    pub physical_height_mm: Option<u32>,
    /// Physical width and height in thousandths of an inch, rounded down.
    pub physical_width_milli_in: Option<u64>,
    pub physical_height_milli_in: Option<u64>,
    pub diagonal_milli_in: Option<u64>,
    pub ppi_milli: Option<u64>,
    /// Where the physical size came from ("edid", "guessed", "manual", ...).
    pub size_source: String,
}

impl Monitor {
    /// A monitor with the given geometry and no names or physical size.
    pub fn new(id: usize, is_primary: bool, resolution_x: u32, resolution_y: u32, position_x: i32, position_y: i32) -> (r: Monitor)
        ensures
            r.id == id,
            r.is_primary == is_primary,
            r.resolution_x == resolution_x,
            r.resolution_y == resolution_y,
            r.position_x == position_x,
            r.position_y == position_y,
            r.orientation == 0,
            r.physical_width_mm is None,
            r.physical_height_mm is None,
            r.physical_width_milli_in is None,
            r.physical_height_milli_in is None,
            r.diagonal_milli_in is None,
            r.ppi_milli is None,
    {
        Monitor {
            id,
            device_name: String::new(),
            friendly_name: String::new(),
            monitor_name: String::new(),
            adapter_name: String::new(),
            monitor_device_id: String::new(),
            is_primary,
            resolution_x,
            resolution_y,
            position_x,
            position_y,
            orientation: 0,
            physical_width_mm: None,
            physical_height_mm: None,
            physical_width_milli_in: None,
            physical_height_milli_in: None,
            diagonal_milli_in: None,
            ppi_milli: None,
            size_source: String::new(),
        }
    }
}

/// Micrometres in a thousandth of an inch.
pub const MICROMETRES_PER_MILLI_INCH: u128 = 25_400;

/// The square root, rounded down, of `(a² + b²) · 10¹²`: the diagonal of
/// an `a` by `b` rectangle in millionths of its unit.
pub open spec fn diagonal_micro_spec(a: int, b: int) -> int {
    isqrt_spec((a * a + b * b) * 1_000_000_000_000)
}

/// The diagonal and density that a monitor's physical size gives: the
/// diagonal in thousandths of an inch and the density in thousandths of a
/// pixel per inch, both rounded down.
pub open spec fn derived_size(d_mm: int, d_px: int) -> (u64, u64) {
    ((d_mm / 25_400) as u64, (d_px * 25_400 / d_mm) as u64)
}

fn diagonal_micro(a: u32, b: u32) -> (r: u64)
    ensures
        r == diagonal_micro_spec(a as int, b as int),
        (a > 0 || b > 0) ==> r >= 1_000_000,
{
    proof {
        assert(a as int * a as int <= 0xFFFF_FFFF * 0xFFFF_FFFF) by (nonlinear_arith) requires a <= 0xFFFF_FFFF;
        assert(b as int * b as int <= 0xFFFF_FFFF * 0xFFFF_FFFF) by (nonlinear_arith) requires b <= 0xFFFF_FFFF;
        assert(0 <= a as int * a as int) by (nonlinear_arith);
        assert(0 <= b as int * b as int) by (nonlinear_arith);
    }
    let sum: u128 = a as u128 * a as u128 + b as u128 * b as u128;
    let r = isqrt(sum * 1_000_000_000_000);
    proof {
        if a > 0 || b > 0 {
            assert(a as int * a as int >= 1 || b as int * b as int >= 1) by (nonlinear_arith)
                requires a > 0 || b > 0;
            let v = sum * 1_000_000_000_000;
            assert(v >= 1_000_000_000_000);
            assert(r >= 1_000_000) by (nonlinear_arith)
                requires (r + 1) * (r + 1) > v, v >= 1_000_000_000_000, r >= 0;
        }
    }
    r
}

/// The monitor with its diagonal and density derived from its physical
/// size, when both sides are known and non-zero.
pub open spec fn with_derived(o: Monitor) -> Monitor {
    match (o.physical_width_mm, o.physical_height_mm) {
        (Some(w), Some(h)) => if w != 0 && h != 0 {
            let d_mm = diagonal_micro_spec(w as int, h as int);
            let d_px = diagonal_micro_spec(o.resolution_x as int, o.resolution_y as int);
            Monitor {
                physical_width_milli_in: Some(mm_to_milli_in(w as int)),
                physical_height_milli_in: Some(mm_to_milli_in(h as int)),
                diagonal_milli_in: Some(derived_size(d_mm, d_px).0),
                ppi_milli: Some(derived_size(d_mm, d_px).1),
                ..o
            }
        } else {
            o
        },
        _ => o,
    }
}

/// Millimetres in thousandths of an inch, rounded down.
pub open spec fn mm_to_milli_in(mm: int) -> u64 {
    (mm * 10_000 / 254) as u64
}

/// The monitor with its physical size set from a diagonal in thousandths
/// of an inch and its pixel aspect ratio (16:9 when a side is zero).
pub open spec fn sized_from_diagonal(o: Monitor, diagonal_milli_in: u64) -> Monitor {
    let (ax, ay) = if o.resolution_x > 0 && o.resolution_y > 0 {
        (o.resolution_x as int, o.resolution_y as int)
    } else {
        (16int, 9int)
    };
    let hyp = diagonal_micro_spec(ax, ay);
    Monitor {
        physical_width_mm: Some(rounded_u32(diagonal_milli_in * 25_400 * ax, hyp)),
        physical_height_mm: Some(rounded_u32(diagonal_milli_in * 25_400 * ay, hyp)),
        ..o
    }
}

impl Monitor {
    /// Fills in the width, height and diagonal in inches and the pixel
    /// density from the physical size in millimetres; a missing or zero side leaves the monitor unchanged.
    pub fn compute_derived(&mut self)
        ensures
            *final(self) == with_derived(*old(self)),
    {
        if let (Some(w), Some(h)) = (self.physical_width_mm, self.physical_height_mm) {
            if w == 0 || h == 0 {
                return;
            }
            let d_mm = diagonal_micro(w, h);
            let d_px = diagonal_micro(self.resolution_x, self.resolution_y);
            proof {
                assert(d_px as int * 25_400 <= 0xFFFF_FFFF_FFFF_FFFF * 25_400) by (nonlinear_arith)
                    requires d_px <= 0xFFFF_FFFF_FFFF_FFFF;
                assert(d_px as int * 25_400 / (d_mm as int) <= d_px as int * 25_400 / 1_000_000) by (nonlinear_arith)
                    requires d_mm >= 1_000_000, d_px >= 0;
            }
            let diag = (d_mm as u128 / MICROMETRES_PER_MILLI_INCH) as u64;
            let ppi = (d_px as u128 * MICROMETRES_PER_MILLI_INCH / d_mm as u128) as u64;
            self.physical_width_milli_in = Some(w as u64 * 10_000 / 254);
            self.physical_height_milli_in = Some(h as u64 * 10_000 / 254);
            self.diagonal_milli_in = Some(diag);
            self.ppi_milli = Some(ppi);
            proof {
                let o = *old(self);
                assert(derived_size(d_mm as int, d_px as int) == (diag, ppi));
                assert(*self == Monitor {
                    physical_width_milli_in: Some(mm_to_milli_in(w as int)),
                    physical_height_milli_in: Some(mm_to_milli_in(h as int)),
                    diagonal_milli_in: Some(derived_size(d_mm as int, d_px as int).0),
                    ppi_milli: Some(derived_size(d_mm as int, d_px as int).1),
                    ..o
                });
            }
        }
    }
}

/// `n` rounded to the nearest integer, halves away from zero, and clamped
/// to `u32`: millimetres from a quotient `num / den`.
pub open spec fn rounded_u32(num: int, den: int) -> u32 {
    let q = (2 * num + den) / (2 * den);
    if q > u32::MAX { u32::MAX } else { q as u32 }
}

/// Sets the physical size in millimetres from a diagonal in thousandths of
/// an inch, using the monitor's pixel aspect ratio (16:9 when a side is zero).
pub fn set_physical_from_diagonal(m: &mut Monitor, diagonal_milli_in: u64)
    ensures
        *final(m) == sized_from_diagonal(*old(m), diagonal_milli_in),
{
    let (ax, ay): (u32, u32) = if m.resolution_x > 0 && m.resolution_y > 0 {
        (m.resolution_x, m.resolution_y)
    } else {
        (16, 9)
    };
    let hyp = diagonal_micro(ax, ay);
    let w = rounded_div_u32(diagonal_milli_in, ax, hyp);
    let h = rounded_div_u32(diagonal_milli_in, ay, hyp);
    m.physical_width_mm = Some(w);
    m.physical_height_mm = Some(h);
    proof {
        assert(*m == Monitor {
            physical_width_mm: Some(rounded_u32(diagonal_milli_in * 25_400 * ax, hyp as int)),
            physical_height_mm: Some(rounded_u32(diagonal_milli_in * 25_400 * ay, hyp as int)),
            ..*old(m)
        });
        let o = *old(m);
        let (sx, sy) = if o.resolution_x > 0 && o.resolution_y > 0 {
            (o.resolution_x as int, o.resolution_y as int)
        } else {
            (16int, 9int)
        };
        assert(sx == ax && sy == ay);
    }
}

fn rounded_div_u32(d: u64, a: u32, hyp: u64) -> (r: u32)
    requires
        hyp > 0,
    ensures
        r == rounded_u32(d * 25_400 * a, hyp as int),
{
    proof {
        assert(d as int * 25_400 * a as int <= 0xFFFF_FFFF_FFFF_FFFF * 25_400 * 0xFFFF_FFFF) by (nonlinear_arith)
            requires d <= 0xFFFF_FFFF_FFFF_FFFF, a <= 0xFFFF_FFFF;
        assert(0 <= d as int * 25_400 * a as int) by (nonlinear_arith)
            requires d >= 0, a >= 0;
    }
    let num: u128 = d as u128 * 25_400 * a as u128;
    let den: u128 = hyp as u128;
    let q: u128 = (2 * num + den) / (2 * den);
    if q > u32::MAX as u128 {
        u32::MAX
    } else {
        q as u32
    }
}

/// Numeric value of a run of ASCII digits.
pub open spec fn digits_value(b: Seq<u8>) -> int
    decreases b.len(),
{
    if b.len() == 0 {
        0
    } else {
        digits_value(b.drop_last()) * 10 + (b.last() - 48)
    }
}

pub open spec fn is_digit(c: u8) -> bool {
    48 <= c <= 57
}

/// End of the run of digits that starts at `i`.
pub open spec fn run_end(b: Seq<u8>, i: int) -> int
    decreases b.len() - i,
{
    if i >= b.len() || !is_digit(b[i]) {
        i
    } else {
        run_end(b, i + 1)
    }
}

/// A run of digits starts at `i`.
pub open spec fn run_starts(b: Seq<u8>, i: int) -> bool {
    is_digit(b[i]) && (i == 0 || !is_digit(b[i - 1]))
}

/// The first run of digits starting at or after `i` whose value lies in
/// 10..=65.
pub open spec fn diagonal_from(b: Seq<u8>, i: int) -> Option<u32>
    decreases b.len() - i,
{
    if i < 0 || i >= b.len() {
        None
    } else if run_starts(b, i) && 10 <= digits_value(b.subrange(i, run_end(b, i))) <= 65 {
        Some(digits_value(b.subrange(i, run_end(b, i))) as u32)
    } else {
        diagonal_from(b, i + 1)
    }
}

/// Inside a run no other run starts.
proof fn lemma_skip_run(b: Seq<u8>, start: int, j: int)
    requires
        0 <= start < j <= run_end(b, start),
        run_end(b, start) <= b.len(),
        forall|k: int| start <= k < run_end(b, start) ==> is_digit(b[k]),
    ensures
        diagonal_from(b, j) == diagonal_from(b, run_end(b, start)),
    decreases run_end(b, start) - j,
{
    if j < run_end(b, start) {
        assert(is_digit(b[j - 1]));
        lemma_skip_run(b, start, j + 1);
    }
}

proof fn lemma_run_end(b: Seq<u8>, i: int)
    requires
        0 <= i,
    ensures
        i <= run_end(b, i),
        run_end(b, i) <= b.len() || run_end(b, i) == i,
        forall|j: int| i <= j < run_end(b, i) ==> is_digit(b[j]),
        run_end(b, i) < b.len() ==> !is_digit(b[run_end(b, i)]),
    decreases b.len() - i,
{
    if i < b.len() && is_digit(b[i]) {
        lemma_run_end(b, i + 1);
    }
}

/// A plausible diagonal in inches read from a name: the first number in it
/// from 10 to 65.
pub fn extract_diagonal_from_string(s: &str) -> (r: Option<u32>)
    ensures
        r == diagonal_from(encode_utf8(s@), 0),
{
    let b = s.as_bytes();
    let n = b.len();
    let mut i: usize = 0;
    while i < n
        invariant
            b@ == encode_utf8(s@),
            n == b@.len(),
            0 <= i <= n,
            0 < i < n ==> !is_digit(b@[i - 1]) || !is_digit(b@[i as int]),
            diagonal_from(b@, 0) == diagonal_from(b@, i as int),
        decreases n - i,
    {
        if b[i] >= 48 && b[i] <= 57 {
            let start = i;
            let mut acc: u32 = 0;
            while i < n && b[i] >= 48 && b[i] <= 57
                invariant
                    n == b@.len(),
                    start <= i <= n,
                    start < n,
                    is_digit(b@[start as int]),
                    forall|j: int| start <= j < i ==> is_digit(b@[j]),
                    run_end(b@, start as int) == run_end(b@, i as int),
                    acc == if digits_value(b@.subrange(start as int, i as int)) >= 100 { 100 } else {
                        digits_value(b@.subrange(start as int, i as int))
                    },
                decreases n - i,
            {
                proof {
                    assert(b@.subrange(start as int, i + 1).drop_last() =~= b@.subrange(start as int, i as int));
                    lemma_digits_nonneg(b@.subrange(start as int, i as int));
                }
                let d = (b[i] - 48) as u32;
                acc = if acc >= 100 { 100 } else if acc * 10 + d >= 100 { 100 } else { acc * 10 + d };
                i += 1;
            }
            proof {
                lemma_run_end(b@, start as int);
                assert(run_end(b@, start as int) == i);
                assert(run_starts(b@, start as int));
            }
            if acc >= 10 && acc <= 65 {
                return Some(acc);
            }
            proof {
                lemma_skip_run(b@, start as int, start + 1);
            }
        } else {
            i += 1;
        }
    }
    None
}

proof fn lemma_digits_nonneg(b: Seq<u8>)
    requires
        forall|j: int| 0 <= j < b.len() ==> is_digit(b[j]),
    ensures
        digits_value(b) >= 0,
    decreases b.len(),
{
    if b.len() > 0 {
        lemma_digits_nonneg(b.drop_last());
    }
}

/// The diagonal in inches that the first of the friendly name, the monitor
/// name and the adapter name to hold one gives.
pub open spec fn names_diagonal(m: Monitor) -> Option<u32> {
    match diagonal_from(encode_utf8(m.friendly_name@), 0) {
        Some(v) => Some(v),
        None => match diagonal_from(encode_utf8(m.monitor_name@), 0) {
            Some(v) => Some(v),
            None => diagonal_from(encode_utf8(m.adapter_name@), 0),
        },
    }
}

/// A plausible diagonal read from the monitor's names: the friendly name
/// first, then the monitor name, then the adapter name.
pub fn guess_diagonal_from_names(m: &Monitor) -> (r: Option<u32>)
    ensures
        r == names_diagonal(*m),
{
    if let Some(d) = extract_diagonal_from_string(m.friendly_name.as_str()) {
        return Some(d);
    }
    if let Some(d) = extract_diagonal_from_string(m.monitor_name.as_str()) {
        return Some(d);
    }
    extract_diagonal_from_string(m.adapter_name.as_str())
}

/// Completes a monitor's physical data: without a known size, a diagonal
/// read from its names gives one (marked "guessed"); then the diagonal and
/// density are derived from the size.
pub fn complete_physical_size(m: &mut Monitor)
    ensures
        ({
            let o = *old(m);
            let n = *final(m);
            match names_diagonal(o) {
                Some(d) => if o.physical_width_mm is None {
                    &&& n == with_derived(Monitor { size_source: n.size_source, ..sized_from_diagonal(o, (d * 1000) as u64) })
                    &&& n.size_source@ == "guessed"@
                } else {
                    n == with_derived(o)
                },
                None => n == with_derived(o),
            }
        }),
{
    if m.physical_width_mm.is_none() {
        if let Some(d) = guess_diagonal_from_names(m) {
            set_physical_from_diagonal(m, d as u64 * 1000);
            proof {
                reveal_strlit("guessed");
            }
            m.size_source = String::from_str("guessed");
        }
    }
    m.compute_derived();
}

} // verus!

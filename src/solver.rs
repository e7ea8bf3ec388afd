use vstd::prelude::*;

verus! {

/// Scale factors are held in millionths: `SCALE_ONE` is a factor of one.
pub const SCALE_ONE: u64 = 1_000_000;

/// A monitor's rectangle in the overlay's coordinate frame, in pixels.
#[derive(Clone, Copy, Debug, PartialEq, Eq, Structural)]
pub struct MonitorRect {
    pub x: i64,
    pub y: i64,
    pub w: i64,
    pub h: i64,
}

/// What the scale step of one pair yields.
#[derive(Clone, Copy, Debug, PartialEq, Eq, Structural)]
pub struct ScaleSolution {
    /// Scale relative to the primary monitor, in millionths.
    pub scale: u64,
    /// Cross-axis alignment of the child in the parent's frame, in millionths of a pixel.
    pub offset: i128,
    /// Near line's distance from the child's origin along the calibration axis.
    pub near_child: i64,
    /// Near line's distance from the parent's origin along the calibration axis.
    pub near_parent: i64,
}

/// Distance between two positions.
pub open spec fn abs_diff(a: int, b: int) -> int {
    if a >= b { a - b } else { b - a }
}

/// A rectangle's origin along the calibration axis (y for side-by-side pairs).
pub open spec fn axis_origin(r: MonitorRect, horizontal: bool) -> int {
    if horizontal { r.y as int } else { r.x as int }
}

/// The chained scale: the parent's scale times the ratio of the two spans,
/// or the parent's scale when the parent's span is one unit or less.
pub open spec fn chained_scale(parent_scale: int, span_child: int, span_parent: int) -> int {
    if span_parent > 1 {
        parent_scale * span_child / span_parent
    } else {
        parent_scale
    }
}

/// Segments are `[near on child, near on parent, far on child, far on parent]`.
pub open spec fn span_child(seg: [i32; 4]) -> int {
    abs_diff(seg[2] as int, seg[0] as int)
}

/// The parent's span: how far apart its two lines are.
pub open spec fn span_parent(seg: [i32; 4]) -> int {
    abs_diff(seg[3] as int, seg[1] as int)
}

/// The solution that the scale step's four line positions determine.
pub open spec fn scale_solution_spec(
    seg: [i32; 4],
    child: MonitorRect,
    parent: MonitorRect,
    horizontal: bool,
    parent_scale: u64,
) -> (int, int, int, int) {
    let near_child = seg[0] - axis_origin(child, horizontal);
    let near_parent = seg[1] - axis_origin(parent, horizontal);
    let scale = chained_scale(parent_scale as int, span_child(seg), span_parent(seg));
    (scale, near_parent * SCALE_ONE - near_child * scale, near_child, near_parent)
}

/// Turns the four line positions of a scale step into the child's scale and
/// cross-axis offset. `None` when the scale does not fit in 64 bits.
pub fn solve_scale(
    seg: [i32; 4],
    child: MonitorRect,
    parent: MonitorRect,
    horizontal: bool,
    parent_scale: u64,
) -> (r: Option<ScaleSolution>)
    requires
        -0x1_0000_0000 <= child.x <= 0x1_0000_0000,
        -0x1_0000_0000 <= child.y <= 0x1_0000_0000,
        -0x1_0000_0000 <= parent.x <= 0x1_0000_0000,
        -0x1_0000_0000 <= parent.y <= 0x1_0000_0000,
    ensures
        ({
            let (scale, offset, nc, np) = scale_solution_spec(seg, child, parent, horizontal, parent_scale);
            match r {
                Some(s) => scale <= u64::MAX && s.scale == scale && s.offset == offset && s.near_child
                    == nc && s.near_parent == np,
                None => scale > u64::MAX,
            }
        }),
{
    let oc: i64 = if horizontal { child.y } else { child.x };
    let op: i64 = if horizontal { parent.y } else { parent.x };
    let near_child: i64 = seg[0] as i64 - oc;
    let near_parent: i64 = seg[1] as i64 - op;
    let s1: u128 = if seg[2] >= seg[0] { (seg[2] as i64 - seg[0] as i64) as u128 } else { (seg[0] as i64 - seg[2] as i64) as u128 };
    let s2: u128 = if seg[3] >= seg[1] { (seg[3] as i64 - seg[1] as i64) as u128 } else { (seg[1] as i64 - seg[3] as i64) as u128 };
    let scale: u128 = if s2 > 1 {
        proof {
            assert(parent_scale as int * s1 <= 0xFFFF_FFFF_FFFF_FFFF * 0x1_0000_0000) by (nonlinear_arith)
                requires parent_scale <= 0xFFFF_FFFF_FFFF_FFFF, s1 <= 0x1_0000_0000;
        }
        (parent_scale as u128) * s1 / s2
    } else {
        parent_scale as u128
    };
    if scale > u64::MAX as u128 {
        return None;
    }
    proof {
        assert(near_child * scale <= 0x4_0000_0000 * 0xFFFF_FFFF_FFFF_FFFF) by (nonlinear_arith)
            requires -0x4_0000_0000 <= near_child <= 0x4_0000_0000, scale <= 0xFFFF_FFFF_FFFF_FFFF;
        assert(near_child * scale >= -0x4_0000_0000 * 0xFFFF_FFFF_FFFF_FFFF) by (nonlinear_arith)
            requires -0x4_0000_0000 <= near_child <= 0x4_0000_0000, scale <= 0xFFFF_FFFF_FFFF_FFFF;
    }
    let offset: i128 = near_parent as i128 * SCALE_ONE as i128 - near_child as i128 * scale as i128;
    Some(ScaleSolution { scale: scale as u64, offset, near_child, near_parent })
}

/// Position of the child along the calibration axis relative to the parent,
/// in millionths of a pixel: a child that lies first sits its own scaled
/// size and twice the gap before the parent; otherwise it sits the parent's
/// scaled size and twice the gap after it.
pub open spec fn gap_position_spec(child_first: bool, child_size: int, parent_size: int, scale: int, parent_scale: int, gap: int) -> int {
    if child_first {
        -(2 * gap * SCALE_ONE) - child_size * scale
    } else {
        parent_size * parent_scale + 2 * gap * SCALE_ONE
    }
}

/// The child's position along the calibration axis relative to its parent,
/// in millionths of a pixel, from the gap step's answer.
pub fn gap_position(child_first: bool, child_size: i64, parent_size: i64, scale: u64, parent_scale: u64, gap: i32) -> (r: i128)
    requires
        0 <= child_size <= 0xFFFF_FFFF,
        0 <= parent_size <= 0xFFFF_FFFF,
    ensures
        r == gap_position_spec(child_first, child_size as int, parent_size as int, scale as int, parent_scale as int, gap as int),
{
    proof {
        assert(child_size as int * scale <= 0xFFFF_FFFF * 0xFFFF_FFFF_FFFF_FFFF) by (nonlinear_arith)
            requires child_size <= 0xFFFF_FFFF, scale <= 0xFFFF_FFFF_FFFF_FFFF;
        assert(parent_size as int * parent_scale <= 0xFFFF_FFFF * 0xFFFF_FFFF_FFFF_FFFF) by (nonlinear_arith)
            requires parent_size <= 0xFFFF_FFFF, parent_scale <= 0xFFFF_FFFF_FFFF_FFFF;
        assert(child_size as int * scale >= 0) by (nonlinear_arith)
            requires child_size >= 0, scale >= 0;
        assert(parent_size as int * parent_scale >= 0) by (nonlinear_arith)
            requires parent_size >= 0, parent_scale >= 0;
    }
    proof {
        assert(-0x1_0000_0000 * 1_000_000 <= 2 * gap * 1_000_000 <= 0x1_0000_0000 * 1_000_000) by (nonlinear_arith)
            requires -0x8000_0000 <= gap <= 0x8000_0000;
    }
    let g: i128 = 2 * gap as i128 * SCALE_ONE as i128;
    if child_first {
        -g - child_size as i128 * scale as i128
    } else {
        parent_size as i128 * parent_scale as i128 + g
    }
}

/// When the two spans are equal the child keeps its parent's scale.
pub proof fn lemma_equal_spans_keep_scale(
    seg: [i32; 4],
    child: MonitorRect,
    parent: MonitorRect,
    horizontal: bool,
    parent_scale: u64,
)
    requires
        span_child(seg) == span_parent(seg),
    ensures
        scale_solution_spec(seg, child, parent, horizontal, parent_scale).0 == parent_scale,
{
    let span = span_parent(seg);
    if span > 1 {
        assert((parent_scale as int * span) / span == parent_scale as int) by (nonlinear_arith)
            requires span > 1;
    }
}

/// A parent span of one unit or less never changes the scale, whatever the
/// child's span.
pub proof fn lemma_collapsed_span_keeps_scale(
    seg: [i32; 4],
    child: MonitorRect,
    parent: MonitorRect,
    horizontal: bool,
    parent_scale: u64,
)
    requires
        span_parent(seg) <= 1,
    ensures
        scale_solution_spec(seg, child, parent, horizontal, parent_scale).0 == parent_scale,
{
}

} // verus!

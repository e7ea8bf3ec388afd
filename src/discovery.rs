use vstd::prelude::*;
use vstd::string::StringSliceAdditionalSpecFns;
use vstd::utf8::{
    encode_utf8, encode_utf8_valid_utf8, is_char_boundary, is_char_boundary_iff_not_is_continuation_byte,
    is_char_boundary_start_end_of_seq, valid_utf8,
};

verus! {

/// The name of a video output technology as the display configuration
/// reports its code.
pub open spec fn connection_type_spec(tech: i32) -> Seq<char> {
    if tech == 0 {
        "VGA"@
    } else if tech == 1 {
        "S-Video"@
    } else if tech == 2 {
        "Composite"@
    } else if tech == 3 {
        "Component"@
    } else if tech == 4 {
        "DVI"@
    } else if tech == 5 {
        "HDMI"@
    } else if tech == 6 {
        "LVDS"@
    } else if tech == 8 {
        "D-JPeg"@
    } else if tech == 9 {
        "SDI"@
    } else if tech == 10 {
        "DisplayPort (External)"@
    } else if tech == 11 {
        "DisplayPort (Embedded)"@
    } else if tech == 12 {
        "UDI (External)"@
    } else if tech == 13 {
        "UDI (Embedded)"@
    } else if tech == 14 {
        "SDTV Dongle"@
    } else if tech == 15 {
        "Miracast"@
    } else if tech == 16 {
        "Indirect Wired"@
    } else if tech == i32::MIN {
        "Internal"@
    } else {
        "Unknown"@
    }
}

/// Names a video output technology code ("HDMI", "DisplayPort (External)", ...).
pub fn connection_type_name(tech: i32) -> (r: &'static str)
    ensures
        r@ == connection_type_spec(tech),
{
    if tech == i32::MIN {
        return "Internal";
    }
    match tech {
        0 => "VGA",
        1 => "S-Video",
        2 => "Composite",
        3 => "Component",
        4 => "DVI",
        5 => "HDMI",
        6 => "LVDS",
        8 => "D-JPeg",
        9 => "SDI",
        10 => "DisplayPort (External)",
        11 => "DisplayPort (Embedded)",
        12 => "UDI (External)",
        13 => "UDI (Embedded)",
        14 => "SDTV Dongle",
        15 => "Miracast",
        16 => "Indirect Wired",
        _ => "Unknown",
    }
}

/// Index of the first byte `x` in `b` at or after `i`, or the length.
pub open spec fn first_byte_from(b: Seq<u8>, x: u8, i: int) -> int
    decreases b.len() - i,
{
    if i < 0 || i >= b.len() {
        b.len() as int
    } else if b[i] == x {
        i
    } else {
        first_byte_from(b, x, i + 1)
    }
}

/// The part of a device instance path between its first and second
/// backslash (to the end when there is no second); the whole path when it
/// has none. Over the path's UTF-8 bytes.
pub open spec fn id_fragment(b: Seq<u8>) -> Seq<u8> {
    let a = first_byte_from(b, 0x5C, 0);
    if a >= b.len() {
        b
    } else {
        let rest = b.subrange(a + 1, b.len() as int);
        rest.subrange(0, first_byte_from(rest, 0x5C, 0))
    }
}

fn find_byte(b: &[u8], x: u8) -> (r: usize)
    ensures
        r == first_byte_from(b@, x, 0),
{
    let mut i: usize = 0;
    while i < b.len()
        invariant
            0 <= i <= b@.len(),
            first_byte_from(b@, x, 0) == first_byte_from(b@, x, i as int),
        decreases b.len() - i,
    {
        if b[i] == x {
            return i;
        }
        i += 1;
    }
    i
}

proof fn lemma_first_byte_bound(b: Seq<u8>, x: u8, i: int)
    requires
        0 <= i,
    ensures
        first_byte_from(b, x, i) <= b.len(),
        first_byte_from(b, x, i) < b.len() ==> b[first_byte_from(b, x, i)] == x,
    decreases b.len() - i,
{
    if i < b.len() && b[i] != x {
        lemma_first_byte_bound(b, x, i + 1);
    }
}

/// A backslash in a string's bytes sits on a character boundary.
proof fn lemma_backslash_boundary(s: &str, i: int)
    requires
        0 <= i < s.spec_bytes().len(),
        s.spec_bytes()[i] == 0x5C,
    ensures
        is_char_boundary(s.spec_bytes(), i),
{
    encode_utf8_valid_utf8(s@);
    is_char_boundary_iff_not_is_continuation_byte(s.spec_bytes(), i);
}

/// Right after a leading backslash is a character boundary.
proof fn lemma_after_backslash_boundary(s: &str)
    requires
        s.spec_bytes().len() >= 1,
        s.spec_bytes()[0] == 0x5C,
    ensures
        is_char_boundary(s.spec_bytes(), 1),
{
    let b = s.spec_bytes();
    encode_utf8_valid_utf8(s@);
    if b.len() == 1 {
        is_char_boundary_start_end_of_seq(b);
    } else {
        is_char_boundary_iff_not_is_continuation_byte(b, 1);
        reveal_with_fuel(is_char_boundary, 2);
        assert(valid_utf8(b));
    }
}

/// The hardware id fragment of a device instance path.
pub fn extract_hardware_id_fragment(instance_id: &str) -> (r: String)
    ensures
        encode_utf8(r@) == id_fragment(encode_utf8(instance_id@)),
{
    let b = instance_id.as_bytes();
    let a = find_byte(b, 0x5C);
    proof {
        lemma_first_byte_bound(b@, 0x5C, 0);
    }
    if a >= b.len() {
        return instance_id.to_owned();
    }
    proof {
        lemma_backslash_boundary(instance_id, a as int);
    }
    let (_, tail) = instance_id.split_at(a);
    proof {
        assert(tail.spec_bytes()[0] == 0x5C);
        lemma_after_backslash_boundary(tail);
    }
    let (_, rest) = tail.split_at(1);
    let rb = rest.as_bytes();
    let c = find_byte(rb, 0x5C);
    proof {
        lemma_first_byte_bound(rb@, 0x5C, 0);
        assert(rest.spec_bytes() =~= b@.subrange(a + 1, b@.len() as int));
    }
    if c >= rb.len() {
        proof {
            assert(rest.spec_bytes().subrange(0, c as int) =~= rest.spec_bytes());
        }
        return rest.to_owned();
    }
    proof {
        lemma_backslash_boundary(rest, c as int);
    }
    let (frag, _) = rest.split_at(c);
    frag.to_owned()
}

} // verus!

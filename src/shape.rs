//! The tag-length-value structure of uncompressed NBT data.
//!
//! Each tag is a type byte, a big-endian 16-bit name length, the name, and a
//! payload whose layout depends on the type. [`nbt_shape_ok`] says that the
//! data, read from its root compound, is complete: every length is
//! non-negative and within the data, every list element and compound entry has
//! a known type, and lists and compounds nest no deeper than
//! [`MAX_NBT_DEPTH`]. [`check_nbt_shape`] decides it.

use vstd::prelude::*;

verus! {

/// How deeply lists and compounds may nest below the root compound.
pub const MAX_NBT_DEPTH: u32 = 512;

/// The big-endian unsigned 16-bit number at `p`.
pub open spec fn be_u16(b: Seq<u8>, p: int) -> int {
    b[p] as int * 256 + b[p + 1] as int
}

/// The big-endian unsigned 32-bit number at `p`.
pub open spec fn be_u32(b: Seq<u8>, p: int) -> int {
    b[p] as int * 16777216 + b[p + 1] as int * 65536 + b[p + 2] as int * 256 + b[p + 3] as int
}

/// The payload width of the numeric tags 1 to 6.
pub open spec fn scalar_width(tag: u8) -> int {
    if tag == 1 {
        1
    } else if tag == 2 {
        2
    } else if tag == 3 || tag == 5 {
        4
    } else {
        8
    }
}

/// The element width of the array tags: 7 (bytes), 11 (ints), 12 (longs).
pub open spec fn array_width(tag: u8) -> int {
    if tag == 7 {
        1
    } else if tag == 11 {
        4
    } else {
        8
    }
}

/// Where the payload of a tag of type `tag` that starts at `p` ends, with
/// lists and compounds allowed to nest `depth` levels deep; `None` when the
/// payload is not well formed. A signed 32-bit length with its top bit set is
/// negative, and refused.
pub open spec fn payload_end(b: Seq<u8>, tag: u8, p: int, depth: nat) -> Option<int>
    decreases depth, b.len() - p, 1int,
{
    if p < 0 || p > b.len() {
        None
    } else if 1 <= tag <= 6 {
        if p + scalar_width(tag) <= b.len() {
            Some(p + scalar_width(tag))
        } else {
            None
        }
    } else if tag == 7 || tag == 11 || tag == 12 {
        if p + 4 > b.len() || b[p] >= 128 {
            None
        } else if p + 4 + array_width(tag) * be_u32(b, p) <= b.len() {
            Some(p + 4 + array_width(tag) * be_u32(b, p))
        } else {
            None
        }
    } else if tag == 8 {
        if p + 2 > b.len() {
            None
        } else if p + 2 + be_u16(b, p) <= b.len() {
            Some(p + 2 + be_u16(b, p))
        } else {
            None
        }
    } else if tag == 9 {
        if depth == 0 || p + 5 > b.len() || b[p + 1] >= 128 {
            None
        } else {
            list_end(b, b[p], be_u32(b, p + 1), p + 5, depth)
        }
    } else if tag == 10 {
        if depth == 0 {
            None
        } else {
            compound_end(b, p, depth)
        }
    } else {
        None
    }
}

/// Where the remaining `count` elements of type `elem` of a list end, when
/// the next one starts at `p`; the elements nest one level below `depth`.
pub open spec fn list_end(b: Seq<u8>, elem: u8, count: int, p: int, depth: nat) -> Option<int>
    decreases depth, b.len() - p, 0int,
{
    if depth == 0 || p < 0 || p > b.len() {
        None
    } else if count <= 0 {
        Some(p)
    } else {
        match payload_end(b, elem, p, (depth - 1) as nat) {
            Some(q) => if p < q <= b.len() {
                list_end(b, elem, count - 1, q, depth)
            } else {
                None
            },
            None => None,
        }
    }
}

/// Where the entries of a compound end (just past its end tag), when the
/// next entry starts at `p`; the entries nest one level below `depth`.
pub open spec fn compound_end(b: Seq<u8>, p: int, depth: nat) -> Option<int>
    decreases depth, b.len() - p, 0int,
{
    if depth == 0 || p < 0 || p >= b.len() {
        None
    } else if b[p] == 0 {
        Some(p + 1)
    } else if p + 3 > b.len() || p + 3 + be_u16(b, p + 1) > b.len() {
        None
    } else {
        match payload_end(b, b[p], p + 3 + be_u16(b, p + 1), (depth - 1) as nat) {
            Some(q) => if p < q <= b.len() {
                compound_end(b, q, depth)
            } else {
                None
            },
            None => None,
        }
    }
}

/// Whether `b` starts with a complete, well-formed root compound tag.
pub open spec fn nbt_shape_ok(b: Seq<u8>) -> bool {
    &&& b.len() >= 3
    &&& b[0] == 10
    &&& 3 + be_u16(b, 1) <= b.len()
    &&& compound_end(b, 3 + be_u16(b, 1), MAX_NBT_DEPTH as nat) is Some
}

fn read_be_u16(b: &[u8], p: usize) -> (r: usize)
    requires
        p + 2 <= b@.len(),
    ensures
        r as int == be_u16(b@, p as int),
{
    (b[p] as usize) * 256 + (b[p + 1] as usize)
}

fn read_be_u32(b: &[u8], p: usize) -> (r: u32)
    requires
        p + 4 <= b@.len(),
    ensures
        r as int == be_u32(b@, p as int),
{
    (b[p] as u32) * 16777216 + (b[p + 1] as u32) * 65536 + (b[p + 2] as u32) * 256 + (b[p
        + 3] as u32)
}

fn exec_payload_end(b: &[u8], tag: u8, p: usize, depth: u32) -> (r: Option<usize>)
    requires
        p <= b@.len(),
    ensures
        match r {
            Some(q) => payload_end(b@, tag, p as int, depth as nat) == Some(q as int),
            None => payload_end(b@, tag, p as int, depth as nat) is None,
        },
    decreases depth, b@.len() - p, 1int,
{
    let len = b.len();
    if 1 <= tag && tag <= 6 {
        let w: usize = if tag == 1 {
            1
        } else if tag == 2 {
            2
        } else if tag == 3 || tag == 5 {
            4
        } else {
            8
        };
        if w <= len - p {
            Some(p + w)
        } else {
            None
        }
    } else if tag == 7 || tag == 11 || tag == 12 {
        if len - p < 4 || b[p] >= 128 {
            None
        } else {
            let n = read_be_u32(b, p) as usize;
            let w: usize = if tag == 7 {
                1
            } else if tag == 11 {
                4
            } else {
                8
            };
            let rem = len - p - 4;
            proof {
                assert(n <= rem / w <==> w * n <= rem) by (nonlinear_arith)
                    requires
                        w > 0,
                ;
            }
            if n <= rem / w {
                Some(p + 4 + w * n)
            } else {
                None
            }
        }
    } else if tag == 8 {
        if len - p < 2 {
            None
        } else {
            let n = read_be_u16(b, p);
            if n <= len - p - 2 {
                Some(p + 2 + n)
            } else {
                None
            }
        }
    } else if tag == 9 {
        if depth == 0 || len - p < 5 || b[p + 1] >= 128 {
            None
        } else {
            let count = read_be_u32(b, p + 1);
            exec_list_end(b, b[p], count, p + 5, depth)
        }
    } else if tag == 10 {
        if depth == 0 {
            None
        } else {
            exec_compound_end(b, p, depth)
        }
    } else {
        None
    }
}

fn exec_list_end(b: &[u8], elem: u8, count: u32, start: usize, depth: u32) -> (r: Option<usize>)
    requires
        start <= b@.len(),
        depth > 0,
    ensures
        match r {
            Some(q) => list_end(b@, elem, count as int, start as int, depth as nat) == Some(
                q as int,
            ),
            None => list_end(b@, elem, count as int, start as int, depth as nat) is None,
        },
    decreases depth, b@.len() - start, 0int,
{
    let mut p = start;
    let mut left = count;
    while left > 0
        invariant
            start <= p <= b@.len(),
            depth > 0,
            list_end(b@, elem, count as int, start as int, depth as nat) == list_end(
                b@,
                elem,
                left as int,
                p as int,
                depth as nat,
            ),
        decreases b@.len() - p,
    {
        match exec_payload_end(b, elem, p, depth - 1) {
            Some(q) => {
                if p < q && q <= b.len() {
                    p = q;
                    left = left - 1;
                } else {
                    return None;
                }
            },
            None => {
                return None;
            },
        }
    }
    Some(p)
}

fn exec_compound_end(b: &[u8], start: usize, depth: u32) -> (r: Option<usize>)
    requires
        start <= b@.len(),
        depth > 0,
    ensures
        match r {
            Some(q) => compound_end(b@, start as int, depth as nat) == Some(q as int),
            None => compound_end(b@, start as int, depth as nat) is None,
        },
    decreases depth, b@.len() - start, 0int,
{
    let mut p = start;
    loop
        invariant
            start <= p <= b@.len(),
            depth > 0,
            compound_end(b@, start as int, depth as nat) == compound_end(
                b@,
                p as int,
                depth as nat,
            ),
        decreases b@.len() - p,
    {
        if p >= b.len() {
            return None;
        }
        let tag = b[p];
        if tag == 0 {
            return Some(p + 1);
        }
        if b.len() - p < 3 {
            return None;
        }
        let name_len = read_be_u16(b, p + 1);
        if name_len > b.len() - p - 3 {
            return None;
        }
        match exec_payload_end(b, tag, p + 3 + name_len, depth - 1) {
            Some(q) => {
                if p < q && q <= b.len() {
                    p = q;
                } else {
                    return None;
                }
            },
            None => {
                return None;
            },
        }
    }
}

/// Decides whether `b` starts with a complete, well-formed root compound tag.
pub fn check_nbt_shape(b: &[u8]) -> (r: bool)
    ensures
        r == nbt_shape_ok(b@),
{
    if b.len() < 3 || b[0] != 10 {
        return false;
    }
    let name_len = read_be_u16(b, 1);
    if name_len > b.len() - 3 {
        return false;
    }
    exec_compound_end(b, 3 + name_len, MAX_NBT_DEPTH).is_some()
}

} // verus!

use vstd::prelude::*;
use vstd::arithmetic::power2::{lemma_pow2_pos, lemma_pow2_unfold, pow2};
use crate::fixed::LIMIT;
use crate::tri3d::Tri3D;
use crate::vec3d::{point, Vec3D};

verus! {

/// Bytes of the header that a mesh file starts with.
pub const HEADER_LEN: usize = 80;

/// Bytes of one triangle record: a normal and three vertices of three 32-bit floats
/// each, then a 16-bit attribute count.
pub const RECORD_LEN: usize = 50;

/// Why a mesh file could not be read.
#[derive(Clone, Copy, PartialEq, Eq, Debug, Structural)]
pub enum MeshError {
    /// The file ends inside a triangle record.
    Truncated,
    /// A coordinate is not a number, infinite, or beyond the working range.
    Unrepresentable,
}

/// The little-endian 32-bit integer at `pos`.
pub open spec fn u32_le(b: Seq<u8>, pos: int) -> int {
    b[pos] + 256 * b[pos + 1] + 65536 * b[pos + 2] + 16777216 * b[pos + 3]
}

/// Magnitude of the 32-bit float with biased exponent `e` (1 to 254) and fraction `f`,
/// in fixed point, rounded towards zero.
pub open spec fn normal_magnitude(e: int, f: int) -> int {
    let m = f + 0x80_0000;
    if e >= 134 {
        m * pow2((e - 134) as nat)
    } else {
        m / (pow2((134 - e) as nat) as int)
    }
}

/// The fixed-point value, rounded towards zero, of the 32-bit float with bit pattern
/// `bits`; `None` for a NaN, an infinity or a value beyond the working range.
/// Subnormal floats are far below one fixed-point unit and give zero.
pub open spec fn f32_fixed(bits: int) -> Option<int> {
    let e = (bits / 0x80_0000) % 256;
    let f = bits % 0x80_0000;
    if e == 255 {
        None
    } else if e == 0 {
        Some(0)
    } else if normal_magnitude(e, f) > LIMIT {
        None
    } else if bits >= 0x8000_0000 {
        Some(-normal_magnitude(e, f))
    } else {
        Some(normal_magnitude(e, f))
    }
}

/// The number of triangles a file claims, read after the header.
pub open spec fn claimed_count(b: Seq<u8>) -> int {
    u32_le(b, HEADER_LEN as int)
}

/// Where triangle record `i` starts.
pub open spec fn record_start(i: int) -> int {
    HEADER_LEN + 4 + RECORD_LEN * i
}

/// The bits of coordinate `j` (0 to 8: x, y, z of each vertex in turn) of triangle `i`;
/// the record's normal is skipped.
pub open spec fn coord_bits(b: Seq<u8>, i: int, j: int) -> int {
    u32_le(b, record_start(i) + 12 + 4 * j)
}

/// Coordinate `j` of triangle `i` in fixed point, where it is representable.
pub open spec fn coord_value(b: Seq<u8>, i: int, j: int) -> int {
    f32_fixed(coord_bits(b, i, j))->Some_0
}

/// Every coordinate of the first `n` triangles is representable in fixed point.
pub open spec fn representable(b: Seq<u8>, n: int) -> bool {
    forall|i: int, j: int| 0 <= i < n && 0 <= j < 9 ==> (#[trigger] f32_fixed(coord_bits(b, i, j))) is Some
}

/// Triangle `i` of the file, with luminance zero.
pub open spec fn mesh_tri(b: Seq<u8>, i: int) -> Tri3D {
    Tri3D {
        a: point(coord_value(b, i, 0), coord_value(b, i, 1), coord_value(b, i, 2)),
        b: point(coord_value(b, i, 3), coord_value(b, i, 4), coord_value(b, i, 5)),
        c: point(coord_value(b, i, 6), coord_value(b, i, 7), coord_value(b, i, 8)),
        l: 0,
    }
}

/// The file holds every record it claims.
pub open spec fn complete(b: Seq<u8>) -> bool {
    b.len() >= record_start(claimed_count(b))
}

/// The little-endian 32-bit integer at `pos`.
pub fn read_u32(bytes: &[u8], pos: usize) -> (r: u32)
    requires
        pos + 4 <= bytes@.len(),
    ensures
        r == u32_le(bytes@, pos as int),
{
    bytes[pos] as u32 + 256 * bytes[pos + 1] as u32 + 65536 * bytes[pos + 2] as u32 + 16777216
        * bytes[pos + 3] as u32
}

/// Reads a binary triangle mesh: an 80-byte header, which is ignored, a little-endian
/// 32-bit triangle count, then one record per triangle. Returns, per triangle, the bit
/// patterns of its nine vertex coordinates as 32-bit floats. A file too short to hold
/// the header and the count is an empty mesh; one that ends inside a record is
/// `Truncated`.
pub fn read_mesh(bytes: &[u8]) -> (r: Result<Vec<[u32; 9]>, MeshError>)
    ensures
        bytes@.len() < HEADER_LEN + 4 ==> r is Ok && r->Ok_0@.len() == 0,
        bytes@.len() >= HEADER_LEN + 4 ==> (r is Err <==> !complete(bytes@)),
        r is Err ==> r->Err_0 == MeshError::Truncated,
        r is Ok && bytes@.len() >= HEADER_LEN + 4 ==> r->Ok_0@.len() == claimed_count(bytes@),
        r is Ok ==> forall|i: int, j: int|
            0 <= i < r->Ok_0@.len() && 0 <= j < 9 ==> r->Ok_0@[i][j] == coord_bits(bytes@, i, j),
{
    if bytes.len() < HEADER_LEN + 4 {
        return Ok(Vec::new());
    }
    let count = read_u32(bytes, HEADER_LEN);
    if (bytes.len() as u64) < (HEADER_LEN + 4) as u64 + RECORD_LEN as u64 * count as u64 {
        return Err(MeshError::Truncated);
    }
    let n: usize = bytes.len();
    let mut res: Vec<[u32; 9]> = Vec::new();
    let mut i: u32 = 0;
    while i < count
        invariant
            0 <= i <= count,
            count == claimed_count(bytes@),
            complete(bytes@),
            n == bytes@.len(),
            res@.len() == i,
            forall|k: int, j: int|
                0 <= k < i && 0 <= j < 9 ==> res@[k][j] == coord_bits(bytes@, k, j),
        decreases count - i,
    {
        assert(record_start(i as int) + RECORD_LEN <= record_start(count as int));
        let start: usize = HEADER_LEN + 4 + RECORD_LEN * (i as usize) + 12;
        let mut coords: [u32; 9] = [0; 9];
        let mut j: usize = 0;
        while j < 9
            invariant
                0 <= j <= 9,
                i < count,
                count == claimed_count(bytes@),
                complete(bytes@),
                start == record_start(i as int) + 12,
                record_start(i as int) + RECORD_LEN <= bytes@.len(),
                forall|k: int| 0 <= k < j ==> coords[k] == coord_bits(bytes@, i as int, k),
            decreases 9 - j,
        {
            coords[j] = read_u32(bytes, start + 4 * j);
            j += 1;
        }
        res.push(coords);
        i += 1;
    }
    Ok(res)
}

/// Converts the 32-bit float with bit pattern `bits` to fixed point, rounding towards
/// zero (see `f32_fixed`).
pub fn fixed_from_f32_bits(bits: u32) -> (r: Option<i64>)
    ensures
        r matches Some(v) ==> f32_fixed(bits as int) == Some(v as int),
        r is None ==> f32_fixed(bits as int) is None,
{
    let e: u32 = (bits / 0x80_0000) % 256;
    let f: u32 = bits % 0x80_0000;
    if e == 255 {
        return None;
    }
    if e == 0 {
        return Some(0);
    }
    let m: u64 = f as u64 + 0x80_0000;
    let mag: u64;
    if e >= 134 {
        if e > 147 {
            proof {
                lemma_pow2_grows(14, (e - 134) as nat);
                assert(pow2(14) == 16384) by {
                    vstd::arithmetic::power2::lemma2_to64();
                }
                assert(m * pow2(14) <= m * pow2((e - 134) as nat)) by (nonlinear_arith)
                    requires pow2(14) <= pow2((e - 134) as nat), m >= 0;
            }
            return None;
        }
        let mut k: u32 = 0;
        let mut acc: u64 = m;
        proof {
            vstd::arithmetic::power2::lemma2_to64();
        }
        while k < e - 134
            invariant
                0 <= k <= e - 134 <= 13,
                m < 0x100_0000,
                acc == m * pow2(k as nat),
                pow2(k as nat) <= 8192,
            decreases e - 134 - k,
        {
            proof {
                lemma_pow2_unfold((k + 1) as nat);
                lemma_pow2_grows((k + 1) as nat, 13);
                vstd::arithmetic::power2::lemma2_to64();
                assert(m * pow2((k + 1) as nat) == 2 * (m * pow2(k as nat))) by (nonlinear_arith)
                    requires pow2((k + 1) as nat) == 2 * pow2(k as nat);
                assert(m * pow2((k + 1) as nat) <= 0x100_0000 * 8192) by (nonlinear_arith)
                    requires m < 0x100_0000, pow2((k + 1) as nat) <= 8192;
            }
            acc = acc * 2;
            k += 1;
        }
        mag = acc;
    } else {
        let mut k: u32 = 0;
        let mut acc: u64 = m;
        proof {
            vstd::arithmetic::power2::lemma2_to64();
            assert(m as int / 1 == m);
        }
        while k < 134 - e
            invariant
                0 <= k <= 134 - e,
                acc == m as int / (pow2(k as nat) as int),
            decreases 134 - e - k,
        {
            proof {
                lemma_pow2_pos(k as nat);
                lemma_pow2_unfold((k + 1) as nat);
                vstd::arithmetic::div_mod::lemma_div_denominator(m as int, pow2(k as nat) as int, 2);
                assert(pow2(k as nat) * 2 == pow2((k + 1) as nat));
            }
            acc = acc / 2;
            k += 1;
        }
        mag = acc;
    }
    if mag > LIMIT as u64 {
        return None;
    }
    if bits >= 0x8000_0000 {
        Some(-(mag as i64))
    } else {
        Some(mag as i64)
    }
}

/// `pow2` does not decrease.
proof fn lemma_pow2_grows(a: nat, b: nat)
    requires
        a <= b,
    ensures
        pow2(a) <= pow2(b),
    decreases b - a,
{
    if a < b {
        lemma_pow2_grows(a, (b - 1) as nat);
        lemma_pow2_unfold(b);
    }
}

/// Reads the triangles of a binary mesh file (see `read_mesh`) in fixed point. A file
/// too short for its header and count is an empty mesh; one that ends inside a record is
/// `Truncated`; one with a coordinate that is not a number, infinite or beyond the
/// working range is `Unrepresentable`.
pub fn load_teapot(bytes: &[u8]) -> (r: Result<Vec<Tri3D>, MeshError>)
    ensures
        bytes@.len() < HEADER_LEN + 4 ==> r is Ok && r->Ok_0@.len() == 0,
        bytes@.len() >= HEADER_LEN + 4 && !complete(bytes@) ==> r == Err::<Vec<Tri3D>, MeshError>(
            MeshError::Truncated,
        ),
        bytes@.len() >= HEADER_LEN + 4 && complete(bytes@) ==> (r is Ok <==> representable(
            bytes@,
            claimed_count(bytes@),
        )),
        bytes@.len() >= HEADER_LEN + 4 && complete(bytes@) && r is Err ==> r->Err_0
            == MeshError::Unrepresentable,
        r is Ok && bytes@.len() >= HEADER_LEN + 4 ==> r->Ok_0@.len() == claimed_count(bytes@)
            && forall|i: int| 0 <= i < r->Ok_0@.len() ==> r->Ok_0@[i] == mesh_tri(bytes@, i),
{
    let raw = match read_mesh(bytes) {
        Ok(raw) => raw,
        Err(e) => return Err(e),
    };
    let mut res: Vec<Tri3D> = Vec::new();
    let mut i: usize = 0;
    while i < raw.len()
        invariant
            0 <= i <= raw.len(),
            res@.len() == i,
            bytes@.len() >= HEADER_LEN + 4 ==> raw@.len() == claimed_count(bytes@),
            bytes@.len() < HEADER_LEN + 4 ==> raw@.len() == 0,
            forall|k: int, j: int| 0 <= k < raw@.len() && 0 <= j < 9 ==> raw@[k][j] == coord_bits(bytes@, k, j),
            representable(bytes@, i as int),
            raw@.len() > 0 ==> complete(bytes@),
            forall|k: int| 0 <= k < i ==> res@[k] == mesh_tri(bytes@, k),
        decreases raw.len() - i,
    {
        let c = raw[i];
        assert(bytes@.len() >= HEADER_LEN + 4);
        let mut v: [i64; 9] = [0; 9];
        let mut j: usize = 0;
        while j < 9
            invariant
                0 <= j <= 9,
                i < raw.len(),
                c == raw@[i as int],
                bytes@.len() >= HEADER_LEN + 4,
                complete(bytes@),
                raw@.len() == claimed_count(bytes@),
                forall|k: int, jj: int| 0 <= k < raw@.len() && 0 <= jj < 9 ==> raw@[k][jj] == coord_bits(bytes@, k, jj),
                forall|jj: int| 0 <= jj < j ==> (#[trigger] f32_fixed(coord_bits(bytes@, i as int, jj))) == Some(v[jj] as int),
            decreases 9 - j,
        {
            match fixed_from_f32_bits(c[j]) {
                Some(x) => {
                    v[j] = x;
                },
                None => {
                    assert(c[j as int] == coord_bits(bytes@, i as int, j as int));
                    assert(!representable(bytes@, claimed_count(bytes@)));
                    return Err(MeshError::Unrepresentable);
                },
            }
            j += 1;
        }
        let t = Tri3D {
            a: Vec3D::new(v[0], v[1], v[2]),
            b: Vec3D::new(v[3], v[4], v[5]),
            c: Vec3D::new(v[6], v[7], v[8]),
            l: 0,
        };
        proof {
            assert forall|jj: int| 0 <= jj < 9 implies coord_value(bytes@, i as int, jj) == v[jj] as int by {
                assert(f32_fixed(coord_bits(bytes@, i as int, jj)) == Some(v[jj] as int));
            }
            assert(t == mesh_tri(bytes@, i as int));
            assert forall|k: int, jj: int| 0 <= k < i + 1 && 0 <= jj < 9 implies (#[trigger] f32_fixed(coord_bits(bytes@, k, jj))) is Some by {
                if k == i {
                    assert(f32_fixed(coord_bits(bytes@, i as int, jj)) == Some(v[jj] as int));
                }
            }
        }
        res.push(t);
        i += 1;
    }
    Ok(res)
}

} // verus!

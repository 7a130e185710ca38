//! The parts of a PRIM file that sub-meshes and weighted meshes point to:
//! index buffers, collision boxes, cloth data, copy bones, bone indices and
//! bone info. Each is written followed by zero bytes up to a multiple of 16.

use crate::io::{
    align, aligned, lemma_bytes_roundtrip, lemma_sub_concat, lemma_u16s_bytes, lemma_u16s_roundtrip,
    lemma_u32s_roundtrip, low_u16, low_u32, read_u16_array, read_u32_array,
    read_u8_array, reads_as, take_bytes, take_u16, take_u16s, take_u32, take_u32s, u16_at, u16s_bytes,
    u32s_bytes, write_u16_into, write_u32_into, write_u8_into, zeros, align_padding, Parsed, PrimError,
    Reader, Writer,
};
use crate::mesh::SPrimSubMesh;
use crate::version::GameVersion;
use vstd::bytes::*;
use vstd::prelude::*;

verus! {

/// The index buffer of a sub-mesh.
pub struct Indices {
    pub indices: Vec<u16>,
}

impl View for Indices {
    type V = Seq<u16>;

    open spec fn view(&self) -> Seq<u16> {
        self.indices@
    }
}

/// How many indices a sub-mesh stores: its index count plus its extra
/// index count, where the layout has one.
pub open spec fn index_count(num_indices: u32, num_indices_extra: Option<u32>) -> int {
    num_indices + match num_indices_extra {
        Some(e) => e as int,
        None => 0,
    }
}

/// Reading the index buffer of a sub-mesh from `p`; a count past `u32::MAX`
/// is an overflow.
pub open spec fn parse_indices(d: Seq<u8>, p: int, num_indices: u32, num_indices_extra: Option<u32>) -> Parsed<
    Seq<u16>,
> {
    if index_count(num_indices, num_indices_extra) > u32::MAX {
        Err(PrimError::Overflow)
    } else {
        take_u16s(d, p, index_count(num_indices, num_indices_extra))
    }
}

impl Indices {
    /// Reads the index buffer of `sub_mesh`.
    pub fn read(reader: &mut Reader, sub_mesh: &SPrimSubMesh) -> (r: Result<Indices, PrimError>)
        ensures
            final(reader).data@ == old(reader).data@,
            reads_as(
                r,
                final(reader).pos,
                parse_indices(
                    old(reader).data@,
                    old(reader).pos as int,
                    sub_mesh.num_indices,
                    sub_mesh.num_indices_extra,
                ),
            ),
    {
        let extra = match sub_mesh.num_indices_extra {
            Some(e) => e,
            None => 0,
        };
        let count = match sub_mesh.num_indices.checked_add(extra) {
            Some(c) => c,
            None => return Err(PrimError::Overflow),
        };
        let indices = read_u16_array(reader, count as usize)?;
        Ok(Indices { indices })
    }

    /// Writes the indices, then pads to a multiple of 16.
    pub fn write(&self, writer: &mut Writer)
        requires
            old(writer).pos == old(writer).buf@.len(),
        ensures
            final(writer).pos == final(writer).buf@.len(),
            final(writer).buf@ == aligned(old(writer).buf@ + u16s_bytes(self@), 16),
    {
        write_u16_into(writer, self.indices.as_slice());
        align(writer, 0x10);
    }
}

/// The collision data of a sub-mesh: boxes of two corners of three bytes each.
pub struct Collision {
    pub bounding_boxes: Vec<[[u8; 3]; 2]>,
    pub triangles_per_box: u16,
}

/// The contents of a [`Collision`].
pub struct CollisionModel {
    pub bounding_boxes: Seq<[[u8; 3]; 2]>,
    pub triangles_per_box: u16,
}

impl View for Collision {
    type V = CollisionModel;

    open spec fn view(&self) -> CollisionModel {
        CollisionModel { bounding_boxes: self.bounding_boxes@, triangles_per_box: self.triangles_per_box }
    }
}

/// The box stored at `q`.
pub open spec fn box_at(d: Seq<u8>, q: int) -> [[u8; 3]; 2] {
    [[d[q], d[q + 1], d[q + 2]], [d[q + 3], d[q + 4], d[q + 5]]]
}

/// Reading collision data from `p`: a `u16` box count, a `u16` triangle
/// count per box, then the boxes.
pub open spec fn parse_collision(d: Seq<u8>, p: int) -> Parsed<CollisionModel> {
    match take_u16(d, p) {
        Err(e) => Err(e),
        Ok((count, p1)) => match take_u16(d, p1) {
            Err(e) => Err(e),
            Ok((triangles_per_box, p2)) => if count == 0 {
                Ok((CollisionModel { bounding_boxes: Seq::empty(), triangles_per_box }, p2))
            } else if p2 + 6 * count <= d.len() {
                Ok(
                    (
                        CollisionModel {
                            bounding_boxes: Seq::new(count as nat, |i: int| box_at(d, p2 + 6 * i)),
                            triangles_per_box,
                        },
                        p2 + 6 * count,
                    ),
                )
            } else {
                Err(PrimError::UnexpectedEnd)
            },
        },
    }
}

/// The six bytes of a box.
pub open spec fn box_bytes(b: [[u8; 3]; 2]) -> Seq<u8> {
    b[0]@ + b[1]@
}

/// The bytes of collision data: the box count (its low 16 bits), the
/// triangle count per box, then the boxes.
pub open spec fn collision_bytes(c: CollisionModel) -> Seq<u8> {
    spec_u16_to_le_bytes((c.bounding_boxes.len() % 0x10000) as u16) + spec_u16_to_le_bytes(
        c.triangles_per_box,
    ) + c.bounding_boxes.map_values(|b: [[u8; 3]; 2]| box_bytes(b)).flatten_alt()
}

/// Reads three bytes into an array.
fn read_u8x3(reader: &mut Reader) -> (r: Result<[u8; 3], PrimError>)
    ensures
        final(reader).data@ == old(reader).data@,
        match r {
            Ok(a) => old(reader).pos + 3 <= old(reader).data@.len() && final(reader).pos == old(
                reader,
            ).pos + 3 && a == [
                old(reader).data@[old(reader).pos as int],
                old(reader).data@[old(reader).pos + 1],
                old(reader).data@[old(reader).pos + 2],
            ],
            Err(e) => e == PrimError::UnexpectedEnd && old(reader).pos + 3 > old(reader).data@.len(),
        },
{
    let v = read_u8_array(reader, 3)?;
    Ok([v[0], v[1], v[2]])
}

impl Collision {
    /// Reads collision data.
    pub fn read(reader: &mut Reader) -> (r: Result<Collision, PrimError>)
        ensures
            final(reader).data@ == old(reader).data@,
            reads_as(r, final(reader).pos, parse_collision(old(reader).data@, old(reader).pos as int)),
    {
        let ghost d = reader.data@;
        let count = reader.read_u16()?;
        let triangles_per_box = reader.read_u16()?;
        let ghost p2 = reader.pos as int;
        let mut bounding_boxes: Vec<[[u8; 3]; 2]> = Vec::new();
        let mut i: u16 = 0;
        while i < count
            invariant
                i <= count,
                reader.data@ == d,
                d == old(reader).data@,
                take_u16(d, old(reader).pos as int) == Ok::<(u16, int), PrimError>(
                    (count, old(reader).pos + 2),
                ),
                take_u16(d, old(reader).pos + 2) == Ok::<(u16, int), PrimError>((triangles_per_box, p2)),
                reader.pos == p2 + 6 * i,
                i == 0 || p2 + 6 * i <= d.len(),
                bounding_boxes@ == Seq::new(i as nat, |j: int| box_at(d, p2 + 6 * j)),
            decreases count - i,
        {
            let a = read_u8x3(reader)?;
            let b = read_u8x3(reader)?;
            bounding_boxes.push([a, b]);
            i = i + 1;
            assert(bounding_boxes@ =~= Seq::new(i as nat, |j: int| box_at(d, p2 + 6 * j)));
        }
        if count == 0 {
            assert(bounding_boxes@ =~= Seq::<[[u8; 3]; 2]>::empty());
        }
        Ok(Collision { bounding_boxes, triangles_per_box })
    }

    /// Writes the box count (its low 16 bits), the triangle count per box and
    /// the boxes, then pads to a multiple of 16.
    pub fn write(&self, writer: &mut Writer)
        requires
            old(writer).pos == old(writer).buf@.len(),
        ensures
            final(writer).pos == final(writer).buf@.len(),
            final(writer).buf@ == aligned(old(writer).buf@ + collision_bytes(self@), 16),
    {
        let ghost start = writer.buf@;
        writer.write_u16(low_u16(self.bounding_boxes.len()));
        writer.write_u16(self.triangles_per_box);
        let ghost mid = writer.buf@;
        let ghost chunks = self.bounding_boxes@.map_values(|b: [[u8; 3]; 2]| box_bytes(b));
        let mut i: usize = 0;
        while i < self.bounding_boxes.len()
            invariant
                writer.pos == writer.buf@.len(),
                i <= self.bounding_boxes@.len(),
                chunks == self.bounding_boxes@.map_values(|b: [[u8; 3]; 2]| box_bytes(b)),
                writer.buf@ == mid + chunks.take(i as int).flatten_alt(),
            decreases self.bounding_boxes@.len() - i,
        {
            proof {
                crate::io::lemma_chunks_step(chunks, i as int);
            }
            let bx = &self.bounding_boxes[i];
            write_u8_into(writer, &bx[0]);
            write_u8_into(writer, &bx[1]);
            i = i + 1;
            assert(writer.buf@ =~= mid + chunks.take(i as int).flatten_alt());
        }
        assert(chunks.take(i as int) =~= chunks);
        assert(writer.buf@ =~= start + collision_bytes(self@));
        align(writer, 0x10);
    }
}

/// The cloth data of a sub-mesh, kept as stored.
pub struct Cloth {
    pub data: Vec<u8>,
}

impl View for Cloth {
    type V = Seq<u8>;

    open spec fn view(&self) -> Seq<u8> {
        self.data@
    }
}

/// A cloth id with bit 0x80 set marks small cloth data, which starts with
/// its own size.
pub open spec fn is_small_cloth(cloth_id: u8) -> bool {
    cloth_id & 0x80 == 0x80
}

/// Reading the cloth data of a sub-mesh with `num_vertices` vertices from
/// `p`: small cloth data is a `u32` size and that many bytes; other cloth
/// data is 20 bytes per vertex. A size past `u32::MAX` is an overflow.
pub open spec fn parse_cloth(d: Seq<u8>, p: int, num_vertices: u32, cloth_id: u8) -> Parsed<Seq<u8>> {
    if is_small_cloth(cloth_id) {
        match take_u32(d, p) {
            Err(e) => Err(e),
            Ok((size, p1)) => match take_bytes(d, p1, size as int) {
                Err(e) => Err(e),
                Ok((b, p2)) => Ok((spec_u32_to_le_bytes(size) + b, p2)),
            },
        }
    } else if num_vertices * 0x14 > u32::MAX {
        Err(PrimError::Overflow)
    } else {
        take_bytes(d, p, num_vertices * 0x14)
    }
}

impl Cloth {
    /// Reads the cloth data of `sub_mesh` for a mesh with `cloth_id`.
    pub fn read(reader: &mut Reader, sub_mesh: &SPrimSubMesh, cloth_id: u8) -> (r: Result<Cloth, PrimError>)
        ensures
            final(reader).data@ == old(reader).data@,
            reads_as(
                r,
                final(reader).pos,
                parse_cloth(old(reader).data@, old(reader).pos as int, sub_mesh.num_vertices, cloth_id),
            ),
    {
        let is_small = cloth_id & 0x80 == 0x80;
        let mut data: Vec<u8> = Vec::new();
        let size = if is_small {
            let size = reader.read_u32()?;
            let b = crate::le::le_bytes_u32(size);
            data.push(b[0]);
            data.push(b[1]);
            data.push(b[2]);
            data.push(b[3]);
            assert(data@ =~= b@);
            size
        } else {
            match sub_mesh.num_vertices.checked_mul(0x14) {
                Some(s) => s,
                None => return Err(PrimError::Overflow),
            }
        };
        let rest = read_u8_array(reader, size as usize)?;
        let mut j: usize = 0;
        let ghost head = data@;
        while j < rest.len()
            invariant
                j <= rest@.len(),
                data@ == head + rest@.take(j as int),
            decreases rest@.len() - j,
        {
            data.push(rest[j]);
            j = j + 1;
            assert(data@ =~= head + rest@.take(j as int));
        }
        assert(rest@.take(j as int) =~= rest@);
        if !is_small {
            assert(data@ =~= rest@);
        }
        Ok(Cloth { data })
    }

    /// Writes the cloth data, then pads to a multiple of 16.
    pub fn write(&self, writer: &mut Writer)
        requires
            old(writer).pos == old(writer).buf@.len(),
        ensures
            final(writer).pos == final(writer).buf@.len(),
            final(writer).buf@ == aligned(old(writer).buf@ + self@, 16),
    {
        write_u8_into(writer, self.data.as_slice());
        align(writer, 0x10);
    }
}

/// The copy bones of a weighted mesh: two `u32` values per copy bone.
pub struct CopyBones {
    pub data: Vec<u32>,
}

impl View for CopyBones {
    type V = Seq<u32>;

    open spec fn view(&self) -> Seq<u32> {
        self.data@
    }
}

/// Reading `num_copy_bones` copy bones from `p`; a value count past
/// `u32::MAX` is an overflow.
pub open spec fn parse_copy_bones(d: Seq<u8>, p: int, num_copy_bones: u32) -> Parsed<Seq<u32>> {
    if num_copy_bones * 2 > u32::MAX {
        Err(PrimError::Overflow)
    } else {
        take_u32s(d, p, num_copy_bones * 2)
    }
}

impl CopyBones {
    /// Reads `num_copy_bones` copy bones.
    pub fn read(reader: &mut Reader, num_copy_bones: u32) -> (r: Result<CopyBones, PrimError>)
        ensures
            final(reader).data@ == old(reader).data@,
            reads_as(
                r,
                final(reader).pos,
                parse_copy_bones(old(reader).data@, old(reader).pos as int, num_copy_bones),
            ),
    {
        let size = match num_copy_bones.checked_mul(2) {
            Some(s) => s,
            None => return Err(PrimError::Overflow),
        };
        let data = read_u32_array(reader, size as usize)?;
        Ok(CopyBones { data })
    }

    /// Writes the values, then pads to a multiple of 16.
    pub fn write(&self, writer: &mut Writer)
        requires
            old(writer).pos == old(writer).buf@.len(),
        ensures
            final(writer).pos == final(writer).buf@.len(),
            final(writer).buf@ == aligned(old(writer).buf@ + u32s_bytes(self@), 16),
    {
        write_u32_into(writer, self.data.as_slice());
        align(writer, 0x10);
    }
}

/// The bone indices of a weighted mesh.
pub struct BoneIndices {
    pub data: Vec<u16>,
}

impl View for BoneIndices {
    type V = Seq<u16>;

    open spec fn view(&self) -> Seq<u16> {
        self.data@
    }
}

/// HMA and ALPHA store short counts (`u16`); HM2016 and WOA store long ones (`u32`).
pub open spec fn has_short_counts(v: GameVersion) -> bool {
    v == GameVersion::Hma || v == GameVersion::Alpha
}

/// Reading bone indices from `p` in the layout of `v`: HMA and ALPHA store
/// a `u16` of the count plus one, HM2016 and WOA a `u32` of the count plus
/// two; a stored value below that is an overflow.
pub open spec fn parse_bone_indices(d: Seq<u8>, p: int, v: GameVersion) -> Parsed<Seq<u16>> {
    if has_short_counts(v) {
        match take_u16(d, p) {
            Err(e) => Err(e),
            Ok((c, p1)) => if c < 1 {
                Err(PrimError::Overflow)
            } else {
                take_u16s(d, p1, c - 1)
            },
        }
    } else {
        match take_u32(d, p) {
            Err(e) => Err(e),
            Ok((c, p1)) => if c < 2 {
                Err(PrimError::Overflow)
            } else {
                take_u16s(d, p1, c - 2)
            },
        }
    }
}

/// The bytes of bone indices in the layout of `v`: the count plus one as a
/// `u16` (low 16 bits) or the count plus two as a `u32` (low 32 bits), then
/// the indices.
pub open spec fn bone_indices_bytes(s: Seq<u16>, v: GameVersion) -> Seq<u8> {
    (if has_short_counts(v) {
        spec_u16_to_le_bytes(((s.len() + 1) % 0x10000) as u16)
    } else {
        spec_u32_to_le_bytes(((s.len() + 2) % 0x1_0000_0000) as u32)
    }) + u16s_bytes(s)
}

impl BoneIndices {
    /// Reads bone indices in the layout of `input_version`.
    pub fn read(reader: &mut Reader, input_version: &GameVersion) -> (r: Result<BoneIndices, PrimError>)
        ensures
            final(reader).data@ == old(reader).data@,
            reads_as(
                r,
                final(reader).pos,
                parse_bone_indices(old(reader).data@, old(reader).pos as int, *input_version),
            ),
    {
        let size: u32 = match input_version {
            GameVersion::Hma | GameVersion::Alpha => {
                let c = reader.read_u16()?;
                if c < 1 {
                    return Err(PrimError::Overflow);
                }
                c as u32 - 1
            },
            GameVersion::Hm2016 | GameVersion::Woa => {
                let c = reader.read_u32()?;
                if c < 2 {
                    return Err(PrimError::Overflow);
                }
                c - 2
            },
        };
        let data = read_u16_array(reader, size as usize)?;
        Ok(BoneIndices { data })
    }

    /// Writes the count and the indices in the layout of `output_version`,
    /// then pads to a multiple of 16.
    pub fn write(&self, writer: &mut Writer, output_version: &GameVersion)
        requires
            old(writer).pos == old(writer).buf@.len(),
        ensures
            final(writer).pos == final(writer).buf@.len(),
            final(writer).buf@ == aligned(old(writer).buf@ + bone_indices_bytes(self@, *output_version), 16),
    {
        let ghost start = writer.buf@;
        let len = self.data.len();
        match output_version {
            GameVersion::Hma | GameVersion::Alpha => {
                let c = low_u16(len).wrapping_add(1);
                assert(c == (len + 1) % 0x10000) by {
                    vstd::arithmetic::div_mod::lemma_add_mod_noop(len as int, 1, 0x10000);
                    vstd::arithmetic::div_mod::lemma_small_mod(1, 0x10000);
                }
                writer.write_u16(c);
            },
            GameVersion::Hm2016 | GameVersion::Woa => {
                let c = low_u32(len).wrapping_add(2);
                assert(c == (len + 2) % 0x1_0000_0000) by {
                    vstd::arithmetic::div_mod::lemma_add_mod_noop(len as int, 2, 0x1_0000_0000);
                    vstd::arithmetic::div_mod::lemma_small_mod(2, 0x1_0000_0000);
                }
                writer.write_u32(c);
            },
        }
        write_u16_into(writer, self.data.as_slice());
        assert(writer.buf@ =~= start + bone_indices_bytes(self@, *output_version));
        align(writer, 0x10);
    }
}

/// The bone info of a weighted mesh, kept as stored.
pub struct BoneInfo {
    pub data: Vec<u8>,
}

impl View for BoneInfo {
    type V = Seq<u8>;

    open spec fn view(&self) -> Seq<u8> {
        self.data@
    }
}

/// Reading bone info from `p`: it starts with a `u16` of its own size in
/// bytes, which counts the `u16` itself.
pub open spec fn parse_bone_info(d: Seq<u8>, p: int) -> Parsed<Seq<u8>> {
    match take_u16(d, p) {
        Err(e) => Err(e),
        Ok((size, p1)) => take_bytes(d, p, size as int),
    }
}

impl BoneInfo {
    /// Reads bone info.
    pub fn read(reader: &mut Reader) -> (r: Result<BoneInfo, PrimError>)
        ensures
            final(reader).data@ == old(reader).data@,
            reads_as(r, final(reader).pos, parse_bone_info(old(reader).data@, old(reader).pos as int)),
    {
        let size = reader.read_u16()?;
        let back = reader.position() - 2;
        reader.seek(back);
        let data = read_u8_array(reader, size as usize)?;
        Ok(BoneInfo { data })
    }

    /// Writes the bone info, then pads to a multiple of 16.
    pub fn write(&self, writer: &mut Writer)
        requires
            old(writer).pos == old(writer).buf@.len(),
        ensures
            final(writer).pos == final(writer).buf@.len(),
            final(writer).buf@ == aligned(old(writer).buf@ + self@, 16),
    {
        write_u8_into(writer, self.data.as_slice());
        align(writer, 0x10);
    }
}

/// A buffer padded to a multiple of 16 is the buffer followed by zeros.
proof fn lemma_aligned_split(pre: Seq<u8>, x: Seq<u8>, post: Seq<u8>)
    ensures
        aligned(pre + x, 16) + post == pre + x + (zeros(align_padding((pre + x).len() as int, 16)) + post),
{
    assert(aligned(pre + x, 16) + post =~= pre + x + (zeros(align_padding((pre + x).len() as int, 16)) + post));
}

/// Reading back a written index buffer, with counts that add up to its
/// length (at most `u32::MAX`), gives the indices.
pub proof fn lemma_indices_roundtrip(
    pre: Seq<u8>,
    s: Seq<u16>,
    post: Seq<u8>,
    num_indices: u32,
    num_indices_extra: Option<u32>,
)
    requires
        index_count(num_indices, num_indices_extra) == s.len(),
        s.len() <= u32::MAX,
    ensures
        parse_indices(aligned(pre + u16s_bytes(s), 16) + post, pre.len() as int, num_indices, num_indices_extra)
            == Ok::<(Seq<u16>, int), PrimError>((s, pre.len() + 2 * s.len() as int)),
{
    lemma_aligned_split(pre, u16s_bytes(s), post);
    lemma_u16s_roundtrip(pre, s, zeros(align_padding((pre + u16s_bytes(s)).len() as int, 16)) + post);
}

/// Reading back written collision data with fewer than 65536 boxes gives
/// the data.
pub proof fn lemma_collision_roundtrip(pre: Seq<u8>, c: CollisionModel, post: Seq<u8>)
    requires
        c.bounding_boxes.len() < 0x10000,
    ensures
        parse_collision(aligned(pre + collision_bytes(c), 16) + post, pre.len() as int) == Ok::<
            (CollisionModel, int),
            PrimError,
        >((c, pre.len() + 4 + 6 * c.bounding_boxes.len() as int)),
{
    lemma_auto_spec_u16_to_from_le_bytes();
    let x = collision_bytes(c);
    let rest = zeros(align_padding((pre + x).len() as int, 16)) + post;
    lemma_aligned_split(pre, x, post);
    let d = pre + x + rest;
    let p = pre.len() as int;
    let n = c.bounding_boxes.len() as int;
    let chunks = c.bounding_boxes.map_values(|b: [[u8; 3]; 2]| box_bytes(b));
    assert forall|i: int| 0 <= i < chunks.len() implies (#[trigger] chunks[i]).len() == 6 by {
        assert(chunks[i] == box_bytes(c.bounding_boxes[i]));
    }
    crate::io::lemma_fixed_chunks(chunks, 6);
    assert(x.len() == 4 + 6 * n);
    lemma_sub_concat(pre, x, rest, 0, 2);
    assert(x.subrange(0, 2) =~= spec_u16_to_le_bytes((n % 0x10000) as u16));
    lemma_sub_concat(pre, x, rest, 2, 4);
    assert(x.subrange(2, 4) =~= spec_u16_to_le_bytes(c.triangles_per_box));
    assert(u16_at(d, p) == n);
    assert(u16_at(d, p + 2) == c.triangles_per_box);
    if n > 0 {
        let bs = Seq::new(n as nat, |i: int| box_at(d, p + 4 + 6 * i));
        assert forall|i: int| 0 <= i < n implies bs[i] == c.bounding_boxes[i] by {
            let b = c.bounding_boxes[i];
            assert(chunks[i] == box_bytes(b));
            assert(chunks.flatten_alt().subrange(i * 6, i * 6 + 6) == box_bytes(b));
            assert(x.subrange(4 + 6 * i, 4 + 6 * i + 6) =~= chunks.flatten_alt().subrange(i * 6, i * 6 + 6));
            lemma_sub_concat(pre, x, rest, 4 + 6 * i, 4 + 6 * i + 6);
            let q = p + 4 + 6 * i;
            assert(d.subrange(q, q + 6) == box_bytes(b));
            broadcast use vstd::array::group_array_axioms;
            assert(b[0]@.len() == 3 && b[1]@.len() == 3);
            assert(d[q] == d.subrange(q, q + 6)[0]);
            assert(d[q + 1] == d.subrange(q, q + 6)[1]);
            assert(d[q + 2] == d.subrange(q, q + 6)[2]);
            assert(d[q + 3] == d.subrange(q, q + 6)[3]);
            assert(d[q + 4] == d.subrange(q, q + 6)[4]);
            assert(d[q + 5] == d.subrange(q, q + 6)[5]);
            assert(box_bytes(b)[3] == b[1]@[0]);
            assert(box_bytes(b)[4] == b[1]@[1]);
            assert(box_bytes(b)[5] == b[1]@[2]);
            assert(bs[i][0] =~= b[0]);
            assert(bs[i][1] =~= b[1]);
            assert(bs[i] =~= b);
        }
        assert(bs =~= c.bounding_boxes);
    } else {
        assert(c.bounding_boxes =~= Seq::<[[u8; 3]; 2]>::empty());
    }
}

/// Reading back written cloth data gives the data, where it has the shape
/// that the cloth id asks for: small cloth data starts with the count of the
/// bytes after the first four; other cloth data has 20 bytes per vertex, at
/// most `u32::MAX` in all.
pub proof fn lemma_cloth_roundtrip(pre: Seq<u8>, data: Seq<u8>, post: Seq<u8>, num_vertices: u32, cloth_id: u8)
    requires
        is_small_cloth(cloth_id) ==> data.len() >= 4 && spec_u32_from_le_bytes(data.subrange(0, 4)) == data.len()
            - 4,
        !is_small_cloth(cloth_id) ==> data.len() == num_vertices * 0x14 && num_vertices * 0x14 <= u32::MAX,
    ensures
        parse_cloth(aligned(pre + data, 16) + post, pre.len() as int, num_vertices, cloth_id) == Ok::<
            (Seq<u8>, int),
            PrimError,
        >((data, pre.len() + data.len() as int)),
{
    lemma_auto_spec_u32_to_from_le_bytes();
    let rest = zeros(align_padding((pre + data).len() as int, 16)) + post;
    lemma_aligned_split(pre, data, post);
    let d = pre + data + rest;
    let p = pre.len() as int;
    if is_small_cloth(cloth_id) {
        lemma_sub_concat(pre, data, rest, 0, 4);
        let tail = data.subrange(4, data.len() as int);
        lemma_bytes_roundtrip(pre + data.subrange(0, 4), tail, rest);
        assert(pre + data.subrange(0, 4) + tail + rest =~= d);
        assert(spec_u32_to_le_bytes(spec_u32_from_le_bytes(data.subrange(0, 4))) == data.subrange(0, 4));
        assert(data.subrange(0, 4) + tail =~= data);
    } else {
        lemma_bytes_roundtrip(pre, data, rest);
    }
}

/// Reading back written copy bones gives them, where their count is
/// `num_copy_bones` pairs.
pub proof fn lemma_copy_bones_roundtrip(pre: Seq<u8>, s: Seq<u32>, post: Seq<u8>, num_copy_bones: u32)
    requires
        s.len() == num_copy_bones * 2,
        num_copy_bones * 2 <= u32::MAX,
    ensures
        parse_copy_bones(aligned(pre + u32s_bytes(s), 16) + post, pre.len() as int, num_copy_bones) == Ok::<
            (Seq<u32>, int),
            PrimError,
        >((s, pre.len() + 4 * s.len() as int)),
{
    lemma_aligned_split(pre, u32s_bytes(s), post);
    lemma_u32s_roundtrip(pre, s, zeros(align_padding((pre + u32s_bytes(s)).len() as int, 16)) + post);
}

/// Reading back bone indices written in the layout of `v` gives them, where
/// their stored count fits: below 65535 for HMA and ALPHA, below
/// `u32::MAX - 1` for HM2016 and WOA.
pub proof fn lemma_bone_indices_roundtrip(pre: Seq<u8>, s: Seq<u16>, post: Seq<u8>, v: GameVersion)
    requires
        has_short_counts(v) ==> s.len() + 1 < 0x10000,
        !has_short_counts(v) ==> s.len() + 2 < 0x1_0000_0000,
    ensures
        parse_bone_indices(aligned(pre + bone_indices_bytes(s, v), 16) + post, pre.len() as int, v) == Ok::<
            (Seq<u16>, int),
            PrimError,
        >((s, pre.len() + bone_indices_bytes(s, v).len() as int)),
{
    lemma_auto_spec_u16_to_from_le_bytes();
    lemma_auto_spec_u32_to_from_le_bytes();
    lemma_u16s_bytes(s);
    let x = bone_indices_bytes(s, v);
    let rest = zeros(align_padding((pre + x).len() as int, 16)) + post;
    lemma_aligned_split(pre, x, post);
    let d = pre + x + rest;
    let p = pre.len() as int;
    let w: int = if has_short_counts(v) {
        2
    } else {
        4
    };
    let head = x.subrange(0, w);
    assert(head + u16s_bytes(s) =~= x);
    lemma_sub_concat(pre, x, rest, 0, w);
    lemma_u16s_roundtrip(pre + head, s, rest);
    assert(pre + head + u16s_bytes(s) + rest =~= d);
    if has_short_counts(v) {
        vstd::arithmetic::div_mod::lemma_small_mod((s.len() + 1) as nat, 0x10000);
        assert(head =~= spec_u16_to_le_bytes(((s.len() + 1) % 0x10000) as u16));
    } else {
        vstd::arithmetic::div_mod::lemma_small_mod((s.len() + 2) as nat, 0x1_0000_0000);
        assert(head =~= spec_u32_to_le_bytes(((s.len() + 2) % 0x1_0000_0000) as u32));
    }
}

/// Reading back written bone info gives it, where it starts with a `u16` of
/// its own size.
pub proof fn lemma_bone_info_roundtrip(pre: Seq<u8>, data: Seq<u8>, post: Seq<u8>)
    requires
        data.len() >= 2,
        spec_u16_from_le_bytes(data.subrange(0, 2)) == data.len(),
    ensures
        parse_bone_info(aligned(pre + data, 16) + post, pre.len() as int) == Ok::<(Seq<u8>, int), PrimError>(
            (data, pre.len() + data.len() as int),
        ),
{
    let rest = zeros(align_padding((pre + data).len() as int, 16)) + post;
    lemma_aligned_split(pre, data, post);
    lemma_sub_concat(pre, data, rest, 0, 2);
    lemma_bytes_roundtrip(pre, data, rest);
}

} // verus!

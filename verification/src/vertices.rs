//! The vertex buffer of a sub-mesh.

use crate::io::{align, aligned, lemma_four_parts, lemma_chunks_step, lemma_fixed_chunks, lemma_u16s_bytes, lemma_u32s_bytes, zeros, u16_at, u16s_bytes, u32_at, u32s_bytes, write_u16_into, write_u32_into, write_u8_into, Parsed, PrimError, Reader, Writer};
use crate::le::le_bytes_u32;
use crate::mesh::{SPrimMesh, SPrimSubMesh};
use vstd::bytes::*;
use vstd::prelude::*;

verus! {

/// A vertex position as stored: three 32-bit floats (held as bit patterns)
/// where the mesh has high-resolution positions, else four 16-bit values
/// that the mesh's scale and bias map into its bounding box.
#[derive(Clone, Copy, Debug)]
pub enum Position {
    HiRes([u32; 3]),
    Packed([u16; 4]),
}

/// The vertices of a sub-mesh, each attribute as stored: weights as bytes
/// (weight times 255), normals, tangents and bitangents as bytes
/// ((component + 1) / 2 times 255), texture coordinates as 16-bit values that
/// the mesh's scale and bias map, colours as RGBA bytes.
pub struct Vertices {
    pub positions: Vec<Position>,
    pub weights: Vec<([u8; 4], [u8; 2])>,
    pub bones: Vec<([u8; 4], [u8; 2])>,
    pub normals: Vec<[u8; 4]>,
    pub tangents: Vec<[u8; 4]>,
    pub bitangents: Vec<[u8; 4]>,
    pub uvs: Vec<[u16; 2]>,
    pub colors: Vec<[u8; 4]>,
}

/// The contents of a [`Vertices`].
pub struct VerticesModel {
    pub positions: Seq<Position>,
    pub weights: Seq<([u8; 4], [u8; 2])>,
    pub bones: Seq<([u8; 4], [u8; 2])>,
    pub normals: Seq<[u8; 4]>,
    pub tangents: Seq<[u8; 4]>,
    pub bitangents: Seq<[u8; 4]>,
    pub uvs: Seq<[u16; 2]>,
    pub colors: Seq<[u8; 4]>,
}

impl View for Vertices {
    type V = VerticesModel;

    open spec fn view(&self) -> VerticesModel {
        VerticesModel {
            positions: self.positions@,
            weights: self.weights@,
            bones: self.bones@,
            normals: self.normals@,
            tangents: self.tangents@,
            bitangents: self.bitangents@,
            uvs: self.uvs@,
            colors: self.colors@,
        }
    }
}


/// Bit 0x80 of the mesh's draw destination: each vertex's position is
/// stored with its other attributes instead of in a block of its own.
pub open spec fn has_alt_packing(draw_destination: u8) -> bool {
    draw_destination & 0x80 == 0x80
}

/// Bit 8 of the mesh's flags: positions are three 32-bit floats.
pub open spec fn has_hi_res_positions(mesh_flags: u8) -> bool {
    mesh_flags & 8 == 8
}

/// Every position is stored as the mesh's flags say: as three 32-bit floats
/// where the mesh has high-resolution positions, else packed.
pub open spec fn positions_encoded(positions: Seq<Position>, mesh_flags: u8) -> bool {
    forall|i: int| 0 <= i < positions.len() ==> ((#[trigger] positions[i]) is HiRes) == has_hi_res_positions(mesh_flags)
}

/// Bit 8 of the header flags: the meshes are weighted.
pub open spec fn is_weighted(header_flags: u32) -> bool {
    header_flags & 8 == 8
}

/// Bit 0x20 of an object's flags: it carries one colour for all its vertices.
pub open spec fn has_color1(flags: u8) -> bool {
    flags & 0x20 == 0x20
}

/// The size of a stored position.
pub open spec fn position_size(hi_res: bool) -> int {
    if hi_res {
        12
    } else {
        8
    }
}

/// The size of the per-vertex record of normal, tangent, bitangent and
/// texture coordinates, with the position in front under alternative packing.
pub open spec fn record_size(alt: bool, hi_res: bool) -> int {
    if alt {
        position_size(hi_res) + 16
    } else {
        16
    }
}

/// The position stored at `q`.
pub open spec fn position_at(d: Seq<u8>, q: int, hi_res: bool) -> Position {
    if hi_res {
        Position::HiRes([u32_at(d, q), u32_at(d, q + 4), u32_at(d, q + 8)])
    } else {
        Position::Packed([u16_at(d, q), u16_at(d, q + 2), u16_at(d, q + 4), u16_at(d, q + 6)])
    }
}

/// The four bytes at `q`.
pub open spec fn bytes4_at(d: Seq<u8>, q: int) -> [u8; 4] {
    [d[q], d[q + 1], d[q + 2], d[q + 3]]
}

/// The weights and the bones of the vertex stored at `q`: four weight
/// bytes, four bone bytes, two weight bytes, two bone bytes.
pub open spec fn weight_bone_at(d: Seq<u8>, q: int) -> (([u8; 4], [u8; 2]), ([u8; 4], [u8; 2])) {
    ((bytes4_at(d, q), [d[q + 8], d[q + 9]]), (bytes4_at(d, q + 4), [d[q + 10], d[q + 11]]))
}

/// `n` records of `k` bytes from `p` on fit in `d`.
pub open spec fn records_fit(d: Seq<u8>, p: int, n: int, k: int) -> bool {
    n == 0 || (0 <= p && p + n * k <= d.len())
}

/// Reading `n` positions from `p`.
pub open spec fn take_positions(d: Seq<u8>, p: int, n: int, hi_res: bool) -> Parsed<Seq<Position>> {
    if records_fit(d, p, n, position_size(hi_res)) {
        Ok(
            (
                Seq::new(n as nat, |i: int| position_at(d, p + i * position_size(hi_res), hi_res)),
                p + n * position_size(hi_res),
            ),
        )
    } else {
        Err(PrimError::UnexpectedEnd)
    }
}

/// Reading the weights and bones of `n` vertices from `p`.
pub open spec fn take_weights_and_bones(d: Seq<u8>, p: int, n: int) -> Parsed<
    (Seq<([u8; 4], [u8; 2])>, Seq<([u8; 4], [u8; 2])>),
> {
    if records_fit(d, p, n, 12) {
        Ok(
            (
                (
                    Seq::new(n as nat, |i: int| weight_bone_at(d, p + 12 * i).0),
                    Seq::new(n as nat, |i: int| weight_bone_at(d, p + 12 * i).1),
                ),
                p + 12 * n,
            ),
        )
    } else {
        Err(PrimError::UnexpectedEnd)
    }
}

/// The per-vertex records read from a block: positions (under alternative
/// packing only), normals, tangents, bitangents and texture coordinates.
pub struct VertexRecords {
    pub positions: Seq<Position>,
    pub normals: Seq<[u8; 4]>,
    pub tangents: Seq<[u8; 4]>,
    pub bitangents: Seq<[u8; 4]>,
    pub uvs: Seq<[u16; 2]>,
}

/// Where the normal of a record starts.
pub open spec fn record_attrs(alt: bool, hi_res: bool) -> int {
    if alt {
        position_size(hi_res)
    } else {
        0
    }
}

/// Reading the per-vertex records of `n` vertices from `p`.
pub open spec fn take_records(d: Seq<u8>, p: int, n: int, alt: bool, hi_res: bool) -> Parsed<VertexRecords> {
    let k = record_size(alt, hi_res);
    let o = record_attrs(alt, hi_res);
    if records_fit(d, p, n, k) {
        Ok(
            (
                VertexRecords {
                    positions: if alt {
                        Seq::new(n as nat, |i: int| position_at(d, p + i * k, hi_res))
                    } else {
                        Seq::empty()
                    },
                    normals: Seq::new(n as nat, |i: int| bytes4_at(d, p + i * k + o)),
                    tangents: Seq::new(n as nat, |i: int| bytes4_at(d, p + i * k + o + 4)),
                    bitangents: Seq::new(n as nat, |i: int| bytes4_at(d, p + i * k + o + 8)),
                    uvs: Seq::new(n as nat, |i: int| [u16_at(d, p + i * k + o + 12), u16_at(d, p + i * k + o + 14)]),
                },
                p + n * k,
            ),
        )
    } else {
        Err(PrimError::UnexpectedEnd)
    }
}

/// The colour that a sub-mesh with one colour gives each vertex: the
/// little-endian bytes of its second colour, or zeros where it has none.
pub open spec fn color_of(color1: Option<u32>) -> [u8; 4] {
    match color1 {
        Some(c) => [
            spec_u32_to_le_bytes(c)[0],
            spec_u32_to_le_bytes(c)[1],
            spec_u32_to_le_bytes(c)[2],
            spec_u32_to_le_bytes(c)[3],
        ],
        None => [0u8, 0u8, 0u8, 0u8],
    }
}

/// The colour a sub-mesh with one colour gives each vertex is the
/// little-endian bytes of that colour, and zeros where it has none.
pub proof fn lemma_color_of(color1: Option<u32>)
    ensures
        match color1 {
            Some(c) => color_of(color1)@ == spec_u32_to_le_bytes(c),
            None => color_of(color1)@ == seq![0u8, 0u8, 0u8, 0u8],
        },
{
    lemma_auto_spec_u32_to_from_le_bytes();
    assert(color_of(color1)@ =~= match color1 {
        Some(c) => spec_u32_to_le_bytes(c),
        None => seq![0u8, 0u8, 0u8, 0u8],
    });
}

/// Vertex colours are there where the meshes are weighted or the mesh has
/// no single colour.
pub open spec fn colors_present(header_flags: u32, mesh_flags: u8) -> bool {
    is_weighted(header_flags) || !has_color1(mesh_flags)
}

/// Reading the colours of `n` vertices from `p`: none where there are no
/// colours; the sub-mesh's single colour for each vertex, reading nothing,
/// where it has one; else four bytes per vertex.
pub open spec fn take_colors(
    d: Seq<u8>,
    p: int,
    n: int,
    present: bool,
    sub_flags: u8,
    color1: Option<u32>,
) -> Parsed<Seq<[u8; 4]>> {
    if !present {
        Ok((Seq::empty(), p))
    } else if has_color1(sub_flags) {
        Ok((Seq::new(n as nat, |i: int| color_of(color1)), p))
    } else {
        take_color_bytes(d, p, n)
    }
}

/// Reading `n` stored colours from `p`: four bytes each.
pub open spec fn take_color_bytes(d: Seq<u8>, p: int, n: int) -> Parsed<Seq<[u8; 4]>> {
    if records_fit(d, p, n, 4) {
        Ok((Seq::new(n as nat, |i: int| bytes4_at(d, p + 4 * i)), p + 4 * n))
    } else {
        Err(PrimError::UnexpectedEnd)
    }
}

/// Reading the vertices of a sub-mesh with `n` vertices from `p`: positions
/// (unless packed with the other attributes), weights and bones (where
/// weighted), the per-vertex records, then the colours.
pub open spec fn parse_vertices(
    d: Seq<u8>,
    p: int,
    header_flags: u32,
    draw_destination: u8,
    mesh_flags: u8,
    sub_flags: u8,
    color1: Option<u32>,
    n: u32,
) -> Parsed<VerticesModel> {
    let alt = has_alt_packing(draw_destination);
    let hi = has_hi_res_positions(mesh_flags);
    match (if alt {
        Ok((Seq::<Position>::empty(), p))
    } else {
        take_positions(d, p, n as int, hi)
    }) {
        Err(e) => Err(e),
        Ok((pos0, p1)) => match (if is_weighted(header_flags) {
            take_weights_and_bones(d, p1, n as int)
        } else {
            Ok(((Seq::empty(), Seq::empty()), p1))
        }) {
            Err(e) => Err(e),
            Ok((wb, p2)) => match take_records(d, p2, n as int, alt, hi) {
                Err(e) => Err(e),
                Ok((recs, p3)) => match take_colors(
                    d,
                    p3,
                    n as int,
                    colors_present(header_flags, mesh_flags),
                    sub_flags,
                    color1,
                ) {
                    Err(e) => Err(e),
                    Ok((colors, p4)) => Ok(
                        (
                            VerticesModel {
                                positions: if alt {
                                    recs.positions
                                } else {
                                    pos0
                                },
                                weights: wb.0,
                                bones: wb.1,
                                normals: recs.normals,
                                tangents: recs.tangents,
                                bitangents: recs.bitangents,
                                uvs: recs.uvs,
                                colors,
                            },
                            p4,
                        ),
                    ),
                },
            },
        },
    }
}

/// The bytes of a position.
pub open spec fn position_bytes(x: Position) -> Seq<u8> {
    match x {
        Position::HiRes(a) => u32s_bytes(a@),
        Position::Packed(a) => u16s_bytes(a@),
    }
}

/// The twelve bytes of a vertex's weights and bones.
pub open spec fn weight_bone_bytes(w: ([u8; 4], [u8; 2]), b: ([u8; 4], [u8; 2])) -> Seq<u8> {
    w.0@ + b.0@ + w.1@ + b.1@
}

/// The per-vertex record of vertex `i`.
pub open spec fn record_bytes(v: VerticesModel, i: int, alt: bool) -> Seq<u8> {
    (if alt {
        position_bytes(v.positions[i])
    } else {
        Seq::empty()
    }) + v.normals[i]@ + v.tangents[i]@ + v.bitangents[i]@ + u16s_bytes(v.uvs[i]@)
}

/// The bytes of vertices: positions (unless `alt`), weights and bones
/// (where `weighted`), the per-vertex records, then the colours (where
/// `write_colors`).
pub open spec fn vertices_bytes(v: VerticesModel, alt: bool, weighted: bool, write_colors: bool) -> Seq<u8> {
    (if alt {
        Seq::empty()
    } else {
        positions_bytes(v.positions)
    }) + (if weighted {
        weights_bones_bytes(v.weights, v.bones)
    } else {
        Seq::empty()
    }) + records_bytes(v, alt) + (if write_colors {
        colors_bytes(v.colors)
    } else {
        Seq::empty()
    })
}

/// The per-vertex records of all vertices.
pub open spec fn records_bytes(v: VerticesModel, alt: bool) -> Seq<u8> {
    Seq::new(v.positions.len(), |i: int| record_bytes(v, i, alt)).flatten_alt()
}

/// The bytes of positions, each in its own encoding.
pub open spec fn positions_bytes(ps: Seq<Position>) -> Seq<u8> {
    Seq::new(ps.len(), |i: int| position_bytes(ps[i])).flatten_alt()
}

/// The bytes of the weights and bones of each vertex.
pub open spec fn weights_bones_bytes(ws: Seq<([u8; 4], [u8; 2])>, bs: Seq<([u8; 4], [u8; 2])>) -> Seq<u8> {
    Seq::new(ws.len(), |i: int| weight_bone_bytes(ws[i], bs[i])).flatten_alt()
}

/// The bytes of colours.
pub open spec fn colors_bytes(cs: Seq<[u8; 4]>) -> Seq<u8> {
    Seq::new(cs.len(), |i: int| cs[i]@).flatten_alt()
}

/// The stored colours are written where vertex colours are there and the
/// sub-mesh has no single colour.
pub open spec fn writes_colors(header_flags: u32, mesh_flags: u8, sub_flags: u8) -> bool {
    colors_present(header_flags, mesh_flags) && !has_color1(sub_flags)
}

/// `p + (i + 1) * k` steps from `p + i * k` and stays within `p + n * k`.
proof fn lemma_step(i: int, n: int, k: int)
    requires
        0 <= i < n,
        0 <= k,
    ensures
        (i + 1) * k == i * k + k,
        (i + 1) * k <= n * k,
        0 <= i * k,
{
    assert((i + 1) * k == i * k + k) by (nonlinear_arith);
    assert((i + 1) * k <= n * k) by (nonlinear_arith)
        requires
            i + 1 <= n,
            0 <= k,
    ;
    assert(0 <= i * k) by (nonlinear_arith)
        requires
            0 <= i,
            0 <= k,
    ;
}

/// Reads four bytes into an array.
fn read_u8x4(reader: &mut Reader) -> (r: Result<[u8; 4], PrimError>)
    ensures
        final(reader).data@ == old(reader).data@,
        match r {
            Ok(a) => old(reader).pos + 4 <= old(reader).data@.len() && final(reader).pos == old(
                reader,
            ).pos + 4 && a == bytes4_at(old(reader).data@, old(reader).pos as int),
            Err(e) => e == PrimError::UnexpectedEnd && old(reader).pos + 4 > old(reader).data@.len(),
        },
{
    let a = reader.read_u8()?;
    let b = reader.read_u8()?;
    let c = reader.read_u8()?;
    let d = reader.read_u8()?;
    Ok([a, b, c, d])
}

/// Reads two bytes into an array.
fn read_u8x2(reader: &mut Reader) -> (r: Result<[u8; 2], PrimError>)
    ensures
        final(reader).data@ == old(reader).data@,
        match r {
            Ok(a) => old(reader).pos + 2 <= old(reader).data@.len() && final(reader).pos == old(
                reader,
            ).pos + 2 && a == [old(reader).data@[old(reader).pos as int], old(reader).data@[old(reader).pos + 1]],
            Err(e) => e == PrimError::UnexpectedEnd && old(reader).pos + 2 > old(reader).data@.len(),
        },
{
    let a = reader.read_u8()?;
    let b = reader.read_u8()?;
    Ok([a, b])
}

/// Reads two `u16` values into an array.
fn read_u16x2(reader: &mut Reader) -> (r: Result<[u16; 2], PrimError>)
    ensures
        final(reader).data@ == old(reader).data@,
        match r {
            Ok(a) => old(reader).pos + 4 <= old(reader).data@.len() && final(reader).pos == old(
                reader,
            ).pos + 4 && a == [
                u16_at(old(reader).data@, old(reader).pos as int),
                u16_at(old(reader).data@, old(reader).pos + 2),
            ],
            Err(e) => e == PrimError::UnexpectedEnd && old(reader).pos + 4 > old(reader).data@.len(),
        },
{
    let a = reader.read_u16()?;
    let b = reader.read_u16()?;
    Ok([a, b])
}

impl Vertices {
    /// Reads the vertices of `sub_mesh`, laid out as `header_flags` and
    /// `mesh` say.
    pub fn read(reader: &mut Reader, header_flags: u32, mesh: &SPrimMesh, sub_mesh: &SPrimSubMesh) -> (r: Result<
        Vertices,
        PrimError,
    >)
        ensures
            final(reader).data@ == old(reader).data@,
            crate::io::reads_as(
                r,
                final(reader).pos,
                parse_vertices(
                    old(reader).data@,
                    old(reader).pos as int,
                    header_flags,
                    mesh.object.header.draw_destination,
                    mesh.object.flags,
                    sub_mesh.object.flags,
                    sub_mesh.object.color1,
                    sub_mesh.num_vertices,
                ),
            ),
    {
        let has_alt_packing_format = mesh.object.header.draw_destination & 0x80 == 0x80;
        let has_hi_res_positions = mesh.object.flags & 8 == 8;
        let n = sub_mesh.num_vertices;
        let mut positions: Vec<Position> = Vec::new();
        if !has_alt_packing_format {
            positions = Vertices::read_positions(reader, n, has_hi_res_positions)?;
        }
        let is_weighted = header_flags & 8 == 8;
        let mut weights: Vec<([u8; 4], [u8; 2])> = Vec::new();
        let mut bones: Vec<([u8; 4], [u8; 2])> = Vec::new();
        if is_weighted {
            let wb = Vertices::read_weights_and_bones(reader, n)?;
            weights = wb.0;
            bones = wb.1;
        }
        let (alt_positions, normals, tangents, bitangents, uvs) = Vertices::read_records(
            reader,
            n,
            has_alt_packing_format,
            has_hi_res_positions,
        )?;
        if has_alt_packing_format {
            positions = alt_positions;
        }
        let has_color1_object = mesh.object.flags & 0x20 == 0x20;
        let has_color1_sub_mesh = sub_mesh.object.flags & 0x20 == 0x20;
        let mut colors: Vec<[u8; 4]> = Vec::new();
        if is_weighted || !has_color1_object {
            if has_color1_sub_mesh {
                let color: [u8; 4] = match sub_mesh.object.color1 {
                    Some(c) => {
                        let b = le_bytes_u32(c);
                        [b[0], b[1], b[2], b[3]]
                    },
                    None => [0u8; 4],
                };
                let ghost want = color_of(sub_mesh.object.color1);
                assert(color =~= want);
                let mut i: u32 = 0;
                while i < n
                    invariant
                        i <= n,
                        color == want,
                        colors@ == Seq::new(i as nat, |j: int| want),
                    decreases n - i,
                {
                    colors.push(color);
                    i = i + 1;
                    assert(colors@ =~= Seq::new(i as nat, |j: int| want));
                }
            } else {
                colors = Vertices::read_colors(reader, n)?;
            }
        }
        Ok(Vertices { positions, weights, bones, normals, tangents, bitangents, uvs, colors })
    }

    /// Reads `n` positions.
    fn read_positions(reader: &mut Reader, n: u32, has_hi_res_position: bool) -> (r: Result<
        Vec<Position>,
        PrimError,
    >)
        ensures
            final(reader).data@ == old(reader).data@,
            crate::io::reads_as(
                r,
                final(reader).pos,
                take_positions(old(reader).data@, old(reader).pos as int, n as int, has_hi_res_position),
            ),
    {
        let ghost d = reader.data@;
        let ghost p = reader.pos as int;
        let ghost k = position_size(has_hi_res_position);
        let mut positions: Vec<Position> = Vec::new();
        let mut i: u32 = 0;
        while i < n
            invariant
                i <= n,
                d == old(reader).data@,
                p == old(reader).pos,
                k == position_size(has_hi_res_position),
                reader.data@ == d,
                reader.pos == p + i * k,
                i == 0 || p + i * k <= d.len(),
                positions@ == Seq::new(i as nat, |j: int| position_at(d, p + j * k, has_hi_res_position)),
            decreases n - i,
        {
            proof {
                lemma_step(i as int, n as int, k);
            }
            let x = Vertices::read_position(reader, has_hi_res_position);
            match x {
                Ok(x) => {
                    positions.push(x);
                },
                Err(e) => {
                    return Err(e);
                },
            }
            i = i + 1;
            assert(positions@ =~= Seq::new(i as nat, |j: int| position_at(d, p + j * k, has_hi_res_position)));
        }
        Ok(positions)
    }

    /// Reads one position: three `u32` float bit patterns where positions
    /// are high-resolution, else four packed `u16` values.
    fn read_position(reader: &mut Reader, has_hi_res_position: bool) -> (r: Result<Position, PrimError>)
        ensures
            final(reader).data@ == old(reader).data@,
            match r {
                Ok(x) => old(reader).pos + position_size(has_hi_res_position) <= old(reader).data@.len()
                    && final(reader).pos == old(reader).pos + position_size(has_hi_res_position) && x
                    == position_at(old(reader).data@, old(reader).pos as int, has_hi_res_position),
                Err(e) => e == PrimError::UnexpectedEnd && old(reader).pos + position_size(
                    has_hi_res_position,
                ) > old(reader).data@.len(),
            },
    {
        if has_hi_res_position {
            let a = reader.read_u32()?;
            let b = reader.read_u32()?;
            let c = reader.read_u32()?;
            Ok(Position::HiRes([a, b, c]))
        } else {
            let a = reader.read_u16()?;
            let b = reader.read_u16()?;
            let c = reader.read_u16()?;
            let e = reader.read_u16()?;
            Ok(Position::Packed([a, b, c, e]))
        }
    }

    /// Reads the weights and bones of `n` vertices.
    fn read_weights_and_bones(reader: &mut Reader, n: u32) -> (r: Result<
        (Vec<([u8; 4], [u8; 2])>, Vec<([u8; 4], [u8; 2])>),
        PrimError,
    >)
        ensures
            final(reader).data@ == old(reader).data@,
            match take_weights_and_bones(old(reader).data@, old(reader).pos as int, n as int) {
                Ok(((ws, bs), q)) => r matches Ok((w, b)) && w@ == ws && b@ == bs && final(reader).pos == q,
                Err(e) => r == Err::<(Vec<([u8; 4], [u8; 2])>, Vec<([u8; 4], [u8; 2])>), PrimError>(e),
            },
    {
        let ghost d = reader.data@;
        let ghost p = reader.pos as int;
        let mut weights: Vec<([u8; 4], [u8; 2])> = Vec::new();
        let mut bones: Vec<([u8; 4], [u8; 2])> = Vec::new();
        let mut i: u32 = 0;
        while i < n
            invariant
                i <= n,
                d == old(reader).data@,
                p == old(reader).pos,
                reader.data@ == d,
                reader.pos == p + 12 * i,
                i == 0 || p + 12 * i <= d.len(),
                weights@ == Seq::new(i as nat, |j: int| weight_bone_at(d, p + 12 * j).0),
                bones@ == Seq::new(i as nat, |j: int| weight_bone_at(d, p + 12 * j).1),
            decreases n - i,
        {
            let w4 = read_u8x4(reader)?;
            let b4 = read_u8x4(reader)?;
            let w2 = read_u8x2(reader)?;
            let b2 = read_u8x2(reader)?;
            let ghost q = p + 12 * i;
            assert(w4 == bytes4_at(d, q));
            assert(b4 == bytes4_at(d, q + 4));
            weights.push((w4, w2));
            bones.push((b4, b2));
            i = i + 1;
            assert(weights@ =~= Seq::new(i as nat, |j: int| weight_bone_at(d, p + 12 * j).0));
            assert(bones@ =~= Seq::new(i as nat, |j: int| weight_bone_at(d, p + 12 * j).1));
        }
        Ok((weights, bones))
    }

    /// Reads the per-vertex records of `n` vertices: the position first under
    /// alternative packing, then normal, tangent, bitangent and texture
    /// coordinates.
    fn read_records(reader: &mut Reader, n: u32, has_alt_packing_format: bool, has_hi_res_position: bool) -> (r:
        Result<(Vec<Position>, Vec<[u8; 4]>, Vec<[u8; 4]>, Vec<[u8; 4]>, Vec<[u16; 2]>), PrimError>)
        ensures
            final(reader).data@ == old(reader).data@,
            match take_records(
                old(reader).data@,
                old(reader).pos as int,
                n as int,
                has_alt_packing_format,
                has_hi_res_position,
            ) {
                Ok((recs, q)) => r matches Ok((ps, ns, ts, bs, us)) && ps@ == recs.positions && ns@
                    == recs.normals && ts@ == recs.tangents && bs@ == recs.bitangents && us@ == recs.uvs
                    && final(reader).pos == q,
                Err(e) => r == Err::<
                    (Vec<Position>, Vec<[u8; 4]>, Vec<[u8; 4]>, Vec<[u8; 4]>, Vec<[u16; 2]>),
                    PrimError,
                >(e),
            },
    {
        let ghost d = reader.data@;
        let ghost p = reader.pos as int;
        let ghost k = record_size(has_alt_packing_format, has_hi_res_position);
        let ghost o = record_attrs(has_alt_packing_format, has_hi_res_position);
        let ghost alt = has_alt_packing_format;
        let ghost hi = has_hi_res_position;
        let mut positions: Vec<Position> = Vec::new();
        let mut normals: Vec<[u8; 4]> = Vec::new();
        let mut tangents: Vec<[u8; 4]> = Vec::new();
        let mut bitangents: Vec<[u8; 4]> = Vec::new();
        let mut uvs: Vec<[u16; 2]> = Vec::new();
        let mut i: u32 = 0;
        while i < n
            invariant
                i <= n,
                d == old(reader).data@,
                p == old(reader).pos,
                alt == has_alt_packing_format,
                hi == has_hi_res_position,
                k == record_size(alt, hi),
                o == record_attrs(alt, hi),
                reader.data@ == d,
                reader.pos == p + i * k,
                i == 0 || p + i * k <= d.len(),
                positions@ == if alt {
                    Seq::new(i as nat, |j: int| position_at(d, p + j * k, hi))
                } else {
                    Seq::<Position>::empty()
                },
                normals@ == Seq::new(i as nat, |j: int| bytes4_at(d, p + j * k + o)),
                tangents@ == Seq::new(i as nat, |j: int| bytes4_at(d, p + j * k + o + 4)),
                bitangents@ == Seq::new(i as nat, |j: int| bytes4_at(d, p + j * k + o + 8)),
                uvs@ == Seq::new(i as nat, |j: int| [u16_at(d, p + j * k + o + 12), u16_at(d, p + j * k + o + 14)]),
            decreases n - i,
        {
            proof {
                lemma_step(i as int, n as int, k);
            }
            if has_alt_packing_format {
                let x = Vertices::read_position(reader, has_hi_res_position)?;
                positions.push(x);
            }
            let normal = Vertices::read_vertex_data(reader)?;
            let tangent = Vertices::read_vertex_data(reader)?;
            let bitangent = Vertices::read_vertex_data(reader)?;
            let uv = Vertices::read_uv(reader)?;
            normals.push(normal);
            tangents.push(tangent);
            bitangents.push(bitangent);
            uvs.push(uv);
            i = i + 1;
            assert(positions@ =~= if alt {
                Seq::new(i as nat, |j: int| position_at(d, p + j * k, hi))
            } else {
                Seq::<Position>::empty()
            });
            assert(normals@ =~= Seq::new(i as nat, |j: int| bytes4_at(d, p + j * k + o)));
            assert(tangents@ =~= Seq::new(i as nat, |j: int| bytes4_at(d, p + j * k + o + 4)));
            assert(bitangents@ =~= Seq::new(i as nat, |j: int| bytes4_at(d, p + j * k + o + 8)));
            assert(uvs@ =~= Seq::new(
                i as nat,
                |j: int| [u16_at(d, p + j * k + o + 12), u16_at(d, p + j * k + o + 14)],
            ));
        }
        Ok((positions, normals, tangents, bitangents, uvs))
    }

    /// Reads a normal, tangent or bitangent: four bytes.
    fn read_vertex_data(reader: &mut Reader) -> (r: Result<[u8; 4], PrimError>)
        ensures
            final(reader).data@ == old(reader).data@,
            match r {
                Ok(a) => old(reader).pos + 4 <= old(reader).data@.len() && final(reader).pos == old(
                    reader,
                ).pos + 4 && a == bytes4_at(old(reader).data@, old(reader).pos as int),
                Err(e) => e == PrimError::UnexpectedEnd && old(reader).pos + 4 > old(reader).data@.len(),
            },
    {
        read_u8x4(reader)
    }

    /// Reads texture coordinates: two `u16` values.
    fn read_uv(reader: &mut Reader) -> (r: Result<[u16; 2], PrimError>)
        ensures
            final(reader).data@ == old(reader).data@,
            match r {
                Ok(a) => old(reader).pos + 4 <= old(reader).data@.len() && final(reader).pos == old(
                    reader,
                ).pos + 4 && a == [
                    u16_at(old(reader).data@, old(reader).pos as int),
                    u16_at(old(reader).data@, old(reader).pos + 2),
                ],
                Err(e) => e == PrimError::UnexpectedEnd && old(reader).pos + 4 > old(reader).data@.len(),
            },
    {
        read_u16x2(reader)
    }

    /// Reads the colours of `n` vertices: four bytes each.
    fn read_colors(reader: &mut Reader, n: u32) -> (r: Result<Vec<[u8; 4]>, PrimError>)
        ensures
            final(reader).data@ == old(reader).data@,
            match take_color_bytes(old(reader).data@, old(reader).pos as int, n as int) {
                Ok((cs, q)) => r matches Ok(c) && c@ == cs && final(reader).pos == q,
                Err(e) => r == Err::<Vec<[u8; 4]>, PrimError>(e),
            },
    {
        let ghost d = reader.data@;
        let ghost p = reader.pos as int;
        let mut colors: Vec<[u8; 4]> = Vec::new();
        let mut i: u32 = 0;
        while i < n
            invariant
                i <= n,
                d == old(reader).data@,
                p == old(reader).pos,
                reader.data@ == d,
                reader.pos == p + 4 * i,
                i == 0 || p + 4 * i <= d.len(),
                colors@ == Seq::new(i as nat, |j: int| bytes4_at(d, p + 4 * j)),
            decreases n - i,
        {
            let c = read_u8x4(reader)?;
            colors.push(c);
            i = i + 1;
            assert(colors@ =~= Seq::new(i as nat, |j: int| bytes4_at(d, p + 4 * j)));
        }
        Ok(colors)
    }
}

impl Vertices {
    /// Writes the vertices, laid out as `header_flags` and `mesh` say:
    /// positions (unless packed with the other attributes), weights and bones
    /// (where weighted), the per-vertex records, the colours (where they are
    /// stored), then pads to a multiple of 16. Each position is written in its
    /// own encoding.
    pub fn write(&self, writer: &mut Writer, header_flags: u32, mesh: &SPrimMesh, sub_mesh: &SPrimSubMesh)
        requires
            old(writer).pos == old(writer).buf@.len(),
            self.normals@.len() >= self.positions@.len(),
            self.tangents@.len() >= self.positions@.len(),
            self.bitangents@.len() >= self.positions@.len(),
            self.uvs@.len() >= self.positions@.len(),
            is_weighted(header_flags) ==> self.bones@.len() >= self.weights@.len(),
            positions_encoded(self.positions@, mesh.object.flags),
        ensures
            final(writer).pos == final(writer).buf@.len(),
            final(writer).buf@ == aligned(
                old(writer).buf@ + vertices_bytes(
                    self@,
                    has_alt_packing(mesh.object.header.draw_destination),
                    is_weighted(header_flags),
                    writes_colors(header_flags, mesh.object.flags, sub_mesh.object.flags),
                ),
                16,
            ),
    {
        let ghost start = writer.buf@;
        let ghost v = self@;
        let has_alt_packing_format = mesh.object.header.draw_destination & 0x80 == 0x80;
        if !has_alt_packing_format {
            let ghost chunks = Seq::new(v.positions.len(), |i: int| position_bytes(v.positions[i]));
            let mut i: usize = 0;
            while i < self.positions.len()
                invariant
                    writer.pos == writer.buf@.len(),
                    i <= self.positions@.len(),
                    v == self@,
                    chunks == Seq::new(v.positions.len(), |i: int| position_bytes(v.positions[i])),
                    writer.buf@ == start + chunks.take(i as int).flatten_alt(),
                decreases self.positions@.len() - i,
            {
                proof {
                    lemma_chunks_step(chunks, i as int);
                }
                self.write_position(&self.positions[i], writer);
                i = i + 1;
            }
            assert(chunks.take(i as int) =~= chunks);
        }
        let ghost s1 = writer.buf@;
        let weighted = header_flags & 8 == 8;
        if weighted {
            self.write_weights_and_bones(writer);
        }
        let ghost s2 = writer.buf@;
        let ghost chunks = Seq::new(v.positions.len(), |i: int| record_bytes(v, i, has_alt_packing_format));
        let mut i: usize = 0;
        while i < self.positions.len()
            invariant
                writer.pos == writer.buf@.len(),
                i <= self.positions@.len(),
                v == self@,
                self.normals@.len() >= self.positions@.len(),
                self.tangents@.len() >= self.positions@.len(),
                self.bitangents@.len() >= self.positions@.len(),
                self.uvs@.len() >= self.positions@.len(),
                chunks == Seq::new(v.positions.len(), |i: int| record_bytes(v, i, has_alt_packing_format)),
                writer.buf@ == s2 + chunks.take(i as int).flatten_alt(),
            decreases self.positions@.len() - i,
        {
            proof {
                lemma_chunks_step(chunks, i as int);
            }
            let ghost before = writer.buf@;
            if has_alt_packing_format {
                self.write_position(&self.positions[i], writer);
            }
            self.write_vertex_data(&self.normals[i], writer);
            self.write_vertex_data(&self.tangents[i], writer);
            self.write_vertex_data(&self.bitangents[i], writer);
            self.write_uv(&self.uvs[i], writer);
            assert(writer.buf@ =~= before + record_bytes(v, i as int, has_alt_packing_format));
            i = i + 1;
        }
        assert(chunks.take(i as int) =~= chunks);
        let ghost s3 = writer.buf@;
        let has_color1_object = mesh.object.flags & 0x20 == 0x20;
        let has_color1_sub_mesh = sub_mesh.object.flags & 0x20 == 0x20;
        if weighted || !has_color1_object {
            if !has_color1_sub_mesh {
                let ghost chunks = Seq::new(v.colors.len(), |i: int| v.colors[i]@);
                let mut i: usize = 0;
                while i < self.colors.len()
                    invariant
                        writer.pos == writer.buf@.len(),
                        i <= self.colors@.len(),
                        v == self@,
                        chunks == Seq::new(v.colors.len(), |i: int| v.colors[i]@),
                        writer.buf@ == s3 + chunks.take(i as int).flatten_alt(),
                    decreases self.colors@.len() - i,
                {
                    proof {
                        lemma_chunks_step(chunks, i as int);
                    }
                    write_u8_into(writer, &self.colors[i]);
                    i = i + 1;
                }
                assert(chunks.take(i as int) =~= chunks);
            }
        }
        assert(writer.buf@ =~= start + vertices_bytes(
            v,
            has_alt_packing(mesh.object.header.draw_destination),
            is_weighted(header_flags),
            writes_colors(header_flags, mesh.object.flags, sub_mesh.object.flags),
        ));
        align(writer, 0x10);
    }

    /// Writes a position in its encoding, which is the mesh's.
    fn write_position(&self, position: &Position, writer: &mut Writer)
        requires
            old(writer).pos == old(writer).buf@.len(),
        ensures
            final(writer).pos == final(writer).buf@.len(),
            final(writer).buf@ == old(writer).buf@ + position_bytes(*position),
    {
        match position {
            Position::HiRes(a) => write_u32_into(writer, a),
            Position::Packed(a) => write_u16_into(writer, a),
        }
    }

    /// Writes the weights and bones of each vertex.
    fn write_weights_and_bones(&self, writer: &mut Writer)
        requires
            old(writer).pos == old(writer).buf@.len(),
            self.bones@.len() >= self.weights@.len(),
        ensures
            final(writer).pos == final(writer).buf@.len(),
            final(writer).buf@ == old(writer).buf@ + Seq::new(
                self.weights@.len(),
                |i: int| weight_bone_bytes(self.weights@[i], self.bones@[i]),
            ).flatten_alt(),
    {
        let ghost start = writer.buf@;
        let ghost chunks = Seq::new(self.weights@.len(), |i: int| weight_bone_bytes(self.weights@[i], self.bones@[i]));
        let mut i: usize = 0;
        while i < self.weights.len()
            invariant
                writer.pos == writer.buf@.len(),
                i <= self.weights@.len(),
                self.bones@.len() >= self.weights@.len(),
                chunks == Seq::new(self.weights@.len(), |i: int| weight_bone_bytes(self.weights@[i], self.bones@[i])),
                writer.buf@ == start + chunks.take(i as int).flatten_alt(),
            decreases self.weights@.len() - i,
        {
            proof {
                lemma_chunks_step(chunks, i as int);
            }
            let ghost before = writer.buf@;
            let w = &self.weights[i];
            let b = &self.bones[i];
            write_u8_into(writer, &w.0);
            write_u8_into(writer, &b.0);
            write_u8_into(writer, &w.1);
            write_u8_into(writer, &b.1);
            assert(writer.buf@ =~= before + weight_bone_bytes(self.weights@[i as int], self.bones@[i as int]));
            i = i + 1;
        }
        assert(chunks.take(i as int) =~= chunks);
    }

    /// Writes a normal, tangent or bitangent.
    fn write_vertex_data(&self, value: &[u8; 4], writer: &mut Writer)
        requires
            old(writer).pos == old(writer).buf@.len(),
        ensures
            final(writer).pos == final(writer).buf@.len(),
            final(writer).buf@ == old(writer).buf@ + value@,
    {
        write_u8_into(writer, value);
    }

    /// Writes texture coordinates.
    fn write_uv(&self, uv: &[u16; 2], writer: &mut Writer)
        requires
            old(writer).pos == old(writer).buf@.len(),
        ensures
            final(writer).pos == final(writer).buf@.len(),
            final(writer).buf@ == old(writer).buf@ + u16s_bytes(uv@),
    {
        write_u16_into(writer, uv);
    }
}

/// Chunk `i` of chunks of size `k` stored from `p` on.
proof fn lemma_chunk_at(d: Seq<u8>, p: int, chunks: Seq<Seq<u8>>, k: int, i: int)
    requires
        0 <= p,
        0 <= k,
        0 <= i < chunks.len(),
        forall|j: int| 0 <= j < chunks.len() ==> (#[trigger] chunks[j]).len() == k,
        p + chunks.flatten_alt().len() <= d.len(),
        d.subrange(p, p + chunks.flatten_alt().len()) == chunks.flatten_alt(),
    ensures
        chunks.flatten_alt().len() == chunks.len() * k,
        p + i * k + k <= p + chunks.len() * k,
        0 <= i * k,
        d.subrange(p + i * k, p + i * k + k) == chunks[i],
{
    lemma_fixed_chunks(chunks, k);
    lemma_step(i, chunks.len() as int, k);
    let f = chunks.flatten_alt();
    assert(d.subrange(p + i * k, p + i * k + k) =~= f.subrange(i * k, i * k + k));
}

/// A `u32` read back from its bytes among others.
proof fn lemma_u32_in(d: Seq<u8>, q: int, a: Seq<u32>, j: int)
    requires
        0 <= q,
        0 <= j < a.len(),
        q + 4 * a.len() <= d.len(),
        d.subrange(q, q + 4 * a.len()) == u32s_bytes(a),
    ensures
        u32_at(d, q + 4 * j) == a[j],
{
    lemma_u32s_bytes(a);
    lemma_auto_spec_u32_to_from_le_bytes();
    assert(d.subrange(q + 4 * j, q + 4 * j + 4) =~= u32s_bytes(a).subrange(4 * j, 4 * j + 4));
}

/// A `u16` read back from its bytes among others.
proof fn lemma_u16_in(d: Seq<u8>, q: int, a: Seq<u16>, j: int)
    requires
        0 <= q,
        0 <= j < a.len(),
        q + 2 * a.len() <= d.len(),
        d.subrange(q, q + 2 * a.len()) == u16s_bytes(a),
    ensures
        u16_at(d, q + 2 * j) == a[j],
{
    lemma_u16s_bytes(a);
    lemma_auto_spec_u16_to_from_le_bytes();
    assert(d.subrange(q + 2 * j, q + 2 * j + 2) =~= u16s_bytes(a).subrange(2 * j, 2 * j + 2));
}

/// A position read back from its bytes, in its own encoding.
proof fn lemma_position_back(d: Seq<u8>, q: int, x: Position, hi: bool)
    requires
        hi == (x is HiRes),
        0 <= q,
        q + position_size(hi) <= d.len(),
        d.subrange(q, q + position_size(hi)) == position_bytes(x),
    ensures
        position_at(d, q, hi) == x,
{
    broadcast use vstd::array::group_array_axioms;

    match x {
        Position::HiRes(a) => {
            lemma_u32s_bytes(a@);
            lemma_u32_in(d, q, a@, 0);
            lemma_u32_in(d, q, a@, 1);
            lemma_u32_in(d, q, a@, 2);
            assert([u32_at(d, q), u32_at(d, q + 4), u32_at(d, q + 8)] =~= a);
        },
        Position::Packed(a) => {
            lemma_u16s_bytes(a@);
            lemma_u16_in(d, q, a@, 0);
            lemma_u16_in(d, q, a@, 1);
            lemma_u16_in(d, q, a@, 2);
            lemma_u16_in(d, q, a@, 3);
            assert([u16_at(d, q), u16_at(d, q + 2), u16_at(d, q + 4), u16_at(d, q + 6)] =~= a);
        },
    }
}

/// Four bytes read back.
proof fn lemma_bytes4_back(d: Seq<u8>, q: int, a: [u8; 4])
    requires
        0 <= q,
        q + 4 <= d.len(),
        d.subrange(q, q + 4) == a@,
    ensures
        bytes4_at(d, q) == a,
{
    broadcast use vstd::array::group_array_axioms;

    assert(d[q] == d.subrange(q, q + 4)[0]);
    assert(d[q + 1] == d.subrange(q, q + 4)[1]);
    assert(d[q + 2] == d.subrange(q, q + 4)[2]);
    assert(d[q + 3] == d.subrange(q, q + 4)[3]);
    assert(bytes4_at(d, q) =~= a);
}

/// The weights and bones of a vertex read back.
proof fn lemma_weight_bone_back(d: Seq<u8>, q: int, w: ([u8; 4], [u8; 2]), b: ([u8; 4], [u8; 2]))
    requires
        0 <= q,
        q + 12 <= d.len(),
        d.subrange(q, q + 12) == weight_bone_bytes(w, b),
    ensures
        weight_bone_at(d, q) == (w, b),
{
    broadcast use vstd::array::group_array_axioms;

    let x = weight_bone_bytes(w, b);
    assert(d.subrange(q, q + 4) =~= x.subrange(0, 4));
    assert(x.subrange(0, 4) =~= w.0@);
    lemma_bytes4_back(d, q, w.0);
    assert(d.subrange(q + 4, q + 8) =~= x.subrange(4, 8));
    assert(x.subrange(4, 8) =~= b.0@);
    lemma_bytes4_back(d, q + 4, b.0);
    assert(d[q + 8] == x[8] && x[8] == w.1@[0]);
    assert(d[q + 9] == x[9] && x[9] == w.1@[1]);
    assert(d[q + 10] == x[10] && x[10] == b.1@[0]);
    assert(d[q + 11] == x[11] && x[11] == b.1@[1]);
    assert([d[q + 8], d[q + 9]] =~= w.1);
    assert([d[q + 10], d[q + 11]] =~= b.1);
}

/// Positions, all in the encoding `hi_res` asks for, read back from their
/// bytes.
proof fn lemma_positions_section(d: Seq<u8>, p: int, ps: Seq<Position>, hi: bool)
    requires
        0 <= p,
        forall|i: int| 0 <= i < ps.len() ==> ((#[trigger] ps[i]) is HiRes) == hi,
        p + positions_bytes(ps).len() <= d.len(),
        d.subrange(p, p + positions_bytes(ps).len()) == positions_bytes(ps),
    ensures
        positions_bytes(ps).len() == ps.len() * position_size(hi),
        take_positions(d, p, ps.len() as int, hi) == Ok::<(Seq<Position>, int), PrimError>(
            (ps, p + ps.len() * position_size(hi)),
        ),
{
    let k = position_size(hi);
    let c = Seq::new(ps.len(), |i: int| position_bytes(ps[i]));
    assert forall|i: int| 0 <= i < c.len() implies (#[trigger] c[i]).len() == k by {
        match ps[i] {
            Position::HiRes(a) => lemma_u32s_bytes(a@),
            Position::Packed(a) => lemma_u16s_bytes(a@),
        }
    }
    lemma_fixed_chunks(c, k);
    let r = Seq::new(ps.len(), |i: int| position_at(d, p + i * k, hi));
    assert forall|i: int| 0 <= i < ps.len() implies r[i] == ps[i] by {
        lemma_chunk_at(d, p, c, k, i);
        lemma_position_back(d, p + i * k, ps[i], hi);
    }
    assert(r =~= ps);
    if ps.len() == 0 {
        assert(ps =~= Seq::<Position>::empty());
    }
}

/// Weights and bones read back from their bytes.
proof fn lemma_weights_section(d: Seq<u8>, p: int, ws: Seq<([u8; 4], [u8; 2])>, bs: Seq<([u8; 4], [u8; 2])>)
    requires
        0 <= p,
        ws.len() == bs.len(),
        p + weights_bones_bytes(ws, bs).len() <= d.len(),
        d.subrange(p, p + weights_bones_bytes(ws, bs).len()) == weights_bones_bytes(ws, bs),
    ensures
        weights_bones_bytes(ws, bs).len() == 12 * ws.len(),
        take_weights_and_bones(d, p, ws.len() as int) == Ok::<
            ((Seq<([u8; 4], [u8; 2])>, Seq<([u8; 4], [u8; 2])>), int),
            PrimError,
        >(((ws, bs), p + 12 * ws.len())),
{
    let n = ws.len() as int;
    let c = Seq::new(ws.len(), |i: int| weight_bone_bytes(ws[i], bs[i]));
    assert forall|i: int| 0 <= i < c.len() implies (#[trigger] c[i]).len() == 12 by {}
    lemma_fixed_chunks(c, 12);
    let rw = Seq::new(n as nat, |i: int| weight_bone_at(d, p + 12 * i).0);
    let rb = Seq::new(n as nat, |i: int| weight_bone_at(d, p + 12 * i).1);
    assert forall|i: int| 0 <= i < n implies rw[i] == ws[i] && rb[i] == bs[i] by {
        lemma_chunk_at(d, p, c, 12, i);
        assert(i * 12 == 12 * i);
        lemma_weight_bone_back(d, p + 12 * i, ws[i], bs[i]);
    }
    assert(rw =~= ws);
    assert(rb =~= bs);
}

/// The per-vertex record of vertex `i` read back from its bytes at `q`.
proof fn lemma_record_back(d: Seq<u8>, q: int, v: VerticesModel, i: int, alt: bool, hi: bool)
    requires
        0 <= q,
        0 <= i < v.positions.len(),
        i < v.normals.len(),
        i < v.tangents.len(),
        i < v.bitangents.len(),
        i < v.uvs.len(),
        (v.positions[i] is HiRes) == hi,
        q + record_size(alt, hi) <= d.len(),
        d.subrange(q, q + record_size(alt, hi)) == record_bytes(v, i, alt),
    ensures
        alt ==> position_at(d, q, hi) == v.positions[i],
        bytes4_at(d, q + record_attrs(alt, hi)) == v.normals[i],
        bytes4_at(d, q + record_attrs(alt, hi) + 4) == v.tangents[i],
        bytes4_at(d, q + record_attrs(alt, hi) + 8) == v.bitangents[i],
        [u16_at(d, q + record_attrs(alt, hi) + 12), u16_at(d, q + record_attrs(alt, hi) + 14)] == v.uvs[i],
{
    broadcast use vstd::array::group_array_axioms;

    let o = record_attrs(alt, hi);
    let rec = record_bytes(v, i, alt);
    let pb = if alt {
        position_bytes(v.positions[i])
    } else {
        Seq::<u8>::empty()
    };
    match v.positions[i] {
        Position::HiRes(a) => lemma_u32s_bytes(a@),
        Position::Packed(a) => lemma_u16s_bytes(a@),
    }
    assert(pb.len() == o);
    assert(rec == pb + v.normals[i]@ + v.tangents[i]@ + v.bitangents[i]@ + u16s_bytes(v.uvs[i]@));
    lemma_u16s_bytes(v.uvs[i]@);
    if alt {
        assert(d.subrange(q, q + position_size(hi)) =~= rec.subrange(0, position_size(hi)));
        assert(rec.subrange(0, position_size(hi)) =~= pb);
        lemma_position_back(d, q, v.positions[i], hi);
    }
    assert(d.subrange(q + o, q + o + 4) =~= rec.subrange(o, o + 4));
    assert(rec.subrange(o, o + 4) =~= v.normals[i]@);
    lemma_bytes4_back(d, q + o, v.normals[i]);
    assert(d.subrange(q + o + 4, q + o + 8) =~= rec.subrange(o + 4, o + 8));
    assert(rec.subrange(o + 4, o + 8) =~= v.tangents[i]@);
    lemma_bytes4_back(d, q + o + 4, v.tangents[i]);
    assert(d.subrange(q + o + 8, q + o + 12) =~= rec.subrange(o + 8, o + 12));
    assert(rec.subrange(o + 8, o + 12) =~= v.bitangents[i]@);
    lemma_bytes4_back(d, q + o + 8, v.bitangents[i]);
    assert(d.subrange(q + o + 12, q + o + 16) =~= rec.subrange(o + 12, o + 16));
    assert(rec.subrange(o + 12, o + 16) =~= u16s_bytes(v.uvs[i]@));
    lemma_u16_in(d, q + o + 12, v.uvs[i]@, 0);
    lemma_u16_in(d, q + o + 12, v.uvs[i]@, 1);
    assert([u16_at(d, q + o + 12), u16_at(d, q + o + 14)] =~= v.uvs[i]);
}

/// Per-vertex records read back from their bytes.
proof fn lemma_records_section(d: Seq<u8>, p: int, v: VerticesModel, alt: bool, hi: bool)
    requires
        0 <= p,
        v.normals.len() == v.positions.len(),
        v.tangents.len() == v.positions.len(),
        v.bitangents.len() == v.positions.len(),
        v.uvs.len() == v.positions.len(),
        forall|i: int| 0 <= i < v.positions.len() ==> ((#[trigger] v.positions[i]) is HiRes) == hi,
        p + records_bytes(v, alt).len() <= d.len(),
        d.subrange(p, p + records_bytes(v, alt).len())
            == records_bytes(v, alt),
    ensures
        records_bytes(v, alt).len() == v.positions.len()
            * record_size(alt, hi),
        take_records(d, p, v.positions.len() as int, alt, hi) == Ok::<(VertexRecords, int), PrimError>(
            (
                VertexRecords {
                    positions: if alt {
                        v.positions
                    } else {
                        Seq::empty()
                    },
                    normals: v.normals,
                    tangents: v.tangents,
                    bitangents: v.bitangents,
                    uvs: v.uvs,
                },
                p + v.positions.len() * record_size(alt, hi),
            ),
        ),
{
    let n = v.positions.len() as int;
    let k = record_size(alt, hi);
    let o = record_attrs(alt, hi);
    let c = Seq::new(v.positions.len(), |i: int| record_bytes(v, i, alt));
    assert forall|i: int| 0 <= i < c.len() implies (#[trigger] c[i]).len() == k by {
        match v.positions[i] {
            Position::HiRes(a) => lemma_u32s_bytes(a@),
            Position::Packed(a) => lemma_u16s_bytes(a@),
        }
        lemma_u16s_bytes(v.uvs[i]@);
    }
    lemma_fixed_chunks(c, k);
    let rp = Seq::new(n as nat, |i: int| position_at(d, p + i * k, hi));
    let rn = Seq::new(n as nat, |i: int| bytes4_at(d, p + i * k + o));
    let rt = Seq::new(n as nat, |i: int| bytes4_at(d, p + i * k + o + 4));
    let rbt = Seq::new(n as nat, |i: int| bytes4_at(d, p + i * k + o + 8));
    let ru = Seq::new(n as nat, |i: int| [u16_at(d, p + i * k + o + 12), u16_at(d, p + i * k + o + 14)]);
    assert forall|i: int| 0 <= i < n implies (alt ==> rp[i] == v.positions[i]) && rn[i] == v.normals[i] && rt[i]
        == v.tangents[i] && rbt[i] == v.bitangents[i] && ru[i] == v.uvs[i] by {
        lemma_chunk_at(d, p, c, k, i);
        lemma_record_back(d, p + i * k, v, i, alt, hi);
    }
    assert(rn =~= v.normals);
    assert(rt =~= v.tangents);
    assert(rbt =~= v.bitangents);
    assert(ru =~= v.uvs);
    if alt {
        assert(rp =~= v.positions);
    }
    if n == 0 {
        assert(v.normals =~= Seq::<[u8; 4]>::empty());
        assert(v.tangents =~= Seq::<[u8; 4]>::empty());
        assert(v.bitangents =~= Seq::<[u8; 4]>::empty());
        assert(v.uvs =~= Seq::<[u16; 2]>::empty());
        assert(v.positions =~= Seq::<Position>::empty());
    }
}

/// Colours read back from their bytes.
proof fn lemma_colors_section(d: Seq<u8>, p: int, cs: Seq<[u8; 4]>)
    requires
        0 <= p,
        p + colors_bytes(cs).len() <= d.len(),
        d.subrange(p, p + colors_bytes(cs).len()) == colors_bytes(cs),
    ensures
        colors_bytes(cs).len() == 4 * cs.len(),
        take_color_bytes(d, p, cs.len() as int) == Ok::<(Seq<[u8; 4]>, int), PrimError>(
            (cs, p + 4 * cs.len()),
        ),
{
    let n = cs.len() as int;
    let c = Seq::new(cs.len(), |i: int| cs[i]@);
    assert forall|i: int| 0 <= i < c.len() implies (#[trigger] c[i]).len() == 4 by {}
    lemma_fixed_chunks(c, 4);
    let rc = Seq::new(n as nat, |i: int| bytes4_at(d, p + 4 * i));
    assert forall|i: int| 0 <= i < n implies rc[i] == cs[i] by {
        lemma_chunk_at(d, p, c, 4, i);
        assert(i * 4 == 4 * i);
        lemma_bytes4_back(d, p + 4 * i, cs[i]);
    }
    assert(rc =~= cs);
    if n == 0 {
        assert(cs =~= Seq::<[u8; 4]>::empty());
    }
}

/// Reading vertices gives `v` where each of its sections reads back its part of `v`.
proof fn lemma_vertices_compose(
    d: Seq<u8>,
    p: int,
    v: VerticesModel,
    header_flags: u32,
    draw_destination: u8,
    mesh_flags: u8,
    sub_flags: u8,
    color1: Option<u32>,
    n: u32,
    p1: int,
    p2: int,
    p3: int,
    p4: int,
)
    requires
        (if has_alt_packing(draw_destination) {
            Ok((Seq::<Position>::empty(), p))
        } else {
            take_positions(d, p, n as int, has_hi_res_positions(mesh_flags))
        }) == Ok::<(Seq<Position>, int), PrimError>(
            (
                if has_alt_packing(draw_destination) {
                    Seq::<Position>::empty()
                } else {
                    v.positions
                },
                p1,
            ),
        ),
        (if is_weighted(header_flags) {
            take_weights_and_bones(d, p1, n as int)
        } else {
            Ok(((Seq::empty(), Seq::empty()), p1))
        }) == Ok::<((Seq<([u8; 4], [u8; 2])>, Seq<([u8; 4], [u8; 2])>), int), PrimError>(
            ((v.weights, v.bones), p2),
        ),
        take_records(d, p2, n as int, has_alt_packing(draw_destination), has_hi_res_positions(mesh_flags)) == Ok::<
            (VertexRecords, int),
            PrimError,
        >(
            (
                VertexRecords {
                    positions: if has_alt_packing(draw_destination) {
                        v.positions
                    } else {
                        Seq::empty()
                    },
                    normals: v.normals,
                    tangents: v.tangents,
                    bitangents: v.bitangents,
                    uvs: v.uvs,
                },
                p3,
            ),
        ),
        take_colors(d, p3, n as int, colors_present(header_flags, mesh_flags), sub_flags, color1) == Ok::<
            (Seq<[u8; 4]>, int),
            PrimError,
        >((v.colors, p4)),
    ensures
        parse_vertices(d, p, header_flags, draw_destination, mesh_flags, sub_flags, color1, n) == Ok::<
            (VerticesModel, int),
            PrimError,
        >((v, p4)),
{
}

/// Vertices have the shape that reading them gives for a sub-mesh with `n`
/// vertices: every attribute has `n` entries (weights and bones only where
/// weighted, colours only where there are colours, all the single colour
/// where the sub-mesh has one), and every position is in the encoding that
/// the mesh's flags ask for.
pub open spec fn vertices_as_stored(
    v: VerticesModel,
    n: u32,
    header_flags: u32,
    mesh_flags: u8,
    sub_flags: u8,
    color1: Option<u32>,
) -> bool {
    &&& v.positions.len() == n
    &&& forall|i: int|
        0 <= i < n ==> ((#[trigger] v.positions[i]) is HiRes) == has_hi_res_positions(mesh_flags)
    &&& v.normals.len() == n
    &&& v.tangents.len() == n
    &&& v.bitangents.len() == n
    &&& v.uvs.len() == n
    &&& if is_weighted(header_flags) {
        v.weights.len() == n && v.bones.len() == n
    } else {
        v.weights.len() == 0 && v.bones.len() == 0
    }
    &&& if !colors_present(header_flags, mesh_flags) {
        v.colors.len() == 0
    } else if has_color1(sub_flags) {
        v.colors == Seq::new(n as nat, |i: int| color_of(color1))
    } else {
        v.colors.len() == n
    }
}

/// Reading back vertices written for a sub-mesh gives them, where they have
/// the shape that reading gives.
#[verifier::rlimit(30)]
pub proof fn lemma_vertices_roundtrip(
    pre: Seq<u8>,
    v: VerticesModel,
    post: Seq<u8>,
    header_flags: u32,
    draw_destination: u8,
    mesh_flags: u8,
    sub_flags: u8,
    color1: Option<u32>,
    n: u32,
)
    requires
        vertices_as_stored(v, n, header_flags, mesh_flags, sub_flags, color1),
    ensures
        ({
            let x = vertices_bytes(
                v,
                has_alt_packing(draw_destination),
                is_weighted(header_flags),
                writes_colors(header_flags, mesh_flags, sub_flags),
            );
            parse_vertices(
                aligned(pre + x, 16) + post,
                pre.len() as int,
                header_flags,
                draw_destination,
                mesh_flags,
                sub_flags,
                color1,
                n,
            ) == Ok::<(VerticesModel, int), PrimError>((v, pre.len() + x.len() as int))
        }),
{
    let alt = has_alt_packing(draw_destination);
    let hi = has_hi_res_positions(mesh_flags);
    let w = is_weighted(header_flags);
    let wc = writes_colors(header_flags, mesh_flags, sub_flags);
    let x = vertices_bytes(v, alt, w, wc);
    let d = aligned(pre + x, 16) + post;
    let p = pre.len() as int;
    let sa = if alt {
        Seq::<u8>::empty()
    } else {
        positions_bytes(v.positions)
    };
    let sb = if w {
        weights_bones_bytes(v.weights, v.bones)
    } else {
        Seq::<u8>::empty()
    };
    let sc = records_bytes(v, alt);
    let sd = if wc {
        colors_bytes(v.colors)
    } else {
        Seq::<u8>::empty()
    };
    assert(x == sa + sb + sc + sd);
    let p1 = p + sa.len();
    let p2 = p1 + sb.len();
    let p3 = p2 + sc.len();
    let p4 = p3 + sd.len();
    lemma_four_parts(pre, sa, sb, sc, sd, post);
    assert(p4 == pre.len() + x.len());
    let nn = n as int;
    let pos0 = if alt {
        Seq::<Position>::empty()
    } else {
        v.positions
    };
    if !alt {
        lemma_positions_section(d, p, v.positions, hi);
    }
    if w {
        lemma_weights_section(d, p1, v.weights, v.bones);
    } else {
        assert(v.weights =~= Seq::<([u8; 4], [u8; 2])>::empty());
        assert(v.bones =~= Seq::<([u8; 4], [u8; 2])>::empty());
    }
    lemma_records_section(d, p2, v, alt, hi);
    if wc {
        lemma_colors_section(d, p3, v.colors);
    } else if !colors_present(header_flags, mesh_flags) {
        assert(v.colors =~= Seq::<[u8; 4]>::empty());
    }
    lemma_vertices_compose(d, p, v, header_flags, draw_destination, mesh_flags, sub_flags, color1, n, p1, p2, p3, p4);
}

} // verus!

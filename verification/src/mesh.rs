//! Meshes, weighted meshes and their sub-meshes.

use crate::chunks::{
    parse_bone_indices, parse_bone_info, parse_cloth, parse_collision, parse_copy_bones, parse_indices,
    BoneIndices, BoneInfo, Cloth, Collision, CollisionModel, CopyBones, Indices,
};
use crate::chunks::{bone_indices_bytes, collision_bytes};
use crate::io::{
    align, aligned, low_u32, read_u32_array, read_u8_array, take_u32, u16s_bytes, u32_at, u32s_bytes,
    write_u32_into, write_u8_into, Parsed, PrimError, Reader, Writer,
};
use crate::object::{color1_or_zero, object_bytes};
use crate::vertices::{
    has_alt_packing, is_weighted, positions_encoded, vertices_bytes, writes_colors, Position,
};
use vstd::bytes::*;
use crate::object::{has_extended_fields, parse_object, SPrimObject};
use crate::version::GameVersion;
use crate::vertices::{parse_vertices, Vertices, VerticesModel};
use vstd::prelude::*;

verus! {

/// The view of an optional part.
pub open spec fn opt_view<T: View>(o: Option<T>) -> Option<T::V> {
    match o {
        Some(x) => Some(x@),
        None => None,
    }
}

/// A sub-mesh: its object header, counts and offsets, and the parts that the
/// offsets point to.
pub struct SPrimSubMesh {
    pub object: SPrimObject,
    pub num_vertices: u32,
    pub offset_vertices: u32,
    pub vertices: Option<Vertices>,
    pub num_indices: u32,
    pub num_indices_extra: Option<u32>,
    pub offset_indices: u32,
    pub indices: Option<Indices>,
    pub offset_collision: u32,
    pub collision: Option<Collision>,
    pub offset_cloth: u32,
    pub cloth: Option<Cloth>,
    pub num_uv_channels: u32,
}

/// The contents of an [`SPrimSubMesh`].
pub struct SubMeshModel {
    pub object: SPrimObject,
    pub num_vertices: u32,
    pub offset_vertices: u32,
    pub vertices: Option<VerticesModel>,
    pub num_indices: u32,
    pub num_indices_extra: Option<u32>,
    pub offset_indices: u32,
    pub indices: Option<Seq<u16>>,
    pub offset_collision: u32,
    pub collision: Option<CollisionModel>,
    pub offset_cloth: u32,
    pub cloth: Option<Seq<u8>>,
    pub num_uv_channels: u32,
}

impl View for SPrimSubMesh {
    type V = SubMeshModel;

    open spec fn view(&self) -> SubMeshModel {
        SubMeshModel {
            object: self.object,
            num_vertices: self.num_vertices,
            offset_vertices: self.offset_vertices,
            vertices: opt_view(self.vertices),
            num_indices: self.num_indices,
            num_indices_extra: self.num_indices_extra,
            offset_indices: self.offset_indices,
            indices: opt_view(self.indices),
            offset_collision: self.offset_collision,
            collision: opt_view(self.collision),
            offset_cloth: self.offset_cloth,
            cloth: opt_view(self.cloth),
            num_uv_channels: self.num_uv_channels,
        }
    }
}

/// A mesh: its object header, the offset of its sub-mesh table, its
/// sub-mesh, and the scales and biases (32-bit floats, held as bit patterns)
/// that map packed positions and texture coordinates.
pub struct SPrimMesh {
    pub object: SPrimObject,
    pub sub_mesh_table: u32,
    pub sub_mesh: Option<SPrimSubMesh>,
    pub position_scale: [u32; 4],
    pub position_bias: [u32; 4],
    pub uv_scale: [u32; 2],
    pub uv_bias: [u32; 2],
    pub cloth_id: u8,
    pub pad: [u8; 3],
}

/// The contents of an [`SPrimMesh`].
pub struct MeshModel {
    pub object: SPrimObject,
    pub sub_mesh_table: u32,
    pub sub_mesh: Option<SubMeshModel>,
    pub position_scale: [u32; 4],
    pub position_bias: [u32; 4],
    pub uv_scale: [u32; 2],
    pub uv_bias: [u32; 2],
    pub cloth_id: u8,
    pub pad: [u8; 3],
}

impl View for SPrimMesh {
    type V = MeshModel;

    open spec fn view(&self) -> MeshModel {
        MeshModel {
            object: self.object,
            sub_mesh_table: self.sub_mesh_table,
            sub_mesh: opt_view(self.sub_mesh),
            position_scale: self.position_scale,
            position_bias: self.position_bias,
            uv_scale: self.uv_scale,
            uv_bias: self.uv_bias,
            cloth_id: self.cloth_id,
            pad: self.pad,
        }
    }
}

/// `r` is what an executable read returned and `s` what the format says
/// the read gives, where the reader's position after it does not matter.
pub open spec fn yields<T: View>(r: Result<T, PrimError>, s: Result<T::V, PrimError>) -> bool {
    match s {
        Ok(v) => r matches Ok(x) && x@ == v,
        Err(e) => r == Err::<T, PrimError>(e),
    }
}

/// The size of the counts and offsets that follow a sub-mesh's object.
pub open spec fn sub_mesh_fields_size(v: GameVersion) -> int {
    if has_extended_fields(v) {
        32
    } else {
        28
    }
}

/// The counts and offsets of the sub-mesh stored at `p`, with no parts yet.
pub open spec fn sub_mesh_fields_at(d: Seq<u8>, p: int, object: SPrimObject, v: GameVersion) -> SubMeshModel {
    let c = if has_extended_fields(v) {
        4int
    } else {
        0
    };
    SubMeshModel {
        object,
        num_vertices: u32_at(d, p),
        offset_vertices: u32_at(d, p + 4),
        vertices: None,
        num_indices: u32_at(d, p + 8),
        num_indices_extra: if has_extended_fields(v) {
            Some(u32_at(d, p + 12))
        } else {
            None
        },
        offset_indices: u32_at(d, p + 12 + c),
        indices: None,
        offset_collision: u32_at(d, p + 16 + c),
        collision: None,
        offset_cloth: u32_at(d, p + 20 + c),
        cloth: None,
        num_uv_channels: u32_at(d, p + 24 + c),
    }
}

/// Reading the object, counts and offsets of a sub-mesh from `p`.
pub open spec fn parse_sub_mesh_fields(d: Seq<u8>, p: int, v: GameVersion) -> Parsed<SubMeshModel> {
    match parse_object(d, p, v) {
        Err(e) => Err(e),
        Ok((object, p1)) => if p1 + sub_mesh_fields_size(v) <= d.len() {
            Ok((sub_mesh_fields_at(d, p1, object, v), p1 + sub_mesh_fields_size(v)))
        } else {
            Err(PrimError::UnexpectedEnd)
        },
    }
}

/// Reading the vertices a sub-mesh points to, where it has vertices and a
/// vertex offset.
pub open spec fn with_vertices(
    d: Seq<u8>,
    s: SubMeshModel,
    header_flags: u32,
    draw_destination: u8,
    mesh_flags: u8,
) -> Result<SubMeshModel, PrimError> {
    if s.num_vertices > 0 && s.offset_vertices > 0 {
        match parse_vertices(
            d,
            s.offset_vertices as int,
            header_flags,
            draw_destination,
            mesh_flags,
            s.object.flags,
            s.object.color1,
            s.num_vertices,
        ) {
            Err(e) => Err(e),
            Ok((vs, _)) => Ok(SubMeshModel { vertices: Some(vs), ..s }),
        }
    } else {
        Ok(s)
    }
}

/// Reading the indices a sub-mesh points to, where it has indices and an
/// index offset.
pub open spec fn with_indices(d: Seq<u8>, s: SubMeshModel) -> Result<SubMeshModel, PrimError> {
    if s.num_indices > 0 && s.offset_indices > 0 {
        match parse_indices(d, s.offset_indices as int, s.num_indices, s.num_indices_extra) {
            Err(e) => Err(e),
            Ok((ix, _)) => Ok(SubMeshModel { indices: Some(ix), ..s }),
        }
    } else {
        Ok(s)
    }
}

/// Reading the collision data a sub-mesh points to, where it has an offset.
pub open spec fn with_collision(d: Seq<u8>, s: SubMeshModel) -> Result<SubMeshModel, PrimError> {
    if s.offset_collision > 0 {
        match parse_collision(d, s.offset_collision as int) {
            Err(e) => Err(e),
            Ok((c, _)) => Ok(SubMeshModel { collision: Some(c), ..s }),
        }
    } else {
        Ok(s)
    }
}

/// Reading the cloth data a sub-mesh points to, where it has an offset and
/// the layout is HM2016's or WOA's.
pub open spec fn with_cloth(d: Seq<u8>, s: SubMeshModel, cloth_id: u8, v: GameVersion) -> Result<
    SubMeshModel,
    PrimError,
> {
    if s.offset_cloth > 0 && has_extended_fields(v) {
        match parse_cloth(d, s.offset_cloth as int, s.num_vertices, cloth_id) {
            Err(e) => Err(e),
            Ok((c, _)) => Ok(SubMeshModel { cloth: Some(c), ..s }),
        }
    } else {
        Ok(s)
    }
}

/// Reading the sub-mesh stored at `p` and the parts it points to, for a
/// mesh with `draw_destination`, `mesh_flags` and `cloth_id`.
pub open spec fn parse_sub_mesh(
    d: Seq<u8>,
    p: int,
    header_flags: u32,
    draw_destination: u8,
    mesh_flags: u8,
    cloth_id: u8,
    v: GameVersion,
) -> Result<SubMeshModel, PrimError> {
    match parse_sub_mesh_fields(d, p, v) {
        Err(e) => Err(e),
        Ok((s0, _)) => match with_vertices(d, s0, header_flags, draw_destination, mesh_flags) {
            Err(e) => Err(e),
            Ok(s1) => match with_indices(d, s1) {
                Err(e) => Err(e),
                Ok(s2) => match with_collision(d, s2) {
                    Err(e) => Err(e),
                    Ok(s3) => with_cloth(d, s3, cloth_id, v),
                },
            },
        },
    }
}

/// Where reading the sub-mesh stored at `p` leaves the reader: after the
/// last of its cloth data, collision data, indices, vertices and record that
/// it read, in that order of preference.
pub open spec fn sub_mesh_end(
    d: Seq<u8>,
    p: int,
    header_flags: u32,
    draw_destination: u8,
    mesh_flags: u8,
    cloth_id: u8,
    v: GameVersion,
) -> int {
    let (s0, pf) = parse_sub_mesh_fields(d, p, v)->Ok_0;
    let e1 = if s0.num_vertices > 0 && s0.offset_vertices > 0 {
        parse_vertices(
            d,
            s0.offset_vertices as int,
            header_flags,
            draw_destination,
            mesh_flags,
            s0.object.flags,
            s0.object.color1,
            s0.num_vertices,
        )->Ok_0.1
    } else {
        pf
    };
    let e2 = if s0.num_indices > 0 && s0.offset_indices > 0 {
        parse_indices(d, s0.offset_indices as int, s0.num_indices, s0.num_indices_extra)->Ok_0.1
    } else {
        e1
    };
    let e3 = if s0.offset_collision > 0 {
        parse_collision(d, s0.offset_collision as int)->Ok_0.1
    } else {
        e2
    };
    if s0.offset_cloth > 0 && has_extended_fields(v) {
        parse_cloth(d, s0.offset_cloth as int, s0.num_vertices, cloth_id)->Ok_0.1
    } else {
        e3
    }
}

impl SPrimSubMesh {
    /// Reads the sub-mesh at the reader's position and the parts it points
    /// to, for `mesh`.
    pub fn read(reader: &mut Reader, header_flags: u32, mesh: &SPrimMesh, input_version: &GameVersion) -> (r:
        Result<SPrimSubMesh, PrimError>)
        ensures
            final(reader).data@ == old(reader).data@,
            yields(
                r,
                parse_sub_mesh(
                    old(reader).data@,
                    old(reader).pos as int,
                    header_flags,
                    mesh.object.header.draw_destination,
                    mesh.object.flags,
                    mesh.cloth_id,
                    *input_version,
                ),
            ),
            r is Ok ==> final(reader).pos == sub_mesh_end(
                old(reader).data@,
                old(reader).pos as int,
                header_flags,
                mesh.object.header.draw_destination,
                mesh.object.flags,
                mesh.cloth_id,
                *input_version,
            ),
    {
        let ghost d = reader.data@;
        let ghost p = reader.pos as int;
        let object = SPrimObject::read(reader, input_version)?;
        let ghost p1 = reader.pos as int;
        let num_vertices = reader.read_u32()?;
        let offset_vertices = reader.read_u32()?;
        let num_indices = reader.read_u32()?;
        let num_indices_extra = match input_version {
            GameVersion::Hma | GameVersion::Alpha => None,
            GameVersion::Hm2016 | GameVersion::Woa => Some(reader.read_u32()?),
        };
        let offset_indices = reader.read_u32()?;
        let offset_collision = reader.read_u32()?;
        let offset_cloth = reader.read_u32()?;
        let num_uv_channels = reader.read_u32()?;
        let mut sub_mesh = SPrimSubMesh {
            object,
            num_vertices,
            offset_vertices,
            vertices: None,
            num_indices,
            num_indices_extra,
            offset_indices,
            indices: None,
            offset_collision,
            collision: None,
            offset_cloth,
            cloth: None,
            num_uv_channels,
        };
        let ghost s0 = sub_mesh@;
        assert(parse_sub_mesh_fields(d, p, *input_version) == Ok::<(SubMeshModel, int), PrimError>(
            (s0, reader.pos as int),
        ));
        if sub_mesh.num_vertices > 0 && sub_mesh.offset_vertices > 0 {
            reader.seek(sub_mesh.offset_vertices as usize);
            let vertices = Vertices::read(reader, header_flags, mesh, &sub_mesh)?;
            sub_mesh.vertices = Some(vertices);
        }
        let ghost s1 = sub_mesh@;
        assert(with_vertices(d, s0, header_flags, mesh.object.header.draw_destination, mesh.object.flags)
            == Ok::<SubMeshModel, PrimError>(s1));
        if sub_mesh.num_indices > 0 && sub_mesh.offset_indices > 0 {
            reader.seek(sub_mesh.offset_indices as usize);
            let indices = Indices::read(reader, &sub_mesh)?;
            sub_mesh.indices = Some(indices);
        }
        let ghost s2 = sub_mesh@;
        assert(with_indices(d, s1) == Ok::<SubMeshModel, PrimError>(s2));
        if sub_mesh.offset_collision > 0 {
            reader.seek(sub_mesh.offset_collision as usize);
            let collision = Collision::read(reader)?;
            sub_mesh.collision = Some(collision);
        }
        let ghost s3 = sub_mesh@;
        assert(with_collision(d, s2) == Ok::<SubMeshModel, PrimError>(s3));
        if sub_mesh.offset_cloth > 0 {
            match input_version {
                GameVersion::Hm2016 | GameVersion::Woa => {
                    reader.seek(sub_mesh.offset_cloth as usize);
                    let cloth = Cloth::read(reader, &sub_mesh, mesh.cloth_id)?;
                    sub_mesh.cloth = Some(cloth);
                },
                _ => (),
            }
        }
        assert(with_cloth(d, s3, mesh.cloth_id, *input_version) == Ok::<SubMeshModel, PrimError>(sub_mesh@));
        Ok(sub_mesh)
    }
}

/// A weighted mesh: a mesh and the bone data that it points to.
pub struct SPrimMeshWeighted {
    pub mesh: SPrimMesh,
    pub num_copy_bones: u32,
    pub offset_copy_bones: u32,
    pub copy_bones: Option<CopyBones>,
    pub offset_bone_indicies: u32,
    pub bone_indicies: Option<BoneIndices>,
    pub offset_bone_info: u32,
    pub bone_info: Option<BoneInfo>,
}

/// The contents of an [`SPrimMeshWeighted`].
pub struct WeightedModel {
    pub mesh: MeshModel,
    pub num_copy_bones: u32,
    pub offset_copy_bones: u32,
    pub copy_bones: Option<Seq<u32>>,
    pub offset_bone_indicies: u32,
    pub bone_indicies: Option<Seq<u16>>,
    pub offset_bone_info: u32,
    pub bone_info: Option<Seq<u8>>,
}

impl View for SPrimMeshWeighted {
    type V = WeightedModel;

    open spec fn view(&self) -> WeightedModel {
        WeightedModel {
            mesh: self.mesh@,
            num_copy_bones: self.num_copy_bones,
            offset_copy_bones: self.offset_copy_bones,
            copy_bones: opt_view(self.copy_bones),
            offset_bone_indicies: self.offset_bone_indicies,
            bone_indicies: opt_view(self.bone_indicies),
            offset_bone_info: self.offset_bone_info,
            bone_info: opt_view(self.bone_info),
        }
    }
}

/// Four little-endian `u32` values from `q` on.
pub open spec fn u32x4_at(d: Seq<u8>, q: int) -> [u32; 4] {
    [u32_at(d, q), u32_at(d, q + 4), u32_at(d, q + 8), u32_at(d, q + 12)]
}

/// Two little-endian `u32` values from `q` on.
pub open spec fn u32x2_at(d: Seq<u8>, q: int) -> [u32; 2] {
    [u32_at(d, q), u32_at(d, q + 4)]
}

/// The fields that follow a mesh's object at `q`, with no sub-mesh yet: the
/// sub-mesh table offset, the position scale and bias, the texture
/// coordinate scale and bias, the cloth id and three bytes of padding.
pub open spec fn mesh_fields_at(d: Seq<u8>, q: int, object: SPrimObject) -> MeshModel {
    MeshModel {
        object,
        sub_mesh_table: u32_at(d, q),
        sub_mesh: None,
        position_scale: u32x4_at(d, q + 4),
        position_bias: u32x4_at(d, q + 20),
        uv_scale: u32x2_at(d, q + 36),
        uv_bias: u32x2_at(d, q + 44),
        cloth_id: d[q + 52],
        pad: [d[q + 53], d[q + 54], d[q + 55]],
    }
}

/// Reading the fields of the mesh stored at `p`, without its sub-mesh.
pub open spec fn parse_mesh_fields(d: Seq<u8>, p: int, v: GameVersion) -> Parsed<MeshModel> {
    match parse_object(d, p, v) {
        Err(e) => Err(e),
        Ok((object, p1)) => if p1 + 56 <= d.len() {
            Ok((mesh_fields_at(d, p1, object), p1 + 56))
        } else {
            Err(PrimError::UnexpectedEnd)
        },
    }
}

/// Reading the mesh stored at `p`: its fields, then the sub-mesh that the
/// first entry of its sub-mesh table points to. The position after it is the
/// end of its fields.
pub open spec fn parse_mesh(d: Seq<u8>, p: int, header_flags: u32, v: GameVersion) -> Parsed<MeshModel> {
    match parse_mesh_fields(d, p, v) {
        Err(e) => Err(e),
        Ok((m, q)) => match take_u32(d, m.sub_mesh_table as int) {
            Err(e) => Err(e),
            Ok((offset, _)) => match parse_sub_mesh(
                d,
                offset as int,
                header_flags,
                m.object.header.draw_destination,
                m.object.flags,
                m.cloth_id,
                v,
            ) {
                Err(e) => Err(e),
                Ok(sm) => Ok((MeshModel { sub_mesh: Some(sm), ..m }, q)),
            },
        },
    }
}

/// Reads `n` `u32` values into an array of `n` (for `n` of 4 or 2).
fn read_u32x4(reader: &mut Reader) -> (r: Result<[u32; 4], PrimError>)
    ensures
        final(reader).data@ == old(reader).data@,
        match r {
            Ok(a) => old(reader).pos + 16 <= old(reader).data@.len() && final(reader).pos == old(
                reader,
            ).pos + 16 && a == u32x4_at(old(reader).data@, old(reader).pos as int),
            Err(e) => e == PrimError::UnexpectedEnd && old(reader).pos + 16 > old(reader).data@.len(),
        },
{
    let ghost d = reader.data@;
    let ghost p = reader.pos as int;
    let v = read_u32_array(reader, 4)?;
    assert(v@[1] == u32_at(d, p + 4));
    assert(v@[2] == u32_at(d, p + 8));
    assert(v@[3] == u32_at(d, p + 12));
    Ok([v[0], v[1], v[2], v[3]])
}

/// Reads two `u32` values into an array.
fn read_u32x2(reader: &mut Reader) -> (r: Result<[u32; 2], PrimError>)
    ensures
        final(reader).data@ == old(reader).data@,
        match r {
            Ok(a) => old(reader).pos + 8 <= old(reader).data@.len() && final(reader).pos == old(
                reader,
            ).pos + 8 && a == u32x2_at(old(reader).data@, old(reader).pos as int),
            Err(e) => e == PrimError::UnexpectedEnd && old(reader).pos + 8 > old(reader).data@.len(),
        },
{
    let ghost d = reader.data@;
    let ghost p = reader.pos as int;
    let v = read_u32_array(reader, 2)?;
    assert(v@[1] == u32_at(d, p + 4));
    Ok([v[0], v[1]])
}

impl SPrimMesh {
    /// Reads the mesh at the reader's position and the sub-mesh it points
    /// to; the reader ends after the mesh's fields.
    pub fn read(reader: &mut Reader, header_flags: u32, input_version: &GameVersion) -> (r: Result<
        SPrimMesh,
        PrimError,
    >)
        ensures
            final(reader).data@ == old(reader).data@,
            crate::io::reads_as(
                r,
                final(reader).pos,
                parse_mesh(old(reader).data@, old(reader).pos as int, header_flags, *input_version),
            ),
    {
        let ghost d = reader.data@;
        let ghost p = reader.pos as int;
        let object = SPrimObject::read(reader, input_version)?;
        let sub_mesh_table = reader.read_u32()?;
        let position_scale = read_u32x4(reader)?;
        let position_bias = read_u32x4(reader)?;
        let uv_scale = read_u32x2(reader)?;
        let uv_bias = read_u32x2(reader)?;
        let cloth_id = reader.read_u8()?;
        let pad_bytes = read_u8_array(reader, 3)?;
        let pad = [pad_bytes[0], pad_bytes[1], pad_bytes[2]];
        let mut mesh = SPrimMesh {
            object,
            sub_mesh_table,
            sub_mesh: None,
            position_scale,
            position_bias,
            uv_scale,
            uv_bias,
            cloth_id,
            pad,
        };
        let position = reader.position();
        assert(parse_mesh_fields(d, p, *input_version) == Ok::<(MeshModel, int), PrimError>(
            (mesh@, position as int),
        ));
        reader.seek(mesh.sub_mesh_table as usize);
        let object_offset = reader.read_u32()?;
        reader.seek(object_offset as usize);
        let sub_mesh = SPrimSubMesh::read(reader, header_flags, &mesh, input_version)?;
        mesh.sub_mesh = Some(sub_mesh);
        reader.seek(position);
        Ok(mesh)
    }
}

/// Reading the copy bones a weighted mesh points to, where it has copy
/// bones and an offset.
pub open spec fn with_copy_bones(d: Seq<u8>, w: WeightedModel) -> Result<WeightedModel, PrimError> {
    if w.num_copy_bones > 0 && w.offset_copy_bones > 0 {
        match parse_copy_bones(d, w.offset_copy_bones as int, w.num_copy_bones) {
            Err(e) => Err(e),
            Ok((c, _)) => Ok(WeightedModel { copy_bones: Some(c), ..w }),
        }
    } else {
        Ok(w)
    }
}

/// Reading the bone indices a weighted mesh points to, where it has an offset.
pub open spec fn with_bone_indices(d: Seq<u8>, w: WeightedModel, v: GameVersion) -> Result<
    WeightedModel,
    PrimError,
> {
    if w.offset_bone_indicies > 0 {
        match parse_bone_indices(d, w.offset_bone_indicies as int, v) {
            Err(e) => Err(e),
            Ok((b, _)) => Ok(WeightedModel { bone_indicies: Some(b), ..w }),
        }
    } else {
        Ok(w)
    }
}

/// Reading the bone info a weighted mesh points to, where it has an offset.
pub open spec fn with_bone_info(d: Seq<u8>, w: WeightedModel) -> Result<WeightedModel, PrimError> {
    if w.offset_bone_info > 0 {
        match parse_bone_info(d, w.offset_bone_info as int) {
            Err(e) => Err(e),
            Ok((b, _)) => Ok(WeightedModel { bone_info: Some(b), ..w }),
        }
    } else {
        Ok(w)
    }
}

/// Reading the weighted mesh stored at `p`: its mesh, a copy bone count and
/// three offsets, then the copy bones, bone indices and bone info they point to.
pub open spec fn parse_weighted(d: Seq<u8>, p: int, header_flags: u32, v: GameVersion) -> Result<
    WeightedModel,
    PrimError,
> {
    match parse_mesh(d, p, header_flags, v) {
        Err(e) => Err(e),
        Ok((m, q)) => if q + 16 <= d.len() {
            let w0 = WeightedModel {
                mesh: m,
                num_copy_bones: u32_at(d, q),
                offset_copy_bones: u32_at(d, q + 4),
                copy_bones: None,
                offset_bone_indicies: u32_at(d, q + 8),
                bone_indicies: None,
                offset_bone_info: u32_at(d, q + 12),
                bone_info: None,
            };
            match with_copy_bones(d, w0) {
                Err(e) => Err(e),
                Ok(w1) => match with_bone_indices(d, w1, v) {
                    Err(e) => Err(e),
                    Ok(w2) => with_bone_info(d, w2),
                },
            }
        } else {
            Err(PrimError::UnexpectedEnd)
        },
    }
}

/// Where reading the weighted mesh stored at `p` leaves the reader: after
/// the last of its bone info, bone indices, copy bones and record that it
/// read, in that order of preference.
pub open spec fn weighted_end(d: Seq<u8>, p: int, header_flags: u32, v: GameVersion) -> int {
    let q = parse_mesh(d, p, header_flags, v)->Ok_0.1;
    let num_copy_bones = u32_at(d, q);
    let offset_copy_bones = u32_at(d, q + 4);
    let offset_bone_indicies = u32_at(d, q + 8);
    let offset_bone_info = u32_at(d, q + 12);
    let e1 = if num_copy_bones > 0 && offset_copy_bones > 0 {
        parse_copy_bones(d, offset_copy_bones as int, num_copy_bones)->Ok_0.1
    } else {
        q + 16
    };
    let e2 = if offset_bone_indicies > 0 {
        parse_bone_indices(d, offset_bone_indicies as int, v)->Ok_0.1
    } else {
        e1
    };
    if offset_bone_info > 0 {
        parse_bone_info(d, offset_bone_info as int)->Ok_0.1
    } else {
        e2
    }
}

impl SPrimMeshWeighted {
    /// Reads the weighted mesh at the reader's position and the parts it
    /// points to.
    pub fn read(reader: &mut Reader, header_flags: u32, input_version: &GameVersion) -> (r: Result<
        SPrimMeshWeighted,
        PrimError,
    >)
        ensures
            final(reader).data@ == old(reader).data@,
            yields(r, parse_weighted(old(reader).data@, old(reader).pos as int, header_flags, *input_version)),
            r is Ok ==> final(reader).pos == weighted_end(
                old(reader).data@,
                old(reader).pos as int,
                header_flags,
                *input_version,
            ),
    {
        let ghost d = reader.data@;
        let mesh = SPrimMesh::read(reader, header_flags, input_version)?;
        let num_copy_bones = reader.read_u32()?;
        let offset_copy_bones = reader.read_u32()?;
        let offset_bone_indicies = reader.read_u32()?;
        let offset_bone_info = reader.read_u32()?;
        let mut mesh = SPrimMeshWeighted {
            mesh,
            num_copy_bones,
            offset_copy_bones,
            copy_bones: None,
            offset_bone_indicies,
            bone_indicies: None,
            offset_bone_info,
            bone_info: None,
        };
        let ghost w0 = mesh@;
        if mesh.num_copy_bones > 0 && mesh.offset_copy_bones > 0 {
            reader.seek(mesh.offset_copy_bones as usize);
            let c = CopyBones::read(reader, mesh.num_copy_bones)?;
            mesh.copy_bones = Some(c);
        }
        let ghost w1 = mesh@;
        assert(with_copy_bones(d, w0) == Ok::<WeightedModel, PrimError>(w1));
        if mesh.offset_bone_indicies > 0 {
            reader.seek(mesh.offset_bone_indicies as usize);
            let b = BoneIndices::read(reader, input_version)?;
            mesh.bone_indicies = Some(b);
        }
        let ghost w2 = mesh@;
        assert(with_bone_indices(d, w1, *input_version) == Ok::<WeightedModel, PrimError>(w2));
        if mesh.offset_bone_info > 0 {
            reader.seek(mesh.offset_bone_info as usize);
            let b = BoneInfo::read(reader)?;
            mesh.bone_info = Some(b);
        }
        assert(with_bone_info(d, w2) == Ok::<WeightedModel, PrimError>(mesh@));
        Ok(mesh)
    }
}

/// The low 32 bits of a position, as `position as u32` gives them.
pub open spec fn low32(x: int) -> u32 {
    (x % 0x1_0000_0000) as u32
}

/// A part written at the end of `buf`, padded to a multiple of 16, with the
/// offset it was written at; no bytes and offset 0 where there is no part.
pub open spec fn put_part(buf: Seq<u8>, part: Option<Seq<u8>>) -> (Seq<u8>, u32) {
    match part {
        Some(b) => (aligned(buf + b, 16), low32(buf.len() as int)),
        None => (buf, 0),
    }
}

/// The bytes of a sub-mesh's indices, where it has some.
pub open spec fn indices_part(s: SubMeshModel) -> Option<Seq<u8>> {
    match s.indices {
        Some(ix) => Some(u16s_bytes(ix)),
        None => None,
    }
}

/// The bytes of a sub-mesh's vertices, where it has some, for a mesh with
/// `draw_destination` and `mesh_flags`.
pub open spec fn vertices_part(s: SubMeshModel, header_flags: u32, draw_destination: u8, mesh_flags: u8) -> Option<
    Seq<u8>,
> {
    match s.vertices {
        Some(vs) => Some(
            vertices_bytes(
                vs,
                has_alt_packing(draw_destination),
                is_weighted(header_flags),
                writes_colors(header_flags, mesh_flags, s.object.flags),
            ),
        ),
        None => None,
    }
}

/// The bytes of a sub-mesh's collision data, where it has some.
pub open spec fn collision_part(s: SubMeshModel) -> Option<Seq<u8>> {
    match s.collision {
        Some(c) => Some(collision_bytes(c)),
        None => None,
    }
}

/// The texture coordinate channel count written for a sub-mesh: 1 for WOA,
/// else 0 for weighted meshes and 1 for others.
pub open spec fn uv_channels(header_flags: u32, v: GameVersion) -> u32 {
    if v == GameVersion::Woa {
        1
    } else if is_weighted(header_flags) {
        0
    } else {
        1
    }
}

/// The texture channel count written for a sub-mesh: 1 in the WOA layout;
/// in the HMA, ALPHA and HM2016 layouts, 0 exactly where the meshes are
/// weighted (bit 8 of the header flags) and 1 otherwise.
pub proof fn lemma_uv_channels(header_flags: u32, v: GameVersion)
    ensures
        v == GameVersion::Woa ==> uv_channels(header_flags, v) == 1,
        v != GameVersion::Woa ==> (uv_channels(header_flags, v) == 0 <==> header_flags & 8 == 8),
        v != GameVersion::Woa ==> (uv_channels(header_flags, v) == 1 <==> header_flags & 8 != 8),
        uv_channels(header_flags, v) <= 1,
{
}

/// The record of a sub-mesh ends with the texture channel count written
/// for its layout and header flags.
pub proof fn lemma_record_ends_with_uv_channels(
    s: SubMeshModel,
    offset_vertices: u32,
    offset_indices: u32,
    offset_collision: u32,
    offset_cloth: u32,
    header_flags: u32,
    v: GameVersion,
)
    ensures
        ({
            let rec = sub_mesh_record_bytes(s, offset_vertices, offset_indices, offset_collision, offset_cloth, header_flags, v);
            &&& rec.len() >= 4
            &&& spec_u32_from_le_bytes(rec.subrange(rec.len() - 4, rec.len() as int)) == (if header_flags & 8 == 8
                && v != GameVersion::Woa {
                0u32
            } else {
                1u32
            })
        }),
{
    lemma_auto_spec_u32_to_from_le_bytes();
    let rec = sub_mesh_record_bytes(s, offset_vertices, offset_indices, offset_collision, offset_cloth, header_flags, v);
    let last = spec_u32_to_le_bytes(uv_channels(header_flags, v));
    let front = rec.subrange(0, rec.len() - 4);
    assert(rec.len() >= 4);
    assert(rec.subrange(rec.len() - 4, rec.len() as int) =~= last);
}

/// The record of a sub-mesh: its object, counts and the offsets of its parts.
pub open spec fn sub_mesh_record_bytes(
    s: SubMeshModel,
    offset_vertices: u32,
    offset_indices: u32,
    offset_collision: u32,
    offset_cloth: u32,
    header_flags: u32,
    v: GameVersion,
) -> Seq<u8> {
    object_bytes(s.object, v) + spec_u32_to_le_bytes(s.num_vertices) + spec_u32_to_le_bytes(offset_vertices)
        + spec_u32_to_le_bytes(s.num_indices) + (if has_extended_fields(v) {
        spec_u32_to_le_bytes(color1_or_zero(s.num_indices_extra))
    } else {
        Seq::empty()
    }) + spec_u32_to_le_bytes(offset_indices) + spec_u32_to_le_bytes(offset_collision)
        + spec_u32_to_le_bytes(offset_cloth) + spec_u32_to_le_bytes(uv_channels(header_flags, v))
}

/// Writing the parts of a sub-mesh at the end of `buf`: its indices,
/// vertices, collision data and cloth data, each where present and each
/// padded to 16. Gives the new buffer and the offsets of the indices,
/// vertices, collision data and cloth data (0 for a part not there).
pub open spec fn write_sub_mesh_parts(
    buf: Seq<u8>,
    s: SubMeshModel,
    header_flags: u32,
    draw_destination: u8,
    mesh_flags: u8,
) -> (Seq<u8>, u32, u32, u32, u32) {
    let (b1, oi) = put_part(buf, indices_part(s));
    let b2 = aligned(b1, 16);
    let (b3, ov) = put_part(b2, vertices_part(s, header_flags, draw_destination, mesh_flags));
    let b4 = aligned(b3, 16);
    let (b5, oc) = put_part(b4, collision_part(s));
    let b6 = aligned(b5, 16);
    let (b7, ocl) = put_part(b6, s.cloth);
    (aligned(b7, 16), oi, ov, oc, ocl)
}

/// Writing a sub-mesh at the end of `buf` in the layout of `v`: its parts,
/// its record (padded to 16), then a one-entry table that points to the
/// record (padded to 16). Gives the new buffer and the offset of the table.
#[verifier::opaque]
pub open spec fn write_sub_mesh(
    buf: Seq<u8>,
    s: SubMeshModel,
    header_flags: u32,
    draw_destination: u8,
    mesh_flags: u8,
    v: GameVersion,
) -> (Seq<u8>, u32) {
    let (b8, oi, ov, oc, ocl) = write_sub_mesh_parts(buf, s, header_flags, draw_destination, mesh_flags);
    let oo = low32(b8.len() as int);
    let b9 = aligned(b8 + sub_mesh_record_bytes(s, ov, oi, oc, ocl, header_flags, v), 16);
    (aligned(b9 + spec_u32_to_le_bytes(oo), 16), low32(b9.len() as int))
}

/// The attributes of every vertex are there, every position is stored as
/// the mesh's flags say, and where the meshes are weighted, there is a bone
/// entry for every weight entry.
pub open spec fn vertices_writable(vs: VerticesModel, weighted: bool, mesh_flags: u8) -> bool {
    &&& positions_encoded(vs.positions, mesh_flags)
    &&& vs.normals.len() >= vs.positions.len()
    &&& vs.tangents.len() >= vs.positions.len()
    &&& vs.bitangents.len() >= vs.positions.len()
    &&& vs.uvs.len() >= vs.positions.len()
    &&& weighted ==> vs.bones.len() >= vs.weights.len()
}

/// The vertices of a sub-mesh of a mesh with `mesh_flags`, where it has
/// some, can be written.
pub open spec fn sub_mesh_writable(s: SubMeshModel, header_flags: u32, mesh_flags: u8) -> bool {
    s.vertices matches Some(vs) ==> vertices_writable(vs, is_weighted(header_flags), mesh_flags)
}

impl SPrimSubMesh {
    /// Writes the index buffer, where there is one, and returns its offset.
    fn write_indices_part(&self, writer: &mut Writer) -> (r: u32)
        requires
            old(writer).pos == old(writer).buf@.len(),
        ensures
            final(writer).pos == final(writer).buf@.len(),
            (final(writer).buf@, r) == put_part(old(writer).buf@, indices_part(self@)),
    {
        match &self.indices {
            Some(ix) => {
                let offset = low_u32(writer.position());
                ix.write(writer);
                offset
            },
            None => 0,
        }
    }

    /// Writes the vertices, where there are some, and returns their offset.
    fn write_vertices_part(&self, writer: &mut Writer, header_flags: u32, mesh: &SPrimMesh) -> (r: u32)
        requires
            old(writer).pos == old(writer).buf@.len(),
            sub_mesh_writable(self@, header_flags, mesh.object.flags),
        ensures
            final(writer).pos == final(writer).buf@.len(),
            (final(writer).buf@, r) == put_part(
                old(writer).buf@,
                vertices_part(self@, header_flags, mesh.object.header.draw_destination, mesh.object.flags),
            ),
    {
        match &self.vertices {
            Some(vs) => {
                let offset = low_u32(writer.position());
                vs.write(writer, header_flags, mesh, self);
                offset
            },
            None => 0,
        }
    }

    /// Writes the collision data, where there is some, and returns its offset.
    fn write_collision_part(&self, writer: &mut Writer) -> (r: u32)
        requires
            old(writer).pos == old(writer).buf@.len(),
        ensures
            final(writer).pos == final(writer).buf@.len(),
            (final(writer).buf@, r) == put_part(old(writer).buf@, collision_part(self@)),
    {
        match &self.collision {
            Some(c) => {
                let offset = low_u32(writer.position());
                c.write(writer);
                offset
            },
            None => 0,
        }
    }

    /// Writes the cloth data, where there is some, and returns its offset.
    fn write_cloth_part(&self, writer: &mut Writer) -> (r: u32)
        requires
            old(writer).pos == old(writer).buf@.len(),
        ensures
            final(writer).pos == final(writer).buf@.len(),
            (final(writer).buf@, r) == put_part(old(writer).buf@, self@.cloth),
    {
        match &self.cloth {
            Some(c) => {
                let offset = low_u32(writer.position());
                c.write(writer);
                offset
            },
            None => 0,
        }
    }

    /// Writes the parts, each padded to 16, and returns their offsets.
    fn write_parts(&self, writer: &mut Writer, header_flags: u32, mesh: &SPrimMesh) -> (r: (u32, u32, u32, u32))
        requires
            old(writer).pos == old(writer).buf@.len(),
            sub_mesh_writable(self@, header_flags, mesh.object.flags),
        ensures
            final(writer).pos == final(writer).buf@.len(),
            (final(writer).buf@, r.0, r.1, r.2, r.3) == write_sub_mesh_parts(
                old(writer).buf@,
                self@,
                header_flags,
                mesh.object.header.draw_destination,
                mesh.object.flags,
            ),
    {
        let offset_indices = self.write_indices_part(writer);
        align(writer, 0x10);
        let offset_vertices = self.write_vertices_part(writer, header_flags, mesh);
        align(writer, 0x10);
        let offset_collision = self.write_collision_part(writer);
        align(writer, 0x10);
        let offset_cloth = self.write_cloth_part(writer);
        align(writer, 0x10);
        (offset_indices, offset_vertices, offset_collision, offset_cloth)
    }

    /// Writes the record: object, counts and the offsets of the parts.
    #[verifier::rlimit(40)]
    fn write_record(
        &self,
        writer: &mut Writer,
        header_flags: u32,
        output_version: &GameVersion,
        offset_vertices: u32,
        offset_indices: u32,
        offset_collision: u32,
        offset_cloth: u32,
    )
        requires
            old(writer).pos == old(writer).buf@.len(),
        ensures
            final(writer).pos == final(writer).buf@.len(),
            final(writer).buf@ == old(writer).buf@ + sub_mesh_record_bytes(
                self@,
                offset_vertices,
                offset_indices,
                offset_collision,
                offset_cloth,
                header_flags,
                *output_version,
            ),
    {
        let ghost b8 = writer.buf@;
        self.object.write(writer, output_version);
        writer.write_u32(self.num_vertices);
        writer.write_u32(offset_vertices);
        writer.write_u32(self.num_indices);
        let num_indices_extra = match self.num_indices_extra {
            Some(e) => e,
            None => 0,
        };
        match output_version {
            GameVersion::Hma | GameVersion::Alpha => (),
            GameVersion::Hm2016 | GameVersion::Woa => writer.write_u32(num_indices_extra),
        }
        writer.write_u32(offset_indices);
        writer.write_u32(offset_collision);
        writer.write_u32(offset_cloth);
        let is_weighted = header_flags & 8 == 8;
        let num_uv_channels: u32 = match output_version {
            GameVersion::Hma | GameVersion::Alpha | GameVersion::Hm2016 => {
                if is_weighted {
                    0
                } else {
                    1
                }
            },
            GameVersion::Woa => 1,
        };
        writer.write_u32(num_uv_channels);
        assert(writer.buf@ =~= b8 + sub_mesh_record_bytes(
            self@,
            offset_vertices,
            offset_indices,
            offset_collision,
            offset_cloth,
            header_flags,
            *output_version,
        ));
    }

    /// Writes the sub-mesh and its parts for `mesh` in the layout of
    /// `output_version`, and returns the offset of the table that points to it.
    pub fn write(&self, writer: &mut Writer, header_flags: u32, mesh: &SPrimMesh, output_version: &GameVersion) -> (r:
        u32)
        requires
            old(writer).pos == old(writer).buf@.len(),
            sub_mesh_writable(self@, header_flags, mesh.object.flags),
        ensures
            final(writer).pos == final(writer).buf@.len(),
            final(writer).buf@.len() >= old(writer).buf@.len(),
            (final(writer).buf@, r) == write_sub_mesh(
                old(writer).buf@,
                self@,
                header_flags,
                mesh.object.header.draw_destination,
                mesh.object.flags,
                *output_version,
            ),
    {
        reveal(write_sub_mesh);
        let (offset_indices, offset_vertices, offset_collision, offset_cloth) = self.write_parts(
            writer,
            header_flags,
            mesh,
        );
        let offset_object = low_u32(writer.position());
        self.write_record(
            writer,
            header_flags,
            output_version,
            offset_vertices,
            offset_indices,
            offset_collision,
            offset_cloth,
        );
        align(writer, 0x10);
        let offset = low_u32(writer.position());
        writer.write_u32(offset_object);
        align(writer, 0x10);
        offset
    }
}

/// Writing the sub-mesh of a mesh, where it has one; offset 0 where not.
pub open spec fn write_mesh_sub_mesh(buf: Seq<u8>, m: MeshModel, header_flags: u32, v: GameVersion) -> (
    Seq<u8>,
    u32,
) {
    match m.sub_mesh {
        Some(s) => write_sub_mesh(buf, s, header_flags, m.object.header.draw_destination, m.object.flags, v),
        None => (buf, 0),
    }
}

/// The record of a mesh: its object, the offset of its sub-mesh table, its
/// scales and biases, its cloth id and padding.
pub open spec fn mesh_record_bytes(m: MeshModel, sub_mesh_table: u32, v: GameVersion) -> Seq<u8> {
    object_bytes(m.object, v) + spec_u32_to_le_bytes(sub_mesh_table) + u32s_bytes(m.position_scale@)
        + u32s_bytes(m.position_bias@) + u32s_bytes(m.uv_scale@) + u32s_bytes(m.uv_bias@) + seq![m.cloth_id]
        + m.pad@
}

/// Writing a mesh: with `sub_mesh_table` 0xFFFFFFFF its sub-mesh first, and
/// the record points to that; else the record points to `sub_mesh_table`.
/// Gives the new buffer and the offset of the record.
pub open spec fn write_mesh(buf: Seq<u8>, m: MeshModel, header_flags: u32, v: GameVersion, sub_mesh_table: u32) -> (
    Seq<u8>,
    u32,
) {
    let (b1, t) = if sub_mesh_table == 0xFFFF_FFFF {
        write_mesh_sub_mesh(buf, m, header_flags, v)
    } else {
        (buf, sub_mesh_table)
    };
    (b1 + mesh_record_bytes(m, t, v), low32(b1.len() as int))
}

/// The sub-mesh of a mesh, where it has one, can be written.
pub open spec fn mesh_writable(m: MeshModel, header_flags: u32) -> bool {
    m.sub_mesh matches Some(s) ==> sub_mesh_writable(s, header_flags, m.object.flags)
}

/// Whether every position is stored as three 32-bit floats exactly when
/// `hi_res`.
fn positions_in_encoding(positions: &Vec<Position>, hi_res: bool) -> (r: bool)
    ensures
        r == (forall|i: int| 0 <= i < positions@.len() ==> ((#[trigger] positions@[i]) is HiRes) == hi_res),
{
    let mut i: usize = 0;
    while i < positions.len()
        invariant
            i <= positions@.len(),
            forall|j: int| 0 <= j < i ==> ((#[trigger] positions@[j]) is HiRes) == hi_res,
        decreases positions@.len() - i,
    {
        let is_hi_res = match &positions[i] {
            Position::HiRes(_) => true,
            Position::Packed(_) => false,
        };
        if is_hi_res != hi_res {
            return false;
        }
        i = i + 1;
    }
    true
}

impl SPrimMesh {
    /// Whether the mesh can be written: its sub-mesh, where it has one, has
    /// an entry of every attribute for each vertex position, each position
    /// stored as the mesh's flags say, and where the meshes are weighted a
    /// bone entry for each weight entry.
    pub fn is_writable(&self, header_flags: u32) -> (r: bool)
        ensures
            r == mesh_writable(self@, header_flags),
    {
        match &self.sub_mesh {
            Some(s) => match &s.vertices {
                Some(vs) => {
                    let n = vs.positions.len();
                    vs.normals.len() >= n && vs.tangents.len() >= n && vs.bitangents.len() >= n && vs.uvs.len()
                        >= n && (header_flags & 8 != 8 || vs.bones.len() >= vs.weights.len())
                        && positions_in_encoding(&vs.positions, self.object.flags & 8 == 8)
                },
                None => true,
            },
            None => true,
        }
    }

    /// Writes the sub-mesh, where there is one, and returns the offset of its
    /// table; 0 where there is none.
    pub fn write_sub_mesh(&self, writer: &mut Writer, header_flags: u32, output_version: &GameVersion) -> (r: u32)
        requires
            old(writer).pos == old(writer).buf@.len(),
            mesh_writable(self@, header_flags),
        ensures
            final(writer).pos == final(writer).buf@.len(),
            final(writer).buf@.len() >= old(writer).buf@.len(),
            (final(writer).buf@, r) == write_mesh_sub_mesh(old(writer).buf@, self@, header_flags, *output_version),
    {
        match &self.sub_mesh {
            Some(s) => s.write(writer, header_flags, self, output_version),
            None => 0,
        }
    }

    /// Writes the mesh and returns the offset of its record. With
    /// `sub_mesh_table` 0xFFFFFFFF the sub-mesh is written first and the
    /// record points to it; the mesh must then have one.
    pub fn write(&self, writer: &mut Writer, header_flags: u32, output_version: &GameVersion, sub_mesh_table: u32) -> (r:
        u32)
        requires
            old(writer).pos == old(writer).buf@.len(),
            mesh_writable(self@, header_flags),
            sub_mesh_table == 0xFFFF_FFFF ==> self.sub_mesh is Some,
        ensures
            final(writer).pos == final(writer).buf@.len(),
            final(writer).buf@.len() >= old(writer).buf@.len(),
            (final(writer).buf@, r) == write_mesh(old(writer).buf@, self@, header_flags, *output_version, sub_mesh_table),
    {
        let ghost b0 = writer.buf@;
        let offset_sub_mesh_table = if sub_mesh_table == 0xFFFF_FFFF {
            match &self.sub_mesh {
                Some(s) => s.write(writer, header_flags, self, output_version),
                None => 0,
            }
        } else {
            sub_mesh_table
        };
        let offset = low_u32(writer.position());
        self.write_record(writer, output_version, offset_sub_mesh_table);
        offset
    }

    /// Writes the record: object, sub-mesh table offset, scales and biases,
    /// cloth id and padding.
    fn write_record(&self, writer: &mut Writer, output_version: &GameVersion, sub_mesh_table: u32)
        requires
            old(writer).pos == old(writer).buf@.len(),
        ensures
            final(writer).pos == final(writer).buf@.len(),
            final(writer).buf@ == old(writer).buf@ + mesh_record_bytes(self@, sub_mesh_table, *output_version),
    {
        let ghost b1 = writer.buf@;
        self.object.write(writer, output_version);
        writer.write_u32(sub_mesh_table);
        write_u32_into(writer, &self.position_scale);
        write_u32_into(writer, &self.position_bias);
        write_u32_into(writer, &self.uv_scale);
        write_u32_into(writer, &self.uv_bias);
        writer.write_u8(self.cloth_id);
        write_u8_into(writer, &self.pad);
        assert(writer.buf@ =~= b1 + mesh_record_bytes(self@, sub_mesh_table, *output_version));
    }
}

/// The bytes of copy bones, where there are some.
pub open spec fn copy_bones_part(w: WeightedModel) -> Option<Seq<u8>> {
    match w.copy_bones {
        Some(c) => Some(u32s_bytes(c)),
        None => None,
    }
}

/// The bytes of bone indices in the layout of `v`, where there are some.
pub open spec fn bone_indices_part(w: WeightedModel, v: GameVersion) -> Option<Seq<u8>> {
    match w.bone_indicies {
        Some(b) => Some(bone_indices_bytes(b, v)),
        None => None,
    }
}

/// Writing the bone parts of a weighted mesh: copy bones, bone info, bone
/// indices, each where present and each padded to 16. Gives the new buffer
/// and the offsets of the copy bones, bone info and bone indices.
pub open spec fn write_weighted_parts(buf: Seq<u8>, w: WeightedModel, v: GameVersion) -> (Seq<u8>, u32, u32, u32) {
    let (b2, ocb) = put_part(buf, copy_bones_part(w));
    let b3 = aligned(b2, 16);
    let (b4, obi) = put_part(b3, w.bone_info);
    let b5 = aligned(b4, 16);
    let (b6, obx) = put_part(b5, bone_indices_part(w, v));
    (aligned(b6, 16), ocb, obi, obx)
}

/// Writing a weighted mesh: its sub-mesh, its bone parts, its mesh record
/// pointing to the sub-mesh table, then the copy bone count and the offsets
/// of the copy bones, bone indices and bone info, padded to 16. Gives the new
/// buffer and the offset of the mesh record.
pub open spec fn write_weighted(buf: Seq<u8>, w: WeightedModel, header_flags: u32, v: GameVersion) -> (Seq<u8>, u32) {
    let (b1, smt) = write_mesh_sub_mesh(buf, w.mesh, header_flags, v);
    let (b7, ocb, obi, obx) = write_weighted_parts(b1, w, v);
    let (b8, _) = write_mesh(b7, w.mesh, header_flags, v, smt);
    (
        aligned(
            b8 + spec_u32_to_le_bytes(w.num_copy_bones) + spec_u32_to_le_bytes(ocb) + spec_u32_to_le_bytes(obx)
                + spec_u32_to_le_bytes(obi),
            16,
        ),
        low32(b7.len() as int),
    )
}

impl SPrimMeshWeighted {
    /// Writes the copy bones, bone info and bone indices, each where present
    /// and padded to 16, and returns their offsets.
    fn write_parts(&self, writer: &mut Writer, output_version: &GameVersion) -> (r: (u32, u32, u32))
        requires
            old(writer).pos == old(writer).buf@.len(),
        ensures
            final(writer).pos == final(writer).buf@.len(),
            final(writer).buf@.len() >= old(writer).buf@.len(),
            (final(writer).buf@, r.0, r.1, r.2) == write_weighted_parts(old(writer).buf@, self@, *output_version),
    {
        let ghost w = self@;
        let ghost b1 = writer.buf@;
        let mut offset_copy_bones: u32 = 0;
        match &self.copy_bones {
            Some(c) => {
                offset_copy_bones = low_u32(writer.position());
                c.write(writer);
            },
            None => {},
        }
        assert((writer.buf@, offset_copy_bones) == put_part(b1, copy_bones_part(w)));
        align(writer, 0x10);
        let ghost b3 = writer.buf@;
        let mut offset_bone_info: u32 = 0;
        match &self.bone_info {
            Some(b) => {
                offset_bone_info = low_u32(writer.position());
                b.write(writer);
            },
            None => {},
        }
        assert((writer.buf@, offset_bone_info) == put_part(b3, w.bone_info));
        align(writer, 0x10);
        let ghost b5 = writer.buf@;
        let mut offset_bone_indicies: u32 = 0;
        match &self.bone_indicies {
            Some(b) => {
                offset_bone_indicies = low_u32(writer.position());
                b.write(writer, output_version);
            },
            None => {},
        }
        assert((writer.buf@, offset_bone_indicies) == put_part(b5, bone_indices_part(w, *output_version)));
        align(writer, 0x10);
        (offset_copy_bones, offset_bone_info, offset_bone_indicies)
    }

    /// Writes the weighted mesh and its parts and returns the offset of its
    /// mesh record.
    pub fn write(&self, writer: &mut Writer, header_flags: u32, output_version: &GameVersion) -> (r: u32)
        requires
            old(writer).pos == old(writer).buf@.len(),
            mesh_writable(self.mesh@, header_flags),
        ensures
            final(writer).pos == final(writer).buf@.len(),
            final(writer).buf@.len() >= old(writer).buf@.len(),
            (final(writer).buf@, r) == write_weighted(old(writer).buf@, self@, header_flags, *output_version),
    {
        let sub_mesh_table = self.mesh.write_sub_mesh(writer, header_flags, output_version);
        let (offset_copy_bones, offset_bone_info, offset_bone_indicies) = self.write_parts(writer, output_version);
        let offset = low_u32(writer.position());
        self.mesh.write(writer, header_flags, output_version, sub_mesh_table);
        let ghost b8 = writer.buf@;
        writer.write_u32(self.num_copy_bones);
        writer.write_u32(offset_copy_bones);
        writer.write_u32(offset_bone_indicies);
        writer.write_u32(offset_bone_info);
        assert(writer.buf@ =~= b8 + spec_u32_to_le_bytes(self.num_copy_bones) + spec_u32_to_le_bytes(
            offset_copy_bones,
        ) + spec_u32_to_le_bytes(offset_bone_indicies) + spec_u32_to_le_bytes(offset_bone_info));
        align(writer, 0x10);
        offset
    }
}

} // verus!

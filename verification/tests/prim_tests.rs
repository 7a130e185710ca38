use primport::chunks::{BoneIndices, BoneInfo, Cloth, Collision, CopyBones, Indices};
use primport::io::PrimError;
use primport::mesh::{SPrimMesh, SPrimMeshWeighted, SPrimSubMesh};
use primport::object::{SPrimHeader, SPrimObject};
use primport::prim::{Object, Prim, SPrimObjectHeader};
use primport::version::GameVersion;
use primport::vertices::{Position, Vertices};

fn object(draw_destination: u8, flags: u8) -> SPrimObject {
    SPrimObject {
        header: SPrimHeader { draw_destination, pack_type: 0, prim_type: 2 },
        sub_type: 0,
        flags,
        lod_mask: 0xFF,
        variant_id: 0,
        bias: 0,
        offset: 0,
        material_id: 7,
        wire_color: 0x00FF00FF,
        color1: None,
        bounding_box_min: [0xBF800000, 0xBF800000, 0xBF800000],
        bounding_box_max: [0x3F800000, 0x3F800000, 0x3F800000],
    }
}

fn vertices(weighted: bool) -> Vertices {
    Vertices {
        positions: vec![Position::Packed([1, 2, 3, 4]), Position::Packed([0xFFFF, 0, 0x8000, 0x7FFF])],
        weights: if weighted { vec![([255, 0, 0, 0], [0, 0]), ([128, 127, 0, 0], [0, 0])] } else { vec![] },
        bones: if weighted { vec![([1, 0, 0, 0], [0, 0]), ([2, 3, 0, 0], [0, 0])] } else { vec![] },
        normals: vec![[0, 127, 255, 0], [1, 2, 3, 4]],
        tangents: vec![[10, 11, 12, 13], [14, 15, 16, 17]],
        bitangents: vec![[20, 21, 22, 23], [24, 25, 26, 27]],
        uvs: vec![[0x1000, 0x2000], [0xFFFF, 0]],
        colors: vec![[0xFF, 0, 0, 0xFF], [0, 0xFF, 0, 0x80]],
    }
}

fn sub_mesh(weighted: bool) -> SPrimSubMesh {
    SPrimSubMesh {
        object: object(0, 0),
        num_vertices: 2,
        offset_vertices: 0,
        vertices: Some(vertices(weighted)),
        num_indices: 3,
        num_indices_extra: Some(0),
        offset_indices: 0,
        indices: Some(Indices { indices: vec![0, 1, 1] }),
        offset_collision: 0,
        collision: Some(Collision { bounding_boxes: vec![[[0, 0, 0], [255, 255, 255]]], triangles_per_box: 1 }),
        offset_cloth: 0,
        cloth: None,
        num_uv_channels: 1,
    }
}

fn mesh(weighted: bool, cloth_id: u8) -> SPrimMesh {
    SPrimMesh {
        object: object(0x85, 0),
        sub_mesh_table: 0,
        sub_mesh: Some(sub_mesh(weighted)),
        position_scale: [0x40000000, 0x40000000, 0x40000000, 0x3F800000],
        position_bias: [0xBF800000, 0xBF800000, 0xBF800000, 0],
        uv_scale: [0x3F800000, 0x3F800000],
        uv_bias: [0, 0],
        cloth_id,
        pad: [0, 0, 0],
    }
}

fn header(header_flags: u32, objects: Vec<Object>) -> SPrimObjectHeader {
    SPrimObjectHeader {
        header: SPrimHeader { draw_destination: 0, pack_type: 0, prim_type: 1 },
        header_flags,
        bone_rig_resource_index: 0xFFFFFFFF,
        num_objects: objects.len() as u32,
        object_table: 0,
        bounding_box_min: [1, 2, 3],
        bounding_box_max: [4, 5, 6],
        objects,
    }
}

fn u32_at(d: &[u8], p: usize) -> u32 {
    u32::from_le_bytes([d[p], d[p + 1], d[p + 2], d[p + 3]])
}

fn same_positions(a: &[Position], b: &[Position]) -> bool {
    a.len() == b.len()
        && a.iter().zip(b.iter()).all(|(x, y)| match (x, y) {
            (Position::Packed(p), Position::Packed(q)) => p == q,
            (Position::HiRes(p), Position::HiRes(q)) => p == q,
            _ => false,
        })
}

fn same_vertices(a: &Vertices, b: &Vertices) -> bool {
    same_positions(&a.positions, &b.positions)
        && a.weights == b.weights
        && a.bones == b.bones
        && a.normals == b.normals
        && a.tangents == b.tangents
        && a.bitangents == b.bitangents
        && a.uvs == b.uvs
        && a.colors == b.colors
}

fn only_mesh(prim: &Prim) -> &SPrimMesh {
    assert_eq!(prim.header.objects.len(), 1);
    match &prim.header.objects[0] {
        Object::SPrimMesh(m) => m,
        Object::SPrimMeshWeighted(_) => panic!("expected a mesh"),
    }
}

#[test]
fn draw_destination_per_output_version() {
    assert_eq!(SPrimObjectHeader::get_draw_destination(0, 0x85, &GameVersion::Alpha), 0x81);
    assert_eq!(SPrimObjectHeader::get_draw_destination(8, 0x85, &GameVersion::Alpha), 0x05);
    assert_eq!(SPrimObjectHeader::get_draw_destination(0, 0x85, &GameVersion::Woa), 0x05);
    assert_eq!(SPrimObjectHeader::get_draw_destination(8, 0xF3, &GameVersion::Hm2016), 0x03);
    assert_eq!(SPrimObjectHeader::get_draw_destination(0, 0x12, &GameVersion::Hma), 0x02);
}

#[test]
fn weighted_is_bit_eight_of_the_flags() {
    assert!(header(8, vec![]).is_weighted());
    assert!(header(0x10F, vec![]).is_weighted());
    assert!(!header(0x107, vec![]).is_weighted());
}

#[test]
fn a_mesh_file_written_for_hm2016_has_the_expected_layout() {
    let mut prim = Prim { header: header(0, vec![Object::SPrimMesh(mesh(false, 0))]) };
    assert!(prim.header.is_writable(false));
    let bytes = prim.write(&GameVersion::Hm2016, false);
    assert_eq!(bytes.len(), 384);
    assert_eq!(u32_at(&bytes, 0), 336);
    assert_eq!(&bytes[4..16], &[0; 12]);
    // Indices at 16, vertices at 32, collision at 96, the sub-mesh record at
    // 112, its table at 192, the mesh record at 208, the object table at 320.
    assert_eq!(&bytes[16..22], &[0, 0, 1, 0, 1, 0]);
    assert_eq!(&bytes[32..40], &[1, 0, 2, 0, 3, 0, 4, 0]);
    assert_eq!(&bytes[96..106], &[1, 0, 1, 0, 0, 0, 0, 255, 255, 255]);
    assert_eq!(u32_at(&bytes, 112 + 44), 2);
    assert_eq!(u32_at(&bytes, 112 + 48), 32);
    assert_eq!(u32_at(&bytes, 112 + 52), 3);
    assert_eq!(u32_at(&bytes, 112 + 56), 0);
    assert_eq!(u32_at(&bytes, 112 + 60), 16);
    assert_eq!(u32_at(&bytes, 112 + 64), 96);
    assert_eq!(u32_at(&bytes, 112 + 68), 0);
    assert_eq!(u32_at(&bytes, 112 + 72), 1);
    assert_eq!(u32_at(&bytes, 192), 112);
    assert_eq!(bytes[208], 0x05);
    assert_eq!(u32_at(&bytes, 208 + 44), 192);
    assert_eq!(u32_at(&bytes, 320), 208);
    assert_eq!(u32_at(&bytes, 336 + 4), 0);
    assert_eq!(u32_at(&bytes, 336 + 8), 0xFFFFFFFF);
    assert_eq!(u32_at(&bytes, 336 + 12), 1);
    assert_eq!(u32_at(&bytes, 336 + 16), 320);
    // The objects keep their new draw destination.
    assert_eq!(only_mesh(&prim).object.header.draw_destination, 0x05);
}

#[test]
fn a_mesh_file_reads_back_in_its_layout() {
    let written = mesh(false, 0);
    let mut prim = Prim { header: header(0, vec![Object::SPrimMesh(mesh(false, 0))]) };
    let bytes = prim.write(&GameVersion::Hm2016, false);
    let back = Prim::read(bytes, &GameVersion::Hm2016).ok().unwrap();
    assert_eq!(back.header.header, prim.header.header);
    assert_eq!(back.header.header_flags, 0);
    assert_eq!(back.header.bone_rig_resource_index, 0xFFFFFFFF);
    assert_eq!(back.header.num_objects, 1);
    assert_eq!(back.header.object_table, 320);
    assert_eq!(back.header.bounding_box_min, [1, 2, 3]);
    assert_eq!(back.header.bounding_box_max, [4, 5, 6]);
    let m = only_mesh(&back);
    assert_eq!(m.object, SPrimObject { header: SPrimHeader { draw_destination: 5, ..written.object.header }, color1: Some(0), ..written.object });
    assert_eq!(m.sub_mesh_table, 192);
    assert_eq!(m.position_scale, written.position_scale);
    assert_eq!(m.position_bias, written.position_bias);
    assert_eq!(m.uv_scale, written.uv_scale);
    assert_eq!(m.uv_bias, written.uv_bias);
    assert_eq!(m.cloth_id, 0);
    let s = m.sub_mesh.as_ref().unwrap();
    let o = written.sub_mesh.as_ref().unwrap();
    assert_eq!(s.object, SPrimObject { color1: Some(0), ..o.object });
    assert_eq!(s.num_vertices, 2);
    assert_eq!(s.offset_vertices, 32);
    assert_eq!(s.num_indices, 3);
    assert_eq!(s.num_indices_extra, Some(0));
    assert_eq!(s.offset_indices, 16);
    assert_eq!(s.offset_collision, 96);
    assert_eq!(s.offset_cloth, 0);
    assert_eq!(s.num_uv_channels, 1);
    assert!(same_vertices(s.vertices.as_ref().unwrap(), o.vertices.as_ref().unwrap()));
    assert_eq!(s.indices.as_ref().unwrap().indices, vec![0, 1, 1]);
    assert_eq!(s.collision.as_ref().unwrap().bounding_boxes, o.collision.as_ref().unwrap().bounding_boxes);
    assert!(s.cloth.is_none());
}

#[test]
fn a_mesh_file_ported_to_alpha_packs_positions_with_the_records() {
    let mut prim = Prim { header: header(0, vec![Object::SPrimMesh(mesh(false, 0))]) };
    let bytes = prim.write(&GameVersion::Alpha, false);
    let back = Prim::read(bytes, &GameVersion::Alpha).ok().unwrap();
    let m = only_mesh(&back);
    assert_eq!(m.object.header.draw_destination, 0x81);
    assert_eq!(m.object.color1, None);
    let s = m.sub_mesh.as_ref().unwrap();
    assert_eq!(s.num_indices_extra, None);
    assert_eq!(s.num_uv_channels, 1);
    let o = mesh(false, 0).sub_mesh.unwrap();
    assert!(same_vertices(s.vertices.as_ref().unwrap(), o.vertices.as_ref().unwrap()));
    assert_eq!(s.indices.as_ref().unwrap().indices, vec![0, 1, 1]);
}

#[test]
fn weighted_meshes_read_back_with_their_bones() {
    let w = SPrimMeshWeighted {
        mesh: mesh(true, 0),
        num_copy_bones: 1,
        offset_copy_bones: 0,
        copy_bones: Some(CopyBones { data: vec![3, 4] }),
        offset_bone_indicies: 0,
        bone_indicies: Some(BoneIndices { data: vec![9, 8] }),
        offset_bone_info: 0,
        bone_info: Some(BoneInfo { data: vec![4, 0, 1, 2] }),
    };
    let mut prim = Prim { header: header(8, vec![Object::SPrimMeshWeighted(w)]) };
    assert!(prim.header.is_writable(false));
    let bytes = prim.write(&GameVersion::Woa, false);
    let back = Prim::read(bytes, &GameVersion::Woa).ok().unwrap();
    assert_eq!(back.header.num_objects, 1);
    match &back.header.objects[0] {
        Object::SPrimMeshWeighted(b) => {
            assert_eq!(b.num_copy_bones, 1);
            assert_eq!(b.copy_bones.as_ref().unwrap().data, vec![3, 4]);
            assert_eq!(b.bone_indicies.as_ref().unwrap().data, vec![9, 8]);
            assert_eq!(b.bone_info.as_ref().unwrap().data, vec![4, 0, 1, 2]);
            let s = b.mesh.sub_mesh.as_ref().unwrap();
            // WOA writes one texture channel, weighted or not.
            assert_eq!(s.num_uv_channels, 1);
            let o = mesh(true, 0).sub_mesh.unwrap();
            assert!(same_vertices(s.vertices.as_ref().unwrap(), o.vertices.as_ref().unwrap()));
        },
        Object::SPrimMesh(_) => panic!("expected a weighted mesh"),
    }
}

#[test]
fn weighted_sub_meshes_have_no_texture_channel_count_before_woa() {
    let w = SPrimMeshWeighted {
        mesh: mesh(true, 0),
        num_copy_bones: 0,
        offset_copy_bones: 0,
        copy_bones: None,
        offset_bone_indicies: 0,
        bone_indicies: None,
        offset_bone_info: 0,
        bone_info: None,
    };
    let mut prim = Prim { header: header(8, vec![Object::SPrimMeshWeighted(w)]) };
    let bytes = prim.write(&GameVersion::Hm2016, false);
    let back = Prim::read(bytes, &GameVersion::Hm2016).ok().unwrap();
    match &back.header.objects[0] {
        Object::SPrimMeshWeighted(b) => {
            assert_eq!(b.mesh.sub_mesh.as_ref().unwrap().num_uv_channels, 0);
            assert!(b.copy_bones.is_none());
            assert!(b.bone_indicies.is_none());
            assert!(b.bone_info.is_none());
            assert_eq!(b.offset_copy_bones, 0);
        },
        Object::SPrimMesh(_) => panic!("expected a weighted mesh"),
    }
}

#[test]
fn dropping_cloth_leaves_out_cloth_meshes() {
    let cloth_mesh = SPrimMeshWeighted {
        mesh: mesh(true, 1),
        num_copy_bones: 0,
        offset_copy_bones: 0,
        copy_bones: None,
        offset_bone_indicies: 0,
        bone_indicies: None,
        offset_bone_info: 0,
        bone_info: None,
    };
    let mut prim = Prim { header: header(8, vec![Object::SPrimMeshWeighted(cloth_mesh)]) };
    let bytes = prim.write(&GameVersion::Hm2016, true);
    assert_eq!(bytes.len(), 64);
    assert_eq!(u32_at(&bytes, 0), 16);
    assert_eq!(u32_at(&bytes, 16 + 12), 0);
    let back = Prim::read(bytes, &GameVersion::Hm2016).ok().unwrap();
    assert_eq!(back.header.num_objects, 0);
    assert!(back.header.objects.is_empty());
}

#[test]
fn cloth_data_is_kept_where_the_layout_has_it() {
    let mut m = mesh(false, 0x80);
    m.sub_mesh.as_mut().unwrap().cloth = Some(Cloth { data: vec![2, 0, 0, 0, 0xAA, 0xBB] });
    let mut prim = Prim { header: header(0, vec![Object::SPrimMesh(m)]) };
    let bytes = prim.write(&GameVersion::Woa, false);
    let back = Prim::read(bytes.clone(), &GameVersion::Woa).ok().unwrap();
    let s = only_mesh(&back).sub_mesh.as_ref().unwrap();
    assert_eq!(s.cloth.as_ref().unwrap().data, vec![2, 0, 0, 0, 0xAA, 0xBB]);
    assert!(s.offset_cloth > 0);
}

#[test]
fn a_mesh_without_sub_mesh_cannot_be_written() {
    let mut m = mesh(false, 0);
    m.sub_mesh = None;
    let prim = Prim { header: header(0, vec![Object::SPrimMesh(m)]) };
    assert!(!prim.header.is_writable(false));
    let mut v = mesh(false, 0);
    v.sub_mesh.as_mut().unwrap().vertices.as_mut().unwrap().normals.pop();
    let prim2 = Prim { header: header(0, vec![Object::SPrimMesh(v)]) };
    assert!(!prim2.header.is_writable(false));
}

#[test]
fn a_truncated_file_is_refused() {
    assert!(matches!(Prim::read(vec![0, 0], &GameVersion::Woa), Err(PrimError::UnexpectedEnd)));
    assert!(matches!(Prim::read(vec![8, 0, 0, 0, 0, 0, 0, 0], &GameVersion::Woa), Err(PrimError::UnexpectedEnd)));
}

#[test]
fn an_object_table_past_the_end_is_refused() {
    let mut prim = Prim { header: header(0, vec![]) };
    let mut bytes = prim.write(&GameVersion::Woa, false);
    // One object listed, in a table that lies past the end of the file.
    let main = u32_at(&bytes, 0) as usize;
    bytes[main + 12] = 1;
    bytes[main + 16] = 0xF0;
    assert!(matches!(Prim::read(bytes, &GameVersion::Woa), Err(PrimError::UnexpectedEnd)));
}

#[test]
fn an_empty_file_reads_back_empty() {
    let mut prim = Prim { header: header(0, vec![]) };
    let bytes = prim.write(&GameVersion::Alpha, false);
    assert_eq!(bytes.len(), 64);
    let back = Prim::read(bytes, &GameVersion::Alpha).ok().unwrap();
    assert_eq!(back.header.num_objects, 0);
    assert_eq!(back.header.object_table, 16);
    assert_eq!(back.header.bounding_box_max, [4, 5, 6]);
}

#[test]
fn a_file_read_and_written_in_its_layout_is_written_the_same() {
    for version in [GameVersion::Alpha, GameVersion::Hm2016, GameVersion::Woa] {
        let mut prim = Prim { header: header(0, vec![Object::SPrimMesh(mesh(false, 0))]) };
        let first = prim.write(&version, false);
        let mut back = Prim::read(first.clone(), &version).ok().unwrap();
        assert!(back.header.is_writable(false));
        let second = back.write(&version, false);
        assert_eq!(first, second);
        let again = Prim::read(second, &version).ok().unwrap();
        let a = only_mesh(&back);
        let b = only_mesh(&again);
        assert_eq!(a.object, b.object);
        assert_eq!(a.sub_mesh_table, b.sub_mesh_table);
        let (sa, sb) = (a.sub_mesh.as_ref().unwrap(), b.sub_mesh.as_ref().unwrap());
        assert_eq!(sa.offset_vertices, sb.offset_vertices);
        assert!(same_vertices(sa.vertices.as_ref().unwrap(), sb.vertices.as_ref().unwrap()));
    }
}

#[test]
fn positions_must_be_stored_as_the_mesh_says() {
    let mut m = mesh(false, 0);
    m.sub_mesh.as_mut().unwrap().vertices.as_mut().unwrap().positions[0] = Position::HiRes([1, 2, 3]);
    let prim = Prim { header: header(0, vec![Object::SPrimMesh(m)]) };
    assert!(!prim.header.is_writable(false));
    let mut hi = mesh(false, 0);
    hi.object.flags = 8;
    hi.sub_mesh.as_mut().unwrap().vertices.as_mut().unwrap().positions =
        vec![Position::HiRes([1, 2, 3]), Position::HiRes([4, 5, 6])];
    let mut prim2 = Prim { header: header(0, vec![Object::SPrimMesh(hi)]) };
    assert!(prim2.header.is_writable(false));
    let bytes = prim2.write(&GameVersion::Woa, false);
    let back = Prim::read(bytes, &GameVersion::Woa).ok().unwrap();
    let s = only_mesh(&back).sub_mesh.as_ref().unwrap();
    assert!(same_positions(
        &s.vertices.as_ref().unwrap().positions,
        &[Position::HiRes([1, 2, 3]), Position::HiRes([4, 5, 6])]
    ));
}

#[test]
fn an_empty_bone_info_does_not_read_back_as_it_was_read() {
    // Bone info whose size field is 0 reads as no bytes at all.
    let w = SPrimMeshWeighted {
        mesh: mesh(true, 0),
        num_copy_bones: 0,
        offset_copy_bones: 0,
        copy_bones: None,
        offset_bone_indicies: 0,
        bone_indicies: None,
        offset_bone_info: 0,
        bone_info: Some(BoneInfo { data: vec![0, 0] }),
    };
    let mut prim = Prim { header: header(8, vec![Object::SPrimMeshWeighted(w)]) };
    let first = prim.write(&GameVersion::Hm2016, false);
    let mut read = Prim::read(first, &GameVersion::Hm2016).ok().unwrap();
    match &read.header.objects[0] {
        Object::SPrimMeshWeighted(b) => assert!(b.bone_info.as_ref().unwrap().data.is_empty()),
        Object::SPrimMesh(_) => panic!("expected a weighted mesh"),
    }
    // Written back, it takes no room, and what follows it is read in its place.
    let second = read.write(&GameVersion::Hm2016, false);
    let again = Prim::read(second, &GameVersion::Hm2016).ok().unwrap();
    match &again.header.objects[0] {
        Object::SPrimMeshWeighted(b) => assert!(!b.bone_info.as_ref().unwrap().data.is_empty()),
        Object::SPrimMesh(_) => panic!("expected a weighted mesh"),
    }
}

use primport::chunks::{BoneIndices, BoneInfo, Cloth, Collision, CopyBones, Indices};
use primport::io::{PrimError, Reader, Writer};
use primport::mesh::SPrimSubMesh;
use primport::object::{SPrimHeader, SPrimObject};
use primport::version::GameVersion;

fn object(flags: u8, color1: Option<u32>) -> SPrimObject {
    SPrimObject {
        header: SPrimHeader { draw_destination: 0x85, pack_type: 1, prim_type: 2 },
        sub_type: 0,
        flags,
        lod_mask: 0xFF,
        variant_id: 3,
        bias: 4,
        offset: 5,
        material_id: 0x0102,
        wire_color: 0xAABBCCDD,
        color1,
        bounding_box_min: [1, 2, 3],
        bounding_box_max: [4, 5, 6],
    }
}

fn sub_mesh(num_vertices: u32, num_indices: u32, num_indices_extra: Option<u32>) -> SPrimSubMesh {
    SPrimSubMesh {
        object: object(0, None),
        num_vertices,
        offset_vertices: 0,
        vertices: None,
        num_indices,
        num_indices_extra,
        offset_indices: 0,
        indices: None,
        offset_collision: 0,
        collision: None,
        offset_cloth: 0,
        cloth: None,
        num_uv_channels: 1,
    }
}

#[test]
fn header_is_written_and_read_back() {
    let h = SPrimHeader { draw_destination: 0x81, pack_type: 7, prim_type: 0x0203 };
    let mut writer = Writer::new();
    h.write(&mut writer);
    assert_eq!(writer.buf, vec![0x81, 7, 3, 2]);
    let mut reader = Reader::new(writer.buf);
    assert_eq!(SPrimHeader::read(&mut reader), Ok(h));
    assert_eq!(reader.position(), 4);
}

#[test]
fn object_layouts_per_version() {
    let o = object(0x20, None);
    let mut w16 = Writer::new();
    o.write(&mut w16, &GameVersion::Hm2016);
    assert_eq!(w16.buf.len(), 44);
    assert_eq!(&w16.buf[16..20], &[0, 0, 0, 0]);
    let mut alpha = Writer::new();
    o.write(&mut alpha, &GameVersion::Alpha);
    assert_eq!(alpha.buf.len(), 40);
    assert_eq!(&alpha.buf[..16], &w16.buf[..16]);
    assert_eq!(&alpha.buf[16..], &w16.buf[20..]);
    assert_eq!(&alpha.buf[..4], &[0x85, 1, 2, 0]);
    assert_eq!(&alpha.buf[4..12], &[0, 0x20, 0xFF, 3, 4, 5, 2, 1]);
    assert_eq!(&alpha.buf[12..16], &[0xDD, 0xCC, 0xBB, 0xAA]);
    assert_eq!(&alpha.buf[16..20], &[1, 0, 0, 0]);
}

#[test]
fn object_read_back_stores_color1_as_the_layout_does() {
    let o = object(0x20, None);
    let mut w16 = Writer::new();
    o.write(&mut w16, &GameVersion::Woa);
    let back = SPrimObject::read(&mut Reader::new(w16.buf), &GameVersion::Woa).unwrap();
    assert_eq!(back, SPrimObject { color1: Some(0), ..o });
    let o2 = object(0, Some(0x11223344));
    let mut wa = Writer::new();
    o2.write(&mut wa, &GameVersion::Alpha);
    let back2 = SPrimObject::read(&mut Reader::new(wa.buf), &GameVersion::Alpha).unwrap();
    assert_eq!(back2, SPrimObject { color1: None, ..o2 });
    let mut wh = Writer::new();
    o2.write(&mut wh, &GameVersion::Hm2016);
    let back3 = SPrimObject::read(&mut Reader::new(wh.buf), &GameVersion::Hm2016).unwrap();
    assert_eq!(back3, o2);
}

#[test]
fn object_read_past_the_end_fails() {
    let mut reader = Reader::new(vec![0; 43]);
    assert_eq!(SPrimObject::read(&mut reader, &GameVersion::Hm2016), Err(PrimError::UnexpectedEnd));
    let mut reader2 = Reader::new(vec![0; 40]);
    assert!(SPrimObject::read(&mut reader2, &GameVersion::Alpha).is_ok());
}

#[test]
fn indices_count_the_extra_indices() {
    let data = vec![1, 0, 2, 0, 3, 0, 4, 0];
    let mut reader = Reader::new(data.clone());
    let ix = Indices::read(&mut reader, &sub_mesh(0, 3, Some(1))).unwrap();
    assert_eq!(ix.indices, vec![1, 2, 3, 4]);
    let mut reader2 = Reader::new(data);
    let ix2 = Indices::read(&mut reader2, &sub_mesh(0, 3, None)).unwrap();
    assert_eq!(ix2.indices, vec![1, 2, 3]);
}

#[test]
fn indices_with_an_overflowing_count_are_refused() {
    let mut reader = Reader::new(vec![0; 8]);
    assert!(matches!(Indices::read(&mut reader, &sub_mesh(0, u32::MAX, Some(1))), Err(PrimError::Overflow)));
    let mut short = Reader::new(vec![0; 5]);
    assert!(matches!(Indices::read(&mut short, &sub_mesh(0, 3, None)), Err(PrimError::UnexpectedEnd)));
}

#[test]
fn indices_are_written_padded_to_sixteen() {
    let ix = Indices { indices: vec![0x0102, 3] };
    let mut writer = Writer::new();
    ix.write(&mut writer);
    assert_eq!(writer.buf.len(), 16);
    assert_eq!(&writer.buf[..4], &[2, 1, 3, 0]);
}

#[test]
fn collision_bytes_and_read_back() {
    let c = Collision { bounding_boxes: vec![[[1, 2, 3], [4, 5, 6]], [[7, 8, 9], [10, 11, 12]]], triangles_per_box: 0x30 };
    let mut writer = Writer::new();
    c.write(&mut writer);
    assert_eq!(writer.buf.len(), 16);
    assert_eq!(&writer.buf[..16], &[2, 0, 0x30, 0, 1, 2, 3, 4, 5, 6, 7, 8, 9, 10, 11, 12]);
    let back = Collision::read(&mut Reader::new(writer.buf)).unwrap();
    assert_eq!(back.bounding_boxes, c.bounding_boxes);
    assert_eq!(back.triangles_per_box, 0x30);
}

#[test]
fn collision_without_boxes_and_cut_short() {
    let back = Collision::read(&mut Reader::new(vec![0, 0, 5, 0])).unwrap();
    assert!(back.bounding_boxes.is_empty());
    assert_eq!(back.triangles_per_box, 5);
    assert!(matches!(Collision::read(&mut Reader::new(vec![1, 0, 5, 0, 1, 2])), Err(PrimError::UnexpectedEnd)));
}

#[test]
fn small_cloth_keeps_its_size_field() {
    let data = vec![3, 0, 0, 0, 0xA, 0xB, 0xC, 0xD];
    let cloth = Cloth::read(&mut Reader::new(data), &sub_mesh(100, 0, None), 0x80).unwrap();
    assert_eq!(cloth.data, vec![3, 0, 0, 0, 0xA, 0xB, 0xC]);
}

#[test]
fn cloth_has_twenty_bytes_per_vertex() {
    let data: Vec<u8> = (0..45).collect();
    let cloth = Cloth::read(&mut Reader::new(data), &sub_mesh(2, 0, None), 1).unwrap();
    assert_eq!(cloth.data, (0..40).collect::<Vec<u8>>());
    assert!(matches!(
        Cloth::read(&mut Reader::new(vec![0; 10]), &sub_mesh(1, 0, None), 1),
        Err(PrimError::UnexpectedEnd)
    ));
    assert!(matches!(
        Cloth::read(&mut Reader::new(vec![0; 10]), &sub_mesh(0x1000_0000, 0, None), 1),
        Err(PrimError::Overflow)
    ));
}

#[test]
fn copy_bones_are_two_u32_per_bone() {
    let data = vec![1, 0, 0, 0, 2, 0, 0, 0, 3, 0, 0, 0, 4, 0, 0, 0, 9];
    let cb = CopyBones::read(&mut Reader::new(data), 2).unwrap();
    assert_eq!(cb.data, vec![1, 2, 3, 4]);
    let mut writer = Writer::new();
    cb.write(&mut writer);
    assert_eq!(writer.buf.len(), 16);
    assert_eq!(&writer.buf[..8], &[1, 0, 0, 0, 2, 0, 0, 0]);
    assert!(matches!(CopyBones::read(&mut Reader::new(vec![]), 0x8000_0000), Err(PrimError::Overflow)));
}

#[test]
fn bone_index_counts_per_version() {
    let b = BoneIndices { data: vec![5, 6, 7] };
    let mut alpha = Writer::new();
    b.write(&mut alpha, &GameVersion::Alpha);
    assert_eq!(&alpha.buf[..8], &[4, 0, 5, 0, 6, 0, 7, 0]);
    assert_eq!(alpha.buf.len(), 16);
    let mut woa = Writer::new();
    b.write(&mut woa, &GameVersion::Woa);
    assert_eq!(&woa.buf[..10], &[5, 0, 0, 0, 5, 0, 6, 0, 7, 0]);
    let back_alpha = BoneIndices::read(&mut Reader::new(alpha.buf), &GameVersion::Hma).unwrap();
    assert_eq!(back_alpha.data, vec![5, 6, 7]);
    let back_woa = BoneIndices::read(&mut Reader::new(woa.buf), &GameVersion::Hm2016).unwrap();
    assert_eq!(back_woa.data, vec![5, 6, 7]);
}

#[test]
fn bone_index_counts_below_their_offset_are_refused() {
    assert!(matches!(BoneIndices::read(&mut Reader::new(vec![0, 0]), &GameVersion::Alpha), Err(PrimError::Overflow)));
    assert!(matches!(
        BoneIndices::read(&mut Reader::new(vec![1, 0, 0, 0]), &GameVersion::Woa),
        Err(PrimError::Overflow)
    ));
    assert!(BoneIndices::read(&mut Reader::new(vec![1, 0]), &GameVersion::Alpha).unwrap().data.is_empty());
}

#[test]
fn bone_info_size_counts_itself() {
    let data = vec![5, 0, 9, 8, 7, 6, 5];
    let bi = BoneInfo::read(&mut Reader::new(data)).unwrap();
    assert_eq!(bi.data, vec![5, 0, 9, 8, 7]);
    let mut writer = Writer::new();
    bi.write(&mut writer);
    assert_eq!(writer.buf.len(), 16);
    assert_eq!(&writer.buf[..5], &[5, 0, 9, 8, 7]);
    assert!(matches!(BoneInfo::read(&mut Reader::new(vec![9, 0, 1])), Err(PrimError::UnexpectedEnd)));
}

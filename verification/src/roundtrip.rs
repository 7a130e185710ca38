//! Reading back what was written: each part, each mesh and whole files read
//! back in the layout they were written in give what was written, with the
//! offsets of where it now stands and the fields that the layout stores.

use crate::chunks::{
    bone_indices_bytes, has_short_counts, lemma_bone_indices_roundtrip, lemma_bone_info_roundtrip,
    lemma_copy_bones_roundtrip, collision_bytes, index_count, is_small_cloth, lemma_cloth_roundtrip, lemma_collision_roundtrip,
    lemma_indices_roundtrip,
};
use crate::io::{
    aligned, align_padding, lemma_sub_concat, lemma_u32s_bytes, take_u32, u16s_bytes, u32_at, u32s_bytes, zeros, PrimError,
};
use crate::mesh::{
    collision_part, indices_part, low32, mesh_record_bytes, parse_mesh_fields, put_part, u32x2_at,
    u32x4_at, mesh_fields_at, parse_mesh, write_mesh_sub_mesh, MeshModel, WeightedModel, bone_indices_part,
    copy_bones_part, with_bone_indices, with_bone_info, with_copy_bones, write_weighted_parts, write_weighted,
    parse_weighted, write_mesh, vertices_part, sub_mesh_fields_size, sub_mesh_record_bytes, uv_channels, with_cloth,
    with_collision, with_indices, with_vertices, write_sub_mesh, write_sub_mesh_parts, parse_sub_mesh,
    parse_sub_mesh_fields, SubMeshModel,
};
use crate::prim::{
    draw_destination_for, keeps_weighted, object_header_at, object_header_record_bytes, parse_object_entry,
    parse_object_header, parse_objects, parse_prim, write_object_header, write_prim, with_draw_destination, write_object_entry, write_objects, ObjectHeaderModel,
    ObjectModel,
};
use crate::vertices::is_weighted;
use crate::object::{header_bytes, lemma_header_roundtrip, lemma_u32x3_back, SPrimObject, color1_or_zero, has_extended_fields, lemma_object_roundtrip, object_as_stored, object_bytes, object_size, parse_object};
use crate::version::GameVersion;
use crate::vertices::{lemma_vertices_roundtrip, vertices_as_stored};
use vstd::bytes::*;
use vstd::prelude::*;

verus! {

/// Padding keeps what was there.
pub proof fn lemma_aligned_extends(b: Seq<u8>)
    ensures
        b.is_prefix_of(aligned(b, 16)),
        aligned(b, 16).len() >= b.len(),
{
    assert(aligned(b, 16).subrange(0, b.len() as int) =~= b);
}

/// Writing a part keeps what was there.
pub proof fn lemma_put_part_extends(b: Seq<u8>, part: Option<Seq<u8>>)
    ensures
        b.is_prefix_of(put_part(b, part).0),
{
    match part {
        Some(x) => {
            assert(aligned(b + x, 16).subrange(0, b.len() as int) =~= b);
        },
        None => {},
    }
}

/// Starting sequences chain.
pub proof fn lemma_prefix_trans(a: Seq<u8>, b: Seq<u8>, c: Seq<u8>)
    requires
        a.is_prefix_of(b),
        b.is_prefix_of(c),
    ensures
        a.is_prefix_of(c),
{
    assert(c.subrange(0, a.len() as int) =~= b.subrange(0, a.len() as int));
}

/// `d` holds the bytes of `w` from position `k` to the end of `w`.
pub open spec fn holds_from(d: Seq<u8>, w: Seq<u8>, k: int) -> bool {
    &&& 0 <= k <= w.len() <= d.len()
    &&& d.subrange(k, w.len() as int) == w.subrange(k, w.len() as int)
}

/// What holds a sequence from `k` on holds each start of it that reaches `k`.
pub proof fn lemma_holds_prefix(d: Seq<u8>, u: Seq<u8>, w: Seq<u8>, k: int)
    requires
        holds_from(d, w, k),
        u.is_prefix_of(w),
        k <= u.len(),
    ensures
        holds_from(d, u, k),
{
    assert forall|i: int| k <= i < u.len() implies d[i] == u[i] by {
        assert(d.subrange(k, w.len() as int)[i - k] == w.subrange(k, w.len() as int)[i - k]);
        assert(w.subrange(0, u.len() as int)[i] == u[i]);
    }
    assert(d.subrange(k, u.len() as int) =~= u.subrange(k, u.len() as int));
}

/// Bytes `x` that `d` holds after its first `pre.len()` bytes, from `k` on.
pub proof fn lemma_holds_split(d: Seq<u8>, pre: Seq<u8>, x: Seq<u8>, k: int)
    requires
        holds_from(d, pre + x, k),
        k <= pre.len(),
    ensures
        d == d.take(pre.len() as int) + x + d.skip((pre + x).len() as int),
{
    let w = pre + x;
    assert forall|i: int| 0 <= i < x.len() implies d[pre.len() + i] == x[i] by {
        assert(d.subrange(k, w.len() as int)[pre.len() + i - k] == w.subrange(k, w.len() as int)[pre.len() + i - k]);
    }
    assert(d =~= d.take(pre.len() as int) + x + d.skip((pre + x).len() as int));
}

/// A part `x` that `d` holds padded to 16 after its first `pre.len()`
/// bytes, from `k` on.
pub proof fn lemma_holds_aligned(d: Seq<u8>, pre: Seq<u8>, x: Seq<u8>, k: int)
    requires
        holds_from(d, aligned(pre + x, 16), k),
        k <= pre.len(),
    ensures
        aligned(d.take(pre.len() as int) + x, 16).len() == aligned(pre + x, 16).len(),
        d == aligned(d.take(pre.len() as int) + x, 16) + d.skip(aligned(pre + x, 16).len() as int),
{
    let w = aligned(pre + x, 16);
    let n = align_padding((pre + x).len() as int, 16);
    assert(w =~= pre + (x + zeros(n)));
    lemma_holds_split(d, pre, x + zeros(n), k);
    assert(d.take(pre.len() as int) + (x + zeros(n)) =~= aligned(d.take(pre.len() as int) + x, 16));
}

/// The extra index count that a layout stores: the given one, or 0 where
/// there is none, for HM2016 and WOA; none for HMA and ALPHA.
pub open spec fn stored_extra(e: Option<u32>, v: GameVersion) -> Option<u32> {
    if has_extended_fields(v) {
        Some(color1_or_zero(e))
    } else {
        None
    }
}

/// Cloth data has the shape that reading it gives for a sub-mesh with
/// `num_vertices` vertices of a mesh with `cloth_id`.
pub open spec fn cloth_shaped(c: Seq<u8>, num_vertices: u32, cloth_id: u8) -> bool {
    if is_small_cloth(cloth_id) {
        c.len() >= 4 && spec_u32_from_le_bytes(c.subrange(0, 4)) == c.len() - 4
    } else {
        c.len() == num_vertices * 0x14 && num_vertices * 0x14 <= u32::MAX
    }
}

/// A sub-mesh has the shape that reading it back in the layout of `v`
/// gives: vertices and indices only with nonzero counts that match them,
/// fewer than 65536 collision boxes, and cloth data of the shape the cloth
/// id asks for where the layout keeps it.
pub open spec fn sub_mesh_readable(s: SubMeshModel, header_flags: u32, mesh_flags: u8, cloth_id: u8, v: GameVersion) -> bool {
    let o = object_as_stored(s.object, v);
    &&& (s.vertices matches Some(vs) ==> s.num_vertices > 0 && vertices_as_stored(
        vs,
        s.num_vertices,
        header_flags,
        mesh_flags,
        o.flags,
        o.color1,
    ))
    &&& (s.indices matches Some(ix) ==> s.num_indices > 0 && index_count(
        s.num_indices,
        stored_extra(s.num_indices_extra, v),
    ) == ix.len() && ix.len() <= u32::MAX)
    &&& (s.collision matches Some(c) ==> c.bounding_boxes.len() < 0x10000)
    &&& (has_extended_fields(v) ==> (s.cloth matches Some(c) ==> cloth_shaped(c, s.num_vertices, cloth_id)))
}

/// What reading back a sub-mesh written with its parts at the offsets
/// `oi`, `ov`, `oc`, `ocl` gives: the sub-mesh with those offsets, its
/// object and extra index count as the layout stores them, the texture
/// channel count that was written, and cloth data only where the layout keeps it.
pub open spec fn sub_mesh_read_back(
    s: SubMeshModel,
    oi: u32,
    ov: u32,
    oc: u32,
    ocl: u32,
    header_flags: u32,
    v: GameVersion,
) -> SubMeshModel {
    SubMeshModel {
        object: object_as_stored(s.object, v),
        offset_vertices: ov,
        num_indices_extra: stored_extra(s.num_indices_extra, v),
        offset_indices: oi,
        offset_collision: oc,
        offset_cloth: ocl,
        cloth: if has_extended_fields(v) {
            s.cloth
        } else {
            None
        },
        num_uv_channels: uv_channels(header_flags, v),
        ..s
    }
}

/// A `u32` read back from its bytes in the middle of others.
proof fn lemma_u32_back(pre: Seq<u8>, x: Seq<u8>, post: Seq<u8>, a: int, val: u32)
    requires
        0 <= a,
        a + 4 <= x.len(),
        x.subrange(a, a + 4) == spec_u32_to_le_bytes(val),
    ensures
        u32_at(pre + x + post, pre.len() + a) == val,
{
    lemma_sub_concat(pre, x, post, a, a + 4);
    let p = pre.len() + a;
    assert((pre + x + post).subrange(p, p + 4) == spec_u32_to_le_bytes(val));
    lemma_auto_spec_u32_to_from_le_bytes();
    assert(spec_u32_from_le_bytes(spec_u32_to_le_bytes(val)) == val);
}

/// Reading back the record of a sub-mesh gives its object and fields as the
/// layout stores them.
pub proof fn lemma_sub_mesh_record_back(
    pre: Seq<u8>,
    s: SubMeshModel,
    post: Seq<u8>,
    ov: u32,
    oi: u32,
    oc: u32,
    ocl: u32,
    header_flags: u32,
    v: GameVersion,
)
    ensures
        ({
            let rec = sub_mesh_record_bytes(s, ov, oi, oc, ocl, header_flags, v);
            &&& rec.len() == object_size(v) + sub_mesh_fields_size(v)
            &&& parse_sub_mesh_fields(pre + rec + post, pre.len() as int, v) == Ok::<(SubMeshModel, int), PrimError>(
                (
                    SubMeshModel {
                        vertices: None,
                        indices: None,
                        collision: None,
                        cloth: None,
                        ..sub_mesh_read_back(s, oi, ov, oc, ocl, header_flags, v)
                    },
                    pre.len() + rec.len() as int,
                ),
            )
        }),
{
    lemma_auto_spec_u32_to_from_le_bytes();
    let rec = sub_mesh_record_bytes(s, ov, oi, oc, ocl, header_flags, v);
    let ob = object_bytes(s.object, v);
    let osz = object_size(v);
    let d = pre + rec + post;
    let p = pre.len() as int;
    lemma_object_roundtrip(pre, s.object, v, rec.skip(osz) + post);
    assert(ob.len() == osz);
    assert(pre + ob + (rec.skip(osz) + post) =~= d);
    let c: int = if has_extended_fields(v) {
        4
    } else {
        0
    };
    let ext = if has_extended_fields(v) {
        spec_u32_to_le_bytes(color1_or_zero(s.num_indices_extra))
    } else {
        Seq::empty()
    };
    assert(rec == ob + spec_u32_to_le_bytes(s.num_vertices) + spec_u32_to_le_bytes(ov) + spec_u32_to_le_bytes(
        s.num_indices,
    ) + ext + spec_u32_to_le_bytes(oi) + spec_u32_to_le_bytes(oc) + spec_u32_to_le_bytes(ocl)
        + spec_u32_to_le_bytes(uv_channels(header_flags, v)));
    assert(rec.len() == osz + 28 + c);
    assert(rec.subrange(osz, osz + 4) =~= spec_u32_to_le_bytes(s.num_vertices));
    assert(rec.subrange(osz + 4, osz + 8) =~= spec_u32_to_le_bytes(ov));
    assert(rec.subrange(osz + 8, osz + 12) =~= spec_u32_to_le_bytes(s.num_indices));
    assert(rec.subrange(osz + 12 + c, osz + 16 + c) =~= spec_u32_to_le_bytes(oi));
    assert(rec.subrange(osz + 16 + c, osz + 20 + c) =~= spec_u32_to_le_bytes(oc));
    assert(rec.subrange(osz + 20 + c, osz + 24 + c) =~= spec_u32_to_le_bytes(ocl));
    assert(rec.subrange(osz + 24 + c, osz + 28 + c) =~= spec_u32_to_le_bytes(uv_channels(header_flags, v)));
    lemma_u32_back(pre, rec, post, osz, s.num_vertices);
    lemma_u32_back(pre, rec, post, osz + 4, ov);
    lemma_u32_back(pre, rec, post, osz + 8, s.num_indices);
    if has_extended_fields(v) {
        assert(rec.subrange(osz + 12, osz + 16) =~= ext);
        lemma_u32_back(pre, rec, post, osz + 12, color1_or_zero(s.num_indices_extra));
    }
    lemma_u32_back(pre, rec, post, osz + 12 + c, oi);
    lemma_u32_back(pre, rec, post, osz + 16 + c, oc);
    lemma_u32_back(pre, rec, post, osz + 20 + c, ocl);
    lemma_u32_back(pre, rec, post, osz + 24 + c, uv_channels(header_flags, v));
}


/// A position below 2^32 is its own low 32 bits.
pub proof fn lemma_low32(x: int)
    requires
        0 <= x <= u32::MAX,
    ensures
        low32(x) == x,
{
}

/// Reading back the vertices written as a sub-mesh's part, into the record
/// `r` read back for it.
proof fn lemma_vertices_part_back(
    b: Seq<u8>,
    s: SubMeshModel,
    d: Seq<u8>,
    k: int,
    r: SubMeshModel,
    header_flags: u32,
    draw_destination: u8,
    mesh_flags: u8,
)
    requires
        b.len() > 0,
        put_part(b, vertices_part(s, header_flags, draw_destination, mesh_flags)).0.len() <= u32::MAX,
        k <= b.len(),
        holds_from(d, put_part(b, vertices_part(s, header_flags, draw_destination, mesh_flags)).0, k),
        r.offset_vertices == put_part(b, vertices_part(s, header_flags, draw_destination, mesh_flags)).1,
        r.num_vertices == s.num_vertices,
        r.object.flags == s.object.flags,
        s.vertices matches Some(vs) ==> s.num_vertices > 0 && vertices_as_stored(
            vs,
            s.num_vertices,
            header_flags,
            mesh_flags,
            r.object.flags,
            r.object.color1,
        ),
        r.vertices is None,
    ensures
        with_vertices(d, r, header_flags, draw_destination, mesh_flags) == Ok::<SubMeshModel, PrimError>(
            SubMeshModel { vertices: s.vertices, ..r },
        ),
{
    match s.vertices {
        Some(vs) => {
            let x = vertices_part(s, header_flags, draw_destination, mesh_flags).unwrap();
            let a = aligned(b + x, 16);
            lemma_holds_aligned(d, b, x, k);
            lemma_low32(b.len() as int);
            lemma_vertices_roundtrip(
                d.take(b.len() as int),
                vs,
                d.skip(a.len() as int),
                header_flags,
                draw_destination,
                mesh_flags,
                r.object.flags,
                r.object.color1,
                s.num_vertices,
            );
        },
        None => {
            assert(SubMeshModel { vertices: s.vertices, ..r } == r);
        },
    }
}

/// Reading back the indices written as a sub-mesh's part.
proof fn lemma_indices_part_back(b: Seq<u8>, s: SubMeshModel, d: Seq<u8>, k: int, r: SubMeshModel)
    requires
        b.len() > 0,
        put_part(b, indices_part(s)).0.len() <= u32::MAX,
        k <= b.len(),
        holds_from(d, put_part(b, indices_part(s)).0, k),
        r.offset_indices == put_part(b, indices_part(s)).1,
        r.num_indices == s.num_indices,
        s.indices matches Some(ix) ==> s.num_indices > 0 && index_count(s.num_indices, r.num_indices_extra)
            == ix.len() && ix.len() <= u32::MAX,
        r.indices is None,
    ensures
        with_indices(d, r) == Ok::<SubMeshModel, PrimError>(SubMeshModel { indices: s.indices, ..r }),
{
    match s.indices {
        Some(ix) => {
            let a = aligned(b + u16s_bytes(ix), 16);
            lemma_holds_aligned(d, b, u16s_bytes(ix), k);
            lemma_low32(b.len() as int);
            lemma_indices_roundtrip(d.take(b.len() as int), ix, d.skip(a.len() as int), s.num_indices, r.num_indices_extra);
        },
        None => {
            assert(SubMeshModel { indices: s.indices, ..r } == r);
        },
    }
}

/// Reading back the collision data written as a sub-mesh's part.
proof fn lemma_collision_part_back(b: Seq<u8>, s: SubMeshModel, d: Seq<u8>, k: int, r: SubMeshModel)
    requires
        b.len() > 0,
        put_part(b, collision_part(s)).0.len() <= u32::MAX,
        k <= b.len(),
        holds_from(d, put_part(b, collision_part(s)).0, k),
        r.offset_collision == put_part(b, collision_part(s)).1,
        s.collision matches Some(c) ==> c.bounding_boxes.len() < 0x10000,
        r.collision is None,
    ensures
        with_collision(d, r) == Ok::<SubMeshModel, PrimError>(SubMeshModel { collision: s.collision, ..r }),
{
    match s.collision {
        Some(c) => {
            let a = aligned(b + collision_bytes(c), 16);
            lemma_holds_aligned(d, b, collision_bytes(c), k);
            lemma_low32(b.len() as int);
            lemma_collision_roundtrip(d.take(b.len() as int), c, d.skip(a.len() as int));
        },
        None => {
            assert(SubMeshModel { collision: s.collision, ..r } == r);
        },
    }
}

/// Reading back the cloth data written as a sub-mesh's part: there only in
/// the layouts of HM2016 and WOA.
proof fn lemma_cloth_part_back(
    b: Seq<u8>,
    s: SubMeshModel,
    d: Seq<u8>,
    k: int,
    r: SubMeshModel,
    cloth_id: u8,
    v: GameVersion,
)
    requires
        b.len() > 0,
        put_part(b, s.cloth).0.len() <= u32::MAX,
        k <= b.len(),
        holds_from(d, put_part(b, s.cloth).0, k),
        r.offset_cloth == put_part(b, s.cloth).1,
        r.num_vertices == s.num_vertices,
        has_extended_fields(v) ==> (s.cloth matches Some(c) ==> cloth_shaped(c, s.num_vertices, cloth_id)),
        r.cloth is None,
    ensures
        with_cloth(d, r, cloth_id, v) == Ok::<SubMeshModel, PrimError>(
            SubMeshModel {
                cloth: if has_extended_fields(v) {
                    s.cloth
                } else {
                    None
                },
                ..r
            },
        ),
{
    match s.cloth {
        Some(c) => {
            if has_extended_fields(v) {
                let a = aligned(b + c, 16);
                lemma_holds_aligned(d, b, c, k);
                lemma_low32(b.len() as int);
                lemma_cloth_roundtrip(d.take(b.len() as int), c, d.skip(a.len() as int), s.num_vertices, cloth_id);
            } else {
                assert(SubMeshModel { cloth: None, ..r } == r);
            }
        },
        None => {
            assert(SubMeshModel { cloth: None, ..r } == r);
        },
    }
}

/// Each stage of writing a sub-mesh after `buf` starts what was written,
/// and `d`, which holds what was written from `k` on, holds each stage.
proof fn lemma_sub_mesh_prefixes(
    buf: Seq<u8>,
    s: SubMeshModel,
    d: Seq<u8>,
    k: int,
    header_flags: u32,
    draw_destination: u8,
    mesh_flags: u8,
    v: GameVersion,
)
    requires
        holds_from(d, write_sub_mesh(buf, s, header_flags, draw_destination, mesh_flags, v).0, k),
        k <= buf.len(),
    ensures
        ({
            let (b8, oi, ov, oc, ocl) = write_sub_mesh_parts(buf, s, header_flags, draw_destination, mesh_flags);
            let rec = sub_mesh_record_bytes(s, ov, oi, oc, ocl, header_flags, v);
            let b9 = aligned(b8 + rec, 16);
            let b1 = put_part(buf, indices_part(s)).0;
            let b2 = aligned(b1, 16);
            let b3 = put_part(b2, vertices_part(s, header_flags, draw_destination, mesh_flags)).0;
            let b4 = aligned(b3, 16);
            let b5 = put_part(b4, collision_part(s)).0;
            let b6 = aligned(b5, 16);
            let b7 = put_part(b6, s.cloth).0;
            &&& b8 == aligned(b7, 16)
            &&& holds_from(d, b8 + rec, k)
            &&& holds_from(d, b7, k)
            &&& holds_from(d, b5, k)
            &&& holds_from(d, b3, k)
            &&& holds_from(d, b1, k)
            &&& buf.is_prefix_of(write_sub_mesh(buf, s, header_flags, draw_destination, mesh_flags, v).0)
            &&& b9.len() >= b8.len() >= b7.len() >= b6.len() >= b5.len() >= b4.len() >= b3.len() >= b2.len()
                >= b1.len() >= buf.len()
        }),
{
    reveal(write_sub_mesh);
    let (b8, oi, ov, oc, ocl) = write_sub_mesh_parts(buf, s, header_flags, draw_destination, mesh_flags);
    let (b1, oi1) = put_part(buf, indices_part(s));
    let b2 = aligned(b1, 16);
    let (b3, ov1) = put_part(b2, vertices_part(s, header_flags, draw_destination, mesh_flags));
    let b4 = aligned(b3, 16);
    let (b5, oc1) = put_part(b4, collision_part(s));
    let b6 = aligned(b5, 16);
    let (b7, ocl1) = put_part(b6, s.cloth);
    assert(b8 == aligned(b7, 16) && oi == oi1 && ov == ov1 && oc == oc1 && ocl == ocl1);
    let rec = sub_mesh_record_bytes(s, ov, oi, oc, ocl, header_flags, v);
    let b9 = aligned(b8 + rec, 16);
    let oo = low32(b8.len() as int);
    let tab = b9 + spec_u32_to_le_bytes(oo);
    let b = aligned(tab, 16);
    lemma_aligned_extends(tab);
    assert(tab.subrange(0, b9.len() as int) =~= b9);
    lemma_prefix_trans(b9, tab, b);
    lemma_aligned_extends(b8 + rec);
    assert((b8 + rec).subrange(0, b8.len() as int) =~= b8);
    lemma_prefix_trans(b8 + rec, b9, b);
    lemma_prefix_trans(b8, b8 + rec, b);
    lemma_aligned_extends(b7);
    lemma_prefix_trans(b7, b8, b);
    lemma_put_part_extends(b6, s.cloth);
    lemma_prefix_trans(b6, b7, b);
    lemma_aligned_extends(b5);
    lemma_prefix_trans(b5, b6, b);
    lemma_put_part_extends(b4, collision_part(s));
    lemma_prefix_trans(b4, b5, b);
    lemma_aligned_extends(b3);
    lemma_prefix_trans(b3, b4, b);
    lemma_put_part_extends(b2, vertices_part(s, header_flags, draw_destination, mesh_flags));
    lemma_prefix_trans(b2, b3, b);
    lemma_aligned_extends(b1);
    lemma_prefix_trans(b1, b2, b);
    lemma_put_part_extends(buf, indices_part(s));
    lemma_prefix_trans(buf, b1, b);
    lemma_holds_prefix(d, b8 + rec, b, k);
    lemma_holds_prefix(d, b7, b, k);
    lemma_holds_prefix(d, b5, b, k);
    lemma_holds_prefix(d, b3, b, k);
    lemma_holds_prefix(d, b1, b, k);
}

/// A record written after `b8`, padded to 16, then an entry holding the
/// offset of the record, padded to 16: the entry stands at the offset of
/// its own and holds where the record starts, in `d` that holds it all from
/// `k` on.
proof fn lemma_table_back(b8: Seq<u8>, rec: Seq<u8>, d: Seq<u8>, k: int)
    requires
        aligned(aligned(b8 + rec, 16) + spec_u32_to_le_bytes(low32(b8.len() as int)), 16).len() <= u32::MAX,
        holds_from(d, aligned(aligned(b8 + rec, 16) + spec_u32_to_le_bytes(low32(b8.len() as int)), 16), k),
        k <= b8.len(),
    ensures
        ({
            let b9 = aligned(b8 + rec, 16);
            let b = aligned(b9 + spec_u32_to_le_bytes(low32(b8.len() as int)), 16);
            &&& b8.is_prefix_of(b)
            &&& low32(b9.len() as int) + 4 <= b.len()
            &&& u32_at(d, low32(b9.len() as int) as int) == b8.len()
        }),
{
    lemma_auto_spec_u32_to_from_le_bytes();
    let b9 = aligned(b8 + rec, 16);
    let oo = low32(b8.len() as int);
    let e = spec_u32_to_le_bytes(oo);
    let tab = b9 + e;
    let b = aligned(tab, 16);
    lemma_aligned_extends(tab);
    lemma_aligned_extends(b8 + rec);
    assert(tab.subrange(0, b9.len() as int) =~= b9);
    assert((b8 + rec).subrange(0, b8.len() as int) =~= b8);
    lemma_prefix_trans(b9, tab, b);
    lemma_prefix_trans(b8 + rec, b9, b);
    lemma_prefix_trans(b8, b8 + rec, b);
    lemma_low32(b8.len() as int);
    lemma_low32(b9.len() as int);
    lemma_holds_prefix(d, tab, b, k);
    lemma_holds_split(d, b9, e, k);
    assert(e.subrange(0, 4) =~= e);
    lemma_u32_back(d.take(b9.len() as int), e, d.skip(tab.len() as int), 0, oo);
}

/// Where the table of a sub-mesh written after `buf` stands, and that its
/// entry is the offset of the sub-mesh's record.
proof fn lemma_sub_mesh_table_back(
    buf: Seq<u8>,
    s: SubMeshModel,
    d: Seq<u8>,
    k: int,
    header_flags: u32,
    draw_destination: u8,
    mesh_flags: u8,
    v: GameVersion,
)
    requires
        write_sub_mesh(buf, s, header_flags, draw_destination, mesh_flags, v).0.len() <= u32::MAX,
        holds_from(d, write_sub_mesh(buf, s, header_flags, draw_destination, mesh_flags, v).0, k),
        k <= buf.len(),
    ensures
        ({
            let (b, t) = write_sub_mesh(buf, s, header_flags, draw_destination, mesh_flags, v);
            let b8 = write_sub_mesh_parts(buf, s, header_flags, draw_destination, mesh_flags).0;
            &&& buf.is_prefix_of(b)
            &&& t + 4 <= b.len()
            &&& u32_at(d, t as int) == b8.len()
        }),
{
    reveal(write_sub_mesh);
    let (b8, oi, ov, oc, ocl) = write_sub_mesh_parts(buf, s, header_flags, draw_destination, mesh_flags);
    let rec = sub_mesh_record_bytes(s, ov, oi, oc, ocl, header_flags, v);
    lemma_sub_mesh_prefixes(buf, s, d, k, header_flags, draw_destination, mesh_flags, v);
    lemma_table_back(b8, rec, d, k);
}

/// Reading the record of a sub-mesh written after `buf`, and the parts it
/// points to, gives the sub-mesh as the layout stores it.
#[verifier::rlimit(30)]
proof fn lemma_sub_mesh_parse_back(
    buf: Seq<u8>,
    s: SubMeshModel,
    d: Seq<u8>,
    k: int,
    header_flags: u32,
    draw_destination: u8,
    mesh_flags: u8,
    cloth_id: u8,
    v: GameVersion,
)
    requires
        buf.len() > 0,
        sub_mesh_readable(s, header_flags, mesh_flags, cloth_id, v),
        write_sub_mesh(buf, s, header_flags, draw_destination, mesh_flags, v).0.len() <= u32::MAX,
        holds_from(d, write_sub_mesh(buf, s, header_flags, draw_destination, mesh_flags, v).0, k),
        k <= buf.len(),
    ensures
        ({
            let (b8, oi, ov, oc, ocl) = write_sub_mesh_parts(buf, s, header_flags, draw_destination, mesh_flags);
            parse_sub_mesh(d, b8.len() as int, header_flags, draw_destination, mesh_flags, cloth_id, v)
                == Ok::<SubMeshModel, PrimError>(sub_mesh_read_back(s, oi, ov, oc, ocl, header_flags, v))
        }),
{
    reveal(write_sub_mesh);
    let (b8, oi, ov, oc, ocl) = write_sub_mesh_parts(buf, s, header_flags, draw_destination, mesh_flags);
    let rec = sub_mesh_record_bytes(s, ov, oi, oc, ocl, header_flags, v);
    let b2 = aligned(put_part(buf, indices_part(s)).0, 16);
    let b4 = aligned(put_part(b2, vertices_part(s, header_flags, draw_destination, mesh_flags)).0, 16);
    let b6 = aligned(put_part(b4, collision_part(s)).0, 16);
    let r = sub_mesh_read_back(s, oi, ov, oc, ocl, header_flags, v);
    let r0 = SubMeshModel { vertices: None, indices: None, collision: None, cloth: None, ..r };
    let r1 = SubMeshModel { vertices: s.vertices, ..r0 };
    let r2 = SubMeshModel { indices: s.indices, ..r1 };
    let r3 = SubMeshModel { collision: s.collision, ..r2 };
    lemma_sub_mesh_prefixes(buf, s, d, k, header_flags, draw_destination, mesh_flags, v);
    assert(parse_sub_mesh_fields(d, b8.len() as int, v) == Ok::<(SubMeshModel, int), PrimError>(
        (r0, b8.len() + rec.len() as int),
    )) by {
        lemma_holds_split(d, b8, rec, k);
        lemma_sub_mesh_record_back(
            d.take(b8.len() as int),
            s,
            d.skip((b8 + rec).len() as int),
            ov,
            oi,
            oc,
            ocl,
            header_flags,
            v,
        );
    }
    assert(with_vertices(d, r0, header_flags, draw_destination, mesh_flags) == Ok::<SubMeshModel, PrimError>(r1))
        by {
        lemma_vertices_part_back(b2, s, d, k, r0, header_flags, draw_destination, mesh_flags);
    }
    assert(with_indices(d, r1) == Ok::<SubMeshModel, PrimError>(r2)) by {
        lemma_indices_part_back(buf, s, d, k, r1);
    }
    assert(with_collision(d, r2) == Ok::<SubMeshModel, PrimError>(r3)) by {
        lemma_collision_part_back(b4, s, d, k, r2);
    }
    assert(with_cloth(d, r3, cloth_id, v) == Ok::<SubMeshModel, PrimError>(r)) by {
        lemma_cloth_part_back(b6, s, d, k, r3, cloth_id, v);
        assert(SubMeshModel {
            cloth: if has_extended_fields(v) {
                s.cloth
            } else {
                None
            },
            ..r3
        } == r);
    }
    lemma_sub_mesh_compose(
        d,
        b8.len() as int,
        r0,
        r1,
        r2,
        r3,
        r,
        b8.len() + rec.len() as int,
        header_flags,
        draw_destination,
        mesh_flags,
        cloth_id,
        v,
    );
}

/// Reading a sub-mesh is reading its record, then its vertices, indices,
/// collision data and cloth data in turn.
proof fn lemma_sub_mesh_compose(
    d: Seq<u8>,
    p: int,
    r0: SubMeshModel,
    r1: SubMeshModel,
    r2: SubMeshModel,
    r3: SubMeshModel,
    r: SubMeshModel,
    q: int,
    header_flags: u32,
    draw_destination: u8,
    mesh_flags: u8,
    cloth_id: u8,
    v: GameVersion,
)
    requires
        parse_sub_mesh_fields(d, p, v) == Ok::<(SubMeshModel, int), PrimError>((r0, q)),
        with_vertices(d, r0, header_flags, draw_destination, mesh_flags) == Ok::<SubMeshModel, PrimError>(r1),
        with_indices(d, r1) == Ok::<SubMeshModel, PrimError>(r2),
        with_collision(d, r2) == Ok::<SubMeshModel, PrimError>(r3),
        with_cloth(d, r3, cloth_id, v) == Ok::<SubMeshModel, PrimError>(r),
    ensures
        parse_sub_mesh(d, p, header_flags, draw_destination, mesh_flags, cloth_id, v) == Ok::<SubMeshModel, PrimError>(r),
{
}

/// A sub-mesh written after `buf` (which is not empty), with all it wrote
/// below 2^32 bytes, reads back from where its table points, in any `d`
/// that holds what was written from a position `k` within `buf` on: the
/// table's entry is the offset of its record, and reading the record gives
/// the sub-mesh with the offsets its parts were written at, as the layout
/// stores it.
pub proof fn lemma_sub_mesh_roundtrip(
    buf: Seq<u8>,
    s: SubMeshModel,
    d: Seq<u8>,
    k: int,
    header_flags: u32,
    draw_destination: u8,
    mesh_flags: u8,
    cloth_id: u8,
    v: GameVersion,
)
    requires
        buf.len() > 0,
        k <= buf.len(),
        sub_mesh_readable(s, header_flags, mesh_flags, cloth_id, v),
        write_sub_mesh(buf, s, header_flags, draw_destination, mesh_flags, v).0.len() <= u32::MAX,
        holds_from(d, write_sub_mesh(buf, s, header_flags, draw_destination, mesh_flags, v).0, k),
    ensures
        ({
            let (b, t) = write_sub_mesh(buf, s, header_flags, draw_destination, mesh_flags, v);
            let (b8, oi, ov, oc, ocl) = write_sub_mesh_parts(buf, s, header_flags, draw_destination, mesh_flags);
            &&& buf.is_prefix_of(b)
            &&& t + 4 <= b.len()
            &&& u32_at(d, t as int) == b8.len()
            &&& parse_sub_mesh(d, b8.len() as int, header_flags, draw_destination, mesh_flags, cloth_id, v)
                == Ok::<SubMeshModel, PrimError>(sub_mesh_read_back(s, oi, ov, oc, ocl, header_flags, v))
        }),
{
    lemma_sub_mesh_table_back(buf, s, d, k, header_flags, draw_destination, mesh_flags, v);
    lemma_sub_mesh_parse_back(buf, s, d, k, header_flags, draw_destination, mesh_flags, cloth_id, v);
}

/// Four `u32` values read back from their bytes.
proof fn lemma_u32x4_back(pre: Seq<u8>, x: Seq<u8>, post: Seq<u8>, a: int, val: [u32; 4])
    requires
        0 <= a,
        a + 16 <= x.len(),
        x.subrange(a, a + 16) == u32s_bytes(val@),
    ensures
        u32x4_at(pre + x + post, pre.len() + a) == val,
{
    lemma_u32s_bytes(val@);
    assert forall|i: int| 0 <= i < 4 implies u32_at(pre + x + post, pre.len() + a + 4 * i) == val@[i] by {
        assert(x.subrange(a + 4 * i, a + 4 * i + 4) =~= u32s_bytes(val@).subrange(4 * i, 4 * i + 4));
        lemma_u32_back(pre, x, post, a + 4 * i, val@[i]);
    }
    assert(u32_at(pre + x + post, pre.len() + a + 4 * 1) == val@[1]);
    assert(u32_at(pre + x + post, pre.len() + a + 4 * 2) == val@[2]);
    assert(u32_at(pre + x + post, pre.len() + a + 4 * 3) == val@[3]);
    assert(u32x4_at(pre + x + post, pre.len() + a)@ =~= val@);
}

/// Two `u32` values read back from their bytes.
proof fn lemma_u32x2_back(pre: Seq<u8>, x: Seq<u8>, post: Seq<u8>, a: int, val: [u32; 2])
    requires
        0 <= a,
        a + 8 <= x.len(),
        x.subrange(a, a + 8) == u32s_bytes(val@),
    ensures
        u32x2_at(pre + x + post, pre.len() + a) == val,
{
    lemma_u32s_bytes(val@);
    assert forall|i: int| 0 <= i < 2 implies u32_at(pre + x + post, pre.len() + a + 4 * i) == val@[i] by {
        assert(x.subrange(a + 4 * i, a + 4 * i + 4) =~= u32s_bytes(val@).subrange(4 * i, 4 * i + 4));
        lemma_u32_back(pre, x, post, a + 4 * i, val@[i]);
    }
    assert(u32_at(pre + x + post, pre.len() + a + 4 * 1) == val@[1]);
    assert(u32x2_at(pre + x + post, pre.len() + a)@ =~= val@);
}

/// Reading back the record of a mesh gives its object as the layout stores
/// it, the sub-mesh table offset written, and its scales, biases, cloth id
/// and padding.
pub proof fn lemma_mesh_record_back(pre: Seq<u8>, m: MeshModel, t: u32, post: Seq<u8>, v: GameVersion)
    ensures
        mesh_record_bytes(m, t, v).len() == object_size(v) + 56,
        parse_mesh_fields(pre + mesh_record_bytes(m, t, v) + post, pre.len() as int, v) == Ok::<
            (MeshModel, int),
            PrimError,
        >(
            (
                MeshModel { object: object_as_stored(m.object, v), sub_mesh_table: t, sub_mesh: None, ..m },
                pre.len() + object_size(v) + 56,
            ),
        ),
{
    lemma_auto_spec_u32_to_from_le_bytes();
    lemma_u32s_bytes(m.position_scale@);
    lemma_u32s_bytes(m.position_bias@);
    lemma_u32s_bytes(m.uv_scale@);
    lemma_u32s_bytes(m.uv_bias@);
    let rec = mesh_record_bytes(m, t, v);
    let ob = object_bytes(m.object, v);
    let osz = object_size(v);
    let d = pre + rec + post;
    let p = pre.len() as int;
    lemma_object_roundtrip(pre, m.object, v, rec.skip(osz) + post);
    assert(pre + ob + (rec.skip(osz) + post) =~= d);
    assert(rec.len() == osz + 56);
    assert(rec.subrange(osz, osz + 4) =~= spec_u32_to_le_bytes(t));
    lemma_u32_back(pre, rec, post, osz, t);
    assert(rec.subrange(osz + 4, osz + 20) =~= u32s_bytes(m.position_scale@));
    lemma_u32x4_back(pre, rec, post, osz + 4, m.position_scale);
    assert(rec.subrange(osz + 20, osz + 36) =~= u32s_bytes(m.position_bias@));
    lemma_u32x4_back(pre, rec, post, osz + 20, m.position_bias);
    assert(rec.subrange(osz + 36, osz + 44) =~= u32s_bytes(m.uv_scale@));
    lemma_u32x2_back(pre, rec, post, osz + 36, m.uv_scale);
    assert(rec.subrange(osz + 44, osz + 52) =~= u32s_bytes(m.uv_bias@));
    lemma_u32x2_back(pre, rec, post, osz + 44, m.uv_bias);
    assert(d[p + osz + 52] == m.cloth_id);
    assert(d[p + osz + 53] == m.pad[0]);
    assert(d[p + osz + 54] == m.pad[1]);
    assert(d[p + osz + 55] == m.pad[2]);
    broadcast use vstd::array::group_array_axioms;
    assert([d[p + osz + 53], d[p + osz + 54], d[p + osz + 55]] =~= m.pad);
    assert(parse_object(d, p, v) == Ok::<(SPrimObject, int), PrimError>((object_as_stored(m.object, v), p + osz)));
    assert(mesh_fields_at(d, p + osz, object_as_stored(m.object, v)) == MeshModel {
        object: object_as_stored(m.object, v),
        sub_mesh_table: t,
        sub_mesh: None,
        ..m
    });
}

/// A mesh has the shape that reading it back in the layout of `v` gives:
/// it has a sub-mesh, and that has the shape its reading gives.
pub open spec fn mesh_readable(m: MeshModel, header_flags: u32, v: GameVersion) -> bool {
    &&& m.sub_mesh is Some
    &&& sub_mesh_readable(m.sub_mesh.unwrap(), header_flags, m.object.flags, m.cloth_id, v)
}

/// What reading back a mesh whose sub-mesh was written after `buf` gives:
/// its object as the layout stores it, the offset of the sub-mesh's table,
/// and the sub-mesh read back with the offsets its parts were written at.
pub open spec fn mesh_read_back(m: MeshModel, buf: Seq<u8>, header_flags: u32, v: GameVersion) -> MeshModel {
    let s = m.sub_mesh.unwrap();
    let (b8, oi, ov, oc, ocl) = write_sub_mesh_parts(
        buf,
        s,
        header_flags,
        m.object.header.draw_destination,
        m.object.flags,
    );
    MeshModel {
        object: object_as_stored(m.object, v),
        sub_mesh_table: write_mesh_sub_mesh(buf, m, header_flags, v).1,
        sub_mesh: Some(sub_mesh_read_back(s, oi, ov, oc, ocl, header_flags, v)),
        ..m
    }
}

/// A mesh whose sub-mesh was written after `buf`, with its record written
/// after `b7` (which follows the sub-mesh), reads back from where the
/// record starts, in any `d` that holds it all from a position `k` within
/// `buf` on.
pub proof fn lemma_mesh_back(
    buf: Seq<u8>,
    m: MeshModel,
    b7: Seq<u8>,
    d: Seq<u8>,
    k: int,
    header_flags: u32,
    v: GameVersion,
)
    requires
        buf.len() > 0,
        k <= buf.len(),
        mesh_readable(m, header_flags, v),
        write_mesh_sub_mesh(buf, m, header_flags, v).0.is_prefix_of(b7),
        (b7 + mesh_record_bytes(m, write_mesh_sub_mesh(buf, m, header_flags, v).1, v)).len() <= u32::MAX,
        holds_from(d, b7 + mesh_record_bytes(m, write_mesh_sub_mesh(buf, m, header_flags, v).1, v), k),
    ensures
        buf.is_prefix_of(b7),
        write_mesh_sub_mesh(buf, m, header_flags, v).1 + 4 <= write_mesh_sub_mesh(buf, m, header_flags, v).0.len(),
        mesh_record_bytes(m, write_mesh_sub_mesh(buf, m, header_flags, v).1, v).len() == object_size(v) + 56,
        parse_mesh(d, b7.len() as int, header_flags, v) == Ok::<(MeshModel, int), PrimError>(
            (mesh_read_back(m, buf, header_flags, v), b7.len() + object_size(v) + 56),
        ),
{
    let s = m.sub_mesh.unwrap();
    let dd = m.object.header.draw_destination;
    let mf = m.object.flags;
    let (b1, t) = write_mesh_sub_mesh(buf, m, header_flags, v);
    assert((b1, t) == write_sub_mesh(buf, s, header_flags, dd, mf, v));
    let rec = mesh_record_bytes(m, t, v);
    let b = b7 + rec;
    assert(b.subrange(0, b7.len() as int) =~= b7);
    lemma_prefix_trans(b1, b7, b);
    lemma_write_mesh_sub_mesh_extends(buf, m, header_flags, v);
    lemma_holds_prefix(d, b1, b, k);
    lemma_sub_mesh_roundtrip(buf, s, d, k, header_flags, dd, mf, m.cloth_id, v);
    lemma_prefix_trans(buf, b1, b7);
    lemma_holds_split(d, b7, rec, k);
    lemma_mesh_record_back(d.take(b7.len() as int), m, t, d.skip(b.len() as int), v);
    let m0 = MeshModel { object: object_as_stored(m.object, v), sub_mesh_table: t, sub_mesh: None, ..m };
    assert(parse_mesh_fields(d, b7.len() as int, v) == Ok::<(MeshModel, int), PrimError>(
        (m0, b7.len() + object_size(v) + 56),
    ));
    assert(take_u32(d, t as int) == Ok::<(u32, int), PrimError>((u32_at(d, t as int), t + 4)));
}

/// A weighted mesh has the shape that reading it back in the layout of `v`
/// gives: its mesh has; its copy bones, where it has some, are twice as many
/// as its nonzero count; its bone indices fit the count the layout stores;
/// and its bone info starts with its own size.
pub open spec fn weighted_readable(w: WeightedModel, header_flags: u32, v: GameVersion) -> bool {
    &&& mesh_readable(w.mesh, header_flags, v)
    &&& (w.copy_bones matches Some(c) ==> w.num_copy_bones > 0 && c.len() == w.num_copy_bones * 2
        && w.num_copy_bones * 2 <= u32::MAX)
    &&& (w.bone_indicies matches Some(b) ==> (has_short_counts(v) ==> b.len() + 1 < 0x10000) && (!has_short_counts(v)
        ==> b.len() + 2 < 0x1_0000_0000))
    &&& (w.bone_info matches Some(b) ==> b.len() >= 2 && spec_u16_from_le_bytes(b.subrange(0, 2)) == b.len())
}

/// What reading back a weighted mesh written after `buf` gives: its mesh
/// read back, and the offsets its bone parts were written at.
pub open spec fn weighted_read_back(w: WeightedModel, buf: Seq<u8>, header_flags: u32, v: GameVersion) -> WeightedModel {
    let b1 = write_mesh_sub_mesh(buf, w.mesh, header_flags, v).0;
    let (b7, ocb, obi, obx) = write_weighted_parts(b1, w, v);
    WeightedModel {
        mesh: mesh_read_back(w.mesh, buf, header_flags, v),
        offset_copy_bones: ocb,
        offset_bone_indicies: obx,
        offset_bone_info: obi,
        ..w
    }
}

/// Reading back the copy bones written as a weighted mesh's part.
proof fn lemma_copy_bones_part_back(b: Seq<u8>, w: WeightedModel, d: Seq<u8>, k: int, r: WeightedModel)
    requires
        b.len() > 0,
        k <= b.len(),
        put_part(b, copy_bones_part(w)).0.len() <= u32::MAX,
        holds_from(d, put_part(b, copy_bones_part(w)).0, k),
        r.offset_copy_bones == put_part(b, copy_bones_part(w)).1,
        r.num_copy_bones == w.num_copy_bones,
        w.copy_bones matches Some(c) ==> w.num_copy_bones > 0 && c.len() == w.num_copy_bones * 2
            && w.num_copy_bones * 2 <= u32::MAX,
        r.copy_bones is None,
    ensures
        with_copy_bones(d, r) == Ok::<WeightedModel, PrimError>(WeightedModel { copy_bones: w.copy_bones, ..r }),
{
    match w.copy_bones {
        Some(c) => {
            lemma_holds_aligned(d, b, u32s_bytes(c), k);
            lemma_low32(b.len() as int);
            lemma_copy_bones_roundtrip(
                d.take(b.len() as int),
                c,
                d.skip(aligned(b + u32s_bytes(c), 16).len() as int),
                w.num_copy_bones,
            );
        },
        None => {
            assert(WeightedModel { copy_bones: w.copy_bones, ..r } == r);
        },
    }
}

/// Reading back the bone indices written as a weighted mesh's part.
proof fn lemma_bone_indices_part_back(b: Seq<u8>, w: WeightedModel, d: Seq<u8>, k: int, r: WeightedModel, v: GameVersion)
    requires
        b.len() > 0,
        k <= b.len(),
        put_part(b, bone_indices_part(w, v)).0.len() <= u32::MAX,
        holds_from(d, put_part(b, bone_indices_part(w, v)).0, k),
        r.offset_bone_indicies == put_part(b, bone_indices_part(w, v)).1,
        w.bone_indicies matches Some(x) ==> (has_short_counts(v) ==> x.len() + 1 < 0x10000) && (!has_short_counts(v)
            ==> x.len() + 2 < 0x1_0000_0000),
        r.bone_indicies is None,
    ensures
        with_bone_indices(d, r, v) == Ok::<WeightedModel, PrimError>(
            WeightedModel { bone_indicies: w.bone_indicies, ..r },
        ),
{
    match w.bone_indicies {
        Some(x) => {
            lemma_holds_aligned(d, b, bone_indices_bytes(x, v), k);
            lemma_low32(b.len() as int);
            lemma_bone_indices_roundtrip(
                d.take(b.len() as int),
                x,
                d.skip(aligned(b + bone_indices_bytes(x, v), 16).len() as int),
                v,
            );
        },
        None => {
            assert(WeightedModel { bone_indicies: w.bone_indicies, ..r } == r);
        },
    }
}

/// Reading back the bone info written as a weighted mesh's part.
proof fn lemma_bone_info_part_back(b: Seq<u8>, w: WeightedModel, d: Seq<u8>, k: int, r: WeightedModel)
    requires
        b.len() > 0,
        k <= b.len(),
        put_part(b, w.bone_info).0.len() <= u32::MAX,
        holds_from(d, put_part(b, w.bone_info).0, k),
        r.offset_bone_info == put_part(b, w.bone_info).1,
        w.bone_info matches Some(x) ==> x.len() >= 2 && spec_u16_from_le_bytes(x.subrange(0, 2)) == x.len(),
        r.bone_info is None,
    ensures
        with_bone_info(d, r) == Ok::<WeightedModel, PrimError>(WeightedModel { bone_info: w.bone_info, ..r }),
{
    match w.bone_info {
        Some(x) => {
            lemma_holds_aligned(d, b, x, k);
            lemma_low32(b.len() as int);
            lemma_bone_info_roundtrip(d.take(b.len() as int), x, d.skip(aligned(b + x, 16).len() as int));
        },
        None => {
            assert(WeightedModel { bone_info: w.bone_info, ..r } == r);
        },
    }
}

/// The tail of a weighted mesh's record: its copy bone count and the
/// offsets of its copy bones, bone indices and bone info.
pub open spec fn weighted_tail_bytes(num_copy_bones: u32, ocb: u32, obx: u32, obi: u32) -> Seq<u8> {
    spec_u32_to_le_bytes(num_copy_bones) + spec_u32_to_le_bytes(ocb) + spec_u32_to_le_bytes(obx)
        + spec_u32_to_le_bytes(obi)
}

/// Writing a mesh's sub-mesh keeps what was there.
proof fn lemma_write_mesh_sub_mesh_extends(buf: Seq<u8>, m: MeshModel, header_flags: u32, v: GameVersion)
    ensures
        buf.is_prefix_of(write_mesh_sub_mesh(buf, m, header_flags, v).0),
{
    match m.sub_mesh {
        Some(s) => {
            let b = write_sub_mesh(buf, s, header_flags, m.object.header.draw_destination, m.object.flags, v).0;
            assert(b.subrange(0, b.len() as int) =~= b);
            lemma_sub_mesh_prefixes(
                buf,
                s,
                b,
                0,
                header_flags,
                m.object.header.draw_destination,
                m.object.flags,
                v,
            );
        },
        None => {
            assert(buf.subrange(0, buf.len() as int) =~= buf);
        },
    }
}

/// Writing a mesh keeps what was there.
proof fn lemma_write_mesh_extends(buf: Seq<u8>, m: MeshModel, header_flags: u32, v: GameVersion, t: u32)
    ensures
        buf.is_prefix_of(write_mesh(buf, m, header_flags, v, t).0),
{
    let b = write_mesh(buf, m, header_flags, v, t).0;
    if t == 0xFFFF_FFFF {
        let (b1, t1) = write_mesh_sub_mesh(buf, m, header_flags, v);
        lemma_write_mesh_sub_mesh_extends(buf, m, header_flags, v);
        assert(b.subrange(0, b1.len() as int) =~= b1);
        lemma_prefix_trans(buf, b1, b);
    } else {
        assert(b.subrange(0, buf.len() as int) =~= buf);
    }
}

/// The table of a mesh's sub-mesh, written below 2^32 bytes, ends within
/// what was written.
proof fn lemma_mesh_table_fits(buf: Seq<u8>, m: MeshModel, header_flags: u32, v: GameVersion)
    requires
        m.sub_mesh is Some,
        write_mesh_sub_mesh(buf, m, header_flags, v).0.len() <= u32::MAX,
    ensures
        write_mesh_sub_mesh(buf, m, header_flags, v).1 + 4 <= write_mesh_sub_mesh(buf, m, header_flags, v).0.len(),
{
    let s = m.sub_mesh.unwrap();
    let b = write_sub_mesh(buf, s, header_flags, m.object.header.draw_destination, m.object.flags, v).0;
    assert(b.subrange(0, b.len() as int) =~= b);
    lemma_sub_mesh_table_back(
        buf,
        s,
        b,
        0,
        header_flags,
        m.object.header.draw_destination,
        m.object.flags,
        v,
    );
}

/// Writing a weighted mesh keeps its sub-mesh, written first.
proof fn lemma_weighted_extends(buf: Seq<u8>, w: WeightedModel, header_flags: u32, v: GameVersion)
    ensures
        write_mesh_sub_mesh(buf, w.mesh, header_flags, v).0.is_prefix_of(write_weighted(buf, w, header_flags, v).0),
{
    let (b1, smt) = write_mesh_sub_mesh(buf, w.mesh, header_flags, v);
    let (b7, ocb, obi, obx) = write_weighted_parts(b1, w, v);
    let b8 = write_mesh(b7, w.mesh, header_flags, v, smt).0;
    let (b2, ocb1) = put_part(b1, copy_bones_part(w));
    let b3 = aligned(b2, 16);
    let (b4, obi1) = put_part(b3, w.bone_info);
    let b5 = aligned(b4, 16);
    let (b6, obx1) = put_part(b5, bone_indices_part(w, v));
    assert(b7 == aligned(b6, 16) && ocb == ocb1 && obi == obi1 && obx == obx1);
    let tail = weighted_tail_bytes(w.num_copy_bones, ocb, obx, obi);
    let b = aligned(b8 + tail, 16);
    assert(b == write_weighted(buf, w, header_flags, v).0);
    lemma_put_part_extends(b1, copy_bones_part(w));
    lemma_aligned_extends(b2);
    lemma_put_part_extends(b3, w.bone_info);
    lemma_aligned_extends(b4);
    lemma_put_part_extends(b5, bone_indices_part(w, v));
    lemma_aligned_extends(b6);
    lemma_prefix_trans(b1, b2, b3);
    lemma_prefix_trans(b1, b3, b4);
    lemma_prefix_trans(b1, b4, b5);
    lemma_prefix_trans(b1, b5, b6);
    lemma_prefix_trans(b1, b6, b7);
    lemma_write_mesh_extends(b7, w.mesh, header_flags, v, smt);
    lemma_prefix_trans(b1, b7, b8);
    assert((b8 + tail).subrange(0, b8.len() as int) =~= b8);
    lemma_prefix_trans(b1, b8, b8 + tail);
    lemma_aligned_extends(b8 + tail);
    lemma_prefix_trans(b1, b8 + tail, b);
}

/// Each stage of writing a weighted mesh after `buf` starts what was
/// written, and `d`, which holds what was written from `k` on, holds each
/// stage.
#[verifier::rlimit(30)]
proof fn lemma_weighted_prefixes(buf: Seq<u8>, w: WeightedModel, d: Seq<u8>, k: int, header_flags: u32, v: GameVersion)
    requires
        holds_from(d, write_weighted(buf, w, header_flags, v).0, k),
        k <= write_mesh_sub_mesh(buf, w.mesh, header_flags, v).0.len(),
        write_mesh_sub_mesh(buf, w.mesh, header_flags, v).1 != 0xFFFF_FFFF,
    ensures
        ({
            let (b1, smt) = write_mesh_sub_mesh(buf, w.mesh, header_flags, v);
            let (b7, ocb, obi, obx) = write_weighted_parts(b1, w, v);
            let b8 = write_mesh(b7, w.mesh, header_flags, v, smt).0;
            let b2 = put_part(b1, copy_bones_part(w)).0;
            let b3 = aligned(b2, 16);
            let b4 = put_part(b3, w.bone_info).0;
            let b5 = aligned(b4, 16);
            let b6 = put_part(b5, bone_indices_part(w, v)).0;
            &&& b7 == aligned(b6, 16)
            &&& b1.is_prefix_of(b7)
            &&& holds_from(d, b8 + weighted_tail_bytes(w.num_copy_bones, ocb, obx, obi), k)
            &&& holds_from(d, b8, k)
            &&& holds_from(d, b6, k)
            &&& holds_from(d, b4, k)
            &&& holds_from(d, b2, k)
            &&& holds_from(d, b1, k)
            &&& b1.is_prefix_of(write_weighted(buf, w, header_flags, v).0)
            &&& b7.len() >= b6.len() >= b5.len() >= b4.len() >= b3.len() >= b2.len() >= b1.len()
        }),
{
    let (b1, smt) = write_mesh_sub_mesh(buf, w.mesh, header_flags, v);
    let (b7, ocb, obi, obx) = write_weighted_parts(b1, w, v);
    let b8 = write_mesh(b7, w.mesh, header_flags, v, smt).0;
    let (b2, ocb1) = put_part(b1, copy_bones_part(w));
    let b3 = aligned(b2, 16);
    let (b4, obi1) = put_part(b3, w.bone_info);
    let b5 = aligned(b4, 16);
    let (b6, obx1) = put_part(b5, bone_indices_part(w, v));
    assert(b7 == aligned(b6, 16) && ocb == ocb1 && obi == obi1 && obx == obx1);
    let tail = weighted_tail_bytes(w.num_copy_bones, ocb, obx, obi);
    let b = aligned(b8 + tail, 16);
    assert(b == write_weighted(buf, w, header_flags, v).0);
    lemma_aligned_extends(b8 + tail);
    assert((b8 + tail).subrange(0, b8.len() as int) =~= b8);
    lemma_prefix_trans(b8, b8 + tail, b);
    lemma_aligned_extends(b6);
    lemma_put_part_extends(b5, bone_indices_part(w, v));
    lemma_aligned_extends(b4);
    lemma_put_part_extends(b3, w.bone_info);
    lemma_aligned_extends(b2);
    lemma_put_part_extends(b1, copy_bones_part(w));
    lemma_prefix_trans(b1, b2, b3);
    lemma_prefix_trans(b1, b3, b4);
    lemma_prefix_trans(b1, b4, b5);
    lemma_prefix_trans(b1, b5, b6);
    lemma_prefix_trans(b1, b6, b7);
    assert(b8 == b7 + mesh_record_bytes(w.mesh, smt, v));
    assert(b8.subrange(0, b7.len() as int) =~= b7);
    lemma_prefix_trans(b7, b8, b);
    lemma_prefix_trans(b6, b7, b);
    lemma_prefix_trans(b5, b6, b);
    lemma_prefix_trans(b4, b5, b);
    lemma_prefix_trans(b3, b4, b);
    lemma_prefix_trans(b2, b3, b);
    lemma_prefix_trans(b1, b2, b);
    lemma_holds_prefix(d, b8 + tail, b, k);
    lemma_holds_prefix(d, b8, b, k);
    lemma_holds_prefix(d, b6, b, k);
    lemma_holds_prefix(d, b4, b, k);
    lemma_holds_prefix(d, b2, b, k);
    lemma_holds_prefix(d, b1, b, k);
}

/// Reading a weighted mesh is reading its mesh and the tail of its record,
/// then its copy bones, bone indices and bone info in turn.
proof fn lemma_weighted_compose(
    d: Seq<u8>,
    p: int,
    m: MeshModel,
    q: int,
    w0: WeightedModel,
    w1: WeightedModel,
    w2: WeightedModel,
    w3: WeightedModel,
    header_flags: u32,
    v: GameVersion,
)
    requires
        parse_mesh(d, p, header_flags, v) == Ok::<(MeshModel, int), PrimError>((m, q)),
        q + 16 <= d.len(),
        w0 == (WeightedModel {
            mesh: m,
            num_copy_bones: u32_at(d, q),
            offset_copy_bones: u32_at(d, q + 4),
            copy_bones: None,
            offset_bone_indicies: u32_at(d, q + 8),
            bone_indicies: None,
            offset_bone_info: u32_at(d, q + 12),
            bone_info: None,
        }),
        with_copy_bones(d, w0) == Ok::<WeightedModel, PrimError>(w1),
        with_bone_indices(d, w1, v) == Ok::<WeightedModel, PrimError>(w2),
        with_bone_info(d, w2) == Ok::<WeightedModel, PrimError>(w3),
    ensures
        parse_weighted(d, p, header_flags, v) == Ok::<WeightedModel, PrimError>(w3),
{
}

/// The tail of a weighted mesh's record reads back after the mesh record.
proof fn lemma_weighted_tail_back(d: Seq<u8>, b8: Seq<u8>, k: int, ncb: u32, ocb: u32, obx: u32, obi: u32)
    requires
        holds_from(d, b8 + weighted_tail_bytes(ncb, ocb, obx, obi), k),
        k <= b8.len(),
    ensures
        b8.len() + 16 <= d.len(),
        u32_at(d, b8.len() as int) == ncb,
        u32_at(d, b8.len() + 4int) == ocb,
        u32_at(d, b8.len() + 8int) == obx,
        u32_at(d, b8.len() + 12int) == obi,
{
    lemma_auto_spec_u32_to_from_le_bytes();
    let tail = weighted_tail_bytes(ncb, ocb, obx, obi);
    lemma_holds_split(d, b8, tail, k);
    let pre = d.take(b8.len() as int);
    let post = d.skip((b8 + tail).len() as int);
    assert(tail.subrange(0, 4) =~= spec_u32_to_le_bytes(ncb));
    assert(tail.subrange(4, 8) =~= spec_u32_to_le_bytes(ocb));
    assert(tail.subrange(8, 12) =~= spec_u32_to_le_bytes(obx));
    assert(tail.subrange(12, 16) =~= spec_u32_to_le_bytes(obi));
    lemma_u32_back(pre, tail, post, 0, ncb);
    lemma_u32_back(pre, tail, post, 4, ocb);
    lemma_u32_back(pre, tail, post, 8, obx);
    lemma_u32_back(pre, tail, post, 12, obi);
}

/// Reading back the bone parts written after `b1` into the record `w0`
/// read back for a weighted mesh.
proof fn lemma_weighted_parts_back(b1: Seq<u8>, w: WeightedModel, d: Seq<u8>, k: int, w0: WeightedModel, v: GameVersion)
    requires
        b1.len() > 0,
        k <= b1.len(),
        w.copy_bones matches Some(c) ==> w.num_copy_bones > 0 && c.len() == w.num_copy_bones * 2
            && w.num_copy_bones * 2 <= u32::MAX,
        w.bone_indicies matches Some(x) ==> (has_short_counts(v) ==> x.len() + 1 < 0x10000) && (!has_short_counts(v)
            ==> x.len() + 2 < 0x1_0000_0000),
        w.bone_info matches Some(x) ==> x.len() >= 2 && spec_u16_from_le_bytes(x.subrange(0, 2)) == x.len(),
        ({
            let (b7, ocb, obi, obx) = write_weighted_parts(b1, w, v);
            let b2 = put_part(b1, copy_bones_part(w)).0;
            let b4 = put_part(aligned(b2, 16), w.bone_info).0;
            let b6 = put_part(aligned(b4, 16), bone_indices_part(w, v)).0;
            &&& b7.len() <= u32::MAX
            &&& holds_from(d, b6, k)
            &&& holds_from(d, b4, k)
            &&& holds_from(d, b2, k)
            &&& b7.len() >= b6.len() >= b4.len() >= b2.len() >= b1.len()
            &&& w0.offset_copy_bones == ocb
            &&& w0.offset_bone_info == obi
            &&& w0.offset_bone_indicies == obx
        }),
        w0.num_copy_bones == w.num_copy_bones,
        w0.copy_bones is None,
        w0.bone_indicies is None,
        w0.bone_info is None,
    ensures
        with_copy_bones(d, w0) == Ok::<WeightedModel, PrimError>(WeightedModel { copy_bones: w.copy_bones, ..w0 }),
        with_bone_indices(d, WeightedModel { copy_bones: w.copy_bones, ..w0 }, v) == Ok::<WeightedModel, PrimError>(
            WeightedModel { copy_bones: w.copy_bones, bone_indicies: w.bone_indicies, ..w0 },
        ),
        with_bone_info(d, WeightedModel { copy_bones: w.copy_bones, bone_indicies: w.bone_indicies, ..w0 })
            == Ok::<WeightedModel, PrimError>(
            WeightedModel {
                copy_bones: w.copy_bones,
                bone_indicies: w.bone_indicies,
                bone_info: w.bone_info,
                ..w0
            },
        ),
{
    let (b7, ocb, obi, obx) = write_weighted_parts(b1, w, v);
    let (b2, ocb1) = put_part(b1, copy_bones_part(w));
    let b3 = aligned(b2, 16);
    let (b4, obi1) = put_part(b3, w.bone_info);
    let b5 = aligned(b4, 16);
    let (b6, obx1) = put_part(b5, bone_indices_part(w, v));
    assert(ocb == ocb1 && obi == obi1 && obx == obx1);
    lemma_aligned_extends(b2);
    lemma_aligned_extends(b4);
    let w1 = WeightedModel { copy_bones: w.copy_bones, ..w0 };
    let w2 = WeightedModel { bone_indicies: w.bone_indicies, ..w1 };
    lemma_copy_bones_part_back(b1, w, d, k, w0);
    lemma_bone_indices_part_back(b5, w, d, k, w1, v);
    lemma_bone_info_part_back(b3, w, d, k, w2);
}

/// A weighted mesh written after `buf` (which is not empty), with all it
/// wrote below 2^32 bytes, reads back from the offset the writing gives, in
/// any `d` that holds what was written from a position `k` within `buf` on.
#[verifier::rlimit(30)]
pub proof fn lemma_weighted_roundtrip(
    buf: Seq<u8>,
    w: WeightedModel,
    d: Seq<u8>,
    k: int,
    header_flags: u32,
    v: GameVersion,
)
    requires
        buf.len() > 0,
        k <= buf.len(),
        weighted_readable(w, header_flags, v),
        write_weighted(buf, w, header_flags, v).0.len() <= u32::MAX,
        holds_from(d, write_weighted(buf, w, header_flags, v).0, k),
    ensures
        buf.is_prefix_of(write_weighted(buf, w, header_flags, v).0),
        parse_weighted(d, write_weighted(buf, w, header_flags, v).1 as int, header_flags, v) == Ok::<
            WeightedModel,
            PrimError,
        >(weighted_read_back(w, buf, header_flags, v)),
{
    let m = w.mesh;
    let (b1, smt) = write_mesh_sub_mesh(buf, m, header_flags, v);
    let (b7, ocb, obi, obx) = write_weighted_parts(b1, w, v);
    let rec = mesh_record_bytes(m, smt, v);
    let b8 = b7 + rec;
    let b = write_weighted(buf, w, header_flags, v).0;
    lemma_weighted_extends(buf, w, header_flags, v);
    lemma_mesh_table_fits(buf, m, header_flags, v);
    lemma_write_mesh_sub_mesh_extends(buf, m, header_flags, v);
    lemma_weighted_prefixes(buf, w, d, k, header_flags, v);
    assert(write_mesh(b7, m, header_flags, v, smt).0 == b8);
    lemma_mesh_back(buf, m, b7, d, k, header_flags, v);
    lemma_weighted_tail_back(d, b8, k, w.num_copy_bones, ocb, obx, obi);
    let w0 = WeightedModel {
        mesh: mesh_read_back(m, buf, header_flags, v),
        num_copy_bones: w.num_copy_bones,
        offset_copy_bones: ocb,
        copy_bones: None,
        offset_bone_indicies: obx,
        bone_indicies: None,
        offset_bone_info: obi,
        bone_info: None,
    };
    lemma_weighted_parts_back(b1, w, d, k, w0, v);
    lemma_low32(b7.len() as int);
    lemma_weighted_compose(
        d,
        b7.len() as int,
        mesh_read_back(m, buf, header_flags, v),
        b8.len() as int,
        w0,
        WeightedModel { copy_bones: w.copy_bones, ..w0 },
        WeightedModel { copy_bones: w.copy_bones, bone_indicies: w.bone_indicies, ..w0 },
        WeightedModel { copy_bones: w.copy_bones, bone_indicies: w.bone_indicies, bone_info: w.bone_info, ..w0 },
        header_flags,
        v,
    );
    lemma_prefix_trans(buf, b1, b);
}

/// An object has the shape that reading it back in the layout of `v` gives:
/// its kind is the one the header flags say, and a mesh, or a weighted mesh
/// that is written, reads back as itself.
pub open spec fn object_readable(o: ObjectModel, header_flags: u32, v: GameVersion, no_cloth: bool) -> bool {
    match o {
        ObjectModel::Mesh(m) => !is_weighted(header_flags) && mesh_readable(m, header_flags, v),
        ObjectModel::Weighted(w) => is_weighted(header_flags) && (keeps_weighted(w, no_cloth) ==> weighted_readable(
            w,
            header_flags,
            v,
        )),
    }
}

/// What reading back an object written after `buf` gives, where it is
/// written: the object with its new draw destination, read back.
pub open spec fn entry_read_back(
    buf: Seq<u8>,
    o: ObjectModel,
    header_flags: u32,
    v: GameVersion,
    no_cloth: bool,
) -> Option<ObjectModel> {
    match o {
        ObjectModel::Mesh(m) => Some(
            ObjectModel::Mesh(
                mesh_read_back(
                    with_draw_destination(m, draw_destination_for(header_flags, m.object.header.draw_destination, v)),
                    buf,
                    header_flags,
                    v,
                ),
            ),
        ),
        ObjectModel::Weighted(w) => if keeps_weighted(w, no_cloth) {
            Some(
                ObjectModel::Weighted(
                    weighted_read_back(
                        WeightedModel {
                            mesh: with_draw_destination(
                                w.mesh,
                                draw_destination_for(header_flags, w.mesh.object.header.draw_destination, v),
                            ),
                            ..w
                        },
                        buf,
                        header_flags,
                        v,
                    ),
                ),
            )
        } else {
            None
        },
    }
}

/// Reading the object stored at `offset`: a weighted mesh where the header
/// flags say so, else a mesh.
pub open spec fn parse_object_at(d: Seq<u8>, offset: u32, header_flags: u32, v: GameVersion) -> Result<
    ObjectModel,
    PrimError,
> {
    if is_weighted(header_flags) {
        match parse_weighted(d, offset as int, header_flags, v) {
            Err(e) => Err(e),
            Ok(w) => Ok(ObjectModel::Weighted(w)),
        }
    } else {
        match parse_mesh(d, offset as int, header_flags, v) {
            Err(e) => Err(e),
            Ok((m, _)) => Ok(ObjectModel::Mesh(m)),
        }
    }
}

/// A mesh object written after `buf` reads back from its offset.
proof fn lemma_mesh_entry_back(
    buf: Seq<u8>,
    m: MeshModel,
    d: Seq<u8>,
    k: int,
    header_flags: u32,
    v: GameVersion,
    no_cloth: bool,
)
    requires
        buf.len() > 0,
        k <= buf.len(),
        object_readable(ObjectModel::Mesh(m), header_flags, v, no_cloth),
        write_object_entry(buf, ObjectModel::Mesh(m), header_flags, v, no_cloth).0.len() <= u32::MAX,
        holds_from(d, write_object_entry(buf, ObjectModel::Mesh(m), header_flags, v, no_cloth).0, k),
    ensures
        ({
            let (b, off, o2) = write_object_entry(buf, ObjectModel::Mesh(m), header_flags, v, no_cloth);
            &&& buf.is_prefix_of(b)
            &&& off is Some
            &&& entry_read_back(buf, ObjectModel::Mesh(m), header_flags, v, no_cloth) is Some
            &&& parse_object_at(d, off.unwrap(), header_flags, v) == Ok::<ObjectModel, PrimError>(
                entry_read_back(buf, ObjectModel::Mesh(m), header_flags, v, no_cloth).unwrap(),
            )
        }),
{
    reveal(write_object_entry);
    let m2 = with_draw_destination(m, draw_destination_for(header_flags, m.object.header.draw_destination, v));
    let (b1, t) = write_mesh_sub_mesh(buf, m2, header_flags, v);
    let rec = mesh_record_bytes(m2, t, v);
    assert(write_mesh(buf, m2, header_flags, v, 0xFFFF_FFFF) == (b1 + rec, low32(b1.len() as int)));
    let b = aligned(b1 + rec, 16);
    assert(b == write_object_entry(buf, ObjectModel::Mesh(m), header_flags, v, no_cloth).0);
    lemma_aligned_extends(b1 + rec);
    lemma_write_mesh_sub_mesh_extends(buf, m2, header_flags, v);
    lemma_holds_prefix(d, b1 + rec, b, k);
    assert(b1.subrange(0, b1.len() as int) =~= b1);
    lemma_mesh_back(buf, m2, b1, d, k, header_flags, v);
    lemma_low32(b1.len() as int);
    assert((b1 + rec).subrange(0, b1.len() as int) =~= b1);
    lemma_prefix_trans(buf, b1, b1 + rec);
    lemma_prefix_trans(buf, b1 + rec, b);
}

/// A weighted mesh object written after `buf` reads back from its offset,
/// where it is written.
#[verifier::rlimit(40)]
proof fn lemma_weighted_entry_back(
    buf: Seq<u8>,
    w: WeightedModel,
    d: Seq<u8>,
    k: int,
    header_flags: u32,
    v: GameVersion,
    no_cloth: bool,
)
    requires
        buf.len() > 0,
        k <= buf.len(),
        object_readable(ObjectModel::Weighted(w), header_flags, v, no_cloth),
        write_object_entry(buf, ObjectModel::Weighted(w), header_flags, v, no_cloth).0.len() <= u32::MAX,
        holds_from(d, write_object_entry(buf, ObjectModel::Weighted(w), header_flags, v, no_cloth).0, k),
    ensures
        ({
            let (b, off, o2) = write_object_entry(buf, ObjectModel::Weighted(w), header_flags, v, no_cloth);
            &&& buf.is_prefix_of(b)
            &&& (off is Some <==> entry_read_back(buf, ObjectModel::Weighted(w), header_flags, v, no_cloth) is Some)
            &&& (off is Some ==> parse_object_at(d, off.unwrap(), header_flags, v) == Ok::<ObjectModel, PrimError>(
                entry_read_back(buf, ObjectModel::Weighted(w), header_flags, v, no_cloth).unwrap(),
            ))
        }),
{
    reveal(write_object_entry);
    if keeps_weighted(w, no_cloth) {
        let w2 = WeightedModel {
            mesh: with_draw_destination(
                w.mesh,
                draw_destination_for(header_flags, w.mesh.object.header.draw_destination, v),
            ),
            ..w
        };
        lemma_weighted_roundtrip(buf, w2, d, k, header_flags, v);
    } else {
        assert(buf.subrange(0, buf.len() as int) =~= buf);
    }
}

/// What reading back the objects written in order after `buf` gives: each
/// written one, read back.
pub open spec fn objects_read_back(
    buf: Seq<u8>,
    os: Seq<ObjectModel>,
    header_flags: u32,
    v: GameVersion,
    no_cloth: bool,
) -> Seq<ObjectModel>
    decreases os.len(),
{
    if os.len() == 0 {
        Seq::empty()
    } else {
        let prev = objects_read_back(buf, os.drop_last(), header_flags, v, no_cloth);
        let b = write_objects(buf, os.drop_last(), header_flags, v, no_cloth).0;
        match entry_read_back(b, os.last(), header_flags, v, no_cloth) {
            Some(x) => prev.push(x),
            None => prev,
        }
    }
}

/// One object written after `buf` reads back from its offset, where it is
/// written.
proof fn lemma_entry_back(
    buf: Seq<u8>,
    o: ObjectModel,
    d: Seq<u8>,
    k: int,
    header_flags: u32,
    v: GameVersion,
    no_cloth: bool,
)
    requires
        buf.len() > 0,
        k <= buf.len(),
        object_readable(o, header_flags, v, no_cloth),
        write_object_entry(buf, o, header_flags, v, no_cloth).0.len() <= u32::MAX,
        holds_from(d, write_object_entry(buf, o, header_flags, v, no_cloth).0, k),
    ensures
        ({
            let (b, off, o2) = write_object_entry(buf, o, header_flags, v, no_cloth);
            &&& buf.is_prefix_of(b)
            &&& (off is Some <==> entry_read_back(buf, o, header_flags, v, no_cloth) is Some)
            &&& (off is Some ==> parse_object_at(d, off.unwrap(), header_flags, v) == Ok::<ObjectModel, PrimError>(
                entry_read_back(buf, o, header_flags, v, no_cloth).unwrap(),
            ))
        }),
{
    match o {
        ObjectModel::Mesh(m) => lemma_mesh_entry_back(buf, m, d, k, header_flags, v, no_cloth),
        ObjectModel::Weighted(w) => lemma_weighted_entry_back(buf, w, d, k, header_flags, v, no_cloth),
    }
}

/// Objects written in order after `buf` (which is not empty), with all they
/// wrote below 2^32 bytes, each read back from the offset written for it, in
/// any `d` that holds what was written from a position `k` within `buf` on.
pub proof fn lemma_objects_back(
    buf: Seq<u8>,
    os: Seq<ObjectModel>,
    d: Seq<u8>,
    k: int,
    header_flags: u32,
    v: GameVersion,
    no_cloth: bool,
)
    requires
        buf.len() > 0,
        k <= buf.len(),
        forall|i: int| 0 <= i < os.len() ==> object_readable(#[trigger] os[i], header_flags, v, no_cloth),
        write_objects(buf, os, header_flags, v, no_cloth).0.len() <= u32::MAX,
        holds_from(d, write_objects(buf, os, header_flags, v, no_cloth).0, k),
    ensures
        ({
            let (b, offs, done) = write_objects(buf, os, header_flags, v, no_cloth);
            let rb = objects_read_back(buf, os, header_flags, v, no_cloth);
            &&& buf.is_prefix_of(b)
            &&& offs.len() == rb.len()
            &&& forall|i: int|
                0 <= i < offs.len() ==> parse_object_at(d, #[trigger] offs[i], header_flags, v) == Ok::<
                    ObjectModel,
                    PrimError,
                >(rb[i])
        }),
    decreases os.len(),
{
    if os.len() == 0 {
        assert(buf.subrange(0, buf.len() as int) =~= buf);
    } else {
        let init = os.drop_last();
        let (b0, offs0, done0) = write_objects(buf, init, header_flags, v, no_cloth);
        let (b, offs, done) = write_objects(buf, os, header_flags, v, no_cloth);
        let (b2, off, o2) = write_object_entry(b0, os.last(), header_flags, v, no_cloth);
        assert(b == b2);
        assert(object_readable(os[os.len() - 1], header_flags, v, no_cloth));
        // What came before the last object.
        lemma_entry_extends(b0, os.last(), header_flags, v, no_cloth);
        assert forall|i: int| 0 <= i < init.len() implies object_readable(
            #[trigger] init[i],
            header_flags,
            v,
            no_cloth,
        ) by {
            assert(init[i] == os[i]);
        }
        lemma_objects_extends(buf, os, header_flags, v, no_cloth);
        lemma_objects_extends(buf, init, header_flags, v, no_cloth);
        lemma_holds_prefix(d, b0, b, k);
        lemma_objects_back(buf, init, d, k, header_flags, v, no_cloth);
        // The last object.
        lemma_entry_back(b0, os.last(), d, k, header_flags, v, no_cloth);
        lemma_prefix_trans(buf, b0, b);
        let rb0 = objects_read_back(buf, init, header_flags, v, no_cloth);
        let rb = objects_read_back(buf, os, header_flags, v, no_cloth);
        assert forall|i: int| 0 <= i < offs.len() implies parse_object_at(d, #[trigger] offs[i], header_flags, v)
            == Ok::<ObjectModel, PrimError>(rb[i]) by {
            if i < offs0.len() {
                assert(offs[i] == offs0[i]);
                assert(rb[i] == rb0[i]);
            }
        }
    }
}

/// Writing an object keeps what was there.
proof fn lemma_entry_extends(buf: Seq<u8>, o: ObjectModel, header_flags: u32, v: GameVersion, no_cloth: bool)
    ensures
        buf.is_prefix_of(write_object_entry(buf, o, header_flags, v, no_cloth).0),
{
    reveal(write_object_entry);
    let b = write_object_entry(buf, o, header_flags, v, no_cloth).0;
    match o {
        ObjectModel::Mesh(m) => {
            let m2 = with_draw_destination(m, draw_destination_for(header_flags, m.object.header.draw_destination, v));
            let b1 = write_mesh(buf, m2, header_flags, v, 0xFFFF_FFFF).0;
            lemma_write_mesh_extends(buf, m2, header_flags, v, 0xFFFF_FFFF);
            lemma_aligned_extends(b1);
            lemma_prefix_trans(buf, b1, b);
        },
        ObjectModel::Weighted(w) => {
            if keeps_weighted(w, no_cloth) {
                let w2 = WeightedModel {
                    mesh: with_draw_destination(
                        w.mesh,
                        draw_destination_for(header_flags, w.mesh.object.header.draw_destination, v),
                    ),
                    ..w
                };
                lemma_weighted_extends(buf, w2, header_flags, v);
                lemma_write_mesh_sub_mesh_extends(buf, w2.mesh, header_flags, v);
                lemma_prefix_trans(buf, write_mesh_sub_mesh(buf, w2.mesh, header_flags, v).0, b);
            } else {
                assert(buf.subrange(0, buf.len() as int) =~= buf);
            }
        },
    }
}

/// Writing objects keeps what was there.
proof fn lemma_objects_extends(buf: Seq<u8>, os: Seq<ObjectModel>, header_flags: u32, v: GameVersion, no_cloth: bool)
    ensures
        buf.is_prefix_of(write_objects(buf, os, header_flags, v, no_cloth).0),
        os.len() > 0 ==> write_objects(buf, os.drop_last(), header_flags, v, no_cloth).0.is_prefix_of(
            write_objects(buf, os, header_flags, v, no_cloth).0,
        ),
    decreases os.len(),
{
    if os.len() == 0 {
        assert(buf.subrange(0, buf.len() as int) =~= buf);
    } else {
        let b0 = write_objects(buf, os.drop_last(), header_flags, v, no_cloth).0;
        lemma_objects_extends(buf, os.drop_last(), header_flags, v, no_cloth);
        lemma_entry_extends(b0, os.last(), header_flags, v, no_cloth);
        lemma_prefix_trans(buf, b0, write_objects(buf, os, header_flags, v, no_cloth).0);
    }
}

/// The entries of an offset table written after `b1` read back in order.
proof fn lemma_table_entries(d: Seq<u8>, b1: Seq<u8>, offs: Seq<u32>, k: int)
    requires
        holds_from(d, b1 + u32s_bytes(offs), k),
        k <= b1.len(),
    ensures
        b1.len() + 4 * offs.len() <= d.len(),
        forall|i: int| 0 <= i < offs.len() ==> u32_at(d, b1.len() + 4 * i) == #[trigger] offs[i],
{
    let x = u32s_bytes(offs);
    lemma_u32s_bytes(offs);
    lemma_holds_split(d, b1, x, k);
    let pre = d.take(b1.len() as int);
    let post = d.skip((b1 + x).len() as int);
    assert forall|i: int| 0 <= i < offs.len() implies u32_at(d, b1.len() + 4 * i) == #[trigger] offs[i] by {
        lemma_u32_back(pre, x, post, 4 * i, offs[i]);
    }
}

/// Reading the first `n` objects of a table whose entries are `offs`, each
/// object reading back as `rb` says, gives the first `n` of `rb`.
proof fn lemma_parse_objects_back(
    d: Seq<u8>,
    h: ObjectHeaderModel,
    v: GameVersion,
    n: nat,
    offs: Seq<u32>,
    rb: Seq<ObjectModel>,
)
    requires
        n <= offs.len(),
        rb.len() == offs.len(),
        h.object_table + 4 * offs.len() <= d.len(),
        d.len() <= u32::MAX,
        forall|i: int| 0 <= i < offs.len() ==> u32_at(d, h.object_table + 4 * i) == #[trigger] offs[i],
        forall|i: int|
            0 <= i < offs.len() ==> parse_object_at(d, #[trigger] offs[i], h.header_flags, v) == Ok::<
                ObjectModel,
                PrimError,
            >(rb[i]),
    ensures
        parse_objects(d, h, v, n) == Ok::<Seq<ObjectModel>, PrimError>(rb.take(n as int)),
    decreases n,
{
    if n == 0 {
        assert(rb.take(0) =~= Seq::<ObjectModel>::empty());
    } else {
        let i = n - 1;
        lemma_parse_objects_back(d, h, v, (n - 1) as nat, offs, rb);
        assert(u32_at(d, h.object_table + 4 * i) == offs[i]);
        assert(parse_object_at(d, offs[i], h.header_flags, v) == Ok::<ObjectModel, PrimError>(rb[i]));
        assert(take_u32(d, h.object_table + 4 * i) == Ok::<(u32, int), PrimError>(
            (offs[i], h.object_table + 4 * i + 4),
        ));
        assert(parse_object_entry(d, h.object_table, h.header_flags, v, i) == Ok::<ObjectModel, PrimError>(rb[i]));
        assert(rb.take(n as int) =~= rb.take(i).push(rb[i]));
    }
}

/// Reading back the main header record gives its fields, with the count
/// (its low 32 bits) and table offset written.
proof fn lemma_header_record_back(pre: Seq<u8>, h: ObjectHeaderModel, count: int, table: u32, post: Seq<u8>)
    ensures
        object_header_record_bytes(h, count, table).len() == 44,
        parse_object_header(pre + object_header_record_bytes(h, count, table) + post, pre.len() as int) == Ok::<
            (ObjectHeaderModel, int),
            PrimError,
        >(
            (
                ObjectHeaderModel {
                    num_objects: low32(count),
                    object_table: table,
                    objects: Seq::empty(),
                    ..h
                },
                pre.len() + 44int,
            ),
        ),
{
    lemma_auto_spec_u32_to_from_le_bytes();
    lemma_u32s_bytes(h.bounding_box_min@);
    lemma_u32s_bytes(h.bounding_box_max@);
    let rec = object_header_record_bytes(h, count, table);
    let d = pre + rec + post;
    let p = pre.len() as int;
    lemma_auto_spec_u16_to_from_le_bytes();
    assert(header_bytes(h.header).len() == 4);
    assert(rec.len() == 44);
    lemma_header_roundtrip(pre, h.header, rec.skip(4) + post);
    assert(pre + header_bytes(h.header) + (rec.skip(4) + post) =~= d);
    assert(rec.subrange(4, 8) =~= spec_u32_to_le_bytes(h.header_flags));
    lemma_u32_back(pre, rec, post, 4, h.header_flags);
    assert(rec.subrange(8, 12) =~= spec_u32_to_le_bytes(h.bone_rig_resource_index));
    lemma_u32_back(pre, rec, post, 8, h.bone_rig_resource_index);
    assert(rec.subrange(12, 16) =~= spec_u32_to_le_bytes(low32(count)));
    lemma_u32_back(pre, rec, post, 12, low32(count));
    assert(rec.subrange(16, 20) =~= spec_u32_to_le_bytes(table));
    lemma_u32_back(pre, rec, post, 16, table);
    assert(rec.subrange(20, 32) =~= u32s_bytes(h.bounding_box_min@));
    lemma_u32x3_back(pre, rec, post, 20, h.bounding_box_min);
    assert(rec.subrange(32, 44) =~= u32s_bytes(h.bounding_box_max@));
    lemma_u32x3_back(pre, rec, post, 32, h.bounding_box_max);
    assert(object_header_at(d, p) == ObjectHeaderModel {
        num_objects: low32(count),
        object_table: table,
        objects: Seq::empty(),
        ..h
    });
}

/// A header can be read back in the layout of `v`: every object can.
pub open spec fn header_readable(h: ObjectHeaderModel, v: GameVersion, no_cloth: bool) -> bool {
    forall|i: int| 0 <= i < h.objects.len() ==> object_readable(#[trigger] h.objects[i], h.header_flags, v, no_cloth)
}

/// What reading back the file written from `h` in the layout of `v` gives:
/// the header with the number of objects written (its low 32 bits), the
/// offset of their table, and each written object read back.
pub open spec fn prim_read_back(h: ObjectHeaderModel, v: GameVersion, no_cloth: bool) -> ObjectHeaderModel {
    let start = spec_u128_to_le_bytes(0);
    let (b1, offs, done) = write_objects(start, h.objects, h.header_flags, v, no_cloth);
    ObjectHeaderModel {
        num_objects: low32(offs.len() as int),
        object_table: low32(b1.len() as int),
        objects: objects_read_back(start, h.objects, h.header_flags, v, no_cloth),
        ..h
    }
}

/// A file written in the layout of `v`, below 2^32 bytes, reads back in
/// that layout: its header with the objects written, each read back with the
/// offsets it now stands at and the fields that the layout stores.
#[verifier::rlimit(30)]
pub proof fn lemma_prim_roundtrip(h: ObjectHeaderModel, v: GameVersion, no_cloth: bool)
    requires
        header_readable(h, v, no_cloth),
        write_prim(h, v, no_cloth).0.len() <= u32::MAX,
    ensures
        parse_prim(write_prim(h, v, no_cloth).0, v) == Ok::<ObjectHeaderModel, PrimError>(
            prim_read_back(h, v, no_cloth),
        ),
{
    lemma_auto_spec_u32_to_from_le_bytes();
    lemma_auto_spec_u128_to_from_le_bytes();
    let start = spec_u128_to_le_bytes(0);
    let hf = h.header_flags;
    let (b1, offs, os2) = write_objects(start, h.objects, hf, v, no_cloth);
    let table = low32(b1.len() as int);
    let tb = u32s_bytes(offs);
    let b2 = aligned(b1 + tb, 16);
    let rec = object_header_record_bytes(h, offs.len() as int, table);
    let b = aligned(b2 + rec, 16);
    let main = low32(b2.len() as int);
    assert(write_object_header(start, h, v, no_cloth).0 == b);
    assert(write_object_header(start, h, v, no_cloth).1 == main);
    let f = spec_u32_to_le_bytes(main) + b.subrange(4, b.len() as int);
    assert(f == write_prim(h, v, no_cloth).0);
    // Each stage starts the file, and the file holds it from byte 4 on.
    lemma_objects_extends(start, h.objects, hf, v, no_cloth);
    lemma_u32s_bytes(offs);
    lemma_aligned_extends(b1 + tb);
    lemma_aligned_extends(b2 + rec);
    assert((b1 + tb).subrange(0, b1.len() as int) =~= b1);
    assert((b2 + rec).subrange(0, b2.len() as int) =~= b2);
    lemma_prefix_trans(b1, b1 + tb, b2);
    lemma_prefix_trans(b2, b2 + rec, b);
    lemma_prefix_trans(b1 + tb, b2, b);
    lemma_prefix_trans(b1, b2, b);
    assert(f.len() == b.len());
    assert(holds_from(f, b, 4)) by {
        assert(f.subrange(4, b.len() as int) =~= b.subrange(4, b.len() as int));
    }
    lemma_holds_prefix(f, b1, b, 4);
    lemma_holds_prefix(f, b1 + tb, b, 4);
    lemma_holds_prefix(f, b2 + rec, b, 4);
    // The objects and their table.
    lemma_objects_back(start, h.objects, f, 4, hf, v, no_cloth);
    let rb = objects_read_back(start, h.objects, hf, v, no_cloth);
    lemma_table_entries(f, b1, offs, 4);
    lemma_low32(b1.len() as int);
    lemma_low32(b2.len() as int);
    lemma_low32(offs.len() as int);
    // The main header.
    lemma_holds_split(f, b2, rec, 4);
    lemma_header_record_back(f.take(b2.len() as int), h, offs.len() as int, table, f.skip((b2 + rec).len() as int));
    let h1 = ObjectHeaderModel { num_objects: low32(offs.len() as int), object_table: table, objects: Seq::empty(), ..h };
    assert(parse_object_header(f, main as int) == Ok::<(ObjectHeaderModel, int), PrimError>((h1, main + 44)));
    assert(f.subrange(0, 4) =~= spec_u32_to_le_bytes(main));
    assert(take_u32(f, 0) == Ok::<(u32, int), PrimError>((main, 4)));
    lemma_parse_objects_back(f, h1, v, offs.len(), offs, rb);
    assert(rb.take(offs.len() as int) =~= rb);
    assert(ObjectHeaderModel { objects: rb, ..h1 } == prim_read_back(h, v, no_cloth));
}

} // verus!

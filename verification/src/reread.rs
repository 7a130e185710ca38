//! What is read from a file has the shape that reading gives, so it reads
//! back as it was read once written in the same layout.

use crate::io::PrimError;
use crate::mesh::{
    parse_mesh, parse_sub_mesh, parse_sub_mesh_fields, parse_weighted, with_cloth, with_collision, with_indices,
    with_vertices,
};
use crate::io::{lemma_u32s_bytes, u16_at, u16s_bytes, u32_at, u32s_bytes};
use crate::object::{color1_or_zero, has_extended_fields, header_bytes, object_as_stored, object_bytes, object_size, parse_object, u32x3_at};
use crate::prim::{parse_object_entry, parse_objects, parse_prim, write_prim, ObjectHeaderModel, ObjectModel};
use crate::roundtrip::{
    cloth_shaped, header_readable, lemma_prim_roundtrip, mesh_readable, object_readable, prim_read_back,
    stored_extra, sub_mesh_readable, weighted_readable,
};
use crate::chunks::{has_short_counts, index_count};
use crate::mesh::SubMeshModel;
use crate::version::GameVersion;
use crate::vertices::{
    color_of, colors_bytes, colors_present, has_alt_packing, has_color1, has_hi_res_positions, is_weighted, parse_vertices,
    positions_encoded, take_colors, vertices_bytes, writes_colors, position_at, position_bytes, position_size, positions_bytes, record_attrs, record_bytes,
    record_size, records_bytes, take_color_bytes, take_positions, take_records, take_weights_and_bones,
    vertices_as_stored, weight_bone_bytes, weights_bones_bytes, VerticesModel,
};
use vstd::bytes::*;
use vstd::prelude::*;

verus! {

/// Vertices read for a sub-mesh have the shape that reading gives.
pub proof fn lemma_read_vertices_as_stored(
    d: Seq<u8>,
    p: int,
    header_flags: u32,
    draw_destination: u8,
    mesh_flags: u8,
    sub_flags: u8,
    color1: Option<u32>,
    n: u32,
)
    requires
        parse_vertices(d, p, header_flags, draw_destination, mesh_flags, sub_flags, color1, n) is Ok,
    ensures
        vertices_as_stored(
            parse_vertices(d, p, header_flags, draw_destination, mesh_flags, sub_flags, color1, n)->Ok_0.0,
            n,
            header_flags,
            mesh_flags,
            sub_flags,
            color1,
        ),
{
    let vs: VerticesModel = parse_vertices(d, p, header_flags, draw_destination, mesh_flags, sub_flags, color1, n)->Ok_0.0;
    assert(vs.positions.len() == n);
}

/// An object read in the layout of `v` is as that layout stores it.
pub proof fn lemma_read_object_as_stored(d: Seq<u8>, p: int, v: GameVersion)
    requires
        parse_object(d, p, v) is Ok,
    ensures
        object_as_stored(parse_object(d, p, v)->Ok_0.0, v) == parse_object(d, p, v)->Ok_0.0,
{
}

/// A sub-mesh read in one layout keeps, written in the layout of `out`,
/// what its reading back needs: where its vertex colours are its single
/// colour, `out` stores that colour as it was read, and `out` stores its
/// extra index count as the count it was read with.
pub open spec fn sub_mesh_portable(s: SubMeshModel, header_flags: u32, mesh_flags: u8, out: GameVersion) -> bool {
    &&& (colors_present(header_flags, mesh_flags) && has_color1(s.object.flags)) ==> color_of(
        object_as_stored(s.object, out).color1,
    ) == color_of(s.object.color1)
    &&& index_count(s.num_indices, stored_extra(s.num_indices_extra, out)) == index_count(
        s.num_indices,
        s.num_indices_extra,
    )
}

/// An object read in one layout keeps, written in the layout of `out`, what
/// its reading back needs: its sub-mesh does, and a weighted mesh's bone
/// info holds at least its two-byte size and its bone indices fit the count
/// `out` stores.
pub open spec fn object_portable(o: ObjectModel, header_flags: u32, out: GameVersion) -> bool {
    match o {
        ObjectModel::Mesh(m) => sub_mesh_portable(m.sub_mesh.unwrap(), header_flags, m.object.flags, out),
        ObjectModel::Weighted(w) => {
            &&& sub_mesh_portable(w.mesh.sub_mesh.unwrap(), header_flags, w.mesh.object.flags, out)
            &&& (w.bone_info matches Some(b) ==> b.len() >= 2)
            &&& (w.bone_indicies matches Some(b) ==> (has_short_counts(out) ==> b.len() + 1 < 0x10000))
        },
    }
}

/// Every object of a header read in one layout keeps, written in the layout
/// of `out`, what its reading back needs.
pub open spec fn header_portable(h: ObjectHeaderModel, out: GameVersion) -> bool {
    forall|i: int| 0 <= i < h.objects.len() ==> object_portable(#[trigger] h.objects[i], h.header_flags, out)
}

/// A sub-mesh read in the layout of `v` has the shape that reading it back
/// in the layout of `out` gives, where it is `v` or the sub-mesh keeps in
/// `out` what that needs.
pub proof fn lemma_read_sub_mesh_readable(
    d: Seq<u8>,
    p: int,
    header_flags: u32,
    draw_destination: u8,
    mesh_flags: u8,
    cloth_id: u8,
    v: GameVersion,
    out: GameVersion,
)
    requires
        parse_sub_mesh(d, p, header_flags, draw_destination, mesh_flags, cloth_id, v) is Ok,
        v == out || sub_mesh_portable(
            parse_sub_mesh(d, p, header_flags, draw_destination, mesh_flags, cloth_id, v)->Ok_0,
            header_flags,
            mesh_flags,
            out,
        ),
    ensures
        sub_mesh_readable(
            parse_sub_mesh(d, p, header_flags, draw_destination, mesh_flags, cloth_id, v)->Ok_0,
            header_flags,
            mesh_flags,
            cloth_id,
            out,
        ),
{
    lemma_auto_spec_u32_to_from_le_bytes();
    let s0 = parse_sub_mesh_fields(d, p, v)->Ok_0.0;
    lemma_read_object_as_stored(d, p, v);
    assert(object_as_stored(s0.object, v) == s0.object);
    assert(stored_extra(s0.num_indices_extra, v) == s0.num_indices_extra);
    let o = object_as_stored(s0.object, out);
    let s1 = with_vertices(d, s0, header_flags, draw_destination, mesh_flags)->Ok_0;
    if s0.num_vertices > 0 && s0.offset_vertices > 0 {
        lemma_read_vertices_as_stored(
            d,
            s0.offset_vertices as int,
            header_flags,
            draw_destination,
            mesh_flags,
            s0.object.flags,
            s0.object.color1,
            s0.num_vertices,
        );
        let vs = s1.vertices.unwrap();
        if colors_present(header_flags, mesh_flags) && has_color1(s0.object.flags) {
            assert(color_of(o.color1) == color_of(s0.object.color1));
            assert(Seq::new(s0.num_vertices as nat, |i: int| color_of(o.color1)) =~= Seq::new(
                s0.num_vertices as nat,
                |i: int| color_of(s0.object.color1),
            ));
        }
        assert(vertices_as_stored(vs, s0.num_vertices, header_flags, mesh_flags, o.flags, o.color1));
    }
    let s2 = with_indices(d, s1)->Ok_0;
    let s3 = with_collision(d, s2)->Ok_0;
    let s = with_cloth(d, s3, cloth_id, v)->Ok_0;
    if s3.offset_cloth > 0 && crate::object::has_extended_fields(v) {
        let c = s.cloth.unwrap();
        if crate::chunks::is_small_cloth(cloth_id) {
            let q = s3.offset_cloth as int;
            let size = crate::io::u32_at(d, q);
            assert(c.subrange(0, 4) =~= spec_u32_to_le_bytes(size));
        }
        assert(cloth_shaped(c, s.num_vertices, cloth_id));
    }
}

/// A mesh read in the layout of `v` has the shape that reading it back in
/// the layout of `out` gives, where it is `v` or the mesh keeps in `out`
/// what that needs.
pub proof fn lemma_read_mesh_readable(d: Seq<u8>, p: int, header_flags: u32, v: GameVersion, out: GameVersion)
    requires
        parse_mesh(d, p, header_flags, v) is Ok,
        v == out || object_portable(ObjectModel::Mesh(parse_mesh(d, p, header_flags, v)->Ok_0.0), header_flags, out),
    ensures
        mesh_readable(parse_mesh(d, p, header_flags, v)->Ok_0.0, header_flags, out),
{
    let m0 = crate::mesh::parse_mesh_fields(d, p, v)->Ok_0.0;
    let offset = crate::io::take_u32(d, m0.sub_mesh_table as int)->Ok_0.0;
    lemma_read_sub_mesh_readable(
        d,
        offset as int,
        header_flags,
        m0.object.header.draw_destination,
        m0.object.flags,
        m0.cloth_id,
        v,
        out,
    );
}

/// A weighted mesh read in the layout of `v`, whose bone info (where it
/// has some) holds at least its two-byte size, has the shape that reading
/// it back in the layout of `out` gives, where it is `v` or the weighted
/// mesh keeps in `out` what that needs.
pub proof fn lemma_read_weighted_readable(d: Seq<u8>, p: int, header_flags: u32, v: GameVersion, out: GameVersion)
    requires
        parse_weighted(d, p, header_flags, v) is Ok,
        parse_weighted(d, p, header_flags, v)->Ok_0.bone_info matches Some(b) ==> b.len() >= 2,
        v == out || object_portable(ObjectModel::Weighted(parse_weighted(d, p, header_flags, v)->Ok_0), header_flags, out),
    ensures
        weighted_readable(parse_weighted(d, p, header_flags, v)->Ok_0, header_flags, out),
{
    lemma_auto_spec_u16_to_from_le_bytes();
    let (m, q) = parse_mesh(d, p, header_flags, v)->Ok_0;
    let w = parse_weighted(d, p, header_flags, v)->Ok_0;
    assert(w.mesh == m);
    lemma_read_mesh_readable(d, p, header_flags, v, out);
    if w.bone_info is Some {
        let b = w.bone_info.unwrap();
        let o = w.offset_bone_info as int;
        assert(b =~= d.subrange(o, o + b.len()));
        assert(b.subrange(0, 2) =~= d.subrange(o, o + 2));
    }
}

/// Objects read in the layout of `v` have the shape that reading them back
/// in the layout of `out` gives, where the bone info of each weighted mesh
/// holds at least its size and `out` is `v` or the objects keep in `out`
/// what that needs.
pub proof fn lemma_read_objects_readable(
    d: Seq<u8>,
    h: ObjectHeaderModel,
    v: GameVersion,
    out: GameVersion,
    n: nat,
    no_cloth: bool,
)
    requires
        parse_objects(d, h, v, n) is Ok,
        forall|i: int|
            0 <= i < parse_objects(d, h, v, n)->Ok_0.len() ==> (#[trigger] parse_objects(d, h, v, n)->Ok_0[i]
                matches ObjectModel::Weighted(w) ==> (w.bone_info matches Some(b) ==> b.len() >= 2)),
        v == out || forall|i: int|
            0 <= i < parse_objects(d, h, v, n)->Ok_0.len() ==> object_portable(
                #[trigger] parse_objects(d, h, v, n)->Ok_0[i],
                h.header_flags,
                out,
            ),
    ensures
        parse_objects(d, h, v, n)->Ok_0.len() == n,
        forall|i: int|
            0 <= i < n ==> object_readable(
                #[trigger] parse_objects(d, h, v, n)->Ok_0[i],
                h.header_flags,
                out,
                no_cloth,
            ),
    decreases n,
{
    if n > 0 {
        let os = parse_objects(d, h, v, n)->Ok_0;
        let prev = parse_objects(d, h, v, (n - 1) as nat)->Ok_0;
        let o = parse_object_entry(d, h.object_table, h.header_flags, v, n - 1)->Ok_0;
        assert(os == prev.push(o));
        assert forall|i: int| 0 <= i < prev.len() implies (#[trigger] prev[i] matches ObjectModel::Weighted(w)
            ==> (w.bone_info matches Some(b) ==> b.len() >= 2)) by {
            assert(prev[i] == os[i]);
        }
        if v != out {
            assert forall|i: int| 0 <= i < prev.len() implies object_portable(
                #[trigger] prev[i],
                h.header_flags,
                out,
            ) by {
                assert(prev[i] == os[i]);
            }
        }
        lemma_read_objects_readable(d, h, v, out, (n - 1) as nat, no_cloth);
        let offset = crate::io::take_u32(d, h.object_table + 4 * (n - 1))->Ok_0.0;
        assert(os[n - 1] == o);
        if v != out {
            assert(object_portable(os[n - 1], h.header_flags, out));
        }
        if crate::vertices::is_weighted(h.header_flags) {
            assert(os[n - 1] matches ObjectModel::Weighted(w) ==> (w.bone_info matches Some(b) ==> b.len() >= 2));
            lemma_read_weighted_readable(d, offset as int, h.header_flags, v, out);
        } else {
            lemma_read_mesh_readable(d, offset as int, h.header_flags, v, out);
        }
        assert forall|i: int| 0 <= i < n implies object_readable(#[trigger] os[i], h.header_flags, out, no_cloth) by {
            if i < n - 1 {
                assert(os[i] == prev[i]);
            }
        }
    }
}

/// Every weighted mesh of a header whose bone info is there holds at least
/// the two-byte size of it. Bone info read with a size field of 0 holds no
/// bytes; written back it takes no room, so what is written after it is read
/// in its place.
pub open spec fn bone_info_sized(h: ObjectHeaderModel) -> bool {
    forall|i: int|
        0 <= i < h.objects.len() ==> (#[trigger] h.objects[i] matches ObjectModel::Weighted(w) ==> (
        w.bone_info matches Some(b) ==> b.len() >= 2))
}

/// A file read in the layout of `v`, written back in that layout (below
/// 2^32 bytes), reads back as it was read: the same header and objects, with
/// the offsets they now stand at, the draw destinations they were given, and
/// where cloth meshes are dropped, without them. This holds where the bone
/// info of each weighted mesh read holds at least its two-byte size.
pub proof fn lemma_read_write_read(d: Seq<u8>, v: GameVersion, no_cloth: bool)
    requires
        parse_prim(d, v) is Ok,
        bone_info_sized(parse_prim(d, v)->Ok_0),
        write_prim(parse_prim(d, v)->Ok_0, v, no_cloth).0.len() <= u32::MAX,
    ensures
        parse_prim(write_prim(parse_prim(d, v)->Ok_0, v, no_cloth).0, v) == Ok::<ObjectHeaderModel, PrimError>(
            prim_read_back(parse_prim(d, v)->Ok_0, v, no_cloth),
        ),
{
    let h = parse_prim(d, v)->Ok_0;
    let main = crate::io::take_u32(d, 0)->Ok_0.0;
    let h0 = crate::prim::parse_object_header(d, main as int)->Ok_0.0;
    assert(h.objects == parse_objects(d, h0, v, h0.num_objects as nat)->Ok_0);
    lemma_read_objects_readable(d, h0, v, v, h0.num_objects as nat, no_cloth);
    assert(h.header_flags == h0.header_flags);
    assert(header_readable(h, v, no_cloth));
    lemma_prim_roundtrip(h, v, no_cloth);
}

/// A file read in the layout of `v` and written in the layout of `out`
/// (below 2^32 bytes) reads back in `out`: the header read, with the number
/// of objects written and the offset of their table, and each written object
/// read back with the offsets it now stands at and the fields `out` stores.
/// This holds where every object keeps in `out` what its reading back needs
/// (see `object_portable`).
pub proof fn lemma_read_port_read(d: Seq<u8>, v: GameVersion, out: GameVersion, no_cloth: bool)
    requires
        parse_prim(d, v) is Ok,
        header_portable(parse_prim(d, v)->Ok_0, out),
        write_prim(parse_prim(d, v)->Ok_0, out, no_cloth).0.len() <= u32::MAX,
    ensures
        parse_prim(write_prim(parse_prim(d, v)->Ok_0, out, no_cloth).0, out) == Ok::<ObjectHeaderModel, PrimError>(
            prim_read_back(parse_prim(d, v)->Ok_0, out, no_cloth),
        ),
        ({
            let h = parse_prim(d, v)->Ok_0;
            let q = prim_read_back(h, out, no_cloth);
            &&& q.header_flags == h.header_flags
            &&& q.bone_rig_resource_index == h.bone_rig_resource_index
            &&& q.num_objects == q.objects.len()
            &&& forall|i: int|
                0 <= i < q.objects.len() ==> ((#[trigger] q.objects[i]) is Weighted <==> is_weighted(h.header_flags))
        }),
{
    let h = parse_prim(d, v)->Ok_0;
    let main = crate::io::take_u32(d, 0)->Ok_0.0;
    let h0 = crate::prim::parse_object_header(d, main as int)->Ok_0.0;
    let os = parse_objects(d, h0, v, h0.num_objects as nat)->Ok_0;
    assert(h.objects == os);
    assert(h.header_flags == h0.header_flags);
    assert forall|i: int| 0 <= i < os.len() implies (#[trigger] os[i] matches ObjectModel::Weighted(w) ==> (
    w.bone_info matches Some(b) ==> b.len() >= 2)) by {
        assert(object_portable(h.objects[i], h.header_flags, out));
    }
    assert forall|i: int| 0 <= i < os.len() implies object_portable(#[trigger] os[i], h0.header_flags, out) by {
        assert(object_portable(h.objects[i], h.header_flags, out));
    }
    lemma_read_objects_readable(d, h0, v, out, h0.num_objects as nat, no_cloth);
    assert(header_readable(h, out, no_cloth));
    lemma_prim_roundtrip(h, out, no_cloth);
    lemma_parse_prim_shape(write_prim(h, out, no_cloth).0, out);
}

/// The objects read from a header are as many as it lists, each weighted
/// exactly where the header flags say the meshes are.
pub proof fn lemma_parse_objects_shape(d: Seq<u8>, h: ObjectHeaderModel, v: GameVersion, n: nat)
    requires
        parse_objects(d, h, v, n) is Ok,
    ensures
        parse_objects(d, h, v, n)->Ok_0.len() == n,
        forall|i: int|
            0 <= i < n ==> ((#[trigger] parse_objects(d, h, v, n)->Ok_0[i]) is Weighted <==> is_weighted(
                h.header_flags,
            )),
    decreases n,
{
    if n > 0 {
        lemma_parse_objects_shape(d, h, v, (n - 1) as nat);
        let os = parse_objects(d, h, v, n)->Ok_0;
        let prev = parse_objects(d, h, v, (n - 1) as nat)->Ok_0;
        let o = parse_object_entry(d, h.object_table, h.header_flags, v, n - 1)->Ok_0;
        assert(os == prev.push(o));
        assert forall|i: int| 0 <= i < n implies ((#[trigger] os[i]) is Weighted <==> is_weighted(h.header_flags)) by {
            if i < n - 1 {
                assert(os[i] == prev[i]);
            }
        }
    }
}

/// A file that reads lists as many objects as it holds, each weighted
/// exactly where its header flags say the meshes are.
pub proof fn lemma_parse_prim_shape(d: Seq<u8>, v: GameVersion)
    requires
        parse_prim(d, v) is Ok,
    ensures
        parse_prim(d, v)->Ok_0.num_objects == parse_prim(d, v)->Ok_0.objects.len(),
        forall|i: int|
            0 <= i < parse_prim(d, v)->Ok_0.objects.len() ==> ((#[trigger] parse_prim(d, v)->Ok_0.objects[i]) is Weighted
                <==> is_weighted(parse_prim(d, v)->Ok_0.header_flags)),
{
    let main = crate::io::take_u32(d, 0)->Ok_0.0;
    let h0 = crate::prim::parse_object_header(d, main as int)->Ok_0.0;
    lemma_parse_objects_shape(d, h0, v, h0.num_objects as nat);
}

/// The bytes of three `u32` values read from `q` are the bytes they were
/// read from.
proof fn lemma_u32x3_bytes_back(d: Seq<u8>, q: int)
    requires
        0 <= q,
        q + 12 <= d.len(),
    ensures
        u32s_bytes(u32x3_at(d, q)@) == d.subrange(q, q + 12),
{
    lemma_auto_spec_u32_to_from_le_bytes();
    let a = u32x3_at(d, q);
    lemma_u32s_bytes(a@);
    let b = u32s_bytes(a@);
    assert forall|j: int| 0 <= j < 12 implies #[trigger] b[j] == d[q + j] by {
        let i = j / 4;
        assert(0 <= i < 3);
        assert(b.subrange(4 * i, 4 * i + 4) == spec_u32_to_le_bytes(a@[i]));
        assert(a@[i] == u32_at(d, q + 4 * i));
        assert(spec_u32_to_le_bytes(u32_at(d, q + 4 * i)) == d.subrange(q + 4 * i, q + 4 * i + 4));
        assert(b.subrange(4 * i, 4 * i + 4)[j - 4 * i] == b[j]);
        assert(d.subrange(q + 4 * i, q + 4 * i + 4)[j - 4 * i] == d[q + j]);
    }
    assert(b =~= d.subrange(q, q + 12));
}

/// Writing an object just read, in the layout it was read in, gives the
/// bytes it was read from.
pub proof fn lemma_object_reread(d: Seq<u8>, p: int, v: GameVersion)
    requires
        parse_object(d, p, v) is Ok,
    ensures
        object_bytes(parse_object(d, p, v)->Ok_0.0, v) == d.subrange(p, p + object_size(v)),
{
    lemma_auto_spec_u16_to_from_le_bytes();
    lemma_auto_spec_u32_to_from_le_bytes();
    let o = parse_object(d, p, v)->Ok_0.0;
    let c: int = if has_extended_fields(v) {
        4
    } else {
        0
    };
    assert(header_bytes(o.header) =~= d.subrange(p, p + 4)) by {
        assert(spec_u16_to_le_bytes(o.header.prim_type) == d.subrange(p + 2, p + 4));
    }
    assert(spec_u16_to_le_bytes(o.material_id) == d.subrange(p + 10, p + 12));
    assert(spec_u32_to_le_bytes(o.wire_color) == d.subrange(p + 12, p + 16));
    if has_extended_fields(v) {
        assert(spec_u32_to_le_bytes(color1_or_zero(o.color1)) == d.subrange(p + 16, p + 20));
    }
    lemma_u32x3_bytes_back(d, p + 16 + c);
    lemma_u32x3_bytes_back(d, p + 28 + c);
    let ext = if has_extended_fields(v) {
        spec_u32_to_le_bytes(color1_or_zero(o.color1))
    } else {
        Seq::empty()
    };
    assert(ext =~= d.subrange(p + 16, p + 16 + c));
    assert(object_bytes(o, v) =~= d.subrange(p, p + 4) + d.subrange(p + 4, p + 10) + d.subrange(p + 10, p + 12)
        + d.subrange(p + 12, p + 16) + d.subrange(p + 16, p + 16 + c) + d.subrange(p + 16 + c, p + 28 + c)
        + d.subrange(p + 28 + c, p + 40 + c));
    assert(object_bytes(o, v) =~= d.subrange(p, p + object_size(v)));
}

/// An object read in one layout and written in the other: written for
/// HM2016 or WOA after being read from HMA or ALPHA, its bytes are the 40
/// read with the second colour written as 0 after the first 16; written for
/// HMA or ALPHA after being read from HM2016 or WOA, they are the 44 read
/// without the second colour at bytes 16 to 20.
pub proof fn lemma_object_across_layouts(d: Seq<u8>, p: int, v: GameVersion, out: GameVersion)
    requires
        parse_object(d, p, v) is Ok,
    ensures
        ({
            let o = parse_object(d, p, v)->Ok_0.0;
            let b = d.subrange(p, p + object_size(v));
            &&& (!has_extended_fields(v) && has_extended_fields(out)) ==> object_bytes(o, out) == b.subrange(0, 16)
                + spec_u32_to_le_bytes(0) + b.subrange(16, 40)
            &&& (has_extended_fields(v) && !has_extended_fields(out)) ==> object_bytes(o, out) == b.subrange(0, 16)
                + b.subrange(20, 44)
            &&& has_extended_fields(v) == has_extended_fields(out) ==> object_bytes(o, out) == b
        }),
{
    lemma_object_reread(d, p, v);
    let o = parse_object(d, p, v)->Ok_0.0;
    let b = d.subrange(p, p + object_size(v));
    let head = header_bytes(o.header) + seq![o.sub_type, o.flags, o.lod_mask, o.variant_id, o.bias, o.offset]
        + spec_u16_to_le_bytes(o.material_id) + spec_u32_to_le_bytes(o.wire_color);
    let tail = u32s_bytes(o.bounding_box_min@) + u32s_bytes(o.bounding_box_max@);
    lemma_auto_spec_u16_to_from_le_bytes();
    lemma_auto_spec_u32_to_from_le_bytes();
    lemma_u32s_bytes(o.bounding_box_min@);
    lemma_u32s_bytes(o.bounding_box_max@);
    assert(head.len() == 16);
    assert(tail.len() == 24);
    let ext_in = if has_extended_fields(v) {
        spec_u32_to_le_bytes(color1_or_zero(o.color1))
    } else {
        Seq::empty()
    };
    let ext_out = if has_extended_fields(out) {
        spec_u32_to_le_bytes(color1_or_zero(o.color1))
    } else {
        Seq::empty()
    };
    assert(object_bytes(o, v) =~= head + ext_in + tail);
    assert(object_bytes(o, out) =~= head + ext_out + tail);
    assert(b.subrange(0, 16) =~= head);
    if has_extended_fields(v) {
        assert(b.subrange(20, 44) =~= tail);
    } else {
        assert(o.color1 is None);
        assert(b.subrange(16, 40) =~= tail);
    }
}

/// Chunks of `k` bytes each, chunk `i` being the bytes of `d` at
/// `p + i * k`, concatenate to the bytes of `d` from `p` on.
pub proof fn lemma_flatten_matches(c: Seq<Seq<u8>>, k: int, d: Seq<u8>, p: int)
    requires
        0 <= k,
        0 <= p,
        p + c.len() * k <= d.len(),
        forall|i: int| 0 <= i < c.len() ==> #[trigger] c[i] == d.subrange(p + i * k, p + i * k + k),
    ensures
        c.flatten_alt() == d.subrange(p, p + c.len() * k),
    decreases c.len(),
{
    if c.len() == 0 {
        assert(d.subrange(p, p + c.len() * k) =~= Seq::<u8>::empty());
    } else {
        let n = c.len() - 1;
        let t = c.drop_last();
        assert(n * k + k == c.len() * k) by (nonlinear_arith)
            requires
                n == c.len() - 1,
        ;
        assert(0 <= n * k) by (nonlinear_arith)
            requires
                0 <= n,
                0 <= k,
        ;
        assert forall|i: int| 0 <= i < t.len() implies #[trigger] t[i] == d.subrange(p + i * k, p + i * k + k) by {
            assert(t[i] == c[i]);
        }
        lemma_flatten_matches(t, k, d, p);
        assert(c[n] == d.subrange(p + n * k, p + n * k + k));
        assert(c.flatten_alt() == t.flatten_alt() + c.last());
        assert(d.subrange(p, p + n * k) + d.subrange(p + n * k, p + n * k + k) =~= d.subrange(p, p + c.len() * k));
    }
}

/// The bytes of `n` `u16` values read from `q` are the bytes they were
/// read from.
pub proof fn lemma_u16s_reread(d: Seq<u8>, q: int, n: int)
    requires
        0 <= q,
        0 <= n,
        q + 2 * n <= d.len(),
    ensures
        u16s_bytes(Seq::new(n as nat, |i: int| u16_at(d, q + 2 * i))) == d.subrange(q, q + 2 * n),
{
    lemma_auto_spec_u16_to_from_le_bytes();
    let s = Seq::new(n as nat, |i: int| u16_at(d, q + 2 * i));
    let c = s.map_values(|x: u16| spec_u16_to_le_bytes(x));
    assert forall|i: int| 0 <= i < c.len() implies #[trigger] c[i] == d.subrange(q + i * 2, q + i * 2 + 2) by {
        assert(c[i] == spec_u16_to_le_bytes(u16_at(d, q + 2 * i)));
    }
    lemma_flatten_matches(c, 2, d, q);
}

/// The bytes of `n` `u32` values read from `q` are the bytes they were
/// read from.
pub proof fn lemma_u32s_reread(d: Seq<u8>, q: int, n: int)
    requires
        0 <= q,
        0 <= n,
        q + 4 * n <= d.len(),
    ensures
        u32s_bytes(Seq::new(n as nat, |i: int| u32_at(d, q + 4 * i))) == d.subrange(q, q + 4 * n),
{
    lemma_auto_spec_u32_to_from_le_bytes();
    let s = Seq::new(n as nat, |i: int| u32_at(d, q + 4 * i));
    let c = s.map_values(|x: u32| spec_u32_to_le_bytes(x));
    assert forall|i: int| 0 <= i < c.len() implies #[trigger] c[i] == d.subrange(q + i * 4, q + i * 4 + 4) by {
        assert(c[i] == spec_u32_to_le_bytes(u32_at(d, q + 4 * i)));
    }
    lemma_flatten_matches(c, 4, d, q);
}

/// The bytes of a position read from `q` are the bytes it was read from.
pub proof fn lemma_position_reread(d: Seq<u8>, q: int, hi_res: bool)
    requires
        0 <= q,
        q + position_size(hi_res) <= d.len(),
    ensures
        position_bytes(position_at(d, q, hi_res)) == d.subrange(q, q + position_size(hi_res)),
{
    if hi_res {
        let a = [u32_at(d, q), u32_at(d, q + 4), u32_at(d, q + 8)];
        lemma_u32s_reread(d, q, 3);
        assert(a@ =~= Seq::new(3, |i: int| u32_at(d, q + 4 * i)));
    } else {
        let a = [u16_at(d, q), u16_at(d, q + 2), u16_at(d, q + 4), u16_at(d, q + 6)];
        lemma_u16s_reread(d, q, 4);
        assert(a@ =~= Seq::new(4, |i: int| u16_at(d, q + 2 * i)));
    }
}

/// `i` records of `k` bytes and one more fit within `n` records.
proof fn lemma_record_within(i: int, n: int, k: int)
    requires
        0 <= i < n,
        0 <= k,
    ensures
        0 <= i * k,
        i * k + k <= n * k,
{
    assert(0 <= i * k && i * k + k <= n * k) by (nonlinear_arith)
        requires
            0 <= i < n,
            0 <= k,
    ;
}

/// The bytes of positions read from `p` are the bytes they were read from.
proof fn lemma_positions_reread(d: Seq<u8>, p: int, n: int, hi_res: bool)
    requires
        0 <= p <= d.len(),
        0 <= n,
        take_positions(d, p, n, hi_res) is Ok,
    ensures
        positions_bytes(take_positions(d, p, n, hi_res)->Ok_0.0) == d.subrange(p, take_positions(d, p, n, hi_res)->Ok_0.1),
{
    let k = position_size(hi_res);
    let ps = take_positions(d, p, n, hi_res)->Ok_0.0;
    let c = Seq::new(ps.len(), |i: int| position_bytes(ps[i]));
    assert forall|i: int| 0 <= i < c.len() implies #[trigger] c[i] == d.subrange(p + i * k, p + i * k + k) by {
        lemma_record_within(i, n, k);
        lemma_position_reread(d, p + i * k, hi_res);
    }
    lemma_flatten_matches(c, k, d, p);
}

/// The bytes of weights and bones read from `p` are the bytes they were
/// read from.
proof fn lemma_weights_reread(d: Seq<u8>, p: int, n: int)
    requires
        0 <= p <= d.len(),
        0 <= n,
        take_weights_and_bones(d, p, n) is Ok,
    ensures
        ({
            let (wb, q) = take_weights_and_bones(d, p, n)->Ok_0;
            weights_bones_bytes(wb.0, wb.1) == d.subrange(p, q)
        }),
{
    let (wb, q) = take_weights_and_bones(d, p, n)->Ok_0;
    let c = Seq::new(wb.0.len(), |i: int| weight_bone_bytes(wb.0[i], wb.1[i]));
    assert forall|i: int| 0 <= i < c.len() implies #[trigger] c[i] == d.subrange(p + i * 12, p + i * 12 + 12) by {
        lemma_record_within(i, n, 12);
        let r = p + 12 * i;
        assert(c[i] =~= d.subrange(r, r + 12));
    }
    lemma_flatten_matches(c, 12, d, p);
}

/// The bytes of the per-vertex records read from `p` are the bytes they
/// were read from.
proof fn lemma_records_reread(d: Seq<u8>, p: int, n: int, alt: bool, hi_res: bool, v: VerticesModel)
    requires
        0 <= p <= d.len(),
        0 <= n,
        take_records(d, p, n, alt, hi_res) is Ok,
        ({
            let recs = take_records(d, p, n, alt, hi_res)->Ok_0.0;
            &&& alt ==> v.positions == recs.positions
            &&& v.positions.len() == n
            &&& v.normals == recs.normals
            &&& v.tangents == recs.tangents
            &&& v.bitangents == recs.bitangents
            &&& v.uvs == recs.uvs
        }),
    ensures
        records_bytes(v, alt) == d.subrange(p, take_records(d, p, n, alt, hi_res)->Ok_0.1),
{
    let k = record_size(alt, hi_res);
    let o = record_attrs(alt, hi_res);
    let c = Seq::new(v.positions.len(), |i: int| record_bytes(v, i, alt));
    assert forall|i: int| 0 <= i < c.len() implies #[trigger] c[i] == d.subrange(p + i * k, p + i * k + k) by {
        lemma_record_within(i, n, k);
        let r = p + i * k;
        let pos = if alt {
            position_bytes(v.positions[i])
        } else {
            Seq::empty()
        };
        if alt {
            lemma_position_reread(d, r, hi_res);
        }
        assert(pos =~= d.subrange(r, r + o));
        lemma_u16s_reread(d, r + o + 12, 2);
        assert(v.uvs[i]@ =~= Seq::new(2, |j: int| u16_at(d, r + o + 12 + 2 * j)));
        assert(c[i] =~= d.subrange(r, r + o) + d.subrange(r + o, r + o + 4) + d.subrange(r + o + 4, r + o + 8)
            + d.subrange(r + o + 8, r + o + 12) + d.subrange(r + o + 12, r + o + 16));
        assert(c[i] =~= d.subrange(r, r + k));
    }
    assert(n == 0 ==> n * k == 0) by (nonlinear_arith);
    lemma_flatten_matches(c, k, d, p);
}

/// The bytes of stored colours read from `p` are the bytes they were read
/// from.
proof fn lemma_colors_reread(d: Seq<u8>, p: int, n: int)
    requires
        0 <= p <= d.len(),
        0 <= n,
        take_color_bytes(d, p, n) is Ok,
    ensures
        colors_bytes(take_color_bytes(d, p, n)->Ok_0.0) == d.subrange(p, take_color_bytes(d, p, n)->Ok_0.1),
{
    let cs = take_color_bytes(d, p, n)->Ok_0.0;
    let c = Seq::new(cs.len(), |i: int| cs[i]@);
    assert forall|i: int| 0 <= i < c.len() implies #[trigger] c[i] == d.subrange(p + i * 4, p + i * 4 + 4) by {
        lemma_record_within(i, n, 4);
        assert(c[i] =~= d.subrange(p + 4 * i, p + 4 * i + 4));
    }
    lemma_flatten_matches(c, 4, d, p);
}

/// Writing vertices just read, for the same mesh and sub-mesh, gives the
/// bytes they were read from: each position in the mesh's encoding, and
/// every attribute as it was stored.
#[verifier::rlimit(40)]
pub proof fn lemma_vertices_reread(
    d: Seq<u8>,
    p: int,
    header_flags: u32,
    draw_destination: u8,
    mesh_flags: u8,
    sub_flags: u8,
    color1: Option<u32>,
    n: u32,
)
    requires
        0 <= p <= d.len(),
        parse_vertices(d, p, header_flags, draw_destination, mesh_flags, sub_flags, color1, n) is Ok,
    ensures
        ({
            let (vs, q) = parse_vertices(d, p, header_flags, draw_destination, mesh_flags, sub_flags, color1, n)->Ok_0;
            &&& positions_encoded(vs.positions, mesh_flags)
            &&& vertices_bytes(
                vs,
                has_alt_packing(draw_destination),
                is_weighted(header_flags),
                writes_colors(header_flags, mesh_flags, sub_flags),
            ) == d.subrange(p, q)
        }),
{
    let (vs, q) = parse_vertices(d, p, header_flags, draw_destination, mesh_flags, sub_flags, color1, n)->Ok_0;
    lemma_read_vertices_as_stored(d, p, header_flags, draw_destination, mesh_flags, sub_flags, color1, n);
    let alt = has_alt_packing(draw_destination);
    let hi = has_hi_res_positions(mesh_flags);
    let w = is_weighted(header_flags);
    let wc = writes_colors(header_flags, mesh_flags, sub_flags);
    let nn = n as int;
    let p1 = if alt {
        p
    } else {
        take_positions(d, p, nn, hi)->Ok_0.1
    };
    let p2 = if w {
        take_weights_and_bones(d, p1, nn)->Ok_0.1
    } else {
        p1
    };
    let p3 = take_records(d, p2, nn, alt, hi)->Ok_0.1;
    let p4 = take_colors(d, p3, nn, colors_present(header_flags, mesh_flags), sub_flags, color1)->Ok_0.1;
    assert(q == p4);
    let ks = position_size(hi);
    let kr = record_size(alt, hi);
    assert(0 <= nn * ks && 0 <= nn * kr && (nn == 0 ==> nn * ks == 0 && nn * kr == 0)) by (nonlinear_arith)
        requires
            nn >= 0,
            ks > 0,
            kr > 0,
    ;
    assert(p <= p1 <= p2 <= p3 <= p4 <= d.len());
    let sa = if alt {
        Seq::<u8>::empty()
    } else {
        positions_bytes(vs.positions)
    };
    let sb = if w {
        weights_bones_bytes(vs.weights, vs.bones)
    } else {
        Seq::<u8>::empty()
    };
    let sc = records_bytes(vs, alt);
    let sd = if wc {
        colors_bytes(vs.colors)
    } else {
        Seq::<u8>::empty()
    };
    if alt {
        assert(sa =~= d.subrange(p, p1));
    } else {
        lemma_positions_reread(d, p, nn, hi);
    }
    if w {
        lemma_weights_reread(d, p1, nn);
    } else {
        assert(sb =~= d.subrange(p1, p2));
    }
    lemma_records_reread(d, p2, nn, alt, hi, vs);
    if wc {
        lemma_colors_reread(d, p3, nn);
    } else {
        assert(sd =~= d.subrange(p3, p4));
    }
    assert(vertices_bytes(vs, alt, w, wc) == sa + sb + sc + sd);
    assert(sa + sb + sc + sd =~= d.subrange(p, p4));
}

/// Vertices read for a sub-mesh that has a single colour `c`, where vertex
/// colours are there, each have the little-endian bytes of `c` as their
/// colour; where the sub-mesh has no second colour stored, each has zeros.
pub proof fn lemma_read_single_colour(
    d: Seq<u8>,
    p: int,
    header_flags: u32,
    draw_destination: u8,
    mesh_flags: u8,
    sub_flags: u8,
    color1: Option<u32>,
    n: u32,
)
    requires
        parse_vertices(d, p, header_flags, draw_destination, mesh_flags, sub_flags, color1, n) is Ok,
        header_flags & 8 == 8 || mesh_flags & 0x20 != 0x20,
        sub_flags & 0x20 == 0x20,
    ensures
        ({
            let cs = parse_vertices(d, p, header_flags, draw_destination, mesh_flags, sub_flags, color1, n)->Ok_0.0.colors;
            &&& cs.len() == n
            &&& forall|i: int|
                0 <= i < n ==> (#[trigger] cs[i])@ == match color1 {
                    Some(c) => spec_u32_to_le_bytes(c),
                    None => seq![0u8, 0u8, 0u8, 0u8],
                }
        }),
{
    lemma_read_vertices_as_stored(d, p, header_flags, draw_destination, mesh_flags, sub_flags, color1, n);
    crate::vertices::lemma_color_of(color1);
}

} // verus!

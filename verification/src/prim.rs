//! The main object header of a PRIM file, the objects it lists, and whole
//! files.

use crate::io::{
    align, aligned, low_u32, reads_as, take_u32, u32_at, u32s_bytes, write_u32_into, Parsed, PrimError, Reader,
    Writer,
};
use crate::mesh::{
    low32, mesh_writable, parse_mesh, parse_weighted, write_mesh, write_weighted, yields, MeshModel, SPrimMesh,
    SPrimMeshWeighted, WeightedModel,
};
use crate::object::{header_at, header_bytes, u32x3_at, SPrimHeader};
use crate::vertices::is_weighted;
use crate::version::GameVersion;
use vstd::bytes::*;
use vstd::prelude::*;

verus! {

/// An object listed by the main header: a mesh, or a weighted mesh where the
/// header flags say the meshes are weighted.
pub enum Object {
    SPrimMesh(SPrimMesh),
    SPrimMeshWeighted(SPrimMeshWeighted),
}

/// The contents of an [`Object`].
pub enum ObjectModel {
    Mesh(MeshModel),
    Weighted(WeightedModel),
}

impl View for Object {
    type V = ObjectModel;

    open spec fn view(&self) -> ObjectModel {
        match self {
            Object::SPrimMesh(m) => ObjectModel::Mesh(m@),
            Object::SPrimMeshWeighted(w) => ObjectModel::Weighted(w@),
        }
    }
}

/// The main header of a PRIM file and the objects it lists. The bounding
/// box corners are 32-bit floats, held as their bit patterns.
pub struct SPrimObjectHeader {
    pub header: SPrimHeader,
    pub header_flags: u32,
    pub bone_rig_resource_index: u32,
    pub num_objects: u32,
    pub object_table: u32,
    pub bounding_box_min: [u32; 3],
    pub bounding_box_max: [u32; 3],
    pub objects: Vec<Object>,
}

/// The contents of an [`SPrimObjectHeader`].
pub struct ObjectHeaderModel {
    pub header: SPrimHeader,
    pub header_flags: u32,
    pub bone_rig_resource_index: u32,
    pub num_objects: u32,
    pub object_table: u32,
    pub bounding_box_min: [u32; 3],
    pub bounding_box_max: [u32; 3],
    pub objects: Seq<ObjectModel>,
}

impl View for SPrimObjectHeader {
    type V = ObjectHeaderModel;

    open spec fn view(&self) -> ObjectHeaderModel {
        ObjectHeaderModel {
            header: self.header,
            header_flags: self.header_flags,
            bone_rig_resource_index: self.bone_rig_resource_index,
            num_objects: self.num_objects,
            object_table: self.object_table,
            bounding_box_min: self.bounding_box_min,
            bounding_box_max: self.bounding_box_max,
            objects: self.objects@.map_values(|o: Object| o@),
        }
    }
}

/// The main header stored at `p`, with no objects yet.
pub open spec fn object_header_at(d: Seq<u8>, p: int) -> ObjectHeaderModel {
    ObjectHeaderModel {
        header: header_at(d, p),
        header_flags: u32_at(d, p + 4),
        bone_rig_resource_index: u32_at(d, p + 8),
        num_objects: u32_at(d, p + 12),
        object_table: u32_at(d, p + 16),
        bounding_box_min: u32x3_at(d, p + 20),
        bounding_box_max: u32x3_at(d, p + 32),
        objects: Seq::empty(),
    }
}

/// Reading the main header from `p`: 44 bytes.
pub open spec fn parse_object_header(d: Seq<u8>, p: int) -> Parsed<ObjectHeaderModel> {
    if 0 <= p && p + 44 <= d.len() {
        Ok((object_header_at(d, p), p + 44))
    } else {
        Err(PrimError::UnexpectedEnd)
    }
}

/// Reading object `o` of those a header lists: its entry in the
/// object table is a `u32` offset; an entry position past `u32::MAX` is an
/// overflow.
pub open spec fn parse_object_entry(d: Seq<u8>, object_table: u32, header_flags: u32, v: GameVersion, o: int) -> Result<
    ObjectModel,
    PrimError,
> {
    if object_table + 4 * o > u32::MAX {
        Err(PrimError::Overflow)
    } else {
        match take_u32(d, object_table + 4 * o) {
            Err(e) => Err(e),
            Ok((offset, _)) => if is_weighted(header_flags) {
                match parse_weighted(d, offset as int, header_flags, v) {
                    Err(e) => Err(e),
                    Ok(w) => Ok(ObjectModel::Weighted(w)),
                }
            } else {
                match parse_mesh(d, offset as int, header_flags, v) {
                    Err(e) => Err(e),
                    Ok((m, _)) => Ok(ObjectModel::Mesh(m)),
                }
            },
        }
    }
}

/// Reading the first `n` objects that the header `h` lists, in order.
pub open spec fn parse_objects(d: Seq<u8>, h: ObjectHeaderModel, v: GameVersion, n: nat) -> Result<
    Seq<ObjectModel>,
    PrimError,
>
    decreases n,
{
    if n == 0 {
        Ok(Seq::empty())
    } else {
        match parse_objects(d, h, v, (n - 1) as nat) {
            Err(e) => Err(e),
            Ok(os) => match parse_object_entry(d, h.object_table, h.header_flags, v, n - 1) {
                Err(e) => Err(e),
                Ok(o) => Ok(os.push(o)),
            },
        }
    }
}

/// Once object `o` fails to read, reading any more objects fails the same way.
pub proof fn lemma_parse_objects_stops(d: Seq<u8>, h: ObjectHeaderModel, v: GameVersion, o: nat, n: nat)
    requires
        o < n,
        parse_objects(d, h, v, o) is Ok,
        parse_object_entry(d, h.object_table, h.header_flags, v, o as int) is Err,
    ensures
        parse_objects(d, h, v, n) == Err::<Seq<ObjectModel>, PrimError>(
            parse_object_entry(d, h.object_table, h.header_flags, v, o as int)->Err_0,
        ),
    decreases n,
{
    if n > o + 1 {
        lemma_parse_objects_stops(d, h, v, o, (n - 1) as nat);
    }
}

/// The draw destination an object gets when written for `output_version`:
/// for ALPHA, the low four bits where the meshes are weighted, else 0x81;
/// for the others, the low four bits.
pub open spec fn draw_destination_for(header_flags: u32, draw_destination: u8, output_version: GameVersion) -> u8 {
    if output_version == GameVersion::Alpha && !is_weighted(header_flags) {
        0x81
    } else {
        draw_destination & 0xF
    }
}

/// The draw destination written for an output layout: for every layout
/// but ALPHA, and for weighted meshes in ALPHA, the low four bits of the one
/// read, with no bit of the alternative vertex packing (0x80) kept; for
/// meshes that are not weighted in ALPHA, 0x81, which asks for that packing.
pub proof fn lemma_draw_destination_for(header_flags: u32, draw_destination: u8, output_version: GameVersion)
    ensures
        (output_version != GameVersion::Alpha || header_flags & 8 == 8) ==> {
            &&& draw_destination_for(header_flags, draw_destination, output_version) == draw_destination & 0xF
            &&& draw_destination_for(header_flags, draw_destination, output_version) < 0x10
            &&& draw_destination_for(header_flags, draw_destination, output_version) & 0x80 != 0x80
        },
        (output_version == GameVersion::Alpha && header_flags & 8 != 8) ==> {
            &&& draw_destination_for(header_flags, draw_destination, output_version) == 0x81
            &&& draw_destination_for(header_flags, draw_destination, output_version) & 0x80 == 0x80
        },
{
    let r = draw_destination_for(header_flags, draw_destination, output_version);
    assert(draw_destination & 0xF < 0x10 && (draw_destination & 0xF) & 0x80 != 0x80) by (bit_vector);
    assert(0x81u8 & 0x80 == 0x80) by (bit_vector);
}

/// A mesh with its draw destination set to `dd`.
pub open spec fn with_draw_destination(m: MeshModel, dd: u8) -> MeshModel {
    MeshModel {
        object: crate::object::SPrimObject {
            header: SPrimHeader { draw_destination: dd, ..m.object.header },
            ..m.object
        },
        ..m
    }
}

/// A weighted mesh is written unless cloth is dropped and it is cloth: a
/// sub-mesh without cloth data of a mesh with a nonzero cloth id.
pub open spec fn keeps_weighted(w: WeightedModel, no_cloth: bool) -> bool {
    !no_cloth || (w.mesh.sub_mesh.unwrap().offset_cloth > 0 || (w.mesh.sub_mesh.unwrap().offset_cloth == 0
        && w.mesh.cloth_id == 0))
}

/// Writing one object: a mesh with its sub-mesh, padded to 16; a weighted
/// mesh where it is kept. Gives the new buffer, the offset of the object
/// where it was written, and the object with its new draw destination.
#[verifier::opaque]
pub open spec fn write_object_entry(
    buf: Seq<u8>,
    o: ObjectModel,
    header_flags: u32,
    v: GameVersion,
    no_cloth: bool,
) -> (Seq<u8>, Option<u32>, ObjectModel) {
    match o {
        ObjectModel::Mesh(m) => {
            let m2 = with_draw_destination(
                m,
                draw_destination_for(header_flags, m.object.header.draw_destination, v),
            );
            let (b, off) = write_mesh(buf, m2, header_flags, v, 0xFFFF_FFFF);
            (aligned(b, 16), Some(off), ObjectModel::Mesh(m2))
        },
        ObjectModel::Weighted(w) => if keeps_weighted(w, no_cloth) {
            let w2 = WeightedModel {
                mesh: with_draw_destination(
                    w.mesh,
                    draw_destination_for(header_flags, w.mesh.object.header.draw_destination, v),
                ),
                ..w
            };
            let (b, off) = write_weighted(buf, w2, header_flags, v);
            (b, Some(off), ObjectModel::Weighted(w2))
        } else {
            (buf, None, o)
        },
    }
}

/// Writing objects in order. Gives the new buffer, the offsets of the
/// objects written, and the objects with their new draw destinations.
pub open spec fn write_objects(
    buf: Seq<u8>,
    os: Seq<ObjectModel>,
    header_flags: u32,
    v: GameVersion,
    no_cloth: bool,
) -> (Seq<u8>, Seq<u32>, Seq<ObjectModel>)
    decreases os.len(),
{
    if os.len() == 0 {
        (buf, Seq::empty(), Seq::empty())
    } else {
        let (b, offs, done) = write_objects(buf, os.drop_last(), header_flags, v, no_cloth);
        let (b2, off, o2) = write_object_entry(b, os.last(), header_flags, v, no_cloth);
        (
            b2,
            match off {
                Some(x) => offs.push(x),
                None => offs,
            },
            done.push(o2),
        )
    }
}

/// The record of the main header: its header, flags, bone rig index, the
/// number of objects written (low 32 bits), the object table offset and the
/// bounding box.
pub open spec fn object_header_record_bytes(h: ObjectHeaderModel, count: int, object_table: u32) -> Seq<u8> {
    header_bytes(h.header) + spec_u32_to_le_bytes(h.header_flags) + spec_u32_to_le_bytes(
        h.bone_rig_resource_index,
    ) + spec_u32_to_le_bytes(low32(count)) + spec_u32_to_le_bytes(object_table) + u32s_bytes(
        h.bounding_box_min@,
    ) + u32s_bytes(h.bounding_box_max@)
}

/// Writing the main header: its objects, the table of their offsets (padded
/// to 16), then its record (padded to 16). Gives the new buffer, the offset
/// of the record, and the header with its objects' new draw destinations.
pub open spec fn write_object_header(buf: Seq<u8>, h: ObjectHeaderModel, v: GameVersion, no_cloth: bool) -> (
    Seq<u8>,
    u32,
    ObjectHeaderModel,
) {
    let (b1, offs, os2) = write_objects(buf, h.objects, h.header_flags, v, no_cloth);
    let table = low32(b1.len() as int);
    let b2 = aligned(b1 + u32s_bytes(offs), 16);
    (
        aligned(b2 + object_header_record_bytes(h, offs.len() as int, table), 16),
        low32(b2.len() as int),
        ObjectHeaderModel { objects: os2, ..h },
    )
}

/// An object can be written: its sub-mesh's vertices can be, and a mesh (or,
/// where cloth is dropped, a weighted mesh) has a sub-mesh.
pub open spec fn object_writable(o: ObjectModel, header_flags: u32, no_cloth: bool) -> bool {
    match o {
        ObjectModel::Mesh(m) => m.sub_mesh is Some && mesh_writable(m, header_flags),
        ObjectModel::Weighted(w) => mesh_writable(w.mesh, header_flags) && (no_cloth ==> w.mesh.sub_mesh is Some),
    }
}

/// Every object of the header can be written.
pub open spec fn header_writable(h: ObjectHeaderModel, no_cloth: bool) -> bool {
    forall|i: int| 0 <= i < h.objects.len() ==> object_writable(#[trigger] h.objects[i], h.header_flags, no_cloth)
}

impl SPrimObjectHeader {
    /// Reads the main header, with no objects yet.
    pub fn read(reader: &mut Reader) -> (r: Result<SPrimObjectHeader, PrimError>)
        ensures
            final(reader).data@ == old(reader).data@,
            reads_as(r, final(reader).pos, parse_object_header(old(reader).data@, old(reader).pos as int)),
    {
        let ghost d = reader.data@;
        let ghost p = reader.pos as int;
        let header = SPrimHeader::read(reader)?;
        let header_flags = reader.read_u32()?;
        let bone_rig_resource_index = reader.read_u32()?;
        let num_objects = reader.read_u32()?;
        let object_table = reader.read_u32()?;
        let min = crate::io::read_u32_array(reader, 3)?;
        let max = crate::io::read_u32_array(reader, 3)?;
        assert(min@[1] == u32_at(d, p + 24) && min@[2] == u32_at(d, p + 28));
        assert(max@[1] == u32_at(d, p + 36) && max@[2] == u32_at(d, p + 40));
        let h = SPrimObjectHeader {
            header,
            header_flags,
            bone_rig_resource_index,
            num_objects,
            object_table,
            bounding_box_min: [min[0], min[1], min[2]],
            bounding_box_max: [max[0], max[1], max[2]],
            objects: Vec::new(),
        };
        assert(h@.objects =~= Seq::<ObjectModel>::empty());
        Ok(h)
    }

    /// Reads the objects that the header lists, in order, and appends them.
    pub fn read_objects(&mut self, reader: &mut Reader, input_version: &GameVersion) -> (r: Result<(), PrimError>)
        ensures
            final(reader).data@ == old(reader).data@,
            match parse_objects(
                old(reader).data@,
                old(self)@,
                *input_version,
                old(self).num_objects as nat,
            ) {
                Ok(os) => r is Ok && final(self)@ == (ObjectHeaderModel { objects: old(self)@.objects + os, ..old(self)@ }),
                Err(e) => r == Err::<(), PrimError>(e),
            },
    {
        let ghost d = reader.data@;
        let ghost h = self@;
        let mut o: u32 = 0;
        while o < self.num_objects
            invariant
                o <= self.num_objects,
                d == old(reader).data@,
                h == old(self)@,
                reader.data@ == d,
                self.num_objects == h.num_objects,
                self.object_table == h.object_table,
                self.header_flags == h.header_flags,
                parse_objects(d, h, *input_version, o as nat) matches Ok(os) && self@ == (ObjectHeaderModel {
                    objects: h.objects + os,
                    ..h
                }),
            decreases self.num_objects - o,
        {
            let ghost os = parse_objects(d, h, *input_version, o as nat)->Ok_0;
            let ghost n = self.num_objects as nat;
            let ghost before = self.objects@;
            match self.read_object_entry(reader, input_version, o) {
                Ok(object) => {
                    let ghost ov = object@;
                    self.objects.push(object);
                    assert(self.objects@ == before.push(object));
                    assert(self@.objects =~= before.map_values(|x: Object| x@).push(ov));
                },
                Err(e) => {
                    proof {
                        lemma_parse_objects_stops(d, h, *input_version, o as nat, n);
                    }
                    return Err(e);
                },
            }
            let ghost added = parse_object_entry(d, h.object_table, h.header_flags, *input_version, o as int)->Ok_0;
            assert(self@.objects =~= h.objects + os.push(added));
            o = o + 1;
        }
        Ok(())
    }

    /// Reads object `o` of those the header lists.
    fn read_object_entry(&self, reader: &mut Reader, input_version: &GameVersion, o: u32) -> (r: Result<Object, PrimError>)
        ensures
            final(reader).data@ == old(reader).data@,
            yields(
                r,
                parse_object_entry(old(reader).data@, self.object_table, self.header_flags, *input_version, o as int),
            ),
    {
        let entry = match o.checked_mul(4) {
            Some(x) => match self.object_table.checked_add(x) {
                Some(y) => y,
                None => return Err(PrimError::Overflow),
            },
            None => return Err(PrimError::Overflow),
        };
        reader.seek(entry as usize);
        let object_offset = reader.read_u32()?;
        reader.seek(object_offset as usize);
        if self.header_flags & 8 == 8 {
            let object = SPrimMeshWeighted::read(reader, self.header_flags, input_version)?;
            Ok(Object::SPrimMeshWeighted(object))
        } else {
            let object = SPrimMesh::read(reader, self.header_flags, input_version)?;
            Ok(Object::SPrimMesh(object))
        }
    }

    /// The draw destination an object gets when written for `output_version`.
    pub fn get_draw_destination(header_flags: u32, draw_destination: u8, output_version: &GameVersion) -> (r: u8)
        ensures
            r == draw_destination_for(header_flags, draw_destination, *output_version),
    {
        match output_version {
            GameVersion::Alpha => {
                if header_flags & 8 == 8 {
                    draw_destination & 0xF
                } else {
                    0x81
                }
            },
            _ => draw_destination & 0xF,
        }
    }

    /// Whether every object can be written: each mesh has a sub-mesh (and,
    /// where cloth is dropped, each weighted mesh too), and each sub-mesh's
    /// vertices have an entry of every attribute for each position and, where
    /// the meshes are weighted, a bone entry for each weight entry.
    pub fn is_writable(&self, no_cloth: bool) -> (r: bool)
        ensures
            r == header_writable(self@, no_cloth),
    {
        let n = self.objects.len();
        let mut i: usize = 0;
        while i < n
            invariant
                i <= n,
                n == self.objects@.len(),
                forall|j: int| 0 <= j < i ==> object_writable(#[trigger] self@.objects[j], self.header_flags, no_cloth),
            decreases n - i,
        {
            let ok = match &self.objects[i] {
                Object::SPrimMesh(m) => m.sub_mesh.is_some() && m.is_writable(self.header_flags),
                Object::SPrimMeshWeighted(w) => w.mesh.is_writable(self.header_flags) && (!no_cloth
                    || w.mesh.sub_mesh.is_some()),
            };
            assert(self@.objects[i as int] == self.objects@[i as int]@);
            if !ok {
                return false;
            }
            i = i + 1;
        }
        true
    }

    /// Whether the meshes are weighted: bit 8 of the header flags.
    pub fn is_weighted(&self) -> (r: bool)
        ensures
            r == is_weighted(self.header_flags),
    {
        self.header_flags & 8 == 8
    }
}

impl SPrimObjectHeader {
    /// Writes one object for `output_version`, with its new draw destination:
    /// a mesh, padded to 16; a weighted mesh where it is kept. Returns the
    /// object and, where it was written, its offset.
    fn write_entry(object: Object, writer: &mut Writer, header_flags: u32, output_version: &GameVersion, no_cloth: bool) -> (r: (
        Object,
        Option<u32>,
    ))
        requires
            old(writer).pos == old(writer).buf@.len(),
            object_writable(object@, header_flags, no_cloth),
        ensures
            final(writer).pos == final(writer).buf@.len(),
            final(writer).buf@.len() >= old(writer).buf@.len(),
            (final(writer).buf@, r.1, r.0@) == write_object_entry(
                old(writer).buf@,
                object@,
                header_flags,
                *output_version,
                no_cloth,
            ),
    {
        reveal(write_object_entry);
        match object {
            Object::SPrimMesh(mut m) => {
                m.object.header.draw_destination =
                    SPrimObjectHeader::get_draw_destination(
                    header_flags,
                    m.object.header.draw_destination,
                    output_version,
                );
                let offset = m.write(writer, header_flags, output_version, 0xFFFF_FFFF);
                align(writer, 0x10);
                (Object::SPrimMesh(m), Some(offset))
            },
            Object::SPrimMeshWeighted(mut w) => {
                let keep = if !no_cloth {
                    true
                } else {
                    match &w.mesh.sub_mesh {
                        Some(s) => s.offset_cloth > 0 || (s.offset_cloth == 0 && w.mesh.cloth_id == 0),
                        None => false,
                    }
                };
                if keep {
                    w.mesh.object.header.draw_destination =
                        SPrimObjectHeader::get_draw_destination(
                        header_flags,
                        w.mesh.object.header.draw_destination,
                        output_version,
                    );
                    let offset = w.write(writer, header_flags, output_version);
                    (Object::SPrimMeshWeighted(w), Some(offset))
                } else {
                    (Object::SPrimMeshWeighted(w), None)
                }
            },
        }
    }

    /// Writes the objects for `output_version` (dropping cloth meshes where
    /// `no_cloth`), the table of their offsets and the main header record,
    /// each padded to 16, and returns the offset of the record. The objects
    /// keep their new draw destinations.
    pub fn write(&mut self, writer: &mut Writer, output_version: &GameVersion, no_cloth: &bool) -> (r: u32)
        requires
            old(writer).pos == old(writer).buf@.len(),
            header_writable(old(self)@, *no_cloth),
        ensures
            final(writer).pos == final(writer).buf@.len(),
            final(writer).buf@.len() >= old(writer).buf@.len(),
            (final(writer).buf@, r, final(self)@) == write_object_header(
                old(writer).buf@,
                old(self)@,
                *output_version,
                *no_cloth,
            ),
    {
        let ghost h = self@;
        let ghost start = writer.buf@;
        let ghost os = h.objects;
        let mut objects: Vec<Object> = Vec::new();
        std::mem::swap(&mut objects, &mut self.objects);
        let ghost orig = objects@;
        assert(os =~= orig.map_values(|o: Object| o@));
        let mut done: Vec<Object> = Vec::new();
        let mut object_offsets: Vec<u32> = Vec::new();
        let n = objects.len();
        let mut i: usize = 0;
        while i < n
            invariant
                writer.pos == writer.buf@.len(),
                i <= n,
                n == orig.len(),
                os == orig.map_values(|o: Object| o@),
                os == h.objects,
                objects@ == orig.skip(i as int),
                self.header_flags == h.header_flags,
                header_writable(h, *no_cloth),
                start.len() <= writer.buf@.len(),
                (writer.buf@, object_offsets@, done@.map_values(|o: Object| o@)) == write_objects(
                    start,
                    os.take(i as int),
                    h.header_flags,
                    *output_version,
                    *no_cloth,
                ),
            decreases n - i,
        {
            let object = objects.remove(0);
            assert(object == orig[i as int]);
            assert(object@ == os[i as int]);
            assert(object_writable(os[i as int], h.header_flags, *no_cloth));
            let ghost before_done = done@;
            let ghost before_offsets = object_offsets@;
            let (written, offset) = SPrimObjectHeader::write_entry(
                object,
                writer,
                self.header_flags,
                output_version,
                *no_cloth,
            );
            done.push(written);
            match offset {
                Some(x) => object_offsets.push(x),
                None => {},
            }
            assert(os.take(i + 1).drop_last() =~= os.take(i as int));
            assert(done@.map_values(|o: Object| o@) =~= before_done.map_values(|o: Object| o@).push(written@));
            i = i + 1;
            assert(objects@ =~= orig.skip(i as int));
        }
        assert(os.take(n as int) =~= os);
        self.objects = done;
        let ghost b1 = writer.buf@;
        let object_table = low_u32(writer.position());
        write_u32_into(writer, object_offsets.as_slice());
        align(writer, 0x10);
        let main_offset = low_u32(writer.position());
        self.write_record(writer, object_offsets.len(), object_table);
        align(writer, 0x10);
        main_offset
    }

    /// Writes the main header record.
    fn write_record(&self, writer: &mut Writer, count: usize, object_table: u32)
        requires
            old(writer).pos == old(writer).buf@.len(),
        ensures
            final(writer).pos == final(writer).buf@.len(),
            final(writer).buf@ == old(writer).buf@ + object_header_record_bytes(self@, count as int, object_table),
    {
        let ghost b = writer.buf@;
        self.header.write(writer);
        writer.write_u32(self.header_flags);
        writer.write_u32(self.bone_rig_resource_index);
        writer.write_u32(low_u32(count));
        writer.write_u32(object_table);
        write_u32_into(writer, &self.bounding_box_min);
        write_u32_into(writer, &self.bounding_box_max);
        assert(writer.buf@ =~= b + object_header_record_bytes(self@, count as int, object_table));
    }
}

/// A PRIM file: its main header and the objects it lists.
pub struct Prim {
    pub header: SPrimObjectHeader,
}

impl View for Prim {
    type V = ObjectHeaderModel;

    open spec fn view(&self) -> ObjectHeaderModel {
        self.header@
    }
}

/// Reading a PRIM file in the layout of `v`: a `u32` at offset 0 gives the
/// offset of the main header, whose objects are then read.
pub open spec fn parse_prim(d: Seq<u8>, v: GameVersion) -> Result<ObjectHeaderModel, PrimError> {
    match take_u32(d, 0) {
        Err(e) => Err(e),
        Ok((main, _)) => match parse_object_header(d, main as int) {
            Err(e) => Err(e),
            Ok((h, _)) => match parse_objects(d, h, v, h.num_objects as nat) {
                Err(e) => Err(e),
                Ok(os) => Ok(ObjectHeaderModel { objects: os, ..h }),
            },
        },
    }
}

/// Writing a PRIM file in the layout of `v`: sixteen zero bytes, the main
/// header with its objects, then the offset of the main header record written
/// over the first four bytes. Gives the file and the header with its objects'
/// new draw destinations.
pub open spec fn write_prim(h: ObjectHeaderModel, v: GameVersion, no_cloth: bool) -> (Seq<u8>, ObjectHeaderModel) {
    let (b, main, h2) = write_object_header(spec_u128_to_le_bytes(0), h, v, no_cloth);
    (spec_u32_to_le_bytes(main) + b.subrange(4, b.len() as int), h2)
}

impl Prim {
    /// Reads a PRIM file in the layout of `input_version`.
    pub fn read(data: Vec<u8>, input_version: &GameVersion) -> (r: Result<Prim, PrimError>)
        ensures
            yields(r, parse_prim(data@, *input_version)),
    {
        let mut reader = Reader::new(data);
        let main_offset = reader.read_u32()?;
        reader.seek(main_offset as usize);
        let mut header = SPrimObjectHeader::read(&mut reader)?;
        assert(header@.objects == Seq::<ObjectModel>::empty());
        header.read_objects(&mut reader, input_version)?;
        assert(header@.objects =~= Seq::<ObjectModel>::empty() + parse_objects(
            data@,
            object_header_at(data@, main_offset as int),
            *input_version,
            header.num_objects as nat,
        )->Ok_0);
        Ok(Prim { header })
    }

    /// Writes the file in the layout of `output_version`, dropping cloth
    /// meshes where `no_cloth`. The objects keep their new draw destinations.
    pub fn write(&mut self, output_version: &GameVersion, no_cloth: bool) -> (r: Vec<u8>)
        requires
            header_writable(old(self)@, no_cloth),
        ensures
            (r@, final(self)@) == write_prim(old(self)@, *output_version, no_cloth),
    {
        let mut writer = Writer::new();
        writer.write_u128(0);
        proof {
            lemma_auto_spec_u128_to_from_le_bytes();
            assert(writer.buf@ =~= spec_u128_to_le_bytes(0));
        }
        let main_offset = self.header.write(&mut writer, output_version, &no_cloth);
        writer.patch_u32(0, main_offset);
        proof {
            let b = writer.buf@;
            assert(b.subrange(0, 0) + spec_u32_to_le_bytes(main_offset) =~= spec_u32_to_le_bytes(main_offset));
        }
        writer.buf
    }
}

} // verus!

//! The headers that open each mesh and sub-mesh object of a PRIM file.

use crate::io::{lemma_sub_concat, lemma_u32s_bytes, read_u32_array, reads_as, u16_at, u32_at, u32s_bytes, write_u32_into, Parsed, PrimError, Reader, Writer};
use crate::version::GameVersion;
use vstd::bytes::*;
use vstd::prelude::*;

verus! {

/// The header shared by every PRIM object.
#[derive(Clone, Copy, Debug, PartialEq, Eq, Structural)]
pub struct SPrimHeader {
    pub draw_destination: u8,
    pub pack_type: u8,
    pub prim_type: u16,
}

impl View for SPrimHeader {
    type V = SPrimHeader;

    open spec fn view(&self) -> SPrimHeader {
        *self
    }
}

/// The header stored at `p`: two bytes and a `u16`.
pub open spec fn header_at(d: Seq<u8>, p: int) -> SPrimHeader {
    SPrimHeader { draw_destination: d[p], pack_type: d[p + 1], prim_type: u16_at(d, p + 2) }
}

/// Reading a header from `p`.
pub open spec fn parse_header(d: Seq<u8>, p: int) -> Parsed<SPrimHeader> {
    if 0 <= p && p + 4 <= d.len() {
        Ok((header_at(d, p), p + 4))
    } else {
        Err(PrimError::UnexpectedEnd)
    }
}

/// The four bytes of a header.
pub open spec fn header_bytes(h: SPrimHeader) -> Seq<u8> {
    seq![h.draw_destination, h.pack_type] + spec_u16_to_le_bytes(h.prim_type)
}

impl SPrimHeader {
    /// Reads a header.
    pub fn read(reader: &mut Reader) -> (r: Result<SPrimHeader, PrimError>)
        ensures
            final(reader).data@ == old(reader).data@,
            reads_as(r, final(reader).pos, parse_header(old(reader).data@, old(reader).pos as int)),
    {
        let draw_destination = reader.read_u8()?;
        let pack_type = reader.read_u8()?;
        let prim_type = reader.read_u16()?;
        Ok(SPrimHeader { draw_destination, pack_type, prim_type })
    }

    /// Writes the header.
    pub fn write(&self, writer: &mut Writer)
        requires
            old(writer).pos == old(writer).buf@.len(),
        ensures
            final(writer).pos == final(writer).buf@.len(),
            final(writer).buf@ == old(writer).buf@ + header_bytes(*self),
    {
        writer.write_u8(self.draw_destination);
        writer.write_u8(self.pack_type);
        writer.write_u16(self.prim_type);
        assert(writer.buf@ =~= old(writer).buf@ + header_bytes(*self));
    }
}

/// HM2016 and WOA store a second colour in each object and a count of extra
/// indices in each sub-mesh; HMA and ALPHA do not.
pub open spec fn has_extended_fields(v: GameVersion) -> bool {
    v == GameVersion::Hm2016 || v == GameVersion::Woa
}

/// The fields of a mesh or sub-mesh object. The bounding box corners are
/// 32-bit floats, held as their bit patterns.
#[derive(Clone, Copy, Debug, PartialEq, Eq)]
pub struct SPrimObject {
    pub header: SPrimHeader,
    pub sub_type: u8,
    pub flags: u8,
    pub lod_mask: u8,
    pub variant_id: u8,
    pub bias: u8,
    pub offset: u8,
    pub material_id: u16,
    pub wire_color: u32,
    pub color1: Option<u32>,
    pub bounding_box_min: [u32; 3],
    pub bounding_box_max: [u32; 3],
}

impl View for SPrimObject {
    type V = SPrimObject;

    open spec fn view(&self) -> SPrimObject {
        *self
    }
}

/// The size of a stored object in the layout of `v`.
pub open spec fn object_size(v: GameVersion) -> int {
    if has_extended_fields(v) {
        44
    } else {
        40
    }
}

/// Three little-endian `u32` values from `p` on.
pub open spec fn u32x3_at(d: Seq<u8>, p: int) -> [u32; 3] {
    [u32_at(d, p), u32_at(d, p + 4), u32_at(d, p + 8)]
}

/// The object stored at `p` in the layout of `v`.
pub open spec fn object_at(d: Seq<u8>, p: int, v: GameVersion) -> SPrimObject {
    let c = if has_extended_fields(v) {
        4int
    } else {
        0
    };
    SPrimObject {
        header: header_at(d, p),
        sub_type: d[p + 4],
        flags: d[p + 5],
        lod_mask: d[p + 6],
        variant_id: d[p + 7],
        bias: d[p + 8],
        offset: d[p + 9],
        material_id: u16_at(d, p + 10),
        wire_color: u32_at(d, p + 12),
        color1: if has_extended_fields(v) {
            Some(u32_at(d, p + 16))
        } else {
            None
        },
        bounding_box_min: u32x3_at(d, p + 16 + c),
        bounding_box_max: u32x3_at(d, p + 28 + c),
    }
}

/// Reading an object from `p` in the layout of `v`.
pub open spec fn parse_object(d: Seq<u8>, p: int, v: GameVersion) -> Parsed<SPrimObject> {
    if 0 <= p && p + object_size(v) <= d.len() {
        Ok((object_at(d, p, v), p + object_size(v)))
    } else {
        Err(PrimError::UnexpectedEnd)
    }
}

/// The second colour that is written: the stored one, or 0 where there is none.
pub open spec fn color1_or_zero(c: Option<u32>) -> u32 {
    match c {
        Some(x) => x,
        None => 0,
    }
}

/// The bytes of an object in the layout of `v`.
pub open spec fn object_bytes(o: SPrimObject, v: GameVersion) -> Seq<u8> {
    header_bytes(o.header) + seq![o.sub_type, o.flags, o.lod_mask, o.variant_id, o.bias, o.offset]
        + spec_u16_to_le_bytes(o.material_id) + spec_u32_to_le_bytes(o.wire_color) + (
    if has_extended_fields(v) {
        spec_u32_to_le_bytes(color1_or_zero(o.color1))
    } else {
        Seq::empty()
    }) + u32s_bytes(o.bounding_box_min@) + u32s_bytes(o.bounding_box_max@)
}

/// Reads three `u32` values into an array.
fn read_u32x3(reader: &mut Reader) -> (r: Result<[u32; 3], PrimError>)
    ensures
        final(reader).data@ == old(reader).data@,
        match r {
            Ok(a) => old(reader).pos + 12 <= old(reader).data@.len() && a == u32x3_at(
                old(reader).data@,
                old(reader).pos as int,
            ) && final(reader).pos == old(reader).pos + 12,
            Err(e) => e == PrimError::UnexpectedEnd && old(reader).pos + 12 > old(reader).data@.len(),
        },
{
    let ghost d = reader.data@;
    let ghost p = reader.pos as int;
    let v = read_u32_array(reader, 3)?;
    assert(v@[1] == u32_at(d, p + 4));
    assert(v@[2] == u32_at(d, p + 8));
    Ok([v[0], v[1], v[2]])
}

impl SPrimObject {
    /// Reads an object in the layout of `input_version`.
    pub fn read(reader: &mut Reader, input_version: &GameVersion) -> (r: Result<SPrimObject, PrimError>)
        ensures
            final(reader).data@ == old(reader).data@,
            reads_as(r, final(reader).pos, parse_object(old(reader).data@, old(reader).pos as int, *input_version)),
    {
        let header = SPrimHeader::read(reader)?;
        let sub_type = reader.read_u8()?;
        let flags = reader.read_u8()?;
        let lod_mask = reader.read_u8()?;
        let variant_id = reader.read_u8()?;
        let bias = reader.read_u8()?;
        let offset = reader.read_u8()?;
        let material_id = reader.read_u16()?;
        let wire_color = reader.read_u32()?;
        let color1 = match input_version {
            GameVersion::Hma | GameVersion::Alpha => None,
            GameVersion::Hm2016 | GameVersion::Woa => Some(reader.read_u32()?),
        };
        let bounding_box_min = read_u32x3(reader)?;
        let bounding_box_max = read_u32x3(reader)?;
        Ok(SPrimObject {
            header,
            sub_type,
            flags,
            lod_mask,
            variant_id,
            bias,
            offset,
            material_id,
            wire_color,
            color1,
            bounding_box_min,
            bounding_box_max,
        })
    }

    /// Writes the object in the layout of `output_version`; HMA and ALPHA
    /// drop the second colour, HM2016 and WOA write it as 0 where there is none.
    pub fn write(&self, writer: &mut Writer, output_version: &GameVersion)
        requires
            old(writer).pos == old(writer).buf@.len(),
        ensures
            final(writer).pos == final(writer).buf@.len(),
            final(writer).buf@ == old(writer).buf@ + object_bytes(*self, *output_version),
    {
        let ghost start = writer.buf@;
        self.header.write(writer);
        writer.write_u8(self.sub_type);
        writer.write_u8(self.flags);
        writer.write_u8(self.lod_mask);
        writer.write_u8(self.variant_id);
        writer.write_u8(self.bias);
        writer.write_u8(self.offset);
        writer.write_u16(self.material_id);
        writer.write_u32(self.wire_color);
        let ghost mid = writer.buf@;
        let color1 = match self.color1 {
            Some(c) => c,
            None => 0,
        };
        match output_version {
            GameVersion::Hma | GameVersion::Alpha => (),
            GameVersion::Hm2016 | GameVersion::Woa => writer.write_u32(color1),
        }
        let ghost mid2 = writer.buf@;
        write_u32_into(writer, &self.bounding_box_min);
        write_u32_into(writer, &self.bounding_box_max);
        assert(mid =~= start + header_bytes(self.header) + seq![
            self.sub_type,
            self.flags,
            self.lod_mask,
            self.variant_id,
            self.bias,
            self.offset,
        ] + spec_u16_to_le_bytes(self.material_id) + spec_u32_to_le_bytes(self.wire_color));
        assert(writer.buf@ =~= start + object_bytes(*self, *output_version));
    }
}

/// Reading back the bytes of a header gives the header.
pub proof fn lemma_header_roundtrip(pre: Seq<u8>, h: SPrimHeader, post: Seq<u8>)
    ensures
        parse_header(pre + header_bytes(h) + post, pre.len() as int) == Ok::<(SPrimHeader, int), PrimError>(
            (h, pre.len() + 4int),
        ),
{
    lemma_auto_spec_u16_to_from_le_bytes();
    let b = header_bytes(h);
    let d = pre + b + post;
    let p = pre.len() as int;
    lemma_sub_concat(pre, b, post, 2, 4);
    assert(b.subrange(2, 4) =~= spec_u16_to_le_bytes(h.prim_type));
    assert(d[p] == b[0]);
    assert(d[p + 1] == b[1]);
    assert(header_at(d, p) == h);
}

/// The object that reading in the layout of `v` gives back of `o` written
/// in that layout: HMA and ALPHA hold no second colour; HM2016 and WOA hold
/// the one written, 0 where there was none.
pub open spec fn object_as_stored(o: SPrimObject, v: GameVersion) -> SPrimObject {
    SPrimObject {
        color1: if has_extended_fields(v) {
            Some(color1_or_zero(o.color1))
        } else {
            None
        },
        ..o
    }
}

/// Three `u32` values read back from their bytes.
pub proof fn lemma_u32x3_back(pre: Seq<u8>, x: Seq<u8>, post: Seq<u8>, a: int, v: [u32; 3])
    requires
        0 <= a,
        a + 12 <= x.len(),
        x.subrange(a, a + 12) == u32s_bytes(v@),
    ensures
        u32x3_at(pre + x + post, pre.len() + a) == v,
{
    lemma_auto_spec_u32_to_from_le_bytes();
    lemma_u32s_bytes(v@);
    let d = pre + x + post;
    let p = pre.len() + a;
    assert forall|i: int| 0 <= i < 3 implies u32_at(d, p + 4 * i) == v@[i] by {
        lemma_sub_concat(pre, x, post, a + 4 * i, a + 4 * i + 4);
        assert(x.subrange(a + 4 * i, a + 4 * i + 4) =~= u32s_bytes(v@).subrange(4 * i, 4 * i + 4));
    }
    assert(u32_at(d, p + 4 * 1) == v@[1]);
    assert(u32_at(d, p + 4 * 2) == v@[2]);
    assert(u32x3_at(d, p)@ =~= v@);
}

/// Reading back the bytes of an object written in the layout of `v` gives
/// the object as that layout stores it.
pub proof fn lemma_object_roundtrip(pre: Seq<u8>, o: SPrimObject, v: GameVersion, post: Seq<u8>)
    ensures
        object_bytes(o, v).len() == object_size(v),
        parse_object(pre + object_bytes(o, v) + post, pre.len() as int, v) == Ok::<(SPrimObject, int), PrimError>(
            (object_as_stored(o, v), pre.len() + object_size(v)),
        ),
{
    lemma_auto_spec_u16_to_from_le_bytes();
    lemma_auto_spec_u32_to_from_le_bytes();
    lemma_u32s_bytes(o.bounding_box_min@);
    lemma_u32s_bytes(o.bounding_box_max@);
    let b = object_bytes(o, v);
    let d = pre + b + post;
    let p = pre.len() as int;
    let c: int = if has_extended_fields(v) {
        4
    } else {
        0
    };
    let cb = if has_extended_fields(v) {
        spec_u32_to_le_bytes(color1_or_zero(o.color1))
    } else {
        Seq::empty()
    };
    assert(b.len() == object_size(v));
    lemma_header_roundtrip(pre, o.header, b.subrange(4, b.len() as int) + post);
    assert(pre + header_bytes(o.header) + (b.subrange(4, b.len() as int) + post) =~= d);
    assert(d[p + 4] == o.sub_type);
    assert(d[p + 5] == o.flags);
    assert(d[p + 6] == o.lod_mask);
    assert(d[p + 7] == o.variant_id);
    assert(d[p + 8] == o.bias);
    assert(d[p + 9] == o.offset);
    lemma_sub_concat(pre, b, post, 10, 12);
    assert(b.subrange(10, 12) =~= spec_u16_to_le_bytes(o.material_id));
    lemma_sub_concat(pre, b, post, 12, 16);
    assert(b.subrange(12, 16) =~= spec_u32_to_le_bytes(o.wire_color));
    if has_extended_fields(v) {
        lemma_sub_concat(pre, b, post, 16, 20);
        assert(b.subrange(16, 20) =~= cb);
    }
    assert(b.subrange(16 + c, 28 + c) =~= u32s_bytes(o.bounding_box_min@));
    assert(b.subrange(28 + c, 40 + c) =~= u32s_bytes(o.bounding_box_max@));
    lemma_u32x3_back(pre, b, post, 16 + c, o.bounding_box_min);
    lemma_u32x3_back(pre, b, post, 28 + c, o.bounding_box_max);
    assert(object_at(d, p, v) == object_as_stored(o, v));
}

} // verus!

//! A reader and a writer over an in-memory byte buffer, and the array
//! helpers that the PRIM reader and writer are built from.

use crate::le::{le_bytes_u128, le_bytes_u16, le_bytes_u32, le_read_u16, le_read_u32};
use vstd::arithmetic::div_mod::*;
use vstd::bytes::*;
use vstd::prelude::*;

verus! {

/// Why a PRIM file could not be read.
#[derive(Clone, Copy, Debug, PartialEq, Eq, Structural)]
pub enum PrimError {
    /// A value runs past the end of the file.
    UnexpectedEnd,
    /// A count computed from the file does not fit its integer type.
    Overflow,
}

/// What a read from position `p` gives: the value and the position after it,
/// or the error.
pub type Parsed<T> = Result<(T, int), PrimError>;

/// `r` is what an executable read returned, `pos` the reader's position
/// after it, and `s` what the format says the read gives.
pub open spec fn reads_as<T: View>(r: Result<T, PrimError>, pos: usize, s: Parsed<T::V>) -> bool {
    match s {
        Ok((v, q)) => r matches Ok(x) && x@ == v && pos == q,
        Err(e) => r == Err::<T, PrimError>(e),
    }
}

/// The byte at `p`.
pub open spec fn take_u8(d: Seq<u8>, p: int) -> Parsed<u8> {
    if 0 <= p && p + 1 <= d.len() {
        Ok((d[p], p + 1))
    } else {
        Err(PrimError::UnexpectedEnd)
    }
}

/// The little-endian `u16` whose bytes start at `p`.
pub open spec fn u16_at(d: Seq<u8>, p: int) -> u16 {
    spec_u16_from_le_bytes(d.subrange(p, p + 2))
}

/// The little-endian `u32` whose bytes start at `p`.
pub open spec fn u32_at(d: Seq<u8>, p: int) -> u32 {
    spec_u32_from_le_bytes(d.subrange(p, p + 4))
}

/// The little-endian `u16` at `p`.
pub open spec fn take_u16(d: Seq<u8>, p: int) -> Parsed<u16> {
    if 0 <= p && p + 2 <= d.len() {
        Ok((u16_at(d, p), p + 2))
    } else {
        Err(PrimError::UnexpectedEnd)
    }
}

/// The little-endian `u32` at `p`.
pub open spec fn take_u32(d: Seq<u8>, p: int) -> Parsed<u32> {
    if 0 <= p && p + 4 <= d.len() {
        Ok((u32_at(d, p), p + 4))
    } else {
        Err(PrimError::UnexpectedEnd)
    }
}

/// The `n` bytes from `p` on. Reading no bytes succeeds at any position.
pub open spec fn take_bytes(d: Seq<u8>, p: int, n: int) -> Parsed<Seq<u8>> {
    if n == 0 {
        Ok((Seq::empty(), p))
    } else if 0 <= p && 0 <= n && p + n <= d.len() {
        Ok((d.subrange(p, p + n), p + n))
    } else {
        Err(PrimError::UnexpectedEnd)
    }
}

/// The `n` little-endian `u16` values from `p` on.
pub open spec fn take_u16s(d: Seq<u8>, p: int, n: int) -> Parsed<Seq<u16>> {
    if n == 0 {
        Ok((Seq::empty(), p))
    } else if 0 <= p && 0 <= n && p + 2 * n <= d.len() {
        Ok((Seq::new(n as nat, |i: int| u16_at(d, p + 2 * i)), p + 2 * n))
    } else {
        Err(PrimError::UnexpectedEnd)
    }
}

/// The `n` little-endian `u32` values from `p` on.
pub open spec fn take_u32s(d: Seq<u8>, p: int, n: int) -> Parsed<Seq<u32>> {
    if n == 0 {
        Ok((Seq::empty(), p))
    } else if 0 <= p && 0 <= n && p + 4 * n <= d.len() {
        Ok((Seq::new(n as nat, |i: int| u32_at(d, p + 4 * i)), p + 4 * n))
    } else {
        Err(PrimError::UnexpectedEnd)
    }
}

/// The bytes of a sequence of `u16` values, each little-endian.
pub open spec fn u16s_bytes(s: Seq<u16>) -> Seq<u8> {
    s.map_values(|x: u16| spec_u16_to_le_bytes(x)).flatten_alt()
}

/// The bytes of a sequence of `u32` values, each little-endian.
pub open spec fn u32s_bytes(s: Seq<u32>) -> Seq<u8> {
    s.map_values(|x: u32| spec_u32_to_le_bytes(x)).flatten_alt()
}

/// `n` zero bytes.
pub open spec fn zeros(n: int) -> Seq<u8> {
    Seq::new(n as nat, |i: int| 0u8)
}

/// `b` padded with zero bytes up to the next multiple of `alignment`.
pub open spec fn aligned(b: Seq<u8>, alignment: int) -> Seq<u8> {
    b + zeros(align_padding(b.len() as int, alignment))
}

/// How many zero bytes `align` appends to a buffer of `len` bytes.
pub open spec fn align_padding(len: int, alignment: int) -> int {
    (alignment - len % alignment) % alignment
}

/// Aligning what is already aligned adds nothing.
pub proof fn lemma_aligned_twice(b: Seq<u8>, alignment: int)
    requires
        0 < alignment,
    ensures
        aligned(aligned(b, alignment), alignment) == aligned(b, alignment),
{
    lemma_align_padding(b.len() as int, alignment);
    let a = aligned(b, alignment);
    let l = a.len() as int;
    assert(l % alignment == 0);
    assert((alignment - l % alignment) % alignment == 0) by (nonlinear_arith)
        requires
            l % alignment == 0,
            alignment > 0,
    ;
    assert(align_padding(l, alignment) == 0);
    assert(zeros(0) =~= Seq::<u8>::empty());
    assert(aligned(a, alignment) =~= a);
}

/// Concatenating chunks of one size `k` puts chunk `i` at bytes `i * k`
/// to `i * k + k`.
pub proof fn lemma_fixed_chunks(s: Seq<Seq<u8>>, k: int)
    requires
        0 <= k,
        forall|i: int| 0 <= i < s.len() ==> (#[trigger] s[i]).len() == k,
    ensures
        s.flatten_alt().len() == s.len() * k,
        forall|i: int|
            0 <= i < s.len() ==> s.flatten_alt().subrange(i * k, i * k + k) == #[trigger] s[i],
    decreases s.len(),
{
    if s.len() > 0 {
        let t = s.drop_last();
        lemma_fixed_chunks(t, k);
        let f = s.flatten_alt();
        let n = s.len() - 1;
        assert(f == t.flatten_alt() + s.last());
        assert(s.len() * k == n * k + k) by (nonlinear_arith)
            requires
                n == s.len() - 1,
        ;
        assert forall|i: int| 0 <= i < s.len() implies f.subrange(i * k, i * k + k) == #[trigger] s[i] by {
            if i < n {
                assert(i * k + k <= n * k) by (nonlinear_arith)
                    requires
                        i < n,
                        0 <= k,
                ;
                assert(0 <= i * k) by (nonlinear_arith)
                    requires
                        0 <= i,
                        0 <= k,
                ;
                assert(t[i] == s[i]);
                assert(f.subrange(i * k, i * k + k) =~= t.flatten_alt().subrange(i * k, i * k + k));
            } else {
                assert(f.subrange(i * k, i * k + k) =~= s.last());
            }
        }
    }
}

/// Appending one more chunk to a prefix of chunks.
pub proof fn lemma_chunks_step(s: Seq<Seq<u8>>, i: int)
    requires
        0 <= i < s.len(),
    ensures
        s.take(i + 1).flatten_alt() == s.take(i).flatten_alt() + s[i],
{
    assert(s.take(i + 1).drop_last() =~= s.take(i));
}

/// The padding of `align` is less than the alignment, makes the length a
/// multiple of it, and is the least such count.
pub proof fn lemma_align_padding(len: int, alignment: int)
    requires
        0 <= len,
        0 < alignment,
    ensures
        0 <= align_padding(len, alignment) < alignment,
        (len + align_padding(len, alignment)) % alignment == 0,
        forall|k: int| 0 <= k < align_padding(len, alignment) ==> #[trigger] ((len + k) % alignment) != 0,
{
    let q = len / alignment;
    let r = len % alignment;
    lemma_fundamental_div_mod(len, alignment);
    assert(0 <= r < alignment);
    let pad = align_padding(len, alignment);
    if r == 0 {
        lemma_mod_self_0(alignment);
        assert(pad == 0);
        assert(len == q * alignment) by (nonlinear_arith)
            requires
                len == alignment * q + r,
                r == 0,
        ;
        lemma_fundamental_div_mod_converse_mod(len + pad, alignment, q, 0);
    } else {
        lemma_small_mod((alignment - r) as nat, alignment as nat);
        assert(pad == alignment - r);
        assert(len + pad == (q + 1) * alignment) by (nonlinear_arith)
            requires
                len == alignment * q + r,
                pad == alignment - r,
        ;
        lemma_fundamental_div_mod_converse_mod(len + pad, alignment, q + 1, 0);
        assert forall|k: int| 0 <= k < pad implies #[trigger] ((len + k) % alignment) != 0 by {
            assert(len + k == q * alignment + (r + k)) by (nonlinear_arith)
                requires
                    len == alignment * q + r,
            ;
            lemma_fundamental_div_mod_converse_mod(len + k, alignment, q, r + k);
        }
    }
}

/// A piece of a buffer that lies inside its middle part.
pub proof fn lemma_sub_concat(pre: Seq<u8>, x: Seq<u8>, post: Seq<u8>, a: int, b: int)
    requires
        0 <= a <= b <= x.len(),
    ensures
        (pre + x + post).subrange(pre.len() + a, pre.len() + b) == x.subrange(a, b),
{
    assert((pre + x + post).subrange(pre.len() + a, pre.len() + b) =~= x.subrange(a, b));
}

/// Four consecutive parts written after `pre` and padded to 16 lie at their
/// places in the result, whatever follows.
pub proof fn lemma_four_parts(pre: Seq<u8>, a: Seq<u8>, b: Seq<u8>, c: Seq<u8>, e: Seq<u8>, post: Seq<u8>)
    ensures
        ({
            let d = aligned(pre + (a + b + c + e), 16) + post;
            let p = pre.len() as int;
            let p1 = p + a.len();
            let p2 = p1 + b.len();
            let p3 = p2 + c.len();
            let p4 = p3 + e.len();
            &&& p4 <= d.len()
            &&& d.subrange(p, p1) == a
            &&& d.subrange(p1, p2) == b
            &&& d.subrange(p2, p3) == c
            &&& d.subrange(p3, p4) == e
        }),
{
    let x = a + b + c + e;
    let d = aligned(pre + x, 16) + post;
    let p = pre.len() as int;
    assert(d.subrange(p, p + a.len()) =~= a);
    assert(d.subrange(p + a.len(), p + a.len() + b.len()) =~= b);
    assert(d.subrange(p + a.len() + b.len(), p + a.len() + b.len() + c.len()) =~= c);
    assert(d.subrange(p + a.len() + b.len() + c.len(), p + a.len() + b.len() + c.len() + e.len()) =~= e);
}

/// The bytes of `u16` values: two per value, in order.
pub proof fn lemma_u16s_bytes(s: Seq<u16>)
    ensures
        u16s_bytes(s).len() == 2 * s.len(),
        forall|i: int|
            0 <= i < s.len() ==> #[trigger] u16s_bytes(s).subrange(2 * i, 2 * i + 2)
                == spec_u16_to_le_bytes(s[i]),
{
    lemma_auto_spec_u16_to_from_le_bytes();
    let c = s.map_values(|x: u16| spec_u16_to_le_bytes(x));
    assert forall|i: int| 0 <= i < c.len() implies (#[trigger] c[i]).len() == 2 by {
        assert(c[i] == spec_u16_to_le_bytes(s[i]));
    }
    lemma_fixed_chunks(c, 2);
    assert forall|i: int| 0 <= i < s.len() implies #[trigger] u16s_bytes(s).subrange(2 * i, 2 * i + 2)
        == spec_u16_to_le_bytes(s[i]) by {
        assert(i * 2 == 2 * i);
        assert(c[i] == spec_u16_to_le_bytes(s[i]));
    }
}

/// The bytes of `u32` values: four per value, in order.
pub proof fn lemma_u32s_bytes(s: Seq<u32>)
    ensures
        u32s_bytes(s).len() == 4 * s.len(),
        forall|i: int|
            0 <= i < s.len() ==> #[trigger] u32s_bytes(s).subrange(4 * i, 4 * i + 4)
                == spec_u32_to_le_bytes(s[i]),
{
    lemma_auto_spec_u32_to_from_le_bytes();
    let c = s.map_values(|x: u32| spec_u32_to_le_bytes(x));
    assert forall|i: int| 0 <= i < c.len() implies (#[trigger] c[i]).len() == 4 by {
        assert(c[i] == spec_u32_to_le_bytes(s[i]));
    }
    lemma_fixed_chunks(c, 4);
    assert forall|i: int| 0 <= i < s.len() implies #[trigger] u32s_bytes(s).subrange(4 * i, 4 * i + 4)
        == spec_u32_to_le_bytes(s[i]) by {
        assert(i * 4 == 4 * i);
        assert(c[i] == spec_u32_to_le_bytes(s[i]));
    }
}

/// Reading back the bytes of `u16` values gives the values.
pub proof fn lemma_u16s_roundtrip(pre: Seq<u8>, s: Seq<u16>, post: Seq<u8>)
    ensures
        take_u16s(pre + u16s_bytes(s) + post, pre.len() as int, s.len() as int) == Ok::<
            (Seq<u16>, int),
            PrimError,
        >((s, pre.len() + 2 * s.len() as int)),
{
    lemma_u16s_bytes(s);
    lemma_auto_spec_u16_to_from_le_bytes();
    let d = pre + u16s_bytes(s) + post;
    let p = pre.len() as int;
    if s.len() > 0 {
        let r = Seq::new(s.len(), |i: int| u16_at(d, p + 2 * i));
        assert forall|i: int| 0 <= i < s.len() implies r[i] == s[i] by {
            lemma_sub_concat(pre, u16s_bytes(s), post, 2 * i, 2 * i + 2);
            assert(u16s_bytes(s).subrange(2 * i, 2 * i + 2) == spec_u16_to_le_bytes(s[i]));
        }
        assert(r =~= s);
    } else {
        assert(s =~= Seq::<u16>::empty());
    }
}

/// Reading back the bytes of `u32` values gives the values.
pub proof fn lemma_u32s_roundtrip(pre: Seq<u8>, s: Seq<u32>, post: Seq<u8>)
    ensures
        take_u32s(pre + u32s_bytes(s) + post, pre.len() as int, s.len() as int) == Ok::<
            (Seq<u32>, int),
            PrimError,
        >((s, pre.len() + 4 * s.len() as int)),
{
    lemma_u32s_bytes(s);
    lemma_auto_spec_u32_to_from_le_bytes();
    let d = pre + u32s_bytes(s) + post;
    let p = pre.len() as int;
    if s.len() > 0 {
        let r = Seq::new(s.len(), |i: int| u32_at(d, p + 4 * i));
        assert forall|i: int| 0 <= i < s.len() implies r[i] == s[i] by {
            lemma_sub_concat(pre, u32s_bytes(s), post, 4 * i, 4 * i + 4);
            assert(u32s_bytes(s).subrange(4 * i, 4 * i + 4) == spec_u32_to_le_bytes(s[i]));
        }
        assert(r =~= s);
    } else {
        assert(s =~= Seq::<u32>::empty());
    }
}

/// Reading back bytes gives the bytes.
pub proof fn lemma_bytes_roundtrip(pre: Seq<u8>, s: Seq<u8>, post: Seq<u8>)
    ensures
        take_bytes(pre + s + post, pre.len() as int, s.len() as int) == Ok::<(Seq<u8>, int), PrimError>(
            (s, pre.len() + s.len() as int),
        ),
{
    if s.len() > 0 {
        lemma_sub_concat(pre, s, post, 0, s.len() as int);
        assert(s.subrange(0, s.len() as int) =~= s);
    } else {
        assert(s =~= Seq::<u8>::empty());
    }
}

/// A byte buffer read from a position that moves forward with each read.
pub struct Reader {
    pub data: Vec<u8>,
    pub pos: usize,
}

impl Reader {
    /// A reader at the start of `data`.
    pub fn new(data: Vec<u8>) -> (r: Reader)
        ensures
            r.data@ == data@,
            r.pos == 0,
    {
        Reader { data, pos: 0 }
    }

    /// The current position.
    pub fn position(&self) -> (p: usize)
        ensures
            p == self.pos,
    {
        self.pos
    }

    /// Moves to `pos`, which may lie past the end.
    pub fn seek(&mut self, pos: usize)
        ensures
            final(self).data@ == old(self).data@,
            final(self).pos == pos,
    {
        self.pos = pos;
    }

    /// Reads one byte.
    pub fn read_u8(&mut self) -> (r: Result<u8, PrimError>)
        ensures
            final(self).data@ == old(self).data@,
            reads_as(r, final(self).pos, take_u8(old(self).data@, old(self).pos as int)),
    {
        if self.pos < self.data.len() {
            let v = self.data[self.pos];
            self.pos = self.pos + 1;
            Ok(v)
        } else {
            Err(PrimError::UnexpectedEnd)
        }
    }

    /// Reads a little-endian `u16`.
    pub fn read_u16(&mut self) -> (r: Result<u16, PrimError>)
        ensures
            final(self).data@ == old(self).data@,
            reads_as(r, final(self).pos, take_u16(old(self).data@, old(self).pos as int)),
    {
        if self.pos <= self.data.len() && self.data.len() - self.pos >= 2 {
            let v = le_read_u16(self.data.as_slice(), self.pos);
            self.pos = self.pos + 2;
            Ok(v)
        } else {
            Err(PrimError::UnexpectedEnd)
        }
    }

    /// Reads a little-endian `u32`.
    pub fn read_u32(&mut self) -> (r: Result<u32, PrimError>)
        ensures
            final(self).data@ == old(self).data@,
            reads_as(r, final(self).pos, take_u32(old(self).data@, old(self).pos as int)),
    {
        if self.pos <= self.data.len() && self.data.len() - self.pos >= 4 {
            let v = le_read_u32(self.data.as_slice(), self.pos);
            self.pos = self.pos + 4;
            Ok(v)
        } else {
            Err(PrimError::UnexpectedEnd)
        }
    }
}

/// `b` with `x` written from position `p` on: the bytes of `x` replace
/// those there, and the buffer grows where `x` runs past its end.
pub open spec fn overwritten(b: Seq<u8>, p: int, x: Seq<u8>) -> Seq<u8> {
    if p + x.len() <= b.len() {
        b.subrange(0, p) + x + b.subrange(p + x.len(), b.len() as int)
    } else {
        b.subrange(0, p) + x
    }
}

/// Writing at the end appends.
pub proof fn lemma_overwritten_at_end(b: Seq<u8>, x: Seq<u8>)
    ensures
        overwritten(b, b.len() as int, x) == b + x,
{
    if x.len() == 0 {
        assert(b.subrange(0, b.len() as int) + x + b.subrange(b.len() as int, b.len() as int) =~= b + x);
    } else {
        assert(b.subrange(0, b.len() as int) + x =~= b + x);
    }
}

/// Writing `x` then `y` right after it is writing `x + y`.
pub proof fn lemma_overwritten_twice(b: Seq<u8>, p: int, x: Seq<u8>, y: Seq<u8>)
    requires
        0 <= p <= b.len(),
    ensures
        overwritten(overwritten(b, p, x), p + x.len(), y) == overwritten(b, p, x + y),
{
    let b1 = overwritten(b, p, x);
    assert(overwritten(b1, p + x.len(), y) =~= overwritten(b, p, x + y));
}

/// What was written at `p` is there to be read back, and the bytes before
/// `p` are left as they were.
pub proof fn lemma_overwritten_reads_back(b: Seq<u8>, p: int, x: Seq<u8>)
    requires
        0 <= p <= b.len(),
    ensures
        overwritten(b, p, x).subrange(p, p + x.len()) == x,
        overwritten(b, p, x).subrange(0, p) == b.subrange(0, p),
        overwritten(b, p, x).len() == if p + x.len() <= b.len() {
            b.len() as int
        } else {
            p + x.len()
        },
{
    assert(overwritten(b, p, x).subrange(p, p + x.len()) =~= x);
    assert(overwritten(b, p, x).subrange(0, p) =~= b.subrange(0, p));
}

/// Writing at `p` the bytes that are already there changes nothing.
pub proof fn lemma_overwritten_same(b: Seq<u8>, p: int, n: int)
    requires
        0 <= p,
        0 <= n,
        p + n <= b.len(),
    ensures
        overwritten(b, p, b.subrange(p, p + n)) == b,
{
    assert(overwritten(b, p, b.subrange(p, p + n)) =~= b);
}

/// A byte buffer with a position, written from that position on.
pub struct Writer {
    pub buf: Vec<u8>,
    pub pos: usize,
}

impl Writer {
    /// An empty writer.
    pub fn new() -> (w: Writer)
        ensures
            w.buf@ == Seq::<u8>::empty(),
            w.pos == 0,
    {
        Writer { buf: Vec::new(), pos: 0 }
    }

    /// The current position.
    pub fn position(&self) -> (p: usize)
        ensures
            p == self.pos,
    {
        self.pos
    }

    /// Moves to `pos`, within what was written.
    pub fn set_position(&mut self, pos: usize)
        requires
            pos <= old(self).buf@.len(),
        ensures
            final(self).buf@ == old(self).buf@,
            final(self).pos == pos,
    {
        self.pos = pos;
    }

    /// Writes `bytes` from the position on, over what is there and past the
    /// end, and moves past them.
    pub fn write_bytes(&mut self, bytes: &[u8])
        requires
            old(self).pos <= old(self).buf@.len(),
        ensures
            final(self).buf@ == overwritten(old(self).buf@, old(self).pos as int, bytes@),
            final(self).pos == old(self).pos + bytes@.len(),
            final(self).pos <= final(self).buf@.len(),
            old(self).pos == old(self).buf@.len() ==> final(self).buf@ == old(self).buf@ + bytes@
                && final(self).pos == final(self).buf@.len(),
    {
        let ghost start = self.buf@;
        let ghost p0 = self.pos as int;
        let mut i: usize = 0;
        assert(overwritten(start, p0, bytes@.take(0)) =~= start);
        while i < bytes.len()
            invariant
                i <= bytes@.len(),
                0 <= p0 <= start.len(),
                self.pos == p0 + i,
                self.pos <= self.buf@.len(),
                self.buf@ == overwritten(start, p0, bytes@.take(i as int)),
            decreases bytes@.len() - i,
        {
            let ghost before = self.buf@;
            if self.pos < self.buf.len() {
                self.buf.set(self.pos, bytes[i]);
            } else {
                self.buf.push(bytes[i]);
            }
            let len = self.buf.len();
            assert(self.pos < len);
            self.pos = self.pos + 1;
            i = i + 1;
            assert(self.buf@ =~= overwritten(start, p0, bytes@.take(i as int)));
        }
        assert(bytes@.take(i as int) =~= bytes@);
        proof {
            lemma_overwritten_at_end(start, bytes@);
        }
    }

    /// Writes one byte.
    pub fn write_u8(&mut self, v: u8)
        requires
            old(self).pos <= old(self).buf@.len(),
        ensures
            final(self).buf@ == overwritten(old(self).buf@, old(self).pos as int, seq![v]),
            final(self).pos == old(self).pos + 1,
            final(self).pos <= final(self).buf@.len(),
            old(self).pos == old(self).buf@.len() ==> final(self).buf@ == old(self).buf@.push(v)
                && final(self).pos == final(self).buf@.len(),
    {
        let b = [v];
        assert(b@ =~= seq![v]);
        self.write_bytes(&b);
        assert(old(self).buf@ + seq![v] =~= old(self).buf@.push(v));
    }

    /// Writes the little-endian bytes of `v`.
    pub fn write_u16(&mut self, v: u16)
        requires
            old(self).pos <= old(self).buf@.len(),
        ensures
            final(self).buf@ == overwritten(old(self).buf@, old(self).pos as int, spec_u16_to_le_bytes(v)),
            final(self).pos == old(self).pos + 2,
            final(self).pos <= final(self).buf@.len(),
            old(self).pos == old(self).buf@.len() ==> final(self).buf@ == old(self).buf@ + spec_u16_to_le_bytes(v)
                && final(self).pos == final(self).buf@.len(),
    {
        proof {
            lemma_auto_spec_u16_to_from_le_bytes();
        }
        let b = le_bytes_u16(v);
        self.write_bytes(&b);
    }

    /// Writes the little-endian bytes of `v`.
    pub fn write_u32(&mut self, v: u32)
        requires
            old(self).pos <= old(self).buf@.len(),
        ensures
            final(self).buf@ == overwritten(old(self).buf@, old(self).pos as int, spec_u32_to_le_bytes(v)),
            final(self).pos == old(self).pos + 4,
            final(self).pos <= final(self).buf@.len(),
            old(self).pos == old(self).buf@.len() ==> final(self).buf@ == old(self).buf@ + spec_u32_to_le_bytes(v)
                && final(self).pos == final(self).buf@.len(),
    {
        proof {
            lemma_auto_spec_u32_to_from_le_bytes();
        }
        let b = le_bytes_u32(v);
        self.write_bytes(&b);
    }

    /// Writes the little-endian bytes of `v`.
    pub fn write_u128(&mut self, v: u128)
        requires
            old(self).pos <= old(self).buf@.len(),
        ensures
            final(self).buf@ == overwritten(old(self).buf@, old(self).pos as int, spec_u128_to_le_bytes(v)),
            final(self).pos == old(self).pos + 16,
            final(self).pos <= final(self).buf@.len(),
            old(self).pos == old(self).buf@.len() ==> final(self).buf@ == old(self).buf@ + spec_u128_to_le_bytes(v)
                && final(self).pos == final(self).buf@.len(),
    {
        proof {
            lemma_auto_spec_u128_to_from_le_bytes();
        }
        let b = le_bytes_u128(v);
        self.write_bytes(&b);
    }

    /// Overwrites the four bytes at `at` with the little-endian bytes of `v`.
    pub fn patch_u32(&mut self, at: usize, v: u32)
        requires
            at + 4 <= old(self).buf@.len(),
        ensures
            final(self).buf@ == old(self).buf@.subrange(0, at as int) + spec_u32_to_le_bytes(v)
                + old(self).buf@.subrange(at + 4, old(self).buf@.len() as int),
            final(self).pos == old(self).pos,
    {
        let ghost start = self.buf@;
        let ghost p0 = self.pos;
        let len = self.buf.len();
        let b = le_bytes_u32(v);
        proof {
            lemma_auto_spec_u32_to_from_le_bytes();
        }
        let mut i: usize = 0;
        while i < 4
            invariant
                i <= 4,
                self.pos == p0,
                at + 4 <= start.len(),
                start.len() == len,
                b@ == spec_u32_to_le_bytes(v),
                b@.len() == 4,
                self.buf@.len() == start.len(),
                forall|j: int| 0 <= j < start.len() ==> #[trigger] self.buf@[j] == if at <= j < at + i {
                    b@[j - at]
                } else {
                    start[j]
                },
            decreases 4 - i,
        {
            self.buf.set(at + i, b[i]);
            i = i + 1;
        }
        assert(self.buf@ =~= start.subrange(0, at as int) + spec_u32_to_le_bytes(v) + start.subrange(
            at + 4,
            start.len() as int,
        ));
    }
}

/// Writes zero bytes from the writer's position up to the next multiple of
/// `alignment`, over what is there and past the end.
pub fn align(writer: &mut Writer, alignment: u8)
    requires
        alignment > 0,
        old(writer).pos <= old(writer).buf@.len(),
    ensures
        final(writer).buf@ == overwritten(
            old(writer).buf@,
            old(writer).pos as int,
            zeros(align_padding(old(writer).pos as int, alignment as int)),
        ),
        final(writer).pos == old(writer).pos + align_padding(old(writer).pos as int, alignment as int),
        (final(writer).pos as int) % (alignment as int) == 0,
        final(writer).pos <= final(writer).buf@.len(),
        old(writer).pos == old(writer).buf@.len() ==> final(writer).buf@ == aligned(
            old(writer).buf@,
            alignment as int,
        ) && final(writer).pos == final(writer).buf@.len(),
{
    let ghost start = writer.buf@;
    let ghost p0 = writer.pos as int;
    proof {
        lemma_align_padding(p0, alignment as int);
    }
    let rem = (writer.position() % (alignment as usize)) as u8;
    let pad: u8 = (alignment - rem) % alignment;
    assert(pad == align_padding(p0, alignment as int));
    assert(overwritten(start, p0, zeros(0)) =~= start);
    let mut i: u8 = 0;
    while i < pad
        invariant
            i <= pad,
            0 <= p0 <= start.len(),
            writer.pos == p0 + i,
            writer.pos <= writer.buf@.len(),
            writer.buf@ == overwritten(start, p0, zeros(i as int)),
        decreases pad - i,
    {
        writer.write_u8(0);
        proof {
            lemma_overwritten_twice(start, p0, zeros(i as int), seq![0u8]);
            assert(zeros(i as int) + seq![0u8] =~= zeros(i + 1));
        }
        i = i + 1;
    }
    proof {
        lemma_overwritten_at_end(start, zeros(pad as int));
    }
}

/// The low 16 bits of `x`, as `x as u16` gives them.
pub fn low_u16(x: usize) -> (r: u16)
    ensures
        r == x % 0x10000,
{
    assert((x as u16) == x % 0x10000) by (bit_vector);
    x as u16
}

/// The low 32 bits of `x`, as `x as u32` gives them.
pub fn low_u32(x: usize) -> (r: u32)
    ensures
        r == (x as int) % 0x1_0000_0000,
{
    assert((x as u32) as u64 == (x as u64) % 0x1_0000_0000u64) by (bit_vector);
    x as u32
}

/// Reads `size` bytes.
pub fn read_u8_array(reader: &mut Reader, size: usize) -> (r: Result<Vec<u8>, PrimError>)
    ensures
        final(reader).data@ == old(reader).data@,
        reads_as(r, final(reader).pos, take_bytes(old(reader).data@, old(reader).pos as int, size as int)),
{
    let ghost d = reader.data@;
    let ghost p = reader.pos as int;
    let mut data: Vec<u8> = Vec::new();
    let mut i: usize = 0;
    while i < size
        invariant
            i <= size,
            d == old(reader).data@,
            p == old(reader).pos,
            reader.data@ == d,
            reader.pos == p + i,
            i == 0 || p + i <= d.len(),
            data@ == Seq::new(i as nat, |j: int| d[p + j]),
        decreases size - i,
    {
        match reader.read_u8() {
            Ok(v) => {
                data.push(v);
                i = i + 1;
                assert(data@ =~= Seq::new(i as nat, |j: int| d[p + j]));
            },
            Err(e) => {
                return Err(e);
            },
        }
    }
    if size > 0 {
        assert(data@ =~= d.subrange(p, p + size));
    }
    Ok(data)
}

/// Reads `size` little-endian `u16` values.
pub fn read_u16_array(reader: &mut Reader, size: usize) -> (r: Result<Vec<u16>, PrimError>)
    ensures
        final(reader).data@ == old(reader).data@,
        reads_as(r, final(reader).pos, take_u16s(old(reader).data@, old(reader).pos as int, size as int)),
{
    let ghost d = reader.data@;
    let ghost p = reader.pos as int;
    let mut data: Vec<u16> = Vec::new();
    let mut i: usize = 0;
    while i < size
        invariant
            i <= size,
            d == old(reader).data@,
            p == old(reader).pos,
            reader.data@ == d,
            reader.pos == p + 2 * i,
            i == 0 || p + 2 * i <= d.len(),
            data@ == Seq::new(i as nat, |j: int| u16_at(d, p + 2 * j)),
        decreases size - i,
    {
        match reader.read_u16() {
            Ok(v) => {
                data.push(v);
                i = i + 1;
                assert(data@ =~= Seq::new(i as nat, |j: int| u16_at(d, p + 2 * j)));
            },
            Err(e) => {
                return Err(e);
            },
        }
    }
    Ok(data)
}

/// Reads `size` little-endian `u32` values.
pub fn read_u32_array(reader: &mut Reader, size: usize) -> (r: Result<Vec<u32>, PrimError>)
    ensures
        final(reader).data@ == old(reader).data@,
        reads_as(r, final(reader).pos, take_u32s(old(reader).data@, old(reader).pos as int, size as int)),
{
    let ghost d = reader.data@;
    let ghost p = reader.pos as int;
    let mut data: Vec<u32> = Vec::new();
    let mut i: usize = 0;
    while i < size
        invariant
            i <= size,
            d == old(reader).data@,
            p == old(reader).pos,
            reader.data@ == d,
            reader.pos == p + 4 * i,
            i == 0 || p + 4 * i <= d.len(),
            data@ == Seq::new(i as nat, |j: int| u32_at(d, p + 4 * j)),
        decreases size - i,
    {
        match reader.read_u32() {
            Ok(v) => {
                data.push(v);
                i = i + 1;
                assert(data@ =~= Seq::new(i as nat, |j: int| u32_at(d, p + 4 * j)));
            },
            Err(e) => {
                return Err(e);
            },
        }
    }
    Ok(data)
}

/// Writes the bytes of `data` from the writer's position on, over what is
/// there and past the end.
pub fn write_u8_into(writer: &mut Writer, data: &[u8])
    requires
        old(writer).pos <= old(writer).buf@.len(),
    ensures
        final(writer).buf@ == overwritten(old(writer).buf@, old(writer).pos as int, data@),
        final(writer).pos == old(writer).pos + data@.len(),
        final(writer).pos <= final(writer).buf@.len(),
        old(writer).pos == old(writer).buf@.len() ==> final(writer).buf@ == old(writer).buf@ + data@
            && final(writer).pos == final(writer).buf@.len(),
{
    writer.write_bytes(data);
}

/// Writes the little-endian bytes of each value of `data` from the
/// writer's position on, over what is there and past the end.
pub fn write_u16_into(writer: &mut Writer, data: &[u16])
    requires
        old(writer).pos <= old(writer).buf@.len(),
    ensures
        final(writer).buf@ == overwritten(old(writer).buf@, old(writer).pos as int, u16s_bytes(data@)),
        final(writer).pos == old(writer).pos + u16s_bytes(data@).len(),
        final(writer).pos <= final(writer).buf@.len(),
        old(writer).pos == old(writer).buf@.len() ==> final(writer).buf@ == old(writer).buf@ + u16s_bytes(data@)
            && final(writer).pos == final(writer).buf@.len(),
{
    let ghost start = writer.buf@;
    let ghost p0 = writer.pos as int;
    let ghost chunks = data@.map_values(|x: u16| spec_u16_to_le_bytes(x));
    assert(chunks.take(0).flatten_alt() =~= Seq::<u8>::empty());
    assert(overwritten(start, p0, Seq::<u8>::empty()) =~= start);
    let mut i: usize = 0;
    while i < data.len()
        invariant
            i <= data@.len(),
            0 <= p0 <= start.len(),
            chunks == data@.map_values(|x: u16| spec_u16_to_le_bytes(x)),
            writer.buf@ == overwritten(start, p0, chunks.take(i as int).flatten_alt()),
            writer.pos == p0 + chunks.take(i as int).flatten_alt().len(),
            writer.pos <= writer.buf@.len(),
        decreases data@.len() - i,
    {
        proof {
            lemma_chunks_step(chunks, i as int);
            lemma_overwritten_twice(start, p0, chunks.take(i as int).flatten_alt(), chunks[i as int]);
            lemma_auto_spec_u16_to_from_le_bytes();
            assert(chunks[i as int] == spec_u16_to_le_bytes(data@[i as int]));
        }
        writer.write_u16(data[i]);
        i = i + 1;
    }
    assert(chunks.take(i as int) =~= chunks);
    proof {
        lemma_overwritten_at_end(start, u16s_bytes(data@));
    }
}

/// Writes the little-endian bytes of each value of `data` from the
/// writer's position on, over what is there and past the end.
pub fn write_u32_into(writer: &mut Writer, data: &[u32])
    requires
        old(writer).pos <= old(writer).buf@.len(),
    ensures
        final(writer).buf@ == overwritten(old(writer).buf@, old(writer).pos as int, u32s_bytes(data@)),
        final(writer).pos == old(writer).pos + u32s_bytes(data@).len(),
        final(writer).pos <= final(writer).buf@.len(),
        old(writer).pos == old(writer).buf@.len() ==> final(writer).buf@ == old(writer).buf@ + u32s_bytes(data@)
            && final(writer).pos == final(writer).buf@.len(),
{
    let ghost start = writer.buf@;
    let ghost p0 = writer.pos as int;
    let ghost chunks = data@.map_values(|x: u32| spec_u32_to_le_bytes(x));
    assert(chunks.take(0).flatten_alt() =~= Seq::<u8>::empty());
    assert(overwritten(start, p0, Seq::<u8>::empty()) =~= start);
    let mut i: usize = 0;
    while i < data.len()
        invariant
            i <= data@.len(),
            0 <= p0 <= start.len(),
            chunks == data@.map_values(|x: u32| spec_u32_to_le_bytes(x)),
            writer.buf@ == overwritten(start, p0, chunks.take(i as int).flatten_alt()),
            writer.pos == p0 + chunks.take(i as int).flatten_alt().len(),
            writer.pos <= writer.buf@.len(),
        decreases data@.len() - i,
    {
        proof {
            lemma_chunks_step(chunks, i as int);
            lemma_overwritten_twice(start, p0, chunks.take(i as int).flatten_alt(), chunks[i as int]);
            lemma_auto_spec_u32_to_from_le_bytes();
            assert(chunks[i as int] == spec_u32_to_le_bytes(data@[i as int]));
        }
        writer.write_u32(data[i]);
        i = i + 1;
    }
    assert(chunks.take(i as int) =~= chunks);
    proof {
        lemma_overwritten_at_end(start, u32s_bytes(data@));
    }
}

} // verus!

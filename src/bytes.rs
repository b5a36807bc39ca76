//! Length-checked big-endian reads over a byte slice, and big-endian writes
//! into a byte vector.
use vstd::prelude::*;
use vstd::arithmetic::div_mod::{
    lemma_div_denominator, lemma_fundamental_div_mod, lemma_fundamental_div_mod_converse,
};

verus! {

/// Failure of a length-checked read.
#[derive(Debug, Clone, Copy, PartialEq, Eq, Structural)]
pub enum BytesError {
    /// Fewer bytes remain than the read needs.
    NotEnoughData,
}

/// The big-endian value of two bytes of `s` starting at `i`.
pub open spec fn u16_at(s: Seq<u8>, i: int) -> u16 {
    (s[i] as int * 0x100 + s[i + 1] as int) as u16
}

/// The big-endian value of four bytes of `s` starting at `i`.
pub open spec fn u32_at(s: Seq<u8>, i: int) -> u32 {
    (s[i] as int * 0x100_0000 + s[i + 1] as int * 0x1_0000 + s[i + 2] as int * 0x100
        + s[i + 3] as int) as u32
}

/// The big-endian value of eight bytes of `s` starting at `i`.
pub open spec fn u64_at(s: Seq<u8>, i: int) -> u64 {
    (u32_at(s, i) as int * 0x1_0000_0000 + u32_at(s, i + 4) as int) as u64
}

/// The big-endian bytes of a 16-bit value.
pub open spec fn u16_bytes(v: u16) -> Seq<u8> {
    seq![(v / 0x100) as u8, (v % 0x100) as u8]
}

/// The big-endian bytes of a 32-bit value.
pub open spec fn u32_bytes(v: u32) -> Seq<u8> {
    seq![
        (v / 0x100_0000) as u8,
        ((v / 0x1_0000) % 0x100) as u8,
        ((v / 0x100) % 0x100) as u8,
        (v % 0x100) as u8,
    ]
}

/// The big-endian bytes of a 64-bit value.
pub open spec fn u64_bytes(v: u64) -> Seq<u8> {
    u32_bytes((v / 0x1_0000_0000) as u32) + u32_bytes((v % 0x1_0000_0000) as u32)
}

proof fn lemma_u32_split(a: u8, b: u8, c: u8, d: u8)
    ensures
        ({
            let v = (a as int * 0x100_0000 + b as int * 0x1_0000 + c as int * 0x100
                + d as int) as u32;
            &&& (v / 0x100_0000) as u8 == a
            &&& ((v / 0x1_0000) % 0x100) as u8 == b
            &&& ((v / 0x100) % 0x100) as u8 == c
            &&& (v % 0x100) as u8 == d
        }),
{
    let v = a as int * 0x100_0000 + b as int * 0x1_0000 + c as int * 0x100 + d as int;
    let (a, b, c, d) = (a as int, b as int, c as int, d as int);
    lemma_fundamental_div_mod_converse(v, 0x100_0000, a, b * 0x1_0000 + c * 0x100 + d);
    lemma_fundamental_div_mod_converse(v, 0x1_0000, a * 0x100 + b, c * 0x100 + d);
    lemma_fundamental_div_mod_converse(a * 0x100 + b, 0x100, a, b);
    lemma_fundamental_div_mod_converse(v, 0x100, a * 0x1_0000 + b * 0x100 + c, d);
    lemma_fundamental_div_mod_converse(a * 0x1_0000 + b * 0x100 + c, 0x100, a * 0x100 + b, c);
}

/// The images of the items of `s` under `f`, one after the other.
pub open spec fn concat_bytes<T>(s: Seq<T>, f: spec_fn(T) -> Seq<u8>) -> Seq<u8>
    decreases s.len(),
{
    if s.len() == 0 {
        seq![]
    } else {
        concat_bytes(s.drop_last(), f) + f(s.last())
    }
}

/// `b` stands in `s` from position `p` on.
pub open spec fn bytes_at(s: Seq<u8>, p: int, b: Seq<u8>) -> bool {
    &&& 0 <= p
    &&& p + b.len() <= s.len()
    &&& s.subrange(p, p + b.len()) == b
}

/// Where `a + b` stands, `a` stands, and `b` right after it.
pub proof fn lemma_bytes_at_split(s: Seq<u8>, p: int, a: Seq<u8>, b: Seq<u8>)
    requires
        bytes_at(s, p, a + b),
    ensures
        bytes_at(s, p, a),
        bytes_at(s, p + a.len(), b),
{
    let whole = s.subrange(p, p + (a + b).len());
    assert(whole == a + b);
    assert(s.subrange(p, p + a.len()) =~= whole.subrange(0, a.len() as int));
    assert(whole.subrange(0, a.len() as int) =~= a);
    assert(s.subrange(p + a.len(), p + a.len() + b.len()) =~= whole.subrange(
        a.len() as int,
        whole.len() as int,
    ));
    assert(whole.subrange(a.len() as int, whole.len() as int) =~= b);
}

/// Where the bytes of a 16-bit value stand, reading gives the value.
pub proof fn lemma_u16_at_bytes(s: Seq<u8>, p: int, v: u16)
    requires
        bytes_at(s, p, u16_bytes(v)),
    ensures
        u16_at(s, p) == v,
{
    assert(s[p] == u16_bytes(v)[0]);
    assert(s[p + 1] == u16_bytes(v)[1]);
    lemma_fundamental_div_mod(v as int, 0x100);
}

/// Where the bytes of a 32-bit value stand, reading gives the value.
pub proof fn lemma_u32_at_bytes(s: Seq<u8>, p: int, v: u32)
    requires
        bytes_at(s, p, u32_bytes(v)),
    ensures
        u32_at(s, p) == v,
{
    let x = v as int;
    assert(s[p] == u32_bytes(v)[0]);
    assert(s[p + 1] == u32_bytes(v)[1]);
    assert(s[p + 2] == u32_bytes(v)[2]);
    assert(s[p + 3] == u32_bytes(v)[3]);
    lemma_fundamental_div_mod(x, 0x100);
    let q1 = x / 0x100;
    lemma_fundamental_div_mod(q1, 0x100);
    let q2 = q1 / 0x100;
    lemma_fundamental_div_mod(q2, 0x100);
    lemma_div_denominator(x, 0x100, 0x100);
    lemma_div_denominator(q1, 0x100, 0x100);
    lemma_div_denominator(x, 0x1_0000, 0x100);
}

/// The images of two sequences in a row are the image of the two joined.
pub proof fn lemma_concat_append<T>(a: Seq<T>, b: Seq<T>, f: spec_fn(T) -> Seq<u8>)
    ensures
        concat_bytes(a + b, f) == concat_bytes(a, f) + concat_bytes(b, f),
    decreases b.len(),
{
    if b.len() == 0 {
        assert(a + b =~= a);
        assert(concat_bytes(a, f) + seq![] =~= concat_bytes(a, f));
    } else {
        assert((a + b).drop_last() =~= a + b.drop_last());
        assert((a + b).last() == b.last());
        lemma_concat_append(a, b.drop_last(), f);
        assert(concat_bytes(a + b, f) =~= concat_bytes(a, f) + concat_bytes(b, f));
    }
}

/// Where the images of all of `s` stand, the image of item `i` stands right
/// after the images of the items before it.
pub proof fn lemma_concat_item_at<T>(
    data: Seq<u8>,
    p: int,
    s: Seq<T>,
    f: spec_fn(T) -> Seq<u8>,
    i: int,
)
    requires
        bytes_at(data, p, concat_bytes(s, f)),
        0 <= i < s.len(),
    ensures
        bytes_at(data, p + concat_bytes(s.take(i), f).len(), f(s[i])),
        concat_bytes(s.take(i + 1), f) == concat_bytes(s.take(i), f) + f(s[i]),
{
    assert(s =~= s.take(i + 1) + s.skip(i + 1));
    lemma_concat_append(s.take(i + 1), s.skip(i + 1), f);
    assert(s.take(i + 1).drop_last() =~= s.take(i));
    lemma_bytes_at_split(data, p, concat_bytes(s.take(i + 1), f), concat_bytes(s.skip(i + 1), f));
    lemma_bytes_at_split(data, p, concat_bytes(s.take(i), f), f(s[i]));
}

/// `after` is `before` moved past exactly the bytes `b`.
pub open spec fn advanced<'a>(before: ByteReader<'a>, after: ByteReader<'a>, b: Seq<u8>) -> bool {
    &&& after.data@ == before.data@
    &&& after.pos == before.pos + b.len()
    &&& after.pos <= after.data@.len()
    &&& after.data@.subrange(before.pos as int, after.pos as int) == b
}

/// Two consecutive advances make one.
pub proof fn lemma_advanced_chain<'a>(
    r0: ByteReader<'a>,
    r1: ByteReader<'a>,
    r2: ByteReader<'a>,
    b1: Seq<u8>,
    b2: Seq<u8>,
)
    requires
        advanced(r0, r1, b1),
        advanced(r1, r2, b2),
    ensures
        advanced(r0, r2, b1 + b2),
{
    assert(r2.data@.subrange(r0.pos as int, r2.pos as int) =~= r1.data@.subrange(
        r0.pos as int,
        r1.pos as int,
    ) + r2.data@.subrange(r1.pos as int, r2.pos as int));
}

/// A cursor over a byte slice: every read checks the remaining length first
/// and leaves the cursor where it was when it fails.
pub struct ByteReader<'a> {
    pub data: &'a [u8],
    pub pos: usize,
}

impl<'a> ByteReader<'a> {
    /// The cursor lies within the data.
    pub open spec fn wf(&self) -> bool {
        self.pos <= self.data@.len()
    }

    /// A reader at the start of `data`.
    pub fn new(data: &'a [u8]) -> (r: Self)
        ensures
            r.data@ == data@,
            r.pos == 0,
            r.wf(),
    {
        ByteReader { data, pos: 0 }
    }

    /// The number of bytes after the cursor.
    pub fn remaining(&self) -> (r: usize)
        ensures
            r as int == if self.pos <= self.data@.len() {
                self.data@.len() - self.pos
            } else {
                0
            },
    {
        if self.pos <= self.data.len() {
            self.data.len() - self.pos
        } else {
            0
        }
    }

    /// Succeeds when at least `needed` bytes remain after the cursor.
    pub fn len_check(&self, needed: usize) -> (r: Result<(), BytesError>)
        ensures
            r is Ok <==> self.pos + needed <= self.data@.len(),
            r is Err ==> r == Err::<(), BytesError>(BytesError::NotEnoughData),
    {
        if self.pos <= self.data.len() && needed <= self.data.len() - self.pos {
            Ok(())
        } else {
            Err(BytesError::NotEnoughData)
        }
    }

    /// Reads one byte.
    pub fn read_u8(&mut self) -> (r: Result<u8, BytesError>)
        ensures
            r matches Ok(v) ==> advanced(*old(self), *final(self), seq![v]),
            final(self).data == old(self).data,
            old(self).pos + 1 <= old(self).data@.len() ==> r == Ok::<u8, BytesError>(
                old(self).data@[old(self).pos as int],
            ) && final(self).pos == old(self).pos + 1,
            old(self).pos + 1 > old(self).data@.len() ==> r == Err::<u8, BytesError>(
                BytesError::NotEnoughData,
            ) && final(self).pos == old(self).pos,
    {
        self.len_check(1)?;
        let b = self.data[self.pos];
        self.pos = self.pos + 1;
        assert(self.data@.subrange(old(self).pos as int, self.pos as int) =~= seq![b]);
        Ok(b)
    }

    /// Reads a big-endian `u16`.
    pub fn read_u16(&mut self) -> (r: Result<u16, BytesError>)
        ensures
            r matches Ok(v) ==> advanced(*old(self), *final(self), u16_bytes(v)),
            final(self).data == old(self).data,
            old(self).pos + 2 <= old(self).data@.len() ==> r == Ok::<u16, BytesError>(
                u16_at(old(self).data@, old(self).pos as int),
            ) && final(self).pos == old(self).pos + 2,
            old(self).pos + 2 > old(self).data@.len() ==> r == Err::<u16, BytesError>(
                BytesError::NotEnoughData,
            ) && final(self).pos == old(self).pos,
    {
        self.len_check(2)?;
        let p = self.pos;
        let v = (self.data[p] as u16) * 0x100 + self.data[p + 1] as u16;
        self.pos = p + 2;
        assert(self.data@.subrange(p as int, p + 2) =~= u16_bytes(v));
        Ok(v)
    }

    /// Reads a big-endian `u32`.
    pub fn read_u32(&mut self) -> (r: Result<u32, BytesError>)
        ensures
            r matches Ok(v) ==> advanced(*old(self), *final(self), u32_bytes(v)),
            final(self).data == old(self).data,
            old(self).pos + 4 <= old(self).data@.len() ==> r == Ok::<u32, BytesError>(
                u32_at(old(self).data@, old(self).pos as int),
            ) && final(self).pos == old(self).pos + 4,
            old(self).pos + 4 > old(self).data@.len() ==> r == Err::<u32, BytesError>(
                BytesError::NotEnoughData,
            ) && final(self).pos == old(self).pos,
    {
        self.len_check(4)?;
        let p = self.pos;
        let v = (self.data[p] as u32) * 0x100_0000 + (self.data[p + 1] as u32) * 0x1_0000
            + (self.data[p + 2] as u32) * 0x100 + self.data[p + 3] as u32;
        self.pos = p + 4;
        proof {
            lemma_u32_split(
                self.data@[p as int],
                self.data@[p + 1],
                self.data@[p + 2],
                self.data@[p + 3],
            );
        }
        assert(self.data@.subrange(p as int, p + 4) =~= u32_bytes(v));
        Ok(v)
    }

    /// Reads a big-endian `u64`.
    pub fn read_u64(&mut self) -> (r: Result<u64, BytesError>)
        ensures
            r matches Ok(v) ==> advanced(*old(self), *final(self), u64_bytes(v)),
            final(self).data == old(self).data,
            old(self).pos + 8 <= old(self).data@.len() ==> r == Ok::<u64, BytesError>(
                u64_at(old(self).data@, old(self).pos as int),
            ) && final(self).pos == old(self).pos + 8,
            old(self).pos + 8 > old(self).data@.len() ==> r == Err::<u64, BytesError>(
                BytesError::NotEnoughData,
            ) && final(self).pos == old(self).pos,
    {
        self.len_check(8)?;
        let ghost r0 = *self;
        let hi = self.read_u32()?;
        let ghost r1 = *self;
        let lo = self.read_u32()?;
        let v = (hi as u64) * 0x1_0000_0000 + lo as u64;
        proof {
            lemma_advanced_chain(r0, r1, *self, u32_bytes(hi), u32_bytes(lo));
            assert((v / 0x1_0000_0000) as u32 == hi);
            assert((v % 0x1_0000_0000) as u32 == lo);
        }
        Ok(v)
    }

    /// Reads one byte as a signed value.
    pub fn read_i8(&mut self) -> (r: Result<i8, BytesError>)
        ensures
            final(self).data == old(self).data,
            old(self).pos + 1 <= old(self).data@.len() ==> r == Ok::<i8, BytesError>(
                old(self).data@[old(self).pos as int] as i8,
            ) && final(self).pos == old(self).pos + 1,
            old(self).pos + 1 > old(self).data@.len() ==> r == Err::<i8, BytesError>(
                BytesError::NotEnoughData,
            ) && final(self).pos == old(self).pos,
    {
        let v = self.read_u8()?;
        Ok(v as i8)
    }

    /// Reads a big-endian `i16`.
    pub fn read_i16(&mut self) -> (r: Result<i16, BytesError>)
        ensures
            final(self).data == old(self).data,
            old(self).pos + 2 <= old(self).data@.len() ==> r == Ok::<i16, BytesError>(
                u16_at(old(self).data@, old(self).pos as int) as i16,
            ) && final(self).pos == old(self).pos + 2,
            old(self).pos + 2 > old(self).data@.len() ==> r == Err::<i16, BytesError>(
                BytesError::NotEnoughData,
            ) && final(self).pos == old(self).pos,
    {
        let v = self.read_u16()?;
        Ok(v as i16)
    }

    /// Reads a big-endian `i32`.
    pub fn read_i32(&mut self) -> (r: Result<i32, BytesError>)
        ensures
            final(self).data == old(self).data,
            old(self).pos + 4 <= old(self).data@.len() ==> r == Ok::<i32, BytesError>(
                u32_at(old(self).data@, old(self).pos as int) as i32,
            ) && final(self).pos == old(self).pos + 4,
            old(self).pos + 4 > old(self).data@.len() ==> r == Err::<i32, BytesError>(
                BytesError::NotEnoughData,
            ) && final(self).pos == old(self).pos,
    {
        let v = self.read_u32()?;
        Ok(v as i32)
    }

    /// Reads a big-endian `i64`.
    pub fn read_i64(&mut self) -> (r: Result<i64, BytesError>)
        ensures
            final(self).data == old(self).data,
            old(self).pos + 8 <= old(self).data@.len() ==> r == Ok::<i64, BytesError>(
                u64_at(old(self).data@, old(self).pos as int) as i64,
            ) && final(self).pos == old(self).pos + 8,
            old(self).pos + 8 > old(self).data@.len() ==> r == Err::<i64, BytesError>(
                BytesError::NotEnoughData,
            ) && final(self).pos == old(self).pos,
    {
        let v = self.read_u64()?;
        Ok(v as i64)
    }

    /// Reads `amount` bytes into a new vector.
    pub fn read_n_bytes_vec(&mut self, amount: usize) -> (r: Result<Vec<u8>, BytesError>)
        ensures
            final(self).data == old(self).data,
            r matches Ok(v) ==> advanced(*old(self), *final(self), v@),
            old(self).pos + amount <= old(self).data@.len() ==> (r matches Ok(v) && v@
                == old(self).data@.subrange(old(self).pos as int, old(self).pos + amount)
                && final(self).pos == old(self).pos + amount),
            old(self).pos + amount > old(self).data@.len() ==> r == Err::<Vec<u8>, BytesError>(
                BytesError::NotEnoughData,
            ) && final(self).pos == old(self).pos,
    {
        self.len_check(amount)?;
        let start = self.pos;
        let n = self.data.len();
        let mut v: Vec<u8> = Vec::with_capacity(amount);
        let mut i: usize = 0;
        while i < amount
            invariant
                start + amount <= self.data@.len(),
                n == self.data@.len(),
                i <= amount,
                v@ == self.data@.subrange(start as int, start + i),
            decreases amount - i,
        {
            v.push(self.data[start + i]);
            i = i + 1;
            assert(v@ =~= self.data@.subrange(start as int, start + i));
        }
        self.pos = start + amount;
        Ok(v)
    }

    /// Reads `N` bytes into an array.
    pub fn read_n_bytes<const N: usize>(&mut self) -> (r: Result<[u8; N], BytesError>)
        ensures
            final(self).data == old(self).data,
            r matches Ok(a) ==> advanced(*old(self), *final(self), a@),
            old(self).pos + N <= old(self).data@.len() ==> (r matches Ok(a) && a@
                == old(self).data@.subrange(old(self).pos as int, old(self).pos + N)
                && final(self).pos == old(self).pos + N),
            old(self).pos + N > old(self).data@.len() ==> r == Err::<[u8; N], BytesError>(
                BytesError::NotEnoughData,
            ) && final(self).pos == old(self).pos,
    {
        self.len_check(N)?;
        let start = self.pos;
        let n = self.data.len();
        let mut a: [u8; N] = [0u8; N];
        let mut i: usize = 0;
        while i < N
            invariant
                start + N <= self.data@.len(),
                n == self.data@.len(),
                i <= N,
                a@.len() == N,
                forall|j: int| 0 <= j < i ==> a@[j] == self.data@[start + j],
            decreases N - i,
        {
            a[i] = self.data[start + i];
            i = i + 1;
        }
        assert(a@ =~= self.data@.subrange(start as int, start + N));
        self.pos = start + N;
        Ok(a)
    }
}

/// Appends one byte.
pub fn write_u8(out: &mut Vec<u8>, v: u8)
    ensures
        final(out)@ == old(out)@.push(v),
{
    out.push(v);
}

/// Appends the big-endian bytes of a `u16`.
pub fn write_u16(out: &mut Vec<u8>, v: u16)
    ensures
        final(out)@ == old(out)@ + u16_bytes(v),
{
    out.push((v / 0x100) as u8);
    out.push((v % 0x100) as u8);
    assert(out@ =~= old(out)@ + u16_bytes(v));
}

/// Appends the big-endian bytes of a `u32`.
pub fn write_u32(out: &mut Vec<u8>, v: u32)
    ensures
        final(out)@ == old(out)@ + u32_bytes(v),
{
    out.push((v / 0x100_0000) as u8);
    out.push(((v / 0x1_0000) % 0x100) as u8);
    out.push(((v / 0x100) % 0x100) as u8);
    out.push((v % 0x100) as u8);
    assert(out@ =~= old(out)@ + u32_bytes(v));
}

/// Appends the big-endian bytes of a `u64`.
pub fn write_u64(out: &mut Vec<u8>, v: u64)
    ensures
        final(out)@ == old(out)@ + u64_bytes(v),
{
    write_u32(out, (v / 0x1_0000_0000) as u32);
    write_u32(out, (v % 0x1_0000_0000) as u32);
    assert(out@ =~= old(out)@ + u64_bytes(v));
}

/// Appends the byte of an `i8`, two's complement.
pub fn write_i8(out: &mut Vec<u8>, v: i8)
    ensures
        final(out)@ == old(out)@.push(v as u8),
{
    write_u8(out, v as u8);
}

/// Appends the big-endian bytes of an `i16`, two's complement.
pub fn write_i16(out: &mut Vec<u8>, v: i16)
    ensures
        final(out)@ == old(out)@ + u16_bytes(v as u16),
{
    write_u16(out, v as u16);
}

/// Appends the big-endian bytes of an `i32`, two's complement.
pub fn write_i32(out: &mut Vec<u8>, v: i32)
    ensures
        final(out)@ == old(out)@ + u32_bytes(v as u32),
{
    write_u32(out, v as u32);
}

/// Appends the big-endian bytes of an `i64`, two's complement.
pub fn write_i64(out: &mut Vec<u8>, v: i64)
    ensures
        final(out)@ == old(out)@ + u64_bytes(v as u64),
{
    write_u64(out, v as u64);
}

/// Appends all of `bytes`.
pub fn write_all(out: &mut Vec<u8>, bytes: &[u8])
    ensures
        final(out)@ == old(out)@ + bytes@,
{
    let mut i: usize = 0;
    while i < bytes.len()
        invariant
            i <= bytes@.len(),
            out@ == old(out)@ + bytes@.subrange(0, i as int),
        decreases bytes@.len() - i,
    {
        out.push(bytes[i]);
        i = i + 1;
        assert(out@ =~= old(out)@ + bytes@.subrange(0, i as int));
    }
    assert(bytes@.subrange(0, i as int) =~= bytes@);
}

} // verus!

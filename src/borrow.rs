//! Views of the array types that read their elements straight from the input
//! bytes. A view keeps a reference to the bytes, so it cannot outlive them.
use vstd::prelude::*;
use vstd::slice::slice_subrange;

verus! {

/// Four bytes read as a big-endian unsigned integer.
pub open spec fn be_u32(b: Seq<u8>) -> u32 {
    (b[0] as int * 0x100_0000 + b[1] as int * 0x1_0000 + b[2] as int * 0x100 + b[3] as int) as u32
}

/// Eight bytes read as a big-endian unsigned integer.
pub open spec fn be_u64(b: Seq<u8>) -> u64 {
    (be_u32(b.subrange(0, 4)) as int * 0x1_0000_0000 + be_u32(b.subrange(4, 8)) as int) as u64
}

/// The whole bytes of `d` as signed bytes.
pub open spec fn byte_elems(d: Seq<u8>) -> Seq<i8> {
    Seq::new(d.len(), |i: int| d[i] as i8)
}

/// The whole four-byte groups of `d` as big-endian signed integers; a short tail is dropped.
pub open spec fn int_elems(d: Seq<u8>) -> Seq<i32> {
    Seq::new(d.len() / 4, |i: int| be_u32(d.subrange(4 * i, 4 * i + 4)) as i32)
}

/// The whole eight-byte groups of `d` as big-endian signed integers; a short tail is dropped.
pub open spec fn long_elems(d: Seq<u8>) -> Seq<i64> {
    Seq::new(d.len() / 8, |i: int| be_u64(d.subrange(8 * i, 8 * i + 8)) as i64)
}

/// Relies on byteorder's `BigEndian::read_i32`: the first four bytes of its argument,
/// most significant first, as a two's complement integer.
#[verifier::external_body]
pub(crate) fn read_be_i32(data: &[u8]) -> (r: i32)
    requires
        data@.len() >= 4,
    ensures
        r == be_u32(data@.subrange(0, 4)) as i32,
{
    <byteorder::BigEndian as byteorder::ByteOrder>::read_i32(data)
}

/// Relies on byteorder's `BigEndian::read_i64`: the first eight bytes of its argument,
/// most significant first, as a two's complement integer.
#[verifier::external_body]
fn read_be_i64(data: &[u8]) -> (r: i64)
    requires
        data@.len() >= 8,
    ensures
        r == be_u64(data@.subrange(0, 8)) as i64,
{
    <byteorder::BigEndian as byteorder::ByteOrder>::read_i64(data)
}

proof fn lemma_int_elems_drop(d: Seq<u8>)
    requires
        d.len() >= 4,
    ensures
        int_elems(d.subrange(4, d.len() as int)) =~= int_elems(d).subrange(1, int_elems(d).len() as int),
{
    let t = d.subrange(4, d.len() as int);
    assert forall|i: int| 0 <= i < t.len() / 4 implies #[trigger] t.subrange(4 * i, 4 * i + 4) =~= d.subrange(
        4 * (i + 1),
        4 * (i + 1) + 4,
    ) by {}
}

proof fn lemma_long_elems_drop(d: Seq<u8>)
    requires
        d.len() >= 8,
    ensures
        long_elems(d.subrange(8, d.len() as int)) =~= long_elems(d).subrange(1, long_elems(d).len() as int),
{
    let t = d.subrange(8, d.len() as int);
    assert forall|i: int| 0 <= i < t.len() / 8 implies #[trigger] t.subrange(8 * i, 8 * i + 8) =~= d.subrange(
        8 * (i + 1),
        8 * (i + 1) + 8,
    ) by {}
}

proof fn lemma_first_int(d: Seq<u8>)
    requires
        d.len() >= 4,
    ensures
        int_elems(d)[0] == be_u32(d.subrange(0, 4)) as i32,
{
}

proof fn lemma_first_long(d: Seq<u8>)
    requires
        d.len() >= 8,
    ensures
        long_elems(d)[0] == be_u64(d.subrange(0, 8)) as i64,
{
}

/// However short the bytes are for the element count that the input declared,
/// a view yields only whole elements, so never more than the bytes hold and
/// fewer than were declared.
pub proof fn lemma_short_input_yields_fewer(data: Seq<u8>, declared: nat)
    ensures
        byte_elems(data).len() == data.len(),
        int_elems(data).len() * 4 <= data.len(),
        long_elems(data).len() * 8 <= data.len(),
        data.len() < declared ==> byte_elems(data).len() < declared,
        data.len() < 4 * declared ==> int_elems(data).len() < declared,
        data.len() < 8 * declared ==> long_elems(data).len() < declared,
{
}

/// A byte array that borrows its bytes from the input.
#[derive(Clone, Copy, Debug)]
pub struct ByteArray<'a> {
    data: &'a [u8],
}

/// Reads the elements of a [`ByteArray`] one at a time.
pub struct ByteIter<'a> {
    data: &'a [u8],
}

/// An int array that borrows its bytes from the input.
#[derive(Clone, Copy, Debug)]
pub struct IntArray<'a> {
    data: &'a [u8],
}

/// Reads the elements of an [`IntArray`] one at a time.
pub struct IntIter<'a> {
    data: &'a [u8],
}

/// A long array that borrows its bytes from the input.
#[derive(Clone, Copy, Debug)]
pub struct LongArray<'a> {
    data: &'a [u8],
}

/// Reads the elements of a [`LongArray`] one at a time.
pub struct LongIter<'a> {
    data: &'a [u8],
}

impl<'a> View for ByteArray<'a> {
    type V = Seq<i8>;

    closed spec fn view(&self) -> Seq<i8> {
        byte_elems(self.data@)
    }
}

impl<'a> View for ByteIter<'a> {
    type V = Seq<i8>;

    closed spec fn view(&self) -> Seq<i8> {
        byte_elems(self.data@)
    }
}

impl<'a> View for IntArray<'a> {
    type V = Seq<i32>;

    closed spec fn view(&self) -> Seq<i32> {
        int_elems(self.data@)
    }
}

impl<'a> View for IntIter<'a> {
    type V = Seq<i32>;

    closed spec fn view(&self) -> Seq<i32> {
        int_elems(self.data@)
    }
}

impl<'a> View for LongArray<'a> {
    type V = Seq<i64>;

    closed spec fn view(&self) -> Seq<i64> {
        long_elems(self.data@)
    }
}

impl<'a> View for LongIter<'a> {
    type V = Seq<i64>;

    closed spec fn view(&self) -> Seq<i64> {
        long_elems(self.data@)
    }
}

impl<'a> ByteArray<'a> {
    /// A view of the payload bytes of a byte array.
    pub fn new(data: &'a [u8]) -> (r: ByteArray<'a>)
        ensures
            r.bytes() == data@,
            r@ == byte_elems(data@),
    {
        ByteArray { data }
    }

    pub closed spec fn bytes(&self) -> Seq<u8> {
        self.data@
    }

    /// Starts reading from the first element.
    pub fn iter(&self) -> (r: ByteIter<'a>)
        ensures
            r@ == self@,
    {
        ByteIter { data: self.data }
    }
}

impl<'a> ByteIter<'a> {
    /// The next element, or `None` once every element has been read.
    pub fn next(&mut self) -> (r: Option<i8>)
        ensures
            old(self)@.len() > 0 ==> r == Some(old(self)@[0]) && final(self)@ == old(self)@.drop_first(),
            old(self)@.len() == 0 ==> r is None && final(self)@ == old(self)@,
    {
        if self.data.len() >= 1 {
            let v = self.data[0] as i8;
            self.data = slice_subrange(self.data, 1, self.data.len());
            assert(byte_elems(self.data@) =~= byte_elems(old(self).data@).drop_first());
            Some(v)
        } else {
            None
        }
    }
}

impl<'a> IntArray<'a> {
    /// A view of the payload bytes of an int array.
    pub fn new(data: &'a [u8]) -> (r: IntArray<'a>)
        ensures
            r.bytes() == data@,
            r@ == int_elems(data@),
    {
        IntArray { data }
    }

    pub closed spec fn bytes(&self) -> Seq<u8> {
        self.data@
    }

    /// Starts reading from the first element.
    pub fn iter(&self) -> (r: IntIter<'a>)
        ensures
            r@ == self@,
    {
        IntIter { data: self.data }
    }
}

impl<'a> IntIter<'a> {
    /// The next element, or `None` once fewer than four bytes are left.
    pub fn next(&mut self) -> (r: Option<i32>)
        ensures
            old(self)@.len() > 0 ==> r == Some(old(self)@[0]) && final(self)@ == old(self)@.drop_first(),
            old(self)@.len() == 0 ==> r is None && final(self)@ == old(self)@,
    {
        if self.data.len() >= 4 {
            let v = read_be_i32(self.data);
            proof {
                lemma_int_elems_drop(self.data@);
                lemma_first_int(self.data@);
            }
            self.data = slice_subrange(self.data, 4, self.data.len());
            Some(v)
        } else {
            None
        }
    }
}

impl<'a> LongArray<'a> {
    /// A view of the payload bytes of a long array.
    pub fn new(data: &'a [u8]) -> (r: LongArray<'a>)
        ensures
            r.bytes() == data@,
            r@ == long_elems(data@),
    {
        LongArray { data }
    }

    pub closed spec fn bytes(&self) -> Seq<u8> {
        self.data@
    }

    /// Starts reading from the first element.
    pub fn iter(&self) -> (r: LongIter<'a>)
        ensures
            r@ == self@,
    {
        LongIter { data: self.data }
    }
}

impl<'a> LongIter<'a> {
    /// The next element, or `None` once fewer than eight bytes are left.
    pub fn next(&mut self) -> (r: Option<i64>)
        ensures
            old(self)@.len() > 0 ==> r == Some(old(self)@[0]) && final(self)@ == old(self)@.drop_first(),
            old(self)@.len() == 0 ==> r is None && final(self)@ == old(self)@,
    {
        if self.data.len() >= 8 {
            let v = read_be_i64(self.data);
            proof {
                lemma_long_elems_drop(self.data@);
                lemma_first_long(self.data@);
            }
            self.data = slice_subrange(self.data, 8, self.data.len());
            Some(v)
        } else {
            None
        }
    }
}

} // verus!

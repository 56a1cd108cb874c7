//! Buffers made of a fixed head and a run of equally sized trailing
//! elements, whose number is known only once the size in bytes is.

use vstd::prelude::*;
use vstd::arithmetic::div_mod::lemma_fundamental_div_mod;
use vstd::slice::slice_subrange;

verus! {

/// Whether `size` bytes hold the head and at least one whole element, with
/// nothing left over.
pub open spec fn size_suitable(fixed_size: int, stride: int, size: int) -> bool {
    size > fixed_size && (size - fixed_size) % stride == 0
}

/// The number of trailing elements in `size` bytes: defined where `size`
/// covers the head and what follows it is a whole number of elements, zero
/// included.
pub open spec fn count_in(fixed_size: int, stride: int, size: int) -> Option<int> {
    if size >= fixed_size && (size - fixed_size) % stride == 0 {
        Some((size - fixed_size) / stride)
    } else {
        None
    }
}

/// `size` zero bytes.
pub open spec fn zeroes(size: int) -> Seq<u8> {
    Seq::new(size as nat, |i: int| 0u8)
}

/// Sizes of one family of head-and-tail types.
#[derive(Clone, Copy, Debug, PartialEq, Eq)]
pub struct ContentAdapter {
    fixed_size: usize,
    stride: usize,
}

/// A byte region seen as a head followed by `element_count` elements.
#[derive(Debug, PartialEq, Eq)]
pub struct OwnedBuffer {
    bytes: Vec<u8>,
    fixed_size: usize,
    stride: usize,
    count: usize,
}

impl ContentAdapter {
    #[verifier::type_invariant]
    spec fn well_formed(self) -> bool {
        self.stride > 0
    }

    /// Size in bytes of the form without trailing elements.
    pub closed spec fn fixed(self) -> int {
        self.fixed_size as int
    }

    /// Size in bytes of one trailing element.
    pub closed spec fn step(self) -> int {
        self.stride as int
    }

    /// An adapter for a head of `fixed_size` bytes and elements of `stride`
    /// bytes. There is none for a stride of zero.
    pub fn new(fixed_size: usize, stride: usize) -> (adapter: Option<ContentAdapter>)
        ensures
            adapter is Some <==> stride > 0,
            adapter matches Some(a) ==> a.fixed() == fixed_size && a.step() == stride,
    {
        if stride == 0 {
            None
        } else {
            Some(ContentAdapter { fixed_size, stride })
        }
    }

    /// Size in bytes of the form without trailing elements.
    pub fn get_fixed_size(&self) -> (size: usize)
        ensures
            size == self.fixed(),
    {
        self.fixed_size
    }

    /// Size in bytes of one trailing element.
    pub fn get_stride(&self) -> (stride: usize)
        ensures
            stride == self.step(),
            stride > 0,
    {
        proof {
            use_type_invariant(self);
        }
        self.stride
    }

    /// Whether a buffer of `size` bytes can be read as this type.
    pub fn is_size_suitable(&self, size: usize) -> (suitable: bool)
        ensures
            suitable == size_suitable(self.fixed(), self.step(), size as int),
    {
        proof {
            use_type_invariant(self);
        }
        size > self.fixed_size && (size - self.fixed_size) % self.stride == 0
    }

    /// The number of trailing elements in a buffer of `size` bytes. There
    /// is one for every suitable size, and for the bare head, which holds
    /// no element.
    pub fn element_count(&self, size: usize) -> (count: Option<usize>)
        ensures
            match count {
                Some(n) => count_in(self.fixed(), self.step(), size as int) == Some(n as int),
                None => count_in(self.fixed(), self.step(), size as int) is None,
            },
            count is Some <==> size_suitable(self.fixed(), self.step(), size as int) || size
                == self.fixed(),
    {
        proof {
            use_type_invariant(self);
        }
        if size < self.fixed_size {
            return None;
        }
        let tail: usize = size - self.fixed_size;
        assert(0int % (self.stride as int) == 0);
        if tail % self.stride != 0 {
            return None;
        }
        Some(tail / self.stride)
    }

    /// Whether `buffer` is the view this adapter lays over `size` fresh
    /// bytes: all zero, with the adapter's sizes and the element count that
    /// `size` gives.
    pub open spec fn fresh(self, buffer: OwnedBuffer, size: int) -> bool {
        &&& buffer.contents() == zeroes(size)
        &&& buffer.fixed() == self.fixed()
        &&& buffer.step() == self.step()
        &&& Some(buffer.count()) == count_in(self.fixed(), self.step(), size)
    }

    /// Lays the view over `bytes`, if their number is a head plus a whole
    /// number of elements.
    pub fn from_bytes(&self, bytes: Vec<u8>) -> (buffer: Option<OwnedBuffer>)
        ensures
            buffer is Some <==> count_in(self.fixed(), self.step(), bytes@.len() as int) is Some,
            buffer matches Some(b) ==> {
                &&& b.contents() == bytes@
                &&& b.fixed() == self.fixed()
                &&& b.step() == self.step()
                &&& Some(b.count()) == count_in(self.fixed(), self.step(), bytes@.len() as int)
            },
    {
        proof {
            use_type_invariant(self);
        }
        match self.element_count(bytes.len()) {
            None => None,
            Some(count) => {
                proof {
                    lemma_fundamental_div_mod(bytes@.len() - self.fixed_size, self.stride as int);
                    assert(count * self.stride == self.stride * count) by (nonlinear_arith);
                }
                Some(
                    OwnedBuffer {
                        bytes,
                        fixed_size: self.fixed_size,
                        stride: self.stride,
                        count,
                    },
                )
            },
        }
    }

    /// Creates a buffer of `size` zero bytes, hands `init` the view over
    /// it, and returns what `init` returns: the buffer as `init` left it,
    /// or the error of `init`.
    ///
    /// `size` has to be suitable; to ask for any other size is a mistake of
    /// the caller.
    pub fn read<F, E>(&self, size: usize, init: F) -> (result: Result<OwnedBuffer, E>) where
        F: FnOnce(OwnedBuffer) -> Result<OwnedBuffer, E>,

        requires
            size_suitable(self.fixed(), self.step(), size as int),
            forall|buffer: OwnedBuffer|
                self.fresh(buffer, size as int) ==> call_requires(init, (buffer,)),
        ensures
            exists|buffer: OwnedBuffer|
                self.fresh(buffer, size as int) && call_ensures(init, (buffer,), result),
    {
        proof {
            use_type_invariant(self);
        }
        let storage: Vec<u8> = vec![0u8; size];
        assert(storage@ =~= zeroes(size as int));
        let count: usize = (size - self.fixed_size) / self.stride;
        proof {
            lemma_fundamental_div_mod(size - self.fixed_size, self.stride as int);
            assert(count * self.stride == self.stride * count) by (nonlinear_arith);
        }
        let buffer = OwnedBuffer {
            bytes: storage,
            fixed_size: self.fixed_size,
            stride: self.stride,
            count,
        };
        assert(self.fresh(buffer, size as int));
        init(buffer)
    }
}

impl OwnedBuffer {
    #[verifier::type_invariant]
    spec fn well_formed(self) -> bool {
        &&& self.stride > 0
        &&& self.bytes@.len() == self.fixed_size + self.count * self.stride
    }

    /// All bytes of the buffer, head first.
    pub closed spec fn contents(self) -> Seq<u8> {
        self.bytes@
    }

    /// Size in bytes of the head.
    pub closed spec fn fixed(self) -> int {
        self.fixed_size as int
    }

    /// Size in bytes of one trailing element.
    pub closed spec fn step(self) -> int {
        self.stride as int
    }

    /// Number of trailing elements.
    pub closed spec fn count(self) -> int {
        self.count as int
    }

    /// Where trailing element `index` starts.
    pub open spec fn start_of(self, index: int) -> int {
        self.fixed() + index * self.step()
    }

    /// The bytes of the head.
    pub open spec fn head_bytes(self) -> Seq<u8> {
        self.contents().subrange(0, self.fixed())
    }

    /// The bytes of trailing element `index`.
    pub open spec fn element_bytes(self, index: int) -> Seq<u8> {
        self.contents().subrange(self.start_of(index), self.start_of(index) + self.step())
    }

    /// Total size in bytes.
    pub fn size(&self) -> (size: usize)
        ensures
            size == self.contents().len(),
            size == self.fixed() + self.count() * self.step(),
    {
        proof {
            use_type_invariant(self);
        }
        self.bytes.len()
    }

    /// Number of trailing elements.
    pub fn element_count(&self) -> (count: usize)
        ensures
            count == self.count(),
            count_in(self.fixed(), self.step(), self.contents().len() as int) == Some(
                count as int,
            ),
    {
        proof {
            use_type_invariant(self);
            lemma_count_of_exact_size(self.fixed(), self.step(), self.count());
        }
        self.count
    }

    /// The whole region, to hand to a transfer.
    pub fn as_bytes(&self) -> (bytes: &[u8])
        ensures
            bytes@ == self.contents(),
    {
        self.bytes.as_slice()
    }

    /// Gives up the view and returns the region.
    pub fn into_bytes(self) -> (bytes: Vec<u8>)
        ensures
            bytes@ == self.contents(),
    {
        self.bytes
    }

    /// The head.
    pub fn head(&self) -> (head: &[u8])
        ensures
            head@ == self.head_bytes(),
    {
        proof {
            use_type_invariant(self);
            assert(self.count * self.stride >= 0) by (nonlinear_arith)
                requires
                    self.count >= 0,
                    self.stride >= 0,
            ;
        }
        slice_subrange(self.bytes.as_slice(), 0, self.fixed_size)
    }

    /// Where trailing element `index` starts, if there is such an element.
    pub fn element_offset(&self, index: usize) -> (start: Option<usize>)
        ensures
            start is Some <==> index < self.count(),
            start matches Some(at) ==> at == self.start_of(index as int) && at + self.step()
                <= self.contents().len(),
    {
        proof {
            use_type_invariant(self);
            assert(self.bytes@.len() == self.bytes.len());
        }
        if index < self.count {
            assert(0 <= index * self.stride && index * self.stride + self.stride <= self.count
                * self.stride) by (nonlinear_arith)
                requires
                    0 <= index < self.count,
                    self.stride > 0,
            ;
            Some(self.fixed_size + index * self.stride)
        } else {
            None
        }
    }

    /// Trailing element `index`, if there is one.
    pub fn element(&self, index: usize) -> (element: Option<&[u8]>)
        ensures
            element is Some <==> index < self.count(),
            element matches Some(bytes) ==> bytes@ == self.element_bytes(index as int),
    {
        proof {
            use_type_invariant(self);
            assert(self.bytes@.len() == self.bytes.len());
        }
        match self.element_offset(index) {
            Some(start) => Some(slice_subrange(self.bytes.as_slice(), start, start + self.stride)),
            None => None,
        }
    }

    /// Copies `data` into the region at byte `offset` and returns the
    /// buffer together with `true`. Where `data` would not fit, returns the
    /// buffer as it was together with `false`.
    pub fn write(self, offset: usize, data: &[u8]) -> (result: (OwnedBuffer, bool))
        ensures
            result.1 <==> offset + data@.len() <= self.contents().len(),
            result.0.fixed() == self.fixed(),
            result.0.step() == self.step(),
            result.0.count() == self.count(),
            result.0.contents().len() == self.contents().len(),
            forall|i: int|
                0 <= i < self.contents().len() ==> #[trigger] result.0.contents()[i] == (
                if result.1 && offset <= i < offset + data@.len() {
                    data@[i - offset]
                } else {
                    self.contents()[i]
                }),
    {
        proof {
            use_type_invariant(&self);
        }
        let ghost before = self.bytes@;
        let OwnedBuffer { mut bytes, fixed_size, stride, count } = self;
        let len: usize = bytes.len();
        if offset > len || data.len() > len - offset {
            return (OwnedBuffer { bytes, fixed_size, stride, count }, false);
        }
        let mut k: usize = 0;
        while k < data.len()
            invariant
                k <= data@.len(),
                offset + data@.len() <= len,
                bytes@.len() == len,
                before.len() == len,
                forall|i: int|
                    0 <= i < len ==> #[trigger] bytes@[i] == (if offset <= i < offset + k {
                        data@[i - offset]
                    } else {
                        before[i]
                    }),
            decreases data@.len() - k,
        {
            bytes.set(offset + k, data[k]);
            k += 1;
        }
        (OwnedBuffer { bytes, fixed_size, stride, count }, true)
    }
}

/// A size that has an element count is the head plus that many whole
/// elements, and it is suitable exactly where that count is at least one.
pub proof fn lemma_size_of_count(fixed_size: int, stride: int, size: int)
    requires
        stride > 0,
    ensures
        count_in(fixed_size, stride, size) matches Some(n) ==> n >= 0 && size == fixed_size + n
            * stride,
        size_suitable(fixed_size, stride, size) <==> (count_in(fixed_size, stride, size) matches Some(
            n,
        ) && n >= 1),
{
    let tail = size - fixed_size;
    lemma_fundamental_div_mod(tail, stride);
    if tail >= 0 && tail % stride == 0 {
        let n = tail / stride;
        assert(stride * n == n * stride) by (nonlinear_arith);
        assert(n >= 0 && (tail > 0 <==> n >= 1)) by (nonlinear_arith)
            requires
                tail == n * stride,
                tail >= 0,
                stride > 0,
        ;
    }
}

/// A buffer sized for exactly `count` elements holds `count` elements, and
/// its size is suitable as soon as it holds one.
pub proof fn lemma_count_of_exact_size(fixed_size: int, stride: int, count: int)
    requires
        stride > 0,
        count >= 0,
    ensures
        count_in(fixed_size, stride, fixed_size + count * stride) == Some(count),
        count > 0 ==> size_suitable(fixed_size, stride, fixed_size + count * stride),
{
    let tail = count * stride;
    assert(tail >= 0 && (count > 0 ==> tail > 0)) by (nonlinear_arith)
        requires
            tail == count * stride,
            stride > 0,
            count >= 0,
    ;
    lemma_fundamental_div_mod(tail, stride);
    vstd::arithmetic::div_mod::lemma_fundamental_div_mod_converse(tail, stride, count, 0);
}

} // verus!

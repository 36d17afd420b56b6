//! A packed nibble store that owns a heap buffer sized exactly to its
//! logical length.
//!
//! Unlike [`crate::nibbles::Nibbles`], which accepts any large-enough
//! caller-supplied buffer, this container allocates `ceil(len / 2)` bytes
//! itself and keeps them zeroed until written. The packing layout is the
//! same: even index in the high nibble, odd index in the low nibble.

use core::marker::PhantomData;
use vstd::prelude::*;
use crate::nibbles::{lemma_nibble_write, nibble_at, Nibble, NibbleCode};

verus! {

/// How many byte pairs a store of `size` nibbles occupies: half the count,
/// rounded up.
pub fn pairs_count(size: usize) -> (r: usize)
    ensures
        r == (size + 1) / 2,
{
    size / 2 + size % 2
}

/// A packed store of nibble-coded values over an owned, exactly-sized heap
/// buffer.
pub struct NibblesVec<E: NibbleCode> {
    data: Vec<u8>,
    remainder: usize,
    marker: PhantomData<E>,
}

impl<E: NibbleCode> NibblesVec<E> {
    /// The backing bytes.
    pub closed spec fn bytes(&self) -> Seq<u8> {
        self.data@
    }

    /// How many nibbles of the last byte are unused: 1 for an odd logical
    /// length, else 0.
    pub closed spec fn spec_remainder(&self) -> nat {
        self.remainder as nat
    }

    /// The number of logical slots.
    pub open spec fn spec_len(&self) -> nat {
        (self.bytes().len() * 2 - self.spec_remainder()) as nat
    }

    /// The sizing invariant: the buffer holds exactly the logical slots
    /// plus at most one unused nibble, and the slot count fits the machine.
    pub open spec fn wf(&self) -> bool {
        &&& self.spec_remainder() <= 1
        &&& self.spec_remainder() == 1 ==> self.bytes().len() >= 1
        &&& self.bytes().len() * 2 - self.spec_remainder() <= usize::MAX
    }

    /// Builds a zeroed store of `size` slots, allocating exactly
    /// `ceil(size / 2)` bytes.
    pub fn with_len(size: usize) -> (r: Self)
        ensures
            r.wf(),
            r.spec_len() == size,
            r.bytes() == Seq::new(((size + 1) / 2) as nat, |i: int| 0u8),
            forall|i: int| 0 <= i < size ==> r@[i] == 0,
    {
        let remainder = size % 2;
        let pairs = pairs_count(size);
        let mut data: Vec<u8> = Vec::new();
        while data.len() < pairs
            invariant
                data@.len() <= pairs,
                data@ == Seq::new(data@.len(), |i: int| 0u8),
            decreases pairs - data@.len(),
        {
            data.push(0u8);
            assert(data@ =~= Seq::new(data@.len(), |i: int| 0u8));
        }
        let r = NibblesVec { data, remainder, marker: PhantomData };
        proof {
            assert(r.bytes() =~= Seq::new(((size + 1) / 2) as nat, |i: int| 0u8));
            assert forall|i: int| 0 <= i < size implies r@[i] == 0 by {
                assert(r.bytes()[i / 2] == 0u8);
                assert(0u8 >> 4u8 == 0u8) by (bit_vector);
                assert(0u8 & 0x0fu8 == 0u8) by (bit_vector);
            }
        }
        r
    }

    /// The number of logical slots.
    pub fn len(&self) -> (r: usize)
        requires
            self.wf(),
        ensures
            r == self.spec_len(),
    {
        if self.remainder == 0 {
            self.data.len() * 2
        } else {
            (self.data.len() - 1) * 2 + 1
        }
    }

    /// Reads the value at `index`. The stored nibble must be a valid code;
    /// every slot of a fresh store holds code 0, and [`NibblesVec::set`]
    /// only stores valid codes.
    pub fn get(&self, index: usize) -> (r: E)
        requires
            self.wf(),
            index < self.spec_len(),
            E::valid_code(self@[index as int]),
        ensures
            r == E::from_code_spec(self@[index as int]),
            r.code_spec() == self@[index as int],
    {
        let left = index % 2 == 0;
        let pair = self.data[index / 2];
        let nib = if left {
            pair >> 4u8
        } else {
            pair & 0x0Fu8
        };
        assert(nib == self@[index as int]);
        E::from_code(nib)
    }

    /// Stores `value` at `index`, leaving the other half of the byte and
    /// every other slot untouched.
    pub fn set(&mut self, index: usize, value: E)
        requires
            old(self).wf(),
            index < old(self).spec_len(),
        ensures
            final(self).wf(),
            final(self).spec_len() == old(self).spec_len(),
            final(self)@ == old(self)@.update(index as int, value.code_spec()),
    {
        proof {
            value.lemma_code_valid();
        }
        let left = index % 2 == 0;
        let code = value.to_code();
        let pair = self.data[index / 2];
        let updated = if left {
            (pair & 0x0F) | (code << 4u8)
        } else {
            (pair & 0xF0) | (code & 0x0F)
        };
        self.data[index / 2] = updated;
        proof {
            lemma_nibble_write(old(self).bytes(), index as int, code, self.bytes());
            assert forall|j: int| 0 <= j < self@.len()
                implies self@[j] == old(self)@.update(index as int, value.code_spec())[j] by {
                if j != index {
                    assert(j / 2 < self.bytes().len());
                    assert(nibble_at(self.bytes(), j) == nibble_at(old(self).bytes(), j));
                }
            }
            assert(self@ =~= old(self)@.update(index as int, value.code_spec()));
        }
    }

    /// Starts a fresh traversal at index 0. Traversing never mutates the
    /// store, so a second traversal yields the same sequence again.
    pub fn iter(&self) -> (r: NibblesVecIterator<E>)
        ensures
            r.store() == self@,
            r.pos() == 0,
            r.wf() <== self.wf() && (forall|i: int|
                0 <= i < self@.len() ==> E::valid_code(#[trigger] self@[i])),
    {
        NibblesVecIterator { vec: self, index: 0 }
    }

    /// The backing bytes, exactly `ceil(len / 2)` of them.
    pub fn as_slice(&self) -> (r: &[u8])
        ensures
            r@ == self.bytes(),
    {
        self.data.as_slice()
    }
}

impl<E: NibbleCode> View for NibblesVec<E> {
    type V = Seq<Nibble>;

    open spec fn view(&self) -> Seq<Nibble> {
        Seq::new(self.spec_len(), |i: int| nibble_at(self.bytes(), i))
    }
}

/// A cursor over a [`NibblesVec`], yielding the stored values in ascending
/// index order.
pub struct NibblesVecIterator<'a, E: NibbleCode> {
    vec: &'a NibblesVec<E>,
    index: usize,
}

impl<'a, E: NibbleCode> NibblesVecIterator<'a, E> {
    /// The sequence being traversed.
    pub closed spec fn store(&self) -> Seq<Nibble> {
        self.vec@
    }

    /// The index the next read will come from.
    pub closed spec fn pos(&self) -> nat {
        self.index as nat
    }

    /// The traversed store is well formed and decodable throughout.
    pub closed spec fn wf(&self) -> bool {
        self.vec.wf() && forall|i: int|
            0 <= i < self.vec@.len() ==> E::valid_code(#[trigger] self.vec@[i])
    }

    /// Yields the value at the current index and advances, or reports the
    /// end of the store. The store itself never changes.
    pub fn next(&mut self) -> (r: Option<E>)
        requires
            old(self).wf(),
        ensures
            final(self).wf(),
            final(self).store() == old(self).store(),
            old(self).pos() < old(self).store().len() ==> {
                &&& final(self).pos() == old(self).pos() + 1
                &&& r == Some(E::from_code_spec(old(self).store()[old(self).pos() as int]))
            },
            old(self).pos() >= old(self).store().len() ==> {
                &&& final(self).pos() == old(self).pos()
                &&& r is None
            },
    {
        if self.index < self.vec.len() {
            let result = Some(self.vec.get(self.index));
            self.index = self.index + 1;
            result
        } else {
            None
        }
    }
}

} // verus!

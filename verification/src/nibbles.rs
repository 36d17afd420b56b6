//! A packed container of 4-bit values over a caller-supplied byte buffer.
//!
//! Pixel index `i` lives in byte `i / 2`: an even index occupies the high
//! nibble, an odd index the low nibble. The container holds one code per
//! logical slot and never touches the other half of a byte on a write.

use core::marker::PhantomData;
use vstd::prelude::*;

verus! {

/// A half-byte value: the wire-level representation of one pixel's color.
pub type Nibble = u8;

/// A value that can be packed into one nibble and unpacked from it.
///
/// The two conversions are inverse to each other over the valid codes, so a
/// store of such values round-trips every value it is given.
pub trait NibbleCode: Sized + Copy {
    /// The nibble this value packs to.
    spec fn code_spec(self) -> Nibble;

    /// Whether `code` unpacks to a value.
    spec fn valid_code(code: Nibble) -> bool;

    /// The value a nibble unpacks to. Meaningful for valid codes only.
    spec fn from_code_spec(code: Nibble) -> Self;

    /// Every packed value is a valid nibble.
    proof fn lemma_code_valid(self)
        ensures
            Self::valid_code(self.code_spec()),
            self.code_spec() < 16,
    ;

    /// Unpacking a packed value gives a value with the same code, so a
    /// store returns every value it was given up to the value's code.
    proof fn lemma_pack_unpack(self)
        ensures
            Self::from_code_spec(self.code_spec()).code_spec() == self.code_spec(),
    ;

    /// Packs this value into its nibble.
    fn to_code(self) -> (r: Nibble)
        ensures
            r == self.code_spec(),
    ;

    /// Unpacks a valid nibble back into a value.
    fn from_code(code: Nibble) -> (r: Self)
        requires
            Self::valid_code(code),
        ensures
            r == Self::from_code_spec(code),
            r.code_spec() == code,
    ;
}

impl NibbleCode for u8 {
    /// A raw byte packs as its low nibble: the value reduced modulo 16.
    open spec fn code_spec(self) -> Nibble {
        self % 16
    }

    open spec fn valid_code(code: Nibble) -> bool {
        code < 16
    }

    /// A nibble unpacks to itself.
    open spec fn from_code_spec(code: Nibble) -> Self {
        code
    }

    proof fn lemma_code_valid(self) {
    }

    proof fn lemma_pack_unpack(self) {
    }

    fn to_code(self) -> (r: Nibble) {
        proof {
            assert(self & 0x0f == self % 16) by (bit_vector);
        }
        self & 0x0F
    }

    fn from_code(code: Nibble) -> (r: Self) {
        code
    }
}

/// The nibble stored at logical index `i` of a byte sequence: the high half
/// of byte `i / 2` for even `i`, the low half for odd `i`.
pub open spec fn nibble_at(bytes: Seq<u8>, i: int) -> Nibble {
    if i % 2 == 0 {
        bytes[i / 2] >> 4u8
    } else {
        bytes[i / 2] & 0x0fu8
    }
}

/// The number of backing bytes a store of `nibbles_len` slots needs.
pub open spec fn spec_underlying_data_len(nibbles_len: nat) -> nat {
    (nibbles_len + 1) / 2
}

/// Returns the number of backing bytes a store of `nibbles_len` slots
/// needs: half the slot count, rounded up.
pub fn underlying_data_len(nibbles_len: usize) -> (r: usize)
    ensures
        r == spec_underlying_data_len(nibbles_len as nat),
{
    nibbles_len / 2 + nibbles_len % 2
}

/// A fixed-capacity packed store of nibble-coded values over a
/// caller-supplied byte buffer.
///
/// The buffer may be larger than the store needs; the slot count `len` is
/// chosen at construction and never changes. Viewed as a sequence, the store
/// is the sequence of its `len` stored nibbles.
pub struct Nibbles<E: NibbleCode> {
    data: Vec<u8>,
    len: usize,
    marker: PhantomData<E>,
}

impl<E: NibbleCode> Nibbles<E> {
    /// The backing bytes, including any unused tail.
    pub closed spec fn bytes(&self) -> Seq<u8> {
        self.data@
    }

    /// The number of logical slots.
    pub closed spec fn spec_len(&self) -> nat {
        self.len as nat
    }

    /// The capacity invariant: two slots fit in every backing byte.
    pub open spec fn wf(&self) -> bool {
        self.bytes().len() * 2 >= self.spec_len()
    }

    /// Builds a store of `len` slots over `data`. The buffer must have room
    /// for all slots; a caller unsure of that uses [`Nibbles::try_new`].
    pub fn new(data: Vec<u8>, len: usize) -> (r: Self)
        requires
            data@.len() * 2 >= len,
        ensures
            r.wf(),
            r.bytes() == data@,
            r.spec_len() == len,
    {
        Nibbles { data, len, marker: PhantomData }
    }

    /// Builds a store of `len` slots over `data`, or reports that the buffer
    /// is too small: construction succeeds exactly when the buffer holds at
    /// least `len` nibbles.
    pub fn try_new(data: Vec<u8>, len: usize) -> (r: Option<Self>)
        ensures
            r is Some <==> data@.len() * 2 >= len,
            r matches Some(n) ==> n.wf() && n.bytes() == data@ && n.spec_len() == len,
    {
        let needed = underlying_data_len(len);
        if data.len() >= needed {
            assert(data@.len() * 2 >= len);
            Some(Nibbles { data, len, marker: PhantomData })
        } else {
            assert(!(data@.len() * 2 >= len));
            None
        }
    }

    /// The number of logical slots.
    pub fn len(&self) -> (r: usize)
        ensures
            r == self.spec_len(),
    {
        self.len
    }

    /// Reads the value at `index`. The stored nibble must be a valid code;
    /// the store guarantees that for every slot written through
    /// [`Nibbles::set`], and a zeroed fresh buffer stores code 0 everywhere.
    pub fn get(&self, index: usize) -> (r: E)
        requires
            self.wf(),
            index < self.spec_len(),
            E::valid_code(self@[index as int]),
        ensures
            r == E::from_code_spec(self@[index as int]),
            r.code_spec() == self@[index as int],
    {
        let left = index % 2 == 0;
        let pair = self.data[index / 2];
        let nib = if left {
            pair >> 4u8
        } else {
            pair & 0x0Fu8
        };
        assert(nib == self@[index as int]);
        E::from_code(nib)
    }

    /// Stores `value` at `index`, leaving the other half of the byte and
    /// every other slot untouched.
    pub fn set(&mut self, index: usize, value: E)
        requires
            old(self).wf(),
            index < old(self).spec_len(),
        ensures
            final(self).wf(),
            final(self).spec_len() == old(self).spec_len(),
            final(self)@ == old(self)@.update(index as int, value.code_spec()),
            final(self).bytes() == old(self).bytes().update(
                index as int / 2,
                if index % 2 == 0 {
                    (old(self).bytes()[index as int / 2] & 0x0F) | (value.code_spec() << 4u8)
                } else {
                    (old(self).bytes()[index as int / 2] & 0xF0) | (value.code_spec() & 0x0F)
                },
            ),
    {
        proof {
            value.lemma_code_valid();
        }
        let left = index % 2 == 0;
        let code = value.to_code();
        let pair = self.data[index / 2];
        let updated = if left {
            (pair & 0x0F) | (code << 4u8)
        } else {
            (pair & 0xF0) | (code & 0x0F)
        };
        self.data[index / 2] = updated;
        proof {
            lemma_nibble_write(old(self).bytes(), index as int, code, self.bytes());
            assert forall|j: int| 0 <= j < self@.len()
                implies self@[j] == old(self)@.update(index as int, value.code_spec())[j] by {
                if j != index {
                    assert(j / 2 < self.bytes().len());
                    assert(nibble_at(self.bytes(), j) == nibble_at(old(self).bytes(), j));
                }
            }
            assert(self@ =~= old(self)@.update(index as int, value.code_spec()));
        }
    }

    /// Fills the slots from index 0 with the given values, in order: slot
    /// `i` receives `values[i]`. A source shorter than the store fills only
    /// a prefix; the remaining slots keep their prior codes.
    pub fn fill_prefix(&mut self, values: &Vec<E>)
        requires
            old(self).wf(),
        ensures
            final(self).wf(),
            final(self).spec_len() == old(self).spec_len(),
            forall|i: int| 0 <= i < old(self)@.len() ==> final(self)@[i] == (
                if i < values@.len() {
                    values@[i].code_spec()
                } else {
                    old(self)@[i]
                }),
    {
        let len = self.len();
        let mut index: usize = 0;
        while index < len && index < values.len()
            invariant
                self.wf(),
                len == self.spec_len(),
                len == old(self).spec_len(),
                index <= len,
                index <= values@.len(),
                forall|i: int| 0 <= i < len ==> self@[i] == (
                    if i < index {
                        values@[i].code_spec()
                    } else {
                        old(self)@[i]
                    }),
            decreases len - index,
        {
            self.set(index, values[index]);
            index = index + 1;
        }
    }

    /// Fills the rectangle with corners `(horizontal.0, vertical.0)` and
    /// `(horizontal.1, vertical.1)`, both inclusive, of a row-major grid of
    /// the given width, from the given values: the vertical range outer,
    /// the horizontal range inner, so the source is consumed in row-major
    /// order. A source shorter than the rectangle fills only a prefix of
    /// that order; every slot outside the rectangle keeps its prior code.
    pub fn fill_rect(
        &mut self,
        values: &Vec<E>,
        width: u16,
        horizontal: (u16, u16),
        vertical: (u16, u16),
    )
        requires
            old(self).wf(),
            horizontal.1 < width,
            (vertical.1 as int) * width + horizontal.1 < old(self).spec_len(),
        ensures
            final(self).wf(),
            final(self).spec_len() == old(self).spec_len(),
            forall|i: int| 0 <= i < old(self)@.len() ==> final(self)@[i] == painted_value(
                old(self)@,
                values@,
                width as int,
                horizontal,
                vertical,
                values@.len() as int,
                i,
            ),
    {
        let (x0, x1) = horizontal;
        let (y0, y1) = vertical;
        if x1 < x0 || y1 < y0 {
            return ;
        }
        let w = width as usize;
        let rect_w = (x1 - x0) as usize + 1;
        let rect_h = (y1 - y0) as usize + 1;
        let ghost flen = self@.len() as int;
        let mut k: usize = 0;
        while k < values.len() && k / rect_w < rect_h
            invariant
                self.wf(),
                flen == self@.len(),
                flen == old(self)@.len(),
                w == width,
                (x0, x1) == horizontal,
                (y0, y1) == vertical,
                x0 <= x1 < width,
                y0 <= y1,
                (y1 as int) * width + x1 < flen,
                rect_w == x1 - x0 + 1,
                rect_h == y1 - y0 + 1,
                k <= values@.len(),
                k <= rect_w * rect_h,
                forall|i: int| 0 <= i < flen ==> self@[i] == painted_value(
                    old(self)@,
                    values@,
                    width as int,
                    horizontal,
                    vertical,
                    k as int,
                    i,
                ),
            decreases values@.len() - k,
        {
            let dx = k % rect_w;
            let dy = k / rect_w;
            proof {
                assert(k < (k / rect_w) * rect_w + rect_w) by {
                    vstd::arithmetic::div_mod::lemma_fundamental_div_mod(k as int, rect_w as int);
                    vstd::arithmetic::div_mod::lemma_mod_bound(k as int, rect_w as int);
                }
                assert(k < rect_w * rect_h) by (nonlinear_arith)
                    requires
                        rect_w > 0,
                        k / rect_w < rect_h,
                        k >= 0,
                        k < (k / rect_w) * rect_w + rect_w,
                ;
                assert((y0 + dy) * width + x0 + dx < flen && (y0 + dy) * width + x0 + dx <= 65535
                    * 65535 + 65535) by (nonlinear_arith)
                    requires
                        y0 + dy <= y1,
                        x0 + dx <= x1 < width,
                        width <= 65535,
                        y1 < 65536,
                        (y1 as int) * width + x1 < flen,
                ;
            }
            let x = (x0 as usize) + dx;
            let y = (y0 as usize) + dy;
            let index = y * w + x;
            let ghost cur = self@;
            self.set(index, values[k]);
            proof {
                lemma_paint_step(
                    old(self)@,
                    values@,
                    width as int,
                    horizontal,
                    vertical,
                    k as int,
                    index as int,
                    flen,
                    cur,
                    self@,
                );
            }
            k = k + 1;
        }
        proof {
            assert forall|i: int| 0 <= i < flen implies self@[i] == painted_value(
                old(self)@,
                values@,
                width as int,
                horizontal,
                vertical,
                values@.len() as int,
                i,
            ) by {
                let wd = width as int;
                let xi = i % wd;
                let yi = i / wd;
                let pos = (yi - y0) * (x1 - x0 + 1) + (xi - x0);
                if x0 <= xi <= x1 && y0 <= yi <= y1 {
                    assert(pos < rect_w * rect_h) by (nonlinear_arith)
                        requires
                            pos == (yi - y0) * (x1 - x0 + 1) + (xi - x0),
                            x0 <= xi <= x1,
                            y0 <= yi <= y1,
                            rect_w == x1 - x0 + 1,
                            rect_h == y1 - y0 + 1,
                    ;
                    if k < values@.len() {
                        assert(k / rect_w >= rect_h);
                        assert(k >= (k / rect_w) * rect_w) by {
                            vstd::arithmetic::div_mod::lemma_fundamental_div_mod(
                                k as int,
                                rect_w as int,
                            );
                            vstd::arithmetic::div_mod::lemma_mod_bound(k as int, rect_w as int);
                        }
                        assert(k >= rect_w * rect_h) by (nonlinear_arith)
                            requires
                                rect_w > 0,
                                k / rect_w >= rect_h,
                                k >= (k / rect_w) * rect_w,
                        ;
                    }
                }
            }
        }
    }

    /// The backing buffer, unused tail included.
    pub fn as_underlying_data(&self) -> (r: &Vec<u8>)
        ensures
            r@ == self.bytes(),
    {
        &self.data
    }

    /// Starts a fresh traversal at index 0. Traversing never mutates the
    /// store, so a second traversal yields the same sequence again.
    pub fn iter(&self) -> (r: NibblesIterator<E>)
        ensures
            r.store() == self@,
            r.pos() == 0,
            r.wf() <== self.wf() && (forall|i: int|
                0 <= i < self@.len() ==> E::valid_code(#[trigger] self@[i])),
    {
        NibblesIterator { nibbles: self, index: 0 }
    }

    /// Reads the whole store in ascending index order: the result has
    /// exactly one item per slot, the item at position `i` holding the code
    /// of slot `i`.
    pub fn to_vec(&self) -> (r: Vec<E>)
        requires
            self.wf(),
            forall|i: int| 0 <= i < self@.len() ==> E::valid_code(#[trigger] self@[i]),
        ensures
            r@.len() == self@.len(),
            forall|i: int| 0 <= i < r@.len() ==> (#[trigger] r@[i]) == E::from_code_spec(self@[i]),
    {
        let mut out: Vec<E> = Vec::new();
        let mut it = self.iter();
        loop
            invariant
                it.wf(),
                it.store() == self@,
                it.pos() == out@.len(),
                it.pos() <= self@.len(),
                forall|i: int| 0 <= i < out@.len() ==> (#[trigger] out@[i]) == E::from_code_spec(self@[i]),
            decreases self@.len() - it.pos(),
        {
            match it.next() {
                Some(v) => out.push(v),
                None => {
                    return out;
                },
            }
        }
    }
}

/// The code slot `i` holds after the first `limit` values of a row-major
/// rectangle fill over a grid of the given width: the value at the slot's
/// position in that order if the slot lies in the rectangle and the source
/// reaches it, else its prior code.
pub open spec fn painted_value<E: NibbleCode>(
    frame0: Seq<Nibble>,
    values: Seq<E>,
    width: int,
    horizontal: (u16, u16),
    vertical: (u16, u16),
    limit: int,
    i: int,
) -> Nibble {
    let x = i % width;
    let y = i / width;
    let pos = (y - vertical.0) * (horizontal.1 - horizontal.0 + 1) + (x - horizontal.0);
    if horizontal.0 <= x <= horizontal.1 && vertical.0 <= y <= vertical.1 && 0 <= pos < limit
        && pos < values.len() {
        values[pos].code_spec()
    } else {
        frame0[i]
    }
}

/// One write of a row-major rectangle fill: storing value `k` at its
/// rectangle position advances the painted prefix from `k` to `k + 1`
/// values and touches no other slot.
proof fn lemma_paint_step<E: NibbleCode>(
    frame0: Seq<Nibble>,
    values: Seq<E>,
    width: int,
    horizontal: (u16, u16),
    vertical: (u16, u16),
    k: int,
    index: int,
    flen: int,
    cur: Seq<Nibble>,
    nxt: Seq<Nibble>,
)
    requires
        horizontal.0 <= horizontal.1 < width,
        vertical.0 <= vertical.1,
        0 <= k < values.len(),
        k < (horizontal.1 - horizontal.0 + 1) * (vertical.1 - vertical.0 + 1),
        index == (vertical.0 + k / (horizontal.1 - horizontal.0 + 1)) * width + horizontal.0 + k
            % (horizontal.1 - horizontal.0 + 1),
        frame0.len() == flen,
        cur.len() == flen,
        0 <= index < flen,
        forall|i: int| 0 <= i < flen ==> cur[i] == painted_value(
            frame0,
            values,
            width,
            horizontal,
            vertical,
            k,
            i,
        ),
        nxt == cur.update(index, values[k].code_spec()),
    ensures
        forall|i: int| 0 <= i < flen ==> nxt[i] == painted_value(
            frame0,
            values,
            width,
            horizontal,
            vertical,
            k + 1,
            i,
        ),
{
    let x0 = horizontal.0 as int;
    let x1 = horizontal.1 as int;
    let y0 = vertical.0 as int;
    let y1 = vertical.1 as int;
    let w = x1 - x0 + 1;
    let dx = k % w;
    let dy = k / w;
    let x = x0 + dx;
    let y = y0 + dy;
    vstd::arithmetic::div_mod::lemma_fundamental_div_mod(k, w);
    vstd::arithmetic::div_mod::lemma_multiply_divide_lt(k, w, y1 - y0 + 1);
    assert(0 <= dx < w);
    assert(0 <= dy <= y1 - y0);
    assert(index == y * width + x);
    vstd::arithmetic::div_mod::lemma_fundamental_div_mod_converse(index, width, y, x);
    assert(index % width == x && index / width == y);
    assert forall|i: int| 0 <= i < flen implies nxt[i] == painted_value(
        frame0,
        values,
        width,
        horizontal,
        vertical,
        k + 1,
        i,
    ) by {
        let xi = i % width;
        let yi = i / width;
        let pos = (yi - y0) * w + (xi - x0);
        vstd::arithmetic::div_mod::lemma_fundamental_div_mod(i, width);
        if i == index {
            assert(pos == dy * w + dx);
            assert(pos == k);
        } else {
            if x0 <= xi <= x1 && y0 <= yi <= y1 && pos == k {
                vstd::arithmetic::div_mod::lemma_fundamental_div_mod_converse(
                    k,
                    w,
                    yi - y0,
                    xi - x0,
                );
                assert(yi - y0 == dy && xi - x0 == dx);
                assert(i == yi * width + xi);
                assert(false);
            }
        }
    }
}

/// A full traversal of a store yields exactly one item per slot, in
/// ascending index order, and is repeatable: any two read-outs that each
/// unpack the store slot for slot — as [`Nibbles::to_vec`] and a run of
/// [`NibblesIterator::next`] to exhaustion do — are the same sequence.
pub proof fn lemma_traversal_repeatable<E: NibbleCode>(
    store: Seq<Nibble>,
    first: Seq<E>,
    second: Seq<E>,
)
    requires
        first.len() == store.len(),
        second.len() == store.len(),
        forall|i: int| 0 <= i < store.len() ==> #[trigger] first[i] == E::from_code_spec(store[i]),
        forall|i: int| 0 <= i < store.len() ==> #[trigger] second[i] == E::from_code_spec(store[i]),
    ensures
        first == second,
{
    assert(first =~= second);
}

/// How one nibble write changes the byte sequence: the written slot holds
/// the new code, every other slot of every byte is as it was.
pub(crate) proof fn lemma_nibble_write(bytes0: Seq<u8>, index: int, code: u8, bytes1: Seq<u8>)
    requires
        code < 16,
        0 <= index,
        index / 2 < bytes0.len(),
        bytes1 == bytes0.update(
            index / 2,
            if index % 2 == 0 {
                (bytes0[index / 2] & 0x0F) | (code << 4u8)
            } else {
                (bytes0[index / 2] & 0xF0) | (code & 0x0F)
            },
        ),
    ensures
        nibble_at(bytes1, index) == code,
        forall|j: int| 0 <= j && j != index && j / 2 < bytes1.len()
            ==> #[trigger] nibble_at(bytes1, j) == nibble_at(bytes0, j),
{
    let pair = bytes0[index / 2];
    if index % 2 == 0 {
        let updated = (pair & 0x0F) | (code << 4u8);
        assert(updated >> 4u8 == code) by (bit_vector)
            requires
                code < 16,
                updated == (pair & 0x0F) | (code << 4u8),
        ;
        assert(updated & 0x0Fu8 == pair & 0x0Fu8) by (bit_vector)
            requires
                updated == (pair & 0x0F) | (code << 4u8),
        ;
    } else {
        let updated = (pair & 0xF0) | (code & 0x0F);
        assert(updated & 0x0Fu8 == code) by (bit_vector)
            requires
                code < 16,
                updated == (pair & 0xF0) | (code & 0x0F),
        ;
        assert(updated >> 4u8 == pair >> 4u8) by (bit_vector)
            requires
                updated == (pair & 0xF0) | (code & 0x0F),
        ;
    }
    assert forall|j: int| 0 <= j && j != index && j / 2 < bytes1.len()
        implies #[trigger] nibble_at(bytes1, j) == nibble_at(bytes0, j) by {
        if j / 2 == index / 2 {
            assert(j == 2 * (j / 2) + j % 2);
            assert(index == 2 * (index / 2) + index % 2);
            assert(j % 2 != index % 2);
        } else {
            assert(bytes1[j / 2] == bytes0[j / 2]);
        }
    }
}

impl<E: NibbleCode> View for Nibbles<E> {
    type V = Seq<Nibble>;

    open spec fn view(&self) -> Seq<Nibble> {
        Seq::new(self.spec_len(), |i: int| nibble_at(self.bytes(), i))
    }
}

/// A cursor over a [`Nibbles`] store, yielding the stored values in
/// ascending index order.
pub struct NibblesIterator<'a, E: NibbleCode> {
    nibbles: &'a Nibbles<E>,
    index: usize,
}

impl<'a, E: NibbleCode> NibblesIterator<'a, E> {
    /// The sequence being traversed.
    pub closed spec fn store(&self) -> Seq<Nibble> {
        self.nibbles@
    }

    /// The index the next read will come from.
    pub closed spec fn pos(&self) -> nat {
        self.index as nat
    }

    /// The traversed store is well formed and decodable throughout.
    pub closed spec fn wf(&self) -> bool {
        self.nibbles.wf() && forall|i: int|
            0 <= i < self.nibbles@.len() ==> E::valid_code(#[trigger] self.nibbles@[i])
    }

    /// Yields the value at the current index and advances, or reports the
    /// end of the store. The store itself never changes.
    pub fn next(&mut self) -> (r: Option<E>)
        requires
            old(self).wf(),
        ensures
            final(self).wf(),
            final(self).store() == old(self).store(),
            old(self).pos() < old(self).store().len() ==> {
                &&& final(self).pos() == old(self).pos() + 1
                &&& r == Some(E::from_code_spec(old(self).store()[old(self).pos() as int]))
            },
            old(self).pos() >= old(self).store().len() ==> {
                &&& final(self).pos() == old(self).pos()
                &&& r is None
            },
    {
        if self.index < self.nibbles.len() {
            let result = Some(self.nibbles.get(self.index));
            self.index = self.index + 1;
            result
        } else {
            None
        }
    }
}

} // verus!

//! The canonical byte encoding from which object identity is derived.
//!
//! Every value of the object model has one encoding, a byte string that a
//! backend may feed to whatever digest it uses. Integers are written in
//! little-endian order with a fixed width, a sequence is written as its length
//! in eight bytes followed by its items, and a variant is written as a tag
//! followed by its fields. `hash` appends the encoding of a value to a buffer.

use vstd::prelude::*;
use vstd::utf8::{decode_utf8, encode_utf8, encode_utf8_decode_utf8};

verus! {

/// The `width` low-order bytes of `value`, lowest first.
pub open spec fn le_bytes(value: nat, width: nat) -> Seq<u8>
    decreases width,
{
    if width == 0 {
        Seq::empty()
    } else {
        seq![(value % 256) as u8] + le_bytes(value / 256, (width - 1) as nat)
    }
}

/// The number below 2^32 that has the bit pattern of `value`.
pub open spec fn unsigned_32(value: i32) -> nat {
    if value >= 0 {
        value as nat
    } else {
        (value + 0x1_0000_0000) as nat
    }
}

/// The number below 2^64 that has the bit pattern of `value`.
pub open spec fn unsigned_64(value: i64) -> nat {
    if value >= 0 {
        value as nat
    } else {
        (value + 0x1_0000_0000_0000_0000) as nat
    }
}

/// A byte string written as its length in eight bytes, then its bytes.
pub open spec fn sized_bytes(data: Seq<u8>) -> Seq<u8> {
    le_bytes(data.len(), 8) + data
}

/// The encodings of `items`, one after the other.
pub open spec fn joined_bytes<T: ContentHash>(items: Seq<T>) -> Seq<u8>
    decreases items.len(),
{
    if items.len() == 0 {
        Seq::empty()
    } else {
        joined_bytes(items.drop_last()) + items.last().content_bytes()
    }
}

/// Whether a length can be written in eight bytes.
pub open spec fn fits_u64(len: nat) -> bool {
    len <= u64::MAX
}

/// A value with a canonical byte encoding.
pub trait ContentHash {
    /// The encoding of this value.
    spec fn content_bytes(&self) -> Seq<u8>;

    /// Whether every length that the encoding writes can be written in eight
    /// bytes. This holds of every value in memory, as `hash` confirms.
    spec fn fits(&self) -> bool;

    /// Appends the encoding of this value to `state`.
    fn hash(&self, state: &mut Vec<u8>)
        ensures
            final(state)@ == old(state)@ + self.content_bytes(),
            self.fits(),
    ;
}

/// `le_bytes` has the width it was asked for.
pub proof fn lemma_le_bytes_len(value: nat, width: nat)
    ensures
        le_bytes(value, width).len() == width,
    decreases width,
{
    if width > 0 {
        lemma_le_bytes_len(value / 256, (width - 1) as nat);
    }
}

/// Appends `value` in four bytes, lowest first.
pub fn put_u32(state: &mut Vec<u8>, value: u32)
    ensures
        final(state)@ == old(state)@ + le_bytes(value as nat, 4),
{
    let mut rest: u32 = value;
    let mut i: usize = 0;
    while i < 4
        invariant
            0 <= i <= 4,
            old(state)@ + le_bytes(value as nat, 4) == state@ + le_bytes(
                rest as nat,
                (4 - i) as nat,
            ),
        decreases 4 - i,
    {
        let ghost before = state@;
        state.push((rest % 256) as u8);
        assert(state@ + le_bytes((rest / 256) as nat, (4 - i - 1) as nat) =~= before + le_bytes(
            rest as nat,
            (4 - i) as nat,
        ));
        rest = rest / 256;
        i += 1;
    }
    assert(state@ + le_bytes(rest as nat, 0) =~= state@);
}

/// Appends `value` in eight bytes, lowest first.
pub fn put_u64(state: &mut Vec<u8>, value: u64)
    ensures
        final(state)@ == old(state)@ + le_bytes(value as nat, 8),
{
    let mut rest: u64 = value;
    let mut i: usize = 0;
    while i < 8
        invariant
            0 <= i <= 8,
            old(state)@ + le_bytes(value as nat, 8) == state@ + le_bytes(
                rest as nat,
                (8 - i) as nat,
            ),
        decreases 8 - i,
    {
        let ghost before = state@;
        state.push((rest % 256) as u8);
        assert(state@ + le_bytes((rest / 256) as nat, (8 - i - 1) as nat) =~= before + le_bytes(
            rest as nat,
            (8 - i) as nat,
        ));
        rest = rest / 256;
        i += 1;
    }
    assert(state@ + le_bytes(rest as nat, 0) =~= state@);
}

/// Appends a byte string: its length in eight bytes, then its bytes.
pub fn put_bytes(state: &mut Vec<u8>, data: &[u8])
    ensures
        final(state)@ == old(state)@ + sized_bytes(data@),
        fits_u64(data@.len()),
{
    put_u64(state, data.len() as u64);
    let ghost start = state@;
    let mut i: usize = 0;
    while i < data.len()
        invariant
            0 <= i <= data@.len(),
            state@ == start + data@.subrange(0, i as int),
        decreases data@.len() - i,
    {
        state.push(data[i]);
        assert(state@ =~= start + data@.subrange(0, i + 1));
        i += 1;
    }
    assert(data@.subrange(0, i as int) =~= data@);
    assert(state@ =~= old(state)@ + sized_bytes(data@));
}

impl ContentHash for u8 {
    open spec fn content_bytes(&self) -> Seq<u8> {
        seq![*self]
    }

    open spec fn fits(&self) -> bool {
        true
    }

    fn hash(&self, state: &mut Vec<u8>) {
        state.push(*self);
        assert(state@ =~= old(state)@ + seq![*self]);
    }
}

impl ContentHash for bool {
    open spec fn content_bytes(&self) -> Seq<u8> {
        seq![if *self { 1u8 } else { 0u8 }]
    }

    open spec fn fits(&self) -> bool {
        true
    }

    fn hash(&self, state: &mut Vec<u8>) {
        let byte: u8 = if *self { 1 } else { 0 };
        state.push(byte);
        assert(state@ =~= old(state)@ + seq![byte]);
    }
}

impl ContentHash for i32 {
    open spec fn content_bytes(&self) -> Seq<u8> {
        le_bytes(unsigned_32(*self), 4)
    }

    open spec fn fits(&self) -> bool {
        true
    }

    fn hash(&self, state: &mut Vec<u8>) {
        let value: i32 = *self;
        let pattern: u32 = if value >= 0 {
            value as u32
        } else {
            ((value + i32::MAX) + 1) as u32 + 0x8000_0000u32
        };
        assert(pattern as nat == unsigned_32(value));
        put_u32(state, pattern);
        assert(le_bytes(pattern as nat, 4) == self.content_bytes());
        assert(self.fits());
    }
}

impl ContentHash for i64 {
    open spec fn content_bytes(&self) -> Seq<u8> {
        le_bytes(unsigned_64(*self), 8)
    }

    open spec fn fits(&self) -> bool {
        true
    }

    fn hash(&self, state: &mut Vec<u8>) {
        let value: i64 = *self;
        let pattern: u64 = if value >= 0 {
            value as u64
        } else {
            ((value + i64::MAX) + 1) as u64 + 0x8000_0000_0000_0000u64
        };
        assert(pattern as nat == unsigned_64(value));
        put_u64(state, pattern);
        assert(le_bytes(pattern as nat, 8) == self.content_bytes());
        assert(self.fits());
    }
}

impl ContentHash for String {
    open spec fn content_bytes(&self) -> Seq<u8> {
        sized_bytes(encode_utf8(self@))
    }

    open spec fn fits(&self) -> bool {
        fits_u64(encode_utf8(self@).len())
    }

    fn hash(&self, state: &mut Vec<u8>) {
        put_bytes(state, self.as_str().as_bytes());
    }
}

impl<T: ContentHash> ContentHash for Vec<T> {
    open spec fn content_bytes(&self) -> Seq<u8> {
        le_bytes(self@.len(), 8) + joined_bytes(self@)
    }

    open spec fn fits(&self) -> bool {
        &&& fits_u64(self@.len())
        &&& forall|i: int| 0 <= i < self@.len() ==> (#[trigger] self@[i]).fits()
    }

    fn hash(&self, state: &mut Vec<u8>) {
        put_u64(state, self.len() as u64);
        let ghost start = state@;
        let mut i: usize = 0;
        while i < self.len()
            invariant
                0 <= i <= self@.len(),
                state@ == start + joined_bytes(self@.subrange(0, i as int)),
                forall|k: int| 0 <= k < i ==> (#[trigger] self@[k]).fits(),
            decreases self@.len() - i,
        {
            self[i].hash(state);
            proof {
                let next = self@.subrange(0, i + 1);
                assert(next.drop_last() =~= self@.subrange(0, i as int));
                assert(next.last() == self@[i as int]);
                assert(state@ =~= start + joined_bytes(next));
            }
            i += 1;
        }
        assert(self@.subrange(0, i as int) =~= self@);
        assert(state@ =~= old(state)@ + self.content_bytes());
    }
}

impl<T: ContentHash> ContentHash for Option<T> {
    open spec fn content_bytes(&self) -> Seq<u8> {
        match self {
            None => le_bytes(0, 4),
            Some(value) => le_bytes(1, 4) + value.content_bytes(),
        }
    }

    open spec fn fits(&self) -> bool {
        self matches Some(value) ==> value.fits()
    }

    fn hash(&self, state: &mut Vec<u8>) {
        match self {
            None => {
                put_u32(state, 0);
            },
            Some(value) => {
                put_u32(state, 1);
                value.hash(state);
                assert(state@ =~= old(state)@ + self.content_bytes());
            },
        }
    }
}

/// 256 to the power of `width`: the number of values that `width` bytes can
/// tell apart.
pub open spec fn radix_power(width: nat) -> nat
    decreases width,
{
    if width == 0 {
        1
    } else {
        256 * radix_power((width - 1) as nat)
    }
}

/// Four bytes tell apart the values of a `u32`, eight those of a `u64`.
pub proof fn lemma_radix_power_values()
    ensures
        radix_power(4) == 0x1_0000_0000,
        radix_power(8) == 0x1_0000_0000_0000_0000,
{
    reveal_with_fuel(radix_power, 9);
}

/// If two byte strings fall into the same two pieces when they are cut at the
/// same place, their pieces are the same.
pub proof fn lemma_seq_cut(p: Seq<u8>, x: Seq<u8>, q: Seq<u8>, y: Seq<u8>)
    requires
        p + x == q + y,
        p.len() == q.len(),
    ensures
        p == q,
        x == y,
{
    let n = p.len() as int;
    assert(p =~= (p + x).subrange(0, n));
    assert(q =~= (q + y).subrange(0, n));
    assert(x =~= (p + x).subrange(n, (p + x).len() as int));
    assert(y =~= (q + y).subrange(n, (q + y).len() as int));
}

/// Joining byte strings does not depend on where one starts.
pub proof fn lemma_join_assoc(p: Seq<u8>, q: Seq<u8>, r: Seq<u8>)
    ensures
        (p + q) + r == p + (q + r),
{
    assert((p + q) + r =~= p + (q + r));
}

/// Numbers that fit the width have different bytes.
pub proof fn lemma_le_bytes_unique(a: nat, b: nat, width: nat)
    requires
        a < radix_power(width),
        b < radix_power(width),
        le_bytes(a, width) == le_bytes(b, width),
    ensures
        a == b,
    decreases width,
{
    if width > 0 {
        let rest = (width - 1) as nat;
        let first_a = seq![(a % 256) as u8];
        let first_b = seq![(b % 256) as u8];
        lemma_seq_cut(first_a, le_bytes(a / 256, rest), first_b, le_bytes(b / 256, rest));
        assert(first_a[0] == first_b[0]);
        lemma_le_bytes_unique(a / 256, b / 256, rest);
    }
}

/// A sized byte string says where it ends: if two of them are followed by
/// anything and the wholes are the same, the byte strings are the same and
/// so is what follows.
pub proof fn lemma_sized_bytes_cut(a: Seq<u8>, x: Seq<u8>, b: Seq<u8>, y: Seq<u8>)
    requires
        fits_u64(a.len()),
        fits_u64(b.len()),
        sized_bytes(a) + x == sized_bytes(b) + y,
    ensures
        a == b,
        x == y,
{
    lemma_radix_power_values();
    lemma_le_bytes_len(a.len(), 8);
    lemma_le_bytes_len(b.len(), 8);
    assert(sized_bytes(a) + x =~= le_bytes(a.len(), 8) + (a + x));
    assert(sized_bytes(b) + y =~= le_bytes(b.len(), 8) + (b + y));
    lemma_seq_cut(le_bytes(a.len(), 8), a + x, le_bytes(b.len(), 8), b + y);
    lemma_le_bytes_unique(a.len(), b.len(), 8);
    lemma_seq_cut(a, x, b, y);
}

/// A value whose encoding can be told from every other and says where it
/// ends: no two values of the type with different content have the same
/// encoding, and none has an encoding that another one's starts with.
pub trait SelfDelimiting: ContentHash {
    /// Whether this value and `other` have the same content: all that the
    /// encoding writes down.
    spec fn same_content(&self, other: &Self) -> bool;

    /// If the encodings of two values are followed by anything and the wholes
    /// are the same, the values have the same content and what follows is
    /// the same.
    proof fn lemma_cut(a: &Self, x: Seq<u8>, b: &Self, y: Seq<u8>)
        requires
            a.fits(),
            b.fits(),
            a.content_bytes() + x == b.content_bytes() + y,
        ensures
            a.same_content(b),
            x == y,
    ;
}

/// Values with the same encoding have the same content.
pub proof fn lemma_content_bytes_unique<T: SelfDelimiting>(a: &T, b: &T)
    requires
        a.fits(),
        b.fits(),
        a.content_bytes() == b.content_bytes(),
    ensures
        a.same_content(b),
{
    T::lemma_cut(a, Seq::empty(), b, Seq::empty());
}

/// The UTF-8 form of a text belongs to that text alone.
pub proof fn lemma_utf8_unique(a: Seq<char>, b: Seq<char>)
    requires
        encode_utf8(a) == encode_utf8(b),
    ensures
        a == b,
{
    encode_utf8_decode_utf8(a);
    encode_utf8_decode_utf8(b);
    assert(decode_utf8(encode_utf8(a)) == a);
    assert(decode_utf8(encode_utf8(b)) == b);
}

/// The joined encodings of some items are that of the first, then those of
/// the rest.
pub proof fn lemma_joined_bytes_front<T: ContentHash>(items: Seq<T>)
    requires
        items.len() > 0,
    ensures
        joined_bytes(items) == items[0].content_bytes() + joined_bytes(items.drop_first()),
    decreases items.len(),
{
    let rest = items.drop_first();
    if items.len() == 1 {
        assert(items.drop_last() =~= Seq::<T>::empty());
        assert(rest =~= Seq::<T>::empty());
        assert(joined_bytes(items) =~= items[0].content_bytes() + joined_bytes(rest));
    } else {
        let front = items.drop_last();
        lemma_joined_bytes_front(front);
        assert(front.drop_first() =~= rest.drop_last());
        assert(front[0] == items[0]);
        assert(rest.last() == items.last());
        assert(joined_bytes(items) =~= items[0].content_bytes() + joined_bytes(rest));
    }
}

/// Equally many items whose joined encodings, followed by anything, are the
/// same have the same content one by one, and what follows is the same.
pub proof fn lemma_joined_bytes_cut<T: SelfDelimiting>(
    a: Seq<T>,
    x: Seq<u8>,
    b: Seq<T>,
    y: Seq<u8>,
)
    requires
        a.len() == b.len(),
        forall|i: int| 0 <= i < a.len() ==> (#[trigger] a[i]).fits(),
        forall|i: int| 0 <= i < b.len() ==> (#[trigger] b[i]).fits(),
        joined_bytes(a) + x == joined_bytes(b) + y,
    ensures
        forall|i: int| 0 <= i < a.len() ==> (#[trigger] a[i]).same_content(&b[i]),
        x == y,
    decreases a.len(),
{
    if a.len() == 0 {
        assert(joined_bytes(a) + x =~= x);
        assert(joined_bytes(b) + y =~= y);
    } else {
        lemma_joined_bytes_front(a);
        lemma_joined_bytes_front(b);
        let rest_a = joined_bytes(a.drop_first()) + x;
        let rest_b = joined_bytes(b.drop_first()) + y;
        assert(joined_bytes(a) + x =~= a[0].content_bytes() + rest_a);
        assert(joined_bytes(b) + y =~= b[0].content_bytes() + rest_b);
        T::lemma_cut(&a[0], rest_a, &b[0], rest_b);
        let tail_a = a.drop_first();
        let tail_b = b.drop_first();
        assert forall|i: int| 0 <= i < tail_a.len() implies (#[trigger] tail_a[i]).fits() by {
            assert(tail_a[i] == a[i + 1]);
        }
        assert forall|i: int| 0 <= i < tail_b.len() implies (#[trigger] tail_b[i]).fits() by {
            assert(tail_b[i] == b[i + 1]);
        }
        lemma_joined_bytes_cut(a.drop_first(), x, b.drop_first(), y);
        assert forall|i: int| 0 <= i < a.len() implies (#[trigger] a[i]).same_content(&b[i]) by {
            if i > 0 {
                assert(a[i] == a.drop_first()[i - 1]);
                assert(b[i] == b.drop_first()[i - 1]);
            }
        }
    }
}

impl SelfDelimiting for u8 {
    open spec fn same_content(&self, other: &Self) -> bool {
        *self == *other
    }

    proof fn lemma_cut(a: &Self, x: Seq<u8>, b: &Self, y: Seq<u8>) {
        lemma_seq_cut(a.content_bytes(), x, b.content_bytes(), y);
        assert(a.content_bytes()[0] == b.content_bytes()[0]);
        assert(a.same_content(b));
    }
}

impl SelfDelimiting for bool {
    open spec fn same_content(&self, other: &Self) -> bool {
        *self == *other
    }

    proof fn lemma_cut(a: &Self, x: Seq<u8>, b: &Self, y: Seq<u8>) {
        lemma_seq_cut(a.content_bytes(), x, b.content_bytes(), y);
        assert(a.content_bytes()[0] == b.content_bytes()[0]);
        assert(a.same_content(b));
    }
}

impl SelfDelimiting for i32 {
    open spec fn same_content(&self, other: &Self) -> bool {
        *self == *other
    }

    proof fn lemma_cut(a: &Self, x: Seq<u8>, b: &Self, y: Seq<u8>) {
        lemma_radix_power_values();
        lemma_le_bytes_len(unsigned_32(*a), 4);
        lemma_le_bytes_len(unsigned_32(*b), 4);
        lemma_seq_cut(a.content_bytes(), x, b.content_bytes(), y);
        lemma_le_bytes_unique(unsigned_32(*a), unsigned_32(*b), 4);
        assert(a.same_content(b));
    }
}

impl SelfDelimiting for i64 {
    open spec fn same_content(&self, other: &Self) -> bool {
        *self == *other
    }

    proof fn lemma_cut(a: &Self, x: Seq<u8>, b: &Self, y: Seq<u8>) {
        lemma_radix_power_values();
        lemma_le_bytes_len(unsigned_64(*a), 8);
        lemma_le_bytes_len(unsigned_64(*b), 8);
        lemma_seq_cut(a.content_bytes(), x, b.content_bytes(), y);
        lemma_le_bytes_unique(unsigned_64(*a), unsigned_64(*b), 8);
        assert(a.same_content(b));
    }
}

impl SelfDelimiting for String {
    open spec fn same_content(&self, other: &Self) -> bool {
        self@ == other@
    }

    proof fn lemma_cut(a: &Self, x: Seq<u8>, b: &Self, y: Seq<u8>) {
        lemma_sized_bytes_cut(encode_utf8(a@), x, encode_utf8(b@), y);
        lemma_utf8_unique(a@, b@);
        assert(a.same_content(b));
    }
}

impl<T: SelfDelimiting> SelfDelimiting for Vec<T> {
    open spec fn same_content(&self, other: &Self) -> bool {
        &&& self@.len() == other@.len()
        &&& forall|i: int| 0 <= i < self@.len() ==> (#[trigger] self@[i]).same_content(&other@[i])
    }

    proof fn lemma_cut(a: &Self, x: Seq<u8>, b: &Self, y: Seq<u8>) {
        lemma_counted_cut(a@, x, b@, y);
        assert(a.same_content(b));
    }
}

/// Items written as their number in eight bytes and then one after the other:
/// if two such encodings are followed by anything and the wholes are the
/// same, there are equally many items, they have the same content one by one,
/// and what follows is the same.
pub proof fn lemma_counted_cut<T: SelfDelimiting>(a: Seq<T>, x: Seq<u8>, b: Seq<T>, y: Seq<u8>)
    requires
        fits_u64(a.len()),
        fits_u64(b.len()),
        forall|i: int| 0 <= i < a.len() ==> (#[trigger] a[i]).fits(),
        forall|i: int| 0 <= i < b.len() ==> (#[trigger] b[i]).fits(),
        le_bytes(a.len(), 8) + joined_bytes(a) + x == le_bytes(b.len(), 8) + joined_bytes(b) + y,
    ensures
        a.len() == b.len(),
        forall|i: int| 0 <= i < a.len() ==> (#[trigger] a[i]).same_content(&b[i]),
        x == y,
{
    lemma_radix_power_values();
    lemma_le_bytes_len(a.len(), 8);
    lemma_le_bytes_len(b.len(), 8);
    let rest_a = joined_bytes(a) + x;
    let rest_b = joined_bytes(b) + y;
    assert(le_bytes(a.len(), 8) + joined_bytes(a) + x =~= le_bytes(a.len(), 8) + rest_a);
    assert(le_bytes(b.len(), 8) + joined_bytes(b) + y =~= le_bytes(b.len(), 8) + rest_b);
    lemma_seq_cut(le_bytes(a.len(), 8), rest_a, le_bytes(b.len(), 8), rest_b);
    lemma_le_bytes_unique(a.len(), b.len(), 8);
    lemma_joined_bytes_cut(a, x, b, y);
}

impl<T: SelfDelimiting> SelfDelimiting for Option<T> {
    open spec fn same_content(&self, other: &Self) -> bool {
        match (self, other) {
            (None, None) => true,
            (Some(a), Some(b)) => a.same_content(b),
            _ => false,
        }
    }

    proof fn lemma_cut(a: &Self, x: Seq<u8>, b: &Self, y: Seq<u8>) {
        lemma_radix_power_values();
        lemma_le_bytes_len(0, 4);
        lemma_le_bytes_len(1, 4);
        let tag_a: nat = if a is Some { 1 } else { 0 };
        let tag_b: nat = if b is Some { 1 } else { 0 };
        let rest_a = if a is Some { a->0.content_bytes() + x } else { x };
        let rest_b = if b is Some { b->0.content_bytes() + y } else { y };
        assert(a.content_bytes() + x =~= le_bytes(tag_a, 4) + rest_a);
        assert(b.content_bytes() + y =~= le_bytes(tag_b, 4) + rest_b);
        lemma_seq_cut(le_bytes(tag_a, 4), rest_a, le_bytes(tag_b, 4), rest_b);
        lemma_le_bytes_unique(tag_a, tag_b, 4);
        if a is Some {
            T::lemma_cut(&a->0, x, &b->0, y);
        }
        assert(a.same_content(b));
    }
}

} // verus!

//! The storage of a queue: a chain of blocks of slots.
//!
//! Every block covers one lap of positions, the last of which holds no value:
//! it is passed over when a block is full. The values of a queue are numbered
//! in the order in which places for them were reserved; the position of a value
//! is its number plus the number of blocks before it.

use vstd::prelude::*;

verus! {

/// Each block covers one "lap" of positions.
pub const LAP: usize = 32;

/// The maximum number of values a block can hold.
pub const BLOCK_CAP: usize = 31;

/// How many lower bits of an index are reserved for metadata.
pub const SHIFT: usize = 1;

/// The lowest bit of an index.
pub const MARK_BIT: usize = 1;

/// One position, in an index.
pub const STEP: usize = 2;

/// A slot in a block.
pub struct Slot<T> {
    /// The value, from when it is written until it is read.
    pub value: Option<T>,
    /// Whether a value was written.
    pub written: bool,
    /// Whether the value was read.
    pub read: bool,
}

/// A block in a chain.
pub struct Block<T> {
    /// Slots for values.
    pub slots: Vec<Slot<T>>,
}

/// Check that nothing was written to a slot.
pub open spec fn blank<T>(slot: Slot<T>) -> bool {
    slot.value is None && !slot.written && !slot.read
}

impl<T> Block<T> {
    /// Creates an empty block.
    pub fn new() -> (r: Block<T>)
        ensures
            r.slots@.len() == BLOCK_CAP,
            forall|i: int| 0 <= i < BLOCK_CAP ==> blank(#[trigger] r.slots@[i]),
    {
        let mut slots: Vec<Slot<T>> = Vec::new();
        while slots.len() < BLOCK_CAP
            invariant
                slots@.len() <= BLOCK_CAP,
                forall|i: int| 0 <= i < slots@.len() ==> blank(#[trigger] slots@[i]),
            decreases BLOCK_CAP - slots@.len(),
        {
            slots.push(Slot { value: None, written: false, read: false });
        }
        Block { slots }
    }
}

/// The position of the value with a number.
pub open spec fn position(number: int) -> int {
    number + number / 31
}

/// Where the value with a number is stored, when the chain starts with the
/// block of the value with the number `first`.
pub open spec fn slot_of<T>(chain: Seq<Block<T>>, first: int, number: int) -> Slot<T> {
    chain[number / 31 - first / 31].slots@[number % 31]
}

/// The values numbered from `head` up to `tail`, with nothing in place of one
/// that was not written yet.
pub open spec fn entries<T>(chain: Seq<Block<T>>, head: int, tail: int) -> Seq<Option<T>> {
    Seq::new((tail - head) as nat, |i: int| slot_of(chain, head, head + i).value)
}

/// The chain reaches from the block of the next value to be read to that of the
/// next value to be reserved, and nothing was written beyond it.
pub open spec fn chain_inv<T>(chain: Seq<Block<T>>, head: int, tail: int) -> bool {
    &&& 0 <= head <= tail
    &&& chain.len() == tail / 31 - head / 31 + 1
    &&& forall|b: int| 0 <= b < chain.len() ==> (#[trigger] chain[b]).slots@.len() == BLOCK_CAP
    &&& forall|i: int| head <= i < tail ==> slot_inv(#[trigger] slot_of(chain, head, i))
    &&& forall|i: int|
        tail <= i < 31 * (tail / 31 + 1) ==> blank(#[trigger] slot_of(chain, head, i))
}

/// A slot has a value when it was written, until it is read.
pub open spec fn slot_inv<T>(slot: Slot<T>) -> bool {
    !slot.read && (slot.written <==> slot.value is Some)
}

/// How positions follow one another.
pub proof fn lemma_position(number: int)
    requires
        0 <= number,
    ensures
        position(number) % 32 == number % 31,
        position(number) / 32 == number / 31,
        0 <= number <= position(number) <= 2 * number,
        position(number + 1) == position(number) + (if number % 31 == 30 {
            2int
        } else {
            1int
        }),
        number / 31 >= 0,
        (number + 1) / 31 == number / 31 + (if number % 31 == 30 {
            1int
        } else {
            0int
        }),
        (number + 1) % 31 == (if number % 31 == 30 {
            0int
        } else {
            number % 31 + 1
        }),
{
    let q = number / 31;
    let r = number % 31;
    assert(number == 31 * q + r);
    assert(position(number) == 32 * q + r);
}

/// Positions tell values apart, and follow their order.
pub proof fn lemma_position_order(a: int, b: int)
    requires
        0 <= a,
        0 <= b,
    ensures
        a < b ==> position(a) < position(b),
        position(a) == position(b) ==> a == b,
{
    if a < b {
        assert(a / 31 <= b / 31);
    }
    if b < a {
        assert(b / 31 <= a / 31);
    }
}

/// The bits of an index, as arithmetic.
pub proof fn lemma_index_bits(w: usize)
    by (bit_vector)
    ensures
        w >> 1 == w / 2,
        w & 1 == w % 2,
        w | 1 == (if w % 2 == 0 { w + 1 } else { w + 0 }),
        w & !1usize == w - w % 2,
        (1usize << 1usize) == 2usize,
{
}

/// Reserving a place adds an entry that was not written yet, in a chain that
/// grows by a block when a block is full.
pub proof fn lemma_reserve<T>(
    chain: Seq<Block<T>>,
    grown: Seq<Block<T>>,
    fresh: Block<T>,
    head: int,
    tail: int,
)
    requires
        chain_inv(chain, head, tail),
        fresh.slots@.len() == BLOCK_CAP,
        forall|i: int| 0 <= i < BLOCK_CAP ==> blank(#[trigger] fresh.slots@[i]),
        grown == (if tail % 31 == 30 {
            chain.push(fresh)
        } else {
            chain
        }),
    ensures
        chain_inv(grown, head, tail + 1),
        entries(grown, head, tail + 1) == entries(chain, head, tail).push(None),
{
    lemma_position(tail);
    let last = tail / 31 - head / 31;
    assert forall|i: int| head <= i <= tail implies slot_of(grown, head, i) == #[trigger] slot_of(
        chain,
        head,
        i,
    ) by {
        assert(i / 31 <= tail / 31);
        assert(i / 31 >= head / 31);
    }
    assert(blank(slot_of(chain, head, tail)));
    assert forall|i: int| head <= i < tail + 1 implies slot_inv(
        #[trigger] slot_of(grown, head, i),
    ) by {
        assert(slot_of(grown, head, i) == slot_of(chain, head, i));
    }
    assert forall|i: int| tail + 1 <= i < 31 * ((tail + 1) / 31 + 1) implies blank(
        #[trigger] slot_of(grown, head, i),
    ) by {
        if tail % 31 == 30 {
            assert(i / 31 == tail / 31 + 1);
            assert(grown[i / 31 - head / 31] == fresh);
            assert(blank(fresh.slots@[i % 31]));
        } else {
            assert(i / 31 == tail / 31);
            assert(slot_of(grown, head, i) == slot_of(chain, head, i));
        }
    }
    assert forall|b: int| 0 <= b < grown.len() implies (#[trigger] grown[b]).slots@.len()
        == BLOCK_CAP by {
        if b < chain.len() {
            assert(grown[b] == chain[b]);
        }
    }
    let before = entries(chain, head, tail).push(None);
    let after = entries(grown, head, tail + 1);
    assert forall|k: int| 0 <= k < after.len() implies after[k] == before[k] by {
        assert(slot_of(grown, head, head + k) == slot_of(chain, head, head + k));
    }
    assert(after =~= before);
}

/// Writing a value to a slot puts it in the place of its entry.
pub proof fn lemma_commit<T>(
    chain: Seq<Block<T>>,
    written: Seq<Block<T>>,
    head: int,
    tail: int,
    number: int,
    value: T,
)
    requires
        chain_inv(chain, head, tail),
        head <= number < tail,
        written.len() == chain.len(),
        forall|b: int|
            0 <= b < chain.len() && b != number / 31 - head / 31 ==> #[trigger] written[b]
                == chain[b],
        written[number / 31 - head / 31].slots@ == chain[number / 31 - head / 31].slots@.update(
            number % 31,
            Slot { value: Some(value), written: true, read: false },
        ),
    ensures
        chain_inv(written, head, tail),
        entries(written, head, tail) == entries(chain, head, tail).update(
            number - head,
            Some(value),
        ),
{
    let b = number / 31 - head / 31;
    assert(0 <= b < chain.len()) by {
        assert(head / 31 <= number / 31 <= tail / 31);
    }
    assert(chain[b].slots@.len() == BLOCK_CAP);
    assert forall|i: int| head <= i < 31 * (tail / 31 + 1) && i != number implies slot_of(
        written,
        head,
        i,
    ) == #[trigger] slot_of(chain, head, i) by {
        assert(head / 31 <= i / 31 <= tail / 31);
        if i / 31 == number / 31 {
            assert(i % 31 != number % 31);
        }
    }
    assert forall|i: int| head <= i < tail implies slot_inv(
        #[trigger] slot_of(written, head, i),
    ) by {
        if i != number {
            assert(slot_of(written, head, i) == slot_of(chain, head, i));
        }
    }
    assert forall|i: int| tail <= i < 31 * (tail / 31 + 1) implies blank(
        #[trigger] slot_of(written, head, i),
    ) by {
        assert(slot_of(written, head, i) == slot_of(chain, head, i));
    }
    assert forall|c: int| 0 <= c < written.len() implies (#[trigger] written[c]).slots@.len()
        == BLOCK_CAP by {
        assert(chain[c].slots@.len() == BLOCK_CAP);
        if c != b {
            assert(written[c] == chain[c]);
        }
    }
    let before = entries(chain, head, tail).update(number - head, Some(value));
    let after = entries(written, head, tail);
    assert forall|k: int| 0 <= k < after.len() implies after[k] == before[k] by {
        if head + k != number {
            assert(slot_of(written, head, head + k) == slot_of(chain, head, head + k));
        }
    }
    assert(after =~= before);
}

/// Reading the first value removes the first entry, and the first block with
/// its last value.
pub proof fn lemma_pop<T>(
    chain: Seq<Block<T>>,
    read: Seq<Block<T>>,
    left: Seq<Block<T>>,
    head: int,
    tail: int,
)
    requires
        chain_inv(chain, head, tail),
        head < tail,
        read.len() == chain.len(),
        forall|b: int| 0 < b < chain.len() ==> #[trigger] read[b] == chain[b],
        read[0].slots@.len() == BLOCK_CAP,
        forall|i: int|
            0 <= i < BLOCK_CAP && i != head % 31 ==> #[trigger] read[0].slots@[i]
                == chain[0].slots@[i],
        left == (if head % 31 == 30 {
            read.remove(0)
        } else {
            read
        }),
    ensures
        chain_inv(left, head + 1, tail),
        entries(left, head + 1, tail) == entries(chain, head, tail).drop_first(),
{
    lemma_position(head);
    assert((head + 1) / 31 <= tail / 31);
    assert forall|i: int| head < i < 31 * (tail / 31 + 1) implies slot_of(left, head + 1, i)
        == #[trigger] slot_of(chain, head, i) by {
        assert(head / 31 <= i / 31 <= tail / 31);
        assert((head + 1) / 31 <= i / 31);
        if i / 31 == head / 31 {
            assert(i % 31 != head % 31);
            assert(read[0].slots@[i % 31] == chain[0].slots@[i % 31]);
        }
    }
    assert forall|i: int| head + 1 <= i < tail implies slot_inv(
        #[trigger] slot_of(left, head + 1, i),
    ) by {
        assert(slot_of(left, head + 1, i) == slot_of(chain, head, i));
    }
    assert forall|i: int| tail <= i < 31 * (tail / 31 + 1) implies blank(
        #[trigger] slot_of(left, head + 1, i),
    ) by {
        assert(slot_of(left, head + 1, i) == slot_of(chain, head, i));
    }
    assert forall|c: int| 0 <= c < left.len() implies (#[trigger] left[c]).slots@.len()
        == BLOCK_CAP by {
        if head % 31 == 30 {
            assert(left[c] == read[c + 1]);
            assert(read[c + 1] == chain[c + 1]);
        } else if c > 0 {
            assert(read[c] == chain[c]);
        }
    }
    let before = entries(chain, head, tail).drop_first();
    let after = entries(left, head + 1, tail);
    assert forall|k: int| 0 <= k < after.len() implies after[k] == before[k] by {
        assert(before[k] == entries(chain, head, tail)[k + 1]);
        assert(slot_of(left, head + 1, head + 1 + k) == slot_of(chain, head, head + 1 + k));
    }
    assert(after =~= before);
}

} // verus!

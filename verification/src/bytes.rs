//! Numbers in byte buffers.

use vstd::prelude::*;

verus! {

/// The order of the bytes of a number in memory.
#[derive(Debug, Clone, Copy, PartialEq, Eq, Structural)]
pub enum ByteOrder {
    /// The lowest byte comes first.
    Little,
    /// The highest byte comes first.
    Big,
}

/// `u16::from_ne_bytes`: the number that two bytes stand for in the byte order of the machine.
/// Which of the two orders that is, the machine decides.
#[verifier::external_body]
fn native_u16(bytes: [u8; 2]) -> (number: u16)
    ensures
        number == bytes[0] + 0x100 * bytes[1] || number == bytes[1] + 0x100 * bytes[0],
{
    u16::from_ne_bytes(bytes)
}

/// Whether the machine can read the bytes 1 and 0 as a number.
spec fn sampled(sample: u16) -> bool {
    call_ensures(native_u16, ([1u8, 0u8],), sample)
}

/// Whether an order is one of the machine: the bytes 1 and 0 stand in it for a number that the
/// machine reads them as. Which order that is, the machine decides.
pub closed spec fn is_native(order: ByteOrder) -> bool {
    exists|sample: u16| #[trigger] sampled(sample) && number_of(seq![1u8, 0u8], order) == sample
}

/// The byte order of the machine.
pub(crate) fn native_byte_order() -> (order: ByteOrder)
    ensures
        is_native(order),
{
    let sample: u16 = native_u16([1, 0]);
    assert(sampled(sample));
    order_of_sample(sample)
}

/// The byte order in which the bytes 1 and 0 stand for a number.
pub fn order_of_sample(sample: u16) -> (order: ByteOrder)
    requires
        sample == 1 || sample == 0x100,
    ensures
        number_of(seq![1u8, 0u8], order) == sample,
        order == if sample == 1 {
            ByteOrder::Little
        } else {
            ByteOrder::Big
        },
{
    proof {
        reveal_with_fuel(little_endian, 3);
        assert(seq![1u8, 0u8].reverse() == seq![0u8, 1u8]);
        assert(seq![1u8, 0u8].drop_first() == seq![0u8]);
        assert(seq![0u8, 1u8].drop_first() == seq![1u8]);
        assert(seq![0u8].drop_first() == Seq::<u8>::empty());
        assert(seq![1u8].drop_first() == Seq::<u8>::empty());
    }
    if sample == 1 {
        ByteOrder::Little
    } else {
        ByteOrder::Big
    }
}

/// The number that bytes stand for, the first one the lowest.
pub open spec fn little_endian(bytes: Seq<u8>) -> int
    decreases bytes.len(),
{
    if bytes.len() == 0 {
        0
    } else {
        bytes[0] + 0x100 * little_endian(bytes.drop_first())
    }
}

/// The number that bytes stand for in a byte order.
pub open spec fn number_of(bytes: Seq<u8>, order: ByteOrder) -> int {
    match order {
        ByteOrder::Little => little_endian(bytes),
        ByteOrder::Big => little_endian(bytes.reverse()),
    }
}

/// Reads the four bytes from `offset` on.
pub fn read_u32(bytes: &[u8], offset: usize, order: ByteOrder) -> (number: u32)
    requires
        offset + 4 <= bytes@.len(),
    ensures
        number == number_of(bytes@.subrange(offset as int, offset + 4), order),
{
    let b0: u8 = bytes[offset];
    let b1: u8 = bytes[offset + 1];
    let b2: u8 = bytes[offset + 2];
    let b3: u8 = bytes[offset + 3];
    let ghost part = bytes@.subrange(offset as int, offset + 4);
    assert(part == seq![b0, b1, b2, b3]);
    assert(part.reverse() == seq![b3, b2, b1, b0]);
    match order {
        ByteOrder::Little => join_u32(b0, b1, b2, b3),
        ByteOrder::Big => join_u32(b3, b2, b1, b0),
    }
}

fn join_u32(b0: u8, b1: u8, b2: u8, b3: u8) -> (number: u32)
    ensures
        number == little_endian(seq![b0, b1, b2, b3]),
{
    proof {
        reveal_with_fuel(little_endian, 5);
        let s = seq![b0, b1, b2, b3];
        assert(s.drop_first() == seq![b1, b2, b3]);
        assert(seq![b1, b2, b3].drop_first() == seq![b2, b3]);
        assert(seq![b2, b3].drop_first() == seq![b3]);
        assert(seq![b3].drop_first() == Seq::<u8>::empty());
    }
    b0 as u32 + 0x100 * b1 as u32 + 0x1_0000 * b2 as u32 + 0x100_0000 * b3 as u32
}

/// Reads the eight bytes from `offset` on.
pub fn read_u64(bytes: &[u8], offset: usize, order: ByteOrder) -> (number: u64)
    requires
        offset + 8 <= bytes@.len(),
    ensures
        number == number_of(bytes@.subrange(offset as int, offset + 8), order),
{
    assert(bytes@.len() == bytes.len());
    let first: u32 = read_u32(bytes, offset, order);
    let second: u32 = read_u32(bytes, offset + 4, order);
    let ghost part = bytes@.subrange(offset as int, offset + 8);
    let ghost a = bytes@.subrange(offset as int, offset + 4);
    let ghost b = bytes@.subrange(offset + 4, offset + 8);
    match order {
        ByteOrder::Little => {
            proof {
                assert(part == a + b);
                lemma_joined(a, b);
            }
            first as u64 + 0x1_0000_0000 * second as u64
        },
        ByteOrder::Big => {
            proof {
                assert(part.reverse() == b.reverse() + a.reverse());
                lemma_joined(b.reverse(), a.reverse());
            }
            second as u64 + 0x1_0000_0000 * first as u64
        },
    }
}

proof fn lemma_joined(low: Seq<u8>, high: Seq<u8>)
    requires
        low.len() == 4,
    ensures
        little_endian(low + high) == little_endian(low) + 0x1_0000_0000 * little_endian(high),
{
    let s0 = low + high;
    let s1 = s0.drop_first();
    let s2 = s1.drop_first();
    let s3 = s2.drop_first();
    let l1 = low.drop_first();
    let l2 = l1.drop_first();
    let l3 = l2.drop_first();
    assert(s3.drop_first() == high);
    assert(l3.drop_first() == Seq::<u8>::empty());
    assert(little_endian(l3.drop_first()) == 0);
    assert(little_endian(s3) == s0[3] + 0x100 * little_endian(high));
    assert(little_endian(l3) == low[3]);
    assert(little_endian(s2) == s0[2] + 0x100 * little_endian(s3));
    assert(little_endian(l2) == low[2] + 0x100 * little_endian(l3));
    assert(little_endian(s1) == s0[1] + 0x100 * little_endian(s2));
    assert(little_endian(l1) == low[1] + 0x100 * little_endian(l2));
}

/// The numbers of eight bytes each that a buffer holds. Bytes left over at the end are ignored.
pub open spec fn numbers_of(bytes: Seq<u8>, order: ByteOrder) -> Seq<u64> {
    Seq::new(
        (bytes.len() / 8) as nat,
        |i: int| number_of(bytes.subrange(8 * i, 8 * i + 8), order) as u64,
    )
}

/// Reads the numbers of eight bytes each that a buffer holds.
pub fn read_u64s(bytes: &[u8], order: ByteOrder) -> (numbers: Vec<u64>)
    ensures
        numbers@ == numbers_of(bytes@, order),
{
    let mut numbers: Vec<u64> = Vec::new();
    let count: usize = bytes.len() / 8;
    let mut i: usize = 0;
    while i < count
        invariant
            i <= count,
            count == bytes.len() / 8,
            numbers@ == numbers_of(bytes@, order).take(i as int),
        decreases count - i,
    {
        numbers.push(read_u64(bytes, 8 * i, order));
        i += 1;
    }
    numbers
}

pub(crate) proof fn lemma_four(b0: u8, b1: u8, b2: u8, b3: u8)
    ensures
        little_endian(seq![b0, b1, b2, b3]) == b0 + 0x100 * b1 + 0x1_0000 * b2 + 0x100_0000 * b3,
{
    reveal_with_fuel(little_endian, 5);
    assert(seq![b0, b1, b2, b3].drop_first() == seq![b1, b2, b3]);
    assert(seq![b1, b2, b3].drop_first() == seq![b2, b3]);
    assert(seq![b2, b3].drop_first() == seq![b3]);
    assert(seq![b3].drop_first() == Seq::<u8>::empty());
}

/// Whether a number has eight bytes, the first of them the lowest.
pub open spec fn has_bytes(
    number: u64,
    b0: u8,
    b1: u8,
    b2: u8,
    b3: u8,
    b4: u8,
    b5: u8,
    b6: u8,
    b7: u8,
) -> bool {
    number == b0 + 0x100 * b1 + 0x1_0000 * b2 + 0x100_0000 * b3 + 0x1_0000_0000 * b4
        + 0x100_0000_0000 * b5 + 0x1_0000_0000_0000 * b6 + 0x100_0000_0000_0000 * b7
}

/// Whether a number is the one at an offset, in a byte order.
pub open spec fn reads_as(number: u64, bytes: Seq<u8>, at: int, order: ByteOrder) -> bool {
    match order {
        ByteOrder::Little => has_bytes(
            number,
            bytes[at],
            bytes[at + 1],
            bytes[at + 2],
            bytes[at + 3],
            bytes[at + 4],
            bytes[at + 5],
            bytes[at + 6],
            bytes[at + 7],
        ),
        ByteOrder::Big => has_bytes(
            number,
            bytes[at + 7],
            bytes[at + 6],
            bytes[at + 5],
            bytes[at + 4],
            bytes[at + 3],
            bytes[at + 2],
            bytes[at + 1],
            bytes[at],
        ),
    }
}

proof fn lemma_reads_as(bytes: Seq<u8>, at: int, order: ByteOrder)
    requires
        0 <= at,
        at + 8 <= bytes.len(),
    ensures
        0 <= number_of(bytes.subrange(at, at + 8), order) <= u64::MAX,
        reads_as(number_of(bytes.subrange(at, at + 8), order) as u64, bytes, at, order),
{
    let part = bytes.subrange(at, at + 8);
    let a = seq![part[0], part[1], part[2], part[3]];
    let b = seq![part[4], part[5], part[6], part[7]];
    let c = seq![part[7], part[6], part[5], part[4]];
    let d = seq![part[3], part[2], part[1], part[0]];
    lemma_four(part[0], part[1], part[2], part[3]);
    lemma_four(part[4], part[5], part[6], part[7]);
    lemma_four(part[7], part[6], part[5], part[4]);
    lemma_four(part[3], part[2], part[1], part[0]);
    assert(part == a + b);
    assert(part.reverse() == c + d);
    lemma_joined(a, b);
    lemma_joined(c, d);
}

/// Four bytes make a number: in the one order the first of them is the lowest, in the other the
/// last.
pub proof fn law_four_bytes_make_a_number(
    bytes: &[u8],
    offset: usize,
    order: ByteOrder,
    number: u32,
)
    requires
        offset + 4 <= bytes@.len(),
        call_ensures(read_u32, (bytes, offset, order), number),
    ensures
        order == ByteOrder::Little ==> number == bytes@[offset as int] + 0x100 * bytes@[offset + 1]
            + 0x1_0000 * bytes@[offset + 2] + 0x100_0000 * bytes@[offset + 3],
        order == ByteOrder::Big ==> number == bytes@[offset + 3] + 0x100 * bytes@[offset + 2]
            + 0x1_0000 * bytes@[offset + 1] + 0x100_0000 * bytes@[offset as int],
{
    let part = bytes@.subrange(offset as int, offset + 4);
    lemma_four(part[0], part[1], part[2], part[3]);
    lemma_four(part[3], part[2], part[1], part[0]);
    assert(part == seq![part[0], part[1], part[2], part[3]]);
    assert(part.reverse() == seq![part[3], part[2], part[1], part[0]]);
}

/// Eight bytes make a number in the same way.
pub proof fn law_eight_bytes_make_a_number(
    bytes: &[u8],
    offset: usize,
    order: ByteOrder,
    number: u64,
)
    requires
        offset + 8 <= bytes@.len(),
        call_ensures(read_u64, (bytes, offset, order), number),
    ensures
        reads_as(number, bytes@, offset as int, order),
{
    lemma_reads_as(bytes@, offset as int, order);
}

/// A buffer holds a number in each eight of its bytes, in order. Less than eight bytes at its end
/// are left out.
pub proof fn law_numbers_follow_each_other(
    bytes: &[u8],
    order: ByteOrder,
    numbers: Vec<u64>,
    i: int,
)
    requires
        call_ensures(read_u64s, (bytes, order), numbers),
    ensures
        8 * numbers@.len() <= bytes@.len() && bytes@.len() < 8 * numbers@.len() + 8,
        0 <= i < numbers@.len() ==> reads_as(numbers@[i], bytes@, 8 * i, order),
{
    if 0 <= i < numbers@.len() {
        lemma_reads_as(bytes@, 8 * i, order);
    }
}

/// The order that a sample shows is the one in which its bytes, 1 and then 0, stand for it.
pub proof fn law_samples_show_the_order(sample: u16, order: ByteOrder)
    requires
        sample == 1 || sample == 0x100,
        call_ensures(order_of_sample, (sample,), order),
    ensures
        order == ByteOrder::Little <==> sample == 1,
        order == ByteOrder::Big <==> sample == 0x100,
{
}

/// The byte order of the machine is the one that it reads the bytes 1 and 0 in.
proof fn law_native_order_is_that_of_the_machine(order: ByteOrder)
    requires
        call_ensures(native_byte_order, (), order),
    ensures
        order == ByteOrder::Little ==> call_ensures(native_u16, ([1u8, 0u8],), 1u16),
        order == ByteOrder::Big ==> call_ensures(native_u16, ([1u8, 0u8],), 0x100u16),
{
    reveal_with_fuel(little_endian, 3);
    assert(seq![1u8, 0u8].reverse() == seq![0u8, 1u8]);
    assert(seq![1u8, 0u8].drop_first() == seq![0u8]);
    assert(seq![0u8, 1u8].drop_first() == seq![1u8]);
    assert(seq![0u8].drop_first() == Seq::<u8>::empty());
    assert(seq![1u8].drop_first() == Seq::<u8>::empty());
    let sample = choose|sample: u16| #[trigger]
        sampled(sample) && number_of(seq![1u8, 0u8], order) == sample;
    assert(call_ensures(native_u16, ([1u8, 0u8],), sample));
}

} // verus!

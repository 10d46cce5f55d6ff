//! Byte strings.
use vstd::prelude::*;

verus! {

/// Whether two byte strings are equal.
pub fn bytes_equal(a: &[u8], b: &[u8]) -> (equal: bool)
    ensures
        equal == (a@ == b@),
{
    if a.len() != b.len() {
        return false;
    }
    let mut i: usize = 0;
    while i < a.len()
        invariant
            i <= a@.len(),
            a@.len() == b@.len(),
            forall|j: int| 0 <= j < i ==> a@[j] == b@[j],
        decreases a@.len() - i,
    {
        if a[i] != b[i] {
            return false;
        }
        i = i + 1;
    }
    assert(a@ =~= b@);
    true
}

/// The `N` bytes of `bytes` that start at `start`.
pub fn array_at<const N: usize>(bytes: &[u8], start: usize) -> (array: [u8; N])
    requires
        start + N <= bytes@.len(),
    ensures
        array@ == bytes@.subrange(start as int, start + N),
{
    let len = bytes.len();
    let mut array = [0u8; N];
    let mut i: usize = 0;
    while i < N
        invariant
            i <= N,
            start + N <= len == bytes@.len(),
            forall|j: int| 0 <= j < i ==> array@[j] == bytes@[start + j],
        decreases N - i,
    {
        array[i] = bytes[start + i];
        i = i + 1;
    }
    assert(array@ =~= bytes@.subrange(start as int, start + N));
    array
}

/// The order of the bytes of a number.
#[derive(Clone, Copy, Debug, PartialEq, Eq, Structural)]
pub enum ByteOrder {
    /// The least significant byte comes first.
    LittleEndian,
    /// The most significant byte comes first.
    BigEndian,
}

/// The number that four bytes stand for.
pub open spec fn u32_of(bytes: Seq<u8>, order: ByteOrder) -> u32 {
    match order {
        ByteOrder::LittleEndian => (bytes[0] + 0x100 * bytes[1] + 0x1_0000 * bytes[2] + 0x100_0000
            * bytes[3]) as u32,
        ByteOrder::BigEndian => (bytes[3] + 0x100 * bytes[2] + 0x1_0000 * bytes[1] + 0x100_0000
            * bytes[0]) as u32,
    }
}

/// The four bytes of a number.
pub open spec fn u32_bytes(n: u32, order: ByteOrder) -> Seq<u8> {
    let b0 = (n % 0x100) as u8;
    let b1 = (n / 0x100 % 0x100) as u8;
    let b2 = (n / 0x1_0000 % 0x100) as u8;
    let b3 = (n / 0x100_0000) as u8;
    match order {
        ByteOrder::LittleEndian => seq![b0, b1, b2, b3],
        ByteOrder::BigEndian => seq![b3, b2, b1, b0],
    }
}

/// Calls `u32::to_ne_bytes`, which gives the bytes of a number in the order of the machine. Which
/// of the two orders that is depends on the machine alone, and is left open.
#[verifier::external_body]
fn native_bytes(n: u32) -> (bytes: [u8; 4])
    ensures
        bytes@ == u32_bytes(n, ByteOrder::LittleEndian) || bytes@ == u32_bytes(
            n,
            ByteOrder::BigEndian,
        ),
{
    n.to_ne_bytes()
}

/// The order in which the number 1 was written as `bytes`.
pub fn order_of_one(bytes: &[u8; 4]) -> (order: ByteOrder)
    requires
        bytes@ == u32_bytes(1, ByteOrder::LittleEndian) || bytes@ == u32_bytes(
            1,
            ByteOrder::BigEndian,
        ),
    ensures
        bytes@ == u32_bytes(1, order),
{
    if bytes[0] == 1 {
        ByteOrder::LittleEndian
    } else {
        ByteOrder::BigEndian
    }
}

impl ByteOrder {
    /// The order of the machine.
    pub fn native() -> ByteOrder {
        order_of_one(&native_bytes(1))
    }
}

/// The number that four bytes stand for.
pub fn u32_from_bytes(bytes: &[u8], order: ByteOrder) -> (n: u32)
    requires
        bytes@.len() == 4,
    ensures
        n == u32_of(bytes@, order),
{
    let (b0, b1, b2, b3) = match order {
        ByteOrder::LittleEndian => (bytes[0], bytes[1], bytes[2], bytes[3]),
        ByteOrder::BigEndian => (bytes[3], bytes[2], bytes[1], bytes[0]),
    };
    b0 as u32 + 0x100 * (b1 as u32) + 0x1_0000 * (b2 as u32) + 0x100_0000 * (b3 as u32)
}

/// The four bytes of a number.
pub fn u32_to_bytes(n: u32, order: ByteOrder) -> (bytes: Vec<u8>)
    ensures
        bytes@ == u32_bytes(n, order),
{
    let b0: u8 = (n % 0x100) as u8;
    let b1: u8 = (n / 0x100 % 0x100) as u8;
    let b2: u8 = (n / 0x1_0000 % 0x100) as u8;
    let b3: u8 = (n / 0x100_0000) as u8;
    let bytes = match order {
        ByteOrder::LittleEndian => vec![b0, b1, b2, b3],
        ByteOrder::BigEndian => vec![b3, b2, b1, b0],
    };
    assert(bytes@ =~= u32_bytes(n, order));
    bytes
}

/// Reading the bytes of a number gives the number.
pub proof fn lemma_u32_round_trip(n: u32, order: ByteOrder)
    ensures
        u32_bytes(n, order).len() == 4,
        u32_of(u32_bytes(n, order), order) == n,
{
}

} // verus!

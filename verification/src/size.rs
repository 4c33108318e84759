//! The four-byte length header that precedes every message on the wire.

use vstd::prelude::*;

verus! {

/// Number of bytes of a length header.
pub const SIZE_LEN: usize = 4;

/// A length header: a `u32` stored as four bytes in the machine's own byte
/// order, as the machine holds the number in memory.
#[derive(Clone, Copy)]
pub struct Size(pub [u8; 4]);

/// The two orders in which a machine may store the bytes of a number.
pub enum ByteOrder {
    /// Least significant byte first.
    Little,
    /// Most significant byte first.
    Big,
}

/// The number that four bytes, least significant first, stand for.
pub open spec fn bytes_value(b: Seq<u8>) -> int
    recommends
        b.len() == 4,
{
    b[0] + 256 * b[1] + 65536 * b[2] + 16777216 * b[3]
}

/// The four bytes, least significant first, of a `u32`.
pub open spec fn value_bytes(u: u32) -> Seq<u8> {
    seq![
        (u % 256) as u8,
        ((u / 256) % 256) as u8,
        ((u / 65536) % 256) as u8,
        ((u / 16777216) % 256) as u8,
    ]
}

/// The four bytes of a `u32` in the given order.
pub open spec fn order_bytes(u: u32, o: ByteOrder) -> Seq<u8> {
    match o {
        ByteOrder::Little => value_bytes(u),
        ByteOrder::Big => value_bytes(u).reverse(),
    }
}

/// The number four bytes stand for in the given order.
pub open spec fn order_value(b: Seq<u8>, o: ByteOrder) -> int {
    match o {
        ByteOrder::Little => bytes_value(b),
        ByteOrder::Big => bytes_value(b.reverse()),
    }
}

/// Whether `b` holds `u` in one of the two byte orders.
pub open spec fn holds_value(b: Seq<u8>, u: int) -> bool {
    u == order_value(b, ByteOrder::Little) || u == order_value(b, ByteOrder::Big)
}

/// Whether `b` is `u` written in one of the two byte orders.
pub open spec fn is_written(b: Seq<u8>, u: u32) -> bool {
    b == order_bytes(u, ByteOrder::Little) || b == order_bytes(u, ByteOrder::Big)
}

/// std's `u32::to_ne_bytes`: the bytes of `u` in the machine's byte order.
/// Which of the two orders that is depends on the machine, so only that it
/// is one of them is stated.
#[verifier::external_body]
fn native_bytes(u: u32) -> (b: [u8; 4])
    ensures
        is_written(b@, u),
{
    u.to_ne_bytes()
}

/// std's `u32::from_ne_bytes`: the number the bytes stand for in the
/// machine's byte order. Which of the two orders that is depends on the
/// machine, so only that it is one of them is stated.
#[verifier::external_body]
fn native_value(b: [u8; 4]) -> (u: u32)
    ensures
        holds_value(b@, u as int),
{
    u32::from_ne_bytes(b)
}

impl View for Size {
    type V = Seq<u8>;

    open spec fn view(&self) -> Seq<u8> {
        self.0@
    }
}

impl Size {
    /// The length of a header in bytes.
    pub fn bytes_no() -> (n: usize)
        ensures
            n == SIZE_LEN,
    {
        SIZE_LEN
    }

    /// The header of length zero: four zero bytes.
    pub fn zero() -> (s: Self)
        ensures
            s@ == seq![0u8, 0u8, 0u8, 0u8],
            holds_value(s@, 0),
    {
        let s = Size([0; 4]);
        assert(s@ =~= seq![0u8, 0u8, 0u8, 0u8]);
        assert(s@.reverse() =~= seq![0u8, 0u8, 0u8, 0u8]);
        s
    }

    /// The bytes of the header, to be written to the wire.
    pub fn slice(&self) -> (b: &[u8; 4])
        ensures
            b@ == self@,
    {
        &self.0
    }

    /// The bytes of the header, to be filled from the wire.
    pub fn mut_slice(&mut self) -> (b: &mut [u8; 4])
        ensures
            b@ == old(self)@,
            final(self)@ == final(b)@,
    {
        &mut self.0
    }
}

// The conversions below go through the machine's byte order, which is no
// function of their argument alone: `obeys_from_spec` is false, and each
// `from` states in its own `ensures` what holds on every machine.

impl From<u32> for Size {
    /// The header for `u`: its bytes in the machine's order.
    fn from(u: u32) -> (s: Self)
        ensures
            is_written(s@, u),
    {
        Size(native_bytes(u))
    }
}

impl vstd::std_specs::convert::FromSpecImpl<u32> for Size {
    open spec fn obeys_from_spec() -> bool {
        false
    }

    open spec fn from_spec(u: u32) -> Size {
        choose|s: Size| is_written(s@, u)
    }
}

impl From<usize> for Size {
    /// The header for a length; lengths beyond `u32::MAX` keep their low 32 bits.
    fn from(u: usize) -> (s: Self)
        ensures
            is_written(s@, u as u32),
    {
        Self::from(u as u32)
    }
}

impl vstd::std_specs::convert::FromSpecImpl<usize> for Size {
    open spec fn obeys_from_spec() -> bool {
        false
    }

    open spec fn from_spec(u: usize) -> Size {
        choose|s: Size| is_written(s@, u as u32)
    }
}

impl From<Size> for u32 {
    /// The number the header stands for in the machine's byte order.
    fn from(s: Size) -> (u: Self)
        ensures
            holds_value(s@, u as int),
    {
        native_value(s.0)
    }
}

impl vstd::std_specs::convert::FromSpecImpl<Size> for u32 {
    open spec fn obeys_from_spec() -> bool {
        false
    }

    open spec fn from_spec(s: Size) -> u32 {
        choose|u: u32| holds_value(s@, u as int)
    }
}

impl From<Size> for usize {
    /// The length the header stands for in the machine's byte order.
    fn from(s: Size) -> (u: Self)
        ensures
            holds_value(s@, u as int),
    {
        let v: u32 = u32::from(s);
        v as usize
    }
}

impl vstd::std_specs::convert::FromSpecImpl<Size> for usize {
    open spec fn obeys_from_spec() -> bool {
        false
    }

    open spec fn from_spec(s: Size) -> usize {
        choose|u: usize| holds_value(s@, u as int)
    }
}

/// Reading back, in one byte order, the bytes of a `u32` written in that
/// order gives that `u32`.
pub proof fn lemma_u32_round_trip(u: u32, o: ByteOrder)
    ensures
        order_value(order_bytes(u, o), o) == u,
{
    let b = value_bytes(u);
    assert(bytes_value(b) == u) by (nonlinear_arith)
        requires
            b[0] == u % 256,
            b[1] == (u / 256) % 256,
            b[2] == (u / 65536) % 256,
            b[3] == (u / 16777216) % 256,
            0 <= u < 0x1_0000_0000,
    {
    }
    assert(b.reverse().reverse() =~= b);
}

/// Writing, in one byte order, the number four bytes stand for in that order
/// gives back those bytes.
pub proof fn lemma_header_round_trip(b: Seq<u8>, o: ByteOrder)
    requires
        b.len() == 4,
    ensures
        0 <= order_value(b, o) <= u32::MAX,
        order_bytes(order_value(b, o) as u32, o) == b,
{
    let c = match o {
        ByteOrder::Little => b,
        ByteOrder::Big => b.reverse(),
    };
    assert(c.len() == 4);
    let u = bytes_value(c);
    let (a0, a1, a2, a3) = (c[0] as int, c[1] as int, c[2] as int, c[3] as int);
    assert(u == a0 + 256 * a1 + 65536 * a2 + 16777216 * a3);
    assert(0 <= u <= 0xffff_ffff && u % 256 == a0 && (u / 256) % 256 == a1 && (u / 65536) % 256 == a2
        && (u / 16777216) % 256 == a3) by (nonlinear_arith)
        requires
            u == a0 + 256 * a1 + 65536 * a2 + 16777216 * a3,
            0 <= a0 < 256,
            0 <= a1 < 256,
            0 <= a2 < 256,
            0 <= a3 < 256,
    {
    }
    assert(value_bytes(u as u32) =~= c);
    assert(b.reverse().reverse() =~= b);
}

/// A length that fits in 32 bits, written as a header in one byte order and
/// read back in that order, is that length.
pub proof fn lemma_usize_round_trip(n: usize, o: ByteOrder)
    requires
        n <= u32::MAX,
    ensures
        order_value(order_bytes(n as u32, o), o) == n,
{
    lemma_u32_round_trip(n as u32, o);
}

} // verus!

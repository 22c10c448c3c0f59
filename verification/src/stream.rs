//! Bit streams over byte buffers. Bits are numbered from the most significant
//! bit of the first byte; a number of `n` bits is written with its most
//! significant bit first.

use vstd::prelude::*;
use crate::Bit;

verus! {

/// Bit `k` of `value`, counted from the least significant one.
pub open spec fn bit_of(value: u64, k: u64) -> bool {
    (value >> k) & 1 == 1
}

/// The low `n` bits of `value`, most significant first. Widths over 64 count as 64.
pub open spec fn bits_of(value: u64, n: nat) -> Seq<bool> {
    let w = if n > 64 { 64 } else { n };
    Seq::new(w, |i: int| bit_of(value, (w - 1 - i) as u64))
}

/// The number whose binary digits are `bits`, most significant first.
pub open spec fn value_of(bits: Seq<bool>) -> u64
    decreases bits.len(),
{
    if bits.len() == 0 {
        0
    } else {
        (value_of(bits.drop_last()) << 1) | (if bits.last() { 1u64 } else { 0u64 })
    }
}

/// Bit `k` of the byte `b`, counted from the most significant one.
pub open spec fn byte_bit(b: u8, k: u8) -> bool {
    (b >> ((7 - k) as u8)) & 1 == 1
}

/// The bits of a byte string, eight to the byte.
pub open spec fn unpack(bytes: Seq<u8>) -> Seq<bool> {
    Seq::new(8 * bytes.len(), |i: int| byte_bit(bytes[i / 8], (i % 8) as u8))
}

/// `n` zero bits.
pub open spec fn zeros(n: nat) -> Seq<bool> {
    Seq::new(n, |i: int| false)
}

/// The number of bits that fill a stream of `len` bits up to a whole byte.
pub open spec fn padding(len: nat) -> nat {
    ((8 - len % 8) % 8) as nat
}

/// The width that a request for `num` bits stands for.
pub open spec fn width(num: u32) -> nat {
    if num > 64 { 64 } else { num as nat }
}

/// What a reader reports when it cannot deliver.
#[derive(Debug, PartialEq, Eq, Structural, Clone, Copy)]
pub enum Error {
    /// The stream holds fewer bits than were asked for.
    Eof,
}

/// A sink of bits.
pub trait Write {
    /// The representation invariant.
    spec fn inv(&self) -> bool;

    /// The bits written so far.
    spec fn bits(&self) -> Seq<bool>;

    /// Appends one bit.
    fn write_bit(&mut self, bit: Bit)
        requires
            old(self).inv(),
        ensures
            final(self).inv(),
            final(self).bits() == old(self).bits().push(bit.is_one()),
    ;

    /// Appends the low `num` bits of `value`, most significant first.
    fn write_bits(&mut self, value: u64, num: u32)
        requires
            old(self).inv(),
        ensures
            final(self).inv(),
            final(self).bits() == old(self).bits() + bits_of(value, width(num)),
    ;

    /// Ends the stream and hands out its bytes, the last one filled up with
    /// zero bits.
    fn close(self) -> (bytes: Vec<u8>)
        requires
            self.inv(),
        ensures
            unpack(bytes@) == self.bits() + zeros(padding(self.bits().len())),
    ;
}

/// A source of bits.
pub trait Read {
    /// The representation invariant.
    spec fn inv(&self) -> bool;

    /// The bits not yet read.
    spec fn remaining(&self) -> Seq<bool>;

    /// Takes one bit off the stream, if there is one.
    fn read_bit(&mut self) -> (r: Result<Bit, Error>)
        requires
            old(self).inv(),
        ensures
            final(self).inv(),
            (match r {
                Ok(bit) => {
                    &&& old(self).remaining().len() >= 1
                    &&& bit.is_one() == old(self).remaining()[0]
                    &&& final(self).remaining() == old(self).remaining().skip(1)
                },
                Err(e) => {
                    &&& old(self).remaining().len() == 0
                    &&& final(self).remaining() == old(self).remaining()
                },
            }),
    ;

    /// Takes `num` bits off the stream as a number, most significant bit
    /// first. A stream too short for that is left as it is.
    fn read_bits(&mut self, num: u32) -> (r: Result<u64, Error>)
        requires
            old(self).inv(),
        ensures
            final(self).inv(),
            (match r {
                Ok(v) => {
                    &&& old(self).remaining().len() >= width(num)
                    &&& v == value_of(old(self).remaining().take(width(num) as int))
                    &&& final(self).remaining() == old(self).remaining().skip(width(num) as int)
                },
                Err(e) => {
                    &&& old(self).remaining().len() < width(num)
                    &&& final(self).remaining() == old(self).remaining()
                },
            }),
    ;

    /// The number that `read_bits` would deliver, without consuming anything.
    fn peek_bits(&mut self, num: u32) -> (r: Result<u64, Error>)
        requires
            old(self).inv(),
        ensures
            final(self).inv(),
            final(self).remaining() == old(self).remaining(),
            (match r {
                Ok(v) => {
                    &&& old(self).remaining().len() >= width(num)
                    &&& v == value_of(old(self).remaining().take(width(num) as int))
                },
                Err(e) => old(self).remaining().len() < width(num),
            }),
    ;
}

proof fn lemma_set_bit(b: u8, p: u8, k: u8)
    requires
        p < 8,
        k < 8,
    ensures
        byte_bit(b | (1u8 << ((7 - p) as u8)), k) == (k == p || byte_bit(b, k)),
{
    assert((((b | (1u8 << ((7 - p) as u8))) >> ((7 - k) as u8)) & 1 == 1) == (k == p || ((b >> ((7
        - k) as u8)) & 1 == 1))) by (bit_vector)
        requires
            p < 8,
            k < 8,
    ;
}

proof fn lemma_zero_byte(k: u8)
    requires
        k < 8,
    ensures
        !byte_bit(0u8, k),
{
    assert(!((0u8 >> ((7 - k) as u8)) & 1 == 1)) by (bit_vector)
        requires
            k < 8,
    ;
}

/// A bit writer that collects its output in memory.
#[derive(Debug)]
pub struct BufferedWriter {
    bytes: Vec<u8>,
    /// How many bits of the last byte are taken; 8 when a new byte is due.
    fill: u8,
}

impl BufferedWriter {
    /// The number of bits written.
    pub closed spec fn len(&self) -> int {
        8 * self.bytes@.len() + self.fill - 8
    }

    /// A writer that holds nothing yet.
    pub fn new() -> (w: BufferedWriter)
        ensures
            w.inv(),
            w.bits() == Seq::<bool>::empty(),
    {
        let w = BufferedWriter { bytes: Vec::new(), fill: 8 };
        assert(w.bits() =~= Seq::<bool>::empty());
        w
    }
}

impl Write for BufferedWriter {
    closed spec fn inv(&self) -> bool {
        &&& 1 <= self.fill <= 8
        &&& self.bytes@.len() == 0 ==> self.fill == 8
        &&& forall|k: u8|
            self.fill <= k < 8 ==> !#[trigger] byte_bit(self.bytes@[self.bytes@.len() - 1], k)
    }

    closed spec fn bits(&self) -> Seq<bool> {
        unpack(self.bytes@).take(self.len())
    }

    fn write_bit(&mut self, bit: Bit) {
        if self.fill == 8 {
            self.bytes.push(0);
            self.fill = 0;
            proof {
                assert forall|k: u8| k < 8 implies !#[trigger] byte_bit(0u8, k) by {
                    lemma_zero_byte(k);
                }
                assert(self.bits() =~= old(self).bits());
            }
        }
        let ghost mid = *self;
        let last = self.bytes.len() - 1;
        let b = self.bytes[last];
        match bit {
            Bit::One => {
                self.bytes.set(last, b | (1u8 << (7 - self.fill)));
            },
            Bit::Zero => {},
        }
        self.fill = self.fill + 1;
        proof {
            let p = mid.fill;
            let nb = self.bytes@[last as int];
            assert forall|k: u8| k < 8 implies byte_bit(nb, k) == ((k == p && bit.is_one())
                || byte_bit(b, k)) by {
                lemma_set_bit(b, p, k);
            }
            assert(self.bits().len() == mid.bits().len() + 1);
            assert forall|i: int| 0 <= i < self.bits().len() implies self.bits()[i]
                == mid.bits().push(bit.is_one())[i] by {
                if i / 8 == last {
                    assert(byte_bit(nb, (i % 8) as u8) == (((i % 8) as u8 == p && bit.is_one())
                        || byte_bit(b, (i % 8) as u8)));
                    if i == mid.len() {
                        assert((i % 8) as u8 == p);
                        assert(!byte_bit(b, p));
                    }
                }
            }
            assert(self.bits() =~= mid.bits().push(bit.is_one()));
        }
    }

    fn write_bits(&mut self, value: u64, num: u32) {
        let n: u32 = if num > 64 { 64 } else { num };
        let mut i: u32 = 0;
        while i < n
            invariant
                n == width(num),
                i <= n,
                self.inv(),
                self.bits() == old(self).bits() + bits_of(value, n as nat).take(i as int),
            decreases n - i,
        {
            let shift: u32 = n - 1 - i;
            let bit = if (value >> shift) & 1 == 1 { Bit::One } else { Bit::Zero };
            self.write_bit(bit);
            proof {
                let all = bits_of(value, n as nat);
                assert(bit.is_one() == all[i as int]);
                assert(all.take(i + 1) =~= all.take(i as int).push(all[i as int]));
                assert(self.bits() =~= old(self).bits() + all.take(i + 1));
            }
            i = i + 1;
        }
        proof {
            let all = bits_of(value, n as nat);
            assert(all.take(n as int) =~= all);
        }
    }

    fn close(self) -> (bytes: Vec<u8>) {
        proof {
            let all = unpack(self.bytes@);
            let pad = padding(self.bits().len());
            assert(self.len() % 8 == self.fill % 8);
            assert(pad == 8 - self.fill);
            assert forall|i: int| self.len() <= i < all.len() implies !all[i] by {
                assert(i / 8 == self.bytes@.len() - 1);
                assert(self.fill <= ((i % 8) as u8) && ((i % 8) as u8) < 8);
            }
            assert(all =~= self.bits() + zeros(pad));
        }
        self.bytes
    }
}

/// A bit reader over bytes held in memory.
#[derive(Debug)]
pub struct BufferedReader {
    bytes: Vec<u8>,
    /// The byte that the next bit comes from.
    index: usize,
    /// The place of the next bit in that byte, from the most significant one.
    pos: u8,
}

impl BufferedReader {
    /// The number of bits already read.
    pub closed spec fn offset(&self) -> int {
        8 * self.index + self.pos
    }

    /// A reader at the first bit of `bytes`.
    pub fn new(bytes: Vec<u8>) -> (r: BufferedReader)
        ensures
            r.inv(),
            r.remaining() == unpack(bytes@),
    {
        let r = BufferedReader { bytes, index: 0, pos: 0 };
        assert(r.remaining() =~= unpack(bytes@));
        r
    }

    /// Whether at least `n` bits are left.
    fn has(&self, n: u32) -> (yes: bool)
        requires
            self.inv(),
            n <= 64,
        ensures
            yes == (self.remaining().len() >= n),
    {
        let left: usize = self.bytes.len() - self.index;
        if left >= 9 {
            true
        } else {
            8 * left - (self.pos as usize) >= n as usize
        }
    }
}

impl BufferedReader {
    /// Takes the next bit off a stream that has one.
    fn next_bit(&mut self) -> (bit: Bit)
        requires
            old(self).inv(),
            old(self).remaining().len() >= 1,
        ensures
            final(self).inv(),
            final(self).bytes == old(self).bytes,
            bit.is_one() == old(self).remaining()[0],
            final(self).remaining() == old(self).remaining().skip(1),
    {
        let b = self.bytes[self.index];
        let bit = if (b >> (7 - self.pos)) & 1 == 1 { Bit::One } else { Bit::Zero };
        proof {
            let i = self.offset();
            assert(i / 8 == self.index && i % 8 == self.pos);
            assert(self.index < self.bytes.len());
            assert(old(self).remaining()[0] == unpack(self.bytes@)[i]);
        }
        if self.pos == 7 {
            self.index = self.index + 1;
            self.pos = 0;
        } else {
            self.pos = self.pos + 1;
        }
        assert(self.remaining() =~= old(self).remaining().skip(1));
        bit
    }

    /// Takes the next `n` bits off a stream that has as many.
    fn take(&mut self, n: u32) -> (value: u64)
        requires
            old(self).inv(),
            n <= 64,
            old(self).remaining().len() >= n,
        ensures
            final(self).inv(),
            final(self).bytes == old(self).bytes,
            value == value_of(old(self).remaining().take(n as int)),
            final(self).remaining() == old(self).remaining().skip(n as int),
    {
        let mut value: u64 = 0;
        let mut i: u32 = 0;
        assert(self.remaining() =~= old(self).remaining().skip(0));
        while i < n
            invariant
                i <= n,
                n <= old(self).remaining().len(),
                self.inv(),
                self.bytes == old(self).bytes,
                self.remaining() == old(self).remaining().skip(i as int),
                value == value_of(old(self).remaining().take(i as int)),
            decreases n - i,
        {
            let ghost all = old(self).remaining();
            let bit = self.next_bit();
            value = (value << 1) | bit.to_u64();
            proof {
                assert(all.take(i + 1).drop_last() =~= all.take(i as int));
                assert(all.take(i + 1).last() == all[i as int]);
                assert(self.remaining() =~= all.skip(i + 1));
            }
            i = i + 1;
        }
        value
    }
}

impl Read for BufferedReader {
    closed spec fn inv(&self) -> bool {
        &&& self.index <= self.bytes@.len()
        &&& self.pos < 8
        &&& self.index == self.bytes@.len() ==> self.pos == 0
    }

    closed spec fn remaining(&self) -> Seq<bool> {
        unpack(self.bytes@).skip(self.offset())
    }

    fn read_bit(&mut self) -> (r: Result<Bit, Error>) {
        if self.index >= self.bytes.len() {
            return Err(Error::Eof);
        }
        Ok(self.next_bit())
    }

    fn read_bits(&mut self, num: u32) -> (r: Result<u64, Error>) {
        let n: u32 = if num > 64 { 64 } else { num };
        if !self.has(n) {
            return Err(Error::Eof);
        }
        Ok(self.take(n))
    }

    fn peek_bits(&mut self, num: u32) -> (r: Result<u64, Error>) {
        let n: u32 = if num > 64 { 64 } else { num };
        if !self.has(n) {
            return Err(Error::Eof);
        }
        let index = self.index;
        let pos = self.pos;
        let value = self.take(n);
        self.index = index;
        self.pos = pos;
        Ok(value)
    }
}

/// A number of fewer than 64 binary digits is below the power of two that
/// has one digit more.
pub proof fn lemma_value_of_bound(bits: Seq<bool>)
    requires
        bits.len() < 64,
    ensures
        value_of(bits) < (1u64 << (bits.len() as u64)),
    decreases bits.len(),
{
    let n = bits.len() as u64;
    if n == 0 {
        assert(0u64 < (1u64 << 0u64)) by (bit_vector);
    } else {
        lemma_value_of_bound(bits.drop_last());
        let x = value_of(bits.drop_last());
        let b = if bits.last() { 1u64 } else { 0u64 };
        let m = (n - 1) as u64;
        assert(((x << 1) | b) < (1u64 << n)) by (bit_vector)
            requires
                x < (1u64 << m),
                m + 1 == n,
                n < 64,
                b <= 1,
        ;
    }
}

/// The low `n` bits of `value` as a number.
pub open spec fn low_bits(value: u64, n: nat) -> u64 {
    if n >= 64 {
        value
    } else {
        value & (((1u64 << (n as u64)) - 1) as u64)
    }
}

proof fn lemma_low_bits_step(value: u64, n: u64)
    requires
        1 <= n <= 64,
    ensures
        ((low_bits(value >> 1, (n - 1) as nat) << 1) | (if bit_of(value, 0) {
            1u64
        } else {
            0u64
        })) == low_bits(value, n as nat),
        low_bits(value, 0) == 0,
{
    let m = (n - 1) as u64;
    let b = if bit_of(value, 0) { 1u64 } else { 0u64 };
    assert(b == value & 1 && (value & (((1u64 << 0u64) - 1) as u64)) == 0) by (bit_vector)
        requires
            b == (if (value >> 0u64) & 1 == 1 { 1u64 } else { 0u64 }),
    ;
    if n == 64 {
        assert(((((value >> 1) & (((1u64 << 63u64) - 1) as u64)) << 1) | (value & 1)) == value)
            by (bit_vector);
    } else {
        assert(((((value >> 1) & (((1u64 << m) - 1) as u64)) << 1) | (value & 1)) == value & (((
        1u64 << n) - 1) as u64)) by (bit_vector)
            requires
                m + 1 == n,
                n < 64,
        ;
    }
}

proof fn lemma_shifted_bit(value: u64, k: u64)
    requires
        k < 63,
    ensures
        bit_of(value >> 1, k) == bit_of(value, (k + 1) as u64),
{
    let k1 = (k + 1) as u64;
    assert((((value >> 1) >> k) & 1 == 1) == ((value >> k1) & 1 == 1)) by (bit_vector)
        requires
            k < 63,
            k1 == k + 1,
    ;
}

/// Reading back the `n` bits written for `value` gives the low `n` bits of
/// `value`.
pub proof fn lemma_value_of_bits_of(value: u64, n: nat)
    requires
        n <= 64,
    ensures
        value_of(bits_of(value, n)) == low_bits(value, n),
    decreases n,
{
    lemma_low_bits_step(value, if n == 0 { 1 } else { n as u64 });
    if n > 0 {
        let s = bits_of(value, n);
        let t = bits_of(value >> 1, (n - 1) as nat);
        assert forall|i: int| 0 <= i < n - 1 implies s.drop_last()[i] == t[i] by {
            lemma_shifted_bit(value, (n - 2 - i) as u64);
        }
        assert(s.drop_last() =~= t);
        lemma_value_of_bits_of(value >> 1, (n - 1) as nat);
        assert(s.last() == bit_of(value, 0));
    }
}

/// A byte is known by its eight bits.
proof fn lemma_byte_by_bits(a: u8, b: u8)
    requires
        forall|k: u8| k < 8 ==> byte_bit(a, k) == byte_bit(b, k),
    ensures
        a == b,
{
    assert(byte_bit(a, 0) == byte_bit(b, 0) && byte_bit(a, 1) == byte_bit(b, 1) && byte_bit(a, 2)
        == byte_bit(b, 2) && byte_bit(a, 3) == byte_bit(b, 3) && byte_bit(a, 4) == byte_bit(b, 4)
        && byte_bit(a, 5) == byte_bit(b, 5) && byte_bit(a, 6) == byte_bit(b, 6) && byte_bit(a, 7)
        == byte_bit(b, 7));
    assert(a == b) by (bit_vector)
        requires
            ((a >> 7u8) & 1 == 1) == ((b >> 7u8) & 1 == 1),
            ((a >> 6u8) & 1 == 1) == ((b >> 6u8) & 1 == 1),
            ((a >> 5u8) & 1 == 1) == ((b >> 5u8) & 1 == 1),
            ((a >> 4u8) & 1 == 1) == ((b >> 4u8) & 1 == 1),
            ((a >> 3u8) & 1 == 1) == ((b >> 3u8) & 1 == 1),
            ((a >> 2u8) & 1 == 1) == ((b >> 2u8) & 1 == 1),
            ((a >> 1u8) & 1 == 1) == ((b >> 1u8) & 1 == 1),
            ((a >> 0u8) & 1 == 1) == ((b >> 0u8) & 1 == 1),
    ;
}

/// Byte strings with the same bits are the same: to say what the bits of a
/// byte string are is to say what the bytes are.
pub proof fn lemma_unpack_injective(a: Seq<u8>, b: Seq<u8>)
    requires
        unpack(a) == unpack(b),
    ensures
        a == b,
{
    assert(unpack(a).len() == 8 * a.len() && unpack(b).len() == 8 * b.len());
    assert(a.len() == b.len());
    assert forall|i: int| 0 <= i < a.len() implies a[i] == b[i] by {
        assert forall|k: u8| k < 8 implies byte_bit(a[i], k) == byte_bit(b[i], k) by {
            let j = 8 * i + k;
            assert(j / 8 == i && j % 8 == k);
            assert(unpack(a)[j] == byte_bit(a[i], k));
            assert(unpack(b)[j] == byte_bit(b[i], k));
        }
        lemma_byte_by_bits(a[i], b[i]);
    }
    assert(a =~= b);
}

/// Reading `n` bits from a stream that begins with the `n` bits written for
/// `value` gives the low bits of `value` and leaves what followed them.
pub proof fn lemma_read_back(value: u64, n: nat, rest: Seq<bool>)
    requires
        n <= 64,
    ensures
        (bits_of(value, n) + rest).len() >= n,
        value_of((bits_of(value, n) + rest).take(n as int)) == low_bits(value, n),
        (bits_of(value, n) + rest).skip(n as int) == rest,
{
    lemma_value_of_bits_of(value, n);
    assert((bits_of(value, n) + rest).take(n as int) =~= bits_of(value, n));
    assert((bits_of(value, n) + rest).skip(n as int) =~= rest);
}

} // verus!

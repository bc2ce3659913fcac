//! A bit reader over a byte stream: fields are read most significant bit first.
use crate::bits::{
    bits_value, byte_bits, bytes_bits, lemma_bits_value_bound, lemma_bits_value_concat,
    lemma_bits_value_nat_bits, lemma_nat_bits_of_value,
    lemma_byte_bits_value, lemma_bytes_bits_concat, lemma_bytes_bits_first,
    lemma_bytes_bits_injective, lemma_bytes_bits_len, lemma_bytes_bits_skip, lemma_nat_bits_len,
    lemma_nat_bits_push_byte, lemma_nat_bits_split, nat_bits,
};
use crate::reader::ByteReader;
use vstd::arithmetic::div_mod::{lemma_fundamental_div_mod, lemma_multiply_divide_lt};
use vstd::arithmetic::power2::{
    lemma2_to64, lemma2_to64_rest, lemma_pow2_adds, lemma_pow2_pos, lemma_pow2_strictly_increases,
    pow2,
};
use vstd::bits::{
    lemma_u64_low_bits_mask_is_mod, lemma_u64_shl_is_mul, lemma_u64_shr_is_div, low_bits_mask,
};
use vstd::prelude::*;

verus! {

/// Size of the byte buffer that a reader refills from its stream.
pub const DEFAULT_BUF_SIZE: usize = 1024;

/// Why a read from a [`Biter`] failed.
#[derive(Debug, Clone, Copy, PartialEq, Eq)]
pub enum BiterError {
    /// The stream ended before the requested bits or bytes.
    EOF,
    /// More than 32 bits were requested for one value.
    TooManyBits,
    /// A byte-wise read was requested while the reader stood inside a byte.
    NotByteAligned,
}

/// A bit reader. It refills a buffer of `BUF_SIZE` bytes from its stream and
/// keeps the bits it has taken from the buffer but not yet handed out in a
/// reservoir: the lowest `bit_len` bits of `bit_buf`, next bit highest.
pub struct Biter<const BUF_SIZE: usize> {
    stream: ByteReader,
    byte_buf: Vec<u8>,
    byte_pos: usize,
    byte_len: usize,
    bit_buf: u64,
    bit_len: u8,
}

/// Conversion of a raw bit string (`bslbf`, left bit first) to a field type.
pub trait FromBSLBF: Sized {
    /// The field value for raw bits `s`.
    spec fn bslbf_value(s: u32) -> Self;

    fn from_bits(s: u32) -> (r: Self)
        ensures
            r == Self::bslbf_value(s),
    ;
}

/// Conversion of an unsigned integer (`uimsbf`, most significant bit first) to a field type.
pub trait FromUIMSBF: Sized {
    /// The field value for the integer `s`.
    spec fn uimsbf_value(s: u32) -> Self;

    fn from_bits(s: u32) -> (r: Self)
        ensures
            r == Self::uimsbf_value(s),
    ;
}

/// How many bits stay in the reservoir after a successful read of `n` bits
/// from a reservoir of `l` bits: whole bytes are pulled in only as needed.
pub open spec fn bit_count_after_read(l: nat, n: nat) -> nat {
    if l >= n {
        (l - n) as nat
    } else {
        ((l - n) % 8) as nat
    }
}

/// The position inside a buffer of `size` bytes, refilled only when empty,
/// after `t` bytes were taken through it from its first fill on.
pub open spec fn chunk_pos(t: nat, size: nat) -> nat {
    if t == 0 {
        0
    } else {
        (((t - 1) as nat) % size) + 1
    }
}

proof fn lemma_chunk_pos_step(t: nat, size: nat)
    requires
        size > 0,
    ensures
        chunk_pos(t, size) <= size,
        chunk_pos(t, size) < size ==> chunk_pos(t + 1, size) == chunk_pos(t, size) + 1,
        chunk_pos(t, size) == size ==> chunk_pos(t + 1, size) == 1,
        t == 0 ==> chunk_pos(t + 1, size) == 1,
{
    assert(0nat % size == 0) by (nonlinear_arith)
        requires
            size > 0,
    ;
    assert(chunk_pos((t + 1) as nat, size) == (t % size) + 1);
    if t > 0 {
        let a = (t - 1) as nat;
        assert(t == a + 1);
        assert(a % size < size) by (nonlinear_arith)
            requires
                size > 0,
        ;
        if a % size + 1 < size {
            assert((a + 1) % size == a % size + 1) by (nonlinear_arith)
                requires
                    size > 0,
                    a % size + 1 < size,
            ;
        } else {
            assert((a + 1) % size == 0) by (nonlinear_arith)
                requires
                    size > 0,
                    a % size + 1 == size,
            ;
        }
    }
}

/// How many bytes are left in a stream of `total` bytes once `total - left`
/// bytes were taken through a buffer of `size` bytes: each refill reads a
/// full buffer, or what is left.
pub open spec fn stream_left(total: nat, left: nat, size: nat) -> nat {
    if total <= left {
        total
    } else {
        let read = ((((total - left) as nat - 1) as nat / size) + 1) * size;
        if read >= total {
            0
        } else {
            (total - read) as nat
        }
    }
}

proof fn lemma_stream_left_step(t: nat, left: nat, size: nat)
    requires
        size > 0,
        1 <= left <= t,
    ensures
        t > left && chunk_pos((t - left) as nat, size) < size ==> stream_left(t, (left - 1) as nat, size)
            == stream_left(t, left, size),
        t > left && chunk_pos((t - left) as nat, size) == size ==> stream_left(t, left, size) == left
            && stream_left(t, (left - 1) as nat, size) == left - (if left < size {
            left
        } else {
            size
        }),
        t == left ==> stream_left(t, left, size) == t && stream_left(t, (left - 1) as nat, size) == t
            - (if t < size {
            t
        } else {
            size
        }),
{
    let d = (t - left) as nat;
    if t == left {
        assert(0nat / size == 0) by (nonlinear_arith)
            requires
                size > 0,
        ;
        assert((0nat / size + 1) * size == size) by (nonlinear_arith)
            requires
                size > 0,
                0nat / size == 0,
        ;
    } else {
        let a = (d - 1) as nat;
        assert(a % size < size && a == size * (a / size) + a % size) by (nonlinear_arith)
            requires
                size > 0,
        ;
        if a % size + 1 < size {
            assert(d / size == a / size) by (nonlinear_arith)
                requires
                    size > 0,
                    d == a + 1,
                    a % size + 1 < size,
                    a == size * (a / size) + a % size,
            ;
        } else {
            assert(d / size == a / size + 1 && (a / size + 1) * size == d) by (nonlinear_arith)
                requires
                    size > 0,
                    d == a + 1,
                    a % size + 1 == size,
                    a == size * (a / size) + a % size,
            ;
            assert((d / size + 1) * size == d + size) by (nonlinear_arith)
                requires
                    size > 0,
                    d / size == a / size + 1,
                    (a / size + 1) * size == d,
            ;
        }
    }
}

proof fn lemma_pow2_strictly_increases_or_eq(a: nat, b: nat)
    requires
        a <= b,
    ensures
        pow2(a) <= pow2(b),
{
    if a < b {
        lemma_pow2_strictly_increases(a, b);
    }
}

/// Reads one after another leave the reservoir as one read of all their bits would.
pub proof fn lemma_bit_count_after_reads(l: nat, a: nat, b: nat)
    ensures
        bit_count_after_read(bit_count_after_read(l, a), b) == bit_count_after_read(l, a + b),
{
    let c = bit_count_after_read(l, a);
    if l >= a {
    } else {
        let x = l - a;
        assert(c == x % 8);
        if c >= b {
            assert((x - b) % 8 == x % 8 - b) by (nonlinear_arith)
                requires
                    x % 8 >= b,
            ;
        } else {
            assert((x % 8 - b) % 8 == (x - b) % 8) by (nonlinear_arith);
        }
    }
}

impl<const BUF_SIZE: usize> Biter<BUF_SIZE> {
    /// The reader's internal consistency.
    pub closed spec fn wf(&self) -> bool {
        &&& self.buf_wf()
        &&& self.bit_len <= 32
    }

    closed spec fn buf_wf(&self) -> bool {
        &&& 0 < BUF_SIZE
        &&& BUF_SIZE as nat * 8 + 64 <= u64::MAX
        &&& self.byte_buf@.len() == BUF_SIZE
        &&& self.byte_pos <= self.byte_len <= BUF_SIZE
        &&& self.bit_len <= 40
        &&& self.bit_buf < pow2(self.bit_len as nat)
    }

    /// The reader started with an empty buffer before `total` bytes, and has
    /// pulled each byte it took through its buffer since then.
    pub closed spec fn pulled_from(&self, total: nat) -> bool {
        let left = self.bytes_left().len();
        &&& left <= total
        &&& self.byte_pos as nat == chunk_pos((total - left) as nat, BUF_SIZE as nat)
        &&& (left == total ==> self.byte_len == 0)
        &&& (self.byte_len < BUF_SIZE ==> self.reader().rest().len() == 0 || left == total)
        &&& self.reader().rest().len() == stream_left(total, left, BUF_SIZE as nat)
    }

    /// Bytes taken from the stream into the buffer and not yet consumed.
    pub closed spec fn buffered(&self) -> Seq<u8> {
        self.byte_buf@.subrange(self.byte_pos as int, self.byte_len as int)
    }

    /// Bits taken from the buffer and not yet handed out, next bit first.
    pub closed spec fn reservoir(&self) -> Seq<bool> {
        nat_bits(self.bit_buf as nat, self.bit_len as nat)
    }

    /// The underlying stream.
    pub closed spec fn reader(&self) -> ByteReader {
        self.stream
    }

    /// Number of bits in the reservoir.
    pub closed spec fn bit_count(&self) -> nat {
        self.bit_len as nat
    }

    /// Position of the next unconsumed byte inside the buffer.
    pub closed spec fn buffer_pos(&self) -> nat {
        self.byte_pos as nat
    }

    /// Bytes not yet taken into the reservoir: the buffered ones, then the stream's.
    pub open spec fn bytes_left(&self) -> Seq<u8> {
        self.buffered() + self.reader().rest()
    }

    /// All bits that reads will deliver, in order.
    pub open spec fn remaining(&self) -> Seq<bool> {
        self.reservoir() + bytes_bits(self.bytes_left())
    }

    /// The reader stands on a byte boundary.
    pub open spec fn is_byte_aligned(&self) -> bool {
        self.bit_count() % 8 == 0
    }

    /// The value of the next `bits` bits, most significant first.
    pub open spec fn peek_value(self, bits: nat) -> u32 {
        bits_value(self.remaining().take(bits as int)) as u32
    }

    /// `next` is this reader after `bits` bits were read from it.
    pub open spec fn advanced(self, next: Self, bits: nat) -> bool {
        &&& next.wf()
        &&& bits <= self.remaining().len()
        &&& next.reader().data() == self.reader().data()
        &&& next.remaining() == self.remaining().skip(bits as int)
        &&& next.bit_count() == bit_count_after_read(self.bit_count(), bits)
        &&& forall|t: nat| #[trigger] self.pulled_from(t) ==> next.pulled_from(t)
    }

    /// `next` is this reader after a read of `bits` bits failed with `e`: too
    /// many bits change nothing; at the end of the stream every byte left has
    /// been pulled in, and on the byte-wise path the partial value is lost.
    pub open spec fn failed_read(self, next: Self, bits: nat, e: BiterError) -> bool {
        if bits > 32 {
            e == BiterError::TooManyBits && next == self
        } else {
            &&& e == BiterError::EOF
            &&& bits > self.remaining().len()
            &&& next.wf()
            &&& next.reader().data() == self.reader().data()
            &&& if self.bit_count() == 0 && bits % 8 == 0 {
                next.remaining() == Seq::<bool>::empty() && next.bit_count() == 0
            } else {
                next.remaining() == self.remaining() && next.bit_count()
                    == self.remaining().len()
            }
        }
    }

    /// A consistent reader holds at most 32 bits in its reservoir.
    pub proof fn lemma_bit_count_bound(&self)
        requires
            self.wf(),
        ensures
            self.bit_count() <= 32,
    {
    }

    /// The bits left are those of the reservoir and eight for each byte not yet pulled in.
    pub proof fn lemma_reservoir_len(&self)
        ensures
            self.reservoir().len() == self.bit_count(),
            self.remaining().len() == self.bit_count() + 8 * self.bytes_left().len(),
    {
        lemma_nat_bits_len(self.bit_buf as nat, self.bit_len as nat);
        lemma_bytes_bits_len(self.bytes_left());
    }

    /// Reading nothing leaves a reader as it is.
    pub proof fn lemma_advanced_none(&self)
        requires
            self.wf(),
        ensures
            self.advanced(*self, 0),
    {
        assert(self.remaining().skip(0) =~= self.remaining());
    }

    /// Two reads one after another advance a reader by the bits of both.
    pub proof fn lemma_advanced_trans(a: Self, b: Self, c: Self, n1: nat, n2: nat)
        requires
            a.advanced(b, n1),
            b.advanced(c, n2),
        ensures
            a.advanced(c, n1 + n2),
    {
        assert(a.remaining().skip(n1 as int).skip(n2 as int) =~= a.remaining().skip((n1 + n2) as int));
        lemma_bit_count_after_reads(a.bit_count(), n1, n2);
    }

    /// Between two readers with empty reservoirs, reading `bits` bits (a
    /// multiple of eight) drops that many bytes from those not pulled in.
    pub proof fn lemma_whole_bytes_read(a: Self, b: Self, bits: nat)
        requires
            a.bit_count() == 0,
            b.bit_count() == 0,
            bits % 8 == 0,
            bits <= a.remaining().len(),
            b.remaining() == a.remaining().skip(bits as int),
        ensures
            b.bytes_left() == a.bytes_left().skip((bits / 8) as int),
            a.remaining() == bytes_bits(a.bytes_left()),
            b.remaining() == bytes_bits(b.bytes_left()),
    {
        a.lemma_reservoir_len();
        b.lemma_reservoir_len();
        assert(a.reservoir() =~= Seq::<bool>::empty());
        assert(b.reservoir() =~= Seq::<bool>::empty());
        assert(a.remaining() =~= bytes_bits(a.bytes_left()));
        assert(b.remaining() =~= bytes_bits(b.bytes_left()));
        lemma_bytes_bits_skip(a.bytes_left(), (bits / 8) as int);
        lemma_bytes_bits_injective(b.bytes_left(), a.bytes_left().skip((bits / 8) as int));
    }

    /// A reader holding fewer than eight bits still does after any read: it
    /// only pulls in the bytes a read needs. From a reader holding nothing,
    /// reading `p` bits leaves `(8 - p % 8) % 8` bits held, so `is_aligned`
    /// then tells whether that number is a multiple of its word size.
    pub proof fn law_bits_held_after_reads(b0: Self, b: Self, p: nat)
        requires
            b0.advanced(b, p),
            b0.bit_count() < 8,
        ensures
            b.bit_count() < 8,
            b0.bit_count() == 0 ==> b.bit_count() == (8 - p % 8) % 8,
    {
        let l = b0.bit_count();
        if l < p {
            assert(((l - p) % 8) < 8);
        }
        if l == 0 && p > 0 {
            assert((0 - p) % 8 == (8 - p % 8) % 8) by (nonlinear_arith)
                requires
                    p > 0,
            ;
        }
    }

    /// Reading `a` bits and then `b` bits gives the value that reading `a + b`
    /// bits at once gives, split in two: the first read holds the high bits.
    pub proof fn law_split_read(b0: Self, b1: Self, a: nat, b: nat)
        requires
            b0.advanced(b1, a),
            a + b <= 32,
            a + b <= b0.remaining().len(),
        ensures
            b0.peek_value(a + b) == b0.peek_value(a) * pow2(b) + b1.peek_value(b),
    {
        let r = b0.remaining();
        let x = r.take(a as int);
        let y = b1.remaining().take(b as int);
        assert(r.take((a + b) as int) =~= x + y);
        lemma_bits_value_concat(x, y);
        crate::bits::lemma_bits_value_bound(x);
        crate::bits::lemma_bits_value_bound(y);
        crate::bits::lemma_bits_value_bound(r.take((a + b) as int));
        lemma_pow2_strictly_increases_or_eq(a + b, 32);
        lemma_pow2_strictly_increases_or_eq(a, 32);
        lemma_pow2_strictly_increases_or_eq(b, 32);
        lemma2_to64();
    }

    /// A reader at the start of `stream`, with empty buffer and reservoir.
    pub fn new(stream: ByteReader) -> (r: Self)
        requires
            BUF_SIZE > 0,
            BUF_SIZE as nat * 8 + 64 <= u64::MAX,
        ensures
            r.wf(),
            r.reader() == stream,
            r.buffered() == Seq::<u8>::empty(),
            r.bit_count() == 0,
            r.buffer_pos() == 0,
            r.bytes_left() == stream.rest(),
            r.remaining() == bytes_bits(stream.rest()),
            r.pulled_from(stream.rest().len()),
    {
        proof {
            lemma2_to64();
        }
        let r = Biter {
            stream,
            byte_buf: vec![0u8; BUF_SIZE],
            byte_pos: 0,
            byte_len: 0,
            bit_buf: 0,
            bit_len: 0,
        };
        assert(r.buffered() =~= Seq::<u8>::empty());
        assert(r.bytes_left() =~= stream.rest());
        assert(r.reservoir() =~= Seq::<bool>::empty());
        assert(r.remaining() =~= bytes_bits(stream.rest()));
        r
    }

    /// The next byte of the stream, through the buffer.
    fn next_byte(&mut self) -> (r: Result<u8, BiterError>)
        requires
            old(self).buf_wf(),
        ensures
            final(self).buf_wf(),
            final(self).bit_buf == old(self).bit_buf,
            final(self).bit_len == old(self).bit_len,
            final(self).reader().data() == old(self).reader().data(),
            r matches Ok(b) ==> old(self).bytes_left().len() > 0 && b == old(self).bytes_left()[0]
                && final(self).bytes_left() == old(self).bytes_left().drop_first(),
            r is Err ==> r == Err::<u8, BiterError>(BiterError::EOF) && old(self).bytes_left().len() == 0 && final(self).bytes_left().len() == 0,
            r is Ok ==> forall|t: nat| #[trigger] old(self).pulled_from(t) ==> final(self).pulled_from(t),
    {
        proof {
            assert forall|t: nat| #[trigger] old(self).pulled_from(t) implies old(self).bytes_left().len() <= t by {}
        }
        if self.byte_pos == self.byte_len {
            assert(old(self).buffered() =~= Seq::<u8>::empty());
            assert(old(self).bytes_left() =~= old(self).reader().rest());
            let n = self.stream.read(&mut self.byte_buf);
            self.byte_len = n;
            self.byte_pos = 0;
            assert(self.buffered() =~= old(self).reader().rest().take(n as int));
            assert(self.bytes_left() =~= old(self).bytes_left());
            if self.byte_len == 0 {
                return Err(BiterError::EOF);
            }
        }
        let byte = self.byte_buf[self.byte_pos];
        let ghost mid = *self;
        self.byte_pos = self.byte_pos + 1;
        assert(self.bytes_left() =~= old(self).bytes_left().drop_first());
        proof {
            assert forall|t: nat| #[trigger] old(self).pulled_from(t) implies self.pulled_from(t) by {
                let left = old(self).bytes_left().len();
                let d = (t - left) as nat;
                lemma_chunk_pos_step(d, BUF_SIZE as nat);
                lemma_stream_left_step(t, left, BUF_SIZE as nat);
                assert(self.bytes_left().len() == left - 1);
                assert((t - self.bytes_left().len()) as nat == d + 1);
                if old(self).byte_pos == old(self).byte_len {
                    if d > 0 {
                        assert(old(self).byte_len as nat == chunk_pos(d, BUF_SIZE as nat));
                        if old(self).byte_len < BUF_SIZE {
                            assert(old(self).reader().rest().len() == 0);
                            assert(false);
                        }
                    }
                    assert(mid.byte_pos == 0);
                } else {
                    assert(d > 0);
                }
            }
        }
        Ok(byte)
    }

    /// Pulls whole bytes into the reservoir until it holds at least `bits` bits.
    fn ensure_bits(&mut self, bits: usize) -> (r: Result<(), BiterError>)
        requires
            old(self).wf(),
            bits <= 32,
        ensures
            final(self).buf_wf(),
            final(self).remaining() == old(self).remaining(),
            final(self).reader().data() == old(self).reader().data(),
            final(self).bit_len >= old(self).bit_len,
            (final(self).bit_len - old(self).bit_len) % 8 == 0,
            final(self).bit_len == old(self).bit_len || final(self).bit_len < bits + 8,
            r is Ok ==> final(self).bit_len >= bits,
            r is Err ==> r == Err::<(), BiterError>(BiterError::EOF) && final(self).bytes_left().len() == 0 && final(self).bit_len < bits,
            r is Ok ==> forall|t: nat| #[trigger] old(self).pulled_from(t) ==> final(self).pulled_from(t),
    {
        while (self.bit_len as usize) < bits
            invariant
                forall|t: nat| #[trigger] old(self).pulled_from(t) ==> self.pulled_from(t),
                self.buf_wf(),
                bits <= 32,
                self.bit_len <= 39,
                self.remaining() == old(self).remaining(),
                self.reader().data() == old(self).reader().data(),
                self.bit_len >= old(self).bit_len,
                (self.bit_len - old(self).bit_len) % 8 == 0,
                self.bit_len == old(self).bit_len || self.bit_len < bits + 8,
            decreases self.bytes_left().len(),
        {
            let ghost before = *self;
            let byte = self.next_byte()?;
            let l = self.bit_len;
            let x = self.bit_buf;
            proof {
                lemma2_to64();
                if l < 31 {
                    lemma_pow2_strictly_increases(l as nat, 31);
                }
                assert(x < 0x8000_0000);
                assert(x < 0x8000_0000 ==> ((x << 8u64) | (byte as u64)) == x * 256 + byte)
                    by (bit_vector);
                lemma_pow2_adds(l as nat, 8);
                lemma_nat_bits_push_byte(x as nat, l as nat, byte);
                lemma_bytes_bits_first(before.bytes_left());
            }
            self.bit_buf = (x << 8u64) | (byte as u64);
            self.bit_len = l + 8;
            proof {
                assert forall|t: nat| #[trigger] old(self).pulled_from(t) implies self.pulled_from(t) by {
                    assert(before.pulled_from(t));
                }
                assert(self.bytes_left() == before.bytes_left().drop_first());
                assert(self.remaining() =~= before.remaining());
            }
        }
        Ok(())
    }

    /// Reads `nbytes` whole bytes as a big-endian integer while the reservoir is empty.
    fn read_whole_bytes(&mut self, nbytes: usize) -> (r: Result<u32, BiterError>)
        requires
            old(self).wf(),
            old(self).bit_len == 0,
            1 <= nbytes <= 4,
        ensures
            final(self).wf(),
            final(self).bit_len == 0,
            final(self).reader().data() == old(self).reader().data(),
            r is Ok <==> nbytes <= old(self).bytes_left().len(),
            r matches Ok(v) ==> v as nat == bits_value(
                bytes_bits(old(self).bytes_left().take(nbytes as int)),
            ) && final(self).bytes_left() == old(self).bytes_left().skip(nbytes as int),
            r is Err ==> r == Err::<u32, BiterError>(BiterError::EOF) && final(
                self).bytes_left().len() == 0,
            r is Ok ==> forall|t: nat| #[trigger] old(self).pulled_from(t) ==> final(self).pulled_from(t),
    {
        let ghost left0 = old(self).bytes_left();
        let mut value: u32 = 0;
        let mut i: usize = 0;
        proof {
            lemma2_to64();
            assert(left0.take(0) =~= Seq::<u8>::empty());
        }
        while i < nbytes
            invariant
                self.wf(),
                self.bit_len == 0,
                self.reader().data() == old(self).reader().data(),
                1 <= nbytes <= 4,
                i <= nbytes,
                i <= left0.len(),
                left0 == old(self).bytes_left(),
                self.bytes_left() == left0.skip(i as int),
                value as nat == bits_value(bytes_bits(left0.take(i as int))),
                value < pow2(8 * i as nat),
                forall|t: nat| #[trigger] old(self).pulled_from(t) ==> self.pulled_from(t),
            decreases nbytes - i,
        {
            let ghost before = *self;
            let byte = match self.next_byte() {
                Ok(b) => b,
                Err(e) => {
                    return Err(e);
                },
            };
            let ghost t = left0.take(i as int);
            proof {
                lemma2_to64();
                assert(left0.skip(i as int)[0] == left0[i as int]);
                assert(left0.take(i + 1) =~= t.push(byte));
                assert(t.push(byte).drop_last() =~= t);
                assert(bytes_bits(t.push(byte)) == bytes_bits(t) + byte_bits(byte));
                lemma_bits_value_concat(bytes_bits(t), byte_bits(byte));
                lemma_byte_bits_value(byte);
                assert(bits_value(bytes_bits(left0.take(i + 1))) == value * 256 + byte);
                if i < 3 {
                    lemma_pow2_strictly_increases(8 * i as nat, 24);
                }
                assert(value < 0x100_0000);
                assert(value < 0x100_0000 ==> ((value << 8u32) | (byte as u32)) == value * 256
                    + byte) by (bit_vector);
                lemma_pow2_adds(8 * i as nat, 8);
                assert(self.bytes_left() =~= left0.skip(i + 1));
            }
            proof {
                assert forall|t: nat| #[trigger] old(self).pulled_from(t) implies self.pulled_from(t) by {
                    assert(before.pulled_from(t));
                }
            }
            value = (value << 8u32) | (byte as u32);
            i = i + 1;
        }
        Ok(value)
    }

    /// Hands out the first `bits` bits of a reservoir that holds at least that many.
    fn take_reservoir_bits(&mut self, bits: usize) -> (v: u32)
        requires
            old(self).buf_wf(),
            0 < bits <= 32,
            bits <= old(self).bit_len <= 39,
        ensures
            final(self).buf_wf(),
            final(self).reader().data() == old(self).reader().data(),
            final(self).bytes_left() == old(self).bytes_left(),
            final(self).stream == old(self).stream,
            final(self).byte_buf == old(self).byte_buf,
            final(self).byte_pos == old(self).byte_pos,
            final(self).byte_len == old(self).byte_len,
            final(self).bit_len == old(self).bit_len - bits,
            v as nat == bits_value(old(self).reservoir().take(bits as int)),
            final(self).reservoir() == old(self).reservoir().skip(bits as int),
    {
        let l = self.bit_len;
        let bb = self.bit_buf;
        let shift: u8 = l - (bits as u8);
        let ghost q = bb as nat / pow2(shift as nat);
        let ghost rm = bb as nat % pow2(shift as nat);
        proof {
            lemma2_to64();
            lemma2_to64_rest();
            lemma_pow2_pos(shift as nat);
            lemma_u64_shr_is_div(bb, shift as u64);
            lemma_pow2_adds(bits as nat, shift as nat);
            assert(bits as nat + shift as nat == l as nat);
            assert(pow2(shift as nat) * pow2(bits as nat) == pow2(bits as nat) * pow2(shift as nat))
                by (nonlinear_arith);
            lemma_multiply_divide_lt(bb as int, pow2(shift as nat) as int, pow2(bits as nat) as int);
            assert(q < pow2(bits as nat));
            if bits < 32 {
                lemma_pow2_strictly_increases(bits as nat, 32);
            }
            assert(q < 0x1_0000_0000);
            lemma_nat_bits_split(bb as nat, bits as nat, shift as nat);
            lemma_nat_bits_len(q, bits as nat);
            lemma_bits_value_nat_bits(q, bits as nat);
        }
        let shifted = bb >> (shift as u64);
        assert(shifted == q);
        let value: u64 = if bits == 32 {
            assert(shifted < 0x1_0000_0000 ==> (shifted & 0xffff_ffffu64) == shifted)
                by (bit_vector);
            shifted & (u32::MAX as u64)
        } else {
            let b = bits as u64;
            proof {
                lemma_u64_shl_is_mul(1, b);
            }
            assert(b < 32 && shifted < (1u64 << b) ==> (shifted & (((1u64 << b) - 1) as u64))
                == shifted) by (bit_vector);
            shifted & ((1u64 << b) - 1)
        };
        assert(value == q);
        self.bit_len = shift;
        if shift == 0 {
            self.bit_buf = 0;
            proof {
                assert(nat_bits(0, 0) =~= nat_bits(rm, 0));
            }
        } else {
            let s = shift as u64;
            proof {
                lemma_u64_shl_is_mul(1, s);
                lemma_pow2_strictly_increases(s as nat, 64);
            }
            let mask = (1u64 << s) - 1;
            proof {
                assert(mask == low_bits_mask(s as nat) as u64);
                lemma_u64_low_bits_mask_is_mod(bb, s as nat);
            }
            self.bit_buf = bb & mask;
        }
        proof {
            assert(self.reservoir() =~= nat_bits(rm, shift as nat));
            assert(old(self).reservoir().take(bits as int) =~= nat_bits(q, bits as nat));
            assert(self.reservoir() =~= old(self).reservoir().skip(bits as int));
        }
        value as u32
    }

    /// Reads `bits` (at most 32) bits as an unsigned integer, most significant bit first.
    #[verifier::rlimit(40)]
    pub fn read_bits_u32(&mut self, bits: usize) -> (r: Result<u32, BiterError>)
        requires
            old(self).wf(),
        ensures
            r is Ok <==> bits <= 32 && bits <= old(self).remaining().len(),
            r matches Ok(v) ==> v == old(self).peek_value(bits as nat) && old(self).advanced(
                *final(self),
                bits as nat,
            ),
            r matches Err(e) ==> old(self).failed_read(*final(self), bits as nat, e),
    {
        proof {
            old(self).lemma_reservoir_len();
        }
        if bits > 32 {
            return Err(BiterError::TooManyBits);
        }
        if bits == 0 {
            assert(old(self).remaining().take(0) =~= Seq::<bool>::empty());
            assert(old(self).remaining().skip(0) =~= old(self).remaining());
            return Ok(0);
        }
        // Fast path for byte-aligned reads of whole bytes.
        if self.bit_len == 0 && bits % 8 == 0 {
            let ghost left0 = old(self).bytes_left();
            proof {
                assert(old(self).reservoir() =~= Seq::<bool>::empty());
                assert(old(self).remaining() =~= bytes_bits(left0));
                lemma_bytes_bits_len(left0);
            }
            let r = self.read_whole_bytes(bits / 8);
            proof {
                assert(self.reservoir() =~= Seq::<bool>::empty());
                assert(self.remaining() =~= bytes_bits(self.bytes_left()));
                if r is Ok {
                    lemma_bytes_bits_skip(left0, (bits / 8) as int);
                } else {
                    assert(self.bytes_left() =~= Seq::<u8>::empty());
                    assert(self.remaining() =~= Seq::<bool>::empty());
                }
            }
            return r;
        }
        match self.ensure_bits(bits) {
            Ok(()) => {},
            Err(e) => {
                proof {
                    self.lemma_reservoir_len();
                }
                return Err(e);
            },
        }
        let ghost mid = *self;
        proof {
            mid.lemma_reservoir_len();
        }
        let v = self.take_reservoir_bits(bits);
        proof {
            assert(mid.remaining().take(bits as int) =~= mid.reservoir().take(bits as int));
            assert(self.remaining() =~= mid.remaining().skip(bits as int));
        }
        Ok(v)
    }

    /// Bitstring, left bit first.
    ///
    /// For raw bits `1000_0111`, this returns raw value `0x87`.
    pub fn bslbf<T: FromBSLBF>(&mut self, bits: usize) -> (r: Result<T, BiterError>)
        requires
            old(self).wf(),
        ensures
            r is Ok <==> bits <= 32 && bits <= old(self).remaining().len(),
            r matches Ok(v) ==> v == T::bslbf_value(old(self).peek_value(bits as nat)) && old(
                self).advanced(*final(self), bits as nat),
            r matches Err(e) ==> old(self).failed_read(*final(self), bits as nat, e),
    {
        let raw = self.read_bits_u32(bits)?;
        Ok(T::from_bits(raw))
    }

    /// Unsigned integer, most significant bit first.
    ///
    /// For raw bits `1000_0111`, this returns numeric value `135`.
    pub fn uimsbf<T: FromUIMSBF>(&mut self, bits: usize) -> (r: Result<T, BiterError>)
        requires
            old(self).wf(),
        ensures
            r is Ok <==> bits <= 32 && bits <= old(self).remaining().len(),
            r matches Ok(v) ==> v == T::uimsbf_value(old(self).peek_value(bits as nat)) && old(
                self).advanced(*final(self), bits as nat),
            r matches Err(e) ==> old(self).failed_read(*final(self), bits as nat, e),
    {
        let raw = self.read_bits_u32(bits)?;
        Ok(<T as FromUIMSBF>::from_bits(raw))
    }

    /// Discard bits until next byte boundary.
    ///
    /// Important for formats where some fields are byte-aligned after bit fields.
    pub fn byte_align(&mut self)
        requires
            old(self).wf(),
        ensures
            final(self).wf(),
            final(self).reader() == old(self).reader(),
            final(self).buffered() == old(self).buffered(),
            final(self).buffer_pos() == old(self).buffer_pos(),
            final(self).bit_count() == old(self).bit_count() - old(self).bit_count() % 8,
            final(self).remaining() == old(self).remaining().skip(
                (old(self).bit_count() % 8) as int,
            ),
            forall|t: nat| #[trigger] old(self).pulled_from(t) ==> final(self).pulled_from(t),
            final(self).is_byte_aligned(),
    {
        let rem = self.bit_len % 8;
        if rem == 0 {
            assert(old(self).remaining().skip(0) =~= old(self).remaining());
            return;
        }
        proof {
            old(self).lemma_reservoir_len();
        }
        let _ = self.take_reservoir_bits(rem as usize);
        assert(self.remaining() =~= old(self).remaining().skip(rem as int));
    }

    /// Whether the number of bits left in the reservoir is a multiple of `S`.
    pub fn is_aligned<const S: usize>(&self) -> (r: bool)
        requires
            S > 0,
        ensures
            r == (self.bit_count() % (S as nat) == 0),
    {
        self.bit_len as usize % S == 0
    }

    /// The underlying stream.
    pub fn into_inner(self) -> (r: ByteReader)
        ensures
            r == self.reader(),
    {
        self.stream
    }

    /// Eight times the position inside the buffer plus the bits in the reservoir.
    pub fn bits_read(&self) -> (r: u64)
        requires
            self.wf(),
        ensures
            r == self.buffer_pos() * 8 + self.bit_count(),
    {
        let byte_bits = (self.byte_pos as u64) * 8;
        let bit_bits = self.bit_len as u64;
        byte_bits + bit_bits
    }

    /// The next `n` bytes of the bit stream: those whose bits are the next `8 * n` bits.
    pub open spec fn next_bytes(&self, n: nat) -> Seq<u8> {
        choose|d: Seq<u8>| d.len() == n && bytes_bits(d) == self.remaining().take(8 * n as int)
    }

    /// The bytes whose bits are the next `8 * n` bits are the next `n` bytes.
    pub proof fn lemma_next_bytes(&self, n: nat, d: Seq<u8>)
        requires
            d.len() == n,
            bytes_bits(d) == self.remaining().take(8 * n as int),
        ensures
            self.next_bytes(n) == d,
    {
        let c = self.next_bytes(n);
        lemma_bytes_bits_injective(c, d);
    }

    /// How many whole bytes the bit stream still holds.
    pub(crate) fn whole_bytes_left(&self) -> (r: u128)
        requires
            self.wf(),
        ensures
            r == self.remaining().len() / 8,
    {
        proof {
            self.lemma_reservoir_len();
            assert((self.bit_count() + 8 * self.bytes_left().len()) / 8 == self.bit_count() / 8
                + self.bytes_left().len()) by (nonlinear_arith);
        }
        (self.bit_len / 8) as u128 + (self.byte_len - self.byte_pos) as u128
            + self.stream.available() as u128
    }

    /// Fills `out` with the next bytes of the bit stream, which must stand on
    /// a byte boundary: first the whole bytes that the reader has already
    /// taken in, then those of the stream beneath it. When fewer bytes are
    /// left than `out` holds, nothing is read and `EOF` is returned.
    pub fn read_aligned_bytes(&mut self, out: &mut Vec<u8>) -> (r: Result<(), BiterError>)
        requires
            old(self).wf(),
        ensures
            final(self).wf(),
            final(out)@.len() == old(out)@.len(),
            final(self).reader().data() == old(self).reader().data(),
            r is Ok <==> old(self).is_byte_aligned() && 8 * old(out)@.len() <= old(
                self,
            ).remaining().len(),
            !old(self).is_byte_aligned() ==> r == Err::<(), BiterError>(
                BiterError::NotByteAligned,
            ),
            old(self).is_byte_aligned() && r is Err ==> r == Err::<(), BiterError>(
                BiterError::EOF,
            ),
            r is Err ==> *final(self) == *old(self) && final(out)@ == old(out)@,
            r is Ok ==> final(out)@ == old(self).next_bytes(old(out)@.len()) && old(
                self,
            ).advanced(*final(self), 8 * old(out)@.len()) && final(self).is_byte_aligned(),
    {
        if !self.is_aligned::<8>() {
            return Err(BiterError::NotByteAligned);
        }
        let n = out.len();
        if (n as u128) > self.whole_bytes_left() {
            return Err(BiterError::EOF);
        }
        let ghost start = *old(self);
        let ghost rem = start.remaining();
        proof {
            start.lemma_advanced_none();
            assert(bytes_bits(out@.take(0)) =~= rem.take(0));
            start.lemma_reservoir_len();
        }
        let mut i: usize = 0;
        while i < n
            invariant
                start == *old(self),
                rem == start.remaining(),
                out@.len() == n,
                n == old(out)@.len(),
                i <= n,
                8 * n <= rem.len(),
                start.advanced(*self, 8 * i as nat),
                self.bit_count() % 8 == 0,
                bytes_bits(out@.take(i as int)) == rem.take(8 * i as int),
            decreases n - i,
        {
            let ghost before = *self;
            let v = match self.read_bits_u32(8) {
                Ok(v) => v,
                Err(e) => {
                    proof {
                        assert(false);
                    }
                    return Err(e);
                },
            };
            let ghost seg = rem.subrange(8 * i as int, 8 * i + 8);
            proof {
                assert(before.remaining().take(8) =~= seg);
                lemma_bits_value_bound(seg);
                lemma_nat_bits_of_value(seg);
                lemma2_to64();
                assert(byte_bits(v as u8) == seg);
                Self::lemma_advanced_trans(start, before, *self, 8 * i as nat, 8);
                assert(self.bit_count() % 8 == 0) by (nonlinear_arith)
                    requires
                        before.bit_count() % 8 == 0,
                        self.bit_count() == bit_count_after_read(before.bit_count(), 8),
                ;
            }
            let ghost prev = out@;
            out.set(i, v as u8);
            proof {
                assert(out@.take(i + 1).drop_last() =~= prev.take(i as int));
                assert(out@.take(i + 1).last() == v as u8);
                assert(rem.take(8 * i + 8) =~= rem.take(8 * i as int) + seg);
            }
            i = i + 1;
        }
        proof {
            assert(out@.take(n as int) =~= out@);
            start.lemma_next_bytes(n as nat, out@);
        }
        Ok(())
    }

    /// Absolute byte seek of the underlying stream, returning the new position.
    ///
    /// After seeking, all internal buffers are invalidated.
    pub fn seek_to_byte(&mut self, byte_offset: u64) -> (r: u64)
        requires
            old(self).wf(),
        ensures
            r == byte_offset,
            final(self).wf(),
            final(self).reader().pos() == byte_offset,
            final(self).reader().data() == old(self).reader().data(),
            final(self).buffered() == Seq::<u8>::empty(),
            final(self).bit_count() == 0,
            final(self).buffer_pos() == 0,
            final(self).remaining() == bytes_bits(final(self).reader().rest()),
            final(self).pulled_from(final(self).reader().rest().len()),
    {
        self.byte_pos = 0;
        self.byte_len = 0;
        self.bit_buf = 0;
        self.bit_len = 0;
        let r = self.stream.seek(byte_offset);
        proof {
            lemma2_to64();
            assert(self.buffered() =~= Seq::<u8>::empty());
            assert(self.reservoir() =~= Seq::<bool>::empty());
            assert(self.bytes_left() =~= self.reader().rest());
            assert(self.remaining() =~= bytes_bits(self.reader().rest()));
        }
        r
    }
}

impl FromUIMSBF for u8 {
    open spec fn uimsbf_value(s: u32) -> u8 {
        s as u8
    }

    fn from_bits(s: u32) -> (r: u8) {
        s as u8
    }
}

impl FromUIMSBF for u16 {
    open spec fn uimsbf_value(s: u32) -> u16 {
        s as u16
    }

    fn from_bits(s: u32) -> (r: u16) {
        s as u16
    }
}

impl FromUIMSBF for u32 {
    open spec fn uimsbf_value(s: u32) -> u32 {
        s
    }

    fn from_bits(s: u32) -> (r: u32) {
        s
    }
}

impl FromUIMSBF for u64 {
    open spec fn uimsbf_value(s: u32) -> u64 {
        s as u64
    }

    fn from_bits(s: u32) -> (r: u64) {
        s as u64
    }
}

impl FromUIMSBF for usize {
    open spec fn uimsbf_value(s: u32) -> usize {
        s as usize
    }

    fn from_bits(s: u32) -> (r: usize) {
        s as usize
    }
}

impl FromUIMSBF for bool {
    open spec fn uimsbf_value(s: u32) -> bool {
        s != 0
    }

    fn from_bits(s: u32) -> (r: bool) {
        s != 0
    }
}

impl FromBSLBF for u8 {
    open spec fn bslbf_value(s: u32) -> u8 {
        s as u8
    }

    fn from_bits(s: u32) -> (r: u8) {
        s as u8
    }
}

impl FromBSLBF for u16 {
    open spec fn bslbf_value(s: u32) -> u16 {
        s as u16
    }

    fn from_bits(s: u32) -> (r: u16) {
        s as u16
    }
}

impl FromBSLBF for u32 {
    open spec fn bslbf_value(s: u32) -> u32 {
        s
    }

    fn from_bits(s: u32) -> (r: u32) {
        s
    }
}

impl FromBSLBF for u64 {
    open spec fn bslbf_value(s: u32) -> u64 {
        s as u64
    }

    fn from_bits(s: u32) -> (r: u64) {
        s as u64
    }
}

impl FromBSLBF for usize {
    open spec fn bslbf_value(s: u32) -> usize {
        s as usize
    }

    fn from_bits(s: u32) -> (r: usize) {
        s as usize
    }
}

impl FromBSLBF for bool {
    open spec fn bslbf_value(s: u32) -> bool {
        s != 0
    }

    fn from_bits(s: u32) -> (r: bool) {
        s != 0
    }
}

} // verus!

//! The bit reservoir: main data of earlier frames kept for the frames that point back into it.
use crate::bite::{Biter, BiterError};
use crate::bits::{
    bits_value, bytes_bits, lemma_bits_value_bound, lemma_bytes_bits_skip, lemma_nat_bits_of_value,
};
use vstd::arithmetic::power2::lemma2_to64;
use vstd::prelude::*;

verus! {

/// The furthest back a frame may start its main data, in bytes.
pub const RESERVOIR_BACKPTR_MAX: usize = 511;

/// Bytes the reservoir keeps.
pub const RESERVOIR_CAP: usize = 2048;

/// Why the main data of a frame could not be assembled.
#[derive(Debug, Clone, Copy, PartialEq, Eq)]
pub enum ReservoirError {
    /// Reading the main data failed.
    Io(BiterError),
    /// The frame points further back than the reservoir holds.
    Underflow { main_data_begin: usize, available: usize },
    /// The back pointer or the main data is too large.
    TooLarge { needed: usize, capacity: usize },
    /// The bit reader is not on a byte boundary.
    NotByteAligned,
}

/// The reservoir never holds more than `RESERVOIR_CAP` bytes, and it keeps
/// the last ones written: reading back the last `begin` bytes after a write
/// of at least `begin` bytes gives the last `begin` bytes of that write.
pub proof fn law_reservoir_reads_back_last_write(kept: Seq<u8>, written: Seq<u8>, begin: nat)
    requires
        begin <= written.len(),
        begin <= RESERVOIR_CAP,
    ensures
        keep_last(kept, written).len() <= RESERVOIR_CAP,
        keep_last(kept, written).len() >= begin,
        keep_last(kept, written).skip(keep_last(kept, written).len() - begin) == written.skip(
            written.len() - begin,
        ),
{
    let all = kept + written;
    let c = keep_last(kept, written);
    assert(c.skip(c.len() - begin) =~= written.skip(written.len() - begin));
}

/// Whole bytes of a bit string that is long enough have a byte string whose bits they are.
proof fn lemma_aligned_bytes_exist(r: Seq<bool>, n: nat)
    requires
        8 * n <= r.len(),
    ensures
        exists|d: Seq<u8>| d.len() == n && bytes_bits(d) == r.take(8 * n as int),
    decreases n,
{
    if n > 0 {
        lemma_aligned_bytes_exist(r, (n - 1) as nat);
        let d0 = choose|d: Seq<u8>| d.len() == n - 1 && bytes_bits(d) == r.take(8 * (n - 1) as int);
        let seg = r.subrange(8 * (n - 1) as int, 8 * n as int);
        lemma_bits_value_bound(seg);
        lemma_nat_bits_of_value(seg);
        lemma2_to64();
        let b = bits_value(seg) as u8;
        let d = d0.push(b);
        assert(d.drop_last() =~= d0);
        assert(r.take(8 * n as int) =~= r.take(8 * (n - 1) as int) + seg);
        assert(bytes_bits(d) == r.take(8 * n as int));
    } else {
        assert(bytes_bits(Seq::<u8>::empty()) =~= r.take(0));
    }
}

/// The bytes `all` are the next `len` bytes of `b0`; once `done` of them
/// were read, the next `k` bytes are the following ones of `all`.
proof fn lemma_chunk_bytes<const BUF_SIZE: usize>(
    b0: Biter<BUF_SIZE>,
    bb: Biter<BUF_SIZE>,
    all: Seq<u8>,
    len: nat,
    done: nat,
    k: nat,
)
    requires
        all.len() == len,
        bytes_bits(all) == b0.remaining().take(8 * len as int),
        8 * len <= b0.remaining().len(),
        b0.advanced(bb, 8 * done),
        done + k <= len,
    ensures
        bb.next_bytes(k) == all.subrange(done as int, (done + k) as int),
        8 * k <= bb.remaining().len(),
{
    let part = all.subrange(done as int, (done + k) as int);
    lemma_bytes_bits_skip(all, done as int);
    lemma_bytes_bits_skip(all.skip(done as int), k as int);
    assert(all.skip(done as int).take(k as int) =~= part);
    assert(bytes_bits(part) =~= bb.remaining().take(8 * k as int));
    bb.lemma_next_bytes(k, part);
}

/// A ring of the last `RESERVOIR_CAP` bytes of main data. The ring is stored
/// twice in a row, so that any `RESERVOIR_CAP` consecutive bytes of it form
/// one contiguous range.
pub struct Reservoir {
    buffer: Vec<u8>,
    position: usize,
    used: usize,
    history: Ghost<Seq<u8>>,
}

/// The bytes kept after `written` was appended to the kept bytes `kept`: the last
/// `RESERVOIR_CAP` of them.
pub open spec fn keep_last(kept: Seq<u8>, written: Seq<u8>) -> Seq<u8> {
    let all = kept + written;
    if all.len() > RESERVOIR_CAP {
        all.skip(all.len() - RESERVOIR_CAP)
    } else {
        all
    }
}

impl Reservoir {
    /// The bytes the reservoir holds, oldest first.
    pub closed spec fn contents(&self) -> Seq<u8> {
        self.history@.skip(self.history@.len() - self.used)
    }

    /// The reservoir's internal consistency.
    pub closed spec fn wf(&self) -> bool {
        let h = self.history@;
        &&& self.buffer@.len() == 2 * RESERVOIR_CAP
        &&& self.position < RESERVOIR_CAP
        &&& self.position == (h.len() as int) % (RESERVOIR_CAP as int)
        &&& self.used <= RESERVOIR_CAP
        &&& self.used <= h.len()
        &&& forall|j: int|
            h.len() - self.used <= j < h.len() ==> #[trigger] self.buffer@[j % (
            RESERVOIR_CAP as int)] == h[j]
        &&& forall|i: int|
            0 <= i < RESERVOIR_CAP ==> #[trigger] self.buffer@[i + RESERVOIR_CAP]
                == self.buffer@[i]
    }

    /// An empty reservoir.
    pub fn new() -> (r: Self)
        ensures
            r.wf(),
            r.contents() == Seq::<u8>::empty(),
    {
        let r = Self {
            buffer: vec![0u8; RESERVOIR_CAP * 2],
            position: 0,
            used: 0,
            history: Ghost(Seq::empty()),
        };
        assert(r.contents() =~= Seq::<u8>::empty());
        r
    }

    /// How many bytes the reservoir holds.
    pub fn available(&self) -> (r: usize)
        requires
            self.wf(),
        ensures
            r == self.contents().len(),
    {
        self.used
    }

    /// Reads current frame main_data into the reservoir and returns a contiguous
    /// logical view:
    /// [main_data_begin bytes from previous frames][current frame main_data]
    #[verifier::rlimit(60)]
    pub fn bite_and_view<const BUF_SIZE: usize>(
        &mut self,
        main_data_begin: usize,
        main_data_bytes: usize,
        biter: &mut Biter<BUF_SIZE>,
    ) -> (r: Result<Vec<u8>, ReservoirError>)
        requires
            old(self).wf(),
            old(biter).wf(),
            main_data_begin <= RESERVOIR_BACKPTR_MAX && main_data_begin <= old(self).contents().len()
                ==> main_data_begin + main_data_bytes <= usize::MAX,
        ensures
            final(self).wf(),
            final(biter).wf(),
            final(biter).reader().data() == old(biter).reader().data(),
            !old(biter).is_byte_aligned() ==> r == Err::<Vec<u8>, ReservoirError>(
                ReservoirError::NotByteAligned,
            ),
            old(biter).is_byte_aligned() && main_data_begin > RESERVOIR_BACKPTR_MAX ==> r == Err::<
                Vec<u8>,
                ReservoirError,
            >(
                ReservoirError::TooLarge {
                    needed: main_data_begin,
                    capacity: RESERVOIR_BACKPTR_MAX,
                },
            ),
            old(biter).is_byte_aligned() && main_data_begin <= RESERVOIR_BACKPTR_MAX
                && main_data_begin > old(self).contents().len() ==> r == Err::<
                Vec<u8>,
                ReservoirError,
            >(
                ReservoirError::Underflow {
                    main_data_begin,
                    available: old(self).contents().len() as usize,
                },
            ),
            old(biter).is_byte_aligned() && main_data_begin <= RESERVOIR_BACKPTR_MAX
                && main_data_begin <= old(self).contents().len() && main_data_begin
                + main_data_bytes > RESERVOIR_CAP ==> r == Err::<Vec<u8>, ReservoirError>(
                ReservoirError::TooLarge {
                    needed: (main_data_begin + main_data_bytes) as usize,
                    capacity: RESERVOIR_CAP,
                },
            ),
            ({
                let checks_pass = old(biter).is_byte_aligned() && main_data_begin
                    <= RESERVOIR_BACKPTR_MAX && main_data_begin <= old(self).contents().len()
                    && main_data_begin + main_data_bytes <= RESERVOIR_CAP;
                let fits = 8 * main_data_bytes <= old(biter).remaining().len();
                let data = old(biter).next_bytes(main_data_bytes as nat);
                &&& checks_pass && !fits ==> r == Err::<Vec<u8>, ReservoirError>(
                    ReservoirError::Io(BiterError::EOF),
                )
                &&& r is Ok <==> checks_pass && fits
                &&& r is Err ==> *final(self) == *old(self) && *final(biter) == *old(biter)
                &&& r matches Ok(view) ==> view@ == old(self).contents().skip(
                    old(self).contents().len() - main_data_begin,
                ) + data && final(self).contents() == keep_last(old(self).contents(), data)
                    && old(biter).advanced(*final(biter), 8 * main_data_bytes as nat)
                    && final(biter).is_byte_aligned()
            }),
    {
        if !biter.is_aligned::<8>() {
            return Err(ReservoirError::NotByteAligned);
        }
        if main_data_begin > RESERVOIR_BACKPTR_MAX {
            return Err(
                ReservoirError::TooLarge {
                    needed: main_data_begin,
                    capacity: RESERVOIR_BACKPTR_MAX,
                },
            );
        }
        if main_data_begin > self.used {
            return Err(ReservoirError::Underflow { main_data_begin, available: self.used });
        }
        let view_len = main_data_begin + main_data_bytes;
        if view_len > RESERVOIR_CAP {
            return Err(ReservoirError::TooLarge { needed: view_len, capacity: RESERVOIR_CAP });
        }
        if (main_data_bytes as u128) > biter.whole_bytes_left() {
            return Err(ReservoirError::Io(BiterError::EOF));
        }
        // Logical view starts `main_data_begin` bytes before current write position.
        let view_start = (self.position + RESERVOIR_CAP - main_data_begin) % RESERVOIR_CAP;
        let ghost h0 = self.history@;
        let ghost rest = old(biter).next_bytes(main_data_bytes as nat);
        proof {
            lemma_aligned_bytes_exist(old(biter).remaining(), main_data_bytes as nat);
        }
        self.read_into_ring(main_data_bytes, biter);
        // Because the buffer is mirrored, this is contiguous even if the logical
        // region wraps around RESERVOIR_CAP.
        let ghost h1 = self.history@;
        assert(h1 == h0 + rest);
        let mut view: Vec<u8> = Vec::new();
        let mut t: usize = 0;
        while t < view_len
            invariant
                self.wf(),
                self.history@ == h1,
                h1.len() == h0.len() + main_data_bytes,
                h1.subrange(0, h0.len() as int) == h0,
                view_len == main_data_begin + main_data_bytes,
                view_len <= RESERVOIR_CAP,
                main_data_begin <= old(self).used,
                old(self).used <= h0.len(),
                old(self).used <= RESERVOIR_CAP,
                self.used as int == if old(self).used + main_data_bytes > RESERVOIR_CAP {
                    RESERVOIR_CAP as int
                } else {
                    old(self).used + main_data_bytes
                },
                view_start as int == (h0.len() - main_data_begin) % (RESERVOIR_CAP as int),
                t <= view_len,
                view@.len() == t,
                forall|u: int| 0 <= u < t ==> #[trigger] view@[u] == h1[h0.len() - main_data_begin + u],
            decreases view_len - t,
        {
            let ghost j = h0.len() - main_data_begin + t;
            proof {
                assert(j >= h1.len() - self.used);
                let m = (view_start + t) as int;
                assert(m < 2 * RESERVOIR_CAP);
                if m >= RESERVOIR_CAP {
                    assert(self.buffer@[(m - RESERVOIR_CAP) + RESERVOIR_CAP] == self.buffer@[m
                        - RESERVOIR_CAP]);
                }
                assert(j % (RESERVOIR_CAP as int) == if m >= RESERVOIR_CAP {
                    m - RESERVOIR_CAP
                } else {
                    m
                });
            }
            view.push(self.buffer[view_start + t]);
            t = t + 1;
        }
        proof {
            let c0 = h0.skip(h0.len() - old(self).used);
            assert(view@ =~= c0.skip(c0.len() - main_data_begin) + rest);
            assert(self.contents() =~= keep_last(c0, rest));
        }
        Ok(view)
    }

    /// Appends the next `len` bytes of the bit stream to the ring.
    #[verifier::rlimit(100)]
    fn read_into_ring<const BUF_SIZE: usize>(&mut self, len: usize, biter: &mut Biter<BUF_SIZE>)
        requires
            old(self).wf(),
            old(biter).wf(),
            old(biter).is_byte_aligned(),
            8 * len <= old(biter).remaining().len(),
        ensures
            final(self).wf(),
            final(self).history@ == old(self).history@ + old(biter).next_bytes(len as nat),
            final(self).used as int == (if old(self).used + len > RESERVOIR_CAP {
                RESERVOIR_CAP as int
            } else {
                old(self).used + len
            }),
            old(biter).advanced(*final(biter), 8 * len as nat),
            final(biter).is_byte_aligned(),
    {
        let ghost b0 = *old(biter);
        let ghost h0 = old(self).history@;
        let ghost all = b0.next_bytes(len as nat);
        proof {
            b0.lemma_advanced_none();
            assert(exists|d: Seq<u8>| d.len() == len && bytes_bits(d) == b0.remaining().take(
                8 * len as int,
            )) by {
                lemma_aligned_bytes_exist(b0.remaining(), len as nat);
            }
        }
        let mut left = len;
        let mut done: usize = 0;
        while left > 0
            invariant
                self.wf(),
                biter.wf(),
                biter.is_byte_aligned(),
                b0 == *old(biter),
                all == b0.next_bytes(len as nat),
                all.len() == len,
                bytes_bits(all) == b0.remaining().take(8 * len as int),
                8 * len <= b0.remaining().len(),
                done + left == len,
                b0.advanced(*biter, 8 * done as nat),
                h0 == old(self).history@,
                self.history@ == h0 + all.take(done as int),
                self.used as int == (if old(self).used + done > RESERVOIR_CAP {
                    RESERVOIR_CAP as int
                } else {
                    old(self).used + done
                }),
            decreases left,
        {
            let room = RESERVOIR_CAP - self.position;
            let first_chunk = if room < left {
                room
            } else {
                left
            };
            let mut chunk = vec![0u8; first_chunk];
            let ghost bb = *biter;
            let ghost part = all.subrange(done as int, done + first_chunk);
            proof {
                lemma_chunk_bytes(b0, bb, all, len as nat, done as nat, first_chunk as nat);
            }
            match biter.read_aligned_bytes(&mut chunk) {
                Ok(()) => {},
                Err(_) => {
                    proof {
                        assert(false);
                    }
                },
            }
            proof {
                Biter::<BUF_SIZE>::lemma_advanced_trans(
                    b0,
                    bb,
                    *biter,
                    8 * done as nat,
                    8 * first_chunk as nat,
                );
                assert(chunk@ == part);
            }
            let ghost hb = self.history@;
            let ghost before = *self;
            let pos = self.position;
            // Mirror written bytes.
            let mut t: usize = 0;
            while t < first_chunk
                invariant
                    t <= first_chunk,
                    pos + first_chunk <= RESERVOIR_CAP,
                    pos == before.position,
                    before.wf(),
                    hb == before.history@,
                    self.history == before.history,
                    self.position == before.position,
                    self.used == before.used,
                    self.buffer@.len() == 2 * RESERVOIR_CAP,
                    chunk@.len() == first_chunk,
                    forall|i: int|
                        0 <= i < 2 * RESERVOIR_CAP ==> #[trigger] self.buffer@[i] == if pos <= i
                            < pos + t {
                            chunk@[i - pos]
                        } else if pos + RESERVOIR_CAP <= i < pos + RESERVOIR_CAP + t {
                            chunk@[i - pos - RESERVOIR_CAP]
                        } else {
                            before.buffer@[i]
                        },
                decreases first_chunk - t,
            {
                let b = chunk[t];
                self.buffer.set(pos + t, b);
                self.buffer.set(pos + t + RESERVOIR_CAP, b);
                t = t + 1;
            }
            let ghost h2 = hb + chunk@;
            self.history = Ghost(h2);
            self.position = (self.position + first_chunk) % RESERVOIR_CAP;
            self.used = if self.used + first_chunk < RESERVOIR_CAP {
                self.used + first_chunk
            } else {
                RESERVOIR_CAP
            };
            proof {
                assert forall|j: int|
                    h2.len() - self.used <= j < h2.len() implies #[trigger] self.buffer@[j % (
                    RESERVOIR_CAP as int)] == h2[j] by {
                    if j >= hb.len() {
                        assert(j % (RESERVOIR_CAP as int) == pos + (j - hb.len()));
                    } else {
                        assert(j >= hb.len() - before.used);
                        assert(before.buffer@[j % (RESERVOIR_CAP as int)] == hb[j]);
                    }
                }
                assert forall|i: int| 0 <= i < RESERVOIR_CAP implies #[trigger] self.buffer@[i
                    + RESERVOIR_CAP] == self.buffer@[i] by {
                    assert(before.buffer@[i + RESERVOIR_CAP] == before.buffer@[i]);
                }
                assert(all.take(done + first_chunk) =~= all.take(done as int) + chunk@);
                assert(h2 =~= h0 + all.take(done + first_chunk));
            }
            left = left - first_chunk;
            done = done + first_chunk;
        }
        proof {
            assert(all.take(len as int) =~= all);
        }
    }
}

} // verus!

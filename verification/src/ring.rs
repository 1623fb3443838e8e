//! Single-producer / single-consumer byte ring buffer with wrap-around.
//!
//! One ring buffer backs each channel of the transport.  The producer only
//! ever advances the write offset and the consumer only ever advances the
//! read offset; both wrap at the buffer size.  One slot is kept permanently
//! unused so that a full buffer (`used == size - 1`) is distinguishable from
//! an empty one (`read_offset == write_offset`), giving a usable capacity of
//! `size - 1` bytes.
//!
//! The model here is sequential.  In the real transport the two sides live
//! in different clock domains, and the runtime that places the buffers in
//! shared memory owes the probe two things this model cannot state: payload
//! bytes must be committed before the cursor store that exposes them, and
//! each cursor must be written with a single atomic-sized store so the
//! probe never observes a torn value.

use vstd::arithmetic::div_mod::lemma_mod_add_multiples_vanish;
use vstd::arithmetic::div_mod::lemma_small_mod;
use vstd::prelude::*;

verus! {

/// Rule applied when a write needs more free space than the buffer has.
#[derive(Clone, Copy, PartialEq, Eq, Structural, Debug)]
pub enum OverflowPolicy {
    /// Never drop data: a single call accepts what fits right now and the
    /// producer busy-waits, retrying the remainder, until a consumer has
    /// drained enough space.
    Blocking,
    /// Drop the whole write when it does not fit; no partial write is made
    /// and the unread contents stay untouched.
    NoBlockTrim,
    /// Make room by discarding exactly the oldest unread bytes; the consumer
    /// later sees a gap in the stream.
    NoBlockSkip,
}

/// Wrap-around of an index that has run at most one buffer length past the
/// end: for `0 <= x < 2 * n` this equals `x % n`.
pub open spec fn wrap(x: int, n: int) -> int {
    if x >= n {
        x - n
    } else {
        x
    }
}

/// `wrap` is ordinary modulo arithmetic on its domain: the cursors wrap at
/// the buffer size.
pub proof fn lemma_wrap_is_mod(x: int, n: int)
    requires
        0 < n,
        0 <= x < 2 * n,
    ensures
        wrap(x, n) == x % n,
{
    if x >= n {
        lemma_mod_add_multiples_vanish(x - n, n);
        lemma_small_mod((x - n) as nat, n as nat);
    } else {
        lemma_small_mod(x as nat, n as nat);
    }
}

/// How many bytes a write of `len` bytes is accepted for, given the policy,
/// the `used` byte count and the usable capacity `cap` of the buffer.
pub open spec fn accepted_of(policy: OverflowPolicy, used: int, cap: int, len: int) -> int {
    match policy {
        OverflowPolicy::Blocking => if len <= cap - used {
            len
        } else {
            cap - used
        },
        OverflowPolicy::NoBlockTrim => if len <= cap - used {
            len
        } else {
            0
        },
        OverflowPolicy::NoBlockSkip => if len <= cap {
            len
        } else {
            cap
        },
    }
}

/// How many of the oldest unread bytes a write of `len` bytes discards to
/// make room.  Only the skip policy ever discards; every other policy leaves
/// the read offset alone.
pub open spec fn evicted_of(policy: OverflowPolicy, used: int, cap: int, len: int) -> int {
    let a = accepted_of(policy, used, cap, len);
    match policy {
        OverflowPolicy::NoBlockSkip => if a > cap - used {
            a - (cap - used)
        } else {
            0
        },
        _ => 0,
    }
}

/// The unread contents after a write: the surviving old bytes followed by
/// the accepted prefix of the new bytes.
pub open spec fn contents_after_write(
    policy: OverflowPolicy,
    c: Seq<u8>,
    cap: int,
    b: Seq<u8>,
) -> Seq<u8> {
    let a = accepted_of(policy, c.len() as int, cap, b.len() as int);
    let e = evicted_of(policy, c.len() as int, cap, b.len() as int);
    c.skip(e) + b.take(a)
}

/// Everything a completed write guarantees, relating the buffer before
/// (`pre`) and after (`post`) accepting `accepted` bytes of `bytes`.
pub open spec fn wrote(pre: RingBuffer, post: RingBuffer, bytes: Seq<u8>, accepted: int) -> bool {
    &&& post.wf()
    &&& post.policy() == pre.policy()
    &&& post.size() == pre.size()
    &&& accepted == accepted_of(pre.policy(), pre.used(), pre.capacity(), bytes.len() as int)
    &&& post.contents() == contents_after_write(pre.policy(), pre.contents(), pre.capacity(), bytes)
    &&& post.read_offset() == wrap(
        pre.read_offset() + evicted_of(pre.policy(), pre.used(), pre.capacity(), bytes.len() as int),
        pre.size(),
    )
    &&& post.write_offset() == wrap(pre.write_offset() + accepted, pre.size())
}

/// Everything a read of at most `max` bytes guarantees: it hands out the
/// oldest unread bytes in order and only advances the read offset.
pub open spec fn drained(pre: RingBuffer, post: RingBuffer, max: int, out: Seq<u8>) -> bool {
    let t = if max <= pre.used() {
        max
    } else {
        pre.used()
    };
    &&& post.wf()
    &&& post.policy() == pre.policy()
    &&& post.size() == pre.size()
    &&& post.write_offset() == pre.write_offset()
    &&& out == pre.contents().take(t)
    &&& post.contents() == pre.contents().skip(t)
    &&& post.read_offset() == wrap(pre.read_offset() + t, pre.size())
}

/// A byte ring buffer shared, in the real transport, between the target
/// (producer of up-channels, consumer of down-channels) and the probe.
pub struct RingBuffer {
    buf: Vec<u8>,
    read_off: usize,
    write_off: usize,
    policy: OverflowPolicy,
}

impl RingBuffer {
    /// The raw buffer size in bytes, one more than the usable capacity.
    pub closed spec fn size(self) -> int {
        self.buf.len() as int
    }

    /// The overflow policy the buffer was created with.
    pub closed spec fn policy(self) -> OverflowPolicy {
        self.policy
    }

    /// Position of the oldest unread byte.
    pub closed spec fn read_offset(self) -> int {
        self.read_off as int
    }

    /// Position the next written byte goes to.
    pub closed spec fn write_offset(self) -> int {
        self.write_off as int
    }

    /// Well-formedness: both offsets lie inside the buffer.
    pub closed spec fn wf(self) -> bool {
        &&& 1 <= self.buf.len()
        &&& self.read_off < self.buf.len()
        &&& self.write_off < self.buf.len()
    }

    /// Number of unread bytes.
    pub closed spec fn used(self) -> int {
        wrap(self.write_offset() + self.size() - self.read_offset(), self.size())
    }

    /// Usable capacity: one slot stays unused to tell full from empty.
    pub open spec fn capacity(self) -> int {
        self.size() - 1
    }

    /// Free space left for the producer.
    pub open spec fn free(self) -> int {
        self.capacity() - self.used()
    }

    /// The unread bytes, oldest first.
    pub closed spec fn contents(self) -> Seq<u8> {
        Seq::new(self.used() as nat, |i: int| self.buf@[wrap(self.read_offset() + i, self.size())])
    }

    /// An empty ring buffer of `size` bytes (usable capacity `size - 1`).
    pub fn new(size: usize, policy: OverflowPolicy) -> (rb: RingBuffer)
        requires
            1 <= size,
        ensures
            rb.wf(),
            rb.size() == size,
            rb.policy() == policy,
            rb.contents() == Seq::<u8>::empty(),
            rb.read_offset() == 0,
            rb.write_offset() == 0,
    {
        let mut buf: Vec<u8> = Vec::new();
        while buf.len() < size
            invariant
                buf.len() <= size,
            decreases size - buf.len(),
        {
            buf.push(0);
        }
        let rb = RingBuffer { buf, read_off: 0, write_off: 0, policy };
        proof {
            assert(rb.contents() =~= Seq::<u8>::empty());
        }
        rb
    }

    /// The buffer position `i` slots past `start`, wrapped at the end.
    fn pos_of(&self, start: usize, i: usize) -> (p: usize)
        requires
            self.wf(),
            start < self.buf.len(),
            i < self.buf.len(),
        ensures
            p as int == wrap(start as int + i as int, self.size()),
            p < self.buf.len(),
    {
        let gap = self.buf.len() - start;
        if i < gap {
            start + i
        } else {
            i - gap
        }
    }

    /// Free space, recomputed from the cursors.
    pub fn free_space(&self) -> (f: usize)
        requires
            self.wf(),
        ensures
            f as int == self.free(),
    {
        let n = self.buf.len();
        let used = if self.write_off >= self.read_off {
            self.write_off - self.read_off
        } else {
            self.write_off + (n - self.read_off)
        };
        n - 1 - used
    }

    /// Number of unread bytes.
    pub fn used_len(&self) -> (u: usize)
        requires
            self.wf(),
        ensures
            u as int == self.used(),
    {
        let n = self.buf.len();
        if self.write_off >= self.read_off {
            self.write_off - self.read_off
        } else {
            self.write_off + (n - self.read_off)
        }
    }

    /// The raw buffer size in bytes.
    pub fn size_len(&self) -> (n: usize)
        requires
            self.wf(),
        ensures
            n as int == self.size(),
    {
        self.buf.len()
    }

    /// Usable capacity in bytes.
    pub fn capacity_len(&self) -> (c: usize)
        requires
            self.wf(),
        ensures
            c as int == self.capacity(),
    {
        self.buf.len() - 1
    }

    /// The descriptor's read cursor, as an external probe would see it.
    pub fn read_offset_val(&self) -> (r: usize)
        ensures
            r as int == self.read_offset(),
    {
        self.read_off
    }

    /// The descriptor's write cursor, as an external probe would see it.
    pub fn write_offset_val(&self) -> (w: usize)
        ensures
            w as int == self.write_offset(),
    {
        self.write_off
    }

    /// The overflow policy of this buffer.
    pub fn policy_of(&self) -> (p: OverflowPolicy)
        ensures
            p == self.policy(),
    {
        self.policy
    }

    /// Copy the first `count` bytes of `bytes` into the buffer at the write
    /// offset, which must already be known to fit.
    fn push_bytes(&mut self, bytes: &Vec<u8>, count: usize)
        requires
            old(self).wf(),
            count <= bytes@.len(),
            count <= old(self).free(),
        ensures
            final(self).wf(),
            final(self).policy() == old(self).policy(),
            final(self).size() == old(self).size(),
            final(self).read_offset() == old(self).read_offset(),
            final(self).write_offset() == wrap(old(self).write_offset() + count, old(self).size()),
            final(self).contents() == old(self).contents() + bytes@.take(count as int),
    {
        let ghost pre = *old(self);
        let mut j: usize = 0;
        while j < count
            invariant
                pre.wf(),
                count <= bytes@.len(),
                count <= pre.free(),
                j <= count,
                self.buf.len() == pre.buf.len(),
                self.read_off == pre.read_off,
                self.write_off == pre.write_off,
                self.policy == pre.policy,
                forall|i: int|
                    0 <= i < j ==> self.buf@[wrap(pre.write_offset() + i, pre.size())]
                        == bytes@[i],
                forall|k: int|
                    0 <= k < pre.size() && wrap(k + pre.size() - pre.write_offset(), pre.size())
                        >= j ==> self.buf@[k] == pre.buf@[k],
            decreases count - j,
        {
            let p = self.pos_of(self.write_off, j);
            self.buf.set(p, bytes[j]);
            j = j + 1;
        }
        self.write_off = self.pos_of(self.write_off, count);
        proof {
            assert(self.used() == pre.used() + count);
            assert(self.contents() =~= pre.contents() + bytes@.take(count as int)) by {
                assert forall|i: int| 0 <= i < pre.used() + count implies self.buf@[wrap(
                    pre.read_offset() + i,
                    pre.size(),
                )] == (pre.contents() + bytes@.take(count as int))[i] by {
                    if i < pre.used() {
                        assert(wrap(
                            wrap(pre.read_offset() + i, pre.size()) + pre.size()
                                - pre.write_offset(),
                            pre.size(),
                        ) == pre.size() - pre.used() + i);
                    } else {
                        assert(wrap(pre.read_offset() + i, pre.size()) == wrap(
                            pre.write_offset() + (i - pre.used()),
                            pre.size(),
                        ));
                    }
                }
            }
        }
    }

    /// Write `bytes` into the buffer under its overflow policy and report how
    /// many bytes were accepted.
    ///
    /// Under the blocking policy a single call accepts what fits; the caller
    /// busy-waits by retrying the rest once a consumer has drained space, so
    /// no byte of the stream is ever dropped.
    pub fn write(&mut self, bytes: &Vec<u8>) -> (accepted: usize)
        requires
            old(self).wf(),
        ensures
            wrote(*old(self), *final(self), bytes@, accepted as int),
    {
        let len = bytes.len();
        let free = self.free_space();
        match self.policy {
            OverflowPolicy::NoBlockTrim => {
                if len <= free {
                    self.push_bytes(bytes, len);
                    proof {
                        assert(self.contents() =~= contents_after_write(
                            OverflowPolicy::NoBlockTrim,
                            old(self).contents(),
                            old(self).capacity(),
                            bytes@,
                        ));
                    }
                    len
                } else {
                    proof {
                        assert(self.contents() =~= contents_after_write(
                            OverflowPolicy::NoBlockTrim,
                            old(self).contents(),
                            old(self).capacity(),
                            bytes@,
                        ));
                    }
                    0
                }
            },
            OverflowPolicy::Blocking => {
                let a = if len <= free {
                    len
                } else {
                    free
                };
                self.push_bytes(bytes, a);
                proof {
                    assert(self.contents() =~= contents_after_write(
                        OverflowPolicy::Blocking,
                        old(self).contents(),
                        old(self).capacity(),
                        bytes@,
                    ));
                }
                a
            },
            OverflowPolicy::NoBlockSkip => {
                let cap = self.buf.len() - 1;
                let a = if len <= cap {
                    len
                } else {
                    cap
                };
                if a > free {
                    let evict = a - free;
                    let ghost mid = *self;
                    let new_read = self.pos_of(self.read_off, evict);
                    self.read_off = new_read;
                    proof {
                        assert(self.used() == mid.used() - evict);
                        assert(self.contents() =~= mid.contents().skip(evict as int)) by {
                            assert forall|i: int| 0 <= i < mid.used() - evict implies self.buf@[
                                wrap(self.read_offset() + i, self.size())] == mid.contents().skip(
                                evict as int,
                            )[i] by {
                                assert(wrap(self.read_offset() + i, self.size()) == wrap(
                                    mid.read_offset() + (evict + i),
                                    mid.size(),
                                ));
                            }
                        }
                    }
                }
                self.push_bytes(bytes, a);
                proof {
                    assert(self.contents() =~= contents_after_write(
                        OverflowPolicy::NoBlockSkip,
                        old(self).contents(),
                        old(self).capacity(),
                        bytes@,
                    ));
                }
                a
            },
        }
    }

    /// Hand out up to `max` of the oldest unread bytes and advance the read
    /// offset past them.
    ///
    /// On an up-channel this is the probe's side of the protocol, which the
    /// target never runs for itself; it is offered so that an attached
    /// consumer can be simulated in the same address space.  On a
    /// down-channel it is the target's own way of consuming host input.
    pub fn read(&mut self, max: usize) -> (out: Vec<u8>)
        requires
            old(self).wf(),
        ensures
            drained(*old(self), *final(self), max as int, out@),
    {
        let used = self.used_len();
        let take = if max <= used {
            max
        } else {
            used
        };
        let mut out: Vec<u8> = Vec::new();
        let mut j: usize = 0;
        while j < take
            invariant
                self.wf(),
                take as int <= self.used(),
                j <= take,
                out@ == self.contents().take(j as int),
            decreases take - j,
        {
            let p = self.pos_of(self.read_off, j);
            out.push(self.buf[p]);
            proof {
                assert(out@ =~= self.contents().take(j + 1));
            }
            j = j + 1;
        }
        let ghost pre = *self;
        self.read_off = self.pos_of(self.read_off, take);
        proof {
            assert(self.used() == pre.used() - take);
            assert(self.contents() =~= pre.contents().skip(take as int)) by {
                assert forall|i: int| 0 <= i < pre.used() - take implies self.buf@[wrap(
                    self.read_offset() + i,
                    self.size(),
                )] == pre.contents().skip(take as int)[i] by {
                    assert(wrap(self.read_offset() + i, self.size()) == wrap(
                        pre.read_offset() + (take + i),
                        pre.size(),
                    ));
                }
            }
        }
        out
    }
}

/// The free space is recomputed from the cursors alone:
/// `size - ((write_offset - read_offset) mod size) - 1`, one byte staying
/// reserved to disambiguate full from empty.
pub proof fn lemma_free_space_formula(rb: RingBuffer)
    requires
        rb.wf(),
    ensures
        rb.free() == rb.size() - ((rb.write_offset() - rb.read_offset()) % rb.size()) - 1,
{
    lemma_mod_add_multiples_vanish(rb.write_offset() - rb.read_offset(), rb.size());
    lemma_wrap_is_mod(rb.write_offset() + rb.size() - rb.read_offset(), rb.size());
}

/// Every policy accepts a write that fits in the free space in full, and the
/// buffer then holds the old contents followed by the new bytes: nothing is
/// lost or reordered.
pub proof fn lemma_fitting_write_is_lossless(
    policy: OverflowPolicy,
    c: Seq<u8>,
    cap: int,
    b: Seq<u8>,
)
    requires
        c.len() + b.len() <= cap,
    ensures
        accepted_of(policy, c.len() as int, cap, b.len() as int) == b.len(),
        contents_after_write(policy, c, cap, b) == c + b,
{
    assert(contents_after_write(policy, c, cap, b) =~= c + b);
}

/// A whole sequence of writes that fits in the free space loses nothing
/// either: two consecutive fitting writes leave the buffer holding the old
/// contents followed by both byte runs in order, so the property extends
/// write by write to any fitting sequence.
pub proof fn lemma_fitting_writes_compose(
    policy: OverflowPolicy,
    c: Seq<u8>,
    cap: int,
    b1: Seq<u8>,
    b2: Seq<u8>,
)
    requires
        c.len() + b1.len() + b2.len() <= cap,
    ensures
        contents_after_write(policy, contents_after_write(policy, c, cap, b1), cap, b2) == c + b1
            + b2,
{
    lemma_fitting_write_is_lossless(policy, c, cap, b1);
    lemma_fitting_write_is_lossless(policy, c + b1, cap, b2);
}

/// Read-after-write round trip: writing into a drained buffer and reading
/// everything back reproduces the written bytes exactly, under every policy.
pub proof fn lemma_write_read_round_trip(policy: OverflowPolicy, cap: int, b: Seq<u8>)
    requires
        b.len() <= cap,
    ensures
        accepted_of(policy, 0, cap, b.len() as int) == b.len(),
        contents_after_write(policy, Seq::<u8>::empty(), cap, b) == b,
{
    lemma_fitting_write_is_lossless(policy, Seq::<u8>::empty(), cap, b);
    assert(Seq::<u8>::empty() + b =~= b);
}

/// Under the trim policy a write larger than the free space is rejected as a
/// whole: nothing is accepted and the unread contents stay exactly as they
/// were.
pub proof fn lemma_trim_rejects_oversized(c: Seq<u8>, cap: int, b: Seq<u8>)
    requires
        0 <= c.len() <= cap,
        b.len() > cap - c.len(),
    ensures
        accepted_of(OverflowPolicy::NoBlockTrim, c.len() as int, cap, b.len() as int) == 0,
        contents_after_write(OverflowPolicy::NoBlockTrim, c, cap, b) == c,
{
    assert(contents_after_write(OverflowPolicy::NoBlockTrim, c, cap, b) =~= c);
}

/// Under the skip policy a write that exceeds the free space (but fits the
/// capacity) is accepted in full and discards exactly the oldest bytes
/// needed to make room — no more, no fewer.
pub proof fn lemma_skip_overwrites_exactly_oldest(c: Seq<u8>, cap: int, b: Seq<u8>)
    requires
        0 <= c.len() <= cap,
        cap - c.len() < b.len() <= cap,
    ensures
        accepted_of(OverflowPolicy::NoBlockSkip, c.len() as int, cap, b.len() as int) == b.len(),
        evicted_of(OverflowPolicy::NoBlockSkip, c.len() as int, cap, b.len() as int) == b.len() - (
        cap - c.len()),
        contents_after_write(OverflowPolicy::NoBlockSkip, c, cap, b) == c.skip(
            b.len() - (cap - c.len()),
        ) + b,
{
    assert(contents_after_write(OverflowPolicy::NoBlockSkip, c, cap, b) =~= c.skip(
        b.len() - (cap - c.len()),
    ) + b);
}

/// Under the blocking policy a write larger than the free space first
/// accepts exactly what fits; once a consumer has drained `d` bytes, with
/// `d` at least the outstanding remainder, retrying the remainder accepts
/// all of it, so the whole request is accepted and the byte stream arrives
/// intact.
pub proof fn lemma_blocking_completes_after_drain(c: Seq<u8>, cap: int, b: Seq<u8>, d: int)
    requires
        0 <= c.len() <= cap,
        b.len() > cap - c.len(),
        b.len() - (cap - c.len()) <= d <= c.len(),
    ensures
        accepted_of(OverflowPolicy::Blocking, c.len() as int, cap, b.len() as int) == cap
            - c.len(),
        accepted_of(OverflowPolicy::Blocking, cap - d, cap, b.len() - (cap - c.len())) == b.len()
            - (cap - c.len()),
        contents_after_write(
            OverflowPolicy::Blocking,
            contents_after_write(OverflowPolicy::Blocking, c, cap, b).skip(d),
            cap,
            b.skip(cap - c.len()),
        ) == c.skip(d) + b,
{
    let a1 = cap - c.len();
    let c1 = contents_after_write(OverflowPolicy::Blocking, c, cap, b);
    assert(c1 =~= c + b.take(a1));
    assert(c1.len() == cap);
    let c2 = c1.skip(d);
    assert(c2 =~= c.skip(d) + b.take(a1));
    assert(contents_after_write(OverflowPolicy::Blocking, c2, cap, b.skip(a1)) =~= c.skip(d) + b);
}

} // verus!

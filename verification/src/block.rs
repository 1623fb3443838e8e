//! Channel descriptor block: the discoverable table of all channels.
//!
//! The control block owns every channel of the transport — the named "up"
//! (target to host) and "down" (host to target) ring buffers — together with
//! the two count fields an external probe reads.  The probe finds the block
//! by scanning target memory for a fixed 16-byte signature that always
//! stands at the very start of the encoded block header.

use crate::ring::drained;
use crate::ring::wrote;
use crate::ring::OverflowPolicy;
use crate::ring::RingBuffer;
use vstd::prelude::*;

verus! {

/// Everything a channel is created from: a name for the host tooling, a
/// requested buffer size in bytes and an overflow policy.
pub struct ChannelConfig {
    pub name: String,
    pub size: usize,
    pub policy: OverflowPolicy,
}

/// Why initialization of the control block was refused.
#[derive(Clone, Copy, PartialEq, Eq, Structural, Debug)]
pub enum InitError {
    /// A requested channel buffer size was zero.
    ZeroBufferSize,
    /// The requested buffers together exceed the reserved static storage;
    /// there is no fallback allocator, so startup is aborted.
    StorageExceeded,
}

/// One channel: its descriptor name and the ring buffer behind it.
pub struct Channel {
    name: String,
    ring: RingBuffer,
}

impl Channel {
    /// The channel's name, as the descriptor records it.
    pub closed spec fn name_chars(self) -> Seq<char> {
        self.name@
    }

    /// The ring buffer backing the channel.
    pub closed spec fn ring(self) -> RingBuffer {
        self.ring
    }

    /// A channel is well formed when its ring buffer is.
    pub open spec fn wf(self) -> bool {
        self.ring().wf()
    }
}

/// Sum of the buffer sizes requested from index `i` on.
pub open spec fn storage_from(cfgs: Seq<ChannelConfig>, i: int) -> int
    decreases cfgs.len() - i,
{
    if i < 0 || i >= cfgs.len() {
        0
    } else {
        cfgs[i].size + storage_from(cfgs, i + 1)
    }
}

/// Total static storage the requested channels need.
pub open spec fn total_storage(cfgs: Seq<ChannelConfig>) -> int {
    storage_from(cfgs, 0)
}

/// Every requested buffer size is at least one byte.
pub open spec fn all_sizes_positive(cfgs: Seq<ChannelConfig>) -> bool {
    forall|i: int| 0 <= i < cfgs.len() ==> (#[trigger] cfgs[i]).size >= 1
}

/// The channels were built exactly as requested: same order, same names,
/// same buffer sizes and policies, and every buffer starts out empty.
pub open spec fn channels_match(chs: Seq<Channel>, cfgs: Seq<ChannelConfig>) -> bool {
    &&& chs.len() == cfgs.len()
    &&& forall|i: int|
        0 <= i < chs.len() ==> {
            &&& (#[trigger] chs[i]).name_chars() == cfgs[i].name@
            &&& chs[i].ring().size() == cfgs[i].size
            &&& chs[i].ring().policy() == cfgs[i].policy
            &&& chs[i].ring().contents() == Seq::<u8>::empty()
        }
}

/// The fixed discovery signature: the bytes of "SEGGER RTT" padded with
/// zeros to 16 bytes, placed at the start of the block header so that an
/// external probe can find the block by scanning memory.
pub open spec fn signature() -> Seq<u8> {
    seq![
        0x53u8,
        0x45u8,
        0x47u8,
        0x47u8,
        0x45u8,
        0x52u8,
        0x20u8,
        0x52u8,
        0x54u8,
        0x54u8,
        0u8,
        0u8,
        0u8,
        0u8,
        0u8,
        0u8,
    ]
}

/// A count field encoded as four little-endian bytes.
pub open spec fn le32(n: int) -> Seq<u8> {
    seq![
        (n % 256) as u8,
        ((n / 256) % 256) as u8,
        ((n / 65536) % 256) as u8,
        ((n / 16777216) % 256) as u8,
    ]
}

/// The encoded block header: the signature followed by the two channel
/// counts.
pub open spec fn header_spec(up_count: int, down_count: int) -> Seq<u8> {
    signature() + le32(up_count) + le32(down_count)
}

/// The discovery signature stands byte-exact at the start of the header,
/// whatever channel configuration the block was initialized with.
pub proof fn lemma_signature_at_block_start(up_count: int, down_count: int)
    ensures
        header_spec(up_count, down_count).len() == 24,
        header_spec(up_count, down_count).take(16) == signature(),
{
    assert(header_spec(up_count, down_count).take(16) =~= signature());
}

/// The descriptor block: counts and ordered channel tables, constructed
/// once at startup and never resized or relocated afterwards.
pub struct ControlBlock {
    up_count: usize,
    down_count: usize,
    up: Vec<Channel>,
    down: Vec<Channel>,
}

impl ControlBlock {
    /// The up-channels, in specification order.
    pub closed spec fn up_channels(self) -> Seq<Channel> {
        self.up@
    }

    /// The down-channels, in specification order.
    pub closed spec fn down_channels(self) -> Seq<Channel> {
        self.down@
    }

    /// Well-formedness: the count fields match the table lengths, every
    /// channel is well formed, and the counts fit their 32-bit header
    /// encoding.
    pub closed spec fn wf(self) -> bool {
        &&& self.up_count == self.up@.len()
        &&& self.down_count == self.down@.len()
        &&& self.up@.len() <= 0xffff_ffff
        &&& self.down@.len() <= 0xffff_ffff
        &&& forall|i: int| 0 <= i < self.up@.len() ==> (#[trigger] self.up@[i]).wf()
        &&& forall|i: int| 0 <= i < self.down@.len() ==> (#[trigger] self.down@[i]).wf()
    }

    /// Number of up-channels.
    pub fn up_count(&self) -> (n: usize)
        requires
            self.wf(),
        ensures
            n == self.up_channels().len(),
    {
        self.up_count
    }

    /// Number of down-channels.
    pub fn down_count(&self) -> (n: usize)
        requires
            self.wf(),
        ensures
            n == self.down_channels().len(),
    {
        self.down_count
    }

    /// Build the control block from the requested channel configurations.
    ///
    /// All channel buffers come out of a single region of `reserve` bytes
    /// set aside at build time; initialization fails fast when the requests
    /// do not fit, or when a requested buffer size is zero, since a
    /// descriptor's buffer must hold at least one byte.  On success the
    /// channels stand in specification order, empty, with exactly the
    /// requested names, sizes and policies.  The counts must fit their
    /// 32-bit header encoding.
    pub fn initialize(
        up_cfgs: Vec<ChannelConfig>,
        down_cfgs: Vec<ChannelConfig>,
        reserve: usize,
    ) -> (r: Result<ControlBlock, InitError>)
        requires
            up_cfgs@.len() <= 0xffff_ffff,
            down_cfgs@.len() <= 0xffff_ffff,
        ensures
            r is Ok <==> {
                &&& all_sizes_positive(up_cfgs@)
                &&& all_sizes_positive(down_cfgs@)
                &&& total_storage(up_cfgs@) + total_storage(down_cfgs@) <= reserve
            },
            r == Err::<ControlBlock, InitError>(InitError::ZeroBufferSize) <==> !(
            all_sizes_positive(up_cfgs@) && all_sizes_positive(down_cfgs@)),
            r == Err::<ControlBlock, InitError>(InitError::StorageExceeded) <==> {
                &&& all_sizes_positive(up_cfgs@)
                &&& all_sizes_positive(down_cfgs@)
                &&& total_storage(up_cfgs@) + total_storage(down_cfgs@) > reserve
            },
            r matches Ok(cb) ==> {
                &&& cb.wf()
                &&& channels_match(cb.up_channels(), up_cfgs@)
                &&& channels_match(cb.down_channels(), down_cfgs@)
            },
    {
        if !(sizes_positive(&up_cfgs) && sizes_positive(&down_cfgs)) {
            return Err(InitError::ZeroBufferSize);
        }
        let after_up = match budget_left(&up_cfgs, reserve) {
            Some(rem) => rem,
            None => {
                proof {
                    lemma_storage_from_nonneg(down_cfgs@, 0);
                }
                return Err(InitError::StorageExceeded);
            },
        };
        match budget_left(&down_cfgs, after_up) {
            Some(_) => {},
            None => {
                proof {
                    lemma_storage_from_nonneg(up_cfgs@, 0);
                    lemma_storage_from_nonneg(down_cfgs@, 0);
                }
                return Err(InitError::StorageExceeded);
            },
        }
        let up_count = up_cfgs.len();
        let down_count = down_cfgs.len();
        let up = build_channels(up_cfgs);
        let down = build_channels(down_cfgs);
        Ok(ControlBlock { up_count, down_count, up, down })
    }

    /// Serialize the block header an external probe reads: the 16-byte
    /// discovery signature followed by the two channel counts, each as four
    /// little-endian bytes.
    pub fn encode_header(&self) -> (h: Vec<u8>)
        requires
            self.wf(),
        ensures
            h@ == header_spec(
                self.up_channels().len() as int,
                self.down_channels().len() as int,
            ),
            h@.take(16) == signature(),
    {
        let mut h: Vec<u8> = Vec::new();
        h.push(0x53);
        h.push(0x45);
        h.push(0x47);
        h.push(0x47);
        h.push(0x45);
        h.push(0x52);
        h.push(0x20);
        h.push(0x52);
        h.push(0x54);
        h.push(0x54);
        h.push(0);
        h.push(0);
        h.push(0);
        h.push(0);
        h.push(0);
        h.push(0);
        let uc = self.up_count as u32;
        h.push((uc % 256) as u8);
        h.push(((uc / 256) % 256) as u8);
        h.push(((uc / 65536) % 256) as u8);
        h.push(((uc / 16777216) % 256) as u8);
        let dc = self.down_count as u32;
        h.push((dc % 256) as u8);
        h.push(((dc / 256) % 256) as u8);
        h.push(((dc / 65536) % 256) as u8);
        h.push(((dc / 16777216) % 256) as u8);
        proof {
            assert(h@ =~= header_spec(
                self.up_channels().len() as int,
                self.down_channels().len() as int,
            ));
            assert(h@.take(16) =~= signature());
        }
        h
    }

    /// Write `bytes` into the up-channel at `idx` under that channel's
    /// overflow policy; the producer's side of an up-channel.
    pub fn write_up(&mut self, idx: usize, bytes: &Vec<u8>) -> (accepted: usize)
        requires
            old(self).wf(),
            idx < old(self).up_channels().len(),
        ensures
            final(self).wf(),
            final(self).up_channels().len() == old(self).up_channels().len(),
            final(self).down_channels() == old(self).down_channels(),
            forall|j: int|
                0 <= j < old(self).up_channels().len() && j != idx ==> final(self).up_channels()[j]
                    == old(self).up_channels()[j],
            final(self).up_channels()[idx as int].name_chars() == old(self).up_channels()[
                idx as int].name_chars(),
            wrote(
                old(self).up_channels()[idx as int].ring(),
                final(self).up_channels()[idx as int].ring(),
                bytes@,
                accepted as int,
            ),
    {
        let mut ch = self.up.remove(idx);
        let accepted = ch.ring.write(bytes);
        self.up.insert(idx, ch);
        proof {
            assert forall|j: int|
                0 <= j < old(self).up_channels().len() && j != idx implies self.up@[j] == old(self).up@[j] by {}
        }
        accepted
    }

    /// Drain up to `max` bytes from the up-channel at `idx`: the probe's
    /// side of an up-channel, offered so that an attached consumer can be
    /// simulated in the same address space.
    pub fn read_up(&mut self, idx: usize, max: usize) -> (out: Vec<u8>)
        requires
            old(self).wf(),
            idx < old(self).up_channels().len(),
        ensures
            final(self).wf(),
            final(self).up_channels().len() == old(self).up_channels().len(),
            final(self).down_channels() == old(self).down_channels(),
            forall|j: int|
                0 <= j < old(self).up_channels().len() && j != idx ==> final(self).up_channels()[j]
                    == old(self).up_channels()[j],
            final(self).up_channels()[idx as int].name_chars() == old(self).up_channels()[
                idx as int].name_chars(),
            drained(
                old(self).up_channels()[idx as int].ring(),
                final(self).up_channels()[idx as int].ring(),
                max as int,
                out@,
            ),
    {
        let mut ch = self.up.remove(idx);
        let out = ch.ring.read(max);
        self.up.insert(idx, ch);
        proof {
            assert forall|j: int|
                0 <= j < old(self).up_channels().len() && j != idx implies self.up@[j] == old(self).up@[j] by {}
        }
        out
    }

    /// Write `bytes` into the down-channel at `idx`: the probe's side of a
    /// down-channel, offered so that host input can be simulated in the same
    /// address space.
    pub fn write_down(&mut self, idx: usize, bytes: &Vec<u8>) -> (accepted: usize)
        requires
            old(self).wf(),
            idx < old(self).down_channels().len(),
        ensures
            final(self).wf(),
            final(self).down_channels().len() == old(self).down_channels().len(),
            final(self).up_channels() == old(self).up_channels(),
            forall|j: int|
                0 <= j < old(self).down_channels().len() && j != idx ==> final(self).down_channels()[j] == old(self).down_channels()[j],
            final(self).down_channels()[idx as int].name_chars() == old(self).down_channels()[
                idx as int].name_chars(),
            wrote(
                old(self).down_channels()[idx as int].ring(),
                final(self).down_channels()[idx as int].ring(),
                bytes@,
                accepted as int,
            ),
    {
        let mut ch = self.down.remove(idx);
        let accepted = ch.ring.write(bytes);
        self.down.insert(idx, ch);
        proof {
            assert forall|j: int|
                0 <= j < old(self).down_channels().len() && j != idx implies self.down@[j] == old(self).down@[j] by {}
        }
        accepted
    }

    /// Consume up to `max` bytes of host input from the down-channel at
    /// `idx`; the target's side of a down-channel.
    pub fn read_down(&mut self, idx: usize, max: usize) -> (out: Vec<u8>)
        requires
            old(self).wf(),
            idx < old(self).down_channels().len(),
        ensures
            final(self).wf(),
            final(self).down_channels().len() == old(self).down_channels().len(),
            final(self).up_channels() == old(self).up_channels(),
            forall|j: int|
                0 <= j < old(self).down_channels().len() && j != idx ==> final(self).down_channels()[j] == old(self).down_channels()[j],
            final(self).down_channels()[idx as int].name_chars() == old(self).down_channels()[
                idx as int].name_chars(),
            drained(
                old(self).down_channels()[idx as int].ring(),
                final(self).down_channels()[idx as int].ring(),
                max as int,
                out@,
            ),
    {
        let mut ch = self.down.remove(idx);
        let out = ch.ring.read(max);
        self.down.insert(idx, ch);
        proof {
            assert forall|j: int|
                0 <= j < old(self).down_channels().len() && j != idx implies self.down@[j] == old(self).down@[j] by {}
        }
        out
    }

    /// The name of the up-channel at `idx`.
    pub fn up_name(&self, idx: usize) -> (name: &String)
        requires
            self.wf(),
            idx < self.up_channels().len(),
        ensures
            name@ == self.up_channels()[idx as int].name_chars(),
    {
        &self.up[idx].name
    }

    /// The name of the down-channel at `idx`.
    pub fn down_name(&self, idx: usize) -> (name: &String)
        requires
            self.wf(),
            idx < self.down_channels().len(),
        ensures
            name@ == self.down_channels()[idx as int].name_chars(),
    {
        &self.down[idx].name
    }

    /// The buffer size of the up-channel at `idx`.
    pub fn up_buffer_size(&self, idx: usize) -> (size: usize)
        requires
            self.wf(),
            idx < self.up_channels().len(),
        ensures
            size == self.up_channels()[idx as int].ring().size(),
    {
        self.up[idx].ring.size_len()
    }

    /// The buffer size of the down-channel at `idx`.
    pub fn down_buffer_size(&self, idx: usize) -> (size: usize)
        requires
            self.wf(),
            idx < self.down_channels().len(),
        ensures
            size == self.down_channels()[idx as int].ring().size(),
    {
        self.down[idx].ring.size_len()
    }
}

/// Sums never go negative: every summand is a size.
proof fn lemma_storage_from_nonneg(cfgs: Seq<ChannelConfig>, i: int)
    ensures
        storage_from(cfgs, i) >= 0,
    decreases cfgs.len() - i,
{
    if 0 <= i < cfgs.len() {
        lemma_storage_from_nonneg(cfgs, i + 1);
    }
}

/// True exactly when every requested buffer size is at least one byte.
fn sizes_positive(cfgs: &Vec<ChannelConfig>) -> (ok: bool)
    ensures
        ok == all_sizes_positive(cfgs@),
{
    let mut j: usize = 0;
    while j < cfgs.len()
        invariant
            j <= cfgs@.len(),
            forall|i: int| 0 <= i < j ==> (#[trigger] cfgs@[i]).size >= 1,
        decreases cfgs@.len() - j,
    {
        if cfgs[j].size == 0 {
            return false;
        }
        j = j + 1;
    }
    true
}

/// Subtract the requested sizes from `budget`; `None` exactly when they
/// exceed it, otherwise what is left.
fn budget_left(cfgs: &Vec<ChannelConfig>, budget: usize) -> (r: Option<usize>)
    ensures
        r is Some <==> total_storage(cfgs@) <= budget,
        r matches Some(rem) ==> rem == budget - total_storage(cfgs@),
{
    let mut remaining: usize = budget;
    let mut j: usize = 0;
    while j < cfgs.len()
        invariant
            j <= cfgs@.len(),
            remaining <= budget,
            budget - remaining == total_storage(cfgs@) - storage_from(cfgs@, j as int),
        decreases cfgs@.len() - j,
    {
        let size = cfgs[j].size;
        if size > remaining {
            proof {
                lemma_storage_from_nonneg(cfgs@, j as int + 1);
            }
            return None;
        }
        remaining = remaining - size;
        j = j + 1;
    }
    Some(remaining)
}

/// Create one empty ring-buffer channel for each configuration, in order.
fn build_channels(cfgs: Vec<ChannelConfig>) -> (chs: Vec<Channel>)
    requires
        all_sizes_positive(cfgs@),
    ensures
        channels_match(chs@, cfgs@),
        forall|i: int| 0 <= i < chs@.len() ==> (#[trigger] chs@[i]).wf(),
{
    let ghost cfgs0 = cfgs@;
    let mut rest = cfgs;
    let mut out: Vec<Channel> = Vec::new();
    while rest.len() > 0
        invariant
            all_sizes_positive(cfgs0),
            out@.len() <= cfgs0.len(),
            rest@ == cfgs0.skip(out@.len() as int),
            channels_match(out@, cfgs0.take(out@.len() as int)),
            forall|i: int| 0 <= i < out@.len() ==> (#[trigger] out@[i]).wf(),
        decreases rest@.len(),
    {
        let ghost k = out@.len() as int;
        let cfg = rest.remove(0);
        proof {
            assert(cfg == cfgs0[k]);
            assert(rest@ =~= cfgs0.skip(k + 1));
        }
        let ring = RingBuffer::new(cfg.size, cfg.policy);
        out.push(Channel { name: cfg.name, ring });
        proof {
            assert(channels_match(out@, cfgs0.take(k + 1)));
        }
    }
    proof {
        assert(cfgs0.take(cfgs0.len() as int) =~= cfgs0);
    }
    out
}

} // verus!

//! Writers and the periodic main-loop driver.
//!
//! A `DiagnosticsContext` owns the control block together with the single
//! mutable binding the text writer uses: the index of the default print
//! channel.  The driver advances an 8-bit iteration counter with wraparound,
//! emits the counter as a one-byte little-endian binary frame, reports the
//! iteration on the print channel and toggles a status indicator — forever
//! in production, for a caller-chosen number of iterations here, so that the
//! loop body stays testable.

use crate::block::ControlBlock;
use crate::ring::accepted_of;
use crate::ring::drained;
use crate::ring::wrote;
use vstd::arithmetic::div_mod::lemma_add_mod_noop;
use vstd::arithmetic::div_mod::lemma_mod_add_multiples_vanish;
use vstd::arithmetic::div_mod::lemma_small_mod;
use vstd::prelude::*;

verus! {

/// Longest text line the bounded intermediate buffer of the text writer can
/// hold; longer lines are truncated, never a fault.
pub const MAX_LINE: usize = 128;

/// The 8-bit iteration counter after one increment: wraps to zero past 255
/// instead of faulting.
pub open spec fn next_counter(c: int) -> int {
    (c + 1) % 256
}

/// The counter after `n` increments from `c`.
pub open spec fn counter_after(c: int, n: nat) -> int
    decreases n,
{
    if n == 0 {
        c % 256
    } else {
        next_counter(counter_after(c, (n - 1) as nat))
    }
}

/// Iterated increments are addition modulo 256.
pub proof fn lemma_counter_after_is_mod(c: int, n: nat)
    requires
        0 <= c,
    ensures
        counter_after(c, n) == (c + n) % 256,
    decreases n,
{
    if n > 0 {
        lemma_counter_after_is_mod(c, (n - 1) as nat);
        lemma_small_mod(1, 256);
        lemma_add_mod_noop(c + n - 1, 1, 256);
    }
}

/// Counter wraparound: 256 increments bring the counter back to where it
/// started; in particular, 256 increments from zero yield zero.
pub proof fn lemma_counter_wraps_after_256(c: int)
    requires
        0 <= c < 256,
    ensures
        counter_after(c, 256) == c,
{
    lemma_counter_after_is_mod(c, 256);
    lemma_mod_add_multiples_vanish(c, 256);
    lemma_small_mod(c as nat, 256);
}

/// The binary frame emitted for a counter value: its single little-endian
/// byte.
pub open spec fn counter_frame(c: u8) -> Seq<u8> {
    seq![c]
}

/// The fixed-width record the driver reports on the print channel each
/// iteration: the counter followed by the byte count the binary channel
/// accepted.  Rendering it as human-readable text is host-side formatting
/// and stays outside this core.
pub open spec fn report_record(count: u8, accepted: u8) -> Seq<u8> {
    seq![count, accepted]
}

/// A text line as the bounded text writer passes it on: truncated to
/// `MAX_LINE` bytes when it is longer.
pub open spec fn truncated_line(line: Seq<u8>) -> Seq<u8> {
    if line.len() <= MAX_LINE {
        line
    } else {
        line.take(MAX_LINE as int)
    }
}

/// Serialize the counter as a fixed-width little-endian binary frame.
pub fn encode_counter(c: u8) -> (frame: Vec<u8>)
    ensures
        frame@ == counter_frame(c),
{
    let mut frame: Vec<u8> = Vec::new();
    frame.push(c);
    proof {
        assert(frame@ =~= counter_frame(c));
    }
    frame
}

/// Decode a received binary frame back into the counter it carries; frames
/// of any other width are rejected.
pub fn decode_counter(frame: &Vec<u8>) -> (r: Option<u8>)
    ensures
        r == if frame@.len() == 1 {
            Some(frame@[0])
        } else {
            None::<u8>
        },
{
    if frame.len() == 1 {
        Some(frame[0])
    } else {
        None
    }
}

/// Round trip: decoding an emitted frame yields exactly the counter it was
/// built from.
pub proof fn lemma_frame_round_trip(c: u8)
    ensures
        counter_frame(c).len() == 1,
        counter_frame(c)[0] == c,
{
}

/// The explicit ownership root of the transport: the control block plus the
/// process-wide default print binding and the status indicator, constructed
/// once at startup and passed to every writer.
pub struct DiagnosticsContext {
    block: ControlBlock,
    print_idx: usize,
    indicator: bool,
}

impl DiagnosticsContext {
    /// The control block the context owns.
    pub closed spec fn block_spec(self) -> ControlBlock {
        self.block
    }

    /// Index of the up-channel currently bound as default print target.
    pub closed spec fn print_channel(self) -> int {
        self.print_idx as int
    }

    /// The status indicator (one output pin, modelled as a flag; toggling
    /// the real pin is the surrounding runtime's concern).
    pub closed spec fn indicator(self) -> bool {
        self.indicator
    }

    /// Well-formedness: the block is well formed and the print binding
    /// points at an existing up-channel.
    pub open spec fn wf(self) -> bool {
        &&& self.block_spec().wf()
        &&& 0 <= self.print_channel() < self.block_spec().up_channels().len()
    }

    /// Take ownership of an initialized control block, binding the print
    /// target to the up-channel at `print_idx`, indicator off.
    pub fn new(block: ControlBlock, print_idx: usize) -> (ctx: DiagnosticsContext)
        requires
            block.wf(),
            print_idx < block.up_channels().len(),
        ensures
            ctx.wf(),
            ctx.block_spec() == block,
            ctx.print_channel() == print_idx,
            !ctx.indicator(),
    {
        DiagnosticsContext { block, print_idx, indicator: false }
    }

    /// Rebind the process-wide default print target to another up-channel.
    pub fn select_print_channel(&mut self, idx: usize)
        requires
            old(self).wf(),
            idx < old(self).block_spec().up_channels().len(),
        ensures
            final(self).wf(),
            final(self).block_spec() == old(self).block_spec(),
            final(self).print_channel() == idx,
            final(self).indicator() == old(self).indicator(),
    {
        self.print_idx = idx;
    }

    /// Index of the currently bound default print channel.
    pub fn print_channel_index(&self) -> (idx: usize)
        ensures
            idx == self.print_channel(),
    {
        self.print_idx
    }

    /// Whether the status indicator is currently on.
    pub fn indicator_on(&self) -> (on: bool)
        ensures
            on == self.indicator(),
    {
        self.indicator
    }

    /// The control block, for read-only inspection.
    pub fn block_ref(&self) -> (block: &ControlBlock)
        ensures
            *block == self.block_spec(),
    {
        &self.block
    }

    /// Binary Writer: push a raw byte frame into the up-channel at `idx`
    /// and report the count of bytes actually accepted, which the caller is
    /// expected to inspect to detect a partial or dropped write.
    pub fn write_frame(&mut self, idx: usize, frame: &Vec<u8>) -> (accepted: usize)
        requires
            old(self).wf(),
            idx < old(self).block_spec().up_channels().len(),
        ensures
            final(self).wf(),
            final(self).print_channel() == old(self).print_channel(),
            final(self).indicator() == old(self).indicator(),
            final(self).block_spec().down_channels() == old(self).block_spec().down_channels(),
            final(self).block_spec().up_channels().len() == old(self).block_spec().up_channels().len(),
            forall|j: int|
                0 <= j < old(self).block_spec().up_channels().len() && j != idx ==> final(self).block_spec().up_channels()[j] == old(self).block_spec().up_channels()[j],
            wrote(
                old(self).block_spec().up_channels()[idx as int].ring(),
                final(self).block_spec().up_channels()[idx as int].ring(),
                frame@,
                accepted as int,
            ),
    {
        self.block.write_up(idx, frame)
    }

    /// Drain up to `max` bytes from the up-channel at `idx`, simulating the
    /// attached probe's consumer side.
    pub fn drain_up(&mut self, idx: usize, max: usize) -> (out: Vec<u8>)
        requires
            old(self).wf(),
            idx < old(self).block_spec().up_channels().len(),
        ensures
            final(self).wf(),
            final(self).print_channel() == old(self).print_channel(),
            final(self).indicator() == old(self).indicator(),
            final(self).block_spec().down_channels() == old(self).block_spec().down_channels(),
            final(self).block_spec().up_channels().len() == old(self).block_spec().up_channels().len(),
            forall|j: int|
                0 <= j < old(self).block_spec().up_channels().len() && j != idx ==> final(self).block_spec().up_channels()[j] == old(self).block_spec().up_channels()[j],
            drained(
                old(self).block_spec().up_channels()[idx as int].ring(),
                final(self).block_spec().up_channels()[idx as int].ring(),
                max as int,
                out@,
            ),
    {
        self.block.read_up(idx, max)
    }

    /// Text Writer: push one line of already rendered text into the bound
    /// default print channel, truncated to the bounded intermediate size.
    /// Fire-and-forget: loss under a drop policy is accepted by design, so
    /// no count is returned.
    pub fn print_line(&mut self, line: &Vec<u8>)
        requires
            old(self).wf(),
        ensures
            final(self).wf(),
            final(self).print_channel() == old(self).print_channel(),
            final(self).indicator() == old(self).indicator(),
            final(self).block_spec().down_channels() == old(self).block_spec().down_channels(),
            final(self).block_spec().up_channels().len() == old(self).block_spec().up_channels().len(),
            forall|j: int|
                0 <= j < old(self).block_spec().up_channels().len() && j != old(self).print_channel() ==> final(self).block_spec().up_channels()[j] == old(self).block_spec().up_channels()[j],
            wrote(
                old(self).block_spec().up_channels()[old(self).print_channel()].ring(),
                final(self).block_spec().up_channels()[old(self).print_channel()].ring(),
                truncated_line(line@),
                accepted_of(
                    old(self).block_spec().up_channels()[old(self).print_channel()].ring().policy(),
                    old(self).block_spec().up_channels()[old(self).print_channel()].ring().used(),
                    old(self).block_spec().up_channels()[old(self).print_channel()].ring().capacity(),
                    truncated_line(line@).len() as int,
                ),
            ),
    {
        let n = if line.len() <= MAX_LINE {
            line.len()
        } else {
            MAX_LINE
        };
        let mut t: Vec<u8> = Vec::new();
        let mut i: usize = 0;
        while i < n
            invariant
                i <= n,
                n <= line@.len(),
                t@ == line@.take(i as int),
            decreases n - i,
        {
            t.push(line[i]);
            proof {
                assert(t@ =~= line@.take(i as int + 1));
            }
            i = i + 1;
        }
        proof {
            assert(t@ =~= truncated_line(line@));
        }
        let pi = self.print_idx;
        self.block.write_up(pi, &t);
    }

    /// One iteration of the main loop: increment the counter with
    /// wraparound, emit it as a binary frame on the up-channel at
    /// `binary_idx`, report iteration and accepted byte count on the print
    /// channel, and toggle the status indicator.  Returns the new counter
    /// and the accepted frame byte count.
    pub fn step(&mut self, binary_idx: usize, counter: u8) -> (r: (u8, usize))
        requires
            old(self).wf(),
            binary_idx < old(self).block_spec().up_channels().len(),
            binary_idx != old(self).print_channel(),
        ensures
            final(self).wf(),
            final(self).print_channel() == old(self).print_channel(),
            final(self).indicator() == !old(self).indicator(),
            final(self).block_spec().down_channels() == old(self).block_spec().down_channels(),
            final(self).block_spec().up_channels().len() == old(self).block_spec().up_channels().len(),
            forall|j: int|
                0 <= j < old(self).block_spec().up_channels().len() && j != binary_idx && j != old(self).print_channel() ==> final(self).block_spec().up_channels()[j] == old(self).block_spec().up_channels()[j],
            r.0 as int == next_counter(counter as int),
            r.1 <= 1,
            wrote(
                old(self).block_spec().up_channels()[binary_idx as int].ring(),
                final(self).block_spec().up_channels()[binary_idx as int].ring(),
                counter_frame(r.0),
                r.1 as int,
            ),
            wrote(
                old(self).block_spec().up_channels()[old(self).print_channel()].ring(),
                final(self).block_spec().up_channels()[old(self).print_channel()].ring(),
                report_record(r.0, r.1 as u8),
                accepted_of(
                    old(self).block_spec().up_channels()[old(self).print_channel()].ring().policy(),
                    old(self).block_spec().up_channels()[old(self).print_channel()].ring().used(),
                    old(self).block_spec().up_channels()[old(self).print_channel()].ring().capacity(),
                    2,
                ),
            ),
    {
        let next = if counter == 255 {
            0
        } else {
            counter + 1
        };
        proof {
            lemma_small_mod((counter as nat + 1) % 256, 256);
            if counter != 255 {
                lemma_small_mod(counter as nat + 1, 256);
            }
        }
        let frame = encode_counter(next);
        let accepted = self.write_frame(binary_idx, &frame);
        let acc_byte = accepted as u8;
        let mut line: Vec<u8> = Vec::new();
        line.push(next);
        line.push(acc_byte);
        proof {
            assert(line@ =~= report_record(next, acc_byte));
            assert(truncated_line(line@) == line@);
        }
        self.print_line(&line);
        self.indicator = !self.indicator;
        (next, accepted)
    }

    /// Drive the main loop for `iterations` steps from counter value
    /// `start`; production code passes an always-true continuation, here the
    /// bound makes the endless loop testable.  Returns the final counter,
    /// which equals the start plus the iteration count modulo 256.
    pub fn run(&mut self, binary_idx: usize, start: u8, iterations: usize) -> (end: u8)
        requires
            old(self).wf(),
            binary_idx < old(self).block_spec().up_channels().len(),
            binary_idx != old(self).print_channel(),
        ensures
            final(self).wf(),
            final(self).print_channel() == old(self).print_channel(),
            final(self).block_spec().down_channels() == old(self).block_spec().down_channels(),
            final(self).block_spec().up_channels().len() == old(self).block_spec().up_channels().len(),
            end as int == counter_after(start as int, iterations as nat),
            end as int == (start as int + iterations as int) % 256,
            final(self).indicator() == (if iterations % 2 == 0 {
                old(self).indicator()
            } else {
                !old(self).indicator()
            }),
    {
        let mut counter = start;
        let mut k: usize = 0;
        while k < iterations
            invariant
                self.wf(),
                self.print_channel() == old(self).print_channel(),
                binary_idx < self.block_spec().up_channels().len(),
                binary_idx != self.print_channel(),
                self.block_spec().down_channels() == old(self).block_spec().down_channels(),
                self.block_spec().up_channels().len() == old(self).block_spec().up_channels().len(),
                k <= iterations,
                counter as int == counter_after(start as int, k as nat),
                self.indicator() == (if k % 2 == 0 {
                    old(self).indicator()
                } else {
                    !old(self).indicator()
                }),
            decreases iterations - k,
        {
            let r = self.step(binary_idx, counter);
            counter = r.0;
            k = k + 1;
        }
        proof {
            lemma_counter_after_is_mod(start as int, iterations as nat);
        }
        counter
    }
}

} // verus!

//! Buffers of the capture pipeline: rates and chunk sizes, queues that keep
//! only the newest samples, and the grouping of 48 kHz frames in threes for
//! the 16 kHz stream.
use vstd::prelude::*;

verus! {

/// Live transcription and the meter run at 16 kHz mono.
pub const SAMPLE_RATE: u32 = 16_000;

/// System audio plus microphone is kept at the native 48 kHz stereo rate.
pub const PLAYBACK_RATE: u32 = 48_000;

/// Frames in one mixer tick: 10 ms at the playback rate.
pub const MIX_CHUNK_FRAMES: usize = 480;

/// The most frames a source may run ahead of the other: 100 ms.
pub const MAX_QUEUE_FRAMES: usize = 4_800;

/// Samples the live spectrum looks at.
pub const SPECTRUM_WINDOW: usize = 1_024;

/// Bands of the live spectrum.
pub const SPECTRUM_BANDS: usize = 48;

/// A mixer tick is ten milliseconds of frames at the playback rate.
pub proof fn law_mix_chunk_is_ten_ms()
    ensures
        MIX_CHUNK_FRAMES == PLAYBACK_RATE / 100,
        MIX_CHUNK_FRAMES * 1000 == 10 * PLAYBACK_RATE,
{
}

/// The last `cap` items of `s`, or all of them when there are fewer.
pub open spec fn keep_last<T>(s: Seq<T>, cap: nat) -> Seq<T> {
    if s.len() <= cap {
        s
    } else {
        s.skip(s.len() - cap)
    }
}

/// A first-in first-out queue that keeps at most `cap` items: when more
/// arrive, the oldest are dropped.
pub struct BoundedQueue<T> {
    items: std::collections::VecDeque<T>,
    cap: usize,
}

impl<T: Copy> BoundedQueue<T> {
    /// The items, oldest first.
    pub closed spec fn contents(&self) -> Seq<T> {
        self.items@
    }

    /// The most items kept.
    pub closed spec fn capacity(&self) -> nat {
        self.cap as nat
    }

    pub closed spec fn wf(&self) -> bool {
        self.items@.len() <= self.cap
    }

    /// An empty queue keeping at most `cap` items.
    pub fn new(cap: usize) -> (q: Self)
        ensures
            q.wf(),
            q.contents().len() == 0,
            q.capacity() == cap,
    {
        BoundedQueue { items: std::collections::VecDeque::new(), cap }
    }

    /// Appends `xs`, then drops the oldest items beyond the capacity.
    pub fn push_slice(&mut self, xs: &[T])
        requires
            old(self).wf(),
        ensures
            final(self).wf(),
            final(self).capacity() == old(self).capacity(),
            final(self).contents() == keep_last(old(self).contents() + xs@, old(self).capacity()),
    {
        let ghost all = self.items@ + xs@;
        let mut i: usize = 0;
        while i < xs.len()
            invariant
                0 <= i <= xs@.len(),
                all == old(self).items@ + xs@,
                self.cap == old(self).cap,
                self.items@ == old(self).items@ + xs@.take(i as int),
            decreases xs.len() - i,
        {
            self.items.push_back(xs[i]);
            assert(xs@.take(i + 1) == xs@.take(i as int).push(xs@[i as int]));
            i = i + 1;
        }
        assert(xs@.take(xs@.len() as int) == xs@);
        while self.items.len() > self.cap
            invariant
                self.cap == old(self).cap,
                all == old(self).items@ + xs@,
                self.items@.len() <= all.len(),
                all.len() > self.cap ==> self.items@ == all.skip(all.len() - self.items@.len())
                    && self.items@.len() >= self.cap,
                all.len() <= self.cap ==> self.items@ == all,
            decreases self.items@.len(),
        {
            let ghost before = self.items@;
            self.items.pop_front();
            assert(self.items@ == before.drop_first());
            assert(all.skip(all.len() - self.items@.len()) =~= all.skip(
                all.len() - before.len(),
            ).drop_first());
        }
    }

    /// Takes the oldest item, or gives `fallback` when the queue is empty.
    pub fn pop_front_or(&mut self, fallback: T) -> (x: T)
        requires
            old(self).wf(),
        ensures
            final(self).wf(),
            final(self).capacity() == old(self).capacity(),
            old(self).contents().len() == 0 ==> x == fallback,
            old(self).contents().len() == 0 ==> final(self).contents() == old(self).contents(),
            old(self).contents().len() > 0 ==> x == old(self).contents()[0],
            old(self).contents().len() > 0 ==> final(self).contents() == old(self).contents().drop_first(),
    {
        match self.items.pop_front() {
            Some(x) => x,
            None => fallback,
        }
    }

    /// How many items the queue holds.
    pub fn len(&self) -> (n: usize)
        ensures
            n == self.contents().len(),
    {
        self.items.len()
    }

    /// Whether the queue holds nothing.
    pub fn is_empty(&self) -> (b: bool)
        ensures
            b == (self.contents().len() == 0),
    {
        self.items.len() == 0
    }

    /// Drops everything.
    pub fn clear(&mut self)
        ensures
            final(self).wf(),
            final(self).capacity() == old(self).capacity(),
            final(self).contents().len() == 0,
    {
        self.items.clear();
    }

    /// The item at `i`, oldest first.
    pub fn get(&self, i: usize) -> (x: T)
        requires
            i < self.contents().len(),
        ensures
            x == self.contents()[i as int],
    {
        self.items[i]
    }
}

/// Items grouped in threes, in order.
pub open spec fn triples<T>(s: Seq<T>) -> Seq<(T, T, T)> {
    Seq::new(s.len() / 3, |k: int| (s[3 * k], s[3 * k + 1], s[3 * k + 2]))
}

/// Items that arrive in any number, handed out three at a time: what does
/// not fill a group waits for the next arrivals.
pub struct GroupsOfThree<T> {
    leftover: Vec<T>,
}

impl<T: Copy> GroupsOfThree<T> {
    /// What waits for the next arrivals.
    pub closed spec fn pending(&self) -> Seq<T> {
        self.leftover@
    }

    pub fn new() -> (g: Self)
        ensures
            g.pending().len() == 0,
    {
        GroupsOfThree { leftover: Vec::new() }
    }

    /// Adds `xs` after what waits, and hands out every complete group of
    /// three; the one or two items left over wait.
    pub fn push(&mut self, xs: &[T]) -> (out: Vec<(T, T, T)>)
        ensures
            out@ == triples(old(self).pending() + xs@),
            final(self).pending() == (old(self).pending() + xs@).skip(
                (3 * ((old(self).pending() + xs@).len() / 3)) as int,
            ),
    {
        let ghost all = self.leftover@ + xs@;
        let mut buf: Vec<T> = Vec::new();
        let mut i: usize = 0;
        while i < self.leftover.len()
            invariant
                0 <= i <= self.leftover@.len(),
                buf@ == self.leftover@.take(i as int),
            decreases self.leftover.len() - i,
        {
            buf.push(self.leftover[i]);
            assert(self.leftover@.take(i + 1) == self.leftover@.take(i as int).push(
                self.leftover@[i as int],
            ));
            i = i + 1;
        }
        assert(self.leftover@.take(self.leftover@.len() as int) == self.leftover@);
        let mut j: usize = 0;
        while j < xs.len()
            invariant
                0 <= j <= xs@.len(),
                all == old(self).leftover@ + xs@,
                buf@ == old(self).leftover@ + xs@.take(j as int),
            decreases xs.len() - j,
        {
            buf.push(xs[j]);
            assert(xs@.take(j + 1) == xs@.take(j as int).push(xs@[j as int]));
            j = j + 1;
        }
        assert(xs@.take(xs@.len() as int) == xs@);
        assert(buf@ == all);
        let mut out: Vec<(T, T, T)> = Vec::new();
        let mut k: usize = 0;
        while buf.len() - k >= 3
            invariant
                buf@ == all,
                k % 3 == 0,
                k <= buf@.len(),
                out@.len() == k / 3,
                forall|g: int|
                    0 <= g < out@.len() ==> #[trigger] out@[g] == (all[3 * g], all[3 * g + 1], all[3
                        * g + 2]),
            decreases buf.len() - k,
        {
            out.push((buf[k], buf[k + 1], buf[k + 2]));
            k = k + 3;
        }
        assert(k == 3 * (all.len() / 3));
        assert(out@ =~= triples(all));
        let mut rest: Vec<T> = Vec::new();
        let mut m: usize = k;
        while m < buf.len()
            invariant
                buf@ == all,
                k <= m <= buf@.len(),
                rest@ == all.subrange(k as int, m as int),
            decreases buf.len() - m,
        {
            rest.push(buf[m]);
            assert(all.subrange(k as int, m + 1) == all.subrange(k as int, m as int).push(
                all[m as int],
            ));
            m = m + 1;
        }
        assert(rest@ == all.skip(k as int));
        self.leftover = rest;
        out
    }
}


// ---------------------------------------------------------------------------
// Layout of captured PCM
// ---------------------------------------------------------------------------

/// Where the left and right samples of each frame start in an interleaved
/// buffer of `len` bytes with `channels` samples of `width` bytes per frame:
/// the first two channels, or the one channel twice. Only whole frames count.
pub open spec fn interleaved_offsets_spec(len: nat, channels: nat, width: nat) -> Seq<(nat, nat)> {
    let step = channels * width;
    Seq::new(
        len / step,
        |f: int| {
            let base = (f * step) as nat;
            (base, if channels >= 2 { base + width } else { base })
        },
    )
}

/// The offsets of the left and right samples of each whole frame.
pub fn interleaved_stereo_offsets(len: usize, channels: usize, width: usize) -> (out: Vec<(usize, usize)>)
    requires
        channels >= 1,
        width >= 1,
        channels * width <= usize::MAX,
    ensures
        out@.len() == interleaved_offsets_spec(len as nat, channels as nat, width as nat).len(),
        forall|f: int|
            0 <= f < out@.len() ==> (#[trigger] out@[f]).0 as nat == interleaved_offsets_spec(
                len as nat,
                channels as nat,
                width as nat,
            )[f].0 && out@[f].1 as nat == interleaved_offsets_spec(
                len as nat,
                channels as nat,
                width as nat,
            )[f].1,
        forall|f: int| 0 <= f < out@.len() ==> #[trigger] out@[f].1 + width <= len,
{
    let step = channels * width;
    assert(step >= 1) by (nonlinear_arith)
        requires
            step == channels * width,
            channels >= 1,
            width >= 1,
    ;
    let frames = len / step;
    let mut out: Vec<(usize, usize)> = Vec::new();
    let mut f: usize = 0;
    while f < frames
        invariant
            step == channels * width,
            step >= 1,
            frames == len / step,
            channels >= 1,
            width >= 1,
            0 <= f <= frames,
            out@.len() == f,
            forall|g: int|
                0 <= g < f ==> (#[trigger] out@[g]).0 == g * step && out@[g].1 == if channels >= 2 {
                    g * step + width
                } else {
                    g * step
                },
            forall|g: int| 0 <= g < f ==> #[trigger] out@[g].1 + width <= len,
        decreases frames - f,
    {
        assert(f * step + step <= len) by (nonlinear_arith)
            requires
                f < frames,
                frames == len / step,
                step >= 1,
        ;
        assert(width <= step) by (nonlinear_arith)
            requires
                step == channels * width,
                channels >= 1,
        ;
        assert(2 * width <= step || channels < 2) by (nonlinear_arith)
            requires
                step == channels * width,
        ;
        let base = f * step;
        let right = if channels >= 2 {
            base + width
        } else {
            base
        };
        out.push((base, right));
        f = f + 1;
    }
    out
}

/// The frames a planar buffer set holds: the fewest whole samples of
/// `width` bytes in any of its buffers, or none when there is no buffer.
pub open spec fn planar_frames_spec(lens: Seq<usize>, width: nat) -> nat
    decreases lens.len(),
{
    if lens.len() == 0 {
        0
    } else if lens.len() == 1 {
        lens[0] as nat / width
    } else {
        let rest = planar_frames_spec(lens.drop_last(), width);
        let last = lens.last() as nat / width;
        if last < rest {
            last
        } else {
            rest
        }
    }
}

/// The frames a planar buffer set holds.
pub fn planar_frame_count(lens: &[usize], width: usize) -> (n: usize)
    requires
        width >= 1,
    ensures
        n == planar_frames_spec(lens@, width as nat),
{
    let mut n: usize = 0;
    let mut i: usize = 0;
    while i < lens.len()
        invariant
            width >= 1,
            0 <= i <= lens@.len(),
            n == planar_frames_spec(lens@.take(i as int), width as nat),
        decreases lens.len() - i,
    {
        assert(lens@.take(i + 1).drop_last() == lens@.take(i as int));
        assert(lens@.take(i + 1).last() == lens@[i as int]);
        let here = lens[i] / width;
        if i == 0 || here < n {
            n = here;
        }
        i = i + 1;
    }
    assert(lens@.take(lens@.len() as int) == lens@);
    n
}

/// The bytes of whole frames among `len` queued bytes, `block` bytes a frame.
pub fn whole_frame_bytes(len: usize, block: usize) -> (n: usize)
    requires
        block >= 1,
    ensures
        n == (len / block) * block,
        n <= len,
        n as int % block as int == 0,
{
    assert((len / block) * block <= len) by (nonlinear_arith)
        requires
            block >= 1,
    ;
    assert(((len / block) * block) as int % block as int == 0) by (nonlinear_arith)
        requires
            block >= 1,
    ;
    let n = len / block * block;
    n
}

} // verus!

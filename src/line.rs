//! Reassembly of sentence frames from a stream of bytes delivered one at a time.
//!
//! The storage is split in two halves of equal size. One half is written while
//! the other holds a completed frame that waits for the reader, so at most two
//! frames are ever pending.
use vstd::prelude::*;
use crate::sentence::{split_frame, split_frame_spec, GPS_Statement};

verus! {

/// Byte that starts a frame.
pub const FRAME_START: u8 = 0x24;

/// Byte that ends a frame.
pub const FRAME_END: u8 = 0x0A;

/// One of the two halves of the frame storage.
#[derive(Debug, Clone, Copy, PartialEq, Eq, Structural)]
pub enum Half {
    First,
    Second,
}

/// What the assembler holds, seen from outside: the completed frames that
/// wait for the reader, oldest first, and the frame being captured.
pub struct LineState {
    pub frames: Seq<Seq<u8>>,
    pub capturing: bool,
    pub partial: Seq<u8>,
}

/// The effect of one received byte on the assembler, whose halves hold `cap`
/// bytes each.
///
/// A frame start always begins a new capture and throws away a partial frame.
/// When two frames are pending, the new frame is captured over the oldest one,
/// which is lost. A frame end completes the capture. Other bytes are kept while
/// the frame, with room left for its end, fits its half, and dropped otherwise.
/// Halves too small for a frame start and a frame end never capture: there
/// every byte is dropped.
pub open spec fn push_spec(s: LineState, cap: nat, c: u8) -> LineState {
    if c == FRAME_START {
        if cap >= 2 {
            LineState {
                frames: if s.frames.len() >= 2 { s.frames.drop_first() } else { s.frames },
                capturing: true,
                partial: seq![c],
            }
        } else {
            s
        }
    } else if c == FRAME_END {
        if s.capturing {
            LineState { frames: s.frames.push(s.partial.push(c)), capturing: false, partial: seq![] }
        } else {
            s
        }
    } else if s.capturing && s.partial.len() + 1 < cap {
        LineState { partial: s.partial.push(c), ..s }
    } else {
        s
    }
}

/// The assembler's state after the bytes of `bytes`, received in order from `s`.
pub open spec fn push_all_spec(s: LineState, cap: nat, bytes: Seq<u8>) -> LineState
    decreases bytes.len(),
{
    if bytes.len() == 0 {
        s
    } else {
        push_spec(push_all_spec(s, cap, bytes.drop_last()), cap, bytes.last())
    }
}

/// The assembler as it starts: nothing pending, nothing captured.
pub open spec fn empty_state() -> LineState {
    LineState { frames: seq![], capturing: false, partial: seq![] }
}

/// Whether `f` is a whole frame that fits a half of `cap` bytes: a frame
/// start, then bytes that are neither a frame start nor a frame end, then a
/// frame end.
pub open spec fn whole_frame(f: Seq<u8>, cap: nat) -> bool {
    &&& 2 <= f.len() <= cap
    &&& f[0] == FRAME_START
    &&& f.last() == FRAME_END
    &&& forall|i: int| 0 < i < f.len() - 1 ==> #[trigger] f[i] != FRAME_START && f[i] != FRAME_END
}

/// Whether `p` is the start of a frame that is still being captured in a half
/// of `cap` bytes: a frame start, then bytes that are neither a frame start nor
/// a frame end, with room left for the frame end.
pub open spec fn partial_frame(p: Seq<u8>, cap: nat) -> bool {
    &&& 1 <= p.len() < cap
    &&& p[0] == FRAME_START
    &&& forall|i: int| 0 < i < p.len() ==> #[trigger] p[i] != FRAME_START && p[i] != FRAME_END
}

/// What holds of every state reached from the empty one: at most two frames
/// pending, a capture only while at most one is, every pending frame whole and
/// within its half, and the frame being captured well begun.
pub open spec fn state_bounded(s: LineState, cap: nat) -> bool {
    &&& s.frames.len() <= 2
    &&& s.capturing ==> s.frames.len() <= 1
    &&& forall|i: int| 0 <= i < s.frames.len() ==> whole_frame(#[trigger] s.frames[i], cap)
    &&& s.capturing ==> partial_frame(s.partial, cap)
    &&& !s.capturing ==> s.partial.len() == 0
}

/// The state after the reader has released the oldest pending frame.
pub open spec fn release_spec(s: LineState) -> LineState {
    if s.frames.len() > 0 {
        LineState { frames: s.frames.drop_first(), ..s }
    } else {
        s
    }
}

/// Every byte keeps the assembler within its bounds.
pub proof fn lemma_push_bounded(s: LineState, cap: nat, c: u8)
    requires
        state_bounded(s, cap),
    ensures
        state_bounded(push_spec(s, cap, c), cap),
{
    let t = push_spec(s, cap, c);
    if c == FRAME_START && cap >= 2 {
        assert forall|i: int| 0 <= i < t.frames.len() implies whole_frame(
            #[trigger] t.frames[i],
            cap,
        ) by {
            if s.frames.len() >= 2 {
                assert(t.frames[i] == s.frames[i + 1]);
            } else {
                assert(t.frames[i] == s.frames[i]);
            }
        }
    } else if c == FRAME_END && s.capturing {
        let f = s.partial.push(c);
        assert forall|i: int| 0 < i < f.len() - 1 implies #[trigger] f[i] != FRAME_START && f[i]
            != FRAME_END by {
            assert(f[i] == s.partial[i]);
        }
        assert(whole_frame(f, cap));
        assert forall|i: int| 0 <= i < t.frames.len() implies whole_frame(
            #[trigger] t.frames[i],
            cap,
        ) by {
            if i < s.frames.len() {
                assert(t.frames[i] == s.frames[i]);
            }
        }
    } else if c != FRAME_START && c != FRAME_END && s.capturing && s.partial.len() + 1 < cap {
        let p = s.partial.push(c);
        assert forall|i: int| 0 < i < p.len() implies #[trigger] p[i] != FRAME_START && p[i]
            != FRAME_END by {
            if i < s.partial.len() {
                assert(p[i] == s.partial[i]);
            }
        }
    }
}

/// Whatever bytes arrive, one at a time, from an empty assembler: at most two
/// frames are pending, a capture goes on only while at most one is, every
/// pending frame is whole, and no frame or partial frame outgrows its half.
pub proof fn lemma_bytes_stay_bounded(cap: nat, bytes: Seq<u8>)
    ensures
        state_bounded(push_all_spec(empty_state(), cap, bytes), cap),
    decreases bytes.len(),
{
    if bytes.len() > 0 {
        lemma_bytes_stay_bounded(cap, bytes.drop_last());
        lemma_push_bounded(push_all_spec(empty_state(), cap, bytes.drop_last()), cap, bytes.last());
    }
}

/// A frame start in the middle of a capture throws the partial frame away and
/// starts the capture anew; the pending frames stay as they were.
pub proof fn lemma_start_resyncs(s: LineState, cap: nat)
    requires
        state_bounded(s, cap),
        s.capturing,
    ensures
        push_spec(s, cap, FRAME_START).frames == s.frames,
        push_spec(s, cap, FRAME_START).capturing,
        push_spec(s, cap, FRAME_START).partial == seq![FRAME_START],
{
}

/// A frame start while two frames are pending loses the oldest of them and
/// keeps the newest.
pub proof fn lemma_overrun_loses_oldest(s: LineState, cap: nat)
    requires
        state_bounded(s, cap),
        s.frames.len() == 2,
    ensures
        push_spec(s, cap, FRAME_START).frames == seq![s.frames[1]],
        push_spec(s, cap, FRAME_START).capturing,
{
    assert(s.frames.drop_first() =~= seq![s.frames[1]]);
}

proof fn lemma_push_all_append(s: LineState, cap: nat, a: Seq<u8>, b: Seq<u8>)
    ensures
        push_all_spec(s, cap, a + b) == push_all_spec(push_all_spec(s, cap, a), cap, b),
    decreases b.len(),
{
    if b.len() == 0 {
        assert(a + b =~= a);
    } else {
        lemma_push_all_append(s, cap, a, b.drop_last());
        assert((a + b).drop_last() =~= a + b.drop_last());
        assert((a + b).last() == b.last());
    }
}

proof fn lemma_frame_prefix(s: LineState, cap: nat, f: Seq<u8>, k: int)
    requires
        whole_frame(f, cap),
        !s.capturing,
        s.frames.len() <= 1,
        1 <= k < f.len(),
    ensures
        push_all_spec(s, cap, f.take(k)).frames == s.frames,
        push_all_spec(s, cap, f.take(k)).capturing,
        push_all_spec(s, cap, f.take(k)).partial == f.take(k),
    decreases k,
{
    assert(f.take(k).drop_last() =~= f.take(k - 1));
    assert(f.take(k).last() == f[k - 1]);
    if k == 1 {
        assert(f.take(0) =~= Seq::<u8>::empty());
        assert(push_all_spec(s, cap, f.take(0)) == s);
        assert(f.take(1) =~= seq![FRAME_START]);
    } else {
        lemma_frame_prefix(s, cap, f, k - 1);
        assert(f.take(k - 1).push(f[k - 1]) =~= f.take(k));
    }
}

proof fn lemma_push_frame(s: LineState, cap: nat, f: Seq<u8>)
    requires
        whole_frame(f, cap),
        !s.capturing,
        s.frames.len() <= 1,
    ensures
        push_all_spec(s, cap, f).frames == s.frames.push(f),
        !push_all_spec(s, cap, f).capturing,
{
    let k = f.len() - 1;
    lemma_frame_prefix(s, cap, f, k);
    assert(f.drop_last() =~= f.take(k));
    assert(f.take(k).push(FRAME_END) =~= f);
}

/// Two whole frames received one after the other, with nothing pending
/// before, are both pending afterwards, oldest first; releasing one leaves
/// the second.
pub proof fn lemma_two_frames_in_order(cap: nat, f1: Seq<u8>, f2: Seq<u8>)
    requires
        whole_frame(f1, cap),
        whole_frame(f2, cap),
    ensures
        push_all_spec(empty_state(), cap, f1 + f2).frames == seq![f1, f2],
        release_spec(push_all_spec(empty_state(), cap, f1 + f2)).frames == seq![f2],
{
    let s0 = empty_state();
    lemma_push_all_append(s0, cap, f1, f2);
    lemma_push_frame(s0, cap, f1);
    let s1 = push_all_spec(s0, cap, f1);
    assert(s1.frames =~= seq![f1]);
    lemma_push_frame(s1, cap, f2);
    let s2 = push_all_spec(s1, cap, f2);
    assert(s2.frames =~= seq![f1, f2]);
    assert(s2.frames.drop_first() =~= seq![f2]);
}

/// Frame assembler over a buffer split in two halves of `cap` bytes each.
pub struct MSG {
    buffer: Vec<u8>,
    start: bool,
    ptr: usize,
    cap: usize,
    len: usize,
    active: Half,
    first_len: usize,
    second_len: usize,
}

/// The half that `h` is not.
pub open spec fn other(h: Half) -> Half {
    match h {
        Half::First => Half::Second,
        Half::Second => Half::First,
    }
}

impl MSG {
    /// Size of each half.
    pub closed spec fn capacity(&self) -> nat {
        self.cap as nat
    }

    closed spec fn base(&self, h: Half) -> int {
        match h {
            Half::First => 0,
            Half::Second => self.cap as int,
        }
    }

    closed spec fn slot_len(&self, h: Half) -> int {
        match h {
            Half::First => self.first_len as int,
            Half::Second => self.second_len as int,
        }
    }

    closed spec fn slot(&self, h: Half) -> Seq<u8> {
        self.buffer@.subrange(self.base(h), self.base(h) + self.slot_len(h))
    }

    /// The completed frames, oldest first. With two pending, the oldest lies in
    /// the half that the next capture will write.
    closed spec fn pending(&self) -> Seq<Seq<u8>> {
        if self.len == 0 {
            seq![]
        } else if self.len == 1 {
            seq![self.slot(other(self.active))]
        } else {
            seq![self.slot(self.active), self.slot(other(self.active))]
        }
    }

    pub closed spec fn view(&self) -> LineState {
        LineState {
            frames: self.pending(),
            capturing: self.start,
            partial: if self.start {
                self.buffer@.subrange(self.base(self.active), self.base(self.active) + self.ptr)
            } else {
                seq![]
            },
        }
    }

    /// The assembler's internal invariant.
    pub closed spec fn wf(&self) -> bool {
        &&& 2 * self.cap <= self.buffer@.len() <= usize::MAX
        &&& self.len <= 2
        &&& self.start ==> self.len <= 1 && 1 <= self.ptr < self.cap
        &&& !self.start ==> self.ptr == 0
        &&& (self.len >= 1 ==> 2 <= self.slot_len(other(self.active)) <= self.cap)
        &&& (self.len == 2 ==> 2 <= self.slot_len(self.active) <= self.cap)
        &&& state_bounded(self@, self.cap as nat)
    }

    /// Makes an assembler with nothing pending over `buff`, whose first
    /// `2 * capacity` bytes it uses as its two halves.
    pub fn new(buff: Vec<u8>, capactiy: usize) -> (r: Self)
        requires
            2 * capactiy <= buff@.len(),
        ensures
            r.wf(),
            r@ == empty_state(),
            state_bounded(r@, r.capacity()),
            r.capacity() == capactiy,
    {
        let total = buff.len();
        assert(2 * capactiy <= total);
        let r = MSG {
            buffer: buff,
            start: false,
            ptr: 0,
            cap: capactiy,
            len: 0,
            active: Half::First,
            first_len: 0,
            second_len: 0,
        };
        assert(r@.frames =~= seq![]);
        r
    }

    /// A well-formed assembler is within the bounds of `state_bounded`.
    pub proof fn lemma_view_bounded(&self)
        requires
            self.wf(),
        ensures
            state_bounded(self@, self.capacity()),
    {
    }

    fn base_of(&self, h: Half) -> (r: usize)
        requires
            self.wf(),
        ensures
            r == self.base(h),
    {
        match h {
            Half::First => 0,
            Half::Second => self.cap,
        }
    }

    /// Receives one byte.
    #[verifier::rlimit(40)]
    pub fn add(&mut self, c: u8)
        requires
            old(self).wf(),
        ensures
            final(self).wf(),
            final(self).capacity() == old(self).capacity(),
            final(self)@ == push_spec(old(self)@, old(self).capacity(), c),
            state_bounded(final(self)@, final(self).capacity()),
    {
        let ghost pre = *self;
        let b = self.base_of(self.active);
        if c == FRAME_START && self.cap >= 2 {
            if self.len == 2 {
                self.len = 1;
            }
            self.buffer[b] = c;
            self.ptr = 1;
            self.start = true;
            proof {
                let h = other(pre.active);
                if pre.len >= 1 {
                    assert(self.slot(h) =~= pre.slot(h));
                }
                assert(self@.partial =~= seq![c]);
                if pre.len == 2 {
                    assert(self.pending() =~= pre.pending().drop_first());
                } else {
                    assert(self.pending() =~= pre.pending());
                }
            }
        } else if c == FRAME_END {
            if self.start {
                self.buffer[b + self.ptr] = c;
                match self.active {
                    Half::First => {
                        self.first_len = self.ptr + 1;
                    },
                    Half::Second => {
                        self.second_len = self.ptr + 1;
                    },
                }
                proof {
                    let h = other(pre.active);
                    if pre.len >= 1 {
                        assert(self.slot(h) =~= pre.slot(h));
                    }
                    assert(self.slot(pre.active) =~= pre@.partial.push(c));
                }
                self.active = match self.active {
                    Half::First => Half::Second,
                    Half::Second => Half::First,
                };
                self.ptr = 0;
                self.start = false;
                self.len = self.len + 1;
                proof {
                    assert(self.pending() =~= pre.pending().push(pre@.partial.push(c)));
                }
            }
        } else if self.start && self.ptr + 1 < self.cap {
            self.buffer[b + self.ptr] = c;
            self.ptr = self.ptr + 1;
            proof {
                let h = other(pre.active);
                if pre.len >= 1 {
                    assert(self.slot(h) =~= pre.slot(h));
                }
                assert(self.pending() =~= pre.pending());
                assert(self@.partial =~= pre@.partial.push(c));
            }
        }
        proof {
            lemma_push_bounded(pre@, pre.cap as nat, c);
        }
    }

    /// Releases the oldest pending frame, once the reader is done with it.
    /// Does nothing when no frame is pending.
    pub fn clear(&mut self)
        requires
            old(self).wf(),
        ensures
            final(self).wf(),
            final(self).capacity() == old(self).capacity(),
            final(self)@ == release_spec(old(self)@),
            state_bounded(final(self)@, final(self).capacity()),
    {
        if self.len > 0 {
            let ghost pre = *self;
            self.len = self.len - 1;
            assert(self.pending() =~= pre.pending().drop_first());
        }
    }

    /// Whether two frames are pending.
    pub fn is_full(&self) -> (r: bool)
        requires
            self.wf(),
        ensures
            r == (self@.frames.len() == 2),
    {
        self.len == 2
    }

    /// Whether no frame is pending.
    pub fn is_empty(&self) -> (r: bool)
        requires
            self.wf(),
        ensures
            r == (self@.frames.len() == 0),
    {
        self.len == 0
    }

    /// The oldest pending frame, from its start byte to its end byte, if any
    /// is pending.
    pub fn get_frame(&self) -> (r: Option<&[u8]>)
        requires
            self.wf(),
        ensures
            r is None <==> self@.frames.len() == 0,
            r matches Some(f) ==> f@ == self@.frames[0],
    {
        if self.len == 0 {
            None
        } else {
            let h = if self.len == 2 {
                self.active
            } else {
                match self.active {
                    Half::First => Half::Second,
                    Half::Second => Half::First,
                }
            };
            let b = self.base_of(h);
            let n = match h {
                Half::First => self.first_len,
                Half::Second => self.second_len,
            };
            Some(vstd::slice::slice_subrange(self.buffer.as_slice(), b, b + n))
        }
    }

    /// The kind and the payload of the oldest pending frame; `Other` with an
    /// empty payload when no frame is pending.
    pub fn get_line(&self) -> (r: (GPS_Statement, &[u8]))
        requires
            self.wf(),
        ensures
            self@.frames.len() == 0 ==> r.0 == GPS_Statement::Other && r.1@ == Seq::<u8>::empty(),
            self@.frames.len() > 0 ==> r.0 == split_frame_spec(self@.frames[0]).0 && r.1@
                == split_frame_spec(self@.frames[0]).1,
    {
        match self.get_frame() {
            Some(frame) => split_frame(frame),
            None => {
                let none = vstd::slice::slice_subrange(self.buffer.as_slice(), 0, 0);
                assert(none@ =~= Seq::<u8>::empty());
                (GPS_Statement::Other, none)
            },
        }
    }
}

} // verus!

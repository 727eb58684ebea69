//! The frames of the link between the halves, and the decoder that finds
//! them in the stream of received bytes.
//!
//! A frame is four bytes: the marker, the row, the column, and 1 for a press
//! or 0 for a release. The marker has its high bit set, row and column have
//! not, so the marker occurs nowhere else in a well-formed frame: whatever
//! the decoder has seen, a marker starts a new frame.

use vstd::prelude::*;

verus! {

/// The byte that starts a frame.
pub const FRAME_MARKER: u8 = 0xA5;
/// Rows and columns on the wire are below this.
pub const COORDINATE_LIMIT: u8 = 0x80;

/// One debounced change of a key of the peripheral half.
#[derive(Clone, Copy, Debug, PartialEq, Eq, Structural)]
pub struct SplitFrame {
    pub row: u8,
    pub col: u8,
    pub pressed: bool,
}

/// What the decoder has seen of the frame that it is in.
#[derive(Clone, Copy, Debug, PartialEq, Eq, Structural)]
pub enum DecoderState {
    /// Outside a frame: waiting for the marker.
    Idle,
    /// The marker.
    Marker,
    /// The marker and the row.
    Row(u8),
    /// The marker, the row and the column.
    Col(u8, u8),
}

impl SplitFrame {
    /// A frame can be sent if its row and column are below the limit.
    pub open spec fn wf(self) -> bool {
        self.row < COORDINATE_LIMIT && self.col < COORDINATE_LIMIT
    }
}

/// The bytes of a frame on the wire.
pub open spec fn frame_bytes(f: SplitFrame) -> Seq<u8> {
    seq![FRAME_MARKER, f.row, f.col, if f.pressed { 1u8 } else { 0u8 }]
}

/// The bytes of a sequence of frames on the wire.
pub open spec fn frames_bytes(frames: Seq<SplitFrame>) -> Seq<u8>
    decreases frames.len(),
{
    if frames.len() == 0 {
        Seq::empty()
    } else {
        frames_bytes(frames.drop_last()) + frame_bytes(frames.last())
    }
}

/// The decoder's state after a byte. A byte that cannot continue the frame
/// ends it: the marker starts the next one, anything else leaves the decoder
/// waiting for a marker.
pub open spec fn step_state(st: DecoderState, byte: u8) -> DecoderState {
    if byte == FRAME_MARKER {
        DecoderState::Marker
    } else {
        match st {
            DecoderState::Idle => DecoderState::Idle,
            DecoderState::Marker => if byte < COORDINATE_LIMIT {
                DecoderState::Row(byte)
            } else {
                DecoderState::Idle
            },
            DecoderState::Row(r) => if byte < COORDINATE_LIMIT {
                DecoderState::Col(r, byte)
            } else {
                DecoderState::Idle
            },
            DecoderState::Col(_, _) => DecoderState::Idle,
        }
    }
}

/// The frame that a byte completes, if it completes one.
pub open spec fn step_frame(st: DecoderState, byte: u8) -> Option<SplitFrame> {
    match st {
        DecoderState::Col(r, c) => if byte <= 1 {
            Some(SplitFrame { row: r, col: c, pressed: byte == 1 })
        } else {
            None
        },
        _ => None,
    }
}

/// The decoder's state after a sequence of bytes.
pub open spec fn run_state(st: DecoderState, bytes: Seq<u8>) -> DecoderState
    decreases bytes.len(),
{
    if bytes.len() == 0 {
        st
    } else {
        step_state(run_state(st, bytes.drop_last()), bytes.last())
    }
}

/// The frames that a sequence of bytes completes, in order.
pub open spec fn run_frames(st: DecoderState, bytes: Seq<u8>) -> Seq<SplitFrame>
    decreases bytes.len(),
{
    if bytes.len() == 0 {
        Seq::empty()
    } else {
        let before = run_frames(st, bytes.drop_last());
        match step_frame(run_state(st, bytes.drop_last()), bytes.last()) {
            Some(f) => before.push(f),
            None => before,
        }
    }
}

/// Decoding two pieces one after the other is decoding them joined.
pub proof fn lemma_run_concat(st: DecoderState, a: Seq<u8>, b: Seq<u8>)
    ensures
        run_state(st, a + b) == run_state(run_state(st, a), b),
        run_frames(st, a + b) == run_frames(st, a) + run_frames(run_state(st, a), b),
    decreases b.len(),
{
    if b.len() == 0 {
        assert(a + b =~= a);
        assert(run_frames(st, a) + Seq::<SplitFrame>::empty() =~= run_frames(st, a));
    } else {
        lemma_run_concat(st, a, b.drop_last());
        assert((a + b).drop_last() =~= a + b.drop_last());
        assert((a + b).last() == b.last());
        let mid = run_state(st, a);
        match step_frame(run_state(mid, b.drop_last()), b.last()) {
            Some(f) => {
                assert((run_frames(st, a) + run_frames(mid, b.drop_last())).push(f)
                    =~= run_frames(st, a) + run_frames(mid, b.drop_last()).push(f));
            },
            None => {},
        }
    }
}

/// A well-formed frame is received whatever came before it: from any state
/// of the decoder its four bytes yield that frame and no other, and leave the
/// decoder between frames.
pub proof fn lemma_frame_is_received(st: DecoderState, f: SplitFrame)
    requires
        f.wf(),
    ensures
        run_frames(st, frame_bytes(f)) == seq![f],
        run_state(st, frame_bytes(f)) == DecoderState::Idle,
{
    let b = frame_bytes(f);
    let b3 = b.drop_last();
    let b2 = b3.drop_last();
    let b1 = b2.drop_last();
    let b0 = b1.drop_last();
    assert(b0.len() == 0);
    assert(b1.last() == FRAME_MARKER);
    assert(b2.last() == f.row);
    assert(b3.last() == f.col);
    assert(run_state(st, b0) == st);
    assert(run_frames(st, b0) =~= Seq::<SplitFrame>::empty());
    assert(b1.drop_last() == b0);
    assert(run_state(st, b1) == DecoderState::Marker);
    assert(run_state(st, b2) == DecoderState::Row(f.row));
    assert(run_state(st, b3) == DecoderState::Col(f.row, f.col));
    assert(run_frames(st, b1) =~= Seq::<SplitFrame>::empty());
    assert(run_frames(st, b2) =~= Seq::<SplitFrame>::empty());
    assert(run_frames(st, b3) =~= Seq::<SplitFrame>::empty());
    assert(run_frames(st, b) =~= seq![f]);
}

/// Well-formed frames arrive as they were sent, in order and none twice,
/// whatever state the decoder was in.
pub proof fn lemma_frames_are_received(st: DecoderState, frames: Seq<SplitFrame>)
    requires
        forall|i: int| 0 <= i < frames.len() ==> (#[trigger] frames[i]).wf(),
    ensures
        run_frames(st, frames_bytes(frames)) == frames,
        frames.len() > 0 ==> run_state(st, frames_bytes(frames)) == DecoderState::Idle,
    decreases frames.len(),
{
    if frames.len() > 0 {
        let rest = frames.drop_last();
        assert forall|i: int| 0 <= i < rest.len() implies (#[trigger] rest[i]).wf() by {
            assert(rest[i] == frames[i]);
        }
        lemma_frames_are_received(st, rest);
        lemma_run_concat(st, frames_bytes(rest), frame_bytes(frames.last()));
        lemma_frame_is_received(run_state(st, frames_bytes(rest)), frames.last());
        assert(rest + seq![frames.last()] =~= frames);
    }
}

/// A frame cut short or with a byte that is not allowed yields nothing and
/// does not harm the frame that follows: after any bytes at all, a
/// well-formed frame is the one more frame that is received.
pub proof fn lemma_frame_after_garbage(st: DecoderState, garbage: Seq<u8>, f: SplitFrame)
    requires
        f.wf(),
    ensures
        run_frames(st, garbage + frame_bytes(f)) == run_frames(st, garbage).push(f),
{
    lemma_run_concat(st, garbage, frame_bytes(f));
    lemma_frame_is_received(run_state(st, garbage), f);
    assert(run_frames(st, garbage) + seq![f] =~= run_frames(st, garbage).push(f));
}

/// The bytes of a frame on the wire, if the frame can be sent.
pub fn encode_frame(f: SplitFrame) -> (res: Option<[u8; 4]>)
    ensures
        res is Some <==> f.wf(),
        res is Some ==> res.unwrap()@ == frame_bytes(f),
{
    if f.row < COORDINATE_LIMIT && f.col < COORDINATE_LIMIT {
        let p: u8 = if f.pressed { 1 } else { 0 };
        let out: [u8; 4] = [FRAME_MARKER, f.row, f.col, p];
        assert(out@ =~= frame_bytes(f));
        Some(out)
    } else {
        None
    }
}

/// The bytes of the frames on the wire, one frame after the other, if every
/// frame can be sent.
pub fn encode_frames(frames: &Vec<SplitFrame>) -> (res: Option<Vec<u8>>)
    ensures
        res is Some <==> forall|i: int| 0 <= i < frames@.len() ==> (#[trigger] frames@[i]).wf(),
        res is Some ==> res.unwrap()@ == frames_bytes(frames@),
{
    let mut out: Vec<u8> = Vec::new();
    let mut i: usize = 0;
    assert(frames@.take(0) =~= Seq::<SplitFrame>::empty());
    while i < frames.len()
        invariant
            0 <= i <= frames@.len(),
            forall|j: int| 0 <= j < i ==> (#[trigger] frames@[j]).wf(),
            out@ == frames_bytes(frames@.take(i as int)),
        decreases frames@.len() - i,
    {
        proof {
            let next = frames@.take(i + 1);
            assert(next.last() == frames@[i as int]);
            assert(next.drop_last() =~= frames@.take(i as int));
        }
        match encode_frame(frames[i]) {
            None => {
                return None;
            },
            Some(b) => {
                let ghost before = out@;
                out.push(b[0]);
                out.push(b[1]);
                out.push(b[2]);
                out.push(b[3]);
                assert(out@ =~= before + b@);
            },
        }
        i = i + 1;
    }
    assert(frames@.take(i as int) =~= frames@);
    Some(out)
}

/// The decoder of the central half.
#[derive(Debug)]
pub struct FrameDecoder {
    state: DecoderState,
}

impl FrameDecoder {
    /// What the decoder has seen of the frame that it is in.
    pub closed spec fn view(&self) -> DecoderState {
        self.state
    }

    /// A decoder that waits for a marker.
    pub fn new() -> (res: FrameDecoder)
        ensures
            res@ == DecoderState::Idle,
    {
        FrameDecoder { state: DecoderState::Idle }
    }

    /// What the decoder has seen of the frame that it is in.
    pub fn state(&self) -> (res: DecoderState)
        ensures
            res == self@,
    {
        self.state
    }

    /// Takes one received byte and returns the frame that it completes, if
    /// it completes one.
    pub fn feed(&mut self, byte: u8) -> (res: Option<SplitFrame>)
        ensures
            final(self)@ == step_state(old(self)@, byte),
            res == step_frame(old(self)@, byte),
    {
        let st = self.state;
        let out = match st {
            DecoderState::Col(r, c) => if byte <= 1 {
                Some(SplitFrame { row: r, col: c, pressed: byte == 1 })
            } else {
                None
            },
            _ => None,
        };
        self.state = if byte == FRAME_MARKER {
            DecoderState::Marker
        } else {
            match st {
                DecoderState::Idle => DecoderState::Idle,
                DecoderState::Marker => if byte < COORDINATE_LIMIT {
                    DecoderState::Row(byte)
                } else {
                    DecoderState::Idle
                },
                DecoderState::Row(r) => if byte < COORDINATE_LIMIT {
                    DecoderState::Col(r, byte)
                } else {
                    DecoderState::Idle
                },
                DecoderState::Col(_, _) => DecoderState::Idle,
            }
        };
        out
    }

    /// Takes the received bytes in order and returns the frames that they
    /// complete.
    pub fn feed_all(&mut self, bytes: &Vec<u8>) -> (res: Vec<SplitFrame>)
        ensures
            final(self)@ == run_state(old(self)@, bytes@),
            res@ == run_frames(old(self)@, bytes@),
    {
        let mut out: Vec<SplitFrame> = Vec::new();
        let mut i: usize = 0;
        assert(bytes@.take(0) =~= Seq::<u8>::empty());
        while i < bytes.len()
            invariant
                0 <= i <= bytes@.len(),
                self@ == run_state(old(self)@, bytes@.take(i as int)),
                out@ == run_frames(old(self)@, bytes@.take(i as int)),
            decreases bytes@.len() - i,
        {
            proof {
                let next = bytes@.take(i + 1);
                assert(next.last() == bytes@[i as int]);
                assert(next.drop_last() =~= bytes@.take(i as int));
            }
            match self.feed(bytes[i]) {
                Some(f) => {
                    out.push(f);
                },
                None => {},
            }
            i = i + 1;
        }
        assert(bytes@.take(i as int) =~= bytes@);
        out
    }
}

} // verus!

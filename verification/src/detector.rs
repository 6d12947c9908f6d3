//! The change detector: is an encoded frame blank, is it the frame that was
//! sent last, and for how long has nothing changed.

use crate::encoder::{
    bytes_of, encoded_frame, flip_and_swap, lemma_flip_and_swap_twice, lemma_source_index,
    sentinel, source_index,
};
use crate::layout::{frame_fits, lemma_header_round_trip, pixel_bytes, FrameHeader, BMP_HEADER_SIZE};
use vstd::prelude::*;

verus! {

/// Number of unchanged frames in a row at which streaming pauses itself.
pub const MAX_UNCHANGED_FRAMES: u32 = 10;

/// What follows the header of a frame.
pub open spec fn pixel_region(frame: Seq<u8>) -> Seq<u8> {
    frame.subrange(BMP_HEADER_SIZE as int, frame.len() as int)
}

/// Byte `k` equals the byte of the same channel in the first pixel.
pub open spec fn as_in_first_pixel(pixels: Seq<u8>, k: int) -> bool {
    pixels[k] == pixels[k % 4]
}

/// These bytes are whole pixels, and every pixel equals the first.
pub open spec fn single_color(pixels: Seq<u8>) -> bool {
    pixels.len() % 4 == 0 && forall|k: int|
        0 <= k < pixels.len() ==> #[trigger] as_in_first_pixel(pixels, k)
}

/// A frame is blank where every pixel of its pixel region equals the first
/// pixel of that region. What is shorter than a header is no frame and not
/// blank.
pub open spec fn is_blank(frame: Seq<u8>) -> bool {
    frame.len() >= BMP_HEADER_SIZE && single_color(pixel_region(frame))
}

/// The two judgements on a frame. They are independent: a blank frame may be
/// new, and a frame that is not blank may be unchanged.
#[derive(Clone, Copy, Debug, PartialEq, Eq, Structural)]
pub struct Classification {
    /// The pixel region is a single repeated colour.
    pub blank: bool,
    /// The frame is byte for byte the frame that was sent last.
    pub unchanged: bool,
}

/// How a frame is classified against the frame that was sent last.
pub open spec fn classification(frame: Seq<u8>, last_sent: Option<Seq<u8>>) -> Classification {
    Classification { blank: is_blank(frame), unchanged: last_sent == Some(frame) }
}

/// What is to be done with a frame.
#[derive(Clone, Copy, Debug, PartialEq, Eq, Structural)]
pub enum Verdict {
    /// The frame differs from the last one sent: send it.
    Forward,
    /// The frame is the last one sent again: send nothing.
    Skip,
    /// The frame is the last one sent again, and for the tenth time in a row:
    /// send nothing, and pause streaming.
    Pause,
}

/// What the detector found in a frame and what it decided.
#[derive(Clone, Copy, Debug, PartialEq, Eq, Structural)]
pub struct Observation {
    pub classification: Classification,
    pub verdict: Verdict,
}

/// What a detector remembers between frames.
pub struct DetectorState {
    /// The frame that was forwarded last, if any was.
    pub last_sent: Option<Seq<u8>>,
    /// How many frames in a row were the last one sent again.
    pub unchanged_frames: nat,
}

impl DetectorState {
    /// The state of a detector that has seen no frame.
    pub open spec fn initial() -> DetectorState {
        DetectorState { last_sent: None, unchanged_frames: 0 }
    }

    /// The counter stays below the threshold: it is reset when it gets there.
    pub open spec fn wf(self) -> bool {
        self.unchanged_frames < MAX_UNCHANGED_FRAMES
    }

    /// What is decided on `frame` in this state.
    pub open spec fn verdict(self, frame: Seq<u8>) -> Verdict {
        if self.last_sent != Some(frame) {
            Verdict::Forward
        } else if self.unchanged_frames + 1 >= MAX_UNCHANGED_FRAMES {
            Verdict::Pause
        } else {
            Verdict::Skip
        }
    }

    /// What is found in `frame` and decided on it in this state.
    pub open spec fn observation(self, frame: Seq<u8>) -> Observation {
        Observation {
            classification: classification(frame, self.last_sent),
            verdict: self.verdict(frame),
        }
    }

    /// The state after `frame` was observed: a forwarded frame becomes the
    /// last one sent and resets the counter, a skipped one is counted, and
    /// the pause resets the counter.
    pub open spec fn after(self, frame: Seq<u8>) -> DetectorState {
        match self.verdict(frame) {
            Verdict::Forward => DetectorState { last_sent: Some(frame), unchanged_frames: 0 },
            Verdict::Skip => DetectorState {
                last_sent: self.last_sent,
                unchanged_frames: self.unchanged_frames + 1,
            },
            Verdict::Pause => DetectorState { last_sent: self.last_sent, unchanged_frames: 0 },
        }
    }

    /// The state after `frame` was observed `times` times in a row.
    pub open spec fn after_repeats(self, frame: Seq<u8>, times: nat) -> DetectorState
        decreases times,
    {
        if times == 0 {
            self
        } else {
            self.after_repeats(frame, (times - 1) as nat).after(frame)
        }
    }
}

/// The detector of one session: the last frame that was forwarded, and the
/// run length of unchanged frames since.
#[derive(Debug)]
pub struct ChangeDetector {
    last_sent: Option<Vec<u8>>,
    unchanged_frames: u32,
}

impl View for ChangeDetector {
    type V = DetectorState;

    closed spec fn view(&self) -> DetectorState {
        DetectorState {
            last_sent: match self.last_sent {
                Some(frame) => Some(frame@),
                None => None,
            },
            unchanged_frames: self.unchanged_frames as nat,
        }
    }
}

impl ChangeDetector {
    /// A detector that has seen no frame.
    pub fn new() -> (detector: ChangeDetector)
        ensures
            detector@ == DetectorState::initial(),
            detector@.wf(),
    {
        ChangeDetector { last_sent: None, unchanged_frames: 0 }
    }

    /// The counter of unchanged frames in a row.
    pub fn unchanged_frames(&self) -> (count: u32)
        ensures
            count == self@.unchanged_frames,
    {
        self.unchanged_frames
    }

    /// The frame that was forwarded last, if any was.
    pub fn last_sent(&self) -> (last: Option<&[u8]>)
        ensures
            bytes_of(last) == self@.last_sent,
    {
        match &self.last_sent {
            Some(frame) => Some(frame.as_slice()),
            None => None,
        }
    }

    /// Classifies `frame` and updates the detector: a frame that differs from
    /// the last one sent is forwarded, taken as the last one sent, and resets
    /// the counter; a frame that equals it is counted and skipped, and at the
    /// threshold the counter is reset and the verdict is to pause.
    pub fn observe(&mut self, frame: &[u8]) -> (seen: Observation)
        ensures
            seen == old(self)@.observation(frame@),
            final(self)@ == old(self)@.after(frame@),
            final(self)@.wf(),
    {
        let found: Classification = classify(frame, self.last_sent());
        if !found.unchanged {
            self.last_sent = Some(copy_of(frame));
            self.unchanged_frames = 0;
            Observation { classification: found, verdict: Verdict::Forward }
        } else if self.unchanged_frames >= MAX_UNCHANGED_FRAMES - 1 {
            self.unchanged_frames = 0;
            Observation { classification: found, verdict: Verdict::Pause }
        } else {
            self.unchanged_frames = self.unchanged_frames + 1;
            Observation { classification: found, verdict: Verdict::Skip }
        }
    }
}

/// Is every pixel after the header of `frame` the same as the first?
pub fn is_blank_frame(frame: &[u8]) -> (blank: bool)
    ensures
        blank == is_blank(frame@),
{
    let len: usize = frame.len();
    if len < BMP_HEADER_SIZE {
        return false;
    }
    let ghost pixels = pixel_region(frame@);
    if (len - BMP_HEADER_SIZE) % 4 != 0 {
        return false;
    }
    let mut at: usize = BMP_HEADER_SIZE;
    while at < len
        invariant
            BMP_HEADER_SIZE <= at <= len,
            len == frame@.len(),
            pixels == pixel_region(frame@),
            forall|k: int|
                0 <= k < at - BMP_HEADER_SIZE ==> #[trigger] as_in_first_pixel(pixels, k),
        decreases len - at,
    {
        let first: usize = BMP_HEADER_SIZE + (at - BMP_HEADER_SIZE) % 4;
        proof {
            let k = at - BMP_HEADER_SIZE;
            assert(pixels[k] == frame@[at as int]);
            assert(pixels[k % 4] == frame@[first as int]);
        }
        if frame[at] != frame[first] {
            assert(!as_in_first_pixel(pixels, at - BMP_HEADER_SIZE));
            return false;
        }
        at = at + 1;
    }
    true
}

/// Do the two buffers hold the same bytes?
pub fn same_bytes(a: &[u8], b: &[u8]) -> (same: bool)
    ensures
        same == (a@ == b@),
{
    if a.len() != b.len() {
        return false;
    }
    let mut at: usize = 0;
    while at < a.len()
        invariant
            a@.len() == b@.len(),
            at <= a@.len(),
            forall|k: int| 0 <= k < at ==> a@[k] == b@[k],
        decreases a@.len() - at,
    {
        if a[at] != b[at] {
            return false;
        }
        at = at + 1;
    }
    assert(a@ =~= b@);
    true
}

/// Classifies `frame` against the frame that was sent last, if any was.
pub fn classify(frame: &[u8], last_sent: Option<&[u8]>) -> (found: Classification)
    ensures
        found == classification(frame@, bytes_of(last_sent)),
{
    let blank: bool = is_blank_frame(frame);
    let unchanged: bool = match last_sent {
        Some(last) => same_bytes(last, frame),
        None => false,
    };
    Classification { blank, unchanged }
}

fn copy_of(bytes: &[u8]) -> (copy: Vec<u8>)
    ensures
        copy@ == bytes@,
{
    let mut copy: Vec<u8> = Vec::with_capacity(bytes.len());
    let mut at: usize = 0;
    while at < bytes.len()
        invariant
            at <= bytes@.len(),
            copy@ == bytes@.subrange(0, at as int),
        decreases bytes@.len() - at,
    {
        copy.push(bytes[at]);
        at = at + 1;
        assert(copy@ =~= bytes@.subrange(0, at as int));
    }
    assert(copy@ =~= bytes@);
    copy
}

/// A frame that is observed twice in a row is not forwarded the second time,
/// and the second observation counts it exactly once: the counter goes up by
/// one, or, where that reaches the threshold, back to zero.
pub proof fn lemma_same_frame_twice(state: DetectorState, frame: Seq<u8>)
    requires
        state.wf(),
    ensures
        state.after(frame).wf(),
        state.after(frame).last_sent == Some(frame),
        state.after(frame).verdict(frame) != Verdict::Forward,
        state.after(frame).after(frame).last_sent == Some(frame),
        state.after(frame).after(frame).unchanged_frames == (if state.after(frame).unchanged_frames
            + 1 == MAX_UNCHANGED_FRAMES {
            0
        } else {
            state.after(frame).unchanged_frames + 1
        }),
        state.last_sent != Some(frame) ==> state.after(frame).unchanged_frames == 0 && state.after(
            frame,
        ).after(frame).unchanged_frames == 1,
{
}

/// After a frame was forwarded, the same frame again is skipped and counted
/// nine times, and the tenth time the verdict is to pause and the counter is
/// back at zero. The frame that was sent last stays what it was.
pub proof fn lemma_pause_at_threshold(state: DetectorState, frame: Seq<u8>, times: nat)
    requires
        state.last_sent == Some(frame),
        state.unchanged_frames == 0,
        times <= MAX_UNCHANGED_FRAMES,
    ensures
        state.after_repeats(frame, times).last_sent == Some(frame),
        state.after_repeats(frame, times).wf(),
        times < MAX_UNCHANGED_FRAMES ==> state.after_repeats(frame, times).unchanged_frames
            == times,
        times + 1 < MAX_UNCHANGED_FRAMES ==> state.after_repeats(frame, times).verdict(frame)
            == Verdict::Skip,
        times + 1 == MAX_UNCHANGED_FRAMES ==> state.after_repeats(frame, times).verdict(frame)
            == Verdict::Pause,
        times == MAX_UNCHANGED_FRAMES ==> state.after_repeats(frame, times).unchanged_frames == 0,
    decreases times,
{
    if times > 0 {
        lemma_pause_at_threshold(state, frame, (times - 1) as nat);
    }
}

/// The encoded frame is blank exactly where the raw frame is of a single
/// colour: every raw pixel equals the first one.
pub proof fn lemma_blank_iff_single_color(raw: Seq<u8>, width: u32, height: u32)
    requires
        raw.len() >= pixel_bytes(width, height),
    ensures
        is_blank(encoded_frame(raw, width, height)) <==> single_color(
            raw.subrange(0, pixel_bytes(width, height)),
        ),
{
    let n = pixel_bytes(width, height);
    assert(n >= 0) by (nonlinear_arith)
        requires
            n == width * height * 4,
    ;
    let pixels = flip_and_swap(raw, width, height);
    let front = raw.subrange(0, n);
    lemma_pixel_region_of_encoded_frame(raw, width, height);
    if single_color(front) {
        lemma_single_color_is_kept(front, width, height);
        assert(flip_and_swap(front, width, height) =~= pixels) by {
            assert forall|k: int| 0 <= k < n implies flip_and_swap(front, width, height)[k]
                == pixels[k] by {
                lemma_source_index(k, width as int, height as int);
            }
        }
    }
    if single_color(pixels) {
        lemma_single_color_is_kept(pixels, width, height);
        lemma_flip_and_swap_twice(raw, width, height);
    }
}

/// What follows the header of an encoded frame is the flipped and swapped
/// pixel data.
proof fn lemma_pixel_region_of_encoded_frame(raw: Seq<u8>, width: u32, height: u32)
    ensures
        encoded_frame(raw, width, height).len() >= BMP_HEADER_SIZE,
        pixel_region(encoded_frame(raw, width, height)) == flip_and_swap(raw, width, height),
{
    let header = FrameHeader::spec_for_dimensions(width, height);
    let pixels = flip_and_swap(raw, width, height);
    lemma_header_round_trip(header, pixels);
    assert(pixel_region(header.bytes() + pixels) =~= pixels);
}

/// Flipping the rows and exchanging the channels of pixels that are all the
/// same gives pixels that are all the same.
proof fn lemma_single_color_is_kept(raw: Seq<u8>, width: u32, height: u32)
    requires
        raw.len() == pixel_bytes(width, height),
        single_color(raw),
    ensures
        single_color(flip_and_swap(raw, width, height)),
{
    let w = width as int;
    let h = height as int;
    let n = pixel_bytes(width, height);
    let pixels = flip_and_swap(raw, width, height);
    assert forall|k: int| 0 <= k < n implies #[trigger] as_in_first_pixel(pixels, k) by {
        lemma_source_index(k, w, h);
        lemma_source_index(k % 4, w, h);
        let from = source_index(k, w, h);
        let first = source_index(k % 4, w, h);
        assert(from % 4 == first % 4);
        assert(as_in_first_pixel(raw, from));
        assert(as_in_first_pixel(raw, first));
    }
}

/// The frame that stands for a frame source that has not rendered yet is
/// blank.
pub proof fn lemma_sentinel_is_blank(width: u32, height: u32)
    requires
        frame_fits(width, height),
    ensures
        is_blank(encoded_frame(sentinel(width, height), width, height)),
{
    let n = pixel_bytes(width, height);
    assert(n >= 0 && n % 4 == 0) by (nonlinear_arith)
        requires
            n == width * height * 4,
    ;
    lemma_blank_iff_single_color(sentinel(width, height), width, height);
    assert(sentinel(width, height).subrange(0, n) =~= sentinel(width, height));
}

} // verus!

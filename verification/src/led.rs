//! The colours of an APA102 LED strip and their SPI wire format.

use crate::cell::{borrow_cell, cell_contents, cell_filled, empty_cell, fill_cell};
use lazycell::LazyCell;
use vstd::prelude::*;

verus! {

/// The colour of one LED: red, green and blue.
#[derive(Clone, Copy, Debug, PartialEq, Eq, Structural)]
pub struct APA102DataFrame(pub u8, pub u8, pub u8);

/// The four zero bytes that open a transmission.
pub open spec fn start_frame_bytes() -> Seq<u8> {
    seq![0x00u8, 0x00u8, 0x00u8, 0x00u8]
}

/// The four `0xff` bytes of one end frame.
pub open spec fn end_frame_bytes() -> Seq<u8> {
    seq![0xffu8, 0xffu8, 0xffu8, 0xffu8]
}

impl APA102DataFrame {
    /// The colour packed in the low 24 bits of `data` as `0xRRGGBB`; the top
    /// byte is ignored.
    pub open spec fn from_packed(data: u32) -> APA102DataFrame {
        APA102DataFrame(
            ((data / 0x1_0000) % 0x100) as u8,
            ((data / 0x100) % 0x100) as u8,
            (data % 0x100) as u8,
        )
    }

    /// The four bytes of this LED on the wire: full brightness, then blue,
    /// green, red.
    pub open spec fn wire_bytes(self) -> Seq<u8> {
        seq![0xffu8, self.2, self.1, self.0]
    }

    #[inline]
    pub fn start_frame_spi_data() -> (bytes: [u8; 4])
        ensures
            bytes@ == start_frame_bytes(),
    {
        [0x00; 4]
    }

    #[inline]
    pub fn end_frame_spi_data() -> (bytes: [u8; 4])
        ensures
            bytes@ == end_frame_bytes(),
    {
        [0xff; 4]
    }

    pub fn led_frame(data: u32) -> (frame: Self)
        ensures
            frame == Self::from_packed(data),
    {
        let r = ((data >> 16) & 0xff) as u8;
        let g = ((data >> 8) & 0xff) as u8;
        let b = (data & 0xff) as u8;
        assert((data >> 16) & 0xff == (data / 0x1_0000) % 0x100) by (bit_vector);
        assert((data >> 8) & 0xff == (data / 0x100) % 0x100) by (bit_vector);
        assert(data & 0xff == data % 0x100) by (bit_vector);
        APA102DataFrame(r, g, b)
    }

    pub fn get_spi_data(&self) -> (bytes: [u8; 4])
        ensures
            bytes@ == self.wire_bytes(),
    {
        [0xff, self.2, self.1, self.0]
    }
}

/// The bytes of `frames` on the wire, LED after LED in strip order.
pub open spec fn led_frames_bytes(frames: Seq<APA102DataFrame>) -> Seq<u8>
    decreases frames.len(),
{
    if frames.len() == 0 {
        Seq::empty()
    } else {
        led_frames_bytes(frames.drop_last()) + frames.last().wire_bytes()
    }
}

/// `count` end frames in a row.
pub open spec fn end_frames_bytes(count: nat) -> Seq<u8>
    decreases count,
{
    if count == 0 {
        Seq::empty()
    } else {
        end_frames_bytes((count - 1) as nat) + end_frame_bytes()
    }
}

/// The number of end frames that clock the data through a strip of `leds`
/// LEDs: half of `leds`, rounded up.
pub open spec fn end_frame_count(leds: nat) -> nat {
    (leds + 1) / 2
}

/// The transmission for a strip with the colours `frames`: the start frame,
/// one frame per LED, then the end frames.
pub open spec fn spi_encoding(frames: Seq<APA102DataFrame>) -> Seq<u8> {
    start_frame_bytes() + led_frames_bytes(frames) + end_frames_bytes(
        end_frame_count(frames.len()),
    )
}

/// The length of the transmission for `leds` LEDs.
pub open spec fn spi_encoding_len(leds: nat) -> nat {
    4 + 4 * leds + 4 * end_frame_count(leds)
}

proof fn lemma_led_frames_len(frames: Seq<APA102DataFrame>)
    ensures
        led_frames_bytes(frames).len() == 4 * frames.len(),
    decreases frames.len(),
{
    if frames.len() > 0 {
        lemma_led_frames_len(frames.drop_last());
    }
}

proof fn lemma_led_frames_byte(frames: Seq<APA102DataFrame>, k: int, j: int)
    requires
        0 <= k < frames.len(),
        0 <= j < 4,
    ensures
        led_frames_bytes(frames)[4 * k + j] == frames[k].wire_bytes()[j],
    decreases frames.len(),
{
    lemma_led_frames_len(frames.drop_last());
    if k < frames.len() - 1 {
        lemma_led_frames_byte(frames.drop_last(), k, j);
    }
}

proof fn lemma_end_frames_bytes(count: nat)
    ensures
        end_frames_bytes(count).len() == 4 * count,
        forall|i: int| 0 <= i < 4 * count ==> #[trigger] end_frames_bytes(count)[i] == 0xffu8,
    decreases count,
{
    if count > 0 {
        lemma_end_frames_bytes((count - 1) as nat);
    }
}

/// The transmission byte by byte: four zero bytes, then for LED `k` the
/// bytes `0xff`, blue, green, red from `4 + 4 * k` on, then only `0xff`.
pub proof fn lemma_spi_encoding_layout(frames: Seq<APA102DataFrame>)
    ensures
        spi_encoding(frames).len() == spi_encoding_len(frames.len()),
        forall|i: int| 0 <= i < 4 ==> #[trigger] spi_encoding(frames)[i] == 0x00u8,
        forall|k: int, j: int|
            0 <= k < frames.len() && 0 <= j < 4 ==> spi_encoding(frames)[4 + 4 * k + j]
                == #[trigger] frames[k].wire_bytes()[j],
        forall|i: int|
            4 + 4 * frames.len() <= i < spi_encoding_len(frames.len())
                ==> #[trigger] spi_encoding(frames)[i] == 0xffu8,
{
    lemma_led_frames_len(frames);
    lemma_end_frames_bytes(end_frame_count(frames.len()));
    assert forall|k: int, j: int| 0 <= k < frames.len() && 0 <= j < 4 implies spi_encoding(
        frames,
    )[4 + 4 * k + j] == #[trigger] frames[k].wire_bytes()[j] by {
        lemma_led_frames_byte(frames, k, j);
    }
}

/// Encodes the colours of a strip as the bytes to clock out over SPI.
pub fn encode_frames(frames: &[APA102DataFrame]) -> (bytes: Vec<u8>)
    ensures
        bytes@ == spi_encoding(frames@),
{
    let leds = frames.len();
    let num_end_frames = leds / 2 + leds % 2;
    let mut spi_data: Vec<u8> = Vec::new();
    let start = APA102DataFrame::start_frame_spi_data();
    spi_data.extend_from_slice(start.as_slice());

    for i in 0..leds
        invariant
            leds == frames.len(),
            spi_data@ == start_frame_bytes() + led_frames_bytes(frames@.take(i as int)),
    {
        let frame = frames[i].get_spi_data();
        spi_data.extend_from_slice(frame.as_slice());
        assert(frames@.take(i + 1).drop_last() =~= frames@.take(i as int));
    }
    assert(frames@.take(leds as int) =~= frames@);

    for i in 0..num_end_frames
        invariant
            spi_data@ == start_frame_bytes() + led_frames_bytes(frames@) + end_frames_bytes(
                i as nat,
            ),
    {
        let end = APA102DataFrame::end_frame_spi_data();
        spi_data.extend_from_slice(end.as_slice());
        assert(spi_data@ =~= start_frame_bytes() + led_frames_bytes(frames@) + end_frames_bytes(
            (i + 1) as nat,
        ));
    }
    spi_data
}

/// Why a strip refused a request.
#[derive(Clone, Copy, Debug, PartialEq, Eq, Structural)]
pub enum LedError {
    /// The index names no LED of the strip.
    OutOfBounds,
}

/// A strip of `N` LEDs: the colour of each, and the bytes that were last
/// serialized for them.
pub struct LEDStrip<const N: usize> {
    data: [APA102DataFrame; N],
    spi_data: LazyCell<Vec<u8>>,
}

impl<const N: usize> View for LEDStrip<N> {
    type V = Seq<APA102DataFrame>;

    closed spec fn view(&self) -> Seq<APA102DataFrame> {
        self.data@
    }
}

impl<const N: usize> LEDStrip<N> {
    /// There is at least one LED, and bytes that are kept are those of the
    /// colours as they are now.
    #[verifier::type_invariant]
    spec fn cache_is_current(&self) -> bool {
        &&& N > 0
        &&& cell_contents(self.spi_data) matches Some(bytes) ==> bytes == spi_encoding(self.data@)
    }

    /// The bytes that the strip keeps from its last serialization, `None`
    /// when it keeps none.
    pub closed spec fn cached_bytes(&self) -> Option<Seq<u8>> {
        cell_contents(self.spi_data)
    }

    /// A strip has as many colours as LEDs.
    pub proof fn lemma_view_len(self)
        ensures
            self@.len() == N,
    {
    }

    /// A strip with every LED black.
    pub fn new() -> (strip: Self)
        requires
            N > 0,
        ensures
            strip@ == Seq::new(N as nat, |i: int| APA102DataFrame(0, 0, 0)),
            strip.cached_bytes() is None,
    {
        let strip = LEDStrip::new_with_data([0; N]);
        strip
    }

    /// A strip whose LED `i` has the colour packed in `data[i]` as `0xRRGGBB`.
    pub fn new_with_data(data: [u32; N]) -> (strip: Self)
        requires
            N > 0,
        ensures
            strip@ == Seq::new(N as nat, |i: int| APA102DataFrame::from_packed(data@[i])),
            strip.cached_bytes() is None,
    {
        let mut frames = [APA102DataFrame(0, 0, 0); N];
        for i in 0..N
            invariant
                forall|j: int| 0 <= j < i ==> frames@[j] == APA102DataFrame::from_packed(data@[j]),
        {
            frames[i] = APA102DataFrame::led_frame(data[i]);
        }
        LEDStrip { data: frames, spi_data: empty_cell() }
    }

    /// The colours of the strip, LED by LED.
    pub fn data(&self) -> (frames: &[APA102DataFrame; N])
        ensures
            frames@ == self@,
    {
        &self.data
    }

    /// The bytes to clock out for the colours as they are now. They are
    /// computed on the first call after a change and kept for the next; a
    /// strip that keeps its bytes is left untouched.
    pub fn get_spi_data(&mut self) -> (bytes: &Vec<u8>)
        ensures
            serialized(*old(self), *final(self), bytes@),
            old(self).cached_bytes() is Some ==> *final(self) == *old(self),
    {
        proof {
            use_type_invariant(&*self);
        }
        if !cell_filled(&self.spi_data) {
            let spi_data = encode_frames(self.data.as_slice());
            let _ = fill_cell(&mut self.spi_data, spi_data);
        }
        match borrow_cell(&self.spi_data) {
            Some(bytes) => bytes,
            None => vstd::pervasive::unreached(),
        }
    }

    /// The colour of LED `index` as red, green, blue.
    pub fn get_led(&self, index: usize) -> (color: Result<(u8, u8, u8), LedError>)
        ensures
            index < N ==> color == Ok::<(u8, u8, u8), LedError>(
                (self@[index as int].0, self@[index as int].1, self@[index as int].2),
            ),
            index >= N ==> color == Err::<(u8, u8, u8), LedError>(LedError::OutOfBounds),
    {
        if index >= N {
            return Err(LedError::OutOfBounds);
        }
        let APA102DataFrame(r, g, b) = self.data[index];
        Ok((r, g, b))
    }

    /// Gives LED `index` the colour packed in `color` as `0xRRGGBB`, and
    /// drops the bytes that the strip kept for its former colours.
    pub fn set_led(&mut self, index: usize, color: u32) -> (outcome: Result<(), LedError>)
        ensures
            index < N ==> outcome is Ok && final(self)@ == old(self)@.update(
                index as int,
                APA102DataFrame::from_packed(color),
            ) && final(self).cached_bytes() is None,
            index >= N ==> outcome == Err::<(), LedError>(LedError::OutOfBounds) && *final(self)
                == *old(self),
    {
        if index >= N {
            return Err(LedError::OutOfBounds);
        }
        proof {
            use_type_invariant(&*self);
        }
        if cell_filled(&self.spi_data) {
            self.spi_data = empty_cell();
        }
        self.data[index] = APA102DataFrame::led_frame(color);
        Ok(())
    }
}

/// What one serialization does: the colours stay, the bytes are their
/// encoding, and the strip keeps the bytes.
pub open spec fn serialized<const N: usize>(
    before: LEDStrip<N>,
    after: LEDStrip<N>,
    bytes: Seq<u8>,
) -> bool {
    &&& after@ == before@
    &&& bytes == spi_encoding(before@)
    &&& after.cached_bytes() == Some(bytes)
}

/// Serializing again, with no change in between, gives the same bytes.
pub proof fn lemma_serializing_twice_gives_same_bytes<const N: usize>(
    start: LEDStrip<N>,
    between: LEDStrip<N>,
    end: LEDStrip<N>,
    first: Seq<u8>,
    second: Seq<u8>,
)
    requires
        serialized(start, between, first),
        serialized(between, end, second),
    ensures
        first == second,
{
}

/// Giving LED `index` a new colour changes the four bytes of that LED in
/// the transmission, and no other byte.
pub proof fn lemma_new_color_changes_four_bytes(
    frames: Seq<APA102DataFrame>,
    index: int,
    frame: APA102DataFrame,
)
    requires
        0 <= index < frames.len(),
    ensures
        spi_encoding(frames.update(index, frame)).len() == spi_encoding(frames).len(),
        forall|i: int|
            0 <= i < spi_encoding(frames).len() && !(4 + 4 * index <= i < 8 + 4 * index)
                ==> spi_encoding(frames.update(index, frame))[i] == spi_encoding(frames)[i],
        forall|j: int|
            0 <= j < 4 ==> spi_encoding(frames.update(index, frame))[4 + 4 * index + j]
                == #[trigger] frame.wire_bytes()[j],
{
    let changed = frames.update(index, frame);
    lemma_spi_encoding_layout(frames);
    lemma_spi_encoding_layout(changed);
    assert forall|i: int|
        0 <= i < spi_encoding(frames).len() && !(4 + 4 * index <= i < 8 + 4 * index) implies spi_encoding(
        changed,
    )[i] == spi_encoding(frames)[i] by {
        if 4 <= i < 4 + 4 * frames.len() {
            let k = (i - 4) / 4;
            let j = (i - 4) % 4;
            assert(spi_encoding(changed)[4 + 4 * k + j] == changed[k].wire_bytes()[j]);
        }
    }
    assert forall|j: int| 0 <= j < 4 implies spi_encoding(changed)[4 + 4 * index + j]
        == #[trigger] frame.wire_bytes()[j] by {
        assert(spi_encoding(changed)[4 + 4 * index + j] == changed[index].wire_bytes()[j]);
    }
}

} // verus!

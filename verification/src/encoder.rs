use vstd::prelude::*;

use crate::palette::Palette;
use crate::raster::FrameBuffer;

verus! {

/// A failure of the animation encoder.
#[derive(Clone, Copy, PartialEq, Eq, Structural, Debug)]
pub enum EncodeError {
    /// An operation arrived after the container was finalized, or after a
    /// stream fault closed it.
    Finalized,
    /// The frame's dimensions differ from the declared ones, or the frame
    /// is not a one-byte-per-pixel indexed buffer.
    DimensionMismatch,
    /// An indexed byte does not fall within the palette.
    IndexOutOfRange,
    /// The delay does not fit the container's 10 ms tick counter.
    DelayTooLong,
    /// The frame counter would overflow.
    TooManyFrames,
    /// The underlying stream writer failed.
    Stream,
}

/// An encoder of the gif crate writing to an in-memory stream, opaque to
/// the verifier; every use goes through the trusted wrappers below.
#[verifier::external_body]
pub struct GifStream {
    inner: gif::Encoder<Vec<u8>>,
}

/// The frames written so far into the stream, each as its pixel bytes and
/// its delay in 10 ms ticks.
pub uninterp spec fn encoded_frames(e: GifStream) -> Seq<(Seq<u8>, u16)>;

/// Relies on gif::Encoder::new: writes the screen descriptor and the given
/// global color table (flat RGB bytes) to the fresh in-memory stream; no
/// frame is written yet.
#[verifier::external_body]
fn gif_encoder_new(width: u16, height: u16, palette_bytes: &Vec<u8>) -> (r: Result<
    GifStream,
    EncodeError,
>)
    ensures
        r.is_ok() ==> encoded_frames(r.unwrap()) == Seq::<(Seq<u8>, u16)>::empty(),
{
    match gif::Encoder::new(Vec::new(), width, height, palette_bytes.as_slice()) {
        Ok(e) => Ok(GifStream { inner: e }),
        Err(_) => Err(EncodeError::Stream),
    }
}

/// Relies on gif::Encoder::set_repeat: writes only a repetition extension
/// block, here the infinite loop policy; the frames written stay as they
/// are.
#[verifier::external_body]
fn gif_set_repeat_infinite(e: &mut GifStream) -> (r: Result<(), EncodeError>)
    ensures
        r.is_ok() ==> encoded_frames(*final(e)) == encoded_frames(*old(e)),
{
    match e.inner.set_repeat(gif::Repeat::Infinite) {
        Ok(()) => Ok(()),
        Err(_) => Err(EncodeError::Stream),
    }
}

/// Relies on gif::Encoder::write_frame: appends exactly one frame record
/// with the given dimensions, indexed pixel bytes and delay in 10 ms
/// ticks; a buffer of exactly `width * height` bytes is never rejected as
/// too small.
#[verifier::external_body]
fn gif_write_frame(
    e: &mut GifStream,
    width: u16,
    height: u16,
    pixels: &Vec<u8>,
    delay_ticks: u16,
) -> (r: Result<(), EncodeError>)
    requires
        pixels@.len() == width * height,
    ensures
        r.is_ok() ==> encoded_frames(*final(e)) == encoded_frames(*old(e)).push(
            (pixels@, delay_ticks),
        ),
{
    let frame = gif::Frame {
        delay: delay_ticks, dispose: gif::DisposalMethod::Keep, transparent: None,
        needs_user_input: false, top: 0, left: 0, width, height, interlaced: false,
        palette: None, buffer: std::borrow::Cow::Owned(pixels.clone()),
    };
    match e.inner.write_frame(&frame) {
        Ok(()) => Ok(()),
        Err(_) => Err(EncodeError::Stream),
    }
}

/// Relies on gif::Encoder::into_inner: writes the trailer byte and hands
/// back the in-memory stream holding everything written so far.
#[verifier::external_body]
fn gif_into_bytes(e: GifStream) -> (r: Result<Vec<u8>, EncodeError>)
{
    match e.inner.into_inner() {
        Ok(v) => Ok(v),
        Err(_) => Err(EncodeError::Stream),
    }
}

/// Whether every byte of the buffer stays below `bound`.
fn all_indices_below(data: &Vec<u8>, bound: usize) -> (r: bool)
    ensures
        r <==> (forall|i: int| 0 <= i < data@.len() ==> (data@[i] as int) < bound),
{
    let n = data.len();
    let mut i: usize = 0;
    while i < n
        invariant
            i <= n,
            n == data@.len(),
            forall|j: int| 0 <= j < i ==> (data@[j] as int) < bound,
        decreases n - i,
    {
        if data[i] as usize >= bound {
            return false;
        }
        i = i + 1;
    }
    true
}

/// An animated-image container being written: opened once with its
/// dimensions, palette and infinite loop policy, fed frames strictly in
/// order, finalized exactly once. Any operation after finalization is an
/// error, and a stream fault invalidates the whole container.
pub struct AnimationEncoder {
    inner: Option<GifStream>,
    width: u16,
    height: u16,
    palette_len: usize,
    frames_written: u32,
    accepting: bool,
    history: Ghost<Seq<(Seq<u8>, u16)>>,
}

impl AnimationEncoder {
    /// Still accepting frames: opened and neither finalized nor faulted.
    pub closed spec fn is_open(self) -> bool {
        self.accepting
    }

    /// The frames appended so far, in append order, with their delays in
    /// 10 ms ticks.
    pub closed spec fn frames(self) -> Seq<(Seq<u8>, u16)> {
        self.history@
    }

    pub closed spec fn spec_width(self) -> u16 {
        self.width
    }

    pub closed spec fn spec_height(self) -> u16 {
        self.height
    }

    pub closed spec fn spec_palette_len(self) -> usize {
        self.palette_len
    }

    pub closed spec fn spec_count(self) -> u32 {
        self.frames_written
    }

    /// Number of frames appended so far.
    pub fn frame_count(&self) -> (r: u32)
        ensures
            r == self.spec_count(),
    {
        self.frames_written
    }

    pub closed spec fn wf(self) -> bool {
        &&& self.frames().len() == self.frames_written
        &&& 1 <= self.palette_len <= 256
        &&& self.width >= 1
        &&& self.height >= 1
        &&& (self.accepting ==> (self.inner matches Some(e) && encoded_frames(e)
            == self.history@))
    }

    /// Opens a container: writes the header metadata (dimensions, global
    /// palette, infinite loop policy) once. Zero dimensions are rejected
    /// before anything is written.
    pub fn open(width: u16, height: u16, palette: &Palette) -> (r: Result<
        AnimationEncoder,
        EncodeError,
    >)
        requires
            palette.wf(),
        ensures
            r.is_ok() ==> ({
                let e = r.unwrap();
                &&& e.wf()
                &&& e.is_open()
                &&& e.frames() == Seq::<(Seq<u8>, u16)>::empty()
                &&& e.spec_width() == width
                &&& e.spec_height() == height
                &&& e.spec_palette_len() == palette.colors@.len()
                &&& e.spec_count() == 0
            }),
            r == Result::<AnimationEncoder, EncodeError>::Err(EncodeError::DimensionMismatch)
                <==> (width == 0 || height == 0),
            r.is_err() && width >= 1 && height >= 1 ==> r == Result::<
                AnimationEncoder,
                EncodeError,
            >::Err(EncodeError::Stream),
    {
        if width == 0 || height == 0 {
            return Err(EncodeError::DimensionMismatch);
        }
        let bytes = palette.to_bytes();
        let mut enc = match gif_encoder_new(width, height, &bytes) {
            Ok(e) => e,
            Err(_) => {
                return Err(EncodeError::Stream);
            },
        };
        match gif_set_repeat_infinite(&mut enc) {
            Ok(()) => {},
            Err(_) => {
                return Err(EncodeError::Stream);
            },
        }
        Ok(
            AnimationEncoder {
                inner: Some(enc),
                width,
                height,
                palette_len: palette.len(),
                frames_written: 0,
                accepting: true,
                history: Ghost(Seq::empty()),
            },
        )
    }

    /// Appends one frame with its delay in milliseconds, truncated to the
    /// container's 10 ms ticks (lossy below that resolution). The frame
    /// must be an indexed buffer of the declared dimensions with every
    /// byte below the palette length; violations are rejected without
    /// touching the stream.
    pub fn append_frame(&mut self, frame: &FrameBuffer, delay_ms: u32) -> (r: Result<
        (),
        EncodeError,
    >)
        requires
            old(self).wf(),
            frame.wf(),
        ensures
            final(self).wf(),
            final(self).spec_width() == old(self).spec_width() && final(self).spec_height() == old(self).spec_height()
                && final(self).spec_palette_len() == old(self).spec_palette_len(),
            r == Result::<(), EncodeError>::Err(EncodeError::Finalized) <==> !old(self).is_open(),
            old(self).is_open() ==> (r == Result::<(), EncodeError>::Err(
                EncodeError::DimensionMismatch,
            ) <==> !(frame.width == old(self).spec_width() && frame.height == old(self).spec_height()
                && frame.channels == 1)),
            old(self).is_open() && frame.width == old(self).spec_width() && frame.height == old(
                self,
            ).spec_height() && frame.channels == 1 ==> (r == Result::<(), EncodeError>::Err(
                EncodeError::IndexOutOfRange,
            ) <==> exists|i: int|
                0 <= i < frame.data@.len() && (#[trigger] frame.data@[i] as int) >= old(
                    self,
                ).spec_palette_len()),
            old(self).is_open() && frame.width == old(self).spec_width() && frame.height == old(
                self,
            ).spec_height() && frame.channels == 1 && (forall|i: int|
                0 <= i < frame.data@.len() ==> (#[trigger] frame.data@[i] as int) < old(
                    self,
                ).spec_palette_len()) ==> (r == Result::<(), EncodeError>::Err(EncodeError::DelayTooLong)
                <==> delay_ms / 10 > 65535),
            r == Result::<(), EncodeError>::Err(EncodeError::TooManyFrames) ==> old(
                self,
            ).spec_count() == u32::MAX,
            r.is_ok() ==> final(self).is_open() && final(self).frames() == old(
                self,
            ).frames().push((frame.data@, (delay_ms / 10) as u16)) && final(self).spec_count()
                == old(self).spec_count() + 1,
            r == Result::<(), EncodeError>::Err(EncodeError::Stream) ==> !final(self).is_open(),
            !(r.is_ok() || r == Result::<(), EncodeError>::Err(EncodeError::Stream))
                ==> *final(self) == *old(self),
    {
        if !self.accepting {
            return Err(EncodeError::Finalized);
        }
        if !(frame.width == self.width as usize && frame.height == self.height as usize
            && frame.channels == 1) {
            return Err(EncodeError::DimensionMismatch);
        }
        if !all_indices_below(&frame.data, self.palette_len) {
            return Err(EncodeError::IndexOutOfRange);
        }
        let ticks_wide = delay_ms / 10;
        if ticks_wide > 65535 {
            return Err(EncodeError::DelayTooLong);
        }
        if self.frames_written == u32::MAX {
            return Err(EncodeError::TooManyFrames);
        }
        let ticks = ticks_wide as u16;
        let w = self.width;
        let h = self.height;
        let enc_opt = self.inner.take();
        match enc_opt {
            Some(mut enc) => {
                proof {
                    assert(frame.data@.len() == w * h) by (nonlinear_arith)
                        requires
                            frame.data@.len() == frame.width * frame.height * frame.channels,
                            frame.width == w as int,
                            frame.height == h as int,
                            frame.channels == 1,
                    ;
                }
                match gif_write_frame(&mut enc, w, h, &frame.data, ticks) {
                    Ok(()) => {
                        self.inner = Some(enc);
                        self.frames_written = self.frames_written + 1;
                        self.history = Ghost(self.history@.push((frame.data@, ticks)));
                        Ok(())
                    },
                    Err(_) => {
                        self.accepting = false;
                        Err(EncodeError::Stream)
                    },
                }
            },
            None => {
                proof {
                    assert(false);
                }
                Err(EncodeError::Stream)
            },
        }
    }

    /// Closes the container, returning the encoded byte stream. No append
    /// or second finalize is permitted afterwards.
    pub fn finalize(&mut self) -> (r: Result<Vec<u8>, EncodeError>)
        requires
            old(self).wf(),
        ensures
            final(self).wf(),
            !final(self).is_open(),
            final(self).frames() == old(self).frames(),
            final(self).spec_count() == old(self).spec_count(),
            final(self).spec_width() == old(self).spec_width() && final(self).spec_height() == old(self).spec_height()
                && final(self).spec_palette_len() == old(self).spec_palette_len(),
            r == Result::<Vec<u8>, EncodeError>::Err(EncodeError::Finalized) <==> !old(
                self,
            ).is_open(),
            old(self).is_open() && r.is_err() ==> r == Result::<Vec<u8>, EncodeError>::Err(
                EncodeError::Stream,
            ),
    {
        if !self.accepting {
            return Err(EncodeError::Finalized);
        }
        self.accepting = false;
        let enc_opt = self.inner.take();
        match enc_opt {
            Some(enc) => {
                match gif_into_bytes(enc) {
                    Ok(v) => Ok(v),
                    Err(_) => Err(EncodeError::Stream),
                }
            },
            None => {
                proof {
                    assert(false);
                }
                Err(EncodeError::Stream)
            },
        }
    }
}

} // verus!

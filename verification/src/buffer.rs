//! A pixel buffer whose bytes a host can read in place.

use vstd::prelude::*;
use crate::format::ImageFormat;
use crate::random::fill_random;

verus! {

/// The number of bytes that a `width` × `height` image in `format` occupies.
pub open spec fn image_len(width: u32, height: u32, format: ImageFormat) -> nat {
    width as nat * height as nat * format.channel_count()
}

/// Returns the byte length of a `width` × `height` image in `format`, or
/// `None` when that length does not fit in a `usize`.
pub fn checked_image_len(width: u32, height: u32, format: ImageFormat) -> (len: Option<usize>)
    ensures
        image_len(width, height, format) <= usize::MAX ==> len == Some(
            image_len(width, height, format) as usize,
        ),
        image_len(width, height, format) > usize::MAX ==> len is None,
{
    assert(width as int * height as int <= 0xFFFF_FFFF * 0xFFFF_FFFF) by (nonlinear_arith)
        requires
            0 <= width <= 0xFFFF_FFFF,
            0 <= height <= 0xFFFF_FFFF,
    ;
    let pixels: u64 = (width as u64) * (height as u64);
    let channels: u64 = format.channels() as u64;
    if pixels > u64::MAX / channels {
        assert(pixels * channels > usize::MAX) by (nonlinear_arith)
            requires
                pixels > u64::MAX / channels,
                1 <= channels <= 4,
                usize::MAX <= u64::MAX,
        ;
        return None;
    }
    assert(pixels * channels <= u64::MAX) by (nonlinear_arith)
        requires
            pixels <= u64::MAX / channels,
            1 <= channels <= 4,
    ;
    let bytes: u64 = pixels * channels;
    if bytes > usize::MAX as u64 {
        None
    } else {
        Some(bytes as usize)
    }
}

/// What a [`SharedBuffer`] holds.
pub struct BufferState {
    pub width: u32,
    pub height: u32,
    pub format: ImageFormat,
    /// The bytes, row by row, each pixel's channels together.
    pub bytes: Seq<u8>,
}

/// The random number source gave no bytes.
#[derive(Debug, Clone, Copy, PartialEq, Eq, Structural)]
pub struct RandomSourceFailed;

/// An image's raw bytes together with its size and layout.
#[derive(Debug)]
pub struct SharedBuffer {
    width: u32,
    height: u32,
    format: ImageFormat,
    buffer: Vec<u8>,
}

impl View for SharedBuffer {
    type V = BufferState;

    closed spec fn view(&self) -> BufferState {
        BufferState {
            width: self.width,
            height: self.height,
            format: self.format,
            bytes: self.buffer@,
        }
    }
}

impl SharedBuffer {
    /// The buffer holds exactly one image of its size and layout.
    pub open spec fn wf(&self) -> bool {
        self@.bytes.len() == image_len(self@.width, self@.height, self@.format)
    }

    /// Creates a zero-filled buffer for a `width` × `height` image.
    pub fn new(width: u32, height: u32, format: ImageFormat) -> (b: SharedBuffer)
        requires
            image_len(width, height, format) <= usize::MAX,
        ensures
            b.wf(),
            b@.width == width,
            b@.height == height,
            b@.format == format,
            b@.bytes == Seq::new(image_len(width, height, format), |i: int| 0u8),
    {
        let size: usize = match checked_image_len(width, height, format) {
            Some(n) => n,
            None => 0,
        };
        let buffer: Vec<u8> = vec![0u8; size];
        assert(buffer@ =~= Seq::new(image_len(width, height, format), |i: int| 0u8));
        SharedBuffer { width, height, format, buffer }
    }

    /// Returns the number of bytes.
    pub fn len(&self) -> (n: usize)
        ensures
            n == self@.bytes.len(),
    {
        self.buffer.len()
    }

    /// Returns the image width in pixels.
    pub fn width(&self) -> (w: u32)
        ensures
            w == self@.width,
    {
        self.width
    }

    /// Returns the image height in pixels.
    pub fn height(&self) -> (h: u32)
        ensures
            h == self@.height,
    {
        self.height
    }

    /// Returns the pixel layout.
    pub fn format(&self) -> (f: ImageFormat)
        ensures
            f == self@.format,
    {
        self.format
    }

    /// Returns the bytes.
    pub fn as_slice(&self) -> (s: &[u8])
        ensures
            s@ == self@.bytes,
    {
        self.buffer.as_slice()
    }

    /// Returns the bytes for writing in place. The length cannot change
    /// through the slice, so the buffer stays well formed.
    pub fn as_mut_slice(&mut self) -> (s: &mut [u8])
        ensures
            s@ == old(self)@.bytes,
            final(self)@ == (BufferState { bytes: final(s)@, ..old(self)@ }),
    {
        self.buffer.as_mut_slice()
    }

    /// Replaces every byte with one from the system's random number source.
    ///
    /// Size and layout stay as they are whether or not the source delivers;
    /// the bytes are then whatever the source left. A buffer without bytes
    /// asks nothing of the source: it stays as it is, and the call succeeds.
    /// What is reported for the source's answer is
    /// [`reported_outcome`] of it.
    pub fn refresh(&mut self) -> (r: Result<(), RandomSourceFailed>)
        ensures
            final(self)@.width == old(self)@.width,
            final(self)@.height == old(self)@.height,
            final(self)@.format == old(self)@.format,
            final(self)@.bytes.len() == old(self)@.bytes.len(),
            old(self).wf() ==> final(self).wf(),
            old(self)@.bytes.len() == 0 ==> r == Ok::<(), RandomSourceFailed>(()) && final(self)@
                == old(self)@,
    {
        let filled = fill_random(&mut self.buffer);
        assert(old(self)@.bytes.len() == 0 ==> self@.bytes =~= old(self)@.bytes);
        reported_outcome(filled)
    }
}

/// Returns what [`SharedBuffer::refresh`] reports for an answer of the random
/// number source: success for success, and [`RandomSourceFailed`] for every
/// error, whatever it holds.
pub fn reported_outcome(filled: Result<(), getrandom::Error>) -> (r: Result<
    (),
    RandomSourceFailed,
>)
    ensures
        filled is Ok ==> r == Ok::<(), RandomSourceFailed>(()),
        filled is Err ==> r == Err::<(), RandomSourceFailed>(RandomSourceFailed),
{
    match filled {
        Ok(()) => Ok(()),
        Err(_) => Err(RandomSourceFailed),
    }
}

} // verus!

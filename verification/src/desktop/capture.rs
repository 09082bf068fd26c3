//! The frame cache of a window capture: only the newest RGBA frame is kept, frames are
//! numbered in the order they arrive, and readers wait for a frame newer than one they
//! have seen. PNG encoding happens only when a frame is read.

use vstd::prelude::*;
use crate::digest::opt_bytes;
use crate::error::{RuntimeError, RuntimeResult};

verus! {

pub const MAX_PIXELS: u64 = 16777216;
pub const BYTES_PER_PIXEL: usize = 4;
pub const CAPTURE_TIMEOUT_MS: u64 = 5000;

/// A captured frame.
#[derive(Debug, Clone)]
pub struct RgbaFrame {
    pub sequence: u64,
    pub width: u32,
    pub height: u32,
    pub pixels: Vec<u8>,
}

/// The newest frame of a capture, the number of the last frame, and the error that
/// ended the capture, if it ended.
#[derive(Debug)]
pub struct FrameCache {
    pub latest: Option<RgbaFrame>,
    pub next_sequence: u64,
    pub terminal_error: Option<String>,
}

/// Dimensions a capture accepts: nonzero, at most 16 Mi pixels.
pub open spec fn dimensions_ok(width: u32, height: u32) -> bool {
    width != 0 && height != 0 && width * height <= MAX_PIXELS
}

/// Accepts only capturable window dimensions.
pub fn validate_dimensions(width: u32, height: u32) -> (r: Result<(), String>)
    ensures
        r is Ok <==> dimensions_ok(width, height),
{
    if width == 0 || height == 0 {
        return Err("captured window dimensions are unsupported".to_owned());
    }
    assert((width as u64) * (height as u64) <= 0xffff_ffff * 0xffff_ffff) by (nonlinear_arith)
        requires
            width <= 0xffff_ffff,
            height <= 0xffff_ffff;
    if (width as u64) * (height as u64) > MAX_PIXELS {
        return Err("captured window dimensions are unsupported".to_owned());
    }
    Ok(())
}

/// The byte length of an RGBA frame of this size.
pub fn rgba_len(width: u32, height: u32) -> (r: Result<usize, String>)
    ensures
        r is Ok <==> dimensions_ok(width, height),
        r matches Ok(n) ==> n == width * height * 4,
{
    validate_dimensions(width, height)?;
    let pixels: u64 = (width as u64) * (height as u64);
    assert(pixels * 4 <= 67108864);
    Ok((pixels as usize) * BYTES_PER_PIXEL)
}

/// Accepts a frame buffer only if its length is exactly that of an RGBA frame of
/// acceptable dimensions.
pub fn validate_rgba(width: u32, height: u32, actual: usize) -> (r: Result<(), String>)
    ensures
        r is Ok <==> (dimensions_ok(width, height) && actual == width * height * 4),
{
    let expected = rgba_len(width, height)?;
    if actual != expected {
        return Err("captured frame buffer length is invalid".to_owned());
    }
    Ok(())
}

/// The error of a reader that waited too long for a new frame; it may retry.
pub fn capture_timeout() -> (e: RuntimeError)
    ensures
        e.code@ == "desktop_capture_timeout"@,
        e.retryable,
{
    let mut error = RuntimeError::new(
        "desktop_capture_timeout",
        "timed out waiting for a target-window frame newer than the requested sequence; retry observation",
    );
    error.retryable = true;
    error
}

fn closed(message: &String) -> (e: RuntimeError)
    ensures
        e.code@ == "desktop_capture_closed"@,
        e.message@ == message@,
{
    RuntimeError::new("desktop_capture_closed", message.as_str())
}

fn copy_bytes(v: &Vec<u8>) -> (r: Vec<u8>)
    ensures
        r@ == v@,
{
    let mut r: Vec<u8> = Vec::new();
    let mut i: usize = 0;
    while i < v.len()
        invariant
            i <= v@.len(),
            r@ == v@.subrange(0, i as int),
        decreases v.len() - i,
    {
        r.push(v[i]);
        i = i + 1;
    }
    assert(v@.subrange(0, v@.len() as int) =~= v@);
    r
}

/// A copy of a frame.
pub fn copy_frame(f: &RgbaFrame) -> (r: RgbaFrame)
    ensures
        r.sequence == f.sequence,
        r.width == f.width,
        r.height == f.height,
        r.pixels@ == f.pixels@,
{
    RgbaFrame { sequence: f.sequence, width: f.width, height: f.height, pixels: copy_bytes(&f.pixels) }
}

/// `r` reports frame `f`.
pub open spec fn same_frame(r: RgbaFrame, f: RgbaFrame) -> bool {
    r.sequence == f.sequence && r.width == f.width && r.height == f.height && r.pixels@ == f.pixels@
}

impl FrameCache {
    /// An empty cache of a running capture.
    pub fn new() -> (c: Self)
        ensures
            c.latest is None,
            c.next_sequence == 0,
            c.terminal_error is None,
    {
        FrameCache { latest: None, next_sequence: 0, terminal_error: None }
    }

    /// Caches a new frame as the newest, numbering it after the last one, and hands back
    /// the pixel buffer of the frame it replaces for reuse.
    pub fn publish(&mut self, width: u32, height: u32, pixels: Vec<u8>) -> (r: Result<Option<Vec<u8>>, String>)
        ensures
            final(self).terminal_error == old(self).terminal_error,
            !(dimensions_ok(width, height) && pixels@.len() == width * height * 4) ==> {
                &&& r is Err
                &&& final(self).latest == old(self).latest
                &&& final(self).next_sequence == old(self).next_sequence
            },
            (dimensions_ok(width, height) && pixels@.len() == width * height * 4 && old(self).next_sequence == u64::MAX) ==> {
                &&& r is Err
                &&& final(self).latest == old(self).latest
                &&& final(self).next_sequence == old(self).next_sequence
            },
            (dimensions_ok(width, height) && pixels@.len() == width * height * 4 && old(self).next_sequence < u64::MAX) ==> {
                &&& final(self).next_sequence == old(self).next_sequence + 1
                &&& final(self).latest == Some(RgbaFrame { sequence: (old(self).next_sequence + 1) as u64, width, height, pixels })
                &&& r matches Ok(previous) && previous == (match old(self).latest { Some(f) => Some(f.pixels), None => None })
            },
    {
        validate_rgba(width, height, pixels.len())?;
        if self.next_sequence == u64::MAX {
            return Err("capture frame sequence exhausted".to_owned());
        }
        let sequence = self.next_sequence + 1;
        self.next_sequence = sequence;
        let previous = self.latest.take();
        self.latest = Some(RgbaFrame { sequence, width, height, pixels });
        Ok(match previous {
            Some(frame) => Some(frame.pixels),
            None => None,
        })
    }

    /// Ends the capture: every reader, waiting or not, gets `message` from now on.
    pub fn fail(&mut self, message: &str)
        ensures
            final(self).latest == old(self).latest,
            final(self).next_sequence == old(self).next_sequence,
            final(self).terminal_error matches Some(m) && m@ == message@,
    {
        self.terminal_error = Some(message.to_owned());
    }

    /// The newest frame, if any has arrived; fails once the capture has ended.
    pub fn latest(&self) -> (r: RuntimeResult<Option<RgbaFrame>>)
        ensures
            match self.terminal_error {
                Some(m) => r matches Err(e) && e.code@ == "desktop_capture_closed"@ && e.message@ == m@,
                None => match self.latest {
                    Some(f) => r matches Ok(Some(c)) && same_frame(c, f),
                    None => r matches Ok(None),
                },
            },
    {
        if let Some(message) = &self.terminal_error {
            return Err(closed(message));
        }
        match &self.latest {
            Some(f) => Ok(Some(copy_frame(f))),
            None => Ok(None),
        }
    }

    /// The number of the newest frame, zero before the first; fails once the capture ended.
    pub fn current_sequence(&self) -> (r: RuntimeResult<u64>)
        ensures
            match self.terminal_error {
                Some(m) => r matches Err(e) && e.code@ == "desktop_capture_closed"@ && e.message@ == m@,
                None => r == Ok::<u64, RuntimeError>(match self.latest { Some(f) => f.sequence, None => 0 }),
            },
    {
        if let Some(message) = &self.terminal_error {
            return Err(closed(message));
        }
        match &self.latest {
            Some(f) => Ok(f.sequence),
            None => Ok(0),
        }
    }

    /// One look at the cache for a frame newer than `sequence`, with `remaining_ms` left
    /// before the reader's deadline: the frame if there is one; the capture's end; a
    /// retryable timeout when no time is left; otherwise `None`, and the reader waits for
    /// the next change and looks again. A frame not newer than `sequence` is never returned.
    pub fn wait_after(&self, sequence: u64, remaining_ms: u64) -> (r: RuntimeResult<Option<RgbaFrame>>)
        ensures
            match self.terminal_error {
                Some(m) => r matches Err(e) && e.code@ == "desktop_capture_closed"@ && e.message@ == m@,
                None => if self.latest matches Some(f) && f.sequence > sequence {
                    r matches Ok(Some(c)) && same_frame(c, self.latest->0)
                } else if remaining_ms == 0 {
                    r matches Err(e) && e.code@ == "desktop_capture_timeout"@ && e.retryable
                } else {
                    r matches Ok(None)
                },
            },
            r matches Ok(Some(c)) ==> c.sequence > sequence,
    {
        if let Some(message) = &self.terminal_error {
            return Err(closed(message));
        }
        if let Some(f) = &self.latest {
            if f.sequence > sequence {
                return Ok(Some(copy_frame(f)));
            }
        }
        if remaining_ms == 0 {
            return Err(capture_timeout());
        }
        Ok(None)
    }
}

impl Default for FrameCache {
    fn default() -> (c: Self)
        ensures
            c.latest is None,
            c.next_sequence == 0,
            c.terminal_error is None,
    {
        FrameCache::new()
    }
}

/// The PNG encoding of an 8-bit RGBA image, as the `png` crate writes it.
pub uninterp spec fn spec_png_rgba(width: u32, height: u32, pixels: Seq<u8>) -> Option<Seq<u8>>;

/// `png::Encoder` with RGBA color and 8-bit depth, writing into memory. The result is
/// `spec_png_rgba` of the arguments. As the encoder's source shows, it refuses a zero
/// width or height and image data whose length is not width * height * 4, and its
/// output starts with the PNG signature. Nothing else of the output is stated.
#[verifier::external_body]
fn encode_png_rgba(width: u32, height: u32, pixels: &[u8]) -> (r: Option<Vec<u8>>)
    requires
        width * height * 4 <= usize::MAX,
    ensures
        opt_bytes(r) == spec_png_rgba(width, height, pixels@),
        (width == 0 || height == 0 || pixels@.len() != width * height * 4) ==> r is None,
        r matches Some(b) ==> b@.len() >= 8 && b@.subrange(0, 8) == seq![137u8, 80u8, 78u8, 71u8, 13u8, 10u8, 26u8, 10u8],
{
    let mut output = Vec::new();
    {
        let mut encoder = png::Encoder::new(std::io::Cursor::new(&mut output), width, height);
        encoder.set_color(png::ColorType::Rgba);
        encoder.set_depth(png::BitDepth::Eight);
        let mut writer = encoder.write_header().ok()?;
        writer.write_image_data(pixels).ok()?;
    }
    Some(output)
}

/// Encodes a cached frame as PNG.
pub fn encode_frame(frame: &RgbaFrame) -> (r: RuntimeResult<Vec<u8>>)
    requires
        frame.width * frame.height <= MAX_PIXELS,
    ensures
        match spec_png_rgba(frame.width, frame.height, frame.pixels@) {
            Some(png) => r matches Ok(b) && b@ == png,
            None => r matches Err(e) && e.code@ == "desktop_backend_error"@ && e.retryable,
        },
{
    match encode_png_rgba(frame.width, frame.height, frame.pixels.as_slice()) {
        Some(bytes) => Ok(bytes),
        None => {
            let mut error = RuntimeError::new("desktop_backend_error", "PNG encoding failed");
            error.retryable = true;
            Err(error)
        },
    }
}

} // verus!

//! Compressed bodies: a file is fed to a compressor chunk by chunk, and what is
//! ready is handed out in between, so that large files are never held whole.
use vstd::prelude::*;
use std::io::Read;
use std::io::Write;
use crate::bytes;
use crate::dataplane::http::static_files;
use crate::dataplane::http::static_files::Encoding;

verus! {

/// A compressor for gzip.
#[verifier::external_body]
pub struct GzipWriter {
    inner: flate2::write::GzEncoder<Vec<u8>>,
}

/// All that a compressor was fed.
pub uninterp spec fn gzip_fed(w: GzipWriter) -> Seq<u8>;

/// All that a compressor handed out.
pub uninterp spec fn gzip_given(w: GzipWriter) -> Seq<u8>;

/// What a row of bytes decodes to as gzip, if it does.
pub uninterp spec fn gzip_decoded(data: Seq<u8>) -> Option<Seq<u8>>;

/// `flate2::write::GzEncoder::new` over a vector, with the default level: a
/// compressor that was fed nothing and handed out nothing.
#[verifier::external_body]
fn gzip_new() -> (r: GzipWriter)
    ensures
        gzip_fed(r) == Seq::<u8>::empty(),
        gzip_given(r) == Seq::<u8>::empty(),
{
    GzipWriter { inner: flate2::write::GzEncoder::new(Vec::new(), flate2::Compression::default()) }
}

/// `flate2::write::GzEncoder::write_all`, and what `get_mut` then holds: feeds
/// the compressor and hands out what is ready. It does not fail: the sink is a
/// vector, and the compressor takes bytes until it is finished, which consumes
/// it.
#[verifier::external_body]
fn gzip_push(w: &mut GzipWriter, data: &[u8]) -> (r: Option<Vec<u8>>)
    ensures
        r is Some,
        r is Some ==> gzip_fed(*final(w)) == gzip_fed(*old(w)) + data@,
        r is Some ==> gzip_given(*final(w)) == gzip_given(*old(w)) + (r->0)@,
{
    w.inner.write_all(data).ok()?;
    Some(std::mem::take(w.inner.get_mut()))
}

/// `flate2::write::GzEncoder::finish`: hands out the rest. All that was handed
/// out then decodes to all that was fed. It does not fail: the sink is a
/// vector, and the compressor was not finished before.
#[verifier::external_body]
fn gzip_finish(w: GzipWriter) -> (r: Option<Vec<u8>>)
    ensures
        r is Some,
        r is Some ==> gzip_decoded(gzip_given(w) + (r->0)@) == Some(gzip_fed(w)),
{
    w.inner.finish().ok()
}

/// `flate2::read::GzDecoder`: what the bytes decode to, or nothing if they are
/// no gzip.
#[verifier::external_body]
fn gunzip(data: &[u8]) -> (r: Option<Vec<u8>>)
    ensures
        match gzip_decoded(data@) {
            Some(b) => r is Some && r->0@ == b,
            None => r is None,
        },
{
    let mut out = Vec::new();
    flate2::read::GzDecoder::new(data).read_to_end(&mut out).ok()?;
    Some(out)
}

/// A compressor for zstd.
#[verifier::external_body]
pub struct ZstdWriter {
    inner: zstd::stream::write::Encoder<'static, Vec<u8>>,
}

/// All that a compressor was fed.
pub uninterp spec fn zstd_fed(w: ZstdWriter) -> Seq<u8>;

/// All that a compressor handed out.
pub uninterp spec fn zstd_given(w: ZstdWriter) -> Seq<u8>;

/// What a row of bytes decodes to as zstd, if it does.
pub uninterp spec fn zstd_decoded(data: Seq<u8>) -> Option<Seq<u8>>;

/// `zstd::stream::write::Encoder::new` over a vector, with the default level: a
/// compressor that was fed nothing and handed out nothing. Nothing if the
/// compressor cannot be set up.
#[verifier::external_body]
fn zstd_new() -> (r: Option<ZstdWriter>)
    ensures
        r is Some ==> zstd_fed(r->0) == Seq::<u8>::empty(),
        r is Some ==> zstd_given(r->0) == Seq::<u8>::empty(),
{
    Some(ZstdWriter { inner: zstd::stream::write::Encoder::new(Vec::new(), 0).ok()? })
}

/// `zstd::stream::write::Encoder::write_all`, and what `get_mut` then holds:
/// feeds the compressor and hands out what is ready. Nothing is claimed where
/// it fails.
#[verifier::external_body]
fn zstd_push(w: &mut ZstdWriter, data: &[u8]) -> (r: Option<Vec<u8>>)
    ensures
        r is Some ==> zstd_fed(*final(w)) == zstd_fed(*old(w)) + data@,
        r is Some ==> zstd_given(*final(w)) == zstd_given(*old(w)) + (r->0)@,
{
    w.inner.write_all(data).ok()?;
    Some(std::mem::take(w.inner.get_mut()))
}

/// `zstd::stream::write::Encoder::finish`: hands out the rest. All that was
/// handed out then decodes to all that was fed. Nothing is claimed where it
/// fails.
#[verifier::external_body]
fn zstd_finish(w: ZstdWriter) -> (r: Option<Vec<u8>>)
    ensures
        r is Some ==> zstd_decoded(zstd_given(w) + (r->0)@) == Some(zstd_fed(w)),
{
    w.inner.finish().ok()
}

/// `zstd::stream::decode_all`: what the bytes decode to, or nothing if they are
/// no zstd.
#[verifier::external_body]
fn unzstd(data: &[u8]) -> (r: Option<Vec<u8>>)
    ensures
        match zstd_decoded(data@) {
            Some(b) => r is Some && r->0@ == b,
            None => r is None,
        },
{
    zstd::stream::decode_all(data).ok()
}

/// What a row of bytes decodes to in an encoding, if it does.
pub open spec fn decoded(encoding: Encoding, data: Seq<u8>) -> Option<Seq<u8>> {
    match encoding {
        Encoding::Identity => Some(data),
        Encoding::Gzip => gzip_decoded(data),
        Encoding::Zstd => zstd_decoded(data),
    }
}

/// Undoes an encoding.
pub fn decode(encoding: Encoding, data: &[u8]) -> (r: Option<Vec<u8>>)
    ensures
        match decoded(encoding, data@) {
            Some(b) => r is Some && r->0@ == b,
            None => r is None,
        },
{
    match encoding {
        Encoding::Identity => Some(bytes::copy_of(data)),
        Encoding::Gzip => gunzip(data),
        Encoding::Zstd => unzstd(data),
    }
}

/// An incremental compressor for a negotiated encoding.
pub enum BodyEncoder {
    Gzip(GzipWriter),
    Zstd(ZstdWriter),
}

impl BodyEncoder {
    pub open spec fn encoding(self) -> Encoding {
        match self {
            BodyEncoder::Gzip(_) => Encoding::Gzip,
            BodyEncoder::Zstd(_) => Encoding::Zstd,
        }
    }

    /// All that was fed.
    pub open spec fn fed(self) -> Seq<u8> {
        match self {
            BodyEncoder::Gzip(w) => gzip_fed(w),
            BodyEncoder::Zstd(w) => zstd_fed(w),
        }
    }

    /// All that was handed out.
    pub open spec fn given(self) -> Seq<u8> {
        match self {
            BodyEncoder::Gzip(w) => gzip_given(w),
            BodyEncoder::Zstd(w) => zstd_given(w),
        }
    }

    /// A compressor for an encoding. A plain body needs none, and one for gzip
    /// is always to be had.
    pub fn new(encoding: Encoding) -> (r: Option<BodyEncoder>)
        ensures
            encoding == Encoding::Identity ==> r is None,
            encoding == Encoding::Gzip ==> r is Some,
            r matches Some(e) ==> e.encoding() == encoding && e.fed() == Seq::<u8>::empty() && e.given()
                == Seq::<u8>::empty(),
    {
        match encoding {
            Encoding::Identity => None,
            Encoding::Gzip => Some(BodyEncoder::Gzip(gzip_new())),
            Encoding::Zstd => match zstd_new() {
                Some(w) => Some(BodyEncoder::Zstd(w)),
                None => None,
            },
        }
    }

    /// Feeds the compressor and hands out what is ready. One for gzip never
    /// fails; one for zstd can for want of memory.
    pub fn push(&mut self, data: &[u8]) -> (r: Option<Vec<u8>>)
        ensures
            old(self).encoding() == Encoding::Gzip ==> r is Some,
            final(self).encoding() == old(self).encoding(),
            r is Some ==> final(self).fed() == old(self).fed() + data@ && final(self).given() == old(self).given() + (
            r->0)@,
    {
        match self {
            BodyEncoder::Gzip(w) => gzip_push(w, data),
            BodyEncoder::Zstd(w) => zstd_push(w, data),
        }
    }

    /// Hands out the rest: all that was handed out decodes to all that was fed.
    pub fn finish(self) -> (r: Option<Vec<u8>>)
        ensures
            self.encoding() == Encoding::Gzip ==> r is Some,
            r is Some ==> decoded(self.encoding(), self.given() + (r->0)@) == Some(self.fed()),
    {
        match self {
            BodyEncoder::Gzip(w) => gzip_finish(w),
            BodyEncoder::Zstd(w) => zstd_finish(w),
        }
    }
}

/// Why a body cannot be sent whole.
#[derive(Debug, Clone, Copy, PartialEq, Eq, Structural)]
pub enum StreamError {
    /// The file ended before its length was read.
    Truncated,
    /// The compressor failed.
    NotEncoded,
}

/// Takes what a compressor handed out.
pub fn take_output(out: Option<Vec<u8>>) -> (r: Result<Vec<u8>, StreamError>)
    ensures
        r == match out {
            Some(out) => Ok::<Vec<u8>, StreamError>(out),
            None => Err::<Vec<u8>, StreamError>(StreamError::NotEncoded),
        },
{
    match out {
        Some(out) => Ok(out),
        None => Err(StreamError::NotEncoded),
    }
}

/// A file that is sent through a compressor.
pub struct CompressedBody {
    pub encoder: BodyEncoder,
    pub length: u64,
    /// How many bytes of the file are still to be read.
    pub remaining: u64,
}

impl CompressedBody {
    pub open spec fn wf(self) -> bool {
        self.encoder.fed().len() + self.remaining == self.length
    }

    /// Begins to send a file of a length.
    pub fn start(encoding: Encoding, length: u64) -> (r: Option<CompressedBody>)
        ensures
            encoding == Encoding::Identity ==> r is None,
            encoding == Encoding::Gzip ==> r is Some,
            r matches Some(b) ==> b.wf() && b.length == length && b.remaining == length && b.encoder.encoding()
                == encoding && b.encoder.given() == Seq::<u8>::empty(),
    {
        match BodyEncoder::new(encoding) {
            Some(encoder) => Some(CompressedBody { encoder, length, remaining: length }),
            None => None,
        }
    }

    /// How much to read next, none when the file is read.
    pub fn next_read(&self) -> (r: Option<usize>)
        ensures
            r is None <==> self.remaining == 0,
            r is Some ==> r->0 == if self.remaining < static_files::STREAM_CHUNK {
                self.remaining
            } else {
                static_files::STREAM_CHUNK
            },
    {
        static_files::next_chunk(self.remaining)
    }

    /// Takes in what was read and hands out what is to be sent. Reading nothing
    /// before the end means that the file was truncated.
    pub fn stream_compressed(&mut self, chunk: &[u8]) -> (r: Result<Vec<u8>, StreamError>)
        requires
            old(self).wf(),
            chunk@.len() <= old(self).remaining,
        ensures
            final(self).length == old(self).length,
            final(self).encoder.encoding() == old(self).encoder.encoding(),
            r == Err::<Vec<u8>, StreamError>(StreamError::Truncated) <==> chunk@.len() == 0,
            chunk@.len() == 0 ==> *final(self) == *old(self),
            old(self).encoder.encoding() == Encoding::Gzip && chunk@.len() > 0 ==> r is Ok,
            r matches Ok(out) ==> {
                &&& final(self).wf()
                &&& final(self).remaining == old(self).remaining - chunk@.len()
                &&& final(self).encoder.fed() == old(self).encoder.fed() + chunk@
                &&& final(self).encoder.given() == old(self).encoder.given() + out@
            },
    {
        let rest = match static_files::after_chunk(self.remaining, chunk.len() as u64) {
            Some(rest) => rest,
            None => return Err(StreamError::Truncated),
        };
        let ready = self.encoder.push(chunk);
        self.take_ready(rest, ready)
    }

    /// Goes on with what the compressor made of a chunk, `ready`, behind which
    /// `rest` bytes of the file are still to be read.
    pub fn take_ready(&mut self, rest: u64, ready: Option<Vec<u8>>) -> (r: Result<Vec<u8>, StreamError>)
        ensures
            match ready {
                Some(out) => r == Ok::<Vec<u8>, StreamError>(out) && *final(self) == (CompressedBody {
                    remaining: rest,
                    ..*old(self)
                }),
                None => r == Err::<Vec<u8>, StreamError>(StreamError::NotEncoded) && *final(self) == *old(self),
            },
    {
        if ready.is_some() {
            self.remaining = rest;
        }
        take_output(ready)
    }

    /// Ends a body whose file is read: all that was sent decodes to the file,
    /// byte for byte.
    pub fn finish(self) -> (r: Result<Vec<u8>, StreamError>)
        requires
            self.wf(),
        ensures
            r == Err::<Vec<u8>, StreamError>(StreamError::Truncated) <==> self.remaining > 0,
            self.encoder.encoding() == Encoding::Gzip && self.remaining == 0 ==> r is Ok,
            r matches Ok(tail) ==> {
                &&& self.encoder.fed().len() == self.length
                &&& decoded(self.encoder.encoding(), self.encoder.given() + tail@) == Some(self.encoder.fed())
            },
    {
        if self.remaining > 0 {
            return Err(StreamError::Truncated);
        }
        take_output(self.encoder.finish())
    }
}

} // verus!

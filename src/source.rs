//! Byte sources that the dump pulls its chunks from.
use vstd::prelude::*;
use std::collections::VecDeque;
use flate2::read::ZlibDecoder;

verus! {

/// A source over any reader. It keeps a record of every read: the length of
/// the buffer it was handed, the bytes of each successful read, and the error
/// of a failed one, after which it takes no further read.
pub struct ReadSource<R> {
    reader: R,
    asked: Ghost<Seq<nat>>,
    log: Ghost<Seq<Seq<u8>>>,
    failed: Ghost<Option<std::io::Error>>,
}

impl<R> ReadSource<R> {
    /// The length of the buffer handed to each read so far, in order.
    pub closed spec fn requests(&self) -> Seq<nat> {
        self.asked@
    }

    /// The chunks that successful reads handed out so far, in order.
    pub closed spec fn pulled(&self) -> Seq<Seq<u8>> {
        self.log@
    }

    /// The error of the read that failed, if one did.
    pub closed spec fn failure(&self) -> Option<std::io::Error> {
        self.failed@
    }
}

/// Relies on `std::io::Read::read`, whose documentation guarantees that the
/// count it returns is at most `buf.len()`; the bytes go to the front of
/// `buf`. The record of `src` gains the call: the buffer's length, and on
/// success the bytes read.
#[verifier::external_body]
fn read_into<R: std::io::Read>(src: &mut ReadSource<R>, buf: &mut Vec<u8>) -> (r: Result<
    usize,
    std::io::Error,
>)
    ensures
        final(buf)@.len() == old(buf)@.len(),
        final(src).requests() == old(src).requests().push(old(buf)@.len()),
        final(src).failure() == old(src).failure(),
        match r {
            Ok(n) => {
                &&& n <= old(buf)@.len()
                &&& final(src).pulled() == old(src).pulled().push(final(buf)@.take(n as int))
            },
            Err(_) => final(src).pulled() == old(src).pulled(),
        },
{
    src.reader.read(buf.as_mut_slice())
}

impl<R: std::io::Read> ReadSource<R> {
    /// A source that reads from `reader`.
    pub fn new(reader: R) -> (r: Self)
        ensures
            r.requests() == Seq::<nat>::empty(),
            r.pulled() == Seq::<Seq<u8>>::empty(),
            r.failure() is None,
    {
        ReadSource {
            reader,
            asked: Ghost(Seq::empty()),
            log: Ghost(Seq::empty()),
            failed: Ghost(None),
        }
    }

    /// Gives the reader back.
    pub fn into_inner(self) -> R {
        self.reader
    }

    /// Reads at most `buf.len()` bytes into the front of `buf` and returns
    /// their number; `Ok(0)` means the end. A source whose read failed
    /// takes no further read.
    pub fn read(&mut self, buf: &mut Vec<u8>) -> (r: Result<usize, std::io::Error>)
        requires
            old(self).failure() is None,
        ensures
            final(buf)@.len() == old(buf)@.len(),
            final(self).requests() == old(self).requests().push(old(buf)@.len()),
            match r {
                Ok(n) => {
                    &&& n <= old(buf)@.len()
                    &&& final(self).pulled() == old(self).pulled().push(
                        final(buf)@.take(n as int),
                    )
                    &&& final(self).failure() is None
                },
                Err(e) => {
                    &&& final(self).pulled() == old(self).pulled()
                    &&& final(self).failure() == Some(e)
                },
            },
    {
        let r = read_into(self, buf);
        self.failed = Ghost(
            if r is Ok {
                None
            } else {
                Some(r->Err_0)
            },
        );
        r
    }
}

#[verifier::external_type_specification]
#[verifier::external_body]
#[verifier::reject_recursive_types(R)]
pub struct ExZlibDecoder<R>(ZlibDecoder<R>);

/// Relies on `flate2::read::ZlibDecoder::new`: a decoder that inflates the
/// given zlib stream as it is read.
#[verifier::external_body]
fn zlib_decoder(compressed: Vec<u8>) -> ZlibDecoder<VecDeque<u8>> {
    ZlibDecoder::new(VecDeque::from(compressed))
}

/// A source that inflates a zlib stream held in memory.
pub type ZlibSource = ReadSource<ZlibDecoder<VecDeque<u8>>>;

/// A source that hands out the inflated form of `compressed`.
pub fn zlib_source(compressed: Vec<u8>) -> (r: ZlibSource)
    ensures
        r.requests() == Seq::<nat>::empty(),
        r.pulled() == Seq::<Seq<u8>>::empty(),
        r.failure() is None,
{
    ReadSource::new(zlib_decoder(compressed))
}

} // verus!

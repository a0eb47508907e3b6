//! Sinks that take the dump's lines.
use vstd::prelude::*;

verus! {

/// A sink over any writer. It keeps a record of every line handed to the
/// writer and of the error of a write that failed, after which it takes no
/// further line.
pub struct WriteSink<W> {
    writer: W,
    log: Ghost<Seq<Seq<char>>>,
    failed: Ghost<Option<std::io::Error>>,
}

impl<W> WriteSink<W> {
    /// The lines handed to the writer so far, in order, the failed one included.
    pub closed spec fn handed(&self) -> Seq<Seq<char>> {
        self.log@
    }

    /// The error of the write that failed, if one did.
    pub closed spec fn failure(&self) -> Option<std::io::Error> {
        self.failed@
    }
}

/// Relies on `std::io::Write::write_all`, which hands the bytes of `text` to
/// the writer and returns `Ok` only once all of them were written. The record
/// of `sink` gains the text.
#[verifier::external_body]
fn write_all_str<W: std::io::Write>(sink: &mut WriteSink<W>, text: &str) -> (r: Result<
    (),
    std::io::Error,
>)
    ensures
        final(sink).handed() == old(sink).handed().push(text@),
        final(sink).failure() == old(sink).failure(),
{
    sink.writer.write_all(text.as_bytes())
}

impl<W: std::io::Write> WriteSink<W> {
    /// A sink that writes to `writer`.
    pub fn new(writer: W) -> (r: Self)
        ensures
            r.handed() == Seq::<Seq<char>>::empty(),
            r.failure() is None,
    {
        WriteSink { writer, log: Ghost(Seq::empty()), failed: Ghost(None) }
    }

    /// Gives the writer back.
    pub fn into_inner(self) -> W {
        self.writer
    }

    /// Writes all of `line`. A sink whose write failed takes no further line.
    pub fn write_line(&mut self, line: &str) -> (r: Result<(), std::io::Error>)
        requires
            old(self).failure() is None,
        ensures
            final(self).handed() == old(self).handed().push(line@),
            match r {
                Ok(()) => final(self).failure() is None,
                Err(e) => final(self).failure() == Some(e),
            },
    {
        let r = write_all_str(self, line);
        self.failed = Ghost(
            if r is Ok {
                None
            } else {
                Some(r->Err_0)
            },
        );
        r
    }
}

} // verus!

//! The streaming hexdump: pull a chunk, write its line, advance the offset.
use vstd::prelude::*;
use crate::error::DumpError;
use crate::line::{gen_info, line_of, BYTES_PER_LINE};
use crate::sink::WriteSink;
use crate::source::ReadSource;

verus! {

/// The offset printed on the line of the `i`-th chunk: sixteen per chunk,
/// shown in 32 bits.
pub open spec fn chunk_offset(i: int) -> u32 {
    ((16 * i) % 0x1_0000_0000) as u32
}

/// The lines of a run over the given chunks, the `i`-th at `chunk_offset(i)`.
pub open spec fn dump_lines(chunks: Seq<Seq<u8>>) -> Seq<Seq<char>> {
    Seq::new(chunks.len(), |i: int| line_of(chunks[i], chunk_offset(i)))
}

/// Every chunk holds between one and sixteen bytes.
pub open spec fn data_chunks(chunks: Seq<Seq<u8>>) -> bool {
    forall|i: int| 0 <= i < chunks.len() ==> 1 <= #[trigger] chunks[i].len() <= 16
}

/// What a run has done, given its result: it pulled `chunks`, handed reads
/// buffers of the lengths in `asked`, and handed the writer `lines`.
pub open spec fn run_outcome(
    chunks: Seq<Seq<u8>>,
    asked: Seq<nat>,
    lines: Seq<Seq<char>>,
    r: Result<(), DumpError>,
) -> bool {
    &&& forall|i: int| 0 <= i < asked.len() ==> #[trigger] asked[i] == 16
    &&& match r {
        Ok(()) => {
            &&& chunks.len() >= 1
            &&& chunks.last().len() == 0
            &&& data_chunks(chunks.drop_last())
            &&& lines == dump_lines(chunks.drop_last())
            &&& asked.len() == chunks.len()
        },
        Err(DumpError::Read(_)) => {
            &&& data_chunks(chunks)
            &&& lines == dump_lines(chunks)
            &&& asked.len() == chunks.len() + 1
        },
        Err(DumpError::Write(_)) => {
            &&& chunks.len() >= 1
            &&& data_chunks(chunks)
            &&& lines == dump_lines(chunks)
            &&& asked.len() == chunks.len()
        },
        Err(DumpError::Overflow) => {
            &&& data_chunks(chunks)
            &&& lines == dump_lines(chunks)
            &&& asked.len() == chunks.len()
            &&& u64::MAX < 16 * chunks.len() <= u64::MAX + 16
        },
    }
}

/// The part of `s` past its first `n` elements.
pub open spec fn after<T>(s: Seq<T>, n: int) -> Seq<T> {
    s.subrange(n, s.len() as int)
}

fn front(buf: &Vec<u8>, n: usize) -> (r: Vec<u8>)
    requires
        n <= buf@.len(),
    ensures
        r@ == buf@.take(n as int),
{
    let mut r: Vec<u8> = Vec::new();
    let mut i: usize = 0;
    while i < n
        invariant
            i <= n,
            n <= buf@.len(),
            r@ == buf@.take(i as int),
        decreases n - i,
    {
        r.push(buf[i]);
        assert(r@ =~= buf@.take(i as int + 1));
        i += 1;
    }
    r
}

/// Pulls chunks from `reader` through a buffer of sixteen bytes and writes
/// one line per chunk to `writer`, until a chunk of no bytes ends the run or
/// the first error stops it.
pub fn print_hexdump<R: std::io::Read, W: std::io::Write>(
    reader: &mut ReadSource<R>,
    writer: &mut WriteSink<W>,
) -> (r: Result<(), DumpError>)
    requires
        old(reader).failure() is None,
        old(writer).failure() is None,
    ensures
        old(reader).pulled().is_prefix_of(final(reader).pulled()),
        old(reader).requests().is_prefix_of(final(reader).requests()),
        old(writer).handed().is_prefix_of(final(writer).handed()),
        run_outcome(
            after(final(reader).pulled(), old(reader).pulled().len() as int),
            after(final(reader).requests(), old(reader).requests().len() as int),
            after(final(writer).handed(), old(writer).handed().len() as int),
            r,
        ),
        match r {
            Err(DumpError::Read(e)) => final(reader).failure() == Some(e),
            _ => final(reader).failure() is None,
        },
        match r {
            Err(DumpError::Write(e)) => final(writer).failure() == Some(e),
            _ => final(writer).failure() is None,
        },
{
    let ghost p0 = reader.pulled();
    let ghost q0 = reader.requests();
    let ghost w0 = writer.handed();
    let mut buf: Vec<u8> = vec![0u8; BYTES_PER_LINE];
    let mut offset: u64 = 0;
    loop
        invariant
            buf@.len() == BYTES_PER_LINE,
            p0 == old(reader).pulled(),
            q0 == old(reader).requests(),
            w0 == old(writer).handed(),
            p0.is_prefix_of(reader.pulled()),
            q0.is_prefix_of(reader.requests()),
            w0.is_prefix_of(writer.handed()),
            reader.failure() is None,
            writer.failure() is None,
            data_chunks(after(reader.pulled(), p0.len() as int)),
            after(writer.handed(), w0.len() as int) == dump_lines(
                after(reader.pulled(), p0.len() as int),
            ),
            after(reader.requests(), q0.len() as int).len() == after(
                reader.pulled(),
                p0.len() as int,
            ).len(),
            forall|i: int|
                0 <= i < after(reader.requests(), q0.len() as int).len() ==> #[trigger] after(
                    reader.requests(),
                    q0.len() as int,
                )[i] == 16,
            offset == 16 * after(reader.pulled(), p0.len() as int).len(),
        decreases u64::MAX - offset,
    {
        let ghost p_before = reader.pulled();
        let ghost q_before = reader.requests();
        let ghost w_before = writer.handed();
        let res = reader.read(&mut buf);
        assert(after(reader.requests(), q0.len() as int) =~= after(q_before, q0.len() as int).push(
            16,
        ));
        let n = match res {
            Ok(n) => n,
            Err(e) => {
                assert(after(reader.pulled(), p0.len() as int) =~= after(p_before, p0.len() as int));
                return Err(DumpError::Read(e));
            },
        };
        let ghost prev = after(p_before, p0.len() as int);
        let ghost chunks = after(reader.pulled(), p0.len() as int);
        assert(chunks =~= prev.push(buf@.take(n as int)));
        assert(chunks.drop_last() =~= prev);
        if n == 0 {
            return Ok(());
        }
        let chunk = front(&buf, n);
        assert(data_chunks(chunks)) by {
            assert forall|i: int| 0 <= i < chunks.len() implies 1 <= #[trigger] chunks[i].len()
                <= 16 by {
                if i < prev.len() {
                    assert(chunks[i] == prev[i]);
                }
            }
        }
        let line = gen_info(chunk.as_slice(), (offset % 0x1_0000_0000) as u32);
        assert(line@ == line_of(chunks[prev.len() as int], chunk_offset(prev.len() as int)));
        let wres = writer.write_line(line.as_str());
        assert(after(writer.handed(), w0.len() as int) =~= after(w_before, w0.len() as int).push(
            line@,
        ));
        assert(after(writer.handed(), w0.len() as int) =~= dump_lines(chunks));
        match wres {
            Ok(()) => {},
            Err(e) => {
                return Err(DumpError::Write(e));
            },
        }
        if offset > u64::MAX - 16 {
            return Err(DumpError::Overflow);
        }
        offset = offset + 16;
    }
}

/// The offsets of a run start at zero and grow by exactly sixteen from one
/// chunk to the next, whatever the chunks' lengths, for as long as they fit
/// in 32 bits.
pub proof fn lemma_offset_stride(i: int)
    requires
        0 <= i,
        16 * (i + 1) < 0x1_0000_0000,
    ensures
        chunk_offset(0) == 0,
        chunk_offset(i) == 16 * i,
        chunk_offset(i + 1) == chunk_offset(i) + 16,
{
}

/// A chunk of no bytes is the last one that a run pulls: the run then
/// succeeds, having made one read per chunk and handed the writer one line
/// for each chunk before it.
pub proof fn lemma_empty_chunk_ends_run(
    chunks: Seq<Seq<u8>>,
    asked: Seq<nat>,
    lines: Seq<Seq<char>>,
    r: Result<(), DumpError>,
    k: int,
)
    requires
        run_outcome(chunks, asked, lines, r),
        0 <= k < chunks.len(),
        chunks[k].len() == 0,
    ensures
        k == chunks.len() - 1,
        r is Ok,
        asked.len() == k + 1,
        lines == dump_lines(chunks.take(k)),
{
    if r matches Ok(()) && k < chunks.len() - 1 {
        assert(chunks.drop_last()[k] == chunks[k]);
    }
    assert(chunks.take(k) =~= chunks.drop_last());
}

/// A run stopped by an error on its `k`-th chunk has made exactly `k` calls
/// on the failing side, and the lines completed are those of the `k - 1`
/// chunks before it: a failed read follows `k - 1` reads and lines, a failed
/// write is the `k`-th line after `k` reads.
pub proof fn lemma_error_stops_run(
    chunks: Seq<Seq<u8>>,
    asked: Seq<nat>,
    lines: Seq<Seq<char>>,
    r: Result<(), DumpError>,
)
    requires
        run_outcome(chunks, asked, lines, r),
    ensures
        r matches Err(DumpError::Read(_)) ==> {
            &&& asked.len() == chunks.len() + 1
            &&& lines.len() == chunks.len()
            &&& lines == dump_lines(chunks)
        },
        r matches Err(DumpError::Write(_)) ==> {
            &&& asked.len() == chunks.len()
            &&& lines.len() == chunks.len()
            &&& lines.drop_last() == dump_lines(chunks.take(chunks.len() - 1))
        },
{
    if r matches Err(DumpError::Write(_)) {
        assert(lines.drop_last() =~= dump_lines(chunks.take(chunks.len() - 1)));
    }
}

} // verus!

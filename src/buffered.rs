//! The buffered reader and writer, and the regions they keep.
use vstd::prelude::*;

use crate::read::{delivered, lemma_reads_deliver_stream, read_step};
use crate::write::Write;
use crate::error::Error;

pub mod bufreader;
pub mod bufwriter;

pub use self::bufreader::BufReader;
pub use self::bufwriter::BufWriter;

verus! {

/// Chunks joined in order.
pub open spec fn joined(chunks: Seq<Seq<u8>>) -> Seq<u8>
    decreases chunks.len(),
{
    if chunks.len() == 0 {
        Seq::empty()
    } else {
        joined(chunks.drop_last()) + chunks.last()
    }
}

/// Writes that each append one chunk append the chunks joined.
proof fn lemma_appends_join(sent: Seq<Seq<u8>>, chunks: Seq<Seq<u8>>)
    requires
        sent.len() == chunks.len() + 1,
        forall|i: int| 0 <= i < chunks.len() ==> #[trigger] sent[i + 1] == sent[i] + chunks[i],
    ensures
        sent.last() == sent[0] + joined(chunks),
    decreases chunks.len(),
{
    if chunks.len() == 0 {
        assert(sent[0] + joined(chunks) =~= sent[0]);
    } else {
        let k = chunks.len() as int;
        let s2 = sent.drop_last();
        let c2 = chunks.drop_last();
        assert forall|i: int| 0 <= i < c2.len() implies #[trigger] s2[i + 1] == s2[i] + c2[i] by {
            assert(sent[i + 1] == sent[i] + chunks[i]);
        }
        lemma_appends_join(s2, c2);
        assert(sent[k] == sent[k - 1] + chunks[k - 1]);
        assert(sent.last() =~= sent[0] + joined(chunks));
    }
}

/// Round trip: bytes written through a `BufWriter` into a vector, in chunks
/// of any sizes, and flushed, come back exactly as written when the vector
/// is read through reads of any sizes, up to the end of the stream.
///
/// `sent[i]` is what the writer had taken before `write_all` of
/// `chunks[i]`, and `sent.last()` what it had taken after the last one;
/// `flushed` is the writer after a successful flush. The reads are as in
/// `lemma_reads_deliver_stream`, starting from the vector's bytes.
pub proof fn lemma_round_trip(
    sent: Seq<Seq<u8>>,
    chunks: Seq<Seq<u8>>,
    flushed: BufWriter<Vec<u8>>,
    pending: Seq<Seq<u8>>,
    rooms: Seq<int>,
    outs: Seq<Seq<u8>>,
    counts: Seq<usize>,
)
    requires
        sent.len() == chunks.len() + 1,
        forall|i: int| 0 <= i < chunks.len() ==> #[trigger] sent[i + 1] == sent[i] + chunks[i],
        flushed.sent() == sent.last(),
        flushed.stage().contents().len() == 0,
        pending.len() == counts.len() + 1,
        rooms.len() == counts.len(),
        outs.len() == counts.len(),
        pending[0] == flushed.sink()@,
        forall|i: int| 0 <= i < counts.len() ==> read_step(
            #[trigger] pending[i],
            pending[i + 1],
            rooms[i],
            outs[i],
            Ok::<usize, Error>(counts[i]),
        ),
        counts.len() > 0,
        counts.last() == 0,
        rooms.last() > 0,
    ensures
        delivered(outs, counts) == sent[0] + joined(chunks),
{
    lemma_appends_join(sent, chunks);
    assert(flushed.sent() =~= flushed.sink()@);
    lemma_reads_deliver_stream(pending, rooms, outs, counts);
}

} // verus!

//! A held SSE stream: what it has carried so far, however its bytes arrived.

use vstd::prelude::*;

use crate::acp_wire::{
    are_lines, lemma_stream_reads_back, message_views, payload_views, payloads, sse_payloads,
    sse_stream,
};
use crate::json::{json_document, parse_document, Json, JsonView};

verus! {

/// The documents among a list of payloads, in order.  A payload that is no
/// document is passed over.
pub open spec fn documents_of(list: Seq<Seq<u8>>) -> Seq<JsonView>
    decreases list.len(),
{
    if list.len() == 0 {
        Seq::empty()
    } else {
        let front = documents_of(list.drop_last());
        match json_document(list.last()) {
            Some(document) => front.push(document),
            None => front,
        }
    }
}

/// The documents of two lists of payloads are those of the one and then those
/// of the other.
pub proof fn lemma_documents_of_two(first: Seq<Seq<u8>>, second: Seq<Seq<u8>>)
    ensures
        documents_of(first + second) == documents_of(first) + documents_of(second),
    decreases second.len(),
{
    if second.len() == 0 {
        assert(first + second =~= first);
        assert(documents_of(first) + Seq::<JsonView>::empty() =~= documents_of(first));
    } else {
        lemma_documents_of_two(first, second.drop_last());
        assert((first + second).drop_last() =~= first + second.drop_last());
        assert((first + second).last() == second.last());
        assert(documents_of(first + second) =~= documents_of(first) + documents_of(second));
    }
}

/// The reader of a held stream.
pub struct SseReader {
    buffer: Vec<u8>,
    taken: usize,
    seen: Vec<Json>,
}

/// The model of the reader: the bytes received, the payloads taken from them,
/// and the messages seen.
pub struct ReaderView {
    pub received: Seq<u8>,
    pub taken: nat,
    pub seen: Seq<JsonView>,
}

impl View for SseReader {
    type V = ReaderView;

    closed spec fn view(&self) -> ReaderView {
        ReaderView {
            received: self.buffer@,
            taken: self.taken as nat,
            seen: message_views(self.seen@),
        }
    }
}

/// The reader after one more piece of the stream: payloads that were not there
/// before are taken, and the documents among them are seen.
pub open spec fn after_piece(reader: ReaderView, piece: Seq<u8>) -> ReaderView {
    let received = reader.received + piece;
    let all = payloads(received);
    if all.len() > reader.taken {
        ReaderView {
            received,
            taken: all.len(),
            seen: reader.seen + documents_of(all.skip(reader.taken as int)),
        }
    } else {
        ReaderView { received, ..reader }
    }
}

impl SseReader {
    /// A reader that has received nothing.
    pub fn new() -> (reader: Self)
        ensures
            reader@ == (ReaderView { received: Seq::empty(), taken: 0, seen: Seq::empty() }),
    {
        let reader = SseReader { buffer: Vec::new(), taken: 0, seen: Vec::new() };
        assert(message_views(reader.seen@) =~= Seq::<JsonView>::empty());
        reader
    }

    /// Takes in one piece of the stream.
    pub fn accept(&mut self, piece: &[u8])
        ensures
            final(self)@ == after_piece(old(self)@, piece@),
    {
        let ghost first = self@;
        self.buffer.extend_from_slice(piece);
        assert(self.buffer@ =~= first.received + piece@);
        let found = sse_payloads(self.buffer.as_slice());
        let ghost all = payloads(self.buffer@);
        assert(payload_views(found@) == all);
        assert(all.len() == found.len());
        if found.len() > self.taken {
            let ghost fresh = all.skip(first.taken as int);
            let mut i: usize = self.taken;
            assert(fresh.take(0) =~= Seq::<Seq<u8>>::empty());
            assert(first.seen + Seq::<JsonView>::empty() =~= first.seen);
            while i < found.len()
                invariant
                    first.taken <= i <= found.len(),
                    first.taken == self.taken,
                    self.buffer@ == first.received + piece@,
                    all == payload_views(found@),
                    fresh == all.skip(first.taken as int),
                    message_views(self.seen@) == first.seen + documents_of(
                        fresh.take(i - first.taken),
                    ),
                decreases found.len() - i,
            {
                let ghost before = self.seen@;
                let ghost count = i - first.taken;
                proof {
                    assert(all[i as int] == found@[i as int]@);
                    assert(fresh[count] == all[i as int]);
                    assert(fresh.take(count + 1).drop_last() =~= fresh.take(count));
                    assert(fresh.take(count + 1).last() == fresh[count]);
                }
                match parse_document(found[i].as_slice()) {
                    Some(message) => {
                        self.seen.push(message);
                        assert(message_views(self.seen@) =~= message_views(before).push(message@));
                        assert(message_views(self.seen@) =~= first.seen + documents_of(
                            fresh.take(count + 1),
                        ));
                    },
                    None => {},
                }
                i += 1;
            }
            assert(fresh.take(i - first.taken) =~= fresh);
            self.taken = found.len();
        }
    }

    /// The messages seen so far, in the order in which they arrived.
    pub fn seen(&self) -> (messages: &Vec<Json>)
        ensures
            message_views(messages@) == self@.seen,
    {
        &self.seen
    }
}

/// The reader has seen the documents of the first messages of a stream, and of
/// no other.
pub open spec fn follows(reader: ReaderView, list: Seq<Seq<u8>>) -> bool {
    &&& reader.taken <= list.len()
    &&& reader.seen == documents_of(list.take(reader.taken as int))
}

/// However a stream of messages is cut into pieces, the reader has seen the
/// documents of its first messages after each of them, each once and in
/// order; and with the whole stream received it has seen all of them.
pub proof fn lemma_reader_follows_stream(
    reader: ReaderView,
    list: Seq<Seq<u8>>,
    piece: Seq<u8>,
    received: int,
)
    requires
        are_lines(list),
        0 <= received <= sse_stream(list).len(),
        reader.received + piece == sse_stream(list).take(received),
        follows(reader, list),
    ensures
        follows(after_piece(reader, piece), list),
        reader.taken <= after_piece(reader, piece).taken,
        received == sse_stream(list).len() ==> after_piece(reader, piece).seen == documents_of(
            list,
        ),
{
    let bytes = sse_stream(list).take(received);
    lemma_stream_reads_back(list, received);
    let k = choose|k: int| 0 <= k <= list.len() && #[trigger] list.take(k) == payloads(bytes);
    let all = payloads(bytes);
    assert(all.len() == k);
    if k > reader.taken {
        let taken = reader.taken as int;
        assert(list.take(k) =~= list.take(taken) + all.skip(taken));
        lemma_documents_of_two(list.take(taken), all.skip(taken));
    }
    if received == sse_stream(list).len() {
        assert(all == list);
        assert(list.take(list.len() as int) =~= list);
    }
}

/// One payload gives its document, and nothing where it is no document.
pub proof fn lemma_document_of_one(payload: Seq<u8>)
    ensures
        json_document(payload) matches Some(document) ==> documents_of(seq![payload]) == seq![
            document,
        ],
        json_document(payload) is None ==> documents_of(seq![payload]).len() == 0,
{
    reveal_with_fuel(documents_of, 2);
    assert(seq![payload].drop_last() =~= Seq::empty());
    if json_document(payload) is Some {
        assert(documents_of(seq![payload]) =~= seq![json_document(payload)->Some_0]);
    }
}

} // verus!

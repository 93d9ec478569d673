//! The ingestion pipeline.
//!
//! A sync run streams the dataset's bytes in chunk by chunk; the run
//! splits them into lines, skips the header row, decodes every complete
//! row, stages the records that decode, and counts the rows that do not —
//! a malformed row is never fatal. Nothing is visible to readers until
//! the run completes: only then is the destination table replaced, in one
//! step, by the staged records. A run that fails leaves the store exactly
//! as it was, so a reader observes either the complete prior dataset or
//! the complete new one, never a mixture.
//!
//! The byte-level behaviour is specified as a state machine
//! ([`spec_byte_step`]) folded over the input ([`spec_run`]), so what a
//! run stages depends only on the bytes, not on how the network happened
//! to chunk them.

use vstd::prelude::*;

use crate::error::Error;
use crate::parse::parse_row;
use crate::parse::spec_fields;
use crate::parse::spec_parse_row;
use crate::parse::spec_trim;
use crate::parse::split_row;
use crate::parse::trim_bytes;
use crate::station::StationModel;
use crate::station::StationRecord;
use crate::station::models;
use crate::store::StationStore;

verus! {

/// What the fetch stage hands the pipeline: a chunk of bytes, or the
/// failure of the connection.
pub enum SyncEvent {
    Chunk(Vec<u8>),
    NetworkError(Vec<u8>),
}

/// Spec-level state of an ingestion run.
#[verifier::ext_equal]
pub struct IngestModel {
    /// The header row has been consumed.
    pub header_done: bool,
    /// The bytes of the current, still unterminated line.
    pub buf: Seq<u8>,
    /// The records staged so far, in row order.
    pub records: Seq<StationModel>,
    /// How many malformed rows were skipped.
    pub skipped: int,
}

/// The state before any byte.
pub open spec fn spec_init() -> IngestModel {
    IngestModel { header_done: false, buf: Seq::empty(), records: Seq::empty(), skipped: 0 }
}

/// One completed line: the first line is the header; a blank line is
/// ignored; any other line either stages a record or counts as skipped.
pub open spec fn spec_line_step(st: IngestModel, line: Seq<u8>) -> IngestModel {
    if !st.header_done {
        IngestModel { header_done: true, buf: Seq::empty(), ..st }
    } else if spec_trim(line).len() == 0 {
        IngestModel { buf: Seq::empty(), ..st }
    } else {
        match spec_parse_row(spec_fields(line)) {
            Ok(m) => IngestModel { buf: Seq::empty(), records: st.records.push(m), ..st },
            Err(_) => IngestModel { buf: Seq::empty(), skipped: st.skipped + 1, ..st },
        }
    }
}

/// One byte: a newline completes the buffered line, any other byte
/// extends it.
pub open spec fn spec_byte_step(st: IngestModel, b: u8) -> IngestModel {
    if b == 10 {
        spec_line_step(st, st.buf)
    } else {
        IngestModel { buf: st.buf.push(b), ..st }
    }
}

/// The state after consuming `bytes`, byte by byte.
pub open spec fn spec_run(st: IngestModel, bytes: Seq<u8>) -> IngestModel
    decreases bytes.len(),
{
    if bytes.len() == 0 {
        st
    } else {
        spec_run(spec_byte_step(st, bytes[0]), bytes.drop_first())
    }
}

/// The end of the stream: a final unterminated line is a row too.
pub open spec fn spec_finish(st: IngestModel) -> IngestModel {
    if st.buf.len() > 0 {
        spec_line_step(st, st.buf)
    } else {
        st
    }
}

/// What a whole byte stream stages.
pub open spec fn spec_ingest(bytes: Seq<u8>) -> IngestModel {
    spec_finish(spec_run(spec_init(), bytes))
}

/// Consuming one more byte is one more step.
proof fn lemma_run_snoc(st: IngestModel, bytes: Seq<u8>, b: u8)
    ensures
        spec_run(st, bytes.push(b)) == spec_byte_step(spec_run(st, bytes), b),
    decreases bytes.len(),
{
    if bytes.len() == 0 {
        assert(bytes.push(b).drop_first() =~= Seq::<u8>::empty());
        assert(bytes.push(b)[0] == b);
        assert(spec_run(spec_byte_step(st, b), Seq::<u8>::empty()) == spec_byte_step(st, b));
    } else {
        assert(bytes.push(b).drop_first() =~= bytes.drop_first().push(b));
        assert(bytes.push(b)[0] == bytes[0]);
        lemma_run_snoc(spec_byte_step(st, bytes[0]), bytes.drop_first(), b);
    }
}

/// A run counts and stages at most one row per byte.
proof fn lemma_run_bounds(st: IngestModel, bytes: Seq<u8>)
    ensures
        spec_run(st, bytes).skipped <= st.skipped + bytes.len(),
        st.skipped <= spec_run(st, bytes).skipped,
    decreases bytes.len(),
{
    if bytes.len() > 0 {
        lemma_run_bounds(spec_byte_step(st, bytes[0]), bytes.drop_first());
    }
}

/// The ingestion run: feed it the stream's bytes chunk by chunk, then
/// commit. Rows are staged privately; the store changes only at
/// [`Ingestor::finish`].
pub struct Ingestor {
    header_done: bool,
    buf: Vec<u8>,
    staged: Vec<StationRecord>,
    skipped: u64,
    consumed: Ghost<Seq<u8>>,
}

impl Ingestor {
    /// The bytes fed so far.
    pub closed spec fn bytes_fed(&self) -> Seq<u8> {
        self.consumed@
    }

    /// The run's state agrees with the spec machine on the bytes fed.
    pub closed spec fn inv(&self) -> bool {
        let st = spec_run(spec_init(), self.consumed@);
        &&& self.header_done == st.header_done
        &&& self.buf@ == st.buf
        &&& models(self.staged@) == st.records
        &&& self.skipped as int == st.skipped
        &&& self.consumed@.len() < u64::MAX
    }

    /// A fresh run: nothing fed, nothing staged.
    pub fn new() -> (r: Ingestor)
        ensures
            r.inv(),
            r.bytes_fed() == Seq::<u8>::empty(),
    {
        let r = Ingestor {
            header_done: false,
            buf: Vec::new(),
            staged: Vec::new(),
            skipped: 0,
            consumed: Ghost(Seq::empty()),
        };
        assert(models(r.staged@) =~= Seq::<StationModel>::empty());
        r
    }

    /// How many rows were skipped as malformed so far.
    pub fn skipped_rows(&self) -> (r: u64)
        requires
            self.inv(),
        ensures
            r as int == spec_run(spec_init(), self.bytes_fed()).skipped,
    {
        self.skipped
    }

    /// How many records are staged so far.
    pub fn staged_rows(&self) -> (r: usize)
        requires
            self.inv(),
        ensures
            r as int == spec_run(spec_init(), self.bytes_fed()).records.len(),
    {
        self.staged.len()
    }

    /// Completes the buffered line.
    fn take_line(&mut self)
        requires
            old(self).inv(),
        ensures
            final(self).consumed@ == old(self).consumed@,
            ({
                let st = spec_run(spec_init(), old(self).consumed@);
                let stepped = spec_line_step(st, st.buf);
                &&& final(self).header_done == stepped.header_done
                &&& final(self).buf@ == Seq::<u8>::empty()
                &&& models(final(self).staged@) == stepped.records
                &&& final(self).skipped as int == stepped.skipped
            }),
    {
        proof {
            lemma_run_bounds(spec_init(), self.consumed@);
        }
        if !self.header_done {
            self.header_done = true;
            self.buf.clear();
            return ;
        }
        let t = trim_bytes(&self.buf);
        if t.len() == 0 {
            self.buf.clear();
            return ;
        }
        let fields = split_row(&self.buf);
        proof {
            assert(crate::parse::fields_view(fields@) =~= spec_fields(self.buf@));
        }
        match parse_row(&fields) {
            Ok(rec) => {
                let ghost staged_before = self.staged@;
                self.staged.push(rec);
                proof {
                    assert(models(self.staged@) =~= models(staged_before).push(rec@));
                }
            },
            Err(_) => {
                self.skipped = self.skipped + 1;
            },
        }
        self.buf.clear();
    }

    /// Feeds one chunk of the stream. How the stream is chunked does not
    /// matter: the state after depends only on the bytes fed so far.
    pub fn push_chunk(&mut self, chunk: &Vec<u8>)
        requires
            old(self).inv(),
            old(self).bytes_fed().len() + chunk@.len() < u64::MAX,
        ensures
            final(self).inv(),
            final(self).bytes_fed() == old(self).bytes_fed() + chunk@,
    {
        let ghost start = self.consumed@;
        let mut i: usize = 0;
        while i < chunk.len()
            invariant
                i <= chunk@.len(),
                self.inv(),
                start.len() + chunk@.len() < u64::MAX,
                self.consumed@ == start + chunk@.take(i as int),
            decreases chunk@.len() - i,
        {
            let b = chunk[i];
            proof {
                lemma_run_snoc(spec_init(), self.consumed@, b);
                assert((start + chunk@.take(i as int)).push(b) =~= start + chunk@.take(
                    i + 1 as int,
                ));
            }
            let ghost st = spec_run(spec_init(), self.consumed@);
            if b == 10 {
                self.take_line();
                proof {
                    self.consumed = Ghost(self.consumed@.push(b));
                }
            } else {
                self.buf.push(b);
                proof {
                    self.consumed = Ghost(self.consumed@.push(b));
                }
            }
            i = i + 1;
        }
        proof {
            assert(start + chunk@.take(chunk@.len() as int) =~= start + chunk@);
        }
    }

    /// Commits the run: a final unterminated row is decoded too, then the
    /// destination table is replaced, in one step, by the staged records.
    /// Returns how many records were inserted and how many rows were
    /// skipped.
    pub fn finish(self, store: &mut StationStore) -> (r: (usize, u64))
        requires
            self.inv(),
        ensures
            final(store)@ == spec_ingest(self.bytes_fed()).records,
            r.0 as int == spec_ingest(self.bytes_fed()).records.len(),
            r.1 as int == spec_ingest(self.bytes_fed()).skipped,
    {
        let mut this = self;
        proof {
            lemma_run_bounds(spec_init(), this.consumed@);
        }
        if this.buf.len() > 0 {
            this.take_line();
        }
        let skipped = this.skipped;
        let count = store.replace_all(this.staged);
        (count, skipped)
    }
}

/// Every chunk of the stream, in order, as one byte sequence.
pub open spec fn spec_all_bytes(events: Seq<SyncEvent>) -> Seq<u8>
    decreases events.len(),
{
    if events.len() == 0 {
        Seq::empty()
    } else {
        (match events[0] {
            SyncEvent::Chunk(c) => c@,
            SyncEvent::NetworkError(_) => Seq::empty(),
        }) + spec_all_bytes(events.drop_first())
    }
}

/// The stream failed somewhere.
pub open spec fn spec_has_failure(events: Seq<SyncEvent>) -> bool {
    exists|i: int| 0 <= i < events.len() && events[i] is NetworkError
}

proof fn lemma_all_bytes_snoc(events: Seq<SyncEvent>, e: SyncEvent)
    ensures
        spec_all_bytes(events.push(e)) == spec_all_bytes(events) + (match e {
            SyncEvent::Chunk(c) => c@,
            SyncEvent::NetworkError(_) => Seq::empty(),
        }),
    decreases events.len(),
{
    let tail = match e {
        SyncEvent::Chunk(c) => c@,
        SyncEvent::NetworkError(_) => Seq::<u8>::empty(),
    };
    if events.len() == 0 {
        assert(events.push(e)[0] == e);
        assert(events.push(e).drop_first() =~= Seq::<SyncEvent>::empty());
        assert(spec_all_bytes(Seq::<SyncEvent>::empty()) =~= Seq::<u8>::empty());
        assert(spec_all_bytes(events.push(e)) =~= spec_all_bytes(events) + tail);
    } else {
        assert(events.push(e)[0] == events[0]);
        assert(events.push(e).drop_first() =~= events.drop_first().push(e));
        lemma_all_bytes_snoc(events.drop_first(), e);
        assert(spec_all_bytes(events.push(e)) =~= spec_all_bytes(events) + tail);
    }
}

proof fn lemma_all_bytes_prefix_len(events: Seq<SyncEvent>, i: int)
    requires
        0 <= i <= events.len(),
    ensures
        spec_all_bytes(events.take(i)).len() <= spec_all_bytes(events).len(),
    decreases events.len() - i,
{
    if i < events.len() {
        lemma_all_bytes_snoc(events.take(i), events[i]);
        assert(events.take(i).push(events[i]) =~= events.take(i + 1));
        lemma_all_bytes_prefix_len(events, i + 1);
    } else {
        assert(events.take(i) =~= events);
    }
}

/// One full sync run over a stream of fetch events. On success the
/// destination holds exactly the records the byte stream stages, and the
/// count of inserted records is returned; row-level failures are skipped,
/// not fatal. On a network failure nothing is written: the store is left
/// exactly as it was.
pub fn run_sync(events: &Vec<SyncEvent>, store: &mut StationStore) -> (r: Result<usize, Error>)
    requires
        spec_all_bytes(events@).len() < u64::MAX,
    ensures
        match r {
            Ok(count) => {
                &&& !spec_has_failure(events@)
                &&& final(store)@ == spec_ingest(spec_all_bytes(events@)).records
                &&& count as int == spec_ingest(spec_all_bytes(events@)).records.len()
            },
            Err(e) => {
                &&& spec_has_failure(events@)
                &&& final(store)@ == old(store)@
                &&& e is HttpClient
            },
        },
{
    let mut ing = Ingestor::new();
    let mut i: usize = 0;
    while i < events.len()
        invariant
            i <= events@.len(),
            ing.inv(),
            ing.bytes_fed() == spec_all_bytes(events@.take(i as int)),
            spec_all_bytes(events@).len() < u64::MAX,
            forall|k: int| 0 <= k < i ==> !(#[trigger] events@[k] is NetworkError),
        decreases events@.len() - i,
    {
        proof {
            lemma_all_bytes_snoc(events@.take(i as int), events@[i as int]);
            assert(events@.take(i as int).push(events@[i as int]) =~= events@.take(
                i + 1 as int,
            ));
            lemma_all_bytes_prefix_len(events@, i + 1);
        }
        match &events[i] {
            SyncEvent::Chunk(c) => {
                ing.push_chunk(c);
            },
            SyncEvent::NetworkError(msg) => {
                return Err(Error::HttpClient(crate::station::clone_bytes(msg)));
            },
        }
        i = i + 1;
    }
    proof {
        assert(events@.take(events@.len() as int) =~= events@);
        if spec_has_failure(events@) {
            let k = choose|k: int| 0 <= k < events@.len() && events@[k] is NetworkError;
            assert(!(events@[k] is NetworkError));
        }
    }
    let (count, _skipped) = ing.finish(store);
    Ok(count)
}

} // verus!

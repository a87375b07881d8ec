//! The producer side of loading: lines go through the parser, a line that
//! does not parse continues the row before it, and finished rows leave in
//! batches of a fixed size.

use smallvec::SmallVec;
use std::sync::atomic::AtomicU64;
use vstd::prelude::*;

use crate::db::{last_text_index, stored_text};
use crate::parse::{
    bytes_of, lemma_parsed_values_readable, value_range, parse_spec, row_values_of, value_readable,
    ParsedRowValue, Parser, ParserInstruction, Row,
};

verus! {

// ---------------------------------------------------------------- progress

/// Counters of a load, written by the loading threads and read by anyone.
#[derive(Default)]
pub struct LoadingProgress {
    pub total_bytes: AtomicU64,
    pub parsed_bytes: AtomicU64,
    pub rows_parsed: AtomicU64,
    pub rows_inserted: AtomicU64,
}

// ---------------------------------------------------------------- byte-order mark

/// `h[from..]` begins with the bytes `p`.
pub open spec fn bytes_at(h: Seq<u8>, from: int, p: Seq<u8>) -> bool {
    h.len() >= from + p.len() && h.subrange(from, from + p.len()) == p
}

/// Length of the byte-order mark that a file's first bytes begin with (0 for
/// none): UTF-32 BE, SCSU, UTF-7, GB 18030, UTF-EBCDIC, UTF-8, UTF-1, BOCU-1,
/// UTF-16 BE, and UTF-32 LE before UTF-16 LE.
pub open spec fn bom_length(h: Seq<u8>) -> nat {
    if h.len() < 2 {
        0
    } else if h[0] == 0x00u8 {
        if bytes_at(h, 1, seq![0x00u8, 0xFEu8, 0xFFu8]) { 4 } else { 0 }
    } else if h[0] == 0x0Eu8 {
        if bytes_at(h, 1, seq![0xFEu8, 0xFFu8]) { 3 } else { 0 }
    } else if h[0] == 0x2Bu8 {
        if h.len() >= 4 && h[1] == 0x2Fu8 && h[2] == 0x76u8 && (h[3] == 0x38u8 || h[3] == 0x39u8
            || h[3] == 0x2Bu8 || h[3] == 0x2Fu8) {
            4
        } else {
            0
        }
    } else if h[0] == 0x84u8 {
        if bytes_at(h, 1, seq![0x31u8, 0x95u8, 0x33u8]) { 4 } else { 0 }
    } else if h[0] == 0xDDu8 {
        if bytes_at(h, 1, seq![0x73u8, 0x66u8, 0x73u8]) { 4 } else { 0 }
    } else if h[0] == 0xEFu8 {
        if bytes_at(h, 1, seq![0xBBu8, 0xBFu8]) { 3 } else { 0 }
    } else if h[0] == 0xF7u8 {
        if bytes_at(h, 1, seq![0x64u8, 0x4Cu8]) { 3 } else { 0 }
    } else if h[0] == 0xFBu8 {
        if bytes_at(h, 1, seq![0xEEu8, 0x28u8]) { 3 } else { 0 }
    } else if h[0] == 0xFEu8 {
        if h[1] == 0xFFu8 { 2 } else { 0 }
    } else if h[0] == 0xFFu8 {
        if h[1] == 0xFEu8 {
            if bytes_at(h, 2, seq![0x00u8, 0x00u8]) { 4 } else { 2 }
        } else {
            0
        }
    } else {
        0
    }
}

/// Relies on unicode-bom's `Bom::from(&[u8])` and `Bom::len`: the mark that
/// the bytes begin with, by the byte patterns that `bom_length` lists, and
/// its length.
#[verifier::external_body]
fn detect_bom(head: &[u8]) -> (r: usize)
    ensures
        r == bom_length(head@),
{
    unicode_bom::Bom::from(head).len()
}

/// Where the text of a file starts, given its first bytes: after its
/// byte-order mark, if it has one.
pub fn content_start(head: &[u8]) -> (r: usize)
    ensures
        r == bom_length(head@),
        r <= head@.len(),
        head@.len() >= 3 && head@[0] == 0xEFu8 && head@[1] == 0xBBu8 && head@[2] == 0xBFu8 ==> r
            == 3,
{
    let r = detect_bom(head);
    proof {
        if head@.len() >= 3 && head@[0] == 0xEFu8 && head@[1] == 0xBBu8 && head@[2] == 0xBFu8 {
            assert(head@.subrange(1, 3) =~= seq![0xBBu8, 0xBFu8]);
        }
    }
    r
}

// ---------------------------------------------------------------- batches

/// Rows that travel together from the producer to the store writer.
#[verifier::external_body]
pub struct RowBatch {
    inner: SmallVec<[Row; 16]>,
}

/// The rows of a batch, in order.
pub uninterp spec fn batch_rows(b: RowBatch) -> Seq<Row>;

/// Relies on `SmallVec::from_vec`: the same items, in the same order.
#[verifier::external_body]
fn batch_from_vec(v: Vec<Row>) -> (r: RowBatch)
    ensures
        batch_rows(r) == v@,
{
    RowBatch { inner: SmallVec::from_vec(v) }
}

/// Relies on `SmallVec::as_slice`: the items in order.
#[verifier::external_body]
fn batch_slice(b: &RowBatch) -> (r: &[Row])
    ensures
        r@ == batch_rows(*b),
{
    b.inner.as_slice()
}

impl RowBatch {
    /// The rows of the batch, in order.
    pub fn rows(&self) -> (r: &[Row])
        ensures
            r@ == batch_rows(*self),
    {
        batch_slice(self)
    }

    /// The number of rows in the batch.
    pub fn len(&self) -> (r: usize)
        ensures
            r == batch_rows(*self).len(),
    {
        batch_slice(self).len()
    }
}

// ---------------------------------------------------------------- producer

pub open spec fn effective_batch_size(batch_size: usize) -> nat {
    if batch_size == 0 {
        1
    } else {
        batch_size as nat
    }
}

/// A row as its line, its values and its continuation text.
pub type RowModel = (Seq<char>, Seq<ParsedRowValue>, Seq<char>);

pub open spec fn row_model(r: Row) -> RowModel {
    (r.line@, row_values_of(r.values), r.continuation@)
}

pub open spec fn rows_model(rows: Seq<Row>) -> Seq<RowModel> {
    rows.map_values(|r: Row| row_model(r))
}

/// The rows after one more line: a line that parses starts a row with no
/// continuation; one that does not is appended to the continuation of the
/// last row, which belongs to that row's last string field (the line is
/// dropped where there is no row yet).
pub open spec fn next_rows(rows: Seq<RowModel>, ins: Seq<ParserInstruction>, line: Seq<char>) -> Seq<RowModel> {
    match parse_spec(ins, bytes_of(line)) {
        Ok(values) => rows.push((line, values, Seq::<char>::empty())),
        Err(_) => if rows.len() == 0 {
            rows
        } else {
            rows.update(rows.len() - 1, (rows.last().0, rows.last().1, rows.last().2 + line))
        },
    }
}

/// The rows that the lines of an input make, in order.
pub open spec fn input_rows(ins: Seq<ParserInstruction>, lines: Seq<String>) -> Seq<RowModel>
    decreases lines.len(),
{
    if lines.len() == 0 {
        seq![]
    } else {
        next_rows(input_rows(ins, lines.drop_last()), ins, lines.last()@)
    }
}

/// A count as a `u64`, held at the largest value once it gets there.
pub open spec fn saturated(n: nat) -> u64 {
    if n >= u64::MAX {
        u64::MAX
    } else {
        n as u64
    }
}

/// The producer's state: the last row parsed (which later lines may still
/// continue), the rows of the batch being filled, and counts of the rows
/// parsed and handed out so far.
pub struct Producer {
    parser: Parser,
    batch_size: usize,
    pending: Option<Row>,
    batch: Vec<Row>,
    parsed_rows: u64,
    parsed: Ghost<nat>,
    delivered: Ghost<nat>,
    all_rows: Ghost<Seq<RowModel>>,
    sent: Ghost<Seq<RowModel>>,
}

impl Producer {
    pub closed spec fn instructions(&self) -> Seq<ParserInstruction> {
        self.parser.instructions_view()
    }

    pub closed spec fn batch_size_view(&self) -> usize {
        self.batch_size
    }

    /// The last row parsed, not yet in a batch.
    pub closed spec fn pending_row(&self) -> Option<Row> {
        self.pending
    }

    /// The finished rows of the batch being filled.
    pub closed spec fn batch_view(&self) -> Seq<Row> {
        self.batch@
    }

    /// Rows parsed so far.
    pub closed spec fn parsed_count(&self) -> nat {
        self.parsed@
    }

    pub closed spec fn parsed_counter(&self) -> u64 {
        self.parsed_rows
    }

    /// Rows handed out in batches so far.
    pub closed spec fn delivered_count(&self) -> nat {
        self.delivered@
    }

    /// All rows made so far, in order.
    pub closed spec fn rows_so_far(&self) -> Seq<RowModel> {
        self.all_rows@
    }

    /// The rows handed out so far, in order.
    pub closed spec fn sent_rows(&self) -> Seq<RowModel> {
        self.sent@
    }

    /// Rows held back, in order: the batch being filled, then the pending row.
    pub open spec fn held_rows(&self) -> Seq<RowModel> {
        match self.pending_row() {
            Some(p) => rows_model(self.batch_view()).push(row_model(p)),
            None => rows_model(self.batch_view()),
        }
    }

    /// Rows held back: the batch being filled and the pending row.
    pub open spec fn held_count(&self) -> nat {
        self.batch_view().len() + if self.pending_row() is Some {
            1nat
        } else {
            0nat
        }
    }

    /// Every row parsed is delivered or held, and the batch being filled is
    /// below its size.
    pub open spec fn wf(&self) -> bool {
        &&& self.delivered_count() + self.held_count() == self.parsed_count()
        &&& self.rows_so_far() == self.sent_rows() + self.held_rows()
        &&& self.sent_rows().len() == self.delivered_count()
        &&& (self.pending_row() is Some <==> self.rows_so_far().len() > 0)
        &&& (self.parsed_count() > 0 ==> self.pending_row() is Some)
        &&& self.parsed_counter() == saturated(self.parsed_count())
        &&& self.batch_view().len() < effective_batch_size(self.batch_size_view())
    }

    pub fn new(parser: Parser, batch_size: usize) -> (r: Producer)
        ensures
            r.wf(),
            r.instructions() == parser.instructions_view(),
            r.batch_size_view() == batch_size,
            r.pending_row() is None,
            r.batch_view().len() == 0,
            r.parsed_count() == 0,
            r.delivered_count() == 0,
            r.rows_so_far() == Seq::<RowModel>::empty(),
    {
        Producer {
            parser,
            batch_size,
            pending: None,
            batch: Vec::new(),
            parsed_rows: 0,
            parsed: Ghost(0),
            delivered: Ghost(0),
            all_rows: Ghost(Seq::empty()),
            sent: Ghost(Seq::empty()),
        }
    }

    /// The number of lines parsed so far (held at `u64::MAX`).
    pub fn rows_parsed(&self) -> (r: u64)
        requires
            self.wf(),
        ensures
            r == saturated(self.parsed_count()),
    {
        self.parsed_rows
    }

    /// Takes the next line of the file. A line that parses becomes the
    /// pending row, and the row pending before it joins the batch; a full
    /// batch is handed out. A line that does not parse is appended, whole, to
    /// the pending row's continuation (dropped where no row is pending); the
    /// store writes the continuation at the end of the row's last string
    /// field, whatever that field's end (see `row_to_db_values`). A row
    /// whose fields are all dates or enumeration indices has no field that
    /// can hold text, so its continuation is not stored.
    pub fn feed_line(&mut self, line: String) -> (r: Option<RowBatch>)
        requires
            old(self).wf(),
            bytes_of(line@).len() <= 0x7fff_ffff,
        ensures
            final(self).wf(),
            final(self).instructions() == old(self).instructions(),
            final(self).batch_size_view() == old(self).batch_size_view(),
            final(self).parsed_count() == old(self).parsed_count() + if parse_spec(
                old(self).instructions(),
                bytes_of(line@),
            ) is Ok {
                1nat
            } else {
                0nat
            },
            final(self).delivered_count() == old(self).delivered_count() + match r {
                Some(b) => batch_rows(b).len(),
                None => 0nat,
            },
            final(self).rows_so_far() == next_rows(old(self).rows_so_far(), old(self).instructions(), line@),
            final(self).sent_rows() == old(self).sent_rows() + match r {
                Some(b) => rows_model(batch_rows(b)),
                None => Seq::<RowModel>::empty(),
            },
            r matches Some(b) ==> (batch_rows(b) == old(self).batch_view().push(
                old(self).pending_row()->Some_0,
            ) && batch_rows(b).len() == effective_batch_size(old(self).batch_size_view())),
            parse_spec(old(self).instructions(), bytes_of(line@)) is Ok ==> (final(self).pending_row() matches Some(row)
                && row.line@ == line@ && parse_spec(old(self).instructions(), bytes_of(line@))
                == Ok::<Seq<ParsedRowValue>, crate::parse::ParseError>(row_values_of(row.values))),
            parse_spec(old(self).instructions(), bytes_of(line@)) is Err ==> (r is None
                && final(self).batch_view() == old(self).batch_view() && match old(self).pending_row() {
                None => final(self).pending_row() is None,
                Some(p) => (final(self).pending_row() matches Some(q) && q.line@ == p.line@
                    && row_values_of(q.values) == row_values_of(p.values)
                    && q.continuation@ == p.continuation@ + line@),
            }),
    {
        let ghost line_text = line@;
        let ghost before = self.all_rows@;
        match self.parser.parse_line(line) {
            Ok(row) => {
                let ghost m = row_model(row);
                let mut previous: Option<Row> = Some(row);
                core::mem::swap(&mut previous, &mut self.pending);
                self.parsed = Ghost(self.parsed@ + 1);
                if self.parsed_rows < u64::MAX {
                    self.parsed_rows = self.parsed_rows + 1;
                }
                self.all_rows = Ghost(before.push(m));
                match previous {
                    None => {
                        proof {
                            assert(rows_model(self.batch@) =~= Seq::<RowModel>::empty());
                            assert(self.all_rows@ =~= self.sent@ + self.held_rows());
                        }
                        None
                    },
                    Some(done) => {
                        let ghost old_batch = self.batch@;
                        self.batch.push(done);
                        proof {
                            assert(rows_model(self.batch@) =~= rows_model(old_batch).push(row_model(done)));
                        }
                        if self.batch.len() >= self.batch_size {
                            let mut full: Vec<Row> = Vec::new();
                            core::mem::swap(&mut full, &mut self.batch);
                            let n = full.len();
                            self.delivered = Ghost(self.delivered@ + n as nat);
                            self.sent = Ghost(self.sent@ + rows_model(full@));
                            proof {
                                assert(rows_model(self.batch@) =~= Seq::<RowModel>::empty());
                                assert(self.all_rows@ =~= self.sent@ + self.held_rows());
                            }
                            Some(batch_from_vec(full))
                        } else {
                            proof {
                                assert(self.all_rows@ =~= self.sent@ + self.held_rows());
                            }
                            None
                        }
                    },
                }
            },
            Err(rejected) => {
                let mut current: Option<Row> = None;
                core::mem::swap(&mut current, &mut self.pending);
                match current {
                    None => {},
                    Some(mut row) => {
                        row.continuation.append(rejected.line.as_str());
                        self.pending = Some(row);
                        proof {
                            let last = (before.last().0, before.last().1, before.last().2 + line_text);
                            self.all_rows = Ghost(before.update(before.len() - 1, last));
                            assert(self.all_rows@ =~= self.sent@ + self.held_rows());
                        }
                    },
                }
                None
            },
        }
    }

    /// Ends the file: the batch being filled and the pending row leave
    /// together, in order (an empty batch where nothing is held).
    pub fn finish(self) -> (r: RowBatch)
        requires
            self.wf(),
        ensures
            batch_rows(r) == match self.pending_row() {
                Some(p) => self.batch_view().push(p),
                None => self.batch_view(),
            },
            self.delivered_count() + batch_rows(r).len() == self.parsed_count(),
            self.sent_rows() + rows_model(batch_rows(r)) == self.rows_so_far(),
            self.parsed_count() > 0 ==> batch_rows(r).len() >= 1,
    {
        let mut batch = self.batch;
        match self.pending {
            Some(p) => {
                batch.push(p);
                proof {
                    assert(rows_model(batch@) =~= self.held_rows());
                }
            },
            None => {},
        }
        batch_from_vec(batch)
    }
}

// ---------------------------------------------------------------- whole input

/// The number of lines that parse with the instructions.
pub open spec fn count_parsed(ins: Seq<ParserInstruction>, lines: Seq<String>) -> nat
    decreases lines.len(),
{
    if lines.len() == 0 {
        0
    } else {
        count_parsed(ins, lines.drop_last()) + if parse_spec(ins, bytes_of(lines.last()@)) is Ok {
            1nat
        } else {
            0nat
        }
    }
}

/// The number of rows in a list of batches.
pub open spec fn total_rows(batches: Seq<RowBatch>) -> nat
    decreases batches.len(),
{
    if batches.len() == 0 {
        0
    } else {
        total_rows(batches.drop_last()) + batch_rows(batches.last()).len()
    }
}

/// The rows of a list of batches, in order.
pub open spec fn batches_model(batches: Seq<RowBatch>) -> Seq<RowModel>
    decreases batches.len(),
{
    if batches.len() == 0 {
        seq![]
    } else {
        batches_model(batches.drop_last()) + rows_model(batch_rows(batches.last()))
    }
}

/// Runs the producer over all lines of an input and returns the batches in
/// the order they leave: every row parsed arrives exactly once, all batches
/// but the last are full, and the last holds what remained.
pub fn produce(parser: Parser, lines: &Vec<String>, batch_size: usize) -> (r: Vec<RowBatch>)
    requires
        forall|i: int| 0 <= i < lines@.len() ==> bytes_of((#[trigger] lines@[i])@).len() <= 0x7fff_ffff,
    ensures
        batches_model(r@) == input_rows(parser.instructions_view(), lines@),
        total_rows(r@) == count_parsed(parser.instructions_view(), lines@),
        r@.len() >= 1,
        forall|k: int|
            0 <= k < r@.len() - 1 ==> batch_rows(#[trigger] r@[k]).len() == effective_batch_size(
                batch_size,
            ),
        batch_rows(r@.last()).len() <= effective_batch_size(batch_size),
        count_parsed(parser.instructions_view(), lines@) > 0 ==> batch_rows(r@.last()).len() >= 1,
{
    let ghost ins = parser.instructions_view();
    let mut producer = Producer::new(parser, batch_size);
    let mut out: Vec<RowBatch> = Vec::new();
    let mut i: usize = 0;
    while i < lines.len()
        invariant
            producer.wf(),
            producer.instructions() == ins,
            producer.batch_size_view() == batch_size,
            i <= lines@.len(),
            forall|j: int| 0 <= j < lines@.len() ==> bytes_of((#[trigger] lines@[j])@).len() <= 0x7fff_ffff,
            total_rows(out@) == producer.delivered_count(),
            batches_model(out@) == producer.sent_rows(),
            producer.parsed_count() == count_parsed(ins, lines@.subrange(0, i as int)),
            producer.rows_so_far() == input_rows(ins, lines@.subrange(0, i as int)),
            forall|k: int|
                0 <= k < out@.len() ==> batch_rows(#[trigger] out@[k]).len() == effective_batch_size(
                    batch_size,
                ),
        decreases lines@.len() - i,
    {
        let line = lines[i].clone();
        let ghost before = out@;
        match producer.feed_line(line) {
            Some(b) => {
                out.push(b);
                proof {
                    assert(out@.drop_last() =~= before);
                }
            },
            None => {},
        }
        proof {
            let next = lines@.subrange(0, i as int + 1);
            assert(next.drop_last() =~= lines@.subrange(0, i as int));
            assert(next.last() == lines@[i as int]);
            if out@.len() > before.len() {
                assert(batches_model(out@) =~= batches_model(before) + rows_model(batch_rows(out@.last())));
            }
        }
        i = i + 1;
    }
    proof {
        assert(lines@.subrange(0, lines@.len() as int) =~= lines@);
    }
    let ghost before = out@;
    let last = producer.finish();
    out.push(last);
    proof {
        assert(out@.drop_last() =~= before);
        assert(batches_model(out@) =~= batches_model(before) + rows_model(batch_rows(last)));
    }
    out
}

// ---------------------------------------------------------------- laws

/// All values of a row can be read back from its text.
pub open spec fn row_readable(m: RowModel) -> bool {
    forall|k: int| 0 <= k < m.1.len() ==> value_readable(bytes_of(m.0), #[trigger] m.1[k])
}

/// Every row that the lines of an input make can be stored: all its values
/// can be read back from its line.
pub proof fn lemma_input_rows_readable(ins: Seq<ParserInstruction>, lines: Seq<String>)
    requires
        forall|i: int| 0 <= i < lines.len() ==> bytes_of((#[trigger] lines[i])@).len() <= 0x7fff_ffff,
    ensures
        forall|k: int|
            0 <= k < input_rows(ins, lines).len() ==> row_readable(#[trigger] input_rows(ins, lines)[k]),
    decreases lines.len(),
{
    if lines.len() > 0 {
        let prev = lines.drop_last();
        assert forall|i: int| 0 <= i < prev.len() implies bytes_of((#[trigger] prev[i])@).len() <= 0x7fff_ffff by {
            assert(prev[i] == lines[i]);
        }
        lemma_input_rows_readable(ins, prev);
        let rows = input_rows(ins, prev);
        let line = lines.last()@;
        assert(bytes_of(lines[lines.len() - 1]@).len() <= 0x7fff_ffff);
        match parse_spec(ins, bytes_of(line)) {
            Ok(values) => {
                lemma_parsed_values_readable(ins, line);
                let m = (line, values, Seq::<char>::empty());
                assert(row_readable(m));
                assert forall|k: int| 0 <= k < rows.push(m).len() implies row_readable(
                    #[trigger] rows.push(m)[k],
                ) by {
                    if k < rows.len() {
                        assert(rows.push(m)[k] == rows[k]);
                    }
                }
            },
            Err(_) => {
                if rows.len() > 0 {
                    let last = rows.last();
                    let next = rows.update(rows.len() - 1, (last.0, last.1, last.2 + line));
                    assert forall|k: int| 0 <= k < next.len() implies row_readable(#[trigger] next[k]) by {
                        if k < rows.len() - 1 {
                            assert(next[k] == rows[k]);
                        }
                    }
                }
            },
        }
    }
}

/// A line that parses followed by one that does not make exactly one row:
/// the first line with its values, continued by the whole second line. The
/// row's last field, where it is a string, is stored as its own text
/// followed by the whole second line.
pub proof fn lemma_continuation_makes_one_row(ins: Seq<ParserInstruction>, first: String, next: String)
    requires
        parse_spec(ins, bytes_of(first@)) is Ok,
        parse_spec(ins, bytes_of(next@)) is Err,
    ensures
        input_rows(ins, seq![first, next]) == seq![
            (first@, parse_spec(ins, bytes_of(first@))->Ok_0, next@),
        ],
        ({
            let values = parse_spec(ins, bytes_of(first@))->Ok_0;
            let line = bytes_of(first@);
            let k = values.len() - 1;
            values.len() > 0 && values.last() is String ==> last_text_index(values) == Some(k)
                && stored_text(line, values, next@, k) == line.subrange(
                value_range(line, values[k])->Some_0.0,
                value_range(line, values[k])->Some_0.1,
            ) + bytes_of(next@)
        }),
{
    let lines = seq![first, next];
    assert(lines.drop_last() =~= seq![first]);
    assert(seq![first].drop_last() =~= Seq::<String>::empty());
    let values = parse_spec(ins, bytes_of(first@))->Ok_0;
    let m = (first@, values, Seq::<char>::empty());
    assert(input_rows(ins, Seq::<String>::empty()) =~= Seq::<RowModel>::empty());
    assert(seq![first].last() == first);
    assert(lines.last() == next);
    assert(Seq::<RowModel>::empty().push(m) =~= seq![m]);
    assert(input_rows(ins, seq![first]) =~= seq![m]);
    assert(Seq::<char>::empty() + next@ =~= next@);
    assert(input_rows(ins, lines) =~= seq![(first@, values, next@)]);
}

} // verus!

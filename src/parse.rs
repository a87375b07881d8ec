//! The line parser: a format description compiled into a list of
//! instructions, run once over each line with a scan cursor and a mark.

use vstd::prelude::*;
use vstd::utf8::{encode_utf8, is_char_boundary};
use smallvec::SmallVec;

use crate::config::{LogFormatConfiguration, LogFormatInstruction};
use crate::datetime::{date_value, parse_datetime};

verus! {

/// Display width of a column.
#[derive(Clone, Copy, Debug, PartialEq, Eq, Structural)]
pub enum ColumnWidth {
    Length(u16),
    Percentage(u16),
}

/// Semantic type of a column; an enumeration lists its labels in index order.
#[derive(Clone)]
pub enum ColumnType {
    String,
    Date,
    Enumeration(Vec<String>),
}

#[derive(Clone)]
pub struct ColumnDefinition {
    pub nice_name: String,
    pub column_type: ColumnType,
    pub column_width: ColumnWidth,
}

/// A field value of a parsed line. A string is a byte range of the line;
/// `end == -1` stands for the end of the line.
#[derive(Clone, Copy, Debug, PartialEq, Eq, Structural)]
pub enum ParsedRowValue {
    String { start: u32, end: i32 },
    Date(i64),
    Integer(i64),
}

/// The values of one line, kept inline for the usual number of fields.
#[verifier::external_body]
pub struct RowValues {
    inner: SmallVec<[ParsedRowValue; 10]>,
}

/// A parsed line: the raw text, its field values, and the text of the lines
/// after it that did not parse (their continuation), which belongs to the
/// last string field.
pub struct Row {
    pub line: String,
    pub values: RowValues,
    pub continuation: String,
}

/// A log4net line with its fields located: the timestamp, the level, the
/// byte ranges of the bracketed and named fields, and where the message
/// begins.
#[derive(Debug, Default)]
pub struct LogRow {
    pub line: String,
    pub time: u16,
    pub time_unixtime: i64,
    pub level: i8,
    pub context: core::ops::Range<u16>,
    pub thread: core::ops::Range<u16>,
    pub file: core::ops::Range<u16>,
    pub method: core::ops::Range<u16>,
    pub object: core::ops::Range<u16>,
    pub message: u16,
}

/// One instruction of the line parser.
#[derive(Clone)]
pub enum ParserInstruction {
    EmitDate,
    EmitString,
    EmitEnumeration(Vec<String>),
    EmitRemainder,
    Begin,
    Skip(u16),
    SkipUntilChar(char),
    SkipUntilString(String),
}

/// Why a line does not match the format.
#[derive(Clone, Copy, Debug, PartialEq, Eq, Structural)]
pub enum ParseError {
    /// A `Skip` moved the cursor past the end of the line.
    OutOfBounds,
    /// A `SkipUntil*` delimiter does not occur after the cursor.
    DelimiterNotFound,
    /// An `EmitDate` field is not a valid timestamp.
    InvalidDate,
    /// An `EmitEnumeration` field equals none of the labels.
    UnknownEnumValue,
    /// A field would begin or end inside a multi-byte character.
    SplitsCharacter,
}

/// A line that did not parse, handed back with the reason.
pub struct RejectedLine {
    pub line: String,
    pub error: ParseError,
}

/// The kind of value that an instruction emits, or that a column holds.
#[derive(Clone, Copy, Debug, PartialEq, Eq, Structural)]
pub enum ValueKind {
    Text,
    Timestamp,
    Index,
}

// ---------------------------------------------------------------- containers

/// What a row's value list holds, in order.
pub uninterp spec fn row_values_of(v: RowValues) -> Seq<ParsedRowValue>;

/// Relies on `SmallVec::from_vec`: the same items, in the same order.
#[verifier::external_body]
fn row_values_from_vec(v: Vec<ParsedRowValue>) -> (r: RowValues)
    ensures
        row_values_of(r) == v@,
{
    RowValues { inner: SmallVec::from_vec(v) }
}

/// Relies on `SmallVec::as_slice`: the items in order.
#[verifier::external_body]
pub(crate) fn row_values_slice(v: &RowValues) -> (r: &[ParsedRowValue])
    ensures
        r@ == row_values_of(*v),
{
    v.inner.as_slice()
}

impl RowValues {
    /// The values, in the order they were emitted.
    pub fn as_slice(&self) -> (r: &[ParsedRowValue])
        ensures
            r@ == row_values_of(*self),
    {
        row_values_slice(self)
    }
}

// ---------------------------------------------------------------- semantics

/// The UTF-8 bytes of a text.
pub open spec fn bytes_of(s: Seq<char>) -> Seq<u8> {
    encode_utf8(s)
}

pub open spec fn occurs_at(hay: Seq<u8>, needle: Seq<u8>, p: int) -> bool {
    0 <= p && p + needle.len() <= hay.len() && hay.subrange(p, p + needle.len()) == needle
}

/// The first position at or after `from` where `needle` occurs in `hay`.
pub open spec fn find_from(hay: Seq<u8>, needle: Seq<u8>, from: int) -> Option<int>
    decreases hay.len() + 1 - from,
{
    if from < 0 || from + needle.len() > hay.len() {
        None
    } else if occurs_at(hay, needle, from) {
        Some(from)
    } else {
        find_from(hay, needle, from + 1)
    }
}

proof fn lemma_find_from(hay: Seq<u8>, needle: Seq<u8>, from: int)
    ensures
        find_from(hay, needle, from) matches Some(p) ==> from <= p && occurs_at(hay, needle, p),
    decreases hay.len() + 1 - from,
{
    if !(from < 0 || from + needle.len() > hay.len()) && !occurs_at(hay, needle, from) {
        lemma_find_from(hay, needle, from + 1);
    }
}

/// The first label, from position `k` on, whose bytes equal `text`.
pub open spec fn label_index_from(labels: Seq<String>, text: Seq<u8>, k: int) -> Option<int>
    decreases labels.len() - k,
{
    if k < 0 || k >= labels.len() {
        None
    } else if bytes_of(labels[k]@) == text {
        Some(k)
    } else {
        label_index_from(labels, text, k + 1)
    }
}

pub open spec fn label_index(labels: Seq<String>, text: Seq<u8>) -> Option<int> {
    label_index_from(labels, text, 0)
}

/// Runs instructions `pc..` over the bytes of a line, with the cursor at
/// `index`, the mark at `mark` and the values `acc` emitted so far.
pub open spec fn run_from(
    ins: Seq<ParserInstruction>,
    line: Seq<u8>,
    pc: int,
    index: int,
    mark: int,
    acc: Seq<ParsedRowValue>,
) -> Result<Seq<ParsedRowValue>, ParseError>
    decreases ins.len() - pc,
{
    if pc < 0 || pc >= ins.len() {
        Ok(acc)
    } else {
        match ins[pc] {
            ParserInstruction::Begin => run_from(ins, line, pc + 1, index, index, acc),
            ParserInstruction::Skip(n) => if index + n > line.len() {
                Err(ParseError::OutOfBounds)
            } else {
                run_from(ins, line, pc + 1, index + n, mark, acc)
            },
            ParserInstruction::SkipUntilChar(c) => match find_from(line, bytes_of(seq![c]), index) {
                Some(p) => run_from(ins, line, pc + 1, p, mark, acc),
                None => Err(ParseError::DelimiterNotFound),
            },
            ParserInstruction::SkipUntilString(t) => match find_from(line, bytes_of(t@), index) {
                Some(p) => run_from(ins, line, pc + 1, p, mark, acc),
                None => Err(ParseError::DelimiterNotFound),
            },
            ParserInstruction::EmitString => if !is_char_boundary(line, mark) || !is_char_boundary(
                line,
                index,
            ) {
                Err(ParseError::SplitsCharacter)
            } else {
                run_from(
                    ins,
                    line,
                    pc + 1,
                    index,
                    mark,
                    acc.push(ParsedRowValue::String { start: mark as u32, end: index as i32 }),
                )
            },
            ParserInstruction::EmitRemainder => if !is_char_boundary(line, mark) {
                Err(ParseError::SplitsCharacter)
            } else {
                run_from(
                    ins,
                    line,
                    pc + 1,
                    index,
                    mark,
                    acc.push(ParsedRowValue::String { start: mark as u32, end: -1i32 }),
                )
            },
            ParserInstruction::EmitDate => match date_value(line.subrange(mark, index)) {
                Some(v) => run_from(ins, line, pc + 1, index, mark, acc.push(ParsedRowValue::Date(v as i64))),
                None => Err(ParseError::InvalidDate),
            },
            ParserInstruction::EmitEnumeration(labels) => match label_index(labels@, line.subrange(mark, index)) {
                Some(k) => run_from(ins, line, pc + 1, index, mark, acc.push(ParsedRowValue::Integer(k as i64))),
                None => Err(ParseError::UnknownEnumValue),
            },
        }
    }
}

/// The result of parsing a line (given as bytes) with an instruction list.
pub open spec fn parse_spec(ins: Seq<ParserInstruction>, line: Seq<u8>) -> Result<Seq<ParsedRowValue>, ParseError> {
    run_from(ins, line, 0, 0, 0, seq![])
}

// ---------------------------------------------------------------- shape

pub open spec fn instruction_kind(p: ParserInstruction) -> Option<ValueKind> {
    match p {
        ParserInstruction::EmitDate => Some(ValueKind::Timestamp),
        ParserInstruction::EmitString => Some(ValueKind::Text),
        ParserInstruction::EmitRemainder => Some(ValueKind::Text),
        ParserInstruction::EmitEnumeration(_) => Some(ValueKind::Index),
        _ => None,
    }
}

/// The kinds of the values that an instruction list emits, in order.
pub open spec fn emit_kinds(ins: Seq<ParserInstruction>) -> Seq<ValueKind>
    decreases ins.len(),
{
    if ins.len() == 0 {
        seq![]
    } else {
        match instruction_kind(ins.last()) {
            Some(k) => emit_kinds(ins.drop_last()).push(k),
            None => emit_kinds(ins.drop_last()),
        }
    }
}

pub open spec fn value_kind(v: ParsedRowValue) -> ValueKind {
    match v {
        ParsedRowValue::String { .. } => ValueKind::Text,
        ParsedRowValue::Date(_) => ValueKind::Timestamp,
        ParsedRowValue::Integer(_) => ValueKind::Index,
    }
}

pub open spec fn column_kind(c: ColumnDefinition) -> ValueKind {
    match c.column_type {
        ColumnType::String => ValueKind::Text,
        ColumnType::Date => ValueKind::Timestamp,
        ColumnType::Enumeration(_) => ValueKind::Index,
    }
}

pub open spec fn value_kinds(vs: Seq<ParsedRowValue>) -> Seq<ValueKind> {
    vs.map_values(|v: ParsedRowValue| value_kind(v))
}

pub open spec fn column_kinds(cs: Seq<ColumnDefinition>) -> Seq<ValueKind> {
    cs.map_values(|c: ColumnDefinition| column_kind(c))
}

/// The texts of a list of labels.
pub open spec fn labels_view(v: Seq<String>) -> Seq<Seq<char>> {
    v.map_values(|s: String| s@)
}

/// `p` is the parser instruction that the format step `f` compiles to.
pub open spec fn compiles_to(f: LogFormatInstruction, p: ParserInstruction) -> bool {
    match f {
        LogFormatInstruction::EmitDate { .. } => p is EmitDate,
        LogFormatInstruction::EmitString { .. } => p is EmitString,
        LogFormatInstruction::EmitRemainder { .. } => p is EmitRemainder,
        LogFormatInstruction::EmitEnumeration { enumerations, .. } => match p {
            ParserInstruction::EmitEnumeration(ls) => labels_view(ls@) == labels_view(enumerations@),
            _ => false,
        },
        LogFormatInstruction::Begin => p is Begin,
        LogFormatInstruction::Skip(n) => p == ParserInstruction::Skip(n),
        LogFormatInstruction::SkipUntilChar(c) => p == ParserInstruction::SkipUntilChar(c),
        LogFormatInstruction::SkipUntilString(t) => match p {
            ParserInstruction::SkipUntilString(u) => u@ == t@,
            _ => false,
        },
    }
}

pub open spec fn length_width(width: i32) -> ColumnWidth {
    ColumnWidth::Length(width as u16)
}

/// `c` is the column that the format step `f` declares.
pub open spec fn declares_column(f: LogFormatInstruction, c: ColumnDefinition) -> bool {
    match f {
        LogFormatInstruction::EmitDate { name, width } => c.nice_name@ == name@ && c.column_type
            is Date && c.column_width == length_width(width),
        LogFormatInstruction::EmitString { name, width } => c.nice_name@ == name@ && c.column_type
            is String && c.column_width == length_width(width),
        LogFormatInstruction::EmitRemainder { name, width } => c.nice_name@ == name@
            && c.column_type is String && c.column_width == (if width < 0 {
            ColumnWidth::Percentage(100)
        } else {
            length_width(width)
        }),
        LogFormatInstruction::EmitEnumeration { name, width, enumerations } => c.nice_name@
            == name@ && c.column_width == length_width(width) && match c.column_type {
            ColumnType::Enumeration(ls) => labels_view(ls@) == labels_view(enumerations@),
            _ => false,
        },
        _ => false,
    }
}

pub open spec fn is_format_emit(f: LogFormatInstruction) -> bool {
    match f {
        LogFormatInstruction::EmitDate { .. } => true,
        LogFormatInstruction::EmitString { .. } => true,
        LogFormatInstruction::EmitRemainder { .. } => true,
        LogFormatInstruction::EmitEnumeration { .. } => true,
        _ => false,
    }
}

/// The `Emit*` steps of a format description, in order.
pub open spec fn format_emits(syntax: Seq<LogFormatInstruction>) -> Seq<LogFormatInstruction>
    decreases syntax.len(),
{
    if syntax.len() == 0 {
        seq![]
    } else if is_format_emit(syntax.last()) {
        format_emits(syntax.drop_last()).push(syntax.last())
    } else {
        format_emits(syntax.drop_last())
    }
}

// ---------------------------------------------------------------- execution

/// The UTF-8 encoding of one character.
fn char_bytes(c: char) -> (r: Vec<u8>)
    ensures
        r@ == bytes_of(seq![c]),
{
    proof {
        reveal_with_fuel(encode_utf8, 2);
        assert(seq![c].drop_first() =~= Seq::<char>::empty());
    }
    let v = c as u32;
    let mut r: Vec<u8> = Vec::new();
    if v <= 0x7F {
        r.push((v & 0x7F) as u8);
    } else if 0x80 <= v && v <= 0x7FF {
        r.push(0xC0 | ((v >> 6) & 0x1F) as u8);
        r.push(0x80 | (v & 0x3F) as u8);
    } else if 0x800 <= v && v <= 0xFFFF && !(0xD800 <= v && v <= 0xDFFF) {
        r.push(0xE0 | ((v >> 12) & 0x0F) as u8);
        r.push(0x80 | ((v >> 6) & 0x3F) as u8);
        r.push(0x80 | (v & 0x3F) as u8);
    } else {
        r.push(0xF0 | ((v >> 18) & 0x7) as u8);
        r.push(0x80 | ((v >> 12) & 0x3F) as u8);
        r.push(0x80 | ((v >> 6) & 0x3F) as u8);
        r.push(0x80 | (v & 0x3F) as u8);
    }
    proof {
        assert(r@ =~= bytes_of(seq![c]));
    }
    r
}

/// Whether `needle` occurs in `hay` at position `p`.
fn occurs_at_exec(hay: &[u8], needle: &[u8], p: usize) -> (r: bool)
    ensures
        r == occurs_at(hay@, needle@, p as int),
{
    let hl = hay.len();
    if p > hl || needle.len() > hl - p {
        return false;
    }
    let mut j: usize = 0;
    while j < needle.len()
        invariant
            hl == hay@.len(),
            p + needle@.len() <= hay@.len(),
            j <= needle@.len(),
            forall|k: int| 0 <= k < j ==> hay@[p + k] == needle@[k],
        decreases needle@.len() - j,
    {
        if hay[p + j] != needle[j] {
            assert(hay@.subrange(p as int, p + needle@.len())[j as int] != needle@[j as int]);
            return false;
        }
        j = j + 1;
    }
    assert(hay@.subrange(p as int, p + needle@.len()) =~= needle@);
    true
}

/// The first position at or after `from` where `needle` occurs in `hay`.
fn find_bytes(hay: &[u8], needle: &[u8], from: usize) -> (r: Option<usize>)
    ensures
        match r {
            Some(p) => find_from(hay@, needle@, from as int) == Some(p as int),
            None => find_from(hay@, needle@, from as int) is None,
        },
{
    let hl = hay.len();
    let mut p: usize = from;
    while p <= hl && needle.len() <= hl - p
        invariant
            hl == hay@.len(),
            from <= p,
            find_from(hay@, needle@, from as int) == find_from(hay@, needle@, p as int),
        decreases hay@.len() + 1 - p,
    {
        if occurs_at_exec(hay, needle, p) {
            return Some(p);
        }
        if p == hl {
            proof {
                assert(hay@.subrange(p as int, p as int + needle@.len()) =~= needle@);
            }
            return None;
        }
        p = p + 1;
    }
    None
}

/// The position of the first label whose bytes equal `line[lo..hi]`.
fn label_position(labels: &Vec<String>, line: &[u8], lo: usize, hi: usize) -> (r: Option<usize>)
    requires
        lo <= hi <= line@.len(),
    ensures
        match r {
            Some(k) => label_index(labels@, line@.subrange(lo as int, hi as int)) == Some(k as int),
            None => label_index(labels@, line@.subrange(lo as int, hi as int)) is None,
        },
{
    let ghost text = line@.subrange(lo as int, hi as int);
    let mut k: usize = 0;
    while k < labels.len()
        invariant
            lo <= hi <= line@.len(),
            text == line@.subrange(lo as int, hi as int),
            k <= labels@.len(),
            label_index(labels@, text) == label_index_from(labels@, text, k as int),
        decreases labels@.len() - k,
    {
        let label: &[u8] = labels[k].as_str().as_bytes();
        if label.len() == hi - lo && occurs_at_exec(line, label, lo) {
            assert(bytes_of(labels@[k as int]@) =~= text);
            return Some(k);
        }
        proof {
            if bytes_of(labels@[k as int]@) == text {
                assert(label@.len() == hi - lo);
            }
        }
        k = k + 1;
    }
    None
}

/// A copy of a list of labels.
fn clone_labels(v: &Vec<String>) -> (r: Vec<String>)
    ensures
        labels_view(r@) == labels_view(v@),
{
    let mut r: Vec<String> = Vec::new();
    let mut i: usize = 0;
    while i < v.len()
        invariant
            i <= v@.len(),
            r@.len() == i,
            forall|j: int| 0 <= j < i ==> (#[trigger] r@[j])@ == v@[j]@,
        decreases v@.len() - i,
    {
        let s = v[i].clone();
        r.push(s);
        i = i + 1;
    }
    proof {
        assert(labels_view(r@) =~= labels_view(v@));
    }
    r
}

impl ColumnDefinition {
    pub fn string(nice_name: String, column_width: ColumnWidth) -> (r: ColumnDefinition)
        ensures
            r.nice_name@ == nice_name@,
            r.column_type is String,
            r.column_width == column_width,
    {
        ColumnDefinition { nice_name, column_type: ColumnType::String, column_width }
    }

    pub fn date(nice_name: String, column_width: ColumnWidth) -> (r: ColumnDefinition)
        ensures
            r.nice_name@ == nice_name@,
            r.column_type is Date,
            r.column_width == column_width,
    {
        ColumnDefinition { nice_name, column_type: ColumnType::Date, column_width }
    }

    pub fn enumeration(nice_name: String, column_width: ColumnWidth, enumerations: Vec<String>) -> (r:
        ColumnDefinition)
        ensures
            r.nice_name@ == nice_name@,
            r.column_type == ColumnType::Enumeration(enumerations),
            r.column_width == column_width,
    {
        ColumnDefinition { nice_name, column_type: ColumnType::Enumeration(enumerations), column_width }
    }
}

proof fn lemma_emit_kinds_push(ins: Seq<ParserInstruction>, p: ParserInstruction)
    ensures
        emit_kinds(ins.push(p)) == match instruction_kind(p) {
            Some(k) => emit_kinds(ins).push(k),
            None => emit_kinds(ins),
        },
{
    assert(ins.push(p).drop_last() =~= ins);
}

/// An instruction list together with the columns that its `Emit*`
/// instructions fill, in the same order.
pub struct Parser {
    instructions: Vec<ParserInstruction>,
    pub columns: Vec<ColumnDefinition>,
}

impl Parser {
    pub closed spec fn instructions_view(&self) -> Seq<ParserInstruction> {
        self.instructions@
    }

    pub closed spec fn columns_view(&self) -> Seq<ColumnDefinition> {
        self.columns@
    }

    /// The `Emit*` instructions and the columns stand in lock-step: the i-th
    /// value emitted has the kind of the i-th column.
    pub closed spec fn wf(&self) -> bool {
        column_kinds(self.columns@) == emit_kinds(self.instructions_view())
    }

    pub fn new(instructions: Vec<ParserInstruction>, columns: Vec<ColumnDefinition>) -> (r: Parser)
        requires
            column_kinds(columns@) == emit_kinds(instructions@),
        ensures
            r.wf(),
            r.instructions_view() == instructions@,
            r.columns_view() == columns@,
    {
        Parser { instructions, columns }
    }

    /// Compiles a format description: one instruction per step, and one
    /// column per `Emit*` step, in order.
    pub fn from_config(config: LogFormatConfiguration) -> (r: Parser)
        ensures
            r.wf(),
            r.instructions_view().len() == config.syntax@.len(),
            forall|i: int|
                0 <= i < config.syntax@.len() ==> compiles_to(
                    #[trigger] config.syntax@[i],
                    r.instructions_view()[i],
                ),
            r.columns_view().len() == format_emits(config.syntax@).len(),
            forall|k: int|
                0 <= k < r.columns_view().len() ==> declares_column(
                    format_emits(config.syntax@)[k],
                    #[trigger] r.columns_view()[k],
                ),
    {
        let syntax = &config.syntax;
        let mut instructions: Vec<ParserInstruction> = Vec::new();
        let mut columns: Vec<ColumnDefinition> = Vec::new();
        let mut i: usize = 0;
        while i < syntax.len()
            invariant
                i <= syntax@.len(),
                instructions@.len() == i,
                forall|j: int| 0 <= j < i ==> compiles_to(#[trigger] syntax@[j], instructions@[j]),
                columns@.len() == format_emits(syntax@.subrange(0, i as int)).len(),
                forall|k: int|
                    0 <= k < columns@.len() ==> declares_column(
                        format_emits(syntax@.subrange(0, i as int))[k],
                        #[trigger] columns@[k],
                    ),
                column_kinds(columns@) == emit_kinds(instructions@),
            decreases syntax@.len() - i,
        {
            let ghost before = syntax@.subrange(0, i as int);
            let ghost old_columns = columns@;
            let ghost old_instructions = instructions@;
            let f = &syntax[i];
            let p = match f {
                LogFormatInstruction::EmitDate { name, width } => {
                    columns.push(ColumnDefinition::date(name.clone(), ColumnWidth::Length(*width as u16)));
                    ParserInstruction::EmitDate
                },
                LogFormatInstruction::EmitString { name, width } => {
                    columns.push(ColumnDefinition::string(name.clone(), ColumnWidth::Length(*width as u16)));
                    ParserInstruction::EmitString
                },
                LogFormatInstruction::EmitEnumeration { name, width, enumerations } => {
                    columns.push(
                        ColumnDefinition::enumeration(
                            name.clone(),
                            ColumnWidth::Length(*width as u16),
                            clone_labels(enumerations),
                        ),
                    );
                    ParserInstruction::EmitEnumeration(clone_labels(enumerations))
                },
                LogFormatInstruction::EmitRemainder { name, width } => {
                    let w = if *width < 0 {
                        ColumnWidth::Percentage(100)
                    } else {
                        ColumnWidth::Length(*width as u16)
                    };
                    columns.push(ColumnDefinition::string(name.clone(), w));
                    ParserInstruction::EmitRemainder
                },
                LogFormatInstruction::Begin => ParserInstruction::Begin,
                LogFormatInstruction::Skip(n) => ParserInstruction::Skip(*n),
                LogFormatInstruction::SkipUntilChar(c) => ParserInstruction::SkipUntilChar(*c),
                LogFormatInstruction::SkipUntilString(t) => ParserInstruction::SkipUntilString(t.clone()),
            };
            instructions.push(p);
            proof {
                let after = syntax@.subrange(0, i as int + 1);
                assert(after.drop_last() =~= before);
                assert(after.last() == syntax@[i as int]);
                lemma_emit_kinds_push(old_instructions, p);
                assert(instructions@ == old_instructions.push(p));
                assert(column_kinds(columns@) =~= emit_kinds(instructions@));
                assert forall|k: int| 0 <= k < columns@.len() implies declares_column(
                    format_emits(after)[k],
                    #[trigger] columns@[k],
                ) by {
                    if k < old_columns.len() {
                        assert(columns@[k] == old_columns[k]);
                    }
                }
            }
            i = i + 1;
        }
        proof {
            assert(syntax@.subrange(0, syntax@.len() as int) =~= syntax@);
        }
        Parser { instructions, columns }
    }

    /// Parses one line. On success the row keeps the line and holds the
    /// values that the instructions emit, with no continuation yet; on
    /// failure the line comes back with the reason. Besides the failures of
    /// the instructions themselves, a string field that would begin or end
    /// inside a multi-byte character fails the line with `SplitsCharacter`
    /// rather than cutting the character.
    pub fn parse_line(&self, line: String) -> (r: Result<Row, RejectedLine>)
        requires
            bytes_of(line@).len() <= 0x7fff_ffff,
        ensures
            match r {
                Ok(row) => row.line@ == line@ && row.continuation@ == Seq::<char>::empty() && parse_spec(self.instructions_view(), bytes_of(line@))
                    == Ok::<Seq<ParsedRowValue>, ParseError>(row_values_of(row.values)),
                Err(rej) => rej.line@ == line@ && parse_spec(self.instructions_view(), bytes_of(line@))
                    == Err::<Seq<ParsedRowValue>, ParseError>(rej.error),
            },
    {
        let mut values: Vec<ParsedRowValue> = Vec::new();
        let ghost ins = self.instructions@;
        let mut index: usize = 0;
        let mut mark: usize = 0;
        let mut pc: usize = 0;
        let n = self.instructions.len();
        let b: &[u8] = line.as_str().as_bytes();
            let ghost lb = b@;
            assert(lb == bytes_of(line@));
            while pc < n
                invariant
                    n == ins.len(),
                    ins == self.instructions@,
                    lb == b@,
                    lb == bytes_of(line@),
                    lb.len() <= 0x7fff_ffff,
                    pc <= n,
                    mark <= index <= lb.len(),
                    values@.len() <= pc,
                    parse_spec(ins, lb) == run_from(ins, lb, pc as int, index as int, mark as int, values@),
                decreases n - pc,
            {
                match &self.instructions[pc] {
                    ParserInstruction::Begin => {
                        mark = index;
                    },
                    ParserInstruction::Skip(k) => {
                        if *k as usize > b.len() - index {
                            assert(run_from(ins, lb, pc as int, index as int, mark as int, values@) == Err::<Seq<ParsedRowValue>, ParseError>(ParseError::OutOfBounds));
                            return Err(RejectedLine { line, error: ParseError::OutOfBounds });
                        }
                        index = index + *k as usize;
                    },
                    ParserInstruction::SkipUntilChar(c) => {
                        let needle = char_bytes(*c);
                        proof { lemma_find_from(lb, needle@, index as int); }
                        match find_bytes(b, needle.as_slice(), index) {
                            Some(p) => {
                                index = p;
                            },
                            None => {
                                return Err(RejectedLine { line, error: ParseError::DelimiterNotFound });
                            },
                        }
                    },
                    ParserInstruction::SkipUntilString(t) => {
                        proof { lemma_find_from(lb, bytes_of(t@), index as int); }
                        match find_bytes(b, t.as_str().as_bytes(), index) {
                            Some(p) => {
                                index = p;
                            },
                            None => {
                                return Err(RejectedLine { line, error: ParseError::DelimiterNotFound });
                            },
                        }
                    },
                    ParserInstruction::EmitString => {
                        if !line.as_str().is_char_boundary(mark) || !line.as_str().is_char_boundary(index) {
                            return Err(RejectedLine { line, error: ParseError::SplitsCharacter });
                        }
                        values.push(ParsedRowValue::String { start: mark as u32, end: index as i32 });
                    },
                    ParserInstruction::EmitRemainder => {
                        if !line.as_str().is_char_boundary(mark) {
                            return Err(RejectedLine { line, error: ParseError::SplitsCharacter });
                        }
                        values.push(ParsedRowValue::String { start: mark as u32, end: -1 });
                    },
                    ParserInstruction::EmitDate => {
                        match parse_datetime(&b[mark..index]) {
                            Some(v) => {
                                values.push(ParsedRowValue::Date(v));
                            },
                            None => {
                                return Err(RejectedLine { line, error: ParseError::InvalidDate });
                            },
                        }
                    },
                    ParserInstruction::EmitEnumeration(labels) => {
                        match label_position(labels, b, mark, index) {
                            Some(k) => {
                                values.push(ParsedRowValue::Integer(#[verifier::truncate] (k as i64)));
                            },
                            None => {
                                return Err(RejectedLine { line, error: ParseError::UnknownEnumValue });
                            },
                        }
                    },
                }
                pc = pc + 1;
            }
        Ok(Row { line, values: row_values_from_vec(values), continuation: String::new() })
    }
}

// ---------------------------------------------------------------- laws

/// The byte range of a line that a string value stands for, if it is one.
pub open spec fn value_range(line: Seq<u8>, v: ParsedRowValue) -> Option<(int, int)> {
    match v {
        ParsedRowValue::String { start, end } => if end == -1 {
            Some((start as int, line.len() as int))
        } else {
            Some((start as int, end as int))
        },
        _ => None,
    }
}

/// `v` can be read from a line: a string value covers a range of the line
/// that begins and ends on character boundaries.
pub open spec fn value_readable(line: Seq<u8>, v: ParsedRowValue) -> bool {
    match value_range(line, v) {
        Some((s, e)) => 0 <= s <= e <= line.len() && is_char_boundary(line, s) && is_char_boundary(
            line,
            e,
        ),
        None => true,
    }
}

proof fn lemma_run_readable(
    ins: Seq<ParserInstruction>,
    line: Seq<u8>,
    pc: int,
    index: int,
    mark: int,
    acc: Seq<ParsedRowValue>,
)
    requires
        0 <= pc <= ins.len(),
        0 <= mark <= index <= line.len() <= 0x7fff_ffff,
        vstd::utf8::valid_utf8(line),
        forall|k: int| 0 <= k < acc.len() ==> value_readable(line, #[trigger] acc[k]),
        run_from(ins, line, pc, index, mark, acc) is Ok,
    ensures
        forall|k: int|
            0 <= k < (run_from(ins, line, pc, index, mark, acc)->Ok_0).len() ==> value_readable(
                line,
                #[trigger] (run_from(ins, line, pc, index, mark, acc)->Ok_0)[k],
            ),
    decreases ins.len() - pc,
{
    if pc < ins.len() {
        match ins[pc] {
            ParserInstruction::Begin => {
                lemma_run_readable(ins, line, pc + 1, index, index, acc);
            },
            ParserInstruction::Skip(n) => {
                lemma_run_readable(ins, line, pc + 1, index + n, mark, acc);
            },
            ParserInstruction::SkipUntilChar(c) => {
                lemma_find_from(line, bytes_of(seq![c]), index);
                let p = find_from(line, bytes_of(seq![c]), index)->Some_0;
                lemma_run_readable(ins, line, pc + 1, p, mark, acc);
            },
            ParserInstruction::SkipUntilString(t) => {
                lemma_find_from(line, bytes_of(t@), index);
                let p = find_from(line, bytes_of(t@), index)->Some_0;
                lemma_run_readable(ins, line, pc + 1, p, mark, acc);
            },
            ParserInstruction::EmitString => {
                let v = ParsedRowValue::String { start: mark as u32, end: index as i32 };
                assert(value_readable(line, v));
                assert forall|k: int| 0 <= k < acc.push(v).len() implies value_readable(line, #[trigger] acc.push(v)[k]) by {
                    if k < acc.len() {
                        assert(acc.push(v)[k] == acc[k]);
                    }
                }
                lemma_run_readable(ins, line, pc + 1, index, mark, acc.push(v));
            },
            ParserInstruction::EmitRemainder => {
                let v = ParsedRowValue::String { start: mark as u32, end: -1i32 };
                vstd::utf8::is_char_boundary_start_end_of_seq(line);
                assert(value_readable(line, v));
                assert forall|k: int| 0 <= k < acc.push(v).len() implies value_readable(line, #[trigger] acc.push(v)[k]) by {
                    if k < acc.len() {
                        assert(acc.push(v)[k] == acc[k]);
                    }
                }
                lemma_run_readable(ins, line, pc + 1, index, mark, acc.push(v));
            },
            ParserInstruction::EmitDate => {
                let v = ParsedRowValue::Date(date_value(line.subrange(mark, index))->Some_0 as i64);
                assert forall|k: int| 0 <= k < acc.push(v).len() implies value_readable(line, #[trigger] acc.push(v)[k]) by {
                    if k < acc.len() {
                        assert(acc.push(v)[k] == acc[k]);
                    }
                }
                lemma_run_readable(ins, line, pc + 1, index, mark, acc.push(v));
            },
            ParserInstruction::EmitEnumeration(labels) => {
                let k0 = label_index(labels@, line.subrange(mark, index))->Some_0;
                let v = ParsedRowValue::Integer(k0 as i64);
                assert forall|k: int| 0 <= k < acc.push(v).len() implies value_readable(line, #[trigger] acc.push(v)[k]) by {
                    if k < acc.len() {
                        assert(acc.push(v)[k] == acc[k]);
                    }
                }
                lemma_run_readable(ins, line, pc + 1, index, mark, acc.push(v));
            },
        }
    }
}

/// Every value of a line that parses can be read back from the line: each
/// string value covers a range of the line between character boundaries.
pub proof fn lemma_parsed_values_readable(ins: Seq<ParserInstruction>, line: Seq<char>)
    requires
        bytes_of(line).len() <= 0x7fff_ffff,
        parse_spec(ins, bytes_of(line)) is Ok,
    ensures
        forall|k: int|
            0 <= k < (parse_spec(ins, bytes_of(line))->Ok_0).len() ==> value_readable(
                bytes_of(line),
                #[trigger] (parse_spec(ins, bytes_of(line))->Ok_0)[k],
            ),
{
    vstd::utf8::encode_utf8_valid_utf8(line);
    lemma_run_readable(ins, bytes_of(line), 0, 0, 0, seq![]);
}

proof fn lemma_emit_kinds_concat(a: Seq<ParserInstruction>, b: Seq<ParserInstruction>)
    ensures
        emit_kinds(a + b) == emit_kinds(a) + emit_kinds(b),
    decreases b.len(),
{
    if b.len() == 0 {
        assert(a + b =~= a);
        assert(emit_kinds(a) + emit_kinds(b) =~= emit_kinds(a));
    } else {
        lemma_emit_kinds_concat(a, b.drop_last());
        assert((a + b).drop_last() =~= a + b.drop_last());
        assert((a + b).last() == b.last());
        match instruction_kind(b.last()) {
            Some(k) => {
                assert(emit_kinds(a) + emit_kinds(b) =~= (emit_kinds(a) + emit_kinds(b.drop_last())).push(k));
            },
            None => {},
        }
    }
}

proof fn lemma_run_kinds(
    ins: Seq<ParserInstruction>,
    line: Seq<u8>,
    pc: int,
    index: int,
    mark: int,
    acc: Seq<ParsedRowValue>,
)
    requires
        0 <= pc <= ins.len(),
        run_from(ins, line, pc, index, mark, acc) is Ok,
    ensures
        value_kinds(run_from(ins, line, pc, index, mark, acc)->Ok_0) == value_kinds(acc) + emit_kinds(
            ins.subrange(pc, ins.len() as int),
        ),
    decreases ins.len() - pc,
{
    let rest = ins.subrange(pc, ins.len() as int);
    if pc == ins.len() {
        assert(rest =~= Seq::<ParserInstruction>::empty());
        assert(value_kinds(acc) + emit_kinds(rest) =~= value_kinds(acc));
    } else {
        let head = seq![ins[pc]];
        let tail = ins.subrange(pc + 1, ins.len() as int);
        assert(rest =~= head + tail);
        lemma_emit_kinds_concat(head, tail);
        assert(head.drop_last() =~= Seq::<ParserInstruction>::empty());
        assert(emit_kinds(Seq::<ParserInstruction>::empty()) =~= Seq::<ValueKind>::empty());
        assert(head.last() == ins[pc]);
        match instruction_kind(ins[pc]) {
            Some(k) => {
                assert(emit_kinds(head) =~= seq![k]);
                assert(value_kinds(acc) + emit_kinds(rest) =~= value_kinds(acc).push(k) + emit_kinds(tail));
            },
            None => {
                assert(emit_kinds(head) =~= Seq::<ValueKind>::empty());
                assert(value_kinds(acc) + emit_kinds(rest) =~= value_kinds(acc) + emit_kinds(tail));
            },
        }
        match ins[pc] {
            ParserInstruction::Begin => {
                lemma_run_kinds(ins, line, pc + 1, index, index, acc);
            },
            ParserInstruction::Skip(n) => {
                lemma_run_kinds(ins, line, pc + 1, index + n, mark, acc);
            },
            ParserInstruction::SkipUntilChar(c) => {
                let p = find_from(line, bytes_of(seq![c]), index)->Some_0;
                lemma_run_kinds(ins, line, pc + 1, p, mark, acc);
            },
            ParserInstruction::SkipUntilString(t) => {
                let p = find_from(line, bytes_of(t@), index)->Some_0;
                lemma_run_kinds(ins, line, pc + 1, p, mark, acc);
            },
            ParserInstruction::EmitString => {
                let v = ParsedRowValue::String { start: mark as u32, end: index as i32 };
                lemma_run_kinds(ins, line, pc + 1, index, mark, acc.push(v));
                assert(value_kinds(acc.push(v)) =~= value_kinds(acc).push(ValueKind::Text));
            },
            ParserInstruction::EmitRemainder => {
                let v = ParsedRowValue::String { start: mark as u32, end: -1i32 };
                lemma_run_kinds(ins, line, pc + 1, index, mark, acc.push(v));
                assert(value_kinds(acc.push(v)) =~= value_kinds(acc).push(ValueKind::Text));
            },
            ParserInstruction::EmitDate => {
                let v = ParsedRowValue::Date(date_value(line.subrange(mark, index))->Some_0 as i64);
                lemma_run_kinds(ins, line, pc + 1, index, mark, acc.push(v));
                assert(value_kinds(acc.push(v)) =~= value_kinds(acc).push(ValueKind::Timestamp));
            },
            ParserInstruction::EmitEnumeration(labels) => {
                let k = label_index(labels@, line.subrange(mark, index))->Some_0;
                let v = ParsedRowValue::Integer(k as i64);
                lemma_run_kinds(ins, line, pc + 1, index, mark, acc.push(v));
                assert(value_kinds(acc.push(v)) =~= value_kinds(acc).push(ValueKind::Index));
            },
        }
    }
}

/// Every line that a well-formed parser accepts yields exactly one value per
/// `Emit*` instruction, in instruction order, and the i-th value has the
/// kind of the i-th column.
pub proof fn lemma_row_matches_columns(p: Parser, line: Seq<u8>)
    requires
        p.wf(),
        parse_spec(p.instructions_view(), line) is Ok,
    ensures
        value_kinds(parse_spec(p.instructions_view(), line)->Ok_0) == column_kinds(p.columns_view()),
        (parse_spec(p.instructions_view(), line)->Ok_0).len() == p.columns_view().len(),
{
    let ins = p.instructions_view();
    lemma_run_kinds(ins, line, 0, 0, 0, seq![]);
    assert(ins.subrange(0, ins.len() as int) =~= ins);
    assert(value_kinds(seq![]) + emit_kinds(ins) =~= emit_kinds(ins));
    let vals = parse_spec(ins, line)->Ok_0;
    assert(value_kinds(vals).len() == vals.len());
    assert(column_kinds(p.columns_view()).len() == p.columns_view().len());
}

/// Parsing is a function of the instruction list and the line: the same
/// line parsed twice with the same instructions gives the same values or the
/// same failure.
pub proof fn lemma_parse_deterministic(ins: Seq<ParserInstruction>, a: Seq<char>, b: Seq<char>)
    requires
        a == b,
    ensures
        parse_spec(ins, bytes_of(a)) == parse_spec(ins, bytes_of(b)),
{
}

proof fn lemma_label_index_from(labels: Seq<String>, text: Seq<u8>, from: int, i: int)
    requires
        0 <= from <= i < labels.len(),
        text == bytes_of(labels[i]@),
        forall|j: int| 0 <= j < i ==> bytes_of(#[trigger] labels[j]@) != text,
    ensures
        label_index_from(labels, text, from) == Some(i),
    decreases i - from,
{
    if from < i {
        lemma_label_index_from(labels, text, from + 1, i);
    }
}

proof fn lemma_label_index_none(labels: Seq<String>, text: Seq<u8>, from: int)
    requires
        0 <= from,
        forall|j: int| 0 <= j < labels.len() ==> bytes_of(#[trigger] labels[j]@) != text,
    ensures
        label_index_from(labels, text, from) is None,
    decreases labels.len() - from,
{
    if from < labels.len() {
        lemma_label_index_none(labels, text, from + 1);
    }
}

/// An enumeration field reads as the index of its label: where the field
/// equals the label at index `i` and no earlier label, the value emitted is
/// `Integer(i)`.
pub proof fn lemma_enumeration_label_index(
    ins: Seq<ParserInstruction>,
    line: Seq<u8>,
    pc: int,
    index: int,
    mark: int,
    acc: Seq<ParsedRowValue>,
    i: int,
)
    requires
        0 <= pc < ins.len(),
        ins[pc] is EmitEnumeration,
        0 <= i < (ins[pc]->EmitEnumeration_0)@.len(),
        line.subrange(mark, index) == bytes_of((ins[pc]->EmitEnumeration_0)@[i]@),
        forall|j: int|
            0 <= j < i ==> bytes_of(#[trigger] (ins[pc]->EmitEnumeration_0)@[j]@) != line.subrange(
                mark,
                index,
            ),
    ensures
        run_from(ins, line, pc, index, mark, acc) == run_from(
            ins,
            line,
            pc + 1,
            index,
            mark,
            acc.push(ParsedRowValue::Integer(i as i64)),
        ),
{
    lemma_label_index_from((ins[pc]->EmitEnumeration_0)@, line.subrange(mark, index), 0, i);
}

/// An enumeration field that equals none of the labels fails the line with
/// `UnknownEnumValue`.
pub proof fn lemma_enumeration_unknown_label(
    ins: Seq<ParserInstruction>,
    line: Seq<u8>,
    pc: int,
    index: int,
    mark: int,
    acc: Seq<ParsedRowValue>,
)
    requires
        0 <= pc < ins.len(),
        ins[pc] is EmitEnumeration,
        forall|j: int|
            0 <= j < (ins[pc]->EmitEnumeration_0)@.len() ==> bytes_of(
                #[trigger] (ins[pc]->EmitEnumeration_0)@[j]@,
            ) != line.subrange(mark, index),
    ensures
        run_from(ins, line, pc, index, mark, acc) == Err::<Seq<ParsedRowValue>, ParseError>(
            ParseError::UnknownEnumValue,
        ),
{
    lemma_label_index_none((ins[pc]->EmitEnumeration_0)@, line.subrange(mark, index), 0);
}

/// The scan state after one instruction: cursor, mark and values, or the
/// reason the line fails there.
pub open spec fn step(
    p: ParserInstruction,
    line: Seq<u8>,
    index: int,
    mark: int,
    acc: Seq<ParsedRowValue>,
) -> Result<(int, int, Seq<ParsedRowValue>), ParseError> {
    match p {
        ParserInstruction::Begin => Ok((index, index, acc)),
        ParserInstruction::Skip(n) => if index + n > line.len() {
            Err(ParseError::OutOfBounds)
        } else {
            Ok((index + n, mark, acc))
        },
        ParserInstruction::SkipUntilChar(c) => match find_from(line, bytes_of(seq![c]), index) {
            Some(q) => Ok((q, mark, acc)),
            None => Err(ParseError::DelimiterNotFound),
        },
        ParserInstruction::SkipUntilString(t) => match find_from(line, bytes_of(t@), index) {
            Some(q) => Ok((q, mark, acc)),
            None => Err(ParseError::DelimiterNotFound),
        },
        ParserInstruction::EmitString => if !is_char_boundary(line, mark) || !is_char_boundary(
            line,
            index,
        ) {
            Err(ParseError::SplitsCharacter)
        } else {
            Ok((index, mark, acc.push(ParsedRowValue::String { start: mark as u32, end: index as i32 })))
        },
        ParserInstruction::EmitRemainder => if !is_char_boundary(line, mark) {
            Err(ParseError::SplitsCharacter)
        } else {
            Ok((index, mark, acc.push(ParsedRowValue::String { start: mark as u32, end: -1i32 })))
        },
        ParserInstruction::EmitDate => match date_value(line.subrange(mark, index)) {
            Some(v) => Ok((index, mark, acc.push(ParsedRowValue::Date(v as i64)))),
            None => Err(ParseError::InvalidDate),
        },
        ParserInstruction::EmitEnumeration(labels) => match label_index(labels@, line.subrange(mark, index)) {
            Some(k) => Ok((index, mark, acc.push(ParsedRowValue::Integer(k as i64)))),
            None => Err(ParseError::UnknownEnumValue),
        },
    }
}

/// The scan state after the first `n` instructions.
pub open spec fn run_prefix(ins: Seq<ParserInstruction>, line: Seq<u8>, n: nat) -> Result<
    (int, int, Seq<ParsedRowValue>),
    ParseError,
>
    decreases n,
{
    if n == 0 {
        Ok((0, 0, seq![]))
    } else {
        match run_prefix(ins, line, (n - 1) as nat) {
            Ok((i, m, a)) => step(ins[n - 1], line, i, m, a),
            Err(e) => Err(e),
        }
    }
}

proof fn lemma_run_from_step(
    ins: Seq<ParserInstruction>,
    line: Seq<u8>,
    pc: int,
    index: int,
    mark: int,
    acc: Seq<ParsedRowValue>,
)
    requires
        0 <= pc < ins.len(),
    ensures
        run_from(ins, line, pc, index, mark, acc) == match step(ins[pc], line, index, mark, acc) {
            Ok((i, m, a)) => run_from(ins, line, pc + 1, i, m, a),
            Err(e) => Err(e),
        },
{
}

/// Parsing a line continues from the state that its first `n` instructions
/// leave.
pub proof fn lemma_parse_from_prefix(ins: Seq<ParserInstruction>, line: Seq<u8>, n: nat)
    requires
        n <= ins.len(),
        run_prefix(ins, line, n) is Ok,
    ensures
        ({
            let (i, m, a) = run_prefix(ins, line, n)->Ok_0;
            parse_spec(ins, line) == run_from(ins, line, n as int, i, m, a)
        }),
    decreases n,
{
    if n > 0 {
        let k = (n - 1) as nat;
        lemma_parse_from_prefix(ins, line, k);
        let (i, m, a) = run_prefix(ins, line, k)->Ok_0;
        lemma_run_from_step(ins, line, k as int, i, m, a);
    }
}

proof fn lemma_run_keeps_values(
    ins: Seq<ParserInstruction>,
    line: Seq<u8>,
    pc: int,
    index: int,
    mark: int,
    acc: Seq<ParsedRowValue>,
)
    requires
        0 <= pc <= ins.len(),
        run_from(ins, line, pc, index, mark, acc) is Ok,
    ensures
        acc.len() <= (run_from(ins, line, pc, index, mark, acc)->Ok_0).len(),
        (run_from(ins, line, pc, index, mark, acc)->Ok_0).subrange(0, acc.len() as int) == acc,
    decreases ins.len() - pc,
{
    let vals = run_from(ins, line, pc, index, mark, acc)->Ok_0;
    if pc == ins.len() {
        assert(vals.subrange(0, acc.len() as int) =~= acc);
    } else {
        lemma_run_from_step(ins, line, pc, index, mark, acc);
        let (i, m, a) = step(ins[pc], line, index, mark, acc)->Ok_0;
        lemma_run_keeps_values(ins, line, pc + 1, i, m, a);
        assert(a.len() >= acc.len() && a.subrange(0, acc.len() as int) =~= acc);
        assert(vals.subrange(0, acc.len() as int) =~= a.subrange(0, acc.len() as int));
    }
}

/// For a whole line: where the scan reaches an `EmitEnumeration(labels)`
/// instruction with the field equal to `labels[i]` and to no earlier label,
/// and the line parses, the value at that field's place is `Integer(i)`.
pub proof fn lemma_parse_enumeration_index(ins: Seq<ParserInstruction>, line: Seq<u8>, pc: nat, i: int)
    requires
        pc < ins.len(),
        ins[pc as int] is EmitEnumeration,
        run_prefix(ins, line, pc) is Ok,
        ({
            let (index, mark, acc) = run_prefix(ins, line, pc)->Ok_0;
            let labels = (ins[pc as int]->EmitEnumeration_0)@;
            &&& 0 <= i < labels.len()
            &&& line.subrange(mark, index) == bytes_of(labels[i]@)
            &&& forall|j: int| 0 <= j < i ==> bytes_of(#[trigger] labels[j]@) != line.subrange(mark, index)
        }),
    ensures
        ({
            let acc = (run_prefix(ins, line, pc)->Ok_0).2;
            parse_spec(ins, line) is Ok ==> (parse_spec(ins, line)->Ok_0).len() > acc.len()
                && (parse_spec(ins, line)->Ok_0)[acc.len() as int] == ParsedRowValue::Integer(i as i64)
        }),
{
    let (index, mark, acc) = run_prefix(ins, line, pc)->Ok_0;
    lemma_parse_from_prefix(ins, line, pc);
    lemma_enumeration_label_index(ins, line, pc as int, index, mark, acc, i);
    let a2 = acc.push(ParsedRowValue::Integer(i as i64));
    if parse_spec(ins, line) is Ok {
        lemma_run_keeps_values(ins, line, pc as int + 1, index, mark, a2);
        let vals = parse_spec(ins, line)->Ok_0;
        assert(vals.subrange(0, a2.len() as int)[acc.len() as int] == a2[acc.len() as int]);
    }
}

/// For a whole line: where the scan reaches an `EmitEnumeration(labels)`
/// instruction with a field equal to none of the labels, the line fails with
/// `UnknownEnumValue`.
pub proof fn lemma_parse_unknown_label(ins: Seq<ParserInstruction>, line: Seq<u8>, pc: nat)
    requires
        pc < ins.len(),
        ins[pc as int] is EmitEnumeration,
        run_prefix(ins, line, pc) is Ok,
        ({
            let (index, mark, acc) = run_prefix(ins, line, pc)->Ok_0;
            let labels = (ins[pc as int]->EmitEnumeration_0)@;
            forall|j: int| 0 <= j < labels.len() ==> bytes_of(#[trigger] labels[j]@) != line.subrange(mark, index)
        }),
    ensures
        parse_spec(ins, line) == Err::<Seq<ParsedRowValue>, ParseError>(ParseError::UnknownEnumValue),
{
    let (index, mark, acc) = run_prefix(ins, line, pc)->Ok_0;
    lemma_parse_from_prefix(ins, line, pc);
    lemma_enumeration_unknown_label(ins, line, pc as int, index, mark, acc);
}

/// The bytes of two texts together are the bytes of each, in order.
pub proof fn lemma_bytes_concat(a: Seq<char>, b: Seq<char>)
    ensures
        bytes_of(a + b) == bytes_of(a) + bytes_of(b),
    decreases a.len(),
{
    if a.len() == 0 {
        assert(a + b =~= b);
        assert(bytes_of(a) =~= Seq::<u8>::empty());
        assert(bytes_of(a) + bytes_of(b) =~= bytes_of(b));
    } else {
        lemma_bytes_concat(a.drop_first(), b);
        assert((a + b).drop_first() =~= a.drop_first() + b);
        assert((a + b)[0] == a[0]);
        assert(bytes_of(a + b) =~= bytes_of(a) + bytes_of(b));
    }
}

} // verus!

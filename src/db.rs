//! The row store's side of the engine that needs no connection: the values
//! read back from the store, the requests and responses of the query
//! service, and the SQL text that the store runs.

use vstd::prelude::*;
use vstd::string::*;
use vstd::utf8::is_char_boundary;

use crate::logalang::{filter_sql, FilterRule};
use crate::parse::{
    bytes_of, row_values_of, row_values_slice, value_range, value_readable, ColumnDefinition,
    ColumnType, ParsedRowValue, Row,
};

verus! {

/// `s` with every `'` doubled.
pub open spec fn escape_quotes(s: Seq<char>) -> Seq<char>
    decreases s.len(),
{
    if s.len() == 0 {
        seq![]
    } else if s.last() == '\'' {
        escape_quotes(s.drop_last()) + seq!['\'', '\'']
    } else {
        escape_quotes(s.drop_last()).push(s.last())
    }
}

/// Makes a text safe to embed in an SQL string literal: each `'` becomes `''`.
pub fn sanitize_filter(filter: &str) -> (r: String)
    ensures
        r@ == escape_quotes(filter@),
{
    let n = filter.unicode_len();
    let mut r = String::new();
    let mut i: usize = 0;
    while i < n
        invariant
            n == filter@.len(),
            i <= n,
            r@ == escape_quotes(filter@.subrange(0, i as int)),
        decreases n - i,
    {
        let c = filter.get_char(i);
        let piece = filter.substring_char(i, i + 1);
        proof {
            let next = filter@.subrange(0, i as int + 1);
            assert(next.drop_last() =~= filter@.subrange(0, i as int));
            assert(next.last() == c);
            assert(piece@ =~= seq![c]);
        }
        r.append(piece);
        if c == '\'' {
            r.append(piece);
        }
        proof {
            assert(seq![c] + seq![c] =~= seq!['\'', '\''] || c != '\'');
            assert(r@ =~= escape_quotes(filter@.subrange(0, i as int + 1)));
        }
        i = i + 1;
    }
    proof {
        assert(filter@.subrange(0, n as int) =~= filter@);
    }
    r
}

/// `t` holds no lone `'`: read from the end, every `'` is one of a pair.
pub open spec fn quotes_paired(t: Seq<char>) -> bool
    decreases t.len(),
{
    if t.len() == 0 {
        true
    } else if t.last() == '\'' {
        t.len() >= 2 && t[t.len() - 2] == '\'' && quotes_paired(t.subrange(0, t.len() - 2))
    } else {
        quotes_paired(t.drop_last())
    }
}

/// `t` with every pair `''` read back as one `'`.
pub open spec fn unescape_quotes(t: Seq<char>) -> Seq<char>
    decreases t.len(),
{
    if t.len() == 0 {
        seq![]
    } else if t.len() >= 2 && t.last() == '\'' && t[t.len() - 2] == '\'' {
        unescape_quotes(t.subrange(0, t.len() - 2)).push('\'')
    } else {
        unescape_quotes(t.drop_last()).push(t.last())
    }
}

/// A literal embedded in SQL cannot end the string early: its escaped form
/// holds quotes only in doubled pairs, and reading the pairs back gives the
/// literal unchanged.
pub proof fn lemma_escape_injection_safe(s: Seq<char>)
    ensures
        quotes_paired(escape_quotes(s)),
        unescape_quotes(escape_quotes(s)) == s,
    decreases s.len(),
{
    if s.len() > 0 {
        let p = escape_quotes(s.drop_last());
        lemma_escape_injection_safe(s.drop_last());
        let e = escape_quotes(s);
        if s.last() == '\'' {
            assert(e.subrange(0, e.len() - 2) =~= p);
        } else {
            assert(e.drop_last() =~= p);
            if p.len() >= 1 {
                assert(e[e.len() - 2] == p.last());
            }
        }
        assert(unescape_quotes(e) =~= s);
    }
}

// ---------------------------------------------------------------- queries

/// The condition of one rule.
pub open spec fn rule_sql(r: FilterRule) -> Seq<char> {
    filter_sql(r.rules@, r.column_name@)
}

/// Two or more rules, each in parentheses, joined by `AND`.
pub open spec fn joined_rules_sql(rules: Seq<FilterRule>) -> Seq<char>
    decreases rules.len(),
{
    if rules.len() <= 1 {
        if rules.len() == 0 {
            seq![]
        } else {
            "("@ + rule_sql(rules[0]) + ")"@
        }
    } else {
        joined_rules_sql(rules.drop_last()) + " AND ("@ + rule_sql(rules.last()) + ")"@
    }
}

/// The `WHERE` clause of a list of rules: nothing for no rule, the rule's
/// condition for one rule, and the conjunction of the conditions otherwise.
pub open spec fn where_clause(rules: Seq<FilterRule>) -> Seq<char> {
    if rules.len() == 0 {
        seq![]
    } else if rules.len() == 1 {
        "WHERE "@ + rule_sql(rules[0])
    } else {
        "WHERE "@ + joined_rules_sql(rules)
    }
}

/// Compiles the rules of a request into a `WHERE` clause (empty for none).
pub fn compile_filters(rules: &Vec<FilterRule>) -> (r: String)
    ensures
        r@ == where_clause(rules@),
{
    if rules.len() == 0 {
        return String::new();
    }
    if rules.len() == 1 {
        return rules[0].get_sql();
    }
    let mut joined = String::from_str("(");
    let first = rules[0].rules.get_sql(rules[0].column_name.as_str());
    joined.append(first.as_str());
    joined.append(")");
    proof {
        assert(rules@.subrange(0, 1).drop_last().len() == 0);
        assert(joined_rules_sql(rules@.subrange(0, 1)) == "("@ + rule_sql(rules@[0]) + ")"@);
    }
    let mut i: usize = 1;
    while i < rules.len()
        invariant
            1 <= i <= rules@.len(),
            joined@ == joined_rules_sql(rules@.subrange(0, i as int)),
        decreases rules@.len() - i,
    {
        joined.append(" AND (");
        let c = rules[i].rules.get_sql(rules[i].column_name.as_str());
        joined.append(c.as_str());
        joined.append(")");
        proof {
            let next = rules@.subrange(0, i as int + 1);
            assert(next.drop_last() =~= rules@.subrange(0, i as int));
            assert(next.last() == rules@[i as int]);
        }
        i = i + 1;
    }
    proof {
        assert(rules@.subrange(0, rules@.len() as int) =~= rules@);
    }
    let mut r = String::from_str("WHERE ");
    r.append(joined.as_str());
    r
}

/// The query of one window of rows: all columns, identity first.
pub open spec fn select_sql(rules: Seq<FilterRule>) -> Seq<char> {
    "SELECT * FROM row "@ + where_clause(rules) + " LIMIT ?1 OFFSET ?2"@
}

/// The query text of a windowed read; the limit and the offset are its
/// parameters `?1` and `?2`.
pub fn select_rows_sql(rules: &Vec<FilterRule>) -> (r: String)
    ensures
        r@ == select_sql(rules@),
{
    let mut r = String::from_str("SELECT * FROM row ");
    let w = compile_filters(rules);
    r.append(w.as_str());
    r.append(" LIMIT ?1 OFFSET ?2");
    r
}

/// The text of one decimal digit.
pub open spec fn digit_text(d: int) -> Seq<char> {
    if d == 0 {
        "0"@
    } else if d == 1 {
        "1"@
    } else if d == 2 {
        "2"@
    } else if d == 3 {
        "3"@
    } else if d == 4 {
        "4"@
    } else if d == 5 {
        "5"@
    } else if d == 6 {
        "6"@
    } else if d == 7 {
        "7"@
    } else if d == 8 {
        "8"@
    } else {
        "9"@
    }
}

/// The decimal text of a number.
pub open spec fn decimal(n: nat) -> Seq<char>
    decreases n,
{
    if n < 10 {
        digit_text(n as int)
    } else {
        decimal(n / 10) + digit_text((n % 10) as int)
    }
}

fn digit_str(d: usize) -> (r: &'static str)
    requires
        d < 10,
    ensures
        r@ == digit_text(d as int),
{
    if d == 0 {
        "0"
    } else if d == 1 {
        "1"
    } else if d == 2 {
        "2"
    } else if d == 3 {
        "3"
    } else if d == 4 {
        "4"
    } else if d == 5 {
        "5"
    } else if d == 6 {
        "6"
    } else if d == 7 {
        "7"
    } else if d == 8 {
        "8"
    } else {
        "9"
    }
}

fn decimal_text(n: usize) -> (r: String)
    ensures
        r@ == decimal(n as nat),
    decreases n,
{
    if n < 10 {
        String::from_str(digit_str(n))
    } else {
        let mut r = decimal_text(n / 10);
        r.append(digit_str(n % 10));
        r
    }
}

/// The store's name of the column at `index` of the format.
pub open spec fn column_name_spec(index: nat) -> Seq<char> {
    "Column"@ + decimal(index)
}

/// The store's name of the column at `index` of the format.
pub fn column_name(index: usize) -> (r: String)
    ensures
        r@ == column_name_spec(index as nat),
{
    let mut r = String::from_str("Column");
    let d = decimal_text(index);
    r.append(d.as_str());
    r
}

/// The store type of a column: text for strings, integers for timestamps and
/// enumeration indices.
pub open spec fn store_type(t: ColumnType) -> Seq<char> {
    match t {
        ColumnType::String => "TEXT"@,
        ColumnType::Date => "INTEGER"@,
        ColumnType::Enumeration(_) => "INTEGER"@,
    }
}

pub open spec fn column_decls(columns: Seq<ColumnDefinition>) -> Seq<char>
    decreases columns.len(),
{
    if columns.len() == 0 {
        seq![]
    } else {
        column_decls(columns.drop_last()) + ", "@ + column_name_spec((columns.len() - 1) as nat) + " "@
            + store_type(columns.last().column_type) + " not null"@
    }
}

/// The schema: an identity column, then one column per definition, in order.
pub open spec fn create_table_sql(columns: Seq<ColumnDefinition>) -> Seq<char> {
    "CREATE TABLE IF NOT EXISTS row (id INTEGER not null primary key"@ + column_decls(columns) + ")"@
}

/// The statement that creates the table of the rows.
pub fn create_table(columns: &Vec<ColumnDefinition>) -> (r: String)
    ensures
        r@ == create_table_sql(columns@),
{
    let mut r = String::from_str("CREATE TABLE IF NOT EXISTS row (id INTEGER not null primary key");
    let mut i: usize = 0;
    while i < columns.len()
        invariant
            i <= columns@.len(),
            r@ == "CREATE TABLE IF NOT EXISTS row (id INTEGER not null primary key"@ + column_decls(
                columns@.subrange(0, i as int),
            ),
        decreases columns@.len() - i,
    {
        let ghost before = r@;
        r.append(", ");
        let name = column_name(i);
        r.append(name.as_str());
        r.append(" ");
        let t: &str = match &columns[i].column_type {
            ColumnType::String => "TEXT",
            ColumnType::Date => "INTEGER",
            ColumnType::Enumeration(_) => "INTEGER",
        };
        r.append(t);
        r.append(" not null");
        proof {
            let next = columns@.subrange(0, i as int + 1);
            assert(next.drop_last() =~= columns@.subrange(0, i as int));
            assert(next.last() == columns@[i as int]);
        }
        i = i + 1;
    }
    proof {
        assert(columns@.subrange(0, columns@.len() as int) =~= columns@);
    }
    r.append(")");
    r
}

/// `(NULL,?,...,?)` with one `?` per column.
pub open spec fn row_placeholders(columns: nat) -> Seq<char>
    decreases columns,
{
    if columns == 0 {
        "(NULL"@
    } else {
        row_placeholders((columns - 1) as nat) + ",?"@
    }
}

pub open spec fn rows_placeholders(columns: nat, rows: nat) -> Seq<char>
    decreases rows,
{
    if rows <= 1 {
        if rows == 0 {
            seq![]
        } else {
            row_placeholders(columns) + ")"@
        }
    } else {
        rows_placeholders(columns, (rows - 1) as nat) + ","@ + row_placeholders(columns) + ")"@
    }
}

/// The statement that inserts `rows` rows of `columns` values each, the
/// identity left to the store.
pub open spec fn insert_sql(columns: nat, rows: nat) -> Seq<char> {
    "INSERT INTO row VALUES "@ + rows_placeholders(columns, rows)
}

/// The text of a multi-row insert with parameters for every value.
pub fn insert_rows_sql(columns: usize, rows: usize) -> (r: String)
    ensures
        r@ == insert_sql(columns as nat, rows as nat),
{
    let mut one = String::from_str("(NULL");
    let mut c: usize = 0;
    while c < columns
        invariant
            c <= columns,
            one@ == row_placeholders(c as nat),
        decreases columns - c,
    {
        one.append(",?");
        c = c + 1;
    }
    one.append(")");
    let mut r = String::from_str("INSERT INTO row VALUES ");
    let mut k: usize = 0;
    while k < rows
        invariant
            k <= rows,
            one@ == row_placeholders(columns as nat) + ")"@,
            r@ == "INSERT INTO row VALUES "@ + rows_placeholders(columns as nat, k as nat),
        decreases rows - k,
    {
        if k > 0 {
            r.append(",");
        }
        r.append(one.as_str());
        proof {
            if k == 0 {
                assert(rows_placeholders(columns as nat, 0) =~= Seq::<char>::empty());
                assert(("INSERT INTO row VALUES "@ + Seq::<char>::empty()) =~= "INSERT INTO row VALUES "@);
            }
        }
        k = k + 1;
    }
    r
}

// ---------------------------------------------------------------- values

/// A value as the store holds it and hands it back.
#[derive(Clone, Debug)]
pub enum DbRowValue {
    String(String),
    Date(i64),
    Integer(i64),
}

/// One stored row: its identity, then one value per column.
pub type DbLogRow = Vec<DbRowValue>;

/// A read request to the query service.
pub struct DbRequest {
    pub id: u32,
    pub offset: usize,
    pub limit: usize,
    pub filters: Vec<FilterRule>,
}

/// What the query service answers.
pub enum DbResponse {
    FilterApplied { id: u32, total_filtered_rows: usize },
    RowsFetched { id: u32, offset: usize, limit: usize, rows: Vec<DbLogRow> },
}

/// The position of the last string value of a row, if it has one.
pub open spec fn last_text_index(values: Seq<ParsedRowValue>) -> Option<int>
    decreases values.len(),
{
    if values.len() == 0 {
        None
    } else if values.last() is String {
        Some(values.len() - 1)
    } else {
        last_text_index(values.drop_last())
    }
}

/// The bytes stored for the string value at `k`: its range of the line, and
/// for the row's last string value, the continuation text after it.
pub open spec fn stored_text(
    line: Seq<u8>,
    values: Seq<ParsedRowValue>,
    continuation: Seq<char>,
    k: int,
) -> Seq<u8> {
    line.subrange(value_range(line, values[k])->Some_0.0, value_range(line, values[k])->Some_0.1)
        + if last_text_index(values) == Some(k) {
        bytes_of(continuation)
    } else {
        Seq::<u8>::empty()
    }
}

/// `d` is the stored form of the value at `k` of a row with the given line
/// and continuation.
pub open spec fn stored_as(
    line: Seq<u8>,
    values: Seq<ParsedRowValue>,
    continuation: Seq<char>,
    k: int,
    d: DbRowValue,
) -> bool {
    match values[k] {
        ParsedRowValue::String { .. } => match d {
            DbRowValue::String(t) => bytes_of(t@) == stored_text(line, values, continuation, k),
            _ => false,
        },
        ParsedRowValue::Date(x) => d matches DbRowValue::Date(y) && x == y,
        ParsedRowValue::Integer(x) => d matches DbRowValue::Integer(y) && x == y,
    }
}

/// The position of the last string value.
fn last_text_position(vals: &[ParsedRowValue]) -> (r: Option<usize>)
    ensures
        match r {
            Some(i) => last_text_index(vals@) == Some(i as int),
            None => last_text_index(vals@) is None,
        },
{
    let mut k: usize = vals.len();
    assert(vals@.subrange(0, vals@.len() as int) =~= vals@);
    while k > 0
        invariant
            k <= vals@.len(),
            last_text_index(vals@) == last_text_index(vals@.subrange(0, k as int)),
        decreases k,
    {
        let ghost pre = vals@.subrange(0, k as int);
        assert(pre.drop_last() =~= vals@.subrange(0, k - 1));
        assert(pre.last() == vals@[k - 1]);
        if let ParsedRowValue::String { .. } = vals[k - 1] {
            return Some(k - 1);
        }
        k = k - 1;
    }
    None
}

/// Copies the values of a row out of its line, the point where they stop
/// borrowing from the row; the row's continuation text goes to the end of
/// its last string value (a row without string values stores no
/// continuation). `None` where a string value does not cover a readable
/// range of the line.
pub fn row_to_db_values(row: &Row) -> (r: Option<Vec<DbRowValue>>)
    ensures
        (forall|k: int|
            0 <= k < row_values_of(row.values).len() ==> value_readable(
                bytes_of(row.line@),
                #[trigger] row_values_of(row.values)[k],
            )) <==> r is Some,
        r matches Some(out) ==> out@.len() == row_values_of(row.values).len() && forall|k: int|
            0 <= k < out@.len() ==> stored_as(
                bytes_of(row.line@),
                row_values_of(row.values),
                row.continuation@,
                k,
                #[trigger] out@[k],
            ),
{
    let vals = row_values_slice(&row.values);
    let last_text = last_text_position(vals);
    let line: &str = row.line.as_str();
    let ghost lb = bytes_of(row.line@);
    let n = line.as_bytes().len();
    assert(n == lb.len());
    let mut out: Vec<DbRowValue> = Vec::new();
    let mut k: usize = 0;
    while k < vals.len()
        invariant
            vals@ == row_values_of(row.values),
            line@ == row.line@,
            lb == bytes_of(row.line@),
            lb == line.spec_bytes(),
            n == lb.len(),
            k <= vals@.len(),
            out@.len() == k,
            forall|j: int| 0 <= j < k ==> value_readable(lb, #[trigger] vals@[j]),
            forall|j: int| 0 <= j < k ==> stored_as(lb, vals@, row.continuation@, j, #[trigger] out@[j]),
            match last_text {
                Some(i) => last_text_index(vals@) == Some(i as int),
                None => last_text_index(vals@) is None,
            },
        decreases vals@.len() - k,
    {
        let v = vals[k];
        match v {
            ParsedRowValue::String { start, end } => {
                let s = start as usize;
                let e: usize = if end == -1 {
                    n
                } else if end < 0 {
                    return None;
                } else {
                    end as usize
                };
                if s > e || e > n || !line.is_char_boundary(s) || !line.is_char_boundary(e) {
                    return None;
                }
                let (head, _) = line.split_at(e);
                proof {
                    assert(head.spec_bytes() =~= lb.subrange(0, e as int));
                    let p = lb.subrange(0, e as int);
                    vstd::utf8::encode_utf8_valid_utf8(row.line@);
                    vstd::utf8::valid_utf8_split(lb, e as int);
                    if s < e {
                        vstd::utf8::is_char_boundary_iff_not_is_continuation_byte(lb, s as int);
                        vstd::utf8::is_char_boundary_iff_not_is_continuation_byte(p, s as int);
                        assert(p[s as int] == lb[s as int]);
                    } else {
                        vstd::utf8::is_char_boundary_start_end_of_seq(p);
                    }
                    assert(is_char_boundary(p, s as int));
                }
                let (_, middle) = head.split_at(s);
                let mut t = String::from_str(middle);
                proof {
                    assert(middle.spec_bytes() =~= lb.subrange(s as int, e as int));
                    assert(bytes_of(t@) == lb.subrange(s as int, e as int));
                    assert(value_range(lb, vals@[k as int]) == Some((s as int, e as int)));
                }
                let is_last = match last_text {
                    Some(i) => i == k,
                    None => false,
                };
                assert(is_last == (last_text_index(vals@) == Some(k as int)));
                if is_last {
                    let ghost before = t@;
                    t.append(row.continuation.as_str());
                    proof {
                        crate::parse::lemma_bytes_concat(before, row.continuation@);
                    }
                } else {
                    proof {
                        assert(bytes_of(t@) =~= bytes_of(t@) + Seq::<u8>::empty());
                    }
                }
                proof {
                    assert(bytes_of(t@) == stored_text(lb, vals@, row.continuation@, k as int));
                }
                let ghost old_out = out@;
                out.push(DbRowValue::String(t));
                proof {
                    assert forall|j: int| 0 <= j < k + 1 implies stored_as(lb, vals@, row.continuation@, j, #[trigger] out@[j]) by {
                        if j < k {
                            assert(out@[j] == old_out[j]);
                        }
                    }
                }
            },
            ParsedRowValue::Date(x) => {
                out.push(DbRowValue::Date(x));
            },
            ParsedRowValue::Integer(x) => {
                out.push(DbRowValue::Integer(x));
            },
        }
        k = k + 1;
    }
    Some(out)
}

} // verus!

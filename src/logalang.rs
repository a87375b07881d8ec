//! The filter language: a per-column boolean query over string literals,
//! its syntax tree, and its compilation to an SQL condition.
//!
//! Syntax: `column = expr`, where `expr` is a literal `"text"`, a negation
//! `! expr`, or a chain of literals and negations joined all by `AND` or all
//! by `OR`. A literal holds no escapes; it ends at the next `"`.

use vstd::prelude::*;
use vstd::string::*;

use crate::db::{escape_quotes, sanitize_filter};

verus! {

/// The syntax tree of a filter expression.
#[derive(Debug)]
pub enum Filter {
    And(Box<Filter>, Box<Filter>),
    Or(Box<Filter>, Box<Filter>),
    Not(Box<Filter>),
    ContainsString(String),
}

/// The mathematical value of a filter expression.
pub enum FilterView {
    And(Box<FilterView>, Box<FilterView>),
    Or(Box<FilterView>, Box<FilterView>),
    Not(Box<FilterView>),
    ContainsString(Seq<char>),
}

impl View for Filter {
    type V = FilterView;

    open spec fn view(&self) -> FilterView
        decreases self,
    {
        match self {
            Filter::And(l, r) => FilterView::And(Box::new((**l).view()), Box::new((**r).view())),
            Filter::Or(l, r) => FilterView::Or(Box::new((**l).view()), Box::new((**r).view())),
            Filter::Not(x) => FilterView::Not(Box::new((**x).view())),
            Filter::ContainsString(s) => FilterView::ContainsString(s@),
        }
    }
}

/// A filter expression aimed at one column.
#[derive(Debug)]
pub struct FilterRule {
    pub column_name: String,
    pub rules: Filter,
}

/// The SQL condition of a filter expression on a column.
pub open spec fn filter_sql(f: FilterView, column: Seq<char>) -> Seq<char>
    decreases f,
{
    match f {
        FilterView::And(l, r) => filter_sql(*l, column) + " AND "@ + filter_sql(*r, column),
        FilterView::Or(l, r) => filter_sql(*l, column) + " OR "@ + filter_sql(*r, column),
        FilterView::Not(x) => "NOT ("@ + filter_sql(*x, column) + ")"@,
        FilterView::ContainsString(s) => column + " LIKE '%"@ + escape_quotes(s) + "%'"@,
    }
}

impl Filter {
    /// The SQL condition that this filter sets on `column_name`.
    pub fn get_sql(&self, column_name: &str) -> (r: String)
        ensures
            r@ == filter_sql(self@, column_name@),
        decreases self,
    {
        match self {
            Filter::And(left, right) => {
                let mut s = left.get_sql(column_name);
                s.append(" AND ");
                let t = right.get_sql(column_name);
                s.append(t.as_str());
                s
            },
            Filter::Or(left, right) => {
                let mut s = left.get_sql(column_name);
                s.append(" OR ");
                let t = right.get_sql(column_name);
                s.append(t.as_str());
                s
            },
            Filter::Not(other) => {
                let mut s = String::from_str("NOT (");
                let t = other.get_sql(column_name);
                s.append(t.as_str());
                s.append(")");
                s
            },
            Filter::ContainsString(pat) => {
                let mut s = String::from_str(column_name);
                s.append(" LIKE '%");
                let e = sanitize_filter(pat.as_str());
                s.append(e.as_str());
                s.append("%'");
                s
            },
        }
    }
}

impl FilterRule {
    /// The condition of this rule as a `WHERE` clause.
    pub fn get_sql(&self) -> (r: String)
        ensures
            r@ == "WHERE "@ + filter_sql(self.rules@, self.column_name@),
    {
        let mut s = String::from_str("WHERE ");
        let t = self.rules.get_sql(self.column_name.as_str());
        s.append(t.as_str());
        s
    }
}

// ---------------------------------------------------------------- grammar

pub open spec fn is_space(c: char) -> bool {
    c == ' ' || c == '\t'
}

pub open spec fn is_name_char(c: char) -> bool {
    ('a' <= c && c <= 'z') || ('A' <= c && c <= 'Z') || ('0' <= c && c <= '9') || c == '_'
}

/// The first position at or after `i` that holds no space.
pub open spec fn skip_spaces(s: Seq<char>, i: int) -> int
    decreases s.len() - i,
{
    if 0 <= i < s.len() && is_space(s[i]) {
        skip_spaces(s, i + 1)
    } else {
        i
    }
}

/// The first position at or after `i` that holds no name character.
pub open spec fn name_end(s: Seq<char>, i: int) -> int
    decreases s.len() - i,
{
    if 0 <= i < s.len() && is_name_char(s[i]) {
        name_end(s, i + 1)
    } else {
        i
    }
}

/// The first position at or after `i` that holds a `"`, or the end.
pub open spec fn quote_end(s: Seq<char>, i: int) -> int
    decreases s.len() - i,
{
    if 0 <= i < s.len() && s[i] != '"' {
        quote_end(s, i + 1)
    } else {
        i
    }
}

pub open spec fn keyword(and: bool) -> Seq<char> {
    if and {
        seq!['A', 'N', 'D']
    } else {
        seq!['O', 'R']
    }
}

pub open spec fn keyword_at(s: Seq<char>, i: int, kw: Seq<char>) -> bool {
    0 <= i && i + kw.len() <= s.len() && s.subrange(i, i + kw.len()) == kw
}

pub open spec fn combine(a: FilterView, b: FilterView, and: bool) -> FilterView {
    if and {
        FilterView::And(Box::new(a), Box::new(b))
    } else {
        FilterView::Or(Box::new(a), Box::new(b))
    }
}

pub proof fn lemma_skip_spaces(s: Seq<char>, i: int)
    ensures
        i <= skip_spaces(s, i),
        0 <= i <= s.len() ==> skip_spaces(s, i) <= s.len(),
    decreases s.len() - i,
{
    if 0 <= i < s.len() && is_space(s[i]) {
        lemma_skip_spaces(s, i + 1);
    }
}

proof fn lemma_name_end(s: Seq<char>, i: int)
    ensures
        i <= name_end(s, i),
        0 <= i <= s.len() ==> name_end(s, i) <= s.len(),
    decreases s.len() - i,
{
    if 0 <= i < s.len() && is_name_char(s[i]) {
        lemma_name_end(s, i + 1);
    }
}

pub proof fn lemma_quote_end(s: Seq<char>, i: int)
    ensures
        i <= quote_end(s, i),
        0 <= i <= s.len() ==> quote_end(s, i) <= s.len(),
    decreases s.len() - i,
{
    if 0 <= i < s.len() && s[i] != '"' {
        lemma_quote_end(s, i + 1);
    }
}

/// A literal, or `!` followed by an operand, starting at `i`; with the
/// position after it.
pub open spec fn parse_operand(s: Seq<char>, i: int) -> Option<(FilterView, int)>
    decreases s.len() - i,
{
    if i < 0 || i >= s.len() {
        None
    } else if s[i] == '!' {
        proof {
            lemma_skip_spaces(s, i + 1);
        }
        match parse_operand(s, skip_spaces(s, i + 1)) {
            Some((f, j)) => Some((FilterView::Not(Box::new(f)), j)),
            None => None,
        }
    } else if s[i] == '"' {
        let e = quote_end(s, i + 1);
        if e < s.len() {
            Some((FilterView::ContainsString(s.subrange(i + 1, e)), e + 1))
        } else {
            None
        }
    } else {
        None
    }
}

pub proof fn lemma_operand_advances(s: Seq<char>, i: int)
    ensures
        parse_operand(s, i) matches Some((f, j)) ==> i < j <= s.len(),
    decreases s.len() - i,
{
    if 0 <= i < s.len() {
        if s[i] == '!' {
            lemma_skip_spaces(s, i + 1);
            lemma_operand_advances(s, skip_spaces(s, i + 1));
        } else if s[i] == '"' {
            lemma_quote_end(s, i + 1);
        }
    }
}

/// Continues a chain of operands joined by one keyword, after an operand
/// that ends at `i`; folds to the left.
pub open spec fn parse_chain(s: Seq<char>, i: int, acc: FilterView, and: bool) -> (FilterView, int)
    decreases s.len() - i,
{
    let k = skip_spaces(s, i);
    let kw = keyword(and);
    if keyword_at(s, k, kw) {
        proof {
            lemma_skip_spaces(s, i);
            lemma_skip_spaces(s, k + kw.len());
            lemma_operand_advances(s, skip_spaces(s, k + kw.len()));
        }
        match parse_operand(s, skip_spaces(s, k + kw.len())) {
            Some((f, j)) => parse_chain(s, j, combine(acc, f, and), and),
            None => (acc, i),
        }
    } else {
        (acc, i)
    }
}

/// An expression starting at `i`, with the position after it.
pub open spec fn parse_expr(s: Seq<char>, i: int) -> Option<(FilterView, int)> {
    match parse_operand(s, i) {
        Some((f, j)) => Some(
            parse_chain(s, j, f, keyword_at(s, skip_spaces(s, j), keyword(true))),
        ),
        None => None,
    }
}

/// A whole text that is one expression, spaces around it allowed.
pub open spec fn parse_expression_spec(s: Seq<char>) -> Option<FilterView> {
    match parse_expr(s, skip_spaces(s, 0)) {
        Some((f, d)) => if skip_spaces(s, d) == s.len() {
            Some(f)
        } else {
            None
        },
        None => None,
    }
}

/// A whole text of the form `column = expression`: the column name and the
/// expression.
pub open spec fn parse_rule_spec(s: Seq<char>) -> Option<(Seq<char>, FilterView)> {
    let a = skip_spaces(s, 0);
    let b = name_end(s, a);
    let c = skip_spaces(s, b);
    if b == a || c >= s.len() || s[c] != '=' {
        None
    } else {
        match parse_expr(s, skip_spaces(s, c + 1)) {
            Some((f, d)) => if skip_spaces(s, d) == s.len() {
                Some((s.subrange(a, b), f))
            } else {
                None
            },
            None => None,
        }
    }
}

// ---------------------------------------------------------------- parser

/// A filter text that does not follow the grammar.
#[derive(Clone, Copy, Debug, PartialEq, Eq, Structural)]
pub struct SyntaxError;

/// The parser of the filter language.
pub struct LogalangParser;

/// The characters of a text, in order.
fn text_chars(text: &str) -> (r: Vec<char>)
    ensures
        r@ == text@,
{
    let n = text.unicode_len();
    let mut r: Vec<char> = Vec::new();
    let mut i: usize = 0;
    while i < n
        invariant
            n == text@.len(),
            i <= n,
            r@ == text@.subrange(0, i as int),
        decreases n - i,
    {
        r.push(text.get_char(i));
        proof {
            assert(r@ =~= text@.subrange(0, i as int + 1));
        }
        i = i + 1;
    }
    proof {
        assert(text@.subrange(0, n as int) =~= text@);
    }
    r
}

fn skip_spaces_exec(s: &Vec<char>, i: usize) -> (r: usize)
    requires
        i <= s@.len(),
    ensures
        r as int == skip_spaces(s@, i as int),
        i <= r <= s@.len(),
{
    let mut j = i;
    while j < s.len() && (s[j] == ' ' || s[j] == '\t')
        invariant
            i <= j <= s@.len(),
            skip_spaces(s@, i as int) == skip_spaces(s@, j as int),
        decreases s@.len() - j,
    {
        j = j + 1;
    }
    j
}

fn keyword_at_exec(s: &Vec<char>, i: usize, and: bool) -> (r: bool)
    requires
        i <= s@.len(),
    ensures
        r == keyword_at(s@, i as int, keyword(and)),
{
    let ghost kw = keyword(and);
    if and {
        if s.len() >= 3 && i <= s.len() - 3 && s[i] == 'A' && s[i + 1] == 'N' && s[i + 2] == 'D' {
            assert(s@.subrange(i as int, i + 3) =~= kw);
            true
        } else {
            proof {
                if keyword_at(s@, i as int, kw) {
                    assert(s@.subrange(i as int, i + 3)[1] == s@[i + 1]);
                    assert(s@.subrange(i as int, i + 3)[2] == s@[i + 2]);
                    assert(s@.subrange(i as int, i + 3)[0] == s@[i as int]);
                }
            }
            false
        }
    } else {
        if s.len() >= 2 && i <= s.len() - 2 && s[i] == 'O' && s[i + 1] == 'R' {
            assert(s@.subrange(i as int, i + 2) =~= kw);
            true
        } else {
            proof {
                if keyword_at(s@, i as int, kw) {
                    assert(s@.subrange(i as int, i + 2)[1] == s@[i + 1]);
                    assert(s@.subrange(i as int, i + 2)[0] == s@[i as int]);
                }
            }
            false
        }
    }
}

fn parse_operand_exec(text: &str, s: &Vec<char>, i: usize) -> (r: Option<(Filter, usize)>)
    requires
        s@ == text@,
        i <= s@.len(),
    ensures
        match parse_operand(s@, i as int) {
            Some((f, j)) => r matches Some((g, k)) && g@ == f && k as int == j,
            None => r is None,
        },
    decreases s@.len() - i,
{
    if i >= s.len() {
        None
    } else if s[i] == '!' {
        let k = skip_spaces_exec(s, i + 1);
        match parse_operand_exec(text, s, k) {
            Some((g, j)) => Some((Filter::Not(Box::new(g)), j)),
            None => None,
        }
    } else if s[i] == '"' {
        let mut e = i + 1;
        while e < s.len() && s[e] != '"'
            invariant
                i + 1 <= e <= s@.len(),
                quote_end(s@, i + 1) == quote_end(s@, e as int),
            decreases s@.len() - e,
        {
            e = e + 1;
        }
        if e < s.len() {
            let lit = String::from_str(text.substring_char(i + 1, e));
            Some((Filter::ContainsString(lit), e + 1))
        } else {
            None
        }
    } else {
        None
    }
}

fn parse_expr_exec(text: &str, s: &Vec<char>, i: usize) -> (r: Option<(Filter, usize)>)
    requires
        s@ == text@,
        i <= s@.len(),
    ensures
        match parse_expr(s@, i as int) {
            Some((f, j)) => r matches Some((g, k)) && g@ == f && k as int == j && k <= s@.len(),
            None => r is None,
        },
{
    let first = parse_operand_exec(text, s, i);
    proof {
        lemma_operand_advances(s@, i as int);
    }
    match first {
        None => None,
        Some((f, j)) => {
            let k0 = skip_spaces_exec(s, j);
            let and = keyword_at_exec(s, k0, true);
            let ghost f0 = f@;
            let mut acc = f;
            let mut pos = j;
            let mut go = true;
            while go
                invariant
                    s@ == text@,
                    pos <= s@.len(),
                    parse_chain(s@, j as int, f0, and) == parse_chain(s@, pos as int, acc@, and),
                    !go ==> parse_chain(s@, pos as int, acc@, and) == (acc@, pos as int),
                decreases s@.len() - pos, if go { 1int } else { 0int },
            {
                let k = skip_spaces_exec(s, pos);
                let found = keyword_at_exec(s, k, and);
                if !found {
                    go = false;
                } else {
                    let kl: usize = if and {
                        3
                    } else {
                        2
                    };
                    assert(kl == keyword(and).len());
                    let n = s.len();
                    assert(k + kl <= n);
                    let m = skip_spaces_exec(s, k + kl);
                    proof {
                        lemma_operand_advances(s@, m as int);
                    }
                    match parse_operand_exec(text, s, m) {
                        Some((g, q)) => {
                            acc = if and {
                                Filter::And(Box::new(acc), Box::new(g))
                            } else {
                                Filter::Or(Box::new(acc), Box::new(g))
                            };
                            pos = q;
                        },
                        None => {
                            go = false;
                        },
                    }
                }
            }
            Some((acc, pos))
        },
    }
}

impl LogalangParser {
    /// Parses a text that holds one filter expression.
    pub fn parse_expression(text: &str) -> (r: Result<Filter, SyntaxError>)
        ensures
            match parse_expression_spec(text@) {
                Some(f) => r matches Ok(g) && g@ == f,
                None => r is Err,
            },
    {
        let s = text_chars(text);
        let a = skip_spaces_exec(&s, 0);
        match parse_expr_exec(text, &s, a) {
            Some((f, d)) => {
                if skip_spaces_exec(&s, d) == s.len() {
                    Ok(f)
                } else {
                    Err(SyntaxError)
                }
            },
            None => Err(SyntaxError),
        }
    }
}

/// Parses a filter line `column = expression` into a rule.
pub fn to_filter_rule(text: &str) -> (r: Result<FilterRule, SyntaxError>)
    ensures
        match parse_rule_spec(text@) {
            Some((name, f)) => r matches Ok(rule) && rule.column_name@ == name && rule.rules@ == f,
            None => r is Err,
        },
{
    let s = text_chars(text);
    let a = skip_spaces_exec(&s, 0);
    let mut b = a;
    while b < s.len() && (('a' <= s[b] && s[b] <= 'z') || ('A' <= s[b] && s[b] <= 'Z') || ('0'
        <= s[b] && s[b] <= '9') || s[b] == '_')
        invariant
            a <= b <= s@.len(),
            name_end(s@, a as int) == name_end(s@, b as int),
        decreases s@.len() - b,
    {
        b = b + 1;
    }
    let c = skip_spaces_exec(&s, b);
    if b == a || c >= s.len() || s[c] != '=' {
        return Err(SyntaxError);
    }
    let e = skip_spaces_exec(&s, c + 1);
    match parse_expr_exec(text, &s, e) {
        Some((f, d)) => {
            if skip_spaces_exec(&s, d) == s.len() {
                let name = String::from_str(text.substring_char(a, b));
                Ok(FilterRule { column_name: name, rules: f })
            } else {
                Err(SyntaxError)
            }
        },
        None => Err(SyntaxError),
    }
}

/// A text with no `"` and no `!`: a filter box's plain search text.
pub open spec fn is_bare_text(s: Seq<char>) -> bool {
    forall|i: int| 0 <= i < s.len() ==> #[trigger] s[i] != '"' && s[i] != '!'
}

/// What the text of a column's filter box means: plain text is the literal
/// that the column must contain; any other text is a filter expression.
pub open spec fn parse_line_spec(s: Seq<char>) -> Option<FilterView> {
    if is_bare_text(s) {
        Some(FilterView::ContainsString(s))
    } else {
        parse_expression_spec(s)
    }
}

/// Reads the text of a column's filter box as a filter: a text without `"`
/// or `!` is the literal that the column must contain; any other text must
/// be a filter expression, and a malformed one is a syntax error.
pub fn parse_line(line: &str) -> (r: Result<Filter, SyntaxError>)
    ensures
        match parse_line_spec(line@) {
            Some(f) => r matches Ok(g) && g@ == f,
            None => r is Err,
        },
{
    let s = text_chars(line);
    let mut i: usize = 0;
    while i < s.len()
        invariant
            s@ == line@,
            i <= s@.len(),
            forall|j: int| 0 <= j < i ==> #[trigger] s@[j] != '"' && s@[j] != '!',
        decreases s@.len() - i,
    {
        if s[i] == '"' || s[i] == '!' {
            assert(!is_bare_text(line@));
            return LogalangParser::parse_expression(line);
        }
        i = i + 1;
    }
    Ok(Filter::ContainsString(String::from_str(line)))
}

// ---------------------------------------------------------------- injection safety

/// The number of `'` in a text.
pub open spec fn quote_count(t: Seq<char>) -> nat
    decreases t.len(),
{
    if t.len() == 0 {
        0
    } else {
        quote_count(t.drop_last()) + if t.last() == '\'' {
            1nat
        } else {
            0nat
        }
    }
}

/// Which characters of a compiled filter are literal text: the `%`
/// wildcards and the escaped literal between them.
pub open spec fn literal_mask(f: FilterView, column: Seq<char>) -> Seq<bool>
    decreases f,
{
    match f {
        FilterView::And(l, r) => literal_mask(*l, column) + Seq::new(5, |i: int| false)
            + literal_mask(*r, column),
        FilterView::Or(l, r) => literal_mask(*l, column) + Seq::new(4, |i: int| false)
            + literal_mask(*r, column),
        FilterView::Not(x) => Seq::new(5, |i: int| false) + literal_mask(*x, column) + Seq::new(
            1,
            |i: int| false,
        ),
        FilterView::ContainsString(s) => Seq::new(column.len() + 7, |i: int| false) + Seq::new(
            escape_quotes(s).len() + 2,
            |i: int| true,
        ) + Seq::new(1, |i: int| false),
    }
}

/// Read as SQL reads quotes, with `start` quotes before `t`: each character
/// that is not a quote lies inside a string literal exactly where the mask
/// says so.
pub open spec fn lexes_as(t: Seq<char>, mask: Seq<bool>, start: nat) -> bool {
    &&& mask.len() == t.len()
    &&& forall|k: int|
        0 <= k < t.len() && t[k] != '\'' ==> (#[trigger] mask[k] <==> (start + quote_count(
            t.subrange(0, k),
        )) % 2 == 1)
}

proof fn lemma_quote_count_concat(a: Seq<char>, b: Seq<char>)
    ensures
        quote_count(a + b) == quote_count(a) + quote_count(b),
    decreases b.len(),
{
    if b.len() == 0 {
        assert(a + b =~= a);
    } else {
        lemma_quote_count_concat(a, b.drop_last());
        assert((a + b).drop_last() =~= a + b.drop_last());
    }
}

proof fn lemma_lexes_concat(a: Seq<char>, ma: Seq<bool>, b: Seq<char>, mb: Seq<bool>, start: nat)
    requires
        lexes_as(a, ma, start),
        lexes_as(b, mb, start + quote_count(a)),
    ensures
        lexes_as(a + b, ma + mb, start),
{
    assert forall|k: int| 0 <= k < (a + b).len() && (a + b)[k] != '\'' implies (#[trigger] (ma
        + mb)[k] <==> (start + quote_count((a + b).subrange(0, k))) % 2 == 1) by {
        if k < a.len() {
            assert((a + b).subrange(0, k) =~= a.subrange(0, k));
            assert((a + b)[k] == a[k]);
            assert((ma + mb)[k] == ma[k]);
        } else {
            let j = k - a.len();
            assert((a + b).subrange(0, k) =~= a + b.subrange(0, j));
            lemma_quote_count_concat(a, b.subrange(0, j));
            assert((a + b)[k] == b[j]);
            assert((ma + mb)[k] == mb[j]);
        }
    }
}

/// A text without quotes lies wholly outside or wholly inside a literal.
proof fn lemma_lexes_plain(t: Seq<char>, inside: bool, start: nat)
    requires
        forall|k: int| 0 <= k < t.len() ==> t[k] != '\'',
        (start % 2 == 1) == inside,
    ensures
        lexes_as(t, Seq::new(t.len(), |i: int| inside), start),
        quote_count(t) == 0,
    decreases t.len(),
{
    if t.len() > 0 {
        lemma_lexes_plain(t.drop_last(), inside, start);
    }
    assert forall|k: int| 0 <= k <= t.len() implies #[trigger] quote_count(t.subrange(0, k)) == 0 by {
        lemma_no_quotes_count(t.subrange(0, k));
    }
}

proof fn lemma_no_quotes_count(t: Seq<char>)
    requires
        forall|k: int| 0 <= k < t.len() ==> t[k] != '\'',
    ensures
        quote_count(t) == 0,
    decreases t.len(),
{
    if t.len() > 0 {
        lemma_no_quotes_count(t.drop_last());
    }
}

proof fn lemma_quote_pairs()
    ensures
        quote_count(seq!['\'']) == 1,
        quote_count(seq!['\'', '\'']) == 2,
{
    assert(seq!['\''].drop_last() =~= Seq::<char>::empty());
    assert(seq!['\'', '\''].drop_last() =~= seq!['\'']);
    assert(quote_count(Seq::<char>::empty()) == 0);
    assert(quote_count(seq!['\'']) == 1);
    assert(seq!['\'', '\''].last() == '\'');
}

/// Every character of an escaped literal that is not a quote follows an
/// even number of quotes, and the whole has an even number of quotes.
proof fn lemma_escape_parity(s: Seq<char>)
    ensures
        quote_count(escape_quotes(s)) % 2 == 0,
        forall|k: int|
            0 <= k < escape_quotes(s).len() && escape_quotes(s)[k] != '\'' ==> #[trigger] quote_count(
                escape_quotes(s).subrange(0, k),
            ) % 2 == 0,
    decreases s.len(),
{
    if s.len() > 0 {
        let p = escape_quotes(s.drop_last());
        lemma_escape_parity(s.drop_last());
        let e = escape_quotes(s);
        assert(e.subrange(0, p.len() as int) =~= p);
        lemma_quote_pairs();
        if s.last() == '\'' {
            assert(e =~= p + seq!['\'', '\'']);
            lemma_quote_count_concat(p, seq!['\'', '\'']);
            assert(seq!['\'', '\''].drop_last() =~= seq!['\'']);
            assert(seq!['\''].drop_last() =~= Seq::<char>::empty());
        } else {
            assert(e =~= p.push(s.last()));
            assert(e.drop_last() =~= p);
            assert(e.last() == s.last());
        }
        assert forall|k: int| 0 <= k < e.len() && e[k] != '\'' implies #[trigger] quote_count(
            e.subrange(0, k),
        ) % 2 == 0 by {
            if k < p.len() {
                assert(e.subrange(0, k) =~= p.subrange(0, k));
                assert(e[k] == p[k]);
            } else {
                assert(e.subrange(0, k) =~= p);
            }
        }
    }
}

/// A compiled filter cannot end a string literal early: read as SQL reads
/// quotes, the characters inside string literals are exactly the `%`
/// wildcards and the escaped literal texts, and the fragment ends outside
/// any literal. The column name holds no quote.
pub proof fn lemma_compiled_filter_lexes(f: FilterView, column: Seq<char>)
    requires
        forall|k: int| 0 <= k < column.len() ==> column[k] != '\'',
    ensures
        lexes_as(filter_sql(f, column), literal_mask(f, column), 0),
        quote_count(filter_sql(f, column)) % 2 == 0,
    decreases f,
{
    lemma_compiled_filter_lexes_from(f, column, 0);
}

proof fn lemma_compiled_filter_lexes_from(f: FilterView, column: Seq<char>, start: nat)
    requires
        forall|k: int| 0 <= k < column.len() ==> column[k] != '\'',
        start % 2 == 0,
    ensures
        lexes_as(filter_sql(f, column), literal_mask(f, column), start),
        quote_count(filter_sql(f, column)) % 2 == 0,
    decreases f,
{
    reveal_strlit(" AND ");
    reveal_strlit(" OR ");
    reveal_strlit("NOT (");
    reveal_strlit(")");
    reveal_strlit(" LIKE '%");
    reveal_strlit("%'");
    match f {
        FilterView::And(l, r) => {
            let a = filter_sql(*l, column);
            let b = filter_sql(*r, column);
            lemma_compiled_filter_lexes_from(*l, column, start);
            lemma_lexes_plain(" AND "@, false, start + quote_count(a));
            lemma_lexes_concat(a, literal_mask(*l, column), " AND "@, Seq::new(5, |i: int| false), start);
            lemma_quote_count_concat(a, " AND "@);
            lemma_compiled_filter_lexes_from(*r, column, start + quote_count(a + " AND "@));
            lemma_lexes_concat(a + " AND "@, literal_mask(*l, column) + Seq::new(5, |i: int| false), b, literal_mask(*r, column), start);
            lemma_quote_count_concat(a + " AND "@, b);
        },
        FilterView::Or(l, r) => {
            let a = filter_sql(*l, column);
            let b = filter_sql(*r, column);
            lemma_compiled_filter_lexes_from(*l, column, start);
            lemma_lexes_plain(" OR "@, false, start + quote_count(a));
            lemma_lexes_concat(a, literal_mask(*l, column), " OR "@, Seq::new(4, |i: int| false), start);
            lemma_quote_count_concat(a, " OR "@);
            lemma_compiled_filter_lexes_from(*r, column, start + quote_count(a + " OR "@));
            lemma_lexes_concat(a + " OR "@, literal_mask(*l, column) + Seq::new(4, |i: int| false), b, literal_mask(*r, column), start);
            lemma_quote_count_concat(a + " OR "@, b);
        },
        FilterView::Not(x) => {
            let b = filter_sql(*x, column);
            lemma_lexes_plain("NOT ("@, false, start);
            lemma_compiled_filter_lexes_from(*x, column, start);
            lemma_lexes_concat("NOT ("@, Seq::new(5, |i: int| false), b, literal_mask(*x, column), start);
            lemma_quote_count_concat("NOT ("@, b);
            lemma_lexes_plain(")"@, false, start + quote_count("NOT ("@ + b));
            lemma_lexes_concat("NOT ("@ + b, Seq::new(5, |i: int| false) + literal_mask(*x, column), ")"@, Seq::new(1, |i: int| false), start);
            lemma_quote_count_concat("NOT ("@ + b, ")"@);
        },
        FilterView::ContainsString(s) => {
            let e = escape_quotes(s);
            let head = column + seq![' ', 'L', 'I', 'K', 'E', ' ', '\''];
            let body = seq!['%'] + e + seq!['%'];
            let tail = seq!['\''];
            assert(filter_sql(f, column) =~= head + body + tail);
            // the head: the column and the keyword, outside; its last quote opens the literal
            lemma_lexes_plain(column + seq![' ', 'L', 'I', 'K', 'E', ' '], false, start);
            assert(lexes_as(seq!['\''], Seq::new(1, |i: int| false), start + quote_count(column + seq![' ', 'L', 'I', 'K', 'E', ' '])));
            lemma_lexes_concat(column + seq![' ', 'L', 'I', 'K', 'E', ' '], Seq::new(column.len() + 6, |i: int| false), seq!['\''], Seq::new(1, |i: int| false), start);
            assert(column + seq![' ', 'L', 'I', 'K', 'E', ' '] + seq!['\''] =~= head);
            assert(Seq::new(column.len() + 6, |i: int| false) + Seq::new(1, |i: int| false) =~= Seq::new(column.len() + 7, |i: int| false));
            lemma_quote_count_concat(column + seq![' ', 'L', 'I', 'K', 'E', ' '], seq!['\'']);
            assert(seq!['\''].drop_last() =~= Seq::<char>::empty());
            lemma_quote_pairs();
            assert(quote_count(head) == 1);
            // the body: inside
            lemma_escape_parity(s);
            lemma_quote_count_concat(seq!['%'], e);
            lemma_quote_count_concat(seq!['%'] + e, seq!['%']);
            assert(seq!['%'].drop_last() =~= Seq::<char>::empty());
            let inside = Seq::new(e.len() + 2, |i: int| true);
            assert forall|k: int| 0 <= k < body.len() && body[k] != '\'' implies (#[trigger] inside[k]
                <==> (start + 1 + quote_count(body.subrange(0, k))) % 2 == 1) by {
                if k == 0 {
                    assert(body.subrange(0, 0) =~= Seq::<char>::empty());
                } else if k <= e.len() {
                    assert(body.subrange(0, k) =~= seq!['%'] + e.subrange(0, k - 1));
                    lemma_quote_count_concat(seq!['%'], e.subrange(0, k - 1));
                    assert(body[k] == e[k - 1]);
                } else {
                    assert(body.subrange(0, k) =~= seq!['%'] + e);
                }
            }
            assert(lexes_as(body, Seq::new(e.len() + 2, |i: int| true), start + quote_count(head)));
            lemma_lexes_concat(head, Seq::new(column.len() + 7, |i: int| false), body, Seq::new(e.len() + 2, |i: int| true), start);
            lemma_quote_count_concat(head, body);
            assert(lexes_as(tail, Seq::new(1, |i: int| false), start + quote_count(head + body)));
            lemma_lexes_concat(head + body, Seq::new(column.len() + 7, |i: int| false) + Seq::new(e.len() + 2, |i: int| true), tail, Seq::new(1, |i: int| false), start);
            lemma_quote_count_concat(head + body, tail);
            lemma_quote_pairs();
            assert(quote_count(tail) == 1);
        },
    }
}

} // verus!

//! Reading TOML text with the `toml` crate, and the report of its syntax
//! errors.

use std::collections::BTreeMap;

use vstd::prelude::*;

use vstd::utf8::encode_utf8;

use crate::text::{decimal, push_decimal, seq_lt};

verus! {

/// A TOML value; opaque here.
#[verifier::external_type_specification]
#[verifier::external_body]
pub struct ExTomlValue(toml::Value);

/// A syntax error that the TOML parser recorded: the byte range it points at
/// and what went wrong.
pub struct TomlSyntaxError {
    pub lo: usize,
    pub hi: usize,
    pub desc: String,
}

/// What `toml::Parser` makes of `text`: the syntax errors it records, as
/// (low byte, high byte, description) in the order recorded; and, for each
/// key of the top-level table it returns, in the table's order, the key and,
/// where the key's value is itself a table, that table's keys in order.
pub uninterp spec fn toml_parse_outcome(text: Seq<char>) -> (
    Seq<(nat, nat, Seq<char>)>,
    Seq<(Seq<char>, Option<Seq<Seq<char>>>)>,
);

/// The syntax errors that the parser records for `text`.
pub open spec fn toml_syntax_errors(text: Seq<char>) -> Seq<(nat, nat, Seq<char>)> {
    toml_parse_outcome(text).0
}

/// The top-level keys of `text`, each with the keys of its value where that
/// value is a table.
pub open spec fn toml_outline(text: Seq<char>) -> Seq<(Seq<char>, Option<Seq<Seq<char>>>)> {
    toml_parse_outcome(text).1
}

/// The (low byte, high byte, description) of each syntax error.
pub open spec fn syntax_error_views(es: Seq<TomlSyntaxError>) -> Seq<(nat, nat, Seq<char>)> {
    es.map_values(|e: TomlSyntaxError| (e.lo as nat, e.hi as nat, e.desc@))
}

/// The names come in strictly increasing order.
pub open spec fn increasing(names: Seq<Seq<char>>) -> bool {
    forall|i: int, j: int| 0 <= i < j < names.len() ==> seq_lt(#[trigger] names[i], #[trigger] names[j])
}

/// The keys of an outline.
pub open spec fn outline_keys(outline: Seq<(Seq<char>, Option<Seq<Seq<char>>>)>) -> Seq<Seq<char>> {
    outline.map_values(|e: (Seq<char>, Option<Seq<Seq<char>>>)| e.0)
}

/// The keys come in increasing order, and so do the keys of each value that
/// is a table.
pub open spec fn outline_ordered(outline: Seq<(Seq<char>, Option<Seq<Seq<char>>>)>) -> bool {
    &&& increasing(outline_keys(outline))
    &&& forall|i: int|
        0 <= i < outline.len() ==> ((#[trigger] outline[i]).1 matches Some(ks) ==> increasing(ks))
}

/// A key of a parsed TOML table, with the keys of its value where that value
/// is itself a table.
#[derive(Debug)]
pub struct TopLevelEntry {
    pub key: String,
    pub table_keys: Option<Vec<String>>,
}

/// The key and nested keys of an entry by their characters.
pub open spec fn entry_view(e: TopLevelEntry) -> (Seq<char>, Option<Seq<Seq<char>>>) {
    (e.key@, match e.table_keys {
        Some(ks) => Some(ks@.map_values(|k: String| k@)),
        None => None,
    })
}

/// The views of the entries.
pub open spec fn outline_view(es: Seq<TopLevelEntry>) -> Seq<(Seq<char>, Option<Seq<Seq<char>>>)> {
    es.map_values(|e: TopLevelEntry| entry_view(e))
}

/// A parsed TOML document: the table itself, whose values are opaque here,
/// and its outline, which holds as plain values what the library reads.
#[derive(Debug)]
pub struct ParsedToml {
    pub table: BTreeMap<String, toml::Value>,
    pub outline: Vec<TopLevelEntry>,
}

/// The table's keys are those of the outline.
pub open spec fn table_matches_outline(
    table: BTreeMap<String, toml::Value>,
    outline: Seq<(Seq<char>, Option<Seq<Seq<char>>>)>,
) -> bool {
    forall|k: String| #[trigger] table@.contains_key(k) <==> outline_keys(outline).contains(k@)
}

/// Parses `text` with `toml::Parser::parse`, listing each top-level key and,
/// with `toml::Value::as_table`, the keys of each value that is a table.
///
/// Claimed of the crate: the parse succeeds exactly when the parser records
/// no error; on failure the recorded errors are handed back; on success the
/// table's keys are those of the outline, and, as `BTreeMap` walks its keys
/// in order, the outline is ordered. `toml_parse_outcome` names the errors
/// and the outline. The values other than nested tables' keys are not stated.
#[verifier::external_body]
fn toml_parse(text: &str) -> (r: Result<ParsedToml, Vec<TomlSyntaxError>>)
    ensures
        r is Ok <==> toml_parse_outcome(text@).0.len() == 0,
        r matches Err(es) ==> syntax_error_views(es@) == toml_parse_outcome(text@).0,
        r matches Ok(p) ==> {
            &&& outline_view(p.outline@) == toml_parse_outcome(text@).1
            &&& table_matches_outline(p.table, toml_parse_outcome(text@).1)
            &&& outline_ordered(toml_parse_outcome(text@).1)
        },
{
    let mut parser = toml::Parser::new(text);
    match parser.parse() {
        Some(table) => {
            let outline = table.iter().map(|(k, v)| TopLevelEntry {
                key: k.clone(),
                table_keys: v.as_table().map(|t| t.keys().cloned().collect()),
            }).collect();
            Ok(ParsedToml { table, outline })
        },
        None => Err(
            parser.errors.iter().map(|e| TomlSyntaxError { lo: e.lo, hi: e.hi, desc: e.desc.clone() }).collect(),
        ),
    }
}

/// The index of the first newline byte of `b`, or its length if it has none.
pub open spec fn first_newline(b: Seq<u8>) -> int
    decreases b.len(),
{
    if b.len() == 0 {
        0
    } else if b[0] == 10u8 {
        0
    } else {
        1 + first_newline(b.drop_first())
    }
}

/// The first newline lies within the bytes.
pub proof fn lemma_first_newline_bounds(b: Seq<u8>)
    ensures
        0 <= first_newline(b) <= b.len(),
    decreases b.len(),
{
    if b.len() > 0 && b[0] != 10u8 {
        lemma_first_newline_bounds(b.drop_first());
    }
}

proof fn lemma_first_newline_is(b: Seq<u8>, m: int)
    requires
        0 <= m <= b.len(),
        forall|k: int| 0 <= k < m ==> b[k] != 10u8,
        m == b.len() || b[m] == 10u8,
    ensures
        first_newline(b) == m,
    decreases m,
{
    if m > 0 {
        assert forall|k: int| 0 <= k < m - 1 implies b.drop_first()[k] != 10u8 by {
            assert(b.drop_first()[k] == b[k + 1]);
        }
        if m < b.len() {
            assert(b.drop_first()[m - 1] == b[m]);
        }
        lemma_first_newline_is(b.drop_first(), m - 1);
    }
}

/// The (line, column) of the byte `offset`, walking the lines of the bytes
/// `b` as `str::lines` yields them: each line ends at a newline, which is
/// dropped, and then a carriage return before it is dropped too. `cur` is the
/// position the walk has counted so far, one byte per line and newline, and
/// `line` the number of lines passed. Where the offset is not reached, the
/// result is the number of lines and column 0.
pub open spec fn line_col_from(b: Seq<u8>, offset: int, cur: int, line: nat) -> (nat, nat)
    decreases b.len(),
{
    if b.len() == 0 {
        (line, 0)
    } else {
        let n = first_newline(b);
        let len = if n < b.len() && n > 0 && b[n - 1] == 13u8 {
            n - 1
        } else {
            n
        };
        if cur + len + 1 > offset {
            (line, (offset - cur) as nat)
        } else {
            proof {
                lemma_first_newline_bounds(b);
            }
            line_col_from(
                if n < b.len() {
                    b.skip(n + 1)
                } else {
                    Seq::empty()
                },
                offset,
                cur + len + 1,
                line + 1,
            )
        }
    }
}

/// The 0-based (line, column) of the byte `offset` of `text`, as
/// `toml::Parser::to_linecol` computes it over the UTF-8 bytes of the text.
pub open spec fn toml_line_col(text: Seq<char>, offset: nat) -> (nat, nat) {
    line_col_from(encode_utf8(text), offset as int, 0, 0)
}

/// Converts a byte offset of `text` to a 0-based (line, column) pair, as
/// `toml::Parser::to_linecol` does.
pub fn to_linecol(text: &str, offset: usize) -> (r: (usize, usize))
    ensures
        (r.0 as nat, r.1 as nat) == toml_line_col(text@, offset as nat),
{
    let b = text.as_bytes();
    let ghost bs = b@;
    assert(bs == encode_utf8(text@));
    let n = b.len();
    let mut pos: usize = 0;
    let mut cur: usize = 0;
    let mut line: usize = 0;
    assert(bs.skip(0) =~= bs);
    while pos < n
        invariant
            n == bs.len(),
            b@ == bs,
            bs == encode_utf8(text@),
            pos <= n,
            cur <= offset,
            line <= pos,
            line_col_from(bs, offset as int, 0, 0) == line_col_from(
                bs.skip(pos as int),
                offset as int,
                cur as int,
                line as nat,
            ),
        decreases n - pos,
    {
        let mut j = pos;
        while j < n && b[j] != 10u8
            invariant
                pos <= j <= n,
                n == bs.len(),
                b@ == bs,
                forall|k: int| pos <= k < j ==> bs[k] != 10u8,
            decreases n - j,
        {
            j = j + 1;
        }
        let ghost rest = bs.skip(pos as int);
        proof {
            assert forall|k: int| 0 <= k < j - pos implies rest[k] != 10u8 by {
                assert(rest[k] == bs[pos + k]);
            }
            if j < n {
                assert(rest[j - pos] == bs[j as int]);
            }
            lemma_first_newline_is(rest, j - pos);
        }
        let len = if j < n && j > pos && b[j - 1] == 13u8 {
            j - pos - 1
        } else {
            j - pos
        };
        proof {
            if j < n && j > pos {
                assert(rest[j - pos - 1] == bs[j - 1]);
            }
        }
        if (cur as u128) + (len as u128) + 1 > offset as u128 {
            return (line, offset - cur);
        }
        cur = cur + len + 1;
        line = line + 1;
        if j < n {
            assert(rest.skip(j - pos + 1) =~= bs.skip(j + 1));
            pos = j + 1;
        } else {
            assert(bs.skip(j as int) =~= Seq::<u8>::empty());
            pos = j;
        }
    }
    assert(bs.skip(pos as int) =~= Seq::<u8>::empty());
    (line, 0)
}

/// A syntax error placed in the text: the 0-based line and column of its
/// first byte and of the byte just past it, and its description.
pub struct LocatedError {
    pub lo_line: usize,
    pub lo_col: usize,
    pub hi_line: usize,
    pub hi_col: usize,
    pub desc: String,
}

/// A located error by its numbers and the characters of its description.
pub struct LocatedErrorView {
    pub lo_line: nat,
    pub lo_col: nat,
    pub hi_line: nat,
    pub hi_col: nat,
    pub desc: Seq<char>,
}

impl View for LocatedError {
    type V = LocatedErrorView;

    open spec fn view(&self) -> LocatedErrorView {
        LocatedErrorView {
            lo_line: self.lo_line as nat,
            lo_col: self.lo_col as nat,
            hi_line: self.hi_line as nat,
            hi_col: self.hi_col as nat,
            desc: self.desc@,
        }
    }
}

/// The report line of one error of the file `file`: the file, the 1-based
/// line and column where the error starts, then, where it ends elsewhere, a
/// dash and the 1-based line and column where it ends, then its description.
pub open spec fn error_line(file: Seq<char>, e: LocatedErrorView) -> Seq<char> {
    file + ":"@ + decimal(e.lo_line + 1) + ":"@ + decimal(e.lo_col + 1) + (if e.lo_line
        != e.hi_line || e.lo_col != e.hi_col {
        "-"@ + decimal(e.hi_line + 1) + ":"@ + decimal(e.hi_col + 1)
    } else {
        Seq::empty()
    }) + " "@ + e.desc + "\n"@
}

/// The lines of the first `k` errors.
pub open spec fn error_lines(file: Seq<char>, es: Seq<LocatedErrorView>, k: int) -> Seq<char>
    decreases k,
{
    if k <= 0 {
        Seq::empty()
    } else {
        error_lines(file, es, k - 1) + error_line(file, es[k - 1])
    }
}

/// The report of the syntax errors `es` of the file `file`: a heading line,
/// then one line per error.
pub open spec fn error_report(file: Seq<char>, es: Seq<LocatedErrorView>) -> Seq<char> {
    "could not parse input TOML\n"@ + error_lines(file, es, es.len() as int)
}

fn append_error_line(r: &mut String, file: &str, e: &LocatedError)
    ensures
        final(r)@ == old(r)@ + error_line(file@, e@),
{
    let ghost before = r@;
    r.append(file);
    r.append(":");
    push_decimal(r, e.lo_line as u128 + 1);
    r.append(":");
    push_decimal(r, e.lo_col as u128 + 1);
    if e.lo_line != e.hi_line || e.lo_col != e.hi_col {
        r.append("-");
        push_decimal(r, e.hi_line as u128 + 1);
        r.append(":");
        push_decimal(r, e.hi_col as u128 + 1);
    }
    r.append(" ");
    r.append(e.desc.as_str());
    r.append("\n");
    assert(r@ =~= before + error_line(file@, e@));
}

/// Writes the report of the syntax errors `errors` of the file `file`.
pub fn format_parse_errors(file: &str, errors: &Vec<LocatedError>) -> (r: String)
    ensures
        r@ == error_report(file@, errors@.map_values(|e: LocatedError| e@)),
{
    let ghost es = errors@.map_values(|e: LocatedError| e@);
    let mut r = String::from_str("could not parse input TOML\n");
    let mut i: usize = 0;
    while i < errors.len()
        invariant
            i <= errors@.len(),
            es == errors@.map_values(|e: LocatedError| e@),
            r@ == "could not parse input TOML\n"@ + error_lines(file@, es, i as int),
        decreases errors@.len() - i,
    {
        let e = &errors[i];
        assert(e@ == es[i as int]);
        append_error_line(&mut r, file, e);
        assert(r@ =~= "could not parse input TOML\n"@ + error_lines(file@, es, i + 1));
        i = i + 1;
    }
    r
}

/// Each syntax error of `text` placed by `toml_line_col`.
pub open spec fn located_errors(text: Seq<char>) -> Seq<LocatedErrorView> {
    toml_syntax_errors(text).map_values(
        |e: (nat, nat, Seq<char>)|
            LocatedErrorView {
                lo_line: toml_line_col(text, e.0).0,
                lo_col: toml_line_col(text, e.0).1,
                hi_line: toml_line_col(text, e.1).0,
                hi_col: toml_line_col(text, e.1).1,
                desc: e.2,
            },
    )
}

/// What `parse` owes for the text `toml` read from `file`.
pub open spec fn parse_result(toml: Seq<char>, file: Seq<char>, r: Result<ParsedToml, String>) -> bool {
    &&& (r is Ok <==> toml_syntax_errors(toml).len() == 0)
    &&& r matches Err(report) ==> report@ == error_report(file, located_errors(toml))
    &&& r matches Ok(p) ==> {
        &&& outline_view(p.outline@) == toml_outline(toml)
        &&& table_matches_outline(p.table, toml_outline(toml))
        &&& outline_ordered(toml_outline(toml))
    }
}

/// Parses the TOML text `toml` read from the file `file`. On success the
/// result is the parser's table with its outline; where the text has syntax
/// errors, it is the report of them, each placed by line and column.
pub fn parse(toml: &str, file: &str) -> (r: Result<ParsedToml, String>)
    ensures
        parse_result(toml@, file@, r),
{
    match toml_parse(toml) {
        Ok(parsed) => Ok(parsed),
        Err(errors) => {
            let ghost es = toml_syntax_errors(toml@);
            let mut located: Vec<LocatedError> = Vec::new();
            let mut i: usize = 0;
            while i < errors.len()
                invariant
                    i <= errors@.len(),
                    syntax_error_views(errors@) == es,
                    es == toml_syntax_errors(toml@),
                    located@.len() == i,
                    forall|k: int|
                        0 <= k < i ==> #[trigger] located@[k]@ == located_errors(toml@)[k],
                decreases errors@.len() - i,
            {
                let e = &errors[i];
                assert(es[i as int] == (e.lo as nat, e.hi as nat, e.desc@));
                let (lo_line, lo_col) = to_linecol(toml, e.lo);
                let (hi_line, hi_col) = to_linecol(toml, e.hi);
                located.push(LocatedError { lo_line, lo_col, hi_line, hi_col, desc: e.desc.clone() });
                i = i + 1;
            }
            assert(located@.map_values(|e: LocatedError| e@) =~= located_errors(toml@));
            Err(format_parse_errors(file, &located))
        },
    }
}

/// Parsing depends on the text alone: any two results that `parse` may give
/// for one text and file agree on whether it succeeds, on the outline and the
/// keys of the table, and on the report.
pub proof fn parse_depends_on_text_alone(
    toml: Seq<char>,
    file: Seq<char>,
    r1: Result<ParsedToml, String>,
    r2: Result<ParsedToml, String>,
)
    requires
        parse_result(toml, file, r1),
        parse_result(toml, file, r2),
    ensures
        r1 is Ok <==> r2 is Ok,
        r1 matches Ok(p1) ==> (r2 matches Ok(p2) ==> {
            &&& outline_view(p1.outline@) == outline_view(p2.outline@)
            &&& forall|k: String| p1.table@.contains_key(k) <==> p2.table@.contains_key(k)
        }),
        r1 matches Err(m1) ==> (r2 matches Err(m2) ==> m1@ == m2@),
{
    if let (Ok(p1), Ok(p2)) = (r1, r2) {
        assert forall|k: String| p1.table@.contains_key(k) <==> p2.table@.contains_key(k) by {
            assert(p1.table@.contains_key(k) <==> outline_keys(toml_outline(toml)).contains(k@));
            assert(p2.table@.contains_key(k) <==> outline_keys(toml_outline(toml)).contains(k@));
        }
    }
}

/// The number of newline bytes in `b`.
pub open spec fn newline_count(b: Seq<u8>) -> nat
    decreases b.len(),
{
    if b.len() == 0 {
        0
    } else {
        newline_count(b.drop_last()) + if b.last() == 10u8 {
            1nat
        } else {
            0nat
        }
    }
}

proof fn lemma_first_newline_props(b: Seq<u8>)
    ensures
        forall|k: int| 0 <= k < first_newline(b) ==> b[k] != 10u8,
        first_newline(b) < b.len() ==> b[first_newline(b)] == 10u8,
    decreases b.len(),
{
    if b.len() > 0 && b[0] != 10u8 {
        let t = b.drop_first();
        lemma_first_newline_props(t);
        lemma_first_newline_bounds(t);
        assert(first_newline(b) == 1 + first_newline(t));
        assert forall|k: int| 0 <= k < first_newline(b) implies b[k] != 10u8 by {
            if k > 0 {
                assert(b[k] == t[k - 1]);
            }
        }
        if first_newline(b) < b.len() {
            assert(b[first_newline(b)] == t[first_newline(t)]);
        }
    }
}

proof fn lemma_newline_count_plain(b: Seq<u8>, i: int, j: int)
    requires
        0 <= i <= j <= b.len(),
        forall|k: int| i <= k < j ==> b[k] != 10u8,
    ensures
        newline_count(b.take(j)) == newline_count(b.take(i)),
    decreases j - i,
{
    if j > i {
        assert(b.take(j).drop_last() =~= b.take(j - 1));
        lemma_newline_count_plain(b, i, j - 1);
    }
}

proof fn lemma_line_col_walk(b: Seq<u8>, offset: int, p: int)
    requires
        0 <= p <= offset <= b.len(),
        forall|k: int| 0 <= k < b.len() ==> b[k] != 13u8,
        p == 0 || b[p - 1] == 10u8,
    ensures
        ({
            let r = line_col_from(b.skip(p), offset, p, newline_count(b.take(p)));
            let start = offset - r.1;
            &&& p <= start <= offset
            &&& start == 0 || b[start - 1] == 10u8
            &&& forall|k: int| start <= k < offset ==> b[k] != 10u8
            &&& r.0 == newline_count(b.take(offset))
        }),
    decreases b.len() - p,
{
    let rest = b.skip(p);
    if rest.len() > 0 {
        let n = first_newline(rest);
        lemma_first_newline_bounds(rest);
        lemma_first_newline_props(rest);
        if n < rest.len() && n > 0 {
            assert(rest[n - 1] == b[p + n - 1]);
        }
        if p + n + 1 > offset {
            assert forall|k: int| p <= k < offset implies b[k] != 10u8 by {
                assert(b[k] == rest[k - p]);
            }
            lemma_newline_count_plain(b, p, offset);
        } else {
            assert(rest[n] == b[p + n]);
            assert(rest.skip(n + 1) =~= b.skip(p + n + 1));
            assert forall|k: int| p <= k < p + n implies b[k] != 10u8 by {
                assert(b[k] == rest[k - p]);
            }
            lemma_newline_count_plain(b, p, p + n);
            assert(b.take(p + n + 1).drop_last() =~= b.take(p + n));
            lemma_line_col_walk(b, offset, p + n + 1);
        }
    }
}

/// On text without carriage returns, the line of a byte offset within the
/// text is the number of newlines before it, and its column is its distance
/// from the first byte of its line, the byte after the last newline before
/// it or the start of the text.
pub proof fn line_col_counts_newlines(text: Seq<char>, offset: nat)
    requires
        offset <= encode_utf8(text).len(),
        forall|k: int| 0 <= k < encode_utf8(text).len() ==> encode_utf8(text)[k] != 13u8,
    ensures
        ({
            let b = encode_utf8(text);
            let start = offset - toml_line_col(text, offset).1;
            &&& 0 <= start <= offset
            &&& start == 0 || b[start - 1] == 10u8
            &&& forall|k: int| start <= k < offset ==> b[k] != 10u8
            &&& toml_line_col(text, offset).0 == newline_count(b.take(offset as int))
        }),
{
    let b = encode_utf8(text);
    assert(b.skip(0) =~= b);
    assert(b.take(0) =~= Seq::<u8>::empty());
    lemma_line_col_walk(b, offset as int, 0);
}

} // verus!

use vstd::prelude::*;

use crate::lexical::{content_space, eol, is_line_end, scan_eol, scan_token, skip_content_space, token, ByteClass};
use crate::metrics::{
    after_keyword, b_key, empty_metrics, fields, l_key, metrics_line, n_key, parse_metrics_line,
    record_head, sub_field, unknown_field, wx, wx0, wx1, CharMetrics, MetricsModel, SubFieldModel,
};
use crate::value::{models, parse_value, value, Value, ValueModel};

verus! {

/// One line of a metrics file.
#[derive(Debug)]
pub enum Line {
    CharMetrics(CharMetrics),
    /// Any other line: its key and the values after it.
    Unknown(String, Vec<Value>),
}

pub enum LineModel {
    CharMetrics(MetricsModel),
    Unknown(Seq<char>, Seq<ValueModel>),
}

impl Line {
    pub open spec fn view(&self) -> LineModel {
        match self {
            Line::CharMetrics(m) => LineModel::CharMetrics(m@),
            Line::Unknown(k, v) => LineModel::Unknown(k@, models(v@)),
        }
    }
}

pub open spec fn line_models(v: Seq<Line>) -> Seq<LineModel> {
    v.map_values(|l: Line| l@)
}

/// What the parser expected where it stopped.
#[derive(Debug, Clone, Copy, PartialEq, Eq, Structural)]
pub enum Expected {
    /// A line: a key at the start of a line, or more lines after the last one.
    Line,
    /// An end-of-line marker after a line.
    EndOfLine,
}

/// Why a buffer is not a metrics file.
#[derive(Debug)]
pub enum ParseError {
    /// Parsing stopped at byte offset `position`, where it expected `expected`.
    Syntax { position: usize, expected: Expected },
    /// A character-metrics sub-field at byte offset `position` did not read
    /// as one of `WX`, `WX0`, `WX1`, `N`, `B` and `L` with its arguments, but
    /// as a key and raw text: the key is unknown, or it is a known one
    /// whose arguments are malformed (`WX abc`).
    UnknownSubField { position: usize, key: String },
}

pub enum ErrorModel {
    Syntax { position: int, expected: Expected },
    UnknownSubField { position: int, key: Seq<char> },
}

impl ParseError {
    pub open spec fn view(&self) -> ErrorModel {
        match self {
            ParseError::Syntax { position, expected } => ErrorModel::Syntax {
                position: *position as int,
                expected: *expected,
            },
            ParseError::UnknownSubField { position, key } => ErrorModel::UnknownSubField {
                position: *position as int,
                key: key@,
            },
        }
    }
}

/// The values of a keyword line from `j` on, each after blanks.
pub open spec fn line_values(s: Seq<u8>, j: int) -> (Seq<ValueModel>, int)
    decreases s.len() - j,
{
    // A value takes at least one byte: the bound on `e` only shows that the
    // recursion ends.
    match value(s, content_space(s, j)) {
        Some((v, e)) => if j < e <= s.len() {
            let (rest, f) = line_values(s, e);
            (seq![v].add(rest), f)
        } else {
            (seq![], j)
        },
        None => (seq![], j),
    }
}

/// A keyword line at `i`: a key, then values.
pub open spec fn unknown_line(s: Seq<u8>, i: int) -> Option<(LineModel, int)> {
    match token(s, i, ByteClass::KeyChar) {
        Some((k, e)) => Some((LineModel::Unknown(k, line_values(s, e).0), line_values(s, e).1)),
        None => None,
    }
}

/// A line at `i`: a character-metrics line where one stands there, else a
/// keyword line. `Ok(None)` where neither does.
pub open spec fn line(s: Seq<u8>, i: int) -> Result<Option<(LineModel, int)>, ErrorModel> {
    match metrics_line(s, i) {
        Some(Ok((m, e))) => Ok(Some((LineModel::CharMetrics(m), e))),
        Some(Err((p, k))) => Err(ErrorModel::UnknownSubField { position: p, key: k }),
        None => Ok(unknown_line(s, i)),
    }
}

/// The lines from `p` to the end of `s`, each followed by an end-of-line
/// marker, appended to `acc`. There must be at least one line in all.
pub open spec fn lines_from(s: Seq<u8>, p: int, acc: Seq<LineModel>) -> Result<
    Seq<LineModel>,
    ErrorModel,
>
    decreases s.len() - p,
{
    match line(s, p) {
        Err(x) => Err(x),
        Ok(None) => if p == s.len() && acc.len() > 0 {
            Ok(acc)
        } else {
            Err(ErrorModel::Syntax { position: p, expected: Expected::Line })
        },
        // A line and its marker take at least one byte: the bound on `q`
        // only shows that the recursion ends.
        Ok(Some((l, e))) => match eol(s, e) {
            Some(q) => if p < q <= s.len() {
                lines_from(s, q, acc.push(l))
            } else {
                Err(ErrorModel::Syntax { position: e, expected: Expected::EndOfLine })
            },
            None => Err(ErrorModel::Syntax { position: e, expected: Expected::EndOfLine }),
        },
    }
}

/// A whole metrics file.
pub open spec fn document(s: Seq<u8>) -> Result<Seq<LineModel>, ErrorModel> {
    lines_from(s, 0, seq![])
}

proof fn lemma_lines_end_with_eol(s: Seq<u8>, p: int, acc: Seq<LineModel>)
    requires
        0 <= p <= s.len(),
        acc.len() > 0 ==> p > 0 && is_line_end(s[p - 1]),
        lines_from(s, p, acc) is Ok,
    ensures
        s.len() > 0 && is_line_end(s[s.len() - 1]),
    decreases s.len() - p,
{
    if let Ok(Some((l, e))) = line(s, p) {
        if let Some(q) = eol(s, e) {
            if p < q <= s.len() {
                lemma_lines_end_with_eol(s, q, acc.push(l));
            }
        }
    }
}

/// An empty buffer, or one whose last line has no end-of-line marker, is
/// no metrics file.
pub proof fn lemma_unterminated_fails(s: Seq<u8>)
    requires
        s.len() == 0 || !is_line_end(s[s.len() - 1]),
    ensures
        document(s) is Err,
{
    if document(s) is Ok {
        lemma_lines_end_with_eol(s, 0, seq![]);
    }
}

/// Where parsing reaches a character-metrics line and, after the sub-fields
/// before it, a `;`-terminated sub-field whose key is none of `WX`, `WX0`,
/// `WX1`, `N`, `B` and `L`, the whole parse fails with that sub-field's
/// position and key.
pub proof fn lemma_unknown_sub_field_fails(
    s: Seq<u8>,
    i: int,
    acc: Seq<LineModel>,
    code: int,
    j: int,
    p: int,
    m: MetricsModel,
    key: Seq<char>,
    text: Seq<char>,
    e: int,
)
    requires
        0 <= i < s.len(),
        s[i] == 0x43,
        record_head(s, i + 1) == Some((code, j)),
        fields(s, j, empty_metrics(code)) == fields(s, p, m),
        after_keyword(s, p, wx()) is None,
        after_keyword(s, p, wx0()) is None,
        after_keyword(s, p, wx1()) is None,
        after_keyword(s, p, n_key()) is None,
        after_keyword(s, p, b_key()) is None,
        after_keyword(s, p, l_key()) is None,
        unknown_field(s, p) == Some((SubFieldModel::Unknown(key, text), e)),
        p <= e < s.len(),
        s[e] == 0x3b,
    ensures
        lines_from(s, i, acc) == Err::<Seq<LineModel>, ErrorModel>(
            ErrorModel::UnknownSubField { position: p, key: key },
        ),
        i == 0 ==> document(s) is Err,
{
    assert(sub_field(s, p) == Some((SubFieldModel::Unknown(key, text), e)));
}

fn parse_line_values(s: &[u8], j: usize) -> (r: (Vec<Value>, usize))
    requires
        j <= s@.len(),
    ensures
        line_values(s@, j as int) == (models(r.0@), r.1 as int),
        r.1 <= s@.len(),
{
    let ghost start = line_values(s@, j as int);
    let mut items: Vec<Value> = Vec::new();
    let mut k: usize = j;
    loop
        invariant
            j <= k <= s@.len(),
            start == line_values(s@, j as int),
            start == (models(items@).add(line_values(s@, k as int).0), line_values(
                s@,
                k as int,
            ).1),
        ensures
            line_values(s@, k as int) == (Seq::<ValueModel>::empty(), k as int),
        decreases s@.len() - k,
    {
        match parse_value(s, skip_content_space(s, k)) {
            Some((v, e)) => {
                if e <= k {
                    break;
                }
                assert(models(items@.push(v)) =~= models(items@).push(v@));
                assert(models(items@).add(line_values(s@, k as int).0) =~= models(
                    items@.push(v),
                ).add(line_values(s@, e as int).0));
                items.push(v);
                k = e;
            },
            None => {
                break;
            },
        }
    }
    assert(models(items@).add(seq![]) =~= models(items@));
    (items, k)
}

/// A line at `i`, and where it ends.
pub fn parse_line(s: &[u8], i: usize) -> (r: Result<Option<(Line, usize)>, ParseError>)
    requires
        i <= s@.len(),
    ensures
        match r {
            Ok(Some((l, e))) => line(s@, i as int) == Ok::<Option<(LineModel, int)>, ErrorModel>(
                Some((l@, e as int)),
            ) && e <= s@.len(),
            Ok(None) => line(s@, i as int) == Ok::<Option<(LineModel, int)>, ErrorModel>(None),
            Err(x) => line(s@, i as int) == Err::<Option<(LineModel, int)>, ErrorModel>(x@),
        },
{
    match parse_metrics_line(s, i) {
        Some(Ok((m, e))) => Ok(Some((Line::CharMetrics(m), e))),
        Some(Err((p, k))) => Err(ParseError::UnknownSubField { position: p, key: k }),
        None => match scan_token(s, i, ByteClass::KeyChar) {
            Some((k, e)) => {
                let (v, f) = parse_line_values(s, e);
                Ok(Some((Line::Unknown(k, v), f)))
            },
            None => Ok(None),
        },
    }
}

/// Parses a whole metrics file: one or more lines, each ended by CR LF, LF
/// or CR, up to the end of `input`.
pub fn parse(input: &[u8]) -> (r: Result<Vec<Line>, ParseError>)
    ensures
        match r {
            Ok(v) => document(input@) == Ok::<Seq<LineModel>, ErrorModel>(line_models(v@)),
            Err(x) => document(input@) == Err::<Seq<LineModel>, ErrorModel>(x@),
        },
{
    let s = input;
    let mut lines: Vec<Line> = Vec::new();
    let mut p: usize = 0;
    assert(line_models(lines@) =~= Seq::<LineModel>::empty());
    loop
        invariant
            p <= s@.len(),
            s@ == input@,
            document(s@) == lines_from(s@, p as int, line_models(lines@)),
        decreases s@.len() - p,
    {
        match parse_line(s, p) {
            Err(x) => {
                return Err(x);
            },
            Ok(None) => {
                if p == s.len() && lines.len() > 0 {
                    assert(line_models(lines@).len() > 0);
                    return Ok(lines);
                } else {
                    return Err(ParseError::Syntax { position: p, expected: Expected::Line });
                }
            },
            Ok(Some((l, e))) => match scan_eol(s, e) {
                Some(q) => {
                    if p < q && q <= s.len() {
                        assert(line_models(lines@.push(l)) =~= line_models(lines@).push(l@));
                        lines.push(l);
                        p = q;
                    } else {
                        return Err(ParseError::Syntax { position: e, expected: Expected::EndOfLine });
                    }
                },
                None => {
                    return Err(ParseError::Syntax { position: e, expected: Expected::EndOfLine });
                },
            },
        }
    }
}

} // verus!

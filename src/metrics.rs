use vstd::prelude::*;

use crate::lexical::{
    content_space, integer, is_digit, is_letter, number, scan_integer, scan_number, scan_token,
    skip_content_space, token, ByteClass,
};
use crate::value::{first, has_word, word_at};

verus! {

/// The metrics of one character, from a `C` line. Decimal quantities are
/// kept as the text they were written with.
#[derive(Debug)]
pub struct CharMetrics {
    /// The character code.
    pub value: i64,
    pub width0x: Option<String>,
    pub width1x: Option<String>,
    /// No sub-field sets this yet.
    pub width0y: Option<String>,
    /// No sub-field sets this yet.
    pub width1y: Option<String>,
    /// No sub-field sets this yet.
    pub vvector: Option<(String, String)>,
    pub name: Option<String>,
    /// llx, lly, urx, ury.
    pub bbox: Option<(String, String, String, String)>,
    /// Successor, ligature.
    pub ligature_sequence: Option<(String, String)>,
}

pub struct MetricsModel {
    pub value: int,
    pub width0x: Option<Seq<char>>,
    pub width1x: Option<Seq<char>>,
    pub width0y: Option<Seq<char>>,
    pub width1y: Option<Seq<char>>,
    pub vvector: Option<(Seq<char>, Seq<char>)>,
    pub name: Option<Seq<char>>,
    pub bbox: Option<(Seq<char>, Seq<char>, Seq<char>, Seq<char>)>,
    pub ligature_sequence: Option<(Seq<char>, Seq<char>)>,
}

pub open spec fn text_of(o: Option<String>) -> Option<Seq<char>> {
    match o {
        Some(t) => Some(t@),
        None => None,
    }
}

pub open spec fn pair_of(o: Option<(String, String)>) -> Option<(Seq<char>, Seq<char>)> {
    match o {
        Some((a, b)) => Some((a@, b@)),
        None => None,
    }
}

impl CharMetrics {
    pub open spec fn view(&self) -> MetricsModel {
        MetricsModel {
            value: self.value as int,
            width0x: text_of(self.width0x),
            width1x: text_of(self.width1x),
            width0y: text_of(self.width0y),
            width1y: text_of(self.width1y),
            vvector: pair_of(self.vvector),
            name: text_of(self.name),
            bbox: match self.bbox {
                Some((a, b, c, d)) => Some((a@, b@, c@, d@)),
                None => None,
            },
            ligature_sequence: pair_of(self.ligature_sequence),
        }
    }
}

impl Default for CharMetrics {
    /// A record with code 0 and no other field set.
    fn default() -> (r: CharMetrics)
        ensures
            r@ == empty_metrics(0),
    {
        CharMetrics {
            value: 0,
            width0x: None,
            width1x: None,
            width0y: None,
            width1y: None,
            vvector: None,
            name: None,
            bbox: None,
            ligature_sequence: None,
        }
    }
}

/// One `;`-terminated clause of a `C` line.
pub enum SubField {
    /// `WX` or `WX0`: the width in writing direction 0.
    Width0(String),
    /// `WX1`: the width in writing direction 1.
    Width1(String),
    /// `N`: the glyph name.
    Name(String),
    /// `B`: the bounding box.
    Bbox(String, String, String, String),
    /// `L`: a ligature (successor, ligature).
    Ligature(String, String),
    /// Any other key, with the raw text after it.
    Unknown(String, String),
}

pub enum SubFieldModel {
    Width0(Seq<char>),
    Width1(Seq<char>),
    Name(Seq<char>),
    Bbox(Seq<char>, Seq<char>, Seq<char>, Seq<char>),
    Ligature(Seq<char>, Seq<char>),
    Unknown(Seq<char>, Seq<char>),
}

impl SubField {
    pub open spec fn view(&self) -> SubFieldModel {
        match self {
            SubField::Width0(t) => SubFieldModel::Width0(t@),
            SubField::Width1(t) => SubFieldModel::Width1(t@),
            SubField::Name(t) => SubFieldModel::Name(t@),
            SubField::Bbox(a, b, c, d) => SubFieldModel::Bbox(a@, b@, c@, d@),
            SubField::Ligature(a, b) => SubFieldModel::Ligature(a@, b@),
            SubField::Unknown(k, v) => SubFieldModel::Unknown(k@, v@),
        }
    }
}

/// The keyword `w` stands at `i` as a whole word: no letter or digit follows.
pub open spec fn keyword_at(s: Seq<u8>, i: int, w: Seq<u8>) -> bool {
    word_at(s, i, w) && (i + w.len() == s.len() || !(is_letter(s[i + w.len()]) || is_digit(
        s[i + w.len()],
    )))
}

/// A token followed by blanks.
pub open spec fn spaced(t: Option<(Seq<char>, int)>, s: Seq<u8>) -> Option<(Seq<char>, int)> {
    match t {
        Some((x, e)) => Some((x, content_space(s, e))),
        None => None,
    }
}

pub open spec fn spaced_number(s: Seq<u8>, i: int) -> Option<(Seq<char>, int)> {
    spaced(number(s, i), s)
}

pub open spec fn spaced_name(s: Seq<u8>, i: int) -> Option<(Seq<char>, int)> {
    spaced(token(s, i, ByteClass::NameChar), s)
}

/// Where the argument of keyword `w` starts, after blanks, if `w` stands
/// after the blanks at `i`.
pub open spec fn after_keyword(s: Seq<u8>, i: int, w: Seq<u8>) -> Option<int> {
    let j = content_space(s, i);
    if keyword_at(s, j, w) {
        Some(content_space(s, j + w.len()))
    } else {
        None
    }
}

pub open spec fn wx() -> Seq<u8> {
    seq![0x57u8, 0x58u8]
}

pub open spec fn wx0() -> Seq<u8> {
    seq![0x57u8, 0x58u8, 0x30u8]
}

pub open spec fn wx1() -> Seq<u8> {
    seq![0x57u8, 0x58u8, 0x31u8]
}

pub open spec fn n_key() -> Seq<u8> {
    seq![0x4eu8]
}

pub open spec fn b_key() -> Seq<u8> {
    seq![0x42u8]
}

pub open spec fn l_key() -> Seq<u8> {
    seq![0x4cu8]
}

pub open spec fn width0_field(s: Seq<u8>, i: int) -> Option<(SubFieldModel, int)> {
    match first(after_keyword(s, i, wx()), after_keyword(s, i, wx0())) {
        Some(j) => match spaced_number(s, j) {
            Some((t, e)) => Some((SubFieldModel::Width0(t), e)),
            None => None,
        },
        None => None,
    }
}

pub open spec fn width1_field(s: Seq<u8>, i: int) -> Option<(SubFieldModel, int)> {
    match after_keyword(s, i, wx1()) {
        Some(j) => match spaced_number(s, j) {
            Some((t, e)) => Some((SubFieldModel::Width1(t), e)),
            None => None,
        },
        None => None,
    }
}

pub open spec fn name_field(s: Seq<u8>, i: int) -> Option<(SubFieldModel, int)> {
    match after_keyword(s, i, n_key()) {
        Some(j) => match spaced_name(s, j) {
            Some((t, e)) => Some((SubFieldModel::Name(t), e)),
            None => None,
        },
        None => None,
    }
}

pub open spec fn bbox_field(s: Seq<u8>, i: int) -> Option<(SubFieldModel, int)> {
    match after_keyword(s, i, b_key()) {
        Some(j) => match spaced_number(s, j) {
            Some((a, j1)) => match spaced_number(s, j1) {
                Some((b, j2)) => match spaced_number(s, j2) {
                    Some((c, j3)) => match spaced_number(s, j3) {
                        Some((d, e)) => Some((SubFieldModel::Bbox(a, b, c, d), e)),
                        None => None,
                    },
                    None => None,
                },
                None => None,
            },
            None => None,
        },
        None => None,
    }
}

pub open spec fn ligature_field(s: Seq<u8>, i: int) -> Option<(SubFieldModel, int)> {
    match after_keyword(s, i, l_key()) {
        Some(j) => match spaced_name(s, j) {
            Some((a, j1)) => match spaced_name(s, j1) {
                Some((b, e)) => Some((SubFieldModel::Ligature(a, b), e)),
                None => None,
            },
            None => None,
        },
        None => None,
    }
}

/// A name, blanks, then raw text up to `;` or the end of the line.
pub open spec fn unknown_field(s: Seq<u8>, i: int) -> Option<(SubFieldModel, int)> {
    match spaced_name(s, content_space(s, i)) {
        Some((k, j)) => match spaced(token(s, j, ByteClass::FieldText), s) {
            Some((v, e)) => Some((SubFieldModel::Unknown(k, v), e)),
            None => None,
        },
        None => None,
    }
}

/// A sub-field at `i`: the first of `WX`/`WX0`, `WX1`, `N`, `B`, `L` and
/// any other key that matches.
pub open spec fn sub_field(s: Seq<u8>, i: int) -> Option<(SubFieldModel, int)> {
    first(
        width0_field(s, i),
        first(
            width1_field(s, i),
            first(
                name_field(s, i),
                first(bbox_field(s, i), first(ligature_field(s, i), unknown_field(s, i))),
            ),
        ),
    )
}

pub open spec fn empty_metrics(code: int) -> MetricsModel {
    MetricsModel {
        value: code,
        width0x: None,
        width1x: None,
        width0y: None,
        width1y: None,
        vvector: None,
        name: None,
        bbox: None,
        ligature_sequence: None,
    }
}

/// The record after one more sub-field; a later sub-field of a kind
/// replaces an earlier one.
pub open spec fn apply(m: MetricsModel, f: SubFieldModel) -> MetricsModel {
    match f {
        SubFieldModel::Width0(t) => MetricsModel { width0x: Some(t), ..m },
        SubFieldModel::Width1(t) => MetricsModel { width1x: Some(t), ..m },
        SubFieldModel::Name(t) => MetricsModel { name: Some(t), ..m },
        SubFieldModel::Bbox(a, b, c, d) => MetricsModel { bbox: Some((a, b, c, d)), ..m },
        SubFieldModel::Ligature(a, b) => MetricsModel { ligature_sequence: Some((a, b)), ..m },
        SubFieldModel::Unknown(_, _) => m,
    }
}

/// The `;`-terminated sub-fields from `j` on, applied to `m`; or, at the first
/// sub-field with an unknown key, its position and key.
pub open spec fn fields(s: Seq<u8>, j: int, m: MetricsModel) -> Result<
    (MetricsModel, int),
    (int, Seq<char>),
>
    decreases s.len() - j,
{
    match sub_field(s, j) {
        Some((f, e)) => if j <= e < s.len() && s[e] == 0x3b {
            match f {
                SubFieldModel::Unknown(k, _) => Err((j, k)),
                _ => fields(s, e + 1, apply(m, f)),
            }
        } else {
            Ok((m, j))
        },
        None => Ok((m, j)),
    }
}

/// The character code of a `C` record at `i` (after the `C`), and where its
/// sub-fields start, after the `;` that follows the code.
pub open spec fn record_head(s: Seq<u8>, i: int) -> Option<(int, int)> {
    match integer(s, content_space(s, i)) {
        Some((code, e)) => {
            let k = content_space(s, e);
            if 0 <= k < s.len() && s[k] == 0x3b {
                Some((code, k + 1))
            } else {
                None
            }
        },
        None => None,
    }
}

/// A character-metrics line at `i`: `C`, the code, then the sub-fields.
/// `None` where it is no such line; an error where a sub-field's key is unknown.
pub open spec fn metrics_line(s: Seq<u8>, i: int) -> Option<
    Result<(MetricsModel, int), (int, Seq<char>)>,
> {
    if 0 <= i < s.len() && s[i] == 0x43 {
        match record_head(s, i + 1) {
            Some((code, j)) => Some(fields(s, j, empty_metrics(code))),
            None => None,
        }
    } else {
        None
    }
}

/// Whether keyword `w` stands at `i` as a whole word.
fn has_keyword(s: &[u8], i: usize, w: &[u8]) -> (r: bool)
    requires
        i <= s@.len(),
    ensures
        r == keyword_at(s@, i as int, w@),
{
    let n: usize = s.len();
    if !has_word(s, i, w) {
        return false;
    }
    let e: usize = i + w.len();
    if e == n {
        true
    } else {
        let b: u8 = s[e];
        !((0x41 <= b && b <= 0x5a) || (0x61 <= b && b <= 0x7a) || (0x30 <= b && b <= 0x39))
    }
}

/// Where the argument of keyword `w` starts, if `w` follows the blanks at `i`.
fn keyword_argument(s: &[u8], i: usize, w: &[u8]) -> (r: Option<usize>)
    requires
        i <= s@.len(),
    ensures
        match r {
            Some(j) => after_keyword(s@, i as int, w@) == Some(j as int) && j <= s@.len(),
            None => after_keyword(s@, i as int, w@) is None,
        },
{
    let n: usize = s.len();
    let j = skip_content_space(s, i);
    if has_keyword(s, j, w) {
        Some(skip_content_space(s, j + w.len()))
    } else {
        None
    }
}

fn scan_spaced_number(s: &[u8], i: usize) -> (r: Option<(String, usize)>)
    requires
        i <= s@.len(),
    ensures
        match r {
            Some((t, e)) => spaced_number(s@, i as int) == Some((t@, e as int)) && e <= s@.len(),
            None => spaced_number(s@, i as int) is None,
        },
{
    match scan_number(s, i) {
        Some((t, e)) => Some((t, skip_content_space(s, e))),
        None => None,
    }
}

fn scan_spaced_name(s: &[u8], i: usize) -> (r: Option<(String, usize)>)
    requires
        i <= s@.len(),
    ensures
        match r {
            Some((t, e)) => spaced_name(s@, i as int) == Some((t@, e as int)) && e <= s@.len(),
            None => spaced_name(s@, i as int) is None,
        },
{
    match scan_token(s, i, ByteClass::NameChar) {
        Some((t, e)) => Some((t, skip_content_space(s, e))),
        None => None,
    }
}

fn parse_width0(s: &[u8], i: usize) -> (r: Option<(SubField, usize)>)
    requires
        i <= s@.len(),
    ensures
        match r {
            Some((f, e)) => width0_field(s@, i as int) == Some((f@, e as int)) && e <= s@.len(),
            None => width0_field(s@, i as int) is None,
        },
{
    let k0: [u8; 2] = [0x57u8, 0x58u8];
    let k1: [u8; 3] = [0x57u8, 0x58u8, 0x30u8];
    let w0: &[u8] = k0.as_slice();
    let w1: &[u8] = k1.as_slice();
    assert(w0@ =~= wx() && w1@ =~= wx0());
    let j = match keyword_argument(s, i, w0) {
        Some(j) => j,
        None => match keyword_argument(s, i, w1) {
            Some(j) => j,
            None => {
                return None;
            },
        },
    };
    match scan_spaced_number(s, j) {
        Some((t, e)) => Some((SubField::Width0(t), e)),
        None => None,
    }
}

fn parse_width1(s: &[u8], i: usize) -> (r: Option<(SubField, usize)>)
    requires
        i <= s@.len(),
    ensures
        match r {
            Some((f, e)) => width1_field(s@, i as int) == Some((f@, e as int)) && e <= s@.len(),
            None => width1_field(s@, i as int) is None,
        },
{
    let k: [u8; 3] = [0x57u8, 0x58u8, 0x31u8];
    let w: &[u8] = k.as_slice();
    assert(w@ =~= wx1());
    match keyword_argument(s, i, w) {
        Some(j) => match scan_spaced_number(s, j) {
            Some((t, e)) => Some((SubField::Width1(t), e)),
            None => None,
        },
        None => None,
    }
}

fn parse_name_field(s: &[u8], i: usize) -> (r: Option<(SubField, usize)>)
    requires
        i <= s@.len(),
    ensures
        match r {
            Some((f, e)) => name_field(s@, i as int) == Some((f@, e as int)) && e <= s@.len(),
            None => name_field(s@, i as int) is None,
        },
{
    let k: [u8; 1] = [0x4eu8];
    let w: &[u8] = k.as_slice();
    assert(w@ =~= n_key());
    match keyword_argument(s, i, w) {
        Some(j) => match scan_spaced_name(s, j) {
            Some((t, e)) => Some((SubField::Name(t), e)),
            None => None,
        },
        None => None,
    }
}

fn parse_bbox(s: &[u8], i: usize) -> (r: Option<(SubField, usize)>)
    requires
        i <= s@.len(),
    ensures
        match r {
            Some((f, e)) => bbox_field(s@, i as int) == Some((f@, e as int)) && e <= s@.len(),
            None => bbox_field(s@, i as int) is None,
        },
{
    let k: [u8; 1] = [0x42u8];
    let w: &[u8] = k.as_slice();
    assert(w@ =~= b_key());
    let j = match keyword_argument(s, i, w) {
        Some(j) => j,
        None => {
            return None;
        },
    };
    let (a, j1) = match scan_spaced_number(s, j) {
        Some(x) => x,
        None => {
            return None;
        },
    };
    let (b, j2) = match scan_spaced_number(s, j1) {
        Some(x) => x,
        None => {
            return None;
        },
    };
    let (c, j3) = match scan_spaced_number(s, j2) {
        Some(x) => x,
        None => {
            return None;
        },
    };
    match scan_spaced_number(s, j3) {
        Some((d, e)) => Some((SubField::Bbox(a, b, c, d), e)),
        None => None,
    }
}

fn parse_ligature(s: &[u8], i: usize) -> (r: Option<(SubField, usize)>)
    requires
        i <= s@.len(),
    ensures
        match r {
            Some((f, e)) => ligature_field(s@, i as int) == Some((f@, e as int)) && e <= s@.len(),
            None => ligature_field(s@, i as int) is None,
        },
{
    let k: [u8; 1] = [0x4cu8];
    let w: &[u8] = k.as_slice();
    assert(w@ =~= l_key());
    let j = match keyword_argument(s, i, w) {
        Some(j) => j,
        None => {
            return None;
        },
    };
    let (a, j1) = match scan_spaced_name(s, j) {
        Some(x) => x,
        None => {
            return None;
        },
    };
    match scan_spaced_name(s, j1) {
        Some((b, e)) => Some((SubField::Ligature(a, b), e)),
        None => None,
    }
}

fn parse_unknown_field(s: &[u8], i: usize) -> (r: Option<(SubField, usize)>)
    requires
        i <= s@.len(),
    ensures
        match r {
            Some((f, e)) => unknown_field(s@, i as int) == Some((f@, e as int)) && e <= s@.len(),
            None => unknown_field(s@, i as int) is None,
        },
{
    let (k, j) = match scan_spaced_name(s, skip_content_space(s, i)) {
        Some(x) => x,
        None => {
            return None;
        },
    };
    match scan_token(s, j, ByteClass::FieldText) {
        Some((v, e)) => Some((SubField::Unknown(k, v), skip_content_space(s, e))),
        None => None,
    }
}

/// A sub-field at `i`, and where it ends.
pub fn parse_sub_field(s: &[u8], i: usize) -> (r: Option<(SubField, usize)>)
    requires
        i <= s@.len(),
    ensures
        match r {
            Some((f, e)) => sub_field(s@, i as int) == Some((f@, e as int)) && e <= s@.len(),
            None => sub_field(s@, i as int) is None,
        },
{
    if let Some(x) = parse_width0(s, i) {
        Some(x)
    } else if let Some(x) = parse_width1(s, i) {
        Some(x)
    } else if let Some(x) = parse_name_field(s, i) {
        Some(x)
    } else if let Some(x) = parse_bbox(s, i) {
        Some(x)
    } else if let Some(x) = parse_ligature(s, i) {
        Some(x)
    } else {
        parse_unknown_field(s, i)
    }
}

/// Records sub-field `f` in `m`.
pub fn apply_sub_field(m: &mut CharMetrics, f: SubField)
    ensures
        final(m)@ == apply(old(m)@, f@),
{
    match f {
        SubField::Width0(t) => {
            m.width0x = Some(t);
        },
        SubField::Width1(t) => {
            m.width1x = Some(t);
        },
        SubField::Name(t) => {
            m.name = Some(t);
        },
        SubField::Bbox(a, b, c, d) => {
            m.bbox = Some((a, b, c, d));
        },
        SubField::Ligature(a, b) => {
            m.ligature_sequence = Some((a, b));
        },
        SubField::Unknown(_, _) => {},
    }
}

/// A character-metrics line at `i`: `None` where the line is of another
/// kind; else the record and where it ends, or the position and key of the
/// first sub-field whose key is unknown.
pub fn parse_metrics_line(s: &[u8], i: usize) -> (r: Option<Result<(CharMetrics, usize), (usize, String)>>)
    requires
        i <= s@.len(),
    ensures
        match r {
            Some(Ok((m, e))) => metrics_line(s@, i as int) == Some(
                Ok::<(MetricsModel, int), (int, Seq<char>)>((m@, e as int)),
            ) && e <= s@.len(),
            Some(Err((p, k))) => metrics_line(s@, i as int) == Some(
                Err::<(MetricsModel, int), (int, Seq<char>)>((p as int, k@)),
            ),
            None => metrics_line(s@, i as int) is None,
        },
{
    if !(i < s.len() && s[i] == 0x43) {
        return None;
    }
    let (code, e) = match scan_integer(s, skip_content_space(s, i + 1)) {
        Some(x) => x,
        None => {
            return None;
        },
    };
    let k = skip_content_space(s, e);
    if !(k < s.len() && s[k] == 0x3b) {
        return None;
    }
    let start: usize = k + 1;
    let mut m = CharMetrics::default();
    m.value = code;
    let mut j: usize = start;
    assert(metrics_line(s@, i as int) == Some(fields(s@, start as int, empty_metrics(code as int))));
    loop
        invariant
            start <= j <= s@.len(),
            metrics_line(s@, i as int) == Some(fields(s@, start as int, empty_metrics(code as int))),
            fields(s@, start as int, empty_metrics(code as int)) == fields(s@, j as int, m@),
        decreases s@.len() - j,
    {
        match parse_sub_field(s, j) {
            Some((f, e)) => {
                if j <= e && e < s.len() && s[e] == 0x3b {
                    if let SubField::Unknown(key, _) = f {
                        return Some(Err((j, key)));
                    }
                    apply_sub_field(&mut m, f);
                    j = e + 1;
                } else {
                    return Some(Ok((m, j)));
                }
            },
            None => {
                return Some(Ok((m, j)));
            },
        }
    }
}

} // verus!

use vstd::prelude::*;

use crate::text::{all_ascii, ascii_chars, text_from_utf8, utf8_text};

verus! {

/// The byte classes that the tokens of a line are made of.
#[derive(Clone, Copy, PartialEq, Eq, Structural, Debug)]
pub enum ByteClass {
    /// Space or tab.
    Blank,
    /// Space, tab, newline, carriage return, NUL or form feed.
    Layout,
    /// An ASCII decimal digit.
    Digit,
    /// An ASCII letter, `*`, `'` or `"`.
    NameChar,
    /// Anything but space, tab, newline or carriage return.
    KeyChar,
    /// Anything but newline or carriage return.
    LineText,
    /// Anything but newline, carriage return or `;`.
    FieldText,
}

pub open spec fn is_letter(b: u8) -> bool {
    (0x41 <= b && b <= 0x5a) || (0x61 <= b && b <= 0x7a)
}

pub open spec fn is_digit(b: u8) -> bool {
    0x30 <= b && b <= 0x39
}

pub open spec fn is_blank(b: u8) -> bool {
    b == 0x20 || b == 0x09
}

pub open spec fn is_line_end(b: u8) -> bool {
    b == 0x0a || b == 0x0d
}

impl ByteClass {
    pub open spec fn holds(self, b: u8) -> bool {
        match self {
            ByteClass::Blank => is_blank(b),
            ByteClass::Layout => is_blank(b) || is_line_end(b) || b == 0 || b == 0x0c,
            ByteClass::Digit => is_digit(b),
            ByteClass::NameChar => is_letter(b) || b == 0x2a || b == 0x27 || b == 0x22,
            ByteClass::KeyChar => !is_blank(b) && !is_line_end(b),
            ByteClass::LineText => !is_line_end(b),
            ByteClass::FieldText => !is_line_end(b) && b != 0x3b,
        }
    }

    pub fn contains(self, b: u8) -> (r: bool)
        ensures
            r == self.holds(b),
    {
        match self {
            ByteClass::Blank => b == 0x20 || b == 0x09,
            ByteClass::Layout => b == 0x20 || b == 0x09 || b == 0x0a || b == 0x0d || b == 0 || b
                == 0x0c,
            ByteClass::Digit => 0x30 <= b && b <= 0x39,
            ByteClass::NameChar => (0x41 <= b && b <= 0x5a) || (0x61 <= b && b <= 0x7a) || b == 0x2a
                || b == 0x27 || b == 0x22,
            ByteClass::KeyChar => !(b == 0x20 || b == 0x09 || b == 0x0a || b == 0x0d),
            ByteClass::LineText => !(b == 0x0a || b == 0x0d),
            ByteClass::FieldText => !(b == 0x0a || b == 0x0d || b == 0x3b),
        }
    }
}

/// Where the longest run of bytes of class `c` that starts at `i` ends.
pub open spec fn run_end(s: Seq<u8>, i: int, c: ByteClass) -> int
    decreases s.len() - i,
{
    if 0 <= i < s.len() && c.holds(s[i]) {
        run_end(s, i + 1, c)
    } else {
        i
    }
}

pub proof fn lemma_run_end(s: Seq<u8>, i: int, c: ByteClass)
    requires
        0 <= i <= s.len(),
    ensures
        i <= run_end(s, i, c) <= s.len(),
        forall|k: int| i <= k < run_end(s, i, c) ==> c.holds(#[trigger] s[k]),
        run_end(s, i, c) < s.len() ==> !c.holds(s[run_end(s, i, c)]),
    decreases s.len() - i,
{
    if i < s.len() && c.holds(s[i]) {
        lemma_run_end(s, i + 1, c);
    }
}

/// A token made of a non-empty run of class `c`, read as UTF-8 text.
pub open spec fn token(s: Seq<u8>, i: int, c: ByteClass) -> Option<(Seq<char>, int)> {
    let e = run_end(s, i, c);
    if e > i {
        match utf8_text(s.subrange(i, e)) {
            Some(t) => Some((t, e)),
            None => None,
        }
    } else {
        None
    }
}

/// Blanks between tokens of a line (none at all is a match).
pub open spec fn content_space(s: Seq<u8>, i: int) -> int {
    run_end(s, i, ByteClass::Blank)
}

/// End-of-line marker: CR LF, LF or CR, in this order.
pub open spec fn eol(s: Seq<u8>, i: int) -> Option<int> {
    if 0 <= i && i + 1 < s.len() && s[i] == 0x0d && s[i + 1] == 0x0a {
        Some(i + 2)
    } else if 0 <= i < s.len() && is_line_end(s[i]) {
        Some(i + 1)
    } else {
        None
    }
}

/// The value of a run of decimal digits.
pub open spec fn digits_value(d: Seq<u8>) -> int
    decreases d.len(),
{
    if d.len() == 0 {
        0
    } else {
        digits_value(d.drop_last()) * 10 + (d.last() - 0x30)
    }
}

/// Where the digits of a numeral start: after an optional sign.
pub open spec fn after_sign(s: Seq<u8>, i: int) -> int {
    if 0 <= i < s.len() && (s[i] == 0x2b || s[i] == 0x2d) {
        i + 1
    } else {
        i
    }
}

/// The signed value of the numeral `[+-]?[0-9]+` at `i`, with its end.
pub open spec fn integer_literal(s: Seq<u8>, i: int) -> Option<(int, int)> {
    let d = after_sign(s, i);
    let e = run_end(s, d, ByteClass::Digit);
    if e > d {
        let m = digits_value(s.subrange(d, e));
        Some((if d == i + 1 && s[i] == 0x2d { -m } else { m }, e))
    } else {
        None
    }
}

/// An integer token: its literal must fit in 64 signed bits.
pub open spec fn integer(s: Seq<u8>, i: int) -> Option<(int, int)> {
    match integer_literal(s, i) {
        Some((v, e)) => if i64::MIN <= v <= i64::MAX {
            Some((v, e))
        } else {
            None
        },
        None => None,
    }
}

/// End of a decimal numeral: an optional sign, then digits with an optional
/// `.` and fraction digits, or `.` and at least one fraction digit.
pub open spec fn number_end(s: Seq<u8>, i: int) -> Option<int> {
    let d = after_sign(s, i);
    let e = run_end(s, d, ByteClass::Digit);
    if e > d {
        if e < s.len() && s[e] == 0x2e {
            Some(run_end(s, e + 1, ByteClass::Digit))
        } else {
            Some(e)
        }
    } else if 0 <= d < s.len() && s[d] == 0x2e && run_end(s, d + 1, ByteClass::Digit) > d + 1 {
        Some(run_end(s, d + 1, ByteClass::Digit))
    } else {
        None
    }
}

/// A decimal number token, kept as the text it was written with.
pub open spec fn number(s: Seq<u8>, i: int) -> Option<(Seq<char>, int)> {
    match number_end(s, i) {
        Some(e) => match utf8_text(s.subrange(i, e)) {
            Some(t) => Some((t, e)),
            None => None,
        },
        None => None,
    }
}

/// A run that is known to stop at `e` ends there.
pub proof fn lemma_run_stops(s: Seq<u8>, i: int, e: int, c: ByteClass)
    requires
        0 <= i <= e <= s.len(),
        forall|k: int| i <= k < e ==> c.holds(#[trigger] s[k]),
        e == s.len() || !c.holds(s[e]),
    ensures
        run_end(s, i, c) == e,
    decreases e - i,
{
    if i < e {
        lemma_run_stops(s, i + 1, e, c);
    }
}

/// An optional sign followed by a maximal run of digits `s[d..e]` is an
/// integer token worth the signed value of those digits, or no token at all
/// where that value does not fit in 64 signed bits.
pub proof fn lemma_integer_value(s: Seq<u8>, i: int, d: int, e: int)
    requires
        0 <= i <= d < e <= s.len(),
        d == i || (d == i + 1 && (s[i] == 0x2b || s[i] == 0x2d)),
        forall|k: int| d <= k < e ==> is_digit(#[trigger] s[k]),
        e == s.len() || !is_digit(s[e]),
    ensures
        ({
            let m = digits_value(s.subrange(d, e));
            let v = if d == i + 1 && s[i] == 0x2d {
                -m
            } else {
                m
            };
            integer(s, i) == if i64::MIN <= v <= i64::MAX {
                Some((v, e))
            } else {
                None
            }
        }),
{
    lemma_run_stops(s, d, e, ByteClass::Digit);
}

/// A decimal numeral of any of the three shapes (digits; digits, `.` and
/// optional fraction digits; `.` and fraction digits), after an optional
/// sign, is a number token whose text is exactly what its bytes spell.
/// Here `s[d..m]` are the integer digits and `s[m..e]` the fraction part.
pub proof fn lemma_number_text(s: Seq<u8>, i: int, d: int, m: int, e: int)
    requires
        0 <= i <= d <= m <= e <= s.len(),
        d == i || (d == i + 1 && (s[i] == 0x2b || s[i] == 0x2d)),
        forall|k: int| d <= k < m ==> is_digit(#[trigger] s[k]),
        m == e && m > d && (e == s.len() || (!is_digit(s[e]) && s[e] != 0x2e)) || m < e
            && s[m] == 0x2e && (m > d || e > m + 1) && (forall|k: int|
            m < k < e ==> is_digit(#[trigger] s[k])) && (e == s.len() || !is_digit(s[e])),
    ensures
        number(s, i) == match utf8_text(s.subrange(i, e)) {
            Some(t) => Some((t, e)),
            None => None,
        },
{
    if d == i {
        assert(i < s.len() ==> !(s[i] == 0x2b || s[i] == 0x2d)) by {
            if m > d {
                assert(is_digit(s[d]));
            }
        }
    }
    assert(after_sign(s, i) == d);
    if m < e {
        lemma_run_stops(s, m + 1, e, ByteClass::Digit);
    }
    lemma_run_stops(s, d, m, ByteClass::Digit);
}

pub fn scan_run(s: &[u8], i: usize, c: ByteClass) -> (r: usize)
    requires
        i <= s@.len(),
    ensures
        r == run_end(s@, i as int, c),
        i <= r <= s@.len(),
{
    let mut k: usize = i;
    while k < s.len() && c.contains(s[k])
        invariant
            i <= k <= s@.len(),
            run_end(s@, i as int, c) == run_end(s@, k as int, c),
        decreases s@.len() - k,
    {
        k = k + 1;
    }
    proof {
        lemma_run_end(s@, i as int, c);
    }
    k
}

/// The bytes `s[i..j]` as UTF-8 text.
pub fn text_between(s: &[u8], i: usize, j: usize) -> (r: Option<String>)
    requires
        i <= j <= s@.len(),
    ensures
        r is Some <==> utf8_text(s@.subrange(i as int, j as int)) is Some,
        r is Some ==> utf8_text(s@.subrange(i as int, j as int)) == Some(r->0@),
        all_ascii(s@.subrange(i as int, j as int)) ==> r is Some && r->0@ == ascii_chars(
            s@.subrange(i as int, j as int),
        ),
{
    let mut v: Vec<u8> = Vec::new();
    let mut k: usize = i;
    while k < j
        invariant
            i <= k <= j <= s@.len(),
            v@ == s@.subrange(i as int, k as int),
        decreases j - k,
    {
        v.push(s[k]);
        k = k + 1;
        assert(v@ =~= s@.subrange(i as int, k as int));
    }
    text_from_utf8(v)
}

/// A non-empty run of class `c` at `i`, as text.
pub fn scan_token(s: &[u8], i: usize, c: ByteClass) -> (r: Option<(String, usize)>)
    requires
        i <= s@.len(),
    ensures
        match r {
            Some((t, e)) => token(s@, i as int, c) == Some((t@, e as int)) && i < e <= s@.len(),
            None => token(s@, i as int, c) is None,
        },
{
    let e = scan_run(s, i, c);
    if e > i {
        match text_between(s, i, e) {
            Some(t) => Some((t, e)),
            None => None,
        }
    } else {
        None
    }
}

pub fn skip_content_space(s: &[u8], i: usize) -> (r: usize)
    requires
        i <= s@.len(),
    ensures
        r == content_space(s@, i as int),
        i <= r <= s@.len(),
{
    scan_run(s, i, ByteClass::Blank)
}

/// The end-of-line marker at `i`, if any, and where it ends.
pub fn scan_eol(s: &[u8], i: usize) -> (r: Option<usize>)
    requires
        i <= s@.len(),
    ensures
        match r {
            Some(e) => eol(s@, i as int) == Some(e as int),
            None => eol(s@, i as int) is None,
        },
{
    if i < s.len() && i + 1 < s.len() && s[i] == 0x0d && s[i + 1] == 0x0a {
        Some(i + 2)
    } else if i < s.len() && (s[i] == 0x0a || s[i] == 0x0d) {
        Some(i + 1)
    } else {
        None
    }
}

proof fn lemma_digits_step(s: Seq<u8>, d: int, k: int)
    requires
        0 <= d <= k < s.len(),
    ensures
        digits_value(s.subrange(d, k + 1)) == digits_value(s.subrange(d, k)) * 10 + (s[k]
            - 0x30),
{
    assert(s.subrange(d, k + 1).drop_last() =~= s.subrange(d, k));
}

proof fn lemma_digits_grow(s: Seq<u8>, d: int, k: int, e: int)
    requires
        0 <= d <= k <= e <= s.len(),
        forall|x: int| d <= x < e ==> is_digit(#[trigger] s[x]),
    ensures
        digits_value(s.subrange(d, k)) <= digits_value(s.subrange(d, e)),
        0 <= digits_value(s.subrange(d, k)),
    decreases e - k,
{
    if k < e {
        lemma_digits_grow(s, d, k + 1, e);
        lemma_digits_step(s, d, k);
    } else {
        lemma_digits_nonneg(s, d, k);
    }
}

proof fn lemma_digits_nonneg(s: Seq<u8>, d: int, k: int)
    requires
        0 <= d <= k <= s.len(),
        forall|x: int| d <= x < k ==> is_digit(#[trigger] s[x]),
    ensures
        0 <= digits_value(s.subrange(d, k)),
    decreases k - d,
{
    if k > d {
        lemma_digits_nonneg(s, d, k - 1);
        lemma_digits_step(s, d, k - 1);
    }
}

/// A signed 64-bit integer token at `i`, and where it ends.
pub fn scan_integer(s: &[u8], i: usize) -> (r: Option<(i64, usize)>)
    requires
        i <= s@.len(),
    ensures
        match r {
            Some((v, e)) => integer(s@, i as int) == Some((v as int, e as int)) && i < e <= s@.len(),
            None => integer(s@, i as int) is None,
        },
{
    let d: usize = if i < s.len() && (s[i] == 0x2b || s[i] == 0x2d) {
        i + 1
    } else {
        i
    };
    let negative: bool = d > i && s[i] == 0x2d;
    let e = scan_run(s, d, ByteClass::Digit);
    proof {
        lemma_run_end(s@, d as int, ByteClass::Digit);
    }
    if e == d {
        return None;
    }
    let mut acc: u64 = 0;
    let mut k: usize = d;
    while k < e
        invariant
            d <= k <= e <= s@.len(),
            i <= d <= i + 1,
            d as int == after_sign(s@, i as int),
            e as int == run_end(s@, d as int, ByteClass::Digit),
            negative == (d == i + 1 && s@[i as int] == 0x2d),
            forall|x: int| d <= x < e ==> is_digit(#[trigger] s@[x]),
            acc as int == digits_value(s@.subrange(d as int, k as int)),
            acc <= 9223372036854775808u64,
        decreases e - k,
    {
        let dig: u64 = (s[k] - 0x30) as u64;
        proof {
            lemma_digits_step(s@, d as int, k as int);
        }
        if acc > 922337203685477580u64 || (acc == 922337203685477580u64 && dig > 8) {
            proof {
                lemma_digits_grow(s@, d as int, k as int + 1, e as int);
                assert(acc * 10 + dig > 9223372036854775808u64) by (nonlinear_arith)
                    requires
                        acc > 922337203685477580u64 || (acc == 922337203685477580u64 && dig > 8),
                ;
                assert(digits_value(s@.subrange(d as int, e as int)) > 9223372036854775808);
            }
            return None;
        }
        acc = acc * 10 + dig;
        k = k + 1;
    }
    assert(s@.subrange(d as int, e as int) == s@.subrange(d as int, k as int));
    if negative {
        if acc == 9223372036854775808u64 {
            Some((i64::MIN, e))
        } else {
            Some((-(acc as i64), e))
        }
    } else if acc > 9223372036854775807u64 {
        None
    } else {
        Some((acc as i64, e))
    }
}

/// A decimal number token at `i`, as the text it was written with.
pub fn scan_number(s: &[u8], i: usize) -> (r: Option<(String, usize)>)
    requires
        i <= s@.len(),
    ensures
        match r {
            Some((t, e)) => number(s@, i as int) == Some((t@, e as int)) && i < e <= s@.len(),
            None => number(s@, i as int) is None,
        },
{
    let d: usize = if i < s.len() && (s[i] == 0x2b || s[i] == 0x2d) {
        i + 1
    } else {
        i
    };
    let e = scan_run(s, d, ByteClass::Digit);
    let end: usize;
    if e > d {
        if e < s.len() && s[e] == 0x2e {
            end = scan_run(s, e + 1, ByteClass::Digit);
        } else {
            end = e;
        }
    } else if d < s.len() && s[d] == 0x2e {
        let f = scan_run(s, d + 1, ByteClass::Digit);
        if f > d + 1 {
            end = f;
        } else {
            return None;
        }
    } else {
        return None;
    }
    match text_between(s, i, end) {
        Some(t) => Some((t, end)),
        None => None,
    }
}

} // verus!

use vstd::prelude::*;

use crate::lexical::{
    after_sign, content_space, integer, number, run_end, scan_integer, scan_number, scan_run, scan_token,
    skip_content_space, token, lemma_run_end, ByteClass,
};

verus! {

/// A value on a keyword line.
#[derive(Debug)]
pub enum Value {
    /// Free text up to the end of the line.
    String(String),
    /// A bare name: letters, `*`, `'` and `"`.
    Name(String),
    /// A decimal number, kept as the text it was written with.
    Number(String),
    Integer(i64),
    Array(Vec<Value>),
    Boolean(bool),
}

/// What a `Value` stands for.
pub enum ValueModel {
    Text(Seq<char>),
    Name(Seq<char>),
    Number(Seq<char>),
    Integer(int),
    Array(Seq<ValueModel>),
    Boolean(bool),
}

impl Value {
    pub open spec fn view(&self) -> ValueModel
        decreases self,
    {
        match self {
            Value::String(t) => ValueModel::Text(t@),
            Value::Name(t) => ValueModel::Name(t@),
            Value::Number(t) => ValueModel::Number(t@),
            Value::Integer(n) => ValueModel::Integer(*n as int),
            Value::Array(v) => ValueModel::Array(
                Seq::new(
                    v.len() as nat,
                    |k: int|
                        if 0 <= k < v.len() {
                            v[k].view()
                        } else {
                            ValueModel::Boolean(false)
                        },
                ),
            ),
            Value::Boolean(b) => ValueModel::Boolean(*b),
        }
    }
}

pub open spec fn models(v: Seq<Value>) -> Seq<ValueModel> {
    v.map_values(|x: Value| x@)
}

/// The bytes of `w` stand at `i`.
pub open spec fn word_at(s: Seq<u8>, i: int, w: Seq<u8>) -> bool {
    0 <= i && i + w.len() <= s.len() && s.subrange(i, i + w.len()) == w
}

pub open spec fn true_word() -> Seq<u8> {
    seq![0x74u8, 0x72u8, 0x75u8, 0x65u8]
}

pub open spec fn false_word() -> Seq<u8> {
    seq![0x66u8, 0x61u8, 0x6cu8, 0x73u8, 0x65u8]
}

/// The first of two alternatives that matches.
pub open spec fn first<A>(a: Option<A>, b: Option<A>) -> Option<A> {
    if a is Some {
        a
    } else {
        b
    }
}

pub open spec fn tagged(t: Option<(Seq<char>, int)>, tag: spec_fn(Seq<char>) -> ValueModel) -> Option<(ValueModel, int)> {
    match t {
        Some((x, e)) => Some((tag(x), e)),
        None => None,
    }
}

pub open spec fn boolean(s: Seq<u8>, i: int) -> Option<(ValueModel, int)> {
    if word_at(s, i, true_word()) {
        Some((ValueModel::Boolean(true), i + 4))
    } else if word_at(s, i, false_word()) {
        Some((ValueModel::Boolean(false), i + 5))
    } else {
        None
    }
}

pub open spec fn integer_value(s: Seq<u8>, i: int) -> Option<(ValueModel, int)> {
    match integer(s, i) {
        Some((n, e)) => Some((ValueModel::Integer(n), e)),
        None => None,
    }
}

/// A value at `i`, with the blanks after it: the first of `true`, `false`,
/// an integer, a decimal number, a name, an array and, where `free_text`
/// holds, free text up to the end of the line, that matches. Free text is
/// left out within brackets, where it would run over the closing `]`.
pub open spec fn item(s: Seq<u8>, i: int, free_text: bool) -> Option<(ValueModel, int)>
    decreases s.len() - i, 2int,
{
    let r = first(
        boolean(s, i),
        first(
            integer_value(s, i),
            first(
                tagged(number(s, i), |t: Seq<char>| ValueModel::Number(t)),
                first(
                    tagged(token(s, i, ByteClass::NameChar), |t: Seq<char>| ValueModel::Name(t)),
                    first(
                        match array(s, i) {
                            Some((items, e)) => Some((ValueModel::Array(items), e)),
                            None => None,
                        },
                        if free_text {
                            tagged(
                                token(s, i, ByteClass::LineText),
                                |t: Seq<char>| ValueModel::Text(t),
                            )
                        } else {
                            None
                        },
                    ),
                ),
            ),
        ),
    );
    match r {
        Some((v, e)) => Some((v, content_space(s, e))),
        None => None,
    }
}

/// A value on a keyword line, at `i`, with the blanks after it.
pub open spec fn value(s: Seq<u8>, i: int) -> Option<(ValueModel, int)> {
    item(s, i, true)
}

/// `[`, layout, values, `]`.
pub open spec fn array(s: Seq<u8>, i: int) -> Option<(Seq<ValueModel>, int)>
    decreases s.len() - i, 1int,
{
    if 0 <= i < s.len() && s[i] == 0x5b {
        let j = run_end(s, i + 1, ByteClass::Layout);
        if i < j <= s.len() {
            let (items, k) = values(s, j);
            if 0 <= k < s.len() && s[k] == 0x5d {
                Some((items, k + 1))
            } else {
                None
            }
        } else {
            None
        }
    } else {
        None
    }
}

/// As many values of an array as follow one another from `j`, and where
/// they end.
pub open spec fn values(s: Seq<u8>, j: int) -> (Seq<ValueModel>, int)
    decreases s.len() - j, 3int,
{
    // A value takes at least one byte: the bound on `e` only shows that the
    // recursion ends.
    match item(s, j, false) {
        Some((v, e)) => if j < e <= s.len() {
            let (rest, f) = values(s, e);
            (seq![v].add(rest), f)
        } else {
            (seq![], j)
        },
        None => (seq![], j),
    }
}

/// The literal `true` or `false` is read as the matching boolean, and the
/// value ends right after the literal and the blanks that follow it.
pub proof fn lemma_boolean_literal(s: Seq<u8>, i: int)
    requires
        word_at(s, i, true_word()) || word_at(s, i, false_word()),
    ensures
        word_at(s, i, true_word()) ==> value(s, i) == Some(
            (ValueModel::Boolean(true), content_space(s, i + 4)),
        ),
        word_at(s, i, false_word()) ==> value(s, i) == Some(
            (ValueModel::Boolean(false), content_space(s, i + 5)),
        ),
{
    if word_at(s, i, true_word()) {
        assert(s.subrange(i, i + 4)[0] == 0x74u8);
    }
    if word_at(s, i, false_word()) {
        assert(s.subrange(i, i + 5)[0] == 0x66u8);
        assert(!word_at(s, i, true_word())) by {
            if word_at(s, i, true_word()) {
                assert(s.subrange(i, i + 4)[0] == 0x74u8);
            }
        }
    }
}

proof fn lemma_values_bounds(s: Seq<u8>, j: int)
    requires
        0 <= j <= s.len(),
    ensures
        j <= values(s, j).1 <= s.len(),
    decreases s.len() - j,
{
    if let Some((v, e)) = item(s, j, false) {
        if j < e <= s.len() {
            lemma_values_bounds(s, e);
        }
    }
}

/// A value takes at least one byte.
pub proof fn lemma_item_advances(s: Seq<u8>, i: int, free_text: bool)
    requires
        0 <= i <= s.len(),
        item(s, i, free_text) is Some,
    ensures
        match item(s, i, free_text) {
            Some((_, e)) => i < e <= s.len(),
            None => false,
        },
{
    lemma_run_end(s, i, ByteClass::NameChar);
    lemma_run_end(s, i, ByteClass::LineText);
    lemma_run_end(s, after_sign(s, i), ByteClass::Digit);
    if i < s.len() {
        lemma_run_end(s, i + 1, ByteClass::Digit);
        lemma_run_end(s, i + 1, ByteClass::Layout);
        if i + 1 < s.len() {
            lemma_run_end(s, i + 2, ByteClass::Digit);
        }
        let j = run_end(s, i + 1, ByteClass::Layout);
        if i < j <= s.len() {
            lemma_values_bounds(s, j);
        }
    }
    let d = after_sign(s, i);
    let e = run_end(s, d, ByteClass::Digit);
    if e < s.len() {
        lemma_run_end(s, e + 1, ByteClass::Digit);
    }
    let r = first(
        boolean(s, i),
        first(
            integer_value(s, i),
            first(
                tagged(number(s, i), |t: Seq<char>| ValueModel::Number(t)),
                first(
                    tagged(token(s, i, ByteClass::NameChar), |t: Seq<char>| ValueModel::Name(t)),
                    first(
                        match array(s, i) {
                            Some((items, e)) => Some((ValueModel::Array(items), e)),
                            None => None,
                        },
                        if free_text {
                            tagged(
                                token(s, i, ByteClass::LineText),
                                |t: Seq<char>| ValueModel::Text(t),
                            )
                        } else {
                            None
                        },
                    ),
                ),
            ),
        ),
    );
    if let Some((_, e)) = r {
        assert(i < e <= s.len());
        lemma_run_end(s, e, ByteClass::Blank);
    }
}

proof fn lemma_values_of_elements(s: Seq<u8>, ends: Seq<int>, items: Seq<ValueModel>, m: int)
    requires
        ends.len() == items.len() + 1,
        0 <= m <= items.len(),
        0 <= ends[m],
        forall|k: int|
            0 <= k < items.len() ==> #[trigger] item(s, ends[k], false) == Some(
                (items[k], ends[k + 1]),
            ),
        ends.last() < s.len(),
        s[ends.last()] == 0x5d,
    ensures
        values(s, ends[m]) == (items.subrange(m, items.len() as int), ends.last()),
    decreases items.len() - m,
{
    let n = items.len() as int;
    if m == n {
        let p = ends[m];
        if p + 4 <= s.len() {
            assert(s.subrange(p, p + 4)[0] == s[p]);
        }
        if p + 5 <= s.len() {
            assert(s.subrange(p, p + 5)[0] == s[p]);
        }
        assert(item(s, p, false) is None);
        assert(items.subrange(m, n) =~= Seq::<ValueModel>::empty());
    } else {
        assert(item(s, ends[m], false) == Some((items[m], ends[m + 1])));
        lemma_item_advances(s, ends[m], false);
        lemma_values_of_elements(s, ends, items, m + 1);
        assert(items.subrange(m, n) =~= seq![items[m]].add(items.subrange(m + 1, n)));
    }
}

/// An array is read as exactly its elements, in order: where the elements
/// read one after another from just after `[` and the layout after it are
/// `items`, and a `]` follows the last, the array holds `items` and ends
/// after that `]`. An element that is itself an array keeps its own
/// elements, so nesting is kept too.
pub proof fn lemma_array_elements(s: Seq<u8>, i: int, ends: Seq<int>, items: Seq<ValueModel>)
    requires
        0 <= i < s.len(),
        s[i] == 0x5b,
        ends.len() == items.len() + 1,
        ends[0] == run_end(s, i + 1, ByteClass::Layout),
        forall|k: int|
            0 <= k < items.len() ==> #[trigger] item(s, ends[k], false) == Some(
                (items[k], ends[k + 1]),
            ),
        ends.last() < s.len(),
        s[ends.last()] == 0x5d,
    ensures
        array(s, i) == Some((items, ends.last() + 1)),
{
    lemma_run_end(s, i + 1, ByteClass::Layout);
    lemma_values_of_elements(s, ends, items, 0);
    assert(items.subrange(0, items.len() as int) =~= items);
    assert(values(s, ends[0]) == (items, ends.last()));
    lemma_values_bounds(s, ends[0]);
}

/// Where an array stands at `i`, the value at `i` is that array (with the
/// blanks after it), in brackets or out of them: never free text.
pub proof fn lemma_bracketed_value(s: Seq<u8>, i: int, free_text: bool)
    requires
        array(s, i) is Some,
    ensures
        match array(s, i) {
            Some((items, e)) => item(s, i, free_text) == Some(
                (ValueModel::Array(items), content_space(s, e)),
            ),
            None => false,
        },
{
    if i + 4 <= s.len() {
        assert(s.subrange(i, i + 4)[0] == s[i]);
    }
    if i + 5 <= s.len() {
        assert(s.subrange(i, i + 5)[0] == s[i]);
    }
}

/// Whether the bytes of `w` stand at `i`.
pub fn has_word(s: &[u8], i: usize, w: &[u8]) -> (r: bool)
    requires
        i <= s@.len(),
    ensures
        r == word_at(s@, i as int, w@),
{
    let n: usize = s.len();
    if w.len() > n - i {
        return false;
    }
    let mut k: usize = 0;
    while k < w.len()
        invariant
            k <= w@.len(),
            i <= s@.len(),
            n == s@.len(),
            i + w@.len() <= s@.len(),
            forall|x: int| 0 <= x < k ==> s@[i + x] == w@[x],
        decreases w@.len() - k,
    {
        if s[i + k] != w[k] {
            assert(s@.subrange(i as int, i + w@.len())[k as int] != w@[k as int]);
            return false;
        }
        k = k + 1;
    }
    assert(s@.subrange(i as int, i + w@.len()) =~= w@);
    true
}

/// A value on a keyword line at `i`, with the blanks after it, and where it
/// ends.
pub fn parse_value(s: &[u8], i: usize) -> (r: Option<(Value, usize)>)
    requires
        i <= s@.len(),
    ensures
        match r {
            Some((v, e)) => value(s@, i as int) == Some((v@, e as int)) && e <= s@.len(),
            None => value(s@, i as int) is None,
        },
{
    parse_item(s, i, true)
}

/// A value at `i`, free text included only where `free_text` holds, with the
/// blanks after it, and where it ends.
pub fn parse_item(s: &[u8], i: usize, free_text: bool) -> (r: Option<(Value, usize)>)
    requires
        i <= s@.len(),
    ensures
        match r {
            Some((v, e)) => item(s@, i as int, free_text) == Some((v@, e as int)) && e <= s@.len(),
            None => item(s@, i as int, free_text) is None,
        },
    decreases s@.len() - i, 2int,
{
    let n: usize = s.len();
    let tw: [u8; 4] = [0x74u8, 0x72u8, 0x75u8, 0x65u8];
    let fw: [u8; 5] = [0x66u8, 0x61u8, 0x6cu8, 0x73u8, 0x65u8];
    assert(tw@ =~= true_word());
    assert(fw@ =~= false_word());
    let tws: &[u8] = tw.as_slice();
    let fws: &[u8] = fw.as_slice();
    assert(tws@ == true_word() && fws@ == false_word());
    let found: Option<(Value, usize)> = if has_word(s, i, tws) {
        Some((Value::Boolean(true), i + 4))
    } else if has_word(s, i, fws) {
        Some((Value::Boolean(false), i + 5))
    } else if let Some((n, e)) = scan_integer(s, i) {
        Some((Value::Integer(n), e))
    } else if let Some((t, e)) = scan_number(s, i) {
        Some((Value::Number(t), e))
    } else if let Some((t, e)) = scan_token(s, i, ByteClass::NameChar) {
        Some((Value::Name(t), e))
    } else if let Some((items, e)) = parse_array(s, i) {
        proof {
            lemma_array_view(items);
        }
        Some((Value::Array(items), e))
    } else if !free_text {
        None
    } else if let Some((t, e)) = scan_token(s, i, ByteClass::LineText) {
        Some((Value::String(t), e))
    } else {
        None
    };
    match found {
        Some((v, e)) => {
            Some((v, skip_content_space(s, e)))
        },
        None => None,
    }
}

proof fn lemma_array_view(v: Vec<Value>)
    ensures
        Value::Array(v)@ == ValueModel::Array(models(v@)),
{
    if let ValueModel::Array(m) = Value::Array(v)@ {
        assert(m =~= models(v@));
    }
}

/// An array at `i`, and where it ends.
pub fn parse_array(s: &[u8], i: usize) -> (r: Option<(Vec<Value>, usize)>)
    requires
        i <= s@.len(),
    ensures
        match r {
            Some((v, e)) => array(s@, i as int) == Some((models(v@), e as int)) && e <= s@.len(),
            None => array(s@, i as int) is None,
        },
    decreases s@.len() - i, 1int,
{
    if !(i < s.len() && s[i] == 0x5b) {
        return None;
    }
    let j = scan_run(s, i + 1, ByteClass::Layout);
    let ghost start = values(s@, j as int);
    let mut items: Vec<Value> = Vec::new();
    let mut k: usize = j;
    loop
        invariant
            i < j <= k <= s@.len(),
            j as int == run_end(s@, i + 1, ByteClass::Layout),
            values(s@, j as int) == (models(items@).add(values(s@, k as int).0), values(
                s@,
                k as int,
            ).1),
            start == values(s@, j as int),
        ensures
            values(s@, k as int) == (Seq::<ValueModel>::empty(), k as int),
        decreases s@.len() - k,
    {
        match parse_item(s, k, false) {
            Some((v, e)) => {
                if e <= k {
                    assert(values(s@, k as int) == (Seq::<ValueModel>::empty(), k as int));
                    break;
                }
                assert(models(items@.push(v)) =~= models(items@).push(v@));
                assert(models(items@).add(values(s@, k as int).0) =~= models(items@.push(v)).add(
                    values(s@, e as int).0,
                ));
                items.push(v);
                k = e;
            },
            None => {
                assert(values(s@, k as int) == (Seq::<ValueModel>::empty(), k as int));
                break;
            },
        }
    }
    assert(models(items@).add(seq![]) =~= models(items@));
    assert(start == (models(items@), k as int));
    if k < s.len() && s[k] == 0x5d {
        Some((items, k + 1))
    } else {
        None
    }
}

} // verus!

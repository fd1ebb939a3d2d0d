use vstd::prelude::*;

verus! {

/// The text that a byte sequence spells in UTF-8, or `None` where the bytes
/// are not valid UTF-8.
pub uninterp spec fn utf8_text(b: Seq<u8>) -> Option<Seq<char>>;

/// ASCII bytes read as characters, one character per byte.
pub open spec fn ascii_chars(b: Seq<u8>) -> Seq<char> {
    b.map_values(|x: u8| x as char)
}

pub open spec fn all_ascii(b: Seq<u8>) -> bool {
    forall|k: int| 0 <= k < b.len() ==> b[k] < 128
}

/// Relies on `String::from_utf8`: it succeeds exactly on valid UTF-8, and
/// ASCII bytes decode to the same characters, one for each byte.
#[verifier::external_body]
pub(crate) fn text_from_utf8(b: Vec<u8>) -> (r: Option<String>)
    ensures
        r is Some <==> utf8_text(b@) is Some,
        r is Some ==> utf8_text(b@) == Some(r->0@),
        all_ascii(b@) ==> r is Some && r->0@ == ascii_chars(b@),
{
    String::from_utf8(b).ok()
}

} // verus!

use vstd::prelude::*;
use vstd::utf8::{decode_utf8, valid_utf8};

verus! {

/// Appends `tail` to `text`. This is std's `String::push_str`, believed
/// here to do what its documentation says: the text afterwards is the
/// text before followed by `tail`.
#[verifier::external_body]
pub(crate) fn push_str(text: &mut String, tail: &str)
    ensures
        final(text)@ == old(text)@ + tail@,
{
    text.push_str(tail);
}

/// The text that `bytes` spell. This is std's `core::str::from_utf8`,
/// believed here to do what its documentation says: it succeeds exactly
/// on valid UTF-8, and the text it yields is what the bytes decode to.
#[verifier::external_body]
pub(crate) fn text_of(bytes: &Vec<u8>) -> (r: Option<String>)
    ensures
        r is Some <==> valid_utf8(bytes@),
        r matches Some(s) ==> s@ == decode_utf8(bytes@),
{
    match core::str::from_utf8(bytes.as_slice()) {
        Ok(s) => Some(s.to_owned()),
        Err(_) => None,
    }
}

/// `head` followed by `tail`.
pub fn joined(head: &str, tail: &str) -> (r: String)
    ensures
        r@ == head@ + tail@,
{
    let mut r = head.to_owned();
    push_str(&mut r, tail);
    r
}

/// The texts of `parts` one after another, with `sep` between each two.
pub open spec fn interleaved(parts: Seq<Seq<char>>, sep: Seq<char>) -> Seq<char>
    decreases parts.len(),
{
    if parts.len() == 0 {
        Seq::empty()
    } else if parts.len() == 1 {
        parts[0]
    } else {
        interleaved(parts.drop_last(), sep) + sep + parts.last()
    }
}

} // verus!

//! Texts as bytes: equality of two texts, and the chunks of a text between
//! separators.

use vstd::prelude::*;
use vstd::string::*;
use vstd::utf8::*;

verus! {

/// The chunks of `text` that lie between the occurrences of `separator`, in
/// order. A text without the separator is one chunk; a separator at either
/// end, or two in a row, leave an empty chunk there.
pub open spec fn split(text: Seq<u8>, separator: u8) -> Seq<Seq<u8>>
    decreases text.len(),
{
    if text.len() == 0 {
        seq![Seq::<u8>::empty()]
    } else {
        let before = split(text.drop_last(), separator);
        if text.last() == separator {
            before.push(Seq::<u8>::empty())
        } else {
            before.drop_last().push(before.last().push(text.last()))
        }
    }
}

/// The contents of a list of byte vectors.
pub open spec fn chunk_views(chunks: Seq<Vec<u8>>) -> Seq<Seq<u8>> {
    chunks.map_values(|chunk: Vec<u8>| chunk@)
}

/// Whether two byte strings are equal.
pub fn same_bytes(left: &[u8], right: &[u8]) -> (same: bool)
    ensures
        same == (left@ == right@),
{
    if left.len() != right.len() {
        return false;
    }
    let mut at: usize = 0;
    while at < left.len()
        invariant
            at <= left.len(),
            left.len() == right.len(),
            forall|k: int| 0 <= k < at ==> left@[k] == right@[k],
        decreases left.len() - at,
    {
        if left[at] != right[at] {
            return false;
        }
        at = at + 1;
    }
    assert(left@ =~= right@);
    true
}

/// Whether two texts hold the same characters.
pub fn same_text(left: &str, right: &str) -> (same: bool)
    ensures
        same == (left@ == right@),
{
    proof {
        encode_utf8_decode_utf8(left@);
        encode_utf8_decode_utf8(right@);
    }
    same_bytes(left.as_bytes(), right.as_bytes())
}

/// Cuts `text` at every `separator`.
pub fn split_bytes(text: &[u8], separator: u8) -> (chunks: Vec<Vec<u8>>)
    ensures
        chunk_views(chunks@) == split(text@, separator),
{
    let mut done: Vec<Vec<u8>> = Vec::new();
    let mut current: Vec<u8> = Vec::new();
    let mut at: usize = 0;
    assert(chunk_views(done@).push(current@) =~= split(text@.take(0), separator));
    while at < text.len()
        invariant
            at <= text.len(),
            chunk_views(done@).push(current@) == split(text@.take(at as int), separator),
        decreases text.len() - at,
    {
        let byte = text[at];
        proof {
            let longer = text@.take(at + 1);
            assert(longer.drop_last() =~= text@.take(at as int));
            assert(longer.last() == byte);
        }
        let ghost finished = chunk_views(done@);
        let ghost open = current@;
        if byte == separator {
            done.push(current);
            current = Vec::new();
            assert(chunk_views(done@) =~= finished.push(open));
        } else {
            current.push(byte);
            assert(finished.push(open).drop_last() =~= finished);
        }
        at = at + 1;
    }
    assert(text@.take(at as int) =~= text@);
    let ghost finished = chunk_views(done@);
    done.push(current);
    assert(chunk_views(done@) =~= finished.push(current@));
    done
}

} // verus!

//! Resolving string-table entries to text.

use vstd::prelude::*;
use vstd::utf8::{decode_utf8, valid_utf8};
use crate::osmformat::PrimitiveBlock;

verus! {

/// The text that lossy UTF-8 decoding gives for `bytes`: every maximal invalid
/// byte sequence is replaced by U+FFFD.
pub uninterp spec fn lossy_text(bytes: Seq<u8>) -> Seq<char>;

/// The text behind entry `k` of the block's string table.
pub open spec fn table_text(block: &PrimitiveBlock, k: int) -> Seq<char> {
    lossy_text(block.stringtable@[k]@)
}

/// Calls `String::from_utf8_lossy` and takes ownership of what it returns.
/// The result is the lossy decoding of the bytes; on well-formed UTF-8 that is
/// the encoded text itself.
#[verifier::external_body]
fn decode_lossy(bytes: &[u8]) -> (s: String)
    ensures
        s@ == lossy_text(bytes@),
        valid_utf8(bytes@) ==> s@ == decode_utf8(bytes@),
{
    String::from_utf8_lossy(bytes).into_owned()
}

/// The text at position `k` of the string table.
pub fn make_string(k: usize, block: &PrimitiveBlock) -> (s: String)
    requires
        block.holds(k as int),
    ensures
        s@ == table_text(block, k as int),
{
    decode_lossy(block.stringtable[k].as_slice())
}

} // verus!

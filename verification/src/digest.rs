//! The hashes by which stored items are told apart.

use vstd::prelude::*;
use vstd::string::*;

verus! {

/// The BLAKE3 hash of some bytes, in lower-case hexadecimal.
pub uninterp spec fn blake3_hex(data: Seq<u8>) -> Seq<char>;

pub open spec fn hex_digit(c: char) -> bool {
    '0' <= c <= '9' || 'a' <= c <= 'f'
}

/// A text of 64 lower-case hexadecimal digits.
pub open spec fn hex_hash(hash: Seq<char>) -> bool {
    hash.len() == 64 && forall|i: int| 0 <= i < hash.len() ==> hex_digit(#[trigger] hash[i])
}

/// `blake3::hash` and `Hash::to_hex`: the 256-bit BLAKE3 hash of the bytes,
/// written as 64 lower-case hexadecimal digits.
#[verifier::external_body]
pub(crate) fn content_hash(data: &Vec<u8>) -> (hash: String)
    ensures
        hash@ == blake3_hex(data@),
        hex_hash(hash@),
{
    blake3::hash(data.as_slice()).to_hex().to_string()
}

/// The hash of a reference: a mark that no content hash begins with, and the
/// hash of the path that is referred to.
pub open spec fn reference_hash_of(path_text: Seq<char>) -> Seq<char> {
    "ref-"@ + blake3_hex(vstd::utf8::encode_utf8(path_text))
}

/// A content hash, or the mark of references and a hash.
pub open spec fn item_hash(hash: Seq<char>) -> bool {
    ||| hex_hash(hash)
    ||| hash.len() == 68 && hash.take(4) == "ref-"@ && hex_hash(hash.skip(4))
}

/// The hash under which a reference to a path is stored.
pub fn reference_hash(path_text: &str) -> (hash: String)
    ensures
        hash@ == reference_hash_of(path_text@),
        hash@ == "ref-"@ + blake3_hex(vstd::utf8::encode_utf8(path_text@)),
        item_hash(hash@),
{
    let digits = content_hash(&path_text.as_bytes_vec());
    let mut hash = "ref-".to_owned();
    hash.append(digits.as_str());
    proof {
        reveal_strlit("ref-");
        assert(hash@.take(4) == "ref-"@);
        assert(hash@.skip(4) == digits@);
    }
    hash
}

/// No reference is stored under a hash of contents.
pub proof fn law_references_apart(contents: Seq<char>, path_text: Seq<char>)
    requires
        hex_hash(contents),
    ensures
        contents != reference_hash_of(path_text),
{
    reveal_strlit("ref-");
    assert(hex_digit(contents[0]));
    assert(reference_hash_of(path_text)[0] == 'r');
}

} // verus!

use vstd::prelude::*;
use vstd::string::*;
use crate::note::CashNote;

verus! {

/// The width in bytes of a content address.
pub const ADDRESS_LEN: usize = 32;

/// The content address of a byte string: the SHA3-256 digest that
/// `xor_name::XorName::from_content` computes.
pub uninterp spec fn content_address_of(content: Seq<u8>) -> Seq<u8>;

/// Relies on `xor_name::XorName::from_content`: a 32-byte name that depends on
/// the content alone.
#[verifier::external_body]
fn xor_name_of(content: &Vec<u8>) -> (r: Vec<u8>)
    ensures
        r@ == content_address_of(content@),
        r@.len() == ADDRESS_LEN,
{
    xor_name::XorName::from_content(content.as_slice()).0.to_vec()
}

/// The lowercase hexadecimal digit of a value below sixteen.
pub open spec fn hex_digit(v: u8) -> char
    recommends
        v < 16,
{
    if v < 10 {
        (('0' as u8) + v) as char
    } else {
        (('a' as u8) + (v - 10)) as char
    }
}

/// Two lowercase hexadecimal digits per byte, the high nibble first.
pub open spec fn hex_of(b: Seq<u8>) -> Seq<char>
    decreases b.len(),
{
    if b.len() == 0 {
        Seq::empty()
    } else {
        let last = b.last();
        hex_of(b.drop_last()) + seq![hex_digit(last / 16), hex_digit(last % 16)]
    }
}

/// Relies on `hex::encode`: two lowercase digits for each byte, in order.
#[verifier::external_body]
fn hex_encode(b: &Vec<u8>) -> (r: String)
    ensures
        r@ == hex_of(b@),
{
    hex::encode(b)
}

/// The extension of a cash note file.
pub open spec fn note_extension() -> Seq<char> {
    seq!['.', 'c', 'a', 's', 'h', '_', 'n', 'o', 't', 'e']
}

/// The name of the file that holds a note with the given unique public key.
pub open spec fn note_file_name_of(id: Seq<u8>) -> Seq<char> {
    hex_of(content_address_of(id)) + note_extension()
}

/// The content address of a note: the digest of its unique public key.
pub fn note_address(note: &CashNote) -> (r: Vec<u8>)
    ensures
        r@ == content_address_of(note@.id),
        r@.len() == ADDRESS_LEN,
{
    xor_name_of(&note.unique_pubkey)
}

/// The hexadecimal form of a byte string.
pub fn to_hex(b: &Vec<u8>) -> (r: String)
    ensures
        r@ == hex_of(b@),
{
    hex_encode(b)
}

/// The file name under which a note is stored: the hexadecimal content
/// address of its unique public key, with the `.cash_note` extension.
pub fn note_file_name(note: &CashNote) -> (r: String)
    ensures
        r@ == note_file_name_of(note@.id),
{
    let address = note_address(note);
    let hex = hex_encode(&address);
    proof {
        reveal_strlit(".cash_note");
    }
    hex.concat(".cash_note")
}

} // verus!

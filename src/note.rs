use vstd::prelude::*;

verus! {

/// A verified unit of value: its unique public key, its value and its
/// serialized form.
#[derive(Debug)]
pub struct CashNote {
    pub unique_pubkey: Vec<u8>,
    pub value: u64,
    pub encoding: Vec<u8>,
}

/// The mathematical content of a cash note.
pub struct NoteView {
    pub id: Seq<u8>,
    pub value: nat,
    pub encoding: Seq<u8>,
}

impl View for CashNote {
    type V = NoteView;

    open spec fn view(&self) -> NoteView {
        NoteView { id: self.unique_pubkey@, value: self.value as nat, encoding: self.encoding@ }
    }
}

/// The views of a sequence of notes.
pub open spec fn notes_view(notes: Seq<CashNote>) -> Seq<NoteView> {
    notes.map_values(|n: CashNote| n@)
}

impl CashNote {
    pub fn new(unique_pubkey: Vec<u8>, value: u64, encoding: Vec<u8>) -> (r: CashNote)
        ensures
            r@.id == unique_pubkey@,
            r@.value == value,
            r@.encoding == encoding@,
    {
        CashNote { unique_pubkey, value, encoding }
    }

    pub fn copy_note(&self) -> (r: CashNote)
        ensures
            r@ == self@,
    {
        CashNote {
            unique_pubkey: copy_bytes(&self.unique_pubkey),
            value: self.value,
            encoding: copy_bytes(&self.encoding),
        }
    }
}

/// Byte-wise equality of two byte vectors.
pub fn bytes_eq(a: &Vec<u8>, b: &Vec<u8>) -> (r: bool)
    ensures
        r == (a@ == b@),
{
    if a.len() != b.len() {
        return false;
    }
    let mut i: usize = 0;
    while i < a.len()
        invariant
            a@.len() == b@.len(),
            0 <= i <= a@.len(),
            a@.subrange(0, i as int) == b@.subrange(0, i as int),
        decreases a@.len() - i,
    {
        if a[i] != b[i] {
            return false;
        }
        assert(a@.subrange(0, i + 1) == a@.subrange(0, i as int).push(a@[i as int]));
        assert(b@.subrange(0, i + 1) == b@.subrange(0, i as int).push(b@[i as int]));
        i = i + 1;
    }
    assert(a@ == a@.subrange(0, a@.len() as int));
    assert(b@ == b@.subrange(0, b@.len() as int));
    true
}

/// A fresh vector holding the same bytes.
pub fn copy_bytes(a: &Vec<u8>) -> (r: Vec<u8>)
    ensures
        r@ == a@,
{
    let mut r: Vec<u8> = Vec::new();
    let mut i: usize = 0;
    while i < a.len()
        invariant
            0 <= i <= a@.len(),
            r@ == a@.subrange(0, i as int),
        decreases a@.len() - i,
    {
        r.push(a[i]);
        assert(a@.subrange(0, i + 1) == a@.subrange(0, i as int).push(a@[i as int]));
        i = i + 1;
    }
    assert(a@ == a@.subrange(0, a@.len() as int));
    r
}

} // verus!

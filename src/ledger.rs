use vstd::prelude::*;
use crate::note::{CashNote, NoteView, bytes_eq, copy_bytes, notes_view};

verus! {

/// A holder's running balance and the identifiers of the notes already
/// deposited.
pub struct WalletLedger {
    balance: u64,
    deposited: Vec<Vec<u8>>,
}

pub struct LedgerView {
    pub balance: nat,
    pub ids: Set<Seq<u8>>,
}

/// Why a deposit was refused.
#[derive(Clone, Copy, Debug, PartialEq, Eq, Structural)]
pub enum LedgerError {
    /// The balance after the deposit would not fit in 64 bits.
    Overflow,
}

/// The identifiers held by a vector of identifiers.
pub open spec fn id_set(v: Seq<Vec<u8>>) -> Set<Seq<u8>> {
    Set::new(|s: Seq<u8>| exists|k: int| 0 <= k < v.len() && #[trigger] v[k]@ == s)
}

/// The identifiers of a sequence of notes.
pub open spec fn note_ids(notes: Seq<NoteView>) -> Set<Seq<u8>> {
    Set::new(|s: Seq<u8>| exists|k: int| 0 <= k < notes.len() && #[trigger] notes[k].id == s)
}

/// The total value of a sequence of notes.
pub open spec fn sum_values(notes: Seq<NoteView>) -> nat
    decreases notes.len(),
{
    if notes.len() == 0 {
        0
    } else {
        sum_values(notes.drop_last()) + notes.last().value
    }
}

/// The identifiers and balance after depositing `notes` in order: a note
/// whose identifier is already recorded adds nothing.
pub open spec fn apply_notes(ids: Set<Seq<u8>>, balance: nat, notes: Seq<NoteView>) -> (Set<Seq<u8>>, nat)
    decreases notes.len(),
{
    if notes.len() == 0 {
        (ids, balance)
    } else {
        let prev = apply_notes(ids, balance, notes.drop_last());
        let n = notes.last();
        if prev.0.contains(n.id) {
            prev
        } else {
            (prev.0.insert(n.id), prev.1 + n.value)
        }
    }
}

/// The identifiers of distinct positions differ.
pub open spec fn distinct_ids(notes: Seq<NoteView>) -> bool {
    forall|a: int, b: int| 0 <= a < notes.len() && 0 <= b < notes.len() && a != b ==> notes[a].id != notes[b].id
}

proof fn lemma_id_set_push(v: Seq<Vec<u8>>, x: Vec<u8>)
    ensures
        id_set(v.push(x)) == id_set(v).insert(x@),
{
    let w = v.push(x);
    assert forall|s: Seq<u8>| id_set(w).contains(s) implies #[trigger] id_set(v).insert(x@).contains(s) by {
        let k = choose|k: int| 0 <= k < w.len() && #[trigger] w[k]@ == s;
        if k < v.len() {
            assert(v[k]@ == s);
        }
    }
    assert forall|s: Seq<u8>| id_set(v).insert(x@).contains(s) implies #[trigger] id_set(w).contains(s) by {
        if s == x@ {
            assert(w[v.len() as int]@ == s);
        } else {
            let k = choose|k: int| 0 <= k < v.len() && #[trigger] v[k]@ == s;
            assert(w[k]@ == s);
        }
    }
    assert(id_set(w) =~= id_set(v).insert(x@));
}

/// Depositing a prefix of a batch never yields more than the whole batch.
proof fn lemma_apply_monotone(ids: Set<Seq<u8>>, balance: nat, notes: Seq<NoteView>, i: int)
    requires
        0 <= i <= notes.len(),
    ensures
        apply_notes(ids, balance, notes.take(i)).1 <= apply_notes(ids, balance, notes).1,
    decreases notes.len(),
{
    if i < notes.len() {
        let d = notes.drop_last();
        assert(d.take(i) == notes.take(i));
        lemma_apply_monotone(ids, balance, d, i);
    } else {
        assert(notes.take(i) == notes);
    }
}

/// Depositing notes whose identifiers are all recorded already changes
/// neither the identifiers nor the balance.
pub proof fn lemma_apply_known(ids: Set<Seq<u8>>, balance: nat, notes: Seq<NoteView>)
    requires
        forall|k: int| 0 <= k < notes.len() ==> ids.contains(#[trigger] notes[k].id),
    ensures
        apply_notes(ids, balance, notes) == (ids, balance),
    decreases notes.len(),
{
    if notes.len() > 0 {
        let d = notes.drop_last();
        assert forall|k: int| 0 <= k < d.len() implies ids.contains(#[trigger] d[k].id) by {
            assert(d[k] == notes[k]);
        }
        lemma_apply_known(ids, balance, d);
        assert(ids.contains(notes[notes.len() - 1].id));
    }
}

/// Depositing a batch of notes with distinct identifiers, none of them
/// recorded yet, raises the balance by exactly the sum of their values and
/// records their identifiers; depositing the identical batch a second time
/// leaves balance and identifiers unchanged.
pub proof fn lemma_deposit_exact(ids: Set<Seq<u8>>, balance: nat, notes: Seq<NoteView>)
    requires
        distinct_ids(notes),
        forall|k: int| 0 <= k < notes.len() ==> !ids.contains(#[trigger] notes[k].id),
    ensures
        apply_notes(ids, balance, notes) == (ids.union(note_ids(notes)), balance + sum_values(notes)),
        apply_notes(apply_notes(ids, balance, notes).0, apply_notes(ids, balance, notes).1, notes)
            == apply_notes(ids, balance, notes),
    decreases notes.len(),
{
    if notes.len() == 0 {
        assert(ids.union(note_ids(notes)) =~= ids);
    } else {
        let d = notes.drop_last();
        let n = notes.last();
        assert forall|k: int| 0 <= k < d.len() implies !ids.contains(#[trigger] d[k].id) by {
            assert(d[k] == notes[k]);
        }
        assert(distinct_ids(d)) by {
            assert forall|a: int, b: int| 0 <= a < d.len() && 0 <= b < d.len() && a != b implies d[a].id != d[b].id by {
                assert(d[a] == notes[a] && d[b] == notes[b]);
            }
        }
        lemma_deposit_exact(ids, balance, d);
        assert(!ids.contains(notes[notes.len() - 1].id));
        assert(!note_ids(d).contains(n.id)) by {
            if note_ids(d).contains(n.id) {
                let k = choose|k: int| 0 <= k < d.len() && #[trigger] d[k].id == n.id;
                assert(notes[k].id == notes[notes.len() - 1].id);
            }
        }
        assert forall|s: Seq<u8>| #[trigger] note_ids(notes).contains(s) == (note_ids(d).contains(s) || s == n.id) by {
            if note_ids(notes).contains(s) {
                let k = choose|k: int| 0 <= k < notes.len() && #[trigger] notes[k].id == s;
                if k < d.len() {
                    assert(d[k].id == s);
                }
            }
            if note_ids(d).contains(s) {
                let k = choose|k: int| 0 <= k < d.len() && #[trigger] d[k].id == s;
                assert(notes[k].id == s);
            }
            if s == n.id {
                assert(notes[notes.len() - 1].id == s);
            }
        }
        assert(ids.union(note_ids(d)).insert(n.id) =~= ids.union(note_ids(notes)));
        let after = apply_notes(ids, balance, notes);
        assert forall|k: int| 0 <= k < notes.len() implies after.0.contains(#[trigger] notes[k].id) by {
            assert(note_ids(notes).contains(notes[k].id));
        }
        lemma_apply_known(after.0, after.1, notes);
    }
}

impl View for WalletLedger {
    type V = LedgerView;

    closed spec fn view(&self) -> LedgerView {
        LedgerView { balance: self.balance as nat, ids: id_set(self.deposited@) }
    }
}

/// Whether `id` is one of the identifiers in `v`.
fn contains_id(v: &Vec<Vec<u8>>, id: &Vec<u8>) -> (r: bool)
    ensures
        r == id_set(v@).contains(id@),
{
    let mut i: usize = 0;
    while i < v.len()
        invariant
            0 <= i <= v@.len(),
            forall|k: int| 0 <= k < i ==> v@[k]@ != id@,
        decreases v@.len() - i,
    {
        if bytes_eq(&v[i], id) {
            assert(v@[i as int]@ == id@);
            return true;
        }
        i = i + 1;
    }
    false
}

impl WalletLedger {
    /// An empty ledger: no balance and no note deposited.
    pub fn new() -> (r: WalletLedger)
        ensures
            r@.balance == 0,
            r@.ids == Set::<Seq<u8>>::empty(),
    {
        let r = WalletLedger { balance: 0, deposited: Vec::new() };
        assert(r@.ids =~= Set::<Seq<u8>>::empty());
        r
    }

    /// The current total value.
    pub fn balance(&self) -> (r: u64)
        ensures
            r == self@.balance,
    {
        self.balance
    }

    /// Whether a note with this unique public key was already deposited.
    pub fn is_deposited(&self, id: &Vec<u8>) -> (r: bool)
        ensures
            r == self@.ids.contains(id@),
    {
        contains_id(&self.deposited, id)
    }

    /// Adds the value of each note whose identifier is not yet recorded, once,
    /// and records it. The batch is applied whole or not at all: where the
    /// balance would overflow, the ledger is left as it was.
    pub fn deposit(&mut self, notes: &Vec<CashNote>) -> (r: Result<(), LedgerError>)
        ensures
            ({
                let after = apply_notes(old(self)@.ids, old(self)@.balance, notes_view(notes@));
                &&& after.1 <= u64::MAX ==> r is Ok && final(self)@ == (LedgerView { balance: after.1, ids: after.0 })
                &&& after.1 > u64::MAX ==> r == Err::<(), LedgerError>(LedgerError::Overflow) && final(self)@ == old(self)@
            }),
    {
        let ghost nv = notes_view(notes@);
        let ghost ids0 = id_set(self.deposited@);
        let ghost bal0 = self.balance as nat;
        let mut added: Vec<Vec<u8>> = Vec::new();
        let mut balance: u64 = self.balance;
        let mut i: usize = 0;
        while i < notes.len()
            invariant
                0 <= i <= notes@.len(),
                nv == notes_view(notes@),
                ids0 == id_set(self.deposited@),
                bal0 == old(self)@.balance,
                self == old(self),
                apply_notes(ids0, bal0, nv.take(i as int)) == (id_set(self.deposited@).union(id_set(added@)), balance as nat),
            decreases notes@.len() - i,
        {
            let n = &notes[i];
            assert(nv.take(i + 1).drop_last() == nv.take(i as int));
            assert(nv.take(i + 1).last() == n@);
            let known = contains_id(&self.deposited, &n.unique_pubkey) || contains_id(&added, &n.unique_pubkey);
            if !known {
                if n.value > u64::MAX - balance {
                    proof {
                        lemma_apply_monotone(ids0, bal0, nv, i + 1);
                        assert(nv.take(nv.len() as int) == nv);
                    }
                    return Err(LedgerError::Overflow);
                }
                balance = balance + n.value;
                let ghost prev = added@;
                added.push(copy_bytes(&n.unique_pubkey));
                proof {
                    lemma_id_set_push(prev, added@.last());
                    assert(added@ == prev.push(added@.last()));
                    assert(id_set(self.deposited@).union(id_set(added@)) =~= id_set(self.deposited@).union(
                        id_set(prev),
                    ).insert(n@.id));
                }
            }
            i = i + 1;
        }
        assert(nv.take(nv.len() as int) == nv);
        let ghost all = id_set(self.deposited@).union(id_set(added@));
        let mut j: usize = 0;
        assert(added@.skip(0) == added@);
        while j < added.len()
            invariant
                0 <= j <= added@.len(),
                all == id_set(old(self).deposited@).union(id_set(added@)),
                id_set(self.deposited@).union(id_set(added@.skip(j as int))) == all,
            decreases added@.len() - j,
        {
            let ghost prev = self.deposited@;
            self.deposited.push(copy_bytes(&added[j]));
            proof {
                lemma_id_set_push(prev, self.deposited@.last());
                assert(self.deposited@ == prev.push(self.deposited@.last()));
                let s1 = added@.skip(j as int);
                let s2 = added@.skip(j + 1);
                assert(s1 == seq![added@[j as int]] + s2);
                assert forall|s: Seq<u8>| id_set(s1).contains(s) == (s == added@[j as int]@ || id_set(s2).contains(s)) by {
                    if id_set(s1).contains(s) {
                        let k = choose|k: int| 0 <= k < s1.len() && #[trigger] s1[k]@ == s;
                        if k > 0 {
                            assert(s2[k - 1]@ == s);
                        }
                    }
                    if s == added@[j as int]@ {
                        assert(s1[0]@ == s);
                    }
                    if id_set(s2).contains(s) {
                        let k = choose|k: int| 0 <= k < s2.len() && #[trigger] s2[k]@ == s;
                        assert(s1[k + 1]@ == s);
                    }
                }
                assert(id_set(self.deposited@).union(id_set(s2)) =~= all);
            }
            j = j + 1;
        }
        proof {
            assert(id_set(added@.skip(added@.len() as int)) =~= Set::<Seq<u8>>::empty());
            assert(id_set(self.deposited@) =~= all);
        }
        self.balance = balance;
        Ok(())
    }
}

} // verus!

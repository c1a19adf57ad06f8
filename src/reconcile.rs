use vstd::prelude::*;
use crate::event::{DecodeError, EventView, NotificationEvent, RawTransfer, TransferView, decode, parse_event, transfers_view};
use crate::ledger::{LedgerError, WalletLedger, LedgerView, apply_notes};
use crate::note::{CashNote, NoteView, notes_view};
use crate::store::{NoteDir, NoteFile, note_file, note_file_of, persisted};

verus! {

/// What the holder's check of an encrypted transfer came to: the notes it
/// unpacked, or a refusal (the transfer is invalid or meant for another key).
#[derive(Debug)]
pub enum VerifyOutcome {
    Unpacked(Vec<CashNote>),
    Rejected,
}

pub enum OutcomeView {
    Unpacked(Seq<NoteView>),
    Rejected,
}

impl View for VerifyOutcome {
    type V = OutcomeView;

    open spec fn view(&self) -> OutcomeView {
        match self {
            VerifyOutcome::Unpacked(ns) => OutcomeView::Unpacked(notes_view(ns@)),
            VerifyOutcome::Rejected => OutcomeView::Rejected,
        }
    }
}

pub open spec fn outcomes_view(os: Seq<VerifyOutcome>) -> Seq<OutcomeView> {
    os.map_values(|o: VerifyOutcome| o@)
}

/// The notes a transfer yields: those unpacked from an accepted encrypted
/// transfer, and none from a refused one or from a network royalty.
pub open spec fn unpacked(t: TransferView, o: OutcomeView) -> Seq<NoteView> {
    match t {
        TransferView::Encrypted(_) => match o {
            OutcomeView::Unpacked(ns) => ns,
            OutcomeView::Rejected => Seq::empty(),
        },
        TransferView::NetworkRoyalty(_) => Seq::empty(),
    }
}

/// The notes of a batch of transfers, in order.
pub open spec fn batch_notes(ts: Seq<TransferView>, os: Seq<OutcomeView>) -> Seq<NoteView>
    decreases ts.len(),
{
    if ts.len() == 0 || os.len() == 0 {
        Seq::empty()
    } else {
        batch_notes(ts.drop_last(), os.drop_last()) + unpacked(ts.last(), os.last())
    }
}

/// The directory after persisting each note in order.
pub open spec fn persist_all(dir: Map<Seq<char>, Seq<char>>, notes: Seq<NoteView>) -> Map<Seq<char>, Seq<char>>
    decreases notes.len(),
{
    if notes.len() == 0 {
        dir
    } else {
        persisted(persist_all(dir, notes.drop_last()), notes.last())
    }
}

/// Appends copies of `ns` to `collected`.
fn append_notes(collected: &mut Vec<CashNote>, ns: &Vec<CashNote>)
    ensures
        notes_view(final(collected)@) == notes_view(old(collected)@) + notes_view(ns@),
{
    let ghost start = collected@;
    let mut j: usize = 0;
    while j < ns.len()
        invariant
            0 <= j <= ns@.len(),
            notes_view(collected@) == notes_view(start) + notes_view(ns@).take(j as int),
        decreases ns@.len() - j,
    {
        let ghost prev = collected@;
        collected.push(ns[j].copy_note());
        assert(collected@ == prev.push(collected@.last()));
        assert(notes_view(collected@) =~= notes_view(prev).push(ns@[j as int]@));
        assert(notes_view(ns@).take(j + 1) =~= notes_view(ns@).take(j as int).push(ns@[j as int]@));
        assert(notes_view(collected@) =~= notes_view(start) + notes_view(ns@).take(j + 1));
        j = j + 1;
    }
    assert(notes_view(ns@).take(ns@.len() as int) == notes_view(ns@));
}

/// Whether a transfer must be checked against the holder's key before it
/// can yield notes.
pub fn needs_verification(t: &RawTransfer) -> (r: bool)
    ensures
        r == (t@ is Encrypted),
{
    match t {
        RawTransfer::Encrypted(_) => true,
        RawTransfer::NetworkRoyalty(_) => false,
    }
}

/// The notes a transfer yields, given what its check came to.
pub fn unpack_transfer(t: &RawTransfer, outcome: VerifyOutcome) -> (r: Vec<CashNote>)
    ensures
        notes_view(r@) == unpacked(t@, outcome@),
        t@ is NetworkRoyalty ==> r@.len() == 0,
        outcome@ is Rejected ==> r@.len() == 0,
{
    match t {
        RawTransfer::Encrypted(_) => match outcome {
            VerifyOutcome::Unpacked(ns) => ns,
            VerifyOutcome::Rejected => Vec::new(),
        },
        RawTransfer::NetworkRoyalty(_) => Vec::new(),
    }
}

/// A batch in which no transfer yields a note, because each is refused or is
/// a network royalty, yields no note, so it leaves the ledger and the note
/// directory as they were.
pub proof fn lemma_barren_batch(
    ts: Seq<TransferView>,
    os: Seq<OutcomeView>,
    ids: Set<Seq<u8>>,
    balance: nat,
    dir: Map<Seq<char>, Seq<char>>,
)
    requires
        ts.len() == os.len(),
        forall|k: int| 0 <= k < ts.len() ==> (#[trigger] ts[k] is NetworkRoyalty || os[k] is Rejected),
    ensures
        batch_notes(ts, os).len() == 0,
        apply_notes(ids, balance, batch_notes(ts, os)) == (ids, balance),
        persist_all(dir, batch_notes(ts, os)) == dir,
    decreases ts.len(),
{
    if ts.len() > 0 {
        let d = ts.drop_last();
        assert forall|k: int| 0 <= k < d.len() implies (#[trigger] d[k] is NetworkRoyalty || os.drop_last()[k] is Rejected) by {
            assert(d[k] == ts[k]);
        }
        lemma_barren_batch(d, os.drop_last(), ids, balance, dir);
        assert(ts[ts.len() - 1] is NetworkRoyalty || os[os.len() - 1] is Rejected);
        assert(batch_notes(ts, os) =~= Seq::<NoteView>::empty());
    }
    assert(batch_notes(ts, os) =~= Seq::<NoteView>::empty());
}

/// What to do with a payload from the event stream.
#[derive(Debug)]
pub enum Step {
    /// The payload could not be decoded: report it and await the next one.
    Skip(DecodeError),
    /// An event of another kind: await the next one.
    Ignore,
    /// A transfer notification: check each transfer, then apply the batch.
    Verify { key: Vec<u8>, transfers: Vec<RawTransfer> },
}

/// Decodes a payload and decides what the loop does with it.
pub fn on_payload(p: &[u8]) -> (r: Step)
    ensures
        match r {
            Step::Skip(_) => parse_event(p@) is None,
            Step::Ignore => parse_event(p@) matches Some(EventView::Other { .. }),
            Step::Verify { key, transfers } => parse_event(p@) == Some(
                EventView::TransferNotification { key: key@, transfers: transfers_view(transfers@) },
            ),
        },
{
    match decode(p) {
        Err(e) => Step::Skip(e),
        Ok(NotificationEvent::Other { .. }) => Step::Ignore,
        Ok(NotificationEvent::TransferNotification { key, transfers }) => Step::Verify { key, transfers },
    }
}

/// The outcome of applying one notification batch.
#[derive(Debug)]
pub struct BatchReport {
    /// The notes deposited, in order.
    pub notes: Vec<CashNote>,
    /// The files to write, one per note, where notes are persisted.
    pub files: Vec<NoteFile>,
    /// The balance after the deposit.
    pub balance: u64,
}

/// Why a batch could not be applied.
#[derive(Clone, Copy, Debug, PartialEq, Eq, Structural)]
pub enum ReconcileError {
    /// The deposit would overflow the balance.
    Overflow,
}

/// One holder's reconciliation state: the ledger and, where notes are
/// persisted, the directory of note files.
pub struct Session {
    pub ledger: WalletLedger,
    pub notes: Option<NoteDir>,
}

impl Session {
    pub open spec fn wf(&self) -> bool {
        match self.notes {
            Some(d) => d.wf(),
            None => true,
        }
    }

    /// A fresh session; `persist` says whether notes are written to files.
    pub fn new(persist: bool) -> (r: Session)
        ensures
            r.wf(),
            r.ledger@.balance == 0,
            r.ledger@.ids == Set::<Seq<u8>>::empty(),
            persist ==> (r.notes matches Some(d) && d@ == Map::<Seq<char>, Seq<char>>::empty()),
            !persist ==> r.notes is None,
    {
        Session { ledger: WalletLedger::new(), notes: if persist { Some(NoteDir::new()) } else { None } }
    }

    /// Applies a notification batch: collects the notes of each transfer in
    /// order, persists each (where notes are persisted), then deposits all of
    /// them in one call.
    pub fn apply_batch(&mut self, transfers: &Vec<RawTransfer>, outcomes: Vec<VerifyOutcome>) -> (r: Result<
        BatchReport,
        ReconcileError,
    >)
        requires
            old(self).wf(),
            outcomes@.len() == transfers@.len(),
        ensures
            final(self).wf(),
            ({
                let notes = batch_notes(transfers_view(transfers@), outcomes_view(outcomes@));
                let after = apply_notes(old(self).ledger@.ids, old(self).ledger@.balance, notes);
                &&& (match old(self).notes {
                    Some(d) => (final(self).notes matches Some(e) && e@ == persist_all(d@, notes)),
                    None => final(self).notes is None,
                })
                &&& after.1 <= u64::MAX ==> (r matches Ok(rep) && notes_view(rep.notes@) == notes
                    && rep.balance == after.1 && final(self).ledger@ == (LedgerView { balance: after.1, ids: after.0 })
                    && rep.files@.len() == (if old(self).notes is Some { notes.len() } else { 0 })
                    && forall|k: int| 0 <= k < rep.files@.len() ==> (#[trigger] rep.files@[k].name@,
                        rep.files@[k].contents@) == note_file_of(notes[k]))
                &&& after.1 > u64::MAX ==> (r == Err::<BatchReport, ReconcileError>(ReconcileError::Overflow)
                    && final(self).ledger@ == old(self).ledger@)
            }),
    {
        let ghost tv = transfers_view(transfers@);
        let ghost ov = outcomes_view(outcomes@);
        let mut outcomes = outcomes;
        let mut collected: Vec<CashNote> = Vec::new();
        let mut i: usize = 0;
        assert(ov.skip(0) == ov);
        while i < transfers.len()
            invariant
                0 <= i <= transfers@.len(),
                tv == transfers_view(transfers@),
                ov.len() == tv.len(),
                outcomes_view(outcomes@) == ov.skip(i as int),
                notes_view(collected@) == batch_notes(tv.take(i as int), ov.take(i as int)),
            decreases transfers@.len() - i,
        {
            let ghost before = outcomes@;
            assert(outcomes_view(before).len() == before.len());
            let o = outcomes.remove(0);
            proof {
                assert(o == before[0]);
                assert(o@ == outcomes_view(before)[0]);
                assert(outcomes@ == before.subrange(1, before.len() as int));
                assert forall|k: int| 0 <= k < outcomes@.len() implies #[trigger] outcomes_view(outcomes@)[k] == ov.skip(i + 1)[k] by {
                    assert(outcomes@[k] == before[k + 1]);
                    assert(outcomes_view(before)[k + 1] == ov.skip(i as int)[k + 1]);
                }
                assert(outcomes_view(outcomes@) =~= ov.skip(i + 1));
            }
            let ns = unpack_transfer(&transfers[i], o);
            append_notes(&mut collected, &ns);
            proof {
                assert(tv.take(i + 1).drop_last() == tv.take(i as int));
                assert(ov.take(i + 1).drop_last() == ov.take(i as int));
                assert(transfers@[i as int]@ == tv[i as int]);
            }
            i = i + 1;
        }
        assert(tv.take(tv.len() as int) == tv);
        assert(ov.take(ov.len() as int) == ov);
        let ghost notes = notes_view(collected@);
        let mut files: Vec<NoteFile> = Vec::new();
        match &mut self.notes {
            Some(dir) => {
                let ghost d0 = dir@;
                let mut k: usize = 0;
                while k < collected.len()
                    invariant
                        0 <= k <= collected@.len(),
                        notes == notes_view(collected@),
                        dir.wf(),
                        dir@ == persist_all(d0, notes.take(k as int)),
                        files@.len() == k,
                        forall|m: int| 0 <= m < k ==> (#[trigger] files@[m].name@, files@[m].contents@) == note_file_of(notes[m]),
                    decreases collected@.len() - k,
                {
                    dir.persist(&collected[k]);
                    files.push(note_file(&collected[k]));
                    assert(notes.take(k + 1).drop_last() == notes.take(k as int));
                    k = k + 1;
                }
                assert(notes.take(notes.len() as int) == notes);
            },
            None => {},
        }
        match self.ledger.deposit(&collected) {
            Ok(()) => Ok(BatchReport { notes: collected, files, balance: self.ledger.balance() }),
            Err(LedgerError::Overflow) => Err(ReconcileError::Overflow),
        }
    }
}

} // verus!

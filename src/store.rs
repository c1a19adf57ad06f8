use vstd::prelude::*;
use crate::address::{hex_of, note_file_name, note_file_name_of, to_hex};
use crate::note::{CashNote, NoteView};

verus! {

/// A note laid out as a file: its name and its hexadecimal contents.
#[derive(Debug)]
pub struct NoteFile {
    pub name: String,
    pub contents: String,
}

/// The name and contents of the file that holds a note.
pub open spec fn note_file_of(n: NoteView) -> (Seq<char>, Seq<char>) {
    (note_file_name_of(n.id), hex_of(n.encoding))
}

/// The files of a directory after a note has been persisted into it.
pub open spec fn persisted(dir: Map<Seq<char>, Seq<char>>, n: NoteView) -> Map<Seq<char>, Seq<char>> {
    dir.insert(note_file_of(n).0, note_file_of(n).1)
}

/// The file that holds a note: named by the hexadecimal content address of its
/// unique public key, holding the hexadecimal form of its encoding.
pub fn note_file(note: &CashNote) -> (r: NoteFile)
    ensures
        (r.name@, r.contents@) == note_file_of(note@),
{
    NoteFile { name: note_file_name(note), contents: to_hex(&note.encoding) }
}

/// Persisting the same note twice leaves the directory as persisting it
/// once does, with one file under the note's name holding its encoding.
pub proof fn lemma_persist_idempotent(dir: Map<Seq<char>, Seq<char>>, n: NoteView)
    ensures
        persisted(persisted(dir, n), n) == persisted(dir, n),
        persisted(dir, n).dom() == dir.dom().insert(note_file_name_of(n.id)),
        persisted(dir, n)[note_file_name_of(n.id)] == hex_of(n.encoding),
{
    assert(persisted(persisted(dir, n), n) =~= persisted(dir, n));
}

/// The files named by a sequence of entries, a later entry replacing an
/// earlier one of the same name.
pub open spec fn files_map(s: Seq<NoteFile>) -> Map<Seq<char>, Seq<char>>
    decreases s.len(),
{
    if s.len() == 0 {
        Map::empty()
    } else {
        files_map(s.drop_last()).insert(s.last().name@, s.last().contents@)
    }
}

pub open spec fn distinct_names(s: Seq<NoteFile>) -> bool {
    forall|a: int, b: int| 0 <= a < s.len() && 0 <= b < s.len() && a != b ==> s[a].name@ != s[b].name@
}

proof fn lemma_files_map_dom(s: Seq<NoteFile>, k: Seq<char>)
    ensures
        files_map(s).contains_key(k) <==> exists|i: int| 0 <= i < s.len() && #[trigger] s[i].name@ == k,
    decreases s.len(),
{
    if s.len() > 0 {
        let d = s.drop_last();
        lemma_files_map_dom(d, k);
        if files_map(d).contains_key(k) {
            let i = choose|i: int| 0 <= i < d.len() && #[trigger] d[i].name@ == k;
            assert(s[i].name@ == k);
        }
        if exists|i: int| 0 <= i < s.len() && #[trigger] s[i].name@ == k {
            let i = choose|i: int| 0 <= i < s.len() && #[trigger] s[i].name@ == k;
            if i < d.len() {
                assert(d[i].name@ == k);
            }
        }
    }
}

proof fn lemma_files_map_update(s: Seq<NoteFile>, i: int, f: NoteFile)
    requires
        0 <= i < s.len(),
        distinct_names(s),
        s[i].name@ == f.name@,
    ensures
        files_map(s.update(i, f)) == files_map(s).insert(f.name@, f.contents@),
    decreases s.len(),
{
    let u = s.update(i, f);
    let d = s.drop_last();
    assert(u.drop_last() == if i == s.len() - 1 { d } else { d.update(i, f) });
    if i == s.len() - 1 {
        assert(files_map(u) =~= files_map(s).insert(f.name@, f.contents@));
    } else {
        assert(distinct_names(d)) by {
            assert forall|a: int, b: int| 0 <= a < d.len() && 0 <= b < d.len() && a != b implies d[a].name@ != d[b].name@ by {
                assert(d[a] == s[a] && d[b] == s[b]);
            }
        }
        lemma_files_map_update(d, i, f);
        assert(s[s.len() - 1].name@ != s[i].name@);
        assert(files_map(u) =~= files_map(s).insert(f.name@, f.contents@));
    }
}

/// A directory of note files held in memory.
pub struct NoteDir {
    files: Vec<NoteFile>,
}

impl View for NoteDir {
    type V = Map<Seq<char>, Seq<char>>;

    closed spec fn view(&self) -> Map<Seq<char>, Seq<char>> {
        files_map(self.files@)
    }
}

impl NoteDir {
    pub closed spec fn wf(&self) -> bool {
        distinct_names(self.files@)
    }

    /// An empty directory.
    pub fn new() -> (r: NoteDir)
        ensures
            r.wf(),
            r@ == Map::<Seq<char>, Seq<char>>::empty(),
    {
        NoteDir { files: Vec::new() }
    }

    /// The number of files.
    pub fn len(&self) -> (r: usize)
        requires
            self.wf(),
        ensures
            r == self@.dom().len(),
    {
        proof {
            self.lemma_len();
        }
        self.files.len()
    }

    proof fn lemma_len(&self)
        requires
            self.wf(),
        ensures
            self.files@.len() == self@.dom().len(),
            self@.dom().finite(),
        decreases self.files@.len(),
    {
        lemma_distinct_len(self.files@);
    }

    /// The contents of the file with this name, if there is one.
    pub fn get(&self, name: &String) -> (r: Option<String>)
        requires
            self.wf(),
        ensures
            match r {
                Some(c) => self@.contains_key(name@) && self@[name@] == c@,
                None => !self@.contains_key(name@),
            },
    {
        let mut i: usize = 0;
        while i < self.files.len()
            invariant
                0 <= i <= self.files@.len(),
                self.wf(),
                forall|k: int| 0 <= k < i ==> self.files@[k].name@ != name@,
            decreases self.files@.len() - i,
        {
            if self.files[i].name == *name {
                proof {
                    lemma_files_map_get(self.files@, i as int);
                }
                return Some(self.files[i].contents.clone());
            }
            i = i + 1;
        }
        proof {
            lemma_files_map_dom(self.files@, name@);
        }
        None
    }

    /// Writes the file of a note, replacing a file of the same name.
    pub fn persist(&mut self, note: &CashNote)
        requires
            old(self).wf(),
        ensures
            final(self).wf(),
            final(self)@ == persisted(old(self)@, note@),
    {
        let f = note_file(note);
        let mut i: usize = 0;
        while i < self.files.len()
            invariant
                0 <= i <= self.files@.len(),
                self.wf(),
                self == old(self),
                (f.name@, f.contents@) == note_file_of(note@),
                forall|k: int| 0 <= k < i ==> self.files@[k].name@ != f.name@,
            decreases self.files@.len() - i,
        {
            if self.files[i].name == f.name {
                proof {
                    lemma_files_map_update(self.files@, i as int, f);
                }
                let ghost prev = self.files@;
                self.files.set(i, f);
                proof {
                    assert(self.files@ == prev.update(i as int, f));
                    assert forall|a: int, b: int| 0 <= a < self.files@.len() && 0 <= b < self.files@.len() && a != b
                        implies self.files@[a].name@ != self.files@[b].name@ by {
                        assert(prev[a].name@ == self.files@[a].name@);
                        assert(prev[b].name@ == self.files@[b].name@);
                    }
                }
                return;
            }
            i = i + 1;
        }
        let ghost prev = self.files@;
        self.files.push(f);
        proof {
            assert(self.files@.drop_last() == prev);
        }
    }
}

proof fn lemma_files_map_get(s: Seq<NoteFile>, i: int)
    requires
        0 <= i < s.len(),
        distinct_names(s),
    ensures
        files_map(s).contains_key(s[i].name@),
        files_map(s)[s[i].name@] == s[i].contents@,
{
    assert(s.update(i, s[i]) == s);
    lemma_files_map_update(s, i, s[i]);
}

proof fn lemma_distinct_len(s: Seq<NoteFile>)
    requires
        distinct_names(s),
    ensures
        files_map(s).dom().finite(),
        files_map(s).dom().len() == s.len(),
    decreases s.len(),
{
    if s.len() > 0 {
        let d = s.drop_last();
        assert(distinct_names(d)) by {
            assert forall|a: int, b: int| 0 <= a < d.len() && 0 <= b < d.len() && a != b implies d[a].name@ != d[b].name@ by {
                assert(d[a] == s[a] && d[b] == s[b]);
            }
        }
        lemma_distinct_len(d);
        lemma_files_map_dom(d, s.last().name@);
        if files_map(d).contains_key(s.last().name@) {
            let i = choose|i: int| 0 <= i < d.len() && #[trigger] d[i].name@ == s.last().name@;
            assert(s[i].name@ == s[s.len() - 1].name@);
        }
    }
}

} // verus!

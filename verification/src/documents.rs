//! The open-document table: which files the server has been told about,
//! and at which version. Per URI the lifecycle is `Untracked`, then
//! `Open(v)` with `v` counting up from 1, then `Untracked` again; `open` on
//! an open document and `close` on an unopened one are no-ops, and `change`
//! on an unopened one is an error that leaves the table unchanged.

use vstd::prelude::*;

verus! {

/// One tracked document: its URI, the version last announced, and the
/// language identifier it was opened with.
pub struct OpenFile {
    pub uri: String,
    pub version: i32,
    pub language_id: String,
}

/// What a table operation asks the transport to send.
///
/// `DidOpen` carries the version (always 1) with the document's text and
/// language; `DidChange` carries the incremented version and the full new
/// text; `DidClose` carries the URI alone.
pub enum DocNote {
    Open { uri: Seq<char>, version: int },
    Change { uri: Seq<char>, version: int },
    Close { uri: Seq<char> },
}

/// An operation against the table, at the spec level.
pub enum DocOp {
    Open { uri: Seq<char> },
    Change { uri: Seq<char> },
    Close { uri: Seq<char> },
}

/// Why `change` can fail.
#[derive(Debug)]
pub enum DocError {
    /// The document was never opened, or was closed: no `didChange` may be
    /// sent for it.
    NotOpen,
    /// The version counter cannot go past `i32::MAX`.
    VersionExhausted,
}

/// The abstract table: URI to current version.
pub open spec fn map_of(files: Seq<OpenFile>) -> Map<Seq<char>, int>
    decreases files.len(),
{
    if files.len() == 0 {
        Map::empty()
    } else {
        map_of(files.drop_last()).insert(files.last().uri@, files.last().version as int)
    }
}

/// One step of the per-URI state machine: the new table and the notes
/// (none or one) that the step emits.
pub open spec fn doc_step(m: Map<Seq<char>, int>, op: DocOp) -> (Map<Seq<char>, int>, Seq<
    DocNote,
>) {
    match op {
        DocOp::Open { uri } => {
            if m.contains_key(uri) {
                (m, Seq::<DocNote>::empty())
            } else {
                (m.insert(uri, 1), seq![DocNote::Open { uri, version: 1 }])
            }
        },
        DocOp::Change { uri } => {
            if m.contains_key(uri) && m[uri] < i32::MAX {
                (
                    m.insert(uri, m[uri] + 1),
                    seq![DocNote::Change { uri, version: m[uri] + 1 }],
                )
            } else {
                (m, Seq::<DocNote>::empty())
            }
        },
        DocOp::Close { uri } => {
            if m.contains_key(uri) {
                (m.remove(uri), seq![DocNote::Close { uri }])
            } else {
                (m, Seq::<DocNote>::empty())
            }
        },
    }
}

/// A run of operations from a starting table: the final table and every
/// note emitted along the way, in order.
pub open spec fn doc_run(m: Map<Seq<char>, int>, ops: Seq<DocOp>) -> (Map<Seq<char>, int>, Seq<
    DocNote,
>)
    decreases ops.len(),
{
    if ops.len() == 0 {
        (m, Seq::<DocNote>::empty())
    } else {
        let (m1, notes1) = doc_step(m, ops.first());
        let (m2, notes2) = doc_run(m1, ops.drop_first());
        (m2, notes1 + notes2)
    }
}

/// The checker for an emitted note sequence: `didOpen` only for an
/// untracked URI and always at version 1; `didChange` only for a tracked
/// URI and always at exactly the previous version plus one; `didClose`
/// only for a tracked URI.
pub open spec fn notes_ok(m: Map<Seq<char>, int>, notes: Seq<DocNote>) -> bool
    decreases notes.len(),
{
    if notes.len() == 0 {
        true
    } else {
        match notes.first() {
            DocNote::Open { uri, version } => !m.contains_key(uri) && version == 1 && notes_ok(
                m.insert(uri, 1),
                notes.drop_first(),
            ),
            DocNote::Change { uri, version } => m.contains_key(uri) && version == m[uri] + 1
                && notes_ok(m.insert(uri, version), notes.drop_first()),
            DocNote::Close { uri } => m.contains_key(uri) && notes_ok(
                m.remove(uri),
                notes.drop_first(),
            ),
        }
    }
}

/// The table a legal note takes `m` to.
pub open spec fn note_step(m: Map<Seq<char>, int>, n: DocNote) -> Map<Seq<char>, int> {
    match n {
        DocNote::Open { uri, version } => m.insert(uri, 1),
        DocNote::Change { uri, version } => m.insert(uri, version),
        DocNote::Close { uri } => m.remove(uri),
    }
}

/// `notes_ok`, tracking also the table the notes end in.
pub open spec fn notes_ok_to(m: Map<Seq<char>, int>, notes: Seq<DocNote>, end: Map<
    Seq<char>,
    int,
>) -> bool
    decreases notes.len(),
{
    if notes.len() == 0 {
        m == end
    } else {
        (match notes.first() {
            DocNote::Open { uri, version } => !m.contains_key(uri) && version == 1,
            DocNote::Change { uri, version } => m.contains_key(uri) && version == m[uri] + 1,
            DocNote::Close { uri } => m.contains_key(uri),
        }) && notes_ok_to(note_step(m, notes.first()), notes.drop_first(), end)
    }
}

proof fn lemma_notes_ok_to_implies_ok(m: Map<Seq<char>, int>, notes: Seq<DocNote>, end: Map<
    Seq<char>,
    int,
>)
    requires
        notes_ok_to(m, notes, end),
    ensures
        notes_ok(m, notes),
    decreases notes.len(),
{
    if notes.len() > 0 {
        lemma_notes_ok_to_implies_ok(note_step(m, notes.first()), notes.drop_first(), end);
    }
}

proof fn lemma_doc_run_ok_to(m: Map<Seq<char>, int>, ops: Seq<DocOp>)
    ensures
        notes_ok_to(m, doc_run(m, ops).1, doc_run(m, ops).0),
    decreases ops.len(),
{
    if ops.len() > 0 {
        let (m1, notes1) = doc_step(m, ops.first());
        lemma_doc_run_ok_to(m1, ops.drop_first());
        let (m2, notes2) = doc_run(m1, ops.drop_first());
        if notes1.len() == 0 {
            assert(notes1 + notes2 =~= notes2);
        } else {
            assert((notes1 + notes2).first() == notes1.first());
            assert((notes1 + notes2).drop_first() =~= notes2);
            assert(note_step(m, notes1.first()) == m1);
        }
    }
}

/// Any sequence of `open`/`change`/`close` operations emits a note
/// sequence that the per-URI state machine accepts: each `didOpen` is for
/// an untracked URI at version 1, each `didChange` raises the tracked
/// version by exactly one, and each `didClose` is for a tracked URI — so
/// per URI the emitted versions climb strictly from 1.
pub proof fn lemma_doc_run_emissions_legal(ops: Seq<DocOp>)
    ensures
        notes_ok(Map::<Seq<char>, int>::empty(), doc_run(Map::<Seq<char>, int>::empty(), ops).1),
{
    let m = Map::<Seq<char>, int>::empty();
    lemma_doc_run_ok_to(m, ops);
    lemma_notes_ok_to_implies_ok(m, doc_run(m, ops).1, doc_run(m, ops).0);
}

/// The open-document table.
pub struct DocumentStore {
    files: Vec<OpenFile>,
}

/// What `open` hands back for a newly opened document.
pub struct DidOpenData {
    pub uri: String,
    pub version: i32,
    pub language_id: String,
    pub text: String,
}

/// What `change` hands back for a tracked document.
pub struct DidChangeData {
    pub uri: String,
    pub version: i32,
    pub text: String,
}

/// What `close` hands back for a document that was open.
pub struct DidCloseData {
    pub uri: String,
}

impl DocumentStore {
    /// The abstract table.
    pub closed spec fn view(&self) -> Map<Seq<char>, int> {
        map_of(self.files@)
    }

    /// URIs are distinct and versions start no lower than 1.
    pub closed spec fn wf(&self) -> bool {
        &&& forall|i: int, j: int|
            0 <= i < j < self.files@.len() ==> self.files@[i].uri@ != self.files@[j].uri@
        &&& forall|i: int| 0 <= i < self.files@.len() ==> 1 <= #[trigger] self.files@[i].version
    }

    pub fn new() -> (r: DocumentStore)
        ensures
            r.wf(),
            r@ == Map::<Seq<char>, int>::empty(),
    {
        DocumentStore { files: Vec::new() }
    }

    fn find_idx(&self, uri: &String) -> (r: Option<usize>)
        ensures
            match r {
                Some(i) => i < self.files@.len() && self.files@[i as int].uri@ == uri@,
                None => forall|j: int|
                    0 <= j < self.files@.len() ==> self.files@[j].uri@ != uri@,
            },
    {
        let mut i: usize = 0;
        while i < self.files.len()
            invariant
                i <= self.files@.len(),
                forall|j: int| 0 <= j < i ==> self.files@[j].uri@ != uri@,
            decreases self.files@.len() - i,
        {
            if self.files[i].uri == *uri {
                return Some(i);
            }
            i = i + 1;
        }
        None
    }

    /// Whether the URI is tracked.
    pub fn is_open(&self, uri: &String) -> (r: bool)
        ensures
            r == self@.contains_key(uri@),
    {
        proof {
            lemma_map_of_contains(self.files@, uri@);
        }
        match self.find_idx(uri) {
            Some(_) => true,
            None => false,
        }
    }

    /// Tracks a document. An already-open URI is a success that changes
    /// nothing and emits nothing; otherwise the document enters at version
    /// 1 and a `didOpen` with the full text is owed.
    pub fn open_doc(&mut self, uri: String, language_id: String, text: String) -> (r: Option<
        DidOpenData,
    >)
        requires
            old(self).wf(),
        ensures
            final(self).wf(),
            old(self)@.contains_key(uri@) ==> r is None && final(self)@ == old(self)@,
            !old(self)@.contains_key(uri@) ==> final(self)@ == old(self)@.insert(uri@, 1)
                && (r matches Some(d) && d.uri@ == uri@ && d.version == 1 && d.language_id@
                == language_id@ && d.text@ == text@),
            // The call takes one step of the document state machine.
            final(self)@ == doc_step(old(self)@, DocOp::Open { uri: uri@ }).0,
            (match r {
                Some(d) => seq![DocNote::Open { uri: uri@, version: 1 }],
                None => Seq::<DocNote>::empty(),
            }) == doc_step(old(self)@, DocOp::Open { uri: uri@ }).1,
    {
        proof {
            lemma_map_of_contains(self.files@, uri@);
        }
        match self.find_idx(&uri) {
            Some(_) => None,
            None => {
                let note = DidOpenData {
                    uri: uri.clone(),
                    version: 1,
                    language_id: language_id.clone(),
                    text,
                };
                self.files.push(OpenFile { uri, version: 1, language_id });
                proof {
                    assert(self.files@.drop_last() =~= old(self).files@);
                }
                Some(note)
            },
        }
    }

    /// Raises the version of a tracked document and hands back the
    /// `didChange` to send, with the full new text. An unopened URI is an
    /// error and the table is untouched; so is a version counter that has
    /// reached its limit.
    pub fn change_doc(&mut self, uri: &String, text: String) -> (r: Result<
        DidChangeData,
        DocError,
    >)
        requires
            old(self).wf(),
        ensures
            final(self).wf(),
            !old(self)@.contains_key(uri@) ==> r == Err::<DidChangeData, DocError>(
                DocError::NotOpen,
            ) && final(self)@ == old(self)@,
            old(self)@.contains_key(uri@) && old(self)@[uri@] == i32::MAX ==> r == Err::<
                DidChangeData,
                DocError,
            >(DocError::VersionExhausted) && final(self)@ == old(self)@,
            old(self)@.contains_key(uri@) && old(self)@[uri@] < i32::MAX ==> final(self)@ == old(
                self,
            )@.insert(uri@, old(self)@[uri@] + 1) && (r matches Ok(d) && d.uri@ == uri@
                && d.version == old(self)@[uri@] + 1 && d.text@ == text@),
            // The call takes one step of the document state machine.
            final(self)@ == doc_step(old(self)@, DocOp::Change { uri: uri@ }).0,
            (match r {
                Ok(d) => seq![DocNote::Change { uri: uri@, version: d.version as int }],
                Err(_) => Seq::<DocNote>::empty(),
            }) == doc_step(old(self)@, DocOp::Change { uri: uri@ }).1,
    {
        proof {
            lemma_map_of_contains(self.files@, uri@);
            lemma_map_of_value(self.files@, uri@);
        }
        match self.find_idx(uri) {
            None => Err(DocError::NotOpen),
            Some(i) => {
                let old_version = self.files[i].version;
                if old_version == i32::MAX {
                    return Err(DocError::VersionExhausted);
                }
                let f = self.files.remove(i);
                let new_version = old_version + 1;
                let new_file = OpenFile {
                    uri: f.uri,
                    version: new_version,
                    language_id: f.language_id,
                };
                self.files.insert(i, new_file);
                proof {
                    assert(self.files@ =~= old(self).files@.update(
                        i as int,
                        OpenFile {
                            uri: old(self).files@[i as int].uri,
                            version: new_version,
                            language_id: old(self).files@[i as int].language_id,
                        },
                    ));
                    lemma_map_of_update(old(self).files@, i as int, new_version as int);
                }
                Ok(DidChangeData { uri: uri.clone(), version: new_version, text })
            },
        }
    }

    /// Untracks a document and hands back the `didClose` to send. An
    /// unopened URI is a success that changes nothing and emits nothing.
    pub fn close_doc(&mut self, uri: &String) -> (r: Option<DidCloseData>)
        requires
            old(self).wf(),
        ensures
            final(self).wf(),
            !old(self)@.contains_key(uri@) ==> r is None && final(self)@ == old(self)@,
            old(self)@.contains_key(uri@) ==> final(self)@ == old(self)@.remove(uri@) && (
            r matches Some(d) && d.uri@ == uri@),
            // The call takes one step of the document state machine.
            final(self)@ == doc_step(old(self)@, DocOp::Close { uri: uri@ }).0,
            (match r {
                Some(_) => seq![DocNote::Close { uri: uri@ }],
                None => Seq::<DocNote>::empty(),
            }) == doc_step(old(self)@, DocOp::Close { uri: uri@ }).1,
    {
        proof {
            lemma_map_of_contains(self.files@, uri@);
        }
        match self.find_idx(uri) {
            None => None,
            Some(i) => {
                let f = self.files.remove(i);
                proof {
                    lemma_map_of_remove(old(self).files@, i as int);
                }
                Some(DidCloseData { uri: f.uri })
            },
        }
    }

    /// The tracked URIs, in table order.
    pub closed spec fn uris(&self) -> Seq<Seq<char>> {
        self.files@.map(|i: int, f: OpenFile| f.uri@)
    }

    /// The URIs of every tracked document, for closing them all: every
    /// tracked URI stands in the list, and nothing else does.
    pub fn open_uris(&self) -> (r: Vec<String>)
        ensures
            r@.len() == self.uris().len(),
            forall|i: int| 0 <= i < r@.len() ==> r@[i]@ == self.uris()[i],
            forall|i: int| 0 <= i < r@.len() ==> self@.contains_key(#[trigger] r@[i]@),
            forall|u: Seq<char>|
                #[trigger] self@.contains_key(u) ==> exists|i: int|
                    0 <= i < r@.len() && r@[i]@ == u,
    {
        let mut r: Vec<String> = Vec::new();
        let mut i: usize = 0;
        while i < self.files.len()
            invariant
                i <= self.files@.len(),
                r@.len() == i,
                forall|j: int| 0 <= j < i ==> r@[j]@ == self.files@[j].uri@,
            decreases self.files@.len() - i,
        {
            r.push(self.files[i].uri.clone());
            i = i + 1;
        }
        proof {
            assert forall|i: int| 0 <= i < r@.len() implies self@.contains_key(r@[i]@) by {
                lemma_map_of_contains(self.files@, r@[i]@);
            }
            assert forall|u: Seq<char>| #[trigger] self@.contains_key(u) implies exists|i: int|
                0 <= i < r@.len() && r@[i]@ == u by {
                lemma_map_of_contains(self.files@, u);
                let i = choose|i: int| 0 <= i < self.files@.len() && self.files@[i].uri@ == u;
                assert(r@[i]@ == u);
            }
        }
        r
    }
}

proof fn lemma_map_of_contains(files: Seq<OpenFile>, u: Seq<char>)
    ensures
        map_of(files).contains_key(u) <==> exists|i: int| 0 <= i < files.len() && files[i].uri@ == u,
    decreases files.len(),
{
    if files.len() > 0 {
        lemma_map_of_contains(files.drop_last(), u);
        if files.last().uri@ == u {
            assert(files[files.len() - 1].uri@ == u);
        } else {
            if map_of(files).contains_key(u) {
                let i = choose|i: int| 0 <= i < files.drop_last().len() && files.drop_last()[i].uri@
                    == u;
                assert(files[i].uri@ == u);
            }
            if exists|i: int| 0 <= i < files.len() && files[i].uri@ == u {
                let i = choose|i: int| 0 <= i < files.len() && files[i].uri@ == u;
                assert(i < files.len() - 1);
                assert(files.drop_last()[i].uri@ == u);
            }
        }
    }
}

proof fn lemma_map_of_value(files: Seq<OpenFile>, u: Seq<char>)
    requires
        forall|i: int, j: int| 0 <= i < j < files.len() ==> files[i].uri@ != files[j].uri@,
    ensures
        forall|i: int|
            0 <= i < files.len() && (#[trigger] files[i].uri@) == u ==> map_of(files).contains_key(
                u,
            ) && map_of(files)[u] == files[i].version as int,
    decreases files.len(),
{
    if files.len() > 0 {
        lemma_map_of_value(files.drop_last(), u);
        lemma_map_of_contains(files.drop_last(), u);
        assert forall|i: int|
            0 <= i < files.len() && (#[trigger] files[i].uri@) == u implies map_of(
            files,
        ).contains_key(u) && map_of(files)[u] == files[i].version as int by {
            if i == files.len() - 1 {
                if map_of(files.drop_last()).contains_key(u) {
                    let j = choose|j: int|
                        0 <= j < files.drop_last().len() && files.drop_last()[j].uri@ == u;
                    assert(files[j].uri@ == u);
                    assert(false);
                }
            } else {
                assert(files.drop_last()[i].uri@ == u);
                assert(files.last().uri@ != u);
            }
        }
    }
}

proof fn lemma_map_of_update(files: Seq<OpenFile>, i: int, v: int)
    requires
        0 <= i < files.len(),
        forall|a: int, b: int| 0 <= a < b < files.len() ==> files[a].uri@ != files[b].uri@,
    ensures
        ({
            let f2 = OpenFile {
                uri: files[i].uri,
                version: v as i32,
                language_id: files[i].language_id,
            };
            map_of(files.update(i, f2)) == map_of(files).insert(files[i].uri@, v as i32 as int)
        }),
    decreases files.len(),
{
    let f2 = OpenFile { uri: files[i].uri, version: v as i32, language_id: files[i].language_id };
    let updated = files.update(i, f2);
    if i == files.len() - 1 {
        assert(updated.drop_last() =~= files.drop_last());
        assert(updated.last() == f2);
        assert(map_of(updated) =~= map_of(files).insert(files[i].uri@, v as i32 as int));
    } else {
        assert(updated.drop_last() =~= files.drop_last().update(i, f2));
        lemma_map_of_update(files.drop_last(), i, v);
        assert(updated.last() == files.last());
        assert(files.last().uri@ != files[i].uri@);
        assert(map_of(updated) == map_of(files.drop_last().update(i, f2)).insert(
            files.last().uri@,
            files.last().version as int,
        ));
        assert(map_of(updated) =~= map_of(files).insert(files[i].uri@, v as i32 as int));
    }
}

proof fn lemma_map_of_remove(files: Seq<OpenFile>, i: int)
    requires
        0 <= i < files.len(),
        forall|a: int, b: int| 0 <= a < b < files.len() ==> files[a].uri@ != files[b].uri@,
    ensures
        map_of(files.remove(i)) == map_of(files).remove(files[i].uri@),
    decreases files.len(),
{
    let removed = files.remove(i);
    if i == files.len() - 1 {
        assert(removed =~= files.drop_last());
        lemma_map_of_contains(files.drop_last(), files[i].uri@);
        assert(!map_of(files.drop_last()).contains_key(files[i].uri@)) by {
            if map_of(files.drop_last()).contains_key(files[i].uri@) {
                let j = choose|j: int|
                    0 <= j < files.drop_last().len() && files.drop_last()[j].uri@ == files[i].uri@;
                assert(files[j].uri@ == files[i].uri@);
                assert(false);
            }
        }
        assert(map_of(removed) =~= map_of(files).remove(files[i].uri@));
    } else {
        assert(removed.drop_last() =~= files.drop_last().remove(i));
        lemma_map_of_remove(files.drop_last(), i);
        assert(removed.last() == files.last());
        assert(files.last().uri@ != files[i].uri@);
        assert(map_of(removed) == map_of(files.drop_last().remove(i)).insert(
            files.last().uri@,
            files.last().version as int,
        ));
        assert(map_of(removed) =~= map_of(files).remove(files[i].uri@));
    }
}

} // verus!

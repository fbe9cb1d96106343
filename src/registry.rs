//! The deduplicated registry of world folder paths.
//!
//! A [`PathRegistry`] holds the records of the path store, each in its
//! encoded form (see [`crate::codec`]). Single inserts are unconditional;
//! the bulk insert from a folder listing inserts a candidate only when no
//! record holds it yet, so that it never creates a duplicate.

use crate::codec::{base64_of, decode_path, encode_path, encoded_path, PathDecodeError};
use vstd::prelude::*;
use vstd::string::StringExecFns;

verus! {

/// One immediate child of a scanned folder.
#[derive(Debug, Clone)]
pub struct SubfolderEntry {
    /// The child's path, or `None` when its metadata could not be read.
    pub path: Option<String>,
    /// Whether the child holds a directory named `region`.
    pub has_region: bool,
}

/// The path that `e` proposes for registration: the entry could be read and
/// looks like a world folder.
pub open spec fn candidate_of(e: SubfolderEntry) -> Option<Seq<char>> {
    match e.path {
        Some(p) => if e.has_region {
            Some(p@)
        } else {
            None
        },
        None => None,
    }
}

/// Whether some entry of `entries` proposes a path whose encoded form is `record`.
pub open spec fn proposes(entries: Seq<SubfolderEntry>, record: Seq<char>) -> bool {
    exists|i: int|
        0 <= i < entries.len() && #[trigger] candidate_of(entries[i]) is Some && encoded_path(
            candidate_of(entries[i])->Some_0,
        ) == record
}

/// The records after the bulk insert has handled entry `e`.
pub open spec fn register_entry(records: Seq<Seq<char>>, e: SubfolderEntry) -> Seq<Seq<char>> {
    match candidate_of(e) {
        Some(p) => if records.contains(encoded_path(p)) {
            records
        } else {
            records.push(encoded_path(p))
        },
        None => records,
    }
}

/// The records after the bulk insert has handled `entries`, in order.
pub open spec fn register_all(records: Seq<Seq<char>>, entries: Seq<SubfolderEntry>) -> Seq<
    Seq<char>,
>
    decreases entries.len(),
{
    if entries.len() == 0 {
        records
    } else {
        register_entry(register_all(records, entries.drop_last()), entries.last())
    }
}

/// How many of `records` equal `record`.
pub open spec fn count_of(records: Seq<Seq<char>>, record: Seq<char>) -> nat
    decreases records.len(),
{
    if records.len() == 0 {
        0
    } else {
        count_of(records.drop_last(), record) + if records.last() == record {
            1nat
        } else {
            0nat
        }
    }
}

/// Whether `text` is the encoded form of some path.
pub open spec fn is_stored_path(text: Seq<char>) -> bool {
    exists|p: Seq<char>| #[trigger] encoded_path(p) == text
}

/// The error that decoding the stored text `text` reports when `text` is
/// the encoded form of no path: it is base64 of bytes that are not UTF-8, or
/// it is no base64 at all.
pub open spec fn decode_error_of(text: Seq<char>) -> PathDecodeError {
    if exists|v: Seq<u8>| #[trigger] base64_of(v) == text {
        PathDecodeError::NotUtf8
    } else {
        PathDecodeError::NotBase64
    }
}

/// The records of the path store, each in its encoded form.
#[derive(Debug, Clone)]
pub struct PathRegistry {
    records: Vec<String>,
}

impl View for PathRegistry {
    type V = Seq<Seq<char>>;

    closed spec fn view(&self) -> Seq<Seq<char>> {
        self.records@.map_values(|s: String| s@)
    }
}

impl PathRegistry {
    /// An empty registry.
    pub fn new() -> (r: PathRegistry)
        ensures
            r@ == Seq::<Seq<char>>::empty(),
    {
        let r = PathRegistry { records: Vec::new() };
        assert(r@ =~= Seq::<Seq<char>>::empty());
        r
    }

    /// A registry holding the encoded records read from the store, in order.
    pub fn from_records(records: Vec<String>) -> (r: PathRegistry)
        ensures
            r@ == records@.map_values(|s: String| s@),
    {
        PathRegistry { records }
    }

    /// The encoded records, in order.
    pub fn records(&self) -> (r: &Vec<String>)
        ensures
            r@.map_values(|s: String| s@) == self@,
    {
        &self.records
    }

    /// Appends a record for `path`, whether or not one is there already.
    pub fn add_path(&mut self, path: &str)
        ensures
            final(self)@ == old(self)@.push(encoded_path(path@)),
    {
        let e = encode_path(path);
        self.records.push(e);
        assert(self@ =~= old(self)@.push(encoded_path(path@)));
    }

    /// Whether the encoded record `record` is in the registry.
    fn contains_record(&self, record: &String) -> (r: bool)
        ensures
            r == self@.contains(record@),
    {
        let mut i: usize = 0;
        while i < self.records.len()
            invariant
                0 <= i <= self.records.len(),
                forall|j: int| 0 <= j < i ==> self@[j] != record@,
            decreases self.records.len() - i,
        {
            if self.records[i] == *record {
                assert(self@[i as int] == record@);
                return true;
            }
            i = i + 1;
        }
        false
    }

    /// Whether some record holds `path`.
    pub fn contains_path(&self, path: &str) -> (r: bool)
        ensures
            r == self@.contains(encoded_path(path@)),
    {
        let e = encode_path(path);
        self.contains_record(&e)
    }

    /// The number of records.
    pub fn get_path_count(&self) -> (r: usize)
        ensures
            r == self@.len(),
    {
        self.records.len()
    }

    /// The paths that the records hold, in the order of the records. Fails
    /// when some record is not the encoded form of any path.
    pub fn get_all_paths(&self) -> (r: Result<Vec<String>, PathDecodeError>)
        ensures
            r is Ok <==> forall|i: int| 0 <= i < self@.len() ==> is_stored_path(#[trigger] self@[i]),
            r matches Ok(paths) ==> paths@.len() == self@.len() && forall|i: int|
                0 <= i < self@.len() ==> encoded_path(#[trigger] paths@[i]@) == self@[i],
            r matches Ok(paths) ==> forall|i: int, p: Seq<char>|
                0 <= i < self@.len() && #[trigger] encoded_path(p) == #[trigger] self@[i]
                    ==> paths@[i]@ == p,
            r matches Err(e) ==> exists|k: int|
                0 <= k < self@.len() && !is_stored_path(#[trigger] self@[k]) && (forall|j: int|
                    0 <= j < k ==> is_stored_path(#[trigger] self@[j])) && e == decode_error_of(
                    self@[k],
                ),
    {
        let mut paths: Vec<String> = Vec::new();
        let mut i: usize = 0;
        while i < self.records.len()
            invariant
                0 <= i <= self.records.len(),
                paths@.len() == i,
                forall|j: int| 0 <= j < i ==> encoded_path(#[trigger] paths@[j]@) == self@[j],
                forall|j: int| 0 <= j < i ==> is_stored_path(#[trigger] self@[j]),
                forall|j: int, p: Seq<char>|
                    0 <= j < i && #[trigger] encoded_path(p) == #[trigger] self@[j] ==> paths@[j]@
                        == p,
            decreases self.records.len() - i,
        {
            match decode_path(self.records[i].as_str()) {
                Ok(p) => {
                    assert(encoded_path(p@) == self@[i as int]);
                    let ghost before = paths@;
                    paths.push(p);
                    assert(forall|j: int| 0 <= j < i ==> paths@[j] == before[j]);
                },
                Err(e) => {
                    assert(!is_stored_path(self@[i as int]));
                    assert(e == decode_error_of(self@[i as int]));
                    return Err(e);
                },
            }
            i = i + 1;
        }
        Ok(paths)
    }

    /// Registers the world folders among the children of a scanned folder.
    ///
    /// A child is a candidate when it could be read and holds a `region`
    /// directory. A candidate is inserted only when no record holds it yet,
    /// so that no path is recorded twice; children that could not be read are
    /// passed over without affecting the others. Returns the records that
    /// were appended, in order.
    pub fn insert_subfolders_of_folder(&mut self, entries: &Vec<SubfolderEntry>) -> (r: Vec<String>)
        ensures
            final(self)@ == register_all(old(self)@, entries@),
            final(self)@ == old(self)@ + r@.map_values(|s: String| s@),
            forall|i: int|
                0 <= i < entries@.len() && #[trigger] candidate_of(entries@[i]) is Some
                    ==> final(self)@.contains(encoded_path(candidate_of(entries@[i])->Some_0)),
    {
        let mut added: Vec<String> = Vec::new();
        let mut i: usize = 0;
        while i < entries.len()
            invariant
                0 <= i <= entries@.len(),
                self@ == register_all(old(self)@, entries@.take(i as int)),
                self@ == old(self)@ + added@.map_values(|s: String| s@),
                forall|j: int|
                    0 <= j < i && #[trigger] candidate_of(entries@[j]) is Some ==> self@.contains(
                        encoded_path(candidate_of(entries@[j])->Some_0),
                    ),
            decreases entries@.len() - i,
        {
            let ghost before = self@;
            let entry = &entries[i];
            assert(entries@.take(i + 1).drop_last() =~= entries@.take(i as int));
            assert(entries@.take(i + 1).last() == entries@[i as int]);
            match &entry.path {
                Some(p) => {
                    if entry.has_region {
                        let e = encode_path(p.as_str());
                        if !self.contains_record(&e) {
                            self.records.push(e.clone());
                            added.push(e);
                            assert(self@ =~= before.push(encoded_path(p@)));
                            assert(self@ =~= old(self)@ + added@.map_values(|s: String| s@));
                        }
                        assert(self@.contains(encoded_path(p@))) by {
                            if before.contains(encoded_path(p@)) {
                                let k = choose|k: int| 0 <= k < before.len() && before[k] == encoded_path(p@);
                                assert(self@[k] == before[k]);
                            } else {
                                assert(self@[before.len() as int] == encoded_path(p@));
                            }
                        }
                    }
                },
                None => {},
            }
            assert forall|j: int|
                0 <= j < i + 1 && #[trigger] candidate_of(entries@[j]) is Some implies self@.contains(
                encoded_path(candidate_of(entries@[j])->Some_0),
            ) by {
                if j < i {
                    let x = encoded_path(candidate_of(entries@[j])->Some_0);
                    let k = choose|k: int| 0 <= k < before.len() && before[k] == x;
                    assert(self@.len() >= before.len());
                    assert(self@[k] == before[k]);
                }
            }
            i = i + 1;
        }
        assert(entries@.take(entries@.len() as int) =~= entries@);
        added
    }
}

proof fn lemma_count_push(records: Seq<Seq<char>>, record: Seq<char>, added: Seq<char>)
    ensures
        count_of(records.push(added), record) == count_of(records, record) + if added == record {
            1nat
        } else {
            0nat
        },
{
    assert(records.push(added).drop_last() =~= records);
}

proof fn lemma_count_contains(records: Seq<Seq<char>>, record: Seq<char>)
    ensures
        records.contains(record) <==> count_of(records, record) > 0,
    decreases records.len(),
{
    if records.len() > 0 {
        let init = records.drop_last();
        lemma_count_contains(init, record);
        if init.contains(record) {
            let k = choose|k: int| 0 <= k < init.len() && init[k] == record;
            assert(records[k] == init[k]);
        }
        if records.contains(record) && records.last() != record {
            let k = choose|k: int| 0 <= k < records.len() && records[k] == record;
            assert(k < init.len());
            assert(init[k] == records[k]);
        }
    }
}

/// How often the bulk insert leaves `record` among the records: once where
/// it was absent and some entry proposes it, as often as before otherwise.
pub proof fn lemma_register_all_count(
    records: Seq<Seq<char>>,
    entries: Seq<SubfolderEntry>,
    record: Seq<char>,
)
    ensures
        count_of(register_all(records, entries), record) == if count_of(records, record) == 0
            && proposes(entries, record) {
            1nat
        } else {
            count_of(records, record)
        },
    decreases entries.len(),
{
    if entries.len() > 0 {
        let init = entries.drop_last();
        let prev = register_all(records, init);
        lemma_register_all_count(records, init, record);
        lemma_count_contains(prev, record);
        let e = entries.last();
        if proposes(init, record) {
            let i = choose|i: int|
                0 <= i < init.len() && #[trigger] candidate_of(init[i]) is Some && encoded_path(
                    candidate_of(init[i])->Some_0,
                ) == record;
            assert(entries[i] == init[i]);
        }
        match candidate_of(e) {
            Some(p) => {
                assert(candidate_of(entries[entries.len() - 1]) is Some);
                if !prev.contains(encoded_path(p)) {
                    lemma_count_push(prev, record, encoded_path(p));
                }
                if encoded_path(p) != record && proposes(entries, record) {
                    let i = choose|i: int|
                        0 <= i < entries.len() && #[trigger] candidate_of(entries[i]) is Some
                            && encoded_path(candidate_of(entries[i])->Some_0) == record;
                    assert(init[i] == entries[i]);
                }
            },
            None => {
                if proposes(entries, record) {
                    let i = choose|i: int|
                        0 <= i < entries.len() && #[trigger] candidate_of(entries[i]) is Some
                            && encoded_path(candidate_of(entries[i])->Some_0) == record;
                    assert(init[i] == entries[i]);
                }
            },
        }
    }
}

/// Registering the subfolders of two listings that both propose `path`
/// leaves exactly one record of `path`, provided there was at most one
/// before.
pub proof fn lemma_bulk_register_twice_single_record(
    records: Seq<Seq<char>>,
    first: Seq<SubfolderEntry>,
    second: Seq<SubfolderEntry>,
    path: Seq<char>,
)
    requires
        count_of(records, encoded_path(path)) <= 1,
        proposes(first, encoded_path(path)),
        proposes(second, encoded_path(path)),
    ensures
        count_of(register_all(register_all(records, first), second), encoded_path(path)) == 1,
{
    lemma_register_all_count(records, first, encoded_path(path));
    lemma_register_all_count(register_all(records, first), second, encoded_path(path));
}

/// The texts of `paths` joined by commas, in order.
pub open spec fn comma_joined(paths: Seq<Seq<char>>) -> Seq<char>
    decreases paths.len(),
{
    if paths.len() == 0 {
        Seq::empty()
    } else if paths.len() == 1 {
        paths[0]
    } else {
        comma_joined(paths.drop_last()) + seq![','] + paths.last()
    }
}

/// Joins `paths` with commas, as the listing of registered paths is shown.
pub fn join_paths(paths: &Vec<String>) -> (r: String)
    ensures
        r@ == comma_joined(paths@.map_values(|s: String| s@)),
{
    let ghost view = paths@.map_values(|s: String| s@);
    let mut out = String::new();
    let mut i: usize = 0;
    while i < paths.len()
        invariant
            0 <= i <= paths@.len(),
            view == paths@.map_values(|s: String| s@),
            out@ == comma_joined(view.take(i as int)),
        decreases paths@.len() - i,
    {
        assert(view.take(i + 1).drop_last() =~= view.take(i as int));
        assert(view.take(i + 1).last() == paths@[i as int]@);
        if i > 0 {
            proof {
                reveal_strlit(",");
            }
            out.append(",");
        }
        out.append(paths[i].as_str());
        i = i + 1;
    }
    assert(view.take(paths@.len() as int) =~= view);
    out
}

} // verus!

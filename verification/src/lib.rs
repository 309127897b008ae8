//! Tables of human-readable records, one file per record.
//!
//! A [`Table`] keeps a named collection of values of type `T` in memory,
//! mirrored by a directory in which every record owns one small file.
//! The directory is represented by an in-memory [`fsdir::Directory`] image
//! that the table owns for its whole lifetime; an embedding program reads
//! the image from disk before loading and writes it back after closing.

use vstd::prelude::*;

mod aux;
mod fsdir;
mod jsonio;
mod laws;
mod model;
mod names;
mod strmap;
mod table_error;

pub use aux::{
    ContentPolicy, ExtensionPolicy, PathStatus, RWPolicy, TableBuilder, TableMetadata, WriteType,
};
pub use fsdir::{ContentModel, Directory, FileContent, FsNode, NodeModel};
pub use jsonio::{build_directory, content_from_text, json_parse, json_pretty, listing_model, render_content};
pub use laws::{
    all_decodable, fully_backed, lemma_dirty_monotone, lemma_pop_missing, lemma_push_existing,
    lemma_round_trip, lemma_soft_delete_preserves,
};
pub use model::{
    clone_exact, clone_rel, eq_rel, file_value, files_written_rel, is_decodable,
    load_err_possible, load_must_succeed, m_append, m_append_from, m_close, m_pop, m_push,
    m_remove, m_remove_from, m_rename, m_set, m_soft_pop, m_write_back, records_loaded,
    spec_loadable, spec_qualifies, written_files, RecordModel, TableModel,
};
pub use names::{base_of, ext_of, has_ext, json_ext, json_suffix, soft_ext, soft_suffix};
pub use table_error::{res_model, ErrModel, FileOpKind, TableBuilderError, TableError};

use crate::names::{base_name, ext_is_json, ext_is_soft, json_name, lemma_json_name, soft_name};
use crate::strmap::StrMap;

verus! {

/// The structure stored in the internal record map: the content of one
/// backing file. Only the decoded value is accessible; the backing file
/// itself stays private to the engine.
pub struct TableElement<T> {
    /// The name of the backing file inside the table's directory.
    backing: String,
    /// Whether a live handle to the backing file is held.
    handle: bool,
    /// The element that is actually stored and read.
    pub info: T,
}

impl<T> View for TableElement<T> {
    type V = RecordModel<T>;

    closed spec fn view(&self) -> RecordModel<T> {
        RecordModel { backing: self.backing@, handle: self.handle, value: self.info }
    }
}

impl<T> TableElement<T> {
    /// The stored value: the same one the `info` field holds, tied to
    /// the element's mathematical image.
    pub fn value(&self) -> (r: &T)
        ensures
            *r == self@.value,
    {
        &self.info
    }
}

/// Main structure of this crate: a named collection of values of type
/// `T`, one backing file per value, loaded whole into memory. The table
/// owns the image of its directory for its whole lifetime.
pub struct Table<T> {
    /// The path of the table's directory on the host.
    dir: String,
    /// The owned image of the table's directory.
    store: Directory<T>,
    /// The record cache: key to element.
    content: StrMap<TableElement<T>>,
    /// The policy bundle.
    metadata: TableMetadata,
    /// Whether some in-memory value may be ahead of its backing file.
    is_modified: bool,
}

impl<T> View for Table<T> {
    type V = TableModel<T>;

    closed spec fn view(&self) -> TableModel<T> {
        TableModel {
            path: self.dir@,
            files: self.store@,
            records: self.content@.map_values(|e: TableElement<T>| e@),
            meta: self.metadata,
            dirty: self.is_modified,
        }
    }
}

impl<T> Table<T> {
    /// The table is internally sound and its model is well-formed.
    pub closed spec fn wf(&self) -> bool {
        &&& self.store.wf()
        &&& self.content.wf()
        &&& self@.wf()
    }

    /// Create a new table: an empty record cache over a directory that
    /// the embedding program creates, empty, at `dir`. `status` is what
    /// the program found at that path.
    ///
    /// # Errors
    /// 1. The policy has no write permission (a table cannot be created
    ///    without eventually being writable).
    /// 2. Something already exists at `dir`.
    /// 3. The directory cannot be created there.
    pub fn new(dir: &str, status: PathStatus, metadata: TableMetadata) -> (r: Result<
        Table<T>,
        TableBuilderError,
    >)
        ensures
            r is Ok <==> metadata.rw_policy is Write && status is Vacant,
            match r {
                Ok(t) => t.wf() && t@ == TableModel::<T>::empty(dir@, metadata),
                Err(e) => match e {
                    TableBuilderError::CreateWithoutWriteError => metadata.rw_policy is ReadOnly,
                    TableBuilderError::TableAlreadyExistsError => metadata.rw_policy is Write
                        && status is Occupied,
                    TableBuilderError::DirCreateError(k) => metadata.rw_policy is Write && status
                        == PathStatus::Uncreatable(k),
                },
            },
    {
        if let RWPolicy::ReadOnly = metadata.rw_policy {
            return Err(TableBuilderError::CreateWithoutWriteError);
        }
        match status {
            PathStatus::Occupied => Err(TableBuilderError::TableAlreadyExistsError),
            PathStatus::Uncreatable(k) => Err(TableBuilderError::DirCreateError(k)),
            PathStatus::Vacant => {
                let t = Table {
                    dir: dir.to_owned(),
                    store: Directory::new(),
                    content: StrMap::new(),
                    metadata,
                    is_modified: false,
                };
                proof {
                    assert(t@.records =~= Map::<Seq<char>, RecordModel<T>>::empty());
                    assert(t@ == TableModel::<T>::empty(dir@, metadata));
                }
                Ok(t)
            },
        }
    }

    /// Generate a [`TableBuilder`] to create or load a table.
    pub fn builder(dir: &str) -> (r: TableBuilder<T>)
        ensures
            r.metadata() == TableMetadata::spec_default(),
            r.dir() == dir@,
    {
        TableBuilder::new(dir)
    }

    /// Whether a mutable reference has been handed out, or some record
    /// has been pushed, popped or appended, since the last successful
    /// write-back (or since creation or loading).
    pub fn is_modified(&self) -> (r: bool)
        ensures
            r == self@.dirty,
    {
        self.is_modified
    }

    /// The number of records in the table.
    pub fn len(&self) -> (n: usize)
        requires
            self.wf(),
        ensures
            n == self@.records.dom().len(),
    {
        proof {
            self.content.lemma_dom_len();
            assert(self@.records.dom() =~= self.content@.dom());
        }
        self.content.len()
    }

    /// Whether the table holds no record.
    pub fn is_empty(&self) -> (r: bool)
        requires
            self.wf(),
        ensures
            r == (self@.records.dom().len() == 0),
    {
        self.len() == 0
    }

    /// Reject mutation without a write policy.
    fn mod_permissions(&self) -> (r: Result<(), TableError>)
        ensures
            r is Ok <==> self@.writable(),
            r matches Err(e) ==> e@ == ErrModel::NoWritePolicy,
    {
        match self.metadata.rw_policy {
            RWPolicy::Write(_) => Ok(()),
            RWPolicy::ReadOnly => Err(TableError::NoWritePolicyError),
        }
    }

    /// Whether the table was opened with the ability to modify the
    /// filesystem.
    pub fn has_mod_permissions(&self) -> (r: bool)
        ensures
            r == self@.writable(),
    {
        self.mod_permissions().is_ok()
    }

    /// Get an individual element of the table by key.
    pub fn get_element(&self, entry_name: &str) -> (r: Option<&TableElement<T>>)
        requires
            self.wf(),
        ensures
            match r {
                Some(e) => self@.records.dom().contains(entry_name@) && e@
                    == self@.records[entry_name@],
                None => !self@.records.dom().contains(entry_name@),
            },
    {
        proof {
            assert(self@.records.dom() =~= self.content@.dom());
        }
        self.content.get(entry_name)
    }

    /// The owned image of the table's directory as it stands now: what
    /// the backing files hold on disk, which may lag behind the record
    /// cache until the next write-back.
    pub fn directory(&self) -> (r: &Directory<T>)
        ensures
            r@ == self@.files,
            self.wf() ==> r.wf(),
    {
        &self.store
    }

    /// Append an element to the table, creating the backing file
    /// `<fname>.json` empty; the value reaches the file only at the next
    /// write-back.
    ///
    /// # Errors
    /// 1. The policy has no write permission.
    /// 2. A file of the backing name already exists in the directory.
    /// 3. An element with the same key is already in the table; the
    ///    freshly created file is deleted again, so neither the cache nor
    ///    the directory changes.
    pub fn push(&mut self, fname: &str, info_elem: T) -> (r: Result<(), TableError>)
        requires
            old(self).wf(),
        ensures
            final(self).wf(),
            final(self)@ == m_push(old(self)@, fname@, info_elem).0,
            res_model(r) == m_push(old(self)@, fname@, info_elem).1,
    {
        if let Err(e) = self.mod_permissions() {
            return Err(e);
        }
        let backing = json_name(fname);
        if self.store.contains_entry(backing.as_str()) {
            return Err(TableError::FileOpError(FileOpKind::AlreadyExists));
        }
        proof {
            assert(old(self)@.records.dom() =~= old(self).content@.dom());
        }
        if self.content.contains_key(fname) {
            return Err(TableError::PushError(fname.to_owned()));
        }
        self.store.put_entry(backing.as_str(), FsNode::File(FileContent::Opaque(String::new())));
        self.content.insert(
            fname.to_owned(),
            TableElement { backing, handle: true, info: info_elem },
        );
        self.is_modified = true;
        proof {
            lemma_json_name(fname@);
            let m2 = m_push(old(self)@, fname@, info_elem).0;
            assert(self@.records =~= m2.records);
            assert(self@.files =~= m2.files);
            assert(self@ == m2);
            assert forall|k: Seq<char>| #[trigger] self@.records.dom().contains(k) implies {
                let r = self@.records[k];
                &&& self@.files.dom().contains(r.backing)
                &&& self@.files[r.backing] is File
                &&& base_of(r.backing) == k
                &&& r.handle == self@.writable()
            } by {
                if k != fname@ {
                    assert(old(self)@.records.dom().contains(k));
                }
            }
        }
        Ok(())
    }

    /// Remove an element from the table and delete its backing file.
    ///
    /// # Errors
    /// 1. The policy has no write permission.
    /// 2. No element of that key exists; nothing changes.
    pub fn pop(&mut self, fname: &str) -> (r: Result<(), TableError>)
        requires
            old(self).wf(),
        ensures
            final(self).wf(),
            final(self)@ == m_pop(old(self)@, fname@).0,
            res_model(r) == m_pop(old(self)@, fname@).1,
    {
        if let Err(e) = self.mod_permissions() {
            return Err(e);
        }
        proof {
            assert(old(self)@.records.dom() =~= old(self).content@.dom());
        }
        match self.content.remove(fname) {
            None => Err(TableError::PopError(fname.to_owned())),
            Some(e) => {
                self.store.remove_entry(e.backing.as_str());
                self.is_modified = true;
                proof {
                    assert(e@ == old(self)@.records[fname@]);
                    let m2 = m_pop(old(self)@, fname@).0;
                    assert(self@.records =~= m2.records);
                    assert(self@ == m2);
                    assert forall|k: Seq<char>| #[trigger] self@.records.dom().contains(
                        k,
                    ) implies {
                        let r = self@.records[k];
                        &&& self@.files.dom().contains(r.backing)
                        &&& self@.files[r.backing] is File
                        &&& base_of(r.backing) == k
                        &&& r.handle == self@.writable()
                    } by {
                        assert(old(self)@.records.dom().contains(k));
                        assert(base_of(old(self)@.records[k].backing) == k);
                        assert(base_of(e@.backing) == fname@);
                    }
                }
                Ok(())
            },
        }
    }

    /// Exchange the value stored under `entry_name` with `*info`: the
    /// mutable access to a single element. The dirty flag is set whether
    /// or not the key is present — the engine cannot tell a mutable look
    /// from a change.
    pub fn swap_element(&mut self, entry_name: &str, info: &mut T) -> (found: bool)
        requires
            old(self).wf(),
        ensures
            final(self).wf(),
            final(self)@ == m_set(old(self)@, entry_name@, *old(info)).0,
            found == old(self)@.records.dom().contains(entry_name@),
            found ==> m_set(old(self)@, entry_name@, *old(info)).1 == Some(*final(info)),
            !found ==> *final(info) == *old(info),
    {
        proof {
            assert(old(self)@.records.dom() =~= old(self).content@.dom());
        }
        self.is_modified = true;
        match self.content.remove(entry_name) {
            None => {
                proof {
                    assert(self@.records =~= old(self)@.records);
                    assert(self@ == m_set(old(self)@, entry_name@, *old(info)).0);
                }
                false
            },
            Some(mut e) => {
                core::mem::swap(&mut e.info, info);
                self.content.insert(entry_name.to_owned(), e);
                proof {
                    let m2 = m_set(old(self)@, entry_name@, *old(info)).0;
                    assert(self@.records =~= m2.records);
                    assert(self@ == m2);
                    assert forall|k: Seq<char>| #[trigger] self@.records.dom().contains(
                        k,
                    ) implies {
                        let r = self@.records[k];
                        &&& self@.files.dom().contains(r.backing)
                        &&& self@.files[r.backing] is File
                        &&& base_of(r.backing) == k
                        &&& r.handle == self@.writable()
                    } by {
                        assert(old(self)@.records.dom().contains(k));
                    }
                }
                true
            },
        }
    }

    /// Do not delete outright: remove the element from the table, write
    /// its current value into a fresh file named `<alt>.json_soft_delete`
    /// (or `<fname>.json_soft_delete` when no alternative name is given),
    /// and delete the backing file. The soft-deleted copy is never
    /// re-scanned as an active record.
    ///
    /// # Errors
    /// 1. The policy has no write permission.
    /// 2. No element of that key exists.
    /// 3. The soft-delete file already exists.
    pub fn soft_pop(&mut self, fname: &str, alt_name: Option<&str>) -> (r: Result<(), TableError>)
        requires
            old(self).wf(),
        ensures
            ({
                let alt = match alt_name {
                    Some(a) => a@,
                    None => fname@,
                };
                &&& final(self).wf()
                &&& final(self)@ == m_soft_pop(old(self)@, fname@, alt).0
                &&& res_model(r) == m_soft_pop(old(self)@, fname@, alt).1
            }),
    {
        if let Err(e) = self.mod_permissions() {
            return Err(e);
        }
        let alt = match alt_name {
            Some(a) => a,
            None => fname,
        };
        let soft = soft_name(alt);
        proof {
            assert(old(self)@.records.dom() =~= old(self).content@.dom());
        }
        if !self.content.contains_key(fname) {
            return Err(TableError::PopError(fname.to_owned()));
        }
        if self.store.contains_entry(soft.as_str()) {
            return Err(TableError::FileOpError(FileOpKind::AlreadyExists));
        }
        match self.content.remove(fname) {
            Some(e) => {
                self.store.put_entry(soft.as_str(), FsNode::File(FileContent::Value(e.info)));
                self.store.remove_entry(e.backing.as_str());
                self.is_modified = true;
                proof {
                    assert(e@ == old(self)@.records[fname@]);
                    let m2 = m_soft_pop(old(self)@, fname@, alt@).0;
                    assert(self@.records =~= m2.records);
                    assert(self@.files =~= m2.files);
                    assert(self@ == m2);
                    assert forall|k: Seq<char>| #[trigger] self@.records.dom().contains(
                        k,
                    ) implies {
                        let r = self@.records[k];
                        &&& self@.files.dom().contains(r.backing)
                        &&& self@.files[r.backing] is File
                        &&& base_of(r.backing) == k
                        &&& r.handle == self@.writable()
                    } by {
                        assert(old(self)@.records.dom().contains(k));
                        assert(base_of(old(self)@.records[k].backing) == k);
                        assert(base_of(e@.backing) == fname@);
                        assert(!old(self)@.files.dom().contains(soft@));
                    }
                }
                Ok(())
            },
            None => {
                proof {
                    assert(false);
                }
                Err(TableError::PopError(fname.to_owned()))
            },
        }
    }
    /// Pop each of the given keys, in order, deleting the backing files.
    /// The first failure stops the batch and propagates, leaving the
    /// earlier pops committed.
    ///
    /// # Errors
    /// 1. The policy has no write permission.
    /// 2. Some key of the batch is absent.
    pub fn remove(&mut self, fnames: &[String]) -> (r: Result<(), TableError>)
        requires
            old(self).wf(),
        ensures
            final(self).wf(),
            ({
                let ks = fnames@.map_values(|s: String| s@);
                &&& final(self)@ == m_remove(old(self)@, ks).0
                &&& res_model(r) == m_remove(old(self)@, ks).1
            }),
    {
        let ghost ks = fnames@.map_values(|s: String| s@);
        let n = fnames.len();
        let mut i: usize = 0;
        while i < n
            invariant
                self.wf(),
                i <= n,
                n == fnames@.len(),
                ks == fnames@.map_values(|s: String| s@),
                ks.len() == n,
                m_remove_from(old(self)@, ks, 0) == m_remove_from(self@, ks, i as int),
            decreases n - i,
        {
            let ghost pre = self@;
            let r1 = self.pop(fnames[i].as_str());
            proof {
                assert(ks[i as int] == fnames@[i as int]@);
            }
            if let Err(e) = r1 {
                proof {
                    assert(m_remove_from(pre, ks, i as int) == (self@, Err::<(), ErrModel>(e@)));
                }
                return Err(e);
            }
            proof {
                assert(m_remove_from(pre, ks, i as int) == m_remove_from(
                    self@,
                    ks,
                    i as int + 1,
                ));
            }
            i = i + 1;
        }
        Ok(())
    }

    /// The names of the backing files' base names — the table's primary
    /// keys — in no particular order, as fresh strings.
    pub fn get_table_keys(&self) -> (r: Vec<String>)
        requires
            self.wf(),
        ensures
            r@.len() == self@.records.dom().len(),
            forall|i: int| 0 <= i < r@.len() ==> self@.records.dom().contains(#[trigger] r@[i]@),
            forall|i: int, j: int| 0 <= i < j < r@.len() ==> r@[i]@ != r@[j]@,
            forall|k: Seq<char>|
                #[trigger] self@.records.dom().contains(k) ==> exists|i: int|
                    0 <= i < r@.len() && r@[i]@ == k,
    {
        proof {
            self.content.lemma_positions();
            self.content.lemma_dom_len();
            assert(self@.records.dom() =~= self.content@.dom());
        }
        let r = self.content.keys();
        proof {
            let ks = self.content.kseq();
            assert(r@.map_values(|s: String| s@) == ks);
            assert forall|i: int| 0 <= i < r@.len() implies self@.records.dom().contains(
                #[trigger] r@[i]@,
            ) by {
                assert(r@[i]@ == ks[i]);
            }
            assert forall|i: int, j: int| 0 <= i < j < r@.len() implies r@[i]@ != r@[j]@ by {
                assert(r@[i]@ == ks[i] && r@[j]@ == ks[j]);
            }
            assert forall|k: Seq<char>|
                #[trigger] self@.records.dom().contains(k) implies exists|i: int|
                    0 <= i < r@.len() && r@[i]@ == k by {
                let i = choose|i: int| 0 <= i < ks.len() && ks[i] == k;
                assert(r@[i]@ == k);
            }
        }
        r
    }

    /// Key/element pairs for every record, in no particular order: each
    /// key as a fresh string beside a reference to its element.
    pub fn iter(&self) -> (r: Vec<(String, &TableElement<T>)>)
        requires
            self.wf(),
        ensures
            r@.len() == self@.records.dom().len(),
            forall|i: int|
                0 <= i < r@.len() ==> self@.records.dom().contains(#[trigger] r@[i].0@)
                    && r@[i].1@ == self@.records[r@[i].0@],
            forall|i: int, j: int| 0 <= i < j < r@.len() ==> r@[i].0@ != r@[j].0@,
            forall|k: Seq<char>|
                #[trigger] self@.records.dom().contains(k) ==> exists|i: int|
                    0 <= i < r@.len() && r@[i].0@ == k,
    {
        proof {
            self.content.lemma_positions();
            self.content.lemma_dom_len();
            assert(self@.records.dom() =~= self.content@.dom());
        }
        let ghost ks = self.content.kseq();
        let n = self.content.len();
        let mut r: Vec<(String, &TableElement<T>)> = Vec::new();
        let mut i: usize = 0;
        while i < n
            invariant
                self.wf(),
                i <= n,
                ks == self.content.kseq(),
                n == ks.len(),
                r@.len() == i,
                forall|j: int| 0 <= j < i ==> (#[trigger] r@[j].0)@ == ks[j],
                forall|j: int| 0 <= j < i ==> (#[trigger] r@[j].1)@ == self@.records[ks[j]],
            decreases n - i,
        {
            let key = self.content.key_at(i).clone();
            let elem = self.content.value_at(i);
            proof {
                self.content.lemma_positions();
                assert(self.content@[ks[i as int]] == self.content.vseq()[i as int]);
                assert(self@.records[ks[i as int]] == self.content@[ks[i as int]]@);
            }
            r.push((key, elem));
            i = i + 1;
        }
        proof {
            assert forall|i2: int| 0 <= i2 < r@.len() implies self@.records.dom().contains(
                #[trigger] r@[i2].0@,
            ) && r@[i2].1@ == self@.records[r@[i2].0@] by {
                assert(r@[i2].0@ == ks[i2]);
            }
            assert forall|k: Seq<char>|
                #[trigger] self@.records.dom().contains(k) implies exists|i2: int|
                    0 <= i2 < r@.len() && r@[i2].0@ == k by {
                let i2 = choose|i2: int| 0 <= i2 < ks.len() && ks[i2] == k;
                assert(r@[i2].0@ == k);
            }
        }
        r
    }

    /// References to every element of the table, in no particular order.
    pub fn get_table_content(&self) -> (r: Vec<&TableElement<T>>)
        requires
            self.wf(),
        ensures
            r@.len() == self@.records.dom().len(),
            exists|ks2: Seq<Seq<char>>|
                #![auto]
                {
                    &&& ks2.len() == r@.len()
                    &&& (forall|i: int, j: int| 0 <= i < j < ks2.len() ==> ks2[i] != ks2[j])
                    &&& (forall|i: int|
                        0 <= i < r@.len() ==> self@.records.dom().contains(#[trigger] ks2[i])
                            && r@[i]@ == self@.records[ks2[i]])
                },
            forall|k: Seq<char>|
                #[trigger] self@.records.dom().contains(k) ==> exists|i: int|
                    0 <= i < r@.len() && r@[i]@ == self@.records[k],
    {
        proof {
            self.content.lemma_positions();
            self.content.lemma_dom_len();
            assert(self@.records.dom() =~= self.content@.dom());
        }
        let ghost ks = self.content.kseq();
        let n = self.content.len();
        let mut r: Vec<&TableElement<T>> = Vec::new();
        let mut i: usize = 0;
        while i < n
            invariant
                self.wf(),
                i <= n,
                ks == self.content.kseq(),
                n == ks.len(),
                r@.len() == i,
                forall|j: int|
                    0 <= j < i ==> self@.records.dom().contains(ks[j]) && (#[trigger] r@[j])@
                        == self@.records[ks[j]],
            decreases n - i,
        {
            let elem = self.content.value_at(i);
            proof {
                self.content.lemma_positions();
                assert(self.content@[ks[i as int]] == self.content.vseq()[i as int]);
                assert(self@.records[ks[i as int]] == self.content@[ks[i as int]]@);
            }
            r.push(elem);
            i = i + 1;
        }
        proof {
            assert(ks.len() == r@.len() && (forall|i2: int, j2: int|
                0 <= i2 < j2 < ks.len() ==> ks[i2] != ks[j2]) && (forall|i2: int|
                0 <= i2 < r@.len() ==> self@.records.dom().contains(#[trigger] ks[i2]) && r@[i2]@
                    == self@.records[ks[i2]]));
            assert forall|k: Seq<char>|
                #[trigger] self@.records.dom().contains(k) implies exists|i2: int|
                    0 <= i2 < r@.len() && r@[i2]@ == self@.records[k] by {
                let i2 = choose|i2: int| 0 <= i2 < ks.len() && ks[i2] == k;
                assert(r@[i2]@ == self@.records[ks[i2]]);
            }
        }
        r
    }
}

impl<T: Clone> Table<T> {
    /// Give an element a new key: pop it under the old key and push its
    /// value under the new one. The two steps are not atomic: when the
    /// push fails — a file of the new backing name exists, say — the pop
    /// stands and the value is gone from both keys. That risk is part of
    /// the operation's contract, not smoothed over.
    ///
    /// # Errors
    /// 1. The policy has no write permission.
    /// 2. No element of the old key exists; nothing changes.
    /// 3. The push under the new key fails; the pop stands.
    pub fn rename(&mut self, old_name: &str, new_name: &str) -> (r: Result<(), TableError>)
        requires
            old(self).wf(),
        ensures
            final(self).wf(),
            final(self)@ == m_rename(old(self)@, old_name@, new_name@).0,
            res_model(r) == m_rename(old(self)@, old_name@, new_name@).1,
    {
        if let Err(e) = self.mod_permissions() {
            return Err(e);
        }
        proof {
            assert(old(self)@.records.dom() =~= old(self).content@.dom());
        }
        match self.content.remove(old_name) {
            None => Err(TableError::PopError(old_name.to_owned())),
            Some(e) => {
                self.store.remove_entry(e.backing.as_str());
                self.is_modified = true;
                proof {
                    assert(e@ == old(self)@.records[old_name@]);
                    let m1 = m_pop(old(self)@, old_name@).0;
                    assert(self@.records =~= m1.records);
                    assert(self@ == m1);
                    assert forall|k: Seq<char>| #[trigger] self@.records.dom().contains(
                        k,
                    ) implies {
                        let r = self@.records[k];
                        &&& self@.files.dom().contains(r.backing)
                        &&& self@.files[r.backing] is File
                        &&& base_of(r.backing) == k
                        &&& r.handle == self@.writable()
                    } by {
                        assert(old(self)@.records.dom().contains(k));
                        assert(base_of(old(self)@.records[k].backing) == k);
                        assert(base_of(e@.backing) == old_name@);
                    }
                }
                self.push(new_name, e.info)
            },
        }
    }

    /// Write every record's current value back into its backing file and
    /// clear the dirty flag; a no-op when nothing was modified. When a
    /// write fails partway on the host, some files are rewritten and
    /// others stale while the flag already reads clean — the flag is
    /// cleared on entering, exactly as documented.
    ///
    /// # Errors
    /// 1. The policy has no write permission.
    pub fn write_back(&mut self) -> (r: Result<(), TableError>)
        requires
            old(self).wf(),
        ensures
            final(self).wf(),
            res_model(r) == m_write_back(old(self)@).1,
            final(self)@.path == old(self)@.path,
            final(self)@.meta == old(self)@.meta,
            final(self)@.records == old(self)@.records,
            final(self)@.dirty == m_write_back(old(self)@).0.dirty,
            clone_exact::<T>() ==> final(self)@ == m_write_back(old(self)@).0,
            r is Ok && old(self)@.dirty ==> files_written_rel(
                old(self)@,
                final(self)@.files,
                clone_rel::<T>(),
            ),
            !(r is Ok && old(self)@.dirty) ==> final(self)@ == old(self)@,
    {
        if let Err(e) = self.mod_permissions() {
            return Err(e);
        }
        if !self.is_modified {
            return Ok(());
        }
        self.is_modified = false;
        let ghost m0 = old(self)@;
        proof {
            self.content.lemma_positions();
            assert(m0.records.dom() =~= old(self).content@.dom());
        }
        let n = self.content.len();
        let mut i: usize = 0;
        while i < n
            invariant
                old(self).wf(),
                m0 == old(self)@,
                m0.writable(),
                self.content == old(self).content,
                self.dir == old(self).dir,
                self.metadata == old(self).metadata,
                self.is_modified == false,
                self.store.wf(),
                n == self.content.kseq().len(),
                i <= n,
                self.store@.dom() == m0.files.dom(),
                forall|j: int|
                    0 <= j < i ==> {
                        let e = #[trigger] old(self).content.vseq()[j]@;
                        &&& self.store@.dom().contains(e.backing)
                        &&& is_decodable(self.store@[e.backing])
                        &&& vstd::pervasive::cloned::<T>(
                            e.value,
                            file_value(self.store@[e.backing]),
                        )
                    },
                forall|n2: Seq<char>|
                    #[trigger] m0.files.dom().contains(n2) && !(exists|j: int|
                        0 <= j < i && old(self).content.vseq()[j]@.backing == n2)
                        ==> self.store@[n2] == m0.files[n2],
            decreases n - i,
        {
            proof {
                self.content.lemma_positions();
                assert(m0.records.dom() =~= old(self).content@.dom());
                assert(m0.records[self.content.kseq()[i as int]] == self.content.vseq()[
                    i as int
                ]@);
            }
            let elem = self.content.value_at(i);
            let backing = elem.backing.clone();
            let w = elem.info.clone();
            let ghost prev_store = self.store@;
            self.store.put_entry(backing.as_str(), FsNode::File(FileContent::Value(w)));
            proof {
                let e_i = old(self).content.vseq()[i as int]@;
                assert(m0.files.dom().contains(e_i.backing));
                assert(self.store@.dom() =~= m0.files.dom());
                assert forall|j1: int, j2: int|
                    0 <= j1 < j2 < n implies old(self).content.vseq()[j1]@.backing != old(
                        self,
                    ).content.vseq()[j2]@.backing by {
                    assert(m0.records[old(self).content.kseq()[j1]] == old(self).content.vseq()[
                        j1
                    ]@);
                    assert(m0.records[old(self).content.kseq()[j2]] == old(self).content.vseq()[
                        j2
                    ]@);
                    assert(base_of(old(self).content.vseq()[j1]@.backing) == old(
                        self,
                    ).content.kseq()[j1]);
                    assert(base_of(old(self).content.vseq()[j2]@.backing) == old(
                        self,
                    ).content.kseq()[j2]);
                }
                assert forall|j: int| 0 <= j < i + 1 implies {
                    let e = #[trigger] old(self).content.vseq()[j]@;
                    &&& self.store@.dom().contains(e.backing)
                    &&& is_decodable(self.store@[e.backing])
                    &&& vstd::pervasive::cloned::<T>(e.value, file_value(self.store@[e.backing]))
                } by {
                    let e = old(self).content.vseq()[j]@;
                    if j < i {
                        assert(e.backing != e_i.backing);
                        assert(self.store@[e.backing] == prev_store[e.backing]);
                    } else {
                        assert(e == e_i);
                    }
                }
            }
            i = i + 1;
        }
        proof {
            self.content.lemma_positions();
            assert(m0.records.dom() =~= old(self).content@.dom());
            assert forall|n2: Seq<char>| #[trigger] m0.files.dom().contains(n2) implies {
                if m0.is_backing(n2) {
                    is_decodable(self.store@[n2]) && vstd::pervasive::cloned::<T>(
                        m0.records[base_of(n2)].value,
                        file_value(self.store@[n2]),
                    )
                } else {
                    self.store@[n2] == m0.files[n2]
                }
            } by {
                if m0.is_backing(n2) {
                    let k = base_of(n2);
                    let j = choose|j: int|
                        0 <= j < old(self).content.kseq().len() && old(self).content.kseq()[j]
                            == k;
                    assert(m0.records[k] == old(self).content.vseq()[j]@);
                    assert(old(self).content.vseq()[j]@.backing == n2);
                } else {
                    assert forall|j: int| 0 <= j < n implies old(self).content.vseq()[j]@.backing
                        != n2 by {
                        let kj = old(self).content.kseq()[j];
                        assert(m0.records[kj] == old(self).content.vseq()[j]@);
                        assert(base_of(old(self).content.vseq()[j]@.backing) == kj);
                    }
                }
            }
            assert(files_written_rel(m0, self@.files, clone_rel::<T>()));
            if clone_exact::<T>() {
                assert(self@.files =~= written_files(m0));
                assert(self@.records =~= m0.records);
            }
            assert(self@.records =~= m0.records);
        }
        Ok(())
    }

    /// Close the table, handing its directory image back: an
    /// automatic-write table performs one final write-back first; a
    /// manual-write or read-only table gives the image back as it
    /// stands, discarding unflushed changes. The embedding program calls
    /// this when the table's lifetime ends and must treat a failure as
    /// fatal — there is no recovery path once the table is gone.
    pub fn close(self) -> (r: (Directory<T>, Result<(), TableError>))
        requires
            self.wf(),
        ensures
            r.0.wf(),
            r.1 is Ok,
            res_model(r.1) == m_close(self@).1,
            clone_exact::<T>() ==> r.0@ == m_close(self@).0.files,
            self@.meta.rw_policy == RWPolicy::Write(WriteType::Automatic) && self@.dirty
                ==> files_written_rel(self@, r.0@, clone_rel::<T>()),
            !(self@.meta.rw_policy == RWPolicy::Write(WriteType::Automatic) && self@.dirty)
                ==> r.0@ == self@.files,
    {
        let mut t = self;
        let r = match t.metadata.rw_policy {
            RWPolicy::Write(WriteType::Automatic) => t.write_back(),
            _ => Ok(()),
        };
        let Table { store, .. } = t;
        (store, r)
    }

    /// Load an existing table from the image of its directory, read by
    /// the embedding program from `dir`. Every entry is classified under
    /// the extension policy; a qualifying file whose content decodes
    /// becomes one record, keyed by the file's base name; the content and
    /// extension policies say whether anything else skips the entry or
    /// fails the load. When several qualifying files share a base name,
    /// which of them backs the record is not specified — directory scan
    /// order is not part of the model. Neither is the choice among
    /// several offending entries of the one whose error surfaces.
    ///
    /// # Errors
    /// 1. A non-qualifying entry exists and the extension policy is
    ///    strict.
    /// 2. A qualifying file does not decode and the content policy
    ///    promotes decode failures.
    pub fn load(dir: &str, image: Directory<T>, metadata: Option<TableMetadata>) -> (r: Result<
        Table<T>,
        TableError,
    >)
        requires
            image.wf(),
        ensures
            ({
                let meta = match metadata {
                    Some(m) => m,
                    None => TableMetadata::spec_default(),
                };
                match r {
                    Ok(t) => {
                        &&& t.wf()
                        &&& t@.path == dir@
                        &&& t@.meta == meta
                        &&& !t@.dirty
                        &&& t@.files == image@
                        &&& load_must_succeed(image@, meta)
                        &&& records_loaded(image@, meta, t@.records, clone_rel::<T>())
                        &&& (clone_exact::<T>() ==> records_loaded(
                            image@,
                            meta,
                            t@.records,
                            eq_rel::<T>(),
                        ))
                    },
                    Err(e) => load_err_possible(image@, meta, e@),
                }
            }),
    {
        let meta = match metadata {
            Some(m) => m,
            None => TableMetadata::default(),
        };
        let writable = match meta.rw_policy {
            RWPolicy::Write(_) => true,
            RWPolicy::ReadOnly => false,
        };
        let mut content: StrMap<TableElement<T>> = StrMap::new();
        let ghost files = image@;
        proof {
            image.lemma_index();
        }
        let n = image.entry_count();
        let mut i: usize = 0;
        while i < n
            invariant
                image.wf(),
                files == image@,
                meta == (match metadata {
                    Some(m) => m,
                    None => TableMetadata::spec_default(),
                }),
                n == image.names().len(),
                i <= n,
                content.wf(),
                writable == (meta.rw_policy is Write),
                forall|j: int|
                    0 <= j < i ==> {
                        let nm = #[trigger] image.names()[j];
                        &&& (meta.extension_policy is OnlyJsonFiles ==> spec_qualifies(
                            nm,
                            files[nm],
                            meta.extension_policy,
                        ))
                        &&& (meta.content_policy is PromoteSerdeErrors && spec_qualifies(
                            nm,
                            files[nm],
                            meta.extension_policy,
                        ) ==> is_decodable(files[nm]))
                    },
                forall|k: Seq<char>|
                    #[trigger] content@.dom().contains(k) <==> exists|j: int|
                        0 <= j < i && spec_loadable(
                            #[trigger] image.names()[j],
                            files[image.names()[j]],
                            meta,
                        ) && base_of(image.names()[j]) == k,
                forall|k: Seq<char>| #[trigger] content@.dom().contains(k) ==> {
                    let e = content@[k]@;
                    &&& files.dom().contains(e.backing)
                    &&& spec_loadable(e.backing, files[e.backing], meta)
                    &&& base_of(e.backing) == k
                    &&& e.handle == writable
                    &&& vstd::pervasive::cloned::<T>(file_value(files[e.backing]), e.value)
                },
            decreases n - i,
        {
            let name = image.name_at(i);
            let ghost nm = image.names()[i as int];
            proof {
                image.lemma_index();
                assert(files.dom().contains(nm) && files[nm] == image.nodes()[i as int]);
            }
            match image.node_at(i) {
                FsNode::Subdir => {
                    if let ExtensionPolicy::OnlyJsonFiles = meta.extension_policy {
                        proof {
                            assert(files.dom().contains(nm) && !spec_qualifies(
                                nm,
                                files[nm],
                                meta.extension_policy,
                            ));
                        }
                        return Err(TableError::JsonError);
                    }
                },
                FsNode::File(c) => {
                    let qual = match meta.extension_policy {
                        ExtensionPolicy::OnlyJsonFiles | ExtensionPolicy::IgnoreNonJson => {
                            ext_is_json(name.as_str())
                        },
                        ExtensionPolicy::IgnoreExtensions => !ext_is_soft(name.as_str()),
                    };
                    proof {
                        assert(qual == spec_qualifies(nm, files[nm], meta.extension_policy));
                    }
                    if !qual {
                        if let ExtensionPolicy::OnlyJsonFiles = meta.extension_policy {
                            proof {
                                assert(files.dom().contains(nm) && !spec_qualifies(
                                    nm,
                                    files[nm],
                                    meta.extension_policy,
                                ));
                            }
                            return Err(TableError::JsonError);
                        }
                    } else {
                        match c {
                            FileContent::Value(v) => {
                                let info = v.clone();
                                let key = base_name(name.as_str());
                                let backing = name.clone();
                                content.insert(
                                    key,
                                    TableElement { backing, handle: writable, info },
                                );
                                proof {
                                    assert(spec_loadable(nm, files[nm], meta));
                                    assert forall|k: Seq<char>|
                                        #[trigger] content@.dom().contains(k) <==> exists|j: int|
                                            0 <= j < i + 1 && spec_loadable(
                                                #[trigger] image.names()[j],
                                                files[image.names()[j]],
                                                meta,
                                            ) && base_of(image.names()[j]) == k by {
                                        if content@.dom().contains(k) {
                                            if k == base_of(nm) {
                                                assert(spec_loadable(
                                                    image.names()[i as int],
                                                    files[image.names()[i as int]],
                                                    meta,
                                                ) && base_of(image.names()[i as int]) == k);
                                            }
                                        }
                                    }
                                }
                            },
                            FileContent::Opaque(_) => {
                                match meta.content_policy {
                                    ContentPolicy::IgnoreSerdeErrors => {},
                                    ContentPolicy::PromoteSerdeErrors => {
                                        proof {
                                            assert(files.dom().contains(nm) && spec_qualifies(
                                                nm,
                                                files[nm],
                                                meta.extension_policy,
                                            ) && !is_decodable(files[nm]));
                                        }
                                        return Err(TableError::SerdeError(name.clone()));
                                    },
                                }
                            },
                        }
                    }
                },
            }
            i = i + 1;
        }
        let t = Table {
            dir: dir.to_owned(),
            store: image,
            content,
            metadata: meta,
            is_modified: false,
        };
        proof {
            t.store.lemma_index();
            t.content.lemma_positions();
            assert(t@.records.dom() =~= t.content@.dom());
            assert forall|k: Seq<char>|
                #[trigger] t@.records.dom().contains(k) <==> exists|nm2: Seq<char>|
                    #[trigger] files.dom().contains(nm2) && spec_loadable(nm2, files[nm2], meta)
                        && base_of(nm2) == k by {
                if t@.records.dom().contains(k) {
                    let j = choose|j: int|
                        0 <= j < n && spec_loadable(
                            image.names()[j],
                            files[image.names()[j]],
                            meta,
                        ) && base_of(image.names()[j]) == k;
                    assert(files.dom().contains(image.names()[j]));
                }
                if exists|nm2: Seq<char>|
                    #[trigger] files.dom().contains(nm2) && spec_loadable(nm2, files[nm2], meta)
                        && base_of(nm2) == k {
                    let nm2 = choose|nm2: Seq<char>|
                        #[trigger] files.dom().contains(nm2) && spec_loadable(
                            nm2,
                            files[nm2],
                            meta,
                        ) && base_of(nm2) == k;
                    let j = choose|j: int| 0 <= j < n && image.names()[j] == nm2;
                    assert(spec_loadable(
                        image.names()[j],
                        files[image.names()[j]],
                        meta,
                    ) && base_of(image.names()[j]) == k);
                }
            }
            assert forall|k: Seq<char>| #[trigger] t@.records.dom().contains(k) implies {
                let r2 = t@.records[k];
                &&& files.dom().contains(r2.backing)
                &&& spec_loadable(r2.backing, files[r2.backing], meta)
                &&& base_of(r2.backing) == k
                &&& r2.handle == (meta.rw_policy is Write)
                &&& clone_rel::<T>()(file_value(files[r2.backing]), r2.value)
            } by {
                assert(t.content@.dom().contains(k));
                assert(t@.records[k] == t.content@[k]@);
                assert(vstd::pervasive::cloned::<T>(
                    file_value(files[t.content@[k]@.backing]),
                    t.content@[k]@.value,
                ));
            }
            assert(records_loaded(image@, meta, t@.records, clone_rel::<T>()));
            assert forall|k: Seq<char>| #[trigger] t@.records.dom().contains(k) implies {
                let r2 = t@.records[k];
                &&& t@.files.dom().contains(r2.backing)
                &&& t@.files[r2.backing] is File
                &&& base_of(r2.backing) == k
                &&& r2.handle == t@.writable()
            } by {
                assert(t@.records[k] == t.content@[k]@);
            }
            t.content.lemma_dom_len();
            assert(t.wf());
            if clone_exact::<T>() {
                assert forall|k: Seq<char>| #[trigger] t@.records.dom().contains(k) implies eq_rel::<
                    T,
                >()(file_value(files[t@.records[k].backing]), t@.records[k].value) by {
                    assert(vstd::pervasive::cloned::<T>(
                        file_value(files[t@.records[k].backing]),
                        t@.records[k].value,
                    ));
                }
                assert(records_loaded(image@, meta, t@.records, eq_rel::<T>()));
            }
            assert forall|nm2: Seq<char>| #[trigger] files.dom().contains(nm2) implies {
                &&& (meta.extension_policy is OnlyJsonFiles ==> spec_qualifies(
                    nm2,
                    files[nm2],
                    meta.extension_policy,
                ))
                &&& (meta.content_policy is PromoteSerdeErrors && spec_qualifies(
                    nm2,
                    files[nm2],
                    meta.extension_policy,
                ) ==> is_decodable(files[nm2]))
            } by {
                let j = choose|j: int| 0 <= j < n && image.names()[j] == nm2;
                assert(image.names()[j] == nm2);
            }
        }
        Ok(t)
    }

    /// Append an array of items when they are `Clone` but not `Copy`:
    /// push a clone of each element under the matching name, in order.
    /// When the k-th push fails the earlier ones stay committed — there
    /// is no batch rollback.
    ///
    /// # Errors
    /// 1. The two slices have different lengths; nothing changes.
    /// 2. Whatever an individual push surfaces.
    pub fn append_clone(&mut self, fnames: &[String], elements: &[T]) -> (r: Result<
        (),
        TableError,
    >)
        requires
            old(self).wf(),
        ensures
            final(self).wf(),
            fnames@.len() != elements@.len() ==> final(self)@ == old(self)@ && res_model(r)
                == Err::<(), ErrModel>(ErrModel::AppendLength),
            fnames@.len() == elements@.len() ==> ({
                let ks = fnames@.map_values(|s: String| s@);
                exists|vs2: Seq<T>|
                    {
                        &&& vs2.len() == elements@.len()
                        &&& (forall|j: int|
                            0 <= j < vs2.len() ==> vstd::pervasive::cloned::<T>(
                                elements@[j],
                                #[trigger] vs2[j],
                            ))
                        &&& final(self)@ == #[trigger] m_append(old(self)@, ks, vs2).0
                        &&& res_model(r) == m_append(old(self)@, ks, vs2).1
                    }
            }),
            clone_exact::<T>() ==> final(self)@ == m_append(
                old(self)@,
                fnames@.map_values(|s: String| s@),
                elements@,
            ).0 && res_model(r) == m_append(
                old(self)@,
                fnames@.map_values(|s: String| s@),
                elements@,
            ).1,
    {
        let ghost ks = fnames@.map_values(|s: String| s@);
        if elements.len() != fnames.len() {
            return Err(TableError::AppendLengthError);
        }
        let n = fnames.len();
        let mut copies: Vec<T> = Vec::new();
        let mut i: usize = 0;
        while i < n
            invariant
                i <= n,
                n == elements@.len(),
                copies@.len() == i,
                forall|j: int|
                    0 <= j < i ==> vstd::pervasive::cloned::<T>(
                        elements@[j],
                        #[trigger] copies@[j],
                    ),
            decreases n - i,
        {
            copies.push(elements[i].clone());
            i = i + 1;
        }
        let ghost vs2 = copies@;
        proof {
            if clone_exact::<T>() {
                assert forall|j: int| 0 <= j < n implies elements@[j] == #[trigger] vs2[j] by {
                    assert(vstd::pervasive::cloned::<T>(elements@[j], copies@[j]));
                }
                assert(vs2 =~= elements@);
            }
        }
        let r = self.append_moving(fnames, copies);
        proof {
            assert(self@ == m_append(old(self)@, ks, vs2).0);
            assert(res_model(r) == m_append(old(self)@, ks, vs2).1);
        }
        r
    }

    /// Push each element of `values` under the matching name, in order,
    /// consuming the vector. The first failure stops the batch.
    fn append_moving(&mut self, fnames: &[String], values: Vec<T>) -> (r: Result<(), TableError>)
        requires
            old(self).wf(),
            fnames@.len() == values@.len(),
        ensures
            final(self).wf(),
            ({
                let ks = fnames@.map_values(|s: String| s@);
                &&& final(self)@ == m_append_from(old(self)@, ks, values@, 0).0
                &&& res_model(r) == m_append_from(old(self)@, ks, values@, 0).1
            }),
    {
        let ghost ks = fnames@.map_values(|s: String| s@);
        let ghost vs = values@;
        let mut rest = values;
        let n = fnames.len();
        let mut i: usize = 0;
        while i < n
            invariant
                self.wf(),
                i <= n,
                n == fnames@.len() == vs.len(),
                vs == values@,
                ks == fnames@.map_values(|s: String| s@),
                ks.len() == n,
                rest@ == vs.skip(i as int),
                m_append_from(old(self)@, ks, vs, 0) == m_append_from(self@, ks, vs, i as int),
            decreases n - i,
        {
            let v = rest.remove(0);
            proof {
                assert(v == vs[i as int]);
                assert(rest@ =~= vs.skip(i as int + 1));
            }
            let ghost pre = self@;
            let r1 = self.push(fnames[i].as_str(), v);
            proof {
                assert(ks[i as int] == fnames@[i as int]@);
            }
            if let Err(e) = r1 {
                proof {
                    assert(m_append_from(pre, ks, vs, i as int) == (self@, Err::<(), ErrModel>(
                        e@,
                    )));
                }
                return Err(e);
            }
            proof {
                assert(m_append_from(pre, ks, vs, i as int) == m_append_from(
                    self@,
                    ks,
                    vs,
                    i as int + 1,
                ));
            }
            i = i + 1;
        }
        Ok(())
    }
}

impl<T: Copy> Table<T> {
    /// Append an array of items when they are `Copy`: push each element
    /// under the matching name, in order. When the k-th push fails the
    /// earlier ones stay committed — there is no batch rollback.
    ///
    /// # Errors
    /// 1. The two slices have different lengths; nothing changes.
    /// 2. Whatever an individual push surfaces.
    pub fn append(&mut self, fnames: &[String], elements: &[T]) -> (r: Result<(), TableError>)
        requires
            old(self).wf(),
        ensures
            final(self).wf(),
            ({
                let ks = fnames@.map_values(|s: String| s@);
                &&& final(self)@ == m_append(old(self)@, ks, elements@).0
                &&& res_model(r) == m_append(old(self)@, ks, elements@).1
            }),
    {
        let ghost ks = fnames@.map_values(|s: String| s@);
        if elements.len() != fnames.len() {
            return Err(TableError::AppendLengthError);
        }
        let ghost vs = elements@;
        let n = fnames.len();
        let mut i: usize = 0;
        while i < n
            invariant
                self.wf(),
                i <= n,
                n == fnames@.len() == vs.len(),
                vs == elements@,
                ks == fnames@.map_values(|s: String| s@),
                ks.len() == n,
                m_append_from(old(self)@, ks, vs, 0) == m_append_from(self@, ks, vs, i as int),
            decreases n - i,
        {
            let v = elements[i];
            let ghost pre = self@;
            let r1 = self.push(fnames[i].as_str(), v);
            proof {
                assert(ks[i as int] == fnames@[i as int]@);
            }
            if let Err(e) = r1 {
                proof {
                    assert(m_append_from(pre, ks, vs, i as int) == (self@, Err::<(), ErrModel>(
                        e@,
                    )));
                }
                return Err(e);
            }
            proof {
                assert(m_append_from(pre, ks, vs, i as int) == m_append_from(
                    self@,
                    ks,
                    vs,
                    i as int + 1,
                ));
            }
            i = i + 1;
        }
        Ok(())
    }
}

} // verus!

//! The mathematical model of a table, and the transition each engine
//! operation performs on it. Every executable operation's contract is
//! stated over these; the laws in [`crate::laws`] are proved from them
//! alone.

use vstd::prelude::*;
use crate::aux::{ContentPolicy, ExtensionPolicy, RWPolicy, TableMetadata, WriteType};
use crate::fsdir::{ContentModel, NodeModel};
use crate::names::{base_of, ext_of, json_ext, json_suffix, soft_ext, soft_suffix};
use crate::table_error::{ErrModel, FileOpKind};

verus! {

/// The mathematical image of one record: the name of its backing file,
/// whether a live handle to that file is held, and the in-memory value.
pub ghost struct RecordModel<T> {
    /// The name of the backing file inside the table's directory.
    pub backing: Seq<char>,
    /// Whether the engine holds a live handle to the backing file.
    pub handle: bool,
    /// The in-memory value.
    pub value: T,
}

/// The mathematical image of a whole table: the directory path, the
/// directory image, the record cache, the policy bundle and the dirty
/// flag.
pub ghost struct TableModel<T> {
    /// The path of the table's directory on the host.
    pub path: Seq<char>,
    /// The directory image: entry name to entry.
    pub files: Map<Seq<char>, NodeModel<T>>,
    /// The record cache: key to record.
    pub records: Map<Seq<char>, RecordModel<T>>,
    /// The policy bundle, immutable once the table exists.
    pub meta: TableMetadata,
    /// Whether some in-memory value may be ahead of its backing file.
    pub dirty: bool,
}

impl<T> TableModel<T> {
    /// Whether the policy allows mutation.
    pub open spec fn writable(self) -> bool {
        self.meta.rw_policy is Write
    }

    /// Structural soundness: both mappings are finite; every record's
    /// backing file exists in the directory, is a regular file, and has
    /// the record's key as its base name; and a record holds a live
    /// handle exactly when the policy is a write policy.
    pub open spec fn wf(self) -> bool {
        &&& self.files.dom().finite()
        &&& self.records.dom().finite()
        &&& forall|k: Seq<char>| #[trigger] self.records.dom().contains(k) ==> {
            let r = self.records[k];
            &&& self.files.dom().contains(r.backing)
            &&& self.files[r.backing] is File
            &&& base_of(r.backing) == k
            &&& r.handle == self.writable()
        }
    }

    /// The empty table a successful creation returns.
    pub open spec fn empty(path: Seq<char>, meta: TableMetadata) -> TableModel<T> {
        TableModel {
            path,
            files: Map::empty(),
            records: Map::empty(),
            meta,
            dirty: false,
        }
    }

    /// Whether the directory entry named `n` backs a record.
    pub open spec fn is_backing(self, n: Seq<char>) -> bool {
        self.records.dom().contains(base_of(n)) && self.records[base_of(n)].backing == n
    }
}

/// The value a decodable file holds.
pub open spec fn file_value<T>(node: NodeModel<T>) -> T
    recommends
        node matches NodeModel::File(ContentModel::Value(_)),
{
    node->File_0->Value_0
}

/// Whether a file's content decodes to a stored value.
pub open spec fn is_decodable<T>(node: NodeModel<T>) -> bool {
    node matches NodeModel::File(ContentModel::Value(_))
}

/// Whether the entry named `n` qualifies for loading under the extension
/// policy `pol`: it must be a regular file, and its name must carry the
/// `json` extension — unless extensions are ignored entirely, in which
/// case only soft-deleted files are left out.
pub open spec fn spec_qualifies<T>(n: Seq<char>, node: NodeModel<T>, pol: ExtensionPolicy) -> bool {
    &&& node is File
    &&& match pol {
        ExtensionPolicy::OnlyJsonFiles | ExtensionPolicy::IgnoreNonJson => ext_of(n) == Some(
            json_ext(),
        ),
        ExtensionPolicy::IgnoreExtensions => ext_of(n) != Some(soft_ext()),
    }
}

/// Whether the entry named `n` yields a record when loaded under `meta`:
/// it qualifies and its content decodes.
pub open spec fn spec_loadable<T>(n: Seq<char>, node: NodeModel<T>, meta: TableMetadata) -> bool {
    spec_qualifies(n, node, meta.extension_policy) && is_decodable(node)
}

/// Whether a load of `files` under `meta` cannot fail: under the strict
/// extension policy every entry qualifies, and under the strict content
/// policy every qualifying entry decodes.
pub open spec fn load_must_succeed<T>(
    files: Map<Seq<char>, NodeModel<T>>,
    meta: TableMetadata,
) -> bool {
    &&& meta.extension_policy is OnlyJsonFiles ==> forall|n: Seq<char>|
        #[trigger] files.dom().contains(n) ==> spec_qualifies(n, files[n], meta.extension_policy)
    &&& meta.content_policy is PromoteSerdeErrors ==> forall|n: Seq<char>|
        #[trigger] files.dom().contains(n) && spec_qualifies(n, files[n], meta.extension_policy)
            ==> is_decodable(files[n])
}

/// Whether a load of `files` under `meta` may surface the error `e`.
/// Which of several offending entries is reported is not specified: the
/// scan order of a directory is not part of the model.
pub open spec fn load_err_possible<T>(
    files: Map<Seq<char>, NodeModel<T>>,
    meta: TableMetadata,
    e: ErrModel,
) -> bool {
    ||| {
        &&& e is Json
        &&& meta.extension_policy is OnlyJsonFiles
        &&& exists|n: Seq<char>| #[trigger] files.dom().contains(n) && !spec_qualifies(
            n,
            files[n],
            meta.extension_policy,
        )
    }
    ||| {
        &&& e matches ErrModel::Serde(n)
        &&& meta.content_policy is PromoteSerdeErrors
        &&& files.dom().contains(n)
        &&& spec_qualifies(n, files[n], meta.extension_policy)
        &&& !is_decodable(files[n])
    }
}

/// How a record cache `recs` relates to the directory `files` it was
/// loaded from: the keys are exactly the base names of the loadable
/// entries; each record is backed by a loadable entry whose base name is
/// its key; each record's value relates to that entry's decoded value by
/// `rel`; and handles follow the policy.
pub open spec fn records_loaded<T>(
    files: Map<Seq<char>, NodeModel<T>>,
    meta: TableMetadata,
    recs: Map<Seq<char>, RecordModel<T>>,
    rel: spec_fn(T, T) -> bool,
) -> bool {
    &&& forall|k: Seq<char>|
        #[trigger] recs.dom().contains(k) <==> exists|n: Seq<char>|
            #[trigger] files.dom().contains(n) && spec_loadable(n, files[n], meta) && base_of(n)
                == k
    &&& forall|k: Seq<char>| #[trigger] recs.dom().contains(k) ==> {
        let r = recs[k];
        &&& files.dom().contains(r.backing)
        &&& spec_loadable(r.backing, files[r.backing], meta)
        &&& base_of(r.backing) == k
        &&& r.handle == (meta.rw_policy is Write)
        &&& rel(file_value(files[r.backing]), r.value)
    }
}

/// Two values stand in the cloning relation when the second is a
/// possible result of cloning the first.
pub open spec fn clone_rel<T: Clone>() -> spec_fn(T, T) -> bool {
    |a: T, b: T| vstd::pervasive::cloned::<T>(a, b)
}

/// Plain equality of two values.
pub open spec fn eq_rel<T>() -> spec_fn(T, T) -> bool {
    |a: T, b: T| a == b
}

/// Whether every possible result of cloning a value of `T` is equal to
/// it. This holds of every type whose `clone` promises to return its
/// input, such as the integer and character types.
pub open spec fn clone_exact<T: Clone>() -> bool {
    forall|a: T, b: T| vstd::pervasive::cloned::<T>(a, b) ==> b == a
}

/// The transition of `push(k, v)`: reject without write permission; fail
/// when the backing file's name is taken on disk; fail, changing
/// nothing, when the key is already present; otherwise create the (still
/// empty, hence opaque) backing file and insert the record.
pub open spec fn m_push<T>(m: TableModel<T>, k: Seq<char>, v: T) -> (TableModel<T>, Result<
    (),
    ErrModel,
>) {
    if !m.writable() {
        (m, Err(ErrModel::NoWritePolicy))
    } else if m.files.dom().contains(k + json_suffix()) {
        (m, Err(ErrModel::FileOp(FileOpKind::AlreadyExists)))
    } else if m.records.dom().contains(k) {
        (m, Err(ErrModel::Push(k)))
    } else {
        (
            TableModel {
                files: m.files.insert(
                    k + json_suffix(),
                    NodeModel::File(ContentModel::Opaque(Seq::empty())),
                ),
                records: m.records.insert(
                    k,
                    RecordModel { backing: k + json_suffix(), handle: true, value: v },
                ),
                dirty: true,
                ..m
            },
            Ok(()),
        )
    }
}

/// The transition of `pop(k)`: reject without write permission; fail,
/// changing nothing, when the key is absent; otherwise remove the record
/// and delete its backing file.
pub open spec fn m_pop<T>(m: TableModel<T>, k: Seq<char>) -> (TableModel<T>, Result<
    (),
    ErrModel,
>) {
    if !m.writable() {
        (m, Err(ErrModel::NoWritePolicy))
    } else if !m.records.dom().contains(k) {
        (m, Err(ErrModel::Pop(k)))
    } else {
        (
            TableModel {
                files: m.files.remove(m.records[k].backing),
                records: m.records.remove(k),
                dirty: true,
                ..m
            },
            Ok(()),
        )
    }
}

/// The transition of `soft_pop(k, alt)`: reject without write
/// permission; fail, changing nothing, when the key is absent or the
/// soft-delete file's name is taken; otherwise write the record's
/// current value into a fresh soft-delete file and then pop the record.
pub open spec fn m_soft_pop<T>(m: TableModel<T>, k: Seq<char>, alt: Seq<char>) -> (TableModel<T>, Result<
    (),
    ErrModel,
>) {
    if !m.writable() {
        (m, Err(ErrModel::NoWritePolicy))
    } else if !m.records.dom().contains(k) {
        (m, Err(ErrModel::Pop(k)))
    } else if m.files.dom().contains(alt + soft_suffix()) {
        (m, Err(ErrModel::FileOp(FileOpKind::AlreadyExists)))
    } else {
        let r = m.records[k];
        (
            TableModel {
                files: m.files.insert(
                    alt + soft_suffix(),
                    NodeModel::File(ContentModel::Value(r.value)),
                ).remove(r.backing),
                records: m.records.remove(k),
                dirty: true,
                ..m
            },
            Ok(()),
        )
    }
}

/// The transition of `rename(old, new)`: reject without write
/// permission; fail, changing nothing, when the old key is absent;
/// otherwise pop the old record and push its value under the new key.
/// The two steps are not atomic: when the push fails the pop stands and
/// the value is gone from both keys.
pub open spec fn m_rename<T>(m: TableModel<T>, old_k: Seq<char>, new_k: Seq<char>) -> (TableModel<
    T,
>, Result<(), ErrModel>) {
    if !m.writable() {
        (m, Err(ErrModel::NoWritePolicy))
    } else if !m.records.dom().contains(old_k) {
        (m, Err(ErrModel::Pop(old_k)))
    } else {
        let v = m.records[old_k].value;
        let (m1, _) = m_pop(m, old_k);
        m_push(m1, new_k, v)
    }
}

/// The directory after a write-back: every backing file holds its
/// record's current value; every other entry is untouched.
pub open spec fn written_files<T>(m: TableModel<T>) -> Map<Seq<char>, NodeModel<T>> {
    Map::new(
        |n: Seq<char>| m.files.dom().contains(n),
        |n: Seq<char>|
            if m.is_backing(n) {
                NodeModel::File(ContentModel::Value(m.records[base_of(n)].value))
            } else {
                m.files[n]
            },
    )
}

/// How a directory `files2` relates to the table `m` it was written back
/// from: the same entries; every backing file decodable, holding a value
/// that relates to its record's by `rel`; every other entry untouched.
pub open spec fn files_written_rel<T>(
    m: TableModel<T>,
    files2: Map<Seq<char>, NodeModel<T>>,
    rel: spec_fn(T, T) -> bool,
) -> bool {
    &&& files2.dom() == m.files.dom()
    &&& forall|n: Seq<char>| #[trigger] m.files.dom().contains(n) ==> if m.is_backing(n) {
        is_decodable(files2[n]) && rel(m.records[base_of(n)].value, file_value(files2[n]))
    } else {
        files2[n] == m.files[n]
    }
}

/// The transition of `write_back()`: reject without write permission; do
/// nothing when the table is not dirty; otherwise re-encode every record
/// into its backing file and clear the dirty flag.
pub open spec fn m_write_back<T>(m: TableModel<T>) -> (TableModel<T>, Result<(), ErrModel>) {
    if !m.writable() {
        (m, Err(ErrModel::NoWritePolicy))
    } else if !m.dirty {
        (m, Ok(()))
    } else {
        (TableModel { files: written_files(m), dirty: false, ..m }, Ok(()))
    }
}

/// The transition of closing a table: an automatic-write table performs
/// one final write-back; a manual or read-only table does nothing.
pub open spec fn m_close<T>(m: TableModel<T>) -> (TableModel<T>, Result<(), ErrModel>) {
    if m.meta.rw_policy == RWPolicy::Write(WriteType::Automatic) {
        m_write_back(m)
    } else {
        (m, Ok(()))
    }
}

/// The transition of a mutable access to the value under `k`: the dirty
/// flag is set whether or not the key is present; when it is, the stored
/// value is replaced by `v` and the old value handed out.
pub open spec fn m_set<T>(m: TableModel<T>, k: Seq<char>, v: T) -> (TableModel<T>, Option<T>) {
    if m.records.dom().contains(k) {
        (
            TableModel {
                records: m.records.insert(k, RecordModel { value: v, ..m.records[k] }),
                dirty: true,
                ..m
            },
            Some(m.records[k].value),
        )
    } else {
        (TableModel { dirty: true, ..m }, None)
    }
}

/// The transition of appending pairs from position `i` on: push each in
/// order; the first failure stops the batch, leaving the earlier pushes
/// committed.
pub open spec fn m_append_from<T>(m: TableModel<T>, ks: Seq<Seq<char>>, vs: Seq<T>, i: int) -> (
    TableModel<T>,
    Result<(), ErrModel>,
)
    decreases ks.len() - i,
{
    if i < 0 || i >= ks.len() || ks.len() != vs.len() {
        (m, Ok(()))
    } else {
        let (m1, r1) = m_push(m, ks[i], vs[i]);
        match r1 {
            Ok(_) => m_append_from(m1, ks, vs, i + 1),
            Err(e) => (m1, Err(e)),
        }
    }
}

/// The transition of `append(ks, vs)`: reject, changing nothing, when
/// the lengths differ; otherwise push the pairs in order.
pub open spec fn m_append<T>(m: TableModel<T>, ks: Seq<Seq<char>>, vs: Seq<T>) -> (TableModel<T>, Result<
    (),
    ErrModel,
>) {
    if ks.len() != vs.len() {
        (m, Err(ErrModel::AppendLength))
    } else {
        m_append_from(m, ks, vs, 0)
    }
}

/// The transition of removing the keys from position `i` on: pop each in
/// order; the first failure stops the batch, leaving the earlier pops
/// committed.
pub open spec fn m_remove_from<T>(m: TableModel<T>, ks: Seq<Seq<char>>, i: int) -> (
    TableModel<T>,
    Result<(), ErrModel>,
)
    decreases ks.len() - i,
{
    if i < 0 || i >= ks.len() {
        (m, Ok(()))
    } else {
        let (m1, r1) = m_pop(m, ks[i]);
        match r1 {
            Ok(_) => m_remove_from(m1, ks, i + 1),
            Err(e) => (m1, Err(e)),
        }
    }
}

/// The transition of `remove(ks)`: pop the keys in order.
pub open spec fn m_remove<T>(m: TableModel<T>, ks: Seq<Seq<char>>) -> (TableModel<T>, Result<
    (),
    ErrModel,
>) {
    m_remove_from(m, ks, 0)
}

} // verus!

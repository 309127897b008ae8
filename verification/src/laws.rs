//! The laws of the engine: what holds of every table across several
//! operations, proved once and for all over the model transitions that
//! the executable operations' contracts are stated with.

use vstd::prelude::*;
use crate::aux::TableMetadata;
use crate::fsdir::{ContentModel, NodeModel};
use crate::model::{
    eq_rel, file_value, is_decodable, load_must_succeed, m_append, m_append_from, m_pop, m_push,
    m_remove, m_remove_from, m_rename, m_set, m_soft_pop, m_write_back, records_loaded,
    spec_loadable, written_files, TableModel,
};
use crate::names::{
    base_of, ext_of, json_ext, json_suffix, lemma_json_name, lemma_name_determined,
    lemma_soft_name, soft_suffix,
};
use crate::table_error::ErrModel;

verus! {

/// Every file of the table's directory backs a record: nothing but the
/// records' backing files lies in it.
pub open spec fn fully_backed<T>(m: TableModel<T>) -> bool {
    forall|n: Seq<char>| #[trigger] m.files.dom().contains(n) ==> m.is_backing(n)
}

/// Every file of the table's directory decodes to a stored value.
pub open spec fn all_decodable<T>(m: TableModel<T>) -> bool {
    forall|n: Seq<char>| #[trigger] m.files.dom().contains(n) ==> is_decodable(m.files[n])
}

/// Round trip: on a well-formed writable table whose directory holds
/// nothing but its records' files, pushing a value under a fresh key,
/// writing back and loading the resulting directory again — under a
/// policy that matches extensions — must succeed and yield exactly the
/// pushed value under that key.
pub proof fn lemma_round_trip<T>(m: TableModel<T>, k: Seq<char>, v: T, meta2: TableMetadata)
    requires
        m.wf(),
        fully_backed(m),
        m.writable(),
        !m.records.dom().contains(k),
        !m.files.dom().contains(k + json_suffix()),
        meta2.extension_policy is IgnoreNonJson,
    ensures
        ({
            let (m1, r1) = m_push(m, k, v);
            &&& r1 is Ok
            &&& {
                let (m2, r2) = m_write_back(m1);
                &&& r2 is Ok
                &&& load_must_succeed(m2.files, meta2)
                &&& forall|recs: Map<Seq<char>, crate::model::RecordModel<T>>|
                    records_loaded(m2.files, meta2, recs, eq_rel::<T>())
                        ==> #[trigger] recs.dom().contains(k) && recs[k].value == v
            }
        }),
{
    lemma_json_name(k);
    let jn = k + json_suffix();
    let (m1, r1) = m_push(m, k, v);
    assert(r1 is Ok);
    assert(m1.records[k].backing == jn && m1.records[k].value == v);
    assert(m1.dirty && m1.writable());
    let (m2, r2) = m_write_back(m1);
    assert(r2 is Ok);
    assert(m2.files == written_files(m1));
    assert(m1.is_backing(jn));
    assert(m2.files.dom() =~= m1.files.dom());
    assert(m2.files[jn] == NodeModel::<T>::File(ContentModel::Value(v)));
    // every file of the written directory decodes
    assert forall|n: Seq<char>| #[trigger] m2.files.dom().contains(n) implies is_decodable(
        m2.files[n],
    ) by {
        if n != jn {
            assert(m.files.dom().contains(n));
            assert(m.is_backing(n));
            assert(m1.records.dom().contains(base_of(n)) && m1.records[base_of(n)].backing == n);
            assert(m1.is_backing(n));
        }
    }
    assert(load_must_succeed(m2.files, meta2));
    assert forall|recs: Map<Seq<char>, crate::model::RecordModel<T>>|
        records_loaded(m2.files, meta2, recs, eq_rel::<T>()) implies #[trigger] recs.dom().contains(
        k,
    ) && recs[k].value == v by {
        assert(spec_loadable(jn, m2.files[jn], meta2));
        assert(base_of(jn) == k);
        assert(recs.dom().contains(k));
        let b = recs[k].backing;
        assert(m2.files.dom().contains(b) && spec_loadable(b, m2.files[b], meta2) && base_of(b)
            == k);
        assert(ext_of(b) == Some(json_ext()));
        lemma_name_determined(b, jn);
        assert(eq_rel::<T>()(file_value(m2.files[jn]), recs[k].value));
        assert(file_value(m2.files[jn]) == v);
    }
}

/// Push atomicity: pushing onto a key that is already present, or whose
/// backing file already exists, leaves the whole table — record cache
/// and directory image alike — unchanged; the error is the only
/// observable effect.
pub proof fn lemma_push_existing<T>(m: TableModel<T>, k: Seq<char>, v: T)
    requires
        m.writable(),
        m.records.dom().contains(k) || m.files.dom().contains(k + json_suffix()),
    ensures
        m_push(m, k, v).0 == m,
        m_push(m, k, v).1 is Err,
{
}

/// Pop on a missing key: on a writable table, popping an absent key
/// reports exactly the missing key and changes nothing.
pub proof fn lemma_pop_missing<T>(m: TableModel<T>, k: Seq<char>)
    requires
        m.writable(),
        !m.records.dom().contains(k),
    ensures
        m_pop(m, k).0 == m,
        m_pop(m, k).1 == Err::<(), ErrModel>(ErrModel::Pop(k)),
{
}

/// No batched append clears the dirty flag.
proof fn lemma_append_from_dirty<T>(m: TableModel<T>, ks: Seq<Seq<char>>, vs: Seq<T>, i: int)
    requires
        m.dirty,
    ensures
        m_append_from(m, ks, vs, i).0.dirty,
    decreases ks.len() - i,
{
    if 0 <= i < ks.len() && ks.len() == vs.len() {
        let (m1, r1) = m_push(m, ks[i], vs[i]);
        if r1 is Ok {
            lemma_append_from_dirty(m1, ks, vs, i + 1);
        }
    }
}

/// No batched removal clears the dirty flag.
proof fn lemma_remove_from_dirty<T>(m: TableModel<T>, ks: Seq<Seq<char>>, i: int)
    requires
        m.dirty,
    ensures
        m_remove_from(m, ks, i).0.dirty,
    decreases ks.len() - i,
{
    if 0 <= i < ks.len() {
        let (m1, r1) = m_pop(m, ks[i]);
        if r1 is Ok {
            lemma_remove_from_dirty(m1, ks, i + 1);
        }
    }
}

/// Dirty monotonicity: the flag is set by every successful mutation and
/// by every mutable access; no operation but a successful write-back
/// ever clears it — once dirty, a table stays dirty through every push,
/// pop, soft delete, rename, append and removal, successful or not.
pub proof fn lemma_dirty_monotone<T>(
    m: TableModel<T>,
    k: Seq<char>,
    k2: Seq<char>,
    v: T,
    ks: Seq<Seq<char>>,
    vs: Seq<T>,
)
    ensures
        m_push(m, k, v).1 is Ok ==> m_push(m, k, v).0.dirty,
        m_pop(m, k).1 is Ok ==> m_pop(m, k).0.dirty,
        m_soft_pop(m, k, k2).1 is Ok ==> m_soft_pop(m, k, k2).0.dirty,
        m_rename(m, k, k2).1 is Ok ==> m_rename(m, k, k2).0.dirty,
        m_set(m, k, v).0.dirty,
        m.dirty ==> m_push(m, k, v).0.dirty,
        m.dirty ==> m_pop(m, k).0.dirty,
        m.dirty ==> m_soft_pop(m, k, k2).0.dirty,
        m.dirty ==> m_rename(m, k, k2).0.dirty,
        m.dirty ==> m_append(m, ks, vs).0.dirty,
        m.dirty ==> m_remove(m, ks).0.dirty,
        m_write_back(m).1 is Ok ==> !m_write_back(m).0.dirty,
        m_write_back(m).1 is Err ==> m_write_back(m).0.dirty == m.dirty,
        ks.len() == vs.len() && ks.len() > 0 && m_append(m, ks, vs).1 is Ok ==> m_append(
            m,
            ks,
            vs,
        ).0.dirty,
{
    if m.dirty {
        lemma_append_from_dirty(m, ks, vs, 0);
        lemma_remove_from_dirty(m, ks, 0);
    }
    if m.writable() && m.records.dom().contains(k) {
        let (m1, _) = m_pop(m, k);
        let (mp, rp) = m_push(m1, k2, m.records[k].value);
        assert(m1.dirty);
        if rp is Ok {
            assert(mp.dirty);
        }
    }
    if ks.len() == vs.len() && ks.len() > 0 {
        let (m1, r1) = m_push(m, ks[0], vs[0]);
        if r1 is Ok {
            lemma_append_from_dirty(m1, ks, vs, 1);
        }
    }
}

/// Soft delete preserves content: after a successful `soft_pop(k, alt)`
/// on a table whose files all decode, renaming the produced
/// `<alt>.json_soft_delete` file to `<alt>.json` and loading the
/// directory again — under a policy that matches extensions — must
/// succeed and yield the record's old in-memory value under the key
/// `alt`.
pub proof fn lemma_soft_delete_preserves<T>(
    m: TableModel<T>,
    k: Seq<char>,
    alt: Seq<char>,
    meta2: TableMetadata,
)
    requires
        m.wf(),
        all_decodable(m),
        m.writable(),
        m.records.dom().contains(k),
        !m.files.dom().contains(alt + soft_suffix()),
        meta2.extension_policy is IgnoreNonJson,
    ensures
        ({
            let (m1, r1) = m_soft_pop(m, k, alt);
            let sn = alt + soft_suffix();
            let jn = alt + json_suffix();
            &&& r1 is Ok
            &&& {
                let files2 = m1.files.remove(sn).insert(jn, m1.files[sn]);
                &&& load_must_succeed(files2, meta2)
                &&& forall|recs: Map<Seq<char>, crate::model::RecordModel<T>>|
                    records_loaded(files2, meta2, recs, eq_rel::<T>())
                        ==> #[trigger] recs.dom().contains(alt) && recs[alt].value
                        == m.records[k].value
            }
        }),
{
    lemma_soft_name(alt);
    lemma_json_name(alt);
    let v = m.records[k].value;
    let b_k = m.records[k].backing;
    let sn = alt + soft_suffix();
    let jn = alt + json_suffix();
    let (m1, r1) = m_soft_pop(m, k, alt);
    assert(r1 is Ok);
    assert(m1.files[sn] == NodeModel::<T>::File(ContentModel::Value(v)));
    let files2 = m1.files.remove(sn).insert(jn, m1.files[sn]);
    assert(files2[jn] == NodeModel::<T>::File(ContentModel::Value(v)));
    assert forall|n: Seq<char>| #[trigger] files2.dom().contains(n) implies is_decodable(
        files2[n],
    ) by {
        if n != jn && n != sn {
            assert(m.files.dom().contains(n));
            assert(files2[n] == m.files[n]);
        }
    }
    assert(load_must_succeed(files2, meta2));
    assert forall|recs: Map<Seq<char>, crate::model::RecordModel<T>>|
        records_loaded(files2, meta2, recs, eq_rel::<T>()) implies #[trigger] recs.dom().contains(
        alt,
    ) && recs[alt].value == v by {
        assert(files2.dom().contains(jn));
        assert(spec_loadable(jn, files2[jn], meta2));
        assert(base_of(jn) == alt);
        assert(recs.dom().contains(alt));
        let b = recs[alt].backing;
        assert(files2.dom().contains(b) && spec_loadable(b, files2[b], meta2) && base_of(b)
            == alt);
        assert(ext_of(b) == Some(json_ext()));
        lemma_name_determined(b, jn);
        assert(eq_rel::<T>()(file_value(files2[jn]), recs[alt].value));
    }
}

} // verus!

//! The in-memory image of a table's directory: one named entry per
//! filesystem entry, each a regular file (whose content either decodes to
//! a stored value or stays opaque text) or a nested directory.

use vstd::prelude::*;
use crate::strmap::StrMap;

verus! {

/// What a regular file holds, as the engine sees it: a value of the
/// stored type when the file's text decodes to one, or the raw text when
/// it does not.
#[derive(Clone)]
pub enum FileContent<T> {
    /// The file's text decodes to this value.
    Value(T),
    /// The file's text does not decode to the stored type; it is carried
    /// through untouched.
    Opaque(String),
}

/// The mathematical image of a [`FileContent`].
pub ghost enum ContentModel<T> {
    /// See [`FileContent::Value`].
    Value(T),
    /// See [`FileContent::Opaque`].
    Opaque(Seq<char>),
}

/// One directory entry: a regular file or a nested directory.
#[derive(Clone)]
pub enum FsNode<T> {
    /// A regular file and its content.
    File(FileContent<T>),
    /// A nested directory. The engine never looks inside one.
    Subdir,
}

/// The mathematical image of an [`FsNode`].
pub ghost enum NodeModel<T> {
    /// See [`FsNode::File`].
    File(ContentModel<T>),
    /// See [`FsNode::Subdir`].
    Subdir,
}

impl<T> View for FileContent<T> {
    type V = ContentModel<T>;

    open spec fn view(&self) -> ContentModel<T> {
        match self {
            FileContent::Value(v) => ContentModel::Value(*v),
            FileContent::Opaque(s) => ContentModel::Opaque(s@),
        }
    }
}

impl<T> View for FsNode<T> {
    type V = NodeModel<T>;

    open spec fn view(&self) -> NodeModel<T> {
        match self {
            FsNode::File(c) => NodeModel::File(c@),
            FsNode::Subdir => NodeModel::Subdir,
        }
    }
}

/// The image of one directory: a finite mapping from entry names to
/// entries. Its view is the mapping from each name's characters to the
/// entry's mathematical image.
#[derive(Clone)]
pub struct Directory<T> {
    entries: StrMap<FsNode<T>>,
}

impl<T> View for Directory<T> {
    type V = Map<Seq<char>, NodeModel<T>>;

    closed spec fn view(&self) -> Map<Seq<char>, NodeModel<T>> {
        self.entries@.map_values(|n: FsNode<T>| n@)
    }
}

impl<T> Directory<T> {
    /// The entry names are pairwise distinct.
    pub closed spec fn wf(&self) -> bool {
        self.entries.wf()
    }

    /// The entry names, in storage order.
    pub closed spec fn names(&self) -> Seq<Seq<char>> {
        self.entries.kseq()
    }

    /// The entries' images, in storage order.
    pub closed spec fn nodes(&self) -> Seq<NodeModel<T>> {
        self.entries.vseq().map_values(|n: FsNode<T>| n@)
    }

    /// Each position holds a distinct name of the image, with its node;
    /// and every name of the image stands at some position.
    pub proof fn lemma_index(&self)
        requires
            self.wf(),
        ensures
            forall|k: Seq<char>|
                self@.dom().contains(k) <==> exists|i: int| 0 <= i < self.names().len()
                    && self.names()[i] == k,
            forall|i: int|
                0 <= i < self.names().len() ==> self@.dom().contains(#[trigger] self.names()[i])
                    && self@[self.names()[i]] == self.nodes()[i],
            forall|i: int, j: int|
                0 <= i < j < self.names().len() ==> self.names()[i] != self.names()[j],
            self@.dom().finite(),
            self@.dom().len() == self.names().len(),
    {
        self.entries.lemma_positions();
        self.entries.lemma_dom_len();
        assert(self@.dom() =~= self.entries@.dom());
        assert forall|k: Seq<char>|
            self@.dom().contains(k) <==> exists|i: int|
                0 <= i < self.names().len() && self.names()[i] == k by {
            if self@.dom().contains(k) {
                let i = choose|i: int|
                    0 <= i < self.entries.kseq().len() && self.entries.kseq()[i] == k;
                assert(self.names()[i] == k);
            }
            if exists|i: int| 0 <= i < self.names().len() && self.names()[i] == k {
                let i = choose|i: int| 0 <= i < self.names().len() && self.names()[i] == k;
                assert(self.entries.kseq()[i] == k);
            }
        }
        assert forall|i: int| 0 <= i < self.names().len() implies self@.dom().contains(
            #[trigger] self.names()[i],
        ) && self@[self.names()[i]] == self.nodes()[i] by {
            assert(self.entries@.dom().contains(self.names()[i]));
            assert(self.entries@[self.names()[i]] == self.entries.vseq()[i]);
            assert(self@[self.names()[i]] == self.entries@[self.names()[i]]@);
            assert(self.nodes()[i] == self.entries.vseq()[i]@);
        }
    }

    /// An empty directory image.
    pub fn new() -> (r: Self)
        ensures
            r@ == Map::<Seq<char>, NodeModel<T>>::empty(),
            r.wf(),
    {
        let r = Directory { entries: StrMap::new() };
        proof {
            assert(r@ =~= Map::<Seq<char>, NodeModel<T>>::empty());
        }
        r
    }

    /// The number of entries.
    pub fn entry_count(&self) -> (n: usize)
        ensures
            n == self.names().len(),
    {
        self.entries.len()
    }

    /// Whether an entry of that name exists.
    pub fn contains_entry(&self, name: &str) -> (r: bool)
        ensures
            r == self@.dom().contains(name@),
    {
        let r = self.entries.contains_key(name);
        proof {
            assert(self@.dom() =~= self.entries@.dom());
        }
        r
    }

    /// The entry of that name, if one exists.
    pub fn get_entry(&self, name: &str) -> (r: Option<&FsNode<T>>)
        requires
            self.wf(),
        ensures
            match r {
                Some(n) => self@.dom().contains(name@) && n@ == self@[name@],
                None => !self@.dom().contains(name@),
            },
    {
        let r = self.entries.get(name);
        proof {
            assert(self@.dom() =~= self.entries@.dom());
        }
        r
    }

    /// Put an entry under that name, replacing what was there.
    pub fn put_entry(&mut self, name: &str, node: FsNode<T>)
        requires
            old(self).wf(),
        ensures
            final(self).wf(),
            final(self)@ == old(self)@.insert(name@, node@),
    {
        let ghost n = node@;
        self.entries.insert(name.to_owned(), node);
        proof {
            assert(self@ =~= old(self)@.insert(name@, n));
        }
    }

    /// Remove the entry of that name; say whether one was there.
    pub fn remove_entry(&mut self, name: &str) -> (r: bool)
        requires
            old(self).wf(),
        ensures
            final(self).wf(),
            final(self)@ == old(self)@.remove(name@),
            r == old(self)@.dom().contains(name@),
    {
        let r = self.entries.remove(name).is_some();
        proof {
            assert(old(self)@.dom() =~= old(self).entries@.dom());
            assert(self@ =~= old(self)@.remove(name@));
        }
        r
    }

    /// Move the entry under `from` to the name `to`, replacing what was
    /// there; say whether an entry was moved.
    pub fn rename_entry(&mut self, from: &str, to: &str) -> (r: bool)
        requires
            old(self).wf(),
        ensures
            final(self).wf(),
            r == old(self)@.dom().contains(from@),
            r ==> final(self)@ == old(self)@.remove(from@).insert(to@, old(self)@[from@]),
            !r ==> final(self)@ == old(self)@,
    {
        proof {
            assert(old(self)@.dom() =~= old(self).entries@.dom());
        }
        match self.entries.remove(from) {
            Some(node) => {
                let ghost n = node@;
                proof {
                    assert(n == old(self)@[from@]);
                }
                self.entries.insert(to.to_owned(), node);
                proof {
                    assert(self@ =~= old(self)@.remove(from@).insert(to@, n));
                }
                true
            },
            None => false,
        }
    }

    /// The name of the entry at position `i`.
    pub fn name_at(&self, i: usize) -> (r: &String)
        requires
            i < self.names().len(),
        ensures
            r@ == self.names()[i as int],
    {
        self.entries.key_at(i)
    }

    /// The entry at position `i`.
    pub fn node_at(&self, i: usize) -> (r: &FsNode<T>)
        requires
            i < self.names().len(),
        ensures
            r@ == self.nodes()[i as int],
    {
        let r = self.entries.value_at(i);
        proof {
            self.entries.lemma_positions();
            assert(self.nodes()[i as int] == self.entries.vseq()[i as int]@);
        }
        r
    }
}

} // verus!

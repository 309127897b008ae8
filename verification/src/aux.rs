//! The policy bundle that configures a table, and the builder that
//! assembles one before creating or loading.

use vstd::prelude::*;
use core::marker::PhantomData;
use crate::fsdir::Directory;
use crate::model::{
    clone_exact, clone_rel, eq_rel, load_err_possible, load_must_succeed, records_loaded,
    TableModel,
};
use crate::table_error::{TableBuilderError, TableError};
use crate::Table;

verus! {

/// Whether the write-back happens on request or when the table is closed.
#[derive(Debug, PartialEq, Eq, Structural, Clone, Copy)]
pub enum WriteType {
    /// The caller writes back explicitly; closing a table without a
    /// write-back discards every unflushed change.
    Manual,
    /// Closing the table performs a final write-back of all changes.
    Automatic,
}

impl Default for WriteType {
    fn default() -> (r: Self)
        ensures
            r == WriteType::Automatic,
    {
        WriteType::Automatic
    }
}

/// Whether a table may modify its records and their files at all.
#[derive(Debug, PartialEq, Eq, Structural, Clone, Copy)]
pub enum RWPolicy {
    /// Every mutating or writing operation is rejected with an error.
    ReadOnly,
    /// Mutations are allowed; the payload says when they reach the files.
    Write(WriteType),
}

impl Default for RWPolicy {
    fn default() -> (r: Self)
        ensures
            r == RWPolicy::Write(WriteType::Automatic),
    {
        RWPolicy::Write(WriteType::Automatic)
    }
}

impl RWPolicy {
    /// True when the policy allows mutation.
    pub open spec fn is_writable(self) -> bool {
        self is Write
    }
}

/// How entries whose name does not carry the expected extension are treated
/// while a directory is scanned.
#[derive(Debug, PartialEq, Eq, Structural, Clone, Copy)]
pub enum ExtensionPolicy {
    /// A non-qualifying entry (wrong extension, or not a regular file)
    /// fails the whole load.
    OnlyJsonFiles,
    /// Non-qualifying entries are skipped silently.
    IgnoreNonJson,
    /// Every regular file qualifies, whatever its extension, except
    /// soft-deleted files, which are never re-scanned as active records.
    IgnoreExtensions,
}

impl Default for ExtensionPolicy {
    fn default() -> (r: Self)
        ensures
            r == ExtensionPolicy::IgnoreNonJson,
    {
        ExtensionPolicy::IgnoreNonJson
    }
}

/// How a qualifying file whose content does not decode is treated.
#[derive(Debug, PartialEq, Eq, Structural, Clone, Copy)]
pub enum ContentPolicy {
    /// The entry is dropped silently; no record is created for it.
    IgnoreSerdeErrors,
    /// The decode failure aborts the whole load.
    PromoteSerdeErrors,
}

impl Default for ContentPolicy {
    fn default() -> (r: Self)
        ensures
            r == ContentPolicy::PromoteSerdeErrors,
    {
        ContentPolicy::PromoteSerdeErrors
    }
}

/// A compilation of all the policies of a table. Immutable once the table
/// is constructed.
#[derive(Debug, PartialEq, Eq, Structural, Clone, Copy)]
pub struct TableMetadata {
    /// The read/write policy for the table.
    pub rw_policy: RWPolicy,
    /// The extension policy for the table.
    pub extension_policy: ExtensionPolicy,
    /// The content policy for the table.
    pub content_policy: ContentPolicy,
}

impl Default for TableMetadata {
    fn default() -> (r: Self)
        ensures
            r == TableMetadata::spec_default(),
    {
        TableMetadata {
            rw_policy: RWPolicy::Write(WriteType::Automatic),
            extension_policy: ExtensionPolicy::IgnoreNonJson,
            content_policy: ContentPolicy::PromoteSerdeErrors,
        }
    }
}

impl TableMetadata {
    /// The default bundle: automatic write-back, non-matching extensions
    /// ignored, decode failures promoted to load failures.
    pub open spec fn spec_default() -> TableMetadata {
        TableMetadata {
            rw_policy: RWPolicy::Write(WriteType::Automatic),
            extension_policy: ExtensionPolicy::IgnoreNonJson,
            content_policy: ContentPolicy::PromoteSerdeErrors,
        }
    }
}

/// What an embedding program found at the path where a table is to be
/// created: the outcome of probing the real filesystem, handed to
/// [`Table::new`] as a plain value.
#[derive(Debug, PartialEq, Eq, Structural, Clone, Copy)]
pub enum PathStatus {
    /// Nothing exists at the path and a directory can be created there.
    Vacant,
    /// The path already denotes an existing filesystem entry.
    Occupied,
    /// The path cannot be probed or the directory cannot be created
    /// (permissions, missing parent, and the like).
    Uncreatable(crate::table_error::FileOpKind),
}

/// A builder that creates new tables and opens existing tables.
/// The default builder configures the table to write back automatically,
/// ignore non-json files, and report errors when decoding fails.
#[derive(Debug)]
pub struct TableBuilder<T> {
    data: PhantomData<T>,
    dir: String,
    metadata: TableMetadata,
}

impl<T> TableBuilder<T> {
    /// The policy bundle the builder has assembled so far.
    pub closed spec fn metadata(&self) -> TableMetadata {
        self.metadata
    }

    /// The directory path the builder was given.
    pub closed spec fn dir(&self) -> Seq<char> {
        self.dir@
    }

    /// Create a new builder from a directory path.
    pub fn new(dir: &str) -> (r: Self)
        ensures
            r.metadata() == TableMetadata::spec_default(),
            r.dir() == dir@,
    {
        Self {
            data: PhantomData,
            dir: dir.to_owned(),
            metadata: TableMetadata {
                rw_policy: RWPolicy::Write(WriteType::Automatic),
                extension_policy: ExtensionPolicy::IgnoreNonJson,
                content_policy: ContentPolicy::PromoteSerdeErrors,
            },
        }
    }

    /// Set the write-back to be manual.
    pub fn set_manual_write(self) -> (r: Self)
        ensures
            r.metadata() == (TableMetadata {
                rw_policy: RWPolicy::Write(WriteType::Manual),
                ..self.metadata()
            }),
            r.dir() == self.dir(),
    {
        let mut s = self;
        s.metadata.rw_policy = RWPolicy::Write(WriteType::Manual);
        s
    }

    /// Set the write-back to be automatic when the table is closed.
    pub fn set_auto_write(self) -> (r: Self)
        ensures
            r.metadata() == (TableMetadata {
                rw_policy: RWPolicy::Write(WriteType::Automatic),
                ..self.metadata()
            }),
            r.dir() == self.dir(),
    {
        let mut s = self;
        s.metadata.rw_policy = RWPolicy::Write(WriteType::Automatic);
        s
    }

    /// Set the table so that it cannot be written over.
    pub fn set_read_only(self) -> (r: Self)
        ensures
            r.metadata() == (TableMetadata { rw_policy: RWPolicy::ReadOnly, ..self.metadata() }),
            r.dir() == self.dir(),
    {
        let mut s = self;
        s.metadata.rw_policy = RWPolicy::ReadOnly;
        s
    }

    /// Set the table so that non-json entries in the table's directory
    /// provoke an error on loading.
    pub fn set_read_non_json_is_error(self) -> (r: Self)
        ensures
            r.metadata() == (TableMetadata {
                extension_policy: ExtensionPolicy::OnlyJsonFiles,
                ..self.metadata()
            }),
            r.dir() == self.dir(),
    {
        let mut s = self;
        s.metadata.extension_policy = ExtensionPolicy::OnlyJsonFiles;
        s
    }

    /// Set the table so that every regular file is read as a record,
    /// whatever its extension.
    pub fn set_ignore_extensions(self) -> (r: Self)
        ensures
            r.metadata() == (TableMetadata {
                extension_policy: ExtensionPolicy::IgnoreExtensions,
                ..self.metadata()
            }),
            r.dir() == self.dir(),
    {
        let mut s = self;
        s.metadata.extension_policy = ExtensionPolicy::IgnoreExtensions;
        s
    }

    /// When a read file does **not** contain a value that decodes to the
    /// stored type, just ignore it.
    pub fn set_ignore_de_errors(self) -> (r: Self)
        ensures
            r.metadata() == (TableMetadata {
                content_policy: ContentPolicy::IgnoreSerdeErrors,
                ..self.metadata()
            }),
            r.dir() == self.dir(),
    {
        let mut s = self;
        s.metadata.content_policy = ContentPolicy::IgnoreSerdeErrors;
        s
    }

    /// Load an existing table from the image of its directory, under the
    /// policies assembled so far. See [`Table::load`].
    pub fn load(self, image: Directory<T>) -> (r: Result<Table<T>, TableError>) where T: Clone
        requires
            image.wf(),
        ensures
            match r {
                Ok(t) => {
                    &&& t.wf()
                    &&& t@.path == self.dir()
                    &&& t@.meta == self.metadata()
                    &&& !t@.dirty
                    &&& t@.files == image@
                    &&& load_must_succeed(image@, self.metadata())
                    &&& records_loaded(image@, self.metadata(), t@.records, clone_rel::<T>())
                    &&& (clone_exact::<T>() ==> records_loaded(
                        image@,
                        self.metadata(),
                        t@.records,
                        eq_rel::<T>(),
                    ))
                },
                Err(e) => load_err_possible(image@, self.metadata(), e@),
            },
    {
        Table::load(self.dir.as_str(), image, Some(self.metadata))
    }

    /// Create a new table under the policies assembled so far; a write
    /// policy must be in place. See [`Table::new`].
    pub fn build(self, status: PathStatus) -> (r: Result<Table<T>, TableBuilderError>)
        ensures
            r is Ok <==> self.metadata().rw_policy is Write && status is Vacant,
            match r {
                Ok(t) => t.wf() && t@ == TableModel::<T>::empty(self.dir(), self.metadata()),
                Err(e) => match e {
                    TableBuilderError::CreateWithoutWriteError => self.metadata().rw_policy
                        is ReadOnly,
                    TableBuilderError::TableAlreadyExistsError => self.metadata().rw_policy
                        is Write && status is Occupied,
                    TableBuilderError::DirCreateError(k) => self.metadata().rw_policy is Write
                        && status == PathStatus::Uncreatable(k),
                },
            },
    {
        Table::new(self.dir.as_str(), status, self.metadata)
    }
}

impl<T> Default for TableBuilder<T> {
    fn default() -> (r: Self)
        ensures
            r.metadata() == TableMetadata::spec_default(),
            r.dir() == Seq::<char>::empty(),
    {
        Self {
            data: PhantomData,
            dir: String::new(),
            metadata: TableMetadata {
                rw_policy: RWPolicy::Write(WriteType::Automatic),
                extension_policy: ExtensionPolicy::IgnoreNonJson,
                content_policy: ContentPolicy::PromoteSerdeErrors,
            },
        }
    }
}

} // verus!

//! The closed set of failure kinds surfaced by the engine.

use vstd::prelude::*;

verus! {

/// The kind of a file operation failure, as an embedding program maps it
/// from the host filesystem. Inside the in-memory directory image the only
/// kind that can arise is `AlreadyExists` (creating a file over an
/// existing name).
#[derive(Debug, PartialEq, Eq, Structural, Clone, Copy)]
pub enum FileOpKind {
    /// A file was to be created fresh but the name was taken.
    AlreadyExists,
    /// A file or directory was not found.
    NotFound,
    /// The operation was denied by the host.
    PermissionDenied,
    /// Any other failure.
    Other,
}

/// The mathematical image of a [`TableError`]: the same variants with
/// every string payload abstracted to its sequence of characters.
pub ghost enum ErrModel {
    /// See [`TableError::NoWritePolicyError`].
    NoWritePolicy,
    /// See [`TableError::JsonError`].
    Json,
    /// See [`TableError::FileOpError`].
    FileOp(FileOpKind),
    /// See [`TableError::SerdeError`].
    Serde(Seq<char>),
    /// See [`TableError::AppendLengthError`].
    AppendLength,
    /// See [`TableError::PushError`].
    Push(Seq<char>),
    /// See [`TableError::PopError`].
    Pop(Seq<char>),
}

/// Errors during the management of a table.
#[derive(Debug)]
pub enum TableError {
    /// Trying to modify or write without a write policy.
    NoWritePolicyError,
    /// An entry does not qualify under the strict extension policy.
    JsonError,
    /// Something went wrong with a file operation.
    FileOpError(FileOpKind),
    /// A qualifying file's content did not decode; the payload is the name
    /// of the offending file.
    SerdeError(String),
    /// The two slices handed to an append had different lengths.
    AppendLengthError,
    /// Trying to push to an existing key; the payload is the key.
    PushError(String),
    /// Tried to pop a non-existent key; the payload is the key.
    PopError(String),
}

impl View for TableError {
    type V = ErrModel;

    open spec fn view(&self) -> ErrModel {
        match self {
            TableError::NoWritePolicyError => ErrModel::NoWritePolicy,
            TableError::JsonError => ErrModel::Json,
            TableError::FileOpError(k) => ErrModel::FileOp(*k),
            TableError::SerdeError(s) => ErrModel::Serde(s@),
            TableError::AppendLengthError => ErrModel::AppendLength,
            TableError::PushError(s) => ErrModel::Push(s@),
            TableError::PopError(s) => ErrModel::Pop(s@),
        }
    }
}

impl TableError {
    /// A human-readable account of the error.
    pub fn describe(&self) -> (r: String)
        ensures
            r@ == self.spec_describe(),
    {
        match self {
            TableError::FileOpError(k) => {
                "A file operation failed: ".to_owned().concat(file_op_kind_text(k))
            },
            TableError::JsonError => "Non Json file in Table".to_owned(),
            TableError::SerdeError(s) => {
                "File ".to_owned().concat(s.as_str()).concat(" could not be decoded")
            },
            TableError::NoWritePolicyError => {
                "You are trying to modify a Table without permission to do so".to_owned()
            },
            TableError::AppendLengthError => {
                "Not equal lengths of file names and elements".to_owned()
            },
            TableError::PushError(s) => {
                "File ".to_owned().concat(s.as_str()).concat(
                    ".json already exists in table and can't be pushed into the table",
                )
            },
            TableError::PopError(s) => {
                "File ".to_owned().concat(s.as_str()).concat(".json doesn't exist in the table")
            },
        }
    }

    /// What [`TableError::describe`] returns, character for character.
    pub open spec fn spec_describe(&self) -> Seq<char> {
        match self {
            TableError::FileOpError(k) => "A file operation failed: "@ + spec_file_op_kind_text(
                *k,
            ),
            TableError::JsonError => "Non Json file in Table"@,
            TableError::SerdeError(s) => "File "@ + s@ + " could not be decoded"@,
            TableError::NoWritePolicyError => {
                "You are trying to modify a Table without permission to do so"@
            },
            TableError::AppendLengthError => "Not equal lengths of file names and elements"@,
            TableError::PushError(s) => "File "@ + s@
                + ".json already exists in table and can't be pushed into the table"@,
            TableError::PopError(s) => "File "@ + s@ + ".json doesn't exist in the table"@,
        }
    }
}

/// A short name for each file operation failure kind.
pub fn file_op_kind_text(k: &FileOpKind) -> (r: &'static str)
    ensures
        r@ == spec_file_op_kind_text(*k),
{
    match k {
        FileOpKind::AlreadyExists => "the file already exists",
        FileOpKind::NotFound => "the file was not found",
        FileOpKind::PermissionDenied => "permission was denied",
        FileOpKind::Other => "an input/output failure occurred",
    }
}

/// What [`file_op_kind_text`] returns, character for character.
pub open spec fn spec_file_op_kind_text(k: FileOpKind) -> Seq<char> {
    match k {
        FileOpKind::AlreadyExists => "the file already exists"@,
        FileOpKind::NotFound => "the file was not found"@,
        FileOpKind::PermissionDenied => "permission was denied"@,
        FileOpKind::Other => "an input/output failure occurred"@,
    }
}

/// The mathematical image of an operation's outcome.
pub open spec fn res_model(r: Result<(), TableError>) -> Result<(), ErrModel> {
    match r {
        Ok(u) => Ok(u),
        Err(e) => Err(e@),
    }
}

/// Error trying to create a new table.
#[derive(Debug)]
pub enum TableBuilderError {
    /// The directory for the table could not be created.
    DirCreateError(FileOpKind),
    /// Trying to create without a write policy.
    CreateWithoutWriteError,
    /// Trying to create a table that already exists.
    TableAlreadyExistsError,
}

impl TableBuilderError {
    /// A human-readable account of the error.
    pub fn describe(&self) -> (r: String)
        ensures
            r@ == self.spec_describe(),
    {
        match self {
            TableBuilderError::DirCreateError(k) => {
                "Couldn't create the table's directory: ".to_owned().concat(file_op_kind_text(k))
            },
            TableBuilderError::CreateWithoutWriteError => {
                "Tried to create a table without write policy".to_owned()
            },
            TableBuilderError::TableAlreadyExistsError => {
                "The table already exists, try loading it instead".to_owned()
            },
        }
    }

    /// What [`TableBuilderError::describe`] returns, character for character.
    pub open spec fn spec_describe(&self) -> Seq<char> {
        match self {
            TableBuilderError::DirCreateError(k) => "Couldn't create the table's directory: "@
                + spec_file_op_kind_text(*k),
            TableBuilderError::CreateWithoutWriteError => {
                "Tried to create a table without write policy"@
            },
            TableBuilderError::TableAlreadyExistsError => {
                "The table already exists, try loading it instead"@
            },
        }
    }
}

} // verus!

//! Database-layer errors.

use vstd::prelude::*;
use vstd::std_specs::convert::FromSpec;
use vstd::string::to_string_from_display_ensures;

verus! {

/// Declares the storage engine's error type, `shodh_redb::error::Error`, as an
/// opaque value. Nothing is claimed of it.
#[verifier::external_type_specification]
#[verifier::external_body]
pub struct ExRedbError(shodh_redb::error::Error);

/// Declares the standard library's I/O error type, `std::io::Error`, as an
/// opaque value. Nothing is claimed of it.
#[verifier::external_type_specification]
#[verifier::external_body]
pub struct ExIoError(std::io::Error);

/// Errors originating from the database layer.
#[derive(Debug)]
pub enum DbError {
    /// Underlying storage engine error.
    Redb(shodh_redb::error::Error),
    /// Filesystem I/O during database operations.
    Io(std::io::Error),
    /// The requested table does not exist or wasn't registered.
    TableNotFound(String),
}

/// What a [`DbError`] says, with the table's name as a sequence of characters.
pub enum DbErrorView {
    Redb(shodh_redb::error::Error),
    Io(std::io::Error),
    TableNotFound(Seq<char>),
}

impl View for DbError {
    type V = DbErrorView;

    open spec fn view(&self) -> DbErrorView {
        match *self {
            DbError::Redb(e) => DbErrorView::Redb(e),
            DbError::Io(e) => DbErrorView::Io(e),
            DbError::TableNotFound(name) => DbErrorView::TableNotFound(name@),
        }
    }
}

impl From<shodh_redb::error::Error> for DbError {
    fn from(e: shodh_redb::error::Error) -> (r: DbError) {
        DbError::Redb(e)
    }
}

impl vstd::std_specs::convert::FromSpecImpl<shodh_redb::error::Error> for DbError {
    open spec fn obeys_from_spec() -> bool {
        true
    }

    open spec fn from_spec(e: shodh_redb::error::Error) -> DbError {
        DbError::Redb(e)
    }
}

impl From<std::io::Error> for DbError {
    fn from(e: std::io::Error) -> (r: DbError) {
        DbError::Io(e)
    }
}

impl vstd::std_specs::convert::FromSpecImpl<std::io::Error> for DbError {
    open spec fn obeys_from_spec() -> bool {
        true
    }

    open spec fn from_spec(e: std::io::Error) -> DbError {
        DbError::Io(e)
    }
}

impl DbError {
    /// The error as text, for a log line or a user.
    ///
    /// The text of an inner error is the one that the error displays itself as.
    pub fn message(&self) -> (text: String)
        ensures
            match *self {
                DbError::Redb(e) => exists|inner: String| #[trigger]
                    to_string_from_display_ensures(&e, inner) && text@ == "storage error: "@
                        + inner@,
                DbError::Io(e) => exists|inner: String| #[trigger]
                    to_string_from_display_ensures(&e, inner) && text@ == "io error: "@ + inner@,
                DbError::TableNotFound(name) => text@ == "table `"@ + name@
                    + "` not found or not registered"@,
            },
    {
        match self {
            DbError::Redb(e) => {
                let inner = e.to_string();
                let prefix = "storage error: ".to_owned();
                prefix.concat(inner.as_str())
            },
            DbError::Io(e) => {
                let inner = e.to_string();
                let prefix = "io error: ".to_owned();
                prefix.concat(inner.as_str())
            },
            DbError::TableNotFound(name) => {
                let prefix = "table `".to_owned();
                prefix.concat(name.as_str()).concat("` not found or not registered")
            },
        }
    }
}

/// An error of the storage engine or of the file system becomes the error of its
/// kind, and is kept in it.
pub proof fn law_inner_error_is_kept(storage: shodh_redb::error::Error, io: std::io::Error)
    ensures
        <DbError as FromSpec<shodh_redb::error::Error>>::from_spec(storage) == DbError::Redb(
            storage,
        ),
        <DbError as FromSpec<std::io::Error>>::from_spec(io) == DbError::Io(io),
        <DbError as FromSpec<shodh_redb::error::Error>>::obeys_from_spec(),
        <DbError as FromSpec<std::io::Error>>::obeys_from_spec(),
{
}

} // verus!

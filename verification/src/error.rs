//! The error catalog shared by every layer of the engine.

use vstd::prelude::*;

verus! {

/// Universal error.
#[derive(Debug)]
pub enum Error {
    SystemTimeWentBackword,
    DatabaseNotFound,
    TableNotFound,
    InvalidDatabaseName,
    InvalidColumnName(String),
    DatabaseAlreadyExists,
    TableAlreadyExists,
    SqlToAstConversion(String),
    UnsupportedCommand(String),
    UnsupportedColumnType(String),
    InvalidEngineName,
    UnsupportedTableOption(String),
    InvalidOrderBy,
    InvalidPrimaryKey(String),
    InvalidOrderByPrimaryKeyPair,
    InvalidTableName,
    NoColumnsSpecified,
    InvalidColumnsSpecified,
    InvalidSource(String),
    UnsupportedColumnConstraint(String),
    CouldNotInsertData(String),
    CouldNotReadData(String),
    CouldNotCreateTable(String),
    EmptySource,
    PermissionDenied,
    UnsupportedFilter(String),
    ColumnNotFound(String),
    DuplicateColumn(String),
    InvalidLimitValue(String),
    OrderByColumnsNotFound,
    SendResponse,
    Internal(String),
    Poisoned,
}

impl Error {
    /// A human-readable description; the detail string where the variant
    /// carries one, a fixed phrase otherwise.
    pub fn describe(&self) -> (r: String)
        ensures
            self matches Error::CouldNotReadData(d) ==> r@ == d@,
    {
        match self {
            Error::SystemTimeWentBackword => "System time went backword. Try again later.".to_owned(),
            Error::DatabaseNotFound => "Database not found.".to_owned(),
            Error::TableNotFound => "Table not found.".to_owned(),
            Error::InvalidDatabaseName => "Invalid database name.".to_owned(),
            Error::InvalidColumnName(d) => d.clone(),
            Error::DatabaseAlreadyExists => "Database already exists.".to_owned(),
            Error::TableAlreadyExists => "Table already exists.".to_owned(),
            Error::SqlToAstConversion(d) => d.clone(),
            Error::UnsupportedCommand(d) => d.clone(),
            Error::UnsupportedColumnType(d) => d.clone(),
            Error::InvalidEngineName => "Invalid engine name.".to_owned(),
            Error::UnsupportedTableOption(d) => d.clone(),
            Error::InvalidOrderBy => "Invalid ORDER BY.".to_owned(),
            Error::InvalidPrimaryKey(d) => d.clone(),
            Error::InvalidOrderByPrimaryKeyPair => "Invalid pair of ORDER BY and PRIMARY KEY. PRIMARY KEY should be prefix of ORDER BY".to_owned(),
            Error::InvalidTableName => "Invalid table name.".to_owned(),
            Error::NoColumnsSpecified => "No columns specified.".to_owned(),
            Error::InvalidColumnsSpecified => "Invalid columns specified.".to_owned(),
            Error::InvalidSource(d) => d.clone(),
            Error::UnsupportedColumnConstraint(d) => d.clone(),
            Error::CouldNotInsertData(d) => d.clone(),
            Error::CouldNotReadData(d) => d.clone(),
            Error::CouldNotCreateTable(d) => d.clone(),
            Error::EmptySource => "No values provided".to_owned(),
            Error::PermissionDenied => "Permission denied".to_owned(),
            Error::UnsupportedFilter(d) => d.clone(),
            Error::ColumnNotFound(d) => d.clone(),
            Error::DuplicateColumn(d) => d.clone(),
            Error::InvalidLimitValue(d) => d.clone(),
            Error::OrderByColumnsNotFound => "No ORDER BY columns found".to_owned(),
            Error::SendResponse => "Could not send response".to_owned(),
            Error::Internal(d) => d.clone(),
            Error::Poisoned => "Engine is poisoned".to_owned(),
        }
    }
}

impl PartialEq for Error {
    fn eq(&self, other: &Error) -> (r: bool) {
        match (self, other) {
            (Error::SystemTimeWentBackword, Error::SystemTimeWentBackword) => true,
            (Error::DatabaseNotFound, Error::DatabaseNotFound) => true,
            (Error::TableNotFound, Error::TableNotFound) => true,
            (Error::InvalidDatabaseName, Error::InvalidDatabaseName) => true,
            (Error::InvalidColumnName(a), Error::InvalidColumnName(b)) => *a == *b,
            (Error::DatabaseAlreadyExists, Error::DatabaseAlreadyExists) => true,
            (Error::TableAlreadyExists, Error::TableAlreadyExists) => true,
            (Error::SqlToAstConversion(a), Error::SqlToAstConversion(b)) => *a == *b,
            (Error::UnsupportedCommand(a), Error::UnsupportedCommand(b)) => *a == *b,
            (Error::UnsupportedColumnType(a), Error::UnsupportedColumnType(b)) => *a == *b,
            (Error::InvalidEngineName, Error::InvalidEngineName) => true,
            (Error::UnsupportedTableOption(a), Error::UnsupportedTableOption(b)) => *a == *b,
            (Error::InvalidOrderBy, Error::InvalidOrderBy) => true,
            (Error::InvalidPrimaryKey(a), Error::InvalidPrimaryKey(b)) => *a == *b,
            (Error::InvalidOrderByPrimaryKeyPair, Error::InvalidOrderByPrimaryKeyPair) => true,
            (Error::InvalidTableName, Error::InvalidTableName) => true,
            (Error::NoColumnsSpecified, Error::NoColumnsSpecified) => true,
            (Error::InvalidColumnsSpecified, Error::InvalidColumnsSpecified) => true,
            (Error::InvalidSource(a), Error::InvalidSource(b)) => *a == *b,
            (Error::UnsupportedColumnConstraint(a), Error::UnsupportedColumnConstraint(b)) => *a == *b,
            (Error::CouldNotInsertData(a), Error::CouldNotInsertData(b)) => *a == *b,
            (Error::CouldNotReadData(a), Error::CouldNotReadData(b)) => *a == *b,
            (Error::CouldNotCreateTable(a), Error::CouldNotCreateTable(b)) => *a == *b,
            (Error::EmptySource, Error::EmptySource) => true,
            (Error::PermissionDenied, Error::PermissionDenied) => true,
            (Error::UnsupportedFilter(a), Error::UnsupportedFilter(b)) => *a == *b,
            (Error::ColumnNotFound(a), Error::ColumnNotFound(b)) => *a == *b,
            (Error::DuplicateColumn(a), Error::DuplicateColumn(b)) => *a == *b,
            (Error::InvalidLimitValue(a), Error::InvalidLimitValue(b)) => *a == *b,
            (Error::OrderByColumnsNotFound, Error::OrderByColumnsNotFound) => true,
            (Error::SendResponse, Error::SendResponse) => true,
            (Error::Internal(a), Error::Internal(b)) => *a == *b,
            (Error::Poisoned, Error::Poisoned) => true,
            _ => false,
        }
    }
}

impl vstd::std_specs::cmp::PartialEqSpecImpl for Error {
    open spec fn obeys_eq_spec() -> bool {
        true
    }

    open spec fn eq_spec(&self, other: &Error) -> bool {
        match (self, other) {
            (Error::SystemTimeWentBackword, Error::SystemTimeWentBackword) => true,
            (Error::DatabaseNotFound, Error::DatabaseNotFound) => true,
            (Error::TableNotFound, Error::TableNotFound) => true,
            (Error::InvalidDatabaseName, Error::InvalidDatabaseName) => true,
            (Error::InvalidColumnName(a), Error::InvalidColumnName(b)) => a@ == b@,
            (Error::DatabaseAlreadyExists, Error::DatabaseAlreadyExists) => true,
            (Error::TableAlreadyExists, Error::TableAlreadyExists) => true,
            (Error::SqlToAstConversion(a), Error::SqlToAstConversion(b)) => a@ == b@,
            (Error::UnsupportedCommand(a), Error::UnsupportedCommand(b)) => a@ == b@,
            (Error::UnsupportedColumnType(a), Error::UnsupportedColumnType(b)) => a@ == b@,
            (Error::InvalidEngineName, Error::InvalidEngineName) => true,
            (Error::UnsupportedTableOption(a), Error::UnsupportedTableOption(b)) => a@ == b@,
            (Error::InvalidOrderBy, Error::InvalidOrderBy) => true,
            (Error::InvalidPrimaryKey(a), Error::InvalidPrimaryKey(b)) => a@ == b@,
            (Error::InvalidOrderByPrimaryKeyPair, Error::InvalidOrderByPrimaryKeyPair) => true,
            (Error::InvalidTableName, Error::InvalidTableName) => true,
            (Error::NoColumnsSpecified, Error::NoColumnsSpecified) => true,
            (Error::InvalidColumnsSpecified, Error::InvalidColumnsSpecified) => true,
            (Error::InvalidSource(a), Error::InvalidSource(b)) => a@ == b@,
            (Error::UnsupportedColumnConstraint(a), Error::UnsupportedColumnConstraint(b)) => a@ == b@,
            (Error::CouldNotInsertData(a), Error::CouldNotInsertData(b)) => a@ == b@,
            (Error::CouldNotReadData(a), Error::CouldNotReadData(b)) => a@ == b@,
            (Error::CouldNotCreateTable(a), Error::CouldNotCreateTable(b)) => a@ == b@,
            (Error::EmptySource, Error::EmptySource) => true,
            (Error::PermissionDenied, Error::PermissionDenied) => true,
            (Error::UnsupportedFilter(a), Error::UnsupportedFilter(b)) => a@ == b@,
            (Error::ColumnNotFound(a), Error::ColumnNotFound(b)) => a@ == b@,
            (Error::DuplicateColumn(a), Error::DuplicateColumn(b)) => a@ == b@,
            (Error::InvalidLimitValue(a), Error::InvalidLimitValue(b)) => a@ == b@,
            (Error::OrderByColumnsNotFound, Error::OrderByColumnsNotFound) => true,
            (Error::SendResponse, Error::SendResponse) => true,
            (Error::Internal(a), Error::Internal(b)) => a@ == b@,
            (Error::Poisoned, Error::Poisoned) => true,
            _ => false,
        }
    }
}

} // verus!

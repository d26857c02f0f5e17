//! Field types of the legacy text-command interface, and the table
//! specifier it addresses tables by.

use vstd::prelude::*;

verus! {

/// Denotes allowed field types in a table of the text-command interface.
#[derive(Clone, Copy, PartialEq, Eq, Structural, Debug)]
pub enum FieldType {
    String,
    Array,
}

impl FieldType {
    /// Converts `self` into `&str`.
    pub fn to_str(&self) -> (r: &'static str)
        ensures
            self is String ==> r@ == "String"@,
            self is Array ==> r@ == "Array"@,
    {
        match self {
            FieldType::String => "String",
            FieldType::Array => "Array",
        }
    }

    /// Converts `&str` into `FieldType`; an unknown name gives `None`.
    pub fn parse_field_type_from_str(field_type: &str) -> (r: Option<FieldType>)
        ensures
            field_type@ == "String"@ ==> r == Some(FieldType::String),
            field_type@ == "Array"@ ==> r == Some(FieldType::Array),
            r is None <==> field_type@ != "String"@ && field_type@ != "Array"@,
            r matches Some(ft) ==> ((ft is String && field_type@ == "String"@) || (ft is Array
                && field_type@ == "Array"@)),
    {
        proof {
            reveal_strlit("String");
            reveal_strlit("Array");
            assert("String"@.len() == 6);
            assert("Array"@.len() == 5);
        }
        if crate::value::str_eq(field_type, "String") {
            Some(FieldType::String)
        } else if crate::value::str_eq(field_type, "Array") {
            Some(FieldType::Array)
        } else {
            None
        }
    }
}

/// Addresses a database, and optionally a table in it.
pub struct TableSpecifier {
    pub db_name: String,
    pub table_name: Option<String>,
}

impl TableSpecifier {
    /// Builds a specifier from a database name and an optional table name.
    pub fn new(db_name: &str, table_name: Option<&str>) -> (r: TableSpecifier)
        ensures
            r.db_name@ == db_name@,
            match table_name {
                Some(t) => r.table_name matches Some(rt) && rt@ == t@,
                None => r.table_name is None,
            },
    {
        TableSpecifier {
            db_name: db_name.to_owned(),
            table_name: match table_name {
                Some(t) => Some(t.to_owned()),
                None => None,
            },
        }
    }
}

} // verus!

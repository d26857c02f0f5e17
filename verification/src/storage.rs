//! Column and table definitions: the shapes that schemas, parts and results
//! share.

use vstd::prelude::*;

use crate::compression::CompressionType;
use crate::error::Error;
use crate::value::{str_eq, Value, ValueType, ValueV};

verus! {

/// Abstraction of [`Constraints`].
#[verifier::ext_equal]
pub struct ConstraintsV {
    pub nullable: bool,
    pub default: Option<ValueV>,
    pub compression_type: CompressionType,
}

/// Per-column constraints: nullability, a default value, and the granule
/// codec.
#[derive(Debug)]
pub struct Constraints {
    pub nullable: bool,
    pub default: Option<Value>,
    pub compression_type: CompressionType,
}

impl View for Constraints {
    type V = ConstraintsV;

    open spec fn view(&self) -> ConstraintsV {
        ConstraintsV {
            nullable: self.nullable,
            default: match self.default {
                Option::Some(v) => Option::Some(v@),
                Option::None => Option::None,
            },
            compression_type: self.compression_type,
        }
    }
}

impl Default for Constraints {
    /// Nullable, no default value, default codec.
    fn default() -> (r: Self)
        ensures
            r@ == (ConstraintsV {
                nullable: true,
                default: Option::None,
                compression_type: CompressionType::LZ4(3u8),
            }),
    {
        Constraints { nullable: true, default: None, compression_type: CompressionType::LZ4(3) }
    }
}

impl DeepView for Constraints {
    type V = ConstraintsV;

    open spec fn deep_view(&self) -> ConstraintsV {
        self.view()
    }
}

impl Clone for Constraints {
    fn clone(&self) -> (r: Self)
        ensures
            r@ == self@,
    {
        Constraints {
            nullable: self.nullable,
            default: match &self.default {
                Some(v) => Some(v.clone()),
                None => None,
            },
            compression_type: self.compression_type,
        }
    }
}

impl PartialEq for Constraints {
    fn eq(&self, other: &Constraints) -> (r: bool) {
        let defaults_eq = match (&self.default, &other.default) {
            (Some(a), Some(b)) => *a == *b,
            (None, None) => true,
            _ => false,
        };
        self.nullable == other.nullable && defaults_eq && self.compression_type
            == other.compression_type
    }
}

impl vstd::std_specs::cmp::PartialEqSpecImpl for Constraints {
    open spec fn obeys_eq_spec() -> bool {
        true
    }

    open spec fn eq_spec(&self, other: &Constraints) -> bool {
        self@ == other@
    }
}

/// Abstraction of [`ColumnDef`].
#[verifier::ext_equal]
pub struct ColumnDefV {
    pub name: Seq<char>,
    pub field_type: ValueType,
    pub constraints: ConstraintsV,
}

/// The definition of one table column.
#[derive(Debug)]
pub struct ColumnDef {
    pub name: String,
    pub field_type: ValueType,
    pub constraints: Constraints,
}

impl View for ColumnDef {
    type V = ColumnDefV;

    open spec fn view(&self) -> ColumnDefV {
        ColumnDefV { name: self.name@, field_type: self.field_type, constraints: self.constraints@ }
    }
}

impl DeepView for ColumnDef {
    type V = ColumnDefV;

    open spec fn deep_view(&self) -> ColumnDefV {
        self.view()
    }
}

impl Clone for ColumnDef {
    fn clone(&self) -> (r: Self)
        ensures
            r@ == self@,
    {
        ColumnDef {
            name: self.name.clone(),
            field_type: self.field_type,
            constraints: self.constraints.clone(),
        }
    }
}

impl PartialEq for ColumnDef {
    fn eq(&self, other: &ColumnDef) -> (r: bool) {
        str_eq(self.name.as_str(), other.name.as_str()) && self.field_type == other.field_type
            && self.constraints == other.constraints
    }
}

impl vstd::std_specs::cmp::PartialEqSpecImpl for ColumnDef {
    open spec fn obeys_eq_spec() -> bool {
        true
    }

    open spec fn eq_spec(&self, other: &ColumnDef) -> bool {
        self@ == other@
    }
}

/// Abstraction of [`Column`].
#[verifier::ext_equal]
pub struct ColumnV {
    pub column_def: ColumnDefV,
    pub data: Seq<ValueV>,
}

/// One named column together with its values.
#[derive(Debug)]
pub struct Column {
    pub column_def: ColumnDef,
    pub data: Vec<Value>,
}

impl View for Column {
    type V = ColumnV;

    open spec fn view(&self) -> ColumnV {
        ColumnV { column_def: self.column_def@, data: self.data.deep_view() }
    }
}

impl DeepView for Column {
    type V = ColumnV;

    open spec fn deep_view(&self) -> ColumnV {
        self.view()
    }
}

impl Clone for Column {
    fn clone(&self) -> (r: Self)
        ensures
            r@ == self@,
    {
        let mut data: Vec<Value> = Vec::new();
        let mut i: usize = 0;
        while i < self.data.len()
            invariant
                i <= self.data@.len(),
                data@.len() == i,
                data.deep_view() =~= self.data.deep_view().take(i as int),
            decreases self.data@.len() - i,
        {
            let ghost pre = data@;
            let x = self.data[i].clone();
            proof {
                assert(x@ == self.data@[i as int]@);
            }
            data.push(x);
            proof {
                assert(data@ == pre.push(x));
                assert(data.deep_view().len() == i + 1);
                assert forall|j: int| 0 <= j < i + 1 implies data.deep_view()[j]
                    == self.data.deep_view().take(i + 1)[j] by {
                    assert(data.deep_view()[j] == data@[j].deep_view());
                    assert(self.data.deep_view()[j] == self.data@[j].deep_view());
                    if j < i {
                        assert(data@[j] == pre[j]);
                    }
                }
                assert(data.deep_view() =~= self.data.deep_view().take(i + 1));
            }
            i += 1;
        }
        proof {
            assert(self.data.deep_view().take(self.data@.len() as int) =~= self.data.deep_view());
        }
        Column { column_def: self.column_def.clone(), data }
    }
}

impl PartialEq for Column {
    fn eq(&self, other: &Column) -> (r: bool) {
        if !(self.column_def == other.column_def) {
            return false;
        }
        if self.data.len() != other.data.len() {
            proof {
                if self@ == other@ {
                    assert(self.data.deep_view().len() == other.data.deep_view().len());
                }
            }
            return false;
        }
        let mut i: usize = 0;
        while i < self.data.len()
            invariant
                i <= self.data@.len() == other.data@.len(),
                self.column_def@ == other.column_def@,
                forall|j: int|
                    0 <= j < i ==> self.data.deep_view()[j] == other.data.deep_view()[j],
            decreases self.data@.len() - i,
        {
            if !(self.data[i] == other.data[i]) {
                proof {
                    if self@ == other@ {
                        assert(self.data.deep_view()[i as int] == other.data.deep_view()[
                            i as int
                        ]);
                    }
                }
                return false;
            }
            i += 1;
        }
        proof {
            assert(self.data.deep_view() =~= other.data.deep_view());
            assert(self@ =~= other@);
        }
        true
    }
}

impl vstd::std_specs::cmp::PartialEqSpecImpl for Column {
    open spec fn obeys_eq_spec() -> bool {
        true
    }

    open spec fn eq_spec(&self, other: &Column) -> bool {
        self@ == other@
    }
}

/// Abstraction of [`TableDef`].
#[verifier::ext_equal]
pub struct TableDefV {
    pub table: Seq<char>,
    pub database: Seq<char>,
}

/// Identifies a table: its database and its name.
#[derive(Debug)]
pub struct TableDef {
    pub table: String,
    pub database: String,
}

impl View for TableDef {
    type V = TableDefV;

    open spec fn view(&self) -> TableDefV {
        TableDefV { table: self.table@, database: self.database@ }
    }
}

impl DeepView for TableDef {
    type V = TableDefV;

    open spec fn deep_view(&self) -> TableDefV {
        self.view()
    }
}

impl Clone for TableDef {
    fn clone(&self) -> (r: Self)
        ensures
            r@ == self@,
    {
        TableDef { table: self.table.clone(), database: self.database.clone() }
    }
}

impl PartialEq for TableDef {
    fn eq(&self, other: &TableDef) -> (r: bool) {
        str_eq(self.table.as_str(), other.table.as_str()) && str_eq(
            self.database.as_str(),
            other.database.as_str(),
        )
    }
}

impl vstd::std_specs::cmp::PartialEqSpecImpl for TableDef {
    open spec fn obeys_eq_spec() -> bool {
        true
    }

    open spec fn eq_spec(&self, other: &TableDef) -> bool {
        self@ == other@
    }
}

/// The table handed back to a client: result columns and, possibly, how long
/// execution took, in milliseconds.
#[derive(Debug)]
pub struct OutputTable {
    pub columns: Vec<Column>,
    pub execution_time: Option<u64>,
}

impl OutputTable {
    /// Creates new `OutputTable` with provided columns.
    pub fn new(columns: Vec<Column>) -> (r: Self)
        ensures
            r.columns.deep_view() == columns.deep_view(),
            r.execution_time is None,
    {
        OutputTable { columns, execution_time: None }
    }

    /// Sets the execution time for this output table.
    pub fn with_execution_time(self, duration_ms: u64) -> (r: Self)
        ensures
            r.columns.deep_view() == self.columns.deep_view(),
            r.execution_time == Some(duration_ms),
    {
        OutputTable { columns: self.columns, execution_time: Some(duration_ms) }
    }

    /// Builds a simple OK response table: one `String` column named `OK`
    /// holding the single value `OK`.
    pub fn build_ok() -> (r: Self)
        ensures
            r.columns.deep_view().len() == 1,
            r.columns.deep_view()[0].data.len() == 1,
            r.columns.deep_view()[0].data[0] == ValueV::Str("OK"@),
            r.columns.deep_view()[0].column_def.name == "OK"@,
    {
        let mut data: Vec<Value> = Vec::new();
        data.push(Value::String(String::from_str("OK")));
        let column = Column {
            column_def: ColumnDef {
                name: String::from_str("OK"),
                field_type: ValueType::String,
                constraints: Constraints::default(),
            },
            data,
        };
        let mut columns: Vec<Column> = Vec::new();
        columns.push(column);
        OutputTable { columns, execution_time: None }
    }
}

/// The index of the first column whose definition equals `def`.
pub open spec fn spec_position_by_def(columns: Seq<ColumnV>, def: ColumnDefV) -> Option<int> {
    if exists|i: int| 0 <= i < columns.len() && columns[i].column_def == def {
        Some(choose|i: int|
            0 <= i < columns.len() && columns[i].column_def == def && forall|j: int|
                0 <= j < i ==> columns[j].column_def != def)
    } else {
        None
    }
}

/// Finds the first column whose definition equals `def`.
pub fn position_by_def(columns: &Vec<Column>, def: &ColumnDef) -> (r: Option<usize>)
    ensures
        match r {
            Some(i) => i < columns@.len() && columns@[i as int]@.column_def == def@ && forall|
                j: int,
            |
                0 <= j < i ==> columns@[j]@.column_def != def@,
            None => forall|j: int| 0 <= j < columns@.len() ==> columns@[j]@.column_def != def@,
        },
{
    let mut i: usize = 0;
    while i < columns.len()
        invariant
            i <= columns@.len(),
            forall|j: int| 0 <= j < i ==> columns@[j]@.column_def != def@,
        decreases columns@.len() - i,
    {
        if columns[i].column_def == *def {
            return Some(i);
        }
        i += 1;
    }
    None
}

/// Finds the first column whose name equals `name`.
pub fn position_by_name(columns: &Vec<Column>, name: &str) -> (r: Option<usize>)
    ensures
        match r {
            Some(i) => i < columns@.len() && columns@[i as int]@.column_def.name == name@ && forall|
                j: int,
            |
                0 <= j < i ==> columns@[j]@.column_def.name != name@,
            None => forall|j: int| 0 <= j < columns@.len() ==> columns@[j]@.column_def.name != name@,
        },
{
    let mut i: usize = 0;
    while i < columns.len()
        invariant
            i <= columns@.len(),
            forall|j: int| 0 <= j < i ==> columns@[j]@.column_def.name != name@,
        decreases columns@.len() - i,
    {
        if str_eq(columns[i].column_def.name.as_str(), name) {
            return Some(i);
        }
        i += 1;
    }
    None
}

/// Finds the first definition in `defs` whose name equals `name`.
pub fn def_position_by_name(defs: &Vec<ColumnDef>, name: &str) -> (r: Option<usize>)
    ensures
        match r {
            Some(i) => i < defs@.len() && defs@[i as int]@.name == name@ && forall|j: int|
                0 <= j < i ==> defs@[j]@.name != name@,
            None => forall|j: int| 0 <= j < defs@.len() ==> defs@[j]@.name != name@,
        },
{
    let mut i: usize = 0;
    while i < defs.len()
        invariant
            i <= defs@.len(),
            forall|j: int| 0 <= j < i ==> defs@[j]@.name != name@,
        decreases defs@.len() - i,
    {
        if str_eq(defs[i].name.as_str(), name) {
            return Some(i);
        }
        i += 1;
    }
    None
}

/// Whether some definition in `defs` equals `def`.
pub fn defs_contain(defs: &Vec<ColumnDef>, def: &ColumnDef) -> (r: bool)
    ensures
        r == exists|i: int| 0 <= i < defs@.len() && defs@[i]@ == def@,
{
    let mut i: usize = 0;
    while i < defs.len()
        invariant
            i <= defs@.len(),
            forall|j: int| 0 <= j < i ==> defs@[j]@ != def@,
        decreases defs@.len() - i,
    {
        if defs[i] == *def {
            return true;
        }
        i += 1;
    }
    false
}

/// Relies on `std::time::SystemTime::now` and `duration_since`: returns the
/// current Unix timestamp in milliseconds, or `SystemTimeWentBackword` where
/// the clock reads before the epoch or past `u64`.
#[verifier::external_body]
pub fn get_unix_time() -> (r: Result<u64, Error>)
    ensures
        r matches Err(e) ==> e is SystemTimeWentBackword,
{
    let now = std::time::SystemTime::now();
    let ms = now.duration_since(std::time::SystemTime::UNIX_EPOCH).map_err(
        |_| Error::SystemTimeWentBackword,
    )?.as_millis();
    u64::try_from(ms).map_err(|_| Error::SystemTimeWentBackword)
}

} // verus!

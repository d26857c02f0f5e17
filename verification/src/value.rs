//! The tagged scalar type stored in columns, and its ordering.
//!
//! Ordering is total within one variant and undefined across variants: the
//! comparison of two differently-typed values returns `None`.  Strings order
//! lexicographically by character.

use vstd::prelude::*;

use crate::error::Error;

verus! {

/// The mathematical abstraction of a [`Value`]: the same variants with the
/// string abstracted to its character sequence.
#[verifier::ext_equal]
pub enum ValueV {
    Null,
    Str(Seq<char>),
    Uuid(u128),
    Bool(bool),
    Int8(i8),
    Int16(i16),
    Int32(i32),
    Int64(i64),
    UInt8(u8),
    UInt16(u16),
    UInt32(u32),
    UInt64(u64),
}

/// Represents a parsed value in our custom protocol.
#[derive(Debug)]
pub enum Value {
    Null,
    String(String),
    Uuid(u128),
    Bool(bool),
    Int8(i8),
    Int16(i16),
    Int32(i32),
    Int64(i64),
    UInt8(u8),
    UInt16(u16),
    UInt32(u32),
    UInt64(u64),
}

impl View for Value {
    type V = ValueV;

    open spec fn view(&self) -> ValueV {
        match self {
            Value::Null => ValueV::Null,
            Value::String(s) => ValueV::Str(s@),
            Value::Uuid(u) => ValueV::Uuid(*u),
            Value::Bool(b) => ValueV::Bool(*b),
            Value::Int8(x) => ValueV::Int8(*x),
            Value::Int16(x) => ValueV::Int16(*x),
            Value::Int32(x) => ValueV::Int32(*x),
            Value::Int64(x) => ValueV::Int64(*x),
            Value::UInt8(x) => ValueV::UInt8(*x),
            Value::UInt16(x) => ValueV::UInt16(*x),
            Value::UInt32(x) => ValueV::UInt32(*x),
            Value::UInt64(x) => ValueV::UInt64(*x),
        }
    }
}

impl DeepView for Value {
    type V = ValueV;

    open spec fn deep_view(&self) -> ValueV {
        self.view()
    }
}

impl Clone for Value {
    fn clone(&self) -> (r: Value)
        ensures
            r@ == self@,
    {
        match self {
            Value::Null => Value::Null,
            Value::String(s) => Value::String(s.clone()),
            Value::Uuid(u) => Value::Uuid(*u),
            Value::Bool(b) => Value::Bool(*b),
            Value::Int8(x) => Value::Int8(*x),
            Value::Int16(x) => Value::Int16(*x),
            Value::Int32(x) => Value::Int32(*x),
            Value::Int64(x) => Value::Int64(*x),
            Value::UInt8(x) => Value::UInt8(*x),
            Value::UInt16(x) => Value::UInt16(*x),
            Value::UInt32(x) => Value::UInt32(*x),
            Value::UInt64(x) => Value::UInt64(*x),
        }
    }
}

impl PartialEq for Value {
    fn eq(&self, other: &Value) -> (r: bool) {
        match (self, other) {
            (Value::Null, Value::Null) => true,
            (Value::String(a), Value::String(b)) => *a == *b,
            (Value::Uuid(a), Value::Uuid(b)) => a == b,
            (Value::Bool(a), Value::Bool(b)) => a == b,
            (Value::Int8(a), Value::Int8(b)) => a == b,
            (Value::Int16(a), Value::Int16(b)) => a == b,
            (Value::Int32(a), Value::Int32(b)) => a == b,
            (Value::Int64(a), Value::Int64(b)) => a == b,
            (Value::UInt8(a), Value::UInt8(b)) => a == b,
            (Value::UInt16(a), Value::UInt16(b)) => a == b,
            (Value::UInt32(a), Value::UInt32(b)) => a == b,
            (Value::UInt64(a), Value::UInt64(b)) => a == b,
            _ => false,
        }
    }
}

impl vstd::std_specs::cmp::PartialEqSpecImpl for Value {
    open spec fn obeys_eq_spec() -> bool {
        true
    }

    open spec fn eq_spec(&self, other: &Value) -> bool {
        self@ == other@
    }
}

/// Denotes allowed value types in a table column.
#[derive(Clone, Copy, PartialEq, Eq, Structural, Debug, Hash)]
pub enum ValueType {
    Null,
    String,
    Uuid,
    Bool,
    Int8,
    Int16,
    Int32,
    Int64,
    UInt8,
    UInt16,
    UInt32,
    UInt64,
}

/// The type tag of an abstract value.
pub open spec fn val_type(v: ValueV) -> ValueType {
    match v {
        ValueV::Null => ValueType::Null,
        ValueV::Str(_) => ValueType::String,
        ValueV::Uuid(_) => ValueType::Uuid,
        ValueV::Bool(_) => ValueType::Bool,
        ValueV::Int8(_) => ValueType::Int8,
        ValueV::Int16(_) => ValueType::Int16,
        ValueV::Int32(_) => ValueType::Int32,
        ValueV::Int64(_) => ValueType::Int64,
        ValueV::UInt8(_) => ValueType::UInt8,
        ValueV::UInt16(_) => ValueType::UInt16,
        ValueV::UInt32(_) => ValueType::UInt32,
        ValueV::UInt64(_) => ValueType::UInt64,
    }
}

impl Value {
    /// Returns the `ValueType` corresponding to this value.
    pub fn get_type(&self) -> (r: ValueType)
        ensures
            r == val_type(self@),
    {
        match self {
            Value::Null => ValueType::Null,
            Value::String(_) => ValueType::String,
            Value::Uuid(_) => ValueType::Uuid,
            Value::Bool(_) => ValueType::Bool,
            Value::Int8(_) => ValueType::Int8,
            Value::Int16(_) => ValueType::Int16,
            Value::Int32(_) => ValueType::Int32,
            Value::Int64(_) => ValueType::Int64,
            Value::UInt8(_) => ValueType::UInt8,
            Value::UInt16(_) => ValueType::UInt16,
            Value::UInt32(_) => ValueType::UInt32,
            Value::UInt64(_) => ValueType::UInt64,
        }
    }
}

/// Result of comparing two values of one type.
#[derive(Clone, Copy, PartialEq, Eq, Structural, Debug)]
pub enum ValOrder {
    Less,
    Equal,
    Greater,
}

/// Lexicographic comparison of two character sequences.
pub open spec fn chars_cmp(a: Seq<char>, b: Seq<char>) -> ValOrder
    decreases a.len(),
{
    if a.len() == 0 && b.len() == 0 {
        ValOrder::Equal
    } else if a.len() == 0 {
        ValOrder::Less
    } else if b.len() == 0 {
        ValOrder::Greater
    } else if a[0] < b[0] {
        ValOrder::Less
    } else if a[0] > b[0] {
        ValOrder::Greater
    } else {
        chars_cmp(a.drop_first(), b.drop_first())
    }
}

/// Generic three-way ordering of two integers.
pub open spec fn int_cmp(a: int, b: int) -> ValOrder {
    if a < b {
        ValOrder::Less
    } else if a > b {
        ValOrder::Greater
    } else {
        ValOrder::Equal
    }
}

/// Ordering of two abstract values: total within one variant, undefined
/// (`None`) across variants.
pub open spec fn val_cmp(a: ValueV, b: ValueV) -> Option<ValOrder> {
    match (a, b) {
        (ValueV::Null, ValueV::Null) => Some(ValOrder::Equal),
        (ValueV::Null, _) => Some(ValOrder::Greater),
        (_, ValueV::Null) => Some(ValOrder::Less),
        (ValueV::Str(x), ValueV::Str(y)) => Some(chars_cmp(x, y)),
        (ValueV::Uuid(x), ValueV::Uuid(y)) => Some(int_cmp(x as int, y as int)),
        (ValueV::Bool(x), ValueV::Bool(y)) => Some(
            int_cmp(if x { 1int } else { 0int }, if y { 1int } else { 0int }),
        ),
        (ValueV::Int8(x), ValueV::Int8(y)) => Some(int_cmp(x as int, y as int)),
        (ValueV::Int16(x), ValueV::Int16(y)) => Some(int_cmp(x as int, y as int)),
        (ValueV::Int32(x), ValueV::Int32(y)) => Some(int_cmp(x as int, y as int)),
        (ValueV::Int64(x), ValueV::Int64(y)) => Some(int_cmp(x as int, y as int)),
        (ValueV::UInt8(x), ValueV::UInt8(y)) => Some(int_cmp(x as int, y as int)),
        (ValueV::UInt16(x), ValueV::UInt16(y)) => Some(int_cmp(x as int, y as int)),
        (ValueV::UInt32(x), ValueV::UInt32(y)) => Some(int_cmp(x as int, y as int)),
        (ValueV::UInt64(x), ValueV::UInt64(y)) => Some(int_cmp(x as int, y as int)),
        _ => None,
    }
}

/// Two values compare (they carry the same variant).
pub open spec fn val_comparable(a: ValueV, b: ValueV) -> bool {
    val_cmp(a, b) is Some
}

/// Non-strict order: `a` at or before `b`.
pub open spec fn val_le(a: ValueV, b: ValueV) -> bool {
    val_cmp(a, b) matches Some(o) && o != ValOrder::Greater
}

/// Strict order: `a` strictly before `b`.
pub open spec fn val_lt(a: ValueV, b: ValueV) -> bool {
    val_cmp(a, b) == Some(ValOrder::Less)
}

/// Lexicographic comparison of two strings, character by character.
pub fn compare_strings(a: &str, b: &str) -> (r: ValOrder)
    ensures
        r == chars_cmp(a@, b@),
{
    let a_len = a.unicode_len();
    let b_len = b.unicode_len();
    let mut i: usize = 0;
    proof {
        assert(a@.skip(0) =~= a@);
        assert(b@.skip(0) =~= b@);
    }
    loop
        invariant
            i <= a_len == a@.len(),
            i <= b_len == b@.len(),
            chars_cmp(a@, b@) == chars_cmp(a@.skip(i as int), b@.skip(i as int)),
        decreases a_len - i,
    {
        proof {
            assert(a@.skip(i as int).len() == a_len - i);
            assert(b@.skip(i as int).len() == b_len - i);
        }
        if i == a_len && i == b_len {
            return ValOrder::Equal;
        }
        if i == a_len {
            return ValOrder::Less;
        }
        if i == b_len {
            return ValOrder::Greater;
        }
        let ca = a.get_char(i);
        let cb = b.get_char(i);
        proof {
            assert(a@.skip(i as int)[0] == a@[i as int]);
            assert(b@.skip(i as int)[0] == b@[i as int]);
            assert(a@.skip(i as int).drop_first() =~= a@.skip(i as int + 1));
            assert(b@.skip(i as int).drop_first() =~= b@.skip(i as int + 1));
        }
        if ca < cb {
            return ValOrder::Less;
        }
        if ca > cb {
            return ValOrder::Greater;
        }
        i += 1;
    }
}

/// Compares two values, or reports that their types differ.
pub fn compare_values(a: &Value, b: &Value) -> (r: Option<ValOrder>)
    ensures
        r == val_cmp(a@, b@),
{
    match (a, b) {
        (Value::Null, Value::Null) => Some(ValOrder::Equal),
        (Value::Null, _) => Some(ValOrder::Greater),
        (_, Value::Null) => Some(ValOrder::Less),
        (Value::String(x), Value::String(y)) => Some(compare_strings(x.as_str(), y.as_str())),
        (Value::Uuid(x), Value::Uuid(y)) => Some(cmp_u128(*x, *y)),
        (Value::Bool(x), Value::Bool(y)) => Some(
            if *x == *y {
                ValOrder::Equal
            } else if *x {
                ValOrder::Greater
            } else {
                ValOrder::Less
            },
        ),
        (Value::Int8(x), Value::Int8(y)) => Some(cmp_i64(*x as i64, *y as i64)),
        (Value::Int16(x), Value::Int16(y)) => Some(cmp_i64(*x as i64, *y as i64)),
        (Value::Int32(x), Value::Int32(y)) => Some(cmp_i64(*x as i64, *y as i64)),
        (Value::Int64(x), Value::Int64(y)) => Some(cmp_i64(*x, *y)),
        (Value::UInt8(x), Value::UInt8(y)) => Some(cmp_u128(*x as u128, *y as u128)),
        (Value::UInt16(x), Value::UInt16(y)) => Some(cmp_u128(*x as u128, *y as u128)),
        (Value::UInt32(x), Value::UInt32(y)) => Some(cmp_u128(*x as u128, *y as u128)),
        (Value::UInt64(x), Value::UInt64(y)) => Some(cmp_u128(*x as u128, *y as u128)),
        _ => None,
    }
}

fn cmp_u128(a: u128, b: u128) -> (r: ValOrder)
    ensures
        r == int_cmp(a as int, b as int),
{
    if a < b {
        ValOrder::Less
    } else if a > b {
        ValOrder::Greater
    } else {
        ValOrder::Equal
    }
}

fn cmp_i64(a: i64, b: i64) -> (r: ValOrder)
    ensures
        r == int_cmp(a as int, b as int),
{
    if a < b {
        ValOrder::Less
    } else if a > b {
        ValOrder::Greater
    } else {
        ValOrder::Equal
    }
}

/// `chars_cmp` returns `Equal` exactly on equal sequences.
pub proof fn lemma_chars_cmp_eq(a: Seq<char>, b: Seq<char>)
    ensures
        (chars_cmp(a, b) == ValOrder::Equal) <==> a =~= b,
    decreases a.len(),
{
    if a.len() != 0 && b.len() != 0 && !(a[0] < b[0]) && !(a[0] > b[0]) {
        lemma_chars_cmp_eq(a.drop_first(), b.drop_first());
        if chars_cmp(a, b) == ValOrder::Equal {
            assert(a.drop_first() =~= b.drop_first());
            assert(a.len() == b.len());
            assert forall|i: int| 0 <= i < a.len() implies a[i] == b[i] by {
                if i > 0 {
                    assert(a.drop_first()[i - 1] == b.drop_first()[i - 1]);
                }
            }
            assert(a =~= b);
        }
        if a =~= b {
            assert(a.drop_first() =~= b.drop_first());
        }
    }
}

/// `val_cmp` returns `Equal` exactly on equal values.
pub proof fn lemma_val_cmp_eq(a: ValueV, b: ValueV)
    ensures
        (val_cmp(a, b) == Some(ValOrder::Equal)) <==> a == b,
{
    match (a, b) {
        (ValueV::Str(x), ValueV::Str(y)) => {
            lemma_chars_cmp_eq(x, y);
            if x =~= y {
                assert(a == b);
            }
        },
        _ => {},
    }
}

/// Flipping the arguments of `chars_cmp` flips the answer.
proof fn lemma_chars_cmp_flip(a: Seq<char>, b: Seq<char>)
    ensures
        chars_cmp(a, b) == ValOrder::Less <==> chars_cmp(b, a) == ValOrder::Greater,
        chars_cmp(a, b) == ValOrder::Equal <==> chars_cmp(b, a) == ValOrder::Equal,
    decreases a.len(),
{
    if a.len() != 0 && b.len() != 0 && !(a[0] < b[0]) && !(a[0] > b[0]) {
        lemma_chars_cmp_flip(a.drop_first(), b.drop_first());
    }
}

/// Flipping the arguments of `val_cmp` flips the answer.
pub proof fn lemma_val_cmp_flip(a: ValueV, b: ValueV)
    ensures
        val_comparable(a, b) <==> val_comparable(b, a),
        val_cmp(a, b) == Some(ValOrder::Less) <==> val_cmp(b, a) == Some(ValOrder::Greater),
        val_cmp(a, b) == Some(ValOrder::Equal) <==> val_cmp(b, a) == Some(ValOrder::Equal),
{
    match (a, b) {
        (ValueV::Str(x), ValueV::Str(y)) => {
            lemma_chars_cmp_flip(x, y);
        },
        _ => {},
    }
}

/// Transitivity of the character order, in its strict and non-strict forms.
proof fn lemma_chars_cmp_trans(a: Seq<char>, b: Seq<char>, c: Seq<char>)
    ensures
        chars_cmp(a, b) != ValOrder::Greater && chars_cmp(b, c) != ValOrder::Greater
            ==> chars_cmp(a, c) != ValOrder::Greater,
        chars_cmp(a, b) == ValOrder::Less && chars_cmp(b, c) != ValOrder::Greater ==> chars_cmp(
            a,
            c,
        ) == ValOrder::Less,
        chars_cmp(a, b) != ValOrder::Greater && chars_cmp(b, c) == ValOrder::Less ==> chars_cmp(
            a,
            c,
        ) == ValOrder::Less,
    decreases a.len() + b.len() + c.len(),
{
    lemma_chars_cmp_eq(a, b);
    lemma_chars_cmp_eq(b, c);
    if chars_cmp(a, b) == ValOrder::Equal || chars_cmp(b, c) == ValOrder::Equal {
    } else if a.len() != 0 && b.len() != 0 && c.len() != 0 {
        if !(a[0] < b[0]) && !(a[0] > b[0]) && !(b[0] < c[0]) && !(b[0] > c[0]) {
            lemma_chars_cmp_trans(a.drop_first(), b.drop_first(), c.drop_first());
        }
    }
}

/// Transitivity of the value order, in its strict and non-strict forms.
#[verifier::rlimit(60)]
#[verifier::spinoff_prover]
pub proof fn lemma_val_cmp_trans(a: ValueV, b: ValueV, c: ValueV)
    ensures
        val_le(a, b) && val_le(b, c) ==> val_le(a, c),
        val_lt(a, b) && val_le(b, c) ==> val_lt(a, c),
        val_le(a, b) && val_lt(b, c) ==> val_lt(a, c),
{
    match (a, b, c) {
        (ValueV::Str(x), ValueV::Str(y), ValueV::Str(z)) => {
            lemma_chars_cmp_trans(x, y, z);
        },
        _ => {},
    }
}

/// Transitivity of `val_le`.
pub proof fn lemma_val_le_trans(a: ValueV, b: ValueV, c: ValueV)
    requires
        val_le(a, b),
        val_le(b, c),
    ensures
        val_le(a, c),
{
    lemma_val_cmp_trans(a, b, c);
}

/// Totality of `val_le` on comparable values.
pub proof fn lemma_val_le_total(a: ValueV, b: ValueV)
    requires
        val_comparable(a, b),
    ensures
        val_le(a, b) || val_le(b, a),
{
    lemma_val_cmp_flip(a, b);
}

/// Whether two strings hold the same characters.
pub fn str_eq(a: &str, b: &str) -> (r: bool)
    ensures
        r == (a@ == b@),
{
    let ab = a.as_bytes();
    let bb = b.as_bytes();
    if ab.len() != bb.len() {
        proof {
            if a@ == b@ {
                assert(ab@ == bb@);
            }
        }
        return false;
    }
    let mut i: usize = 0;
    while i < ab.len()
        invariant
            i <= ab@.len() == bb@.len(),
            ab@ == vstd::utf8::encode_utf8(a@),
            bb@ == vstd::utf8::encode_utf8(b@),
            forall|j: int| 0 <= j < i ==> ab@[j] == bb@[j],
        decreases ab@.len() - i,
    {
        if ab[i] != bb[i] {
            proof {
                if a@ == b@ {
                    assert(ab@ =~= bb@);
                }
            }
            return false;
        }
        i += 1;
    }
    proof {
        assert(ab@ =~= bb@);
        vstd::utf8::encode_utf8_decode_utf8(a@);
        vstd::utf8::encode_utf8_decode_utf8(b@);
    }
    true
}

/// Abstraction of [`SqlLiteral`].
#[verifier::ext_equal]
pub enum SqlLitV {
    Null,
    Str(Seq<char>),
    Num(Seq<char>),
    Bool(bool),
    Other(Seq<char>),
}

/// A SQL literal as it reaches the core: a null, a quoted string, the
/// digits of a number, a boolean, or something the core does not take.
#[derive(Debug)]
pub enum SqlLiteral {
    Null,
    QuotedString(String),
    Number(String),
    Boolean(bool),
    Other(String),
}

impl View for SqlLiteral {
    type V = SqlLitV;

    open spec fn view(&self) -> SqlLitV {
        match self {
            SqlLiteral::Null => SqlLitV::Null,
            SqlLiteral::QuotedString(s) => SqlLitV::Str(s@),
            SqlLiteral::Number(s) => SqlLitV::Num(s@),
            SqlLiteral::Boolean(b) => SqlLitV::Bool(*b),
            SqlLiteral::Other(s) => SqlLitV::Other(s@),
        }
    }
}

/// Relies on `str::parse::<i64>`: the parse of a decimal string depends on
/// its characters alone.
pub uninterp spec fn i64_parsed(s: Seq<char>) -> Option<i64>;

/// Relies on `str::parse::<u64>`: the parse of a decimal string depends on
/// its characters alone.
pub uninterp spec fn u64_parsed(s: Seq<char>) -> Option<u64>;

/// Relies on `uuid::Uuid::parse_str` and `Uuid::as_u128`: the parse of a
/// UUID string depends on its characters alone.
pub uninterp spec fn uuid_parsed(s: Seq<char>) -> Option<u128>;

/// Relies on `str::parse::<i64>`.
#[verifier::external_body]
fn parse_i64(s: &str) -> (r: Option<i64>)
    ensures
        r == i64_parsed(s@),
{
    s.parse().ok()
}

/// Relies on `str::parse::<u64>`.
#[verifier::external_body]
fn parse_u64(s: &str) -> (r: Option<u64>)
    ensures
        r == u64_parsed(s@),
{
    s.parse().ok()
}

/// Relies on `uuid::Uuid::parse_str` and `Uuid::as_u128`.
#[verifier::external_body]
fn parse_uuid(s: &str) -> (r: Option<u128>)
    ensures
        r == uuid_parsed(s@),
{
    uuid::Uuid::parse_str(s).ok().map(|u| u.as_u128())
}

/// The typed value a literal converts to under a column type, or `None`
/// where the conversion is refused; integer parses go through `i64`/`u64`
/// and are range-checked per width.
pub open spec fn lit_value(l: SqlLitV, vt: ValueType) -> Option<ValueV> {
    match l {
        SqlLitV::Null => Some(ValueV::Null),
        SqlLitV::Str(s) => if vt == ValueType::String {
            Some(ValueV::Str(s))
        } else if vt == ValueType::Uuid {
            match uuid_parsed(s) {
                Some(u) => Some(ValueV::Uuid(u)),
                None => None,
            }
        } else {
            None
        },
        SqlLitV::Num(s) => match vt {
            ValueType::Int8 => match i64_parsed(s) {
                Some(v) => if -128 <= v <= 127 {
                    Some(ValueV::Int8(v as i8))
                } else {
                    None
                },
                None => None,
            },
            ValueType::Int16 => match i64_parsed(s) {
                Some(v) => if -32768 <= v <= 32767 {
                    Some(ValueV::Int16(v as i16))
                } else {
                    None
                },
                None => None,
            },
            ValueType::Int32 => match i64_parsed(s) {
                Some(v) => if -0x80000000 <= v <= 0x7fffffff {
                    Some(ValueV::Int32(v as i32))
                } else {
                    None
                },
                None => None,
            },
            ValueType::Int64 => match i64_parsed(s) {
                Some(v) => Some(ValueV::Int64(v)),
                None => None,
            },
            ValueType::UInt8 => match u64_parsed(s) {
                Some(v) => if v <= 255 {
                    Some(ValueV::UInt8(v as u8))
                } else {
                    None
                },
                None => None,
            },
            ValueType::UInt16 => match u64_parsed(s) {
                Some(v) => if v <= 65535 {
                    Some(ValueV::UInt16(v as u16))
                } else {
                    None
                },
                None => None,
            },
            ValueType::UInt32 => match u64_parsed(s) {
                Some(v) => if v <= 0xffffffff {
                    Some(ValueV::UInt32(v as u32))
                } else {
                    None
                },
                None => None,
            },
            ValueType::UInt64 => match u64_parsed(s) {
                Some(v) => Some(ValueV::UInt64(v)),
                None => None,
            },
            _ => None,
        },
        SqlLitV::Bool(b) => if vt == ValueType::Bool {
            Some(ValueV::Bool(b))
        } else {
            None
        },
        SqlLitV::Other(_) => None,
    }
}

/// The untyped value of a free-standing literal: numbers read as `Int64`.
pub open spec fn free_lit_value(l: SqlLitV) -> Option<ValueV> {
    match l {
        SqlLitV::Null => Some(ValueV::Null),
        SqlLitV::Str(s) => Some(ValueV::Str(s)),
        SqlLitV::Num(s) => match i64_parsed(s) {
            Some(v) => Some(ValueV::Int64(v)),
            None => None,
        },
        SqlLitV::Bool(b) => Some(ValueV::Bool(b)),
        SqlLitV::Other(_) => None,
    }
}

impl Value {
    /// Converts a SQL literal to a value of the given column type; refuses
    /// type mismatches, unparsable or out-of-range numbers, and literal
    /// kinds the core does not take.
    pub fn from_literal(lit: &SqlLiteral, value_type: &ValueType) -> (r: Result<Value, Error>)
        ensures
            r matches Ok(v) ==> lit_value(lit@, *value_type) == Some(v@),
            r is Err <==> lit_value(lit@, *value_type) is None,
            r matches Err(e) ==> e is InvalidSource || e is UnsupportedColumnType,
    {
        match lit {
            SqlLiteral::Null => Ok(Value::Null),
            SqlLiteral::QuotedString(s) => {
                if matches!(value_type, ValueType::String) {
                    Ok(Value::String(s.clone()))
                } else if matches!(value_type, ValueType::Uuid) {
                    match parse_uuid(s.as_str()) {
                        Some(u) => Ok(Value::Uuid(u)),
                        None => Err(Error::InvalidSource("Could not parse uuid".to_owned())),
                    }
                } else {
                    Err(Error::InvalidSource(
                        "Could not convert string to the column type".to_owned(),
                    ))
                }
            },
            SqlLiteral::Number(s) => {
                let signed = parse_i64(s.as_str());
                let unsigned = parse_u64(s.as_str());
                match value_type {
                    ValueType::Int8 => match signed {
                        Some(v) => if -128 <= v && v <= 127 {
                            Ok(Value::Int8(v as i8))
                        } else {
                            Err(Error::InvalidSource("Could not parse number".to_owned()))
                        },
                        None => Err(Error::InvalidSource("Could not parse number".to_owned())),
                    },
                    ValueType::Int16 => match signed {
                        Some(v) => if -32768 <= v && v <= 32767 {
                            Ok(Value::Int16(v as i16))
                        } else {
                            Err(Error::InvalidSource("Could not parse number".to_owned()))
                        },
                        None => Err(Error::InvalidSource("Could not parse number".to_owned())),
                    },
                    ValueType::Int32 => match signed {
                        Some(v) => if -0x80000000 <= v && v <= 0x7fffffff {
                            Ok(Value::Int32(v as i32))
                        } else {
                            Err(Error::InvalidSource("Could not parse number".to_owned()))
                        },
                        None => Err(Error::InvalidSource("Could not parse number".to_owned())),
                    },
                    ValueType::Int64 => match signed {
                        Some(v) => Ok(Value::Int64(v)),
                        None => Err(Error::InvalidSource("Could not parse number".to_owned())),
                    },
                    ValueType::UInt8 => match unsigned {
                        Some(v) => if v <= 255 {
                            Ok(Value::UInt8(v as u8))
                        } else {
                            Err(Error::InvalidSource("Could not parse number".to_owned()))
                        },
                        None => Err(Error::InvalidSource("Could not parse number".to_owned())),
                    },
                    ValueType::UInt16 => match unsigned {
                        Some(v) => if v <= 65535 {
                            Ok(Value::UInt16(v as u16))
                        } else {
                            Err(Error::InvalidSource("Could not parse number".to_owned()))
                        },
                        None => Err(Error::InvalidSource("Could not parse number".to_owned())),
                    },
                    ValueType::UInt32 => match unsigned {
                        Some(v) => if v <= 0xffffffff {
                            Ok(Value::UInt32(v as u32))
                        } else {
                            Err(Error::InvalidSource("Could not parse number".to_owned()))
                        },
                        None => Err(Error::InvalidSource("Could not parse number".to_owned())),
                    },
                    ValueType::UInt64 => match unsigned {
                        Some(v) => Ok(Value::UInt64(v)),
                        None => Err(Error::InvalidSource("Could not parse number".to_owned())),
                    },
                    _ => Err(Error::UnsupportedColumnType(
                        "Cannot convert number to the column type".to_owned(),
                    )),
                }
            },
            SqlLiteral::Boolean(b) => {
                if matches!(value_type, ValueType::Bool) {
                    Ok(Value::Bool(*b))
                } else {
                    Err(Error::InvalidSource(
                        "Could not convert boolean value to the column type".to_owned(),
                    ))
                }
            },
            SqlLiteral::Other(_) => Err(Error::UnsupportedColumnType(
                "Unsupported literal kind".to_owned(),
            )),
        }
    }

    /// Reads a free-standing literal without a column type: numbers as
    /// `Int64`, strings and booleans as themselves.
    pub fn from_free_literal(lit: &SqlLiteral) -> (r: Result<Value, Error>)
        ensures
            r matches Ok(v) ==> free_lit_value(lit@) == Some(v@),
            r is Err <==> free_lit_value(lit@) is None,
            r matches Err(e) ==> e is InvalidSource,
    {
        match lit {
            SqlLiteral::Null => Ok(Value::Null),
            SqlLiteral::QuotedString(s) => Ok(Value::String(s.clone())),
            SqlLiteral::Number(s) => match parse_i64(s.as_str()) {
                Some(v) => Ok(Value::Int64(v)),
                None => Err(Error::InvalidSource("Failed to parse number".to_owned())),
            },
            SqlLiteral::Boolean(b) => Ok(Value::Bool(*b)),
            SqlLiteral::Other(_) => Err(Error::InvalidSource(
                "Unsupported SQL value type".to_owned(),
            )),
        }
    }
}

} // verus!

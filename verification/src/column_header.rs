//! The fixed-size header of legacy column files: magic, version, field type
//! and flags.

use vstd::prelude::*;

use crate::error::Error;
use crate::fields::FieldType;

verus! {

/// The byte length of a serialized column header.
pub const HEADER_SIZE: usize = 16;

/// The header written at the front of a legacy column file.
#[derive(Debug)]
pub struct ColumnHeader {
    pub version: u16,
    pub field_type: FieldType,
    pub flags: u8,
}

/// The serialized form of a header: `THCOLU`, the version, the field-type
/// byte, the flags, and six reserved zero bytes.
pub open spec fn header_bytes(version: u16, field_type: FieldType, flags: u8) -> Seq<u8> {
    seq![
        84u8,
        72u8,
        67u8,
        79u8,
        76u8,
        85u8,
        (version % 256) as u8,
        (version / 256) as u8,
        (match field_type {
            FieldType::String => 1u8,
            FieldType::Array => 2u8,
        }),
        flags,
        0u8,
        0u8,
        0u8,
        0u8,
        0u8,
        0u8,
    ]
}

impl ColumnHeader {
    /// A fresh header at the current version with no flags.
    pub fn new(field_type: FieldType) -> (r: Self)
        ensures
            r.version == 1u16,
            r.field_type == field_type,
            r.flags == 0u8,
    {
        ColumnHeader { version: 1, field_type, flags: 0 }
    }

    /// Appends the 16 serialized header bytes to `writer`.
    pub fn write(&self, writer: &mut Vec<u8>)
        ensures
            final(writer)@ == old(writer)@ + header_bytes(self.version, self.field_type, self.flags),
            final(writer)@.len() == old(writer)@.len() + 16,
    {
        writer.push(84);
        writer.push(72);
        writer.push(67);
        writer.push(79);
        writer.push(76);
        writer.push(85);
        writer.push((self.version % 256) as u8);
        writer.push((self.version / 256) as u8);
        writer.push(
            match self.field_type {
                FieldType::String => 1,
                FieldType::Array => 2,
            },
        );
        writer.push(self.flags);
        writer.push(0);
        writer.push(0);
        writer.push(0);
        writer.push(0);
        writer.push(0);
        writer.push(0);
        proof {
            assert(writer@ =~= old(writer)@ + header_bytes(
                self.version,
                self.field_type,
                self.flags,
            ));
        }
    }

    /// Reads a header back from the front of `reader`: checks the magic, the
    /// version and the field-type byte.  Reading what [`ColumnHeader::write`]
    /// produced gives the header back.
    pub fn read(reader: &[u8]) -> (r: Result<ColumnHeader, Error>)
        ensures
            r matches Ok(h) ==> reader@.len() >= 16 && reader@[0] == 84 && reader@[1] == 72
                && reader@[2] == 67 && reader@[3] == 79 && reader@[4] == 76 && reader@[5] == 85
                && h.version <= 1 && h.version == reader@[6] + 256 * reader@[7] && h.flags
                == reader@[9] && ((h.field_type is String && reader@[8] == 1) || (
            h.field_type is Array && reader@[8] == 2)),
            forall|v: u16, ft: FieldType, fl: u8|
                v <= 1 && reader@.take(16) == header_bytes(v, ft, fl) && reader@.len() >= 16 ==> (
                r matches Ok(h) && h.version == v && h.field_type == ft && h.flags == fl),
            r matches Err(e) ==> e is CouldNotReadData,
    {
        if reader.len() < 16 {
            proof {
                assert forall|v: u16, ft: FieldType, fl: u8|
                    !(v <= 1 && reader@.take(16) == header_bytes(v, ft, fl) && reader@.len()
                        >= 16) by {}
            }
            return Err(Error::CouldNotReadData("column header too small".to_owned()));
        }
        if !(reader[0] == 84 && reader[1] == 72 && reader[2] == 67 && reader[3] == 79 && reader[4]
            == 76 && reader[5] == 85) {
            proof {
                assert forall|v: u16, ft: FieldType, fl: u8| reader@.take(16) != header_bytes(
                    v,
                    ft,
                    fl,
                ) by {
                    assert(header_bytes(v, ft, fl)[0] == 84 && header_bytes(v, ft, fl)[1] == 72
                        && header_bytes(v, ft, fl)[2] == 67 && header_bytes(v, ft, fl)[3] == 79
                        && header_bytes(v, ft, fl)[4] == 76 && header_bytes(v, ft, fl)[5] == 85);
                    if reader@.take(16) == header_bytes(v, ft, fl) {
                        assert(reader@.take(16)[0] == reader@[0]);
                        assert(reader@.take(16)[1] == reader@[1]);
                        assert(reader@.take(16)[2] == reader@[2]);
                        assert(reader@.take(16)[3] == reader@[3]);
                        assert(reader@.take(16)[4] == reader@[4]);
                        assert(reader@.take(16)[5] == reader@[5]);
                    }
                }
            }
            return Err(Error::CouldNotReadData(
                "Invalid column file: wrong magic bytes".to_owned(),
            ));
        }
        let version: u16 = reader[6] as u16 + 256 * (reader[7] as u16);
        proof {
            assert forall|v: u16, ft: FieldType, fl: u8|
                reader@.take(16) == header_bytes(v, ft, fl) implies v == version by {
                assert(reader@.take(16)[6] == reader@[6]);
                assert(reader@.take(16)[7] == reader@[7]);
                assert(v % 256 + 256 * (v / 256) == v);
            }
        }
        if version > 1 {
            return Err(Error::CouldNotReadData("Unsupported version".to_owned()));
        }
        let ft = if reader[8] == 1 {
            FieldType::String
        } else if reader[8] == 2 {
            FieldType::Array
        } else {
            proof {
                assert forall|v: u16, ft: FieldType, fl: u8| reader@.take(16) != header_bytes(
                    v,
                    ft,
                    fl,
                ) by {
                    if reader@.take(16) == header_bytes(v, ft, fl) {
                        assert(reader@.take(16)[8] == reader@[8]);
                    }
                }
            }
            return Err(Error::CouldNotReadData("Invalid field type".to_owned()));
        };
        let flags = reader[9];
        proof {
            assert forall|v: u16, ft2: FieldType, fl: u8|
                v <= 1 && reader@.take(16) == header_bytes(v, ft2, fl) && reader@.len() >= 16
                implies version == v && ft == ft2 && flags == fl by {
                assert(reader@.take(16)[6] == reader@[6]);
                assert(reader@.take(16)[7] == reader@[7]);
                assert(reader@.take(16)[8] == reader@[8]);
                assert(reader@.take(16)[9] == reader@[9]);
                assert(v % 256 + 256 * (v / 256) == v);
            }
        }
        Ok(ColumnHeader { version, field_type: ft, flags })
    }
}

impl PartialEq for ColumnHeader {
    fn eq(&self, other: &ColumnHeader) -> (r: bool) {
        self.version == other.version && self.field_type == other.field_type && self.flags
            == other.flags
    }
}

impl vstd::std_specs::cmp::PartialEqSpecImpl for ColumnHeader {
    open spec fn obeys_eq_spec() -> bool {
        true
    }

    open spec fn eq_spec(&self, other: &ColumnHeader) -> bool {
        self.version == other.version && self.field_type == other.field_type && self.flags
            == other.flags
    }
}

} // verus!

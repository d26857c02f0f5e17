//! Startup recovery decisions: what to do with each entry found in a
//! table's directory.

use vstd::prelude::*;

verus! {

/// What recovery does with one directory entry of a table.
#[derive(Clone, Copy, PartialEq, Eq, Structural, Debug)]
pub enum PartEntryAction {
    SkipHidden,
    PurgeRaw,
    SkipOld,
    Load,
}

/// The name ends in `.old`, ASCII case aside.
pub open spec fn is_old_name(name: Seq<char>) -> bool {
    &&& name.len() >= 4
    &&& name[name.len() - 4] == '.'
    &&& (name[name.len() - 3] == 'o' || name[name.len() - 3] == 'O')
    &&& (name[name.len() - 2] == 'l' || name[name.len() - 2] == 'L')
    &&& (name[name.len() - 1] == 'd' || name[name.len() - 1] == 'D')
}

/// Classifies one entry of a table directory: files and dot-entries are
/// passed over, a `raw` directory is purged as the leftover of a crashed
/// insert or merge, a `.old` directory is left for the operator, and
/// anything else is a part to load.
pub fn classify_table_entry(name: &str, is_dir: bool) -> (r: PartEntryAction)
    ensures
        r == PartEntryAction::SkipHidden <==> (!is_dir || (name@.len() > 0 && name@[0] == '.')),
        r == PartEntryAction::PurgeRaw <==> (is_dir && !(name@.len() > 0 && name@[0] == '.')
            && name@ == "raw"@),
        r == PartEntryAction::SkipOld <==> (is_dir && !(name@.len() > 0 && name@[0] == '.')
            && name@ != "raw"@ && is_old_name(name@)),
        r == PartEntryAction::Load <==> (is_dir && !(name@.len() > 0 && name@[0] == '.') && name@
            != "raw"@ && !is_old_name(name@)),
{
    proof {
        reveal_strlit("raw");
        assert("raw"@.len() == 3);
        assert("raw"@[0] == 'r');
    }
    let len = name.unicode_len();
    if !is_dir || (len > 0 && name.get_char(0) == '.') {
        return PartEntryAction::SkipHidden;
    }
    if crate::value::str_eq(name, "raw") {
        return PartEntryAction::PurgeRaw;
    }
    if len >= 4 {
        let dot = name.get_char(len - 4);
        let o = name.get_char(len - 3);
        let l = name.get_char(len - 2);
        let d = name.get_char(len - 1);
        if dot == '.' && (o == 'o' || o == 'O') && (l == 'l' || l == 'L') && (d == 'd' || d
            == 'D') {
            return PartEntryAction::SkipOld;
        }
    }
    PartEntryAction::Load
}

} // verus!

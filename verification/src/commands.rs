//! Names and descriptions of the legacy text commands.

use vstd::prelude::*;

use crate::value::str_eq;

verus! {

/// Returns command description by its name, for the five legacy commands.
pub fn get_command_description(name: &str) -> (r: Option<&'static str>)
    ensures
        r is Some <==> name@ == "echo"@ || name@ == "ping"@ || name@ == "help"@ || name@
            == "create"@ || name@ == "insert"@,
        name@ == "echo"@ ==> (r matches Some(d) && d@
            == "Echoes back all provided arguments as an array"@),
        name@ == "ping"@ ==> (r matches Some(d) && d@
            == "Return PONG response for connectivity testing"@),
        name@ == "help"@ ==> (r matches Some(d) && d@
            == "Show available commands and their descriptions"@),
        name@ == "create"@ ==> (r matches Some(d) && d@
            == "Create a new database or table. Usage: create database <name> OR create table <db_name> <table_name> [field_name:field_type...]"@),
        name@ == "insert"@ ==> (r matches Some(d) && d@
            == "Insert rows in the table with field names and values"@),
{
    proof {
        reveal_strlit("echo");
        reveal_strlit("ping");
        reveal_strlit("help");
        reveal_strlit("create");
        reveal_strlit("insert");
        assert("echo"@.len() == 4);
        assert("ping"@.len() == 4);
        assert("help"@.len() == 4);
        assert("create"@.len() == 6);
        assert("insert"@.len() == 6);
        assert("echo"@[0] == 'e' && "ping"@[0] == 'p' && "help"@[0] == 'h');
        assert("create"@[0] == 'c' && "insert"@[0] == 'i');
    }
    if str_eq(name, "echo") {
        Some("Echoes back all provided arguments as an array")
    } else if str_eq(name, "ping") {
        Some("Return PONG response for connectivity testing")
    } else if str_eq(name, "help") {
        Some("Show available commands and their descriptions")
    } else if str_eq(name, "create") {
        Some(
            "Create a new database or table. Usage: create database <name> OR create table <db_name> <table_name> [field_name:field_type...]",
        )
    } else if str_eq(name, "insert") {
        Some("Insert rows in the table with field names and values")
    } else {
        None
    }
}

/// Lists all command names.
pub fn get_all_command_names() -> (r: Vec<&'static str>)
    ensures
        r@.len() == 5,
        r@[0]@ == "echo"@,
        r@[1]@ == "ping"@,
        r@[2]@ == "help"@,
        r@[3]@ == "create"@,
        r@[4]@ == "insert"@,
{
    let mut v: Vec<&'static str> = Vec::new();
    v.push("echo");
    v.push("ping");
    v.push("help");
    v.push("create");
    v.push("insert");
    v
}

} // verus!

use vstd::prelude::*;
use vstd::string::*;

verus! {

// The store issues exactly one statement per operation against the single
// `aliases` table. The texts are parameterized: values travel as bind
// parameters, never spliced into the statement.

/// The statement that looks one record up by its alias.
pub fn select_by_alias_sql() -> (r: String)
    ensures
        r@ == "SELECT * FROM aliases WHERE alias=$1"@,
{
    String::from_str("SELECT * FROM aliases WHERE alias=$1")
}

/// The statement that reads every record.
pub fn select_all_sql() -> (r: String)
    ensures
        r@ == "SELECT * FROM aliases"@,
{
    String::from_str("SELECT * FROM aliases")
}

/// The statement that inserts one record and returns it.
pub fn insert_sql() -> (r: String)
    ensures
        r@ == "INSERT INTO aliases (alias, url) VALUES ($1, $2) RETURNING *"@,
{
    String::from_str("INSERT INTO aliases (alias, url) VALUES ($1, $2) RETURNING *")
}

/// The statement that removes one record by its alias and returns it.
pub fn delete_by_alias_sql() -> (r: String)
    ensures
        r@ == "DELETE FROM aliases WHERE alias=$1 RETURNING *"@,
{
    String::from_str("DELETE FROM aliases WHERE alias=$1 RETURNING *")
}

/// The statement that removes every record and returns them.
pub fn delete_all_sql() -> (r: String)
    ensures
        r@ == "DELETE FROM aliases RETURNING *"@,
{
    String::from_str("DELETE FROM aliases RETURNING *")
}

/// The schema: one table of unique id, unique alias, and destination URL.
pub fn create_table_sql() -> (r: String)
    ensures
        r@
            == "CREATE TABLE IF NOT EXISTS aliases (id uuid PRIMARY KEY DEFAULT gen_random_uuid(), alias text UNIQUE NOT NULL, url text NOT NULL)"@,
{
    String::from_str(
        "CREATE TABLE IF NOT EXISTS aliases (id uuid PRIMARY KEY DEFAULT gen_random_uuid(), alias text UNIQUE NOT NULL, url text NOT NULL)",
    )
}

} // verus!

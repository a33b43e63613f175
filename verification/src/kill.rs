//! Stopping a running query.

use vstd::prelude::*;
use vstd::string::*;

verus! {

/// The statement that stops the query with the given identifier.
pub fn kill_query(query_id: &str) -> (sql: String)
    ensures
        sql@ == "KILL QUERY '"@ + query_id@ + "'"@,
{
    "KILL QUERY '".to_owned().concat(query_id).concat("'")
}

} // verus!

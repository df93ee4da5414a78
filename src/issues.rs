//! Schema URLs of the item types.
use vstd::prelude::*;
use crate::text::str_eq;

verus! {

/// The schema URL of an item type; commits of other types use the commit
/// schema.
pub open spec fn schema_for_item(t: Seq<char>) -> Seq<char> {
    if t == "task"@ {
        "http://localhost:8000/schemas/Task"@
    } else if t == "comment"@ {
        "http://localhost:8000/schemas/Comment"@
    } else if t == "llm_analysis"@ {
        "http://localhost:8000/schemas/LLMAnalysis"@
    } else if t == "status_change"@ {
        "http://localhost:8000/schemas/StatusChange"@
    } else if t == "planning"@ {
        "http://localhost:8000/schemas/Planning"@
    } else if t == "document"@ {
        "http://localhost:8000/schemas/Document"@
    } else {
        "http://localhost:8000/schemas/JSONCommit"@
    }
}

pub fn get_schema_for_item_type(item_type: &str) -> (r: &'static str)
    ensures
        r@ == schema_for_item(item_type@),
{
    if str_eq(item_type, "task") {
        "http://localhost:8000/schemas/Task"
    } else if str_eq(item_type, "comment") {
        "http://localhost:8000/schemas/Comment"
    } else if str_eq(item_type, "llm_analysis") {
        "http://localhost:8000/schemas/LLMAnalysis"
    } else if str_eq(item_type, "status_change") {
        "http://localhost:8000/schemas/StatusChange"
    } else if str_eq(item_type, "planning") {
        "http://localhost:8000/schemas/Planning"
    } else if str_eq(item_type, "document") {
        "http://localhost:8000/schemas/Document"
    } else {
        "http://localhost:8000/schemas/JSONCommit"
    }
}

} // verus!

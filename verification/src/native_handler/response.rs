//! Column mapping and the JSON envelope of list responses.

use vstd::prelude::*;
use crate::text::{dec, owned};
use crate::json::{jarr, jfield, jnull, jobj, json_array, JsonObj};
use crate::native_handler::sql_builder::{camel_to_snake, camel_to_snake_spec};

verus! {

/// Column mapping: (db_snake_name, json_camel_name, column_index).
pub struct ColumnMap {
    pub entries: Vec<(String, String, usize)>,
}

impl ColumnMap {
    /// Create a column map from camelCase field names: entry `i` is
    /// `(snake_case of names[i], names[i], i)`.
    pub fn from_camel_names(names: &[&str]) -> (m: Self)
        ensures
            m.entries@.len() == names@.len(),
            forall|i: int|
                0 <= i < names@.len() ==> {
                    &&& (#[trigger] m.entries@[i]).0@ == camel_to_snake_spec(names@[i]@)
                    &&& m.entries@[i].1@ == names@[i]@
                    &&& m.entries@[i].2 == i
                },
    {
        let mut entries: Vec<(String, String, usize)> = Vec::new();
        let mut i: usize = 0;
        while i < names.len()
            invariant
                i <= names@.len(),
                entries@.len() == i,
                forall|j: int|
                    0 <= j < i ==> {
                        &&& (#[trigger] entries@[j]).0@ == camel_to_snake_spec(names@[j]@)
                        &&& entries@[j].1@ == names@[j]@
                        &&& entries@[j].2 == j
                    },
            decreases names.len() - i,
        {
            let name: &str = names[i];
            let snake = camel_to_snake(name);
            entries.push((snake, owned(name), i));
            i += 1;
        }
        ColumnMap { entries }
    }
}

/// The envelope: `{"items":[..],"pagination":{"limit":..,"offset":..,"total":..}}`
/// with `total` `null` where it is unknown.
pub open spec fn list_response_json(items: Seq<Seq<char>>, total: Option<u64>, limit: u32, offset: u32) -> Seq<char> {
    jobj(
        seq![
            jfield("items"@, jarr(items)),
            jfield(
                "pagination"@,
                jobj(
                    seq![
                        jfield("limit"@, dec(limit as nat)),
                        jfield("offset"@, dec(offset as nat)),
                        jfield(
                            "total"@,
                            match total {
                                Some(t) => dec(t as nat),
                                None => jnull(),
                            },
                        ),
                    ],
                ),
            ),
        ],
    )
}

/// Builds the list response envelope around the items (each a rendered JSON
/// value) with the pagination metadata.
pub fn build_list_response(items: &Vec<String>, total: Option<u64>, limit: u32, offset: u32) -> (r: String)
    ensures
        r@ == list_response_json(items@.map_values(|s: String| s@), total, limit, offset),
{
    let mut page = JsonObj::new();
    page.num_field("limit", limit as u64);
    page.num_field("offset", offset as u64);
    match total {
        Some(t) => page.num_field("total", t),
        None => page.null_field("total"),
    }
    let page_text = page.finish();
    let items_text = json_array(items);
    let mut o = JsonObj::new();
    o.raw_field("items", items_text.as_str());
    o.raw_field("pagination", page_text.as_str());
    let r = o.finish();
    proof {
        assert(page.fields@ =~= seq![
            jfield("limit"@, dec(limit as nat)),
            jfield("offset"@, dec(offset as nat)),
            jfield(
                "total"@,
                match total {
                    Some(t) => dec(t as nat),
                    None => jnull(),
                },
            ),
        ]);
        assert(o.fields@ =~= seq![
            jfield("items"@, items_text@),
            jfield("pagination"@, page_text@),
        ]);
    }
    r
}

} // verus!

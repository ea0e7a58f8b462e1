//! What is logged, and which version this is.

use vstd::prelude::*;
use crate::json::{self, Json, JsonView, Object};

verus! {

fn filter_json(name: &str, filter: &str, result: Result<(), String>) -> (r: Json)
    ensures
        r@ == match result {
            Ok(_) => JsonView::Object(
                seq![("ok"@, JsonView::Bool(true)), (name@, JsonView::Text(filter@))],
            ),
            Err(e) => json::error_view(e@),
        },
{
    broadcast use json::lemma_json_view;

    match result {
        Ok(_) => {
            let mut out: Object = Object::new();
            out.put("ok", Json::Bool(true));
            out.put(name, Json::string(filter));
            assert(out.fields() =~= seq![
                ("ok"@, JsonView::Bool(true)),
                (name@, JsonView::Text(filter@)),
            ]);
            out.done()
        },
        Err(e) => Json::error(e),
    }
}

/// What a new filter for what is forwarded to the channel is answered with.
pub fn set_trace_level(filter: &str, result: Result<(), String>) -> (r: Json)
    ensures
        r@ == match result {
            Ok(_) => JsonView::Object(
                seq![("ok"@, JsonView::Bool(true)), ("channel_filter"@, JsonView::Text(filter@))],
            ),
            Err(e) => json::error_view(e@),
        },
{
    filter_json("channel_filter", filter, result)
}

/// What a new filter for what is printed is answered with.
pub fn set_stderr_level(filter: &str, result: Result<(), String>) -> (r: Json)
    ensures
        r@ == match result {
            Ok(_) => JsonView::Object(
                seq![("ok"@, JsonView::Bool(true)), ("stderr_filter"@, JsonView::Text(filter@))],
            ),
            Err(e) => json::error_view(e@),
        },
{
    filter_json("stderr_filter", filter, result)
}

/// Which version this is.
pub fn get_version(version: &str) -> (r: Json)
    ensures
        r@ == JsonView::Object(
            seq![("version"@, JsonView::Text(version@)), ("name"@, JsonView::Text("dione"@))],
        ),
{
    broadcast use json::lemma_json_view;

    let mut out: Object = Object::new();
    out.put("version", Json::string(version));
    out.put("name", Json::string("dione"));
    assert(out.fields() =~= seq![
        ("version"@, JsonView::Text(version@)),
        ("name"@, JsonView::Text("dione"@)),
    ]);
    out.done()
}

} // verus!

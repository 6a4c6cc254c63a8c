//! What the greeting function answers.
use crate::codec::{compact_text, is_column_value, reads_as};
use crate::json::{entry_models, lemma_entry_models, Json, JsonView};
use crate::text_map::map_of;
use vstd::prelude::*;

verus! {

/// A greeting.
pub open spec fn greeting_text(name: Seq<char>) -> Seq<char> {
    "Hello, "@ + name + "!"@
}

/// The message that greets `name`.
pub open spec fn hello_view(name: Seq<char>) -> JsonView {
    JsonView::Object(map![ "message"@ => JsonView::Text(greeting_text(name)) ])
}

/// An HTTP response that carries JSON and says so, for API Gateway.
pub open spec fn json_response_view(body: JsonView) -> JsonView {
    JsonView::Object(
        map![
            "statusCode"@ => JsonView::Int(200),
            "headers"@ => JsonView::Object(
                map![ "Content-Type"@ => JsonView::Text("application/json"@) ],
            ),
            "body"@ => JsonView::Text(compact_text(body)),
        ],
    )
}

/// The message that greets `name`.
pub fn hello_message(name: &str) -> (r: Json)
    ensures
        r@ == hello_view(name@),
        is_column_value(r@),
{
    let mut greeting: String = "Hello, ".to_owned();
    greeting.append(name);
    greeting.append("!");
    let mut entries: Vec<(String, Json)> = Vec::new();
    entries.push(("message".to_owned(), Json::Text(greeting)));
    proof {
        lemma_entry_models(entries@);
        reveal_with_fuel(map_of, 2);
        assert(map_of(entry_models(entries@))
            =~= map![ "message"@ => JsonView::Text(greeting_text(name@)) ]);
    }
    Json::Object(entries)
}

/// The response that carries `body` as JSON, with the content type that says so.
pub fn json_response(body: &Json) -> (r: Json)
    ensures
        r@ == json_response_view(body@),
        is_column_value(body@) ==> reads_as(compact_text(body@), body@),
{
    let mut headers: Vec<(String, Json)> = Vec::new();
    headers.push(("Content-Type".to_owned(), Json::Text("application/json".to_owned())));
    let ghost headers_model = entry_models(headers@);
    proof {
        lemma_entry_models(headers@);
    }
    let mut entries: Vec<(String, Json)> = Vec::new();
    entries.push(("statusCode".to_owned(), Json::Unsigned(200)));
    entries.push(("headers".to_owned(), Json::Object(headers)));
    entries.push(("body".to_owned(), Json::Text(body.to_text())));
    proof {
        lemma_entry_models(entries@);
        reveal_with_fuel(map_of, 4);
        assert(map_of(headers_model)
            =~= map![ "Content-Type"@ => JsonView::Text("application/json"@) ]);
        assert(JsonView::Object(map_of(entry_models(entries@))) == json_response_view(body@)) by {
            assert(map_of(entry_models(entries@)) =~= json_response_view(body@)->Object_0);
        }
    }
    Json::Object(entries)
}

} // verus!

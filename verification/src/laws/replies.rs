//! Replies: what the greeting function answers.
use crate::codec::compact_text;
use crate::json::JsonView;
use crate::laws::member;
use crate::reply::{hello_view, json_response_view};
use vstd::prelude::*;

verus! {

/// The message greets by name and says nothing else.
pub proof fn messages_greet_by_name(name: Seq<char>, key: Seq<char>)
    ensures
        hello_view(name) is Object,
        member(hello_view(name), key) is Some <==> key == "message"@,
        member(hello_view(name), "message"@) == Some(
            JsonView::Text("Hello, "@ + name + "!"@),
        ),
{
}

/// Different names are greeted differently.
pub proof fn greetings_differ(first: Seq<char>, second: Seq<char>)
    requires
        hello_view(first) == hello_view(second),
    ensures
        first == second,
{
    messages_greet_by_name(first, "message"@);
    messages_greet_by_name(second, "message"@);
    let (x, y) = ("Hello, "@ + first + "!"@, "Hello, "@ + second + "!"@);
    assert(x == y);
    assert(x.len() == "Hello, "@.len() + first.len() + "!"@.len());
    assert(y.len() == "Hello, "@.len() + second.len() + "!"@.len());
    let n = "Hello, "@.len() as int;
    assert(x.subrange(n, n + first.len()) =~= first);
    assert(y.subrange(n, n + second.len()) =~= second);
}

/// A response succeeds, says that it carries JSON and carries the JSON text of
/// its body, whatever the body is, and has nothing else.
pub proof fn responses_carry_json(body: JsonView, key: Seq<char>)
    ensures
        member(json_response_view(body), key) is Some <==> (key == "statusCode"@ || key
            == "headers"@ || key == "body"@),
        member(json_response_view(body), "statusCode"@) == Some(JsonView::Int(200)),
        member(json_response_view(body), "headers"@) matches Some(headers) && (member(
            headers,
            key,
        ) is Some <==> key == "Content-Type"@) && member(headers, "Content-Type"@) == Some(
            JsonView::Text("application/json"@),
        ),
        member(json_response_view(body), "body"@) == Some(JsonView::Text(compact_text(body))),
{
    reveal_strlit("statusCode");
    reveal_strlit("headers");
    reveal_strlit("body");
    assert("statusCode"@.len() == 10 && "headers"@.len() == 7 && "body"@.len() == 4);
}

} // verus!

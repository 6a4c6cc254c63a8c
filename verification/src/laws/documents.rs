//! Documents: which rows an OTLP document has, and in which order.
use crate::json::JsonView;
use crate::laws::attributes::attributes_are_held_by_key;
use crate::laws::spans::{a_row_shows_its_span, shows_attributes, shows_span};
use crate::laws::{list_under, member, text_under};
use crate::otlp::{
    in_turn, lemma_in_turn_both, resource_attributes, resource_rows, rows_of, scope_of, scope_rows,
    service_name,
};
use crate::span::SpanView;
use vstd::prelude::*;

verus! {

/// `row` carries the attributes of the resource of `resource_span`, and the
/// service name that stands among them.
pub open spec fn carries_resource(resource_span: JsonView, row: SpanView) -> bool {
    &&& match member(resource_span, "resource"@) {
        Some(resource) => shows_attributes(resource, row.resource_attributes),
        None => row.resource_attributes.dom() == Set::<Seq<char>>::empty(),
    }
    &&& row.resource_attributes.dom().contains("service.name"@) ==> row.service_name
        == row.resource_attributes["service.name"@]
    &&& !row.resource_attributes.dom().contains("service.name"@) ==> row.service_name
        == "unknown_service"@
}

/// `row` carries the name and the version of the scope of `scope_span`.
pub open spec fn carries_scope(scope_span: JsonView, row: SpanView) -> bool {
    match member(scope_span, "scope"@) {
        Some(scope) => row.scope_name == text_under(scope, "name"@) && row.scope_version
            == text_under(scope, "version"@),
        None => row.scope_name.len() == 0 && row.scope_version.len() == 0,
    }
}

/// The name of a service is the attribute `service.name` of its resource,
/// whatever other attributes the resource has.
pub proof fn services_are_named_by_their_resource(attributes: Map<Seq<char>, Seq<char>>)
    ensures
        attributes.dom().contains("service.name"@) ==> service_name(attributes)
            == attributes["service.name"@],
        !attributes.dom().contains("service.name"@) ==> service_name(attributes)
            == "unknown_service"@,
{
}

/// What is given for one item alone.
proof fn lemma_in_turn_one<T>(item: JsonView, f: spec_fn(JsonView) -> Seq<T>)
    ensures
        in_turn(seq![item], f) == f(item),
{
    reveal_with_fuel(in_turn, 2);
    assert(seq![item].drop_last() =~= Seq::empty());
    assert(in_turn(seq![item], f) =~= f(item));
}

/// A document without a list of resources has no rows, and a resource without a
/// list of scopes has none.
pub proof fn no_list_has_no_rows(value: JsonView)
    ensures
        list_under(value, "resourceSpans"@) is None ==> rows_of(value).len() == 0,
        list_under(value, "scopeSpans"@) is None ==> resource_rows(value).len() == 0,
{
}

/// The rows of a document with the resources of two documents, one after the
/// other, are the rows of the first and then those of the second.
pub proof fn resources_follow_each_other(first: JsonView, second: JsonView, both: JsonView)
    requires
        list_under(first, "resourceSpans"@) is Some,
        list_under(second, "resourceSpans"@) is Some,
        list_under(both, "resourceSpans"@) == Some(
            list_under(first, "resourceSpans"@)->0 + list_under(second, "resourceSpans"@)->0,
        ),
    ensures
        rows_of(both) == rows_of(first) + rows_of(second),
{
    lemma_in_turn_both(
        list_under(first, "resourceSpans"@)->0,
        list_under(second, "resourceSpans"@)->0,
        |resource_span: JsonView| resource_rows(resource_span),
    );
}

/// The rows of a resource with the scopes of two, one after the other, are the
/// rows of the first and then those of the second.
pub proof fn scopes_follow_each_other(first: JsonView, second: JsonView, both: JsonView)
    requires
        member(first, "resource"@) == member(both, "resource"@),
        member(second, "resource"@) == member(both, "resource"@),
        list_under(first, "scopeSpans"@) is Some,
        list_under(second, "scopeSpans"@) is Some,
        list_under(both, "scopeSpans"@) == Some(
            list_under(first, "scopeSpans"@)->0 + list_under(second, "scopeSpans"@)->0,
        ),
    ensures
        resource_rows(both) == resource_rows(first) + resource_rows(second),
{
    let resource = resource_attributes(both);
    assert(resource_attributes(first) == resource && resource_attributes(second) == resource);
    lemma_in_turn_both(
        list_under(first, "scopeSpans"@)->0,
        list_under(second, "scopeSpans"@)->0,
        |scope_span: JsonView| scope_rows(resource, scope_span),
    );
}

/// A document with one resource has the rows of that resource.
pub proof fn one_resource_has_its_rows(otlp: JsonView, resource_span: JsonView)
    requires
        list_under(otlp, "resourceSpans"@) == Some(seq![resource_span]),
    ensures
        rows_of(otlp) == resource_rows(resource_span),
{
    lemma_in_turn_one(resource_span, |r: JsonView| resource_rows(r));
}

/// A document with one resource that has one scope has a row for each span of
/// the scope, in their order. Each row shows its span and carries the resource
/// and the scope.
pub proof fn each_span_has_its_row(otlp: JsonView, resource_span: JsonView, scope_span: JsonView)
    requires
        list_under(otlp, "resourceSpans"@) == Some(seq![resource_span]),
        list_under(resource_span, "scopeSpans"@) == Some(seq![scope_span]),
    ensures
        list_under(scope_span, "spans"@) is None ==> rows_of(otlp).len() == 0,
        list_under(scope_span, "spans"@) matches Some(spans) ==> rows_of(otlp).len() == spans.len()
            && forall|i: int|
            0 <= i < spans.len() ==> shows_span(spans[i], #[trigger] rows_of(otlp)[i])
                && carries_resource(resource_span, rows_of(otlp)[i]) && carries_scope(
                scope_span,
                rows_of(otlp)[i],
            ),
{
    let resource = resource_attributes(resource_span);
    one_resource_has_its_rows(otlp, resource_span);
    lemma_in_turn_one(scope_span, |s: JsonView| scope_rows(resource, s));
    assert(rows_of(otlp) == scope_rows(resource, scope_span));
    if let Some(value) = member(resource_span, "resource"@) {
        if let Some(items) = list_under(value, "attributes"@) {
            attributes_are_held_by_key(items);
        }
        assert(shows_attributes(value, resource));
    }
    if let Some(spans) = list_under(scope_span, "spans"@) {
        assert forall|i: int| 0 <= i < spans.len() implies shows_span(
            spans[i],
            #[trigger] rows_of(otlp)[i],
        ) && carries_resource(resource_span, rows_of(otlp)[i]) && carries_scope(
            scope_span,
            rows_of(otlp)[i],
        ) by {
            a_row_shows_its_span(spans[i], scope_of(resource, scope_span));
            services_are_named_by_their_resource(resource);
        }
    }
}

} // verus!

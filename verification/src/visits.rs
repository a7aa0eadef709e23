//! What the emitted statements visit when they run.
//!
//! A field is seen here as the handles it holds, under the optionals,
//! collections and cells around them.
//!
//! `visits` says by shape what the statements of `field_statement` and
//! `binding_statement` visit, and proved is that these visits reach every strong
//! handle. That the text of the statements means the same is proved in `run`.

use vstd::prelude::*;

use crate::syntax::{Field, Type};
use crate::trace::{
    cell_inner, collection_value, has_jsg_trace, is_strong, lemma_cell_disjoint,
    lemma_holders_disjoint, optional_inner, shape_of, traceable_type, CollectionIterStyle, Holder,
    OptionalKind, Shape, TraceableType,
};
use crate::traceable::is_traced;

verus! {

/// The value of a field, as far as tracing is concerned.
pub enum Value {
    /// A handle, with the number of the object it leads to.
    Handle(TraceableType, int),
    /// `Some` or `None` of an optional.
    Optional(OptionalKind, Option<Box<Value>>),
    /// The elements of a collection in the order of iteration.
    Elements(Seq<Value>),
    /// The values of a map in the order of iteration.
    Values(Seq<Value>),
    /// The contents of a cell.
    Cell(Box<Value>),
    /// The fields of a struct or of a variant of an enum.
    Nested(Seq<Value>),
    /// Plain data.
    Plain,
}

/// A call of the visitor: the kind of handle that the called method is for, and
/// the object that the handle leads to.
pub struct Visit {
    pub kind: TraceableType,
    pub target: int,
}

/// Whether `value` can be the value of a field of type `ty`.
pub open spec fn has_type(value: Value, ty: Type) -> bool
    decreases value,
{
    match value {
        Value::Handle(kind, _) => kind !is Untraceable && kind == traceable_type(ty),
        Value::Optional(kind, contents) => optional_inner(ty) matches Some((k, inner)) && k == kind
            && match contents {
            Some(contents) => has_type(*contents, inner),
            None => true,
        },
        Value::Elements(elements) => collection_value(ty) matches Some((style, element)) && style
            == CollectionIterStyle::IterElements && forall|i: int|
            0 <= i < elements.len() ==> has_type(#[trigger] elements[i], element),
        Value::Values(values) => collection_value(ty) matches Some((style, inner)) && style
            == CollectionIterStyle::IterValues && forall|i: int|
            0 <= i < values.len() ==> has_type(#[trigger] values[i], inner),
        Value::Cell(contents) => cell_inner(ty) matches Some(inner) && has_type(*contents, inner),
        Value::Nested(_) | Value::Plain => {
            &&& traceable_type(ty) is Untraceable
            &&& optional_inner(ty) is None
            &&& collection_value(ty) is None
            &&& cell_inner(ty) is None
        },
    }
}

/// What is to be visited of `values`, one after the other.
pub open spec fn reachable_in(values: Seq<Value>) -> Seq<Visit>
    decreases values,
{
    if values.len() == 0 {
        Seq::empty()
    } else {
        reachable_in(values.drop_last()) + reachable(values.last())
    }
}

/// What is to be visited of `value`: every strong handle in it, in order, with
/// the method for its kind.
pub open spec fn reachable(value: Value) -> Seq<Visit>
    decreases value,
{
    match value {
        Value::Handle(kind, target) => if kind is Ref || kind is Global {
            seq![Visit { kind, target }]
        } else {
            Seq::empty()
        },
        Value::Optional(_, contents) => match contents {
            Some(contents) => reachable(*contents),
            None => Seq::empty(),
        },
        Value::Elements(elements) => reachable_in(elements),
        Value::Values(values) => reachable_in(values),
        Value::Cell(contents) => reachable(*contents),
        Value::Nested(fields) => reachable_in(fields),
        Value::Plain => Seq::empty(),
    }
}

/// The call of the visitor method for `kind` on the handle `handle`.
pub open spec fn visit(kind: TraceableType, handle: Value) -> Visit
    recommends
        handle is Handle,
{
    Visit { kind, target: handle->Handle_1 }
}

/// The calls that the statement for a field of the shape `shape` makes where
/// the field has the value `value`: one on a bare handle, one on an optional
/// handle that is there, one on each element or value of a collection, and the
/// same on the contents of a cell.
pub open spec fn visits(shape: Shape, value: Value) -> Seq<Visit> {
    let held = if shape.cell {
        *value->Cell_0
    } else {
        value
    };
    match shape.holder {
        Holder::Bare => seq![visit(shape.handle, held)],
        Holder::Optional(_) => match held->Optional_1 {
            Some(handle) => seq![visit(shape.handle, *handle)],
            None => Seq::empty(),
        },
        Holder::Collection(CollectionIterStyle::IterElements) => held->Elements_0.map_values(
            |handle: Value| visit(shape.handle, handle),
        ),
        Holder::Collection(CollectionIterStyle::IterValues) => held->Values_0.map_values(
            |handle: Value| visit(shape.handle, handle),
        ),
    }
}

/// A collection of strong handles is visited handle by handle.
proof fn lemma_reachable_handles(handles: Seq<Value>, kind: TraceableType)
    requires
        is_strong(kind),
        forall|i: int|
            0 <= i < handles.len() ==> (#[trigger] handles[i] matches Value::Handle(k, _) && k
                == kind),
    ensures
        reachable_in(handles) == handles.map_values(|handle: Value| visit(kind, handle)),
    decreases handles.len(),
{
    let all = handles.map_values(|handle: Value| visit(kind, handle));
    if handles.len() == 0 {
        assert(all =~= Seq::empty());
    } else {
        let rest = handles.drop_last();
        assert forall|i: int| 0 <= i < rest.len() implies (#[trigger] rest[i] matches Value::Handle(
            k,
            _,
        ) && k == kind) by {
            assert(rest[i] == handles[i]);
        }
        lemma_reachable_handles(rest, kind);
        let last = handles[handles.len() - 1];
        assert(last is Handle);
        assert(reachable(last) =~= seq![visit(kind, last)]);
        assert(all =~= rest.map_values(|handle: Value| visit(kind, handle)) + reachable(last));
    }
}

/// Tracing a field visits every strong handle in it exactly once, each with the
/// method for its kind, and nothing else.
pub proof fn law_every_handle_is_visited(ty: Type, value: Value)
    requires
        shape_of(ty) is Some,
        has_type(value, ty),
    ensures
        visits(shape_of(ty)->0, value) == reachable(value),
{
    let shape = shape_of(ty)->0;
    lemma_cell_disjoint(ty);
    lemma_holders_disjoint(ty);
    let (held, held_ty) = if shape.cell {
        (*value->Cell_0, cell_inner(ty)->0)
    } else {
        (value, ty)
    };
    lemma_cell_disjoint(held_ty);
    lemma_holders_disjoint(held_ty);
    assert(has_type(held, held_ty));
    assert(reachable(value) == reachable(held));
    match shape.holder {
        Holder::Bare => {
            assert(held is Handle);
            assert(visits(shape, value) =~= reachable(held));
        },
        Holder::Optional(_) => {
            assert(held is Optional);
            if let Some(handle) = held->Optional_1 {
                let (_, inner) = optional_inner(held_ty)->0;
                assert(has_type(*handle, inner));
                lemma_strong_is_handle(*handle, inner);
                assert(reachable(held) == reachable(*handle));
            }
            assert(visits(shape, value) =~= reachable(held));
        },
        Holder::Collection(style) => {
            let (_, inner) = collection_value(held_ty)->0;
            let handles = match style {
                CollectionIterStyle::IterElements => held->Elements_0,
                CollectionIterStyle::IterValues => held->Values_0,
            };
            assert forall|i: int| 0 <= i < handles.len() implies (#[trigger] handles[i] matches Value::Handle(
                k,
                _,
            ) && k == shape.handle) by {
                assert(has_type(handles[i], inner));
                lemma_strong_is_handle(handles[i], inner);
            }
            lemma_reachable_handles(handles, shape.handle);
        },
    }
}

/// The values of a handle type are handles of that kind.
proof fn lemma_strong_is_handle(value: Value, ty: Type)
    requires
        is_strong(traceable_type(ty)),
        has_type(value, ty),
    ensures
        value matches Value::Handle(kind, _) && kind == traceable_type(ty),
{
    lemma_cell_disjoint(ty);
    lemma_holders_disjoint(ty);
}

/// The calls that tracing a struct, or a variant, with the fields `fields`
/// makes where the fields have the values `values`: for each field, in order,
/// those of its own `trace`, given by `own`, where the field is marked
/// `#[jsg_trace]`, else those of the statement for its shape, where it has one.
pub open spec fn body_visits(
    fields: Seq<Field>,
    values: Seq<Value>,
    own: spec_fn(Value) -> Seq<Visit>,
) -> Seq<Visit>
    decreases fields.len(),
{
    if fields.len() == 0 {
        Seq::empty()
    } else {
        body_visits(fields.drop_last(), values.drop_last(), own) + (if has_jsg_trace(
            fields.last(),
        ) {
            own(values.last())
        } else {
            match shape_of(fields.last().ty) {
                Some(shape) => visits(shape, values.last()),
                None => Seq::empty(),
            }
        })
    }
}

/// Tracing a struct or a variant visits every strong handle in it exactly once,
/// each with the method for its kind, and nothing else. The fields that are not
/// traced must hold no strong handles, and the fields that are marked
/// `#[jsg_trace]` must be of types whose own `trace` does the same; so nested
/// types are traced to any depth.
pub proof fn law_trace_visits_every_handle(
    fields: Seq<Field>,
    values: Seq<Value>,
    own: spec_fn(Value) -> Seq<Visit>,
)
    requires
        fields.len() == values.len(),
        forall|i: int|
            0 <= i < fields.len() ==> if has_jsg_trace(#[trigger] fields[i]) {
                own(values[i]) == reachable(values[i])
            } else {
                has_type(values[i], fields[i].ty)
            },
        forall|i: int|
            0 <= i < fields.len() && !is_traced(#[trigger] fields[i]) ==> reachable(values[i])
                == Seq::<Visit>::empty(),
    ensures
        body_visits(fields, values, own) == reachable(Value::Nested(values)),
    decreases fields.len(),
{
    if fields.len() > 0 {
        let (first, rest) = (fields.drop_last(), values.drop_last());
        assert forall|i: int| 0 <= i < first.len() implies if has_jsg_trace(#[trigger] first[i]) {
            own(rest[i]) == reachable(rest[i])
        } else {
            has_type(rest[i], first[i].ty)
        } by {
            assert(first[i] == fields[i] && rest[i] == values[i]);
        }
        assert forall|i: int|
            0 <= i < first.len() && !is_traced(#[trigger] first[i]) implies reachable(rest[i])
            == Seq::<Visit>::empty() by {
            assert(first[i] == fields[i] && rest[i] == values[i]);
        }
        law_trace_visits_every_handle(first, rest, own);
        let field = fields[fields.len() - 1];
        if !has_jsg_trace(field) && shape_of(field.ty) is Some {
            law_every_handle_is_visited(field.ty, values.last());
        }
        assert(reachable_in(values) == reachable_in(rest) + reachable(values.last()));
    }
    assert(reachable(Value::Nested(values)) == reachable_in(values));
    assert(body_visits(fields, values, own) =~= reachable_in(values));
}

} // verus!

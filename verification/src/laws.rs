//! What holds of the macros as a whole.

use vstd::prelude::*;

use crate::attrs::{
    arg_views, first_attr, has_custom_trace, has_flag, is_name, is_written_name,
    may_be_explicit_name, may_be_read, name_value, read_name, view_args, view_string, AttrArg,
    AttrValue,
};
use crate::code::{code, lemma_code_injective, Code, Sym};
use crate::expand::{gc_impl, name_or, trace_body};
use crate::names::{ascii_upper, camel, decimal, digit, is_raw};
use crate::resource::{
    are_written_item_names, argument_unwraps, argument_variable, argument_variables, callbacks_nameable, constant_member,
    constant_members, constructor_error, constructor_of, constructor_registration, constructors,
    has_receiver, is_written_item_name, js_parameters, lock_ref, may_be_item_name,
    may_be_item_names, member_of_constant, member_of_method,
    members, method_member, method_members, methods_nameable, named_items, parameter_type,
    parameters, registering_attr, resource_struct, returns_self, takes_lock, view_names,
};
use crate::spelling::{
    args_text, is_blank, is_valid_char, is_word_char, law_spelling_is_unambiguous, lemma_plain_text,
    list_spelling, no_escapes, reserved_words, Arg, ArgSpelling, ArgValue, ListSpelling,
    LiteralSpelling, ValueSpelling,
};
use crate::syntax::{
    path_idents, Attribute, Data, DeriveInput, Field, Fields, FnArg, GenericArgument, ImplItem,
    ImplItemFn, ItemImpl, Meta, PathArguments, SourceType, Type, Variant,
};
use crate::trace::{
    argument_type, cell_inner, collection_value, delegate_statement, direct_shape, field_statement,
    has_jsg_trace, is_jsg_trace, is_strong, lemma_cell_disjoint, lemma_holders_disjoint,
    optional_inner, shape_of, statement_of_field, trace_statement, trace_statements, traceable_type,
    type_arguments, view_option, CollectionIterStyle, Holder, OptionalKind, Shape,
};
use crate::traceable::{
    binding_of_named, binding_statement, emitted_attrs, enum_arms, field_stripped, input_stripped,
    is_traced, positional, statement_of_named, tuple_bindings, tuple_statements, variant_arm,
    variant_statement, variant_stripped,
};

verus! {

// ---------------------------------------------------------------------------
// Which fields are traced
// ---------------------------------------------------------------------------

/// Fields of every supported shape are traced: strong handles, optionals and
/// collections of strong handles, and all of these inside a `Cell`.
pub proof fn law_supported_shapes(ty: Type)
    ensures
        is_strong(traceable_type(ty)) ==> shape_of(ty) == Some(
            Shape { cell: false, holder: Holder::Bare, handle: traceable_type(ty) },
        ),
        optional_inner(ty) matches Some((kind, inner)) ==> is_strong(traceable_type(inner)) ==> {
            shape_of(ty) == Some(
                Shape {
                    cell: false,
                    holder: Holder::Optional(kind),
                    handle: traceable_type(inner),
                },
            )
        },
        collection_value(ty) matches Some((style, value)) ==> is_strong(traceable_type(value))
            ==> {
            shape_of(ty) == Some(
                Shape {
                    cell: false,
                    holder: Holder::Collection(style),
                    handle: traceable_type(value),
                },
            )
        },
        cell_inner(ty) matches Some(inner) ==> direct_shape(inner) matches Some(shape) ==> {
            shape_of(ty) == Some(Shape { cell: true, ..shape })
        },
{
    lemma_cell_disjoint(ty);
    lemma_holders_disjoint(ty);
}

/// Nothing but the supported shapes is traced.
pub proof fn law_only_supported_shapes(ty: Type)
    requires
        shape_of(ty) is Some,
    ensures
        ({
            let shape = shape_of(ty)->0;
            let held = if shape.cell {
                cell_inner(ty)->0
            } else {
                ty
            };
            &&& is_strong(shape.handle)
            &&& shape.cell == (cell_inner(ty) is Some)
            &&& match shape.holder {
                Holder::Bare => traceable_type(held) == shape.handle,
                Holder::Optional(kind) => optional_inner(held) matches Some((k, inner)) && k == kind
                    && traceable_type(inner) == shape.handle,
                Holder::Collection(style) => collection_value(held) matches Some((s, value)) && s
                    == style && traceable_type(value) == shape.handle,
            }
        }),
{
}

/// Weak references are not traced, bare or inside any holder.
pub proof fn law_weak_is_not_traced(ty: Type)
    ensures
        traceable_type(ty) is Weak ==> shape_of(ty) is None,
        optional_inner(ty) matches Some((_, inner)) ==> traceable_type(inner) is Weak
            ==> shape_of(ty) is None,
        collection_value(ty) matches Some((_, value)) ==> traceable_type(value) is Weak
            ==> shape_of(ty) is None,
        cell_inner(ty) matches Some(inner) ==> traceable_type(inner) is Weak ==> shape_of(ty)
            is None,
{
    lemma_cell_disjoint(ty);
    lemma_holders_disjoint(ty);
    if let Some(inner) = cell_inner(ty) {
        lemma_holders_disjoint(inner);
    }
}

/// Holders do not nest: an optional or a collection of anything but a strong
/// handle is not traced, nor is a `Cell` inside a `Cell`.
pub proof fn law_nesting_is_not_recursive(ty: Type)
    ensures
        optional_inner(ty) matches Some((_, inner)) ==> !is_strong(traceable_type(inner))
            ==> shape_of(ty) is None,
        collection_value(ty) matches Some((_, value)) ==> !is_strong(traceable_type(value))
            ==> shape_of(ty) is None,
        cell_inner(ty) matches Some(inner) ==> cell_inner(inner) is Some ==> shape_of(ty) is None,
{
    lemma_cell_disjoint(ty);
    lemma_holders_disjoint(ty);
    if let Some(inner) = cell_inner(ty) {
        lemma_cell_disjoint(inner);
    }
}

/// Every field shape that is traced in a struct is traced in a variant and the
/// other way round, and both visit the same kind of handle in the same holder.
pub proof fn law_structs_and_variants_agree(field: Field, binding: Seq<Sym>)
    requires
        field.ident is Some,
    ensures
        trace_statement(field) is Some <==> is_traced(field),
        variant_statement(field, binding) is Some <==> is_traced(field),
        !has_jsg_trace(field) ==> match shape_of(field.ty) {
            Some(shape) => {
                &&& trace_statement(field) == Some(field_statement(field.ident->0@, shape))
                &&& variant_statement(field, binding) == Some(binding_statement(binding, shape))
            },
            None => trace_statement(field) is None && variant_statement(field, binding) is None,
        },
{
}

/// A field marked `#[jsg_trace]` is left to its own `trace`, whatever its type.
pub proof fn law_marked_fields_delegate(field: Field, binding: Seq<Sym>)
    requires
        has_jsg_trace(field),
        field.ident is Some,
    ensures
        trace_statement(field) == Some(delegate_statement(field.ident->0@)),
        variant_statement(field, binding) == Some(
            code("jsg::GarbageCollected::trace("@) + binding + code(", visitor);"@),
        ),
{
}

/// What a sequence maps to is what its two parts map to, one after the other.
proof fn lemma_filter_map_add<A, B>(left: Seq<A>, right: Seq<A>, f: spec_fn(A) -> Option<B>)
    ensures
        (left + right).filter_map(f) == left.filter_map(f) + right.filter_map(f),
    decreases right.len(),
{
    if right.len() == 0 {
        assert(left + right =~= left);
        assert(left.filter_map(f) + right.filter_map(f) =~= left.filter_map(f));
    } else {
        lemma_filter_map_add(left, right.drop_last(), f);
        assert((left + right).drop_last() =~= left + right.drop_last());
        assert((left + right).filter_map(f) =~= left.filter_map(f) + right.filter_map(f));
    }
}

/// What an element maps to is among what the sequence maps to, after what the
/// elements before it map to.
proof fn lemma_filter_map_at<A, B>(s: Seq<A>, f: spec_fn(A) -> Option<B>, i: int)
    requires
        0 <= i < s.len(),
    ensures
        f(s[i]) matches Some(b) ==> {
            let place = s.take(i).filter_map(f).len() as int;
            place < s.filter_map(f).len() && s.filter_map(f)[place] == b
        },
{
    s.lemma_filter_map_take_succ(f, i);
    lemma_filter_map_add(s.take(i + 1), s.skip(i + 1), f);
    assert(s.take(i + 1) + s.skip(i + 1) =~= s);
}

/// Of the fields of a struct every one that is traced has its statement in the
/// body of `trace`, at the place that the traced fields before it leave it, and
/// the body has no other statements.
pub proof fn law_every_traced_field_has_a_statement(fields: Seq<Field>, i: int)
    requires
        0 <= i < fields.len(),
    ensures
        trace_statement(fields[i]) matches Some(statement) ==> {
            let place = trace_statements(fields.take(i)).len() as int;
            place < trace_statements(fields).len() && trace_statements(fields)[place] == statement
        },
        trace_statements(fields).len() <= fields.len(),
        forall|k: int|
            0 <= k < trace_statements(fields).len() ==> exists|j: int|
                0 <= j < fields.len() && trace_statement(#[trigger] fields[j]) == Some(
                    #[trigger] trace_statements(fields)[k],
                ),
{
    let f = statement_of_field();
    lemma_filter_map_at(fields, f, i);
    lemma_filter_map_len(fields, f);
    assert forall|k: int| 0 <= k < trace_statements(fields).len() implies exists|j: int|
        0 <= j < fields.len() && trace_statement(#[trigger] fields[j]) == Some(
            #[trigger] trace_statements(fields)[k],
        ) by {
        lemma_filter_map_source(fields, f, k);
        let j = choose|j: int| 0 <= j < fields.len() && f(#[trigger] fields[j]) == Some(fields.filter_map(f)[k]);
        assert(trace_statement(fields[j]) == Some(trace_statements(fields)[k]));
    }
}

proof fn lemma_filter_map_len<A, B>(s: Seq<A>, f: spec_fn(A) -> Option<B>)
    ensures
        s.filter_map(f).len() <= s.len(),
    decreases s.len(),
{
    if s.len() > 0 {
        lemma_filter_map_len(s.drop_last(), f);
    }
}

proof fn lemma_filter_map_source<A, B>(s: Seq<A>, f: spec_fn(A) -> Option<B>, k: int)
    requires
        0 <= k < s.filter_map(f).len(),
    ensures
        exists|j: int| 0 <= j < s.len() && f(#[trigger] s[j]) == Some(s.filter_map(f)[k]),
    decreases s.len(),
{
    let rest = s.drop_last();
    if k < rest.filter_map(f).len() {
        lemma_filter_map_source(rest, f, k);
        let j = choose|j: int| 0 <= j < rest.len() && f(#[trigger] rest[j]) == Some(rest.filter_map(f)[k]);
        assert(s[j] == rest[j]);
    } else {
        assert(f(s[s.len() - 1]) == Some(s.filter_map(f)[k]));
    }
}

/// The statements of two runs of fields stand in the order of the fields: first
/// those of the first run, then those of the second.
pub proof fn law_statements_keep_the_order(first: Seq<Field>, second: Seq<Field>)
    ensures
        trace_statements(first + second) == trace_statements(first) + trace_statements(second),
{
    lemma_filter_map_add(first, second, statement_of_field());
}

// ---------------------------------------------------------------------------
// Variants
// ---------------------------------------------------------------------------

/// An enum gets one arm per variant, in the order of the variants.
pub proof fn law_one_arm_per_variant(variants: Seq<Variant>)
    ensures
        enum_arms(variants).len() == variants.len(),
        forall|i: int|
            0 <= i < variants.len() ==> #[trigger] enum_arms(variants)[i] == variant_arm(
                variants[i],
            ),
{
}

/// There are as many bindings as statements in the arm of a variant with named
/// fields.
proof fn lemma_named_arm_len(fields: Seq<Field>)
    ensures
        fields.filter_map(binding_of_named()).len() == fields.filter_map(
            statement_of_named(),
        ).len(),
    decreases fields.len(),
{
    if fields.len() > 0 {
        lemma_named_arm_len(fields.drop_last());
    }
}

/// Each binding and the statement in its place belong to one field.
proof fn lemma_named_arm_source(fields: Seq<Field>, k: int)
    requires
        0 <= k < fields.filter_map(binding_of_named()).len(),
    ensures
        binds_a_field(fields, k),
    decreases fields.len(),
{
    lemma_named_arm_len(fields);
    let rest = fields.drop_last();
    lemma_named_arm_len(rest);
    if k < rest.filter_map(binding_of_named()).len() {
        lemma_named_arm_source(rest, k);
        let j = choose|j: int| 0 <= j < rest.len() && is_bound_in_arm(#[trigger] rest[j], rest, k);
        assert(fields[j] == rest[j]);
        assert(is_bound_in_arm(fields[j], fields, k));
    } else {
        assert(is_bound_in_arm(fields[fields.len() - 1], fields, k));
    }
}

/// Whether the arm of a variant with the named fields `fields` binds `field` to
/// its name with its `k`-th binding, and traces it through that binding with
/// its `k`-th statement.
pub open spec fn is_bound_in_arm(field: Field, fields: Seq<Field>, k: int) -> bool {
    let bindings = fields.filter_map(binding_of_named());
    let statements = fields.filter_map(statement_of_named());
    &&& 0 <= k < bindings.len()
    &&& k < statements.len()
    &&& field.ident matches Some(name) && bindings[k] == code(name@)
    &&& variant_statement(field, bindings[k]) == Some(statements[k])
}

/// Whether the `k`-th binding and the `k`-th statement in the arm of a variant
/// with the named fields `fields` are those of one of the fields.
pub open spec fn binds_a_field(fields: Seq<Field>, k: int) -> bool {
    exists|j: int| 0 <= j < fields.len() && is_bound_in_arm(#[trigger] fields[j], fields, k)
}

/// The arm of a variant with named fields binds exactly the fields that it
/// traces, in their order: every traced field has a binding and a statement at
/// the place that the traced fields before it leave it, and every binding and
/// statement is that of a field.
pub proof fn law_named_arm_binds_what_it_traces(fields: Seq<Field>, i: int)
    requires
        0 <= i < fields.len(),
    ensures
        fields.filter_map(binding_of_named()).len() == fields.filter_map(
            statement_of_named(),
        ).len(),
        fields[i].ident is Some && is_traced(fields[i]) ==> is_bound_in_arm(
            fields[i],
            fields,
            fields.take(i).filter_map(binding_of_named()).len() as int,
        ),
        forall|k: int|
            0 <= k < fields.filter_map(binding_of_named()).len() ==> #[trigger] binds_a_field(
                fields,
                k,
            ),
{
    lemma_named_arm_len(fields);
    lemma_named_arm_len(fields.take(i));
    lemma_filter_map_at(fields, binding_of_named(), i);
    lemma_filter_map_at(fields, statement_of_named(), i);
    assert forall|k: int|
        0 <= k < fields.filter_map(
            binding_of_named(),
        ).len() implies #[trigger] binds_a_field(fields, k) by {
        lemma_named_arm_source(fields, k);
    }
}

/// The statement of a traced field of a tuple variant follows those of the
/// fields before it.
proof fn lemma_tuple_statement_at(fields: Seq<Field>, i: int)
    requires
        0 <= i < fields.len(),
    ensures
        variant_statement(fields[i], positional(i as nat)) matches Some(statement) ==> {
            let place = tuple_statements(fields.take(i)).len() as int;
            place < tuple_statements(fields).len() && tuple_statements(fields)[place] == statement
        },
    decreases fields.len(),
{
    let rest = fields.drop_last();
    if i < rest.len() {
        lemma_tuple_statement_at(rest, i);
        assert(rest.take(i) =~= fields.take(i));
        assert(rest[i] == fields[i]);
    } else {
        assert(fields.take(i) =~= rest);
    }
}

/// There is one statement per traced field in the arm of a tuple variant.
proof fn lemma_tuple_statements_len(fields: Seq<Field>)
    ensures
        tuple_statements(fields).len() == fields.filter(|field: Field| is_traced(field)).len(),
    decreases fields.len(),
{
    reveal(Seq::filter);
    if fields.len() > 0 {
        lemma_tuple_statements_len(fields.drop_last());
    }
}

/// The fields of tuple variants are bound to `_f0`, `_f1` and so on, by their
/// place.
pub proof fn law_positional_names(i: nat)
    ensures
        positional(i) == code("_f"@ + decimal(i)),
{
}

/// The arm of a tuple variant has one binding per field, `_` for each that is
/// not traced. Every traced field has one statement, through its binding, at
/// the place that the traced fields before it leave it, and there are no other
/// statements.
pub proof fn law_tuple_arm_binds_every_field(fields: Seq<Field>, i: int)
    requires
        0 <= i < fields.len(),
    ensures
        tuple_bindings(fields).len() == fields.len(),
        !is_traced(fields[i]) ==> tuple_bindings(fields)[i] == code("_"@),
        is_traced(fields[i]) ==> {
            let place = tuple_statements(fields.take(i)).len() as int;
            &&& tuple_bindings(fields)[i] == positional(i as nat)
            &&& place < tuple_statements(fields).len()
            &&& variant_statement(fields[i], tuple_bindings(fields)[i]) == Some(
                tuple_statements(fields)[place],
            )
        },
        tuple_statements(fields).len() == fields.filter(|field: Field| is_traced(field)).len(),
{
    lemma_tuple_statement_at(fields, i);
    lemma_tuple_statements_len(fields);
}

/// A decimal number has a digit, and its last digit and what stands before it
/// determine the number.
proof fn lemma_decimal_injective(a: nat, b: nat)
    requires
        decimal(a) == decimal(b),
    ensures
        a == b,
    decreases a,
{
    lemma_decimal_len(a);
    lemma_decimal_len(b);
    assert(decimal(a).last() == digit(a % 10));
    assert(decimal(b).last() == digit(b % 10));
    assert(a % 10 == b % 10);
    if a >= 10 {
        lemma_decimal_len(a / 10);
        assert(decimal(a).len() >= 2);
        assert(b >= 10);
        assert(decimal(a).drop_last() =~= decimal(a / 10));
        assert(decimal(b).drop_last() =~= decimal(b / 10));
        lemma_decimal_injective(a / 10, b / 10);
    } else {
        if b >= 10 {
            lemma_decimal_len(b / 10);
        }
    }
}

proof fn lemma_decimal_len(n: nat)
    ensures
        decimal(n).len() >= 1,
    decreases n,
{
    if n >= 10 {
        lemma_decimal_len(n / 10);
    }
}

proof fn lemma_numbered_injective(prefix: Seq<char>, a: nat, b: nat)
    requires
        code(prefix + decimal(a)) == code(prefix + decimal(b)),
    ensures
        a == b,
{
    let left = prefix + decimal(a);
    let right = prefix + decimal(b);
    lemma_code_injective(left, right);
    assert(left.skip(prefix.len() as int) =~= decimal(a));
    assert(right.skip(prefix.len() as int) =~= decimal(b));
    lemma_decimal_injective(a, b);
}

/// No two fields of a tuple variant are bound to the same name, and no two
/// arguments of a constructor are held in the same variable.
pub proof fn law_made_up_names_are_distinct(i: nat, j: nat)
    requires
        i != j,
    ensures
        positional(i) != positional(j),
        argument_variable(i) != argument_variable(j),
{
    if positional(i) == positional(j) {
        lemma_numbered_injective("_f"@, i, j);
    }
    if argument_variable(i) == argument_variable(j) {
        lemma_numbered_injective("arg"@, i, j);
    }
}

// ---------------------------------------------------------------------------
// The marker
// ---------------------------------------------------------------------------

/// The fields of a definition whose markers are removed.
pub open spec fn marked_fields(data: Data, fields: Seq<Field>) -> bool {
    match data {
        Data::Struct(Fields::Named(named)) => fields == named@,
        Data::Enum(variants) => exists|i: int|
            0 <= i < variants@.len() && match (#[trigger] variants@[i]).fields {
                Fields::Named(named) => fields == named@,
                Fields::Unnamed(unnamed) => fields == unnamed@,
                Fields::Unit => false,
            },
        _ => false,
    }
}

/// No emitted definition holds the marker `#[jsg_trace]` on a field that
/// tracing looks at.
pub proof fn law_no_marker_is_emitted(
    before: DeriveInput,
    after: DeriveInput,
    fields: Seq<Field>,
    i: int,
)
    requires
        input_stripped(before, after),
        marked_fields(after.data, fields),
        0 <= i < fields.len(),
    ensures
        !has_jsg_trace(fields[i]),
{
    match (before.data, after.data) {
        (Data::Struct(Fields::Named(b)), Data::Struct(Fields::Named(a))) => {
            lemma_field_unmarked(b@[i], a@[i]);
        },
        (Data::Enum(b), Data::Enum(a)) => {
            let k = choose|k: int|
                0 <= k < a@.len() && match (#[trigger] a@[k]).fields {
                    Fields::Named(named) => fields == named@,
                    Fields::Unnamed(unnamed) => fields == unnamed@,
                    Fields::Unit => false,
                };
            assert(variant_stripped(b@[k], a@[k]));
            match (b@[k].fields, a@[k].fields) {
                (Fields::Named(x), Fields::Named(y)) => lemma_field_unmarked(x@[i], y@[i]),
                (Fields::Unnamed(x), Fields::Unnamed(y)) => lemma_field_unmarked(x@[i], y@[i]),
                _ => {},
            }
        },
        _ => {},
    }
}

proof fn lemma_field_unmarked(before: Field, after: Field)
    requires
        field_stripped(before, after),
    ensures
        !has_jsg_trace(after),
{
    let kept = |attr: Attribute| !is_jsg_trace(attr);
    assert forall|i: int| 0 <= i < after.attrs@.len() implies !is_jsg_trace(
        #[trigger] after.attrs@[i],
    ) by {
        before.attrs@.lemma_filter_pred(kept, i);
    }
}

/// All other attributes of a field are emitted again, and no attribute that the
/// field does not have.
pub proof fn law_other_attributes_survive(before: Field, after: Field, attr: Attribute)
    requires
        field_stripped(before, after),
    ensures
        after.attrs@.contains(attr) <==> before.attrs@.contains(attr) && !is_jsg_trace(attr),
{
    let kept = |attr: Attribute| !is_jsg_trace(attr);
    if before.attrs@.contains(attr) && !is_jsg_trace(attr) {
        let i = before.attrs@.index_of(attr);
        before.attrs@.lemma_filter_contains(kept, i);
    }
    if after.attrs@.contains(attr) {
        before.attrs@.lemma_filter_contains_rev(kept, attr);
        let i = after.attrs@.index_of(attr);
        before.attrs@.lemma_filter_pred(kept, i);
    }
}

/// A field without the marker keeps its attributes as they are; so removing
/// markers a second time changes nothing.
pub proof fn law_unmarked_fields_are_kept(before: Field, after: Field)
    requires
        field_stripped(before, after),
        !has_jsg_trace(before),
    ensures
        after.attrs@ == before.attrs@,
{
    lemma_emitted_all(before.attrs@);
}

proof fn lemma_emitted_all(attrs: Seq<Attribute>)
    requires
        forall|i: int| 0 <= i < attrs.len() ==> !is_jsg_trace(#[trigger] attrs[i]),
    ensures
        emitted_attrs(attrs) == attrs,
    decreases attrs.len(),
{
    reveal(Seq::filter);
    if attrs.len() > 0 {
        let rest = attrs.drop_last();
        assert forall|i: int| 0 <= i < rest.len() implies !is_jsg_trace(#[trigger] rest[i]) by {
            assert(rest[i] == attrs[i]);
        }
        lemma_emitted_all(rest);
        assert(!is_jsg_trace(attrs[attrs.len() - 1]));
        assert(emitted_attrs(attrs) =~= rest.push(attrs.last()));
    }
}

// ---------------------------------------------------------------------------
// Resources
// ---------------------------------------------------------------------------

/// `custom_trace` leaves out the implementation of `jsg::GarbageCollected` and
/// nothing else.
pub proof fn law_custom_trace_omits_only_tracing(
    name: Seq<char>,
    fields: Seq<Field>,
    class_name: Seq<char>,
)
    ensures
        resource_struct(name, fields, class_name, false) == resource_struct(
            name,
            fields,
            class_name,
            true,
        ) + gc_impl(name, trace_body(trace_statements(fields)), name),
{
    assert(resource_struct(name, fields, class_name, false) =~= resource_struct(
        name,
        fields,
        class_name,
        true,
    ) + gc_impl(name, trace_body(trace_statements(fields)), name));
}

/// The lock is no JavaScript argument: where a constructor takes it first, its
/// JavaScript arguments are the parameters behind it. They are unwrapped and
/// passed under the same indices as without the lock.
pub proof fn law_lock_is_not_an_argument(lock: SourceType, rest: Seq<FnArg>)
    requires
        lock_ref(lock.ty),
    ensures
        takes_lock(seq![FnArg::Typed(lock)] + rest),
        js_parameters(seq![FnArg::Typed(lock)] + rest) == parameters(rest),
        !takes_lock(rest) ==> {
            &&& argument_unwraps(seq![FnArg::Typed(lock)] + rest) == argument_unwraps(rest)
            &&& argument_variables(seq![FnArg::Typed(lock)] + rest) == argument_variables(rest)
        },
{
    let first = seq![FnArg::Typed(lock)];
    let f = parameter_type();
    lemma_filter_map_add(first, rest, f);
    Seq::lemma_filter_map_singleton(FnArg::Typed(lock), f);
    assert(parameters(first + rest) =~= seq![lock] + parameters(rest));
    assert(js_parameters(first + rest) =~= parameters(rest));
    if !takes_lock(rest) {
        assert(argument_unwraps(first + rest) =~= argument_unwraps(rest));
        assert(argument_variables(first + rest) =~= argument_variables(rest));
    }
}

/// A constructor is accepted exactly where it takes no `self` and returns
/// `Self`.
pub proof fn law_valid_constructors(method: ImplItemFn)
    ensures
        constructor_error(method) is None <==> !has_receiver(method.inputs@) && returns_self(
            method.output,
        ),
{
}

/// More than one constructor is refused, whatever the constructors are.
pub proof fn law_only_one_constructor(items: Seq<ImplItem>, self_ty: usize, i: int, j: int)
    requires
        0 <= i < j < items.len(),
        constructor_of()(items[i]) is Some,
        constructor_of()(items[j]) is Some,
    ensures
        constructor_registration(items, self_ty) == Some(
            code("compile_error!(\"only one #[jsg_constructor] is allowed per impl block\");"@),
        ),
{
    let f = constructor_of();
    let head = items.take(j);
    lemma_filter_map_at(head, f, i);
    assert(head[i] == items[i]);
    lemma_filter_map_at(items, f, j);
    assert(constructors(items).len() >= 2);
}

/// An impl block without a constructor registers none.
pub proof fn law_no_constructor(items: Seq<ImplItem>, self_ty: usize)
    requires
        forall|i: int| 0 <= i < items.len() ==> constructor_of()(#[trigger] items[i]) is None,
    ensures
        constructor_registration(items, self_ty) is None,
{
    if constructors(items).len() > 0 {
        lemma_filter_map_source(items, constructor_of(), 0);
    }
}

/// Every item marked `#[jsg_method]` or `#[jsg_static_constant]` is registered.
pub proof fn law_every_marked_item_is_registered(
    impl_block: ItemImpl,
    names: Seq<Option<Seq<char>>>,
    i: int,
)
    requires
        0 <= i < impl_block.items@.len(),
        names.len() == impl_block.items@.len(),
        registering_attr(impl_block.items@[i]) is Some,
    ensures
        match impl_block.items@[i] {
            ImplItem::Fn(method) => members(impl_block, names).contains(
                method_member(method, names[i]),
            ),
            ImplItem::Const(constant) => members(impl_block, names).contains(
                constant_member(constant, names[i]),
            ),
            ImplItem::Other => false,
        },
{
    let items = impl_block.items@;
    let pairs = named_items(items, names);
    let all = members(impl_block, names);
    let methods = method_members(items, names);
    let constants = constant_members(items, names);
    let offset = all.len() - methods.len() - constants.len();
    assert(pairs[i] == (items[i], names[i]));
    match items[i] {
        ImplItem::Fn(method) => {
            let f = member_of_method();
            lemma_filter_map_at(pairs, f, i);
            let place = pairs.take(i).filter_map(f).len() as int;
            assert(all[offset + place] == method_member(method, names[i]));
        },
        ImplItem::Const(constant) => {
            let f = member_of_constant();
            lemma_filter_map_at(pairs, f, i);
            let place = pairs.take(i).filter_map(f).len() as int;
            assert(all[offset + methods.len() + place] == constant_member(constant, names[i]));
        },
        ImplItem::Other => {},
    }
}

// ---------------------------------------------------------------------------
// Arguments
// ---------------------------------------------------------------------------

/// A text that spells a list of arguments has exactly one reading, which is
/// that list: blanks, escapes and a comma at the end make no difference.
pub proof fn law_written_arguments_are_read(list: ListSpelling, read: Option<Seq<Arg>>)
    requires
        list.is_valid(),
    ensures
        may_be_read(list.text(), read) <==> read == Some(list.arg_list()),
{
    assert forall|other: ListSpelling|
        other.is_valid() && list.text() == #[trigger] other.text() implies Some(list.arg_list())
        == Some(other.arg_list()) by {
        law_spelling_is_unambiguous(list, other);
    }
}

// ---------------------------------------------------------------------------
// Names
// ---------------------------------------------------------------------------

/// A name in camel case has no underscores.
pub proof fn law_camel_case_has_no_underscores(name: Seq<char>)
    ensures
        !camel(name).contains('_'),
    decreases name.len(),
{
    if name.len() > 0 {
        law_camel_case_has_no_underscores(name.drop_last());
        let c = name.last();
        let rest = camel(name.drop_last());
        assert(c != '_' ==> ascii_upper(c) != '_');
        assert forall|i: int| 0 <= i < camel(name).len() implies camel(name)[i] != '_' by {
            if i < rest.len() {
                assert(rest[i] == camel(name)[i]);
                assert(rest.contains(rest[i]));
            }
        }
    }
}

/// A name without underscores is in camel case as it is.
pub proof fn law_names_without_underscores_are_kept(name: Seq<char>)
    requires
        !name.contains('_'),
    ensures
        camel(name) == name,
    decreases name.len(),
{
    if name.len() > 0 {
        let rest = name.drop_last();
        assert forall|i: int| 0 <= i < rest.len() implies rest[i] != '_' by {
            assert(name[i] == rest[i]);
            assert(name.contains(name[i]));
        }
        law_names_without_underscores_are_kept(rest);
        assert(name.contains(name.last()));
        if name.len() > 1 {
            assert(name.contains(name[name.len() - 2]));
        }
        assert(camel(name) =~= rest.push(name.last()));
        assert(rest.push(name.last()) =~= name);
    }
}

/// A further word behind an underscore is added in upper case, and the rest of
/// the name stays as it is. An underscore alone adds nothing.
pub proof fn law_camel_case_joins_words(front: Seq<char>, word: Seq<char>)
    requires
        word.len() > 0,
        !word.contains('_'),
    ensures
        camel(front.push('_')) == camel(front),
        camel(front.push('_') + word) == camel(front).push(ascii_upper(word[0])) + word.skip(1),
    decreases word.len(),
{
    let whole = front.push('_') + word;
    let last = word[word.len() - 1];
    assert(word.contains(last));
    assert(whole.last() == last);
    assert(front.push('_').drop_last() =~= front);
    if word.len() == 1 {
        assert(whole.drop_last() =~= front.push('_'));
        assert(camel(front.push('_')) == camel(front));
        assert(whole[whole.len() - 2] == '_');
        assert(camel(whole) =~= camel(front).push(ascii_upper(word[0])) + word.skip(1));
    } else {
        let rest = word.drop_last();
        assert forall|i: int| 0 <= i < rest.len() implies rest[i] != '_' by {
            assert(word[i] == rest[i]);
            assert(word.contains(word[i]));
        }
        law_camel_case_joins_words(front, rest);
        assert(whole.drop_last() =~= front.push('_') + rest);
        assert(whole[whole.len() - 2] == word[word.len() - 2]);
        assert(word.contains(word[word.len() - 2]));
        assert(camel(whole) =~= camel(front).push(ascii_upper(word[0])) + word.skip(1));
    }
}

/// Only the letters from `a` to `z` have an upper case, which is that many
/// places before them as `A` is before `a`.
pub proof fn law_upper_case(c: char)
    ensures
        'a' <= c <= 'z' ==> ascii_upper(c) as int - 'A' as int == c as int - 'a' as int,
        !('a' <= c <= 'z') ==> ascii_upper(c) == c,
{
}

/// The number that a sequence of digits stands for.
pub open spec fn number_of(digits: Seq<char>) -> int
    decreases digits.len(),
{
    if digits.len() == 0 {
        0
    } else {
        10 * number_of(digits.drop_last()) + (digits.last() as int - '0' as int)
    }
}

/// A number in decimal consists of digits, has no leading zero, and is read
/// back as that number.
pub proof fn law_decimal_is_read_back(n: nat)
    ensures
        number_of(decimal(n)) == n,
        decimal(n).len() > 0,
        forall|i: int| 0 <= i < decimal(n).len() ==> '0' <= #[trigger] decimal(n)[i] <= '9',
        n > 0 ==> decimal(n)[0] != '0',
    decreases n,
{
    if n < 10 {
        assert(decimal(n) =~= seq![digit(n)]);
        assert(decimal(n).drop_last() =~= Seq::empty());
        assert(number_of(Seq::empty()) == 0);
        assert(digit(n) as int == 48 + n);
    } else {
        law_decimal_is_read_back(n / 10);
        assert(decimal(n).drop_last() =~= decimal(n / 10));
        assert(digit(n % 10) as int == 48 + n % 10);
        assert(decimal(n)[0] == decimal(n / 10)[0]);
        assert(number_of(decimal(n)) == 10 * number_of(decimal(n / 10)) + n % 10);
    }
}

/// A raw identifier is one that starts with `r#`.
pub proof fn law_raw_identifiers(rest: Seq<char>, ident: Seq<char>)
    ensures
        is_raw("r#"@ + rest),
        is_raw(ident) ==> ident == "r#"@ + ident.skip(2),
{
    reveal_strlit("r#");
    if is_raw(ident) {
        assert(ident =~= "r#"@ + ident.skip(2));
    }
}

// ---------------------------------------------------------------------------
// Which types are which
// ---------------------------------------------------------------------------

/// The identifiers of a path type, in order; none for other types.
pub open spec fn idents_of(ty: Type) -> Seq<Seq<char>> {
    match ty {
        Type::Path(path) => Seq::new(
            path.segments@.len(),
            |i: int| path.segments@[i].ident@,
        ),
        _ => Seq::empty(),
    }
}

/// Handles are the paths `jsg::Rc`, `jsg::Weak` and `jsg::v8::Global`, whatever
/// their arguments, and nothing else is one. `jsg::Rc` and `jsg::v8::Global` are
/// the strong ones.
pub proof fn law_handle_types(ty: Type)
    ensures
        traceable_type(ty) is Ref <==> idents_of(ty) == seq!["jsg"@, "Rc"@],
        traceable_type(ty) is Weak <==> idents_of(ty) == seq!["jsg"@, "Weak"@],
        traceable_type(ty) is Global <==> idents_of(ty) == seq!["jsg"@, "v8"@, "Global"@],
        is_strong(traceable_type(ty)) <==> idents_of(ty) == seq!["jsg"@, "Rc"@] || idents_of(ty)
            == seq!["jsg"@, "v8"@, "Global"@],
{
    reveal_strlit("Rc");
    reveal_strlit("Weak");
    let rc = seq!["jsg"@, "Rc"@];
    let weak = seq!["jsg"@, "Weak"@];
    let global = seq!["jsg"@, "v8"@, "Global"@];
    assert(rc[1].len() == 2 && weak[1].len() == 4);
    assert(rc != weak);
    assert(rc.len() == 2 && weak.len() == 2 && global.len() == 3);
    assert(idents_of(ty).len() == 0 ==> idents_of(ty) != rc && idents_of(ty) != weak && idents_of(ty) != global);
    if let Type::Path(path) = ty {
        assert(idents_of(ty) =~= path_idents(path));
    }
}

/// The arguments in angle brackets of the last segment of a path type.
pub open spec fn last_arguments(ty: Type) -> Seq<GenericArgument> {
    match ty {
        Type::Path(path) => if path.segments@.len() > 0 {
            match path.segments@[path.segments@.len() - 1].arguments {
                PathArguments::AngleBracketed(args) => args@,
                _ => Seq::empty(),
            }
        } else {
            Seq::empty()
        },
        _ => Seq::empty(),
    }
}

/// Optionals are the paths that end in `Option` or `Nullable`, with a type for
/// their first argument, and hold that type.
pub proof fn law_optional_types(ty: Type, kind: OptionalKind, inner: Type)
    ensures
        optional_inner(ty) == Some((kind, inner)) <==> {
            &&& idents_of(ty).len() > 0
            &&& idents_of(ty).last() == (if kind is Option {
                "Option"@
            } else {
                "Nullable"@
            })
            &&& last_arguments(ty).len() > 0
            &&& last_arguments(ty)[0] == GenericArgument::Type(inner)
        },
{
    reveal_strlit("Option");
    reveal_strlit("Nullable");
    assert("Option"@.len() == 6 && "Nullable"@.len() == 8);
    if let Type::Path(path) = ty {
        if path.segments@.len() > 0 {
            assert(idents_of(ty).last() == path.segments@.last().ident@);
        }
    }
}

/// Cells are the paths `Cell` and `std::cell::Cell` with a type for their first
/// argument, and hold that type.
pub proof fn law_cell_types(ty: Type, inner: Type)
    ensures
        cell_inner(ty) == Some(inner) <==> {
            &&& idents_of(ty) == seq!["Cell"@] || idents_of(ty) == seq!["std"@, "cell"@, "Cell"@]
            &&& last_arguments(ty).len() > 0
            &&& last_arguments(ty)[0] == GenericArgument::Type(inner)
        },
{
    if let Type::Path(path) = ty {
        assert(idents_of(ty) =~= path_idents(path));
        assert(idents_of(ty) == seq!["Cell"@] ==> path.segments@.len() == 1);
        assert(idents_of(ty) == seq!["std"@, "cell"@, "Cell"@] ==> path.segments@.len() == 3);
    } else {
        assert(idents_of(ty).len() == 0);
        assert(seq!["Cell"@].len() == 1);
        assert(seq!["std"@, "cell"@, "Cell"@].len() == 3);
    }
}

/// Whether none of `args` is a type.
pub open spec fn no_types(args: Seq<GenericArgument>) -> bool {
    forall|i: int| 0 <= i < args.len() ==> #[trigger] args[i] is Other
}

proof fn lemma_no_types(args: Seq<GenericArgument>)
    requires
        no_types(args),
    ensures
        args.filter_map(argument_type()).len() == 0,
    decreases args.len(),
{
    reveal(Seq::filter_map);
    if args.len() > 0 {
        let rest = args.drop_last();
        assert forall|i: int| 0 <= i < rest.len() implies #[trigger] rest[i] is Other by {
            assert(rest[i] == args[i]);
        }
        lemma_no_types(rest);
        assert(args[args.len() - 1] is Other);
    }
}

proof fn lemma_first_type(
    before: Seq<GenericArgument>,
    ty: Type,
    after: Seq<GenericArgument>,
)
    requires
        no_types(before),
    ensures
        (before.push(GenericArgument::Type(ty)) + after).filter_map(argument_type()) == seq![ty]
            + after.filter_map(argument_type()),
{
    let f = argument_type();
    lemma_no_types(before);
    let one = before.push(GenericArgument::Type(ty));
    lemma_filter_map_add(one, after, f);
    reveal(Seq::filter_map);
    assert(one.drop_last() =~= before);
    assert(one.filter_map(f) =~= seq![ty]);
}

/// Collections are the paths that end in `Vec`, `HashSet` or `BTreeSet`, which
/// hold their first type argument, and those that end in `HashMap` or
/// `BTreeMap`, which hold their second and are iterated by value. No other path
/// is a collection, nor is one without that argument.
pub proof fn law_collection_types(
    ty: Type,
    before: Seq<GenericArgument>,
    first: Type,
    between: Seq<GenericArgument>,
    second: Type,
    after: Seq<GenericArgument>,
)
    requires
        idents_of(ty).len() > 0,
        no_types(before),
        no_types(between),
    ensures
        ({
            let name = idents_of(ty).last();
            let of_elements = name == "Vec"@ || name == "HashSet"@ || name == "BTreeSet"@;
            let of_values = name == "HashMap"@ || name == "BTreeMap"@;
            let args = last_arguments(ty);
            let (a, b) = (GenericArgument::Type(first), GenericArgument::Type(second));
            &&& of_elements && args == before.push(a) + after ==> collection_value(ty) == Some(
                (CollectionIterStyle::IterElements, first),
            )
            &&& of_values && args == before.push(a) + (between.push(b) + after) ==> collection_value(
                ty,
            ) == Some((CollectionIterStyle::IterValues, second))
            &&& of_values && args == before.push(a) + between ==> collection_value(ty) is None
            &&& no_types(args) ==> collection_value(ty) is None
            &&& !of_elements && !of_values ==> collection_value(ty) is None
        }),
{
    reveal_strlit("Vec");
    reveal_strlit("HashSet");
    reveal_strlit("BTreeSet");
    reveal_strlit("HashMap");
    reveal_strlit("BTreeMap");
    assert("HashMap"@[4] == 'M' && "HashSet"@[4] == 'S');
    assert("BTreeMap"@[5] == 'M' && "BTreeSet"@[5] == 'S');
    assert("Vec"@.len() == 3 && "HashMap"@.len() == 7 && "BTreeMap"@.len() == 8);
    let args = last_arguments(ty);
    let f = argument_type();
    if let Type::Path(path) = ty {
        let segment = path.segments@.last();
        assert(idents_of(ty).last() == segment.ident@);
        reveal(Seq::filter_map);
        assert(type_arguments(segment.arguments) =~= args.filter_map(f));
        lemma_first_type(before, first, after);
        lemma_first_type(before, first, between.push(GenericArgument::Type(second)) + after);
        lemma_first_type(between, second, after);
        lemma_first_type(before, first, between);
        lemma_no_types(between);
        if no_types(args) {
            lemma_no_types(args);
        }
    }
}

/// What is traced, by the type: a strong handle; an optional or a collection of
/// strong handles; and a cell with any of these. Nothing else.
pub proof fn law_traced_types(ty: Type)
    ensures
        shape_of(ty) is Some <==> match cell_inner(ty) {
            Some(inner) => holds_strong_handles(inner),
            None => holds_strong_handles(ty),
        },
{
    lemma_holders_disjoint(ty);
    if let Some(inner) = cell_inner(ty) {
        lemma_holders_disjoint(inner);
    }
}

/// Whether `ty` is a strong handle, or an optional or a collection of strong
/// handles.
pub open spec fn holds_strong_handles(ty: Type) -> bool {
    let is_strong_handle = |ty: Type|
        traceable_type(ty) is Ref || traceable_type(ty) is Global;
    ||| is_strong_handle(ty)
    ||| optional_inner(ty) matches Some((_, inner)) && is_strong_handle(inner)
    ||| collection_value(ty) matches Some((_, inner)) && is_strong_handle(inner)
}

// ---------------------------------------------------------------------------
// What is kept of a definition
// ---------------------------------------------------------------------------

/// Whether `attr` is `#[jsg_trace]`.
pub open spec fn is_marker(attr: Attribute) -> bool {
    &&& !attr.path.leading_colon
    &&& attr.path.segments@.len() == 1
    &&& attr.path.segments@[0].arguments is Absent
    &&& attr.path.segments@[0].ident@ == "jsg_trace"@
}

/// Of the attributes of a field all but the markers are emitted, in order.
pub proof fn law_emitted_attributes(attrs: Seq<Attribute>, attr: Attribute)
    ensures
        emitted_attrs(Seq::empty()) == Seq::<Attribute>::empty(),
        emitted_attrs(attrs.push(attr)) == if is_marker(attr) {
            emitted_attrs(attrs)
        } else {
            emitted_attrs(attrs).push(attr)
        },
{
    let kept = |attr: Attribute| !is_jsg_trace(attr);
    assert(emitted_attrs(Seq::empty()) =~= Seq::empty()) by {
        reveal(Seq::filter);
    }
    attrs.lemma_filter_push(attr, kept);
}

/// Whether `after` has the fields of `before`, under the same names, with the
/// same types and in the same order.
pub open spec fn same_fields(before: Seq<Field>, after: Seq<Field>) -> bool {
    &&& after.len() == before.len()
    &&& forall|i: int|
        0 <= i < before.len() ==> (#[trigger] after[i]).ident == before[i].ident && after[i].ty
            == before[i].ty && after[i].attrs@ == emitted_attrs(before[i].attrs@)
}

/// Removing the markers keeps a definition as it is in all other respects: its
/// name, its kind, its variants and its fields with their names and types. A
/// tuple struct, a unit struct and a union are not touched.
pub proof fn law_definitions_are_kept(before: DeriveInput, after: DeriveInput)
    requires
        input_stripped(before, after),
    ensures
        after.ident == before.ident,
        match before.data {
            Data::Struct(Fields::Named(b)) => after.data matches Data::Struct(Fields::Named(a))
                && same_fields(b@, a@),
            Data::Enum(b) => after.data matches Data::Enum(a) && a@.len() == b@.len() && forall|
                i: int,
            |
                0 <= i < b@.len() ==> #[trigger] same_variant(b@[i], a@[i]),
            _ => after.data == before.data,
        },
{
    if let (Data::Enum(b), Data::Enum(a)) = (before.data, after.data) {
        assert forall|i: int| 0 <= i < b@.len() implies #[trigger] same_variant(b@[i], a@[i]) by {
            assert(variant_stripped(b@[i], a@[i]));
        }
    }
}

/// Whether `after` is `before` with the same fields.
pub open spec fn same_variant(before: Variant, after: Variant) -> bool {
    &&& after.ident == before.ident
    &&& match before.fields {
        Fields::Named(b) => after.fields matches Fields::Named(a) && same_fields(b@, a@),
        Fields::Unnamed(b) => after.fields matches Fields::Unnamed(a) && same_fields(b@, a@),
        Fields::Unit => after.fields is Unit,
    }
}

// ---------------------------------------------------------------------------
// What arguments say
// ---------------------------------------------------------------------------

/// The first argument `name = "..."` gives the name; others, and further names,
/// make no difference.
pub proof fn law_first_name_counts(args: Seq<Arg>, arg: Arg)
    ensures
        name_value(Seq::empty()) is None,
        name_value(args.push(arg)) == match name_value(args) {
            Some(name) => Some(name),
            None => match (arg.key, arg.value) {
                (Some(key), ArgValue::Str(value)) => if key == "name"@ {
                    Some(value)
                } else {
                    None
                },
                _ => None,
            },
        },
{
    let pred = |arg: Arg| is_name(arg);
    assert(Seq::<Arg>::empty().filter(pred).len() == 0) by {
        reveal(Seq::filter);
    }
    args.lemma_filter_push(arg, pred);
    let (found, all) = (args.filter(pred), args.push(arg).filter(pred));
    if found.len() > 0 {
        assert(all[0] == found[0]);
    } else if is_name(arg) {
        assert(all[0] == arg);
    }
}

/// What is said of arguments, names and code is said of what they hold: each in
/// its place, and nothing where there is nothing.
pub proof fn law_views_hold_everything(
    args: Seq<AttrArg>,
    arg: AttrArg,
    names: Seq<Option<String>>,
    name: String,
    emitted: Code,
)
    ensures
        arg@.key == view_string(arg.key),
        match arg.value {
            AttrValue::Flag => arg@.value is Flag,
            AttrValue::Str(value) => arg@.value == ArgValue::Str(value@),
            AttrValue::Other => arg@.value is Other,
        },
        arg_views(args.push(arg)) == arg_views(args).push(arg@),
        arg_views(Seq::empty()) == Seq::<Arg>::empty(),
        view_args(None) is None,
        forall|vec: Vec<AttrArg>| #[trigger] view_args(Some(vec)) == Some(arg_views(vec@)),
        view_string(Some(name)) == Some(name@),
        view_string(None) is None,
        view_names(names.push(Some(name))) == view_names(names).push(Some(name@)),
        view_names(names.push(None)) == view_names(names).push(None),
        view_names(Seq::empty()) == Seq::<Option<Seq<char>>>::empty(),
        view_option(Some(emitted)) == Some(emitted@),
        view_option(None) is None,
{
    assert(arg_views(args.push(arg)) =~= arg_views(args).push(arg@));
    assert(arg_views(Seq::empty()) =~= Seq::empty());
    assert(view_names(names.push(Some(name))) =~= view_names(names).push(Some(name@)));
    assert(view_names(names.push(None)) =~= view_names(names).push(None));
    assert(view_names(Seq::empty()) =~= Seq::empty());
}

/// A flag is set exactly where it stands among the arguments, without a value.
pub proof fn law_flags(args: Seq<Arg>, arg: Arg, flag: Seq<char>)
    ensures
        !has_flag(Seq::empty(), flag),
        has_flag(args.push(arg), flag) <==> has_flag(args, flag) || (arg.key == Some(flag)
            && arg.value is Flag),
{
    let all = args.push(arg);
    let wanted = Arg { key: Some(flag), value: ArgValue::Flag };
    if has_flag(args, flag) {
        let i = choose|i: int| 0 <= i < args.len() && #[trigger] args[i] == wanted;
        assert(all[i] == wanted);
    }
    if arg == wanted {
        assert(all[args.len() as int] == wanted);
    }
    if has_flag(all, flag) {
        let i = choose|i: int| 0 <= i < all.len() && #[trigger] all[i] == wanted;
        if i < args.len() {
            assert(args[i] == wanted);
        }
    }
}

/// The name that is given counts, and the default where none is given;
/// `custom_trace` is in force where it is given.
pub proof fn law_names_and_defaults(args: Seq<Arg>, name: Seq<char>, default: Seq<char>)
    ensures
        name_or(None, default) == default,
        name_value(args) is None ==> name_or(Some(args), default) == default,
        name_value(args) == Some(name) ==> name_or(Some(args), default) == name,
        !has_custom_trace(None),
        has_custom_trace(Some(args)) <==> has_flag(args, "custom_trace"@),
{
}

/// The explicit name of an item comes from the first attribute that has it
/// registered. An attribute without arguments in brackets gives none, and an
/// item that is not registered has none.
pub proof fn law_explicit_names(item: ImplItem, name: Option<Seq<char>>)
    requires
        may_be_item_name(item, name),
    ensures
        match item {
            ImplItem::Fn(method) => match first_attr(method.attrs@, "jsg_method"@) {
                Some(attr) => may_be_explicit_name(attr, name) && (!(attr.meta is List) ==> name
                    is None),
                None => name is None,
            },
            ImplItem::Const(constant) => match first_attr(
                constant.attrs@,
                "jsg_static_constant"@,
            ) {
                Some(attr) => may_be_explicit_name(attr, name) && (!(attr.meta is List) ==> name
                    is None),
                None => name is None,
            },
            ImplItem::Other => name is None,
        },
{
}

/// Every item has its own explicit name, in its place.
pub proof fn law_every_item_has_its_name(
    items: Seq<ImplItem>,
    names: Seq<Option<Seq<char>>>,
    item: ImplItem,
    name: Option<Seq<char>>,
)
    ensures
        may_be_item_names(Seq::empty(), names) <==> names.len() == 0,
        are_written_item_names(Seq::empty(), names) <==> names.len() == 0,
        may_be_item_names(items.push(item), names.push(name)) <==> may_be_item_names(items, names)
            && may_be_item_name(item, name),
        are_written_item_names(items.push(item), names.push(name)) <==> are_written_item_names(
            items,
            names,
        ) && is_written_item_name(item, name),
{
    let (all, all_names) = (items.push(item), names.push(name));
    let n = items.len() as int;
    if may_be_item_names(all, all_names) {
        assert(may_be_item_name(all[n], all_names[n]));
        assert forall|i: int| 0 <= i < items.len() implies may_be_item_name(
            items[i],
            #[trigger] names[i],
        ) by {
            assert(may_be_item_name(all[i], all_names[i]));
        }
    }
    if may_be_item_names(items, names) && may_be_item_name(item, name) {
        assert forall|i: int| 0 <= i < all.len() implies may_be_item_name(
            all[i],
            #[trigger] all_names[i],
        ) by {
            if i < n {
                assert(may_be_item_name(items[i], names[i]));
            }
        }
    }
    if are_written_item_names(all, all_names) {
        assert(is_written_item_name(all[n], all_names[n]));
        assert forall|i: int| 0 <= i < items.len() implies is_written_item_name(
            items[i],
            #[trigger] names[i],
        ) by {
            assert(is_written_item_name(all[i], all_names[i]));
        }
    }
    if are_written_item_names(items, names) && is_written_item_name(item, name) {
        assert forall|i: int| 0 <= i < all.len() implies is_written_item_name(
            all[i],
            #[trigger] all_names[i],
        ) by {
            if i < n {
                assert(is_written_item_name(items[i], names[i]));
            }
        }
    }
}

/// An attribute whose arguments are spelled in brackets gives the first name
/// among them, and no other; one without brackets gives none.
pub proof fn law_spelled_names_are_given(
    attr: Attribute,
    list: ListSpelling,
    name: Option<Seq<char>>,
)
    requires
        list.is_valid(),
    ensures
        attr.meta matches Meta::List(text) ==> text@ == list.text() ==> {
            &&& may_be_explicit_name(attr, name) <==> name == name_value(list.arg_list())
            &&& is_written_name(attr, name) <==> name == name_value(list.arg_list())
        },
        !(attr.meta is List) ==> {
            &&& may_be_explicit_name(attr, name) <==> name is None
            &&& is_written_name(attr, name) <==> name is None
        },
{
    if let Meta::List(text) = attr.meta {
        if text@ == list.text() {
            let read = Some(list.arg_list());
            law_written_arguments_are_read(list, read);
            assert(may_be_read(text@, read));
            assert(name_value(list.arg_list()) == read_name(read));
            if may_be_explicit_name(attr, name) {
                let args = choose|args: Option<Seq<Arg>>| #[trigger]
                    may_be_read(text@, args) && name == read_name(args);
                law_written_arguments_are_read(list, args);
            }
            if is_written_name(attr, name) {
                let other = choose|other: ListSpelling|
                    other.is_valid() && text@ == #[trigger] other.text() && name == name_value(
                        other.arg_list(),
                    );
                law_spelling_is_unambiguous(list, other);
            }
        }
    }
}

/// Lists of arguments are spelled argument by argument: behind a list that is
/// spelled without an end stands a comma and a further argument.
pub proof fn law_spellings_grow(args: Seq<ArgSpelling>, arg: ArgSpelling, end: Seq<char>)
    requires
        list_spelling(args).is_valid(),
        arg.is_valid(),
        is_blank(end),
    ensures
        ({
            let list = list_spelling(args.push(arg));
            let ended = ListSpelling { args: args.push(arg), end_comma: true, end };
            &&& list.is_valid()
            &&& list.text() == (if args.len() == 0 {
                arg.text()
            } else {
                list_spelling(args).text() + seq![','] + arg.text()
            })
            &&& list.arg_list() == list_spelling(args).arg_list().push(arg.arg())
            &&& ended.is_valid()
            &&& ended.text() == list.text() + seq![','] + end
            &&& ended.arg_list() == list.arg_list()
        }),
{
    let all = args.push(arg);
    let list = list_spelling(all);
    let before = list_spelling(args);
    assert forall|i: int| 0 <= i < all.len() implies (#[trigger] all[i]).is_valid() by {
        if i < args.len() {
            assert(before.args[i].is_valid());
        }
    }
    assert(all.drop_last() =~= args);
    assert(list.text() =~= args_text(all));
    assert(before.text() =~= args_text(args));
    assert(list.arg_list() =~= before.arg_list().push(arg.arg()));
}

/// An argument is a key, or a key with a string or a number behind `=`; blanks
/// may stand on both sides of each. Any plain identifier is a key, and any
/// characters can be written in a string.
pub proof fn law_spelled_arguments(
    before: Seq<char>,
    key: Seq<char>,
    before_eq: Seq<char>,
    after_eq: Seq<char>,
    value: Seq<char>,
    after: Seq<char>,
)
    requires
        is_blank(before),
        is_blank(before_eq),
        is_blank(after_eq),
        is_blank(after),
        key.len() > 0,
        !('0' <= key[0] <= '9'),
        forall|i: int|
            0 <= i < key.len() ==> ('a' <= #[trigger] key[i] <= 'z' || 'A' <= key[i] <= 'Z' || '0'
                <= key[i] <= '9' || key[i] == '_'),
        !reserved_words().contains(key),
        forall|i: int|
            0 <= i < value.len() ==> #[trigger] value[i] != '"' && value[i] != '\\' && value[i]
                != '\r',
    ensures
        ({
            let flag = ArgSpelling { before, key, value: None, after };
            let string = LiteralSpelling::Str(value, no_escapes(value.len()));
            let given = ArgSpelling {
                before,
                key,
                value: Some(ValueSpelling { before_eq, after_eq, literal: string }),
                after,
            };
            &&& flag.is_valid()
            &&& flag.text() == before + key + after
            &&& flag.arg() == (Arg { key: Some(key), value: ArgValue::Flag })
            &&& given.is_valid()
            &&& given.text() == before + key + before_eq + seq!['='] + after_eq + seq!['"'] + value
                + seq!['"'] + after
            &&& given.arg() == (Arg { key: Some(key), value: ArgValue::Str(value) })
        }),
{
    let string = LiteralSpelling::Str(value, no_escapes(value.len()));
    let flag = ArgSpelling { before, key, value: None, after };
    let given = ArgSpelling {
        before,
        key,
        value: Some(ValueSpelling { before_eq, after_eq, literal: string }),
        after,
    };
    let escaped = no_escapes(value.len());
    assert forall|i: int| 0 <= i < value.len() implies is_valid_char(
        #[trigger] value[i],
        escaped[i],
    ) by {}
    assert forall|i: int| 0 <= i < key.len() implies is_word_char(#[trigger] key[i]) by {}
    lemma_plain_text(value);
    assert(flag.text() =~= before + key + after);
    assert(given.text() =~= before + key + before_eq + seq!['='] + after_eq + seq!['"'] + value
        + seq!['"'] + after);
}

/// The callbacks of an impl block have names exactly where none of the methods
/// that are registered, and no constructor that gets a callback, has a raw
/// name; blocks that are refused need none.
pub proof fn law_nameable_callbacks(impl_block: ItemImpl)
    ensures
        callbacks_nameable(impl_block) <==> (impl_block.self_ty.ty is Path ==> {
            &&& forall|i: int|
                0 <= i < impl_block.items@.len() ==> (
                #[trigger] impl_block.items@[i] matches ImplItem::Fn(method) ==> first_attr(
                    method.attrs@,
                    "jsg_method"@,
                ) is Some ==> !is_raw(method.ident@))
            &&& constructors(impl_block.items@).len() == 1 && constructor_error(
                constructors(impl_block.items@)[0],
            ) is None ==> !is_raw(constructors(impl_block.items@)[0].ident@)
        }),
{
    let items = impl_block.items@;
    if methods_nameable(items) {
        assert forall|i: int| 0 <= i < items.len() implies (
        #[trigger] items[i] matches ImplItem::Fn(method) ==> first_attr(
            method.attrs@,
            "jsg_method"@,
        ) is Some ==> !is_raw(method.ident@)) by {
            assert(registering_attr(items[i]) is Some || registering_attr(items[i]) is None);
        }
    }
}

} // verus!

//! Code generation for `#[jsg_traceable]` on enums and plain structs.
//!
//! `#[jsg_traceable]` generates a `jsg::GarbageCollected` implementation whose
//! `trace()` body visits every GC-visible field, both on plain structs and on
//! enums that are state machines. Fields are classified as in the structs of
//! `#[jsg_resource]`.
//!
//! For each variant of an enum the macro emits one `match` arm. The default
//! `memory_name()` is the type name; `#[jsg_traceable(name = "CustomName")]`
//! overrides it.

use vstd::prelude::*;

use crate::attrs::{
    lemma_empty_is_read, lemma_name_is_read, may_be_read, parse_attr_args, view_args, AttrArg,
};
use crate::code::{annotated_item, code, separated, terminated, views, Code, Sym};
use crate::expand::{
    gc_impl, generate_gc_impl, generate_trace_body, get_name_or, name_or, trace_body, CompileError,
    Expansion,
};
use crate::names::{decimal, numbered};
use crate::spelling::{is_plain, name_text, Arg, ListSpelling};
use crate::syntax::{Attribute, Data, DeriveInput, Field, Fields, Type, Variant};
use crate::trace::{
    collection_trace_loop, direct_shape, extract_cell_inner, extract_collection_traceable,
    extract_optional_inner, generate_collection_trace_loop, generate_trace_statements, get_some_constructor,
    get_traceable_type, get_visit_method, has_jsg_trace, has_jsg_trace_attr, is_jsg_trace,
    is_jsg_trace_attr, lemma_holders_disjoint, shape_of, some_constructor, trace_statements, view_option,
    visit_method, Holder, Shape, TraceableType,
};

verus! {

// ---------------------------------------------------------------------------
// Removing the marker
// ---------------------------------------------------------------------------

/// The attributes of `attrs` that are emitted again: all but `#[jsg_trace]`.
pub open spec fn emitted_attrs(attrs: Seq<Attribute>) -> Seq<Attribute> {
    attrs.filter(|attr: Attribute| !is_jsg_trace(attr))
}

/// Whether `after` is `before` without its `#[jsg_trace]` attributes.
pub open spec fn field_stripped(before: Field, after: Field) -> bool {
    &&& after.attrs@ == emitted_attrs(before.attrs@)
    &&& after.ident == before.ident
    &&& after.ty == before.ty
}

/// Whether each of `after` is the field of `before` in its place without its
/// `#[jsg_trace]` attributes.
pub open spec fn fields_stripped(before: Seq<Field>, after: Seq<Field>) -> bool {
    &&& after.len() == before.len()
    &&& forall|i: int| 0 <= i < before.len() ==> field_stripped(before[i], #[trigger] after[i])
}

/// Whether `after` is the variant `before` without the `#[jsg_trace]`
/// attributes of its fields.
pub open spec fn variant_stripped(before: Variant, after: Variant) -> bool {
    &&& after.ident == before.ident
    &&& match (before.fields, after.fields) {
        (Fields::Named(b), Fields::Named(a)) => fields_stripped(b@, a@),
        (Fields::Unnamed(b), Fields::Unnamed(a)) => fields_stripped(b@, a@),
        (Fields::Unit, Fields::Unit) => true,
        _ => false,
    }
}

/// Whether `after` is the definition `before` without the `#[jsg_trace]`
/// attributes of the named fields of a struct, or of the fields of the
/// variants of an enum.
pub open spec fn input_stripped(before: DeriveInput, after: DeriveInput) -> bool {
    &&& after.ident == before.ident
    &&& match (before.data, after.data) {
        (Data::Struct(Fields::Named(b)), Data::Struct(Fields::Named(a))) => fields_stripped(b@, a@),
        (Data::Enum(b), Data::Enum(a)) => {
            &&& a@.len() == b@.len()
            &&& forall|i: int| 0 <= i < b@.len() ==> variant_stripped(b@[i], #[trigger] a@[i])
        },
        (b, a) => b == a,
    }
}

/// Removes the `#[jsg_trace]` attributes from `attrs`.
fn strip_attrs(attrs: &mut Vec<Attribute>)
    ensures
        final(attrs)@ == emitted_attrs(old(attrs)@),
{
    let ghost start = attrs@;
    let ghost kept = |attr: Attribute| !is_jsg_trace(attr);
    let ghost mut done: int = 0;
    let mut i: usize = 0;
    assert(attrs@ =~= start.take(0).filter(kept) + start.skip(0));
    while i < attrs.len()
        invariant
            kept == (|attr: Attribute| !is_jsg_trace(attr)),
            i == start.take(done).filter(kept).len(),
            0 <= done <= start.len(),
            i <= attrs@.len(),
            attrs@ == start.take(done).filter(kept) + start.skip(done),
        decreases attrs@.len() - i,
    {
        proof {
            assert(start.take(done + 1) =~= start.take(done).push(start[done]));
            start.take(done).lemma_filter_push(start[done], kept);
            assert(attrs@[i as int] == start[done]);
        }
        if is_jsg_trace_attr(&attrs[i]) {
            attrs.remove(i);
        } else {
            i += 1;
        }
        proof {
            done = done + 1;
            assert(attrs@ =~= start.take(done).filter(kept) + start.skip(done));
        }
    }
    proof {
        assert(start.skip(done).len() == 0);
        assert(start.take(done) =~= start);
        assert(attrs@ =~= start.filter(kept));
    }
}

/// Removes the `#[jsg_trace]` attributes from each of `fields`.
fn strip_fields(fields: &mut Vec<Field>)
    ensures
        fields_stripped(old(fields)@, final(fields)@),
{
    let ghost start = fields@;
    let mut i: usize = 0;
    while i < fields.len()
        invariant
            i <= fields@.len(),
            fields@.len() == start.len(),
            forall|j: int| 0 <= j < i ==> field_stripped(start[j], #[trigger] fields@[j]),
            forall|j: int| i <= j < start.len() ==> start[j] == #[trigger] fields@[j],
        decreases fields@.len() - i,
    {
        strip_attrs(&mut fields[i].attrs);
        i += 1;
    }
}

/// Strips `#[jsg_trace]` attributes from all fields of a definition: the named
/// fields of a struct, and the named and the tuple fields of variants.
///
/// `#[jsg_trace]` is a marker that is consumed during trace generation. It must
/// not appear in the emitted definition.
pub fn strip_jsg_trace_attrs(input: &mut DeriveInput)
    ensures
        input_stripped(*old(input), *final(input)),
{
    match &mut input.data {
        Data::Struct(fields) => {
            if let Fields::Named(named) = fields {
                strip_fields(named);
            }
        },
        Data::Enum(variants) => {
            let ghost start = variants@;
            let mut i: usize = 0;
            while i < variants.len()
                invariant
                    i <= variants@.len(),
                    variants@.len() == start.len(),
                    forall|j: int| 0 <= j < i ==> variant_stripped(start[j], #[trigger] variants@[j]),
                    forall|j: int| i <= j < start.len() ==> start[j] == #[trigger] variants@[j],
                decreases variants@.len() - i,
            {
                match &mut variants[i].fields {
                    Fields::Named(named) => strip_fields(named),
                    Fields::Unnamed(unnamed) => strip_fields(unnamed),
                    Fields::Unit => {},
                }
                i += 1;
            }
        },
        Data::Union => {},
    }
}

// ---------------------------------------------------------------------------
// What is emitted for a variant
// ---------------------------------------------------------------------------

/// Whether a field is traced: it is marked `#[jsg_trace]` or its type has a
/// traced shape.
pub open spec fn is_traced(field: Field) -> bool {
    has_jsg_trace(field) || shape_of(field.ty) is Some
}

/// The statement that traces the field bound to `binding`, which has the shape
/// `shape`. The binding is a reference to the field.
pub open spec fn binding_statement(binding: Seq<Sym>, shape: Shape) -> Seq<Sym> {
    let visit = code(visit_method(shape.handle));
    let cell_contents = code("unsafe { &*"@) + binding + code(".as_ptr() }"@);
    match shape.holder {
        Holder::Bare => if shape.cell {
            code("unsafe { visitor."@) + visit + code("(&*"@) + binding + code(".as_ptr()); }"@)
        } else {
            code("visitor."@) + visit + code("("@) + binding + code(");"@)
        },
        Holder::Optional(kind) => {
            let optional = if shape.cell {
                cell_contents
            } else {
                binding
            };
            code("if let "@) + code(some_constructor(kind)) + code("(ref __inner) = "@) + optional
                + code(" { visitor."@) + visit + code("(__inner); }"@)
        },
        Holder::Collection(style) => {
            let accessor = if shape.cell {
                cell_contents
            } else {
                binding
            };
            collection_trace_loop(accessor, style, shape.handle)
        },
    }
}

/// The statement emitted for a field of a variant that is bound to `binding`,
/// where the field is traced.
pub open spec fn variant_statement(field: Field, binding: Seq<Sym>) -> Option<Seq<Sym>> {
    if has_jsg_trace(field) {
        Some(code("jsg::GarbageCollected::trace("@) + binding + code(", visitor);"@))
    } else {
        match shape_of(field.ty) {
            Some(shape) => Some(binding_statement(binding, shape)),
            None => None,
        }
    }
}

/// The binding of a traced field with a name.
pub open spec fn binding_of_named() -> spec_fn(Field) -> Option<Seq<Sym>> {
    |field: Field|
        match field.ident {
            Some(name) => if is_traced(field) {
                Some(code(name@))
            } else {
                None
            },
            None => None,
        }
}

/// The statement of a traced field with a name, which is bound to that name.
pub open spec fn statement_of_named() -> spec_fn(Field) -> Option<Seq<Sym>> {
    |field: Field|
        match field.ident {
            Some(name) => variant_statement(field, code(name@)),
            None => None,
        }
}

/// The positional name of the `i`-th field of a tuple variant.
pub open spec fn positional(i: nat) -> Seq<Sym> {
    code("_f"@ + decimal(i))
}

/// The bindings of a tuple variant: one for each field, `_` for those that are
/// not traced.
pub open spec fn tuple_bindings(fields: Seq<Field>) -> Seq<Seq<Sym>> {
    Seq::new(
        fields.len(),
        |i: int|
            if is_traced(fields[i]) {
                positional(i as nat)
            } else {
                code("_"@)
            },
    )
}

/// The statements of a tuple variant: one for each traced field, in order.
pub open spec fn tuple_statements(fields: Seq<Field>) -> Seq<Seq<Sym>>
    decreases fields.len(),
{
    if fields.len() == 0 {
        Seq::empty()
    } else {
        let rest = tuple_statements(fields.drop_last());
        match variant_statement(fields.last(), positional((fields.len() - 1) as nat)) {
            Some(statement) => rest.push(statement),
            None => rest,
        }
    }
}

/// The `match` arm of a variant.
pub open spec fn variant_arm(variant: Variant) -> Seq<Sym> {
    let head = code("Self::"@) + code(variant.ident@);
    match variant.fields {
        Fields::Unit => head + code(" => {}"@),
        Fields::Named(named) => {
            let bindings = named@.filter_map(binding_of_named());
            let statements = named@.filter_map(statement_of_named());
            if statements.len() == 0 {
                head + code(" { .. } => {}"@)
            } else {
                head + code(" { "@) + terminated(bindings, code(", "@)) + code(".. } => { "@)
                    + terminated(statements, code(" "@)) + code("}"@)
            }
        },
        Fields::Unnamed(unnamed) => {
            let bindings = tuple_bindings(unnamed@);
            let statements = tuple_statements(unnamed@);
            if statements.len() == 0 {
                head + code("(..) => {}"@)
            } else {
                head + code("("@) + separated(bindings, code(", "@)) + code(") => { "@)
                    + terminated(statements, code(" "@)) + code("}"@)
            }
        },
    }
}

/// The `match` arms of the variants of an enum, in order.
pub open spec fn enum_arms(variants: Seq<Variant>) -> Seq<Seq<Sym>> {
    variants.map_values(|variant: Variant| variant_arm(variant))
}

// ---------------------------------------------------------------------------
// Field classifiers for variant arms
// ---------------------------------------------------------------------------

/// Classifies a single field type and returns the trace statement for use
/// inside a `match` arm, or `None` if the field is not traceable.
///
/// `binding` is the code of the bound variable, such as `reason` for a named
/// field or `_f0` for a tuple field. As `trace` takes `&self`, match ergonomics
/// make each binding a `&FieldType`; callers must not add an extra `&`.
pub fn classify_field_for_variant(ty: &Type, binding: &Code) -> (r: Option<Code>)
    ensures
        view_option(r) == match shape_of(*ty) {
            Some(shape) => Some(binding_statement(binding@, shape)),
            None => None,
        },
{
    proof {
        lemma_holders_disjoint(*ty);
    }
    // Cell<T>: read through the pointer.
    if let Some(cell_inner_ty) = extract_cell_inner(ty) {
        return classify_cell_field_for_variant(cell_inner_ty, binding);
    }
    // Option<Traceable> / Nullable<Traceable>
    if let Some((kind, inner_ty)) = extract_optional_inner(ty) {
        let handle = get_traceable_type(inner_ty);
        return match handle {
            TraceableType::Ref | TraceableType::Global => {
                let mut r = Code::from_text("if let ");
                r.text(get_some_constructor(kind));
                r.text("(ref __inner) = ");
                r.append(binding);
                r.text(" { visitor.");
                r.text(get_visit_method(handle));
                r.text("(__inner); }");
                Some(r)
            },
            TraceableType::Weak | TraceableType::Untraceable => None,
        };
    }
    // Vec<Traceable>, HashMap<K, Traceable>, etc.
    if let Some((style, traceable)) = extract_collection_traceable(ty) {
        return Some(generate_collection_trace_loop(binding, &style, traceable));
    }
    // Bare jsg::Rc<T> / jsg::v8::Global<T>
    let handle = get_traceable_type(ty);
    match handle {
        TraceableType::Ref | TraceableType::Global => {
            let mut r = Code::from_text("visitor.");
            r.text(get_visit_method(handle));
            r.text("(");
            r.append(binding);
            r.text(");");
            Some(r)
        },
        TraceableType::Weak | TraceableType::Untraceable => None,
    }
}

/// Classifies the inner type of a `Cell<T>` field inside a variant arm.
///
/// The binding is a shared reference, so the emitted code reads through it with
/// `Cell::as_ptr`. As for the fields of structs this is sound because tracing
/// is single-threaded and never re-entrant.
pub fn classify_cell_field_for_variant(cell_inner_ty: &Type, binding: &Code) -> (r: Option<Code>)
    ensures
        view_option(r) == match direct_shape(*cell_inner_ty) {
            Some(shape) => Some(binding_statement(binding@, Shape { cell: true, ..shape })),
            None => None,
        },
{
    proof {
        lemma_holders_disjoint(*cell_inner_ty);
    }
    let handle = get_traceable_type(cell_inner_ty);
    match handle {
        TraceableType::Ref | TraceableType::Global => {
            let mut r = Code::from_text("unsafe { visitor.");
            r.text(get_visit_method(handle));
            r.text("(&*");
            r.append(binding);
            r.text(".as_ptr()); }");
            return Some(r);
        },
        TraceableType::Weak | TraceableType::Untraceable => {},
    }
    let mut contents = Code::from_text("unsafe { &*");
    contents.append(binding);
    contents.text(".as_ptr() }");
    if let Some((kind, inner_ty)) = extract_optional_inner(cell_inner_ty) {
        let handle = get_traceable_type(inner_ty);
        return match handle {
            TraceableType::Ref | TraceableType::Global => {
                let mut r = Code::from_text("if let ");
                r.text(get_some_constructor(kind));
                r.text("(ref __inner) = ");
                r.append(&contents);
                r.text(" { visitor.");
                r.text(get_visit_method(handle));
                r.text("(__inner); }");
                Some(r)
            },
            TraceableType::Weak | TraceableType::Untraceable => None,
        };
    }
    if let Some((style, traceable)) = extract_collection_traceable(cell_inner_ty) {
        return Some(generate_collection_trace_loop(&contents, &style, traceable));
    }
    None
}

/// The statement for a field of a variant that is bound to `binding`, if the
/// field is traced.
pub fn trace_bound_field(field: &Field, binding: &Code) -> (r: Option<Code>)
    ensures
        view_option(r) == variant_statement(*field, binding@),
        r is Some <==> is_traced(*field),
{
    // #[jsg_trace]: leave the field to its own GarbageCollected::trace.
    if has_jsg_trace_attr(field) {
        let mut r = Code::from_text("jsg::GarbageCollected::trace(");
        r.append(binding);
        r.text(", visitor);");
        return Some(r);
    }
    classify_field_for_variant(&field.ty, binding)
}

// ---------------------------------------------------------------------------
// Enum arm generation
// ---------------------------------------------------------------------------

/// Returns the bindings and the trace statements for a named-field variant.
///
/// Only fields that are traced are bound; everything else is captured by the
/// trailing `..` in the match arm.
pub fn trace_named_fields(named: &Vec<Field>) -> (r: (Vec<Code>, Vec<Code>))
    ensures
        views(r.0@) == named@.filter_map(binding_of_named()),
        views(r.1@) == named@.filter_map(statement_of_named()),
{
    let ghost b = binding_of_named();
    let ghost s = statement_of_named();
    let mut bindings: Vec<Code> = Vec::new();
    let mut stmts: Vec<Code> = Vec::new();
    let mut i: usize = 0;
    assert(views(bindings@) =~= named@.take(0).filter_map(b));
    assert(views(stmts@) =~= named@.take(0).filter_map(s));
    while i < named.len()
        invariant
            i <= named@.len(),
            b == binding_of_named(),
            s == statement_of_named(),
            views(bindings@) == named@.take(i as int).filter_map(b),
            views(stmts@) == named@.take(i as int).filter_map(s),
        decreases named@.len() - i,
    {
        let field = &named[i];
        proof {
            named@.lemma_filter_map_take_succ(b, i as int);
            named@.lemma_filter_map_take_succ(s, i as int);
        }
        if let Some(field_name) = &field.ident {
            let binding = Code::from_text(field_name.as_str());
            if let Some(stmt) = trace_bound_field(field, &binding) {
                let ghost old_bindings = bindings@;
                let ghost old_stmts = stmts@;
                bindings.push(binding);
                stmts.push(stmt);
                assert(views(bindings@) =~= views(old_bindings).push(binding@));
                assert(views(stmts@) =~= views(old_stmts).push(stmt@));
            }
        }
        i += 1;
    }
    assert(named@.take(i as int) =~= named@);
    (bindings, stmts)
}

/// Returns the bindings and the trace statements for a tuple variant.
///
/// Traced fields are bound as `_f0`, `_f1`, ...; the others as `_`.
pub fn trace_tuple_fields(unnamed: &Vec<Field>) -> (r: (Vec<Code>, Vec<Code>))
    ensures
        views(r.0@) == tuple_bindings(unnamed@),
        views(r.1@) == tuple_statements(unnamed@),
{
    let mut bindings: Vec<Code> = Vec::new();
    let mut stmts: Vec<Code> = Vec::new();
    let mut i: usize = 0;
    assert(views(stmts@) =~= tuple_statements(unnamed@.take(0)));
    while i < unnamed.len()
        invariant
            i <= unnamed@.len(),
            views(bindings@) =~= tuple_bindings(unnamed@).take(i as int),
            views(stmts@) == tuple_statements(unnamed@.take(i as int)),
        decreases unnamed@.len() - i,
    {
        let field = &unnamed[i];
        let var = Code::from_text(numbered("_f", i).as_str());
        let ghost old_bindings = bindings@;
        let ghost old_stmts = stmts@;
        let ghost all = tuple_bindings(unnamed@);
        proof {
            assert(unnamed@.take(i + 1).drop_last() =~= unnamed@.take(i as int));
            assert(all.take(i + 1) =~= all.take(i as int).push(all[i as int]));
        }
        if let Some(stmt) = trace_bound_field(field, &var) {
            bindings.push(var);
            stmts.push(stmt);
            assert(views(stmts@) =~= views(old_stmts).push(stmt@));
        } else {
            bindings.push(Code::from_text("_"));
        }
        assert(views(bindings@) =~= views(old_bindings).push(bindings@.last()@));
        i += 1;
    }
    assert(unnamed@.take(i as int) =~= unnamed@);
    assert(views(bindings@) =~= tuple_bindings(unnamed@));
    (bindings, stmts)
}

/// Generates a single `match` arm for one enum variant.
///
/// - Unit variants (`Closed`) get `Self::Closed => {}`.
/// - Named-field variants (`Errored { reason, .. }`) bind each traced field by
///   name and trace it.
/// - Tuple variants (`Readable(inner)`) bind each traced field by a positional
///   name (`_f0`, `_f1`, ...) and trace it.
pub fn generate_variant_arm(variant: &Variant) -> (r: Code)
    ensures
        r@ == variant_arm(*variant),
{
    let mut r = Code::from_text("Self::");
    r.text(variant.ident.as_str());
    match &variant.fields {
        Fields::Unit => {
            r.text(" => {}");
        },
        Fields::Named(named) => {
            let (bindings, trace_stmts) = trace_named_fields(named);
            assert(views(trace_stmts@).len() == trace_stmts@.len());
            if trace_stmts.is_empty() {
                r.text(" { .. } => {}");
            } else {
                r.text(" { ");
                r.append_terminated(&bindings, ", ");
                r.text(".. } => { ");
                r.append_terminated(&trace_stmts, " ");
                r.text("}");
            }
        },
        Fields::Unnamed(unnamed) => {
            let (bindings, trace_stmts) = trace_tuple_fields(unnamed);
            assert(views(trace_stmts@).len() == trace_stmts@.len());
            if trace_stmts.is_empty() {
                r.text("(..) => {}");
            } else {
                r.text("(");
                r.append_separated(&bindings, ", ");
                r.text(") => { ");
                r.append_terminated(&trace_stmts, " ");
                r.text("}");
            }
        },
    }
    r
}

/// Generates one `match` arm per enum variant, tracing every GC-visible field
/// within the arm's pattern.
pub fn generate_enum_trace_arms(variants: &Vec<Variant>) -> (r: Vec<Code>)
    ensures
        views(r@) == enum_arms(variants@),
{
    let mut r: Vec<Code> = Vec::new();
    let mut i: usize = 0;
    while i < variants.len()
        invariant
            i <= variants@.len(),
            r@.len() == i,
            forall|j: int| 0 <= j < i ==> (#[trigger] r@[j])@ == variant_arm(variants@[j]),
        decreases variants@.len() - i,
    {
        r.push(generate_variant_arm(&variants[i]));
        i += 1;
    }
    assert(views(r@) =~= enum_arms(variants@));
    r
}

// ---------------------------------------------------------------------------
// The macro
// ---------------------------------------------------------------------------

/// The body of `trace` for an enum with the variants `variants`.
pub open spec fn enum_trace_body(variants: Seq<Variant>) -> Seq<Sym> {
    code("let _ = visitor; match self { "@) + terminated(enum_arms(variants), code(", "@)) + code(
        "} "@,
    )
}

/// Whether `r` is what is emitted for the definition `input`, where `body` is the body of its
/// `trace`.
pub open spec fn traceable_expansion(
    input: DeriveInput,
    body: Seq<Sym>,
    memory_name: Seq<char>,
    r: Result<Expansion, CompileError>,
) -> bool {
    r matches Ok(expansion) && {
        &&& input_stripped(input, expansion.item)
        &&& expansion.code@ == annotated_item() + gc_impl(input.ident@, body, memory_name)
    }
}

/// The expansion `r` of `#[jsg_traceable]` on `input`, under the memory name
/// `memory_name`: a struct with named fields or none, or an enum, emitted again
/// without the markers and followed by its implementation of
/// `jsg::GarbageCollected`; an error for tuple structs and unions.
pub open spec fn is_traceable_expansion(
    input: DeriveInput,
    memory_name: Seq<char>,
    r: Result<Expansion, CompileError>,
) -> bool {
    match input.data {
        Data::Struct(Fields::Named(named)) => traceable_expansion(
            input,
            trace_body(trace_statements(named@)),
            memory_name,
            r,
        ),
        Data::Struct(Fields::Unit) => traceable_expansion(
            input,
            trace_body(Seq::empty()),
            memory_name,
            r,
        ),
        Data::Struct(Fields::Unnamed(_)) => r matches Err(error) && error.message@
            == "#[jsg_traceable] does not support tuple structs"@,
        Data::Enum(variants) => traceable_expansion(
            input,
            enum_trace_body(variants@),
            memory_name,
            r,
        ),
        Data::Union => r matches Err(error) && error.message@
            == "#[jsg_traceable] cannot be applied to unions"@,
    }
}

/// Expands `#[jsg_traceable]` on `input` under the memory name `memory_name`.
pub fn expand_traceable(memory_name: &str, input: DeriveInput) -> (r: Result<
    Expansion,
    CompileError,
>)
    ensures
        is_traceable_expansion(input, memory_name@, r),
{
    let body = match &input.data {
        Data::Struct(Fields::Named(fields)) => {
            let stmts = generate_trace_statements(fields);
            generate_trace_body(&stmts)
        },
        Data::Struct(Fields::Unit) => {
            let stmts: Vec<Code> = Vec::new();
            assert(views(stmts@) =~= Seq::empty());
            generate_trace_body(&stmts)
        },
        Data::Struct(Fields::Unnamed(_)) => {
            return Err(CompileError::new("#[jsg_traceable] does not support tuple structs"));
        },
        Data::Enum(variants) => {
            let arms = generate_enum_trace_arms(variants);
            let mut body = Code::from_text("let _ = visitor; match self { ");
            body.append_terminated(&arms, ", ");
            body.text("} ");
            body
        },
        Data::Union => {
            return Err(CompileError::new("#[jsg_traceable] cannot be applied to unions"));
        },
    };
    let gc_impl = generate_gc_impl(input.ident.as_str(), &body, memory_name);
    let mut code = Code::new();
    code.item();
    code.append(&gc_impl);
    assert(code@ =~= annotated_item() + gc_impl@);
    let mut item = input;
    // The marker must not reach the compiler, which would not know it.
    strip_jsg_trace_attrs(&mut item);
    Ok(Expansion { item, code })
}

/// Expands `#[jsg_traceable(args)]` on `input`, where `args` are the arguments
/// of the attribute, absent where they could not be read.
pub fn expand_traceable_with_args(args: &Option<Vec<AttrArg>>, input: DeriveInput) -> (r: Result<
    Expansion,
    CompileError,
>)
    ensures
        is_traceable_expansion(input, name_or(view_args(*args), input.ident@), r),
{
    let memory_name = get_name_or(args, input.ident.as_str());
    expand_traceable(memory_name.as_str(), input)
}

/// Entry point for `#[jsg_traceable]`: expands it on `input`, where `attr` is
/// the source text of the arguments of the attribute. However that is read, the
/// memory name is the one that is read, else the name of the type; a text that
/// spells a list of arguments is read as that list.
pub fn generate_traceable(attr: &str, input: DeriveInput) -> (r: Result<Expansion, CompileError>)
    ensures
        exists|args: Option<Seq<Arg>>| #[trigger]
            may_be_read(attr@, args) && is_traceable_expansion(
                input,
                name_or(args, input.ident@),
                r,
            ),
        forall|list: ListSpelling|
            list.is_valid() && attr@ == #[trigger] list.text() ==> is_traceable_expansion(
                input,
                name_or(Some(list.arg_list()), input.ident@),
                r,
            ),
        attr@.len() == 0 ==> is_traceable_expansion(input, input.ident@, r),
        forall|name: Seq<char>|
            is_plain(name) && attr@ == #[trigger] name_text(name) ==> is_traceable_expansion(
                input,
                name,
                r,
            ),
{
    let args = parse_attr_args(attr);
    let ghost read = view_args(args);
    proof {
        if attr@.len() == 0 {
            assert(attr@ =~= Seq::empty());
            lemma_empty_is_read(read);
        }
        assert forall|name: Seq<char>|
            is_plain(name) && attr@ == #[trigger] name_text(name) implies name_or(
            read,
            input.ident@,
        ) == name by {
            lemma_name_is_read(name, read);
        }
    }
    expand_traceable_with_args(&args, input)
}

} // verus!

//! What the emitted code holds, and how it depends on what it is emitted for.
//!
//! The laws on templates have one form: there are fixed stretches of code such
//! that the code for any input is these stretches with the parts of the input
//! between them. So nothing is left out or put in for some inputs only.

use vstd::prelude::*;

use crate::attrs::first_attr;
use crate::code::{
    annotated_item, code, literal, separated, source_tokens, terminated, views, Code, Piece, Sym,
};
use crate::expand::{gc_impl, trace_body, CompileError, Expansion};
use crate::names::{camel, decimal};
use crate::resource::{
    argument_unwrap, argument_unwraps, argument_variables, constant_member, constant_members,
    constructor_callback, constructor_error, constructor_registration, constructors, from_js_impl,
    has_receiver, is_resource_impl, is_resource_struct, js_parameters, lock_ref, members,
    method_member, method_members, named_items, parameters, resource_impl, resource_struct,
    takes_lock, to_js_impl, type_impl,
};
use crate::syntax::{
    path_ends_in, path_idents, Attribute, Data, DeriveInput, Field, Fields, FnArg, ImplItem, ImplItemConst, ImplItemFn,
    ItemImpl, ReturnType, SourceType, Type, Variant,
};
use crate::trace::trace_statements;
use crate::traceable::{enum_arms, enum_trace_body, input_stripped, is_traceable_expansion, variant_arm};

verus! {

// ---------------------------------------------------------------------------
// Code
// ---------------------------------------------------------------------------

/// Whether `whole` starts with `part`.
pub open spec fn starts_with(whole: Seq<Sym>, part: Seq<Sym>) -> bool {
    part.len() <= whole.len() && whole.take(part.len() as int) == part
}

/// Whether `whole` ends in `part`.
pub open spec fn ends_with(whole: Seq<Sym>, part: Seq<Sym>) -> bool {
    part.len() <= whole.len() && whole.skip(whole.len() - part.len()) == part
}

/// Whether `part` stands in `whole` at the place `at`.
pub open spec fn stands_at(part: Seq<Sym>, whole: Seq<Sym>, at: int) -> bool {
    0 <= at && at + part.len() <= whole.len() && whole.subrange(at, at + part.len()) == part
}

/// Code is its text, character by character; a string literal, the tokens of a
/// type and the annotated item are one symbol each.
pub proof fn law_symbols(text: Seq<char>, value: Seq<char>, number: usize)
    ensures
        code(text).len() == text.len(),
        forall|i: int| 0 <= i < text.len() ==> #[trigger] code(text)[i] == Sym::Char(text[i] as int),
        literal(value).len() == 1 && literal(value)[0] == Sym::Str(value),
        source_tokens(number).len() == 1 && source_tokens(number)[0] == Sym::Tokens(number),
        annotated_item().len() == 1 && annotated_item()[0] == Sym::Item,
{
}

/// The code of pieces is that of each of them, in order.
pub proof fn law_pieces(front: Code, piece: Piece, whole: Code)
    requires
        whole.pieces@ == front.pieces@.push(piece),
    ensures
        whole@ == front@ + match piece {
            Piece::Text(text) => code(text@),
            Piece::Str(value) => literal(value@),
            Piece::Tokens(number) => source_tokens(number),
            Piece::Item => annotated_item(),
        },
        front.pieces@.len() == 0 ==> front@ == Seq::<Sym>::empty(),
{
    assert(whole.pieces@.drop_last() =~= front.pieces@);
}

/// Of several codes each is seen, in its place.
pub proof fn law_views(codes: Seq<Code>)
    ensures
        views(codes).len() == codes.len(),
        forall|i: int| 0 <= i < codes.len() ==> #[trigger] views(codes)[i] == codes[i]@,
{
}

/// Every part of a terminated list is there, in order, with its end behind it,
/// and nothing else.
pub proof fn law_terminated(parts: Seq<Seq<Sym>>, part: Seq<Sym>, end: Seq<Sym>)
    ensures
        terminated(Seq::empty(), end) == Seq::<Sym>::empty(),
        terminated(parts.push(part), end) == terminated(parts, end) + part + end,
{
    assert(parts.push(part).drop_last() =~= parts);
}

/// Every part of a separated list is there, in order, with the separator
/// between each two, and nothing else.
pub proof fn law_separated(parts: Seq<Seq<Sym>>, part: Seq<Sym>, between: Seq<Sym>)
    ensures
        separated(Seq::empty(), between) == Seq::<Sym>::empty(),
        separated(seq![part], between) == part,
        parts.len() > 0 ==> separated(parts.push(part), between) == separated(parts, between)
            + between + part,
{
    assert(parts.push(part).drop_last() =~= parts);
}

proof fn lemma_terminated_add(left: Seq<Seq<Sym>>, right: Seq<Seq<Sym>>, end: Seq<Sym>)
    ensures
        terminated(left + right, end) == terminated(left, end) + terminated(right, end),
    decreases right.len(),
{
    if right.len() == 0 {
        assert(left + right =~= left);
        assert(terminated(left, end) + terminated(right, end) =~= terminated(left, end));
    } else {
        lemma_terminated_add(left, right.drop_last(), end);
        assert((left + right).drop_last() =~= left + right.drop_last());
        assert(terminated(left + right, end) =~= terminated(left, end) + terminated(right, end));
    }
}

/// A part of a terminated list stands where the parts before it end.
proof fn lemma_terminated_at(parts: Seq<Seq<Sym>>, end: Seq<Sym>, i: int)
    requires
        0 <= i < parts.len(),
    ensures
        stands_at(parts[i] + end, terminated(parts, end), terminated(parts.take(i), end).len() as int),
{
    let (before, after) = (parts.take(i), parts.skip(i + 1));
    assert(parts =~= before.push(parts[i]) + after);
    lemma_terminated_add(before.push(parts[i]), after, end);
    law_terminated(before, parts[i], end);
    let at = terminated(before, end).len() as int;
    let whole = terminated(parts, end);
    assert(whole.subrange(at, at + (parts[i] + end).len()) =~= parts[i] + end);
}

// ---------------------------------------------------------------------------
// The body of `trace`
// ---------------------------------------------------------------------------

/// The body of `trace` holds every statement, each once and in order, behind
/// `let _ = visitor;`: a further statement is added at the end, and each
/// statement stands where the body of the statements before it ends.
pub proof fn law_body_holds_every_statement(
    statements: Seq<Seq<Sym>>,
    more: Seq<Seq<Sym>>,
    statement: Seq<Sym>,
    i: int,
)
    requires
        0 <= i < statements.len(),
    ensures
        trace_body(Seq::empty()) == code("let _ = visitor; "@),
        trace_body(statements.push(statement)) == trace_body(statements) + statement + code(" "@),
        trace_body(statements + more) == trace_body(statements) + trace_body(more).skip(
            trace_body(Seq::empty()).len() as int,
        ),
        stands_at(
            statements[i] + code(" "@),
            trace_body(statements),
            trace_body(statements.take(i)).len() as int,
        ),
{
    let blank = code(" "@);
    let head = code("let _ = visitor; "@);
    assert(trace_body(Seq::empty()) =~= head);
    law_terminated(statements, statement, blank);
    assert(trace_body(statements.push(statement)) =~= trace_body(statements) + statement + blank);
    lemma_terminated_add(statements, more, blank);
    assert(trace_body(more).skip(head.len() as int) =~= terminated(more, blank));
    assert(trace_body(statements + more) =~= trace_body(statements) + terminated(more, blank));
    lemma_terminated_at(statements, blank, i);
    let at = terminated(statements.take(i), blank).len() as int;
    let part = statements[i] + blank;
    let whole = terminated(statements, blank);
    assert(whole.subrange(at, at + part.len()) == part);
    assert(trace_body(statements).subrange(head.len() + at, head.len() + at + part.len())
        =~= whole.subrange(at, at + part.len()));
}

/// The body of `trace` for an enum is a `match` with the arm of every variant,
/// each once and in order: a further variant adds its arm behind the others and
/// changes nothing else.
pub proof fn law_match_holds_every_arm(variants: Seq<Variant>, variant: Variant, i: int)
    requires
        0 <= i < variants.len(),
    ensures
        enum_trace_body(Seq::empty()) == code("let _ = visitor; match self { "@) + code("} "@),
        enum_trace_body(variants.push(variant)) == enum_trace_body(variants).take(
            enum_trace_body(variants).len() - code("} "@).len(),
        ) + variant_arm(variant) + code(", "@) + code("} "@),
        ends_with(enum_trace_body(variants), code("} "@)),
        stands_at(
            variant_arm(variants[i]) + code(", "@),
            enum_trace_body(variants),
            enum_trace_body(variants.take(i)).len() - code("} "@).len(),
        ),
{
    let (head, comma, tail) = (code("let _ = visitor; match self { "@), code(", "@), code("} "@));
    let arms = enum_arms(variants);
    assert(enum_arms(Seq::empty()) =~= Seq::empty());
    assert(enum_trace_body(Seq::empty()) =~= head + tail);
    assert(enum_arms(variants.push(variant)) =~= arms.push(variant_arm(variant)));
    law_terminated(arms, variant_arm(variant), comma);
    let whole = enum_trace_body(variants);
    let inner = terminated(arms, comma);
    assert(whole.take(whole.len() - tail.len()) =~= head + inner);
    assert(whole.skip(whole.len() - tail.len()) =~= tail);
    assert(enum_trace_body(variants.push(variant)) =~= head + inner + variant_arm(variant) + comma
        + tail);
    lemma_terminated_at(arms, comma, i);
    assert(enum_arms(variants.take(i)) =~= arms.take(i));
    let at = terminated(arms.take(i), comma).len() as int;
    let part = variant_arm(variants[i]) + comma;
    assert(inner.subrange(at, at + part.len()) == part);
    assert(whole.subrange(head.len() + at, head.len() + at + part.len()) =~= inner.subrange(
        at,
        at + part.len(),
    ));
}

// ---------------------------------------------------------------------------
// Implementations
// ---------------------------------------------------------------------------

/// Whether `gc_impl` is these stretches with its parts between them.
pub open spec fn frames_gc_impl(a: Seq<Sym>, b: Seq<Sym>, c: Seq<Sym>, d: Seq<Sym>) -> bool {
    forall|name: Seq<char>, body: Seq<Sym>, memory_name: Seq<char>| #[trigger]
        gc_impl(name, body, memory_name) == a + code(name) + b + body + c + literal(memory_name) + d
}

/// The emitted implementation of `jsg::GarbageCollected` is the same for all
/// types but for the name of the type, the body of `trace` and the memory name.
/// It is for that type, `trace` consists of that body, and `memory_name` is
/// that name.
pub proof fn law_gc_impl()
    ensures
        exists|a: Seq<Sym>, b: Seq<Sym>, c: Seq<Sym>, d: Seq<Sym>| #[trigger]
            frames_gc_impl(a, b, c, d) && ends_with(
                a,
                code("impl jsg::GarbageCollected for "@),
            ) && b == code(" { fn trace(&self, visitor: &mut jsg::GcVisitor) { "@) && starts_with(
                c,
                code("} fn memory_name(&self) -> &'static ::std::ffi::CStr { "@),
            ) && ends_with(c, code("from_bytes_with_nul(concat!("@)) && starts_with(
                d,
                code(", \"\\0\").as_bytes())"@),
            ),
{
    let a = code("#[automatically_derived] impl jsg::GarbageCollected for "@);
    let b = code(" { fn trace(&self, visitor: &mut jsg::GcVisitor) { "@);
    let c = code(
        "} fn memory_name(&self) -> &'static ::std::ffi::CStr { ::std::ffi::CStr::from_bytes_with_nul(concat!("@,
    );
    let d = code(", \"\\0\").as_bytes()).unwrap() } } "@);
    assert(frames_gc_impl(a, b, c, d));
    reveal_strlit("#[automatically_derived] impl jsg::GarbageCollected for ");
    reveal_strlit("impl jsg::GarbageCollected for ");
    reveal_strlit("} fn memory_name(&self) -> &'static ::std::ffi::CStr { ::std::ffi::CStr::from_bytes_with_nul(concat!(");
    reveal_strlit("} fn memory_name(&self) -> &'static ::std::ffi::CStr { ");
    reveal_strlit("from_bytes_with_nul(concat!(");
    reveal_strlit(", \"\\0\").as_bytes()).unwrap() } } ");
    reveal_strlit(", \"\\0\").as_bytes())");
    let p = code("impl jsg::GarbageCollected for "@);
    assert(a.skip(a.len() - p.len()) =~= p);
    let q = code("} fn memory_name(&self) -> &'static ::std::ffi::CStr { "@);
    assert(c.take(q.len() as int) =~= q);
    let r = code("from_bytes_with_nul(concat!("@);
    assert(c.skip(c.len() - r.len()) =~= r);
    let s = code(", \"\\0\").as_bytes())"@);
    assert(d.take(s.len() as int) =~= s);
}

/// Whether `type_impl` is these stretches with its parts between them.
pub open spec fn frames_type_impl(a: Seq<Sym>, b: Seq<Sym>, c: Seq<Sym>) -> bool {
    forall|name: Seq<char>, class_name: Seq<char>| #[trigger]
        type_impl(name, class_name) == a + code(name) + b + literal(class_name) + c
}

/// Whether `to_js_impl` and `from_js_impl` are these stretches with the name of
/// the type between them.
pub open spec fn frames_js_impls(a: Seq<Sym>, b: Seq<Sym>, c: Seq<Sym>, d: Seq<Sym>) -> bool {
    forall|name: Seq<char>|
        #![trigger to_js_impl(name)]
        #![trigger from_js_impl(name)]
        to_js_impl(name) == a + code(name) + b && from_js_impl(name) == c + code(name) + d
}

/// The emitted implementations of `jsg::Type`, `jsg::ToJS` and `jsg::FromJS` are
/// the same for all structs but for the name of the struct and the JavaScript
/// class name. They are for that struct, and `class_name` is that name.
pub proof fn law_js_impls()
    ensures
        exists|a: Seq<Sym>, b: Seq<Sym>, c: Seq<Sym>| #[trigger]
            frames_type_impl(a, b, c) && ends_with(a, code("impl jsg::Type for "@)) && b == code(
                " { fn class_name() -> &'static str { "@,
            ) && starts_with(c, code(" } fn is_exact("@)),
        exists|a: Seq<Sym>, b: Seq<Sym>, c: Seq<Sym>, d: Seq<Sym>| #[trigger]
            frames_js_impls(a, b, c, d) && ends_with(a, code("impl jsg::ToJS for "@)) && starts_with(
                b,
                code(" { fn to_js"@),
            ) && ends_with(c, code("impl jsg::FromJS for "@)) && starts_with(
                d,
                code(" { type ResultType = jsg::Rc<Self>; fn from_js("@),
            ),
{
    let a = code("#[automatically_derived] impl jsg::Type for "@);
    let b = code(" { fn class_name() -> &'static str { "@);
    let c = code(
        " } fn is_exact(value: &jsg::v8::Local<jsg::v8::Value>) -> bool { value.is_object() } } "@,
    );
    assert(frames_type_impl(a, b, c));
    reveal_strlit("#[automatically_derived] impl jsg::Type for ");
    reveal_strlit("impl jsg::Type for ");
    reveal_strlit(" } fn is_exact(value: &jsg::v8::Local<jsg::v8::Value>) -> bool { value.is_object() } } ");
    reveal_strlit(" } fn is_exact(");
    let p = code("impl jsg::Type for "@);
    assert(a.skip(a.len() - p.len()) =~= p);
    let q = code(" } fn is_exact("@);
    assert(c.take(q.len() as int) =~= q);
    lemma_js_impls();
}

proof fn lemma_js_impls()
    ensures
        exists|a: Seq<Sym>, b: Seq<Sym>, c: Seq<Sym>, d: Seq<Sym>| #[trigger]
            frames_js_impls(a, b, c, d) && ends_with(a, code("impl jsg::ToJS for "@)) && starts_with(
                b,
                code(" { fn to_js"@),
            ) && ends_with(c, code("impl jsg::FromJS for "@)) && starts_with(
                d,
                code(" { type ResultType = jsg::Rc<Self>; fn from_js("@),
            ),
{
    let a = code("#[automatically_derived] impl jsg::ToJS for "@);
    let b = code(
        " { fn to_js<'a, 'b>(self, lock: &'a mut jsg::Lock) -> jsg::v8::Local<'b, jsg::v8::Value> where 'b: 'a, { let r = jsg::Rc::new(self); r.to_js(lock) } } "@,
    );
    let c = code("#[automatically_derived] impl jsg::FromJS for "@);
    let d = code(
        " { type ResultType = jsg::Rc<Self>; fn from_js(lock: &mut jsg::Lock, value: jsg::v8::Local<jsg::v8::Value>,) -> Result<Self::ResultType, jsg::Error> { <jsg::Rc<Self> as jsg::FromJS>::from_js(lock, value) } } "@,
    );
    assert(frames_js_impls(a, b, c, d));
    reveal_strlit("#[automatically_derived] impl jsg::ToJS for ");
    reveal_strlit("impl jsg::ToJS for ");
    reveal_strlit(" { fn to_js<'a, 'b>(self, lock: &'a mut jsg::Lock) -> jsg::v8::Local<'b, jsg::v8::Value> where 'b: 'a, { let r = jsg::Rc::new(self); r.to_js(lock) } } ");
    reveal_strlit(" { fn to_js");
    reveal_strlit("#[automatically_derived] impl jsg::FromJS for ");
    reveal_strlit("impl jsg::FromJS for ");
    reveal_strlit(" { type ResultType = jsg::Rc<Self>; fn from_js(lock: &mut jsg::Lock, value: jsg::v8::Local<jsg::v8::Value>,) -> Result<Self::ResultType, jsg::Error> { <jsg::Rc<Self> as jsg::FromJS>::from_js(lock, value) } } ");
    reveal_strlit(" { type ResultType = jsg::Rc<Self>; fn from_js(");
    let p = code("impl jsg::ToJS for "@);
    assert(a.skip(a.len() - p.len()) =~= p);
    let q = code(" { fn to_js"@);
    assert(b.take(q.len() as int) =~= q);
    let r = code("impl jsg::FromJS for "@);
    assert(c.skip(c.len() - r.len()) =~= r);
    let s = code(" { type ResultType = jsg::Rc<Self>; fn from_js("@);
    assert(d.take(s.len() as int) =~= s);
}

/// What is emitted for a struct: the struct again, once and before all else,
/// then the implementations of `jsg::Type`, `jsg::ToJS` and `jsg::FromJS`, and
/// last, unless the user writes it, that of `jsg::GarbageCollected`, whose
/// `trace` consists of the statements for all of the fields and whose memory
/// name is the name of the struct, whatever the class name.
pub proof fn law_resource_struct(name: Seq<char>, fields: Seq<Field>, class_name: Seq<char>)
    ensures
        resource_struct(name, fields, class_name, true) == annotated_item() + type_impl(
            name,
            class_name,
        ) + to_js_impl(name) + from_js_impl(name),
        resource_struct(name, fields, class_name, false) == resource_struct(
            name,
            fields,
            class_name,
            true,
        ) + gc_impl(name, trace_body(trace_statements(fields)), name),
{
    assert(resource_struct(name, fields, class_name, true) =~= annotated_item() + type_impl(
        name,
        class_name,
    ) + to_js_impl(name) + from_js_impl(name));
    assert(resource_struct(name, fields, class_name, false) =~= resource_struct(
        name,
        fields,
        class_name,
        true,
    ) + gc_impl(name, trace_body(trace_statements(fields)), name));
}

// ---------------------------------------------------------------------------
// Expansions
// ---------------------------------------------------------------------------

/// `#[jsg_traceable]` refuses tuple structs and unions and accepts all other
/// definitions. Of these it emits the definition without the markers and the
/// implementation of `jsg::GarbageCollected` for the type, under the memory name
/// that it is given.
pub proof fn law_traceable(
    input: DeriveInput,
    memory_name: Seq<char>,
    r: Result<Expansion, CompileError>,
)
    requires
        is_traceable_expansion(input, memory_name, r),
    ensures
        r is Err <==> (input.data is Union || input.data matches Data::Struct(Fields::Unnamed(_))),
        r matches Err(error) ==> error.message@ == if input.data is Union {
            "#[jsg_traceable] cannot be applied to unions"@
        } else {
            "#[jsg_traceable] does not support tuple structs"@
        },
        r matches Ok(expansion) ==> {
            &&& input_stripped(input, expansion.item)
            &&& exists|body: Seq<Sym>| #[trigger]
                gc_impl(input.ident@, body, memory_name) == expansion.code@.skip(1) && match input.data {
                    Data::Struct(Fields::Named(named)) => body == trace_body(
                        trace_statements(named@),
                    ),
                    Data::Enum(variants) => body == enum_trace_body(variants@),
                    _ => body == trace_body(Seq::empty()),
                }
            &&& starts_with(expansion.code@, annotated_item())
        },
{
    if let Ok(expansion) = r {
        let body = match input.data {
            Data::Struct(Fields::Named(named)) => trace_body(trace_statements(named@)),
            Data::Enum(variants) => enum_trace_body(variants@),
            _ => trace_body(Seq::empty()),
        };
        let whole = gc_impl(input.ident@, body, memory_name);
        assert(expansion.code@ == annotated_item() + whole);
        assert(expansion.code@.skip(1) =~= whole);
        assert(expansion.code@.take(1) =~= annotated_item());
    }
}

/// `#[jsg_resource]` accepts structs with named fields and refuses all other
/// definitions. It emits the struct without the markers, under the class name
/// that it is given, and leaves out tracing exactly where the user asks for it.
pub proof fn law_resource_struct_expansion(
    input: DeriveInput,
    class_name: Seq<char>,
    custom_trace: bool,
    r: Result<Expansion, CompileError>,
)
    requires
        is_resource_struct(input, class_name, custom_trace, r),
    ensures
        r is Ok <==> input.data matches Data::Struct(Fields::Named(_)),
        r matches Err(error) ==> error.message@
            == "#[jsg_resource] only supports structs with named fields"@,
        r matches Ok(expansion) ==> {
            &&& input_stripped(input, expansion.item)
            &&& input.data matches Data::Struct(Fields::Named(named)) && expansion.code@
                == resource_struct(input.ident@, named@, class_name, custom_trace)
        },
{
    reveal_strlit("#[");
    reveal_strlit("jsg_resource");
    reveal_strlit("] only supports structs with named fields");
    reveal_strlit("#[jsg_resource] only supports structs with named fields");
    assert("#["@ + "jsg_resource"@ + "] only supports structs with named fields"@
        =~= "#[jsg_resource] only supports structs with named fields"@);
}

/// `#[jsg_resource]` accepts the impl blocks of path types and refuses all
/// others.
pub proof fn law_resource_impl_expansion(
    impl_block: ItemImpl,
    names: Seq<Option<Seq<char>>>,
    r: Result<Code, CompileError>,
)
    requires
        is_resource_impl(impl_block, names, r),
    ensures
        r is Ok <==> impl_block.self_ty.ty is Path,
        r matches Err(error) ==> error.message@
            == "#[jsg_resource] impl blocks must use a simple path type (e.g., `impl MyResource`)"@,
        r matches Ok(emitted) ==> emitted@ == resource_impl(impl_block, names),
{
}

// ---------------------------------------------------------------------------
// Impl blocks
// ---------------------------------------------------------------------------

/// Whether one of `inputs` is `self`.
pub open spec fn has_self(inputs: Seq<FnArg>) -> bool {
    exists|i: int| 0 <= i < inputs.len() && (#[trigger] inputs[i] matches FnArg::Receiver)
}

/// Whether one of `attrs` is the attribute `name`, under any path.
pub open spec fn carries(attrs: Seq<Attribute>, name: Seq<char>) -> bool {
    exists|i: int|
        0 <= i < attrs.len() && (#[trigger] attrs[i]).path.segments@.len() > 0
            && attrs[i].path.segments@.last().ident@ == name
}

proof fn lemma_carries(attrs: Seq<Attribute>, name: Seq<char>)
    ensures
        first_attr(attrs, name) is Some <==> carries(attrs, name),
{
    let pred = |attr: Attribute| path_ends_in(attr.path, name);
    let found = attrs.filter(pred);
    if carries(attrs, name) {
        let i = choose|i: int|
            0 <= i < attrs.len() && (#[trigger] attrs[i]).path.segments@.len() > 0
                && attrs[i].path.segments@.last().ident@ == name;
        attrs.lemma_filter_contains(pred, i);
    }
    if found.len() > 0 {
        attrs.lemma_filter_pred(pred, 0);
        assert(found.contains(found[0]));
        attrs.lemma_filter_contains_rev(pred, found[0]);
        let i = attrs.index_of(found[0]);
        assert(attrs[i].path.segments@.len() > 0);
    }
}

/// Of several attributes with a name the first one counts.
pub proof fn law_first_attribute_counts(
    before: Seq<Attribute>,
    attr: Attribute,
    after: Seq<Attribute>,
    name: Seq<char>,
)
    requires
        !carries(before, name),
        carries(seq![attr], name),
    ensures
        first_attr(before + seq![attr] + after, name) == Some(attr),
        first_attr(before, name) is None,
{
    let pred = |attr: Attribute| path_ends_in(attr.path, name);
    lemma_carries(before, name);
    assert(before.filter(pred) =~= Seq::empty());
    let one = seq![attr];
    let i = choose|i: int|
        0 <= i < one.len() && (#[trigger] one[i]).path.segments@.len() > 0
            && one[i].path.segments@.last().ident@ == name;
    assert(path_ends_in(attr.path, name));
    assert(before + one =~= before.push(attr));
    before.lemma_filter_push(attr, pred);
    Seq::filter_distributes_over_add(before + one, after, pred);
    assert((before + one + after).filter(pred)[0] == attr);
}

/// Whether `method_member` is these stretches with its parts between them,
/// with `instance` at the start for methods that take `self` and `fixed` for
/// those that do not.
pub open spec fn frames_method_member(
    instance: Seq<Sym>,
    fixed: Seq<Sym>,
    b: Seq<Sym>,
    c: Seq<Sym>,
) -> bool {
    forall|method: ImplItemFn, explicit: Option<Seq<char>>| #[trigger]
        method_member(method, explicit) == (if has_self(method.inputs@) {
            instance
        } else {
            fixed
        }) + literal(
            match explicit {
                Some(name) => name,
                None => camel(method.ident@),
            },
        ) + b + code(method.ident@ + "_callback"@) + c
}

/// A method is registered as an instance method where it takes `self` and as a
/// static method where it does not, whatever else it takes and returns. It is
/// registered under its explicit name, else under its own in camel case, with
/// its own callback.
pub proof fn law_methods_are_registered_by_receiver()
    ensures
        exists|instance: Seq<Sym>, fixed: Seq<Sym>, b: Seq<Sym>, c: Seq<Sym>| #[trigger]
            frames_method_member(instance, fixed, b, c) && instance == code(
                "jsg::Member::Method { name: "@,
            ) && fixed == code("jsg::Member::StaticMethod { name: "@) && b == code(
                ".to_owned(), callback: Self::"@,
            ) && c == code(", }"@),
{
    let instance = code("jsg::Member::Method { name: "@);
    let fixed = code("jsg::Member::StaticMethod { name: "@);
    let b = code(".to_owned(), callback: Self::"@);
    let c = code(", }"@);
    assert forall|method: ImplItemFn, explicit: Option<Seq<char>>| #[trigger]
        method_member(method, explicit) == (if has_self(method.inputs@) {
            instance
        } else {
            fixed
        }) + literal(
            match explicit {
                Some(name) => name,
                None => camel(method.ident@),
            },
        ) + b + code(method.ident@ + "_callback"@) + c by {
        lemma_has_self(method.inputs@);
    }
    assert(frames_method_member(instance, fixed, b, c));
}

proof fn lemma_has_self(inputs: Seq<FnArg>)
    ensures
        has_receiver(inputs) <==> has_self(inputs),
{
    if has_self(inputs) {
        let i = choose|i: int|
            0 <= i < inputs.len() && (#[trigger] inputs[i] matches FnArg::Receiver);
        assert(inputs[i] is Receiver);
    }
    if has_receiver(inputs) {
        let i = choose|i: int| 0 <= i < inputs.len() && #[trigger] inputs[i] is Receiver;
        assert(inputs[i] matches FnArg::Receiver);
    }
}

/// Two methods of one name are registered alike where both or neither of them
/// take `self`; else one is registered on the prototype and the other on the
/// constructor.
pub proof fn law_only_the_receiver_matters(
    left: ImplItemFn,
    right: ImplItemFn,
    explicit: Option<Seq<char>>,
)
    requires
        left.ident@ == right.ident@,
    ensures
        has_self(left.inputs@) == has_self(right.inputs@) ==> method_member(left, explicit)
            == method_member(right, explicit),
        has_self(left.inputs@) ==> starts_with(
            method_member(left, explicit),
            code("jsg::Member::Method { "@),
        ),
        !has_self(left.inputs@) ==> starts_with(
            method_member(left, explicit),
            code("jsg::Member::StaticMethod { "@),
        ),
{
    lemma_has_self(left.inputs@);
    lemma_has_self(right.inputs@);
    reveal_strlit("jsg::Member::Method { name: ");
    reveal_strlit("jsg::Member::Method { ");
    reveal_strlit("jsg::Member::StaticMethod { name: ");
    reveal_strlit("jsg::Member::StaticMethod { ");
    let (p, q) = (code("jsg::Member::Method { "@), code("jsg::Member::StaticMethod { "@));
    let m = method_member(left, explicit);
    assert(has_self(left.inputs@) ==> m.take(p.len() as int) =~= p);
    assert(!has_self(left.inputs@) ==> m.take(q.len() as int) =~= q);
}

/// Whether `constant_member` is these stretches with its parts between them.
pub open spec fn frames_constant_member(a: Seq<Sym>, b: Seq<Sym>, c: Seq<Sym>) -> bool {
    forall|constant: ImplItemConst, explicit: Option<Seq<char>>| #[trigger]
        constant_member(constant, explicit) == a + literal(
            match explicit {
                Some(name) => name,
                None => constant.ident@,
            },
        ) + b + code(constant.ident@) + c
}

/// A constant is registered with its own value, under its explicit name, else
/// under its own as it is.
pub proof fn law_constants_are_registered_as_they_are()
    ensures
        exists|a: Seq<Sym>, b: Seq<Sym>, c: Seq<Sym>| #[trigger]
            frames_constant_member(a, b, c) && a == code("jsg::Member::StaticConstant { name: "@)
                && b == code(".to_owned(), value: jsg::ConstantValue::from(Self::"@) && c == code(
                "), }"@,
            ),
{
    let a = code("jsg::Member::StaticConstant { name: "@);
    let b = code(".to_owned(), value: jsg::ConstantValue::from(Self::"@);
    let c = code("), }"@);
    assert(frames_constant_member(a, b, c));
}

/// A further item of an impl block adds its registration behind those of the
/// same sort where it is marked, and none where it is not. The registrations of
/// the others stay as they are.
pub proof fn law_a_marked_item_adds_its_registration(
    items: Seq<ImplItem>,
    names: Seq<Option<Seq<char>>>,
    item: ImplItem,
    name: Option<Seq<char>>,
)
    requires
        names.len() == items.len(),
    ensures
        method_members(Seq::empty(), Seq::empty()) == Seq::<Seq<Sym>>::empty(),
        constant_members(Seq::empty(), Seq::empty()) == Seq::<Seq<Sym>>::empty(),
        constructors(Seq::empty()) == Seq::<ImplItemFn>::empty(),
        method_members(items.push(item), names.push(name)) == match item {
            ImplItem::Fn(method) => if carries(method.attrs@, "jsg_method"@) {
                method_members(items, names).push(method_member(method, name))
            } else {
                method_members(items, names)
            },
            _ => method_members(items, names),
        },
        constant_members(items.push(item), names.push(name)) == match item {
            ImplItem::Const(constant) => if carries(constant.attrs@, "jsg_static_constant"@) {
                constant_members(items, names).push(constant_member(constant, name))
            } else {
                constant_members(items, names)
            },
            _ => constant_members(items, names),
        },
        constructors(items.push(item)) == match item {
            ImplItem::Fn(method) => if carries(method.attrs@, "jsg_constructor"@) {
                constructors(items).push(method)
            } else {
                constructors(items)
            },
            _ => constructors(items),
        },
{
    reveal(Seq::filter_map);
    let none = Seq::<ImplItem>::empty();
    assert(named_items(none, Seq::empty()) =~= Seq::empty());
    assert(method_members(none, Seq::empty()) =~= Seq::empty());
    assert(constant_members(none, Seq::empty()) =~= Seq::empty());
    assert(constructors(none) =~= Seq::empty());
    let pairs = named_items(items, names);
    let all = named_items(items.push(item), names.push(name));
    assert(all =~= pairs.push((item, name)));
    assert(all.drop_last() =~= pairs);
    assert(items.push(item).drop_last() =~= items);
    match item {
        ImplItem::Fn(method) => {
            lemma_carries(method.attrs@, "jsg_method"@);
            lemma_carries(method.attrs@, "jsg_constructor"@);
        },
        ImplItem::Const(constant) => {
            lemma_carries(constant.attrs@, "jsg_static_constant"@);
        },
        ImplItem::Other => {},
    }
}

/// The registrations of an impl block are that of its constructor, if any, then
/// those of its methods, then those of its constants, all of them.
pub proof fn law_members(impl_block: ItemImpl, names: Seq<Option<Seq<char>>>)
    ensures
        members(impl_block, names).len() == method_members(impl_block.items@, names).len()
            + constant_members(impl_block.items@, names).len() + (if constructor_registration(
            impl_block.items@,
            impl_block.self_ty.tokens,
        ) is Some {
            1int
        } else {
            0
        }),
        constructor_registration(
            impl_block.items@,
            impl_block.self_ty.tokens,
        ) matches Some(registration) ==> members(impl_block, names) == seq![registration]
            + method_members(impl_block.items@, names) + constant_members(impl_block.items@, names),
        constructor_registration(impl_block.items@, impl_block.self_ty.tokens) is None ==> members(
            impl_block,
            names,
        ) == method_members(impl_block.items@, names) + constant_members(impl_block.items@, names),
{
    let (m, c) = (method_members(impl_block.items@, names), constant_members(
        impl_block.items@,
        names,
    ));
    assert(Seq::<Seq<Sym>>::empty() + m + c =~= m + c);
}

/// Whether `resource_impl` is these stretches with its parts between them.
pub open spec fn frames_resource_impl(a: Seq<Sym>, b: Seq<Sym>, c: Seq<Sym>) -> bool {
    forall|impl_block: ItemImpl, names: Seq<Option<Seq<char>>>| #[trigger]
        resource_impl(impl_block, names) == annotated_item() + a + source_tokens(
            impl_block.self_ty.tokens,
        ) + b + terminated(members(impl_block, names), code(", "@)) + c
}

/// What is emitted for an impl block is the same for all blocks but for the
/// block itself, its type and its registrations. It is the block, once and
/// before all else, and an implementation of `jsg::Resource` for the type, whose
/// `members` is a `vec!` of all of the registrations and nothing else.
pub proof fn law_resource_impl()
    ensures
        exists|a: Seq<Sym>, b: Seq<Sym>, c: Seq<Sym>| #[trigger]
            frames_resource_impl(a, b, c) && ends_with(a, code("impl jsg::Resource for "@)) && b
                == code(" { fn members() -> Vec<jsg::Member> where Self: Sized, { vec!["@) && c
                == code("] } }"@),
{
    let a = code(" #[automatically_derived] impl jsg::Resource for "@);
    let b = code(" { fn members() -> Vec<jsg::Member> where Self: Sized, { vec!["@);
    let c = code("] } }"@);
    assert(frames_resource_impl(a, b, c));
    reveal_strlit(" #[automatically_derived] impl jsg::Resource for ");
    reveal_strlit("impl jsg::Resource for ");
    let p = code("impl jsg::Resource for "@);
    assert(a.skip(a.len() - p.len()) =~= p);
}

/// Every registration of an impl block stands in the emitted `vec!`, followed by
/// a comma, where those before it end.
pub proof fn law_every_member_is_emitted(
    impl_block: ItemImpl,
    names: Seq<Option<Seq<char>>>,
    i: int,
)
    requires
        0 <= i < members(impl_block, names).len(),
    ensures
        exists|head: Seq<Sym>|
            ends_with(head, code("vec!["@)) && #[trigger] starts_with(
                resource_impl(impl_block, names),
                head,
            ) && stands_at(
                members(impl_block, names)[i] + code(", "@),
                resource_impl(impl_block, names),
                (head.len() + terminated(
                    members(impl_block, names).take(i),
                    code(", "@),
                ).len()) as int,
            ),
{
    let all = members(impl_block, names);
    let whole = resource_impl(impl_block, names);
    let comma = code(", "@);
    let open = code(" { fn members() -> Vec<jsg::Member> where Self: Sized, { vec!["@);
    let head = annotated_item() + code(" #[automatically_derived] impl jsg::Resource for "@)
        + source_tokens(impl_block.self_ty.tokens) + open;
    let list = terminated(all, comma);
    reveal_strlit(" { fn members() -> Vec<jsg::Member> where Self: Sized, { vec![");
    reveal_strlit("vec![");
    let p = code("vec!["@);
    assert(open.skip(open.len() - p.len()) =~= p);
    assert(head.skip(head.len() - p.len()) =~= p);
    assert(whole =~= head + list + code("] } }"@));
    assert(whole.take(head.len() as int) =~= head);
    lemma_terminated_at(all, comma, i);
    let at = terminated(all.take(i), comma).len() as int;
    let part = all[i] + comma;
    assert(list.subrange(at, at + part.len()) == part);
    assert(whole.subrange(head.len() + at, head.len() + at + part.len()) =~= list.subrange(
        at,
        at + part.len(),
    ));
    assert(stands_at(part, whole, head.len() + at));
    assert(starts_with(whole, head));
}

// ---------------------------------------------------------------------------
// Constructors
// ---------------------------------------------------------------------------

/// The parameters of a function are those of its inputs that are not `self`, in
/// order.
pub proof fn law_parameters(inputs: Seq<FnArg>, input: FnArg)
    ensures
        parameters(Seq::empty()) == Seq::<SourceType>::empty(),
        parameters(inputs.push(input)) == match input {
            FnArg::Typed(ty) => parameters(inputs).push(ty),
            FnArg::Receiver => parameters(inputs),
        },
{
    reveal(Seq::filter_map);
    assert(parameters(Seq::empty()) =~= Seq::empty());
    assert(inputs.push(input).drop_last() =~= inputs);
}

/// Whether `ty` is `&mut Lock` or `&mut jsg::Lock`, by the identifiers of its
/// path.
pub open spec fn is_mut_lock(ty: Type) -> bool {
    match ty {
        Type::Reference { mutable, elem } => mutable && match *elem {
            Type::Path(path) => {
                let segments = path.segments@;
                ||| segments.len() == 1 && segments[0].ident@ == "Lock"@
                ||| segments.len() == 2 && segments[0].ident@ == "jsg"@ && segments[1].ident@
                    == "Lock"@
            },
            _ => false,
        },
        _ => false,
    }
}

/// The lock is taken exactly where the first parameter is `&mut Lock` or
/// `&mut jsg::Lock`. Then the JavaScript arguments are the parameters behind it,
/// else all parameters.
pub proof fn law_lock_is_the_first_parameter(inputs: Seq<FnArg>)
    ensures
        takes_lock(inputs) <==> parameters(inputs).len() > 0 && is_mut_lock(
            parameters(inputs)[0].ty,
        ),
        takes_lock(inputs) ==> parameters(inputs) == seq![parameters(inputs)[0]] + js_parameters(
            inputs,
        ),
        !takes_lock(inputs) ==> js_parameters(inputs) == parameters(inputs),
{
    let all = parameters(inputs);
    if all.len() > 0 {
        law_lock_types(all[0].ty);
        assert(all =~= seq![all[0]] + all.skip(1));
    }
}

/// The types of the lock are `&mut Lock` and `&mut jsg::Lock`.
pub proof fn law_lock_types(ty: Type)
    ensures
        lock_ref(ty) <==> is_mut_lock(ty),
{
    if let Type::Reference { mutable, elem } = ty {
        if let Type::Path(path) = *elem {
            let idents = path_idents(path);
            let segments = path.segments@;
            assert(idents.len() == segments.len());
            assert(forall|i: int| 0 <= i < segments.len() ==> #[trigger] idents[i] == segments[i].ident@);
            if is_mut_lock(ty) {
                assert(idents =~= seq!["Lock"@] || idents =~= seq!["jsg"@, "Lock"@]);
            }
            if idents == seq!["Lock"@] {
                assert(idents[0] == "Lock"@);
            }
            if idents == seq!["jsg"@, "Lock"@] {
                assert(idents[0] == "jsg"@ && idents[1] == "Lock"@);
            }
        }
    }
}

/// Whether `argument_unwrap` is these stretches with its parts between them.
pub open spec fn frames_argument_unwrap(a: Seq<Sym>, b: Seq<Sym>, c: Seq<Sym>, d: Seq<Sym>) -> bool {
    forall|index: nat, ty: usize| #[trigger]
        argument_unwrap(index, ty) == a + code("arg"@ + decimal(index)) + b + source_tokens(ty) + c
            + code(decimal(index) + "usize"@) + d
}

/// Every JavaScript argument is converted alike: the argument with an index to
/// the type of the parameter with that index, into the variable with that
/// index; where that fails, the error is thrown and the callback is left.
pub proof fn law_arguments_are_converted_alike()
    ensures
        exists|a: Seq<Sym>, b: Seq<Sym>, c: Seq<Sym>, d: Seq<Sym>| #[trigger]
            frames_argument_unwrap(a, b, c, d) && a == code("let "@) && b == code(" = match <"@)
                && c == code(" as jsg::FromJS>::from_js(&mut lock, args.get("@) && d == code(
                ")) { Ok(v) => v, Err(e) => { lock.throw_exception(&e); return; } };"@,
            ),
{
    let a = code("let "@);
    let b = code(" = match <"@);
    let c = code(" as jsg::FromJS>::from_js(&mut lock, args.get("@);
    let d = code(")) { Ok(v) => v, Err(e) => { lock.throw_exception(&e); return; } };"@);
    assert(frames_argument_unwrap(a, b, c, d));
}

/// Each JavaScript argument of a constructor is converted and passed once, in
/// the order of the parameters, through the variable that it is converted into.
pub proof fn law_every_argument_is_passed(inputs: Seq<FnArg>)
    ensures
        argument_unwraps(inputs).len() == js_parameters(inputs).len(),
        argument_variables(inputs).len() == js_parameters(inputs).len(),
        forall|i: int|
            0 <= i < js_parameters(inputs).len() ==> #[trigger] argument_unwraps(inputs)[i]
                == argument_unwrap(i as nat, js_parameters(inputs)[i].tokens),
        forall|i: int|
            0 <= i < js_parameters(inputs).len() ==> #[trigger] argument_variables(inputs)[i]
                == code("arg"@ + decimal(i as nat)),
{
}

/// Whether `constructor_callback` is these stretches with its parts between
/// them: the name of the callback, the conversions of the arguments, the call of
/// the constructor of the type with its arguments, and the name of the callback
/// again.
pub open spec fn frames_constructor(
    a: Seq<Sym>,
    b: Seq<Sym>,
    c: Seq<Sym>,
    d: Seq<Sym>,
    e: Seq<Sym>,
) -> bool {
    forall|method: ImplItemFn, self_ty: usize| #[trigger]
        constructor_callback(method, self_ty) == a + code(
            method.ident@ + "_constructor_callback"@,
        ) + b + terminated(argument_unwraps(method.inputs@), code(" "@)) + c + source_tokens(self_ty)
            + constructor_call(method) + d + code(method.ident@ + "_constructor_callback"@) + e
}

/// `::name(&mut lock, arg0, arg1`: the call of a constructor behind its type,
/// with the lock where it takes it, up to the closing bracket.
pub open spec fn constructor_call(method: ImplItemFn) -> Seq<Sym> {
    code("::"@) + code(method.ident@) + code("("@) + (if parameters(method.inputs@).len() > 0
        && is_mut_lock(parameters(method.inputs@)[0].ty) {
        code("&mut lock, "@)
    } else {
        Seq::empty()
    }) + separated(argument_variables(method.inputs@), code(", "@))
}

/// The callback of a constructor is the same for all constructors but for its
/// name, its type and its parameters. It converts the arguments, calls the
/// constructor once, and attaches what that returns to the new object.
pub proof fn law_constructors_attach_the_resource()
    ensures
        exists|a: Seq<Sym>, b: Seq<Sym>, c: Seq<Sym>, d: Seq<Sym>, e: Seq<Sym>| #[trigger]
            frames_constructor(a, b, c, d, e) && starts_with(
                a,
                code("jsg::Member::Constructor { callback: "@),
            ) && c == code("let resource = "@) && d == code(
                "); let rc = jsg::Rc::new(resource); rc.attach_to_this(&mut args); }); } "@,
            ) && e == code(" }, }"@),
{
    let a = code("jsg::Member::Constructor { callback: { unsafe extern \"C\" fn "@);
    let b = code(
        "(info: *mut jsg::v8::ffi::FunctionCallbackInfo,) { let mut lock = unsafe { jsg::Lock::from_args(info) }; jsg::catch_panic(&mut lock, || { let mut args = unsafe { jsg::v8::FunctionCallbackInfo::from_ffi(info) }; let mut lock = unsafe { jsg::Lock::from_args(info) }; "@,
    );
    let c = code("let resource = "@);
    let d = code("); let rc = jsg::Rc::new(resource); rc.attach_to_this(&mut args); }); } "@);
    let e = code(" }, }"@);
    assert forall|method: ImplItemFn, self_ty: usize| #[trigger]
        constructor_callback(method, self_ty) == a + code(
            method.ident@ + "_constructor_callback"@,
        ) + b + terminated(argument_unwraps(method.inputs@), code(" "@)) + c + source_tokens(self_ty)
            + constructor_call(method) + d + code(
            method.ident@ + "_constructor_callback"@,
        ) + e by {
        law_lock_is_the_first_parameter(method.inputs@);
        let head = a + code(method.ident@ + "_constructor_callback"@) + b + terminated(
            argument_unwraps(method.inputs@),
            code(" "@),
        ) + c + source_tokens(self_ty);
        let lock = if takes_lock(method.inputs@) {
            code("&mut lock, "@)
        } else {
            Seq::empty()
        };
        let list = separated(argument_variables(method.inputs@), code(", "@));
        assert(head + code("::"@) + code(method.ident@) + code("("@) + lock + list =~= head
            + constructor_call(method));
    }
    assert(frames_constructor(a, b, c, d, e));
    reveal_strlit("jsg::Member::Constructor { callback: { unsafe extern \"C\" fn ");
    reveal_strlit("jsg::Member::Constructor { callback: ");
    let p = code("jsg::Member::Constructor { callback: "@);
    assert(a.take(p.len() as int) =~= p);
}

/// Whether a function returns the type `Self`, spelt so.
pub open spec fn is_self_type(output: ReturnType) -> bool {
    match output {
        ReturnType::Type(Type::Path(path)) => {
            &&& !path.leading_colon
            &&& path.segments@.len() == 1
            &&& path.segments@[0].arguments is Absent
            &&& path.segments@[0].ident@ == "Self"@
        },
        _ => false,
    }
}

/// A constructor is refused where it takes `self`, whatever it returns, and
/// where it does not return `Self`; else it is accepted.
pub proof fn law_refused_constructors(method: ImplItemFn)
    ensures
        constructor_error(method) == if has_self(method.inputs@) {
            Some(
                code(
                    "compile_error!(\"#[jsg_constructor] must be a static method (no self receiver)\");"@,
                ),
            )
        } else if !is_self_type(method.output) {
            Some(code("compile_error!(\"#[jsg_constructor] must return Self\");"@))
        } else {
            None
        },
{
    lemma_has_self(method.inputs@);
}

/// What is registered for the constructors of an impl block: nothing without
/// one; an error for more than one, for one that takes `self` and for one that
/// does not return `Self`; else its callback.
pub proof fn law_constructor_registration(items: Seq<ImplItem>, self_ty: usize)
    ensures
        constructor_registration(items, self_ty) is None <==> constructors(items).len() == 0,
        constructors(items).len() > 1 ==> constructor_registration(items, self_ty) == Some(
            code("compile_error!(\"only one #[jsg_constructor] is allowed per impl block\");"@),
        ),
        constructors(items).len() == 1 ==> {
            let method = constructors(items)[0];
            constructor_registration(items, self_ty) == Some(
                if has_self(method.inputs@) {
                    code(
                        "compile_error!(\"#[jsg_constructor] must be a static method (no self receiver)\");"@,
                    )
                } else if !is_self_type(method.output) {
                    code("compile_error!(\"#[jsg_constructor] must return Self\");"@)
                } else {
                    constructor_callback(method, self_ty)
                },
            )
        },
{
    if constructors(items).len() == 1 {
        lemma_has_self(constructors(items)[0].inputs@);
    }
}

} // verus!

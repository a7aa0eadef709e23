//! GC trace code generation for the fields of structs.
//!
//! Classifies the types of fields and emits the statements of a
//! `GarbageCollected::trace` body that call `visitor.visit_rc` or
//! `visitor.visit_global` for every field whose type is, or holds, a traceable
//! JSG handle.
//!
//! | Field type                           | Emitted trace call                      |
//! |--------------------------------------|-----------------------------------------|
//! | `jsg::Rc<T>`                         | `visitor.visit_rc(&self.f)`             |
//! | `jsg::v8::Global<T>`                 | `visitor.visit_global(&self.f)`         |
//! | `Option` or `Nullable` of a handle   | if-let + visit                          |
//! | `Vec`, `HashSet`, `BTreeSet`         | for-loop + visit                        |
//! | `HashMap`, `BTreeMap`                | for-loop on `.values()` + visit         |
//! | `Cell<T>` for any of the above       | same via `unsafe { &*self.f.as_ptr() }` |
//! | any type under `#[jsg_trace]`        | `jsg::GarbageCollected::trace`          |
//! | `jsg::Weak<T>`                       | nothing, weak references are not traced |

use vstd::prelude::*;

use crate::code::{code, views, Code, Sym};
use crate::syntax::{
    ident_is, path_idents, path_is_ident, Attribute, Field, GenericArgument, PathArguments, PathSegment, Type,
};

verus! {

/// Classification of a JSG type that participates, or not, in GC tracing.
#[derive(Debug, Clone, Copy, PartialEq, Eq, Structural)]
pub enum TraceableType {
    /// `jsg::Rc<T>`: a strong GC edge, visited via `GcVisitor::visit_rc`.
    Ref,
    /// `jsg::Weak<T>`: not traced, as it does not keep its target alive.
    Weak,
    /// `jsg::v8::Global<T>`: a JS value, visited via `GcVisitor::visit_global`.
    Global,
    /// Not a handle.
    Untraceable,
}

/// Whether the wrapping optional type is `Option` or `jsg::Nullable`.
#[derive(Debug, Clone, Copy, PartialEq, Eq, Structural)]
pub enum OptionalKind {
    Option,
    Nullable,
}

/// How to iterate over the traceable values in a collection field.
#[derive(Debug, Clone, Copy, PartialEq, Eq, Structural)]
pub enum CollectionIterStyle {
    /// `Vec<T>`, `HashSet<T>`, `BTreeSet<T>`: iterate elements directly.
    IterElements,
    /// `HashMap<K, V>`, `BTreeMap<K, V>`: iterate `.values()`.
    IterValues,
}

// ---------------------------------------------------------------------------
// What types mean
// ---------------------------------------------------------------------------

/// The kind of handle that `ty` is: `jsg::Rc`, `jsg::Weak` and
/// `jsg::v8::Global`, spelt out in full, and nothing else.
pub open spec fn traceable_type(ty: Type) -> TraceableType {
    match ty {
        Type::Path(path) => {
            let idents = path_idents(path);
            if idents == seq!["jsg"@, "Rc"@] {
                TraceableType::Ref
            } else if idents == seq!["jsg"@, "Weak"@] {
                TraceableType::Weak
            } else if idents == seq!["jsg"@, "v8"@, "Global"@] {
                TraceableType::Global
            } else {
                TraceableType::Untraceable
            }
        },
        _ => TraceableType::Untraceable,
    }
}

/// Whether handles of kind `kind` are visited.
pub open spec fn is_strong(kind: TraceableType) -> bool {
    kind is Ref || kind is Global
}

/// The last segment of a path type.
pub open spec fn last_segment(ty: Type) -> Option<PathSegment> {
    match ty {
        Type::Path(path) => if path.segments@.len() > 0 {
            Some(path.segments@.last())
        } else {
            None
        },
        _ => None,
    }
}

/// The first of the arguments in angle brackets, where that is a type.
pub open spec fn first_type_argument(arguments: PathArguments) -> Option<Type> {
    match arguments {
        PathArguments::AngleBracketed(args) => if args@.len() > 0 {
            match args@[0] {
                GenericArgument::Type(ty) => Some(ty),
                GenericArgument::Other => None,
            }
        } else {
            None
        },
        _ => None,
    }
}

/// The types among the arguments in angle brackets, in order.
pub open spec fn type_arguments(arguments: PathArguments) -> Seq<Type> {
    match arguments {
        PathArguments::AngleBracketed(args) => args@.filter_map(argument_type()),
        _ => Seq::empty(),
    }
}

/// The type that a generic argument is.
pub open spec fn argument_type() -> spec_fn(GenericArgument) -> Option<Type> {
    |arg: GenericArgument|
        match arg {
            GenericArgument::Type(ty) => Some(ty),
            GenericArgument::Other => None,
        }
}

/// Which optional type the identifier `name` stands for.
pub open spec fn optional_kind(name: Seq<char>) -> Option<OptionalKind> {
    if name == "Option"@ {
        Some(OptionalKind::Option)
    } else if name == "Nullable"@ {
        Some(OptionalKind::Nullable)
    } else {
        None
    }
}

/// `T`, where `ty` is `Option<T>` or `Nullable<T>` under any path.
pub open spec fn optional_inner(ty: Type) -> Option<(OptionalKind, Type)> {
    match last_segment(ty) {
        Some(segment) => match (
            optional_kind(segment.ident@),
            first_type_argument(segment.arguments),
        ) {
            (Some(kind), Some(inner)) => Some((kind, inner)),
            _ => None,
        },
        None => None,
    }
}

/// `T`, where `ty` is `Cell<T>` or `std::cell::Cell<T>`.
pub open spec fn cell_inner(ty: Type) -> Option<Type> {
    match ty {
        Type::Path(path) => if path_idents(path) == seq!["Cell"@] || path_idents(path) == seq![
            "std"@,
            "cell"@,
            "Cell"@,
        ] {
            first_type_argument(path.segments@.last().arguments)
        } else {
            None
        },
        _ => None,
    }
}

/// How the collection type named `name` is iterated.
pub open spec fn collection_style(name: Seq<char>) -> Option<CollectionIterStyle> {
    if name == "Vec"@ || name == "HashSet"@ || name == "BTreeSet"@ {
        Some(CollectionIterStyle::IterElements)
    } else if name == "HashMap"@ || name == "BTreeMap"@ {
        Some(CollectionIterStyle::IterValues)
    } else {
        None
    }
}

/// Which of its type arguments a collection holds handles in: the element
/// type, or the value type of a map.
pub open spec fn value_argument_index(style: CollectionIterStyle) -> int {
    match style {
        CollectionIterStyle::IterElements => 0,
        CollectionIterStyle::IterValues => 1,
    }
}

/// The iteration style and the element or value type, where `ty` is one of
/// the supported collections under any path.
pub open spec fn collection_value(ty: Type) -> Option<(CollectionIterStyle, Type)> {
    match last_segment(ty) {
        Some(segment) => match collection_style(segment.ident@) {
            Some(style) => {
                let types = type_arguments(segment.arguments);
                let index = value_argument_index(style);
                if index < types.len() {
                    Some((style, types[index]))
                } else {
                    None
                }
            },
            None => None,
        },
        None => None,
    }
}

/// The iteration style and the kind of handle, where `ty` is a supported
/// collection of visited handles.
pub open spec fn collection_traceable(ty: Type) -> Option<(CollectionIterStyle, TraceableType)> {
    match collection_value(ty) {
        Some((style, value)) => if is_strong(traceable_type(value)) {
            Some((style, traceable_type(value)))
        } else {
            None
        },
        None => None,
    }
}

/// What stands between a field and the handles in it.
pub enum Holder {
    /// The field is the handle.
    Bare,
    /// The field is an optional handle.
    Optional(OptionalKind),
    /// The field is a collection of handles.
    Collection(CollectionIterStyle),
}

/// The shape of a traced field: how it holds which kind of handle, and whether
/// all of that is inside a `Cell`.
pub struct Shape {
    pub cell: bool,
    pub holder: Holder,
    pub handle: TraceableType,
}

/// The shape of a field of type `ty` outside a `Cell`.
pub open spec fn direct_shape(ty: Type) -> Option<Shape> {
    if is_strong(traceable_type(ty)) {
        Some(Shape { cell: false, holder: Holder::Bare, handle: traceable_type(ty) })
    } else {
        match (optional_inner(ty), collection_traceable(ty)) {
            (Some((kind, inner)), _) => if is_strong(traceable_type(inner)) {
                Some(
                    Shape {
                        cell: false,
                        holder: Holder::Optional(kind),
                        handle: traceable_type(inner),
                    },
                )
            } else {
                None
            },
            (None, Some((style, handle))) => Some(
                Shape { cell: false, holder: Holder::Collection(style), handle },
            ),
            (None, None) => None,
        }
    }
}

/// The shape of a field of type `ty`, where fields of that type are traced.
pub open spec fn shape_of(ty: Type) -> Option<Shape> {
    match cell_inner(ty) {
        Some(inner) => match direct_shape(inner) {
            Some(shape) => Some(Shape { cell: true, ..shape }),
            None => None,
        },
        None => direct_shape(ty),
    }
}

// ---------------------------------------------------------------------------
// What is emitted
// ---------------------------------------------------------------------------

/// The visitor method for strong handles of kind `kind`.
pub open spec fn visit_method(kind: TraceableType) -> Seq<char>
    recommends
        is_strong(kind),
{
    if kind is Ref {
        "visit_rc"@
    } else {
        "visit_global"@
    }
}

/// The pattern constructor that takes an optional of kind `kind` apart.
pub open spec fn some_constructor(kind: OptionalKind) -> Seq<char> {
    match kind {
        OptionalKind::Option => "Some"@,
        OptionalKind::Nullable => "jsg::Nullable::Some"@,
    }
}

/// What a loop over the collection `accessor` iterates.
pub open spec fn iterated(accessor: Seq<Sym>, style: CollectionIterStyle) -> Seq<Sym> {
    match style {
        CollectionIterStyle::IterElements => accessor,
        CollectionIterStyle::IterValues => code("("@) + accessor + code(").values()"@),
    }
}

/// The loop that visits the handles of kind `kind` in the collection
/// `accessor`; no code at all for handles that are not visited.
pub open spec fn collection_trace_loop(
    accessor: Seq<Sym>,
    style: CollectionIterStyle,
    kind: TraceableType,
) -> Seq<Sym> {
    if is_strong(kind) {
        code("for __item in "@) + iterated(accessor, style) + code(" { visitor."@) + code(
            visit_method(kind),
        ) + code("(__item); }"@)
    } else {
        Seq::empty()
    }
}

/// The statement that traces the field `name` of `self`, which has the shape
/// `shape`.
pub open spec fn field_statement(name: Seq<char>, shape: Shape) -> Seq<Sym> {
    let visit = code(visit_method(shape.handle));
    match shape.holder {
        Holder::Bare => if shape.cell {
            code("unsafe { visitor."@) + visit + code("(&*self."@) + code(name) + code(
                ".as_ptr()); }"@,
            )
        } else {
            code("visitor."@) + visit + code("(&self."@) + code(name) + code(");"@)
        },
        Holder::Optional(kind) => if shape.cell {
            code("if let "@) + code(some_constructor(kind)) + code("(inner) = unsafe { &*self."@)
                + code(name) + code(".as_ptr() } { visitor."@) + visit + code("(inner); }"@)
        } else {
            code("if let "@) + code(some_constructor(kind)) + code("(ref inner) = self."@) + code(
                name,
            ) + code(" { visitor."@) + visit + code("(inner); }"@)
        },
        Holder::Collection(style) => {
            let accessor = if shape.cell {
                code("unsafe { &*self."@) + code(name) + code(".as_ptr() }"@)
            } else {
                code("&self."@) + code(name)
            };
            collection_trace_loop(accessor, style, shape.handle)
        },
    }
}

/// The statement that leaves tracing the field `name` of `self` to its type.
pub open spec fn delegate_statement(name: Seq<char>) -> Seq<Sym> {
    code("jsg::GarbageCollected::trace(&self."@) + code(name) + code(", visitor);"@)
}

/// Whether `attr` is the marker `#[jsg_trace]`.
pub open spec fn is_jsg_trace(attr: Attribute) -> bool {
    path_is_ident(attr.path, "jsg_trace"@)
}

/// Whether `field` is marked `#[jsg_trace]`.
pub open spec fn has_jsg_trace(field: Field) -> bool {
    exists|i: int| 0 <= i < field.attrs@.len() && is_jsg_trace(#[trigger] field.attrs@[i])
}

/// The statement emitted for a field of a struct, where there is one: named
/// fields that are marked `#[jsg_trace]` or have a traced shape have one.
pub open spec fn trace_statement(field: Field) -> Option<Seq<Sym>> {
    match field.ident {
        Some(name) => if has_jsg_trace(field) {
            Some(delegate_statement(name@))
        } else {
            match shape_of(field.ty) {
                Some(shape) => Some(field_statement(name@, shape)),
                None => None,
            }
        },
        None => None,
    }
}

/// The statements emitted for the fields of a struct, in the order of the
/// fields.
pub open spec fn trace_statements(fields: Seq<Field>) -> Seq<Seq<Sym>> {
    fields.filter_map(statement_of_field())
}

/// The statement emitted for a field of a struct, as a function.
pub open spec fn statement_of_field() -> spec_fn(Field) -> Option<Seq<Sym>> {
    |field: Field| trace_statement(field)
}

/// The contents of code that may be absent.
pub open spec fn view_option(code: Option<Code>) -> Option<Seq<Sym>> {
    match code {
        Some(code) => Some(code@),
        None => None,
    }
}

// ---------------------------------------------------------------------------
// Type classification
// ---------------------------------------------------------------------------

/// Returns the `TraceableType` for `jsg::Rc<T>`, `jsg::Weak<T>`, or
/// `jsg::v8::Global<T>`, and `Untraceable` for everything else.
pub fn get_traceable_type(ty: &Type) -> (r: TraceableType)
    ensures
        r == traceable_type(*ty),
{
    let Type::Path(path) = ty else {
        return TraceableType::Untraceable;
    };
    let rc = ["jsg", "Rc"];
    let weak = ["jsg", "Weak"];
    let global = ["jsg", "v8", "Global"];
    assert(rc@.map_values(|name: &str| name@) =~= seq!["jsg"@, "Rc"@]);
    assert(weak@.map_values(|name: &str| name@) =~= seq!["jsg"@, "Weak"@]);
    assert(global@.map_values(|name: &str| name@) =~= seq!["jsg"@, "v8"@, "Global"@]);
    if path.spells(&rc) {
        TraceableType::Ref
    } else if path.spells(&weak) {
        TraceableType::Weak
    } else if path.spells(&global) {
        TraceableType::Global
    } else {
        TraceableType::Untraceable
    }
}

/// The last segment of a path type.
fn get_last_segment(ty: &Type) -> (r: Option<&PathSegment>)
    ensures
        match r {
            Some(segment) => last_segment(*ty) == Some(*segment),
            None => last_segment(*ty) is None,
        },
{
    match ty {
        Type::Path(path) => if path.segments.len() > 0 {
            Some(&path.segments[path.segments.len() - 1])
        } else {
            None
        },
        _ => None,
    }
}

/// The first of the arguments in angle brackets, where that is a type.
fn get_first_type_argument(arguments: &PathArguments) -> (r: Option<&Type>)
    ensures
        match r {
            Some(ty) => first_type_argument(*arguments) == Some(*ty),
            None => first_type_argument(*arguments) is None,
        },
{
    let PathArguments::AngleBracketed(args) = arguments else {
        return None;
    };
    if args.len() == 0 {
        return None;
    }
    match &args[0] {
        GenericArgument::Type(ty) => Some(ty),
        GenericArgument::Other => None,
    }
}

/// Extracts the inner type from `Option<T>` or `Nullable<T>` if present.
pub fn extract_optional_inner(ty: &Type) -> (r: Option<(OptionalKind, &Type)>)
    ensures
        match r {
            Some((kind, inner)) => optional_inner(*ty) == Some((kind, *inner)),
            None => optional_inner(*ty) is None,
        },
{
    let Some(segment) = get_last_segment(ty) else {
        return None;
    };
    let Some(inner) = get_first_type_argument(&segment.arguments) else {
        return None;
    };
    if ident_is(&segment.ident, "Option") {
        Some((OptionalKind::Option, inner))
    } else if ident_is(&segment.ident, "Nullable") {
        Some((OptionalKind::Nullable, inner))
    } else {
        None
    }
}

/// Extracts the inner type `T` from `Cell<T>` or `std::cell::Cell<T>`.
pub fn extract_cell_inner(ty: &Type) -> (r: Option<&Type>)
    ensures
        match r {
            Some(inner) => cell_inner(*ty) == Some(*inner),
            None => cell_inner(*ty) is None,
        },
{
    let Type::Path(path) = ty else {
        return None;
    };
    let bare = ["Cell"];
    let qualified = ["std", "cell", "Cell"];
    assert(bare@.map_values(|name: &str| name@) =~= seq!["Cell"@]);
    assert(qualified@.map_values(|name: &str| name@) =~= seq!["std"@, "cell"@, "Cell"@]);
    if path.spells(&bare) || path.spells(&qualified) {
        assert(path_idents(*path).len() == path.segments@.len());
        get_first_type_argument(&path.segments[path.segments.len() - 1].arguments)
    } else {
        None
    }
}

/// What a prefix of `s` maps to is a prefix of what `s` maps to.
proof fn lemma_filter_map_prefix<A, B>(s: Seq<A>, f: spec_fn(A) -> Option<B>, n: int)
    requires
        0 <= n <= s.len(),
    ensures
        s.take(n).filter_map(f).len() <= s.filter_map(f).len(),
        forall|i: int|
            0 <= i < s.take(n).filter_map(f).len() ==> #[trigger] s.take(n).filter_map(f)[i]
                == s.filter_map(f)[i],
    decreases s.len(),
{
    if n == s.len() {
        assert(s.take(n) =~= s);
    } else {
        lemma_filter_map_prefix(s.drop_last(), f, n);
        assert(s.drop_last().take(n) =~= s.take(n));
    }
}

/// The `n`-th of the types among the arguments in angle brackets.
fn get_type_argument(arguments: &PathArguments, n: usize) -> (r: Option<&Type>)
    ensures
        match r {
            Some(ty) => n < type_arguments(*arguments).len() && type_arguments(*arguments)[n as int]
                == *ty,
            None => n >= type_arguments(*arguments).len(),
        },
{
    let PathArguments::AngleBracketed(args) = arguments else {
        return None;
    };
    let ghost f = argument_type();
    let mut seen: usize = 0;
    let mut i: usize = 0;
    while i < args.len()
        invariant
            i <= args@.len(),
            seen <= i,
            seen <= n,
            f == argument_type(),
            seen == args@.take(i as int).filter_map(f).len(),
            type_arguments(*arguments) == args@.filter_map(f),
        decreases args@.len() - i,
    {
        proof {
            args@.lemma_filter_map_take_succ(f, i as int);
            lemma_filter_map_prefix(args@, f, i + 1);
        }
        if let GenericArgument::Type(ty) = &args[i] {
            if seen == n {
                assert(args@.take(i + 1).filter_map(f)[n as int] == *ty);
                return Some(ty);
            }
            seen += 1;
        }
        i += 1;
    }
    assert(args@.take(i as int) =~= args@);
    None
}

/// If `ty` is one of the supported collection wrappers (`Vec`, `HashMap`,
/// `BTreeMap`, `HashSet`, `BTreeSet`) and its value or element type argument
/// is a visited JSG handle, returns the iteration style and the kind of
/// handle.
///
/// Accepts both unqualified names (`Vec<T>`) and path-qualified forms
/// (`std::collections::HashMap<K, V>`, `std::vec::Vec<T>`) by matching only
/// on the last path segment.
pub fn extract_collection_traceable(ty: &Type) -> (r: Option<(CollectionIterStyle, TraceableType)>)
    ensures
        r == collection_traceable(*ty),
{
    let Some(last) = get_last_segment(ty) else {
        return None;
    };
    let (style, value_arg_index): (CollectionIterStyle, usize) = if ident_is(&last.ident, "Vec")
        || ident_is(&last.ident, "HashSet") || ident_is(&last.ident, "BTreeSet") {
        (CollectionIterStyle::IterElements, 0)
    } else if ident_is(&last.ident, "HashMap") || ident_is(&last.ident, "BTreeMap") {
        (CollectionIterStyle::IterValues, 1)
    } else {
        return None;
    };
    let Some(value_ty) = get_type_argument(&last.arguments, value_arg_index) else {
        return None;
    };
    let traceable = get_traceable_type(value_ty);
    match traceable {
        TraceableType::Untraceable | TraceableType::Weak => None,
        _ => Some((style, traceable)),
    }
}

/// Whether `attr` is the marker `#[jsg_trace]`.
pub fn is_jsg_trace_attr(attr: &Attribute) -> (r: bool)
    ensures
        r == is_jsg_trace(*attr),
{
    attr.path.is_ident("jsg_trace")
}

/// Whether `field` is marked `#[jsg_trace]`.
pub fn has_jsg_trace_attr(field: &Field) -> (r: bool)
    ensures
        r == has_jsg_trace(*field),
{
    let mut i: usize = 0;
    while i < field.attrs.len()
        invariant
            i <= field.attrs@.len(),
            forall|j: int| 0 <= j < i ==> !is_jsg_trace(#[trigger] field.attrs@[j]),
        decreases field.attrs@.len() - i,
    {
        if is_jsg_trace_attr(&field.attrs[i]) {
            return true;
        }
        i += 1;
    }
    false
}

// ---------------------------------------------------------------------------
// Code generation
// ---------------------------------------------------------------------------

/// The visitor method for strong handles of kind `kind`.
pub fn get_visit_method(kind: TraceableType) -> (r: &'static str)
    requires
        is_strong(kind),
    ensures
        r@ == visit_method(kind),
{
    match kind {
        TraceableType::Ref => "visit_rc",
        _ => "visit_global",
    }
}

/// The pattern constructor that takes an optional of kind `kind` apart.
pub fn get_some_constructor(kind: OptionalKind) -> (r: &'static str)
    ensures
        r@ == some_constructor(kind),
{
    match kind {
        OptionalKind::Option => "Some",
        OptionalKind::Nullable => "jsg::Nullable::Some",
    }
}

/// Emits a for-loop that visits every traceable element or value in a
/// collection. `accessor` is the expression that borrows the collection.
pub fn generate_collection_trace_loop(
    accessor: &Code,
    style: &CollectionIterStyle,
    traceable: TraceableType,
) -> (r: Code)
    ensures
        r@ == collection_trace_loop(accessor@, *style, traceable),
{
    match traceable {
        TraceableType::Ref | TraceableType::Global => {
            let mut iter_expr = Code::new();
            match style {
                CollectionIterStyle::IterElements => {
                    iter_expr.append(accessor);
                    assert(iter_expr@ =~= accessor@);
                },
                CollectionIterStyle::IterValues => {
                    iter_expr = Code::from_text("(");
                    iter_expr.append(accessor);
                    iter_expr.text(").values()");
                },
            }
            let mut r = Code::from_text("for __item in ");
            r.append(&iter_expr);
            r.text(" { visitor.");
            r.text(get_visit_method(traceable));
            r.text("(__item); }");
            r
        },
        TraceableType::Weak | TraceableType::Untraceable => Code::new(),
    }
}

/// An optional is neither a collection nor a handle, and a handle is not a
/// collection: the names they end in differ.
pub proof fn lemma_holders_disjoint(ty: Type)
    ensures
        optional_inner(ty) is Some ==> collection_value(ty) is None,
        optional_inner(ty) is Some ==> traceable_type(ty) is Untraceable,
        collection_value(ty) is Some ==> traceable_type(ty) is Untraceable,
{
    reveal_strlit("Option");
    reveal_strlit("Nullable");
    reveal_strlit("Vec");
    reveal_strlit("HashSet");
    reveal_strlit("BTreeSet");
    reveal_strlit("HashMap");
    reveal_strlit("BTreeMap");
    reveal_strlit("Rc");
    reveal_strlit("Weak");
    reveal_strlit("Global");
    if let Type::Path(path) = ty {
        let idents = path_idents(path);
        if path.segments@.len() > 0 {
            assert(idents.last() == path.segments@.last().ident@);
            let name = idents.last();
            // A name that differs from another in its length or in a
            // character is another name.
            assert(optional_kind(name) is Some ==> name.len() == 6 && name[0] == 'O' || name.len()
                == 8 && name[0] == 'N');
            assert(collection_style(name) is Some ==> name.len() == 3 && name[0] == 'V'
                || name.len() == 7 && name[0] == 'H' || name.len() == 8 && name[0] == 'B');
            assert(traceable_type(ty) !is Untraceable ==> name.len() == 2 || name.len() == 4
                || name.len() == 6 && name[0] == 'G');
        }
    }
}

/// A `Cell` is no handle, no optional and no collection.
pub proof fn lemma_cell_disjoint(ty: Type)
    ensures
        cell_inner(ty) is Some ==> {
            &&& traceable_type(ty) is Untraceable
            &&& optional_inner(ty) is None
            &&& collection_value(ty) is None
        },
{
    reveal_strlit("Cell");
    reveal_strlit("Option");
    reveal_strlit("Nullable");
    reveal_strlit("Vec");
    reveal_strlit("HashSet");
    reveal_strlit("BTreeSet");
    reveal_strlit("HashMap");
    reveal_strlit("BTreeMap");
    reveal_strlit("Rc");
    reveal_strlit("Weak");
    reveal_strlit("Global");
    if let Type::Path(path) = ty {
        if cell_inner(ty) is Some {
            let idents = path_idents(path);
            assert(idents.last() == "Cell"@);
            assert(path.segments@.last().ident@ == "Cell"@);
            assert("Cell"@[0] == 'C');
            assert("Weak"@[0] == 'W');
            assert(traceable_type(ty) !is Untraceable ==> idents.last() == "Rc"@ || idents.last()
                == "Weak"@ || idents.last() == "Global"@);
        }
    }
}

/// Generates a trace statement for a field that is wrapped in `Cell<T>`.
///
/// `GarbageCollected::trace` receives `&self`, so the emitted code reads
/// through the cell with `Cell::as_ptr`, which asks for no `T: Copy`. This is
/// sound because V8 GC tracing is always single-threaded within an isolate and
/// never re-entrant on the same object during a single GC cycle.
pub fn generate_cell_trace_statement(field_name: &str, cell_inner_ty: &Type) -> (r: Option<Code>)
    ensures
        view_option(r) == match direct_shape(*cell_inner_ty) {
            Some(shape) => Some(field_statement(field_name@, Shape { cell: true, ..shape })),
            None => None,
        },
{
    proof {
        lemma_holders_disjoint(*cell_inner_ty);
    }
    // Cell<jsg::Rc<T>> / Cell<jsg::v8::Global<T>>
    let handle = get_traceable_type(cell_inner_ty);
    match handle {
        TraceableType::Ref | TraceableType::Global => {
            let mut r = Code::from_text("unsafe { visitor.");
            r.text(get_visit_method(handle));
            r.text("(&*self.");
            r.text(field_name);
            r.text(".as_ptr()); }");
            return Some(r);
        },
        TraceableType::Weak | TraceableType::Untraceable => {},
    }
    // Cell<Option<jsg::Rc<T>>> / Cell<Nullable<jsg::Rc<T>>> etc.
    if let Some((kind, inner_ty)) = extract_optional_inner(cell_inner_ty) {
        let handle = get_traceable_type(inner_ty);
        match handle {
            TraceableType::Ref | TraceableType::Global => {
                let mut r = Code::from_text("if let ");
                r.text(get_some_constructor(kind));
                r.text("(inner) = unsafe { &*self.");
                r.text(field_name);
                r.text(".as_ptr() } { visitor.");
                r.text(get_visit_method(handle));
                r.text("(inner); }");
                return Some(r);
            },
            TraceableType::Weak | TraceableType::Untraceable => {},
        }
    }
    // Cell<Vec<jsg::Rc<T>>>, Cell<HashMap<K, jsg::Rc<T>>>, etc.
    if let Some((style, traceable)) = extract_collection_traceable(cell_inner_ty) {
        let mut accessor = Code::from_text("unsafe { &*self.");
        accessor.text(field_name);
        accessor.text(".as_ptr() }");
        return Some(generate_collection_trace_loop(&accessor, &style, traceable));
    }
    None
}

/// Generates the trace statement for one field of a struct, if it is traced.
pub fn generate_trace_statement(field: &Field) -> (r: Option<Code>)
    ensures
        view_option(r) == trace_statement(*field),
{
    let Some(field_name) = &field.ident else {
        return None;
    };
    let field_name = field_name.as_str();
    let ty = &field.ty;
    proof {
        lemma_holders_disjoint(*ty);
    }
    // #[jsg_trace]: leave the field to its own GarbageCollected::trace.
    if has_jsg_trace_attr(field) {
        let mut r = Code::from_text("jsg::GarbageCollected::trace(&self.");
        r.text(field_name);
        r.text(", visitor);");
        return Some(r);
    }
    // Cell<T>: read through the pointer.
    if let Some(cell_inner_ty) = extract_cell_inner(ty) {
        return generate_cell_trace_statement(field_name, cell_inner_ty);
    }
    // Option<Traceable> / Nullable<Traceable>
    if let Some((kind, inner_ty)) = extract_optional_inner(ty) {
        let handle = get_traceable_type(inner_ty);
        match handle {
            TraceableType::Ref | TraceableType::Global => {
                let mut r = Code::from_text("if let ");
                r.text(get_some_constructor(kind));
                r.text("(ref inner) = self.");
                r.text(field_name);
                r.text(" { visitor.");
                r.text(get_visit_method(handle));
                r.text("(inner); }");
                return Some(r);
            },
            TraceableType::Weak | TraceableType::Untraceable => {},
        }
    }
    // Vec<Traceable>, HashMap<K, Traceable>, etc.
    if let Some((style, traceable)) = extract_collection_traceable(ty) {
        let mut accessor = Code::from_text("&self.");
        accessor.text(field_name);
        return Some(generate_collection_trace_loop(&accessor, &style, traceable));
    }
    // Bare jsg::Rc<T> / jsg::v8::Global<T>
    let handle = get_traceable_type(ty);
    match handle {
        TraceableType::Ref | TraceableType::Global => {
            let mut r = Code::from_text("visitor.");
            r.text(get_visit_method(handle));
            r.text("(&self.");
            r.text(field_name);
            r.text(");");
            Some(r)
        },
        TraceableType::Weak | TraceableType::Untraceable => None,
    }
}

/// Generates all trace statements for the fields of a struct.
pub fn generate_trace_statements(fields: &Vec<Field>) -> (r: Vec<Code>)
    ensures
        views(r@) == trace_statements(fields@),
{
    let ghost f = statement_of_field();
    let mut r: Vec<Code> = Vec::new();
    let mut i: usize = 0;
    assert(views(r@) =~= fields@.take(0).filter_map(f));
    while i < fields.len()
        invariant
            i <= fields@.len(),
            f == statement_of_field(),
            views(r@) == fields@.take(i as int).filter_map(f),
        decreases fields@.len() - i,
    {
        proof {
            fields@.lemma_filter_map_take_succ(f, i as int);
        }
        let ghost before = r@;
        if let Some(statement) = generate_trace_statement(&fields[i]) {
            r.push(statement);
            assert(views(r@) =~= views(before).push(statement@));
        }
        i += 1;
    }
    assert(fields@.take(i as int) =~= fields@);
    r
}

} // verus!

//! Classification of field types and trace statements of structs.

use jsg_macros::code::{Code, Piece};
use jsg_macros::syntax::{
    Attribute, Field, GenericArgument, Meta, Path, PathArguments, PathSegment, Type,
};
use jsg_macros::trace::{
    extract_cell_inner, extract_collection_traceable, extract_optional_inner,
    generate_cell_trace_statement, generate_collection_trace_loop, generate_trace_statements,
    get_traceable_type, has_jsg_trace_attr, CollectionIterStyle, OptionalKind, TraceableType,
};

fn path(path: &syn::Path) -> Path {
    let mut segments = Vec::new();
    for segment in &path.segments {
        segments.push(PathSegment {
            ident: segment.ident.to_string(),
            arguments: match &segment.arguments {
                syn::PathArguments::None => PathArguments::Absent,
                syn::PathArguments::AngleBracketed(args) => PathArguments::AngleBracketed(
                    args.args
                        .iter()
                        .map(|arg| match arg {
                            syn::GenericArgument::Type(inner) => GenericArgument::Type(ty(inner)),
                            _ => GenericArgument::Other,
                        })
                        .collect(),
                ),
                syn::PathArguments::Parenthesized(_) => PathArguments::Parenthesized,
            },
        });
    }
    Path { leading_colon: path.leading_colon.is_some(), segments }
}

fn ty(source: &syn::Type) -> Type {
    match source {
        syn::Type::Path(type_path) => Type::Path(path(&type_path.path)),
        syn::Type::Reference(reference) => Type::Reference {
            mutable: reference.mutability.is_some(),
            elem: Box::new(ty(&reference.elem)),
        },
        _ => Type::Other,
    }
}

/// The type with the source text `text`.
fn parse_type(text: &str) -> Type {
    ty(&syn::parse_str(text).unwrap())
}

fn attribute(name: &str) -> Attribute {
    Attribute { path: path(&syn::parse_str(name).unwrap()), meta: Meta::Path, position: 0 }
}

fn field(name: &str, ty: &str) -> Field {
    Field { attrs: vec![], ident: Some(name.to_string()), ty: parse_type(ty) }
}

fn text(code: &Code) -> String {
    let mut out = String::new();
    for piece in &code.pieces {
        match piece {
            Piece::Text(text) => out.push_str(text),
            Piece::Str(value) => out.push_str(&proc_macro2::Literal::string(value).to_string()),
            Piece::Tokens(number) => panic!("no kept tokens expected, but number {number}"),
            Piece::Item => panic!("no item expected"),
        }
    }
    out
}

/// The tokens of `source`, in one spelling.
fn normal(source: &str) -> String {
    source.parse::<proc_macro2::TokenStream>().unwrap().to_string()
}

/// The one statement emitted for a field `f` of type `ty`.
fn statement(ty: &str) -> String {
    let statements = generate_trace_statements(&vec![field("f", ty)]);
    assert_eq!(statements.len(), 1, "{ty}");
    normal(&text(&statements[0]))
}

fn untraced(ty: &str) -> bool {
    generate_trace_statements(&vec![field("f", ty)]).is_empty()
}

#[test]
fn get_traceable_type_cases() {
    // Recognised traceable types.
    assert_eq!(get_traceable_type(&parse_type("jsg::Rc<Foo>")), TraceableType::Ref);
    assert_eq!(get_traceable_type(&parse_type("jsg::Weak<Foo>")), TraceableType::Weak);
    assert_eq!(
        get_traceable_type(&parse_type("jsg::v8::Global<jsg::v8::Value>")),
        TraceableType::Global
    );
    // Must be fully qualified: bare `Rc` or wrapper types are not traceable.
    assert_eq!(get_traceable_type(&parse_type("Rc<Foo>")), TraceableType::Untraceable);
    assert_eq!(get_traceable_type(&parse_type("String")), TraceableType::Untraceable);
    // Option<jsg::Rc<T>> is not itself traceable, only the inner type is.
    assert_eq!(
        get_traceable_type(&parse_type("Option<jsg::Rc<Foo>>")),
        TraceableType::Untraceable
    );
}

#[test]
fn extract_optional_inner_cases() {
    // Option<jsg::Rc<T>>: Option kind, inner is Ref.
    let ty = parse_type("Option<jsg::Rc<Foo>>");
    let (kind, inner) = extract_optional_inner(&ty).unwrap();
    assert!(matches!(kind, OptionalKind::Option));
    assert_eq!(get_traceable_type(inner), TraceableType::Ref);

    // Nullable<jsg::Rc<T>>: Nullable kind.
    let ty = parse_type("Nullable<jsg::Rc<Foo>>");
    let (kind, _) = extract_optional_inner(&ty).unwrap();
    assert!(matches!(kind, OptionalKind::Nullable));

    // Option<jsg::v8::Global<T>>: inner is Global.
    let ty = parse_type("Option<jsg::v8::Global<jsg::v8::Value>>");
    let (_, inner) = extract_optional_inner(&ty).unwrap();
    assert_eq!(get_traceable_type(inner), TraceableType::Global);

    // Not an Option/Nullable.
    assert!(extract_optional_inner(&parse_type("jsg::Rc<Foo>")).is_none());
}

#[test]
fn extract_cell_inner_cases() {
    // Bare `Cell<T>` and std-qualified `std::cell::Cell<T>` both work.
    let ty = parse_type("Cell<jsg::Rc<Foo>>");
    let bare = extract_cell_inner(&ty).unwrap();
    assert_eq!(get_traceable_type(bare), TraceableType::Ref);

    let ty = parse_type("std::cell::Cell<jsg::Rc<Foo>>");
    let qualified = extract_cell_inner(&ty).unwrap();
    assert_eq!(get_traceable_type(qualified), TraceableType::Ref);

    // Not a Cell.
    assert!(extract_cell_inner(&parse_type("jsg::Rc<Foo>")).is_none());

    // Cell<Option<jsg::Rc<T>>>: inner is Option, not directly Ref, but
    // extract_optional_inner can unwrap the next level.
    let ty = parse_type("Cell<Option<jsg::Rc<Foo>>>");
    let inner = extract_cell_inner(&ty).unwrap();
    assert_eq!(get_traceable_type(inner), TraceableType::Untraceable);
    assert!(extract_optional_inner(inner).is_some());
}

#[test]
fn extract_collection_traceable_element_collections() {
    // Vec, HashSet, BTreeSet all iterate elements (index 0).
    for ty in [
        parse_type("Vec<jsg::Rc<Foo>>"),
        parse_type("HashSet<jsg::Rc<Foo>>"),
        parse_type("BTreeSet<jsg::Rc<Foo>>"),
    ] {
        let (style, traceable) = extract_collection_traceable(&ty).unwrap();
        assert!(matches!(style, CollectionIterStyle::IterElements));
        assert_eq!(traceable, TraceableType::Ref);
    }
}

#[test]
fn extract_collection_traceable_map_collections() {
    // HashMap and BTreeMap iterate values (index 1).
    for ty in [
        parse_type("HashMap<String, jsg::Rc<Foo>>"),
        parse_type("BTreeMap<String, jsg::Rc<Foo>>"),
    ] {
        let (style, traceable) = extract_collection_traceable(&ty).unwrap();
        assert!(matches!(style, CollectionIterStyle::IterValues));
        assert_eq!(traceable, TraceableType::Ref);
    }

    // Global values are also traced.
    let (_, traceable) =
        extract_collection_traceable(&parse_type("BTreeMap<u32, jsg::v8::Global<jsg::v8::Value>>"))
            .unwrap();
    assert_eq!(traceable, TraceableType::Global);
}

#[test]
fn extract_collection_traceable_non_traceable_cases() {
    // Vec<String>: plain element type, not traceable.
    assert!(extract_collection_traceable(&parse_type("Vec<String>")).is_none());
    // Vec<jsg::Weak<T>>: Weak is explicitly excluded.
    assert!(extract_collection_traceable(&parse_type("Vec<jsg::Weak<Foo>>")).is_none());
    // HashMap<jsg::Rc<K>, String>: only the value (index 1) is checked.
    assert!(extract_collection_traceable(&parse_type("HashMap<jsg::Rc<K>, String>")).is_none());
    // Not a collection at all.
    assert!(extract_collection_traceable(&parse_type("String")).is_none());
}

#[test]
fn extract_collection_traceable_std_qualified_paths() {
    // std::vec::Vec and std::collections::HashMap match via last segment.
    assert!(extract_collection_traceable(&parse_type("std::vec::Vec<jsg::Rc<Foo>>")).is_some());
    let (style, _) = extract_collection_traceable(&parse_type(
        "std::collections::HashMap<String, jsg::Rc<Foo>>",
    ))
    .unwrap();
    assert!(matches!(style, CollectionIterStyle::IterValues));
}

#[test]
fn handles_are_recognised_by_their_full_path_only() {
    for ty in ["jsg::Rc", "::jsg::Rc<Foo>", "<Foo as jsg>::Rc"] {
        assert_eq!(get_traceable_type(&parse_type(ty)), TraceableType::Ref, "{ty}");
    }
    for ty in [
        "jsg::Global<Foo>",
        "v8::Global<Foo>",
        "crate::jsg::Rc<Foo>",
        "jsg::v8::Rc<Foo>",
        "jsg::v8::Global::Inner",
        "&jsg::Rc<Foo>",
        "(jsg::Rc<Foo>,)",
        "[jsg::Rc<Foo>; 2]",
        "r#jsg::Rc<Foo>",
    ] {
        assert_eq!(get_traceable_type(&parse_type(ty)), TraceableType::Untraceable, "{ty}");
    }
}

#[test]
fn optionals_need_a_first_type_argument() {
    assert!(extract_optional_inner(&parse_type("std::option::Option<Foo>")).is_some());
    assert!(extract_optional_inner(&parse_type("jsg::Nullable<Foo>")).is_some());
    assert!(extract_optional_inner(&parse_type("Option")).is_none());
    assert!(extract_optional_inner(&parse_type("Option<'a, Foo>")).is_none());
    assert!(extract_optional_inner(&parse_type("Option<>")).is_none());
    assert!(extract_optional_inner(&parse_type("(Foo, Bar)")).is_none());
}

#[test]
fn cells_are_recognised_by_two_paths_only() {
    assert!(extract_cell_inner(&parse_type("cell::Cell<Foo>")).is_none());
    assert!(extract_cell_inner(&parse_type("core::cell::Cell<Foo>")).is_none());
    assert!(extract_cell_inner(&parse_type("RefCell<Foo>")).is_none());
    assert!(extract_cell_inner(&parse_type("Cell")).is_none());
    assert!(extract_cell_inner(&parse_type("Cell<'a>")).is_none());
}

#[test]
fn collection_arguments_are_counted_among_the_types() {
    // The lifetime and the hasher do not count as the value type.
    let (style, traceable) =
        extract_collection_traceable(&parse_type("HashMap<'a, String, jsg::Rc<Foo>, State>"))
            .unwrap();
    assert_eq!(style, CollectionIterStyle::IterValues);
    assert_eq!(traceable, TraceableType::Ref);
    assert!(extract_collection_traceable(&parse_type("HashMap<jsg::Rc<Foo>>")).is_none());
    assert!(extract_collection_traceable(&parse_type("Vec")).is_none());
    assert!(extract_collection_traceable(&parse_type("VecDeque<jsg::Rc<Foo>>")).is_none());
}

#[test]
fn bare_handles_are_visited() {
    assert_eq!(statement("jsg::Rc<Foo>"), normal("visitor.visit_rc(&self.f);"));
    assert_eq!(
        statement("jsg::v8::Global<jsg::v8::Value>"),
        normal("visitor.visit_global(&self.f);")
    );
}

#[test]
fn optional_handles_are_visited_when_there() {
    assert_eq!(
        statement("Option<jsg::Rc<Foo>>"),
        normal("if let Some(ref inner) = self.f { visitor.visit_rc(inner); }")
    );
    assert_eq!(
        statement("jsg::Nullable<jsg::Rc<Foo>>"),
        normal("if let jsg::Nullable::Some(ref inner) = self.f { visitor.visit_rc(inner); }")
    );
    assert_eq!(
        statement("Option<jsg::v8::Global<jsg::v8::Value>>"),
        normal("if let Some(ref inner) = self.f { visitor.visit_global(inner); }")
    );
}

#[test]
fn collections_are_visited_element_by_element() {
    assert_eq!(
        statement("Vec<jsg::Rc<Foo>>"),
        normal("for __item in &self.f { visitor.visit_rc(__item); }")
    );
    assert_eq!(
        statement("HashMap<String, jsg::v8::Global<jsg::v8::Value>>"),
        normal("for __item in (&self.f).values() { visitor.visit_global(__item); }")
    );
}

#[test]
fn cells_are_read_through_their_pointer() {
    assert_eq!(
        statement("Cell<jsg::Rc<Foo>>"),
        normal("unsafe { visitor.visit_rc(&*self.f.as_ptr()); }")
    );
    assert_eq!(
        statement("Cell<jsg::v8::Global<Foo>>"),
        normal("unsafe { visitor.visit_global(&*self.f.as_ptr()); }")
    );
    assert_eq!(
        statement("std::cell::Cell<Option<jsg::v8::Global<jsg::v8::Value>>>"),
        normal("if let Some(inner) = unsafe { &*self.f.as_ptr() } { visitor.visit_global(inner); }")
    );
    assert_eq!(
        statement("Cell<Nullable<jsg::Rc<Foo>>>"),
        normal(
            "if let jsg::Nullable::Some(inner) = unsafe { &*self.f.as_ptr() } { visitor.visit_rc(inner); }"
        )
    );
    assert_eq!(
        statement("Cell<BTreeMap<u32, jsg::Rc<Foo>>>"),
        normal(
            "for __item in (unsafe { &*self.f.as_ptr() }).values() { visitor.visit_rc(__item); }"
        )
    );
    assert_eq!(
        statement("Cell<HashSet<jsg::Rc<Foo>>>"),
        normal("for __item in unsafe { &*self.f.as_ptr() } { visitor.visit_rc(__item); }")
    );
}

#[test]
fn weak_references_are_not_traced() {
    for ty in [
        "jsg::Weak<Foo>",
        "Option<jsg::Weak<Foo>>",
        "Vec<jsg::Weak<Foo>>",
        "HashMap<u32, jsg::Weak<Foo>>",
        "Cell<jsg::Weak<Foo>>",
        "Cell<Option<jsg::Weak<Foo>>>",
    ] {
        assert!(untraced(ty), "{ty}");
    }
}

#[test]
fn nesting_is_not_recursive() {
    for ty in [
        "Option<Vec<jsg::Rc<Foo>>>",
        "Vec<Option<jsg::Rc<Foo>>>",
        "Option<Option<jsg::Rc<Foo>>>",
        "Option<Cell<jsg::Rc<Foo>>>",
        "Cell<Cell<jsg::Rc<Foo>>>",
        "Cell<Option<Vec<jsg::Rc<Foo>>>>",
        "Box<jsg::Rc<Foo>>",
    ] {
        assert!(untraced(ty), "{ty}");
    }
}

#[test]
fn marked_fields_delegate_whatever_their_type() {
    for ty in ["Callbacks", "jsg::Rc<Foo>", "Cell<String>"] {
        let mut marked = field("state", ty);
        marked.attrs.push(attribute("doc"));
        marked.attrs.push(attribute("jsg_trace"));
        assert!(has_jsg_trace_attr(&marked));
        let statements = generate_trace_statements(&vec![marked]);
        assert_eq!(statements.len(), 1);
        assert_eq!(
            normal(&text(&statements[0])),
            normal("jsg::GarbageCollected::trace(&self.state, visitor);")
        );
    }
    let mut qualified = field("state", "Callbacks");
    qualified.attrs.push(attribute("other::jsg_trace"));
    assert!(!has_jsg_trace_attr(&qualified));
    assert!(generate_trace_statements(&vec![qualified]).is_empty());
}

#[test]
fn statements_follow_the_order_of_the_fields() {
    let fields = vec![
        field("handlers", "HashMap<String, jsg::Rc<Handler>>"),
        field("name", "String"),
        field("fallback", "Option<jsg::Rc<Handler>>"),
        field("parent", "jsg::Weak<EventRouter>"),
        Field { attrs: vec![], ident: None, ty: parse_type("jsg::Rc<Handler>") },
        field("r#type", "jsg::Rc<Handler>"),
    ];
    let statements: Vec<String> =
        generate_trace_statements(&fields).iter().map(|code| normal(&text(code))).collect();
    assert_eq!(
        statements,
        vec![
            normal("for __item in (&self.handlers).values() { visitor.visit_rc(__item); }"),
            normal("if let Some(ref inner) = self.fallback { visitor.visit_rc(inner); }"),
            normal("visitor.visit_rc(&self.r#type);"),
        ]
    );
}

#[test]
fn loops_over_unvisited_handles_are_empty() {
    let accessor = Code::from_text("&self.items");
    for kind in [TraceableType::Weak, TraceableType::Untraceable] {
        let code =
            generate_collection_trace_loop(&accessor, &CollectionIterStyle::IterElements, kind);
        assert_eq!(text(&code), "");
    }
    let code = generate_collection_trace_loop(
        &accessor,
        &CollectionIterStyle::IterValues,
        TraceableType::Global,
    );
    assert_eq!(
        normal(&text(&code)),
        normal("for __item in (&self.items).values() { visitor.visit_global(__item); }")
    );
}

#[test]
fn cell_statement_of_plain_data_is_absent() {
    assert!(generate_cell_trace_statement("count", &parse_type("u32")).is_none());
    let code = generate_cell_trace_statement("child", &parse_type("jsg::Rc<Foo>")).unwrap();
    assert_eq!(
        normal(&text(&code)),
        normal("unsafe { visitor.visit_rc(&*self.child.as_ptr()); }")
    );
}

//! `#[jsg_traceable]` on structs and enums.

use jsg_macros::code::{Code, Piece};
use jsg_macros::syntax::{
    Attribute, Data, DeriveInput, Field, Fields, GenericArgument, Meta, Path, PathArguments,
    PathSegment, Type, Variant,
};
use jsg_macros::attrs::{AttrArg, AttrValue};
use jsg_macros::traceable::{
    classify_cell_field_for_variant, classify_field_for_variant, expand_traceable_with_args,
    generate_enum_trace_arms, generate_traceable, generate_variant_arm, strip_jsg_trace_attrs,
    trace_named_fields, trace_tuple_fields,
};

fn path(path: &syn::Path) -> Path {
    let mut segments = Vec::new();
    for segment in &path.segments {
        segments.push(PathSegment {
            ident: segment.ident.to_string(),
            arguments: match &segment.arguments {
                syn::PathArguments::None => PathArguments::Absent,
                syn::PathArguments::AngleBracketed(args) => PathArguments::AngleBracketed(
                    args.args
                        .iter()
                        .map(|arg| match arg {
                            syn::GenericArgument::Type(inner) => GenericArgument::Type(ty(inner)),
                            _ => GenericArgument::Other,
                        })
                        .collect(),
                ),
                syn::PathArguments::Parenthesized(_) => PathArguments::Parenthesized,
            },
        });
    }
    Path { leading_colon: path.leading_colon.is_some(), segments }
}

fn ty(source: &syn::Type) -> Type {
    match source {
        syn::Type::Path(type_path) => Type::Path(path(&type_path.path)),
        syn::Type::Reference(reference) => Type::Reference {
            mutable: reference.mutability.is_some(),
            elem: Box::new(ty(&reference.elem)),
        },
        _ => Type::Other,
    }
}

fn field(source: &syn::Field) -> Field {
    Field {
        attrs: source
            .attrs
            .iter()
            .enumerate()
            .map(|(position, attr)| Attribute {
                path: path(attr.path()),
                meta: match &attr.meta {
                    syn::Meta::Path(_) => Meta::Path,
                    syn::Meta::List(list) => Meta::List(list.tokens.to_string()),
                    syn::Meta::NameValue(_) => Meta::NameValue,
                },
                position,
            })
            .collect(),
        ident: source.ident.as_ref().map(ToString::to_string),
        ty: ty(&source.ty),
    }
}

fn fields(source: &syn::Fields) -> Fields {
    match source {
        syn::Fields::Named(named) => Fields::Named(named.named.iter().map(field).collect()),
        syn::Fields::Unnamed(unnamed) => {
            Fields::Unnamed(unnamed.unnamed.iter().map(field).collect())
        }
        syn::Fields::Unit => Fields::Unit,
    }
}

fn variant(source: &syn::Variant) -> Variant {
    Variant { ident: source.ident.to_string(), fields: fields(&source.fields) }
}

/// The variant with the source text `text`.
fn parse_variant(text: &str) -> Variant {
    variant(&syn::parse_str(text).unwrap())
}

/// The definition with the source text `text`.
fn parse_input(text: &str) -> DeriveInput {
    let input: syn::DeriveInput = syn::parse_str(text).unwrap();
    DeriveInput {
        ident: input.ident.to_string(),
        data: match &input.data {
            syn::Data::Struct(data) => Data::Struct(fields(&data.fields)),
            syn::Data::Enum(data) => Data::Enum(data.variants.iter().map(variant).collect()),
            syn::Data::Union(_) => Data::Union,
        },
    }
}

fn text(code: &Code) -> String {
    let mut out = String::new();
    for piece in &code.pieces {
        match piece {
            Piece::Text(text) => out.push_str(text),
            Piece::Str(value) => out.push_str(&proc_macro2::Literal::string(value).to_string()),
            Piece::Tokens(number) => panic!("no kept tokens expected, but number {number}"),
            Piece::Item => out.push_str("struct Item; "),
        }
    }
    out
}

/// The tokens of `source`, in one spelling.
fn normal(source: &str) -> String {
    source.parse::<proc_macro2::TokenStream>().unwrap().to_string()
}

/// The tokens of the arm of `variant`. They are those of a match arm.
fn arm_str(variant: &Variant) -> String {
    let arm = text(&generate_variant_arm(variant));
    syn::parse_str::<syn::Arm>(&arm).unwrap();
    normal(&arm)
}

fn arm(variant: &str) -> String {
    arm_str(&parse_variant(variant))
}

fn gc_impl(name: &str, body: &str, memory_name: &str) -> String {
    normal(&format!(
        "#[automatically_derived]
        impl jsg::GarbageCollected for {name} {{
            fn trace(&self, visitor: &mut jsg::GcVisitor) {{
                {body}
            }}
            fn memory_name(&self) -> &'static ::std::ffi::CStr {{
                ::std::ffi::CStr::from_bytes_with_nul(concat!({memory_name:?}, \"\\0\").as_bytes())
                    .unwrap()
            }}
        }}"
    ))
}

/// What `#[jsg_traceable(attr)]` emits on `input`, behind the item itself.
fn expand(attr: &str, input: &str) -> String {
    let expansion = generate_traceable(attr, parse_input(input)).unwrap();
    assert!(matches!(expansion.code.pieces[0], Piece::Item));
    let emitted = normal(&text(&expansion.code));
    syn::parse_str::<syn::File>(&emitted).unwrap();
    emitted.strip_prefix("struct Item ; ").unwrap().to_string()
}

fn paths(field: &Field) -> Vec<String> {
    field.attrs.iter().map(|attr| attr.path.segments[0].ident.clone()).collect()
}

#[test]
fn unit_variant_emits_empty_arm() {
    let variant = parse_variant("Closed");
    let s = arm_str(&variant);
    // Must match the variant and produce an empty body.
    assert!(s.contains("Closed"), "missing variant name: {s}");
    assert!(!s.contains("visit"), "unit variant must not visit anything: {s}");
}

#[test]
fn named_variant_rc_field_emits_visit_rc() {
    let variant = parse_variant("Errored { reason: jsg::Rc<ErrorReason> }");
    let s = arm_str(&variant);
    assert!(s.contains("visit_rc"), "must call visit_rc: {s}");
    assert!(s.contains("reason"), "must bind reason: {s}");
}

#[test]
fn named_variant_global_field_emits_visit_global() {
    let variant = parse_variant("WithCallback { callback: jsg::v8::Global<jsg::v8::Value> }");
    let s = arm_str(&variant);
    assert!(s.contains("visit_global"), "must call visit_global: {s}");
    assert!(s.contains("callback"), "must bind callback: {s}");
}

#[test]
fn named_variant_no_traceable_fields_emits_wildcard() {
    let variant = parse_variant("Config { name: String, count: u32 }");
    let s = arm_str(&variant);
    assert!(!s.contains("visit"), "no visit calls expected: {s}");
    // Must use `..` to ignore fields.
    assert!(s.contains(".."), "must use .. for non-traceable fields: {s}");
}

#[test]
fn tuple_variant_rc_field_emits_visit_rc() {
    let variant = parse_variant("Readable(jsg::Rc<ReadableImpl>)");
    let s = arm_str(&variant);
    assert!(s.contains("visit_rc"), "must call visit_rc: {s}");
}

#[test]
fn tuple_variant_mixed_fields_traces_only_rc() {
    // First field is a plain String (not traceable), second is jsg::Rc<T>.
    let variant = parse_variant("Mixed(String, jsg::Rc<Foo>)");
    let s = arm_str(&variant);
    assert!(s.contains("visit_rc"), "must trace the Rc field: {s}");
    // The arm must not emit a visit call for the String.
    let visit_count = s.matches("visit_").count();
    assert_eq!(visit_count, 1, "exactly one visit call expected: {s}");
}

#[test]
fn tuple_variant_no_traceable_fields_emits_wildcard() {
    let variant = parse_variant("Closed(u32)");
    let s = arm_str(&variant);
    assert!(!s.contains("visit"), "no visit calls expected: {s}");
    assert!(s.contains(".."), "must use .. for non-traceable tuple: {s}");
}

#[test]
fn named_variant_option_rc_emits_if_let() {
    let variant = parse_variant("Pending { maybe_child: Option<jsg::Rc<Child>> }");
    let s = arm_str(&variant);
    assert!(s.contains("if let"), "must emit if-let for Option<Rc>: {s}");
    assert!(s.contains("visit_rc"), "must call visit_rc: {s}");
}

#[test]
fn named_variant_vec_rc_emits_for_loop() {
    let variant = parse_variant("Buffered { items: Vec<jsg::Rc<Item>> }");
    let s = arm_str(&variant);
    assert!(s.contains("for"), "must emit for-loop for Vec<Rc>: {s}");
    assert!(s.contains("visit_rc"), "must call visit_rc: {s}");
}

#[test]
fn named_variant_trace_attr_emits_delegate() {
    let variant = parse_variant("Active { #[jsg_trace] state: InnerState }");
    let s = arm_str(&variant);
    assert!(s.contains("GarbageCollected"), "must delegate via GarbageCollected::trace: {s}");
    assert!(s.contains("state"), "must bind state field: {s}");
}

#[test]
fn arms_of_variants_exactly() {
    assert_eq!(arm("Closed"), normal("Self::Closed => {}"));
    assert_eq!(arm("Config { name: String }"), normal("Self::Config { .. } => {}"));
    assert_eq!(arm("Closed(u32)"), normal("Self::Closed(..) => {}"));
    assert_eq!(
        arm("Errored { code: u32, reason: jsg::Rc<E>, #[jsg_trace] state: S }"),
        normal(
            "Self::Errored { reason, state, .. } => {
                visitor.visit_rc(reason);
                jsg::GarbageCollected::trace(state, visitor);
            }"
        )
    );
    assert_eq!(
        arm("Mixed(String, jsg::Rc<Foo>, #[jsg_trace] State, jsg::Weak<Foo>)"),
        normal(
            "Self::Mixed(_, _f1, _f2, _) => {
                visitor.visit_rc(_f1);
                jsg::GarbageCollected::trace(_f2, visitor);
            }"
        )
    );
    assert_eq!(
        arm("Readable(jsg::Rc<ReadableImpl>)"),
        normal("Self::Readable(_f0) => { visitor.visit_rc(_f0); }")
    );
}

#[test]
fn positions_with_two_digits_are_named() {
    let mut source = String::from("Wide(");
    for _ in 0..11 {
        source.push_str("u8, ");
    }
    source.push_str("jsg::Rc<Foo>)");
    assert_eq!(
        arm(&source),
        normal(
            "Self::Wide(_, _, _, _, _, _, _, _, _, _, _, _f11) => { visitor.visit_rc(_f11); }"
        )
    );
}

#[test]
fn field_statements_in_arms_exactly() {
    let binding = Code::from_text("b");
    let cases = [
        ("jsg::Rc<F>", "visitor.visit_rc(b);"),
        ("jsg::v8::Global<F>", "visitor.visit_global(b);"),
        ("Option<jsg::Rc<F>>", "if let Some(ref __inner) = b { visitor.visit_rc(__inner); }"),
        (
            "Nullable<jsg::v8::Global<F>>",
            "if let jsg::Nullable::Some(ref __inner) = b { visitor.visit_global(__inner); }",
        ),
        ("BTreeSet<jsg::Rc<F>>", "for __item in b { visitor.visit_rc(__item); }"),
        (
            "HashMap<u32, jsg::Rc<F>>",
            "for __item in (b).values() { visitor.visit_rc(__item); }",
        ),
        ("Cell<jsg::Rc<F>>", "unsafe { visitor.visit_rc(&*b.as_ptr()); }"),
        ("Cell<jsg::v8::Global<F>>", "unsafe { visitor.visit_global(&*b.as_ptr()); }"),
        (
            "Cell<Option<jsg::Rc<F>>>",
            "if let Some(ref __inner) = unsafe { &*b.as_ptr() } { visitor.visit_rc(__inner); }",
        ),
        (
            "std::cell::Cell<Vec<jsg::v8::Global<F>>>",
            "for __item in unsafe { &*b.as_ptr() } { visitor.visit_global(__item); }",
        ),
        (
            "Cell<BTreeMap<u32, jsg::Rc<F>>>",
            "for __item in (unsafe { &*b.as_ptr() }).values() { visitor.visit_rc(__item); }",
        ),
    ];
    for (source, expected) in cases {
        let code = classify_field_for_variant(&ty(&syn::parse_str(source).unwrap()), &binding);
        assert_eq!(normal(&text(&code.unwrap())), normal(expected), "{source}");
    }
    for source in ["String", "jsg::Weak<F>", "Option<String>", "Cell<u32>", "Cell<Option<u32>>"] {
        let ty = ty(&syn::parse_str(source).unwrap());
        assert!(classify_field_for_variant(&ty, &binding).is_none(), "{source}");
    }
    let inner = ty(&syn::parse_str("Nullable<jsg::Rc<F>>").unwrap());
    assert_eq!(
        normal(&text(&classify_cell_field_for_variant(&inner, &binding).unwrap())),
        normal(
            "if let jsg::Nullable::Some(ref __inner) = unsafe { &*b.as_ptr() } { visitor.visit_rc(__inner); }"
        )
    );
}

#[test]
fn named_fields_are_bound_where_traced() {
    let Fields::Named(named) = parse_variant("V { a: u8, b: jsg::Rc<F>, c: jsg::Rc<F> }").fields
    else {
        panic!("named fields expected");
    };
    let (bindings, stmts) = trace_named_fields(&named);
    assert_eq!(bindings.iter().map(text).collect::<Vec<_>>(), vec!["b", "c"]);
    assert_eq!(stmts.len(), 2);
}

#[test]
fn tuple_fields_are_all_bound() {
    let Fields::Unnamed(unnamed) = parse_variant("V(u8, jsg::Rc<F>, u8)").fields else {
        panic!("tuple fields expected");
    };
    let (bindings, stmts) = trace_tuple_fields(&unnamed);
    assert_eq!(bindings.iter().map(text).collect::<Vec<_>>(), vec!["_", "_f1", "_"]);
    assert_eq!(stmts.len(), 1);
}

#[test]
fn one_arm_per_variant() {
    let Data::Enum(variants) = parse_input("enum E { A, B(jsg::Rc<F>), C { n: u8 } }").data else {
        panic!("enum expected");
    };
    let arms: Vec<String> =
        generate_enum_trace_arms(&variants).iter().map(|arm| normal(&text(arm))).collect();
    assert_eq!(
        arms,
        vec![
            normal("Self::A => {}"),
            normal("Self::B(_f0) => { visitor.visit_rc(_f0); }"),
            normal("Self::C { .. } => {}"),
        ]
    );
}

#[test]
fn traceable_struct_expansion() {
    let emitted = expand(
        "",
        "struct Callbacks { pub on_data: jsg::Rc<Leaf>, pub on_error: Option<jsg::Rc<Leaf>>, name: String }",
    );
    assert_eq!(
        emitted,
        gc_impl(
            "Callbacks",
            "let _ = visitor;
            visitor.visit_rc(&self.on_data);
            if let Some(ref inner) = self.on_error { visitor.visit_rc(inner); }",
            "Callbacks"
        )
    );
}

#[test]
fn traceable_unit_struct_expansion() {
    assert_eq!(expand("", "struct Empty;"), gc_impl("Empty", "let _ = visitor;", "Empty"));
}

#[test]
fn traceable_enum_expansion() {
    let emitted = expand(
        "",
        "enum StreamState { Closed, Errored { reason: jsg::Rc<Leaf> }, Readable(jsg::Rc<Leaf>) }",
    );
    assert_eq!(
        emitted,
        gc_impl(
            "StreamState",
            "let _ = visitor;
            match self {
                Self::Closed => {},
                Self::Errored { reason, .. } => { visitor.visit_rc(reason); },
                Self::Readable(_f0) => { visitor.visit_rc(_f0); },
            }",
            "StreamState"
        )
    );
}

#[test]
fn nested_traceable_types_delegate() {
    assert_eq!(
        expand("", "struct Outer { #[jsg_trace] inner: InnerState }"),
        gc_impl(
            "Outer",
            "let _ = visitor; jsg::GarbageCollected::trace(&self.inner, visitor);",
            "Outer"
        )
    );
}

#[test]
fn memory_name_can_be_overridden() {
    assert_eq!(
        expand("name = \"CustomName\"", "struct Empty;"),
        gc_impl("Empty", "let _ = visitor;", "CustomName")
    );
    assert_eq!(
        expand("name = \"Quoted \\\"name\\\"\"", "struct Empty;"),
        gc_impl("Empty", "let _ = visitor;", "Quoted \"name\"")
    );
    // What is no list of arguments gives no name.
    assert_eq!(
        expand("name = = \"X\"", "struct Empty;"),
        gc_impl("Empty", "let _ = visitor;", "Empty")
    );
    assert_eq!(
        expand("name = CONSTANT", "struct Empty;"),
        gc_impl("Empty", "let _ = visitor;", "Empty")
    );
}

#[test]
fn memory_name_comes_from_the_arguments() {
    let args = Some(vec![
        AttrArg { key: Some("name".to_string()), value: AttrValue::Other },
        AttrArg { key: Some("name".to_string()), value: AttrValue::Str("First".to_string()) },
        AttrArg { key: Some("name".to_string()), value: AttrValue::Str("Second".to_string()) },
    ]);
    let expansion = expand_traceable_with_args(&args, parse_input("struct Empty;")).unwrap();
    assert!(text(&expansion.code).contains("\"First\""));
    let expansion = expand_traceable_with_args(&None, parse_input("struct Empty;")).unwrap();
    assert!(text(&expansion.code).contains("\"Empty\""));
}

#[test]
fn tuple_structs_and_unions_are_refused() {
    let error = generate_traceable("", parse_input("struct Pair(u8, jsg::Rc<F>);")).unwrap_err();
    assert_eq!(error.message, "#[jsg_traceable] does not support tuple structs");
    let error = generate_traceable("", parse_input("union U { a: u8, b: u16 }")).unwrap_err();
    assert_eq!(error.message, "#[jsg_traceable] cannot be applied to unions");
}

#[test]
fn markers_are_removed_and_other_attributes_kept() {
    let mut input =
        parse_input("struct S { #[a] #[jsg_trace] #[b] x: X, #[jsg_trace] y: Y, #[c] z: Z }");
    strip_jsg_trace_attrs(&mut input);
    let Data::Struct(Fields::Named(named)) = &input.data else {
        panic!("named fields expected");
    };
    assert_eq!(paths(&named[0]), vec!["a", "b"]);
    assert_eq!(named[0].attrs[1].position, 2);
    assert!(paths(&named[1]).is_empty());
    assert_eq!(paths(&named[2]), vec!["c"]);
    assert_eq!(named[1].ident.as_deref(), Some("y"));

    let expansion = generate_traceable(
        "",
        parse_input("enum E { A { #[jsg_trace] #[a] x: X }, B(#[b] #[jsg_trace] Y), C }"),
    )
    .unwrap();
    let Data::Enum(variants) = &expansion.item.data else {
        panic!("enum expected");
    };
    let Fields::Named(named) = &variants[0].fields else {
        panic!("named fields expected");
    };
    assert_eq!(paths(&named[0]), vec!["a"]);
    let Fields::Unnamed(unnamed) = &variants[1].fields else {
        panic!("tuple fields expected");
    };
    assert_eq!(paths(&unnamed[0]), vec!["b"]);
}

#[test]
fn tuple_struct_fields_keep_their_attributes() {
    let mut input = parse_input("struct S(#[jsg_trace] X);");
    strip_jsg_trace_attrs(&mut input);
    let Data::Struct(Fields::Unnamed(unnamed)) = &input.data else {
        panic!("tuple fields expected");
    };
    assert_eq!(paths(&unnamed[0]), vec!["jsg_trace"]);
}

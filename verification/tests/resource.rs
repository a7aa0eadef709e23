//! `#[jsg_resource]` on structs and impl blocks.

use jsg_macros::attrs::{
    extract_name_attribute, get_flag, get_name_value, parse_attr_args, AttrArg, AttrValue,
};
use jsg_macros::code::{Code, Piece};
use jsg_macros::names::{decimal_string, snake_to_camel};
use jsg_macros::resource::{
    expand_resource_impl, expand_resource_struct_with_args, extract_constructor_params,
    generate_constructor_registration, generate_method_member, generate_resource_impl,
    generate_resource_struct, has_nameable_callbacks, is_lock_ref, validate_constructor,
};
use jsg_macros::syntax::{
    Attribute, Data, DeriveInput, Field, Fields, FnArg, GenericArgument, ImplItem, ImplItemConst,
    ImplItemFn, ItemImpl, Meta, Path, PathArguments, PathSegment, ReturnType, SourceType, Type,
};

fn path(path: &syn::Path) -> Path {
    let mut segments = Vec::new();
    for segment in &path.segments {
        segments.push(PathSegment {
            ident: segment.ident.to_string(),
            arguments: match &segment.arguments {
                syn::PathArguments::None => PathArguments::Absent,
                syn::PathArguments::AngleBracketed(args) => PathArguments::AngleBracketed(
                    args.args
                        .iter()
                        .map(|arg| match arg {
                            syn::GenericArgument::Type(inner) => GenericArgument::Type(ty(inner)),
                            _ => GenericArgument::Other,
                        })
                        .collect(),
                ),
                syn::PathArguments::Parenthesized(_) => PathArguments::Parenthesized,
            },
        });
    }
    Path { leading_colon: path.leading_colon.is_some(), segments }
}

fn ty(source: &syn::Type) -> Type {
    match source {
        syn::Type::Path(type_path) => Type::Path(path(&type_path.path)),
        syn::Type::Reference(reference) => Type::Reference {
            mutable: reference.mutability.is_some(),
            elem: Box::new(ty(&reference.elem)),
        },
        _ => Type::Other,
    }
}

/// The type `source`, whose tokens are added to `kept`.
fn source_type(source: &syn::Type, kept: &mut Vec<String>) -> SourceType {
    kept.push(quote::ToTokens::to_token_stream(source).to_string());
    SourceType { ty: ty(source), tokens: kept.len() - 1 }
}

fn attributes(attrs: &[syn::Attribute]) -> Vec<Attribute> {
    attrs
        .iter()
        .enumerate()
        .map(|(position, attr)| Attribute {
            path: path(attr.path()),
            meta: match &attr.meta {
                syn::Meta::Path(_) => Meta::Path,
                syn::Meta::List(list) => Meta::List(list.tokens.to_string()),
                syn::Meta::NameValue(_) => Meta::NameValue,
            },
            position,
        })
        .collect()
}

fn function(method: &syn::ImplItemFn, kept: &mut Vec<String>) -> ImplItemFn {
    ImplItemFn {
        attrs: attributes(&method.attrs),
        ident: method.sig.ident.to_string(),
        inputs: method
            .sig
            .inputs
            .iter()
            .map(|input| match input {
                syn::FnArg::Receiver(_) => FnArg::Receiver,
                syn::FnArg::Typed(typed) => FnArg::Typed(source_type(&typed.ty, kept)),
            })
            .collect(),
        output: match &method.sig.output {
            syn::ReturnType::Default => ReturnType::Default,
            syn::ReturnType::Type(_, output) => ReturnType::Type(ty(output)),
        },
    }
}

/// The function with the source text `text`.
fn parse_method(text: &str) -> ImplItemFn {
    parse_method_and_tokens(text).0
}

/// The function with the source text `text`, and the tokens of its types.
fn parse_method_and_tokens(text: &str) -> (ImplItemFn, Vec<String>) {
    let mut kept = Vec::new();
    (function(&syn::parse_str(text).unwrap(), &mut kept), kept)
}

/// The impl block with the source text `text`.
fn parse_impl(text: &str) -> ItemImpl {
    parse_impl_and_tokens(text).0
}

/// The impl block with the source text `text`, and the tokens of its types.
fn parse_impl_and_tokens(text: &str) -> (ItemImpl, Vec<String>) {
    let block: syn::ItemImpl = syn::parse_str(text).unwrap();
    let mut kept = Vec::new();
    let converted = ItemImpl {
        self_ty: source_type(&block.self_ty, &mut kept),
        items: block
            .items
            .iter()
            .map(|item| match item {
                syn::ImplItem::Const(constant) => ImplItem::Const(ImplItemConst {
                    attrs: attributes(&constant.attrs),
                    ident: constant.ident.to_string(),
                }),
                syn::ImplItem::Fn(method) => ImplItem::Fn(function(method, &mut kept)),
                _ => ImplItem::Other,
            })
            .collect(),
    };
    (converted, kept)
}

/// The struct with the source text `text`.
fn parse_struct(text: &str) -> DeriveInput {
    let input: syn::DeriveInput = syn::parse_str(text).unwrap();
    DeriveInput {
        ident: input.ident.to_string(),
        data: match &input.data {
            syn::Data::Struct(data) => Data::Struct(match &data.fields {
                syn::Fields::Named(named) => Fields::Named(
                    named
                        .named
                        .iter()
                        .map(|field| Field {
                            attrs: attributes(&field.attrs),
                            ident: field.ident.as_ref().map(ToString::to_string),
                            ty: ty(&field.ty),
                        })
                        .collect(),
                ),
                syn::Fields::Unnamed(_) => Fields::Unnamed(vec![]),
                syn::Fields::Unit => Fields::Unit,
            }),
            syn::Data::Enum(_) => Data::Enum(vec![]),
            syn::Data::Union(_) => Data::Union,
        },
    }
}

fn text(code: &Code) -> String {
    text_with(code, &[])
}

/// The text of `code`, in which the kept tokens are `kept`.
fn text_with(code: &Code, kept: &[String]) -> String {
    let mut out = String::new();
    for piece in &code.pieces {
        match piece {
            Piece::Text(text) => out.push_str(text),
            Piece::Str(value) => out.push_str(&proc_macro2::Literal::string(value).to_string()),
            Piece::Tokens(number) => out.push_str(&kept[*number]),
            Piece::Item => out.push_str("struct Item; "),
        }
    }
    out
}

/// The tokens of `source`, in one spelling.
fn normal(source: &str) -> String {
    source.parse::<proc_macro2::TokenStream>().unwrap().to_string()
}

/// What `#[jsg_resource]` emits on `block`, behind the block itself.
fn expand_impl(block: &str) -> String {
    let (block, kept) = parse_impl_and_tokens(block);
    let code = generate_resource_impl(&block).unwrap();
    assert!(matches!(code.pieces[0], Piece::Item));
    let emitted = normal(&text_with(&code, &kept));
    emitted.strip_prefix("struct Item ; ").unwrap().to_string()
}

fn resource_impl(name: &str, members: &str) -> String {
    normal(&format!(
        "#[automatically_derived]
        impl jsg::Resource for {name} {{
            fn members() -> Vec<jsg::Member>
            where
                Self: Sized,
            {{
                vec![{members}]
            }}
        }}"
    ))
}

fn constructor_member(self_ty: &str, method: &str, unwraps: &str, args: &str) -> String {
    format!(
        "jsg::Member::Constructor {{
            callback: {{
                unsafe extern \"C\" fn {method}_constructor_callback(
                    info: *mut jsg::v8::ffi::FunctionCallbackInfo,
                ) {{
                    let mut lock = unsafe {{ jsg::Lock::from_args(info) }};
                    jsg::catch_panic(&mut lock, || {{
                        let mut args = unsafe {{ jsg::v8::FunctionCallbackInfo::from_ffi(info) }};
                        let mut lock = unsafe {{ jsg::Lock::from_args(info) }};
                        {unwraps}
                        let resource = {self_ty}::{method}({args});
                        let rc = jsg::Rc::new(resource);
                        rc.attach_to_this(&mut args);
                    }});
                }}
                {method}_constructor_callback
            }},
        }}"
    )
}

fn unwrap_argument(index: usize, ty: &str) -> String {
    format!(
        "let arg{index} = match <{ty} as jsg::FromJS>::from_js(&mut lock, args.get({index}usize)) {{
            Ok(v) => v,
            Err(e) => {{
                lock.throw_exception(&e);
                return;
            }}
        }};"
    )
}

fn resource_struct(name: &str, class_name: &str, gc: &str) -> String {
    normal(&format!(
        "#[automatically_derived]
        impl jsg::Type for {name} {{
            fn class_name() -> &'static str {{ {class_name:?} }}
            fn is_exact(value: &jsg::v8::Local<jsg::v8::Value>) -> bool {{
                value.is_object()
            }}
        }}
        #[automatically_derived]
        impl jsg::ToJS for {name} {{
            fn to_js<'a, 'b>(self, lock: &'a mut jsg::Lock) -> jsg::v8::Local<'b, jsg::v8::Value>
            where
                'b: 'a,
            {{
                let r = jsg::Rc::new(self);
                r.to_js(lock)
            }}
        }}
        #[automatically_derived]
        impl jsg::FromJS for {name} {{
            type ResultType = jsg::Rc<Self>;
            fn from_js(
                lock: &mut jsg::Lock,
                value: jsg::v8::Local<jsg::v8::Value>,
            ) -> Result<Self::ResultType, jsg::Error> {{
                <jsg::Rc<Self> as jsg::FromJS>::from_js(lock, value)
            }}
        }}
        {gc}"
    ))
}

fn gc_impl(name: &str, body: &str) -> String {
    format!(
        "#[automatically_derived]
        impl jsg::GarbageCollected for {name} {{
            fn trace(&self, visitor: &mut jsg::GcVisitor) {{
                let _ = visitor;
                {body}
            }}
            fn memory_name(&self) -> &'static ::std::ffi::CStr {{
                ::std::ffi::CStr::from_bytes_with_nul(concat!({name:?}, \"\\0\").as_bytes())
                    .unwrap()
            }}
        }}"
    )
}

/// What `#[jsg_resource(attr)]` emits on `input`, behind the struct itself.
fn expand_struct(attr: &str, input: &str) -> String {
    let expansion = generate_resource_struct(attr, parse_struct(input)).unwrap();
    assert!(matches!(expansion.code.pieces[0], Piece::Item));
    let emitted = normal(&text(&expansion.code));
    syn::parse_str::<syn::File>(&emitted).unwrap();
    emitted.strip_prefix("struct Item ; ").unwrap().to_string()
}

#[test]
fn validate_constructor_valid() {
    // A valid constructor: static (no self), returns Self.
    let method = parse_method("fn constructor(name: String) -> Self { todo!() }");
    assert!(validate_constructor(&method).is_none());
}

#[test]
fn validate_constructor_rejects_self_receiver() {
    // Instance method: must not have &self.
    let method = parse_method("fn constructor(&self) -> Self { todo!() }");
    assert!(validate_constructor(&method).is_some());
}

#[test]
fn validate_constructor_rejects_non_self_return() {
    // Returns String, not Self.
    let method = parse_method("fn constructor() -> String { todo!() }");
    assert!(validate_constructor(&method).is_some());
}

#[test]
fn extract_constructor_params_no_lock() {
    // Plain constructor: no Lock param, two JS args.
    let method = parse_method("fn constructor(name: String, value: u32) -> Self { todo!() }");
    let (has_lock, unwraps, arg_exprs) = extract_constructor_params(&method);
    assert!(!has_lock);
    assert_eq!(unwraps.len(), 2);
    assert_eq!(arg_exprs.len(), 2);
}

#[test]
fn extract_constructor_params_with_lock() {
    // First param is `&mut jsg::Lock`: skipped from JS args.
    let method =
        parse_method("fn constructor(lock: &mut jsg::Lock, name: String) -> Self { todo!() }");
    let (has_lock, unwraps, arg_exprs) = extract_constructor_params(&method);
    assert!(has_lock);
    // Only one JS arg (name); lock is not counted.
    assert_eq!(unwraps.len(), 1);
    assert_eq!(arg_exprs.len(), 1);
}

#[test]
fn extract_constructor_params_no_args() {
    let method = parse_method("fn constructor() -> Self { todo!() }");
    let (has_lock, unwraps, arg_exprs) = extract_constructor_params(&method);
    assert!(!has_lock);
    assert!(unwraps.is_empty());
    assert!(arg_exprs.is_empty());
}

#[test]
fn constructor_errors_exactly() {
    let error = |source: &str| text(&validate_constructor(&parse_method(source)).unwrap());
    let receiver =
        "compile_error!(\"#[jsg_constructor] must be a static method (no self receiver)\");";
    let result = "compile_error!(\"#[jsg_constructor] must return Self\");";
    assert_eq!(error("fn c(&mut self) -> Self { todo!() }"), receiver);
    // The receiver is reported first.
    assert_eq!(error("fn c(self) -> String { todo!() }"), receiver);
    assert_eq!(error("fn c() { todo!() }"), result);
    assert_eq!(error("fn c() -> Self::Inner { todo!() }"), result);
    assert_eq!(error("fn c() -> ::Self { todo!() }"), result);
    assert_eq!(error("fn c() -> Self<T> { todo!() }"), result);
    assert_eq!(error("fn c() -> &Self { todo!() }"), result);
}

#[test]
fn constructor_parameters_exactly() {
    let (method, kept) = parse_method_and_tokens(
        "fn c(lock: &mut Lock, a: Vec<String>, b: &mut jsg::Lock) -> Self {}",
    );
    let (has_lock, unwraps, arg_exprs) = extract_constructor_params(&method);
    assert!(has_lock);
    // Only the first parameter can be the lock.
    let unwraps: Vec<String> = unwraps.iter().map(|code| normal(&text_with(code, &kept))).collect();
    assert_eq!(
        unwraps,
        vec![
            normal(&unwrap_argument(0, "Vec<String>")),
            normal(&unwrap_argument(1, "&mut jsg::Lock")),
        ]
    );
    assert_eq!(arg_exprs.iter().map(text).collect::<Vec<_>>(), vec!["arg0", "arg1"]);
}

#[test]
fn lock_references() {
    let lock = |source: &str| is_lock_ref(&ty(&syn::parse_str(source).unwrap()));
    assert!(lock("&mut Lock"));
    assert!(lock("&mut jsg::Lock"));
    assert!(lock("&'a mut jsg::Lock"));
    assert!(!lock("&Lock"));
    assert!(!lock("Lock"));
    assert!(!lock("&mut other::Lock"));
    assert!(!lock("&mut std::jsg::Lock"));
    assert!(!lock("&mut &mut Lock"));
    assert!(!lock("&mut (Lock,)"));
}

#[test]
fn constructor_registration_exactly() {
    let (block, kept) = parse_impl_and_tokens(
        "impl Greeting { #[jsg_constructor] fn constructor(lock: &mut Lock, message: String, n: u32) -> Self {} }",
    );
    let code = generate_constructor_registration(&block, &block.self_ty).unwrap();
    assert_eq!(
        normal(&text_with(&code, &kept)),
        normal(&constructor_member(
            "Greeting",
            "constructor",
            &format!("{}{}", unwrap_argument(0, "String"), unwrap_argument(1, "u32")),
            "&mut lock, arg0, arg1"
        ))
    );
    let (block, kept) =
        parse_impl_and_tokens("impl Greeting { #[jsg::jsg_constructor] fn new() -> Self {} }");
    let code = generate_constructor_registration(&block, &block.self_ty).unwrap();
    assert_eq!(normal(&text_with(&code, &kept)), normal(&constructor_member("Greeting", "new", "", "")));
}

#[test]
fn constructor_registration_counts_constructors() {
    let block = parse_impl("impl G { fn new() -> Self {} const N: u32 = 1; type T = u8; }");
    assert!(generate_constructor_registration(&block, &block.self_ty).is_none());
    let block = parse_impl(
        "impl G { #[jsg_constructor] fn a() -> Self {} #[jsg_constructor] fn b(&self) {} }",
    );
    let code = generate_constructor_registration(&block, &block.self_ty).unwrap();
    assert_eq!(
        text(&code),
        "compile_error!(\"only one #[jsg_constructor] is allowed per impl block\");"
    );
    let block = parse_impl("impl G { #[jsg_constructor] fn b(&self) {} }");
    let code = generate_constructor_registration(&block, &block.self_ty).unwrap();
    assert_eq!(
        text(&code),
        "compile_error!(\"#[jsg_constructor] must be a static method (no self receiver)\");"
    );
}

#[test]
fn impl_block_registers_members_in_order() {
    let emitted = expand_impl(
        "impl DnsUtil {
            #[jsg_static_constant] pub const MAX_SIZE: i32 = 3;
            #[jsg_method] pub fn parse_caa_record(&self, record: String) -> String {}
            pub fn helper(&self) {}
            #[jsg_method(name = \"toString\")] fn to_string_js(&mut self) -> String {}
            #[jsg_constructor] fn constructor() -> Self {}
            const PRIVATE: i32 = 4;
            #[jsg_macros::jsg_method] pub fn create(name: String) -> Self {}
            #[jsg_static_constant(name = \"Open\")] pub const OPEN: i32 = 1;
            type Alias = u8;
        }",
    );
    let members = format!(
        "{},
        jsg::Member::Method {{ name: \"parseCaaRecord\".to_owned(), callback: Self::parse_caa_record_callback, }},
        jsg::Member::Method {{ name: \"toString\".to_owned(), callback: Self::to_string_js_callback, }},
        jsg::Member::StaticMethod {{ name: \"create\".to_owned(), callback: Self::create_callback, }},
        jsg::Member::StaticConstant {{ name: \"MAX_SIZE\".to_owned(), value: jsg::ConstantValue::from(Self::MAX_SIZE), }},
        jsg::Member::StaticConstant {{ name: \"Open\".to_owned(), value: jsg::ConstantValue::from(Self::OPEN), }},",
        constructor_member("DnsUtil", "constructor", "", "")
    );
    assert_eq!(emitted, resource_impl("DnsUtil", &members));
}

#[test]
fn empty_impl_block_registers_nothing() {
    assert_eq!(expand_impl("impl Leaf {}"), resource_impl("Leaf", ""));
}

#[test]
fn arguments_without_a_name_give_no_name() {
    let emitted = expand_impl(
        "impl R {
            #[jsg_method(other = \"x\")] fn get_name(&self) {}
            #[jsg_method = \"x\"] fn set_name(&self) {}
            #[jsg_method(name = 3)] fn get_size(&self) {}
        }",
    );
    let members = "jsg::Member::Method { name: \"getName\".to_owned(), callback: Self::get_name_callback, },
        jsg::Member::Method { name: \"setName\".to_owned(), callback: Self::set_name_callback, },
        jsg::Member::Method { name: \"getSize\".to_owned(), callback: Self::get_size_callback, },";
    assert_eq!(emitted, resource_impl("R", members));
}

#[test]
fn first_registering_attribute_counts() {
    let emitted = expand_impl(
        "impl R { #[doc] #[jsg_method(name = \"one\")] #[jsg_method(name = \"two\")] fn f() {} }",
    );
    let members =
        "jsg::Member::StaticMethod { name: \"one\".to_owned(), callback: Self::f_callback, },";
    assert_eq!(emitted, resource_impl("R", members));
}

#[test]
fn explicit_names_are_used() {
    let (block, kept) = parse_impl_and_tokens("impl R { #[jsg_method] fn get_it() {} }");
    let code = expand_resource_impl(&block, &vec![Some("given".to_string())]).unwrap();
    assert!(text_with(&code, &kept).contains("name: \"given\".to_owned()"));
    let method = parse_method("fn get_it(&self) {}");
    assert_eq!(
        text(&generate_method_member(&method, &None)),
        "jsg::Member::Method { name: \"getIt\".to_owned(), callback: Self::get_it_callback, }"
    );
}

#[test]
fn impl_blocks_of_other_types_are_refused() {
    for source in ["impl (A, B) { #[jsg_method] fn r#type() {} }", "impl &A {}"] {
        let block = parse_impl(source);
        assert!(has_nameable_callbacks(&block));
        assert_eq!(
            generate_resource_impl(&block).unwrap_err().message,
            "#[jsg_resource] impl blocks must use a simple path type (e.g., `impl MyResource`)"
        );
    }
    assert_eq!(
        expand_impl("impl jsg::Wrapper<String> {}"),
        resource_impl("jsg::Wrapper<String>", "")
    );
}

#[test]
fn raw_method_names_have_no_callback_name() {
    let nameable = |source: &str| has_nameable_callbacks(&parse_impl(source));
    assert!(nameable("impl R { #[jsg_method] fn get() {} }"));
    assert!(!nameable("impl R { #[jsg_method] fn r#type() {} }"));
    assert!(nameable("impl R { fn r#type() {} }"));
    assert!(!nameable("impl R { #[jsg_constructor] fn r#new() -> Self {} }"));
    // A constructor that is refused gets no callback.
    assert!(nameable("impl R { #[jsg_constructor] fn r#new() {} }"));
}

#[test]
fn resource_struct_expansion() {
    assert_eq!(
        expand_struct(
            "",
            "pub struct DnsUtil { cache: HashMap<String, jsg::Rc<CacheEntry>>, name: String }"
        ),
        resource_struct(
            "DnsUtil",
            "DnsUtil",
            &gc_impl(
                "DnsUtil",
                "for __item in (&self.cache).values() { visitor.visit_rc(__item); }"
            )
        )
    );
}

#[test]
fn resource_struct_with_a_name() {
    assert_eq!(
        expand_struct("name = \"JSName\"", "struct S { value: u32 }"),
        resource_struct("S", "JSName", &gc_impl("S", ""))
    );
}

#[test]
fn resource_struct_with_custom_trace() {
    let source = "struct D { slots: Vec<Option<jsg::Rc<Handler>>>, one: jsg::Rc<Handler> }";
    assert_eq!(expand_struct("custom_trace", source), resource_struct("D", "D", ""));
    assert_eq!(
        expand_struct("name = \"MyName\", custom_trace", source),
        resource_struct("D", "MyName", "")
    );
    assert_eq!(
        expand_struct("custom_trace, name = \"MyName\",", source),
        resource_struct("D", "MyName", "")
    );
    // A value makes it another argument.
    assert_eq!(
        expand_struct("custom_trace = \"no\"", "struct S { value: u32 }"),
        resource_struct("S", "S", &gc_impl("S", ""))
    );
}

#[test]
fn resource_struct_delegates_marked_fields() {
    let source = "struct MySocket { #[jsg_trace] #[doc] handlers: EventHandlers, name: String }";
    assert_eq!(
        expand_struct("", source),
        resource_struct(
            "MySocket",
            "MySocket",
            &gc_impl(
                "MySocket",
                "jsg::GarbageCollected::trace(&self.handlers, visitor);"
            )
        )
    );
    let expansion = generate_resource_struct("custom_trace", parse_struct(source)).unwrap();
    let Data::Struct(Fields::Named(named)) = &expansion.item.data else {
        panic!("named fields expected");
    };
    assert_eq!(named[0].attrs.len(), 1);
    assert_eq!(named[0].attrs[0].path.segments[0].ident, "doc");
    assert_eq!(named[0].attrs[0].position, 1);
}

#[test]
fn resource_struct_from_arguments() {
    let args = Some(vec![
        AttrArg { key: Some("custom_trace".to_string()), value: AttrValue::Flag },
        AttrArg { key: Some("name".to_string()), value: AttrValue::Str("N".to_string()) },
    ]);
    let expansion =
        expand_resource_struct_with_args(&args, parse_struct("struct S { a: jsg::Rc<A> }"))
            .unwrap();
    assert_eq!(
        normal(&text(&expansion.code)),
        format!("struct Item ; {}", resource_struct("S", "N", ""))
    );
}

#[test]
fn resource_needs_named_fields() {
    for source in ["struct S;", "struct S(u8);", "enum E { A }", "union U { a: u8 }"] {
        let error = generate_resource_struct("", parse_struct(source)).unwrap_err();
        assert_eq!(error.message, "#[jsg_resource] only supports structs with named fields");
    }
}

#[test]
fn attribute_arguments_are_read() {
    assert_eq!(extract_name_attribute("name = \"Custom\"").as_deref(), Some("Custom"));
    assert_eq!(extract_name_attribute("name = r\"raw\\n\"").as_deref(), Some("raw\\n"));
    assert_eq!(extract_name_attribute("a, b(c), name = \"X\",").as_deref(), Some("X"));
    assert_eq!(extract_name_attribute("a::name = \"X\""), None);
    assert_eq!(extract_name_attribute("\"X\""), None);
    assert_eq!(extract_name_attribute(""), None);
    assert!(parse_attr_args("").unwrap().is_empty());
    assert!(parse_attr_args("name = \"unfinished").is_none());
    let args = parse_attr_args("custom_trace, name = \"X\", size = 3").unwrap();
    assert_eq!(args.len(), 3);
    assert!(matches!(args[0].value, AttrValue::Flag));
    assert!(matches!(args[2].value, AttrValue::Other));
    assert_eq!(args[2].key.as_deref(), Some("size"));
    assert!(get_flag(&args, "custom_trace"));
    assert!(!get_flag(&args, "name"));
    assert_eq!(get_name_value(&args).as_deref(), Some("X"));
}

#[test]
fn written_arguments_are_read_as_written() {
    // All printable ASCII but the quote and the backslash.
    let value: String = (b' '..=b'~')
        .map(char::from)
        .filter(|c| *c != '"' && *c != '\\')
        .collect();
    let name = format!("name = \"{value}\"");
    assert_eq!(extract_name_attribute(&name), Some(value.clone()));
    assert_eq!(extract_name_attribute("name = \"\"").as_deref(), Some(""));
    let texts = [
        name.clone(),
        "custom_trace".to_string(),
        format!("{name}, custom_trace"),
        format!("custom_trace, {name}"),
        format!("{name}, {name}, custom_trace, custom_trace"),
    ];
    for text in texts {
        let args = parse_attr_args(&text).unwrap();
        let names = text.matches("name = ").count();
        let flags = text.matches("custom_trace").count();
        assert_eq!(args.len(), names + flags, "{text}");
        assert_eq!(get_flag(&args, "custom_trace"), flags > 0, "{text}");
        let read = get_name_value(&args);
        assert_eq!(read.as_ref(), if names > 0 { Some(&value) } else { None }, "{text}");
    }
}

#[test]
fn spellings_make_no_difference() {
    let names = [
        ("name=\"X\"", "X"),
        ("name =\"X\"", "X"),
        (" \t\nname\n=\t \"X\" ", "X"),
        ("name = \"X\",", "X"),
        ("name = \"X\" , \n", "X"),
        ("custom_trace,name=\"X\"", "X"),
        ("name = 3, name = \"X\"", "X"),
        ("name, other = \"Y\", name = \"X\"", "X"),
        ("name = \"Zażółć \u{0} \u{301}\n\t{(é\"", "Zażółć \u{0} \u{301}\n\t{(é"),
        ("name = \"a, custom_trace = b\"", "a, custom_trace = b"),
        ("name = \"\\\"\\\\\\'\\n\\r\\t\\0'\"", "\"\\'\n\r\t\0'"),
    ];
    for (text, name) in names {
        assert_eq!(extract_name_attribute(text).as_deref(), Some(name), "{text}");
    }
    for text in ["", " \n\t", "name", "name = 3", "name=007,", "other=\"X\"", "_ame = \"X\""] {
        assert_eq!(extract_name_attribute(text), None, "{text}");
        assert!(parse_attr_args(text).is_some(), "{text}");
    }
    for text in ["custom_trace,", " custom_trace ", "\tname=\"X\",\ncustom_trace\n,", "b,custom_trace"] {
        assert!(get_flag(&parse_attr_args(text).unwrap(), "custom_trace"), "{text}");
    }
    for text in ["custom_trace = 1", "custom_trace=\"\"", "Custom_trace", "custom_trace2"] {
        assert!(!get_flag(&parse_attr_args(text).unwrap(), "custom_trace"), "{text}");
    }
    let source = "struct S { one: jsg::Rc<Handler> }";
    assert_eq!(
        expand_struct("custom_trace,name=\"N\",", source),
        resource_struct("S", "N", "")
    );
    assert_eq!(
        expand_impl("impl R { #[jsg_method(name=\"one\",)] fn f() {} }"),
        resource_impl(
            "R",
            "jsg::Member::StaticMethod { name: \"one\".to_owned(), callback: Self::f_callback, },"
        )
    );
}

#[test]
fn names_in_camel_case() {
    assert_eq!(snake_to_camel("parse_caa_record"), "parseCaaRecord");
    assert_eq!(snake_to_camel("get_name"), "getName");
    assert_eq!(snake_to_camel("create"), "create");
    assert_eq!(snake_to_camel("alreadyCamel"), "alreadyCamel");
    assert_eq!(snake_to_camel("a__b_2_c_"), "aB2C");
    assert_eq!(snake_to_camel("_private"), "Private");
    assert_eq!(snake_to_camel(""), "");
}

#[test]
fn numbers_in_decimal() {
    for n in [0usize, 7, 10, 109, 12345] {
        assert_eq!(decimal_string(n), format!("{n}"));
    }
}

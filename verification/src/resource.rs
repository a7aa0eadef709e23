//! Code generation for `#[jsg_resource]` on structs and impl blocks.
//!
//! - On a struct: emits `jsg::Type`, `jsg::ToJS`, `jsg::FromJS`, and
//!   `jsg::GarbageCollected` implementations. `custom_trace` among the
//!   arguments of the attribute leaves out the last.
//! - On an impl block: emits the `jsg::Resource` trait with constructor,
//!   method, static method and static constant registrations.

use vstd::prelude::*;

use crate::attrs::{
    find_attr, first_attr, get_explicit_name, get_flag, has_custom_trace, is_written_name,
    lemma_custom_trace_is_read, lemma_empty_is_read, lemma_explicit_name_is_read,
    lemma_name_and_custom_trace_are_read, lemma_name_is_read, may_be_explicit_name, may_be_read,
    parse_attr_args, view_args, view_string, AttrArg,
};
use crate::code::{annotated_item, code, literal, separated, source_tokens, terminated, views, Code, Sym};
use crate::expand::{
    extract_named_fields, gc_impl, generate_gc_impl, generate_trace_body, get_name_or, name_or,
    trace_body, CompileError, Expansion,
};
use crate::names::{camel, decimal, is_raw, is_raw_ident, numbered, snake_to_camel, suffixed};
use crate::spelling::{is_plain, name_text, Arg, ListSpelling};
use crate::syntax::{
    path_idents, path_is_ident, Attribute, Data, DeriveInput, Field, Fields, FnArg, ImplItem,
    ImplItemConst, ImplItemFn, ItemImpl, ReturnType, SourceType, Type,
};
use crate::trace::{generate_trace_statements, trace_statements, view_option};
use crate::traceable::{input_stripped, strip_jsg_trace_attrs};

verus! {

// ---------------------------------------------------------------------------
// Constructors
// ---------------------------------------------------------------------------

/// Whether `ty` is `&mut Lock` or `&mut jsg::Lock`.
pub open spec fn lock_ref(ty: Type) -> bool {
    match ty {
        Type::Reference { mutable, elem } => mutable && match *elem {
            Type::Path(path) => path_idents(path) == seq!["Lock"@] || path_idents(path) == seq![
                "jsg"@,
                "Lock"@,
            ],
            _ => false,
        },
        _ => false,
    }
}

/// Whether a function takes `self` in any form.
pub open spec fn has_receiver(inputs: Seq<FnArg>) -> bool {
    exists|i: int| 0 <= i < inputs.len() && #[trigger] inputs[i] is Receiver
}

/// Whether a function returns `Self`.
pub open spec fn returns_self(output: ReturnType) -> bool {
    match output {
        ReturnType::Type(Type::Path(path)) => path_is_ident(path, "Self"@),
        _ => false,
    }
}

/// What is emitted for a constructor of the wrong shape: one that takes `self`,
/// or that does not return `Self`.
pub open spec fn constructor_error(method: ImplItemFn) -> Option<Seq<Sym>> {
    if has_receiver(method.inputs@) {
        Some(
            code(
                "compile_error!(\"#[jsg_constructor] must be a static method (no self receiver)\");"@,
            ),
        )
    } else if !returns_self(method.output) {
        Some(code("compile_error!(\"#[jsg_constructor] must return Self\");"@))
    } else {
        None
    }
}

/// The type of a parameter other than `self`.
pub open spec fn parameter_type() -> spec_fn(FnArg) -> Option<SourceType> {
    |arg: FnArg|
        match arg {
            FnArg::Typed(ty) => Some(ty),
            FnArg::Receiver => None,
        }
}

/// The types of the parameters other than `self`, in order.
pub open spec fn parameters(inputs: Seq<FnArg>) -> Seq<SourceType> {
    inputs.filter_map(parameter_type())
}

/// Whether the first parameter other than `self` takes the lock.
pub open spec fn takes_lock(inputs: Seq<FnArg>) -> bool {
    parameters(inputs).len() > 0 && lock_ref(parameters(inputs)[0].ty)
}

/// The types of the parameters that are JavaScript arguments: all but `self`
/// and the lock.
pub open spec fn js_parameters(inputs: Seq<FnArg>) -> Seq<SourceType> {
    if takes_lock(inputs) {
        parameters(inputs).skip(1)
    } else {
        parameters(inputs)
    }
}

/// The variable that holds the JavaScript argument `index`.
pub open spec fn argument_variable(index: nat) -> Seq<Sym> {
    code("arg"@ + decimal(index))
}

/// The statement that converts the JavaScript argument `index` to the type
/// with the tokens `ty`, and throws where that fails.
pub open spec fn argument_unwrap(index: nat, ty: usize) -> Seq<Sym> {
    code("let "@) + argument_variable(index) + code(" = match <"@) + source_tokens(ty) + code(
        " as jsg::FromJS>::from_js(&mut lock, args.get("@,
    ) + code(decimal(index) + "usize"@) + code(
        ")) { Ok(v) => v, Err(e) => { lock.throw_exception(&e); return; } };"@,
    )
}

/// The statements that convert the JavaScript arguments.
pub open spec fn argument_unwraps(inputs: Seq<FnArg>) -> Seq<Seq<Sym>> {
    Seq::new(
        js_parameters(inputs).len(),
        |i: int| argument_unwrap(i as nat, js_parameters(inputs)[i].tokens),
    )
}

/// The variables that hold the JavaScript arguments.
pub open spec fn argument_variables(inputs: Seq<FnArg>) -> Seq<Seq<Sym>> {
    Seq::new(js_parameters(inputs).len(), |i: int| argument_variable(i as nat))
}

/// The registration of the constructor `method` of the type with the tokens
/// `self_ty`.
pub open spec fn constructor_callback(method: ImplItemFn, self_ty: usize) -> Seq<Sym> {
    let callback = code(method.ident@ + "_constructor_callback"@);
    code("jsg::Member::Constructor { callback: { unsafe extern \"C\" fn "@) + callback + code(
        "(info: *mut jsg::v8::ffi::FunctionCallbackInfo,) { let mut lock = unsafe { jsg::Lock::from_args(info) }; jsg::catch_panic(&mut lock, || { let mut args = unsafe { jsg::v8::FunctionCallbackInfo::from_ffi(info) }; let mut lock = unsafe { jsg::Lock::from_args(info) }; "@,
    ) + terminated(argument_unwraps(method.inputs@), code(" "@)) + code("let resource = "@)
        + source_tokens(self_ty) + code("::"@) + code(method.ident@) + code("("@) + (if takes_lock(method.inputs@) {
        code("&mut lock, "@)
    } else {
        Seq::empty()
    }) + separated(argument_variables(method.inputs@), code(", "@)) + code(
        "); let rc = jsg::Rc::new(resource); rc.attach_to_this(&mut args); }); } "@,
    ) + callback + code(" }, }"@)
}

/// The constructor that `item` is: a function marked `#[jsg_constructor]`.
pub open spec fn constructor_of() -> spec_fn(ImplItem) -> Option<ImplItemFn> {
    |item: ImplItem|
        match item {
            ImplItem::Fn(method) => if first_attr(method.attrs@, "jsg_constructor"@) is Some {
                Some(method)
            } else {
                None
            },
            _ => None,
        }
}

/// The constructors among `items`, in order.
pub open spec fn constructors(items: Seq<ImplItem>) -> Seq<ImplItemFn> {
    items.filter_map(constructor_of())
}

/// What is registered for the constructors of an impl block: nothing without
/// one, an error for one of the wrong shape or for more than one. `self_ty` are
/// the tokens of the type of the block.
pub open spec fn constructor_registration(items: Seq<ImplItem>, self_ty: usize) -> Option<
    Seq<Sym>,
> {
    let found = constructors(items);
    if found.len() > 1 {
        Some(
            code(
                "compile_error!(\"only one #[jsg_constructor] is allowed per impl block\");"@,
            ),
        )
    } else if found.len() == 1 {
        match constructor_error(found[0]) {
            Some(error) => Some(error),
            None => Some(constructor_callback(found[0], self_ty)),
        }
    } else {
        None
    }
}

/// Whether the name of the callback of the constructor of an impl block, where
/// one is registered, is an identifier. The name of a callback is the name of
/// the method with a suffix, which a raw identifier does not take.
pub open spec fn constructor_nameable(items: Seq<ImplItem>) -> bool {
    let found = constructors(items);
    found.len() == 1 && constructor_error(found[0]) is None ==> !is_raw(found[0].ident@)
}

/// Whether `ty` is `&mut Lock` or `&mut jsg::Lock`.
pub fn is_lock_ref(ty: &Type) -> (r: bool)
    ensures
        r == lock_ref(*ty),
{
    let Type::Reference { mutable, elem } = ty else {
        return false;
    };
    let Type::Path(path) = &**elem else {
        return false;
    };
    let plain = ["Lock"];
    let qualified = ["jsg", "Lock"];
    assert(plain@.map_values(|name: &str| name@) =~= seq!["Lock"@]);
    assert(qualified@.map_values(|name: &str| name@) =~= seq!["jsg"@, "Lock"@]);
    *mutable && (path.spells(&plain) || path.spells(&qualified))
}

/// Whether a function takes `self` in any form.
pub fn get_has_receiver(inputs: &Vec<FnArg>) -> (r: bool)
    ensures
        r == has_receiver(inputs@),
{
    let mut i: usize = 0;
    while i < inputs.len()
        invariant
            i <= inputs@.len(),
            forall|j: int| 0 <= j < i ==> !(#[trigger] inputs@[j] is Receiver),
        decreases inputs@.len() - i,
    {
        if let FnArg::Receiver = &inputs[i] {
            return true;
        }
        i += 1;
    }
    false
}

/// Validates that a `#[jsg_constructor]` method has the right shape.
///
/// Returns a `compile_error!` if the method has a `self` receiver or does not
/// return `Self`; returns `None` if the method is valid.
pub fn validate_constructor(method: &ImplItemFn) -> (r: Option<Code>)
    ensures
        view_option(r) == constructor_error(*method),
{
    if get_has_receiver(&method.inputs) {
        return Some(
            Code::from_text(
                "compile_error!(\"#[jsg_constructor] must be a static method (no self receiver)\");",
            ),
        );
    }
    let valid_return = match &method.output {
        ReturnType::Type(Type::Path(path)) => path.is_ident("Self"),
        _ => false,
    };
    if !valid_return {
        return Some(
            Code::from_text("compile_error!(\"#[jsg_constructor] must return Self\");"),
        );
    }
    None
}

/// The types of the parameters other than `self`, in order.
fn get_parameters(inputs: &Vec<FnArg>) -> (r: Vec<&SourceType>)
    ensures
        r@.len() == parameters(inputs@).len(),
        forall|i: int| 0 <= i < r@.len() ==> *(#[trigger] r@[i]) == parameters(inputs@)[i],
{
    let ghost f = parameter_type();
    let mut r: Vec<&SourceType> = Vec::new();
    let mut i: usize = 0;
    while i < inputs.len()
        invariant
            i <= inputs@.len(),
            f == parameter_type(),
            r@.len() == inputs@.take(i as int).filter_map(f).len(),
            forall|j: int|
                0 <= j < r@.len() ==> *(#[trigger] r@[j]) == inputs@.take(i as int).filter_map(
                    f,
                )[j],
        decreases inputs@.len() - i,
    {
        proof {
            inputs@.lemma_filter_map_take_succ(f, i as int);
        }
        if let FnArg::Typed(ty) = &inputs[i] {
            r.push(ty);
        }
        i += 1;
    }
    assert(inputs@.take(i as int) =~= inputs@);
    r
}

/// The statement that converts a JavaScript argument.
fn generate_argument_unwrap(index: usize, ty: usize) -> (r: Code)
    ensures
        r@ == argument_unwrap(index as nat, ty),
{
    let mut r = Code::from_text("let ");
    r.text(numbered("arg", index).as_str());
    r.text(" = match <");
    r.tokens(ty);
    r.text(" as jsg::FromJS>::from_js(&mut lock, args.get(");
    r.text(suffixed(numbered("", index).as_str(), "usize").as_str());
    r.text(")) { Ok(v) => v, Err(e) => { lock.throw_exception(&e); return; } };");
    proof {
        reveal_strlit("");
        assert(""@ + decimal(index as nat) =~= decimal(index as nat));
    }
    r
}

/// Extracts whether a constructor takes the lock, the statements that unwrap
/// its JavaScript arguments, and the argument expressions.
pub fn extract_constructor_params(method: &ImplItemFn) -> (r: (bool, Vec<Code>, Vec<Code>))
    ensures
        r.0 == takes_lock(method.inputs@),
        views(r.1@) == argument_unwraps(method.inputs@),
        views(r.2@) == argument_variables(method.inputs@),
{
    let params = get_parameters(&method.inputs);
    let has_lock_param = params.len() > 0 && is_lock_ref(&params[0].ty);
    let js_arg_offset: usize = if has_lock_param {
        1
    } else {
        0
    };
    let mut unwraps: Vec<Code> = Vec::new();
    let mut arg_exprs: Vec<Code> = Vec::new();
    let mut i: usize = js_arg_offset;
    let ghost js = js_parameters(method.inputs@);
    while i < params.len()
        invariant
            js_arg_offset <= i <= params@.len(),
            js.len() == params@.len() - js_arg_offset,
            js == js_parameters(method.inputs@),
            forall|j: int|
                0 <= j < js.len() ==> *(#[trigger] params@[j + js_arg_offset]) == js[j],
            unwraps@.len() == i - js_arg_offset,
            arg_exprs@.len() == i - js_arg_offset,
            forall|j: int|
                0 <= j < unwraps@.len() ==> (#[trigger] unwraps@[j])@ == argument_unwrap(
                    j as nat,
                    js[j].tokens,
                ),
            forall|j: int|
                0 <= j < arg_exprs@.len() ==> (#[trigger] arg_exprs@[j])@ == argument_variable(
                    j as nat,
                ),
        decreases params@.len() - i,
    {
        let js_index: usize = i - js_arg_offset;
        assert(*params@[js_index + js_arg_offset] == js[js_index as int]);
        unwraps.push(generate_argument_unwrap(js_index, params[i].tokens));
        arg_exprs.push(Code::from_text(numbered("arg", js_index).as_str()));
        i += 1;
    }
    assert(views(unwraps@) =~= argument_unwraps(method.inputs@));
    assert(views(arg_exprs@) =~= argument_variables(method.inputs@));
    (has_lock_param, unwraps, arg_exprs)
}

/// Generates the registration of the constructor `method`.
fn generate_constructor_callback(method: &ImplItemFn, self_ty: usize) -> (r: Code)
    requires
        !is_raw(method.ident@),
    ensures
        r@ == constructor_callback(*method, self_ty),
{
    let callback_name = suffixed(method.ident.as_str(), "_constructor_callback");
    let (has_lock_param, unwraps, arg_exprs) = extract_constructor_params(method);
    let lock_arg = if has_lock_param {
        Code::from_text("&mut lock, ")
    } else {
        Code::new()
    };
    let mut r = Code::from_text("jsg::Member::Constructor { callback: { unsafe extern \"C\" fn ");
    r.text(callback_name.as_str());
    r.text(
        "(info: *mut jsg::v8::ffi::FunctionCallbackInfo,) { let mut lock = unsafe { jsg::Lock::from_args(info) }; jsg::catch_panic(&mut lock, || { let mut args = unsafe { jsg::v8::FunctionCallbackInfo::from_ffi(info) }; let mut lock = unsafe { jsg::Lock::from_args(info) }; ",
    );
    r.append_terminated(&unwraps, " ");
    r.text("let resource = ");
    r.tokens(self_ty);
    r.text("::");
    r.text(method.ident.as_str());
    r.text("(");
    r.append(&lock_arg);
    r.append_separated(&arg_exprs, ", ");
    r.text("); let rc = jsg::Rc::new(resource); rc.attach_to_this(&mut args); }); } ");
    r.text(callback_name.as_str());
    r.text(" }, }");
    r
}

/// The constructors among `items`, in order.
fn get_constructors(items: &Vec<ImplItem>) -> (r: Vec<&ImplItemFn>)
    ensures
        r@.len() == constructors(items@).len(),
        forall|i: int| 0 <= i < r@.len() ==> *(#[trigger] r@[i]) == constructors(items@)[i],
{
    let ghost f = constructor_of();
    let mut r: Vec<&ImplItemFn> = Vec::new();
    let mut i: usize = 0;
    while i < items.len()
        invariant
            i <= items@.len(),
            f == constructor_of(),
            r@.len() == items@.take(i as int).filter_map(f).len(),
            forall|j: int|
                0 <= j < r@.len() ==> *(#[trigger] r@[j]) == items@.take(i as int).filter_map(f)[j],
        decreases items@.len() - i,
    {
        proof {
            items@.lemma_filter_map_take_succ(f, i as int);
        }
        if let ImplItem::Fn(method) = &items[i] {
            if find_attr(&method.attrs, "jsg_constructor").is_some() {
                r.push(method);
            }
        }
        i += 1;
    }
    assert(items@.take(i as int) =~= items@);
    r
}

/// Scans an impl block for a `#[jsg_constructor]` attribute and generates the
/// constructor callback registration. Returns `None` if no constructor is
/// defined, and a `compile_error!` if a constructor has the wrong shape or
/// there is more than one.
pub fn generate_constructor_registration(impl_block: &ItemImpl, self_ty: &SourceType) -> (r: Option<
    Code,
>)
    requires
        constructor_nameable(impl_block.items@),
    ensures
        view_option(r) == constructor_registration(impl_block.items@, self_ty.tokens),
{
    let found = get_constructors(&impl_block.items);
    if found.len() > 1 {
        return Some(
            Code::from_text(
                "compile_error!(\"only one #[jsg_constructor] is allowed per impl block\");",
            ),
        );
    }
    if found.len() == 0 {
        return None;
    }
    let method = found[0];
    if let Some(error) = validate_constructor(method) {
        return Some(error);
    }
    Some(generate_constructor_callback(method, self_ty.tokens))
}

// ---------------------------------------------------------------------------
// Impl blocks
// ---------------------------------------------------------------------------

/// The JavaScript name of an item: the explicit one, else `default`.
pub open spec fn js_name(explicit: Option<Seq<char>>, default: Seq<char>) -> Seq<char> {
    match explicit {
        Some(name) => name,
        None => default,
    }
}

/// The registration of the method `method`: an instance method where it takes
/// `self`, else a static one. Its JavaScript name is the explicit one, else its
/// Rust name in camel case.
pub open spec fn method_member(method: ImplItemFn, explicit: Option<Seq<char>>) -> Seq<Sym> {
    (if has_receiver(method.inputs@) {
        code("jsg::Member::Method { name: "@)
    } else {
        code("jsg::Member::StaticMethod { name: "@)
    }) + literal(js_name(explicit, camel(method.ident@))) + code(".to_owned(), callback: Self::"@)
        + code(method.ident@ + "_callback"@) + code(", }"@)
}

/// The registration of the constant `constant`. Its JavaScript name is the
/// explicit one, else its Rust name as it is.
pub open spec fn constant_member(constant: ImplItemConst, explicit: Option<Seq<char>>) -> Seq<Sym> {
    code("jsg::Member::StaticConstant { name: "@) + literal(js_name(explicit, constant.ident@))
        + code(".to_owned(), value: jsg::ConstantValue::from(Self::"@) + code(constant.ident@)
        + code("), }"@)
}

/// The attribute that has `item` registered: `#[jsg_method]` on a function,
/// `#[jsg_static_constant]` on a constant.
pub open spec fn registering_attr(item: ImplItem) -> Option<Attribute> {
    match item {
        ImplItem::Fn(method) => first_attr(method.attrs@, "jsg_method"@),
        ImplItem::Const(constant) => first_attr(constant.attrs@, "jsg_static_constant"@),
        ImplItem::Other => None,
    }
}

/// Whether `name` may be the explicit JavaScript name of `item`, from
/// `name = "..."` in the attribute that has it registered, as that is read.
pub open spec fn may_be_item_name(item: ImplItem, name: Option<Seq<char>>) -> bool {
    match registering_attr(item) {
        Some(attr) => may_be_explicit_name(attr, name),
        None => name is None,
    }
}

/// Whether `names` may be the explicit JavaScript names of `items`, in order.
pub open spec fn may_be_item_names(items: Seq<ImplItem>, names: Seq<Option<Seq<char>>>) -> bool {
    &&& names.len() == items.len()
    &&& forall|i: int| 0 <= i < items.len() ==> may_be_item_name(items[i], #[trigger] names[i])
}

/// Whether `name` is the explicit JavaScript name of `item` as it is written in
/// the attribute that has it registered.
pub open spec fn is_written_item_name(item: ImplItem, name: Option<Seq<char>>) -> bool {
    match registering_attr(item) {
        Some(attr) => is_written_name(attr, name),
        None => name is None,
    }
}

/// Whether `names` are the explicit JavaScript names of `items` as they are
/// written, in order.
pub open spec fn are_written_item_names(
    items: Seq<ImplItem>,
    names: Seq<Option<Seq<char>>>,
) -> bool {
    &&& names.len() == items.len()
    &&& forall|i: int| 0 <= i < items.len() ==> is_written_item_name(items[i], #[trigger] names[i])
}

/// The explicit names of items are read as they are written.
pub proof fn lemma_item_names_are_read(
    items: Seq<ImplItem>,
    written: Seq<Option<Seq<char>>>,
    names: Seq<Option<Seq<char>>>,
)
    requires
        are_written_item_names(items, written),
        may_be_item_names(items, names),
    ensures
        names == written,
{
    assert forall|i: int| 0 <= i < items.len() implies names[i] == written[i] by {
        assert(is_written_item_name(items[i], written[i]));
        assert(may_be_item_name(items[i], names[i]));
        if let Some(attr) = registering_attr(items[i]) {
            lemma_explicit_name_is_read(attr, written[i], names[i]);
        }
    }
    assert(names =~= written);
}

/// The contents of strings that may be absent.
pub open spec fn view_names(names: Seq<Option<String>>) -> Seq<Option<Seq<char>>> {
    names.map_values(|name: Option<String>| view_string(name))
}

/// The registration of an item with its explicit name, where the item is a
/// method to be registered.
pub open spec fn member_of_method() -> spec_fn((ImplItem, Option<Seq<char>>)) -> Option<Seq<Sym>> {
    |item: (ImplItem, Option<Seq<char>>)|
        match (item.0, registering_attr(item.0)) {
            (ImplItem::Fn(method), Some(_)) => Some(method_member(method, item.1)),
            _ => None,
        }
}

/// The registration of an item with its explicit name, where the item is a
/// constant to be registered.
pub open spec fn member_of_constant() -> spec_fn((ImplItem, Option<Seq<char>>)) -> Option<
    Seq<Sym>,
> {
    |item: (ImplItem, Option<Seq<char>>)|
        match (item.0, registering_attr(item.0)) {
            (ImplItem::Const(constant), Some(_)) => Some(constant_member(constant, item.1)),
            _ => None,
        }
}

/// Each of `items` with its explicit name.
pub open spec fn named_items(items: Seq<ImplItem>, names: Seq<Option<Seq<char>>>) -> Seq<
    (ImplItem, Option<Seq<char>>),
> {
    Seq::new(items.len(), |i: int| (items[i], names[i]))
}

/// The registrations of the methods among `items`, in order.
pub open spec fn method_members(items: Seq<ImplItem>, names: Seq<Option<Seq<char>>>) -> Seq<
    Seq<Sym>,
> {
    named_items(items, names).filter_map(member_of_method())
}

/// The registrations of the constants among `items`, in order.
pub open spec fn constant_members(items: Seq<ImplItem>, names: Seq<Option<Seq<char>>>) -> Seq<
    Seq<Sym>,
> {
    named_items(items, names).filter_map(member_of_constant())
}

/// The registrations of an impl block: the constructor, then the methods, then
/// the constants.
pub open spec fn members(impl_block: ItemImpl, names: Seq<Option<Seq<char>>>) -> Seq<Seq<Sym>> {
    let items = impl_block.items@;
    let constructor = match constructor_registration(items, impl_block.self_ty.tokens) {
        Some(registration) => seq![registration],
        None => Seq::empty(),
    };
    constructor + method_members(items, names) + constant_members(items, names)
}

/// What is emitted for an impl block: the block itself and the implementation
/// of `jsg::Resource` for its type.
pub open spec fn resource_impl(impl_block: ItemImpl, names: Seq<Option<Seq<char>>>) -> Seq<Sym> {
    annotated_item() + code(" #[automatically_derived] impl jsg::Resource for "@)
        + source_tokens(impl_block.self_ty.tokens) + code(" { fn members() -> Vec<jsg::Member> where Self: Sized, { vec!["@) + terminated(
        members(impl_block, names),
        code(", "@),
    ) + code("] } }"@)
}

/// The expansion `r` of `#[jsg_resource]` on an impl block whose items have the
/// explicit names `names`. Only impl blocks of a path type are accepted.
pub open spec fn is_resource_impl(
    impl_block: ItemImpl,
    names: Seq<Option<Seq<char>>>,
    r: Result<Code, CompileError>,
) -> bool {
    match impl_block.self_ty.ty {
        Type::Path(_) => r matches Ok(code) && code@ == resource_impl(impl_block, names),
        _ => r matches Err(error) && error.message@
            == "#[jsg_resource] impl blocks must use a simple path type (e.g., `impl MyResource`)"@,
    }
}

/// Whether the names of the callbacks of the methods among `items` that are
/// registered are identifiers. The name of a callback is the name of the method
/// with a suffix, which a raw identifier does not take.
pub open spec fn methods_nameable(items: Seq<ImplItem>) -> bool {
    forall|i: int|
        0 <= i < items.len() ==> match #[trigger] items[i] {
            ImplItem::Fn(method) => registering_attr(items[i]) is Some ==> !is_raw(method.ident@),
            _ => true,
        }
}

/// Whether the callbacks of all that `impl_block` registers have names that are
/// identifiers, unless the block is refused in any case.
pub open spec fn callbacks_nameable(impl_block: ItemImpl) -> bool {
    impl_block.self_ty.ty is Path ==> {
        &&& constructor_nameable(impl_block.items@)
        &&& methods_nameable(impl_block.items@)
    }
}

/// Whether the callbacks of all that `impl_block` registers have names that are
/// identifiers.
pub fn has_nameable_callbacks(impl_block: &ItemImpl) -> (r: bool)
    ensures
        r == callbacks_nameable(*impl_block),
{
    match &impl_block.self_ty.ty {
        Type::Path(_) => {},
        _ => {
            return true;
        },
    }
    let items = &impl_block.items;
    let found = get_constructors(items);
    if found.len() == 1 && validate_constructor(found[0]).is_none() && is_raw_ident(
        found[0].ident.as_str(),
    ) {
        return false;
    }
    let mut i: usize = 0;
    while i < items.len()
        invariant
            i <= items@.len(),
            impl_block.self_ty.ty is Path,
            items == impl_block.items,
            constructor_nameable(items@),
            forall|j: int|
                0 <= j < i ==> match #[trigger] items@[j] {
                    ImplItem::Fn(method) => registering_attr(items@[j]) is Some ==> !is_raw(
                        method.ident@,
                    ),
                    _ => true,
                },
        decreases items@.len() - i,
    {
        if let ImplItem::Fn(method) = &items[i] {
            if find_registering_attr(&items[i]).is_some() && is_raw_ident(method.ident.as_str()) {
                assert(items@[i as int] == ImplItem::Fn(*method));
                return false;
            }
        }
        i += 1;
    }
    true
}

/// The JavaScript name of an item.
fn get_js_name(explicit: &Option<String>, default: String) -> (r: String)
    ensures
        r@ == js_name(view_string(*explicit), default@),
{
    match explicit {
        Some(name) => name.clone(),
        None => default,
    }
}

/// Generates the registration of the method `method`.
///
/// Methods with a receiver (`&self`, `&mut self`) become instance methods on
/// the prototype, those without become static methods on the constructor.
pub fn generate_method_member(method: &ImplItemFn, explicit: &Option<String>) -> (r: Code)
    requires
        !is_raw(method.ident@),
    ensures
        r@ == method_member(*method, view_string(*explicit)),
{
    let rust_name = method.ident.as_str();
    let js_name = get_js_name(explicit, snake_to_camel(rust_name));
    let mut r = if get_has_receiver(&method.inputs) {
        Code::from_text("jsg::Member::Method { name: ")
    } else {
        Code::from_text("jsg::Member::StaticMethod { name: ")
    };
    r.literal(js_name.as_str());
    r.text(".to_owned(), callback: Self::");
    r.text(suffixed(rust_name, "_callback").as_str());
    r.text(", }");
    r
}

/// Generates the registration of the constant `constant`.
pub fn generate_constant_member(constant: &ImplItemConst, explicit: &Option<String>) -> (r: Code)
    ensures
        r@ == constant_member(*constant, view_string(*explicit)),
{
    let js_name = get_js_name(explicit, constant.ident.clone());
    let mut r = Code::from_text("jsg::Member::StaticConstant { name: ");
    r.literal(js_name.as_str());
    r.text(".to_owned(), value: jsg::ConstantValue::from(Self::");
    r.text(constant.ident.as_str());
    r.text("), }");
    r
}

/// The attribute that has `item` registered.
fn find_registering_attr(item: &ImplItem) -> (r: Option<&Attribute>)
    ensures
        match r {
            Some(attr) => registering_attr(*item) == Some(*attr),
            None => registering_attr(*item) is None,
        },
{
    match item {
        ImplItem::Fn(method) => find_attr(&method.attrs, "jsg_method"),
        ImplItem::Const(constant) => find_attr(&constant.attrs, "jsg_static_constant"),
        ImplItem::Other => None,
    }
}

/// The explicit JavaScript names of `items`, in order.
pub fn get_explicit_item_names(items: &Vec<ImplItem>) -> (r: Vec<Option<String>>)
    ensures
        may_be_item_names(items@, view_names(r@)),
        forall|written: Seq<Option<Seq<char>>>| #[trigger]
            are_written_item_names(items@, written) ==> view_names(r@) == written,
{
    let mut r: Vec<Option<String>> = Vec::new();
    let mut i: usize = 0;
    while i < items.len()
        invariant
            i <= items@.len(),
            r@.len() == i,
            forall|j: int|
                0 <= j < i ==> may_be_item_name(items@[j], view_string(#[trigger] r@[j])),
        decreases items@.len() - i,
    {
        let name = match find_registering_attr(&items[i]) {
            Some(attr) => get_explicit_name(attr),
            None => None,
        };
        r.push(name);
        i += 1;
    }
    proof {
        let names = view_names(r@);
        assert forall|j: int| 0 <= j < items@.len() implies may_be_item_name(
            items@[j],
            #[trigger] names[j],
        ) by {
            assert(names[j] == view_string(r@[j]));
        }
        assert forall|written: Seq<Option<Seq<char>>>| #[trigger]
            are_written_item_names(items@, written) implies names == written by {
            lemma_item_names_are_read(items@, written, names);
        }
    }
    r
}

/// Generates the registrations of the methods and of the constants among
/// `items`, whose explicit names are `names`.
pub fn generate_members(items: &Vec<ImplItem>, names: &Vec<Option<String>>) -> (r: (
    Vec<Code>,
    Vec<Code>,
))
    requires
        names@.len() == items@.len(),
        methods_nameable(items@),
    ensures
        views(r.0@) == method_members(items@, view_names(names@)),
        views(r.1@) == constant_members(items@, view_names(names@)),
{
    let ghost pairs = named_items(items@, view_names(names@));
    let ghost m = member_of_method();
    let ghost c = member_of_constant();
    let mut methods: Vec<Code> = Vec::new();
    let mut constants: Vec<Code> = Vec::new();
    let mut i: usize = 0;
    assert(views(methods@) =~= pairs.take(0).filter_map(m));
    assert(views(constants@) =~= pairs.take(0).filter_map(c));
    while i < items.len()
        invariant
            i <= items@.len(),
            names@.len() == items@.len(),
            methods_nameable(items@),
            pairs == named_items(items@, view_names(names@)),
            m == member_of_method(),
            c == member_of_constant(),
            views(methods@) == pairs.take(i as int).filter_map(m),
            views(constants@) == pairs.take(i as int).filter_map(c),
        decreases items@.len() - i,
    {
        proof {
            pairs.lemma_filter_map_take_succ(m, i as int);
            pairs.lemma_filter_map_take_succ(c, i as int);
            assert(pairs[i as int] == (items@[i as int], view_string(names@[i as int])));
        }
        let ghost old_methods = methods@;
        let ghost old_constants = constants@;
        if find_registering_attr(&items[i]).is_some() {
            match &items[i] {
                ImplItem::Fn(method) => {
                    methods.push(generate_method_member(method, &names[i]));
                    assert(views(methods@) =~= views(old_methods).push(methods@.last()@));
                },
                ImplItem::Const(constant) => {
                    constants.push(generate_constant_member(constant, &names[i]));
                    assert(views(constants@) =~= views(old_constants).push(constants@.last()@));
                },
                ImplItem::Other => {},
            }
        }
        i += 1;
    }
    assert(pairs.take(i as int) =~= pairs);
    (methods, constants)
}

/// Expands `#[jsg_resource]` on an impl block whose items have the explicit
/// names `names`.
pub fn expand_resource_impl(impl_block: &ItemImpl, names: &Vec<Option<String>>) -> (r: Result<
    Code,
    CompileError,
>)
    requires
        names@.len() == impl_block.items@.len(),
        callbacks_nameable(*impl_block),
    ensures
        is_resource_impl(*impl_block, view_names(names@), r),
{
    let self_ty = &impl_block.self_ty;
    match &self_ty.ty {
        Type::Path(_) => {},
        _ => {
            return Err(
                CompileError::new(
                    "#[jsg_resource] impl blocks must use a simple path type (e.g., `impl MyResource`)",
                ),
            );
        },
    }
    let (mut methods, mut constants) = generate_members(&impl_block.items, names);
    let ghost method_views = views(methods@);
    let ghost constant_views = views(constants@);
    let mut all: Vec<Code> = Vec::new();
    if let Some(registration) = generate_constructor_registration(impl_block, self_ty) {
        all.push(registration);
    }
    let ghost constructor_views = views(all@);
    all.append(&mut methods);
    all.append(&mut constants);
    assert(views(all@) =~= constructor_views + method_views + constant_views);
    assert(views(all@) =~= members(*impl_block, view_names(names@)));
    let mut r = Code::new();
    r.item();
    assert(r@ =~= annotated_item());
    r.text(" #[automatically_derived] impl jsg::Resource for ");
    r.tokens(self_ty.tokens);
    r.text(" { fn members() -> Vec<jsg::Member> where Self: Sized, { vec![");
    r.append_terminated(&all, ", ");
    r.text("] } }");
    Ok(r)
}

/// Entry point for `#[jsg_resource]` on an impl block. Items are registered
/// under the explicit names that are read from their attributes; a text that
/// spells a list of arguments is read as that list.
pub fn generate_resource_impl(impl_block: &ItemImpl) -> (r: Result<Code, CompileError>)
    requires
        callbacks_nameable(*impl_block),
    ensures
        exists|names: Seq<Option<Seq<char>>>| #[trigger]
            may_be_item_names(impl_block.items@, names) && is_resource_impl(*impl_block, names, r),
        forall|names: Seq<Option<Seq<char>>>| #[trigger]
            are_written_item_names(impl_block.items@, names) ==> is_resource_impl(
                *impl_block,
                names,
                r,
            ),
{
    let names = get_explicit_item_names(&impl_block.items);
    assert(view_names(names@).len() == names@.len());
    expand_resource_impl(impl_block, &names)
}

// ---------------------------------------------------------------------------
// Structs
// ---------------------------------------------------------------------------

/// The implementation of `jsg::Type` for the type `name`.
pub open spec fn type_impl(name: Seq<char>, class_name: Seq<char>) -> Seq<Sym> {
    code("#[automatically_derived] impl jsg::Type for "@) + code(name) + code(
        " { fn class_name() -> &'static str { "@,
    ) + literal(class_name) + code(
        " } fn is_exact(value: &jsg::v8::Local<jsg::v8::Value>) -> bool { value.is_object() } } "@,
    )
}

/// The implementation of `jsg::ToJS` for the type `name`.
pub open spec fn to_js_impl(name: Seq<char>) -> Seq<Sym> {
    code("#[automatically_derived] impl jsg::ToJS for "@) + code(name) + code(
        " { fn to_js<'a, 'b>(self, lock: &'a mut jsg::Lock) -> jsg::v8::Local<'b, jsg::v8::Value> where 'b: 'a, { let r = jsg::Rc::new(self); r.to_js(lock) } } "@,
    )
}

/// The implementation of `jsg::FromJS` for the type `name`.
pub open spec fn from_js_impl(name: Seq<char>) -> Seq<Sym> {
    code("#[automatically_derived] impl jsg::FromJS for "@) + code(name) + code(
        " { type ResultType = jsg::Rc<Self>; fn from_js(lock: &mut jsg::Lock, value: jsg::v8::Local<jsg::v8::Value>,) -> Result<Self::ResultType, jsg::Error> { <jsg::Rc<Self> as jsg::FromJS>::from_js(lock, value) } } "@,
    )
}

/// What is emitted for the struct `name` with the fields `fields`, under the
/// JavaScript class name `class_name`.
pub open spec fn resource_struct(
    name: Seq<char>,
    fields: Seq<Field>,
    class_name: Seq<char>,
    custom_trace: bool,
) -> Seq<Sym> {
    annotated_item() + type_impl(name, class_name) + to_js_impl(name) + from_js_impl(name) + (
    if custom_trace {
        Seq::empty()
    } else {
        gc_impl(name, trace_body(trace_statements(fields)), name)
    })
}

/// The expansion `r` of `#[jsg_resource]` on `input`, under the JavaScript
/// class name `class_name`: a struct with named fields, emitted again without
/// the markers; an error for all other definitions.
pub open spec fn is_resource_struct(
    input: DeriveInput,
    class_name: Seq<char>,
    custom_trace: bool,
    r: Result<Expansion, CompileError>,
) -> bool {
    match input.data {
        Data::Struct(Fields::Named(named)) => r matches Ok(expansion) && {
            &&& input_stripped(input, expansion.item)
            &&& expansion.code@ == resource_struct(
                input.ident@,
                named@,
                class_name,
                custom_trace,
            )
        },
        _ => r matches Err(error) && error.message@
            == "#["@ + "jsg_resource"@ + "] only supports structs with named fields"@,
    }
}

/// Expands `#[jsg_resource]` on the struct `input` under the JavaScript class
/// name `class_name`. With `custom_trace` the implementation of
/// `jsg::GarbageCollected` is left to the user.
pub fn expand_resource_struct(class_name: &str, custom_trace: bool, input: DeriveInput) -> (r:
    Result<Expansion, CompileError>)
    ensures
        is_resource_struct(input, class_name@, custom_trace, r),
{
    let name = input.ident.as_str();
    let fields = match extract_named_fields(&input, "jsg_resource") {
        Ok(fields) => fields,
        Err(error) => {
            return Err(error);
        },
    };
    let mut code = Code::new();
    code.item();
    assert(code@ =~= annotated_item());
    let mut type_impl = Code::from_text("#[automatically_derived] impl jsg::Type for ");
    type_impl.text(name);
    type_impl.text(" { fn class_name() -> &'static str { ");
    type_impl.literal(class_name);
    type_impl.text(
        " } fn is_exact(value: &jsg::v8::Local<jsg::v8::Value>) -> bool { value.is_object() } } ",
    );
    code.append(&type_impl);
    let mut to_js_impl = Code::from_text("#[automatically_derived] impl jsg::ToJS for ");
    to_js_impl.text(name);
    to_js_impl.text(
        " { fn to_js<'a, 'b>(self, lock: &'a mut jsg::Lock) -> jsg::v8::Local<'b, jsg::v8::Value> where 'b: 'a, { let r = jsg::Rc::new(self); r.to_js(lock) } } ",
    );
    code.append(&to_js_impl);
    let mut from_js_impl = Code::from_text("#[automatically_derived] impl jsg::FromJS for ");
    from_js_impl.text(name);
    from_js_impl.text(
        " { type ResultType = jsg::Rc<Self>; fn from_js(lock: &mut jsg::Lock, value: jsg::v8::Local<jsg::v8::Value>,) -> Result<Self::ResultType, jsg::Error> { <jsg::Rc<Self> as jsg::FromJS>::from_js(lock, value) } } ",
    );
    code.append(&from_js_impl);
    let gc_impl = if custom_trace {
        Code::new()
    } else {
        let body = generate_trace_body(&generate_trace_statements(fields));
        generate_gc_impl(name, &body, name)
    };
    code.append(&gc_impl);
    let mut item = input;
    // The marker must not reach the compiler, which would not know it.
    strip_jsg_trace_attrs(&mut item);
    Ok(Expansion { item, code })
}

/// Expands `#[jsg_resource(args)]` on the struct `input`, where `args` are the
/// arguments of the attribute, absent where they could not be read.
pub fn expand_resource_struct_with_args(args: &Option<Vec<AttrArg>>, input: DeriveInput) -> (r:
    Result<Expansion, CompileError>)
    ensures
        is_resource_struct(
            input,
            name_or(view_args(*args), input.ident@),
            has_custom_trace(view_args(*args)),
            r,
        ),
{
    let class_name = get_name_or(args, input.ident.as_str());
    let custom_trace = match args {
        Some(args) => get_flag(args, "custom_trace"),
        None => false,
    };
    expand_resource_struct(class_name.as_str(), custom_trace, input)
}

/// Entry point for `#[jsg_resource]` on a struct: expands it on `input`, where
/// `attr` is the source text of the arguments of the attribute. The class name
/// and `custom_trace` are what is read from it; a text that spells a list of
/// arguments is read as that list.
pub fn generate_resource_struct(attr: &str, input: DeriveInput) -> (r: Result<
    Expansion,
    CompileError,
>)
    ensures
        exists|args: Option<Seq<Arg>>| #[trigger]
            may_be_read(attr@, args) && is_resource_struct(
                input,
                name_or(args, input.ident@),
                has_custom_trace(args),
                r,
            ),
        forall|list: ListSpelling|
            list.is_valid() && attr@ == #[trigger] list.text() ==> is_resource_struct(
                input,
                name_or(Some(list.arg_list()), input.ident@),
                has_custom_trace(Some(list.arg_list())),
                r,
            ),
        attr@.len() == 0 ==> is_resource_struct(input, input.ident@, false, r),
        attr@ == "custom_trace"@ ==> is_resource_struct(input, input.ident@, true, r),
        forall|name: Seq<char>|
            is_plain(name) && attr@ == #[trigger] name_text(name) ==> is_resource_struct(
                input,
                name,
                false,
                r,
            ),
        forall|name: Seq<char>|
            is_plain(name) && attr@ == #[trigger] name_text(name) + ", custom_trace"@
                ==> is_resource_struct(input, name, true, r),
{
    let args = parse_attr_args(attr);
    let ghost read = view_args(args);
    proof {
        if attr@.len() == 0 {
            assert(attr@ =~= Seq::empty());
            lemma_empty_is_read(read);
        }
        if attr@ == "custom_trace"@ {
            lemma_custom_trace_is_read(read);
        }
        assert forall|name: Seq<char>|
            is_plain(name) && attr@ == #[trigger] name_text(name) implies name_or(
            read,
            input.ident@,
        ) == name && !has_custom_trace(read) by {
            lemma_name_is_read(name, read);
        }
        assert forall|name: Seq<char>|
            is_plain(name) && attr@ == #[trigger] name_text(name)
                + ", custom_trace"@ implies name_or(read, input.ident@) == name && has_custom_trace(
            read,
        ) by {
            lemma_name_and_custom_trace_are_read(name, read);
        }
    }
    expand_resource_struct_with_args(&args, input)
}

} // verus!

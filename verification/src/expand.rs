//! What an expansion yields, and the parts that several expansions share.

use vstd::prelude::*;

use crate::attrs::{get_name_value, read_name, view_args, AttrArg};
use crate::code::{code, literal, terminated, views, Code, Sym};
use crate::names::suffixed;
use crate::spelling::Arg;
use crate::syntax::{Data, DeriveInput, Field, Fields};

verus! {

/// A refused use of a macro, reported to the user with `message`.
#[derive(Debug)]
pub struct CompileError {
    pub message: String,
}

/// The expansion of an attribute on a type definition: the definition as it is
/// emitted again, and the code in which it stands.
#[derive(Debug)]
pub struct Expansion {
    pub item: DeriveInput,
    pub code: Code,
}

impl CompileError {
    /// The error with the message `message`.
    pub fn new(message: &str) -> (r: CompileError)
        ensures
            r.message@ == message@,
    {
        CompileError { message: message.to_owned() }
    }
}

/// The name that `args` give, and `default` where they give none.
pub open spec fn name_or(args: Option<Seq<Arg>>, default: Seq<char>) -> Seq<char> {
    match read_name(args) {
        Some(name) => name,
        None => default,
    }
}

/// The name that `args` give, and `default` where they give none.
pub fn get_name_or(args: &Option<Vec<AttrArg>>, default: &str) -> (r: String)
    ensures
        r@ == name_or(view_args(*args), default@),
{
    if let Some(args) = args {
        if let Some(name) = get_name_value(args) {
            return name;
        }
    }
    default.to_owned()
}

/// The named fields of a struct; an error for every other definition, in the
/// name of the macro `macro_name`.
pub fn extract_named_fields<'a>(input: &'a DeriveInput, macro_name: &str) -> (r: Result<
    &'a Vec<Field>,
    CompileError,
>)
    ensures
        match input.data {
            Data::Struct(Fields::Named(named)) => r matches Ok(fields) && *fields == named,
            _ => r matches Err(error) && error.message@ == "#["@ + macro_name@
                + "] only supports structs with named fields"@,
        },
{
    if let Data::Struct(Fields::Named(named)) = &input.data {
        return Ok(named);
    }
    let opening = suffixed("#[", macro_name);
    Err(
        CompileError {
            message: suffixed(opening.as_str(), "] only supports structs with named fields"),
        },
    )
}

/// The body of `trace` that consists of `statements`.
pub open spec fn trace_body(statements: Seq<Seq<Sym>>) -> Seq<Sym> {
    code("let _ = visitor; "@) + terminated(statements, code(" "@))
}

/// The body of `trace` that consists of `statements`.
pub fn generate_trace_body(statements: &Vec<Code>) -> (r: Code)
    ensures
        r@ == trace_body(views(statements@)),
{
    let mut r = Code::from_text("let _ = visitor; ");
    r.append_terminated(statements, " ");
    r
}

/// The implementation of `jsg::GarbageCollected` for the type `name`, with the
/// body `body` of `trace` and the memory name `memory_name`.
pub open spec fn gc_impl(name: Seq<char>, body: Seq<Sym>, memory_name: Seq<char>) -> Seq<Sym> {
    code("#[automatically_derived] impl jsg::GarbageCollected for "@) + code(name) + code(
        " { fn trace(&self, visitor: &mut jsg::GcVisitor) { "@,
    ) + body + code(
        "} fn memory_name(&self) -> &'static ::std::ffi::CStr { ::std::ffi::CStr::from_bytes_with_nul(concat!("@,
    ) + literal(memory_name) + code(", \"\\0\").as_bytes()).unwrap() } } "@)
}

/// Generates the implementation of `jsg::GarbageCollected` for the type `name`.
///
/// The emitted `memory_name` makes a C string out of a constant, which the
/// compiler folds into a pointer to read-only data.
pub fn generate_gc_impl(name: &str, body: &Code, memory_name: &str) -> (r: Code)
    ensures
        r@ == gc_impl(name@, body@, memory_name@),
{
    let mut r = Code::from_text("#[automatically_derived] impl jsg::GarbageCollected for ");
    r.text(name);
    r.text(" { fn trace(&self, visitor: &mut jsg::GcVisitor) { ");
    r.append(body);
    r.text(
        "} fn memory_name(&self) -> &'static ::std::ffi::CStr { ::std::ffi::CStr::from_bytes_with_nul(concat!(",
    );
    r.literal(memory_name);
    r.text(", \"\\0\").as_bytes()).unwrap() } } ");
    r
}

} // verus!

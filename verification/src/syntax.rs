//! The syntax the macros look at: types, fields, attributes and items.
//!
//! A value of these types holds of a piece of Rust source what code generation
//! depends on. Identifiers are held by their text, a raw identifier with its
//! `r#` in front.

use vstd::prelude::*;

verus! {

/// A path, such as `jsg::v8::Global<T>`.
#[derive(Debug)]
pub struct Path {
    /// Whether the path starts with `::`.
    pub leading_colon: bool,
    pub segments: Vec<PathSegment>,
}

/// One segment of a path, with the arguments that follow it.
#[derive(Debug)]
pub struct PathSegment {
    pub ident: String,
    pub arguments: PathArguments,
}

/// What follows the identifier of a path segment.
#[derive(Debug)]
pub enum PathArguments {
    /// Nothing.
    Absent,
    /// `<K, V>`
    AngleBracketed(Vec<GenericArgument>),
    /// `(A, B) -> C`
    Parenthesized,
}

/// One of the arguments between angle brackets.
#[derive(Debug)]
pub enum GenericArgument {
    Type(Type),
    /// A lifetime, a constant, a binding or a constraint.
    Other,
}

/// A type.
#[derive(Debug)]
pub enum Type {
    Path(Path),
    Reference {
        mutable: bool,
        elem: Box<Type>,
    },
    /// A tuple, a slice, a function pointer or any other form.
    Other,
}

/// A type that is emitted again, together with the number of its tokens among
/// the token sequences that the caller keeps.
#[derive(Debug)]
pub struct SourceType {
    pub ty: Type,
    pub tokens: usize,
}

/// An attribute, such as `#[jsg_method(name = "toString")]`.
#[derive(Debug)]
pub struct Attribute {
    pub path: Path,
    pub meta: Meta,
    /// The place of the attribute among the attributes written on its item.
    pub position: usize,
}

/// What follows the path of an attribute.
#[derive(Debug)]
pub enum Meta {
    /// Nothing, as in `#[jsg_method]`.
    Path,
    /// The source text between the delimiters.
    List(String),
    /// `= value`
    NameValue,
}

/// A field of a struct or of a variant. Fields of tuples have no `ident`.
#[derive(Debug)]
pub struct Field {
    pub attrs: Vec<Attribute>,
    pub ident: Option<String>,
    pub ty: Type,
}

/// The fields of a struct or of a variant.
#[derive(Debug)]
pub enum Fields {
    Named(Vec<Field>),
    Unnamed(Vec<Field>),
    Unit,
}

/// A variant of an enum.
#[derive(Debug)]
pub struct Variant {
    pub ident: String,
    pub fields: Fields,
}

/// What kind of type an item defines.
#[derive(Debug)]
pub enum Data {
    Struct(Fields),
    Enum(Vec<Variant>),
    Union,
}

/// The definition of a struct, an enum or a union.
#[derive(Debug)]
pub struct DeriveInput {
    pub ident: String,
    pub data: Data,
}

/// A parameter of a function.
#[derive(Debug)]
pub enum FnArg {
    /// `self` in any form.
    Receiver,
    Typed(SourceType),
}

/// The return type of a function.
#[derive(Debug)]
pub enum ReturnType {
    Default,
    Type(Type),
}

/// A function in an impl block.
#[derive(Debug)]
pub struct ImplItemFn {
    pub attrs: Vec<Attribute>,
    pub ident: String,
    pub inputs: Vec<FnArg>,
    pub output: ReturnType,
}

/// A constant in an impl block.
#[derive(Debug)]
pub struct ImplItemConst {
    pub attrs: Vec<Attribute>,
    pub ident: String,
}

/// An item of an impl block.
#[derive(Debug)]
pub enum ImplItem {
    Const(ImplItemConst),
    Fn(ImplItemFn),
    /// A type alias, a macro invocation or any other item.
    Other,
}

/// An impl block.
#[derive(Debug)]
pub struct ItemImpl {
    pub self_ty: SourceType,
    pub items: Vec<ImplItem>,
}

/// The identifiers of the segments of `path`, in order.
pub open spec fn path_idents(path: Path) -> Seq<Seq<char>> {
    path.segments@.map_values(|segment: PathSegment| segment.ident@)
}

/// Whether `path` is the plain identifier `name`: one segment, nothing before
/// it and no arguments behind it.
pub open spec fn path_is_ident(path: Path, name: Seq<char>) -> bool {
    &&& !path.leading_colon
    &&& path.segments@.len() == 1
    &&& path.segments@[0].arguments is Absent
    &&& path.segments@[0].ident@ == name
}

/// Whether the last segment of `path` is `name`.
pub open spec fn path_ends_in(path: Path, name: Seq<char>) -> bool {
    path.segments@.len() > 0 && path.segments@.last().ident@ == name
}

/// Whether `ident` is spelt `name`.
pub fn ident_is(ident: &String, name: &str) -> (r: bool)
    ensures
        r == (ident@ == name@),
{
    *ident == name.to_owned()
}

impl Path {
    /// Whether the path is the plain identifier `name`.
    pub fn is_ident(&self, name: &str) -> (r: bool)
        ensures
            r == path_is_ident(*self, name@),
    {
        if self.leading_colon || self.segments.len() != 1 {
            return false;
        }
        match self.segments[0].arguments {
            PathArguments::Absent => ident_is(&self.segments[0].ident, name),
            _ => false,
        }
    }

    /// Whether the last segment of the path is `name`.
    pub fn ends_in(&self, name: &str) -> (r: bool)
        ensures
            r == path_ends_in(*self, name@),
    {
        if self.segments.len() == 0 {
            return false;
        }
        ident_is(&self.segments[self.segments.len() - 1].ident, name)
    }

    /// Whether the path consists of exactly the segments named in `names`,
    /// whatever their arguments.
    pub fn spells(&self, names: &[&str]) -> (r: bool)
        ensures
            r == (path_idents(*self) == names@.map_values(|name: &str| name@)),
    {
        let ghost wanted = names@.map_values(|name: &str| name@);
        if self.segments.len() != names.len() {
            assert(path_idents(*self).len() != wanted.len());
            return false;
        }
        let mut i: usize = 0;
        while i < names.len()
            invariant
                i <= names@.len(),
                self.segments@.len() == names@.len(),
                wanted == names@.map_values(|name: &str| name@),
                forall|j: int| 0 <= j < i ==> path_idents(*self)[j] == #[trigger] wanted[j],
            decreases names@.len() - i,
        {
            if !ident_is(&self.segments[i].ident, names[i]) {
                assert(path_idents(*self)[i as int] != wanted[i as int]);
                return false;
            }
            i += 1;
        }
        assert(path_idents(*self) =~= wanted);
        true
    }
}

} // verus!

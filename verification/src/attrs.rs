//! Attributes and their arguments.

use vstd::prelude::*;

use crate::spelling::{
    custom_trace_spelling, is_plain, lemma_custom_trace_list, lemma_empty_spelling,
    lemma_name_and_custom_trace_list, lemma_name_list, list_spelling, name_spelling, name_text, Arg,
    ArgValue, ListSpelling,
};
use crate::syntax::{ident_is, path_ends_in, Attribute, Meta};

verus! {

/// The value of an attribute argument.
#[derive(Debug)]
pub enum AttrValue {
    /// None, as in `custom_trace`.
    Flag,
    /// A string literal with this value, as in `name = "Socket"`.
    Str(String),
    /// Anything else.
    Other,
}

/// An argument of an attribute. The key is absent where it is not a plain
/// identifier.
#[derive(Debug)]
pub struct AttrArg {
    pub key: Option<String>,
    pub value: AttrValue,
}

impl View for AttrArg {
    type V = Arg;

    open spec fn view(&self) -> Arg {
        Arg {
            key: match self.key {
                Some(key) => Some(key@),
                None => None,
            },
            value: match self.value {
                AttrValue::Flag => ArgValue::Flag,
                AttrValue::Str(value) => ArgValue::Str(value@),
                AttrValue::Other => ArgValue::Other,
            },
        }
    }
}

/// What each of `args` holds.
pub open spec fn arg_views(args: Seq<AttrArg>) -> Seq<Arg> {
    args.map_values(|arg: AttrArg| arg@)
}

/// The error of a parser.
#[verifier::external_type_specification]
#[verifier::external_body]
pub struct ExSynError(syn::Error);

/// Whether `args` may be what the argument text `text` is read as, absent where
/// it is read as no list of arguments. A text that spells a list of arguments
/// is read as that list. How any other text is read is left open.
pub open spec fn may_be_read(text: Seq<char>, args: Option<Seq<Arg>>) -> bool {
    forall|list: ListSpelling|
        list.is_valid() && text == #[trigger] list.text() ==> args == Some(list.arg_list())
}

/// `syn::parse::Parser::parse_str` for a comma-separated list of `syn::Meta`,
/// with an optional comma at its end. Of each argument the result holds the
/// identifier that its path is (`Path::get_ident`), if it is one, and whether
/// it has no value, a string literal for its value (then the value of that
/// literal) or anything else.
///
/// Claimed is how the lists of `ListSpelling` are read: arguments `key`,
/// `key = "value"` and `key = 3` with an ASCII key, whatever the blanks. Of other
/// texts nothing is claimed, such as keys that are no plain ASCII identifiers,
/// other literals and expressions, and what is no list of arguments: inside a
/// macro expansion the text is split into tokens by the compiler, elsewhere by
/// `proc_macro2`, and the two do not agree on all texts.
#[verifier::external_body]
fn parse_metas(text: &str) -> (r: Result<Vec<AttrArg>, syn::Error>)
    ensures
        match r {
            Ok(args) => may_be_read(text@, Some(arg_views(args@))),
            Err(_) => may_be_read(text@, None),
        },
{
    let list = syn::punctuated::Punctuated::<syn::Meta, syn::token::Comma>::parse_terminated;
    let metas = syn::parse::Parser::parse_str(list, text)?;
    let convert = |meta: syn::Meta| AttrArg {
        key: meta.path().get_ident().map(|ident| ident.to_string()),
        value: match meta {
            syn::Meta::Path(_) => AttrValue::Flag,
            syn::Meta::NameValue(syn::MetaNameValue {
                value: syn::Expr::Lit(syn::ExprLit { lit: syn::Lit::Str(value), .. }), ..
            }) => AttrValue::Str(value.value()),
            _ => AttrValue::Other,
        },
    };
    Ok(metas.into_iter().map(convert).collect())
}

/// Whether `arg` is `name = "..."`.
pub open spec fn is_name(arg: Arg) -> bool {
    arg.key == Some("name"@) && arg.value is Str
}

/// The value of the first `name = "..."` among `args`.
pub open spec fn name_value(args: Seq<Arg>) -> Option<Seq<char>> {
    let names = args.filter(|arg: Arg| is_name(arg));
    if names.len() > 0 {
        Some(names[0].value->Str_0)
    } else {
        None
    }
}

/// Whether the flag `flag` is among `args`.
pub open spec fn has_flag(args: Seq<Arg>, flag: Seq<char>) -> bool {
    exists|i: int| 0 <= i < args.len() && #[trigger] args[i] == (Arg {
        key: Some(flag),
        value: ArgValue::Flag,
    })
}

/// The value of the first `name = "..."` among arguments that may be absent.
pub open spec fn read_name(args: Option<Seq<Arg>>) -> Option<Seq<char>> {
    match args {
        Some(args) => name_value(args),
        None => None,
    }
}

/// Whether `custom_trace` is among arguments that may be absent.
pub open spec fn has_custom_trace(args: Option<Seq<Arg>>) -> bool {
    match args {
        Some(args) => has_flag(args, "custom_trace"@),
        None => false,
    }
}

/// Whether `name` may be the name that is read from the argument text `text`.
pub open spec fn may_be_named(text: Seq<char>, name: Option<Seq<char>>) -> bool {
    exists|args: Option<Seq<Arg>>| #[trigger] may_be_read(text, args) && name == read_name(args)
}

/// The contents of attribute arguments that may be absent.
pub open spec fn view_args(args: Option<Vec<AttrArg>>) -> Option<Seq<Arg>> {
    match args {
        Some(args) => Some(arg_views(args@)),
        None => None,
    }
}

/// The contents of a string that may be absent.
pub open spec fn view_string(s: Option<String>) -> Option<Seq<char>> {
    match s {
        Some(s) => Some(s@),
        None => None,
    }
}

/// The empty text is read as the empty list.
pub proof fn lemma_empty_is_read(args: Option<Seq<Arg>>)
    requires
        may_be_read(Seq::empty(), args),
    ensures
        args == Some(Seq::<Arg>::empty()),
        read_name(args) is None,
        !has_custom_trace(args),
{
    lemma_empty_spelling();
    assert(list_spelling(Seq::empty()).text() == Seq::<char>::empty());
    assert(name_value(Seq::empty()) is None);
}

/// `name = "value"` is read as that name.
pub proof fn lemma_name_is_read(value: Seq<char>, args: Option<Seq<Arg>>)
    requires
        is_plain(value),
        may_be_read(name_text(value), args),
    ensures
        read_name(args) == Some(value),
        !has_custom_trace(args),
{
    lemma_name_list(value);
    let list = list_spelling(seq![name_spelling(value, Seq::empty())]);
    assert(list.text() == name_text(value));
    lemma_one_name(value, list.arg_list());
}

/// `custom_trace` is read as the flag.
pub proof fn lemma_custom_trace_is_read(args: Option<Seq<Arg>>)
    requires
        may_be_read("custom_trace"@, args),
    ensures
        read_name(args) is None,
        has_custom_trace(args),
{
    lemma_custom_trace_list();
    let list = list_spelling(seq![custom_trace_spelling(Seq::empty())]);
    assert(list.text() == "custom_trace"@);
    let read = list.arg_list();
    reveal(Seq::filter);
    reveal_with_fuel(Seq::filter, 2);
    assert(read.drop_last() =~= Seq::empty());
    assert(read[0] == (Arg { key: Some("custom_trace"@), value: ArgValue::Flag }));
}

/// `name = "value", custom_trace` is read as both.
pub proof fn lemma_name_and_custom_trace_are_read(value: Seq<char>, args: Option<Seq<Arg>>)
    requires
        is_plain(value),
        may_be_read(name_text(value) + ", custom_trace"@, args),
    ensures
        read_name(args) == Some(value),
        has_custom_trace(args),
{
    lemma_name_and_custom_trace_list(value);
    let list = list_spelling(
        seq![name_spelling(value, Seq::empty()), custom_trace_spelling(seq![' '])],
    );
    assert(list.text() == name_text(value) + ", custom_trace"@);
    lemma_one_name(value, list.arg_list());
    assert(list.arg_list()[1] == (Arg { key: Some("custom_trace"@), value: ArgValue::Flag }));
}

/// A list of a name and possibly `custom_trace` behind it gives that name.
proof fn lemma_one_name(value: Seq<char>, args: Seq<Arg>)
    requires
        ({
            let name = Arg { key: Some("name"@), value: ArgValue::Str(value) };
            let flag = Arg { key: Some("custom_trace"@), value: ArgValue::Flag };
            args == seq![name] || args == seq![name, flag]
        }),
    ensures
        name_value(args) == Some(value),
        args.len() == 1 ==> !has_flag(args, "custom_trace"@),
{
    let name = Arg { key: Some("name"@), value: ArgValue::Str(value) };
    reveal(Seq::filter);
    reveal_with_fuel(Seq::filter, 3);
    assert(seq![name].drop_last() =~= Seq::empty());
    if args.len() == 2 {
        assert(args.drop_last() =~= seq![name]);
    }
}

/// Reads `text` as a comma-separated list of attribute arguments.
pub fn parse_attr_args(text: &str) -> (r: Option<Vec<AttrArg>>)
    ensures
        may_be_read(text@, view_args(r)),
        forall|list: ListSpelling|
            list.is_valid() && text@ == #[trigger] list.text() ==> (r matches Some(args)
                && arg_views(args@) == list.arg_list()),
        text@.len() == 0 ==> (r matches Some(args) && args@.len() == 0),
{
    let r = match parse_metas(text) {
        Ok(args) => Some(args),
        Err(_) => None,
    };
    proof {
        if text@.len() == 0 {
            assert(text@ =~= Seq::empty());
            lemma_empty_is_read(view_args(r));
        }
    }
    r
}

/// The value of the first `name = "..."` among `args`.
pub fn get_name_value(args: &Vec<AttrArg>) -> (r: Option<String>)
    ensures
        view_string(r) == name_value(arg_views(args@)),
{
    let ghost all = arg_views(args@);
    let ghost pred = |arg: Arg| is_name(arg);
    let mut i: usize = 0;
    assert(all.take(0).filter(pred) =~= Seq::empty());
    while i < args.len()
        invariant
            i <= args@.len(),
            all == arg_views(args@),
            pred == (|arg: Arg| is_name(arg)),
            all.take(i as int).filter(pred) =~= Seq::empty(),
        decreases args@.len() - i,
    {
        proof {
            assert(all.take(i + 1) =~= all.take(i as int).push(all[i as int]));
            all.take(i as int).lemma_filter_push(all[i as int], pred);
        }
        if let (Some(key), AttrValue::Str(value)) = (&args[i].key, &args[i].value) {
            if ident_is(key, "name") {
                proof {
                    assert(all =~= all.take(i + 1) + all.skip(i + 1));
                    Seq::filter_distributes_over_add(all.take(i + 1), all.skip(i + 1), pred);
                    assert(all.filter(pred)[0] == all[i as int]);
                }
                return Some(value.clone());
            }
        }
        i += 1;
    }
    assert(all.take(i as int) =~= all);
    None
}

/// Whether the flag `flag` is among `args`.
pub fn get_flag(args: &Vec<AttrArg>, flag: &str) -> (r: bool)
    ensures
        r == has_flag(arg_views(args@), flag@),
{
    let ghost all = arg_views(args@);
    let mut i: usize = 0;
    while i < args.len()
        invariant
            i <= args@.len(),
            all == arg_views(args@),
            forall|j: int|
                0 <= j < i ==> #[trigger] all[j] != (Arg { key: Some(flag@), value: ArgValue::Flag }),
        decreases args@.len() - i,
    {
        assert(all[i as int] == args@[i as int]@);
        if let (Some(key), AttrValue::Flag) = (&args[i].key, &args[i].value) {
            if ident_is(key, flag) {
                return true;
            }
        }
        i += 1;
    }
    false
}

/// The value of `name = "..."` in the argument text `text`, if `text` is a
/// list of attribute arguments and one of them is a name.
pub fn extract_name_attribute(text: &str) -> (r: Option<String>)
    ensures
        may_be_named(text@, view_string(r)),
        forall|list: ListSpelling|
            list.is_valid() && text@ == #[trigger] list.text() ==> view_string(r) == name_value(
                list.arg_list(),
            ),
        text@.len() == 0 ==> r is None,
        forall|value: Seq<char>|
            is_plain(value) && text@ == #[trigger] name_text(value) ==> view_string(r) == Some(
                value,
            ),
{
    let args = parse_attr_args(text);
    proof {
        let ghost read = view_args(args);
        assert forall|value: Seq<char>|
            is_plain(value) && text@ == #[trigger] name_text(value) implies read_name(read)
            == Some(value) by {
            lemma_name_is_read(value, read);
        }
        if text@.len() == 0 {
            assert(text@ =~= Seq::empty());
            lemma_empty_is_read(read);
        }
    }
    match args {
        Some(args) => get_name_value(&args),
        None => None,
    }
}

/// Whether `attr` is the attribute `name`, plain or at the end of a path.
pub fn is_attr(attr: &Attribute, name: &str) -> (r: bool)
    ensures
        r == path_ends_in(attr.path, name@),
{
    attr.path.ends_in(name)
}

/// The first of `attrs` that is the attribute `name`, plain or at the end of a
/// path.
pub open spec fn first_attr(attrs: Seq<Attribute>, name: Seq<char>) -> Option<Attribute> {
    let found = attrs.filter(|attr: Attribute| path_ends_in(attr.path, name));
    if found.len() > 0 {
        Some(found[0])
    } else {
        None
    }
}

/// The first of `attrs` that is the attribute `name`.
pub fn find_attr<'a>(attrs: &'a Vec<Attribute>, name: &str) -> (r: Option<&'a Attribute>)
    ensures
        match r {
            Some(attr) => first_attr(attrs@, name@) == Some(*attr),
            None => first_attr(attrs@, name@) is None,
        },
{
    let ghost pred = |attr: Attribute| path_ends_in(attr.path, name@);
    let mut i: usize = 0;
    assert(attrs@.take(0).filter(pred) =~= Seq::empty());
    while i < attrs.len()
        invariant
            i <= attrs@.len(),
            pred == (|attr: Attribute| path_ends_in(attr.path, name@)),
            attrs@.take(i as int).filter(pred) =~= Seq::empty(),
        decreases attrs@.len() - i,
    {
        proof {
            assert(attrs@.take(i + 1) =~= attrs@.take(i as int).push(attrs@[i as int]));
            attrs@.take(i as int).lemma_filter_push(attrs@[i as int], pred);
        }
        if is_attr(&attrs[i], name) {
            proof {
                assert(attrs@ =~= attrs@.take(i + 1) + attrs@.skip(i + 1));
                Seq::filter_distributes_over_add(attrs@.take(i + 1), attrs@.skip(i + 1), pred);
                assert(attrs@.filter(pred)[0] == attrs@[i as int]);
            }
            return Some(&attrs[i]);
        }
        i += 1;
    }
    assert(attrs@.take(i as int) =~= attrs@);
    None
}

/// Whether `name` may be the explicit name that `attr` gives with
/// `name = "..."` between its delimiters, as that is read.
pub open spec fn may_be_explicit_name(attr: Attribute, name: Option<Seq<char>>) -> bool {
    match attr.meta {
        Meta::List(text) => may_be_named(text@, name),
        _ => name is None,
    }
}

/// Whether `name` is the explicit name that `attr` gives as it is written: the
/// name in the list of arguments that is spelled between its delimiters, or
/// none where there are no delimiters.
pub open spec fn is_written_name(attr: Attribute, name: Option<Seq<char>>) -> bool {
    match attr.meta {
        Meta::List(text) => exists|list: ListSpelling|
            list.is_valid() && text@ == #[trigger] list.text() && name == name_value(
                list.arg_list(),
            ),
        _ => name is None,
    }
}

/// An explicit name is read as it is written.
pub proof fn lemma_explicit_name_is_read(
    attr: Attribute,
    written: Option<Seq<char>>,
    name: Option<Seq<char>>,
)
    requires
        is_written_name(attr, written),
        may_be_explicit_name(attr, name),
    ensures
        name == written,
{
    if let Meta::List(text) = attr.meta {
        let args = choose|args: Option<Seq<Arg>>| #[trigger]
            may_be_read(text@, args) && name == read_name(args);
        let list = choose|list: ListSpelling|
            list.is_valid() && text@ == #[trigger] list.text() && written == name_value(
                list.arg_list(),
            );
        assert(args == Some(list.arg_list()));
    }
}

/// The explicit name that `attr` gives with `name = "..."` between its
/// delimiters.
pub fn get_explicit_name(attr: &Attribute) -> (r: Option<String>)
    ensures
        may_be_explicit_name(*attr, view_string(r)),
        forall|written: Option<Seq<char>>| #[trigger]
            is_written_name(*attr, written) ==> view_string(r) == written,
{
    let r = match &attr.meta {
        Meta::List(text) => extract_name_attribute(text.as_str()),
        _ => None,
    };
    proof {
        assert forall|written: Option<Seq<char>>| #[trigger]
            is_written_name(*attr, written) implies view_string(r) == written by {
            lemma_explicit_name_is_read(*attr, written, view_string(r));
        }
    }
    r
}

} // verus!

//! Names that code generation makes up: numbers in identifiers and the
//! JavaScript spelling of Rust names.

use vstd::prelude::*;
use vstd::string::*;

verus! {

/// `String::push`: the string afterwards is the string before with the
/// character at its end.
pub assume_specification[ String::push ](s: &mut String, c: char)
    ensures
        final(s)@ == old(s)@.push(c),
;

/// The decimal digit with the value `d`.
pub open spec fn digit(d: nat) -> char
    recommends
        d < 10,
{
    (48 + d) as char
}

/// `n` in decimal, without leading zeros.
pub open spec fn decimal(n: nat) -> Seq<char>
    decreases n,
{
    if n < 10 {
        seq![digit(n)]
    } else {
        decimal(n / 10).push(digit(n % 10))
    }
}

/// `n` in decimal, without leading zeros.
pub fn decimal_string(n: usize) -> (r: String)
    ensures
        r@ == decimal(n as nat),
    decreases n,
{
    let mut r = if n < 10 {
        String::new()
    } else {
        decimal_string(n / 10)
    };
    let d: u8 = 48 + (n % 10) as u8;
    let ghost before = r@;
    r.push(d as char);
    assert(n < 10 ==> before.push(digit(n as nat)) =~= seq![digit(n as nat)]);
    r
}

/// The identifier made of `prefix` and the number `n`, such as `_f0`.
pub fn numbered(prefix: &str, n: usize) -> (r: String)
    ensures
        r@ == prefix@ + decimal(n as nat),
{
    let mut r = prefix.to_owned();
    r.append(decimal_string(n).as_str());
    r
}

/// The identifier made of `name` and `suffix`, such as `get_name_callback`.
pub fn suffixed(name: &str, suffix: &str) -> (r: String)
    ensures
        r@ == name@ + suffix@,
{
    let mut r = name.to_owned();
    r.append(suffix);
    r
}

/// Whether `ident` is a raw identifier, such as `r#type`.
pub open spec fn is_raw(ident: Seq<char>) -> bool {
    ident.len() >= 2 && ident[0] == 'r' && ident[1] == '#'
}

/// Whether `ident` is a raw identifier.
pub fn is_raw_ident(ident: &str) -> (r: bool)
    ensures
        r == is_raw(ident@),
{
    ident.unicode_len() >= 2 && ident.get_char(0) == 'r' && ident.get_char(1) == '#'
}

/// `c` in upper case where it is a lower-case ASCII letter, else `c`.
pub open spec fn ascii_upper(c: char) -> char {
    if 'a' <= c <= 'z' {
        (c as u32 - 32) as char
    } else {
        c
    }
}

/// `name` in camel case: without its underscores, and with each character
/// that follows an underscore in upper case.
pub open spec fn camel(name: Seq<char>) -> Seq<char>
    decreases name.len(),
{
    if name.len() == 0 {
        Seq::empty()
    } else {
        let rest = camel(name.drop_last());
        if name.last() == '_' {
            rest
        } else if name.len() > 1 && name[name.len() - 2] == '_' {
            rest.push(ascii_upper(name.last()))
        } else {
            rest.push(name.last())
        }
    }
}

fn to_ascii_upper(c: char) -> (r: char)
    ensures
        r == ascii_upper(c),
{
    if 'a' <= c && c <= 'z' {
        (c as u8 - 32) as char
    } else {
        c
    }
}

/// Converts `snake_case` to `camelCase`.
pub fn snake_to_camel(name: &str) -> (r: String)
    ensures
        r@ == camel(name@),
{
    let mut r = String::new();
    let mut after_underscore = false;
    let mut i: usize = 0;
    let len: usize = name.unicode_len();
    while i < len
        invariant
            i <= len,
            len == name@.len(),
            r@ == camel(name@.take(i as int)),
            after_underscore == (i > 0 && name@[i - 1] == '_'),
        decreases len - i,
    {
        let c = name.get_char(i);
        proof {
            assert(name@.take(i + 1).drop_last() =~= name@.take(i as int));
        }
        if c == '_' {
            after_underscore = true;
        } else if after_underscore {
            r.push(to_ascii_upper(c));
            after_underscore = false;
        } else {
            r.push(c);
        }
        i += 1;
    }
    assert(name@.take(i as int) =~= name@);
    r
}

} // verus!

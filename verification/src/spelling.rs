//! How lists of attribute arguments are written.
//!
//! A spelling is a list of arguments together with the choices that its writer
//! has: blanks, escapes in string literals and a comma at the end. Spelled here
//! are the arguments `key`, `key = "value"` and `key = 3`, where the key is a
//! plain ASCII identifier.

use vstd::prelude::*;

verus! {

/// What an attribute argument holds: the key, and the value where it is a
/// string literal; a flag has no value at all.
pub enum ArgValue {
    Flag,
    Str(Seq<char>),
    Other,
}

pub struct Arg {
    pub key: Option<Seq<char>>,
    pub value: ArgValue,
}

/// A literal.
pub enum LiteralSpelling {
    /// A string literal with this value, and of each of its characters whether
    /// it is written with a backslash.
    Str(Seq<char>, Seq<bool>),
    /// An integer literal with these digits.
    Int(Seq<char>),
}

/// The value of an argument, with the blanks on both sides of the `=`.
pub struct ValueSpelling {
    pub before_eq: Seq<char>,
    pub after_eq: Seq<char>,
    pub literal: LiteralSpelling,
}

/// An argument, with the blanks before and behind it.
pub struct ArgSpelling {
    pub before: Seq<char>,
    pub key: Seq<char>,
    pub value: Option<ValueSpelling>,
    pub after: Seq<char>,
}

/// A list of arguments with commas between them, possibly one at the end, and
/// the blanks behind it.
pub struct ListSpelling {
    pub args: Seq<ArgSpelling>,
    pub end_comma: bool,
    pub end: Seq<char>,
}

/// Whether `s` consists of spaces, tabs and line feeds.
pub open spec fn is_blank(s: Seq<char>) -> bool {
    forall|i: int| 0 <= i < s.len() ==> is_blank_char(#[trigger] s[i])
}

pub open spec fn is_blank_char(c: char) -> bool {
    c == ' ' || c == '\t' || c == '\n'
}

pub open spec fn is_digit(c: char) -> bool {
    '0' <= c <= '9'
}

pub open spec fn is_word_char(c: char) -> bool {
    'a' <= c <= 'z' || 'A' <= c <= 'Z' || is_digit(c) || c == '_'
}

/// The words of Rust, in use or reserved, that are no plain identifiers.
pub open spec fn reserved_words() -> Seq<Seq<char>> {
    seq![
        "_"@, "abstract"@, "as"@, "async"@, "await"@, "become"@, "box"@, "break"@, "const"@,
        "continue"@, "crate"@, "do"@, "dyn"@, "else"@, "enum"@, "extern"@, "false"@,
        "final"@, "fn"@, "for"@, "if"@, "impl"@, "in"@, "let"@, "loop"@, "macro"@, "match"@,
        "mod"@, "move"@, "mut"@, "override"@, "priv"@, "pub"@, "ref"@, "return"@, "Self"@,
        "self"@, "static"@, "struct"@, "super"@, "trait"@, "true"@, "try"@, "type"@, "typeof"@,
        "unsafe"@, "unsized"@, "use"@, "virtual"@, "where"@, "while"@, "yield"@,
    ]
}

/// Whether `key` is a plain identifier in ASCII.
pub open spec fn is_key(key: Seq<char>) -> bool {
    &&& key.len() > 0
    &&& !is_digit(key[0])
    &&& forall|i: int| 0 <= i < key.len() ==> is_word_char(#[trigger] key[i])
    &&& !reserved_words().contains(key)
}

/// Whether `c` can stand in a string literal without a backslash.
pub open spec fn is_plain_char(c: char) -> bool {
    c != '"' && c != '\\' && c != '\r'
}

/// Whether `value` can stand between quotes as it is.
pub open spec fn is_plain(value: Seq<char>) -> bool {
    forall|i: int| 0 <= i < value.len() ==> is_plain_char(#[trigger] value[i])
}

/// What stands for `c` behind a backslash.
pub open spec fn escape_letter(c: char) -> char {
    if c == '\n' {
        'n'
    } else if c == '\r' {
        'r'
    } else if c == '\t' {
        't'
    } else if c == '\0' {
        '0'
    } else {
        c
    }
}

/// Whether there is an escape of one letter for `c`.
pub open spec fn is_escapable(c: char) -> bool {
    c == '\n' || c == '\r' || c == '\t' || c == '\0' || c == '\\' || c == '"' || c == '\''
}

/// Whether `c` can be written so in a string literal.
pub open spec fn is_valid_char(c: char, escaped: bool) -> bool {
    if escaped {
        is_escapable(c)
    } else {
        is_plain_char(c)
    }
}

/// The text of `c` in a string literal.
pub open spec fn char_text(c: char, escaped: bool) -> Seq<char> {
    if escaped {
        seq!['\\', escape_letter(c)]
    } else {
        seq![c]
    }
}

/// The text between the quotes of a string literal with the value `value`.
pub open spec fn string_text(value: Seq<char>, escaped: Seq<bool>) -> Seq<char>
    decreases value.len(),
{
    if value.len() == 0 {
        Seq::empty()
    } else {
        string_text(value.drop_last(), escaped.drop_last()) + char_text(
            value.last(),
            escaped.last(),
        )
    }
}

impl LiteralSpelling {
    pub open spec fn is_valid(self) -> bool {
        match self {
            LiteralSpelling::Str(value, escaped) => value.len() == escaped.len() && forall|i: int|
                0 <= i < value.len() ==> is_valid_char(#[trigger] value[i], escaped[i]),
            LiteralSpelling::Int(digits) => digits.len() > 0 && forall|i: int|
                0 <= i < digits.len() ==> is_digit(#[trigger] digits[i]),
        }
    }

    pub open spec fn text(self) -> Seq<char> {
        match self {
            LiteralSpelling::Str(value, escaped) => seq!['"'] + string_text(value, escaped) + seq![
                '"',
            ],
            LiteralSpelling::Int(digits) => digits,
        }
    }

    pub open spec fn value(self) -> ArgValue {
        match self {
            LiteralSpelling::Str(value, _) => ArgValue::Str(value),
            LiteralSpelling::Int(_) => ArgValue::Other,
        }
    }
}

impl ArgSpelling {
    pub open spec fn is_valid(self) -> bool {
        &&& is_blank(self.before)
        &&& is_key(self.key)
        &&& self.value matches Some(value) ==> {
            &&& is_blank(value.before_eq)
            &&& is_blank(value.after_eq)
            &&& value.literal.is_valid()
        }
        &&& is_blank(self.after)
    }

    pub open spec fn text(self) -> Seq<char> {
        self.before + self.key + match self.value {
            Some(value) => value.before_eq + seq!['='] + value.after_eq + value.literal.text(),
            None => Seq::empty(),
        } + self.after
    }

    /// The argument that is written.
    pub open spec fn arg(self) -> Arg {
        Arg {
            key: Some(self.key),
            value: match self.value {
                Some(value) => value.literal.value(),
                None => ArgValue::Flag,
            },
        }
    }
}

/// The text of `args`, with commas between them.
pub open spec fn args_text(args: Seq<ArgSpelling>) -> Seq<char>
    decreases args.len(),
{
    if args.len() == 0 {
        Seq::empty()
    } else if args.len() == 1 {
        args[0].text()
    } else {
        args_text(args.drop_last()) + seq![','] + args.last().text()
    }
}

impl ListSpelling {
    pub open spec fn is_valid(self) -> bool {
        &&& forall|i: int| 0 <= i < self.args.len() ==> (#[trigger] self.args[i]).is_valid()
        &&& self.end_comma ==> self.args.len() > 0
        &&& is_blank(self.end)
    }

    pub open spec fn text(self) -> Seq<char> {
        args_text(self.args) + (if self.end_comma {
            seq![',']
        } else {
            Seq::empty()
        }) + self.end
    }

    /// The arguments that are written.
    pub open spec fn arg_list(self) -> Seq<Arg> {
        self.args.map_values(|arg: ArgSpelling| arg.arg())
    }
}

// ---------------------------------------------------------------------------
// A text has one meaning
// ---------------------------------------------------------------------------

/// A text without its blanks, and with each string literal in one piece.
enum Token {
    Char(int),
    Str(Seq<char>),
}

/// What has been seen of a text: the tokens, the value of a string literal that
/// is still open, and whether a backslash came last.
struct Seen {
    tokens: Seq<Token>,
    open: Option<Seq<char>>,
    escape: bool,
}

spec fn unescaped(c: char) -> char {
    if c == 'n' {
        '\n'
    } else if c == 'r' {
        '\r'
    } else if c == 't' {
        '\t'
    } else if c == '0' {
        '\0'
    } else {
        c
    }
}

spec fn see_char(seen: Seen, c: char) -> Seen {
    match seen.open {
        Some(value) => if seen.escape {
            Seen { open: Some(value.push(unescaped(c))), escape: false, ..seen }
        } else if c == '\\' {
            Seen { escape: true, ..seen }
        } else if c == '"' {
            Seen { tokens: seen.tokens.push(Token::Str(value)), open: None, ..seen }
        } else {
            Seen { open: Some(value.push(c)), ..seen }
        },
        None => if is_blank_char(c) {
            seen
        } else if c == '"' {
            Seen { open: Some(Seq::empty()), ..seen }
        } else {
            Seen { tokens: seen.tokens.push(Token::Char(c as int)), ..seen }
        },
    }
}

spec fn see(seen: Seen, text: Seq<char>) -> Seen
    decreases text.len(),
{
    if text.len() == 0 {
        seen
    } else {
        see_char(see(seen, text.drop_last()), text.last())
    }
}

/// Outside string literals, after `tokens`.
spec fn outside(tokens: Seq<Token>) -> Seen {
    Seen { tokens, open: None, escape: false }
}

/// Inside a string literal, after `tokens` and the characters `value`.
spec fn inside(tokens: Seq<Token>, value: Seq<char>) -> Seen {
    Seen { tokens, open: Some(value), escape: false }
}

spec fn char_tokens(text: Seq<char>) -> Seq<Token> {
    text.map_values(|c: char| Token::Char(c as int))
}

spec fn literal_tokens(literal: LiteralSpelling) -> Seq<Token> {
    match literal {
        LiteralSpelling::Str(value, _) => seq![Token::Str(value)],
        LiteralSpelling::Int(digits) => char_tokens(digits),
    }
}

spec fn arg_tokens(arg: ArgSpelling) -> Seq<Token> {
    char_tokens(arg.key) + match arg.value {
        Some(value) => seq![Token::Char('=' as int)] + literal_tokens(value.literal),
        None => Seq::empty(),
    }
}

spec fn args_tokens(args: Seq<ArgSpelling>) -> Seq<Token>
    decreases args.len(),
{
    if args.len() == 0 {
        Seq::empty()
    } else {
        before_last(args) + arg_tokens(args.last())
    }
}

/// The tokens before the last of `args`: those of the others, and a comma.
spec fn before_last(args: Seq<ArgSpelling>) -> Seq<Token>
    decreases args.len(), 0int,
{
    if args.len() <= 1 {
        Seq::empty()
    } else {
        args_tokens(args.drop_last()).push(Token::Char(',' as int))
    }
}

proof fn lemma_see_add(seen: Seen, left: Seq<char>, right: Seq<char>)
    ensures
        see(seen, left + right) == see(see(seen, left), right),
    decreases right.len(),
{
    if right.len() == 0 {
        assert(left + right =~= left);
    } else {
        lemma_see_add(seen, left, right.drop_last());
        assert((left + right).drop_last() =~= left + right.drop_last());
    }
}

proof fn lemma_see_one(seen: Seen, c: char)
    ensures
        see(seen, seq![c]) == see_char(seen, c),
{
    assert(seq![c].drop_last() =~= Seq::empty());
    assert(see(seen, Seq::empty()) == seen);
}

proof fn lemma_see_blank(tokens: Seq<Token>, text: Seq<char>)
    requires
        is_blank(text),
    ensures
        see(outside(tokens), text) == outside(tokens),
    decreases text.len(),
{
    if text.len() > 0 {
        let rest = text.drop_last();
        assert forall|i: int| 0 <= i < rest.len() implies is_blank_char(#[trigger] rest[i]) by {
            assert(rest[i] == text[i]);
        }
        lemma_see_blank(tokens, rest);
        assert(is_blank_char(text[text.len() - 1]));
    }
}

/// Words and numbers are seen character by character.
proof fn lemma_see_word(tokens: Seq<Token>, text: Seq<char>)
    requires
        forall|i: int| 0 <= i < text.len() ==> is_word_char(#[trigger] text[i]),
    ensures
        see(outside(tokens), text) == outside(tokens + char_tokens(text)),
    decreases text.len(),
{
    if text.len() == 0 {
        assert(tokens + char_tokens(text) =~= tokens);
    } else {
        let rest = text.drop_last();
        assert forall|i: int| 0 <= i < rest.len() implies is_word_char(#[trigger] rest[i]) by {
            assert(rest[i] == text[i]);
        }
        lemma_see_word(tokens, rest);
        assert(is_word_char(text[text.len() - 1]));
        assert((tokens + char_tokens(rest)).push(Token::Char(text.last() as int)) =~= tokens + char_tokens(
            text,
        ));
    }
}

/// A character of a string literal is seen as its value.
proof fn lemma_see_string_char(tokens: Seq<Token>, value: Seq<char>, c: char, escaped: bool)
    requires
        is_valid_char(c, escaped),
    ensures
        see(inside(tokens, value), char_text(c, escaped)) == inside(tokens, value.push(c)),
{
    if escaped {
        let letter = escape_letter(c);
        assert(char_text(c, escaped) =~= seq!['\\'] + seq![letter]);
        lemma_see_add(inside(tokens, value), seq!['\\'], seq![letter]);
        lemma_see_one(inside(tokens, value), '\\');
        lemma_see_one(see_char(inside(tokens, value), '\\'), letter);
        assert(unescaped(letter) == c);
    } else {
        lemma_see_one(inside(tokens, value), c);
    }
}

proof fn lemma_see_string(tokens: Seq<Token>, value: Seq<char>, escaped: Seq<bool>)
    requires
        value.len() == escaped.len(),
        forall|i: int| 0 <= i < value.len() ==> is_valid_char(#[trigger] value[i], escaped[i]),
    ensures
        see(inside(tokens, Seq::empty()), string_text(value, escaped)) == inside(tokens, value),
    decreases value.len(),
{
    let start = inside(tokens, Seq::empty());
    if value.len() == 0 {
        assert(value =~= Seq::empty());
    } else {
        let (rest, rest_escaped) = (value.drop_last(), escaped.drop_last());
        assert forall|i: int| 0 <= i < rest.len() implies is_valid_char(
            #[trigger] rest[i],
            rest_escaped[i],
        ) by {
            assert(rest[i] == value[i]);
        }
        lemma_see_string(tokens, rest, rest_escaped);
        let n = value.len() - 1;
        assert(is_valid_char(value[n], escaped[n]));
        lemma_see_add(start, string_text(rest, rest_escaped), char_text(value[n], escaped[n]));
        lemma_see_string_char(tokens, rest, value[n], escaped[n]);
        assert(rest.push(value[n]) =~= value);
    }
}

proof fn lemma_see_literal(tokens: Seq<Token>, literal: LiteralSpelling)
    requires
        literal.is_valid(),
    ensures
        see(outside(tokens), literal.text()) == outside(tokens + literal_tokens(literal)),
{
    match literal {
        LiteralSpelling::Str(value, escaped) => {
            let start = outside(tokens);
            let body = string_text(value, escaped);
            lemma_see_add(start, seq!['"'] + body, seq!['"']);
            lemma_see_add(start, seq!['"'], body);
            lemma_see_one(start, '"');
            lemma_see_string(tokens, value, escaped);
            lemma_see_one(inside(tokens, value), '"');
            assert(tokens + literal_tokens(literal) =~= tokens.push(Token::Str(value)));
        },
        LiteralSpelling::Int(digits) => {
            lemma_see_word(tokens, digits);
        },
    }
}

proof fn lemma_see_arg(tokens: Seq<Token>, arg: ArgSpelling)
    requires
        arg.is_valid(),
    ensures
        see(outside(tokens), arg.text()) == outside(tokens + arg_tokens(arg)),
{
    let start = outside(tokens);
    let value_text = match arg.value {
        Some(value) => value.before_eq + seq!['='] + value.after_eq + value.literal.text(),
        None => Seq::empty(),
    };
    let keyed = tokens + char_tokens(arg.key);
    lemma_see_add(start, arg.before + arg.key + value_text, arg.after);
    lemma_see_add(start, arg.before + arg.key, value_text);
    lemma_see_add(start, arg.before, arg.key);
    lemma_see_blank(tokens, arg.before);
    lemma_see_word(tokens, arg.key);
    match arg.value {
        Some(value) => {
            let eq = seq!['='];
            lemma_see_add(
                outside(keyed),
                value.before_eq + eq + value.after_eq,
                value.literal.text(),
            );
            lemma_see_add(outside(keyed), value.before_eq + eq, value.after_eq);
            lemma_see_add(outside(keyed), value.before_eq, eq);
            lemma_see_blank(keyed, value.before_eq);
            lemma_see_one(outside(keyed), '=');
            let with_eq = keyed.push(Token::Char('=' as int));
            lemma_see_blank(with_eq, value.after_eq);
            lemma_see_literal(with_eq, value.literal);
            assert(with_eq + literal_tokens(value.literal) =~= tokens + arg_tokens(arg));
        },
        None => {
            assert(keyed =~= tokens + arg_tokens(arg));
        },
    }
    lemma_see_blank(tokens + arg_tokens(arg), arg.after);
}

proof fn lemma_see_args(args: Seq<ArgSpelling>)
    requires
        forall|i: int| 0 <= i < args.len() ==> (#[trigger] args[i]).is_valid(),
    ensures
        see(outside(Seq::empty()), args_text(args)) == outside(args_tokens(args)),
    decreases args.len(),
{
    let start = outside(Seq::empty());
    if args.len() > 0 {
        let last = args[args.len() - 1];
        assert(last.is_valid());
        let rest = args.drop_last();
        if args.len() == 1 {
            lemma_see_arg(Seq::empty(), last);
            assert(args_text(args) == last.text());
        } else {
            assert forall|i: int| 0 <= i < rest.len() implies (#[trigger] rest[i]).is_valid() by {
                assert(rest[i] == args[i]);
            }
            lemma_see_args(rest);
            lemma_see_add(start, args_text(rest) + seq![','], last.text());
            lemma_see_add(start, args_text(rest), seq![',']);
            lemma_see_one(outside(args_tokens(rest)), ',');
            lemma_see_arg(before_last(args), last);
        }
    }
}

/// No token of an argument is a comma.
proof fn lemma_no_comma(arg: ArgSpelling)
    requires
        arg.is_valid(),
    ensures
        arg_tokens(arg).len() > 0,
        forall|i: int| 0 <= i < arg_tokens(arg).len() ==> #[trigger] arg_tokens(arg)[i] != Token::Char(',' as int),
{
    let tokens = arg_tokens(arg);
    assert forall|i: int| 0 <= i < tokens.len() implies #[trigger] tokens[i] != Token::Char(',' as int) by {
        if i < arg.key.len() {
            assert(is_word_char(arg.key[i]));
        } else if i > arg.key.len() {
            let value = arg.value->0;
            assert(tokens[i] == literal_tokens(value.literal)[i - arg.key.len() - 1]);
            if let LiteralSpelling::Int(digits) = value.literal {
                assert(is_digit(digits[i - arg.key.len() - 1]));
            }
        }
    }
}

/// The tokens of an argument tell which argument it is.
proof fn lemma_same_arg(left: ArgSpelling, right: ArgSpelling)
    requires
        left.is_valid(),
        right.is_valid(),
        arg_tokens(left) == arg_tokens(right),
    ensures
        left.arg() == right.arg(),
{
    let tokens = arg_tokens(left);
    let n = left.key.len() as int;
    let m = right.key.len() as int;
    assert(forall|i: int| 0 <= i < n ==> tokens[i] == Token::Char(#[trigger] left.key[i] as int));
    assert(forall|i: int| 0 <= i < m ==> tokens[i] == Token::Char(#[trigger] right.key[i] as int));
    // Where a key ends, an `=` follows, and no key has one in it.
    if n < m {
        assert(is_word_char(right.key[n]));
        assert(tokens[n] == Token::Char('=' as int));
    } else if m < n {
        assert(is_word_char(left.key[m]));
        assert(tokens[m] == Token::Char('=' as int));
    }
    assert forall|i: int| 0 <= i < n implies left.key[i] == right.key[i] by {
        assert(tokens[i] == Token::Char(left.key[i] as int));
    }
    assert(left.key =~= right.key);
    assert(tokens.len() == n <==> left.value is None);
    assert(tokens.len() == n <==> right.value is None);
    if let (Some(a), Some(b)) = (left.value, right.value) {
        assert(tokens[n + 1] == literal_tokens(a.literal)[0]);
        assert(tokens[n + 1] == literal_tokens(b.literal)[0]);
        assert(literal_tokens(a.literal)[0] is Str <==> a.literal is Str);
        assert(literal_tokens(b.literal)[0] is Str <==> b.literal is Str);
    }
}

/// The tokens of a list tell which arguments it holds.
proof fn lemma_same_args(left: Seq<ArgSpelling>, right: Seq<ArgSpelling>)
    requires
        forall|i: int| 0 <= i < left.len() ==> (#[trigger] left[i]).is_valid(),
        forall|i: int| 0 <= i < right.len() ==> (#[trigger] right[i]).is_valid(),
        args_tokens(left) == args_tokens(right),
    ensures
        left.len() == right.len(),
        forall|i: int| 0 <= i < left.len() ==> (#[trigger] left[i]).arg() == right[i].arg(),
    decreases left.len(),
{
    let (n, m) = (left.len() - 1, right.len() - 1);
    if n >= 0 {
        lemma_no_comma(left[n]);
    }
    if m >= 0 {
        lemma_no_comma(right[m]);
    }
    if n >= 0 && m >= 0 {
        let (a, b) = (before_last(left), before_last(right));
        let (x, y) = (arg_tokens(left[n]), arg_tokens(right[m]));
        let all = args_tokens(left);
        assert(all == a + x && all == b + y);
        assert(all.len() == a.len() + x.len() && all.len() == b.len() + y.len());
        assert(y.len() > 0 && x.len() > 0);
        // What stands before an argument ends in a comma or is nothing.
        if a.len() < b.len() {
            assert(all[b.len() - 1] == Token::Char(',' as int));
            assert(all[b.len() - 1] == x[b.len() - 1 - a.len()]);
        } else if b.len() < a.len() {
            assert(all[a.len() - 1] == Token::Char(',' as int));
            assert(all[a.len() - 1] == y[a.len() - 1 - b.len()]);
        }
        assert(a =~= all.take(a.len() as int));
        assert(b =~= all.take(a.len() as int));
        assert(x =~= all.skip(a.len() as int));
        assert(y =~= all.skip(a.len() as int));
        lemma_same_arg(left[n], right[m]);
        if n > 0 && m > 0 {
            let (p, q) = (left.drop_last(), right.drop_last());
            assert forall|i: int| 0 <= i < p.len() implies (#[trigger] p[i]).is_valid() by {
                assert(p[i] == left[i]);
            }
            assert forall|i: int| 0 <= i < q.len() implies (#[trigger] q[i]).is_valid() by {
                assert(q[i] == right[i]);
            }
            assert(args_tokens(p) =~= a.drop_last());
            assert(args_tokens(q) =~= a.drop_last());
            lemma_same_args(p, q);
            assert forall|i: int| 0 <= i < left.len() implies (#[trigger] left[i]).arg()
                == right[i].arg() by {
                if i < n {
                    assert(p[i] == left[i]);
                    assert(q[i] == right[i]);
                }
            }
        }
    }
}

spec fn list_tokens(list: ListSpelling) -> Seq<Token> {
    if list.end_comma {
        args_tokens(list.args).push(Token::Char(',' as int))
    } else {
        args_tokens(list.args)
    }
}

proof fn lemma_see_list(list: ListSpelling)
    requires
        list.is_valid(),
    ensures
        see(outside(Seq::empty()), list.text()) == outside(list_tokens(list)),
{
    let start = outside(Seq::empty());
    let text = args_text(list.args);
    lemma_see_args(list.args);
    if list.end_comma {
        lemma_see_add(start, text + seq![','], list.end);
        lemma_see_add(start, text, seq![',']);
        lemma_see_one(outside(args_tokens(list.args)), ',');
    } else {
        lemma_see_add(start, text + Seq::empty(), list.end);
        assert(text + Seq::<char>::empty() =~= text);
    }
    lemma_see_blank(list_tokens(list), list.end);
}

/// A text spells at most one list of arguments.
pub proof fn law_spelling_is_unambiguous(left: ListSpelling, right: ListSpelling)
    requires
        left.is_valid(),
        right.is_valid(),
        left.text() == right.text(),
    ensures
        left.arg_list() == right.arg_list(),
{
    lemma_see_list(left);
    lemma_see_list(right);
    let (a, b) = (list_tokens(left), list_tokens(right));
    assert(a == b);
    if left.args.len() > 0 {
        lemma_no_comma(left.args[left.args.len() - 1]);
        assert(!left.end_comma ==> a.last() == arg_tokens(left.args.last()).last());
    }
    if right.args.len() > 0 {
        lemma_no_comma(right.args[right.args.len() - 1]);
        assert(!right.end_comma ==> b.last() == arg_tokens(right.args.last()).last());
    }
    assert(left.end_comma == right.end_comma);
    if left.end_comma {
        assert(args_tokens(left.args) =~= a.drop_last());
        assert(args_tokens(right.args) =~= a.drop_last());
    }
    lemma_same_args(left.args, right.args);
    assert(left.arg_list() =~= right.arg_list());
}

// ---------------------------------------------------------------------------
// The usual spellings
// ---------------------------------------------------------------------------

/// `name = "value"`
pub open spec fn name_text(value: Seq<char>) -> Seq<char> {
    "name = \""@ + value + "\""@
}

/// No escapes in a string literal with `n` characters.
pub open spec fn no_escapes(n: nat) -> Seq<bool> {
    Seq::new(n, |i: int| false)
}

/// `name = "value"`, behind the blanks `before`.
pub open spec fn name_spelling(value: Seq<char>, before: Seq<char>) -> ArgSpelling {
    ArgSpelling {
        before,
        key: "name"@,
        value: Some(
            ValueSpelling {
                before_eq: seq![' '],
                after_eq: seq![' '],
                literal: LiteralSpelling::Str(value, no_escapes(value.len())),
            },
        ),
        after: Seq::empty(),
    }
}

/// `custom_trace`, behind the blanks `before`.
pub open spec fn custom_trace_spelling(before: Seq<char>) -> ArgSpelling {
    ArgSpelling { before, key: "custom_trace"@, value: None, after: Seq::empty() }
}

/// `args` with commas between them and nothing behind them.
pub open spec fn list_spelling(args: Seq<ArgSpelling>) -> ListSpelling {
    ListSpelling { args, end_comma: false, end: Seq::empty() }
}

/// A string literal without escapes is written as its value.
pub proof fn lemma_plain_text(value: Seq<char>)
    ensures
        string_text(value, no_escapes(value.len())) == value,
    decreases value.len(),
{
    if value.len() > 0 {
        let rest = value.drop_last();
        lemma_plain_text(rest);
        assert(no_escapes(value.len()).drop_last() =~= no_escapes(rest.len()));
        assert(rest + seq![value.last()] =~= value);
    } else {
        assert(value =~= Seq::empty());
    }
}

proof fn lemma_keys()
    ensures
        is_key("name"@),
        is_key("custom_trace"@),
{
    reveal_strlit("name");
    reveal_strlit("custom_trace");
    lemma_not_reserved("name"@);
    lemma_not_reserved("custom_trace"@);
}

/// No reserved word has twelve letters, and none of four starts with `n`.
proof fn lemma_not_reserved(key: Seq<char>)
    requires
        key.len() == 12 || key.len() == 4 && key[0] == 'n',
    ensures
        !reserved_words().contains(key),
{
    reveal_strlit("_");
    reveal_strlit("abstract");
    reveal_strlit("as");
    reveal_strlit("async");
    reveal_strlit("await");
    reveal_strlit("become");
    reveal_strlit("box");
    reveal_strlit("break");
    reveal_strlit("const");
    reveal_strlit("continue");
    reveal_strlit("crate");
    reveal_strlit("do");
    reveal_strlit("dyn");
    reveal_strlit("else");
    reveal_strlit("enum");
    reveal_strlit("extern");
    reveal_strlit("false");
    reveal_strlit("final");
    reveal_strlit("fn");
    reveal_strlit("for");
    reveal_strlit("if");
    reveal_strlit("impl");
    reveal_strlit("in");
    reveal_strlit("let");
    reveal_strlit("loop");
    reveal_strlit("macro");
    reveal_strlit("match");
    reveal_strlit("mod");
    reveal_strlit("move");
    reveal_strlit("mut");
    reveal_strlit("override");
    reveal_strlit("priv");
    reveal_strlit("pub");
    reveal_strlit("ref");
    reveal_strlit("return");
    reveal_strlit("Self");
    reveal_strlit("self");
    reveal_strlit("static");
    reveal_strlit("struct");
    reveal_strlit("super");
    reveal_strlit("trait");
    reveal_strlit("true");
    reveal_strlit("try");
    reveal_strlit("type");
    reveal_strlit("typeof");
    reveal_strlit("unsafe");
    reveal_strlit("unsized");
    reveal_strlit("use");
    reveal_strlit("virtual");
    reveal_strlit("where");
    reveal_strlit("while");
    reveal_strlit("yield");
    let words = reserved_words();
    assert forall|i: int| 0 <= i < words.len() implies #[trigger] words[i] != key by {
        assert(words[i].len() != 12 && (words[i].len() == 4 ==> words[i][0] != 'n'));
    }
}

/// The empty text spells the empty list.
pub proof fn lemma_empty_spelling()
    ensures
        list_spelling(Seq::empty()).is_valid(),
        list_spelling(Seq::empty()).text() == Seq::<char>::empty(),
        list_spelling(Seq::empty()).arg_list() == Seq::<Arg>::empty(),
{
    let list = list_spelling(Seq::empty());
    assert(list.text() =~= Seq::empty());
    assert(list.arg_list() =~= Seq::empty());
}

proof fn lemma_name_spelling(value: Seq<char>, before: Seq<char>)
    requires
        is_plain(value),
        is_blank(before),
    ensures
        name_spelling(value, before).is_valid(),
        name_spelling(value, before).text() == before + name_text(value),
        name_spelling(value, before).arg() == (Arg {
            key: Some("name"@),
            value: ArgValue::Str(value),
        }),
{
    lemma_keys();
    lemma_plain_text(value);
    reveal_strlit("name");
    reveal_strlit("name = \"");
    reveal_strlit("\"");
    let spelling = name_spelling(value, before);
    let escaped = no_escapes(value.len());
    assert forall|i: int| 0 <= i < value.len() implies is_valid_char(
        #[trigger] value[i],
        escaped[i],
    ) by {
        assert(is_plain_char(value[i]));
    }
    assert("name = \""@ =~= "name"@ + seq![' '] + seq!['='] + seq![' '] + seq!['"']);
    assert(spelling.text() =~= before + name_text(value));
}

/// `name = "value"` is a spelling of the one argument `name`.
pub proof fn lemma_name_list(value: Seq<char>)
    requires
        is_plain(value),
    ensures
        list_spelling(seq![name_spelling(value, Seq::empty())]).is_valid(),
        list_spelling(seq![name_spelling(value, Seq::empty())]).text() == name_text(value),
        list_spelling(seq![name_spelling(value, Seq::empty())]).arg_list() == seq![
            Arg { key: Some("name"@), value: ArgValue::Str(value) },
        ],
{
    lemma_name_spelling(value, Seq::empty());
    let list = list_spelling(seq![name_spelling(value, Seq::empty())]);
    assert(list.text() =~= name_text(value));
    assert(list.arg_list() =~= seq![Arg { key: Some("name"@), value: ArgValue::Str(value) }]);
}

/// `custom_trace` is a spelling of that flag.
pub proof fn lemma_custom_trace_list()
    ensures
        list_spelling(seq![custom_trace_spelling(Seq::empty())]).is_valid(),
        list_spelling(seq![custom_trace_spelling(Seq::empty())]).text() == "custom_trace"@,
        list_spelling(seq![custom_trace_spelling(Seq::empty())]).arg_list() == seq![
            Arg { key: Some("custom_trace"@), value: ArgValue::Flag },
        ],
{
    lemma_keys();
    let list = list_spelling(seq![custom_trace_spelling(Seq::empty())]);
    assert(list.text() =~= "custom_trace"@);
    assert(list.arg_list() =~= seq![Arg { key: Some("custom_trace"@), value: ArgValue::Flag }]);
}

/// `name = "value", custom_trace` is a spelling of both.
pub proof fn lemma_name_and_custom_trace_list(value: Seq<char>)
    requires
        is_plain(value),
    ensures
        ({
            let list = list_spelling(
                seq![name_spelling(value, Seq::empty()), custom_trace_spelling(seq![' '])],
            );
            &&& list.is_valid()
            &&& list.text() == name_text(value) + ", custom_trace"@
            &&& list.arg_list() == seq![
                Arg { key: Some("name"@), value: ArgValue::Str(value) },
                Arg { key: Some("custom_trace"@), value: ArgValue::Flag },
            ]
        }),
{
    lemma_keys();
    lemma_name_spelling(value, Seq::empty());
    reveal_strlit("custom_trace");
    reveal_strlit(", custom_trace");
    let args = seq![name_spelling(value, Seq::empty()), custom_trace_spelling(seq![' '])];
    let list = list_spelling(args);
    assert(args.drop_last() =~= seq![args[0]]);
    assert(args_text(args.drop_last()) =~= name_text(value));
    assert(", custom_trace"@ =~= seq![','] + (seq![' '] + "custom_trace"@));
    assert(args[1].text() =~= seq![' '] + "custom_trace"@);
    assert(args_text(args) =~= name_text(value) + (seq![','] + args[1].text()));
    assert(list.text() =~= name_text(value) + ", custom_trace"@);
    assert(list.arg_list() =~= seq![
        Arg { key: Some("name"@), value: ArgValue::Str(value) },
        Arg { key: Some("custom_trace"@), value: ArgValue::Flag },
    ]);
}

} // verus!

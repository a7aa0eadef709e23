//! What the emitted `trace` does, from its text.
//!
//! Emitted statements are statements of a small part of Rust. This module gives
//! that part its concrete syntax and its meaning, whoever writes the statements:
//! which calls of the visitor a statement makes in an environment of named
//! places. The laws say that the code emitted for a field, a struct or a variant
//! is the text of statements that visit exactly the strong handles in it.

use vstd::prelude::*;

use crate::code::{code, separated, terminated, Sym};
use crate::expand::trace_body;
use crate::laws::law_made_up_names_are_distinct;
use crate::names::decimal;
use crate::syntax::{Field, Fields, Type, Variant};
use crate::trace::{
    cell_inner, collection_value, field_statement, has_jsg_trace, is_jsg_trace, lemma_cell_disjoint,
    lemma_holders_disjoint, optional_inner, shape_of, statement_of_field, trace_statement,
    trace_statements, traceable_type, CollectionIterStyle, Holder, OptionalKind, Shape,
    TraceableType,
};
use crate::traceable::{
    binding_of_named, binding_statement, positional, statement_of_named, tuple_bindings,
    tuple_statements, variant_arm, variant_statement,
};
use crate::visits::{has_type, reachable, reachable_in, Value, Visit};

verus! {

// ---------------------------------------------------------------------------
// A part of Rust
// ---------------------------------------------------------------------------

/// An expression.
pub enum Expr {
    /// A place or a variable, by its text: `self.field`, `binding`.
    Place(Seq<Sym>),
    /// `&expr`
    Borrow(Box<Expr>),
    /// `&*expr.as_ptr()`
    CellContents(Box<Expr>),
    /// `unsafe { expr }`
    Unsafe(Box<Expr>),
    /// `(expr).values()`
    Values(Box<Expr>),
}

/// A statement.
pub enum Stmt {
    /// `visitor.method(expr);`
    Visit(Seq<char>, Expr),
    /// `jsg::GarbageCollected::trace(expr, visitor);`
    Trace(Expr),
    /// `unsafe { stmt }`
    Unsafe(Box<Stmt>),
    /// `if let constructor(variable) = expr { stmt }`, with `ref` before the
    /// variable where `by_ref` is set.
    IfLet {
        constructor: Seq<char>,
        by_ref: bool,
        variable: Seq<char>,
        scrutinee: Expr,
        body: Box<Stmt>,
    },
    /// `for variable in expr { stmt }`
    For { variable: Seq<char>, iterated: Expr, body: Box<Stmt> },
}

impl Expr {
    /// The source text.
    pub open spec fn text(self) -> Seq<Sym>
        decreases self,
    {
        match self {
            Expr::Place(text) => text,
            Expr::Borrow(e) => code("&"@) + e.text(),
            Expr::CellContents(e) => code("&*"@) + e.text() + code(".as_ptr()"@),
            Expr::Unsafe(e) => code("unsafe { "@) + e.text() + code(" }"@),
            Expr::Values(e) => code("("@) + e.text() + code(").values()"@),
        }
    }
}

impl Stmt {
    /// The source text.
    pub open spec fn text(self) -> Seq<Sym>
        decreases self,
    {
        match self {
            Stmt::Visit(method, e) => code("visitor."@) + code(method) + code("("@) + e.text() + code(
                ");"@,
            ),
            Stmt::Trace(e) => code("jsg::GarbageCollected::trace("@) + e.text() + code(
                ", visitor);"@,
            ),
            Stmt::Unsafe(s) => code("unsafe { "@) + s.text() + code(" }"@),
            Stmt::IfLet { constructor, by_ref, variable, scrutinee, body } => code("if let "@)
                + code(constructor) + code("("@) + (if by_ref {
                code("ref "@)
            } else {
                Seq::empty()
            }) + code(variable) + code(") = "@) + scrutinee.text() + code(" { "@) + body.text()
                + code(" }"@),
            Stmt::For { variable, iterated, body } => code("for "@) + code(variable) + code(" in "@)
                + iterated.text() + code(" { "@) + body.text() + code(" }"@),
        }
    }
}

/// What a place or an expression holds: a value, or a reference to it.
pub struct Slot {
    pub by_ref: bool,
    pub value: Value,
}

/// What the places that are in scope hold, by their text.
pub type Env = spec_fn(Seq<Sym>) -> Option<Slot>;

/// `env` with the variable `variable` in scope, which holds `slot`.
pub open spec fn bind(env: Env, variable: Seq<char>, slot: Slot) -> Env {
    |text: Seq<Sym>|
        if text == code(variable) {
            Some(slot)
        } else {
            env(text)
        }
}

/// What `e` evaluates to; nothing where the compiler would refuse it. A raw
/// pointer is read only inside `unsafe`.
pub open spec fn eval(e: Expr, env: Env, in_unsafe: bool) -> Option<Slot>
    decreases e,
{
    match e {
        Expr::Place(text) => env(text),
        Expr::Borrow(e) => match eval(*e, env, in_unsafe) {
            Some(slot) => Some(Slot { by_ref: true, value: slot.value }),
            None => None,
        },
        Expr::CellContents(e) => match eval(*e, env, in_unsafe) {
            Some(slot) => match slot.value {
                Value::Cell(contents) => if in_unsafe {
                    Some(Slot { by_ref: true, value: *contents })
                } else {
                    None
                },
                _ => None,
            },
            None => None,
        },
        Expr::Unsafe(e) => eval(*e, env, true),
        Expr::Values(e) => match eval(*e, env, in_unsafe) {
            Some(slot) => match slot.value {
                Value::Values(values) => Some(
                    Slot { by_ref: true, value: Value::Elements(values) },
                ),
                _ => None,
            },
            None => None,
        },
    }
}

/// Whether the pattern `constructor(..)` is one for optionals of kind `kind`.
pub open spec fn takes_apart(constructor: Seq<char>, kind: OptionalKind) -> bool {
    match kind {
        OptionalKind::Option => constructor == "Some"@,
        OptionalKind::Nullable => constructor == "jsg::Nullable::Some"@,
    }
}

/// The calls that `visitor.method(slot)` makes; nothing where the compiler would
/// refuse it. `visit_rc` takes a reference to a `jsg::Rc` and `visit_global` one
/// to a `jsg::v8::Global`.
pub open spec fn call(method: Seq<char>, slot: Slot) -> Option<Seq<Visit>> {
    match slot.value {
        Value::Handle(kind, target) => if slot.by_ref && (kind is Ref && method == "visit_rc"@
            || kind is Global && method == "visit_global"@) {
            Some(seq![Visit { kind, target }])
        } else {
            None
        },
        _ => None,
    }
}

/// The calls of the visitor that `s` makes; nothing where the compiler would
/// refuse `s`. `own` gives the calls that the `trace` of a type of its own
/// makes.
pub open spec fn run(
    s: Stmt,
    env: Env,
    in_unsafe: bool,
    own: spec_fn(Value) -> Seq<Visit>,
) -> Option<Seq<Visit>>
    decreases s, 0nat,
{
    match s {
        Stmt::Visit(method, e) => match eval(e, env, in_unsafe) {
            Some(slot) => call(method, slot),
            None => None,
        },
        Stmt::Trace(e) => match eval(e, env, in_unsafe) {
            Some(slot) => if slot.by_ref {
                Some(own(slot.value))
            } else {
                None
            },
            None => None,
        },
        Stmt::Unsafe(s) => run(*s, env, true, own),
        Stmt::IfLet { constructor, by_ref, variable, scrutinee, body } => match eval(
            scrutinee,
            env,
            in_unsafe,
        ) {
            Some(slot) => match slot.value {
                Value::Optional(kind, contents) => if takes_apart(constructor, kind) {
                    match contents {
                        Some(value) => run(
                            *body,
                            bind(
                                env,
                                variable,
                                Slot { by_ref: by_ref || slot.by_ref, value: *value },
                            ),
                            in_unsafe,
                            own,
                        ),
                        None => Some(Seq::empty()),
                    }
                } else {
                    None
                },
                _ => None,
            },
            None => None,
        },
        Stmt::For { variable, iterated, body } => match eval(iterated, env, in_unsafe) {
            Some(slot) => match slot.value {
                Value::Elements(elements) => if slot.by_ref {
                    run_each(*body, variable, elements, env, in_unsafe, own)
                } else {
                    None
                },
                _ => None,
            },
            None => None,
        },
    }
}

/// The calls that `body` makes for each of `elements`, which `variable` refers
/// to one after the other.
pub open spec fn run_each(
    body: Stmt,
    variable: Seq<char>,
    elements: Seq<Value>,
    env: Env,
    in_unsafe: bool,
    own: spec_fn(Value) -> Seq<Visit>,
) -> Option<Seq<Visit>>
    decreases body, elements.len() + 1,
{
    if elements.len() == 0 {
        Some(Seq::empty())
    } else {
        let element = Slot { by_ref: true, value: elements.last() };
        match (
            run_each(body, variable, elements.drop_last(), env, in_unsafe, own),
            run(body, bind(env, variable, element), in_unsafe, own),
        ) {
            (Some(before), Some(calls)) => Some(before + calls),
            _ => None,
        }
    }
}

/// The text of `body`, statement by statement, each with a blank behind it.
pub open spec fn block_text(body: Seq<Stmt>) -> Seq<Sym>
    decreases body.len(),
{
    if body.len() == 0 {
        Seq::empty()
    } else {
        block_text(body.drop_last()) + body.last().text() + code(" "@)
    }
}

/// The calls that the statements of `body` make, one after the other.
pub open spec fn run_block(
    body: Seq<Stmt>,
    env: Env,
    own: spec_fn(Value) -> Seq<Visit>,
) -> Option<Seq<Visit>>
    decreases body.len(),
{
    if body.len() == 0 {
        Some(Seq::empty())
    } else {
        match (run_block(body.drop_last(), env, own), run(body.last(), env, false, own)) {
            (Some(before), Some(calls)) => Some(before + calls),
            _ => None,
        }
    }
}

// ---------------------------------------------------------------------------
// Fields
// ---------------------------------------------------------------------------

/// Whether `text` is a statement that, where `env` is in scope, makes the calls
/// `calls` and no others.
pub open spec fn does(
    text: Seq<Sym>,
    env: Env,
    own: spec_fn(Value) -> Seq<Visit>,
    calls: Seq<Visit>,
) -> bool {
    exists|s: Stmt| #[trigger] s.text() == text && run(s, env, false, own) == Some(calls)
}

/// Whether `field` carries the attribute `#[jsg_trace]`.
pub open spec fn is_marked(field: Field) -> bool {
    exists|i: int|
        0 <= i < field.attrs@.len() && {
            let path = (#[trigger] field.attrs@[i]).path;
            &&& !path.leading_colon
            &&& path.segments@.len() == 1
            &&& path.segments@[0].arguments is Absent
            &&& path.segments@[0].ident@ == "jsg_trace"@
        }
}

/// What tracing a field that holds `value` has to visit: what its own `trace`
/// visits where the field is marked `#[jsg_trace]`, else every strong handle in
/// it.
pub open spec fn due(field: Field, value: Value, own: spec_fn(Value) -> Seq<Visit>) -> Seq<Visit> {
    if is_marked(field) {
        own(value)
    } else {
        reachable(value)
    }
}

/// Whether `value` can be the value of `field`, as far as tracing looks at it.
pub open spec fn may_hold(field: Field, value: Value) -> bool {
    !is_marked(field) ==> has_type(value, field.ty)
}

spec fn method_name(kind: TraceableType) -> Seq<char> {
    if kind is Ref {
        "visit_rc"@
    } else {
        "visit_global"@
    }
}

spec fn some_name(kind: OptionalKind) -> Seq<char> {
    match kind {
        OptionalKind::Option => "Some"@,
        OptionalKind::Nullable => "jsg::Nullable::Some"@,
    }
}

/// The statement for a place with the shape `shape`; `borrowed` says whether
/// the place is a reference to the field.
spec fn shape_stmt(place: Seq<Sym>, variable: Seq<char>, borrowed: bool, shape: Shape) -> Stmt {
    let direct = Expr::Place(place);
    let method = method_name(shape.handle);
    let contents = Expr::CellContents(Box::new(direct));
    match shape.holder {
        Holder::Bare => if shape.cell {
            Stmt::Unsafe(Box::new(Stmt::Visit(method, contents)))
        } else if borrowed {
            Stmt::Visit(method, direct)
        } else {
            Stmt::Visit(method, Expr::Borrow(Box::new(direct)))
        },
        Holder::Optional(kind) => Stmt::IfLet {
            constructor: some_name(kind),
            by_ref: borrowed || !shape.cell,
            variable,
            scrutinee: if shape.cell {
                Expr::Unsafe(Box::new(contents))
            } else {
                direct
            },
            body: Box::new(Stmt::Visit(method, Expr::Place(code(variable)))),
        },
        Holder::Collection(style) => {
            let accessor = if shape.cell {
                Expr::Unsafe(Box::new(contents))
            } else if borrowed {
                direct
            } else {
                Expr::Borrow(Box::new(direct))
            };
            Stmt::For {
                variable: "__item"@,
                iterated: match style {
                    CollectionIterStyle::IterElements => accessor,
                    CollectionIterStyle::IterValues => Expr::Values(Box::new(accessor)),
                },
                body: Box::new(Stmt::Visit(method, Expr::Place(code("__item"@)))),
            }
        },
    }
}

/// Visiting each of a sequence of strong handles visits them in order.
proof fn lemma_run_each(
    handles: Seq<Value>,
    kind: TraceableType,
    env: Env,
    in_unsafe: bool,
    own: spec_fn(Value) -> Seq<Visit>,
)
    requires
        kind is Ref || kind is Global,
        forall|i: int|
            0 <= i < handles.len() ==> (#[trigger] handles[i] matches Value::Handle(k, _) && k
                == kind),
    ensures
        run_each(
            Stmt::Visit(method_name(kind), Expr::Place(code("__item"@))),
            "__item"@,
            handles,
            env,
            in_unsafe,
            own,
        ) == Some(reachable_in(handles)),
    decreases handles.len(),
{
    let body = Stmt::Visit(method_name(kind), Expr::Place(code("__item"@)));
    if handles.len() > 0 {
        let rest = handles.drop_last();
        assert forall|i: int| 0 <= i < rest.len() implies (#[trigger] rest[i] matches Value::Handle(
            k,
            _,
        ) && k == kind) by {
            assert(rest[i] == handles[i]);
        }
        lemma_run_each(rest, kind, env, in_unsafe, own);
        let last = handles[handles.len() - 1];
        assert(last is Handle);
        let slot = Slot { by_ref: true, value: last };
        let inner = bind(env, "__item"@, slot);
        assert(inner(code("__item"@)) == Some(slot));
        assert(run(body, inner, in_unsafe, own) == call(method_name(kind), slot));
        assert(run(body, inner, in_unsafe, own) == Some(reachable(last)));
    }
}

/// The values of a handle type are handles of that kind.
proof fn lemma_handle_value(value: Value, ty: Type)
    requires
        traceable_type(ty) is Ref || traceable_type(ty) is Global,
        has_type(value, ty),
    ensures
        value matches Value::Handle(kind, _) && kind == traceable_type(ty),
{
    lemma_cell_disjoint(ty);
    lemma_holders_disjoint(ty);
}

/// The statement for a shape visits the strong handles in the place.
proof fn lemma_shape_stmt_runs(
    place: Seq<Sym>,
    variable: Seq<char>,
    borrowed: bool,
    ty: Type,
    value: Value,
    env: Env,
    own: spec_fn(Value) -> Seq<Visit>,
)
    requires
        shape_of(ty) is Some,
        has_type(value, ty),
        env(place) == Some(Slot { by_ref: borrowed, value }),
    ensures
        run(shape_stmt(place, variable, borrowed, shape_of(ty)->0), env, false, own) == Some(
            reachable(value),
        ),
{
    let shape = shape_of(ty)->0;
    let stmt = shape_stmt(place, variable, borrowed, shape);
    let method = method_name(shape.handle);
    lemma_cell_disjoint(ty);
    lemma_holders_disjoint(ty);
    let (held, held_ty) = if shape.cell {
        (*value->Cell_0, cell_inner(ty)->0)
    } else {
        (value, ty)
    };
    lemma_cell_disjoint(held_ty);
    lemma_holders_disjoint(held_ty);
    assert(has_type(held, held_ty));
    assert(reachable(value) == reachable(held));
    let direct = Expr::Place(place);
    let contents = Expr::CellContents(Box::new(direct));
    let slot = Slot { by_ref: true, value: held };
    assert(eval(direct, env, true) == env(place));
    assert(eval(direct, env, false) == env(place));
    if shape.cell {
        assert(value is Cell);
        assert(eval(contents, env, true) == Some(slot));
        assert(eval(Expr::Unsafe(Box::new(contents)), env, false) == Some(slot));
    }
    match shape.holder {
        Holder::Bare => {
            lemma_handle_value(held, held_ty);
            if shape.cell {
                let visit = Stmt::Visit(method, contents);
                assert(run(visit, env, true, own) == call(method, slot));
                assert(run(stmt, env, false, own) == run(visit, env, true, own));
            } else {
                let borrow = Expr::Borrow(Box::new(direct));
                assert(eval(borrow, env, false) == Some(slot));
                assert(run(stmt, env, false, own) == call(method, slot));
            }
        },
        Holder::Optional(kind) => {
            let (k, inner) = optional_inner(held_ty)->0;
            assert(held is Optional);
            let body = Stmt::Visit(method, Expr::Place(code(variable)));
            if let Some(handle) = held->Optional_1 {
                assert(has_type(*handle, inner));
                lemma_handle_value(*handle, inner);
                let bound = Slot { by_ref: true, value: *handle };
                let within = bind(env, variable, bound);
                assert(within(code(variable)) == Some(bound));
                assert(eval(Expr::Place(code(variable)), within, false) == Some(bound));
                assert(run(body, within, false, own) == call(method, bound));
                assert(reachable(held) == reachable(*handle));
                assert(run(stmt, env, false, own) == run(body, within, false, own));
            } else {
                assert(run(stmt, env, false, own) == Some(Seq::<Visit>::empty()));
            }
        },
        Holder::Collection(style) => {
            let (_, inner) = collection_value(held_ty)->0;
            let handles = match style {
                CollectionIterStyle::IterElements => held->Elements_0,
                CollectionIterStyle::IterValues => held->Values_0,
            };
            assert forall|i: int| 0 <= i < handles.len() implies (
            #[trigger] handles[i] matches Value::Handle(k, _) && k == shape.handle) by {
                assert(has_type(handles[i], inner));
                lemma_handle_value(handles[i], inner);
            }
            lemma_run_each(handles, shape.handle, env, false, own);
            let borrow = Expr::Borrow(Box::new(direct));
            assert(eval(borrow, env, false) == Some(Slot { by_ref: true, value }));
            let accessor = if shape.cell {
                Expr::Unsafe(Box::new(contents))
            } else if borrowed {
                direct
            } else {
                borrow
            };
            assert(eval(accessor, env, false) == Some(slot));
            let elements = Slot { by_ref: true, value: Value::Elements(handles) };
            match style {
                CollectionIterStyle::IterElements => {
                    assert(slot == elements);
                },
                CollectionIterStyle::IterValues => {
                    assert(eval(Expr::Values(Box::new(accessor)), env, false) == Some(elements));
                },
            }
            assert(reachable(held) == reachable_in(handles));
        },
    }
}

/// The code of a text that is put together from two is that of the two.
proof fn lemma_code_add(left: Seq<char>, right: Seq<char>, whole: Seq<char>)
    requires
        whole =~= left + right,
    ensures
        code(whole) == code(left) + code(right),
{
    assert(code(whole) =~= code(left) + code(right));
}

#[verifier::rlimit(50)]
proof fn lemma_pieces_of_text()
    ensures
        code("unsafe { visitor."@) == code("unsafe { "@) + code("visitor."@),
        code(" { visitor."@) == code(" { "@) + code("visitor."@),
        code("); }"@) == code(");"@) + code(" }"@),
        code(".as_ptr()); }"@) == code(".as_ptr()"@) + code("); }"@),
        code("(&*"@) == code("("@) + code("&*"@),
        code("(&*self."@) == code("("@) + code("&*"@) + code("self."@),
        code("(&self."@) == code("("@) + code("&"@) + code("self."@),
        code("&self."@) == code("&"@) + code("self."@),
        code("unsafe { &*"@) == code("unsafe { "@) + code("&*"@),
        code("unsafe { &*self."@) == code("unsafe { &*"@) + code("self."@),
        code(".as_ptr() }"@) == code(".as_ptr()"@) + code(" }"@),
        code(".as_ptr() } { visitor."@) == code(".as_ptr() }"@) + code(" { visitor."@),
        code("(inner); }"@) == code("("@) + code("inner"@) + code("); }"@),
        code("(__inner); }"@) == code("("@) + code("__inner"@) + code("); }"@),
        code("(__item); }"@) == code("("@) + code("__item"@) + code("); }"@),
        code("(inner) = unsafe { &*self."@) == code("("@) + code("inner"@) + code(") = "@) + code(
            "unsafe { &*self."@,
        ),
        code("(ref inner) = self."@) == code("("@) + code("ref "@) + code("inner"@) + code(") = "@)
            + code("self."@),
        code("(ref __inner) = "@) == code("("@) + code("ref "@) + code("__inner"@) + code(") = "@),
        code("for __item in "@) == code("for "@) + code("__item"@) + code(" in "@),
{
    reveal_strlit("unsafe { visitor.");
    reveal_strlit("unsafe { ");
    reveal_strlit("visitor.");
    reveal_strlit(" { visitor.");
    reveal_strlit(" { ");
    reveal_strlit("); }");
    reveal_strlit(");");
    reveal_strlit(" }");
    reveal_strlit(".as_ptr()); }");
    reveal_strlit(".as_ptr()");
    reveal_strlit("(&*");
    reveal_strlit("(");
    reveal_strlit("&*");
    reveal_strlit("(&*self.");
    reveal_strlit("self.");
    reveal_strlit("(&self.");
    reveal_strlit("&");
    reveal_strlit("&self.");
    reveal_strlit("unsafe { &*");
    reveal_strlit("unsafe { &*self.");
    reveal_strlit(".as_ptr() }");
    reveal_strlit(".as_ptr() } { visitor.");
    reveal_strlit("(inner); }");
    reveal_strlit("inner");
    reveal_strlit("(__inner); }");
    reveal_strlit("__inner");
    reveal_strlit("(__item); }");
    reveal_strlit("__item");
    reveal_strlit("(inner) = unsafe { &*self.");
    reveal_strlit(") = ");
    reveal_strlit("(ref inner) = self.");
    reveal_strlit("ref ");
    reveal_strlit("(ref __inner) = ");
    reveal_strlit("for __item in ");
    reveal_strlit("for ");
    reveal_strlit(" in ");
    lemma_code_add("unsafe { "@, "visitor."@, "unsafe { visitor."@);
    lemma_code_add(" { "@, "visitor."@, " { visitor."@);
    lemma_code_add(");"@, " }"@, "); }"@);
    lemma_code_add(".as_ptr()"@, "); }"@, ".as_ptr()); }"@);
    lemma_code_add("("@, "&*"@, "(&*"@);
    lemma_code_add("(&*"@, "self."@, "(&*self."@);
    lemma_code_add("&"@, "self."@, "&self."@);
    lemma_code_add("("@, "&"@, "("@ + "&"@);
    lemma_code_add("("@ + "&"@, "self."@, "(&self."@);
    lemma_code_add("unsafe { "@, "&*"@, "unsafe { &*"@);
    lemma_code_add("unsafe { &*"@, "self."@, "unsafe { &*self."@);
    lemma_code_add(".as_ptr()"@, " }"@, ".as_ptr() }"@);
    lemma_code_add(".as_ptr() }"@, " { visitor."@, ".as_ptr() } { visitor."@);
    lemma_code_add("("@, "inner"@, "("@ + "inner"@);
    lemma_code_add("("@ + "inner"@, "); }"@, "(inner); }"@);
    lemma_code_add("("@, "__inner"@, "("@ + "__inner"@);
    lemma_code_add("("@ + "__inner"@, "); }"@, "(__inner); }"@);
    lemma_code_add("("@, "__item"@, "("@ + "__item"@);
    lemma_code_add("("@ + "__item"@, "); }"@, "(__item); }"@);
    lemma_code_add("("@ + "inner"@, ") = "@, "("@ + "inner"@ + ") = "@);
    lemma_code_add(
        "("@ + "inner"@ + ") = "@,
        "unsafe { &*self."@,
        "(inner) = unsafe { &*self."@,
    );
    lemma_code_add("("@, "ref "@, "("@ + "ref "@);
    lemma_code_add("("@ + "ref "@, "inner"@, "("@ + "ref "@ + "inner"@);
    lemma_code_add("("@ + "ref "@ + "inner"@, ") = "@, "("@ + "ref "@ + "inner"@ + ") = "@);
    lemma_code_add("("@ + "ref "@ + "inner"@ + ") = "@, "self."@, "(ref inner) = self."@);
    lemma_code_add("("@ + "ref "@, "__inner"@, "("@ + "ref "@ + "__inner"@);
    lemma_code_add("("@ + "ref "@ + "__inner"@, ") = "@, "(ref __inner) = "@);
    lemma_code_add("for "@, "__item"@, "for "@ + "__item"@);
    lemma_code_add("for "@ + "__item"@, " in "@, "for __item in "@);
}

/// Concatenation is associative.
broadcast proof fn lemma_add_assoc(a: Seq<Sym>, b: Seq<Sym>, c: Seq<Sym>)
    ensures
        #[trigger] ((a + b) + c) == a + (b + c),
{
    assert((a + b) + c =~= a + (b + c));
}

/// What is emitted for a field of a struct is the statement for its shape.
#[verifier::rlimit(50)]
proof fn lemma_field_text(name: Seq<char>, shape: Shape)
    requires
        shape.handle is Ref || shape.handle is Global,
    ensures
        shape_stmt(code("self."@) + code(name), "inner"@, false, shape).text() == field_statement(
            name,
            shape,
        ),
{
    let place = code("self."@) + code(name);
    let stmt = shape_stmt(place, "inner"@, false, shape);
    let direct = Expr::Place(place);
    let contents = Expr::CellContents(Box::new(direct));
    let method = method_name(shape.handle);
    lemma_pieces_of_text();
    broadcast use lemma_add_assoc;
    assert(direct.text() == place);
    assert(contents.text() == code("&*"@) + place + code(".as_ptr()"@));
    let boxed = Expr::Unsafe(Box::new(contents));
    assert(boxed.text() == code("unsafe { "@) + contents.text() + code(" }"@));
    let borrow = Expr::Borrow(Box::new(direct));
    assert(borrow.text() == code("&"@) + place);
    match shape.holder {
        Holder::Bare => {
            if shape.cell {
                assert(stmt.text() == code("unsafe { "@) + Stmt::Visit(method, contents).text() + code(" }"@));
            }
            assert(stmt.text() == field_statement(name, shape));
        },
        Holder::Optional(kind) => {
            let body = Stmt::Visit(method, Expr::Place(code("inner"@)));
            assert(Expr::Place(code("inner"@)).text() == code("inner"@));
            assert(body.text() == code("visitor."@) + code(method) + code("("@) + code("inner"@) + code(");"@));
            assert(stmt.text() == field_statement(name, shape));
        },
        Holder::Collection(style) => {
            let body = Stmt::Visit(method, Expr::Place(code("__item"@)));
            assert(Expr::Place(code("__item"@)).text() == code("__item"@));
            assert(body.text() == code("visitor."@) + code(method) + code("("@) + code("__item"@) + code(");"@));
            let accessor = if shape.cell { boxed } else { borrow };
            let values = Expr::Values(Box::new(accessor));
            assert(values.text() == code("("@) + accessor.text() + code(").values()"@));
            assert(stmt.text() == field_statement(name, shape));
        },
    }
}

/// What is emitted for a field of a variant is the statement for its shape.
#[verifier::rlimit(50)]
proof fn lemma_binding_text(binding: Seq<Sym>, shape: Shape)
    requires
        shape.handle is Ref || shape.handle is Global,
    ensures
        shape_stmt(binding, "__inner"@, true, shape).text() == binding_statement(binding, shape),
{
    let stmt = shape_stmt(binding, "__inner"@, true, shape);
    let direct = Expr::Place(binding);
    let contents = Expr::CellContents(Box::new(direct));
    let method = method_name(shape.handle);
    lemma_pieces_of_text();
    broadcast use lemma_add_assoc;
    assert(direct.text() == binding);
    assert(contents.text() == code("&*"@) + binding + code(".as_ptr()"@));
    let boxed = Expr::Unsafe(Box::new(contents));
    assert(boxed.text() == code("unsafe { "@) + contents.text() + code(" }"@));
    match shape.holder {
        Holder::Bare => {
            if shape.cell {
                assert(stmt.text() == code("unsafe { "@) + Stmt::Visit(method, contents).text() + code(" }"@));
            }
            assert(stmt.text() == binding_statement(binding, shape));
        },
        Holder::Optional(kind) => {
            let body = Stmt::Visit(method, Expr::Place(code("__inner"@)));
            assert(Expr::Place(code("__inner"@)).text() == code("__inner"@));
            assert(body.text() == code("visitor."@) + code(method) + code("("@) + code("__inner"@) + code(");"@));
            assert(stmt.text() == binding_statement(binding, shape));
        },
        Holder::Collection(style) => {
            let body = Stmt::Visit(method, Expr::Place(code("__item"@)));
            assert(Expr::Place(code("__item"@)).text() == code("__item"@));
            assert(body.text() == code("visitor."@) + code(method) + code("("@) + code("__item"@) + code(");"@));
            let accessor = if shape.cell { boxed } else { direct };
            let values = Expr::Values(Box::new(accessor));
            assert(values.text() == code("("@) + accessor.text() + code(").values()"@));
            assert(stmt.text() == binding_statement(binding, shape));
        },
    }
}

/// The marker is the attribute `#[jsg_trace]`.
pub proof fn law_marker(field: Field)
    ensures
        has_jsg_trace(field) <==> is_marked(field),
{
    if is_marked(field) {
        let i = choose|i: int|
            0 <= i < field.attrs@.len() && {
                let path = (#[trigger] field.attrs@[i]).path;
                &&& !path.leading_colon
                &&& path.segments@.len() == 1
                &&& path.segments@[0].arguments is Absent
                &&& path.segments@[0].ident@ == "jsg_trace"@
            };
        assert(is_jsg_trace(field.attrs@[i]));
    }
}

/// The statement that is emitted for a field of a struct visits the strong
/// handles in the field, each once and in order, with the method for its kind;
/// on a field marked `#[jsg_trace]` it calls its own `trace`. Every field that
/// is marked, or whose type has a traced shape, has a statement.
pub proof fn law_field_statement_visits_the_field(
    field: Field,
    value: Value,
    env: Env,
    own: spec_fn(Value) -> Seq<Visit>,
)
    requires
        field.ident is Some,
        may_hold(field, value),
        env(code("self."@ + field.ident->0@)) == Some(Slot { by_ref: false, value }),
    ensures
        trace_statement(field) is Some <==> is_marked(field) || shape_of(field.ty) is Some,
        trace_statement(field) matches Some(text) ==> does(
            text,
            env,
            own,
            due(field, value, own),
        ),
{
    law_marker(field);
    let name = field.ident->0@;
    let place = code("self."@) + code(name);
    lemma_code_add("self."@, name, "self."@ + name);
    if is_marked(field) {
        lemma_pieces_of_text();
        reveal_strlit("jsg::GarbageCollected::trace(&self.");
        reveal_strlit("jsg::GarbageCollected::trace(");
        reveal_strlit("&self.");
        lemma_code_add(
            "jsg::GarbageCollected::trace("@,
            "&self."@,
            "jsg::GarbageCollected::trace(&self."@,
        );
        let direct = Expr::Place(place);
        let borrow = Expr::Borrow(Box::new(direct));
        let stmt = Stmt::Trace(borrow);
        broadcast use lemma_add_assoc;
        assert(direct.text() == place);
        assert(borrow.text() == code("&"@) + place);
        assert(stmt.text() == trace_statement(field)->0);
        assert(eval(direct, env, false) == env(place));
        assert(eval(borrow, env, false) == Some(Slot { by_ref: true, value }));
        assert(run(stmt, env, false, own) == Some(own(value)));
    } else if let Some(shape) = shape_of(field.ty) {
        let stmt = shape_stmt(place, "inner"@, false, shape);
        lemma_field_text(name, shape);
        lemma_shape_stmt_runs(place, "inner"@, false, field.ty, value, env, own);
        assert(stmt.text() == trace_statement(field)->0);
    }
}

/// The same of the statement that is emitted for a field of a variant, through
/// the variable `binding`, which refers to the field.
pub proof fn law_variant_statement_visits_the_field(
    field: Field,
    binding: Seq<Sym>,
    value: Value,
    env: Env,
    own: spec_fn(Value) -> Seq<Visit>,
)
    requires
        may_hold(field, value),
        env(binding) == Some(Slot { by_ref: true, value }),
    ensures
        variant_statement(field, binding) is Some <==> is_marked(field) || shape_of(field.ty)
            is Some,
        variant_statement(field, binding) matches Some(text) ==> does(
            text,
            env,
            own,
            due(field, value, own),
        ),
{
    law_marker(field);
    if is_marked(field) {
        let direct = Expr::Place(binding);
        let stmt = Stmt::Trace(direct);
        assert(direct.text() == binding);
        assert(stmt.text() == variant_statement(field, binding)->0);
        assert(eval(direct, env, false) == env(binding));
        assert(run(stmt, env, false, own) == Some(own(value)));
    } else if let Some(shape) = shape_of(field.ty) {
        let stmt = shape_stmt(binding, "__inner"@, true, shape);
        lemma_binding_text(binding, shape);
        lemma_shape_stmt_runs(binding, "__inner"@, true, field.ty, value, env, own);
        assert(stmt.text() == variant_statement(field, binding)->0);
    }
}

// ---------------------------------------------------------------------------
// Structs
// ---------------------------------------------------------------------------

/// What tracing `fields`, which hold `values`, has to visit, field by field.
pub open spec fn due_in(
    fields: Seq<Field>,
    values: Seq<Value>,
    own: spec_fn(Value) -> Seq<Visit>,
) -> Seq<Visit>
    decreases fields.len(),
{
    if fields.len() == 0 {
        Seq::empty()
    } else {
        due_in(fields.drop_last(), values.drop_last(), own) + due(
            fields.last(),
            values.last(),
            own,
        )
    }
}

/// Whether `values` can be the values of `fields`, where every field whose type
/// has no traced shape and that is not marked holds nothing to be visited.
pub open spec fn may_hold_all(fields: Seq<Field>, values: Seq<Value>) -> bool {
    &&& values.len() == fields.len()
    &&& forall|i: int| 0 <= i < fields.len() ==> may_hold(#[trigger] fields[i], values[i])
    &&& forall|i: int|
        0 <= i < fields.len() && !is_marked(#[trigger] fields[i]) && shape_of(fields[i].ty) is None
            ==> reachable(values[i]) == Seq::<Visit>::empty()
}

/// Whether `text` is a sequence of statements, each with a blank behind it,
/// that makes the calls `calls` and no others.
pub open spec fn block_does(
    text: Seq<Sym>,
    env: Env,
    own: spec_fn(Value) -> Seq<Visit>,
    calls: Seq<Visit>,
) -> bool {
    exists|body: Seq<Stmt>| #[trigger]
        block_text(body) == text && run_block(body, env, own) == Some(calls)
}

proof fn lemma_block_push(
    text: Seq<Sym>,
    calls: Seq<Visit>,
    last: Seq<Sym>,
    last_calls: Seq<Visit>,
    env: Env,
    own: spec_fn(Value) -> Seq<Visit>,
)
    requires
        block_does(text, env, own, calls),
        does(last, env, own, last_calls),
    ensures
        block_does(text + last + code(" "@), env, own, calls + last_calls),
{
    let body = choose|body: Seq<Stmt>| #[trigger]
        block_text(body) == text && run_block(body, env, own) == Some(calls);
    let s = choose|s: Stmt| #[trigger] s.text() == last && run(s, env, false, own) == Some(
        last_calls,
    );
    assert(body.push(s).drop_last() =~= body);
    assert(block_text(body.push(s)) == text + last + code(" "@));
}

proof fn lemma_block_empty(env: Env, own: spec_fn(Value) -> Seq<Visit>)
    ensures
        block_does(Seq::empty(), env, own, Seq::empty()),
{
    let body = Seq::<Stmt>::empty();
    assert(block_text(body) == Seq::<Sym>::empty());
    assert(run_block(body, env, own) == Some(Seq::<Visit>::empty()));
}

proof fn lemma_may_hold_prefix(fields: Seq<Field>, values: Seq<Value>)
    requires
        may_hold_all(fields, values),
        fields.len() > 0,
    ensures
        may_hold_all(fields.drop_last(), values.drop_last()),
        may_hold(fields.last(), values.last()),
        !is_marked(fields.last()) && shape_of(fields.last().ty) is None ==> reachable(values.last())
            == Seq::<Visit>::empty(),
{
    let (first, rest) = (fields.drop_last(), values.drop_last());
    let n = fields.len() - 1;
    assert(may_hold(fields[n], values[n]));
    assert forall|i: int| 0 <= i < first.len() implies may_hold(#[trigger] first[i], rest[i]) by {
        assert(first[i] == fields[i] && rest[i] == values[i]);
        assert(may_hold(fields[i], values[i]));
    }
    assert forall|i: int|
        0 <= i < first.len() && !is_marked(#[trigger] first[i]) && shape_of(first[i].ty)
            is None implies reachable(rest[i]) == Seq::<Visit>::empty() by {
        assert(first[i] == fields[i] && rest[i] == values[i]);
        assert(!is_marked(fields[i]));
    }
    assert(!is_marked(fields[n]) && shape_of(fields[n].ty) is None ==> reachable(values[n])
        == Seq::<Visit>::empty());
}

/// The body of the `trace` that is emitted for a struct with the named fields
/// `fields` is `let _ = visitor;` and statements that visit the strong handles
/// in all of the fields, field by field, and nothing else.
pub proof fn law_struct_trace_visits_every_field(
    fields: Seq<Field>,
    values: Seq<Value>,
    env: Env,
    own: spec_fn(Value) -> Seq<Visit>,
)
    requires
        may_hold_all(fields, values),
        forall|i: int|
            0 <= i < fields.len() ==> (#[trigger] fields[i]).ident is Some && env(
                code("self."@ + fields[i].ident->0@),
            ) == Some(Slot { by_ref: false, value: values[i] }),
    ensures
        exists|text: Seq<Sym>|
            trace_body(trace_statements(fields)) == #[trigger] (code("let _ = visitor; "@) + text)
                && block_does(text, env, own, due_in(fields, values, own)),
{
    let text = lemma_struct_statements(fields, values, env, own);
    lemma_trace_body(trace_statements(fields));
    assert(trace_body(trace_statements(fields)) == code("let _ = visitor; "@) + text);
}

/// The statements of `statements`, each with a blank behind it.
spec fn spaced(statements: Seq<Seq<Sym>>) -> Seq<Sym>
    decreases statements.len(),
{
    if statements.len() == 0 {
        Seq::empty()
    } else {
        spaced(statements.drop_last()) + statements.last() + code(" "@)
    }
}

proof fn lemma_trace_body(statements: Seq<Seq<Sym>>)
    ensures
        trace_body(statements) == code("let _ = visitor; "@) + spaced(statements),
    decreases statements.len(),
{
    lemma_terminated_is_spaced(statements);
}

proof fn lemma_terminated_is_spaced(statements: Seq<Seq<Sym>>)
    ensures
        terminated(statements, code(" "@)) == spaced(statements),
    decreases statements.len(),
{
    if statements.len() > 0 {
        lemma_terminated_is_spaced(statements.drop_last());
    }
}

proof fn lemma_struct_statements(
    fields: Seq<Field>,
    values: Seq<Value>,
    env: Env,
    own: spec_fn(Value) -> Seq<Visit>,
) -> (text: Seq<Sym>)
    requires
        may_hold_all(fields, values),
        forall|i: int|
            0 <= i < fields.len() ==> (#[trigger] fields[i]).ident is Some && env(
                code("self."@ + fields[i].ident->0@),
            ) == Some(Slot { by_ref: false, value: values[i] }),
    ensures
        text == spaced(trace_statements(fields)),
        block_does(text, env, own, due_in(fields, values, own)),
    decreases fields.len(),
{
    let f = statement_of_field();
    let text = spaced(trace_statements(fields));
    if fields.len() == 0 {
        assert(trace_statements(fields) =~= Seq::empty());
        lemma_block_empty(env, own);
    } else {
        let (first, rest) = (fields.drop_last(), values.drop_last());
        let last = fields[fields.len() - 1];
        lemma_may_hold_prefix(fields, values);
        assert forall|i: int| 0 <= i < first.len() implies (#[trigger] first[i]).ident is Some
            && env(code("self."@ + first[i].ident->0@)) == Some(
            Slot { by_ref: false, value: rest[i] },
        ) by {
            assert(first[i] == fields[i] && rest[i] == values[i]);
            assert(fields[i].ident is Some);
        }
        let before = lemma_struct_statements(first, rest, env, own);
        assert(last.ident is Some);
        law_field_statement_visits_the_field(last, values.last(), env, own);
        reveal(Seq::filter_map);
        match trace_statement(last) {
            Some(statement) => {
                assert(trace_statements(fields) =~= trace_statements(first).push(statement));
                assert(trace_statements(fields).drop_last() =~= trace_statements(first));
                lemma_block_push(
                    before,
                    due_in(first, rest, own),
                    statement,
                    due(last, values.last(), own),
                    env,
                    own,
                );
            },
            None => {
                assert(trace_statements(fields) =~= trace_statements(first));
                assert(due_in(first, rest, own) + due(last, values.last(), own) =~= due_in(
                    first,
                    rest,
                    own,
                ));
            },
        }
    }
    text
}

// ---------------------------------------------------------------------------
// Variants
// ---------------------------------------------------------------------------

/// The pattern of a `match` arm behind the name of the variant.
pub enum Pattern {
    /// Nothing.
    Unit,
    /// ` { name, .. }`, with any number of names.
    Named(Seq<Seq<char>>),
    /// `(name, _)`, with one name or `_` per field.
    Tuple(Seq<Option<Seq<char>>>),
    /// `(..)`
    AnyTuple,
}

/// The names of a pattern, each with a comma and a blank behind it.
pub open spec fn names_text(names: Seq<Seq<char>>) -> Seq<Sym>
    decreases names.len(),
{
    if names.len() == 0 {
        Seq::empty()
    } else {
        names_text(names.drop_last()) + code(names.last()) + code(", "@)
    }
}

/// A name, or `_`.
pub open spec fn part_text(part: Option<Seq<char>>) -> Seq<Sym> {
    match part {
        Some(name) => code(name),
        None => code("_"@),
    }
}

/// The parts of a tuple pattern, with a comma and a blank between each two.
pub open spec fn parts_text(parts: Seq<Option<Seq<char>>>) -> Seq<Sym>
    decreases parts.len(),
{
    if parts.len() == 0 {
        Seq::empty()
    } else if parts.len() == 1 {
        part_text(parts[0])
    } else {
        parts_text(parts.drop_last()) + code(", "@) + part_text(parts.last())
    }
}

impl Pattern {
    /// The source text.
    pub open spec fn text(self) -> Seq<Sym> {
        match self {
            Pattern::Unit => Seq::empty(),
            Pattern::Named(names) => code(" { "@) + names_text(names) + code(".. }"@),
            Pattern::Tuple(parts) => code("("@) + parts_text(parts) + code(")"@),
            Pattern::AnyTuple => code("(..)"@),
        }
    }

    /// Whether the pattern is one for the fields `fields` of a variant.
    pub open spec fn fits(self, fields: Fields) -> bool {
        match (self, fields) {
            (Pattern::Unit, Fields::Unit) => true,
            (Pattern::Named(names), Fields::Named(named)) => forall|k: int|
                0 <= k < names.len() ==> is_name_of_one(#[trigger] names[k], named@),
            (Pattern::Tuple(parts), Fields::Unnamed(unnamed)) => {
                &&& parts.len() == unnamed@.len()
                &&& forall|i: int, j: int|
                    0 <= i < j < parts.len() && (#[trigger] parts[i]) is Some
                        ==> #[trigger] parts[j] != parts[i]
            },
            (Pattern::AnyTuple, Fields::Unnamed(_)) => true,
            _ => false,
        }
    }
}

/// Whether `field` is named `name`.
pub open spec fn is_named(field: Field, name: Seq<char>) -> bool {
    match field.ident {
        Some(ident) => ident@ == name,
        None => false,
    }
}

/// Whether one of `fields` is named `name`.
pub open spec fn is_name_of_one(name: Seq<char>, fields: Seq<Field>) -> bool {
    exists|j: int| 0 <= j < fields.len() && is_named(#[trigger] fields[j], name)
}

/// The fields of a variant, in order.
pub open spec fn fields_of(fields: Fields) -> Seq<Field> {
    match fields {
        Fields::Named(named) => named@,
        Fields::Unnamed(unnamed) => unnamed@,
        Fields::Unit => Seq::empty(),
    }
}

/// Whether in `env` the variables of `pattern` refer to those of `values` that
/// they stand for, the values of the fields `fields`.
pub open spec fn binds(pattern: Pattern, fields: Seq<Field>, values: Seq<Value>, env: Env) -> bool {
    match pattern {
        Pattern::Named(names) => forall|k: int, j: int|
            0 <= k < names.len() && 0 <= j < fields.len() && is_named(
                #[trigger] fields[j],
                #[trigger] names[k],
            ) ==> env(
                code(names[k]),
            ) == Some(Slot { by_ref: true, value: values[j] }),
        Pattern::Tuple(parts) => forall|j: int|
            0 <= j < parts.len() ==> (#[trigger] parts[j] matches Some(name) ==> env(code(name))
                == Some(Slot { by_ref: true, value: values[j] })),
        _ => true,
    }
}

/// The `match` arm with the pattern `pattern` behind the name of the variant
/// `name`, and the body `body`.
pub open spec fn arm_text(name: Seq<char>, pattern: Pattern, body: Seq<Stmt>) -> Seq<Sym> {
    code("Self::"@ + name) + pattern.text() + (if body.len() == 0 {
        code(" => {}"@)
    } else {
        code(" => { "@) + block_text(body) + code("}"@)
    })
}

/// Whether an arm with the pattern `pattern` and the body `body` visits the
/// strong handles in all of the fields `fields`, field by field, and nothing
/// else, whatever the fields hold.
pub open spec fn arm_visits(pattern: Pattern, body: Seq<Stmt>, fields: Seq<Field>) -> bool {
    forall|values: Seq<Value>, env: Env, own: spec_fn(Value) -> Seq<Visit>|
        may_hold_all(fields, values) && binds(pattern, fields, values, env) ==> #[trigger] run_block(
            body,
            env,
            own,
        ) == Some(#[trigger] due_in(fields, values, own))
}

/// The arm that is emitted for a variant matches the variant, and its body
/// visits the strong handles in all of the fields of the variant, field by
/// field, and nothing else.
pub proof fn law_arm_visits_every_field(variant: Variant)
    requires
        variant.fields matches Fields::Named(named) ==> forall|i: int|
            0 <= i < named@.len() ==> (#[trigger] named@[i]).ident is Some,
    ensures
        exists|pattern: Pattern, body: Seq<Stmt>| #[trigger]
            arm_text(variant.ident@, pattern, body) == variant_arm(variant) && pattern.fits(
                variant.fields,
            ) && arm_visits(pattern, body, fields_of(variant.fields)),
{
    let head = code("Self::"@ + variant.ident@);
    lemma_code_add("Self::"@, variant.ident@, "Self::"@ + variant.ident@);
    lemma_arm_pieces();
    broadcast use lemma_add_assoc;
    match variant.fields {
        Fields::Unit => {
            let pattern = Pattern::Unit;
            let body = Seq::<Stmt>::empty();
            assert(arm_text(variant.ident@, pattern, body) == variant_arm(variant));
            assert(arm_visits(pattern, body, Seq::empty()));
        },
        Fields::Named(named) => {
            let body = named_body(named@);
            let names = named_names(named@);
            let pattern = Pattern::Named(names);
            lemma_named_texts(named@);
            if body.len() == 0 {
                assert(names.len() == 0);
                assert(names_text(names) == Seq::<Sym>::empty());
                assert(pattern.text() =~= code(" { "@) + code(".. }"@));
            }
            assert(arm_text(variant.ident@, pattern, body) == variant_arm(variant));
            lemma_named_fits(named@);
            assert forall|values: Seq<Value>, env: Env, own: spec_fn(Value) -> Seq<Visit>|
                may_hold_all(named@, values) && binds(
                    pattern,
                    named@,
                    values,
                    env,
                ) implies #[trigger] run_block(body, env, own) == Some(
                #[trigger] due_in(named@, values, own),
            ) by {
                lemma_named_runs(named@, values, env, own);
            }
        },
        Fields::Unnamed(unnamed) => {
            let body = tuple_body(unnamed@);
            let parts = tuple_parts(unnamed@);
            lemma_tuple_texts(unnamed@);
            let pattern = if body.len() == 0 {
                Pattern::AnyTuple
            } else {
                Pattern::Tuple(parts)
            };
            assert(arm_text(variant.ident@, pattern, body) == variant_arm(variant));
            lemma_tuple_fits(unnamed@);
            assert forall|values: Seq<Value>, env: Env, own: spec_fn(Value) -> Seq<Visit>|
                may_hold_all(unnamed@, values) && binds(
                    pattern,
                    unnamed@,
                    values,
                    env,
                ) implies #[trigger] run_block(body, env, own) == Some(
                #[trigger] due_in(unnamed@, values, own),
            ) by {
                lemma_tuple_runs(unnamed@, values, env, own);
            }
        },
    }
}

proof fn lemma_arm_pieces()
    ensures
        code(" { .. } => {}"@) == code(" { "@) + code(".. }"@) + code(" => {}"@),
        code(".. } => { "@) == code(".. }"@) + code(" => { "@),
        code("(..) => {}"@) == code("(..)"@) + code(" => {}"@),
        code(") => { "@) == code(")"@) + code(" => { "@),
{
    reveal_strlit(" { .. } => {}");
    reveal_strlit(" { ");
    reveal_strlit(".. }");
    reveal_strlit(" => {}");
    reveal_strlit(".. } => { ");
    reveal_strlit(" => { ");
    reveal_strlit("(..) => {}");
    reveal_strlit("(..)");
    reveal_strlit(") => { ");
    reveal_strlit(")");
    lemma_code_add(" { "@, ".. }"@, " { "@ + ".. }"@);
    lemma_code_add(" { "@ + ".. }"@, " => {}"@, " { .. } => {}"@);
    lemma_code_add(".. }"@, " => { "@, ".. } => { "@);
    lemma_code_add("(..)"@, " => {}"@, "(..) => {}"@);
    lemma_code_add(")"@, " => { "@, ") => { "@);
}

/// The statement for a field that is bound to `binding`.
spec fn bound_stmt(field: Field, binding: Seq<Sym>) -> Option<Stmt> {
    if is_marked(field) {
        Some(Stmt::Trace(Expr::Place(binding)))
    } else {
        match shape_of(field.ty) {
            Some(shape) => Some(shape_stmt(binding, "__inner"@, true, shape)),
            None => None,
        }
    }
}

proof fn lemma_bound_stmt(field: Field, binding: Seq<Sym>)
    ensures
        match bound_stmt(field, binding) {
            Some(stmt) => variant_statement(field, binding) == Some(stmt.text()),
            None => variant_statement(field, binding) is None,
        },
{
    law_marker(field);
    if is_marked(field) {
        assert(Expr::Place(binding).text() == binding);
    } else if let Some(shape) = shape_of(field.ty) {
        lemma_binding_text(binding, shape);
    }
}

proof fn lemma_bound_stmt_runs(
    field: Field,
    binding: Seq<Sym>,
    value: Value,
    env: Env,
    own: spec_fn(Value) -> Seq<Visit>,
)
    requires
        bound_stmt(field, binding) is Some,
        may_hold(field, value),
        env(binding) == Some(Slot { by_ref: true, value }),
    ensures
        run(bound_stmt(field, binding)->0, env, false, own) == Some(due(field, value, own)),
{
    if is_marked(field) {
        assert(eval(Expr::Place(binding), env, false) == env(binding));
    } else {
        lemma_shape_stmt_runs(binding, "__inner"@, true, field.ty, value, env, own);
    }
}

spec fn named_body(fields: Seq<Field>) -> Seq<Stmt>
    decreases fields.len(),
{
    if fields.len() == 0 {
        Seq::empty()
    } else {
        let rest = named_body(fields.drop_last());
        match bound_stmt(fields.last(), code(fields.last().ident->0@)) {
            Some(stmt) => rest.push(stmt),
            None => rest,
        }
    }
}

spec fn named_names(fields: Seq<Field>) -> Seq<Seq<char>>
    decreases fields.len(),
{
    if fields.len() == 0 {
        Seq::empty()
    } else {
        let rest = named_names(fields.drop_last());
        if bound_stmt(fields.last(), code(fields.last().ident->0@)) is Some {
            rest.push(fields.last().ident->0@)
        } else {
            rest
        }
    }
}

proof fn lemma_named_texts(fields: Seq<Field>)
    requires
        forall|i: int| 0 <= i < fields.len() ==> (#[trigger] fields[i]).ident is Some,
    ensures
        named_names(fields).len() == named_body(fields).len(),
        fields.filter_map(statement_of_named()).len() == named_body(fields).len(),
        terminated(fields.filter_map(statement_of_named()), code(" "@)) == block_text(
            named_body(fields),
        ),
        terminated(fields.filter_map(binding_of_named()), code(", "@)) == names_text(
            named_names(fields),
        ),
    decreases fields.len(),
{
    let (b, s) = (binding_of_named(), statement_of_named());
    reveal(Seq::filter_map);
    if fields.len() == 0 {
        assert(fields.filter_map(b) =~= Seq::empty());
        assert(fields.filter_map(s) =~= Seq::empty());
    } else {
        let first = fields.drop_last();
        let last = fields[fields.len() - 1];
        assert forall|i: int| 0 <= i < first.len() implies (#[trigger] first[i]).ident is Some by {
            assert(first[i] == fields[i]);
        }
        lemma_named_texts(first);
        assert(last.ident is Some);
        let binding = code(last.ident->0@);
        lemma_bound_stmt(last, binding);
        law_marker(last);
        match bound_stmt(last, binding) {
            Some(stmt) => {
                assert(fields.filter_map(s) =~= first.filter_map(s).push(stmt.text()));
                assert(fields.filter_map(b) =~= first.filter_map(b).push(binding));
                assert(fields.filter_map(s).drop_last() =~= first.filter_map(s));
                assert(fields.filter_map(b).drop_last() =~= first.filter_map(b));
                assert(named_body(fields).drop_last() =~= named_body(first));
                assert(named_names(fields).drop_last() =~= named_names(first));
            },
            None => {
                assert(fields.filter_map(s) =~= first.filter_map(s));
                assert(fields.filter_map(b) =~= first.filter_map(b));
            },
        }
    }
}

proof fn lemma_named_source(fields: Seq<Field>, k: int)
    requires
        forall|i: int| 0 <= i < fields.len() ==> (#[trigger] fields[i]).ident is Some,
        0 <= k < named_names(fields).len(),
    ensures
        is_name_of_one(named_names(fields)[k], fields),
    decreases fields.len(),
{
    let first = fields.drop_last();
    assert forall|i: int| 0 <= i < first.len() implies (#[trigger] first[i]).ident is Some by {
        assert(first[i] == fields[i]);
    }
    if k < named_names(first).len() {
        lemma_named_source(first, k);
        let name = named_names(first)[k];
        let j = choose|j: int| 0 <= j < first.len() && is_named(#[trigger] first[j], name);
        assert(is_named(fields[j], name));
    } else {
        assert(fields[fields.len() - 1].ident is Some);
        assert(is_named(fields[fields.len() - 1], named_names(fields)[k]));
    }
}

proof fn lemma_named_fits(fields: Seq<Field>)
    requires
        forall|i: int| 0 <= i < fields.len() ==> (#[trigger] fields[i]).ident is Some,
    ensures
        forall|k: int|
            0 <= k < named_names(fields).len() ==> is_name_of_one(
                #[trigger] named_names(fields)[k],
                fields,
            ),
{
    let names = named_names(fields);
    assert forall|k: int| 0 <= k < names.len() implies is_name_of_one(
        #[trigger] names[k],
        fields,
    ) by {
        lemma_named_source(fields, k);
    }
}

proof fn lemma_named_runs(
    fields: Seq<Field>,
    values: Seq<Value>,
    env: Env,
    own: spec_fn(Value) -> Seq<Visit>,
)
    requires
        forall|i: int| 0 <= i < fields.len() ==> (#[trigger] fields[i]).ident is Some,
        may_hold_all(fields, values),
        binds(Pattern::Named(named_names(fields)), fields, values, env),
    ensures
        run_block(named_body(fields), env, own) == Some(due_in(fields, values, own)),
    decreases fields.len(),
{
    if fields.len() > 0 {
        let (first, rest) = (fields.drop_last(), values.drop_last());
        let n = fields.len() - 1;
        let last = fields[n];
        let binding = code(last.ident->0@);
        lemma_may_hold_prefix(fields, values);
        assert forall|i: int| 0 <= i < first.len() implies (#[trigger] first[i]).ident is Some by {
            assert(first[i] == fields[i]);
        }
        let (names, all) = (named_names(first), named_names(fields));
        assert forall|k: int, j: int|
            0 <= k < names.len() && 0 <= j < first.len() && is_named(
                #[trigger] first[j],
                #[trigger] names[k],
            ) implies env(
            code(names[k]),
        ) == Some(Slot { by_ref: true, value: rest[j] }) by {
            assert(all[k] == names[k]);
            assert(is_named(fields[j], all[k]));
        }
        lemma_named_runs(first, rest, env, own);
        assert(last.ident is Some);
        match bound_stmt(last, binding) {
            Some(stmt) => {
                let k = all.len() - 1;
                assert(is_named(fields[n], all[k]));
                assert(env(binding) == Some(Slot { by_ref: true, value: values[n] }));
                lemma_bound_stmt_runs(last, binding, values.last(), env, own);
                assert(named_body(fields).drop_last() =~= named_body(first));
            },
            None => {
                assert(due_in(first, rest, own) + due(last, values.last(), own) =~= due_in(
                    first,
                    rest,
                    own,
                ));
            },
        }
    }
}

spec fn tuple_name(i: nat) -> Seq<char> {
    "_f"@ + decimal(i)
}

spec fn tuple_body(fields: Seq<Field>) -> Seq<Stmt>
    decreases fields.len(),
{
    if fields.len() == 0 {
        Seq::empty()
    } else {
        let rest = tuple_body(fields.drop_last());
        match bound_stmt(fields.last(), code(tuple_name((fields.len() - 1) as nat))) {
            Some(stmt) => rest.push(stmt),
            None => rest,
        }
    }
}

spec fn tuple_parts(fields: Seq<Field>) -> Seq<Option<Seq<char>>> {
    Seq::new(
        fields.len(),
        |i: int|
            if is_marked(fields[i]) || shape_of(fields[i].ty) is Some {
                Some(tuple_name(i as nat))
            } else {
                None
            },
    )
}

proof fn lemma_parts(parts: Seq<Option<Seq<char>>>, bindings: Seq<Seq<Sym>>)
    requires
        parts.len() == bindings.len(),
        forall|i: int| 0 <= i < parts.len() ==> part_text(#[trigger] parts[i]) == bindings[i],
    ensures
        separated(bindings, code(", "@)) == parts_text(parts),
    decreases parts.len(),
{
    if parts.len() > 0 {
        let n = parts.len() - 1;
        assert(part_text(parts[n]) == bindings[n]);
        let (p, b) = (parts.drop_last(), bindings.drop_last());
        assert forall|i: int| 0 <= i < p.len() implies part_text(#[trigger] p[i]) == b[i] by {
            assert(p[i] == parts[i]);
        }
        lemma_parts(p, b);
    }
}

proof fn lemma_tuple_texts(fields: Seq<Field>)
    ensures
        tuple_statements(fields).len() == tuple_body(fields).len(),
        terminated(tuple_statements(fields), code(" "@)) == block_text(tuple_body(fields)),
        separated(tuple_bindings(fields), code(", "@)) == parts_text(tuple_parts(fields)),
    decreases fields.len(),
{
    let (parts, bindings) = (tuple_parts(fields), tuple_bindings(fields));
    assert forall|i: int| 0 <= i < parts.len() implies part_text(#[trigger] parts[i])
        == bindings[i] by {
        law_marker(fields[i]);
    }
    lemma_parts(parts, bindings);
    if fields.len() > 0 {
        let first = fields.drop_last();
        lemma_tuple_texts(first);
        let last = fields.last();
        let binding = code(tuple_name((fields.len() - 1) as nat));
        lemma_bound_stmt(last, binding);
        if let Some(stmt) = bound_stmt(last, binding) {
            assert(tuple_statements(fields).drop_last() =~= tuple_statements(first));
            assert(tuple_body(fields).drop_last() =~= tuple_body(first));
        }
    }
}

proof fn lemma_tuple_fits(fields: Seq<Field>)
    ensures
        tuple_parts(fields).len() == fields.len(),
        forall|i: int, j: int|
            0 <= i < j < fields.len() && (#[trigger] tuple_parts(fields)[i]) is Some
                ==> #[trigger] tuple_parts(fields)[j] != tuple_parts(fields)[i],
{
    let parts = tuple_parts(fields);
    assert forall|i: int, j: int| 0 <= i < j < fields.len() && (#[trigger] parts[i]) is Some implies
        #[trigger] parts[j] != parts[i] by {
        law_made_up_names_are_distinct(i as nat, j as nat);
        if parts[j] == parts[i] {
            assert(positional(i as nat) == code(tuple_name(i as nat)));
            assert(positional(j as nat) == code(tuple_name(j as nat)));
        }
    }
}

proof fn lemma_tuple_runs(
    fields: Seq<Field>,
    values: Seq<Value>,
    env: Env,
    own: spec_fn(Value) -> Seq<Visit>,
)
    requires
        may_hold_all(fields, values),
        tuple_body(fields).len() > 0 ==> binds(
            Pattern::Tuple(tuple_parts(fields)),
            fields,
            values,
            env,
        ),
    ensures
        run_block(tuple_body(fields), env, own) == Some(due_in(fields, values, own)),
    decreases fields.len(),
{
    if fields.len() > 0 {
        let (first, rest) = (fields.drop_last(), values.drop_last());
        let n = fields.len() - 1;
        let last = fields[n];
        let binding = code(tuple_name(n as nat));
        let (parts, all) = (tuple_parts(first), tuple_parts(fields));
        lemma_may_hold_prefix(fields, values);
        if tuple_body(first).len() > 0 {
            assert forall|j: int| 0 <= j < parts.len() implies (
            #[trigger] parts[j] matches Some(name) ==> env(code(name)) == Some(
                Slot { by_ref: true, value: rest[j] },
            )) by {
                assert(all[j] == parts[j]);
            }
        }
        lemma_tuple_runs(first, rest, env, own);
        match bound_stmt(last, binding) {
            Some(stmt) => {
                assert(all[n] == Some(tuple_name(n as nat)));
                assert(env(binding) == Some(Slot { by_ref: true, value: values[n] }));
                lemma_bound_stmt_runs(last, binding, values.last(), env, own);
                assert(tuple_body(fields).drop_last() =~= tuple_body(first));
            },
            None => {
                assert(due_in(first, rest, own) + due(last, values.last(), own) =~= due_in(
                    first,
                    rest,
                    own,
                ));
            },
        }
    }
}

} // verus!

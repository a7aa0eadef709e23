//! Emitted source code.

use vstd::prelude::*;
use vstd::string::*;

verus! {

/// A stretch of emitted code.
#[derive(Debug)]
pub enum Piece {
    /// Source text.
    Text(String),
    /// A string literal with this value.
    Str(String),
    /// The tokens of a `SourceType`, by their number.
    Tokens(usize),
    /// The item that carries the attribute, emitted again.
    Item,
}

/// A symbol of emitted code: a character of source text given by its code
/// point, a whole string literal given by its value, the tokens of a type given
/// by their number, or the annotated item.
pub enum Sym {
    Char(int),
    Str(Seq<char>),
    Tokens(usize),
    Item,
}

/// The code that consists of the source text `text`.
pub open spec fn code(text: Seq<char>) -> Seq<Sym> {
    text.map_values(|c: char| Sym::Char(c as int))
}

/// The code that consists of one string literal with the value `value`.
pub open spec fn literal(value: Seq<char>) -> Seq<Sym> {
    seq![Sym::Str(value)]
}

/// The code that consists of the tokens with the number `number`.
pub open spec fn source_tokens(number: usize) -> Seq<Sym> {
    seq![Sym::Tokens(number)]
}

/// The code that consists of the annotated item.
pub open spec fn annotated_item() -> Seq<Sym> {
    seq![Sym::Item]
}

impl Piece {
    pub open spec fn syms(self) -> Seq<Sym> {
        match self {
            Piece::Text(text) => code(text@),
            Piece::Str(value) => literal(value@),
            Piece::Tokens(number) => source_tokens(number),
            Piece::Item => annotated_item(),
        }
    }
}

/// Emitted code, put together from pieces.
#[derive(Debug)]
pub struct Code {
    pub pieces: Vec<Piece>,
}

/// The symbols of `pieces`, one piece after the other.
pub open spec fn flatten(pieces: Seq<Piece>) -> Seq<Sym>
    decreases pieces.len(),
{
    if pieces.len() == 0 {
        Seq::empty()
    } else {
        flatten(pieces.drop_last()) + pieces.last().syms()
    }
}

impl View for Code {
    type V = Seq<Sym>;

    open spec fn view(&self) -> Seq<Sym> {
        flatten(self.pieces@)
    }
}

/// The contents of each of `codes`.
pub open spec fn views(codes: Seq<Code>) -> Seq<Seq<Sym>> {
    codes.map_values(|c: Code| c@)
}

/// Each of `parts` followed by `end`, one after the other.
pub open spec fn terminated(parts: Seq<Seq<Sym>>, end: Seq<Sym>) -> Seq<Sym>
    decreases parts.len(),
{
    if parts.len() == 0 {
        Seq::empty()
    } else {
        terminated(parts.drop_last(), end) + parts.last() + end
    }
}

/// `parts` with `between` between each two neighbours.
pub open spec fn separated(parts: Seq<Seq<Sym>>, between: Seq<Sym>) -> Seq<Sym>
    decreases parts.len(),
{
    if parts.len() == 0 {
        Seq::empty()
    } else if parts.len() == 1 {
        parts[0]
    } else {
        separated(parts.drop_last(), between) + between + parts.last()
    }
}

/// Different texts are different code.
pub proof fn lemma_code_injective(left: Seq<char>, right: Seq<char>)
    requires
        code(left) == code(right),
    ensures
        left == right,
{
    assert(code(left).len() == left.len());
    assert(code(right).len() == right.len());
    assert forall|i: int| 0 <= i < left.len() implies left[i] == right[i] by {
        assert(code(left)[i] == Sym::Char(left[i] as int));
        assert(code(right)[i] == Sym::Char(right[i] as int));
    }
    assert(left =~= right);
}

proof fn lemma_flatten_push(pieces: Seq<Piece>, piece: Piece)
    ensures
        flatten(pieces.push(piece)) == flatten(pieces) + piece.syms(),
{
    assert(pieces.push(piece).drop_last() =~= pieces);
}

proof fn lemma_flatten_add(left: Seq<Piece>, right: Seq<Piece>)
    ensures
        flatten(left + right) == flatten(left) + flatten(right),
    decreases right.len(),
{
    if right.len() == 0 {
        assert(left + right =~= left);
        assert(flatten(left) + flatten(right) =~= flatten(left));
    } else {
        lemma_flatten_add(left, right.drop_last());
        assert((left + right).drop_last() =~= left + right.drop_last());
        assert(flatten(left + right) =~= flatten(left) + flatten(right));
    }
}

impl Code {
    /// No code at all.
    pub fn new() -> (r: Code)
        ensures
            r@ == Seq::<Sym>::empty(),
    {
        Code { pieces: Vec::new() }
    }

    /// The code with the source text `text`.
    pub fn from_text(text: &str) -> (r: Code)
        ensures
            r@ == code(text@),
    {
        let mut r = Code::new();
        r.text(text);
        assert(r@ =~= code(text@));
        r
    }

    fn push(&mut self, piece: Piece)
        ensures
            final(self)@ == old(self)@ + piece.syms(),
    {
        proof {
            lemma_flatten_push(self.pieces@, piece);
        }
        self.pieces.push(piece);
    }

    /// Adds the source text `text`.
    pub fn text(&mut self, text: &str)
        ensures
            final(self)@ == old(self)@ + code(text@),
    {
        self.push(Piece::Text(text.to_owned()));
    }

    /// Adds a string literal with the value `value`.
    pub fn literal(&mut self, value: &str)
        ensures
            final(self)@ == old(self)@ + literal(value@),
    {
        self.push(Piece::Str(value.to_owned()));
    }

    /// Adds the tokens with the number `number`.
    pub fn tokens(&mut self, number: usize)
        ensures
            final(self)@ == old(self)@ + source_tokens(number),
    {
        self.push(Piece::Tokens(number));
    }

    /// Adds the annotated item.
    pub fn item(&mut self)
        ensures
            final(self)@ == old(self)@ + annotated_item(),
    {
        self.push(Piece::Item);
    }

    /// Adds the code `other`.
    pub fn append(&mut self, other: &Code)
        ensures
            final(self)@ == old(self)@ + other@,
    {
        let ghost start = self@;
        let mut i: usize = 0;
        assert(start + flatten(other.pieces@.take(0)) =~= start);
        while i < other.pieces.len()
            invariant
                i <= other.pieces@.len(),
                self@ == start + flatten(other.pieces@.take(i as int)),
            decreases other.pieces@.len() - i,
        {
            match &other.pieces[i] {
                Piece::Text(text) => self.text(text.as_str()),
                Piece::Str(value) => self.literal(value.as_str()),
                Piece::Tokens(number) => self.tokens(*number),
                Piece::Item => self.item(),
            }
            proof {
                let next = other.pieces@.take(i + 1);
                assert(next.drop_last() =~= other.pieces@.take(i as int));
                assert(self@ =~= start + flatten(next));
            }
            i += 1;
        }
        assert(other.pieces@.take(i as int) =~= other.pieces@);
    }

    /// Adds each of `parts` followed by the text `end`.
    pub fn append_terminated(&mut self, parts: &Vec<Code>, end: &str)
        ensures
            final(self)@ == old(self)@ + terminated(views(parts@), code(end@)),
    {
        let ghost start = self@;
        let ghost all = views(parts@);
        let mut i: usize = 0;
        assert(start + terminated(all.take(0), code(end@)) =~= start);
        while i < parts.len()
            invariant
                i <= parts@.len(),
                all == views(parts@),
                self@ == start + terminated(all.take(i as int), code(end@)),
            decreases parts@.len() - i,
        {
            self.append(&parts[i]);
            self.text(end);
            proof {
                let next = all.take(i + 1);
                assert(next.drop_last() =~= all.take(i as int));
                assert(self@ =~= start + terminated(next, code(end@)));
            }
            i += 1;
        }
        assert(all.take(i as int) =~= all);
    }

    /// Adds `parts`, with the text `between` between each two neighbours.
    pub fn append_separated(&mut self, parts: &Vec<Code>, between: &str)
        ensures
            final(self)@ == old(self)@ + separated(views(parts@), code(between@)),
    {
        let ghost start = self@;
        let ghost all = views(parts@);
        let mut i: usize = 0;
        assert(start + separated(all.take(0), code(between@)) =~= start);
        while i < parts.len()
            invariant
                i <= parts@.len(),
                all == views(parts@),
                self@ == start + separated(all.take(i as int), code(between@)),
            decreases parts@.len() - i,
        {
            if i > 0 {
                self.text(between);
            }
            self.append(&parts[i]);
            proof {
                let next = all.take(i + 1);
                assert(next.drop_last() =~= all.take(i as int));
                assert(self@ =~= start + separated(next, code(between@)));
            }
            i += 1;
        }
        assert(all.take(i as int) =~= all);
    }
}

} // verus!

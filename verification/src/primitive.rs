use vstd::prelude::*;

verus! {

/// The built-in stack operations, each written in source as one symbol.
#[derive(Clone, Copy, Debug, PartialEq, Eq, Structural)]
pub enum Primitive {
    Pop,
    Duplicate,
    Flip,
    Call,
    Join,
    Pair,
    Index,
    Print,
    Add,
    Subtract,
    Multiply,
    Divide,
    Equals,
}

/// The symbol that denotes `p` in source text.
pub open spec fn symbol_of(p: Primitive) -> char {
    match p {
        Primitive::Pop => '.',
        Primitive::Duplicate => ':',
        Primitive::Flip => '⭥',
        Primitive::Call => '!',
        Primitive::Join => '”',
        Primitive::Pair => ',',
        Primitive::Index => '⤉',
        Primitive::Print => '↗',
        Primitive::Add => '+',
        Primitive::Subtract => '-',
        Primitive::Multiply => '×',
        Primitive::Divide => '÷',
        Primitive::Equals => '=',
    }
}

/// Whether `c` denotes a built-in operation.
pub open spec fn is_primitive_symbol(c: char) -> bool {
    c == '.' || c == ':' || c == '⭥' || c == '!' || c == '”' || c == ',' || c == '⤉' || c == '↗'
        || c == '+' || c == '-' || c == '×' || c == '÷' || c == '='
}

/// The operation that `c` denotes.
pub open spec fn primitive_of(c: char) -> Primitive
    recommends
        is_primitive_symbol(c),
{
    if c == '.' {
        Primitive::Pop
    } else if c == ':' {
        Primitive::Duplicate
    } else if c == '⭥' {
        Primitive::Flip
    } else if c == '!' {
        Primitive::Call
    } else if c == '”' {
        Primitive::Join
    } else if c == ',' {
        Primitive::Pair
    } else if c == '⤉' {
        Primitive::Index
    } else if c == '↗' {
        Primitive::Print
    } else if c == '+' {
        Primitive::Add
    } else if c == '-' {
        Primitive::Subtract
    } else if c == '×' {
        Primitive::Multiply
    } else if c == '÷' {
        Primitive::Divide
    } else {
        Primitive::Equals
    }
}

/// Each operation is the one that its own symbol denotes, and each symbol of
/// an operation denotes an operation that is written with it.
pub proof fn lemma_symbols_match(p: Primitive, c: char)
    ensures
        is_primitive_symbol(symbol_of(p)),
        primitive_of(symbol_of(p)) == p,
        is_primitive_symbol(c) ==> symbol_of(primitive_of(c)) == c,
{
}

impl Primitive {
    /// The symbol that denotes this operation.
    pub fn symbol(&self) -> (c: char)
        ensures
            c == symbol_of(*self),
    {
        match self {
            Primitive::Pop => '.',
            Primitive::Duplicate => ':',
            Primitive::Flip => '⭥',
            Primitive::Call => '!',
            Primitive::Join => '”',
            Primitive::Pair => ',',
            Primitive::Index => '⤉',
            Primitive::Print => '↗',
            Primitive::Add => '+',
            Primitive::Subtract => '-',
            Primitive::Multiply => '×',
            Primitive::Divide => '÷',
            Primitive::Equals => '=',
        }
    }

    /// The operation that the symbol `c` denotes.
    pub fn from_char(c: char) -> (p: Primitive)
        requires
            is_primitive_symbol(c),
        ensures
            p == primitive_of(c),
            symbol_of(p) == c,
    {
        if c == '.' {
            Primitive::Pop
        } else if c == ':' {
            Primitive::Duplicate
        } else if c == '⭥' {
            Primitive::Flip
        } else if c == '!' {
            Primitive::Call
        } else if c == '”' {
            Primitive::Join
        } else if c == ',' {
            Primitive::Pair
        } else if c == '⤉' {
            Primitive::Index
        } else if c == '↗' {
            Primitive::Print
        } else if c == '+' {
            Primitive::Add
        } else if c == '-' {
            Primitive::Subtract
        } else if c == '×' {
            Primitive::Multiply
        } else if c == '÷' {
            Primitive::Divide
        } else {
            Primitive::Equals
        }
    }
}

} // verus!

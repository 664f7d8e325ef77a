use crate::primitive::Primitive;
use vstd::prelude::*;

verus! {

/// The five kinds of value, as error messages name them.
#[derive(Clone, Copy, Debug, PartialEq, Eq, Structural)]
pub enum Kind {
    Number,
    String,
    List,
    Function,
    Null,
}

/// Everything that can stop a program, from its text to its last statement.
#[derive(Clone, Copy, Debug, PartialEq, Eq, Structural)]
pub enum JSLError {
    /// The text ended inside a string literal.
    UnterminatedString,
    /// A binding arrow was not followed by an identifier.
    ExpectedIdentifier,
    /// A function body was closed where none was open.
    UnexpectedClose,
    /// The tokens ended inside a function body.
    UnclosedFunction,
    /// A backslash in a string literal was followed by this character.
    InvalidEscape(char),
    /// The operation found fewer values on the stack than it takes.
    NotEnoughValues(Primitive),
    /// A call found something other than a function on top of the stack.
    InvalidFunction,
    /// An index was a number with a fractional part, or not finite.
    ExpectedIntegerIndex,
    /// The operation cannot work on values of these kinds; `top` is the kind
    /// of the value that was on top of the stack, `second` the one below it.
    Mismatch { op: Primitive, top: Kind, second: Kind },
}

pub type JSLResult<T> = Result<T, JSLError>;

/// The name of a kind of value.
pub open spec fn kind_name(k: Kind) -> Seq<char> {
    match k {
        Kind::Number => "number"@,
        Kind::String => "string"@,
        Kind::List => "list"@,
        Kind::Function => "function"@,
        Kind::Null => "null"@,
    }
}

/// The words by which a message names an operation: its symbol and its name.
pub open spec fn primitive_words(p: Primitive) -> Seq<char> {
    match p {
        Primitive::Pop => ". pop"@,
        Primitive::Duplicate => ": duplicate"@,
        Primitive::Flip => "⭥ flip"@,
        Primitive::Call => "! call"@,
        Primitive::Join => "” join"@,
        Primitive::Pair => ", pair"@,
        Primitive::Index => "⤉ index"@,
        Primitive::Print => "↗ print"@,
        Primitive::Add => "+ add"@,
        Primitive::Subtract => "- subtract"@,
        Primitive::Multiply => "× multiply"@,
        Primitive::Divide => "÷ divide"@,
        Primitive::Equals => "= equals"@,
    }
}

/// What a mismatch says: which operation failed on which kinds.
pub open spec fn mismatch_message(op: Primitive, top: Kind, second: Kind) -> Seq<char> {
    let x = kind_name(top);
    let y = kind_name(second);
    match op {
        Primitive::Join => "cannot join "@ + x + " and "@ + y,
        Primitive::Index => "cannot index "@ + y + " with "@ + x,
        Primitive::Add => "cannot add "@ + x + " and "@ + y + (if top == second && (top == Kind::String
            || top == Kind::List) {
            ". perhaps you meant to use ” join?"@
        } else {
            ""@
        }),
        Primitive::Subtract => "cannot subtract "@ + x + " from "@ + y,
        Primitive::Multiply => "cannot multiply "@ + x + " and "@ + y,
        Primitive::Divide => "cannot divide "@ + y + " by "@ + x,
        _ => "cannot apply "@ + primitive_words(op) + " to "@ + x + " and "@ + y,
    }
}

/// The text of an error, as it is shown after the prefix `error: `.
pub open spec fn message(e: JSLError) -> Seq<char> {
    match e {
        JSLError::UnterminatedString => "unterminated string"@,
        JSLError::ExpectedIdentifier => "expected identifier after →"@,
        JSLError::UnexpectedClose => "unexpected }"@,
        JSLError::UnclosedFunction => "expected } before end of input"@,
        JSLError::InvalidEscape(c) => "invalid escape sequence: \\"@.push(c),
        JSLError::NotEnoughValues(p) => "not enough values for "@ + primitive_words(p),
        JSLError::InvalidFunction => "invalid function"@,
        JSLError::ExpectedIntegerIndex => "expected integer index"@,
        JSLError::Mismatch { op, top, second } => mismatch_message(op, top, second),
    }
}

impl Kind {
    /// The name of this kind.
    pub fn name(&self) -> (s: &'static str)
        ensures
            s@ == kind_name(*self),
    {
        match self {
            Kind::Number => "number",
            Kind::String => "string",
            Kind::List => "list",
            Kind::Function => "function",
            Kind::Null => "null",
        }
    }
}

/// The symbol and the name of an operation.
pub fn words(p: Primitive) -> (s: &'static str)
    ensures
        s@ == primitive_words(p),
{
    match p {
        Primitive::Pop => ". pop",
        Primitive::Duplicate => ": duplicate",
        Primitive::Flip => "⭥ flip",
        Primitive::Call => "! call",
        Primitive::Join => "” join",
        Primitive::Pair => ", pair",
        Primitive::Index => "⤉ index",
        Primitive::Print => "↗ print",
        Primitive::Add => "+ add",
        Primitive::Subtract => "- subtract",
        Primitive::Multiply => "× multiply",
        Primitive::Divide => "÷ divide",
        Primitive::Equals => "= equals",
    }
}

fn between(a: &str, x: &str, b: &str, y: &str) -> (s: String)
    ensures
        s@ == a@ + x@ + b@ + y@,
{
    let mut s = String::from_str(a);
    s.append(x);
    s.append(b);
    s.append(y);
    s
}

impl JSLError {
    /// The text of this error.
    pub fn msg(&self) -> (s: String)
        ensures
            s@ == message(*self),
    {
        match self {
            JSLError::UnterminatedString => String::from_str("unterminated string"),
            JSLError::ExpectedIdentifier => String::from_str("expected identifier after →"),
            JSLError::UnexpectedClose => String::from_str("unexpected }"),
            JSLError::UnclosedFunction => String::from_str("expected } before end of input"),
            JSLError::InvalidEscape(c) => {
                let mut s = String::from_str("invalid escape sequence: \\");
                s.push(*c);
                s
            },
            JSLError::NotEnoughValues(p) => {
                let mut s = String::from_str("not enough values for ");
                s.append(words(*p));
                s
            },
            JSLError::InvalidFunction => String::from_str("invalid function"),
            JSLError::ExpectedIntegerIndex => String::from_str("expected integer index"),
            JSLError::Mismatch { op, top, second } => {
                let x = top.name();
                let y = second.name();
                match op {
                    Primitive::Join => between("cannot join ", x, " and ", y),
                    Primitive::Index => between("cannot index ", y, " with ", x),
                    Primitive::Add => {
                        let mut s = between("cannot add ", x, " and ", y);
                        let same = match (top, second) {
                            (Kind::String, Kind::String) => true,
                            (Kind::List, Kind::List) => true,
                            _ => false,
                        };
                        if same {
                            s.append(". perhaps you meant to use ” join?");
                        } else {
                            s.append("");
                        }
                        s
                    },
                    Primitive::Subtract => between("cannot subtract ", x, " from ", y),
                    Primitive::Multiply => between("cannot multiply ", x, " and ", y),
                    Primitive::Divide => between("cannot divide ", y, " by ", x),
                    _ => {
                        let mut s = between("cannot apply ", words(*op), " to ", x);
                        s.append(" and ");
                        s.append(y);
                        s
                    },
                }
            },
        }
    }
}

} // verus!

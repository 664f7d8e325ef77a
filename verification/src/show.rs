//! The text of a value. A number's digits are not made here: a number
//! appears in the text as a piece of its own, for the caller to write out.

use crate::primitive::Primitive;
use crate::value::{
    lemma_item_smaller,
    lemma_values_view,
    values_view,
    Statement,
    StatementView,
    Value,
    ValueView,
};
use vstd::prelude::*;

verus! {

/// A part of the text of a value.
#[derive(Debug)]
pub enum Piece {
    /// These characters, as they are.
    Text(String),
    /// The number with these bits, in decimal.
    Number(u64),
}

/// What a [`Piece`] stands for.
pub enum PieceView {
    Text(Seq<char>),
    Number(u64),
}

impl View for Piece {
    type V = PieceView;

    open spec fn view(&self) -> PieceView {
        match self {
            Piece::Text(s) => PieceView::Text(s@),
            Piece::Number(bits) => PieceView::Number(*bits),
        }
    }
}

/// The views of a sequence of pieces, in order.
pub open spec fn pieces_view(s: Seq<Piece>) -> Seq<PieceView> {
    s.map_values(|p: Piece| p@)
}

/// Whether `c` is a control character: one of the code points up to 1F, or
/// from 7F to 9F.
pub open spec fn is_control(c: char) -> bool {
    c as u32 <= 0x1f || 0x7f <= c as u32 <= 0x9f
}

/// The lower-case hexadecimal digit for a number below sixteen.
pub open spec fn hex_digit_of(n: u32) -> char {
    if n == 0 {
        '0'
    } else if n == 1 {
        '1'
    } else if n == 2 {
        '2'
    } else if n == 3 {
        '3'
    } else if n == 4 {
        '4'
    } else if n == 5 {
        '5'
    } else if n == 6 {
        '6'
    } else if n == 7 {
        '7'
    } else if n == 8 {
        '8'
    } else if n == 9 {
        '9'
    } else if n == 10 {
        'a'
    } else if n == 11 {
        'b'
    } else if n == 12 {
        'c'
    } else if n == 13 {
        'd'
    } else if n == 14 {
        'e'
    } else {
        'f'
    }
}

/// How one character of a string is written inside quotes.
pub open spec fn escaped(c: char) -> Seq<char> {
    if c == '\r' {
        seq!['\\', 'r']
    } else if c == '\n' {
        seq!['\\', 'n']
    } else if c == '\t' {
        seq!['\\', 't']
    } else if c == '"' {
        seq!['\\', '"']
    } else if c == '\\' {
        seq!['\\', '\\']
    } else if is_control(c) {
        seq!['\\', 'x', hex_digit_of(c as u32 / 16), hex_digit_of(c as u32 % 16)]
    } else {
        seq![c]
    }
}

/// How the characters of a string are written inside quotes.
pub open spec fn escape_text(s: Seq<char>) -> Seq<char>
    decreases s.len(),
{
    if s.len() == 0 {
        Seq::empty()
    } else {
        escape_text(s.drop_last()) + escaped(s.last())
    }
}

/// The text of a value as part of a list: a string stands in quotes, with
/// its special characters escaped.
pub open spec fn debug_of(v: ValueView) -> Seq<PieceView>
    decreases v,
{
    match v {
        ValueView::Number(bits) => seq![PieceView::Number(bits)],
        ValueView::String(s) => seq![PieceView::Text(seq!['"'] + escape_text(s) + seq!['"'])],
        ValueView::Function(_) => seq![PieceView::Text("{…}"@)],
        ValueView::List(items) => seq![PieceView::Text("[ "@)] + debug_items(items) + seq![
            PieceView::Text("]"@),
        ],
        ValueView::Null => seq![PieceView::Text("∅"@)],
    }
}

/// The text of the items of a list, each followed by a space.
pub open spec fn debug_items(items: Seq<ValueView>) -> Seq<PieceView>
    decreases items,
{
    if items.len() == 0 {
        Seq::empty()
    } else {
        debug_items(items.drop_last()) + debug_of(items.last()) + seq![PieceView::Text(" "@)]
    }
}

/// The text of a value as it is printed: a string stands as it is, and any
/// other value as it does inside a list.
pub open spec fn display_of(v: ValueView) -> Seq<PieceView> {
    match v {
        ValueView::String(s) => seq![PieceView::Text(s)],
        _ => debug_of(v),
    }
}

fn hex_digit(n: u32) -> (c: char)
    requires
        n < 16,
    ensures
        c == hex_digit_of(n),
{
    if n == 0 {
        '0'
    } else if n == 1 {
        '1'
    } else if n == 2 {
        '2'
    } else if n == 3 {
        '3'
    } else if n == 4 {
        '4'
    } else if n == 5 {
        '5'
    } else if n == 6 {
        '6'
    } else if n == 7 {
        '7'
    } else if n == 8 {
        '8'
    } else if n == 9 {
        '9'
    } else if n == 10 {
        'a'
    } else if n == 11 {
        'b'
    } else if n == 12 {
        'c'
    } else if n == 13 {
        'd'
    } else if n == 14 {
        'e'
    } else {
        'f'
    }
}

fn push_escaped(out: &mut String, c: char)
    ensures
        final(out)@ == old(out)@ + escaped(c),
{
    let n: u32 = c as u32;
    if c == '\r' {
        out.push('\\');
        out.push('r');
    } else if c == '\n' {
        out.push('\\');
        out.push('n');
    } else if c == '\t' {
        out.push('\\');
        out.push('t');
    } else if c == '"' {
        out.push('\\');
        out.push('"');
    } else if c == '\\' {
        out.push('\\');
        out.push('\\');
    } else if n <= 0x1f || (0x7f <= n && n <= 0x9f) {
        out.push('\\');
        out.push('x');
        out.push(hex_digit(n / 16));
        out.push(hex_digit(n % 16));
    } else {
        out.push(c);
    }
    assert(out@ =~= old(out)@ + escaped(c));
}

/// The characters of `s` inside quotes, with the special ones escaped.
pub fn quote(s: &String) -> (r: String)
    ensures
        r@ == seq!['"'] + escape_text(s@) + seq!['"'],
{
    let mut r = String::new();
    r.push('"');
    for c in it: s.as_str().chars()
        invariant
            it.seq() == s@,
            r@ == seq!['"'] + escape_text(s@.take(it.index() as int)),
    {
        let ghost before = r@;
        push_escaped(&mut r, c);
        proof {
            let n = it.index() as int;
            assert(s@.take(n + 1).drop_last() =~= s@.take(n));
            assert(r@ =~= seq!['"'] + escape_text(s@.take(n + 1)));
        }
    }
    proof {
        assert(s@.take(s@.len() as int) =~= s@);
    }
    r.push('"');
    assert(r@ =~= seq!['"'] + escape_text(s@) + seq!['"']);
    r
}

fn push_text(out: &mut Vec<Piece>, text: &str)
    ensures
        pieces_view(final(out)@) == pieces_view(old(out)@).push(PieceView::Text(text@)),
{
    out.push(Piece::Text(String::from_str(text)));
    assert(pieces_view(out@) =~= pieces_view(old(out)@).push(PieceView::Text(text@)));
}

impl Value {
    fn write_debug(&self, out: &mut Vec<Piece>)
        ensures
            pieces_view(final(out)@) == pieces_view(old(out)@) + debug_of(self@),
        decreases self,
    {
        match self {
            Value::Number(bits) => {
                out.push(Piece::Number(*bits));
            },
            Value::String(s) => {
                out.push(Piece::Text(quote(s)));
            },
            Value::Function(_) => {
                push_text(out, "{…}");
            },
            Value::List(items) => {
                push_text(out, "[ ");
                let mut i: usize = 0;
                while i < items.len()
                    invariant
                        i <= items.len(),
                        *self == Value::List(*items),
                        pieces_view(out@) == pieces_view(old(out)@) + seq![PieceView::Text("[ "@)]
                            + debug_items(values_view(items@).take(i as int)),
                    decreases items.len() - i,
                {
                    proof {
                        lemma_item_smaller(self, i as int);
                        lemma_values_view(items@);
                        let all = values_view(items@);
                        assert(all.take(i + 1).drop_last() =~= all.take(i as int));
                    }
                    items[i].write_debug(out);
                    push_text(out, " ");
                    i += 1;
                    proof {
                        assert(pieces_view(out@) =~= pieces_view(old(out)@) + seq![
                            PieceView::Text("[ "@),
                        ] + debug_items(values_view(items@).take(i as int)));
                    }
                }
                push_text(out, "]");
                proof {
                    let all = values_view(items@);
                    lemma_values_view(items@);
                    assert(all.take(i as int) =~= all);
                    assert(pieces_view(out@) =~= pieces_view(old(out)@) + debug_of(self@));
                }
            },
            Value::Null => {
                push_text(out, "∅");
            },
        }
        assert(pieces_view(out@) =~= pieces_view(old(out)@) + debug_of(self@));
    }

    /// The text of this value as it stands inside a list.
    pub fn debug(&self) -> (r: Vec<Piece>)
        ensures
            pieces_view(r@) == debug_of(self@),
    {
        let mut r: Vec<Piece> = Vec::new();
        self.write_debug(&mut r);
        assert(pieces_view(r@) =~= debug_of(self@));
        r
    }

    /// The text of this value as it is printed.
    pub fn display(&self) -> (r: Vec<Piece>)
        ensures
            pieces_view(r@) == display_of(self@),
    {
        match self {
            Value::String(s) => {
                let mut r: Vec<Piece> = Vec::new();
                r.push(Piece::Text(s.clone()));
                assert(pieces_view(r@) =~= display_of(self@));
                r
            },
            _ => self.debug(),
        }
    }
}

/// The name of an operation.
pub open spec fn primitive_name(p: Primitive) -> Seq<char> {
    match p {
        Primitive::Pop => "Pop"@,
        Primitive::Duplicate => "Duplicate"@,
        Primitive::Flip => "Flip"@,
        Primitive::Call => "Call"@,
        Primitive::Join => "Join"@,
        Primitive::Pair => "Pair"@,
        Primitive::Index => "Index"@,
        Primitive::Print => "Print"@,
        Primitive::Add => "Add"@,
        Primitive::Subtract => "Subtract"@,
        Primitive::Multiply => "Multiply"@,
        Primitive::Divide => "Divide"@,
        Primitive::Equals => "Equals"@,
    }
}

/// The text of a statement: a binding as the arrow and its name, a reading
/// as its name, a constant as it is printed, an operation as its name.
pub open spec fn statement_text(s: StatementView) -> Seq<PieceView> {
    match s {
        StatementView::Binding(name) => seq![PieceView::Text("→"@ + name)],
        StatementView::Identifier(name) => seq![PieceView::Text(name)],
        StatementView::Literal(value) => display_of(value),
        StatementView::Primitive(p) => seq![PieceView::Text(primitive_name(p))],
    }
}

fn name_of(p: Primitive) -> (s: &'static str)
    ensures
        s@ == primitive_name(p),
{
    match p {
        Primitive::Pop => "Pop",
        Primitive::Duplicate => "Duplicate",
        Primitive::Flip => "Flip",
        Primitive::Call => "Call",
        Primitive::Join => "Join",
        Primitive::Pair => "Pair",
        Primitive::Index => "Index",
        Primitive::Print => "Print",
        Primitive::Add => "Add",
        Primitive::Subtract => "Subtract",
        Primitive::Multiply => "Multiply",
        Primitive::Divide => "Divide",
        Primitive::Equals => "Equals",
    }
}

impl Statement {
    /// The text of this statement, for a listing of a program.
    pub fn debug(&self) -> (r: Vec<Piece>)
        ensures
            pieces_view(r@) == statement_text(self@),
    {
        let mut r: Vec<Piece> = Vec::new();
        match self {
            Statement::Binding(name) => {
                let mut text = String::from_str("→");
                text.append(name.as_str());
                r.push(Piece::Text(text));
            },
            Statement::Identifier(name) => {
                r.push(Piece::Text(name.clone()));
            },
            Statement::Literal(value) => {
                return value.display();
            },
            Statement::Primitive(p) => {
                push_text(&mut r, name_of(*p));
            },
        }
        assert(pieces_view(r@) =~= statement_text(self@));
        r
    }
}

} // verus!

//! The evaluator. A program runs as a machine that holds one stack of values
//! and one frame for each function that has been entered and not yet left.
//! [`Machine::step`] runs one statement. What the machine cannot do itself
//! (arithmetic on numbers, the decimal text of a number, output) it hands to
//! its caller as an [`Action`], and takes the answer as an [`Event`] with
//! the next step.

use crate::env::Env;
use crate::number::{position, position_of, Position, ONE, ZERO};
use crate::primitive::Primitive;
use crate::result::JSLError;
use crate::show::{display_of, pieces_view, Piece, PieceView};
use crate::value::{
    ast_view,
    kind_of,
    lemma_ast_view,
    lemma_values_view,
    lemma_values_view_push,
    values_equal,
    values_view,
    Statement,
    StatementView,
    Value,
    ValueView,
};
use vstd::prelude::*;

verus! {

/// A function body that is being run, or the program itself.
#[derive(Debug)]
pub struct Frame {
    /// The statements of the body.
    pub code: Vec<Statement>,
    /// How many of them have been run.
    pub cursor: usize,
    /// The variables that the body sees.
    pub vars: Env,
}

/// What a [`Frame`] stands for.
pub struct FrameView {
    pub code: Seq<StatementView>,
    pub cursor: nat,
    pub vars: Map<Seq<char>, ValueView>,
}

impl View for Frame {
    type V = FrameView;

    open spec fn view(&self) -> FrameView {
        FrameView { code: ast_view(self.code@), cursor: self.cursor as nat, vars: self.vars@ }
    }
}

/// The views of a sequence of frames, in order.
pub open spec fn frames_view(s: Seq<Frame>) -> Seq<FrameView> {
    s.map_values(|f: Frame| f@)
}

/// A running program: the stack that all its functions share, and the frames
/// of the functions entered, the innermost last.
#[derive(Debug)]
pub struct Machine {
    pub stack: Vec<Value>,
    pub frames: Vec<Frame>,
}

/// What a [`Machine`] stands for.
pub struct MachineView {
    pub stack: Seq<ValueView>,
    pub frames: Seq<FrameView>,
}

impl View for Machine {
    type V = MachineView;

    open spec fn view(&self) -> MachineView {
        MachineView { stack: values_view(self.stack@), frames: frames_view(self.frames@) }
    }
}

/// What the caller tells the machine with a step.
#[derive(Debug)]
pub enum Event {
    /// Nothing: the last action asked for no answer.
    Nothing,
    /// The result of the arithmetic that the last action asked for.
    Number(u64),
    /// The decimal text of the number that the last action asked about.
    Text(String),
}

/// What an [`Event`] stands for.
pub enum EventView {
    Nothing,
    Number(u64),
    Text(Seq<char>),
}

impl View for Event {
    type V = EventView;

    open spec fn view(&self) -> EventView {
        match self {
            Event::Nothing => EventView::Nothing,
            Event::Number(bits) => EventView::Number(*bits),
            Event::Text(s) => EventView::Text(s@),
        }
    }
}

/// What the machine asks of its caller after a step.
#[derive(Debug)]
pub enum Action {
    /// Nothing; take the next step.
    Proceed,
    /// Nothing; the program has run to its end.
    Finished,
    /// Write these pieces to the output, in order, and flush it.
    Print(Vec<Piece>),
    /// Compute `left op right`, where `op` is one of the four arithmetic
    /// operations, and answer with [`Event::Number`].
    Compute { op: Primitive, left: u64, right: u64 },
    /// Write the number out in decimal, and answer with [`Event::Text`].
    Format(u64),
}

/// What an [`Action`] stands for.
pub enum ActionView {
    Proceed,
    Finished,
    Print(Seq<PieceView>),
    Compute { op: Primitive, left: u64, right: u64 },
    Format(u64),
}

impl View for Action {
    type V = ActionView;

    open spec fn view(&self) -> ActionView {
        match self {
            Action::Proceed => ActionView::Proceed,
            Action::Finished => ActionView::Finished,
            Action::Print(pieces) => ActionView::Print(pieces_view(pieces@)),
            Action::Compute { op, left, right } => ActionView::Compute {
                op: *op,
                left: *left,
                right: *right,
            },
            Action::Format(bits) => ActionView::Format(*bits),
        }
    }
}

/// The view of what a step returns.
pub open spec fn outcome_view(r: Result<Action, JSLError>) -> Result<ActionView, JSLError> {
    match r {
        Ok(action) => Ok(action@),
        Err(error) => Err(error),
    }
}

/// The top of the stack, or null if the stack is empty.
pub open spec fn top_or_null(stack: Seq<ValueView>) -> ValueView {
    if stack.len() > 0 {
        stack.last()
    } else {
        ValueView::Null
    }
}

/// The stack without its top; an empty stack stays empty.
pub open spec fn without_top(stack: Seq<ValueView>) -> Seq<ValueView> {
    if stack.len() > 0 {
        stack.drop_last()
    } else {
        stack
    }
}

/// Whether `p` is one of the four arithmetic operations.
pub open spec fn is_arithmetic(p: Primitive) -> bool {
    p == Primitive::Add || p == Primitive::Subtract || p == Primitive::Multiply || p
        == Primitive::Divide
}

/// What an operation on two operands needs from outside before it can be
/// done, if anything; `x` was on top of the stack and `y` below it.
pub open spec fn request_of(p: Primitive, x: ValueView, y: ValueView, event: EventView) -> Option<
    ActionView,
> {
    if is_arithmetic(p) && x is Number && y is Number && !(event is Number) {
        Some(ActionView::Compute { op: p, left: y->Number_0, right: x->Number_0 })
    } else if p == Primitive::Join && x is String && y is Number && !(event is Text) {
        Some(ActionView::Format(y->Number_0))
    } else if p == Primitive::Join && x is Number && y is String && !(event is Text) {
        Some(ActionView::Format(x->Number_0))
    } else {
        None
    }
}

/// What joining `x`, from the top of the stack, with `y`, from below it,
/// gives; `text` is the decimal text of the one that is a number, where the
/// other is a string.
pub open spec fn join_of(x: ValueView, y: ValueView, text: Seq<char>) -> Result<
    ValueView,
    JSLError,
> {
    match (x, y) {
        (ValueView::String(a), ValueView::String(b)) => Ok(ValueView::String(a + b)),
        (ValueView::String(a), ValueView::Number(_)) => Ok(ValueView::String(a + text)),
        (ValueView::Number(_), ValueView::String(b)) => Ok(ValueView::String(text + b)),
        (ValueView::Function(a), ValueView::Function(b)) => Ok(ValueView::Function(b + a)),
        (ValueView::List(a), ValueView::List(b)) => Ok(ValueView::List(a + b)),
        (ValueView::List(a), _) => Ok(ValueView::List(a.push(y))),
        (_, ValueView::List(b)) => Ok(ValueView::List(seq![x] + b)),
        _ => Err(JSLError::Mismatch { op: Primitive::Join, top: kind_of(x), second: kind_of(y) }),
    }
}

/// What indexing `y` by `x` gives: the item or the character at the place
/// that the number `x` points to, or null where it points outside.
pub open spec fn index_of(x: ValueView, y: ValueView) -> Result<ValueView, JSLError> {
    match (x, y) {
        (ValueView::Number(i), ValueView::List(items)) => match position_of(
            i,
            items.len() as usize,
        ) {
            Position::Fraction => Err(JSLError::ExpectedIntegerIndex),
            Position::Outside => Ok(ValueView::Null),
            Position::At(k) => Ok(items[k as int]),
        },
        (ValueView::Number(i), ValueView::String(s)) => match position_of(i, s.len() as usize) {
            Position::Fraction => Err(JSLError::ExpectedIntegerIndex),
            Position::Outside => Ok(ValueView::Null),
            Position::At(k) => Ok(ValueView::String(seq![s[k as int]])),
        },
        _ => Err(JSLError::Mismatch { op: Primitive::Index, top: kind_of(x), second: kind_of(y) }),
    }
}

/// The value that an operation on two operands leaves in their place, or
/// the error it ends with; `x` was on top of the stack and `y` below it.
pub open spec fn result_of(p: Primitive, x: ValueView, y: ValueView, event: EventView) -> Result<
    ValueView,
    JSLError,
>
    recommends
        request_of(p, x, y, event) is None,
{
    match p {
        Primitive::Join => join_of(
            x,
            y,
            match event {
                EventView::Text(text) => text,
                _ => Seq::empty(),
            },
        ),
        Primitive::Pair => Ok(ValueView::List(seq![y, x])),
        Primitive::Index => index_of(x, y),
        Primitive::Equals => Ok(
            ValueView::Number(
                if values_equal(x, y) {
                    ONE
                } else {
                    ZERO
                },
            ),
        ),
        _ => match (x, y, event) {
            (ValueView::Number(_), ValueView::Number(_), EventView::Number(bits)) => Ok(
                ValueView::Number(bits),
            ),
            _ => Err(JSLError::Mismatch { op: p, top: kind_of(x), second: kind_of(y) }),
        },
    }
}

/// What a built-in operation other than a call does to the stack.
pub enum Applied {
    /// The operation is done: this is the stack after it, and this the
    /// action to return.
    Done { stack: Seq<ValueView>, action: ActionView },
    /// The operation waits for an answer to this action; nothing has changed.
    Ask { action: ActionView },
    /// The operation has failed with this error and has left this stack.
    Fail { stack: Seq<ValueView>, error: JSLError },
}

/// What the operation `p`, which is not a call, does to `stack`.
///
/// Pop, duplicate, flip and print make do with whatever the stack holds. Any
/// other operation takes the two values on top, and fails if there are fewer,
/// leaving the stack empty.
pub open spec fn apply_of(p: Primitive, stack: Seq<ValueView>, event: EventView) -> Applied {
    let n = stack.len() as int;
    match p {
        Primitive::Pop => Applied::Done { stack: without_top(stack), action: ActionView::Proceed },
        Primitive::Duplicate => Applied::Done {
            stack: stack.push(top_or_null(stack)),
            action: ActionView::Proceed,
        },
        Primitive::Flip => Applied::Done {
            stack: if n >= 2 {
                stack.take(n - 2).push(stack[n - 1]).push(stack[n - 2])
            } else {
                stack
            },
            action: ActionView::Proceed,
        },
        Primitive::Print => Applied::Done {
            stack: without_top(stack),
            action: ActionView::Print(display_of(top_or_null(stack))),
        },
        _ => if n < 2 {
            Applied::Fail { stack: Seq::empty(), error: JSLError::NotEnoughValues(p) }
        } else {
            let x = stack[n - 1];
            let y = stack[n - 2];
            match request_of(p, x, y, event) {
                Some(action) => Applied::Ask { action },
                None => match result_of(p, x, y, event) {
                    Ok(value) => Applied::Done {
                        stack: stack.take(n - 2).push(value),
                        action: ActionView::Proceed,
                    },
                    Err(error) => Applied::Fail { stack: stack.take(n - 2), error },
                },
            }
        },
    }
}

/// A machine after a step, and what the step returned.
pub struct Stepped {
    pub machine: MachineView,
    pub outcome: Result<ActionView, JSLError>,
}

/// One step of the machine.
///
/// With no frame left, or with the outermost frame at its end, the program
/// is finished and nothing changes. An inner frame at its end is dropped.
/// Otherwise the statement under the cursor of the innermost frame runs, and
/// the cursor moves past it, unless the statement waits for an answer.
///
/// A call whose statement is the last of its frame does not enter a new
/// frame: the called body takes the place of the frame's, and sees the same
/// variables. Any other call enters a frame with a copy of the variables.
pub open spec fn step_of(m: MachineView, event: EventView) -> Stepped {
    if m.frames.len() == 0 {
        Stepped { machine: m, outcome: Ok(ActionView::Finished) }
    } else {
        let frame = m.frames.last();
        let outer = m.frames.drop_last();
        if frame.cursor >= frame.code.len() {
            if outer.len() == 0 {
                Stepped { machine: m, outcome: Ok(ActionView::Finished) }
            } else {
                Stepped {
                    machine: MachineView { stack: m.stack, frames: outer },
                    outcome: Ok(ActionView::Proceed),
                }
            }
        } else {
            let moved = FrameView { cursor: frame.cursor + 1, ..frame };
            match frame.code[frame.cursor as int] {
                StatementView::Binding(name) => Stepped {
                    machine: MachineView {
                        stack: without_top(m.stack),
                        frames: outer.push(
                            FrameView {
                                vars: frame.vars.insert(name, top_or_null(m.stack)),
                                ..moved
                            },
                        ),
                    },
                    outcome: Ok(ActionView::Proceed),
                },
                StatementView::Identifier(name) => Stepped {
                    machine: MachineView {
                        stack: m.stack.push(
                            if frame.vars.contains_key(name) {
                                frame.vars[name]
                            } else {
                                ValueView::Null
                            },
                        ),
                        frames: outer.push(moved),
                    },
                    outcome: Ok(ActionView::Proceed),
                },
                StatementView::Literal(value) => Stepped {
                    machine: MachineView { stack: m.stack.push(value), frames: outer.push(moved) },
                    outcome: Ok(ActionView::Proceed),
                },
                StatementView::Primitive(Primitive::Call) => match top_or_null(m.stack) {
                    ValueView::Function(body) => {
                        let entered = FrameView { code: body, cursor: 0, vars: frame.vars };
                        Stepped {
                            machine: MachineView {
                                stack: without_top(m.stack),
                                frames: if frame.cursor + 1 < frame.code.len() {
                                    outer.push(moved).push(entered)
                                } else {
                                    outer.push(entered)
                                },
                            },
                            outcome: Ok(ActionView::Proceed),
                        }
                    },
                    _ => Stepped {
                        machine: MachineView {
                            stack: without_top(m.stack),
                            frames: outer.push(moved),
                        },
                        outcome: Err(JSLError::InvalidFunction),
                    },
                },
                StatementView::Primitive(p) => match apply_of(p, m.stack, event) {
                    Applied::Done { stack, action } => Stepped {
                        machine: MachineView { stack, frames: outer.push(moved) },
                        outcome: Ok(action),
                    },
                    Applied::Ask { action } => Stepped { machine: m, outcome: Ok(action) },
                    Applied::Fail { stack, error } => Stepped {
                        machine: MachineView { stack, frames: outer.push(moved) },
                        outcome: Err(error),
                    },
                },
            }
        }
    }
}

/// What [`apply`] has done.
#[derive(Debug)]
pub enum Effect {
    /// The operation is done; this is the action to return.
    Done(Action),
    /// The operation waits for an answer to this action; the stack is as it
    /// was.
    Ask(Action),
    /// The operation has failed.
    Fail(JSLError),
}

fn pop_or_null(stack: &mut Vec<Value>) -> (v: Value)
    ensures
        v@ == top_or_null(values_view(old(stack)@)),
        values_view(final(stack)@) == without_top(values_view(old(stack)@)),
{
    proof {
        lemma_values_view(stack@);
    }
    match stack.pop() {
        Some(v) => {
            proof {
                lemma_values_view(stack@);
                assert(values_view(stack@) =~= values_view(old(stack)@).drop_last());
            }
            v
        },
        None => Value::Null,
    }
}

fn push_value(stack: &mut Vec<Value>, v: Value)
    ensures
        values_view(final(stack)@) == values_view(old(stack)@).push(v@),
{
    stack.push(v);
    proof {
        lemma_values_view_push(old(stack)@, v);
    }
}

fn take_two(stack: &mut Vec<Value>) -> (r: (Value, Value))
    requires
        old(stack).len() >= 2,
    ensures
        r.0@ == values_view(old(stack)@)[old(stack).len() - 1],
        r.1@ == values_view(old(stack)@)[old(stack).len() - 2],
        values_view(final(stack)@) == values_view(old(stack)@).take(old(stack).len() - 2),
{
    proof {
        lemma_values_view(stack@);
    }
    let x = stack.pop().unwrap();
    let y = stack.pop().unwrap();
    proof {
        lemma_values_view(stack@);
        assert(values_view(stack@) =~= values_view(old(stack)@).take(old(stack).len() - 2));
    }
    (x, y)
}

fn is_arithmetic_op(p: Primitive) -> (r: bool)
    ensures
        r == is_arithmetic(p),
{
    match p {
        Primitive::Add => true,
        Primitive::Subtract => true,
        Primitive::Multiply => true,
        Primitive::Divide => true,
        _ => false,
    }
}

fn request(p: Primitive, x: &Value, y: &Value, event: &Event) -> (r: Option<Action>)
    ensures
        match r {
            Some(action) => request_of(p, x@, y@, event@) == Some(action@),
            None => request_of(p, x@, y@, event@) is None,
        },
{
    match (x, y) {
        (Value::Number(a), Value::Number(b)) => {
            let answered = match event {
                Event::Number(_) => true,
                _ => false,
            };
            if is_arithmetic_op(p) && !answered {
                Some(Action::Compute { op: p, left: *b, right: *a })
            } else {
                None
            }
        },
        (Value::String(_), Value::Number(b)) => {
            let answered = match event {
                Event::Text(_) => true,
                _ => false,
            };
            if p == Primitive::Join && !answered {
                Some(Action::Format(*b))
            } else {
                None
            }
        },
        (Value::Number(a), Value::String(_)) => {
            let answered = match event {
                Event::Text(_) => true,
                _ => false,
            };
            if p == Primitive::Join && !answered {
                Some(Action::Format(*a))
            } else {
                None
            }
        },
        _ => None,
    }
}

fn mismatch(p: Primitive, x: &Value, y: &Value) -> (e: JSLError)
    ensures
        e == (JSLError::Mismatch { op: p, top: kind_of(x@), second: kind_of(y@) }),
{
    JSLError::Mismatch { op: p, top: x.kind(), second: y.kind() }
}

fn join(x: Value, y: Value, text: String) -> (r: Result<Value, JSLError>)
    ensures
        match r {
            Ok(v) => join_of(x@, y@, text@) == Ok::<ValueView, JSLError>(v@),
            Err(e) => join_of(x@, y@, text@) == Err::<ValueView, JSLError>(e),
        },
{
    match x {
        Value::String(a) => match y {
            Value::String(b) => {
                let mut s = a;
                s.append(b.as_str());
                Ok(Value::String(s))
            },
            Value::Number(_) => {
                let mut s = a;
                s.append(text.as_str());
                Ok(Value::String(s))
            },
            Value::List(b) => Ok(prepend(Value::String(a), b)),
            _ => Err(mismatch(Primitive::Join, &Value::String(a), &y)),
        },
        Value::Number(a) => match y {
            Value::String(b) => {
                let mut s = text;
                s.append(b.as_str());
                Ok(Value::String(s))
            },
            Value::List(b) => Ok(prepend(Value::Number(a), b)),
            _ => Err(mismatch(Primitive::Join, &Value::Number(a), &y)),
        },
        Value::Function(a) => match y {
            Value::Function(b) => {
                let mut body = b;
                let mut tail = a;
                let ghost first = body@;
                let ghost second = tail@;
                body.append(&mut tail);
                proof {
                    lemma_ast_view(first);
                    lemma_ast_view(second);
                    lemma_ast_view(first + second);
                    assert(ast_view(first + second) =~= ast_view(first) + ast_view(second));
                }
                Ok(Value::Function(body))
            },
            Value::List(b) => Ok(prepend(Value::Function(a), b)),
            _ => Err(mismatch(Primitive::Join, &Value::Function(a), &y)),
        },
        Value::List(a) => {
            let mut items = a;
            let ghost first = items@;
            match y {
                Value::List(b) => {
                    let mut tail = b;
                    let ghost second = tail@;
                    items.append(&mut tail);
                    proof {
                        lemma_values_view(first);
                        lemma_values_view(second);
                        lemma_values_view(first + second);
                        assert(values_view(first + second) =~= values_view(first) + values_view(
                            second,
                        ));
                    }
                    Ok(Value::List(items))
                },
                _ => {
                    push_value(&mut items, y);
                    Ok(Value::List(items))
                },
            }
        },
        Value::Null => match y {
            Value::List(b) => Ok(prepend(Value::Null, b)),
            _ => Err(mismatch(Primitive::Join, &Value::Null, &y)),
        },
    }
}

fn prepend(x: Value, items: Vec<Value>) -> (r: Value)
    ensures
        r@ == ValueView::List(seq![x@] + values_view(items@)),
{
    let mut items = items;
    let ghost before = items@;
    items.insert(0, x);
    proof {
        lemma_values_view(before);
        lemma_values_view(items@);
        assert(values_view(items@) =~= seq![x@] + values_view(before));
    }
    Value::List(items)
}

fn index(x: Value, y: Value) -> (r: Result<Value, JSLError>)
    ensures
        match r {
            Ok(v) => index_of(x@, y@) == Ok::<ValueView, JSLError>(v@),
            Err(e) => index_of(x@, y@) == Err::<ValueView, JSLError>(e),
        },
{
    match (&x, &y) {
        (Value::Number(i), Value::List(items)) => {
            proof {
                lemma_values_view(items@);
            }
            match position(*i, items.len()) {
                Position::Fraction => Err(JSLError::ExpectedIntegerIndex),
                Position::Outside => Ok(Value::Null),
                Position::At(k) => Ok(items[k].copy()),
            }
        },
        (Value::Number(i), Value::String(s)) => {
            let text = s.as_str();
            match position(*i, text.unicode_len()) {
                Position::Fraction => Err(JSLError::ExpectedIntegerIndex),
                Position::Outside => Ok(Value::Null),
                Position::At(k) => {
                    let mut one = String::new();
                    one.push(text.get_char(k));
                    assert(one@ =~= seq![s@[k as int]]);
                    Ok(Value::String(one))
                },
            }
        },
        _ => Err(mismatch(Primitive::Index, &x, &y)),
    }
}

fn binary(p: Primitive, x: Value, y: Value, event: Event) -> (r: Result<Value, JSLError>)
    requires
        p != Primitive::Pop,
        p != Primitive::Duplicate,
        p != Primitive::Flip,
        p != Primitive::Print,
        p != Primitive::Call,
    ensures
        match r {
            Ok(v) => result_of(p, x@, y@, event@) == Ok::<ValueView, JSLError>(v@),
            Err(e) => result_of(p, x@, y@, event@) == Err::<ValueView, JSLError>(e),
        },
{
    match p {
        Primitive::Join => {
            let text = match event {
                Event::Text(text) => text,
                _ => String::new(),
            };
            join(x, y, text)
        },
        Primitive::Pair => {
            let mut items: Vec<Value> = Vec::new();
            push_value(&mut items, y);
            push_value(&mut items, x);
            assert(values_view(items@) =~= seq![y@, x@]);
            Ok(Value::List(items))
        },
        Primitive::Index => index(x, y),
        Primitive::Equals => Ok(
            Value::Number(
                if x.equals(&y) {
                    ONE
                } else {
                    ZERO
                },
            ),
        ),
        _ => match (&x, &y, &event) {
            (Value::Number(_), Value::Number(_), Event::Number(bits)) => Ok(Value::Number(*bits)),
            _ => Err(mismatch(p, &x, &y)),
        },
    }
}

/// Applies the operation `p`, which is not a call, to `stack`.
pub fn apply(p: Primitive, stack: &mut Vec<Value>, event: Event) -> (r: Effect)
    requires
        p != Primitive::Call,
    ensures
        match r {
            Effect::Done(action) => apply_of(p, values_view(old(stack)@), event@) == (Applied::Done {
                stack: values_view(final(stack)@),
                action: action@,
            }),
            Effect::Ask(action) => {
                &&& apply_of(p, values_view(old(stack)@), event@) == (Applied::Ask {
                    action: action@,
                })
                &&& values_view(final(stack)@) == values_view(old(stack)@)
            },
            Effect::Fail(error) => apply_of(p, values_view(old(stack)@), event@) == (Applied::Fail {
                stack: values_view(final(stack)@),
                error,
            }),
        },
{
    let n = stack.len();
    proof {
        lemma_values_view(stack@);
    }
    match p {
        Primitive::Pop => {
            let _ = pop_or_null(stack);
            Effect::Done(Action::Proceed)
        },
        Primitive::Duplicate => {
            let v = if n > 0 {
                stack[n - 1].copy()
            } else {
                Value::Null
            };
            push_value(stack, v);
            Effect::Done(Action::Proceed)
        },
        Primitive::Flip => {
            if n >= 2 {
                let (x, y) = take_two(stack);
                push_value(stack, x);
                push_value(stack, y);
            }
            Effect::Done(Action::Proceed)
        },
        Primitive::Print => {
            let v = pop_or_null(stack);
            Effect::Done(Action::Print(v.display()))
        },
        _ => {
            if n < 2 {
                stack.clear();
                assert(values_view(stack@) =~= Seq::empty());
                return Effect::Fail(JSLError::NotEnoughValues(p));
            }
            match request(p, &stack[n - 1], &stack[n - 2], &event) {
                Some(action) => Effect::Ask(action),
                None => {
                    let (x, y) = take_two(stack);
                    match binary(p, x, y, event) {
                        Ok(v) => {
                            push_value(stack, v);
                            Effect::Done(Action::Proceed)
                        },
                        Err(e) => Effect::Fail(e),
                    }
                },
            }
        },
    }
}

fn pop_frame(frames: &mut Vec<Frame>) -> (f: Frame)
    requires
        old(frames).len() > 0,
    ensures
        f@ == frames_view(old(frames)@).last(),
        frames_view(final(frames)@) == frames_view(old(frames)@).drop_last(),
{
    let f = frames.pop().unwrap();
    assert(frames_view(frames@) =~= frames_view(old(frames)@).drop_last());
    f
}

fn push_frame(frames: &mut Vec<Frame>, f: Frame)
    ensures
        frames_view(final(frames)@) == frames_view(old(frames)@).push(f@),
{
    frames.push(f);
    assert(frames_view(frames@) =~= frames_view(old(frames)@).push(f@));
}

impl Machine {
    /// A machine that is about to run `ast` on `stack`, with the variables
    /// `vars`.
    pub fn new(ast: Vec<Statement>, stack: Vec<Value>, vars: Env) -> (m: Machine)
        ensures
            m@ == (MachineView {
                stack: values_view(stack@),
                frames: seq![FrameView { code: ast_view(ast@), cursor: 0, vars: vars@ }],
            }),
    {
        let mut frames: Vec<Frame> = Vec::new();
        frames.push(Frame { code: ast, cursor: 0, vars });
        assert(frames_view(frames@) =~= seq![
            FrameView { code: ast_view(ast@), cursor: 0, vars: vars@ },
        ]);
        Machine { stack, frames }
    }

    /// Runs one statement, or leaves one frame.
    pub fn step(&mut self, event: Event) -> (r: Result<Action, JSLError>)
        ensures
            final(self)@ == step_of(old(self)@, event@).machine,
            outcome_view(r) == step_of(old(self)@, event@).outcome,
    {
        if self.frames.len() == 0 {
            return Ok(Action::Finished);
        }
        let mut frame = pop_frame(&mut self.frames);
        proof {
            lemma_ast_view(frame.code@);
        }
        if frame.cursor >= frame.code.len() {
            if self.frames.len() == 0 {
                push_frame(&mut self.frames, frame);
                assert(frames_view(self.frames@) =~= frames_view(old(self).frames@));
                return Ok(Action::Finished);
            }
            return Ok(Action::Proceed);
        }
        let cursor = frame.cursor;
        match &frame.code[cursor] {
            Statement::Binding(name) => {
                let name = name.clone();
                let v = pop_or_null(&mut self.stack);
                frame.vars.insert(name, v);
                frame.cursor = cursor + 1;
                push_frame(&mut self.frames, frame);
                Ok(Action::Proceed)
            },
            Statement::Identifier(name) => {
                let v = match frame.vars.get(name) {
                    Some(v) => v.copy(),
                    None => Value::Null,
                };
                push_value(&mut self.stack, v);
                frame.cursor = cursor + 1;
                push_frame(&mut self.frames, frame);
                Ok(Action::Proceed)
            },
            Statement::Literal(value) => {
                let v = value.copy();
                push_value(&mut self.stack, v);
                frame.cursor = cursor + 1;
                push_frame(&mut self.frames, frame);
                Ok(Action::Proceed)
            },
            Statement::Primitive(p) => {
                let p = *p;
                match p {
                    Primitive::Call => {
                        let callee = pop_or_null(&mut self.stack);
                        match callee {
                            Value::Function(body) => {
                                if cursor + 1 < frame.code.len() {
                                    let vars = frame.vars.copy();
                                    frame.cursor = cursor + 1;
                                    push_frame(&mut self.frames, frame);
                                    push_frame(&mut self.frames, Frame { code: body, cursor: 0, vars });
                                } else {
                                    frame.code = body;
                                    frame.cursor = 0;
                                    push_frame(&mut self.frames, frame);
                                }
                                Ok(Action::Proceed)
                            },
                            _ => {
                                frame.cursor = cursor + 1;
                                push_frame(&mut self.frames, frame);
                                Err(JSLError::InvalidFunction)
                            },
                        }
                    },
                    _ => match apply(p, &mut self.stack, event) {
                        Effect::Done(action) => {
                            frame.cursor = cursor + 1;
                            push_frame(&mut self.frames, frame);
                            Ok(action)
                        },
                        Effect::Ask(action) => {
                            push_frame(&mut self.frames, frame);
                            assert(frames_view(self.frames@) =~= frames_view(old(self).frames@));
                            Ok(action)
                        },
                        Effect::Fail(error) => {
                            frame.cursor = cursor + 1;
                            push_frame(&mut self.frames, frame);
                            Err(error)
                        },
                    },
                }
            },
        }
    }
}

/// Joining a function with the empty function, on either side, gives the
/// function back, statement for statement. A step looks at nothing but the
/// views of the values it works on, so the result runs as the function does.
pub proof fn lemma_join_with_empty_function(
    stack: Seq<ValueView>,
    body: Seq<StatementView>,
    event: EventView,
)
    ensures
        apply_of(
            Primitive::Join,
            stack.push(ValueView::Function(body)).push(ValueView::Function(Seq::empty())),
            event,
        ) == (Applied::Done {
            stack: stack.push(ValueView::Function(body)),
            action: ActionView::Proceed,
        }),
        apply_of(
            Primitive::Join,
            stack.push(ValueView::Function(Seq::empty())).push(ValueView::Function(body)),
            event,
        ) == (Applied::Done {
            stack: stack.push(ValueView::Function(body)),
            action: ActionView::Proceed,
        }),
{
    let empty = Seq::<StatementView>::empty();
    let left = stack.push(ValueView::Function(body)).push(ValueView::Function(empty));
    let right = stack.push(ValueView::Function(empty)).push(ValueView::Function(body));
    assert(body + empty =~= body);
    assert(empty + body =~= body);
    assert(left.take(left.len() - 2) =~= stack);
    assert(right.take(right.len() - 2) =~= stack);
}

/// Whether the next statement of the machine is a call that is the last
/// statement of its frame.
pub open spec fn at_tail_call(m: MachineView) -> bool {
    &&& m.frames.len() > 0
    &&& m.frames.last().cursor + 1 == m.frames.last().code.len()
    &&& m.frames.last().code[m.frames.last().cursor as int] == StatementView::Primitive(
        Primitive::Call,
    )
}

/// A step never adds more than one frame, and a call that is the last
/// statement of its frame adds none: however often a function calls itself
/// there, the machine gets no deeper.
pub proof fn lemma_tail_call_keeps_depth(m: MachineView, event: EventView)
    ensures
        step_of(m, event).machine.frames.len() <= m.frames.len() + 1,
        at_tail_call(m) ==> step_of(m, event).machine.frames.len() == m.frames.len(),
        at_tail_call(m) ==> step_of(m, event).machine.frames.drop_last() == m.frames.drop_last(),
        at_tail_call(m) && top_or_null(m.stack) is Function ==> step_of(
            m,
            event,
        ).machine.frames.last() == (FrameView {
            code: top_or_null(m.stack)->Function_0,
            cursor: 0,
            vars: m.frames.last().vars,
        }),
{
    if at_tail_call(m) {
        let outer = m.frames.drop_last();
        let after = step_of(m, event).machine.frames;
        assert(after.drop_last() =~= outer);
    }
}

/// An operation that takes two values fails on a stack that holds fewer,
/// with an error that names the operation, and leaves the stack empty.
pub proof fn lemma_too_few_values(p: Primitive, stack: Seq<ValueView>, event: EventView)
    requires
        stack.len() < 2,
        p != Primitive::Pop,
        p != Primitive::Duplicate,
        p != Primitive::Flip,
        p != Primitive::Print,
    ensures
        apply_of(p, stack, event) == (Applied::Fail {
            stack: Seq::empty(),
            error: JSLError::NotEnoughValues(p),
        }),
{
}

} // verus!

use crate::number::{is_nan, numbers_equal, same_number};
use crate::primitive::Primitive;
use crate::result::{kind_name, Kind};
use vstd::prelude::*;

verus! {

/// A runtime value. A number is held as the bit pattern of an IEEE-754
/// double; a function is the list of its statements.
#[derive(Debug)]
pub enum Value {
    Number(u64),
    String(String),
    Function(Vec<Statement>),
    List(Vec<Value>),
    Null,
}

/// One instruction of a program or of a function body.
#[derive(Debug)]
pub enum Statement {
    /// Take the top of the stack and store it under this name.
    Binding(String),
    /// Push the value stored under this name.
    Identifier(String),
    /// Push this constant.
    Literal(Value),
    /// Apply a built-in operation.
    Primitive(Primitive),
}

/// A program or a function body: statements in the order they run.
pub type AST = Vec<Statement>;

/// What a [`Value`] stands for.
pub enum ValueView {
    Number(u64),
    String(Seq<char>),
    Function(Seq<StatementView>),
    List(Seq<ValueView>),
    Null,
}

/// What a [`Statement`] stands for.
pub enum StatementView {
    Binding(Seq<char>),
    Identifier(Seq<char>),
    Literal(ValueView),
    Primitive(Primitive),
}

/// What `v` stands for.
pub open spec fn value_view(v: Value) -> ValueView
    decreases v,
{
    match v {
        Value::Number(bits) => ValueView::Number(bits),
        Value::String(s) => ValueView::String(s@),
        Value::Function(body) => ValueView::Function(ast_view(body@)),
        Value::List(items) => ValueView::List(values_view(items@)),
        Value::Null => ValueView::Null,
    }
}

/// What `s` stands for.
pub open spec fn statement_view(s: Statement) -> StatementView
    decreases s,
{
    match s {
        Statement::Binding(name) => StatementView::Binding(name@),
        Statement::Identifier(name) => StatementView::Identifier(name@),
        Statement::Literal(value) => StatementView::Literal(value_view(value)),
        Statement::Primitive(p) => StatementView::Primitive(p),
    }
}

/// The views of a sequence of values, in order.
pub open spec fn values_view(s: Seq<Value>) -> Seq<ValueView>
    decreases s,
{
    if s.len() == 0 {
        Seq::empty()
    } else {
        values_view(s.drop_last()).push(value_view(s.last()))
    }
}

/// The views of a sequence of statements, in order.
pub open spec fn ast_view(s: Seq<Statement>) -> Seq<StatementView>
    decreases s,
{
    if s.len() == 0 {
        Seq::empty()
    } else {
        ast_view(s.drop_last()).push(statement_view(s.last()))
    }
}

impl View for Value {
    type V = ValueView;

    open spec fn view(&self) -> ValueView {
        value_view(*self)
    }
}

impl View for Statement {
    type V = StatementView;

    open spec fn view(&self) -> StatementView {
        statement_view(*self)
    }
}

/// `values_view` works element by element.
pub proof fn lemma_values_view(s: Seq<Value>)
    ensures
        values_view(s).len() == s.len(),
        forall|i: int| 0 <= i < s.len() ==> #[trigger] values_view(s)[i] == s[i]@,
    decreases s.len(),
{
    if s.len() > 0 {
        lemma_values_view(s.drop_last());
    }
}

/// `ast_view` works element by element.
pub proof fn lemma_ast_view(s: Seq<Statement>)
    ensures
        ast_view(s).len() == s.len(),
        forall|i: int| 0 <= i < s.len() ==> #[trigger] ast_view(s)[i] == s[i]@,
    decreases s.len(),
{
    if s.len() > 0 {
        lemma_ast_view(s.drop_last());
    }
}

/// The view of a sequence with one more value is the view with one more view.
pub proof fn lemma_values_view_push(s: Seq<Value>, v: Value)
    ensures
        values_view(s.push(v)) == values_view(s).push(v@),
{
    assert(s.push(v).drop_last() =~= s);
}

/// The view of a body with one more statement is the view with one more view.
pub proof fn lemma_ast_view_push(s: Seq<Statement>, v: Statement)
    ensures
        ast_view(s.push(v)) == ast_view(s).push(v@),
{
    assert(s.push(v).drop_last() =~= s);
}

/// The kind of a value.
pub open spec fn kind_of(v: ValueView) -> Kind {
    match v {
        ValueView::Number(_) => Kind::Number,
        ValueView::String(_) => Kind::String,
        ValueView::Function(_) => Kind::Function,
        ValueView::List(_) => Kind::List,
        ValueView::Null => Kind::Null,
    }
}

/// Equality of values, as the equality operation of the language sees it:
/// numbers by their numeric value, strings by their text, lists item by
/// item, null with null. A function equals nothing, not even itself.
pub open spec fn values_equal(a: ValueView, b: ValueView) -> bool
    decreases a,
{
    match (a, b) {
        (ValueView::Number(x), ValueView::Number(y)) => numbers_equal(x, y),
        (ValueView::String(x), ValueView::String(y)) => x == y,
        (ValueView::List(x), ValueView::List(y)) => {
            &&& x.len() == y.len()
            &&& forall|i: int| 0 <= i < x.len() ==> values_equal(#[trigger] x[i], y[i])
        },
        (ValueView::Null, ValueView::Null) => true,
        _ => false,
    }
}

/// Equality does not depend on the side a value stands on.
pub proof fn lemma_equality_is_symmetric(a: ValueView, b: ValueView)
    ensures
        values_equal(a, b) == values_equal(b, a),
    decreases a,
{
    match (a, b) {
        (ValueView::List(x), ValueView::List(y)) => {
            if x.len() == y.len() {
                assert forall|i: int| 0 <= i < x.len() implies values_equal(x[i], y[i])
                    == values_equal(y[i], x[i]) by {
                    lemma_equality_is_symmetric(x[i], y[i]);
                }
                if values_equal(a, b) {
                    assert forall|i: int| 0 <= i < y.len() implies values_equal(
                        #[trigger] y[i],
                        x[i],
                    ) by {
                        assert(values_equal(x[i], y[i]));
                    }
                }
                if values_equal(b, a) {
                    assert forall|i: int| 0 <= i < x.len() implies values_equal(
                        #[trigger] x[i],
                        y[i],
                    ) by {
                        assert(values_equal(y[i], x[i]));
                    }
                }
            }
        },
        _ => {},
    }
}

/// Whether a value holds no function and no number that is not a number,
/// itself or in any of its items.
pub open spec fn comparable(v: ValueView) -> bool
    decreases v,
{
    match v {
        ValueView::Number(x) => !is_nan(x),
        ValueView::Function(_) => false,
        ValueView::List(items) => forall|i: int|
            0 <= i < items.len() ==> comparable(#[trigger] items[i]),
        _ => true,
    }
}

/// A value equals itself, unless it holds a function or a number that is
/// not a number: two lists of the same such items are equal.
pub proof fn lemma_equal_to_itself(v: ValueView)
    requires
        comparable(v),
    ensures
        values_equal(v, v),
    decreases v,
{
    match v {
        ValueView::List(items) => {
            assert forall|i: int| 0 <= i < items.len() implies values_equal(
                #[trigger] items[i],
                items[i],
            ) by {
                lemma_equal_to_itself(items[i]);
            }
        },
        _ => {},
    }
}

/// A function equals no value, on either side of the comparison.
pub proof fn lemma_function_equals_nothing(a: ValueView, b: ValueView)
    requires
        a is Function || b is Function,
    ensures
        !values_equal(a, b),
{
}

/// A list is larger than each of its items.
pub proof fn lemma_item_smaller(v: &Value, i: int)
    requires
        v is List,
        0 <= i < v->List_0@.len(),
    ensures
        decreases_to!(v => v->List_0@[i]),
{
    let l = v->List_0;
    assert(decreases_to!(*v => l));
    assert(decreases_to!(l => l@));
    assert(decreases_to!(l@ => l@[i]));
}

/// A function is larger than each of its statements.
pub proof fn lemma_statement_smaller(v: &Value, i: int)
    requires
        v is Function,
        0 <= i < v->Function_0@.len(),
    ensures
        decreases_to!(v => v->Function_0@[i]),
{
    let l = v->Function_0;
    assert(decreases_to!(*v => l));
    assert(decreases_to!(l => l@));
    assert(decreases_to!(l@ => l@[i]));
}

impl Statement {
    /// A copy of this statement that shares nothing with it.
    pub fn copy(&self) -> (r: Statement)
        ensures
            r@ == self@,
    {
        match self {
            Statement::Binding(name) => Statement::Binding(name.clone()),
            Statement::Identifier(name) => Statement::Identifier(name.clone()),
            Statement::Literal(value) => Statement::Literal(value.copy()),
            Statement::Primitive(p) => Statement::Primitive(*p),
        }
    }
}

impl Value {
    /// The kind of this value.
    pub fn kind(&self) -> (k: Kind)
        ensures
            k == kind_of(self@),
    {
        match self {
            Value::Number(_) => Kind::Number,
            Value::String(_) => Kind::String,
            Value::Function(_) => Kind::Function,
            Value::List(_) => Kind::List,
            Value::Null => Kind::Null,
        }
    }

    /// The name of this value's kind, as messages show it.
    pub fn type_str(&self) -> (s: &'static str)
        ensures
            s@ == kind_name(kind_of(self@)),
    {
        self.kind().name()
    }

    /// Whether this value equals `other`.
    pub fn equals(&self, other: &Value) -> (r: bool)
        ensures
            r == values_equal(self@, other@),
        decreases self,
    {
        match self {
            Value::Number(x) => match other {
                Value::Number(y) => same_number(*x, *y),
                _ => false,
            },
            Value::String(x) => match other {
                Value::String(y) => *x == *y,
                _ => false,
            },
            Value::List(x) => match other {
                Value::List(y) => {
                    proof {
                        lemma_values_view(x@);
                        lemma_values_view(y@);
                    }
                    if x.len() != y.len() {
                        return false;
                    }
                    let mut i: usize = 0;
                    while i < x.len()
                        invariant
                            i <= x.len(),
                            x.len() == y.len(),
                            *self == Value::List(*x),
                            *other == Value::List(*y),
                            forall|j: int| 0 <= j < i ==> values_equal(x@[j]@, y@[j]@),
                        decreases x.len() - i,
                    {
                        proof {
                            lemma_item_smaller(self, i as int);
                        }
                        if !x[i].equals(&y[i]) {
                            proof {
                                lemma_values_view(x@);
                                lemma_values_view(y@);
                                assert(!values_equal(values_view(x@)[i as int], values_view(y@)[i as int]));
                            }
                            return false;
                        }
                        i += 1;
                    }
                    proof {
                        lemma_values_view(x@);
                        lemma_values_view(y@);
                    }
                    true
                },
                _ => false,
            },
            Value::Function(_) => false,
            Value::Null => match other {
                Value::Null => true,
                _ => false,
            },
        }
    }

    /// A copy of this value that shares nothing with it.
    pub fn copy(&self) -> (r: Value)
        ensures
            r@ == self@,
        decreases self,
    {
        match self {
            Value::Number(bits) => Value::Number(*bits),
            Value::String(s) => Value::String(s.clone()),
            Value::Function(body) => {
                let mut out: Vec<Statement> = Vec::new();
                let mut i: usize = 0;
                while i < body.len()
                    invariant
                        i <= body.len(),
                        *self == Value::Function(*body),
                        out.len() == i,
                        forall|j: int| 0 <= j < i ==> (#[trigger] out@[j])@ == body@[j]@,
                    decreases body.len() - i,
                {
                    proof {
                        lemma_statement_smaller(self, i as int);
                    }
                    let e = match &body[i] {
                        Statement::Binding(name) => Statement::Binding(name.clone()),
                        Statement::Identifier(name) => Statement::Identifier(name.clone()),
                        Statement::Literal(value) => Statement::Literal(value.copy()),
                        Statement::Primitive(p) => Statement::Primitive(*p),
                    };
                    out.push(e);
                    i += 1;
                }
                proof {
                    lemma_ast_view(out@);
                    lemma_ast_view(body@);
                    assert(ast_view(out@) =~= ast_view(body@));
                }
                Value::Function(out)
            },
            Value::List(items) => {
                let mut out: Vec<Value> = Vec::new();
                let mut i: usize = 0;
                while i < items.len()
                    invariant
                        i <= items.len(),
                        *self == Value::List(*items),
                        out.len() == i,
                        forall|j: int| 0 <= j < i ==> (#[trigger] out@[j])@ == items@[j]@,
                    decreases items.len() - i,
                {
                    proof {
                        lemma_item_smaller(self, i as int);
                    }
                    let e = items[i].copy();
                    out.push(e);
                    i += 1;
                }
                proof {
                    lemma_values_view(out@);
                    lemma_values_view(items@);
                    assert(values_view(out@) =~= values_view(items@));
                }
                Value::List(out)
            },
            Value::Null => Value::Null,
        }
    }
}

impl Clone for Value {
    fn clone(&self) -> (r: Value)
        ensures
            r@ == self@,
    {
        self.copy()
    }
}

impl Clone for Statement {
    fn clone(&self) -> (r: Statement)
        ensures
            r@ == self@,
    {
        self.copy()
    }
}

impl PartialEq for Value {
    fn eq(&self, other: &Value) -> (r: bool) {
        self.equals(other)
    }
}

impl vstd::std_specs::cmp::PartialEqSpecImpl for Value {
    open spec fn obeys_eq_spec() -> bool {
        true
    }

    open spec fn eq_spec(&self, other: &Value) -> bool {
        values_equal(self@, other@)
    }
}

} // verus!

//! Runtime values of the virtual machine.
//!
//! A value carries a kind tag and a payload.  Compound payloads are
//! reference-counted and immutable.  Strings are byte vectors.  A scope
//! is a handle into the machine's frame arena: frames are never removed,
//! so a captured handle stays valid for as long as any value holds it.

use vstd::prelude::*;
use std::rc::Rc;

verus! {

/// A handle into the frame arena of the machine; `None` is the empty
/// scope chain.  The frame a handle names is the head of the chain, and
/// the chain continues through that frame's parent handle.
#[derive(Clone, Copy, Debug, PartialEq, Eq, Structural)]
pub struct Scope(pub Option<usize>);

/// The errors the machine can raise at run time.
#[derive(Clone, Copy, Debug, PartialEq, Eq, Structural)]
pub enum RuntimeError {
    /// An operand had the wrong kind for the instruction.
    NotNumber,
    NotBool,
    NotString,
    NotList,
    NotFunction,
    NotBlock,
    /// A block was accessed with a field name it does not have.
    UnknownField,
    /// A list was indexed outside `0..len`.
    IndexOutOfRange,
    /// Integer arithmetic left the representable range.
    Overflow,
    DivisionByZero,
    /// An instruction needed more operands than the value stack holds.
    StackUnderflow,
    /// `Return` was executed with no saved call frame.
    CallStackUnderflow,
    /// A built-in was called with the wrong number of arguments.
    Arity,
    /// A scope handle or binding slot did not name an existing frame
    /// or slot.
    CorruptScope,
    /// An address computation left the program, or an instruction's
    /// operands were malformed.
    CorruptProgram,
    /// The step budget given to `run` was exhausted.
    OutOfFuel,
}

/// The built-in operations exposed to programs through the seeded
/// standard-library blocks and through field access on list and string
/// values.
#[derive(Clone, Copy, Debug, PartialEq, Eq, Structural)]
pub enum ForeignKind {
    /// `List.range(a, b)`: the numbers `a, a+1, …, b-1`.
    ListRange,
    /// `List.concat(a, b)` or `l.concat(other)`.
    ListConcat,
    /// `s.concat(other)`.
    StringConcat,
    /// `s.split(pattern)`.
    StringSplit,
    /// `Map.keys(block)`: the field names of a block, in slot order.
    MapKeys,
    /// `l.filter(f)`: runs the seeded filter routine.
    ListFilter,
    /// `l.map(f)`: runs the seeded map routine.
    ListMap,
    /// `Map.values(block)`: runs the seeded values routine.
    MapValues,
}

/// A built-in function value.
#[derive(Clone, Copy, Debug, PartialEq, Eq, Structural)]
pub struct ForeignFunction(pub ForeignKind);

/// A function value: either compiled program code with its captured
/// scope, or a built-in, optionally bound to a receiver value.
#[derive(Debug)]
pub enum Function {
    /// `Native(id, entry, scope)`: the function's identity (used for
    /// tail-call recognition), the address of its body, and the scope
    /// chain captured at construction.
    Native(u64, usize, Scope),
    /// A built-in, with the receiver it was taken from (`l.concat`
    /// carries `l`), or none for the ones reached through a
    /// standard-library block.
    Foreign(ForeignFunction, Option<Rc<Value>>),
}

/// A block value: the address of its field-reading body, the mapping
/// from field name to slot index, and the captured scope.
#[derive(Debug)]
pub struct BlockValue {
    pub entry: usize,
    pub fields: Rc<Vec<(Vec<u8>, usize)>>,
    pub scope: Scope,
}

/// A runtime value.
#[derive(Debug)]
pub enum Value {
    Number(i64),
    Bool(bool),
    String(Rc<Vec<u8>>),
    Function(Function),
    List(Rc<Vec<Value>>),
    Null,
    Block(BlockValue),
}

/// The mathematical shape of a function value.  The receiver of a
/// built-in is a sequence of length zero or one.
pub enum FunctionV {
    Native(u64, usize, Scope),
    Foreign(ForeignFunction, Seq<ValueV>),
}

/// The mathematical shape of a block value.
pub struct BlockV {
    pub entry: usize,
    pub fields: Seq<(Seq<u8>, usize)>,
    pub scope: Scope,
}

/// The mathematical shape of a runtime value: payloads are sequences.
pub enum ValueV {
    Number(i64),
    Bool(bool),
    String(Seq<u8>),
    Function(FunctionV),
    List(Seq<ValueV>),
    Null,
    Block(BlockV),
}

impl Function {
    /// The mathematical shape of this function value.
    pub open spec fn model(self) -> FunctionV
        decreases self,
    {
        match self {
            Function::Native(id, entry, scope) => FunctionV::Native(id, entry, scope),
            Function::Foreign(f, recv) => FunctionV::Foreign(
                f,
                match recv {
                    Some(v) => seq![(*v).model()],
                    None => Seq::empty(),
                },
            ),
        }
    }
}

/// The mathematical shapes of a sequence of values, elementwise.
pub open spec fn models_of(s: Seq<Value>) -> Seq<ValueV>
    decreases s,
{
    if s.len() == 0 {
        Seq::empty()
    } else {
        models_of(s.drop_last()).push(s.last().model())
    }
}

/// `models_of` is the elementwise image of `Value::model`.
pub proof fn lemma_models_of(s: Seq<Value>)
    ensures
        models_of(s).len() == s.len(),
        forall|i: int| 0 <= i < s.len() ==> models_of(s)[i] == s[i].model(),
    decreases s.len(),
{
    if s.len() > 0 {
        lemma_models_of(s.drop_last());
    }
}

impl Value {
    /// The mathematical shape of this value.
    pub open spec fn model(self) -> ValueV
        decreases self,
    {
        match self {
            Value::Number(n) => ValueV::Number(n),
            Value::Bool(b) => ValueV::Bool(b),
            Value::String(s) => ValueV::String(s@),
            Value::Function(f) => ValueV::Function(f.model()),
            Value::List(items) => ValueV::List(models_of(items@)),
            Value::Null => ValueV::Null,
            Value::Block(b) => ValueV::Block(b@),
        }
    }
}

impl View for Function {
    type V = FunctionV;

    open spec fn view(&self) -> FunctionV {
        self.model()
    }
}

impl View for BlockValue {
    type V = BlockV;

    open spec fn view(&self) -> BlockV {
        BlockV {
            entry: self.entry,
            fields: self.fields@.map_values(|p: (Vec<u8>, usize)| (p.0@, p.1)),
            scope: self.scope,
        }
    }
}

impl View for Value {
    type V = ValueV;

    open spec fn view(&self) -> ValueV {
        self.model()
    }
}

impl Value {
    /// Wraps a number.
    pub fn number(n: i64) -> (r: Value)
        ensures
            r@ == ValueV::Number(n),
    {
        Value::Number(n)
    }

    /// The null value.
    pub fn null() -> (r: Value)
        ensures
            r@ == ValueV::Null,
    {
        Value::Null
    }

    /// Wraps a bool.
    pub fn bool(b: bool) -> (r: Value)
        ensures
            r@ == ValueV::Bool(b),
    {
        Value::Bool(b)
    }

    /// Wraps a string.
    pub fn string(s: Rc<Vec<u8>>) -> (r: Value)
        ensures
            r@ == ValueV::String(s@),
    {
        Value::String(s)
    }

    /// Wraps a function.
    pub fn function(f: Function) -> (r: Value)
        ensures
            r@ == ValueV::Function(f@),
    {
        Value::Function(f)
    }

    /// Wraps a list.
    pub fn list(items: Rc<Vec<Value>>) -> (r: Value)
        ensures
            r@ == ValueV::List(models_of(items@)),
    {
        Value::List(items)
    }

    /// Wraps a block.
    pub fn block(entry: usize, fields: Rc<Vec<(Vec<u8>, usize)>>, scope: Scope) -> (r: Value)
        ensures
            r@ == ValueV::Block(BlockValue { entry, fields, scope }@),
    {
        Value::Block(BlockValue { entry, fields, scope })
    }

    /// The number payload, or `NotNumber`.
    pub fn into_number(self) -> (r: Result<i64, RuntimeError>)
        ensures
            r == spec_into_number(self@),
    {
        match self {
            Value::Number(n) => Ok(n),
            _ => Err(RuntimeError::NotNumber),
        }
    }

    /// The bool payload, or `NotBool`.
    pub fn into_bool(self) -> (r: Result<bool, RuntimeError>)
        ensures
            r == spec_into_bool(self@),
    {
        match self {
            Value::Bool(b) => Ok(b),
            _ => Err(RuntimeError::NotBool),
        }
    }

    /// The string payload, or `NotString`.
    pub fn into_string(self) -> (r: Result<Rc<Vec<u8>>, RuntimeError>)
        ensures
            match r {
                Ok(s) => self@ == ValueV::String(s@),
                Err(e) => e == RuntimeError::NotString && !(self@ is String),
            },
    {
        match self {
            Value::String(s) => Ok(s),
            _ => Err(RuntimeError::NotString),
        }
    }

    /// The function payload, or `NotFunction`.
    pub fn into_function(self) -> (r: Result<Function, RuntimeError>)
        ensures
            match r {
                Ok(f) => self@ == ValueV::Function(f@),
                Err(e) => e == RuntimeError::NotFunction && !(self@ is Function),
            },
    {
        match self {
            Value::Function(f) => Ok(f),
            _ => Err(RuntimeError::NotFunction),
        }
    }

    /// The list payload, or `NotList`.
    pub fn into_list(self) -> (r: Result<Rc<Vec<Value>>, RuntimeError>)
        ensures
            match r {
                Ok(items) => self@ == ValueV::List(models_of(items@)),
                Err(e) => e == RuntimeError::NotList && !(self@ is List),
            },
    {
        match self {
            Value::List(items) => Ok(items),
            _ => Err(RuntimeError::NotList),
        }
    }

    /// The block payload, or `NotBlock`.
    pub fn into_block(self) -> (r: Result<BlockValue, RuntimeError>)
        ensures
            match r {
                Ok(b) => self@ == ValueV::Block(b@),
                Err(e) => e == RuntimeError::NotBlock && !(self@ is Block),
            },
    {
        match self {
            Value::Block(b) => Ok(b),
            _ => Err(RuntimeError::NotBlock),
        }
    }

    /// A copy of this value.  Compound payloads are shared, not copied.
    pub fn duplicate(&self) -> (r: Value)
        ensures
            r@ == self@,
    {
        match self {
            Value::Number(n) => Value::Number(*n),
            Value::Bool(b) => Value::Bool(*b),
            Value::String(s) => Value::String(s.clone()),
            Value::Function(f) => Value::Function(f.duplicate()),
            Value::List(items) => Value::List(items.clone()),
            Value::Null => Value::Null,
            Value::Block(b) => Value::Block(
                BlockValue { entry: b.entry, fields: b.fields.clone(), scope: b.scope },
            ),
        }
    }
}

impl Function {
    /// A copy of this function value; the captured payloads are shared.
    pub fn duplicate(&self) -> (r: Function)
        ensures
            r@ == self@,
    {
        match self {
            Function::Native(id, entry, scope) => Function::Native(*id, *entry, *scope),
            Function::Foreign(f, recv) => Function::Foreign(
                *f,
                match recv {
                    Some(v) => Some(v.clone()),
                    None => None,
                },
            ),
        }
    }
}

/// What `into_number` returns: the payload of a number, `NotNumber`
/// otherwise.
pub open spec fn spec_into_number(v: ValueV) -> Result<i64, RuntimeError> {
    match v {
        ValueV::Number(n) => Ok(n),
        _ => Err(RuntimeError::NotNumber),
    }
}

/// What `into_bool` returns: the payload of a bool, `NotBool` otherwise.
pub open spec fn spec_into_bool(v: ValueV) -> Result<bool, RuntimeError> {
    match v {
        ValueV::Bool(b) => Ok(b),
        _ => Err(RuntimeError::NotBool),
    }
}

/// Equality between values, as the language defines it: numbers, bools,
/// strings and lists compare structurally, nulls are equal, and every
/// other pairing — functions and blocks included — is unequal.
pub open spec fn spec_value_eq(a: ValueV, b: ValueV) -> bool
    decreases a,
{
    match (a, b) {
        (ValueV::Number(x), ValueV::Number(y)) => x == y,
        (ValueV::Bool(x), ValueV::Bool(y)) => x == y,
        (ValueV::String(x), ValueV::String(y)) => x == y,
        (ValueV::List(x), ValueV::List(y)) => {
            x.len() == y.len() && forall|i: int|
                0 <= i < x.len() ==> spec_value_eq(#[trigger] x[i], y[i])
        },
        (ValueV::Null, ValueV::Null) => true,
        _ => false,
    }
}

/// Byte-string equality.
pub fn bytes_eq(a: &Vec<u8>, b: &Vec<u8>) -> (r: bool)
    ensures
        r <==> a@ == b@,
{
    if a.len() != b.len() {
        assert(a@ != b@);
        return false;
    }
    let mut i: usize = 0;
    while i < a.len()
        invariant
            i <= a.len(),
            a.len() == b.len(),
            forall|j: int| 0 <= j < i ==> a@[j] == b@[j],
        decreases a.len() - i,
    {
        if a[i] != b[i] {
            return false;
        }
        i += 1;
    }
    assert(a@ =~= b@);
    true
}

/// Equality between values, per `spec_value_eq`.
pub fn value_eq(a: &Value, b: &Value) -> (r: bool)
    ensures
        r == spec_value_eq(a@, b@),
    decreases a,
{
    match (a, b) {
        (Value::Number(x), Value::Number(y)) => *x == *y,
        (Value::Bool(x), Value::Bool(y)) => *x == *y,
        (Value::String(x), Value::String(y)) => bytes_eq(x, y),
        (Value::List(x), Value::List(y)) => {
            proof {
                lemma_models_of(x@);
                lemma_models_of(y@);
            }
            let ghost xv = models_of(x@);
            let ghost yv = models_of(y@);
            if x.len() != y.len() {
                return false;
            }
            let mut i: usize = 0;
            while i < x.len()
                invariant
                    *a matches Value::List(l) && l == *x,
                    *b matches Value::List(m) && m == *y,
                    i <= x.len(),
                    x@.len() == y@.len(),
                    xv == models_of(x@),
                    yv == models_of(y@),
                    xv.len() == x@.len(),
                    yv.len() == y@.len(),
                    forall|j: int| 0 <= j < xv.len() ==> xv[j] == x@[j].model(),
                    forall|j: int| 0 <= j < yv.len() ==> yv[j] == y@[j].model(),
                    forall|j: int| 0 <= j < i ==> spec_value_eq(#[trigger] xv[j], yv[j]),
                decreases x@.len() - i,
            {
                proof {
                    assert(decreases_to!(*a => a->List_0));
                    assert(decreases_to!(a->List_0 => (a->List_0)@));
                    assert(decreases_to!((a->List_0)@ => (a->List_0)@[i as int]));
                    assert(decreases_to!(*a => x@[i as int]));
                }
                if !value_eq(&x[i], &y[i]) {
                    assert(!spec_value_eq(xv[i as int], yv[i as int]));
                    assert(a@ == ValueV::List(xv) && b@ == ValueV::List(yv));
                    return false;
                }
                i += 1;
            }
            true
        },
        (Value::Null, Value::Null) => true,
        _ => {
            assert(!spec_value_eq(a@, b@));
            false
        },
    }
}

} // verus!

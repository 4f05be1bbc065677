//! Runtime values produced by the evaluator: 64-bit integers and booleans,
//! each able to render itself as text.

use vstd::prelude::*;

verus! {

/// Tag of a runtime value.
#[derive(Debug, Clone, Copy, PartialEq, Eq, Structural)]
pub enum ObjectType {
    Integer64,
    Boolean,
}

/// The decimal digit character for `d`, which must lie in `0 ..= 9`.
pub open spec fn dec_digit(d: int) -> char {
    if d == 0 {
        '0'
    } else if d == 1 {
        '1'
    } else if d == 2 {
        '2'
    } else if d == 3 {
        '3'
    } else if d == 4 {
        '4'
    } else if d == 5 {
        '5'
    } else if d == 6 {
        '6'
    } else if d == 7 {
        '7'
    } else if d == 8 {
        '8'
    } else {
        '9'
    }
}

/// Decimal rendering of a non-negative integer, most significant digit first.
pub open spec fn dec_chars_nat(n: nat) -> Seq<char>
    decreases n,
{
    if n < 10 {
        seq![dec_digit(n as int)]
    } else {
        dec_chars_nat(n / 10) + seq![dec_digit(n as int % 10)]
    }
}

/// Decimal rendering of an integer: a minus sign followed by the magnitude
/// for negative values, the plain magnitude otherwise.
pub open spec fn dec_chars(v: int) -> Seq<char> {
    if v < 0 {
        seq!['-'] + dec_chars_nat((-v) as nat)
    } else {
        dec_chars_nat(v as nat)
    }
}

/// Text of a boolean value.
pub open spec fn bool_chars(b: bool) -> Seq<char> {
    if b {
        "true"@
    } else {
        "false"@
    }
}

/// A runtime value knows its tag and can render itself as text.
pub trait Object {
    /// Tag of this value, at the specification level.
    spec fn type_spec(&self) -> ObjectType;

    /// Text rendering of this value, at the specification level.
    spec fn text_spec(&self) -> Seq<char>;

    fn get_type(&self) -> (t: ObjectType)
        ensures
            t == self.type_spec(),
    ;

    fn inspect(&self) -> (s: String)
        ensures
            s@ == self.text_spec(),
    ;
}

/// A 64-bit signed integer value.
#[derive(Debug, Clone, Copy, PartialEq, Eq, Structural)]
pub struct Integer {
    pub value: i64,
}

/// A boolean value.
#[derive(Debug, Clone, Copy, PartialEq, Eq, Structural)]
pub struct Boolean {
    pub value: bool,
}

/// A single decimal digit as a string slice.
fn digit_str(d: u64) -> (s: &'static str)
    requires
        d < 10,
    ensures
        s@ == seq![dec_digit(d as int)],
{
    proof {
        reveal_strlit("0");
        reveal_strlit("1");
        reveal_strlit("2");
        reveal_strlit("3");
        reveal_strlit("4");
        reveal_strlit("5");
        reveal_strlit("6");
        reveal_strlit("7");
        reveal_strlit("8");
        reveal_strlit("9");
    }
    let s: &'static str = if d == 0 {
        "0"
    } else if d == 1 {
        "1"
    } else if d == 2 {
        "2"
    } else if d == 3 {
        "3"
    } else if d == 4 {
        "4"
    } else if d == 5 {
        "5"
    } else if d == 6 {
        "6"
    } else if d == 7 {
        "7"
    } else if d == 8 {
        "8"
    } else {
        "9"
    };
    proof {
        assert(s@ =~= seq![dec_digit(d as int)]);
    }
    s
}

/// Decimal rendering of a `u64`, following `dec_chars_nat` digit by digit.
pub fn u64_to_string(n: u64) -> (s: String)
    ensures
        s@ == dec_chars_nat(n as nat),
    decreases n,
{
    if n < 10 {
        let s = digit_str(n).to_owned();
        proof {
            assert(s@ =~= dec_chars_nat(n as nat));
        }
        s
    } else {
        let mut s = u64_to_string(n / 10);
        s.append(digit_str(n % 10));
        proof {
            assert(s@ =~= dec_chars_nat(n as nat));
        }
        s
    }
}

/// Magnitude of an `i64` as a `u64`; defined for every value, the minimum
/// included.
pub fn i64_magnitude(v: i64) -> (m: u64)
    ensures
        v >= 0 ==> m == v,
        v < 0 ==> m == -(v as int),
{
    if v >= 0 {
        v as u64
    } else {
        ((-(v + 1)) as u64) + 1
    }
}

/// Decimal rendering of an `i64`, sign included.
pub fn i64_to_string(v: i64) -> (s: String)
    ensures
        s@ == dec_chars(v as int),
{
    let m = i64_magnitude(v);
    if v >= 0 {
        u64_to_string(m)
    } else {
        proof {
            reveal_strlit("-");
        }
        let digits = u64_to_string(m);
        let s = "-".to_owned().concat(digits.as_str());
        proof {
            assert(s@ =~= dec_chars(v as int));
        }
        s
    }
}

impl Object for Integer {
    open spec fn type_spec(&self) -> ObjectType {
        ObjectType::Integer64
    }

    open spec fn text_spec(&self) -> Seq<char> {
        dec_chars(self.value as int)
    }

    fn get_type(&self) -> (t: ObjectType)
        ensures
            t == self.type_spec(),
    {
        ObjectType::Integer64
    }

    fn inspect(&self) -> (s: String)
        ensures
            s@ == self.text_spec(),
    {
        i64_to_string(self.value)
    }
}

impl Object for Boolean {
    open spec fn type_spec(&self) -> ObjectType {
        ObjectType::Boolean
    }

    open spec fn text_spec(&self) -> Seq<char> {
        bool_chars(self.value)
    }

    fn get_type(&self) -> (t: ObjectType)
        ensures
            t == self.type_spec(),
    {
        ObjectType::Boolean
    }

    fn inspect(&self) -> (s: String)
        ensures
            s@ == self.text_spec(),
    {
        if self.value {
            "true".to_owned()
        } else {
            "false".to_owned()
        }
    }
}

/// A runtime value: the closed set of variants the evaluator can produce.
#[derive(Debug, Clone, Copy, PartialEq, Eq, Structural)]
pub enum Value {
    Int(Integer),
    Bool(Boolean),
}

impl Value {
    /// Tag of this value.
    pub open spec fn type_spec(&self) -> ObjectType {
        match self {
            Value::Int(_) => ObjectType::Integer64,
            Value::Bool(_) => ObjectType::Boolean,
        }
    }

    /// Text rendering of this value, at the specification level.
    pub open spec fn text_spec(&self) -> Seq<char> {
        match self {
            Value::Int(i) => dec_chars(i.value as int),
            Value::Bool(b) => bool_chars(b.value),
        }
    }

    /// Convenience constructor for an integer value.
    pub fn of_i64(value: i64) -> (v: Value)
        ensures
            v == Value::Int(Integer { value }),
    {
        Value::Int(Integer { value })
    }

    /// Convenience constructor for a boolean value.
    pub fn of_bool(value: bool) -> (v: Value)
        ensures
            v == Value::Bool(Boolean { value }),
    {
        Value::Bool(Boolean { value })
    }

    pub fn get_type(&self) -> (t: ObjectType)
        ensures
            t == self.type_spec(),
    {
        match self {
            Value::Int(_) => ObjectType::Integer64,
            Value::Bool(_) => ObjectType::Boolean,
        }
    }

    pub fn inspect(&self) -> (s: String)
        ensures
            s@ == self.text_spec(),
    {
        match self {
            Value::Int(i) => i.inspect(),
            Value::Bool(b) => b.inspect(),
        }
    }
}

} // verus!

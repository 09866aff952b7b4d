//! The tagged value representation.
use vstd::prelude::*;
use crate::number::{number_eq, number_equal, NumberHost};
use crate::text::{push_chars, push_str, string_of};
use crate::object::{Obj, ObjString, ObjType, StringTable};

verus! {

/// The active variant of a value. Numbers are binary64 bit patterns.
#[derive(Clone, Copy, Debug, PartialEq, Eq, Structural)]
pub enum ValueType {
    ValBool(bool),
    ValNil,
    ValNumber(u64),
    ValObj(Obj),
}

/// A value of the language.
#[derive(Clone, Copy, Debug, PartialEq, Eq, Structural)]
pub struct Value {
    pub value_type: ValueType,
}

/// The constant pool of a chunk.
pub struct ValueArray {
    pub values: Vec<Value>,
}

/// `nil` and `false` are falsey; every other value is truthy.
pub open spec fn is_falsey(v: Value) -> bool {
    match v.value_type {
        ValueType::ValNil => true,
        ValueType::ValBool(b) => !b,
        _ => false,
    }
}

/// Variant-aware equality: values of different variants are never equal,
/// numbers compare as IEEE-754 values, strings by their interned reference.
pub open spec fn values_equal(a: Value, b: Value) -> bool {
    match (a.value_type, b.value_type) {
        (ValueType::ValBool(x), ValueType::ValBool(y)) => x == y,
        (ValueType::ValNil, ValueType::ValNil) => true,
        (ValueType::ValNumber(x), ValueType::ValNumber(y)) => number_eq(x, y),
        (ValueType::ValObj(x), ValueType::ValObj(y)) => x == y,
        _ => false,
    }
}

/// The value is a string object.
pub open spec fn is_string(v: Value) -> bool {
    v.value_type is ValObj
}

/// The string that a string value refers to.
pub open spec fn string_ref(v: Value) -> ObjString {
    match v.value_type {
        ValueType::ValObj(o) => match o.type_of_object {
            ObjType::ObjString(s) => s,
        },
        _ => ObjString { index: 0 },
    }
}

impl Value {
    #[allow(non_snake_case)]
    pub fn IsBool(self) -> (r: bool)
        ensures
            r == (self.value_type is ValBool),
    {
        match self.value_type {
            ValueType::ValBool(_) => true,
            _ => false,
        }
    }

    #[allow(non_snake_case)]
    pub fn IsNumber(self) -> (r: bool)
        ensures
            r == (self.value_type is ValNumber),
    {
        match self.value_type {
            ValueType::ValNumber(_) => true,
            _ => false,
        }
    }

    #[allow(non_snake_case)]
    pub fn IsNil(self) -> (r: bool)
        ensures
            r == (self.value_type is ValNil),
    {
        match self.value_type {
            ValueType::ValNil => true,
            _ => false,
        }
    }

    #[allow(non_snake_case)]
    pub fn IsObject(self) -> (r: bool)
        ensures
            r == (self.value_type is ValObj),
    {
        match self.value_type {
            ValueType::ValObj(_) => true,
            _ => false,
        }
    }

    #[allow(non_snake_case)]
    pub fn IsString(self) -> (r: bool)
        ensures
            r == is_string(self),
    {
        match self.value_type {
            ValueType::ValObj(o) => match o.type_of_object {
                ObjType::ObjString(_) => true,
            },
            _ => false,
        }
    }

    #[allow(non_snake_case)]
    pub fn GetBool(self) -> (r: bool)
        requires
            self.value_type is ValBool,
        ensures
            r == self.value_type->ValBool_0,
    {
        match self.value_type {
            ValueType::ValBool(b) => b,
            _ => false,
        }
    }

    #[allow(non_snake_case)]
    pub fn GetNumber(self) -> (r: u64)
        requires
            self.value_type is ValNumber,
        ensures
            r == self.value_type->ValNumber_0,
    {
        match self.value_type {
            ValueType::ValNumber(n) => n,
            _ => 0,
        }
    }

    #[allow(non_snake_case)]
    pub fn GetObject(self) -> (r: Obj)
        requires
            self.value_type is ValObj,
        ensures
            r == self.value_type->ValObj_0,
    {
        match self.value_type {
            ValueType::ValObj(o) => o,
            _ => Obj { type_of_object: ObjType::ObjString(ObjString { index: 0 }) },
        }
    }

    /// The interned string that a string value refers to.
    #[allow(non_snake_case)]
    pub fn GetString(self) -> (r: ObjString)
        requires
            is_string(self),
        ensures
            r == string_ref(self),
    {
        match self.value_type {
            ValueType::ValObj(o) => match o.type_of_object {
                ObjType::ObjString(s) => s,
            },
            _ => ObjString { index: 0 },
        }
    }

    #[allow(non_snake_case)]
    pub fn Equals(self, b: Value) -> (r: bool)
        ensures
            r == values_equal(self, b),
    {
        match (self.value_type, b.value_type) {
            (ValueType::ValBool(x), ValueType::ValBool(y)) => x == y,
            (ValueType::ValNil, ValueType::ValNil) => true,
            (ValueType::ValNumber(x), ValueType::ValNumber(y)) => number_equal(x, y),
            (ValueType::ValObj(x), ValueType::ValObj(y)) => x == y,
            _ => false,
        }
    }

    #[allow(non_snake_case)]
    pub fn IsFalsey(self) -> (r: bool)
        ensures
            r == is_falsey(self),
    {
        self.IsNil() || (self.IsBool() && !self.GetBool())
    }
}

impl From<bool> for Value {
    fn from(boolean: bool) -> (r: Value) {
        BoolAsValue(boolean)
    }
}

impl vstd::std_specs::convert::FromSpecImpl<bool> for Value {
    open spec fn obeys_from_spec() -> bool {
        true
    }

    open spec fn from_spec(boolean: bool) -> Value {
        Value { value_type: ValueType::ValBool(boolean) }
    }
}

#[allow(non_snake_case)]
pub fn BoolAsValue(boolean: bool) -> (r: Value)
    ensures
        r == (Value { value_type: ValueType::ValBool(boolean) }),
{
    Value { value_type: ValueType::ValBool(boolean) }
}

#[allow(non_snake_case)]
pub fn NilAsValue() -> (r: Value)
    ensures
        r == (Value { value_type: ValueType::ValNil }),
{
    Value { value_type: ValueType::ValNil }
}

/// The number whose binary64 bit pattern is `bits`.
#[allow(non_snake_case)]
pub fn NumberAsValue(bits: u64) -> (r: Value)
    ensures
        r == (Value { value_type: ValueType::ValNumber(bits) }),
{
    Value { value_type: ValueType::ValNumber(bits) }
}

#[allow(non_snake_case)]
pub fn ObjAsValue(obj: Obj) -> (r: Value)
    ensures
        r == (Value { value_type: ValueType::ValObj(obj) }),
{
    Value { value_type: ValueType::ValObj(obj) }
}

pub fn init_value_array() -> (r: ValueArray)
    ensures
        r.values@.len() == 0,
{
    ValueArray { values: Vec::new() }
}

pub fn write_value_array(value_array: &mut ValueArray, value: Value)
    ensures
        final(value_array).values@ == old(value_array).values@.push(value),
{
    value_array.values.push(value);
}

/// `nil` and `false` are the only falsey values: every number (zero
/// included), every string (the empty one included) and `true` are truthy.
pub proof fn lemma_truthiness(v: Value)
    ensures
        is_falsey(v) <==> (v.value_type == ValueType::ValNil || v.value_type == ValueType::ValBool(false)),
        v.value_type is ValNumber ==> !is_falsey(v),
        v.value_type is ValObj ==> !is_falsey(v),
        v.value_type == ValueType::ValBool(true) ==> !is_falsey(v),
{
}

/// The text that `print` shows for a value other than a number.
pub open spec fn shown(v: Value, strings: Seq<Seq<char>>) -> Seq<char> {
    match v.value_type {
        ValueType::ValBool(b) => if b { "true"@ } else { "false"@ },
        ValueType::ValNil => "nil"@,
        ValueType::ValNumber(_) => Seq::empty(),
        ValueType::ValObj(_) => strings[string_ref(v).index as int],
    }
}

/// The text that `print` shows for a value; numbers are formatted by the host.
pub fn print_value<H: NumberHost>(value: Value, strings: &StringTable, host: &H) -> (r: String)
    requires
        is_string(value) ==> strings.holds(string_ref(value)),
    ensures
        !(value.value_type is ValNumber) ==> r@ == shown(value, strings@),
{
    let mut text: Vec<char> = Vec::new();
    match value.value_type {
        ValueType::ValBool(b) => {
            if b {
                push_str(&mut text, "true");
            } else {
                push_str(&mut text, "false");
            }
        },
        ValueType::ValNil => push_str(&mut text, "nil"),
        ValueType::ValNumber(bits) => return host.format_number(bits),
        ValueType::ValObj(_) => push_chars(&mut text, strings.content(value.GetString())),
    }
    proof {
        assert(text@ =~= shown(value, strings@));
    }
    string_of(&text)
}

} // verus!

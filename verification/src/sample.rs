//! A small set of declarations exercising each usage pattern the engine
//! recognizes: a type definition with a composed field, a trait and its
//! implementation, associated-function calls, a generic container in a
//! return type, and an annotated local binding.  The integration tests run
//! the adapter and matcher over this module's shape written out as source
//! text and compare the extracted events against what stands here.

use vstd::prelude::*;

verus! {

broadcast use vstd::string::to_string_from_display_ensures_for_str;

/// A base type with a plain value field.
#[derive(Clone, Copy, PartialEq, Eq, Structural, Debug)]
pub struct BaseStruct {
    pub value: i32,
}

impl BaseStruct {
    /// Make a base value holding `value`.
    pub fn new(value: i32) -> (r: Self)
        ensures
            r.value == value,
    {
        BaseStruct { value }
    }

    /// The tag an associated call returns.
    pub fn static_method() -> (r: String)
        ensures
            r@ == "static"@,
    {
        "static".to_string()
    }
}

pub trait BaseTrait {
    fn process(&self);
}

impl BaseTrait for BaseStruct {
    fn process(&self) {
        let _seen: i32 = self.value;
    }
}

/// A type composing the base type in a field.
#[derive(Clone, Copy, PartialEq, Eq, Structural, Debug)]
pub struct ExtendedStruct {
    pub base: BaseStruct,
}

impl ExtendedStruct {
    /// Wrap a base value.
    pub fn new(param: BaseStruct) -> (r: Self)
        ensures
            r.base == param,
    {
        let local = BaseStruct { value: 42 };
        let _result = BaseStruct::static_method();
        let _keep: i32 = local.value;
        ExtendedStruct { base: param }
    }

    /// Hand a base value through unchanged.
    pub fn process_base(&self, input: BaseStruct) -> (r: BaseStruct)
        ensures
            r == input,
    {
        input
    }

    /// A one-element container of base values.
    pub fn get_vec(&self) -> (r: Vec<BaseStruct>)
        ensures
            r@.len() == 1,
            r@[0].value == 1,
    {
        let mut v: Vec<BaseStruct> = Vec::new();
        v.push(BaseStruct::new(1));
        v
    }
}

/// Bind a typed local to a freshly made base value.
pub fn use_base() {
    let my_base: BaseStruct = BaseStruct::new(10);
    let _keep: i32 = my_base.value;
}

} // verus!

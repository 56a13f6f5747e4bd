use vstd::prelude::*;

verus! {

/// A function of a program: its argument types and return type (indices into the
/// machine's type list) and its bytecode.
#[derive(PartialEq, Debug)]
pub struct Function {
    pub arg_type: Vec<u32>,
    pub ret_type: Option<u32>,
    pub function: Vec<u8>,
}

impl Function {
    pub fn new(args: Vec<u32>, ret: Option<u32>, code: Vec<u8>) -> (f: Self)
        ensures
            f.arg_type@ == args@,
            f.ret_type == ret,
            f.function@ == code@,
    {
        Function { arg_type: args, ret_type: ret, function: code }
    }
}

} // verus!

use vstd::prelude::*;

verus! {

/// Whether a value is copied (by value) or shared through a pointer (by reference).
#[derive(PartialEq, Eq, Structural, Debug, Clone, Copy)]
pub enum PassBy {
    Value,
    Reference,
}

/// An error code with the place that raised it.
pub type VmError = (u32, &'static str);
pub type VmResult<X> = Result<X, VmError>;
pub type VmEmpty = VmResult<()>;

} // verus!

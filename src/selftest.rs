use vstd::prelude::*;

verus! {

/// A self-test that the boot program can run on the target machine, reporting
/// through the console.
pub trait Testable {
    fn run(&self);
}

} // verus!

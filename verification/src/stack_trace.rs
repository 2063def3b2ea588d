use backtrace::Backtrace;
use vstd::prelude::*;

verus! {

/// `backtrace::Backtrace::new`, printed with its `Debug` output. What it holds depends on
/// the machine and on where it is called, so nothing is claimed of the text.
#[verifier::external_body]
pub(crate) fn capture() -> (trace: String) {
    format!("{:?}", Backtrace::new())
}

} // verus!

use vstd::prelude::*;
use crate::Label;

verus! {

// Dataset index mapping: a local sample index resolves by parity to a class
// and a file number. Even indices are cats, odd indices are dogs. Training
// file numbers carry a 3500 offset while test file numbers start at 0, so the
// two ranges never share a file.

/// The class a sample index resolves to: even is cat, odd is dog.
pub open spec fn spec_label_of_index(i: u32) -> Label {
    if i % 2 == 0 {
        Label::Cat
    } else {
        Label::Dog
    }
}

/// The file number a training index resolves to.
pub open spec fn spec_train_file(i: u32) -> int {
    if i % 2 == 0 {
        3500 + i / 2
    } else {
        3500 + (i - 1) / 2
    }
}

/// The file number a test index resolves to.
pub open spec fn spec_test_file(i: u32) -> int {
    if i % 2 == 0 {
        (i / 2) as int
    } else {
        ((i - 1) / 2) as int
    }
}

/// Resolves a training index to its class and file number.
pub fn train_source(i: u32) -> (r: (Label, u32))
    ensures
        r.0 == spec_label_of_index(i),
        r.1 == spec_train_file(i),
{
    if i % 2 == 0 {
        (Label::Cat, 3500 + i / 2)
    } else {
        (Label::Dog, 3500 + (i - 1) / 2)
    }
}

/// Resolves a test index to its class and file number.
pub fn test_source(i: u32) -> (r: (Label, u32))
    ensures
        r.0 == spec_label_of_index(i),
        r.1 == spec_test_file(i),
{
    if i % 2 == 0 {
        (Label::Cat, i / 2)
    } else {
        (Label::Dog, (i - 1) / 2)
    }
}

} // verus!

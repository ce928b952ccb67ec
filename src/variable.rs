use vstd::prelude::*;

verus! {

/// A named value substituted into rendered files.
#[derive(Debug, Clone)]
pub struct Variable {
    pub name: String,
    pub value: String,
}

impl Variable {
    pub fn new(name: String, value: String) -> (r: Variable)
        ensures
            r.name == name,
            r.value == value,
    {
        Variable { name, value }
    }
}

} // verus!

use vstd::prelude::*;

verus! {

/// A user as handed to the policy engine, identified by name.
#[derive(Debug, Clone, PartialEq, Eq)]
pub struct OsoUser {
    pub username: String,
}

impl OsoUser {
    /// The fixed list of superuser names registered with the policy engine.
    pub fn superuser() -> (r: Vec<String>)
        ensures
            r@.len() == 2,
            r@[0]@ == "alice"@,
            r@[1]@ == "charlie"@,
    {
        let mut v: Vec<String> = Vec::new();
        v.push(String::from_str("alice"));
        v.push(String::from_str("charlie"));
        v
    }
}

} // verus!

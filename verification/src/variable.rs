//! Decision variables: an immutable identity made of an ordinal id and an
//! optional display name. A variable owns no numeric state; the per-variable
//! metadata (bounds, integrality) lives in the owning model's table.

use vstd::prelude::*;
use vstd::string::*;

use crate::num_text::dec_seq;

verus! {

/// Mathematical model of a variable handle.
pub struct VarModel {
    pub id: int,
    pub name: Option<Seq<char>>,
}

/// The view of an optional owned string.
pub open spec fn opt_str_view(n: Option<String>) -> Option<Seq<char>> {
    match n {
        Option::Some(s) => Option::Some(s@),
        Option::None => Option::None,
    }
}

/// The display name of a variable: its stored name, or the deterministic
/// fallback `v` followed by its ordinal id.
pub open spec fn var_display(v: VarModel) -> Seq<char>
    recommends
        v.id >= 0,
{
    match v.name {
        Option::Some(n) => n,
        Option::None => seq!['v'] + dec_seq(v.id as nat),
    }
}

/// A lightweight, copyable handle to a model variable: ordinal id plus
/// optional display name.
#[derive(Clone, Debug)]
pub struct Variable {
    id: usize,
    name: Option<String>,
}

impl View for Variable {
    type V = VarModel;

    closed spec fn view(&self) -> VarModel {
        VarModel { id: self.id as int, name: opt_str_view(self.name) }
    }
}

impl Variable {
    pub fn new(id: usize, name: Option<String>) -> (r: Variable)
        ensures
            r@ == (VarModel { id: id as int, name: opt_str_view(name) }),
    {
        Variable { id, name }
    }

    pub fn id(&self) -> (r: usize)
        ensures
            r as int == self@.id,
    {
        self.id
    }

    /// The display name: the stored name or the `v<id>` fallback.
    pub fn name(&self) -> (r: String)
        ensures
            r@ == var_display(self@),
    {
        match &self.name {
            Option::Some(s) => s.clone(),
            Option::None => {
                let mut t = String::from_str("v");
                let digits = crate::num_text::u128_to_string(self.id as u128);
                t.append(digits.as_str());
                proof {
                    reveal_strlit("v");
                    assert(t@ =~= var_display(self@));
                }
                t
            },
        }
    }

    /// An explicit copy of the handle, proved to denote the same variable.
    pub fn duplicate(&self) -> (r: Variable)
        ensures
            r@ == self@,
    {
        let name: Option<String> = match &self.name {
            Option::Some(s) => Option::Some(s.clone()),
            Option::None => Option::None,
        };
        Variable { id: self.id, name }
    }
}

} // verus!

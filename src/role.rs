//! Roles: the named participants of a choreography.

use vstd::prelude::*;

verus! {

/// Mathematical identity of a role: its name, optional numeric index,
/// optional symbolic parameter and optional array size, as text.
pub ghost struct RoleView {
    pub name: Seq<char>,
    pub index: Option<usize>,
    pub param: Option<Seq<char>>,
    pub array_size: Option<Seq<char>>,
}

/// The textual form of an optional string.
pub open spec fn opt_text(o: Option<String>) -> Option<Seq<char>> {
    match o {
        Some(s) => Some(s@),
        None => None,
    }
}

/// A participant of a choreography, simple (`Client`), indexed (`Worker[0]`)
/// or parameterised (`Worker[N]`).
#[derive(Debug, Hash)]
pub struct Role {
    pub name: String,
    pub index: Option<usize>,
    pub param: Option<String>,
    pub array_size: Option<String>,
}

impl View for Role {
    type V = RoleView;

    open spec fn view(&self) -> RoleView {
        RoleView {
            name: self.name@,
            index: self.index,
            param: opt_text(self.param),
            array_size: opt_text(self.array_size),
        }
    }
}

/// Copies an optional string, keeping its value.
pub fn clone_opt_string(o: &Option<String>) -> (r: Option<String>)
    ensures
        r == *o,
{
    match o {
        Some(s) => Some(s.clone()),
        None => None,
    }
}

/// Compares two optional strings by their text.
pub fn opt_string_eq(a: &Option<String>, b: &Option<String>) -> (r: bool)
    ensures
        r == (opt_text(*a) == opt_text(*b)),
{
    match (a, b) {
        (Some(x), Some(y)) => *x == *y,
        (None, None) => true,
        _ => false,
    }
}

impl Role {
    /// A simple role with the given name.
    pub fn new(name: String) -> (r: Role)
        ensures
            r.name == name,
            r.index is None,
            r.param is None,
            r.array_size is None,
    {
        Role { name, index: None, param: None, array_size: None }
    }

    /// A role with a concrete index, such as `Worker[0]`.
    pub fn indexed(name: String, index: usize) -> (r: Role)
        ensures
            r.name == name,
            r.index == Some(index),
            r.param is None,
            r.array_size is None,
    {
        Role { name, index: Some(index), param: None, array_size: None }
    }

    /// A role array with a symbolic parameter, such as `Worker[N]`; the
    /// parameter is also the array's size.
    pub fn parameterized(name: String, param: String) -> (r: Role)
        ensures
            r.name == name,
            r.index is None,
            r.param == Some(param),
            r.array_size == Some(param),
    {
        let size = param.clone();
        Role { name, index: None, param: Some(param), array_size: Some(size) }
    }

    pub fn is_indexed(&self) -> (r: bool)
        ensures
            r == self.index is Some,
    {
        self.index.is_some()
    }

    /// Whether the role has an index or a symbolic parameter.
    pub fn is_parameterized(&self) -> (r: bool)
        ensures
            r == (self.index is Some || self.param is Some),
    {
        self.index.is_some() || self.param.is_some()
    }

    /// Whether the role was declared as an array (`Worker[N]`).
    pub fn is_array(&self) -> (r: bool)
        ensures
            r == self.array_size is Some,
    {
        self.array_size.is_some()
    }

    /// The name that identifies the role in generated code.
    pub fn to_ident(&self) -> (r: String)
        ensures
            r == self.name,
    {
        self.name.clone()
    }

    /// A copy of the role with every field kept.
    pub fn copy(&self) -> (r: Role)
        ensures
            r == *self,
    {
        Role {
            name: self.name.clone(),
            index: self.index,
            param: clone_opt_string(&self.param),
            array_size: clone_opt_string(&self.array_size),
        }
    }

    /// Role identity: name, index, parameter and array size all match.
    pub fn same_as(&self, other: &Role) -> (r: bool)
        ensures
            r == (self@ == other@),
    {
        self.name == other.name && self.index == other.index && opt_string_eq(
            &self.param,
            &other.param,
        ) && opt_string_eq(&self.array_size, &other.array_size)
    }
}

impl Clone for Role {
    fn clone(&self) -> (r: Role)
        ensures
            r == *self,
    {
        self.copy()
    }
}

impl PartialEq for Role {
    fn eq(&self, other: &Role) -> (r: bool) {
        self.same_as(other)
    }
}

impl vstd::std_specs::cmp::PartialEqSpecImpl for Role {
    open spec fn obeys_eq_spec() -> bool {
        true
    }

    open spec fn eq_spec(&self, other: &Role) -> bool {
        self@ == other@
    }
}

impl Eq for Role {}

/// Whether a role with identity `r` occurs in `roles`.
pub open spec fn role_in(roles: Seq<Role>, r: RoleView) -> bool {
    exists|i: int| 0 <= i < roles.len() && #[trigger] roles[i]@ == r
}

/// Membership test over a slice of roles, by role identity.
pub fn contains_role(roles: &[Role], r: &Role) -> (found: bool)
    ensures
        found == role_in(roles@, r@),
{
    let mut i: usize = 0;
    while i < roles.len()
        invariant
            0 <= i <= roles.len(),
            forall|j: int| 0 <= j < i ==> roles@[j]@ != r@,
        decreases roles.len() - i,
    {
        if roles[i].same_as(r) {
            return true;
        }
        i = i + 1;
    }
    false
}

} // verus!

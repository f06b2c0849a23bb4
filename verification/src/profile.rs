//! Employee profiles: an open role vocabulary, capabilities and the
//! profile a roster is made of.
use vstd::prelude::*;
use crate::text::{blank, is_blank};
use crate::execution_graph::types::{clone_strings, strs_view};
use crate::agent_loop::budget::AgentBudget;

verus! {

/// A role identifier. The vocabulary is open: any non-blank name is a role.
#[derive(Debug, PartialEq, Eq)]
pub struct EmployeeRole {
    name: String,
}

impl View for EmployeeRole {
    type V = Seq<char>;

    closed spec fn view(&self) -> Seq<char> {
        self.name@
    }
}

impl Clone for EmployeeRole {
    fn clone(&self) -> (r: Self)
        ensures
            r@ == self@,
    {
        EmployeeRole { name: self.name.clone() }
    }
}

impl EmployeeRole {
    pub fn new(name: &str) -> (r: Self)
        ensures
            r@ == name@,
    {
        EmployeeRole { name: name.to_owned() }
    }

    pub fn as_str(&self) -> (r: &str)
        ensures
            r@ == self@,
    {
        self.name.as_str()
    }

    /// A role is usable when its name is not blank.
    pub fn is_valid(&self) -> (b: bool)
        ensures
            b == !blank(self@),
    {
        !is_blank(self.name.as_str())
    }

    pub fn frontend() -> (r: Self)
        ensures
            r@ == "frontend"@,
    {
        EmployeeRole::new("frontend")
    }

    pub fn backend() -> (r: Self)
        ensures
            r@ == "backend"@,
    {
        EmployeeRole::new("backend")
    }

    pub fn writer() -> (r: Self)
        ensures
            r@ == "writer"@,
    {
        EmployeeRole::new("writer")
    }

    pub fn tester() -> (r: Self)
        ensures
            r@ == "tester"@,
    {
        EmployeeRole::new("tester")
    }

    pub fn generalist() -> (r: Self)
        ensures
            r@ == "generalist"@,
    {
        EmployeeRole::new("generalist")
    }
}

/// A capability identifier, open like roles.
#[derive(Debug, PartialEq, Eq)]
pub struct EmployeeCapability {
    name: String,
}

impl View for EmployeeCapability {
    type V = Seq<char>;

    closed spec fn view(&self) -> Seq<char> {
        self.name@
    }
}

impl Clone for EmployeeCapability {
    fn clone(&self) -> (r: Self)
        ensures
            r@ == self@,
    {
        EmployeeCapability { name: self.name.clone() }
    }
}

impl EmployeeCapability {
    pub fn new(name: &str) -> (r: Self)
        ensures
            r@ == name@,
    {
        EmployeeCapability { name: name.to_owned() }
    }

    pub fn as_str(&self) -> (r: &str)
        ensures
            r@ == self@,
    {
        self.name.as_str()
    }

    /// A capability is usable when its name is not blank.
    pub fn is_valid(&self) -> (b: bool)
        ensures
            b == !blank(self@),
    {
        !is_blank(self.name.as_str())
    }

    pub fn ui_implementation() -> (r: Self)
        ensures
            r@ == "ui_implementation"@,
    {
        EmployeeCapability::new("ui_implementation")
    }

    pub fn browser_verification() -> (r: Self)
        ensures
            r@ == "browser_verification"@,
    {
        EmployeeCapability::new("browser_verification")
    }

    pub fn api_implementation() -> (r: Self)
        ensures
            r@ == "api_implementation"@,
    {
        EmployeeCapability::new("api_implementation")
    }

    pub fn data_consistency() -> (r: Self)
        ensures
            r@ == "data_consistency"@,
    {
        EmployeeCapability::new("data_consistency")
    }

    pub fn product_copy() -> (r: Self)
        ensures
            r@ == "product_copy"@,
    {
        EmployeeCapability::new("product_copy")
    }

    pub fn test_execution() -> (r: Self)
        ensures
            r@ == "test_execution"@,
    {
        EmployeeCapability::new("test_execution")
    }
}

pub open spec fn caps_view(v: Seq<EmployeeCapability>) -> Seq<Seq<char>> {
    v.map_values(|c: EmployeeCapability| c@)
}

/// A copy of a capability list.
pub fn clone_capabilities(v: &Vec<EmployeeCapability>) -> (r: Vec<EmployeeCapability>)
    ensures
        caps_view(r@) == caps_view(v@),
{
    let mut r: Vec<EmployeeCapability> = Vec::new();
    let mut i: usize = 0;
    while i < v.len()
        invariant
            i <= v.len(),
            r@.len() == i,
            forall|k: int| 0 <= k < i ==> (#[trigger] r@[k])@ == v@[k]@,
        decreases v.len() - i,
    {
        r.push(v[i].clone());
        i += 1;
    }
    assert(caps_view(r@) =~= caps_view(v@));
    r
}

/// What an employee is for: a role, the capabilities it declares and a
/// short focus.
#[derive(Debug)]
pub struct EmployeeSpecialty {
    pub role: EmployeeRole,
    pub capabilities: Vec<EmployeeCapability>,
    pub focus: String,
}

/// An agent profile: identity, instructions, tools, budget and specialty.
#[derive(Debug)]
pub struct AgentProfile {
    pub name: String,
    pub system_prompt: String,
    pub tools: Vec<String>,
    pub budget: AgentBudget,
    pub specialty: EmployeeSpecialty,
}

/// A profile as plain values.
pub struct ProfileView {
    pub name: Seq<char>,
    pub system_prompt: Seq<char>,
    pub tools: Seq<Seq<char>>,
    pub budget: AgentBudget,
    pub role: Seq<char>,
    pub capabilities: Seq<Seq<char>>,
    pub focus: Seq<char>,
}

impl View for AgentProfile {
    type V = ProfileView;

    open spec fn view(&self) -> ProfileView {
        ProfileView {
            name: self.name@,
            system_prompt: self.system_prompt@,
            tools: strs_view(self.tools@),
            budget: self.budget,
            role: self.specialty.role@,
            capabilities: caps_view(self.specialty.capabilities@),
            focus: self.specialty.focus@,
        }
    }
}

impl Clone for AgentProfile {
    fn clone(&self) -> (r: Self)
        ensures
            r@ == self@,
    {
        AgentProfile {
            name: self.name.clone(),
            system_prompt: self.system_prompt.clone(),
            tools: clone_strings(&self.tools),
            budget: self.budget,
            specialty: EmployeeSpecialty {
                role: self.specialty.role.clone(),
                capabilities: clone_capabilities(&self.specialty.capabilities),
                focus: self.specialty.focus.clone(),
            },
        }
    }
}

impl AgentProfile {
    /// A generalist profile with no declared capabilities.
    pub fn new(name: &str, system_prompt: &str, tools: Vec<String>, budget: AgentBudget) -> (r: Self)
        ensures
            r@.name == name@,
            r@.role == "generalist"@,
            r@.capabilities.len() == 0,
            r.system_prompt@ == system_prompt@,
            strs_view(r.tools@) == strs_view(tools@),
            r.budget == budget,
            r@.focus.len() == 0,
    {
        let r = AgentProfile {
            name: name.to_owned(),
            system_prompt: system_prompt.to_owned(),
            tools,
            budget,
            specialty: EmployeeSpecialty {
                role: EmployeeRole::generalist(),
                capabilities: Vec::new(),
                focus: String::new(),
            },
        };
        proof {
            assert(caps_view(r.specialty.capabilities@) =~= Seq::<Seq<char>>::empty());
        }
        r
    }

    pub fn with_specialty(self, role: EmployeeRole, capabilities: Vec<EmployeeCapability>, focus: &str) -> (r: Self)
        ensures
            r@ == (ProfileView { role: role@, capabilities: caps_view(capabilities@), focus: focus@, ..self@ }),
    {
        AgentProfile {
            specialty: EmployeeSpecialty { role, capabilities, focus: focus.to_owned() },
            ..self
        }
    }
}

pub open spec fn profiles_view(v: Seq<AgentProfile>) -> Seq<ProfileView> {
    v.map_values(|p: AgentProfile| p@)
}

} // verus!

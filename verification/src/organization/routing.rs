//! Routing a staffing request over a roster.
use vstd::prelude::*;
use crate::text::{blank, decimal, decimal_string, is_blank, join3, str_eq};
use crate::execution_graph::types::strs_view;
use crate::execution_graph::structure::contains_text;
use crate::profile::{caps_view, clone_capabilities, profiles_view, AgentProfile, ProfileView};
use super::types::{
    assignments_view, requirements_view, unfilled_view, AssignmentView, EmployeeAssignment,
    OrganizationRouter, RequirementView, RoleRequirement, StaffingDecision, StaffingDecisionView,
    StaffingMode, StaffingPolicy, StaffingRequest, StaffingRequestView, UnfilledRequirement,
    UnfilledView, decision_can_execute,
};

verus! {

/// The first position below `n` at which `pred` holds.
pub open spec fn first_where(n: int, pred: spec_fn(int) -> bool) -> Option<int>
    decreases n,
{
    if n <= 0 {
        None
    } else {
        match first_where(n - 1, pred) {
            Some(i) => Some(i),
            None => if pred(n - 1) {
                Some(n - 1)
            } else {
                None
            },
        }
    }
}

pub proof fn lemma_first_where(n: int, pred: spec_fn(int) -> bool)
    ensures
        first_where(n, pred) matches Some(i) ==> 0 <= i < n && pred(i) && forall|j: int| 0 <= j < i ==> !#[trigger] pred(j),
        first_where(n, pred) is None ==> forall|j: int| 0 <= j < n ==> !#[trigger] pred(j),
    decreases n,
{
    if n > 0 {
        lemma_first_where(n - 1, pred);
    }
}

pub proof fn lemma_first_where_mono(n: int, m: int, pred: spec_fn(int) -> bool)
    requires
        n <= m,
        first_where(n, pred) is Some,
    ensures
        first_where(m, pred) == first_where(n, pred),
    decreases m - n,
{
    if n < m {
        lemma_first_where_mono(n, m - 1, pred);
    }
}

pub open spec fn names_of(roster: Seq<ProfileView>) -> Seq<Seq<char>> {
    roster.map_values(|p: ProfileView| p.name)
}

/// Profile `i` repeats the name of an earlier profile.
pub open spec fn repeats(roster: Seq<ProfileView>) -> spec_fn(int) -> bool {
    |i: int| names_of(roster).take(i).contains(roster[i].name)
}

/// The first profile whose name repeats an earlier one.
pub open spec fn first_repeat(roster: Seq<ProfileView>) -> Option<int> {
    first_where(roster.len() as int, repeats(roster))
}

/// The worker limit of a request: what it asks for, capped by the policy.
pub open spec fn effective_limit(policy: StaffingPolicy, max_workers: Option<usize>) -> usize {
    let asked = match max_workers {
        Some(m) => m,
        None => policy.max_workers_per_task,
    };
    if asked < policy.max_workers_per_task {
        asked
    } else {
        policy.max_workers_per_task
    }
}

/// A requirement names a blank role, a blank employee or a blank capability.
pub open spec fn requirement_invalid(r: RequirementView) -> bool {
    ||| blank(r.role)
    ||| (r.employee matches Some(e) && blank(e))
    ||| exists|k: int| 0 <= k < r.capabilities.len() && blank(#[trigger] r.capabilities[k])
}

pub open spec fn invalid_at(reqs: Seq<RequirementView>) -> spec_fn(int) -> bool {
    |i: int| requirement_invalid(reqs[i])
}

pub open spec fn first_invalid(reqs: Seq<RequirementView>) -> Option<int> {
    first_where(reqs.len() as int, invalid_at(reqs))
}

pub open spec fn unfilled_of(r: RequirementView, reason: Seq<char>) -> UnfilledView {
    UnfilledView { role: r.role, responsibility: r.responsibility, required: r.required, reason }
}

pub open spec fn unfilled_all(reqs: Seq<RequirementView>, reason: Seq<char>) -> Seq<UnfilledView> {
    reqs.map_values(|r: RequirementView| unfilled_of(r, reason))
}

/// A blocked decision that leaves every requirement unfilled.
pub open spec fn blocked_with(
    reqs: Seq<RequirementView>,
    limit: usize,
    reason: Seq<char>,
    rationale: Seq<char>,
) -> StaffingDecisionView {
    StaffingDecisionView {
        mode: StaffingMode::Blocked,
        assignments: Seq::empty(),
        unfilled: unfilled_all(reqs, reason),
        worker_limit: limit,
        rationale: seq![rationale],
    }
}

/// A profile may take a requirement: it is not assigned yet, it is the named
/// employee if one is named, it has the role, and it declares every
/// required capability.
pub open spec fn fits(p: ProfileView, taken: Seq<Seq<char>>, r: RequirementView) -> bool {
    &&& !taken.contains(p.name)
    &&& (r.employee matches Some(e) ==> p.name == e)
    &&& p.role == r.role
    &&& forall|k: int| 0 <= k < r.capabilities.len() ==> p.capabilities.contains(#[trigger] r.capabilities[k])
}

pub open spec fn fits_at(roster: Seq<ProfileView>, taken: Seq<Seq<char>>, r: RequirementView) -> spec_fn(int) -> bool {
    |j: int| fits(roster[j], taken, r)
}

pub open spec fn first_fit(roster: Seq<ProfileView>, taken: Seq<Seq<char>>, r: RequirementView) -> Option<int> {
    first_where(roster.len() as int, fits_at(roster, taken, r))
}

pub open spec fn taken_names(a: Seq<AssignmentView>) -> Seq<Seq<char>> {
    a.map_values(|x: AssignmentView| x.employee)
}

pub open spec fn limit_reason(limit: usize) -> Seq<char> {
    "per-task worker limit "@ + decimal(limit as nat) + " reached"@
}

pub open spec fn unmatched_reason(r: RequirementView) -> Seq<char> {
    match r.employee {
        None => "no employee matches the required role and capabilities"@,
        Some(e) => "selected employee '"@ + e + "' does not match the required role and capabilities"@,
    }
}

/// Assignments and unfilled requirements after the first `n` requirements
/// were considered in order.
pub struct Staffing {
    pub assignments: Seq<AssignmentView>,
    pub unfilled: Seq<UnfilledView>,
}

pub open spec fn staff(roster: Seq<ProfileView>, reqs: Seq<RequirementView>, limit: usize, n: int) -> Staffing
    decreases n,
{
    if n <= 0 {
        Staffing { assignments: Seq::empty(), unfilled: Seq::empty() }
    } else {
        let s = staff(roster, reqs, limit, n - 1);
        let r = reqs[n - 1];
        if s.assignments.len() >= limit {
            Staffing { unfilled: s.unfilled.push(unfilled_of(r, limit_reason(limit))), ..s }
        } else {
            match first_fit(roster, taken_names(s.assignments), r) {
                Some(j) => Staffing {
                    assignments: s.assignments.push(
                        AssignmentView {
                            employee: roster[j].name,
                            role: r.role,
                            responsibility: r.responsibility,
                            matched_capabilities: r.capabilities,
                        },
                    ),
                    ..s
                },
                None => Staffing { unfilled: s.unfilled.push(unfilled_of(r, unmatched_reason(r))), ..s },
            }
        }
    }
}

pub open spec fn any_required(u: Seq<UnfilledView>) -> bool {
    exists|i: int| 0 <= i < u.len() && (#[trigger] u[i]).required
}

pub open spec fn mode_of(s: Staffing) -> StaffingMode {
    if any_required(s.unfilled) {
        StaffingMode::Blocked
    } else if s.assignments.len() == 1 {
        StaffingMode::SingleSpecialist
    } else if s.assignments.len() > 1 {
        StaffingMode::MultiSpecialist
    } else {
        StaffingMode::Direct
    }
}

pub open spec fn summary(s: Staffing, n: nat) -> Seq<Seq<char>> {
    let first = "selected "@ + decimal(s.assignments.len()) + " of "@ + decimal(n)
        + " requested specialist assignments"@;
    if s.unfilled.len() == 0 {
        seq![first]
    } else {
        seq![first, decimal(s.unfilled.len()) + " requirements remain unfilled"@]
    }
}

/// What the router decides for a request over a roster.
pub open spec fn route_spec(policy: StaffingPolicy, req: StaffingRequestView, roster: Seq<ProfileView>) -> StaffingDecisionView {
    let reqs = req.requirements;
    let max = policy.max_workers_per_task;
    match first_repeat(roster) {
        Some(i) => blocked_with(
            reqs,
            max,
            "duplicate employee identity '"@ + roster[i].name + "'"@,
            "employee names must be unique; duplicate identity '"@ + roster[i].name + "' is ambiguous"@,
        ),
        None => if roster.len() > policy.max_employee_roster {
            blocked_with(
                reqs,
                max,
                "employee roster exceeds limit "@ + decimal(policy.max_employee_roster as nat),
                "roster has "@ + decimal(roster.len()) + " employees but policy allows at most "@ + decimal(
                    policy.max_employee_roster as nat,
                ),
            )
        } else {
            let limit = effective_limit(policy, req.max_workers);
            if reqs.len() == 0 {
                StaffingDecisionView {
                    mode: StaffingMode::Direct,
                    assignments: Seq::empty(),
                    unfilled: Seq::empty(),
                    worker_limit: limit,
                    rationale: seq!["Lead handles the task directly; no specialist is required"@],
                }
            } else {
                match first_invalid(reqs) {
                    Some(i) => StaffingDecisionView {
                        mode: StaffingMode::Blocked,
                        assignments: Seq::empty(),
                        unfilled: seq![unfilled_of(reqs[i], "role and capability identifiers must be non-empty"@)],
                        worker_limit: limit,
                        rationale: seq!["staffing request contains an invalid open identifier"@],
                    },
                    None => if limit == 0 {
                        blocked_with(
                            reqs,
                            limit,
                            "per-task worker limit is zero"@,
                            "specialists were requested but the effective worker limit is zero"@,
                        )
                    } else {
                        let s = staff(roster, reqs, limit, reqs.len() as int);
                        StaffingDecisionView {
                            mode: mode_of(s),
                            assignments: s.assignments,
                            unfilled: s.unfilled,
                            worker_limit: limit,
                            rationale: summary(s, reqs.len()),
                        }
                    },
                }
            }
        },
    }
}


/// How many roster entries carry the name.
pub open spec fn count_named(roster: Seq<ProfileView>, e: Seq<char>, n: int) -> nat
    decreases n,
{
    if n <= 0 {
        0
    } else {
        count_named(roster, e, n - 1) + if roster[n - 1].name == e {
            1nat
        } else {
            0nat
        }
    }
}

pub open spec fn named_at(roster: Seq<ProfileView>, e: Seq<char>) -> spec_fn(int) -> bool {
    |j: int| roster[j].name == e
}

/// The roster with entries `0` and `t` exchanged.
pub open spec fn swap_first(roster: Seq<ProfileView>, t: int) -> Seq<ProfileView> {
    roster.update(0, roster[t]).update(t, roster[0])
}

/// The profile has the requirement's role and declares every required
/// capability.
pub open spec fn matches_contract(p: ProfileView, r: RequirementView) -> bool {
    p.role == r.role && forall|k: int| 0 <= k < r.capabilities.len() ==> p.capabilities.contains(#[trigger] r.capabilities[k])
}

pub open spec fn direct_mismatch(e: Seq<char>) -> Seq<char> {
    "direct employee '"@ + e + "' did not match the requested capability contract"@
}

/// What the router decides when the user assigns the task to one employee:
/// the same checks as manager selection, with that employee considered
/// first, and a block unless it is the one selected.
pub open spec fn route_to_spec(
    policy: StaffingPolicy,
    req: StaffingRequestView,
    roster: Seq<ProfileView>,
    e: Seq<char>,
) -> StaffingDecisionView {
    let reqs = req.requirements;
    let max = policy.max_workers_per_task;
    let matching = count_named(roster, e, roster.len() as int);
    if matching != 1 {
        let m = "direct employee '"@ + e + "' must resolve to exactly one roster entry; found "@ + decimal(matching);
        blocked_with(reqs, max, m, m)
    } else if reqs.len() != 1 {
        let m = "direct employee assignment requires exactly one role requirement"@;
        blocked_with(reqs, max, m, m)
    } else {
        match first_where(roster.len() as int, named_at(roster, e)) {
            Some(t) => {
                let reordered = swap_first(roster, t);
                let d = route_spec(policy, req, reordered);
                if decision_can_execute(d) {
                    let selected = d.assignments.len() == 1 && d.assignments[0].employee == e;
                    if !matches_contract(reordered[0], reqs[0]) || !selected {
                        blocked_with(reqs, d.worker_limit, direct_mismatch(e), direct_mismatch(e))
                    } else {
                        StaffingDecisionView {
                            rationale: d.rationale.push("user directly assigned the task to employee '"@ + e + "'"@),
                            ..d
                        }
                    }
                } else {
                    d
                }
            },
            None => route_spec(policy, req, roster),
        }
    }
}

/// Every requirement left unfilled for one reason.
fn unfill_all(reqs: &Vec<RoleRequirement>, reason: &str) -> (r: Vec<UnfilledRequirement>)
    ensures
        unfilled_view(r@) == unfilled_all(requirements_view(reqs@), reason@),
{
    let mut out: Vec<UnfilledRequirement> = Vec::new();
    let mut i: usize = 0;
    while i < reqs.len()
        invariant
            i <= reqs@.len(),
            out@.len() == i,
            forall|k: int| 0 <= k < i ==> (#[trigger] out@[k])@ == unfilled_of(reqs@[k]@, reason@),
        decreases reqs.len() - i,
    {
        out.push(unfill_one(&reqs[i], reason));
        i += 1;
    }
    assert(unfilled_view(out@) =~= unfilled_all(requirements_view(reqs@), reason@));
    out
}

fn unfill_one(r: &RoleRequirement, reason: &str) -> (u: UnfilledRequirement)
    ensures
        u@ == unfilled_of(r@, reason@),
{
    UnfilledRequirement {
        role: r.role.clone(),
        responsibility: r.responsibility.clone(),
        required: r.required,
        reason: reason.to_owned(),
    }
}

/// A blocked decision that leaves every requirement unfilled.
fn blocked(reqs: &Vec<RoleRequirement>, limit: usize, reason: &str, rationale: String) -> (d: StaffingDecision)
    ensures
        d@ == blocked_with(requirements_view(reqs@), limit, reason@, rationale@),
{
    let mut why: Vec<String> = Vec::new();
    why.push(rationale);
    let d = StaffingDecision {
        mode: StaffingMode::Blocked,
        assignments: Vec::new(),
        unfilled: unfill_all(reqs, reason),
        worker_limit: limit,
        rationale: why,
    };
    proof {
        assert(assignments_view(d.assignments@) =~= Seq::<AssignmentView>::empty());
        assert(strs_view(d.rationale@) =~= seq![rationale@]);
    }
    d
}

/// The decision of `blocked_decision`: every requirement unfilled for one
/// reason, which is also the rationale.
pub fn blocked_decision(request: &StaffingRequest, worker_limit: usize, reason: String) -> (d: StaffingDecision)
    ensures
        d@ == blocked_with(request@.requirements, worker_limit, reason@, reason@),
{
    let u = unfill_all(&request.requirements, reason.as_str());
    let mut why: Vec<String> = Vec::new();
    why.push(reason);
    let d = StaffingDecision {
        mode: StaffingMode::Blocked,
        assignments: Vec::new(),
        unfilled: u,
        worker_limit,
        rationale: why,
    };
    proof {
        assert(assignments_view(d.assignments@) =~= Seq::<AssignmentView>::empty());
        assert(strs_view(d.rationale@) =~= seq![why@[0]@]);
    }
    d
}

fn first_repeat_exec(roster: &[AgentProfile]) -> (r: Option<usize>)
    ensures
        match r {
            Some(i) => first_repeat(profiles_view(roster@)) == Some(i as int),
            None => first_repeat(profiles_view(roster@)) is None,
        },
{
    let ghost ps = profiles_view(roster@);
    let ghost pred = repeats(ps);
    let mut i: usize = 0;
    while i < roster.len()
        invariant
            i <= roster@.len(),
            ps == profiles_view(roster@),
            pred == repeats(ps),
            first_where(i as int, pred) is None,
        decreases roster.len() - i,
    {
        let mut j: usize = 0;
        let mut dup = false;
        while j < i
            invariant
                j <= i,
                i < roster@.len(),
                ps == profiles_view(roster@),
                dup ==> names_of(ps).take(i as int).contains(ps[i as int].name),
                !dup ==> forall|q: int| 0 <= q < j ==> ps[q].name != ps[i as int].name,
            decreases i - j,
        {
            if str_eq(roster[j].name.as_str(), roster[i].name.as_str()) {
                proof {
                    assert(names_of(ps).take(i as int)[j as int] == ps[j as int].name);
                }
                dup = true;
            }
            j += 1;
        }
        if dup {
            proof {
                assert(pred(i as int));
                assert(first_where(i + 1, pred) == Some(i as int));
                lemma_first_where_mono(i + 1, ps.len() as int, pred);
            }
            return Some(i);
        }
        proof {
            assert(!pred(i as int)) by {
                if names_of(ps).take(i as int).contains(ps[i as int].name) {
                    let q = choose|q: int| 0 <= q < i && names_of(ps).take(i as int)[q] == ps[i as int].name;
                    assert(ps[q].name == ps[i as int].name);
                }
            }
        }
        i += 1;
    }
    None
}

fn requirement_is_invalid(r: &RoleRequirement) -> (b: bool)
    ensures
        b == requirement_invalid(r@),
{
    if !r.role.is_valid() {
        return true;
    }
    match &r.employee {
        Some(e) => {
            if is_blank(e.as_str()) {
                return true;
            }
        },
        None => {},
    }
    let mut k: usize = 0;
    while k < r.capabilities.len()
        invariant
            k <= r.capabilities@.len(),
            forall|q: int| 0 <= q < k ==> !blank(#[trigger] r@.capabilities[q]),
        decreases r.capabilities.len() - k,
    {
        if !r.capabilities[k].is_valid() {
            proof {
                assert(r@.capabilities[k as int] == r.capabilities@[k as int]@);
            }
            return true;
        }
        k += 1;
    }
    false
}

fn first_invalid_exec(reqs: &Vec<RoleRequirement>) -> (r: Option<usize>)
    ensures
        match r {
            Some(i) => first_invalid(requirements_view(reqs@)) == Some(i as int),
            None => first_invalid(requirements_view(reqs@)) is None,
        },
{
    let ghost rv = requirements_view(reqs@);
    let ghost pred = invalid_at(rv);
    let mut i: usize = 0;
    while i < reqs.len()
        invariant
            i <= reqs@.len(),
            rv == requirements_view(reqs@),
            pred == invalid_at(rv),
            first_where(i as int, pred) is None,
        decreases reqs.len() - i,
    {
        if requirement_is_invalid(&reqs[i]) {
            proof {
                assert(pred(i as int));
                assert(first_where(i + 1, pred) == Some(i as int));
                lemma_first_where_mono(i + 1, rv.len() as int, pred);
            }
            return Some(i);
        }
        i += 1;
    }
    None
}

fn declares(caps: &Vec<crate::profile::EmployeeCapability>, c: &crate::profile::EmployeeCapability) -> (b: bool)
    ensures
        b == caps_view(caps@).contains(c@),
{
    let mut i: usize = 0;
    while i < caps.len()
        invariant
            i <= caps@.len(),
            forall|q: int| 0 <= q < i ==> caps_view(caps@)[q] != c@,
        decreases caps.len() - i,
    {
        if str_eq(caps[i].as_str(), c.as_str()) {
            proof {
                assert(caps_view(caps@)[i as int] == c@);
            }
            return true;
        }
        i += 1;
    }
    false
}

fn fits_exec(p: &AgentProfile, taken: &Vec<String>, r: &RoleRequirement) -> (b: bool)
    ensures
        b == fits(p@, strs_view(taken@), r@),
{
    if contains_text(taken, p.name.as_str()) {
        return false;
    }
    match &r.employee {
        Some(e) => {
            if !str_eq(p.name.as_str(), e.as_str()) {
                return false;
            }
        },
        None => {},
    }
    if !str_eq(p.specialty.role.as_str(), r.role.as_str()) {
        return false;
    }
    let mut k: usize = 0;
    while k < r.capabilities.len()
        invariant
            k <= r.capabilities@.len(),
            forall|q: int| 0 <= q < k ==> p@.capabilities.contains(#[trigger] r@.capabilities[q]),
        decreases r.capabilities.len() - k,
    {
        if !declares(&p.specialty.capabilities, &r.capabilities[k]) {
            proof {
                assert(r@.capabilities[k as int] == r.capabilities@[k as int]@);
            }
            return false;
        }
        proof {
            assert(r@.capabilities[k as int] == r.capabilities@[k as int]@);
        }
        k += 1;
    }
    true
}

fn first_fit_exec(roster: &[AgentProfile], taken: &Vec<String>, r: &RoleRequirement) -> (res: Option<usize>)
    ensures
        match res {
            Some(j) => first_fit(profiles_view(roster@), strs_view(taken@), r@) == Some(j as int),
            None => first_fit(profiles_view(roster@), strs_view(taken@), r@) is None,
        },
{
    let ghost ps = profiles_view(roster@);
    let ghost pred = fits_at(ps, strs_view(taken@), r@);
    let mut j: usize = 0;
    while j < roster.len()
        invariant
            j <= roster@.len(),
            ps == profiles_view(roster@),
            pred == fits_at(ps, strs_view(taken@), r@),
            first_where(j as int, pred) is None,
        decreases roster.len() - j,
    {
        if fits_exec(&roster[j], taken, r) {
            proof {
                assert(pred(j as int));
                assert(first_where(j + 1, pred) == Some(j as int));
                lemma_first_where_mono(j + 1, ps.len() as int, pred);
            }
            return Some(j);
        }
        j += 1;
    }
    None
}

fn limit_reason_exec(limit: usize) -> (s: String)
    ensures
        s@ == limit_reason(limit),
{
    join3("per-task worker limit ", decimal_string(limit as u64).as_str(), " reached")
}

fn unmatched_reason_exec(r: &RoleRequirement) -> (s: String)
    ensures
        s@ == unmatched_reason(r@),
{
    match &r.employee {
        None => "no employee matches the required role and capabilities".to_owned(),
        Some(e) => join3("selected employee '", e.as_str(), "' does not match the required role and capabilities"),
    }
}

fn summary_exec(assigned: usize, requested: usize, unfilled: usize) -> (v: Vec<String>)
    ensures
        strs_view(v@) == (if unfilled == 0 {
            seq![
                "selected "@ + decimal(assigned as nat) + " of "@ + decimal(requested as nat)
                    + " requested specialist assignments"@,
            ]
        } else {
            seq![
                "selected "@ + decimal(assigned as nat) + " of "@ + decimal(requested as nat)
                    + " requested specialist assignments"@,
                decimal(unfilled as nat) + " requirements remain unfilled"@,
            ]
        }),
{
    let mut v: Vec<String> = Vec::new();
    let head = join3("selected ", decimal_string(assigned as u64).as_str(), " of ");
    v.push(join3(head.as_str(), decimal_string(requested as u64).as_str(), " requested specialist assignments"));
    if unfilled > 0 {
        v.push(join3(decimal_string(unfilled as u64).as_str(), " requirements remain unfilled", ""));
    }
    proof {
        reveal_strlit("");
    }
    v
}

impl OrganizationRouter {
    /// Assigns each requirement, in order, to the first roster employee that
    /// fits it, until the worker limit is reached.
    fn staff_requirements(&self, request: &StaffingRequest, roster: &[AgentProfile], limit: usize) -> (r: (
        Vec<EmployeeAssignment>,
        Vec<UnfilledRequirement>,
    ))
        ensures
            assignments_view(r.0@) == staff(profiles_view(roster@), request@.requirements, limit, request@.requirements.len() as int).assignments,
            unfilled_view(r.1@) == staff(profiles_view(roster@), request@.requirements, limit, request@.requirements.len() as int).unfilled,
    {
        let ghost ps = profiles_view(roster@);
        let ghost rv = request@.requirements;
        let mut assignments: Vec<EmployeeAssignment> = Vec::new();
        let mut unfilled: Vec<UnfilledRequirement> = Vec::new();
        let mut taken: Vec<String> = Vec::new();
        let mut i: usize = 0;
        proof {
            assert(assignments_view(assignments@) =~= Seq::<AssignmentView>::empty());
            assert(unfilled_view(unfilled@) =~= Seq::<UnfilledView>::empty());
            assert(strs_view(taken@) =~= Seq::<Seq<char>>::empty());
            assert(taken_names(Seq::<AssignmentView>::empty()) =~= Seq::<Seq<char>>::empty());
        }
        while i < request.requirements.len()
            invariant
                ps == profiles_view(roster@),
                rv == request@.requirements,
                i <= rv.len(),
                assignments_view(assignments@) == staff(ps, rv, limit, i as int).assignments,
                unfilled_view(unfilled@) == staff(ps, rv, limit, i as int).unfilled,
                strs_view(taken@) == taken_names(staff(ps, rv, limit, i as int).assignments),
            decreases request.requirements.len() - i,
        {
            let r = &request.requirements[i];
            proof {
                assert(r@ == rv[i as int]);
            }
            let ghost a0 = assignments_view(assignments@);
            let ghost u0 = unfilled_view(unfilled@);
            let ghost t0 = strs_view(taken@);
            if assignments.len() >= limit {
                unfilled.push(unfill_one(r, limit_reason_exec(limit).as_str()));
                proof {
                    assert(unfilled_view(unfilled@) =~= u0.push(unfilled_of(r@, limit_reason(limit))));
                }
            } else {
                match first_fit_exec(roster, &taken, r) {
                    Some(j) => {
                        proof {
                            lemma_first_where(ps.len() as int, fits_at(ps, strs_view(taken@), r@));
                        }
                        let name = roster[j].name.clone();
                        taken.push(roster[j].name.clone());
                        assignments.push(
                            EmployeeAssignment {
                                employee: name,
                                role: r.role.clone(),
                                responsibility: r.responsibility.clone(),
                                matched_capabilities: clone_capabilities(&r.capabilities),
                            },
                        );
                        proof {
                            let av = AssignmentView {
                                employee: ps[j as int].name,
                                role: r@.role,
                                responsibility: r@.responsibility,
                                matched_capabilities: r@.capabilities,
                            };
                            assert(assignments_view(assignments@) =~= a0.push(av));
                            assert(strs_view(taken@) =~= t0.push(ps[j as int].name));
                            assert(taken_names(a0.push(av)) =~= taken_names(a0).push(ps[j as int].name));
                        }
                    },
                    None => {
                        unfilled.push(unfill_one(r, unmatched_reason_exec(r).as_str()));
                        proof {
                            assert(unfilled_view(unfilled@) =~= u0.push(unfilled_of(r@, unmatched_reason(r@))));
                        }
                    },
                }
            }
            i += 1;
        }
        (assignments, unfilled)
    }
}

fn matches_contract_exec(p: &AgentProfile, r: &RoleRequirement) -> (b: bool)
    ensures
        b == matches_contract(p@, r@),
{
    if !str_eq(p.specialty.role.as_str(), r.role.as_str()) {
        return false;
    }
    let mut k: usize = 0;
    while k < r.capabilities.len()
        invariant
            k <= r.capabilities@.len(),
            forall|q: int| 0 <= q < k ==> p@.capabilities.contains(#[trigger] r@.capabilities[q]),
        decreases r.capabilities.len() - k,
    {
        proof {
            assert(r@.capabilities[k as int] == r.capabilities@[k as int]@);
        }
        if !declares(&p.specialty.capabilities, &r.capabilities[k]) {
            return false;
        }
        k += 1;
    }
    true
}

fn any_required_exec(u: &Vec<UnfilledRequirement>) -> (b: bool)
    ensures
        b == any_required(unfilled_view(u@)),
{
    let mut i: usize = 0;
    while i < u.len()
        invariant
            i <= u@.len(),
            forall|q: int| 0 <= q < i ==> !(#[trigger] unfilled_view(u@)[q]).required,
        decreases u.len() - i,
    {
        if u[i].required {
            proof {
                assert(unfilled_view(u@)[i as int].required);
            }
            return true;
        }
        i += 1;
    }
    false
}

impl OrganizationRouter {
    /// Routes a request: blocks an ambiguous or oversized roster and invalid
    /// identifiers, then assigns each requirement in order to the first
    /// employee with the role and every required capability, within the
    /// worker limit. A required role that cannot be filled blocks the task.
    pub fn route(&self, request: &StaffingRequest, roster: &[AgentProfile]) -> (d: StaffingDecision)
        ensures
            d@ == route_spec(self.policy(), request@, profiles_view(roster@)),
    {
        let policy = self.policy_value();
        let ghost ps = profiles_view(roster@);
        proof {
            reveal_strlit("");
        }
        match first_repeat_exec(roster) {
            Some(i) => {
                proof {
                    lemma_first_where(ps.len() as int, repeats(ps));
                }
                let reason = join3("duplicate employee identity '", roster[i].name.as_str(), "'");
                let why = join3(
                    "employee names must be unique; duplicate identity '",
                    roster[i].name.as_str(),
                    "' is ambiguous",
                );
                return blocked(&request.requirements, policy.max_workers_per_task, reason.as_str(), why);
            },
            None => {},
        }
        if roster.len() > policy.max_employee_roster {
            let limit_text = decimal_string(policy.max_employee_roster as u64);
            let reason = join3("employee roster exceeds limit ", limit_text.as_str(), "");
            let head = join3("roster has ", decimal_string(roster.len() as u64).as_str(), " employees but policy allows at most ");
            let why = join3(head.as_str(), limit_text.as_str(), "");
            return blocked(&request.requirements, policy.max_workers_per_task, reason.as_str(), why);
        }
        let asked = match request.max_workers {
            Some(m) => m,
            None => policy.max_workers_per_task,
        };
        let limit = if asked < policy.max_workers_per_task {
            asked
        } else {
            policy.max_workers_per_task
        };
        if request.requirements.len() == 0 {
            let mut why: Vec<String> = Vec::new();
            why.push("Lead handles the task directly; no specialist is required".to_owned());
            let d = StaffingDecision {
                mode: StaffingMode::Direct,
                assignments: Vec::new(),
                unfilled: Vec::new(),
                worker_limit: limit,
                rationale: why,
            };
            proof {
                assert(assignments_view(d.assignments@) =~= Seq::<AssignmentView>::empty());
                assert(unfilled_view(d.unfilled@) =~= Seq::<UnfilledView>::empty());
                assert(strs_view(d.rationale@) =~= seq!["Lead handles the task directly; no specialist is required"@]);
            }
            return d;
        }
        match first_invalid_exec(&request.requirements) {
            Some(i) => {
                proof {
                    lemma_first_where(request@.requirements.len() as int, invalid_at(request@.requirements));
                }
                let mut u: Vec<UnfilledRequirement> = Vec::new();
                u.push(unfill_one(&request.requirements[i], "role and capability identifiers must be non-empty"));
                let mut why: Vec<String> = Vec::new();
                why.push("staffing request contains an invalid open identifier".to_owned());
                let d = StaffingDecision {
                    mode: StaffingMode::Blocked,
                    assignments: Vec::new(),
                    unfilled: u,
                    worker_limit: limit,
                    rationale: why,
                };
                proof {
                    assert(assignments_view(d.assignments@) =~= Seq::<AssignmentView>::empty());
                    assert(unfilled_view(d.unfilled@) =~= seq![
                        unfilled_of(request@.requirements[i as int], "role and capability identifiers must be non-empty"@),
                    ]);
                    assert(strs_view(d.rationale@) =~= seq!["staffing request contains an invalid open identifier"@]);
                }
                return d;
            },
            None => {},
        }
        if limit == 0 {
            return blocked(
                &request.requirements,
                limit,
                "per-task worker limit is zero",
                "specialists were requested but the effective worker limit is zero".to_owned(),
            );
        }
        let (assignments, unfilled) = self.staff_requirements(request, roster, limit);
        let blocked_now = any_required_exec(&unfilled);
        let mode = if blocked_now {
            StaffingMode::Blocked
        } else if assignments.len() == 1 {
            StaffingMode::SingleSpecialist
        } else if assignments.len() > 1 {
            StaffingMode::MultiSpecialist
        } else {
            StaffingMode::Direct
        };
        let rationale = summary_exec(assignments.len(), request.requirements.len(), unfilled.len());
        StaffingDecision { mode, assignments, unfilled, worker_limit: limit, rationale }
    }

    /// Routes a task the user gave to one named employee, with the same
    /// roster, role, capability and worker-limit checks as manager
    /// selection. Direct assignment grants no capability the profile does
    /// not declare.
    pub fn route_to_employee(&self, request: &StaffingRequest, roster: &[AgentProfile], employee_name: &str) -> (d:
        StaffingDecision)
        ensures
            d@ == route_to_spec(self.policy(), request@, profiles_view(roster@), employee_name@),
    {
        let policy = self.policy_value();
        let ghost ps = profiles_view(roster@);
        let ghost e = employee_name@;
        let mut matching: usize = 0;
        let mut j: usize = 0;
        while j < roster.len()
            invariant
                j <= roster@.len(),
                ps == profiles_view(roster@),
                e == employee_name@,
                matching == count_named(ps, e, j as int),
                matching <= j,
            decreases roster.len() - j,
        {
            proof {
                assert(ps[j as int].name == roster@[j as int].name@);
            }
            if str_eq(roster[j].name.as_str(), employee_name) {
                matching += 1;
            }
            j += 1;
        }
        if matching != 1 {
            let head = join3("direct employee '", employee_name, "' must resolve to exactly one roster entry; found ");
            let m = join3(head.as_str(), decimal_string(matching as u64).as_str(), "");
            proof {
                reveal_strlit("");
            }
            return blocked_decision(request, policy.max_workers_per_task, m);
        }
        if request.requirements.len() != 1 {
            return blocked_decision(
                request,
                policy.max_workers_per_task,
                "direct employee assignment requires exactly one role requirement".to_owned(),
            );
        }
        let ghost pred = named_at(ps, e);
        let mut t: usize = 0;
        while t < roster.len() && !str_eq(roster[t].name.as_str(), employee_name)
            invariant
                t <= roster@.len(),
                ps == profiles_view(roster@),
                e == employee_name@,
                pred == named_at(ps, e),
                first_where(t as int, pred) is None,
            decreases roster.len() - t,
        {
            proof {
                assert(ps[t as int].name == roster@[t as int].name@);
                assert(!pred(t as int));
            }
            t += 1;
        }
        proof {
            lemma_first_where(roster@.len() as int, pred);
            if t == roster@.len() {
                lemma_count_none(ps, e, ps.len() as int);
            }
        }
        if t >= roster.len() {
            return self.route(request, roster);
        }
        proof {
            assert(pred(t as int));
            assert(first_where(t + 1, pred) == Some(t as int));
            lemma_first_where_mono(t + 1, ps.len() as int, pred);
        }
        let mut reordered: Vec<AgentProfile> = Vec::new();
        let mut q: usize = 0;
        while q < roster.len()
            invariant
                q <= roster@.len(),
                t < roster@.len(),
                ps == profiles_view(roster@),
                reordered@.len() == q,
                forall|k: int| 0 <= k < q ==> (#[trigger] reordered@[k])@ == swap_first(ps, t as int)[k],
            decreases roster.len() - q,
        {
            if q == 0 {
                reordered.push(roster[t].clone());
            } else if q == t {
                reordered.push(roster[0].clone());
            } else {
                reordered.push(roster[q].clone());
            }
            q += 1;
        }
        proof {
            assert(profiles_view(reordered@) =~= swap_first(ps, t as int));
        }
        let mut decision = self.route(request, reordered.as_slice());
        if decision.can_execute() {
            let target_matches = matches_contract_exec(&reordered[0], &request.requirements[0]);
            let selected = decision.assignments.len() == 1 && str_eq(decision.assignments[0].employee.as_str(), employee_name);
            if !target_matches || !selected {
                let m = join3("direct employee '", employee_name, "' did not match the requested capability contract");
                return blocked_decision(request, decision.worker_limit, m);
            }
            let ghost before = decision@;
            decision.rationale.push(join3("user directly assigned the task to employee '", employee_name, "'"));
            proof {
                assert(decision@.rationale =~= before.rationale.push(
                    "user directly assigned the task to employee '"@ + e + "'"@,
                ));
            }
        }
        decision
    }
}

pub proof fn lemma_count_none(roster: Seq<ProfileView>, e: Seq<char>, n: int)
    requires
        0 <= n <= roster.len(),
        forall|j: int| 0 <= j < n ==> !#[trigger] named_at(roster, e)(j),
    ensures
        count_named(roster, e, n) == 0,
    decreases n,
{
    if n > 0 {
        assert(!named_at(roster, e)(n - 1));
        lemma_count_none(roster, e, n - 1);
    }
}

} // verus!

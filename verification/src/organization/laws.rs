//! What routing promises whatever the request and roster.
use vstd::prelude::*;
use crate::profile::ProfileView;
use super::types::{decision_can_execute, StaffingPolicy, StaffingRequestView};
use super::routing::{
    first_fit, first_where, fits, fits_at, lemma_count_none, lemma_first_where, matches_contract,
    named_at, route_spec, route_to_spec, staff, swap_first, taken_names, count_named,
};

verus! {

/// Facts the greedy assignment keeps after the first `n` requirements.
pub open spec fn staffed_well(roster: Seq<ProfileView>, s: super::routing::Staffing, n: int, limit: usize) -> bool {
    &&& s.assignments.len() + s.unfilled.len() == n
    &&& s.assignments.len() <= limit
    &&& forall|k: int|
        0 <= k < s.assignments.len() ==> exists|j: int|
            0 <= j < roster.len() && (#[trigger] roster[j]).name == (#[trigger] s.assignments[k]).employee
                && roster[j].role == s.assignments[k].role && forall|c: Seq<char>|
                #[trigger] s.assignments[k].matched_capabilities.contains(c) ==> roster[j].capabilities.contains(c)
    &&& forall|k: int, l: int|
        0 <= k < l < s.assignments.len() ==> (#[trigger] s.assignments[k]).employee != (
        #[trigger] s.assignments[l]).employee
}

pub proof fn lemma_staff(
    roster: Seq<ProfileView>,
    reqs: Seq<super::types::RequirementView>,
    limit: usize,
    n: int,
)
    requires
        0 <= n <= reqs.len(),
    ensures
        staffed_well(roster, staff(roster, reqs, limit, n), n, limit),
    decreases n,
{
    if n > 0 {
        lemma_staff(roster, reqs, limit, n - 1);
        let s = staff(roster, reqs, limit, n - 1);
        let r = reqs[n - 1];
        let t = staff(roster, reqs, limit, n);
        if s.assignments.len() < limit {
            let taken = taken_names(s.assignments);
            lemma_first_where(roster.len() as int, fits_at(roster, taken, r));
            match first_fit(roster, taken, r) {
                Some(j) => {
                    assert(fits(roster[j], taken, r));
                    let k0 = s.assignments.len() as int;
                    assert forall|k: int|
                        0 <= k < t.assignments.len() implies exists|q: int|
                            0 <= q < roster.len() && (#[trigger] roster[q]).name == (#[trigger] t.assignments[k]).employee
                                && roster[q].role == t.assignments[k].role && forall|c: Seq<char>|
                                #[trigger] t.assignments[k].matched_capabilities.contains(c) ==> roster[q].capabilities.contains(c) by {
                        if k == k0 {
                            assert forall|c: Seq<char>| #[trigger] t.assignments[k].matched_capabilities.contains(c) implies roster[j].capabilities.contains(c) by {
                                let i = choose|i: int| 0 <= i < r.capabilities.len() && r.capabilities[i] == c;
                            }
                        } else {
                            assert(t.assignments[k] == s.assignments[k]);
                        }
                    }
                    assert forall|k: int, l: int| 0 <= k < l < t.assignments.len() implies (#[trigger] t.assignments[k]).employee != (
                    #[trigger] t.assignments[l]).employee by {
                        if l == k0 {
                            assert(taken[k] == s.assignments[k].employee);
                            assert(taken.contains(s.assignments[k].employee));
                        } else {
                            assert(t.assignments[k] == s.assignments[k]);
                            assert(t.assignments[l] == s.assignments[l]);
                        }
                    }
                },
                None => {
                    assert forall|k: int| 0 <= k < t.assignments.len() implies t.assignments[k] == s.assignments[k] by {}
                },
            }
        }
    }
}

/// The router assigns no more workers than the effective limit, and that
/// limit never exceeds the policy's.
pub proof fn law_route_limits(policy: StaffingPolicy, req: StaffingRequestView, roster: Seq<ProfileView>)
    ensures
        route_spec(policy, req, roster).assignments.len() <= route_spec(policy, req, roster).worker_limit,
        route_spec(policy, req, roster).worker_limit <= policy.max_workers_per_task,
{
    let limit = super::routing::effective_limit(policy, req.max_workers);
    lemma_staff(roster, req.requirements, limit, req.requirements.len() as int);
}

/// Every assignment goes to a roster employee with the requirement's role
/// who declares every matched capability, and no employee is assigned twice.
pub proof fn law_route_exact_match(policy: StaffingPolicy, req: StaffingRequestView, roster: Seq<ProfileView>)
    ensures
        ({
            let d = route_spec(policy, req, roster);
            &&& forall|k: int|
                0 <= k < d.assignments.len() ==> exists|j: int|
                    0 <= j < roster.len() && (#[trigger] roster[j]).name == (#[trigger] d.assignments[k]).employee
                        && roster[j].role == d.assignments[k].role && forall|c: Seq<char>|
                        #[trigger] d.assignments[k].matched_capabilities.contains(c) ==> roster[j].capabilities.contains(c)
            &&& forall|k: int, l: int|
                0 <= k < l < d.assignments.len() ==> (#[trigger] d.assignments[k]).employee != (
                #[trigger] d.assignments[l]).employee
        }),
{
    let limit = super::routing::effective_limit(policy, req.max_workers);
    lemma_staff(roster, req.requirements, limit, req.requirements.len() as int);
}

/// A decision that can run accounts for every requirement, as assigned or
/// as optional and unfilled: a required role is never dropped silently.
pub proof fn law_route_accounts_for_requirements(
    policy: StaffingPolicy,
    req: StaffingRequestView,
    roster: Seq<ProfileView>,
)
    ensures
        decision_can_execute(route_spec(policy, req, roster)) ==> route_spec(policy, req, roster).assignments.len()
            + route_spec(policy, req, roster).unfilled.len() == req.requirements.len(),
{
    let limit = super::routing::effective_limit(policy, req.max_workers);
    lemma_staff(roster, req.requirements, limit, req.requirements.len() as int);
}

/// A direct assignment that can run goes to the named employee alone, who
/// has the requested role and declares every requested capability.
pub proof fn law_direct_assignment(
    policy: StaffingPolicy,
    req: StaffingRequestView,
    roster: Seq<ProfileView>,
    e: Seq<char>,
)
    ensures
        decision_can_execute(route_to_spec(policy, req, roster, e)) ==> {
            let d = route_to_spec(policy, req, roster, e);
            &&& d.assignments.len() == 1
            &&& d.assignments[0].employee == e
            &&& exists|j: int|
                0 <= j < roster.len() && (#[trigger] roster[j]).name == e && matches_contract(
                    roster[j],
                    req.requirements[0],
                )
        },
{
    let d = route_to_spec(policy, req, roster, e);
    if decision_can_execute(d) {
        let pred = named_at(roster, e);
        lemma_first_where(roster.len() as int, pred);
        if first_where(roster.len() as int, pred) is None {
            lemma_count_none(roster, e, roster.len() as int);
        }
        let t = first_where(roster.len() as int, pred)->0;
        let reordered = swap_first(roster, t);
        assert(reordered[0] == roster[t]);
    }
}

} // verus!

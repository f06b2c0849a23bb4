//! Admitting a planner's staffing proposal through fixed policy: the model
//! may propose, only these checks decide.
use vstd::prelude::*;
use crate::text::{blank, chars_of, decimal, decimal_string, is_blank, join2, join3, str_eq, string_of, trim, trimmed};
use crate::execution_graph::types::strs_view;
use crate::organization::types::{
    requirements_view, CollaborationMode, RequirementView, RoleRequirement, StaffingRequest,
    StaffingRequestView, DEFAULT_MAX_WORKERS_PER_TASK,
};
use crate::profile::{caps_view, profiles_view, AgentProfile, EmployeeCapability, EmployeeRole, ProfileView};
use crate::execution_graph::structure::contains_text;

verus! {

pub const MIN_SEPARABILITY: u8 = 60;

pub const MIN_SPECIALIZATION_BENEFIT: u8 = 70;

pub const MAX_MERGE_RISK: u8 = 50;

#[derive(Debug, Clone, Copy, PartialEq, Eq, Structural)]
pub enum AutoDelegationStrategy {
    SingleAgent,
    MultiAgent,
}

impl AutoDelegationStrategy {
    pub fn as_str(self) -> (r: &'static str)
        ensures
            r@ == (match self {
                AutoDelegationStrategy::SingleAgent => "single_agent"@,
                AutoDelegationStrategy::MultiAgent => "multi_agent"@,
            }),
    {
        match self {
            AutoDelegationStrategy::SingleAgent => "single_agent",
            AutoDelegationStrategy::MultiAgent => "multi_agent",
        }
    }
}

/// Whether to run one agent or several, and the staffing to route.
#[derive(Debug, PartialEq, Eq)]
pub struct AutoDelegationDecision {
    pub strategy: AutoDelegationStrategy,
    pub reason: String,
    pub collaboration: CollaborationMode,
    pub staffing: StaffingRequest,
}

pub struct DecisionView {
    pub strategy: AutoDelegationStrategy,
    pub reason: Seq<char>,
    pub collaboration: CollaborationMode,
    pub staffing: StaffingRequestView,
}

impl View for AutoDelegationDecision {
    type V = DecisionView;

    open spec fn view(&self) -> DecisionView {
        DecisionView {
            strategy: self.strategy,
            reason: self.reason@,
            collaboration: self.collaboration,
            staffing: self.staffing@,
        }
    }
}

/// The main agent handles the objective alone, for the reason given.
pub open spec fn single_view(objective: Seq<char>, reason: Seq<char>) -> DecisionView {
    DecisionView {
        strategy: AutoDelegationStrategy::SingleAgent,
        reason,
        collaboration: CollaborationMode::Independent,
        staffing: StaffingRequestView { objective, requirements: Seq::empty(), max_workers: Some(0usize) },
    }
}

impl AutoDelegationDecision {
    pub fn single(objective: &str, reason: &str) -> (d: Self)
        ensures
            d@ == single_view(objective@, reason@),
    {
        let staffing = StaffingRequest::direct(objective);
        proof {
            assert(staffing@.requirements =~= Seq::<RequirementView>::empty());
        }
        AutoDelegationDecision {
            strategy: AutoDelegationStrategy::SingleAgent,
            reason: reason.to_owned(),
            collaboration: CollaborationMode::Independent,
            staffing,
        }
    }

    pub fn worker_count(&self) -> (n: usize)
        ensures
            n == self@.staffing.requirements.len(),
    {
        self.staffing.requirements.len()
    }
}

/// A planner's proposal, as parsed from its answer.
#[derive(Debug, PartialEq, Eq)]
pub struct PlannerProposal {
    pub strategy: AutoDelegationStrategy,
    pub reason: String,
    pub mutation_required: bool,
    pub collaboration: CollaborationMode,
    pub separability: u8,
    pub specialization_benefit: u8,
    pub merge_risk: u8,
    pub max_workers: usize,
    pub requirements: Vec<PlannerRequirement>,
}

#[derive(Debug, PartialEq, Eq)]
pub struct PlannerRequirement {
    pub employee: String,
    pub role: String,
    pub capabilities: Vec<String>,
    pub responsibility: String,
}

pub struct PlannerRequirementView {
    pub employee: Seq<char>,
    pub role: Seq<char>,
    pub capabilities: Seq<Seq<char>>,
    pub responsibility: Seq<char>,
}

impl View for PlannerRequirement {
    type V = PlannerRequirementView;

    open spec fn view(&self) -> PlannerRequirementView {
        PlannerRequirementView {
            employee: self.employee@,
            role: self.role@,
            capabilities: strs_view(self.capabilities@),
            responsibility: self.responsibility@,
        }
    }
}

pub open spec fn planner_reqs_view(v: Seq<PlannerRequirement>) -> Seq<PlannerRequirementView> {
    v.map_values(|r: PlannerRequirement| r@)
}

pub open spec fn why_single_default() -> Seq<char> {
    "规划器判断多 Agent 收益不足"@
}

pub open spec fn why_mutation() -> Seq<char> {
    "任务涉及副作用；自动模式没有用户定义的文件或资源边界，交由主 AI 处理"@
}

pub open spec fn why_scores() -> Seq<char> {
    "自动编排评分超出 0–100，已回退主 AI"@
}

pub open spec fn why_benefit() -> Seq<char> {
    "子任务可分性和专业化收益未达到自动多 Agent 准入线"@
}

pub open spec fn why_merge() -> Seq<char> {
    "结果合并风险过高，交由主 AI 统一处理"@
}

pub open spec fn why_count() -> Seq<char> {
    "自动多 Agent 方案必须使用 2–"@ + decimal(DEFAULT_MAX_WORKERS_PER_TASK as nat) + " 名员工，已回退主 AI"@
}

pub open spec fn why_employee() -> Seq<char> {
    "自动编排包含空或重复员工，已回退主 AI"@
}

pub open spec fn why_roster() -> Seq<char> {
    "自动编排选择了名单外员工，已回退主 AI"@
}

pub open spec fn why_role() -> Seq<char> {
    "自动编排的员工岗位不匹配，已回退主 AI"@
}

pub open spec fn why_responsibility() -> Seq<char> {
    "自动编排存在空职责，已回退主 AI"@
}

pub open spec fn why_capability() -> Seq<char> {
    "自动编排要求了员工不具备的能力，已回退主 AI"@
}

/// The first roster profile with the name.
pub open spec fn roster_index(roster: Seq<ProfileView>, name: Seq<char>) -> Option<int> {
    crate::organization::routing::first_where(roster.len() as int, crate::organization::routing::named_at(roster, name))
}

/// Checks the first `n` proposed requirements in order; the first failing
/// check gives the reason, else the admitted requirements.
pub open spec fn admit_requirements(
    roster: Seq<ProfileView>,
    reqs: Seq<PlannerRequirementView>,
    n: int,
) -> Result<Seq<RequirementView>, Seq<char>>
    decreases n,
{
    if n <= 0 {
        Ok(Seq::empty())
    } else {
        match admit_requirements(roster, reqs, n - 1) {
            Err(why) => Err(why),
            Ok(done) => {
                let r = reqs[n - 1];
                let employee = trimmed(r.employee);
                let earlier = Seq::new((n - 1) as nat, |k: int| trimmed(reqs[k].employee));
                if blank(r.employee) || earlier.contains(employee) {
                    Err(why_employee())
                } else {
                    match roster_index(roster, employee) {
                        None => Err(why_roster()),
                        Some(j) => if trimmed(r.role) != roster[j].role {
                            Err(why_role())
                        } else if blank(r.responsibility) {
                            Err(why_responsibility())
                        } else if exists|k: int|
                            0 <= k < r.capabilities.len() && (blank(#[trigger] r.capabilities[k])
                                || !roster[j].capabilities.contains(r.capabilities[k])) {
                            Err(why_capability())
                        } else {
                            Ok(
                                done.push(
                                    RequirementView {
                                        role: r.role,
                                        employee: Some(employee),
                                        capabilities: r.capabilities,
                                        responsibility: trimmed(r.responsibility),
                                        required: true,
                                    },
                                ),
                            )
                        },
                    }
                }
            },
        }
    }
}

pub open spec fn multi_reason(p: PlannerProposal) -> Seq<char> {
    trimmed(p.reason@) + "（可分性 "@ + decimal(p.separability as nat) + "，专业收益 "@ + decimal(
        p.specialization_benefit as nat,
    ) + "，合并风险 "@ + decimal(p.merge_risk as nat) + "）"@
}

/// What policy makes of a proposal: the main agent alone unless the
/// proposal asks for several agents, needs no side effects, scores within
/// range and above the admission lines, names two to three distinct roster
/// employees with their own roles, non-empty responsibilities and declared
/// capabilities.
pub open spec fn admit_spec(objective: Seq<char>, roster: Seq<ProfileView>, p: PlannerProposal) -> DecisionView {
    let count = p.requirements@.len();
    if p.strategy is SingleAgent {
        single_view(objective, if blank(p.reason@) { why_single_default() } else { trimmed(p.reason@) })
    } else if p.mutation_required {
        single_view(objective, why_mutation())
    } else if p.separability > 100 || p.specialization_benefit > 100 || p.merge_risk > 100 {
        single_view(objective, why_scores())
    } else if p.separability < MIN_SEPARABILITY && p.specialization_benefit < MIN_SPECIALIZATION_BENEFIT {
        single_view(objective, why_benefit())
    } else if p.merge_risk > MAX_MERGE_RISK {
        single_view(objective, why_merge())
    } else if !(2 <= count <= DEFAULT_MAX_WORKERS_PER_TASK) || p.max_workers < count || p.max_workers
        > DEFAULT_MAX_WORKERS_PER_TASK {
        single_view(objective, why_count())
    } else {
        match admit_requirements(roster, planner_reqs_view(p.requirements@), count as int) {
            Err(why) => single_view(objective, why),
            Ok(reqs) => DecisionView {
                strategy: AutoDelegationStrategy::MultiAgent,
                reason: multi_reason(p),
                collaboration: p.collaboration,
                staffing: StaffingRequestView { objective, requirements: reqs, max_workers: Some(count as usize) },
            },
        }
    }
}

fn count_message() -> (s: String)
    ensures
        s@ == why_count(),
{
    join3("自动多 Agent 方案必须使用 2–", decimal_string(DEFAULT_MAX_WORKERS_PER_TASK as u64).as_str(), " 名员工，已回退主 AI")
}

pub(crate) fn roster_position(roster: &[AgentProfile], name: &str) -> (r: Option<usize>)
    ensures
        match r {
            Some(j) => roster_index(profiles_view(roster@), name@) == Some(j as int),
            None => roster_index(profiles_view(roster@), name@) is None,
        },
{
    let ghost ps = profiles_view(roster@);
    let ghost pred = crate::organization::routing::named_at(ps, name@);
    let mut j: usize = 0;
    while j < roster.len()
        invariant
            j <= roster@.len(),
            ps == profiles_view(roster@),
            pred == crate::organization::routing::named_at(ps, name@),
            crate::organization::routing::first_where(j as int, pred) is None,
        decreases roster.len() - j,
    {
        proof {
            assert(ps[j as int].name == roster@[j as int].name@);
        }
        if str_eq(roster[j].name.as_str(), name) {
            proof {
                assert(pred(j as int));
                assert(crate::organization::routing::first_where(j + 1, pred) == Some(j as int));
                crate::organization::routing::lemma_first_where_mono(j + 1, ps.len() as int, pred);
            }
            return Some(j);
        }
        j += 1;
    }
    None
}

/// Whether every requested capability is named and declared by the profile.
fn capabilities_fit(caps: &Vec<String>, profile: &AgentProfile) -> (b: bool)
    ensures
        b == !exists|k: int|
            0 <= k < caps@.len() && (blank(#[trigger] strs_view(caps@)[k]) || !profile@.capabilities.contains(
                strs_view(caps@)[k],
            )),
{
    let mut k: usize = 0;
    while k < caps.len()
        invariant
            k <= caps@.len(),
            forall|q: int|
                0 <= q < k ==> !blank(#[trigger] strs_view(caps@)[q]) && profile@.capabilities.contains(
                    strs_view(caps@)[q],
                ),
        decreases caps.len() - k,
    {
        let c = EmployeeCapability::new(caps[k].as_str());
        proof {
            assert(strs_view(caps@)[k as int] == caps@[k as int]@);
        }
        if !c.is_valid() || !declares_capability(&profile.specialty.capabilities, &c) {
            return false;
        }
        k += 1;
    }
    true
}

fn declares_capability(caps: &Vec<EmployeeCapability>, c: &EmployeeCapability) -> (b: bool)
    ensures
        b == caps_view(caps@).contains(c@),
{
    let mut i: usize = 0;
    while i < caps.len()
        invariant
            i <= caps@.len(),
            forall|q: int| 0 <= q < i ==> caps_view(caps@)[q] != c@,
        decreases caps.len() - i,
    {
        if str_eq(caps[i].as_str(), c.as_str()) {
            proof {
                assert(caps_view(caps@)[i as int] == c@);
            }
            return true;
        }
        i += 1;
    }
    false
}

fn capabilities_of(caps: &Vec<String>) -> (v: Vec<EmployeeCapability>)
    ensures
        caps_view(v@) == strs_view(caps@),
{
    let mut v: Vec<EmployeeCapability> = Vec::new();
    let mut i: usize = 0;
    while i < caps.len()
        invariant
            i <= caps@.len(),
            v@.len() == i,
            forall|q: int| 0 <= q < i ==> (#[trigger] v@[q])@ == caps@[q]@,
        decreases caps.len() - i,
    {
        v.push(EmployeeCapability::new(caps[i].as_str()));
        i += 1;
    }
    assert(caps_view(v@) =~= strs_view(caps@));
    v
}


proof fn lemma_admit_err(roster: Seq<ProfileView>, reqs: Seq<PlannerRequirementView>, n: int, m: int)
    requires
        0 <= n <= m,
        admit_requirements(roster, reqs, n) is Err,
    ensures
        admit_requirements(roster, reqs, m) == admit_requirements(roster, reqs, n),
    decreases m - n,
{
    if n < m {
        lemma_admit_err(roster, reqs, n, m - 1);
    }
}

/// Checks the proposed requirements in order and builds the admitted ones.
fn admit_requirement_list(roster: &[AgentProfile], reqs: &Vec<PlannerRequirement>) -> (r: Result<
    Vec<RoleRequirement>,
    String,
>)
    ensures
        match r {
            Ok(v) => admit_requirements(profiles_view(roster@), planner_reqs_view(reqs@), reqs@.len() as int)
                == Ok::<Seq<RequirementView>, Seq<char>>(requirements_view(v@)),
            Err(m) => admit_requirements(profiles_view(roster@), planner_reqs_view(reqs@), reqs@.len() as int)
                == Err::<Seq<RequirementView>, Seq<char>>(m@),
        },
{
    let ghost ps = profiles_view(roster@);
    let ghost rv = planner_reqs_view(reqs@);
    let mut out: Vec<RoleRequirement> = Vec::new();
    let mut seen: Vec<String> = Vec::new();
    let mut i: usize = 0;
    proof {
        assert(requirements_view(out@) =~= Seq::<RequirementView>::empty());
    }
    while i < reqs.len()
        invariant
            i <= rv.len(),
            ps == profiles_view(roster@),
            rv == planner_reqs_view(reqs@),
            admit_requirements(ps, rv, i as int) == Ok::<Seq<RequirementView>, Seq<char>>(requirements_view(out@)),
            strs_view(seen@) =~= Seq::new(i as nat, |k: int| trimmed(rv[k].employee)),
        decreases reqs.len() - i,
    {
        let r = &reqs[i];
        proof {
            assert(r@ == rv[i as int]);
        }
        let employee = trim(r.employee.as_str());
        if is_blank(r.employee.as_str()) || contains_text(&seen, employee.as_str()) {
            let m = "自动编排包含空或重复员工，已回退主 AI".to_owned();
            proof {
                lemma_admit_err(ps, rv, i + 1, rv.len() as int);
            }
            return Err(m);
        }
        let j = match roster_position(roster, employee.as_str()) {
            Some(j) => j,
            None => {
                let m = "自动编排选择了名单外员工，已回退主 AI".to_owned();
            proof {
                lemma_admit_err(ps, rv, i + 1, rv.len() as int);
            }
            return Err(m);
            },
        };
        proof {
            crate::organization::routing::lemma_first_where(ps.len() as int, crate::organization::routing::named_at(ps, employee@));
        }
        let role = trim(r.role.as_str());
        if !str_eq(role.as_str(), roster[j].specialty.role.as_str()) {
            let m = "自动编排的员工岗位不匹配，已回退主 AI".to_owned();
            proof {
                lemma_admit_err(ps, rv, i + 1, rv.len() as int);
            }
            return Err(m);
        }
        if is_blank(r.responsibility.as_str()) {
            let m = "自动编排存在空职责，已回退主 AI".to_owned();
            proof {
                lemma_admit_err(ps, rv, i + 1, rv.len() as int);
            }
            return Err(m);
        }
        if !capabilities_fit(&r.capabilities, &roster[j]) {
            let m = "自动编排要求了员工不具备的能力，已回退主 AI".to_owned();
            proof {
                lemma_admit_err(ps, rv, i + 1, rv.len() as int);
            }
            return Err(m);
        }
        let ghost before = requirements_view(out@);
        let ghost seen0 = strs_view(seen@);
        out.push(
            RoleRequirement {
                role: EmployeeRole::new(r.role.as_str()),
                employee: Some(employee.clone()),
                capabilities: capabilities_of(&r.capabilities),
                responsibility: trim(r.responsibility.as_str()),
                required: true,
            },
        );
        seen.push(employee);
        proof {
            assert(requirements_view(out@) =~= before.push(
                RequirementView {
                    role: rv[i as int].role,
                    employee: Some(trimmed(rv[i as int].employee)),
                    capabilities: rv[i as int].capabilities,
                    responsibility: trimmed(rv[i as int].responsibility),
                    required: true,
                },
            ));
            assert(strs_view(seen@) =~= seen0.push(trimmed(rv[i as int].employee)));
        }
        i += 1;
    }
    Ok(out)
}

/// Admits a planner's proposal through the fixed policy.
pub fn admit_proposal(objective: &str, roster: &[AgentProfile], proposal: PlannerProposal) -> (d: AutoDelegationDecision)
    ensures
        d@ == admit_spec(objective@, profiles_view(roster@), proposal),
{
    let ghost p = proposal;
    if proposal.strategy == AutoDelegationStrategy::SingleAgent {
        if is_blank(proposal.reason.as_str()) {
            return AutoDelegationDecision::single(objective, "规划器判断多 Agent 收益不足");
        }
        let reason = trim(proposal.reason.as_str());
        return AutoDelegationDecision::single(objective, reason.as_str());
    }
    if proposal.mutation_required {
        return AutoDelegationDecision::single(
            objective,
            "任务涉及副作用；自动模式没有用户定义的文件或资源边界，交由主 AI 处理",
        );
    }
    if proposal.separability > 100 || proposal.specialization_benefit > 100 || proposal.merge_risk > 100 {
        return AutoDelegationDecision::single(objective, "自动编排评分超出 0–100，已回退主 AI");
    }
    if proposal.separability < MIN_SEPARABILITY && proposal.specialization_benefit < MIN_SPECIALIZATION_BENEFIT {
        return AutoDelegationDecision::single(objective, "子任务可分性和专业化收益未达到自动多 Agent 准入线");
    }
    if proposal.merge_risk > MAX_MERGE_RISK {
        return AutoDelegationDecision::single(objective, "结果合并风险过高，交由主 AI 统一处理");
    }
    let count = proposal.requirements.len();
    if !(2 <= count && count <= DEFAULT_MAX_WORKERS_PER_TASK) || proposal.max_workers < count || proposal.max_workers
        > DEFAULT_MAX_WORKERS_PER_TASK {
        let m = count_message();
        return AutoDelegationDecision::single(objective, m.as_str());
    }
    let requirements = match admit_requirement_list(roster, &proposal.requirements) {
        Ok(v) => v,
        Err(m) => {
            return AutoDelegationDecision::single(objective, m.as_str());
        },
    };
    let r1 = join3(trim(proposal.reason.as_str()).as_str(), "（可分性 ", decimal_string(proposal.separability as u64).as_str());
    let r2 = join3(r1.as_str(), "，专业收益 ", decimal_string(proposal.specialization_benefit as u64).as_str());
    let reason = join3(r2.as_str(), "，合并风险 ", join3(decimal_string(proposal.merge_risk as u64).as_str(), "）", "").as_str());
    proof {
        reveal_strlit("");
        assert(reason@ =~= multi_reason(p));
    }
    AutoDelegationDecision {
        strategy: AutoDelegationStrategy::MultiAgent,
        reason,
        collaboration: proposal.collaboration,
        staffing: StaffingRequest { objective: objective.to_owned(), requirements, max_workers: Some(count) },
    }
}

/// The JSON object inside a planner's answer: from its first `{` to its
/// last `}`, when the last comes after the first.
pub open spec fn json_object_in(text: Seq<char>) -> Option<Seq<char>> {
    if exists|i: int| 0 <= i < text.len() && text[i] == '{' {
        let start = choose|i: int| 0 <= i < text.len() && text[i] == '{' && forall|k: int| 0 <= k < i ==> text[k] != '{';
        if exists|j: int| 0 <= j < text.len() && text[j] == '}' {
            let end = choose|j: int| 0 <= j < text.len() && text[j] == '}' && forall|k: int| j < k < text.len() ==> text[k] != '}';
            if end >= start {
                Some(text.subrange(start, end + 1))
            } else {
                None
            }
        } else {
            None
        }
    } else {
        None
    }
}

/// The JSON object inside a planner's answer.
pub fn extract_json_object(text: &str) -> (r: Option<String>)
    ensures
        crate::execution_graph::types::opt_view(r) == json_object_in(text@),
{
    let v = chars_of(text);
    let n = v.len();
    let mut i: usize = 0;
    while i < n && v[i] != '{'
        invariant
            i <= n,
            n == v@.len(),
            v@ == text@,
            forall|k: int| 0 <= k < i ==> v@[k] != '{',
        decreases n - i,
    {
        i += 1;
    }
    if i == n {
        return None;
    }
    let mut j: usize = n;
    while j > 0 && v[j - 1] != '}'
        invariant
            j <= n,
            n == v@.len(),
            v@ == text@,
            forall|k: int| j <= k < n ==> v@[k] != '}',
        decreases j,
    {
        j -= 1;
    }
    if j == 0 {
        return None;
    }
    let end = j - 1;
    let ghost t = text@;
    proof {
        let start = choose|a: int| 0 <= a < t.len() && t[a] == '{' && forall|k: int| 0 <= k < a ==> t[k] != '{';
        assert(start == i) by {
            if start < i {
            } else if start > i {
                assert(t[i as int] == '{');
            }
        }
        let e = choose|b: int| 0 <= b < t.len() && t[b] == '}' && forall|k: int| b < k < t.len() ==> t[k] != '}';
        assert(e == end) by {
            if e < end {
                assert(t[end as int] == '}');
            } else if e > end {
            }
        }
    }
    if end < i {
        return None;
    }
    let mut out: Vec<char> = Vec::new();
    let mut q = i;
    while q <= end
        invariant
            i <= q <= end + 1,
            end < n,
            n == v@.len(),
            out@ =~= v@.subrange(i as int, q as int),
        decreases end + 1 - q,
    {
        out.push(v[q]);
        q += 1;
    }
    Some(string_of(&out))
}

/// What came back from asking the planner model for a proposal.
pub enum PlannerReply {
    /// The provider call failed, with the error's text.
    ProviderFailed(String),
    /// The response held no choice.
    NoChoice,
    /// The answer did not parse as a proposal, with the parse error's text.
    Malformed(String),
    /// The parsed proposal.
    Proposal(PlannerProposal),
}

pub open spec fn why_short_roster() -> Seq<char> {
    "可用于自动只读协作的员工不足 2 名，交由主 AI 处理"@
}

/// The decision for each possible reply: every failure falls back to the
/// main agent with a reason naming it; a proposal goes through admission.
pub open spec fn reply_decision(objective: Seq<char>, roster: Seq<ProfileView>, reply: PlannerReply) -> DecisionView {
    match reply {
        PlannerReply::ProviderFailed(e) => single_view(objective, "自动编排规划失败，已回退主 AI："@ + e@),
        PlannerReply::NoChoice => single_view(objective, "自动编排规划未返回候选方案，已回退主 AI"@),
        PlannerReply::Malformed(e) => single_view(objective, "自动编排候选方案格式无效，已回退主 AI："@ + e@),
        PlannerReply::Proposal(p) => admit_spec(objective, roster, p),
    }
}

/// The text the planner model is instructed with, ending in the roster it
/// may choose from.
pub open spec fn planner_instructions() -> Seq<char> {
    "你是多 Agent 路由规划器，只提出候选方案，不执行任务。\n仅当任务能拆成 2 到 3 个边界清楚、确有专业收益的只读子任务时选择 multi_agent；否则选择 single_agent。\n任何写文件、改代码、发消息、提交表单、操作外部系统或其他副作用，都必须令 mutation_required=true，并选择 single_agent。\n员工只能从给定名单精确选择；role 和 capabilities 必须逐字来自该员工资料。员工不得重复。\nseparability、specialization_benefit、merge_risk 均为 0 到 100 的整数。\n只输出一个 JSON 对象，不要 Markdown，不要解释。格式：\n{\"strategy\":\"single_agent|multi_agent\",\"reason\":\"简短中文理由\",\"mutation_required\":false,\"collaboration\":\"independent|sequential_handoff\",\"separability\":0,\"specialization_benefit\":0,\"merge_risk\":0,\"max_workers\":0,\"requirements\":[{\"employee\":\"精确名称\",\"role\":\"精确岗位\",\"capabilities\":[\"精确能力\"],\"responsibility\":\"清晰且不重叠的职责\"}]}\n可用员工："@
}

/// Proposes staffing through a planner model and admits it by fixed policy.
pub struct AutoDelegationPlanner;

impl AutoDelegationPlanner {
    /// The decision made without asking the planner: fewer than two
    /// eligible employees leave the objective to the main agent.
    pub fn short_roster(objective: &str, eligible_roster: &[AgentProfile]) -> (r: Option<AutoDelegationDecision>)
        ensures
            r is Some <==> eligible_roster@.len() < 2,
            r matches Some(d) ==> d@ == single_view(objective@, why_short_roster()),
    {
        if eligible_roster.len() < 2 {
            Some(AutoDelegationDecision::single(objective, "可用于自动只读协作的员工不足 2 名，交由主 AI 处理"))
        } else {
            None
        }
    }

    /// The planner's system instructions for a roster already written as JSON.
    pub fn instructions(roster_json: &str) -> (s: String)
        ensures
            s@ == planner_instructions() + roster_json@,
    {
        join2(
            "你是多 Agent 路由规划器，只提出候选方案，不执行任务。\n仅当任务能拆成 2 到 3 个边界清楚、确有专业收益的只读子任务时选择 multi_agent；否则选择 single_agent。\n任何写文件、改代码、发消息、提交表单、操作外部系统或其他副作用，都必须令 mutation_required=true，并选择 single_agent。\n员工只能从给定名单精确选择；role 和 capabilities 必须逐字来自该员工资料。员工不得重复。\nseparability、specialization_benefit、merge_risk 均为 0 到 100 的整数。\n只输出一个 JSON 对象，不要 Markdown，不要解释。格式：\n{\"strategy\":\"single_agent|multi_agent\",\"reason\":\"简短中文理由\",\"mutation_required\":false,\"collaboration\":\"independent|sequential_handoff\",\"separability\":0,\"specialization_benefit\":0,\"merge_risk\":0,\"max_workers\":0,\"requirements\":[{\"employee\":\"精确名称\",\"role\":\"精确岗位\",\"capabilities\":[\"精确能力\"],\"responsibility\":\"清晰且不重叠的职责\"}]}\n可用员工：",
            roster_json,
        )
    }

    /// The decision for the planner's reply.
    pub fn decide_from_reply(objective: &str, eligible_roster: &[AgentProfile], reply: PlannerReply) -> (d: AutoDelegationDecision)
        ensures
            d@ == reply_decision(objective@, profiles_view(eligible_roster@), reply),
    {
        match reply {
            PlannerReply::ProviderFailed(e) => {
                let reason = join2("自动编排规划失败，已回退主 AI：", e.as_str());
                AutoDelegationDecision::single(objective, reason.as_str())
            },
            PlannerReply::NoChoice => AutoDelegationDecision::single(objective, "自动编排规划未返回候选方案，已回退主 AI"),
            PlannerReply::Malformed(e) => {
                let reason = join2("自动编排候选方案格式无效，已回退主 AI：", e.as_str());
                AutoDelegationDecision::single(objective, reason.as_str())
            },
            PlannerReply::Proposal(p) => admit_proposal(objective, eligible_roster, p),
        }
    }
}

/// A multi-agent proposal is admitted when it needs no side effects, its
/// scores lie in 0..=100, it clears at least one of the two benefit lines
/// (separability 60, specialization benefit 70), its merge risk is at most
/// 50, it names two to the worker limit of requirements within its own
/// worker cap, and its requirements fit the roster; it falls back to the
/// main agent on the benefit lines only when it clears neither.
pub proof fn law_multi_agent_admission(objective: Seq<char>, roster: Seq<ProfileView>, p: PlannerProposal)
    requires
        p.strategy is MultiAgent,
        !p.mutation_required,
        p.separability <= 100 && p.specialization_benefit <= 100 && p.merge_risk <= 100,
    ensures
        (p.separability >= 60 || p.specialization_benefit >= 70) && p.merge_risk <= 50 && 2 <= p.requirements@.len()
            <= DEFAULT_MAX_WORKERS_PER_TASK && p.requirements@.len() <= p.max_workers <= DEFAULT_MAX_WORKERS_PER_TASK
            && admit_requirements(roster, planner_reqs_view(p.requirements@), p.requirements@.len() as int) is Ok
            ==> admit_spec(objective, roster, p).strategy is MultiAgent && admit_spec(
            objective,
            roster,
            p,
        ).staffing.requirements.len() == p.requirements@.len(),
        (p.separability < 60 && p.specialization_benefit < 70) ==> admit_spec(objective, roster, p).strategy
            is SingleAgent && admit_spec(objective, roster, p).reason == why_benefit(),
        (p.separability >= 60 || p.specialization_benefit >= 70) ==> admit_spec(objective, roster, p).reason
            != why_benefit() || admit_spec(objective, roster, p).strategy is MultiAgent,
{
    let n = p.requirements@.len() as int;
    if admit_requirements(roster, planner_reqs_view(p.requirements@), n) is Ok {
        lemma_admitted_len(roster, planner_reqs_view(p.requirements@), n);
    }
    if p.separability >= 60 || p.specialization_benefit >= 70 {
        lemma_why_benefit_distinct(roster, planner_reqs_view(p.requirements@), n);
        reveal_strlit("子任务可分性和专业化收益未达到自动多 Agent 准入线");
        reveal_strlit("结果合并风险过高，交由主 AI 统一处理");
        reveal_strlit("自动多 Agent 方案必须使用 2–");
        assert(why_benefit()[0] != why_merge()[0]);
        let head = "自动多 Agent 方案必须使用 2–"@;
        assert(why_count()[0] == head[0]);
        assert(why_benefit()[0] != why_count()[0]);
    }
}

/// The converse: a proposal is admitted as multi-agent only when it asked
/// for several agents and passes every line of the policy.
pub proof fn law_multi_agent_only_when_admissible(objective: Seq<char>, roster: Seq<ProfileView>, p: PlannerProposal)
    ensures
        admit_spec(objective, roster, p).strategy is MultiAgent ==> ({
            &&& p.strategy is MultiAgent
            &&& !p.mutation_required
            &&& p.separability <= 100 && p.specialization_benefit <= 100 && p.merge_risk <= 100
            &&& p.separability >= 60 || p.specialization_benefit >= 70
            &&& p.merge_risk <= 50
            &&& 2 <= p.requirements@.len() <= DEFAULT_MAX_WORKERS_PER_TASK
            &&& p.requirements@.len() <= p.max_workers <= DEFAULT_MAX_WORKERS_PER_TASK
            &&& admit_requirements(roster, planner_reqs_view(p.requirements@), p.requirements@.len() as int) is Ok
        }),
{
}

proof fn lemma_admitted_len(roster: Seq<ProfileView>, reqs: Seq<PlannerRequirementView>, n: int)
    requires
        admit_requirements(roster, reqs, n) is Ok,
    ensures
        n >= 0 ==> admit_requirements(roster, reqs, n)->Ok_0.len() == n,
    decreases n,
{
    if n > 0 {
        lemma_admitted_len(roster, reqs, n - 1);
    }
}

proof fn lemma_why_benefit_distinct(roster: Seq<ProfileView>, reqs: Seq<PlannerRequirementView>, n: int)
    ensures
        admit_requirements(roster, reqs, n) matches Err(w) ==> w != why_benefit(),
    decreases n,
{
    if n > 0 {
        lemma_why_benefit_distinct(roster, reqs, n - 1);
    }
    reveal_strlit("子任务可分性和专业化收益未达到自动多 Agent 准入线");
    reveal_strlit("自动编排包含空或重复员工，已回退主 AI");
    reveal_strlit("自动编排选择了名单外员工，已回退主 AI");
    reveal_strlit("自动编排的员工岗位不匹配，已回退主 AI");
    reveal_strlit("自动编排存在空职责，已回退主 AI");
    reveal_strlit("自动编排要求了员工不具备的能力，已回退主 AI");
    assert(why_benefit()[0] != why_employee()[0]);
    assert(why_benefit()[0] != why_roster()[0]);
    assert(why_benefit()[0] != why_role()[0]);
    assert(why_benefit()[0] != why_responsibility()[0]);
    assert(why_benefit()[0] != why_capability()[0]);
}

} // verus!

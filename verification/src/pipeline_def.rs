//! Pipeline definitions: checking a requested definition against the host groups it names, and
//! laying it out as stages, a phase of build stages first and then the requested phases.
use vstd::prelude::*;
use crate::errors::AntZookeeperError;
use crate::text::{push_text, str_eq};

verus! {

/// A stage of a requested pipeline: its name and the host groups it deploys to.
pub struct PutPipelineStage {
    pub name: String,
    pub host_group_ids: Vec<String>,
}

/// A requested pipeline: its name, and its stages by phase; the stages of a phase run in
/// parallel, after every stage of the phase before.
pub struct PutPipelineRequest {
    pub name: String,
    pub stages: Vec<Vec<PutPipelineStage>>,
}

/// What the database knows of a host group a request names.
pub struct HostGroupSummary {
    pub id: String,
    pub project: String,
    pub host_count: usize,
}

/// A stage with its text taken as sequences.
pub struct StageView {
    pub name: Seq<char>,
    pub host_groups: Seq<Seq<char>>,
}

pub struct GroupView {
    pub id: Seq<char>,
    pub project: Seq<char>,
    pub host_count: nat,
}

impl PutPipelineStage {
    pub open spec fn view(&self) -> StageView {
        StageView { name: self.name@, host_groups: Seq::new(self.host_group_ids@.len(), |i: int| self.host_group_ids@[i]@) }
    }
}

impl HostGroupSummary {
    pub open spec fn view(&self) -> GroupView {
        GroupView { id: self.id@, project: self.project@, host_count: self.host_count as nat }
    }
}

impl PutPipelineRequest {
    /// The phases, each a sequence of stages.
    pub open spec fn phases(&self) -> Seq<Seq<StageView>> {
        Seq::new(self.stages@.len(), |i: int| Seq::new(self.stages@[i]@.len(), |j: int| self.stages@[i]@[j].view()))
    }
}

/// The known host groups as views.
pub open spec fn groups_view(groups: Seq<HostGroupSummary>) -> Seq<GroupView> {
    Seq::new(groups.len(), |i: int| groups[i].view())
}

/// The first known group with id `id`, if any.
pub open spec fn find_group(groups: Seq<GroupView>, id: Seq<char>) -> Option<GroupView>
    decreases groups.len(),
{
    if groups.len() == 0 {
        None
    } else if groups[0].id == id {
        Some(groups[0])
    } else {
        find_group(groups.drop_first(), id)
    }
}

/// The refusal of a host group id: unknown, or without hosts.
pub open spec fn group_error(groups: Seq<GroupView>, id: Seq<char>) -> Option<Seq<char>> {
    match find_group(groups, id) {
        None => Some("No such host group: "@ + id),
        Some(g) => if g.host_count == 0 {
            Some("Host group "@ + id + " cannot be added to a pipeline because it has no hosts."@)
        } else {
            None
        },
    }
}

/// The first refusal among host group ids, in order.
pub open spec fn first_group_error(groups: Seq<GroupView>, ids: Seq<Seq<char>>) -> Option<Seq<char>>
    decreases ids.len(),
{
    if ids.len() == 0 {
        None
    } else {
        match group_error(groups, ids[0]) {
            Some(m) => Some(m),
            None => first_group_error(groups, ids.drop_first()),
        }
    }
}

/// The refusal of a stage: no host group, more than ten, or a refused host group.
pub open spec fn stage_error(groups: Seq<GroupView>, s: StageView) -> Option<Seq<char>> {
    if s.host_groups.len() == 0 {
        Some("Stage must include at least one host group: "@ + s.name)
    } else if s.host_groups.len() > 10 {
        Some("Stage has too many host groups: "@ + s.name)
    } else {
        first_group_error(groups, s.host_groups)
    }
}

/// The first refusal among stages, in order.
pub open spec fn first_stage_error(groups: Seq<GroupView>, stages: Seq<StageView>) -> Option<Seq<char>>
    decreases stages.len(),
{
    if stages.len() == 0 {
        None
    } else {
        match stage_error(groups, stages[0]) {
            Some(m) => Some(m),
            None => first_stage_error(groups, stages.drop_first()),
        }
    }
}

/// The first refusal of a request, phase by phase.
pub open spec fn request_error(groups: Seq<GroupView>, phases: Seq<Seq<StageView>>) -> Option<Seq<char>>
    decreases phases.len(),
{
    if phases.len() == 0 {
        None
    } else {
        match first_stage_error(groups, phases[0]) {
            Some(m) => Some(m),
            None => request_error(groups, phases.drop_first()),
        }
    }
}

/// The known group with id `id`, if any.
fn lookup_group<'a>(groups: &'a Vec<HostGroupSummary>, id: &str) -> (r: Option<&'a HostGroupSummary>)
    ensures
        match (r, find_group(groups_view(groups@), id@)) {
            (Some(g), Some(v)) => g.view() == v,
            (None, None) => true,
            _ => false,
        },
{
    let mut i: usize = 0;
    assert(groups_view(groups@).skip(0) =~= groups_view(groups@));
    while i < groups.len()
        invariant
            i <= groups.len(),
            find_group(groups_view(groups@), id@) == find_group(groups_view(groups@).skip(i as int), id@),
        decreases groups.len() - i,
    {
        let ghost rest = groups_view(groups@).skip(i as int);
        assert(rest[0] == groups@[i as int].view());
        assert(rest.drop_first() =~= groups_view(groups@).skip(i + 1));
        if str_eq(groups[i].id.as_str(), id) {
            return Some(&groups[i]);
        }
        i = i + 1;
    }
    assert(groups_view(groups@).skip(i as int).len() == 0);
    None
}

/// Checks one host group id.
fn check_group(groups: &Vec<HostGroupSummary>, id: &str) -> (r: Result<(), AntZookeeperError>)
    ensures
        match (r, group_error(groups_view(groups@), id@)) {
            (Ok(()), None) => true,
            (Err(AntZookeeperError::ValidationError(m)), Some(x)) => m@ == x,
            _ => false,
        },
{
    match lookup_group(groups, id) {
        None => {
            let mut m = String::new();
            push_text(&mut m, "No such host group: ");
            push_text(&mut m, id);
            Err(AntZookeeperError::ValidationError(m))
        },
        Some(g) => {
            if g.host_count == 0 {
                let mut m = String::new();
                push_text(&mut m, "Host group ");
                push_text(&mut m, id);
                push_text(&mut m, " cannot be added to a pipeline because it has no hosts.");
                Err(AntZookeeperError::ValidationError(m))
            } else {
                Ok(())
            }
        },
    }
}

/// Checks one stage.
fn check_stage(groups: &Vec<HostGroupSummary>, stage: &PutPipelineStage) -> (r: Result<(), AntZookeeperError>)
    ensures
        match (r, stage_error(groups_view(groups@), stage.view())) {
            (Ok(()), None) => true,
            (Err(AntZookeeperError::ValidationError(m)), Some(x)) => m@ == x,
            _ => false,
        },
{
    let ids = &stage.host_group_ids;
    if ids.len() == 0 {
        let mut m = String::new();
        push_text(&mut m, "Stage must include at least one host group: ");
        push_text(&mut m, stage.name.as_str());
        return Err(AntZookeeperError::ValidationError(m));
    }
    if ids.len() > 10 {
        let mut m = String::new();
        push_text(&mut m, "Stage has too many host groups: ");
        push_text(&mut m, stage.name.as_str());
        return Err(AntZookeeperError::ValidationError(m));
    }
    let ghost all = stage.view().host_groups;
    let mut i: usize = 0;
    assert(all.skip(0) =~= all);
    while i < ids.len()
        invariant
            i <= ids.len(),
            all == stage.view().host_groups,
            all.len() == ids@.len(),
            ids@ == stage.host_group_ids@,
            1 <= ids@.len() <= 10,
            first_group_error(groups_view(groups@), all) == first_group_error(groups_view(groups@), all.skip(i as int)),
        decreases ids.len() - i,
    {
        let ghost rest = all.skip(i as int);
        assert(all[i as int] == ids@[i as int]@);
        assert(rest[0] == ids@[i as int]@);
        assert(rest.drop_first() =~= all.skip(i + 1));
        match check_group(groups, ids[i].as_str()) {
            Err(e) => {
                assert(first_group_error(groups_view(groups@), rest) == group_error(groups_view(groups@), rest[0]));
                return Err(e);
            },
            Ok(()) => {},
        }
        i = i + 1;
    }
    assert(all.skip(i as int).len() == 0);
    Ok(())
}

/// Checks a requested pipeline against the host groups it names, phase by phase and stage by
/// stage: a stage must name between one and ten host groups, each known and with hosts. The
/// first refusal is returned as a validation error.
pub fn validate_put_pipeline(req: &PutPipelineRequest, groups: &Vec<HostGroupSummary>) -> (r: Result<(), AntZookeeperError>)
    ensures
        match (r, request_error(groups_view(groups@), req.phases())) {
            (Ok(()), None) => true,
            (Err(AntZookeeperError::ValidationError(m)), Some(x)) => m@ == x,
            _ => false,
        },
{
    let ghost phases = req.phases();
    let mut i: usize = 0;
    assert(phases.skip(0) =~= phases);
    while i < req.stages.len()
        invariant
            i <= req.stages.len(),
            phases == req.phases(),
            phases.len() == req.stages@.len(),
            request_error(groups_view(groups@), phases) == request_error(groups_view(groups@), phases.skip(i as int)),
        decreases req.stages.len() - i,
    {
        let phase = &req.stages[i];
        let ghost rest = phases.skip(i as int);
        assert(rest.drop_first() =~= phases.skip(i + 1));
        let ghost stages = rest[0];
        assert(stages == Seq::new(phase@.len(), |j: int| phase@[j].view()));
        let mut j: usize = 0;
        assert(stages.skip(0) =~= stages);
        while j < phase.len()
            invariant
                j <= phase.len(),
                stages.len() == phase@.len(),
                rest == phases.skip(i as int),
                phases == req.phases(),
                phase@ == req.stages@[i as int]@,
                0 < rest.len(),
                rest[0] == stages,
                request_error(groups_view(groups@), phases) == request_error(groups_view(groups@), rest),
                stages == Seq::new(phase@.len(), |x: int| phase@[x].view()),
                first_stage_error(groups_view(groups@), stages) == first_stage_error(groups_view(groups@), stages.skip(j as int)),
            decreases phase.len() - j,
        {
            let ghost srest = stages.skip(j as int);
            assert(srest[0] == phase@[j as int].view());
            assert(srest.drop_first() =~= stages.skip(j + 1));
            match check_stage(groups, &phase[j]) {
                Err(e) => {
                    assert(first_stage_error(groups_view(groups@), srest) == stage_error(groups_view(groups@), srest[0]));
                    assert(first_stage_error(groups_view(groups@), stages) is Some);
                    assert(request_error(groups_view(groups@), rest) == first_stage_error(groups_view(groups@), rest[0]));
                    return Err(e);
                },
                Ok(()) => {},
            }
            j = j + 1;
        }
        assert(stages.skip(j as int).len() == 0);
        i = i + 1;
    }
    assert(phases.skip(i as int).len() == 0);
    Ok(())
}


// ----- laying out the stages -----

/// The host group ids of stages, in order.
pub open spec fn stage_ids(stages: Seq<StageView>) -> Seq<Seq<char>>
    decreases stages.len(),
{
    if stages.len() == 0 {
        Seq::empty()
    } else {
        stage_ids(stages.drop_last()) + stages.last().host_groups
    }
}

/// The host group ids of all phases, in order.
pub open spec fn all_ids(phases: Seq<Seq<StageView>>) -> Seq<Seq<char>>
    decreases phases.len(),
{
    if phases.len() == 0 {
        Seq::empty()
    } else {
        all_ids(phases.drop_last()) + stage_ids(phases.last())
    }
}

/// The projects of the known host groups among `ids`, each once, in order of first appearance.
pub open spec fn projects_of(groups: Seq<GroupView>, ids: Seq<Seq<char>>) -> Seq<Seq<char>>
    decreases ids.len(),
{
    if ids.len() == 0 {
        Seq::empty()
    } else {
        let before = projects_of(groups, ids.drop_last());
        match find_group(groups, ids.last()) {
            Some(g) => if before.contains(g.project) {
                before
            } else {
                before.push(g.project)
            },
            None => before,
        }
    }
}

/// A stage of the laid-out pipeline: a build stage for a project, or a deploy stage for host
/// groups; `after` lists the stages (by position) it comes after.
pub struct PlanView {
    pub name: Seq<char>,
    pub build_project: Option<Seq<char>>,
    pub host_groups: Seq<Seq<char>>,
    pub after: Seq<usize>,
}

/// The build stages, one per project, named `build:<project>`, after nothing.
pub open spec fn build_plan(projects: Seq<Seq<char>>) -> Seq<PlanView> {
    Seq::new(
        projects.len(),
        |k: int| PlanView { name: "build:"@ + projects[k], build_project: Some(projects[k]), host_groups: Seq::empty(), after: Seq::empty() },
    )
}

/// The positions `base`, `base + 1`, ... of `n` stages.
pub open spec fn positions(base: nat, n: nat) -> Seq<usize> {
    Seq::new(n, |j: int| (base + j) as usize)
}

/// The deploy stages of `phases`, the first phase placed at `base` and coming after `prev`;
/// each later phase comes after every stage of the phase before.
pub open spec fn deploy_plan(phases: Seq<Seq<StageView>>, prev: Seq<usize>, base: nat) -> Seq<PlanView>
    decreases phases.len(),
{
    if phases.len() == 0 {
        Seq::empty()
    } else {
        let cur = phases[0];
        Seq::new(
            cur.len(),
            |j: int| PlanView { name: cur[j].name, build_project: None, host_groups: cur[j].host_groups, after: prev },
        ) + deploy_plan(phases.drop_first(), positions(base, cur.len()), base + cur.len())
    }
}

/// The stages of a pipeline definition: a phase of build stages, one for each project deployed
/// by the requested host groups, then the requested phases.
pub open spec fn plan_of(groups: Seq<GroupView>, phases: Seq<Seq<StageView>>) -> Seq<PlanView> {
    let projects = projects_of(groups, all_ids(phases));
    build_plan(projects) + deploy_plan(phases, positions(0, projects.len()), projects.len())
}

/// A stage to create.
pub struct PlannedStage {
    pub name: String,
    pub build_project: Option<String>,
    pub host_group_ids: Vec<String>,
    pub after: Vec<usize>,
}

impl PlannedStage {
    pub open spec fn view(&self) -> PlanView {
        PlanView {
            name: self.name@,
            build_project: match self.build_project {
                Some(p) => Some(p@),
                None => None,
            },
            host_groups: Seq::new(self.host_group_ids@.len(), |i: int| self.host_group_ids@[i]@),
            after: self.after@,
        }
    }
}

pub open spec fn plan_view(s: Seq<PlannedStage>) -> Seq<PlanView> {
    Seq::new(s.len(), |i: int| s[i].view())
}

fn copy_strings(v: &Vec<String>) -> (r: Vec<String>)
    ensures
        Seq::new(r@.len(), |i: int| r@[i]@) == Seq::new(v@.len(), |i: int| v@[i]@),
{
    let mut out: Vec<String> = Vec::new();
    let mut i: usize = 0;
    while i < v.len()
        invariant
            i <= v.len(),
            out@.len() == i,
            forall|k: int| 0 <= k < i ==> #[trigger] out@[k]@ == v@[k]@,
        decreases v.len() - i,
    {
        out.push(v[i].clone());
        i = i + 1;
    }
    assert(Seq::new(out@.len(), |i: int| out@[i]@) =~= Seq::new(v@.len(), |i: int| v@[i]@));
    out
}

/// Whether `ps` holds `p`.
fn contains_text(ps: &Vec<String>, p: &str) -> (r: bool)
    ensures
        r == Seq::new(ps@.len(), |i: int| ps@[i]@).contains(p@),
{
    let ghost all = Seq::new(ps@.len(), |i: int| ps@[i]@);
    let mut i: usize = 0;
    while i < ps.len()
        invariant
            i <= ps.len(),
            all == Seq::new(ps@.len(), |i: int| ps@[i]@),
            forall|k: int| 0 <= k < i ==> all[k] != p@,
        decreases ps.len() - i,
    {
        if str_eq(ps[i].as_str(), p) {
            assert(all[i as int] == p@);
            return true;
        }
        i = i + 1;
    }
    false
}

/// Lays a requested pipeline out as stages: a build stage for each project that the requested
/// host groups deploy (in order of first appearance), then the requested phases, each stage
/// after every stage of the phase before.
pub fn plan_pipeline(req: &PutPipelineRequest, groups: &Vec<HostGroupSummary>) -> (r: Vec<PlannedStage>)
    ensures
        plan_view(r@) == plan_of(groups_view(groups@), req.phases()),
{
    let ghost phases = req.phases();
    let ghost gv = groups_view(groups@);
    // The projects, in order of first appearance.
    let mut projects: Vec<String> = Vec::new();
    let mut i: usize = 0;
    while i < req.stages.len()
        invariant
            i <= req.stages.len(),
            phases == req.phases(),
            gv == groups_view(groups@),
            Seq::new(projects@.len(), |k: int| projects@[k]@) == projects_of(gv, all_ids(phases.take(i as int))),
        decreases req.stages.len() - i,
    {
        let phase = &req.stages[i];
        let ghost before = all_ids(phases.take(i as int));
        let mut j: usize = 0;
        while j < phase.len()
            invariant
                j <= phase.len(),
                i < req.stages.len(),
                phase@ == req.stages@[i as int]@,
                phases == req.phases(),
                gv == groups_view(groups@),
                before == all_ids(phases.take(i as int)),
                Seq::new(projects@.len(), |k: int| projects@[k]@) == projects_of(
                    gv,
                    before + stage_ids(phases[i as int].take(j as int)),
                ),
            decreases phase.len() - j,
        {
            let ids = &phase[j].host_group_ids;
            let ghost done = before + stage_ids(phases[i as int].take(j as int));
            let mut k: usize = 0;
            while k < ids.len()
                invariant
                    k <= ids.len(),
                    ids@ == req.stages@[i as int]@[j as int].host_group_ids@,
                    gv == groups_view(groups@),
                    Seq::new(projects@.len(), |x: int| projects@[x]@) == projects_of(
                        gv,
                        done + phases[i as int][j as int].host_groups.take(k as int),
                    ),
                    i < phases.len(),
                    j < phases[i as int].len(),
                    phases == req.phases(),
                decreases ids.len() - k,
            {
                let ghost seen = done + phases[i as int][j as int].host_groups.take(k as int);
                proof {
                    assert((done + phases[i as int][j as int].host_groups.take(k + 1)).drop_last() =~= seen);
                    assert((done + phases[i as int][j as int].host_groups.take(k + 1)).last() == ids@[k as int]@);
                }
                match lookup_group(groups, ids[k].as_str()) {
                    Some(g) => {
                        if !contains_text(&projects, g.project.as_str()) {
                            projects.push(g.project.clone());
                            proof {
                                assert(Seq::new(projects@.len(), |x: int| projects@[x]@) =~= projects_of(gv, seen).push(g.project@));
                            }
                        }
                    },
                    None => {},
                }
                k = k + 1;
            }
            proof {
                let hs = phases[i as int][j as int].host_groups;
                assert(hs.take(k as int) =~= hs);
                assert(phases[i as int].take(j + 1).drop_last() =~= phases[i as int].take(j as int));
                assert(stage_ids(phases[i as int].take(j + 1)) == stage_ids(phases[i as int].take(j as int)) + hs);
                assert(before + stage_ids(phases[i as int].take(j + 1)) =~= done + hs);
            }
            j = j + 1;
        }
        proof {
            assert(phases[i as int].take(j as int) =~= phases[i as int]);
            assert(phases.take(i + 1).drop_last() =~= phases.take(i as int));
            assert(all_ids(phases.take(i + 1)) == before + stage_ids(phases[i as int]));
        }
        i = i + 1;
    }
    proof {
        assert(phases.take(i as int) =~= phases);
    }
    let ghost projs = projects_of(gv, all_ids(phases));
    // The build stages.
    let mut plan: Vec<PlannedStage> = Vec::new();
    let mut k: usize = 0;
    while k < projects.len()
        invariant
            k <= projects.len(),
            Seq::new(projects@.len(), |x: int| projects@[x]@) == projs,
            plan_view(plan@) == build_plan(projs).take(k as int),
            plan@.len() == k,
        decreases projects.len() - k,
    {
        let mut name = String::new();
        push_text(&mut name, "build:");
        push_text(&mut name, projects[k].as_str());
        let st = PlannedStage {
            name,
            build_project: Some(projects[k].clone()),
            host_group_ids: Vec::new(),
            after: Vec::new(),
        };
        let ghost sv = st.view();
        proof {
            assert(sv.host_groups =~= Seq::<Seq<char>>::empty());
            assert(sv.after =~= Seq::<usize>::empty());
            assert(sv == build_plan(projs)[k as int]);
        }
        let ghost old_plan = plan@;
        plan.push(st);
        proof {
            assert forall|x: int| 0 <= x < k implies #[trigger] plan_view(plan@)[x] == build_plan(projs).take(k + 1)[x] by {
                assert(plan@[x] == old_plan[x]);
                assert(plan_view(old_plan)[x] == build_plan(projs).take(k as int)[x]);
            }
            assert(plan_view(plan@)[k as int] == sv);
            assert(plan_view(plan@) =~= build_plan(projs).take(k + 1));
        }
        k = k + 1;
    }
    proof {
        assert(build_plan(projs).take(k as int) =~= build_plan(projs));
    }
    // The requested phases.
    let mut prev: Vec<usize> = Vec::new();
    let mut b: usize = 0;
    while b < projects.len()
        invariant
            b <= projects.len(),
            prev@ == positions(0, b as nat),
        decreases projects.len() - b,
    {
        prev.push(b);
        proof {
            assert(prev@ =~= positions(0, (b + 1) as nat));
        }
        b = b + 1;
    }
    let mut base: usize = projects.len();
    let mut i: usize = 0;
    while i < req.stages.len()
        invariant
            i <= req.stages.len(),
            phases == req.phases(),
            base == plan@.len(),
            plan_view(plan@) + deploy_plan(phases.skip(i as int), prev@, base as nat) == plan_of(gv, phases),
        decreases req.stages.len() - i,
    {
        let phase = &req.stages[i];
        let ghost rest = phases.skip(i as int);
        let ghost cur = rest[0];
        assert(cur == phases[i as int]);
        let ghost start = plan@;
        let mut j: usize = 0;
        while j < phase.len()
            invariant
                j <= phase.len(),
                i < req.stages.len(),
                phase@ == req.stages@[i as int]@,
                phases == req.phases(),
                cur == phases[i as int],
                cur.len() == phase@.len(),
                plan@.len() == start.len() + j,
                plan_view(plan@) == plan_view(start) + Seq::new(
                    j as nat,
                    |x: int| PlanView { name: cur[x].name, build_project: None, host_groups: cur[x].host_groups, after: prev@ },
                ),
            decreases phase.len() - j,
        {
            let st = PlannedStage {
                name: phase[j].name.clone(),
                build_project: None,
                host_group_ids: copy_strings(&phase[j].host_group_ids),
                after: prev.clone(),
            };
            let ghost sv = st.view();
            proof {
                assert(sv.host_groups == phase@[j as int].view().host_groups);
                assert(sv.after =~= prev@);
                assert(sv == (PlanView { name: cur[j as int].name, build_project: None, host_groups: cur[j as int].host_groups, after: prev@ }));
            }
            let ghost old_plan = plan@;
            plan.push(st);
            proof {
                let target = plan_view(start) + Seq::new(
                    (j + 1) as nat,
                    |x: int| PlanView { name: cur[x].name, build_project: None, host_groups: cur[x].host_groups, after: prev@ },
                );
                let before = plan_view(start) + Seq::new(
                    j as nat,
                    |x: int| PlanView { name: cur[x].name, build_project: None, host_groups: cur[x].host_groups, after: prev@ },
                );
                assert forall|x: int| 0 <= x < old_plan.len() implies #[trigger] plan_view(plan@)[x] == target[x] by {
                    assert(plan@[x] == old_plan[x]);
                    assert(plan_view(old_plan)[x] == before[x]);
                }
                assert(plan_view(plan@)[old_plan.len() as int] == sv);
                assert(plan_view(plan@) =~= plan_view(start) + Seq::new(
                    (j + 1) as nat,
                    |x: int| PlanView { name: cur[x].name, build_project: None, host_groups: cur[x].host_groups, after: prev@ },
                ));
            }
            j = j + 1;
        }
        let total = plan.len();
        let mut next: Vec<usize> = Vec::new();
        let mut x: usize = 0;
        while x < phase.len()
            invariant
                x <= phase.len(),
                base == start.len(),
                base + phase@.len() == total,
                next@ == positions(base as nat, x as nat),
            decreases phase.len() - x,
        {
            next.push(base + x);
            proof {
                assert(next@ =~= positions(base as nat, (x + 1) as nat));
            }
            x = x + 1;
        }
        proof {
            assert(rest.drop_first() =~= phases.skip(i + 1));
        }
        prev = next;
        base = plan.len();
        i = i + 1;
    }
    proof {
        assert(phases.skip(i as int) =~= Seq::<Seq<StageView>>::empty());
        assert(plan_view(plan@) + Seq::<PlanView>::empty() =~= plan_view(plan@));
    }
    plan
}

} // verus!


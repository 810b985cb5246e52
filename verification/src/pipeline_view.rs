//! How a pipeline is shown: its stages by phase, and the revisions still moving through it.
use vstd::prelude::*;
use crate::arch::HostArchitecture;
use crate::errors::AntZookeeperError;
use crate::progress::TargetRevisionProgress;
use crate::text::{push_text, str_eq};

verus! {

/// A host a deploy stage deploys to.
#[derive(Debug)]
pub struct PipelineHost {
    pub host_id: String,
    pub name: String,
    pub arch: HostArchitecture,
}

/// A host group a deploy stage deploys to.
pub struct PipelineHostGroup {
    pub host_group_id: String,
    pub name: String,
    pub environment: String,
    pub hosts: Vec<PipelineHost>,
}

/// A stage that builds a project.
pub struct PipelineBuildStage {
    pub project: String,
}

/// A stage that deploys to host groups.
pub struct PipelineDeployStage {
    pub host_groups: Vec<PipelineHostGroup>,
}

/// What a stage does.
pub enum PipelineStageType {
    Build(PipelineBuildStage),
    Deploy(PipelineDeployStage),
}

/// A stage of a pipeline.
pub struct PipelineStage {
    pub stage_id: String,
    pub stage_name: String,
    pub stage_type: PipelineStageType,
}

impl PipelineStage {
    /// The build part of a build stage.
    pub fn build_stage(self) -> (r: PipelineBuildStage)
        requires
            self.stage_type is Build,
        ensures
            self.stage_type == PipelineStageType::Build(r),
    {
        match self.stage_type {
            PipelineStageType::Build(s) => s,
            PipelineStageType::Deploy(_) => {
                proof {
                    assert(false);
                }
                PipelineBuildStage { project: String::new() }
            },
        }
    }

    /// The deploy part of a deploy stage.
    pub fn deploy_stage(self) -> (r: PipelineDeployStage)
        requires
            self.stage_type is Deploy,
        ensures
            self.stage_type == PipelineStageType::Deploy(r),
    {
        match self.stage_type {
            PipelineStageType::Deploy(s) => s,
            PipelineStageType::Build(_) => {
                proof {
                    assert(false);
                }
                PipelineDeployStage { host_groups: Vec::new() }
            },
        }
    }
}

/// Describes a stage from its database record: a `build` stage shows its project, a `deploy`
/// stage its host groups; any other type is an internal error naming the type.
pub fn describe_stage(
    stage_id: String,
    stage_name: String,
    stage_type: &str,
    project: Option<String>,
    host_groups: Vec<PipelineHostGroup>,
) -> (r: Result<PipelineStage, AntZookeeperError>)
    requires
        stage_type@ == "build"@ ==> project is Some,
    ensures
        match r {
            Ok(s) => s.stage_id@ == stage_id@ && s.stage_name@ == stage_name@ && if stage_type@ == "build"@ {
                (s.stage_type matches PipelineStageType::Build(b) && b.project@ == project->0@)
            } else {
                stage_type@ == "deploy"@ && (s.stage_type matches PipelineStageType::Deploy(d) && d.host_groups == host_groups)
            },
            Err(e) => stage_type@ != "build"@ && stage_type@ != "deploy"@ && (e matches AntZookeeperError::InternalServerError {
                id,
            } && id@ == "Unknown stage format: "@ + stage_type@),
        },
{
    if str_eq(stage_type, "build") {
        match project {
            Some(p) => Ok(PipelineStage { stage_id, stage_name, stage_type: PipelineStageType::Build(PipelineBuildStage { project: p }) }),
            None => {
                proof {
                    assert(false);
                }
                Err(AntZookeeperError::internal(""))
            },
        }
    } else if str_eq(stage_type, "deploy") {
        Ok(PipelineStage { stage_id, stage_name, stage_type: PipelineStageType::Deploy(PipelineDeployStage { host_groups }) })
    } else {
        let mut m = String::new();
        push_text(&mut m, "Unknown stage format: ");
        push_text(&mut m, stage_type);
        Err(AntZookeeperError::InternalServerError { id: m })
    }
}

/// The pipeline a page is asked for by name: the id the database found for it, or the
/// validation error `No such pipeline: <name>` when it found none.
pub fn require_pipeline(found: Option<String>, name: &str) -> (r: Result<String, AntZookeeperError>)
    ensures
        found is None ==> (r matches Err(AntZookeeperError::ValidationError(m)) && m@ == "No such pipeline: "@ + name@),
        found matches Some(id) ==> (r matches Ok(x) && x@ == id@),
{
    match found {
        Some(id) => Ok(id),
        None => {
            let mut m = String::new();
            push_text(&mut m, "No such pipeline: ");
            push_text(&mut m, name);
            Err(AntZookeeperError::ValidationError(m))
        },
    }
}

// ----- phases -----

/// The text of each string.
pub open spec fn strs(s: Seq<String>) -> Seq<Seq<char>> {
    Seq::new(s.len(), |i: int| s[i]@)
}

/// `s` without repeats, keeping first appearances in order.
pub open spec fn dedup(s: Seq<Seq<char>>) -> Seq<Seq<char>>
    decreases s.len(),
{
    if s.len() == 0 {
        Seq::empty()
    } else {
        let d = dedup(s.drop_last());
        if d.contains(s.last()) {
            d
        } else {
            d.push(s.last())
        }
    }
}

/// The stages right after `stage`, in the order of `edges` (pairs of a stage and one that
/// follows it).
pub open spec fn successors(edges: Seq<(Seq<char>, Seq<char>)>, stage: Seq<char>) -> Seq<Seq<char>>
    decreases edges.len(),
{
    if edges.len() == 0 {
        Seq::empty()
    } else {
        let before = successors(edges.drop_last(), stage);
        if edges.last().0 == stage {
            before.push(edges.last().1)
        } else {
            before
        }
    }
}

/// The stages right after any stage of `phase`, in order.
pub open spec fn followers(edges: Seq<(Seq<char>, Seq<char>)>, phase: Seq<Seq<char>>) -> Seq<Seq<char>>
    decreases phase.len(),
{
    if phase.len() == 0 {
        Seq::empty()
    } else {
        followers(edges, phase.drop_last()) + successors(edges, phase.last())
    }
}

/// The phases from `phase` on: each next phase holds, once each, the stages right after the
/// stages of the phase before; they end at the first phase nothing follows, or after `fuel`
/// more phases.
pub open spec fn phases_from(edges: Seq<(Seq<char>, Seq<char>)>, phase: Seq<Seq<char>>, fuel: nat) -> Seq<Seq<Seq<char>>>
    decreases fuel,
{
    if fuel == 0 {
        seq![phase]
    } else {
        let next = dedup(followers(edges, phase));
        if next.len() == 0 {
            seq![phase]
        } else {
            seq![phase] + phases_from(edges, next, (fuel - 1) as nat)
        }
    }
}

/// Removing repeats keeps exactly the stages of `s`, each once.
proof fn lemma_dedup(s: Seq<Seq<char>>)
    ensures
        forall|x: Seq<char>| #[trigger] dedup(s).contains(x) <==> s.contains(x),
        forall|i: int, j: int| 0 <= i < j < dedup(s).len() ==> #[trigger] dedup(s)[i] != #[trigger] dedup(s)[j],
    decreases s.len(),
{
    if s.len() > 0 {
        let d = dedup(s.drop_last());
        lemma_dedup(s.drop_last());
        assert forall|x: Seq<char>| #[trigger] dedup(s).contains(x) <==> s.contains(x) by {
            if s.contains(x) {
                let i = choose|i: int| 0 <= i < s.len() && s[i] == x;
                if i < s.len() - 1 {
                    assert(s.drop_last()[i] == x);
                    assert(s.drop_last().contains(x));
                    assert(d.contains(x));
                    let j = choose|j: int| 0 <= j < d.len() && d[j] == x;
                    if !d.contains(s.last()) {
                        assert(d.push(s.last())[j] == x);
                    }
                } else if !d.contains(s.last()) {
                    assert(dedup(s)[d.len() as int] == x);
                }
            }
            if dedup(s).contains(x) {
                let j = choose|j: int| 0 <= j < dedup(s).len() && dedup(s)[j] == x;
                if j < d.len() {
                    assert(d[j] == x);
                    assert(d.contains(x));
                    let i = choose|i: int| 0 <= i < s.drop_last().len() && s.drop_last()[i] == x;
                    assert(s[i] == x);
                } else {
                    assert(s[s.len() - 1] == x);
                }
            }
        }
        assert forall|i: int, j: int| 0 <= i < j < dedup(s).len() implies #[trigger] dedup(s)[i] != #[trigger] dedup(s)[j] by {
            if j >= d.len() {
                assert(dedup(s)[i] == d[i]);
            }
        }
    }
}

/// The stages right after `stage` are those some edge from `stage` leads to.
proof fn lemma_successors(edges: Seq<(Seq<char>, Seq<char>)>, stage: Seq<char>)
    ensures
        forall|x: Seq<char>|
            #[trigger] successors(edges, stage).contains(x) <==> exists|e: int|
                #![trigger edges[e]]
                0 <= e < edges.len() && edges[e].0 == stage && edges[e].1 == x,
    decreases edges.len(),
{
    if edges.len() > 0 {
        let d = edges.drop_last();
        lemma_successors(d, stage);
        let before = successors(d, stage);
        assert forall|x: Seq<char>|
            #[trigger] successors(edges, stage).contains(x) <==> exists|e: int|
                #![trigger edges[e]]
                0 <= e < edges.len() && edges[e].0 == stage && edges[e].1 == x by {
            let now = successors(edges, stage);
            if now.contains(x) {
                let j = choose|j: int| 0 <= j < now.len() && now[j] == x;
                if j < before.len() {
                    assert(before[j] == x);
                    assert(before.contains(x));
                    let e = choose|e: int| #![trigger d[e]] 0 <= e < d.len() && d[e].0 == stage && d[e].1 == x;
                    assert(edges[e] == d[e]);
                } else {
                    assert(edges[edges.len() - 1] == edges.last());
                }
            }
            if exists|e: int| #![trigger edges[e]] 0 <= e < edges.len() && edges[e].0 == stage && edges[e].1 == x {
                let e = choose|e: int| #![trigger edges[e]] 0 <= e < edges.len() && edges[e].0 == stage && edges[e].1 == x;
                if e < d.len() {
                    assert(d[e] == edges[e]);
                    assert(before.contains(x));
                    let j = choose|j: int| 0 <= j < before.len() && before[j] == x;
                    assert(now[j] == x);
                } else {
                    assert(now[before.len() as int] == x);
                }
            }
        }
    }
}

/// The stages right after a phase are those some edge from a stage of the phase leads to.
proof fn lemma_followers(edges: Seq<(Seq<char>, Seq<char>)>, phase: Seq<Seq<char>>)
    ensures
        forall|x: Seq<char>|
            #[trigger] followers(edges, phase).contains(x) <==> exists|e: int|
                #![trigger edges[e]]
                0 <= e < edges.len() && phase.contains(edges[e].0) && edges[e].1 == x,
    decreases phase.len(),
{
    if phase.len() > 0 {
        let d = phase.drop_last();
        lemma_followers(edges, d);
        lemma_successors(edges, phase.last());
        let a = followers(edges, d);
        let b = successors(edges, phase.last());
        assert forall|x: Seq<char>|
            #[trigger] followers(edges, phase).contains(x) <==> exists|e: int|
                #![trigger edges[e]]
                0 <= e < edges.len() && phase.contains(edges[e].0) && edges[e].1 == x by {
            let f = followers(edges, phase);
            assert(f == a + b);
            if f.contains(x) {
                let j = choose|j: int| 0 <= j < f.len() && f[j] == x;
                if j < a.len() {
                    assert(a[j] == x);
                    assert(a.contains(x));
                    let e = choose|e: int| #![trigger edges[e]] 0 <= e < edges.len() && d.contains(edges[e].0) && edges[e].1 == x;
                    let i = choose|i: int| 0 <= i < d.len() && d[i] == edges[e].0;
                    assert(phase[i] == d[i]);
                } else {
                    assert(b[j - a.len()] == x);
                    assert(b.contains(x));
                    let e = choose|e: int| #![trigger edges[e]] 0 <= e < edges.len() && edges[e].0 == phase.last() && edges[e].1 == x;
                    assert(phase[phase.len() - 1] == edges[e].0);
                }
            }
            if exists|e: int| #![trigger edges[e]] 0 <= e < edges.len() && phase.contains(edges[e].0) && edges[e].1 == x {
                let e = choose|e: int| #![trigger edges[e]] 0 <= e < edges.len() && phase.contains(edges[e].0) && edges[e].1 == x;
                let i = choose|i: int| 0 <= i < phase.len() && phase[i] == edges[e].0;
                if i < d.len() {
                    assert(d[i] == phase[i]);
                    assert(d.contains(edges[e].0));
                    assert(a.contains(x));
                    let j = choose|j: int| 0 <= j < a.len() && a[j] == x;
                    assert(f[j] == x);
                } else {
                    assert(b.contains(x));
                    let j = choose|j: int| 0 <= j < b.len() && b[j] == x;
                    assert(f[a.len() + j] == x);
                }
            }
        }
    }
}

/// Each phase after the first is the previous one's followers, once each.
proof fn lemma_phases_step(edges: Seq<(Seq<char>, Seq<char>)>, phase: Seq<Seq<char>>, fuel: nat, k: int)
    requires
        0 < k < phases_from(edges, phase, fuel).len(),
    ensures
        phases_from(edges, phase, fuel)[k] == dedup(followers(edges, phases_from(edges, phase, fuel)[k - 1])),
    decreases fuel,
{
    let next = dedup(followers(edges, phase));
    let rest = phases_from(edges, next, (fuel - 1) as nat);
    assert(phases_from(edges, phase, fuel) == seq![phase] + rest);
    if k > 1 {
        lemma_phases_step(edges, next, (fuel - 1) as nat, k - 1);
    } else {
        assert(rest[0] == next);
    }
}

/// The phases start with the initial stages; every later phase lists each stage at most once,
/// and holds exactly the stages that some edge leads to from a stage of the phase before.
pub proof fn law_phases_follow_edges(edges: Seq<(Seq<char>, Seq<char>)>, initial: Seq<Seq<char>>, fuel: nat)
    ensures
        phases_from(edges, initial, fuel).len() >= 1,
        phases_from(edges, initial, fuel)[0] == initial,
        forall|k: int, i: int, j: int|
            0 < k < phases_from(edges, initial, fuel).len() && 0 <= i < j < phases_from(edges, initial, fuel)[k].len()
                ==> #[trigger] phases_from(edges, initial, fuel)[k][i] != #[trigger] phases_from(edges, initial, fuel)[k][j],
        forall|k: int, s: Seq<char>|
            0 < k < phases_from(edges, initial, fuel).len() ==> (#[trigger] phases_from(edges, initial, fuel)[k].contains(s)
                <==> exists|e: int|
                #![trigger edges[e]]
                0 <= e < edges.len() && phases_from(edges, initial, fuel)[k - 1].contains(edges[e].0) && edges[e].1 == s),
{
    let ph = phases_from(edges, initial, fuel);
    assert(ph[0] == initial);
    assert forall|k: int, i: int, j: int| 0 < k < ph.len() && 0 <= i < j < ph[k].len() implies #[trigger] ph[k][i]
        != #[trigger] ph[k][j] by {
        lemma_phases_step(edges, initial, fuel, k);
        lemma_dedup(followers(edges, ph[k - 1]));
    }
    assert forall|k: int, s: Seq<char>| 0 < k < ph.len() implies (#[trigger] ph[k].contains(s) <==> exists|e: int|
        #![trigger edges[e]]
        0 <= e < edges.len() && ph[k - 1].contains(edges[e].0) && edges[e].1 == s) by {
        lemma_phases_step(edges, initial, fuel, k);
        lemma_dedup(followers(edges, ph[k - 1]));
        lemma_followers(edges, ph[k - 1]);
        assert(ph[k].contains(s) == followers(edges, ph[k - 1]).contains(s));
    }
}

fn contains_str(v: &Vec<String>, s: &str) -> (r: bool)
    ensures
        r == strs(v@).contains(s@),
{
    let mut i: usize = 0;
    while i < v.len()
        invariant
            i <= v.len(),
            forall|k: int| 0 <= k < i ==> strs(v@)[k] != s@,
        decreases v.len() - i,
    {
        if str_eq(v[i].as_str(), s) {
            assert(strs(v@)[i as int] == s@);
            return true;
        }
        i = i + 1;
    }
    false
}

/// The stages right after any stage of `phase`, once each.
fn next_phase(edges: &Vec<(String, String)>, phase: &Vec<String>) -> (r: Vec<String>)
    ensures
        strs(r@) == dedup(followers(Seq::new(edges@.len(), |e: int| (edges@[e].0@, edges@[e].1@)), strs(phase@))),
{
    let ghost ev = Seq::new(edges@.len(), |e: int| (edges@[e].0@, edges@[e].1@));
    let mut out: Vec<String> = Vec::new();
    let mut i: usize = 0;
    while i < phase.len()
        invariant
            i <= phase.len(),
            ev == Seq::new(edges@.len(), |e: int| (edges@[e].0@, edges@[e].1@)),
            strs(out@) == dedup(followers(ev, strs(phase@).take(i as int))),
        decreases phase.len() - i,
    {
        let stage = phase[i].as_str();
        let ghost done = followers(ev, strs(phase@).take(i as int));
        let mut e: usize = 0;
        while e < edges.len()
            invariant
                e <= edges.len(),
                ev == Seq::new(edges@.len(), |x: int| (edges@[x].0@, edges@[x].1@)),
                strs(out@) == dedup(done + successors(ev.take(e as int), stage@)),
            decreases edges.len() - e,
        {
            let ghost seen = done + successors(ev.take(e as int), stage@);
            proof {
                assert(ev.take(e + 1).drop_last() =~= ev.take(e as int));
                assert(ev.take(e + 1).last() == ev[e as int]);
            }
            if str_eq(edges[e].0.as_str(), stage) {
                let to = edges[e].1.as_str();
                proof {
                    assert(successors(ev.take(e + 1), stage@) == successors(ev.take(e as int), stage@).push(to@));
                    assert((done + successors(ev.take(e + 1), stage@)).drop_last() =~= seen);
                    assert((done + successors(ev.take(e + 1), stage@)).last() == to@);
                }
                if !contains_str(&out, to) {
                    out.push(to.to_string());
                    proof {
                        assert(strs(out@) =~= dedup(seen).push(to@));
                    }
                }
            } else {
                proof {
                    assert(successors(ev.take(e + 1), stage@) == successors(ev.take(e as int), stage@));
                }
            }
            e = e + 1;
        }
        proof {
            assert(ev.take(e as int) =~= ev);
            assert(strs(phase@).take(i + 1).drop_last() =~= strs(phase@).take(i as int));
            assert(strs(phase@).take(i + 1).last() == stage@);
        }
        i = i + 1;
    }
    proof {
        assert(strs(phase@).take(i as int) =~= strs(phase@));
    }
    out
}

/// The stages of a pipeline by phase: the initial stages (those nothing comes before), then,
/// phase after phase, the stages right after the previous phase's, once each, until a phase
/// has no followers. `edges` lists each stage with a stage right after it. An acyclic layout
/// with `e` edges has at most `e + 1` phases, which bounds the search.
pub fn pipeline_phases(initial: &Vec<String>, edges: &Vec<(String, String)>) -> (r: Vec<Vec<String>>)
    requires
        edges@.len() < usize::MAX,
    ensures
        Seq::new(r@.len(), |k: int| strs(r@[k]@)) == phases_from(
            Seq::new(edges@.len(), |e: int| (edges@[e].0@, edges@[e].1@)),
            strs(initial@),
            (edges@.len() + 1) as nat,
        ),
{
    let ghost ev = Seq::new(edges@.len(), |e: int| (edges@[e].0@, edges@[e].1@));
    let ghost total = phases_from(ev, strs(initial@), (edges@.len() + 1) as nat);
    let mut phases: Vec<Vec<String>> = Vec::new();
    let mut current: Vec<String> = Vec::new();
    let mut i: usize = 0;
    while i < initial.len()
        invariant
            i <= initial.len(),
            current@.len() == i,
            forall|k: int| 0 <= k < i ==> #[trigger] current@[k]@ == initial@[k]@,
        decreases initial.len() - i,
    {
        current.push(initial[i].clone());
        i = i + 1;
    }
    assert(strs(current@) =~= strs(initial@));
    let mut fuel: usize = edges.len() + 1;
    while fuel > 0
        invariant
            fuel <= edges@.len() + 1,
            ev == Seq::new(edges@.len(), |e: int| (edges@[e].0@, edges@[e].1@)),
            total == phases_from(ev, strs(initial@), (edges@.len() + 1) as nat),
            total == Seq::new(phases@.len(), |k: int| strs(phases@[k]@)) + phases_from(ev, strs(current@), fuel as nat),
        decreases fuel,
    {
        let next = next_phase(edges, &current);
        let ghost prefix = Seq::new(phases@.len(), |k: int| strs(phases@[k]@));
        let ghost cur = strs(current@);
        if next.len() == 0 {
            phases.push(current);
            proof {
                assert(Seq::new(phases@.len(), |k: int| strs(phases@[k]@)) =~= prefix.push(cur));
                assert(total =~= Seq::new(phases@.len(), |k: int| strs(phases@[k]@)));
            }
            return phases;
        }
        phases.push(current);
        proof {
            assert(Seq::new(phases@.len(), |k: int| strs(phases@[k]@)) =~= prefix.push(cur));
            assert(prefix + phases_from(ev, cur, fuel as nat) =~= prefix.push(cur) + phases_from(ev, strs(next@), (fuel - 1) as nat));
        }
        current = next;
        fuel = fuel - 1;
    }
    let ghost prefix = Seq::new(phases@.len(), |k: int| strs(phases@[k]@));
    let ghost cur = strs(current@);
    phases.push(current);
    proof {
        assert(Seq::new(phases@.len(), |k: int| strs(phases@[k]@)) =~= prefix.push(cur));
    }
    phases
}

// ----- revisions -----

/// A revision of a project: its id, its place in the order of revisions, and the version it
/// deploys.
pub struct Revision {
    pub id: String,
    pub seq: i32,
    pub version: String,
}

/// The revisions of `started` that have not ended, in order.
pub open spec fn unfinished(started: Seq<Revision>, not_ended: Seq<Seq<char>>) -> Seq<Seq<char>>
    decreases started.len(),
{
    if started.len() == 0 {
        Seq::empty()
    } else {
        let before = unfinished(started.drop_last(), not_ended);
        if not_ended.contains(started.last().id@) {
            before.push(started.last().id@)
        } else {
            before
        }
    }
}

/// The position of the latest finished revision: the greatest `seq`, the last of equals.
pub open spec fn latest_index(finished: Seq<Revision>) -> int
    decreases finished.len(),
{
    if finished.len() <= 1 {
        0
    } else {
        let k = latest_index(finished.drop_last());
        if finished.last().seq >= finished[k].seq {
            finished.len() - 1
        } else {
            k
        }
    }
}

/// The revisions a pipeline shows: those that started and have not finished, in order, then
/// the latest that finished, if any.
pub open spec fn shown_revisions(started: Seq<Revision>, not_ended: Seq<Seq<char>>, finished: Seq<Revision>) -> Seq<Seq<char>> {
    let open = unfinished(started, not_ended);
    if finished.len() == 0 {
        open
    } else {
        open.push(finished[latest_index(finished)].id@)
    }
}

proof fn lemma_latest_index_bounds(finished: Seq<Revision>)
    ensures
        finished.len() > 0 ==> 0 <= latest_index(finished) < finished.len(),
    decreases finished.len(),
{
    if finished.len() > 1 {
        lemma_latest_index_bounds(finished.drop_last());
    }
}

/// The position found for the latest finished revision holds a `seq` no smaller than any other.
proof fn lemma_latest_index_max(finished: Seq<Revision>)
    requires
        finished.len() > 0,
    ensures
        forall|k: int| 0 <= k < finished.len() ==> #[trigger] finished[k].seq <= finished[latest_index(finished)].seq,
    decreases finished.len(),
{
    lemma_latest_index_bounds(finished);
    if finished.len() > 1 {
        let d = finished.drop_last();
        lemma_latest_index_max(d);
        lemma_latest_index_bounds(d);
        let m = latest_index(d);
        assert forall|k: int| 0 <= k < finished.len() implies #[trigger] finished[k].seq <= finished[latest_index(finished)].seq by {
            if k < finished.len() - 1 {
                assert(d[k] == finished[k]);
                assert(d[m] == finished[m]);
            }
        }
    }
}

/// When some revision finished, the pipeline shows, after its unfinished revisions, the id of a
/// finished revision whose `seq` is at least that of every finished revision; when none
/// finished, it shows the unfinished revisions only. The unfinished revisions shown are exactly
/// the started revisions that have not ended.
pub proof fn law_shown_latest_is_newest(started: Seq<Revision>, not_ended: Seq<Seq<char>>, finished: Seq<Revision>)
    ensures
        ({
            let shown = shown_revisions(started, not_ended, finished);
            let open = unfinished(started, not_ended);
            &&& finished.len() == 0 ==> shown == open
            &&& finished.len() > 0 ==> {
                &&& shown.len() == open.len() + 1
                &&& shown.drop_last() == open
                &&& exists|m: int|
                    0 <= m < finished.len() && shown.last() == finished[m].id@ && forall|k: int|
                        0 <= k < finished.len() ==> #[trigger] finished[k].seq <= finished[m].seq
            }
            &&& forall|k: int| 0 <= k < open.len() ==> not_ended.contains(#[trigger] open[k]) && exists|i: int|
                0 <= i < started.len() && started[i].id@ == open[k]
            &&& forall|i: int| 0 <= i < started.len() && not_ended.contains(#[trigger] started[i].id@) ==> open.contains(
                started[i].id@,
            )
        }),
{
    lemma_unfinished_from(started, not_ended);
    if finished.len() > 0 {
        lemma_latest_index_bounds(finished);
        lemma_latest_index_max(finished);
        let m = latest_index(finished);
        let shown = shown_revisions(started, not_ended, finished);
        assert(shown.drop_last() =~= unfinished(started, not_ended));
        assert(shown.last() == finished[m].id@);
    }
}

/// The revisions listed as unfinished are exactly the started revisions that have not ended.
proof fn lemma_unfinished_from(started: Seq<Revision>, not_ended: Seq<Seq<char>>)
    ensures
        forall|k: int|
            0 <= k < unfinished(started, not_ended).len() ==> not_ended.contains(#[trigger] unfinished(started, not_ended)[k])
                && exists|i: int| 0 <= i < started.len() && started[i].id@ == unfinished(started, not_ended)[k],
        forall|i: int|
            0 <= i < started.len() && not_ended.contains(#[trigger] started[i].id@) ==> unfinished(started, not_ended).contains(
                started[i].id@,
            ),
    decreases started.len(),
{
    if started.len() > 0 {
        let d = started.drop_last();
        lemma_unfinished_from(d, not_ended);
        let before = unfinished(d, not_ended);
        let open = unfinished(started, not_ended);
        assert forall|i: int| 0 <= i < started.len() && not_ended.contains(#[trigger] started[i].id@) implies open.contains(
            started[i].id@,
        ) by {
            if i < d.len() {
                assert(d[i] == started[i]);
                assert(before.contains(d[i].id@));
                let j = choose|j: int| 0 <= j < before.len() && before[j] == d[i].id@;
                assert(open[j] == before[j]);
            } else {
                assert(started[i] == started.last());
                assert(open[open.len() - 1] == started[i].id@);
            }
        }
        assert forall|k: int| 0 <= k < open.len() implies not_ended.contains(#[trigger] open[k]) && exists|i: int|
            0 <= i < started.len() && started[i].id@ == open[k] by {
            if k < before.len() {
                assert(open[k] == before[k]);
                let i = choose|i: int| 0 <= i < d.len() && d[i].id@ == before[k];
                assert(started[i] == d[i]);
            } else {
                assert(open[k] == started.last().id@);
                assert(started[started.len() - 1].id@ == open[k]);
            }
        }
    }
}

/// The revisions a pipeline shows: every revision that started and has not finished, plus the
/// latest one that finished.
pub fn active_revisions(started: &Vec<Revision>, not_ended: &Vec<String>, finished: &Vec<Revision>) -> (r: Vec<String>)
    ensures
        strs(r@) == shown_revisions(started@, strs(not_ended@), finished@),
{
    let mut out: Vec<String> = Vec::new();
    let mut i: usize = 0;
    while i < started.len()
        invariant
            i <= started.len(),
            strs(out@) == unfinished(started@.take(i as int), strs(not_ended@)),
        decreases started.len() - i,
    {
        proof {
            assert(started@.take(i + 1).drop_last() =~= started@.take(i as int));
            assert(started@.take(i + 1).last() == started@[i as int]);
        }
        if contains_str(not_ended, started[i].id.as_str()) {
            let ghost before = strs(out@);
            out.push(started[i].id.clone());
            proof {
                assert(strs(out@) =~= before.push(started@[i as int].id@));
            }
        }
        i = i + 1;
    }
    proof {
        assert(started@.take(i as int) =~= started@);
    }
    if finished.len() > 0 {
        let mut best: usize = 0;
        let mut k: usize = 1;
        while k < finished.len()
            invariant
                1 <= k <= finished.len(),
                best as int == latest_index(finished@.take(k as int)),
                best < k,
            decreases finished.len() - k,
        {
            proof {
                assert(finished@.take(k + 1).drop_last() =~= finished@.take(k as int));
                assert(finished@.take(k as int)[best as int] == finished@[best as int]);
            }
            if finished[k].seq >= finished[best].seq {
                best = k;
            }
            k = k + 1;
        }
        proof {
            assert(finished@.take(k as int) =~= finished@);
        }
        let ghost before = strs(out@);
        out.push(finished[best].id.clone());
        proof {
            assert(strs(out@) =~= before.push(finished@[best as int].id@));
        }
    }
    out
}

// ----- the pipeline page -----

fn copy_host(h: &PipelineHost) -> (r: PipelineHost)
    ensures
        r == *h,
{
    PipelineHost { host_id: h.host_id.clone(), name: h.name.clone(), arch: h.arch }
}

/// `a` and `b` hold the same host group.
pub open spec fn same_group(a: PipelineHostGroup, b: PipelineHostGroup) -> bool {
    &&& a.host_group_id == b.host_group_id
    &&& a.name == b.name
    &&& a.environment == b.environment
    &&& a.hosts@ == b.hosts@
}

/// `a` and `b` describe the same stage.
pub open spec fn same_stage(a: PipelineStage, b: PipelineStage) -> bool {
    &&& a.stage_id == b.stage_id
    &&& a.stage_name == b.stage_name
    &&& match (a.stage_type, b.stage_type) {
        (PipelineStageType::Build(x), PipelineStageType::Build(y)) => x.project == y.project,
        (PipelineStageType::Deploy(x), PipelineStageType::Deploy(y)) => x.host_groups@.len() == y.host_groups@.len() && forall|
            i: int,
        |
            0 <= i < x.host_groups@.len() ==> same_group(#[trigger] x.host_groups@[i], y.host_groups@[i]),
        _ => false,
    }
}

fn copy_host_group(g: &PipelineHostGroup) -> (r: PipelineHostGroup)
    ensures
        same_group(r, *g),
{
    let mut hosts: Vec<PipelineHost> = Vec::new();
    let mut i: usize = 0;
    while i < g.hosts.len()
        invariant
            i <= g.hosts.len(),
            hosts@ == g.hosts@.take(i as int),
        decreases g.hosts.len() - i,
    {
        hosts.push(copy_host(&g.hosts[i]));
        proof {
            assert(hosts@ =~= g.hosts@.take(i + 1));
        }
        i = i + 1;
    }
    proof {
        assert(hosts@ =~= g.hosts@);
    }
    PipelineHostGroup {
        host_group_id: g.host_group_id.clone(),
        name: g.name.clone(),
        environment: g.environment.clone(),
        hosts,
    }
}

/// A copy of a stage.
pub fn copy_stage(s: &PipelineStage) -> (r: PipelineStage)
    ensures
        same_stage(r, *s),
{
    let stage_type = match &s.stage_type {
        PipelineStageType::Build(b) => PipelineStageType::Build(PipelineBuildStage { project: b.project.clone() }),
        PipelineStageType::Deploy(d) => {
            let mut groups: Vec<PipelineHostGroup> = Vec::new();
            let mut i: usize = 0;
            while i < d.host_groups.len()
                invariant
                    i <= d.host_groups.len(),
                    groups@.len() == i,
                    forall|k: int| 0 <= k < i ==> same_group(#[trigger] groups@[k], d.host_groups@[k]),
                decreases d.host_groups.len() - i,
            {
                groups.push(copy_host_group(&d.host_groups[i]));
                i = i + 1;
            }
            PipelineStageType::Deploy(PipelineDeployStage { host_groups: groups })
        },
    };
    PipelineStage { stage_id: s.stage_id.clone(), stage_name: s.stage_name.clone(), stage_type }
}

/// `i` is the first stage of `stages` with id `id`.
pub open spec fn first_stage(stages: Seq<PipelineStage>, id: Seq<char>, i: int) -> bool {
    &&& 0 <= i < stages.len()
    &&& stages[i].stage_id@ == id
    &&& forall|j: int| 0 <= j < i ==> #[trigger] stages[j].stage_id@ != id
}

/// Some stage of `stages` has id `id`.
pub open spec fn has_stage(stages: Seq<PipelineStage>, id: Seq<char>) -> bool {
    exists|i: int| 0 <= i < stages.len() && #[trigger] stages[i].stage_id@ == id
}

/// The position of the first stage of `stages` with id `id`.
pub open spec fn stage_index(stages: Seq<PipelineStage>, id: Seq<char>) -> int {
    choose|i: int| first_stage(stages, id, i)
}

fn find_stage(stages: &Vec<PipelineStage>, id: &str) -> (r: usize)
    requires
        has_stage(stages@, id@),
    ensures
        first_stage(stages@, id@, r as int),
        r == stage_index(stages@, id@),
{
    let mut i: usize = 0;
    while i < stages.len()
        invariant
            i <= stages.len(),
            has_stage(stages@, id@),
            forall|j: int| 0 <= j < i ==> #[trigger] stages@[j].stage_id@ != id@,
        decreases stages.len() - i,
    {
        if str_eq(stages[i].stage_id.as_str(), id) {
            proof {
                assert(first_stage(stages@, id@, i as int));
                let c = stage_index(stages@, id@);
                assert(first_stage(stages@, id@, c));
                if c < i {
                    assert(stages@[c].stage_id@ != id@);
                }
                if c > i {
                    assert(stages@[i as int].stage_id@ != id@);
                }
            }
            return i;
        }
        i = i + 1;
    }
    proof {
        let k = choose|k: int| 0 <= k < stages@.len() && #[trigger] stages@[k].stage_id@ == id@;
        assert(stages@[k].stage_id@ != id@);
    }
    0
}

proof fn lemma_first_from(stages: Seq<PipelineStage>, id: Seq<char>, i: int)
    requires
        0 <= i <= stages.len(),
        forall|j: int| 0 <= j < i ==> #[trigger] stages[j].stage_id@ != id,
        exists|k: int| i <= k < stages.len() && #[trigger] stages[k].stage_id@ == id,
    ensures
        first_stage(stages, id, stage_index(stages, id)),
    decreases stages.len() - i,
{
    if stages[i].stage_id@ == id {
        assert(first_stage(stages, id, i));
    } else {
        assert forall|j: int| 0 <= j < i + 1 implies #[trigger] stages[j].stage_id@ != id by {}
        let k = choose|k: int| i <= k < stages.len() && #[trigger] stages[k].stage_id@ == id;
        assert(k != i);
        lemma_first_from(stages, id, i + 1);
    }
}

/// A stage named by `id` has a first position, which `stage_index` gives.
pub proof fn lemma_stage_index(stages: Seq<PipelineStage>, id: Seq<char>)
    requires
        has_stage(stages, id),
    ensures
        first_stage(stages, id, stage_index(stages, id)),
{
    lemma_first_from(stages, id, 0);
}

/// The stages laid out by phase: each id of `phases` replaced by (a copy of) the first stage with
/// that id, whose position [`lemma_stage_index`] describes. Every id must name a stage.
pub fn arrange_stages(phases: &Vec<Vec<String>>, stages: &Vec<PipelineStage>) -> (r: Vec<Vec<PipelineStage>>)
    requires
        forall|k: int, i: int| 0 <= k < phases@.len() && 0 <= i < phases@[k]@.len() ==> has_stage(stages@, #[trigger] phases@[k]@[i]@),
    ensures
        r@.len() == phases@.len(),
        forall|k: int| 0 <= k < r@.len() ==> (#[trigger] r@[k])@.len() == phases@[k]@.len(),
        forall|k: int, i: int|
            0 <= k < r@.len() && 0 <= i < phases@[k]@.len() ==> same_stage(
                #[trigger] r@[k]@[i],
                stages@[stage_index(stages@, phases@[k]@[i]@)],
            ),
{
    let mut out: Vec<Vec<PipelineStage>> = Vec::new();
    let mut k: usize = 0;
    while k < phases.len()
        invariant
            k <= phases.len(),
            out@.len() == k,
            forall|x: int, i: int| 0 <= x < phases@.len() && 0 <= i < phases@[x]@.len() ==> has_stage(stages@, #[trigger] phases@[x]@[i]@),
            forall|x: int| 0 <= x < k ==> (#[trigger] out@[x])@.len() == phases@[x]@.len(),
            forall|x: int, i: int|
                0 <= x < k && 0 <= i < phases@[x]@.len() ==> same_stage(
                    #[trigger] out@[x]@[i],
                    stages@[stage_index(stages@, phases@[x]@[i]@)],
                ),
        decreases phases.len() - k,
    {
        let phase = &phases[k];
        let mut row: Vec<PipelineStage> = Vec::new();
        let mut i: usize = 0;
        while i < phase.len()
            invariant
                i <= phase.len(),
                k < phases@.len(),
                phase@ == phases@[k as int]@,
                forall|y: int| 0 <= y < phase@.len() ==> has_stage(stages@, #[trigger] phase@[y]@),
                row@.len() == i,
                forall|y: int| 0 <= y < i ==> same_stage(#[trigger] row@[y], stages@[stage_index(stages@, phase@[y]@)]),
            decreases phase.len() - i,
        {
            let j = find_stage(stages, phase[i].as_str());
            let c = copy_stage(&stages[j]);
            let ghost before = row@;
            row.push(c);
            proof {
                assert forall|y: int| 0 <= y < i + 1 implies same_stage(#[trigger] row@[y], stages@[stage_index(stages@, phase@[y]@)]) by {
                    if y < i {
                        assert(row@[y] == before[y]);
                    } else {
                        assert(row@[y] == c);
                    }
                }
            }
            i = i + 1;
        }
        let ghost before = out@;
        out.push(row);
        proof {
            assert forall|x: int, y: int|
                0 <= x < k + 1 && 0 <= y < phases@[x]@.len() implies same_stage(
                #[trigger] out@[x]@[y],
                stages@[stage_index(stages@, phases@[x]@[y]@)],
            ) by {
                if x < k {
                    assert(out@[x] == before[x]);
                } else {
                    assert(out@[x] == row);
                }
            }
            assert forall|x: int| 0 <= x < k + 1 implies (#[trigger] out@[x])@.len() == phases@[x]@.len() by {
                if x < k {
                    assert(out@[x] == before[x]);
                }
            }
        }
        k = k + 1;
    }
    out
}

/// The key under which the progress of a host of a host group is listed: `group#host`.
pub fn progress_key(host_group_id: &str, host: &str) -> (r: String)
    ensures
        r@ == host_group_id@ + "#"@ + host@,
{
    let mut s = String::new();
    push_text(&mut s, host_group_id);
    push_text(&mut s, "#");
    push_text(&mut s, host);
    s
}

/// A pipeline as its page shows it: its stages by phase, the progress of the revisions through
/// the pipeline and through each stage, host group and host (listed under their ids, and
/// [`progress_key`] for hosts), and the revisions still shown.
pub struct GetPipelineResponse {
    pub pipeline_id: String,
    pub name: String,
    pub stages: Vec<Vec<PipelineStage>>,
    pub progress: Vec<(String, TargetRevisionProgress)>,
    pub revisions: Vec<String>,
}

} // verus!

//! Build descriptions, the artifacts a build produces, and the ordered execution of a
//! build: its steps in declared order, then the extraction of its binaries, stopping
//! at the first failure.
use vstd::prelude::*;

use crate::text::push_text;

verus! {

/// A step that runs shell commands in a fresh container of `image`, with the source
/// tree mounted.
#[derive(Debug)]
pub struct CmdStep {
    pub image: String,
    pub cmds: Vec<String>,
    pub envs: Vec<(String, String)>,
}

/// What a container image built from a challenge exposes.
#[derive(Debug)]
pub struct DockerConfig {
    /// The exposed port names, such as `8080/tcp`.
    pub exposed: Vec<String>,
}

/// A step that builds a container image from the subdirectory `path` of the source tree.
#[derive(Debug)]
pub struct DockerStep {
    pub path: String,
    pub config: DockerConfig,
}

#[derive(Debug)]
pub enum Step {
    Cmd(CmdStep),
    Docker(DockerStep),
}

/// A file or directory of the build output to publish, under `name` if one is given.
#[derive(Debug)]
pub struct BinaryArtifactInfo {
    pub name: Option<String>,
    pub path: String,
}

#[derive(Debug)]
pub enum ArtifactInfo {
    Binary(BinaryArtifactInfo),
}

/// A published file, by its name in the artifact's storage.
#[derive(Debug)]
pub struct BinaryArtifact {
    pub path: String,
}

/// A built container image.
#[derive(Debug)]
pub struct DockerArtifact {
    pub id: String,
    pub config: DockerConfig,
}

#[derive(Debug)]
pub enum Artifact {
    Binary(BinaryArtifact),
    Docker(DockerArtifact),
}

#[derive(Debug)]
pub struct BuildResult {
    pub artifacts: Vec<Artifact>,
}

/// The build description of a challenge: its steps, then the binaries to publish.
#[derive(Debug)]
pub struct BuildInfo {
    pub steps: Vec<Step>,
    pub artifacts: Vec<ArtifactInfo>,
}

/// A started container and the host port bound to each exposed port name.
#[derive(Debug)]
pub struct RunDockerResult {
    pub id: String,
    pub ports: Vec<(String, u16)>,
}

/// Why a build failed.
#[derive(Debug)]
pub enum BuildError {
    /// A build for the same owner and challenge is in progress.
    InProgress,
    /// A dynamic challenge is built without an owner.
    OwnerRequired,
    /// A static challenge is built with an owner.
    OwnerNotAllowed,
    /// The flag template is malformed or takes another number of arguments.
    FlagTemplate(crate::dynfmt::FormatError),
    /// A step failed: an image could not be pulled or built, or a command failed.
    StepFailed(String),
    /// A binary could not be published: no name, a missing source, or a name taken.
    ExtractionFailed(String),
    /// Storage could not be prepared or read.
    Storage(String),
}

/// The final component of a path, none when the path ends in `..` or has none.
pub uninterp spec fn file_name_of(path: Seq<char>) -> Option<Seq<char>>;

/// Relies on `std::path::Path::file_name`, which gives the final component of a path.
#[verifier::external_body]
fn file_name(path: &str) -> (r: Option<String>)
    ensures
        match r {
            Some(n) => file_name_of(path@) == Some(n@),
            None => file_name_of(path@) is None,
        },
{
    std::path::Path::new(path).file_name().and_then(|n| n.to_str()).map(|n| n.to_string())
}

/// The name under which a binary is published: the given name unless it is empty, else
/// the final component of its path.
pub open spec fn published_name(name: Option<Seq<char>>, path: Seq<char>) -> Option<Seq<char>> {
    match name {
        Some(n) if n.len() > 0 => Some(n),
        _ => match file_name_of(path) {
            Some(f) if f.len() > 0 => Some(f),
            _ => None,
        },
    }
}

pub open spec fn name_view(name: Option<String>) -> Option<Seq<char>> {
    match name {
        Some(n) => Some(n@),
        None => None,
    }
}

/// The name under which the binary that `info` describes is published.
pub fn artifact_name(info: &BinaryArtifactInfo) -> (r: Result<String, BuildError>)
    ensures
        match published_name(name_view(info.name), info.path@) {
            Some(n) => r matches Ok(s) && s@ == n,
            None => r matches Err(BuildError::ExtractionFailed(_)),
        },
{
    if let Some(n) = &info.name {
        if !n.as_str().is_empty() {
            return Ok(n.clone());
        }
    }
    match file_name(info.path.as_str()) {
        Some(f) => {
            if !f.as_str().is_empty() {
                Ok(f)
            } else {
                Err(BuildError::ExtractionFailed("empty file name".to_string()))
            }
        },
        None => Err(BuildError::ExtractionFailed("no file name available".to_string())),
    }
}

/// The environment variable through which a build sees its flag.
pub const FLAG_VAR: &'static str = "ATTACKR_FLAG";

/// The lines of `lines` joined by `sep`.
pub open spec fn joined(lines: Seq<Seq<char>>, sep: Seq<char>) -> Seq<char>
    decreases lines.len(),
{
    if lines.len() == 0 {
        Seq::empty()
    } else if lines.len() == 1 {
        lines[0]
    } else {
        joined(lines.drop_last(), sep) + sep + lines.last()
    }
}

pub open spec fn string_views(s: Seq<String>) -> Seq<Seq<char>> {
    s.map_values(|x: String| x@)
}

/// The shell script of a command step: its commands, one per line.
pub fn script_text(cmds: &Vec<String>) -> (r: String)
    ensures
        r@ == joined(string_views(cmds@), seq!['\n']),
{
    let mut out = String::new();
    let mut i: usize = 0;
    while i < cmds.len()
        invariant
            i <= cmds@.len(),
            out@ == joined(string_views(cmds@.subrange(0, i as int)), seq!['\n']),
        decreases cmds@.len() - i,
    {
        let ghost prev = string_views(cmds@.subrange(0, i as int));
        let ghost next = string_views(cmds@.subrange(0, i + 1));
        proof {
            assert(next.drop_last() =~= prev);
            assert(next.last() == cmds@[i as int]@);
        }
        if i > 0 {
            push_text(&mut out, "\n");
            proof {
                reveal_strlit("\n");
            }
        }
        push_text(&mut out, cmds[i].as_str());
        proof {
            if i == 0 {
                assert(out@ =~= next[0]);
            } else {
                assert(out@ =~= joined(prev, seq!['\n']) + seq!['\n'] + next.last());
            }
        }
        i = i + 1;
    }
    proof {
        assert(cmds@.subrange(0, i as int) =~= cmds@);
    }
    out
}

/// The environment entry that hands `flag` to a command step: `ATTACKR_FLAG=<flag>`.
pub fn flag_env(flag: &str) -> (r: String)
    ensures
        r@ == FLAG_VAR@ + seq!['='] + flag@,
{
    let mut out = String::new();
    push_text(&mut out, FLAG_VAR);
    push_text(&mut out, "=");
    push_text(&mut out, flag);
    proof {
        reveal_strlit("=");
        assert(out@ =~= FLAG_VAR@ + seq!['='] + flag@);
    }
    out
}

/// Whether the image of a command step was pulled, from the last status the daemon sent:
/// none at all, or one that carries an error, is a failure.
pub fn pull_result(last: Option<Option<String>>) -> (r: Result<(), BuildError>)
    ensures
        r is Ok <==> last == Some(None::<String>),
        r matches Err(e) ==> e is StepFailed,
{
    match last {
        None => Err(BuildError::StepFailed("no response from create_image".to_string())),
        Some(Some(err)) => Err(BuildError::StepFailed(err)),
        Some(None) => Ok(()),
    }
}

/// Whether a container exited with a code other than zero.
pub open spec fn failing_exit(exit_code: Option<i64>) -> bool {
    match exit_code {
        Some(c) => c != 0,
        None => false,
    }
}

/// What came of a command step's container: an error while waiting for it, or a non-zero
/// exit code, fails the step.
pub fn container_outcome(wait_error: Option<String>, exit_code: Option<i64>) -> (r: TaskOutcome)
    ensures
        wait_error is Some ==> r matches TaskOutcome::Failed(BuildError::StepFailed(_)),
        wait_error is None && failing_exit(exit_code) ==> r matches TaskOutcome::Failed(BuildError::StepFailed(_)),
        wait_error is None && !failing_exit(exit_code) ==> r is Ran,
{
    if let Some(e) = wait_error {
        return TaskOutcome::Failed(BuildError::StepFailed(e));
    }
    match exit_code {
        Some(c) => {
            if c != 0 {
                TaskOutcome::Failed(BuildError::StepFailed("non-zero exit code".to_string()))
            } else {
                TaskOutcome::Ran
            }
        },
        None => TaskOutcome::Ran,
    }
}

/// One report that the daemon sends while it builds an image.
#[derive(Debug)]
pub struct ImageReport {
    /// The error of a build step, if the report carries one.
    pub error: Option<String>,
    /// The id of the built image, if the report carries one.
    pub image: Option<String>,
}

/// Whether some report carries an error.
pub open spec fn any_error(reports: Seq<ImageReport>) -> bool {
    exists|i: int| 0 <= i < reports.len() && (#[trigger] reports[i]).error is Some
}

/// The last image id that the reports carry.
pub open spec fn last_image(reports: Seq<ImageReport>) -> Option<String>
    decreases reports.len(),
{
    if reports.len() == 0 {
        None
    } else {
        match reports.last().image {
            Some(id) => Some(id),
            None => last_image(reports.drop_last()),
        }
    }
}

/// What came of an image step, from every report of its build: an error in any report
/// fails it, and otherwise the last image id reported is the built image.
pub fn image_outcome(reports: &Vec<ImageReport>, config: DockerConfig) -> (r: TaskOutcome)
    ensures
        any_error(reports@) ==> r matches TaskOutcome::Failed(BuildError::StepFailed(_)),
        !any_error(reports@) ==> match last_image(reports@) {
            Some(id) => r == TaskOutcome::Built(DockerArtifact { id, config }),
            None => r matches TaskOutcome::Failed(BuildError::StepFailed(_)),
        },
{
    let mut image: Option<String> = None;
    let mut i: usize = 0;
    while i < reports.len()
        invariant
            i <= reports@.len(),
            !any_error(reports@.subrange(0, i as int)),
            image == last_image(reports@.subrange(0, i as int)),
        decreases reports@.len() - i,
    {
        let ghost prev = reports@.subrange(0, i as int);
        let ghost next = reports@.subrange(0, i + 1);
        proof {
            assert(next.drop_last() =~= prev);
            assert(next.last() == reports@[i as int]);
        }
        if let Some(e) = &reports[i].error {
            proof {
                assert(reports@[i as int].error is Some);
            }
            return TaskOutcome::Failed(BuildError::StepFailed(e.clone()));
        }
        if let Some(id) = &reports[i].image {
            image = Some(id.clone());
        }
        proof {
            assert forall|j: int| 0 <= j < next.len() implies (#[trigger] next[j]).error is None by {
                if j < prev.len() {
                    assert(next[j] == prev[j]);
                }
            }
        }
        i = i + 1;
    }
    proof {
        assert(reports@.subrange(0, i as int) =~= reports@);
    }
    match image {
        Some(id) => TaskOutcome::Built(DockerArtifact { id, config }),
        None => TaskOutcome::Failed(BuildError::StepFailed("no image id from build_image".to_string())),
    }
}

/// The ids of the images among `artifacts`, in order.
pub open spec fn image_ids(artifacts: Seq<Artifact>) -> Seq<Seq<char>>
    decreases artifacts.len(),
{
    if artifacts.len() == 0 {
        Seq::empty()
    } else {
        let rest = image_ids(artifacts.drop_last());
        match artifacts.last() {
            Artifact::Docker(d) => rest.push(d.id@),
            Artifact::Binary(_) => rest,
        }
    }
}

/// The images to remove along with an artifact's storage.
pub fn docker_image_ids(artifacts: &Vec<Artifact>) -> (r: Vec<String>)
    ensures
        string_views(r@) == image_ids(artifacts@),
{
    let mut out: Vec<String> = Vec::new();
    let mut i: usize = 0;
    while i < artifacts.len()
        invariant
            i <= artifacts@.len(),
            string_views(out@) == image_ids(artifacts@.subrange(0, i as int)),
        decreases artifacts@.len() - i,
    {
        proof {
            assert(artifacts@.subrange(0, i + 1).drop_last() =~= artifacts@.subrange(0, i as int));
        }
        let ghost prev = out@;
        match &artifacts[i] {
            Artifact::Docker(d) => {
                out.push(d.id.clone());
                proof {
                    assert(string_views(out@) =~= string_views(prev).push(d.id@));
                }
            },
            Artifact::Binary(_) => {},
        }
        i = i + 1;
    }
    proof {
        assert(artifacts@.subrange(0, i as int) =~= artifacts@);
    }
    out
}

/// Why an artifact could not be used.
#[derive(Debug, Clone, Copy, PartialEq, Eq, Structural)]
pub enum LookupError {
    /// No artifact has the index.
    NotFound,
    /// The artifact is of another kind than the operation needs.
    UnexpectedKind,
}

/// The image at `index` among `artifacts`, to run as a container.
pub fn docker_artifact_at(artifacts: &Vec<Artifact>, index: usize) -> (r: Result<&DockerArtifact, LookupError>)
    ensures
        index >= artifacts@.len() ==> r == Err::<&DockerArtifact, LookupError>(LookupError::NotFound),
        index < artifacts@.len() ==> match artifacts@[index as int] {
            Artifact::Docker(d) => r == Ok::<&DockerArtifact, LookupError>(&d),
            Artifact::Binary(_) => r == Err::<&DockerArtifact, LookupError>(LookupError::UnexpectedKind),
        },
{
    if index >= artifacts.len() {
        return Err(LookupError::NotFound);
    }
    match &artifacts[index] {
        Artifact::Docker(d) => Ok(d),
        Artifact::Binary(_) => Err(LookupError::UnexpectedKind),
    }
}

/// The published file at `index` among `artifacts`, to hand out for download.
pub fn binary_artifact_at(artifacts: &Vec<Artifact>, index: usize) -> (r: Result<&BinaryArtifact, LookupError>)
    ensures
        index >= artifacts@.len() ==> r == Err::<&BinaryArtifact, LookupError>(LookupError::NotFound),
        index < artifacts@.len() ==> match artifacts@[index as int] {
            Artifact::Binary(b) => r == Ok::<&BinaryArtifact, LookupError>(&b),
            Artifact::Docker(_) => r == Err::<&BinaryArtifact, LookupError>(LookupError::UnexpectedKind),
        },
{
    if index >= artifacts.len() {
        return Err(LookupError::NotFound);
    }
    match &artifacts[index] {
        Artifact::Binary(b) => Ok(b),
        Artifact::Docker(_) => Err(LookupError::UnexpectedKind),
    }
}

/// The next thing a build does.
#[derive(Debug, Clone, Copy, PartialEq, Eq, Structural)]
pub enum BuildTask {
    /// Execute step `i` of the build description.
    Step(usize),
    /// Publish binary `i` of the build description.
    Extract(usize),
    /// Nothing is left: every task succeeded, or one failed.
    Finished,
}

/// What came of a task.
#[derive(Debug)]
pub enum TaskOutcome {
    /// A command step succeeded.
    Ran,
    /// An image step built the given image.
    Built(DockerArtifact),
    /// A binary was published.
    Copied(BinaryArtifact),
    /// The task failed.
    Failed(BuildError),
}

/// The artifacts that a sequence of outcomes produced, or the first failure among them.
pub open spec fn outcome_of(outcomes: Seq<TaskOutcome>) -> Result<Seq<Artifact>, BuildError>
    decreases outcomes.len(),
{
    if outcomes.len() == 0 {
        Ok(Seq::empty())
    } else {
        match outcome_of(outcomes.drop_last()) {
            Err(e) => Err(e),
            Ok(a) => match outcomes.last() {
                TaskOutcome::Ran => Ok(a),
                TaskOutcome::Built(d) => Ok(a.push(Artifact::Docker(d))),
                TaskOutcome::Copied(b) => Ok(a.push(Artifact::Binary(b))),
                TaskOutcome::Failed(e) => Err(e),
            },
        }
    }
}

pub open spec fn any_failed(outcomes: Seq<TaskOutcome>) -> bool {
    exists|i: int| 0 <= i < outcomes.len() && outcomes[i] is Failed
}

/// A build in which any task failed reports that failure and no artifacts: a failing
/// step or extraction never leaves a partial artifact list behind.
pub proof fn lemma_build_atomic(outcomes: Seq<TaskOutcome>)
    requires
        any_failed(outcomes),
    ensures
        outcome_of(outcomes) is Err,
    decreases outcomes.len(),
{
    let d = outcomes.drop_last();
    let i = choose|i: int| 0 <= i < outcomes.len() && outcomes[i] is Failed;
    if i < outcomes.len() - 1 {
        assert(d[i] == outcomes[i]);
        lemma_build_atomic(d);
    }
}

/// A build in progress: which tasks are done, what they produced, and whether one failed.
pub struct BuildRun {
    steps: usize,
    extracts: usize,
    done: usize,
    artifacts: Vec<Artifact>,
    error: Option<BuildError>,
    outcomes: Ghost<Seq<TaskOutcome>>,
}

impl BuildRun {
    /// The outcomes recorded so far, in order.
    pub closed spec fn outcomes(&self) -> Seq<TaskOutcome> {
        self.outcomes@
    }

    /// The number of tasks: the steps, then the binaries.
    pub closed spec fn total(&self) -> nat {
        (self.steps + self.extracts) as nat
    }

    pub closed spec fn step_count(&self) -> nat {
        self.steps as nat
    }

    pub open spec fn finished(&self) -> bool {
        self.outcomes().len() >= self.total() || any_failed(self.outcomes())
    }

    pub closed spec fn wf(&self) -> bool {
        &&& self.done == self.outcomes@.len()
        &&& self.steps + self.extracts <= usize::MAX
        &&& self.done <= self.steps + self.extracts
        &&& match self.error {
            Some(e) => outcome_of(self.outcomes@) == Err::<Seq<Artifact>, BuildError>(e) && any_failed(self.outcomes@),
            None => outcome_of(self.outcomes@) == Ok::<Seq<Artifact>, BuildError>(self.artifacts@)
                && !any_failed(self.outcomes@),
        }
    }

    /// Starts a build of `info`.
    pub fn new(info: &BuildInfo) -> (r: Self)
        requires
            info.steps@.len() + info.artifacts@.len() <= usize::MAX,
        ensures
            r.wf(),
            r.total() == info.steps@.len() + info.artifacts@.len(),
            r.step_count() == info.steps@.len(),
            r.outcomes() == Seq::<TaskOutcome>::empty(),
    {
        BuildRun {
            steps: info.steps.len(),
            extracts: info.artifacts.len(),
            done: 0,
            artifacts: Vec::new(),
            error: None,
            outcomes: Ghost(Seq::empty()),
        }
    }

    /// The next task: the steps in order, then the binaries in order, and nothing after the
    /// last one or after a failure.
    pub fn next_task(&self) -> (r: BuildTask)
        requires
            self.wf(),
        ensures
            self.finished() ==> r == BuildTask::Finished,
            !self.finished() && self.outcomes().len() < self.step_count() ==> r == BuildTask::Step(
                self.outcomes().len() as usize,
            ),
            !self.finished() && self.outcomes().len() >= self.step_count() ==> r == BuildTask::Extract(
                (self.outcomes().len() - self.step_count()) as usize,
            ),
    {
        if self.error.is_some() || self.done >= self.steps + self.extracts {
            BuildTask::Finished
        } else if self.done < self.steps {
            BuildTask::Step(self.done)
        } else {
            BuildTask::Extract(self.done - self.steps)
        }
    }

    /// Records what came of the current task.
    pub fn record(&mut self, outcome: TaskOutcome)
        requires
            old(self).wf(),
            !old(self).finished(),
        ensures
            final(self).wf(),
            final(self).total() == old(self).total(),
            final(self).step_count() == old(self).step_count(),
            final(self).outcomes() == old(self).outcomes().push(outcome),
    {
        let ghost prev = self.outcomes@;
        proof {
            self.outcomes = Ghost(prev.push(outcome));
            assert(self.outcomes@.drop_last() =~= prev);
            assert(any_failed(self.outcomes@) <==> any_failed(prev) || outcome is Failed) by {
                if any_failed(prev) {
                    let i = choose|i: int| 0 <= i < prev.len() && prev[i] is Failed;
                    assert(self.outcomes@[i] == prev[i]);
                }
                if any_failed(self.outcomes@) {
                    let i = choose|i: int| 0 <= i < self.outcomes@.len() && self.outcomes@[i] is Failed;
                    if i < prev.len() {
                        assert(self.outcomes@[i] == prev[i]);
                    }
                }
                if outcome is Failed {
                    assert(self.outcomes@[prev.len() as int] == outcome);
                }
            }
        }
        self.done = self.done + 1;
        match outcome {
            TaskOutcome::Ran => {},
            TaskOutcome::Built(d) => {
                self.artifacts.push(Artifact::Docker(d));
            },
            TaskOutcome::Copied(b) => {
                self.artifacts.push(Artifact::Binary(b));
            },
            TaskOutcome::Failed(e) => {
                self.error = Some(e);
            },
        }
    }

    /// The artifacts of a finished build, or its failure.
    pub fn finish(self) -> (r: Result<BuildResult, BuildError>)
        requires
            self.wf(),
            self.finished(),
        ensures
            match outcome_of(self.outcomes()) {
                Ok(a) => r matches Ok(b) && b.artifacts@ == a,
                Err(e) => r == Err::<BuildResult, BuildError>(e),
            },
            r is Ok <==> !any_failed(self.outcomes()),
    {
        match self.error {
            Some(e) => Err(e),
            None => Ok(BuildResult { artifacts: self.artifacts }),
        }
    }
}

} // verus!

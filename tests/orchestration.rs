use attackr::conductor::{
    artifact_name, BinaryArtifact, BinaryArtifactInfo, BuildError, BuildInfo, BuildRun, BuildTask,
    CmdStep, DockerArtifact, DockerConfig, DockerStep, Step, TaskOutcome, ArtifactInfo, Artifact,
};
use attackr::coordinator::{
    artifact_owner, build_flag, check_owner, claim_build, check_flag, clears_on_solve, generate_random_flag, is_publicly_available,
    resolve_flag, same_text, storage_name,
};
use attackr::dynfmt::FormatError;
use attackr::ports::{
    candidate_range, mapped_addr, validate_docker_config, ConfigError, IpAddress, MappedAddr,
    PortRange, PortScan,
};
use attackr::registry::{BuildKey, BuildLocks, InstanceKey, InstanceRegistry};
use attackr::scoring::{recalculation_plan, EffectiveSolve};

fn cmd_step() -> Step {
    Step::Cmd(CmdStep { image: "alpine".to_string(), cmds: vec!["make".to_string()], envs: vec![] })
}

fn docker_step() -> Step {
    Step::Docker(DockerStep { path: "srv".to_string(), config: DockerConfig { exposed: vec!["8080/tcp".to_string()] } })
}

fn binary(path: &str) -> ArtifactInfo {
    ArtifactInfo::Binary(BinaryArtifactInfo { name: None, path: path.to_string() })
}

#[test]
fn build_runs_steps_then_extractions_in_order() {
    let info = BuildInfo { steps: vec![cmd_step(), docker_step()], artifacts: vec![binary("out/chall")] };
    let mut run = BuildRun::new(&info);
    assert_eq!(run.next_task(), BuildTask::Step(0));
    run.record(TaskOutcome::Ran);
    assert_eq!(run.next_task(), BuildTask::Step(1));
    run.record(TaskOutcome::Built(DockerArtifact { id: "img".to_string(), config: DockerConfig { exposed: vec![] } }));
    assert_eq!(run.next_task(), BuildTask::Extract(0));
    run.record(TaskOutcome::Copied(BinaryArtifact { path: "chall".to_string() }));
    assert_eq!(run.next_task(), BuildTask::Finished);
    let result = run.finish().ok().unwrap();
    assert_eq!(result.artifacts.len(), 2);
    assert!(matches!(&result.artifacts[0], Artifact::Docker(d) if d.id == "img"));
    assert!(matches!(&result.artifacts[1], Artifact::Binary(b) if b.path == "chall"));
}

#[test]
fn failing_step_aborts_build_without_artifacts() {
    let info = BuildInfo { steps: vec![docker_step(), cmd_step(), cmd_step()], artifacts: vec![binary("x")] };
    let mut run = BuildRun::new(&info);
    run.record(TaskOutcome::Built(DockerArtifact { id: "img".to_string(), config: DockerConfig { exposed: vec![] } }));
    assert_eq!(run.next_task(), BuildTask::Step(1));
    run.record(TaskOutcome::Failed(BuildError::StepFailed("exit 1".to_string())));
    assert_eq!(run.next_task(), BuildTask::Finished);
    assert!(matches!(run.finish(), Err(BuildError::StepFailed(m)) if m == "exit 1"));
}

#[test]
fn empty_build_succeeds_with_nothing() {
    let info = BuildInfo { steps: vec![], artifacts: vec![] };
    let run = BuildRun::new(&info);
    assert_eq!(run.next_task(), BuildTask::Finished);
    assert!(run.finish().ok().unwrap().artifacts.is_empty());
}

#[test]
fn artifact_name_prefers_nonempty_override() {
    let info = BinaryArtifactInfo { name: Some("pwn".to_string()), path: "out/chall".to_string() };
    assert_eq!(artifact_name(&info).ok().unwrap(), "pwn");
}

#[test]
fn artifact_name_falls_back_to_base_name() {
    let info = BinaryArtifactInfo { name: Some(String::new()), path: "out/bin/chall".to_string() };
    assert_eq!(artifact_name(&info).ok().unwrap(), "chall");
    let info = BinaryArtifactInfo { name: None, path: "dist/".to_string() };
    assert_eq!(artifact_name(&info).ok().unwrap(), "dist");
}

#[test]
fn artifact_name_unobtainable() {
    let info = BinaryArtifactInfo { name: None, path: "out/..".to_string() };
    assert!(matches!(artifact_name(&info), Err(BuildError::ExtractionFailed(_))));
}

#[test]
fn build_claim_is_single_flight() {
    let mut locks = BuildLocks::new();
    let key = BuildKey { owner: Some(3), challenge: 1 };
    assert!(claim_build(&mut locks, key).is_ok());
    assert!(matches!(claim_build(&mut locks, key), Err(BuildError::InProgress)));
    locks.release(key);
    assert!(claim_build(&mut locks, key).is_ok());
}

#[test]
fn build_owner_must_fit_challenge() {
    assert!(matches!(check_owner(true, None), Err(BuildError::OwnerRequired)));
    assert!(matches!(check_owner(false, Some(3)), Err(BuildError::OwnerNotAllowed)));
    assert!(check_owner(true, Some(3)).is_ok());
    assert!(check_owner(false, None).is_ok());
}

#[test]
fn artifact_owner_by_challenge_kind() {
    assert_eq!(artifact_owner(true, 5), Some(5));
    assert_eq!(artifact_owner(false, 5), None);
}

#[test]
fn build_flag_of_static_and_dynamic_challenges() {
    assert_eq!(build_flag(false, "flag{static}").ok().unwrap(), "flag{static}");
    let f = build_flag(true, "flag{{{}}}").ok().unwrap();
    assert_eq!(f.len(), 6 + 36);
    assert!(f.starts_with("flag{") && f.ends_with('}'));
    assert!(matches!(build_flag(true, "flag"), Err(BuildError::FlagTemplate(FormatError::ArgumentCount))));
}

#[test]
fn flag_of_static_and_dynamic_challenges() {
    assert_eq!(resolve_flag(false, "flag{static}", "tok").ok().unwrap(), "flag{static}");
    assert_eq!(resolve_flag(true, "flag{{{}}}", "tok").ok().unwrap(), "flag{tok}");
    assert!(matches!(resolve_flag(true, "flag", "tok"), Err(BuildError::FlagTemplate(FormatError::ArgumentCount))));
}

#[test]
fn finished_scan_law_on_a_busy_range() {
    let pairs = scan_with(&["a", "b"], PortRange { start: 10000, end: 10003 }, &[10000, 10001, 10002], 2);
    assert_eq!(pairs, vec![("a".to_string(), 10003)]);
}

#[test]
fn random_flag_embeds_a_fresh_token() {
    let a = generate_random_flag("flag{{{}}}").unwrap();
    let b = generate_random_flag("flag{{{}}}").unwrap();
    assert_eq!(a.len(), 6 + 36);
    assert!(a.starts_with("flag{") && a.ends_with('}'));
    assert_ne!(a, b);
    assert_eq!(generate_random_flag("{"), Err(FormatError::UnmatchedBrace));
    assert_eq!(storage_name().len(), 36);
}

#[test]
fn submitted_flag_is_checked_against_expected() {
    assert!(check_flag(false, "flag{a}", "flag{b}", "flag{a}"));
    assert!(!check_flag(false, "flag{a}", "flag{b}", "flag{b}"));
    assert!(check_flag(true, "flag{a}", "flag{b}", "flag{b}"));
    assert!(!same_text("abc", "abd"));
    assert!(!same_text("abc", "ab"));
    assert!(clears_on_solve(true, true));
    assert!(!clears_on_solve(true, false));
    assert!(is_publicly_available(false, Some(1), true));
    assert!(!is_publicly_available(false, None, true));
    assert!(is_publicly_available(true, None, true));
    assert!(!is_publicly_available(true, Some(1), false));
}

fn scan_with(exposed: &[&str], range: PortRange, busy: &[u16], addrs: usize) -> Vec<(String, u16)> {
    let names: Vec<String> = exposed.iter().map(|s| s.to_string()).collect();
    let mut scan = PortScan::new(&names, range);
    while let Some(port) = scan.candidate() {
        let probes = vec![!busy.contains(&port); addrs];
        scan.record(&probes);
    }
    scan.into_pairs()
}

#[test]
fn ports_pair_in_scan_order() {
    let pairs = scan_with(&["8080/tcp", "9090/tcp"], PortRange { start: 10000, end: 10010 }, &[], 2);
    assert_eq!(pairs, vec![("8080/tcp".to_string(), 10000), ("9090/tcp".to_string(), 10001)]);
}

#[test]
fn ports_skip_busy_candidates() {
    let pairs = scan_with(&["8080/tcp", "9090/tcp"], PortRange { start: 10000, end: 10010 }, &[10000, 10002], 2);
    assert_eq!(pairs, vec![("8080/tcp".to_string(), 10001), ("9090/tcp".to_string(), 10003)]);
}

#[test]
fn ports_truncate_when_range_exhausted() {
    let pairs = scan_with(&["a", "b", "c"], PortRange { start: 65534, end: 65535 }, &[], 1);
    assert_eq!(pairs, vec![("a".to_string(), 65534), ("b".to_string(), 65535)]);
}

#[test]
fn port_range_defaults_to_all_ports() {
    let r = candidate_range(None);
    assert_eq!((r.start, r.end), (1, 65535));
    assert_eq!(r.len(), 65535);
    assert_eq!(PortRange { start: 5, end: 4 }.len(), 0);
    assert!(PortRange { start: 5, end: 9 }.contains(9));
}

#[test]
fn remapped_ports_are_shifted() {
    let alloc = Some(PortRange { start: 10000, end: 10010 });
    let remapped = MappedAddr { addr: IpAddress::V4([10, 0, 0, 1]), ports: Some(PortRange { start: 20000, end: 20010 }) };
    let plain = MappedAddr { addr: IpAddress::V6([0, 0, 0, 0, 0, 0, 0, 1]), ports: None };
    assert_eq!(mapped_addr(&remapped, alloc, 10003).port, 20003);
    assert_eq!(mapped_addr(&plain, alloc, 10003).port, 10003);
}

#[test]
fn docker_config_validation() {
    let remapped = MappedAddr { addr: IpAddress::V4([127, 0, 0, 1]), ports: Some(PortRange { start: 20000, end: 20010 }) };
    let plain = MappedAddr { addr: IpAddress::V4([127, 0, 0, 1]), ports: None };
    assert_eq!(validate_docker_config(&vec![plain], None), Ok(()));
    assert_eq!(validate_docker_config(&vec![remapped], None), Err(ConfigError::RemapWithoutRange));
    assert_eq!(validate_docker_config(&vec![remapped], Some(PortRange { start: 1, end: 5 })), Err(ConfigError::RemapSizeMismatch));
    assert_eq!(validate_docker_config(&vec![plain, remapped], Some(PortRange { start: 10000, end: 10010 })), Ok(()));
}

#[test]
fn instance_info_reports_expiry_and_endpoints() {
    let mut reg = InstanceRegistry::new();
    let k = InstanceKey { user: 1, challenge: 2, artifact: 0 };
    reg.begin_start(k).unwrap();
    reg.finish_start(k, "c".to_string(), vec![("8080/tcp".to_string(), 10002)], 1_000, Some(5_000));
    let alloc = Some(PortRange { start: 10000, end: 10010 });
    let mapped = vec![
        MappedAddr { addr: IpAddress::V4([127, 0, 0, 1]), ports: None },
        MappedAddr { addr: IpAddress::V4([10, 0, 0, 1]), ports: Some(PortRange { start: 30000, end: 30010 }) },
    ];
    assert!(reg.ports_within(alloc));
    let info = reg.instance_info(k, 2_000, &mapped, alloc).ok().unwrap();
    assert_eq!(info.expiry, Some(4_000));
    assert_eq!(info.ports.len(), 1);
    assert_eq!(info.ports[0].0, "8080/tcp");
    assert_eq!(info.ports[0].1[0].port, 10002);
    assert_eq!(info.ports[0].1[1].port, 30002);
    let late = reg.instance_info(k, 9_000, &mapped, alloc).ok().unwrap();
    assert_eq!(late.expiry, Some(0));
    assert!(reg.instance_info(InstanceKey { user: 9, challenge: 2, artifact: 0 }, 0, &mapped, alloc).is_err());
}

fn solve(solved: i32, submission: i32, user: i32, time: i64) -> EffectiveSolve {
    EffectiveSolve { solved, submission, user, challenge: 1, time }
}

#[test]
fn solves_are_ranked_by_time_then_submission() {
    let solves = vec![solve(1, 30, 7, 300), solve(2, 10, 8, 100), solve(3, 21, 9, 200), solve(4, 20, 6, 200)];
    let plan = recalculation_plan(&solves);
    assert_eq!(plan.solved_count, 4);
    let ranks: Vec<usize> = plan.tasks.iter().map(|t| t.rank).collect();
    assert_eq!(ranks, vec![3, 0, 2, 1]);
    assert_eq!(plan.tasks[0].user, 7);
    assert_eq!(plan.tasks[0].solved, 1);
}

#[test]
fn recalculation_twice_gives_same_plan() {
    let solves = vec![solve(1, 3, 7, 300), solve(2, 1, 8, 100)];
    let a = recalculation_plan(&solves);
    let b = recalculation_plan(&solves);
    assert_eq!(a.solved_count, b.solved_count);
    assert_eq!(a.tasks, b.tasks);
}

#[test]
fn new_early_solve_shifts_later_ranks() {
    let mut solves = vec![solve(1, 3, 7, 300), solve(2, 1, 8, 100)];
    let before = recalculation_plan(&solves);
    solves.push(solve(3, 2, 9, 200));
    let after = recalculation_plan(&solves);
    assert_eq!(after.solved_count, before.solved_count + 1);
    assert_eq!(after.tasks[0].rank, before.tasks[0].rank + 1);
    assert_eq!(after.tasks[1].rank, before.tasks[1].rank);
    assert_eq!(after.tasks[2].rank, 1);
}

#[test]
fn empty_solve_set_plans_nothing() {
    let plan = recalculation_plan(&vec![]);
    assert_eq!(plan.solved_count, 0);
    assert!(plan.tasks.is_empty());
}

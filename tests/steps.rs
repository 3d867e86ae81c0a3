use attackr::conductor::{
    binary_artifact_at, container_outcome, docker_artifact_at, docker_image_ids, flag_env,
    image_outcome, pull_result, script_text, Artifact, BinaryArtifact, BuildError, DockerArtifact,
    DockerConfig, ImageReport, LookupError, TaskOutcome,
};

fn artifacts() -> Vec<Artifact> {
    vec![
        Artifact::Binary(BinaryArtifact { path: "chall".to_string() }),
        Artifact::Docker(DockerArtifact { id: "sha256:aa".to_string(), config: DockerConfig { exposed: vec!["80/tcp".to_string()] } }),
        Artifact::Docker(DockerArtifact { id: "sha256:bb".to_string(), config: DockerConfig { exposed: vec![] } }),
    ]
}

#[test]
fn script_joins_commands_by_line() {
    assert_eq!(script_text(&vec!["make".to_string(), "cp a b".to_string()]), "make\ncp a b");
    assert_eq!(script_text(&vec!["one".to_string()]), "one");
    assert_eq!(script_text(&vec![]), "");
}

#[test]
fn flag_is_passed_in_environment() {
    assert_eq!(flag_env("flag{x}"), "ATTACKR_FLAG=flag{x}");
}

#[test]
fn pull_needs_a_clean_last_status() {
    assert!(pull_result(Some(None)).is_ok());
    assert!(matches!(pull_result(None), Err(BuildError::StepFailed(_))));
    assert!(matches!(pull_result(Some(Some("denied".to_string()))), Err(BuildError::StepFailed(m)) if m == "denied"));
}

#[test]
fn container_exit_decides_step() {
    assert!(matches!(container_outcome(None, Some(0)), TaskOutcome::Ran));
    assert!(matches!(container_outcome(None, None), TaskOutcome::Ran));
    assert!(matches!(container_outcome(None, Some(2)), TaskOutcome::Failed(BuildError::StepFailed(_))));
    assert!(matches!(container_outcome(Some("gone".to_string()), Some(0)), TaskOutcome::Failed(BuildError::StepFailed(_))));
}

fn report(error: Option<&str>, image: Option<&str>) -> ImageReport {
    ImageReport { error: error.map(|e| e.to_string()), image: image.map(|i| i.to_string()) }
}

#[test]
fn image_reports_decide_step() {
    let config = || DockerConfig { exposed: vec!["80/tcp".to_string()] };
    match image_outcome(&vec![report(None, None), report(None, Some("sha256:cc"))], config()) {
        TaskOutcome::Built(d) => {
            assert_eq!(d.id, "sha256:cc");
            assert_eq!(d.config.exposed, vec!["80/tcp".to_string()]);
        }
        _ => panic!("expected an image"),
    }
    assert!(matches!(image_outcome(&vec![report(None, None)], config()), TaskOutcome::Failed(_)));
    assert!(matches!(image_outcome(&vec![], config()), TaskOutcome::Failed(_)));
    assert!(matches!(
        image_outcome(&vec![report(Some("bad"), None), report(None, Some("sha256:dd"))], config()),
        TaskOutcome::Failed(BuildError::StepFailed(m)) if m == "bad"
    ));
}

#[test]
fn last_image_id_wins() {
    match image_outcome(&vec![report(None, Some("one")), report(None, Some("two")), report(None, None)], DockerConfig { exposed: vec![] }) {
        TaskOutcome::Built(d) => assert_eq!(d.id, "two"),
        _ => panic!("expected an image"),
    }
}

#[test]
fn image_ids_of_artifacts() {
    assert_eq!(docker_image_ids(&artifacts()), vec!["sha256:aa".to_string(), "sha256:bb".to_string()]);
    assert!(docker_image_ids(&vec![]).is_empty());
}

#[test]
fn artifacts_are_looked_up_by_index_and_kind() {
    let a = artifacts();
    assert_eq!(docker_artifact_at(&a, 1).ok().unwrap().id, "sha256:aa");
    assert_eq!(docker_artifact_at(&a, 0).err(), Some(LookupError::UnexpectedKind));
    assert_eq!(docker_artifact_at(&a, 3).err(), Some(LookupError::NotFound));
    assert_eq!(binary_artifact_at(&a, 0).ok().unwrap().path, "chall");
    assert_eq!(binary_artifact_at(&a, 2).err(), Some(LookupError::UnexpectedKind));
    assert_eq!(binary_artifact_at(&a, 9).err(), Some(LookupError::NotFound));
}

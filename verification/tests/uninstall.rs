use fluvio_wire::uninstall::{
    advance, ClusterError, ClusterUninstaller, Command, HelmClient, Probe, Progress, Step,
    WaitAction, DEFAULT_CHART_APP_REPO, DEFAULT_CHART_SYS_REPO, DEFAULT_NAMESPACE,
    RETRY_SLEEP_MILLIS,
};

fn kubectl(args: &[&str]) -> Step {
    Step::Run(Command {
        program: "kubectl".to_string(),
        args: args.iter().map(|a| a.to_string()).collect(),
    })
}

fn cleanup_in(ns: &str) -> Vec<Step> {
    vec![
        kubectl(&["delete", "spugroups", "--namespace", ns, "--all"]),
        kubectl(&["delete", "spus", "--namespace", ns, "--all"]),
        kubectl(&["delete", "topics", "--namespace", ns, "--all"]),
        kubectl(&["delete", "persistentvolumeclaims", "--namespace", ns, "--selector", "app=spu"]),
        kubectl(&["delete", "secret", "fluvio-ca", "--ignore-not-found=true"]),
        kubectl(&["delete", "secret", "fluvio-tls", "--ignore-not-found=true"]),
    ]
}

fn uninstaller() -> ClusterUninstaller {
    ClusterUninstaller::new().build(Ok(HelmClient {})).expect("should create ClusterUnInstaller")
}

#[test]
fn builder_defaults() {
    let builder = ClusterUninstaller::new();
    assert_eq!(builder.namespace(), "default");
    assert_eq!(builder.name(), "fluvio");
    assert_eq!(builder.retry_count(), 10);
    assert_eq!(DEFAULT_NAMESPACE, "default");
    assert_eq!(DEFAULT_CHART_APP_REPO, "fluvio");
    assert_eq!(DEFAULT_CHART_SYS_REPO, "fluvio-sys");
    assert_eq!(RETRY_SLEEP_MILLIS, 10000);
}

#[test]
fn builder_setters_change_one_thing_each() {
    let builder = ClusterUninstaller::new().with_namespace("my-namespace");
    assert_eq!(
        (builder.namespace(), builder.name(), builder.retry_count()),
        ("my-namespace", "fluvio", 10)
    );
    let builder = ClusterUninstaller::new().with_name("my-name");
    assert_eq!(
        (builder.namespace(), builder.name(), builder.retry_count()),
        ("default", "my-name", 10)
    );
    let builder = ClusterUninstaller::new().with_retries(2u16);
    assert_eq!((builder.namespace(), builder.name(), builder.retry_count()), ("default", "fluvio", 2));
    let builder =
        ClusterUninstaller::new().with_retries(3).with_name("n").with_namespace("ns").with_name("m");
    assert_eq!((builder.namespace(), builder.name(), builder.retry_count()), ("ns", "m", 3));
}

#[test]
fn build_keeps_the_configuration_or_hands_on_the_error() {
    let built = ClusterUninstaller::new().with_namespace("ns").build(Ok(HelmClient {})).unwrap();
    assert_eq!(built.config().namespace(), "ns");
    assert_eq!(built.config().name(), "fluvio");
    assert_eq!(built.config().retry_count(), 10);
    let failed = ClusterUninstaller::new().build(Err(ClusterError::Helm("no helm".to_string())));
    assert_eq!(failed.unwrap_err(), ClusterError::Helm("no helm".to_string()));
}

#[test]
fn remove_objects_with_and_without_selector() {
    let u = uninstaller();
    assert_eq!(
        u.remove_objects("spus", "ns", None),
        Command {
            program: "kubectl".to_string(),
            args: vec!["delete", "spus", "--namespace", "ns", "--all"]
                .into_iter()
                .map(String::from)
                .collect(),
        }
    );
    assert_eq!(
        u.remove_objects("pods", "other", Some("app=x")),
        Command {
            program: "kubectl".to_string(),
            args: vec!["delete", "pods", "--namespace", "other", "--selector", "app=x"]
                .into_iter()
                .map(String::from)
                .collect(),
        }
    );
}

#[test]
fn remove_secrets_ignores_missing_ones() {
    assert_eq!(
        uninstaller().remove_secrets("fluvio-ca"),
        Command {
            program: "kubectl".to_string(),
            args: vec!["delete", "secret", "fluvio-ca", "--ignore-not-found=true"]
                .into_iter()
                .map(String::from)
                .collect(),
        }
    );
}

#[test]
fn cleanup_removes_objects_then_secrets() {
    assert_eq!(uninstaller().cleanup(), cleanup_in("default"));
    let other = ClusterUninstaller::new().with_namespace("my-namespace").build(Ok(HelmClient {}));
    assert_eq!(other.unwrap().cleanup(), cleanup_in("my-namespace"));
}

#[test]
fn uninstall_plan() {
    let u = ClusterUninstaller::new()
        .with_namespace("my-namespace")
        .with_name("my-chart")
        .build(Ok(HelmClient {}))
        .unwrap();
    let mut expected = vec![
        Step::HelmUninstall { name: "my-chart".to_string(), ignore_not_found: true },
        Step::WaitForDelete { name: "flv-sc".to_string(), namespace: "my-namespace".to_string() },
    ];
    expected.extend(cleanup_in("my-namespace"));
    assert_eq!(u.uninstall(), expected);
}

#[test]
fn uninstall_sys_plan() {
    let mut expected =
        vec![Step::HelmUninstall { name: "fluvio-sys".to_string(), ignore_not_found: true }];
    expected.extend(cleanup_in("default"));
    assert_eq!(uninstaller().uninstall_sys(), expected);
}

#[test]
fn uninstall_local_plan() {
    let mut expected = vec![
        Step::Run(Command {
            program: "pkill".to_string(),
            args: vec!["-f".to_string(), "fluvio run".to_string()],
        }),
        Step::RemoveDir { path: "/tmp/fluvio".to_string() },
    ];
    expected.extend(cleanup_in("default"));
    assert_eq!(uninstaller().uninstall_local(), expected);
}

#[test]
fn waiting_ends_when_the_object_is_gone() {
    let u = uninstaller();
    assert_eq!(u.wait_start(), WaitAction::Retry { sleep_millis: 0, attempt: 0 });
    assert_eq!(
        u.wait_for_delete(0, Probe::StillThere),
        WaitAction::Retry { sleep_millis: 10000, attempt: 1 }
    );
    assert_eq!(u.wait_for_delete(1, Probe::NotFound), WaitAction::Deleted);
    assert_eq!(u.wait_for_delete(0, Probe::NotFound), WaitAction::Deleted);
}

#[test]
fn waiting_gives_up_after_the_allowed_looks() {
    let u = ClusterUninstaller::new().with_retries(3).build(Ok(HelmClient {})).unwrap();
    let mut action = u.wait_start();
    let mut looks = 0;
    let mut slept = 0u64;
    let error = loop {
        match action {
            WaitAction::Retry { sleep_millis, attempt } => {
                slept += sleep_millis;
                assert_eq!(attempt, looks);
                looks += 1;
                action = u.wait_for_delete(attempt, Probe::StillThere);
            }
            WaitAction::Fail { sleep_millis, error } => {
                slept += sleep_millis;
                break error;
            }
            WaitAction::Deleted => panic!("the object never went away"),
        }
    };
    assert_eq!(looks, 3);
    assert_eq!(slept, 30000);
    assert_eq!(error, ClusterError::Other("Waiting for too long, failing".to_string()));
}

#[test]
fn waiting_with_no_looks_allowed_fails_at_once() {
    let u = ClusterUninstaller::new().with_retries(0).build(Ok(HelmClient {})).unwrap();
    assert_eq!(
        u.wait_start(),
        WaitAction::Fail {
            sleep_millis: 0,
            error: ClusterError::Other("Waiting for too long, failing".to_string())
        }
    );
}

#[test]
fn a_failed_look_ends_the_wait_with_its_words() {
    assert_eq!(
        uninstaller().wait_for_delete(4, Probe::Failed("forbidden".to_string())),
        WaitAction::Fail { sleep_millis: 0, error: ClusterError::Other("forbidden".to_string()) }
    );
}

#[test]
fn the_last_allowed_look_is_not_followed_by_another() {
    let u = uninstaller();
    assert_eq!(
        u.wait_for_delete(8, Probe::StillThere),
        WaitAction::Retry { sleep_millis: 10000, attempt: 9 }
    );
    assert_eq!(
        u.wait_for_delete(9, Probe::StillThere),
        WaitAction::Fail {
            sleep_millis: 10000,
            error: ClusterError::Other("Waiting for too long, failing".to_string())
        }
    );
    let many = ClusterUninstaller::new().with_retries(u16::MAX).build(Ok(HelmClient {})).unwrap();
    assert_eq!(
        many.wait_for_delete(u16::MAX - 2, Probe::StillThere),
        WaitAction::Retry { sleep_millis: 10000, attempt: u16::MAX - 1 }
    );
    assert!(matches!(
        many.wait_for_delete(u16::MAX - 1, Probe::StillThere),
        WaitAction::Fail { .. }
    ));
    assert!(matches!(many.wait_for_delete(u16::MAX, Probe::StillThere), WaitAction::Fail { .. }));
}

#[test]
fn a_plan_goes_on_step_by_step() {
    let plan = uninstaller().uninstall_local();
    assert_eq!(plan.len(), 8);
    for index in 0..7 {
        assert_eq!(advance(&plan, index, Ok(())), Progress::Next(index + 1));
    }
    assert_eq!(advance(&plan, 7, Ok(())), Progress::Finished(Ok(())));
    assert_eq!(advance(&plan, 8, Ok(())), Progress::Finished(Ok(())));
}

#[test]
fn a_failure_ends_the_plan_unless_the_step_tolerates_it() {
    let plan = uninstaller().uninstall_local();
    let failure = || Err(ClusterError::Io("cannot run".to_string()));
    assert_eq!(advance(&plan, 0, failure()), Progress::Finished(failure()));
    // removing the directory may fail
    assert!(plan[1].tolerates_failure());
    assert!(!plan[0].tolerates_failure());
    assert_eq!(advance(&plan, 1, failure()), Progress::Next(2));
    assert_eq!(advance(&plan, 7, failure()), Progress::Finished(failure()));
    let only = vec![Step::RemoveDir { path: "/x".to_string() }];
    assert_eq!(advance(&only, 0, failure()), Progress::Finished(Ok(())));
}

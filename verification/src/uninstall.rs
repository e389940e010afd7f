//! Uninstalling a cluster: what has to be done, in which order, and what
//! follows from how each step went.
//!
//! Nothing here touches the system. An uninstall is planned as a list of
//! steps; whoever carries the steps out reports how each one went and is
//! told whether to go on.

use vstd::prelude::*;
use crate::text::{text, texts_of};

verus! {

/// The namespace that a cluster is installed in unless told otherwise.
pub const DEFAULT_NAMESPACE: &'static str = "default";

/// The name of the chart of the application.
pub const DEFAULT_CHART_APP_REPO: &'static str = "fluvio";

/// The name of the chart of the system part.
pub const DEFAULT_CHART_SYS_REPO: &'static str = "fluvio-sys";

/// How long to sleep after finding the object still there, in milliseconds.
pub const RETRY_SLEEP_MILLIS: u64 = 10000;

/// Why an uninstall went wrong.
#[derive(Debug, PartialEq, Eq)]
pub enum ClusterError {
    /// `helm` could not be used.
    Helm(String),
    /// A program could not be run.
    Io(String),
    /// Anything else, in words.
    Other(String),
}

/// Shows that a usable `helm` was found on the system. Whoever looked for it
/// makes the value.
#[derive(Debug, PartialEq, Eq)]
pub struct HelmClient {}

/// A program and the arguments to run it with.
#[derive(Debug, PartialEq, Eq)]
pub struct Command {
    pub program: String,
    pub args: Vec<String>,
}

/// What a `Command` stands for.
pub struct CommandView {
    pub program: Seq<char>,
    pub args: Seq<Seq<char>>,
}

impl View for Command {
    type V = CommandView;

    open spec fn view(&self) -> CommandView {
        CommandView { program: self.program@, args: texts_of(self.args@) }
    }
}

/// One step of an uninstall.
#[derive(Debug, PartialEq, Eq)]
pub enum Step {
    /// Uninstall the chart `name` with `helm`. With `ignore_not_found` a
    /// chart that is not installed is no failure.
    HelmUninstall { name: String, ignore_not_found: bool },
    /// Wait until the pod `name` in `namespace` is gone.
    WaitForDelete { name: String, namespace: String },
    /// Run a program. Only that it could not be started counts as failure;
    /// what it printed and how it ended is not looked at.
    Run(Command),
    /// Remove a directory and all that is in it. Failure is worth a warning
    /// and no more.
    RemoveDir { path: String },
}

/// What a `Step` stands for.
pub enum StepView {
    HelmUninstall { name: Seq<char>, ignore_not_found: bool },
    WaitForDelete { name: Seq<char>, namespace: Seq<char> },
    Run(CommandView),
    RemoveDir { path: Seq<char> },
}

impl View for Step {
    type V = StepView;

    open spec fn view(&self) -> StepView {
        match self {
            Step::HelmUninstall { name, ignore_not_found } => StepView::HelmUninstall {
                name: name@,
                ignore_not_found: *ignore_not_found,
            },
            Step::WaitForDelete { name, namespace } => StepView::WaitForDelete {
                name: name@,
                namespace: namespace@,
            },
            Step::Run(command) => StepView::Run(command@),
            Step::RemoveDir { path } => StepView::RemoveDir { path: path@ },
        }
    }
}

/// What a list of steps stands for.
pub open spec fn steps_of(plan: Seq<Step>) -> Seq<StepView> {
    Seq::new(plan.len(), |i: int| plan[i]@)
}

/// `kubectl delete <object_type> --namespace <namespace>`, and then either
/// `--selector <label>` or `--all`.
pub open spec fn spec_remove_objects(
    object_type: Seq<char>,
    namespace: Seq<char>,
    selector: Option<Seq<char>>,
) -> CommandView {
    CommandView {
        program: "kubectl"@,
        args: match selector {
            Some(label) => seq![
                "delete"@,
                object_type,
                "--namespace"@,
                namespace,
                "--selector"@,
                label,
            ],
            None => seq!["delete"@, object_type, "--namespace"@, namespace, "--all"@],
        },
    }
}

/// `kubectl delete secret <name> --ignore-not-found=true`.
pub open spec fn spec_remove_secrets(name: Seq<char>) -> CommandView {
    CommandView {
        program: "kubectl"@,
        args: seq!["delete"@, "secret"@, name, "--ignore-not-found=true"@],
    }
}

/// The steps that remove what an installation left in `namespace`: the SPU
/// groups, the SPUs, the topics, the volume claims of the SPUs, and the two
/// secrets.
pub open spec fn spec_cleanup(namespace: Seq<char>) -> Seq<StepView> {
    seq![
        StepView::Run(spec_remove_objects("spugroups"@, namespace, None)),
        StepView::Run(spec_remove_objects("spus"@, namespace, None)),
        StepView::Run(spec_remove_objects("topics"@, namespace, None)),
        StepView::Run(spec_remove_objects("persistentvolumeclaims"@, namespace, Some("app=spu"@))),
        StepView::Run(spec_remove_secrets("fluvio-ca"@)),
        StepView::Run(spec_remove_secrets("fluvio-tls"@)),
    ]
}

/// The steps of uninstalling the chart `name` from `namespace`.
pub open spec fn spec_uninstall(name: Seq<char>, namespace: Seq<char>) -> Seq<StepView> {
    seq![
        StepView::HelmUninstall { name, ignore_not_found: true },
        StepView::WaitForDelete { name: "flv-sc"@, namespace },
    ] + spec_cleanup(namespace)
}

/// The steps of uninstalling the system chart.
pub open spec fn spec_uninstall_sys(namespace: Seq<char>) -> Seq<StepView> {
    seq![StepView::HelmUninstall { name: DEFAULT_CHART_SYS_REPO@, ignore_not_found: true }]
        + spec_cleanup(namespace)
}

/// The steps of uninstalling a cluster that runs on this machine.
pub open spec fn spec_uninstall_local(namespace: Seq<char>) -> Seq<StepView> {
    seq![
        StepView::Run(CommandView { program: "pkill"@, args: seq!["-f"@, "fluvio run"@] }),
        StepView::RemoveDir { path: "/tmp/fluvio"@ },
    ] + spec_cleanup(namespace)
}

/// Uninstalls different flavors of fluvio
#[derive(Debug)]
pub struct ClusterUninstallerBuilder {
    /// The namespace to uninstall
    namespace: String,
    /// name of the chart repo
    name: String,
    /// retries
    retry_count: u16,
}

/// Uninstalls different flavors of fluvio
#[derive(Debug)]
pub struct ClusterUninstaller {
    /// Configuration options for this process
    config: ClusterUninstallerBuilder,
    /// Helm client for performing uninstalls
    helm_client: HelmClient,
}

impl ClusterUninstallerBuilder {
    /// The namespace to uninstall from.
    pub closed spec fn spec_namespace(&self) -> Seq<char> {
        self.namespace@
    }

    /// The name of the chart to uninstall.
    pub closed spec fn spec_name(&self) -> Seq<char> {
        self.name@
    }

    /// How often to look whether the controller's pod is gone.
    pub closed spec fn spec_retry_count(&self) -> u16 {
        self.retry_count
    }

    /// Creates a `ClusterUninstaller` with the current configuration.
    ///
    /// This fails if there is a problem with the `helm` executable on the
    /// local system: `helm` is the outcome of looking for it, and its error
    /// is handed on.
    pub fn build(self, helm: Result<HelmClient, ClusterError>) -> (r: Result<
        ClusterUninstaller,
        ClusterError,
    >)
        ensures
            match helm {
                Ok(client) => r matches Ok(uninstaller) && uninstaller.spec_config() == self,
                Err(e) => r matches Err(cause) && cause == e,
            },
    {
        match helm {
            Ok(client) => Ok(ClusterUninstaller { config: self, helm_client: client }),
            Err(e) => Err(e),
        }
    }

    /// Sets the Kubernetes namespace.
    ///
    /// The default namespace is "default".
    pub fn with_namespace(self, namespace: &str) -> (r: Self)
        ensures
            r.spec_namespace() == namespace@,
            r.spec_name() == self.spec_name(),
            r.spec_retry_count() == self.spec_retry_count(),
    {
        ClusterUninstallerBuilder {
            namespace: text(namespace),
            name: self.name,
            retry_count: self.retry_count,
        }
    }

    /// Sets the chart repo name.
    ///
    /// The default name is "fluvio".
    pub fn with_name(self, name: &str) -> (r: Self)
        ensures
            r.spec_namespace() == self.spec_namespace(),
            r.spec_name() == name@,
            r.spec_retry_count() == self.spec_retry_count(),
    {
        ClusterUninstallerBuilder {
            namespace: self.namespace,
            name: text(name),
            retry_count: self.retry_count,
        }
    }

    /// Sets how often to look whether the controller's pod is gone.
    pub fn with_retries(self, retry_count: u16) -> (r: Self)
        ensures
            r.spec_namespace() == self.spec_namespace(),
            r.spec_name() == self.spec_name(),
            r.spec_retry_count() == retry_count,
    {
        ClusterUninstallerBuilder { namespace: self.namespace, name: self.name, retry_count }
    }

    /// The namespace to uninstall from.
    pub fn namespace(&self) -> (r: &str)
        ensures
            r@ == self.spec_namespace(),
    {
        self.namespace.as_str()
    }

    /// The name of the chart to uninstall.
    pub fn name(&self) -> (r: &str)
        ensures
            r@ == self.spec_name(),
    {
        self.name.as_str()
    }

    /// How often to look whether the controller's pod is gone.
    pub fn retry_count(&self) -> (r: u16)
        ensures
            r == self.spec_retry_count(),
    {
        self.retry_count
    }
}


/// What one look for the object brought.
#[derive(Debug, PartialEq, Eq)]
pub enum Probe {
    /// The object is still there.
    StillThere,
    /// The cluster says that there is no such object.
    NotFound,
    /// The look itself failed; the text says how.
    Failed(String),
}

/// What to do next while waiting for an object to go away.
#[derive(Debug, PartialEq, Eq)]
pub enum WaitAction {
    /// Sleep for `sleep_millis`, then look again; that look is number
    /// `attempt`, counted from 0.
    Retry { sleep_millis: u64, attempt: u16 },
    /// The object is gone: stop waiting.
    Deleted,
    /// Sleep for `sleep_millis`, then give up with `error`.
    Fail { sleep_millis: u64, error: ClusterError },
}

/// What a `WaitAction` stands for.
pub enum WaitActionView {
    Retry { sleep_millis: u64, attempt: u16 },
    Deleted,
    Fail { sleep_millis: u64, message: Seq<char> },
}

impl View for WaitAction {
    type V = WaitActionView;

    open spec fn view(&self) -> WaitActionView {
        match self {
            WaitAction::Retry { sleep_millis, attempt } => WaitActionView::Retry {
                sleep_millis: *sleep_millis,
                attempt: *attempt,
            },
            WaitAction::Deleted => WaitActionView::Deleted,
            WaitAction::Fail { sleep_millis, error } => WaitActionView::Fail {
                sleep_millis: *sleep_millis,
                message: match error {
                    ClusterError::Helm(message) => message@,
                    ClusterError::Io(message) => message@,
                    ClusterError::Other(message) => message@,
                },
            },
        }
    }
}

/// What a `Probe` stands for.
pub enum ProbeView {
    StillThere,
    NotFound,
    Failed(Seq<char>),
}

impl View for Probe {
    type V = ProbeView;

    open spec fn view(&self) -> ProbeView {
        match self {
            Probe::StillThere => ProbeView::StillThere,
            Probe::NotFound => ProbeView::NotFound,
            Probe::Failed(message) => ProbeView::Failed(message@),
        }
    }
}

/// What to do before the first look: look at once, or give up at once if no
/// look is allowed.
pub open spec fn spec_wait_start(retry_count: u16) -> WaitActionView {
    if retry_count == 0 {
        WaitActionView::Fail { sleep_millis: 0, message: "Waiting for too long, failing"@ }
    } else {
        WaitActionView::Retry { sleep_millis: 0, attempt: 0 }
    }
}

/// What to do after look number `attempt` brought `probe`, where
/// `retry_count` looks are allowed: an object that is not found is gone; a
/// look that failed ends the wait with its own words; an object that is
/// still there is worth a sleep, and after it another look if one is left.
pub open spec fn spec_wait_for_delete(retry_count: u16, attempt: u16, probe: ProbeView) -> WaitActionView {
    match probe {
        ProbeView::NotFound => WaitActionView::Deleted,
        ProbeView::Failed(message) => WaitActionView::Fail { sleep_millis: 0, message },
        ProbeView::StillThere => if attempt + 1 < retry_count {
            WaitActionView::Retry {
                sleep_millis: RETRY_SLEEP_MILLIS,
                attempt: (attempt + 1) as u16,
            }
        } else {
            WaitActionView::Fail {
                sleep_millis: RETRY_SLEEP_MILLIS,
                message: "Waiting for too long, failing"@,
            }
        },
    }
}

/// Where an uninstall stands after a step.
#[derive(Debug, PartialEq, Eq)]
pub enum Progress {
    /// Carry out the step with this index next.
    Next(usize),
    /// The uninstall is over, well or badly.
    Finished(Result<(), ClusterError>),
}

/// A failure of `step` does not end the uninstall.
pub open spec fn spec_tolerates_failure(step: StepView) -> bool {
    step is RemoveDir
}

impl Step {
    /// Whether a failure of this step is let pass.
    pub fn tolerates_failure(&self) -> (b: bool)
        ensures
            b == spec_tolerates_failure(self@),
    {
        match self {
            Step::RemoveDir { .. } => true,
            _ => false,
        }
    }
}

/// What follows when step `index` of `plan` went as `outcome` says: a failure
/// ends the uninstall with its error unless the step tolerates failure;
/// otherwise the next step is due, or the uninstall has ended well if there
/// is none.
pub fn advance(plan: &Vec<Step>, index: usize, outcome: Result<(), ClusterError>) -> (r: Progress)
    ensures
        match r {
            Progress::Finished(Err(e)) => {
                &&& index < plan@.len()
                &&& !spec_tolerates_failure(plan@[index as int]@)
                &&& outcome == Err::<(), ClusterError>(e)
            },
            Progress::Finished(Ok(_)) => {
                &&& index + 1 >= plan@.len()
                &&& index < plan@.len() ==> outcome is Ok || spec_tolerates_failure(
                    plan@[index as int]@,
                )
            },
            Progress::Next(next) => {
                &&& next == index + 1
                &&& next < plan@.len()
                &&& outcome is Ok || spec_tolerates_failure(plan@[index as int]@)
            },
        },
{
    if index >= plan.len() {
        return Progress::Finished(Ok(()));
    }
    match outcome {
        Err(e) => {
            if !plan[index].tolerates_failure() {
                return Progress::Finished(Err(e));
            }
        },
        Ok(_) => {},
    }
    if index + 1 < plan.len() {
        Progress::Next(index + 1)
    } else {
        Progress::Finished(Ok(()))
    }
}

impl ClusterUninstaller {
    /// The configuration that the uninstaller was built with.
    pub closed spec fn spec_config(&self) -> ClusterUninstallerBuilder {
        self.config
    }

    /// Creates a cluster unistaller.
    ///
    /// This sets the defaults: the namespace "default", the chart "fluvio",
    /// and ten looks for the controller's pod.
    pub fn new() -> (r: ClusterUninstallerBuilder)
        ensures
            r.spec_namespace() == DEFAULT_NAMESPACE@,
            r.spec_name() == DEFAULT_CHART_APP_REPO@,
            r.spec_retry_count() == 10,
    {
        ClusterUninstallerBuilder {
            namespace: text(DEFAULT_NAMESPACE),
            name: text(DEFAULT_CHART_APP_REPO),
            retry_count: 10,
        }
    }

    /// The configuration that the uninstaller was built with.
    pub fn config(&self) -> (r: &ClusterUninstallerBuilder)
        ensures
            *r == self.spec_config(),
    {
        &self.config
    }

    /// Uninstall fluvio: uninstall the chart, wait until the controller's
    /// pod is gone, and clean up.
    pub fn uninstall(&self) -> (plan: Vec<Step>)
        ensures
            steps_of(plan@) == spec_uninstall(
                self.spec_config().spec_name(),
                self.spec_config().spec_namespace(),
            ),
    {
        let mut plan: Vec<Step> = Vec::new();
        plan.push(Step::HelmUninstall { name: self.config.name.clone(), ignore_not_found: true });
        plan.push(
            Step::WaitForDelete { name: text("flv-sc"), namespace: self.config.namespace.clone() },
        );
        let ghost head = steps_of(plan@);
        let mut tail = self.cleanup();
        let ghost rest = steps_of(tail@);
        plan.append(&mut tail);
        proof {
            assert(steps_of(plan@) =~= head + rest);
            assert(head =~= seq![
                StepView::HelmUninstall {
                    name: self.spec_config().spec_name(),
                    ignore_not_found: true,
                },
                StepView::WaitForDelete {
                    name: "flv-sc"@,
                    namespace: self.spec_config().spec_namespace(),
                },
            ]);
        }
        plan
    }

    /// Uninstall fluvio system chart, and clean up.
    pub fn uninstall_sys(&self) -> (plan: Vec<Step>)
        ensures
            steps_of(plan@) == spec_uninstall_sys(self.spec_config().spec_namespace()),
    {
        let mut plan: Vec<Step> = Vec::new();
        plan.push(
            Step::HelmUninstall { name: text(DEFAULT_CHART_SYS_REPO), ignore_not_found: true },
        );
        let ghost head = steps_of(plan@);
        let mut tail = self.cleanup();
        let ghost rest = steps_of(tail@);
        plan.append(&mut tail);
        proof {
            assert(steps_of(plan@) =~= head + rest);
            assert(head =~= seq![
                StepView::HelmUninstall { name: DEFAULT_CHART_SYS_REPO@, ignore_not_found: true },
            ]);
        }
        plan
    }

    /// Uninstall local fluvio system chart: stop the processes, remove the
    /// directory of the cluster, and clean up.
    pub fn uninstall_local(&self) -> (plan: Vec<Step>)
        ensures
            steps_of(plan@) == spec_uninstall_local(self.spec_config().spec_namespace()),
    {
        let mut args: Vec<String> = Vec::new();
        args.push(text("-f"));
        args.push(text("fluvio run"));
        proof {
            assert(texts_of(args@) =~= seq!["-f"@, "fluvio run"@]);
        }
        let mut plan: Vec<Step> = Vec::new();
        plan.push(Step::Run(Command { program: text("pkill"), args }));
        plan.push(Step::RemoveDir { path: text("/tmp/fluvio") });
        let ghost head = steps_of(plan@);
        let mut tail = self.cleanup();
        let ghost rest = steps_of(tail@);
        plan.append(&mut tail);
        proof {
            assert(steps_of(plan@) =~= head + rest);
            assert(head =~= seq![
                StepView::Run(CommandView { program: "pkill"@, args: seq!["-f"@, "fluvio run"@] }),
                StepView::RemoveDir { path: "/tmp/fluvio"@ },
            ]);
        }
        plan
    }

    /// Clean up objects and secrets created during the installation process
    pub fn cleanup(&self) -> (plan: Vec<Step>)
        ensures
            steps_of(plan@) == spec_cleanup(self.spec_config().spec_namespace()),
    {
        let ns = self.config.namespace.as_str();
        let mut plan: Vec<Step> = Vec::new();
        // delete objects
        plan.push(Step::Run(self.remove_objects("spugroups", ns, None)));
        plan.push(Step::Run(self.remove_objects("spus", ns, None)));
        plan.push(Step::Run(self.remove_objects("topics", ns, None)));
        plan.push(Step::Run(self.remove_objects("persistentvolumeclaims", ns, Some("app=spu"))));
        // delete secrets
        plan.push(Step::Run(self.remove_secrets("fluvio-ca")));
        plan.push(Step::Run(self.remove_secrets("fluvio-tls")));
        proof {
            assert(steps_of(plan@) =~= spec_cleanup(self.spec_config().spec_namespace()));
        }
        plan
    }

    /// Remove objects of specified type, namespace
    pub fn remove_objects(&self, object_type: &str, namespace: &str, selector: Option<&str>) -> (cmd:
        Command)
        ensures
            cmd@ == spec_remove_objects(
                object_type@,
                namespace@,
                match selector {
                    Some(label) => Some(label@),
                    None => None,
                },
            ),
    {
        let mut args: Vec<String> = Vec::new();
        args.push(text("delete"));
        args.push(text(object_type));
        args.push(text("--namespace"));
        args.push(text(namespace));
        match selector {
            Some(label) => {
                args.push(text("--selector"));
                args.push(text(label));
                proof {
                    assert(texts_of(args@) =~= seq![
                        "delete"@,
                        object_type@,
                        "--namespace"@,
                        namespace@,
                        "--selector"@,
                        label@,
                    ]);
                }
            },
            None => {
                args.push(text("--all"));
                proof {
                    assert(texts_of(args@) =~= seq![
                        "delete"@,
                        object_type@,
                        "--namespace"@,
                        namespace@,
                        "--all"@,
                    ]);
                }
            },
        }
        Command { program: text("kubectl"), args }
    }

    /// Remove K8 secret
    pub fn remove_secrets(&self, name: &str) -> (cmd: Command)
        ensures
            cmd@ == spec_remove_secrets(name@),
    {
        let mut args: Vec<String> = Vec::new();
        args.push(text("delete"));
        args.push(text("secret"));
        args.push(text(name));
        args.push(text("--ignore-not-found=true"));
        proof {
            assert(texts_of(args@) =~= seq![
                "delete"@,
                "secret"@,
                name@,
                "--ignore-not-found=true"@,
            ]);
        }
        Command { program: text("kubectl"), args }
    }

    /// What to do before the first look for the object that is to go away.
    pub fn wait_start(&self) -> (r: WaitAction)
        ensures
            r@ == spec_wait_start(self.spec_config().spec_retry_count()),
            r matches WaitAction::Fail { error, .. } ==> error is Other,
    {
        if self.config.retry_count == 0 {
            WaitAction::Fail {
                sleep_millis: 0,
                error: ClusterError::Other(text("Waiting for too long, failing")),
            }
        } else {
            WaitAction::Retry { sleep_millis: 0, attempt: 0 }
        }
    }

    /// What to do after look number `attempt` for the object that is to go
    /// away brought `probe`.
    pub fn wait_for_delete(&self, attempt: u16, probe: Probe) -> (r: WaitAction)
        ensures
            r@ == spec_wait_for_delete(self.spec_config().spec_retry_count(), attempt, probe@),
            r matches WaitAction::Fail { error, .. } ==> error is Other,
    {
        match probe {
            Probe::NotFound => WaitAction::Deleted,
            Probe::Failed(message) => WaitAction::Fail {
                sleep_millis: 0,
                error: ClusterError::Other(message),
            },
            Probe::StillThere => {
                if attempt < u16::MAX && attempt + 1 < self.config.retry_count {
                    WaitAction::Retry { sleep_millis: RETRY_SLEEP_MILLIS, attempt: attempt + 1 }
                } else {
                    WaitAction::Fail {
                        sleep_millis: RETRY_SLEEP_MILLIS,
                        error: ClusterError::Other(text("Waiting for too long, failing")),
                    }
                }
            },
        }
    }
}

/// Waiting ends: each look that finds the object still there is followed by
/// a look with the next number, and look number `retry_count - 1` is the
/// last.
pub proof fn lemma_wait_is_bounded(retry_count: u16, attempt: u16, probe: ProbeView)
    ensures
        match spec_wait_for_delete(retry_count, attempt, probe) {
            WaitActionView::Retry { attempt: next, .. } => next == attempt + 1 && next
                < retry_count,
            _ => true,
        },
        attempt + 1 >= retry_count ==> !(spec_wait_for_delete(retry_count, attempt, probe)
            is Retry),
{
}

} // verus!

//! The steps of the boot, in their order.
//!
//! A [`Boot`] says what to do next ([`Boot::next`]), the caller does it and reports the
//! outcome. The first step that fails is the last: the machine is then powered off.

use vstd::prelude::*;
use vstd::string::*;

use crate::boot::{boot, fatal_message, fatal_text, plan_of, BootPlan, BootPlanModel};

verus! {

/// Where the boot stands: which step is next.
pub enum BootModel {
    /// The API filesystems are to be mounted.
    MountApi,
    /// The standard streams are to be pointed at the console.
    ReopenConsole,
    /// The kernel modules are to be loaded.
    LoadModules,
    /// The kernel command line is to be read.
    ReadCmdline,
    /// The carapace is to be attached.
    Attach(BootPlanModel),
    /// The attached device is to be mounted.
    MountRoot(BootPlanModel),
    /// The timing marker is to be printed.
    Mark(BootPlanModel),
    /// The real init is to take over.
    SwitchRoot(BootPlanModel),
    /// There is no booting, after this error.
    Failed(Seq<char>),
}

impl BootModel {
    /// A step is next of which nothing is wanted but success.
    pub open spec fn is_plain(self) -> bool {
        !(self is ReadCmdline) && !(self is Failed)
    }

    /// After such a step.
    pub open spec fn after_step(self, outcome: Result<(), Seq<char>>) -> BootModel {
        match outcome {
            Err(text) => BootModel::Failed(text),
            Ok(()) => match self {
                BootModel::MountApi => BootModel::ReopenConsole,
                BootModel::ReopenConsole => BootModel::LoadModules,
                BootModel::LoadModules => BootModel::ReadCmdline,
                BootModel::Attach(plan) => BootModel::MountRoot(plan),
                BootModel::MountRoot(plan) => if plan.timing {
                    BootModel::Mark(plan)
                } else {
                    BootModel::SwitchRoot(plan)
                },
                BootModel::Mark(plan) => BootModel::SwitchRoot(plan),
                BootModel::SwitchRoot(_) => BootModel::Failed("switch_root returned unexpectedly"@),
                other => other,
            },
        }
    }

    /// After the command line was read.
    pub open spec fn after_read(self, outcome: Result<Seq<char>, Seq<char>>) -> BootModel {
        match outcome {
            Err(text) => BootModel::Failed("read /proc/cmdline: "@ + text),
            Ok(cmdline) => match plan_of(cmdline) {
                Ok(plan) => BootModel::Attach(plan),
                Err(text) => BootModel::Failed(text),
            },
        }
    }
}

/// An outcome, with its error taken for what it says.
pub open spec fn said(outcome: Result<(), String>) -> Result<(), Seq<char>> {
    match outcome {
        Ok(()) => Ok(()),
        Err(text) => Err(text@),
    }
}

/// What was read, or the error, each taken for what it says.
pub open spec fn read_text(outcome: Result<String, String>) -> Result<Seq<char>, Seq<char>> {
    match outcome {
        Ok(text) => Ok(text@),
        Err(text) => Err(text@),
    }
}

#[derive(Debug)]
enum Step {
    MountApi,
    ReopenConsole,
    LoadModules,
    ReadCmdline,
    Attach(BootPlan),
    MountRoot(BootPlan),
    Mark(BootPlan),
    SwitchRoot(BootPlan),
    Failed(String),
}

/// A boot that is under way.
#[derive(Debug)]
pub struct Boot {
    step: Step,
}

impl View for Boot {
    type V = BootModel;

    closed spec fn view(&self) -> BootModel {
        match self.step {
            Step::MountApi => BootModel::MountApi,
            Step::ReopenConsole => BootModel::ReopenConsole,
            Step::LoadModules => BootModel::LoadModules,
            Step::ReadCmdline => BootModel::ReadCmdline,
            Step::Attach(plan) => BootModel::Attach(plan@),
            Step::MountRoot(plan) => BootModel::MountRoot(plan@),
            Step::Mark(plan) => BootModel::Mark(plan@),
            Step::SwitchRoot(plan) => BootModel::SwitchRoot(plan@),
            Step::Failed(text) => BootModel::Failed(text@),
        }
    }
}

/// What the boot needs next. But for the command line, report with [`Boot::done`].
#[derive(Debug, PartialEq, Eq)]
pub enum BootAction<'a> {
    /// Mount `/proc`, `/sys` and `/dev`.
    MountApi,
    /// Point the standard streams at the console. This cannot fail the boot.
    ReopenConsole,
    /// Load the modules below `root`.
    LoadModules { root: &'a str },
    /// Read the file at `path`; report with [`Boot::read`].
    ReadCmdline { path: &'a str },
    /// Attach the carapace with the root `hash` under `name`.
    Attach { name: &'a str, hash: &'a str },
    /// Mount `device` at `target`, read-only.
    MountRoot { device: &'a str, target: &'a str, fstype: &'a str },
    /// Print the timing marker. This cannot fail the boot.
    Mark,
    /// Pivot into `root` and run `init`, which returns only where it failed.
    SwitchRoot { root: &'a str, init: &'a str },
    /// Write `message` to the console and power the machine off.
    PowerOff { message: String },
}

/// `action` is what a boot that stands at `m` needs next.
pub open spec fn is_next(m: BootModel, action: BootAction<'_>) -> bool {
    match (m, action) {
        (BootModel::MountApi, BootAction::MountApi) => true,
        (BootModel::ReopenConsole, BootAction::ReopenConsole) => true,
        (BootModel::LoadModules, BootAction::LoadModules { root }) => root@ == "/usr/lib/modules"@,
        (BootModel::ReadCmdline, BootAction::ReadCmdline { path }) => path@ == "/proc/cmdline"@,
        (BootModel::Attach(plan), BootAction::Attach { name, hash }) => name@ == "root"@ && hash@
            == plan.hash,
        (BootModel::MountRoot(plan), BootAction::MountRoot { device, target, fstype }) => device@
            == "/dev/mapper/root"@ && target@ == "/sysroot"@ && fstype@ == plan.rootfstype,
        (BootModel::Mark(_), BootAction::Mark) => true,
        (BootModel::SwitchRoot(plan), BootAction::SwitchRoot { root, init }) => root@
            == "/sysroot"@ && init@ == plan.init,
        (BootModel::Failed(text), BootAction::PowerOff { message }) => message@ == fatal_text(text),
        _ => false,
    }
}

impl Boot {
    /// Starts to boot.
    pub fn start() -> (r: Boot)
        ensures
            r@ == BootModel::MountApi,
    {
        Boot { step: Step::MountApi }
    }

    /// What is to be done next.
    pub fn next(&self) -> (r: BootAction<'_>)
        ensures
            is_next(self@, r),
    {
        match &self.step {
            Step::MountApi => BootAction::MountApi,
            Step::ReopenConsole => BootAction::ReopenConsole,
            Step::LoadModules => BootAction::LoadModules { root: "/usr/lib/modules" },
            Step::ReadCmdline => BootAction::ReadCmdline { path: "/proc/cmdline" },
            Step::Attach(plan) => BootAction::Attach { name: "root", hash: plan.hash.as_str() },
            Step::MountRoot(plan) => BootAction::MountRoot {
                device: "/dev/mapper/root",
                target: "/sysroot",
                fstype: plan.rootfstype.as_str(),
            },
            Step::Mark(_) => BootAction::Mark,
            Step::SwitchRoot(plan) => BootAction::SwitchRoot {
                root: "/sysroot",
                init: plan.init.as_str(),
            },
            Step::Failed(text) => BootAction::PowerOff { message: fatal_message(text) },
        }
    }

    /// Reports a step of which nothing is wanted but success.
    pub fn done(self, outcome: Result<(), String>) -> (r: Boot)
        requires
            self@.is_plain(),
        ensures
            r@ == self@.after_step(said(outcome)),
    {
        let step = match outcome {
            Err(text) => Step::Failed(text),
            Ok(()) => match self.step {
                Step::MountApi => Step::ReopenConsole,
                Step::ReopenConsole => Step::LoadModules,
                Step::LoadModules => Step::ReadCmdline,
                Step::Attach(plan) => Step::MountRoot(plan),
                Step::MountRoot(plan) => if plan.timing {
                    Step::Mark(plan)
                } else {
                    Step::SwitchRoot(plan)
                },
                Step::Mark(plan) => Step::SwitchRoot(plan),
                Step::SwitchRoot(_) => Step::Failed("switch_root returned unexpectedly".to_string()),
                other => other,
            },
        };
        Boot { step }
    }

    /// Reports the kernel command line, or the text of the error with which it could not
    /// be read.
    pub fn read(self, outcome: Result<String, String>) -> (r: Boot)
        requires
            self@ is ReadCmdline,
        ensures
            r@ == self@.after_read(read_text(outcome)),
    {
        let step = match outcome {
            Err(text) => {
                let mut message = "read /proc/cmdline: ".to_string();
                message.append(&text);
                Step::Failed(message)
            },
            Ok(cmdline) => match boot(&cmdline) {
                Ok(plan) => Step::Attach(plan),
                Err(text) => Step::Failed(text),
            },
        };
        Boot { step }
    }
}

/// The steps come in one order: the API filesystems, the console, the modules, the
/// command line, the carapace, its mount, the timing marker where it was asked for, and
/// the real init. The plan that is carried out is the command line's.
pub proof fn law_steps_are_in_order(cmdline: Seq<char>)
    requires
        plan_of(cmdline) is Ok,
    ensures
        ({
            let plan = plan_of(cmdline)->Ok_0;
            let console = BootModel::MountApi.after_step(Ok(()));
            let modules = console.after_step(Ok(()));
            let reading = modules.after_step(Ok(()));
            let attach = reading.after_read(Ok(cmdline));
            let mount = attach.after_step(Ok(()));
            let marked = if plan.timing {
                mount.after_step(Ok(())).after_step(Ok(()))
            } else {
                mount.after_step(Ok(()))
            };
            &&& console is ReopenConsole
            &&& modules is LoadModules
            &&& reading is ReadCmdline
            &&& attach == BootModel::Attach(plan)
            &&& mount == BootModel::MountRoot(plan)
            &&& plan.timing ==> mount.after_step(Ok(())) == BootModel::Mark(plan)
            &&& marked == BootModel::SwitchRoot(plan)
        }),
{
}

/// Any step that fails is the last, and its error is the one that is written to the
/// console. That includes the last step: the real init never comes back.
pub proof fn law_boot_stops_at_a_failure(m: BootModel, text: Seq<char>, plan: BootPlanModel)
    ensures
        m.after_step(Err(text)) == BootModel::Failed(text),
        m.after_read(Err(text)) == BootModel::Failed("read /proc/cmdline: "@ + text),
        BootModel::SwitchRoot(plan).after_step(Ok(())) is Failed,
{
}

/// An upper bound on the steps that a boot still takes.
pub open spec fn boot_steps_left(m: BootModel) -> nat {
    match m {
        BootModel::MountApi => 8,
        BootModel::ReopenConsole => 7,
        BootModel::LoadModules => 6,
        BootModel::ReadCmdline => 5,
        BootModel::Attach(_) => 4,
        BootModel::MountRoot(_) => 3,
        BootModel::Mark(_) => 2,
        BootModel::SwitchRoot(_) => 1,
        BootModel::Failed(_) => 0,
    }
}

/// Every report brings a boot nearer to its end.
pub proof fn law_boot_ends(
    m: BootModel,
    outcome: Result<(), Seq<char>>,
    cmdline: Result<Seq<char>, Seq<char>>,
)
    ensures
        m.is_plain() ==> boot_steps_left(m.after_step(outcome)) < boot_steps_left(m),
        m is ReadCmdline ==> boot_steps_left(m.after_read(cmdline)) < boot_steps_left(m),
{
}

/// What each step is given: the modules below `/usr/lib/modules`, the command line in
/// `/proc/cmdline`, the hash, filesystem type and init of the plan, and the places that
/// they go to. After a failure its error is shown, and the machine powered off.
pub proof fn law_steps_carry_the_plan_out(boot: &Boot, action: BootAction<'_>)
    requires
        call_ensures(Boot::next, (boot,), action),
    ensures
        boot@ is MountApi <==> action is MountApi,
        boot@ is ReopenConsole <==> action is ReopenConsole,
        boot@ is LoadModules <==> action is LoadModules,
        boot@ is ReadCmdline <==> action is ReadCmdline,
        boot@ is Attach <==> action is Attach,
        boot@ is MountRoot <==> action is MountRoot,
        boot@ is Mark <==> action is Mark,
        boot@ is SwitchRoot <==> action is SwitchRoot,
        boot@ is Failed <==> action is PowerOff,
        boot@ is LoadModules ==> action->LoadModules_root@ == "/usr/lib/modules"@,
        boot@ is ReadCmdline ==> action->path@ == "/proc/cmdline"@,
        boot@ is Attach ==> action->name@ == "root"@ && action->hash@ == boot@->Attach_0.hash,
        boot@ is MountRoot ==> action->device@ == "/dev/mapper/root"@ && action->target@
            == "/sysroot"@ && action->fstype@ == boot@->MountRoot_0.rootfstype,
        boot@ is SwitchRoot ==> action->SwitchRoot_root@ == "/sysroot"@ && action->init@
            == boot@->SwitchRoot_0.init,
        boot@ is Failed ==> action->message@ == "\ncarapace init: FATAL: "@ + boot@->Failed_0
            + "\npowering off.\n"@,
{
}

/// What follows each step, as it is reported: the next one where it succeeded, with the
/// same plan, and the end where it failed, with its error.
pub proof fn law_reports_lead_to_the_next_step(
    new: Boot,
    boot: Boot,
    done: Boot,
    failed: Boot,
    text: String,
    read: Boot,
    line: String,
    unread: Boot,
)
    requires
        call_ensures(Boot::start, (), new),
        call_ensures(Boot::done, (boot, Ok(())), done),
        call_ensures(Boot::done, (boot, Err(text)), failed),
        call_ensures(Boot::read, (boot, Ok(line)), read),
        call_ensures(Boot::read, (boot, Err(text)), unread),
    ensures
        new@ is MountApi,
        boot@ is MountApi ==> done@ is ReopenConsole,
        boot@ is ReopenConsole ==> done@ is LoadModules,
        boot@ is LoadModules ==> done@ is ReadCmdline,
        boot@ is Attach ==> done@ == BootModel::MountRoot(boot@->Attach_0),
        boot@ is MountRoot && boot@->MountRoot_0.timing ==> done@ == BootModel::Mark(
            boot@->MountRoot_0,
        ),
        boot@ is MountRoot && !boot@->MountRoot_0.timing ==> done@ == BootModel::SwitchRoot(
            boot@->MountRoot_0,
        ),
        boot@ is Mark ==> done@ == BootModel::SwitchRoot(boot@->Mark_0),
        boot@ is SwitchRoot ==> done@ == BootModel::Failed("switch_root returned unexpectedly"@),
        boot@.is_plain() ==> failed@ == BootModel::Failed(text@),
        boot@ is ReadCmdline ==> unread@ == BootModel::Failed("read /proc/cmdline: "@ + text@),
        boot@ is ReadCmdline && plan_of(line@) is Ok ==> read@ == BootModel::Attach(
            plan_of(line@)->Ok_0,
        ),
        boot@ is ReadCmdline && plan_of(line@) is Err ==> read@ == BootModel::Failed(
            plan_of(line@)->Err_0,
        ),
        boot@.is_plain() <==> !(boot@ is ReadCmdline) && !(boot@ is Failed),
{
}

} // verus!

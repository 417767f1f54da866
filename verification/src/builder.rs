use vstd::prelude::*;
use crate::error::PlazaResult;
use crate::string_map::StringMap;
use crate::text::strings_of;

verus! {

/// Guest OS variant.
#[derive(Debug, Clone, PartialEq, Eq)]
pub enum OsVariant {
    Alpine,
    Ubuntu,
    Fedora,
    Custom(String),
}

/// A package to install in the rootfs.
#[derive(Debug, Clone)]
pub struct RootfsPackage {
    pub name: String,
    pub version: Option<String>,
}

/// Rootfs build configuration.
#[derive(Debug, Clone)]
pub struct RootfsBuildConfig {
    pub variant: OsVariant,
    pub packages: Vec<RootfsPackage>,
    pub hostname: String,
    pub timezone: String,
    pub locale: String,
    pub users: Vec<UserConfig>,
    pub services: Vec<String>,
    pub extra_files: StringMap,
}

/// A user account to create in the rootfs.
#[derive(Debug, Clone)]
pub struct UserConfig {
    pub username: String,
    pub uid: u32,
    pub shell: String,
    pub groups: Vec<String>,
    pub ssh_authorized_keys: Vec<String>,
}

/// Guest OS rootfs builder: a configuration and the build steps that turn
/// it into a rootfs, each done or not.
pub struct OsBuilder {
    config: RootfsBuildConfig,
    build_steps: Vec<BuildStep>,
}

#[derive(Debug, Clone)]
struct BuildStep {
    name: String,
    completed: bool,
}

/// A build step: its name and whether it is done.
pub type StepView = (Seq<char>, bool);

/// What a builder holds: its configuration and its steps in order.
pub struct BuilderView {
    pub config: RootfsBuildConfig,
    pub steps: Seq<StepView>,
}

impl View for OsBuilder {
    type V = BuilderView;

    closed spec fn view(&self) -> BuilderView {
        BuilderView {
            config: self.config,
            steps: self.build_steps@.map_values(|s: BuildStep| (s.name@, s.completed)),
        }
    }
}

/// The names of the build steps, in the order they run.
pub open spec fn build_step_names() -> Seq<Seq<char>> {
    seq![
        "create_root_hierarchy"@,
        "install_base_packages"@,
        "configure_hostname"@,
        "configure_timezone"@,
        "create_users"@,
        "enable_services"@,
        "write_extra_files"@,
        "finalize"@,
    ]
}

/// The steps of a new builder: every step, none done.
pub open spec fn initial_steps() -> Seq<StepView> {
    build_step_names().map_values(|n: Seq<char>| (n, false))
}

/// The number of steps that are done.
pub open spec fn completed_count(steps: Seq<StepView>) -> nat
    decreases steps.len(),
{
    if steps.len() == 0 {
        0
    } else {
        completed_count(steps.drop_last()) + if steps.last().1 {
            1nat
        } else {
            0nat
        }
    }
}

/// The same steps, all done.
pub open spec fn all_completed(steps: Seq<StepView>) -> Seq<StepView> {
    steps.map_values(|s: StepView| (s.0, true))
}

/// The configuration of the PlazaVM minimal Alpine rootfs.
pub open spec fn is_plaza_alpine(c: RootfsBuildConfig) -> bool {
    &&& c.variant == OsVariant::Alpine
    &&& c.packages@.map_values(|p: RootfsPackage| p.name@) == seq![
        "busybox"@,
        "musl"@,
        "openrc"@,
        "openssh-server"@,
    ]
    &&& forall|i: int| 0 <= i < c.packages@.len() ==> (#[trigger] c.packages@[i]).version is None
    &&& c.hostname@ == "plaza-vm"@
    &&& c.timezone@ == "UTC"@
    &&& c.locale@ == "en_US.UTF-8"@
    &&& c.users@.len() == 1
    &&& c.users@[0].username@ == "plaza"@
    &&& c.users@[0].uid == 1000
    &&& c.users@[0].shell@ == "/bin/sh"@
    &&& strings_of(c.users@[0].groups@) == seq!["wheel"@]
    &&& c.users@[0].ssh_authorized_keys@.len() == 0
    &&& strings_of(c.services@) == seq!["networking"@, "sshd"@]
    &&& c.extra_files@ == Map::<Seq<char>, Seq<char>>::empty()
}

/// A build step of the given name, not yet done.
fn pending_step(name: &str) -> (s: BuildStep)
    ensures
        s.name@ == name@,
        !s.completed,
{
    BuildStep { name: String::from_str(name), completed: false }
}

fn package(name: &str) -> (p: RootfsPackage)
    ensures
        p.name@ == name@,
        p.version is None,
{
    RootfsPackage { name: String::from_str(name), version: None }
}

impl OsBuilder {
    /// A builder for `config`, with every build step still to do.
    pub fn new(config: RootfsBuildConfig) -> (b: Self)
        ensures
            b@.config == config,
            b@.steps == initial_steps(),
    {
        let mut steps: Vec<BuildStep> = Vec::new();
        steps.push(pending_step("create_root_hierarchy"));
        steps.push(pending_step("install_base_packages"));
        steps.push(pending_step("configure_hostname"));
        steps.push(pending_step("configure_timezone"));
        steps.push(pending_step("create_users"));
        steps.push(pending_step("enable_services"));
        steps.push(pending_step("write_extra_files"));
        steps.push(pending_step("finalize"));
        let b = OsBuilder { config, build_steps: steps };
        assert(b@.steps =~= initial_steps());
        b
    }

    /// A builder for the PlazaVM minimal Alpine rootfs.
    pub fn plaza_alpine() -> (b: Self)
        ensures
            is_plaza_alpine(b@.config),
            b@.steps == initial_steps(),
    {
        let mut packages: Vec<RootfsPackage> = Vec::new();
        packages.push(package("busybox"));
        packages.push(package("musl"));
        packages.push(package("openrc"));
        packages.push(package("openssh-server"));
        let mut groups: Vec<String> = Vec::new();
        groups.push(String::from_str("wheel"));
        let mut users: Vec<UserConfig> = Vec::new();
        users.push(
            UserConfig {
                username: String::from_str("plaza"),
                uid: 1000,
                shell: String::from_str("/bin/sh"),
                groups,
                ssh_authorized_keys: Vec::new(),
            },
        );
        let mut services: Vec<String> = Vec::new();
        services.push(String::from_str("networking"));
        services.push(String::from_str("sshd"));
        let config = RootfsBuildConfig {
            variant: OsVariant::Alpine,
            packages,
            hostname: String::from_str("plaza-vm"),
            timezone: String::from_str("UTC"),
            locale: String::from_str("en_US.UTF-8"),
            users,
            services,
            extra_files: StringMap::new(),
        };
        assert(config.packages@.map_values(|p: RootfsPackage| p.name@) =~= seq![
            "busybox"@,
            "musl"@,
            "openrc"@,
            "openssh-server"@,
        ]);
        assert(strings_of(config.users@[0].groups@) =~= seq!["wheel"@]);
        assert(strings_of(config.services@) =~= seq!["networking"@, "sshd"@]);
        Self::new(config)
    }

    /// The number of build steps.
    pub fn step_count(&self) -> (n: usize)
        ensures
            n == self@.steps.len(),
    {
        self.build_steps.len()
    }

    /// The number of build steps that are done.
    pub fn completed_steps(&self) -> (n: usize)
        ensures
            n == completed_count(self@.steps),
            n == self@.steps.filter(|s: StepView| s.1).len(),
    {
        proof {
            lemma_completed_count_is_filter(self@.steps);
        }
        let ghost steps = self@.steps;
        let mut n: usize = 0;
        let mut i: usize = 0;
        while i < self.build_steps.len()
            invariant
                steps == self@.steps,
                i <= steps.len(),
                n == completed_count(steps.take(i as int)),
                n <= i,
            decreases steps.len() - i,
        {
            proof {
                assert(steps.take(i + 1).drop_last() =~= steps.take(i as int));
                assert(steps[i as int].1 == self.build_steps@[i as int].completed);
            }
            if self.build_steps[i].completed {
                n = n + 1;
            }
            i = i + 1;
        }
        proof {
            assert(steps.take(steps.len() as int) =~= steps);
        }
        n
    }

    /// Runs every build step; each is then done.
    pub fn execute_all(&mut self) -> (r: PlazaResult<()>)
        ensures
            r is Ok,
            final(self)@.config == old(self)@.config,
            final(self)@.steps == all_completed(old(self)@.steps),
            final(self)@.steps.len() == old(self)@.steps.len(),
            forall|i: int|
                0 <= i < old(self)@.steps.len() ==> #[trigger] final(self)@.steps[i] == (
                old(self)@.steps[i].0,
                true,
            ),
            completed_count(final(self)@.steps) == final(self)@.steps.len(),
    {
        let ghost before = self@.steps;
        let mut i: usize = 0;
        while i < self.build_steps.len()
            invariant
                before.len() == self.build_steps@.len(),
                i <= before.len(),
                forall|j: int| 0 <= j < i ==> (#[trigger] self.build_steps@[j]).name@ == before[j].0
                    && self.build_steps@[j].completed,
                forall|j: int| i <= j < before.len() ==> (#[trigger] self.build_steps@[j]).name@
                    == before[j].0,
                self.config == old(self).config,
                before == old(self)@.steps,
            decreases before.len() - i,
        {
            proof {
                assert(before[i as int].0 == self.build_steps@[i as int].name@);
            }
            let name = self.build_steps[i].name.clone();
            self.build_steps.set(i, BuildStep { name, completed: true });
            i = i + 1;
        }
        proof {
            assert(self@.steps =~= all_completed(before));
            lemma_all_completed_count(before);
        }
        Ok(())
    }

    /// The configuration being built.
    pub fn config(&self) -> (c: &RootfsBuildConfig)
        ensures
            *c == self@.config,
    {
        &self.config
    }
}

/// The completed count is the number of steps marked done.
pub proof fn lemma_completed_count_is_filter(steps: Seq<StepView>)
    ensures
        completed_count(steps) == steps.filter(|s: StepView| s.1).len(),
    decreases steps.len(),
{
    reveal(Seq::filter);
    if steps.len() > 0 {
        lemma_completed_count_is_filter(steps.drop_last());
    }
}

/// A new builder has the eight named steps in order, none done.
pub proof fn lemma_initial_steps_meaning()
    ensures
        initial_steps().len() == 8,
        forall|i: int| 0 <= i < 8 ==> #[trigger] initial_steps()[i] == (build_step_names()[i], false),
        initial_steps()[0].0 == "create_root_hierarchy"@,
        initial_steps()[7].0 == "finalize"@,
{
}

/// Marking all steps done keeps their names and order.
pub proof fn lemma_all_completed_meaning(steps: Seq<StepView>)
    ensures
        all_completed(steps).len() == steps.len(),
        forall|i: int| 0 <= i < steps.len() ==> #[trigger] all_completed(steps)[i] == (steps[i].0, true),
{
}

/// Once every step is done, the count of completed steps is the number of
/// steps.
pub proof fn lemma_all_completed_count(steps: Seq<StepView>)
    ensures
        completed_count(all_completed(steps)) == steps.len(),
    decreases steps.len(),
{
    if steps.len() > 0 {
        assert(all_completed(steps).drop_last() =~= all_completed(steps.drop_last()));
        lemma_all_completed_count(steps.drop_last());
    }
}

proof fn lemma_completed_count_of(steps: Seq<StepView>)
    ensures
        completed_count(steps) <= steps.len(),
        (forall|i: int| 0 <= i < steps.len() ==> !(#[trigger] steps[i]).1) ==> completed_count(steps) == 0,
    decreases steps.len(),
{
    if steps.len() > 0 {
        let t = steps.drop_last();
        lemma_completed_count_of(t);
        if forall|i: int| 0 <= i < steps.len() ==> !(#[trigger] steps[i]).1 {
            assert(!steps[steps.len() - 1].1);
            assert forall|i: int| 0 <= i < t.len() implies !(#[trigger] t[i]).1 by {
                assert(t[i] == steps[i]);
            }
        }
    }
}

/// The count of completed steps never exceeds the number of steps, and is
/// zero for a new builder.
pub proof fn lemma_completed_count_bounds(steps: Seq<StepView>)
    ensures
        completed_count(steps) <= steps.len(),
        completed_count(initial_steps()) == 0,
{
    lemma_completed_count_of(steps);
    lemma_completed_count_of(initial_steps());
}

} // verus!

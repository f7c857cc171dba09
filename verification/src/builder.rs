//! Builds from a preset: the commands of each build step, and the order in
//! which they run.

use crate::text::{concatenate, same, texts};
use vstd::prelude::*;

verus! {

/// Errors reported when performing a build
#[derive(Debug, Clone, Copy, PartialEq, Eq)]
pub enum Error {
    /// A command of the build did not succeed.
    BuildFailed,
    /// The text names no build step.
    InvalidStep,
}

/// Represent a build step
#[derive(Debug, Clone, Copy, PartialEq, Eq)]
pub enum BuildStep {
    /// Initialize and build
    All,
    /// Initialize a build using defconfig
    Init,
    /// Continue a previously initialized build
    Main,
}

pub const STEP_ALL: &'static str = "all";

pub const STEP_INIT: &'static str = "init";

pub const STEP_MAIN: &'static str = "main";

/// The target that writes the configuration of a preset.
pub const TARGET_DEFCONFIG: &'static str = "defconfig";

/// The target that builds everything.
pub const TARGET_ALL: &'static str = "all";

/// The program that builds.
pub const PROGRAM: &'static str = "make";

/// The option that names the directory to build in.
pub const DIRECTORY_OPTION: &'static str = "-C";

pub const EXTERNAL_VARIABLE: &'static str = "BR2_EXTERNAL=";

pub const DEFCONFIG_VARIABLE: &'static str = "BR2_DEFCONFIG=";

pub const OUTPUT_VARIABLE: &'static str = "O=";

/// What parts the paths of the external trees.
pub const EXTERNAL_SEPARATOR: &'static str = ":";

/// The step that a text names.
pub open spec fn step_of(s: Seq<char>) -> Result<BuildStep, Error> {
    if s == STEP_ALL@ {
        Ok(BuildStep::All)
    } else if s == STEP_INIT@ {
        Ok(BuildStep::Init)
    } else if s == STEP_MAIN@ {
        Ok(BuildStep::Main)
    } else {
        Err(Error::InvalidStep)
    }
}

impl BuildStep {
    /// The name of the step.
    pub open spec fn spec_name(self) -> Seq<char> {
        match self {
            BuildStep::All => STEP_ALL@,
            BuildStep::Init => STEP_INIT@,
            BuildStep::Main => STEP_MAIN@,
        }
    }

    /// The targets of the step, in the order in which they are built: the
    /// configuration first where the step initializes, then everything
    /// where it builds.
    pub open spec fn spec_targets(self) -> Seq<Seq<char>> {
        match self {
            BuildStep::All => seq![TARGET_DEFCONFIG@, TARGET_ALL@],
            BuildStep::Init => seq![TARGET_DEFCONFIG@],
            BuildStep::Main => seq![TARGET_ALL@],
        }
    }

    /// The step that `s` names: `all`, `init` or `main`.
    pub fn from_str(s: &str) -> (r: Result<BuildStep, Error>)
        ensures
            r == step_of(s@),
    {
        if same(s, STEP_ALL) {
            Ok(BuildStep::All)
        } else if same(s, STEP_INIT) {
            Ok(BuildStep::Init)
        } else if same(s, STEP_MAIN) {
            Ok(BuildStep::Main)
        } else {
            Err(Error::InvalidStep)
        }
    }

    /// The name of the step.
    pub fn name(self) -> (name: &'static str)
        ensures
            name@ == self.spec_name(),
    {
        match self {
            BuildStep::All => STEP_ALL,
            BuildStep::Init => STEP_INIT,
            BuildStep::Main => STEP_MAIN,
        }
    }

    /// The targets of the step, in the order in which they are built.
    pub fn targets(self) -> (targets: Vec<String>)
        ensures
            texts(targets@) == self.spec_targets(),
    {
        let mut targets: Vec<String> = Vec::new();
        match self {
            BuildStep::All => {
                targets.push(String::from_str(TARGET_DEFCONFIG));
                targets.push(String::from_str(TARGET_ALL));
            },
            BuildStep::Init => {
                targets.push(String::from_str(TARGET_DEFCONFIG));
            },
            BuildStep::Main => {
                targets.push(String::from_str(TARGET_ALL));
            },
        }
        assert(texts(targets@) =~= self.spec_targets());
        targets
    }
}

impl core::str::FromStr for BuildStep {
    type Err = Error;

    fn from_str(s: &str) -> (r: Result<BuildStep, Error>)
        ensures
            r == step_of(s@),
    {
        BuildStep::from_str(s)
    }
}

/// One run of a program: its name and its arguments, in order.
#[derive(Debug, PartialEq, Eq)]
pub struct Command {
    pub program: String,
    pub args: Vec<String>,
}

pub ghost struct CommandView {
    pub program: Seq<char>,
    pub args: Seq<Seq<char>>,
}

impl View for Command {
    type V = CommandView;

    open spec fn view(&self) -> CommandView {
        CommandView { program: self.program@, args: texts(self.args@) }
    }
}

/// The result of a command that has ended: it is a failed build unless the
/// command succeeded.
pub open spec fn result_of(success: bool) -> Result<(), Error> {
    if success {
        Ok(())
    } else {
        Err(Error::BuildFailed)
    }
}

/// The result of a command that has ended, given whether it succeeded.
pub fn command_result(success: bool) -> (r: Result<(), Error>)
    ensures
        r == result_of(success),
{
    if success {
        Ok(())
    } else {
        Err(Error::BuildFailed)
    }
}

/// Represent a Buildroot builder: a preset, the directory to build in, and
/// the trees to build from.
#[derive(Debug)]
pub struct Builder {
    pub(crate) defconfig: String,
    pub(crate) output: String,
    pub(crate) main: String,
    pub(crate) externals: Vec<String>,
}

pub ghost struct BuilderView {
    pub defconfig: Seq<char>,
    pub output: Seq<char>,
    pub main: Seq<char>,
    pub externals: Seq<Seq<char>>,
}

impl View for Builder {
    type V = BuilderView;

    closed spec fn view(&self) -> BuilderView {
        BuilderView {
            defconfig: self.defconfig@,
            output: self.output@,
            main: self.main@,
            externals: texts(self.externals@),
        }
    }
}

/// The parts in order, with `sep` between each two of them.
pub open spec fn joined(parts: Seq<Seq<char>>, sep: Seq<char>) -> Seq<char>
    decreases parts.len(),
{
    if parts.len() == 0 {
        Seq::empty()
    } else if parts.len() == 1 {
        parts[0]
    } else {
        joined(parts.drop_last(), sep) + sep + parts.last()
    }
}

/// The argument that names the external trees, if their joined paths are
/// not empty.
pub open spec fn external_argument(externals: Seq<Seq<char>>) -> Seq<Seq<char>> {
    let paths = joined(externals, EXTERNAL_SEPARATOR@);
    if paths.len() > 0 {
        seq![EXTERNAL_VARIABLE@ + paths]
    } else {
        Seq::empty()
    }
}

/// The arguments of the command that builds `targets`: the external trees
/// where there are any, the main tree as the directory to work in, the
/// output directory, the preset, then the targets.
pub open spec fn arguments(builder: BuilderView, targets: Seq<Seq<char>>) -> Seq<Seq<char>> {
    external_argument(builder.externals) + seq![
        DIRECTORY_OPTION@,
        builder.main,
        OUTPUT_VARIABLE@ + builder.output,
        DEFCONFIG_VARIABLE@ + builder.defconfig,
    ] + targets
}

/// The command that builds `targets`.
pub open spec fn command(builder: BuilderView, targets: Seq<Seq<char>>) -> CommandView {
    CommandView { program: PROGRAM@, args: arguments(builder, targets) }
}

/// The commands of a step: one for each of its targets, in order.
pub open spec fn plan(builder: BuilderView, step: BuildStep) -> Seq<CommandView> {
    step.spec_targets().map_values(|target: Seq<char>| command(builder, seq![target]))
}

/// The parts in order, with `sep` between each two of them.
pub fn join(parts: &Vec<String>, sep: &str) -> (out: String)
    ensures
        out@ == joined(texts(parts@), sep@),
{
    let mut out = String::new();
    let mut i: usize = 0;
    while i < parts.len()
        invariant
            i <= parts.len(),
            out@ == joined(texts(parts@).take(i as int), sep@),
        decreases parts.len() - i,
    {
        proof {
            let next = texts(parts@).take(i + 1);
            assert(next.drop_last() == texts(parts@).take(i as int));
            assert(next.last() == parts@[i as int]@);
            if i == 0 {
                assert(Seq::<char>::empty() + parts@[i as int]@ == parts@[i as int]@);
            }
        }
        if i > 0 {
            out.append(sep);
        }
        out.append(parts[i].as_str());
        i += 1;
    }
    assert(texts(parts@).take(parts.len() as int) == texts(parts@));
    out
}

impl Builder {
    /// A builder for the preset at `defconfig`, building in `output` from
    /// the main tree at `main` and the external trees at `externals`.
    pub fn new(defconfig: String, output: String, main: String, externals: Vec<String>) -> (builder:
        Builder)
        ensures
            builder@ == (BuilderView {
                defconfig: defconfig@,
                output: output@,
                main: main@,
                externals: texts(externals@),
            }),
    {
        Builder { defconfig, output, main, externals }
    }

    /// The path of the preset.
    pub fn defconfig(&self) -> (path: &str)
        ensures
            path@ == self@.defconfig,
    {
        self.defconfig.as_str()
    }

    /// The path of the directory to build in.
    pub fn output(&self) -> (path: &str)
        ensures
            path@ == self@.output,
    {
        self.output.as_str()
    }

    /// The path of the main tree.
    pub fn main(&self) -> (path: &str)
        ensures
            path@ == self@.main,
    {
        self.main.as_str()
    }

    /// The paths of the external trees.
    pub fn externals(&self) -> (paths: &Vec<String>)
        ensures
            texts(paths@) == self@.externals,
    {
        &self.externals
    }

    /// The command that builds a list of targets specified by name.
    pub fn build_targets(&self, targets: &Vec<String>) -> (command: Command)
        ensures
            command@ == self::command(self@, texts(targets@)),
    {
        let mut args: Vec<String> = Vec::new();
        let paths = join(&self.externals, EXTERNAL_SEPARATOR);
        if !paths.as_str().is_empty() {
            args.push(concatenate(EXTERNAL_VARIABLE, paths.as_str()));
        }
        assert(texts(args@) =~= external_argument(self@.externals));
        args.push(String::from_str(DIRECTORY_OPTION));
        args.push(self.main.clone());
        args.push(concatenate(OUTPUT_VARIABLE, self.output.as_str()));
        args.push(concatenate(DEFCONFIG_VARIABLE, self.defconfig.as_str()));
        let ghost head = texts(args@);
        assert(head =~= external_argument(self@.externals) + seq![
            DIRECTORY_OPTION@,
            self@.main,
            OUTPUT_VARIABLE@ + self@.output,
            DEFCONFIG_VARIABLE@ + self@.defconfig,
        ]);
        let mut i: usize = 0;
        while i < targets.len()
            invariant
                i <= targets.len(),
                texts(args@) == head + texts(targets@).take(i as int),
            decreases targets.len() - i,
        {
            assert(texts(targets@).take(i + 1) == texts(targets@).take(i as int).push(
                targets@[i as int]@,
            ));
            assert(texts(args@.push(targets@[i as int])) =~= texts(args@).push(targets@[i as int]@));
            args.push(targets[i].clone());
            i += 1;
        }
        assert(texts(targets@).take(targets.len() as int) == texts(targets@));
        Command { program: String::from_str(PROGRAM), args }
    }

    /// The run of a build step: its commands, one for each target of the
    /// step since the targets cannot share a command, none of them run yet.
    pub fn run_step(&self, step: BuildStep) -> (run: StepRun)
        ensures
            run@ == (StepRunView { commands: plan(self@, step), done: 0, failed: false }),
    {
        let targets = step.targets();
        let mut commands: Vec<Command> = Vec::new();
        let mut i: usize = 0;
        while i < targets.len()
            invariant
                i <= targets.len(),
                texts(targets@) == step.spec_targets(),
                commands_view(commands@) == plan(self@, step).take(i as int),
            decreases targets.len() - i,
        {
            let mut one: Vec<String> = Vec::new();
            one.push(targets[i].clone());
            assert(texts(one@) =~= seq![step.spec_targets()[i as int]]);
            let command = self.build_targets(&one);
            assert(commands_view(commands@.push(command)) =~= commands_view(commands@).push(
                command@,
            ));
            assert(plan(self@, step).take(i + 1) =~= plan(self@, step).take(i as int).push(
                plan(self@, step)[i as int],
            ));
            commands.push(command);
            i += 1;
        }
        assert(plan(self@, step).take(targets.len() as int) == plan(self@, step));
        StepRun { commands, done: 0, failed: false }
    }
}

pub open spec fn commands_view(commands: Seq<Command>) -> Seq<CommandView> {
    commands.map_values(|c: Command| c@)
}

/// The run of a build step: the commands of the step, how many of them have
/// succeeded, and whether one has failed. The caller runs each command that
/// `next` hands out and reports how it ended.
#[derive(Debug)]
pub struct StepRun {
    commands: Vec<Command>,
    done: usize,
    failed: bool,
}

pub ghost struct StepRunView {
    pub commands: Seq<CommandView>,
    pub done: nat,
    pub failed: bool,
}

/// What the caller of a run is to do next.
#[derive(Debug)]
pub enum Action<'a> {
    /// Run this command and report how it ended.
    Run(&'a Command),
    /// The step is over, with this result.
    Done(Result<(), Error>),
}

pub ghost enum ActionView {
    Run(CommandView),
    Done(Result<(), Error>),
}

impl<'a> View for Action<'a> {
    type V = ActionView;

    open spec fn view(&self) -> ActionView {
        match self {
            Action::Run(c) => ActionView::Run(c@),
            Action::Done(r) => ActionView::Done(*r),
        }
    }
}

impl StepRunView {
    /// Whether a command is still to be run.
    pub open spec fn running(self) -> bool {
        !self.failed && self.done < self.commands.len()
    }

    /// What is to be done next: nothing more once a command has failed, the
    /// next command while there is one, and success after the last.
    pub open spec fn next(self) -> ActionView {
        if self.failed {
            ActionView::Done(Err(Error::BuildFailed))
        } else if self.done < self.commands.len() {
            ActionView::Run(self.commands[self.done as int])
        } else {
            ActionView::Done(Ok(()))
        }
    }

    /// The run after the command that was handed out has ended. A run that
    /// is over stays as it is.
    pub open spec fn reported(self, success: bool) -> StepRunView {
        if !self.running() {
            self
        } else if success {
            StepRunView { done: self.done + 1, ..self }
        } else {
            StepRunView { failed: true, ..self }
        }
    }
}

impl View for StepRun {
    type V = StepRunView;

    closed spec fn view(&self) -> StepRunView {
        StepRunView {
            commands: commands_view(self.commands@),
            done: self.done as nat,
            failed: self.failed,
        }
    }
}

impl StepRun {
    /// What is to be done next.
    pub fn next(&self) -> (action: Action<'_>)
        ensures
            action@ == self@.next(),
    {
        if self.failed {
            Action::Done(Err(Error::BuildFailed))
        } else if self.done < self.commands.len() {
            Action::Run(&self.commands[self.done])
        } else {
            Action::Done(Ok(()))
        }
    }

    /// Takes note of how the command that `next` handed out has ended.
    pub fn report(&mut self, success: bool)
        ensures
            final(self)@ == old(self)@.reported(success),
    {
        if !self.failed && self.done < self.commands.len() {
            if success {
                self.done = self.done + 1;
            } else {
                self.failed = true;
            }
        }
    }
}

/// Once a command has failed the step is over with `BuildFailed`, whatever
/// is reported afterwards: no further command is handed out.
pub proof fn lemma_failure_ends_run(run: StepRunView, later: Seq<bool>)
    requires
        run.running(),
    ensures
        reported_all(run.reported(false), later).next() == ActionView::Done(
            Err(Error::BuildFailed),
        ),
    decreases later.len(),
{
    if later.len() > 0 {
        lemma_failure_ends_run(run, later.drop_last());
    }
}

/// The run after a sequence of reports.
pub open spec fn reported_all(run: StepRunView, reports: Seq<bool>) -> StepRunView
    decreases reports.len(),
{
    if reports.len() == 0 {
        run
    } else {
        reported_all(run, reports.drop_last()).reported(reports.last())
    }
}

} // verus!

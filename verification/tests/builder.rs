use br2_utils::builder::{command_result, join, Action, BuildStep, Builder, Command, Error};

fn builder(externals: &[&str]) -> Builder {
    Builder::new(
        "/br/configs/acme_defconfig".to_string(),
        "/out".to_string(),
        "/br".to_string(),
        externals.iter().map(|s| s.to_string()).collect(),
    )
}

fn args(list: &[&str]) -> Vec<String> {
    list.iter().map(|s| s.to_string()).collect()
}

#[test]
fn step_names() {
    assert_eq!(BuildStep::from_str("all"), Ok(BuildStep::All));
    assert_eq!(BuildStep::from_str("init"), Ok(BuildStep::Init));
    assert_eq!(BuildStep::from_str("main"), Ok(BuildStep::Main));
    assert_eq!(BuildStep::from_str("ALL"), Err(Error::InvalidStep));
    assert_eq!("init".parse::<BuildStep>(), Ok(BuildStep::Init));
    assert_eq!(BuildStep::All.name(), "all");
    assert_eq!(BuildStep::Init.name(), "init");
    assert_eq!(BuildStep::Main.name(), "main");
}

#[test]
fn step_targets() {
    assert_eq!(BuildStep::All.targets(), args(&["defconfig", "all"]));
    assert_eq!(BuildStep::Init.targets(), args(&["defconfig"]));
    assert_eq!(BuildStep::Main.targets(), args(&["all"]));
}

#[test]
fn joined_paths() {
    assert_eq!(join(&args(&[]), ":"), "");
    assert_eq!(join(&args(&["a"]), ":"), "a");
    assert_eq!(join(&args(&["a", "b", "c"]), ":"), "a:b:c");
}

#[test]
fn command_without_externals() {
    let command = builder(&[]).build_targets(&args(&["all"]));
    assert_eq!(
        command,
        Command {
            program: "make".to_string(),
            args: args(&["-C", "/br", "O=/out", "BR2_DEFCONFIG=/br/configs/acme_defconfig", "all"]),
        }
    );
}

#[test]
fn command_with_externals() {
    let command = builder(&["/e1", "/e2"]).build_targets(&args(&["a", "b"]));
    assert_eq!(command.program, "make");
    assert_eq!(
        command.args,
        args(&[
            "BR2_EXTERNAL=/e1:/e2",
            "-C",
            "/br",
            "O=/out",
            "BR2_DEFCONFIG=/br/configs/acme_defconfig",
            "a",
            "b"
        ])
    );
}

#[test]
fn builder_fields() {
    let b = builder(&["/e1"]);
    assert_eq!(b.defconfig(), "/br/configs/acme_defconfig");
    assert_eq!(b.output(), "/out");
    assert_eq!(b.main(), "/br");
    assert_eq!(b.externals(), &args(&["/e1"]));
}

#[test]
fn run_all_succeeds() {
    let b = builder(&[]);
    let mut run = b.run_step(BuildStep::All);
    match run.next() {
        Action::Run(c) => assert_eq!(c.args.last().map(String::as_str), Some("defconfig")),
        Action::Done(_) => panic!("over too early"),
    }
    run.report(true);
    match run.next() {
        Action::Run(c) => assert_eq!(c.args.last().map(String::as_str), Some("all")),
        Action::Done(_) => panic!("over too early"),
    }
    run.report(true);
    assert!(matches!(run.next(), Action::Done(Ok(()))));
    run.report(false);
    assert!(matches!(run.next(), Action::Done(Ok(()))));
}

#[test]
fn run_stops_at_failure() {
    let b = builder(&[]);
    let mut run = b.run_step(BuildStep::All);
    assert!(matches!(run.next(), Action::Run(_)));
    run.report(false);
    assert!(matches!(run.next(), Action::Done(Err(Error::BuildFailed))));
    run.report(true);
    assert!(matches!(run.next(), Action::Done(Err(Error::BuildFailed))));
}

#[test]
fn run_single_target_steps() {
    let b = builder(&[]);
    let mut run = b.run_step(BuildStep::Init);
    match run.next() {
        Action::Run(c) => assert_eq!(c.args.last().map(String::as_str), Some("defconfig")),
        Action::Done(_) => panic!("over too early"),
    }
    run.report(true);
    assert!(matches!(run.next(), Action::Done(Ok(()))));
    let mut run = b.run_step(BuildStep::Main);
    match run.next() {
        Action::Run(c) => assert_eq!(c.args.last().map(String::as_str), Some("all")),
        Action::Done(_) => panic!("over too early"),
    }
    run.report(true);
    assert!(matches!(run.next(), Action::Done(Ok(()))));
}

#[test]
fn result_of_a_command() {
    assert_eq!(command_result(true), Ok(()));
    assert_eq!(command_result(false), Err(Error::BuildFailed));
}

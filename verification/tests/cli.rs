use carapace::cli::{
    exit_code, parse_and_dispatch, parse_attach, parse_detach, parse_import, value_for, Command, Dispatch, ImportArgs,
    Parsed,
};
use carapace::dm::{DmError, IoError, IoErrorKind};
use carapace::error::CarapaceError;

fn args(items: &[&str]) -> Vec<String> {
    items.iter().map(|s| (*s).to_string()).collect()
}

fn any_name(_: &String) -> Result<(), CarapaceError> {
    Ok(())
}

fn no_slash(name: &String) -> Result<(), CarapaceError> {
    if name.contains('/') {
        Err(CarapaceError::Usage("slash".to_string()))
    } else {
        Ok(())
    }
}

fn attach(items: &[&str]) -> Result<Parsed<(String, String)>, CarapaceError> {
    parse_attach(&args(items), any_name)
}

fn given<T>(r: Result<Parsed<T>, CarapaceError>) -> T {
    match r {
        Ok(Parsed::Args(t)) => t,
        Ok(Parsed::Help) => panic!("help"),
        Err(e) => panic!("{:?}", e),
    }
}

fn usage<T>(text: &str) -> Result<T, CarapaceError> {
    Err(CarapaceError::Usage(text.to_string()))
}

#[test]
fn parse_attach_long_form() {
    let (n, r) = given(attach(&["--name", "root", "--root", "deadbeef"]));
    assert_eq!(n, "root");
    assert_eq!(r, "deadbeef");
}

#[test]
fn parse_attach_short_form() {
    let (n, r) = given(attach(&["-n", "root", "-r", "deadbeef"]));
    assert_eq!(n, "root");
    assert_eq!(r, "deadbeef");
}

#[test]
fn parse_attach_flag_order_is_arbitrary() {
    let (n, r) = given(attach(&["--root", "deadbeef", "--name", "root"]));
    assert_eq!(n, "root");
    assert_eq!(r, "deadbeef");
}

#[test]
fn parse_attach_rejects_missing_required() {
    assert!(matches!(attach(&["--name", "root"]), Err(CarapaceError::Usage(_))));
    assert!(matches!(attach(&["--root", "deadbeef"]), Err(CarapaceError::Usage(_))));
    assert_eq!(attach(&["--name", "root"]), usage("attach: --root is required"));
    assert_eq!(attach(&["--root", "deadbeef"]), usage("attach: --name is required"));
}

#[test]
fn parse_attach_rejects_unknown_flag() {
    assert!(matches!(
        attach(&["--name", "x", "--root", "y", "--bogus"]),
        Err(CarapaceError::Usage(_))
    ));
    assert_eq!(attach(&["a\"b"]), usage("attach: unexpected argument \"a\\\"b\""));
}

#[test]
fn parse_attach_rejects_value_missing_for_flag() {
    assert!(matches!(attach(&["--name"]), Err(CarapaceError::Usage(_))));
    assert_eq!(attach(&["--name"]), usage("--name requires a value"));
    assert_eq!(attach(&["--name", "x", "-r"]), usage("-r requires a value"));
}

#[test]
fn parse_detach_requires_name() {
    assert_eq!(given(parse_detach(&args(&["--name", "root"]), any_name)), "root");
    assert!(matches!(parse_detach(&args(&[]), any_name), Err(CarapaceError::Usage(_))));
    assert_eq!(parse_detach(&args(&[]), any_name), usage("detach: --name is required"));
    assert_eq!(parse_detach(&args(&["--root"]), any_name), usage("detach: unexpected argument \"--root\""));
}

#[test]
fn the_last_value_of_a_flag_wins() {
    let (n, r) = given(attach(&["-n", "a", "-r", "x", "--name", "b", "-r", "y"]));
    assert_eq!((n.as_str(), r.as_str()), ("b", "y"));
}

#[test]
fn a_flag_can_be_a_value() {
    let (n, r) = given(attach(&["-n", "--root", "-r", "--help"]));
    assert_eq!((n.as_str(), r.as_str()), ("--root", "--help"));
}

#[test]
fn help_comes_first_come_first_served() {
    assert_eq!(attach(&["-n", "a", "--help", "--bogus"]), Ok(Parsed::Help));
    assert_eq!(attach(&["-h"]), Ok(Parsed::Help));
    assert!(attach(&["--bogus", "--help"]).is_err());
    assert_eq!(parse_import(&args(&["-h"])), Ok(Parsed::Help));
    assert_eq!(parse_detach(&args(&["--help"]), any_name), Ok(Parsed::Help));
}

#[test]
fn the_name_is_checked_before_the_root_is_missed() {
    assert_eq!(parse_attach(&args(&["-n", "a/b"]), no_slash), usage("slash"));
    assert_eq!(parse_attach(&args(&["-n", "a"]), no_slash), usage("attach: --root is required"));
    assert_eq!(parse_detach(&args(&["-n", "a/b"]), no_slash), usage("slash"));
}

#[test]
fn import_needs_all_three_flags() {
    let r = parse_import(&args(&["-i", "raw", "--out", "dir", "-t", "43"]));
    let expected = ImportArgs { image: "raw".to_string(), out: "dir".to_string(), tag: "43".to_string() };
    assert_eq!(r, Ok(Parsed::Args(expected)));
    assert_eq!(parse_import(&args(&["-o", "d", "-t", "x"])), usage("import: --image is required"));
    assert_eq!(parse_import(&args(&["-i", "d", "-t", "x"])), usage("import: --out is required"));
    assert_eq!(parse_import(&args(&["-i", "d", "-o", "x"])), usage("import: --tag is required"));
    assert_eq!(parse_import(&args(&["--name"])), usage("import: unexpected argument \"--name\""));
}

#[test]
fn a_flag_without_a_value_is_named() {
    assert_eq!(value_for("-n", Some("x".to_string())), Ok("x".to_string()));
    assert_eq!(value_for("-n", None), usage("-n requires a value"));
}

#[test]
fn verbs_are_dispatched() {
    let run = |items: &[&str]| parse_and_dispatch(&args(items), any_name);
    assert_eq!(run(&["-h"]), Dispatch::Run(Command::Help));
    assert_eq!(run(&["--help", "x"]), Dispatch::Run(Command::Help));
    assert_eq!(run(&["-V"]), Dispatch::Run(Command::Version));
    assert_eq!(run(&["--version"]), Dispatch::Run(Command::Version));
    assert_eq!(
        run(&["attach", "-n", "a", "-r", "b"]),
        Dispatch::Run(Command::Attach { name: "a".to_string(), root: "b".to_string() })
    );
    assert_eq!(run(&["attach", "-h"]), Dispatch::Run(Command::Help));
    assert_eq!(run(&["detach", "-n", "a"]), Dispatch::Run(Command::Detach { name: "a".to_string() }));
    assert_eq!(
        run(&["import", "-i", "a", "-o", "b", "-t", "c"]),
        Dispatch::Run(Command::Import(ImportArgs {
            image: "a".to_string(),
            out: "b".to_string(),
            tag: "c".to_string(),
        }))
    );
    assert_eq!(
        run(&["import"]),
        Dispatch::Fail(CarapaceError::Usage("import: --image is required".to_string()))
    );
}

#[test]
fn wrong_verbs_fail() {
    let run = |items: &[&str]| parse_and_dispatch(&args(items), any_name);
    assert_eq!(run(&[]), Dispatch::MissingVerb(CarapaceError::Usage("missing verb".to_string())));
    assert_eq!(
        run(&["mount\n"]),
        Dispatch::Fail(CarapaceError::Usage(
            "unknown verb \"mount\\n\" (expected `attach`, `detach`, `--help`, or `--version`)".to_string()
        ))
    );
}

#[test]
fn only_a_rejected_chain_exits_with_two() {
    let io = IoError { kind: IoErrorKind::Other, text: "x".to_string() };
    assert_eq!(exit_code(None), 0);
    assert_eq!(exit_code(Some(&CarapaceError::Rejected("x".to_string()))), 2);
    assert_eq!(exit_code(Some(&CarapaceError::Usage("x".to_string()))), 1);
    assert_eq!(exit_code(Some(&CarapaceError::PartitionNotFound { detail: "x".to_string() })), 1);
    assert_eq!(exit_code(Some(&CarapaceError::Dm(DmError::Usage("x".to_string())))), 1);
    assert_eq!(exit_code(Some(&CarapaceError::Io(io))), 1);
}

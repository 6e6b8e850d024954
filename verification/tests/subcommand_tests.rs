use cargo_stitch::error::{
    AstGrepFailed, CargoFailed, Error, IoError, MissingEnvVar, MissingTool, PatchFailed,
};
use cargo_stitch::subcommand::{
    build_result, cargo_args, resolve_workspace_root, run_subcommand, stitches_dir, Launch,
};
use cargo_stitch::{check_required_tools, run, Mode, WRAPPER_ENV};

fn strings(items: &[&str]) -> Vec<String> {
    items.iter().map(|s| s.to_string()).collect()
}

#[test]
fn the_subcommand_name_is_not_forwarded() {
    assert_eq!(
        cargo_args(&strings(&["cargo-stitch", "stitch", "build", "--release"])),
        strings(&["build", "--release"])
    );
    assert_eq!(
        cargo_args(&strings(&["cargo-stitch", "build", "--release"])),
        strings(&["build", "--release"])
    );
    assert_eq!(cargo_args(&strings(&["cargo-stitch"])), Vec::<String>::new());
    assert_eq!(cargo_args(&strings(&["cargo-stitch", "stitch"])), Vec::<String>::new());
    assert_eq!(
        cargo_args(&strings(&["cargo-stitch", "stitch", "stitch"])),
        strings(&["stitch"])
    );
    assert_eq!(
        cargo_args(&strings(&["cargo-stitch", "build", "stitch"])),
        strings(&["build", "stitch"])
    );
}

#[test]
fn modifications_live_in_the_stitches_directory() {
    assert_eq!(stitches_dir("/ws"), "/ws/stitches");
    assert_eq!(stitches_dir("/"), "/stitches");
}

#[test]
fn the_build_tool_inherits_the_coordination_state() {
    let launch = run_subcommand(
        &strings(&["cargo-stitch", "stitch", "build"]),
        "/usr/local/bin/cargo-stitch",
        "/ws",
        "{\"crate-a\":{\"stitches\":[]}}",
    );
    assert_eq!(
        launch,
        Launch {
            program: "cargo".to_string(),
            args: strings(&["build"]),
            env: vec![
                ("RUSTC_WORKSPACE_WRAPPER".to_string(), "/usr/local/bin/cargo-stitch".to_string()),
                ("__CARGO_STITCH_WRAP".to_string(), "1".to_string()),
                ("__CARGO_STITCH_WORKSPACE_ROOT".to_string(), "/ws".to_string()),
                (
                    "__CARGO_STITCH_MANIFEST".to_string(),
                    "{\"crate-a\":{\"stitches\":[]}}".to_string()
                ),
            ],
        }
    );
    assert_eq!(WRAPPER_ENV, "__CARGO_STITCH_WRAP");
}

#[test]
fn the_build_tool_s_status_is_the_result() {
    assert_eq!(build_result(true, Some(0)), Ok(()));
    assert_eq!(build_result(true, None), Ok(()));
    assert_eq!(build_result(false, Some(101)), Err(CargoFailed(101)));
    assert_eq!(build_result(false, Some(2)), Err(CargoFailed(2)));
    assert_eq!(build_result(false, None), Err(CargoFailed(1)));
}

#[test]
fn engines_are_checked_before_the_mode_is_chosen() {
    assert_eq!(check_required_tools(true, true), Ok(()));
    assert_eq!(check_required_tools(false, true), Err(MissingTool("patch")));
    assert_eq!(check_required_tools(true, false), Err(MissingTool("sg (ast-grep)")));
    assert_eq!(check_required_tools(false, false), Err(MissingTool("patch")));
    assert_eq!(run(true, true, false), Ok(Mode::Orchestrate));
    assert_eq!(run(true, true, true), Ok(Mode::Wrap));
    assert_eq!(run(false, true, true), Err(Error::MissingTool(MissingTool("patch"))));
    assert_eq!(run(true, false, false), Err(Error::MissingTool(MissingTool("sg (ast-grep)"))));
}

#[test]
fn every_failure_has_its_message() {
    assert_eq!(IoError("permission denied".to_string()).message(), "permission denied");
    assert_eq!(
        PatchFailed("/ws/stitches/a/001-fix.patch".to_string()).message(),
        "failed to apply patch: /ws/stitches/a/001-fix.patch"
    );
    assert_eq!(
        AstGrepFailed("/ws/stitches/a/002-r.yaml".to_string()).message(),
        "failed to apply ast-grep rule: /ws/stitches/a/002-r.yaml"
    );
    assert_eq!(CargoFailed(101).message(), "cargo exited with status 101");
    assert_eq!(CargoFailed(-1).message(), "cargo exited with status -1");
    assert_eq!(CargoFailed(i32::MIN).message(), "cargo exited with status -2147483648");
    assert_eq!(
        MissingEnvVar("CARGO_MANIFEST_DIR").message(),
        "missing environment variable: CARGO_MANIFEST_DIR"
    );
    assert_eq!(
        MissingTool("sg (ast-grep)").message(),
        "required tool not found: sg (ast-grep) (is it installed and in PATH?)"
    );
    assert_eq!(
        Error::Patch(PatchFailed("p.patch".to_string())).message(),
        "failed to apply patch: p.patch"
    );
    assert_eq!(Error::Cargo(CargoFailed(3)).message(), "cargo exited with status 3");
    assert_eq!(Error::Io(IoError("x".to_string())).message(), "x");
    assert_eq!(Error::AstGrep(AstGrepFailed("r.yml".to_string())).message(), "failed to apply ast-grep rule: r.yml");
    assert_eq!(Error::MissingEnvVar(MissingEnvVar("X")).message(), "missing environment variable: X");
    assert_eq!(
        Error::MissingTool(MissingTool("patch")).message(),
        "required tool not found: patch (is it installed and in PATH?)"
    );
}

#[test]
fn no_failure_exits_with_zero() {
    assert_eq!(Error::Cargo(CargoFailed(101)).exit_code(), 101);
    assert_eq!(Error::Cargo(CargoFailed(-7)).exit_code(), -7);
    assert_eq!(Error::Cargo(CargoFailed(0)).exit_code(), 1);
    assert_eq!(Error::Io(IoError("x".to_string())).exit_code(), 1);
    assert_eq!(Error::Patch(PatchFailed("p".to_string())).exit_code(), 1);
    assert_eq!(Error::AstGrep(AstGrepFailed("r".to_string())).exit_code(), 1);
    assert_eq!(Error::MissingEnvVar(MissingEnvVar("X")).exit_code(), 1);
    assert_eq!(Error::MissingTool(MissingTool("sg")).exit_code(), 1);
}

#[test]
fn an_orchestrator_outside_any_project_fails_before_the_launch() {
    assert_eq!(resolve_workspace_root("/ws/crate-a", true, &vec![true, false]), Ok("/ws".to_string()));
    assert_eq!(
        resolve_workspace_root("/ws/crate-a/src", false, &vec![true, true, false]),
        Ok("/ws".to_string())
    );
    let failed = resolve_workspace_root("/tmp/scratch", false, &vec![false, false]);
    assert_eq!(
        failed,
        Err(Error::Io(IoError("could not find a workspace root for /tmp/scratch".to_string())))
    );
    assert_eq!(failed.unwrap_err().exit_code(), 1);
}

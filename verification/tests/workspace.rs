use bmk::workspace::{SandboxImage, Workspace, WorkspaceBuilder, DEFAULT_COMMAND_TIMEOUT_MS};

fn built(path: &str) -> Workspace {
    WorkspaceBuilder::new(path).build()
}

#[test]
fn default_sandbox_image_is_used_without_override() {
    let ws = built("/tmp/ws");
    assert_eq!(ws.sandbox_image().name(), "rustops/crates-build-env");
}

#[test]
fn sandbox_image_override_wins() {
    let ws = WorkspaceBuilder::new("/tmp/ws")
        .sandbox_image(SandboxImage::remote("example/custom-env"))
        .build();
    assert_eq!(ws.sandbox_image().name(), "example/custom-env");
}

#[test]
fn command_timeout_defaults_to_fifteen_minutes() {
    let ws = built("/tmp/ws");
    assert_eq!(ws.default_command_timeout(), Some(15 * 60 * 1000));
    assert_eq!(DEFAULT_COMMAND_TIMEOUT_MS, 15 * 60 * 1000);
}

#[test]
fn no_output_timeout_defaults_to_disabled() {
    let ws = built("/tmp/ws");
    assert_eq!(ws.default_command_no_output_timeout(), None);
}

#[test]
fn timeouts_can_be_set_and_disabled() {
    let ws = WorkspaceBuilder::new("/tmp/ws")
        .command_timeout(None)
        .command_no_output_timeout(Some(30_000))
        .build();
    assert_eq!(ws.default_command_timeout(), None);
    assert_eq!(ws.default_command_no_output_timeout(), Some(30_000));
}

#[test]
fn tool_homes_live_under_the_local_area() {
    let ws = built("/srv/work");
    assert_eq!(ws.cargo_home(), "/srv/work/local/cargo-home");
    assert_eq!(ws.rustup_home(), "/srv/work/local/rustup-home");
}

#[test]
fn builder_keeps_its_path() {
    let builder = WorkspaceBuilder::new("/srv/work");
    assert_eq!(builder.path(), "/srv/work");
}

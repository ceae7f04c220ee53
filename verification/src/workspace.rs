//! The configuration provider: a workspace home directory, a sandbox
//! image, and default command timeouts.
//!
//! A `WorkspaceBuilder` collects the settings and resolves them into an
//! immutable `Workspace`. Paths are plain strings and durations are
//! milliseconds, so every derived value is stated exactly. Creating the
//! workspace directory on disk is I/O and stays with the caller.

use vstd::prelude::*;
use vstd::string::StringExecFns;

verus! {

/// The default timeout of a command, in milliseconds: fifteen minutes.
pub const DEFAULT_COMMAND_TIMEOUT_MS: u64 = 15 * 60 * 1000;

/// The name of the sandbox image used when no override is given.
pub open spec fn default_sandbox_image_name() -> Seq<char> {
    "rustops/crates-build-env"@
}

/// A reference to a container image for sandboxed commands, viewed as
/// its name.
pub struct SandboxImage {
    name: String,
}

impl View for SandboxImage {
    type V = Seq<char>;

    closed spec fn view(&self) -> Seq<char> {
        self.name@
    }
}

impl SandboxImage {
    /// An image fetched from a remote registry, by name.
    pub fn remote(name: &str) -> (img: SandboxImage)
        ensures
            img@ == name@,
    {
        SandboxImage { name: name.to_owned() }
    }

    /// The image's name.
    pub fn name(&self) -> (r: &str)
        ensures
            r@ == self@,
    {
        self.name.as_str()
    }
}

/// The mathematical view of a builder: the settings collected so far.
pub ghost struct BuilderView {
    /// The view of the workspace home path.
    pub path: Seq<char>,
    /// The sandbox image override, when one was given.
    pub sandbox_image: Option<Seq<char>>,
    /// The default command timeout in milliseconds, `None` meaning
    /// disabled.
    pub command_timeout_ms: Option<u64>,
    /// The default no-output timeout in milliseconds, `None` meaning
    /// disabled.
    pub command_no_output_timeout_ms: Option<u64>,
}

/// The mathematical view of a resolved workspace configuration.
pub ghost struct WorkspaceView {
    /// The view of the workspace home path.
    pub path: Seq<char>,
    /// The name of the resolved sandbox image.
    pub sandbox_image: Seq<char>,
    /// The default command timeout in milliseconds, `None` meaning
    /// disabled.
    pub command_timeout_ms: Option<u64>,
    /// The default no-output timeout in milliseconds, `None` meaning
    /// disabled.
    pub command_no_output_timeout_ms: Option<u64>,
}

/// Builder of a `Workspace`.
pub struct WorkspaceBuilder {
    path: String,
    sandbox_image: Option<SandboxImage>,
    command_timeout: Option<u64>,
    command_no_output_timeout: Option<u64>,
}

impl View for WorkspaceBuilder {
    type V = BuilderView;

    closed spec fn view(&self) -> BuilderView {
        BuilderView {
            path: self.path@,
            sandbox_image: match self.sandbox_image {
                Some(img) => Some(img@),
                None => None,
            },
            command_timeout_ms: self.command_timeout,
            command_no_output_timeout_ms: self.command_no_output_timeout,
        }
    }
}

impl WorkspaceBuilder {
    /// Create a new builder. The provided path will be the home of the
    /// workspace, containing all the data the workflow generates. The
    /// command timeout starts at its default and the no-output timeout
    /// starts disabled.
    pub fn new(path: &str) -> (b: WorkspaceBuilder)
        ensures
            b@ == (BuilderView {
                path: path@,
                sandbox_image: None::<Seq<char>>,
                command_timeout_ms: Some(DEFAULT_COMMAND_TIMEOUT_MS),
                command_no_output_timeout_ms: None::<u64>,
            }),
    {
        WorkspaceBuilder {
            path: path.to_owned(),
            sandbox_image: None,
            command_timeout: Some(DEFAULT_COMMAND_TIMEOUT_MS),
            command_no_output_timeout: None,
        }
    }

    /// Override the image used for sandboxes. An override always wins
    /// over the default image.
    pub fn sandbox_image(self, image: SandboxImage) -> (b: WorkspaceBuilder)
        ensures
            b@ == (BuilderView { sandbox_image: Some(image@), ..self@ }),
    {
        WorkspaceBuilder { sandbox_image: Some(image), ..self }
    }

    /// Set the default timeout of a command, in milliseconds. `None`
    /// disables the timeout.
    pub fn command_timeout(self, timeout_ms: Option<u64>) -> (b: WorkspaceBuilder)
        ensures
            b@ == (BuilderView { command_timeout_ms: timeout_ms, ..self@ }),
    {
        WorkspaceBuilder { command_timeout: timeout_ms, ..self }
    }

    /// Set the default no-output timeout of a command, in milliseconds.
    /// `None` disables the timeout.
    pub fn command_no_output_timeout(self, timeout_ms: Option<u64>) -> (b: WorkspaceBuilder)
        ensures
            b@ == (BuilderView { command_no_output_timeout_ms: timeout_ms, ..self@ }),
    {
        WorkspaceBuilder { command_no_output_timeout: timeout_ms, ..self }
    }

    /// The workspace home path this builder was given.
    pub fn path(&self) -> (r: &str)
        ensures
            r@ == self@.path,
    {
        self.path.as_str()
    }

    /// Resolve the settings into a workspace: the explicit sandbox image
    /// override if one was given, else the default image; the timeouts
    /// as set. Creating the home directory on disk is the caller's
    /// business and must happen before the workspace is used.
    pub fn build(self) -> (w: Workspace)
        ensures
            w@.path == self@.path,
            w@.sandbox_image == (match self@.sandbox_image {
                Some(name) => name,
                None => default_sandbox_image_name(),
            }),
            w@.command_timeout_ms == self@.command_timeout_ms,
            w@.command_no_output_timeout_ms == self@.command_no_output_timeout_ms,
    {
        let WorkspaceBuilder { path, sandbox_image, command_timeout, command_no_output_timeout } =
            self;
        let image = match sandbox_image {
            Some(img) => img,
            None => SandboxImage::remote("rustops/crates-build-env"),
        };
        Workspace {
            path,
            sandbox_image: image,
            command_timeout,
            command_no_output_timeout,
        }
    }
}

/// A resolved workspace configuration: the home directory, the sandbox
/// image, and the default timeouts, all immutable once built.
pub struct Workspace {
    path: String,
    sandbox_image: SandboxImage,
    command_timeout: Option<u64>,
    command_no_output_timeout: Option<u64>,
}

impl View for Workspace {
    type V = WorkspaceView;

    closed spec fn view(&self) -> WorkspaceView {
        WorkspaceView {
            path: self.path@,
            sandbox_image: self.sandbox_image@,
            command_timeout_ms: self.command_timeout,
            command_no_output_timeout_ms: self.command_no_output_timeout,
        }
    }
}

impl Workspace {
    /// The primary tool home, a subdirectory of the local area under the
    /// workspace home.
    pub fn cargo_home(&self) -> (p: String)
        ensures
            p@ == self@.path + "/local/cargo-home"@,
    {
        self.path.clone().concat("/local/cargo-home")
    }

    /// The secondary tool home, a subdirectory of the local area under
    /// the workspace home.
    pub fn rustup_home(&self) -> (p: String)
        ensures
            p@ == self@.path + "/local/rustup-home"@,
    {
        self.path.clone().concat("/local/rustup-home")
    }

    /// The sandbox image commands run in.
    pub fn sandbox_image(&self) -> (img: &SandboxImage)
        ensures
            img@ == self@.sandbox_image,
    {
        &self.sandbox_image
    }

    /// The default timeout of a command in milliseconds, `None` when
    /// disabled.
    pub fn default_command_timeout(&self) -> (t: Option<u64>)
        ensures
            t == self@.command_timeout_ms,
    {
        self.command_timeout
    }

    /// The default no-output timeout of a command in milliseconds,
    /// `None` when disabled.
    pub fn default_command_no_output_timeout(&self) -> (t: Option<u64>)
        ensures
            t == self@.command_no_output_timeout_ms,
    {
        self.command_no_output_timeout
    }
}

} // verus!

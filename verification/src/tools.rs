//! The build tools: their arguments, what they ask of a build, and what they answer.

use vstd::prelude::*;
use vstd::string::StringExecFns;

use crate::text::{debug_of, debug_text, is_blank, lemma_trimmed_text, text_eq};

verus! {

// --- arguments -----------------------------------------------------------------------------

/// Arguments shared by the build-style tools.
#[derive(Debug)]
pub struct BuildArgs {
    /// The cargo command to run (build, test, check, clippy, run, …). Only honoured by the
    /// generic `build` tool; the `check`/`test`/`clippy` tools always run their own command.
    pub command: Option<String>,
    /// Name of a configured remote to use.
    pub remote: Option<String>,
    /// Explicit ssh host as user@host (ssh-config aliases are not resolved), overriding config.
    pub remote_host: Option<String>,
    /// SSH username (when not embedded in `remote_host` as user@host).
    pub user: Option<String>,
    /// SSH host-key check: `accept-new` (default), `strict`, or `accept-all` (insecure).
    pub host_key_check: Option<String>,
    /// ssh port override.
    pub port: Option<u16>,
    /// Remote build directory base (overrides config).
    pub temp_dir: Option<String>,
    /// Shell profile to `source` on the remote (overrides config).
    pub env: Option<String>,
    /// Shell command to run on the remote before the build (overrides config).
    pub setup: Option<String>,
    /// Extra paths to sync to the remote (overrides config).
    pub extra_paths: Option<Vec<ExtraPathArg>>,
    /// Path to the Cargo.toml to build. Defaults to `Cargo.toml`.
    pub manifest_path: Option<String>,
    /// Build only this package (`cargo -p <name>`).
    pub package: Option<String>,
    /// Build the whole workspace (`cargo --workspace`).
    pub workspace: Option<bool>,
    /// Build in release mode (adds `--release`).
    pub release: Option<bool>,
    /// Extra cargo arguments/flags.
    pub options: Option<Vec<String>>,
    /// Rustup toolchain (stable|beta|nightly|…). Defaults to `stable`.
    pub toolchain: Option<String>,
    /// Copy artifacts back: a path within `target/`, or `target`/empty for the whole dir.
    pub copy_back: Option<String>,
    /// Also copy the resolved Cargo.lock back to the client. Defaults to false.
    pub copy_lock: Option<bool>,
}

/// An extra path to sync to the remote, as a tool argument.
#[derive(Debug)]
pub struct ExtraPathArg {
    /// Local file or directory (absolute, or relative to the server's working directory).
    pub local: String,
    /// Destination on the remote (relative to the login home dir, or absolute).
    pub remote: String,
}

/// What the validation of an argument's value had against it, where it refused the value. Of an
/// argument that is absent nothing is asked.
#[derive(Debug)]
pub struct Refusals {
    pub command: Option<String>,
    pub toolchain: Option<String>,
    pub remote: Option<String>,
    pub remote_host: Option<String>,
    pub port: Option<String>,
    pub temp_dir: Option<String>,
    pub env: Option<String>,
    /// The value of `host_key_check` is none of the known modes.
    pub host_key_check: bool,
}

impl Refusals {
    /// Every value passes.
    pub fn none() -> (r: Refusals)
        ensures
            r == (Refusals {
                command: None,
                toolchain: None,
                remote: None,
                remote_host: None,
                port: None,
                temp_dir: None,
                env: None,
                host_key_check: false,
            }),
    {
        Refusals {
            command: None,
            toolchain: None,
            remote: None,
            remote_host: None,
            port: None,
            temp_dir: None,
            env: None,
            host_key_check: false,
        }
    }
}

/// The build-style tools.
#[derive(Debug, Clone, Copy, PartialEq, Eq)]
pub enum Tool {
    /// Runs any cargo command.
    Build,
    Check,
    Test,
    Clippy,
}

/// The cargo command that a tool runs. Only the build tool honours the argument.
pub open spec fn tool_command(tool: Tool, command: Option<String>) -> Seq<char> {
    match tool {
        Tool::Build => text_or(command, "build"@),
        Tool::Check => "check"@,
        Tool::Test => "test"@,
        Tool::Clippy => "clippy"@,
    }
}

impl Tool {
    pub fn command(self, args: &BuildArgs) -> (command: String)
        ensures
            command@ == tool_command(self, args.command),
    {
        match self {
            Tool::Build => match &args.command {
                Some(command) => command.clone(),
                None => "build".to_owned(),
            },
            Tool::Check => "check".to_owned(),
            Tool::Test => "test".to_owned(),
            Tool::Clippy => "clippy".to_owned(),
        }
    }
}

// --- what a build is asked to do -----------------------------------------------------------

/// Which packages to build.
#[derive(Debug, PartialEq, Eq)]
pub enum TargetSelection {
    Default,
    Package(String),
    Workspace,
}

/// What to copy back from the remote `target/`.
#[derive(Debug, PartialEq, Eq)]
pub enum CopyBack {
    Nothing,
    Target,
    Path(String),
}

/// Where the build's output goes.
#[derive(Debug, Clone, Copy, PartialEq, Eq)]
pub enum OutputMode {
    /// Captured, and returned to the caller.
    Capture,
}

#[derive(Debug)]
pub struct BuildRequest {
    pub manifest_path: String,
    pub selection: TargetSelection,
    pub command: String,
    pub options: Vec<String>,
    pub build_env: String,
    pub toolchain: String,
    pub copy_back: CopyBack,
    pub copy_lock: bool,
    pub transfer_hidden: bool,
    pub output: OutputMode,
}

/// An extra path to sync to the remote.
#[derive(Debug, PartialEq, Eq)]
pub struct ExtraPath {
    pub local: String,
    pub remote: String,
}

/// What replaces the values of the configuration.
#[derive(Debug)]
pub struct RemoteOverrides {
    pub host: Option<String>,
    pub user: Option<String>,
    pub port: Option<u16>,
    pub temp_dir: Option<String>,
    pub env: Option<String>,
    pub host_key_check: Option<String>,
    pub setup: Option<String>,
    pub extra_paths: Option<Vec<ExtraPath>>,
}

/// Which remote to build on.
#[derive(Debug)]
pub struct RemoteSelector {
    pub name: Option<String>,
    pub overrides: RemoteOverrides,
}

pub enum SelectionModel {
    Default,
    Package(Seq<char>),
    Workspace,
}

pub enum CopyBackModel {
    Nothing,
    Target,
    Path(Seq<char>),
}

/// What a [`BuildRequest`] says.
pub struct BuildRequestModel {
    pub manifest_path: Seq<char>,
    pub selection: SelectionModel,
    pub command: Seq<char>,
    pub options: Seq<Seq<char>>,
    pub build_env: Seq<char>,
    pub toolchain: Seq<char>,
    pub copy_back: CopyBackModel,
    pub copy_lock: bool,
    pub transfer_hidden: bool,
    pub output: OutputMode,
}

/// What an [`ExtraPath`] or an [`ExtraPathArg`] says.
pub struct ExtraModel {
    pub local: Seq<char>,
    pub remote: Seq<char>,
}

/// What a [`RemoteSelector`] says.
pub struct SelectorModel {
    pub name: Option<Seq<char>>,
    pub host: Option<Seq<char>>,
    pub user: Option<Seq<char>>,
    pub port: Option<u16>,
    pub temp_dir: Option<Seq<char>>,
    pub env: Option<Seq<char>>,
    pub host_key_check: Option<Seq<char>>,
    pub setup: Option<Seq<char>>,
    pub extra_paths: Option<Seq<ExtraModel>>,
}

impl DeepView for TargetSelection {
    type V = SelectionModel;

    open spec fn deep_view(&self) -> SelectionModel {
        match self {
            TargetSelection::Default => SelectionModel::Default,
            TargetSelection::Package(name) => SelectionModel::Package(name@),
            TargetSelection::Workspace => SelectionModel::Workspace,
        }
    }
}

impl DeepView for CopyBack {
    type V = CopyBackModel;

    open spec fn deep_view(&self) -> CopyBackModel {
        match self {
            CopyBack::Nothing => CopyBackModel::Nothing,
            CopyBack::Target => CopyBackModel::Target,
            CopyBack::Path(path) => CopyBackModel::Path(path@),
        }
    }
}

impl DeepView for BuildRequest {
    type V = BuildRequestModel;

    open spec fn deep_view(&self) -> BuildRequestModel {
        BuildRequestModel {
            manifest_path: self.manifest_path@,
            selection: self.selection.deep_view(),
            command: self.command@,
            options: self.options.deep_view(),
            build_env: self.build_env@,
            toolchain: self.toolchain@,
            copy_back: self.copy_back.deep_view(),
            copy_lock: self.copy_lock,
            transfer_hidden: self.transfer_hidden,
            output: self.output,
        }
    }
}

impl DeepView for ExtraPath {
    type V = ExtraModel;

    open spec fn deep_view(&self) -> ExtraModel {
        ExtraModel { local: self.local@, remote: self.remote@ }
    }
}

impl DeepView for ExtraPathArg {
    type V = ExtraModel;

    open spec fn deep_view(&self) -> ExtraModel {
        ExtraModel { local: self.local@, remote: self.remote@ }
    }
}

impl DeepView for RemoteSelector {
    type V = SelectorModel;

    open spec fn deep_view(&self) -> SelectorModel {
        SelectorModel {
            name: self.name.deep_view(),
            host: self.overrides.host.deep_view(),
            user: self.overrides.user.deep_view(),
            port: self.overrides.port,
            temp_dir: self.overrides.temp_dir.deep_view(),
            env: self.overrides.env.deep_view(),
            host_key_check: self.overrides.host_key_check.deep_view(),
            setup: self.overrides.setup.deep_view(),
            extra_paths: self.overrides.extra_paths.deep_view(),
        }
    }
}

/// The text of an optional argument, or its default.
pub open spec fn text_or(arg: Option<String>, default: Seq<char>) -> Seq<char> {
    match arg {
        Some(text) => text@,
        None => default,
    }
}

fn take_or(arg: Option<String>, default: &str) -> (text: String)
    ensures
        text@ == text_or(arg, default@),
{
    match arg {
        Some(text) => text,
        None => default.to_owned(),
    }
}

/// A flag that was set.
pub open spec fn is_on(flag: Option<bool>) -> bool {
    flag == Some(true)
}

fn flag_is_on(flag: Option<bool>) -> (on: bool)
    ensures
        on == is_on(flag),
{
    match flag {
        Some(on) => on,
        None => false,
    }
}

/// What is built: the whole workspace where that was asked for, else the package that was named.
pub open spec fn selection_of(args: BuildArgs) -> SelectionModel {
    if is_on(args.workspace) {
        SelectionModel::Workspace
    } else {
        match args.package {
            Some(package) => SelectionModel::Package(package@),
            None => SelectionModel::Default,
        }
    }
}

/// The cargo options: those that were given, behind `--release` in release mode.
pub open spec fn options_of(args: BuildArgs) -> Seq<Seq<char>> {
    let given = match args.options {
        Some(options) => options.deep_view(),
        None => Seq::empty(),
    };
    if is_on(args.release) {
        seq!["--release"@] + given
    } else {
        given
    }
}

/// What is copied back: nothing unless asked for, all of `target/` for an empty path or
/// `target`, else the path.
pub open spec fn copy_back_of(args: BuildArgs) -> CopyBackModel {
    match args.copy_back {
        None => CopyBackModel::Nothing,
        Some(path) => if path@.len() == 0 || path@ == "target"@ {
            CopyBackModel::Target
        } else {
            CopyBackModel::Path(path@)
        },
    }
}

/// The build that the arguments ask for, when the tool runs `command`.
pub open spec fn request_for(args: BuildArgs, command: Seq<char>) -> BuildRequestModel {
    BuildRequestModel {
        manifest_path: text_or(args.manifest_path, "Cargo.toml"@),
        selection: selection_of(args),
        command,
        options: options_of(args),
        build_env: "RUST_BACKTRACE=1"@,
        toolchain: text_or(args.toolchain, "stable"@),
        copy_back: copy_back_of(args),
        copy_lock: is_on(args.copy_lock),
        transfer_hidden: false,
        output: OutputMode::Capture,
    }
}

/// The remote that the arguments ask for.
pub open spec fn selector_for(args: BuildArgs) -> SelectorModel {
    SelectorModel {
        name: args.remote.deep_view(),
        host: args.remote_host.deep_view(),
        user: args.user.deep_view(),
        port: args.port,
        temp_dir: args.temp_dir.deep_view(),
        env: args.env.deep_view(),
        host_key_check: args.host_key_check.deep_view(),
        setup: args.setup.deep_view(),
        extra_paths: args.extra_paths.deep_view(),
    }
}

/// An extra path one of whose sides holds nothing but white space.
pub open spec fn is_incomplete(extra: ExtraModel) -> bool {
    is_blank(extra.local) || is_blank(extra.remote)
}

/// Some extra path is incomplete.
pub open spec fn has_incomplete(list: Seq<ExtraModel>) -> bool {
    exists|i: int| 0 <= i < list.len() && is_incomplete(#[trigger] list[i])
}

/// Extra paths were given, and one of them is incomplete.
pub open spec fn extras_refused(extras: Option<Seq<ExtraModel>>) -> bool {
    extras matches Some(list) && has_incomplete(list)
}

pub open spec fn extras_error() -> Seq<char> {
    "extra_paths entries require non-empty local and remote"@
}

pub open spec fn host_key_error(value: Seq<char>) -> Seq<char> {
    "invalid host_key_check "@ + debug_text(value)
        + "; expected accept-new, strict, or accept-all"@
}

/// What an argument's validation says: nothing of an argument that is absent.
pub open spec fn refusal_of<T>(arg: Option<T>, refusal: Option<String>) -> Option<Seq<char>> {
    if arg is Some {
        refusal.deep_view()
    } else {
        None
    }
}

/// `first`, or `second` where there is no `first`.
pub open spec fn first_of(
    first: Option<Seq<char>>,
    second: Option<Seq<char>>,
) -> Option<Seq<char>> {
    if first is Some {
        first
    } else {
        second
    }
}

/// What is wrong with the host-key check.
pub open spec fn host_key_refusal(args: BuildArgs, refusals: Refusals) -> Option<Seq<char>> {
    match args.host_key_check {
        Some(value) => if refusals.host_key_check {
            Some(host_key_error(value@))
        } else {
            None
        },
        None => None,
    }
}

/// The first thing that is wrong with the arguments, in the order in which they are looked at.
pub open spec fn first_refusal(args: BuildArgs, refusals: Refusals) -> Option<Seq<char>> {
    let extras = if extras_refused(args.extra_paths.deep_view()) {
        Some(extras_error())
    } else {
        None
    };
    let host_key = first_of(host_key_refusal(args, refusals), extras);
    let env = first_of(refusal_of(args.env, refusals.env), host_key);
    let temp_dir = first_of(refusal_of(args.temp_dir, refusals.temp_dir), env);
    let port = first_of(refusal_of(args.port, refusals.port), temp_dir);
    let host = first_of(refusal_of(args.remote_host, refusals.remote_host), port);
    let name = first_of(refusal_of(args.remote, refusals.remote), host);
    let toolchain = first_of(refusals.toolchain.deep_view(), name);
    first_of(refusals.command.deep_view(), toolchain)
}

/// Takes over the extra paths, unless one of them is incomplete.
pub fn map_extras(extras: Option<Vec<ExtraPathArg>>) -> (res: Result<
    Option<Vec<ExtraPath>>,
    String,
>)
    ensures
        res is Err <==> extras_refused(extras.deep_view()),
        res matches Err(e) ==> e@ == extras_error(),
        res matches Ok(list) ==> list.deep_view() == extras.deep_view(),
{
    let list = match extras {
        Some(list) => list,
        None => {
            return Ok(None);
        },
    };
    let ghost all = list.deep_view();
    let mut out: Vec<ExtraPath> = Vec::new();
    let mut i: usize = 0;
    while i < list.len()
        invariant
            i <= list@.len(),
            all == list.deep_view(),
            extras.deep_view() == Some(all),
            out.deep_view() == all.take(i as int),
            forall|k: int| 0 <= k < i ==> !is_incomplete(#[trigger] all[k]),
        decreases list@.len() - i,
    {
        let extra = &list[i];
        assert(all[i as int] == extra.deep_view());
        proof {
            lemma_trimmed_text(extra.local@);
            lemma_trimmed_text(extra.remote@);
        }
        if extra.local.as_str().trim().is_empty() || extra.remote.as_str().trim().is_empty() {
            assert(has_incomplete(all));
            return Err("extra_paths entries require non-empty local and remote".to_owned());
        }
        let ghost before = out.deep_view();
        out.push(ExtraPath { local: extra.local.clone(), remote: extra.remote.clone() });
        assert(out.deep_view() =~= before.push(extra.deep_view()));
        assert(all.take(i + 1) =~= before.push(extra.deep_view()));
        i += 1;
    }
    assert(all.take(i as int) =~= all);
    Ok(Some(out))
}

impl BuildArgs {
    /// The toolchain that the arguments ask for.
    pub fn toolchain_or_default(&self) -> (toolchain: String)
        ensures
            toolchain@ == text_or(self.toolchain, "stable"@),
    {
        match &self.toolchain {
            Some(toolchain) => toolchain.clone(),
            None => "stable".to_owned(),
        }
    }

    /// What the arguments ask for when the tool runs `command`, or the first thing that is wrong
    /// with them. `refusals` says what the validation of the single values found.
    pub fn into_domain(self, command: &str, refusals: Refusals) -> (res: Result<
        (BuildRequest, RemoteSelector),
        String,
    >)
        ensures
            res is Err <==> first_refusal(self, refusals) is Some,
            res matches Err(e) ==> first_refusal(self, refusals) == Some(e@),
            res matches Ok(asked) ==> asked.0.deep_view() == request_for(self, command@)
                && asked.1.deep_view() == selector_for(self),
    {
        let selection = if flag_is_on(self.workspace) {
            TargetSelection::Workspace
        } else {
            match self.package {
                Some(package) => TargetSelection::Package(package),
                None => TargetSelection::Default,
            }
        };

        let mut options: Vec<String> = match self.options {
            Some(options) => options,
            None => Vec::new(),
        };
        let ghost given = options.deep_view();
        if flag_is_on(self.release) {
            options.insert(0, "--release".to_owned());
            assert(options.deep_view() =~= seq!["--release"@] + given);
        }
        assert(options.deep_view() =~= options_of(self));

        let copy_back = match self.copy_back {
            None => CopyBack::Nothing,
            Some(path) => {
                if path.as_str().is_empty() || text_eq(path.as_str(), "target") {
                    CopyBack::Target
                } else {
                    CopyBack::Path(path)
                }
            },
        };

        if let Some(e) = refusals.command {
            return Err(e);
        }
        if let Some(e) = refusals.toolchain {
            return Err(e);
        }
        let request = BuildRequest {
            manifest_path: take_or(self.manifest_path, "Cargo.toml"),
            selection,
            command: command.to_owned(),
            options,
            build_env: "RUST_BACKTRACE=1".to_owned(),
            toolchain: take_or(self.toolchain, "stable"),
            copy_back,
            copy_lock: flag_is_on(self.copy_lock),
            transfer_hidden: false,
            output: OutputMode::Capture,
        };

        if let (Some(_), Some(e)) = (&self.remote, refusals.remote) {
            return Err(e);
        }
        if let (Some(_), Some(e)) = (&self.remote_host, refusals.remote_host) {
            return Err(e);
        }
        if let (Some(_), Some(e)) = (&self.port, refusals.port) {
            return Err(e);
        }
        if let (Some(_), Some(e)) = (&self.temp_dir, refusals.temp_dir) {
            return Err(e);
        }
        if let (Some(_), Some(e)) = (&self.env, refusals.env) {
            return Err(e);
        }
        if let Some(value) = &self.host_key_check {
            if refusals.host_key_check {
                let mut message = "invalid host_key_check ".to_owned();
                message.append(debug_of(value.as_str()).as_str());
                message.append("; expected accept-new, strict, or accept-all");
                return Err(message);
            }
        }
        let extra_paths = match map_extras(self.extra_paths) {
            Ok(extra_paths) => extra_paths,
            Err(e) => {
                return Err(e);
            },
        };

        let selector = RemoteSelector {
            name: self.remote,
            overrides: RemoteOverrides {
                host: self.remote_host,
                user: self.user,
                port: self.port,
                temp_dir: self.temp_dir,
                env: self.env,
                host_key_check: self.host_key_check,
                setup: self.setup,
                extra_paths,
            },
        };
        Ok((request, selector))
    }
}

} // verus!

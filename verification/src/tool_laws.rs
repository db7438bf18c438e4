//! What holds of the build tools' arguments.

use vstd::prelude::*;

use crate::text::{debug_text, lemma_trimmed_text, trimmed_text};
use crate::tools::{
    extras_error, extras_refused, first_refusal, has_incomplete, is_incomplete, refusal_of,
    request_for, selector_for, text_or, tool_command, BuildArgs, CopyBackModel, ExtraModel,
    OutputMode, Refusals, SelectionModel, Tool,
};
use crate::view_laws::same_option;

verus! {

/// The specialised tools run their own command, whatever `command` says, and the argument has no
/// other effect on any tool.
pub proof fn law_specialised_tools_ignore_the_command(
    tool: Tool,
    args: BuildArgs,
    stray: Option<String>,
    refusals: Refusals,
    command: Seq<char>,
)
    ensures
        tool != Tool::Build ==> tool_command(tool, stray) == tool_command(tool, args.command),
        request_for((BuildArgs { command: stray, ..args }), command) == request_for(args, command),
        selector_for((BuildArgs { command: stray, ..args })) == selector_for(args),
        first_refusal((BuildArgs { command: stray, ..args }), refusals) == first_refusal(
            args,
            refusals,
        ),
{
}

/// The arguments pass exactly where every single one does.
pub proof fn law_arguments_pass_where_each_does(args: BuildArgs, refusals: Refusals)
    ensures
        first_refusal(args, refusals) is None <==> {
            &&& refusals.command is None
            &&& refusals.toolchain is None
            &&& refusal_of(args.remote, refusals.remote) is None
            &&& refusal_of(args.remote_host, refusals.remote_host) is None
            &&& refusal_of(args.port, refusals.port) is None
            &&& refusal_of(args.temp_dir, refusals.temp_dir) is None
            &&& refusal_of(args.env, refusals.env) is None
            &&& !(args.host_key_check is Some && refusals.host_key_check)
            &&& !extras_refused(args.extra_paths.deep_view())
        },
{
}

/// A tool's build never transfers hidden files, always has its output captured, and leaves
/// `Cargo.lock` alone unless asked to copy it.
pub proof fn law_builds_are_cautious(args: BuildArgs, command: Seq<char>)
    ensures
        !request_for(args, command).transfer_hidden,
        request_for(args, command).output == OutputMode::Capture,
        request_for(args, command).copy_lock ==> args.copy_lock == Some(true),
{
}

/// The options of the build end with the given ones, word for word and in order, whatever the
/// mode: without release mode there is nothing else, with it exactly `--release` stands in front.
pub proof fn law_given_options_are_kept(args: BuildArgs, command: Seq<char>)
    ensures
        ({
            let options = request_for(args, command).options;
            let front: int = if args.release == Some(true) {
                1
            } else {
                0
            };
            &&& front == 1 ==> options.len() > 0 && options[0] == "--release"@
            &&& match args.options {
                Some(given) => options.len() == front + given@.len() && forall|i: int|
                    0 <= i < given@.len() ==> #[trigger] options[front + i] == given@[i]@,
                None => options.len() == front,
            }
        }),
{
    if let Some(given) = args.options {
        let options = request_for(args, command).options;
        assert(given.deep_view().len() == given@.len());
        assert forall|i: int| 0 <= i < given@.len() implies given.deep_view()[i]
            == #[trigger] given@[i]@ by {}
        if args.release == Some(true) {
            assert forall|i: int| 0 <= i < given@.len() implies #[trigger] options[1 + i]
                == given@[i]@ by {
                assert(options[1 + i] == given.deep_view()[i]);
            }
        } else {
            assert forall|i: int| 0 <= i < given@.len() implies #[trigger] options[0 + i]
                == given@[i]@ by {
                assert(options[0 + i] == given.deep_view()[i]);
            }
        }
    }
}

/// What a build is asked for, field by field: the command that the tool runs, the manifest and
/// the toolchain that were given or else `Cargo.toml` and `stable`, backtraces on, the lock file
/// only where asked for, no hidden files, and the output captured.
pub proof fn law_request_fields(args: BuildArgs, command: Seq<char>)
    ensures
        ({
            let r = request_for(args, command);
            &&& r.command == command
            &&& args.manifest_path matches Some(path) ==> r.manifest_path == path@
            &&& args.manifest_path is None ==> r.manifest_path == "Cargo.toml"@
            &&& args.toolchain matches Some(toolchain) ==> r.toolchain == toolchain@
            &&& args.toolchain is None ==> r.toolchain == "stable"@
            &&& r.build_env == "RUST_BACKTRACE=1"@
            &&& r.copy_lock == (args.copy_lock == Some(true))
            &&& r.transfer_hidden == false
            &&& r.output == OutputMode::Capture
        }),
{
}

/// Which packages are built: all of the workspace where that is asked for, whatever package is
/// named; otherwise the package that is named, if one is.
pub proof fn law_selection(args: BuildArgs, command: Seq<char>)
    ensures
        ({
            let selection = request_for(args, command).selection;
            &&& args.workspace == Some(true) ==> selection is Workspace
            &&& args.workspace != Some(true) ==> match args.package {
                Some(package) => selection == SelectionModel::Package(package@),
                None => selection is Default,
            }
        }),
{
}

/// What is copied back: nothing where nothing is asked for, the whole target directory for an
/// empty path or `target`, and otherwise the very path.
pub proof fn law_copy_back(args: BuildArgs, command: Seq<char>)
    ensures
        ({
            let copied = request_for(args, command).copy_back;
            match args.copy_back {
                None => copied is Nothing,
                Some(path) => {
                    &&& path@.len() == 0 || path@ == "target"@ <==> copied is Target
                    &&& path@.len() > 0 && path@ != "target"@ ==> copied == CopyBackModel::Path(
                        path@,
                    )
                },
            }
        }),
{
}

/// Every argument on the remote is handed on as it is, present or absent.
pub proof fn law_overrides_are_handed_on(args: BuildArgs)
    ensures
        ({
            let s = selector_for(args);
            &&& same_option(s.name, args.remote)
            &&& same_option(s.host, args.remote_host)
            &&& same_option(s.user, args.user)
            &&& s.port == args.port
            &&& same_option(s.temp_dir, args.temp_dir)
            &&& same_option(s.env, args.env)
            &&& same_option(s.host_key_check, args.host_key_check)
            &&& same_option(s.setup, args.setup)
            &&& match (s.extra_paths, args.extra_paths) {
                (Some(m), Some(list)) => m.len() == list@.len() && forall|i: int|
                    0 <= i < m.len() ==> (#[trigger] m[i]).local == list@[i].local@ && m[i].remote
                        == list@[i].remote@,
                (None, None) => true,
                _ => false,
            }
        }),
{
}

/// Extra paths are refused exactly where they were given and one of them has nothing but white
/// space for its local or its remote side.
pub proof fn law_blank_extra_paths_are_refused(list: Seq<ExtraModel>)
    ensures
        !extras_refused(None),
        extras_refused(Some(list)) <==> exists|i: int|
            0 <= i < list.len() && (trimmed_text((#[trigger] list[i]).local).len() == 0
                || trimmed_text(list[i].remote).len() == 0),
        extras_error() == "extra_paths entries require non-empty local and remote"@,
{
    assert forall|i: int| 0 <= i < list.len() implies is_incomplete(#[trigger] list[i]) == (
    trimmed_text(list[i].local).len() == 0 || trimmed_text(list[i].remote).len() == 0) by {
        lemma_trimmed_text(list[i].local);
        lemma_trimmed_text(list[i].remote);
    }
    if has_incomplete(list) {
        let i = choose|i: int| 0 <= i < list.len() && is_incomplete(#[trigger] list[i]);
        assert(trimmed_text(list[i].local).len() == 0 || trimmed_text(list[i].remote).len() == 0);
    }
    if exists|i: int|
        0 <= i < list.len() && (trimmed_text((#[trigger] list[i]).local).len() == 0
            || trimmed_text(list[i].remote).len() == 0) {
        let i = choose|i: int|
            0 <= i < list.len() && (trimmed_text((#[trigger] list[i]).local).len() == 0
                || trimmed_text(list[i].remote).len() == 0);
        assert(is_incomplete(list[i]));
    }
}

/// A value was given and refused, with this text.
pub open spec fn refused<T>(arg: Option<T>, refusal: Option<String>, text: Seq<char>) -> bool {
    arg is Some && refusal is Some && refusal->0@ == text
}

/// A value was absent, or given and not refused.
pub open spec fn passed<T>(arg: Option<T>, refusal: Option<String>) -> bool {
    arg is None || refusal is None
}

/// What is wrong is told in this order, and only the first of it: the command, the toolchain, the
/// remote's name, the host, the port, the temp dir, the profile, the host-key check, the extra
/// paths. Where the validation gave a text, it is told as it is.
pub proof fn law_first_refusal_is_told(args: BuildArgs, refusals: Refusals, text: Seq<char>)
    ensures
        ({
            let told = first_refusal(args, refusals);
            let p1 = refusals.command is None;
            let p2 = p1 && refusals.toolchain is None;
            let p3 = p2 && passed(args.remote, refusals.remote);
            let p4 = p3 && passed(args.remote_host, refusals.remote_host);
            let p5 = p4 && passed(args.port, refusals.port);
            let p6 = p5 && passed(args.temp_dir, refusals.temp_dir);
            let p7 = p6 && passed(args.env, refusals.env);
            let p8 = p7 && (args.host_key_check is None || !refusals.host_key_check);
            &&& refusals.command matches Some(t) ==> told == Some(t@)
            &&& p1 && refusals.toolchain is Some ==> told == Some(refusals.toolchain->0@)
            &&& p2 && refused(args.remote, refusals.remote, text) ==> told == Some(text)
            &&& p3 && refused(args.remote_host, refusals.remote_host, text) ==> told == Some(text)
            &&& p4 && refused(args.port, refusals.port, text) ==> told == Some(text)
            &&& p5 && refused(args.temp_dir, refusals.temp_dir, text) ==> told == Some(text)
            &&& p6 && refused(args.env, refusals.env, text) ==> told == Some(text)
            &&& p7 && args.host_key_check is Some && refusals.host_key_check ==> told == Some(
                "invalid host_key_check "@ + debug_text(args.host_key_check->0@)
                    + "; expected accept-new, strict, or accept-all"@,
            )
            &&& p8 && extras_refused(args.extra_paths.deep_view()) ==> told == Some(
                "extra_paths entries require non-empty local and remote"@,
            )
            &&& p8 && !extras_refused(args.extra_paths.deep_view()) ==> told is None
        }),
{
}

/// The build tool runs the command that is asked for, or `build`; each other tool its own.
pub proof fn law_tool_commands(command: String, asked: Option<String>)
    ensures
        tool_command(Tool::Build, Some(command)) == command@,
        tool_command(Tool::Build, None) == "build"@,
        tool_command(Tool::Check, asked) == "check"@,
        tool_command(Tool::Test, asked) == "test"@,
        tool_command(Tool::Clippy, asked) == "clippy"@,
{
}

/// A text that was given counts as it is; one that was not is the default.
pub proof fn law_defaults_stand_in(given: String, default: Seq<char>)
    ensures
        text_or(Some(given), default) == given@,
        text_or(None, default) == default,
{
}

} // verus!

//! The texts that the tools answer with.

use vstd::prelude::*;
use vstd::string::StringExecFns;

use crate::text::{decimal, push_decimal, push_signed_decimal, signed_decimal};

verus! {

/// How a remote build went.
#[derive(Debug)]
pub struct BuildOutcome {
    pub exit_code: i64,
    pub success: bool,
    /// The artifacts that were copied back, as they are shown.
    pub copied_artifacts: String,
    pub stdout: String,
    pub stderr: String,
}

pub open spec fn bool_text(b: bool) -> Seq<char> {
    if b {
        "true"@
    } else {
        "false"@
    }
}

/// The answer of a build tool.
pub open spec fn outcome_text(o: BuildOutcome) -> Seq<char> {
    "exit_code: "@ + signed_decimal(o.exit_code as int) + "\nsuccess: "@ + bool_text(o.success)
        + "\ncopied_artifacts: "@ + o.copied_artifacts@ + "\n\n--- stdout ---\n"@ + o.stdout@
        + "\n--- stderr ---\n"@ + o.stderr@
}

pub fn render_outcome(o: &BuildOutcome) -> (text: String)
    ensures
        text@ == outcome_text(*o),
{
    let mut text = "exit_code: ".to_owned();
    push_signed_decimal(&mut text, o.exit_code);
    text.append("\nsuccess: ");
    text.append(if o.success { "true" } else { "false" });
    text.append("\ncopied_artifacts: ");
    text.append(o.copied_artifacts.as_str());
    text.append("\n\n--- stdout ---\n");
    text.append(o.stdout.as_str());
    text.append("\n--- stderr ---\n");
    text.append(o.stderr.as_str());
    text
}

/// A host that takes a password but not the user's key.
#[derive(Debug)]
pub struct EnrollmentTarget {
    pub user: String,
    pub host: String,
    pub port: u16,
}

/// What a human has to do so that builds can authenticate on a host.
pub open spec fn enrollment_text(t: EnrollmentTarget) -> Seq<char> {
    t.user@ + "@"@ + t.host@ + ":"@ + decimal(t.port as nat)
        + " is not enrolled for passwordless access. Run this once in a terminal: cargo rustle setup-key -H "@
        + t.host@ + " -u "@ + t.user@ + " -p "@ + decimal(t.port as nat)
}

/// What is said of a build that failed.
pub open spec fn failure_text(target: Option<EnrollmentTarget>, error: Seq<char>) -> Seq<char> {
    match target {
        Some(t) => enrollment_text(t),
        None => error,
    }
}

/// The error of a build that failed: where the host is not enrolled, how to enroll it, otherwise
/// the error itself.
pub fn build_failure(target: Option<EnrollmentTarget>, error: &str) -> (text: String)
    ensures
        text@ == (match target {
            Some(t) => enrollment_text(t),
            None => error@,
        }),
        text@ == failure_text(target, error@),
{
    let t = match target {
        Some(t) => t,
        None => {
            return error.to_owned();
        },
    };
    let mut text = t.user.clone();
    text.append("@");
    text.append(t.host.as_str());
    text.append(":");
    push_decimal(&mut text, t.port as u64);
    text.append(
        " is not enrolled for passwordless access. Run this once in a terminal: cargo rustle setup-key -H ",
    );
    text.append(t.host.as_str());
    text.append(" -u ");
    text.append(t.user.as_str());
    text.append(" -p ");
    push_decimal(&mut text, t.port as u64);
    text
}

/// A configured remote.
#[derive(Debug)]
pub struct RemoteInfo {
    pub name: Option<String>,
    pub host: String,
    pub port: u16,
    pub temp_dir: String,
    pub env: String,
}

/// The line of a remote in the list.
pub open spec fn remote_line(r: RemoteInfo) -> Seq<char> {
    "- "@ + (match r.name {
        Some(name) => name@,
        None => "(unnamed)"@,
    }) + " host="@ + r.host@ + " port="@ + decimal(r.port as nat) + " temp_dir="@ + r.temp_dir@
        + " env="@ + r.env@
}

/// The lines of the remotes, with a line break between each two.
pub open spec fn remote_lines(remotes: Seq<RemoteInfo>) -> Seq<char>
    decreases remotes.len(),
{
    if remotes.len() == 0 {
        Seq::empty()
    } else if remotes.len() == 1 {
        remote_line(remotes[0])
    } else {
        remote_lines(remotes.drop_last()) + "\n"@ + remote_line(remotes.last())
    }
}

/// What is said where there is no remote.
pub open spec fn no_remotes_text() -> Seq<char> {
    "No remotes are configured. Pass `remote_host` explicitly, or add one to ~/.cargo/rustle.toml or a project .cargo/rustle.toml."@
}

fn push_remote(text: &mut String, r: &RemoteInfo)
    ensures
        final(text)@ == old(text)@ + remote_line(*r),
{
    let ghost before = text@;
    text.append("- ");
    match &r.name {
        Some(name) => {
            text.append(name.as_str());
        },
        None => {
            text.append("(unnamed)");
        },
    }
    text.append(" host=");
    text.append(r.host.as_str());
    text.append(" port=");
    push_decimal(text, r.port as u64);
    text.append(" temp_dir=");
    text.append(r.temp_dir.as_str());
    text.append(" env=");
    text.append(r.env.as_str());
    assert(text@ =~= before + remote_line(*r));
}

/// What is said of the configured remotes.
pub open spec fn remotes_text(remotes: Seq<RemoteInfo>) -> Seq<char> {
    if remotes.len() == 0 {
        no_remotes_text()
    } else {
        remote_lines(remotes)
    }
}

/// The answer of the tool that lists the remotes.
pub fn render_remotes(remotes: &[RemoteInfo]) -> (text: String)
    ensures
        text@ == (if remotes@.len() == 0 {
            no_remotes_text()
        } else {
            remote_lines(remotes@)
        }),
        text@ == remotes_text(remotes@),
{
    if remotes.len() == 0 {
        return "No remotes are configured. Pass `remote_host` explicitly, or add one to ~/.cargo/rustle.toml or a project .cargo/rustle.toml.".to_owned();
    }
    let mut text = String::new();
    let mut i: usize = 0;
    while i < remotes.len()
        invariant
            i <= remotes@.len(),
            text@ == remote_lines(remotes@.take(i as int)),
        decreases remotes@.len() - i,
    {
        assert(remotes@.take(i + 1).drop_last() =~= remotes@.take(i as int));
        assert(remotes@.take(i + 1).last() == remotes@[i as int]);
        if i > 0 {
            text.append("\n");
        }
        push_remote(&mut text, &remotes[i]);
        assert(text@ =~= remote_lines(remotes@.take(i + 1)));
        i += 1;
    }
    assert(remotes@.take(i as int) =~= remotes@);
    text
}

} // verus!

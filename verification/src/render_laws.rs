//! What the tools' answers say, whatever they are about.

use vstd::prelude::*;

use crate::render::{
    bool_text, enrollment_text, failure_text, outcome_text, remote_line, remotes_text,
    BuildOutcome, EnrollmentTarget, RemoteInfo,
};
use crate::text::{decimal, signed_decimal};

verus! {

/// `whole` ends with `tail`.
pub open spec fn ends_with(whole: Seq<char>, tail: Seq<char>) -> bool {
    whole.len() >= tail.len() && whole.skip(whole.len() - tail.len()) == tail
}

/// `whole` starts with `head`.
pub open spec fn starts_with(whole: Seq<char>, head: Seq<char>) -> bool {
    whole.len() >= head.len() && whole.take(head.len() as int) == head
}

proof fn lemma_ends(whole: Seq<char>, head: Seq<char>, tail: Seq<char>)
    requires
        whole == head + tail,
    ensures
        ends_with(whole, tail),
        starts_with(whole, head),
{
    assert(whole.skip(head.len() as int) =~= tail);
    assert(whole.take(head.len() as int) =~= head);
}

/// The answer of a build tool ends with the whole of the captured output, first what the build
/// wrote and then its errors, and that whether or not the build succeeded.
pub proof fn law_captured_output_is_returned(o: BuildOutcome)
    ensures
        ends_with(
            outcome_text(o),
            "\n\n--- stdout ---\n"@ + o.stdout@ + "\n--- stderr ---\n"@ + o.stderr@,
        ),
{
    let head = "exit_code: "@ + signed_decimal(o.exit_code as int) + "\nsuccess: "@ + bool_text(
        o.success,
    ) + "\ncopied_artifacts: "@ + o.copied_artifacts@;
    let tail = "\n\n--- stdout ---\n"@ + o.stdout@ + "\n--- stderr ---\n"@ + o.stderr@;
    assert(outcome_text(o) =~= head + tail);
    lemma_ends(outcome_text(o), head, tail);
}

/// The answer of a build tool starts with the exit code, whether the build succeeded, and the
/// artifacts, each on a line; there is nothing between that and the output.
pub proof fn law_outcome_is_told_first(o: BuildOutcome)
    ensures
        ({
            let head = "exit_code: "@ + signed_decimal(o.exit_code as int) + "\nsuccess: "@ + (
            if o.success {
                "true"@
            } else {
                "false"@
            }) + "\ncopied_artifacts: "@ + o.copied_artifacts@;
            &&& starts_with(outcome_text(o), head)
            &&& outcome_text(o).len() == head.len() + "\n\n--- stdout ---\n"@.len()
                + o.stdout@.len() + "\n--- stderr ---\n"@.len() + o.stderr@.len()
        }),
{
    let head = "exit_code: "@ + signed_decimal(o.exit_code as int) + "\nsuccess: "@ + (
    if o.success {
        "true"@
    } else {
        "false"@
    }) + "\ncopied_artifacts: "@ + o.copied_artifacts@;
    let tail = "\n\n--- stdout ---\n"@ + o.stdout@ + "\n--- stderr ---\n"@ + o.stderr@;
    assert(outcome_text(o) =~= head + tail);
    lemma_ends(outcome_text(o), head, tail);
}

/// A failed build is told by its own error, unless the host is not enrolled. Then the host and
/// the user are named, and the answer ends with the command that enrolls them, with their own
/// host, user and port.
pub proof fn law_unenrolled_hosts_are_told_what_to_run(t: EnrollmentTarget, error: Seq<char>)
    ensures
        failure_text(None, error) == error,
        ({
            let port = decimal(t.port as nat);
            let said = failure_text(Some(t), error);
            let who = t.user@ + "@"@ + t.host@ + ":"@ + port;
            let what =
                " is not enrolled for passwordless access. Run this once in a terminal: cargo rustle setup-key -H "@
                + t.host@ + " -u "@ + t.user@ + " -p "@ + port;
            &&& starts_with(said, who)
            &&& ends_with(said, what)
            &&& said.len() == who.len() + what.len()
        }),
{
    let port = decimal(t.port as nat);
    let who = t.user@ + "@"@ + t.host@ + ":"@ + port;
    let what =
        " is not enrolled for passwordless access. Run this once in a terminal: cargo rustle setup-key -H "@
        + t.host@ + " -u "@ + t.user@ + " -p "@ + port;
    assert(enrollment_text(t) =~= who + what);
    lemma_ends(enrollment_text(t), who, what);
}

/// Without remotes the answer says how to name one. One remote is one line; each further remote
/// is one more line behind a line break, and the lines before it stay as they are.
pub proof fn law_remotes_are_listed_line_by_line(remotes: Seq<RemoteInfo>, r: RemoteInfo)
    ensures
        remotes_text(Seq::empty())
            == "No remotes are configured. Pass `remote_host` explicitly, or add one to ~/.cargo/rustle.toml or a project .cargo/rustle.toml."@,
        remotes_text(seq![r]) == remote_line(r),
        remotes.len() > 0 ==> remotes_text(remotes.push(r)) == remotes_text(remotes) + "\n"@
            + remote_line(r),
{
    if remotes.len() > 0 {
        assert(remotes.push(r).drop_last() =~= remotes);
    }
}

/// The line of a remote names it, or says that it has no name, and gives its host, port, temp dir
/// and profile.
pub proof fn law_remote_line(r: RemoteInfo)
    ensures
        ({
            let name = match r.name {
                Some(name) => name@,
                None => "(unnamed)"@,
            };
            let values = " host="@ + r.host@ + " port="@ + decimal(r.port as nat) + " temp_dir="@
                + r.temp_dir@ + " env="@ + r.env@;
            &&& starts_with(remote_line(r), "- "@ + name)
            &&& ends_with(remote_line(r), values)
            &&& remote_line(r).len() == ("- "@ + name).len() + values.len()
        }),
{
    let name = match r.name {
        Some(name) => name@,
        None => "(unnamed)"@,
    };
    let values = " host="@ + r.host@ + " port="@ + decimal(r.port as nat) + " temp_dir="@
        + r.temp_dir@ + " env="@ + r.env@;
    assert(remote_line(r) =~= "- "@ + name + values);
    lemma_ends(remote_line(r), "- "@ + name, values);
}

} // verus!

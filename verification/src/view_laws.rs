//! What the models say of the values that they stand for: nothing is left out or changed.

use vstd::prelude::*;

use crate::agent::{Turn, TurnModel};
use crate::deploy::{Deployment, DeploymentModel, Remote};
use crate::proto::{
    FileEntry, FileModel, LinkEntry, LinkModel, Request, RequestModel, Response, ResponseModel,
};
use crate::reconcile::{Step, StepModel};
use crate::session::{
    outcome_model, reply_model, AgentError, AgentErrorModel, LocalFile, LocalLink, Move, MoveModel,
    Session, SessionModel, Worklist,
};
use crate::tools::{
    BuildRequest, CopyBack, CopyBackModel, ExtraPath, ExtraPathArg, RemoteSelector, SelectionModel,
    TargetSelection,
};
use crate::tree::Stamp;
use crate::walk::{Answer, AnswerModel, Query, QueryModel};

verus! {

/// `model` has the texts of `texts`, in order.
pub open spec fn same_texts(model: Seq<Seq<char>>, texts: Seq<String>) -> bool {
    model.len() == texts.len() && forall|i: int|
        0 <= i < texts.len() ==> #[trigger] model[i] == texts[i]@
}

/// `model` has the path, size and mtime of each of `files`, in order.
pub open spec fn same_files(model: Seq<FileModel>, files: Seq<FileEntry>) -> bool {
    model.len() == files.len() && forall|i: int|
        0 <= i < files.len() ==> (#[trigger] model[i]).rel == files[i].rel@ && model[i].size
            == files[i].size && model[i].mtime == files[i].mtime
}

/// `model` has the path and the target of each of `links`, in order.
pub open spec fn same_links(model: Seq<LinkModel>, links: Seq<LinkEntry>) -> bool {
    model.len() == links.len() && forall|i: int|
        0 <= i < links.len() ==> (#[trigger] model[i]).rel == links[i].rel@ && model[i].target
            == links[i].target@
}

/// A manifest entry stands for its path, size and modification second, a link for its path and
/// target; what the host's scan found becomes the entry with the same values.
pub proof fn law_entries_say_all(
    file: FileEntry,
    link: LinkEntry,
    local_file: LocalFile,
    local_link: LocalLink,
)
    ensures
        file.deep_view().rel == file.rel@,
        file.deep_view().size == file.size,
        file.deep_view().mtime == file.mtime,
        link.deep_view().rel == link.rel@,
        link.deep_view().target == link.target@,
        local_file.deep_view().rel == local_file.rel@,
        local_file.deep_view().size == local_file.len,
        local_file.deep_view().mtime == local_file.mtime,
        local_link.deep_view().rel == local_link.rel@,
        local_link.deep_view().target == local_link.target@,
{
}

/// A request stands for its variant and all its fields.
pub proof fn law_requests_say_all(r: Request)
    ensures
        match (r, r.deep_view()) {
            (Request::Hello { proto }, RequestModel::Hello { proto: p }) => p == proto,
            (
                Request::Plan { include_hidden, prune, excludes, files, links },
                RequestModel::Plan {
                    include_hidden: hidden,
                    prune: pruned,
                    excludes: xs,
                    files: fs,
                    links: ls,
                },
            ) => {
                &&& hidden == include_hidden
                &&& pruned == prune
                &&& same_texts(xs, excludes@)
                &&& same_files(fs, files@)
                &&& same_links(ls, links@)
            },
            (Request::Bye, RequestModel::Bye) => true,
            _ => false,
        },
{
}

/// A response stands for its variant and all its fields.
pub proof fn law_responses_say_all(r: Response)
    ensures
        match (r, r.deep_view()) {
            (
                Response::HelloOk { agent, proto },
                ResponseModel::HelloOk { agent: a, proto: p },
            ) => a == agent && p == proto,
            (
                Response::Worklist { uploads, created_dirs, pruned, symlinks },
                ResponseModel::Worklist {
                    uploads: us,
                    created_dirs: c,
                    pruned: p,
                    symlinks: s,
                },
            ) => {
                &&& same_texts(us, uploads@)
                &&& c == created_dirs
                &&& p == pruned
                &&& s == symlinks
            },
            (Response::Error { message }, ResponseModel::Error { message: m }) => m == message@,
            _ => false,
        },
{
}

/// A step stands for its variant, its path and, for a symlink, its target.
pub proof fn law_steps_say_all(s: Step)
    ensures
        match (s, s.deep_view()) {
            (Step::MakeRoot, StepModel::MakeRoot) => true,
            (Step::MakeDir(dir), StepModel::MakeDir(d)) => d == dir@,
            (Step::Upload(rel), StepModel::Upload(r)) => r == rel@,
            (
                Step::Relink { rel, target },
                StepModel::Relink { rel: r, target: t },
            ) => r == rel@ && t == target@,
            (Step::Remove(rel), StepModel::Remove(r)) => r == rel@,
            _ => false,
        },
{
}

/// A turn of the agent stands for its variant and all its fields.
pub proof fn law_turns_say_all(t: Turn)
    ensures
        match (t, t.deep_view()) {
            (Turn::Reply(r), TurnModel::Reply(m)) => m == r.deep_view(),
            (Turn::ReplyAndEnd(r), TurnModel::ReplyAndEnd(m)) => m == r.deep_view(),
            (
                Turn::Reconcile { include_hidden, prune, excludes, files, links },
                TurnModel::Reconcile {
                    include_hidden: hidden,
                    prune: pruned,
                    excludes: xs,
                    files: fs,
                    links: ls,
                },
            ) => {
                &&& hidden == include_hidden
                &&& pruned == prune
                &&& same_texts(xs, excludes@)
                &&& same_files(fs, files@)
                &&& same_links(ls, links@)
            },
            (Turn::End, TurnModel::End) => true,
            _ => false,
        },
{
}

/// What the walk asks and is answered stands for its variant and all its fields.
pub proof fn law_queries_and_answers_say_all(q: Query, a: Answer)
    ensures
        match (q, q.deep_view()) {
            (Query::Open(rel), QueryModel::Open(r)) => r == rel@,
            (Query::NextEntry, QueryModel::NextEntry) => true,
            (Query::Kind(rel), QueryModel::Kind(r)) => r == rel@,
            (Query::ReadLink(rel), QueryModel::ReadLink(r)) => r == rel@,
            (Query::Measure(rel), QueryModel::Measure(r)) => r == rel@,
            (Query::Finish, QueryModel::Finish) => true,
            (Query::GiveUp, QueryModel::GiveUp) => true,
            _ => false,
        },
        match (a, a.deep_view()) {
            (Answer::Opened, AnswerModel::Opened) => true,
            (Answer::Entry(name), AnswerModel::Entry(n)) => n == name@,
            (Answer::Exhausted, AnswerModel::Exhausted) => true,
            (Answer::Kind(kind), AnswerModel::Kind(k)) => k == kind,
            (Answer::Target(target), AnswerModel::Target(t)) => t == target@,
            (Answer::Measured { size, mtime }, AnswerModel::Measured(stamp)) => stamp == (Stamp {
                size,
                mtime,
            }),
            (Answer::Failed, AnswerModel::Failed) => true,
            _ => false,
        },
{
}

/// A worklist, and what it is an outcome of, stand for all their fields.
pub proof fn law_outcomes_say_all(w: Worklist, e: AgentError, r: Response)
    ensures
        same_texts(w.deep_view().uploads, w.uploads@),
        w.deep_view().created_dirs == w.created_dirs,
        w.deep_view().pruned == w.pruned,
        w.deep_view().symlinks == w.symlinks,
        match (e, e.deep_view()) {
            (AgentError::Io(message), AgentErrorModel::Io(m)) => m == message@,
            (AgentError::Malformed, AgentErrorModel::Malformed) => true,
            (
                AgentError::Version { host, agent },
                AgentErrorModel::Version { host: h, agent: a },
            ) => h == host && a == agent,
            (AgentError::Unexpected, AgentErrorModel::Unexpected) => true,
            (AgentError::Reported(message), AgentErrorModel::Reported(m)) => m == message@,
            _ => false,
        },
        outcome_model(Ok(w)) == Ok::<_, AgentErrorModel>(w.deep_view()),
        outcome_model(Err(e)) == Err::<crate::session::WorklistModel, _>(e.deep_view()),
        reply_model(Ok(r)) == Ok::<_, AgentErrorModel>(r.deep_view()),
        reply_model(Err(e)) == Err::<ResponseModel, _>(e.deep_view()),
{
}

/// A session and a move of the host stand for their variant and all their fields.
pub proof fn law_sessions_and_moves_say_all(s: Session, m: Move)
    ensures
        match (s, s.deep_view()) {
            (Session::Greeting { plan }, SessionModel::Greeting { plan: p }) => p
                == plan.deep_view(),
            (Session::Planning, SessionModel::Planning) => true,
            (Session::Closed, SessionModel::Closed) => true,
            _ => false,
        },
        match (m, m.deep_view()) {
            (Move::Send(request), MoveModel::Send(r)) => r == request.deep_view(),
            (
                Move::Conclude { farewell, outcome },
                MoveModel::Conclude { farewell: f, outcome: o },
            ) => {
                &&& match (farewell, f) {
                    (Some(request), Some(r)) => r == request.deep_view(),
                    (None, None) => true,
                    _ => false,
                }
                &&& match (outcome, o) {
                    (Ok(w), Ok(v)) => v == w.deep_view(),
                    (Err(e), Err(v)) => v == e.deep_view(),
                    _ => false,
                }
            },
            _ => false,
        },
{
}

/// A remote and a deployment stand for all their fields.
pub proof fn law_deployments_say_all(r: Remote, d: Deployment)
    ensures
        r.deep_view().host == r.host@,
        r.deep_view().port == r.port,
        match (r.user, r.deep_view().user) {
            (Some(user), Some(u)) => u == user@,
            (None, None) => true,
            _ => false,
        },
        match (d, d.deep_view()) {
            (Deployment::Ready { bin }, DeploymentModel::Ready { bin: b }) => b == bin@,
            (Deployment::Probe { bin }, DeploymentModel::Probe { bin: b }) => b == bin@,
            (
                Deployment::Install { dir, bin },
                DeploymentModel::Install { dir: d, bin: b },
            ) => d == dir@ && b == bin@,
            _ => false,
        },
{
}

/// The same optional text.
pub open spec fn same_option(model: Option<Seq<char>>, text: Option<String>) -> bool {
    match (model, text) {
        (Some(m), Some(t)) => m == t@,
        (None, None) => true,
        _ => false,
    }
}

/// A build request stands for all its fields.
pub proof fn law_build_requests_say_all(r: BuildRequest)
    ensures
        r.deep_view().manifest_path == r.manifest_path@,
        match (r.selection, r.deep_view().selection) {
            (TargetSelection::Default, SelectionModel::Default) => true,
            (TargetSelection::Package(name), SelectionModel::Package(n)) => n == name@,
            (TargetSelection::Workspace, SelectionModel::Workspace) => true,
            _ => false,
        },
        r.deep_view().command == r.command@,
        same_texts(r.deep_view().options, r.options@),
        r.deep_view().build_env == r.build_env@,
        r.deep_view().toolchain == r.toolchain@,
        match (r.copy_back, r.deep_view().copy_back) {
            (CopyBack::Nothing, CopyBackModel::Nothing) => true,
            (CopyBack::Target, CopyBackModel::Target) => true,
            (CopyBack::Path(path), CopyBackModel::Path(p)) => p == path@,
            _ => false,
        },
        r.deep_view().copy_lock == r.copy_lock,
        r.deep_view().transfer_hidden == r.transfer_hidden,
        r.deep_view().output == r.output,
{
}

/// A remote selector stands for all its fields.
pub proof fn law_selectors_say_all(s: RemoteSelector, extra: ExtraPath, arg: ExtraPathArg)
    ensures
        same_option(s.deep_view().name, s.name),
        same_option(s.deep_view().host, s.overrides.host),
        same_option(s.deep_view().user, s.overrides.user),
        s.deep_view().port == s.overrides.port,
        same_option(s.deep_view().temp_dir, s.overrides.temp_dir),
        same_option(s.deep_view().env, s.overrides.env),
        same_option(s.deep_view().host_key_check, s.overrides.host_key_check),
        same_option(s.deep_view().setup, s.overrides.setup),
        match (s.overrides.extra_paths, s.deep_view().extra_paths) {
            (Some(list), Some(m)) => m.len() == list@.len() && forall|i: int|
                0 <= i < m.len() ==> (#[trigger] m[i]).local == list@[i].local@ && m[i].remote
                    == list@[i].remote@,
            (None, None) => true,
            _ => false,
        },
        extra.deep_view().local == extra.local@,
        extra.deep_view().remote == extra.remote@,
        arg.deep_view().local == arg.local@,
        arg.deep_view().remote == arg.remote@,
{
}

} // verus!

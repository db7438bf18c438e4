//! The host's side of a session with the agent: what is sent when, and what comes of it.

use vstd::prelude::*;
use vstd::string::StringExecFns;

use crate::be::from_be;
use crate::paths::{trim_end_slashes, trimmed};
use crate::proto::{
    frame_bytes, frame_len, request_bytes, response_of, write_frame, FileEntry, FileModel,
    LinkEntry, LinkModel, Request, RequestModel, Response, ResponseModel, PROTOCOL_VERSION,
};

verus! {

/// A local regular file, as the host's scan found it.
#[derive(Debug)]
pub struct LocalFile {
    pub rel: String,
    pub len: u64,
    pub mtime: u32,
}

/// A local symlink, as the host's scan found it.
#[derive(Debug)]
pub struct LocalLink {
    pub rel: String,
    pub target: String,
}

/// How a push is to be made.
#[derive(Debug)]
pub struct TransferPlan {
    pub build_path: String,
    pub include_hidden: bool,
    pub prune: bool,
    pub excludes: Vec<String>,
}

/// What the agent reports: the files to upload, and what it did.
#[derive(Debug, PartialEq, Eq)]
pub struct Worklist {
    pub uploads: Vec<String>,
    pub created_dirs: u32,
    pub pruned: u32,
    pub symlinks: u32,
}

/// Why a session with the agent came to nothing.
#[derive(Debug, PartialEq, Eq)]
pub enum AgentError {
    /// The channel failed, with this message.
    Io(String),
    /// A frame was too long, or held no response.
    Malformed,
    /// The agent speaks another protocol version.
    Version { host: u32, agent: u32 },
    /// The agent answered something that does not belong there.
    Unexpected,
    /// The agent reported an error of its own.
    Reported(String),
}

/// What a [`Worklist`] says.
pub struct WorklistModel {
    pub uploads: Seq<Seq<char>>,
    pub created_dirs: u32,
    pub pruned: u32,
    pub symlinks: u32,
}

/// What an [`AgentError`] says.
pub enum AgentErrorModel {
    Io(Seq<char>),
    Malformed,
    Version { host: u32, agent: u32 },
    Unexpected,
    Reported(Seq<char>),
}

impl DeepView for LocalFile {
    type V = FileModel;

    /// The manifest entry of the file.
    open spec fn deep_view(&self) -> FileModel {
        FileModel { rel: self.rel@, size: self.len, mtime: self.mtime }
    }
}

impl DeepView for LocalLink {
    type V = LinkModel;

    /// The manifest entry of the symlink.
    open spec fn deep_view(&self) -> LinkModel {
        LinkModel { rel: self.rel@, target: self.target@ }
    }
}

impl DeepView for Worklist {
    type V = WorklistModel;

    open spec fn deep_view(&self) -> WorklistModel {
        WorklistModel {
            uploads: self.uploads.deep_view(),
            created_dirs: self.created_dirs,
            pruned: self.pruned,
            symlinks: self.symlinks,
        }
    }
}

impl DeepView for AgentError {
    type V = AgentErrorModel;

    open spec fn deep_view(&self) -> AgentErrorModel {
        match self {
            AgentError::Io(message) => AgentErrorModel::Io(message@),
            AgentError::Malformed => AgentErrorModel::Malformed,
            AgentError::Version { host, agent } => {
                AgentErrorModel::Version { host: *host, agent: *agent }
            },
            AgentError::Unexpected => AgentErrorModel::Unexpected,
            AgentError::Reported(message) => AgentErrorModel::Reported(message@),
        }
    }
}

// --- what goes over the channel ------------------------------------------------------------

/// The command that starts the agent: the binary, a space, and the build root without the slashes
/// at its end.
pub open spec fn command_of(bin: Seq<char>, build_path: Seq<char>) -> Seq<char> {
    bin + " "@ + trimmed(build_path)
}

/// The command that starts the agent on the remote. Unquoted, so that the remote shell expands
/// `~` in both paths.
pub fn agent_command(bin: &str, build_path: &str) -> (command: String)
    ensures
        command@ == bin@ + " "@ + trimmed(build_path@),
        command@ == command_of(bin@, build_path@),
{
    let root = trim_end_slashes(build_path);
    let mut command = bin.to_owned();
    command.append(" ");
    command.append(root.as_str());
    command
}

/// The request that ships the manifest.
pub open spec fn plan_request_of(
    plan: TransferPlan,
    files: Seq<FileModel>,
    links: Seq<LinkModel>,
) -> RequestModel {
    RequestModel::Plan {
        include_hidden: plan.include_hidden,
        prune: plan.prune,
        excludes: plan.excludes.deep_view(),
        files,
        links,
    }
}

pub fn plan_request(plan: &TransferPlan, files: &[LocalFile], links: &[LocalLink]) -> (request:
    Request)
    ensures
        request.deep_view() == plan_request_of(*plan, files.deep_view(), links.deep_view()),
{
    let mut excludes: Vec<String> = Vec::new();
    let mut i: usize = 0;
    while i < plan.excludes.len()
        invariant
            i <= plan.excludes@.len(),
            excludes.deep_view() == plan.excludes.deep_view().take(i as int),
        decreases plan.excludes@.len() - i,
    {
        let ghost before = excludes.deep_view();
        excludes.push(plan.excludes[i].clone());
        assert(excludes.deep_view() =~= before.push(plan.excludes@[i as int]@));
        assert(plan.excludes.deep_view().take(i + 1) =~= before.push(plan.excludes@[i as int]@));
        i += 1;
    }
    assert(plan.excludes.deep_view().take(i as int) =~= plan.excludes.deep_view());

    let mut file_entries: Vec<FileEntry> = Vec::new();
    let mut j: usize = 0;
    while j < files.len()
        invariant
            j <= files@.len(),
            file_entries.deep_view() == files.deep_view().take(j as int),
        decreases files@.len() - j,
    {
        let ghost before = file_entries.deep_view();
        let f = &files[j];
        file_entries.push(FileEntry { rel: f.rel.clone(), size: f.len, mtime: f.mtime });
        assert(file_entries.deep_view() =~= before.push(f.deep_view()));
        assert(files.deep_view().take(j + 1) =~= before.push(f.deep_view()));
        j += 1;
    }
    assert(files.deep_view().take(j as int) =~= files.deep_view());

    let mut link_entries: Vec<LinkEntry> = Vec::new();
    let mut k: usize = 0;
    while k < links.len()
        invariant
            k <= links@.len(),
            link_entries.deep_view() == links.deep_view().take(k as int),
        decreases links@.len() - k,
    {
        let ghost before = link_entries.deep_view();
        let l = &links[k];
        link_entries.push(LinkEntry { rel: l.rel.clone(), target: l.target.clone() });
        assert(link_entries.deep_view() =~= before.push(l.deep_view()));
        assert(links.deep_view().take(k + 1) =~= before.push(l.deep_view()));
        k += 1;
    }
    assert(links.deep_view().take(k as int) =~= links.deep_view());

    Request::Plan {
        include_hidden: plan.include_hidden,
        prune: plan.prune,
        excludes,
        files: file_entries,
        links: link_entries,
    }
}

/// Appends the framed encoding of `request` to `w`.
pub fn send(w: &mut Vec<u8>, request: &Request)
    ensures
        final(w)@ == old(w)@ + frame_bytes(request_bytes(request.deep_view())),
{
    let body = request.encode();
    let _ = write_frame(w, body.as_slice());
}

/// The longest response that the host takes, in bytes. A corrupt length must not trigger a huge
/// allocation.
pub const MAX_RESPONSE: usize = 67_108_864;

/// A header that announces more than the host takes.
pub open spec fn is_oversized(header: Seq<u8>) -> bool {
    from_be(header) > MAX_RESPONSE
}

/// The body length that a response's frame header announces, unless it is over the limit.
pub fn response_len(header: [u8; 4]) -> (res: Result<usize, AgentError>)
    ensures
        res is Ok <==> from_be(header@) <= MAX_RESPONSE,
        res is Err <==> is_oversized(header@),
        res matches Ok(n) ==> n as nat == from_be(header@),
        res matches Err(e) ==> e == AgentError::Malformed,
{
    let n: usize = frame_len(header);
    if n > MAX_RESPONSE {
        return Err(AgentError::Malformed);
    }
    Ok(n)
}

/// The response that a frame's body holds.
pub fn recv(body: &[u8]) -> (res: Result<Response, AgentError>)
    ensures
        res is Ok <==> response_of(body@) is Some,
        res matches Ok(response) ==> response_of(body@) == Some(response.deep_view()),
        res matches Err(e) ==> e == AgentError::Malformed,
{
    match Response::decode(body) {
        Some(response) => Ok(response),
        None => Err(AgentError::Malformed),
    }
}

// --- the session ---------------------------------------------------------------------------

/// What the host does next.
#[derive(Debug, PartialEq, Eq)]
pub enum Move {
    /// Send this request and wait for the answer.
    Send(Request),
    /// Send the farewell, if there is one, as far as that works; the session ends with this.
    Conclude { farewell: Option<Request>, outcome: Result<Worklist, AgentError> },
}

/// What a [`Move`] says.
pub enum MoveModel {
    Send(RequestModel),
    Conclude {
        farewell: Option<RequestModel>,
        outcome: Result<WorklistModel, AgentErrorModel>,
    },
}

/// What a received response says, or why none was received.
pub type ReplyModel = Result<ResponseModel, AgentErrorModel>;

/// What a reply that came back, or failed to, says.
pub open spec fn reply_model(reply: Result<Response, AgentError>) -> ReplyModel {
    match reply {
        Ok(response) => Ok(response.deep_view()),
        Err(e) => Err(e.deep_view()),
    }
}

/// What the outcome of a session says.
pub open spec fn outcome_model(outcome: Result<Worklist, AgentError>) -> Result<
    WorklistModel,
    AgentErrorModel,
> {
    match outcome {
        Ok(worklist) => Ok(worklist.deep_view()),
        Err(e) => Err(e.deep_view()),
    }
}

impl DeepView for Move {
    type V = MoveModel;

    open spec fn deep_view(&self) -> MoveModel {
        match self {
            Move::Send(request) => MoveModel::Send(request.deep_view()),
            Move::Conclude { farewell, outcome } => MoveModel::Conclude {
                farewell: farewell.deep_view(),
                outcome: outcome_model(*outcome),
            },
        }
    }
}

/// One exchange of a plan for a worklist: what the host waits for.
#[derive(Debug, PartialEq, Eq)]
pub enum Session {
    /// The answer to the handshake, before this plan is shipped.
    Greeting { plan: Request },
    /// The answer to the plan.
    Planning,
    /// Nothing: the session is over.
    Closed,
}

/// What a [`Session`] says.
pub enum SessionModel {
    Greeting { plan: RequestModel },
    Planning,
    Closed,
}

impl DeepView for Session {
    type V = SessionModel;

    open spec fn deep_view(&self) -> SessionModel {
        match self {
            Session::Greeting { plan } => SessionModel::Greeting { plan: plan.deep_view() },
            Session::Planning => SessionModel::Planning,
            Session::Closed => SessionModel::Closed,
        }
    }
}

/// The session ends with an error, without a farewell.
pub open spec fn failure(e: AgentErrorModel) -> MoveModel {
    MoveModel::Conclude { farewell: None, outcome: Err(e) }
}

/// The session ends after a farewell.
pub open spec fn conclusion(outcome: Result<WorklistModel, AgentErrorModel>) -> MoveModel {
    MoveModel::Conclude { farewell: Some(RequestModel::Bye), outcome }
}

/// What the host does with the answer to the handshake: the plan is shipped where the agent
/// confirms that it speaks the host's protocol version.
pub open spec fn move_on_greeting(plan: RequestModel, response: ResponseModel) -> MoveModel {
    match response {
        ResponseModel::HelloOk { proto, .. } => if proto == PROTOCOL_VERSION {
            MoveModel::Send(plan)
        } else {
            failure(AgentErrorModel::Version { host: PROTOCOL_VERSION, agent: proto })
        },
        _ => failure(AgentErrorModel::Unexpected),
    }
}

/// What the host does with the answer to the plan.
pub open spec fn move_on_plan(response: ResponseModel) -> MoveModel {
    match response {
        ResponseModel::Worklist { uploads, created_dirs, pruned, symlinks } => conclusion(
            Ok(WorklistModel { uploads, created_dirs, pruned, symlinks }),
        ),
        ResponseModel::Error { message } => conclusion(Err(AgentErrorModel::Reported(message))),
        ResponseModel::HelloOk { .. } => conclusion(Err(AgentErrorModel::Unexpected)),
    }
}

impl SessionModel {
    /// What the host does with a reply, or with the lack of one.
    pub open spec fn move_on(self, reply: ReplyModel) -> MoveModel {
        match reply {
            Err(e) => failure(e),
            Ok(response) => match self {
                SessionModel::Greeting { plan } => move_on_greeting(plan, response),
                _ => move_on_plan(response),
            },
        }
    }

    /// The session after a reply.
    pub open spec fn after(self, reply: ReplyModel) -> SessionModel {
        if self.move_on(reply) is Send {
            SessionModel::Planning
        } else {
            SessionModel::Closed
        }
    }
}

impl Session {
    /// Opens a session that is to ship this plan. The handshake is the first thing to send.
    pub fn open(plan: Request) -> (opened: (Session, Request))
        ensures
            opened.0.deep_view() == (SessionModel::Greeting { plan: plan.deep_view() }),
            opened.1.deep_view() == (RequestModel::Hello { proto: PROTOCOL_VERSION }),
    {
        (Session::Greeting { plan }, Request::Hello { proto: PROTOCOL_VERSION })
    }

    /// Takes in a reply, or why there is none, and says what to do.
    pub fn received(&mut self, reply: Result<Response, AgentError>) -> (next: Move)
        requires
            !(*old(self) is Closed),
        ensures
            next.deep_view() == old(self).deep_view().move_on(reply_model(reply)),
            final(self).deep_view() == old(self).deep_view().after(reply_model(reply)),
    {
        let mut session = Session::Closed;
        std::mem::swap(&mut session, self);
        let response = match reply {
            Ok(response) => response,
            Err(e) => {
                return Move::Conclude { farewell: None, outcome: Err(e) };
            },
        };
        match session {
            Session::Greeting { plan } => match response {
                Response::HelloOk { proto, .. } => {
                    if proto == PROTOCOL_VERSION {
                        *self = Session::Planning;
                        Move::Send(plan)
                    } else {
                        let e = AgentError::Version { host: PROTOCOL_VERSION, agent: proto };
                        Move::Conclude { farewell: None, outcome: Err(e) }
                    }
                },
                _ => Move::Conclude { farewell: None, outcome: Err(AgentError::Unexpected) },
            },
            _ => {
                let outcome = match response {
                    Response::Worklist { uploads, created_dirs, pruned, symlinks } => {
                        Ok(Worklist { uploads, created_dirs, pruned, symlinks })
                    },
                    Response::Error { message } => Err(AgentError::Reported(message)),
                    Response::HelloOk { .. } => Err(AgentError::Unexpected),
                };
                Move::Conclude { farewell: Some(Request::Bye), outcome }
            },
        }
    }
}

// --- falling back --------------------------------------------------------------------------

/// What comes of an attempt to plan through the agent.
#[derive(Debug, PartialEq, Eq)]
pub enum Settled<T, E> {
    /// The agent's worklist stands.
    Done(T),
    /// The agent failed for this reason: warn, and let the fallback planner do it.
    FallBack(E),
    /// The agent failed for this reason, and there is no fallback.
    Failed(E),
}

/// What comes of an attempt.
pub open spec fn settled_as<T, E>(attempt: Result<T, E>, has_fallback: bool) -> Settled<T, E> {
    match attempt {
        Ok(worklist) => Settled::Done(worklist),
        Err(e) => if has_fallback {
            Settled::FallBack(e)
        } else {
            Settled::Failed(e)
        },
    }
}

/// Decides what comes of an attempt: a failure is passed to the fallback planner where there is
/// one, and is final where there is none.
pub fn settle<T, E>(attempt: Result<T, E>, has_fallback: bool) -> (settled: Settled<T, E>)
    ensures
        settled == (match attempt {
            Ok(worklist) => Settled::Done(worklist),
            Err(e) => if has_fallback {
                Settled::FallBack(e)
            } else {
                Settled::Failed(e)
            },
        }),
        settled == settled_as(attempt, has_fallback),
{
    match attempt {
        Ok(worklist) => Settled::Done(worklist),
        Err(e) => {
            if has_fallback {
                Settled::FallBack(e)
            } else {
                Settled::Failed(e)
            }
        },
    }
}

} // verus!

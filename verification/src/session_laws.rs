//! What holds of a session between host and agent.

use vstd::prelude::*;

use crate::agent::{turn_on_frame, turn_on_read, TurnModel, AGENT_VERSION};
use crate::be::lemma_be_len;
use crate::layout_laws::lemma_four_bytes;
use crate::path_laws::law_slashes_at_the_end_are_trimmed;
use crate::proto::{
    announced_len, frame_body, frame_bytes, request_bytes, request_of, response_bytes, response_of,
    FileModel, LinkModel, RequestModel, ResponseModel, PROTOCOL_VERSION,
};
use crate::proto_laws::{
    count_fits, law_frame_round_trips, law_request_survives_exchange,
    law_response_survives_exchange, request_fits, response_fits,
};
use crate::session::{
    command_of, conclusion, is_oversized, plan_request_of, settled_as, AgentErrorModel, MoveModel,
    ReplyModel, SessionModel, Settled, TransferPlan, WorklistModel, MAX_RESPONSE,
};

verus! {

/// What the agent answers to a handshake.
pub open spec fn hello_ok() -> ResponseModel {
    ResponseModel::HelloOk { agent: AGENT_VERSION, proto: PROTOCOL_VERSION }
}

/// A plan is shipped only to an agent that has confirmed the host's protocol version, and it is
/// the plan that the session was opened for.
pub proof fn law_plan_is_shipped_to_a_matching_agent_only(
    session: SessionModel,
    reply: ReplyModel,
    sent: RequestModel,
)
    ensures
        session.move_on(reply) == MoveModel::Send(sent) <==> (session == SessionModel::Greeting {
            plan: sent,
        } && exists|agent: u32|
            reply == #[trigger] reply_of(
                ResponseModel::HelloOk { agent, proto: PROTOCOL_VERSION },
            )),
{
    if session.move_on(reply) == MoveModel::Send(sent) {
        let agent = reply->Ok_0->agent;
        assert(reply == reply_of(ResponseModel::HelloOk { agent, proto: PROTOCOL_VERSION }));
    }
}

/// A reply that came back.
pub open spec fn reply_of(response: ResponseModel) -> ReplyModel {
    Ok(response)
}

/// Every session is over after two replies at most, and nothing is sent after the plan but a
/// farewell.
pub proof fn law_session_ends_after_two_replies(
    session: SessionModel,
    first: ReplyModel,
    second: ReplyModel,
)
    ensures
        session.after(first).after(second) is Closed,
        session.after(first).move_on(second) is Conclude,
{
}

/// A worklist comes out of a session exactly where the agent answered the plan with it.
pub proof fn law_worklist_is_the_agents(
    session: SessionModel,
    reply: ReplyModel,
    worklist: WorklistModel,
)
    ensures
        session.move_on(reply) == conclusion(Ok(worklist)) <==> (!(session is Greeting)
            && reply == reply_of(
            ResponseModel::Worklist {
                uploads: worklist.uploads,
                created_dirs: worklist.created_dirs,
                pruned: worklist.pruned,
                symlinks: worklist.symlinks,
            },
        )),
{
}

/// An error that the agent reports in answer to the plan reaches the caller word for word.
pub proof fn law_agent_error_is_reported(message: Seq<char>)
    ensures
        SessionModel::Planning.move_on(reply_of(ResponseModel::Error { message })) == conclusion(
            Err(AgentErrorModel::Reported(message)),
        ),
{
}

/// Host and agent understand each other: the host's handshake makes the agent confirm the
/// version, on the confirmation the host ships the plan, and on the plan the agent reconciles
/// with exactly the policy and the manifest of the host.
pub proof fn law_plan_reaches_the_agent(plan: RequestModel, rest: Seq<u8>)
    requires
        plan is Plan,
        request_fits(plan),
        count_fits(request_bytes(plan).len()),
    ensures
        turn_on_frame(
            frame_body(
                frame_bytes(request_bytes(RequestModel::Hello { proto: PROTOCOL_VERSION })) + rest,
            ),
        ) == TurnModel::Reply(hello_ok()),
        response_of(frame_body(frame_bytes(response_bytes(hello_ok())) + rest)) == Some(hello_ok()),
        (SessionModel::Greeting { plan }).move_on(reply_of(hello_ok())) == MoveModel::Send(plan),
        turn_on_frame(frame_body(frame_bytes(request_bytes(plan)) + rest)) == (
        TurnModel::Reconcile {
            include_hidden: plan->include_hidden,
            prune: plan->prune,
            excludes: plan->excludes,
            files: plan->files,
            links: plan->links,
        }),
{
    let hello = RequestModel::Hello { proto: PROTOCOL_VERSION };
    assert(count_fits(request_bytes(hello).len()) && count_fits(response_bytes(hello_ok()).len()))
        by {
        lemma_be_len(PROTOCOL_VERSION as nat, 4);
        lemma_be_len(AGENT_VERSION as nat, 4);
    }
    law_request_survives_exchange(hello, rest);
    law_response_survives_exchange(hello_ok(), rest);
    law_request_survives_exchange(plan, rest);
}

/// The agent's answer to the plan reaches the host as it was sent, where it is within the host's
/// limit.
pub proof fn law_answer_reaches_the_host(response: ResponseModel, rest: Seq<u8>)
    requires
        response_fits(response),
        response_bytes(response).len() <= MAX_RESPONSE,
    ensures
        announced_len(frame_bytes(response_bytes(response)) + rest) <= MAX_RESPONSE,
        response_of(frame_body(frame_bytes(response_bytes(response)) + rest)) == Some(response),
{
    let input = frame_bytes(response_bytes(response)) + rest;
    law_frame_round_trips(response_bytes(response), rest);
    law_response_survives_exchange(response, rest);
    assert(announced_len(input) == response_bytes(response).len()) by {
        assert(frame_body(input).len() == response_bytes(response).len());
        assert(input.len() == 4 + response_bytes(response).len() + rest.len());
    }
}

/// The agent ends the session on a goodbye.
pub proof fn law_goodbye_ends_the_session(rest: Seq<u8>)
    ensures
        turn_on_frame(frame_body(frame_bytes(request_bytes(RequestModel::Bye)) + rest)) is End,
{
    law_request_survives_exchange(RequestModel::Bye, rest);
}

/// The request made of a transfer plan carries the plan's own policy and the manifest, unchanged:
/// the flags as they are, the excludes text by text, the files and the symlinks.
pub proof fn law_plan_request_carries_the_plan(
    plan: TransferPlan,
    files: Seq<FileModel>,
    links: Seq<LinkModel>,
)
    ensures
        match plan_request_of(plan, files, links) {
            RequestModel::Plan { include_hidden, prune, excludes, files: sent, links: linked } => {
                &&& include_hidden == plan.include_hidden
                &&& prune == plan.prune
                &&& excludes.len() == plan.excludes@.len()
                &&& forall|i: int|
                    0 <= i < excludes.len() ==> #[trigger] excludes[i] == plan.excludes@[i]@
                &&& sent == files
                &&& linked == links
            },
            _ => false,
        },
{
}

/// Requests of plans that differ in policy or manifest differ.
pub proof fn law_plan_requests_tell_plans_apart(
    a: TransferPlan,
    b: TransferPlan,
    files: Seq<FileModel>,
    others: Seq<FileModel>,
    links: Seq<LinkModel>,
    other_links: Seq<LinkModel>,
)
    requires
        a.prune != b.prune || a.include_hidden != b.include_hidden || files != others || links
            != other_links || exists|i: int|
            0 <= i < a.excludes@.len() && i < b.excludes@.len() && #[trigger] a.excludes@[i]@
                != b.excludes@[i]@,
    ensures
        plan_request_of(a, files, links) != plan_request_of(b, others, other_links),
{
    if exists|i: int|
        0 <= i < a.excludes@.len() && i < b.excludes@.len() && #[trigger] a.excludes@[i]@
            != b.excludes@[i]@ {
        let i = choose|i: int|
            0 <= i < a.excludes@.len() && i < b.excludes@.len() && #[trigger] a.excludes@[i]@
                != b.excludes@[i]@;
        assert(a.excludes.deep_view()[i] != b.excludes.deep_view()[i]);
    }
}

/// What the host does with each answer to its handshake: where the agent speaks the host's
/// version it ships the plan; otherwise it ends the session with the reason, and no farewell.
pub proof fn law_answers_to_the_handshake(
    plan: RequestModel,
    response: ResponseModel,
    e: AgentErrorModel,
)
    ensures
        ({
            let session = SessionModel::Greeting { plan };
            &&& session.move_on(Err(e)) == (MoveModel::Conclude { farewell: None, outcome: Err(e) })
            &&& session.move_on(Ok(response)) == (match response {
                ResponseModel::HelloOk { agent, proto } => if proto == PROTOCOL_VERSION {
                    MoveModel::Send(plan)
                } else {
                    MoveModel::Conclude {
                        farewell: None,
                        outcome: Err(
                            AgentErrorModel::Version { host: PROTOCOL_VERSION, agent: proto },
                        ),
                    }
                },
                _ => MoveModel::Conclude {
                    farewell: None,
                    outcome: Err(AgentErrorModel::Unexpected),
                },
            })
            &&& session.after(Ok(response)) is Planning <==> (response matches ResponseModel::HelloOk {
                proto,
                ..
            } && proto == PROTOCOL_VERSION)
            &&& session.after(Err(e)) is Closed
            &&& !(session.after(Ok(response)) is Greeting)
        }),
{
}

/// What the host does with each answer to its plan: it says goodbye and ends the session with the
/// agent's worklist, the agent's error, or, where the answer does not belong there, with that. A
/// channel that failed is left without a goodbye.
pub proof fn law_answers_to_the_plan(response: ResponseModel, e: AgentErrorModel)
    ensures
        SessionModel::Planning.move_on(Err(e)) == (MoveModel::Conclude {
            farewell: None,
            outcome: Err(e),
        }),
        SessionModel::Planning.move_on(Ok(response)) == (MoveModel::Conclude {
            farewell: Some(RequestModel::Bye),
            outcome: match response {
                ResponseModel::Worklist { uploads, created_dirs, pruned, symlinks } => Ok(
                    WorklistModel { uploads, created_dirs, pruned, symlinks },
                ),
                ResponseModel::Error { message } => Err(AgentErrorModel::Reported(message)),
                ResponseModel::HelloOk { .. } => Err(AgentErrorModel::Unexpected),
            },
        }),
        SessionModel::Planning.after(Ok(response)) is Closed,
        SessionModel::Planning.after(Err(e)) is Closed,
{
}

/// The agent by its bytes: a handshake of any version is answered with the agent's versions, a
/// goodbye ends the session, and so does the end of the channel; a frame that is none of the
/// three, or a plan that cannot be read, is answered with an error and ends it too; a plan that
/// can be read is carried out as it was read.
pub proof fn law_agent_turns_by_the_tag(frame: Seq<u8>)
    ensures
        turn_on_read(None) is End,
        turn_on_read(Some(frame)) == turn_on_frame(frame),
        frame.len() >= 5 && frame[0] == 1 ==> turn_on_frame(frame) == TurnModel::Reply(
            ResponseModel::HelloOk { agent: 1, proto: 1 },
        ),
        frame.len() >= 1 && frame[0] == 3 ==> turn_on_frame(frame) is End,
        frame.len() == 0 || frame[0] == 0 || frame[0] > 3 || (frame[0] == 1 && frame.len() < 5)
            || request_of(frame) is None ==> turn_on_frame(frame) == TurnModel::ReplyAndEnd(
            ResponseModel::Error { message: "malformed request frame"@ },
        ),
        request_of(frame) matches Some(
            RequestModel::Plan { include_hidden, prune, excludes, files, links },
        ) ==> turn_on_frame(frame) == (TurnModel::Reconcile {
            include_hidden,
            prune,
            excludes,
            files,
            links,
        }),
{
}

/// The agent is started with the build root, whatever slashes end its path, behind the binary and
/// one space.
pub proof fn law_command_names_the_root(bin: Seq<char>, root: Seq<char>, slashes: Seq<char>)
    requires
        root.len() == 0 || root[root.len() - 1] != '/',
        forall|i: int| 0 <= i < slashes.len() ==> (#[trigger] slashes[i]) == '/',
    ensures
        command_of(bin, root + slashes) == bin + seq![' '] + root,
{
    law_slashes_at_the_end_are_trimmed(root, slashes);
    reveal_strlit(" ");
    assert(" "@ =~= seq![' ']);
}

/// A worklist stands whether or not there is a fallback. A failure is never final where there is
/// one, always where there is none, and is handed on as it is.
pub proof fn law_failures_go_to_the_fallback<T, E>(worklist: T, e: E, has_fallback: bool)
    ensures
        settled_as::<T, E>(Ok(worklist), has_fallback) == Settled::<T, E>::Done(worklist),
        settled_as::<T, E>(Err(e), true) == Settled::<T, E>::FallBack(e),
        settled_as::<T, E>(Err(e), false) == Settled::<T, E>::Failed(e),
{
}

/// The host refuses a response by its header where that announces more than 64 MiB.
pub proof fn law_oversized_headers(a: u8, b: u8, c: u8, d: u8)
    ensures
        is_oversized(seq![a, b, c, d]) <==> a * 16777216 + b * 65536 + c * 256 + d > 67108864,
{
    lemma_four_bytes(seq![a, b, c, d]);
}

} // verus!

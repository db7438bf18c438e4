//! The remote agent's turn: what it does with each frame that arrives.

use vstd::prelude::*;

use crate::proto::{
    frame_bytes, request_of, response_bytes, write_frame, FileEntry, FileModel, FrameError,
    LinkEntry, LinkModel, Request, RequestModel, Response, ResponseModel, PROTOCOL_VERSION,
};

verus! {

/// Bumped alongside behavioural changes; reported in the handshake.
pub const AGENT_VERSION: u32 = 1;

/// What the agent does next.
#[derive(Debug, PartialEq, Eq)]
pub enum Turn {
    /// Send this response and wait for the next request.
    Reply(Response),
    /// Send this response if possible, then end.
    ReplyAndEnd(Response),
    /// Bring the build tree in line with this manifest, and send the worklist.
    Reconcile {
        include_hidden: bool,
        prune: bool,
        excludes: Vec<String>,
        files: Vec<FileEntry>,
        links: Vec<LinkEntry>,
    },
    /// End without a word.
    End,
}

/// What a [`Turn`] says.
pub enum TurnModel {
    Reply(ResponseModel),
    ReplyAndEnd(ResponseModel),
    Reconcile {
        include_hidden: bool,
        prune: bool,
        excludes: Seq<Seq<char>>,
        files: Seq<FileModel>,
        links: Seq<LinkModel>,
    },
    End,
}

impl DeepView for Turn {
    type V = TurnModel;

    open spec fn deep_view(&self) -> TurnModel {
        match self {
            Turn::Reply(response) => TurnModel::Reply(response.deep_view()),
            Turn::ReplyAndEnd(response) => TurnModel::ReplyAndEnd(response.deep_view()),
            Turn::Reconcile { include_hidden, prune, excludes, files, links } => {
                TurnModel::Reconcile {
                    include_hidden: *include_hidden,
                    prune: *prune,
                    excludes: excludes.deep_view(),
                    files: files.deep_view(),
                    links: links.deep_view(),
                }
            },
            Turn::End => TurnModel::End,
        }
    }
}

/// What the agent does with a frame: a handshake is answered with the versions whatever version
/// the host speaks, a plan is carried out, a goodbye ends the session, and so does a frame that
/// is no request, with an error.
pub open spec fn turn_on_frame(frame: Seq<u8>) -> TurnModel {
    match request_of(frame) {
        Some(RequestModel::Hello { .. }) => TurnModel::Reply(
            ResponseModel::HelloOk { agent: AGENT_VERSION, proto: PROTOCOL_VERSION },
        ),
        Some(RequestModel::Plan { include_hidden, prune, excludes, files, links }) => {
            TurnModel::Reconcile { include_hidden, prune, excludes, files, links }
        },
        Some(RequestModel::Bye) => TurnModel::End,
        None => TurnModel::ReplyAndEnd(
            ResponseModel::Error { message: "malformed request frame"@ },
        ),
    }
}

/// What the agent does once a read came back, with a frame or with none.
pub open spec fn turn_on_read(frame: Option<Seq<u8>>) -> TurnModel {
    match frame {
        Some(frame) => turn_on_frame(frame),
        None => TurnModel::End,
    }
}

/// The agent's turn once a read came back. A read that failed is the end of the channel, and of
/// the session.
pub fn take_turn(read: Result<Vec<u8>, FrameError>) -> (turn: Turn)
    ensures
        turn.deep_view() == (match read {
            Ok(frame) => turn_on_frame(frame@),
            Err(_) => TurnModel::End,
        }),
        turn.deep_view() == turn_on_read(
            match read {
                Ok(frame) => Some(frame@),
                Err(_) => None,
            },
        ),
{
    let frame = match read {
        Ok(frame) => frame,
        Err(_) => {
            return Turn::End;
        },
    };
    match Request::decode(frame.as_slice()) {
        None => Turn::ReplyAndEnd(
            Response::Error { message: "malformed request frame".to_owned() },
        ),
        Some(request) => match request {
            Request::Hello { .. } => Turn::Reply(
                Response::HelloOk { agent: AGENT_VERSION, proto: PROTOCOL_VERSION },
            ),
            Request::Plan { include_hidden, prune, excludes, files, links } => {
                Turn::Reconcile { include_hidden, prune, excludes, files, links }
            },
            Request::Bye => Turn::End,
        },
    }
}

/// Appends the framed encoding of `response` to `writer`.
pub fn reply(writer: &mut Vec<u8>, response: &Response) -> (res: Result<(), FrameError>)
    ensures
        res is Ok,
        final(writer)@ == old(writer)@ + frame_bytes(response_bytes(response.deep_view())),
{
    let body = response.encode();
    write_frame(writer, body.as_slice())
}

} // verus!

//! The adapter between an editor, which speaks over standard input and output, and the
//! daemon.
use vstd::prelude::*;

use crate::client::CONNECTION_LOST;
use crate::daemon::protocol::{
    failure_frame, FrameView, JsonRpcResponse, RequestId, ServerFrame, MAX_FRAME_BYTES,
};
use crate::daemon::server::{protocol_id, FRAME_TOO_LARGE, PARSE_ERROR};
use crate::json::Json;

verus! {

/// A request that an editor has sent.
#[derive(Debug)]
pub struct EditorRequest {
    pub id: RequestId,
    pub method: String,
    pub params: Json,
}

/// What the adapter does.
#[derive(Debug)]
pub enum AdapterStep {
    /// To send a request to the daemon.
    Forward(EditorRequest),
    /// To send a frame to the editor.
    Answer(ServerFrame),
}

/// What the adapter does with a line of a length, which was read as a request or not.
/// The code of the answer tells a line that is too long from one that is no request.
pub fn run_stdio_adapter(length: usize, decoded: Result<EditorRequest, String>) -> (step:
    AdapterStep)
    ensures
        match decoded {
            Ok(request) => step == AdapterStep::Forward(request),
            Err(reason) => step matches AdapterStep::Answer(frame) && frame@ == failure_frame(
                protocol_id(),
                if length > MAX_FRAME_BYTES {
                    FRAME_TOO_LARGE
                } else {
                    PARSE_ERROR
                },
                reason@,
            ),
        },
{
    match decoded {
        Ok(request) => AdapterStep::Forward(request),
        Err(reason) => {
            let code = if length > MAX_FRAME_BYTES {
                FRAME_TOO_LARGE
            } else {
                PARSE_ERROR
            };
            AdapterStep::Answer(
                ServerFrame::Response(
                    JsonRpcResponse::failure(RequestId::String("protocol".to_owned()), code, reason),
                ),
            )
        },
    }
}

/// The answer to a request that could not be sent to the daemon.
pub fn refuse_request(id: &RequestId, reason: String) -> (frame: ServerFrame)
    ensures
        frame@ == failure_frame(id@, CONNECTION_LOST, reason@),
{
    ServerFrame::Response(JsonRpcResponse::failure(id.copy(), CONNECTION_LOST, reason))
}

/// The frames that an editor gets of all that come for a request: up to the answer, as
/// long as there has been none.
pub open spec fn passed_on(open: bool, frames: Seq<FrameView>) -> Seq<FrameView>
    decreases frames.len(),
{
    if !open || frames.len() == 0 {
        Seq::empty()
    } else {
        seq![frames[0]] + passed_on(!(frames[0] is Response), frames.skip(1))
    }
}

/// The way of the frames of a request to the editor.
#[derive(Debug)]
pub struct FramePassage {
    /// Whether the answer has not passed yet.
    pub open: bool,
}

impl FramePassage {
    /// The way of the frames of a request that has just been sent.
    pub fn new() -> (passage: FramePassage)
        ensures
            passage.open,
    {
        FramePassage { open: true }
    }

    /// Whether a frame is passed on. After the answer nothing is.
    pub fn pass_on(&mut self, frame: &ServerFrame) -> (passes: bool)
        ensures
            passes == old(self).open,
            final(self).open == (old(self).open && !(frame@ is Response)),
            forall|rest: Seq<FrameView>| #[trigger]
                passed_on(old(self).open, seq![frame@] + rest) == (if passes {
                    seq![frame@]
                } else {
                    Seq::empty()
                }) + passed_on(final(self).open, rest),
    {
        let passes = self.open;
        if let ServerFrame::Response(_) = frame {
            self.open = false;
        }
        proof {
            assert forall|rest: Seq<FrameView>| #[trigger]
                passed_on(passes, seq![frame@] + rest) == (if passes {
                    seq![frame@]
                } else {
                    Seq::empty()
                }) + passed_on(self.open, rest) by {
                let all = seq![frame@] + rest;
                assert(all.skip(1) =~= rest);
                if !passes {
                    assert(Seq::<FrameView>::empty() + passed_on(false, rest) =~= Seq::empty());
                }
            }
        }
        passes
    }
}

/// An editor gets at most one answer to a request, and nothing after it.
pub proof fn law_answer_is_the_last_frame(open: bool, frames: Seq<FrameView>, i: int)
    requires
        0 <= i < passed_on(open, frames).len(),
        passed_on(open, frames)[i] is Response,
    ensures
        i == passed_on(open, frames).len() - 1,
    decreases frames.len(),
{
    if i > 0 {
        law_answer_is_the_last_frame(!(frames[0] is Response), frames.skip(1), i - 1);
    } else {
        assert(passed_on(false, frames.skip(1)).len() == 0);
    }
}

/// All frames up to the answer are passed on, with the answer, and none behind it.
pub proof fn law_frames_pass_up_to_the_answer(frames: Seq<FrameView>, n: int)
    requires
        0 <= n <= frames.len(),
        forall|i: int| 0 <= i < n ==> !((#[trigger] frames[i]) is Response),
        n < frames.len() ==> frames[n] is Response,
    ensures
        n < frames.len() ==> passed_on(true, frames) == frames.take(n + 1),
        n == frames.len() ==> passed_on(true, frames) == frames,
        passed_on(false, frames) == Seq::<FrameView>::empty(),
    decreases frames.len(),
{
    if frames.len() > 0 {
        let rest = frames.skip(1);
        if n > 0 {
            assert(!(frames[0] is Response));
            assert forall|i: int| 0 <= i < n - 1 implies !((#[trigger] rest[i]) is Response) by {
                assert(rest[i] == frames[i + 1]);
            }
            law_frames_pass_up_to_the_answer(rest, n - 1);
            if n < frames.len() {
                assert(seq![frames[0]] + rest.take(n) =~= frames.take(n + 1));
            } else {
                assert(seq![frames[0]] + rest =~= frames);
            }
        } else {
            assert(passed_on(false, rest) == Seq::<FrameView>::empty());
            assert(seq![frames[0]] + passed_on(false, rest) =~= frames.take(1));
        }
    } else {
        assert(passed_on(true, frames) =~= frames);
    }
}

} // verus!

//! The side of a client: the requests that wait for frames from the daemon.
use vstd::prelude::*;

use crate::daemon::protocol::{
    failure_frame, frame_request, FrameView, JsonRpcResponse, RequestId, RequestIdView, ServerFrame,
};

verus! {

/// The code of a request whose connection broke.
pub const CONNECTION_LOST: i64 = -32000;

/// The requests that wait for an answer, each with where its frames go.
pub struct DaemonClient<T> {
    pending: Vec<(RequestId, T)>,
    next: u64,
}

impl<T> View for DaemonClient<T> {
    type V = Seq<(RequestIdView, T)>;

    closed spec fn view(&self) -> Seq<(RequestIdView, T)> {
        Seq::new(self.pending@.len(), |i: int| (self.pending@[i].0@, self.pending@[i].1))
    }
}

/// Where a request stands among those that wait.
pub open spec fn waiting_at<T>(pending: Seq<(RequestIdView, T)>, id: RequestIdView) -> Option<int>
    decreases pending.len(),
{
    if pending.len() == 0 {
        None
    } else if pending.last().0 == id {
        Some(pending.len() - 1)
    } else {
        waiting_at(pending.drop_last(), id)
    }
}

/// Where the frames of a request go.
pub open spec fn destination<T>(pending: Seq<(RequestIdView, T)>, id: RequestIdView) -> Option<T> {
    match waiting_at(pending, id) {
        Some(at) => Some(pending[at].1),
        None => None,
    }
}

/// The waiting requests without one of them.
pub open spec fn without<T>(pending: Seq<(RequestIdView, T)>, id: RequestIdView) -> Seq<
    (RequestIdView, T),
> {
    match waiting_at(pending, id) {
        Some(at) => pending.remove(at),
        None => pending,
    }
}

/// Whether no request waits twice.
pub open spec fn all_distinct<T>(pending: Seq<(RequestIdView, T)>) -> bool {
    forall|i: int, j: int|
        0 <= i < pending.len() && 0 <= j < pending.len() && i != j ==> (#[trigger] pending[i]).0 != (
        #[trigger] pending[j]).0
}

proof fn lemma_waiting_at<T>(pending: Seq<(RequestIdView, T)>, id: RequestIdView)
    ensures
        match waiting_at(pending, id) {
            Some(at) => 0 <= at < pending.len() && pending[at].0 == id,
            None => forall|i: int| 0 <= i < pending.len() ==> (#[trigger] pending[i]).0 != id,
        },
    decreases pending.len(),
{
    if pending.len() > 0 && pending.last().0 != id {
        let front = pending.drop_last();
        lemma_waiting_at(front, id);
        if waiting_at(front, id) is None {
            assert forall|i: int| 0 <= i < pending.len() implies (#[trigger] pending[i]).0 != id by {
                if i < front.len() {
                    assert(front[i].0 != id);
                }
            }
        }
    }
}

impl<T> DaemonClient<T> {
    /// No request waits twice.
    pub open spec fn wf(&self) -> bool {
        all_distinct(self@)
    }

    /// The number that the next request gets that comes without an id.
    pub closed spec fn next_id(&self) -> u64 {
        self.next
    }

    /// A client that waits for nothing.
    pub fn new() -> (client: DaemonClient<T>)
        ensures
            client.wf(),
            client@ == Seq::<(RequestIdView, T)>::empty(),
            client.next_id() == 1,
    {
        let client = DaemonClient { pending: Vec::new(), next: 1 };
        assert(client@ =~= Seq::empty());
        client
    }

    fn position(&self, id: &RequestId) -> (at: Option<usize>)
        ensures
            match at {
                Some(at) => waiting_at(self@, id@) == Some(at as int) && at < self@.len(),
                None => waiting_at(self@, id@) is None,
            },
            self.pending@.len() == self@.len(),
    {
        let mut end = self.pending.len();
        assert(self@.take(end as int) =~= self@);
        while end > 0
            invariant
                end <= self.pending@.len(),
                self@.len() == self.pending@.len(),
                waiting_at(self@.take(end as int), id@) == waiting_at(self@, id@),
            decreases end,
        {
            let ghost here = self@.take(end as int);
            assert(here.last() == self@[end - 1]);
            assert(here.drop_last() =~= self@.take(end - 1));
            if self.pending[end - 1].0.same(id) {
                return Some(end - 1);
            }
            end -= 1;
        }
        None
    }

    /// Lets a request wait. It is refused where one with its id waits already.
    pub fn request_with_id(&mut self, id: &RequestId, to: T) -> (out: Result<(), String>)
        requires
            old(self).wf(),
        ensures
            final(self).wf(),
            final(self).next_id() == old(self).next_id(),
            out is Ok <==> waiting_at(old(self)@, id@) is None,
            match out {
                Ok(_) => final(self)@ == old(self)@.push((id@, to)),
                Err(message) => message@ == "请求 id 已在等待响应"@ && final(self)@ == old(self)@,
            },
    {
        if self.position(id).is_some() {
            return Err("请求 id 已在等待响应".to_owned());
        }
        let ghost before = self@;
        self.pending.push((id.copy(), to));
        proof {
            lemma_waiting_at(before, id@);
            assert(self@ =~= before.push((id@, to)));
            assert forall|i: int, j: int|
                0 <= i < self@.len() && 0 <= j < self@.len() && i != j implies (
            #[trigger] self@[i]).0 != (#[trigger] self@[j]).0 by {
                if i < before.len() && j < before.len() {
                    assert(before[i].0 != before[j].0);
                } else if i < before.len() {
                    assert(before[i].0 != id@);
                } else {
                    assert(before[j].0 != id@);
                }
            }
        }
        Ok(())
    }

    /// Lets a request wait under the next number, which is its id; after the largest
    /// number they start over. It is refused where one with that id waits already.
    pub fn request(&mut self, to: T) -> (out: Result<RequestId, String>)
        requires
            old(self).wf(),
        ensures
            final(self).wf(),
            final(self).next_id() == (if old(self).next_id() < u64::MAX {
                old(self).next_id() + 1
            } else {
                0
            }),
            ({
                let id = RequestIdView::Number(old(self).next_id());
                &&& out is Ok <==> waiting_at(old(self)@, id) is None
                &&& match out {
                    Ok(given) => given@ == id && final(self)@ == old(self)@.push((id, to)),
                    Err(message) => message@ == "请求 id 已在等待响应"@ && final(self)@
                        == old(self)@,
                }
            }),
    {
        let id = RequestId::Number(self.next);
        self.next = if self.next < u64::MAX {
            self.next + 1
        } else {
            0
        };
        assert(self@ =~= old(self)@);
        match self.request_with_id(&id, to) {
            Ok(_) => Ok(id),
            Err(message) => Err(message),
        }
    }

    /// Where a frame goes: nowhere if no request waits for it.
    pub fn destination_of(&self, frame: &ServerFrame) -> (to: Option<&T>)
        ensures
            match to {
                Some(to) => destination(self@, frame_request(frame@)) == Some(*to),
                None => destination(self@, frame_request(frame@)) is None,
            },
    {
        let at = match frame {
            ServerFrame::Event(event) => self.position(&event.request_id),
            ServerFrame::Response(response) => self.position(&response.id),
        };
        match at {
            Some(at) => Some(&self.pending[at].1),
            None => None,
        }
    }

    /// Gives up waiting for a request.
    pub fn forget(&mut self, id: &RequestId) -> (to: Option<T>)
        requires
            old(self).wf(),
        ensures
            final(self).wf(),
            final(self).next_id() == old(self).next_id(),
            final(self)@ == without(old(self)@, id@),
            to == destination(old(self)@, id@),
    {
        match self.position(id) {
            Some(at) => {
                let ghost before = self@;
                let (_, to) = self.pending.remove(at);
                proof {
                    assert(self@ =~= before.remove(at as int));
                    assert forall|i: int, j: int|
                        0 <= i < self@.len() && 0 <= j < self@.len() && i != j implies (
                    #[trigger] self@[i]).0 != (#[trigger] self@[j]).0 by {
                        let a = if i < at {
                            i
                        } else {
                            i + 1
                        };
                        let b = if j < at {
                            j
                        } else {
                            j + 1
                        };
                        assert(before[a].0 != before[b].0);
                    }
                }
                Some(to)
            },
            None => None,
        }
    }

    /// Takes note of a frame: after the answer to a request nothing more comes for it.
    pub fn settle(&mut self, frame: &ServerFrame)
        requires
            old(self).wf(),
        ensures
            final(self).wf(),
            final(self).next_id() == old(self).next_id(),
            final(self)@ == (match frame@ {
                FrameView::Event { .. } => old(self)@,
                FrameView::Response { id, .. } => without(old(self)@, id),
            }),
    {
        if let ServerFrame::Response(response) = frame {
            let _ = self.forget(&response.id);
        }
    }

    /// Fails one request: where its failure goes, and the failure itself.
    pub fn fail_pending(&mut self, id: &RequestId, code: i64, message: String) -> (out: Option<
        (T, ServerFrame),
    >)
        requires
            old(self).wf(),
        ensures
            final(self).wf(),
            final(self).next_id() == old(self).next_id(),
            final(self)@ == without(old(self)@, id@),
            match out {
                Some((to, frame)) => destination(old(self)@, id@) == Some(to) && frame@
                    == failure_frame(id@, code, message@),
                None => destination(old(self)@, id@) is None,
            },
    {
        match self.forget(id) {
            Some(to) => Some(
                (
                    to,
                    ServerFrame::Response(JsonRpcResponse::failure(id.copy(), code, message)),
                ),
            ),
            None => None,
        }
    }

    /// Fails all requests, and waits for none any more.
    pub fn fail_all_pending(&mut self, message: &str) -> (out: Vec<(T, ServerFrame)>)
        ensures
            final(self).wf(),
            final(self).next_id() == old(self).next_id(),
            final(self)@ == Seq::<(RequestIdView, T)>::empty(),
            out@.len() == old(self)@.len(),
            forall|i: int|
                0 <= i < out@.len() ==> (#[trigger] out@[i]).0 == old(self)@[i].1 && out@[i].1@
                    == failure_frame(old(self)@[i].0, CONNECTION_LOST, message@),
    {
        let ghost before = self@;
        let mut list: Vec<(RequestId, T)> = Vec::new();
        std::mem::swap(&mut self.pending, &mut list);
        assert(self@ =~= Seq::empty());
        let ghost all = list@;
        let mut out: Vec<(T, ServerFrame)> = Vec::new();
        for entry in iter: list
            invariant
                iter.seq() == all,
                before.len() == all.len(),
                forall|i: int|
                    0 <= i < all.len() ==> before[i] == ((#[trigger] all[i]).0@, all[i].1),
                out@.len() == iter.index(),
                forall|i: int|
                    0 <= i < out@.len() ==> (#[trigger] out@[i]).0 == before[i].1 && out@[i].1@
                        == failure_frame(before[i].0, CONNECTION_LOST, message@),
        {
            assert(all[iter.index() as int] == entry);
            let (id, to) = entry;
            out.push(
                (
                    to,
                    ServerFrame::Response(
                        JsonRpcResponse::failure(id, CONNECTION_LOST, message.to_owned()),
                    ),
                ),
            );
        }
        out
    }
}

/// An answer ends the wait for its request, and for no other.
pub proof fn law_answer_ends_the_wait<T>(
    pending: Seq<(RequestIdView, T)>,
    id: RequestIdView,
    other: RequestIdView,
)
    requires
        all_distinct(pending),
        other != id,
    ensures
        destination(without(pending, id), id) is None,
        destination(without(pending, id), other) == destination(pending, other),
{
    let left = without(pending, id);
    lemma_waiting_at(pending, id);
    lemma_waiting_at(pending, other);
    lemma_waiting_at(left, id);
    lemma_waiting_at(left, other);
    if let Some(at) = waiting_at(pending, id) {
        if let Some(k) = waiting_at(left, id) {
            let i = if k < at {
                k
            } else {
                k + 1
            };
            assert(pending[i].0 == id);
        }
        if let Some(k) = waiting_at(pending, other) {
            let i = if k < at {
                k
            } else {
                k - 1
            };
            assert(left[i] == pending[k]);
            assert(left[i].0 == other);
            let m = waiting_at(left, other)->0;
            let n = if m < at {
                m
            } else {
                m + 1
            };
            assert(pending[n] == left[m]);
            assert(n == k);
        } else if let Some(m) = waiting_at(left, other) {
            let n = if m < at {
                m
            } else {
                m + 1
            };
            assert(pending[n] == left[m]);
        }
    }
}

/// What comes for a request goes to whoever waits for it, and to nobody where nobody does.
pub proof fn law_answers_reach_who_waits<T>(
    pending: Seq<(RequestIdView, T)>,
    id: RequestIdView,
    waiter: T,
    i: int,
)
    requires
        all_distinct(pending),
    ensures
        0 <= i < pending.len() ==> destination(pending, pending[i].0) == Some(pending[i].1),
        destination(pending.push((id, waiter)), id) == Some(waiter),
        (forall|k: int| 0 <= k < pending.len() ==> (#[trigger] pending[k]).0 != id) ==> destination(
            pending,
            id,
        ) is None,
{
    lemma_waiting_at(pending, id);
    if 0 <= i < pending.len() {
        lemma_waiting_at(pending, pending[i].0);
    }
}

/// A request is sent under a number that nothing waits for; its answer reaches whoever sent
/// it, and after it nobody waits for it.
pub proof fn law_requests_are_answered_once<T>(
    asking: &mut DaemonClient<T>,
    settling: &mut DaemonClient<T>,
    to: T,
    out: Result<RequestId, String>,
    frame: &ServerFrame,
)
    requires
        old(asking).wf(),
        old(settling).wf(),
        call_ensures(DaemonClient::<T>::request, (asking, to), out),
        call_ensures(DaemonClient::<T>::settle, (settling, frame), ()),
        out is Ok,
        frame@ matches FrameView::Response { id, .. } && id == (out->Ok_0)@,
    ensures
        destination(old(asking)@, (out->Ok_0)@) is None,
        destination(final(asking)@, (out->Ok_0)@) == Some(to),
        old(settling)@ == final(asking)@ ==> destination(final(settling)@, (out->Ok_0)@) is None,
{
    let id = (out->Ok_0)@;
    let pending = old(asking)@;
    law_answers_reach_who_waits(pending, id, to, 0);
    let other = match id {
        RequestIdView::Number(_) => RequestIdView::String(Seq::empty()),
        RequestIdView::String(_) => RequestIdView::Number(0),
    };
    law_answer_ends_the_wait(old(settling)@, id, other);
}

} // verus!

//! The requests that are in flight and the results that wait.

use vstd::prelude::*;

use super::image_loader::LoadRequest;
use super::image_loader::LoadResult;

verus! {

/// The mathematical content of a [`PendingRequests`].
pub struct PendingView {
    /// The requests in flight, in the order in which they were issued: the
    /// request id, and whether the request was cancelled.
    pub requests: Seq<(u32, bool)>,
    /// The results that wait to be consumed, by request id, in the order in
    /// which the first result of each id arrived.
    pub results: Seq<(u32, Seq<LoadResult>)>,
}

impl PendingView {
    /// No request id is in flight twice, and none has two result buffers.
    pub open spec fn wf(self) -> bool {
        &&& forall|i: int, j: int|
            0 <= i < j < self.requests.len() ==> (#[trigger] self.requests[i]).0
                != (#[trigger] self.requests[j]).0
        &&& forall|i: int, j: int|
            0 <= i < j < self.results.len() ==> (#[trigger] self.results[i]).0
                != (#[trigger] self.results[j]).0
    }

    pub open spec fn empty() -> PendingView {
        PendingView { requests: Seq::empty(), results: Seq::empty() }
    }

    pub open spec fn contains(self, id: u32) -> bool {
        exists|i: int| 0 <= i < self.requests.len() && (#[trigger] self.requests[i]).0 == id
    }

    /// Where the request with this id stands among those in flight.
    pub open spec fn position(self, id: u32) -> int {
        choose|i: int| 0 <= i < self.requests.len() && (#[trigger] self.requests[i]).0 == id
    }

    /// `None` for an id that is not in flight, else whether its request was
    /// cancelled.
    pub open spec fn cancelled(self, id: u32) -> Option<bool> {
        if self.contains(id) {
            Some(self.requests[self.position(id)].1)
        } else {
            None
        }
    }

    /// Whether results wait to be consumed that answer the request `id`, as
    /// far as the request is known to be live: in flight and not cancelled.
    pub open spec fn live(self, id: u32) -> bool {
        self.cancelled(id) == Some(false)
    }

    pub open spec fn has_results(self, id: u32) -> bool {
        exists|i: int| 0 <= i < self.results.len() && (#[trigger] self.results[i]).0 == id
    }

    pub open spec fn result_position(self, id: u32) -> int {
        choose|i: int| 0 <= i < self.results.len() && (#[trigger] self.results[i]).0 == id
    }

    /// The results that wait for `id`, in the order in which they arrived.
    pub open spec fn buffered(self, id: u32) -> Seq<LoadResult> {
        if self.has_results(id) {
            self.results[self.result_position(id)].1
        } else {
            Seq::empty()
        }
    }

    /// The ids for which results wait.
    pub open spec fn result_ids(self) -> Seq<u32> {
        Seq::new(self.results.len(), |i: int| self.results[i].0)
    }

    pub open spec fn add_request(self, id: u32) -> PendingView {
        PendingView { requests: self.requests.push((id, false)), ..self }
    }

    pub open spec fn cancel_all(self) -> PendingView {
        PendingView {
            requests: Seq::new(self.requests.len(), |i: int| (self.requests[i].0, true)),
            ..self
        }
    }

    pub open spec fn add_load_result(self, result: LoadResult) -> PendingView {
        let id = result.spec_req_id();
        if self.has_results(id) {
            let at = self.result_position(id);
            PendingView {
                results: self.results.update(at, (id, self.results[at].1.push(result))),
                ..self
            }
        } else {
            PendingView { results: self.results.push((id, seq![result])), ..self }
        }
    }

    /// The tracker after it has buffered the results in their order.
    pub open spec fn add_load_results(self, results: Seq<LoadResult>) -> PendingView
        decreases results.len(),
    {
        if results.len() == 0 {
            self
        } else {
            self.add_load_results(results.drop_last()).add_load_result(results.last())
        }
    }

    pub open spec fn take_results(self, id: u32) -> PendingView {
        if self.has_results(id) {
            PendingView { results: self.results.remove(self.result_position(id)), ..self }
        } else {
            self
        }
    }

    pub open spec fn set_finished(self, id: u32) -> PendingView {
        if self.contains(id) {
            PendingView { requests: self.requests.remove(self.position(id)), ..self }
        } else {
            self
        }
    }

    /// In a well-formed tracker the request with a given id stands at one
    /// place only.
    pub proof fn lemma_position(self, id: u32, at: int)
        requires
            self.wf(),
            0 <= at < self.requests.len(),
            self.requests[at].0 == id,
        ensures
            self.contains(id),
            self.position(id) == at,
            self.cancelled(id) == Some(self.requests[at].1),
    {
        let p = self.position(id);
        assert(self.requests[p].0 == id);
        if p < at {
            assert(self.requests[p].0 != self.requests[at].0);
        } else if at < p {
            assert(self.requests[at].0 != self.requests[p].0);
        }
    }

    pub proof fn lemma_result_position(self, id: u32, at: int)
        requires
            self.wf(),
            0 <= at < self.results.len(),
            self.results[at].0 == id,
        ensures
            self.has_results(id),
            self.result_position(id) == at,
            self.buffered(id) == self.results[at].1,
    {
        let p = self.result_position(id);
        assert(self.results[p].0 == id);
        if p < at {
            assert(self.results[p].0 != self.results[at].0);
        } else if at < p {
            assert(self.results[at].0 != self.results[p].0);
        }
    }

    /// After all requests were cancelled, every request that was in flight
    /// is still in flight, and cancelled.
    pub proof fn lemma_cancel_all(self, id: u32)
        requires
            self.wf(),
        ensures
            self.cancel_all().wf(),
            self.cancel_all().contains(id) == self.contains(id),
            self.contains(id) ==> self.cancel_all().cancelled(id) == Some(true),
            !self.contains(id) ==> self.cancel_all().cancelled(id) == None::<bool>,
    {
        let after = self.cancel_all();
        assert forall|i: int, j: int| 0 <= i < j < after.requests.len() implies (
        #[trigger] after.requests[i]).0 != (#[trigger] after.requests[j]).0 by {
            assert(self.requests[i].0 != self.requests[j].0);
        }
        if self.contains(id) {
            let at = self.position(id);
            assert(after.requests[at].0 == id);
            after.lemma_position(id, at);
        }
        if after.contains(id) {
            let at = after.position(id);
            assert(self.requests[at].0 == id);
        }
    }

    /// Registering a request that is not in flight keeps the tracker
    /// well-formed, and says nothing new of the other requests.
    pub proof fn lemma_add_request(self, id: u32, other: u32)
        requires
            self.wf(),
            !self.contains(id),
        ensures
            self.add_request(id).wf(),
            self.add_request(id).cancelled(id) == Some(false),
            other != id ==> self.add_request(id).cancelled(other) == self.cancelled(other),
            self.add_request(id).contains(other) == (other == id || self.contains(other)),
    {
        let after = self.add_request(id);
        let last = self.requests.len() as int;
        assert forall|i: int, j: int| 0 <= i < j < after.requests.len() implies (
        #[trigger] after.requests[i]).0 != (#[trigger] after.requests[j]).0 by {
            if j < last {
                assert(self.requests[i].0 != self.requests[j].0);
            } else {
                assert(self.requests[i].0 != id);
            }
        }
        assert(after.requests[last].0 == id);
        after.lemma_position(id, last);
        if other != id {
            if self.contains(other) {
                let at = self.position(other);
                assert(after.requests[at] == self.requests[at]);
                after.lemma_position(other, at);
            }
            if after.contains(other) {
                let at = after.position(other);
                assert(at < last);
                assert(self.requests[at].0 == other);
            }
        }
    }

    /// Removing the request `id` keeps the tracker well-formed, and says
    /// nothing new of the other requests.
    pub proof fn lemma_set_finished(self, id: u32, other: u32)
        requires
            self.wf(),
        ensures
            self.set_finished(id).wf(),
            !self.set_finished(id).contains(id),
            other != id ==> self.set_finished(id).cancelled(other) == self.cancelled(other),
            other != id ==> self.set_finished(id).contains(other) == self.contains(other),
            self.contains(id) ==> self.set_finished(id).requests.len() + 1
                == self.requests.len(),
    {
        let after = self.set_finished(id);
        if self.contains(id) {
            let gone = self.position(id);
            assert(self.requests[gone].0 == id);
            assert forall|i: int, j: int| 0 <= i < j < after.requests.len() implies (
            #[trigger] after.requests[i]).0 != (#[trigger] after.requests[j]).0 by {
                let oi = if i < gone { i } else { i + 1 };
                let oj = if j < gone { j } else { j + 1 };
                assert(self.requests[oi].0 != self.requests[oj].0);
            }
            if after.contains(id) {
                let at = after.position(id);
                let o = if at < gone { at } else { at + 1 };
                assert(self.requests[o].0 == id);
                self.lemma_position(id, o);
            }
            if other != id {
                if self.contains(other) {
                    let at = self.position(other);
                    assert(self.requests[at].0 == other);
                    let n = if at < gone { at } else { at - 1 };
                    assert(after.requests[n] == self.requests[at]);
                    after.lemma_position(other, n);
                }
                if after.contains(other) {
                    let at = after.position(other);
                    let o = if at < gone { at } else { at + 1 };
                    assert(self.requests[o].0 == other);
                    self.lemma_position(other, o);
                }
            }
        }
    }

    /// Buffering a result keeps the tracker well-formed; the result is the
    /// last that waits for its id, and the other buffers are as before.
    pub proof fn lemma_add_load_result(self, result: LoadResult, other: u32)
        requires
            self.wf(),
        ensures
            self.add_load_result(result).wf(),
            self.add_load_result(result).buffered(result.spec_req_id()) == self.buffered(
                result.spec_req_id(),
            ).push(result),
            other != result.spec_req_id() ==> self.add_load_result(result).buffered(other)
                == self.buffered(other),
            self.add_load_result(result).has_results(other) == (other == result.spec_req_id()
                || self.has_results(other)),
    {
        let id = result.spec_req_id();
        let after = self.add_load_result(result);
        if self.has_results(id) {
            let at = self.result_position(id);
            assert(self.results[at].0 == id);
            assert forall|i: int, j: int| 0 <= i < j < after.results.len() implies (
            #[trigger] after.results[i]).0 != (#[trigger] after.results[j]).0 by {
                assert(self.results[i].0 != self.results[j].0);
            }
            after.lemma_result_position(id, at);
            if other != id {
                if self.has_results(other) {
                    let o = self.result_position(other);
                    assert(self.results[o].0 == other);
                    assert(after.results[o] == self.results[o]);
                    after.lemma_result_position(other, o);
                }
                if after.has_results(other) {
                    let o = after.result_position(other);
                    assert(after.results[o].0 == other);
                    assert(self.results[o].0 == other);
                    self.lemma_result_position(other, o);
                }
            }
        } else {
            let last = self.results.len() as int;
            assert forall|i: int, j: int| 0 <= i < j < after.results.len() implies (
            #[trigger] after.results[i]).0 != (#[trigger] after.results[j]).0 by {
                if j < last {
                    assert(self.results[i].0 != self.results[j].0);
                } else {
                    assert(self.results[i].0 != id);
                }
            }
            assert(after.results[last].0 == id);
            after.lemma_result_position(id, last);
            assert(self.buffered(id).push(result) =~= seq![result]);
            if other != id {
                if self.has_results(other) {
                    let o = self.result_position(other);
                    assert(self.results[o].0 == other);
                    assert(after.results[o] == self.results[o]);
                    after.lemma_result_position(other, o);
                }
                if after.has_results(other) {
                    let o = after.result_position(other);
                    assert(after.results[o].0 == other);
                    assert(o < last);
                    assert(self.results[o].0 == other);
                    self.lemma_result_position(other, o);
                }
            }
        }
    }

    /// Taking the results of `id` keeps the tracker well-formed, leaves
    /// none for `id` and leaves the other buffers as they were.
    pub proof fn lemma_take_results(self, id: u32, other: u32)
        requires
            self.wf(),
        ensures
            self.take_results(id).wf(),
            !self.take_results(id).has_results(id),
            other != id ==> self.take_results(id).buffered(other) == self.buffered(other),
            other != id ==> self.take_results(id).has_results(other) == self.has_results(other),
    {
        let after = self.take_results(id);
        if self.has_results(id) {
            let gone = self.result_position(id);
            assert(self.results[gone].0 == id);
            assert forall|i: int, j: int| 0 <= i < j < after.results.len() implies (
            #[trigger] after.results[i]).0 != (#[trigger] after.results[j]).0 by {
                let oi = if i < gone { i } else { i + 1 };
                let oj = if j < gone { j } else { j + 1 };
                assert(self.results[oi].0 != self.results[oj].0);
            }
            if after.has_results(id) {
                let at = after.result_position(id);
                let o = if at < gone { at } else { at + 1 };
                assert(self.results[o].0 == id);
                self.lemma_result_position(id, o);
            }
            if other != id {
                if self.has_results(other) {
                    let at = self.result_position(other);
                    assert(self.results[at].0 == other);
                    let n = if at < gone { at } else { at - 1 };
                    assert(after.results[n] == self.results[at]);
                    after.lemma_result_position(other, n);
                }
                if after.has_results(other) {
                    let at = after.result_position(other);
                    let o = if at < gone { at } else { at + 1 };
                    assert(self.results[o].0 == other);
                    self.lemma_result_position(other, o);
                }
            }
        }
    }
}

/// A request that is in flight.
#[derive(Debug)]
struct PendingRequest {
    request: LoadRequest,
    /// Set when the caller no longer wants the result. The decode backend
    /// may still finish the work; what it sends is then discarded.
    cancelled: bool,
}

/// The results that wait to be consumed for one request id.
#[derive(Debug)]
struct BufferedResults {
    req_id: u32,
    results: Vec<LoadResult>,
}

/// Which requests are in flight, which of them were cancelled, and the
/// results that have arrived and were not consumed yet.
#[derive(Debug)]
pub struct PendingRequests {
    requests: Vec<PendingRequest>,
    results: Vec<BufferedResults>,
}

impl View for PendingRequests {
    type V = PendingView;

    closed spec fn view(&self) -> PendingView {
        PendingView {
            requests: Seq::new(
                self.requests@.len(),
                |i: int| (self.requests@[i].request.req_id, self.requests@[i].cancelled),
            ),
            results: Seq::new(
                self.results@.len(),
                |i: int| (self.results@[i].req_id, self.results@[i].results@),
            ),
        }
    }
}

impl PendingRequests {
    pub fn new() -> (pending: PendingRequests)
        ensures
            pending@ == PendingView::empty(),
            pending@.wf(),
    {
        let pending = PendingRequests { requests: Vec::new(), results: Vec::new() };
        assert(pending@.requests =~= Seq::empty());
        assert(pending@.results =~= Seq::empty());
        pending
    }

    fn find_request(&self, id: u32) -> (found: Option<usize>)
        requires
            self@.wf(),
        ensures
            found is Some == self@.contains(id),
            found matches Some(at) ==> at < self@.requests.len() && self@.position(id) == at,
    {
        let mut i: usize = 0;
        while i < self.requests.len()
            invariant
                self@.wf(),
                i <= self.requests@.len(),
                self@.requests.len() == self.requests@.len(),
                forall|j: int| 0 <= j < i ==> (#[trigger] self@.requests[j]).0 != id,
            decreases self.requests@.len() - i,
        {
            if self.requests[i].request.req_id == id {
                proof {
                    self@.lemma_position(id, i as int);
                }
                return Some(i);
            }
            i = i + 1;
        }
        None
    }

    fn find_results(&self, id: u32) -> (found: Option<usize>)
        requires
            self@.wf(),
        ensures
            found is Some == self@.has_results(id),
            found matches Some(at) ==> at < self@.results.len() && self@.result_position(id)
                == at,
    {
        let mut i: usize = 0;
        while i < self.results.len()
            invariant
                self@.wf(),
                i <= self.results@.len(),
                self@.results.len() == self.results@.len(),
                forall|j: int| 0 <= j < i ==> (#[trigger] self@.results[j]).0 != id,
            decreases self.results@.len() - i,
        {
            if self.results[i].req_id == id {
                proof {
                    self@.lemma_result_position(id, i as int);
                }
                return Some(i);
            }
            i = i + 1;
        }
        None
    }

    /// Registers a request that was just issued. No request with the same
    /// id may be in flight: ask `contains` first.
    pub fn add_request(&mut self, request: LoadRequest)
        requires
            old(self)@.wf(),
            !old(self)@.contains(request.req_id),
        ensures
            final(self)@ == old(self)@.add_request(request.req_id),
            final(self)@.wf(),
    {
        proof {
            old(self)@.lemma_add_request(request.req_id, request.req_id);
        }
        let ghost before = self@;
        let ghost id = request.req_id;
        self.requests.push(PendingRequest { request, cancelled: false });
        assert(self@.requests =~= before.requests.push((id, false)));
        assert(self@.results =~= before.results);
    }

    pub fn contains(&self, id: u32) -> (found: bool)
        requires
            self@.wf(),
        ensures
            found == self@.contains(id),
    {
        self.find_request(id).is_some()
    }

    /// The number of requests in flight.
    pub fn len(&self) -> (count: usize)
        ensures
            count == self@.requests.len(),
    {
        self.requests.len()
    }

    /// `None` for an id that is not in flight, else whether its request was
    /// cancelled.
    pub fn cancelled(&self, id: u32) -> (state: Option<bool>)
        requires
            self@.wf(),
        ensures
            state == self@.cancelled(id),
    {
        match self.find_request(id) {
            Some(at) => Some(self.requests[at].cancelled),
            None => None,
        }
    }

    /// Cancels every request in flight.
    pub fn cancel_all(&mut self)
        requires
            old(self)@.wf(),
        ensures
            final(self)@ == old(self)@.cancel_all(),
            final(self)@.wf(),
    {
        proof {
            old(self)@.lemma_cancel_all(0);
        }
        let ghost before = self@;
        let mut i: usize = 0;
        while i < self.requests.len()
            invariant
                before.wf(),
                i <= self.requests@.len(),
                self@.results == before.results,
                self@.requests.len() == before.requests.len(),
                self.requests@.len() == before.requests.len(),
                forall|k: int|
                    0 <= k < before.requests.len() ==> (#[trigger] self@.requests[k]).0
                        == before.requests[k].0,
                forall|k: int| 0 <= k < i ==> (#[trigger] self@.requests[k]).1,
                forall|k: int|
                    i <= k < before.requests.len() ==> (#[trigger] self@.requests[k]).1
                        == before.requests[k].1,
            decreases self.requests@.len() - i,
        {
            let ghost step = self@;
            self.requests[i].cancelled = true;
            assert(self@.results =~= step.results);
            assert(self@.requests =~= step.requests.update(i as int, (step.requests[i as int].0, true)));
            i = i + 1;
        }
        assert(self@.requests =~= before.cancel_all().requests);
    }

    /// Buffers a result of the decode backend until it is consumed.
    pub fn add_load_result(&mut self, result: LoadResult)
        requires
            old(self)@.wf(),
        ensures
            final(self)@ == old(self)@.add_load_result(result),
            final(self)@.wf(),
    {
        let id = result.req_id();
        let ghost before = self@;
        proof {
            before.lemma_add_load_result(result, id);
        }
        match self.find_results(id) {
            Some(at) => {
                self.results[at].results.push(result);
                assert(self@.results =~= before.add_load_result(result).results);
                assert(self@.requests =~= before.requests);
            },
            None => {
                let mut results: Vec<LoadResult> = Vec::new();
                results.push(result);
                self.results.push(BufferedResults { req_id: id, results });
                assert(self@.results =~= before.add_load_result(result).results);
                assert(self@.requests =~= before.requests);
            },
        }
    }

    /// Removes and returns the results that wait for `id`, in the order in
    /// which they arrived; `None` where none waits.
    pub fn take_results(&mut self, id: u32) -> (results: Option<Vec<LoadResult>>)
        requires
            old(self)@.wf(),
        ensures
            final(self)@ == old(self)@.take_results(id),
            final(self)@.wf(),
            results is Some == old(self)@.has_results(id),
            results matches Some(r) ==> r@ == old(self)@.buffered(id),
    {
        let ghost before = self@;
        proof {
            before.lemma_take_results(id, id);
        }
        match self.find_results(id) {
            Some(at) => {
                let entry = self.results.remove(at);
                assert(self@.results =~= before.take_results(id).results);
                assert(self@.requests =~= before.requests);
                Some(entry.results)
            },
            None => None,
        }
    }

    /// Forgets the request `id`, which was answered to the end.
    pub fn set_finished(&mut self, id: u32)
        requires
            old(self)@.wf(),
        ensures
            final(self)@ == old(self)@.set_finished(id),
            final(self)@.wf(),
    {
        let ghost before = self@;
        proof {
            before.lemma_set_finished(id, id);
        }
        match self.find_request(id) {
            Some(at) => {
                let _ = self.requests.remove(at);
                assert(self@.requests =~= before.set_finished(id).requests);
                assert(self@.results =~= before.results);
            },
            None => {},
        }
    }

    /// The ids for which results wait, in the order in which the first
    /// result of each arrived.
    pub fn get_all_ids(&self) -> (ids: Vec<u32>)
        ensures
            ids@ == self@.result_ids(),
    {
        let mut ids: Vec<u32> = Vec::new();
        let mut i: usize = 0;
        while i < self.results.len()
            invariant
                i <= self.results@.len(),
                ids@.len() == i,
                forall|k: int| 0 <= k < i ==> ids@[k] == self.results@[k].req_id,
            decreases self.results@.len() - i,
        {
            ids.push(self.results[i].req_id);
            i = i + 1;
        }
        assert(ids@ =~= self@.result_ids());
        ids
    }
}

} // verus!

//! The retry loop of one probe task, as a state machine.
//!
//! A prober never gives up and never reports failure: an attempt that does
//! not find the target ready leads to the next attempt, and the first one that
//! does ends the loop. The caller makes the attempts and reports each result.

use vstd::prelude::*;
use crate::address::SocketAddress;
use crate::http_url::HttpUrl;
use crate::target::{ProbeTarget, TargetView};

verus! {

/// Where a probe task stands. `Pending` (no attempt reported yet) and
/// `Retrying` (every attempt so far failed) both ask for an attempt; `Ready`
/// is final.
#[derive(Clone, Copy, Debug, PartialEq, Eq, Structural)]
pub enum ProbeState {
    Pending,
    Retrying,
    Ready,
}

/// How a probe task ends. There is no failure to report.
#[derive(Clone, Copy, Debug, PartialEq, Eq, Structural)]
pub enum ProbeOutcome {
    Ready,
}

/// What the caller is to do next for a probe task.
#[derive(Clone, Copy, Debug, PartialEq, Eq, Structural)]
pub enum ProbeStep {
    /// Make one more attempt, at once, and report its result.
    Attempt,
    /// Stop: the target is ready.
    Finished(ProbeOutcome),
}

/// What one attempt to open a TCP connection came to. Why it failed is of
/// no interest.
#[derive(Clone, Copy, Debug, PartialEq, Eq, Structural)]
pub enum ConnectResult {
    Connected,
    Failed,
}

/// What one GET request came to: a response with its status code, or no
/// response at all.
#[derive(Clone, Copy, Debug, PartialEq, Eq, Structural)]
pub enum HttpResult {
    Response { status: u16 },
    TransportError,
}

/// A status code in the 2xx range.
pub open spec fn is_success_status(status: u16) -> bool {
    200 <= status <= 299
}

impl ConnectResult {
    /// Whether this attempt found the target ready: the connection was
    /// established.
    pub open spec fn ready(self) -> bool {
        self is Connected
    }
}

impl HttpResult {
    /// Whether this attempt found the target ready: a response came, and its
    /// status is 2xx.
    pub open spec fn ready(self) -> bool {
        self matches HttpResult::Response { status } && is_success_status(status)
    }
}

/// Whether one of `attempts` found the target ready.
pub open spec fn found_ready(attempts: Seq<bool>) -> bool {
    exists|i: int| 0 <= i < attempts.len() && attempts[i]
}

/// The state of a task once `attempts` have been reported, each entry
/// telling whether that attempt found the target ready: ready once one of
/// them did, and until then retrying, or pending where there was none.
pub open spec fn state_after(attempts: Seq<bool>) -> ProbeState {
    if found_ready(attempts) {
        ProbeState::Ready
    } else if attempts.len() == 0 {
        ProbeState::Pending
    } else {
        ProbeState::Retrying
    }
}

/// The step of the state machine: the state that follows `state` when one
/// more attempt is reported, `ready` telling whether it found the target
/// ready. Nothing leads out of `Ready`, and only a success leads into it.
pub open spec fn advance(state: ProbeState, ready: bool) -> ProbeState {
    if state is Ready || ready {
        ProbeState::Ready
    } else {
        ProbeState::Retrying
    }
}

/// What a task in `state` asks of the caller.
pub open spec fn step_in(state: ProbeState) -> ProbeStep {
    if state is Ready {
        ProbeStep::Finished(ProbeOutcome::Ready)
    } else {
        ProbeStep::Attempt
    }
}

/// Tells whether `status` is a 2xx status code.
pub fn is_success(status: u16) -> (ok: bool)
    ensures
        ok == is_success_status(status),
{
    200 <= status && status <= 299
}

/// The loop's state together with the attempts that led to it.
pub struct RetryLoop {
    state: ProbeState,
    attempts: Ghost<Seq<bool>>,
}

impl View for RetryLoop {
    type V = Seq<bool>;

    /// The attempts reported so far, oldest first: `true` for one that found
    /// the target ready.
    closed spec fn view(&self) -> Seq<bool> {
        self.attempts@
    }
}

impl RetryLoop {
    #[verifier::type_invariant]
    spec fn consistent(&self) -> bool {
        self.state == state_after(self.attempts@)
    }

    /// A loop of which no attempt has been reported.
    pub fn new() -> (fresh: RetryLoop)
        ensures
            fresh@ == Seq::<bool>::empty(),
    {
        RetryLoop { state: ProbeState::Pending, attempts: Ghost(Seq::empty()) }
    }

    /// The current state.
    pub fn state(&self) -> (state: ProbeState)
        ensures
            state == state_after(self@),
    {
        proof {
            use_type_invariant(self);
        }
        self.state
    }

    /// What to do next: another attempt, unless the target is ready.
    pub fn next_step(&self) -> (step: ProbeStep)
        ensures
            step == step_in(state_after(self@)),
    {
        proof {
            use_type_invariant(self);
        }
        match self.state {
            ProbeState::Ready => ProbeStep::Finished(ProbeOutcome::Ready),
            _ => ProbeStep::Attempt,
        }
    }

    /// Takes in the result of one attempt.
    pub fn record(&mut self, ready: bool)
        ensures
            final(self)@ == old(self)@.push(ready),
    {
        proof {
            use_type_invariant(&*self);
            lemma_state_advances(self.attempts@, ready);
        }
        let next = match self.state {
            ProbeState::Ready => ProbeState::Ready,
            _ => if ready {
                ProbeState::Ready
            } else {
                ProbeState::Retrying
            },
        };
        *self = RetryLoop { state: next, attempts: Ghost(self.attempts@.push(ready)) };
    }
}

/// A prober as contracts see it: what it probes, and the attempts reported to
/// it so far, oldest first, `true` for one that found the target ready.
pub struct ProberView<T> {
    pub target: T,
    pub attempts: Seq<bool>,
}

/// The retry loop for one TCP address. The caller tries to connect, drops
/// the connection at once if it got one, and reports the result.
pub struct SocketProber {
    address: SocketAddress,
    progress: RetryLoop,
}

impl View for SocketProber {
    type V = ProberView<SocketAddress>;

    closed spec fn view(&self) -> ProberView<SocketAddress> {
        ProberView { target: self.address, attempts: self.progress@ }
    }
}

impl SocketProber {
    /// A prober for `address` that has seen no attempt yet.
    pub fn new(address: SocketAddress) -> (prober: SocketProber)
        ensures
            prober@ == (ProberView { target: address, attempts: Seq::<bool>::empty() }),
    {
        SocketProber { address, progress: RetryLoop::new() }
    }

    /// The address to connect to.
    pub fn address(&self) -> (address: SocketAddress)
        ensures
            address == self@.target,
    {
        self.address
    }

    /// The current state.
    pub fn state(&self) -> (state: ProbeState)
        ensures
            state == state_after(self@.attempts),
    {
        self.progress.state()
    }

    /// What to do next: connect once more, unless a connection was already
    /// established.
    pub fn next_step(&self) -> (step: ProbeStep)
        ensures
            step == step_in(state_after(self@.attempts)),
    {
        self.progress.next_step()
    }

    /// Takes in the result of one connection attempt.
    pub fn observe(&mut self, result: ConnectResult)
        ensures
            final(self)@ == (ProberView {
                target: old(self)@.target,
                attempts: old(self)@.attempts.push(result.ready()),
            }),
    {
        let ready = match result {
            ConnectResult::Connected => true,
            ConnectResult::Failed => false,
        };
        self.progress.record(ready);
    }
}

/// The retry loop for one URL. The caller sends a GET request and reports
/// what came back; the body of a response is of no interest.
pub struct HttpProber {
    url: HttpUrl,
    progress: RetryLoop,
}

impl View for HttpProber {
    type V = ProberView<Seq<char>>;

    closed spec fn view(&self) -> ProberView<Seq<char>> {
        ProberView { target: self.url@, attempts: self.progress@ }
    }
}

impl HttpProber {
    /// A prober for `url` that has seen no attempt yet.
    pub fn new(url: HttpUrl) -> (prober: HttpProber)
        ensures
            prober@ == (ProberView { target: url@, attempts: Seq::<bool>::empty() }),
    {
        HttpProber { url, progress: RetryLoop::new() }
    }

    /// The URL to request.
    pub fn url(&self) -> (url: &HttpUrl)
        ensures
            url@ == self@.target,
    {
        &self.url
    }

    /// The current state.
    pub fn state(&self) -> (state: ProbeState)
        ensures
            state == state_after(self@.attempts),
    {
        self.progress.state()
    }

    /// What to do next: send one more request, unless a 2xx response was
    /// already seen.
    pub fn next_step(&self) -> (step: ProbeStep)
        ensures
            step == step_in(state_after(self@.attempts)),
    {
        self.progress.next_step()
    }

    /// Takes in the result of one request.
    pub fn observe(&mut self, result: HttpResult)
        ensures
            final(self)@ == (ProberView {
                target: old(self)@.target,
                attempts: old(self)@.attempts.push(result.ready()),
            }),
    {
        let ready = match result {
            HttpResult::Response { status } => is_success(status),
            HttpResult::TransportError => false,
        };
        self.progress.record(ready);
    }
}

/// The work of one probe task: the prober that fits its target.
pub enum ProbeTask {
    Socket(SocketProber),
    Http(HttpProber),
}

impl ProbeTask {
    /// The target that the task probes.
    pub open spec fn target(&self) -> TargetView {
        match self {
            ProbeTask::Socket(prober) => TargetView::Tcp(prober@.target),
            ProbeTask::Http(prober) => TargetView::Http(prober@.target),
        }
    }

    /// The attempts reported to the task so far.
    pub open spec fn attempts(&self) -> Seq<bool> {
        match self {
            ProbeTask::Socket(prober) => prober@.attempts,
            ProbeTask::Http(prober) => prober@.attempts,
        }
    }

    /// The task for `target`, with no attempt made yet.
    pub fn new(target: ProbeTarget) -> (task: ProbeTask)
        ensures
            task.target() == target@,
            task.attempts() == Seq::<bool>::empty(),
    {
        match target {
            ProbeTarget::Tcp(address) => ProbeTask::Socket(SocketProber::new(address)),
            ProbeTarget::Http(url) => ProbeTask::Http(HttpProber::new(url)),
        }
    }

    /// The current state.
    pub fn state(&self) -> (state: ProbeState)
        ensures
            state == state_after(self.attempts()),
    {
        match self {
            ProbeTask::Socket(prober) => prober.state(),
            ProbeTask::Http(prober) => prober.state(),
        }
    }

    /// What to do next for the task.
    pub fn next_step(&self) -> (step: ProbeStep)
        ensures
            step == step_in(state_after(self.attempts())),
    {
        match self {
            ProbeTask::Socket(prober) => prober.next_step(),
            ProbeTask::Http(prober) => prober.next_step(),
        }
    }
}

/// For each connection attempt of `results`, whether it found the target
/// ready.
pub open spec fn connect_readiness(results: Seq<ConnectResult>) -> Seq<bool> {
    results.map_values(|r: ConnectResult| r.ready())
}

/// For each request of `results`, whether it found the target ready.
pub open spec fn http_readiness(results: Seq<HttpResult>) -> Seq<bool> {
    results.map_values(|r: HttpResult| r.ready())
}

/// Each reported attempt moves the task by one step of the state machine.
pub proof fn lemma_state_advances(attempts: Seq<bool>, ready: bool)
    ensures
        state_after(attempts.push(ready)) == advance(state_after(attempts), ready),
{
    let longer = attempts.push(ready);
    if found_ready(attempts) {
        let i: int = choose|i: int| 0 <= i < attempts.len() && attempts[i];
        assert(longer[i]);
    }
    if ready {
        assert(longer[attempts.len() as int]);
    }
    if found_ready(longer) {
        let i: int = choose|i: int| 0 <= i < longer.len() && longer[i];
        if i < attempts.len() {
            assert(attempts[i]);
        }
    }
}

/// Ready is final: whatever is reported to a task that is ready, it stays
/// ready.
pub proof fn lemma_ready_is_final(attempts: Seq<bool>, later: Seq<bool>)
    requires
        state_after(attempts) is Ready,
    ensures
        state_after(attempts + later) is Ready,
{
    let i: int = choose|i: int| 0 <= i < attempts.len() && attempts[i];
    assert((attempts + later)[i]);
}

/// Where the attempt at position `first` is the first to find the target
/// ready, the task is ready after `k` reported attempts exactly when `k`
/// exceeds `first`: not before that attempt, and ever after it.
pub proof fn lemma_ready_exactly_after_first_success(attempts: Seq<bool>, first: int)
    requires
        0 <= first < attempts.len(),
        forall|i: int| 0 <= i < first ==> !attempts[i],
        attempts[first],
    ensures
        forall|k: int|
            0 <= k <= attempts.len() ==> (first < k <==> #[trigger] state_after(
                attempts.take(k),
            ) is Ready),
{
    assert forall|k: int| 0 <= k <= attempts.len() implies (first < k <==> #[trigger] state_after(
        attempts.take(k),
    ) is Ready) by {
        let prefix = attempts.take(k);
        if first < k {
            assert(prefix[first]);
        } else {
            assert forall|i: int| 0 <= i < prefix.len() implies !prefix[i] by {
                assert(prefix[i] == attempts[i]);
            }
        }
    }
}

/// A socket prober whose first `first` connection attempts fail and whose
/// next one connects asks for an attempt after each of the failures, and is
/// finished, with success, from the connection on.
pub proof fn lemma_socket_prober_waits_for_connection(results: Seq<ConnectResult>, first: int)
    requires
        0 <= first < results.len(),
        forall|i: int| 0 <= i < first ==> results[i] is Failed,
        results[first] is Connected,
    ensures
        forall|k: int|
            0 <= k <= first ==> #[trigger] step_in(
                state_after(connect_readiness(results.take(k))),
            ) == ProbeStep::Attempt,
        forall|k: int|
            first < k <= results.len() ==> #[trigger] step_in(
                state_after(connect_readiness(results.take(k))),
            ) == ProbeStep::Finished(ProbeOutcome::Ready),
{
    let attempts = connect_readiness(results);
    lemma_ready_exactly_after_first_success(attempts, first);
    assert forall|k: int| 0 <= k <= results.len() implies #[trigger] connect_readiness(
        results.take(k),
    ) == attempts.take(k) by {
        assert(connect_readiness(results.take(k)) =~= attempts.take(k));
    }
}

/// An HTTP prober whose first `first` requests bring no 2xx response (a
/// transport error, or any other status) and whose next one brings a 2xx
/// asks for a request after each of the former, and is finished, with
/// success, from the 2xx on.
pub proof fn lemma_http_prober_waits_for_success(results: Seq<HttpResult>, first: int)
    requires
        0 <= first < results.len(),
        forall|i: int| 0 <= i < first ==> !results[i].ready(),
        results[first].ready(),
    ensures
        forall|k: int|
            0 <= k <= first ==> #[trigger] step_in(
                state_after(http_readiness(results.take(k))),
            ) == ProbeStep::Attempt,
        forall|k: int|
            first < k <= results.len() ==> #[trigger] step_in(
                state_after(http_readiness(results.take(k))),
            ) == ProbeStep::Finished(ProbeOutcome::Ready),
{
    let attempts = http_readiness(results);
    lemma_ready_exactly_after_first_success(attempts, first);
    assert forall|k: int| 0 <= k <= results.len() implies #[trigger] http_readiness(
        results.take(k),
    ) == attempts.take(k) by {
        assert(http_readiness(results.take(k)) =~= attempts.take(k));
    }
}

} // verus!

//! Polling the device for frames, and resolving hardware addresses by ARP.
//!
//! Both are loops around device input and output. Each is written as a run
//! that its driver advances: the run says what to do next, and the driver
//! hands back what came of it.

use vstd::prelude::*;

use crate::addr::{IPv4, MacAddress};
use crate::frame;
use crate::neighbor;
use crate::parse;
use crate::stack;
use crate::stack::{NetAction, NetStack};

verus! {

/// How many ARP requests are sent for one address.
pub const ARP_RESOLVE_TRIES: usize = 3;

/// How often the device is polled after each ARP request.
pub const ARP_RESOLVE_POLL_BUDGET: usize = 256;

/// How many frames an interrupt handles at most.
pub const IRQ_POLL_BUDGET: usize = 64;

/// A polling run that handles at most `budget` frames.
pub struct PollRun {
    pub budget: usize,
    pub handled: usize,
    /// The device had no frame left.
    pub drained: bool,
}

impl PollRun {
    /// Whether the run is going to ask the device for another frame.
    pub open spec fn active(self) -> bool {
        !self.drained && self.handled < self.budget
    }

    /// The run after the device returned a frame of `len` bytes; zero means
    /// that it had none.
    pub open spec fn after(self, len: nat) -> PollRun {
        if len == 0 {
            PollRun { drained: true, ..self }
        } else {
            PollRun { handled: (self.handled + 1) as usize, ..self }
        }
    }

    /// A fresh run.
    pub fn new(budget: usize) -> (r: PollRun)
        ensures
            r == (PollRun { budget, handled: 0, drained: false }),
    {
        PollRun { budget, handled: 0, drained: false }
    }

    /// Whether the run is going to ask the device for another frame.
    pub fn wants_frame(&self) -> (r: bool)
        ensures
            r == self.active(),
    {
        !self.drained && self.handled < self.budget
    }
}

/// One round of a polling run: handles the frame that the device returned.
pub fn net_poll_budget(net: &mut NetStack, run: &mut PollRun, received: &[u8]) -> (r: Vec<
    NetAction,
>)
    requires
        old(run).active(),
    ensures
        *final(run) == old(run).after(received@.len()),
        final(net).config == old(net).config,
        received@.len() == 0 ==> final(net).neighbors@ == old(net).neighbors@ && r@.len() == 0,
        received@.len() > 0 ==> final(net).neighbors@ == stack::cache_after(
            old(net).config.mac@,
            old(net).neighbors@,
            received@,
        ) && stack::views(r@) == stack::actions_for(
            old(net).config.ip@,
            old(net).config.mac@,
            received@,
        ),
        neighbor::well_formed(old(net).neighbors@) ==> neighbor::well_formed(
            final(net).neighbors@,
        ),
{
    if received.len() == 0 {
        run.drained = true;
        return Vec::new();
    }
    let actions = net.handle_frame(received);
    run.handled = run.handled + 1;
    actions
}

/// Handles at most one frame: the one that the device returned, if any.
pub fn net_poll_handler(net: &mut NetStack, received: &[u8]) -> (r: Vec<NetAction>)
    ensures
        final(net).config == old(net).config,
        received@.len() == 0 ==> final(net).neighbors@ == old(net).neighbors@ && r@.len() == 0,
        received@.len() > 0 ==> final(net).neighbors@ == stack::cache_after(
            old(net).config.mac@,
            old(net).neighbors@,
            received@,
        ) && stack::views(r@) == stack::actions_for(
            old(net).config.ip@,
            old(net).config.mac@,
            received@,
        ),
        neighbor::well_formed(old(net).neighbors@) ==> neighbor::well_formed(
            final(net).neighbors@,
        ),
{
    let mut run = PollRun::new(1);
    net_poll_budget(net, &mut run, received)
}

/// How many frames come before the first empty one.
pub open spec fn leading_frames(frames: Seq<Seq<u8>>) -> nat
    decreases frames.len(),
{
    if frames.len() == 0 || frames[0].len() == 0 {
        0
    } else {
        1 + leading_frames(frames.skip(1))
    }
}

/// A polling run and what came of it so far.
pub struct PollTrace {
    pub run: PollRun,
    /// The neighbor cache.
    pub cache: Seq<(Seq<u8>, Seq<u8>)>,
    /// What the handled frames brought about.
    pub actions: Seq<stack::ActionView>,
    /// How often the device was asked for a frame.
    pub receives: nat,
}

impl PollTrace {
    /// A run that has not begun.
    pub open spec fn start(budget: usize, cache: Seq<(Seq<u8>, Seq<u8>)>) -> PollTrace {
        PollTrace {
            run: PollRun { budget, handled: 0, drained: false },
            cache,
            actions: Seq::empty(),
            receives: 0,
        }
    }

    /// The run after a round in which the device returned `d`.
    pub open spec fn after(self, ip: Seq<u8>, mac: Seq<u8>, d: Seq<u8>) -> PollTrace {
        if d.len() == 0 {
            PollTrace { run: self.run.after(0), receives: self.receives + 1, ..self }
        } else {
            PollTrace {
                run: self.run.after(d.len()),
                cache: stack::cache_after(mac, self.cache, d),
                actions: self.actions + stack::actions_for(ip, mac, d),
                receives: self.receives + 1,
            }
        }
    }
}

/// The run after the device returned the frames `frames` one by one, as long as
/// the run asked for them.
pub open spec fn polled(t: PollTrace, ip: Seq<u8>, mac: Seq<u8>, frames: Seq<Seq<u8>>) -> PollTrace
    decreases frames.len(),
{
    if t.run.active() && frames.len() > 0 {
        polled(t.after(ip, mac, frames[0]), ip, mac, frames.skip(1))
    } else {
        t
    }
}

/// The neighbor cache after the frames were handled in order.
pub open spec fn cache_after_all(
    mac: Seq<u8>,
    c: Seq<(Seq<u8>, Seq<u8>)>,
    frames: Seq<Seq<u8>>,
) -> Seq<(Seq<u8>, Seq<u8>)>
    decreases frames.len(),
{
    if frames.len() == 0 {
        c
    } else {
        stack::cache_after(mac, cache_after_all(mac, c, frames.drop_last()), frames.last())
    }
}

/// What the frames bring about, in order.
pub open spec fn actions_for_all(ip: Seq<u8>, mac: Seq<u8>, frames: Seq<Seq<u8>>) -> Seq<
    stack::ActionView,
>
    decreases frames.len(),
{
    if frames.len() == 0 {
        Seq::empty()
    } else {
        actions_for_all(ip, mac, frames.drop_last()) + stack::actions_for(ip, mac, frames.last())
    }
}

/// A polling run handles the frames that the device has, in order and no more
/// than its budget. It asks the device once for each of them, and once more
/// where it ends because the device ran dry, which is just where it stays below
/// its budget.
pub proof fn law_poll_handles_waiting_frames(
    budget: usize,
    ip: Seq<u8>,
    mac: Seq<u8>,
    cache: Seq<(Seq<u8>, Seq<u8>)>,
    frames: Seq<Seq<u8>>,
)
    requires
        frames.len() >= budget,
    ensures
        ({
            let end = polled(PollTrace::start(budget, cache), ip, mac, frames);
            let handled = parse::min(budget as int, leading_frames(frames) as int);
            &&& end.run.handled == handled
            &&& end.cache == cache_after_all(mac, cache, frames.take(handled))
            &&& end.actions == actions_for_all(ip, mac, frames.take(handled))
            &&& end.receives == parse::min(handled + 1, budget as int)
            &&& end.run.drained <==> handled < budget
            &&& handled < budget ==> frames[handled].len() == 0
        }),
{
    let handled = parse::min(budget as int, leading_frames(frames) as int);
    lemma_leading_frames(frames);
    lemma_polled(budget, ip, mac, cache, frames, handled as nat);
    let now = trace_at(budget, ip, mac, cache, frames, handled as nat);
    let rest = frames.skip(handled);
    if handled < budget {
        assert(rest[0] == frames[handled]);
        assert(frames[handled].len() == 0);
        let last = now.after(ip, mac, rest[0]);
        assert(!last.run.active());
        assert(polled(last, ip, mac, rest.skip(1)) == last);
    } else {
        assert(!now.run.active());
    }
}

/// A run that handled the first `k` frames.
spec fn trace_at(
    budget: usize,
    ip: Seq<u8>,
    mac: Seq<u8>,
    cache: Seq<(Seq<u8>, Seq<u8>)>,
    frames: Seq<Seq<u8>>,
    k: nat,
) -> PollTrace {
    PollTrace {
        run: PollRun { budget, handled: k as usize, drained: false },
        cache: cache_after_all(mac, cache, frames.take(k as int)),
        actions: actions_for_all(ip, mac, frames.take(k as int)),
        receives: k,
    }
}

/// The frames before the first empty one are not empty.
proof fn lemma_leading_frames(frames: Seq<Seq<u8>>)
    ensures
        leading_frames(frames) <= frames.len(),
        forall|i: int| 0 <= i < leading_frames(frames) ==> (#[trigger] frames[i]).len() > 0,
        leading_frames(frames) < frames.len() ==> frames[leading_frames(frames) as int].len() == 0,
    decreases frames.len(),
{
    if frames.len() > 0 && frames[0].len() > 0 {
        let rest = frames.skip(1);
        lemma_leading_frames(rest);
        assert forall|i: int| 0 <= i < leading_frames(frames) implies (#[trigger] frames[i]).len()
            > 0 by {
            if i > 0 {
                assert(rest[i - 1] == frames[i]);
            }
        }
        if leading_frames(frames) < frames.len() {
            assert(rest[leading_frames(rest) as int] == frames[leading_frames(frames) as int]);
        }
    }
}

/// A run goes through the states in which it handled the first frames.
proof fn lemma_polled(
    budget: usize,
    ip: Seq<u8>,
    mac: Seq<u8>,
    cache: Seq<(Seq<u8>, Seq<u8>)>,
    frames: Seq<Seq<u8>>,
    k: nat,
)
    requires
        k <= budget,
        k <= leading_frames(frames),
    ensures
        polled(PollTrace::start(budget, cache), ip, mac, frames) == polled(
            trace_at(budget, ip, mac, cache, frames, k),
            ip,
            mac,
            frames.skip(k as int),
        ),
    decreases k,
{
    lemma_leading_frames(frames);
    if k == 0 {
        assert(frames.skip(0) =~= frames);
        assert(trace_at(budget, ip, mac, cache, frames, 0) == PollTrace::start(budget, cache));
    } else {
        let j = (k - 1) as nat;
        lemma_polled(budget, ip, mac, cache, frames, j);
        let prev = trace_at(budget, ip, mac, cache, frames, j);
        let now = trace_at(budget, ip, mac, cache, frames, k);
        let rest = frames.skip(j as int);
        assert(rest[0] == frames[j as int]);
        assert(rest.skip(1) =~= frames.skip(k as int));
        assert(frames.take(k as int).drop_last() =~= frames.take(j as int));
        assert(frames.take(k as int).last() == frames[j as int]);
        assert(prev.after(ip, mac, rest[0]) == now);
    }
}

/// Where a resolution stands.
#[derive(Clone, Copy, PartialEq, Eq, Structural)]
pub enum ResolveStage {
    /// Nothing was done yet.
    Start,
    /// A request was just sent.
    Sent,
    /// The device was just polled.
    Polled,
}

/// The progress of resolving one address.
#[derive(Clone, Copy, PartialEq, Eq, Structural)]
pub struct ResolveRun {
    pub stage: ResolveStage,
    /// Requests sent.
    pub tries: usize,
    /// Polls since the last request.
    pub polls: usize,
}

/// What a resolution does next.
pub enum ResolveStep {
    /// Send this request.
    Transmit(Vec<u8>),
    /// Poll the device once.
    Poll,
    /// Finish with the address found, or without one.
    Done(Option<MacAddress>),
}

/// The mathematical content of a resolution step.
pub enum ResolveStepView {
    Transmit(Seq<u8>),
    Poll,
    Done(Option<Seq<u8>>),
}

impl View for ResolveStep {
    type V = ResolveStepView;

    open spec fn view(&self) -> ResolveStepView {
        match self {
            ResolveStep::Transmit(f) => ResolveStepView::Transmit(f@),
            ResolveStep::Poll => ResolveStepView::Poll,
            ResolveStep::Done(None) => ResolveStepView::Done(None),
            ResolveStep::Done(Some(mac)) => ResolveStepView::Done(Some(mac@)),
        }
    }
}

impl ResolveRun {
    /// A resolution that has not begun.
    pub fn new() -> (r: ResolveRun)
        ensures
            r == ResolveRun::fresh(),
    {
        ResolveRun { stage: ResolveStage::Start, tries: 0, polls: 0 }
    }

    /// A resolution that has not begun.
    pub open spec fn fresh() -> ResolveRun {
        ResolveRun { stage: ResolveStage::Start, tries: 0, polls: 0 }
    }

    /// The counters stay within their limits.
    pub open spec fn well_formed(self) -> bool {
        self.tries <= ARP_RESOLVE_TRIES && self.polls <= ARP_RESOLVE_POLL_BUDGET
    }

    /// The run after its next step, when the cache answers `answer`.
    pub open spec fn next(self, answer: Option<Seq<u8>>) -> ResolveRun {
        if self.stage != ResolveStage::Sent && answer is Some {
            self
        } else if self.stage == ResolveStage::Sent || (self.stage == ResolveStage::Polled
            && self.polls < ARP_RESOLVE_POLL_BUDGET) {
            ResolveRun {
                stage: ResolveStage::Polled,
                polls: (self.polls + 1) as usize,
                tries: self.tries,
            }
        } else if self.tries < ARP_RESOLVE_TRIES {
            ResolveRun {
                stage: ResolveStage::Sent,
                tries: (self.tries + 1) as usize,
                polls: 0,
            }
        } else {
            self
        }
    }

    /// The run's next step, when the cache answers `answer`: an answer in the
    /// cache ends it; otherwise each request is followed by a number of polls,
    /// and the last request's polls by giving up.
    pub open spec fn step(self, request: Seq<u8>, answer: Option<Seq<u8>>) -> ResolveStepView {
        if self.stage != ResolveStage::Sent && answer is Some {
            ResolveStepView::Done(answer)
        } else if self.stage == ResolveStage::Sent || (self.stage == ResolveStage::Polled
            && self.polls < ARP_RESOLVE_POLL_BUDGET) {
            ResolveStepView::Poll
        } else if self.tries < ARP_RESOLVE_TRIES {
            ResolveStepView::Transmit(request)
        } else {
            ResolveStepView::Done(None)
        }
    }
}

/// Advances the resolution of `target_ip` by one step.
pub fn resolve_mac(net: &NetStack, target_ip: &IPv4, run: &mut ResolveRun) -> (r: ResolveStep)
    requires
        old(run).well_formed(),
        old(run).stage == ResolveStage::Sent ==> old(run).polls == 0,
    ensures
        *final(run) == old(run).next(neighbor::lookup(net.neighbors@, target_ip@)),
        r@ == old(run).step(
            frame::arp_request(net.config.mac@, net.config.ip@, target_ip@),
            neighbor::lookup(net.neighbors@, target_ip@),
        ),
        final(run).well_formed(),
        final(run).stage == ResolveStage::Sent ==> final(run).polls == 0,
{
    if run.stage != ResolveStage::Sent {
        if let Some(mac) = net.neighbors.lookup_neighbor(target_ip) {
            return ResolveStep::Done(Some(mac));
        }
    }
    if run.stage == ResolveStage::Sent || (run.stage == ResolveStage::Polled && run.polls
        < ARP_RESOLVE_POLL_BUDGET) {
        run.stage = ResolveStage::Polled;
        run.polls = run.polls + 1;
        ResolveStep::Poll
    } else if run.tries < ARP_RESOLVE_TRIES {
        run.stage = ResolveStage::Sent;
        run.tries = run.tries + 1;
        run.polls = 0;
        ResolveStep::Transmit(
            frame::build_arp_request(&net.config.mac, &net.config.ip, target_ip),
        )
    } else {
        ResolveStep::Done(None)
    }
}

/// The run after `n` steps in which the cache had no answer.
pub open spec fn unanswered(n: nat) -> ResolveRun
    decreases n,
{
    if n == 0 {
        ResolveRun::fresh()
    } else {
        unanswered((n - 1) as nat).next(None)
    }
}

/// An address that nobody answers for is given up after exactly three requests,
/// each followed by 256 polls.
pub proof fn law_unanswered_resolution_gives_up(request: Seq<u8>, n: nat)
    requires
        n <= 771,
    ensures
        unanswered(n).well_formed(),
        unanswered(n).step(request, None) == if n == 771 {
            ResolveStepView::Done(None)
        } else if n % 257 == 0 {
            ResolveStepView::Transmit(request)
        } else {
            ResolveStepView::Poll
        },
{
    lemma_unanswered(n);
}

/// The counters of an unanswered run.
proof fn lemma_unanswered(n: nat)
    requires
        n <= 771,
    ensures
        n > 0 ==> unanswered(n) == (ResolveRun {
            stage: if (n - 1) % 257 == 0 {
                ResolveStage::Sent
            } else {
                ResolveStage::Polled
            },
            tries: ((n - 1) / 257 + 1) as usize,
            polls: ((n - 1) % 257) as usize,
        }),
    decreases n,
{
    if n > 1 {
        lemma_unanswered((n - 1) as nat);
    } else if n == 1 {
        assert(unanswered(0) == ResolveRun::fresh());
    }
}

/// The run after `n` steps, when the cache answers `answers` step by step.
pub open spec fn resolving(answers: Seq<Option<Seq<u8>>>, n: nat) -> ResolveRun
    decreases n,
{
    if n == 0 {
        ResolveRun::fresh()
    } else {
        resolving(answers, (n - 1) as nat).next(answers[n - 1])
    }
}

/// Step `k` of such a run.
pub open spec fn resolve_step(
    request: Seq<u8>,
    answers: Seq<Option<Seq<u8>>>,
    k: nat,
) -> ResolveStepView {
    resolving(answers, k).step(request, answers[k as int])
}

/// How many of the first `n` steps send a request.
pub open spec fn requests_sent(
    request: Seq<u8>,
    answers: Seq<Option<Seq<u8>>>,
    n: nat,
) -> nat
    decreases n,
{
    if n == 0 {
        0
    } else {
        let k = (n - 1) as nat;
        requests_sent(request, answers, k) + if resolve_step(request, answers, k) is Transmit {
            1nat
        } else {
            0nat
        }
    }
}

/// How many of the first `n` steps poll the device.
pub open spec fn polls_made(request: Seq<u8>, answers: Seq<Option<Seq<u8>>>, n: nat) -> nat
    decreases n,
{
    if n == 0 {
        0
    } else {
        let k = (n - 1) as nat;
        polls_made(request, answers, k) + if resolve_step(request, answers, k) is Poll {
            1nat
        } else {
            0nat
        }
    }
}

/// Whatever the cache answers in the course of a resolution: it ends, at the
/// latest after three requests and 768 polls. It ends with what the last lookup
/// gave, without a request just where the first lookup knew the address, and
/// without an address only after all its requests and polls.
pub proof fn law_resolution_ends_with_last_lookup(
    request: Seq<u8>,
    answers: Seq<Option<Seq<u8>>>,
    n: nat,
)
    requires
        n < answers.len(),
        forall|k: nat| k < n ==> !(#[trigger] resolve_step(request, answers, k) is Done),
    ensures
        n <= 771,
        n == 771 ==> resolve_step(request, answers, n) is Done,
        requests_sent(request, answers, n) <= ARP_RESOLVE_TRIES,
        n > 0 ==> requests_sent(request, answers, n) >= 1,
        resolve_step(request, answers, n) is Done ==> {
            &&& resolve_step(request, answers, n) == ResolveStepView::Done(answers[n as int])
            &&& n == 0 ==> answers[0] is Some
            &&& answers[n as int] is None ==> requests_sent(request, answers, n) == 3
                && polls_made(request, answers, n) == 768
        },
{
    if n > 771 {
        lemma_resolving(request, answers, 771);
        lemma_unanswered(771);
        assert(resolve_step(request, answers, 771) is Done);
    } else {
        lemma_resolving(request, answers, n);
        lemma_unanswered(n);
    }
}

/// As long as it does not end, a resolution goes as if unanswered.
proof fn lemma_resolving(request: Seq<u8>, answers: Seq<Option<Seq<u8>>>, n: nat)
    requires
        n <= 771,
        n < answers.len(),
        forall|k: nat| k < n ==> !(#[trigger] resolve_step(request, answers, k) is Done),
    ensures
        resolving(answers, n) == unanswered(n),
        requests_sent(request, answers, n) == unanswered(n).tries,
        polls_made(request, answers, n) == n - unanswered(n).tries,
    decreases n,
{
    if n > 0 {
        let k = (n - 1) as nat;
        lemma_resolving(request, answers, k);
        lemma_unanswered(k);
        lemma_unanswered(n);
        assert(!(resolve_step(request, answers, k) is Done));
        assert(resolving(answers, n) == resolving(answers, k).next(answers[k as int]));
        assert(unanswered(n) == unanswered(k).next(None));
    } else {
        assert(unanswered(0) == ResolveRun::fresh());
    }
}

/// A resolution that has not begun, or has just polled, ends at once with the
/// address that the cache knows.
pub proof fn law_known_neighbor_ends_resolution(
    run: ResolveRun,
    request: Seq<u8>,
    c: Seq<(Seq<u8>, Seq<u8>)>,
    ip: Seq<u8>,
)
    requires
        run.stage != ResolveStage::Sent,
        neighbor::lookup(c, ip) is Some,
    ensures
        run.step(request, neighbor::lookup(c, ip)) == ResolveStepView::Done(
            neighbor::lookup(c, ip),
        ),
{
}

/// A resolution that is answered succeeds: once the reply of the host asked for
/// was handled in a poll, the next step ends the resolution with its address,
/// whatever padding follows the frames.
pub proof fn law_answered_resolution_succeeds(
    run: ResolveRun,
    our_mac: Seq<u8>,
    our_ip: Seq<u8>,
    cache: Seq<(Seq<u8>, Seq<u8>)>,
    peer_mac: Seq<u8>,
    peer_ip: Seq<u8>,
    pad: Seq<u8>,
)
    requires
        run.stage == ResolveStage::Polled,
        our_mac.len() == 6,
        our_ip.len() == 4,
        peer_mac.len() == 6,
        peer_ip.len() == 4,
        neighbor::learnable(peer_ip, peer_mac),
    ensures
        ({
            let request = frame::arp_request(our_mac, our_ip, peer_ip);
            let reply = frame::arp_reply(peer_mac, peer_ip, our_mac, our_ip);
            let after = stack::cache_after(our_mac, cache, reply + pad);
            &&& stack::actions_for(peer_ip, peer_mac, request + pad) == seq![
                stack::ActionView::Transmit(reply),
            ]
            &&& run.step(request, neighbor::lookup(after, peer_ip)) == ResolveStepView::Done(
                Some(peer_mac),
            )
        }),
{
    stack::law_arp_exchange(our_mac, our_ip, cache, peer_mac, peer_ip, Seq::empty(), pad);
}

/// One received frame of a poll: an empty one ends it, any other one is counted
/// once, and the poll goes on until its budget is used up.
pub proof fn law_poll_counts_frames(run: PollRun, len: nat)
    requires
        run.handled < run.budget,
        !run.drained,
    ensures
        run.active(),
        len == 0 ==> !run.after(len).active() && run.after(len).handled == run.handled,
        len > 0 ==> run.after(len).handled == run.handled + 1 && (run.after(len).active()
            <==> run.handled + 1 < run.budget),
        run.after(len).budget == run.budget,
{
}

/// A resolution sends up to three requests and polls up to 256 times after
/// each, as long as no answer is known; a known answer ends it at once, except
/// right after a request was sent, when it polls first.
pub proof fn law_resolution_steps(
    tries: usize,
    polls: usize,
    request: Seq<u8>,
    answer: Seq<u8>,
)
    requires
        tries <= 3,
        polls <= 256,
    ensures
        ({
            let start = ResolveRun { stage: ResolveStage::Start, tries: 0, polls: 0 };
            let sent = ResolveRun { stage: ResolveStage::Sent, tries, polls };
            let polled = ResolveRun { stage: ResolveStage::Polled, tries, polls };
            &&& ResolveRun::fresh() == start
            &&& start.step(request, Some(answer)) == ResolveStepView::Done(Some(answer))
            &&& start.step(request, None) == ResolveStepView::Transmit(request)
            &&& start.next(None) == (ResolveRun { stage: ResolveStage::Sent, tries: 1, polls: 0 })
            &&& sent.step(request, Some(answer)) == ResolveStepView::Poll
            &&& sent.step(request, None) == ResolveStepView::Poll
            &&& sent.next(None).stage == ResolveStage::Polled && sent.next(None).tries == tries
                && sent.next(None).polls == polls + 1
            &&& sent.next(Some(answer)) == sent.next(None)
            &&& start.next(Some(answer)) == start && polled.next(Some(answer)) == polled
            &&& polled.step(request, Some(answer)) == ResolveStepView::Done(Some(answer))
            &&& polls < 256 ==> polled.step(request, None) == ResolveStepView::Poll && polled.next(
                None,
            ).polls == polls + 1 && polled.next(None).stage == ResolveStage::Polled
            &&& polls >= 256 && tries < 3 ==> polled.step(request, None)
                == ResolveStepView::Transmit(request) && polled.next(None).tries == tries + 1
                && polled.next(None).polls == 0 && polled.next(None).stage == ResolveStage::Sent
            &&& polls >= 256 && tries >= 3 ==> polled.step(request, None) == ResolveStepView::Done(
                None,
            )
        }),
{
}

/// A step of a resolution stands for what it holds.
pub proof fn law_resolve_step_fields(request: Vec<u8>, mac: MacAddress)
    ensures
        ResolveStep::Transmit(request)@ == ResolveStepView::Transmit(request@),
        ResolveStep::Poll@ == ResolveStepView::Poll,
        ResolveStep::Done(None)@ == ResolveStepView::Done(None),
        ResolveStep::Done(Some(mac))@ == ResolveStepView::Done(Some(mac.0@)),
{
}

} // verus!

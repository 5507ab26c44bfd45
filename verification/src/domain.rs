//! The per-domain actor's decisions: it queues the URLs of one domain, waits
//! for the domain's robots.txt, and starts one fetch at a time, honouring the
//! file's rules. After a fetch, when URLs are still queued, it waits the
//! crawl delay before the next; a URL that arrives while it is idle is
//! fetched at once.
//!
//! The actor's work with the outside world (fetching robots.txt, starting a
//! fetcher, timers, messages to the frontier) is done by its caller; here
//! each incoming message becomes the next state and one action.

use std::collections::VecDeque;
use vstd::prelude::*;
use crate::messages::{CrawlUrl, CrawlerMessage, PageResult};
use crate::robots::{one_agent_allowed_by_robots, robots_allow, robots_body_readable, USER_AGENT};

verus! {

/// A span of time in whole seconds and nanoseconds, as `std::time::Duration`
/// holds it.
#[derive(Clone, Copy, Debug, PartialEq, Eq, Structural)]
pub struct Delay {
    pub secs: u64,
    pub nanos: u32,
}

/// What the actor knows of its domain's robots.txt.
pub enum RobotsState {
    /// The file is being fetched.
    Fetching,
    /// The fetch is over: the body, or `None` when there was none (all allowed).
    Done(Option<String>),
}

/// The actor that crawls the URLs of one domain.
pub struct DomainActor {
    domain: String,
    queue: VecDeque<CrawlUrl>,
    robots_state: RobotsState,
    crawl_delay: Delay,
    default_delay: Delay,
    in_flight: bool,
}

/// The state of a [`DomainActor`].
pub struct DomainModel {
    pub domain: Seq<char>,
    /// URLs waiting to be fetched, oldest first.
    pub queue: Seq<CrawlUrl>,
    pub robots: RobotsState,
    /// The pause after a fetch before the next queued URL is taken.
    pub crawl_delay: Delay,
    /// The pause to use when robots.txt names none.
    pub default_delay: Delay,
    /// Whether a fetch is under way.
    pub in_flight: bool,
}

impl View for DomainActor {
    type V = DomainModel;

    closed spec fn view(&self) -> DomainModel {
        DomainModel {
            domain: self.domain@,
            queue: self.queue@,
            robots: self.robots_state,
            crawl_delay: self.crawl_delay,
            default_delay: self.default_delay,
            in_flight: self.in_flight,
        }
    }
}

/// What the actor asks its caller to do after a message.
pub enum DomainAction {
    /// Nothing.
    Idle,
    /// Start a fetcher for this URL (and call `dispatch_failed` if it cannot
    /// be started or told).
    Dispatch(CrawlUrl),
    /// Forward the page to the frontier, then stop this actor.
    ForwardAndStop(PageResult),
    /// Forward the page to the frontier, then send this actor a `Tick` after
    /// the delay.
    ForwardAndTick(PageResult, Delay),
}

/// Whether the robots.txt state lets this crawler fetch `url`: everything is
/// allowed until a body has arrived, and when there is none.
pub open spec fn allows(robots: RobotsState, url: Seq<char>) -> bool {
    match robots {
        RobotsState::Done(Some(body)) => robots_allow(body@, USER_AGENT@, url),
        _ => true,
    }
}

/// The robotstxt crate can read the body the actor holds, if any.
pub open spec fn robots_readable(robots: RobotsState) -> bool {
    robots matches RobotsState::Done(Some(body)) ==> robots_body_readable(body@)
}

/// A message the actor can take: a robots.txt body it brings is one that
/// the robotstxt crate can read.
pub open spec fn message_readable(msg: CrawlerMessage) -> bool {
    msg matches CrawlerMessage::RobotsReady(Some(body)) ==> robots_body_readable(body@)
}

/// Takes URLs off the front of `queue` until one is allowed: the rest of the
/// queue, and that URL if there was one.
pub open spec fn pop_allowed(queue: Seq<CrawlUrl>, robots: RobotsState) -> (Seq<CrawlUrl>, Option<CrawlUrl>)
    decreases queue.len(),
{
    if queue.len() == 0 {
        (queue, None)
    } else if allows(robots, queue[0].url@) {
        (queue.drop_first(), Some(queue[0]))
    } else {
        pop_allowed(queue.drop_first(), robots)
    }
}

/// The dispatch decision: with no fetch under way, the first allowed URL of
/// the queue is dispatched, the disallowed ones before it are dropped.
pub open spec fn dispatch_step(s: DomainModel) -> (DomainModel, DomainAction) {
    if s.in_flight {
        (s, DomainAction::Idle)
    } else {
        let (q, u) = pop_allowed(s.queue, s.robots);
        (
            DomainModel { queue: q, in_flight: u is Some, ..s },
            match u {
                Some(c) => DomainAction::Dispatch(c),
                None => DomainAction::Idle,
            },
        )
    }
}

/// The actor's answer to a message: its next state and its action.
///
/// `robots_delay` is the crawl delay read from the body of a `RobotsReady`
/// message (the first value of `parse_crawl_delay` that reads as seconds),
/// and matters for no other message; without a body the default delay holds.
pub open spec fn domain_step(s: DomainModel, msg: CrawlerMessage, robots_delay: Option<Delay>) -> (DomainModel, DomainAction) {
    match msg {
        CrawlerMessage::CrawlUrl(u) => {
            let s1 = DomainModel { queue: s.queue.push(u), ..s };
            if s.robots is Done {
                dispatch_step(s1)
            } else {
                (s1, DomainAction::Idle)
            }
        },
        CrawlerMessage::RobotsReady(body) => {
            let delay = match (body, robots_delay) {
                (Some(_), Some(d)) => d,
                _ => s.default_delay,
            };
            dispatch_step(DomainModel { robots: RobotsState::Done(body), crawl_delay: delay, ..s })
        },
        CrawlerMessage::PageResult(r) => {
            let s1 = DomainModel { in_flight: false, ..s };
            if s.queue.len() == 0 {
                (s1, DomainAction::ForwardAndStop(r))
            } else {
                (s1, DomainAction::ForwardAndTick(r, s.crawl_delay))
            }
        },
        CrawlerMessage::Tick => dispatch_step(s),
        _ => (s, DomainAction::Idle),
    }
}

/// Dispatching takes URLs in arrival order: the URL dispatched is the first
/// allowed one in the queue, the disallowed ones before it are dropped and
/// the ones after it stay, in order; when none is allowed the queue empties.
pub proof fn lemma_pop_allowed(queue: Seq<CrawlUrl>, robots: RobotsState)
    ensures
        match pop_allowed(queue, robots) {
            (rest, Some(u)) => exists|k: int|
                0 <= k < queue.len() && #[trigger] queue[k] == u && allows(robots, u.url@) && (forall|j: int|
                    0 <= j < k ==> !allows(robots, #[trigger] queue[j].url@)) && rest == queue.skip(k + 1),
            (rest, None) => rest.len() == 0 && forall|j: int|
                0 <= j < queue.len() ==> !allows(robots, #[trigger] queue[j].url@),
        },
    decreases queue.len(),
{
    if queue.len() == 0 {
    } else if allows(robots, queue[0].url@) {
        assert(queue.drop_first() =~= queue.skip(1));
    } else {
        let tail = queue.drop_first();
        lemma_pop_allowed(tail, robots);
        match pop_allowed(tail, robots) {
            (rest, Some(u)) => {
                let k = choose|k: int|
                    0 <= k < tail.len() && #[trigger] tail[k] == u && allows(robots, u.url@) && (forall|j: int|
                        0 <= j < k ==> !allows(robots, #[trigger] tail[j].url@)) && rest == tail.skip(k + 1);
                assert(queue[k + 1] == u);
                assert(tail.skip(k + 1) =~= queue.skip(k + 2));
                assert forall|j: int| 0 <= j < k + 1 implies !allows(robots, #[trigger] queue[j].url@) by {
                    if j > 0 {
                        assert(queue[j] == tail[j - 1]);
                    }
                }
            },
            (rest, None) => {
                assert forall|j: int| 0 <= j < queue.len() implies !allows(robots, #[trigger] queue[j].url@) by {
                    if j > 0 {
                        assert(queue[j] == tail[j - 1]);
                    }
                }
            },
        }
    }
}

/// At most one fetch per domain is under way: a message leads to a dispatch
/// only when no fetch was under way, and after it one is; while a fetch is
/// under way, only its page result ends it.
pub proof fn lemma_one_fetch_at_a_time(s: DomainModel, msg: CrawlerMessage, robots_delay: Option<Delay>)
    ensures
        domain_step(s, msg, robots_delay).1 is Dispatch ==> !s.in_flight && domain_step(s, msg, robots_delay).0.in_flight,
        s.in_flight && !(msg is PageResult) ==> domain_step(s, msg, robots_delay).0.in_flight
            && !(domain_step(s, msg, robots_delay).1 is Dispatch),
        msg is PageResult ==> !domain_step(s, msg, robots_delay).0.in_flight,
{
}

/// A URL that robots.txt disallows for this crawler is never dispatched.
pub proof fn lemma_dispatch_respects_robots(s: DomainModel, msg: CrawlerMessage, robots_delay: Option<Delay>)
    ensures
        domain_step(s, msg, robots_delay).1 matches DomainAction::Dispatch(u) ==> allows(
            domain_step(s, msg, robots_delay).0.robots,
            u.url@,
        ),
{
    let s1 = match msg {
        CrawlerMessage::CrawlUrl(u) => DomainModel { queue: s.queue.push(u), ..s },
        CrawlerMessage::RobotsReady(body) => DomainModel {
            robots: RobotsState::Done(body),
            crawl_delay: match (body, robots_delay) {
                (Some(_), Some(d)) => d,
                _ => s.default_delay,
            },
            ..s
        },
        _ => s,
    };
    lemma_pop_allowed(s1.queue, s1.robots);
}

/// No URL is dispatched before the domain's robots.txt is known: while it is
/// being fetched, URLs only queue up.
pub proof fn lemma_no_fetch_before_robots(s: DomainModel, u: CrawlUrl, robots_delay: Option<Delay>)
    requires
        s.robots is Fetching,
    ensures
        domain_step(s, CrawlerMessage::CrawlUrl(u), robots_delay) == (
            DomainModel { queue: s.queue.push(u), ..s },
            DomainAction::Idle,
        ),
{
}

/// With no robots.txt (unreachable or missing) every URL is allowed: once it
/// is known to be missing, the first queued URL is dispatched if no fetch is
/// under way, and the crawl delay is the default one.
pub proof fn lemma_no_robots_allows_all(s: DomainModel, robots_delay: Option<Delay>)
    requires
        !s.in_flight,
        s.queue.len() > 0,
    ensures
        domain_step(s, CrawlerMessage::RobotsReady(None), robots_delay) == (
            DomainModel {
                queue: s.queue.drop_first(),
                robots: RobotsState::Done(None),
                crawl_delay: s.default_delay,
                in_flight: true,
                ..s
            },
            DomainAction::Dispatch(s.queue[0]),
        ),
{
}

/// Every page result is forwarded to the frontier; the actor stops exactly
/// when no URL is left to crawl, and otherwise waits the crawl delay before
/// its next fetch.
pub proof fn lemma_page_result_forwarded(s: DomainModel, r: PageResult, robots_delay: Option<Delay>)
    ensures
        domain_step(s, CrawlerMessage::PageResult(r), robots_delay).1 == (if s.queue.len() == 0 {
            DomainAction::ForwardAndStop(r)
        } else {
            DomainAction::ForwardAndTick(r, s.crawl_delay)
        }),
        domain_step(s, CrawlerMessage::PageResult(r), robots_delay).0.queue == s.queue,
{
}

/// Only a `RobotsReady` message sets the crawl delay, and every pause the
/// actor asks for is that delay; the domain and the default delay never
/// change.
pub proof fn lemma_crawl_delay_kept(s: DomainModel, msg: CrawlerMessage, robots_delay: Option<Delay>)
    ensures
        !(msg is RobotsReady) ==> domain_step(s, msg, robots_delay).0.crawl_delay == s.crawl_delay,
        domain_step(s, msg, robots_delay).0.domain == s.domain,
        domain_step(s, msg, robots_delay).0.default_delay == s.default_delay,
        domain_step(s, msg, robots_delay).1 matches DomainAction::ForwardAndTick(_, d) ==> d == s.crawl_delay,
{
}

/// Over a run without `RobotsReady`, every pause the actor asks for is the
/// crawl delay it had at the start.
pub proof fn lemma_run_crawl_delay_kept(s: DomainModel, run: Seq<(CrawlerMessage, Option<Delay>)>)
    requires
        forall|k: int| 0 <= k < run.len() ==> !(#[trigger] run[k].0 is RobotsReady),
    ensures
        forall|k: int| 0 <= k <= run.len() ==> #[trigger] domain_run_states(s, run)[k].crawl_delay == s.crawl_delay,
        forall|k: int|
            0 <= k < run.len() ==> (#[trigger] domain_run_action(s, run, k) matches DomainAction::ForwardAndTick(_, d)
                ==> d == s.crawl_delay),
{
    lemma_domain_run_states(s, run);
    assert forall|k: int| 0 <= k <= run.len() implies #[trigger] domain_run_states(s, run)[k].crawl_delay
        == s.crawl_delay by {
        lemma_run_delay_up_to(s, run, k);
    }
    assert forall|k: int|
        0 <= k < run.len() implies (#[trigger] domain_run_action(s, run, k) matches DomainAction::ForwardAndTick(_, d)
            ==> d == s.crawl_delay) by {
        lemma_run_delay_up_to(s, run, k);
        lemma_crawl_delay_kept(domain_run_states(s, run)[k], run[k].0, run[k].1);
    }
}

proof fn lemma_run_delay_up_to(s: DomainModel, run: Seq<(CrawlerMessage, Option<Delay>)>, k: int)
    requires
        forall|i: int| 0 <= i < run.len() ==> !(#[trigger] run[i].0 is RobotsReady),
        0 <= k <= run.len(),
    ensures
        domain_run_states(s, run)[k].crawl_delay == s.crawl_delay,
    decreases k,
{
    lemma_domain_run_states(s, run);
    if k > 0 {
        lemma_run_delay_up_to(s, run, k - 1);
        assert(!(run[k - 1].0 is RobotsReady));
        lemma_crawl_delay_kept(domain_run_states(s, run)[k - 1], run[k - 1].0, run[k - 1].1);
    }
}

/// A new URL goes to the back of the queue, whatever the robots.txt state:
/// if it leads to a dispatch, the URL dispatched is the first allowed one of
/// the old queue followed by the new URL, those before it are dropped and
/// those after it stay in order; otherwise the queue is the old one followed
/// by the new URL, or, when nothing in it was allowed, empty.
pub proof fn lemma_crawl_url_queued_in_arrival_order(s: DomainModel, u: CrawlUrl, robots_delay: Option<Delay>)
    ensures
        ({
            let q = s.queue.push(u);
            let (s2, a) = domain_step(s, CrawlerMessage::CrawlUrl(u), robots_delay);
            &&& s2.robots == s.robots
            &&& (a matches DomainAction::Dispatch(x) ==> {
                &&& s.robots is Done
                &&& !s.in_flight
                &&& s2.in_flight
                &&& exists|k: int|
                    0 <= k < q.len() && #[trigger] q[k] == x && allows(s.robots, x.url@) && (forall|j: int|
                        0 <= j < k ==> !allows(s.robots, #[trigger] q[j].url@)) && s2.queue == q.skip(k + 1)
            })
            &&& (a is Idle ==> (s2.queue == q || (s.robots is Done && !s.in_flight && s2.queue.len() == 0
                && forall|j: int| 0 <= j < q.len() ==> !allows(s.robots, #[trigger] q[j].url@))))
            &&& (a is Dispatch || a is Idle)
        }),
{
    lemma_pop_allowed(s.queue.push(u), s.robots);
}

/// A `Tick` dispatches, when no fetch is under way, the first allowed URL of
/// the queue, dropping the disallowed ones before it and keeping the ones
/// after it in order.
pub proof fn lemma_tick_takes_oldest_allowed(s: DomainModel, robots_delay: Option<Delay>)
    ensures
        ({
            let q = s.queue;
            let (s2, a) = domain_step(s, CrawlerMessage::Tick, robots_delay);
            &&& s2.robots == s.robots
            &&& (a matches DomainAction::Dispatch(x) ==> {
                &&& !s.in_flight
                &&& s2.in_flight
                &&& exists|k: int|
                    0 <= k < q.len() && #[trigger] q[k] == x && allows(s.robots, x.url@) && (forall|j: int|
                        0 <= j < k ==> !allows(s.robots, #[trigger] q[j].url@)) && s2.queue == q.skip(k + 1)
            })
            &&& (a is Idle ==> (s2 == s || (!s.in_flight && s2.queue.len() == 0 && forall|j: int|
                0 <= j < q.len() ==> !allows(s.robots, #[trigger] q[j].url@))))
            &&& (s.in_flight ==> s2 == s && a is Idle)
            &&& (!s.in_flight && (exists|j: int| 0 <= j < q.len() && allows(s.robots, #[trigger] q[j].url@))
                ==> a is Dispatch)
        }),
{
    lemma_pop_allowed(s.queue, s.robots);
}

/// robots.txt arriving makes it known and sets the crawl delay (the one read
/// from a body, the default without one), then dispatches the oldest URL it
/// allows, when no fetch is under way; the queue keeps its order.
pub proof fn lemma_robots_ready(s: DomainModel, body: Option<String>, robots_delay: Option<Delay>)
    ensures
        ({
            let (s2, a) = domain_step(s, CrawlerMessage::RobotsReady(body), robots_delay);
            let q = s.queue;
            let r = RobotsState::Done(body);
            &&& s2.robots == r
            &&& s2.crawl_delay == (match (body, robots_delay) {
                (Some(_), Some(d)) => d,
                _ => s.default_delay,
            })
            &&& (a matches DomainAction::Dispatch(x) ==> {
                &&& !s.in_flight
                &&& s2.in_flight
                &&& exists|k: int|
                    0 <= k < q.len() && #[trigger] q[k] == x && allows(r, x.url@) && (forall|j: int|
                        0 <= j < k ==> !allows(r, #[trigger] q[j].url@)) && s2.queue == q.skip(k + 1)
            })
            &&& (a is Idle ==> (s2.queue == q || (!s.in_flight && s2.queue.len() == 0 && forall|j: int|
                0 <= j < q.len() ==> !allows(r, #[trigger] q[j].url@))))
            &&& (a is Dispatch || a is Idle)
        }),
{
    lemma_pop_allowed(s.queue, RobotsState::Done(body));
}

/// The states a run of messages takes the actor through, starting from `s`;
/// each message comes with the crawl delay its caller read for it.
pub open spec fn domain_run_states(s: DomainModel, run: Seq<(CrawlerMessage, Option<Delay>)>) -> Seq<DomainModel>
    decreases run.len(),
{
    if run.len() == 0 {
        seq![s]
    } else {
        let prev = domain_run_states(s, run.drop_last());
        prev.push(domain_step(prev.last(), run.last().0, run.last().1).0)
    }
}

/// The action the actor takes on the `k`th message of a run.
pub open spec fn domain_run_action(s: DomainModel, run: Seq<(CrawlerMessage, Option<Delay>)>, k: int) -> DomainAction {
    domain_step(domain_run_states(s, run)[k], run[k].0, run[k].1).1
}

/// A run passes through one state per message, each the step of the one
/// before.
pub proof fn lemma_domain_run_states(s: DomainModel, run: Seq<(CrawlerMessage, Option<Delay>)>)
    ensures
        domain_run_states(s, run).len() == run.len() + 1,
        domain_run_states(s, run)[0] == s,
        forall|k: int|
            #![trigger run[k]]
            0 <= k < run.len() ==> domain_run_states(s, run)[k + 1] == domain_step(
                domain_run_states(s, run)[k],
                run[k].0,
                run[k].1,
            ).0,
    decreases run.len(),
{
    if run.len() > 0 {
        let r0 = run.drop_last();
        lemma_domain_run_states(s, r0);
        let prev = domain_run_states(s, r0);
        let states = domain_run_states(s, run);
        assert forall|k: int|
            #![trigger run[k]]
            0 <= k < run.len() implies states[k + 1] == domain_step(states[k], run[k].0, run[k].1).0 by {
            if k < run.len() - 1 {
                assert(r0[k] == run[k]);
                assert(states[k] == prev[k]);
                assert(states[k + 1] == prev[k + 1]);
            }
        }
    }
}

proof fn lemma_run_queues_up_to(s: DomainModel, run: Seq<(CrawlerMessage, Option<Delay>)>, k: int)
    requires
        s.robots is Fetching,
        forall|i: int| 0 <= i < run.len() ==> #[trigger] run[i].0 is CrawlUrl,
        0 <= k <= run.len(),
    ensures
        domain_run_states(s, run)[k] == (DomainModel {
            queue: s.queue + Seq::new(k as nat, |i: int| run[i].0->CrawlUrl_0),
            ..s
        }),
    decreases k,
{
    lemma_domain_run_states(s, run);
    if k == 0 {
        assert(s.queue + Seq::new(0, |i: int| run[i].0->CrawlUrl_0) =~= s.queue);
    } else {
        lemma_run_queues_up_to(s, run, k - 1);
        let prev = domain_run_states(s, run)[k - 1];
        assert(run[k - 1].0 is CrawlUrl);
        assert(domain_run_states(s, run)[k] == domain_step(prev, run[k - 1].0, run[k - 1].1).0);
        assert(prev.queue.push(run[k - 1].0->CrawlUrl_0) =~= s.queue + Seq::new(
            k as nat,
            |i: int| run[i].0->CrawlUrl_0,
        ));
    }
}

/// No URL is fetched before robots.txt is known, over any run: from a state
/// still waiting for robots.txt, a run of `CrawlUrl` messages only queues
/// their URLs in arrival order, with no action and nothing else changed.
pub proof fn lemma_run_no_fetch_before_robots(s: DomainModel, run: Seq<(CrawlerMessage, Option<Delay>)>)
    requires
        s.robots is Fetching,
        forall|i: int| 0 <= i < run.len() ==> #[trigger] run[i].0 is CrawlUrl,
    ensures
        forall|k: int|
            0 <= k <= run.len() ==> #[trigger] domain_run_states(s, run)[k] == (DomainModel {
                queue: s.queue + Seq::new(k as nat, |i: int| run[i].0->CrawlUrl_0),
                ..s
            }),
        forall|k: int| 0 <= k < run.len() ==> #[trigger] domain_run_action(s, run, k) == DomainAction::Idle,
{
    assert forall|k: int|
        0 <= k <= run.len() implies #[trigger] domain_run_states(s, run)[k] == (DomainModel {
            queue: s.queue + Seq::new(k as nat, |i: int| run[i].0->CrawlUrl_0),
            ..s
        }) by {
        lemma_run_queues_up_to(s, run, k);
    }
    assert forall|k: int| 0 <= k < run.len() implies #[trigger] domain_run_action(s, run, k) == DomainAction::Idle by {
        lemma_run_queues_up_to(s, run, k);
        assert(run[k].0 is CrawlUrl);
    }
}

/// Once a fetch is under way, it stays under way until a page result arrives.
pub proof fn lemma_run_in_flight_persists(s: DomainModel, run: Seq<(CrawlerMessage, Option<Delay>)>, i: int, j: int)
    requires
        0 <= i <= j <= run.len(),
        domain_run_states(s, run)[i].in_flight,
        forall|k: int| i <= k < j ==> !(#[trigger] run[k].0 is PageResult),
    ensures
        domain_run_states(s, run)[j].in_flight,
    decreases j - i,
{
    lemma_domain_run_states(s, run);
    if i < j {
        assert(!(run[i].0 is PageResult));
        lemma_one_fetch_at_a_time(domain_run_states(s, run)[i], run[i].0, run[i].1);
        lemma_run_in_flight_persists(s, run, i + 1, j);
    }
}

/// One fetch per domain at a time, over any run: between any two dispatches
/// a page result arrives, and when the run starts with a fetch under way, a
/// page result arrives before the first dispatch.
pub proof fn lemma_run_one_fetch_at_a_time(s: DomainModel, run: Seq<(CrawlerMessage, Option<Delay>)>)
    ensures
        forall|i: int, j: int|
            0 <= i < j < run.len() && #[trigger] domain_run_action(s, run, i) is Dispatch
                && #[trigger] domain_run_action(s, run, j) is Dispatch ==> exists|k: int|
                i < k < j && #[trigger] run[k].0 is PageResult,
        forall|j: int|
            0 <= j < run.len() && s.in_flight && #[trigger] domain_run_action(s, run, j) is Dispatch
                ==> exists|k: int| 0 <= k < j && #[trigger] run[k].0 is PageResult,
{
    lemma_domain_run_states(s, run);
    let states = domain_run_states(s, run);
    assert forall|i: int, j: int|
        0 <= i < j < run.len() && #[trigger] domain_run_action(s, run, i) is Dispatch
            && #[trigger] domain_run_action(s, run, j) is Dispatch implies exists|k: int|
            i < k < j && #[trigger] run[k].0 is PageResult by {
        if !exists|k: int| i < k < j && #[trigger] run[k].0 is PageResult {
            lemma_one_fetch_at_a_time(states[i], run[i].0, run[i].1);
            assert(run[i] == run[i]);
            assert(states[i + 1].in_flight);
            lemma_run_in_flight_persists(s, run, i + 1, j);
            lemma_one_fetch_at_a_time(states[j], run[j].0, run[j].1);
        }
    }
    assert forall|j: int|
        0 <= j < run.len() && s.in_flight && #[trigger] domain_run_action(s, run, j) is Dispatch
            implies exists|k: int| 0 <= k < j && #[trigger] run[k].0 is PageResult by {
        if !exists|k: int| 0 <= k < j && #[trigger] run[k].0 is PageResult {
            lemma_run_in_flight_persists(s, run, 0, j);
            lemma_one_fetch_at_a_time(states[j], run[j].0, run[j].1);
        }
    }
}

impl DomainActor {
    /// A fresh actor for `domain`, waiting for its robots.txt.
    pub fn new(domain: String, default_delay: Delay) -> (res: DomainActor)
        ensures
            res@ == (DomainModel {
                domain: domain@,
                queue: Seq::empty(),
                robots: RobotsState::Fetching,
                crawl_delay: default_delay,
                default_delay: default_delay,
                in_flight: false,
            }),
    {
        DomainActor {
            domain,
            queue: VecDeque::new(),
            robots_state: RobotsState::Fetching,
            crawl_delay: default_delay,
            default_delay,
            in_flight: false,
        }
    }

    /// Whether robots.txt, as far as it is known, lets this crawler fetch `url`.
    pub fn is_allowed(&self, url: &str) -> (res: bool)
        requires
            robots_readable(self@.robots),
        ensures
            res == allows(self@.robots, url@),
    {
        match &self.robots_state {
            RobotsState::Done(Some(body)) => one_agent_allowed_by_robots(body.as_str(), USER_AGENT, url),
            _ => true,
        }
    }

    /// Dispatches the next allowed URL when no fetch is under way.
    pub fn try_dispatch(&mut self) -> (res: DomainAction)
        requires
            robots_readable(old(self)@.robots),
        ensures
            (final(self)@, res) == dispatch_step(old(self)@),
    {
        if self.in_flight {
            return DomainAction::Idle;
        }
        loop
            invariant
                !self.in_flight,
                !old(self)@.in_flight,
                robots_readable(old(self)@.robots),
                pop_allowed(self@.queue, self@.robots) == pop_allowed(old(self)@.queue, old(self)@.robots),
                self@.robots == old(self)@.robots,
                self@.domain == old(self)@.domain,
                self@.crawl_delay == old(self)@.crawl_delay,
                self@.default_delay == old(self)@.default_delay,
            decreases self@.queue.len(),
        {
            let ghost q = self@.queue;
            match self.queue.pop_front() {
                None => {
                    return DomainAction::Idle;
                },
                Some(candidate) => {
                    assert(q.drop_first() =~= self@.queue);
                    if self.is_allowed(candidate.url.as_str()) {
                        self.in_flight = true;
                        return DomainAction::Dispatch(candidate);
                    }
                },
            }
        }
    }

    /// The fetcher for the dispatched URL could not be started or told:
    /// no fetch is under way.
    pub fn dispatch_failed(&mut self)
        ensures
            final(self)@ == (DomainModel { in_flight: false, ..old(self)@ }),
    {
        self.in_flight = false;
    }

    /// Handles one message; `robots_delay` is the crawl delay read from a
    /// `RobotsReady` body (see [`domain_step`]).
    pub fn handle(&mut self, msg: CrawlerMessage, robots_delay: Option<Delay>) -> (res: DomainAction)
        requires
            robots_readable(old(self)@.robots),
            message_readable(msg),
        ensures
            (final(self)@, res) == domain_step(old(self)@, msg, robots_delay),
            robots_readable(final(self)@.robots),
    {
        match msg {
            CrawlerMessage::CrawlUrl(crawl_url) => {
                self.queue.push_back(crawl_url);
                match self.robots_state {
                    RobotsState::Done(_) => self.try_dispatch(),
                    RobotsState::Fetching => DomainAction::Idle,
                }
            },
            CrawlerMessage::RobotsReady(body) => {
                let delay = match (&body, robots_delay) {
                    (Some(_), Some(d)) => d,
                    _ => self.default_delay,
                };
                self.crawl_delay = delay;
                self.robots_state = RobotsState::Done(body);
                self.try_dispatch()
            },
            CrawlerMessage::PageResult(result) => {
                self.in_flight = false;
                if self.queue.len() == 0 {
                    DomainAction::ForwardAndStop(result)
                } else {
                    DomainAction::ForwardAndTick(result, self.crawl_delay)
                }
            },
            CrawlerMessage::Tick => self.try_dispatch(),
            _ => DomainAction::Idle,
        }
    }

    /// The address of the domain's robots.txt.
    pub fn robots_url(&self) -> (res: String)
        ensures
            res@ == "https://"@ + self@.domain + "/robots.txt"@,
    {
        let head = String::from_str("https://");
        let with_domain = head.concat(self.domain.as_str());
        with_domain.concat("/robots.txt")
    }

    /// The message the actor sends the frontier when it stops.
    pub fn post_stop(&self) -> (res: CrawlerMessage)
        ensures
            res matches CrawlerMessage::DomainStopped(d) && d@ == self@.domain,
    {
        CrawlerMessage::DomainStopped(self.domain.clone())
    }

    /// The pause after a fetch before the next queued URL is taken.
    pub fn crawl_delay(&self) -> (res: Delay)
        ensures
            res == self@.crawl_delay,
    {
        self.crawl_delay
    }

    /// How many URLs wait to be fetched.
    pub fn queue_len(&self) -> (res: usize)
        ensures
            res == self@.queue.len(),
    {
        self.queue.len()
    }

    /// Whether a fetch is under way.
    pub fn in_flight(&self) -> (res: bool)
        ensures
            res == self@.in_flight,
    {
        self.in_flight
    }
}

/// The host of `url` as the url crate parses it; `None` when the text does not
/// parse as a URL or the URL has no host.
pub uninterp spec fn url_host(url: Seq<char>) -> Option<Seq<char>>;

/// Calls `url::Url::parse` on `url` and, when it parses, `Url::host_str` on
/// the result. Its answer depends on the text alone; this contract names it
/// and claims nothing more of it.
#[verifier::external_body]
fn parse_url_host(url: &str) -> (res: Option<String>)
    ensures
        match res {
            Some(h) => url_host(url@) == Some(h@),
            None => url_host(url@) == None::<Seq<char>>,
        },
{
    let parsed = url::Url::parse(url).ok()?;
    let host = parsed.host_str()?;
    Some(host.to_string())
}

/// The domain (host) of `url`, or `None` when it has none.
pub fn extract_domain(url: &str) -> (res: Option<String>)
    ensures
        match res {
            Some(h) => url_host(url@) == Some(h@),
            None => url_host(url@) == None::<Seq<char>>,
        },
{
    parse_url_host(url)
}

} // verus!

//! Topic-pattern subscriptions and fan-out of events to them.
use vstd::prelude::*;
use vstd::string::*;

use crate::event::{event_to_topic, topic_of, Event};
use crate::text::chars_of;

verus! {

/// Splits `s` on dots, where `cur` holds the characters of the segment read so far.
pub open spec fn split_from(s: Seq<char>, cur: Seq<char>) -> Seq<Seq<char>>
    decreases s.len(),
{
    if s.len() == 0 {
        seq![cur]
    } else if s[0] == '.' {
        seq![cur] + split_from(s.drop_first(), Seq::empty())
    } else {
        split_from(s.drop_first(), cur.push(s[0]))
    }
}

/// The dot-separated segments of a name; a name without dots is one segment.
pub open spec fn segments(s: Seq<char>) -> Seq<Seq<char>> {
    split_from(s, Seq::empty())
}

/// Segment-wise match: same count, and each pattern segment is either `*`
/// over a non-empty topic segment, or equal to the topic segment.
pub open spec fn segments_match(p: Seq<Seq<char>>, t: Seq<Seq<char>>) -> bool {
    &&& p.len() == t.len()
    &&& forall|i: int| 0 <= i < p.len() ==> (p[i] == seq!['*'] && t[i].len() > 0) || p[i] == t[i]
}

/// Whether the pattern `p` matches the topic `t`.
pub open spec fn pattern_matches(p: Seq<char>, t: Seq<char>) -> bool {
    segments_match(segments(p), segments(t))
}

/// The views of a list of segments.
pub open spec fn views(v: Seq<Vec<char>>) -> Seq<Seq<char>> {
    v.map_values(|x: Vec<char>| x@)
}

fn split_segments(s: &str) -> (r: Vec<Vec<char>>)
    ensures
        views(r@) == segments(s@),
{
    let cs = chars_of(s);
    let n = cs.len();
    let mut done: Vec<Vec<char>> = Vec::new();
    let mut cur: Vec<char> = Vec::new();
    let mut i: usize = 0;
    assert(s@.skip(0) =~= s@);
    assert(views(done@) =~= Seq::<Seq<char>>::empty());
    assert(cur@ =~= Seq::<char>::empty());
    while i < n
        invariant
            n == cs@.len(),
            cs@ == s@,
            i <= n,
            segments(s@) == views(done@) + split_from(s@.skip(i as int), cur@),
        decreases n - i,
    {
        let c = cs[i];
        let ghost rest = s@.skip(i as int);
        assert(rest[0] == c);
        assert(rest.drop_first() =~= s@.skip(i + 1));
        if c == '.' {
            let ghost old_done = done@;
            let ghost old_cur = cur@;
            done.push(cur);
            cur = Vec::new();
            assert(views(done@) =~= views(old_done) + seq![old_cur]);
        } else {
            cur.push(c);
        }
        i = i + 1;
    }
    let ghost old_done = done@;
    let ghost old_cur = cur@;
    assert(s@.skip(n as int) =~= Seq::<char>::empty());
    done.push(cur);
    assert(views(done@) =~= views(old_done) + seq![old_cur]);
    done
}

fn same_chars(a: &Vec<char>, b: &Vec<char>) -> (r: bool)
    ensures
        r == (a@ == b@),
{
    if a.len() != b.len() {
        return false;
    }
    let mut i: usize = 0;
    while i < a.len()
        invariant
            a@.len() == b@.len(),
            i <= a@.len(),
            forall|k: int| 0 <= k < i ==> a@[k] == b@[k],
        decreases a@.len() - i,
    {
        if a[i] != b[i] {
            return false;
        }
        i = i + 1;
    }
    assert(a@ =~= b@);
    true
}

fn is_wildcard(a: &Vec<char>) -> (r: bool)
    ensures
        r == (a@ == seq!['*']),
{
    if a.len() == 1 && a[0] == '*' {
        assert(a@ =~= seq!['*']);
        true
    } else {
        false
    }
}

/// How a subscriber receives events.
#[derive(Clone, Copy, Debug, PartialEq, Eq, Structural)]
pub enum SinkKind {
    /// Invoked inline; never pruned.
    Handler,
    /// A queue whose receiver may go away; pruned once a push fails.
    Channel,
}

/// A receiver of routed events.
pub trait EventSink {
    /// Hands the event to the subscriber; false when it could not take it.
    fn deliver(&self, event: &Event) -> bool;
}

/// A pattern and the sink it delivers to.
pub struct Subscription<S> {
    pub pattern: String,
    pub kind: SinkKind,
    pub sink: S,
}

/// What happened to one subscription during a route.
#[derive(Clone, Copy, Debug, PartialEq, Eq, Structural)]
pub enum Delivery {
    /// Its pattern does not match the topic.
    Skipped,
    Delivered,
    Failed,
}

/// The outcome of routing one event.
pub struct RouteReport {
    pub topic: String,
    /// One entry per subscription held before the route, in order.
    pub outcomes: Vec<Delivery>,
    pub delivered: usize,
}

/// Number of successful deliveries among `o`.
pub open spec fn count_delivered(o: Seq<Delivery>) -> nat
    decreases o.len(),
{
    if o.len() == 0 {
        0
    } else {
        count_delivered(o.drop_last()) + if o.last() == Delivery::Delivered {
            1nat
        } else {
            0nat
        }
    }
}

/// Whether a subscription is dropped after an outcome.
pub open spec fn is_dead<S>(s: Subscription<S>, o: Delivery) -> bool {
    o == Delivery::Failed && s.kind == SinkKind::Channel
}

/// The subscriptions that stay after the outcomes `o`, in their order.
pub open spec fn survivors<S>(subs: Seq<Subscription<S>>, o: Seq<Delivery>) -> Seq<Subscription<S>>
    decreases subs.len(),
{
    if subs.len() == 0 || o.len() == 0 {
        Seq::empty()
    } else {
        let rest = survivors(subs.drop_last(), o.drop_last());
        if is_dead(subs.last(), o.last()) {
            rest
        } else {
            rest.push(subs.last())
        }
    }
}

/// Once a route has run, no subscription remains whose push failed on a
/// channel: every subscription left is one of those held before, with an
/// outcome that does not drop it, and every such one is left.
pub proof fn lemma_dead_channels_pruned<S>(subs: Seq<Subscription<S>>, o: Seq<Delivery>)
    requires
        subs.len() == o.len(),
    ensures
        forall|k: int|
            #![trigger survivors(subs, o)[k]]
            0 <= k < survivors(subs, o).len() ==> exists|i: int|
                0 <= i < subs.len() && subs[i] == survivors(subs, o)[k] && !is_dead(subs[i], o[i]),
        survivors(subs, o).len() == subs.len() - dead_count(subs, o),
    decreases subs.len(),
{
    if subs.len() > 0 {
        let d = subs.drop_last();
        let od = o.drop_last();
        lemma_dead_channels_pruned(d, od);
        let r = survivors(d, od);
        assert forall|k: int| #![trigger r[k]] 0 <= k < r.len() implies exists|i: int|
            0 <= i < subs.len() && subs[i] == r[k] && !is_dead(subs[i], o[i]) by {
            let i = choose|i: int| 0 <= i < d.len() && d[i] == r[k] && !is_dead(d[i], od[i]);
            assert(subs[i] == d[i] && o[i] == od[i]);
        }
        if !is_dead(subs.last(), o.last()) {
            let q = r.push(subs.last());
            assert forall|k: int| #![trigger q[k]] 0 <= k < q.len() implies exists|i: int|
                0 <= i < subs.len() && subs[i] == q[k] && !is_dead(subs[i], o[i]) by {
                if k == r.len() {
                    assert(subs[subs.len() - 1] == q[k]);
                } else {
                    assert(q[k] == r[k]);
                }
            }
        }
    }
}

/// Number of subscriptions that the outcomes `o` drop.
pub open spec fn dead_count<S>(subs: Seq<Subscription<S>>, o: Seq<Delivery>) -> int
    decreases subs.len(),
{
    if subs.len() == 0 || o.len() == 0 {
        0
    } else {
        dead_count(subs.drop_last(), o.drop_last()) + if is_dead(subs.last(), o.last()) {
            1int
        } else {
            0int
        }
    }
}

/// One route of an event on `topic` takes the subscriptions from `before` to
/// `after`: some outcome per subscription, skipped exactly where the pattern
/// does not match, then the dead channels dropped.
pub open spec fn routed<S>(before: Seq<Subscription<S>>, topic: Seq<char>, after: Seq<Subscription<S>>) -> bool {
    exists|o: Seq<Delivery>|
        #![trigger survivors(before, o)]
        o.len() == before.len() && (forall|i: int|
            0 <= i < before.len() ==> (o[i] == Delivery::Skipped <==> !pattern_matches(
                before[i].pattern@,
                topic,
            ))) && after == survivors(before, o)
}

/// `states` are the subscriptions before and after each route of events on
/// `topics`, one after another.
pub open spec fn route_chain<S>(states: Seq<Seq<Subscription<S>>>, topics: Seq<Seq<char>>) -> bool {
    &&& states.len() == topics.len() + 1
    &&& forall|k: int| 0 <= k < topics.len() ==> routed(#[trigger] states[k], topics[k], states[k + 1])
}

/// Routing events on `topics`, one after another, takes the subscriptions
/// from `before` to `after`.
pub open spec fn routes_all<S>(before: Seq<Subscription<S>>, topics: Seq<Seq<char>>, after: Seq<Subscription<S>>) -> bool {
    exists|states: Seq<Seq<Subscription<S>>>|
        route_chain(states, topics) && states[0] == before && states.last() == after
}

/// Routes events to subscribers whose pattern matches the event's topic.
pub struct EventRouter<S> {
    subscriptions: Vec<Subscription<S>>,
}

impl<S: EventSink> EventRouter<S> {
    pub closed spec fn subs(&self) -> Seq<Subscription<S>> {
        self.subscriptions@
    }

    /// A router without subscriptions.
    pub fn new() -> (r: Self)
        ensures
            r.subs().len() == 0,
    {
        EventRouter { subscriptions: Vec::new() }
    }

    /// Number of subscriptions held.
    pub fn len(&self) -> (r: usize)
        ensures
            r == self.subs().len(),
    {
        self.subscriptions.len()
    }

    /// Whether the pattern `pattern` matches the topic `topic`.
    pub fn matches_pattern(&self, topic: &str, pattern: &str) -> (r: bool)
        ensures
            r == pattern_matches(pattern@, topic@),
    {
        let ps = split_segments(pattern);
        let ts = split_segments(topic);
        if ps.len() != ts.len() {
            return false;
        }
        let mut i: usize = 0;
        while i < ps.len()
            invariant
                ps@.len() == ts@.len(),
                views(ps@) == segments(pattern@),
                views(ts@) == segments(topic@),
                i <= ps@.len(),
                forall|k: int|
                    0 <= k < i ==> (ps@[k]@ == seq!['*'] && ts@[k]@.len() > 0) || ps@[k]@ == ts@[k]@,
            decreases ps@.len() - i,
        {
            let wild = is_wildcard(&ps[i]) && ts[i].len() > 0;
            if !wild && !same_chars(&ps[i], &ts[i]) {
                assert(views(ps@)[i as int] == ps@[i as int]@);
                assert(views(ts@)[i as int] == ts@[i as int]@);
                return false;
            }
            i = i + 1;
        }
        assert forall|k: int| 0 <= k < segments(pattern@).len() implies (segments(pattern@)[k]
            == seq!['*'] && segments(topic@)[k].len() > 0) || segments(pattern@)[k] == segments(topic@)[k] by {
            assert(views(ps@)[k] == ps@[k]@);
            assert(views(ts@)[k] == ts@[k]@);
        }
        true
    }

    /// Registers a synchronous handler for a pattern.
    pub fn subscribe_handler(&mut self, pattern: String, handler: S)
        ensures
            final(self).subs().len() == old(self).subs().len() + 1,
            final(self).subs().drop_last() == old(self).subs(),
            final(self).subs().last().pattern@ == pattern@,
            final(self).subs().last().kind == SinkKind::Handler,
    {
        self.subscriptions.push(Subscription { pattern, kind: SinkKind::Handler, sink: handler });
        assert(self.subscriptions@.drop_last() =~= old(self).subscriptions@);
    }

    /// Registers a streaming channel for a pattern.
    pub fn subscribe_channel(&mut self, pattern: String, channel: S)
        ensures
            final(self).subs().len() == old(self).subs().len() + 1,
            final(self).subs().drop_last() == old(self).subs(),
            final(self).subs().last().pattern@ == pattern@,
            final(self).subs().last().kind == SinkKind::Channel,
    {
        self.subscriptions.push(Subscription { pattern, kind: SinkKind::Channel, sink: channel });
        assert(self.subscriptions@.drop_last() =~= old(self).subscriptions@);
    }

    /// Delivers `event` to every subscription whose pattern matches its topic,
    /// then drops each channel whose push failed, so that no later route
    /// tries it again.
    pub fn route_event(&mut self, event: &Event) -> (report: RouteReport)
        ensures
            report.topic@ == topic_of(event.event_type),
            report.outcomes@.len() == old(self).subs().len(),
            forall|i: int|
                0 <= i < old(self).subs().len() ==> (report.outcomes@[i] == Delivery::Skipped
                    <==> !pattern_matches(old(self).subs()[i].pattern@, topic_of(event.event_type))),
            report.delivered == count_delivered(report.outcomes@),
            final(self).subs() == survivors(old(self).subs(), report.outcomes@),
            routed(old(self).subs(), topic_of(event.event_type), final(self).subs()),
    {
        let topic = event_to_topic(event);
        let n = self.subscriptions.len();
        let mut outcomes: Vec<Delivery> = Vec::new();
        let mut delivered: usize = 0;
        let mut i: usize = 0;
        while i < n
            invariant
                n == self.subscriptions@.len(),
                self.subscriptions@ == old(self).subscriptions@,
                topic@ == topic_of(event.event_type),
                i <= n,
                outcomes@.len() == i,
                delivered == count_delivered(outcomes@),
                delivered <= i,
                forall|k: int|
                    0 <= k < i ==> (outcomes@[k] == Delivery::Skipped <==> !pattern_matches(
                        self.subscriptions@[k].pattern@,
                        topic@,
                    )),
            decreases n - i,
        {
            let ghost before = outcomes@;
            let sub = &self.subscriptions[i];
            let o = if self.matches_pattern(topic.as_str(), sub.pattern.as_str()) {
                if sub.sink.deliver(event) {
                    Delivery::Delivered
                } else {
                    Delivery::Failed
                }
            } else {
                Delivery::Skipped
            };
            outcomes.push(o);
            assert(outcomes@.drop_last() =~= before);
            if o == Delivery::Delivered {
                delivered = delivered + 1;
            }
            i = i + 1;
        }
        self.prune(&outcomes);
        assert(survivors(old(self).subs(), outcomes@) == self.subs());
        RouteReport { topic, outcomes, delivered }
    }

    /// Drops every channel subscription whose outcome is a failure and keeps
    /// the rest in order.
    pub fn prune(&mut self, outcomes: &Vec<Delivery>)
        requires
            outcomes@.len() == old(self).subs().len(),
        ensures
            final(self).subs() == survivors(old(self).subs(), outcomes@),
    {
        let mut old_subs: Vec<Subscription<S>> = Vec::new();
        std::mem::swap(&mut old_subs, &mut self.subscriptions);
        let ghost all = old_subs@;
        let n = old_subs.len();
        let mut kept: Vec<Subscription<S>> = Vec::new();
        let mut rest = old_subs;
        let mut i: usize = 0;
        while i < n
            invariant
                n == all.len(),
                outcomes@.len() == n,
                i <= n,
                rest@ == all.skip(i as int),
                kept@ == survivors(all.take(i as int), outcomes@.take(i as int)),
            decreases n - i,
        {
            let s = rest.remove(0);
            assert(s == all[i as int]);
            assert(rest@ =~= all.skip(i + 1));
            let ghost t = all.take(i + 1);
            let ghost ot = outcomes@.take(i + 1);
            assert(t.drop_last() =~= all.take(i as int));
            assert(ot.drop_last() =~= outcomes@.take(i as int));
            assert(t.last() == all[i as int]);
            assert(ot.last() == outcomes@[i as int]);
            let dead = outcomes[i] == Delivery::Failed && s.kind == SinkKind::Channel;
            if !dead {
                kept.push(s);
            }
            i = i + 1;
        }
        assert(all.take(n as int) =~= all);
        assert(outcomes@.take(n as int) =~= outcomes@);
        self.subscriptions = kept;
    }
}

} // verus!

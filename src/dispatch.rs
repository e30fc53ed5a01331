//! The decisions of the notification dispatcher: which subscribers hear of a
//! change and of which groups, which messages they get, and what a round of
//! deliveries comes to. Sending is left to the caller.
use vstd::prelude::*;

use crate::snapshot::{find_group, Snapshot, SnapshotView};
use crate::text::{string_views, text_eq};

verus! {

/// A subscriber and the groups they follow.
#[derive(Debug)]
pub struct Subscriber {
    pub id: i64,
    pub groups: Vec<String>,
}

pub struct SubscriberView {
    pub id: i64,
    pub groups: Seq<Seq<char>>,
}

impl View for Subscriber {
    type V = SubscriberView;

    open spec fn view(&self) -> SubscriberView {
        SubscriberView { id: self.id, groups: string_views(self.groups@) }
    }
}

/// The changed groups that one subscriber hears of.
#[derive(Debug)]
pub struct Delivery {
    pub subscriber: i64,
    pub groups: Vec<String>,
}

pub struct DeliveryView {
    pub subscriber: i64,
    pub groups: Seq<Seq<char>>,
}

impl View for Delivery {
    type V = DeliveryView;

    open spec fn view(&self) -> DeliveryView {
        DeliveryView { subscriber: self.subscriber, groups: string_views(self.groups@) }
    }
}

pub open spec fn subscriber_views(s: Seq<Subscriber>) -> Seq<SubscriberView> {
    s.map_values(|x: Subscriber| x@)
}

pub open spec fn delivery_views(s: Seq<Delivery>) -> Seq<DeliveryView> {
    s.map_values(|x: Delivery| x@)
}

/// The subscriber's groups that changed, in the subscriber's order.
pub open spec fn relevant_groups(groups: Seq<Seq<char>>, changed: Seq<Seq<char>>) -> Seq<Seq<char>>
    decreases groups.len(),
{
    if groups.len() == 0 {
        groups
    } else if changed.contains(groups.last()) {
        relevant_groups(groups.drop_last(), changed).push(groups.last())
    } else {
        relevant_groups(groups.drop_last(), changed)
    }
}

/// One delivery per subscriber who follows a changed group, in subscriber
/// order; the others are left out.
pub open spec fn planned(subs: Seq<SubscriberView>, changed: Seq<Seq<char>>) -> Seq<DeliveryView>
    decreases subs.len(),
{
    if subs.len() == 0 {
        Seq::empty()
    } else {
        let rest = planned(subs.drop_last(), changed);
        let g = relevant_groups(subs.last().groups, changed);
        if g.len() > 0 {
            rest.push(DeliveryView { subscriber: subs.last().id, groups: g })
        } else {
            rest
        }
    }
}

fn contains_name(names: &[String], name: &str) -> (r: bool)
    ensures
        r == string_views(names@).contains(name@),
{
    let mut i: usize = 0;
    while i < names.len()
        invariant
            i <= names.len(),
            forall|k: int| 0 <= k < i ==> names@[k]@ != name@,
        decreases names.len() - i,
    {
        if text_eq(names[i].as_str(), name) {
            assert(string_views(names@)[i as int] == name@);
            return true;
        }
        i = i + 1;
    }
    assert forall|k: int| 0 <= k < names@.len() implies string_views(names@)[k] != name@ by {
        assert(names@[k]@ != name@);
    }
    false
}

fn relevant_exec(groups: &[String], changed: &[String]) -> (r: Vec<String>)
    ensures
        string_views(r@) == relevant_groups(string_views(groups@), string_views(changed@)),
{
    let ghost gv = string_views(groups@);
    let mut out: Vec<String> = Vec::new();
    let mut i: usize = 0;
    assert(gv.take(0) =~= Seq::<Seq<char>>::empty());
    while i < groups.len()
        invariant
            i <= groups.len(),
            gv == string_views(groups@),
            string_views(out@) == relevant_groups(gv.take(i as int), string_views(changed@)),
        decreases groups.len() - i,
    {
        assert(gv.take(i + 1).drop_last() =~= gv.take(i as int));
        assert(gv.take(i + 1).last() == groups@[i as int]@);
        if contains_name(changed, groups[i].as_str()) {
            let ghost before = string_views(out@);
            let g = groups[i].clone();
            out.push(g);
            assert(string_views(out@) =~= before.push(groups@[i as int]@));
        }
        i = i + 1;
    }
    assert(gv.take(i as int) =~= gv);
    out
}

/// The deliveries of a round: each subscriber who follows a changed group
/// hears of those groups; the others hear nothing.
pub fn plan_deliveries(subscribers: &[Subscriber], changed: &[String]) -> (r: Vec<Delivery>)
    ensures
        delivery_views(r@) == planned(subscriber_views(subscribers@), string_views(changed@)),
{
    let ghost sv = subscriber_views(subscribers@);
    let mut out: Vec<Delivery> = Vec::new();
    let mut i: usize = 0;
    assert(sv.take(0) =~= Seq::<SubscriberView>::empty());
    while i < subscribers.len()
        invariant
            i <= subscribers.len(),
            sv == subscriber_views(subscribers@),
            delivery_views(out@) == planned(sv.take(i as int), string_views(changed@)),
        decreases subscribers.len() - i,
    {
        assert(sv.take(i + 1).drop_last() =~= sv.take(i as int));
        assert(sv.take(i + 1).last() == subscribers@[i as int]@);
        let groups = relevant_exec(subscribers[i].groups.as_slice(), changed);
        if groups.len() > 0 {
            let ghost before = delivery_views(out@);
            let d = Delivery { subscriber: subscribers[i].id, groups };
            let ghost dv = d@;
            out.push(d);
            assert(delivery_views(out@) =~= before.push(dv));
        }
        i = i + 1;
    }
    assert(sv.take(i as int) =~= sv);
    out
}

/// A message to send: the schedule of one group, alone or under the group's name.
#[derive(Debug)]
pub enum Message {
    /// The only changed group of the subscriber.
    Single(String),
    /// One of several changed groups, titled with its name.
    Titled(String),
}

pub enum MessageView {
    Single(Seq<char>),
    Titled(Seq<char>),
}

impl View for Message {
    type V = MessageView;

    open spec fn view(&self) -> MessageView {
        match self {
            Message::Single(g) => MessageView::Single(g@),
            Message::Titled(g) => MessageView::Titled(g@),
        }
    }
}

pub open spec fn message_views(s: Seq<Message>) -> Seq<MessageView> {
    s.map_values(|m: Message| m@)
}

/// The groups among `groups` that the snapshot holds, each titled.
pub open spec fn titled(snapshot: SnapshotView, groups: Seq<Seq<char>>) -> Seq<MessageView>
    decreases groups.len(),
{
    if groups.len() == 0 {
        Seq::empty()
    } else if find_group(snapshot.groups, groups.last()) is Some {
        titled(snapshot, groups.drop_last()).push(MessageView::Titled(groups.last()))
    } else {
        titled(snapshot, groups.drop_last())
    }
}

/// The messages of one delivery: a single message where one group changed,
/// else one titled message per group; groups the snapshot lacks are skipped.
pub open spec fn messages(snapshot: SnapshotView, groups: Seq<Seq<char>>) -> Seq<MessageView> {
    if groups.len() == 1 {
        if find_group(snapshot.groups, groups[0]) is Some {
            seq![MessageView::Single(groups[0])]
        } else {
            Seq::empty()
        }
    } else {
        titled(snapshot, groups)
    }
}

/// The messages that a subscriber hearing of `groups` gets.
pub fn messages_for(snapshot: &Snapshot, groups: &[String]) -> (r: Vec<Message>)
    requires
        snapshot.wf(),
    ensures
        message_views(r@) == messages(snapshot@, string_views(groups@)),
{
    let ghost gv = string_views(groups@);
    let mut out: Vec<Message> = Vec::new();
    if groups.len() == 1 {
        assert(gv[0] == groups@[0]@);
        if snapshot.group(groups[0].as_str()).is_some() {
            out.push(Message::Single(groups[0].clone()));
            assert(message_views(out@) =~= seq![MessageView::Single(gv[0])]);
        } else {
            assert(message_views(out@) =~= Seq::<MessageView>::empty());
        }
        return out;
    }
    let mut i: usize = 0;
    assert(gv.take(0) =~= Seq::<Seq<char>>::empty());
    assert(message_views(out@) =~= Seq::<MessageView>::empty());
    while i < groups.len()
        invariant
            i <= groups.len(),
            gv == string_views(groups@),
            snapshot.wf(),
            message_views(out@) == titled(snapshot@, gv.take(i as int)),
        decreases groups.len() - i,
    {
        assert(gv.take(i + 1).drop_last() =~= gv.take(i as int));
        assert(gv.take(i + 1).last() == groups@[i as int]@);
        if snapshot.group(groups[i].as_str()).is_some() {
            let ghost before = message_views(out@);
            out.push(Message::Titled(groups[i].clone()));
            assert(message_views(out@) =~= before.push(MessageView::Titled(groups@[i as int]@)));
        }
        i = i + 1;
    }
    assert(gv.take(i as int) =~= gv);
    out
}

/// How the delivery to one subscriber ended.
#[derive(Clone, Copy, Debug, PartialEq, Eq, Structural)]
pub enum DeliveryResult {
    /// Every message went out.
    Sent,
    /// The transport says the recipient blocked or removed the bot, or is gone.
    Unreachable,
    /// Any other failure.
    Failed,
}

/// The end of one subscriber's delivery.
#[derive(Clone, Copy, Debug, PartialEq, Eq, Structural)]
pub struct DeliveryOutcome {
    pub subscriber: i64,
    pub result: DeliveryResult,
}

/// The subscribers whose notifications are to be turned off, in order.
pub open spec fn to_disable(os: Seq<DeliveryOutcome>) -> Seq<i64>
    decreases os.len(),
{
    if os.len() == 0 {
        Seq::empty()
    } else if os.last().result == DeliveryResult::Unreachable {
        to_disable(os.drop_last()).push(os.last().subscriber)
    } else {
        to_disable(os.drop_last())
    }
}

/// The number of deliveries that went out whole.
pub open spec fn sent_count(os: Seq<DeliveryOutcome>) -> nat
    decreases os.len(),
{
    if os.len() == 0 {
        0
    } else if os.last().result == DeliveryResult::Sent {
        sent_count(os.drop_last()) + 1
    } else {
        sent_count(os.drop_last())
    }
}

/// What a round of deliveries came to.
#[derive(Debug)]
pub struct RoundReport {
    pub delivered: usize,
    pub total: usize,
    pub disable: Vec<i64>,
}

/// Sums up a round: how many deliveries went out whole, of how many, and
/// which subscribers proved unreachable and so are to have notifications
/// turned off.
pub fn settle(outcomes: &[DeliveryOutcome]) -> (r: RoundReport)
    ensures
        r.delivered == sent_count(outcomes@),
        r.total == outcomes@.len(),
        r.disable@ == to_disable(outcomes@),
{
    let mut delivered: usize = 0;
    let mut disable: Vec<i64> = Vec::new();
    let mut i: usize = 0;
    proof {
        lemma_sent_count_bound(outcomes@.take(0));
    }
    assert(outcomes@.take(0) =~= Seq::<DeliveryOutcome>::empty());
    while i < outcomes.len()
        invariant
            i <= outcomes.len(),
            delivered == sent_count(outcomes@.take(i as int)),
            disable@ == to_disable(outcomes@.take(i as int)),
        decreases outcomes.len() - i,
    {
        let ghost t = outcomes@.take(i + 1);
        assert(t.drop_last() =~= outcomes@.take(i as int));
        proof {
            lemma_sent_count_bound(t);
            lemma_sent_count_bound(outcomes@.take(i as int));
        }
        let o = outcomes[i];
        match o.result {
            DeliveryResult::Sent => {
                delivered = delivered + 1;
            },
            DeliveryResult::Unreachable => {
                disable.push(o.subscriber);
            },
            DeliveryResult::Failed => {},
        }
        i = i + 1;
    }
    assert(outcomes@.take(i as int) =~= outcomes@);
    RoundReport { delivered, total: outcomes.len(), disable }
}

proof fn lemma_sent_count_bound(os: Seq<DeliveryOutcome>)
    ensures
        sent_count(os) <= os.len(),
    decreases os.len(),
{
    if os.len() > 0 {
        lemma_sent_count_bound(os.drop_last());
    }
}

/// How many times `x` occurs in `s`.
pub open spec fn occurrences(s: Seq<i64>, x: i64) -> nat
    decreases s.len(),
{
    if s.len() == 0 {
        0
    } else if s.last() == x {
        occurrences(s.drop_last(), x) + 1
    } else {
        occurrences(s.drop_last(), x)
    }
}

/// Where every subscriber has one outcome in a round, an unreachable
/// subscriber is to be turned off exactly once and any other subscriber never,
/// whatever happened to the others.
pub proof fn lemma_unreachable_disabled_once(os: Seq<DeliveryOutcome>, k: int)
    requires
        0 <= k < os.len(),
        forall|i: int, j: int|
            0 <= i < os.len() && 0 <= j < os.len() && i != j ==> (#[trigger] os[i]).subscriber
                != (#[trigger] os[j]).subscriber,
    ensures
        occurrences(to_disable(os), os[k].subscriber) == if os[k].result
            == DeliveryResult::Unreachable {
            1nat
        } else {
            0nat
        },
    decreases os.len(),
{
    let x = os[k].subscriber;
    let d = os.drop_last();
    let t = to_disable(d);
    assert(t.push(os.last().subscriber).drop_last() =~= t);
    if k == os.len() - 1 {
        assert forall|i: int| 0 <= i < d.len() implies (#[trigger] d[i]).subscriber != x by {
            assert(d[i] == os[i]);
            assert(os[i].subscriber != os[k].subscriber);
        }
        lemma_not_disabled(d, x);
    } else {
        assert forall|i: int, j: int|
            0 <= i < d.len() && 0 <= j < d.len() && i != j implies (#[trigger] d[i]).subscriber
                != (#[trigger] d[j]).subscriber by {
            assert(d[i] == os[i]);
            assert(d[j] == os[j]);
        }
        lemma_unreachable_disabled_once(d, k);
        assert(d[k] == os[k]);
        assert(os[os.len() - 1].subscriber != os[k].subscriber);
    }
}

proof fn lemma_not_disabled(os: Seq<DeliveryOutcome>, x: i64)
    requires
        forall|i: int| 0 <= i < os.len() ==> (#[trigger] os[i]).subscriber != x,
    ensures
        occurrences(to_disable(os), x) == 0,
    decreases os.len(),
{
    if os.len() > 0 {
        let d = os.drop_last();
        assert forall|i: int| 0 <= i < d.len() implies (#[trigger] d[i]).subscriber != x by {
            assert(d[i] == os[i]);
        }
        lemma_not_disabled(d, x);
        let t = to_disable(d);
        assert(t.push(os.last().subscriber).drop_last() =~= t);
        assert(os[os.len() - 1].subscriber != x);
    }
}

} // verus!

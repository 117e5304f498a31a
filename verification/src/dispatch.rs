use vstd::prelude::*;

use crate::console::{node_request, set_float_message, set_int_message, set_string_message};
use crate::meter::Meter;
use crate::node::Float32;
use crate::subscriptions::{all_subscribers, ids_distinct, recipients, subscribers_of, PropertySubscribers};
use crate::{WingConsole, WingResponse};
use vstd::seq_lib::lemma_multiset_commutative;
use vstd::utf8::encode_utf8;

verus! {

/// A command for the loop that owns a connection; subscribers are named by handles that
/// their owner gave them.
#[derive(Debug)]
pub enum LoopCommand {
    RequestNodeData(i32),
    RequestNodeDefinition(i32),
    SetString(i32, String),
    SetFloat(i32, Float32),
    SetInt(i32, i32),
    RequestMeter(Vec<Meter>),
    SubscribeProperty(i32, u64),
    UnsubscribeProperty(i32),
    SubscribeMeter(u64),
    UnsubscribeMeter,
    Disconnect,
}

/// What the loop does for a command.
#[derive(Debug)]
pub enum LoopAction {
    /// Send these bytes to the console.
    Send(Vec<u8>),
    /// Subscribe to these meters.
    RequestMeter(Vec<Meter>),
    /// These handles are no longer subscribed: their channels can be let go.
    Release(Vec<u64>),
    /// Nothing to send.
    Nothing,
    /// Stop the loop: take no further command.
    Stop,
}

/// The model of the loop's state.
pub struct LoopView {
    pub properties: Seq<(i32, Seq<u64>)>,
    pub meters: Seq<u64>,
    pub running: bool,
}

/// The state of the loop that owns a connection: who is subscribed to which property,
/// who to the meters, and whether it still takes commands.
pub struct ConnectionLoop {
    properties: PropertySubscribers,
    meters: Vec<u64>,
    running: bool,
}

impl View for ConnectionLoop {
    type V = LoopView;

    closed spec fn view(&self) -> LoopView {
        LoopView { properties: self.properties@, meters: self.meters@, running: self.running }
    }
}

/// The change a subscription to property `id` makes to the table.
pub open spec fn subscribed(before: Seq<(i32, Seq<u64>)>, after: Seq<(i32, Seq<u64>)>, id: i32, sub: u64) -> bool {
    &&& subscribers_of(after, id) == subscribers_of(before, id).push(sub)
    &&& forall|q: i32| q != id ==> #[trigger] subscribers_of(after, q) == subscribers_of(before, q)
    &&& all_subscribers(after).to_multiset() == all_subscribers(before).to_multiset().insert(sub)
    &&& ids_distinct(after)
}

/// The change that dropping the subscribers of property `id` makes to the table.
pub open spec fn unsubscribed(before: Seq<(i32, Seq<u64>)>, after: Seq<(i32, Seq<u64>)>, id: i32) -> bool {
    &&& subscribers_of(after, id) == Seq::<u64>::empty()
    &&& forall|q: i32| q != id ==> #[trigger] subscribers_of(after, q) == subscribers_of(before, q)
    &&& all_subscribers(after).to_multiset() == all_subscribers(before).to_multiset().sub(
        subscribers_of(before, id).to_multiset(),
    )
    &&& ids_distinct(after)
}

fn copy_handles(v: &Vec<u64>) -> (r: Vec<u64>)
    ensures
        r@ == v@,
{
    let mut r: Vec<u64> = Vec::new();
    let mut k: usize = 0;
    while k < v.len()
        invariant
            k <= v@.len(),
            r@ == v@.subrange(0, k as int),
        decreases v@.len() - k,
    {
        r.push(v[k]);
        k += 1;
        assert(r@ =~= v@.subrange(0, k as int));
    }
    assert(v@.subrange(0, v@.len() as int) =~= v@);
    r
}

impl ConnectionLoop {
    /// A loop that takes commands and has no subscribers.
    pub fn new() -> (l: Self)
        ensures
            l@.properties == Seq::<(i32, Seq<u64>)>::empty(),
            l@.meters == Seq::<u64>::empty(),
            l@.running,
    {
        let l = ConnectionLoop { properties: PropertySubscribers::new(), meters: Vec::new(), running: true };
        assert(l@.meters =~= Seq::<u64>::empty());
        l
    }

    /// Whether the loop still takes commands.
    pub fn running(&self) -> (b: bool)
        ensures
            b == self@.running,
    {
        self.running
    }

    /// Performs one command: what to send to the console, the subscriptions it changes,
    /// and a stop on `Disconnect`. A subscription to a property also asks for its value.
    pub fn on_command(&mut self, cmd: LoopCommand) -> (a: LoopAction)
        requires
            old(self)@.running,
        ensures
            match cmd {
                LoopCommand::RequestNodeData(id) => final(self)@ == old(self)@
                    && (a matches LoopAction::Send(m) && m@ == node_request(id, 0xdc)),
                LoopCommand::RequestNodeDefinition(id) => final(self)@ == old(self)@
                    && (a matches LoopAction::Send(m) && m@ == node_request(id, 0xdd)),
                LoopCommand::SetString(id, v) => final(self)@ == old(self)@
                    && (a matches LoopAction::Send(m) && m@ == set_string_message(id, encode_utf8(v@))),
                LoopCommand::SetFloat(id, v) => final(self)@ == old(self)@
                    && (a matches LoopAction::Send(m) && m@ == set_float_message(id, v.bits)),
                LoopCommand::SetInt(id, v) => final(self)@ == old(self)@
                    && (a matches LoopAction::Send(m) && m@ == set_int_message(id, v)),
                LoopCommand::RequestMeter(ms) => final(self)@ == old(self)@
                    && (a matches LoopAction::RequestMeter(m) && m@ == ms@),
                LoopCommand::SubscribeProperty(id, h) => {
                    &&& subscribed(old(self)@.properties, final(self)@.properties, id, h)
                    &&& final(self)@.meters == old(self)@.meters
                    &&& final(self)@.running
                    &&& a matches LoopAction::Send(m) && m@ == node_request(id, 0xdc)
                },
                LoopCommand::UnsubscribeProperty(id) => {
                    &&& unsubscribed(old(self)@.properties, final(self)@.properties, id)
                    &&& final(self)@.meters == old(self)@.meters
                    &&& final(self)@.running
                    &&& a matches LoopAction::Release(r) && r@ == subscribers_of(old(self)@.properties, id)
                },
                LoopCommand::SubscribeMeter(h) => final(self)@ == (LoopView {
                    meters: old(self)@.meters.push(h),
                    ..old(self)@
                }) && a is Nothing,
                LoopCommand::UnsubscribeMeter => final(self)@ == (LoopView {
                    meters: Seq::<u64>::empty(),
                    ..old(self)@
                }) && (a matches LoopAction::Release(r) && r@ == old(self)@.meters),
                LoopCommand::Disconnect => final(self)@ == (LoopView { running: false, ..old(self)@ })
                    && a is Stop,
            },
    {
        match cmd {
            LoopCommand::RequestNodeData(id) => LoopAction::Send(WingConsole::request_node_data(id)),
            LoopCommand::RequestNodeDefinition(id) => LoopAction::Send(
                WingConsole::request_node_definition(id),
            ),
            LoopCommand::SetString(id, v) => LoopAction::Send(WingConsole::set_string(id, v.as_str())),
            LoopCommand::SetFloat(id, v) => LoopAction::Send(WingConsole::set_float(id, v)),
            LoopCommand::SetInt(id, v) => LoopAction::Send(WingConsole::set_int(id, v)),
            LoopCommand::RequestMeter(ms) => LoopAction::RequestMeter(ms),
            LoopCommand::SubscribeProperty(id, h) => {
                self.properties.subscribe(id, h);
                LoopAction::Send(WingConsole::request_node_data(id))
            },
            LoopCommand::UnsubscribeProperty(id) => {
                let r = self.properties.subscribers(id);
                self.properties.unsubscribe(id);
                LoopAction::Release(r)
            },
            LoopCommand::SubscribeMeter(h) => {
                self.meters.push(h);
                LoopAction::Nothing
            },
            LoopCommand::UnsubscribeMeter => {
                let mut gone = Vec::new();
                std::mem::swap(&mut gone, &mut self.meters);
                LoopAction::Release(gone)
            },
            LoopCommand::Disconnect => {
                self.running = false;
                LoopAction::Stop
            },
        }
    }

    /// The property subscribers that a message from the console goes to (see
    /// [`recipients`]).
    pub fn route(&self, resp: &WingResponse) -> (r: Vec<u64>)
        ensures
            r@ == recipients(self@.properties, *resp),
    {
        self.properties.route(resp)
    }

    /// The subscribers that every meter reading goes to, in the order in which they
    /// subscribed.
    pub fn meter_recipients(&self) -> (r: Vec<u64>)
        ensures
            r@ == self@.meters,
    {
        copy_handles(&self.meters)
    }
}

/// How many times handle `h` is given a message of the console.
pub open spec fn deliveries(t: Seq<(i32, Seq<u64>)>, resp: WingResponse, h: u64) -> nat {
    recipients(t, resp).to_multiset().count(h)
}

/// The subscribers of one property are among all subscribers, as often as they are there.
proof fn lemma_subscribers_within(t: Seq<(i32, Seq<u64>)>, id: i32, g: u64)
    ensures
        subscribers_of(t, id).to_multiset().count(g) <= all_subscribers(t).to_multiset().count(g),
    decreases t.len(),
{
    broadcast use vstd::multiset::group_multiset_axioms;

    if t.len() > 0 {
        lemma_subscribers_within(t.drop_last(), id, g);
        lemma_multiset_commutative(all_subscribers(t.drop_last()), t.last().1);
    }
}

/// Routing after a subscription of handle `h` to property `id`: each value of `id` goes to
/// the subscribers it went to and to `h` once more, the values of other properties go
/// where they went, and every other message goes once more to `h` and as often as before
/// to every other handle.
pub proof fn law_subscription_routing(
    t0: Seq<(i32, Seq<u64>)>,
    t1: Seq<(i32, Seq<u64>)>,
    id: i32,
    h: u64,
    resp: WingResponse,
    g: u64,
)
    requires
        subscribed(t0, t1, id, h),
    ensures
        match resp {
            WingResponse::NodeData(q, _) => if q == id {
                recipients(t1, resp) == recipients(t0, resp).push(h)
            } else {
                recipients(t1, resp) == recipients(t0, resp)
            },
            _ => deliveries(t1, resp, g) == deliveries(t0, resp, g) + (if g == h {
                1nat
            } else {
                0nat
            }),
        },
{
    broadcast use vstd::multiset::group_multiset_axioms;

    match resp {
        WingResponse::NodeData(q, _) => {
            if q != id {
                assert(subscribers_of(t1, q) == subscribers_of(t0, q));
            }
        },
        _ => {},
    }
}

/// Routing after the subscribers of property `id` are dropped: values of `id` go to no
/// one, values of other properties go where they went, and every other message reaches
/// each handle as often as before less the times it was subscribed to `id`.
pub proof fn law_unsubscription_routing(
    t0: Seq<(i32, Seq<u64>)>,
    t1: Seq<(i32, Seq<u64>)>,
    id: i32,
    resp: WingResponse,
    g: u64,
)
    requires
        unsubscribed(t0, t1, id),
    ensures
        match resp {
            WingResponse::NodeData(q, _) => if q == id {
                recipients(t1, resp) == Seq::<u64>::empty()
            } else {
                recipients(t1, resp) == recipients(t0, resp)
            },
            _ => deliveries(t1, resp, g) + subscribers_of(t0, id).to_multiset().count(g)
                == deliveries(t0, resp, g),
        },
{
    broadcast use vstd::multiset::group_multiset_axioms;

    match resp {
        WingResponse::NodeData(q, _) => {
            if q != id {
                assert(subscribers_of(t1, q) == subscribers_of(t0, q));
            }
        },
        _ => {
            lemma_subscribers_within(t0, id, g);
        },
    }
}

} // verus!

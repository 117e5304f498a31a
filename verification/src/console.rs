use vstd::prelude::*;

use vstd::utf8::encode_utf8;

use crate::bytes::be16;
use crate::encode::{be_bytes, be_bytes32, id_message, push_all, push_id, unsigned32, unsigned_bits};
use crate::meter::{
    meter_levels, meter_request, meter_request_bytes, meters_keep_alive, meters_keep_alive_bytes,
    parse_meter_datagram, Meter,
};
use crate::catalog::{id_of_name, lookup, names_distinct, with_id, NodeCatalog};
use crate::node::{Float32, WingNodeDef};
use crate::wire::{
    initial_rx, measure, read_command_exec, read_from, lemma_read_command_progress,
    response_view, CommandOutcome, ReadReport, RxState,
};
use crate::{Error, Result, WingResponse};

verus! {

/// The mathematical model of a console's receive state: the bytes received and not yet
/// read, the unescaping state, and the node that values refer to.
pub struct ConsoleView {
    pub pending: Seq<u8>,
    pub rx: RxState,
    pub node: i32,
}

/// The protocol state of one connection to a Wing console.
///
/// The connection feeds the bytes it receives to [`WingConsole::receive`] and takes the
/// console's messages from [`WingConsole::read`]; the other methods give the bytes of the
/// requests to send.
#[derive(Debug)]
pub struct WingConsole {
    rx_buf: Vec<u8>,
    rx: RxState,
    current_node_id: i32,
}

impl View for WingConsole {
    type V = ConsoleView;

    closed spec fn view(&self) -> ConsoleView {
        ConsoleView {
            pending: self.rx_buf@,
            rx: self.rx,
            node: self.current_node_id,
        }
    }
}

/// Whether a result of [`WingConsole::read`] is what reading reported.
pub open spec fn reports(r: Result<Option<WingResponse>>, rep: ReadReport) -> bool {
    match rep {
        ReadReport::NeedMore => r matches Ok(None),
        ReadReport::Response(v) => r matches Ok(Some(x)) && response_view(x) == v,
        ReadReport::Invalid => r matches Err(Error::InvalidData),
    }
}

/// The message that sets node `id` to the string whose UTF-8 bytes are `bytes`.
///
/// Strings of more than 256 bytes are sent without a length.
pub open spec fn string_length_prefix(len: nat) -> Seq<u8> {
    if len == 0 {
        seq![0xd0]
    } else if len <= 64 {
        seq![(0x7f + len) as u8]
    } else if len <= 256 {
        seq![0xd1, (len - 1) as u8]
    } else {
        seq![]
    }
}

pub open spec fn set_string_message(id: i32, bytes: Seq<u8>) -> Seq<u8> {
    id_message(id, 0xd7, None) + string_length_prefix(bytes.len()) + bytes
}

pub open spec fn set_float_message(id: i32, bits: u32) -> Seq<u8> {
    id_message(id, 0xd7, Some(0xd5)) + be_bytes32(bits as int)
}

/// The value part of an integer message: 0-63 inline, then the 16-bit big-endian form,
/// then the full 32-bit form.
pub open spec fn int_payload(v: i32) -> Seq<u8> {
    let b = be_bytes32(unsigned32(v));
    if 0 <= v <= 0x3f {
        seq![v as u8]
    } else if -32768 <= v <= 32767 {
        seq![0xd3, b[2], b[3]]
    } else {
        seq![0xd4] + b
    }
}

pub open spec fn set_int_message(id: i32, v: i32) -> Seq<u8> {
    id_message(id, 0xd7, None) + int_payload(v)
}

/// A request for node `id`: the root (id 0) is addressed by the go-to-root command.
pub open spec fn node_request(id: i32, cmd: u8) -> Seq<u8> {
    if id == 0 {
        seq![0xda, cmd]
    } else {
        id_message(id, 0xd7, Some(cmd))
    }
}

fn tail(v: &Vec<u8>, pos: usize) -> (r: Vec<u8>)
    requires
        pos <= v@.len(),
    ensures
        r@ == v@.skip(pos as int),
{
    let mut r: Vec<u8> = Vec::new();
    let mut k = pos;
    while k < v.len()
        invariant
            pos <= k <= v@.len(),
            r@ == v@.subrange(pos as int, k as int),
        decreases v@.len() - k,
    {
        r.push(v[k]);
        k += 1;
        assert(r@ =~= v@.subrange(pos as int, k as int));
    }
    assert(r@ =~= v@.skip(pos as int));
    r
}

impl WingConsole {
    /// The state of a fresh connection.
    pub fn new() -> (c: Self)
        ensures
            c@ == (ConsoleView {
                pending: seq![],
                rx: initial_rx(),
                node: 0,
            }),
    {
        let c = WingConsole {
            rx_buf: Vec::new(),
            rx: RxState { esc: false, channel: -1, pipe: None },
            current_node_id: 0,
        };
        assert(c@.pending =~= seq![]);
        c
    }

    /// Hands bytes received from the console to the decoder.
    pub fn receive(&mut self, data: &[u8])
        ensures
            final(self)@ == (ConsoleView { pending: old(self)@.pending + data@, ..old(self)@ }),
    {
        push_all(&mut self.rx_buf, data);
    }

    /// Reads the next message of the console from the bytes received: skipped commands are
    /// consumed, a command that is cut short is left for when more bytes have arrived
    /// (`Ok(None)`), a string that is not UTF-8 or a malformed node definition is consumed
    /// and reported as `InvalidData`.
    pub fn read(&mut self) -> (r: Result<Option<WingResponse>>)
        ensures
            ({
                let (st, node, pos, rep) = read_from(
                    old(self)@.rx,
                    old(self)@.node,
                    old(self)@.pending,
                    0,
                );
                &&& final(self)@ == (ConsoleView {
                    pending: old(self)@.pending.skip(pos),
                    rx: st,
                    node,
                })
                &&& reports(r, rep)
            }),
            // a byte above 223 where a command is due is no command: it is consumed and
            // reported as invalid data
            old(self)@.rx.pipe is None && !old(self)@.rx.esc && old(self)@.pending.len() > 0
                && old(self)@.pending[0] >= 0xe0 ==> (r matches Err(Error::InvalidData))
                && final(self)@.pending == old(self)@.pending.skip(1),
    {
        let ghost input = self.rx_buf@;
        let ghost st0 = self.rx;
        let ghost node0 = self.current_node_id;
        let mut st = self.rx;
        let mut node = self.current_node_id;
        let mut pos: usize = 0;
        loop
            invariant
                *self == *old(self),
                self.rx_buf@ == input,
                st0 == old(self)@.rx,
                node0 == old(self)@.node,
                input == old(self)@.pending,
                pos <= input.len(),
                read_from(st0, node0, input, 0) == read_from(st, node, input, pos as int),
            decreases measure(st, input, pos as int),
        {
            let outcome = read_command_exec(self.rx_buf.as_slice(), st, node, pos);
            proof {
                lemma_read_command_progress(st, node, input, pos as int);
                crate::wire::lemma_read_command_bounds(st, node, input, pos as int);
            }
            match outcome {
                CommandOutcome::Incomplete => {
                    self.commit(st, node, pos);
                    return Ok(None);
                },
                CommandOutcome::Skip(s2, n2, p2) => {
                    st = s2;
                    node = n2;
                    pos = p2;
                },
                CommandOutcome::Respond(s2, p2, resp) => {
                    self.commit(s2, node, p2);
                    return Ok(Some(resp));
                },
                CommandOutcome::Invalid(s2, p2) => {
                    self.commit(s2, node, p2);
                    return Err(Error::InvalidData);
                },
            }
        }
    }

    fn commit(&mut self, st: RxState, node: i32, pos: usize)
        requires
            pos <= old(self)@.pending.len(),
        ensures
            final(self)@ == (ConsoleView {
                pending: old(self)@.pending.skip(pos as int),
                rx: st,
                node,
            }),
    {
        let rest = tail(&self.rx_buf, pos);
        self.rx_buf = rest;
        self.rx = st;
        self.current_node_id = node;
    }

    /// The keep-alive message, which the console needs at least every ten seconds; it is
    /// also the first message of a connection.
    pub fn keep_alive() -> (m: Vec<u8>)
        ensures
            m@ == seq![0xdfu8, 0xd1u8],
    {
        let mut m: Vec<u8> = Vec::new();
        m.push(0xdf);
        m.push(0xd1);
        assert(m@ =~= seq![0xdfu8, 0xd1u8]);
        m
    }

    /// The request for the definition of node `id`.
    pub fn request_node_definition(id: i32) -> (m: Vec<u8>)
        ensures
            m@ == node_request(id, 0xdd),
    {
        Self::node_request_bytes(id, 0xdd)
    }

    /// The request for the value of node `id`.
    pub fn request_node_data(id: i32) -> (m: Vec<u8>)
        ensures
            m@ == node_request(id, 0xdc),
    {
        Self::node_request_bytes(id, 0xdc)
    }

    fn node_request_bytes(id: i32, cmd: u8) -> (m: Vec<u8>)
        ensures
            m@ == node_request(id, cmd),
    {
        let mut buf: Vec<u8> = Vec::new();
        if id == 0 {
            buf.push(0xda);
            buf.push(cmd);
            assert(buf@ =~= node_request(id, cmd));
        } else {
            push_id(&mut buf, id, 0xd7, Some(cmd));
            assert(buf@ =~= node_request(id, cmd));
        }
        buf
    }

    /// The message that sets node `id` to the string `value`.
    pub fn set_string(id: i32, value: &str) -> (m: Vec<u8>)
        ensures
            m@ == set_string_message(id, encode_utf8(value@)),
    {
        let bytes = value.as_bytes();
        let mut buf: Vec<u8> = Vec::new();
        push_id(&mut buf, id, 0xd7, None);
        let ghost head = buf@;
        let len = bytes.len();
        if len == 0 {
            buf.push(0xd0);
        } else if len <= 64 {
            buf.push(0x7f + len as u8);
        } else if len <= 256 {
            buf.push(0xd1);
            buf.push((len - 1) as u8);
        }
        assert(buf@ =~= head + string_length_prefix(len as nat));
        push_all(&mut buf, bytes);
        assert(buf@ =~= set_string_message(id, encode_utf8(value@)));
        buf
    }

    /// The message that sets node `id` to the float `value`.
    pub fn set_float(id: i32, value: Float32) -> (m: Vec<u8>)
        ensures
            m@ == set_float_message(id, value.bits),
    {
        let mut buf: Vec<u8> = Vec::new();
        push_id(&mut buf, id, 0xd7, Some(0xd5));
        let b = be_bytes(value.bits);
        push_all(&mut buf, &b);
        buf
    }

    /// The message that sets node `id` to the integer `value`.
    pub fn set_int(id: i32, value: i32) -> (m: Vec<u8>)
        ensures
            m@ == set_int_message(id, value),
    {
        let mut buf: Vec<u8> = Vec::new();
        push_id(&mut buf, id, 0xd7, None);
        let ghost head = buf@;
        let b = be_bytes(unsigned_bits(value));
        if 0 <= value && value <= 0x3f {
            buf.push(value as u8);
        } else if -32768 <= value && value <= 32767 {
            buf.push(0xd3);
            buf.push(b[2]);
            buf.push(b[3]);
        } else {
            buf.push(0xd4);
            push_all(&mut buf, &b);
        }
        assert(buf@ =~= head + int_payload(value));
        buf
    }

    /// Splits a meter datagram into the subscription id and the levels.
    pub fn read_meters(datagram: &[u8]) -> (r: (u16, Vec<i16>))
        requires
            datagram@.len() >= 4,
        ensures
            r.0 as int == be16(datagram@, 0),
            r.1@ == meter_levels(datagram@),
    {
        parse_meter_datagram(datagram)
    }

    /// The id that `fullname` stands for in `catalog`: a decimal number is that id, a path
    /// the id of its node, and -1 where the catalog has no such path (see [`id_of_name`]).
    pub fn name_to_id(catalog: &NodeCatalog, fullname: &str) -> (r: Option<i32>)
        ensures
            r == Some(id_of_name(catalog@, fullname@)),
    {
        catalog.name_to_id(fullname)
    }

    /// The definition of the node at path `fullname` in `catalog`.
    pub fn name_to_def<'a>(catalog: &'a NodeCatalog, fullname: &str) -> (r: Option<&'a WingNodeDef>)
        ensures
            match r {
                Some(d) => lookup(catalog@, fullname@) == Some(d@),
                None => lookup(catalog@, fullname@) is None,
            },
    {
        catalog.name_to_def(fullname)
    }

    /// Every path of `catalog` whose node has the id `id`, with its definition, in the
    /// catalog's order; `None` where there is none.
    pub fn id_to_defs(catalog: &NodeCatalog, id: i32) -> (r: Option<Vec<(String, WingNodeDef)>>)
        ensures
            match r {
                Some(v) => with_id(catalog@, id).len() > 0 && v@.map_values(
                    |e: (String, WingNodeDef)| (e.0@, e.1@),
                ) == with_id(catalog@, id),
                None => with_id(catalog@, id).len() == 0,
            },
            names_distinct(catalog@),
            names_distinct(with_id(catalog@, id)),
    {
        catalog.id_to_defs(id)
    }
}

/// How often the control connection is kept alive, in milliseconds; the console hangs up
/// after ten seconds without a message.
pub const DATA_KEEP_ALIVE_MS: u64 = 7000;

/// How often the meter subscriptions are renewed, in milliseconds; the console drops one
/// that is not renewed within five seconds.
pub const METERS_KEEP_ALIVE_MS: u64 = 3000;

/// Whether a keep-alive is due at `now` with the deadline `due` (milliseconds on one
/// clock), and if so the next deadline, `period` after `now` (the clock's end where that
/// lies beyond it).
pub fn keep_alive_due(due: u64, now: u64, period: u64) -> (next: Option<u64>)
    ensures
        next is Some <==> due <= now,
        next matches Some(n) ==> n == if now + period <= u64::MAX {
            (now + period) as u64
        } else {
            u64::MAX
        },
{
    if due <= now {
        Some(now.saturating_add(period))
    } else {
        None
    }
}

/// The meter subscriptions of a connection: they are numbered from 1 in the order in which
/// they are made.
#[derive(Debug)]
pub struct MeterSubscriptions {
    next_meter_id: u16,
}

impl View for MeterSubscriptions {
    type V = u16;

    /// The number of subscriptions made.
    closed spec fn view(&self) -> u16 {
        self.next_meter_id
    }
}

impl MeterSubscriptions {
    pub fn new() -> (m: Self)
        ensures
            m@ == 0,
    {
        MeterSubscriptions { next_meter_id: 0 }
    }

    /// The number of subscriptions made, which is the id of the last.
    pub fn count(&self) -> (n: u16)
        ensures
            n == self@,
    {
        self.next_meter_id
    }

    /// Makes a new meter subscription for `meters`, whose values the console is to send by
    /// UDP to `port`: gives its id (one more than the last) and the request to send.
    pub fn request_meter(&mut self, meters: &[Meter], port: u16) -> (r: (u16, Vec<u8>))
        requires
            old(self)@ < u16::MAX,
        ensures
            r.0 == old(self)@ + 1,
            final(self)@ == r.0,
            r.1@ == meter_request(port, r.0, meters@),
    {
        self.next_meter_id = self.next_meter_id + 1;
        let id = self.next_meter_id;
        (id, meter_request_bytes(port, id, meters))
    }

    /// The messages that keep every meter subscription made so far alive, the newest first;
    /// the console drops a subscription that is not renewed within five seconds.
    pub fn keep_alive_meters(&self, port: u16) -> (m: Vec<u8>)
        ensures
            m@ == meters_keep_alive(port, self@),
    {
        meters_keep_alive_bytes(port, self.next_meter_id)
    }

}

} // verus!

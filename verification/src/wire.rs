use vstd::prelude::*;
use vstd::utf8::{decode_utf8, valid_utf8};

use crate::bytes::{be16, be32, read_be16, read_be32, signed16, signed32, string_from_utf8, to_signed16, to_signed32};
use crate::node::{parse_node_def, Float32, NodeDataView, NodeDefView, WingNodeData, WingNodeDef};
use crate::WingResponse;

verus! {

/// The escape byte of the console's byte stream.
pub const ESCAPE_BYTE: u8 = 0xdf;

/// What follows an escape byte to stand for a literal escape byte.
pub const ESCAPED_ESCAPE: u8 = 0xde;

/// State of the receive side's unescaping: whether the last byte was an escape, the
/// channel last selected, and a byte held back to be delivered next.
#[derive(Copy, Clone, Debug)]
pub struct RxState {
    pub esc: bool,
    pub channel: i8,
    pub pipe: Option<u8>,
}

/// The state of a fresh connection: no escape pending, no channel selected.
pub open spec fn initial_rx() -> RxState {
    RxState { esc: false, channel: -1i8, pipe: None }
}

/// One value delivered by the unescaping layer: the state after it, the value, the byte it
/// adds to a definition record (if any), and the input position after it.
pub struct Decoded {
    pub st: RxState,
    pub value: u8,
    pub raw: Option<u8>,
    pub pos: int,
}

/// The next value that the unescaping layer delivers from `input` at `pos`, or `None` where
/// the input ends first.
pub open spec fn next_value(st: RxState, input: Seq<u8>, pos: int) -> Option<Decoded>
    decreases input.len() - pos,
{
    if st.pipe is Some {
        Some(
            Decoded {
                st: RxState { pipe: None, ..st },
                value: st.pipe.unwrap(),
                raw: st.pipe,
                pos,
            },
        )
    } else if pos < 0 || pos >= input.len() {
        None
    } else {
        let b = input[pos];
        if !st.esc {
            if b == 0xdf {
                next_value(RxState { esc: true, ..st }, input, pos + 1)
            } else {
                Some(Decoded { st, value: b, raw: Some(b), pos: pos + 1 })
            }
        } else if b == 0xdf {
            Some(Decoded { st, value: 0xdf, raw: None, pos: pos + 1 })
        } else if b == 0xde {
            Some(Decoded { st: RxState { esc: false, ..st }, value: 0xdf, raw: Some(0xdf), pos: pos + 1 })
        } else if 0xd0 <= b < 0xde {
            next_value(RxState { esc: false, channel: (b - 0xd0) as i8, ..st }, input, pos + 1)
        } else if st.channel >= 0 {
            Some(
                Decoded {
                    st: RxState { esc: false, pipe: Some(b), ..st },
                    value: 0xdf,
                    raw: Some(0xdf),
                    pos: pos + 1,
                },
            )
        } else {
            Some(Decoded { st: RxState { esc: false, ..st }, value: b, raw: Some(b), pos: pos + 1 })
        }
    }
}

/// `n` successive values: the state after them, the values, the record bytes, the position.
pub struct DecodedRun {
    pub st: RxState,
    pub values: Seq<u8>,
    pub raw: Seq<u8>,
    pub pos: int,
}

pub open spec fn opt_seq(b: Option<u8>) -> Seq<u8> {
    match b {
        Some(x) => seq![x],
        None => seq![],
    }
}

pub open spec fn next_values(st: RxState, input: Seq<u8>, pos: int, n: nat) -> Option<DecodedRun>
    decreases n,
{
    if n == 0 {
        Some(DecodedRun { st, values: seq![], raw: seq![], pos })
    } else {
        match next_values(st, input, pos, (n - 1) as nat) {
            Some(run) => match next_value(run.st, input, run.pos) {
                Some(d) => Some(
                    DecodedRun {
                        st: d.st,
                        values: run.values.push(d.value),
                        raw: run.raw + opt_seq(d.raw),
                        pos: d.pos,
                    },
                ),
                None => None,
            },
            None => None,
        }
    }
}

/// The model of a node value.
pub open spec fn int_data(i: i32) -> NodeDataView {
    NodeDataView { string_value: None, float_value: None, int_value: Some(i) }
}

pub open spec fn string_data(s: Seq<char>) -> NodeDataView {
    NodeDataView { string_value: Some(s), float_value: None, int_value: None }
}

pub open spec fn float_data(bits: u32) -> NodeDataView {
    NodeDataView { string_value: None, float_value: Some(bits), int_value: None }
}

/// The model of a message from the console.
pub enum ResponseView {
    RequestEnd,
    NodeDef(NodeDefView),
    NodeData(i32, NodeDataView),
}

/// What one command of the stream does: it may be cut short, be skipped (possibly
/// selecting the current node), produce a response, or be invalid.
pub enum Step {
    Incomplete,
    Skip { st: RxState, node: i32, pos: int },
    Respond { st: RxState, pos: int, resp: ResponseView },
    Invalid { st: RxState, pos: int },
}

/// A string of `len` values that starts at `pos`.
pub open spec fn string_step(st: RxState, node: i32, input: Seq<u8>, pos: int, len: nat) -> Step {
    match next_values(st, input, pos, len) {
        None => Step::Incomplete,
        Some(run) => if valid_utf8(run.values) {
            Step::Respond {
                st: run.st,
                pos: run.pos,
                resp: ResponseView::NodeData(node, string_data(decode_utf8(run.values))),
            }
        } else {
            Step::Invalid { st: run.st, pos: run.pos }
        },
    }
}

/// A command whose `n` operand values are skipped.
pub open spec fn skip_step(st: RxState, node: i32, input: Seq<u8>, pos: int, n: nat) -> Step {
    match next_values(st, input, pos, n) {
        None => Step::Incomplete,
        Some(run) => Step::Skip { st: run.st, node, pos: run.pos },
    }
}

/// A node definition: a 16-bit count of values, then that many values whose record
/// bytes form the definition. A count of zero is followed by four values and is invalid.
pub open spec fn def_step(st: RxState, input: Seq<u8>, pos: int) -> Step {
    match next_values(st, input, pos, 2) {
        None => Step::Incomplete,
        Some(hdr) => {
            let len = be16(hdr.values, 0);
            if len == 0 {
                match next_values(hdr.st, input, hdr.pos, 4) {
                    None => Step::Incomplete,
                    Some(run) => Step::Invalid { st: run.st, pos: run.pos },
                }
            } else {
                match next_values(hdr.st, input, hdr.pos, len as nat) {
                    None => Step::Incomplete,
                    Some(run) => match parse_node_def(run.raw) {
                        Some(d) => Step::Respond {
                            st: run.st,
                            pos: run.pos,
                            resp: ResponseView::NodeDef(d),
                        },
                        None => Step::Invalid { st: run.st, pos: run.pos },
                    },
                }
            }
        },
    }
}

/// The meaning of one command of the console's stream, given the current node `node`.
///
/// Values 0-63 are integers, 64-127 node indexes (skipped), 128-191 strings of 1-64 bytes,
/// 192-207 strings of 1-16 bytes, 208 the empty string, 209 a string whose length less one
/// follows, 210 a 16-bit node index (skipped), 211 a 16-bit and 212 a 32-bit integer,
/// 213 and 214 a float, 215 selects the current node by its 32-bit id, 216-221 are actions
/// (217 with an 8-bit operand) that are skipped, 222 ends a request, 223 carries a node
/// definition; values above 223 are no command and are consumed as invalid data.
pub open spec fn read_command(st: RxState, node: i32, input: Seq<u8>, pos: int) -> Step {
    match next_value(st, input, pos) {
        None => Step::Incomplete,
        Some(d) => {
            let cmd = d.value;
            let s1 = d.st;
            let p1 = d.pos;
            if cmd <= 0x3f {
                Step::Respond { st: s1, pos: p1, resp: ResponseView::NodeData(node, int_data(cmd as i32)) }
            } else if cmd <= 0x7f {
                Step::Skip { st: s1, node, pos: p1 }
            } else if cmd <= 0xbf {
                string_step(s1, node, input, p1, (cmd - 0x80 + 1) as nat)
            } else if cmd <= 0xcf {
                string_step(s1, node, input, p1, (cmd - 0xc0 + 1) as nat)
            } else if cmd == 0xd0 {
                Step::Respond {
                    st: s1,
                    pos: p1,
                    resp: ResponseView::NodeData(node, string_data(seq![])),
                }
            } else if cmd == 0xd1 {
                match next_value(s1, input, p1) {
                    None => Step::Incomplete,
                    Some(d2) => string_step(d2.st, node, input, d2.pos, (d2.value + 1) as nat),
                }
            } else if cmd == 0xd2 {
                skip_step(s1, node, input, p1, 2)
            } else if cmd == 0xd3 {
                match next_values(s1, input, p1, 2) {
                    None => Step::Incomplete,
                    Some(run) => Step::Respond {
                        st: run.st,
                        pos: run.pos,
                        resp: ResponseView::NodeData(node, int_data(signed16(be16(run.values, 0)) as i32)),
                    },
                }
            } else if cmd == 0xd4 {
                match next_values(s1, input, p1, 4) {
                    None => Step::Incomplete,
                    Some(run) => Step::Respond {
                        st: run.st,
                        pos: run.pos,
                        resp: ResponseView::NodeData(node, int_data(signed32(be32(run.values, 0)))),
                    },
                }
            } else if cmd == 0xd5 || cmd == 0xd6 {
                match next_values(s1, input, p1, 4) {
                    None => Step::Incomplete,
                    Some(run) => Step::Respond {
                        st: run.st,
                        pos: run.pos,
                        resp: ResponseView::NodeData(node, float_data(be32(run.values, 0) as u32)),
                    },
                }
            } else if cmd == 0xd7 {
                match next_values(s1, input, p1, 4) {
                    None => Step::Incomplete,
                    Some(run) => Step::Skip { st: run.st, node: signed32(be32(run.values, 0)), pos: run.pos },
                }
            } else if cmd == 0xd9 {
                skip_step(s1, node, input, p1, 1)
            } else if cmd == 0xde {
                Step::Respond { st: s1, pos: p1, resp: ResponseView::RequestEnd }
            } else if cmd == 0xdf {
                def_step(s1, input, p1)
            } else if cmd <= 0xdf {
                Step::Skip { st: s1, node, pos: p1 }
            } else {
                Step::Invalid { st: s1, pos: p1 }
            }
        },
    }
}

/// A measure of the input left: two for each byte, one for a held-back byte.
pub open spec fn measure(st: RxState, input: Seq<u8>, pos: int) -> nat {
    ((if 0 <= pos <= input.len() {
        2 * (input.len() - pos)
    } else {
        0
    }) + (if st.pipe is Some {
        1int
    } else {
        0int
    })) as nat
}

pub proof fn lemma_next_value_progress(st: RxState, input: Seq<u8>, pos: int)
    ensures
        next_value(st, input, pos) matches Some(d) ==> measure(d.st, input, d.pos) < measure(
            st,
            input,
            pos,
        ) && (0 <= pos <= input.len() ==> pos <= d.pos <= input.len()),
    decreases input.len() - pos,
{
    if st.pipe is None && 0 <= pos < input.len() {
        let b = input[pos];
        if !st.esc && b == 0xdf {
            lemma_next_value_progress(RxState { esc: true, ..st }, input, pos + 1);
        } else if st.esc && b != 0xdf && b != 0xde && 0xd0 <= b < 0xde {
            lemma_next_value_progress(
                RxState { esc: false, channel: (b - 0xd0) as i8, ..st },
                input,
                pos + 1,
            );
        }
    }
}

pub proof fn lemma_next_values_progress(st: RxState, input: Seq<u8>, pos: int, n: nat)
    ensures
        next_values(st, input, pos, n) matches Some(run) ==> measure(run.st, input, run.pos) + n
            <= measure(st, input, pos) && run.values.len() == n && (0 <= pos <= input.len() ==> pos
            <= run.pos <= input.len()),
    decreases n,
{
    if n > 0 {
        lemma_next_values_progress(st, input, pos, (n - 1) as nat);
        if let Some(run) = next_values(st, input, pos, (n - 1) as nat) {
            lemma_next_value_progress(run.st, input, run.pos);
        }
    }
}

pub proof fn lemma_read_command_progress(st: RxState, node: i32, input: Seq<u8>, pos: int)
    ensures
        match read_command(st, node, input, pos) {
            Step::Skip { st: s2, node: _, pos: p2 } => measure(s2, input, p2) < measure(
                st,
                input,
                pos,
            ),
            _ => true,
        },
{
    lemma_next_value_progress(st, input, pos);
    if let Some(d) = next_value(st, input, pos) {
        lemma_next_values_progress(d.st, input, d.pos, 1);
        lemma_next_values_progress(d.st, input, d.pos, 2);
        lemma_next_values_progress(d.st, input, d.pos, 4);
    }
}

pub proof fn lemma_read_command_bounds(st: RxState, node: i32, input: Seq<u8>, pos: int)
    requires
        0 <= pos <= input.len(),
    ensures
        match read_command(st, node, input, pos) {
            Step::Skip { st: _, node: _, pos: p2 } => pos <= p2 <= input.len(),
            Step::Respond { st: _, pos: p2, resp: _ } => pos <= p2 <= input.len(),
            Step::Invalid { st: _, pos: p2 } => pos <= p2 <= input.len(),
            Step::Incomplete => true,
        },
{
    lemma_next_value_progress(st, input, pos);
    if let Some(d) = next_value(st, input, pos) {
        let cmd = d.value;
        lemma_next_values_progress(d.st, input, d.pos, 1);
        lemma_next_values_progress(d.st, input, d.pos, 2);
        lemma_next_values_progress(d.st, input, d.pos, 4);
        if 0x80 <= cmd <= 0xbf {
            lemma_next_values_progress(d.st, input, d.pos, (cmd - 0x80 + 1) as nat);
        } else if 0xc0 <= cmd <= 0xcf {
            lemma_next_values_progress(d.st, input, d.pos, (cmd - 0xc0 + 1) as nat);
        } else if cmd == 0xd1 {
            lemma_next_value_progress(d.st, input, d.pos);
            if let Some(d2) = next_value(d.st, input, d.pos) {
                lemma_next_values_progress(d2.st, input, d2.pos, (d2.value + 1) as nat);
            }
        } else if cmd == 0xdf {
            if let Some(hdr) = next_values(d.st, input, d.pos, 2) {
                lemma_next_values_progress(hdr.st, input, hdr.pos, 4);
                lemma_next_values_progress(hdr.st, input, hdr.pos, be16(hdr.values, 0) as nat);
            }
        }
    }
}

/// What reading produces once skipped commands are passed over.
pub enum ReadReport {
    NeedMore,
    Response(ResponseView),
    Invalid,
}

/// Reading from `pos`: commands are consumed one at a time; skipped commands are passed
/// over, a command cut short stops before it; the state after the last command consumed
/// and what was read.
pub open spec fn read_from(st: RxState, node: i32, input: Seq<u8>, pos: int) -> (
    RxState,
    i32,
    int,
    ReadReport,
)
    decreases measure(st, input, pos),
{
    match read_command(st, node, input, pos) {
        Step::Incomplete => (st, node, pos, ReadReport::NeedMore),
        Step::Skip { st: s2, node: n2, pos: p2 } => {
            proof {
                lemma_read_command_progress(st, node, input, pos);
            }
            read_from(s2, n2, input, p2)
        },
        Step::Respond { st: s2, pos: p2, resp } => (s2, node, p2, ReadReport::Response(resp)),
        Step::Invalid { st: s2, pos: p2 } => (s2, node, p2, ReadReport::Invalid),
    }
}

pub open spec fn response_view(r: WingResponse) -> ResponseView {
    match r {
        WingResponse::RequestEnd => ResponseView::RequestEnd,
        WingResponse::NodeDef(d) => ResponseView::NodeDef(d@),
        WingResponse::NodeData(id, data) => ResponseView::NodeData(id, data@),
    }
}

/// One value of the unescaping layer, computed.
pub fn next_value_exec(input: &[u8], st: RxState, pos: usize) -> (r: Option<(RxState, u8, Option<u8>, usize)>)
    requires
        pos <= input@.len(),
    ensures
        match r {
            Some((s, v, w, p)) => next_value(st, input@, pos as int) == Some(
                Decoded { st: s, value: v, raw: w, pos: p as int },
            ),
            None => next_value(st, input@, pos as int) is None,
        },
{
    if let Some(v) = st.pipe {
        return Some((RxState { pipe: None, ..st }, v, Some(v), pos));
    }
    let mut s = st;
    let mut p = pos;
    while p < input.len()
        invariant
            pos <= p <= input@.len(),
            s.pipe is None,
            next_value(st, input@, pos as int) == next_value(s, input@, p as int),
        decreases input@.len() - p,
    {
        let b = input[p];
        p = p + 1;
        if !s.esc {
            if b == 0xdf {
                s = RxState { esc: true, ..s };
            } else {
                return Some((s, b, Some(b), p));
            }
        } else if b == 0xdf {
            return Some((s, 0xdf, None, p));
        } else if b == 0xde {
            return Some((RxState { esc: false, ..s }, 0xdf, Some(0xdf), p));
        } else if 0xd0 <= b && b < 0xde {
            s = RxState { esc: false, channel: (b - 0xd0) as i8, ..s };
        } else if s.channel >= 0 {
            return Some((RxState { esc: false, pipe: Some(b), ..s }, 0xdf, Some(0xdf), p));
        } else {
            return Some((RxState { esc: false, ..s }, b, Some(b), p));
        }
    }
    None
}

/// `n` values of the unescaping layer, computed.
pub fn next_values_exec(input: &[u8], st: RxState, pos: usize, n: usize) -> (r: Option<
    (RxState, Vec<u8>, Vec<u8>, usize),
>)
    requires
        pos <= input@.len(),
    ensures
        match r {
            Some((s, vals, raw, p)) => next_values(st, input@, pos as int, n as nat) == Some(
                DecodedRun { st: s, values: vals@, raw: raw@, pos: p as int },
            ),
            None => next_values(st, input@, pos as int, n as nat) is None,
        },
{
    let mut s = st;
    let mut p = pos;
    let mut vals: Vec<u8> = Vec::new();
    let mut raw: Vec<u8> = Vec::new();
    let mut k: usize = 0;
    while k < n
        invariant
            k <= n,
            pos <= p <= input@.len(),
            next_values(st, input@, pos as int, k as nat) == Some(
                DecodedRun { st: s, values: vals@, raw: raw@, pos: p as int },
            ),
        decreases n - k,
    {
        proof {
            lemma_next_value_progress(s, input@, p as int);
        }
        match next_value_exec(input, s, p) {
            Some((s2, v, w, p2)) => {
                let ghost old_raw = raw@;
                vals.push(v);
                match w {
                    Some(b) => {
                        raw.push(b);
                    },
                    None => {},
                }
                assert(raw@ =~= old_raw + opt_seq(w));
                s = s2;
                p = p2;
                k = k + 1;
            },
            None => {
                proof {
                    lemma_next_values_fail(st, input@, pos as int, (k + 1) as nat, n as nat);
                }
                return None;
            },
        }
    }
    Some((s, vals, raw, p))
}

proof fn lemma_next_values_fail(st: RxState, input: Seq<u8>, pos: int, k: nat, n: nat)
    requires
        k <= n,
        next_values(st, input, pos, k) is None,
    ensures
        next_values(st, input, pos, n) is None,
    decreases n,
{
    if k < n {
        lemma_next_values_fail(st, input, pos, k, (n - 1) as nat);
    }
}

/// One command, computed.
pub enum CommandOutcome {
    Incomplete,
    Skip(RxState, i32, usize),
    Respond(RxState, usize, WingResponse),
    Invalid(RxState, usize),
}

pub open spec fn outcome_matches(o: CommandOutcome, s: Step) -> bool {
    match (o, s) {
        (CommandOutcome::Incomplete, Step::Incomplete) => true,
        (CommandOutcome::Skip(a, b, c), Step::Skip { st, node, pos }) => a == st && b == node && c
            == pos,
        (CommandOutcome::Respond(a, c, r), Step::Respond { st, pos, resp }) => a == st && c == pos
            && response_view(r) == resp,
        (CommandOutcome::Invalid(a, c), Step::Invalid { st, pos }) => a == st && c == pos,
        _ => false,
    }
}

fn string_command(input: &[u8], st: RxState, node: i32, pos: usize, len: usize) -> (r: CommandOutcome)
    requires
        pos <= input@.len(),
    ensures
        outcome_matches(r, string_step(st, node, input@, pos as int, len as nat)),
        !(r is Skip),
{
    match next_values_exec(input, st, pos, len) {
        None => CommandOutcome::Incomplete,
        Some((s, vals, _raw, p)) => {
            match string_from_utf8(vals) {
                Some(text) => CommandOutcome::Respond(
                    s,
                    p,
                    WingResponse::NodeData(node, WingNodeData::with_string(text)),
                ),
                None => CommandOutcome::Invalid(s, p),
            }
        },
    }
}

fn definition_command(input: &[u8], st: RxState, pos: usize) -> (r: CommandOutcome)
    requires
        pos <= input@.len(),
    ensures
        outcome_matches(r, def_step(st, input@, pos as int)),
        !(r is Skip),
{
    match next_values_exec(input, st, pos, 2) {
        None => CommandOutcome::Incomplete,
        Some((s, vals, _raw, p)) => {
            proof {
                lemma_next_values_progress(st, input@, pos as int, 2);
            }
            let len = read_be16(vals.as_slice(), 0);
            if len == 0 {
                match next_values_exec(input, s, p, 4) {
                    None => CommandOutcome::Incomplete,
                    Some((s2, _v, _r, p2)) => CommandOutcome::Invalid(s2, p2),
                }
            } else {
                match next_values_exec(input, s, p, len as usize) {
                    None => CommandOutcome::Incomplete,
                    Some((s2, _v, raw, p2)) => match WingNodeDef::try_from_bytes(raw.as_slice()) {
                        Some(d) => CommandOutcome::Respond(s2, p2, WingResponse::NodeDef(d)),
                        None => CommandOutcome::Invalid(s2, p2),
                    },
                }
            }
        },
    }
}

/// One command of the stream, read from `pos` with the current node `node`.
pub fn read_command_exec(input: &[u8], st: RxState, node: i32, pos: usize) -> (r: CommandOutcome)
    requires
        pos <= input@.len(),
    ensures
        outcome_matches(r, read_command(st, node, input@, pos as int)),
{
    proof {
        lemma_next_value_progress(st, input@, pos as int);
    }
    let (s1, cmd, _w, p1) = match next_value_exec(input, st, pos) {
        None => return CommandOutcome::Incomplete,
        Some(x) => x,
    };
    if cmd <= 0x3f {
        CommandOutcome::Respond(s1, p1, WingResponse::NodeData(node, WingNodeData::with_i32(cmd as i32)))
    } else if cmd <= 0x7f {
        CommandOutcome::Skip(s1, node, p1)
    } else if cmd <= 0xbf {
        string_command(input, s1, node, p1, (cmd - 0x80 + 1) as usize)
    } else if cmd <= 0xcf {
        string_command(input, s1, node, p1, (cmd - 0xc0 + 1) as usize)
    } else if cmd == 0xd0 {
        let empty = String::new();
        CommandOutcome::Respond(s1, p1, WingResponse::NodeData(node, WingNodeData::with_string(empty)))
    } else if cmd == 0xd1 {
        proof {
            lemma_next_value_progress(s1, input@, p1 as int);
        }
        match next_value_exec(input, s1, p1) {
            None => CommandOutcome::Incomplete,
            Some((s2, len, _w2, p2)) => string_command(input, s2, node, p2, len as usize + 1),
        }
    } else if cmd == 0xd2 {
        match next_values_exec(input, s1, p1, 2) {
            None => CommandOutcome::Incomplete,
            Some((s2, _v, _r, p2)) => CommandOutcome::Skip(s2, node, p2),
        }
    } else if cmd == 0xd3 {
        proof {
            lemma_next_values_progress(s1, input@, p1 as int, 2);
        }
        match next_values_exec(input, s1, p1, 2) {
            None => CommandOutcome::Incomplete,
            Some((s2, v, _r, p2)) => {
                let x = to_signed16(read_be16(v.as_slice(), 0));
                CommandOutcome::Respond(s2, p2, WingResponse::NodeData(node, WingNodeData::with_i16(x)))
            },
        }
    } else if cmd == 0xd4 {
        proof {
            lemma_next_values_progress(s1, input@, p1 as int, 4);
        }
        match next_values_exec(input, s1, p1, 4) {
            None => CommandOutcome::Incomplete,
            Some((s2, v, _r, p2)) => {
                let x = to_signed32(read_be32(v.as_slice(), 0));
                CommandOutcome::Respond(s2, p2, WingResponse::NodeData(node, WingNodeData::with_i32(x)))
            },
        }
    } else if cmd == 0xd5 || cmd == 0xd6 {
        proof {
            lemma_next_values_progress(s1, input@, p1 as int, 4);
        }
        match next_values_exec(input, s1, p1, 4) {
            None => CommandOutcome::Incomplete,
            Some((s2, v, _r, p2)) => {
                let bits = read_be32(v.as_slice(), 0);
                CommandOutcome::Respond(
                    s2,
                    p2,
                    WingResponse::NodeData(node, WingNodeData::with_float(Float32 { bits })),
                )
            },
        }
    } else if cmd == 0xd7 {
        proof {
            lemma_next_values_progress(s1, input@, p1 as int, 4);
        }
        match next_values_exec(input, s1, p1, 4) {
            None => CommandOutcome::Incomplete,
            Some((s2, v, _r, p2)) => {
                let id = to_signed32(read_be32(v.as_slice(), 0));
                CommandOutcome::Skip(s2, id, p2)
            },
        }
    } else if cmd == 0xd9 {
        match next_values_exec(input, s1, p1, 1) {
            None => CommandOutcome::Incomplete,
            Some((s2, _v, _r, p2)) => CommandOutcome::Skip(s2, node, p2),
        }
    } else if cmd == 0xde {
        CommandOutcome::Respond(s1, p1, WingResponse::RequestEnd)
    } else if cmd == 0xdf {
        definition_command(input, s1, p1)
    } else if cmd <= 0xdf {
        CommandOutcome::Skip(s1, node, p1)
    } else {
        CommandOutcome::Invalid(s1, p1)
    }
}

} // verus!

use vstd::prelude::*;
use vstd::utf8::{decode_utf8, encode_utf8, encode_utf8_decode_utf8, encode_utf8_valid_utf8, valid_utf8};

use crate::bytes::{be16, be32, signed16, signed32};
use crate::node::NodeDataView;
use crate::console::{int_payload, set_float_message, set_int_message, set_string_message, string_length_prefix};
use crate::encode::{be_bytes32, escaped, id_message, unsigned32};
use crate::wire::{
    float_data, int_data, next_value, next_values, read_command, read_from, string_data, opt_seq,
    measure, Decoded, DecodedRun, ReadReport, ResponseView, RxState, Step,
};

verus! {

/// The bytes of `bs` as they are sent in an id, each escaped.
pub open spec fn escape_all(bs: Seq<u8>) -> Seq<u8>
    decreases bs.len(),
{
    if bs.len() == 0 {
        seq![]
    } else {
        escape_all(bs.drop_last()) + escaped(bs.last())
    }
}

/// A receiver that is between values: no escape pending and no byte held back.
pub open spec fn settled(st: RxState) -> bool {
    !st.esc && st.pipe is None
}

proof fn lemma_escaped_byte(st: RxState, input: Seq<u8>, q: int, b: u8)
    requires
        settled(st),
        0 <= q,
        q + escaped(b).len() <= input.len(),
        input.subrange(q, q + escaped(b).len()) == escaped(b),
    ensures
        next_value(st, input, q) == Some(
            Decoded { st, value: b, raw: Some(b), pos: q + escaped(b).len() },
        ),
{
    reveal_with_fuel(next_value, 2);
    assert(input[q] == input.subrange(q, q + escaped(b).len())[0]);
    if b == 0xdf {
        assert(input[q + 1] == input.subrange(q, q + escaped(b).len())[1]);
        assert(RxState { esc: false, ..RxState { esc: true, ..st } } == st);
    }
}

proof fn lemma_escaped_run(st: RxState, input: Seq<u8>, pos: int, bs: Seq<u8>)
    requires
        settled(st),
        0 <= pos,
        pos + escape_all(bs).len() <= input.len(),
        input.subrange(pos, pos + escape_all(bs).len()) == escape_all(bs),
    ensures
        next_values(st, input, pos, bs.len()) == Some(
            DecodedRun { st, values: bs, raw: bs, pos: pos + escape_all(bs).len() },
        ),
    decreases bs.len(),
{
    if bs.len() == 0 {
        assert(bs =~= seq![]);
    } else {
        let front = bs.drop_last();
        let ef = escape_all(front);
        let el = escaped(bs.last());
        let whole = escape_all(bs);
        let q = pos + ef.len();
        assert(whole == ef + el);
        assert(input.subrange(pos, q) =~= ef) by {
            assert forall|k: int| 0 <= k < ef.len() implies input.subrange(pos, q)[k] == ef[k] by {
                assert(input[pos + k] == input.subrange(pos, pos + whole.len())[k]);
                assert(whole[k] == ef[k]);
            }
        }
        lemma_escaped_run(st, input, pos, front);
        assert(input.subrange(q, q + el.len()) =~= el) by {
            assert forall|k: int| 0 <= k < el.len() implies input.subrange(q, q + el.len())[k]
                == el[k] by {
                assert(input[q + k] == input.subrange(pos, pos + whole.len())[ef.len() + k]);
                assert(whole[ef.len() + k] == el[k]);
            }
        }
        lemma_escaped_byte(st, input, q, bs.last());
        assert(front.push(bs.last()) =~= bs);
        assert(front + opt_seq(Some(bs.last())) =~= bs);
    }
}

proof fn lemma_escape_all_plain(bs: Seq<u8>)
    requires
        forall|k: int| 0 <= k < bs.len() ==> bs[k] != 0xdf,
    ensures
        escape_all(bs) == bs,
    decreases bs.len(),
{
    if bs.len() > 0 {
        lemma_escape_all_plain(bs.drop_last());
        assert(bs.drop_last().push(bs.last()) =~= bs);
    }
}

proof fn lemma_escape_all_four(b: Seq<u8>)
    requires
        b.len() == 4,
    ensures
        escape_all(b) == escaped(b[0]) + escaped(b[1]) + escaped(b[2]) + escaped(b[3]),
{
    reveal_with_fuel(escape_all, 5);
    assert(b.drop_last().drop_last().drop_last().drop_last() =~= seq![]);
    assert(b.drop_last().drop_last().drop_last() =~= seq![b[0]]);
    assert(b.drop_last().drop_last() =~= seq![b[0], b[1]]);
    assert(b.drop_last() =~= seq![b[0], b[1], b[2]]);
    assert(seq![b[0]].drop_last() =~= seq![]);
    assert(escape_all(seq![]) + escaped(b[0]) =~= escaped(b[0]));
}

proof fn lemma_be_bytes32(v: u32)
    ensures
        be32(be_bytes32(v as int), 0) == v,
        be_bytes32(v as int).len() == 4,
{
    let b0 = (v / 0x100_0000) % 256;
    let b1 = (v / 0x1_0000) % 256;
    let b2 = (v / 0x100) % 256;
    let b3 = v % 256;
    assert(((b0 * 256 + b1) * 65536 + (b2 * 256 + b3)) == v) by (bit_vector)
        requires
            b0 == (v / 0x100_0000) % 256,
            b1 == (v / 0x1_0000) % 256,
            b2 == (v / 0x100) % 256,
            b3 == v % 256,
    ;
}

proof fn lemma_unsigned32(v: i32)
    ensures
        0 <= unsigned32(v) < 0x1_0000_0000,
        signed32(unsigned32(v)) == v,
{
}

/// Reading an id message whose prefix is the select-node command: it selects node `id`.
proof fn lemma_select_node(st: RxState, node: i32, input: Seq<u8>, id: i32, suffix: Option<u8>)
    requires
        settled(st),
        id_message(id, 0xd7, suffix).len() <= input.len(),
        input.subrange(0, id_message(id, 0xd7, suffix).len() as int) == id_message(id, 0xd7, suffix),
    ensures
        read_command(st, node, input, 0) == (crate::wire::Step::Skip {
            st,
            node: id,
            pos: id_message(id, 0xd7, suffix).len() - opt_seq(suffix).len(),
        }),
{
    let m = id_message(id, 0xd7, suffix);
    let b = be_bytes32(unsigned32(id));
    lemma_unsigned32(id);
    lemma_be_bytes32(unsigned32(id) as u32);
    lemma_escape_all_four(b);
    let e = escape_all(b);
    assert(m =~= seq![0xd7u8] + e + opt_seq(suffix));
    assert(input[0] == m[0]);
    assert(next_value(st, input, 0) == Some(Decoded { st, value: 0xd7, raw: Some(0xd7u8), pos: 1 }));
    assert(input.subrange(1, 1 + e.len() as int) =~= e) by {
        assert forall|k: int| 0 <= k < e.len() implies input.subrange(1, 1 + e.len() as int)[k]
            == e[k] by {
            assert(input[1 + k] == input.subrange(0, m.len() as int)[1 + k]);
            assert(m[1 + k] == e[k]);
        }
    }
    lemma_escaped_run(st, input, 1, b);
    assert(b.len() == 4);
}

/// Setting a float, then reading the message sent: a receiver that is between values
/// reports node `id` with that float and is left as it was, whatever follows the message.
/// This holds where no byte of the float's pattern is the escape byte, which the message
/// does not escape.
pub proof fn law_set_float_reads_back(st: RxState, node: i32, id: i32, bits: u32, rest: Seq<u8>)
    requires
        settled(st),
        forall|k: int| 0 <= k < 4 ==> be_bytes32(bits as int)[k] != 0xdf,
    ensures
        read_from(st, node, set_float_message(id, bits) + rest, 0) == (
            st,
            id,
            set_float_message(id, bits).len() as int,
            ReadReport::Response(ResponseView::NodeData(id, float_data(bits))),
        ),
{
    let m = set_float_message(id, bits);
    let input = m + rest;
    let im = id_message(id, 0xd7, Some(0xd5));
    let p = im.len() - 1;
    let v = be_bytes32(bits as int);
    lemma_be_bytes32(bits);
    assert(input.subrange(0, im.len() as int) =~= im);
    lemma_select_node(st, node, input, id, Some(0xd5));
    assert(input[p] == 0xd5);
    assert(next_value(st, input, p) == Some(Decoded { st, value: 0xd5, raw: Some(0xd5u8), pos: p + 1 }));
    lemma_escape_all_plain(v);
    assert(input.subrange(p + 1, p + 5) =~= v);
    lemma_escaped_run(st, input, p + 1, v);
    assert(read_from(st, id, input, p) == (st, id, p + 5, ReadReport::Response(ResponseView::NodeData(id, float_data(bits)))));
}

/// The 16-bit form of a number of the 16-bit range reads back as that number.
proof fn lemma_low16(v: i32)
    requires
        -32768 <= v <= 32767,
    ensures
        ({
            let b = be_bytes32(unsigned32(v));
            signed16(be16(seq![b[2], b[3]], 0)) == v
        }),
{
    let u = unsigned32(v) as u32;
    lemma_unsigned32(v);
    let b2 = (u / 0x100) % 256;
    let b3 = u % 256;
    assert(b2 * 256 + b3 == u % 0x1_0000) by (bit_vector)
        requires
            b2 == (u / 0x100) % 256,
            b3 == u % 256,
    ;
    if v < 0 {
        assert(u == v + 0x1_0000_0000);
        assert(u % 0x1_0000 == v + 0x1_0000) by (nonlinear_arith)
            requires
                u == v + 0x1_0000_0000,
                -32768 <= v < 0,
        ;
    }
}

/// Setting an integer, then reading the message sent: a receiver that is between values
/// reports node `id` with that integer and is left as it was, whatever follows the message.
/// Numbers 0 to 63 are sent inline, the others of the 16-bit range in the 16-bit form, the
/// rest in the 32-bit form; this holds where no byte of that form is the escape byte, which
/// the message does not escape.
pub proof fn law_set_int_reads_back(st: RxState, node: i32, id: i32, v: i32, rest: Seq<u8>)
    requires
        settled(st),
        forall|k: int| 1 <= k < int_payload(v).len() ==> #[trigger] int_payload(v)[k] != 0xdf,
    ensures
        read_from(st, node, set_int_message(id, v) + rest, 0) == (
            st,
            id,
            set_int_message(id, v).len() as int,
            ReadReport::Response(ResponseView::NodeData(id, int_data(v))),
        ),
{
    let m = set_int_message(id, v);
    let input = m + rest;
    let im = id_message(id, 0xd7, None);
    let p = im.len() as int;
    let b = be_bytes32(unsigned32(v));
    lemma_unsigned32(v);
    lemma_be_bytes32(unsigned32(v) as u32);
    assert(input.subrange(0, im.len() as int) =~= im);
    lemma_select_node(st, node, input, id, None);
    assert(opt_seq(None::<u8>).len() == 0);
    if 0 <= v <= 63 {
        assert(input[p] == v as u8);
        assert(next_value(st, input, p) == Some(Decoded { st, value: v as u8, raw: Some(v as u8), pos: p + 1 }));
        assert(read_from(st, id, input, p) == (st, id, p + 1, ReadReport::Response(ResponseView::NodeData(id, int_data(v)))));
    } else if -32768 <= v <= 32767 {
        let w = seq![b[2], b[3]];
        assert(int_payload(v)[1] == b[2] && int_payload(v)[2] == b[3]);
        assert(input[p] == 0xd3);
        assert(next_value(st, input, p) == Some(Decoded { st, value: 0xd3, raw: Some(0xd3u8), pos: p + 1 }));
        lemma_escape_all_plain(w);
        assert(input.subrange(p + 1, p + 3) =~= w);
        lemma_escaped_run(st, input, p + 1, w);
        lemma_low16(v);
        assert(read_from(st, id, input, p) == (st, id, p + 3, ReadReport::Response(ResponseView::NodeData(id, int_data(v)))));
    } else {
        assert forall|k: int| 0 <= k < 4 implies b[k] != 0xdf by {
            assert(int_payload(v)[k + 1] == b[k]);
        }
        assert(input[p] == 0xd4);
        assert(next_value(st, input, p) == Some(Decoded { st, value: 0xd4, raw: Some(0xd4u8), pos: p + 1 }));
        lemma_escape_all_plain(b);
        assert(input.subrange(p + 1, p + 5) =~= b);
        lemma_escaped_run(st, input, p + 1, b);
        assert(read_from(st, id, input, p) == (st, id, p + 5, ReadReport::Response(ResponseView::NodeData(id, int_data(v)))));
    }
}

/// Setting a string, then reading the message sent: a receiver that is between values
/// reports node `id` with that string and is left as it was, whatever follows the message.
/// This holds for strings of at most 256 bytes whose bytes, and whose length byte, are not
/// the escape byte (which the message does not escape): a string of 224 bytes is read
/// back otherwise, and a longer string is sent without a length.
pub proof fn law_set_string_reads_back(st: RxState, node: i32, id: i32, value: Seq<char>, rest: Seq<u8>)
    requires
        settled(st),
        encode_utf8(value).len() <= 256,
        encode_utf8(value).len() != 224,
        forall|k: int| 0 <= k < encode_utf8(value).len() ==> encode_utf8(value)[k] != 0xdf,
    ensures
        read_from(st, node, set_string_message(id, encode_utf8(value)) + rest, 0) == (
            st,
            id,
            set_string_message(id, encode_utf8(value)).len() as int,
            ReadReport::Response(ResponseView::NodeData(id, string_data(value))),
        ),
{
    let bytes = encode_utf8(value);
    let len = bytes.len();
    let m = set_string_message(id, bytes);
    let input = m + rest;
    let im = id_message(id, 0xd7, None);
    let p = im.len() as int;
    let pre = string_length_prefix(len);
    encode_utf8_valid_utf8(value);
    encode_utf8_decode_utf8(value);
    assert(input.subrange(0, im.len() as int) =~= im);
    lemma_select_node(st, node, input, id, None);
    assert(opt_seq(None::<u8>).len() == 0);
    lemma_escape_all_plain(bytes);
    let q = p + pre.len();
    assert(input.subrange(q, q + len) =~= bytes);
    lemma_escaped_run(st, input, q, bytes);
    if len == 0 {
        assert(value =~= seq![]) by {
            assert(decode_utf8(bytes) =~= seq![]);
        }
        assert(input[p] == 0xd0);
        assert(next_value(st, input, p) == Some(Decoded { st, value: 0xd0, raw: Some(0xd0u8), pos: p + 1 }));
        assert(read_from(st, id, input, p) == (st, id, p + 1, ReadReport::Response(ResponseView::NodeData(id, string_data(value)))));
    } else if len <= 64 {
        assert(input[p] == (0x7f + len) as u8);
        assert(next_value(st, input, p) == Some(Decoded { st, value: (0x7f + len) as u8, raw: Some((0x7f + len) as u8), pos: p + 1 }));
        assert(read_from(st, id, input, p) == (st, id, q + len, ReadReport::Response(ResponseView::NodeData(id, string_data(value)))));
    } else {
        assert(input[p] == 0xd1);
        assert(input[p + 1] == (len - 1) as u8);
        assert(next_value(st, input, p) == Some(Decoded { st, value: 0xd1, raw: Some(0xd1u8), pos: p + 1 }));
        assert(next_value(st, input, p + 1) == Some(Decoded { st, value: (len - 1) as u8, raw: Some((len - 1) as u8), pos: p + 2 }));
        assert(read_from(st, id, input, p) == (st, id, q + len, ReadReport::Response(ResponseView::NodeData(id, string_data(value)))));
    }
}


proof fn lemma_next_value_extend(st: RxState, input: Seq<u8>, more: Seq<u8>, pos: int)
    requires
        next_value(st, input, pos) is Some,
    ensures
        next_value(st, input + more, pos) == next_value(st, input, pos),
    decreases input.len() - pos,
{
    if st.pipe is None && 0 <= pos < input.len() {
        assert((input + more)[pos] == input[pos]);
        let b = input[pos];
        if !st.esc && b == 0xdf {
            lemma_next_value_extend(RxState { esc: true, ..st }, input, more, pos + 1);
        } else if st.esc && b != 0xdf && b != 0xde && 0xd0 <= b < 0xde {
            lemma_next_value_extend(
                RxState { esc: false, channel: (b - 0xd0) as i8, ..st },
                input,
                more,
                pos + 1,
            );
        }
    }
}

proof fn lemma_next_values_extend(st: RxState, input: Seq<u8>, more: Seq<u8>, pos: int, n: nat)
    requires
        next_values(st, input, pos, n) is Some,
    ensures
        next_values(st, input + more, pos, n) == next_values(st, input, pos, n),
    decreases n,
{
    if n > 0 {
        lemma_next_values_extend(st, input, more, pos, (n - 1) as nat);
        let run = next_values(st, input, pos, (n - 1) as nat).unwrap();
        lemma_next_value_extend(run.st, input, more, run.pos);
    }
}

proof fn lemma_read_command_extend(st: RxState, node: i32, input: Seq<u8>, more: Seq<u8>, pos: int)
    requires
        !(read_command(st, node, input, pos) is Incomplete),
    ensures
        read_command(st, node, input + more, pos) == read_command(st, node, input, pos),
{
    let d = next_value(st, input, pos).unwrap();
    lemma_next_value_extend(st, input, more, pos);
    let cmd = d.value;
    if 0x80 <= cmd <= 0xbf {
        lemma_next_values_extend(d.st, input, more, d.pos, (cmd - 0x80 + 1) as nat);
    } else if 0xc0 <= cmd <= 0xcf {
        lemma_next_values_extend(d.st, input, more, d.pos, (cmd - 0xc0 + 1) as nat);
    } else if cmd == 0xd1 {
        lemma_next_value_extend(d.st, input, more, d.pos);
        let d2 = next_value(d.st, input, d.pos).unwrap();
        lemma_next_values_extend(d2.st, input, more, d2.pos, (d2.value + 1) as nat);
    } else if cmd == 0xd2 || cmd == 0xd3 {
        lemma_next_values_extend(d.st, input, more, d.pos, 2);
    } else if cmd == 0xd4 || cmd == 0xd5 || cmd == 0xd6 || cmd == 0xd7 {
        lemma_next_values_extend(d.st, input, more, d.pos, 4);
    } else if cmd == 0xd9 {
        lemma_next_values_extend(d.st, input, more, d.pos, 1);
    } else if cmd == 0xdf {
        lemma_next_values_extend(d.st, input, more, d.pos, 2);
        let hdr = next_values(d.st, input, d.pos, 2).unwrap();
        let len = be16(hdr.values, 0);
        if len == 0 {
            lemma_next_values_extend(hdr.st, input, more, hdr.pos, 4);
        } else {
            lemma_next_values_extend(hdr.st, input, more, hdr.pos, len as nat);
        }
    }
}

/// Reading does not depend on how the bytes arrive: where reading the bytes received so
/// far gives a message or an error, bytes that arrive later do not change it; where it
/// needs more bytes, reading everything from the start gives what reading the later bytes
/// from where it stopped gives.
pub proof fn law_read_is_incremental(st: RxState, node: i32, input: Seq<u8>, more: Seq<u8>, pos: int)
    ensures
        ({
            let (s, n, p, rep) = read_from(st, node, input, pos);
            if rep is NeedMore {
                read_from(st, node, input + more, pos) == read_from(s, n, input + more, p)
            } else {
                read_from(st, node, input + more, pos) == read_from(st, node, input, pos)
            }
        }),
    decreases measure(st, input, pos),
{
    let step = read_command(st, node, input, pos);
    if !(step is Incomplete) {
        lemma_read_command_extend(st, node, input, more, pos);
        if let crate::wire::Step::Skip { st: s2, node: n2, pos: p2 } = step {
            crate::wire::lemma_read_command_progress(st, node, input, pos);
            law_read_is_incremental(s2, n2, input, more, p2);
        }
    }
}

/// A string command whose length is told by its command byte alone.
proof fn lemma_one_byte_string(st: RxState, node: i32, c: u8, b: Seq<u8>, rest: Seq<u8>)
    requires
        settled(st),
        valid_utf8(b),
        forall|k: int| 0 <= k < b.len() ==> b[k] != 0xdf,
        (1 <= b.len() <= 64 && c == 0x80 + b.len() - 1) || (1 <= b.len() <= 16 && c == 0xc0 + b.len() - 1),
    ensures
        read_from(st, node, seq![c] + b + rest, 0) == (
            st,
            node,
            b.len() + 1int,
            ReadReport::Response(ResponseView::NodeData(node, NodeDataView {
                string_value: Some(decode_utf8(b)),
                float_value: None,
                int_value: None,
            })),
        ),
{
    let n = b.len() as int;
    lemma_escape_all_plain(b);
    let want = NodeDataView { string_value: Some(decode_utf8(b)), float_value: None, int_value: None };
    let input = seq![c] + b + rest;
    assert(input.subrange(1, 1 + n) =~= b);
    lemma_escaped_run(st, input, 1, b);
    assert(input[0] == c);
    assert(next_value(st, input, 0) == Some(Decoded { st, value: c, raw: Some(c), pos: 1 }));
    assert(read_command(st, node, input, 0) == (Step::Respond { st, pos: 1 + n, resp: ResponseView::NodeData(node, want) }));
}

/// Reading a string command: a settled receiver reports, for the node it has selected, the
/// text whose UTF-8 bytes `b` follow the command, and consumes the command and the text.
/// The length is told by the command byte: `0x80 + n - 1` for 1 to 64 bytes, `0xc0 + n - 1`
/// for 1 to 16 bytes, or `0xd1` and a byte `n - 1` for 1 to 256 bytes; `0xd0` is the empty
/// text. This holds where no byte is the escape byte.
pub proof fn law_string_commands_read_back(st: RxState, node: i32, b: Seq<u8>, rest: Seq<u8>)
    requires
        settled(st),
        valid_utf8(b),
        1 <= b.len() <= 256,
        b.len() != 224,
        forall|k: int| 0 <= k < b.len() ==> b[k] != 0xdf,
    ensures
        b.len() <= 64 ==> read_from(st, node, seq![(0x80 + b.len() - 1) as u8] + b + rest, 0) == (
            st,
            node,
            b.len() + 1int,
            ReadReport::Response(ResponseView::NodeData(node, NodeDataView {
                string_value: Some(decode_utf8(b)),
                float_value: None,
                int_value: None,
            })),
        ),
        b.len() <= 16 ==> read_from(st, node, seq![(0xc0 + b.len() - 1) as u8] + b + rest, 0) == (
            st,
            node,
            b.len() + 1int,
            ReadReport::Response(ResponseView::NodeData(node, NodeDataView {
                string_value: Some(decode_utf8(b)),
                float_value: None,
                int_value: None,
            })),
        ),
        read_from(st, node, seq![0xd1u8, (b.len() - 1) as u8] + b + rest, 0) == (
            st,
            node,
            b.len() + 2int,
            ReadReport::Response(ResponseView::NodeData(node, NodeDataView {
                string_value: Some(decode_utf8(b)),
                float_value: None,
                int_value: None,
            })),
        ),
        read_from(st, node, seq![0xd0u8] + rest, 0) == (
            st,
            node,
            1int,
            ReadReport::Response(ResponseView::NodeData(node, NodeDataView {
                string_value: Some(Seq::<char>::empty()),
                float_value: None,
                int_value: None,
            })),
        ),
{
    let n = b.len() as int;
    lemma_escape_all_plain(b);
    let want = NodeDataView { string_value: Some(decode_utf8(b)), float_value: None, int_value: None };
    assert(string_data(decode_utf8(b)) == want);
    if n <= 64 {
        lemma_one_byte_string(st, node, (0x80 + n - 1) as u8, b, rest);
    }
    if n <= 16 {
        lemma_one_byte_string(st, node, (0xc0 + n - 1) as u8, b, rest);
    }
    {
        let l = (n - 1) as u8;
        let input = seq![0xd1u8, l] + b + rest;
        assert(input.subrange(2, 2 + n) =~= b);
        lemma_escaped_run(st, input, 2, b);
        assert(input[0] == 0xd1 && input[1] == l);
        assert(next_value(st, input, 0) == Some(Decoded { st, value: 0xd1, raw: Some(0xd1u8), pos: 1 }));
        assert(next_value(st, input, 1) == Some(Decoded { st, value: l, raw: Some(l), pos: 2 }));
        assert(read_command(st, node, input, 0) == (Step::Respond { st, pos: 2 + n, resp: ResponseView::NodeData(node, want) }));
    }
    {
        let input = seq![0xd0u8] + rest;
        assert(input[0] == 0xd0);
        assert(next_value(st, input, 0) == Some(Decoded { st, value: 0xd0, raw: Some(0xd0u8), pos: 1 }));
    }
}

/// The 32-bit number that four bytes write, most significant first.
pub open spec fn bytes_number(b0: u8, b1: u8, b2: u8, b3: u8) -> int {
    ((b0 * 256 + b1) * 256 + b2) * 256 + b3
}

/// Reading the number commands: for a settled receiver, a byte of 0 to 63 is that integer;
/// `0xd3` and two bytes a 16-bit and `0xd4` and four bytes a 32-bit two's-complement
/// integer, most significant byte first; `0xd5` or `0xd6` and four bytes a float by its bit
/// pattern; `0xde` ends a request; `0xd7` and four bytes selects the node of that id for
/// what follows; a byte of `0xe0` or more is no command and is reported invalid. Each is
/// reported for the node selected and consumes exactly its bytes; the operand bytes are
/// taken where none is the escape byte.
pub proof fn law_number_commands_read_back(
    st: RxState,
    node: i32,
    b0: u8,
    b1: u8,
    b2: u8,
    b3: u8,
    rest: Seq<u8>,
)
    requires
        settled(st),
        b0 != 0xdf && b1 != 0xdf && b2 != 0xdf && b3 != 0xdf,
    ensures
        b0 <= 63 ==> read_from(st, node, seq![b0] + rest, 0) == (st, node, 1int, ReadReport::Response(
            ResponseView::NodeData(node, NodeDataView { string_value: None, float_value: None, int_value: Some(b0 as i32) }),
        )),
        read_from(st, node, seq![0xd3u8, b0, b1] + rest, 0) == (st, node, 3int, ReadReport::Response(
            ResponseView::NodeData(node, NodeDataView {
                string_value: None,
                float_value: None,
                int_value: Some(
                    (if b0 * 256 + b1 < 0x8000 {
                        b0 * 256 + b1
                    } else {
                        b0 * 256 + b1 - 0x1_0000
                    }) as i32,
                ),
            }),
        )),
        read_from(st, node, seq![0xd4u8, b0, b1, b2, b3] + rest, 0) == (st, node, 5int, ReadReport::Response(
            ResponseView::NodeData(node, NodeDataView {
                string_value: None,
                float_value: None,
                int_value: Some(
                    (if bytes_number(b0, b1, b2, b3) < 0x8000_0000 {
                        bytes_number(b0, b1, b2, b3)
                    } else {
                        bytes_number(b0, b1, b2, b3) - 0x1_0000_0000
                    }) as i32,
                ),
            }),
        )),
        read_from(st, node, seq![0xd5u8, b0, b1, b2, b3] + rest, 0) == (st, node, 5int, ReadReport::Response(
            ResponseView::NodeData(node, NodeDataView {
                string_value: None,
                float_value: Some(bytes_number(b0, b1, b2, b3) as u32),
                int_value: None,
            }),
        )),
        read_from(st, node, seq![0xd6u8, b0, b1, b2, b3] + rest, 0) == (st, node, 5int, ReadReport::Response(
            ResponseView::NodeData(node, NodeDataView {
                string_value: None,
                float_value: Some(bytes_number(b0, b1, b2, b3) as u32),
                int_value: None,
            }),
        )),
        read_from(st, node, seq![0xdeu8] + rest, 0) == (st, node, 1int, ReadReport::Response(ResponseView::RequestEnd)),
        b0 >= 0xe0 ==> read_from(st, node, seq![b0] + rest, 0) == (st, node, 1int, ReadReport::Invalid),
        read_from(st, node, seq![0xd7u8, b0, b1, b2, b3] + rest, 0) == read_from(
            st,
            (if bytes_number(b0, b1, b2, b3) < 0x8000_0000 {
                bytes_number(b0, b1, b2, b3)
            } else {
                bytes_number(b0, b1, b2, b3) - 0x1_0000_0000
            }) as i32,
            seq![0xd7u8, b0, b1, b2, b3] + rest,
            5,
        ),
{
    let w2 = seq![b0, b1];
    let w4 = seq![b0, b1, b2, b3];
    assert forall|k: int| 0 <= k < w2.len() implies w2[k] != 0xdf by {}
    assert forall|k: int| 0 <= k < w4.len() implies w4[k] != 0xdf by {}
    lemma_escape_all_plain(w2);
    lemma_escape_all_plain(w4);
    {
        let input = seq![b0] + rest;
        assert(input[0] == b0);
        if b0 <= 63 || b0 >= 0xe0 {
            assert(next_value(st, input, 0) == Some(Decoded { st, value: b0, raw: Some(b0), pos: 1 }));
        }
    }
    {
        let input = seq![0xd3u8, b0, b1] + rest;
        assert(input[0] == 0xd3);
        assert(next_value(st, input, 0) == Some(Decoded { st, value: 0xd3, raw: Some(0xd3u8), pos: 1 }));
        assert(input.subrange(1, 3) =~= w2);
        lemma_escaped_run(st, input, 1, w2);
    }
    let cmds = seq![0xd4u8, 0xd5u8, 0xd6u8, 0xd7u8];
    assert forall|c: int| 0 <= c < 4 implies {
        let input = seq![#[trigger] cmds[c]] + w4 + rest;
        &&& next_value(st, input, 0) == Some(Decoded { st, value: cmds[c], raw: Some(cmds[c]), pos: 1 })
        &&& next_values(st, input, 1, 4) == Some(DecodedRun { st, values: w4, raw: w4, pos: 5 })
    } by {
        let input = seq![cmds[c]] + w4 + rest;
        assert(input[0] == cmds[c]);
        assert(input.subrange(1, 5) =~= w4);
        lemma_escaped_run(st, input, 1, w4);
    }
    assert(be32(w4, 0) == bytes_number(b0, b1, b2, b3));
    assert(seq![0xd4u8, b0, b1, b2, b3] + rest =~= seq![cmds[0]] + w4 + rest);
    assert(seq![0xd5u8, b0, b1, b2, b3] + rest =~= seq![cmds[1]] + w4 + rest);
    assert(seq![0xd6u8, b0, b1, b2, b3] + rest =~= seq![cmds[2]] + w4 + rest);
    assert(seq![0xd7u8, b0, b1, b2, b3] + rest =~= seq![cmds[3]] + w4 + rest);
    {
        let input = seq![0xdeu8] + rest;
        assert(input[0] == 0xde);
        assert(next_value(st, input, 0) == Some(Decoded { st, value: 0xde, raw: Some(0xdeu8), pos: 1 }));
    }
}

/// The commands that carry no value are passed over: node indexes (0x40 to 0x7f, and 0xd2
/// with two bytes), the click (0xd8), step (0xd9 with one byte), go-to-root (0xda), go-up
/// (0xdb) and the two requests (0xdc, 0xdd); reading goes on after them with the same node.
pub proof fn law_skipped_commands(st: RxState, node: i32, c: u8, a: u8, b: u8, rest: Seq<u8>)
    requires
        settled(st),
        a != 0xdf && b != 0xdf,
    ensures
        (0x40 <= c <= 0x7f || c == 0xd8 || (0xda <= c <= 0xdd)) ==> read_from(st, node, seq![c] + rest, 0)
            == read_from(st, node, seq![c] + rest, 1),
        read_from(st, node, seq![0xd2u8, a, b] + rest, 0) == read_from(st, node, seq![0xd2u8, a, b] + rest, 3),
        read_from(st, node, seq![0xd9u8, a] + rest, 0) == read_from(st, node, seq![0xd9u8, a] + rest, 2),
{
    let w2 = seq![a, b];
    let w1 = seq![a];
    assert forall|k: int| 0 <= k < w2.len() implies w2[k] != 0xdf by {}
    assert forall|k: int| 0 <= k < w1.len() implies w1[k] != 0xdf by {}
    lemma_escape_all_plain(w2);
    lemma_escape_all_plain(w1);
    {
        let input = seq![c] + rest;
        assert(input[0] == c);
        if 0x40 <= c <= 0x7f || c == 0xd8 || (0xda <= c <= 0xdd) {
            assert(next_value(st, input, 0) == Some(Decoded { st, value: c, raw: Some(c), pos: 1 }));
        }
    }
    {
        let input = seq![0xd2u8, a, b] + rest;
        assert(input[0] == 0xd2);
        assert(next_value(st, input, 0) == Some(Decoded { st, value: 0xd2, raw: Some(0xd2u8), pos: 1 }));
        assert(input.subrange(1, 3) =~= w2);
        lemma_escaped_run(st, input, 1, w2);
    }
    {
        let input = seq![0xd9u8, a] + rest;
        assert(input[0] == 0xd9);
        assert(next_value(st, input, 0) == Some(Decoded { st, value: 0xd9, raw: Some(0xd9u8), pos: 1 }));
        assert(input.subrange(1, 2) =~= w1);
        lemma_escaped_run(st, input, 1, w1);
    }
}

/// An escape byte among a command's operand bytes arrives as 0xdf followed by 0xde and is
/// read as the single byte 0xdf: a 16-bit integer whose high byte is 0xdf is read from
/// `0xd3, 0xdf, 0xde, b`, consuming all four bytes.
pub proof fn law_escaped_operand(st: RxState, node: i32, b: u8, rest: Seq<u8>)
    requires
        settled(st),
        b != 0xdf,
    ensures
        read_from(st, node, seq![0xd3u8, 0xdfu8, 0xdeu8, b] + rest, 0) == (st, node, 4int, ReadReport::Response(
            ResponseView::NodeData(node, NodeDataView {
                string_value: None,
                float_value: None,
                int_value: Some((0xdf * 256 + b - 0x1_0000) as i32),
            }),
        )),
{
    let w = seq![0xdfu8, b];
    let input = seq![0xd3u8, 0xdfu8, 0xdeu8, b] + rest;
    assert(escape_all(w) =~= seq![0xdfu8, 0xdeu8, b]) by {
        reveal_with_fuel(escape_all, 3);
        assert(w.drop_last() =~= seq![0xdfu8]);
        assert(seq![0xdfu8].drop_last() =~= Seq::<u8>::empty());
        assert(escape_all(Seq::<u8>::empty()) + escaped(0xdfu8) =~= seq![0xdfu8, 0xdeu8]);
    }
    assert(input.subrange(1, 4) =~= escape_all(w));
    lemma_escaped_run(st, input, 1, w);
    assert(input[0] == 0xd3);
    assert(next_value(st, input, 0) == Some(Decoded { st, value: 0xd3, raw: Some(0xd3u8), pos: 1 }));
}

} // verus!

use vstd::prelude::*;

use crate::bytes::{be16, read_be16, signed16, to_signed16};

verus! {

/// A meter (level display) of the console that can be subscribed to.
#[derive(Copy, Clone, PartialEq, Eq, Debug, Structural)]
pub enum Meter {
    Channel(u8),
    Aux(u8),
    Bus(u8),
    Main(u8),
    Matrix(u8),
    Dca(u8),
    Fx(u8),
    Source(u8),
    Output(u8),
    Monitor,
    Rta,
    Channel2(u8),
    Aux2(u8),
    Bus2(u8),
    Main2(u8),
    Matrix2(u8),
}

/// How a meter is named in a meter request: a code byte, and for most meters an index.
pub open spec fn meter_bytes(m: Meter) -> Seq<u8> {
    match m {
        Meter::Channel(n) => seq![0xa0, n],
        Meter::Aux(n) => seq![0xa1, n],
        Meter::Bus(n) => seq![0xa2, n],
        Meter::Main(n) => seq![0xa3, n],
        Meter::Matrix(n) => seq![0xa4, n],
        Meter::Dca(n) => seq![0xa5, n],
        Meter::Fx(n) => seq![0xa6, n],
        Meter::Source(n) => seq![0xa7, n],
        Meter::Output(n) => seq![0xa8, n],
        Meter::Monitor => seq![0xa9],
        Meter::Rta => seq![0xaa],
        Meter::Channel2(n) => seq![0xab, n],
        Meter::Aux2(n) => seq![0xac, n],
        Meter::Bus2(n) => seq![0xad, n],
        Meter::Main2(n) => seq![0xae, n],
        Meter::Matrix2(n) => seq![0xaf, n],
    }
}

/// The meters of a request, in order.
pub open spec fn meter_list_bytes(ms: Seq<Meter>) -> Seq<u8>
    decreases ms.len(),
{
    if ms.len() == 0 {
        seq![]
    } else {
        meter_list_bytes(ms.drop_last()) + meter_bytes(ms.last())
    }
}

pub open spec fn hi(v: u16) -> u8 {
    (v / 256) as u8
}

pub open spec fn lo(v: u16) -> u8 {
    (v % 256) as u8
}

/// The request that subscribes the meters `ms` under the id `id`, to be sent by UDP to `port`.
pub open spec fn meter_request(port: u16, id: u16, ms: Seq<Meter>) -> Seq<u8> {
    seq![0xdf, 0xd3, 0xd3, hi(port), lo(port), 0xd4, hi(id), lo(id), hi(port), lo(port), 0xdc]
        + meter_list_bytes(ms) + seq![0xde, 0xdf, 0xd1]
}

/// The message that keeps the meter subscription `id` alive.
pub open spec fn meter_keep_alive(port: u16, id: u16) -> Seq<u8> {
    seq![0xdf, 0xd3, 0xd4, hi(id), lo(id), hi(port), lo(port), 0xdf, 0xd1]
}

/// The messages that keep the subscriptions `n`, `n - 1`, ..., `1` alive, in that order.
pub open spec fn meters_keep_alive(port: u16, n: u16) -> Seq<u8>
    decreases n,
{
    if n == 0 {
        seq![]
    } else {
        meter_keep_alive(port, n) + meters_keep_alive(port, (n - 1) as u16)
    }
}

/// The levels that a meter datagram carries: 16-bit big-endian signed numbers from offset 4
/// on; a trailing odd byte is ignored.
pub open spec fn meter_levels(d: Seq<u8>) -> Seq<i16> {
    Seq::new(((d.len() - 4) / 2) as nat, |k: int| signed16(be16(d, 4 + 2 * k)))
}

fn push_meter(buf: &mut Vec<u8>, m: Meter)
    ensures
        final(buf)@ == old(buf)@ + meter_bytes(m),
{
    let ghost start = buf@;
    match m {
        Meter::Channel(n) => {
            buf.push(0xa0);
            buf.push(n);
        },
        Meter::Aux(n) => {
            buf.push(0xa1);
            buf.push(n);
        },
        Meter::Bus(n) => {
            buf.push(0xa2);
            buf.push(n);
        },
        Meter::Main(n) => {
            buf.push(0xa3);
            buf.push(n);
        },
        Meter::Matrix(n) => {
            buf.push(0xa4);
            buf.push(n);
        },
        Meter::Dca(n) => {
            buf.push(0xa5);
            buf.push(n);
        },
        Meter::Fx(n) => {
            buf.push(0xa6);
            buf.push(n);
        },
        Meter::Source(n) => {
            buf.push(0xa7);
            buf.push(n);
        },
        Meter::Output(n) => {
            buf.push(0xa8);
            buf.push(n);
        },
        Meter::Monitor => {
            buf.push(0xa9);
        },
        Meter::Rta => {
            buf.push(0xaa);
        },
        Meter::Channel2(n) => {
            buf.push(0xab);
            buf.push(n);
        },
        Meter::Aux2(n) => {
            buf.push(0xac);
            buf.push(n);
        },
        Meter::Bus2(n) => {
            buf.push(0xad);
            buf.push(n);
        },
        Meter::Main2(n) => {
            buf.push(0xae);
            buf.push(n);
        },
        Meter::Matrix2(n) => {
            buf.push(0xaf);
            buf.push(n);
        },
    }
    assert(buf@ =~= start + meter_bytes(m));
}

/// The bytes of a meter request (see [`meter_request`]).
pub fn meter_request_bytes(port: u16, id: u16, meters: &[Meter]) -> (buf: Vec<u8>)
    ensures
        buf@ == meter_request(port, id, meters@),
{
    let ph = (port / 256) as u8;
    let pl = (port % 256) as u8;
    let mut buf: Vec<u8> = Vec::new();
    buf.push(0xdf);
    buf.push(0xd3);
    buf.push(0xd3);
    buf.push(ph);
    buf.push(pl);
    buf.push(0xd4);
    buf.push((id / 256) as u8);
    buf.push((id % 256) as u8);
    buf.push(ph);
    buf.push(pl);
    buf.push(0xdc);
    let ghost head = buf@;
    assert(head =~= seq![0xdf, 0xd3, 0xd3, hi(port), lo(port), 0xd4, hi(id), lo(id), hi(port), lo(port), 0xdc]);
    let mut k: usize = 0;
    while k < meters.len()
        invariant
            k <= meters@.len(),
            buf@ == head + meter_list_bytes(meters@.subrange(0, k as int)),
        decreases meters@.len() - k,
    {
        push_meter(&mut buf, meters[k]);
        k += 1;
        assert(meters@.subrange(0, k as int).drop_last() =~= meters@.subrange(0, k - 1));
        assert(buf@ =~= head + meter_list_bytes(meters@.subrange(0, k as int)));
    }
    assert(meters@.subrange(0, meters@.len() as int) =~= meters@);
    let ghost body = buf@;
    buf.push(0xde);
    buf.push(0xdf);
    buf.push(0xd1);
    assert(buf@ =~= meter_request(port, id, meters@));
    buf
}

/// The keep-alive messages of the subscriptions `n` down to `1` (see [`meters_keep_alive`]).
pub fn meters_keep_alive_bytes(port: u16, n: u16) -> (buf: Vec<u8>)
    ensures
        buf@ == meters_keep_alive(port, n),
{
    let mut buf: Vec<u8> = Vec::new();
    let mut i: u16 = n;
    while i > 0
        invariant
            i <= n,
            buf@ + meters_keep_alive(port, i) == meters_keep_alive(port, n),
        decreases i,
    {
        let ghost before = buf@;
        buf.push(0xdf);
        buf.push(0xd3);
        buf.push(0xd4);
        buf.push((i / 256) as u8);
        buf.push((i % 256) as u8);
        buf.push((port / 256) as u8);
        buf.push((port % 256) as u8);
        buf.push(0xdf);
        buf.push(0xd1);
        assert(buf@ =~= before + meter_keep_alive(port, i));
        assert(meters_keep_alive(port, i) == meter_keep_alive(port, i) + meters_keep_alive(
            port,
            (i - 1) as u16,
        ));
        assert(before + meter_keep_alive(port, i) + meters_keep_alive(port, (i - 1) as u16)
            =~= before + meters_keep_alive(port, i));
        i = i - 1;
    }
    assert(buf@ + meters_keep_alive(port, 0) =~= buf@);
    buf
}

/// Splits a meter datagram into its subscription id (its first two bytes, big-endian) and
/// its levels (see [`meter_levels`]).
pub fn parse_meter_datagram(d: &[u8]) -> (r: (u16, Vec<i16>))
    requires
        d@.len() >= 4,
    ensures
        r.0 as int == be16(d@, 0),
        r.1@ == meter_levels(d@),
{
    assert(d@.len() == d.len());
    let id = read_be16(d, 0);
    let mut levels: Vec<i16> = Vec::new();
    let n = (d.len() - 4) / 2;
    let mut k: usize = 0;
    while k < n
        invariant
            n == (d@.len() - 4) / 2,
            4 <= d@.len() <= usize::MAX,
            k <= n,
            levels@ =~= meter_levels(d@).subrange(0, k as int),
        decreases n - k,
    {
        let v = to_signed16(read_be16(d, 4 + 2 * k));
        levels.push(v);
        k += 1;
    }
    assert(levels@ =~= meter_levels(d@));
    (id, levels)
}

/// The body of a meter request, between its header and its closing bytes, is the meters'
/// codes in the order given.
pub proof fn law_meter_request_body(port: u16, id: u16, ms: Seq<Meter>)
    ensures
        meter_request(port, id, ms).len() == 14 + meter_list_bytes(ms).len(),
        meter_request(port, id, ms).subrange(11, 11 + meter_list_bytes(ms).len() as int)
            == meter_list_bytes(ms),
        ms.len() > 0 ==> meter_list_bytes(ms) == meter_list_bytes(ms.drop_last()) + meter_bytes(
            ms.last(),
        ),
{
    let r = meter_request(port, id, ms);
    assert(r.subrange(11, 11 + meter_list_bytes(ms).len() as int) =~= meter_list_bytes(ms));
}

} // verus!

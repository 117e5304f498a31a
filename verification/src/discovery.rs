use vstd::prelude::*;
use vstd::utf8::{
    decode_utf8, encode_utf8, is_char_boundary_iff_not_is_continuation_byte, pop_first_scalar, valid_utf8,
    valid_utf8_split,
};

use crate::bytes::string_from_utf8;
use crate::text::push_str;
use crate::{Error, Result};

verus! {

/// A console that answered a discovery broadcast.
#[derive(Clone, Debug)]
pub struct DiscoveryInfo {
    pub ip: String,
    pub name: String,
    pub model: String,
    pub serial: String,
    pub firmware: String,
}

/// The model of a discovery answer.
pub struct DiscoveryView {
    pub ip: Seq<char>,
    pub name: Seq<char>,
    pub model: Seq<char>,
    pub serial: Seq<char>,
    pub firmware: Seq<char>,
}

impl View for DiscoveryInfo {
    type V = DiscoveryView;

    open spec fn view(&self) -> DiscoveryView {
        DiscoveryView {
            ip: self.ip@,
            name: self.name@,
            model: self.model@,
            serial: self.serial@,
            firmware: self.firmware@,
        }
    }
}

/// The fields of `d` between commas (a text without commas is one field).
pub open spec fn split_fields(d: Seq<u8>) -> Seq<Seq<u8>>
    decreases d.len(),
{
    if d.len() == 0 {
        seq![seq![]]
    } else {
        let init = split_fields(d.drop_last());
        if d.last() == 0x2c {
            init.push(seq![])
        } else {
            init.update(init.len() - 1, init.last().push(d.last()))
        }
    }
}

pub proof fn lemma_split_fields_len(d: Seq<u8>)
    ensures
        split_fields(d).len() >= 1,
    decreases d.len(),
{
    if d.len() > 0 {
        lemma_split_fields_len(d.drop_last());
    }
}

/// Splitting at a comma: the fields of `a,b` are those of `a` followed by those of `b`.
proof fn lemma_split_at_comma(a: Seq<u8>, b: Seq<u8>)
    ensures
        split_fields(a + seq![0x2cu8] + b) == split_fields(a) + split_fields(b),
    decreases b.len(),
{
    let x = a + seq![0x2cu8] + b;
    lemma_split_fields_len(a);
    if b.len() == 0 {
        assert(x.drop_last() =~= a);
        assert(split_fields(a).push(seq![]) =~= split_fields(a) + split_fields(b));
    } else {
        let bd = b.drop_last();
        lemma_split_at_comma(a, bd);
        lemma_split_fields_len(bd);
        assert(x.drop_last() =~= a + seq![0x2cu8] + bd);
        let fa = split_fields(a);
        let fb = split_fields(bd);
        if b.last() == 0x2c {
            assert((fa + fb).push(seq![]) =~= fa + fb.push(seq![]));
        } else {
            assert((fa + fb).update((fa + fb).len() - 1, (fa + fb).last().push(b.last())) =~= fa
                + fb.update(fb.len() - 1, fb.last().push(b.last())));
        }
    }
}

/// A text without commas is a single field.
proof fn lemma_split_no_comma(d: Seq<u8>)
    requires
        forall|i: int| 0 <= i < d.len() ==> d[i] != 0x2c,
    ensures
        split_fields(d) == seq![d],
    decreases d.len(),
{
    if d.len() > 0 {
        let dd = d.drop_last();
        lemma_split_no_comma(dd);
        assert(d.last() != 0x2c);
        assert(dd.push(d.last()) =~= d);
        assert(seq![dd].update(0, dd.push(d.last())) =~= seq![d]);
    } else {
        assert(d =~= seq![]);
    }
}

/// Each field of a UTF-8 text is UTF-8: a comma is a character of its own.
pub proof fn lemma_fields_utf8(d: Seq<u8>)
    requires
        valid_utf8(d),
    ensures
        forall|i: int| 0 <= i < split_fields(d).len() ==> valid_utf8(#[trigger] split_fields(d)[i]),
    decreases d.len(),
{
    if exists|p: int| 0 <= p < d.len() && d[p] == 0x2c {
        let p = choose|p: int| 0 <= p < d.len() && d[p] == 0x2c;
        let a = d.subrange(0, p);
        let b = d.subrange(p + 1, d.len() as int);
        let c = d.subrange(p, d.len() as int);
        assert(d =~= a + seq![0x2cu8] + b);
        lemma_split_at_comma(a, b);
        is_char_boundary_iff_not_is_continuation_byte(d, p);
        valid_utf8_split(d, p);
        assert(c[0] == 0x2c);
        assert(pop_first_scalar(c) =~= b);
        lemma_fields_utf8(a);
        lemma_fields_utf8(b);
        let fa = split_fields(a);
        let fb = split_fields(b);
        assert forall|i: int| 0 <= i < split_fields(d).len() implies valid_utf8(
            #[trigger] split_fields(d)[i],
        ) by {
            if i < fa.len() {
                assert(split_fields(d)[i] == fa[i]);
            } else {
                assert(split_fields(d)[i] == fb[i - fa.len()]);
            }
        }
    } else {
        lemma_split_no_comma(d);
    }
}

/// The word that opens an answer of a Wing console.
pub open spec fn wing_tag() -> Seq<u8> {
    seq![0x57u8, 0x49u8, 0x4eu8, 0x47u8]
}

/// The console that an answer `d` describes: `WING,ip,name,model,serial,firmware`, in UTF-8,
/// further fields ignored; anything else describes none.
pub open spec fn discovery_answer(d: Seq<u8>) -> Option<DiscoveryView> {
    let f = split_fields(d);
    if valid_utf8(d) && f.len() >= 6 && f[0] == wing_tag() {
        Some(
            DiscoveryView {
                ip: decode_utf8(f[1]),
                name: decode_utf8(f[2]),
                model: decode_utf8(f[3]),
                serial: decode_utf8(f[4]),
                firmware: decode_utf8(f[5]),
            },
        )
    } else {
        None
    }
}

fn copy_bytes(d: &[u8]) -> (v: Vec<u8>)
    ensures
        v@ == d@,
{
    let mut v: Vec<u8> = Vec::new();
    let mut k: usize = 0;
    while k < d.len()
        invariant
            k <= d@.len(),
            v@ == d@.subrange(0, k as int),
        decreases d@.len() - k,
    {
        v.push(d[k]);
        k += 1;
        assert(v@ =~= d@.subrange(0, k as int));
    }
    assert(d@.subrange(0, d@.len() as int) =~= d@);
    v
}

/// The fields of `d` between commas (see [`split_fields`]).
pub fn split_commas(d: &[u8]) -> (fields: Vec<Vec<u8>>)
    ensures
        fields@.len() == split_fields(d@).len(),
        forall|i: int| 0 <= i < fields@.len() ==> #[trigger] fields@[i]@ == split_fields(d@)[i],
{
    let mut done: Vec<Vec<u8>> = Vec::new();
    let mut cur: Vec<u8> = Vec::new();
    let mut k: usize = 0;
    while k < d.len()
        invariant
            k <= d@.len(),
            done@.len() + 1 == split_fields(d@.subrange(0, k as int)).len(),
            forall|i: int| 0 <= i < done@.len() ==> #[trigger] done@[i]@ == split_fields(
                d@.subrange(0, k as int),
            )[i],
            cur@ == split_fields(d@.subrange(0, k as int)).last(),
        decreases d@.len() - k,
    {
        let ghost prefix = d@.subrange(0, k as int);
        let b = d[k];
        k += 1;
        assert(d@.subrange(0, k as int).drop_last() =~= prefix);
        proof {
            lemma_split_fields_len(prefix);
        }
        if b == 0x2c {
            let finished = cur;
            done.push(finished);
            cur = Vec::new();
            assert(cur@ =~= seq![]);
        } else {
            cur.push(b);
        }
    }
    assert(d@.subrange(0, d@.len() as int) =~= d@);
    done.push(cur);
    done
}

fn is_wing_tag(f: &Vec<u8>) -> (b: bool)
    ensures
        b == (f@ == wing_tag()),
{
    let r = f.len() == 4 && f[0] == 0x57 && f[1] == 0x49 && f[2] == 0x4e && f[3] == 0x47;
    if r {
        assert(f@ =~= wing_tag());
    }
    r
}

/// Reads an answer to a discovery broadcast (see [`discovery_answer`]).
pub fn parse_discovery_answer(d: &[u8]) -> (r: Option<DiscoveryInfo>)
    ensures
        match r {
            Some(info) => discovery_answer(d@) == Some(info@),
            None => discovery_answer(d@) is None,
        },
{
    if string_from_utf8(copy_bytes(d)).is_none() {
        return None;
    }
    let f = split_commas(d);
    proof {
        lemma_fields_utf8(d@);
    }
    if f.len() < 6 || !is_wing_tag(&f[0]) {
        return None;
    }
    let ip = match string_from_utf8(f[1].clone()) {
        Some(s) => s,
        None => return None,
    };
    let name = match string_from_utf8(f[2].clone()) {
        Some(s) => s,
        None => return None,
    };
    let model = match string_from_utf8(f[3].clone()) {
        Some(s) => s,
        None => return None,
    };
    let serial = match string_from_utf8(f[4].clone()) {
        Some(s) => s,
        None => return None,
    };
    let firmware = match string_from_utf8(f[5].clone()) {
        Some(s) => s,
        None => return None,
    };
    Some(DiscoveryInfo { ip, name, model, serial, firmware })
}

/// The number of unanswered waits after which a scan ends.
pub const SCAN_ATTEMPTS: u32 = 10;

/// The model of a scan for consoles.
pub struct ScanView {
    pub found: Seq<DiscoveryView>,
    pub failed_waits: nat,
    pub stop_on_first: bool,
}

/// The progress of a scan for consoles: the consoles found so far and the number of waits
/// for an answer that ended without one.
pub struct Scan {
    found: Vec<DiscoveryInfo>,
    failed_waits: u32,
    stop_on_first: bool,
}

impl View for Scan {
    type V = ScanView;

    closed spec fn view(&self) -> ScanView {
        ScanView {
            found: self.found@.map_values(|i: DiscoveryInfo| i@),
            failed_waits: self.failed_waits as nat,
            stop_on_first: self.stop_on_first,
        }
    }
}

/// Whether a scan is over: ten waits ended without an answer, or a console was found and
/// the scan stops at the first.
pub open spec fn scan_finished(s: ScanView) -> bool {
    s.failed_waits >= SCAN_ATTEMPTS || (s.stop_on_first && s.found.len() > 0)
}

impl Scan {
    pub fn new(stop_on_first: bool) -> (s: Self)
        ensures
            s@ == (ScanView { found: seq![], failed_waits: 0, stop_on_first }),
    {
        let s = Scan { found: Vec::new(), failed_waits: 0, stop_on_first };
        assert(s@.found =~= seq![]);
        s
    }

    /// The broadcast that asks consoles to answer.
    pub fn request() -> (m: Vec<u8>)
        ensures
            m@ == seq![0x57u8, 0x49u8, 0x4eu8, 0x47u8, 0x3fu8],
    {
        let mut m: Vec<u8> = Vec::new();
        m.push(0x57);
        m.push(0x49);
        m.push(0x4e);
        m.push(0x47);
        m.push(0x3f);
        assert(m@ =~= seq![0x57u8, 0x49u8, 0x4eu8, 0x47u8, 0x3fu8]);
        m
    }

    /// An answer arrived: a console it describes is added.
    pub fn on_answer(&mut self, d: &[u8])
        requires
            !scan_finished(old(self)@),
        ensures
            final(self)@ == (ScanView {
                found: match discovery_answer(d@) {
                    Some(v) => old(self)@.found.push(v),
                    None => old(self)@.found,
                },
                ..old(self)@
            }),
    {
        let ghost before = self.found@;
        match parse_discovery_answer(d) {
            Some(info) => {
                self.found.push(info);
                assert(self.found@.map_values(|i: DiscoveryInfo| i@) =~= before.map_values(
                    |i: DiscoveryInfo| i@,
                ).push(self.found@[self.found@.len() - 1]@));
            },
            None => {},
        }
    }

    /// A wait for an answer ended without one.
    pub fn on_timeout(&mut self)
        requires
            !scan_finished(old(self)@),
        ensures
            final(self)@ == (ScanView { failed_waits: old(self)@.failed_waits + 1, ..old(self)@ }),
    {
        self.failed_waits = self.failed_waits + 1;
    }

    pub fn finished(&self) -> (b: bool)
        ensures
            b == scan_finished(self@),
    {
        self.failed_waits >= SCAN_ATTEMPTS || (self.stop_on_first && self.found.len() > 0)
    }

    /// The consoles found, in the order of their answers.
    pub fn into_found(self) -> (v: Vec<DiscoveryInfo>)
        ensures
            v@.map_values(|i: DiscoveryInfo| i@) == self@.found,
    {
        self.found
    }
}

fn owned_text(t: &str) -> (r: String)
    ensures
        r@ == t@,
{
    let mut r = String::new();
    push_str(&mut r, t);
    assert(r@ =~= t@);
    r
}

/// The host that a connection goes to: the one asked for, or else the first console that
/// answered discovery; with neither, a discovery error.
pub fn connect_host(requested: Option<&str>, found: &[DiscoveryInfo]) -> (r: Result<String>)
    ensures
        match requested {
            Some(h) => r matches Ok(s) && s@ == h@,
            None => if found@.len() > 0 {
                r matches Ok(s) && s@ == found@[0].ip@
            } else {
                r matches Err(Error::DiscoveryError)
            },
        },
{
    match requested {
        Some(h) => Ok(owned_text(h)),
        None => {
            if found.len() > 0 {
                Ok(owned_text(found[0].ip.as_str()))
            } else {
                Err(Error::DiscoveryError)
            }
        },
    }
}

/// Whether the text whose UTF-8 bytes are `b` names a port: it ends in a colon and one or
/// more ASCII digits.
pub open spec fn names_port(b: Seq<u8>) -> bool {
    exists|i: int|
        0 <= i < b.len() - 1 && b[i] == 0x3a && forall|k: int| i < k < b.len() ==> 0x30 <= #[trigger] b[k]
            <= 0x39
}

fn ends_with_port(b: &[u8]) -> (r: bool)
    ensures
        r == names_port(b@),
{
    let mut k: usize = b.len();
    while k > 0 && 0x30 <= b[k - 1] && b[k - 1] <= 0x39
        invariant
            k <= b@.len(),
            forall|j: int| k <= j < b@.len() ==> 0x30 <= #[trigger] b@[j] <= 0x39,
        decreases k,
    {
        k = k - 1;
    }
    let r = k > 0 && k < b.len() && b[k - 1] == 0x3a;
    proof {
        if r {
            assert(forall|j: int| (k - 1) < j < b@.len() ==> 0x30 <= #[trigger] b@[j] <= 0x39);
        } else if names_port(b@) {
            let i = choose|i: int|
                0 <= i < b@.len() - 1 && b@[i] == 0x3a && forall|j: int| i < j < b@.len() ==> 0x30
                    <= #[trigger] b@[j] <= 0x39;
            if k > i + 1 {
                assert(0x30 <= b@[k - 1] <= 0x39);
            }
            assert(k == i + 1);
        }
    }
    r
}

/// The address of the console's control port on `host`: the host itself where it names a
/// port (ends in `:` and digits), else the host with the console's port 2222.
pub fn console_address(host: &str) -> (a: String)
    ensures
        a@ == if names_port(encode_utf8(host@)) {
            host@
        } else {
            host@ + ":2222"@
        },
{
    let mut a = owned_text(host);
    if !ends_with_port(host.as_bytes()) {
        push_str(&mut a, ":2222");
    }
    a
}


pub open spec fn comma_free(s: Seq<u8>) -> bool {
    forall|i: int| 0 <= i < s.len() ==> s[i] != 0x2c
}

/// The answer of a Wing console to a discovery broadcast: `WING`, then its IP address,
/// name, model, serial number and firmware, each after a comma; what follows a further
/// comma is left out. Each field is the UTF-8 text between its commas.
pub proof fn law_discovery_answer(
    ip: Seq<u8>,
    name: Seq<u8>,
    model: Seq<u8>,
    serial: Seq<u8>,
    firmware: Seq<u8>,
    extra: Seq<u8>,
)
    requires
        comma_free(ip) && comma_free(name) && comma_free(model) && comma_free(serial) && comma_free(firmware),
        extra.len() == 0 || extra[0] == 0x2c,
        valid_utf8(seq![0x57u8, 0x49u8, 0x4eu8, 0x47u8, 0x2cu8] + ip + seq![0x2cu8] + name + seq![0x2cu8] + model
            + seq![0x2cu8] + serial + seq![0x2cu8] + firmware + extra),
    ensures
        discovery_answer(seq![0x57u8, 0x49u8, 0x4eu8, 0x47u8, 0x2cu8] + ip + seq![0x2cu8] + name + seq![0x2cu8]
            + model + seq![0x2cu8] + serial + seq![0x2cu8] + firmware + extra) == Some(
            DiscoveryView {
                ip: decode_utf8(ip),
                name: decode_utf8(name),
                model: decode_utf8(model),
                serial: decode_utf8(serial),
                firmware: decode_utf8(firmware),
            },
        ),
{
    let c = seq![0x2cu8];
    let w = seq![0x57u8, 0x49u8, 0x4eu8, 0x47u8];
    let t5 = firmware + extra;
    let t4 = serial + c + t5;
    let t3 = model + c + t4;
    let t2 = name + c + t3;
    let t1 = ip + c + t2;
    let d = w + c + t1;
    assert(d =~= seq![0x57u8, 0x49u8, 0x4eu8, 0x47u8, 0x2cu8] + ip + seq![0x2cu8] + name + seq![0x2cu8] + model
        + seq![0x2cu8] + serial + seq![0x2cu8] + firmware + extra);
    lemma_split_no_comma(w);
    lemma_split_no_comma(ip);
    lemma_split_no_comma(name);
    lemma_split_no_comma(model);
    lemma_split_no_comma(serial);
    lemma_split_no_comma(firmware);
    let tail = if extra.len() == 0 {
        Seq::<Seq<u8>>::empty()
    } else {
        split_fields(extra.drop_first())
    };
    if extra.len() == 0 {
        assert(t5 =~= firmware);
        assert(split_fields(t5) =~= seq![firmware] + tail);
    } else {
        assert(t5 =~= firmware + c + extra.drop_first());
        lemma_split_at_comma(firmware, extra.drop_first());
    }
    lemma_split_at_comma(serial, t5);
    lemma_split_at_comma(model, t4);
    lemma_split_at_comma(name, t3);
    lemma_split_at_comma(ip, t2);
    lemma_split_at_comma(w, t1);
    let f = split_fields(d);
    assert(f =~= seq![w, ip, name, model, serial, firmware] + tail);
    assert(f[0] == w && f[1] == ip && f[2] == name && f[3] == model && f[4] == serial && f[5] == firmware);
    assert(w =~= wing_tag());
}

} // verus!

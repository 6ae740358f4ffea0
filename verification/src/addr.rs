//! IPv4 addresses and their dotted-quad text form.
//!
//! The daemon's wire format everywhere (resolver reply, provider query, state
//! file) is the canonical dotted-quad rendering: each octet in decimal with no
//! leading zeroes, the four octets separated by `.`. `ipv4_bytes` is the
//! specification of that rendering; `format_ipv4` produces it and `parse_ipv4`
//! accepts exactly the strings it produces.

use vstd::prelude::*;

verus! {

/// An IPv4 address as four octets.
#[derive(Clone, Copy, PartialEq, Eq, Structural, Debug)]
pub struct Ipv4 {
    pub a: u8,
    pub b: u8,
    pub c: u8,
    pub d: u8,
}

/// The ASCII byte of a single decimal digit value.
pub open spec fn digit_byte(v: int) -> u8 {
    (48 + v) as u8
}

/// Whether a byte is an ASCII decimal digit.
pub open spec fn is_digit(b: u8) -> bool {
    48 <= b <= 57
}

/// The canonical decimal rendering of an octet: no leading zeroes.
pub open spec fn dec_bytes(v: u8) -> Seq<u8> {
    if v < 10 {
        seq![digit_byte(v as int)]
    } else if v < 100 {
        seq![digit_byte(v as int / 10), digit_byte(v as int % 10)]
    } else {
        seq![
            digit_byte(v as int / 100),
            digit_byte((v as int / 10) % 10),
            digit_byte(v as int % 10),
        ]
    }
}

/// The dotted-quad rendering of an address, e.g. `203.0.113.7`.
pub open spec fn ipv4_bytes(ip: Ipv4) -> Seq<u8> {
    dec_bytes(ip.a) + seq![46u8] + dec_bytes(ip.b) + seq![46u8] + dec_bytes(ip.c) + seq![46u8]
        + dec_bytes(ip.d)
}

/// Every byte of an octet's rendering is a digit, and there are one to three of them.
pub proof fn lemma_dec_bytes_digits(v: u8)
    ensures
        1 <= dec_bytes(v).len() <= 3,
        forall|i: int| 0 <= i < dec_bytes(v).len() ==> is_digit(#[trigger] dec_bytes(v)[i]),
{
}

/// Distinct octets render to distinct byte strings.
pub proof fn lemma_dec_bytes_injective(v1: u8, v2: u8)
    requires
        dec_bytes(v1) == dec_bytes(v2),
    ensures
        v1 == v2,
{
    lemma_dec_bytes_digits(v1);
    lemma_dec_bytes_digits(v2);
    if v1 < 10 {
        assert(v2 < 10) by {
            if v2 >= 100 {
                assert(dec_bytes(v2).len() == 3);
            } else if v2 >= 10 {
                assert(dec_bytes(v2).len() == 2);
            }
        }
        assert(dec_bytes(v1)[0] == digit_byte(v1 as int));
        assert(dec_bytes(v2)[0] == digit_byte(v2 as int));
    } else if v1 < 100 {
        assert(10 <= v2 < 100) by {
            if v2 >= 100 {
                assert(dec_bytes(v2).len() == 3);
            } else if v2 < 10 {
                assert(dec_bytes(v2).len() == 1);
            }
        }
        assert(dec_bytes(v1)[0] == digit_byte(v1 as int / 10));
        assert(dec_bytes(v2)[0] == digit_byte(v2 as int / 10));
        assert(dec_bytes(v1)[1] == digit_byte(v1 as int % 10));
        assert(dec_bytes(v2)[1] == digit_byte(v2 as int % 10));
        assert(v1 as int == 10 * (v1 as int / 10) + v1 as int % 10);
        assert(v2 as int == 10 * (v2 as int / 10) + v2 as int % 10);
    } else {
        assert(v2 >= 100) by {
            if v2 < 10 {
                assert(dec_bytes(v2).len() == 1);
            } else if v2 < 100 {
                assert(dec_bytes(v2).len() == 2);
            }
        }
        assert(dec_bytes(v1)[0] == digit_byte(v1 as int / 100));
        assert(dec_bytes(v2)[0] == digit_byte(v2 as int / 100));
        assert(dec_bytes(v1)[1] == digit_byte((v1 as int / 10) % 10));
        assert(dec_bytes(v2)[1] == digit_byte((v2 as int / 10) % 10));
        assert(dec_bytes(v1)[2] == digit_byte(v1 as int % 10));
        assert(dec_bytes(v2)[2] == digit_byte(v2 as int % 10));
        assert(v1 as int == 100 * (v1 as int / 100) + 10 * ((v1 as int / 10) % 10) + v1 as int
            % 10);
        assert(v2 as int == 100 * (v2 as int / 100) + 10 * ((v2 as int / 10) % 10) + v2 as int
            % 10);
    }
}

/// Appends the canonical decimal rendering of one octet.
fn push_dec(out: &mut Vec<u8>, v: u8)
    ensures
        final(out)@ == old(out)@ + dec_bytes(v),
{
    if v < 10 {
        out.push(48 + v);
    } else if v < 100 {
        out.push(48 + v / 10);
        out.push(48 + v % 10);
    } else {
        out.push(48 + v / 100);
        out.push(48 + (v / 10) % 10);
        out.push(48 + v % 10);
    }
    proof {
        assert(out@ =~= old(out)@ + dec_bytes(v));
    }
}

/// Renders an address in dotted-quad form.
pub fn format_ipv4(ip: &Ipv4) -> (r: Vec<u8>)
    ensures
        r@ == ipv4_bytes(*ip),
{
    let mut out: Vec<u8> = Vec::new();
    push_dec(&mut out, ip.a);
    out.push(46);
    push_dec(&mut out, ip.b);
    out.push(46);
    push_dec(&mut out, ip.c);
    out.push(46);
    push_dec(&mut out, ip.d);
    proof {
        assert(out@ =~= ipv4_bytes(*ip));
    }
    out
}

/// Where the first dot stands in the rendering of `ip`.
pub open spec fn dot1(ip: Ipv4) -> int {
    dec_bytes(ip.a).len() as int
}

/// Where the second dot stands in the rendering of `ip`.
pub open spec fn dot2(ip: Ipv4) -> int {
    dot1(ip) + 1 + dec_bytes(ip.b).len()
}

/// Where the third dot stands in the rendering of `ip`.
pub open spec fn dot3(ip: Ipv4) -> int {
    dot2(ip) + 1 + dec_bytes(ip.c).len()
}

/// A canonical octet rendering stands at `[start, end)` of `s` and cannot be
/// extended: the byte after it, if any, is not a digit.
pub open spec fn octet_at(s: Seq<u8>, start: int, v: u8, end: int) -> bool {
    &&& 0 <= start <= end <= s.len()
    &&& s.subrange(start, end) == dec_bytes(v)
    &&& (end == s.len() || !is_digit(s[end]))
}

/// At a given position there is at most one canonical octet.
pub proof fn lemma_octet_at_unique(s: Seq<u8>, start: int, v1: u8, e1: int, v2: u8, e2: int)
    requires
        octet_at(s, start, v1, e1),
        octet_at(s, start, v2, e2),
    ensures
        v1 == v2,
        e1 == e2,
{
    lemma_dec_bytes_digits(v1);
    lemma_dec_bytes_digits(v2);
    if e1 < e2 {
        assert(s.subrange(start, e2)[e1 - start] == s[e1]);
        assert(is_digit(dec_bytes(v2)[e1 - start]));
        assert(false);
    } else if e2 < e1 {
        assert(s.subrange(start, e1)[e2 - start] == s[e2]);
        assert(is_digit(dec_bytes(v1)[e2 - start]));
        assert(false);
    }
    lemma_dec_bytes_injective(v1, v2);
}

/// A canonical octet beginning where a digit run begins ends exactly where the
/// run ends.
proof fn lemma_octet_ends_at_run(s: Seq<u8>, start: int, e: int, v: u8, end: int)
    requires
        start <= e <= s.len(),
        forall|j: int| start <= j < e ==> is_digit(#[trigger] s[j]),
        e == s.len() || !is_digit(s[e]),
        octet_at(s, start, v, end),
    ensures
        end == e,
        s.subrange(start, e) == dec_bytes(v),
{
    lemma_dec_bytes_digits(v);
    if end < e {
        assert(is_digit(s[end]));
        assert(false);
    } else if end > e {
        assert(s.subrange(start, end)[e - start] == s[e]);
        assert(is_digit(dec_bytes(v)[e - start]));
        assert(false);
    }
}

/// True when the byte at `i` is an ASCII digit.
fn digit_at(s: &[u8], i: usize) -> (r: bool)
    requires
        i < s@.len(),
    ensures
        r == is_digit(s@[i as int]),
{
    48 <= s[i] && s[i] <= 57
}

/// Greedily parses one canonical decimal octet beginning at `start`.
fn parse_octet_at(s: &[u8], start: usize) -> (r: Option<(u8, usize)>)
    requires
        start <= s@.len(),
    ensures
        match r {
            Some(p) => octet_at(s@, start as int, p.0, p.1 as int),
            None => forall|v: u8, end: int| !octet_at(s@, start as int, v, end),
        },
{
    let ghost sq = s@;
    let mut e: usize = start;
    loop
        invariant
            start <= e <= sq.len(),
            sq == s@,
            forall|j: int| start <= j < e ==> is_digit(#[trigger] sq[j]),
        ensures
            start <= e <= sq.len(),
            forall|j: int| start <= j < e ==> is_digit(#[trigger] sq[j]),
            e == sq.len() || !is_digit(sq[e as int]),
        decreases sq.len() - e,
    {
        if e == s.len() {
            break ;
        }
        if !digit_at(s, e) {
            break ;
        }
        e = e + 1;
    }
    let n = e - start;
    if n == 0 || n > 3 {
        proof {
            assert forall|v: u8, end: int| !octet_at(sq, start as int, v, end) by {
                if octet_at(sq, start as int, v, end) {
                    lemma_octet_ends_at_run(sq, start as int, e as int, v, end);
                    if v < 10 {
                        assert(dec_bytes(v).len() == 1);
                    } else if v < 100 {
                        assert(dec_bytes(v).len() == 2);
                    } else {
                        assert(dec_bytes(v).len() == 3);
                    }
                    assert(false);
                }
            }
        }
        return None;
    }
    let b0 = s[start];
    proof {
        assert(is_digit(sq[start as int]));
    }
    if n == 1 {
        let v = b0 - 48;
        proof {
            assert(sq.subrange(start as int, e as int) =~= dec_bytes(v));
        }
        return Some((v, e));
    }
    if b0 == 48 {
        // A multi-digit octet must not begin with a zero.
        proof {
            assert forall|v: u8, end: int| !octet_at(sq, start as int, v, end) by {
                if octet_at(sq, start as int, v, end) {
                    lemma_octet_ends_at_run(sq, start as int, e as int, v, end);
                    assert(sq.subrange(start as int, e as int)[0] == sq[start as int]);
                    if v < 10 {
                        assert(dec_bytes(v).len() == 1);
                    } else if v < 100 {
                        assert(dec_bytes(v)[0] == digit_byte(v as int / 10));
                        assert(v as int / 10 >= 1);
                    } else {
                        assert(dec_bytes(v)[0] == digit_byte(v as int / 100));
                        assert(v as int / 100 >= 1);
                    }
                    assert(false);
                }
            }
        }
        return None;
    }
    let b1 = s[start + 1];
    proof {
        assert(is_digit(sq[start as int + 1]));
    }
    if n == 2 {
        let v = (b0 - 48) * 10 + (b1 - 48);
        proof {
            assert(v as int / 10 == b0 - 48 && v as int % 10 == b1 - 48);
            assert(sq.subrange(start as int, e as int) =~= dec_bytes(v));
        }
        return Some((v, e));
    }
    let b2 = s[start + 2];
    proof {
        assert(is_digit(sq[start as int + 2]));
    }
    let w: u16 = (b0 - 48) as u16 * 100 + (b1 - 48) as u16 * 10 + (b2 - 48) as u16;
    if w > 255 {
        // Three digits naming a value above an octet's range.
        proof {
            assert forall|v: u8, end: int| !octet_at(sq, start as int, v, end) by {
                if octet_at(sq, start as int, v, end) {
                    lemma_octet_ends_at_run(sq, start as int, e as int, v, end);
                    assert(sq.subrange(start as int, e as int)[0] == sq[start as int]);
                    assert(sq.subrange(start as int, e as int)[1] == sq[start as int + 1]);
                    assert(sq.subrange(start as int, e as int)[2] == sq[start as int + 2]);
                    assert(v >= 100) by {
                        if v < 10 {
                            assert(dec_bytes(v).len() == 1);
                        } else if v < 100 {
                            assert(dec_bytes(v).len() == 2);
                        }
                    }
                    assert(dec_bytes(v)[0] == digit_byte(v as int / 100));
                    assert(dec_bytes(v)[1] == digit_byte((v as int / 10) % 10));
                    assert(dec_bytes(v)[2] == digit_byte(v as int % 10));
                    assert(v as int == 100 * (v as int / 100) + 10 * ((v as int / 10) % 10)
                        + v as int % 10);
                    assert(v as int == w as int);
                }
            }
        }
        return None;
    }
    let v = w as u8;
    proof {
        assert(v as int / 100 == b0 - 48);
        assert((v as int / 10) % 10 == b1 - 48);
        assert(v as int % 10 == b2 - 48);
        assert(sq.subrange(start as int, e as int) =~= dec_bytes(v));
    }
    Some((v, e))
}

/// Where the octets and the dots stand in a dotted-quad rendering.
pub proof fn lemma_format_shape(s: Seq<u8>, ip: Ipv4)
    requires
        s == ipv4_bytes(ip),
    ensures
        s.len() == dot3(ip) + 1 + dec_bytes(ip.d).len(),
        octet_at(s, 0, ip.a, dot1(ip)),
        s[dot1(ip)] == 46,
        octet_at(s, dot1(ip) + 1, ip.b, dot2(ip)),
        s[dot2(ip)] == 46,
        octet_at(s, dot2(ip) + 1, ip.c, dot3(ip)),
        s[dot3(ip)] == 46,
        octet_at(s, dot3(ip) + 1, ip.d, s.len() as int),
{
    lemma_dec_bytes_digits(ip.a);
    lemma_dec_bytes_digits(ip.b);
    lemma_dec_bytes_digits(ip.c);
    lemma_dec_bytes_digits(ip.d);
    assert(s.subrange(0, dot1(ip)) =~= dec_bytes(ip.a));
    assert(s.subrange(dot1(ip) + 1, dot2(ip)) =~= dec_bytes(ip.b));
    assert(s.subrange(dot2(ip) + 1, dot3(ip)) =~= dec_bytes(ip.c));
    assert(s.subrange(dot3(ip) + 1, s.len() as int) =~= dec_bytes(ip.d));
}

/// Distinct addresses render to distinct byte strings.
pub proof fn lemma_ipv4_bytes_injective(ip1: Ipv4, ip2: Ipv4)
    requires
        ipv4_bytes(ip1) == ipv4_bytes(ip2),
    ensures
        ip1 == ip2,
{
    let s = ipv4_bytes(ip1);
    lemma_format_shape(s, ip1);
    lemma_format_shape(s, ip2);
    lemma_octet_at_unique(s, 0, ip1.a, dot1(ip1), ip2.a, dot1(ip2));
    lemma_octet_at_unique(s, dot1(ip1) + 1, ip1.b, dot2(ip1), ip2.b, dot2(ip2));
    lemma_octet_at_unique(s, dot2(ip1) + 1, ip1.c, dot3(ip1), ip2.c, dot3(ip2));
    lemma_octet_at_unique(s, dot3(ip1) + 1, ip1.d, s.len() as int, ip2.d, s.len() as int);
}

/// Parses a dotted-quad rendering; accepts exactly the strings `format_ipv4`
/// produces.
pub fn parse_ipv4(s: &[u8]) -> (r: Option<Ipv4>)
    ensures
        match r {
            Some(ip) => s@ == ipv4_bytes(ip),
            None => forall|ip: Ipv4| s@ != ipv4_bytes(ip),
        },
{
    let ghost sq = s@;
    let o1 = parse_octet_at(s, 0);
    if o1.is_none() {
        proof {
            assert forall|ip: Ipv4| sq != ipv4_bytes(ip) by {
                if sq == ipv4_bytes(ip) {
                    lemma_format_shape(sq, ip);
                }
            }
        }
        return None;
    }
    let (a, e1) = o1.unwrap();
    if e1 == s.len() || s[e1] != 46 {
        proof {
            assert forall|ip: Ipv4| sq != ipv4_bytes(ip) by {
                if sq == ipv4_bytes(ip) {
                    lemma_format_shape(sq, ip);
                    lemma_octet_at_unique(sq, 0, a, e1 as int, ip.a, dot1(ip));
                }
            }
        }
        return None;
    }
    let o2 = parse_octet_at(s, e1 + 1);
    if o2.is_none() {
        proof {
            assert forall|ip: Ipv4| sq != ipv4_bytes(ip) by {
                if sq == ipv4_bytes(ip) {
                    lemma_format_shape(sq, ip);
                    lemma_octet_at_unique(sq, 0, a, e1 as int, ip.a, dot1(ip));
                }
            }
        }
        return None;
    }
    let (b, e2) = o2.unwrap();
    if e2 == s.len() || s[e2] != 46 {
        proof {
            assert forall|ip: Ipv4| sq != ipv4_bytes(ip) by {
                if sq == ipv4_bytes(ip) {
                    lemma_format_shape(sq, ip);
                    lemma_octet_at_unique(sq, 0, a, e1 as int, ip.a, dot1(ip));
                    lemma_octet_at_unique(sq, e1 + 1, b, e2 as int, ip.b, dot2(ip));
                }
            }
        }
        return None;
    }
    let o3 = parse_octet_at(s, e2 + 1);
    if o3.is_none() {
        proof {
            assert forall|ip: Ipv4| sq != ipv4_bytes(ip) by {
                if sq == ipv4_bytes(ip) {
                    lemma_format_shape(sq, ip);
                    lemma_octet_at_unique(sq, 0, a, e1 as int, ip.a, dot1(ip));
                    lemma_octet_at_unique(sq, e1 + 1, b, e2 as int, ip.b, dot2(ip));
                }
            }
        }
        return None;
    }
    let (c, e3) = o3.unwrap();
    if e3 == s.len() || s[e3] != 46 {
        proof {
            assert forall|ip: Ipv4| sq != ipv4_bytes(ip) by {
                if sq == ipv4_bytes(ip) {
                    lemma_format_shape(sq, ip);
                    lemma_octet_at_unique(sq, 0, a, e1 as int, ip.a, dot1(ip));
                    lemma_octet_at_unique(sq, e1 + 1, b, e2 as int, ip.b, dot2(ip));
                    lemma_octet_at_unique(sq, e2 + 1, c, e3 as int, ip.c, dot3(ip));
                }
            }
        }
        return None;
    }
    let o4 = parse_octet_at(s, e3 + 1);
    if o4.is_none() {
        proof {
            assert forall|ip: Ipv4| sq != ipv4_bytes(ip) by {
                if sq == ipv4_bytes(ip) {
                    lemma_format_shape(sq, ip);
                    lemma_octet_at_unique(sq, 0, a, e1 as int, ip.a, dot1(ip));
                    lemma_octet_at_unique(sq, e1 + 1, b, e2 as int, ip.b, dot2(ip));
                    lemma_octet_at_unique(sq, e2 + 1, c, e3 as int, ip.c, dot3(ip));
                }
            }
        }
        return None;
    }
    let (d, e4) = o4.unwrap();
    if e4 != s.len() {
        proof {
            assert forall|ip: Ipv4| sq != ipv4_bytes(ip) by {
                if sq == ipv4_bytes(ip) {
                    lemma_format_shape(sq, ip);
                    lemma_octet_at_unique(sq, 0, a, e1 as int, ip.a, dot1(ip));
                    lemma_octet_at_unique(sq, e1 + 1, b, e2 as int, ip.b, dot2(ip));
                    lemma_octet_at_unique(sq, e2 + 1, c, e3 as int, ip.c, dot3(ip));
                    lemma_octet_at_unique(
                        sq,
                        e3 + 1,
                        d,
                        e4 as int,
                        ip.d,
                        sq.len() as int,
                    );
                }
            }
        }
        return None;
    }
    let ip = Ipv4 { a, b, c, d };
    proof {
        assert(sq =~= ipv4_bytes(ip));
    }
    Some(ip)
}

/// The rendering of an optional address: the address, or the word `None`.
pub open spec fn optional_addr_bytes(addr: Option<Ipv4>) -> Seq<u8> {
    match addr {
        Option::None => seq![78u8, 111u8, 110u8, 101u8],
        Option::Some(ip) => ipv4_bytes(ip),
    }
}

/// Renders an optional address for log lines.
pub fn fmt_optional_addr(addr: &Option<Ipv4>) -> (r: Vec<u8>)
    ensures
        r@ == optional_addr_bytes(*addr),
{
    match addr {
        Option::None => {
            let mut out: Vec<u8> = Vec::new();
            out.push(78);
            out.push(111);
            out.push(110);
            out.push(101);
            proof {
                assert(out@ =~= optional_addr_bytes(Option::None));
            }
            out
        },
        Option::Some(ip) => format_ipv4(ip),
    }
}

} // verus!

//! The durable state document.
//!
//! The daemon's one durable artifact is a tiny document recording its best
//! knowledge of the address the provider has on record: the line
//! `addr: <dotted-quad>` for a known address, or `addr: null` while it is
//! unknown. `render_state` produces the document, `parse_state` accepts exactly
//! the documents `render_state` produces, and `load_state` decides what startup
//! does with what was (or was not) read from disk.

use vstd::prelude::*;

use crate::addr::{
    format_ipv4, ipv4_bytes, is_digit, lemma_dec_bytes_digits, lemma_format_shape,
    lemma_ipv4_bytes_injective, parse_ipv4, Ipv4,
};

verus! {

/// The bytes of `addr: `, the field name that opens the document.
pub open spec fn addr_prefix() -> Seq<u8> {
    seq![97u8, 100u8, 100u8, 114u8, 58u8, 32u8]
}

/// The bytes of `null`, the rendering of the unknown address.
pub open spec fn null_bytes() -> Seq<u8> {
    seq![110u8, 117u8, 108u8, 108u8]
}

/// The payload after the field name: an address, or `null`.
pub open spec fn payload_bytes(st: Option<Ipv4>) -> Seq<u8> {
    match st {
        Option::None => null_bytes(),
        Option::Some(ip) => ipv4_bytes(ip),
    }
}

/// The whole state document recording `st`, newline-terminated.
pub open spec fn state_doc_bytes(st: Option<Ipv4>) -> Seq<u8> {
    addr_prefix() + payload_bytes(st) + seq![10u8]
}

/// The document's frame: the field name, the payload, the final newline.
pub proof fn lemma_state_doc_shape(st: Option<Ipv4>)
    ensures
        11 <= state_doc_bytes(st).len(),
        state_doc_bytes(st).len() == 7 + payload_bytes(st).len(),
        state_doc_bytes(st).subrange(0, 6) == addr_prefix(),
        state_doc_bytes(st)[state_doc_bytes(st).len() - 1] == 10,
        state_doc_bytes(st).subrange(6, state_doc_bytes(st).len() - 1) == payload_bytes(st),
        st is None ==> state_doc_bytes(st).len() == 11,
{
    match st {
        Option::None => {},
        Option::Some(ip) => {
            lemma_dec_bytes_digits(ip.a);
            lemma_dec_bytes_digits(ip.b);
            lemma_dec_bytes_digits(ip.c);
            lemma_dec_bytes_digits(ip.d);
        },
    }
    assert(state_doc_bytes(st).subrange(0, 6) =~= addr_prefix());
    assert(state_doc_bytes(st).subrange(6, state_doc_bytes(st).len() - 1) =~= payload_bytes(st));
}

/// Two state documents with the same bytes record the same address.
pub proof fn lemma_state_doc_injective(s1: Option<Ipv4>, s2: Option<Ipv4>)
    requires
        state_doc_bytes(s1) == state_doc_bytes(s2),
    ensures
        s1 == s2,
{
    lemma_state_doc_shape(s1);
    lemma_state_doc_shape(s2);
    assert(payload_bytes(s1) == payload_bytes(s2));
    match (s1, s2) {
        (Option::None, Option::None) => {},
        (Option::Some(ip1), Option::Some(ip2)) => {
            lemma_ipv4_bytes_injective(ip1, ip2);
        },
        (Option::None, Option::Some(ip)) => {
            lemma_format_shape(ipv4_bytes(ip), ip);
            lemma_dec_bytes_digits(ip.a);
            assert(ipv4_bytes(ip).subrange(0, crate::addr::dot1(ip))[0] == ipv4_bytes(ip)[0]);
            assert(is_digit(ipv4_bytes(ip)[0]));
            assert(null_bytes()[0] == 110);
            assert(false);
        },
        (Option::Some(ip), Option::None) => {
            lemma_format_shape(ipv4_bytes(ip), ip);
            lemma_dec_bytes_digits(ip.a);
            assert(ipv4_bytes(ip).subrange(0, crate::addr::dot1(ip))[0] == ipv4_bytes(ip)[0]);
            assert(is_digit(ipv4_bytes(ip)[0]));
            assert(null_bytes()[0] == 110);
            assert(false);
        },
    }
}

/// Renders the state document for `addr`.
pub fn render_state(addr: &Option<Ipv4>) -> (r: Vec<u8>)
    ensures
        r@ == state_doc_bytes(*addr),
{
    let mut out: Vec<u8> = Vec::new();
    out.push(97);
    out.push(100);
    out.push(100);
    out.push(114);
    out.push(58);
    out.push(32);
    match addr {
        Option::None => {
            out.push(110);
            out.push(117);
            out.push(108);
            out.push(108);
        },
        Option::Some(ip) => {
            let mut f = format_ipv4(ip);
            out.append(&mut f);
        },
    }
    out.push(10);
    proof {
        assert(out@ =~= state_doc_bytes(*addr));
    }
    out
}

/// Parses a state document; accepts exactly the documents `render_state`
/// produces.
pub fn parse_state(s: &[u8]) -> (r: Option<Option<Ipv4>>)
    ensures
        match r {
            Some(st) => s@ == state_doc_bytes(st),
            None => forall|st: Option<Ipv4>| s@ != state_doc_bytes(st),
        },
{
    let ghost sq = s@;
    let n = s.len();
    if n < 11 {
        proof {
            assert forall|st: Option<Ipv4>| sq != state_doc_bytes(st) by {
                if sq == state_doc_bytes(st) {
                    lemma_state_doc_shape(st);
                }
            }
        }
        return None;
    }
    if s[0] != 97 || s[1] != 100 || s[2] != 100 || s[3] != 114 || s[4] != 58 || s[5] != 32 || s[n
        - 1] != 10 {
        proof {
            assert forall|st: Option<Ipv4>| sq != state_doc_bytes(st) by {
                if sq == state_doc_bytes(st) {
                    lemma_state_doc_shape(st);
                    assert(sq.subrange(0, 6)[0] == sq[0]);
                    assert(sq.subrange(0, 6)[1] == sq[1]);
                    assert(sq.subrange(0, 6)[2] == sq[2]);
                    assert(sq.subrange(0, 6)[3] == sq[3]);
                    assert(sq.subrange(0, 6)[4] == sq[4]);
                    assert(sq.subrange(0, 6)[5] == sq[5]);
                    assert(false);
                }
            }
        }
        return None;
    }
    if n == 11 && s[6] == 110 && s[7] == 117 && s[8] == 108 && s[9] == 108 {
        proof {
            assert(sq =~= state_doc_bytes(Option::None));
        }
        return Some(None);
    }
    let mid = vstd::slice::slice_subrange(s, 6, n - 1);
    match parse_ipv4(mid) {
        Some(ip) => {
            proof {
                assert(sq =~= state_doc_bytes(Option::Some(ip)));
            }
            Some(Some(ip))
        },
        None => {
            proof {
                assert forall|st: Option<Ipv4>| sq != state_doc_bytes(st) by {
                    if sq == state_doc_bytes(st) {
                        lemma_state_doc_shape(st);
                        assert(mid@ == payload_bytes(st));
                        match st {
                            Option::None => {
                                assert(sq[6] == sq.subrange(6, sq.len() - 1)[0]);
                                assert(sq[7] == sq.subrange(6, sq.len() - 1)[1]);
                                assert(sq[8] == sq.subrange(6, sq.len() - 1)[2]);
                                assert(sq[9] == sq.subrange(6, sq.len() - 1)[3]);
                                assert(false);
                            },
                            Option::Some(ip) => {
                                assert(mid@ == ipv4_bytes(ip));
                                assert(false);
                            },
                        }
                    }
                }
            }
            None
        },
    }
}

/// What startup decides, given what the state file held.
pub enum LoadOutcome {
    /// The state file existed and parsed; adopt its address.
    Loaded { addr: Option<Ipv4> },
    /// No state file yet: adopt the unknown address and write `file` to disk
    /// before anything else runs.
    Bootstrap { file: Vec<u8> },
    /// The state file existed but did not parse: a fatal startup condition.
    Corrupt,
}

/// Decides the startup state from the state file's contents (`None` when no
/// file exists yet).
pub fn load_state(contents: Option<Vec<u8>>) -> (r: LoadOutcome)
    ensures
        match r {
            LoadOutcome::Loaded { addr } => contents matches Some(c) && c@ == state_doc_bytes(
                addr,
            ),
            LoadOutcome::Bootstrap { file } => contents is None && file@ == state_doc_bytes(
                Option::None,
            ),
            LoadOutcome::Corrupt => contents matches Some(c) && (forall|st: Option<Ipv4>|
                c@ != state_doc_bytes(st)),
        },
{
    match contents {
        None => LoadOutcome::Bootstrap { file: render_state(&None) },
        Some(c) => match parse_state(c.as_slice()) {
            Some(addr) => LoadOutcome::Loaded { addr },
            None => LoadOutcome::Corrupt,
        },
    }
}

} // verus!

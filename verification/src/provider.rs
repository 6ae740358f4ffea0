//! The DNS provider's update interface.
//!
//! The provider's update endpoint takes four query parameters — host, domain,
//! password and the address to set — and always answers with a success-looking
//! transport status; the logical outcome is signalled inside an unstructured
//! body. By design the body is not parsed: a reply succeeds exactly when it
//! contains the literal zero-error marker, found by plain substring search.

use vstd::prelude::*;

use crate::addr::{format_ipv4, ipv4_bytes, Ipv4};

verus! {

/// The static configuration: which record to update, and the credential.
pub struct Config {
    /// The domain whose record is updated.
    pub domain: Vec<u8>,
    /// The host (subdomain) to set; absent means the bare domain.
    pub host: Option<Vec<u8>>,
    /// The dynamic DNS password.
    pub password: Vec<u8>,
}

/// Whether `needle` occurs contiguously inside `hay`.
pub open spec fn contains_seq(hay: Seq<u8>, needle: Seq<u8>) -> bool {
    exists|i: int|
        0 <= i && i + needle.len() <= hay.len() && #[trigger] hay.subrange(i, i + needle.len())
            == needle
}

/// The bytes of `<ErrCount>0</ErrCount>`, the provider's zero-error marker.
pub open spec fn success_marker() -> Seq<u8> {
    seq![
        60u8, 69u8, 114u8, 114u8, 67u8, 111u8, 117u8, 110u8, 116u8, 62u8, 48u8, 60u8, 47u8,
        69u8, 114u8, 114u8, 67u8, 111u8, 117u8, 110u8, 116u8, 62u8,
    ]
}

/// Builds the zero-error marker.
fn success_marker_bytes() -> (r: Vec<u8>)
    ensures
        r@ == success_marker(),
{
    let mut out: Vec<u8> = Vec::new();
    out.push(60);
    out.push(69);
    out.push(114);
    out.push(114);
    out.push(67);
    out.push(111);
    out.push(117);
    out.push(110);
    out.push(116);
    out.push(62);
    out.push(48);
    out.push(60);
    out.push(47);
    out.push(69);
    out.push(114);
    out.push(114);
    out.push(67);
    out.push(111);
    out.push(117);
    out.push(110);
    out.push(116);
    out.push(62);
    proof {
        assert(out@ =~= success_marker());
    }
    out
}

/// True when `needle` stands at position `i` of `hay`.
fn match_at(hay: &[u8], needle: &[u8], i: usize) -> (r: bool)
    requires
        i + needle@.len() <= hay@.len(),
    ensures
        r == (hay@.subrange(i as int, i + needle@.len()) == needle@),
{
    let ghost hq = hay@;
    let ghost nq = needle@;
    let hlen = hay.len();
    let mut j: usize = 0;
    while j < needle.len()
        invariant
            j <= nq.len(),
            i + nq.len() <= hq.len(),
            hlen == hq.len(),
            hq == hay@,
            nq == needle@,
            forall|k: int| 0 <= k < j ==> hq[i + k] == nq[k],
        decreases nq.len() - j,
    {
        if hay[i + j] != needle[j] {
            proof {
                assert(hq.subrange(i as int, i + nq.len())[j as int] == hq[i + j]);
            }
            return false;
        }
        j = j + 1;
    }
    proof {
        assert(hq.subrange(i as int, i + nq.len()) =~= nq);
    }
    true
}

/// Searches `hay` for `needle`.
pub fn contains_bytes(hay: &[u8], needle: &[u8]) -> (r: bool)
    ensures
        r == contains_seq(hay@, needle@),
{
    let ghost hq = hay@;
    let ghost nq = needle@;
    if needle.len() > hay.len() {
        return false;
    }
    if needle.len() == 0 {
        proof {
            assert(hq.subrange(0, 0 + nq.len() as int) =~= nq);
        }
        return true;
    }
    let hlen = hay.len();
    let end = hay.len() - needle.len();
    let mut i: usize = 0;
    while i <= end
        invariant
            1 <= nq.len() <= hq.len(),
            hlen == hq.len(),
            end == hq.len() - nq.len(),
            i <= end + 1,
            hq == hay@,
            nq == needle@,
            forall|k: int| 0 <= k < i ==> #[trigger] hq.subrange(k, k + nq.len()) != nq,
        decreases end + 1 - i,
    {
        if match_at(hay, needle, i) {
            proof {
                assert(0 <= i as int && i as int + nq.len() <= hq.len() && hq.subrange(
                    i as int,
                    i as int + nq.len(),
                ) == nq);
            }
            return true;
        }
        i = i + 1;
    }
    proof {
        assert forall|k: int|
            !(0 <= k && k + nq.len() <= hq.len() && #[trigger] hq.subrange(k, k + nq.len())
                == nq) by {
            if 0 <= k && k + nq.len() <= hq.len() {
                assert(k < i);
            }
        }
    }
    false
}

/// How an update attempt fails.
#[derive(Clone, PartialEq, Eq, Debug)]
pub enum UpdateError {
    /// The request could not be sent or the reply not received.
    TransportError,
    /// The provider answered, but the body did not signal zero errors.
    ProviderRejected { body: Vec<u8> },
}

/// Judges the provider's reply body: success exactly when the zero-error
/// marker occurs in it.
pub fn interpret_update_response(body: Vec<u8>) -> (r: Result<(), UpdateError>)
    ensures
        contains_seq(body@, success_marker()) ==> r is Ok,
        !contains_seq(body@, success_marker()) ==> (r matches Err(
            UpdateError::ProviderRejected { body: b },
        ) && b@ == body@),
{
    let marker = success_marker_bytes();
    if contains_bytes(body.as_slice(), marker.as_slice()) {
        Ok(())
    } else {
        Err(UpdateError::ProviderRejected { body })
    }
}

/// The four query parameters of one update request.
pub struct UpdateParams {
    /// The host to set; `@` when the configuration names none.
    pub host: Vec<u8>,
    /// The domain whose record is updated.
    pub domain: Vec<u8>,
    /// The dynamic DNS password.
    pub password: Vec<u8>,
    /// The address to set, in dotted-quad form.
    pub ip: Vec<u8>,
}

/// Copies a byte string.
fn copy_bytes(s: &[u8]) -> (r: Vec<u8>)
    ensures
        r@ == s@,
{
    let ghost sq = s@;
    let mut out: Vec<u8> = Vec::new();
    let mut i: usize = 0;
    while i < s.len()
        invariant
            i <= sq.len(),
            sq == s@,
            out@ == sq.subrange(0, i as int),
        decreases sq.len() - i,
    {
        out.push(s[i]);
        proof {
            assert(out@ =~= sq.subrange(0, i as int + 1));
        }
        i = i + 1;
    }
    proof {
        assert(out@ =~= sq);
    }
    out
}

/// Builds the query parameters of an update request for `addr`: the
/// configured host (or `@` for the bare domain), the domain, the credential,
/// and the address in dotted-quad form.
pub fn update_params(cfg: &Config, addr: &Ipv4) -> (r: UpdateParams)
    ensures
        r.host@ == (match cfg.host {
            Option::None => seq![64u8],
            Option::Some(h) => h@,
        }),
        r.domain@ == cfg.domain@,
        r.password@ == cfg.password@,
        r.ip@ == ipv4_bytes(*addr),
{
    let host = match &cfg.host {
        None => {
            let mut at: Vec<u8> = Vec::new();
            at.push(64);
            proof {
                assert(at@ =~= seq![64u8]);
            }
            at
        },
        Some(h) => copy_bytes(h.as_slice()),
    };
    UpdateParams {
        host,
        domain: copy_bytes(cfg.domain.as_slice()),
        password: copy_bytes(cfg.password.as_slice()),
        ip: format_ipv4(addr),
    }
}

} // verus!

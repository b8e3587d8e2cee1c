//! Signed-request assembly for the RPC client. Every request is a
//! form-encoded POST whose parameter set is built in a fixed way: the
//! caller's parameters, then the client's default parameters — defaults win
//! when a key collides, an explicit contract of the protocol, not an
//! accident — then the freshness timestamp, and last the signature token,
//! computed over everything that precedes it (so the signature covers the
//! timestamp). The network send itself stays outside the library.
use vstd::prelude::*;

verus! {

use vstd::string::StrSliceExecFns;
use crate::bytes::bytes_eq;
use crate::bytes::push_all;
use crate::sig::calculate_sig;
use crate::sig::pairs_view;
use crate::sig::sig_key;
use crate::sig::sig_key_bytes;
use crate::sig::spec_sig;

/// The key of the freshness timestamp parameter, the bytes of `ts`.
pub open spec fn ts_key() -> Seq<u8> {
    seq![116u8, 115u8]
}

/// The signed HTTP method: every request of this client is a POST.
pub open spec fn post_method() -> Seq<u8> {
    seq![80u8, 79u8, 83u8, 84u8]
}

/// The keys of a parameter list.
pub open spec fn keys_of(s: Seq<(Seq<u8>, Seq<u8>)>) -> Seq<Seq<u8>> {
    s.map_values(|p: (Seq<u8>, Seq<u8>)| p.0)
}

/// The caller parameters that survive the merge: those whose key is neither
/// a default's, nor the timestamp key, nor the signature key.
pub open spec fn kept_call_params(
    defaults: Seq<(Seq<u8>, Seq<u8>)>,
    call_params: Seq<(Seq<u8>, Seq<u8>)>,
) -> Seq<(Seq<u8>, Seq<u8>)> {
    call_params.filter(
        |p: (Seq<u8>, Seq<u8>)|
            !keys_of(defaults).contains(p.0) && p.0 != ts_key() && p.0 != sig_key(),
    )
}

/// The defaults that survive the merge: all but any that carry the timestamp
/// or signature key, which the client always writes itself.
pub open spec fn kept_defaults(defaults: Seq<(Seq<u8>, Seq<u8>)>) -> Seq<(Seq<u8>, Seq<u8>)> {
    defaults.filter(|p: (Seq<u8>, Seq<u8>)| p.0 != ts_key() && p.0 != sig_key())
}

/// The bytes of an ASCII character sequence.
pub open spec fn ascii_bytes(s: Seq<char>) -> Seq<u8> {
    Seq::new(s.len(), |i: int| s[i] as u8)
}

/// The full parameter list `build_signed_params` sends for a request.
pub open spec fn signed_params(
    defaults: Seq<(Seq<u8>, Seq<u8>)>,
    call_params: Seq<(Seq<u8>, Seq<u8>)>,
    path: Seq<u8>,
    ts_value: Seq<u8>,
) -> Seq<(Seq<u8>, Seq<u8>)> {
    let pre = kept_call_params(defaults, call_params) + kept_defaults(defaults) + seq![
        (ts_key(), ts_value),
    ];
    pre.push((sig_key(), ascii_bytes(spec_sig(post_method(), path, pre))))
}

fn ts_key_bytes() -> (v: Vec<u8>)
    ensures
        v@ == ts_key(),
{
    let mut v: Vec<u8> = Vec::new();
    v.push(116);
    v.push(115);
    proof {
        assert(v@ =~= ts_key());
    }
    v
}

fn post_method_bytes() -> (v: Vec<u8>)
    ensures
        v@ == post_method(),
{
    let mut v: Vec<u8> = Vec::new();
    v.push(80);
    v.push(79);
    v.push(83);
    v.push(84);
    proof {
        assert(v@ =~= post_method());
    }
    v
}

/// Whether a parameter list holds the key.
fn has_key(params: &Vec<(Vec<u8>, Vec<u8>)>, key: &Vec<u8>) -> (r: bool)
    ensures
        r == keys_of(pairs_view(params@)).contains(key@),
{
    let mut i: usize = 0;
    while i < params.len()
        invariant
            0 <= i <= params@.len(),
            forall|j: int| 0 <= j < i ==> keys_of(pairs_view(params@))[j] != key@,
        decreases params@.len() - i,
    {
        if bytes_eq(&params[i].0, key) {
            proof {
                assert(keys_of(pairs_view(params@))[i as int] == key@);
            }
            return true;
        }
        i = i + 1;
    }
    proof {
        assert(!keys_of(pairs_view(params@)).contains(key@)) by {
            if keys_of(pairs_view(params@)).contains(key@) {
                let j = choose|j: int|
                    0 <= j < keys_of(pairs_view(params@)).len() && keys_of(pairs_view(params@))[j]
                        == key@;
            }
        }
    }
    false
}

/// Copies one parameter pair.
fn clone_pair(p: &(Vec<u8>, Vec<u8>)) -> (r: (Vec<u8>, Vec<u8>))
    ensures
        r.0@ == p.0@,
        r.1@ == p.1@,
{
    let k = p.0.clone();
    let v = p.1.clone();
    proof {
        assert(k@ =~= p.0@);
        assert(v@ =~= p.1@);
    }
    (k, v)
}

/// Assembles the parameter list of one signed POST request: the caller's
/// parameters, the client defaults (defaults replace colliding caller keys),
/// the millisecond timestamp under `ts`, and last the signature token under
/// `sig`, computed over all parameters before it.
pub fn build_signed_params(
    defaults: &Vec<(Vec<u8>, Vec<u8>)>,
    call_params: &Vec<(Vec<u8>, Vec<u8>)>,
    path: &Vec<u8>,
    ts_value: &Vec<u8>,
) -> (r: Vec<(Vec<u8>, Vec<u8>)>)
    ensures
        pairs_view(r@) == signed_params(
            pairs_view(defaults@),
            pairs_view(call_params@),
            path@,
            ts_value@,
        ),
{
    broadcast use vstd::seq_lib::group_seq_properties;

    let ts_lit = ts_key_bytes();
    let sig_lit = sig_key_bytes();
    let mut r: Vec<(Vec<u8>, Vec<u8>)> = Vec::new();
    let ghost dview = pairs_view(defaults@);
    let ghost keep_call = |p: (Seq<u8>, Seq<u8>)|
        !keys_of(dview).contains(p.0) && p.0 != ts_key() && p.0 != sig_key();
    let ghost keep_default = |p: (Seq<u8>, Seq<u8>)| p.0 != ts_key() && p.0 != sig_key();
    let ghost pair_fn = |p: (Vec<u8>, Vec<u8>)| (p.0@, p.1@);
    let mut i: usize = 0;
    while i < call_params.len()
        invariant
            0 <= i <= call_params@.len(),
            ts_lit@ == ts_key(),
            sig_lit@ == sig_key(),
            pairs_view(r@) == pairs_view(call_params@.take(i as int)).filter(keep_call),
        decreases call_params@.len() - i,
    {
        proof {
            assert(call_params@.take(i + 1) =~= call_params@.take(i as int).push(
                call_params@[i as int],
            ));
            call_params@.take(i as int).lemma_push_map_commute(pair_fn, call_params@[i as int]);
            assert(pairs_view(call_params@.take(i + 1)) =~= pairs_view(
                call_params@.take(i as int),
            ).push(pair_fn(call_params@[i as int])));
            pairs_view(call_params@.take(i as int)).lemma_filter_push(
                pair_fn(call_params@[i as int]),
                keep_call,
            );
        }
        if !has_key(defaults, &call_params[i].0) && !bytes_eq(&call_params[i].0, &ts_lit)
            && !bytes_eq(&call_params[i].0, &sig_lit) {
            let p = clone_pair(&call_params[i]);
            r.push(p);
            proof {
                assert(pairs_view(r@) =~= pairs_view(r@.drop_last()).push(pair_fn(r@.last()))) by {
                    r@.drop_last().lemma_push_map_commute(pair_fn, r@.last());
                    assert(r@.drop_last().push(r@.last()) =~= r@);
                }
                assert(pair_fn(r@.last()) == pair_fn(call_params@[i as int]));
            }
        }
        i = i + 1;
    }
    proof {
        assert(call_params@.take(call_params@.len() as int) =~= call_params@);
    }
    let ghost after_call = pairs_view(r@);
    let mut i: usize = 0;
    while i < defaults.len()
        invariant
            0 <= i <= defaults@.len(),
            ts_lit@ == ts_key(),
            sig_lit@ == sig_key(),
            pairs_view(r@) == after_call + pairs_view(defaults@.take(i as int)).filter(
                keep_default,
            ),
        decreases defaults@.len() - i,
    {
        proof {
            assert(defaults@.take(i + 1) =~= defaults@.take(i as int).push(defaults@[i as int]));
            defaults@.take(i as int).lemma_push_map_commute(pair_fn, defaults@[i as int]);
            assert(pairs_view(defaults@.take(i + 1)) =~= pairs_view(defaults@.take(i as int)).push(
                pair_fn(defaults@[i as int]),
            ));
            pairs_view(defaults@.take(i as int)).lemma_filter_push(
                pair_fn(defaults@[i as int]),
                keep_default,
            );
        }
        if !bytes_eq(&defaults[i].0, &ts_lit) && !bytes_eq(&defaults[i].0, &sig_lit) {
            let p = clone_pair(&defaults[i]);
            r.push(p);
            proof {
                assert(pairs_view(r@) =~= pairs_view(r@.drop_last()).push(pair_fn(r@.last()))) by {
                    r@.drop_last().lemma_push_map_commute(pair_fn, r@.last());
                    assert(r@.drop_last().push(r@.last()) =~= r@);
                }
                assert(pair_fn(r@.last()) == pair_fn(defaults@[i as int]));
                assert(after_call + pairs_view(defaults@.take(i + 1)).filter(keep_default) =~= (
                after_call + pairs_view(defaults@.take(i as int)).filter(keep_default)).push(
                    pair_fn(defaults@[i as int]),
                ));
            }
        }
        i = i + 1;
    }
    proof {
        assert(defaults@.take(defaults@.len() as int) =~= defaults@);
    }
    let mut ts_copy: Vec<u8> = Vec::new();
    push_all(&mut ts_copy, ts_value);
    r.push((ts_lit, ts_copy));
    proof {
        assert(pairs_view(r@) =~= pairs_view(r@.drop_last()).push(pair_fn(r@.last()))) by {
            r@.drop_last().lemma_push_map_commute(pair_fn, r@.last());
            assert(r@.drop_last().push(r@.last()) =~= r@);
        }
        assert(ts_copy@ =~= ts_value@);
        assert(pairs_view(r@) =~= kept_call_params(dview, pairs_view(call_params@))
            + kept_defaults(dview) + seq![(ts_key(), ts_value@)]);
    }
    let ghost pre = pairs_view(r@);
    let method = post_method_bytes();
    let sig = calculate_sig(&method, path, &r);
    let sig_str = sig.as_str();
    let sig_value = sig_str.as_bytes_vec();
    proof {
        broadcast use vstd::string::is_ascii_spec_bytes;

        assert(vstd::string::is_ascii(sig_str));
        assert(sig_value@ =~= ascii_bytes(spec_sig(post_method(), path@, pre)));
    }
    let sig_lit2 = sig_key_bytes();
    r.push((sig_lit2, sig_value));
    proof {
        assert(pairs_view(r@) =~= pairs_view(r@.drop_last()).push(pair_fn(r@.last()))) by {
            r@.drop_last().lemma_push_map_commute(pair_fn, r@.last());
            assert(r@.drop_last().push(r@.last()) =~= r@);
        }
        assert(pairs_view(r@) =~= signed_params(
            dview,
            pairs_view(call_params@),
            path@,
            ts_value@,
        ));
    }
    r
}

} // verus!

//! The request signer: derives the per-request authentication token from the
//! HTTP method, path and parameter set.
//!
//! For every parameter except the signature parameter itself the signer forms
//! the byte string `value=key`, sorts those entries byte-wise ascending, joins
//! them with `;`, and frames the base string
//! `METHOD&path&entries;` (method upper-cased) between two fixed secret byte
//! sequences. The token is the 128-bit digest of those bytes rendered as 32
//! lowercase hexadecimal characters. The backend recomputes the same token, so
//! every step must be bit-exact.
use vstd::prelude::*;

verus! {

use vstd::relations::sorted_by;
use vstd::seq_lib::lemma_multiset_commutative;
use vstd::seq_lib::lemma_sorted_unique;
use crate::bytes::bytes_eq;
use crate::bytes::bytes_le;
use crate::bytes::bytes_le_exec;
use crate::bytes::bytes_leq;
use crate::bytes::lemma_bytes_le_connected;
use crate::bytes::lemma_bytes_le_total_ordering;
use crate::bytes::lemma_bytes_le_transitive;
use crate::bytes::lemma_insert_multiset;
use crate::bytes::push_all;

/// Secret bytes prepended to the signed base string.
pub open spec fn sig_prefix() -> Seq<u8> {
    seq![36u8, 250u8, 199u8, 34u8, 9u8, 236u8, 102u8, 39u8]
}

/// Secret bytes appended to the signed base string.
pub open spec fn sig_suffix() -> Seq<u8> {
    seq![51u8, 148u8, 160u8, 224u8, 43u8, 59u8, 156u8, 105u8]
}

/// The reserved key of the signature parameter, the bytes of `sig`.
pub open spec fn sig_key() -> Seq<u8> {
    seq![115u8, 105u8, 103u8]
}

/// ASCII upper-casing of one byte, as applied to the method name.
pub open spec fn upper_byte(b: u8) -> u8 {
    if 97 <= b && b <= 122 {
        (b - 32) as u8
    } else {
        b
    }
}

/// ASCII upper-casing of a byte string.
pub open spec fn upper_bytes(s: Seq<u8>) -> Seq<u8> {
    s.map_values(|b: u8| upper_byte(b))
}

/// The sort entry of one parameter pair `(key, value)`: the bytes `value=key`.
pub open spec fn entry_bytes(p: (Seq<u8>, Seq<u8>)) -> Seq<u8> {
    p.1 + seq![61u8] + p.0
}

/// The unsorted sort entries of a parameter list: one `value=key` entry per
/// pair whose key is not the reserved signature key.
pub open spec fn sig_entries(params: Seq<(Seq<u8>, Seq<u8>)>) -> Seq<Seq<u8>> {
    params.filter(|p: (Seq<u8>, Seq<u8>)| p.0 != sig_key()).map_values(
        |p: (Seq<u8>, Seq<u8>)| entry_bytes(p),
    )
}

/// Joins byte strings with a `;` separator.
pub open spec fn join_semicolon(items: Seq<Seq<u8>>) -> Seq<u8>
    decreases items.len(),
{
    if items.len() == 0 {
        Seq::empty()
    } else if items.len() == 1 {
        items[0]
    } else {
        items[0] + seq![59u8] + join_semicolon(items.drop_first())
    }
}

/// The signed base string: `METHOD&path&sorted-entries;`.
pub open spec fn sig_base(method: Seq<u8>, path: Seq<u8>, params: Seq<(Seq<u8>, Seq<u8>)>) -> Seq<
    u8,
> {
    upper_bytes(method) + seq![38u8] + path + seq![38u8] + join_semicolon(
        sig_entries(params).sort_by(bytes_leq()),
    ) + seq![59u8]
}

/// The exact bytes handed to the digest: the base string framed by the two
/// secrets.
pub open spec fn sig_input(method: Seq<u8>, path: Seq<u8>, params: Seq<(Seq<u8>, Seq<u8>)>) -> Seq<
    u8,
> {
    sig_prefix() + sig_base(method, path, params) + sig_suffix()
}

/// The signature token of a request.
pub open spec fn spec_sig(method: Seq<u8>, path: Seq<u8>, params: Seq<(Seq<u8>, Seq<u8>)>) -> Seq<
    char,
> {
    md5_hex_of(sig_input(method, path, params))
}

/// The view of a parameter list of byte vectors.
pub open spec fn pairs_view(s: Seq<(Vec<u8>, Vec<u8>)>) -> Seq<(Seq<u8>, Seq<u8>)> {
    s.map_values(|p: (Vec<u8>, Vec<u8>)| (p.0@, p.1@))
}

/// The view of a list of byte vectors.
pub open spec fn seqs_view(s: Seq<Vec<u8>>) -> Seq<Seq<u8>> {
    s.map_values(|v: Vec<u8>| v@)
}

/// The lowercase hexadecimal rendering of the 128-bit digest of `data`; a
/// function of the input bytes alone, computed by an outside crate.
pub uninterp spec fn md5_hex_of(data: Seq<u8>) -> Seq<char>;

/// Relies on `md5::compute` and the `LowerHex` rendering of `md5::Digest`:
/// the digest is a function of the input bytes alone, and the rendering
/// writes each of its 16 bytes as two lowercase hexadecimal digits, so the
/// result is 32 ASCII characters.
#[verifier::external_body]
fn md5_hex(data: &Vec<u8>) -> (r: String)
    ensures
        r@ == md5_hex_of(data@),
        r@.len() == 32,
        vstd::utf8::is_ascii_chars(r@),
{
    format!("{:x}", md5::compute(data.as_slice()))
}

fn secret_prefix() -> (v: Vec<u8>)
    ensures
        v@ == sig_prefix(),
{
    let mut v: Vec<u8> = Vec::new();
    v.push(36);
    v.push(250);
    v.push(199);
    v.push(34);
    v.push(9);
    v.push(236);
    v.push(102);
    v.push(39);
    proof {
        assert(v@ =~= sig_prefix());
    }
    v
}

fn secret_suffix() -> (v: Vec<u8>)
    ensures
        v@ == sig_suffix(),
{
    let mut v: Vec<u8> = Vec::new();
    v.push(51);
    v.push(148);
    v.push(160);
    v.push(224);
    v.push(43);
    v.push(59);
    v.push(156);
    v.push(105);
    proof {
        assert(v@ =~= sig_suffix());
    }
    v
}

/// The reserved signature key as a byte vector.
pub fn sig_key_bytes() -> (v: Vec<u8>)
    ensures
        v@ == sig_key(),
{
    let mut v: Vec<u8> = Vec::new();
    v.push(115);
    v.push(105);
    v.push(103);
    proof {
        assert(v@ =~= sig_key());
    }
    v
}

fn to_upper(src: &Vec<u8>) -> (r: Vec<u8>)
    ensures
        r@ == upper_bytes(src@),
{
    let mut r: Vec<u8> = Vec::new();
    let mut i: usize = 0;
    while i < src.len()
        invariant
            0 <= i <= src@.len(),
            r@.len() == i,
            forall|j: int| 0 <= j < i ==> r@[j] == upper_byte(src@[j]),
        decreases src@.len() - i,
    {
        let b = src[i];
        if 97 <= b && b <= 122 {
            r.push(b - 32);
        } else {
            r.push(b);
        }
        i = i + 1;
    }
    proof {
        assert(r@ =~= upper_bytes(src@));
    }
    r
}

fn build_entries(params: &Vec<(Vec<u8>, Vec<u8>)>) -> (r: Vec<Vec<u8>>)
    ensures
        seqs_view(r@) == sig_entries(pairs_view(params@)),
{
    broadcast use vstd::seq_lib::group_seq_properties;

    let sig_lit = sig_key_bytes();
    let mut r: Vec<Vec<u8>> = Vec::new();
    let mut i: usize = 0;
    while i < params.len()
        invariant
            0 <= i <= params@.len(),
            sig_lit@ == sig_key(),
            seqs_view(r@) == sig_entries(pairs_view(params@.take(i as int))),
        decreases params@.len() - i,
    {
        let ghost pred = |p: (Seq<u8>, Seq<u8>)| p.0 != sig_key();
        let ghost entry_fn = |p: (Seq<u8>, Seq<u8>)| entry_bytes(p);
        let ghost view_fn = |v: Vec<u8>| v@;
        let ghost pair_fn = |p: (Vec<u8>, Vec<u8>)| (p.0@, p.1@);
        proof {
            assert(params@.take(i + 1) =~= params@.take(i as int).push(params@[i as int]));
            params@.take(i as int).lemma_push_map_commute(pair_fn, params@[i as int]);
            assert(pairs_view(params@.take(i + 1)) =~= pairs_view(params@.take(i as int)).push(
                pair_fn(params@[i as int]),
            ));
            pairs_view(params@.take(i as int)).filter(pred).lemma_push_map_commute(
                entry_fn,
                pair_fn(params@[i as int]),
            );
            pairs_view(params@.take(i as int)).lemma_filter_push(pair_fn(params@[i as int]), pred);
        }
        if !bytes_eq(&params[i].0, &sig_lit) {
            let mut e: Vec<u8> = Vec::new();
            push_all(&mut e, &params[i].1);
            e.push(61);
            push_all(&mut e, &params[i].0);
            proof {
                assert(e@ =~= entry_bytes(pair_fn(params@[i as int])));
            }
            r.push(e);
            proof {
                assert(seqs_view(r@) =~= seqs_view(r@.drop_last()).push(r@.last()@)) by {
                    r@.drop_last().lemma_push_map_commute(view_fn, r@.last());
                    assert(r@.drop_last().push(r@.last()) =~= r@);
                }
            }
        }
        i = i + 1;
    }
    proof {
        assert(params@.take(params@.len() as int) =~= params@);
    }
    r
}

fn insert_sorted(sorted: &mut Vec<Vec<u8>>, x: Vec<u8>)
    requires
        sorted_by(seqs_view(old(sorted)@), bytes_leq()),
    ensures
        sorted_by(seqs_view(final(sorted)@), bytes_leq()),
        seqs_view(final(sorted)@).to_multiset() == seqs_view(old(sorted)@).to_multiset().insert(
            x@,
        ),
{
    let mut pos: usize = 0;
    while pos < sorted.len() && !bytes_le_exec(&x, &sorted[pos])
        invariant
            0 <= pos <= sorted@.len(),
            sorted@ == old(sorted)@,
            forall|j: int| 0 <= j < pos ==> bytes_le(#[trigger] seqs_view(sorted@)[j], x@),
        decreases sorted@.len() - pos,
    {
        proof {
            lemma_bytes_le_connected(seqs_view(sorted@)[pos as int], x@);
        }
        pos = pos + 1;
    }
    let ghost pre = seqs_view(sorted@);
    let ghost p = pos as int;
    sorted.insert(pos, x);
    proof {
        let leq = bytes_leq();
        let post = seqs_view(sorted@);
        assert(post =~= pre.insert(p, x@)) by {
            assert forall|j: int| 0 <= j < post.len() implies post[j] == pre.insert(p, x@)[j] by {
                assert(post[j] == sorted@[j]@);
            }
        }
        assert forall|a: int, b: int| 0 <= a < b < post.len() implies leq(post[a], post[b]) by {
            if b < p {
                assert(leq(pre[a], pre[b]));
            } else if a < p && b == p {
                if p <= pre.len() && p > 0 {
                    assert(bytes_le(pre[p - 1], x@));
                }
                if a < p - 1 {
                    assert(leq(pre[a], pre[p - 1]));
                    lemma_bytes_le_transitive(pre[a], pre[p - 1], x@);
                } else {
                    assert(bytes_le(pre[a], x@));
                }
            } else if a < p && b > p {
                assert(leq(pre[a], pre[b - 1]));
            } else if a == p {
                // x was inserted before the first element it is `<=` to
                assert(bytes_le(x@, pre[p]));
                if b > p + 1 {
                    assert(leq(pre[p], pre[b - 1]));
                    lemma_bytes_le_transitive(x@, pre[p], pre[b - 1]);
                }
            } else {
                assert(leq(pre[a - 1], pre[b - 1]));
            }
        }
        lemma_insert_multiset(pre, p, x@);
    }
}

fn sort_entries(entries: Vec<Vec<u8>>) -> (r: Vec<Vec<u8>>)
    ensures
        seqs_view(r@) == sig_entries_sorted_of(seqs_view(entries@)),
{
    broadcast use vstd::seq_lib::group_to_multiset_ensures;

    let ghost orig = seqs_view(entries@);
    let mut rest = entries;
    let mut sorted: Vec<Vec<u8>> = Vec::new();
    while rest.len() > 0
        invariant
            sorted_by(seqs_view(sorted@), bytes_leq()),
            seqs_view(sorted@).to_multiset().add(seqs_view(rest@).to_multiset())
                == orig.to_multiset(),
        decreases rest@.len(),
    {
        let ghost pre_rest = seqs_view(rest@);
        let x = rest.pop().unwrap();
        proof {
            assert(seqs_view(rest@) =~= pre_rest.drop_last());
            assert(pre_rest.remove(pre_rest.len() - 1) =~= pre_rest.drop_last());
            assert(pre_rest.drop_last().to_multiset() =~= pre_rest.to_multiset().remove(
                pre_rest.last(),
            ));
            assert(pre_rest.last() == x@);
        }
        let ghost pre_sorted = seqs_view(sorted@);
        insert_sorted(&mut sorted, x);
        proof {
            broadcast use vstd::multiset::group_multiset_axioms;

            assert(seqs_view(sorted@).to_multiset().add(seqs_view(rest@).to_multiset())
                =~= orig.to_multiset());
        }
    }
    proof {
        broadcast use vstd::multiset::group_multiset_axioms;

        assert(seqs_view(rest@).to_multiset().len() == 0);
        assert(seqs_view(sorted@).to_multiset() =~= orig.to_multiset());
        lemma_bytes_le_total_ordering();
        orig.lemma_sort_by_ensures(bytes_leq());
        lemma_sorted_unique(seqs_view(sorted@), orig.sort_by(bytes_leq()), bytes_leq());
    }
    sorted
}

/// The entries sorted byte-wise ascending, as the signer joins them.
pub open spec fn sig_entries_sorted_of(entries: Seq<Seq<u8>>) -> Seq<Seq<u8>> {
    entries.sort_by(bytes_leq())
}

/// `join_semicolon` grows at the tail when an entry is appended.
proof fn lemma_join_semicolon_push(items: Seq<Seq<u8>>, x: Seq<u8>)
    ensures
        join_semicolon(items.push(x)) == if items.len() == 0 {
            x
        } else {
            join_semicolon(items) + seq![59u8] + x
        },
    decreases items.len(),
{
    if items.len() == 0 {
        assert(items.push(x)[0] == x);
        assert(join_semicolon(items.push(x)) == x);
    } else {
        assert(items.push(x).drop_first() =~= items.drop_first().push(x));
        lemma_join_semicolon_push(items.drop_first(), x);
        if items.len() == 1 {
            assert(join_semicolon(items) == items[0]);
        } else {
            assert(join_semicolon(items) == items[0] + seq![59u8] + join_semicolon(
                items.drop_first(),
            ));
        }
    }
}

fn join_semicolon_exec(entries: &Vec<Vec<u8>>) -> (r: Vec<u8>)
    ensures
        r@ == join_semicolon(seqs_view(entries@)),
{
    let mut r: Vec<u8> = Vec::new();
    let mut i: usize = 0;
    while i < entries.len()
        invariant
            0 <= i <= entries@.len(),
            r@ == join_semicolon(seqs_view(entries@).take(i as int)),
        decreases entries@.len() - i,
    {
        if i > 0 {
            r.push(59);
        }
        push_all(&mut r, &entries[i]);
        proof {
            let view_fn = |v: Vec<u8>| v@;
            assert(seqs_view(entries@).take(i + 1) =~= seqs_view(entries@).take(i as int).push(
                entries@[i as int]@,
            ));
            lemma_join_semicolon_push(seqs_view(entries@).take(i as int), entries@[i as int]@);
            if i == 0 {
                assert(r@ =~= entries@[0]@);
            }
        }
        i = i + 1;
    }
    proof {
        assert(seqs_view(entries@).take(seqs_view(entries@).len() as int) =~= seqs_view(entries@));
    }
    r
}

/// Computes the signature token for a request: `value=key` entries of every
/// parameter but the signature parameter, sorted byte-wise and joined with
/// `;`, framed as `METHOD&path&entries;` between the two secrets, digested,
/// and rendered as 32 lowercase hexadecimal characters.
pub fn calculate_sig(method: &Vec<u8>, path: &Vec<u8>, params: &Vec<(Vec<u8>, Vec<u8>)>) -> (sig:
    String)
    ensures
        sig@ == spec_sig(method@, path@, pairs_view(params@)),
        sig@.len() == 32,
        vstd::utf8::is_ascii_chars(sig@),
{
    let entries = build_entries(params);
    let sorted = sort_entries(entries);
    let joined = join_semicolon_exec(&sorted);
    let mut data = secret_prefix();
    let upper = to_upper(method);
    push_all(&mut data, &upper);
    data.push(38);
    push_all(&mut data, path);
    data.push(38);
    push_all(&mut data, &joined);
    data.push(59);
    let suffix = secret_suffix();
    push_all(&mut data, &suffix);
    proof {
        assert(data@ =~= sig_input(method@, path@, pairs_view(params@)));
    }
    md5_hex(&data)
}

/// Splitting a parameter list splits its sort entries.
proof fn lemma_sig_entries_distributes(a: Seq<(Seq<u8>, Seq<u8>)>, b: Seq<(Seq<u8>, Seq<u8>)>)
    ensures
        sig_entries(a + b) == sig_entries(a) + sig_entries(b),
{
    let pred = |p: (Seq<u8>, Seq<u8>)| p.0 != sig_key();
    let entry_fn = |p: (Seq<u8>, Seq<u8>)| entry_bytes(p);
    Seq::filter_distributes_over_add(a, b, pred);
    assert((a.filter(pred) + b.filter(pred)).map_values(entry_fn) =~= a.filter(pred).map_values(
        entry_fn,
    ) + b.filter(pred).map_values(entry_fn));
}

/// Two parameter lists with the same pairs have the same sort entries, up to
/// order.
proof fn lemma_sig_entries_multiset(p1: Seq<(Seq<u8>, Seq<u8>)>, p2: Seq<(Seq<u8>, Seq<u8>)>)
    requires
        p1.to_multiset() == p2.to_multiset(),
    ensures
        sig_entries(p1).to_multiset() == sig_entries(p2).to_multiset(),
    decreases p1.len(),
{
    broadcast use vstd::seq_lib::group_to_multiset_ensures;
    broadcast use vstd::multiset::group_multiset_axioms;

    if p1.len() == 0 {
        assert(p2.len() == p2.to_multiset().len());
        assert(p2 =~= p1);
    } else {
        let x = p1.last();
        let p1d = p1.drop_last();
        assert(p1.contains(x));
        assert(p2.to_multiset().count(x) > 0);
        assert(p2.contains(x));
        let i = choose|i: int| 0 <= i < p2.len() && p2[i] == x;
        let p2d = p2.remove(i);
        assert(p1.remove(p1.len() - 1) =~= p1d);
        assert(p1d.to_multiset() =~= p1.to_multiset().remove(x));
        assert(p2d.to_multiset() =~= p2.to_multiset().remove(x));
        lemma_sig_entries_multiset(p1d, p2d);
        let single = seq![x];
        assert(p1 =~= p1d + single);
        lemma_sig_entries_distributes(p1d, single);
        lemma_multiset_commutative(sig_entries(p1d), sig_entries(single));
        let front = p2.subrange(0, i);
        let back = p2.subrange(i + 1, p2.len() as int);
        assert(p2 =~= front + single + back);
        assert(p2d =~= front + back);
        lemma_sig_entries_distributes(front + single, back);
        lemma_sig_entries_distributes(front, single);
        lemma_sig_entries_distributes(front, back);
        lemma_multiset_commutative(sig_entries(front + single), sig_entries(back));
        lemma_multiset_commutative(sig_entries(front), sig_entries(single));
        lemma_multiset_commutative(sig_entries(front), sig_entries(back));
        assert(sig_entries(p1).to_multiset() =~= sig_entries(p2).to_multiset());
    }
}

/// Signature determinism: two parameter lists that hold the same pairs, in
/// any insertion order, produce the same signature token.
pub proof fn lemma_sig_order_invariant(
    method: Seq<u8>,
    path: Seq<u8>,
    p1: Seq<(Seq<u8>, Seq<u8>)>,
    p2: Seq<(Seq<u8>, Seq<u8>)>,
)
    requires
        p1.to_multiset() == p2.to_multiset(),
    ensures
        spec_sig(method, path, p1) == spec_sig(method, path, p2),
{
    lemma_sig_entries_multiset(p1, p2);
    lemma_bytes_le_total_ordering();
    sig_entries(p1).lemma_sort_by_ensures(bytes_leq());
    sig_entries(p2).lemma_sort_by_ensures(bytes_leq());
    lemma_sorted_unique(
        sig_entries(p1).sort_by(bytes_leq()),
        sig_entries(p2).sort_by(bytes_leq()),
        bytes_leq(),
    );
}

/// Signature exclusion: a pair carrying the reserved `sig` key contributes
/// nothing, so adding one to the parameter list leaves the token unchanged.
pub proof fn lemma_sig_ignores_sig_param(
    method: Seq<u8>,
    path: Seq<u8>,
    params: Seq<(Seq<u8>, Seq<u8>)>,
    value: Seq<u8>,
)
    ensures
        spec_sig(method, path, params.push((sig_key(), value))) == spec_sig(method, path, params),
{
    let pred = |p: (Seq<u8>, Seq<u8>)| p.0 != sig_key();
    params.lemma_filter_push((sig_key(), value), pred);
    assert(sig_entries(params.push((sig_key(), value))) == sig_entries(params));
}

} // verus!

//! Wire encodings of the batch endpoints. List-valued parameters are not
//! encoded uniformly: the harvest endpoint takes field ids as a comma-joined
//! decimal list, the plant endpoint takes plots as a JSON array. Each
//! encoding is a per-endpoint contract and is preserved byte for byte.
use vstd::prelude::*;

verus! {

use crate::bytes::push_all;
use crate::crops::Farmland;

/// The decimal digits of a non-negative number, most significant first.
pub open spec fn dec_digits(n: nat) -> Seq<u8>
    decreases n,
{
    if n < 10 {
        seq![(48 + n) as u8]
    } else {
        dec_digits(n / 10) + seq![(48 + n % 10) as u8]
    }
}

/// The decimal rendering of a signed integer, minus sign included.
pub open spec fn dec_bytes(n: int) -> Seq<u8> {
    if n < 0 {
        seq![45u8] + dec_digits((-n) as nat)
    } else {
        dec_digits(n as nat)
    }
}

fn u64_dec_digits(m0: u64) -> (r: Vec<u8>)
    ensures
        r@ == dec_digits(m0 as nat),
{
    let mut acc: Vec<u8> = Vec::new();
    let mut m: u64 = m0;
    loop
        invariant
            m > 0 ==> dec_digits(m0 as nat) =~= dec_digits(m as nat) + acc@.reverse(),
            (m == 0 && acc@.len() == 0) ==> m0 == 0,
            (m == 0 && acc@.len() > 0) ==> dec_digits(m0 as nat) =~= acc@.reverse(),
        decreases
                m,
                (if acc@.len() == 0 {
                    1int
                } else {
                    0int
                }),
    {
        if m == 0 && acc.len() > 0 {
            break ;
        }
        let ghost pre = acc@;
        let digit: u8 = 48 + (m % 10) as u8;
        acc.push(digit);
        proof {
            assert(acc@.reverse() =~= seq![digit] + pre.reverse());
            if m >= 10 {
                assert(dec_digits(m as nat) == dec_digits((m as nat) / 10) + seq![
                    (48 + (m as nat) % 10) as u8,
                ]);
                assert((m / 10) as nat == (m as nat) / 10);
            } else {
                assert(dec_digits(m as nat) == seq![(48 + (m as nat)) as u8]);
            }
        }
        m = m / 10;
    }
    let mut r: Vec<u8> = Vec::new();
    let mut j: usize = acc.len();
    while j > 0
        invariant
            0 <= j <= acc@.len(),
            r@.len() == acc@.len() - j,
            forall|k: int| 0 <= k < r@.len() ==> r@[k] == acc@[acc@.len() - 1 - k],
        decreases j,
    {
        j = j - 1;
        r.push(acc[j]);
    }
    proof {
        assert(r@ =~= acc@.reverse());
    }
    r
}

/// Renders one integer in decimal, exactly as the endpoints expect numeric
/// parameters.
pub fn i64_dec_bytes(n: i64) -> (r: Vec<u8>)
    ensures
        r@ == dec_bytes(n as int),
{
    if n >= 0 {
        let r = u64_dec_digits(n as u64);
        r
    } else {
        let magnitude: u64 = ((-(n + 1)) as u64) + 1;
        proof {
            assert(magnitude as nat == (-(n as int)) as nat);
        }
        let digits = u64_dec_digits(magnitude);
        let mut r: Vec<u8> = Vec::new();
        r.push(45);
        push_all(&mut r, &digits);
        proof {
            assert(r@ =~= dec_bytes(n as int));
        }
        r
    }
}

/// A list of ids in decimal, joined with commas — the harvest batch encoding.
pub open spec fn ids_comma_bytes(ids: Seq<i64>) -> Seq<u8>
    decreases ids.len(),
{
    if ids.len() == 0 {
        Seq::empty()
    } else if ids.len() == 1 {
        dec_bytes(ids[0] as int)
    } else {
        dec_bytes(ids[0] as int) + seq![44u8] + ids_comma_bytes(ids.drop_first())
    }
}

proof fn lemma_ids_comma_push(ids: Seq<i64>, x: i64)
    ensures
        ids_comma_bytes(ids.push(x)) == if ids.len() == 0 {
            dec_bytes(x as int)
        } else {
            ids_comma_bytes(ids) + seq![44u8] + dec_bytes(x as int)
        },
    decreases ids.len(),
{
    if ids.len() == 0 {
        assert(ids.push(x)[0] == x);
    } else {
        assert(ids.push(x).drop_first() =~= ids.drop_first().push(x));
        lemma_ids_comma_push(ids.drop_first(), x);
    }
}

/// Encodes the harvest batch: the field ids in decimal, comma-joined.
pub fn encode_ids_comma(ids: &Vec<i64>) -> (r: Vec<u8>)
    ensures
        r@ == ids_comma_bytes(ids@),
{
    let mut r: Vec<u8> = Vec::new();
    let mut i: usize = 0;
    while i < ids.len()
        invariant
            0 <= i <= ids@.len(),
            r@ == ids_comma_bytes(ids@.take(i as int)),
        decreases ids@.len() - i,
    {
        if i > 0 {
            r.push(44);
        }
        let digits = i64_dec_bytes(ids[i]);
        push_all(&mut r, &digits);
        proof {
            assert(ids@.take(i + 1) =~= ids@.take(i as int).push(ids@[i as int]));
            lemma_ids_comma_push(ids@.take(i as int), ids@[i as int]);
            if i == 0 {
                assert(r@ =~= dec_bytes(ids@[0] as int));
            }
        }
        i = i + 1;
    }
    proof {
        assert(ids@.take(ids@.len() as int) =~= ids@);
    }
    r
}

/// The JSON object of one plot, fields in declaration order and no spaces:
/// `{"id":I,"last_interval":L,"x":X,"y":Y}`.
pub open spec fn farmland_json_bytes(f: Farmland) -> Seq<u8> {
    json_id_key() + dec_bytes(f.id as int) + json_last_interval_key() + dec_bytes(
        f.last_interval as int,
    ) + json_x_key() + dec_bytes(f.x as int) + json_y_key() + dec_bytes(f.y as int) + seq![125u8]
}

/// The bytes of `{"id":`.
pub open spec fn json_id_key() -> Seq<u8> {
    seq![123u8, 34u8, 105u8, 100u8, 34u8, 58u8]
}

/// The bytes of `,"last_interval":`.
pub open spec fn json_last_interval_key() -> Seq<u8> {
    seq![
        44u8,
        34u8,
        108u8,
        97u8,
        115u8,
        116u8,
        95u8,
        105u8,
        110u8,
        116u8,
        101u8,
        114u8,
        118u8,
        97u8,
        108u8,
        34u8,
        58u8,
    ]
}

/// The bytes of `,"x":`.
pub open spec fn json_x_key() -> Seq<u8> {
    seq![44u8, 34u8, 120u8, 34u8, 58u8]
}

/// The bytes of `,"y":`.
pub open spec fn json_y_key() -> Seq<u8> {
    seq![44u8, 34u8, 121u8, 34u8, 58u8]
}

/// The plant batch encoding: a JSON array of plot objects, no spaces.
pub open spec fn farmlands_json_bytes(fs: Seq<Farmland>) -> Seq<u8> {
    seq![91u8] + farmlands_json_items(fs) + seq![93u8]
}

/// The comma-joined plot objects inside the array.
pub open spec fn farmlands_json_items(fs: Seq<Farmland>) -> Seq<u8>
    decreases fs.len(),
{
    if fs.len() == 0 {
        Seq::empty()
    } else if fs.len() == 1 {
        farmland_json_bytes(fs[0])
    } else {
        farmland_json_bytes(fs[0]) + seq![44u8] + farmlands_json_items(fs.drop_first())
    }
}

proof fn lemma_farmlands_json_push(fs: Seq<Farmland>, x: Farmland)
    ensures
        farmlands_json_items(fs.push(x)) == if fs.len() == 0 {
            farmland_json_bytes(x)
        } else {
            farmlands_json_items(fs) + seq![44u8] + farmland_json_bytes(x)
        },
    decreases fs.len(),
{
    if fs.len() == 0 {
        assert(fs.push(x)[0] == x);
    } else {
        assert(fs.push(x).drop_first() =~= fs.drop_first().push(x));
        lemma_farmlands_json_push(fs.drop_first(), x);
    }
}

fn push_json_id_key(r: &mut Vec<u8>)
    ensures
        final(r)@ == old(r)@ + json_id_key(),
{
    r.push(123);
    r.push(34);
    r.push(105);
    r.push(100);
    r.push(34);
    r.push(58);
    proof {
        assert(r@ =~= old(r)@ + json_id_key());
    }
}

fn push_json_last_interval_key(r: &mut Vec<u8>)
    ensures
        final(r)@ == old(r)@ + json_last_interval_key(),
{
    r.push(44);
    r.push(34);
    r.push(108);
    r.push(97);
    r.push(115);
    r.push(116);
    r.push(95);
    r.push(105);
    r.push(110);
    r.push(116);
    r.push(101);
    r.push(114);
    r.push(118);
    r.push(97);
    r.push(108);
    r.push(34);
    r.push(58);
    proof {
        assert(r@ =~= old(r)@ + json_last_interval_key());
    }
}

fn push_json_coord_key(r: &mut Vec<u8>, y_axis: bool)
    ensures
        !y_axis ==> final(r)@ == old(r)@ + json_x_key(),
        y_axis ==> final(r)@ == old(r)@ + json_y_key(),
{
    r.push(44);
    r.push(34);
    if y_axis {
        r.push(121);
    } else {
        r.push(120);
    }
    r.push(34);
    r.push(58);
    proof {
        if y_axis {
            assert(r@ =~= old(r)@ + json_y_key());
        } else {
            assert(r@ =~= old(r)@ + json_x_key());
        }
    }
}

fn push_farmland_json(r: &mut Vec<u8>, f: &Farmland)
    ensures
        final(r)@ == old(r)@ + farmland_json_bytes(*f),
{
    push_json_id_key(r);
    let id_digits = i64_dec_bytes(f.id);
    push_all(r, &id_digits);
    push_json_last_interval_key(r);
    let li_digits = i64_dec_bytes(f.last_interval);
    push_all(r, &li_digits);
    push_json_coord_key(r, false);
    let x_digits = i64_dec_bytes(f.x);
    push_all(r, &x_digits);
    push_json_coord_key(r, true);
    let y_digits = i64_dec_bytes(f.y);
    push_all(r, &y_digits);
    r.push(125);
    proof {
        assert(r@ =~= old(r)@ + farmland_json_bytes(*f));
    }
}

/// Encodes the plant batch: the JSON array of plot objects, exactly as the
/// plant endpoint expects its `farmlands` parameter.
pub fn encode_farmlands_json(fs: &Vec<Farmland>) -> (r: Vec<u8>)
    ensures
        r@ == farmlands_json_bytes(fs@),
{
    let mut r: Vec<u8> = Vec::new();
    r.push(91);
    let mut i: usize = 0;
    while i < fs.len()
        invariant
            0 <= i <= fs@.len(),
            r@ == seq![91u8] + farmlands_json_items(fs@.take(i as int)),
        decreases fs@.len() - i,
    {
        if i > 0 {
            r.push(44);
        }
        push_farmland_json(&mut r, &fs[i]);
        proof {
            assert(fs@.take(i + 1) =~= fs@.take(i as int).push(fs@[i as int]));
            lemma_farmlands_json_push(fs@.take(i as int), fs@[i as int]);
            if i == 0 {
                assert(r@ =~= seq![91u8] + farmland_json_bytes(fs@[0]));
            } else {
                assert(r@ =~= seq![91u8] + (farmlands_json_items(fs@.take(i as int)) + seq![44u8]
                    + farmland_json_bytes(fs@[i as int])));
            }
        }
        i = i + 1;
    }
    r.push(93);
    proof {
        assert(fs@.take(fs@.len() as int) =~= fs@);
        assert(r@ =~= farmlands_json_bytes(fs@));
    }
    r
}

} // verus!

//! The encoder: the mirror of the decoder. Given a value it emits exactly
//! the bytes the decoder accepts for that value.

use crate::de::TAG_ARRAY;
use crate::de::TAG_BULK;
use crate::de::TAG_ERROR;
use crate::de::TAG_INTEGER;
use crate::de::TAG_SIMPLE;
use crate::num::digits_of;
use crate::num::int_bytes;
use crate::num::MINUS;
use crate::value::deep_elems;
use crate::value::lemma_deep_elems_index;
use crate::value::RESPType;
use crate::value::ValueModel;
use crate::value::CR;
use crate::value::LF;
use vstd::prelude::*;

verus! {

broadcast use vstd::std_specs::vec::group_vec_axioms;

/// The two-byte frame terminator.
pub open spec fn crlf() -> Seq<u8> {
    seq![CR, LF]
}

/// The exact bytes of one encoded value.
///
/// The unified null marker is written as the null bulk string `$-1\r\n`,
/// the scalar of the two null frames; a caller who needs the null array
/// writes its header explicitly.
pub open spec fn enc(m: ValueModel) -> Seq<u8>
    decreases m,
{
    match m {
        ValueModel::SimpleString(t) => seq![TAG_SIMPLE] + t + crlf(),
        ValueModel::Error(t) => seq![TAG_ERROR] + t + crlf(),
        ValueModel::Integer(v) => seq![TAG_INTEGER] + int_bytes(v) + crlf(),
        ValueModel::BulkString(b) => seq![TAG_BULK] + int_bytes(b.len() as int) + crlf() + b
            + crlf(),
        ValueModel::Array(es) => seq![TAG_ARRAY] + int_bytes(es.len() as int) + crlf()
            + enc_elems(es),
        ValueModel::Null => seq![TAG_BULK] + int_bytes(-1) + crlf(),
    }
}

/// The concatenated encodings of the elements, in order.
pub open spec fn enc_elems(es: Seq<ValueModel>) -> Seq<u8>
    decreases es,
{
    if es.len() == 0 {
        Seq::empty()
    } else {
        enc(es.first()) + enc_elems(es.drop_first())
    }
}

/// Appending one element appends its encoding.
pub proof fn lemma_enc_elems_snoc(es: Seq<ValueModel>, m: ValueModel)
    ensures
        enc_elems(es.push(m)) == enc_elems(es) + enc(m),
    decreases es,
{
    if es.len() == 0 {
        assert(enc_elems(es) == Seq::<u8>::empty());
        assert(es.push(m).drop_first() =~= Seq::<ValueModel>::empty());
        assert(es.push(m).first() == m);
        assert(enc_elems(Seq::<ValueModel>::empty()) == Seq::<u8>::empty());
        assert(enc_elems(es.push(m)) == enc(m) + Seq::<u8>::empty());
        assert(enc(m) + Seq::<u8>::empty() =~= Seq::<u8>::empty() + enc(m));
    } else {
        assert(es.push(m).drop_first() =~= es.drop_first().push(m));
        assert(es.push(m).first() == es.first());
        lemma_enc_elems_snoc(es.drop_first(), m);
        assert(enc(es.first()) + (enc_elems(es.drop_first()) + enc(m)) =~= (enc(es.first())
            + enc_elems(es.drop_first())) + enc(m));
    }
}

/// Relies on itoa::Buffer::format for i64: the decimal representation of
/// the value, a leading minus sign for negatives, no other byte.
#[verifier::external_body]
fn fmt_i64(v: i64) -> (r: Vec<u8>)
    ensures
        r@ == int_bytes(v as int),
{
    let mut buf = itoa::Buffer::new();
    buf.format(v).as_bytes().to_vec()
}

/// Relies on itoa::Buffer::format for u64: the decimal digits of the
/// value, nothing else.
#[verifier::external_body]
fn fmt_u64(v: u64) -> (r: Vec<u8>)
    ensures
        r@ == digits_of(v as nat),
{
    let mut buf = itoa::Buffer::new();
    buf.format(v).as_bytes().to_vec()
}

/// Append a copy of `b` to `out`.
fn append_bytes(out: &mut Vec<u8>, b: &Vec<u8>)
    ensures
        final(out)@ == old(out)@ + b@,
{
    let n = b.len();
    let mut k: usize = 0;
    while k < n
        invariant
            k <= n,
            n == b@.len(),
            out@ == old(out)@ + b@.subrange(0, k as int),
        decreases n - k,
    {
        out.push(b[k]);
        proof {
            assert(old(out)@ + b@.subrange(0, k as int) + seq![b@[k as int]] =~= old(out)@
                + b@.subrange(0, k + 1));
        }
        k = k + 1;
    }
    proof {
        assert(b@.subrange(0, n as int) =~= b@);
    }
}

/// Append the encoding of `v` to `out`.
fn encode_into(v: &RESPType, out: &mut Vec<u8>)
    ensures
        final(out)@ == old(out)@ + enc(v.deep()),
    decreases *v,
{
    match v {
        RESPType::SimpleString(t) => {
            out.push(TAG_SIMPLE);
            append_bytes(out, t);
            out.push(CR);
            out.push(LF);
            proof {
                assert(out@ =~= old(out)@ + enc(v.deep()));
            }
        },
        RESPType::Error(t) => {
            out.push(TAG_ERROR);
            append_bytes(out, t);
            out.push(CR);
            out.push(LF);
            proof {
                assert(out@ =~= old(out)@ + enc(v.deep()));
            }
        },
        RESPType::Integer(i) => {
            out.push(TAG_INTEGER);
            let mut d = fmt_i64(*i);
            out.append(&mut d);
            out.push(CR);
            out.push(LF);
            proof {
                assert(out@ =~= old(out)@ + enc(v.deep()));
            }
        },
        RESPType::BulkString(b) => {
            out.push(TAG_BULK);
            let mut d = fmt_u64(b.len() as u64);
            out.append(&mut d);
            out.push(CR);
            out.push(LF);
            append_bytes(out, b);
            out.push(CR);
            out.push(LF);
            proof {
                assert(int_bytes(b@.len() as int) == digits_of(b@.len() as nat));
                assert(out@ =~= old(out)@ + enc(v.deep()));
            }
        },
        RESPType::Array(es) => {
            out.push(TAG_ARRAY);
            let mut d = fmt_u64(es.len() as u64);
            out.append(&mut d);
            out.push(CR);
            out.push(LF);
            let ghost base = out@;
            let ghost models = deep_elems(es@);
            proof {
                lemma_deep_elems_index(es@);
                assert(enc_elems(models.take(0)) =~= Seq::<u8>::empty());
                assert(base + Seq::<u8>::empty() =~= base);
            }
            let n = es.len();
            let mut i: usize = 0;
            while i < n
                invariant
                    i <= n,
                    n == es@.len(),
                    models == deep_elems(es@),
                    models.len() == n,
                    forall|j: int| 0 <= j < n ==> models[j] == es@[j].deep(),
                    out@ == base + enc_elems(models.take(i as int)),
                    *v == RESPType::Array(*es),
                decreases n - i,
            {
                proof {
                    assert(decreases_to!(*v => v->Array_0));
                    assert(decreases_to!(*es => es@));
                    assert(decreases_to!(es@ => es@[i as int]));
                    assert(decreases_to!(*v => es@[i as int]));
                }
                encode_into(&es[i], out);
                proof {
                    lemma_enc_elems_snoc(models.take(i as int), models[i as int]);
                    assert(models.take(i as int).push(models[i as int]) =~= models.take(
                        i + 1,
                    ));
                    assert(base + enc_elems(models.take(i as int)) + enc(models[i as int]) =~= base
                        + enc_elems(models.take(i + 1)));
                }
                i = i + 1;
            }
            proof {
                assert(models.take(n as int) =~= models);
                assert(int_bytes(es@.len() as int) == digits_of(es@.len() as nat));
                assert(out@ =~= old(out)@ + enc(v.deep()));
            }
        },
        RESPType::Null => {
            out.push(TAG_BULK);
            out.push(MINUS);
            out.push(49);
            out.push(CR);
            out.push(LF);
            proof {
                assert(int_bytes(-1) =~= seq![MINUS, 49u8]);
                assert(out@ =~= old(out)@ + enc(v.deep()));
            }
        },
    }
}

/// Encode a value into the exact bytes the decoder accepts for it.
pub fn encode(v: &RESPType) -> (r: Vec<u8>)
    ensures
        r@ == enc(v.deep()),
{
    let mut out: Vec<u8> = Vec::new();
    encode_into(v, &mut out);
    proof {
        assert(Seq::<u8>::empty() + enc(v.deep()) =~= enc(v.deep()));
    }
    out
}

/// The header of a non-null array frame with `n` declared elements.
pub fn encode_array_header(n: u64) -> (r: Vec<u8>)
    ensures
        r@ == seq![TAG_ARRAY] + digits_of(n as nat) + crlf(),
{
    let mut out: Vec<u8> = Vec::new();
    out.push(TAG_ARRAY);
    let mut d = fmt_u64(n);
    out.append(&mut d);
    out.push(CR);
    out.push(LF);
    proof {
        assert(out@ =~= seq![TAG_ARRAY] + digits_of(n as nat) + crlf());
    }
    out
}

/// The null array frame `*-1\r\n`.
pub fn encode_null_array() -> (r: Vec<u8>)
    ensures
        r@ == seq![TAG_ARRAY] + int_bytes(-1) + crlf(),
{
    let mut out: Vec<u8> = Vec::new();
    out.push(TAG_ARRAY);
    out.push(MINUS);
    out.push(49);
    out.push(CR);
    out.push(LF);
    proof {
        assert(int_bytes(-1) =~= seq![MINUS, 49u8]);
        assert(out@ =~= seq![TAG_ARRAY] + int_bytes(-1) + crlf());
    }
    out
}

} // verus!

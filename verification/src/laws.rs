//! The laws tying the encoder and the decoder together: decoding an
//! encoded value gives the value back, byte for byte, frame for frame.

use crate::de::dec_at;
use crate::de::dec_elems;
use crate::de::dec_top;
use crate::de::find_cr;
use crate::de::find_crlf;
use crate::de::lemma_find_cr;
use crate::de::lemma_find_crlf;
use crate::de::read_line_at;
use crate::de::DecRes;
use crate::de::ElemsRes;
use crate::de::LineRes;
use crate::de::TAG_ARRAY;
use crate::de::TAG_BULK;
use crate::de::TAG_ERROR;
use crate::de::TAG_INTEGER;
use crate::de::TAG_SIMPLE;
use crate::error::Error;
use crate::num::digits_of;
use crate::num::int_bytes;
use crate::num::lemma_int_bytes_crlf_free;
use crate::num::lemma_int_bytes_parse;
use crate::num::numeral_val;
use crate::ser::crlf;
use crate::ser::enc;
use crate::ser::enc_elems;
use crate::value::wf_elems;
use crate::value::ValueModel;
use crate::value::CR;
use crate::value::LF;
use crate::value::MAX_BULK_STRING_SIZE;
use vstd::prelude::*;

verus! {

/// An encoded frame is never empty.
pub proof fn lemma_enc_nonempty(m: ValueModel)
    ensures
        enc(m).len() >= 1,
{
}

/// If a CR-free chunk sits at `pos` with CRLF right after it, reading a
/// line at `pos` yields exactly that chunk.
proof fn lemma_read_line_exact(s: Seq<u8>, pos: int, content: Seq<u8>)
    requires
        0 <= pos,
        pos + content.len() + 2 <= s.len(),
        s.subrange(pos, pos + content.len()) == content,
        forall|k: int| 0 <= k < content.len() ==> (#[trigger] content[k]) != CR,
        s[pos + content.len()] == CR,
        s[pos + content.len() + 1] == LF,
    ensures
        read_line_at(s, pos) == LineRes::Line(content, pos + content.len() + 2),
{
    let c = pos + content.len();
    assert forall|k: int| pos <= k < c implies s[k] != CR by {
        assert(content[k - pos] == s.subrange(pos, c)[k - pos]);
    }
    lemma_find_crlf(s, pos);
    match find_crlf(s, pos) {
        Option::None => {
            assert(!(s[c] == CR && s[c + 1] == LF));
            assert(false);
        },
        Option::Some(i) => {
            if i < c {
                assert(s[i] == CR);
                assert(false);
            }
            if i > c {
                assert(!(s[c] == CR && s[c + 1] == LF));
                assert(false);
            }
            lemma_find_cr(s, pos, c);
            match find_cr(s, pos, c) {
                Option::Some(j) => {
                    assert(s[j] != CR);
                    assert(false);
                },
                Option::None => {
                    assert(s.subrange(pos, i) == content);
                },
            }
        },
    }
}

/// Take a frame `tag line CRLF tail` embedded in `s` at `pos` apart: the
/// tag byte, the line read, and where the tail sits.
proof fn lemma_frame_parts(s: Seq<u8>, pos: int, tag: u8, line: Seq<u8>, tail: Seq<u8>)
    requires
        0 <= pos,
        pos + 1 + line.len() + 2 + tail.len() <= s.len(),
        s.subrange(pos, pos + 1 + line.len() + 2 + tail.len()) == seq![tag] + line + crlf()
            + tail,
        forall|k: int| 0 <= k < line.len() ==> (#[trigger] line[k]) != CR,
    ensures
        s[pos] == tag,
        read_line_at(s, pos + 1) == LineRes::Line(line, pos + 1 + line.len() + 2),
        s.subrange(pos + 1 + line.len() + 2, pos + 1 + line.len() + 2 + tail.len()) == tail,
{
    let e = seq![tag] + line + crlf() + tail;
    let n = e.len();
    assert(s.subrange(pos, pos + n)[0] == s[pos + 0]);
    assert(e[0] == tag);
    assert forall|k: int| 0 <= k < line.len() implies s.subrange(
        pos + 1,
        pos + 1 + line.len(),
    )[k] == line[k] by {
        assert(s.subrange(pos + 1, pos + 1 + line.len())[k] == s[pos + 1 + k]);
        assert(s.subrange(pos, pos + n)[1 + k] == s[pos + (1 + k)]);
        assert(e[1 + k] == line[k]);
    }
    assert(s.subrange(pos + 1, pos + 1 + line.len()) =~= line);
    assert(s.subrange(pos, pos + n)[1 + line.len() as int] == s[pos + (1 + line.len() as int)]);
    assert(e[1 + line.len() as int] == CR);
    assert(s.subrange(pos, pos + n)[1 + line.len() as int + 1] == s[pos + (1 + line.len() as int + 1)]);
    assert(e[1 + line.len() as int + 1] == LF);
    lemma_read_line_exact(s, pos + 1, line);
    let p2 = pos + 1 + line.len() + 2;
    assert forall|k: int| 0 <= k < tail.len() implies s.subrange(p2, p2 + tail.len())[k]
        == tail[k] by {
        assert(s.subrange(p2, p2 + tail.len())[k] == s[p2 + k]);
        assert(s.subrange(pos, pos + n)[1 + line.len() + 2 + k] == s[pos + (1 + line.len() + 2
            + k)]);
        assert(e[1 + line.len() + 2 + k] == tail[k]);
    }
    assert(s.subrange(p2, p2 + tail.len()) =~= tail);
}

/// Decoding at the start of an encoded well-formed value yields exactly
/// that value and consumes exactly its frame, whatever bytes follow.
pub proof fn lemma_enc_decodes(m: ValueModel, s: Seq<u8>, pos: int)
    requires
        m.wf(),
        0 <= pos,
        pos + enc(m).len() <= s.len(),
        s.subrange(pos, pos + enc(m).len()) == enc(m),
    ensures
        dec_at(s, pos) == DecRes::Val(m, pos + enc(m).len()),
    decreases m,
{
    let e = enc(m);
    match m {
        ValueModel::SimpleString(t) => {
            assert(e =~= seq![TAG_SIMPLE] + t + crlf() + Seq::<u8>::empty());
            lemma_frame_parts(s, pos, TAG_SIMPLE, t, Seq::empty());
        },
        ValueModel::Error(t) => {
            assert(e =~= seq![TAG_ERROR] + t + crlf() + Seq::<u8>::empty());
            lemma_frame_parts(s, pos, TAG_ERROR, t, Seq::empty());
        },
        ValueModel::Integer(v) => {
            let d = int_bytes(v);
            lemma_int_bytes_crlf_free(v);
            lemma_int_bytes_parse(v);
            assert(e =~= seq![TAG_INTEGER] + d + crlf() + Seq::<u8>::empty());
            lemma_frame_parts(s, pos, TAG_INTEGER, d, Seq::empty());
        },
        ValueModel::BulkString(b) => {
            let d = int_bytes(b.len() as int);
            lemma_int_bytes_crlf_free(b.len() as int);
            lemma_int_bytes_parse(b.len() as int);
            let tail = b + crlf();
            assert(e =~= seq![TAG_BULK] + d + crlf() + tail);
            lemma_frame_parts(s, pos, TAG_BULK, d, tail);
            let p2 = pos + 1 + d.len() + 2;
            assert forall|k: int| 0 <= k < b.len() implies s.subrange(p2, p2 + b.len())[k]
                == b[k] by {
                assert(s.subrange(p2, p2 + b.len())[k] == s[p2 + k]);
                assert(s.subrange(p2, p2 + tail.len())[k] == s[p2 + k]);
                assert(tail[k] == b[k]);
            }
            assert(s.subrange(p2, p2 + b.len()) =~= b);
            assert(s.subrange(p2, p2 + tail.len())[b.len() as int] == s[p2 + b.len()]);
            assert(tail[b.len() as int] == CR);
            assert(s.subrange(p2, p2 + tail.len())[b.len() as int + 1] == s[p2 + (b.len() as int + 1)]);
            assert(tail[b.len() as int + 1] == LF);
            assert(numeral_val(d) == b.len());
        },
        ValueModel::Array(es) => {
            let d = int_bytes(es.len() as int);
            lemma_int_bytes_crlf_free(es.len() as int);
            lemma_int_bytes_parse(es.len() as int);
            let tail = enc_elems(es);
            assert(e =~= seq![TAG_ARRAY] + d + crlf() + tail);
            lemma_frame_parts(s, pos, TAG_ARRAY, d, tail);
            let p2 = pos + 1 + d.len() + 2;
            assert(numeral_val(d) == es.len());
            lemma_enc_elems_decode(es, s, p2);
        },
        ValueModel::Null => {
            let d = int_bytes(-1);
            lemma_int_bytes_crlf_free(-1);
            lemma_int_bytes_parse(-1);
            assert(e =~= seq![TAG_BULK] + d + crlf() + Seq::<u8>::empty());
            lemma_frame_parts(s, pos, TAG_BULK, d, Seq::empty());
            assert(numeral_val(d) == -1);
        },
    }
}

/// Decoding at the start of a run of encoded well-formed values yields
/// exactly those values, in order, and consumes exactly their frames.
pub proof fn lemma_enc_elems_decode(es: Seq<ValueModel>, s: Seq<u8>, pos: int)
    requires
        wf_elems(es),
        0 <= pos,
        pos + enc_elems(es).len() <= s.len(),
        s.subrange(pos, pos + enc_elems(es).len()) == enc_elems(es),
    ensures
        dec_elems(s, pos, es.len() as int) == ElemsRes::Elems(es, pos + enc_elems(es).len()),
    decreases es,
{
    let ee = enc_elems(es);
    if es.len() == 0 {
        assert(es =~= Seq::<ValueModel>::empty());
    } else {
        let first = es.first();
        let rest = es.drop_first();
        let e0 = enc(first);
        let er = enc_elems(rest);
        assert(ee == e0 + er);
        assert forall|k: int| 0 <= k < e0.len() implies s.subrange(pos, pos + e0.len())[k]
            == e0[k] by {
            assert(s.subrange(pos, pos + e0.len())[k] == s[pos + k]);
            assert(s.subrange(pos, pos + ee.len())[k] == s[pos + k]);
            assert(ee[k] == e0[k]);
        }
        assert(s.subrange(pos, pos + e0.len()) =~= e0);
        lemma_enc_decodes(first, s, pos);
        lemma_enc_nonempty(first);
        let p3 = pos + e0.len();
        assert forall|k: int| 0 <= k < er.len() implies s.subrange(p3, p3 + er.len())[k]
            == er[k] by {
            assert(s.subrange(p3, p3 + er.len())[k] == s[p3 + k]);
            assert(s.subrange(pos, pos + ee.len())[e0.len() + k] == s[pos + (e0.len() + k)]);
            assert(ee[e0.len() + k] == er[k]);
        }
        assert(s.subrange(p3, p3 + er.len()) =~= er);
        lemma_enc_elems_decode(rest, s, p3);
        assert(seq![first] + rest =~= es);
    }
}

/// Round trip: decoding the encoding of any well-formed value gives that
/// value back, with no bytes left over.
pub proof fn lemma_round_trip(m: ValueModel)
    requires
        m.wf(),
    ensures
        dec_top(enc(m)) == Result::<ValueModel, Error>::Ok(m),
{
    let e = enc(m);
    assert(e.subrange(0, e.len() as int) =~= e);
    lemma_enc_decodes(m, e, 0);
}

/// A `$` frame declaring the payload's true length decodes to exactly
/// that payload, for every payload up to the declared maximum.
pub proof fn lemma_bulk_decode(b: Seq<u8>)
    requires
        b.len() <= MAX_BULK_STRING_SIZE,
    ensures
        dec_top(seq![TAG_BULK] + digits_of(b.len() as nat) + crlf() + b + crlf())
            == Result::<ValueModel, Error>::Ok(ValueModel::BulkString(b)),
{
    assert(int_bytes(b.len() as int) == digits_of(b.len() as nat));
    assert(seq![TAG_BULK] + digits_of(b.len() as nat) + crlf() + b + crlf() == enc(
        ValueModel::BulkString(b),
    ));
    lemma_round_trip(ValueModel::BulkString(b));
}

} // verus!


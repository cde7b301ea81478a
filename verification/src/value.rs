//! The wire-level value model: the tagged union a decode produces and an
//! encode consumes, together with its mathematical counterpart.

use vstd::prelude::*;

verus! {

broadcast use vstd::std_specs::vec::group_vec_axioms;

/// Byte value of `'\r'`, the first byte of the frame terminator.
pub const CR: u8 = 13;

/// Byte value of `'\n'`, the second byte of the frame terminator.
pub const LF: u8 = 10;

/// Largest declared bulk-string length the decoder accepts (512 MiB).
pub const MAX_BULK_STRING_SIZE: usize = 512 * 1024 * 1024;

/// A decoded RESP value.
///
/// Text (simple strings and error messages) is held as its raw bytes; the
/// wire grammar assumes such text is free of CR and LF. `Null` is the
/// unified null marker produced by both `$-1\r\n` and `*-1\r\n`.
#[derive(Debug, Eq)]
pub enum RESPType {
    SimpleString(Vec<u8>),
    Integer(i64),
    Error(Vec<u8>),
    BulkString(Vec<u8>),
    Array(Vec<RESPType>),
    Null,
}

/// The mathematical shape of a RESP value: what the contracts of the
/// decoder and the encoder speak about.
#[verifier::ext_equal]
pub enum ValueModel {
    SimpleString(Seq<u8>),
    Integer(int),
    Error(Seq<u8>),
    BulkString(Seq<u8>),
    Array(Seq<ValueModel>),
    Null,
}

/// Holds when a text payload can sit on a `+` or `-` line: no CR and no LF.
pub open spec fn crlf_free(t: Seq<u8>) -> bool {
    forall|i: int| 0 <= i < t.len() ==> t[i] != CR && t[i] != LF
}

impl ValueModel {
    /// A value the wire grammar can carry faithfully: line text is CR/LF
    /// free, integers fit the signed 64-bit integer frame, bulk payloads
    /// fit the declared maximum, and array lengths fit the signed 64-bit
    /// count of the array header. The round-trip law holds exactly for
    /// these values; a bulk payload longer than the maximum, say, is
    /// still constructible, but the decoder refuses its frame.
    pub open spec fn wf(self) -> bool
        decreases self,
    {
        match self {
            ValueModel::SimpleString(t) => crlf_free(t),
            ValueModel::Error(t) => crlf_free(t),
            ValueModel::Integer(v) => i64::MIN <= v <= i64::MAX,
            ValueModel::BulkString(b) => b.len() <= MAX_BULK_STRING_SIZE,
            ValueModel::Array(es) => es.len() <= i64::MAX && wf_elems(es),
            ValueModel::Null => true,
        }
    }
}

/// Every element of the sequence is well formed.
pub open spec fn wf_elems(es: Seq<ValueModel>) -> bool
    decreases es,
{
    es.len() == 0 || (es.first().wf() && wf_elems(es.drop_first()))
}

impl RESPType {
    /// The model of this value.
    pub open spec fn deep(self) -> ValueModel
        decreases self,
    {
        match self {
            RESPType::SimpleString(t) => ValueModel::SimpleString(t@),
            RESPType::Integer(i) => ValueModel::Integer(i as int),
            RESPType::Error(t) => ValueModel::Error(t@),
            RESPType::BulkString(b) => ValueModel::BulkString(b@),
            RESPType::Array(es) => ValueModel::Array(deep_elems(es@)),
            RESPType::Null => ValueModel::Null,
        }
    }

    /// The well-known `+OK\r\n` payload.
    pub fn ok() -> (r: RESPType)
        ensures
            r.deep() == ValueModel::SimpleString(seq![79u8, 75u8]),
    {
        let t: Vec<u8> = vec![79u8, 75u8];
        proof {
            assert(t@ =~= seq![79u8, 75u8]);
        }
        RESPType::SimpleString(t)
    }
}

/// The models of the elements, in order.
pub open spec fn deep_elems(es: Seq<RESPType>) -> Seq<ValueModel>
    decreases es,
{
    if es.len() == 0 {
        Seq::empty()
    } else {
        seq![es.first().deep()] + deep_elems(es.drop_first())
    }
}

/// Byte-vector equality, stated on the views.
pub fn bytes_eq(a: &Vec<u8>, b: &Vec<u8>) -> (r: bool)
    ensures
        r == (a@ == b@),
{
    if a.len() != b.len() {
        return false;
    }
    let mut i: usize = 0;
    while i < a.len()
        invariant
            i <= a@.len(),
            a@.len() == b@.len(),
            forall|j: int| 0 <= j < i ==> a@[j] == b@[j],
        decreases a@.len() - i,
    {
        if a[i] != b[i] {
            return false;
        }
        i += 1;
    }
    proof {
        assert(a@ =~= b@);
    }
    true
}

impl RESPType {
    /// Equality of the models; the executable side of `==`.
    pub fn deep_eq(&self, other: &RESPType) -> (r: bool)
        ensures
            r == (self.deep() == other.deep()),
        decreases *self,
    {
        match (self, other) {
            (RESPType::SimpleString(a), RESPType::SimpleString(b)) => bytes_eq(a, b),
            (RESPType::Integer(x), RESPType::Integer(y)) => *x == *y,
            (RESPType::Error(a), RESPType::Error(b)) => bytes_eq(a, b),
            (RESPType::BulkString(a), RESPType::BulkString(b)) => bytes_eq(a, b),
            (RESPType::Array(x), RESPType::Array(y)) => {
                proof {
                    lemma_deep_elems_index(x@);
                    lemma_deep_elems_index(y@);
                }
                if x.len() != y.len() {
                    return false;
                }
                let n = x.len();
                let mut i: usize = 0;
                while i < n
                    invariant
                        i <= n,
                        n == x@.len(),
                        n == y@.len(),
                        deep_elems(x@).len() == n,
                        deep_elems(y@).len() == n,
                        forall|j: int| 0 <= j < n ==> deep_elems(x@)[j] == x@[j].deep(),
                        forall|j: int| 0 <= j < n ==> deep_elems(y@)[j] == y@[j].deep(),
                        forall|j: int| 0 <= j < i ==> deep_elems(x@)[j] == deep_elems(y@)[j],
                        *self == RESPType::Array(*x),
                        *other == RESPType::Array(*y),
                    decreases n - i,
                {
                    proof {
                        assert(decreases_to!(*self => x@[i as int]));
                    }
                    if !x[i].deep_eq(&y[i]) {
                        proof {
                            assert(deep_elems(x@)[i as int] == x@[i as int].deep());
                            assert(deep_elems(y@)[i as int] == y@[i as int].deep());
                        }
                        return false;
                    }
                    i += 1;
                }
                proof {
                    assert(deep_elems(x@) =~= deep_elems(y@));
                }
                true
            },
            (RESPType::Null, RESPType::Null) => true,
            _ => false,
        }
    }
}

impl PartialEq for RESPType {
    fn eq(&self, other: &RESPType) -> (r: bool) {
        self.deep_eq(other)
    }
}

impl vstd::std_specs::cmp::PartialEqSpecImpl for RESPType {
    open spec fn obeys_eq_spec() -> bool {
        true
    }

    open spec fn eq_spec(&self, other: &RESPType) -> bool {
        self.deep() == other.deep()
    }
}

/// `deep_elems` maps the sequence pointwise.
pub proof fn lemma_deep_elems_index(es: Seq<RESPType>)
    ensures
        deep_elems(es).len() == es.len(),
        forall|i: int| 0 <= i < es.len() ==> deep_elems(es)[i] == es[i].deep(),
    decreases es,
{
    if es.len() > 0 {
        lemma_deep_elems_index(es.drop_first());
        assert forall|i: int| 0 <= i < es.len() implies deep_elems(es)[i] == es[i].deep() by {
            if i > 0 {
                assert(deep_elems(es)[i] == deep_elems(es.drop_first())[i - 1]);
                assert(es.drop_first()[i - 1] == es[i]);
            }
        }
    }
}

/// Appending one value appends its model.
pub proof fn lemma_deep_elems_snoc(es: Seq<RESPType>, v: RESPType)
    ensures
        deep_elems(es.push(v)) == deep_elems(es) + seq![v.deep()],
    decreases es,
{
    if es.len() == 0 {
        assert(es.push(v).drop_first() =~= Seq::<RESPType>::empty());
        assert(es.push(v).first() == v);
        assert(seq![v.deep()] + deep_elems(Seq::empty()) =~= deep_elems(es) + seq![v.deep()]);
    } else {
        assert(es.push(v).drop_first() =~= es.drop_first().push(v));
        lemma_deep_elems_snoc(es.drop_first(), v);
        assert(seq![es.first().deep()] + (deep_elems(es.drop_first()) + seq![v.deep()]) =~= (
        seq![es.first().deep()] + deep_elems(es.drop_first())) + seq![v.deep()]);
    }
}

} // verus!

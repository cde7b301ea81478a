//! The decoder: a forward-only cursor over the input bytes and the frame
//! parsers that turn them into a value.
//!
//! The ground truth is the specification parser `dec_at`: every exec
//! method's contract says its result and its cursor movement are exactly
//! what `dec_at` (or one of its sub-parsers) prescribes.

use crate::error::Error;
use crate::num::parse_i64;
use crate::num::parses_to_i64;
use crate::num::numeral_val;
use crate::value::RESPType;
use crate::value::ValueModel;
use crate::value::CR;
use crate::value::LF;
use crate::value::MAX_BULK_STRING_SIZE;
use crate::value::deep_elems;
use vstd::prelude::*;

verus! {

broadcast use vstd::std_specs::vec::group_vec_axioms;

/// Frame tag of a simple string, `'+'`.
pub const TAG_SIMPLE: u8 = 43;

/// Frame tag of an error message, `'-'`.
pub const TAG_ERROR: u8 = 45;

/// Frame tag of an integer, `':'`.
pub const TAG_INTEGER: u8 = 58;

/// Frame tag of a bulk string, `'$'`.
pub const TAG_BULK: u8 = 36;

/// Frame tag of an array, `'*'`.
pub const TAG_ARRAY: u8 = 42;

/// The byte is one of the five legal frame tags.
pub open spec fn is_frame_tag(b: u8) -> bool {
    b == TAG_SIMPLE || b == TAG_ERROR || b == TAG_INTEGER || b == TAG_BULK || b == TAG_ARRAY
}

/// What reading one CRLF-terminated line yields.
#[verifier::ext_equal]
pub enum LineRes {
    /// The line's text and the position just past its terminator.
    Line(Seq<u8>, int),
    /// The line could not be read.
    LineErr(Error),
}

/// What decoding one frame yields.
#[verifier::ext_equal]
pub enum DecRes {
    /// The decoded value and the position just past its frame.
    Val(ValueModel, int),
    /// The frame is malformed.
    DecErr(Error),
}

/// What decoding a run of consecutive frames yields.
#[verifier::ext_equal]
pub enum ElemsRes {
    /// The decoded values and the position just past the last frame.
    Elems(Seq<ValueModel>, int),
    /// Some frame of the run is malformed.
    ElemsErr(Error),
}

/// The first position `i >= pos` with CRLF at `s[i], s[i + 1]`.
pub open spec fn find_crlf(s: Seq<u8>, pos: int) -> Option<int>
    decreases s.len() - pos,
{
    if pos + 2 > s.len() {
        None
    } else if s[pos] == CR && s[pos + 1] == LF {
        Some(pos)
    } else {
        find_crlf(s, pos + 1)
    }
}

/// The first position `j` with `pos <= j < end` holding a CR byte.
pub open spec fn find_cr(s: Seq<u8>, pos: int, end: int) -> Option<int>
    decreases end - pos,
{
    if pos >= end {
        None
    } else if s[pos] == CR {
        Some(pos)
    } else {
        find_cr(s, pos + 1, end)
    }
}

/// Reading a line at `pos`: everything up to the next CRLF, with the
/// terminator consumed as well. A bare CR before the terminator is an
/// `UnexpectedCR` at its own offset; a missing terminator is `Eof`.
pub open spec fn read_line_at(s: Seq<u8>, pos: int) -> LineRes {
    match find_crlf(s, pos) {
        Option::None => LineRes::LineErr(Error::Eof),
        Option::Some(i) => match find_cr(s, pos, i) {
            Option::Some(j) => LineRes::LineErr(Error::UnexpectedCR(j as usize)),
            Option::None => LineRes::Line(s.subrange(pos, i), i + 2),
        },
    }
}

/// Where `find_crlf` lands: at the first CRLF, inside the buffer.
pub proof fn lemma_find_crlf(s: Seq<u8>, pos: int)
    ensures
        match find_crlf(s, pos) {
            Option::Some(i) => pos <= i && i + 2 <= s.len() && s[i] == CR && s[i + 1] == LF
                && forall|k: int| pos <= k < i ==> !((#[trigger] s[k]) == CR && s[k + 1] == LF),
            Option::None => forall|k: int|
                pos <= k && k + 2 <= s.len() ==> !((#[trigger] s[k]) == CR && s[k + 1] == LF),
        },
    decreases s.len() - pos,
{
    if pos + 2 > s.len() {
    } else if s[pos] == CR && s[pos + 1] == LF {
    } else {
        lemma_find_crlf(s, pos + 1);
    }
}

/// Where `find_cr` lands: at the first CR in the range, if any.
pub proof fn lemma_find_cr(s: Seq<u8>, pos: int, end: int)
    ensures
        match find_cr(s, pos, end) {
            Option::Some(j) => pos <= j < end && s[j] == CR && forall|k: int|
                pos <= k < j ==> (#[trigger] s[k]) != CR,
            Option::None => forall|k: int| pos <= k < end ==> (#[trigger] s[k]) != CR,
        },
    decreases end - pos,
{
    if pos >= end {
    } else if s[pos] == CR {
    } else {
        lemma_find_cr(s, pos + 1, end);
    }
}

/// A `+` frame at `pos`: the tag, then one line of text.
pub open spec fn dec_simple_at(s: Seq<u8>, pos: int) -> DecRes {
    if pos < 0 || pos >= s.len() {
        DecRes::DecErr(Error::Eof)
    } else if s[pos] != TAG_SIMPLE {
        DecRes::DecErr(
            Error::UnexpectedSign {
                expected: TAG_SIMPLE as char,
                found: s[pos] as char,
                pos: pos as usize,
            },
        )
    } else {
        match read_line_at(s, pos + 1) {
            LineRes::Line(t, end) => DecRes::Val(ValueModel::SimpleString(t), end),
            LineRes::LineErr(e) => DecRes::DecErr(e),
        }
    }
}

/// A `-` frame at `pos`: the tag, then one line of error text.
pub open spec fn dec_error_at(s: Seq<u8>, pos: int) -> DecRes {
    if pos < 0 || pos >= s.len() {
        DecRes::DecErr(Error::Eof)
    } else if s[pos] != TAG_ERROR {
        DecRes::DecErr(
            Error::UnexpectedSign {
                expected: TAG_ERROR as char,
                found: s[pos] as char,
                pos: pos as usize,
            },
        )
    } else {
        match read_line_at(s, pos + 1) {
            LineRes::Line(t, end) => DecRes::Val(ValueModel::Error(t), end),
            LineRes::LineErr(e) => DecRes::DecErr(e),
        }
    }
}

/// A `:` frame at `pos`: the tag, then a signed 64-bit numeral line.
pub open spec fn dec_integer_at(s: Seq<u8>, pos: int) -> DecRes {
    if pos < 0 || pos >= s.len() {
        DecRes::DecErr(Error::Eof)
    } else if s[pos] != TAG_INTEGER {
        DecRes::DecErr(
            Error::UnexpectedSign {
                expected: TAG_INTEGER as char,
                found: s[pos] as char,
                pos: pos as usize,
            },
        )
    } else {
        match read_line_at(s, pos + 1) {
            LineRes::Line(t, end) => if parses_to_i64(t) {
                DecRes::Val(ValueModel::Integer(numeral_val(t)), end)
            } else {
                DecRes::DecErr(Error::ParseIntError)
            },
            LineRes::LineErr(e) => DecRes::DecErr(e),
        }
    }
}

/// A `$` frame at `pos`: the tag, a declared length line, then either the
/// null marker (`-1`), or exactly that many payload bytes and a CRLF.
pub open spec fn dec_bulk_at(s: Seq<u8>, pos: int) -> DecRes {
    if pos < 0 || pos >= s.len() {
        DecRes::DecErr(Error::Eof)
    } else if s[pos] != TAG_BULK {
        DecRes::DecErr(
            Error::UnexpectedSign {
                expected: TAG_BULK as char,
                found: s[pos] as char,
                pos: pos as usize,
            },
        )
    } else {
        match read_line_at(s, pos + 1) {
            LineRes::LineErr(e) => DecRes::DecErr(e),
            LineRes::Line(t, p2) => if !parses_to_i64(t) {
                DecRes::DecErr(Error::ParseIntError)
            } else {
                let n = numeral_val(t);
                if n > MAX_BULK_STRING_SIZE as int {
                    DecRes::DecErr(Error::BulkStringOverflow)
                } else if n == -1 {
                    DecRes::Val(ValueModel::Null, p2)
                } else if n < 0 {
                    DecRes::DecErr(Error::ParseIntError)
                } else if p2 + n + 2 > s.len() {
                    DecRes::DecErr(Error::Eof)
                } else if s[p2 + n] == CR && s[p2 + n + 1] == LF {
                    DecRes::Val(ValueModel::BulkString(s.subrange(p2, p2 + n)), p2 + n + 2)
                } else {
                    match find_crlf(s, p2) {
                        Option::None => DecRes::DecErr(Error::Eof),
                        Option::Some(k) => DecRes::DecErr(
                            Error::WrongSizeOfBulkString {
                                expected: n as usize,
                                found: (k - p2) as usize,
                            },
                        ),
                    }
                }
            },
        }
    }
}

/// What reading an array header yields.
#[verifier::ext_equal]
pub enum CountRes {
    /// The declared count (`None` for the null array `*-1\r\n`) and the
    /// position just past the header.
    Count(Option<int>, int),
    /// The header is malformed.
    CountErr(Error),
}

/// An `*` header at `pos`: the tag and a declared count line; `-1` is the
/// null array, any other negative count is a parse error.
pub open spec fn dec_count_at(s: Seq<u8>, pos: int) -> CountRes {
    if pos < 0 || pos >= s.len() {
        CountRes::CountErr(Error::Eof)
    } else if s[pos] != TAG_ARRAY {
        CountRes::CountErr(
            Error::UnexpectedSign {
                expected: TAG_ARRAY as char,
                found: s[pos] as char,
                pos: pos as usize,
            },
        )
    } else {
        match read_line_at(s, pos + 1) {
            LineRes::LineErr(e) => CountRes::CountErr(e),
            LineRes::Line(t, p2) => if !parses_to_i64(t) {
                CountRes::CountErr(Error::ParseIntError)
            } else {
                let n = numeral_val(t);
                if n == -1 {
                    CountRes::Count(None, p2)
                } else if n < 0 {
                    CountRes::CountErr(Error::ParseIntError)
                } else {
                    CountRes::Count(Some(n), p2)
                }
            },
        }
    }
}

/// An `*` frame at `pos`: the header, then either the null marker or the
/// declared number of consecutive frames.
pub open spec fn dec_array_at(s: Seq<u8>, pos: int) -> DecRes
    decreases s.len() - pos, 0int,
{
    match dec_count_at(s, pos) {
        CountRes::CountErr(e) => DecRes::DecErr(e),
        CountRes::Count(None, p2) => DecRes::Val(ValueModel::Null, p2),
        CountRes::Count(Some(n), p2) => if pos < p2 <= s.len() {
            match dec_elems(s, p2, n) {
                ElemsRes::Elems(vs, end) => DecRes::Val(ValueModel::Array(vs), end),
                ElemsRes::ElemsErr(e) => DecRes::DecErr(e),
            }
        } else {
            // never taken (lemma_dec_at_in_bounds); it keeps the
            // recursion visibly well founded
            DecRes::DecErr(Error::Eof)
        },
    }
}

/// `n` consecutive frames starting at `pos`, in order.
pub open spec fn dec_elems(s: Seq<u8>, pos: int, n: int) -> ElemsRes
    decreases s.len() - pos, 2int,
{
    if n <= 0 {
        ElemsRes::Elems(Seq::empty(), pos)
    } else {
        match dec_at(s, pos) {
            DecRes::DecErr(e) => ElemsRes::ElemsErr(e),
            DecRes::Val(v, p2) => if pos < p2 <= s.len() {
                match dec_elems(s, p2, n - 1) {
                    ElemsRes::Elems(vs, end) => ElemsRes::Elems(seq![v] + vs, end),
                    ElemsRes::ElemsErr(e) => ElemsRes::ElemsErr(e),
                }
            } else {
                // never taken (lemma_dec_at_in_bounds); it keeps the
                // recursion visibly well founded
                ElemsRes::ElemsErr(Error::Eof)
            },
        }
    }
}

/// One frame at `pos`, dispatched on its leading tag byte.
pub open spec fn dec_at(s: Seq<u8>, pos: int) -> DecRes
    decreases s.len() - pos, 1int,
{
    if pos < 0 || pos >= s.len() {
        DecRes::DecErr(Error::Eof)
    } else if s[pos] == TAG_SIMPLE {
        dec_simple_at(s, pos)
    } else if s[pos] == TAG_ERROR {
        dec_error_at(s, pos)
    } else if s[pos] == TAG_INTEGER {
        dec_integer_at(s, pos)
    } else if s[pos] == TAG_BULK {
        dec_bulk_at(s, pos)
    } else if s[pos] == TAG_ARRAY {
        dec_array_at(s, pos)
    } else {
        DecRes::DecErr(Error::ExpectedSign(pos as usize))
    }
}

/// The decoder makes progress: a decoded frame always ends inside
/// `(pos, s.len()]`, so the well-foundedness branches of `dec_elems` and
/// `dec_array_at` are never taken.
pub proof fn lemma_dec_at_in_bounds(s: Seq<u8>, pos: int)
    requires
        0 <= pos,
    ensures
        match dec_at(s, pos) {
            DecRes::Val(_, end) => pos < end <= s.len(),
            DecRes::DecErr(_) => true,
        },
    decreases s.len() - pos, 1int,
{
    if 0 <= pos < s.len() {
        lemma_find_crlf(s, pos + 1);
        if s[pos] == TAG_ARRAY {
            if let CountRes::Count(cnt, p2) = dec_count_at(s, pos) {
                if let Some(n) = cnt {
                    if pos < p2 <= s.len() {
                        lemma_dec_elems_in_bounds(s, p2, n);
                    }
                }
            }
        }
    }
}

/// A decoded run of frames never moves backwards and ends inside the
/// buffer.
pub proof fn lemma_dec_elems_in_bounds(s: Seq<u8>, pos: int, n: int)
    requires
        0 <= pos <= s.len(),
    ensures
        match dec_elems(s, pos, n) {
            ElemsRes::Elems(_, end) => pos <= end <= s.len(),
            ElemsRes::ElemsErr(_) => true,
        },
    decreases s.len() - pos, 2int,
{
    if n > 0 {
        lemma_dec_at_in_bounds(s, pos);
        if let DecRes::Val(v, p2) = dec_at(s, pos) {
            if pos < p2 <= s.len() {
                lemma_dec_elems_in_bounds(s, p2, n - 1);
            }
        }
    }
}

/// A whole buffer: one frame, which must consume every byte.
pub open spec fn dec_top(s: Seq<u8>) -> Result<ValueModel, Error> {
    match dec_at(s, 0) {
        DecRes::Val(v, end) => if end == s.len() {
            Ok(v)
        } else {
            Err(Error::TrailingCharacters)
        },
        DecRes::DecErr(e) => Err(e),
    }
}

/// A forward-only cursor over a fully buffered input.
pub struct Deserializer {
    input: Vec<u8>,
    pos: usize,
}

impl Deserializer {
    /// The whole input buffer.
    pub closed spec fn inp(&self) -> Seq<u8> {
        self.input@
    }

    /// The current byte offset; everything before it is consumed.
    pub closed spec fn off(&self) -> int {
        self.pos as int
    }

    /// The cursor sits inside the buffer.
    pub open spec fn wf(&self) -> bool {
        0 <= self.off() <= self.inp().len()
    }

    /// Start a cursor at the beginning of the given buffer.
    pub fn from_str(input: Vec<u8>) -> (d: Deserializer)
        ensures
            d.wf(),
            d.inp() == input@,
            d.off() == 0,
    {
        Deserializer { input, pos: 0 }
    }

    /// How many bytes remain unconsumed.
    pub fn remaining(&self) -> (n: usize)
        requires
            self.wf(),
        ensures
            n == self.inp().len() - self.off(),
    {
        self.input.len() - self.pos
    }

    /// The current byte offset from the start of the input.
    pub fn offset(&self) -> (n: usize)
        ensures
            n == self.off(),
    {
        self.pos
    }

    /// The cursor has consumed the whole input.
    pub fn at_end(&self) -> (b: bool)
        requires
            self.wf(),
        ensures
            b == (self.off() == self.inp().len()),
    {
        self.pos == self.input.len()
    }

    /// The next byte, without consuming it; `Eof` at the end of input.
    pub fn peek_char(&self) -> (r: Result<u8, Error>)
        ensures
            match r {
                Ok(b) => self.off() < self.inp().len() && b == self.inp()[self.off()],
                Err(e) => self.off() >= self.inp().len() && e == Error::Eof,
            },
    {
        if self.pos < self.input.len() {
            Ok(self.input[self.pos])
        } else {
            Err(Error::Eof)
        }
    }

    /// Consume and return the next byte; `Eof` at the end of input.
    pub fn next_char(&mut self) -> (r: Result<u8, Error>)
        requires
            old(self).wf(),
        ensures
            final(self).inp() == old(self).inp(),
            final(self).wf(),
            match r {
                Ok(b) => old(self).off() < old(self).inp().len()
                    && b == old(self).inp()[old(self).off()]
                    && final(self).off() == old(self).off() + 1,
                Err(e) => old(self).off() >= old(self).inp().len() && e == Error::Eof
                    && final(self).off() == old(self).off(),
            },
    {
        if self.pos < self.input.len() {
            let b = self.input[self.pos];
            self.pos = self.pos + 1;
            Ok(b)
        } else {
            Err(Error::Eof)
        }
    }

    /// Consume exactly `len` bytes and return them; `Eof`, consuming
    /// nothing, if fewer remain.
    pub fn skip(&mut self, len: usize) -> (r: Result<Vec<u8>, Error>)
        requires
            old(self).wf(),
        ensures
            final(self).inp() == old(self).inp(),
            final(self).wf(),
            match r {
                Ok(v) => old(self).off() + len <= old(self).inp().len()
                    && v@ == old(self).inp().subrange(old(self).off(), old(self).off() + len)
                    && final(self).off() == old(self).off() + len,
                Err(e) => old(self).inp().len() - old(self).off() < len && e == Error::Eof
                    && final(self).off() == old(self).off(),
            },
    {
        if self.input.len() - self.pos < len {
            return Err(Error::Eof);
        }
        let start = self.pos;
        let n = self.input.len();
        let mut out: Vec<u8> = Vec::new();
        let mut k: usize = 0;
        while k < len
            invariant
                k <= len,
                n == self.input@.len(),
                start + len <= n,
                out@ == self.input@.subrange(start as int, start + k),
            decreases len - k,
        {
            out.push(self.input[start + k]);
            proof {
                assert(out@ =~= self.input@.subrange(start as int, start + k + 1));
            }
            k = k + 1;
        }
        self.pos = self.pos + len;
        Ok(out)
    }

    /// The first CRLF at or after `start`, if any.
    fn find_crlf_from(&self, start: usize) -> (r: Option<usize>)
        requires
            start <= self.inp().len(),
        ensures
            match r {
                Some(i) => find_crlf(self.inp(), start as int) == Some(i as int),
                None => find_crlf(self.inp(), start as int) == None::<int>,
            },
    {
        let n = self.input.len();
        let mut i = start;
        while n - i >= 2 && !(self.input[i] == CR && self.input[i + 1] == LF)
            invariant
                start <= i <= n,
                n == self.inp().len(),
                find_crlf(self.inp(), start as int) == find_crlf(self.inp(), i as int),
            decreases n - i,
        {
            i = i + 1;
        }
        if n - i >= 2 {
            Some(i)
        } else {
            None
        }
    }

    /// Read one line: everything up to the next CRLF, consuming the
    /// terminator as well; a bare CR inside the line is an error carrying
    /// the CR's own offset. A failed read consumes nothing.
    pub fn read_to_end(&mut self) -> (r: Result<Vec<u8>, Error>)
        requires
            old(self).wf(),
        ensures
            final(self).inp() == old(self).inp(),
            final(self).wf(),
            match r {
                Ok(v) => read_line_at(old(self).inp(), old(self).off()) == LineRes::Line(
                    v@,
                    final(self).off(),
                ) && old(self).off() < final(self).off(),
                Err(e) => read_line_at(old(self).inp(), old(self).off()) == LineRes::LineErr(e)
                    && final(self).off() == old(self).off(),
            },
    {
        let i = match self.find_crlf_from(self.pos) {
            Some(i) => i,
            None => {
                return Err(Error::Eof);
            },
        };
        proof {
            lemma_find_crlf(self.inp(), self.off());
        }
        let mut j = self.pos;
        while j < i && self.input[j] != CR
            invariant
                self.pos <= j <= i,
                i + 2 <= self.inp().len(),
                find_cr(self.inp(), self.off(), i as int) == find_cr(
                    self.inp(),
                    j as int,
                    i as int,
                ),
            decreases i - j,
        {
            j = j + 1;
        }
        if j < i {
            return Err(Error::UnexpectedCR(j));
        }
        let text = match self.skip(i - self.pos) {
            Ok(t) => t,
            Err(e) => {
                return Err(e);
            },
        };
        let _crlf = match self.skip(2) {
            Ok(c) => c,
            Err(e) => {
                return Err(e);
            },
        };
        Ok(text)
    }

    /// Read a `:` frame and return its integer. A wrong tag or an empty
    /// input is rejected without consuming anything.
    pub fn parse_int(&mut self) -> (r: Result<i64, Error>)
        requires
            old(self).wf(),
        ensures
            final(self).inp() == old(self).inp(),
            final(self).wf(),
            match r {
                Ok(v) => dec_integer_at(old(self).inp(), old(self).off()) == DecRes::Val(
                    ValueModel::Integer(v as int),
                    final(self).off(),
                ) && old(self).off() < final(self).off(),
                Err(e) => dec_integer_at(old(self).inp(), old(self).off()) == DecRes::DecErr(e)
                    && ((old(self).off() >= old(self).inp().len() || old(self).inp()[old(
                        self,
                    ).off()] != TAG_INTEGER) ==> final(self).off() == old(self).off()),
            },
    {
        let prefix = match self.peek_char() {
            Ok(b) => b,
            Err(e) => {
                return Err(e);
            },
        };
        if prefix != TAG_INTEGER {
            return Err(
                Error::UnexpectedSign {
                    expected: TAG_INTEGER as char,
                    found: prefix as char,
                    pos: self.pos,
                },
            );
        }
        let _tag = match self.next_char() {
            Ok(b) => b,
            Err(e) => {
                return Err(e);
            },
        };
        let line = match self.read_to_end() {
            Ok(l) => l,
            Err(e) => {
                return Err(e);
            },
        };
        match parse_i64(&line) {
            Ok(v) => Ok(v),
            Err(e) => Err(e),
        }
    }

    /// Read a `+` frame and return its text. A wrong tag or an empty
    /// input is rejected without consuming anything.
    pub fn parse_simple_string(&mut self) -> (r: Result<Vec<u8>, Error>)
        requires
            old(self).wf(),
        ensures
            final(self).inp() == old(self).inp(),
            final(self).wf(),
            match r {
                Ok(v) => dec_simple_at(old(self).inp(), old(self).off()) == DecRes::Val(
                    ValueModel::SimpleString(v@),
                    final(self).off(),
                ) && old(self).off() < final(self).off(),
                Err(e) => dec_simple_at(old(self).inp(), old(self).off()) == DecRes::DecErr(e)
                    && ((old(self).off() >= old(self).inp().len() || old(self).inp()[old(
                        self,
                    ).off()] != TAG_SIMPLE) ==> final(self).off() == old(self).off()),
            },
    {
        let prefix = match self.peek_char() {
            Ok(b) => b,
            Err(e) => {
                return Err(e);
            },
        };
        if prefix != TAG_SIMPLE {
            return Err(
                Error::UnexpectedSign {
                    expected: TAG_SIMPLE as char,
                    found: prefix as char,
                    pos: self.pos,
                },
            );
        }
        let _tag = match self.next_char() {
            Ok(b) => b,
            Err(e) => {
                return Err(e);
            },
        };
        self.read_to_end()
    }

    /// Read a `-` frame and return its error text. A wrong tag or an
    /// empty input is rejected without consuming anything.
    pub fn parse_error(&mut self) -> (r: Result<Vec<u8>, Error>)
        requires
            old(self).wf(),
        ensures
            final(self).inp() == old(self).inp(),
            final(self).wf(),
            match r {
                Ok(v) => dec_error_at(old(self).inp(), old(self).off()) == DecRes::Val(
                    ValueModel::Error(v@),
                    final(self).off(),
                ) && old(self).off() < final(self).off(),
                Err(e) => dec_error_at(old(self).inp(), old(self).off()) == DecRes::DecErr(e)
                    && ((old(self).off() >= old(self).inp().len() || old(self).inp()[old(
                        self,
                    ).off()] != TAG_ERROR) ==> final(self).off() == old(self).off()),
            },
    {
        let prefix = match self.peek_char() {
            Ok(b) => b,
            Err(e) => {
                return Err(e);
            },
        };
        if prefix != TAG_ERROR {
            return Err(
                Error::UnexpectedSign {
                    expected: TAG_ERROR as char,
                    found: prefix as char,
                    pos: self.pos,
                },
            );
        }
        let _tag = match self.next_char() {
            Ok(b) => b,
            Err(e) => {
                return Err(e);
            },
        };
        self.read_to_end()
    }

    /// Read a `$` frame: the payload bytes, or `None` for the null bulk
    /// string `$-1\r\n`. A wrong tag or an empty input is rejected
    /// without consuming anything.
    pub fn parse_bytes(&mut self) -> (r: Result<Option<Vec<u8>>, Error>)
        requires
            old(self).wf(),
        ensures
            final(self).inp() == old(self).inp(),
            final(self).wf(),
            match r {
                Ok(Some(b)) => dec_bulk_at(old(self).inp(), old(self).off()) == DecRes::Val(
                    ValueModel::BulkString(b@),
                    final(self).off(),
                ) && old(self).off() < final(self).off(),
                Ok(None) => dec_bulk_at(old(self).inp(), old(self).off()) == DecRes::Val(
                    ValueModel::Null,
                    final(self).off(),
                ) && old(self).off() < final(self).off(),
                Err(e) => dec_bulk_at(old(self).inp(), old(self).off()) == DecRes::DecErr(e)
                    && ((old(self).off() >= old(self).inp().len() || old(self).inp()[old(
                        self,
                    ).off()] != TAG_BULK) ==> final(self).off() == old(self).off()),
            },
    {
        let prefix = match self.peek_char() {
            Ok(b) => b,
            Err(e) => {
                return Err(e);
            },
        };
        if prefix != TAG_BULK {
            return Err(
                Error::UnexpectedSign {
                    expected: TAG_BULK as char,
                    found: prefix as char,
                    pos: self.pos,
                },
            );
        }
        let _tag = match self.next_char() {
            Ok(b) => b,
            Err(e) => {
                return Err(e);
            },
        };
        let line = match self.read_to_end() {
            Ok(l) => l,
            Err(e) => {
                return Err(e);
            },
        };
        let len = match parse_i64(&line) {
            Ok(v) => v,
            Err(e) => {
                return Err(e);
            },
        };
        if len > MAX_BULK_STRING_SIZE as i64 {
            return Err(Error::BulkStringOverflow);
        }
        if len == -1 {
            return Ok(None);
        }
        if len < 0 {
            return Err(Error::ParseIntError);
        }
        let l = len as usize;
        if self.input.len() - self.pos < l + 2 {
            return Err(Error::Eof);
        }
        if self.input[self.pos + l] == CR && self.input[self.pos + l + 1] == LF {
            let payload = match self.skip(l) {
                Ok(p) => p,
                Err(e) => {
                    return Err(e);
                },
            };
            let _crlf = match self.skip(2) {
                Ok(c) => c,
                Err(e) => {
                    return Err(e);
                },
            };
            Ok(Some(payload))
        } else {
            match self.find_crlf_from(self.pos) {
                Some(k) => {
                    proof {
                        lemma_find_crlf(self.inp(), self.off());
                    }
                    Err(Error::WrongSizeOfBulkString { expected: l, found: k - self.pos })
                },
                None => Err(Error::Eof),
            }
        }
    }

    /// Read an `*` header: `Some(count)` for a non-negative declared
    /// count, `None` for the null array `*-1\r\n`. A wrong tag or an
    /// empty input is rejected without consuming anything.
    pub fn parse_array_header(&mut self) -> (r: Result<Option<i64>, Error>)
        requires
            old(self).wf(),
        ensures
            final(self).inp() == old(self).inp(),
            final(self).wf(),
            match r {
                Ok(h) => dec_count_at(old(self).inp(), old(self).off()) == CountRes::Count(
                    (match h {
                        Some(c) => Some(c as int),
                        None => None,
                    }),
                    final(self).off(),
                ) && old(self).off() < final(self).off() && (h matches Some(c) ==> c >= 0),
                Err(e) => dec_count_at(old(self).inp(), old(self).off()) == CountRes::CountErr(e)
                    && ((old(self).off() >= old(self).inp().len() || old(self).inp()[old(
                        self,
                    ).off()] != TAG_ARRAY) ==> final(self).off() == old(self).off()),
            },
    {
        let prefix = match self.peek_char() {
            Ok(b) => b,
            Err(e) => {
                return Err(e);
            },
        };
        if prefix != TAG_ARRAY {
            return Err(
                Error::UnexpectedSign {
                    expected: TAG_ARRAY as char,
                    found: prefix as char,
                    pos: self.pos,
                },
            );
        }
        let _tag = match self.next_char() {
            Ok(b) => b,
            Err(e) => {
                return Err(e);
            },
        };
        let line = match self.read_to_end() {
            Ok(l) => l,
            Err(e) => {
                return Err(e);
            },
        };
        let cnt = match parse_i64(&line) {
            Ok(c) => c,
            Err(e) => {
                return Err(e);
            },
        };
        if cnt == -1 {
            return Ok(None);
        }
        if cnt < 0 {
            return Err(Error::ParseIntError);
        }
        Ok(Some(cnt))
    }

    /// Read one frame of any type, dispatching on its leading tag. An
    /// empty input, or one led by no legal tag, is rejected without
    /// consuming anything.
    pub fn parse_value(&mut self) -> (r: Result<RESPType, Error>)
        requires
            old(self).wf(),
        ensures
            final(self).inp() == old(self).inp(),
            final(self).wf(),
            match r {
                Ok(v) => dec_at(old(self).inp(), old(self).off()) == DecRes::Val(
                    v.deep(),
                    final(self).off(),
                ) && old(self).off() < final(self).off(),
                Err(e) => dec_at(old(self).inp(), old(self).off()) == DecRes::DecErr(e)
                    && ((old(self).off() >= old(self).inp().len() || !is_frame_tag(
                        old(self).inp()[old(self).off()],
                    )) ==> final(self).off() == old(self).off()),
            },
        decreases self.inp().len() - self.off(),
    {
        let prefix = match self.peek_char() {
            Ok(b) => b,
            Err(e) => {
                return Err(e);
            },
        };
        if prefix == TAG_SIMPLE {
            match self.parse_simple_string() {
                Ok(v) => Ok(RESPType::SimpleString(v)),
                Err(e) => Err(e),
            }
        } else if prefix == TAG_ERROR {
            match self.parse_error() {
                Ok(v) => Ok(RESPType::Error(v)),
                Err(e) => Err(e),
            }
        } else if prefix == TAG_INTEGER {
            match self.parse_int() {
                Ok(v) => Ok(RESPType::Integer(v)),
                Err(e) => Err(e),
            }
        } else if prefix == TAG_BULK {
            match self.parse_bytes() {
                Ok(Some(b)) => Ok(RESPType::BulkString(b)),
                Ok(None) => Ok(RESPType::Null),
                Err(e) => Err(e),
            }
        } else if prefix == TAG_ARRAY {
            let ghost s = self.inp();
            let ghost p0 = self.off();
            let header = match self.parse_array_header() {
                Ok(h) => h,
                Err(e) => {
                    return Err(e);
                },
            };
            let cnt = match header {
                Some(c) => c,
                None => {
                    return Ok(RESPType::Null);
                },
            };
            let ghost p2 = self.off();
            let mut elems: Vec<RESPType> = Vec::new();
            let mut k: i64 = 0;
            proof {
                assert(dec_array_at(s, p0) == (match dec_elems(s, p2, cnt as int) {
                    ElemsRes::Elems(vs, end) => DecRes::Val(ValueModel::Array(vs), end),
                    ElemsRes::ElemsErr(e) => DecRes::DecErr(e),
                }));
                assert(deep_elems(elems@) =~= Seq::<ValueModel>::empty());
                if let ElemsRes::Elems(vs, e) = dec_elems(s, p2, cnt as int) {
                    assert(deep_elems(elems@) + vs =~= vs);
                }
            }
            while k < cnt
                invariant
                    0 <= k <= cnt,
                    self.wf(),
                    self.inp() == s,
                    s == old(self).inp(),
                    p0 == old(self).off(),
                    0 <= p0 < s.len(),
                    s[p0] == TAG_ARRAY,
                    p0 < p2 <= self.off(),
                    dec_at(s, p0) == dec_array_at(s, p0),
                    dec_array_at(s, p0) == (match dec_elems(s, p2, cnt as int) {
                        ElemsRes::Elems(vs, end) => DecRes::Val(ValueModel::Array(vs), end),
                        ElemsRes::ElemsErr(e) => DecRes::DecErr(e),
                    }),
                    dec_elems(s, p2, cnt as int) == (match dec_elems(
                        s,
                        self.off(),
                        cnt - k,
                    ) {
                        ElemsRes::Elems(vs, e) => ElemsRes::Elems(deep_elems(elems@) + vs, e),
                        ElemsRes::ElemsErr(e) => ElemsRes::ElemsErr(e),
                    }),
                decreases cnt - k,
            {
                let ghost off_k = self.off();
                let v = match self.parse_value() {
                    Ok(v) => v,
                    Err(e) => {
                        return Err(e);
                    },
                };
                proof {
                    let ghost off_k1 = self.off();
                    assert(dec_at(s, off_k) == DecRes::Val(v.deep(), off_k1));
                    crate::value::lemma_deep_elems_snoc(elems@, v);
                    if let ElemsRes::Elems(vs, e) = dec_elems(s, off_k1, cnt - k - 1) {
                        assert((deep_elems(elems@) + (seq![v.deep()] + vs)) =~= (deep_elems(
                            elems@,
                        ) + seq![v.deep()]) + vs);
                    }
                }
                elems.push(v);
                k = k + 1;
            }
            proof {
                assert(dec_elems(s, self.off(), 0) == ElemsRes::Elems(
                    Seq::<ValueModel>::empty(),
                    self.off(),
                ));
                assert(deep_elems(elems@) + Seq::<ValueModel>::empty() =~= deep_elems(elems@));
            }
            Ok(RESPType::Array(elems))
        } else {
            Err(Error::ExpectedSign(self.pos))
        }
    }
}

/// Decode one complete RESP value from the buffer; bytes left over after
/// it are an error, not silently ignored.
pub fn decode(input: Vec<u8>) -> (r: Result<RESPType, Error>)
    ensures
        match r {
            Ok(v) => dec_top(input@) == Result::<ValueModel, Error>::Ok(v.deep()),
            Err(e) => dec_top(input@) == Result::<ValueModel, Error>::Err(e),
        },
{
    let mut de = Deserializer::from_str(input);
    let v = match de.parse_value() {
        Ok(v) => v,
        Err(e) => {
            return Err(e);
        },
    };
    if de.at_end() {
        Ok(v)
    } else {
        Err(Error::TrailingCharacters)
    }
}

} // verus!

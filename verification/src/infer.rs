//! The column inference driver: each column's rank is the maximum rank
//! observed over a bounded prefix of its tokens. The sample window is a
//! fixed fraction (one tenth) of the overall buffer capacity constant,
//! not of the column's own length.

use vstd::prelude::*;

use crate::buffer::{TypedBuffer, Writable};
use crate::classify::{
    first_phase, is_bool_token, is_float_token, is_int_token, StageOne,
};
use crate::numeric::{
    fits_i128, fits_i32, fits_i64, int_token_val, lemma_int_shape_parseable, resolve_int,
};
use crate::rank::{
    lemma_seq_max_code_membership, lemma_seq_max_code_resolved, seq_max_code, Codes,
};

verus! {

/// The capacity constant bounding a buffer, assumed given by the
/// surrounding storage layer.
pub const BUFFER_SIZE: usize = 1024;

/// How many leading tokens of a column are examined to infer its rank:
/// one tenth of the capacity constant.
pub const SAMPLE_WINDOW: usize = BUFFER_SIZE / 10;

/// The non-recoverable failures of the inference pass: a numeric token
/// whose magnitude exceeds the widest supported width, and a column whose
/// sample holds no token at all.
#[derive(Clone, Copy, Debug, PartialEq, Eq, Structural)]
pub enum InferError {
    IntegerOverflow,
    EmptyColumn,
}

/// Whether a token cannot abort inference: every token except an
/// integer-shaped one whose magnitude exceeds the widest supported width.
pub open spec fn token_ok(t: Seq<char>) -> bool {
    is_float_token(t) || !is_int_token(t) || fits_i128(int_token_val(t))
}

/// The rank a single token contributes to its column's sample, after
/// classification and width resolution; meaningful only under `token_ok`.
pub open spec fn token_code(t: Seq<char>) -> Codes {
    if is_float_token(t) {
        Codes::Float32
    } else if is_int_token(t) {
        if fits_i32(int_token_val(t)) {
            Codes::Int32
        } else if fits_i64(int_token_val(t)) {
            Codes::Int64
        } else {
            Codes::Int128
        }
    } else if is_bool_token(t) {
        Codes::Boolean
    } else if t.len() == 0 {
        Codes::Null
    } else {
        Codes::Any
    }
}

/// The sampled prefix of a column's tokens: the whole column when it is
/// shorter than the window.
pub open spec fn sample_of(b: Seq<Seq<char>>) -> Seq<Seq<char>> {
    if b.len() <= SAMPLE_WINDOW {
        b
    } else {
        b.take(SAMPLE_WINDOW as int)
    }
}

/// The per-token ranks of a token sequence.
pub open spec fn codes_of(ts: Seq<Seq<char>>) -> Seq<Codes> {
    Seq::new(ts.len(), |i: int| token_code(ts[i]))
}

/// Whether inference succeeds on a column: it has at least one token and
/// no sampled token overflows the widest width.
pub open spec fn column_ok(b: Seq<Seq<char>>) -> bool {
    b.len() > 0 && forall|i: int|
        0 <= i < sample_of(b).len() ==> token_ok(#[trigger] sample_of(b)[i])
}

/// The resolved rank of a column: the maximum rank over its sample.
pub open spec fn column_code_spec(b: Seq<Seq<char>>) -> Codes {
    seq_max_code(codes_of(sample_of(b)))
}

/// The error a failing column surfaces: an empty column is a
/// configuration error, any other failure is an integer overflow.
pub open spec fn column_err(b: Seq<Seq<char>>) -> InferError {
    if b.len() == 0 {
        InferError::EmptyColumn
    } else {
        InferError::IntegerOverflow
    }
}

/// The character sequences of a column's tokens.
pub open spec fn tokens_view(b: Seq<String>) -> Seq<Seq<char>> {
    Seq::new(b.len(), |i: int| b[i]@)
}

/// Width resolution for a float-shaped token. The first rung of the
/// escalation ladder is 32-bit parsing, and the standard library's float
/// parser accepts every token of the float shape (an out-of-range
/// magnitude rounds to an infinity instead of failing), so the ladder
/// never escalates past its first rung and never overflows.
pub fn resolve_float(cell: &str) -> (r: Codes)
    requires
        is_float_token(cell@),
    ensures
        r == Codes::Float32,
{
    Codes::Float32
}

/// The rank one token contributes: classification, then width resolution
/// for the numeric categories.
fn token_code_exec(word: &str) -> (r: Result<Codes, InferError>)
    ensures
        token_ok(word@) ==> (r matches Ok(c) && c == token_code(word@)),
        !token_ok(word@) ==> (r matches Err(e) && e == InferError::IntegerOverflow),
{
    match first_phase(word) {
        StageOne::Float(text) => Ok(resolve_float(text)),
        StageOne::Int(text) => {
            proof {
                lemma_int_shape_parseable(word@);
            }
            match resolve_int(text) {
                Ok(itype) => Ok(Codes::from(itype)),
                Err(e) => Err(e),
            }
        },
        StageOne::Boolean(_) => Ok(Codes::Boolean),
        StageOne::Any(text) => {
            if text.unicode_len() == 0 {
                Ok(Codes::Null)
            } else {
                Ok(Codes::Any)
            }
        },
    }
}

/// The per-dataset collection of raw per-column token buffers.
pub struct ParsedWords {
    pub buffers: Vec<TypedBuffer<String>>,
}

impl Default for ParsedWords {
    fn default() -> (r: Self)
        ensures
            r.buffers@.len() == 0,
    {
        ParsedWords { buffers: Vec::new() }
    }
}

impl ParsedWords {
    /// The character sequences of column `i`'s tokens.
    pub open spec fn col_tokens(&self, i: int) -> Seq<Seq<char>> {
        tokens_view(self.buffers@[i]@)
    }

    /// Inference succeeds on every column before position `n`.
    pub open spec fn all_ok_to(&self, n: int) -> bool {
        forall|i: int| 0 <= i < n ==> column_ok(#[trigger] self.col_tokens(i))
    }

    /// Appends one token buffer per column, each holding that column's
    /// tokens in input order.
    pub fn write_words(&mut self, data: Vec<Vec<String>>)
        ensures
            final(self).buffers@.len() == old(self).buffers@.len() + data@.len(),
            forall|i: int|
                0 <= i < old(self).buffers@.len() ==> final(self).buffers@[i] == old(
                    self,
                ).buffers@[i],
            forall|i: int|
                0 <= i < data@.len() ==> final(self).buffers@[old(self).buffers@.len() + i]@
                    == (#[trigger] data@[i])@,
    {
        let ghost orig = self.buffers@;
        let ghost dat = data@;
        let mut d = data;
        while d.len() > 0
            invariant
                dat.len() >= d@.len(),
                self.buffers@.len() == orig.len() + dat.len() - d@.len(),
                d@ == dat.skip(dat.len() - d@.len()),
                forall|i: int| 0 <= i < orig.len() ==> self.buffers@[i] == orig[i],
                forall|i: int|
                    0 <= i < dat.len() - d@.len() ==> self.buffers@[orig.len() + i]@ == (
                    #[trigger] dat[i])@,
            decreases d@.len(),
        {
            let ghost done = dat.len() - d@.len();
            let col = d.remove(0);
            proof {
                assert(col == dat[done]);
                assert(d@ =~= dat.skip(done + 1));
            }
            let mut buffer = TypedBuffer::new();
            buffer.write(Writable::Arr(col));
            self.buffers.push(buffer);
        }
    }

    /// Infers one resolved rank per column: the maximum rank over that
    /// column's sampled tokens. Fails on the first column that is empty
    /// or holds a sampled integer token beyond the widest width, with the
    /// error that column surfaces.
    pub fn generate_codes(&self) -> (r: Result<Vec<Codes>, InferError>)
        ensures
            (r is Ok) <==> self.all_ok_to(self.buffers@.len() as int),
            r matches Ok(codes) ==> codes@.len() == self.buffers@.len() && (forall|i: int|
                0 <= i < self.buffers@.len() ==> #[trigger] codes@[i] == column_code_spec(
                    self.col_tokens(i),
                )),
            r matches Err(e) ==> (exists|j: int|
                0 <= j < self.buffers@.len() && !column_ok(#[trigger] self.col_tokens(j))
                    && self.all_ok_to(j) && e == column_err(self.col_tokens(j))),
    {
        let m = self.buffers.len();
        let mut codes: Vec<Codes> = Vec::new();
        let mut c: usize = 0;
        while c < m
            invariant
                m as nat == self.buffers@.len(),
                c <= m,
                codes@.len() == c as nat,
                self.all_ok_to(c as int),
                forall|i: int|
                    0 <= i < c ==> #[trigger] codes@[i] == column_code_spec(self.col_tokens(i)),
            decreases m - c,
        {
            let buf: &TypedBuffer<String> = &self.buffers[c];
            let total = buf.get_offset();
            let count = if total < SAMPLE_WINDOW {
                total
            } else {
                SAMPLE_WINDOW
            };
            let ghost ts = tokens_view(buf@);
            let ghost samp = sample_of(ts);
            proof {
                assert(ts.len() == total as nat);
                if ts.len() <= SAMPLE_WINDOW {
                    assert(samp =~= ts);
                }
                assert(samp.len() == count as nat);
            }
            if count == 0 {
                proof {
                    assert(!column_ok(self.col_tokens(c as int)));
                }
                return Err(InferError::EmptyColumn);
            }
            let mut cur: Codes;
            match token_code_exec(buf.get(0).as_str()) {
                Ok(cc) => {
                    cur = cc;
                },
                Err(e) => {
                    proof {
                        assert(sample_of(self.col_tokens(c as int))[0] == ts[0]);
                        assert(!column_ok(self.col_tokens(c as int)));
                    }
                    return Err(e);
                },
            }
            let mut j: usize = 1;
            proof {
                assert(codes_of(samp.take(1)) =~= seq![token_code(samp[0])]);
            }
            while j < count
                invariant
                    m as nat == self.buffers@.len(),
                    c < m,
                    codes@.len() == c as nat,
                    self.all_ok_to(c as int),
                    forall|i: int|
                        0 <= i < c ==> #[trigger] codes@[i] == column_code_spec(
                            self.col_tokens(i),
                        ),
                    buf == self.buffers@[c as int],
                    ts == tokens_view(buf@),
                    samp == sample_of(ts),
                    count as nat == samp.len(),
                    count <= buf@.len(),
                    1 <= j <= count,
                    forall|k: int| 0 <= k < j ==> token_ok(#[trigger] samp[k]),
                    cur == seq_max_code(codes_of(samp.take(j as int))),
                decreases count - j,
            {
                match token_code_exec(buf.get(j).as_str()) {
                    Ok(cc) => {
                        proof {
                            assert(samp[j as int] == ts[j as int]);
                            assert(codes_of(samp.take(j + 1)).drop_last() =~= codes_of(
                                samp.take(j as int),
                            ));
                            assert(codes_of(samp.take(j + 1)).last() == token_code(
                                samp[j as int],
                            ));
                        }
                        cur = cur.max_code(cc);
                    },
                    Err(e) => {
                        proof {
                            assert(samp[j as int] == ts[j as int]);
                            assert(!token_ok(sample_of(self.col_tokens(c as int))[j as int]));
                            assert(!column_ok(self.col_tokens(c as int)));
                        }
                        return Err(e);
                    },
                }
                j += 1;
            }
            proof {
                assert(samp.take(count as int) =~= samp);
                assert(column_ok(self.col_tokens(c as int)));
                assert(cur == column_code_spec(self.col_tokens(c as int)));
            }
            codes.push(cur);
            c += 1;
        }
        Ok(codes)
    }

    /// Pairs each column's token buffer with its resolved rank, in column
    /// order; fails exactly as rank inference does.
    pub fn iter_with_code(self) -> (r: Result<Vec<(Codes, TypedBuffer<String>)>, InferError>)
        ensures
            (r is Ok) <==> self.all_ok_to(self.buffers@.len() as int),
            r matches Ok(v) ==> v@.len() == self.buffers@.len() && (forall|i: int|
                0 <= i < v@.len() ==> (#[trigger] v@[i]).1 == self.buffers@[i] && v@[i].0
                    == column_code_spec(self.col_tokens(i))),
            r matches Err(e) ==> (exists|j: int|
                0 <= j < self.buffers@.len() && !column_ok(#[trigger] self.col_tokens(j))
                    && self.all_ok_to(j) && e == column_err(self.col_tokens(j))),
    {
        let codes = match self.generate_codes() {
            Ok(cs) => cs,
            Err(e) => {
                return Err(e);
            },
        };
        let ghost origbufs = self.buffers@;
        let mut bufs = self.buffers;
        let mut out: Vec<(Codes, TypedBuffer<String>)> = Vec::new();
        let n = codes.len();
        let mut i: usize = 0;
        while i < n
            invariant
                n as nat == codes@.len(),
                codes@.len() == origbufs.len(),
                i <= n,
                bufs@ == origbufs.skip(i as int),
                out@.len() == i as nat,
                forall|k: int|
                    0 <= k < i ==> (#[trigger] out@[k]).1 == origbufs[k] && out@[k].0
                        == codes@[k],
            decreases n - i,
        {
            let b = bufs.remove(0);
            proof {
                assert(b == origbufs[i as int]);
                assert(bufs@ =~= origbufs.skip(i + 1));
            }
            let code = codes[i];
            out.push((code, b));
            i += 1;
        }
        Ok(out)
    }
}

/// An integer token parsable at a supported width but at none narrower
/// contributes exactly the rank associated with that width.
pub proof fn lemma_int_width_rank(t: Seq<char>)
    requires
        is_int_token(t),
        !is_float_token(t),
        fits_i128(int_token_val(t)),
    ensures
        fits_i32(int_token_val(t)) ==> token_code(t) == Codes::Int32,
        !fits_i32(int_token_val(t)) && fits_i64(int_token_val(t)) ==> token_code(t)
            == Codes::Int64,
        !fits_i64(int_token_val(t)) ==> token_code(t) == Codes::Int128,
{
}

/// Re-running inference on the same token sample always yields the same
/// rank: the resolved rank is a pure function of the sampled tokens, and
/// no state carries across columns or runs.
pub proof fn lemma_inference_idempotent(a: Seq<Seq<char>>, b: Seq<Seq<char>>)
    requires
        a == b,
    ensures
        column_code_spec(a) == column_code_spec(b),
{
}

/// The resolved rank of a non-empty column is well-defined: it is the
/// rank of one of the sampled tokens, every sampled token's rank is at or
/// below it, and it is never one of the transient sentinel ranks.
pub proof fn lemma_column_code_resolved(b: Seq<Seq<char>>)
    requires
        b.len() > 0,
    ensures
        column_code_spec(b).is_resolved(),
        forall|i: int|
            0 <= i < sample_of(b).len() ==> token_code(#[trigger] sample_of(b)[i]).spec_le(
                column_code_spec(b),
            ),
        exists|i: int|
            0 <= i < sample_of(b).len() && token_code(#[trigger] sample_of(b)[i])
                == column_code_spec(b),
{
    let cs = codes_of(sample_of(b));
    assert(forall|i: int| 0 <= i < cs.len() ==> (#[trigger] cs[i]).is_resolved());
    lemma_seq_max_code_membership(cs);
    lemma_seq_max_code_resolved(cs);
    assert forall|i: int|
        0 <= i < sample_of(b).len() implies token_code(#[trigger] sample_of(b)[i]).spec_le(
        column_code_spec(b),
    ) by {
        assert(cs[i] == token_code(sample_of(b)[i]));
        assert(cs[i].spec_le(seq_max_code(cs)));
    }
    let w = choose|w: int| 0 <= w < cs.len() && cs[w] == seq_max_code(cs);
    assert(token_code(sample_of(b)[w]) == column_code_spec(b));
}

} // verus!

//! Line reconstruction: turns a raw byte stream into logical text lines.
//!
//! The update subprocess interleaves carriage-return-redrawn progress meters
//! with ordinary log output on the same stream, without newline framing.
//! The reconstructor therefore treats every control byte as a flush signal,
//! and additionally segments `label:label`-shaped runs at a colon: when the
//! text before the first colon reappears as the tail of the text after it,
//! the buffer is cut just past that tail and the left part is emitted as a
//! finished line.

use vstd::prelude::*;

verus! {

use crate::byte_char;
use crate::printable;
use crate::text::chars_to_string;
use crate::text::find_char;
use crate::text::first_index;
use crate::text::lemma_first_index;
use crate::text::vec_skip;
use crate::text::vec_take;

/// The split point of the `label:label` collapsing rule: the position just
/// past the reappearing label when the text before the first colon equals
/// the tail of the text after it, and 0 when there is no such run.
pub open spec fn colon_cut(s: Seq<char>) -> int {
    let i = first_index(s, ':');
    if i < s.len() {
        let l = s.take(i);
        let r = s.skip(i + 1);
        if r.len() >= l.len() && r.skip(r.len() - l.len()) == l {
            r.len() as int + 1
        } else {
            0
        }
    } else {
        0
    }
}

/// One reconstructor step: the lines emitted for one incoming byte (none or
/// one) and the buffer afterwards.
pub open spec fn rec_step(buf: Seq<char>, b: u8) -> (Seq<Seq<char>>, Seq<char>) {
    if !printable(b) {
        if buf.len() > 0 {
            (seq![buf], Seq::<char>::empty())
        } else {
            (Seq::<Seq<char>>::empty(), Seq::<char>::empty())
        }
    } else if byte_char(b) == ':' {
        let cut = colon_cut(buf);
        if cut > 0 {
            (seq![buf.take(cut)], buf.skip(cut).push(':'))
        } else {
            (Seq::<Seq<char>>::empty(), buf.push(':'))
        }
    } else {
        (Seq::<Seq<char>>::empty(), buf.push(byte_char(b)))
    }
}

/// The reconstructor run over a whole byte sequence, starting from `buf`:
/// all lines emitted, and the buffer left at the end.
pub open spec fn rec_run(buf: Seq<char>, bytes: Seq<u8>) -> (Seq<Seq<char>>, Seq<char>)
    decreases bytes.len(),
{
    if bytes.len() == 0 {
        (Seq::<Seq<char>>::empty(), buf)
    } else {
        let first = rec_step(buf, bytes[0]);
        let rest = rec_run(first.1, bytes.drop_first());
        (first.0 + rest.0, rest.1)
    }
}

/// All lines of a line sequence, concatenated.
pub open spec fn lines_concat(ls: Seq<Seq<char>>) -> Seq<char>
    decreases ls.len(),
{
    if ls.len() == 0 {
        Seq::<char>::empty()
    } else {
        ls[0] + lines_concat(ls.drop_first())
    }
}

/// The printable characters of a byte stream, in order; control bytes are
/// dropped.
pub open spec fn printable_chars(bytes: Seq<u8>) -> Seq<char>
    decreases bytes.len(),
{
    if bytes.len() == 0 {
        Seq::<char>::empty()
    } else if printable(bytes[0]) {
        seq![byte_char(bytes[0])] + printable_chars(bytes.drop_first())
    } else {
        printable_chars(bytes.drop_first())
    }
}

proof fn lemma_lines_concat_one(l: Seq<char>)
    ensures
        lines_concat(seq![l]) == l,
{
    assert(seq![l].drop_first() =~= Seq::<Seq<char>>::empty());
    assert(lines_concat(Seq::<Seq<char>>::empty()) == Seq::<char>::empty());
    assert(lines_concat(seq![l]) =~= l);
}

/// A run over a single byte is exactly one step.
proof fn lemma_rec_run_one(buf: Seq<char>, b: u8)
    ensures
        rec_run(buf, seq![b]) == rec_step(buf, b),
{
    let first = rec_step(buf, b);
    assert(seq![b].drop_first() =~= Seq::<u8>::empty());
    assert(rec_run(first.1, Seq::<u8>::empty()) == (Seq::<Seq<char>>::empty(), first.1));
    assert(first.0 + Seq::<Seq<char>>::empty() =~= first.0);
}

proof fn lemma_lines_concat_app(a: Seq<Seq<char>>, b: Seq<Seq<char>>)
    ensures
        lines_concat(a + b) == lines_concat(a) + lines_concat(b),
    decreases a.len(),
{
    if a.len() == 0 {
        assert(a + b =~= b);
        assert(lines_concat(a) + lines_concat(b) =~= lines_concat(b));
    } else {
        assert((a + b).drop_first() =~= a.drop_first() + b);
        lemma_lines_concat_app(a.drop_first(), b);
        assert(lines_concat(a + b) =~= lines_concat(a) + lines_concat(b));
    }
}

/// One step neither loses nor invents printable characters.
proof fn lemma_step_conserves(buf: Seq<char>, b: u8)
    ensures
        lines_concat(rec_step(buf, b).0) + rec_step(buf, b).1 == buf + (if printable(b) {
            seq![byte_char(b)]
        } else {
            Seq::<char>::empty()
        }),
{
    let s = rec_step(buf, b);
    if !printable(b) {
        if buf.len() > 0 {
            lemma_lines_concat_one(buf);
        }
        assert(lines_concat(s.0) + s.1 =~= buf);
    } else if byte_char(b) == ':' {
        let cut = colon_cut(buf);
        if cut > 0 {
            proof_colon_cut_bounds(buf);
            lemma_lines_concat_one(buf.take(cut));
            assert(lines_concat(s.0) + s.1 =~= buf + seq![':']);
        } else {
            assert(lines_concat(s.0) + s.1 =~= buf + seq![':']);
        }
    } else {
        assert(lines_concat(s.0) + s.1 =~= buf + seq![byte_char(b)]);
    }
}

/// The cut always lies inside the buffer.
proof fn proof_colon_cut_bounds(s: Seq<char>)
    ensures
        0 <= colon_cut(s) <= s.len(),
{
    lemma_first_index(s, ':');
}

/// Feeding `b1` then `b2` emits the same lines and leaves the same buffer
/// as feeding `b1 + b2` at once: chunk boundaries never change the result.
pub proof fn lemma_chunking_irrelevant(buf: Seq<char>, b1: Seq<u8>, b2: Seq<u8>)
    ensures
        rec_run(buf, b1 + b2).0 == rec_run(buf, b1).0 + rec_run(rec_run(buf, b1).1, b2).0,
        rec_run(buf, b1 + b2).1 == rec_run(rec_run(buf, b1).1, b2).1,
    decreases b1.len(),
{
    if b1.len() == 0 {
        assert(b1 + b2 =~= b2);
        assert(rec_run(buf, b1).0 + rec_run(buf, b2).0 =~= rec_run(buf, b2).0);
    } else {
        let first = rec_step(buf, b1[0]);
        assert((b1 + b2)[0] == b1[0]);
        assert((b1 + b2).drop_first() =~= b1.drop_first() + b2);
        lemma_chunking_irrelevant(first.1, b1.drop_first(), b2);
        assert(rec_run(buf, b1 + b2).0 =~= rec_run(buf, b1).0 + rec_run(
            rec_run(buf, b1).1,
            b2,
        ).0);
    }
}

/// Conservation: starting from `buf`, the concatenation of all emitted lines
/// followed by the final buffer is exactly `buf` followed by the printable
/// characters of the input.
pub proof fn lemma_run_conserves(buf: Seq<char>, bytes: Seq<u8>)
    ensures
        lines_concat(rec_run(buf, bytes).0) + rec_run(buf, bytes).1 == buf + printable_chars(
            bytes,
        ),
    decreases bytes.len(),
{
    if bytes.len() == 0 {
        assert(lines_concat(rec_run(buf, bytes).0) + rec_run(buf, bytes).1 =~= buf
            + printable_chars(bytes));
    } else {
        let first = rec_step(buf, bytes[0]);
        let rest = rec_run(first.1, bytes.drop_first());
        assert(rec_run(buf, bytes).0 == first.0 + rest.0);
        assert(rec_run(buf, bytes).1 == rest.1);
        lemma_lines_concat_app(first.0, rest.0);
        lemma_run_conserves(first.1, bytes.drop_first());
        lemma_step_conserves(buf, bytes[0]);
        let head = if printable(bytes[0]) {
            seq![byte_char(bytes[0])]
        } else {
            Seq::<char>::empty()
        };
        assert(lines_concat(first.0) + first.1 == buf + head);
        assert(lines_concat(rest.0) + rest.1 == first.1 + printable_chars(bytes.drop_first()));
        assert(printable_chars(bytes) =~= head + printable_chars(bytes.drop_first()));
        assert(lines_concat(rec_run(buf, bytes).0) + rec_run(buf, bytes).1 =~= (lines_concat(
            first.0,
        ) + lines_concat(rest.0)) + rest.1);
        assert((lines_concat(first.0) + lines_concat(rest.0)) + rest.1 =~= lines_concat(first.0)
            + (lines_concat(rest.0) + rest.1));
        assert(lines_concat(first.0) + (first.1 + printable_chars(bytes.drop_first())) =~= (buf
            + head) + printable_chars(bytes.drop_first()));
        assert((buf + head) + printable_chars(bytes.drop_first()) =~= buf + printable_chars(
            bytes,
        ));
    }
}

/// From an empty buffer, lines plus leftover buffer are exactly the printable
/// characters of the whole input: nothing printable is lost or invented.
pub proof fn lemma_reconstruction_conserves(bytes: Seq<u8>)
    ensures
        lines_concat(rec_run(Seq::<char>::empty(), bytes).0) + rec_run(
            Seq::<char>::empty(),
            bytes,
        ).1 == printable_chars(bytes),
{
    lemma_run_conserves(Seq::<char>::empty(), bytes);
    assert(Seq::<char>::empty() + printable_chars(bytes) =~= printable_chars(bytes));
}

/// The split point of the collapsing rule for the buffer `v`, matching
/// `colon_cut`.
#[verifier::loop_isolation(false)]
fn colon_cut_exec(v: &Vec<char>) -> (cut: usize)
    ensures
        cut == colon_cut(v@),
        cut <= v@.len(),
{
    proof {
        lemma_first_index(v@, ':');
    }
    let i = find_char(v, ':');
    if i < v.len() {
        let llen: usize = i;
        let rlen: usize = v.len() - i - 1;
        if rlen >= llen {
            // Compare the last `llen` characters with the first `llen`.
            let start: usize = v.len() - llen;
            let mut k: usize = 0;
            let mut equal = true;
            while k < llen
                invariant
                    k <= llen,
                    llen <= i < v@.len(),
                    start == v@.len() - llen,
                    equal ==> (forall|j: int| 0 <= j < k ==> #[trigger] v@[start + j] == v@[j]),
                    !equal ==> (exists|j: int| 0 <= j < llen && #[trigger] v@[start + j] != v@[j]),
                decreases llen - k,
            {
                if v[start + k] != v[k] {
                    equal = false;
                    proof {
                        assert(v@[start + k as int] != v@[k as int]);
                    }
                }
                k = k + 1;
            }
            proof {
                let l = v@.take(i as int);
                let r = v@.skip(i as int + 1);
                if equal {
                    assert forall|j: int| 0 <= j < l.len() implies r.skip(r.len() - l.len())[j]
                        == l[j] by {
                        assert(v@[start + j] == v@[j]);
                        assert(r.skip(r.len() - l.len())[j] == v@[start + j]);
                    }
                    assert(r.skip(r.len() - l.len()) =~= l);
                } else {
                    assert(r.skip(r.len() - l.len()) != l) by {
                        let j = choose|j: int| 0 <= j < llen && #[trigger] v@[start + j] != v@[j];
                        assert(r.skip(r.len() - l.len())[j] != l[j]);
                    }
                }
            }
            if equal {
                rlen + 1
            } else {
                0
            }
        } else {
            0
        }
    } else {
        0
    }
}

/// Incremental line reconstructor. Its view is the buffer of characters not
/// yet emitted as a line.
pub struct LineReconstructor {
    buf: Vec<char>,
}

impl View for LineReconstructor {
    type V = Seq<char>;

    closed spec fn view(&self) -> Seq<char> {
        self.buf@
    }
}

impl LineReconstructor {
    /// A reconstructor with an empty buffer.
    pub fn new() -> (r: Self)
        ensures
            r@ == Seq::<char>::empty(),
    {
        LineReconstructor { buf: Vec::new() }
    }

    /// Feeds one byte; returns the completed line, if this byte finished one.
    pub fn push_byte(&mut self, b: u8) -> (line: Option<String>)
        ensures
            final(self)@ == rec_step(old(self)@, b).1,
            match line {
                Some(l) => rec_step(old(self)@, b).0 == seq![l@],
                None => rec_step(old(self)@, b).0 == Seq::<Seq<char>>::empty(),
            },
    {
        if !crate::is_printable(b) {
            if self.buf.len() > 0 {
                let s = chars_to_string(&self.buf);
                self.buf = Vec::new();
                Some(s)
            } else {
                None
            }
        } else {
            let c: char = b as char;
            if c == ':' {
                let cut = colon_cut_exec(&self.buf);
                if cut > 0 {
                    let left = vec_take(&self.buf, cut);
                    let mut right = vec_skip(&self.buf, cut);
                    right.push(':');
                    self.buf = right;
                    Some(chars_to_string(&left))
                } else {
                    self.buf.push(':');
                    None
                }
            } else {
                self.buf.push(c);
                None
            }
        }
    }

    /// Feeds a whole chunk of bytes; returns the lines completed by it.
    #[verifier::loop_isolation(false)]
pub fn push_chunk(&mut self, chunk: &[u8]) -> (lines: Vec<String>)
        ensures
            final(self)@ == rec_run(old(self)@, chunk@).1,
            lines.deep_view() == rec_run(old(self)@, chunk@).0,
    {
        let mut lines: Vec<String> = Vec::new();
        let mut i: usize = 0;
        while i < chunk.len()
            invariant
                i <= chunk@.len(),
                self@ == rec_run(old(self)@, chunk@.take(i as int)).1,
                lines.deep_view() == rec_run(old(self)@, chunk@.take(i as int)).0,
            decreases chunk@.len() - i,
        {
            let ghost prev = self@;
            let ghost done = chunk@.take(i as int);
            let line = self.push_byte(chunk[i]);
            if let Some(l) = line {
                lines.push(l);
            }
            i = i + 1;
            proof {
                lemma_chunking_irrelevant(old(self)@, done, seq![chunk@[i - 1]]);
                lemma_rec_run_one(prev, chunk@[i - 1]);
                assert(done + seq![chunk@[i - 1]] =~= chunk@.take(i as int));
                assert(lines.deep_view() =~= rec_run(old(self)@, chunk@.take(i as int)).0);
            }
        }
        proof {
            assert(chunk@.take(chunk@.len() as int) =~= chunk@);
        }
        lines
    }

    /// Flushes the remaining buffer at end of input, as a final line if it
    /// is not empty; the buffer is empty afterwards.
    pub fn finish(&mut self) -> (line: Option<String>)
        ensures
            final(self)@ == Seq::<char>::empty(),
            match line {
                Some(l) => l@ == old(self)@ && old(self)@.len() > 0,
                None => old(self)@.len() == 0,
            },
    {
        if self.buf.len() > 0 {
            let s = chars_to_string(&self.buf);
            self.buf = Vec::new();
            Some(s)
        } else {
            None
        }
    }
}

} // verus!

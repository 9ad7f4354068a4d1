//! The modules the language ships: `io`, `math` and `random`.
//!
//! A file here is a path and a text that the host handed over; what a program writes is
//! there for the host to take.

use crate::error::{err, res, ErrV, ErrorKind, QuinceError};
use crate::float::{floor, floored, magnitude, SIGN};
use crate::interp::api::{drawn, line_end, next_seed, wrapped};
use crate::interp::arith::{overflow, overflow_error};
use crate::interp::files::file_place;
use crate::interp::native::{arg, argument, checked_trunc, not_admitted, s_texts, s_truncated};
use crate::interp::state::{s_list, s_text, Interp, Out, SourceFile, SourceFileV, St};
use crate::lsp::rows::{rows, rows_of, text, vecs};
use crate::runtime::class::base;
use crate::runtime::heap::HeapV;
use crate::runtime::value::{Native, Value};
use crate::syntax::token::Span;
use crate::text::{cat2, cat3, chars_of, lemma_strs_push, string_of, strs};
use vstd::prelude::*;

verus! {

broadcast use lemma_strs_push;

// -- math ----------------------------------------------------------------------------------

/// What `floor` answers: the greatest int not above a number.
pub open spec fn s_floor(st: St, v: Value, span: Span) -> Result<Value, ErrV> {
    match base(st.heap, v) {
        Value::Int(n) => Ok(Value::Int(n)),
        Value::Float(bits) => s_truncated(floored(bits), span),
        _ => Err(not_admitted(st.heap, Native::Floor, 0, v, span)),
    }
}

/// What `abs` answers: a number without its sign.
pub open spec fn s_abs(st: St, v: Value, span: Span) -> Result<Value, ErrV> {
    match base(st.heap, v) {
        Value::Int(n) => if n == i64::MIN {
            Err(overflow(span))
        } else {
            Ok(
                Value::Int(
                    if n < 0 {
                        (-n) as i64
                    } else {
                        n
                    },
                ),
            )
        },
        Value::Float(bits) => Ok(Value::Float(magnitude(bits))),
        _ => Err(not_admitted(st.heap, Native::Abs, 0, v, span)),
    }
}

impl Interp {
    fn native_floor(&self, v: Value, span: Span) -> (r: Result<Value, QuinceError>)
        ensures
            res(r) == s_floor(self@, v, span),
    {
        match self.heap.base(v) {
            Value::Int(n) => Ok(Value::Int(n)),
            Value::Float(bits) => checked_trunc(floor(bits), span),
            _ => Err(self.not_admitted(Native::Floor, false, v, span)),
        }
    }

    fn native_abs(&self, v: Value, span: Span) -> (r: Result<Value, QuinceError>)
        ensures
            res(r) == s_abs(self@, v, span),
    {
        match self.heap.base(v) {
            Value::Int(n) => if n == i64::MIN {
                Err(overflow_error(span))
            } else {
                Ok(
                    Value::Int(
                        if n < 0 {
                            -n
                        } else {
                            n
                        },
                    ),
                )
            },
            Value::Float(bits) => Ok(
                Value::Float(
                    if bits >= SIGN {
                        bits - SIGN
                    } else {
                        bits
                    },
                ),
            ),
            _ => Err(self.not_admitted(Native::Abs, false, v, span)),
        }
    }
}

// -- random --------------------------------------------------------------------------------

/// What `next` answers: a random number that is not negative.
pub open spec fn s_next(st: St) -> Out<Value> {
    let seed = next_seed(st.rng);
    (St { rng: seed, ..st }, Ok(Value::Int((drawn(seed) / 2) as i64)))
}

/// What `seed` does.
pub open spec fn s_seed(st: St, v: Value, span: Span) -> Out<Value> {
    match base(st.heap, v) {
        Value::Int(n) => (St { rng: wrapped(n as int), ..st }, Ok(Value::Nil)),
        _ => (st, Err(not_admitted(st.heap, Native::Seed, 0, v, span))),
    }
}

impl Interp {
    fn native_next(&mut self) -> (r: Result<Value, QuinceError>)
        ensures
            (final(self)@, res(r)) == s_next(old(self)@),
    {
        let n: u64 = self.next_random();
        Ok(Value::Int((n / 2) as i64))
    }

    fn native_seed(&mut self, v: Value, span: Span) -> (r: Result<Value, QuinceError>)
        ensures
            (final(self)@, res(r)) == s_seed(old(self)@, v, span),
    {
        match self.heap.base(v) {
            Value::Int(n) => {
                let seed: u64 = if n >= 0 {
                    n as u64
                } else {
                    ((n - i64::MIN) as u64) + 0x8000_0000_0000_0000
                };
                assert(seed == wrapped(n as int)) by (nonlinear_arith)
                    requires
                        n >= 0 ==> seed == n,
                        n < 0 ==> seed == n + 0x1_0000_0000_0000_0000,
                        i64::MIN <= n <= i64::MAX,
                        wrapped(n as int) == (n as int % 0x1_0000_0000_0000_0000) as u64,
                ;
                self.set_seed(seed);
                Ok(Value::Nil)
            },
            _ => Err(self.not_admitted(Native::Seed, false, v, span)),
        }
    }
}

// -- io ---------------------------------------------------------------------------------------

/// A line without the line break it ends in.
pub open spec fn unbroken(line: Seq<char>) -> Seq<char> {
    if line.len() > 0 && line.last() == '\n' {
        let rest = line.drop_last();
        if rest.len() > 0 && rest.last() == '\r' {
            rest.drop_last()
        } else {
            rest
        }
    } else {
        line
    }
}

/// What `line` answers: the next line of the input, or nil at its end.
pub open spec fn s_line(st: St) -> Out<Value> {
    if st.input.len() == 0 {
        (st, Ok(Value::Nil))
    } else {
        let k = line_end(st.input, 0);
        let (st1, v) = s_text(St { input: st.input.skip(k), ..st }, unbroken(st.input.take(k)));
        (st1, Ok(v))
    }
}

/// The text an argument holds.
pub open spec fn text_in(h: HeapV, v: Value) -> Option<Seq<char>> {
    match base(h, v) {
        Value::Str(id) => Some(h.text(id)),
        _ => None,
    }
}

/// The report for a file that is not there.
pub open spec fn no_file(path: Seq<char>, span: Span) -> ErrV {
    err(ErrorKind::Io, "could not read `"@ + path + "`"@, span)
}

/// What a file holds.
pub open spec fn file_text(files: Seq<SourceFileV>, path: Seq<char>) -> Option<Seq<char>> {
    match file_place(files, path, 0) {
        Some(i) => Some(files[i].text),
        None => None,
    }
}

/// Files, one of them made to hold a text.
pub open spec fn file_put(files: Seq<SourceFileV>, path: Seq<char>, text: Seq<char>) -> Seq<SourceFileV> {
    match file_place(files, path, 0) {
        Some(i) => files.update(i, SourceFileV { path, text }),
        None => files.push(SourceFileV { path, text }),
    }
}

/// What the functions of `io` that take a path alone answer.
pub open spec fn s_asked_file(st: St, native: Native, v: Value, span: Span) -> Out<Value> {
    match text_in(st.heap, v) {
        None => (st, Err(not_admitted(st.heap, native, 0, v, span))),
        Some(path) => match file_text(st.files, path) {
            None => if native == Native::Exists {
                (st, Ok(Value::Bool(false)))
            } else {
                (st, Err(no_file(path, span)))
            },
            Some(text) => if native == Native::Exists {
                (st, Ok(Value::Bool(true)))
            } else if native == Native::Lines {
                let (st1, items) = s_texts(st, rows(text), 0, Seq::empty());
                let (st2, v) = s_list(st1, items);
                (st2, Ok(v))
            } else {
                let (st1, v) = s_text(st, text);
                (st1, Ok(v))
            },
        },
    }
}

/// What a file holds once a text was written to it, or added at its end.
pub open spec fn written(files: Seq<SourceFileV>, native: Native, path: Seq<char>, text: Seq<char>) -> Seq<char> {
    match file_text(files, path) {
        Some(held) => if native == Native::Append {
            held + text
        } else {
            text
        },
        None => text,
    }
}

/// What the functions of `io` that change a file do.
pub open spec fn s_put_file(st: St, native: Native, v: Value, w: Value, span: Span) -> Out<Value> {
    match text_in(st.heap, v) {
        None => (st, Err(not_admitted(st.heap, native, 0, v, span))),
        Some(path) => match text_in(st.heap, w) {
            None => (st, Err(not_admitted(st.heap, native, 1, w, span))),
            Some(text) => (
                St { files: file_put(st.files, path, written(st.files, native, path, text)), ..st },
                Ok(Value::Nil),
            ),
        },
    }
}

impl Interp {
    fn native_line(&mut self) -> (r: Result<Value, QuinceError>)
        ensures
            (final(self)@, res(r)) == s_line(old(self)@),
    {
        let whole = chars_of(self.input.as_str());
        if whole.len() == 0 {
            return Ok(Value::Nil);
        }
        let mut line = String::new();
        let _ = self.read_line(&mut line);
        let cs = chars_of(line.as_str());
        assert(cs@ =~= old(self)@.input.take(line_end(old(self)@.input, 0)));
        let mut n: usize = cs.len();
        if n > 0 && cs[n - 1] == '\n' {
            n -= 1;
            if n > 0 && cs[n - 1] == '\r' {
                n -= 1;
            }
        }
        let shown = string_of(&cs, 0, n);
        assert(shown@ =~= unbroken(cs@));
        Ok(self.new_text(shown))
    }

    fn text_in(&self, v: Value) -> (r: Option<String>)
        ensures
            (match r { Some(r) => Some(r@), None => None }) == text_in(self@.heap, v),
    {
        match self.heap.base(v) {
            Value::Str(id) => Some(self.heap.text(id)),
            _ => None,
        }
    }

    fn native_asked_file(&mut self, native: Native, v: Value, span: Span) -> (r: Result<Value, QuinceError>)
        ensures
            (final(self)@, res(r)) == s_asked_file(old(self)@, native, v, span),
    {
        let path = match self.text_in(v) {
            Some(path) => path,
            None => return Err(self.not_admitted(native, false, v, span)),
        };
        match self.find_file(path.as_str()) {
            None => if native == Native::Exists {
                Ok(Value::Bool(false))
            } else {
                Err(
                    QuinceError::new(
                        ErrorKind::Io,
                        cat3("could not read `", path.as_str(), "`"),
                        span,
                    ),
                )
            },
            Some(i) => {
                let held = self.files[i].text.clone();
                assert(held@ == self@.files[i as int].text);
                if native == Native::Exists {
                    Ok(Value::Bool(true))
                } else if native == Native::Lines {
                    let lines = lines_of(held.as_str());
                    let items = self.new_texts(lines);
                    Ok(self.new_list(items))
                } else {
                    Ok(self.new_text(held))
                }
            },
        }
    }

    fn native_put_file(&mut self, native: Native, v: Value, w: Value, span: Span) -> (r: Result<Value, QuinceError>)
        ensures
            (final(self)@, res(r)) == s_put_file(old(self)@, native, v, w, span),
    {
        let path = match self.text_in(v) {
            Some(path) => path,
            None => return Err(self.not_admitted(native, false, v, span)),
        };
        let text = match self.text_in(w) {
            Some(text) => text,
            None => return Err(self.not_admitted(native, true, w, span)),
        };
        let ghost before = self@.files;
        match self.find_file(path.as_str()) {
            Some(i) => {
                let all = if native == Native::Append {
                    cat2(self.files[i].text.as_str(), text.as_str())
                } else {
                    text
                };
                let ghost made = all@;
                self.files[i] = SourceFile { path, text: all };
                assert(self@.files =~= before.update(i as int, SourceFileV { path: path@, text: made }));
            },
            None => {
                self.files.push(SourceFile { path, text });
                assert(self@.files =~= before.push(SourceFileV { path: path@, text: text@ }));
            },
        }
        Ok(Value::Nil)
    }
}

fn lines_of(held: &str) -> (r: Vec<String>)
    ensures
        strs(r@) == rows(held@),
{
    let cs = chars_of(held);
    let rs = rows_of(&cs);
    let mut out: Vec<String> = Vec::new();
    let mut i: usize = 0;
    let ghost all = rows(held@);
    while i < rs.len()
        invariant
            i <= rs@.len(),
            vecs(rs@) == all,
            strs(out@) =~= all.take(i as int),
        decreases rs@.len() - i,
    {
        let ghost before = strs(out@);
        out.push(text(&rs[i]));
        assert(strs(out@) == before.push(all[i as int]));
        i += 1;
    }
    assert(strs(out@) =~= all);
    out
}

// -- all of them -----------------------------------------------------------------------------

/// What a function of a module the language ships answers.
pub open spec fn s_library(st: St, native: Native, args: Seq<Value>, span: Span) -> Out<Value> {
    let first = arg(args, 0);
    match native {
        Native::Abs => (st, s_abs(st, first, span)),
        Native::Floor => (st, s_floor(st, first, span)),
        Native::Next => s_next(st),
        Native::Seed => s_seed(st, first, span),
        Native::Line => s_line(st),
        Native::Append | Native::Write => s_put_file(st, native, first, arg(args, 1), span),
        _ => s_asked_file(st, native, first, span),
    }
}

impl Interp {
    /// [`s_library`], computed.
    pub(crate) fn library(&mut self, native: Native, args: &Vec<Value>, span: Span) -> (r: Result<Value, QuinceError>)
        ensures
            (final(self)@, res(r)) == s_library(old(self)@, native, args@, span),
    {
        let first = argument(args, 0);
        match native {
            Native::Abs => self.native_abs(first, span),
            Native::Floor => self.native_floor(first, span),
            Native::Next => self.native_next(),
            Native::Seed => self.native_seed(first, span),
            Native::Line => self.native_line(),
            Native::Append | Native::Write => self.native_put_file(native, first, argument(args, 1), span),
            _ => self.native_asked_file(native, first, span),
        }
    }
}

// -- laws ------------------------------------------------------------------------------------------

proof fn lemma_file_place(s: Seq<SourceFileV>, path: Seq<char>, i: int)
    requires
        0 <= i <= s.len(),
    ensures
        match file_place(s, path, i) {
            Some(k) => i <= k < s.len() && s[k].path == path && forall|j: int|
                i <= j < k ==> (#[trigger] s[j]).path != path,
            None => forall|j: int| i <= j < s.len() ==> (#[trigger] s[j]).path != path,
        },
    decreases s.len() - i,
{
    if i < s.len() && s[i].path != path {
        lemma_file_place(s, path, i + 1);
    }
}

proof fn lemma_file_found(s: Seq<SourceFileV>, path: Seq<char>, i: int, k: int)
    requires
        0 <= i <= k < s.len(),
        s[k].path == path,
        forall|j: int| i <= j < k ==> (#[trigger] s[j]).path != path,
    ensures
        file_place(s, path, i) == Some(k),
    decreases k - i,
{
    if i < k {
        lemma_file_found(s, path, i + 1, k);
    }
}

/// What was written to a file is what is read from it, and every other file is as it was.
pub proof fn law_a_file_gives_back_what_was_written(
    files: Seq<SourceFileV>,
    path: Seq<char>,
    text: Seq<char>,
    other: Seq<char>,
)
    ensures
        file_text(file_put(files, path, text), path) == Some(text),
        other != path ==> file_text(file_put(files, path, text), other) == file_text(files, other),
{
    let after = file_put(files, path, text);
    lemma_file_place(files, path, 0);
    match file_place(files, path, 0) {
        Some(k) => {
            assert forall|j: int| 0 <= j < k implies (#[trigger] after[j]).path != path by {
                assert(after[j] == files[j]);
            }
            lemma_file_found(after, path, 0, k);
        },
        None => {
            assert forall|j: int| 0 <= j < files.len() implies (#[trigger] after[j]).path != path by {
                assert(after[j] == files[j]);
            }
            lemma_file_found(after, path, 0, files.len() as int);
        },
    }
    if other != path {
        lemma_file_place(files, other, 0);
        lemma_file_place(after, other, 0);
        match file_place(files, other, 0) {
            Some(k) => {
                assert(after[k] == files[k]);
                assert forall|j: int| 0 <= j < k implies (#[trigger] after[j]).path != other by {
                    assert(files[j].path != other);
                }
                lemma_file_found(after, other, 0, k);
            },
            None => {
                match file_place(after, other, 0) {
                    Some(k) => {
                        if k < files.len() {
                            assert(files[k].path != other);
                        }
                    },
                    None => {},
                }
            },
        }
    }
}

} // verus!

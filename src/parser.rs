//! Decoding of one reply value from a byte buffer.
//!
//! The decoder is stated twice: as spec functions over the input bytes and a
//! position (`value_at` and the functions it builds on), and as the executable
//! [`Parser`], whose every method is proved to follow its spec function.
use crate::text::{parse_i64, parsed_i64, same_text, trim, trimmed, utf8_string};
use crate::types::{replies, ErrorKind, Fault, Kind, RedisError, RedisResult, Reply, Value};
use vstd::prelude::*;
use vstd::utf8::{decode_utf8, valid_utf8};

verus! {

/// A framing failure with the given description and no detail.
pub open spec fn framing(desc: &'static str) -> Fault {
    Fault { kind: Kind::Response, desc: desc@, detail: None }
}

/// The input ended before the value did.
pub open spec fn short_read() -> Fault {
    framing("Could not read enough bytes")
}

/// A byte other than the one the framing requires.
pub open spec fn bad_byte() -> Fault {
    framing("Invalid byte in Response")
}

/// A tag byte that starts no reply.
pub open spec fn bad_tag() -> Fault {
    framing("Invalid response when parsing value")
}

/// A line that should hold an integer and does not.
pub open spec fn bad_integer() -> Fault {
    framing("Expected integer, got garbage")
}

/// A line that should be text and is not valid UTF-8.
pub open spec fn bad_utf8() -> Fault {
    Fault { kind: Kind::Type, desc: "Invalid UTF-8"@, detail: Some("invalid utf-8"@) }
}

/// The most arrays that a reply may hold one inside the other.
pub const MAX_NESTING: usize = 512;

/// An array nested deeper than [`MAX_NESTING`].
pub open spec fn too_deep() -> Fault {
    framing("Response nested too deeply")
}

/// Outcome of a read at position `i`: the value read and the position after
/// it, or the failure.
pub type Step<T> = Result<(T, int), Fault>;

/// Whether an executable result `r`, with the reader left at `pos`, is the
/// outcome `expected`.
pub open spec fn follows<A: View>(r: RedisResult<A>, pos: int, expected: Step<A::V>) -> bool {
    match expected {
        Ok((a, j)) => r is Ok && r->Ok_0@ == a && pos == j,
        Err(f) => r is Err && r->Err_0@ == f,
    }
}

/// `r` with `p` put in front of the sequence it reads.
pub open spec fn prefixed<T>(p: Seq<T>, r: Step<Seq<T>>) -> Step<Seq<T>> {
    match r {
        Ok((l, j)) => Ok((p + l, j)),
        Err(f) => Err(f),
    }
}

/// One byte.
pub open spec fn byte_at(s: Seq<u8>, i: int) -> Step<u8> {
    if 0 <= i < s.len() {
        Ok((s[i], i + 1))
    } else {
        Err(short_read())
    }
}

/// One byte, which must be `c`.
pub open spec fn expect_at(s: Seq<u8>, i: int, c: u8) -> Step<()> {
    match byte_at(s, i) {
        Ok((b, j)) => if b == c {
            Ok(((), j))
        } else {
            Err(bad_byte())
        },
        Err(f) => Err(f),
    }
}

/// A line: the bytes up to a `\n`, or up to a `\r` that must be followed by
/// `\n`; the delimiter is consumed and not returned.
pub open spec fn line_at(s: Seq<u8>, i: int) -> Step<Seq<u8>>
    decreases s.len() - i,
{
    if i < 0 || i >= s.len() {
        Err(short_read())
    } else if s[i] == 13 {
        match expect_at(s, i + 1, 10) {
            Ok((_, j)) => Ok((Seq::empty(), j)),
            Err(f) => Err(f),
        }
    } else if s[i] == 10 {
        Ok((Seq::empty(), i + 1))
    } else {
        prefixed(seq![s[i]], line_at(s, i + 1))
    }
}

/// A line that must be valid UTF-8, as text.
pub open spec fn text_line_at(s: Seq<u8>, i: int) -> Step<Seq<char>> {
    match line_at(s, i) {
        Ok((b, j)) => if valid_utf8(b) {
            Ok((decode_utf8(b), j))
        } else {
            Err(bad_utf8())
        },
        Err(f) => Err(f),
    }
}

/// A text line that holds a base-10 `i64`, white space around it allowed.
pub open spec fn int_at(s: Seq<u8>, i: int) -> Step<i64> {
    match text_line_at(s, i) {
        Ok((l, j)) => match parsed_i64(trimmed(l)) {
            Some(n) => Ok((n, j)),
            None => Err(bad_integer()),
        },
        Err(f) => Err(f),
    }
}

/// `n` raw bytes.
pub open spec fn bytes_at(s: Seq<u8>, i: int, n: int) -> Step<Seq<u8>> {
    if 0 <= i && 0 <= n && i + n <= s.len() {
        Ok((s.subrange(i, i + n), i + n))
    } else {
        Err(short_read())
    }
}

/// The reply to a status line: `Okay` for exactly `OK`.
pub open spec fn status_reply(l: Seq<char>) -> Reply {
    if l == "OK"@ {
        Reply::Okay
    } else {
        Reply::Status(l)
    }
}

/// The kind of a server error code.
pub open spec fn code_kind(code: Seq<char>) -> Kind {
    if code == "ERR"@ {
        Kind::Response
    } else if code == "EXECABORT"@ {
        Kind::ExecAbort
    } else if code == "LOADING"@ {
        Kind::BusyLoading
    } else if code == "NOSCRIPT"@ {
        Kind::NoScript
    } else {
        Kind::Extension(code)
    }
}

/// `k` is the position of the first space of `l`.
pub open spec fn first_space(l: Seq<char>, k: int) -> bool {
    &&& 0 <= k < l.len()
    &&& l[k] == ' '
    &&& forall|j: int| 0 <= j < k ==> l[j] != ' '
}

/// The failure that a server error line stands for: the line is split at its
/// first space into a code and a detail.
pub open spec fn server_fault(l: Seq<char>) -> Fault {
    let desc = "An error was signaled by the server"@;
    if exists|k: int| first_space(l, k) {
        let k = choose|k: int| first_space(l, k);
        Fault {
            kind: code_kind(l.subrange(0, k)),
            desc,
            detail: Some(l.subrange(k + 1, l.len() as int)),
        }
    } else {
        Fault { kind: code_kind(l), desc, detail: None }
    }
}

/// The rest of a status reply, after its tag.
pub open spec fn status_at(s: Seq<u8>, i: int) -> Step<Reply> {
    match text_line_at(s, i) {
        Ok((l, j)) => Ok((status_reply(l), j)),
        Err(f) => Err(f),
    }
}

/// The rest of an error reply, after its tag: always a failure.
pub open spec fn error_at(s: Seq<u8>, i: int) -> Step<Reply> {
    match text_line_at(s, i) {
        Ok((l, _)) => Err(server_fault(l)),
        Err(f) => Err(f),
    }
}

/// The rest of an integer reply, after its tag.
pub open spec fn int_reply_at(s: Seq<u8>, i: int) -> Step<Reply> {
    match int_at(s, i) {
        Ok((n, j)) => Ok((Reply::Int(n), j)),
        Err(f) => Err(f),
    }
}

/// The rest of a bulk string, after its tag: a length, then (unless it is
/// negative) that many bytes and `\r\n`.
pub open spec fn data_at(s: Seq<u8>, i: int) -> Step<Reply> {
    match int_at(s, i) {
        Ok((n, j)) => if n < 0 {
            Ok((Reply::Nil, j))
        } else {
            match bytes_at(s, j, n as int) {
                Ok((d, k)) => match expect_at(s, k, 13) {
                    Ok((_, k1)) => match expect_at(s, k1, 10) {
                        Ok((_, k2)) => Ok((Reply::Data(d), k2)),
                        Err(f) => Err(f),
                    },
                    Err(f) => Err(f),
                },
                Err(f) => Err(f),
            }
        },
        Err(f) => Err(f),
    }
}

/// The rest of an array, after its tag, inside `depth` arrays: a count, then
/// (unless it is negative) that many values; an array inside
/// [`MAX_NESTING`] others fails.
pub open spec fn bulk_at(s: Seq<u8>, i: int, depth: nat) -> Step<Reply>
    decreases s.len() - i, 2nat, 0nat,
{
    if depth >= MAX_NESTING {
        Err(too_deep())
    } else {
        match int_at(s, i) {
        Ok((n, j)) => if n < 0 {
            Ok((Reply::Nil, j))
        } else if i < j <= s.len() {
            match values_at(s, j, n as nat, depth + 1) {
                Ok((vs, k)) => Ok((Reply::Bulk(vs), k)),
                Err(f) => Err(f),
            }
        } else {
            Err(short_read())
        },
        Err(f) => Err(f),
        }
    }
}

/// `n` values one after the other, inside `depth` arrays.
pub open spec fn values_at(s: Seq<u8>, i: int, n: nat, depth: nat) -> Step<Seq<Reply>>
    decreases s.len() - i, 1nat, n,
{
    if n == 0 {
        Ok((Seq::empty(), i))
    } else {
        match reply_at(s, i, depth) {
            Ok((v, j)) => if i < j <= s.len() {
                prefixed(seq![v], values_at(s, j, (n - 1) as nat, depth))
            } else {
                Err(short_read())
            },
            Err(f) => Err(f),
        }
    }
}

/// One reply value starting at position `i` of `s`, at the top level: a tag
/// byte, then what the tag calls for.
pub open spec fn value_at(s: Seq<u8>, i: int) -> Step<Reply> {
    reply_at(s, i, 0)
}

/// One reply value starting at position `i` of `s`, inside `depth` arrays.
pub open spec fn reply_at(s: Seq<u8>, i: int, depth: nat) -> Step<Reply>
    decreases s.len() - i, 0nat, 0nat,
{
    if i < 0 || i >= s.len() {
        Err(short_read())
    } else if s[i] == 43 {
        status_at(s, i + 1)
    } else if s[i] == 45 {
        error_at(s, i + 1)
    } else if s[i] == 58 {
        int_reply_at(s, i + 1)
    } else if s[i] == 36 {
        data_at(s, i + 1)
    } else if s[i] == 42 {
        bulk_at(s, i + 1, depth)
    } else {
        Err(bad_tag())
    }
}

/// A decoder over a byte buffer. It reads one reply at a time and stays
/// positioned right after the last reply it read.
pub struct Parser<'a> {
    data: &'a [u8],
    pos: usize,
}

impl<'a> View for Parser<'a> {
    /// The input bytes and the current position in them.
    type V = (Seq<u8>, int);

    closed spec fn view(&self) -> (Seq<u8>, int) {
        (self.data@, self.pos as int)
    }
}

impl<'a> Parser<'a> {
    #[verifier::type_invariant]
    spec fn inv(&self) -> bool {
        self.pos <= self.data@.len()
    }

    /// A decoder at the start of `data`.
    pub fn new(data: &'a [u8]) -> (p: Parser<'a>)
        ensures
            p@ == (data@, 0int),
    {
        Parser { data, pos: 0 }
    }

    /// The position of the next byte to read.
    pub fn position(&self) -> (r: usize)
        ensures
            r == self@.1,
            r <= self@.0.len(),
    {
        proof {
            use_type_invariant(self);
        }
        self.pos
    }

    /// Decodes one value and leaves the decoder right after it.
    pub fn parse_value(&mut self) -> (r: RedisResult<Value>)
        ensures
            final(self)@.0 == old(self)@.0,
            old(self)@.1 <= final(self)@.1,
            follows(r, final(self)@.1, value_at(old(self)@.0, old(self)@.1)),
            r is Ok ==> old(self)@.1 < final(self)@.1,
    {
        self.parse_nested(0)
    }

    fn parse_nested(&mut self, depth: usize) -> (r: RedisResult<Value>)
        requires
            depth <= MAX_NESTING,
        ensures
            final(self)@.0 == old(self)@.0,
            old(self)@.1 <= final(self)@.1,
            follows(r, final(self)@.1, reply_at(old(self)@.0, old(self)@.1, depth as nat)),
            r is Ok ==> old(self)@.1 < final(self)@.1,
        decreases self@.0.len() - self@.1, 0nat,
    {
        proof {
            use_type_invariant(&*self);
        }
        let byte = match self.read_byte() {
            Ok(b) => b,
            Err(e) => return Err(e),
        };
        if byte == 43 {
            self.parse_status_value()
        } else if byte == 45 {
            self.parse_error()
        } else if byte == 58 {
            self.parse_int_value()
        } else if byte == 36 {
            self.parse_data_value()
        } else if byte == 42 {
            self.parse_bulk_value(depth)
        } else {
            Err(RedisError::from((ErrorKind::ResponseError, "Invalid response when parsing value")))
        }
    }

    fn parse_int_value(&mut self) -> (r: RedisResult<Value>)
        ensures
            final(self)@.0 == old(self)@.0,
            old(self)@.1 <= final(self)@.1,
            follows(r, final(self)@.1, int_reply_at(old(self)@.0, old(self)@.1)),
    {
        match self.read_int_value() {
            Ok(n) => Ok(Value::Int(n)),
            Err(e) => Err(e),
        }
    }

    fn parse_status_value(&mut self) -> (r: RedisResult<Value>)
        ensures
            final(self)@.0 == old(self)@.0,
            old(self)@.1 <= final(self)@.1,
            follows(r, final(self)@.1, status_at(old(self)@.0, old(self)@.1)),
    {
        let line = match self.read_string_line() {
            Ok(l) => l,
            Err(e) => return Err(e),
        };
        if same_text(line.as_str(), "OK") {
            Ok(Value::Okay)
        } else {
            Ok(Value::Status(line))
        }
    }

    fn parse_data_value(&mut self) -> (r: RedisResult<Value>)
        ensures
            final(self)@.0 == old(self)@.0,
            old(self)@.1 <= final(self)@.1,
            follows(r, final(self)@.1, data_at(old(self)@.0, old(self)@.1)),
    {
        let length = match self.read_int_value() {
            Ok(n) => n,
            Err(e) => return Err(e),
        };
        if length < 0 {
            return Ok(Value::Nil);
        }
        proof {
            use_type_invariant(&*self);
        }
        if length as u64 > (self.data.len() - self.pos) as u64 {
            return Err(RedisError::from((ErrorKind::ResponseError, "Could not read enough bytes")));
        }
        let rv = match self.read(length as usize) {
            Ok(v) => v,
            Err(e) => return Err(e),
        };
        match self.expect_char(13) {
            Ok(_) => {},
            Err(e) => return Err(e),
        }
        match self.expect_char(10) {
            Ok(_) => {},
            Err(e) => return Err(e),
        }
        Ok(Value::Data(rv))
    }

    fn parse_bulk_value(&mut self, depth: usize) -> (r: RedisResult<Value>)
        requires
            depth <= MAX_NESTING,
        ensures
            final(self)@.0 == old(self)@.0,
            old(self)@.1 <= final(self)@.1,
            follows(r, final(self)@.1, bulk_at(old(self)@.0, old(self)@.1, depth as nat)),
        decreases self@.0.len() - self@.1, 1nat,
    {
        if depth >= MAX_NESTING {
            return Err(RedisError::from((ErrorKind::ResponseError, "Response nested too deeply")));
        }
        let ghost s = self@.0;
        let ghost i0 = self@.1;
        let length = match self.read_int_value() {
            Ok(n) => n,
            Err(e) => return Err(e),
        };
        if length < 0 {
            return Ok(Value::Nil);
        }
        proof {
            use_type_invariant(&*self);
        }
        let ghost j0 = self@.1;
        let mut rv: Vec<Value> = Vec::new();
        let mut k: i64 = 0;
        while k < length
            invariant
                s == old(self)@.0,
                i0 == old(self)@.1,
                self@.0 == s,
                i0 < j0 <= self@.1 <= s.len(),
                0 <= k <= length,
                depth < MAX_NESTING,
                int_at(s, i0) == Ok::<(i64, int), Fault>((length, j0)),
                values_at(s, j0, length as nat, (depth + 1) as nat) == prefixed(
                    replies(rv@),
                    values_at(s, self@.1, (length - k) as nat, (depth + 1) as nat),
                ),
            decreases length - k,
        {
            let v = match self.parse_nested(depth + 1) {
                Ok(v) => v,
                Err(e) => return Err(e),
            };
            proof {
                use_type_invariant(&*self);
                let rest = values_at(s, self@.1, (length - k - 1) as nat, (depth + 1) as nat);
                assert(replies(rv@.push(v)) =~= replies(rv@).push(v@)) by {
                    assert(rv@.push(v).drop_last() =~= rv@);
                }
                match rest {
                    Ok((vs, _)) => {
                        assert(replies(rv@) + (seq![v@] + vs) =~= replies(rv@).push(v@) + vs);
                    },
                    Err(_) => {},
                }
            }
            rv.push(v);
            k = k + 1;
        }
        proof {
            assert(replies(rv@) + Seq::<Reply>::empty() =~= replies(rv@));
        }
        Ok(Value::Bulk(rv))
    }

    fn parse_error(&mut self) -> (r: RedisResult<Value>)
        ensures
            final(self)@.0 == old(self)@.0,
            old(self)@.1 <= final(self)@.1,
            follows(r, final(self)@.1, error_at(old(self)@.0, old(self)@.1)),
    {
        let desc = "An error was signaled by the server";
        let line = match self.read_string_line() {
            Ok(l) => l,
            Err(e) => return Err(e),
        };
        let n = line.as_str().unicode_len();
        let mut k: usize = 0;
        while k < n && line.as_str().get_char(k) != ' '
            invariant
                n == line@.len(),
                k <= n,
                forall|j: int| 0 <= j < k ==> line@[j] != ' ',
            decreases n - k,
        {
            k = k + 1;
        }
        let code = line.as_str().substring_char(0, k);
        let kind = if same_text(code, "ERR") {
            ErrorKind::ResponseError
        } else if same_text(code, "EXECABORT") {
            ErrorKind::ExecAbortError
        } else if same_text(code, "LOADING") {
            ErrorKind::BusyLoadingError
        } else if same_text(code, "NOSCRIPT") {
            ErrorKind::NoScriptError
        } else {
            ErrorKind::ExtensionError(String::from_str(code))
        };
        proof {
            let l = line@;
            if k < n {
                assert(first_space(l, k as int));
                let c = choose|c: int| first_space(l, c);
                assert(c == k) by {
                    if c < k {
                        assert(l[c] != ' ');
                    }
                    if c > k {
                        assert(l[k as int] != ' ');
                    }
                }
            } else {
                assert(l =~= l.subrange(0, k as int));
                assert(!exists|c: int| first_space(l, c));
            }
        }
        if k < n {
            let detail = String::from_str(line.as_str().substring_char(k + 1, n));
            Err(RedisError::from((kind, desc, detail)))
        } else {
            Err(RedisError::from((kind, desc)))
        }
    }

    fn read_byte(&mut self) -> (r: RedisResult<u8>)
        ensures
            final(self)@.0 == old(self)@.0,
            old(self)@.1 <= final(self)@.1,
            follows(r, final(self)@.1, byte_at(old(self)@.0, old(self)@.1)),
    {
        proof {
            use_type_invariant(&*self);
        }
        if self.pos < self.data.len() {
            let b = self.data[self.pos];
            self.pos = self.pos + 1;
            Ok(b)
        } else {
            Err(RedisError::from((ErrorKind::ResponseError, "Could not read enough bytes")))
        }
    }

    fn read_string_line(&mut self) -> (r: RedisResult<String>)
        ensures
            final(self)@.0 == old(self)@.0,
            old(self)@.1 <= final(self)@.1,
            follows(r, final(self)@.1, text_line_at(old(self)@.0, old(self)@.1)),
    {
        let line = match self.read_line() {
            Ok(l) => l,
            Err(e) => return Err(e),
        };
        match utf8_string(line) {
            Some(s) => Ok(s),
            None => Err(
                RedisError::from(
                    (ErrorKind::TypeError, "Invalid UTF-8", String::from_str("invalid utf-8")),
                ),
            ),
        }
    }

    fn read_int_value(&mut self) -> (r: RedisResult<i64>)
        ensures
            final(self)@.0 == old(self)@.0,
            old(self)@.1 <= final(self)@.1,
            follows(r, final(self)@.1, int_at(old(self)@.0, old(self)@.1)),
            r is Ok ==> old(self)@.1 < final(self)@.1,
    {
        let line = match self.read_string_line() {
            Ok(l) => l,
            Err(e) => return Err(e),
        };
        proof {
            lemma_line_advances(old(self)@.0, old(self)@.1);
        }
        match parse_i64(trim(line.as_str())) {
            Some(v) => Ok(v),
            None => Err(RedisError::from((ErrorKind::ResponseError, "Expected integer, got garbage"))),
        }
    }

    fn read_line(&mut self) -> (r: RedisResult<Vec<u8>>)
        ensures
            final(self)@.0 == old(self)@.0,
            old(self)@.1 <= final(self)@.1,
            follows(r, final(self)@.1, line_at(old(self)@.0, old(self)@.1)),
    {
        let ghost s = self@.0;
        let ghost i0 = self@.1;
        let mut rv: Vec<u8> = Vec::new();
        loop
            invariant
                s == old(self)@.0,
                i0 == old(self)@.1,
                self@.0 == s,
                i0 <= self@.1,
                line_at(s, i0) == prefixed(rv@, line_at(s, self@.1)),
            decreases s.len() - self@.1,
        {
            proof {
                use_type_invariant(&*self);
            }
            let ghost p = self@.1;
            let b = match self.read_byte() {
                Ok(b) => b,
                Err(e) => return Err(e),
            };
            if b == 13 {
                match self.expect_char(10) {
                    Ok(_) => {},
                    Err(e) => return Err(e),
                }
                assert(rv@ + Seq::<u8>::empty() =~= rv@);
                return Ok(rv);
            } else if b == 10 {
                assert(rv@ + Seq::<u8>::empty() =~= rv@);
                return Ok(rv);
            }
            proof {
                match line_at(s, p + 1) {
                    Ok((l, j)) => {
                        assert(rv@ + (seq![b] + l) =~= rv@.push(b) + l);
                    },
                    Err(_) => {},
                }
            }
            rv.push(b);
        }
    }

    fn read(&mut self, size: usize) -> (r: RedisResult<Vec<u8>>)
        ensures
            final(self)@.0 == old(self)@.0,
            old(self)@.1 <= final(self)@.1,
            follows(r, final(self)@.1, bytes_at(old(self)@.0, old(self)@.1, size as int)),
    {
        proof {
            use_type_invariant(&*self);
        }
        if size > self.data.len() - self.pos {
            return Err(RedisError::from((ErrorKind::ResponseError, "Could not read enough bytes")));
        }
        let start = self.pos;
        let end = start + size;
        let mut rv: Vec<u8> = Vec::new();
        let mut i: usize = start;
        while i < end
            invariant
                end <= self.data@.len(),
                self.pos == start,
                start <= i <= end,
                rv@ == self.data@.subrange(start as int, i as int),
            decreases end - i,
        {
            rv.push(self.data[i]);
            i = i + 1;
            assert(rv@ =~= self.data@.subrange(start as int, i as int));
        }
        self.pos = end;
        Ok(rv)
    }

    fn expect_char(&mut self, expected: u8) -> (r: RedisResult<()>)
        ensures
            final(self)@.0 == old(self)@.0,
            old(self)@.1 <= final(self)@.1,
            follows(r, final(self)@.1, expect_at(old(self)@.0, old(self)@.1, expected)),
    {
        let byte = match self.read_byte() {
            Ok(b) => b,
            Err(e) => return Err(e),
        };
        if byte == expected {
            Ok(())
        } else {
            Err(RedisError::from((ErrorKind::ResponseError, "Invalid byte in Response")))
        }
    }
}

/// A line that is read ends after the position it starts at.
proof fn lemma_line_advances(s: Seq<u8>, i: int)
    ensures
        line_at(s, i) matches Ok((_, j)) ==> i < j <= s.len(),
    decreases s.len() - i,
{
    if 0 <= i < s.len() && s[i] != 13 && s[i] != 10 {
        lemma_line_advances(s, i + 1);
    }
}

/// Decodes the single value at the start of `bytes`.
pub fn parse_redis_value(bytes: &[u8]) -> (r: RedisResult<Value>)
    ensures
        match value_at(bytes@, 0) {
            Ok((v, _)) => r is Ok && r->Ok_0@ == v,
            Err(f) => r is Err && r->Err_0@ == f,
        },
{
    let mut parser = Parser::new(bytes);
    parser.parse_value()
}

} // verus!

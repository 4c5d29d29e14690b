//! The canonical wire encoding of replies, and the proofs that the decoder
//! reads back exactly what the encoding and the command packer write.
use crate::cmd::{bulk_string, crlf, packed, packed_args, rendered, Token};
use crate::parser::{
    bulk_at, bytes_at, data_at, reply_at, short_read, MAX_NESTING, int_at, line_at, server_fault, status_at, text_line_at, value_at, values_at,
};
use crate::text::{decimal, digit, digits_value, is_digit, parsed_i64, signed_decimal, trim_end, trim_start, trimmed};
use crate::types::{Fault, Reply};
use vstd::prelude::*;
use vstd::utf8::{
    decode_utf8, encode_utf8, encode_utf8_decode_utf8, encode_utf8_valid_utf8, is_ascii_chars,
    is_ascii_chars_encode_utf8, valid_utf8,
};

verus! {

/// The characters of bytes that are all ASCII.
pub open spec fn ascii(b: Seq<u8>) -> Seq<char> {
    b.map_values(|x: u8| x as char)
}

/// The canonical bytes of a reply.
pub open spec fn reply_bytes(r: Reply) -> Seq<u8>
    decreases r,
{
    match r {
        Reply::Nil => seq![36u8] + signed_decimal(-1) + crlf(),
        Reply::Int(n) => seq![58u8] + signed_decimal(n as int) + crlf(),
        Reply::Data(d) => bulk_string(d),
        Reply::Bulk(items) => seq![42u8] + decimal(items.len()) + crlf() + replies_bytes(items),
        Reply::Status(l) => seq![43u8] + encode_utf8(l) + crlf(),
        Reply::Okay => seq![43u8, 79u8, 75u8] + crlf(),
    }
}

/// The canonical bytes of replies, one after the other.
pub open spec fn replies_bytes(rs: Seq<Reply>) -> Seq<u8>
    decreases rs,
{
    if rs.len() == 0 {
        Seq::empty()
    } else {
        reply_bytes(rs[0]) + replies_bytes(rs.drop_first())
    }
}

/// Bytes that hold no `\r` and no `\n`.
pub open spec fn no_line_break(b: Seq<u8>) -> bool {
    forall|k: int| 0 <= k < b.len() ==> #[trigger] b[k] != 13 && b[k] != 10
}

/// A reply that the wire format can carry: status text without line breaks
/// and other than `OK` (which is `Okay`), and lengths and counts that fit in
/// an `i64`.
pub open spec fn wire_ok(r: Reply) -> bool
    decreases r,
{
    match r {
        Reply::Data(d) => d.len() <= i64::MAX,
        Reply::Bulk(items) => items.len() <= i64::MAX && all_wire_ok(items),
        Reply::Status(l) => l != "OK"@ && no_line_break(encode_utf8(l)),
        _ => true,
    }
}

/// Every reply of `rs` is one the wire format can carry.
pub open spec fn all_wire_ok(rs: Seq<Reply>) -> bool
    decreases rs,
{
    rs.len() > 0 ==> wire_ok(rs[0]) && all_wire_ok(rs.drop_first())
}

/// How many arrays a reply holds one inside the other, itself included.
pub open spec fn nesting(r: Reply) -> nat
    decreases r,
{
    match r {
        Reply::Bulk(items) => 1 + max_nesting(items),
        _ => 0,
    }
}

/// The deepest nesting among `rs`.
pub open spec fn max_nesting(rs: Seq<Reply>) -> nat
    decreases rs,
{
    if rs.len() == 0 {
        0
    } else {
        let a = nesting(rs[0]);
        let b = max_nesting(rs.drop_first());
        if a >= b {
            a
        } else {
            b
        }
    }
}

proof fn lemma_line(s: Seq<u8>, i: int, t: Seq<u8>)
    requires
        0 <= i,
        i + t.len() + 2 <= s.len(),
        s.subrange(i, i + t.len()) == t,
        s[i + t.len()] == 13,
        s[i + t.len() + 1] == 10,
        no_line_break(t),
    ensures
        line_at(s, i) == Ok::<(Seq<u8>, int), Fault>((t, i + t.len() + 2)),
    decreases t.len(),
{
    if t.len() == 0 {
        assert(t =~= Seq::<u8>::empty());
    } else {
        assert(s[i] == s.subrange(i, i + t.len())[0]);
        assert(t[0] != 13 && t[0] != 10);
        let u = t.drop_first();
        assert(s.subrange(i + 1, i + 1 + u.len()) =~= u);
        assert(no_line_break(u)) by {
            assert forall|k: int| 0 <= k < u.len() implies #[trigger] u[k] != 13 && u[k] != 10 by {
                assert(u[k] == t[k + 1]);
            }
        }
        lemma_line(s, i + 1, u);
        assert(seq![s[i]] + u =~= t);
    }
}

proof fn lemma_ascii_text(b: Seq<u8>)
    requires
        forall|k: int| 0 <= k < b.len() ==> #[trigger] b[k] < 128,
    ensures
        valid_utf8(b),
        decode_utf8(b) == ascii(b),
{
    let c = ascii(b);
    assert(is_ascii_chars(c));
    is_ascii_chars_encode_utf8(c);
    assert(encode_utf8(c) =~= b);
    encode_utf8_valid_utf8(c);
    encode_utf8_decode_utf8(c);
}

proof fn lemma_decimal_digits(n: nat)
    ensures
        decimal(n).len() > 0,
        forall|k: int| 0 <= k < decimal(n).len() ==> 48 <= #[trigger] decimal(n)[k] <= 57,
        digits_value(ascii(decimal(n))) == n,
    decreases n,
{
    let d = digit(n % 10);
    assert((d as char) as u32 == 48 + n % 10);
    if n >= 10 {
        lemma_decimal_digits(n / 10);
        let p = decimal(n / 10);
        assert(ascii(decimal(n)).drop_last() =~= ascii(p));
        assert(ascii(decimal(n)).last() == d as char);
        let c = ascii(decimal(n));
        assert(digits_value(c) == digits_value(c.drop_last()) * 10 + (c.last() as u32 - '0' as u32));
        assert(n == (n / 10) * 10 + n % 10);
    } else {
        assert(ascii(decimal(n)).drop_last() =~= Seq::<char>::empty());
        assert(ascii(decimal(n)).last() == d as char);
        let c = ascii(decimal(n));
        assert(digits_value(c) == digits_value(c.drop_last()) * 10 + (c.last() as u32 - '0' as u32));
        assert(digits_value(Seq::<char>::empty()) == 0);
    }
}

proof fn lemma_number_line(n: int)
    requires
        i64::MIN <= n <= i64::MAX,
    ensures
        no_line_break(signed_decimal(n)),
        forall|k: int| 0 <= k < signed_decimal(n).len() ==> #[trigger] signed_decimal(n)[k] < 128,
        parsed_i64(trimmed(ascii(signed_decimal(n)))) == Some(n as i64),
{
    let t = signed_decimal(n);
    let m: nat = if n < 0 { (-n) as nat } else { n as nat };
    lemma_decimal_digits(m);
    let d = ascii(decimal(m));
    let c = ascii(t);
    if n < 0 {
        assert(c =~= seq!['-'] + d);
        assert(c.drop_first() =~= d);
    } else {
        assert(c =~= d);
    }
    assert(is_digit(d[0]));
    assert(is_digit(d.last()));
    assert(trim_start(c) == c);
    assert(trim_end(c) == c);
    assert(forall|k: int| 0 <= k < d.len() ==> is_digit(#[trigger] d[k]));
}

proof fn lemma_int_line(s: Seq<u8>, i: int, n: int)
    requires
        i64::MIN <= n <= i64::MAX,
        0 <= i,
        i + signed_decimal(n).len() + 2 <= s.len(),
        s.subrange(i, i + signed_decimal(n).len() + 2) == signed_decimal(n) + crlf(),
    ensures
        int_at(s, i) == Ok::<(i64, int), Fault>(
            (n as i64, i + signed_decimal(n).len() + 2),
        ),
{
    let t = signed_decimal(n);
    lemma_number_line(n);
    assert(s.subrange(i, i + t.len()) =~= t);
    assert(s[i + t.len()] == (t + crlf())[t.len() as int]);
    assert(s[i + t.len() + 1] == (t + crlf())[t.len() + 1int]);
    lemma_line(s, i, t);
    lemma_ascii_text(t);
}

/// `s` holds `b` from position `i` on.
pub open spec fn holds_at(s: Seq<u8>, i: int, b: Seq<u8>) -> bool {
    0 <= i && i + b.len() <= s.len() && s.subrange(i, i + b.len()) == b
}

proof fn lemma_holds_split(s: Seq<u8>, i: int, a: Seq<u8>, b: Seq<u8>)
    requires
        holds_at(s, i, a + b),
    ensures
        holds_at(s, i, a),
        holds_at(s, i + a.len(), b),
{
    let w = s.subrange(i, i + (a + b).len());
    assert(s.subrange(i, i + a.len()) =~= w.subrange(0, a.len() as int));
    assert(w.subrange(0, a.len() as int) =~= a);
    assert(s.subrange(i + a.len(), i + a.len() + b.len()) =~= w.subrange(
        a.len() as int,
        w.len() as int,
    ));
    assert(w.subrange(a.len() as int, w.len() as int) =~= b);
}

proof fn lemma_header(s: Seq<u8>, i: int, tag: u8, n: int, rest: Seq<u8>)
    requires
        i64::MIN <= n <= i64::MAX,
        holds_at(s, i, seq![tag] + signed_decimal(n) + crlf() + rest),
    ensures
        s[i] == tag,
        int_at(s, i + 1) == Ok::<(i64, int), Fault>(
            (n as i64, i + 1 + signed_decimal(n).len() + 2),
        ),
        holds_at(s, i + 1 + signed_decimal(n).len() + 2, rest),
{
    let t = signed_decimal(n);
    assert(seq![tag] + t + crlf() + rest =~= seq![tag] + ((t + crlf()) + rest));
    lemma_holds_split(s, i, seq![tag], (t + crlf()) + rest);
    lemma_holds_split(s, i + 1, t + crlf(), rest);
    assert(s[i] == (seq![tag] + ((t + crlf()) + rest))[0]);
    lemma_int_line(s, i + 1, n);
}

/// Reading the canonical bytes of a reply gives that reply back and stops
/// right after those bytes, whatever follows them, for replies within the
/// decoder's nesting limit.
pub proof fn lemma_decode_round_trip(r: Reply, rest: Seq<u8>)
    requires
        wire_ok(r),
        nesting(r) <= MAX_NESTING,
    ensures
        value_at(reply_bytes(r) + rest, 0) == Ok::<(Reply, int), Fault>(
            (r, reply_bytes(r).len() as int),
        ),
{
    let s = reply_bytes(r) + rest;
    assert(s.subrange(0, reply_bytes(r).len() as int) =~= reply_bytes(r));
    lemma_decode_at(s, 0, r, 0);
}

proof fn lemma_decode_at(s: Seq<u8>, i: int, r: Reply, depth: nat)
    requires
        wire_ok(r),
        depth + nesting(r) <= MAX_NESTING,
        holds_at(s, i, reply_bytes(r)),
    ensures
        reply_at(s, i, depth) == Ok::<(Reply, int), Fault>(
            (r, i + reply_bytes(r).len()),
        ),
    decreases r, 1nat,
{
    let b = reply_bytes(r);
    match r {
        Reply::Nil => {
            assert(b =~= seq![36u8] + signed_decimal(-1) + crlf() + Seq::<u8>::empty());
            lemma_header(s, i, 36u8, -1, Seq::empty());
            assert(data_at(s, i + 1) == Ok::<(Reply, int), Fault>((r, i + b.len())));
        },
        Reply::Int(n) => {
            assert(b =~= seq![58u8] + signed_decimal(n as int) + crlf() + Seq::<u8>::empty());
            lemma_header(s, i, 58u8, n as int, Seq::empty());
        },
        Reply::Data(d) => {
            assert(signed_decimal(d.len() as int) == decimal(d.len()));
            assert(b =~= seq![36u8] + signed_decimal(d.len() as int) + crlf() + (d + crlf()));
            lemma_header(s, i, 36u8, d.len() as int, d + crlf());
            let j = i + 1 + decimal(d.len()).len() + 2;
            lemma_holds_split(s, j, d, crlf());
            assert(s[j + d.len()] == crlf()[0]);
            assert(s[j + d.len() + 1] == crlf()[1]);
            assert(data_at(s, i + 1) == Ok::<(Reply, int), Fault>((r, i + b.len())));
        },
        Reply::Bulk(items) => {
            assert(signed_decimal(items.len() as int) == decimal(items.len()));
            assert(b =~= seq![42u8] + signed_decimal(items.len() as int) + crlf() + replies_bytes(
                items,
            ));
            lemma_header(s, i, 42u8, items.len() as int, replies_bytes(items));
            let j = i + 1 + decimal(items.len()).len() + 2;
            lemma_decode_all(s, j, items, depth + 1);
            assert(bulk_at(s, i + 1, depth) == Ok::<(Reply, int), Fault>((r, i + b.len())));
        },
        Reply::Status(l) => {
            let t = encode_utf8(l);
            assert(b =~= seq![43u8] + (t + crlf()));
            lemma_holds_split(s, i, seq![43u8], t + crlf());
            assert(s[i] == b[0]);
            lemma_holds_split(s, i + 1, t, crlf());
            assert(s[i + 1 + t.len()] == crlf()[0]);
            assert(s[i + 1 + t.len() + 1] == crlf()[1]);
            lemma_line(s, i + 1, t);
            encode_utf8_valid_utf8(l);
            encode_utf8_decode_utf8(l);
            assert(status_at(s, i + 1) == Ok::<(Reply, int), Fault>((r, i + b.len())));
        },
        Reply::Okay => {
            let t = seq![79u8, 75u8];
            assert(b =~= seq![43u8] + (t + crlf()));
            lemma_holds_split(s, i, seq![43u8], t + crlf());
            assert(s[i] == b[0]);
            lemma_holds_split(s, i + 1, t, crlf());
            assert(s[i + 1 + t.len()] == crlf()[0]);
            assert(s[i + 1 + t.len() + 1] == crlf()[1]);
            lemma_line(s, i + 1, t);
            lemma_ascii_text(t);
            reveal_strlit("OK");
            assert(ascii(t) =~= "OK"@);
            assert(status_at(s, i + 1) == Ok::<(Reply, int), Fault>((r, i + b.len())));
        },
    }
}

proof fn lemma_decode_all(s: Seq<u8>, i: int, rs: Seq<Reply>, depth: nat)
    requires
        all_wire_ok(rs),
        depth + max_nesting(rs) <= MAX_NESTING,
        holds_at(s, i, replies_bytes(rs)),
    ensures
        values_at(s, i, rs.len(), depth) == Ok::<(Seq<Reply>, int), Fault>(
            (rs, i + replies_bytes(rs).len()),
        ),
    decreases rs, 0nat,
{
    if rs.len() == 0 {
        assert(rs =~= Seq::<Reply>::empty());
    } else {
        let first = reply_bytes(rs[0]);
        lemma_holds_split(s, i, first, replies_bytes(rs.drop_first()));
        lemma_decode_at(s, i, rs[0], depth);
        assert(first.len() > 0) by {
            assert(first[0] == 36 || first[0] == 58 || first[0] == 42 || first[0] == 43);
        }
        lemma_decode_all(s, i + first.len(), rs.drop_first(), depth);
        assert(seq![rs[0]] + rs.drop_first() =~= rs);
    }
}

/// Error lines read back as the failure they stand for.
pub proof fn lemma_error_line_round_trip(l: Seq<char>, rest: Seq<u8>)
    requires
        no_line_break(encode_utf8(l)),
    ensures
        value_at(seq![45u8] + encode_utf8(l) + crlf() + rest, 0) == Err::<(Reply, int), Fault>(
            server_fault(l),
        ),
{
    let t = encode_utf8(l);
    let s = seq![45u8] + t + crlf() + rest;
    let n = t.len() as int;
    assert(s.subrange(1, 1 + n) =~= t);
    assert(s[1 + n] == 13);
    assert(s[1 + n + 1] == 10);
    lemma_line(s, 1, t);
    encode_utf8_valid_utf8(l);
    encode_utf8_decode_utf8(l);
    assert(text_line_at(s, 1) == Ok::<(Seq<char>, int), Fault>((l, 1 + n + 2)));
}

proof fn lemma_replies_bytes_push(rs: Seq<Reply>, x: Reply)
    ensures
        replies_bytes(rs.push(x)) == replies_bytes(rs) + reply_bytes(x),
    decreases rs.len(),
{
    if rs.len() == 0 {
        assert(rs.push(x).drop_first() =~= Seq::<Reply>::empty());
        assert(rs =~= Seq::<Reply>::empty());
        assert(replies_bytes(Seq::<Reply>::empty()) == Seq::<u8>::empty());
        assert(rs.push(x)[0] == x);
        assert(replies_bytes(rs.push(x)) =~= replies_bytes(rs) + reply_bytes(x));
    } else {
        lemma_replies_bytes_push(rs.drop_first(), x);
        assert(rs.push(x).drop_first() =~= rs.drop_first().push(x));
        assert(rs.push(x)[0] == rs[0]);
        let a = reply_bytes(rs[0]);
        let b = replies_bytes(rs.drop_first());
        assert(replies_bytes(rs.push(x)) == a + (b + reply_bytes(x)));
        assert(replies_bytes(rs) == a + b);
        assert(a + (b + reply_bytes(x)) =~= (a + b) + reply_bytes(x));
    }
}

proof fn lemma_all_wire_ok(rs: Seq<Reply>)
    requires
        forall|k: int| 0 <= k < rs.len() ==> wire_ok(#[trigger] rs[k]),
    ensures
        all_wire_ok(rs),
    decreases rs.len(),
{
    if rs.len() > 0 {
        assert(wire_ok(rs[0]));
        assert forall|k: int| 0 <= k < rs.drop_first().len() implies wire_ok(
            #[trigger] rs.drop_first()[k],
        ) by {
            assert(rs.drop_first()[k] == rs[k + 1]);
        }
        lemma_all_wire_ok(rs.drop_first());
    }
}

proof fn lemma_flat_nesting(rs: Seq<Reply>)
    requires
        forall|k: int| 0 <= k < rs.len() ==> (#[trigger] rs[k]) is Data,
    ensures
        max_nesting(rs) == 0,
    decreases rs.len(),
{
    if rs.len() > 0 {
        assert(rs[0] is Data);
        assert(nesting(rs[0]) == 0);
        assert forall|k: int| 0 <= k < rs.drop_first().len() implies (
        #[trigger] rs.drop_first()[k]) is Data by {
            assert(rs.drop_first()[k] == rs[k + 1]);
        }
        lemma_flat_nesting(rs.drop_first());
    }
}

/// The arguments of a command as the data replies that carry them.
pub open spec fn data_replies(args: Seq<Token>, cursor: u64) -> Seq<Reply> {
    args.map_values(|t: Token| Reply::Data(rendered(t, cursor)))
}

proof fn lemma_packed_args_bytes(args: Seq<Token>, cursor: u64)
    ensures
        packed_args(args, cursor) == replies_bytes(data_replies(args, cursor)),
    decreases args.len(),
{
    if args.len() == 0 {
        assert(data_replies(args, cursor) =~= Seq::<Reply>::empty());
    } else {
        let front = args.drop_last();
        lemma_packed_args_bytes(front, cursor);
        assert(data_replies(args, cursor) =~= data_replies(front, cursor).push(
            Reply::Data(rendered(args.last(), cursor)),
        ));
        lemma_replies_bytes_push(data_replies(front, cursor), Reply::Data(rendered(args.last(), cursor)));
    }
}

/// A packed command read back by the wire grammar is an array with one bulk
/// string per argument, command name first: each holds exactly the bytes of
/// its argument (the decimal text of the cursor for the cursor argument), and
/// the reading stops right after the command, whatever follows it.
pub proof fn lemma_command_round_trip(args: Seq<Token>, cursor: u64, rest: Seq<u8>)
    requires
        args.len() <= i64::MAX,
        forall|k: int| 0 <= k < args.len() ==> (#[trigger] rendered(args[k], cursor)).len() <= i64::MAX,
    ensures
        value_at(packed(args, cursor) + rest, 0) == Ok::<(Reply, int), Fault>(
            (Reply::Bulk(data_replies(args, cursor)), packed(args, cursor).len() as int),
        ),
{
    let rs = data_replies(args, cursor);
    assert forall|k: int| 0 <= k < rs.len() implies wire_ok(#[trigger] rs[k]) && rs[k] is Data by {
        assert(rs[k] == Reply::Data(rendered(args[k], cursor)));
    }
    lemma_all_wire_ok(rs);
    lemma_flat_nesting(rs);
    lemma_packed_args_bytes(args, cursor);
    assert(reply_bytes(Reply::Bulk(rs)) == packed(args, cursor));
    lemma_decode_round_trip(Reply::Bulk(rs), rest);
}

/// A bulk string whose declared length is more than the bytes that follow
/// its header fails as a short read.
pub proof fn lemma_truncated_bulk_fails(n: nat, d: Seq<u8>)
    requires
        n <= i64::MAX,
        d.len() < n,
    ensures
        value_at(seq![36u8] + decimal(n) + crlf() + d, 0) == Err::<(Reply, int), Fault>(
            short_read(),
        ),
{
    let s = seq![36u8] + decimal(n) + crlf() + d;
    assert(signed_decimal(n as int) == decimal(n));
    assert(s.subrange(0, s.len() as int) =~= s);
    lemma_header(s, 0, 36u8, n as int, d);
    let j = 1 + decimal(n).len() as int + 2;
    assert(bytes_at(s, j, n as int) == Err::<(Seq<u8>, int), Fault>(short_read()));
}

} // verus!

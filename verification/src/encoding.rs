use vstd::prelude::*;
use vstd::utf8::{encode_scalar, encode_utf8, encode_utf8_decode_utf8, encode_utf8_valid_utf8};
use crate::number::{digit_value, all_digits, digits_value, is_digit, spec_parse_usize, unsigned_digits};
use crate::reader::{line_end, line_len, spec_line};
use crate::server::{spec_bulk, spec_bulks, spec_request, starts_with};
use crate::text::uppercase;

verus! {

/// The character of a decimal digit.
pub open spec fn digit_char(d: nat) -> char {
    if d == 0 { '0' } else if d == 1 { '1' } else if d == 2 { '2' } else if d == 3 { '3' }
    else if d == 4 { '4' } else if d == 5 { '5' } else if d == 6 { '6' } else if d == 7 { '7' }
    else if d == 8 { '8' } else { '9' }
}

/// The decimal digits of `n`, most significant first, without leading zeros.
pub open spec fn decimal(n: nat) -> Seq<char>
    decreases n,
{
    if n < 10 {
        seq![digit_char(n)]
    } else {
        decimal(n / 10).push(digit_char(n % 10))
    }
}

/// The bytes of a header line: `prefix`, the decimal digits of `n`, and `\r\n`.
pub open spec fn header_bytes(prefix: char, n: nat) -> Seq<u8> {
    encode_utf8(seq![prefix] + decimal(n)) + seq![13u8, 10u8]
}

/// A bulk string: `$`, the length of the value's UTF-8 bytes, `\r\n`, the bytes, `\r\n`.
pub open spec fn bulk_bytes(arg: Seq<char>) -> Seq<u8> {
    header_bytes('$', encode_utf8(arg).len()) + encode_utf8(arg) + seq![13u8, 10u8]
}

/// The bulk strings of `args`, one after the other.
pub open spec fn bulks_bytes(args: Seq<Seq<char>>) -> Seq<u8>
    decreases args.len(),
{
    if args.len() == 0 {
        Seq::empty()
    } else {
        bulks_bytes(args.drop_last()) + bulk_bytes(args.last())
    }
}

/// A request as a client writes it: an array header with the number of arguments, and then
/// each argument as a bulk string.
pub open spec fn request_bytes(args: Seq<Seq<char>>) -> Seq<u8> {
    header_bytes('*', args.len()) + bulks_bytes(args)
}

proof fn lemma_decimal(n: nat)
    ensures
        decimal(n).len() > 0,
        all_digits(decimal(n)),
        digits_value(decimal(n)) == n,
    decreases n,
{
    if n >= 10 {
        lemma_decimal(n / 10);
        let d = decimal(n);
        assert(d.drop_last() == decimal(n / 10));
        assert(n == (n / 10) * 10 + n % 10) by (nonlinear_arith);
        assert(digit_value(digit_char(n % 10)) == n % 10);
        assert(d.last() == digit_char(n % 10));
        assert(digits_value(d) == digits_value(decimal(n / 10)) * 10 + digit_value(d.last()));
        assert(digits_value(d) == n);
        assert forall|i: int| 0 <= i < d.len() implies #[trigger] is_digit(d[i]) by {
            if i < d.len() - 1 {
                assert(d[i] == decimal(n / 10)[i]);
            }
        }
    } else {
        assert(decimal(n).drop_last() =~= Seq::<char>::empty());
        reveal_with_fuel(digits_value, 2);
        assert(digit_value(digit_char(n)) == n);
        assert(decimal(n).last() == digit_char(n));
        assert(digits_value(decimal(n)) == n);
    }
}

/// The number of bytes that reading one line takes is one past the first newline.
proof fn lemma_line_end_at(s: Seq<u8>, i: int, j: int)
    requires
        0 <= i <= j < s.len(),
        s[j] == 10u8,
        forall|k: int| i <= k < j ==> s[k] != 10u8,
    ensures
        line_end(s, i) == j + 1,
    decreases j - i,
{
    if i < j {
        lemma_line_end_at(s, i + 1, j);
    }
}

/// A header line in front of anything reads back as its prefix and the digits of its number.
proof fn lemma_header_line(prefix: char, n: nat, rest: Seq<u8>)
    requires
        prefix != '\n',
    ensures
        line_len(header_bytes(prefix, n) + rest) == header_bytes(prefix, n).len(),
        spec_line(header_bytes(prefix, n) + rest) == Ok::<Seq<char>, crate::reader::LineErrorView>(
            seq![prefix] + decimal(n),
        ),
{
    let cs = seq![prefix] + decimal(n);
    lemma_decimal(n);
    assert forall|i: int| 0 <= i < cs.len() implies #[trigger] cs[i] != '\n' by {
        if i > 0 {
            assert(cs[i] == decimal(n)[i - 1]);
            assert(is_digit(decimal(n)[i - 1]));
        }
    }
    law_line_roundtrip(cs, rest);
    assert(header_bytes(prefix, n) + rest == encode_utf8(cs) + seq![13u8, 10u8] + rest);
}

/// The digits of a number read back as that number.
proof fn lemma_parse_decimal(n: nat)
    requires
        n <= usize::MAX,
    ensures
        spec_parse_usize(decimal(n)) == Some(n as usize),
{
    lemma_decimal(n);
    assert(is_digit(decimal(n)[0]));
    assert(unsigned_digits(decimal(n)) == decimal(n));
}

/// A bulk string in front of anything reads back as its value in upper case.
proof fn lemma_bulk_roundtrip(arg: Seq<char>, rest: Seq<u8>)
    requires
        encode_utf8(arg).len() <= usize::MAX,
    ensures
        spec_bulk(bulk_bytes(arg) + rest) == Ok::<(Seq<char>, int), crate::server::RespErrorView>(
            (uppercase(arg), bulk_bytes(arg).len() as int),
        ),
{
    let e = encode_utf8(arg);
    let len = e.len();
    let h = header_bytes('$', len);
    let tail = e + seq![13u8, 10u8] + rest;
    let s = bulk_bytes(arg) + rest;
    assert(s == h + tail);
    lemma_header_line('$', len, tail);
    let line = seq!['$'] + decimal(len);
    assert(line.drop_first() == decimal(len));
    lemma_parse_decimal(len);
    assert(starts_with(line, '$'));
    assert(s.skip(h.len() as int) == tail);
    assert(tail.take(len as int) == e);
    assert(tail[len as int] == 13u8);
    assert(tail[len + 1 as int] == 10u8);
    encode_utf8_valid_utf8(arg);
    encode_utf8_decode_utf8(arg);
}

/// Bulk strings one after the other read back as their values in upper case.
proof fn lemma_bulks_roundtrip(args: Seq<Seq<char>>, rest: Seq<u8>)
    requires
        forall|i: int| 0 <= i < args.len() ==> encode_utf8(#[trigger] args[i]).len() <= usize::MAX,
    ensures
        spec_bulks(bulks_bytes(args) + rest, args.len()) == Ok::<
            (Seq<Seq<char>>, int),
            crate::server::RespErrorView,
        >((args.map_values(|a: Seq<char>| uppercase(a)), bulks_bytes(args).len() as int)),
    decreases args.len(),
{
    if args.len() == 0 {
        assert(args.map_values(|a: Seq<char>| uppercase(a)) =~= Seq::<Seq<char>>::empty());
    } else {
        let init = args.drop_last();
        let last = args.last();
        assert forall|i: int| 0 <= i < init.len() implies encode_utf8(#[trigger] init[i]).len() <= usize::MAX by {
            assert(init[i] == args[i]);
        }
        let tail = bulk_bytes(last) + rest;
        assert(bulks_bytes(args) + rest == bulks_bytes(init) + tail);
        lemma_bulks_roundtrip(init, tail);
        let used = bulks_bytes(init).len() as int;
        assert((bulks_bytes(init) + tail).skip(used) == tail);
        assert(encode_utf8(args[args.len() - 1]).len() <= usize::MAX);
        lemma_bulk_roundtrip(last, rest);
        assert(init.map_values(|a: Seq<char>| uppercase(a)).push(uppercase(last)) =~= args.map_values(
            |a: Seq<char>| uppercase(a),
        ));
    }
}

/// A request as a client writes it reads back as its arguments in upper case, whatever
/// follows it.
pub proof fn law_request_roundtrip(args: Seq<Seq<char>>, rest: Seq<u8>)
    requires
        args.len() <= usize::MAX,
        forall|i: int| 0 <= i < args.len() ==> encode_utf8(#[trigger] args[i]).len() <= usize::MAX,
    ensures
        spec_request(request_bytes(args) + rest) == Ok::<Seq<Seq<char>>, crate::server::RespErrorView>(
            args.map_values(|a: Seq<char>| uppercase(a)),
        ),
{
    let h = header_bytes('*', args.len());
    let tail = bulks_bytes(args) + rest;
    let s = request_bytes(args) + rest;
    assert(s == h + tail);
    lemma_header_line('*', args.len(), tail);
    let line = seq!['*'] + decimal(args.len());
    assert(line.drop_first() == decimal(args.len()));
    lemma_parse_decimal(args.len());
    assert(starts_with(line, '*'));
    assert(s.skip(h.len() as int) == tail);
    lemma_bulks_roundtrip(args, rest);
}

/// No byte of the UTF-8 encoding of a character other than `\n` is a newline byte.
proof fn lemma_scalar_no_newline(c: char)
    requires
        c != '\n',
    ensures
        forall|k: int| 0 <= k < encode_scalar(c as u32).len() ==> #[trigger] encode_scalar(
            c as u32,
        )[k] != 10u8,
{
    let v = c as u32;
    assert(v != 10u32);
    assert((v <= 0x7F && v != 10u32) ==> (v & 0x7F) as u8 != 10u8) by (bit_vector);
    assert(forall|x: u8| (0x80u8 | x) != 10u8) by (bit_vector);
    assert(forall|x: u8| (0xC0u8 | x) != 10u8) by (bit_vector);
    assert(forall|x: u8| (0xE0u8 | x) != 10u8) by (bit_vector);
    assert(forall|x: u8| (0xF0u8 | x) != 10u8) by (bit_vector);
}

/// Text without a newline character encodes to bytes without a newline byte.
proof fn lemma_encode_no_newline(t: Seq<char>)
    requires
        forall|i: int| 0 <= i < t.len() ==> #[trigger] t[i] != '\n',
    ensures
        forall|k: int| 0 <= k < encode_utf8(t).len() ==> #[trigger] encode_utf8(t)[k] != 10u8,
    decreases t.len(),
{
    if t.len() > 0 {
        let rest = t.drop_first();
        assert forall|i: int| 0 <= i < rest.len() implies #[trigger] rest[i] != '\n' by {
            assert(rest[i] == t[i + 1]);
        }
        lemma_encode_no_newline(rest);
        assert(t[0] != '\n');
        lemma_scalar_no_newline(t[0]);
        let head = encode_scalar(t[0] as u32);
        assert(encode_utf8(t) == head + encode_utf8(rest));
        assert forall|k: int| 0 <= k < encode_utf8(t).len() implies #[trigger] encode_utf8(t)[k]
            != 10u8 by {
            if k < head.len() {
                assert(encode_utf8(t)[k] == head[k]);
            } else {
                assert(encode_utf8(t)[k] == encode_utf8(rest)[k - head.len()]);
            }
        }
    }
}

/// A line as a client writes it, text without a newline and then `\r\n`, reads back as its
/// text, whatever follows it, and reading it takes exactly its bytes.
pub proof fn law_line_roundtrip(text: Seq<char>, rest: Seq<u8>)
    requires
        forall|i: int| 0 <= i < text.len() ==> #[trigger] text[i] != '\n',
    ensures
        line_len(encode_utf8(text) + seq![13u8, 10u8] + rest) == encode_utf8(text).len() + 2,
        spec_line(encode_utf8(text) + seq![13u8, 10u8] + rest) == Ok::<
            Seq<char>,
            crate::reader::LineErrorView,
        >(text),
{
    let e = encode_utf8(text);
    let s = e + seq![13u8, 10u8] + rest;
    lemma_encode_no_newline(text);
    assert forall|k: int| 0 <= k < e.len() + 1 implies s[k] != 10u8 by {
        if k < e.len() {
            assert(s[k] == e[k]);
        }
    }
    lemma_line_end_at(s, 0, e.len() + 1 as int);
    assert(s.take(e.len() as int) == e);
    encode_utf8_valid_utf8(text);
    encode_utf8_decode_utf8(text);
}

} // verus!

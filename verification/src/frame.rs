//! Frames of the Redis protocol and their encoding on the wire.

use vstd::prelude::*;
use vstd::utf8::encode_utf8;

verus! {

/// A frame of the Redis protocol.
#[derive(Debug, PartialEq, Eq)]
pub enum Frame {
    Simple(String),
    Error(String),
    Integer(u64),
    Bulk(Vec<u8>),
    Null,
    Array(Vec<Frame>),
}

/// The ASCII byte of a decimal digit.
pub open spec fn digit_byte(d: nat) -> u8 {
    (d + 48) as u8
}

/// Whether a byte is an ASCII decimal digit.
pub open spec fn is_digit(b: u8) -> bool {
    48 <= b <= 57
}

/// The decimal representation of `n`, most significant digit first, with no
/// leading zero (`0` itself is the single digit `0`).
pub open spec fn decimal_digits(n: nat) -> Seq<u8>
    decreases n,
{
    if n < 10 {
        seq![digit_byte(n)]
    } else {
        decimal_digits(n / 10).push(digit_byte(n % 10))
    }
}

/// The value of a sequence of ASCII digits read as a decimal.
pub open spec fn decimal_value(digits: Seq<u8>) -> nat
    decreases digits.len(),
{
    if digits.len() == 0 {
        0
    } else {
        decimal_value(digits.drop_last()) * 10 + (digits.last() - 48) as nat
    }
}

/// The line terminator of the protocol.
pub open spec fn crlf() -> Seq<u8> {
    seq![13u8, 10u8]
}

/// The bytes of a frame on the wire. Arrays are never written.
pub open spec fn frame_bytes(f: Frame) -> Seq<u8> {
    match f {
        Frame::Simple(s) => seq![43u8] + encode_utf8(s@) + crlf(),
        Frame::Error(s) => seq![45u8] + encode_utf8(s@) + crlf(),
        Frame::Integer(v) => seq![58u8] + decimal_digits(v as nat) + crlf(),
        Frame::Null => seq![36u8, 45u8, 49u8] + crlf(),
        Frame::Bulk(b) => seq![36u8] + decimal_digits(b@.len()) + crlf() + b@ + crlf(),
        Frame::Array(_) => Seq::empty(),
    }
}

/// Whether a line's bytes hold no carriage return, so that the line ends
/// at the terminator written after it.
pub open spec fn no_cr(line: Seq<u8>) -> bool {
    forall|i: int| 0 <= i < line.len() ==> line[i] != 13u8
}

/// Whether `bytes` start with the wire form of `f`, a frame that is written
/// (no array) and whose text, if any, holds no carriage return.
pub open spec fn starts_with_frame(bytes: Seq<u8>, f: Frame) -> bool {
    &&& !(f matches Frame::Array(_))
    &&& match f {
        Frame::Simple(s) => no_cr(encode_utf8(s@)),
        Frame::Error(s) => no_cr(encode_utf8(s@)),
        _ => true,
    }
    &&& frame_bytes(f).len() <= bytes.len()
    &&& bytes.take(frame_bytes(f).len() as int) == frame_bytes(f)
}

/// Whether two frames hold the same values: same kind, same text, number or
/// bytes. Arrays are not compared.
pub open spec fn same_frame(g: Frame, f: Frame) -> bool {
    match (g, f) {
        (Frame::Simple(a), Frame::Simple(b)) => a@ == b@,
        (Frame::Error(a), Frame::Error(b)) => a@ == b@,
        (Frame::Integer(a), Frame::Integer(b)) => a == b,
        (Frame::Bulk(a), Frame::Bulk(b)) => a@ == b@,
        (Frame::Null, Frame::Null) => true,
        _ => false,
    }
}

/// The bytes that `write_frame` appends start with the wire form of the
/// frame, whatever follows them.
pub proof fn lemma_written_frame_starts_bytes(f: Frame, rest: Seq<u8>)
    requires
        !(f matches Frame::Array(_)),
        f matches Frame::Simple(s) ==> no_cr(encode_utf8(s@)),
        f matches Frame::Error(s) ==> no_cr(encode_utf8(s@)),
    ensures
        starts_with_frame(frame_bytes(f) + rest, f),
{
    assert((frame_bytes(f) + rest).take(frame_bytes(f).len() as int) =~= frame_bytes(f));
}

/// Reading back the decimal that `write_decimal` writes gives the value.
pub proof fn lemma_decimal_roundtrip(n: nat)
    ensures
        decimal_value(decimal_digits(n)) == n,
        forall|i: int| 0 <= i < decimal_digits(n).len() ==> is_digit(#[trigger] decimal_digits(n)[i]),
    decreases n,
{
    let d = decimal_digits(n);
    if n >= 10 {
        lemma_decimal_roundtrip(n / 10);
        assert(d.drop_last() =~= decimal_digits(n / 10));
        assert(d.last() == (n % 10 + 48) as u8);
        assert((d.last() - 48) as nat == n % 10);
        assert((n / 10) * 10 + n % 10 == n);
        assert(decimal_value(d) == decimal_value(d.drop_last()) * 10 + (d.last() - 48) as nat);
    } else {
        assert(d.drop_last() =~= Seq::<u8>::empty());
        assert(decimal_value(d.drop_last()) == 0);
        assert((d.last() - 48) as nat == n);
        assert(decimal_value(d) == decimal_value(d.drop_last()) * 10 + (d.last() - 48) as nat);
    }
}

/// Whether `d` is the usual decimal of `n`: digits only, at least one, with
/// no leading zero unless it is `0` itself.
pub open spec fn canonical_decimal(d: Seq<u8>, n: nat) -> bool {
    &&& d.len() >= 1
    &&& forall|i: int| 0 <= i < d.len() ==> is_digit(#[trigger] d[i])
    &&& decimal_value(d) == n
    &&& (d.len() == 1 || d[0] != 48u8)
}

/// Every decimal has at least one digit.
proof fn lemma_decimal_nonempty(n: nat)
    ensures
        decimal_digits(n).len() >= 1,
{
}

/// `decimal_digits` gives the usual decimal of every number.
pub proof fn lemma_decimal_digits_canonical(n: nat)
    ensures
        canonical_decimal(decimal_digits(n), n),
    decreases n,
{
    lemma_decimal_roundtrip(n);
    lemma_decimal_nonempty(n);
    if n >= 10 {
        lemma_decimal_digits_canonical(n / 10);
        assert(decimal_digits(n)[0] == decimal_digits(n / 10)[0]);
        if n / 10 < 10 {
            assert(decimal_digits(n / 10) =~= seq![digit_byte(n / 10)]);
            assert(digit_byte(n / 10) != 48u8);
        } else {
            lemma_decimal_nonempty(n / 100);
            assert(n / 10 / 10 == n / 100);
            assert(decimal_digits(n / 10).len() >= 2);
        }
    }
}

/// The wire form of a simple string: `+`, all the UTF-8 bytes of its text,
/// and a line terminator.
pub proof fn lemma_simple_wire_form(s: String)
    ensures
        ({
            let e = frame_bytes(Frame::Simple(s));
            let u = encode_utf8(s@);
            &&& e.len() == u.len() + 3
            &&& e[0] == 43u8
            &&& e.subrange(1, u.len() as int + 1) == u
            &&& e[u.len() as int + 1] == 13u8
            &&& e[u.len() as int + 2] == 10u8
        }),
{
    let e = frame_bytes(Frame::Simple(s));
    let u = encode_utf8(s@);
    assert(e.subrange(1, u.len() as int + 1) =~= u);
}

/// The wire form of an error: `-`, all the UTF-8 bytes of its text, and a
/// line terminator.
pub proof fn lemma_error_wire_form(s: String)
    ensures
        ({
            let e = frame_bytes(Frame::Error(s));
            let u = encode_utf8(s@);
            &&& e.len() == u.len() + 3
            &&& e[0] == 45u8
            &&& e.subrange(1, u.len() as int + 1) == u
            &&& e[u.len() as int + 1] == 13u8
            &&& e[u.len() as int + 2] == 10u8
        }),
{
    let e = frame_bytes(Frame::Error(s));
    let u = encode_utf8(s@);
    assert(e.subrange(1, u.len() as int + 1) =~= u);
}

/// The wire form of an integer: `:`, the usual decimal of the value, and a
/// line terminator.
pub proof fn lemma_integer_wire_form(x: u64)
    ensures
        ({
            let e = frame_bytes(Frame::Integer(x));
            &&& e.len() >= 4
            &&& e[0] == 58u8
            &&& canonical_decimal(e.subrange(1, e.len() - 2), x as nat)
            &&& e[e.len() - 2] == 13u8
            &&& e[e.len() - 1] == 10u8
        }),
{
    let e = frame_bytes(Frame::Integer(x));
    lemma_decimal_digits_canonical(x as nat);
    assert(e.subrange(1, e.len() - 2) =~= decimal_digits(x as nat));
}

/// The wire form of null is `$-1` and a line terminator.
pub proof fn lemma_null_wire_form()
    ensures
        frame_bytes(Frame::Null) == seq![36u8, 45u8, 49u8, 13u8, 10u8],
{
    assert(frame_bytes(Frame::Null) =~= seq![36u8, 45u8, 49u8, 13u8, 10u8]);
}

/// The wire form of a bulk string: `$`, the usual decimal of the payload's
/// length, a line terminator, the whole payload, and a line terminator.
pub proof fn lemma_bulk_wire_form(v: Vec<u8>)
    ensures
        ({
            let e = frame_bytes(Frame::Bulk(v));
            let n = v@.len() as int;
            let k = e.len() - n - 5;
            &&& k >= 1
            &&& e[0] == 36u8
            &&& canonical_decimal(e.subrange(1, 1 + k), n as nat)
            &&& e[1 + k] == 13u8
            &&& e[2 + k] == 10u8
            &&& e.subrange(3 + k, 3 + k + n) == v@
            &&& e[e.len() - 2] == 13u8
            &&& e[e.len() - 1] == 10u8
        }),
{
    let e = frame_bytes(Frame::Bulk(v));
    let n = v@.len() as int;
    let d = decimal_digits(n as nat);
    let k = d.len() as int;
    lemma_decimal_digits_canonical(n as nat);
    assert(e.len() == k + n + 5);
    assert(e.subrange(1, 1 + k) =~= d);
    assert(e.subrange(3 + k, 3 + k + n) =~= v@);
}

/// Appends the decimal representation of `val` and a line terminator.
pub fn write_decimal(out: &mut Vec<u8>, val: u64)
    ensures
        final(out)@ == old(out)@ + decimal_digits(val as nat) + crlf(),
{
    let mut rev: Vec<u8> = Vec::new();
    let mut v: u64 = val;
    loop
        invariant_except_break
            decimal_digits(val as nat) == decimal_digits(v as nat) + rev@.reverse(),
        ensures
            decimal_digits(val as nat) == rev@.reverse(),
        decreases v,
    {
        let d: u8 = (v % 10) as u8;
        let ghost old_rev = rev@;
        rev.push(d + 48);
        assert(rev@.reverse() =~= seq![digit_byte((v % 10) as nat)] + old_rev.reverse());
        if v < 10 {
            assert(decimal_digits(v as nat) =~= seq![digit_byte((v % 10) as nat)]);
            break;
        }
        v = v / 10;
        assert(decimal_digits(v as nat).push(digit_byte((v * 10 + d) as nat % 10)) + old_rev.reverse()
            =~= decimal_digits(v as nat) + rev@.reverse());
    }
    let ghost start = out@;
    let mut i: usize = rev.len();
    while i > 0
        invariant
            i <= rev.len(),
            out@ == start + rev@.reverse().take(rev.len() - i),
        decreases i,
    {
        out.push(rev[i - 1]);
        i = i - 1;
        assert(out@ =~= start + rev@.reverse().take(rev.len() - i));
    }
    assert(rev@.reverse().take(rev.len() as int) =~= rev@.reverse());
    out.push(13);
    out.push(10);
    assert(out@ =~= start + decimal_digits(val as nat) + crlf());
}

/// Appends `bytes` to `out`.
fn write_all(out: &mut Vec<u8>, bytes: &[u8])
    ensures
        final(out)@ == old(out)@ + bytes@,
{
    let ghost start = out@;
    let mut i: usize = 0;
    while i < bytes.len()
        invariant
            i <= bytes@.len(),
            out@ == start + bytes@.take(i as int),
        decreases bytes@.len() - i,
    {
        out.push(bytes[i]);
        i = i + 1;
        assert(out@ =~= start + bytes@.take(i as int));
    }
    assert(bytes@.take(i as int) =~= bytes@);
}

/// Appends the wire form of `frame` to `out`. Arrays are not written.
pub fn write_frame(out: &mut Vec<u8>, frame: &Frame)
    requires
        !(frame matches Frame::Array(_)),
    ensures
        final(out)@ == old(out)@ + frame_bytes(*frame),
{
    let ghost start = out@;
    match frame {
        Frame::Simple(val) => {
            out.push(43);
            write_all(out, val.as_str().as_bytes());
            out.push(13);
            out.push(10);
        },
        Frame::Error(val) => {
            out.push(45);
            write_all(out, val.as_str().as_bytes());
            out.push(13);
            out.push(10);
        },
        Frame::Integer(val) => {
            out.push(58);
            write_decimal(out, *val);
        },
        Frame::Null => {
            out.push(36);
            out.push(45);
            out.push(49);
            out.push(13);
            out.push(10);
        },
        Frame::Bulk(val) => {
            let len = val.len();
            out.push(36);
            write_decimal(out, len as u64);
            write_all(out, val.as_slice());
            out.push(13);
            out.push(10);
        },
        Frame::Array(_val) => {
            return vstd::pervasive::unreached();
        },
    }
    assert(out@ =~= start + frame_bytes(*frame));
}

} // verus!

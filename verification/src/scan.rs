//! Where the frame check of `mini_redis` panics. The check reads a bulk
//! length as a `usize` and adds two for the line terminator; for a length of
//! `usize::MAX - 1` or `usize::MAX` that sum overflows. A walk over the bytes
//! along the path the check takes tells whether it gets there.

use vstd::prelude::*;
use crate::buffer::INITIAL_CAPACITY;
use crate::frame::{
    Frame, decimal_digits, decimal_value, frame_bytes, is_digit, lemma_decimal_roundtrip,
    starts_with_frame,
};

verus! {

/// Where a walk along the frame check ends.
#[derive(Clone, Copy, Debug, PartialEq, Eq)]
pub enum Walk {
    /// The element checked ends just before this position.
    Next(usize),
    /// The check stops with an error, incomplete or invalid, without a panic.
    Halt,
    /// The check reaches a bulk length whose two extra bytes overflow.
    Panic,
}

/// The first line terminator at or after `i` (the position of its `\r`).
pub open spec fn crlf_from(s: Seq<u8>, i: int) -> Option<int>
    decreases s.len() - i,
{
    if i < 0 || i + 1 >= s.len() {
        None
    } else if s[i] == 13u8 && s[i + 1] == 10u8 {
        Some(i)
    } else {
        crlf_from(s, i + 1)
    }
}

/// The end of the run of digits that starts at `i`.
pub open spec fn digits_end(s: Seq<u8>, i: int) -> int
    decreases s.len() - i,
{
    if 0 <= i < s.len() && is_digit(s[i]) {
        digits_end(s, i + 1)
    } else {
        i
    }
}

/// A decimal line at `pos` as the check reads it: the value of the digits at
/// the start of the line, and the position after its terminator; `None` when
/// the line has no terminator yet, starts with no digit, or holds a value
/// beyond `u64::MAX`.
pub open spec fn line_decimal(s: Seq<u8>, pos: int) -> Option<(nat, int)> {
    match crlf_from(s, pos) {
        None => None,
        Some(e) => {
            let end = digits_end(s, pos);
            let v = decimal_value(s.subrange(pos, end));
            if end == pos || v > u64::MAX {
                None
            } else {
                Some((v, e + 2))
            }
        },
    }
}

/// The walk of the check over one frame starting at `pos`.
pub open spec fn walk_frame(s: Seq<u8>, pos: int) -> Walk
    decreases s.len() - pos, 0int,
{
    if pos < 0 || pos >= s.len() {
        Walk::Halt
    } else {
        let t = s[pos];
        let p = pos + 1;
        if t == 43u8 || t == 45u8 {
            match crlf_from(s, p) {
                None => Walk::Halt,
                Some(e) => Walk::Next((e + 2) as usize),
            }
        } else if t == 58u8 {
            match line_decimal(s, p) {
                None => Walk::Halt,
                Some((_, q)) => Walk::Next(q as usize),
            }
        } else if t == 36u8 {
            if p >= s.len() {
                Walk::Halt
            } else if s[p] == 45u8 {
                if p + 4 <= s.len() {
                    Walk::Next((p + 4) as usize)
                } else {
                    Walk::Halt
                }
            } else {
                match line_decimal(s, p) {
                    None => Walk::Halt,
                    Some((v, q)) => if v > usize::MAX {
                        Walk::Halt
                    } else if v + 2 > usize::MAX {
                        Walk::Panic
                    } else if q + v + 2 <= s.len() {
                        Walk::Next((q + v + 2) as usize)
                    } else {
                        Walk::Halt
                    },
                }
            }
        } else if t == 42u8 {
            match line_decimal(s, p) {
                None => Walk::Halt,
                Some((v, q)) => if q <= pos || q > s.len() {
                    Walk::Halt
                } else {
                    walk_elems(s, q, v)
                },
            }
        } else {
            Walk::Halt
        }
    }
}

/// The walk of the check over `k` frames of an array, starting at `pos`.
pub open spec fn walk_elems(s: Seq<u8>, pos: int, k: nat) -> Walk
    decreases s.len() - pos, 1int,
{
    if k == 0 {
        Walk::Next(pos as usize)
    } else if pos < 0 || pos > s.len() {
        Walk::Halt
    } else {
        match walk_frame(s, pos) {
            Walk::Next(p2) => if p2 <= pos || p2 > s.len() {
                Walk::Halt
            } else {
                walk_elems(s, p2 as int, (k - 1) as nat)
            },
            other => other,
        }
    }
}

/// Whether `mini_redis::Frame::check` panics on `bytes`.
pub open spec fn check_panics(s: Seq<u8>) -> bool {
    walk_frame(s, 0) == Walk::Panic
}

/// A run of digits ends inside the bytes, and holds only digits.
proof fn lemma_digits_end(s: Seq<u8>, i: int)
    requires
        0 <= i <= s.len(),
    ensures
        i <= digits_end(s, i) <= s.len(),
        forall|k: int| i <= k < digits_end(s, i) ==> is_digit(#[trigger] s[k]),
    decreases s.len() - i,
{
    if i < s.len() && is_digit(s[i]) {
        lemma_digits_end(s, i + 1);
    }
}

/// A longer run of digits is worth at least as much as its prefix.
proof fn lemma_decimal_value_grows(digits: Seq<u8>, n: nat)
    requires
        n <= digits.len(),
        forall|k: int| 0 <= k < digits.len() ==> is_digit(#[trigger] digits[k]),
    ensures
        decimal_value(digits.take(n as int)) <= decimal_value(digits),
    decreases digits.len(),
{
    if n < digits.len() {
        let shorter = digits.drop_last();
        assert(shorter.take(n as int) =~= digits.take(n as int));
        lemma_decimal_value_grows(shorter, n);
        assert(is_digit(digits[digits.len() - 1]));
    } else {
        assert(digits.take(n as int) =~= digits);
    }
}

/// The first line terminator at or after `i`.
fn crlf_exec(bytes: &[u8], i: usize) -> (r: Option<usize>)
    ensures
        match r {
            Some(e) => crlf_from(bytes@, i as int) == Some(e as int) && e + 1 < bytes@.len(),
            None => crlf_from(bytes@, i as int) is None,
        },
{
    let mut k: usize = i;
    while k < bytes.len() && k + 1 < bytes.len()
        invariant
            i <= k,
            crlf_from(bytes@, i as int) == crlf_from(bytes@, k as int),
        decreases bytes@.len() - k,
    {
        if bytes[k] == 13 && bytes[k + 1] == 10 {
            return Some(k);
        }
        k = k + 1;
    }
    None
}

/// The value of the run of digits at `start`, or `None` beyond `u64::MAX`.
fn decimal_at(bytes: &[u8], start: usize) -> (r: Option<u64>)
    requires
        start <= bytes@.len(),
    ensures
        match r {
            Some(v) => v == decimal_value(bytes@.subrange(start as int, digits_end(bytes@, start as int))),
            None => decimal_value(bytes@.subrange(start as int, digits_end(bytes@, start as int))) > u64::MAX,
        },
{
    let ghost s = bytes@;
    proof {
        lemma_digits_end(s, start as int);
    }
    let mut j: usize = start;
    let mut value: u64 = 0;
    while j < bytes.len() && 48 <= bytes[j] && bytes[j] <= 57
        invariant
            s == bytes@,
            start <= j <= s.len(),
            j <= digits_end(s, start as int) <= s.len(),
            digits_end(s, start as int) == digits_end(s, j as int),
            forall|k: int| start <= k < digits_end(s, start as int) ==> is_digit(#[trigger] s[k]),
            value == decimal_value(s.subrange(start as int, j as int)),
        decreases s.len() - j,
    {
        let d: u64 = (bytes[j] - 48) as u64;
        proof {
            lemma_digits_end(s, j + 1);
        }
        assert(s.subrange(start as int, j + 1).drop_last() =~= s.subrange(start as int, j as int));
        if value > (u64::MAX - d) / 10 {
            assert(value * 10 + d > u64::MAX) by (nonlinear_arith)
                requires
                    value > (u64::MAX - d) / 10,
                    d <= 9;
            proof {
                let end = digits_end(s, start as int);
                let run = s.subrange(start as int, end);
                assert(run.take(j + 1 - start) =~= s.subrange(start as int, j + 1));
                lemma_decimal_value_grows(run, (j + 1 - start) as nat);
            }
            return None;
        }
        assert(value * 10 + d <= u64::MAX) by (nonlinear_arith)
            requires
                value <= (u64::MAX - d) / 10,
                d <= 9;
        value = value * 10 + d;
        j = j + 1;
    }
    Some(value)
}

/// A decimal line at `pos`, as `line_decimal`.
fn line_decimal_exec(bytes: &[u8], pos: usize) -> (r: Option<(u64, usize)>)
    requires
        pos <= bytes@.len(),
    ensures
        match r {
            Some((v, q)) => line_decimal(bytes@, pos as int) == Some((v as nat, q as int)) && q <= bytes@.len(),
            None => line_decimal(bytes@, pos as int) is None,
        },
{
    match crlf_exec(bytes, pos) {
        None => None,
        Some(e) => {
            if pos >= bytes.len() || !(48 <= bytes[pos] && bytes[pos] <= 57) {
                return None;
            }
            proof {
                lemma_digits_end(bytes@, pos + 1);
            }
            match decimal_at(bytes, pos) {
                None => None,
                Some(v) => Some((v, e + 2)),
            }
        },
    }
}

/// The walk of the check over one frame at `pos`, as `walk_frame`.
fn walk_frame_exec(bytes: &[u8], pos: usize) -> (r: Walk)
    ensures
        r == walk_frame(bytes@, pos as int),
    decreases bytes@.len() - pos,
{
    if pos >= bytes.len() {
        return Walk::Halt;
    }
    let t = bytes[pos];
    let p = pos + 1;
    if t == 43 || t == 45 {
        match crlf_exec(bytes, p) {
            None => Walk::Halt,
            Some(e) => Walk::Next(e + 2),
        }
    } else if t == 58 {
        match line_decimal_exec(bytes, p) {
            None => Walk::Halt,
            Some((_, q)) => Walk::Next(q),
        }
    } else if t == 36 {
        if p >= bytes.len() {
            Walk::Halt
        } else if bytes[p] == 45 {
            if bytes.len() - p >= 4 {
                Walk::Next(p + 4)
            } else {
                Walk::Halt
            }
        } else {
            match line_decimal_exec(bytes, p) {
                None => Walk::Halt,
                Some((v, q)) => {
                    if v > usize::MAX as u64 {
                        Walk::Halt
                    } else {
                        let n = v as usize;
                        if n > usize::MAX - 2 {
                            Walk::Panic
                        } else if n + 2 <= bytes.len() - q {
                            Walk::Next(q + n + 2)
                        } else {
                            Walk::Halt
                        }
                    }
                },
            }
        }
    } else if t == 42 {
        match line_decimal_exec(bytes, p) {
            None => Walk::Halt,
            Some((v, q)) => {
                if q <= pos || q > bytes.len() {
                    return Walk::Halt;
                }
                let mut cur: usize = q;
                let mut k: u64 = v;
                loop
                    invariant
                        pos < cur <= bytes@.len(),
                        walk_frame(bytes@, pos as int) == walk_elems(bytes@, cur as int, k as nat),
                    decreases bytes@.len() - cur,
                {
                    if k == 0 {
                        return Walk::Next(cur);
                    }
                    match walk_frame_exec(bytes, cur) {
                        Walk::Next(p2) => {
                            if p2 <= cur || p2 > bytes.len() {
                                return Walk::Halt;
                            }
                            cur = p2;
                            k = k - 1;
                        },
                        other => {
                            return other;
                        },
                    }
                }
            },
        }
    } else {
        Walk::Halt
    }
}

/// Whether `mini_redis::Frame::check` would panic on `bytes`: whether its
/// walk reaches a bulk length of `usize::MAX - 1` or `usize::MAX`.
pub fn check_would_panic(bytes: &[u8]) -> (r: bool)
    ensures
        r == check_panics(bytes@),
{
    match walk_frame_exec(bytes, 0) {
        Walk::Panic => true,
        _ => false,
    }
}

/// Whether `s[i]` is a `$` whose line holds a length that is a `usize` but
/// overflows when two are added.
pub open spec fn overflowing_bulk_header(s: Seq<u8>, i: int) -> bool {
    &&& 0 <= i < s.len()
    &&& s[i] == 36u8
    &&& line_decimal(s, i + 1) matches Some((v, _)) && v <= usize::MAX && v + 2 > usize::MAX
}

/// The walk over a frame ends in a panic only through an overflowing bulk
/// header at or after where it starts; and a frame that starts with one
/// does end in a panic.
pub proof fn lemma_frame_panic_needs_header(s: Seq<u8>, pos: int)
    ensures
        walk_frame(s, pos) == Walk::Panic ==> exists|i: int| pos <= i && #[trigger] overflowing_bulk_header(s, i),
        overflowing_bulk_header(s, pos) ==> walk_frame(s, pos) == Walk::Panic,
    decreases s.len() - pos, 0int,
{
    if 0 <= pos < s.len() && s[pos] == 42u8 {
        match line_decimal(s, pos + 1) {
            Some((v, q)) => {
                if pos < q <= s.len() {
                    lemma_elems_panic_needs_header(s, q, v);
                }
            },
            None => {},
        }
    }
    if walk_frame(s, pos) == Walk::Panic && s[pos] == 36u8 {
        assert(overflowing_bulk_header(s, pos));
    }
    if overflowing_bulk_header(s, pos) {
        let p = pos + 1;
        assert(crlf_from(s, p) is Some);
        assert(digits_end(s, p) != p);
        assert(is_digit(s[p]));
    }
}

/// The walk over the frames of an array ends in a panic only through an
/// overflowing bulk header at or after where it starts.
pub proof fn lemma_elems_panic_needs_header(s: Seq<u8>, pos: int, k: nat)
    ensures
        walk_elems(s, pos, k) == Walk::Panic ==> exists|i: int| pos <= i && #[trigger] overflowing_bulk_header(s, i),
    decreases s.len() - pos, 1int,
{
    if k > 0 && 0 <= pos <= s.len() {
        lemma_frame_panic_needs_header(s, pos);
        match walk_frame(s, pos) {
            Walk::Next(p2) => {
                if pos < p2 <= s.len() {
                    lemma_elems_panic_needs_header(s, p2 as int, (k - 1) as nat);
                }
            },
            _ => {},
        }
    }
}

/// The check panics only where it reads an overflowing bulk header: bytes
/// without one, such as a whole command of bulk strings of ordinary lengths,
/// never make it panic.
pub proof fn lemma_panic_needs_header(s: Seq<u8>)
    ensures
        check_panics(s) ==> exists|i: int| #[trigger] overflowing_bulk_header(s, i),
        (forall|i: int| !#[trigger] overflowing_bulk_header(s, i)) ==> !check_panics(s),
{
    lemma_frame_panic_needs_header(s, 0);
}

/// A run of digits that stops at a byte that is no digit ends there.
proof fn lemma_digits_end_at(s: Seq<u8>, i: int, j: int)
    requires
        0 <= i <= j < s.len(),
        forall|k: int| i <= k < j ==> is_digit(#[trigger] s[k]),
        !is_digit(s[j]),
    ensures
        digits_end(s, i) == j,
    decreases j - i,
{
    if i < j {
        lemma_digits_end_at(s, i + 1, j);
    }
}

/// The check never panics on bytes that start with the wire form of a
/// frame (as `frame::write_frame` writes it) and fit in the read buffer:
/// the only bulk length it reads is that of the frame.
pub proof fn lemma_written_frame_never_panics(s: Seq<u8>, f: Frame)
    requires
        starts_with_frame(s, f),
        s.len() <= INITIAL_CAPACITY,
    ensures
        !check_panics(s),
{
    let fb = frame_bytes(f);
    let n = fb.len() as int;
    assert(s.take(n) == fb);
    assert forall|i: int| 0 <= i < n implies s[i] == fb[i] by {
        assert(s.take(n)[i] == fb[i]);
    }
    match f {
        Frame::Bulk(b) => {
            let digits = decimal_digits(b@.len());
            let k = digits.len() as int;
            lemma_decimal_roundtrip(b@.len());
            assert(fb[0] == 36u8);
            assert forall|i: int| 0 <= i < k implies s[1 + i] == digits[i] by {
                assert(fb[1 + i] == digits[i]);
            }
            assert(fb[1 + k] == 13u8);
            assert forall|i: int| 1 <= i < 1 + k implies is_digit(#[trigger] s[i]) by {
                assert(s[i] == digits[i - 1]);
            }
            assert(k >= 1);
            assert(s[1] == digits[0]);
            lemma_digits_end_at(s, 1, 1 + k);
            assert(s.subrange(1, 1 + k) =~= digits);
            assert(b@.len() <= n);
        },
        Frame::Simple(_) => {
            assert(fb[0] == 43u8);
        },
        Frame::Error(_) => {
            assert(fb[0] == 45u8);
        },
        Frame::Integer(_) => {
            assert(fb[0] == 58u8);
        },
        Frame::Null => {
            assert(fb[0] == 36u8);
            assert(fb[1] == 45u8);
        },
        Frame::Array(_) => {},
    }
}

} // verus!

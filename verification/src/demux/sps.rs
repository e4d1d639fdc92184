//! Which sequence parameter sets are safe to hand to the demultiplexer.
//!
//! The demultiplexer decodes the parameter set of a video track. Its arithmetic overflows on
//! codes of more than sixty-three leading zeros and on bit depths beyond a byte, and it reads as
//! many picture order offsets of an H.264 set as a count says, however large. None of that occurs
//! in a parameter set that an encoder writes: the ones that are plain in the sense of this module
//! are free of it.

use vstd::prelude::*;

verus! {

/// The most bytes of a unit that the demultiplexer takes up.
pub const MAX_UNIT_BYTES: usize = 4_194_304;

/// The most leading zeros of a code in a plain parameter set.
pub const MAX_LEADING_ZEROS: usize = 54;

/// How many zero bytes in a row a plain parameter set never has.
pub const ZERO_RUN: usize = 6;

/// The greatest bit depth above eight that a byte holds.
pub const MAX_DEPTH_MINUS_8: u64 = 247;

/// The most picture order offsets of a plain parameter set.
pub const MAX_ORDER_OFFSETS: u64 = 255;

/// How many bytes of an H.264 parameter set stand before its first code.
pub const HEADER_BYTES: usize = 4;

/// How many bytes of an H.265 parameter set stand before its fields.
pub const HEVC_HEADER_BYTES: usize = 2;

/// How many bytes of the fields of an H.265 parameter set come before those on its layers.
pub const GENERAL_BYTES: usize = 13;

/// How many bytes of the fields of an H.265 parameter set with layers come before the first layer.
pub const LAYERED_BYTES: usize = 15;

/// The bytes without those that the encoder put in to keep start codes apart, and the number of
/// zeros that they end in.
pub open spec fn unescaping(bytes: Seq<u8>) -> (Seq<u8>, nat)
    decreases bytes.len(),
{
    if bytes.len() == 0 {
        (Seq::empty(), 0)
    } else {
        let (out, zeros) = unescaping(bytes.drop_last());
        let b = bytes.last();
        if zeros >= 2 && b == 3 {
            (out, 0)
        } else {
            (
                out.push(b),
                if b == 0 {
                    zeros + 1
                } else {
                    0
                },
            )
        }
    }
}

/// The bytes without those that the encoder put in to keep start codes apart.
pub open spec fn unescaped(bytes: Seq<u8>) -> Seq<u8> {
    unescaping(bytes).0
}

fn unescape(bytes: &Vec<u8>, from: usize) -> (out: Vec<u8>)
    requires
        from <= bytes@.len(),
    ensures
        out@ == unescaped(bytes@.skip(from as int)),
        out@.len() <= bytes@.len() - from,
{
    let ghost all = bytes@.skip(from as int);
    let mut out: Vec<u8> = Vec::new();
    let mut zeros: usize = 0;
    let mut i: usize = from;
    while i < bytes.len()
        invariant
            from <= i <= bytes@.len(),
            all == bytes@.skip(from as int),
            (out@, zeros as nat) == unescaping(all.take(i - from)),
            out@.len() <= i - from,
            zeros <= i - from,
        decreases bytes@.len() - i,
    {
        let b: u8 = bytes[i];
        assert(all.take(i + 1 - from).drop_last() =~= all.take(i - from));
        if zeros >= 2 && b == 3 {
            zeros = 0;
        } else {
            out.push(b);
            zeros = if b == 0 {
                zeros + 1
            } else {
                0
            };
        }
        i = i + 1;
    }
    assert(all.take(i - from) =~= all);
    out
}

/// What the bits of a byte are worth, the highest first.
pub open spec fn weight(k: int) -> u8 {
    if k == 0 {
        128
    } else if k == 1 {
        64
    } else if k == 2 {
        32
    } else if k == 3 {
        16
    } else if k == 4 {
        8
    } else if k == 5 {
        4
    } else if k == 6 {
        2
    } else {
        1
    }
}

/// The number of bits.
pub open spec fn bits(body: Seq<u8>) -> int {
    8 * body.len() as int
}

/// Bit `p`, the highest of each byte first.
pub open spec fn bit(body: Seq<u8>, p: int) -> bool {
    (body[p / 8] / weight(p % 8)) % 2 == 1
}

fn read_bit(body: &Vec<u8>, p: usize) -> (set: bool)
    requires
        p < bits(body@),
    ensures
        set == bit(body@, p as int),
{
    let k: usize = p % 8;
    let by: u8 = if k == 0 {
        128
    } else if k == 1 {
        64
    } else if k == 2 {
        32
    } else if k == 3 {
        16
    } else if k == 4 {
        8
    } else if k == 5 {
        4
    } else if k == 6 {
        2
    } else {
        1
    };
    (body[p / 8] / by) % 2 == 1
}

/// How many zeros stand from bit `p` on.
pub open spec fn zeros_from(body: Seq<u8>, p: int) -> nat
    decreases bits(body) - p,
{
    if p >= bits(body) || bit(body, p) {
        0
    } else {
        1 + zeros_from(body, p + 1)
    }
}

/// The number that a one and the `n` bits from `p` on spell.
pub open spec fn spelled(body: Seq<u8>, p: int, n: nat) -> nat
    decreases n,
{
    if n == 0 {
        1
    } else {
        2 * spelled(body, p, (n - 1) as nat) + if bit(body, p + n - 1) {
            1nat
        } else {
            0
        }
    }
}

/// What is read at one place of a parameter set.
#[derive(Debug, Clone, Copy, PartialEq, Eq, Structural)]
pub enum Code {
    /// The bits end before.
    Ended,
    /// A code with too many leading zeros.
    TooLong,
    /// A number, and where the bits go on.
    Number { value: u64, next: usize },
}

/// The code at bit `p`: as many zeros as bits follow the first one. Behind the last bit stands
/// zero.
pub open spec fn code(body: Seq<u8>, p: int) -> Code {
    let zeros = zeros_from(body, p);
    let first = p + zeros;
    if zeros == 0 {
        Code::Number {
            value: 0,
            next: if p < bits(body) {
                (p + 1) as usize
            } else {
                p as usize
            },
        }
    } else if first + 1 + zeros > bits(body) {
        Code::Ended
    } else if zeros > MAX_LEADING_ZEROS {
        Code::TooLong
    } else {
        Code::Number {
            value: (spelled(body, first + 1, zeros) - 1) as u64,
            next: (first + 1 + zeros) as usize,
        }
    }
}

/// The bytes fit a unit, so that their bits can be counted.
pub open spec fn is_short(body: Seq<u8>) -> bool {
    body.len() <= MAX_UNIT_BYTES
}

fn read_code(body: &Vec<u8>, p: usize) -> (read: Code)
    requires
        is_short(body@),
        p <= bits(body@),
    ensures
        read == code(body@, p as int),
        read matches Code::Number { next, .. } ==> next <= bits(body@),
{
    let total: usize = body.len() * 8;
    let mut at: usize = p;
    while at < total && !read_bit(body, at)
        invariant
            total == bits(body@),
            p <= at <= total,
            zeros_from(body@, p as int) == (at - p) + zeros_from(body@, at as int),
        decreases total - at,
    {
        at = at + 1;
    }
    let zeros: usize = at - p;
    assert(zeros_from(body@, at as int) == 0);
    if zeros == 0 {
        return Code::Number {
            value: 0,
            next: if p < total {
                p + 1
            } else {
                p
            },
        };
    }
    if at + 1 + zeros > total {
        return Code::Ended;
    }
    if zeros > MAX_LEADING_ZEROS {
        return Code::TooLong;
    }
    let mut value: u64 = 1;
    let mut n: usize = 0;
    proof {
        vstd::arithmetic::power2::lemma2_to64();
    }
    while n < zeros
        invariant
            total == bits(body@),
            n <= zeros <= MAX_LEADING_ZEROS,
            at + 1 + zeros <= total,
            value == spelled(body@, at + 1, n as nat),
            1 <= value < 2 * vstd::arithmetic::power2::pow2(n as nat),
        decreases zeros - n,
    {
        proof {
            vstd::arithmetic::power2::lemma_pow2_unfold((n + 1) as nat);
            vstd::arithmetic::power2::lemma_pow2_strictly_increases(n as nat, 60);
            vstd::arithmetic::power2::lemma2_to64_rest();
        }
        let set: bool = read_bit(body, at + 1 + n);
        value = 2 * value + if set {
            1
        } else {
            0
        };
        n = n + 1;
    }
    Code::Number { value: value - 1, next: at + 1 + zeros }
}

/// The step that a code stands for, counted around a byte: odd codes go up, even ones down.
pub open spec fn delta(value: u64) -> int {
    if value % 2 == 0 {
        -(value / 2)
    } else {
        (value / 2) + 1
    }
}

/// The scale that follows `last`, counted around a byte.
pub open spec fn next_scale(last: u64, value: u64) -> u64 {
    ((last + delta(value)) % 256) as u64
}

fn scale_after(last: u64, value: u64) -> (next: u64)
    requires
        last < 256,
    ensures
        next == next_scale(last, value),
        next < 256,
{
    let half: u64 = (value / 2) % 256;
    if value % 2 == 0 {
        assert((last - value / 2) % 256 == (last + 256 - half) % 256);
        (last + 256 - half) % 256
    } else {
        assert((last + value / 2 + 1) % 256 == (last + half + 1) % 256);
        (last + half + 1) % 256
    }
}

/// Where a part of a parameter set leads to.
#[derive(Debug, Clone, Copy, PartialEq, Eq, Structural)]
pub enum Part {
    /// The bits end in it.
    Ended,
    /// It holds what a plain parameter set does not.
    Odd,
    /// The bits go on here.
    Next(usize),
}

/// A flag at bit `p`.
pub open spec fn flag(body: Seq<u8>, p: int) -> Part {
    if p < bits(body) {
        Part::Next((p + 1) as usize)
    } else {
        Part::Ended
    }
}

/// `n` steps of a scaling list from bit `p` on, where `last` is the scale before and `open` says
/// that the list still has steps of its own.
pub open spec fn scaling_list(body: Seq<u8>, p: int, n: nat, last: u64, open: bool) -> Part
    decreases n,
{
    if n == 0 || !open {
        Part::Next(p as usize)
    } else {
        match code(body, p) {
            Code::Ended => Part::Ended,
            Code::TooLong => Part::Odd,
            Code::Number { value, next } => scaling_list(
                body,
                next as int,
                (n - 1) as nat,
                next_scale(last, value),
                next_scale(last, value) != 0,
            ),
        }
    }
}

fn pass_scaling_list(body: &Vec<u8>, p: usize, n: usize) -> (part: Part)
    requires
        is_short(body@),
        p <= bits(body@),
    ensures
        part == scaling_list(body@, p as int, n as nat, 8, true),
        part matches Part::Next(next) ==> next <= bits(body@),
{
    let mut at: usize = p;
    let mut left: usize = n;
    let mut last: u64 = 8;
    let mut open: bool = true;
    while left > 0 && open
        invariant
            is_short(body@),
            at <= bits(body@),
            last < 256,
            scaling_list(body@, p as int, n as nat, 8, true) == scaling_list(
                body@,
                at as int,
                left as nat,
                last,
                open,
            ),
        decreases left,
    {
        match read_code(body, at) {
            Code::Ended => {
                return Part::Ended;
            },
            Code::TooLong => {
                return Part::Odd;
            },
            Code::Number { value, next } => {
                last = scale_after(last, value);
                open = last != 0;
                at = next;
            },
        }
        left = left - 1;
    }
    Part::Next(at)
}

/// The number of steps of scaling list `i`.
pub open spec fn list_size(i: nat) -> nat {
    if i < 6 {
        16
    } else {
        64
    }
}

/// The scaling lists from `i` up to `n`, each with a flag that says whether it is there.
pub open spec fn scaling_lists(body: Seq<u8>, p: int, i: nat, n: nat) -> Part
    decreases n - i,
{
    if i >= n {
        Part::Next(p as usize)
    } else if p >= bits(body) {
        Part::Ended
    } else if !bit(body, p) {
        scaling_lists(body, p + 1, i + 1, n)
    } else {
        match scaling_list(body, p + 1, list_size(i), 8, true) {
            Part::Ended => Part::Ended,
            Part::Odd => Part::Odd,
            Part::Next(next) => scaling_lists(body, next as int, i + 1, n),
        }
    }
}

fn pass_scaling_lists(body: &Vec<u8>, p: usize, n: usize) -> (part: Part)
    requires
        is_short(body@),
        p <= bits(body@),
        n <= 12,
    ensures
        part == scaling_lists(body@, p as int, 0, n as nat),
        part matches Part::Next(next) ==> next <= bits(body@),
{
    let total: usize = body.len() * 8;
    let mut at: usize = p;
    let mut i: usize = 0;
    while i < n
        invariant
            is_short(body@),
            total == bits(body@),
            at <= total,
            i <= n <= 12,
            scaling_lists(body@, p as int, 0, n as nat) == scaling_lists(
                body@,
                at as int,
                i as nat,
                n as nat,
            ),
        decreases n - i,
    {
        if at >= total {
            return Part::Ended;
        }
        if read_bit(body, at) {
            let size: usize = if i < 6 {
                16
            } else {
                64
            };
            match pass_scaling_list(body, at + 1, size) {
                Part::Ended => {
                    return Part::Ended;
                },
                Part::Odd => {
                    return Part::Odd;
                },
                Part::Next(next) => {
                    at = next;
                },
            }
        } else {
            at = at + 1;
        }
        i = i + 1;
    }
    Part::Next(at)
}

/// A bit depth above eight that a byte holds.
pub open spec fn depth(body: Seq<u8>, p: int) -> Part {
    match code(body, p) {
        Code::Ended => Part::Ended,
        Code::TooLong => Part::Odd,
        Code::Number { value, next } => if value % 256 > MAX_DEPTH_MINUS_8 {
            Part::Odd
        } else {
            Part::Next(next)
        },
    }
}

fn pass_depth(body: &Vec<u8>, p: usize) -> (part: Part)
    requires
        is_short(body@),
        p <= bits(body@),
    ensures
        part == depth(body@, p as int),
        part matches Part::Next(next) ==> next <= bits(body@),
{
    match read_code(body, p) {
        Code::Ended => Part::Ended,
        Code::TooLong => Part::Odd,
        Code::Number { value, next } => {
            if value % 256 > MAX_DEPTH_MINUS_8 {
                Part::Odd
            } else {
                Part::Next(next)
            }
        },
    }
}

/// What part leads to, where the bits go on: `rest` there, the part itself elsewhere.
pub open spec fn joined(part: Part, rest: spec_fn(int) -> Part) -> Part {
    match part {
        Part::Next(next) => rest(next as int),
        _ => part,
    }
}

/// The depths, a flag and the scaling lists, from bit `p` on.
pub open spec fn depths_and_lists(body: Seq<u8>, p: int, lists: nat) -> Part {
    joined(
        depth(body, p),
        |a: int|
            joined(
                depth(body, a),
                |b: int|
                    joined(
                        flag(body, b),
                        |c: int|
                            if c >= bits(body) {
                                Part::Ended
                            } else if bit(body, c) {
                                scaling_lists(body, c + 1, 0, lists)
                            } else {
                                Part::Next((c + 1) as usize)
                            },
                    ),
            ),
    )
}

fn pass_depths_and_lists(body: &Vec<u8>, p: usize, lists: usize) -> (part: Part)
    requires
        is_short(body@),
        p <= bits(body@),
        lists <= 12,
    ensures
        part == depths_and_lists(body@, p as int, lists as nat),
        part matches Part::Next(next) ==> next <= bits(body@),
{
    let total: usize = body.len() * 8;
    let a: usize = match pass_depth(body, p) {
        Part::Next(next) => next,
        other => {
            return other;
        },
    };
    let b: usize = match pass_depth(body, a) {
        Part::Next(next) => next,
        other => {
            return other;
        },
    };
    if b >= total || b + 1 >= total {
        return Part::Ended;
    }
    if read_bit(body, b + 1) {
        pass_scaling_lists(body, b + 2, lists)
    } else {
        Part::Next(b + 2)
    }
}

/// What the profiles with a choice of color formats have before the rest.
pub open spec fn formats(body: Seq<u8>, p: int) -> Part {
    match code(body, p) {
        Code::Ended => Part::Ended,
        Code::TooLong => Part::Odd,
        Code::Number { value, next } => if value % 256 == 3 {
            joined(flag(body, next as int), |a: int| depths_and_lists(body, a, 12))
        } else {
            depths_and_lists(body, next as int, 8)
        },
    }
}

fn pass_formats(body: &Vec<u8>, p: usize) -> (part: Part)
    requires
        is_short(body@),
        p <= bits(body@),
    ensures
        part == formats(body@, p as int),
        part matches Part::Next(next) ==> next <= bits(body@),
{
    match read_code(body, p) {
        Code::Ended => Part::Ended,
        Code::TooLong => Part::Odd,
        Code::Number { value, next } => {
            if value % 256 != 3 {
                pass_depths_and_lists(body, next, 8)
            } else if next >= body.len() * 8 {
                Part::Ended
            } else {
                pass_depths_and_lists(body, next + 1, 12)
            }
        },
    }
}

/// A code whose value makes no difference.
pub open spec fn any_code(body: Seq<u8>, p: int) -> Part {
    match code(body, p) {
        Code::Ended => Part::Ended,
        Code::TooLong => Part::Odd,
        Code::Number { next, .. } => Part::Next(next),
    }
}

fn pass_code(body: &Vec<u8>, p: usize) -> (part: Part)
    requires
        is_short(body@),
        p <= bits(body@),
    ensures
        part == any_code(body@, p as int),
        part matches Part::Next(next) ==> next <= bits(body@),
{
    match read_code(body, p) {
        Code::Ended => Part::Ended,
        Code::TooLong => Part::Odd,
        Code::Number { next, .. } => Part::Next(next),
    }
}

/// The number of picture order offsets.
pub open spec fn offset_count(body: Seq<u8>, p: int) -> Part {
    match code(body, p) {
        Code::Ended => Part::Ended,
        Code::TooLong => Part::Odd,
        Code::Number { value, next } => if value > MAX_ORDER_OFFSETS {
            Part::Odd
        } else {
            Part::Next(next)
        },
    }
}

/// The kind of picture order, and what it has before its offsets.
pub open spec fn order(body: Seq<u8>, p: int) -> Part {
    match code(body, p) {
        Code::Ended => Part::Ended,
        Code::TooLong => Part::Odd,
        Code::Number { value, next } => if value != 1 {
            Part::Next(next)
        } else {
            joined(
                flag(body, next as int),
                |a: int|
                    joined(
                        any_code(body, a),
                        |b: int| joined(any_code(body, b), |c: int| offset_count(body, c)),
                    ),
            )
        },
    }
}

fn pass_order(body: &Vec<u8>, p: usize) -> (part: Part)
    requires
        is_short(body@),
        p <= bits(body@),
    ensures
        part == order(body@, p as int),
{
    let next: usize = match read_code(body, p) {
        Code::Ended => {
            return Part::Ended;
        },
        Code::TooLong => {
            return Part::Odd;
        },
        Code::Number { value, next } => {
            if value != 1 {
                return Part::Next(next);
            }
            next
        },
    };
    if next >= body.len() * 8 {
        return Part::Ended;
    }
    let b: usize = match pass_code(body, next + 1) {
        Part::Next(b) => b,
        other => {
            return other;
        },
    };
    let c: usize = match pass_code(body, b) {
        Part::Next(c) => c,
        other => {
            return other;
        },
    };
    match read_code(body, c) {
        Code::Ended => Part::Ended,
        Code::TooLong => Part::Odd,
        Code::Number { value, next: end } => {
            if value > MAX_ORDER_OFFSETS {
                Part::Odd
            } else {
                Part::Next(end)
            }
        },
    }
}

/// The profiles with a choice of color formats.
pub open spec fn is_high_profile(profile: u8) -> bool {
    profile == 100 || profile == 110 || profile == 122 || profile == 244 || profile == 44
        || profile == 83 || profile == 86 || profile == 118 || profile == 128 || profile == 138
        || profile == 139 || profile == 134 || profile == 135
}

/// The fields up to the picture order.
pub open spec fn head(profile: u8, body: Seq<u8>) -> Part {
    joined(
        any_code(body, 0),
        |a: int|
            joined(
                if is_high_profile(profile) {
                    formats(body, a)
                } else {
                    Part::Next(a as usize)
                },
                |b: int| joined(any_code(body, b), |c: int| order(body, c)),
            ),
    )
}

fn pass_head(profile: u8, body: &Vec<u8>) -> (part: Part)
    requires
        is_short(body@),
    ensures
        part == head(profile, body@),
{
    let a: usize = match pass_code(body, 0) {
        Part::Next(a) => a,
        other => {
            return other;
        },
    };
    let high: bool = profile == 100 || profile == 110 || profile == 122 || profile == 244
        || profile == 44 || profile == 83 || profile == 86 || profile == 118 || profile == 128
        || profile == 138 || profile == 139 || profile == 134 || profile == 135;
    let formatted: Part = if high {
        pass_formats(body, a)
    } else {
        Part::Next(a)
    };
    let b: usize = match formatted {
        Part::Next(b) => b,
        other => {
            return other;
        },
    };
    match pass_code(body, b) {
        Part::Next(c) => pass_order(body, c),
        other => other,
    }
}

/// The bytes from `i` on begin with a long run of zeros.
pub open spec fn zero_run_at(body: Seq<u8>, i: int) -> bool {
    &&& 0 <= i
    &&& i + ZERO_RUN <= body.len()
    &&& forall|j: int| i <= j < i + ZERO_RUN ==> #[trigger] body[j] == 0
}

/// A long run of zero bytes stands somewhere.
pub open spec fn has_zero_run(body: Seq<u8>) -> bool {
    exists|i: int| zero_run_at(body, i)
}

fn find_zero_run(bytes: &Vec<u8>, from: usize) -> (found: bool)
    requires
        from <= bytes@.len(),
    ensures
        found == has_zero_run(bytes@.skip(from as int)),
{
    let ghost body = bytes@.skip(from as int);
    let len: usize = bytes.len() - from;
    assert(bytes@.len() <= usize::MAX);
    let mut zeros: usize = 0;
    let mut i: usize = 0;
    while i < len
        invariant
            from + len == bytes@.len(),
            bytes@.len() <= usize::MAX,
            body == bytes@.skip(from as int),
            i <= len == body.len(),
            zeros <= i,
            zeros < ZERO_RUN,
            forall|j: int| i - zeros <= j < i ==> #[trigger] body[j] == 0,
            zeros < i ==> body[i - zeros - 1] != 0,
            forall|k: int| k + ZERO_RUN <= i ==> !zero_run_at(body, k),
        decreases len - i,
    {
        assert(body[i as int] == bytes@[from + i]);
        if bytes[from + i] == 0 {
            zeros = zeros + 1;
            if zeros == ZERO_RUN {
                assert(zero_run_at(body, i + 1 - ZERO_RUN));
                return true;
            }
            assert forall|k: int| k + ZERO_RUN <= i + 1 implies !zero_run_at(body, k) by {
                if k + ZERO_RUN == i + 1 && 0 <= k {
                    assert(k <= i - zeros < k + ZERO_RUN);
                    assert(body[i - zeros] != 0);
                }
            }
        } else {
            zeros = 0;
            assert forall|k: int| k + ZERO_RUN <= i + 1 implies !zero_run_at(body, k) by {
                if k + ZERO_RUN == i + 1 && 0 <= k {
                    assert(body[i as int] != 0);
                }
            }
        }
        i = i + 1;
    }
    false
}

/// An H.264 parameter set, from its header byte on, that the demultiplexer decodes without an
/// overflow: it holds no long run of zeros, and its fields up to the picture order are of a size
/// that occurs. Where its bits end early the rest does not matter.
pub open spec fn is_plain_sps(nal: Seq<u8>) -> bool {
    nal.len() > HEADER_BYTES ==> {
        let body = unescaped(nal.skip(HEADER_BYTES as int));
        !has_zero_run(body) && head(nal[1], body) != Part::Odd
    }
}

/// Check an H.264 parameter set.
pub fn check_sps(nal: &Vec<u8>) -> (plain: bool)
    requires
        nal@.len() <= MAX_UNIT_BYTES,
    ensures
        plain == is_plain_sps(nal@),
{
    if nal.len() <= HEADER_BYTES {
        return true;
    }
    let body: Vec<u8> = unescape(nal, HEADER_BYTES);
    assert(body@.skip(0) =~= body@);
    if find_zero_run(&body, 0) {
        return false;
    }
    match pass_head(nal[1], &body) {
        Part::Odd => false,
        _ => true,
    }
}

/// The number of layers above the first of an H.265 parameter set.
pub open spec fn layers(body: Seq<u8>) -> nat {
    ((body[0] / 2) % 8) as nat
}

/// The bytes that the first `n` layers take: eleven for a profile, one for a level.
pub open spec fn layer_bytes(body: Seq<u8>, n: nat) -> nat
    decreases n,
{
    if n == 0 {
        0
    } else {
        let i = (n - 1) as nat;
        layer_bytes(body, i) + (if bit(body, 8 * GENERAL_BYTES + 2 * i) {
            11nat
        } else {
            0
        }) + (if bit(body, 8 * GENERAL_BYTES + 2 * i + 1) {
            1nat
        } else {
            0
        })
    }
}

/// Where the codes of an H.265 parameter set begin, behind its profiles and levels; nothing where
/// it ends before.
pub open spec fn codes_start(body: Seq<u8>) -> Option<nat> {
    if body.len() < GENERAL_BYTES {
        None
    } else if layers(body) == 0 {
        Some(GENERAL_BYTES as nat)
    } else if body.len() < LAYERED_BYTES {
        None
    } else if body.len() < LAYERED_BYTES + layer_bytes(body, layers(body)) {
        None
    } else {
        Some(LAYERED_BYTES as nat + layer_bytes(body, layers(body)))
    }
}

fn find_codes(body: &Vec<u8>) -> (start: Option<usize>)
    requires
        is_short(body@),
    ensures
        match start {
            Some(at) => codes_start(body@) == Some(at as nat) && at <= body@.len(),
            None => codes_start(body@) is None,
        },
{
    if body.len() < GENERAL_BYTES {
        return None;
    }
    let count: usize = ((body[0] / 2) % 8) as usize;
    if count == 0 {
        return Some(GENERAL_BYTES);
    }
    if body.len() < LAYERED_BYTES {
        return None;
    }
    let mut taken: usize = 0;
    let mut i: usize = 0;
    while i < count
        invariant
            i <= count <= 7,
            LAYERED_BYTES <= body@.len(),
            taken == layer_bytes(body@, i as nat),
            taken <= 12 * i,
        decreases count - i,
    {
        if read_bit(body, 8 * GENERAL_BYTES + 2 * i) {
            taken = taken + 11;
        }
        if read_bit(body, 8 * GENERAL_BYTES + 2 * i + 1) {
            taken = taken + 1;
        }
        i = i + 1;
    }
    if body.len() < LAYERED_BYTES + taken {
        None
    } else {
        Some(LAYERED_BYTES + taken)
    }
}

/// `n` codes whose values make no difference.
pub open spec fn any_codes(body: Seq<u8>, p: int, n: nat) -> Part
    decreases n,
{
    if n == 0 {
        Part::Next(p as usize)
    } else {
        match any_code(body, p) {
            Part::Next(next) => any_codes(body, next as int, (n - 1) as nat),
            other => other,
        }
    }
}

fn pass_codes(body: &Vec<u8>, p: usize, n: usize) -> (part: Part)
    requires
        is_short(body@),
        p <= bits(body@),
    ensures
        part == any_codes(body@, p as int, n as nat),
        part matches Part::Next(next) ==> next <= bits(body@),
{
    let mut at: usize = p;
    let mut left: usize = n;
    while left > 0
        invariant
            is_short(body@),
            at <= bits(body@),
            any_codes(body@, p as int, n as nat) == any_codes(body@, at as int, left as nat),
        decreases left,
    {
        match pass_code(body, at) {
            Part::Next(next) => {
                at = next;
            },
            other => {
                return other;
            },
        }
        left = left - 1;
    }
    Part::Next(at)
}

/// The size of the pictures, the part of it that is shown, and the bit depths, from bit `p` on.
pub open spec fn pictures(body: Seq<u8>, p: int) -> Part {
    joined(
        any_codes(body, p, 2),
        |a: int|
            if a >= bits(body) {
                Part::Ended
            } else {
                joined(
                    any_codes(
                        body,
                        a + 1,
                        if bit(body, a) {
                            4
                        } else {
                            0
                        },
                    ),
                    |b: int| joined(depth(body, b), |c: int| depth(body, c)),
                )
            },
    )
}

fn pass_pictures(body: &Vec<u8>, p: usize) -> (part: Part)
    requires
        is_short(body@),
        p <= bits(body@),
    ensures
        part == pictures(body@, p as int),
{
    let a: usize = match pass_codes(body, p, 2) {
        Part::Next(next) => next,
        other => {
            return other;
        },
    };
    if a >= body.len() * 8 {
        return Part::Ended;
    }
    let shown: usize = if read_bit(body, a) {
        4
    } else {
        0
    };
    let b: usize = match pass_codes(body, a + 1, shown) {
        Part::Next(next) => next,
        other => {
            return other;
        },
    };
    match pass_depth(body, b) {
        Part::Next(c) => pass_depth(body, c),
        other => other,
    }
}

/// The fields from byte `start` up to the bit depths.
pub open spec fn hevc_head(body: Seq<u8>, start: nat) -> Part {
    joined(
        any_code(body, 8 * start as int),
        |a: int|
            match code(body, a) {
                Code::Ended => Part::Ended,
                Code::TooLong => Part::Odd,
                Code::Number { value, next } => if value % 256 == 3 {
                    joined(flag(body, next as int), |b: int| pictures(body, b))
                } else {
                    pictures(body, next as int)
                },
            },
    )
}

fn pass_hevc_head(body: &Vec<u8>, start: usize) -> (part: Part)
    requires
        is_short(body@),
        start <= body@.len(),
    ensures
        part == hevc_head(body@, start as nat),
{
    let a: usize = match pass_code(body, 8 * start) {
        Part::Next(next) => next,
        other => {
            return other;
        },
    };
    match read_code(body, a) {
        Code::Ended => Part::Ended,
        Code::TooLong => Part::Odd,
        Code::Number { value, next } => {
            if value % 256 != 3 {
                pass_pictures(body, next)
            } else if next >= body.len() * 8 {
                Part::Ended
            } else {
                pass_pictures(body, next + 1)
            }
        },
    }
}

/// An H.265 parameter set, from its header on, that the demultiplexer decodes without an overflow:
/// there is no long run of zeros among its codes, and its bit depths are of a size that occurs.
pub open spec fn is_plain_hevc_sps(nal: Seq<u8>) -> bool {
    nal.len() > HEVC_HEADER_BYTES ==> {
        let body = unescaped(nal.skip(HEVC_HEADER_BYTES as int));
        match codes_start(body) {
            Some(start) => !has_zero_run(body.skip(start as int)) && hevc_head(body, start)
                != Part::Odd,
            None => true,
        }
    }
}

/// Check an H.265 parameter set.
pub fn check_hevc_sps(nal: &Vec<u8>) -> (plain: bool)
    requires
        nal@.len() <= MAX_UNIT_BYTES,
    ensures
        plain == is_plain_hevc_sps(nal@),
{
    if nal.len() <= HEVC_HEADER_BYTES {
        return true;
    }
    let body: Vec<u8> = unescape(nal, HEVC_HEADER_BYTES);
    match find_codes(&body) {
        Some(start) => {
            if find_zero_run(&body, start) {
                return false;
            }
            match pass_hevc_head(&body, start) {
                Part::Odd => false,
                _ => true,
            }
        },
        None => true,
    }
}

proof fn lemma_zeros_at_the_end(bytes: Seq<u8>)
    ensures
        unescaping(bytes).1 >= 1 <==> bytes.len() >= 1 && bytes[bytes.len() - 1] == 0,
        unescaping(bytes).1 >= 2 <==> bytes.len() >= 2 && bytes[bytes.len() - 1] == 0 && bytes[
        bytes.len() - 2] == 0,
    decreases bytes.len(),
{
    if bytes.len() > 0 {
        lemma_zeros_at_the_end(bytes.drop_last());
    }
}

/// A three behind two zeros is left out, and every other byte is kept.
pub proof fn law_only_threes_behind_zeros_are_left_out(bytes: Seq<u8>, b: u8)
    ensures
        unescaped(Seq::empty()).len() == 0,
        ({
            let n = bytes.len() as int;
            if b == 3 && n >= 2 && bytes[n - 1] == 0 && bytes[n - 2] == 0 {
                unescaped(bytes.push(b)) == unescaped(bytes)
            } else {
                unescaped(bytes.push(b)) == unescaped(bytes).push(b)
            }
        }),
{
    assert(bytes.push(b).drop_last() =~= bytes);
    lemma_zeros_at_the_end(bytes);
}

/// Bit `p` as a number.
pub open spec fn digit(body: Seq<u8>, p: int) -> int {
    if bit(body, p) {
        1
    } else {
        0
    }
}

proof fn lemma_digit(body: Seq<u8>, i: int, k: int)
    requires
        0 <= k < 8,
    ensures
        digit(body, 8 * i + k) == (body[i] / weight(k)) % 2,
{
    assert((8 * i + k) / 8 == i && (8 * i + k) % 8 == k);
}

/// The eight bits of a byte, the highest first, are worth the byte.
pub proof fn law_bits_make_the_byte(body: Seq<u8>, i: int)
    requires
        0 <= i < body.len(),
    ensures
        bits(body) == 8 * body.len(),
        body[i] == 128 * digit(body, 8 * i) + 64 * digit(body, 8 * i + 1) + 32 * digit(
            body,
            8 * i + 2,
        ) + 16 * digit(body, 8 * i + 3) + 8 * digit(body, 8 * i + 4) + 4 * digit(body, 8 * i + 5)
            + 2 * digit(body, 8 * i + 6) + digit(body, 8 * i + 7),
{
    let x = body[i];
    assert(x == 128 * ((x / 128) % 2) + 64 * ((x / 64) % 2) + 32 * ((x / 32) % 2) + 16 * ((x / 16)
        % 2) + 8 * ((x / 8) % 2) + 4 * ((x / 4) % 2) + 2 * ((x / 2) % 2) + (x / 1) % 2)
        by (bit_vector);
    lemma_digit(body, i, 0);
    lemma_digit(body, i, 1);
    lemma_digit(body, i, 2);
    lemma_digit(body, i, 3);
    lemma_digit(body, i, 4);
    lemma_digit(body, i, 5);
    lemma_digit(body, i, 6);
    lemma_digit(body, i, 7);
}

/// `n` zeros stand from bit `p` on, and then a one.
pub open spec fn has_leading_zeros(body: Seq<u8>, p: int, n: int) -> bool {
    &&& 0 <= p
    &&& 0 <= n
    &&& p + n < bits(body)
    &&& forall|i: int| p <= i < p + n ==> !#[trigger] bit(body, i)
    &&& bit(body, p + n)
}

proof fn lemma_leading_zeros(body: Seq<u8>, p: int, n: int)
    requires
        has_leading_zeros(body, p, n),
    ensures
        zeros_from(body, p) == n,
    decreases n,
{
    if n > 0 {
        assert(!bit(body, p));
        assert(bit(body, p + 1 + (n - 1)));
        lemma_leading_zeros(body, p + 1, n - 1);
    }
}

/// The `n` bits from `p` on are the lowest `n` binary digits of a number.
pub open spec fn are_digits(body: Seq<u8>, p: int, n: nat, number: nat) -> bool
    decreases n,
{
    n > 0 ==> (bit(body, p + n - 1) <==> number % 2 == 1) && are_digits(
        body,
        p,
        (n - 1) as nat,
        number / 2,
    )
}

/// A code is a number with one added, in binary, behind one zero fewer than it has digits: where
/// such digits stand, that number is read, and the bits go on behind them.
pub proof fn law_code_spells_its_number(body: Seq<u8>, p: int, n: nat, number: nat)
    requires
        is_short(body),
        n <= 54,
        has_leading_zeros(body, p, n as int),
        p + 2 * n + 1 <= bits(body),
        vstd::arithmetic::power2::pow2(n) <= number + 1 < 2 * vstd::arithmetic::power2::pow2(n),
        are_digits(body, p + n + 1, n, number + 1),
    ensures
        code(body, p) matches Code::Number { value, next } && value == number && next == p + 2 * n
            + 1,
{
    lemma_leading_zeros(body, p, n as int);
    lemma_digits_are_spelled(body, p + n + 1, n, number + 1);
    vstd::arithmetic::power2::lemma2_to64();
    vstd::arithmetic::power2::lemma2_to64_rest();
    if n < 54 {
        vstd::arithmetic::power2::lemma_pow2_strictly_increases(n, 54);
    }
}

proof fn lemma_digits_are_spelled(body: Seq<u8>, p: int, n: nat, number: nat)
    requires
        vstd::arithmetic::power2::pow2(n) <= number < 2 * vstd::arithmetic::power2::pow2(n),
        are_digits(body, p, n, number),
    ensures
        spelled(body, p, n) == number,
    decreases n,
{
    if n == 0 {
        vstd::arithmetic::power2::lemma2_to64();
    } else {
        vstd::arithmetic::power2::lemma_pow2_unfold(n);
        lemma_digits_are_spelled(body, p, (n - 1) as nat, number / 2);
    }
}

/// A code with more than fifty-four leading zeros is too long, and one whose digits are not all
/// there ends the bits; so do zeros without an end. Behind the last bit zero is read.
pub proof fn law_long_and_broken_codes_are_told(body: Seq<u8>, p: int, n: int)
    requires
        is_short(body),
    ensures
        has_leading_zeros(body, p, n) && n > 54 && p + 2 * n + 1 <= bits(body) ==> code(body, p)
            is TooLong,
        has_leading_zeros(body, p, n) && n > 0 && p + 2 * n + 1 > bits(body) ==> code(body, p)
            is Ended,
        p == bits(body) ==> code(body, p) == (Code::Number { value: 0, next: p as usize }),
{
    if has_leading_zeros(body, p, n) {
        lemma_leading_zeros(body, p, n);
    }
}

/// The steps of a scaling list go up and down in turn: codes one, two, three and four stand for
/// one up, one down, two up and two down. The scale is counted around a byte.
pub proof fn law_steps_go_up_and_down(last: u64, m: u64)
    requires
        last < 256,
        m < 0x1000_0000_0000_0000,
    ensures
        (next_scale(last, (2 * m) as u64) + m) % 256 == last,
        m > 0 ==> (last + m) % 256 == next_scale(last, (2 * m - 1) as u64),
        next_scale(last, (2 * m) as u64) < 256,
{
}

/// A bit depth is odd where its code is too long or, counted around a byte, stands for more than
/// two hundred and fifty-five bits.
pub proof fn law_odd_depth_does_not_fit_a_byte(body: Seq<u8>, p: int)
    ensures
        depth(body, p) is Odd <==> match code(body, p) {
            Code::Ended => false,
            Code::TooLong => true,
            Code::Number { value, .. } => 8 + value % 256 > 255,
        },
        depth(body, p) matches Part::Next(n) ==> code(body, p) matches Code::Number { next, .. }
            && next == n,
{
}

/// The picture order of an H.264 parameter set is odd where a code of it is too long, or where it
/// is of the first kind and counts more than two hundred and fifty-five offsets.
pub proof fn law_many_offsets_are_odd(body: Seq<u8>, p: int, a: int, b: int, c: int)
    requires
        is_short(body),
        0 <= a < bits(body),
        0 <= b <= bits(body),
        0 <= c <= bits(body),
        code(body, p) == (Code::Number { value: 1, next: a as usize }),
        any_code(body, a + 1) == Part::Next(b as usize),
        any_code(body, b) == Part::Next(c as usize),
    ensures
        order(body, p) is Odd <==> match code(body, c) {
            Code::Ended => false,
            Code::TooLong => true,
            Code::Number { value, .. } => value > 255,
        },
{
}

/// Other kinds of picture order have no offsets.
pub proof fn law_other_orders_have_no_offsets(body: Seq<u8>, p: int)
    ensures
        code(body, p) is TooLong ==> order(body, p) is Odd,
        code(body, p) is Ended ==> order(body, p) is Ended,
        code(body, p) matches Code::Number { value, next } ==> value != 1 ==> order(body, p)
            == Part::Next(next),
{
}

/// A scaling list of so many steps takes so many codes at most: none where it has no steps left or
/// its scale came to zero, and otherwise one and then the rest with the new scale.
pub proof fn law_scaling_list_ends_at_scale_zero(
    body: Seq<u8>,
    p: int,
    n: nat,
    last: u64,
    value: u64,
    next: usize,
)
    requires
        n > 0,
        code(body, p) == (Code::Number { value, next }),
    ensures
        next_scale(last, value) == 0 ==> scaling_list(body, p, n, last, true) == Part::Next(next),
        next_scale(last, value) != 0 ==> scaling_list(body, p, n, last, true) == scaling_list(
            body,
            next as int,
            (n - 1) as nat,
            next_scale(last, value),
            true,
        ),
        scaling_list(body, p, 0, last, true) == Part::Next(p as usize),
{
    reveal_with_fuel(scaling_list, 2);
}

/// Six consecutive zero bytes make a long run, wherever they stand, and nothing less does.
pub proof fn law_six_zeros_make_a_run(a: Seq<u8>, b: Seq<u8>)
    ensures
        has_zero_run(a + seq![0u8, 0, 0, 0, 0, 0] + b),
        has_zero_run(a) ==> exists|i: int|
            0 <= i && i + 6 <= a.len() && #[trigger] a[i] == 0 && a[i + 1] == 0 && a[i + 2] == 0
                && a[i + 3] == 0 && a[i + 4] == 0 && a[i + 5] == 0,
{
    let all = a + seq![0u8, 0, 0, 0, 0, 0] + b;
    assert(zero_run_at(all, a.len() as int));
    if has_zero_run(a) {
        let i = choose|i: int| zero_run_at(a, i);
        assert(a[i] == 0 && a[i + 1] == 0 && a[i + 2] == 0 && a[i + 3] == 0 && a[i + 4] == 0 && a[i
            + 5] == 0);
    }
}

/// A parameter set of H.264 that is no longer than its header is plain. A longer one is not plain
/// where, behind its header of four bytes and without the bytes that keep start codes apart, it
/// holds a long run of zeros or its first code is too long.
pub proof fn law_zero_runs_are_not_plain(nal: Seq<u8>)
    ensures
        nal.len() <= 4 ==> is_plain_sps(nal),
        nal.len() > 4 && has_zero_run(unescaped(nal.skip(4))) ==> !is_plain_sps(nal),
        nal.len() > 4 && code(unescaped(nal.skip(4)), 0) is TooLong ==> !is_plain_sps(nal),
        nal.len() > 4 && !has_zero_run(unescaped(nal.skip(4))) && code(
            unescaped(nal.skip(4)),
            0,
        ) is Ended ==> is_plain_sps(nal),
{
}

/// The fields of an H.264 parameter set of the simple profiles are, behind a code, a code and the
/// picture order: the set is plain where these are.
pub proof fn law_simple_profiles_have_no_formats(nal: Seq<u8>, a: int, b: int)
    requires
        nal.len() > 4,
        nal[1] == 66 || nal[1] == 77 || nal[1] == 88,
        ({
            let body = unescaped(nal.skip(4));
            &&& is_short(body)
            &&& 0 <= a <= bits(body)
            &&& 0 <= b <= bits(body)
            &&& !has_zero_run(body)
            &&& any_code(body, 0) == Part::Next(a as usize)
            &&& any_code(body, a) == Part::Next(b as usize)
        }),
    ensures
        is_plain_sps(nal) <==> !(order(unescaped(nal.skip(4)), b) is Odd),
{
}

/// In the profiles with a choice of formats the bit depths come in between, behind the format and,
/// in the one format that has it, a flag: a set with an odd depth is not plain.
pub proof fn law_odd_depths_are_not_plain(nal: Seq<u8>, a: int, value: u64, f: int)
    requires
        nal.len() > 4,
        nal[1] == 100 || nal[1] == 110 || nal[1] == 122 || nal[1] == 244 || nal[1] == 44 || nal[1]
            == 83 || nal[1] == 86 || nal[1] == 118 || nal[1] == 128 || nal[1] == 138 || nal[1]
            == 139 || nal[1] == 134 || nal[1] == 135,
        ({
            let body = unescaped(nal.skip(4));
            let d = if value % 256 == 3 {
                f + 1
            } else {
                f
            };
            &&& is_short(body)
            &&& 0 <= a <= bits(body)
            &&& 0 <= f < bits(body)
            &&& any_code(body, 0) == Part::Next(a as usize)
            &&& code(body, a) == (Code::Number { value, next: f as usize })
            &&& depth(body, d) is Odd || (depth(body, d) matches Part::Next(e) && depth(
                body,
                e as int,
            ) is Odd)
        }),
    ensures
        !is_plain_sps(nal),
{
}

/// The number of layers of an H.265 parameter set stands in three bits of its first byte. Each
/// layer takes eleven bytes for a profile and one for a level, where two flags say that they are
/// there, from byte thirteen on.
pub proof fn law_layers_take_their_bytes(body: Seq<u8>, n: nat)
    requires
        body.len() >= 15,
    ensures
        layers(body) == (body[0] % 16) / 2,
        layer_bytes(body, 0) == 0,
        layer_bytes(body, n + 1) - layer_bytes(body, n) == (if bit(body, 104int + 2 * n) {
            11int
        } else {
            0
        }) + (if bit(body, 105int + 2 * n) {
            1int
        } else {
            0
        }),
{
}

/// The codes of an H.265 parameter set begin behind thirteen bytes where it has one layer, and
/// behind fifteen and those of its layers otherwise; nowhere where it ends before.
pub proof fn law_codes_begin_behind_the_layers(body: Seq<u8>)
    ensures
        body.len() < 13 ==> codes_start(body) is None,
        body.len() >= 13 && layers(body) == 0 ==> codes_start(body) == Some(13nat),
        body.len() >= 13 && layers(body) > 0 ==> match codes_start(body) {
            Some(at) => at == 15 + layer_bytes(body, layers(body)) && at <= body.len(),
            None => body.len() < 15 + layer_bytes(body, layers(body)),
        },
{
}

/// An H.265 parameter set is plain where it ends before its codes. Otherwise it is not plain where
/// there is a long run of zeros from its codes on, or where these are odd.
pub proof fn law_plain_hevc_set_has_plain_codes(nal: Seq<u8>)
    ensures
        nal.len() <= 2 ==> is_plain_hevc_sps(nal),
        nal.len() > 2 && codes_start(unescaped(nal.skip(2))) is None ==> is_plain_hevc_sps(nal),
        nal.len() > 2 ==> (codes_start(unescaped(nal.skip(2))) matches Some(at) ==> {
            let body = unescaped(nal.skip(2));
            &&& has_zero_run(body.skip(at as int)) ==> !is_plain_hevc_sps(nal)
            &&& code(body, 8 * at as int) is TooLong ==> !is_plain_hevc_sps(nal)
            &&& !has_zero_run(body.skip(at as int)) && code(body, 8 * at as int) is Ended
                ==> is_plain_hevc_sps(nal)
        }),
{
}

/// The bit depths of an H.265 parameter set stand behind the size of its pictures and, where a
/// flag says that only a part is shown, four codes for that part: odd depths are found there.
pub proof fn law_odd_depths_of_pictures_are_found(body: Seq<u8>, p: int, a: int, b: int)
    requires
        is_short(body),
        0 <= a < bits(body),
        0 <= b <= bits(body),
        any_codes(body, p, 2) == Part::Next(a as usize),
        any_codes(
            body,
            a + 1,
            if bit(body, a) {
                4
            } else {
                0
            },
        ) == Part::Next(b as usize),
    ensures
        pictures(body, p) is Odd <==> depth(body, b) is Odd || (depth(body, b) matches Part::Next(c)
            && depth(body, c as int) is Odd),
{
}

/// So many codes are read one after the other.
pub proof fn law_codes_follow_one_another(body: Seq<u8>, p: int, n: nat, value: u64, next: usize)
    requires
        code(body, p) == (Code::Number { value, next }),
    ensures
        any_code(body, p) == Part::Next(next),
        any_codes(body, p, n + 1) == any_codes(body, next as int, n),
        any_codes(body, p, 0) == Part::Next(p as usize),
{
}

/// Behind the format, the depths and a flag, another flag says that scaling lists follow: twelve
/// of them in the format that has a flag of its own, and eight in the others.
pub proof fn law_lists_follow_the_depths(
    body: Seq<u8>,
    p: int,
    value: u64,
    f: int,
    a: int,
    b: int,
)
    requires
        is_short(body),
        0 <= f < bits(body),
        0 <= a <= bits(body),
        0 <= b,
        b + 1 < bits(body),
        code(body, p) == (Code::Number { value, next: f as usize }),
        depth(
            body,
            if value % 256 == 3 {
                f + 1
            } else {
                f
            },
        ) == Part::Next(a as usize),
        depth(body, a) == Part::Next(b as usize),
    ensures
        bit(body, b + 1) ==> formats(body, p) == scaling_lists(
            body,
            b + 2,
            0,
            if value % 256 == 3 {
                12
            } else {
                8
            },
        ),
        !bit(body, b + 1) ==> formats(body, p) == Part::Next((b + 2) as usize),
{
}

/// A flag before each scaling list says whether it is there. The first six have sixteen steps and
/// the others sixty-four, all from a scale of eight on.
pub proof fn law_lists_have_their_sizes(body: Seq<u8>, p: int, i: nat, n: nat)
    requires
        i < n,
        p < bits(body),
    ensures
        !bit(body, p) ==> scaling_lists(body, p, i, n) == scaling_lists(body, p + 1, i + 1, n),
        bit(body, p) ==> scaling_lists(body, p, i, n) == match scaling_list(
            body,
            p + 1,
            if i < 6 {
                16
            } else {
                64
            },
            8,
            true,
        ) {
            Part::Next(next) => scaling_lists(body, next as int, i + 1, n),
            other => other,
        },
        scaling_lists(body, p, n, n) == Part::Next(p as usize),
{
}

/// In the profiles with a choice of formats a set is plain where its formats and, behind another
/// code, its picture order are.
pub proof fn law_high_profiles_have_formats(nal: Seq<u8>, a: int, b: int, c: int)
    requires
        nal.len() > 4,
        nal[1] == 100 || nal[1] == 110 || nal[1] == 122 || nal[1] == 244 || nal[1] == 44 || nal[1]
            == 83 || nal[1] == 86 || nal[1] == 118 || nal[1] == 128 || nal[1] == 138 || nal[1]
            == 139 || nal[1] == 134 || nal[1] == 135,
        ({
            let body = unescaped(nal.skip(4));
            &&& is_short(body)
            &&& 0 <= a <= bits(body)
            &&& 0 <= b <= bits(body)
            &&& 0 <= c <= bits(body)
            &&& !has_zero_run(body)
            &&& any_code(body, 0) == Part::Next(a as usize)
        }),
    ensures
        ({
            let body = unescaped(nal.skip(4));
            &&& formats(body, a) is Odd ==> !is_plain_sps(nal)
            &&& formats(body, a) is Ended ==> is_plain_sps(nal)
            &&& formats(body, a) == Part::Next(b as usize) && any_code(body, b) == Part::Next(
                c as usize,
            ) ==> (is_plain_sps(nal) <==> !(order(body, c) is Odd))
        }),
{
}

/// The codes of an H.265 parameter set are one code, the format with a flag in one of them, and
/// the pictures: they are odd where these are.
pub proof fn law_hevc_codes_lead_to_the_pictures(
    body: Seq<u8>,
    start: nat,
    a: int,
    value: u64,
    f: int,
)
    requires
        is_short(body),
        0 <= a <= bits(body),
        0 <= f < bits(body),
        any_code(body, 8 * start as int) == Part::Next(a as usize),
        code(body, a) == (Code::Number { value, next: f as usize }),
    ensures
        hevc_head(body, start) == pictures(
            body,
            if value % 256 == 3 {
                f + 1
            } else {
                f
            },
        ),
{
}

} // verus!

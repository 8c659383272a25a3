//! The metadata file that the content store keeps beside the chunks of a file: two
//! lines of text, `num_chunks=<n>` with `n` in decimal and `mode=<bits>` with the
//! permission bits in octal, or nothing after the `=` where they are not known.

use vstd::prelude::*;

verus! {

/// The byte of a line feed.
pub const NEWLINE: u8 = 10;

/// The byte of the digit zero.
pub const ZERO: u8 = 48;

/// `num_chunks=`, the key of the first line.
pub open spec fn count_key() -> Seq<u8> {
    seq![110u8, 117u8, 109u8, 95u8, 99u8, 104u8, 117u8, 110u8, 107u8, 115u8, 61u8]
}

/// `mode=`, the key of the second line.
pub open spec fn mode_key() -> Seq<u8> {
    seq![109u8, 111u8, 100u8, 101u8, 61u8]
}

/// Whether `b` is a digit of the base.
pub open spec fn is_digit(b: u8, base: nat) -> bool {
    ZERO <= b < ZERO + base
}

/// Dividing by a base makes a number smaller.
pub proof fn lemma_quotient_is_less(n: nat, base: nat)
    requires
        base >= 2,
        n >= base,
    ensures
        n / base < n,
{
    assert(n / base < n) by (nonlinear_arith)
        requires
            base >= 2,
            n >= base,
    ;
}

/// The digits of `n` in the base, most significant first, without leading zeros.
pub open spec fn digits(n: nat, base: nat) -> Seq<u8>
    recommends
        2 <= base <= 10,
    decreases n,
    when base >= 2
{
    if n < base {
        seq![(ZERO + n) as u8]
    } else {
        proof {
            lemma_quotient_is_less(n, base);
        }
        digits(n / base, base).push((ZERO + n % base) as u8)
    }
}

/// The number that a run of digits spells in the base.
pub open spec fn number(text: Seq<u8>, base: nat) -> nat
    decreases text.len(),
{
    if text.len() == 0 {
        0
    } else {
        number(text.drop_last(), base) * base + (text.last() - ZERO) as nat
    }
}

/// Where the run of digits that starts at `at` ends.
pub open spec fn run(bytes: Seq<u8>, at: int, base: nat) -> int
    decreases bytes.len() - at,
{
    if 0 <= at < bytes.len() && is_digit(bytes[at], base) {
        run(bytes, at + 1, base)
    } else {
        at
    }
}

/// The text of the metadata file of a file of `n` chunks with the permission bits
/// `mode`.
pub open spec fn meta_text(n: u32, mode: Option<u32>) -> Seq<u8> {
    count_key() + digits(n as nat, 10) + seq![NEWLINE] + mode_key() + match mode {
        Some(bits) => digits(bits as nat, 8),
        None => Seq::empty(),
    } + seq![NEWLINE]
}

/// What a metadata file says: the number of chunks and the permission bits, or `None`
/// where the text is not that of a metadata file.
pub open spec fn meta_of(bytes: Seq<u8>) -> Option<(u32, Option<u32>)> {
    let a = count_key().len() as int;
    let b = run(bytes, a, 10);
    let c = b + 1 + mode_key().len();
    let d = run(bytes, c, 8);
    if bytes.len() >= a && bytes.subrange(0, a) == count_key() && a < b && number(
        bytes.subrange(a, b),
        10,
    ) <= u32::MAX && bytes.len() >= c && bytes.subrange(b, c) == seq![NEWLINE] + mode_key()
        && number(bytes.subrange(c, d), 8) <= u32::MAX && bytes.subrange(d, bytes.len() as int)
        == seq![NEWLINE] {
        Some(
            (
                number(bytes.subrange(a, b), 10) as u32,
                if c == d {
                    None
                } else {
                    Some(number(bytes.subrange(c, d), 8) as u32)
                },
            ),
        )
    } else {
        None
    }
}

/// The digits of a number are digits, at least one of them, and spell the number.
pub proof fn lemma_digits(n: nat, base: nat)
    requires
        2 <= base <= 10,
    ensures
        digits(n, base).len() >= 1,
        forall|i: int| 0 <= i < digits(n, base).len() ==> is_digit(#[trigger] digits(n, base)[i], base),
        number(digits(n, base), base) == n,
    decreases n,
{
    if n < base {
        let text = digits(n, base);
        assert(text.drop_last() =~= Seq::<u8>::empty());
        assert(number(text.drop_last(), base) == 0);
        assert(number(text, base) == 0 * base + n);
    } else {
        lemma_quotient_is_less(n, base);
        lemma_digits(n / base, base);
        let front = digits(n / base, base);
        let text = digits(n, base);
        assert(text.drop_last() =~= front);
        assert(n % base < base) by (nonlinear_arith)
            requires
                base >= 2,
        ;
        assert(text.last() == (ZERO + n % base) as u8);
        assert((n / base) * base + n % base == n) by (nonlinear_arith)
            requires
                base >= 2,
        ;
        assert forall|i: int| 0 <= i < text.len() implies is_digit(#[trigger] text[i], base) by {
            if i < front.len() {
                assert(text[i] == front[i]);
            }
        }
    }
}

/// A run of digits that is followed by something else ends where the digits end.
pub proof fn lemma_run(bytes: Seq<u8>, at: int, end: int, base: nat)
    requires
        0 <= at <= end <= bytes.len(),
        forall|i: int| at <= i < end ==> is_digit(#[trigger] bytes[i], base),
        end < bytes.len() ==> !is_digit(bytes[end], base),
    ensures
        run(bytes, at, base) == end,
    decreases end - at,
{
    if at < end {
        lemma_run(bytes, at + 1, end, base);
    }
}

/// Reading a metadata file that was written gives back what was written.
pub proof fn lemma_meta_round_trip(n: u32, mode: Option<u32>)
    ensures
        meta_of(meta_text(n, mode)) == Some((n, mode)),
{
    let count = digits(n as nat, 10);
    let bits = match mode {
        Some(bits) => digits(bits as nat, 8),
        None => Seq::empty(),
    };
    lemma_digits(n as nat, 10);
    match mode {
        Some(m) => {
            lemma_digits(m as nat, 8);
        },
        None => {},
    }
    let text = meta_text(n, mode);
    let a = count_key().len() as int;
    let b = a + count.len();
    let c = b + 1 + mode_key().len();
    let d = c + bits.len();
    assert(text.len() == d + 1);
    assert(text.subrange(0, a) =~= count_key());
    assert(text.subrange(a, b) =~= count);
    assert(text.subrange(b, c) =~= seq![NEWLINE] + mode_key());
    assert(text.subrange(c, d) =~= bits);
    assert(text.subrange(d, text.len() as int) =~= seq![NEWLINE]);
    assert forall|i: int| a <= i < b implies is_digit(#[trigger] text[i], 10) by {
        assert(text[i] == count[i - a]);
    }
    assert(text[b] == NEWLINE);
    lemma_run(text, a, b, 10);
    assert forall|i: int| c <= i < d implies is_digit(#[trigger] text[i], 8) by {
        assert(text[i] == bits[i - c]);
    }
    assert(text[d] == NEWLINE);
    lemma_run(text, c, d, 8);
    if mode is None {
        assert(number(bits, 8) == 0);
    }
}

/// Appends the digits of `n` in the base.
fn push_digits(out: &mut Vec<u8>, n: u32, base: u32)
    requires
        2 <= base <= 10,
    ensures
        final(out)@ == old(out)@ + digits(n as nat, base as nat),
{
    let mut low_first: Vec<u8> = Vec::new();
    let mut rest: u32 = n;
    while rest >= base
        invariant
            2 <= base <= 10,
            digits(n as nat, base as nat) == digits(rest as nat, base as nat)
                + low_first@.reverse(),
        decreases rest,
    {
        let digit: u8 = (48 + rest % base) as u8;
        proof {
            let before = low_first@;
            assert(before.push(digit).reverse() =~= seq![digit] + before.reverse());
            assert(digits(rest as nat, base as nat) == digits(
                (rest / base) as nat,
                base as nat,
            ).push(digit));
            assert(digits((rest / base) as nat, base as nat).push(digit) + before.reverse()
                =~= digits((rest / base) as nat, base as nat) + (seq![digit] + before.reverse()));
            lemma_quotient_is_less(rest as nat, base as nat);
        }
        low_first.push(digit);
        rest = rest / base;
    }
    let digit: u8 = (48 + rest) as u8;
    proof {
        let before = low_first@;
        assert(before.push(digit).reverse() =~= seq![digit] + before.reverse());
        assert(digits(rest as nat, base as nat) == seq![digit]);
    }
    low_first.push(digit);
    let ghost wanted = low_first@.reverse();
    let mut i: usize = low_first.len();
    while i > 0
        invariant
            i <= low_first.len(),
            wanted == low_first@.reverse(),
            out@ == old(out)@ + wanted.subrange(0, low_first.len() - i),
        decreases i,
    {
        i -= 1;
        out.push(low_first[i]);
        proof {
            let k = low_first.len() - i - 1;
            assert(wanted[k] == low_first@[i as int]);
            assert(old(out)@ + wanted.subrange(0, k + 1) =~= (old(out)@ + wanted.subrange(
                0,
                k,
            )).push(wanted[k]));
        }
    }
    proof {
        assert(wanted.subrange(0, low_first.len() as int) =~= wanted);
    }
}

/// Appends the bytes of `key`.
fn push_key(out: &mut Vec<u8>, key: &[u8])
    ensures
        final(out)@ == old(out)@ + key@,
{
    let mut i: usize = 0;
    while i < key.len()
        invariant
            i <= key.len(),
            out@ == old(out)@ + key@.subrange(0, i as int),
        decreases key.len() - i,
    {
        out.push(key[i]);
        proof {
            assert(out@ =~= old(out)@ + key@.subrange(0, i + 1));
        }
        i += 1;
    }
    proof {
        assert(key@.subrange(0, i as int) =~= key@);
    }
}

/// Writes the text of the metadata file of a file of `n` chunks with the permission
/// bits `mode`.
pub fn write_meta(n: u32, mode: Option<u32>) -> (r: Vec<u8>)
    ensures
        r@ == meta_text(n, mode),
{
    let count: [u8; 11] = [110, 117, 109, 95, 99, 104, 117, 110, 107, 115, 61];
    let bits: [u8; 5] = [109, 111, 100, 101, 61];
    proof {
        assert(count@ =~= count_key());
        assert(bits@ =~= mode_key());
    }
    let mut out: Vec<u8> = Vec::new();
    push_key(&mut out, count.as_slice());
    push_digits(&mut out, n, 10);
    out.push(NEWLINE);
    push_key(&mut out, bits.as_slice());
    match mode {
        Some(m) => {
            push_digits(&mut out, m, 8);
        },
        None => {},
    }
    out.push(NEWLINE);
    proof {
        assert(out@ =~= meta_text(n, mode));
    }
    out
}

/// Whether `key` stands in `bytes` at `at`.
fn stands_at(bytes: &[u8], at: usize, key: &[u8]) -> (r: bool)
    requires
        at <= bytes@.len(),
    ensures
        r == (bytes@.len() >= at + key@.len() && bytes@.subrange(at as int, at + key@.len())
            == key@),
{
    if bytes.len() - at < key.len() {
        return false;
    }
    let mut i: usize = 0;
    while i < key.len()
        invariant
            i <= key.len(),
            at + key.len() <= bytes.len(),
            forall|k: int| 0 <= k < i ==> bytes@[at + k] == key@[k],
        decreases key.len() - i,
    {
        if bytes[at + i] != key[i] {
            proof {
                assert(bytes@.subrange(at as int, at + key@.len())[i as int] != key@[i as int]);
            }
            return false;
        }
        i += 1;
    }
    proof {
        assert(bytes@.subrange(at as int, at + key@.len()) =~= key@);
    }
    true
}

/// Reads the run of digits that starts at `at`: where it ends, and the number that it
/// spells where that fits 32 bits.
fn scan(bytes: &[u8], at: usize, base: u8) -> (r: (usize, Option<u32>))
    requires
        at <= bytes@.len(),
        2 <= base <= 10,
    ensures
        r.0 == run(bytes@, at as int, base as nat),
        at <= r.0 <= bytes@.len(),
        match r.1 {
            Some(value) => value == number(bytes@.subrange(at as int, r.0 as int), base as nat),
            None => number(bytes@.subrange(at as int, r.0 as int), base as nat) > u32::MAX,
        },
{
    let mut i: usize = at;
    let mut value: u64 = 0;
    let mut fits: bool = true;
    proof {
        assert(bytes@.subrange(at as int, at as int) =~= Seq::<u8>::empty());
    }
    while i < bytes.len() && ZERO <= bytes[i] && bytes[i] - ZERO < base
        invariant
            at <= i <= bytes@.len(),
            2 <= base <= 10,
            run(bytes@, i as int, base as nat) == run(bytes@, at as int, base as nat),
            fits ==> value == number(bytes@.subrange(at as int, i as int), base as nat) && value
                <= u32::MAX,
            !fits ==> number(bytes@.subrange(at as int, i as int), base as nat) > u32::MAX,
        decreases bytes.len() - i,
    {
        let digit: u64 = (bytes[i] - ZERO) as u64;
        proof {
            let before = bytes@.subrange(at as int, i as int);
            let now = bytes@.subrange(at as int, i + 1);
            assert(now.drop_last() =~= before);
            assert(now.last() == bytes@[i as int]);
            assert(number(now, base as nat) == number(before, base as nat) * base + digit);
            assert(number(before, base as nat) * base >= number(before, base as nat))
                by (nonlinear_arith)
                requires
                    base >= 2,
            ;
        }
        if fits {
            assert(value * base <= 0xffff_ffff * 10) by (nonlinear_arith)
                requires
                    value <= 0xffff_ffff,
                    base <= 10,
            ;
            value = value * (base as u64) + digit;
            if value > 0xffff_ffff {
                fits = false;
            }
        }
        i += 1;
    }
    if fits {
        (i, Some(value as u32))
    } else {
        (i, None)
    }
}

/// Reads a metadata file: the number of chunks and the permission bits, or `None`
/// where the text is not that of a metadata file.
pub fn read_meta(bytes: &[u8]) -> (r: Option<(u32, Option<u32>)>)
    ensures
        r == meta_of(bytes@),
{
    let count: [u8; 11] = [110, 117, 109, 95, 99, 104, 117, 110, 107, 115, 61];
    let bits: [u8; 6] = [10, 109, 111, 100, 101, 61];
    let end: [u8; 1] = [10];
    proof {
        assert(count@ =~= count_key());
        assert(bits@ =~= seq![NEWLINE] + mode_key());
        assert(end@ =~= seq![NEWLINE]);
    }
    if !stands_at(bytes, 0, count.as_slice()) {
        return None;
    }
    let a: usize = 11;
    let (b, n) = scan(bytes, a, 10);
    if b == a {
        return None;
    }
    let n = match n {
        Some(n) => n,
        None => {
            return None;
        },
    };
    let mode_line = bits.as_slice();
    assert(mode_line@.len() == 6);
    if !stands_at(bytes, b, mode_line) {
        return None;
    }
    let len = bytes.len();
    assert(b + 6 <= len);
    let c: usize = b + 6;
    let (d, m) = scan(bytes, c, 8);
    let m = match m {
        Some(m) => m,
        None => {
            return None;
        },
    };
    if !stands_at(bytes, d, end.as_slice()) || bytes.len() != d + 1 {
        proof {
            if bytes@.len() != d + 1 {
                assert(bytes@.subrange(d as int, bytes@.len() as int).len() != 1);
            }
        }
        return None;
    }
    Some(
        (
            n,
            if c == d {
                None
            } else {
                Some(m)
            },
        ),
    )
}

} // verus!

//! Numbers written in lower-case hexadecimal digits, with a fixed number
//! of digits.

use vstd::prelude::*;

verus! {

/// The digit that stands for a number below 16.
pub open spec fn hex_char(d: nat) -> char {
    if d == 0 {
        '0'
    } else if d == 1 {
        '1'
    } else if d == 2 {
        '2'
    } else if d == 3 {
        '3'
    } else if d == 4 {
        '4'
    } else if d == 5 {
        '5'
    } else if d == 6 {
        '6'
    } else if d == 7 {
        '7'
    } else if d == 8 {
        '8'
    } else if d == 9 {
        '9'
    } else if d == 10 {
        'a'
    } else if d == 11 {
        'b'
    } else if d == 12 {
        'c'
    } else if d == 13 {
        'd'
    } else if d == 14 {
        'e'
    } else {
        'f'
    }
}

/// The number for which a digit stands; nothing for any other character.
pub open spec fn hex_val(c: char) -> Option<nat> {
    if c == '0' {
        Some(0)
    } else if c == '1' {
        Some(1)
    } else if c == '2' {
        Some(2)
    } else if c == '3' {
        Some(3)
    } else if c == '4' {
        Some(4)
    } else if c == '5' {
        Some(5)
    } else if c == '6' {
        Some(6)
    } else if c == '7' {
        Some(7)
    } else if c == '8' {
        Some(8)
    } else if c == '9' {
        Some(9)
    } else if c == 'a' {
        Some(10)
    } else if c == 'b' {
        Some(11)
    } else if c == 'c' {
        Some(12)
    } else if c == 'd' {
        Some(13)
    } else if c == 'e' {
        Some(14)
    } else if c == 'f' {
        Some(15)
    } else {
        None
    }
}

/// The number for which a digit stands, and 0 for any other character.
pub open spec fn hex_val_or_zero(c: char) -> nat {
    match hex_val(c) {
        Some(d) => d,
        None => 0,
    }
}

/// Whether a text holds digits only.
pub open spec fn is_hex(s: Seq<char>) -> bool {
    forall|i: int| 0 <= i < s.len() ==> hex_val(#[trigger] s[i]) is Some
}

/// 16 to the power of `w`.
pub open spec fn pow16(w: nat) -> nat
    decreases w,
{
    if w == 0 {
        1
    } else {
        16 * pow16((w - 1) as nat)
    }
}

/// The last `w` digits of a number, the most significant first.
pub open spec fn hex_digits(v: nat, w: nat) -> Seq<char>
    decreases w,
{
    if w == 0 {
        Seq::empty()
    } else {
        hex_digits(v / 16, (w - 1) as nat).push(hex_char(v % 16))
    }
}

/// The number that a text of digits stands for.
pub open spec fn hex_value(s: Seq<char>) -> nat
    decreases s.len(),
{
    if s.len() == 0 {
        0
    } else {
        hex_value(s.drop_last()) * 16 + hex_val_or_zero(s.last())
    }
}

/// A number written in `w` digits has `w` digits, and they are digits.
pub proof fn lemma_hex_digits_shape(v: nat, w: nat)
    ensures
        hex_digits(v, w).len() == w,
        is_hex(hex_digits(v, w)),
    decreases w,
{
    if w > 0 {
        lemma_hex_digits_shape(v / 16, (w - 1) as nat);
    }
}

/// A number that fits into `w` digits is read back from them.
pub proof fn lemma_hex_value_of_digits(v: nat, w: nat)
    requires
        v < pow16(w),
    ensures
        hex_value(hex_digits(v, w)) == v,
    decreases w,
{
    if w > 0 {
        lemma_hex_digits_shape(v / 16, (w - 1) as nat);
        lemma_hex_value_of_digits(v / 16, (w - 1) as nat);
        let s = hex_digits(v, w);
        assert(s.drop_last() == hex_digits(v / 16, (w - 1) as nat));
        assert(s.last() == hex_char(v % 16));
    }
}

/// The number that digits stand for is written with the same digits, and
/// it fits into as many digits as there are.
pub proof fn lemma_hex_digits_of_value(s: Seq<char>)
    requires
        is_hex(s),
    ensures
        hex_value(s) < pow16(s.len()),
        hex_digits(hex_value(s), s.len()) == s,
    decreases s.len(),
{
    if s.len() > 0 {
        let head = s.drop_last();
        assert(is_hex(head)) by {
            assert forall|i: int| 0 <= i < head.len() implies hex_val(#[trigger] head[i]) is Some by {
                assert(head[i] == s[i]);
            }
        }
        lemma_hex_digits_of_value(head);
        let d = hex_val_or_zero(s.last());
        assert(hex_val(s.last()) is Some);
        assert(d < 16);
        let v = hex_value(s);
        assert(v == hex_value(head) * 16 + d);
        assert(v / 16 == hex_value(head));
        assert(v % 16 == d);
        assert(hex_char(d) == s.last());
        assert(hex_digits(v, s.len()) == hex_digits(v / 16, (s.len() - 1) as nat).push(
            hex_char(v % 16),
        ));
        assert(head.push(s.last()) == s);
    }
}

/// 16 to the power of 6, and 16 to the power of 32.
pub proof fn lemma_pow16_values()
    ensures
        pow16(6) == 0x100_0000,
        pow16(32) == 0x1_0000_0000_0000_0000_0000_0000_0000_0000,
{
    reveal_with_fuel(pow16, 34);
}

/// The digit for a number below 16.
pub fn hex_char_of(d: u8) -> (c: char)
    requires
        d < 16,
    ensures
        c == hex_char(d as nat),
{
    if d == 0 {
        '0'
    } else if d == 1 {
        '1'
    } else if d == 2 {
        '2'
    } else if d == 3 {
        '3'
    } else if d == 4 {
        '4'
    } else if d == 5 {
        '5'
    } else if d == 6 {
        '6'
    } else if d == 7 {
        '7'
    } else if d == 8 {
        '8'
    } else if d == 9 {
        '9'
    } else if d == 10 {
        'a'
    } else if d == 11 {
        'b'
    } else if d == 12 {
        'c'
    } else if d == 13 {
        'd'
    } else if d == 14 {
        'e'
    } else {
        'f'
    }
}

/// The number for which a digit stands.
pub fn hex_val_of(c: char) -> (d: Option<u8>)
    ensures
        match d {
            Some(d) => hex_val(c) == Some(d as nat) && d < 16,
            None => hex_val(c) is None,
        },
{
    if c == '0' {
        Some(0)
    } else if c == '1' {
        Some(1)
    } else if c == '2' {
        Some(2)
    } else if c == '3' {
        Some(3)
    } else if c == '4' {
        Some(4)
    } else if c == '5' {
        Some(5)
    } else if c == '6' {
        Some(6)
    } else if c == '7' {
        Some(7)
    } else if c == '8' {
        Some(8)
    } else if c == '9' {
        Some(9)
    } else if c == 'a' {
        Some(10)
    } else if c == 'b' {
        Some(11)
    } else if c == 'c' {
        Some(12)
    } else if c == 'd' {
        Some(13)
    } else if c == 'e' {
        Some(14)
    } else if c == 'f' {
        Some(15)
    } else {
        None
    }
}

/// Appends the last `w` digits of a number to a text.
pub fn push_hex(out: &mut String, v: u128, w: usize)
    ensures
        final(out)@ == old(out)@ + hex_digits(v as nat, w as nat),
{
    let mut buf: Vec<char> = Vec::new();
    let mut i: usize = 0;
    while i < w
        invariant
            i <= w,
            buf.len() == i,
        decreases w - i,
    {
        buf.push('0');
        i += 1;
    }
    let mut cur: u128 = v;
    let mut left: usize = w;
    proof {
        assert(buf@.skip(w as int) == Seq::<char>::empty());
        assert(hex_digits(cur as nat, left as nat) + buf@.skip(left as int) == hex_digits(
            v as nat,
            w as nat,
        ));
    }
    while left > 0
        invariant
            left <= w,
            buf.len() == w,
            hex_digits(cur as nat, left as nat) + buf@.skip(left as int) == hex_digits(
                v as nat,
                w as nat,
            ),
        decreases left,
    {
        let ghost before = buf@;
        let d: u8 = (cur % 16) as u8;
        let c = hex_char_of(d);
        left -= 1;
        buf.set(left, c);
        proof {
            assert(buf@.skip(left as int) == seq![c] + before.skip(left as int + 1));
            assert(hex_digits(cur as nat, (left + 1) as nat) == hex_digits(
                cur as nat / 16,
                left as nat,
            ).push(c));
            assert(hex_digits(cur as nat / 16, left as nat).push(c) + before.skip(left as int + 1)
                == hex_digits(cur as nat / 16, left as nat) + (seq![c] + before.skip(
                left as int + 1,
            )));
        }
        cur = cur / 16;
    }
    proof {
        assert(buf@.skip(0) == buf@);
        assert(hex_digits(cur as nat, 0) + buf@ == buf@);
    }
    let ghost start = out@;
    let mut k: usize = 0;
    while k < w
        invariant
            k <= w,
            buf.len() == w,
            out@ == start + buf@.take(k as int),
        decreases w - k,
    {
        out.push(buf[k]);
        proof {
            assert(buf@.take(k as int + 1) == buf@.take(k as int).push(buf@[k as int]));
            assert((start + buf@.take(k as int)).push(buf@[k as int]) == start + buf@.take(
                k as int,
            ).push(buf@[k as int]));
        }
        k += 1;
    }
    proof {
        assert(buf@.take(w as int) == buf@);
    }
}

/// Reads the number that `chars[from..to]` stands for, if these are at
/// most 32 digits.
pub fn read_hex(chars: &Vec<char>, from: usize, to: usize) -> (r: Option<u128>)
    requires
        from <= to <= chars.len(),
        to - from <= 32,
    ensures
        match r {
            Some(v) => is_hex(chars@.subrange(from as int, to as int)) && v == hex_value(
                chars@.subrange(from as int, to as int),
            ),
            None => !is_hex(chars@.subrange(from as int, to as int)),
        },
{
    let ghost s = chars@.subrange(from as int, to as int);
    let mut acc: u128 = 0;
    let mut i: usize = from;
    proof {
        assert(s.take(0) == Seq::<char>::empty());
    }
    while i < to
        invariant
            from <= i <= to <= chars.len(),
            to - from <= 32,
            s == chars@.subrange(from as int, to as int),
            is_hex(s.take(i - from)),
            acc == hex_value(s.take(i - from)),
        decreases to - i,
    {
        let ghost k = i - from;
        match hex_val_of(chars[i]) {
            Some(d) => {
                proof {
                    let next = s.take(k + 1);
                    assert(next.drop_last() == s.take(k));
                    assert(next.last() == chars@[i as int]);
                    assert(is_hex(next)) by {
                        assert forall|j: int| 0 <= j < next.len() implies hex_val(
                            #[trigger] next[j],
                        ) is Some by {
                            if j < k {
                                assert(next[j] == s.take(k)[j]);
                            }
                        }
                    }
                    lemma_hex_digits_of_value(next);
                    lemma_pow16_monotone((k + 1) as nat, 32);
                    lemma_pow16_values();
                }
                acc = acc * 16 + d as u128;
            },
            None => {
                proof {
                    assert(s[k] == chars@[i as int]);
                }
                return None;
            },
        }
        i += 1;
    }
    proof {
        assert(s.take(to - from) == s);
    }
    Some(acc)
}

/// The powers of 16 grow.
pub proof fn lemma_pow16_monotone(a: nat, b: nat)
    requires
        a <= b,
    ensures
        pow16(a) <= pow16(b),
        pow16(a) > 0,
    decreases b,
{
    if a < b {
        lemma_pow16_monotone(a, (b - 1) as nat);
    } else if a > 0 {
        lemma_pow16_monotone((a - 1) as nat, (a - 1) as nat);
    }
}

} // verus!

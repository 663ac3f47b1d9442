use vstd::prelude::*;

verus! {

/// ASCII white space: space, tab, line feed, form feed, carriage return.
pub open spec fn is_blank(b: u8) -> bool {
    b == 32 || b == 9 || b == 10 || b == 12 || b == 13
}

pub open spec fn is_digit(b: u8) -> bool {
    48 <= b <= 57
}

/// The number that a string of decimal digits writes.
pub open spec fn digits_value(s: Seq<u8>) -> nat
    decreases s.len(),
{
    if s.len() == 0 {
        0
    } else {
        digits_value(s.drop_last()) * 10 + (s.last() - 48) as nat
    }
}

/// `line` is white space, then one or more decimal digits writing `v`, then
/// white space.
pub open spec fn writes_number(line: Seq<u8>, v: nat) -> bool {
    exists|a: int, b: int|
        0 <= a < b <= line.len() && (forall|i: int| 0 <= i < a ==> is_blank(#[trigger] line[i]))
            && (forall|i: int| b <= i < line.len() ==> is_blank(#[trigger] line[i])) && (forall|
            i: int,
        |
            a <= i < b ==> is_digit(#[trigger] line[i])) && digits_value(line.subrange(a, b)) == v
}

proof fn lemma_digits_grow(s: Seq<u8>, k: int)
    requires
        0 <= k <= s.len(),
        forall|i: int| 0 <= i < s.len() ==> is_digit(#[trigger] s[i]),
    ensures
        digits_value(s.subrange(0, k)) <= digits_value(s),
    decreases s.len(),
{
    if k < s.len() {
        assert(s.drop_last() == s.subrange(0, s.len() - 1));
        lemma_digits_grow(s.drop_last(), k);
        assert(s.drop_last().subrange(0, k) == s.subrange(0, k));
    } else {
        assert(s.subrange(0, k) == s);
    }
}

/// The digits of a line that writes a number start at its first non-blank
/// byte and end after its last.
proof fn lemma_number_bounds(line: Seq<u8>, a: int, b: int, x: int, y: int)
    requires
        0 <= a <= b <= line.len(),
        forall|i: int| 0 <= i < a ==> is_blank(#[trigger] line[i]),
        forall|i: int| b <= i < line.len() ==> is_blank(#[trigger] line[i]),
        a == line.len() || !is_blank(line[a]),
        b == a || !is_blank(line[b - 1]),
        0 <= x < y <= line.len(),
        forall|i: int| 0 <= i < x ==> is_blank(#[trigger] line[i]),
        forall|i: int| y <= i < line.len() ==> is_blank(#[trigger] line[i]),
        forall|i: int| x <= i < y ==> is_digit(#[trigger] line[i]),
    ensures
        x == a && y == b,
{
    assert(!is_blank(line[x]));
    assert(!is_blank(line[y - 1]));
}

/// Reads the generation delay typed at startup: a positive number of
/// milliseconds written in decimal, with white space around it. `None` when
/// the line holds anything else, zero, or a number beyond `u64`.
pub fn parse_speed(line: &[u8]) -> (r: Option<u64>)
    ensures
        match r {
            Some(v) => v > 0 && writes_number(line@, v as nat),
            None => forall|v: nat| 0 < v <= u64::MAX ==> !writes_number(line@, v),
        },
{
    let n = line.len();
    let mut a: usize = 0;
    while a < n && (line[a] == 32 || line[a] == 9 || line[a] == 10 || line[a] == 12 || line[a]
        == 13)
        invariant
            a <= n == line@.len(),
            forall|i: int| 0 <= i < a ==> is_blank(#[trigger] line@[i]),
        decreases n - a,
    {
        a = a + 1;
    }
    let mut b: usize = n;
    while b > a && (line[b - 1] == 32 || line[b - 1] == 9 || line[b - 1] == 10 || line[b - 1]
        == 12 || line[b - 1] == 13)
        invariant
            a <= b <= n == line@.len(),
            forall|i: int| b <= i < n ==> is_blank(#[trigger] line@[i]),
        decreases b - a,
    {
        b = b - 1;
    }
    if a == b {
        return None;
    }
    let mut val: u128 = 0;
    let mut k: usize = a;
    while k < b
        invariant
            a <= k <= b <= n == line@.len(),
            a < b,
            forall|i: int| a <= i < k ==> is_digit(#[trigger] line@[i]),
            val as nat == digits_value(line@.subrange(a as int, k as int)),
            val <= u64::MAX,
            forall|i: int| 0 <= i < a ==> is_blank(#[trigger] line@[i]),
            forall|i: int| b <= i < n ==> is_blank(#[trigger] line@[i]),
            a == n || !is_blank(line@[a as int]),
            b == a || !is_blank(line@[b - 1]),
        decreases b - k,
    {
        let d = line[k];
        if d < 48 || d > 57 {
            proof {
                assert(!is_digit(line@[k as int]));
            }
            return None;
        }
        proof {
            let t = line@.subrange(a as int, k + 1);
            assert(t.drop_last() == line@.subrange(a as int, k as int));
            assert(t.last() == d);
        }
        val = val * 10 + (d - 48) as u128;
        k = k + 1;
        if val > u64::MAX as u128 {
            proof {
                assert forall|v: nat| 0 < v <= u64::MAX implies !writes_number(line@, v) by {
                    if writes_number(line@, v) {
                        let (x, y) = choose|x: int, y: int|
                            0 <= x < y <= line@.len() && (forall|i: int|
                                0 <= i < x ==> is_blank(#[trigger] line@[i])) && (forall|i: int|
                                y <= i < line@.len() ==> is_blank(#[trigger] line@[i])) && (forall|
                                i: int,
                            |
                                x <= i < y ==> is_digit(#[trigger] line@[i])) && digits_value(
                                line@.subrange(x, y),
                            ) == v;
                        lemma_number_bounds(line@, a as int, b as int, x, y);
                        let s = line@.subrange(a as int, b as int);
                        assert forall|i: int| 0 <= i < s.len() implies is_digit(#[trigger] s[i]) by {
                            assert(s[i] == line@[a + i]);
                        }
                        lemma_digits_grow(s, k - a);
                        assert(s.subrange(0, k - a) == line@.subrange(a as int, k as int));
                    }
                }
            }
            return None;
        }
    }
    if val == 0 {
        proof {
            assert forall|v: nat| 0 < v <= u64::MAX implies !writes_number(line@, v) by {
                if writes_number(line@, v) {
                    let (x, y) = choose|x: int, y: int|
                        0 <= x < y <= line@.len() && (forall|i: int|
                            0 <= i < x ==> is_blank(#[trigger] line@[i])) && (forall|i: int|
                            y <= i < line@.len() ==> is_blank(#[trigger] line@[i])) && (forall|
                            i: int,
                        |
                            x <= i < y ==> is_digit(#[trigger] line@[i])) && digits_value(
                            line@.subrange(x, y),
                        ) == v;
                    lemma_number_bounds(line@, a as int, b as int, x, y);
                }
            }
        }
        return None;
    }
    Some(val as u64)
}

} // verus!

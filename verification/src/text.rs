//! Facts about strings that the rest of the library states its contracts with:
//! the order in which strings sort, and the decimal rendering of integers.

use vstd::prelude::*;

verus! {

/// The rest of `s` after `prefix`, when `s` starts with `prefix`; `None` when it
/// does not.
pub fn strip_prefix<'a>(s: &'a str, prefix: &str) -> (rest: Option<&'a str>)
    ensures
        rest is Some <==> (prefix@.len() <= s@.len() && s@.take(prefix@.len() as int) == prefix@),
        rest matches Some(r) ==> r@ == s@.skip(prefix@.len() as int),
{
    let n = prefix.unicode_len();
    let len = s.unicode_len();
    if n > len {
        return None;
    }
    let mut i: usize = 0;
    while i < n
        invariant
            n == prefix@.len(),
            len == s@.len(),
            n <= len,
            i <= n,
            forall|j: int| 0 <= j < i ==> s@[j] == prefix@[j],
        decreases n - i,
    {
        if s.get_char(i) != prefix.get_char(i) {
            assert(s@.take(n as int)[i as int] != prefix@[i as int]);
            return None;
        }
        i += 1;
    }
    assert(s@.take(n as int) =~= prefix@);
    let rest = s.substring_char(n, len);
    assert(rest@ =~= s@.skip(n as int));
    Some(rest)
}

/// Lexicographic order on character sequences, comparing characters by their
/// Unicode scalar values. This is the order of `str`'s `Ord` implementation.
pub open spec fn chars_le(a: Seq<char>, b: Seq<char>) -> bool
    decreases a.len(),
{
    if a.len() == 0 {
        true
    } else if b.len() == 0 {
        false
    } else if a[0] != b[0] {
        (a[0] as u32) < (b[0] as u32)
    } else {
        chars_le(a.drop_first(), b.drop_first())
    }
}

/// Strict version of [`chars_le`].
pub open spec fn chars_lt(a: Seq<char>, b: Seq<char>) -> bool {
    chars_le(a, b) && a != b
}

/// The sequence is sorted and holds no element twice.
pub open spec fn strictly_ascending(s: Seq<Seq<char>>) -> bool {
    forall|i: int, j: int| 0 <= i < j < s.len() ==> #[trigger] chars_lt(s[i], s[j])
}

/// The sequence is sorted, allowing repeated elements.
pub open spec fn ascending(s: Seq<Seq<char>>) -> bool {
    forall|i: int, j: int| 0 <= i < j < s.len() ==> #[trigger] chars_le(s[i], s[j])
}

/// The character views of a sequence of strings.
pub open spec fn string_views(s: Seq<String>) -> Seq<Seq<char>> {
    s.map_values(|x: String| x@)
}

pub proof fn lemma_chars_le_reflexive(a: Seq<char>)
    ensures
        chars_le(a, a),
    decreases a.len(),
{
    if a.len() > 0 {
        lemma_chars_le_reflexive(a.drop_first());
    }
}

pub proof fn lemma_chars_le_antisymmetric(a: Seq<char>, b: Seq<char>)
    requires
        chars_le(a, b),
        chars_le(b, a),
    ensures
        a == b,
    decreases a.len(),
{
    if a.len() == 0 {
        assert(b.len() == 0);
        assert(a =~= b);
    } else {
        assert(b.len() > 0);
        if a[0] == b[0] {
            lemma_chars_le_antisymmetric(a.drop_first(), b.drop_first());
            assert(a =~= seq![a[0]] + a.drop_first());
            assert(b =~= seq![b[0]] + b.drop_first());
        } else {
            assert(false);
        }
    }
}

pub proof fn lemma_chars_le_transitive(a: Seq<char>, b: Seq<char>, c: Seq<char>)
    requires
        chars_le(a, b),
        chars_le(b, c),
    ensures
        chars_le(a, c),
    decreases a.len(),
{
    if a.len() > 0 {
        assert(b.len() > 0);
        assert(c.len() > 0);
        if a[0] == b[0] && b[0] == c[0] {
            lemma_chars_le_transitive(a.drop_first(), b.drop_first(), c.drop_first());
        }
    }
}

pub proof fn lemma_chars_lt_transitive(a: Seq<char>, b: Seq<char>, c: Seq<char>)
    requires
        chars_lt(a, b),
        chars_lt(b, c),
    ensures
        chars_lt(a, c),
{
    lemma_chars_le_transitive(a, b, c);
    if a == c {
        lemma_chars_le_antisymmetric(a, b);
    }
}

/// Comparing two sequences that share a prefix compares what follows it.
pub proof fn lemma_chars_le_common_prefix(p: Seq<char>, a: Seq<char>, b: Seq<char>)
    ensures
        chars_le(p + a, p + b) == chars_le(a, b),
    decreases p.len(),
{
    if p.len() > 0 {
        assert((p + a)[0] == p[0]);
        assert((p + b)[0] == p[0]);
        assert((p + a).drop_first() =~= p.drop_first() + a);
        assert((p + b).drop_first() =~= p.drop_first() + b);
        lemma_chars_le_common_prefix(p.drop_first(), a, b);
    } else {
        assert(p + a =~= a);
        assert(p + b =~= b);
    }
}

/// The character of a decimal digit.
pub open spec fn digit_char(d: nat) -> char {
    ((48 + d) as u8) as char
}

/// Decimal rendering of a natural number, most significant digit first.
pub open spec fn nat_decimal(n: nat) -> Seq<char>
    decreases n,
{
    if n < 10 {
        seq![digit_char(n)]
    } else {
        nat_decimal(n / 10).push(digit_char(n % 10))
    }
}

/// Decimal rendering of an integer, with a leading `-` when it is negative; this
/// is what `Display` prints for the primitive integer types.
pub open spec fn int_decimal(n: int) -> Seq<char> {
    if n < 0 {
        seq!['-'] + nat_decimal((-n) as nat)
    } else {
        nat_decimal(n as nat)
    }
}

/// Appends the decimal rendering of `n`.
pub fn push_decimal(s: &mut String, n: u64)
    ensures
        final(s)@ == old(s)@ + nat_decimal(n as nat),
    decreases n,
{
    if n >= 10 {
        push_decimal(s, n / 10);
    }
    let d: u8 = (n % 10) as u8;
    s.push((48u8 + d) as char);
    proof {
        if n < 10 {
            assert(old(s)@ + nat_decimal(n as nat) =~= old(s)@.push(digit_char(n as nat)));
        } else {
            assert(old(s)@ + nat_decimal(n as nat) =~= (old(s)@ + nat_decimal((n / 10) as nat)).push(
                digit_char((n % 10) as nat),
            ));
        }
    }
}

/// The character is one of the decimal digits `0` to `9`.
pub open spec fn is_decimal_digit(c: char) -> bool {
    48 <= (c as u32) <= 57
}

/// The number that a sequence of decimal digits denotes, most significant first.
pub open spec fn decimal_value(digits: Seq<char>) -> int
    decreases digits.len(),
{
    if digits.len() == 0 {
        0
    } else {
        decimal_value(digits.drop_last()) * 10 + ((digits.last() as u32) - 48)
    }
}

/// The character of a digit is that digit.
proof fn lemma_digit_char(d: nat)
    requires
        d < 10,
    ensures
        (digit_char(d) as u32) == 48 + d,
{
    let b: u8 = (48 + d) as u8;
    assert(b == 48 + d);
    assert((b as char) as u32 == b as u32);
}

/// The decimal rendering of a natural number reads back as that number: it is a
/// non-empty sequence of digits, without a leading zero, that denotes `n`.
pub proof fn lemma_decimal_reads_back(n: nat)
    ensures
        nat_decimal(n).len() > 0,
        forall|i: int| 0 <= i < nat_decimal(n).len() ==> #[trigger] is_decimal_digit(nat_decimal(n)[i]),
        decimal_value(nat_decimal(n)) == n,
        nat_decimal(n).len() > 1 ==> nat_decimal(n)[0] != '0',
    decreases n,
{
    if n < 10 {
        lemma_digit_char(n);
        assert(nat_decimal(n).drop_last() =~= Seq::<char>::empty());
        assert(decimal_value(Seq::<char>::empty()) == 0);
        assert(decimal_value(nat_decimal(n)) == decimal_value(nat_decimal(n).drop_last()) * 10 + ((
        nat_decimal(n).last() as u32) - 48));
    } else {
        let q = n / 10;
        let r = n % 10;
        lemma_decimal_reads_back(q);
        lemma_digit_char(r);
        let s = nat_decimal(n);
        assert(s.drop_last() =~= nat_decimal(q));
        assert(s.last() == digit_char(r));
        assert(q * 10 + r == n);
        assert(decimal_value(s) == decimal_value(s.drop_last()) * 10 + ((s.last() as u32) - 48));
        assert(decimal_value(s) == q * 10 + r);
        assert forall|i: int| 0 <= i < s.len() implies #[trigger] is_decimal_digit(s[i]) by {
            if i < s.len() - 1 {
                assert(s[i] == nat_decimal(q)[i]);
            }
        }
        assert(s[0] == nat_decimal(q)[0]);
        if nat_decimal(q).len() == 1 {
            assert(q < 10) by {
                if q >= 10 {
                    assert(nat_decimal(q) == nat_decimal(q / 10).push(digit_char(q % 10)));
                    lemma_decimal_reads_back(q / 10);
                }
            }
            lemma_digit_char(q);
        }
    }
}

/// The decimal rendering of an integer reads back as that integer: a `-` exactly
/// when it is negative, followed by the rendering of its magnitude.
pub proof fn lemma_int_decimal_reads_back(n: int)
    ensures
        int_decimal(n).len() > 0,
        (int_decimal(n)[0] == '-') == (n < 0),
        n < 0 ==> int_decimal(n).drop_first() == nat_decimal((-n) as nat) && decimal_value(
            int_decimal(n).drop_first(),
        ) == -n,
        n >= 0 ==> int_decimal(n) == nat_decimal(n as nat) && decimal_value(int_decimal(n)) == n,
{
    if n < 0 {
        lemma_decimal_reads_back((-n) as nat);
        assert(int_decimal(n).drop_first() =~= nat_decimal((-n) as nat));
    } else {
        lemma_decimal_reads_back(n as nat);
        assert(is_decimal_digit(nat_decimal(n as nat)[0]));
    }
}

/// Appends the decimal rendering of `n`, with a leading `-` when it is negative.
pub fn push_i32_decimal(s: &mut String, n: i32)
    ensures
        final(s)@ == old(s)@ + int_decimal(n as int),
{
    if n < 0 {
        s.push('-');
        let magnitude: i64 = -(n as i64);
        push_decimal(s, magnitude as u64);
        proof {
            assert(old(s)@ + int_decimal(n as int) =~= old(s)@.push('-') + nat_decimal(
                magnitude as nat,
            ));
        }
    } else {
        push_decimal(s, n as u64);
    }
}

} // verus!

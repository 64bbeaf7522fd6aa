//! Integer parsing on the text of XML nodes and attributes.
//!
//! `parse_u64` and `parse_i32` follow what `str::parse` does for those types
//! (an optional sign, then at least one decimal digit, the value in range);
//! `parse_int` also reads a `0x`-prefixed hexadecimal number, as libvirt
//! writes PCI addresses.

use vstd::prelude::*;
use vstd::arithmetic::div_mod::{lemma_div_is_strictly_smaller, lemma_fundamental_div_mod, lemma_mod_pos_bound};

verus! {

/// Value of `c` as a digit in base `radix` (10 or 16), if it is one.
pub open spec fn digit_of(c: char, radix: nat) -> Option<nat> {
    if '0' <= c && c <= '9' && (c as nat) - ('0' as nat) < radix {
        Some(((c as nat) - ('0' as nat)) as nat)
    } else if radix == 16 && 'a' <= c && c <= 'f' {
        Some(((c as nat) - ('a' as nat) + 10) as nat)
    } else if radix == 16 && 'A' <= c && c <= 'F' {
        Some(((c as nat) - ('A' as nat) + 10) as nat)
    } else {
        None
    }
}

/// Every character of `s` is a digit in base `radix`.
pub open spec fn all_digits(s: Seq<char>, radix: nat) -> bool {
    forall|i: int| 0 <= i < s.len() ==> (#[trigger] digit_of(s[i], radix)) is Some
}

/// The number that the digits `s` denote in base `radix`.
pub open spec fn digits_value(s: Seq<char>, radix: nat) -> nat
    decreases s.len(),
{
    if s.len() == 0 {
        0
    } else {
        match digit_of(s.last(), radix) {
            Some(d) => digits_value(s.drop_last(), radix) * radix + d,
            None => digits_value(s.drop_last(), radix) * radix,
        }
    }
}

/// `s` is a non-empty run of digits whose value fits below `bound` (inclusive).
pub open spec fn digits_within(s: Seq<char>, radix: nat, bound: int) -> bool {
    &&& s.len() > 0
    &&& all_digits(s, radix)
    &&& digits_value(s, radix) <= bound
}

/// The text of an unsigned number once an optional leading `+` is dropped.
pub open spec fn unsigned_body(s: Seq<char>) -> Seq<char> {
    if s.len() > 0 && s[0] == '+' {
        s.drop_first()
    } else {
        s
    }
}

/// What `u64::from_str_radix(s, radix)` returns, for radix 10 or 16.
pub open spec fn spec_parse_u64_radix(s: Seq<char>, radix: nat) -> Option<u64> {
    let body = unsigned_body(s);
    if digits_within(body, radix, u64::MAX as int) {
        Some(digits_value(body, radix) as u64)
    } else {
        None
    }
}

/// What `s.parse::<u64>()` returns.
pub open spec fn spec_parse_u64(s: Seq<char>) -> Option<u64> {
    spec_parse_u64_radix(s, 10)
}

/// What `s.parse::<i32>()` returns.
pub open spec fn spec_parse_i32(s: Seq<char>) -> Option<i32> {
    if s.len() > 0 && s[0] == '-' {
        let body = s.drop_first();
        if digits_within(body, 10, 0x8000_0000) {
            Some((0 - digits_value(body, 10)) as i32)
        } else {
            None
        }
    } else {
        let body = unsigned_body(s);
        if digits_within(body, 10, i32::MAX as int) {
            Some(digits_value(body, 10) as i32)
        } else {
            None
        }
    }
}

/// `s` starts with `0x`.
pub open spec fn has_hex_prefix(s: Seq<char>) -> bool {
    s.len() >= 2 && s[0] == '0' && s[1] == 'x'
}

/// The number that `parse_int` reads from `s`: hexadecimal after a `0x`
/// prefix, decimal otherwise.
pub open spec fn spec_parse_int(s: Seq<char>) -> Option<u64> {
    if has_hex_prefix(s) {
        spec_parse_u64_radix(s.skip(2), 16)
    } else {
        spec_parse_u64_radix(s, 10)
    }
}

/// The decimal digits, in order of value.
pub open spec fn decimal_digits() -> Seq<char> {
    "0123456789"@
}

/// The hexadecimal digits in lower case, in order of value.
pub open spec fn hex_digits_lower() -> Seq<char> {
    "0123456789abcdef"@
}

/// The hexadecimal digits in upper case, in order of value.
pub open spec fn hex_digits_upper() -> Seq<char> {
    "0123456789ABCDEF"@
}

/// `n` written in base `radix` with the digit characters `table` (the one
/// for value `k` at index `k`), most significant digit first, without
/// leading zeros.
pub open spec fn numeral(n: nat, radix: nat, table: Seq<char>) -> Seq<char>
    decreases n,
{
    if radix < 2 || n < radix {
        seq![table[n as int]]
    } else {
        proof {
            lemma_div_is_strictly_smaller(n as int, radix as int);
        }
        numeral(n / radix, radix, table).push(table[(n % radix) as int])
    }
}

/// `table` lists the digits of base `radix` in order of value.
pub open spec fn digit_table(table: Seq<char>, radix: nat) -> bool {
    &&& table.len() >= radix
    &&& forall|k: int| 0 <= k < radix ==> #[trigger] digit_of(table[k], radix) == Some(k as nat)
}

/// The decimal and the two hexadecimal digit lists are digit tables.
pub proof fn lemma_digit_tables()
    ensures
        digit_table(decimal_digits(), 10),
        digit_table(hex_digits_lower(), 16),
        digit_table(hex_digits_upper(), 16),
{
    reveal_strlit("0123456789");
    reveal_strlit("0123456789abcdef");
    reveal_strlit("0123456789ABCDEF");
    let d = decimal_digits();
    let l = hex_digits_lower();
    let u = hex_digits_upper();
    assert(d == seq!['0', '1', '2', '3', '4', '5', '6', '7', '8', '9']);
    assert(l == seq!['0', '1', '2', '3', '4', '5', '6', '7', '8', '9', 'a', 'b', 'c', 'd', 'e', 'f']);
    assert(u == seq!['0', '1', '2', '3', '4', '5', '6', '7', '8', '9', 'A', 'B', 'C', 'D', 'E', 'F']);
    assert forall|k: int| 0 <= k < 10 implies #[trigger] digit_of(d[k], 10) == Some(k as nat) by {
        assert(k == 0 || k == 1 || k == 2 || k == 3 || k == 4 || k == 5 || k == 6 || k == 7 || k == 8
            || k == 9);
    }
    assert forall|k: int| 0 <= k < 16 implies #[trigger] digit_of(l[k], 16) == Some(k as nat) && digit_of(
        u[k],
        16,
    ) == Some(k as nat) by {
        assert(k == 0 || k == 1 || k == 2 || k == 3 || k == 4 || k == 5 || k == 6 || k == 7 || k == 8
            || k == 9 || k == 10 || k == 11 || k == 12 || k == 13 || k == 14 || k == 15);
    }
}

/// A numeral written with a digit table is a non-empty run of digits of its
/// base whose value is the number written.
pub proof fn lemma_numeral_value(n: nat, radix: nat, table: Seq<char>)
    requires
        radix >= 2,
        digit_table(table, radix),
    ensures
        numeral(n, radix, table).len() > 0,
        all_digits(numeral(n, radix, table), radix),
        digits_value(numeral(n, radix, table), radix) == n,
    decreases n,
{
    let s = numeral(n, radix, table);
    if n < radix {
        assert(digit_of(table[n as int], radix) == Some(n));
        assert(s.drop_last() =~= Seq::<char>::empty());
        assert(s.last() == table[n as int]);
        assert(digits_value(s.drop_last(), radix) == 0);
        assert(0 * radix == 0) by (nonlinear_arith);
        assert(digits_value(s, radix) == 0 * radix + n);
    } else {
        lemma_div_is_strictly_smaller(n as int, radix as int);
        lemma_mod_pos_bound(n as int, radix as int);
        lemma_fundamental_div_mod(n as int, radix as int);
        let q = n / radix;
        let r = n % radix;
        lemma_numeral_value(q, radix, table);
        let p = numeral(q, radix, table);
        assert(s == p.push(table[r as int]));
        assert(s.drop_last() =~= p);
        assert(digit_of(table[r as int], radix) == Some(r));
        assert(q * radix == radix * q) by (nonlinear_arith);
        assert(s.last() == table[r as int]);
        assert(digits_value(s, radix) == digits_value(p, radix) * radix + r);
        assert forall|i: int| 0 <= i < s.len() implies (#[trigger] digit_of(s[i], radix)) is Some by {
            if i < p.len() {
                assert(s[i] == p[i]);
            }
        }
    }
}

/// A digit string never denotes less than any of its prefixes.
proof fn lemma_digits_value_prefix(s: Seq<char>, radix: nat, k: int)
    requires
        radix >= 1,
        0 <= k <= s.len(),
    ensures
        digits_value(s.take(k), radix) <= digits_value(s, radix),
    decreases s.len(),
{
    if k < s.len() {
        assert(s.drop_last().take(k) =~= s.take(k));
        lemma_digits_value_prefix(s.drop_last(), radix, k);
        let v = digits_value(s.drop_last(), radix);
        assert(v * radix >= v) by (nonlinear_arith)
            requires
                radix >= 1,
        ;
    } else {
        assert(s.take(k) =~= s);
    }
}

/// The characters of `s`, one by one.
pub fn chars_of(s: &str) -> (r: Vec<char>)
    ensures
        r@ == s@,
{
    let n = s.unicode_len();
    let mut r: Vec<char> = Vec::new();
    let mut i: usize = 0;
    while i < n
        invariant
            n == s@.len(),
            i <= n,
            r@ == s@.take(i as int),
        decreases n - i,
    {
        let c = s.get_char(i);
        r.push(c);
        i = i + 1;
        assert(r@ =~= s@.take(i as int));
    }
    assert(r@ =~= s@);
    r
}

/// The value of `c` as a digit in base `radix`, if it is one.
fn char_digit(c: char, radix: u64) -> (r: Option<u64>)
    requires
        radix == 10 || radix == 16,
    ensures
        match digit_of(c, radix as nat) {
            Some(d) => r == Some(d as u64),
            None => r is None,
        },
{
    let v = c as u32;
    if '0' <= c && c <= '9' {
        Some((v - 48) as u64)
    } else if radix == 16 && 'a' <= c && c <= 'f' {
        Some((v - 87) as u64)
    } else if radix == 16 && 'A' <= c && c <= 'F' {
        Some((v - 55) as u64)
    } else {
        None
    }
}

/// Reads `cs[start..]` as a non-empty run of digits in base `radix` whose
/// value fits in `u64`.
fn parse_digits(cs: &Vec<char>, start: usize, radix: u64) -> (r: Option<u64>)
    requires
        start <= cs@.len(),
        radix == 10 || radix == 16,
    ensures
        r == (if digits_within(cs@.skip(start as int), radix as nat, u64::MAX as int) {
            Some(digits_value(cs@.skip(start as int), radix as nat) as u64)
        } else {
            None::<u64>
        }),
{
    let ghost body = cs@.skip(start as int);
    let n = cs.len();
    if start == n {
        return None;
    }
    let mut acc: u64 = 0;
    let mut i: usize = start;
    while i < n
        invariant
            n == cs@.len(),
            start < n,
            start <= i <= n,
            radix == 10 || radix == 16,
            body == cs@.skip(start as int),
            all_digits(body.take(i - start), radix as nat),
            acc as nat == digits_value(body.take(i - start), radix as nat),
        decreases n - i,
    {
        let c = cs[i];
        let ghost pre = body.take(i - start);
        let ghost post = body.take(i + 1 - start);
        assert(post.drop_last() =~= pre);
        assert(post.last() == c);
        match char_digit(c, radix) {
            None => {
                assert(digit_of(body[i - start], radix as nat) is None);
                return None;
            },
            Some(d) => {
                match acc.checked_mul(radix) {
                    None => {
                        proof {
                            if all_digits(body, radix as nat) {
                                lemma_digits_value_prefix(body, radix as nat, i + 1 - start);
                            }
                        }
                        return None;
                    },
                    Some(m) => match m.checked_add(d) {
                        None => {
                            proof {
                                if all_digits(body, radix as nat) {
                                    lemma_digits_value_prefix(body, radix as nat, i + 1 - start);
                                }
                            }
                            return None;
                        },
                        Some(v) => {
                            acc = v;
                        },
                    },
                }
            },
        }
        i = i + 1;
        assert forall|j: int| 0 <= j < post.len() implies (#[trigger] digit_of(
            post[j],
            radix as nat,
        )) is Some by {
            if j < pre.len() {
                assert(post[j] == pre[j]);
            }
        }
    }
    assert(body.take(n - start) =~= body);
    Some(acc)
}

/// `s.parse::<u64>()`: `None` where that returns an error.
pub fn parse_u64(s: &str) -> (r: Option<u64>)
    ensures
        r == spec_parse_u64(s@),
{
    let cs = chars_of(s);
    if cs.len() > 0 && cs[0] == '+' {
        assert(cs@.skip(1) =~= cs@.drop_first());
        parse_digits(&cs, 1, 10)
    } else {
        assert(cs@.skip(0) =~= cs@);
        parse_digits(&cs, 0, 10)
    }
}

/// `s.parse::<i32>()`: `None` where that returns an error.
pub fn parse_i32(s: &str) -> (r: Option<i32>)
    ensures
        r == spec_parse_i32(s@),
{
    let cs = chars_of(s);
    if cs.len() > 0 && cs[0] == '-' {
        assert(cs@.skip(1) =~= cs@.drop_first());
        match parse_digits(&cs, 1, 10) {
            Some(v) => {
                if v <= 0x8000_0000 {
                    let w: i64 = 0 - (v as i64);
                    Some(w as i32)
                } else {
                    None
                }
            },
            None => None,
        }
    } else {
        let start: usize = if cs.len() > 0 && cs[0] == '+' {
            1
        } else {
            0
        };
        assert(cs@.skip(start as int) =~= unsigned_body(s@));
        match parse_digits(&cs, start, 10) {
            Some(v) => {
                if v <= 0x7fff_ffff {
                    Some(v as i32)
                } else {
                    None
                }
            },
            None => None,
        }
    }
}

/// Reads an unsigned number as written in libvirt XML: hexadecimal after a
/// `0x` prefix, decimal otherwise (each with the optional `+` that
/// `u64::from_str_radix` allows). `None` where the text is no such number or
/// does not fit in `u64`.
pub fn parse_int(s: &str) -> (r: Option<u64>)
    ensures
        r == spec_parse_int(s@),
{
    let cs = chars_of(s);
    let n = cs.len();
    if n >= 2 && cs[0] == '0' && cs[1] == 'x' {
        let ghost body = cs@.skip(2);
        if n > 2 && cs[2] == '+' {
            assert(cs@.skip(3) =~= unsigned_body(body));
            parse_digits(&cs, 3, 16)
        } else {
            assert(cs@.skip(2) =~= unsigned_body(body));
            parse_digits(&cs, 2, 16)
        }
    } else {
        if n > 0 && cs[0] == '+' {
            assert(cs@.skip(1) =~= unsigned_body(cs@));
            parse_digits(&cs, 1, 10)
        } else {
            assert(cs@.skip(0) =~= unsigned_body(cs@));
            parse_digits(&cs, 0, 10)
        }
    }
}

} // verus!

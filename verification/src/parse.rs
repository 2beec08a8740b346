//! Parsing of the plain values found in accounting records.
//!
//! A numeric field is a run of ASCII decimal digits; anything else, or a
//! value too large for `u64`, counts as malformed and yields zero — a
//! malformed data point contributes nothing rather than failing the sample.
//! A busy-time value is `"<integer> <unit>"` with unit `ns`, `us` or `ms`,
//! converted to nanoseconds; an unrecognized unit yields zero.  A memory
//! value is `"<integer> <unit>"` converted to kibibytes: `kib` passes the
//! integer through, `mib` divides by 1024, and any other unit is treated as
//! a smaller unit and multiplied by 1024 (saturating), which preserves the
//! conventions of the driver output this format comes from.

use vstd::prelude::*;

verus! {

pub open spec fn is_digit(b: u8) -> bool {
    48 <= b <= 57
}

pub open spec fn all_digits(s: Seq<u8>) -> bool {
    forall|i: int| 0 <= i < s.len() ==> is_digit(#[trigger] s[i])
}

/// Numeric value of a digit string, most significant digit first.
pub open spec fn digits_value(s: Seq<u8>) -> int
    decreases s.len(),
{
    if s.len() == 0 {
        0
    } else {
        digits_value(s.drop_last()) * 10 + (s.last() - 48)
    }
}

/// What a numeric field parses to: its value when it is a non-empty digit
/// string that fits `u64`, and zero otherwise.
pub open spec fn parsed_u64(s: Seq<u8>) -> u64 {
    if s.len() > 0 && all_digits(s) && digits_value(s) <= u64::MAX {
        digits_value(s) as u64
    } else {
        0
    }
}

proof fn lemma_digits_value_nonneg(s: Seq<u8>)
    requires
        all_digits(s),
    ensures
        digits_value(s) >= 0,
    decreases s.len(),
{
    if s.len() > 0 {
        assert(all_digits(s.drop_last())) by {
            assert(forall|i: int| 0 <= i < s.len() - 1 ==> s.drop_last()[i] == s[i]);
        }
        lemma_digits_value_nonneg(s.drop_last());
    }
}

/// Extending a digit string with further digits never lowers its value.
proof fn lemma_digits_value_prefix(s: Seq<u8>, i: int)
    requires
        all_digits(s),
        0 <= i <= s.len(),
    ensures
        digits_value(s) >= digits_value(s.take(i)),
    decreases s.len() - i,
{
    if i < s.len() {
        lemma_digits_value_prefix(s, i + 1);
        assert(s.take(i + 1).drop_last() =~= s.take(i));
        assert(s.take(i + 1).last() == s[i]);
        assert(all_digits(s.take(i))) by {
            assert(forall|j: int| 0 <= j < i ==> s.take(i)[j] == s[j]);
        }
        lemma_digits_value_nonneg(s.take(i));
        assert(digits_value(s.take(i + 1)) == digits_value(s.take(i)) * 10 + (s[i] - 48));
        assert(digits_value(s.take(i)) * 10 >= digits_value(s.take(i))) by (nonlinear_arith)
            requires digits_value(s.take(i)) >= 0;
    } else {
        assert(s.take(i) =~= s);
    }
}

/// Parses a numeric field: the value of a non-empty all-digit slice that
/// fits `u64`, zero for anything malformed or out of range.
pub fn u64_from_digits(s: &[u8]) -> (r: u64)
    ensures
        r == parsed_u64(s@),
{
    let n = s.len();
    if n == 0 {
        return 0;
    }
    let mut acc: u64 = 0;
    let mut i: usize = 0;
    while i < n
        invariant
            0 <= i <= n,
            n == s@.len(),
            all_digits(s@.take(i as int)),
            acc == digits_value(s@.take(i as int)),
            acc <= u64::MAX,
        decreases n - i,
    {
        let b = s[i];
        if b < 48 || b > 57 {
            // a non-digit anywhere makes the whole field malformed
            assert(!all_digits(s@));
            return 0;
        }
        let d = (b - 48) as u64;
        if acc > (u64::MAX - d) / 10 {
            // the digits seen so far already exceed u64::MAX
            proof {
                assert(s@.take(i + 1).drop_last() =~= s@.take(i as int));
                assert(s@.take(i + 1).last() == s@[i as int]);
                assert(digits_value(s@.take(i + 1)) == acc * 10 + d);
                assert(acc * 10 + d > u64::MAX) by (nonlinear_arith)
                    requires
                        acc > (u64::MAX - d) / 10,
                        0 <= d <= 9,
                        acc <= u64::MAX;
                assert(all_digits(s@.take(i + 1))) by {
                    assert(forall|j: int| 0 <= j < i + 1 ==> s@.take(i + 1)[j] == s@[j]);
                }
                if all_digits(s@) {
                    lemma_digits_value_prefix(s@, i + 1);
                }
            }
            return 0;
        }
        proof {
            assert(acc * 10 + d <= u64::MAX) by (nonlinear_arith)
                requires
                    acc <= (u64::MAX - d) / 10,
                    0 <= d <= 9;
            assert(s@.take(i + 1).drop_last() =~= s@.take(i as int));
            assert(s@.take(i + 1).last() == s@[i as int]);
            assert(all_digits(s@.take(i + 1))) by {
                assert(forall|j: int| 0 <= j < i + 1 ==> s@.take(i + 1)[j] == s@[j]);
            }
        }
        acc = acc * 10 + d;
        i = i + 1;
    }
    proof {
        assert(s@.take(n as int) =~= s@);
    }
    acc
}

/// Byte-wise equality of two slices.
pub fn bytes_eq(a: &[u8], b: &[u8]) -> (r: bool)
    ensures
        r == (a@ == b@),
{
    let n = a.len();
    if n != b.len() {
        proof {
            assert(a@.len() != b@.len());
        }
        return false;
    }
    let mut i: usize = 0;
    while i < n
        invariant
            0 <= i <= n,
            n == a@.len() && n == b@.len(),
            forall|j: int| 0 <= j < i ==> a@[j] == b@[j],
        decreases n - i,
    {
        if a[i] != b[i] {
            return false;
        }
        i = i + 1;
    }
    proof {
        assert(a@ =~= b@);
    }
    true
}

/// Index of the first occurrence of `b` in `s` at or after `from`, or
/// `s.len()` when there is none.
pub open spec fn find_byte(s: Seq<u8>, b: u8, from: int) -> int
    decreases s.len() - from,
{
    if from < 0 {
        0
    } else if from >= s.len() {
        s.len() as int
    } else if s[from] == b {
        from
    } else {
        find_byte(s, b, from + 1)
    }
}

pub proof fn lemma_find_byte_bounds(s: Seq<u8>, b: u8, from: int)
    requires
        0 <= from <= s.len(),
    ensures
        from <= find_byte(s, b, from) <= s.len(),
        find_byte(s, b, from) < s.len() ==> s[find_byte(s, b, from)] == b,
        forall|j: int| from <= j < find_byte(s, b, from) ==> s[j] != b,
    decreases s.len() - from,
{
    if from < s.len() && s[from] != b {
        lemma_find_byte_bounds(s, b, from + 1);
    }
}

pub fn find_byte_from(s: &[u8], b: u8, from: usize) -> (r: usize)
    requires
        from <= s@.len(),
    ensures
        r == find_byte(s@, b, from as int),
        from <= r <= s@.len(),
{
    let n = s.len();
    let mut i = from;
    while i < n
        invariant
            from <= i <= n,
            n == s@.len(),
            find_byte(s@, b, from as int) == find_byte(s@, b, i as int),
        decreases n - i,
    {
        if s[i] == b {
            return i;
        }
        i = i + 1;
    }
    i
}

/// Copy of `s[lo..hi]` as an owned vector.
pub fn subvec(s: &[u8], lo: usize, hi: usize) -> (r: Vec<u8>)
    requires
        lo <= hi <= s@.len(),
    ensures
        r@ == s@.subrange(lo as int, hi as int),
{
    let mut r: Vec<u8> = Vec::new();
    let mut i = lo;
    while i < hi
        invariant
            lo <= i <= hi <= s@.len(),
            r@ =~= s@.subrange(lo as int, i as int),
        decreases hi - i,
    {
        r.push(s[i]);
        assert(r@ =~= s@.subrange(lo as int, i + 1));
        i = i + 1;
    }
    proof {
        assert(r@ =~= s@.subrange(lo as int, hi as int));
    }
    r
}

pub open spec fn is_space(b: u8) -> bool {
    b == 32 || b == 9
}

/// `s` without its leading ASCII blanks (spaces and tabs).
pub open spec fn trim_start(s: Seq<u8>) -> Seq<u8>
    decreases s.len(),
{
    if s.len() > 0 && is_space(s[0]) {
        trim_start(s.drop_first())
    } else {
        s
    }
}

pub fn trim_start_vec(s: &[u8]) -> (r: Vec<u8>)
    ensures
        r@ == trim_start(s@),
{
    let n = s.len();
    let mut i: usize = 0;
    proof {
        assert(s@.skip(0) =~= s@);
    }
    while i < n && (s[i] == 32 || s[i] == 9)
        invariant
            0 <= i <= n,
            n == s@.len(),
            trim_start(s@) == trim_start(s@.skip(i as int)),
        decreases n - i,
    {
        proof {
            assert(s@.skip(i as int).drop_first() =~= s@.skip(i + 1));
        }
        i = i + 1;
    }
    proof {
        assert(trim_start(s@.skip(i as int)) == s@.skip(i as int));
    }
    subvec(s, i, n)
}

pub open spec fn unit_ns(u: Seq<u8>) -> bool {
    u =~= seq![110u8, 115u8]
}

pub open spec fn unit_us(u: Seq<u8>) -> bool {
    u =~= seq![117u8, 115u8]
}

pub open spec fn unit_ms(u: Seq<u8>) -> bool {
    u =~= seq![109u8, 115u8]
}

pub open spec fn unit_kib(u: Seq<u8>) -> bool {
    u =~= seq![107u8, 105u8, 98u8]
}

pub open spec fn unit_mib(u: Seq<u8>) -> bool {
    u =~= seq![109u8, 105u8, 98u8]
}

/// Busy time in nanoseconds denoted by a `"<integer> <unit>"` value:
/// the integer scaled by the unit for `ns`, `us` and `ms`, and zero for a
/// missing separator, a malformed integer or an unrecognized unit.
pub open spec fn duration_nanos(s: Seq<u8>) -> u128 {
    let sp = find_byte(s, 32, 0);
    if sp == s.len() {
        0
    } else {
        let amount = parsed_u64(s.take(sp));
        let unit = s.skip(sp + 1);
        if unit_ns(unit) {
            amount as u128
        } else if unit_us(unit) {
            (amount * 1000) as u128
        } else if unit_ms(unit) {
            (amount * 1000000) as u128
        } else {
            0
        }
    }
}

/// Memory size in kibibytes denoted by a `"<integer> <unit>"` value:
/// `kib` passes the integer through, `mib` divides by 1024, any other unit
/// multiplies by 1024 saturating at `u64::MAX`; a missing separator or a
/// malformed integer yields zero.
pub open spec fn memory_kib(s: Seq<u8>) -> u64 {
    let sp = find_byte(s, 32, 0);
    if sp == s.len() {
        0
    } else {
        let amount = parsed_u64(s.take(sp));
        let unit = s.skip(sp + 1);
        if unit_kib(unit) {
            amount
        } else if unit_mib(unit) {
            amount / 1024
        } else {
            if amount * 1024 > u64::MAX {
                u64::MAX
            } else {
                (amount * 1024) as u64
            }
        }
    }
}

/// Parses a busy-time value to nanoseconds.
pub fn duration_value(s: &[u8]) -> (r: u128)
    ensures
        r == duration_nanos(s@),
{
    let n = s.len();
    let sp = find_byte_from(s, 32, 0);
    if sp == n {
        return 0;
    }
    proof {
        lemma_find_byte_bounds(s@, 32, 0);
    }
    let amount_bytes = subvec(s, 0, sp);
    let amount = u64_from_digits(amount_bytes.as_slice());
    proof {
        assert(amount_bytes@ =~= s@.take(sp as int));
    }
    let unit = subvec(s, sp + 1, n);
    proof {
        assert(unit@ =~= s@.skip(sp + 1));
    }
    let ul = unit.len();
    if ul == 2 && unit[0] == 110 && unit[1] == 115 {
        proof {
            assert(unit_ns(unit@));
        }
        amount as u128
    } else if ul == 2 && unit[0] == 117 && unit[1] == 115 {
        proof {
            assert(!unit_ns(unit@) && unit_us(unit@));
        }
        (amount as u128) * 1000
    } else if ul == 2 && unit[0] == 109 && unit[1] == 115 {
        proof {
            assert(!unit_ns(unit@) && !unit_us(unit@) && unit_ms(unit@));
        }
        (amount as u128) * 1000000
    } else {
        proof {
            assert(!unit_ns(unit@) && !unit_us(unit@) && !unit_ms(unit@));
        }
        0
    }
}

/// Parses a memory value to kibibytes.
pub fn memory_value(s: &[u8]) -> (r: u64)
    ensures
        r == memory_kib(s@),
{
    let n = s.len();
    let sp = find_byte_from(s, 32, 0);
    if sp == n {
        return 0;
    }
    proof {
        lemma_find_byte_bounds(s@, 32, 0);
    }
    let amount_bytes = subvec(s, 0, sp);
    let amount = u64_from_digits(amount_bytes.as_slice());
    proof {
        assert(amount_bytes@ =~= s@.take(sp as int));
    }
    let unit = subvec(s, sp + 1, n);
    proof {
        assert(unit@ =~= s@.skip(sp + 1));
    }
    let ul = unit.len();
    if ul == 3 && unit[0] == 107 && unit[1] == 105 && unit[2] == 98 {
        proof {
            assert(unit_kib(unit@));
        }
        amount
    } else if ul == 3 && unit[0] == 109 && unit[1] == 105 && unit[2] == 98 {
        proof {
            assert(!unit_kib(unit@) && unit_mib(unit@));
        }
        amount / 1024
    } else {
        proof {
            assert(!unit_kib(unit@) && !unit_mib(unit@));
        }
        if amount <= u64::MAX / 1024 {
            assert(amount * 1024 <= u64::MAX) by (nonlinear_arith)
                requires amount <= u64::MAX / 1024;
            amount * 1024
        } else {
            assert(amount * 1024 > u64::MAX) by (nonlinear_arith)
                requires amount > u64::MAX / 1024;
            u64::MAX
        }
    }
}

} // verus!

//! Small facts and scanners over byte strings.
use vstd::prelude::*;

verus! {

pub open spec fn is_digit(b: u8) -> bool {
    48 <= b <= 57
}

pub open spec fn is_space(b: u8) -> bool {
    b == 32 || b == 9 || b == 10 || b == 13 || b == 11 || b == 12
}

/// Index of the first byte at or after `i` that is not a digit (or the length).
pub open spec fn digit_run(s: Seq<u8>, i: int) -> int
    decreases s.len() - i,
{
    if 0 <= i < s.len() && is_digit(s[i]) {
        digit_run(s, i + 1)
    } else {
        i
    }
}

/// Index of the first byte at or after `i` that is not white space (or the length).
pub open spec fn skip_space(s: Seq<u8>, i: int) -> int
    decreases s.len() - i,
{
    if 0 <= i < s.len() && is_space(s[i]) {
        skip_space(s, i + 1)
    } else {
        i
    }
}

/// End of `s[lo..j]` once trailing white space is dropped.
pub open spec fn skip_space_back(s: Seq<u8>, lo: int, j: int) -> int
    decreases j - lo,
{
    if lo < j <= s.len() && is_space(s[j - 1]) {
        skip_space_back(s, lo, j - 1)
    } else {
        j
    }
}

/// `s` without leading and trailing white space.
pub open spec fn trimmed(s: Seq<u8>) -> Seq<u8> {
    let a = skip_space(s, 0);
    s.subrange(a, skip_space_back(s, a, s.len() as int))
}

/// The number that a string of decimal digits denotes.
pub open spec fn digits_value(s: Seq<u8>) -> int
    decreases s.len(),
{
    if s.len() == 0 {
        0
    } else {
        digits_value(s.drop_last()) * 10 + (s.last() - 48)
    }
}

pub open spec fn pow10(n: nat) -> int
    decreases n,
{
    if n == 0 {
        1
    } else {
        10 * pow10((n - 1) as nat)
    }
}

/// Index of the first `b` at or after `i`, if there is one.
pub open spec fn find_byte(s: Seq<u8>, i: int, b: u8) -> Option<int>
    decreases s.len() - i,
{
    if i < 0 || i >= s.len() {
        None
    } else if s[i] == b {
        Some(i)
    } else {
        find_byte(s, i + 1, b)
    }
}

pub proof fn lemma_digit_run_bounds(s: Seq<u8>, i: int)
    requires
        0 <= i <= s.len(),
    ensures
        i <= digit_run(s, i) <= s.len(),
        forall|k: int| i <= k < digit_run(s, i) ==> is_digit(s[k]),
        digit_run(s, i) < s.len() ==> !is_digit(s[digit_run(s, i)]),
    decreases s.len() - i,
{
    if i < s.len() && is_digit(s[i]) {
        lemma_digit_run_bounds(s, i + 1);
    }
}

pub proof fn lemma_pow10_positive(n: nat)
    ensures
        pow10(n) >= 1,
    decreases n,
{
    if n > 0 {
        lemma_pow10_positive((n - 1) as nat);
    }
}

pub proof fn lemma_pow10_monotonic(n: nat, k: nat)
    requires
        n <= k,
    ensures
        pow10(n) <= pow10(k),
    decreases k,
{
    if n < k {
        lemma_pow10_monotonic(n, (k - 1) as nat);
        lemma_pow10_positive((k - 1) as nat);
    }
}

pub proof fn lemma_pow10_small(n: nat)
    requires
        n <= 18,
    ensures
        1 <= pow10(n) <= 1_000_000_000_000_000_000,
        n <= 17 ==> pow10(n) <= 100_000_000_000_000_000,
{
    reveal_with_fuel(pow10, 19);
    lemma_pow10_positive(n);
    lemma_pow10_monotonic(n, 18);
    if n <= 17 {
        lemma_pow10_monotonic(n, 17);
    }
}

pub proof fn lemma_digits_value_bound(s: Seq<u8>)
    requires
        forall|k: int| 0 <= k < s.len() ==> is_digit(s[k]),
    ensures
        0 <= digits_value(s) < pow10(s.len()),
    decreases s.len(),
{
    if s.len() > 0 {
        lemma_digits_value_bound(s.drop_last());
    }
}

/// Index of the first non-digit at or after `i`.
pub fn scan_digits(s: &[u8], i: usize) -> (r: usize)
    requires
        i <= s@.len(),
    ensures
        r == digit_run(s@, i as int),
{
    let mut j = i;
    while j < s.len() && 48 <= s[j] && s[j] <= 57
        invariant
            i <= j <= s@.len(),
            digit_run(s@, j as int) == digit_run(s@, i as int),
        decreases s@.len() - j,
    {
        j = j + 1;
    }
    j
}

/// The value of the digits `s[from..to]`, of which there are at most 18.
pub fn digits_to_u64(s: &[u8], from: usize, to: usize) -> (r: u64)
    requires
        from <= to <= s@.len(),
        to - from <= 18,
        forall|k: int| from <= k < to ==> is_digit(s@[k]),
    ensures
        r == digits_value(s@.subrange(from as int, to as int)),
{
    let mut v: u64 = 0;
    let mut i = from;
    while i < to
        invariant
            from <= i <= to <= s@.len(),
            to - from <= 18,
            forall|k: int| from <= k < to ==> is_digit(s@[k]),
            v == digits_value(s@.subrange(from as int, i as int)),
        decreases to - i,
    {
        proof {
            let p = s@.subrange(from as int, i as int);
            let q = s@.subrange(from as int, i as int + 1);
            assert(q.drop_last() =~= p);
            lemma_digits_value_bound(p);
            lemma_pow10_small(p.len());
        }
        v = v * 10 + (s[i] - 48) as u64;
        i = i + 1;
    }
    v
}

/// Index of the first non-space byte at or after `i`.
pub fn scan_space(s: &[u8], i: usize) -> (r: usize)
    requires
        i <= s@.len(),
    ensures
        r == skip_space(s@, i as int),
        i <= r <= s@.len(),
{
    let mut j = i;
    while j < s.len() && (s[j] == 32 || s[j] == 9 || s[j] == 10 || s[j] == 13 || s[j] == 11
        || s[j] == 12)
        invariant
            i <= j <= s@.len(),
            skip_space(s@, j as int) == skip_space(s@, i as int),
        decreases s@.len() - j,
    {
        j = j + 1;
    }
    j
}

/// End of `s[lo..j]` without its trailing white space.
pub fn scan_space_back(s: &[u8], lo: usize, j: usize) -> (r: usize)
    requires
        lo <= j <= s@.len(),
    ensures
        r == skip_space_back(s@, lo as int, j as int),
        lo <= r <= j,
{
    let mut k = j;
    while k > lo && (s[k - 1] == 32 || s[k - 1] == 9 || s[k - 1] == 10 || s[k - 1] == 13 || s[k
        - 1] == 11 || s[k - 1] == 12)
        invariant
            lo <= k <= j <= s@.len(),
            skip_space_back(s@, lo as int, k as int) == skip_space_back(s@, lo as int, j as int),
        decreases k - lo,
    {
        k = k - 1;
    }
    k
}

/// Index of the first `b` at or after `i`, if there is one.
pub fn position_of(s: &[u8], i: usize, b: u8) -> (r: Option<usize>)
    ensures
        r matches Some(k) ==> find_byte(s@, i as int, b) == Some(k as int),
        r is None ==> find_byte(s@, i as int, b) is None,
{
    let mut j = i;
    while j < s.len()
        invariant
            i <= j,
            find_byte(s@, j as int, b) == find_byte(s@, i as int, b),
        decreases s@.len() - j,
    {
        if s[j] == b {
            return Some(j);
        }
        j = j + 1;
    }
    None
}

/// The bytes `s[from..to]` as a vector of their own.
pub fn copy_range(s: &[u8], from: usize, to: usize) -> (r: Vec<u8>)
    requires
        from <= to <= s@.len(),
    ensures
        r@ == s@.subrange(from as int, to as int),
{
    let mut v: Vec<u8> = Vec::new();
    let mut i = from;
    while i < to
        invariant
            from <= i <= to <= s@.len(),
            v@ == s@.subrange(from as int, i as int),
        decreases to - i,
    {
        v.push(s[i]);
        i = i + 1;
    }
    v
}

/// A value of the digits only grows as more digits follow.
pub proof fn lemma_digits_value_prefix(s: Seq<u8>, from: int, k: int, to: int)
    requires
        0 <= from <= k <= to <= s.len(),
        forall|i: int| from <= i < to ==> is_digit(s[i]),
    ensures
        digits_value(s.subrange(from, k)) <= digits_value(s.subrange(from, to)),
    decreases to - k,
{
    if k < to {
        lemma_digits_value_prefix(s, from, k, to - 1);
        let t = s.subrange(from, to);
        assert(t.drop_last() =~= s.subrange(from, to - 1));
        lemma_digits_value_bound(s.subrange(from, to - 1));
    }
}

/// The value of the digits `s[from..to]` where it is at most `cap`; `None` where it is
/// larger.
pub fn digits_up_to(s: &[u8], from: usize, to: usize, cap: u64) -> (r: Option<u64>)
    requires
        from <= to <= s@.len(),
        forall|k: int| from <= k < to ==> is_digit(s@[k]),
    ensures
        r matches Some(v) ==> v == digits_value(s@.subrange(from as int, to as int)) && v <= cap,
        r is None ==> digits_value(s@.subrange(from as int, to as int)) > cap,
{
    let mut v: u64 = 0;
    let mut i = from;
    while i < to
        invariant
            from <= i <= to <= s@.len(),
            forall|k: int| from <= k < to ==> is_digit(s@[k]),
            v == digits_value(s@.subrange(from as int, i as int)),
            v <= cap,
        decreases to - i,
    {
        proof {
            let q = s@.subrange(from as int, i as int + 1);
            assert(q.drop_last() =~= s@.subrange(from as int, i as int));
        }
        let next: u128 = v as u128 * 10 + (s[i] - 48) as u128;
        if next > cap as u128 {
            proof {
                lemma_digits_value_prefix(s@, from as int, i + 1, to as int);
            }
            return None;
        }
        v = next as u64;
        i = i + 1;
    }
    Some(v)
}

} // verus!

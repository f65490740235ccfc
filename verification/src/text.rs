//! Text as a sequence of characters: the small string operations that the
//! front-matter grammar is made of.

use vstd::prelude::*;

verus! {

/// Whether `c` has the Unicode property `White_Space`.
pub open spec fn is_whitespace(c: char) -> bool {
    let n = c as u32;
    ||| 0x09 <= n <= 0x0D
    ||| n == 0x20
    ||| n == 0x85
    ||| n == 0xA0
    ||| n == 0x1680
    ||| 0x2000 <= n <= 0x200A
    ||| n == 0x2028
    ||| n == 0x2029
    ||| n == 0x202F
    ||| n == 0x205F
    ||| n == 0x3000
}

/// The index of the first character of `s` that is no whitespace; the length
/// of `s` where there is none.
pub open spec fn trim_start_index(s: Seq<char>) -> int
    decreases s.len(),
{
    if s.len() == 0 || !is_whitespace(s[0]) {
        0
    } else {
        1 + trim_start_index(s.skip(1))
    }
}

/// The index after the last character of `s` that is no whitespace; 0 where
/// there is none.
pub open spec fn trim_end_index(s: Seq<char>) -> int
    decreases s.len(),
{
    if s.len() == 0 || !is_whitespace(s.last()) {
        s.len() as int
    } else {
        trim_end_index(s.drop_last())
    }
}

/// `s` without its leading and trailing whitespace.
pub open spec fn trim(s: Seq<char>) -> Seq<char> {
    if trim_start_index(s) >= trim_end_index(s) {
        Seq::empty()
    } else {
        s.subrange(trim_start_index(s), trim_end_index(s))
    }
}

/// The index of the first `c` in `s`; the length of `s` where there is none.
pub open spec fn index_of(s: Seq<char>, c: char) -> int
    decreases s.len(),
{
    if s.len() == 0 || s[0] == c {
        0
    } else {
        1 + index_of(s.skip(1), c)
    }
}

/// Whether three hyphens in a row begin at index `i` of `s`.
pub open spec fn rule_at(s: Seq<char>, i: int) -> bool {
    0 <= i && i + 2 < s.len() && s[i] == '-' && s[i + 1] == '-' && s[i + 2] == '-'
}

/// Whether `s` holds three hyphens in a row.
pub open spec fn has_rule(s: Seq<char>) -> bool {
    exists|i: int| rule_at(s, i)
}

/// Whether `c` is one of the digits `0` to `9`.
pub open spec fn is_digit(c: char) -> bool {
    '0' <= c <= '9'
}

/// Whether every character of `s` is a digit.
pub open spec fn all_digits(s: Seq<char>) -> bool {
    forall|i: int| 0 <= i < s.len() ==> is_digit(#[trigger] s[i])
}

/// The value of the digit `c`; 0 where `c` is no digit.
pub open spec fn digit_value(c: char) -> nat {
    if is_digit(c) {
        (c as u32 - '0' as u32) as nat
    } else {
        0
    }
}

/// The number that the digits of `s` write in base ten.
pub open spec fn digits_value(s: Seq<char>) -> nat
    decreases s.len(),
{
    if s.len() == 0 {
        0
    } else {
        digits_value(s.drop_last()) * 10 + digit_value(s.last())
    }
}

/// The digits of `s`: `s` without a leading plus sign.
pub open spec fn unsigned_body(s: Seq<char>) -> Seq<char> {
    if s.len() > 0 && s[0] == '+' {
        s.skip(1)
    } else {
        s
    }
}

/// The `u32` that `s` writes: an optional plus sign, then one digit or more
/// and nothing else, of a value that a `u32` holds. `None` for every other text.
pub open spec fn parse_u32(s: Seq<char>) -> Option<u32> {
    let body = unsigned_body(s);
    if body.len() > 0 && all_digits(body) && digits_value(body) <= u32::MAX {
        Some(digits_value(body) as u32)
    } else {
        None
    }
}

/// The characters of `s`.
pub fn chars_of(s: &str) -> (v: Vec<char>)
    ensures
        v@ == s@,
{
    broadcast use vstd::string::group_string_axioms;

    let mut v: Vec<char> = Vec::new();
    for c in it: s.chars()
        invariant
            it.seq() == s@,
            v@ == it.seq().take(it.index()),
    {
        v.push(c);
    }
    v
}

/// Whether `c` has the Unicode property `White_Space`.
pub fn char_is_whitespace(c: char) -> (r: bool)
    ensures
        r == is_whitespace(c),
{
    let n: u32 = c as u32;
    (0x09 <= n && n <= 0x0D) || n == 0x20 || n == 0x85 || n == 0xA0 || n == 0x1680 || (0x2000 <= n
        && n <= 0x200A) || n == 0x2028 || n == 0x2029 || n == 0x202F || n == 0x205F || n == 0x3000
}

proof fn lemma_trim_start_bounds(s: Seq<char>)
    ensures
        0 <= trim_start_index(s) <= s.len(),
        forall|i: int| 0 <= i < trim_start_index(s) ==> is_whitespace(#[trigger] s[i]),
        trim_start_index(s) < s.len() ==> !is_whitespace(s[trim_start_index(s)]),
    decreases s.len(),
{
    if s.len() == 0 || !is_whitespace(s[0]) {
    } else {
        let t = s.skip(1);
        lemma_trim_start_bounds(t);
        assert forall|i: int| 0 <= i < trim_start_index(s) implies is_whitespace(#[trigger] s[i]) by {
            if i > 0 {
                assert(s[i] == t[i - 1]);
            }
        }
    }
}

proof fn lemma_trim_start_is(s: Seq<char>, k: int)
    requires
        0 <= k <= s.len(),
        forall|i: int| 0 <= i < k ==> is_whitespace(#[trigger] s[i]),
        k < s.len() ==> !is_whitespace(s[k]),
    ensures
        trim_start_index(s) == k,
    decreases s.len(),
{
    if s.len() == 0 || !is_whitespace(s[0]) {
    } else {
        let t = s.skip(1);
        assert forall|i: int| 0 <= i < k - 1 implies is_whitespace(#[trigger] t[i]) by {
            assert(t[i] == s[i + 1]);
        }
        lemma_trim_start_is(t, k - 1);
    }
}

proof fn lemma_trim_end_is(s: Seq<char>, k: int)
    requires
        0 <= k <= s.len(),
        forall|i: int| k <= i < s.len() ==> is_whitespace(#[trigger] s[i]),
        k > 0 ==> !is_whitespace(s[k - 1]),
    ensures
        trim_end_index(s) == k,
    decreases s.len(),
{
    if s.len() == 0 || !is_whitespace(s.last()) {
    } else {
        let t = s.drop_last();
        assert forall|i: int| k <= i < t.len() implies is_whitespace(#[trigger] t[i]) by {
            assert(t[i] == s[i]);
        }
        lemma_trim_end_is(t, k);
    }
}

proof fn lemma_index_of_is(s: Seq<char>, c: char, k: int)
    requires
        0 <= k <= s.len(),
        forall|i: int| 0 <= i < k ==> #[trigger] s[i] != c,
        k < s.len() ==> s[k] == c,
    ensures
        index_of(s, c) == k,
    decreases s.len(),
{
    if s.len() == 0 || s[0] == c {
    } else {
        let t = s.skip(1);
        assert forall|i: int| 0 <= i < k - 1 implies #[trigger] t[i] != c by {
            assert(t[i] == s[i + 1]);
        }
        lemma_index_of_is(t, c, k - 1);
    }
}

/// The bounds of `v[from..to]` without its leading and trailing whitespace.
pub fn trim_range(v: &Vec<char>, from: usize, to: usize) -> (r: (usize, usize))
    requires
        from <= to <= v.len(),
    ensures
        from <= r.0 <= r.1 <= to,
        v@.subrange(r.0 as int, r.1 as int) == trim(v@.subrange(from as int, to as int)),
{
    let ghost s = v@.subrange(from as int, to as int);
    let mut a: usize = from;
    while a < to && char_is_whitespace(v[a])
        invariant
            from <= a <= to <= v.len(),
            forall|i: int| from <= i < a ==> is_whitespace(#[trigger] v@[i]),
        decreases to - a,
    {
        a += 1;
    }
    let mut b: usize = to;
    while b > a && char_is_whitespace(v[b - 1])
        invariant
            from <= a <= b <= to <= v.len(),
            forall|i: int| b <= i < to ==> is_whitespace(#[trigger] v@[i]),
        decreases b - a,
    {
        b -= 1;
    }
    proof {
        assert forall|i: int| 0 <= i < a - from implies is_whitespace(#[trigger] s[i]) by {
            assert(s[i] == v@[from + i]);
        }
        lemma_trim_start_is(s, a - from);
        if a < to {
            assert forall|i: int| b - from <= i < s.len() implies is_whitespace(#[trigger] s[i]) by {
                assert(s[i] == v@[from + i]);
            }
            assert(b > a);
            lemma_trim_end_is(s, b - from);
            assert(v@.subrange(a as int, b as int) =~= s.subrange(a - from, b - from));
        } else {
            lemma_trim_start_bounds(s);
            lemma_trim_end_bounds(s);
            assert(v@.subrange(a as int, b as int) =~= Seq::<char>::empty());
        }
    }
    (a, b)
}

proof fn lemma_trim_end_bounds(s: Seq<char>)
    ensures
        0 <= trim_end_index(s) <= s.len(),
    decreases s.len(),
{
    if s.len() == 0 || !is_whitespace(s.last()) {
    } else {
        lemma_trim_end_bounds(s.drop_last());
    }
}

/// The index of the first `c` in `v`; the length of `v` where there is none.
pub fn find_char(v: &Vec<char>, c: char) -> (r: usize)
    ensures
        r == index_of(v@, c),
        r <= v.len(),
        r < v.len() ==> v@[r as int] == c,
{
    let mut i: usize = 0;
    while i < v.len() && v[i] != c
        invariant
            i <= v.len(),
            forall|j: int| 0 <= j < i ==> #[trigger] v@[j] != c,
        decreases v.len() - i,
    {
        i += 1;
    }
    proof {
        lemma_index_of_is(v@, c, i as int);
    }
    i
}

/// Whether `v` begins with `prefix`.
pub fn starts_with(v: &Vec<char>, prefix: &Vec<char>) -> (r: bool)
    ensures
        r == prefix@.is_prefix_of(v@),
{
    if prefix.len() > v.len() {
        return false;
    }
    let mut i: usize = 0;
    while i < prefix.len()
        invariant
            i <= prefix.len() <= v.len(),
            forall|j: int| 0 <= j < i ==> v@[j] == prefix@[j],
        decreases prefix.len() - i,
    {
        if v[i] != prefix[i] {
            return false;
        }
        i += 1;
    }
    assert(prefix@ =~= v@.subrange(0, prefix@.len() as int));
    true
}

/// Whether `v` holds three hyphens in a row.
pub fn contains_rule(v: &Vec<char>) -> (r: bool)
    ensures
        r == has_rule(v@),
{
    if v.len() < 3 {
        return false;
    }
    let mut i: usize = 0;
    while i + 2 < v.len()
        invariant
            i + 2 <= v.len(),
            forall|j: int| 0 <= j < i ==> !rule_at(v@, j),
        decreases v.len() - i,
    {
        if v[i] == '-' && v[i + 1] == '-' && v[i + 2] == '-' {
            assert(rule_at(v@, i as int));
            return true;
        }
        i += 1;
    }
    false
}

/// Reads `v[from..to]` as a `u32`, as [`parse_u32`] says.
pub fn parse_u32_range(v: &Vec<char>, from: usize, to: usize) -> (r: Option<u32>)
    requires
        from <= to <= v.len(),
    ensures
        r == parse_u32(v@.subrange(from as int, to as int)),
{
    let ghost s = v@.subrange(from as int, to as int);
    let start: usize = if from < to && v[from] == '+' {
        from + 1
    } else {
        from
    };
    let ghost body = unsigned_body(s);
    assert(body =~= v@.subrange(start as int, to as int));
    if start == to {
        return None;
    }
    let mut acc: u64 = 0;
    let mut i: usize = start;
    while i < to
        invariant
            from <= start <= i <= to <= v.len(),
            body == v@.subrange(start as int, to as int),
            body == unsigned_body(v@.subrange(from as int, to as int)),
            all_digits(body.take(i - start)),
            acc == digits_value(body.take(i - start)),
            acc <= u32::MAX,
        decreases to - i,
    {
        let c: char = v[i];
        if !('0' <= c && c <= '9') {
            assert(body[i - start] == c);
            assert(!all_digits(body));
            return None;
        }
        let d: u64 = (c as u32 - '0' as u32) as u64;
        let next: u64 = acc * 10 + d;
        proof {
            let t = body.take(i - start + 1);
            assert(t.drop_last() =~= body.take(i - start));
            assert(t.last() == c);
            assert(digits_value(t) == next);
            assert forall|j: int| 0 <= j < t.len() implies is_digit(#[trigger] t[j]) by {
                if j < i - start {
                    assert(t[j] == body.take(i - start)[j]);
                }
            }
            if next > u32::MAX {
                lemma_digits_value_monotone(body, i - start + 1);
            }
        }
        if next > u32::MAX as u64 {
            return None;
        }
        acc = next;
        i += 1;
    }
    assert(body.take(to - start) =~= body);
    Some(acc as u32)
}

/// The value of a prefix of digits is at most the value of the whole text.
proof fn lemma_digits_value_monotone(s: Seq<char>, k: int)
    requires
        0 <= k <= s.len(),
    ensures
        digits_value(s.take(k)) <= digits_value(s),
    decreases s.len() - k,
{
    if k == s.len() {
        assert(s.take(k) =~= s);
    } else {
        lemma_digits_value_monotone(s, k + 1);
        let t = s.take(k + 1);
        assert(t.drop_last() =~= s.take(k));
    }
}

} // verus!

//! Character-level helpers shared by the parsers of the library.

use vstd::prelude::*;
use vstd::string::StrSliceExecFns;

verus! {

/// Whether `c` is whitespace as Unicode defines it (`White_Space`).
pub open spec fn is_space(c: char) -> bool {
    let n = c as u32;
    ||| 0x09 <= n <= 0x0D
    ||| n == 0x20
    ||| n == 0x85
    ||| n == 0xA0
    ||| n == 0x1680
    ||| 0x2000 <= n <= 0x200A
    ||| n == 0x2028
    ||| n == 0x2029
    ||| n == 0x202F
    ||| n == 0x205F
    ||| n == 0x3000
}

/// Executable form of [`is_space`].
pub fn char_is_space(c: char) -> (b: bool)
    ensures
        b == is_space(c),
{
    let n: u32 = c as u32;
    (0x09 <= n && n <= 0x0D) || n == 0x20 || n == 0x85 || n == 0xA0 || n == 0x1680 || (0x2000 <= n
        && n <= 0x200A) || n == 0x2028 || n == 0x2029 || n == 0x202F || n == 0x205F || n == 0x3000
}

/// The characters of `s`, in order.
pub fn chars_of(s: &str) -> (v: Vec<char>)
    ensures
        v@ == s@,
{
    broadcast use vstd::string::group_string_axioms;

    let mut v: Vec<char> = Vec::new();
    for c in it: s.chars()
        invariant
            it.seq() == s@,
            v@ == it.seq().take(it.index() as int),
    {
        v.push(c);
    }
    v
}

/// Number of whitespace characters at the start of `s`.
pub open spec fn leading_spaces(s: Seq<char>) -> nat
    decreases s.len(),
{
    if s.len() > 0 && is_space(s[0]) {
        1 + leading_spaces(s.drop_first())
    } else {
        0
    }
}

/// Number of whitespace characters at the end of `s`.
pub open spec fn trailing_spaces(s: Seq<char>) -> nat
    decreases s.len(),
{
    if s.len() > 0 && is_space(s.last()) {
        1 + trailing_spaces(s.drop_last())
    } else {
        0
    }
}

/// `s` without its leading and trailing whitespace.
pub open spec fn trimmed(s: Seq<char>) -> Seq<char> {
    let rest = s.skip(leading_spaces(s) as int);
    rest.take(rest.len() - trailing_spaces(rest))
}

/// The leading whitespace does not reach beyond the end.
pub proof fn lemma_leading_spaces_bound(s: Seq<char>)
    ensures
        leading_spaces(s) <= s.len(),
        leading_spaces(s) < s.len() ==> !is_space(s[leading_spaces(s) as int]),
    decreases s.len(),
{
    if s.len() > 0 && is_space(s[0]) {
        lemma_leading_spaces_bound(s.drop_first());
    }
}

/// The trailing whitespace does not reach beyond the start.
pub proof fn lemma_trailing_spaces_bound(s: Seq<char>)
    ensures
        trailing_spaces(s) <= s.len(),
        trailing_spaces(s) < s.len() ==> !is_space(s[s.len() - trailing_spaces(s) - 1]),
    decreases s.len(),
{
    if s.len() > 0 && is_space(s.last()) {
        lemma_trailing_spaces_bound(s.drop_last());
    }
}

/// What is left after trimming neither starts nor ends with whitespace.
pub proof fn lemma_trimmed_is_tight(s: Seq<char>)
    ensures
        trimmed(s).len() > 0 ==> !is_space(trimmed(s)[0]) && !is_space(trimmed(s).last()),
{
    lemma_leading_spaces_bound(s);
    let rest = s.skip(leading_spaces(s) as int);
    lemma_trailing_spaces_bound(rest);
    if trimmed(s).len() > 0 {
        assert(trimmed(s)[0] == rest[0]);
        assert(rest[0] == s[leading_spaces(s) as int]);
    }
}

/// The bounds, within `v`, of the trimmed form of `v[lo..hi]`.
pub fn trim_range(v: &Vec<char>, lo: usize, hi: usize) -> (r: (usize, usize))
    requires
        lo <= hi <= v.len(),
    ensures
        lo <= r.0 <= r.1 <= hi,
        r.0 == lo + leading_spaces(v@.subrange(lo as int, hi as int)),
        r.1 == hi - trailing_spaces(v@.subrange(r.0 as int, hi as int)),
        v@.subrange(r.0 as int, r.1 as int) == trimmed(v@.subrange(lo as int, hi as int)),
{
    let ghost whole = v@.subrange(lo as int, hi as int);
    let mut a: usize = lo;
    while a < hi && char_is_space(v[a])
        invariant
            lo <= a <= hi <= v.len(),
            whole == v@.subrange(lo as int, hi as int),
            leading_spaces(whole) == (a - lo) + leading_spaces(v@.subrange(a as int, hi as int)),
        decreases hi - a,
    {
        proof {
            let cur = v@.subrange(a as int, hi as int);
            assert(cur[0] == v@[a as int]);
            assert(cur.drop_first() =~= v@.subrange(a + 1, hi as int));
        }
        a = a + 1;
    }
    let ghost rest = v@.subrange(a as int, hi as int);
    proof {
        if a < hi {
            assert(rest[0] == v@[a as int]);
        }
        assert(leading_spaces(rest) == 0);
        assert(whole.skip(leading_spaces(whole) as int) =~= rest);
    }
    let mut b: usize = hi;
    while b > a && char_is_space(v[b - 1])
        invariant
            a <= b <= hi <= v.len(),
            rest == v@.subrange(a as int, hi as int),
            trailing_spaces(rest) == (hi - b) + trailing_spaces(v@.subrange(a as int, b as int)),
        decreases b - a,
    {
        proof {
            let cur = v@.subrange(a as int, b as int);
            assert(cur.last() == v@[b - 1]);
            assert(cur.drop_last() =~= v@.subrange(a as int, b - 1));
        }
        b = b - 1;
    }
    proof {
        let cur = v@.subrange(a as int, b as int);
        if b > a {
            assert(cur.last() == v@[b - 1]);
        }
        assert(trailing_spaces(cur) == 0);
        assert(rest.take(rest.len() - trailing_spaces(rest)) =~= cur);
    }
    (a, b)
}

/// `s` without its leading and trailing whitespace, as an owned string.
pub fn trim(s: &str) -> (r: String)
    ensures
        r@ == trimmed(s@),
{
    let v = chars_of(s);
    let (a, b) = trim_range(&v, 0, v.len());
    proof {
        assert(v@.subrange(0, v.len() as int) =~= v@);
    }
    s.substring_char(a, b).to_owned()
}

/// Whether `a` and `b` hold the same characters.
pub fn same_text(a: &str, b: &str) -> (r: bool)
    ensures
        r == (a@ == b@),
{
    let x = chars_of(a);
    let y = chars_of(b);
    if x.len() != y.len() {
        return false;
    }
    let mut i: usize = 0;
    while i < x.len()
        invariant
            i <= x.len() == y.len(),
            x@ == a@,
            y@ == b@,
            forall|j: int| 0 <= j < i ==> x@[j] == y@[j],
        decreases x.len() - i,
    {
        if x[i] != y[i] {
            return false;
        }
        i = i + 1;
    }
    proof {
        assert(x@ =~= y@);
    }
    true
}

/// Index of the first `c` in `s`, or the length of `s` where there is none.
pub open spec fn first_index_of(s: Seq<char>, c: char) -> nat
    decreases s.len(),
{
    if s.len() == 0 || s[0] == c {
        0
    } else {
        1 + first_index_of(s.drop_first(), c)
    }
}

/// `first_index_of(s, c)` is the one position `k` with no `c` before it that
/// either holds `c` or is the end of `s`.
pub proof fn lemma_first_index_of(s: Seq<char>, c: char, k: int)
    requires
        0 <= k <= s.len(),
        forall|j: int| 0 <= j < k ==> s[j] != c,
        k == s.len() || s[k] == c,
    ensures
        first_index_of(s, c) == k,
    decreases s.len(),
{
    if s.len() == 0 || s[0] == c {
    } else {
        let t = s.drop_first();
        assert forall|j: int| 0 <= j < k - 1 implies t[j] != c by {
            assert(t[j] == s[j + 1]);
        }
        lemma_first_index_of(t, c, k - 1);
    }
}

/// The pieces of `s` that lie between the occurrences of `c`: one more piece
/// than there are occurrences.
pub open spec fn split_on(s: Seq<char>, c: char) -> Seq<Seq<char>>
    decreases s.len(),
{
    let i = first_index_of(s, c) as int;
    if i >= s.len() {
        seq![s]
    } else {
        seq![s.take(i)] + split_on(s.skip(i + 1), c)
    }
}

/// The pieces of `v[lo..hi]` between the occurrences of `c`, each as a pair
/// of bounds within `v`.
pub fn split_range(v: &Vec<char>, lo: usize, hi: usize, c: char) -> (r: Vec<(usize, usize)>)
    requires
        lo <= hi <= v.len(),
    ensures
        r@.len() == split_on(v@.subrange(lo as int, hi as int), c).len(),
        r@.len() > 0,
        r@[0].0 == lo,
        r@[r@.len() - 1].1 == hi,
        forall|k: int| 0 <= k && k + 1 < r@.len() ==> (#[trigger] r@[k + 1]).0 == r@[k].1 + 1,
        forall|k: int|
            0 <= k < r@.len() ==> lo <= (#[trigger] r@[k]).0 <= r@[k].1 <= hi && v@.subrange(
                r@[k].0 as int,
                r@[k].1 as int,
            ) == split_on(v@.subrange(lo as int, hi as int), c)[k],
{
    let ghost whole = v@.subrange(lo as int, hi as int);
    let ghost mut done: Seq<Seq<char>> = Seq::empty();
    let mut r: Vec<(usize, usize)> = Vec::new();
    let mut start: usize = lo;
    let mut i: usize = lo;
    proof {
        assert(done + split_on(whole, c) =~= split_on(whole, c));
    }
    while i < hi
        invariant
            lo <= start <= i <= hi <= v.len(),
            whole == v@.subrange(lo as int, hi as int),
            forall|j: int| start <= j < i ==> v@[j] != c,
            done.len() == r@.len(),
            r@.len() == 0 ==> start == lo,
            r@.len() > 0 ==> r@[0].0 == lo && start == r@[r@.len() - 1].1 + 1,
            forall|k: int| 0 <= k && k + 1 < r@.len() ==> (#[trigger] r@[k + 1]).0 == r@[k].1 + 1,
            forall|k: int|
                0 <= k < r@.len() ==> lo <= (#[trigger] r@[k]).0 <= r@[k].1 <= hi && v@.subrange(
                    r@[k].0 as int,
                    r@[k].1 as int,
                ) == done[k],
            split_on(whole, c) == done + split_on(v@.subrange(start as int, hi as int), c),
        decreases hi - i,
    {
        if v[i] == c {
            proof {
                let cur = v@.subrange(start as int, hi as int);
                lemma_first_index_of(cur, c, i - start);
                let piece = v@.subrange(start as int, i as int);
                assert(cur.take(i - start) =~= piece);
                assert(cur.skip(i - start + 1) =~= v@.subrange(i + 1, hi as int));
                let next = split_on(v@.subrange(i + 1, hi as int), c);
                assert(split_on(cur, c) == seq![piece] + next);
                assert(done + (seq![piece] + next) =~= done.push(piece) + next);
                done = done.push(piece);
            }
            r.push((start, i));
            start = i + 1;
        }
        i = i + 1;
    }
    proof {
        let cur = v@.subrange(start as int, hi as int);
        lemma_first_index_of(cur, c, hi - start);
        assert(split_on(cur, c) == seq![cur]);
        assert(done + seq![cur] =~= done.push(cur));
        done = done.push(cur);
    }
    r.push((start, hi));
    r
}

/// Whether `c` is one of the ten ASCII digits.
pub open spec fn is_digit(c: char) -> bool {
    0x30 <= c as u32 <= 0x39
}

/// The number that the digit `c` stands for.
pub open spec fn digit_value(c: char) -> nat {
    if is_digit(c) {
        (c as u32 - 0x30) as nat
    } else {
        0
    }
}

/// Whether `s` holds ASCII digits only.
pub open spec fn all_digits(s: Seq<char>) -> bool {
    forall|i: int| 0 <= i < s.len() ==> is_digit(#[trigger] s[i])
}

/// The number that `s` denotes in base ten.
pub open spec fn decimal_value(s: Seq<char>) -> nat
    decreases s.len(),
{
    if s.len() == 0 {
        0
    } else {
        10 * decimal_value(s.drop_last()) + digit_value(s.last())
    }
}

/// Whether `s` is a base-ten numeral of a 16-bit unsigned number.
pub open spec fn is_decimal_u16(s: Seq<char>) -> bool {
    s.len() > 0 && all_digits(s) && decimal_value(s) <= 0xFFFF
}

/// A numeral is worth at least as much as each of its prefixes.
pub proof fn lemma_decimal_prefix(s: Seq<char>, k: int)
    requires
        0 <= k <= s.len(),
    ensures
        decimal_value(s.take(k)) <= decimal_value(s),
    decreases s.len(),
{
    if k == s.len() {
        assert(s.take(k) =~= s);
    } else {
        lemma_decimal_prefix(s.drop_last(), k);
        assert(s.drop_last().take(k) =~= s.take(k));
    }
}

/// Reads `v[lo..hi]` as the base-ten numeral of a 16-bit unsigned number.
pub fn parse_u16(v: &Vec<char>, lo: usize, hi: usize) -> (r: Option<u16>)
    requires
        lo <= hi <= v.len(),
    ensures
        r is Some <==> is_decimal_u16(v@.subrange(lo as int, hi as int)),
        r is Some ==> r.unwrap() == decimal_value(v@.subrange(lo as int, hi as int)),
{
    let ghost whole = v@.subrange(lo as int, hi as int);
    if lo == hi {
        return None;
    }
    let mut acc: u32 = 0;
    let mut i: usize = lo;
    while i < hi
        invariant
            lo <= i <= hi <= v.len(),
            whole == v@.subrange(lo as int, hi as int),
            all_digits(v@.subrange(lo as int, i as int)),
            acc == decimal_value(v@.subrange(lo as int, i as int)),
            acc <= 0xFFFF,
        decreases hi - i,
    {
        let n: u32 = v[i] as u32;
        if n < 0x30 || n > 0x39 {
            proof {
                assert(whole[i - lo] == v@[i as int]);
                assert(!is_digit(whole[i - lo]));
            }
            return None;
        }
        let next: u32 = acc * 10 + (n - 0x30);
        proof {
            let before = v@.subrange(lo as int, i as int);
            let after = v@.subrange(lo as int, i + 1);
            assert(after.drop_last() =~= before);
            assert(after.last() == v@[i as int]);
            assert(next == decimal_value(after));
            assert forall|j: int| 0 <= j < after.len() implies is_digit(#[trigger] after[j]) by {
                if j < before.len() {
                    assert(after[j] == before[j]);
                }
            }
        }
        if next > 0xFFFF {
            proof {
                lemma_decimal_prefix(whole, i + 1 - lo);
                assert(whole.take(i + 1 - lo) =~= v@.subrange(lo as int, i + 1));
            }
            return None;
        }
        acc = next;
        i = i + 1;
    }
    Some(acc as u16)
}

} // verus!

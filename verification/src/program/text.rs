//! Character-level helpers for the parser: turning a `&str` into its
//! characters, trimming whitespace, splitting on a separator, and reading
//! signed decimal integer literals.

use vstd::prelude::*;

verus! {

/// The whitespace characters that are stripped from the ends of a line and
/// that make a line blank: the ASCII whitespace set.
pub open spec fn is_space_char(c: char) -> bool {
    c == ' ' || c == '\t' || c == '\n' || c == '\r' || c == '\u{b}' || c == '\u{c}'
}

/// `s` without its leading whitespace.
pub open spec fn trim_start_spec(s: Seq<char>) -> Seq<char>
    decreases s.len(),
{
    if s.len() > 0 && is_space_char(s[0]) {
        trim_start_spec(s.drop_first())
    } else {
        s
    }
}

/// `s` without its trailing whitespace.
pub open spec fn trim_end_spec(s: Seq<char>) -> Seq<char>
    decreases s.len(),
{
    if s.len() > 0 && is_space_char(s.last()) {
        trim_end_spec(s.drop_last())
    } else {
        s
    }
}

/// `s` without leading and trailing whitespace.
pub open spec fn trim_spec(s: Seq<char>) -> Seq<char> {
    trim_end_spec(trim_start_spec(s))
}

/// The characters of a string, in order.
pub fn chars_of(s: &str) -> (r: Vec<char>)
    ensures
        r@ == s@,
{
    let n = s.unicode_len();
    let mut out: Vec<char> = Vec::new();
    let mut i: usize = 0;
    while i < n
        invariant
            i <= n,
            n == s@.len(),
            out@ == s@.take(i as int),
        decreases n - i,
    {
        out.push(s.get_char(i));
        proof {
            assert(out@ =~= s@.take(i + 1 as int));
        }
        i = i + 1;
    }
    proof {
        assert(out@ =~= s@);
    }
    out
}

/// Whether `c` is in the whitespace set.
pub fn is_space(c: char) -> (r: bool)
    ensures
        r == is_space_char(c),
{
    c == ' ' || c == '\t' || c == '\n' || c == '\r' || c == '\u{b}' || c == '\u{c}'
}

/// Dropping the leading whitespace is the same as skipping up to the first
/// non-whitespace position.
proof fn lemma_trim_start_skip(s: Seq<char>, i: int)
    requires
        0 <= i <= s.len(),
        forall|k: int| 0 <= k < i ==> is_space_char(s[k]),
        i < s.len() ==> !is_space_char(s[i]),
    ensures
        trim_start_spec(s) == s.skip(i),
    decreases i,
{
    if i == 0 {
        assert(s.skip(0) =~= s);
    } else {
        lemma_trim_start_skip(s.drop_first(), i - 1);
        assert(s.drop_first().skip(i - 1) =~= s.skip(i));
    }
}

/// Dropping the trailing whitespace is the same as keeping everything up to
/// and including the last non-whitespace position.
proof fn lemma_trim_end_take(s: Seq<char>, j: int)
    requires
        0 <= j <= s.len(),
        forall|k: int| j <= k < s.len() ==> is_space_char(s[k]),
        j > 0 ==> !is_space_char(s[j - 1]),
    ensures
        trim_end_spec(s) == s.take(j),
    decreases s.len() - j,
{
    if j == s.len() {
        assert(s.take(j) =~= s);
    } else {
        lemma_trim_end_take(s.drop_last(), j);
        assert(s.drop_last().take(j) =~= s.take(j));
    }
}

/// The characters of `s` with leading and trailing whitespace removed.
pub fn trim_chars(s: &Vec<char>) -> (r: Vec<char>)
    ensures
        r@ == trim_spec(s@),
{
    let n = s.len();
    let mut start: usize = 0;
    while start < n && is_space(s[start])
        invariant
            start <= n,
            n == s@.len(),
            forall|k: int| 0 <= k < start ==> is_space_char(s@[k]),
        decreases n - start,
    {
        start = start + 1;
    }
    proof {
        lemma_trim_start_skip(s@, start as int);
    }
    let mut end: usize = n;
    while end > start && is_space(s[end - 1])
        invariant
            start <= end <= n,
            n == s@.len(),
            forall|k: int| end <= k < n ==> is_space_char(s@[k]),
        decreases end,
    {
        end = end - 1;
    }
    proof {
        lemma_trim_end_take(s@.skip(start as int), end - start as int);
        assert(s@.skip(start as int).take(end - start as int) =~= s@.subrange(
            start as int,
            end as int,
        ));
    }
    let mut out: Vec<char> = Vec::new();
    let mut i: usize = start;
    while i < end
        invariant
            start <= i <= end <= n,
            n == s@.len(),
            out@ == s@.subrange(start as int, i as int),
        decreases end - i,
    {
        out.push(s[i]);
        proof {
            assert(out@ =~= s@.subrange(start as int, i + 1 as int));
        }
        i = i + 1;
    }
    out
}

/// The segments of `s` between occurrences of `sep`, in order. Separators
/// are not kept; empty segments are: a leading, trailing or doubled
/// separator contributes an empty segment, and the empty sequence has the
/// single empty segment.
pub open spec fn split_spec(s: Seq<char>, sep: char) -> Seq<Seq<char>>
    decreases s.len(),
{
    if s.len() == 0 {
        seq![Seq::<char>::empty()]
    } else if s[0] == sep {
        seq![Seq::<char>::empty()] + split_spec(s.drop_first(), sep)
    } else {
        let rest = split_spec(s.drop_first(), sep);
        seq![seq![s[0]] + rest[0]] + rest.drop_first()
    }
}

/// A split has at least one segment.
pub proof fn lemma_split_len(s: Seq<char>, sep: char)
    ensures
        split_spec(s, sep).len() >= 1,
    decreases s.len(),
{
    if s.len() > 0 {
        lemma_split_len(s.drop_first(), sep);
    }
}

/// The first segment of a split absorbs any separator-free prefix.
spec fn prepend_first(pre: Seq<char>, parts: Seq<Seq<char>>) -> Seq<Seq<char>> {
    seq![pre + parts[0]] + parts.drop_first()
}

/// The views of the segment vectors, as one sequence of sequences.
pub open spec fn views_of(parts: Seq<Vec<char>>) -> Seq<Seq<char>> {
    parts.map_values(|p: Vec<char>| p@)
}

/// `s` split at every occurrence of `sep`.
pub fn split_chars(s: &Vec<char>, sep: char) -> (r: Vec<Vec<char>>)
    ensures
        views_of(r@) == split_spec(s@, sep),
{
    let n = s.len();
    let mut acc: Vec<Vec<char>> = Vec::new();
    let mut cur: Vec<char> = Vec::new();
    let mut i: usize = 0;
    proof {
        lemma_split_len(s@, sep);
        assert(s@.skip(0) =~= s@);
        assert(prepend_first(Seq::<char>::empty(), split_spec(s@, sep)) =~~= split_spec(s@, sep));
        assert(views_of(acc@) + split_spec(s@, sep) =~~= split_spec(s@, sep));
    }
    while i < n
        invariant
            i <= n,
            n == s@.len(),
            split_spec(s@, sep) == views_of(acc@) + prepend_first(
                cur@,
                split_spec(s@.skip(i as int), sep),
            ),
        decreases n - i,
    {
        let ghost tail = s@.skip(i as int);
        proof {
            assert(tail[0] == s@[i as int]);
            assert(tail.drop_first() =~= s@.skip(i + 1 as int));
            lemma_split_len(s@.skip(i + 1 as int), sep);
        }
        let c = s[i];
        if c == sep {
            proof {
                assert(split_spec(tail, sep) == seq![Seq::<char>::empty()] + split_spec(
                    s@.skip(i + 1 as int),
                    sep,
                ));
                assert(prepend_first(cur@, split_spec(tail, sep)) =~= seq![cur@] + prepend_first(
                    Seq::<char>::empty(),
                    split_spec(s@.skip(i + 1 as int), sep),
                ));
                assert(views_of(acc@.push(cur)) =~= views_of(acc@) + seq![cur@]);
            }
            acc.push(cur);
            cur = Vec::new();
        } else {
            proof {
                let rest = split_spec(s@.skip(i + 1 as int), sep);
                assert(split_spec(tail, sep) == seq![seq![tail[0]] + rest[0]]
                    + rest.drop_first());
                assert(cur@ + (seq![c] + rest[0]) =~= cur@.push(c) + rest[0]);
                assert(prepend_first(cur@, split_spec(tail, sep)) =~~= prepend_first(
                    cur@.push(c),
                    rest,
                ));
            }
            cur.push(c);
        }
        i = i + 1;
    }
    proof {
        assert(s@.skip(n as int) =~= Seq::<char>::empty());
        assert(prepend_first(cur@, split_spec(Seq::<char>::empty(), sep)) =~= seq![cur@]);
        assert(views_of(acc@.push(cur)) =~= views_of(acc@) + seq![cur@]);
    }
    acc.push(cur);
    acc
}

/// Whether `c` is a decimal digit.
pub open spec fn is_digit_char(c: char) -> bool {
    '0' <= c && c <= '9'
}

/// The value of a decimal digit.
pub open spec fn digit_value(c: char) -> int {
    c as int - '0' as int
}

/// Whether every character of `s` is a decimal digit.
pub open spec fn all_digits(s: Seq<char>) -> bool {
    forall|k: int| 0 <= k < s.len() ==> is_digit_char(s[k])
}

/// The value of a sequence of decimal digits, most significant first.
pub open spec fn digits_value(s: Seq<char>) -> int
    decreases s.len(),
{
    if s.len() == 0 {
        0
    } else {
        digits_value(s.drop_last()) * 10 + digit_value(s.last())
    }
}

/// The value of `t` read as a signed decimal integer literal: an optional
/// `+` or `-` sign followed by at least one decimal digit and nothing else.
/// `None` when `t` is not of that shape.
pub open spec fn int_literal_value(t: Seq<char>) -> Option<int> {
    if t.len() == 0 {
        None
    } else {
        let negative = t[0] == '-';
        let body = if t[0] == '-' || t[0] == '+' {
            t.drop_first()
        } else {
            t
        };
        if body.len() > 0 && all_digits(body) {
            if negative {
                Some(-digits_value(body))
            } else {
                Some(digits_value(body))
            }
        } else {
            None
        }
    }
}

/// The value of `t` read as a signed decimal literal that fits in an `i32`;
/// `None` when `t` is not a literal or its value is out of range.
pub open spec fn i32_literal(t: Seq<char>) -> Option<i32> {
    match int_literal_value(t) {
        Some(v) => if i32::MIN <= v <= i32::MAX {
            Some(v as i32)
        } else {
            None
        },
        None => None,
    }
}

/// A digit sequence has a value of at least zero.
proof fn lemma_digits_value_nonneg(s: Seq<char>)
    requires
        all_digits(s),
    ensures
        digits_value(s) >= 0,
    decreases s.len(),
{
    if s.len() > 0 {
        assert(all_digits(s.drop_last()));
        lemma_digits_value_nonneg(s.drop_last());
    }
}

/// Appending digits never decreases the value: a prefix is a lower bound.
proof fn lemma_digits_value_take_le(s: Seq<char>, k: int)
    requires
        all_digits(s),
        0 <= k <= s.len(),
    ensures
        digits_value(s.take(k)) <= digits_value(s),
    decreases s.len() - k,
{
    if k < s.len() {
        lemma_digits_value_take_le(s, k + 1);
        assert(s.take(k + 1).drop_last() =~= s.take(k));
        assert(all_digits(s.take(k)));
        lemma_digits_value_nonneg(s.take(k));
    } else {
        assert(s.take(k) =~= s);
    }
}

/// Reads `t` as a signed decimal `i32` literal; `None` when `t` is not a
/// literal or does not fit.
pub fn parse_i32(t: &Vec<char>) -> (r: Option<i32>)
    ensures
        r == i32_literal(t@),
{
    let n = t.len();
    if n == 0 {
        return None;
    }
    let first = t[0];
    let negative = first == '-';
    let start: usize = if first == '-' || first == '+' {
        1
    } else {
        0
    };
    if start >= n {
        return None;
    }
    let ghost body = if t@[0] == '-' || t@[0] == '+' {
        t@.drop_first()
    } else {
        t@
    };
    proof {
        assert(body =~= t@.subrange(start as int, n as int));
    }
    let mut acc: i64 = 0;
    let mut i: usize = start;
    while i < n
        invariant
            start <= i <= n,
            n == t@.len(),
            start == 1 ==> (t@[0] == '-' || t@[0] == '+'),
            start == 0 ==> t@[0] != '-' && t@[0] != '+',
            body == t@.subrange(start as int, n as int),
            body == (if t@[0] == '-' || t@[0] == '+' {
                t@.drop_first()
            } else {
                t@
            }),
            all_digits(body.take(i - start as int)),
            0 <= acc <= 0x8000_0000,
            acc == digits_value(body.take(i - start as int)),
            negative == (t@[0] == '-'),
        decreases n - i,
    {
        let c = t[i];
        if !(c >= '0' && c <= '9') {
            proof {
                assert(body[i - start as int] == t@[i as int]);
                assert(!is_digit_char(body[i - start as int]));
                assert(!all_digits(body));
                assert(int_literal_value(t@) is None);
            }
            return None;
        }
        let d = (c as u32 - 48) as i64;
        proof {
            assert(c as int - '0' as int == d as int) by {
                assert('0' as int == 48);
            }
            assert(body.take(i + 1 - start as int).drop_last() =~= body.take(i - start as int));
            assert(body.take(i + 1 - start as int).last() == t@[i as int]);
        }
        let next = acc * 10 + d;
        if next > 0x8000_0000i64 {
            proof {
                let scanned = i + 1 - start as int;
                assert(digits_value(body.take(scanned)) == acc * 10 + d);
                if all_digits(body) {
                    lemma_digits_value_take_le(body, scanned);
                    assert(digits_value(body) > 0x8000_0000);
                    assert(match int_literal_value(t@) {
                        Some(v) => v > 0x8000_0000 || v < -0x8000_0000,
                        None => true,
                    });
                } else {
                    assert(int_literal_value(t@) is None);
                }
            }
            return None;
        }
        acc = next;
        i = i + 1;
    }
    proof {
        assert(body.take(n - start as int) =~= body);
    }
    if negative {
        if acc == 0x8000_0000i64 {
            Some(i32::MIN)
        } else {
            Some(-(acc as i32))
        }
    } else {
        if acc <= 0x7fff_ffffi64 {
            Some(acc as i32)
        } else {
            None
        }
    }
}

} // verus!

use vstd::prelude::*;

use vstd::string::StringExecFns;

verus! {

/// `needle` occurs in `hay` at position `i`.
pub open spec fn occurs_at(hay: Seq<char>, needle: Seq<char>, i: int) -> bool {
    0 <= i && i + needle.len() <= hay.len() && hay.subrange(i, i + needle.len()) == needle
}

/// `needle` occurs somewhere in `hay`.
pub open spec fn contains_text(hay: Seq<char>, needle: Seq<char>) -> bool {
    exists|i: int| occurs_at(hay, needle, i)
}

/// The part of `s` after its last '-' (all of `s` when it has none).
pub open spec fn last_segment(s: Seq<char>) -> Seq<char>
    decreases s.len(),
{
    if s.len() == 0 {
        s
    } else if s.last() == '-' {
        Seq::empty()
    } else {
        last_segment(s.drop_last()).push(s.last())
    }
}

/// Whether `needle` occurs in `hay`.
pub fn contains_chars(hay: &Vec<char>, needle: &Vec<char>) -> (r: bool)
    ensures
        r == contains_text(hay@, needle@),
{
    if needle.len() > hay.len() {
        proof {
            assert forall|i: int| !occurs_at(hay@, needle@, i) by {}
        }
        return false;
    }
    let last = hay.len() - needle.len();
    let mut i: usize = 0;
    loop
        invariant
            last == hay@.len() - needle@.len(),
            0 <= i <= last,
            forall|k: int| 0 <= k < i ==> !occurs_at(hay@, needle@, k),
        ensures
            forall|k: int| 0 <= k <= last ==> !occurs_at(hay@, needle@, k),
        decreases last - i,
    {
        let mut j: usize = 0;
        let mut same = true;
        while j < needle.len()
            invariant
                0 <= j <= needle@.len(),
                i <= last,
                last == hay@.len() - needle@.len(),
                same == (forall|q: int| 0 <= q < j ==> hay@[i + q] == needle@[q]),
            decreases needle@.len() - j,
        {
            assert(i + j < hay@.len());
            assert(hay@.len() == hay.len());
            let p: usize = i + j;
            if hay[p] != needle[j] {
                same = false;
            }
            j = j + 1;
        }
        if same {
            proof {
                assert(hay@.subrange(i as int, i + needle@.len()) =~= needle@);
                assert(occurs_at(hay@, needle@, i as int));
            }
            return true;
        }
        proof {
            if occurs_at(hay@, needle@, i as int) {
                let q = choose|q: int| 0 <= q < needle@.len() && hay@[i + q] != needle@[q];
                assert(hay@.subrange(i as int, i + needle@.len())[q] == hay@[i + q]);
            }
        }
        if i == last {
            break;
        }
        i = i + 1;
    }
    proof {
        assert forall|k: int| !occurs_at(hay@, needle@, k) by {
            if occurs_at(hay@, needle@, k) {
                assert(k <= last);
            }
        }
    }
    false
}

/// Where the part after the last '-' starts (0 when there is none).
pub fn last_segment_start(s: &Vec<char>) -> (start: usize)
    ensures
        start <= s@.len(),
        s@.skip(start as int) == last_segment(s@),
{
    let mut start: usize = s.len();
    proof {
        assert(s@.take(s@.len() as int) =~= s@);
        assert(s@.skip(s@.len() as int) =~= Seq::<char>::empty());
        assert(last_segment(s@) + Seq::<char>::empty() =~= last_segment(s@));
    }
    while start > 0 && s[start - 1] != '-'
        invariant
            0 <= start <= s@.len(),
            last_segment(s@) == last_segment(s@.take(start as int)) + s@.skip(start as int),
        decreases start,
    {
        proof {
            let t = s@.take(start as int);
            assert(t.drop_last() =~= s@.take(start - 1));
            assert(t.last() == s@[start - 1]);
            assert(s@.skip(start - 1) =~= seq![s@[start - 1]] + s@.skip(start as int));
            assert(last_segment(t) == last_segment(s@.take(start - 1)).push(s@[start - 1]));
            assert(last_segment(s@.take(start - 1)).push(s@[start - 1]) + s@.skip(start as int)
                =~= last_segment(s@.take(start - 1)) + s@.skip(start - 1));
        }
        start = start - 1;
    }
    proof {
        if start > 0 {
            assert(last_segment(s@.take(start as int)) == Seq::<char>::empty());
        } else {
            assert(s@.take(0) =~= Seq::<char>::empty());
        }
        assert(last_segment(s@.take(start as int)) + s@.skip(start as int) =~= s@.skip(start as int));
    }
    start
}

/// The characters of a text, in order.
pub fn chars_of(text: &str) -> (r: Vec<char>)
    ensures
        r@ == text@,
{
    broadcast use vstd::string::group_string_axioms;
    let mut r: Vec<char> = Vec::new();
    for c in it: text.chars()
        invariant
            it.seq() == text@,
            r@ == text@.take(it.index() as int),
    {
        proof {
            assert(text@.take(it.index() + 1) =~= text@.take(it.index() as int).push(c));
        }
        r.push(c);
    }
    proof {
        assert(r@ =~= text@);
    }
    r
}

/// The two texts one after the other.
pub fn join2(a: &str, b: &str) -> (r: String)
    ensures
        r@ == a@ + b@,
{
    let mut s = String::from_str(a);
    s.append(b);
    s
}

/// The three texts one after the other.
pub fn join3(a: &str, b: &str, c: &str) -> (r: String)
    ensures
        r@ == a@ + b@ + c@,
{
    let mut s = String::from_str(a);
    s.append(b);
    s.append(c);
    s
}

/// Every character is an ASCII decimal digit.
pub open spec fn all_digits(d: Seq<char>) -> bool {
    forall|i: int| 0 <= i < d.len() ==> '0' <= #[trigger] d[i] <= '9'
}

/// The value of a run of decimal digits.
pub open spec fn digits_value(d: Seq<char>) -> int
    decreases d.len(),
{
    if d.len() == 0 {
        0
    } else {
        digits_value(d.drop_last()) * 10 + (d.last() as int - '0' as int)
    }
}

/// A decimal integer as `str::parse::<i64>` reads it: an optional '+' or '-'
/// followed by at least one ASCII digit and nothing else, within the range of
/// `i64`; `None` otherwise.
pub open spec fn parsed_i64(s: Seq<char>) -> Option<i64> {
    let signed = s.len() > 0 && (s[0] == '-' || s[0] == '+');
    let digits = if signed { s.skip(1) } else { s };
    let magnitude = digits_value(digits);
    let value = if signed && s[0] == '-' { -magnitude } else { magnitude };
    if digits.len() > 0 && all_digits(digits) && i64::MIN <= value <= i64::MAX {
        Some(value as i64)
    } else {
        None
    }
}

/// Reads a decimal integer as `str::parse::<i64>` does: an optional sign,
/// then ASCII digits only, within the range of `i64`.
pub fn parse_i64(text: &str) -> (r: Option<i64>)
    ensures
        r == parsed_i64(text@),
{
    let chars = chars_of(text);
    let n = chars.len();
    if n == 0 {
        return None;
    }
    let neg = chars[0] == '-';
    let signed = neg || chars[0] == '+';
    let start: usize = if signed { 1 } else { 0 };
    let ghost digits = if signed { text@.skip(1) } else { text@ };
    proof {
        assert(digits =~= chars@.subrange(start as int, n as int));
    }
    if start == n {
        return None;
    }
    let limit: u64 = 9223372036854775808;
    let mut mag: u64 = 0;
    let mut over = false;
    let mut i: usize = start;
    proof {
        assert(chars@.subrange(start as int, start as int) =~= Seq::<char>::empty());
    }
    while i < n
        invariant
            n == chars@.len(),
            chars@ == text@,
            n > 0,
            start == (if text@[0] == '-' || text@[0] == '+' { 1int } else { 0int }),
            neg == (text@[0] == '-'),
            digits == (if text@[0] == '-' || text@[0] == '+' { text@.skip(1) } else { text@ }),
            digits == chars@.subrange(start as int, n as int),
            start <= i <= n,
            limit == 9223372036854775808u64,
            all_digits(chars@.subrange(start as int, i as int)),
            !over ==> mag == digits_value(chars@.subrange(start as int, i as int)) && mag <= limit,
            over ==> digits_value(chars@.subrange(start as int, i as int)) > limit,
            digits_value(chars@.subrange(start as int, i as int)) >= 0,
        decreases n - i,
    {
        let c = chars[i];
        if !('0' <= c && c <= '9') {
            proof {
                assert(digits[i - start] == c);
                assert(!all_digits(digits));
            }
            return None;
        }
        let d: u64 = (c as u32 - '0' as u32) as u64;
        let ghost pre = chars@.subrange(start as int, i as int);
        let ghost post = chars@.subrange(start as int, i + 1);
        proof {
            assert(post =~= pre.push(c));
            assert(post.drop_last() =~= pre);
            assert(digits_value(post) == digits_value(pre) * 10 + d);
            assert forall|q: int| 0 <= q < post.len() implies '0' <= #[trigger] post[q] <= '9' by {
                if q < pre.len() {
                    assert(post[q] == pre[q]);
                }
            }
            assert(digits_value(pre) * 10 + d >= digits_value(pre)) by (nonlinear_arith)
                requires
                    digits_value(pre) >= 0,
                    d >= 0,
            ;
        }
        if !over {
            if mag <= (limit - d) / 10 {
                proof {
                    assert(mag * 10 + d <= limit) by (nonlinear_arith)
                        requires
                            mag <= (limit - d) / 10,
                            d <= 9,
                            limit == 9223372036854775808u64,
                    ;
                }
                mag = mag * 10 + d;
            } else {
                proof {
                    assert(mag * 10 + d > limit) by (nonlinear_arith)
                        requires
                            mag > (limit - d) / 10,
                            d <= 9,
                            limit == 9223372036854775808u64,
                    ;
                }
                over = true;
            }
        }
        i = i + 1;
    }
    proof {
        assert(chars@.subrange(start as int, n as int) =~= digits);
    }
    if over {
        return None;
    }
    if neg {
        if mag == limit {
            Some(i64::MIN)
        } else {
            Some(0i64 - (mag as i64))
        }
    } else if mag <= 9223372036854775807 {
        Some(mag as i64)
    } else {
        None
    }
}

/// The ASCII digit of a value below ten.
pub open spec fn digit_char(k: int) -> char {
    if k == 0 {
        '0'
    } else if k == 1 {
        '1'
    } else if k == 2 {
        '2'
    } else if k == 3 {
        '3'
    } else if k == 4 {
        '4'
    } else if k == 5 {
        '5'
    } else if k == 6 {
        '6'
    } else if k == 7 {
        '7'
    } else if k == 8 {
        '8'
    } else {
        '9'
    }
}

/// The decimal form of a natural number (no sign, no leading zero).
pub open spec fn decimal(n: nat) -> Seq<char>
    decreases n,
{
    if n < 10 {
        seq![digit_char(n as int)]
    } else {
        decimal(n / 10).push(digit_char((n % 10) as int))
    }
}

/// The decimal form of `n` is a non-empty run of digits whose value is `n`.
pub proof fn lemma_decimal(n: nat)
    ensures
        decimal(n).len() > 0,
        all_digits(decimal(n)),
        digits_value(decimal(n)) == n,
    decreases n,
{
    if n < 10 {
        let d = decimal(n);
        assert(d.drop_last() =~= Seq::<char>::empty());
        assert(digits_value(d.drop_last()) == 0);
    } else {
        lemma_decimal(n / 10);
        let d = decimal(n);
        let q = decimal(n / 10);
        assert(d.drop_last() =~= q);
        assert forall|i: int| 0 <= i < d.len() implies '0' <= #[trigger] d[i] <= '9' by {
            if i < q.len() {
                assert(d[i] == q[i]);
            }
        }
        assert(n == (n / 10) * 10 + n % 10);
    }
}

/// What follows the last '-' of `p + "-" + d`, when `d` holds no '-', is `d`.
pub proof fn lemma_last_segment_after_dash(p: Seq<char>, d: Seq<char>)
    requires
        forall|i: int| 0 <= i < d.len() ==> d[i] != '-',
    ensures
        last_segment(p + seq!['-'] + d) == d,
    decreases d.len(),
{
    let s = p + seq!['-'] + d;
    if d.len() == 0 {
        assert(s.last() == '-');
    } else {
        lemma_last_segment_after_dash(p, d.drop_last());
        assert(s.drop_last() =~= p + seq!['-'] + d.drop_last());
        assert(s.last() == d.last());
        assert(d.drop_last().push(d.last()) =~= d);
    }
}

} // verus!

use vstd::prelude::*;

verus! {

/// Whether `c` is one of the ASCII digits `0` to `9`.
pub open spec fn is_decimal_digit(c: char) -> bool {
    '0' as u32 <= c as u32 <= '9' as u32
}

/// The value of a string of decimal digits.
pub open spec fn digits_value(s: Seq<char>) -> int
    decreases s.len(),
{
    if s.len() == 0 {
        0
    } else {
        digits_value(s.drop_last()) * 10 + (s.last() as u32 - '0' as u32)
    }
}

/// The digits of a number text: the text without its leading sign, if any.
pub open spec fn unsigned_part(s: Seq<char>) -> Seq<char> {
    if s.len() > 0 && (s[0] == '-' || s[0] == '+') {
        s.drop_first()
    } else {
        s
    }
}

/// What reading `s` as a decimal `i64` gives: an optional `+` or `-`, then
/// at least one digit and nothing else, with a value that fits in an `i64`.
pub open spec fn decimal_i64(s: Seq<char>) -> Option<i64> {
    let body = unsigned_part(s);
    if body.len() > 0 && forall|i: int| 0 <= i < body.len() ==> is_decimal_digit(#[trigger] body[i]) {
        let v = if s[0] == '-' {
            -digits_value(body)
        } else {
            digits_value(body)
        };
        if i64::MIN <= v <= i64::MAX {
            Some(v as i64)
        } else {
            None
        }
    } else {
        None
    }
}

/// Whether `c` has the Unicode `White_Space` property, the whitespace of
/// `char::is_whitespace` and `str::split_whitespace`: the controls U+0009 to
/// U+000D, the space, U+0085, the no-break space U+00A0, U+1680, the spaces
/// U+2000 to U+200A, the line and paragraph separators U+2028 and U+2029,
/// U+202F, U+205F and the ideographic space U+3000.
pub open spec fn is_white_space(c: char) -> bool {
    let u = c as u32;
    ||| 0x9 <= u <= 0xD
    ||| u == 0x20
    ||| u == 0x85
    ||| u == 0xA0
    ||| u == 0x1680
    ||| 0x2000 <= u <= 0x200A
    ||| u == 0x2028
    ||| u == 0x2029
    ||| u == 0x202F
    ||| u == 0x205F
    ||| u == 0x3000
}

/// The words of `s` after the word `current` that is being read: the maximal
/// runs of characters that are not whitespace, in order.
pub open spec fn words_after(s: Seq<char>, current: Seq<char>) -> Seq<Seq<char>>
    decreases s.len(),
{
    if s.len() == 0 {
        if current.len() == 0 {
            Seq::empty()
        } else {
            seq![current]
        }
    } else if is_white_space(s[0]) {
        (if current.len() == 0 {
            Seq::empty()
        } else {
            seq![current]
        }) + words_after(s.drop_first(), Seq::empty())
    } else {
        words_after(s.drop_first(), current.push(s[0]))
    }
}

/// The pieces that `str::split_whitespace` cuts a text into: its maximal runs
/// of non-whitespace characters, in order.
pub open spec fn whitespace_words(s: Seq<char>) -> Seq<Seq<char>> {
    words_after(s, Seq::empty())
}

proof fn lemma_digits_value_grows(s: Seq<char>, k: int)
    requires
        0 <= k <= s.len(),
        forall|i: int| 0 <= i < s.len() ==> is_decimal_digit(#[trigger] s[i]),
    ensures
        0 <= digits_value(s.take(k)) <= digits_value(s),
    decreases s.len(),
{
    if s.len() > 0 {
        if k == s.len() {
            assert(s.take(k) =~= s);
            lemma_digits_value_grows(s.drop_last(), k - 1);
            assert(s.drop_last().take(k - 1) =~= s.drop_last());
        } else {
            lemma_digits_value_grows(s.drop_last(), k);
            assert(s.drop_last().take(k) =~= s.take(k));
            lemma_digits_value_grows(s.drop_last(), s.len() - 1);
            assert(s.drop_last().take(s.len() - 1) =~= s.drop_last());
        }
    } else {
        assert(s.take(k) =~= s);
    }
}

/// Reads a text as a decimal `i64` the way `str::parse::<i64>` does.
pub fn parse_i64(s: &str) -> (r: Option<i64>)
    ensures
        r == decimal_i64(s@),
{
    let mut cs: Vec<char> = Vec::new();
    for c in it: s.chars()
        invariant
            it.seq() == s@,
            cs@ == it.seq().take(it.index()),
    {
        cs.push(c);
    }
    assert(cs@ =~= s@);
    let n = cs.len();
    if n == 0 {
        return None;
    }
    let start: usize = if cs[0] == '-' || cs[0] == '+' { 1 } else { 0 };
    let ghost body = unsigned_part(cs@);
    assert(body =~= cs@.subrange(start as int, n as int));
    if start == n {
        return None;
    }
    let mut acc: i128 = 0;
    let mut i = start;
    assert(body.take(0) =~= Seq::<char>::empty());
    while i < n
        invariant
            n == cs.len(),
            start < n,
            start <= i <= n,
            body == cs@.subrange(start as int, n as int),
            cs@ == s@,
            body == unsigned_part(s@),
            forall|j: int| 0 <= j < i - start ==> is_decimal_digit(#[trigger] body[j]),
            acc == digits_value(body.take(i - start)),
            0 <= acc <= 0x8000_0000_0000_0000i128,
        decreases n - i,
    {
        let c = cs[i];
        let u = c as u32;
        assert(body[i - start] == c);
        if u < 48 || u > 57 {
            assert(!is_decimal_digit(body[i - start]));
            return None;
        }
        assert(body.take(i - start + 1).drop_last() =~= body.take(i - start));
        acc = acc * 10 + ((u - 48) as i128);
        if acc > 0x8000_0000_0000_0000i128 {
            proof {
                if forall|j: int| 0 <= j < body.len() ==> is_decimal_digit(#[trigger] body[j]) {
                    lemma_digits_value_grows(body, i - start + 1);
                }
            }
            return None;
        }
        i = i + 1;
    }
    assert(body.take(n - start) =~= body);
    if cs[0] == '-' {
        Some((-acc) as i64)
    } else if acc <= 0x7FFF_FFFF_FFFF_FFFFi128 {
        Some(acc as i64)
    } else {
        None
    }
}

/// `str::split_whitespace`: trusted to give the maximal runs of
/// non-whitespace characters of `s`, in order (see `whitespace_words`).
#[verifier::external_body]
pub(crate) fn split_whitespace(s: &str) -> (words: Vec<String>)
    ensures
        words@.map_values(|w: String| w@) == whitespace_words(s@),
{
    s.split_whitespace().map(String::from).collect()
}

} // verus!

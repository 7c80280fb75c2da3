//! Plain operations on text, stated over sequences of characters.

use vstd::prelude::*;

verus! {

/// `String::push` appends one character.
pub assume_specification[ String::push ](s: &mut String, c: char)
    ensures
        final(s)@ == old(s)@.push(c),
;

/// The characters of `text`, in order.
pub fn chars_of(text: &str) -> (out: Vec<char>)
    ensures
        out@ == text@,
{
    let mut out: Vec<char> = Vec::new();
    for c in it: text.chars()
        invariant
            out@ == it.seq().take(it.index() as int),
            it.seq() == text@,
    {
        out.push(c);
    }
    out
}

/// The string made of `chars`, in order.
pub fn string_of(chars: &Vec<char>) -> (out: String)
    ensures
        out@ == chars@,
{
    let mut out = String::new();
    let mut i: usize = 0;
    while i < chars.len()
        invariant
            i <= chars.len(),
            out@ == chars@.take(i as int),
        decreases chars.len() - i,
    {
        out.push(chars[i]);
        i += 1;
    }
    out
}

/// Whether `c` is white space as Unicode defines it.
pub open spec fn is_space(c: char) -> bool {
    ||| '\u{9}' <= c <= '\u{d}'
    ||| c == ' '
    ||| c == '\u{85}'
    ||| c == '\u{a0}'
    ||| c == '\u{1680}'
    ||| '\u{2000}' <= c <= '\u{200a}'
    ||| c == '\u{2028}'
    ||| c == '\u{2029}'
    ||| c == '\u{202f}'
    ||| c == '\u{205f}'
    ||| c == '\u{3000}'
}

/// Tests one character for white space.
pub fn is_whitespace(c: char) -> (b: bool)
    ensures
        b == is_space(c),
{
    ('\u{9}' <= c && c <= '\u{d}') || c == ' ' || c == '\u{85}' || c == '\u{a0}' || c
        == '\u{1680}' || ('\u{2000}' <= c && c <= '\u{200a}') || c == '\u{2028}' || c
        == '\u{2029}' || c == '\u{202f}' || c == '\u{205f}' || c == '\u{3000}'
}

/// Whether `pattern` stands in `text` at position `at`.
pub open spec fn occurs_at(text: Seq<char>, pattern: Seq<char>, at: int) -> bool {
    &&& 0 <= at
    &&& at + pattern.len() <= text.len()
    &&& text.subrange(at, at + pattern.len()) == pattern
}

/// Whether `pattern` stands somewhere in `text`.
pub open spec fn occurs_in(text: Seq<char>, pattern: Seq<char>) -> bool {
    exists|at: int| occurs_at(text, pattern, at)
}

/// Whether `text` begins with `prefix`.
pub open spec fn begins_with<T>(text: Seq<T>, prefix: Seq<T>) -> bool {
    prefix.len() <= text.len() && text.subrange(0, prefix.len() as int) == prefix
}

/// Tests whether `pattern` stands in `text` at position `at`.
pub fn matches_at(text: &Vec<char>, pattern: &Vec<char>, at: usize) -> (b: bool)
    ensures
        b == occurs_at(text@, pattern@, at as int),
{
    if at > text.len() || pattern.len() > text.len() - at {
        return false;
    }
    let mut k: usize = 0;
    while k < pattern.len()
        invariant
            k <= pattern.len(),
            at + pattern.len() <= text.len(),
            forall|j: int| 0 <= j < k ==> text@[at + j] == pattern@[j],
        decreases pattern.len() - k,
    {
        if text[at + k] != pattern[k] {
            proof {
                let window = text@.subrange(at as int, at + pattern.len());
                assert(window[k as int] == text@[at + k]);
            }
            return false;
        }
        k += 1;
    }
    assert(text@.subrange(at as int, at + pattern.len()) =~= pattern@);
    true
}

/// Tests whether `pattern` stands somewhere in `text`.
pub fn contains(text: &str, pattern: &str) -> (b: bool)
    ensures
        b == occurs_in(text@, pattern@),
{
    let chars = chars_of(text);
    let pat = chars_of(pattern);
    let mut at: usize = 0;
    while at < chars.len()
        invariant
            at <= chars.len(),
            chars@ == text@,
            pat@ == pattern@,
            forall|j: int| 0 <= j < at ==> !occurs_at(text@, pattern@, j),
        decreases chars.len() - at,
    {
        if matches_at(&chars, &pat, at) {
            assert(occurs_at(text@, pattern@, at as int));
            return true;
        }
        at += 1;
    }
    let last = matches_at(&chars, &pat, at);
    assert(last ==> occurs_at(text@, pattern@, at as int));
    last
}

/// Tests whether the bytes `text` begin with the bytes `prefix`.
pub fn starts_with(text: &[u8], prefix: &[u8]) -> (b: bool)
    ensures
        b == begins_with(text@, prefix@),
{
    if prefix.len() > text.len() {
        return false;
    }
    let mut k: usize = 0;
    while k < prefix.len()
        invariant
            k <= prefix.len() <= text.len(),
            forall|j: int| 0 <= j < k ==> text@[j] == prefix@[j],
        decreases prefix.len() - k,
    {
        if text[k] != prefix[k] {
            assert(text@.subrange(0, prefix.len() as int)[k as int] == text@[k as int]);
            return false;
        }
        k += 1;
    }
    assert(text@.subrange(0, prefix.len() as int) =~= prefix@);
    true
}

/// Tests two runs of bytes for equality.
pub fn same_bytes(a: &[u8], b: &[u8]) -> (same: bool)
    ensures
        same == (a@ == b@),
{
    if a.len() != b.len() {
        return false;
    }
    let same = starts_with(a, b);
    assert(a@.subrange(0, a@.len() as int) =~= a@);
    same
}

/// Tests two texts for equality.
pub fn same_text(a: &str, b: &str) -> (same: bool)
    ensures
        same == (a@ == b@),
{
    let left = chars_of(a);
    let right = chars_of(b);
    if left.len() != right.len() {
        return false;
    }
    let mut i: usize = 0;
    while i < left.len()
        invariant
            i <= left.len(),
            left.len() == right.len(),
            left@ == a@,
            right@ == b@,
            forall|j: int| 0 <= j < i ==> left@[j] == right@[j],
        decreases left.len() - i,
    {
        if left[i] != right[i] {
            return false;
        }
        i += 1;
    }
    assert(left@ =~= right@);
    true
}

/// `text` with every occurrence of `pattern` replaced by `with`: occurrences
/// are found from the left and do not overlap. An empty pattern occurs nowhere.
pub open spec fn replaced(text: Seq<char>, pattern: Seq<char>, with: Seq<char>) -> Seq<char>
    decreases text.len(),
{
    if pattern.len() == 0 || text.len() < pattern.len() {
        text
    } else if occurs_at(text, pattern, 0) {
        with + replaced(text.skip(pattern.len() as int), pattern, with)
    } else {
        seq![text[0]] + replaced(text.skip(1), pattern, with)
    }
}

/// Replacing brings in no character that neither the text nor the
/// replacement holds.
pub proof fn lemma_replaced_takes_no_new_character(
    text: Seq<char>,
    pattern: Seq<char>,
    with: Seq<char>,
    c: char,
)
    requires
        replaced(text, pattern, with).contains(c),
    ensures
        text.contains(c) || with.contains(c),
    decreases text.len(),
{
    let out = replaced(text, pattern, with);
    let i = choose|i: int| 0 <= i < out.len() && out[i] == c;
    if pattern.len() == 0 || text.len() < pattern.len() {
    } else if occurs_at(text, pattern, 0) {
        let rest = replaced(text.skip(pattern.len() as int), pattern, with);
        if i < with.len() {
            assert(with[i] == c);
        } else {
            assert(rest[i - with.len()] == c);
            lemma_replaced_takes_no_new_character(
                text.skip(pattern.len() as int),
                pattern,
                with,
                c,
            );
            if text.skip(pattern.len() as int).contains(c) {
                let j = choose|j: int|
                    0 <= j < text.skip(pattern.len() as int).len() && text.skip(
                        pattern.len() as int,
                    )[j] == c;
                assert(text[j + pattern.len()] == c);
            }
        }
    } else {
        let rest = replaced(text.skip(1), pattern, with);
        if i == 0 {
            assert(text[0] == c);
        } else {
            assert(rest[i - 1] == c);
            lemma_replaced_takes_no_new_character(text.skip(1), pattern, with, c);
            if text.skip(1).contains(c) {
                let j = choose|j: int| 0 <= j < text.skip(1).len() && text.skip(1)[j] == c;
                assert(text[j + 1] == c);
            }
        }
    }
}

/// Replacing one character by a text that does not hold it leaves none of
/// it.
pub proof fn lemma_replaced_character_is_gone(text: Seq<char>, c: char, with: Seq<char>)
    requires
        !with.contains(c),
    ensures
        !replaced(text, seq![c], with).contains(c),
    decreases text.len(),
{
    let pattern = seq![c];
    let out = replaced(text, pattern, with);
    if out.contains(c) {
        let i = choose|i: int| 0 <= i < out.len() && out[i] == c;
        if text.len() < 1 {
            assert(false);
        } else if occurs_at(text, pattern, 0) {
            lemma_replaced_character_is_gone(text.skip(1), c, with);
            let rest = replaced(text.skip(1), pattern, with);
            if i < with.len() {
                assert(with[i] == c);
            } else {
                assert(rest[i - with.len()] == c);
            }
        } else {
            lemma_replaced_character_is_gone(text.skip(1), c, with);
            let rest = replaced(text.skip(1), pattern, with);
            if i == 0 {
                assert(text.subrange(0, 1) =~= seq![text[0]]);
                assert(text[0] == c);
                assert(text.subrange(0, 1) =~= pattern);
            } else {
                assert(rest[i - 1] == c);
            }
        }
    }
}

/// Replaces every occurrence of `pattern` in `text` by `with`.
pub fn replace(text: &str, pattern: &str, with: &str) -> (out: String)
    ensures
        out@ == replaced(text@, pattern@, with@),
{
    let chars = chars_of(text);
    let pat = chars_of(pattern);
    let mut out = String::new();
    if pat.len() == 0 {
        return text.to_owned();
    }
    let mut i: usize = 0;
    assert(chars@.skip(0) =~= chars@);
    assert(out@ + replaced(chars@, pat@, with@) =~= replaced(chars@, pat@, with@));
    while i < chars.len()
        invariant
            i <= chars.len(),
            pat.len() > 0,
            chars@ == text@,
            pat@ == pattern@,
            out@ + replaced(chars@.skip(i as int), pat@, with@) == replaced(
                text@,
                pattern@,
                with@,
            ),
        decreases chars.len() - i,
    {
        let ghost rest = chars@.skip(i as int);
        if matches_at(&chars, &pat, i) {
            proof {
                assert(rest.subrange(0, pat@.len() as int) =~= chars@.subrange(
                    i as int,
                    i + pat@.len(),
                ));
                assert(occurs_at(rest, pat@, 0));
                assert(rest.skip(pat@.len() as int) =~= chars@.skip(i + pat@.len()));
                assert(out@ + with@ + replaced(chars@.skip(i + pat@.len()), pat@, with@) =~= out@
                    + replaced(rest, pat@, with@));
            }
            out.append(with);
            i += pat.len();
        } else {
            proof {
                if rest.len() >= pat@.len() {
                    assert(rest.subrange(0, pat@.len() as int) =~= chars@.subrange(
                        i as int,
                        i + pat@.len(),
                    ));
                    assert(!occurs_at(rest, pat@, 0));
                    assert(rest.skip(1) =~= chars@.skip(i + 1));
                    assert(out@.push(chars@[i as int]) + replaced(
                        chars@.skip(i + 1),
                        pat@,
                        with@,
                    ) =~= out@ + replaced(rest, pat@, with@));
                }
            }
            if chars.len() - i < pat.len() {
                // Too short for another occurrence: the rest stands as it is.
                let mut j: usize = i;
                while j < chars.len()
                    invariant
                        i <= j <= chars.len(),
                        out@ + chars@.subrange(j as int, chars@.len() as int) == replaced(
                            text@,
                            pattern@,
                            with@,
                        ),
                    decreases chars.len() - j,
                {
                    proof {
                        assert(out@.push(chars@[j as int]) + chars@.subrange(
                            j + 1,
                            chars@.len() as int,
                        ) =~= out@ + chars@.subrange(j as int, chars@.len() as int));
                    }
                    out.push(chars[j]);
                    j += 1;
                }
                assert(out@ + chars@.subrange(j as int, chars@.len() as int) =~= out@);
                return out;
            }
            out.push(chars[i]);
            i += 1;
        }
    }
    assert(chars@.skip(i as int) =~= Seq::<char>::empty());
    assert(out@ + Seq::<char>::empty() =~= out@);
    out
}

/// `text` without the white space at its start.
pub open spec fn trimmed_start(text: Seq<char>) -> Seq<char>
    decreases text.len(),
{
    if text.len() > 0 && is_space(text[0]) {
        trimmed_start(text.skip(1))
    } else {
        text
    }
}

/// `text` without the white space at its end.
pub open spec fn trimmed_end(text: Seq<char>) -> Seq<char>
    decreases text.len(),
{
    if text.len() > 0 && is_space(text.last()) {
        trimmed_end(text.drop_last())
    } else {
        text
    }
}

/// `text` without the white space at either end.
pub open spec fn trimmed(text: Seq<char>) -> Seq<char> {
    trimmed_end(trimmed_start(text))
}

/// What is left after trimming at the start is empty or begins with a
/// character that is no white space.
pub proof fn lemma_trimmed_start_is_tight(text: Seq<char>)
    ensures
        trimmed_start(text).len() == 0 || !is_space(trimmed_start(text)[0]),
        trimmed_start(trimmed_start(text)) == trimmed_start(text),
    decreases text.len(),
{
    if text.len() > 0 && is_space(text[0]) {
        lemma_trimmed_start_is_tight(text.skip(1));
    }
}

/// What is left after trimming at the end is empty or ends with a character
/// that is no white space, and begins as the text began.
pub proof fn lemma_trimmed_end_is_tight(text: Seq<char>)
    ensures
        trimmed_end(text).len() == 0 || !is_space(trimmed_end(text).last()),
        trimmed_end(trimmed_end(text)) == trimmed_end(text),
        trimmed_end(text).len() <= text.len(),
        text.len() > 0 && !is_space(text[0]) ==> trimmed_end(text).len() > 0 && trimmed_end(
            text,
        )[0] == text[0],
    decreases text.len(),
{
    if text.len() > 0 && is_space(text.last()) {
        lemma_trimmed_end_is_tight(text.drop_last());
    }
}

/// Trimming a trimmed text changes nothing more.
pub proof fn law_trimming_is_stable(text: Seq<char>)
    ensures
        trimmed(trimmed(text)) == trimmed(text),
{
    let start = trimmed_start(text);
    lemma_trimmed_start_is_tight(text);
    lemma_trimmed_end_is_tight(start);
    let both = trimmed_end(start);
    assert(trimmed_start(both) == both);
}

/// Drops the white space at both ends of `text`.
pub fn trim_chars(text: &Vec<char>) -> (out: Vec<char>)
    ensures
        out@ == trimmed(text@),
{
    let mut start: usize = 0;
    assert(text@.skip(0) =~= text@);
    while start < text.len() && is_whitespace(text[start])
        invariant
            start <= text.len(),
            trimmed_start(text@.skip(start as int)) == trimmed_start(text@),
        decreases text.len() - start,
    {
        assert(text@.skip(start as int).skip(1) =~= text@.skip(start + 1));
        start += 1;
    }
    let mut end: usize = text.len();
    assert(text@.subrange(start as int, end as int) =~= text@.skip(start as int));
    while end > start && is_whitespace(text[end - 1])
        invariant
            start <= end <= text.len(),
            trimmed_end(text@.subrange(start as int, end as int)) == trimmed(text@),
        decreases end,
    {
        assert(text@.subrange(start as int, end as int).drop_last() =~= text@.subrange(
            start as int,
            end - 1,
        ));
        end -= 1;
    }
    let mut out: Vec<char> = Vec::new();
    let mut i: usize = start;
    while i < end
        invariant
            start <= i <= end <= text.len(),
            out@ == text@.subrange(start as int, i as int),
        decreases end - i,
    {
        out.push(text[i]);
        i += 1;
    }
    out
}

/// Drops the white space at both ends of `text`.
pub fn trim(text: &str) -> (out: String)
    ensures
        out@ == trimmed(text@),
{
    let chars = chars_of(text);
    let kept = trim_chars(&chars);
    string_of(&kept)
}

/// How many characters stand before the first line feed of `text`.
pub open spec fn first_line_len(text: Seq<char>) -> nat
    decreases text.len(),
{
    if text.len() == 0 || text[0] == '\n' {
        0
    } else {
        1 + first_line_len(text.skip(1))
    }
}

/// The lines of `text`: the runs of characters between line feeds. A line
/// feed at the very end closes the last line and opens no empty one.
pub open spec fn lines_of(text: Seq<char>) -> Seq<Seq<char>>
    decreases text.len(),
{
    if text.len() == 0 {
        Seq::empty()
    } else {
        let n = first_line_len(text);
        if n >= text.len() {
            seq![text]
        } else {
            seq![text.take(n as int)] + lines_of(text.skip(n as int + 1))
        }
    }
}

/// A run of `n` characters without a line feed, at the end of `text` or
/// before a line feed, is the first line of `text`.
pub proof fn lemma_first_line_len(text: Seq<char>, n: int)
    requires
        0 <= n <= text.len(),
        forall|j: int| 0 <= j < n ==> text[j] != '\n',
        n == text.len() || text[n] == '\n',
    ensures
        first_line_len(text) == n,
    decreases n,
{
    if n > 0 {
        lemma_first_line_len(text.skip(1), n - 1);
    }
}

/// The lines held in `lines`, each as a sequence of characters.
pub open spec fn line_views(lines: Seq<Vec<char>>) -> Seq<Seq<char>> {
    lines.map_values(|l: Vec<char>| l@)
}

/// Splits `text` into its lines.
pub fn lines(text: &Vec<char>) -> (out: Vec<Vec<char>>)
    ensures
        line_views(out@) == lines_of(text@),
{
    let mut out: Vec<Vec<char>> = Vec::new();
    let mut start: usize = 0;
    assert(text@.skip(0) =~= text@);
    assert(line_views(out@) + lines_of(text@) =~= lines_of(text@));
    while start < text.len()
        invariant
            start <= text.len(),
            line_views(out@) + lines_of(text@.skip(start as int)) == lines_of(text@),
        decreases text.len() - start,
    {
        let ghost rest = text@.skip(start as int);
        let mut line: Vec<char> = Vec::new();
        let mut end: usize = start;
        while end < text.len() && text[end] != '\n'
            invariant
                start <= end <= text.len(),
                line@ == text@.subrange(start as int, end as int),
                forall|j: int| start <= j < end ==> text@[j] != '\n',
            decreases text.len() - end,
        {
            line.push(text[end]);
            end += 1;
        }
        proof {
            lemma_first_line_len(rest, end - start);
            assert(line_views(out@.push(line)) =~= line_views(out@).push(line@));
            if end < text.len() {
                assert(rest.take(end - start) =~= line@);
                assert(rest.skip(end - start + 1) =~= text@.skip(end + 1));
                assert(line_views(out@).push(line@) + lines_of(text@.skip(end + 1))
                    =~= line_views(out@) + lines_of(rest));
            } else {
                assert(rest =~= line@);
                assert(lines_of(text@.skip(end as int)) =~= Seq::<Seq<char>>::empty());
                assert(line_views(out@).push(line@) + lines_of(text@.skip(end as int))
                    =~= line_views(out@) + lines_of(rest));
            }
        }
        out.push(line);
        if end < text.len() {
            start = end + 1;
        } else {
            start = end;
        }
    }
    assert(lines_of(text@.skip(start as int)) =~= Seq::<Seq<char>>::empty());
    assert(line_views(out@) + Seq::<Seq<char>>::empty() =~= line_views(out@));
    out
}

/// Whether `c` is one of the ten decimal digits.
pub open spec fn is_digit(c: char) -> bool {
    '0' <= c <= '9'
}

/// Whether `text` holds decimal digits only.
pub open spec fn all_digits(text: Seq<char>) -> bool {
    forall|i: int| 0 <= i < text.len() ==> is_digit(#[trigger] text[i])
}

/// The number that the decimal digits `text` write.
pub open spec fn digits_value(text: Seq<char>) -> int
    decreases text.len(),
{
    if text.len() == 0 {
        0
    } else {
        digits_value(text.drop_last()) * 10 + (text.last() as int - '0' as int)
    }
}

/// The digits of a signed decimal numeral: `text` without its leading sign.
pub open spec fn unsigned_part(text: Seq<char>) -> Seq<char> {
    if text.len() > 0 && (text[0] == '-' || text[0] == '+') {
        text.skip(1)
    } else {
        text
    }
}

/// The number that `text` writes as a signed decimal numeral: an optional
/// `+` or `-`, then one digit or more, within the range of `i64`.
pub open spec fn decimal_i64(text: Seq<char>) -> Option<i64> {
    let digits = unsigned_part(text);
    let value = if text.len() > 0 && text[0] == '-' {
        -digits_value(digits)
    } else {
        digits_value(digits)
    };
    if digits.len() > 0 && all_digits(digits) && i64::MIN <= value <= i64::MAX {
        Some(value as i64)
    } else {
        None
    }
}

/// More digits never write a smaller number.
pub proof fn lemma_digits_value_grows(text: Seq<char>, k: int)
    requires
        0 <= k <= text.len(),
        all_digits(text),
    ensures
        0 <= digits_value(text.take(k)) <= digits_value(text),
    decreases text.len() - k,
{
    if k == text.len() {
        assert(text.take(k) =~= text);
        lemma_digits_value_nonnegative(text);
    } else {
        lemma_digits_value_grows(text, k + 1);
        assert(text.take(k + 1).drop_last() =~= text.take(k));
        assert(is_digit(text[k]));
        lemma_digits_value_nonnegative(text.take(k));
    }
}

/// Digits write no negative number.
pub proof fn lemma_digits_value_nonnegative(text: Seq<char>)
    requires
        all_digits(text),
    ensures
        0 <= digits_value(text),
    decreases text.len(),
{
    if text.len() > 0 {
        assert(is_digit(text.last()));
        lemma_digits_value_nonnegative(text.drop_last());
    }
}

/// Reads `text` as a signed decimal numeral.
pub fn parse_i64(text: &str) -> (out: Option<i64>)
    ensures
        out == decimal_i64(text@),
{
    let chars = chars_of(text);
    if chars.len() == 0 {
        return None;
    }
    let negative = chars[0] == '-';
    let first: usize = if chars[0] == '-' || chars[0] == '+' {
        1
    } else {
        0
    };
    let ghost digits = unsigned_part(text@);
    assert(digits =~= chars@.skip(first as int));
    if first == chars.len() {
        return None;
    }
    let limit: u128 = 9223372036854775808u128;
    let mut acc: u128 = 0;
    let mut i: usize = first;
    assert(digits.take(0) =~= Seq::<char>::empty());
    while i < chars.len()
        invariant
            first <= i <= chars.len(),
            first < chars.len(),
            chars@ == text@,
            digits == unsigned_part(text@),
            digits == chars@.skip(first as int),
            limit == 9223372036854775808u128,
            acc <= limit,
            acc == digits_value(digits.take(i - first)),
            all_digits(digits.take(i - first)),
        decreases chars.len() - i,
    {
        let c = chars[i];
        assert(digits[i - first] == c);
        if !('0' <= c && c <= '9') {
            assert(!is_digit(digits[i - first]));
            return None;
        }
        let d: u128 = (c as u32 - '0' as u32) as u128;
        proof {
            assert(digits.take(i - first + 1).drop_last() =~= digits.take(i - first));
            assert(digits.take(i - first + 1).last() == c);
            assert forall|j: int| 0 <= j < i - first + 1 implies is_digit(
                #[trigger] digits.take(i - first + 1)[j],
            ) by {
                if j < i - first {
                    assert(digits.take(i - first + 1)[j] == digits.take(i - first)[j]);
                }
            }
        }
        acc = acc * 10 + d;
        i += 1;
        if acc > limit {
            proof {
                if all_digits(digits) {
                    lemma_digits_value_grows(digits, i - first);
                }
            }
            return None;
        }
    }
    assert(digits.take(i - first) =~= digits);
    if negative {
        if acc == limit {
            Some(i64::MIN)
        } else {
            Some(-(acc as i64))
        }
    } else if acc == limit {
        None
    } else {
        Some(acc as i64)
    }
}

/// The strings held in `items`, each as a sequence of characters.
pub open spec fn string_views(items: Seq<String>) -> Seq<Seq<char>> {
    items.map_values(|s: String| s@)
}

/// The items written one after another with `separator` between each two.
pub open spec fn joined(items: Seq<Seq<char>>, separator: Seq<char>) -> Seq<char>
    decreases items.len(),
{
    if items.len() == 0 {
        Seq::empty()
    } else if items.len() == 1 {
        items[0]
    } else {
        joined(items.drop_last(), separator) + separator + items.last()
    }
}

/// `itertools::Itertools::join` on the items in order: each item as it
/// stands, with `separator` between each two, and nothing for no items.
#[verifier::external_body]
pub(crate) fn join(items: &Vec<String>, separator: &str) -> (out: String)
    ensures
        out@ == joined(string_views(items@), separator@),
{
    itertools::Itertools::join(&mut items.iter(), separator)
}

} // verus!

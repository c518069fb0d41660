//! Text operations on header names and values, with what each of them means on a
//! sequence of characters.

use vstd::prelude::*;

verus! {

/// Whether `c` has the Unicode property `White_Space`.
pub open spec fn is_white_space(c: char) -> bool {
    ||| '\u{9}' <= c <= '\u{d}'
    ||| c == ' '
    ||| c == '\u{85}'
    ||| c == '\u{a0}'
    ||| c == '\u{1680}'
    ||| '\u{2000}' <= c <= '\u{200a}'
    ||| c == '\u{2028}'
    ||| c == '\u{2029}'
    ||| c == '\u{202f}'
    ||| c == '\u{205f}'
    ||| c == '\u{3000}'
}

/// `s` without its leading white space.
pub open spec fn trim_start_of(s: Seq<char>) -> Seq<char>
    decreases s.len(),
{
    if s.len() > 0 && is_white_space(s[0]) {
        trim_start_of(s.drop_first())
    } else {
        s
    }
}

/// `s` without its trailing white space.
pub open spec fn trim_end_of(s: Seq<char>) -> Seq<char>
    decreases s.len(),
{
    if s.len() > 0 && is_white_space(s.last()) {
        trim_end_of(s.drop_last())
    } else {
        s
    }
}

/// `s` without its leading and trailing white space.
pub open spec fn trim_of(s: Seq<char>) -> Seq<char> {
    trim_end_of(trim_start_of(s))
}

/// The two sides of the first `delimiter` in `s`, if there is one.
pub open spec fn split_once_of(s: Seq<char>, delimiter: char) -> Option<(Seq<char>, Seq<char>)> {
    match s.index_of_first(delimiter) {
        Some(i) => Some((s.take(i), s.skip(i + 1))),
        None => None,
    }
}

/// What follows `prefix` in `s`, if `s` starts with it.
pub open spec fn strip_prefix_of(s: Seq<char>, prefix: Seq<char>) -> Option<Seq<char>> {
    if prefix.is_prefix_of(s) {
        Some(s.skip(prefix.len() as int))
    } else {
        None
    }
}

/// `c` in lower case if it is an ASCII letter, else `c`.
pub open spec fn lower(c: char) -> char {
    if 'A' <= c <= 'Z' {
        (c as int + 32) as char
    } else {
        c
    }
}

/// `s` with its ASCII letters in lower case.
pub open spec fn lower_of(s: Seq<char>) -> Seq<char> {
    s.map_values(|c: char| lower(c))
}

/// Whether `a` and `b` differ in nothing but the case of ASCII letters.
pub open spec fn same_ignoring_case(a: Seq<char>, b: Seq<char>) -> bool {
    lower_of(a) == lower_of(b)
}

/// Whether `c` is an ASCII digit.
pub open spec fn is_digit(c: char) -> bool {
    '0' <= c <= '9'
}

/// Whether `s` consists of ASCII digits.
pub open spec fn all_digits(s: Seq<char>) -> bool {
    forall|i: int| 0 <= i < s.len() ==> is_digit(#[trigger] s[i])
}

/// The number that the digits `s` write in base ten.
pub open spec fn digits_value(s: Seq<char>) -> nat
    decreases s.len(),
{
    if s.len() == 0 {
        0
    } else {
        digits_value(s.drop_last()) * 10 + (s.last() as int - '0' as int) as nat
    }
}

/// The number that `s` writes: an optional `+`, then one or more digits whose value
/// fits in 64 bits.
pub open spec fn parse_u64_of(s: Seq<char>) -> Option<u64> {
    let digits = if s.len() > 0 && s[0] == '+' {
        s.drop_first()
    } else {
        s
    };
    if digits.len() > 0 && all_digits(digits) && digits_value(digits) <= u64::MAX {
        Some(digits_value(digits) as u64)
    } else {
        None
    }
}

/// `n` in base ten, without leading zeroes.
pub open spec fn decimal_of(n: nat) -> Seq<char>
    decreases n,
{
    let digit = ('0' as int + n % 10) as char;
    if n < 10 {
        seq![digit]
    } else {
        decimal_of(n / 10).push(digit)
    }
}

/// The characters of `s`, if there is an `s`.
pub open spec fn text_of(s: Option<&str>) -> Option<Seq<char>> {
    match s {
        Some(s) => Some(s@),
        None => None,
    }
}

fn is_white_space_char(c: char) -> (r: bool)
    ensures
        r == is_white_space(c),
{
    ('\u{9}' <= c && c <= '\u{d}') || c == ' ' || c == '\u{85}' || c == '\u{a0}' || c == '\u{1680}'
        || ('\u{2000}' <= c && c <= '\u{200a}') || c == '\u{2028}' || c == '\u{2029}' || c
        == '\u{202f}' || c == '\u{205f}' || c == '\u{3000}'
}

proof fn lemma_trim_start(s: Seq<char>, lead: int)
    requires
        0 <= lead <= s.len(),
        forall|i: int| 0 <= i < lead ==> is_white_space(#[trigger] s[i]),
        lead < s.len() ==> !is_white_space(s[lead]),
    ensures
        trim_start_of(s) == s.skip(lead),
    decreases lead,
{
    if lead == 0 {
        assert(s.skip(0) == s);
    } else {
        assert(is_white_space(s[0]));
        lemma_trim_start(s.drop_first(), lead - 1);
        assert(s.drop_first().skip(lead - 1) == s.skip(lead));
    }
}

proof fn lemma_trim_end(s: Seq<char>, end: int)
    requires
        0 <= end <= s.len(),
        forall|i: int| end <= i < s.len() ==> is_white_space(#[trigger] s[i]),
        end > 0 ==> !is_white_space(s[end - 1]),
    ensures
        trim_end_of(s) == s.take(end),
    decreases s.len() - end,
{
    if end == s.len() {
        assert(s.take(end) == s);
    } else {
        assert(is_white_space(s[s.len() - 1]));
        lemma_trim_end(s.drop_last(), end);
        assert(s.drop_last().take(end) == s.take(end));
    }
}

/// Removes leading and trailing white space.
pub(crate) fn trim(s: &str) -> (r: &str)
    ensures
        r@ == trim_of(s@),
{
    let mut i: usize = 0;
    // The number of leading white space characters.
    let mut lead: usize = 0;
    // One past the last character that is not white space.
    let mut end: usize = 0;
    let n: usize = s.unicode_len();
    for c in it: s.chars()
        invariant
            i == it.index(),
            it.seq() == s@,
            n == s@.len(),
            lead <= i,
            end <= i,
            forall|j: int| 0 <= j < lead ==> is_white_space(#[trigger] s@[j]),
            lead < i ==> !is_white_space(s@[lead as int]) && lead < end,
            forall|j: int| end <= j < i ==> is_white_space(#[trigger] s@[j]),
            end > 0 ==> !is_white_space(s@[end - 1]),
    {
        if is_white_space_char(c) {
            if lead == i {
                lead = i + 1;
            }
        } else {
            end = i + 1;
        }
        i = i + 1;
    }
    if lead == n {
        proof {
            lemma_trim_start(s@, lead as int);
            assert(s@.subrange(0, 0) == trim_of(s@));
        }
        s.substring_char(0, 0)
    } else {
        proof {
            lemma_trim_start(s@, lead as int);
            lemma_trim_end(s@.skip(lead as int), end - lead);
            assert(s@.skip(lead as int).take(end - lead) == s@.subrange(lead as int, end as int));
        }
        s.substring_char(lead, end)
    }
}

/// Splits `s` at its first `delimiter`.
pub(crate) fn split_once(s: &str, delimiter: char) -> (r: Option<(&str, &str)>)
    ensures
        match r {
            Some((before, after)) => split_once_of(s@, delimiter) == Some((before@, after@)),
            None => split_once_of(s@, delimiter) is None,
        },
{
    let mut i: usize = 0;
    let n: usize = s.unicode_len();
    proof {
        s@.index_of_first_ensures(delimiter);
    }
    for c in it: s.chars()
        invariant
            i == it.index(),
            it.seq() == s@,
            n == s@.len(),
            forall|j: int| 0 <= j < i ==> s@[j] != delimiter,
    {
        if c == delimiter {
            proof {
                s@.index_of_first_ensures(delimiter);
                assert(s@.contains(delimiter));
                assert(s@.index_of_first(delimiter) == Some(i as int));
            }
            return Some((s.substring_char(0, i), s.substring_char(i + 1, n)));
        }
        i = i + 1;
    }
    None
}

/// Removes `prefix` from the front of `s`.
pub(crate) fn strip_prefix<'a>(s: &'a str, prefix: &str) -> (r: Option<&'a str>)
    ensures
        text_of(r) == strip_prefix_of(s@, prefix@),
{
    let n: usize = s.unicode_len();
    let m: usize = prefix.unicode_len();
    if n < m {
        return None;
    }
    let mut i: usize = 0;
    let mut rest = s.chars();
    for c in it: prefix.chars()
        invariant
            i == it.index(),
            it.seq() == prefix@,
            n == s@.len(),
            m == prefix@.len(),
            m <= n,
            vstd::std_specs::iter::IteratorSpec::remaining(&rest) == s@.skip(i as int),
            forall|j: int| 0 <= j < i ==> s@[j] == prefix@[j],
    {
        if rest.next() != Some(c) {
            assert(s@[i as int] != prefix@[i as int]);
            return None;
        }
        i = i + 1;
    }
    assert(prefix@ == s@.take(m as int));
    Some(s.substring_char(m, n))
}

fn lower_char(c: char) -> (r: char)
    ensures
        r == lower(c),
{
    if 'A' <= c && c <= 'Z' {
        (c as u8 + 32) as char
    } else {
        c
    }
}

/// Compares two texts without regard to the case of ASCII letters.
pub(crate) fn eq_ignore_ascii_case(a: &str, b: &str) -> (r: bool)
    ensures
        r == same_ignoring_case(a@, b@),
{
    let n: usize = a.unicode_len();
    if n != b.unicode_len() {
        assert(lower_of(a@).len() != lower_of(b@).len());
        return false;
    }
    let mut i: usize = 0;
    let mut others = b.chars();
    for c in it: a.chars()
        invariant
            i == it.index(),
            it.seq() == a@,
            n == a@.len(),
            n == b@.len(),
            vstd::std_specs::iter::IteratorSpec::remaining(&others) == b@.skip(i as int),
            forall|j: int| 0 <= j < i ==> lower(a@[j]) == lower(b@[j]),
    {
        match others.next() {
            Some(d) => {
                if lower_char(c) != lower_char(d) {
                    assert(lower_of(a@)[i as int] != lower_of(b@)[i as int]);
                    return false;
                }
            },
            None => {},
        }
        i = i + 1;
    }
    assert(lower_of(a@) =~= lower_of(b@));
    true
}

proof fn lemma_digits_value_grows(s: Seq<char>, i: int)
    requires
        0 <= i <= s.len(),
        all_digits(s),
    ensures
        digits_value(s.take(i)) <= digits_value(s),
    decreases s.len() - i,
{
    if i == s.len() {
        assert(s.take(i) == s);
    } else {
        assert(s.take(i) == s.drop_last().take(i));
        assert(is_digit(s[s.len() - 1]));
        assert forall|j: int| 0 <= j < s.drop_last().len() implies is_digit(
            #[trigger] s.drop_last()[j],
        ) by {
            assert(is_digit(s[j]));
        }
        lemma_digits_value_grows(s.drop_last(), i);
    }
}

/// Reads a number that fits in 64 bits: an optional `+`, then digits.
pub(crate) fn parse_u64(s: &str) -> (r: Option<u64>)
    ensures
        r == parse_u64_of(s@),
{
    let ghost digits = if s@.len() > 0 && s@[0] == '+' {
        s@.drop_first()
    } else {
        s@
    };
    let ghost skipped: int = s@.len() - digits.len();
    let mut i: usize = 0;
    let mut some_digit: bool = false;
    let mut value: u64 = 0;
    let n: usize = s.unicode_len();
    for c in it: s.chars()
        invariant
            i == it.index(),
            it.seq() == s@,
            n == s@.len(),
            digits == (if s@.len() > 0 && s@[0] == '+' {
                s@.drop_first()
            } else {
                s@
            }),
            skipped == s@.len() - digits.len(),
            forall|j: int| 0 <= j < digits.len() ==> digits[j] == s@[j + skipped],
            forall|j: int| skipped <= j < i ==> is_digit(#[trigger] s@[j]),
            some_digit == (i > skipped),
            i < skipped ==> value == 0,
            i >= skipped ==> value == digits_value(digits.take(i - skipped)),
    {
        if i == 0 && c == '+' {
            assert(digits.take(0) =~= Seq::<char>::empty());
        } else {
            let ghost at: int = i - skipped;
            assert(digits[at] == c);
            assert(digits.take(at + 1).drop_last() =~= digits.take(at));
            assert(digits.take(at + 1).last() == c);
            if !('0' <= c && c <= '9') {
                assert(!is_digit(digits[at]));
                return None;
            }
            let digit: u64 = c as u64 - '0' as u64;
            if value > (u64::MAX - digit) / 10 {
                proof {
                    assert(digits_value(digits.take(at + 1)) > u64::MAX);
                    if all_digits(digits) {
                        lemma_digits_value_grows(digits, at + 1);
                    }
                }
                return None;
            }
            value = value * 10 + digit;
            some_digit = true;
        }
        i = i + 1;
    }
    assert(digits.take(digits.len() as int) =~= digits);
    if some_digit {
        assert forall|j: int| 0 <= j < digits.len() implies is_digit(#[trigger] digits[j]) by {
            assert(is_digit(s@[j + skipped]));
        }
        Some(value)
    } else {
        None
    }
}

/// Appends `n` in base ten to `s`.
pub(crate) fn push_decimal(s: &mut String, n: u64)
    ensures
        final(s)@ == old(s)@ + decimal_of(n as nat),
    decreases n,
{
    if n >= 10 {
        push_decimal(s, n / 10);
    }
    let digit: &str = match n % 10 {
        0 => "0",
        1 => "1",
        2 => "2",
        3 => "3",
        4 => "4",
        5 => "5",
        6 => "6",
        7 => "7",
        8 => "8",
        _ => "9",
    };
    proof {
        reveal_strlit("0");
        reveal_strlit("1");
        reveal_strlit("2");
        reveal_strlit("3");
        reveal_strlit("4");
        reveal_strlit("5");
        reveal_strlit("6");
        reveal_strlit("7");
        reveal_strlit("8");
        reveal_strlit("9");
        assert(digit@ =~= seq![('0' as int + n as nat % 10) as char]);
    }
    s.append(digit);
    assert(s@ =~= old(s)@ + decimal_of(n as nat));
}

/// A number in base ten consists of digits, of which there is at least one.
pub proof fn lemma_decimal_digits(n: nat)
    ensures
        decimal_of(n).len() >= 1,
        all_digits(decimal_of(n)),
    decreases n,
{
    if n >= 10 {
        lemma_decimal_digits(n / 10);
        assert forall|i: int| 0 <= i < decimal_of(n).len() implies is_digit(
            #[trigger] decimal_of(n)[i],
        ) by {
            if i < decimal_of(n / 10).len() {
                assert(is_digit(decimal_of(n / 10)[i]));
            }
        }
    }
}

/// The digits of a number write that number.
pub proof fn lemma_decimal_value(n: nat)
    ensures
        digits_value(decimal_of(n)) == n,
    decreases n,
{
    if n < 10 {
        assert(decimal_of(n).drop_last() =~= Seq::<char>::empty());
        assert(digits_value(Seq::<char>::empty()) == 0);
    } else {
        lemma_decimal_value(n / 10);
        assert(decimal_of(n).drop_last() =~= decimal_of(n / 10));
    }
}

/// Reading a number gives back what was written in base ten.
pub proof fn law_parse_decimal(n: u64)
    ensures
        parse_u64_of(decimal_of(n as nat)) == Some(n),
{
    lemma_decimal_digits(n as nat);
    lemma_decimal_value(n as nat);
    assert(is_digit(decimal_of(n as nat)[0]));
}

/// A text is split at the first delimiter, whatever follows.
pub proof fn lemma_split_once(before: Seq<char>, delimiter: char, after: Seq<char>)
    requires
        !before.contains(delimiter),
    ensures
        split_once_of(before.push(delimiter) + after, delimiter) == Some((before, after)),
{
    let s = before.push(delimiter) + after;
    s.index_of_first_ensures(delimiter);
    let n = before.len() as int;
    assert(s[n] == delimiter);
    assert(s.contains(delimiter));
    let i = s.index_of_first(delimiter)->0;
    if i < n {
        assert(before[i] == delimiter);
    }
    assert(i == n);
    assert(s.take(n) =~= before);
    assert(s.skip(n + 1) =~= after);
}

/// Where a text is split, it is the two sides and the delimiter between them, and the
/// first side does not hold the delimiter.
pub proof fn lemma_split_once_parts(s: Seq<char>, delimiter: char)
    ensures
        split_once_of(s, delimiter) matches Some((before, after)) ==> s == before.push(delimiter)
            + after && !before.contains(delimiter),
        split_once_of(s, delimiter) is None ==> !s.contains(delimiter),
{
    s.index_of_first_ensures(delimiter);
    if let Some(i) = s.index_of_first(delimiter) {
        assert(s =~= s.take(i).push(delimiter) + s.skip(i + 1));
        assert forall|j: int| 0 <= j < i implies s.take(i)[j] != delimiter by {
            assert(s[j] != delimiter);
        }
    }
}

/// A text that neither starts nor ends with white space is trimmed already.
pub proof fn lemma_trimmed(s: Seq<char>)
    requires
        s.len() > 0 ==> !is_white_space(s[0]) && !is_white_space(s.last()),
    ensures
        trim_of(s) == s,
{
}

/// Trimming keeps every character that is no white space.
pub proof fn lemma_trim_keeps(s: Seq<char>, c: char)
    requires
        s.contains(c),
        !is_white_space(c),
    ensures
        trim_of(s).contains(c),
{
    lemma_trim_start_keeps(s, c);
    lemma_trim_end_keeps(trim_start_of(s), c);
}

proof fn lemma_trim_start_keeps(s: Seq<char>, c: char)
    requires
        s.contains(c),
        !is_white_space(c),
    ensures
        trim_start_of(s).contains(c),
    decreases s.len(),
{
    let i = choose|i: int| 0 <= i < s.len() && s[i] == c;
    if is_white_space(s[0]) {
        assert(s.drop_first()[i - 1] == c);
        lemma_trim_start_keeps(s.drop_first(), c);
    }
}

proof fn lemma_trim_end_keeps(s: Seq<char>, c: char)
    requires
        s.contains(c),
        !is_white_space(c),
    ensures
        trim_end_of(s).contains(c),
    decreases s.len(),
{
    let i = choose|i: int| 0 <= i < s.len() && s[i] == c;
    if is_white_space(s.last()) {
        assert(s.drop_last()[i] == c);
        lemma_trim_end_keeps(s.drop_last(), c);
    }
}

/// The case of its letters does not change how a text compares without regard to case.
pub proof fn lemma_same_ignoring_case_lower(s: Seq<char>)
    ensures
        same_ignoring_case(s, lower_of(s)),
{
    assert(lower_of(lower_of(s)) =~= lower_of(s));
}

/// Whether `s` consists of white space.
pub open spec fn all_white_space(s: Seq<char>) -> bool {
    forall|i: int| 0 <= i < s.len() ==> is_white_space(#[trigger] s[i])
}

/// Whether `s` neither starts nor ends with white space.
pub open spec fn is_trimmed(s: Seq<char>) -> bool {
    s.len() > 0 ==> !is_white_space(s[0]) && !is_white_space(s[s.len() - 1])
}

/// Trimming takes off the white space round a text, all of it and nothing else.
pub proof fn law_trim(lead: Seq<char>, s: Seq<char>, trail: Seq<char>)
    requires
        all_white_space(lead),
        is_trimmed(s),
        all_white_space(trail),
    ensures
        trim_of(lead + s + trail) == s,
{
    let whole = lead + s + trail;
    if s.len() == 0 {
        assert forall|i: int| 0 <= i < whole.len() implies is_white_space(#[trigger] whole[i]) by {
            if i < lead.len() {
                assert(whole[i] == lead[i]);
            } else {
                assert(whole[i] == trail[i - lead.len()]);
            }
        }
        lemma_trim_start(whole, whole.len() as int);
        assert(trim_of(whole) =~= s);
    } else {
        assert forall|i: int| 0 <= i < lead.len() implies is_white_space(#[trigger] whole[i]) by {
            assert(whole[i] == lead[i]);
        }
        lemma_trim_start(whole, lead.len() as int);
        let rest = whole.skip(lead.len() as int);
        assert(rest =~= s + trail);
        assert forall|i: int| s.len() <= i < rest.len() implies is_white_space(
            #[trigger] rest[i],
        ) by {
            assert(rest[i] == trail[i - s.len()]);
        }
        lemma_trim_end(rest, s.len() as int);
        assert(rest.take(s.len() as int) =~= s);
    }
}

proof fn lemma_trim_start_parts(s: Seq<char>) -> (lead: Seq<char>)
    ensures
        all_white_space(lead),
        s == lead + trim_start_of(s),
        trim_start_of(s).len() > 0 ==> !is_white_space(trim_start_of(s)[0]),
    decreases s.len(),
{
    if s.len() > 0 && is_white_space(s[0]) {
        let inner = lemma_trim_start_parts(s.drop_first());
        let lead = seq![s[0]] + inner;
        assert forall|i: int| 0 <= i < lead.len() implies is_white_space(#[trigger] lead[i]) by {
            if i > 0 {
                assert(lead[i] == inner[i - 1]);
            }
        }
        assert(s =~= lead + trim_start_of(s)) by {
            assert(s =~= seq![s[0]] + s.drop_first());
        }
        lead
    } else {
        assert(s =~= Seq::<char>::empty() + s);
        Seq::empty()
    }
}

proof fn lemma_trim_end_parts(s: Seq<char>) -> (trail: Seq<char>)
    ensures
        all_white_space(trail),
        s == trim_end_of(s) + trail,
        trim_end_of(s).len() > 0 ==> !is_white_space(trim_end_of(s)[trim_end_of(s).len() - 1]),
    decreases s.len(),
{
    if s.len() > 0 && is_white_space(s.last()) {
        let inner = lemma_trim_end_parts(s.drop_last());
        let trail = inner.push(s.last());
        assert forall|i: int| 0 <= i < trail.len() implies is_white_space(#[trigger] trail[i]) by {
            if i < inner.len() {
                assert(trail[i] == inner[i]);
            }
        }
        assert(s =~= trim_end_of(s) + trail) by {
            assert(s =~= s.drop_last().push(s.last()));
        }
        trail
    } else {
        assert(s =~= s + Seq::<char>::empty());
        Seq::empty()
    }
}

/// A text is what trimming leaves of it with white space round it, and what is left
/// neither starts nor ends with white space.
pub proof fn law_trim_parts(s: Seq<char>) -> (parts: (Seq<char>, Seq<char>))
    ensures
        all_white_space(parts.0),
        all_white_space(parts.1),
        is_trimmed(trim_of(s)),
        s == parts.0 + trim_of(s) + parts.1,
{
    let lead = lemma_trim_start_parts(s);
    let rest = trim_start_of(s);
    let trail = lemma_trim_end_parts(rest);
    if trim_of(s).len() > 0 {
        assert(trim_of(s)[0] == rest[0]);
    }
    assert(s =~= lead + trim_of(s) + trail);
    (lead, trail)
}

/// A prefix is taken off a text that starts with it, and off no other.
pub proof fn law_strip_prefix(s: Seq<char>, prefix: Seq<char>, rest: Seq<char>)
    ensures
        strip_prefix_of(s, prefix) == Some(rest) <==> s == prefix + rest,
{
    if strip_prefix_of(s, prefix) == Some(rest) {
        assert(s =~= prefix + rest);
    }
    if s == prefix + rest {
        assert(s.take(prefix.len() as int) =~= prefix);
        assert(s.skip(prefix.len() as int) =~= rest);
    }
}

/// Texts are the same without regard to case if and only if they are equally long and
/// differ nowhere but between the two cases of an ASCII letter.
pub proof fn law_same_ignoring_case(a: Seq<char>, b: Seq<char>)
    ensures
        same_ignoring_case(a, b) <==> a.len() == b.len() && forall|i: int|
            #![trigger a[i]]
            #![trigger b[i]]
            0 <= i < a.len() ==> {
                ||| a[i] == b[i]
                ||| 'A' <= a[i] <= 'Z' && b[i] as int == a[i] as int + 32
                ||| 'A' <= b[i] <= 'Z' && a[i] as int == b[i] as int + 32
            },
{
    let x = lower_of(a);
    let y = lower_of(b);
    if same_ignoring_case(a, b) {
        assert(x.len() == a.len() && y.len() == b.len());
        assert forall|i: int|
            #![trigger a[i]]
            #![trigger b[i]]
            0 <= i < a.len() implies {
            ||| a[i] == b[i]
            ||| 'A' <= a[i] <= 'Z' && b[i] as int == a[i] as int + 32
            ||| 'A' <= b[i] <= 'Z' && a[i] as int == b[i] as int + 32
        } by {
            assert(x[i] == lower(a[i]) && y[i] == lower(b[i]));
        }
    } else if a.len() == b.len() && forall|i: int|
        #![trigger a[i]]
        #![trigger b[i]]
        0 <= i < a.len() ==> {
            ||| a[i] == b[i]
            ||| 'A' <= a[i] <= 'Z' && b[i] as int == a[i] as int + 32
            ||| 'A' <= b[i] <= 'Z' && a[i] as int == b[i] as int + 32
        } {
        assert forall|i: int| 0 <= i < x.len() implies x[i] == y[i] by {
            assert(x[i] == lower(a[i]) && y[i] == lower(b[i]));
        }
        assert(x =~= y);
    }
}

/// A number below ten is written as one digit. Any other is written as the number without
/// its last digit, followed by that digit.
pub proof fn law_decimal(n: nat, digit: nat)
    requires
        digit < 10,
    ensures
        decimal_of(digit) == seq![('0' as int + digit) as char],
        n > 0 ==> decimal_of(10 * n + digit) == decimal_of(n) + decimal_of(digit),
{
    if n > 0 {
        let m = 10 * n + digit;
        assert(m / 10 == n && m % 10 == digit);
        assert(decimal_of(m) =~= decimal_of(n) + decimal_of(digit));
    }
}

/// Whether `s` writes the number `n`: its digits in base ten, with any zeroes before
/// them, and a plus sign or none before those.
pub open spec fn writes_number(s: Seq<char>, n: nat) -> bool {
    exists|sign: Seq<char>, zeros: Seq<char>| #[trigger]
        is_number_text(s, sign, zeros, n)
}

/// Whether `s` is `sign`, `zeros` and the digits of `n` in base ten.
pub open spec fn is_number_text(s: Seq<char>, sign: Seq<char>, zeros: Seq<char>, n: nat) -> bool {
    &&& sign == Seq::<char>::empty() || sign == seq!['+']
    &&& forall|i: int| 0 <= i < zeros.len() ==> #[trigger] zeros[i] == '0'
    &&& s == sign + zeros + decimal_of(n)
}

proof fn lemma_leading_zeros(zeros: Seq<char>, digits: Seq<char>)
    requires
        forall|i: int| 0 <= i < zeros.len() ==> #[trigger] zeros[i] == '0',
    ensures
        digits_value(zeros + digits) == digits_value(digits),
    decreases zeros.len() + digits.len(),
{
    let whole = zeros + digits;
    if digits.len() > 0 {
        lemma_leading_zeros(zeros, digits.drop_last());
        assert(whole.drop_last() =~= zeros + digits.drop_last());
        assert(whole.last() == digits.last());
    } else if zeros.len() > 0 {
        lemma_leading_zeros(zeros.drop_last(), digits);
        assert(whole.drop_last() =~= zeros.drop_last() + digits);
        assert(whole.last() == '0');
    }
}

proof fn lemma_digits_are_decimal(digits: Seq<char>) -> (zeros: Seq<char>)
    requires
        digits.len() > 0,
        all_digits(digits),
    ensures
        forall|i: int| 0 <= i < zeros.len() ==> #[trigger] zeros[i] == '0',
        digits == zeros + decimal_of(digits_value(digits)),
    decreases digits.len(),
{
    let front = digits.drop_last();
    assert(is_digit(digits[digits.len() - 1]));
    let d = (digits.last() as int - '0' as int) as nat;
    law_decimal(digits_value(front), d);
    if front.len() == 0 {
        assert(digits_value(front) == 0);
        assert(digits =~= Seq::<char>::empty() + decimal_of(d));
        Seq::empty()
    } else {
        assert forall|i: int| 0 <= i < front.len() implies is_digit(#[trigger] front[i]) by {
            assert(is_digit(digits[i]));
        }
        let zeros = lemma_digits_are_decimal(front);
        assert(digits =~= front.push(digits.last()));
        if digits_value(front) > 0 {
            assert(digits =~= zeros + decimal_of(digits_value(digits)));
            zeros
        } else {
            assert(decimal_of(0) =~= seq!['0']);
            assert forall|i: int| 0 <= i < front.len() implies #[trigger] front[i] == '0' by {
                if i < zeros.len() {
                    assert(front[i] == zeros[i]);
                }
            }
            assert(digits =~= front + decimal_of(digits_value(digits)));
            front
        }
    }
}

/// A text is read as a number if and only if it writes that number.
pub proof fn law_parse_number(s: Seq<char>, n: u64)
    ensures
        parse_u64_of(s) == Some(n) <==> writes_number(s, n as nat),
{
    if parse_u64_of(s) == Some(n) {
        let signed = s.len() > 0 && s[0] == '+';
        let digits = if signed {
            s.drop_first()
        } else {
            s
        };
        let sign = if signed {
            seq!['+']
        } else {
            Seq::<char>::empty()
        };
        let zeros = lemma_digits_are_decimal(digits);
        assert(s =~= sign + digits);
        assert(sign + (zeros + decimal_of(n as nat)) =~= sign + zeros + decimal_of(n as nat));
        assert(is_number_text(s, sign, zeros, n as nat));
    }
    if writes_number(s, n as nat) {
        let (sign, zeros) = choose|sign: Seq<char>, zeros: Seq<char>| #[trigger]
            is_number_text(s, sign, zeros, n as nat);
        let decimal = decimal_of(n as nat);
        let digits = zeros + decimal;
        lemma_decimal_digits(n as nat);
        lemma_decimal_value(n as nat);
        lemma_leading_zeros(zeros, decimal);
        assert forall|i: int| 0 <= i < digits.len() implies is_digit(#[trigger] digits[i]) by {
            if i < zeros.len() {
                assert(digits[i] == zeros[i]);
            } else {
                assert(digits[i] == decimal[i - zeros.len()]);
            }
        }
        if sign.len() == 0 {
            assert(s =~= digits);
            assert(is_digit(digits[0]));
        } else {
            assert(s[0] == '+');
            assert(s.drop_first() =~= digits);
        }
    }
}

/// The digits of a number in base ten write that number.
pub proof fn lemma_decimal_writes(n: nat)
    ensures
        writes_number(decimal_of(n), n),
{
    let none = Seq::<char>::empty();
    assert(decimal_of(n) =~= none + none + decimal_of(n));
    assert(is_number_text(decimal_of(n), none, none, n));
}

/// What writes a number consists of digits and a plus sign at most, and is not empty.
pub proof fn lemma_number_chars(s: Seq<char>, n: nat)
    requires
        writes_number(s, n),
    ensures
        s.len() > 0,
        forall|i: int| 0 <= i < s.len() ==> is_digit(#[trigger] s[i]) || s[i] == '+',
        is_trimmed(s),
{
    let (sign, zeros) = choose|sign: Seq<char>, zeros: Seq<char>| #[trigger]
        is_number_text(s, sign, zeros, n);
    let decimal = decimal_of(n);
    lemma_decimal_digits(n);
    assert forall|i: int| 0 <= i < s.len() implies is_digit(#[trigger] s[i]) || s[i] == '+' by {
        if i < sign.len() {
            assert(s[i] == sign[i]);
        } else if i < sign.len() + zeros.len() {
            assert(s[i] == zeros[i - sign.len()]);
        } else {
            assert(s[i] == decimal[i - sign.len() - zeros.len()]);
            assert(is_digit(decimal[i - sign.len() - zeros.len()]));
        }
    }
    assert(is_digit(s[0]) || s[0] == '+');
    assert(is_digit(s[s.len() - 1]) || s[s.len() - 1] == '+');
}

/// The characters of a text that may be missing are its characters, if it is there.
pub proof fn law_text_of(s: &str)
    ensures
        text_of(Some(s)) == Some(s@),
        text_of(None) is None,
{
}

} // verus!

//! Texts and numbers: case, decimal digits, and unquoting.

use vstd::prelude::*;
use vstd::string::{StrSliceExecFns, StringExecFns};

verus! {

/// The upper-case form of a text, as the standard library derives it
/// from the Unicode character tables.
pub uninterp spec fn uppercase(text: Seq<char>) -> Seq<char>;

/// The lower-case form of a text, as the standard library derives it
/// from the Unicode character tables.
pub uninterp spec fn lowercase(text: Seq<char>) -> Seq<char>;

/// The text in upper case.
///
/// Calls `str::to_uppercase`. The contract only gives the result its
/// name: the same text always has the same upper-case form.
#[verifier::external_body]
pub(crate) fn to_uppercase(text: &str) -> (upper: String)
    ensures
        upper@ == uppercase(text@),
{
    text.to_uppercase()
}

/// The text in lower case.
///
/// Calls `str::to_lowercase`. The contract only gives the result its
/// name: the same text always has the same lower-case form.
#[verifier::external_body]
pub(crate) fn to_lowercase(text: &str) -> (lower: String)
    ensures
        lower@ == lowercase(text@),
{
    text.to_lowercase()
}

/// The ten digits in order.
pub open spec fn digits() -> Seq<char> {
    seq!['0', '1', '2', '3', '4', '5', '6', '7', '8', '9']
}

/// The number written in decimal, without sign or leading zeros.
pub open spec fn decimal(n: nat) -> Seq<char>
    decreases n,
{
    if n < 10 {
        seq![digits()[n as int]]
    } else {
        decimal(n / 10).push(digits()[(n % 10) as int])
    }
}

/// Writes the number in decimal.
pub fn to_decimal(n: u64) -> (text: String)
    ensures
        text@ == decimal(n as nat),
    decreases n,
{
    let all = "0123456789";
    proof {
        reveal_strlit("0123456789");
        assert(all@ =~= digits());
    }
    let d: usize = (n % 10) as usize;
    let digit = all.substring_ascii(d, d + 1);
    assert(digit@ =~= seq![digits()[d as int]]);
    if n < 10 {
        String::from_str(digit)
    } else {
        let text = to_decimal(n / 10).concat(digit);
        assert(text@ =~= decimal((n / 10) as nat).push(digits()[d as int]));
        text
    }
}

/// The number that a run of decimal digits denotes.
pub open spec fn digits_value(text: Seq<char>) -> nat
    decreases text.len(),
{
    if text.len() == 0 {
        0
    } else {
        digits_value(text.drop_last()) * 10 + (text.last() as nat - '0' as nat) as nat
    }
}

/// The text is one decimal digit or more, and nothing else.
pub open spec fn is_digits(text: Seq<char>) -> bool {
    text.len() > 0 && forall|i: int| 0 <= i < text.len() ==> '0' <= #[trigger] text[i] <= '9'
}

/// A longer run of digits denotes no less than its beginning does.
pub proof fn lemma_digits_value_grows(text: Seq<char>, i: int)
    requires
        0 <= i <= text.len(),
    ensures
        digits_value(text.take(i)) <= digits_value(text),
    decreases text.len() - i,
{
    if i < text.len() {
        lemma_digits_value_grows(text, i + 1);
        assert(text.take(i + 1).drop_last() =~= text.take(i));
    } else {
        assert(text.take(i) =~= text);
    }
}

/// A run of `n` zeros.
pub open spec fn zeros(n: int) -> Seq<char> {
    Seq::new(
        if n > 0 {
            n as nat
        } else {
            0
        },
        |i: int| '0',
    )
}

/// The number written in decimal and filled up with zeros to `width`
/// characters; the zeros stand behind the sign of a negative number. A
/// number that needs more room than `width` is written in full.
pub open spec fn padded(n: int, width: nat) -> Seq<char> {
    if n < 0 {
        seq!['-'] + zeros(width - 1 - decimal((-n) as nat).len()) + decimal((-n) as nat)
    } else {
        zeros(width - decimal(n as nat).len()) + decimal(n as nat)
    }
}

/// Writes the number in decimal, filled up with zeros to `width`
/// characters.
pub fn to_padded(n: i64, width: usize) -> (text: String)
    ensures
        text@ == padded(n as int, width as nat),
{
    let magnitude: u64 = if n < 0 {
        (-(n as i128)) as u64
    } else {
        n as u64
    };
    let body = to_decimal(magnitude);
    let used: usize = body.as_str().unicode_len();
    let mut text = String::new();
    let mut filled: usize = used;
    if n < 0 {
        text.append("-");
        if filled < usize::MAX {
            filled = filled + 1;
        }
    }
    proof {
        reveal_strlit("-");
        reveal_strlit("0");
        assert("-"@ =~= seq!['-']);
        assert("0"@ =~= seq!['0']);
    }
    let ghost sign = text@;
    let ghost start = filled;
    assert(sign + zeros(0) =~= sign);
    while filled < width
        invariant
            start <= filled,
            start <= width ==> filled <= width,
            start > width ==> filled == start,
            "0"@ == seq!['0'],
            text@ == sign + zeros(filled - start),
        decreases width - filled,
    {
        text.append("0");
        assert(text@ =~= sign + zeros(filled + 1 - start));
        filled = filled + 1;
    }
    assert(zeros(filled - start) =~= zeros(width - start));
    text.append(body.as_str());
    text
}

/// The text without the double quotes at its beginning.
pub open spec fn trim_start_quotes(text: Seq<char>) -> Seq<char>
    decreases text.len(),
{
    if text.len() > 0 && text[0] == '"' {
        trim_start_quotes(text.skip(1))
    } else {
        text
    }
}

/// The text without the double quotes at its end.
pub open spec fn trim_end_quotes(text: Seq<char>) -> Seq<char>
    decreases text.len(),
{
    if text.len() > 0 && text.last() == '"' {
        trim_end_quotes(text.drop_last())
    } else {
        text
    }
}

/// The text without each backslash that has an `n` behind it, and
/// without that `n`, taken from the left.
pub open spec fn without_newline_marks(text: Seq<char>) -> Seq<char>
    decreases text.len(),
{
    if text.len() == 0 {
        text
    } else if text.len() >= 2 && text[0] == '\\' && text[1] == 'n' {
        without_newline_marks(text.skip(2))
    } else {
        seq![text[0]] + without_newline_marks(text.skip(1))
    }
}

/// The text without the occurrences of one character.
pub open spec fn without_char(text: Seq<char>, unwanted: char) -> Seq<char>
    decreases text.len(),
{
    if text.len() == 0 {
        text
    } else if text[0] == unwanted {
        without_char(text.skip(1), unwanted)
    } else {
        seq![text[0]] + without_char(text.skip(1), unwanted)
    }
}

/// A quoted and escaped text laid bare: the double quotes around it are
/// taken off, then the escaped line ends are dropped, then every
/// backslash that is left.
pub open spec fn stripped(text: Seq<char>) -> Seq<char> {
    without_char(without_newline_marks(trim_end_quotes(trim_start_quotes(text))), '\\')
}

/// Takes the double quotes off both ends of the text.
fn trim_quotes(input: &str) -> (trimmed: &str)
    ensures
        trimmed@ == trim_end_quotes(trim_start_quotes(input@)),
{
    let n: usize = input.unicode_len();
    let mut from: usize = 0;
    assert(input@.skip(0) =~= input@);
    while from < n && input.get_char(from) == '"'
        invariant
            from <= n,
            n == input@.len(),
            trim_start_quotes(input@) == trim_start_quotes(input@.skip(from as int)),
        decreases n - from,
    {
        assert(input@.skip(from as int).skip(1) =~= input@.skip(from + 1));
        from = from + 1;
    }
    let mut to: usize = n;
    while to > from && input.get_char(to - 1) == '"'
        invariant
            from <= to <= n,
            n == input@.len(),
            trim_end_quotes(input@.skip(from as int)) == trim_end_quotes(
                input@.subrange(from as int, to as int),
            ),
        decreases to,
    {
        assert(input@.subrange(from as int, to as int).drop_last() =~= input@.subrange(
            from as int,
            to - 1,
        ));
        to = to - 1;
    }
    assert(input@.skip(from as int) =~= input@.subrange(from as int, n as int));
    input.substring_char(from, to)
}

/// Drops the escaped line ends from the text.
fn drop_newline_marks(input: &str) -> (text: String)
    ensures
        text@ == without_newline_marks(input@),
{
    let n: usize = input.unicode_len();
    let mut text = String::new();
    let mut i: usize = 0;
    assert(input@.skip(0) =~= input@);
    assert(text@ + without_newline_marks(input@) =~= without_newline_marks(input@));
    while i < n
        invariant
            i <= n,
            n == input@.len(),
            without_newline_marks(input@) == text@ + without_newline_marks(input@.skip(i as int)),
        decreases n - i,
    {
        let ghost rest = input@.skip(i as int);
        if input.get_char(i) == '\\' && i + 1 < n && input.get_char(i + 1) == 'n' {
            assert(rest.skip(2) =~= input@.skip(i + 2));
            i = i + 2;
        } else {
            let ghost before = text@;
            text.append(input.substring_char(i, i + 1));
            assert(rest.skip(1) =~= input@.skip(i + 1));
            assert(text@ =~= before + seq![rest[0]]);
            assert(text@ + without_newline_marks(rest.skip(1)) =~= before + (seq![rest[0]]
                + without_newline_marks(rest.skip(1))));
            i = i + 1;
        }
    }
    assert(text@ + without_newline_marks(input@.skip(n as int)) =~= text@);
    text
}

/// Drops the occurrences of one character from the text.
pub fn drop_char(input: &str, unwanted: char) -> (text: String)
    ensures
        text@ == without_char(input@, unwanted),
{
    let n: usize = input.unicode_len();
    let mut text = String::new();
    let mut i: usize = 0;
    assert(input@.skip(0) =~= input@);
    assert(text@ + without_char(input@, unwanted) =~= without_char(input@, unwanted));
    while i < n
        invariant
            i <= n,
            n == input@.len(),
            without_char(input@, unwanted) == text@ + without_char(input@.skip(i as int), unwanted),
        decreases n - i,
    {
        let ghost rest = input@.skip(i as int);
        assert(rest.skip(1) =~= input@.skip(i + 1));
        if input.get_char(i) != unwanted {
            let ghost before = text@;
            text.append(input.substring_char(i, i + 1));
            assert(text@ =~= before + seq![rest[0]]);
            assert(text@ + without_char(rest.skip(1), unwanted) =~= before + (seq![rest[0]]
                + without_char(rest.skip(1), unwanted)));
        }
        i = i + 1;
    }
    assert(text@ + without_char(input@.skip(n as int), unwanted) =~= text@);
    text
}

/// The text without the plus sign at its beginning.
pub open spec fn without_plus(text: Seq<char>) -> Seq<char> {
    if text.len() > 0 && text[0] == '+' {
        text.skip(1)
    } else {
        text
    }
}

/// The count that the text denotes: decimal digits only, with a plus
/// sign before them or without, and a value in the range of `usize`.
pub open spec fn parse_count(text: Seq<char>) -> Option<nat> {
    let body = without_plus(text);
    if is_digits(body) && digits_value(body) <= usize::MAX {
        Some(digits_value(body))
    } else {
        None
    }
}

/// Reads a count: decimal digits only, with a plus sign before them or
/// without.
pub fn parse_usize(text: &str) -> (number: Option<usize>)
    ensures
        number.is_some() == parse_count(text@).is_some(),
        number.is_some() ==> number.unwrap() == parse_count(text@).unwrap(),
{
    let n: usize = text.unicode_len();
    if n == 0 {
        return None;
    }
    let start: usize = if text.get_char(0) == '+' {
        1
    } else {
        0
    };
    let ghost body = text@.skip(start as int);
    assert(text@.skip(0) =~= text@);
    if start >= n {
        return None;
    }
    let limit: u128 = usize::MAX as u128;
    let mut value: u128 = 0;
    let mut i: usize = start;
    while i < n
        invariant
            start <= i <= n,
            n == text@.len(),
            body == text@.skip(start as int),
            body == without_plus(text@),
            limit == usize::MAX,
            value == digits_value(body.take(i - start)),
            value <= limit,
            forall|j: int| 0 <= j < i - start ==> '0' <= #[trigger] body[j] <= '9',
        decreases n - i,
    {
        let c = text.get_char(i);
        if c < '0' || c > '9' {
            assert(body[i - start] == c);
            return None;
        }
        let digit: u128 = (c as u32 - '0' as u32) as u128;
        proof {
            assert(body.take(i - start + 1).drop_last() =~= body.take(i - start));
            assert(body.take(i - start + 1).last() == c);
        }
        value = value * 10 + digit;
        if value > limit {
            proof {
                lemma_digits_value_grows(body, i - start + 1);
            }
            return None;
        }
        i = i + 1;
    }
    assert(body.take(n - start) =~= body);
    Some(value as usize)
}

/// Lays a quoted and escaped text bare.
pub fn strip_quotes(input: &str) -> (text: String)
    ensures
        text@ == stripped(input@),
{
    let marked = drop_newline_marks(trim_quotes(input));
    drop_char(marked.as_str(), '\\')
}

} // verus!

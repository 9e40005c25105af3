//! Names made of text and decimal numbers, and their way back.

use vstd::prelude::*;
use vstd::string::{StrSliceExecFns, StringExecFns};

verus! {

/// The views of a sequence of strings.
pub open spec fn views(strings: Seq<String>) -> Seq<Seq<char>> {
    Seq::new(strings.len(), |i: int| strings[i]@)
}

/// The decimal digit `d`.
pub open spec fn digit(d: int) -> char {
    if d == 0 {
        '0'
    } else if d == 1 {
        '1'
    } else if d == 2 {
        '2'
    } else if d == 3 {
        '3'
    } else if d == 4 {
        '4'
    } else if d == 5 {
        '5'
    } else if d == 6 {
        '6'
    } else if d == 7 {
        '7'
    } else if d == 8 {
        '8'
    } else {
        '9'
    }
}

/// The value of a decimal digit.
pub open spec fn digit_value(c: char) -> Option<int> {
    if '0' <= c && c <= '9' {
        Some(c as int - '0' as int)
    } else {
        None
    }
}

/// The decimal notation of `n`, without leading zeros.
pub open spec fn decimal(n: nat) -> Seq<char>
    decreases n,
{
    if n < 10 {
        seq![digit(n as int)]
    } else {
        decimal(n / 10).push(digit((n % 10) as int))
    }
}

/// The number that a non-empty run of decimal digits stands for.
pub open spec fn number(text: Seq<char>) -> Option<nat>
    decreases text.len(),
{
    if text.len() == 0 {
        None
    } else if text.len() == 1 {
        match digit_value(text[0]) {
            Some(d) => Some(d as nat),
            None => None,
        }
    } else {
        match (number(text.drop_last()), digit_value(text.last())) {
            (Some(high), Some(d)) => Some((10 * high + d) as nat),
            _ => None,
        }
    }
}

/// The digits of an index, which may carry a plus sign.
pub open spec fn unsigned_digits(text: Seq<char>) -> Seq<char> {
    if text.len() > 1 && text[0] == '+' {
        text.skip(1)
    } else {
        text
    }
}

/// The index that `text` names: decimal digits, with or without a plus
/// sign, of a number that fits a `usize`.
pub open spec fn index_of(text: Seq<char>) -> Option<usize> {
    match number(unsigned_digits(text)) {
        Some(n) => if n <= usize::MAX {
            Some(n as usize)
        } else {
            None
        },
        None => None,
    }
}

/// A name with a number in it.
pub open spec fn spec_indexed(prefix: Seq<char>, n: nat, suffix: Seq<char>) -> Seq<char> {
    prefix + decimal(n) + suffix
}

/// A name that ends in a number.
pub open spec fn spec_numbered(prefix: Seq<char>, n: nat) -> Seq<char> {
    prefix + decimal(n)
}

/// What follows `prefix` in `text`, where it begins with it.
pub open spec fn after_prefix(text: Seq<char>, prefix: Seq<char>) -> Option<Seq<char>> {
    if prefix.len() <= text.len() && text.take(prefix.len() as int) == prefix {
        Some(text.skip(prefix.len() as int))
    } else {
        None
    }
}

/// What precedes `suffix` in `text`, where it ends with it.
pub open spec fn before_suffix(text: Seq<char>, suffix: Seq<char>) -> Option<Seq<char>> {
    if suffix.len() <= text.len() && text.skip(text.len() - suffix.len()) == suffix {
        Some(text.take(text.len() - suffix.len()))
    } else {
        None
    }
}

/// Where `mark` stands last in `text`.
pub open spec fn last_position(text: Seq<char>, mark: char) -> Option<int>
    decreases text.len(),
{
    if text.len() == 0 {
        None
    } else if text.last() == mark {
        Some(text.len() - 1)
    } else {
        last_position(text.drop_last(), mark)
    }
}

/// Whether two texts are the same.
pub fn same(a: &str, b: &str) -> (r: bool)
    ensures
        r == (a@ == b@),
{
    let left = a.to_owned();
    let right = b.to_owned();
    left == right
}

fn digit_text(d: u64) -> (r: &'static str)
    requires
        d < 10,
    ensures
        r@ == seq![digit(d as int)],
{
    proof {
        reveal_strlit("0");
        reveal_strlit("1");
        reveal_strlit("2");
        reveal_strlit("3");
        reveal_strlit("4");
        reveal_strlit("5");
        reveal_strlit("6");
        reveal_strlit("7");
        reveal_strlit("8");
        reveal_strlit("9");
    }
    match d {
        0 => "0",
        1 => "1",
        2 => "2",
        3 => "3",
        4 => "4",
        5 => "5",
        6 => "6",
        7 => "7",
        8 => "8",
        _ => "9",
    }
}

/// The decimal notation of `n`.
pub fn decimal_text(n: u64) -> (r: String)
    ensures
        r@ == decimal(n as nat),
    decreases n,
{
    let mut text = if n < 10 {
        String::new()
    } else {
        decimal_text(n / 10)
    };
    text.append(digit_text(n % 10));
    text
}

/// Puts two texts one after the other.
pub fn join(a: &str, b: &str) -> (r: String)
    ensures
        r@ == a@ + b@,
{
    let mut text = a.to_owned();
    text.append(b);
    text
}

/// Builds a name with a number in it.
pub fn indexed(prefix: &str, n: u64, suffix: &str) -> (r: String)
    ensures
        r@ == spec_indexed(prefix@, n as nat, suffix@),
{
    let mut text = join(prefix, decimal_text(n).as_str());
    text.append(suffix);
    text
}

/// Builds a name that ends in a number.
pub fn numbered(prefix: &str, n: u64) -> (r: String)
    ensures
        r@ == spec_numbered(prefix@, n as nat),
{
    join(prefix, decimal_text(n).as_str())
}

/// What follows `prefix`, where `text` begins with it.
pub fn strip_prefix<'a>(text: &'a str, prefix: &str) -> (r: Option<&'a str>)
    ensures
        match r {
            Some(rest) => after_prefix(text@, prefix@) == Some(rest@),
            None => after_prefix(text@, prefix@) is None,
        },
{
    let length: usize = text.unicode_len();
    let cut: usize = prefix.unicode_len();
    if cut <= length && same(text.substring_char(0, cut), prefix) {
        Some(text.substring_char(cut, length))
    } else {
        None
    }
}

/// What precedes `suffix`, where `text` ends with it.
pub fn strip_suffix<'a>(text: &'a str, suffix: &str) -> (r: Option<&'a str>)
    ensures
        match r {
            Some(rest) => before_suffix(text@, suffix@) == Some(rest@),
            None => before_suffix(text@, suffix@) is None,
        },
{
    let length: usize = text.unicode_len();
    let tail: usize = suffix.unicode_len();
    if tail <= length && same(text.substring_char(length - tail, length), suffix) {
        Some(text.substring_char(0, length - tail))
    } else {
        None
    }
}

/// Splits `text` at the last place where `mark` stands.
pub fn split_last<'a>(text: &'a str, mark: char) -> (r: Option<(&'a str, &'a str)>)
    ensures
        match last_position(text@, mark) {
            Some(at) => r matches Some((left, right)) && left@ == text@.take(at) && right@
                == text@.skip(at + 1),
            None => r is None,
        },
{
    let length: usize = text.unicode_len();
    let mut end: usize = length;
    assert(text@.take(end as int) == text@);
    while end > 0
        invariant
            end <= length == text@.len(),
            last_position(text@.take(end as int), mark) == last_position(text@, mark),
        decreases end,
    {
        assert(text@.take(end as int).drop_last() == text@.take(end - 1));
        if text.get_char(end - 1) == mark {
            return Some((text.substring_char(0, end - 1), text.substring_char(end, length)));
        }
        end = end - 1;
    }
    None
}

fn digit_of(c: char) -> (r: Option<usize>)
    ensures
        match r {
            Some(d) => digit_value(c) == Some(d as int) && d < 10,
            None => digit_value(c) is None,
        },
{
    match c {
        '0' => Some(0),
        '1' => Some(1),
        '2' => Some(2),
        '3' => Some(3),
        '4' => Some(4),
        '5' => Some(5),
        '6' => Some(6),
        '7' => Some(7),
        '8' => Some(8),
        '9' => Some(9),
        _ => None,
    }
}

/// Reads an index.
pub fn parse_index(text: &str) -> (r: Option<usize>)
    ensures
        r == index_of(text@),
{
    let length: usize = text.unicode_len();
    if length == 0 {
        return None;
    }
    let start: usize = if length > 1 && text.get_char(0) == '+' {
        1
    } else {
        0
    };
    let ghost digits = unsigned_digits(text@);
    assert(digits.len() == length - start);
    assert(forall|i: int| 0 <= i < digits.len() ==> digits[i] == text@[i + start]);
    let mut value: usize = match digit_of(text.get_char(start)) {
        Some(d) => d,
        None => {
            proof {
                lemma_number_prefix(digits, 1);
            }
            return None;
        },
    };
    let mut next: usize = start + 1;
    while next < length
        invariant
            length == text@.len(),
            start < next <= length,
            digits == unsigned_digits(text@),
            digits.len() == length - start,
            forall|i: int| 0 <= i < digits.len() ==> digits[i] == text@[i + start],
            number(digits.take(next - start)) == Some(value as nat),
        decreases length - next,
    {
        proof {
            let more = digits.take(next + 1 - start);
            assert(more.drop_last() == digits.take(next - start));
            lemma_number_prefix(digits, next + 1 - start);
        }
        let d: usize = match digit_of(text.get_char(next)) {
            Some(d) => d,
            None => {
                return None;
            },
        };
        if value > (usize::MAX - d) / 10 {
            return None;
        }
        value = 10 * value + d;
        next = next + 1;
    }
    assert(digits.take(next - start) == digits);
    Some(value)
}

/// A prefix that is no number makes no number, and one that is too large
/// stays too large.
proof fn lemma_number_prefix(text: Seq<char>, length: int)
    requires
        0 < length <= text.len(),
    ensures
        number(text.take(length)) is None ==> number(text) is None,
        number(text.take(length)) is Some && number(text) is Some ==> number(text.take(length))->0
            <= number(text)->0,
    decreases text.len() - length,
{
    if length == text.len() {
        assert(text.take(length) == text);
    } else {
        let more = text.take(length + 1);
        assert(more.drop_last() == text.take(length));
        lemma_number_prefix(text, length + 1);
    }
}

proof fn lemma_decimal_digits(n: nat)
    ensures
        decimal(n).len() > 0,
        forall|i: int|
            0 <= i < decimal(n).len() ==> digit_value(#[trigger] decimal(n)[i]) is Some,
        number(decimal(n)) == Some(n),
        decimal(n)[0] != '+',
    decreases n,
{
    if n >= 10 {
        lemma_decimal_digits(n / 10);
        assert(decimal(n).drop_last() == decimal(n / 10));
    }
}

/// Reading back the decimal notation of a number gives the number.
pub proof fn decimal_reads_back(n: nat)
    ensures
        number(decimal(n)) == Some(n),
        n <= usize::MAX ==> index_of(decimal(n)) == Some(n as usize),
{
    lemma_decimal_digits(n);
}

/// A name that ends in a number begins with its prefix, goes on with a
/// digit and ends in one.
pub proof fn numbered_name_parts(prefix: Seq<char>, n: nat)
    ensures
        spec_numbered(prefix, n).len() > prefix.len(),
        forall|k: int|
            0 <= k < prefix.len() ==> #[trigger] spec_numbered(prefix, n)[k] == prefix[k],
        digit_value(spec_numbered(prefix, n)[prefix.len() as int]) is Some,
        digit_value(spec_numbered(prefix, n).last()) is Some,
{
    lemma_decimal_digits(n);
    let d = decimal(n);
    assert(digit_value(d[0]) is Some);
    assert(digit_value(d[d.len() - 1]) is Some);
}

/// A name with a number in it begins with its prefix and ends with its
/// suffix.
pub proof fn indexed_name_parts(prefix: Seq<char>, n: nat, suffix: Seq<char>)
    ensures
        spec_indexed(prefix, n, suffix).len() > prefix.len() + suffix.len(),
        forall|k: int|
            0 <= k < prefix.len() ==> #[trigger] spec_indexed(prefix, n, suffix)[k] == prefix[k],
        suffix.len() > 0 ==> spec_indexed(prefix, n, suffix).last() == suffix.last(),
{
    lemma_decimal_digits(n);
}

/// Names that end in a number are equal only where their numbers are.
pub proof fn numbered_names_differ(prefix: Seq<char>, m: nat, n: nat)
    requires
        spec_numbered(prefix, m) == spec_numbered(prefix, n),
    ensures
        m == n,
{
    let none = Seq::<char>::empty();
    assert(spec_indexed(prefix, m, none) == spec_numbered(prefix, m));
    assert(spec_indexed(prefix, n, none) == spec_numbered(prefix, n));
    indexed_names_differ(prefix, m, none, n, none);
}

/// Names built from one prefix are equal only where their numbers and their
/// suffixes are, as long as no suffix begins with a digit.
pub proof fn indexed_names_differ(
    prefix: Seq<char>,
    m: nat,
    left: Seq<char>,
    n: nat,
    right: Seq<char>,
)
    requires
        left.len() > 0 ==> digit_value(left[0]) is None,
        right.len() > 0 ==> digit_value(right[0]) is None,
        spec_indexed(prefix, m, left) == spec_indexed(prefix, n, right),
    ensures
        m == n,
        left == right,
{
    let a = spec_indexed(prefix, m, left);
    let b = spec_indexed(prefix, n, right);
    let dm = decimal(m);
    let dn = decimal(n);
    let p = prefix.len() as int;
    lemma_decimal_digits(m);
    lemma_decimal_digits(n);
    assert(forall|i: int| 0 <= i < dm.len() ==> a[p + i] == dm[i]);
    assert(forall|i: int| 0 <= i < dn.len() ==> b[p + i] == dn[i]);
    if dm.len() < dn.len() {
        assert(digit_value(dn[dm.len() as int]) is Some);
        assert(b[p + dm.len()] == dn[dm.len() as int]);
        assert(a[p + dm.len()] == left[0]);
    } else if dn.len() < dm.len() {
        assert(digit_value(dm[dn.len() as int]) is Some);
        assert(a[p + dn.len()] == dm[dn.len() as int]);
        assert(b[p + dn.len()] == right[0]);
    }
    assert forall|i: int| 0 <= i < dm.len() implies dm[i] == dn[i] by {
        assert(a[p + i] == b[p + i]);
    }
    assert(dm == dn);
    assert(a.len() == p + dm.len() + left.len());
    assert(b.len() == p + dn.len() + right.len());
    assert forall|i: int| 0 <= i < left.len() implies left[i] == right[i] by {
        assert(a[p + dm.len() + i] == left[i]);
        assert(b[p + dm.len() + i] == right[i]);
    }
    assert(left == right);
}

/// Decimal notation is positional: one more digit counts the others ten times,
/// and a mark that is no digit makes no number.
pub proof fn digits_count_by_tens(text: Seq<char>, next: char)
    ensures
        number(seq![next]) == if '0' <= next && next <= '9' {
            Some((next as int - '0' as int) as nat)
        } else {
            None
        },
        text.len() > 0 ==> number(text.push(next)) == match number(text) {
            Some(high) => if '0' <= next && next <= '9' {
                Some((10 * high + (next as int - '0' as int)) as nat)
            } else {
                None
            },
            None => None,
        },
        number(Seq::empty()) is None,
{
    if text.len() > 0 {
        assert(text.push(next).drop_last() == text);
    }
    let one = seq![next];
    assert(one.len() == 1 && one[0] == next);
}

/// A number below ten is written as one digit, and any other one as the notation
/// of its tens followed by its last digit, so no notation begins with a zero but
/// that of zero.
pub proof fn notations_have_no_leading_zero(n: nat)
    ensures
        decimal(n).len() >= 1,
        n > 0 ==> decimal(n)[0] != '0',
        n < 10 ==> decimal(n) == seq![('0' as int + n) as char],
        n >= 10 ==> decimal(n) == decimal(n / 10).push(('0' as int + n % 10) as char),
    decreases n,
{
    if n >= 10 {
        notations_have_no_leading_zero(n / 10);
        assert(n / 10 > 0);
    }
}

/// An index is read with or without one plus sign before its digits, where it
/// fits.
pub proof fn indices_may_carry_a_plus(digits: Seq<char>, n: nat)
    requires
        number(digits) == Some(n),
    ensures
        n <= usize::MAX ==> index_of(digits) == Some(n as usize) && index_of(seq!['+'] + digits)
            == Some(n as usize),
        n > usize::MAX ==> index_of(digits) is None && index_of(seq!['+'] + digits) is None,
{
    lemma_digits_first(digits);
    let signed = seq!['+'] + digits;
    assert(signed.skip(1) == digits);
}

proof fn lemma_digits_first(digits: Seq<char>)
    requires
        number(digits) is Some,
    ensures
        digits.len() > 0,
        digits[0] != '+',
    decreases digits.len(),
{
    if digits.len() > 1 {
        lemma_digits_first(digits.drop_last());
        assert(digits.drop_last()[0] == digits[0]);
    }
}

/// What is left of a text behind a prefix, or before a suffix, makes the text up
/// again with it, and where nothing does, the text neither begins nor ends so.
pub proof fn parts_make_the_text_up(text: Seq<char>, part: Seq<char>, rest: Seq<char>)
    ensures
        after_prefix(text, part) == Some(rest) <==> text == part + rest,
        before_suffix(text, part) == Some(rest) <==> text == rest + part,
{
    if after_prefix(text, part) == Some(rest) {
        assert(text =~= text.take(part.len() as int) + text.skip(part.len() as int));
    }
    if text == part + rest {
        assert(text.take(part.len() as int) =~= part);
        assert(text.skip(part.len() as int) =~= rest);
    }
    if before_suffix(text, part) == Some(rest) {
        assert(text =~= text.take(text.len() - part.len()) + text.skip(text.len() - part.len()));
    }
    if text == rest + part {
        assert(text.skip(text.len() - part.len()) =~= part);
        assert(text.take(text.len() - part.len()) =~= rest);
    }
}

/// The last place of a mark holds it, and no later place does; a text without a
/// last place does not hold the mark at all.
pub proof fn the_last_place_holds_the_mark(text: Seq<char>, mark: char)
    ensures
        match last_position(text, mark) {
            Some(at) => 0 <= at < text.len() && text[at] == mark && forall|k: int|
                at < k < text.len() ==> #[trigger] text[k] != mark,
            None => forall|k: int| 0 <= k < text.len() ==> #[trigger] text[k] != mark,
        },
    decreases text.len(),
{
    if text.len() > 0 && text.last() != mark {
        let fewer = text.drop_last();
        the_last_place_holds_the_mark(fewer, mark);
        assert forall|k: int| 0 <= k < fewer.len() implies #[trigger] text[k] == fewer[k] by {}
    }
}

/// A numbered name is its prefix, the number and its suffix, one after the other.
pub proof fn names_put_their_parts_together(prefix: Seq<char>, n: nat, suffix: Seq<char>)
    ensures
        spec_indexed(prefix, n, suffix) == prefix + decimal(n) + suffix,
        spec_numbered(prefix, n) == prefix + decimal(n),
{
}

} // verus!

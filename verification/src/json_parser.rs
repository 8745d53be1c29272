//! Reading the texts of a scene file: whole numbers, lists of them, and the
//! attributes that the members of a JSON object hold.

use vstd::prelude::*;
use vstd::slice::slice_subrange;
use crate::dataforms::same_text;

verus! {

/// Why a text is not a number of the type asked for.
#[derive(Debug, Clone, Copy, PartialEq, Eq, Structural)]
pub enum NumberError {
    /// The text is empty.
    Empty,
    /// The text holds a character that is no decimal digit, or is a sign
    /// with nothing behind it.
    InvalidDigit,
    /// The number is too large for the type.
    PosOverflow,
    /// The number is too small for the type.
    NegOverflow,
}

impl NumberError {
    /// The reason in words.
    pub open spec fn reason(self) -> Seq<char> {
        match self {
            NumberError::Empty => "cannot parse integer from empty string"@,
            NumberError::InvalidDigit => "invalid digit found in string"@,
            NumberError::PosOverflow => "number too large to fit in target type"@,
            NumberError::NegOverflow => "number too small to fit in target type"@,
        }
    }

    /// The reason in words.
    pub fn message(&self) -> (r: &'static str)
        ensures
            r@ == self.reason(),
    {
        match self {
            NumberError::Empty => "cannot parse integer from empty string",
            NumberError::InvalidDigit => "invalid digit found in string",
            NumberError::PosOverflow => "number too large to fit in target type",
            NumberError::NegOverflow => "number too small to fit in target type",
        }
    }
}

/// Whether `c` is one of the ten decimal digits.
pub open spec fn is_digit(c: char) -> bool {
    '0' <= c && c <= '9'
}

/// The value of the decimal digit `c`.
pub open spec fn digit_value(c: char) -> int {
    c as int - '0' as int
}

/// The number that the decimal digits `digits` write.
pub open spec fn decimal_value(digits: Seq<char>) -> int
    decreases digits.len(),
{
    if digits.len() == 0 {
        0
    } else {
        10 * decimal_value(digits.drop_last()) + digit_value(digits.last())
    }
}

/// Whether every character of `s` is a decimal digit.
pub open spec fn all_digits(s: Seq<char>) -> bool {
    forall|i: int| 0 <= i < s.len() ==> is_digit(#[trigger] s[i])
}

/// Reading the first `k` characters of `digits` from the left, each digit
/// appended to the number read so far, which counts down from zero when
/// `negative` holds: the number read, or why reading stopped at the first
/// character that is no digit or that takes the number out of `lo..=hi`.
pub open spec fn read_digits(digits: Seq<char>, negative: bool, lo: int, hi: int, k: nat) -> Result<
    int,
    NumberError,
>
    decreases k,
{
    if k == 0 {
        Ok(0)
    } else {
        match read_digits(digits, negative, lo, hi, (k - 1) as nat) {
            Err(e) => Err(e),
            Ok(v) => {
                let c = digits[k - 1];
                let w = if negative {
                    10 * v - digit_value(c)
                } else {
                    10 * v + digit_value(c)
                };
                if !is_digit(c) {
                    Err(NumberError::InvalidDigit)
                } else if w > hi {
                    Err(NumberError::PosOverflow)
                } else if w < lo {
                    Err(NumberError::NegOverflow)
                } else {
                    Ok(w)
                }
            },
        }
    }
}

/// Whether `text` starts with a sign that a number of the kind asked for may
/// carry: `+` always, `-` only where `signed` holds.
pub open spec fn has_sign(text: Seq<char>, signed: bool) -> bool {
    text.len() > 0 && (text[0] == '+' || (signed && text[0] == '-'))
}

/// What `text` is as a whole number within `lo..=hi`: an optional sign and
/// then decimal digits, at least one, and nothing else.
pub open spec fn integer_of(text: Seq<char>, signed: bool, lo: int, hi: int) -> Result<
    int,
    NumberError,
> {
    if text.len() == 0 {
        Err(NumberError::Empty)
    } else {
        let digits = if has_sign(text, signed) {
            text.skip(1)
        } else {
            text
        };
        if digits.len() == 0 {
            Err(NumberError::InvalidDigit)
        } else {
            read_digits(digits, signed && text[0] == '-', lo, hi, digits.len())
        }
    }
}

/// Reads `chars` as a whole number within `lo..=hi`.
pub fn read_integer(chars: &[char], signed: bool, lo: i128, hi: i128) -> (r: Result<
    i128,
    NumberError,
>)
    requires
        lo <= 0 <= hi,
        -0x1_0000_0000_0000_0000 <= lo,
        hi <= 0x1_0000_0000_0000_0000,
    ensures
        match r {
            Ok(v) => lo <= v <= hi && integer_of(chars@, signed, lo as int, hi as int) == Ok::<
                int,
                NumberError,
            >(v as int),
            Err(e) => integer_of(chars@, signed, lo as int, hi as int) == Err::<int, NumberError>(
                e,
            ),
        },
{
    let n: usize = chars.len();
    if n == 0 {
        return Err(NumberError::Empty);
    }
    let first: char = chars[0];
    let negative: bool = signed && first == '-';
    let start: usize = if first == '+' || negative {
        1
    } else {
        0
    };
    if start == n {
        return Err(NumberError::InvalidDigit);
    }
    let ghost digits = chars@.skip(start as int);
    assert(chars@.skip(0) =~= chars@);
    let mut value: i128 = 0;
    let mut i: usize = start;
    while i < n
        invariant
            start <= i <= n,
            n == chars@.len(),
            digits == chars@.skip(start as int),
            integer_of(chars@, signed, lo as int, hi as int) == read_digits(
                digits,
                negative,
                lo as int,
                hi as int,
                digits.len(),
            ),
            lo <= 0 <= hi,
            -0x1_0000_0000_0000_0000 <= lo,
            hi <= 0x1_0000_0000_0000_0000,
            lo <= value <= hi,
            read_digits(digits, negative, lo as int, hi as int, (i - start) as nat) == Ok::<
                int,
                NumberError,
            >(value as int),
        decreases n - i,
    {
        let c: char = chars[i];
        assert(digits[i - start] == c);
        assert(read_digits(digits, negative, lo as int, hi as int, (i + 1 - start) as nat) == (
        match read_digits(digits, negative, lo as int, hi as int, (i - start) as nat) {
            Err(e) => Err(e),
            Ok(v) => {
                let w = if negative {
                    10 * v - digit_value(c)
                } else {
                    10 * v + digit_value(c)
                };
                if !is_digit(c) {
                    Err(NumberError::InvalidDigit)
                } else if w > hi {
                    Err(NumberError::PosOverflow)
                } else if w < lo {
                    Err(NumberError::NegOverflow)
                } else {
                    Ok(w)
                }
            },
        }));
        if !(c >= '0' && c <= '9') {
            proof {
                lemma_failure_stays(digits, negative, lo as int, hi as int, (i + 1 - start) as nat, digits.len());
            }
            return Err(NumberError::InvalidDigit);
        }
        let d: i128 = (c as u32 - '0' as u32) as i128;
        let w: i128 = if negative {
            10 * value - d
        } else {
            10 * value + d
        };
        if w > hi {
            proof {
                lemma_failure_stays(digits, negative, lo as int, hi as int, (i + 1 - start) as nat, digits.len());
            }
            return Err(NumberError::PosOverflow);
        }
        if w < lo {
            proof {
                lemma_failure_stays(digits, negative, lo as int, hi as int, (i + 1 - start) as nat, digits.len());
            }
            return Err(NumberError::NegOverflow);
        }
        value = w;
        i = i + 1;
    }
    Ok(value)
}

/// Once reading has stopped, reading further changes nothing.
pub proof fn lemma_failure_stays(
    digits: Seq<char>,
    negative: bool,
    lo: int,
    hi: int,
    k: nat,
    m: nat,
)
    requires
        k <= m,
        read_digits(digits, negative, lo, hi, k) is Err,
    ensures
        read_digits(digits, negative, lo, hi, m) == read_digits(digits, negative, lo, hi, k),
    decreases m,
{
    if k < m {
        lemma_failure_stays(digits, negative, lo, hi, k, (m - 1) as nat);
    }
}

/// The number that `digits` write, counted below zero when `negative` holds.
pub open spec fn signed_value(digits: Seq<char>, negative: bool) -> int {
    if negative {
        -decimal_value(digits)
    } else {
        decimal_value(digits)
    }
}

/// Decimal digits write a number that is not below zero.
pub proof fn lemma_decimal_value_not_negative(digits: Seq<char>)
    requires
        all_digits(digits),
    ensures
        decimal_value(digits) >= 0,
    decreases digits.len(),
{
    if digits.len() > 0 {
        assert(is_digit(digits[digits.len() - 1]));
        lemma_decimal_value_not_negative(digits.drop_last());
    }
}

/// Reading the first `k` characters succeeds exactly when they are decimal
/// digits that write a number within `lo..=hi`, and then gives that number.
pub proof fn lemma_read_digits_is_decimal_notation(
    digits: Seq<char>,
    negative: bool,
    lo: int,
    hi: int,
    k: nat,
)
    requires
        lo <= 0 <= hi,
        k <= digits.len(),
    ensures
        read_digits(digits, negative, lo, hi, k) is Ok <==> (all_digits(digits.take(k as int)) && lo
            <= signed_value(digits.take(k as int), negative) <= hi),
        read_digits(digits, negative, lo, hi, k) is Ok ==> read_digits(digits, negative, lo, hi, k)
            == Ok::<int, NumberError>(signed_value(digits.take(k as int), negative)),
    decreases k,
{
    let now = digits.take(k as int);
    if k > 0 {
        let before = digits.take(k - 1);
        assert(now.drop_last() =~= before);
        assert(now.last() == digits[k - 1]);
        lemma_read_digits_is_decimal_notation(digits, negative, lo, hi, (k - 1) as nat);
        if all_digits(now) {
            assert forall|i: int| 0 <= i < before.len() implies is_digit(#[trigger] before[i]) by {
                assert(before[i] == now[i]);
            }
            assert(is_digit(now[k - 1]));
            lemma_decimal_value_not_negative(before);
        }
        if read_digits(digits, negative, lo, hi, k) is Ok {
            assert forall|i: int| 0 <= i < now.len() implies is_digit(#[trigger] now[i]) by {
                if i < k - 1 {
                    assert(now[i] == before[i]);
                }
            }
        }
    }
}

/// A text is read as a number exactly when it is an optional sign followed by
/// decimal digits only, at least one, that write a number within `lo..=hi`;
/// the result is then that number.
pub proof fn integer_of_is_decimal_notation(text: Seq<char>, signed: bool, lo: int, hi: int)
    requires
        lo <= 0 <= hi,
    ensures
        ({
            let digits = if has_sign(text, signed) {
                text.skip(1)
            } else {
                text
            };
            let negative = signed && text.len() > 0 && text[0] == '-';
            &&& integer_of(text, signed, lo, hi) is Ok <==> (digits.len() > 0 && all_digits(digits)
                && lo <= signed_value(digits, negative) <= hi)
            &&& integer_of(text, signed, lo, hi) is Ok ==> integer_of(text, signed, lo, hi) == Ok::<
                int,
                NumberError,
            >(signed_value(digits, negative))
        }),
{
    let digits = if has_sign(text, signed) {
        text.skip(1)
    } else {
        text
    };
    if text.len() > 0 && digits.len() > 0 {
        let negative = signed && text[0] == '-';
        lemma_read_digits_is_decimal_notation(digits, negative, lo, hi, digits.len());
        assert(digits.take(digits.len() as int) =~= digits);
    }
}

/// A kind of whole number that can be read from text.
pub trait Scalar: Sized {
    /// What `text` is as a number of this kind.
    spec fn outcome(text: Seq<char>) -> Result<Self, NumberError>;

    /// Reads `chars` as a number of this kind.
    fn from_chars(chars: &[char]) -> (r: Result<Self, NumberError>)
        ensures
            r == Self::outcome(chars@),
    ;
}

impl Scalar for i32 {
    open spec fn outcome(text: Seq<char>) -> Result<i32, NumberError> {
        match integer_of(text, true, i32::MIN as int, i32::MAX as int) {
            Ok(v) => Ok(v as i32),
            Err(e) => Err(e),
        }
    }

    fn from_chars(chars: &[char]) -> (r: Result<i32, NumberError>) {
        match read_integer(chars, true, i32::MIN as i128, i32::MAX as i128) {
            Ok(v) => Ok(v as i32),
            Err(e) => Err(e),
        }
    }
}

impl Scalar for usize {
    open spec fn outcome(text: Seq<char>) -> Result<usize, NumberError> {
        match integer_of(text, false, 0, usize::MAX as int) {
            Ok(v) => Ok(v as usize),
            Err(e) => Err(e),
        }
    }

    fn from_chars(chars: &[char]) -> (r: Result<usize, NumberError>) {
        match read_integer(chars, false, 0, usize::MAX as i128) {
            Ok(v) => Ok(v as usize),
            Err(e) => Err(e),
        }
    }
}

/// Whether `c` is white space: a character with the Unicode property
/// `White_Space`.
pub open spec fn is_whitespace(c: char) -> bool {
    let u = c as u32;
    ||| 0x09 <= u <= 0x0D
    ||| u == 0x20
    ||| u == 0x85
    ||| u == 0xA0
    ||| u == 0x1680
    ||| 0x2000 <= u <= 0x200A
    ||| u == 0x2028
    ||| u == 0x2029
    ||| u == 0x202F
    ||| u == 0x205F
    ||| u == 0x3000
}

/// Tells whether `c` is white space.
pub fn is_space(c: char) -> (r: bool)
    ensures
        r == is_whitespace(c),
{
    let u: u32 = c as u32;
    (0x09 <= u && u <= 0x0D) || u == 0x20 || u == 0x85 || u == 0xA0 || u == 0x1680 || (0x2000 <= u
        && u <= 0x200A) || u == 0x2028 || u == 0x2029 || u == 0x202F || u == 0x205F || u == 0x3000
}

/// The words of `s`: its runs of characters that are no white space, each
/// as long as it can be, in their order. Read from the end: white space adds
/// nothing, a character that follows another of a word lengthens the last
/// word, and any other character starts a word.
pub open spec fn words(s: Seq<char>) -> Seq<Seq<char>>
    decreases s.len(),
{
    if s.len() == 0 {
        Seq::empty()
    } else {
        let before = words(s.drop_last());
        let c = s.last();
        if is_whitespace(c) {
            before
        } else if s.len() >= 2 && !is_whitespace(s[s.len() - 2]) && before.len() > 0 {
            before.drop_last().push(before.last().push(c))
        } else {
            before.push(seq![c])
        }
    }
}

/// Every word holds at least one character and no white space, and a text
/// without white space is its own only word.
pub proof fn words_hold_no_white_space(s: Seq<char>)
    ensures
        forall|k: int|
            0 <= k < words(s).len() ==> (#[trigger] words(s)[k]).len() > 0 && forall|i: int|
                0 <= i < words(s)[k].len() ==> !is_whitespace(#[trigger] words(s)[k][i]),
        s.len() > 0 && (forall|i: int| 0 <= i < s.len() ==> !is_whitespace(#[trigger] s[i]))
            ==> words(s) == seq![s],
        s.len() > 0 && !is_whitespace(s.last()) ==> words(s).len() > 0,
    decreases s.len(),
{
    if s.len() > 0 {
        let shorter = s.drop_last();
        let before = words(shorter);
        words_hold_no_white_space(shorter);
        let c = s.last();
        if !is_whitespace(c) {
            if s.len() >= 2 && !is_whitespace(s[s.len() - 2]) {
                assert(shorter.last() == s[s.len() - 2]);
                let grown = before.last().push(c);
                assert forall|k: int| 0 <= k < words(s).len() implies (#[trigger] words(s)[k]).len()
                    > 0 && forall|i: int|
                    0 <= i < words(s)[k].len() ==> !is_whitespace(#[trigger] words(s)[k][i]) by {
                    if k < before.len() - 1 {
                        assert(words(s)[k] == before[k]);
                    } else {
                        assert(words(s)[k] == grown);
                        assert forall|i: int| 0 <= i < grown.len() implies !is_whitespace(
                            #[trigger] grown[i],
                        ) by {
                            if i < before.last().len() {
                                assert(grown[i] == before.last()[i]);
                            }
                        }
                    }
                }
            } else {
                assert forall|k: int| 0 <= k < words(s).len() implies (#[trigger] words(s)[k]).len()
                    > 0 && forall|i: int|
                    0 <= i < words(s)[k].len() ==> !is_whitespace(#[trigger] words(s)[k][i]) by {
                    if k < before.len() {
                        assert(words(s)[k] == before[k]);
                    }
                }
            }
        }
        if forall|i: int| 0 <= i < s.len() ==> !is_whitespace(#[trigger] s[i]) {
            if s.len() >= 2 {
                assert forall|i: int| 0 <= i < shorter.len() implies !is_whitespace(
                    #[trigger] shorter[i],
                ) by {
                    assert(shorter[i] == s[i]);
                }
                assert(!is_whitespace(s[s.len() - 2]));
                assert(before == seq![shorter]);
                assert(shorter.push(c) =~= s);
                assert(words(s) =~= seq![s]);
            } else {
                assert(shorter.len() == 0);
                assert(seq![c] =~= s);
                assert(words(s) =~= seq![s]);
            }
        }
    }
}

/// Where the words of `chars` start and end: for each word the index of its
/// first character and the index behind its last.
pub fn split_whitespace(chars: &[char]) -> (ranges: Vec<(usize, usize)>)
    ensures
        ranges@.len() == words(chars@).len(),
        forall|k: int|
            0 <= k < ranges@.len() ==> {
                let (from, to) = #[trigger] ranges@[k];
                &&& from < to <= chars@.len()
                &&& chars@.subrange(from as int, to as int) == words(chars@)[k]
            },
{
    let n: usize = chars.len();
    let mut ranges: Vec<(usize, usize)> = Vec::new();
    let mut start: usize = 0;
    let mut inside: bool = false;
    let mut i: usize = 0;
    assert(chars@.take(0) =~= Seq::<char>::empty());
    while i < n
        invariant
            i <= n,
            n == chars@.len(),
            inside ==> start < i && !is_whitespace(chars@[i - 1]),
            !inside ==> i == 0 || is_whitespace(chars@[i - 1]),
            inside ==> words(chars@.take(i as int)).len() == ranges@.len() + 1 && words(
                chars@.take(i as int),
            ).last() == chars@.subrange(start as int, i as int),
            !inside ==> words(chars@.take(i as int)).len() == ranges@.len(),
            forall|k: int|
                0 <= k < ranges@.len() ==> {
                    let (from, to) = #[trigger] ranges@[k];
                    &&& from < to <= i
                    &&& chars@.subrange(from as int, to as int) == words(chars@.take(i as int))[k]
                },
        decreases n - i,
    {
        let c: char = chars[i];
        let ghost before = chars@.take(i as int);
        let ghost now = chars@.take(i + 1);
        assert(now.drop_last() =~= before);
        assert(now.last() == c);
        assert(i >= 1 ==> now[now.len() - 2] == chars@[i - 1]);
        if is_space(c) {
            if inside {
                ranges.push((start, i));
                inside = false;
            }
        } else {
            if inside {
                assert(chars@.subrange(start as int, i as int).push(c) =~= chars@.subrange(
                    start as int,
                    i + 1,
                ));
            } else {
                start = i;
                inside = true;
                assert(seq![c] =~= chars@.subrange(i as int, i + 1));
            }
        }
        i = i + 1;
    }
    assert(chars@.take(n as int) =~= chars@);
    if inside {
        ranges.push((start, n));
    }
    ranges
}

/// The characters of `s` as a list.
pub fn chars_of(s: &str) -> (r: Vec<char>)
    ensures
        r@ == s@,
{
    let mut r: Vec<char> = Vec::new();
    for c in it: s.chars()
        invariant
            r@ == it.seq().take(it.index() as int),
            it.seq() == s@,
    {
        r.push(c);
    }
    r
}

/// Why a text is not a triple of numbers.
#[derive(Debug, Clone, Copy, PartialEq, Eq, Structural)]
pub enum Vector3Error {
    /// The text holds this many words, not three.
    WrongCount(usize),
    /// One of the three words is no number.
    Number(NumberError),
}

/// Whether `k` is the first of `texts` that is no number of kind `T`, and
/// `e` says why it is none.
pub open spec fn first_failure<T: Scalar>(texts: Seq<Seq<char>>, k: int, e: NumberError) -> bool {
    &&& 0 <= k < texts.len()
    &&& T::outcome(texts[k]) == Err::<T, NumberError>(e)
    &&& forall|j: int| 0 <= j < k ==> (#[trigger] T::outcome(texts[j])) is Ok
}

/// Reads the whole of `s` as one number.
pub fn parse_scalar<T: Scalar>(s: &str) -> (r: Result<T, NumberError>)
    ensures
        r == T::outcome(s@),
{
    let chars = chars_of(s);
    T::from_chars(chars.as_slice())
}

/// Reads the whole of `s` as one 32-bit integer.
pub fn parse_integer(s: &str) -> (r: Result<i32, NumberError>)
    ensures
        r == <i32 as Scalar>::outcome(s@),
{
    parse_scalar::<i32>(s)
}

/// Reads the words of `s` as numbers. The first word that is no number
/// decides the error.
pub fn parse_vec<T: Scalar>(s: &str) -> (r: Result<Vec<T>, NumberError>)
    ensures
        match r {
            Ok(v) => {
                &&& v@.len() == words(s@).len()
                &&& forall|k: int|
                    0 <= k < v@.len() ==> T::outcome(#[trigger] words(s@)[k]) == Ok::<
                        T,
                        NumberError,
                    >(v@[k])
            },
            Err(e) => exists|k: int| first_failure::<T>(words(s@), k, e),
        },
{
    let chars = chars_of(s);
    let ranges = split_whitespace(chars.as_slice());
    let mut values: Vec<T> = Vec::with_capacity(ranges.len());
    let mut k: usize = 0;
    while k < ranges.len()
        invariant
            k <= ranges@.len(),
            chars@ == s@,
            ranges@.len() == words(s@).len(),
            forall|j: int|
                0 <= j < ranges@.len() ==> {
                    let (from, to) = #[trigger] ranges@[j];
                    &&& from < to <= chars@.len()
                    &&& chars@.subrange(from as int, to as int) == words(s@)[j]
                },
            values@.len() == k,
            forall|j: int|
                0 <= j < k ==> T::outcome(#[trigger] words(s@)[j]) == Ok::<T, NumberError>(
                    values@[j],
                ),
        decreases ranges@.len() - k,
    {
        let (from, to) = ranges[k];
        let word = slice_subrange(chars.as_slice(), from, to);
        match T::from_chars(word) {
            Ok(v) => {
                values.push(v);
            },
            Err(e) => {
                assert(first_failure::<T>(words(s@), k as int, e));
                return Err(e);
            },
        }
        k = k + 1;
    }
    Ok(values)
}

/// Reads `s` as three numbers. A text of more or fewer than three words is
/// refused before any word is read; otherwise the first word that is no
/// number decides the error.
pub fn parse_vector3<T: Scalar>(s: &str) -> (r: Result<[T; 3], Vector3Error>)
    ensures
        match r {
            Ok(v) => {
                &&& words(s@).len() == 3
                &&& forall|k: int|
                    0 <= k < 3 ==> T::outcome(#[trigger] words(s@)[k]) == Ok::<T, NumberError>(
                        v@[k],
                    )
            },
            Err(Vector3Error::WrongCount(n)) => n == words(s@).len() && n != 3,
            Err(Vector3Error::Number(e)) => words(s@).len() == 3 && exists|k: int|
                first_failure::<T>(words(s@), k, e),
        },
{
    let chars = chars_of(s);
    let ranges = split_whitespace(chars.as_slice());
    if ranges.len() != 3 {
        return Err(Vector3Error::WrongCount(ranges.len()));
    }
    let (from_x, to_x) = ranges[0];
    let (from_y, to_y) = ranges[1];
    let (from_z, to_z) = ranges[2];
    let x = match T::from_chars(slice_subrange(chars.as_slice(), from_x, to_x)) {
        Ok(v) => v,
        Err(e) => {
            assert(first_failure::<T>(words(s@), 0, e));
            return Err(Vector3Error::Number(e));
        },
    };
    let y = match T::from_chars(slice_subrange(chars.as_slice(), from_y, to_y)) {
        Ok(v) => v,
        Err(e) => {
            assert(first_failure::<T>(words(s@), 1, e));
            return Err(Vector3Error::Number(e));
        },
    };
    let z = match T::from_chars(slice_subrange(chars.as_slice(), from_z, to_z)) {
        Ok(v) => v,
        Err(e) => {
            assert(first_failure::<T>(words(s@), 2, e));
            return Err(Vector3Error::Number(e));
        },
    };
    let v = [x, y, z];
    assert forall|k: int| 0 <= k < 3 implies T::outcome(#[trigger] words(s@)[k]) == Ok::<
        T,
        NumberError,
    >(v@[k]) by {
        assert(k == 0 || k == 1 || k == 2);
    }
    Ok(v)
}

/// A member of a JSON object as the reader of scene attributes sees it: its
/// key, its text where its value is a string, and its value written as JSON.
#[derive(Debug, Clone)]
pub struct Field {
    pub key: String,
    pub text: Option<String>,
    pub json: String,
}

/// A member as a mathematical value.
pub struct FieldView {
    pub key: Seq<char>,
    pub text: Option<Seq<char>>,
    pub json: Seq<char>,
}

impl View for Field {
    type V = FieldView;

    open spec fn view(&self) -> FieldView {
        FieldView {
            key: self.key@,
            text: match self.text {
                Some(t) => Some(t@),
                None => None,
            },
            json: self.json@,
        }
    }
}

/// Why an attribute could not be taken from its member.
#[derive(Debug, Clone, Copy, PartialEq, Eq)]
pub enum FieldError<E> {
    /// The value of the member is no string.
    ExpectedString,
    /// The text of the member was refused, for the reason given.
    Parse(E),
}

/// The members `fields` as mathematical values.
pub open spec fn members_of(fields: Seq<Field>) -> Seq<FieldView> {
    fields.map_values(|f: Field| f@)
}

/// Whether `i` is the place of the member of `members` that has the key
/// `key`; of several the first counts.
pub open spec fn is_member(members: Seq<FieldView>, key: Seq<char>, i: int) -> bool {
    &&& 0 <= i < members.len()
    &&& members[i].key == key
    &&& forall|j: int| 0 <= j < i ==> (#[trigger] members[j]).key != key
}

/// Whether some member of `members` has the key `key`.
pub open spec fn has_member(members: Seq<FieldView>, key: Seq<char>) -> bool {
    exists|i: int| 0 <= i < members.len() && (#[trigger] members[i]).key == key
}

/// The place of the member of `members` that has the key `key`.
pub open spec fn member_place(members: Seq<FieldView>, key: Seq<char>) -> int {
    choose|i: int| is_member(members, key, i)
}

/// Whether `key` is among `keys`.
pub open spec fn has_key(keys: Seq<String>, key: Seq<char>) -> bool {
    exists|i: int| 0 <= i < keys.len() && (#[trigger] keys[i])@ == key
}

/// The keys of `members` that are not in `handled`, in the order of the
/// members.
pub open spec fn extra_keys(members: Seq<FieldView>, handled: Set<Seq<char>>) -> Seq<Seq<char>>
    decreases members.len(),
{
    if members.len() == 0 {
        Seq::empty()
    } else if handled.contains(members.last().key) {
        extra_keys(members.drop_last(), handled)
    } else {
        extra_keys(members.drop_last(), handled).push(members.last().key)
    }
}

/// Whether `parser` may give `out` for the text `text`.
pub open spec fn parsed_by<T, E, F: Fn(&str) -> Result<T, E>>(
    parser: F,
    text: Seq<char>,
    out: Result<T, E>,
) -> bool {
    exists|s: &str| s@ == text && #[trigger] call_ensures(parser, (s,), out)
}

/// Where some member has the key, one of them is the first that has it, and
/// no other place is.
pub proof fn lemma_member_place(members: Seq<FieldView>, key: Seq<char>)
    requires
        has_member(members, key),
    ensures
        is_member(members, key, member_place(members, key)),
        forall|i: int| is_member(members, key, i) ==> i == member_place(members, key),
    decreases members.len(),
{
    let shorter = members.drop_last();
    if has_member(shorter, key) {
        lemma_member_place(shorter, key);
        let i = member_place(shorter, key);
        assert forall|j: int| 0 <= j < i implies (#[trigger] members[j]).key != key by {
            assert(shorter[j] == members[j]);
        }
        assert(is_member(members, key, i));
    } else {
        let j = choose|j: int| 0 <= j < members.len() && (#[trigger] members[j]).key == key;
        if j < members.len() - 1 {
            assert(shorter[j].key == key);
        }
        assert forall|m: int| 0 <= m < j implies (#[trigger] members[m]).key != key by {
            assert(shorter[m] == members[m]);
        }
        assert(is_member(members, key, j));
    }
}

/// Tells whether `key` is among `keys`.
pub fn contains_key(keys: &Vec<String>, key: &str) -> (r: bool)
    ensures
        r == has_key(keys@, key@),
{
    let mut i: usize = 0;
    while i < keys.len()
        invariant
            i <= keys@.len(),
            forall|j: int| 0 <= j < i ==> (#[trigger] keys@[j])@ != key@,
        decreases keys@.len() - i,
    {
        if same_text(keys[i].as_str(), key) {
            return true;
        }
        i = i + 1;
    }
    false
}

/// Reads the attributes of a scene from the members of one JSON object, and
/// keeps the keys that were asked for and found.
#[derive(Debug, Clone)]
pub struct JsonHandler {
    pub fields: Vec<Field>,
    pub handled_keys: Vec<String>,
}

/// A reader as a mathematical value.
pub struct HandlerView {
    /// The members of the object.
    pub members: Seq<FieldView>,
    /// The keys that were asked for and found.
    pub handled: Set<Seq<char>>,
}

impl View for JsonHandler {
    type V = HandlerView;

    open spec fn view(&self) -> HandlerView {
        HandlerView {
            members: members_of(self.fields@),
            handled: Set::new(|key: Seq<char>| has_key(self.handled_keys@, key)),
        }
    }
}

impl JsonHandler {
    /// A reader of `fields` that has handled no key yet.
    pub fn new(fields: Vec<Field>) -> (handler: JsonHandler)
        ensures
            handler@.members == members_of(fields@),
            handler@.handled == Set::<Seq<char>>::empty(),
    {
        let handler = JsonHandler { fields, handled_keys: Vec::new() };
        assert(handler@.handled =~= Set::<Seq<char>>::empty());
        handler
    }

    /// The place of the member with the key `key`.
    pub fn find(&self, key: &str) -> (r: Option<usize>)
        ensures
            match r {
                Some(i) => is_member(self@.members, key@, i as int),
                None => !has_member(self@.members, key@),
            },
    {
        let mut i: usize = 0;
        while i < self.fields.len()
            invariant
                i <= self.fields@.len(),
                forall|j: int| 0 <= j < i ==> (#[trigger] self@.members[j]).key != key@,
            decreases self.fields@.len() - i,
        {
            if same_text(self.fields[i].key.as_str(), key) {
                assert(self@.members[i as int].key == key@);
                return Some(i);
            }
            assert(self@.members[i as int].key != key@);
            i = i + 1;
        }
        None
    }

    /// Counts `key` among the keys that were asked for and found.
    fn mark(&mut self, key: &str)
        ensures
            final(self)@.members == old(self)@.members,
            final(self)@.handled == old(self)@.handled.insert(key@),
    {
        let ghost before = self.handled_keys@;
        if !contains_key(&self.handled_keys, key) {
            let owned = key.to_owned();
            self.handled_keys.push(owned);
        }
        assert forall|k: Seq<char>| has_key(self.handled_keys@, k) <==> has_key(before, k) || k
            == key@ by {
            if has_key(before, k) {
                let i = choose|i: int| 0 <= i < before.len() && (#[trigger] before[i])@ == k;
                assert(self.handled_keys@[i]@ == k);
            }
            if k == key@ && !has_key(before, k) {
                assert(self.handled_keys@[before.len() as int]@ == k);
            }
            if has_key(self.handled_keys@, k) {
                let i = choose|i: int|
                    0 <= i < self.handled_keys@.len() && (#[trigger] self.handled_keys@[i])@ == k;
                if i < before.len() {
                    assert(before[i]@ == k);
                }
            }
        }
        assert(self@.handled =~= old(self)@.handled.insert(key@));
    }

    /// Takes the attribute `key` from its member, if there is one: its text
    /// is handed to `parser`, what `parser` makes of it is put into `data`,
    /// and the key counts as handled. Where the object has no such member
    /// nothing changes, and that is no error. Where the member holds no
    /// string, or `parser` refuses its text, nothing changes either, and the
    /// error says which of the two it was.
    pub fn get_optional<T, E, F: Fn(&str) -> Result<T, E>>(
        &mut self,
        data: &mut Option<T>,
        key: &str,
        parser: F,
    ) -> (r: Result<(), FieldError<E>>)
        requires
            forall|s: &str| call_requires(parser, (s,)),
        ensures
            final(self)@.members == old(self)@.members,
            !has_member(old(self)@.members, key@) ==> r is Ok && *final(data) == *old(data)
                && final(self)@.handled == old(self)@.handled,
            has_member(old(self)@.members, key@) ==> match old(self)@.members[member_place(
                old(self)@.members,
                key@,
            )].text {
                None => r == Err::<(), FieldError<E>>(FieldError::ExpectedString) && *final(data)
                    == *old(data) && final(self)@.handled == old(self)@.handled,
                Some(text) => match r {
                    Ok(_) => exists|v: T|
                        {
                            &&& #[trigger] parsed_by(parser, text, Ok::<T, E>(v))
                            &&& *final(data) == Some(v)
                            &&& final(self)@.handled == old(self)@.handled.insert(key@)
                        },
                    Err(FieldError::Parse(e)) => parsed_by(parser, text, Err::<T, E>(e))
                        && *final(data) == *old(data) && final(self)@.handled == old(self)@.handled,
                    Err(FieldError::ExpectedString) => false,
                },
            },
    {
        match self.find(key) {
            None => Ok(()),
            Some(i) => {
                proof {
                    assert(self@.members[i as int] == self.fields@[i as int]@);
                    assert(self@.members[i as int].key == key@);
                    lemma_member_place(self@.members, key@);
                    assert(member_place(self@.members, key@) == i);
                }
                let out = match &self.fields[i].text {
                    None => {
                        return Err(FieldError::ExpectedString);
                    },
                    Some(text) => {
                        let s: &str = text.as_str();
                        let out = parser(s);
                        assert(parsed_by(parser, text@, out));
                        out
                    },
                };
                match out {
                    Ok(v) => {
                        assert(parsed_by(parser, old(self)@.members[i as int].text->0, out));
                        *data = Some(v);
                        self.mark(key);
                        Ok(())
                    },
                    Err(e) => Err(FieldError::Parse(e)),
                }
            },
        }
    }

    /// The place of the member with the key `key`, for the caller to read
    /// what is inside it; the key then counts as handled.
    pub fn get_subobject(&mut self, key: &str) -> (r: Option<usize>)
        ensures
            final(self)@.members == old(self)@.members,
            match r {
                Some(i) => {
                    &&& is_member(old(self)@.members, key@, i as int)
                    &&& final(self)@.handled == old(self)@.handled.insert(key@)
                },
                None => !has_member(old(self)@.members, key@) && final(self)@.handled == old(self)@.handled,
            },
    {
        match self.find(key) {
            Some(i) => {
                self.mark(key);
                Some(i)
            },
            None => None,
        }
    }

    /// The keys of the members that nobody asked for, in the order of the
    /// members.
    pub fn warn_extra(&self) -> (extra: Vec<String>)
        ensures
            extra@.map_values(|k: String| k@) == extra_keys(self@.members, self@.handled),
    {
        let mut extra: Vec<String> = Vec::new();
        let mut i: usize = 0;
        let ghost members = self@.members;
        let ghost handled = self@.handled;
        assert(members.take(0) =~= Seq::<FieldView>::empty());
        while i < self.fields.len()
            invariant
                i <= self.fields@.len(),
                members == self@.members,
                handled == self@.handled,
                extra@.map_values(|k: String| k@) =~= extra_keys(members.take(i as int), handled),
            decreases self.fields@.len() - i,
        {
            assert(members.take(i + 1).drop_last() =~= members.take(i as int));
            assert(members.take(i + 1).last() == self.fields@[i as int]@);
            if !contains_key(&self.handled_keys, self.fields[i].key.as_str()) {
                let ghost before = extra@;
                extra.push(self.fields[i].key.clone());
                assert(extra@.map_values(|k: String| k@) =~= before.map_values(|k: String| k@).push(
                    self.fields@[i as int].key@,
                ));
            }
            i = i + 1;
        }
        assert(members.take(self.fields@.len() as int) =~= members);
        extra
    }
}

} // verus!

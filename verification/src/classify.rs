//! Classification of field values for schema inference: empty-after-trim
//! detection and the integer / float / boolean recognizers, tried in that
//! strict priority order.

use vstd::prelude::*;
use vstd::string::*;

verus! {

/// The inferred primitive type of a column.
#[derive(Clone, Copy, PartialEq, Eq, Structural)]
pub enum ColumnType {
    Text,
    Integer,
    Float,
    Boolean,
}

/// The label a schema reports for a column type.
pub open spec fn type_label(t: ColumnType) -> Seq<char> {
    match t {
        ColumnType::Text => "string"@,
        ColumnType::Integer => "integer"@,
        ColumnType::Float => "float"@,
        ColumnType::Boolean => "boolean"@,
    }
}

/// Builds the label string for a column type.
pub fn type_label_string(t: ColumnType) -> (r: String)
    ensures
        r@ == type_label(t),
{
    match t {
        ColumnType::Text => String::from_str("string"),
        ColumnType::Integer => String::from_str("integer"),
        ColumnType::Float => String::from_str("float"),
        ColumnType::Boolean => String::from_str("boolean"),
    }
}

/// Whitespace, as trimming understands it: the Unicode `White_Space` set.
pub open spec fn is_space(c: char) -> bool {
    let u = c as u32;
    ||| (0x09 <= u && u <= 0x0d)
    ||| u == 0x20
    ||| u == 0x85
    ||| u == 0xa0
    ||| u == 0x1680
    ||| (0x2000 <= u && u <= 0x200a)
    ||| u == 0x2028
    ||| u == 0x2029
    ||| u == 0x202f
    ||| u == 0x205f
    ||| u == 0x3000
}

/// A value that is empty once surrounding whitespace is trimmed: it counts as
/// null for the null ratio.
pub open spec fn spec_is_null(s: Seq<char>) -> bool {
    forall|i: int| 0 <= i < s.len() ==> is_space(#[trigger] s[i])
}

/// Whether one character is whitespace.
pub fn is_space_char(c: char) -> (b: bool)
    ensures
        b == is_space(c),
{
    let u = c as u32;
    (0x09 <= u && u <= 0x0d) || u == 0x20 || u == 0x85 || u == 0xa0 || u == 0x1680 || (0x2000 <= u
        && u <= 0x200a) || u == 0x2028 || u == 0x2029 || u == 0x202f || u == 0x205f || u == 0x3000
}

/// Whether the field is empty after trimming surrounding whitespace.
pub fn is_null_field(s: &str) -> (b: bool)
    ensures
        b == spec_is_null(s@),
{
    let n = s.unicode_len();
    let mut i: usize = 0;
    while i < n
        invariant
            i <= n,
            n == s@.len(),
            forall|j: int| 0 <= j < i ==> is_space(#[trigger] s@[j]),
        decreases n - i,
    {
        let c = s.get_char(i);
        if !is_space_char(c) {
            return false;
        }
        i += 1;
    }
    true
}

/// A decimal digit.
pub open spec fn is_digit(c: char) -> bool {
    0x30 <= c as u32 && c as u32 <= 0x39
}

/// The numeric value of a decimal digit.
pub open spec fn digit_val(c: char) -> int {
    c as u32 - 0x30
}

pub open spec fn all_digits(s: Seq<char>) -> bool {
    forall|i: int| 0 <= i < s.len() ==> is_digit(#[trigger] s[i])
}

/// The value of a string of decimal digits, most significant first.
pub open spec fn digits_value(s: Seq<char>) -> int
    decreases s.len(),
{
    if s.len() == 0 {
        0
    } else {
        digits_value(s.drop_last()) * 10 + digit_val(s.last())
    }
}

/// The part of a numeric literal after an optional leading sign.
pub open spec fn num_body(s: Seq<char>) -> Seq<char> {
    if s.len() > 0 && (s[0] == '+' || s[0] == '-') {
        s.skip(1)
    } else {
        s
    }
}

/// Whether a numeric literal carries a leading minus sign.
pub open spec fn num_negative(s: Seq<char>) -> bool {
    s.len() > 0 && s[0] == '-'
}

/// A base-10 signed integer that fits a 64-bit signed machine word: an
/// optional sign, then at least one digit, with the magnitude in range.
pub open spec fn spec_is_integer(s: Seq<char>) -> bool {
    let b = num_body(s);
    &&& b.len() > 0
    &&& all_digits(b)
    &&& (if num_negative(s) {
        digits_value(b) <= 0x8000000000000000
    } else {
        digits_value(b) < 0x8000000000000000
    })
}

proof fn lemma_digits_value_nonneg(s: Seq<char>)
    requires
        all_digits(s),
    ensures
        digits_value(s) >= 0,
    decreases s.len(),
{
    if s.len() > 0 {
        assert(all_digits(s.drop_last())) by {
            assert(forall|i: int| 0 <= i < s.len() - 1 ==> s.drop_last()[i] == s[i]);
        };
        lemma_digits_value_nonneg(s.drop_last());
    }
}

/// Whether the field parses as a base-10 signed 64-bit integer.
pub fn is_integer_field(s: &str) -> (b: bool)
    ensures
        b == spec_is_integer(s@),
{
    let n = s.unicode_len();
    let mut i: usize = 0;
    let mut neg = false;
    if n > 0 {
        let c0 = s.get_char(0);
        if c0 == '+' || c0 == '-' {
            i = 1;
            neg = c0 == '-';
        }
    }
    let ghost start = i as int;
    let ghost body = num_body(s@);
    proof {
        assert(body =~= s@.skip(start));
        assert(neg == num_negative(s@));
    }
    if i >= n {
        return false;
    }
    let mut acc: u64 = 0;
    let mut too_big = false;
    while i < n
        invariant
            start <= i <= n,
            n == s@.len(),
            body == s@.skip(start),
            body == num_body(s@),
            neg == num_negative(s@),
            0 <= start <= 1,
            all_digits(body.take(i - start)),
            !too_big ==> acc == digits_value(body.take(i - start)),
            too_big ==> digits_value(body.take(i - start)) > 0x8000000000000000,
        decreases n - i,
    {
        let c = s.get_char(i);
        let u = c as u32;
        if u < 0x30 || u > 0x39 {
            proof {
                assert(body[i - start] == s@[i as int]);
                assert(!is_digit(body[i - start]));
                assert(0 <= i - start < body.len());
                assert(!all_digits(body));
                assert(!spec_is_integer(s@));
            }
            return false;
        }
        let d = (u - 0x30) as u64;
        let ghost k = i - start;
        proof {
            assert(body.take(k + 1).drop_last() =~= body.take(k));
            assert(body.take(k + 1).last() == body[k]);
            assert(body[k] == s@[i as int]);
            assert(all_digits(body.take(k + 1))) by {
                assert(forall|j: int| 0 <= j < k ==> body.take(k + 1)[j] == body.take(k)[j]);
            };
        }
        if !too_big {
            if acc > 922337203685477580 {
                too_big = true;
                proof {
                    assert(digits_value(body.take(k + 1)) == acc * 10 + digit_val(body[k]));
                    assert(acc * 10 >= 9223372036854775810) by (nonlinear_arith)
                        requires acc >= 922337203685477581;
                }
            } else {
                acc = acc * 10 + d;
            }
        } else {
            proof {
                lemma_digits_value_nonneg(body.take(k));
                assert(digits_value(body.take(k + 1)) == digits_value(body.take(k)) * 10
                    + digit_val(body[k]));
                assert(digits_value(body.take(k)) * 10 > 0x8000000000000000 * 10)
                    by (nonlinear_arith)
                    requires digits_value(body.take(k)) > 0x8000000000000000;
            }
        }
        i += 1;
    }
    proof {
        assert(body.take(n - start) =~= body);
    }
    if too_big {
        false
    } else if neg {
        acc <= 9223372036854775808
    } else {
        acc <= 9223372036854775807
    }
}

/// The recognizer states for a decimal or exponential number.
#[derive(Clone, Copy, PartialEq, Eq, Structural)]
pub enum FloatSt {
    /// Nothing read yet (the sign is stripped beforehand).
    Start,
    /// Digits of the integer part.
    IntPart,
    /// A leading dot with no digits before it.
    DotOnly,
    /// Past the dot, or fraction digits.
    Frac,
    /// Just past `e` or `E`.
    ExpStart,
    /// Just past the exponent's sign.
    ExpSign,
    /// Digits of the exponent.
    ExpDigits,
    /// Not a number.
    Reject,
}

/// One character advances the number recognizer.
pub open spec fn float_step(st: FloatSt, c: char) -> FloatSt {
    let digit = is_digit(c);
    match st {
        FloatSt::Start => if digit {
            FloatSt::IntPart
        } else if c == '.' {
            FloatSt::DotOnly
        } else {
            FloatSt::Reject
        },
        FloatSt::IntPart => if digit {
            FloatSt::IntPart
        } else if c == '.' {
            FloatSt::Frac
        } else if c == 'e' || c == 'E' {
            FloatSt::ExpStart
        } else {
            FloatSt::Reject
        },
        FloatSt::DotOnly => if digit {
            FloatSt::Frac
        } else {
            FloatSt::Reject
        },
        FloatSt::Frac => if digit {
            FloatSt::Frac
        } else if c == 'e' || c == 'E' {
            FloatSt::ExpStart
        } else {
            FloatSt::Reject
        },
        FloatSt::ExpStart => if digit {
            FloatSt::ExpDigits
        } else if c == '+' || c == '-' {
            FloatSt::ExpSign
        } else {
            FloatSt::Reject
        },
        FloatSt::ExpSign => if digit {
            FloatSt::ExpDigits
        } else {
            FloatSt::Reject
        },
        FloatSt::ExpDigits => if digit {
            FloatSt::ExpDigits
        } else {
            FloatSt::Reject
        },
        FloatSt::Reject => FloatSt::Reject,
    }
}

pub open spec fn float_run(s: Seq<char>) -> FloatSt
    decreases s.len(),
{
    if s.len() == 0 {
        FloatSt::Start
    } else {
        float_step(float_run(s.drop_last()), s.last())
    }
}

/// The states in which the characters read so far form a complete number.
pub open spec fn float_accepting(st: FloatSt) -> bool {
    st is IntPart || st is Frac || st is ExpDigits
}

/// A decimal or exponential number: an optional sign, then digits with an
/// optional dot (`5`, `5.`, `.5`, `2.75`), optionally followed by an exponent
/// (`e` or `E`, an optional sign, and at least one digit).
pub open spec fn spec_is_float(s: Seq<char>) -> bool {
    float_accepting(float_run(num_body(s)))
}

/// Whether the field parses as a decimal or exponential number.
pub fn is_float_field(s: &str) -> (b: bool)
    ensures
        b == spec_is_float(s@),
{
    let n = s.unicode_len();
    let mut i: usize = 0;
    if n > 0 {
        let c0 = s.get_char(0);
        if c0 == '+' || c0 == '-' {
            i = 1;
        }
    }
    let ghost start = i as int;
    let ghost body = num_body(s@);
    proof {
        assert(body =~= s@.skip(start));
    }
    let mut st = FloatSt::Start;
    while i < n
        invariant
            start <= i <= n,
            n == s@.len(),
            body == s@.skip(start),
            body == num_body(s@),
            0 <= start <= 1,
            st == float_run(body.take(i - start)),
        decreases n - i,
    {
        let c = s.get_char(i);
        let ghost k = i - start;
        proof {
            assert(body.take(k + 1).drop_last() =~= body.take(k));
            assert(body.take(k + 1).last() == body[k]);
            assert(body[k] == s@[i as int]);
        }
        let digit = {
            let u = c as u32;
            0x30 <= u && u <= 0x39
        };
        st = match st {
            FloatSt::Start => if digit {
                FloatSt::IntPart
            } else if c == '.' {
                FloatSt::DotOnly
            } else {
                FloatSt::Reject
            },
            FloatSt::IntPart => if digit {
                FloatSt::IntPart
            } else if c == '.' {
                FloatSt::Frac
            } else if c == 'e' || c == 'E' {
                FloatSt::ExpStart
            } else {
                FloatSt::Reject
            },
            FloatSt::DotOnly => if digit {
                FloatSt::Frac
            } else {
                FloatSt::Reject
            },
            FloatSt::Frac => if digit {
                FloatSt::Frac
            } else if c == 'e' || c == 'E' {
                FloatSt::ExpStart
            } else {
                FloatSt::Reject
            },
            FloatSt::ExpStart => if digit {
                FloatSt::ExpDigits
            } else if c == '+' || c == '-' {
                FloatSt::ExpSign
            } else {
                FloatSt::Reject
            },
            FloatSt::ExpSign => if digit {
                FloatSt::ExpDigits
            } else {
                FloatSt::Reject
            },
            FloatSt::ExpDigits => if digit {
                FloatSt::ExpDigits
            } else {
                FloatSt::Reject
            },
            FloatSt::Reject => FloatSt::Reject,
        };
        i += 1;
    }
    proof {
        assert(body.take(n - start) =~= body);
    }
    match st {
        FloatSt::IntPart => true,
        FloatSt::Frac => true,
        FloatSt::ExpDigits => true,
        _ => false,
    }
}

/// Case-insensitive match of `c` against a lowercase ASCII letter.
pub open spec fn eq_ci(c: char, lower: char) -> bool {
    c as u32 == lower as u32 || c as u32 + 0x20 == lower as u32
}

/// A boolean: `true` or `false`, in any letter case.
pub open spec fn spec_is_boolean(s: Seq<char>) -> bool {
    ||| (s.len() == 4 && eq_ci(s[0], 't') && eq_ci(s[1], 'r') && eq_ci(s[2], 'u') && eq_ci(
        s[3],
        'e',
    ))
    ||| (s.len() == 5 && eq_ci(s[0], 'f') && eq_ci(s[1], 'a') && eq_ci(s[2], 'l') && eq_ci(
        s[3],
        's',
    ) && eq_ci(s[4], 'e'))
}

fn char_eq_ci(c: char, lower: char) -> (b: bool)
    ensures
        b == eq_ci(c, lower),
{
    let u = c as u32;
    let l = lower as u32;
    u == l || u + 0x20 == l
}

/// Whether the field is `true` or `false`, case-insensitively.
pub fn is_boolean_field(s: &str) -> (b: bool)
    ensures
        b == spec_is_boolean(s@),
{
    let n = s.unicode_len();
    if n == 4 {
        char_eq_ci(s.get_char(0), 't') && char_eq_ci(s.get_char(1), 'r') && char_eq_ci(
            s.get_char(2),
            'u',
        ) && char_eq_ci(s.get_char(3), 'e')
    } else if n == 5 {
        char_eq_ci(s.get_char(0), 'f') && char_eq_ci(s.get_char(1), 'a') && char_eq_ci(
            s.get_char(2),
            'l',
        ) && char_eq_ci(s.get_char(3), 's') && char_eq_ci(s.get_char(4), 'e')
    } else {
        false
    }
}

/// The classification of one non-null value, in strict priority order:
/// integer, then float, then boolean, else plain text.
pub open spec fn classify_value(s: Seq<char>) -> ColumnType {
    if spec_is_integer(s) {
        ColumnType::Integer
    } else if spec_is_float(s) {
        ColumnType::Float
    } else if spec_is_boolean(s) {
        ColumnType::Boolean
    } else {
        ColumnType::Text
    }
}

/// Classifies one non-null field value.
pub fn classify_field(s: &str) -> (t: ColumnType)
    ensures
        t == classify_value(s@),
{
    if is_integer_field(s) {
        ColumnType::Integer
    } else if is_float_field(s) {
        ColumnType::Float
    } else if is_boolean_field(s) {
        ColumnType::Boolean
    } else {
        ColumnType::Text
    }
}

} // verus!

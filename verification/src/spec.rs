//! What parsing a format string means, stated over sequences of characters.

use vstd::prelude::*;

use crate::text::byte_len;
use crate::types::{ConversionSpecifier, ConversionType, PrecisionParam, PrintfParseErrorKind, SpecFormatElement};

verus! {

/// An ASCII decimal digit.
pub open spec fn is_digit(c: char) -> bool {
    '0' <= c && c <= '9'
}

/// The value of a decimal digit.
pub open spec fn digit_value(c: char) -> int {
    (c as int) - ('0' as int)
}

/// Number of decimal digits at the start of `s`.
pub open spec fn leading_digits(s: Seq<char>) -> nat
    decreases s.len(),
{
    if s.len() > 0 && is_digit(s[0]) {
        1 + leading_digits(s.drop_first())
    } else {
        0
    }
}

/// The first `n` characters of `s` read as a decimal number.
pub open spec fn decimal_value(s: Seq<char>, n: int) -> int
    decreases n,
{
    if n <= 0 {
        0
    } else {
        10 * decimal_value(s, n - 1) + digit_value(s[n - 1])
    }
}

/// A precision literal: the low eight bits of the decimal number, as a cast to `u8` keeps them.
pub open spec fn precision_literal(s: Seq<char>, n: int) -> PrecisionParam {
    PrecisionParam::Literal((decimal_value(s, n) % 256) as u8)
}

/// The precision after a `.`: `*`, a run of digits, or nothing (which means 0);
/// with the number of characters it takes.
pub open spec fn spec_numeric_param(s: Seq<char>) -> (PrecisionParam, int) {
    if s.len() > 0 && s[0] == '*' {
        (PrecisionParam::FromArgument, 1)
    } else if s.len() > 0 && is_digit(s[0]) {
        (precision_literal(s, leading_digits(s) as int), leading_digits(s) as int)
    } else {
        (PrecisionParam::Literal(0), 0)
    }
}

/// The precision right after `%`: `.` and a numeric parameter, or at most three
/// digits, or nothing; with the number of characters it takes.
pub open spec fn spec_precision(s: Seq<char>) -> (PrecisionParam, int) {
    if s.len() > 0 && s[0] == '.' {
        let (p, n) = spec_numeric_param(s.drop_first());
        (p, n + 1)
    } else if s.len() > 0 && is_digit(s[0]) {
        let n: int = if leading_digits(s) < 3 { leading_digits(s) as int } else { 3 };
        (precision_literal(s, n), n)
    } else {
        (PrecisionParam::FromArgument, 0)
    }
}

/// The optional vector part `v2`, `v3` or `v4`, with the number of characters it takes.
pub open spec fn spec_vector_len(s: Seq<char>) -> Result<(Option<u8>, int), PrintfParseErrorKind> {
    if s.len() > 0 && s[0] == 'v' {
        if s.len() < 2 {
            Err(PrintfParseErrorKind::NoVectorLengthSpecified)
        } else if s[1] == '2' {
            Ok((Some(2u8), 2))
        } else if s[1] == '3' {
            Ok((Some(3u8), 2))
        } else if s[1] == '4' {
            Ok((Some(4u8), 2))
        } else {
            Err(PrintfParseErrorKind::InvalidVectorLength(s[1]))
        }
    } else {
        Ok((None, 0))
    }
}

/// The conversion type that a single character names, if any.
pub open spec fn conversion_type_of(c: char) -> Option<ConversionType> {
    if c == 'i' || c == 'd' || c == 'u' {
        Some(ConversionType::DecInt)
    } else if c == 'o' {
        Some(ConversionType::OctInt)
    } else if c == 'x' {
        Some(ConversionType::HexIntLower)
    } else if c == 'X' {
        Some(ConversionType::HexIntUpper)
    } else if c == 'a' || c == 'A' || c == 'f' {
        Some(ConversionType::DecFloatLower)
    } else if c == 'e' {
        Some(ConversionType::SciFloatLower)
    } else if c == 'E' {
        Some(ConversionType::SciFloatUpper)
    } else if c == 'F' {
        Some(ConversionType::DecFloatUpper)
    } else if c == 'g' {
        Some(ConversionType::CompactFloatLower)
    } else if c == 'G' {
        Some(ConversionType::CompactFloatUpper)
    } else if c == 'p' {
        Some(ConversionType::Pointer)
    } else if c == '%' {
        Some(ConversionType::PercentSign)
    } else {
        None
    }
}

/// The conversion type token (`ul`, `lu`, `lx` or one character), with the number of
/// characters it takes.
pub open spec fn spec_conversion_type(s: Seq<char>) -> Result<(ConversionType, int), PrintfParseErrorKind> {
    if s.len() >= 2 && ((s[0] == 'u' && s[1] == 'l') || (s[0] == 'l' && s[1] == 'u')) {
        Ok((ConversionType::DecInt, 2))
    } else if s.len() >= 2 && s[0] == 'l' && s[1] == 'x' {
        Ok((ConversionType::HexIntLower, 2))
    } else if s.len() == 0 {
        Err(PrintfParseErrorKind::NoSpecifierAfterPercent)
    } else {
        match conversion_type_of(s[0]) {
            Some(t) => Ok((t, 1)),
            None => Err(PrintfParseErrorKind::InvalidFormatSpecifier(s[0])),
        }
    }
}

/// The precision a conversion type has when none is written (as in C's `printf`):
/// 1 for the integer types, 6 for the floating-point types; `%` and `p` take none, written 0.
pub open spec fn default_precision(t: ConversionType) -> u8 {
    match t {
        ConversionType::DecInt | ConversionType::OctInt | ConversionType::HexIntLower
        | ConversionType::HexIntUpper => 1,
        ConversionType::SciFloatLower | ConversionType::SciFloatUpper
        | ConversionType::DecFloatLower | ConversionType::DecFloatUpper
        | ConversionType::CompactFloatLower | ConversionType::CompactFloatUpper => 6,
        ConversionType::PercentSign | ConversionType::Pointer => 0,
    }
}

/// The precision of a parsed specifier: a literal as written, or else the default of its
/// conversion type.
pub open spec fn resolve_precision(p: PrecisionParam, t: ConversionType) -> PrecisionParam {
    match p {
        PrecisionParam::Literal(v) => PrecisionParam::Literal(v),
        PrecisionParam::FromArgument => PrecisionParam::Literal(default_precision(t)),
    }
}

/// A whole conversion specifier at the start of `s` (the text after `%`):
/// precision, optional vector length, conversion type; with the number of characters it takes.
/// Where no literal precision is written (nothing, or `.*`), the conversion type's default
/// precision is filled in, so a parsed specifier always holds a literal precision.
pub open spec fn spec_take_conversion_specifier(s: Seq<char>) -> Result<
    (ConversionSpecifier, int),
    PrintfParseErrorKind,
> {
    let (precision, a) = spec_precision(s);
    let t = s.skip(a);
    match spec_vector_len(t) {
        Err(k) => Err(k),
        Ok((vector_len, b)) => match spec_conversion_type(t.skip(b)) {
            Err(k) => Err(k),
            Ok((conversion_type, c)) => Ok(
                (
                    ConversionSpecifier {
                        precision: resolve_precision(precision, conversion_type),
                        conversion_type,
                        vector_len,
                    },
                    a + b + c,
                ),
            ),
        },
    }
}

/// The whitespace characters of `char::is_ascii_whitespace`.
pub open spec fn is_ascii_whitespace(c: char) -> bool {
    c == ' ' || c == '\t' || c == '\n' || c == '\x0C' || c == '\r'
}

/// Index of the first ASCII whitespace character of `s`, or its length if there is none.
pub open spec fn first_whitespace(s: Seq<char>) -> nat
    decreases s.len(),
{
    if s.len() == 0 || is_ascii_whitespace(s[0]) {
        0
    } else {
        1 + first_whitespace(s.drop_first())
    }
}

/// Length in bytes of a specifier in an error report: up to the first ASCII whitespace.
pub open spec fn specifier_span(s: Seq<char>) -> nat {
    byte_len(s.take(first_whitespace(s) as int))
}

/// Index of the first `%` of `s`, if any.
pub open spec fn find_percent(s: Seq<char>) -> Option<int>
    decreases s.len(),
{
    if s.len() == 0 {
        None
    } else if s[0] == '%' {
        Some(0)
    } else {
        match find_percent(s.drop_first()) {
            Some(k) => Some(k + 1),
            None => None,
        }
    }
}

/// Parses `rem`, the part of a format string that starts `base` bytes into it.
/// Errors carry the kind, the byte offset just past the `%` of the offending specifier
/// (truncated to `u32`) and the specifier's span in bytes (truncated to `u32`).
pub open spec fn spec_parse_from(rem: Seq<char>, base: int) -> Result<
    Seq<SpecFormatElement>,
    (PrintfParseErrorKind, u32, u32),
>
    decreases rem.len(),
{
    if rem.len() == 0 {
        Ok(Seq::empty())
    } else {
        match find_percent(rem) {
            None => Ok(seq![SpecFormatElement::Verbatim(rem)]),
            Some(p) => {
                let rest = rem.skip(p + 1);
                let offset = (base + byte_len(rem.take(p + 1))) as u32;
                let length = specifier_span(rest) as u32;
                let head = if p == 0 {
                    Seq::empty()
                } else {
                    seq![SpecFormatElement::Verbatim(rem.take(p))]
                };
                if rest.len() == 0 {
                    Err((PrintfParseErrorKind::NoSpecifierAfterPercent, offset, length))
                } else {
                    match spec_take_conversion_specifier(rest) {
                        Err(k) => Err((k, offset, length)),
                        Ok((spec, n)) => {
                            proof {
                                lemma_find_percent(rem);
                                lemma_take_conversion_specifier_len(rest);
                            }
                            match spec_parse_from(
                                rest.skip(n),
                                base + byte_len(rem.take(p + 1 + n)),
                            ) {
                                Ok(tail) => Ok(head + seq![SpecFormatElement::Format(spec)] + tail),
                                Err(e) => Err(e),
                            }
                        },
                    }
                }
            },
        }
    }
}

/// The result of parsing the whole format string `s`.
pub open spec fn spec_parse_format_string(s: Seq<char>) -> Result<
    Seq<SpecFormatElement>,
    (PrintfParseErrorKind, u32, u32),
> {
    spec_parse_from(s, 0)
}

/// `find_percent` finds the first `%`.
pub proof fn lemma_find_percent(s: Seq<char>)
    ensures
        match find_percent(s) {
            Some(p) => 0 <= p < s.len() && s[p] == '%' && forall|j: int| 0 <= j < p ==> s[j] != '%',
            None => forall|j: int| 0 <= j < s.len() ==> s[j] != '%',
        },
    decreases s.len(),
{
    if s.len() > 0 && s[0] != '%' {
        lemma_find_percent(s.drop_first());
        match find_percent(s.drop_first()) {
            Some(k) => {
                assert forall|j: int| 0 <= j < k + 1 implies s[j] != '%' by {
                    if j > 0 {
                        assert(s[j] == s.drop_first()[j - 1]);
                    }
                }
            },
            None => {
                assert forall|j: int| 0 <= j < s.len() implies s[j] != '%' by {
                    if j > 0 {
                        assert(s[j] == s.drop_first()[j - 1]);
                    }
                }
            },
        }
    }
}

/// All characters counted by `leading_digits` are digits, and it never exceeds the length.
pub proof fn lemma_leading_digits(s: Seq<char>)
    ensures
        leading_digits(s) <= s.len(),
        forall|j: int| 0 <= j < leading_digits(s) ==> is_digit(#[trigger] s[j]),
        leading_digits(s) < s.len() ==> !is_digit(s[leading_digits(s) as int]),
    decreases s.len(),
{
    if s.len() > 0 && is_digit(s[0]) {
        lemma_leading_digits(s.drop_first());
        assert forall|j: int| 0 <= j < leading_digits(s) implies is_digit(#[trigger] s[j]) by {
            if j > 0 {
                assert(s[j] == s.drop_first()[j - 1]);
            }
        }
        if leading_digits(s) < s.len() {
            assert(s[leading_digits(s) as int] == s.drop_first()[leading_digits(s) - 1]);
        }
    }
}

/// A specifier that parses takes at least one and at most all characters.
pub proof fn lemma_take_conversion_specifier_len(s: Seq<char>)
    ensures
        spec_take_conversion_specifier(s) matches Ok((_, n)) ==> 1 <= n <= s.len(),
{
    lemma_leading_digits(s);
    if s.len() > 0 {
        lemma_leading_digits(s.drop_first());
    }
}

/// `first_whitespace` finds the first ASCII whitespace character.
pub proof fn lemma_first_whitespace(s: Seq<char>)
    ensures
        first_whitespace(s) <= s.len(),
        forall|j: int| 0 <= j < first_whitespace(s) ==> !is_ascii_whitespace(#[trigger] s[j]),
        first_whitespace(s) < s.len() ==> is_ascii_whitespace(s[first_whitespace(s) as int]),
    decreases s.len(),
{
    if s.len() > 0 && !is_ascii_whitespace(s[0]) {
        lemma_first_whitespace(s.drop_first());
        assert forall|j: int| 0 <= j < first_whitespace(s) implies !is_ascii_whitespace(
            #[trigger] s[j],
        ) by {
            if j > 0 {
                assert(s[j] == s.drop_first()[j - 1]);
            }
        }
        if first_whitespace(s) < s.len() {
            assert(s[first_whitespace(s) as int] == s.drop_first()[first_whitespace(s) - 1]);
        }
    }
}

/// Elements already parsed, followed by the result of parsing the rest.
pub open spec fn prepend_elements(
    done: Seq<SpecFormatElement>,
    r: Result<Seq<SpecFormatElement>, (PrintfParseErrorKind, u32, u32)>,
) -> Result<Seq<SpecFormatElement>, (PrintfParseErrorKind, u32, u32)> {
    match r {
        Ok(tail) => Ok(done + tail),
        Err(e) => Err(e),
    }
}

/// Adding parsed elements in two steps is adding them at once.
pub proof fn lemma_prepend_elements_assoc(
    a: Seq<SpecFormatElement>,
    b: Seq<SpecFormatElement>,
    r: Result<Seq<SpecFormatElement>, (PrintfParseErrorKind, u32, u32)>,
)
    ensures
        prepend_elements(a, prepend_elements(b, r)) == prepend_elements(a + b, r),
        prepend_elements(Seq::empty(), r) == r,
{
    if let Ok(t) = r {
        assert(a + (b + t) =~= (a + b) + t);
        assert(Seq::<SpecFormatElement>::empty() + t =~= t);
    }
}

} // verus!

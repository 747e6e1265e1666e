//! The parser: from a format string to its segments.

use vstd::prelude::*;
use vstd::arithmetic::div_mod::{lemma_add_mod_noop, lemma_mul_mod_noop_right};

use crate::spec::{
    conversion_type_of, decimal_value, default_precision, digit_value, find_percent, first_whitespace,
    is_ascii_whitespace, is_digit, leading_digits, lemma_find_percent, lemma_first_whitespace,
    lemma_leading_digits, lemma_prepend_elements_assoc, lemma_take_conversion_specifier_len,
    prepend_elements, spec_conversion_type, spec_numeric_param, spec_parse_format_string,
    spec_parse_from, spec_precision, spec_take_conversion_specifier, spec_vector_len, specifier_span,
};
use crate::laws::{lemma_parse_wf, wf_elements};
use crate::text::{
    byte_len, byte_len_of_range, char_utf8_len, chars_of, lemma_byte_len_extend, lemma_byte_len_split,
};
use crate::types::{
    ConversionSpecifier, ConversionType, FormatElement, PrecisionParam, PrintfParseError,
    PrintfParseErrorKind, PrintfString, SpecFormatElement,
};

verus! {

/// Appending a digit to a number and then keeping the low eight bits is the same as
/// appending it to the low eight bits.
proof fn lemma_decimal_step_mod(v: int, d: int)
    ensures
        (10 * (v % 256) + d) % 256 == (10 * v + d) % 256,
{
    lemma_add_mod_noop(10 * (v % 256), d, 256);
    lemma_add_mod_noop(10 * v, d, 256);
    lemma_mul_mod_noop_right(10, v, 256);
}

fn char_is_digit(c: char) -> (r: bool)
    ensures
        r == is_digit(c),
{
    '0' <= c && c <= '9'
}

/// Reads at most `limit` decimal digits from position `start`; returns the low eight bits
/// of their value and how many were read.
fn read_decimal(cs: &Vec<char>, start: usize, limit: usize) -> (r: (u8, usize))
    requires
        start <= cs.len(),
    ensures
        ({
            let t = cs@.skip(start as int);
            let n: int = if leading_digits(t) < limit {
                leading_digits(t) as int
            } else {
                limit as int
            };
            r.1 == n && r.0 == (decimal_value(t, n) % 256) as u8
        }),
{
    let ghost t = cs@.skip(start as int);
    proof {
        lemma_leading_digits(t);
    }
    let mut w: u32 = 0;
    let mut k: usize = start;
    while k < cs.len() && k - start < limit && char_is_digit(cs[k])
        invariant
            start <= k <= cs.len(),
            k - start <= limit,
            t == cs@.skip(start as int),
            t.len() == cs.len() - start,
            w < 256,
            w == decimal_value(t, k - start) % 256,
            forall|j: int| 0 <= j < k - start ==> is_digit(#[trigger] t[j]),
        decreases cs.len() - k,
    {
        assert(t[k - start] == cs@[k as int]);
        let d = (cs[k] as u32) - ('0' as u32);
        proof {
            lemma_decimal_step_mod(decimal_value(t, k - start), d as int);
            assert(digit_value(t[k - start]) == d);
        }
        w = (w * 10 + d) % 256;
        k = k + 1;
    }
    proof {
        let m = leading_digits(t);
        if k < cs.len() {
            assert(t[k - start] == cs@[k as int]);
        }
        if (m as int) < k - start {
            assert(is_digit(t[m as int]));
        }
    }
    ((w as u8), k - start)
}

/// The numeric parameter at `start` (the text after a `.`): the precision and how many
/// characters it takes.
fn numeric_param_at(cs: &Vec<char>, start: usize) -> (r: (PrecisionParam, usize))
    requires
        start <= cs.len(),
    ensures
        (r.0, r.1 as int) == spec_numeric_param(cs@.skip(start as int)),
        r.1 <= cs.len() - start,
{
    let ghost t = cs@.skip(start as int);
    proof {
        lemma_leading_digits(t);
    }
    if start < cs.len() && cs[start] == '*' {
        (PrecisionParam::FromArgument, 1)
    } else if start < cs.len() && char_is_digit(cs[start]) {
        let (w, n) = read_decimal(cs, start, cs.len());
        (PrecisionParam::Literal(w), n)
    } else {
        (PrecisionParam::Literal(0), 0)
    }
}

/// The precision right after `%` at `start`, and how many characters it takes.
fn precision_at(cs: &Vec<char>, start: usize) -> (r: (PrecisionParam, usize))
    requires
        start <= cs.len(),
    ensures
        (r.0, r.1 as int) == spec_precision(cs@.skip(start as int)),
        r.1 <= cs.len() - start,
{
    let ghost t = cs@.skip(start as int);
    proof {
        lemma_leading_digits(t);
    }
    if start < cs.len() && cs[start] == '.' {
        assert(cs@.skip(start + 1) =~= t.drop_first());
        let (p, n) = numeric_param_at(cs, start + 1);
        (p, n + 1)
    } else if start < cs.len() && char_is_digit(cs[start]) {
        let (w, n) = read_decimal(cs, start, 3);
        (PrecisionParam::Literal(w), n)
    } else {
        (PrecisionParam::FromArgument, 0)
    }
}

/// The optional vector part at `start`, and how many characters it takes.
fn vector_len_at(cs: &Vec<char>, start: usize) -> (r: Result<(Option<u8>, usize), PrintfParseErrorKind>)
    requires
        start <= cs.len(),
    ensures
        spec_vector_len(cs@.skip(start as int)) == match r {
            Ok((v, n)) => Ok((v, n as int)),
            Err(k) => Err(k),
        },
{
    let ghost t = cs@.skip(start as int);
    if start < cs.len() && cs[start] == 'v' {
        if start + 1 >= cs.len() {
            Err(PrintfParseErrorKind::NoVectorLengthSpecified)
        } else {
            assert(t[1] == cs@[start + 1]);
            let c = cs[start + 1];
            if c == '2' {
                Ok((Some(2), 2))
            } else if c == '3' {
                Ok((Some(3), 2))
            } else if c == '4' {
                Ok((Some(4), 2))
            } else {
                Err(PrintfParseErrorKind::InvalidVectorLength(c))
            }
        }
    } else {
        Ok((None, 0))
    }
}

/// The conversion type that a single character names, if any.
fn conversion_type_of_char(c: char) -> (r: Option<ConversionType>)
    ensures
        r == conversion_type_of(c),
{
    match c {
        'i' | 'd' | 'u' => Some(ConversionType::DecInt),
        'o' => Some(ConversionType::OctInt),
        'x' => Some(ConversionType::HexIntLower),
        'X' => Some(ConversionType::HexIntUpper),
        // treat 'a'/'A' as floats (hex-float), map to float family
        'a' | 'A' | 'f' => Some(ConversionType::DecFloatLower),
        'e' => Some(ConversionType::SciFloatLower),
        'E' => Some(ConversionType::SciFloatUpper),
        'F' => Some(ConversionType::DecFloatUpper),
        'g' => Some(ConversionType::CompactFloatLower),
        'G' => Some(ConversionType::CompactFloatUpper),
        'p' => Some(ConversionType::Pointer),
        '%' => Some(ConversionType::PercentSign),
        _ => None,
    }
}

/// The conversion type token at `start`, and how many characters it takes.
fn conversion_type_at(cs: &Vec<char>, start: usize) -> (r: Result<(ConversionType, usize), PrintfParseErrorKind>)
    requires
        start <= cs.len(),
    ensures
        spec_conversion_type(cs@.skip(start as int)) == match r {
            Ok((c, n)) => Ok((c, n as int)),
            Err(k) => Err(k),
        },
{
    let ghost t = cs@.skip(start as int);
    if start < cs.len() && cs.len() - start > 1 {
        assert(t[0] == cs@[start as int] && t[1] == cs@[start + 1]);
        let c0 = cs[start];
        let c1 = cs[start + 1];
        if (c0 == 'u' && c1 == 'l') || (c0 == 'l' && c1 == 'u') {
            return Ok((ConversionType::DecInt, 2));
        } else if c0 == 'l' && c1 == 'x' {
            return Ok((ConversionType::HexIntLower, 2));
        }
    }
    if start >= cs.len() {
        Err(PrintfParseErrorKind::NoSpecifierAfterPercent)
    } else {
        assert(t[0] == cs@[start as int]);
        let c = cs[start];
        match conversion_type_of_char(c) {
            Some(ty) => Ok((ty, 1)),
            None => Err(PrintfParseErrorKind::InvalidFormatSpecifier(c)),
        }
    }
}

/// The conversion specifier at `start` (just past a `%`), and how many characters it takes.
fn conversion_specifier_at(cs: &Vec<char>, start: usize) -> (r: Result<
    (ConversionSpecifier, usize),
    PrintfParseErrorKind,
>)
    requires
        start <= cs.len(),
    ensures
        spec_take_conversion_specifier(cs@.skip(start as int)) == match r {
            Ok((c, n)) => Ok((c, n as int)),
            Err(k) => Err(k),
        },
{
    let ghost t = cs@.skip(start as int);
    let (precision, a) = precision_at(cs, start);
    proof {
        lemma_leading_digits(t);
        if t.len() > 0 {
            lemma_leading_digits(t.drop_first());
        }
        assert(cs@.skip(start + a) =~= t.skip(a as int));
    }
    let (vector_len, b) = match vector_len_at(cs, start + a) {
        Ok(found) => found,
        Err(k) => {
            return Err(k);
        },
    };
    assert(cs@.skip(start + a + b) =~= t.skip(a as int).skip(b as int));
    match conversion_type_at(cs, start + a + b) {
        Ok((conversion_type, c)) => {
            let precision = match precision {
                PrecisionParam::Literal(v) => PrecisionParam::Literal(v),
                PrecisionParam::FromArgument => PrecisionParam::Literal(
                    default_precision_of(conversion_type),
                ),
            };
            Ok((ConversionSpecifier { precision, conversion_type, vector_len }, a + b + c))
        },
        Err(k) => Err(k),
    }
}

/// The precision a conversion type has when none is written.
fn default_precision_of(t: ConversionType) -> (r: u8)
    ensures
        r == default_precision(t),
{
    match t {
        ConversionType::DecInt | ConversionType::OctInt | ConversionType::HexIntLower
        | ConversionType::HexIntUpper => 1,
        ConversionType::SciFloatLower | ConversionType::SciFloatUpper
        | ConversionType::DecFloatLower | ConversionType::DecFloatUpper
        | ConversionType::CompactFloatLower | ConversionType::CompactFloatUpper => 6,
        ConversionType::PercentSign | ConversionType::Pointer => 0,
    }
}

fn char_is_ascii_whitespace(c: char) -> (r: bool)
    ensures
        r == is_ascii_whitespace(c),
{
    c == ' ' || c == '\t' || c == '\n' || c == '\x0C' || c == '\r'
}

/// Byte length of the specifier starting at `start`, as error reports give it: up to the
/// first ASCII whitespace character.
fn span_at(cs: &Vec<char>, start: usize) -> (r: usize)
    requires
        start <= cs.len(),
        byte_len(cs@) <= usize::MAX,
    ensures
        r == specifier_span(cs@.skip(start as int)),
{
    let ghost t = cs@.skip(start as int);
    proof {
        lemma_first_whitespace(t);
    }
    let mut k = start;
    while k < cs.len() && !char_is_ascii_whitespace(cs[k])
        invariant
            start <= k <= cs.len(),
            t == cs@.skip(start as int),
            forall|j: int| 0 <= j < k - start ==> !is_ascii_whitespace(#[trigger] t[j]),
        decreases cs.len() - k,
    {
        assert(t[k - start] == cs@[k as int]);
        k = k + 1;
    }
    proof {
        let m = first_whitespace(t);
        if k < cs.len() {
            assert(t[k - start] == cs@[k as int]);
        }
        if (m as int) < k - start {
            assert(!is_ascii_whitespace(t[m as int]));
        }
        lemma_byte_len_split(cs@, start as int, k - start);
    }
    byte_len_of_range(cs, start, k)
}

/// Parses the segments at character `i` of `cs` up to and including the next conversion
/// specifier (or to the end), appending them to `res`. Returns where parsing goes on, in
/// characters and in bytes.
fn next_segment(
    fmt: &str,
    cs: &Vec<char>,
    i: usize,
    base: usize,
    res: &mut Vec<FormatElement>,
) -> (r: Result<(usize, usize), PrintfParseError>)
    requires
        cs@ == fmt@,
        i < cs.len(),
        byte_len(cs@) <= usize::MAX,
        base == byte_len(cs@.take(i as int)),
    ensures
        match r {
            Ok((i2, b2)) => {
                &&& i < i2 <= cs.len()
                &&& b2 == byte_len(cs@.take(i2 as int))
                &&& prepend_elements(
                    old(res)@.map_values(|e: FormatElement| e@),
                    spec_parse_from(cs@.skip(i as int), base as int),
                ) == prepend_elements(
                    final(res)@.map_values(|e: FormatElement| e@),
                    spec_parse_from(cs@.skip(i2 as int), b2 as int),
                )
            },
            Err(e) => spec_parse_from(cs@.skip(i as int), base as int) == Err::<
                Seq<SpecFormatElement>,
                (PrintfParseErrorKind, u32, u32),
            >(e@),
        },
{
    let ghost rem = cs@.skip(i as int);
    let ghost done = res@.map_values(|e: FormatElement| e@);
    proof {
        lemma_find_percent(rem);
    }
    // find the next '%'
    let mut j = i;
    let mut jb = base;
    while j < cs.len() && cs[j] != '%'
        invariant
            i <= j <= cs.len(),
            rem == cs@.skip(i as int),
            byte_len(cs@) <= usize::MAX,
            jb == byte_len(cs@.take(j as int)),
            forall|k: int| 0 <= k < j - i ==> #[trigger] rem[k] != '%',
        decreases cs.len() - j,
    {
        proof {
            lemma_byte_len_extend(cs@, 0, j as int);
            assert(cs@.subrange(0, j as int) =~= cs@.take(j as int));
            assert(cs@.subrange(0, j + 1) =~= cs@.take(j + 1));
            assert(rem[j - i] == cs@[j as int]);
        }
        jb = jb + char_utf8_len(cs[j]);
        j = j + 1;
    }
    if j == cs.len() {
        // no '%' left: the rest is literal text
        proof {
            if let Some(p) = find_percent(rem) {
                assert(rem[p] == '%');
            }
            assert(rem =~= cs@.subrange(i as int, j as int));
        }
        let text = fmt.substring_char(i, j).to_owned();
        res.push(FormatElement::Verbatim(text));
        proof {
            let nd = res@.map_values(|e: FormatElement| e@);
            assert(nd =~= done + seq![SpecFormatElement::Verbatim(rem)]);
            assert(cs@.skip(j as int) =~= Seq::<char>::empty());
            lemma_prepend_elements_assoc(done, seq![SpecFormatElement::Verbatim(rem)], Ok(Seq::empty()));
            lemma_prepend_elements_assoc(nd, Seq::empty(), Ok(Seq::empty()));
            assert(seq![SpecFormatElement::Verbatim(rem)] + Seq::<SpecFormatElement>::empty() =~= seq![SpecFormatElement::Verbatim(rem)]);
            assert(nd + Seq::<SpecFormatElement>::empty() =~= nd);
        }
        return Ok((j, jb));
    }
    let ghost p = (j - i) as int;
    proof {
        assert(rem[p] == cs@[j as int]);
        let q = find_percent(rem)->0;
        if q < p {
            assert(rem[q] == '%');
        }
        assert(find_percent(rem) == Some(p));
    }
    let ghost head = if p == 0 {
        Seq::<SpecFormatElement>::empty()
    } else {
        seq![SpecFormatElement::Verbatim(rem.take(p))]
    };
    if j > i {
        let text = fmt.substring_char(i, j).to_owned();
        res.push(FormatElement::Verbatim(text));
        assert(rem.take(p) =~= cs@.subrange(i as int, j as int));
    }
    let ghost done2 = res@.map_values(|e: FormatElement| e@);
    assert(done2 =~= done + head);
    proof {
        lemma_byte_len_extend(cs@, 0, j as int);
        assert(cs@.subrange(0, j as int) =~= cs@.take(j as int));
        assert(cs@.subrange(0, j + 1) =~= cs@.take(j + 1));
        crate::text::lemma_byte_len_single('%');
        lemma_byte_len_split(cs@, i as int, p + 1);
        lemma_byte_len_split(cs@, 0, i as int);
        assert(cs@.subrange(0, i as int) =~= cs@.take(i as int));
    }
    // '%' takes one byte
    let offset = jb + 1;
    let start = j + 1;
    let ghost rest = rem.skip(p + 1);
    assert(rest =~= cs@.skip(start as int));
    assert(offset == base + byte_len(rem.take(p + 1)));
    if start == cs.len() {
        let len = span_at(cs, start);
        return Err(
            PrintfParseError::new(PrintfParseErrorKind::NoSpecifierAfterPercent, offset as u32, len as u32),
        );
    }
    match conversion_specifier_at(cs, start) {
        Err(kind) => {
            let len = span_at(cs, start);
            Err(PrintfParseError::new(kind, offset as u32, len as u32))
        },
        Ok((spec, n)) => {
            proof {
                lemma_take_conversion_specifier_len(rest);
                lemma_byte_len_split(cs@, start as int, n as int);
                lemma_byte_len_split(cs@, i as int, p + 1 + n);
                lemma_byte_len_split(cs@, 0, start as int);
                assert(cs@.subrange(0, start as int) =~= cs@.take(start as int));
                assert(rest.skip(n as int) =~= cs@.skip(start + n));
            }
            res.push(FormatElement::Format(spec));
            let consumed = byte_len_of_range(cs, start, start + n);
            proof {
                let nd = res@.map_values(|e: FormatElement| e@);
                let added = head + seq![SpecFormatElement::Format(spec)];
                assert(nd =~= done + added);
                lemma_prepend_elements_assoc(
                    done,
                    added,
                    spec_parse_from(cs@.skip(start + n), (offset + consumed) as int),
                );
            }
            Ok((start + n, offset + consumed))
        },
    }
}

/// Parses a Vulkan debugPrintf style format string into elements.
/// Accepts a precision right after `%` (or `.` and a precision), an optional `vN` vector,
/// and a conversion type (one character, or `ul`, `lu`, `lx`).
pub fn parse_format_string(fmt: &str) -> (r: Result<PrintfString, PrintfParseError>)
    ensures
        match spec_parse_format_string(fmt@) {
            Ok(elements) => r matches Ok(s) && s@ == elements,
            Err(e) => r matches Err(err) && err@ == e,
        },
        r matches Ok(s) ==> wf_elements(s@),
{
    proof {
        lemma_parse_wf(fmt@);
    }
    let cs = chars_of(fmt);
    let total = fmt.as_bytes().len();
    let mut res: Vec<FormatElement> = Vec::new();
    let mut i: usize = 0;
    let mut base: usize = 0;
    proof {
        assert(cs@.skip(0) =~= cs@);
        assert(cs@.take(0) =~= Seq::<char>::empty());
        assert(res@.map_values(|e: FormatElement| e@) =~= Seq::empty());
        lemma_prepend_elements_assoc(Seq::empty(), Seq::empty(), spec_parse_from(cs@, 0));
    }
    while i < cs.len()
        invariant
            cs@ == fmt@,
            total == byte_len(cs@),
            i <= cs.len(),
            base == byte_len(cs@.take(i as int)),
            spec_parse_from(cs@, 0) == prepend_elements(
                res@.map_values(|e: FormatElement| e@),
                spec_parse_from(cs@.skip(i as int), base as int),
            ),
        decreases cs.len() - i,
    {
        match next_segment(fmt, &cs, i, base, &mut res) {
            Ok((i2, b2)) => {
                i = i2;
                base = b2;
            },
            Err(e) => {
                return Err(e);
            },
        }
    }
    proof {
        assert(cs@.skip(i as int) =~= Seq::<char>::empty());
        let d = res@.map_values(|e: FormatElement| e@);
        assert(d + Seq::<SpecFormatElement>::empty() =~= d);
    }
    Ok(PrintfString::from_elements(res))
}

/// Takes the precision parameter that follows a `.`: `*` (taken from an argument), a run of
/// decimal digits (its value, kept to eight bits as a cast to `u8` does), or nothing, which
/// means 0. Returns it with the text after it.
pub fn take_numeric_param(s: &str) -> (r: (PrecisionParam, &str))
    ensures
        r.0 == spec_numeric_param(s@).0,
        r.1@ == s@.skip(spec_numeric_param(s@).1),
{
    let cs = chars_of(s);
    assert(cs@.skip(0) =~= cs@);
    let (p, n) = numeric_param_at(&cs, 0);
    (p, s.substring_char(n, cs.len()))
}

/// Takes the conversion specifier at the start of `s`, the text right after a `%` that
/// stands `specifier_offset` bytes into the format string. Returns it with the text after it,
/// or the error, which reports the specifier up to the first ASCII whitespace.
pub fn take_conversion_specifier(s: &str, specifier_offset: u32) -> (r: Result<
    (ConversionSpecifier, &str),
    PrintfParseError,
>)
    ensures
        match spec_take_conversion_specifier(s@) {
            Ok((c, n)) => r matches Ok((c2, rest)) && c2 == c && rest@ == s@.skip(n),
            Err(k) => r matches Err(e) && e@ == (k, specifier_offset, specifier_span(s@) as u32),
        },
{
    let cs = chars_of(s);
    let total = s.as_bytes().len();
    assert(cs@.skip(0) =~= cs@);
    match conversion_specifier_at(&cs, 0) {
        Ok((spec, n)) => {
            proof {
                lemma_take_conversion_specifier_len(cs@);
            }
            Ok((spec, s.substring_char(n, cs.len())))
        },
        Err(kind) => {
            let len = span_at(&cs, 0);
            Err(PrintfParseError::new(kind, specifier_offset, len as u32))
        },
    }
}

impl core::str::FromStr for PrintfString {
    type Err = PrintfParseError;

    fn from_str(fmt: &str) -> (r: Result<PrintfString, PrintfParseError>)
        ensures
            match spec_parse_format_string(fmt@) {
                Ok(elements) => r matches Ok(s) && s@ == elements,
                Err(e) => r matches Err(err) && err@ == e,
            },
            r matches Ok(s) ==> wf_elements(s@),
    {
        parse_format_string(fmt)
    }
}

} // verus!

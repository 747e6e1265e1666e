//! Rendering parsed format strings and errors back to text.

use vstd::prelude::*;

use crate::types::{
    ConversionSpecifier, ConversionType, FormatElement, PrecisionParam, PrintfParseError,
    PrintfParseErrorKind, PrintfString, SpecFormatElement, VALID_FORMAT_SPECIFIER,
};

verus! {

/// Appending one character to a string.
pub assume_specification[ String::push ](string: &mut String, ch: char)
    ensures
        final(string)@ == old(string)@.push(ch),
;

/// The character of a decimal digit `d` (0 to 9).
pub open spec fn digit_char(d: int) -> char {
    (('0' as int) + d) as char
}

/// The decimal representation of `n`, without leading zeros.
pub open spec fn decimal_chars(n: nat) -> Seq<char>
    decreases n,
{
    if n < 10 {
        seq![digit_char(n as int)]
    } else {
        decimal_chars(n / 10).push(digit_char((n % 10) as int))
    }
}

/// The character that names a conversion type.
pub open spec fn conversion_char(t: ConversionType) -> char {
    match t {
        ConversionType::DecInt => 'd',
        ConversionType::OctInt => 'o',
        ConversionType::HexIntLower => 'x',
        ConversionType::HexIntUpper => 'X',
        ConversionType::SciFloatLower => 'e',
        ConversionType::SciFloatUpper => 'E',
        ConversionType::DecFloatLower => 'f',
        ConversionType::DecFloatUpper => 'F',
        ConversionType::CompactFloatLower => 'g',
        ConversionType::CompactFloatUpper => 'G',
        ConversionType::PercentSign => '%',
        ConversionType::Pointer => 'p',
    }
}

/// The text of a conversion specifier: `%`, the precision if it is a literal, `v` and the
/// vector length if there is one, and the conversion character.
pub open spec fn specifier_chars(c: ConversionSpecifier) -> Seq<char> {
    let precision = match c.precision {
        PrecisionParam::Literal(p) => decimal_chars(p as nat),
        PrecisionParam::FromArgument => Seq::empty(),
    };
    let vector = match c.vector_len {
        Some(n) => seq!['v'] + decimal_chars(n as nat),
        None => Seq::empty(),
    };
    seq!['%'] + precision + vector + seq![conversion_char(c.conversion_type)]
}

/// The text of one element.
pub open spec fn element_chars(e: SpecFormatElement) -> Seq<char> {
    match e {
        SpecFormatElement::Verbatim(s) => s,
        SpecFormatElement::Format(c) => specifier_chars(c),
    }
}

/// The text of a sequence of elements: their texts one after the other.
pub open spec fn elements_chars(es: Seq<SpecFormatElement>) -> Seq<char>
    decreases es.len(),
{
    if es.len() == 0 {
        Seq::empty()
    } else {
        element_chars(es[0]) + elements_chars(es.drop_first())
    }
}

/// The text of elements with one more at the end ends with that element's text.
pub proof fn lemma_elements_chars_push(es: Seq<SpecFormatElement>, e: SpecFormatElement)
    ensures
        elements_chars(es.push(e)) == elements_chars(es) + element_chars(e),
    decreases es.len(),
{
    if es.len() == 0 {
        assert(es.push(e).drop_first() =~= Seq::<SpecFormatElement>::empty());
        assert(es.push(e)[0] == e);
        assert(elements_chars(es.push(e).drop_first()) == Seq::<char>::empty());
        assert(element_chars(e) + Seq::<char>::empty() =~= element_chars(e));
        assert(Seq::<char>::empty() + element_chars(e) =~= element_chars(e));
    } else {
        assert(es.push(e).drop_first() =~= es.drop_first().push(e));
        assert(es.push(e)[0] == es[0]);
        lemma_elements_chars_push(es.drop_first(), e);
        assert(element_chars(es[0]) + (elements_chars(es.drop_first()) + element_chars(e))
            =~= (element_chars(es[0]) + elements_chars(es.drop_first())) + element_chars(e));
    }
}

/// The message of an error kind.
pub open spec fn kind_message(k: PrintfParseErrorKind) -> Seq<char> {
    match k {
        PrintfParseErrorKind::InvalidFormatSpecifier(c) => seq![c]
            + " is not a valid format specifier, valid are: "@ + VALID_FORMAT_SPECIFIER@,
        PrintfParseErrorKind::NoSpecifierAfterPercent => "You must put a format specifier after '%'"@,
        PrintfParseErrorKind::InvalidVectorLength(c) => seq![c]
            + " is an invalid vector length, must be in range 2-4"@,
        PrintfParseErrorKind::NoVectorLengthSpecified => "No vector length specified, must be an int in range 2-4"@,
    }
}

/// Appends the decimal representation of `n` to `out`.
fn push_decimal(out: &mut String, n: u8)
    ensures
        final(out)@ == old(out)@ + decimal_chars(n as nat),
{
    proof {
        reveal_with_fuel(decimal_chars, 3);
    }
    if n >= 100 {
        out.push(((n / 100) + 48) as char);
    }
    if n >= 10 {
        out.push((((n / 10) % 10) + 48) as char);
    }
    out.push(((n % 10) + 48) as char);
    proof {
        if n >= 100 {
            assert(decimal_chars(n as nat) =~= seq![
                digit_char((n / 100) as int),
                digit_char(((n / 10) % 10) as int),
                digit_char((n % 10) as int),
            ]);
        } else if n >= 10 {
            assert(decimal_chars(n as nat) =~= seq![
                digit_char((n / 10) as int),
                digit_char((n % 10) as int),
            ]);
        }
    }
}

impl ConversionType {
    /// The character that names this conversion type.
    pub fn to_char(&self) -> (r: char)
        ensures
            r == conversion_char(*self),
    {
        match self {
            ConversionType::DecInt => 'd',
            ConversionType::OctInt => 'o',
            ConversionType::HexIntLower => 'x',
            ConversionType::HexIntUpper => 'X',
            ConversionType::SciFloatLower => 'e',
            ConversionType::SciFloatUpper => 'E',
            ConversionType::DecFloatLower => 'f',
            ConversionType::DecFloatUpper => 'F',
            ConversionType::CompactFloatLower => 'g',
            ConversionType::CompactFloatUpper => 'G',
            ConversionType::PercentSign => '%',
            ConversionType::Pointer => 'p',
        }
    }

    /// The text of this conversion type: its character.
    pub fn to_string(&self) -> (r: String)
        ensures
            r@ == seq![conversion_char(*self)],
    {
        let mut out = String::new();
        out.push(self.to_char());
        out
    }
}

impl ConversionSpecifier {
    /// Appends the text of this specifier to `out`.
    pub fn write_to(&self, out: &mut String)
        ensures
            final(out)@ == old(out)@ + specifier_chars(*self),
    {
        let ghost start = out@;
        out.push('%');
        match self.precision {
            PrecisionParam::Literal(p) => push_decimal(out, p),
            PrecisionParam::FromArgument => {},
        }
        let ghost mid = out@;
        match self.vector_len {
            Some(n) => {
                out.push('v');
                push_decimal(out, n);
            },
            None => {},
        }
        let ghost mid2 = out@;
        out.push(self.conversion_type.to_char());
        proof {
            let precision = match self.precision {
                PrecisionParam::Literal(p) => decimal_chars(p as nat),
                PrecisionParam::FromArgument => Seq::<char>::empty(),
            };
            let vector = match self.vector_len {
                Some(n) => seq!['v'] + decimal_chars(n as nat),
                None => Seq::<char>::empty(),
            };
            assert(mid =~= start + seq!['%'] + precision);
            assert(mid2 =~= mid + vector);
            assert(out@ =~= start + specifier_chars(*self));
        }
    }

    /// The text of this specifier, as a format string writes it.
    pub fn to_string(&self) -> (r: String)
        ensures
            r@ == specifier_chars(*self),
    {
        let mut out = String::new();
        self.write_to(&mut out);
        assert(out@ =~= specifier_chars(*self));
        out
    }
}

impl PrintfString {
    /// The text of this format string: its elements' texts one after the other.
    /// Literal text is written as it is.
    pub fn to_string(&self) -> (r: String)
        ensures
            r@ == elements_chars(self@),
    {
        let elements = self.elements();
        let ghost es = elements@.map_values(|e: FormatElement| e@);
        let mut out = String::new();
        let mut i: usize = 0;
        while i < elements.len()
            invariant
                i <= elements.len(),
                es == elements@.map_values(|e: FormatElement| e@),
                es == self@,
                out@ == elements_chars(es.take(i as int)),
            decreases elements.len() - i,
        {
            proof {
                assert(es.take(i + 1) =~= es.take(i as int).push(es[i as int]));
                lemma_elements_chars_push(es.take(i as int), es[i as int]);
            }
            match &elements[i] {
                FormatElement::Verbatim(text) => out.append(text.as_str()),
                FormatElement::Format(spec) => spec.write_to(&mut out),
            }
            i = i + 1;
        }
        assert(es.take(elements.len() as int) =~= es);
        out
    }
}

impl PrintfParseErrorKind {
    /// The message of this error kind.
    pub fn to_string(&self) -> (r: String)
        ensures
            r@ == kind_message(*self),
    {
        proof {
            reveal_strlit(" is not a valid format specifier, valid are: ");
            reveal_strlit("d, i, o, x, X, e, E, f, F, g, G, %, p");
            reveal_strlit("You must put a format specifier after '%'");
            reveal_strlit(" is an invalid vector length, must be in range 2-4");
            reveal_strlit("No vector length specified, must be an int in range 2-4");
        }
        let mut out = String::new();
        match self {
            PrintfParseErrorKind::InvalidFormatSpecifier(c) => {
                out.push(*c);
                out.append(" is not a valid format specifier, valid are: ");
                out.append(VALID_FORMAT_SPECIFIER);
                assert(out@ =~= kind_message(*self));
            },
            PrintfParseErrorKind::NoSpecifierAfterPercent => {
                out.append("You must put a format specifier after '%'");
                assert(out@ =~= kind_message(*self));
            },
            PrintfParseErrorKind::InvalidVectorLength(c) => {
                out.push(*c);
                out.append(" is an invalid vector length, must be in range 2-4");
                assert(out@ =~= kind_message(*self));
            },
            PrintfParseErrorKind::NoVectorLengthSpecified => {
                out.append("No vector length specified, must be an int in range 2-4");
                assert(out@ =~= kind_message(*self));
            },
        }
        out
    }
}

impl PrintfParseError {
    /// The message of this error: that of its kind.
    pub fn to_string(&self) -> (r: String)
        ensures
            r@ == kind_message(self@.0),
    {
        self.kind().to_string()
    }
}

} // verus!

use naga_printf::parse::{parse_format_string, take_conversion_specifier, take_numeric_param};
use naga_printf::types::{
    ConversionSpecifier, ConversionType, FormatElement, PrecisionParam, PrintfParseErrorKind,
    PrintfString,
};

fn spec(precision: PrecisionParam, conversion_type: ConversionType, vector_len: Option<u8>) -> ConversionSpecifier {
    ConversionSpecifier { precision, conversion_type, vector_len }
}

fn verbatim(s: &str) -> FormatElement {
    FormatElement::Verbatim(s.to_string())
}

fn elements(s: &str) -> Vec<FormatElement> {
    parse_format_string(s).unwrap().elements().clone()
}

fn single(s: &str) -> ConversionSpecifier {
    match elements(s).as_slice() {
        [FormatElement::Format(c)] => *c,
        other => panic!("unexpected {:?}", other),
    }
}

fn error(s: &str) -> (PrintfParseErrorKind, u32, u32) {
    let e = parse_format_string(s).unwrap_err();
    (e.kind, e.specifier_offset(), e.specifier_length())
}

#[test]
fn plain_text_is_one_verbatim() {
    assert_eq!(elements("hello"), vec![verbatim("hello")]);
}

#[test]
fn empty_string_has_no_elements() {
    assert_eq!(elements(""), vec![]);
}

#[test]
fn simple_decimal() {
    assert_eq!(elements("%d"), vec![FormatElement::Format(spec(PrecisionParam::Literal(1), ConversionType::DecInt, None))]);
}

#[test]
fn text_and_specifiers_alternate() {
    let d = FormatElement::Format(spec(PrecisionParam::Literal(1), ConversionType::DecInt, None));
    assert_eq!(elements("x=%d, y=%i"), vec![verbatim("x="), d.clone(), verbatim(", y="), d]);
}

#[test]
fn trailing_text_after_specifier() {
    assert_eq!(
        elements("%x!"),
        vec![FormatElement::Format(spec(PrecisionParam::Literal(1), ConversionType::HexIntLower, None)), verbatim("!")]
    );
}

#[test]
fn precision_digits_after_percent() {
    assert_eq!(single("%5f"), spec(PrecisionParam::Literal(5), ConversionType::DecFloatLower, None));
    assert_eq!(single("%12e"), spec(PrecisionParam::Literal(12), ConversionType::SciFloatLower, None));
}

#[test]
fn precision_takes_at_most_three_digits() {
    assert_eq!(single("%123g"), spec(PrecisionParam::Literal(123), ConversionType::CompactFloatLower, None));
    assert_eq!(error("%1234f"), (PrintfParseErrorKind::InvalidFormatSpecifier('4'), 1, 5));
}

#[test]
fn precision_keeps_low_eight_bits() {
    assert_eq!(single("%999d"), spec(PrecisionParam::Literal(231), ConversionType::DecInt, None));
    assert_eq!(single("%.300d"), spec(PrecisionParam::Literal(44), ConversionType::DecInt, None));
}

#[test]
fn dotted_precision_forms() {
    assert_eq!(single("%.3f"), spec(PrecisionParam::Literal(3), ConversionType::DecFloatLower, None));
    assert_eq!(single("%.*f"), spec(PrecisionParam::Literal(6), ConversionType::DecFloatLower, None));
    assert_eq!(single("%.f"), spec(PrecisionParam::Literal(0), ConversionType::DecFloatLower, None));
    assert_eq!(single("%.12345F"), spec(PrecisionParam::Literal((12345u32 % 256) as u8), ConversionType::DecFloatUpper, None));
}

#[test]
fn vector_lengths() {
    assert_eq!(single("%v2f"), spec(PrecisionParam::Literal(6), ConversionType::DecFloatLower, Some(2)));
    assert_eq!(single("%v3d"), spec(PrecisionParam::Literal(1), ConversionType::DecInt, Some(3)));
    assert_eq!(single("%4v4X"), spec(PrecisionParam::Literal(4), ConversionType::HexIntUpper, Some(4)));
}

#[test]
fn invalid_vector_length() {
    assert_eq!(error("%v5f"), (PrintfParseErrorKind::InvalidVectorLength('5'), 1, 3));
    assert_eq!(error("%v1f x"), (PrintfParseErrorKind::InvalidVectorLength('1'), 1, 3));
}

#[test]
fn missing_vector_length() {
    assert_eq!(error("%v"), (PrintfParseErrorKind::NoVectorLengthSpecified, 1, 1));
}

#[test]
fn percent_at_end_is_an_error() {
    assert_eq!(error("abc%"), (PrintfParseErrorKind::NoSpecifierAfterPercent, 4, 0));
}

#[test]
fn precision_without_type_is_an_error() {
    assert_eq!(error("%5"), (PrintfParseErrorKind::NoSpecifierAfterPercent, 1, 1));
}

#[test]
fn two_letter_types() {
    assert_eq!(single("%ul"), spec(PrecisionParam::Literal(1), ConversionType::DecInt, None));
    assert_eq!(single("%lu"), spec(PrecisionParam::Literal(1), ConversionType::DecInt, None));
    assert_eq!(single("%lx"), spec(PrecisionParam::Literal(1), ConversionType::HexIntLower, None));
    assert_eq!(error("%l"), (PrintfParseErrorKind::InvalidFormatSpecifier('l'), 1, 1));
}

#[test]
fn every_conversion_character() {
    let table = [
        ('d', ConversionType::DecInt, 1),
        ('i', ConversionType::DecInt, 1),
        ('u', ConversionType::DecInt, 1),
        ('o', ConversionType::OctInt, 1),
        ('x', ConversionType::HexIntLower, 1),
        ('X', ConversionType::HexIntUpper, 1),
        ('a', ConversionType::DecFloatLower, 6),
        ('A', ConversionType::DecFloatLower, 6),
        ('e', ConversionType::SciFloatLower, 6),
        ('E', ConversionType::SciFloatUpper, 6),
        ('f', ConversionType::DecFloatLower, 6),
        ('F', ConversionType::DecFloatUpper, 6),
        ('g', ConversionType::CompactFloatLower, 6),
        ('G', ConversionType::CompactFloatUpper, 6),
        ('p', ConversionType::Pointer, 0),
        ('%', ConversionType::PercentSign, 0),
    ];
    for (c, t, p) in table {
        assert_eq!(single(&format!("%{}", c)), spec(PrecisionParam::Literal(p), t, None));
    }
}

#[test]
fn invalid_specifier_reports_up_to_whitespace() {
    assert_eq!(error("%z abc"), (PrintfParseErrorKind::InvalidFormatSpecifier('z'), 1, 1));
    assert_eq!(error("%zzz\tq"), (PrintfParseErrorKind::InvalidFormatSpecifier('z'), 1, 3));
    assert_eq!(error("%s"), (PrintfParseErrorKind::InvalidFormatSpecifier('s'), 1, 1));
}

#[test]
fn error_offset_counts_from_start_of_string() {
    assert_eq!(error("ab%dcd%q"), (PrintfParseErrorKind::InvalidFormatSpecifier('q'), 7, 1));
    assert_eq!(error("%d%d%"), (PrintfParseErrorKind::NoSpecifierAfterPercent, 5, 0));
}

#[test]
fn error_offsets_are_in_bytes() {
    assert_eq!(error("\u{e9}%q rest"), (PrintfParseErrorKind::InvalidFormatSpecifier('q'), 3, 1));
    assert_eq!(error("%v\u{e9} x"), (PrintfParseErrorKind::InvalidVectorLength('\u{e9}'), 1, 3));
    assert_eq!(error("\u{1F600}%"), (PrintfParseErrorKind::NoSpecifierAfterPercent, 5, 0));
}

#[test]
fn non_ascii_text_is_kept() {
    assert_eq!(
        elements("\u{e9}t\u{e9} %d \u{1F600}"),
        vec![
            verbatim("\u{e9}t\u{e9} "),
            FormatElement::Format(spec(PrecisionParam::Literal(1), ConversionType::DecInt, None)),
            verbatim(" \u{1F600}"),
        ]
    );
}

#[test]
fn percent_sign_specifier() {
    assert_eq!(
        elements("100%% done"),
        vec![
            verbatim("100"),
            FormatElement::Format(spec(PrecisionParam::Literal(0), ConversionType::PercentSign, None)),
            verbatim(" done"),
        ]
    );
}

#[test]
fn from_str_parses() {
    let p: PrintfString = "a%d".parse().unwrap();
    assert_eq!(p.elements().len(), 2);
    let e = "a%".parse::<PrintfString>().unwrap_err();
    assert_eq!(e.kind, PrintfParseErrorKind::NoSpecifierAfterPercent);
}

#[test]
fn numeric_param_forms() {
    assert_eq!(take_numeric_param("*rest"), (PrecisionParam::FromArgument, "rest"));
    assert_eq!(take_numeric_param("12x"), (PrecisionParam::Literal(12), "x"));
    assert_eq!(take_numeric_param("256x"), (PrecisionParam::Literal(0), "x"));
    assert_eq!(take_numeric_param("x"), (PrecisionParam::Literal(0), "x"));
    assert_eq!(take_numeric_param(""), (PrecisionParam::Literal(0), ""));
}

#[test]
fn conversion_specifier_and_rest() {
    let (c, rest) = take_conversion_specifier("5v2xrest", 10).unwrap();
    assert_eq!(c, spec(PrecisionParam::Literal(5), ConversionType::HexIntLower, Some(2)));
    assert_eq!(rest, "rest");
    let (c, rest) = take_conversion_specifier(".2f%d", 0).unwrap();
    assert_eq!(c, spec(PrecisionParam::Literal(2), ConversionType::DecFloatLower, None));
    assert_eq!(rest, "%d");
}

#[test]
fn conversion_specifier_errors() {
    let e = take_conversion_specifier("q rest", 4).unwrap_err();
    assert_eq!((e.kind, e.specifier_offset(), e.specifier_length()), (PrintfParseErrorKind::InvalidFormatSpecifier('q'), 4, 1));
    let e = take_conversion_specifier("", 9).unwrap_err();
    assert_eq!((e.kind, e.specifier_offset(), e.specifier_length()), (PrintfParseErrorKind::NoSpecifierAfterPercent, 9, 0));
    let e = take_conversion_specifier("v", 2).unwrap_err();
    assert_eq!((e.kind, e.specifier_offset(), e.specifier_length()), (PrintfParseErrorKind::NoVectorLengthSpecified, 2, 1));
}

#[test]
fn parsed_segments_are_well_formed() {
    for s in ["a%db%%c", "%d%d", "x %v3f y %5lx", "\u{e9}%.2e\u{e9}"] {
        let es = elements(s);
        for w in es.windows(2) {
            assert!(!matches!((&w[0], &w[1]), (FormatElement::Verbatim(_), FormatElement::Verbatim(_))));
        }
        for e in &es {
            match e {
                FormatElement::Verbatim(t) => assert!(!t.is_empty() && !t.contains('%')),
                FormatElement::Format(c) => assert!(matches!(c.vector_len, None | Some(2..=4))),
            }
        }
    }
}

#[test]
fn parsed_specifiers_never_hold_from_argument() {
    for s in ["%d", "%.*f", "%v3x", "%%", "%p", "%ul %5e %.g"] {
        for e in elements(s) {
            if let FormatElement::Format(c) = e {
                assert_ne!(c.precision, PrecisionParam::FromArgument);
            }
        }
    }
}

#[test]
fn literal_prefix_adds_one_segment() {
    let b = "%5d and %x";
    let pb = elements(b);
    let mut expected = vec![verbatim("t\u{e9}xt ")];
    expected.extend(pb);
    assert_eq!(elements(&format!("t\u{e9}xt {}", b)), expected);
}

#[test]
fn literal_prefix_moves_error_offset() {
    let b = "%d %q";
    let (kind, offset, length) = error(b);
    let a = "t\u{e9}xt ";
    assert_eq!(error(&format!("{}{}", a, b)), (kind, offset + a.len() as u32, length));
}

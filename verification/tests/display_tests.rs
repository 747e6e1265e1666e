use naga_printf::parse::parse_format_string;
use naga_printf::types::{
    ConversionSpecifier, ConversionType, FormatElement, PrecisionParam, PrintfParseErrorKind,
    PrintfString,
};

#[test]
fn conversion_type_characters() {
    assert_eq!(ConversionType::DecInt.to_string(), "d");
    assert_eq!(ConversionType::OctInt.to_char(), 'o');
    assert_eq!(ConversionType::HexIntUpper.to_string(), "X");
    assert_eq!(ConversionType::PercentSign.to_string(), "%");
    assert_eq!(ConversionType::Pointer.to_string(), "p");
    assert_eq!(ConversionType::CompactFloatUpper.to_string(), "G");
}

#[test]
fn specifier_text() {
    let c = ConversionSpecifier {
        precision: PrecisionParam::Literal(5),
        conversion_type: ConversionType::DecFloatLower,
        vector_len: Some(3),
    };
    assert_eq!(c.to_string(), "%5v3f");
    let c = ConversionSpecifier {
        precision: PrecisionParam::FromArgument,
        conversion_type: ConversionType::DecInt,
        vector_len: None,
    };
    assert_eq!(c.to_string(), "%d");
    let c = ConversionSpecifier {
        precision: PrecisionParam::Literal(255),
        conversion_type: ConversionType::SciFloatUpper,
        vector_len: None,
    };
    assert_eq!(c.to_string(), "%255E");
    let c = ConversionSpecifier {
        precision: PrecisionParam::Literal(0),
        conversion_type: ConversionType::Pointer,
        vector_len: Some(2),
    };
    assert_eq!(c.to_string(), "%0v2p");
}

#[test]
fn format_string_text() {
    assert_eq!(parse_format_string("x=%5d %%").unwrap().to_string(), "x=%5d %0%");
    assert_eq!(parse_format_string("%.3lx").unwrap().to_string(), "%3x");
    assert_eq!(parse_format_string("%.*a %ul").unwrap().to_string(), "%6f %1d");
    assert_eq!(parse_format_string("").unwrap().to_string(), "");
}

#[test]
fn text_of_parsed_string_parses_to_same_segments() {
    for s in ["x=%5d %%", "%.3lx and %v4g", "\u{e9}%.*e!", "%999d", "plain", "%%%%", "%12v2Fend"] {
        let p: PrintfString = parse_format_string(s).unwrap();
        let again = parse_format_string(&p.to_string()).unwrap();
        assert_eq!(again.elements(), p.elements());
    }
}

#[test]
fn well_formed_segments_round_trip() {
    let es = vec![
        FormatElement::Verbatim("a ".to_string()),
        FormatElement::Format(ConversionSpecifier {
            precision: PrecisionParam::Literal(200),
            conversion_type: ConversionType::HexIntLower,
            vector_len: Some(4),
        }),
        FormatElement::Format(ConversionSpecifier {
            precision: PrecisionParam::Literal(0),
            conversion_type: ConversionType::PercentSign,
            vector_len: None,
        }),
        FormatElement::Verbatim(" b".to_string()),
    ];
    let text = "a %200v4x%0% b";
    assert_eq!(parse_format_string(text).unwrap().elements(), &es);
    assert_eq!(parse_format_string(text).unwrap().to_string(), text);
}

#[test]
fn error_messages() {
    let e = parse_format_string("%q").unwrap_err();
    assert_eq!(e.to_string(), "q is not a valid format specifier, valid are: d, i, o, x, X, e, E, f, F, g, G, %, p");
    assert_eq!(e.kind().to_string(), e.to_string());
    let e = parse_format_string("%").unwrap_err();
    assert_eq!(e.to_string(), "You must put a format specifier after '%'");
    let e = parse_format_string("%v7d").unwrap_err();
    assert_eq!(e.to_string(), "7 is an invalid vector length, must be in range 2-4");
    assert_eq!(
        PrintfParseErrorKind::NoVectorLengthSpecified.to_string(),
        "No vector length specified, must be an int in range 2-4"
    );
}

#[test]
fn canonical_text_prints_back() {
    for s in ["x=%5d %0%", "%1d", "%255v4G!", "%0p%6e", "plain text", "", "\u{e9}%12v2o\u{1F600}"] {
        assert_eq!(parse_format_string(s).unwrap().to_string(), s);
    }
}

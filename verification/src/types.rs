//! The data model of a parsed format string.

use vstd::prelude::*;

verus! {

/// The conversion characters accepted after `%`, as listed in error messages.
pub const VALID_FORMAT_SPECIFIER: &'static str = "d, i, o, x, X, e, E, f, F, g, G, %, p";

/// Precision of a conversion.
#[derive(Debug, Clone, Copy, PartialEq, Eq, Structural)]
pub enum PrecisionParam {
    Literal(u8),
    /// Use the default precision for the conversion type;
    /// never present in fully parsed format strings
    FromArgument,
}

/// The data type a value is printed as.
#[derive(Debug, Clone, Copy, PartialEq, Eq, Structural)]
pub enum ConversionType {
    /// d, i
    DecInt,
    /// o
    OctInt,
    /// x
    HexIntLower,
    /// X
    HexIntUpper,
    /// e
    SciFloatLower,
    /// E
    SciFloatUpper,
    /// f
    DecFloatLower,
    /// F
    DecFloatUpper,
    /// g
    CompactFloatLower,
    /// G
    CompactFloatUpper,
    /// %
    PercentSign,
    /// p  (PhysicalStorageBuffer pointer)
    Pointer,
}

/// One `%...` conversion of a format string.
#[derive(Debug, Clone, Copy, PartialEq, Eq, Structural)]
pub struct ConversionSpecifier {
    /// The precision to display the value with
    pub precision: PrecisionParam,
    /// The data type to print as
    pub conversion_type: ConversionType,
    /// If the specifier was a vector (e.g. %v3f), vector_len = Some(2|3|4)
    pub vector_len: Option<u8>,
}

/// A segment of a format string: literal text, or a conversion.
#[derive(Debug, Clone, PartialEq, Eq)]
pub enum FormatElement {
    Verbatim(String),
    Format(ConversionSpecifier),
}

/// The mathematical value of a [`FormatElement`]: its text as a sequence of characters.
pub enum SpecFormatElement {
    Verbatim(Seq<char>),
    Format(ConversionSpecifier),
}

impl View for FormatElement {
    type V = SpecFormatElement;

    open spec fn view(&self) -> SpecFormatElement {
        match self {
            FormatElement::Verbatim(s) => SpecFormatElement::Verbatim(s@),
            FormatElement::Format(c) => SpecFormatElement::Format(*c),
        }
    }
}

/// What went wrong while parsing a format string.
#[derive(Debug, Clone, Copy, PartialEq, Eq, Structural)]
pub enum PrintfParseErrorKind {
    InvalidFormatSpecifier(char),
    /// If '%' is the last character, it's a parse error.
    NoSpecifierAfterPercent,
    /// min is 2, max is 4
    InvalidVectorLength(char),
    NoVectorLengthSpecified,
}

/// A parse error, with the place of the offending specifier.
#[derive(Debug, Clone, Copy, PartialEq, Eq, Structural)]
pub struct PrintfParseError {
    pub kind: PrintfParseErrorKind,
    /// Where the format specifier in question starts (just past its `%`), in bytes from
    /// the start of the string
    pub specifier_offset: u32,
    /// Length in bytes of the format specifier in question, counted from its offset up to
    /// the first ASCII whitespace
    pub specifier_length: u32,
}

/// A parsed format string: its segments in order.
#[derive(Debug, Clone)]
pub struct PrintfString(pub(crate) Vec<FormatElement>);

impl View for PrintfString {
    type V = Seq<SpecFormatElement>;

    closed spec fn view(&self) -> Seq<SpecFormatElement> {
        self.0@.map_values(|e: FormatElement| e@)
    }
}

impl PrintfString {
    /// Wraps parsed segments.
    pub fn from_elements(elements: Vec<FormatElement>) -> (r: PrintfString)
        ensures
            r@ == elements@.map_values(|e: FormatElement| e@),
    {
        PrintfString(elements)
    }

    /// The segments, in order.
    pub fn elements(&self) -> (r: &Vec<FormatElement>)
        ensures
            r@.map_values(|e: FormatElement| e@) == self@,
    {
        &self.0
    }
}

impl View for PrintfParseError {
    /// The kind, the byte offset of the specifier and its length in bytes.
    type V = (PrintfParseErrorKind, u32, u32);

    open spec fn view(&self) -> (PrintfParseErrorKind, u32, u32) {
        (self.kind, self.specifier_offset, self.specifier_length)
    }
}

impl PrintfParseError {
    /// An error of the given kind for the specifier at `specifier_offset`, `specifier_length` bytes long.
    pub fn new(kind: PrintfParseErrorKind, specifier_offset: u32, specifier_length: u32) -> (r:
        PrintfParseError)
        ensures
            r@ == (kind, specifier_offset, specifier_length),
    {
        PrintfParseError { kind, specifier_offset, specifier_length }
    }

    /// The kind of this error.
    pub fn kind(&self) -> (r: PrintfParseErrorKind)
        ensures
            r == self@.0,
    {
        self.kind
    }

    /// The view of an error is its public fields.
    pub proof fn lemma_view_fields(&self)
        ensures
            self@.0 == self.kind,
            self@.1 == self.specifier_offset,
            self@.2 == self.specifier_length,
    {
    }

    /// Byte offset, from the start of the string, of the specifier in question.
    pub fn specifier_offset(&self) -> (r: u32)
        ensures
            r == self@.1,
    {
        self.specifier_offset
    }

    /// Length in bytes of the specifier in question, counted from its offset.
    pub fn specifier_length(&self) -> (r: u32)
        ensures
            r == self@.2,
    {
        self.specifier_length
    }
}

} // verus!

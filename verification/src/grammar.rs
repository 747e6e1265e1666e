//! The grammar of a conversion specifier, stated over the written text: what each form of
//! precision, vector part and conversion token parses to.

use vstd::prelude::*;

use crate::display::{conversion_char, decimal_chars, specifier_chars};
use crate::laws::{lemma_decimal_value_prefix, lemma_leading_digits_concat, lemma_take_specifier_chars};
use crate::spec::{
    find_percent, first_whitespace, is_ascii_whitespace, lemma_first_whitespace, spec_parse_format_string,
    conversion_type_of, decimal_value, default_precision, is_digit, leading_digits,
    spec_conversion_type, spec_numeric_param, spec_precision, spec_take_conversion_specifier,
    spec_vector_len,
};
use crate::text::{byte_len, lemma_byte_len_single};
use crate::types::{ConversionSpecifier, ConversionType, PrecisionParam, PrintfParseErrorKind};

verus! {

/// The conversion tokens and the types they name: `d`, `i`, `u`, `ul`, `lu` (decimal
/// integer), `o`, `x`, `lx`, `X`, `a`, `A`, `f` (decimal float), `F`, `e`, `E`, `g`, `G`,
/// `%` and `p`.
pub open spec fn token_names(tok: Seq<char>, t: ConversionType) -> bool {
    ||| (tok == seq!['d'] || tok == seq!['i'] || tok == seq!['u'] || tok == seq!['u', 'l']
        || tok == seq!['l', 'u']) && t == ConversionType::DecInt
    ||| tok == seq!['o'] && t == ConversionType::OctInt
    ||| (tok == seq!['x'] || tok == seq!['l', 'x']) && t == ConversionType::HexIntLower
    ||| tok == seq!['X'] && t == ConversionType::HexIntUpper
    ||| (tok == seq!['a'] || tok == seq!['A'] || tok == seq!['f']) && t == ConversionType::DecFloatLower
    ||| tok == seq!['F'] && t == ConversionType::DecFloatUpper
    ||| tok == seq!['e'] && t == ConversionType::SciFloatLower
    ||| tok == seq!['E'] && t == ConversionType::SciFloatUpper
    ||| tok == seq!['g'] && t == ConversionType::CompactFloatLower
    ||| tok == seq!['G'] && t == ConversionType::CompactFloatUpper
    ||| tok == seq!['%'] && t == ConversionType::PercentSign
    ||| tok == seq!['p'] && t == ConversionType::Pointer
}

/// The characters that a one-character conversion token can be.
pub open spec fn is_conversion_character(c: char) -> bool {
    c == 'd' || c == 'i' || c == 'u' || c == 'o' || c == 'x' || c == 'X' || c == 'a' || c == 'A'
        || c == 'e' || c == 'E' || c == 'f' || c == 'F' || c == 'g' || c == 'G' || c == '%' || c
        == 'p'
}

/// The written vector part: nothing, or `v` and the length's digit.
pub open spec fn vector_text(v: Option<u8>) -> Seq<char> {
    match v {
        Some(n) => seq!['v', (('0' as int) + n) as char],
        None => Seq::empty(),
    }
}

/// Law (conversion characters): each conversion type is written with its character, and
/// exactly the characters `d i u o x X a A e E f F g G % p` name a type, each the one listed.
pub proof fn lemma_conversion_characters()
    ensures
        conversion_char(ConversionType::DecInt) == 'd',
        conversion_char(ConversionType::OctInt) == 'o',
        conversion_char(ConversionType::HexIntLower) == 'x',
        conversion_char(ConversionType::HexIntUpper) == 'X',
        conversion_char(ConversionType::SciFloatLower) == 'e',
        conversion_char(ConversionType::SciFloatUpper) == 'E',
        conversion_char(ConversionType::DecFloatLower) == 'f',
        conversion_char(ConversionType::DecFloatUpper) == 'F',
        conversion_char(ConversionType::CompactFloatLower) == 'g',
        conversion_char(ConversionType::CompactFloatUpper) == 'G',
        conversion_char(ConversionType::PercentSign) == '%',
        conversion_char(ConversionType::Pointer) == 'p',
        forall|c: char| #[trigger] conversion_type_of(c) is Some <==> is_conversion_character(c),
        forall|c: char, t: ConversionType|
            #[trigger] token_names(seq![c], t) <==> conversion_type_of(c) == Some(t),
{
    assert forall|c: char, t: ConversionType|
        #[trigger] token_names(seq![c], t) <==> conversion_type_of(c) == Some(t) by {
        let s = seq![c];
        assert(s.len() == 1 && s[0] == c);
        if token_names(s, t) {
            assert(s != seq!['u', 'l'] && s != seq!['l', 'u'] && s != seq!['l', 'x']);
            assert(s == seq!['d'] ==> c == 'd');
            assert(s == seq!['i'] ==> c == 'i');
            assert(s == seq!['u'] ==> c == 'u');
            assert(s == seq!['o'] ==> c == 'o');
            assert(s == seq!['x'] ==> c == 'x');
            assert(s == seq!['X'] ==> c == 'X');
            assert(s == seq!['a'] ==> c == 'a');
            assert(s == seq!['A'] ==> c == 'A');
            assert(s == seq!['f'] ==> c == 'f');
            assert(s == seq!['F'] ==> c == 'F');
            assert(s == seq!['e'] ==> c == 'e');
            assert(s == seq!['E'] ==> c == 'E');
            assert(s == seq!['g'] ==> c == 'g');
            assert(s == seq!['G'] ==> c == 'G');
            assert(s == seq!['%'] ==> c == '%');
            assert(s == seq!['p'] ==> c == 'p');
        }
        if conversion_type_of(c) == Some(t) {
            assert(c == 'd' ==> s =~= seq!['d']);
            assert(c == 'i' ==> s =~= seq!['i']);
            assert(c == 'u' ==> s =~= seq!['u']);
            assert(c == 'o' ==> s =~= seq!['o']);
            assert(c == 'x' ==> s =~= seq!['x']);
            assert(c == 'X' ==> s =~= seq!['X']);
            assert(c == 'a' ==> s =~= seq!['a']);
            assert(c == 'A' ==> s =~= seq!['A']);
            assert(c == 'f' ==> s =~= seq!['f']);
            assert(c == 'F' ==> s =~= seq!['F']);
            assert(c == 'e' ==> s =~= seq!['e']);
            assert(c == 'E' ==> s =~= seq!['E']);
            assert(c == 'g' ==> s =~= seq!['g']);
            assert(c == 'G' ==> s =~= seq!['G']);
            assert(c == '%' ==> s =~= seq!['%']);
            assert(c == 'p' ==> s =~= seq!['p']);
        }
    }
}

/// A conversion token, whatever follows it (but an `l` right after a lone `u`, which makes
/// `ul`), is read as the type it names. It starts with none of the characters that open a
/// precision or a vector part.
proof fn lemma_token(tok: Seq<char>, t: ConversionType, rest: Seq<char>)
    requires
        token_names(tok, t),
        !(tok == seq!['u'] && rest.len() > 0 && rest[0] == 'l'),
    ensures
        spec_conversion_type(tok + rest) == Ok::<(ConversionType, int), PrintfParseErrorKind>(
            (t, tok.len() as int),
        ),
        1 <= tok.len() <= 2,
        !is_digit((tok + rest)[0]),
        (tok + rest)[0] != '.',
        (tok + rest)[0] != '*',
        (tok + rest)[0] != 'v',
{
    let s = tok + rest;
    assert(s[0] == tok[0]);
    if tok.len() == 2 {
        assert(s[1] == tok[1]);
    } else {
        assert(tok.len() == 1);
        if rest.len() > 0 {
            assert(s[1] == rest[0]);
        }
    }
}

/// The vector part, followed by anything that does not start with `v`, is read as written.
proof fn lemma_vector(v: Option<u8>, u: Seq<char>)
    requires
        v matches Some(n) ==> 2 <= n <= 4,
        u.len() > 0,
        u[0] != 'v',
        !is_digit(u[0]),
        u[0] != '.',
        u[0] != '*',
    ensures
        spec_vector_len(vector_text(v) + u) == Ok::<(Option<u8>, int), PrintfParseErrorKind>(
            (v, vector_text(v).len() as int),
        ),
        (vector_text(v) + u).skip(vector_text(v).len() as int) == u,
        !is_digit((vector_text(v) + u)[0]),
        (vector_text(v) + u)[0] != '.',
        (vector_text(v) + u)[0] != '*',
{
    let s = vector_text(v) + u;
    assert(s.skip(vector_text(v).len() as int) =~= u);
    match v {
        Some(n) => {
            assert(s[0] == 'v');
            assert(s[1] == (('0' as int) + n) as char);
        },
        None => {
            assert(s =~= u);
        },
    }
}

/// Law (numeric parameter after `.`): a run of digits is read whole, as its value kept to
/// eight bits; with no digit, `*` means the precision comes from an argument, and anything
/// else means precision 0 and takes nothing.
pub proof fn lemma_numeric_param_grammar(d: Seq<char>, rest: Seq<char>)
    requires
        forall|j: int| 0 <= j < d.len() ==> is_digit(#[trigger] d[j]),
        rest.len() == 0 || !is_digit(rest[0]),
    ensures
        spec_numeric_param(d + rest) == if d.len() > 0 {
            (PrecisionParam::Literal((decimal_value(d, d.len() as int) % 256) as u8), d.len() as int)
        } else if rest.len() > 0 && rest[0] == '*' {
            (PrecisionParam::FromArgument, 1int)
        } else {
            (PrecisionParam::Literal(0), 0int)
        },
{
    let s = d + rest;
    lemma_leading_digits_concat(d, rest);
    lemma_decimal_value_prefix(d, rest, d.len() as int);
    if d.len() > 0 {
        assert(s[0] == d[0]);
    } else {
        assert(s =~= rest);
    }
    assert(leading_digits(rest) == 0);
}

/// A precision written as digits (at most three), as `.` and digits, or not at all,
/// followed by something that is empty or starts with no digit, `.` or `*`, is read as
/// written: a literal, or, when nothing is written, none.
proof fn lemma_precision_prefix(dotted: bool, d: Seq<char>, after: Seq<char>)
    requires
        forall|j: int| 0 <= j < d.len() ==> is_digit(#[trigger] d[j]),
        dotted || d.len() <= 3,
        after.len() == 0 || (!is_digit(after[0]) && after[0] != '.' && after[0] != '*'),
    ensures
        ({
            let pre = if dotted {
                seq!['.']
            } else {
                Seq::<char>::empty()
            };
            &&& spec_precision(pre + d + after) == (
                if !dotted && d.len() == 0 {
                    PrecisionParam::FromArgument
                } else {
                    PrecisionParam::Literal((decimal_value(d, d.len() as int) % 256) as u8)
                },
                (pre.len() + d.len()) as int,
            )
            &&& (pre + d + after).skip((pre.len() + d.len()) as int) == after
        }),
{
    let pre = if dotted {
        seq!['.']
    } else {
        Seq::<char>::empty()
    };
    let s = pre + d + after;
    assert(s.skip((pre.len() + d.len()) as int) =~= after);
    lemma_numeric_param_grammar(d, after);
    lemma_leading_digits_concat(d, after);
    lemma_decimal_value_prefix(d, after, d.len() as int);
    assert(leading_digits(after) == 0);
    if dotted {
        assert(s[0] == '.');
        assert(s.drop_first() =~= d + after);
    } else if d.len() > 0 {
        assert(s =~= d + after);
        assert(s[0] == d[0]);
    } else {
        assert(s =~= after);
    }
}

/// Law (specifier with a literal precision): digits right after `%` (one to three), or `.`
/// and any run of digits (possibly none, meaning 0), then an optional `v2`, `v3` or `v4`, then
/// a conversion token: the specifier has that precision (kept to eight bits), vector length
/// and type, and takes exactly that text, whatever follows (but an `l` after a lone `u`).
pub proof fn lemma_specifier_literal_precision(
    dotted: bool,
    d: Seq<char>,
    v: Option<u8>,
    tok: Seq<char>,
    t: ConversionType,
    rest: Seq<char>,
)
    requires
        forall|j: int| 0 <= j < d.len() ==> is_digit(#[trigger] d[j]),
        dotted || 1 <= d.len() <= 3,
        v matches Some(n) ==> 2 <= n <= 4,
        token_names(tok, t),
        !(tok == seq!['u'] && rest.len() > 0 && rest[0] == 'l'),
    ensures
        ({
            let pre = if dotted {
                seq!['.']
            } else {
                Seq::<char>::empty()
            };
            spec_take_conversion_specifier(pre + d + vector_text(v) + tok + rest) == Ok::<
                (ConversionSpecifier, int),
                PrintfParseErrorKind,
            >(
                (
                    ConversionSpecifier {
                        precision: PrecisionParam::Literal(
                            (decimal_value(d, d.len() as int) % 256) as u8,
                        ),
                        conversion_type: t,
                        vector_len: v,
                    },
                    (pre.len() + d.len() + vector_text(v).len() + tok.len()) as int,
                ),
            )
        }),
{
    let pre = if dotted {
        seq!['.']
    } else {
        Seq::<char>::empty()
    };
    let u = tok + rest;
    lemma_token(tok, t, rest);
    lemma_vector(v, u);
    let after = vector_text(v) + u;
    lemma_precision_prefix(dotted, d, after);
    let s = pre + d + vector_text(v) + tok + rest;
    assert(s =~= pre + d + after);
}

/// Law (specifier without a literal precision): nothing, or `.*`, after `%`, then an
/// optional `v2`, `v3` or `v4`, then a conversion token: the specifier has the type's default
/// precision, that vector length and type, and takes exactly that text.
pub proof fn lemma_specifier_default_precision(
    star: bool,
    v: Option<u8>,
    tok: Seq<char>,
    t: ConversionType,
    rest: Seq<char>,
)
    requires
        v matches Some(n) ==> 2 <= n <= 4,
        token_names(tok, t),
        !(tok == seq!['u'] && rest.len() > 0 && rest[0] == 'l'),
    ensures
        ({
            let pre = if star {
                seq!['.', '*']
            } else {
                Seq::<char>::empty()
            };
            spec_take_conversion_specifier(pre + vector_text(v) + tok + rest) == Ok::<
                (ConversionSpecifier, int),
                PrintfParseErrorKind,
            >(
                (
                    ConversionSpecifier {
                        precision: PrecisionParam::Literal(default_precision(t)),
                        conversion_type: t,
                        vector_len: v,
                    },
                    (pre.len() + vector_text(v).len() + tok.len()) as int,
                ),
            )
        }),
{
    let pre = if star {
        seq!['.', '*']
    } else {
        Seq::<char>::empty()
    };
    let u = tok + rest;
    lemma_token(tok, t, rest);
    lemma_vector(v, u);
    let after = vector_text(v) + u;
    let s = pre + vector_text(v) + tok + rest;
    assert(s =~= pre + after);
    assert(after.skip(vector_text(v).len() as int) =~= u);
    if star {
        assert(s[0] == '.');
        assert(s.drop_first()[0] == '*');
    } else {
        assert(s =~= after);
    }
    assert(spec_precision(s) == (PrecisionParam::FromArgument, pre.len() as int));
    assert(s.skip(pre.len() as int) =~= after);
}

/// Law (unknown conversion character): a character that names no conversion type and opens
/// neither a precision, a vector part nor a two-letter token is reported as an invalid
/// format specifier.
pub proof fn lemma_invalid_conversion_character(c: char, rest: Seq<char>)
    requires
        !is_conversion_character(c),
        !is_digit(c),
        c != '.',
        c != 'v',
        c != 'l',
    ensures
        spec_take_conversion_specifier(seq![c] + rest) == Err::<
            (ConversionSpecifier, int),
            PrintfParseErrorKind,
        >(PrintfParseErrorKind::InvalidFormatSpecifier(c)),
{
    lemma_conversion_characters();
    let s = seq![c] + rest;
    assert(s[0] == c);
    assert(spec_precision(s) == (PrecisionParam::FromArgument, 0int));
    assert(s.skip(0) =~= s);
    assert(spec_vector_len(s) == Ok::<(Option<u8>, int), PrintfParseErrorKind>((None, 0int)));
    assert(conversion_type_of(c) is None);
}

/// Law (specifier text reads back): the text of any specifier with a vector length of 2, 3
/// or 4 if any, after its `%`, parses back to that specifier, whatever follows; a precision
/// that is not a literal is read back as the type's default.
pub proof fn lemma_specifier_text_reads_back(c: ConversionSpecifier, rest: Seq<char>)
    requires
        c.vector_len matches Some(n) ==> 2 <= n <= 4,
    ensures
        spec_take_conversion_specifier(specifier_chars(c).drop_first() + rest) == Ok::<
            (ConversionSpecifier, int),
            PrintfParseErrorKind,
        >(
            (
                ConversionSpecifier {
                    precision: match c.precision {
                        PrecisionParam::Literal(p) => PrecisionParam::Literal(p),
                        PrecisionParam::FromArgument => PrecisionParam::Literal(
                            default_precision(c.conversion_type),
                        ),
                    },
                    conversion_type: c.conversion_type,
                    vector_len: c.vector_len,
                },
                specifier_chars(c).len() - 1,
            ),
        ),
{
    match c.precision {
        PrecisionParam::Literal(_) => {
            lemma_take_specifier_chars(c, rest);
        },
        PrecisionParam::FromArgument => {
            lemma_conversion_characters();
            let t = c.conversion_type;
            let ch = conversion_char(t);
            let tok = seq![ch];
            assert(token_names(tok, t));
            let vec = match c.vector_len {
                Some(n) => seq!['v'] + decimal_chars(n as nat),
                None => Seq::<char>::empty(),
            };
            if let Some(n) = c.vector_len {
                assert(decimal_chars(n as nat) =~= seq![(('0' as int) + n) as char]);
            }
            assert(vec =~= vector_text(c.vector_len));
            assert(specifier_chars(c).drop_first() =~= vector_text(c.vector_len) + tok);
            lemma_specifier_default_precision(false, c.vector_len, tok, t, rest);
            assert(Seq::<char>::empty() + vector_text(c.vector_len) + tok + rest
                =~= specifier_chars(c).drop_first() + rest);
        },
    }
}

/// Law (vector length errors): after any written precision, a `v` at the end of the text
/// is a missing vector length, and a `v` followed by anything but `2`, `3` or `4` is an
/// invalid vector length, reported with that character.
pub proof fn lemma_vector_length_errors(dotted: bool, d: Seq<char>, tail: Seq<char>)
    requires
        forall|j: int| 0 <= j < d.len() ==> is_digit(#[trigger] d[j]),
        dotted || d.len() <= 3,
        tail.len() == 0 || (tail[0] != '2' && tail[0] != '3' && tail[0] != '4'),
    ensures
        ({
            let pre = if dotted {
                seq!['.']
            } else {
                Seq::<char>::empty()
            };
            spec_take_conversion_specifier(pre + d + seq!['v'] + tail) == Err::<
                (ConversionSpecifier, int),
                PrintfParseErrorKind,
            >(
                if tail.len() == 0 {
                    PrintfParseErrorKind::NoVectorLengthSpecified
                } else {
                    PrintfParseErrorKind::InvalidVectorLength(tail[0])
                },
            )
        }),
{
    let pre = if dotted {
        seq!['.']
    } else {
        Seq::<char>::empty()
    };
    let after = seq!['v'] + tail;
    assert(after[0] == 'v');
    lemma_precision_prefix(dotted, d, after);
    assert(pre + d + seq!['v'] + tail =~= pre + d + after);
    if tail.len() > 0 {
        assert(after[1] == tail[0]);
    }
}

/// Law (missing conversion type): a written precision and vector part with nothing after
/// them is reported as no specifier after `%`.
pub proof fn lemma_missing_conversion_type(dotted: bool, d: Seq<char>, v: Option<u8>)
    requires
        forall|j: int| 0 <= j < d.len() ==> is_digit(#[trigger] d[j]),
        dotted || d.len() <= 3,
        v matches Some(n) ==> 2 <= n <= 4,
    ensures
        ({
            let pre = if dotted {
                seq!['.']
            } else {
                Seq::<char>::empty()
            };
            spec_take_conversion_specifier(pre + d + vector_text(v)) == Err::<
                (ConversionSpecifier, int),
                PrintfParseErrorKind,
            >(PrintfParseErrorKind::NoSpecifierAfterPercent)
        }),
{
    let after = vector_text(v);
    if let Some(n) = v {
        assert(after[0] == 'v');
        assert(after[1] == (('0' as int) + n) as char);
        assert(after.skip(2) =~= Seq::<char>::empty());
    } else {
        assert(after.skip(0) =~= Seq::<char>::empty());
    }
    lemma_precision_prefix(dotted, d, after);
}

/// Law (error place of a specifier): when the first specifier of a string that starts with
/// `%` fails, the error's offset is 1 (just past the `%`) and its length is the number of
/// bytes up to the first ASCII whitespace after the `%` (or the end).
pub proof fn lemma_first_specifier_error(x: Seq<char>, rest: Seq<char>)
    requires
        forall|j: int| 0 <= j < x.len() ==> !is_ascii_whitespace(#[trigger] x[j]),
        rest.len() == 0 || is_ascii_whitespace(rest[0]),
        (x + rest).len() == 0 || spec_take_conversion_specifier(x + rest) is Err,
    ensures
        spec_parse_format_string(seq!['%'] + x + rest) == Err::<
            Seq<crate::types::SpecFormatElement>,
            (PrintfParseErrorKind, u32, u32),
        >(
            (
                if (x + rest).len() == 0 {
                    PrintfParseErrorKind::NoSpecifierAfterPercent
                } else {
                    spec_take_conversion_specifier(x + rest)->Err_0
                },
                1u32,
                byte_len(x) as u32,
            ),
        ),
{
    let s = seq!['%'] + x + rest;
    let r = x + rest;
    assert(s[0] == '%');
    assert(find_percent(s) == Some(0int));
    assert(s.skip(1) =~= r);
    assert(s.take(1) =~= seq!['%']);
    lemma_byte_len_single('%');
    lemma_first_whitespace(r);
    let m = first_whitespace(r);
    if m < x.len() {
        assert(r[m as int] == x[m as int]);
    }
    if m > x.len() {
        assert(r[x.len() as int] == rest[0]);
    }
    assert(r.take(x.len() as int) =~= x);
}

} // verus!

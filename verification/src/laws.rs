//! Properties of parsing and rendering taken together.

use vstd::prelude::*;

use crate::display::{
    conversion_char, decimal_chars, digit_char, element_chars, elements_chars, specifier_chars,
};
use crate::spec::{
    conversion_type_of, decimal_value, find_percent, is_digit, leading_digits, lemma_find_percent,
    lemma_take_conversion_specifier_len, prepend_elements, spec_conversion_type, spec_parse_format_string,
    spec_parse_from, spec_precision, spec_take_conversion_specifier, spec_vector_len,
};
use crate::text::{byte_len, lemma_byte_len_concat, lemma_byte_len_split};
use crate::types::{ConversionSpecifier, PrintfParseErrorKind, SpecFormatElement};

verus! {

/// A segment as the parser produces it: literal text is not empty and holds no `%`;
/// a conversion has a literal precision, and a vector length of 2, 3 or 4 if any.
pub open spec fn wf_element(e: SpecFormatElement) -> bool {
    match e {
        SpecFormatElement::Verbatim(t) => t.len() > 0 && forall|j: int|
            0 <= j < t.len() ==> t[j] != '%',
        SpecFormatElement::Format(c) => {
            &&& c.precision is Literal
            &&& c.vector_len matches Some(n) ==> 2 <= n <= 4
        },
    }
}

/// Segments as the parser produces them: each well formed, and no two literal texts
/// next to each other.
pub open spec fn wf_elements(es: Seq<SpecFormatElement>) -> bool
    decreases es.len(),
{
    if es.len() == 0 {
        true
    } else {
        &&& wf_element(es[0])
        &&& (es.len() > 1 && es[0] is Verbatim ==> es[1] is Format)
        &&& wf_elements(es.drop_first())
    }
}

/// Whatever parses successfully gives well-formed segments.
pub proof fn lemma_parse_from_wf(rem: Seq<char>, base: int)
    ensures
        spec_parse_from(rem, base) matches Ok(es) ==> wf_elements(es),
    decreases rem.len(),
{
    if rem.len() > 0 {
        lemma_find_percent(rem);
        match find_percent(rem) {
            None => {
                let es = seq![SpecFormatElement::Verbatim(rem)];
                assert(es.drop_first() =~= Seq::<SpecFormatElement>::empty());
                assert(wf_elements(es.drop_first()));
                assert(wf_element(es[0]));
                assert(wf_elements(es));
            },
            Some(p) => {
                let rest = rem.skip(p + 1);
                if rest.len() > 0 {
                    if let Ok((spec, n)) = spec_take_conversion_specifier(rest) {
                        lemma_take_conversion_specifier_len(rest);
                        let b2 = base + byte_len(rem.take(p + 1 + n));
                        lemma_parse_from_wf(rest.skip(n), b2);
                        if let Ok(tail) = spec_parse_from(rest.skip(n), b2) {
                            let f = seq![SpecFormatElement::Format(spec)];
                            assert(wf_element(SpecFormatElement::Format(spec)));
                            assert((f + tail)[0] == SpecFormatElement::Format(spec));
                            assert((f + tail).drop_first() =~= tail);
                            assert(wf_elements(f + tail));
                            if p > 0 {
                                let v = seq![SpecFormatElement::Verbatim(rem.take(p))];
                                assert((v + f + tail)[0] == SpecFormatElement::Verbatim(rem.take(p)));
                                assert((v + f + tail)[1] == SpecFormatElement::Format(spec));
                                assert((v + f + tail).drop_first() =~= f + tail);
                                assert forall|j: int| 0 <= j < p implies rem.take(p)[j] != '%' by {
                                    assert(rem.take(p)[j] == rem[j]);
                                }
                                assert(wf_element(SpecFormatElement::Verbatim(rem.take(p))));
                                assert(wf_elements(v + f + tail));
                                assert(Seq::<SpecFormatElement>::empty() + f + tail =~= f + tail);
                            } else {
                                assert(Seq::<SpecFormatElement>::empty() + f + tail =~= f + tail);
                            }
                        }
                    }
                }
            },
        }
    }
}

/// Law: every format string that parses gives well-formed segments.
pub proof fn lemma_parse_wf(s: Seq<char>)
    ensures
        spec_parse_format_string(s) matches Ok(es) ==> wf_elements(es),
{
    lemma_parse_from_wf(s, 0);
}

/// The decimal representation of a byte: one to three digits that read back as the byte.
pub(crate) proof fn lemma_decimal_chars_u8(n: u8)
    ensures
        1 <= decimal_chars(n as nat).len() <= 3,
        forall|j: int| 0 <= j < decimal_chars(n as nat).len() ==> is_digit(#[trigger] decimal_chars(n as nat)[j]),
        decimal_value(decimal_chars(n as nat), decimal_chars(n as nat).len() as int) == n,
{
    reveal_with_fuel(decimal_chars, 3);
    reveal_with_fuel(decimal_value, 4);
    let d = decimal_chars(n as nat);
    if n >= 100 {
        assert(d =~= seq![
            digit_char((n / 100) as int),
            digit_char(((n / 10) % 10) as int),
            digit_char((n % 10) as int),
        ]);
    } else if n >= 10 {
        assert(d =~= seq![digit_char((n / 10) as int), digit_char((n % 10) as int)]);
    } else {
        assert(d =~= seq![digit_char(n as int)]);
    }
}

/// Digits in front add to the count of leading digits.
pub(crate) proof fn lemma_leading_digits_concat(a: Seq<char>, b: Seq<char>)
    requires
        forall|j: int| 0 <= j < a.len() ==> is_digit(#[trigger] a[j]),
    ensures
        leading_digits(a + b) == a.len() + leading_digits(b),
    decreases a.len(),
{
    if a.len() == 0 {
        assert(a + b =~= b);
    } else {
        assert((a + b).drop_first() =~= a.drop_first() + b);
        assert((a + b)[0] == a[0]);
        assert forall|j: int| 0 <= j < a.drop_first().len() implies is_digit(
            #[trigger] a.drop_first()[j],
        ) by {
            assert(a.drop_first()[j] == a[j + 1]);
        }
        lemma_leading_digits_concat(a.drop_first(), b);
    }
}

/// Reading digits looks only at the characters read.
pub(crate) proof fn lemma_decimal_value_prefix(a: Seq<char>, b: Seq<char>, n: int)
    requires
        0 <= n <= a.len(),
    ensures
        decimal_value(a + b, n) == decimal_value(a, n),
    decreases n,
{
    if n > 0 {
        lemma_decimal_value_prefix(a, b, n - 1);
        assert((a + b)[n - 1] == a[n - 1]);
    }
}

/// No conversion character is a digit, `.`, `v`, `u` or `l`, and each names its type again.
proof fn lemma_conversion_char(c: ConversionSpecifier)
    ensures
        !is_digit(conversion_char(c.conversion_type)),
        conversion_char(c.conversion_type) != '.',
        conversion_char(c.conversion_type) != 'v',
        conversion_char(c.conversion_type) != 'u',
        conversion_char(c.conversion_type) != 'l',
        conversion_type_of(conversion_char(c.conversion_type)) == Some(c.conversion_type),
{
}

/// The text of a specifier, after its `%`, parses back to the specifier, whatever follows.
pub(crate) proof fn lemma_take_specifier_chars(c: ConversionSpecifier, t: Seq<char>)
    requires
        c.precision is Literal,
        c.vector_len matches Some(n) ==> 2 <= n <= 4,
    ensures
        spec_take_conversion_specifier(specifier_chars(c).drop_first() + t) == Ok::<
            (ConversionSpecifier, int),
            PrintfParseErrorKind,
        >((c, specifier_chars(c).len() - 1)),
{
    let ch = conversion_char(c.conversion_type);
    lemma_conversion_char(c);
    let p = c.precision->Literal_0;
    let prec = decimal_chars(p as nat);
    let vec = match c.vector_len {
        Some(n) => seq!['v'] + decimal_chars(n as nat),
        None => Seq::<char>::empty(),
    };
    let after = vec + seq![ch] + t;
    let s = specifier_chars(c).drop_first() + t;
    assert(s =~= prec + after);
    // what follows the precision does not start with a digit
    assert(after[0] == if vec.len() > 0 { 'v' } else { ch });
    assert(leading_digits(after) == 0);
    let (precision, a) = spec_precision(s);
    lemma_decimal_chars_u8(p);
    lemma_leading_digits_concat(prec, after);
    lemma_decimal_value_prefix(prec, after, prec.len() as int);
    assert(s[0] == prec[0]);
    assert(precision == c.precision && a == prec.len());
    assert(s.skip(a) =~= after);
    let u = seq![ch] + t;
    match c.vector_len {
        Some(n) => {
            reveal_with_fuel(decimal_chars, 2);
            assert(decimal_chars(n as nat) =~= seq![digit_char(n as int)]);
            assert(after[1] == digit_char(n as int));
            assert(spec_vector_len(after) == Ok::<(Option<u8>, int), PrintfParseErrorKind>((c.vector_len, 2)));
            assert(after.skip(2) =~= u);
        },
        None => {
            assert(after =~= u);
            assert(after.skip(0) =~= u);
        },
    }
    assert(u[0] == ch);
    assert(spec_conversion_type(u) == Ok::<(crate::types::ConversionType, int), PrintfParseErrorKind>((c.conversion_type, 1)));
}

/// In text without `%` followed by text that starts with `%`, the first `%` is where the
/// second part starts; text without `%` has none.
proof fn lemma_find_percent_at(t: Seq<char>, u: Seq<char>)
    requires
        forall|j: int| 0 <= j < t.len() ==> t[j] != '%',
    ensures
        find_percent(t) is None,
        u.len() > 0 && u[0] == '%' ==> find_percent(t + u) == Some(t.len() as int),
{
    lemma_find_percent(t);
    if let Some(q) = find_percent(t) {
        assert(t[q] == '%');
    }
    if u.len() > 0 && u[0] == '%' {
        let s = t + u;
        lemma_find_percent(s);
        assert(s[t.len() as int] == '%');
        match find_percent(s) {
            Some(q) => {
                if q < t.len() {
                    assert(s[q] == t[q]);
                }
            },
            None => {},
        }
    }
}

/// Text without `%` (possibly empty), then a specifier's text, then anything: parsing takes
/// the text and the specifier, and goes on with what follows.
proof fn lemma_parse_step(t: Seq<char>, c: ConversionSpecifier, tail: Seq<char>, base: int) -> (b2:
    int)
    requires
        forall|j: int| 0 <= j < t.len() ==> t[j] != '%',
        c.precision is Literal,
        c.vector_len matches Some(n) ==> 2 <= n <= 4,
    ensures
        spec_parse_from(t + (specifier_chars(c) + tail), base) == prepend_elements(
            (if t.len() == 0 {
                Seq::empty()
            } else {
                seq![SpecFormatElement::Verbatim(t)]
            }) + seq![SpecFormatElement::Format(c)],
            spec_parse_from(tail, b2),
        ),
{
    let sc = specifier_chars(c);
    let text = t + (sc + tail);
    assert((sc + tail)[0] == '%');
    lemma_find_percent_at(t, sc + tail);
    let p = t.len() as int;
    let rest = text.skip(p + 1);
    assert(rest =~= sc.drop_first() + tail);
    assert(text.take(p) =~= t);
    lemma_take_specifier_chars(c, tail);
    let n = sc.len() - 1;
    assert(rest.skip(n) =~= tail);
    let b2 = base + byte_len(text.take(p + 1 + n));
    let head = if p == 0 {
        Seq::<SpecFormatElement>::empty()
    } else {
        seq![SpecFormatElement::Verbatim(text.take(p))]
    };
    match spec_parse_from(tail, b2) {
        Ok(r) => {
            assert(head + seq![SpecFormatElement::Format(c)] + r =~= (head + seq![
                SpecFormatElement::Format(c),
            ]) + r);
        },
        Err(_) => {},
    }
    b2
}

/// The first segments of well-formed segments, and what stays well formed after them.
proof fn lemma_wf_elements_front(es: Seq<SpecFormatElement>)
    requires
        wf_elements(es),
        es.len() > 0,
    ensures
        wf_element(es[0]),
        wf_elements(es.drop_first()),
        elements_chars(es) == element_chars(es[0]) + elements_chars(es.drop_first()),
        es.len() > 1 ==> wf_element(es[1]) && wf_elements(es.drop_first().drop_first())
            && es.drop_first()[0] == es[1] && elements_chars(es.drop_first()) == element_chars(es[1])
            + elements_chars(es.drop_first().drop_first()),
        es.len() > 1 && es[0] is Verbatim ==> es[1] is Format,
{
    if es.len() > 1 {
        let r = es.drop_first();
        assert(r[0] == es[1]);
        assert(wf_elements(r));
    }
}

/// Well-formed segments, written out, parse back to themselves (wherever they start).
proof fn lemma_display_parse_from(es: Seq<SpecFormatElement>, base: int)
    requires
        wf_elements(es),
    ensures
        spec_parse_from(elements_chars(es), base) == Ok::<
            Seq<SpecFormatElement>,
            (PrintfParseErrorKind, u32, u32),
        >(es),
    decreases es.len(),
{
    if es.len() == 0 {
        assert(es =~= Seq::<SpecFormatElement>::empty());
    } else {
        lemma_wf_elements_front(es);
        let text = elements_chars(es);
        let rest_es = es.drop_first();
        if es[0] is Format {
            let c = es[0]->Format_0;
            let tail = elements_chars(rest_es);
            let e = Seq::<char>::empty();
            assert(text =~= e + (specifier_chars(c) + tail));
            let b2 = lemma_parse_step(e, c, tail, base);
            lemma_display_parse_from(rest_es, b2);
            assert(Seq::<SpecFormatElement>::empty() + seq![SpecFormatElement::Format(c)]
                + rest_es =~= es);
        } else if es.len() == 1 {
            let t = es[0]->Verbatim_0;
            assert(rest_es =~= Seq::<SpecFormatElement>::empty());
            assert(text =~= t);
            lemma_find_percent_at(t, Seq::empty());
            assert(seq![SpecFormatElement::Verbatim(t)] =~= es);
        } else {
            let t = es[0]->Verbatim_0;
            let rest2 = rest_es.drop_first();
            let c = es[1]->Format_0;
            let tail = elements_chars(rest2);
            assert(text =~= t + (specifier_chars(c) + tail));
            let b2 = lemma_parse_step(t, c, tail, base);
            lemma_display_parse_from(rest2, b2);
            assert(seq![SpecFormatElement::Verbatim(t)] + seq![SpecFormatElement::Format(c)]
                + rest2 =~= es);
        }
    }
}

/// Law: well-formed segments, written out as text, parse back to the same segments.
pub proof fn lemma_display_parse(es: Seq<SpecFormatElement>)
    requires
        wf_elements(es),
    ensures
        spec_parse_format_string(elements_chars(es)) == Ok::<
            Seq<SpecFormatElement>,
            (PrintfParseErrorKind, u32, u32),
        >(es),
{
    lemma_display_parse_from(es, 0);
}

/// Law: the text of a parsed format string parses to the same segments.
pub proof fn lemma_parse_display_parse(s: Seq<char>)
    ensures
        spec_parse_format_string(s) matches Ok(es) ==> spec_parse_format_string(elements_chars(es))
            == spec_parse_format_string(s),
{
    lemma_parse_wf(s);
    if let Ok(es) = spec_parse_format_string(s) {
        lemma_display_parse(es);
    }
}

/// Adding to an offset and then keeping the low 32 bits is the same as adding to its low
/// 32 bits, as `u32` arithmetic that wraps does.
proof fn lemma_u32_wrapping_add(x: u64, k: u64)
    requires
        x + k <= u64::MAX,
    ensures
        ((x as u32) + k) as u32 == (x + k) as u32,
{
    assert(((x as u32) + k) as u32 == (x + k) as u32) by (bit_vector)
        requires
            x + k <= u64::MAX,
    ;
}

/// Parsing from a later start gives the same segments, and error offsets moved by as much
/// (in wrapping `u32` arithmetic).
proof fn lemma_parse_from_shift(rem: Seq<char>, base: int, k: int)
    requires
        0 <= base,
        0 <= k,
        base + k + byte_len(rem) <= u64::MAX,
    ensures
        match spec_parse_from(rem, base) {
            Ok(es) => spec_parse_from(rem, base + k) == Ok::<
                Seq<SpecFormatElement>,
                (PrintfParseErrorKind, u32, u32),
            >(es),
            Err((kind, o, l)) => spec_parse_from(rem, base + k) == Err::<
                Seq<SpecFormatElement>,
                (PrintfParseErrorKind, u32, u32),
            >((kind, (o + k) as u32, l)),
        },
    decreases rem.len(),
{
    if rem.len() > 0 {
        lemma_find_percent(rem);
        if let Some(p) = find_percent(rem) {
            let rest = rem.skip(p + 1);
            lemma_byte_len_split(rem, 0, p + 1);
            assert(rem.subrange(0, p + 1) =~= rem.take(p + 1));
            let x1 = base + byte_len(rem.take(p + 1));
            lemma_u32_wrapping_add(x1 as u64, k as u64);
            if rest.len() > 0 {
                if let Ok((spec, n)) = spec_take_conversion_specifier(rest) {
                    lemma_take_conversion_specifier_len(rest);
                    let x = byte_len(rem.take(p + 1 + n)) as int;
                    assert(rem =~= rem.take(p + 1 + n) + rest.skip(n));
                    lemma_byte_len_concat(rem.take(p + 1 + n), rest.skip(n));
                    lemma_parse_from_shift(rest.skip(n), base + x, k);
                    assert(base + k + x == (base + x) + k);
                }
            }
        }
    }
}

/// Law: literal text without `%` in front of a string that starts with `%` adds one
/// literal segment in front of what that string parses to, or moves its error's offset
/// by the text's length in bytes (in `u32` arithmetic, which wraps as the offsets do).
/// The texts are those a `&str` can hold: their length in bytes fits in `usize`.
pub proof fn lemma_parse_literal_prefix(a: Seq<char>, b: Seq<char>)
    requires
        a.len() > 0,
        forall|j: int| 0 <= j < a.len() ==> a[j] != '%',
        b.len() > 0,
        b[0] == '%',
        byte_len(a + b) <= usize::MAX,
    ensures
        match spec_parse_format_string(b) {
            Ok(eb) => spec_parse_format_string(a + b) == Ok::<
                Seq<SpecFormatElement>,
                (PrintfParseErrorKind, u32, u32),
            >(seq![SpecFormatElement::Verbatim(a)] + eb),
            Err((kind, o, l)) => spec_parse_format_string(a + b) == Err::<
                Seq<SpecFormatElement>,
                (PrintfParseErrorKind, u32, u32),
            >((kind, (o + byte_len(a)) as u32, l)),
        },
{
    let s = a + b;
    let p = a.len() as int;
    lemma_find_percent_at(a, b);
    let e = Seq::<char>::empty();
    lemma_find_percent_at(e, b);
    assert(e + b =~= b);
    let rest = b.skip(1);
    assert(s.skip(p + 1) =~= rest);
    assert(s.take(p) =~= a);
    assert(s.take(p + 1) =~= a + b.take(1));
    lemma_byte_len_concat(a, b);
    lemma_byte_len_concat(a, b.take(1));
    lemma_byte_len_split(b, 0, 1);
    assert(b.subrange(0, 1) =~= b.take(1));
    lemma_u32_wrapping_add(byte_len(b.take(1)) as u64, byte_len(a) as u64);
    if rest.len() > 0 {
        if let Ok((spec, n)) = spec_take_conversion_specifier(rest) {
            lemma_take_conversion_specifier_len(rest);
            let tail = rest.skip(n);
            assert(s.take(p + 1 + n) =~= a + b.take(1 + n));
            lemma_byte_len_concat(a, b.take(1 + n));
            assert(b =~= b.take(1 + n) + tail);
            lemma_byte_len_concat(b.take(1 + n), tail);
            let y = byte_len(b.take(1 + n)) as int;
            lemma_parse_from_shift(tail, y, byte_len(a) as int);
            assert(y + byte_len(a) == byte_len(a) + y);
            assert(s.skip(p + 1).skip(n) =~= tail);
            assert(b.skip(1).skip(n) =~= tail);
            if let Ok(te) = spec_parse_from(tail, y) {
                let f = seq![SpecFormatElement::Format(spec)];
                let v = seq![SpecFormatElement::Verbatim(a)];
                assert(Seq::<SpecFormatElement>::empty() + f + te =~= f + te);
                assert(v + f + te =~= v + (f + te));
            }
        }
    }
}

/// A piece of canonical format text: one character other than `%`, or a specifier written
/// with a literal precision (a decimal numeral of at most 255 without leading zeros), an
/// optional `v2`, `v3` or `v4`, and a conversion character.
pub open spec fn canonical_piece(e: SpecFormatElement) -> bool {
    match e {
        SpecFormatElement::Verbatim(t) => t.len() == 1 && t[0] != '%',
        SpecFormatElement::Format(c) => {
            &&& c.precision is Literal
            &&& c.vector_len matches Some(n) ==> 2 <= n <= 4
        },
    }
}

/// Canonical format text: the concatenation of canonical pieces.
pub open spec fn canonical_text(s: Seq<char>) -> bool {
    exists|pieces: Seq<SpecFormatElement>|
        (forall|i: int| 0 <= i < pieces.len() ==> canonical_piece(#[trigger] pieces[i]))
            && elements_chars(pieces) == s
}

/// Merges neighbouring literal texts.
pub open spec fn merge_verbatims(ps: Seq<SpecFormatElement>) -> Seq<SpecFormatElement>
    decreases ps.len(),
{
    if ps.len() == 0 {
        Seq::empty()
    } else {
        let rest = merge_verbatims(ps.drop_first());
        match ps[0] {
            SpecFormatElement::Verbatim(t) => if rest.len() > 0 && rest[0] is Verbatim {
                seq![SpecFormatElement::Verbatim(t + rest[0]->Verbatim_0)] + rest.drop_first()
            } else {
                seq![SpecFormatElement::Verbatim(t)] + rest
            },
            SpecFormatElement::Format(c) => seq![SpecFormatElement::Format(c)] + rest,
        }
    }
}

/// Merging neighbouring literal texts of well-formed segments keeps their text and makes
/// them well formed as a sequence.
proof fn lemma_merge_verbatims(ps: Seq<SpecFormatElement>)
    requires
        forall|i: int| 0 <= i < ps.len() ==> wf_element(#[trigger] ps[i]),
    ensures
        wf_elements(merge_verbatims(ps)),
        elements_chars(merge_verbatims(ps)) == elements_chars(ps),
    decreases ps.len(),
{
    if ps.len() > 0 {
        let tl = ps.drop_first();
        assert forall|i: int| 0 <= i < tl.len() implies wf_element(#[trigger] tl[i]) by {
            assert(tl[i] == ps[i + 1]);
        }
        lemma_merge_verbatims(tl);
        let rest = merge_verbatims(tl);
        let m = merge_verbatims(ps);
        assert(wf_element(ps[0]));
        assert(elements_chars(ps) == element_chars(ps[0]) + elements_chars(tl));
        if rest.len() > 0 {
            lemma_wf_elements_front(rest);
        }
        match ps[0] {
            SpecFormatElement::Verbatim(t) => {
                if rest.len() > 0 && rest[0] is Verbatim {
                    let u = rest[0]->Verbatim_0;
                    let v = SpecFormatElement::Verbatim(t + u);
                    assert(m == seq![v] + rest.drop_first());
                    assert(m[0] == v);
                    assert(m.drop_first() =~= rest.drop_first());
                    assert(wf_element(rest[0]));
                    assert forall|j: int| 0 <= j < (t + u).len() implies (t + u)[j] != '%' by {
                        if j >= t.len() {
                            assert((t + u)[j] == u[j - t.len()]);
                        }
                    }
                    assert(wf_element(v));
                    if m.len() > 1 {
                        assert(m[1] == rest[1]);
                    }
                    assert(elements_chars(m) == element_chars(v) + elements_chars(rest.drop_first()));
                    assert(t + (u + elements_chars(rest.drop_first())) =~= (t + u) + elements_chars(
                        rest.drop_first(),
                    ));
                } else {
                    let v = SpecFormatElement::Verbatim(t);
                    assert(m == seq![v] + rest);
                    assert(m[0] == v);
                    assert(m.drop_first() =~= rest);
                    if m.len() > 1 {
                        assert(m[1] == rest[0]);
                    }
                }
            },
            SpecFormatElement::Format(c) => {
                let f = SpecFormatElement::Format(c);
                assert(m == seq![f] + rest);
                assert(m[0] == f);
                assert(m.drop_first() =~= rest);
            },
        }
    }
}

/// Law: canonical format text parses to segments whose text is that same text.
pub proof fn lemma_canonical_parse_display(s: Seq<char>)
    requires
        canonical_text(s),
    ensures
        spec_parse_format_string(s) matches Ok(es) && elements_chars(es) == s,
{
    let pieces = choose|pieces: Seq<SpecFormatElement>|
        (forall|i: int| 0 <= i < pieces.len() ==> canonical_piece(#[trigger] pieces[i]))
            && elements_chars(pieces) == s;
    assert forall|i: int| 0 <= i < pieces.len() implies wf_element(#[trigger] pieces[i]) by {
        assert(canonical_piece(pieces[i]));
    }
    lemma_merge_verbatims(pieces);
    lemma_display_parse(merge_verbatims(pieces));
}

} // verus!

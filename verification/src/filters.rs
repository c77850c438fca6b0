//! Money formatting for display.
//!
//! A formatted amount is a sign, a currency symbol, the whole units grouped
//! by thousands, a decimal separator and two digits of cents.  Positive
//! amounts are coloured green, negative ones red and zero stays neutral.

use vstd::prelude::*;
use vstd::string::*;
use crate::text::{lemma_texts_differ, push_char, str_eq, to_uppercase, upper_text};

verus! {

// ---------------------------------------------------------------------------
// Decimal digits
// ---------------------------------------------------------------------------

/// The character of a decimal digit `d` (`0 <= d < 10`).
pub open spec fn digit_char(d: int) -> char {
    (('0' as int) + d) as char
}

/// The decimal representation of `n`, without leading zeros ("0" for zero).
pub open spec fn decimal(n: nat) -> Seq<char>
    decreases n,
{
    if n < 10 {
        seq![digit_char(n as int)]
    } else {
        decimal(n / 10).push(digit_char((n % 10) as int))
    }
}

/// Two digits, zero padded (`n < 100`).
pub open spec fn pad2(n: nat) -> Seq<char> {
    seq![digit_char((n / 10) as int), digit_char((n % 10) as int)]
}

/// Three digits, zero padded (`n < 1000`).
pub open spec fn pad3(n: nat) -> Seq<char> {
    seq![digit_char((n / 100) as int), digit_char(((n / 10) % 10) as int), digit_char((n % 10) as int)]
}

/// `n` in decimal with `sep` between each group of three digits,
/// counted from the right.
pub open spec fn grouped(n: nat, sep: char) -> Seq<char>
    decreases n,
{
    if n < 1000 {
        decimal(n)
    } else {
        grouped(n / 1000, sep) + seq![sep] + pad3(n % 1000)
    }
}

/// Drops every occurrence of `c`.
pub open spec fn without(s: Seq<char>, c: char) -> Seq<char> {
    s.filter(|x: char| x != c)
}

pub open spec fn is_digit_char(c: char) -> bool {
    '0' <= c && c <= '9'
}

// ---------------------------------------------------------------------------
// Locale and currency tables
// ---------------------------------------------------------------------------

/// Locales that group with '.' and write the decimal part after ','.
pub open spec fn uses_decimal_comma(locale: Seq<char>) -> bool {
    ||| locale == "de-DE"@ ||| locale == "de-AT"@ ||| locale == "de-CH"@
    ||| locale == "fr-FR"@ ||| locale == "fr-BE"@ ||| locale == "fr-CA"@
    ||| locale == "es-ES"@ ||| locale == "es-AR"@ ||| locale == "it-IT"@
    ||| locale == "pt-BR"@ ||| locale == "pt-PT"@ ||| locale == "nl-NL"@
    ||| locale == "nl-BE"@ ||| locale == "pl-PL"@ ||| locale == "ru-RU"@
    ||| locale == "tr-TR"@ ||| locale == "vi-VN"@ ||| locale == "id-ID"@
    ||| locale == "da-DK"@ ||| locale == "nb-NO"@ ||| locale == "sv-SE"@
    ||| locale == "fi-FI"@ ||| locale == "cs-CZ"@ ||| locale == "sk-SK"@
    ||| locale == "hu-HU"@ ||| locale == "ro-RO"@ ||| locale == "bg-BG"@
    ||| locale == "uk-UA"@ ||| locale == "el-GR"@
}

/// (thousands separator, decimal separator) of a locale.
pub open spec fn separators(locale: Seq<char>) -> (char, char) {
    if uses_decimal_comma(locale) { ('.', ',') } else { (',', '.') }
}

/// The display symbol of an upper-case currency code; "$" for unknown codes.
pub open spec fn symbol_for(code: Seq<char>) -> Seq<char> {
    if code == "USD"@ { "$"@ }
    else if code == "EUR"@ { "\u{20ac}"@ }
    else if code == "GBP"@ { "\u{00a3}"@ }
    else if code == "JPY"@ { "\u{00a5}"@ }
    else if code == "CNY"@ { "\u{00a5}"@ }
    else if code == "CAD"@ { "C$"@ }
    else if code == "AUD"@ { "A$"@ }
    else if code == "CHF"@ { "CHF\u{00a0}"@ }
    else if code == "INR"@ { "\u{20b9}"@ }
    else if code == "BRL"@ { "R$"@ }
    else if code == "MXN"@ { "MX$"@ }
    else if code == "KRW"@ { "\u{20a9}"@ }
    else if code == "SEK"@ { "kr\u{00a0}"@ }
    else if code == "NOK"@ { "kr\u{00a0}"@ }
    else if code == "DKK"@ { "kr\u{00a0}"@ }
    else if code == "PLN"@ { "z\u{0142}\u{00a0}"@ }
    else if code == "RUB"@ { "\u{20bd}"@ }
    else if code == "TRY"@ { "\u{20ba}"@ }
    else if code == "ZAR"@ { "R\u{00a0}"@ }
    else if code == "SGD"@ { "S$"@ }
    else if code == "HKD"@ { "HK$"@ }
    else if code == "NZD"@ { "NZ$"@ }
    else if code == "THB"@ { "\u{0e3f}"@ }
    else { "$"@ }
}

// ---------------------------------------------------------------------------
// The formatted amount
// ---------------------------------------------------------------------------

pub open spec fn abs_cents(cents: int) -> nat {
    (if cents < 0 { -cents } else { cents }) as nat
}

/// Symbol, grouped whole units, decimal separator and two cent digits.
pub open spec fn neutral_text(cents: int, currency: Seq<char>, locale: Seq<char>) -> Seq<char> {
    let a = abs_cents(cents);
    let (tsep, dsep) = separators(locale);
    symbol_for(upper_text(currency)) + grouped(a / 100, tsep) + seq![dsep] + pad2(a % 100)
}

/// "+" for gains, "-" for losses, nothing for zero.
pub open spec fn sign_text(cents: int) -> Seq<char> {
    if cents < 0 { "-"@ } else if cents > 0 { "+"@ } else { ""@ }
}

pub open spec fn plain_text(cents: int, currency: Seq<char>, locale: Seq<char>) -> Seq<char> {
    sign_text(cents) + neutral_text(cents, currency, locale)
}

/// Tailwind classes for the colour of an amount.
pub open spec fn color_class(cents: int) -> Seq<char> {
    if cents > 0 {
        "text-green-600 dark:text-green-400"@
    } else if cents < 0 {
        "text-red-600 dark:text-red-400"@
    } else {
        "text-gray-900 dark:text-gray-100"@
    }
}

pub open spec fn html_text(cents: int, currency: Seq<char>, locale: Seq<char>) -> Seq<char> {
    "<span class=\""@ + color_class(cents) + "\">"@ + plain_text(cents, currency, locale) + "</span>"@
}

/// Format cents as a colored money display with proper locale formatting.
/// Returns HTML with appropriate Tailwind color classes.
pub fn format_money(cents: i64, currency: &str, locale: &str) -> (res: String)
    requires
        cents > i64::MIN,
    ensures
        res@ == html_text(cents as int, currency@, locale@),
{
    let (formatted, color) = format_money_impl(cents, currency, locale);
    let mut out = String::new();
    out.append("<span class=\"");
    out.append(color);
    out.append("\">");
    out.append(formatted.as_str());
    out.append("</span>");
    out
}

/// Format cents as plain text (no HTML/color), useful for inputs or exports.
pub fn format_money_plain(cents: i64, currency: &str, locale: &str) -> (res: String)
    requires
        cents > i64::MIN,
    ensures
        res@ == plain_text(cents as int, currency@, locale@),
{
    let (formatted, _) = format_money_impl(cents, currency, locale);
    formatted
}

/// Format cents as plain text without sign prefix, useful for prices/fees.
/// This is "neutral" formatting - no +/- sign, no color coding.
pub fn format_money_neutral(cents: i64, currency: &str, locale: &str) -> (res: String)
    requires
        cents > i64::MIN,
    ensures
        res@ == neutral_text(cents as int, currency@, locale@),
{
    let abs = if cents < 0 { -cents } else { cents };
    let whole = abs / 100;
    let fractional = abs % 100;
    let (thousands_sep, decimal_sep) = locale_separators(locale);
    let symbol = currency_symbol(currency);
    let mut out = String::new();
    out.append(symbol);
    push_grouped(&mut out, whole as u64, thousands_sep);
    push_char(&mut out, decimal_sep);
    push_pad2(&mut out, fractional as u64);
    out
}

fn format_money_impl(cents: i64, currency: &str, locale: &str) -> (res: (String, &'static str))
    requires
        cents > i64::MIN,
    ensures
        res.0@ == plain_text(cents as int, currency@, locale@),
        res.1@ == color_class(cents as int),
{
    let color_class = if cents > 0 {
        "text-green-600 dark:text-green-400"
    } else if cents < 0 {
        "text-red-600 dark:text-red-400"
    } else {
        "text-gray-900 dark:text-gray-100"
    };
    let neutral = format_money_neutral(cents, currency, locale);
    let mut out = String::new();
    if cents < 0 {
        out.append("-");
    } else if cents > 0 {
        out.append("+");
    } else {
        out.append("");
    }
    out.append(neutral.as_str());
    (out, color_class)
}

/// Get thousands and decimal separators based on locale.
fn locale_separators(locale: &str) -> (res: (char, char))
    ensures
        res == separators(locale@),
{
    let comma_decimal = str_eq(locale, "de-DE") || str_eq(locale, "de-AT") || str_eq(locale, "de-CH")
        || str_eq(locale, "fr-FR") || str_eq(locale, "fr-BE") || str_eq(locale, "fr-CA")
        || str_eq(locale, "es-ES") || str_eq(locale, "es-AR") || str_eq(locale, "it-IT")
        || str_eq(locale, "pt-BR") || str_eq(locale, "pt-PT") || str_eq(locale, "nl-NL")
        || str_eq(locale, "nl-BE") || str_eq(locale, "pl-PL") || str_eq(locale, "ru-RU")
        || str_eq(locale, "tr-TR") || str_eq(locale, "vi-VN") || str_eq(locale, "id-ID")
        || str_eq(locale, "da-DK") || str_eq(locale, "nb-NO") || str_eq(locale, "sv-SE")
        || str_eq(locale, "fi-FI") || str_eq(locale, "cs-CZ") || str_eq(locale, "sk-SK")
        || str_eq(locale, "hu-HU") || str_eq(locale, "ro-RO") || str_eq(locale, "bg-BG")
        || str_eq(locale, "uk-UA") || str_eq(locale, "el-GR");
    if comma_decimal { ('.', ',') } else { (',', '.') }
}

/// Format a number with thousands separators.
fn format_with_thousands(n: i64, sep: char) -> (res: String)
    requires
        n >= 0,
    ensures
        res@ == grouped(n as nat, sep),
{
    let mut out = String::new();
    push_grouped(&mut out, n as u64, sep);
    out
}

/// The display symbol of an already upper-cased currency code.
pub fn symbol_for_code(code: &str) -> (res: &'static str)
    ensures
        res@ == symbol_for(code@),
{
    if str_eq(code, "USD") { "$" }
    else if str_eq(code, "EUR") { "\u{20ac}" }
    else if str_eq(code, "GBP") { "\u{00a3}" }
    else if str_eq(code, "JPY") { "\u{00a5}" }
    else if str_eq(code, "CNY") { "\u{00a5}" }
    else if str_eq(code, "CAD") { "C$" }
    else if str_eq(code, "AUD") { "A$" }
    else if str_eq(code, "CHF") { "CHF\u{00a0}" }
    else if str_eq(code, "INR") { "\u{20b9}" }
    else if str_eq(code, "BRL") { "R$" }
    else if str_eq(code, "MXN") { "MX$" }
    else if str_eq(code, "KRW") { "\u{20a9}" }
    else if str_eq(code, "SEK") { "kr\u{00a0}" }
    else if str_eq(code, "NOK") { "kr\u{00a0}" }
    else if str_eq(code, "DKK") { "kr\u{00a0}" }
    else if str_eq(code, "PLN") { "z\u{0142}\u{00a0}" }
    else if str_eq(code, "RUB") { "\u{20bd}" }
    else if str_eq(code, "TRY") { "\u{20ba}" }
    else if str_eq(code, "ZAR") { "R\u{00a0}" }
    else if str_eq(code, "SGD") { "S$" }
    else if str_eq(code, "HKD") { "HK$" }
    else if str_eq(code, "NZD") { "NZ$" }
    else if str_eq(code, "THB") { "\u{0e3f}" }
    else { "$" }
}

/// Get currency symbol for a currency code (case-insensitive).
fn currency_symbol(currency: &str) -> (res: &'static str)
    ensures
        res@ == symbol_for(upper_text(currency@)),
{
    let upper = to_uppercase(currency);
    symbol_for_code(upper.as_str())
}

// ---------------------------------------------------------------------------
// Digit emitters
// ---------------------------------------------------------------------------

pub(crate) fn digit(d: u64) -> (c: char)
    requires
        d < 10,
    ensures
        c == digit_char(d as int),
{
    ((d as u8) + 48u8) as char
}

/// Appends `decimal(n)`.
pub(crate) fn push_decimal(out: &mut String, n: u64)
    ensures
        final(out)@ == old(out)@ + decimal(n as nat),
    decreases n,
{
    if n < 10 {
        push_char(out, digit(n));
        assert(decimal(n as nat) =~= seq![digit_char(n as int)]);
    } else {
        push_decimal(out, n / 10);
        push_char(out, digit(n % 10));
        assert(decimal(n as nat) == decimal((n / 10) as nat).push(digit_char((n % 10) as int)));
    }
}

/// Appends `pad2(n)`.
pub(crate) fn push_pad2(out: &mut String, n: u64)
    requires
        n < 100,
    ensures
        final(out)@ == old(out)@ + pad2(n as nat),
{
    push_char(out, digit(n / 10));
    push_char(out, digit(n % 10));
}

/// Appends `pad3(n)`.
pub(crate) fn push_pad3(out: &mut String, n: u64)
    requires
        n < 1000,
    ensures
        final(out)@ == old(out)@ + pad3(n as nat),
{
    push_char(out, digit(n / 100));
    push_char(out, digit((n / 10) % 10));
    push_char(out, digit(n % 10));
}

/// Appends `grouped(n, sep)`.
fn push_grouped(out: &mut String, n: u64, sep: char)
    ensures
        final(out)@ == old(out)@ + grouped(n as nat, sep),
    decreases n,
{
    if n < 1000 {
        push_decimal(out, n);
    } else {
        push_grouped(out, n / 1000, sep);
        push_char(out, sep);
        push_pad3(out, n % 1000);
    }
}

// ---------------------------------------------------------------------------
// Laws
// ---------------------------------------------------------------------------

proof fn lemma_decimal_digits(n: nat)
    ensures
        decimal(n).len() >= 1,
        forall|i: int| 0 <= i < decimal(n).len() ==> is_digit_char(#[trigger] decimal(n)[i]),
    decreases n,
{
    if n >= 10 {
        lemma_decimal_digits(n / 10);
    }
}

proof fn lemma_decimal_split3(n: nat)
    requires
        n >= 1000,
    ensures
        decimal(n) == decimal(n / 1000) + pad3(n % 1000),
{
    let a = n / 10;
    let b = a / 10;
    assert(b / 10 == n / 1000);
    assert(b % 10 == (n / 100) % 10) by {
        assert(b == n / 100);
    }
    assert(decimal(n) == decimal(a).push(digit_char((n % 10) as int)));
    assert(decimal(a) == decimal(b).push(digit_char((a % 10) as int)));
    assert(decimal(b) == decimal(b / 10).push(digit_char((b % 10) as int)));
    assert((n % 1000) / 100 == b % 10);
    assert(((n % 1000) / 10) % 10 == a % 10);
    assert((n % 1000) % 10 == n % 10);
    assert(decimal(n) =~= decimal(n / 1000) + pad3(n % 1000));
}

proof fn lemma_without_digits(s: Seq<char>, sep: char)
    requires
        !is_digit_char(sep),
        forall|i: int| 0 <= i < s.len() ==> is_digit_char(#[trigger] s[i]),
    ensures
        without(s, sep) == s,
    decreases s.len(),
{
    reveal_with_fuel(Seq::filter, 1);
    if s.len() > 0 {
        lemma_without_digits(s.drop_last(), sep);
        assert(s.drop_last().push(s.last()) =~= s);
    }
    assert(without(s, sep) =~= s);
}

proof fn lemma_without_concat(a: Seq<char>, b: Seq<char>, sep: char)
    ensures
        without(a + b, sep) == without(a, sep) + without(b, sep),
{
    Seq::filter_distributes_over_add(a, b, |x: char| x != sep);
}

/// Grouping only inserts separators: deleting every separator from the
/// grouped text gives back the plain decimal digits of the number.
pub proof fn lemma_grouping_keeps_digits(n: nat, sep: char)
    requires
        !is_digit_char(sep),
    ensures
        without(grouped(n, sep), sep) == decimal(n),
    decreases n,
{
    if n < 1000 {
        lemma_decimal_digits(n);
        lemma_without_digits(decimal(n), sep);
    } else {
        lemma_grouping_keeps_digits(n / 1000, sep);
        lemma_decimal_split3(n);
        let head = grouped(n / 1000, sep);
        let tail = pad3(n % 1000);
        lemma_without_concat(head + seq![sep], tail, sep);
        lemma_without_concat(head, seq![sep], sep);
        reveal_with_fuel(Seq::filter, 2);
        assert(without(seq![sep], sep) =~= Seq::<char>::empty());
        assert(forall|i: int| 0 <= i < tail.len() ==> is_digit_char(#[trigger] tail[i]));
        lemma_without_digits(tail, sep);
        assert(without(head + seq![sep], sep) =~= without(head, sep));
    }
}

/// The signed plain text is the sign followed by the neutral text, and an
/// amount and its negation share the same neutral text.
pub proof fn lemma_plain_is_sign_and_neutral(cents: int, currency: Seq<char>, locale: Seq<char>)
    ensures
        plain_text(cents, currency, locale) == sign_text(cents) + neutral_text(cents, currency, locale),
        neutral_text(cents, currency, locale) == neutral_text(-cents, currency, locale),
{
}

/// The currency codes that have a display symbol of their own.
pub open spec fn listed_currencies() -> Seq<Seq<char>> {
    seq!["USD"@, "EUR"@, "GBP"@, "JPY"@, "CNY"@, "CAD"@, "AUD"@, "CHF"@, "INR"@, "BRL"@, "MXN"@, "KRW"@, "SEK"@, "NOK"@, "DKK"@, "PLN"@, "RUB"@, "TRY"@, "ZAR"@, "SGD"@, "HKD"@, "NZD"@, "THB"@]
}

/// Only the US dollar, and codes without a symbol of their own, are
/// shown with the plain dollar sign: every other listed currency (JPY's
/// yen sign, EUR's euro sign, ...) has a different symbol.
pub proof fn lemma_plain_dollar_only_for_usd(code: Seq<char>)
    ensures
        symbol_for(code) == "$"@ <==> (code == "USD"@ || !listed_currencies().contains(code)),
{
    reveal_strlit("$");
    reveal_strlit("USD");
    reveal_strlit("EUR");
    reveal_strlit("GBP");
    reveal_strlit("JPY");
    reveal_strlit("CNY");
    reveal_strlit("CAD");
    reveal_strlit("AUD");
    reveal_strlit("CHF");
    reveal_strlit("INR");
    reveal_strlit("BRL");
    reveal_strlit("MXN");
    reveal_strlit("KRW");
    reveal_strlit("SEK");
    reveal_strlit("NOK");
    reveal_strlit("DKK");
    reveal_strlit("PLN");
    reveal_strlit("RUB");
    reveal_strlit("TRY");
    reveal_strlit("ZAR");
    reveal_strlit("SGD");
    reveal_strlit("HKD");
    reveal_strlit("NZD");
    reveal_strlit("THB");
    let l = listed_currencies();
    assert(l[0] == "USD"@);
    assert(l[1] == "EUR"@);
    assert(l[2] == "GBP"@);
    assert(l[3] == "JPY"@);
    assert(l[4] == "CNY"@);
    assert(l[5] == "CAD"@);
    assert(l[6] == "AUD"@);
    assert(l[7] == "CHF"@);
    assert(l[8] == "INR"@);
    assert(l[9] == "BRL"@);
    assert(l[10] == "MXN"@);
    assert(l[11] == "KRW"@);
    assert(l[12] == "SEK"@);
    assert(l[13] == "NOK"@);
    assert(l[14] == "DKK"@);
    assert(l[15] == "PLN"@);
    assert(l[16] == "RUB"@);
    assert(l[17] == "TRY"@);
    assert(l[18] == "ZAR"@);
    assert(l[19] == "SGD"@);
    assert(l[20] == "HKD"@);
    assert(l[21] == "NZD"@);
    assert(l[22] == "THB"@);
    if l.contains(code) && code != "USD"@ {
        let i = choose|i: int| 0 <= i < l.len() && l[i] == code;
        if i == 1 {
            assert(symbol_for(code) != "$"@) by {
                lemma_texts_differ("EUR"@, "USD"@, 0);
                reveal_strlit("\u{20ac}");
                assert(symbol_for("EUR"@) == "\u{20ac}"@);
                lemma_texts_differ("\u{20ac}"@, "$"@, 0);
            }
        }
        if i == 2 {
            assert(symbol_for(code) != "$"@) by {
                lemma_texts_differ("GBP"@, "USD"@, 0);
                lemma_texts_differ("GBP"@, "EUR"@, 0);
                reveal_strlit("\u{00a3}");
                assert(symbol_for("GBP"@) == "\u{00a3}"@);
                lemma_texts_differ("\u{00a3}"@, "$"@, 0);
            }
        }
        if i == 3 {
            assert(symbol_for(code) != "$"@) by {
                lemma_texts_differ("JPY"@, "USD"@, 0);
                lemma_texts_differ("JPY"@, "EUR"@, 0);
                lemma_texts_differ("JPY"@, "GBP"@, 0);
                reveal_strlit("\u{00a5}");
                assert(symbol_for("JPY"@) == "\u{00a5}"@);
                lemma_texts_differ("\u{00a5}"@, "$"@, 0);
            }
        }
        if i == 4 {
            assert(symbol_for(code) != "$"@) by {
                lemma_texts_differ("CNY"@, "USD"@, 0);
                lemma_texts_differ("CNY"@, "EUR"@, 0);
                lemma_texts_differ("CNY"@, "GBP"@, 0);
                lemma_texts_differ("CNY"@, "JPY"@, 0);
                reveal_strlit("\u{00a5}");
                assert(symbol_for("CNY"@) == "\u{00a5}"@);
                lemma_texts_differ("\u{00a5}"@, "$"@, 0);
            }
        }
        if i == 5 {
            assert(symbol_for(code) != "$"@) by {
                lemma_texts_differ("CAD"@, "USD"@, 0);
                lemma_texts_differ("CAD"@, "EUR"@, 0);
                lemma_texts_differ("CAD"@, "GBP"@, 0);
                lemma_texts_differ("CAD"@, "JPY"@, 0);
                lemma_texts_differ("CAD"@, "CNY"@, 1);
                reveal_strlit("C$");
                assert(symbol_for("CAD"@) == "C$"@);
                lemma_texts_differ("C$"@, "$"@, 0);
            }
        }
        if i == 6 {
            assert(symbol_for(code) != "$"@) by {
                lemma_texts_differ("AUD"@, "USD"@, 0);
                lemma_texts_differ("AUD"@, "EUR"@, 0);
                lemma_texts_differ("AUD"@, "GBP"@, 0);
                lemma_texts_differ("AUD"@, "JPY"@, 0);
                lemma_texts_differ("AUD"@, "CNY"@, 0);
                lemma_texts_differ("AUD"@, "CAD"@, 0);
                reveal_strlit("A$");
                assert(symbol_for("AUD"@) == "A$"@);
                lemma_texts_differ("A$"@, "$"@, 0);
            }
        }
        if i == 7 {
            assert(symbol_for(code) != "$"@) by {
                lemma_texts_differ("CHF"@, "USD"@, 0);
                lemma_texts_differ("CHF"@, "EUR"@, 0);
                lemma_texts_differ("CHF"@, "GBP"@, 0);
                lemma_texts_differ("CHF"@, "JPY"@, 0);
                lemma_texts_differ("CHF"@, "CNY"@, 1);
                lemma_texts_differ("CHF"@, "CAD"@, 1);
                lemma_texts_differ("CHF"@, "AUD"@, 0);
                reveal_strlit("CHF\u{00a0}");
                assert(symbol_for("CHF"@) == "CHF\u{00a0}"@);
                lemma_texts_differ("CHF\u{00a0}"@, "$"@, 0);
            }
        }
        if i == 8 {
            assert(symbol_for(code) != "$"@) by {
                lemma_texts_differ("INR"@, "USD"@, 0);
                lemma_texts_differ("INR"@, "EUR"@, 0);
                lemma_texts_differ("INR"@, "GBP"@, 0);
                lemma_texts_differ("INR"@, "JPY"@, 0);
                lemma_texts_differ("INR"@, "CNY"@, 0);
                lemma_texts_differ("INR"@, "CAD"@, 0);
                lemma_texts_differ("INR"@, "AUD"@, 0);
                lemma_texts_differ("INR"@, "CHF"@, 0);
                reveal_strlit("\u{20b9}");
                assert(symbol_for("INR"@) == "\u{20b9}"@);
                lemma_texts_differ("\u{20b9}"@, "$"@, 0);
            }
        }
        if i == 9 {
            assert(symbol_for(code) != "$"@) by {
                lemma_texts_differ("BRL"@, "USD"@, 0);
                lemma_texts_differ("BRL"@, "EUR"@, 0);
                lemma_texts_differ("BRL"@, "GBP"@, 0);
                lemma_texts_differ("BRL"@, "JPY"@, 0);
                lemma_texts_differ("BRL"@, "CNY"@, 0);
                lemma_texts_differ("BRL"@, "CAD"@, 0);
                lemma_texts_differ("BRL"@, "AUD"@, 0);
                lemma_texts_differ("BRL"@, "CHF"@, 0);
                lemma_texts_differ("BRL"@, "INR"@, 0);
                reveal_strlit("R$");
                assert(symbol_for("BRL"@) == "R$"@);
                lemma_texts_differ("R$"@, "$"@, 0);
            }
        }
        if i == 10 {
            assert(symbol_for(code) != "$"@) by {
                lemma_texts_differ("MXN"@, "USD"@, 0);
                lemma_texts_differ("MXN"@, "EUR"@, 0);
                lemma_texts_differ("MXN"@, "GBP"@, 0);
                lemma_texts_differ("MXN"@, "JPY"@, 0);
                lemma_texts_differ("MXN"@, "CNY"@, 0);
                lemma_texts_differ("MXN"@, "CAD"@, 0);
                lemma_texts_differ("MXN"@, "AUD"@, 0);
                lemma_texts_differ("MXN"@, "CHF"@, 0);
                lemma_texts_differ("MXN"@, "INR"@, 0);
                lemma_texts_differ("MXN"@, "BRL"@, 0);
                reveal_strlit("MX$");
                assert(symbol_for("MXN"@) == "MX$"@);
                lemma_texts_differ("MX$"@, "$"@, 0);
            }
        }
        if i == 11 {
            assert(symbol_for(code) != "$"@) by {
                lemma_texts_differ("KRW"@, "USD"@, 0);
                lemma_texts_differ("KRW"@, "EUR"@, 0);
                lemma_texts_differ("KRW"@, "GBP"@, 0);
                lemma_texts_differ("KRW"@, "JPY"@, 0);
                lemma_texts_differ("KRW"@, "CNY"@, 0);
                lemma_texts_differ("KRW"@, "CAD"@, 0);
                lemma_texts_differ("KRW"@, "AUD"@, 0);
                lemma_texts_differ("KRW"@, "CHF"@, 0);
                lemma_texts_differ("KRW"@, "INR"@, 0);
                lemma_texts_differ("KRW"@, "BRL"@, 0);
                lemma_texts_differ("KRW"@, "MXN"@, 0);
                reveal_strlit("\u{20a9}");
                assert(symbol_for("KRW"@) == "\u{20a9}"@);
                lemma_texts_differ("\u{20a9}"@, "$"@, 0);
            }
        }
        if i == 12 {
            assert(symbol_for(code) != "$"@) by {
                lemma_texts_differ("SEK"@, "USD"@, 0);
                lemma_texts_differ("SEK"@, "EUR"@, 0);
                lemma_texts_differ("SEK"@, "GBP"@, 0);
                lemma_texts_differ("SEK"@, "JPY"@, 0);
                lemma_texts_differ("SEK"@, "CNY"@, 0);
                lemma_texts_differ("SEK"@, "CAD"@, 0);
                lemma_texts_differ("SEK"@, "AUD"@, 0);
                lemma_texts_differ("SEK"@, "CHF"@, 0);
                lemma_texts_differ("SEK"@, "INR"@, 0);
                lemma_texts_differ("SEK"@, "BRL"@, 0);
                lemma_texts_differ("SEK"@, "MXN"@, 0);
                lemma_texts_differ("SEK"@, "KRW"@, 0);
                reveal_strlit("kr\u{00a0}");
                assert(symbol_for("SEK"@) == "kr\u{00a0}"@);
                lemma_texts_differ("kr\u{00a0}"@, "$"@, 0);
            }
        }
        if i == 13 {
            assert(symbol_for(code) != "$"@) by {
                lemma_texts_differ("NOK"@, "USD"@, 0);
                lemma_texts_differ("NOK"@, "EUR"@, 0);
                lemma_texts_differ("NOK"@, "GBP"@, 0);
                lemma_texts_differ("NOK"@, "JPY"@, 0);
                lemma_texts_differ("NOK"@, "CNY"@, 0);
                lemma_texts_differ("NOK"@, "CAD"@, 0);
                lemma_texts_differ("NOK"@, "AUD"@, 0);
                lemma_texts_differ("NOK"@, "CHF"@, 0);
                lemma_texts_differ("NOK"@, "INR"@, 0);
                lemma_texts_differ("NOK"@, "BRL"@, 0);
                lemma_texts_differ("NOK"@, "MXN"@, 0);
                lemma_texts_differ("NOK"@, "KRW"@, 0);
                lemma_texts_differ("NOK"@, "SEK"@, 0);
                reveal_strlit("kr\u{00a0}");
                assert(symbol_for("NOK"@) == "kr\u{00a0}"@);
                lemma_texts_differ("kr\u{00a0}"@, "$"@, 0);
            }
        }
        if i == 14 {
            assert(symbol_for(code) != "$"@) by {
                lemma_texts_differ("DKK"@, "USD"@, 0);
                lemma_texts_differ("DKK"@, "EUR"@, 0);
                lemma_texts_differ("DKK"@, "GBP"@, 0);
                lemma_texts_differ("DKK"@, "JPY"@, 0);
                lemma_texts_differ("DKK"@, "CNY"@, 0);
                lemma_texts_differ("DKK"@, "CAD"@, 0);
                lemma_texts_differ("DKK"@, "AUD"@, 0);
                lemma_texts_differ("DKK"@, "CHF"@, 0);
                lemma_texts_differ("DKK"@, "INR"@, 0);
                lemma_texts_differ("DKK"@, "BRL"@, 0);
                lemma_texts_differ("DKK"@, "MXN"@, 0);
                lemma_texts_differ("DKK"@, "KRW"@, 0);
                lemma_texts_differ("DKK"@, "SEK"@, 0);
                lemma_texts_differ("DKK"@, "NOK"@, 0);
                reveal_strlit("kr\u{00a0}");
                assert(symbol_for("DKK"@) == "kr\u{00a0}"@);
                lemma_texts_differ("kr\u{00a0}"@, "$"@, 0);
            }
        }
        if i == 15 {
            assert(symbol_for(code) != "$"@) by {
                lemma_texts_differ("PLN"@, "USD"@, 0);
                lemma_texts_differ("PLN"@, "EUR"@, 0);
                lemma_texts_differ("PLN"@, "GBP"@, 0);
                lemma_texts_differ("PLN"@, "JPY"@, 0);
                lemma_texts_differ("PLN"@, "CNY"@, 0);
                lemma_texts_differ("PLN"@, "CAD"@, 0);
                lemma_texts_differ("PLN"@, "AUD"@, 0);
                lemma_texts_differ("PLN"@, "CHF"@, 0);
                lemma_texts_differ("PLN"@, "INR"@, 0);
                lemma_texts_differ("PLN"@, "BRL"@, 0);
                lemma_texts_differ("PLN"@, "MXN"@, 0);
                lemma_texts_differ("PLN"@, "KRW"@, 0);
                lemma_texts_differ("PLN"@, "SEK"@, 0);
                lemma_texts_differ("PLN"@, "NOK"@, 0);
                lemma_texts_differ("PLN"@, "DKK"@, 0);
                reveal_strlit("z\u{0142}\u{00a0}");
                assert(symbol_for("PLN"@) == "z\u{0142}\u{00a0}"@);
                lemma_texts_differ("z\u{0142}\u{00a0}"@, "$"@, 0);
            }
        }
        if i == 16 {
            assert(symbol_for(code) != "$"@) by {
                lemma_texts_differ("RUB"@, "USD"@, 0);
                lemma_texts_differ("RUB"@, "EUR"@, 0);
                lemma_texts_differ("RUB"@, "GBP"@, 0);
                lemma_texts_differ("RUB"@, "JPY"@, 0);
                lemma_texts_differ("RUB"@, "CNY"@, 0);
                lemma_texts_differ("RUB"@, "CAD"@, 0);
                lemma_texts_differ("RUB"@, "AUD"@, 0);
                lemma_texts_differ("RUB"@, "CHF"@, 0);
                lemma_texts_differ("RUB"@, "INR"@, 0);
                lemma_texts_differ("RUB"@, "BRL"@, 0);
                lemma_texts_differ("RUB"@, "MXN"@, 0);
                lemma_texts_differ("RUB"@, "KRW"@, 0);
                lemma_texts_differ("RUB"@, "SEK"@, 0);
                lemma_texts_differ("RUB"@, "NOK"@, 0);
                lemma_texts_differ("RUB"@, "DKK"@, 0);
                lemma_texts_differ("RUB"@, "PLN"@, 0);
                reveal_strlit("\u{20bd}");
                assert(symbol_for("RUB"@) == "\u{20bd}"@);
                lemma_texts_differ("\u{20bd}"@, "$"@, 0);
            }
        }
        if i == 17 {
            assert(symbol_for(code) != "$"@) by {
                lemma_texts_differ("TRY"@, "USD"@, 0);
                lemma_texts_differ("TRY"@, "EUR"@, 0);
                lemma_texts_differ("TRY"@, "GBP"@, 0);
                lemma_texts_differ("TRY"@, "JPY"@, 0);
                lemma_texts_differ("TRY"@, "CNY"@, 0);
                lemma_texts_differ("TRY"@, "CAD"@, 0);
                lemma_texts_differ("TRY"@, "AUD"@, 0);
                lemma_texts_differ("TRY"@, "CHF"@, 0);
                lemma_texts_differ("TRY"@, "INR"@, 0);
                lemma_texts_differ("TRY"@, "BRL"@, 0);
                lemma_texts_differ("TRY"@, "MXN"@, 0);
                lemma_texts_differ("TRY"@, "KRW"@, 0);
                lemma_texts_differ("TRY"@, "SEK"@, 0);
                lemma_texts_differ("TRY"@, "NOK"@, 0);
                lemma_texts_differ("TRY"@, "DKK"@, 0);
                lemma_texts_differ("TRY"@, "PLN"@, 0);
                lemma_texts_differ("TRY"@, "RUB"@, 0);
                reveal_strlit("\u{20ba}");
                assert(symbol_for("TRY"@) == "\u{20ba}"@);
                lemma_texts_differ("\u{20ba}"@, "$"@, 0);
            }
        }
        if i == 18 {
            assert(symbol_for(code) != "$"@) by {
                lemma_texts_differ("ZAR"@, "USD"@, 0);
                lemma_texts_differ("ZAR"@, "EUR"@, 0);
                lemma_texts_differ("ZAR"@, "GBP"@, 0);
                lemma_texts_differ("ZAR"@, "JPY"@, 0);
                lemma_texts_differ("ZAR"@, "CNY"@, 0);
                lemma_texts_differ("ZAR"@, "CAD"@, 0);
                lemma_texts_differ("ZAR"@, "AUD"@, 0);
                lemma_texts_differ("ZAR"@, "CHF"@, 0);
                lemma_texts_differ("ZAR"@, "INR"@, 0);
                lemma_texts_differ("ZAR"@, "BRL"@, 0);
                lemma_texts_differ("ZAR"@, "MXN"@, 0);
                lemma_texts_differ("ZAR"@, "KRW"@, 0);
                lemma_texts_differ("ZAR"@, "SEK"@, 0);
                lemma_texts_differ("ZAR"@, "NOK"@, 0);
                lemma_texts_differ("ZAR"@, "DKK"@, 0);
                lemma_texts_differ("ZAR"@, "PLN"@, 0);
                lemma_texts_differ("ZAR"@, "RUB"@, 0);
                lemma_texts_differ("ZAR"@, "TRY"@, 0);
                reveal_strlit("R\u{00a0}");
                assert(symbol_for("ZAR"@) == "R\u{00a0}"@);
                lemma_texts_differ("R\u{00a0}"@, "$"@, 0);
            }
        }
        if i == 19 {
            assert(symbol_for(code) != "$"@) by {
                lemma_texts_differ("SGD"@, "USD"@, 0);
                lemma_texts_differ("SGD"@, "EUR"@, 0);
                lemma_texts_differ("SGD"@, "GBP"@, 0);
                lemma_texts_differ("SGD"@, "JPY"@, 0);
                lemma_texts_differ("SGD"@, "CNY"@, 0);
                lemma_texts_differ("SGD"@, "CAD"@, 0);
                lemma_texts_differ("SGD"@, "AUD"@, 0);
                lemma_texts_differ("SGD"@, "CHF"@, 0);
                lemma_texts_differ("SGD"@, "INR"@, 0);
                lemma_texts_differ("SGD"@, "BRL"@, 0);
                lemma_texts_differ("SGD"@, "MXN"@, 0);
                lemma_texts_differ("SGD"@, "KRW"@, 0);
                lemma_texts_differ("SGD"@, "SEK"@, 1);
                lemma_texts_differ("SGD"@, "NOK"@, 0);
                lemma_texts_differ("SGD"@, "DKK"@, 0);
                lemma_texts_differ("SGD"@, "PLN"@, 0);
                lemma_texts_differ("SGD"@, "RUB"@, 0);
                lemma_texts_differ("SGD"@, "TRY"@, 0);
                lemma_texts_differ("SGD"@, "ZAR"@, 0);
                reveal_strlit("S$");
                assert(symbol_for("SGD"@) == "S$"@);
                lemma_texts_differ("S$"@, "$"@, 0);
            }
        }
        if i == 20 {
            assert(symbol_for(code) != "$"@) by {
                lemma_texts_differ("HKD"@, "USD"@, 0);
                lemma_texts_differ("HKD"@, "EUR"@, 0);
                lemma_texts_differ("HKD"@, "GBP"@, 0);
                lemma_texts_differ("HKD"@, "JPY"@, 0);
                lemma_texts_differ("HKD"@, "CNY"@, 0);
                lemma_texts_differ("HKD"@, "CAD"@, 0);
                lemma_texts_differ("HKD"@, "AUD"@, 0);
                lemma_texts_differ("HKD"@, "CHF"@, 0);
                lemma_texts_differ("HKD"@, "INR"@, 0);
                lemma_texts_differ("HKD"@, "BRL"@, 0);
                lemma_texts_differ("HKD"@, "MXN"@, 0);
                lemma_texts_differ("HKD"@, "KRW"@, 0);
                lemma_texts_differ("HKD"@, "SEK"@, 0);
                lemma_texts_differ("HKD"@, "NOK"@, 0);
                lemma_texts_differ("HKD"@, "DKK"@, 0);
                lemma_texts_differ("HKD"@, "PLN"@, 0);
                lemma_texts_differ("HKD"@, "RUB"@, 0);
                lemma_texts_differ("HKD"@, "TRY"@, 0);
                lemma_texts_differ("HKD"@, "ZAR"@, 0);
                lemma_texts_differ("HKD"@, "SGD"@, 0);
                reveal_strlit("HK$");
                assert(symbol_for("HKD"@) == "HK$"@);
                lemma_texts_differ("HK$"@, "$"@, 0);
            }
        }
        if i == 21 {
            assert(symbol_for(code) != "$"@) by {
                lemma_texts_differ("NZD"@, "USD"@, 0);
                lemma_texts_differ("NZD"@, "EUR"@, 0);
                lemma_texts_differ("NZD"@, "GBP"@, 0);
                lemma_texts_differ("NZD"@, "JPY"@, 0);
                lemma_texts_differ("NZD"@, "CNY"@, 0);
                lemma_texts_differ("NZD"@, "CAD"@, 0);
                lemma_texts_differ("NZD"@, "AUD"@, 0);
                lemma_texts_differ("NZD"@, "CHF"@, 0);
                lemma_texts_differ("NZD"@, "INR"@, 0);
                lemma_texts_differ("NZD"@, "BRL"@, 0);
                lemma_texts_differ("NZD"@, "MXN"@, 0);
                lemma_texts_differ("NZD"@, "KRW"@, 0);
                lemma_texts_differ("NZD"@, "SEK"@, 0);
                lemma_texts_differ("NZD"@, "NOK"@, 1);
                lemma_texts_differ("NZD"@, "DKK"@, 0);
                lemma_texts_differ("NZD"@, "PLN"@, 0);
                lemma_texts_differ("NZD"@, "RUB"@, 0);
                lemma_texts_differ("NZD"@, "TRY"@, 0);
                lemma_texts_differ("NZD"@, "ZAR"@, 0);
                lemma_texts_differ("NZD"@, "SGD"@, 0);
                lemma_texts_differ("NZD"@, "HKD"@, 0);
                reveal_strlit("NZ$");
                assert(symbol_for("NZD"@) == "NZ$"@);
                lemma_texts_differ("NZ$"@, "$"@, 0);
            }
        }
        if i == 22 {
            assert(symbol_for(code) != "$"@) by {
                lemma_texts_differ("THB"@, "USD"@, 0);
                lemma_texts_differ("THB"@, "EUR"@, 0);
                lemma_texts_differ("THB"@, "GBP"@, 0);
                lemma_texts_differ("THB"@, "JPY"@, 0);
                lemma_texts_differ("THB"@, "CNY"@, 0);
                lemma_texts_differ("THB"@, "CAD"@, 0);
                lemma_texts_differ("THB"@, "AUD"@, 0);
                lemma_texts_differ("THB"@, "CHF"@, 0);
                lemma_texts_differ("THB"@, "INR"@, 0);
                lemma_texts_differ("THB"@, "BRL"@, 0);
                lemma_texts_differ("THB"@, "MXN"@, 0);
                lemma_texts_differ("THB"@, "KRW"@, 0);
                lemma_texts_differ("THB"@, "SEK"@, 0);
                lemma_texts_differ("THB"@, "NOK"@, 0);
                lemma_texts_differ("THB"@, "DKK"@, 0);
                lemma_texts_differ("THB"@, "PLN"@, 0);
                lemma_texts_differ("THB"@, "RUB"@, 0);
                lemma_texts_differ("THB"@, "TRY"@, 1);
                lemma_texts_differ("THB"@, "ZAR"@, 0);
                lemma_texts_differ("THB"@, "SGD"@, 0);
                lemma_texts_differ("THB"@, "HKD"@, 0);
                lemma_texts_differ("THB"@, "NZD"@, 0);
                reveal_strlit("\u{0e3f}");
                assert(symbol_for("THB"@) == "\u{0e3f}"@);
                lemma_texts_differ("\u{0e3f}"@, "$"@, 0);
            }
        }
    }
    if !l.contains(code) {
        assert(code != "USD"@);
        assert(code != "EUR"@);
        assert(code != "GBP"@);
        assert(code != "JPY"@);
        assert(code != "CNY"@);
        assert(code != "CAD"@);
        assert(code != "AUD"@);
        assert(code != "CHF"@);
        assert(code != "INR"@);
        assert(code != "BRL"@);
        assert(code != "MXN"@);
        assert(code != "KRW"@);
        assert(code != "SEK"@);
        assert(code != "NOK"@);
        assert(code != "DKK"@);
        assert(code != "PLN"@);
        assert(code != "RUB"@);
        assert(code != "TRY"@);
        assert(code != "ZAR"@);
        assert(code != "SGD"@);
        assert(code != "HKD"@);
        assert(code != "NZD"@);
        assert(code != "THB"@);
    }
}

/// The currency code is read regardless of letter case: an ASCII code
/// formats the same as its upper-case form ("usd" as "USD").
pub proof fn lemma_currency_case_insensitive(cents: int, code: Seq<char>, locale: Seq<char>)
    requires
        crate::text::all_ascii(code),
    ensures
        neutral_text(cents, code, locale) == neutral_text(cents, upper_text(code), locale),
{
    let u = code.map_values(|c: char| crate::text::ascii_upper(c));
    assert(upper_text(code) == u);
    assert forall|i: int| 0 <= i < u.len() implies (#[trigger] u[i] as u32) < 128 by {
        assert((code[i] as u32) < 128);
    }
    assert(crate::text::all_ascii(u));
    assert(upper_text(u) =~= u);
}

/// Every locale separates thousands and decimals with the two marks ','
/// and '.', one each, so an amount never reads ambiguously.
pub proof fn lemma_separators_differ(locale: Seq<char>)
    ensures
        separators(locale).0 != separators(locale).1,
        (separators(locale).0 == ',' && separators(locale).1 == '.') || (separators(locale).0 == '.'
            && separators(locale).1 == ','),
{
}

} // verus!

//! The parser for the canonical vault text of [`crate::schema`].
//!
//! The grammar is defined by spec functions in consume-prefix style: each
//! takes the remaining characters and yields the parsed value and the rest,
//! or `None`. The executable parser is proved to compute exactly these
//! functions, and the round-trip lemmas prove that parsing a serialized
//! vault gives back the vault: [`lemma_parse_vault_roundtrip`].
//!
//! The parser accepts precisely the canonical form the serializer emits —
//! no extra whitespace, no alternative escapes, no reordered fields — and
//! it checks what the vault's invariants need: every entry key equals the
//! entry's name, every entry's stored bytes are the decoding of its secret,
//! and no name repeats.

use vstd::prelude::*;

use crate::entry::{base32_decoding, AppView, GenApp};
use crate::errors::VaultError;
use crate::schema::{
    bytes_array, bytes_items, dec_digit, dec_u8, entries_body, escape, escape_char, hex_digit,
    l_bytes, l_content, l_name, l_secret, l_username, l_version, quoted, ser_app,
    ser_entries, ser_entry, ser_vault, unique_names,
};

verus! {

/// Every entry of a sequence is well formed.
pub open spec fn apps_wf(apps: Seq<AppView>) -> bool {
    forall|i: int| 0 <= i < apps.len() ==> crate::entry::app_wf(#[trigger] apps[i])
}

/// The remainder of `s` after the expected literal `lit`, or `None` if `s`
/// does not start with `lit`.
pub open spec fn after_lit(s: Seq<char>, lit: Seq<char>) -> Option<Seq<char>> {
    if lit.len() <= s.len() && s.take(lit.len() as int) == lit {
        Some(s.skip(lit.len() as int))
    } else {
        None
    }
}

/// An ASCII decimal digit.
pub open spec fn is_dec_digit(c: char) -> bool {
    48 <= c as u32 <= 57
}

/// The value of a decimal digit.
pub open spec fn dec_val(c: char) -> int {
    (c as u32) as int - 48
}

/// A lower-case hexadecimal digit, as the escapes of the canonical form
/// spell them.
pub open spec fn is_hex_digit(c: char) -> bool {
    is_dec_digit(c) || (97 <= c as u32 <= 102)
}

/// The value of a hexadecimal digit.
pub open spec fn hex_val(c: char) -> int {
    if is_dec_digit(c) {
        dec_val(c)
    } else {
        (c as u32) as int - 87
    }
}

/// Parse a byte written in decimal: one to three digits, no leading zeros,
/// value below 256, not followed by a further digit.
pub open spec fn spec_parse_u8(s: Seq<char>) -> Option<(u8, Seq<char>)> {
    if s.len() >= 1 && is_dec_digit(s[0]) {
        if s.len() >= 2 && is_dec_digit(s[1]) {
            if s[0] == '0' {
                None
            } else if s.len() >= 3 && is_dec_digit(s[2]) {
                if s.len() >= 4 && is_dec_digit(s[3]) {
                    None
                } else {
                    let v = dec_val(s[0]) * 100 + dec_val(s[1]) * 10 + dec_val(s[2]);
                    if v < 256 {
                        Some((v as u8, s.skip(3)))
                    } else {
                        None
                    }
                }
            } else {
                Some(((dec_val(s[0]) * 10 + dec_val(s[1])) as u8, s.skip(2)))
            }
        } else {
            Some((dec_val(s[0]) as u8, s.skip(1)))
        }
    } else {
        None
    }
}

/// Scan a string body up to and including its closing quote, undoing the
/// escapes of the canonical form: `\"`, `\\`, and `\u00XX` for a control
/// character. Raw control characters and any other escape are refused.
pub open spec fn spec_scan_string(s: Seq<char>) -> Option<(Seq<char>, Seq<char>)>
    decreases s.len(),
{
    if s.len() == 0 {
        None
    } else if s[0] == '"' {
        Some((Seq::empty(), s.drop_first()))
    } else if s[0] == '\\' {
        if s.len() >= 2 && (s[1] == '"' || s[1] == '\\') {
            match spec_scan_string(s.skip(2)) {
                Some(tr) => Some((seq![s[1]] + tr.0, tr.1)),
                None => None,
            }
        } else if s.len() >= 6 && s[1] == 'u' && s[2] == '0' && s[3] == '0' && is_hex_digit(s[4])
            && is_hex_digit(s[5]) && hex_val(s[4]) * 16 + hex_val(s[5]) < 32 {
            match spec_scan_string(s.skip(6)) {
                Some(tr) => Some((seq![((hex_val(s[4]) * 16 + hex_val(s[5])) as u32) as char] + tr.0, tr.1)),
                None => None,
            }
        } else {
            None
        }
    } else if (s[0] as u32) < 32 {
        None
    } else {
        match spec_scan_string(s.drop_first()) {
            Some(tr) => Some((seq![s[0]] + tr.0, tr.1)),
            None => None,
        }
    }
}

/// A successful number parse consumes at least one character.
pub proof fn lemma_parse_u8_consumes(s: Seq<char>)
    ensures
        spec_parse_u8(s) matches Some(nr) ==> nr.1.len() < s.len(),
{
}

/// A successful string scan consumes at least the closing quote.
pub proof fn lemma_scan_string_consumes(s: Seq<char>)
    ensures
        spec_scan_string(s) matches Some(tr) ==> tr.1.len() < s.len(),
    decreases s.len(),
{
    if s.len() == 0 {
    } else if s[0] == '"' {
    } else if s[0] == '\\' {
        if s.len() >= 2 && (s[1] == '"' || s[1] == '\\') {
            lemma_scan_string_consumes(s.skip(2));
        } else if s.len() >= 6 && s[1] == 'u' && s[2] == '0' && s[3] == '0' && is_hex_digit(s[4])
            && is_hex_digit(s[5]) && hex_val(s[4]) * 16 + hex_val(s[5]) < 32 {
            lemma_scan_string_consumes(s.skip(6));
        }
    } else {
        lemma_scan_string_consumes(s.drop_first());
    }
}

/// Parse the items of a non-empty byte array, up to and including the
/// closing bracket.
pub open spec fn spec_parse_items(s: Seq<char>) -> Option<(Seq<u8>, Seq<char>)>
    decreases s.len(),
    via spec_parse_items_dec
{
    match spec_parse_u8(s) {
        Some(nr) => {
            if nr.1.len() >= 1 && nr.1[0] == ',' {
                match spec_parse_items(nr.1.drop_first()) {
                    Some(br) => Some((seq![nr.0] + br.0, br.1)),
                    None => None,
                }
            } else if nr.1.len() >= 1 && nr.1[0] == ']' {
                Some((seq![nr.0], nr.1.drop_first()))
            } else {
                None
            }
        },
        None => None,
    }
}

#[via_fn]
proof fn spec_parse_items_dec(s: Seq<char>) {
    lemma_parse_u8_consumes(s);
}

/// A successful item-list parse consumes at least one character.
pub proof fn lemma_parse_items_consumes(s: Seq<char>)
    ensures
        spec_parse_items(s) matches Some(br) ==> br.1.len() < s.len(),
    decreases s.len(),
{
    lemma_parse_u8_consumes(s);
    match spec_parse_u8(s) {
        Some(nr) => {
            if nr.1.len() >= 1 && nr.1[0] == ',' {
                lemma_parse_items_consumes(nr.1.drop_first());
            }
        },
        None => {},
    }
}

/// Parse a byte array: brackets around comma-separated decimal bytes.
pub open spec fn spec_parse_array(s: Seq<char>) -> Option<(Seq<u8>, Seq<char>)> {
    if s.len() >= 1 && s[0] == '[' {
        if s.len() >= 2 && s[1] == ']' {
            Some((Seq::empty(), s.skip(2)))
        } else {
            spec_parse_items(s.drop_first())
        }
    } else {
        None
    }
}

/// A successful array parse consumes at least one character.
pub proof fn lemma_parse_array_consumes(s: Seq<char>)
    ensures
        spec_parse_array(s) matches Some(br) ==> br.1.len() < s.len(),
{
    if s.len() >= 1 && s[0] == '[' && !(s.len() >= 2 && s[1] == ']') {
        lemma_parse_items_consumes(s.drop_first());
    }
}

/// Parse one entry object: the four fields in canonical order, then the
/// closing brace. The parse succeeds only if the stored bytes are exactly
/// the Base32 decoding of the stored secret, so every entry this parser
/// hands out is well formed.
pub open spec fn spec_parse_app(s: Seq<char>) -> Option<(AppView, Seq<char>)> {
    match after_lit(s, l_name()) {
        Some(s1) => match spec_scan_string(s1) {
            Some(nr) => match after_lit(nr.1, l_secret().skip(1)) {
                Some(s2) => match spec_scan_string(s2) {
                    Some(sr) => match after_lit(sr.1, l_username().skip(1)) {
                        Some(s3) => match spec_scan_string(s3) {
                            Some(ur) => match after_lit(ur.1, l_bytes().skip(1)) {
                                Some(s4) => match spec_parse_array(s4) {
                                    Some(br) => {
                                        if br.1.len() >= 1 && br.1[0] == '}' && base32_decoding(
                                            sr.0,
                                        ) == Some(br.0) {
                                            Some(
                                                (
                                                    AppView {
                                                        name: nr.0,
                                                        secret: sr.0,
                                                        username: ur.0,
                                                        secret_bytes: br.0,
                                                    },
                                                    br.1.drop_first(),
                                                ),
                                            )
                                        } else {
                                            None
                                        }
                                    },
                                    None => None,
                                },
                                None => None,
                            },
                            None => None,
                        },
                        None => None,
                    },
                    None => None,
                },
                None => None,
            },
            None => None,
        },
        None => None,
    }
}

/// A successful entry parse consumes at least one character.
pub proof fn lemma_parse_app_consumes(s: Seq<char>)
    ensures
        spec_parse_app(s) matches Some(ar) ==> ar.1.len() < s.len(),
{
    match after_lit(s, l_name()) {
        Some(s1) => {
            lemma_scan_string_consumes(s1);
            match spec_scan_string(s1) {
                Some(nr) => match after_lit(nr.1, l_secret().skip(1)) {
                    Some(s2) => {
                        lemma_scan_string_consumes(s2);
                        match spec_scan_string(s2) {
                            Some(sr) => match after_lit(sr.1, l_username().skip(1)) {
                                Some(s3) => {
                                    lemma_scan_string_consumes(s3);
                                    match spec_scan_string(s3) {
                                        Some(ur) => match after_lit(ur.1, l_bytes().skip(1)) {
                                            Some(s4) => {
                                                lemma_parse_array_consumes(s4);
                                            },
                                            None => {},
                                        },
                                        None => {},
                                    }
                                },
                                None => {},
                            },
                            None => {},
                        }
                    },
                    None => {},
                },
                None => {},
            }
        },
        None => {},
    }
}

/// Parse the inside of the applications object: keyed entries separated by
/// commas, up to and including the closing brace. Each key must equal the
/// entry's own name field.
pub open spec fn spec_parse_entries(s: Seq<char>) -> Option<(Seq<AppView>, Seq<char>)>
    decreases s.len(),
    via spec_parse_entries_dec
{
    if s.len() >= 1 && s[0] == '}' {
        Some((Seq::empty(), s.drop_first()))
    } else if s.len() >= 1 && s[0] == '"' {
        match spec_scan_string(s.drop_first()) {
            Some(kr) => {
                if kr.1.len() >= 1 && kr.1[0] == ':' {
                    match spec_parse_app(kr.1.drop_first()) {
                        Some(ar) => {
                            if ar.0.name == kr.0 {
                                if ar.1.len() >= 1 && ar.1[0] == ',' {
                                    match spec_parse_entries(ar.1.drop_first()) {
                                        Some(er) => Some((seq![ar.0] + er.0, er.1)),
                                        None => None,
                                    }
                                } else if ar.1.len() >= 1 && ar.1[0] == '}' {
                                    Some((seq![ar.0], ar.1.drop_first()))
                                } else {
                                    None
                                }
                            } else {
                                None
                            }
                        },
                        None => None,
                    }
                } else {
                    None
                }
            },
            None => None,
        }
    } else {
        None
    }
}

#[via_fn]
proof fn spec_parse_entries_dec(s: Seq<char>) {
    if s.len() >= 1 && s[0] == '"' {
        lemma_scan_string_consumes(s.drop_first());
        match spec_scan_string(s.drop_first()) {
            Some(kr) => {
                if kr.1.len() >= 1 && kr.1[0] == ':' {
                    lemma_parse_app_consumes(kr.1.drop_first());
                }
            },
            None => {},
        }
    }
}

/// Parse a whole vault document: the version, the applications object, the
/// closing braces, nothing after them, and no repeated names.
pub open spec fn spec_parse_vault(s: Seq<char>) -> Option<(u8, Seq<AppView>)> {
    match after_lit(s, l_version()) {
        Some(s1) => match spec_parse_u8(s1) {
            Some(vr) => match after_lit(vr.1, l_content()) {
                Some(s2) => match spec_parse_entries(s2) {
                    Some(er) => {
                        if er.1 == seq!['}', '}'] && unique_names(er.0) {
                            Some((vr.0, er.0))
                        } else {
                            None
                        }
                    },
                    None => None,
                },
                None => None,
            },
            None => None,
        },
        None => None,
    }
}

/// Parsing inverts serialization, literal by literal.
pub proof fn lemma_after_lit_roundtrip(lit: Seq<char>, rest: Seq<char>)
    ensures
        after_lit(lit + rest, lit) == Some(rest),
{
    assert((lit + rest).take(lit.len() as int) =~= lit);
    assert((lit + rest).skip(lit.len() as int) =~= rest);
}

/// The decimal digit characters carry their values.
pub proof fn lemma_dec_digit_props(v: int)
    requires
        0 <= v <= 9,
    ensures
        is_dec_digit(dec_digit(v)),
        dec_val(dec_digit(v)) == v,
        dec_digit(v) == '0' <==> v == 0,
{
}

/// The hexadecimal digit characters carry their values.
pub proof fn lemma_hex_digit_props(v: int)
    requires
        0 <= v <= 15,
    ensures
        is_hex_digit(hex_digit(v)),
        hex_val(hex_digit(v)) == v,
{
}

/// Parsing inverts the decimal form of a byte, provided no digit follows.
pub proof fn lemma_parse_u8_roundtrip(n: u8, rest: Seq<char>)
    requires
        rest.len() >= 1 ==> !is_dec_digit(rest[0]),
    ensures
        spec_parse_u8(dec_u8(n) + rest) == Some((n, rest)),
{
    let s = dec_u8(n) + rest;
    if n < 10 {
        lemma_dec_digit_props(n as int);
        assert(s[0] == dec_digit(n as int));
        assert(s.len() >= 2 ==> s[1] == rest[0]);
        assert(s.skip(1) =~= rest);
        assert(dec_val(s[0]) as u8 == n);
    } else if n < 100 {
        lemma_dec_digit_props(n as int / 10);
        lemma_dec_digit_props(n as int % 10);
        assert(s[0] == dec_digit(n as int / 10));
        assert(s[1] == dec_digit(n as int % 10));
        assert(s.len() >= 3 ==> s[2] == rest[0]);
        assert(s[0] != '0');
        assert(s.skip(2) =~= rest);
        assert(dec_val(s[0]) * 10 + dec_val(s[1]) == n as int);
        assert((dec_val(s[0]) * 10 + dec_val(s[1])) as u8 == n);
    } else {
        lemma_dec_digit_props(n as int / 100);
        lemma_dec_digit_props((n as int / 10) % 10);
        lemma_dec_digit_props(n as int % 10);
        assert(s[0] == dec_digit(n as int / 100));
        assert(s[1] == dec_digit((n as int / 10) % 10));
        assert(s[2] == dec_digit(n as int % 10));
        assert(s.len() >= 4 ==> s[3] == rest[0]);
        assert(s[0] != '0');
        assert(s.skip(3) =~= rest);
        vstd::arithmetic::div_mod::lemma_div_denominator(n as int, 10, 10);
        assert((n as int / 10) / 10 == n as int / 100);
        assert(n as int / 10 == 10 * ((n as int / 10) / 10) + (n as int / 10) % 10);
        assert(n as int == 10 * (n as int / 10) + n as int % 10);
        assert(dec_val(s[0]) * 100 + dec_val(s[1]) * 10 + dec_val(s[2]) == n as int);
        assert((dec_val(s[0]) * 100 + dec_val(s[1]) * 10 + dec_val(s[2])) as u8 == n);
    }
}

/// Scanning inverts escaping: the escaped body, the closing quote, and the
/// rest come back as the body and the rest.
pub proof fn lemma_scan_string_roundtrip(x: Seq<char>, rest: Seq<char>)
    ensures
        spec_scan_string(escape(x) + seq!['"'] + rest) == Some((x, rest)),
    decreases x.len(),
{
    let s = escape(x) + seq!['"'] + rest;
    if x.len() == 0 {
        assert(escape(x) =~= Seq::<char>::empty());
        assert(s =~= seq!['"'] + rest);
        assert(s[0] == '"');
        assert(s.drop_first() =~= rest);
        assert(spec_scan_string(s).unwrap().0 =~= x);
    } else {
        let c = x[0];
        let x1 = x.drop_first();
        assert(escape(x) == escape_char(c) + escape(x1));
        let tail = escape(x1) + seq!['"'] + rest;
        lemma_scan_string_roundtrip(x1, rest);
        if c == '"' {
            assert(s =~= seq!['\\', '"'] + tail);
            assert(s[0] == '\\' && s[1] == '"');
            assert(s.skip(2) =~= tail);
            assert(seq![s[1]] + x1 =~= x);
        } else if c == '\\' {
            assert(s =~= seq!['\\', '\\'] + tail);
            assert(s[0] == '\\' && s[1] == '\\');
            assert(s.skip(2) =~= tail);
            assert(seq![s[1]] + x1 =~= x);
        } else if (c as u32) < 32 {
            let hi = (c as u32) as int / 16;
            let lo = (c as u32) as int % 16;
            lemma_hex_digit_props(hi);
            lemma_hex_digit_props(lo);
            assert(s =~= seq!['\\', 'u', '0', '0', hex_digit(hi), hex_digit(lo)] + tail);
            assert(s[0] == '\\' && s[1] == 'u' && s[2] == '0' && s[3] == '0');
            assert(s[4] == hex_digit(hi) && s[5] == hex_digit(lo));
            assert(hex_val(s[4]) * 16 + hex_val(s[5]) == c as u32);
            assert(s.skip(6) =~= tail);
            vstd::utf8::char_u32_cast(c, (hex_val(s[4]) * 16 + hex_val(s[5])) as u32);
            assert(((hex_val(s[4]) * 16 + hex_val(s[5])) as u32) as char == c);
            assert(seq![((hex_val(s[4]) * 16 + hex_val(s[5])) as u32) as char] + x1 =~= x);
        } else {
            assert(s =~= seq![c] + tail);
            assert(s[0] == c);
            assert(s[0] != '"' && s[0] != '\\' && !((s[0] as u32) < 32));
            assert(s.drop_first() =~= tail);
            assert(seq![s[0]] + x1 =~= x);
        }
    }
}

/// Parsing inverts the item list of a non-empty byte array.
pub proof fn lemma_parse_items_roundtrip(b: Seq<u8>, rest: Seq<char>)
    requires
        b.len() >= 1,
    ensures
        spec_parse_items(bytes_items(b) + seq![']'] + rest) == Some((b, rest)),
    decreases b.len(),
{
    let s = bytes_items(b) + seq![']'] + rest;
    if b.len() == 1 {
        assert(bytes_items(b) == dec_u8(b[0]));
        let r1 = seq![']'] + rest;
        assert(s =~= dec_u8(b[0]) + r1);
        assert(!is_dec_digit(']'));
        lemma_parse_u8_roundtrip(b[0], r1);
        assert(r1[0] == ']');
        assert(r1[0] != ',');
        assert(r1.drop_first() =~= rest);
        assert(seq![b[0]] =~= b);
    } else {
        let b1 = b.drop_first();
        assert(bytes_items(b) == dec_u8(b[0]) + seq![','] + bytes_items(b1));
        let r1 = seq![','] + (bytes_items(b1) + seq![']'] + rest);
        assert(s =~= dec_u8(b[0]) + r1);
        assert(!is_dec_digit(','));
        lemma_parse_u8_roundtrip(b[0], r1);
        assert(r1[0] == ',');
        assert(r1.drop_first() =~= bytes_items(b1) + seq![']'] + rest);
        lemma_parse_items_roundtrip(b1, rest);
        assert(seq![b[0]] + b1 =~= b);
    }
}

/// Parsing inverts the byte array form.
pub proof fn lemma_parse_array_roundtrip(b: Seq<u8>, rest: Seq<char>)
    ensures
        spec_parse_array(bytes_array(b) + rest) == Some((b, rest)),
{
    let s = bytes_array(b) + rest;
    assert(s[0] == '[');
    if b.len() == 0 {
        assert(bytes_items(b) =~= Seq::<char>::empty());
        assert(s =~= seq!['[', ']'] + rest);
        assert(s[1] == ']');
        assert(s.skip(2) =~= rest);
        assert(spec_parse_array(s).unwrap().0 =~= b);
    } else {
        assert(s =~= seq!['['] + (bytes_items(b) + seq![']'] + rest));
        assert(bytes_items(b)[0] == dec_u8(b[0])[0]);
        lemma_dec_digit_props(if b[0] < 10 {
            b[0] as int
        } else if b[0] < 100 {
            b[0] as int / 10
        } else {
            b[0] as int / 100
        });
        assert(is_dec_digit(s[1]));
        assert(s[1] != ']');
        assert(s.drop_first() =~= bytes_items(b) + seq![']'] + rest);
        lemma_parse_items_roundtrip(b, rest);
    }
}

/// Parsing inverts one serialized entry object, for a well-formed entry.
#[verifier::rlimit(100)]
pub proof fn lemma_parse_app_roundtrip(a: AppView, rest: Seq<char>)
    requires
        crate::entry::app_wf(a),
    ensures
        spec_parse_app(ser_app(a) + rest) == Some((a, rest)),
{
    let s = ser_app(a) + rest;
    let r1 = escape(a.name) + l_secret() + escape(a.secret) + l_username() + escape(a.username)
        + l_bytes() + bytes_array(a.secret_bytes) + seq!['}'] + rest;
    assert(s =~= l_name() + r1);
    lemma_after_lit_roundtrip(l_name(), r1);

    let t1 = l_secret().skip(1) + (escape(a.secret) + l_username() + escape(a.username) + l_bytes()
        + bytes_array(a.secret_bytes) + seq!['}'] + rest);
    assert(l_secret() =~= seq!['"'] + l_secret().skip(1));
    assert(r1 =~= escape(a.name) + seq!['"'] + t1);
    lemma_scan_string_roundtrip(a.name, t1);

    let r2 = escape(a.secret) + l_username() + escape(a.username) + l_bytes() + bytes_array(
        a.secret_bytes,
    ) + seq!['}'] + rest;
    assert(t1 =~= l_secret().skip(1) + r2);
    lemma_after_lit_roundtrip(l_secret().skip(1), r2);

    let t2 = l_username().skip(1) + (escape(a.username) + l_bytes() + bytes_array(a.secret_bytes)
        + seq!['}'] + rest);
    assert(l_username() =~= seq!['"'] + l_username().skip(1));
    assert(r2 =~= escape(a.secret) + seq!['"'] + t2);
    lemma_scan_string_roundtrip(a.secret, t2);

    let r3 = escape(a.username) + l_bytes() + bytes_array(a.secret_bytes) + seq!['}'] + rest;
    assert(t2 =~= l_username().skip(1) + r3);
    lemma_after_lit_roundtrip(l_username().skip(1), r3);

    let t3 = l_bytes().skip(1) + (bytes_array(a.secret_bytes) + seq!['}'] + rest);
    assert(l_bytes() =~= seq!['"'] + l_bytes().skip(1));
    assert(r3 =~= escape(a.username) + seq!['"'] + t3);
    lemma_scan_string_roundtrip(a.username, t3);

    let r4 = bytes_array(a.secret_bytes) + (seq!['}'] + rest);
    assert(t3 =~= l_bytes().skip(1) + r4);
    lemma_after_lit_roundtrip(l_bytes().skip(1), r4);

    lemma_parse_array_roundtrip(a.secret_bytes, seq!['}'] + rest);
    let r5 = seq!['}'] + rest;
    assert(r5[0] == '}');
    assert(r5.drop_first() =~= rest);
    assert(spec_parse_app(s).unwrap().0 == a);
}

/// Parsing inverts the applications object, for well-formed entries.
#[verifier::rlimit(100)]
pub proof fn lemma_parse_entries_roundtrip(apps: Seq<AppView>, rest: Seq<char>)
    requires
        apps_wf(apps),
    ensures
        spec_parse_entries(ser_entries(apps) + rest) == Some((apps, rest)),
    decreases apps.len(),
{
    let s = ser_entries(apps) + rest;
    if apps.len() == 0 {
        assert(entries_body(apps) =~= Seq::<char>::empty());
        assert(s =~= seq!['}'] + rest);
        assert(s[0] == '}');
        assert(s.drop_first() =~= rest);
        assert(spec_parse_entries(s).unwrap().0 =~= apps);
    } else {
        let a0 = apps[0];
        assert(crate::entry::app_wf(a0));
        let tail: Seq<char> = if apps.len() == 1 {
            seq!['}'] + rest
        } else {
            seq![','] + (ser_entries(apps.drop_first()) + rest)
        };
        if apps.len() == 1 {
            assert(entries_body(apps) == ser_entry(a0));
            assert(s =~= ser_entry(a0) + (seq!['}'] + rest));
        } else {
            assert(entries_body(apps) == ser_entry(a0) + seq![','] + entries_body(
                apps.drop_first(),
            ));
            assert(s =~= ser_entry(a0) + (seq![','] + (ser_entries(apps.drop_first()) + rest)));
        }
        // ser_entry(a0) = quoted(name) + ':' + ser_app(a0)
        let after_key = seq![':'] + (ser_app(a0) + tail);
        assert(quoted(a0.name) =~= seq!['"'] + (escape(a0.name) + seq!['"']));
        assert(s =~= seq!['"'] + (escape(a0.name) + seq!['"'] + after_key));
        assert(s[0] == '"');
        assert(s[0] != '}');
        assert(s.drop_first() =~= escape(a0.name) + seq!['"'] + after_key);
        lemma_scan_string_roundtrip(a0.name, after_key);
        assert(after_key[0] == ':');
        assert(after_key.drop_first() =~= ser_app(a0) + tail);
        lemma_parse_app_roundtrip(a0, tail);
        if apps.len() == 1 {
            assert(tail[0] == '}');
            assert(tail[0] != ',');
            assert(tail.drop_first() =~= rest);
            assert(seq![a0] =~= apps);
        } else {
            let apps1 = apps.drop_first();
            assert(apps_wf(apps1)) by {
                assert(forall|i: int|
                    0 <= i < apps1.len() ==> #[trigger] apps1[i] == apps[i + 1]);
            }
            assert(tail[0] == ',');
            assert(tail.drop_first() =~= ser_entries(apps1) + rest);
            lemma_parse_entries_roundtrip(apps1, rest);
            assert(seq![a0] + apps1 =~= apps);
        }
    }
}

/// Parsing inverts serialization: a serialized vault with well-formed,
/// uniquely named entries parses back to exactly the version and entries it
/// was built from. This is the law the vault's load/save round trip rests
/// on.
pub proof fn lemma_parse_vault_roundtrip(version: u8, apps: Seq<AppView>)
    requires
        apps_wf(apps),
        unique_names(apps),
    ensures
        spec_parse_vault(ser_vault(version, apps)) == Some((version, apps)),
{
    let s = ser_vault(version, apps);
    let r1 = dec_u8(version) + (l_content() + ser_entries(apps) + seq!['}', '}']);
    assert(s =~= l_version() + r1);
    lemma_after_lit_roundtrip(l_version(), r1);

    let r2 = l_content() + (ser_entries(apps) + seq!['}', '}']);
    assert(r1 =~= dec_u8(version) + r2);
    assert(r2[0] == ',');
    assert(!is_dec_digit(','));
    lemma_parse_u8_roundtrip(version, r2);

    let r3 = ser_entries(apps) + seq!['}', '}'];
    assert(r2 =~= l_content() + r3);
    lemma_after_lit_roundtrip(l_content(), r3);

    lemma_parse_entries_roundtrip(apps, seq!['}', '}']);
}

/// Every entry a successful parse yields is well formed: the entry parser
/// re-decodes the stored secret and checks it against the stored bytes.
pub proof fn lemma_parse_entries_wf(s: Seq<char>)
    ensures
        spec_parse_entries(s) matches Some(er) ==> apps_wf(er.0),
    decreases s.len(),
{
    if s.len() >= 1 && s[0] == '}' {
    } else if s.len() >= 1 && s[0] == '"' {
        lemma_scan_string_consumes(s.drop_first());
        match spec_scan_string(s.drop_first()) {
            Some(kr) => {
                if kr.1.len() >= 1 && kr.1[0] == ':' {
                    lemma_parse_app_consumes(kr.1.drop_first());
                    match spec_parse_app(kr.1.drop_first()) {
                        Some(ar) => {
                            assert(crate::entry::app_wf(ar.0));
                            if ar.0.name == kr.0 {
                                if ar.1.len() >= 1 && ar.1[0] == ',' {
                                    lemma_parse_entries_wf(ar.1.drop_first());
                                    match spec_parse_entries(ar.1.drop_first()) {
                                        Some(er) => {
                                            let whole = seq![ar.0] + er.0;
                                            assert(forall|i: int|
                                                0 <= i < whole.len() ==> crate::entry::app_wf(
                                                    #[trigger] whole[i],
                                                ));
                                        },
                                        None => {},
                                    }
                                }
                            }
                        },
                        None => {},
                    }
                }
            },
            None => {},
        }
    }
}

/// The literal the serializer writes before the version value.
proof fn lemma_lit_version()
    ensures
        "{\"version\":"@ == l_version(),
{
    reveal_strlit("{\"version\":");
    assert("{\"version\":"@ =~= l_version());
}

/// The literal between the version and the entries.
proof fn lemma_lit_content()
    ensures
        ",\"content\":{\"applications\":{"@ == l_content(),
{
    reveal_strlit(",\"content\":{\"applications\":{");
    assert(",\"content\":{\"applications\":{"@ =~= l_content());
}

/// The literal opening an entry object.
proof fn lemma_lit_name()
    ensures
        "{\"name\":\""@ == l_name(),
{
    reveal_strlit("{\"name\":\"");
    assert("{\"name\":\""@ =~= l_name());
}

/// The literal between the name and secret values, after the name's
/// closing quote.
proof fn lemma_lit_secret()
    ensures
        ",\"secret\":\""@ == l_secret().skip(1),
{
    reveal_strlit(",\"secret\":\"");
    assert(",\"secret\":\""@ =~= l_secret().skip(1));
}

/// The literal between the secret and username values, after the secret's
/// closing quote.
proof fn lemma_lit_username()
    ensures
        ",\"username\":\""@ == l_username().skip(1),
{
    reveal_strlit(",\"username\":\"");
    assert(",\"username\":\""@ =~= l_username().skip(1));
}

/// The literal naming the byte array, after the username's closing quote.
proof fn lemma_lit_bytes()
    ensures
        ",\"secret_bytes\":"@ == l_bytes().skip(1),
{
    reveal_strlit(",\"secret_bytes\":");
    assert(",\"secret_bytes\":"@ =~= l_bytes().skip(1));
}

/// The characters of a string, one vector element per character.
pub fn str_chars(s: &str) -> (r: Vec<char>)
    ensures
        r@ == s@,
{
    let n = s.unicode_len();
    let mut r: Vec<char> = Vec::new();
    let mut i: usize = 0;
    while i < n
        invariant
            n == s@.len(),
            i <= n,
            r@ == s@.take(i as int),
        decreases n - i,
    {
        r.push(s.get_char(i));
        proof {
            assert(r@ =~= s@.take(i + 1 as int));
        }
        i = i + 1;
    }
    proof {
        assert(s@.take(n as int) =~= s@);
    }
    r
}

/// Character-wise string equality.
fn str_eq(a: &str, b: &str) -> (r: bool)
    ensures
        r == (a@ == b@),
{
    let n = a.unicode_len();
    if n != b.unicode_len() {
        return false;
    }
    let mut i: usize = 0;
    while i < n
        invariant
            n == a@.len(),
            n == b@.len(),
            i <= n,
            forall|k: int| 0 <= k < i ==> a@[k] == b@[k],
        decreases n - i,
    {
        if a.get_char(i) != b.get_char(i) {
            return false;
        }
        i = i + 1;
    }
    proof {
        assert(a@ =~= b@);
    }
    true
}

/// Element-wise byte-vector equality.
fn bytes_eq(a: &Vec<u8>, b: &Vec<u8>) -> (r: bool)
    ensures
        r == (a@ == b@),
{
    let n = a.len();
    if n != b.len() {
        return false;
    }
    let mut i: usize = 0;
    while i < n
        invariant
            n == a@.len(),
            n == b@.len(),
            i <= n,
            forall|k: int| 0 <= k < i ==> a@[k] == b@[k],
        decreases n - i,
    {
        if a[i] != b[i] {
            return false;
        }
        i = i + 1;
    }
    proof {
        assert(a@ =~= b@);
    }
    true
}

/// Check that the characters at `i` start with the literal `lit`; on
/// success return the position just after it.
fn p_expect_lit(v: &Vec<char>, i: usize, lit: &str) -> (r: Option<usize>)
    requires
        i <= v@.len(),
    ensures
        match r {
            Some(j) => i <= j <= v@.len() && after_lit(v@.skip(i as int), lit@) == Some(
                v@.skip(j as int),
            ),
            None => after_lit(v@.skip(i as int), lit@) is None,
        },
{
    let ghost s = v@.skip(i as int);
    let n = lit.unicode_len();
    if v.len() - i < n {
        return None;
    }
    let mut k: usize = 0;
    while k < n
        invariant
            n == lit@.len(),
            i + n <= v@.len(),
            v@.len() <= usize::MAX,
            k <= n,
            s == v@.skip(i as int),
            forall|m: int| 0 <= m < k ==> s[m] == lit@[m],
        decreases n - k,
    {
        let c = v[i + k];
        proof {
            assert(s[k as int] == v@[i + k as int]);
        }
        if c != lit.get_char(k) {
            proof {
                assert(s.take(n as int)[k as int] != lit@[k as int]);
            }
            return None;
        }
        k = k + 1;
    }
    proof {
        assert(s.take(n as int) =~= lit@);
        assert(s.skip(n as int) =~= v@.skip(i + n as int));
    }
    Some(i + n)
}

/// Whether `c` is an ASCII decimal digit.
fn is_digit(c: char) -> (r: bool)
    ensures
        r == is_dec_digit(c),
{
    let u = c as u32;
    48 <= u && u <= 57
}

/// Whether `c` is a lower-case hexadecimal digit.
fn is_hex(c: char) -> (r: bool)
    ensures
        r == is_hex_digit(c),
{
    let u = c as u32;
    (48 <= u && u <= 57) || (97 <= u && u <= 102)
}

/// The value of a hexadecimal digit.
fn hexv(c: char) -> (r: u32)
    requires
        is_hex_digit(c),
    ensures
        r == hex_val(c),
{
    let u = c as u32;
    if u <= 57 {
        u - 48
    } else {
        u - 87
    }
}

/// Parse a decimal byte at position `i`, as [`spec_parse_u8`] reads it.
fn p_parse_u8(v: &Vec<char>, i: usize) -> (r: Option<(u8, usize)>)
    requires
        i <= v@.len(),
    ensures
        match r {
            Some((n, j)) => i < j <= v@.len() && spec_parse_u8(v@.skip(i as int)) == Some(
                (n, v@.skip(j as int)),
            ),
            None => spec_parse_u8(v@.skip(i as int)) is None,
        },
{
    let ghost s = v@.skip(i as int);
    let len = v.len();
    proof {
        assert(s.len() == len - i);
        assert(forall|m: int| 0 <= m < s.len() ==> s[m] == v@[i + m]);
    }
    if len - i >= 1 && is_digit(v[i]) {
        if len - i >= 2 && is_digit(v[i + 1]) {
            if v[i] == '0' {
                None
            } else if len - i >= 3 && is_digit(v[i + 2]) {
                if len - i >= 4 && is_digit(v[i + 3]) {
                    None
                } else {
                    let val: u32 = (v[i] as u32 - 48) * 100 + (v[i + 1] as u32 - 48) * 10 + (v[i
                        + 2] as u32 - 48);
                    if val < 256 {
                        proof {
                            assert(s.skip(3) =~= v@.skip(i + 3 as int));
                        }
                        Some((val as u8, i + 3))
                    } else {
                        None
                    }
                }
            } else {
                proof {
                    assert(s.skip(2) =~= v@.skip(i + 2 as int));
                }
                Some((((v[i] as u32 - 48) * 10 + (v[i + 1] as u32 - 48)) as u8, i + 2))
            }
        } else {
            proof {
                assert(s.skip(1) =~= v@.skip(i + 1 as int));
            }
            Some(((v[i] as u32 - 48) as u8, i + 1))
        }
    } else {
        None
    }
}

/// Scan a string body at position `i`, as [`spec_scan_string`] reads it.
fn p_scan_string(v: &Vec<char>, i: usize) -> (r: Option<(String, usize)>)
    requires
        i <= v@.len(),
    ensures
        match r {
            Some(cj) => i < cj.1 <= v@.len() && spec_scan_string(v@.skip(i as int)) == Some(
                (cj.0@, v@.skip(cj.1 as int)),
            ),
            None => spec_scan_string(v@.skip(i as int)) is None,
        },
    decreases v@.len() - i,
{
    let ghost s = v@.skip(i as int);
    let len = v.len();
    proof {
        assert(s.len() == len - i);
        assert(forall|m: int| 0 <= m < s.len() ==> s[m] == v@[i + m]);
    }
    if len - i == 0 {
        return None;
    }
    let c = v[i];
    if c == '"' {
        proof {
            assert(s.drop_first() =~= v@.skip(i + 1 as int));
        }
        return Some((String::new(), i + 1));
    }
    if c == '\\' {
        if len - i >= 2 && (v[i + 1] == '"' || v[i + 1] == '\\') {
            proof {
                assert(s.skip(2) =~= v@.skip(i + 2 as int));
            }
            match p_scan_string(v, i + 2) {
                Some((tail, j)) => {
                    let mut h = String::new();
                    crate::schema::push_char(&mut h, v[i + 1]);
                    let out = h.concat(tail.as_str());
                    proof {
                        assert(out@ =~= seq![s[1]] + tail@);
                    }
                    return Some((out, j));
                },
                None => {
                    return None;
                },
            }
        } else if len - i >= 6 && v[i + 1] == 'u' && v[i + 2] == '0' && v[i + 3] == '0' && is_hex(
            v[i + 4],
        ) && is_hex(v[i + 5]) && hexv(v[i + 4]) * 16 + hexv(v[i + 5]) < 32 {
            let code: u32 = hexv(v[i + 4]) * 16 + hexv(v[i + 5]);
            proof {
                assert(s.skip(6) =~= v@.skip(i + 6 as int));
            }
            match p_scan_string(v, i + 6) {
                Some((tail, j)) => {
                    let ch: char = (code as u8) as char;
                    proof {
                        assert(ch == ((hex_val(s[4]) * 16 + hex_val(s[5])) as u32) as char);
                    }
                    let mut h = String::new();
                    crate::schema::push_char(&mut h, ch);
                    let out = h.concat(tail.as_str());
                    proof {
                        assert(out@ =~= seq![((hex_val(s[4]) * 16 + hex_val(s[5])) as u32) as char]
                            + tail@);
                    }
                    return Some((out, j));
                },
                None => {
                    return None;
                },
            }
        } else {
            return None;
        }
    }
    if (c as u32) < 32 {
        return None;
    }
    proof {
        assert(s.drop_first() =~= v@.skip(i + 1 as int));
    }
    match p_scan_string(v, i + 1) {
        Some((tail, j)) => {
            let mut h = String::new();
            crate::schema::push_char(&mut h, c);
            let out = h.concat(tail.as_str());
            proof {
                assert(out@ =~= seq![s[0]] + tail@);
            }
            Some((out, j))
        },
        None => None,
    }
}

/// Parse the items of a non-empty byte array, as [`spec_parse_items`]
/// reads them.
fn p_parse_items(v: &Vec<char>, i: usize) -> (r: Option<(Vec<u8>, usize)>)
    requires
        i <= v@.len(),
    ensures
        match r {
            Some(bj) => i < bj.1 <= v@.len() && spec_parse_items(v@.skip(i as int)) == Some(
                (bj.0@, v@.skip(bj.1 as int)),
            ),
            None => spec_parse_items(v@.skip(i as int)) is None,
        },
    decreases v@.len() - i,
{
    let ghost s = v@.skip(i as int);
    match p_parse_u8(v, i) {
        Some((n, j)) => {
            if j < v.len() && v[j] == ',' {
                proof {
                    assert(v@.skip(j as int)[0] == v@[j as int]);
                    assert(v@.skip(j as int).drop_first() =~= v@.skip(j + 1 as int));
                }
                match p_parse_items(v, j + 1) {
                    Some((tail, k)) => {
                        let ghost tail0 = tail@;
                        let mut b = tail;
                        b.insert(0, n);
                        proof {
                            assert(b@ =~= seq![n] + tail0);
                        }
                        Some((b, k))
                    },
                    None => None,
                }
            } else if j < v.len() && v[j] == ']' {
                proof {
                    assert(v@.skip(j as int)[0] == v@[j as int]);
                    assert(v@.skip(j as int).drop_first() =~= v@.skip(j + 1 as int));
                }
                let b = vec![n];
                proof {
                    assert(b@ =~= seq![n]);
                }
                Some((b, j + 1))
            } else {
                proof {
                    if j < v.len() {
                        assert(v@.skip(j as int)[0] == v@[j as int]);
                    }
                }
                None
            }
        },
        None => None,
    }
}

/// Parse a byte array, as [`spec_parse_array`] reads it.
fn p_parse_array(v: &Vec<char>, i: usize) -> (r: Option<(Vec<u8>, usize)>)
    requires
        i <= v@.len(),
    ensures
        match r {
            Some(bj) => i < bj.1 <= v@.len() && spec_parse_array(v@.skip(i as int)) == Some(
                (bj.0@, v@.skip(bj.1 as int)),
            ),
            None => spec_parse_array(v@.skip(i as int)) is None,
        },
{
    let ghost s = v@.skip(i as int);
    let len = v.len();
    proof {
        assert(s.len() == len - i);
        assert(forall|m: int| 0 <= m < s.len() ==> s[m] == v@[i + m]);
    }
    if len - i >= 1 && v[i] == '[' {
        if len - i >= 2 && v[i + 1] == ']' {
            let b: Vec<u8> = Vec::new();
            proof {
                assert(s.skip(2) =~= v@.skip(i + 2 as int));
                assert(b@ =~= Seq::<u8>::empty());
            }
            Some((b, i + 2))
        } else {
            proof {
                assert(s.drop_first() =~= v@.skip(i + 1 as int));
            }
            p_parse_items(v, i + 1)
        }
    } else {
        None
    }
}

/// Parse one entry object, as [`spec_parse_app`] reads it.
fn p_parse_app(v: &Vec<char>, i: usize) -> (r: Option<(GenApp, usize)>)
    requires
        i <= v@.len(),
    ensures
        match r {
            Some(gj) => i < gj.1 <= v@.len() && spec_parse_app(v@.skip(i as int)) == Some(
                (gj.0@, v@.skip(gj.1 as int)),
            ),
            None => spec_parse_app(v@.skip(i as int)) is None,
        },
{
    let ghost s = v@.skip(i as int);
    proof {
        lemma_lit_name();
        lemma_lit_secret();
        lemma_lit_username();
        lemma_lit_bytes();
    }
    let i1 = match p_expect_lit(v, i, "{\"name\":\"") {
        Some(j) => j,
        None => {
            return None;
        },
    };
    let (name, i2) = match p_scan_string(v, i1) {
        Some(cj) => cj,
        None => {
            return None;
        },
    };
    let i3 = match p_expect_lit(v, i2, ",\"secret\":\"") {
        Some(j) => j,
        None => {
            return None;
        },
    };
    let (secret, i4) = match p_scan_string(v, i3) {
        Some(cj) => cj,
        None => {
            return None;
        },
    };
    let i5 = match p_expect_lit(v, i4, ",\"username\":\"") {
        Some(j) => j,
        None => {
            return None;
        },
    };
    let (username, i6) = match p_scan_string(v, i5) {
        Some(cj) => cj,
        None => {
            return None;
        },
    };
    let i7 = match p_expect_lit(v, i6, ",\"secret_bytes\":") {
        Some(j) => j,
        None => {
            return None;
        },
    };
    let (bytes, i8) = match p_parse_array(v, i7) {
        Some(bj) => bj,
        None => {
            return None;
        },
    };
    proof {
        if i8 < v@.len() {
            assert(v@.skip(i8 as int)[0] == v@[i8 as int]);
        }
    }
    if !(i8 < v.len() && v[i8] == '}') {
        return None;
    }
    let decoded = match GenApp::base32_to_bytes(secret.as_str()) {
        Some(d) => d,
        None => {
            return None;
        },
    };
    if !bytes_eq(&decoded, &bytes) {
        return None;
    }
    let ghost bytesv = bytes@;
    let g = GenApp::new(name.as_str(), username.as_str(), secret.as_str(), bytes);
    proof {
        assert(v@.skip(i8 as int).drop_first() =~= v@.skip(i8 + 1 as int));
        assert(g@ == AppView {
            name: name@,
            secret: secret@,
            username: username@,
            secret_bytes: bytesv,
        });
    }
    Some((g, i8 + 1))
}

/// Parse the applications object's contents, as [`spec_parse_entries`]
/// reads them.
fn p_parse_entries(v: &Vec<char>, i: usize) -> (r: Option<(Vec<GenApp>, usize)>)
    requires
        i <= v@.len(),
    ensures
        match r {
            Some(aj) => i < aj.1 <= v@.len() && spec_parse_entries(v@.skip(i as int)) == Some(
                (aj.0.deep_view(), v@.skip(aj.1 as int)),
            ),
            None => spec_parse_entries(v@.skip(i as int)) is None,
        },
    decreases v@.len() - i,
{
    let ghost s = v@.skip(i as int);
    let len = v.len();
    proof {
        assert(s.len() == len - i);
        assert(forall|m: int| 0 <= m < s.len() ==> s[m] == v@[i + m]);
    }
    if len - i >= 1 && v[i] == '}' {
        let e: Vec<GenApp> = Vec::new();
        proof {
            assert(s.drop_first() =~= v@.skip(i + 1 as int));
            assert(e.deep_view() =~= Seq::<AppView>::empty());
        }
        return Some((e, i + 1));
    }
    if !(len - i >= 1 && v[i] == '"') {
        return None;
    }
    proof {
        assert(s.drop_first() =~= v@.skip(i + 1 as int));
    }
    let (key, i2) = match p_scan_string(v, i + 1) {
        Some(cj) => cj,
        None => {
            return None;
        },
    };
    proof {
        if i2 < v@.len() {
            assert(v@.skip(i2 as int)[0] == v@[i2 as int]);
        }
    }
    if !(i2 < len && v[i2] == ':') {
        return None;
    }
    proof {
        assert(v@.skip(i2 as int).drop_first() =~= v@.skip(i2 + 1 as int));
    }
    let (g, i3) = match p_parse_app(v, i2 + 1) {
        Some(gj) => gj,
        None => {
            return None;
        },
    };
    if !str_eq(key.as_str(), g.get_name()) {
        return None;
    }
    proof {
        if i3 < v@.len() {
            assert(v@.skip(i3 as int)[0] == v@[i3 as int]);
        }
    }
    if i3 < len && v[i3] == ',' {
        proof {
            assert(v@.skip(i3 as int).drop_first() =~= v@.skip(i3 + 1 as int));
        }
        match p_parse_entries(v, i3 + 1) {
            Some((tail, i4)) => {
                let ghost gv = g@;
                let ghost tailv = tail.deep_view();
                let mut apps = tail;
                apps.insert(0, g);
                proof {
                    assert(forall|k: int|
                        0 <= k < apps.deep_view().len() ==> apps.deep_view()[k] == apps@[k]@);
                    assert(apps.deep_view() =~= seq![gv] + tailv);
                }
                Some((apps, i4))
            },
            None => None,
        }
    } else if i3 < len && v[i3] == '}' {
        proof {
            assert(v@.skip(i3 as int).drop_first() =~= v@.skip(i3 + 1 as int));
        }
        let ghost gv = g@;
        let apps = vec![g];
        proof {
            assert(apps.deep_view() =~= seq![gv]);
        }
        Some((apps, i3 + 1))
    } else {
        None
    }
}

/// Whether no two entries of `apps` share a name.
fn names_unique(apps: &Vec<GenApp>) -> (r: bool)
    ensures
        r == unique_names(apps.deep_view()),
{
    let ghost views = apps.deep_view();
    proof {
        assert(forall|k: int| 0 <= k < views.len() ==> views[k] == apps@[k]@);
    }
    let n = apps.len();
    let mut x: usize = 0;
    while x < n
        invariant
            x <= n,
            n == apps@.len(),
            views == apps.deep_view(),
            views.len() == n,
            forall|k: int| 0 <= k < views.len() ==> views[k] == apps@[k]@,
            forall|p: int, q: int| 0 <= p < q < n && p < x ==> views[p].name != views[q].name,
        decreases n - x,
    {
        let mut y: usize = x + 1;
        while y < n
            invariant
                x < n,
                x + 1 <= y <= n,
                n == apps@.len(),
                views == apps.deep_view(),
                views.len() == n,
                forall|k: int| 0 <= k < views.len() ==> views[k] == apps@[k]@,
                forall|q: int| x < q < y ==> views[x as int].name != views[q].name,
            decreases n - y,
        {
            if str_eq(apps[x].get_name(), apps[y].get_name()) {
                proof {
                    assert(views[x as int].name == views[y as int].name);
                    assert(!unique_names(views));
                }
                return false;
            }
            y = y + 1;
        }
        x = x + 1;
    }
    proof {
        assert(unique_names(views));
    }
    true
}

/// Parse a whole vault document, as [`spec_parse_vault`] reads it: the
/// version, the applications object, nothing after the closing braces, no
/// repeated names. Any failure is `Corruption`: the text reached us, so the
/// fault lies in its content.
#[verifier::rlimit(100)]
pub fn parse_vault_text(s: &str) -> (r: Result<(u8, Vec<GenApp>), VaultError>)
    ensures
        match r {
            Ok(va) => spec_parse_vault(s@) == Some((va.0, va.1.deep_view())),
            Err(e) => spec_parse_vault(s@) is None && e == VaultError::Corruption,
        },
{
    let v = str_chars(s);
    proof {
        lemma_lit_version();
        lemma_lit_content();
        assert(v@.skip(0) =~= s@);
    }
    let i1 = match p_expect_lit(&v, 0, "{\"version\":") {
        Some(j) => j,
        None => {
            return Err(VaultError::Corruption);
        },
    };
    let (version, i2) = match p_parse_u8(&v, i1) {
        Some(nj) => nj,
        None => {
            return Err(VaultError::Corruption);
        },
    };
    let i3 = match p_expect_lit(&v, i2, ",\"content\":{\"applications\":{") {
        Some(j) => j,
        None => {
            return Err(VaultError::Corruption);
        },
    };
    let (apps, i4) = match p_parse_entries(&v, i3) {
        Some(aj) => aj,
        None => {
            return Err(VaultError::Corruption);
        },
    };
    proof {
        if i4 < v@.len() {
            assert(v@.skip(i4 as int)[0] == v@[i4 as int]);
        }
        if i4 + 1 < v@.len() {
            assert(v@.skip(i4 as int)[1] == v@[i4 + 1 as int]);
        }
    }
    if !(v.len() - i4 == 2 && v[i4] == '}' && v[i4 + 1] == '}') {
        proof {
            assert(v@.skip(i4 as int) != seq!['}', '}']);
        }
        return Err(VaultError::Corruption);
    }
    proof {
        assert(v@.skip(i4 as int) =~= seq!['}', '}']);
    }
    if !names_unique(&apps) {
        return Err(VaultError::Corruption);
    }
    Ok((version, apps))
}

} // verus!

//! The canonical text form of the vault.
//!
//! A vault serializes to one line of JSON,
//! `{"version":V,"content":{"applications":{...}}}`, each entry keyed by its
//! name and holding `name`, `secret`, `username` and `secret_bytes` (the
//! decoded secret as an array of byte values), in that order. Strings escape
//! `"` and `\` with a backslash and control characters as `\u00XX`; numbers
//! are plain decimal with no leading zeros.
//!
//! The whole format is defined here as spec functions over character
//! sequences, and the executable serializer is proved to produce exactly
//! [`ser_vault`]. The parser lives in [`crate::parsing`] and is proved to
//! invert it.

use vstd::prelude::*;

use crate::entry::{AppView, GenApp};

verus! {

/// The decimal digit character for a value in `0 ..= 9`.
pub open spec fn dec_digit(v: int) -> char {
    if v == 0 { '0' }
    else if v == 1 { '1' }
    else if v == 2 { '2' }
    else if v == 3 { '3' }
    else if v == 4 { '4' }
    else if v == 5 { '5' }
    else if v == 6 { '6' }
    else if v == 7 { '7' }
    else if v == 8 { '8' }
    else { '9' }
}

/// The lower-case hexadecimal digit character for a value in `0 ..= 15`.
pub open spec fn hex_digit(v: int) -> char {
    if v == 0 { '0' }
    else if v == 1 { '1' }
    else if v == 2 { '2' }
    else if v == 3 { '3' }
    else if v == 4 { '4' }
    else if v == 5 { '5' }
    else if v == 6 { '6' }
    else if v == 7 { '7' }
    else if v == 8 { '8' }
    else if v == 9 { '9' }
    else if v == 10 { 'a' }
    else if v == 11 { 'b' }
    else if v == 12 { 'c' }
    else if v == 13 { 'd' }
    else if v == 14 { 'e' }
    else { 'f' }
}

/// How one character appears inside a JSON string literal.
pub open spec fn escape_char(c: char) -> Seq<char> {
    if c == '"' {
        seq!['\\', '"']
    } else if c == '\\' {
        seq!['\\', '\\']
    } else if (c as u32) < 32 {
        seq!['\\', 'u', '0', '0', hex_digit((c as u32) as int / 16), hex_digit((c as u32) as int % 16)]
    } else {
        seq![c]
    }
}

/// A whole string body, escaped character by character.
pub open spec fn escape(s: Seq<char>) -> Seq<char>
    decreases s.len(),
{
    if s.len() == 0 {
        Seq::empty()
    } else {
        escape_char(s[0]) + escape(s.drop_first())
    }
}

/// A JSON string literal: the escaped body between double quotes.
pub open spec fn quoted(s: Seq<char>) -> Seq<char> {
    seq!['"'] + escape(s) + seq!['"']
}

/// A byte in decimal, one to three digits, no leading zeros.
pub open spec fn dec_u8(n: u8) -> Seq<char> {
    if n < 10 {
        seq![dec_digit(n as int)]
    } else if n < 100 {
        seq![dec_digit(n as int / 10), dec_digit(n as int % 10)]
    } else {
        seq![dec_digit(n as int / 100), dec_digit((n as int / 10) % 10), dec_digit(n as int % 10)]
    }
}

/// The comma-separated decimal items of a byte array.
pub open spec fn bytes_items(b: Seq<u8>) -> Seq<char>
    decreases b.len(),
{
    if b.len() == 0 {
        Seq::empty()
    } else if b.len() == 1 {
        dec_u8(b[0])
    } else {
        dec_u8(b[0]) + seq![','] + bytes_items(b.drop_first())
    }
}

/// A byte array: the items between square brackets.
pub open spec fn bytes_array(b: Seq<u8>) -> Seq<char> {
    seq!['['] + bytes_items(b) + seq![']']
}

/// `{"name":"` — the opening of an entry object, up to the name value.
pub open spec fn l_name() -> Seq<char> {
    seq!['{', '"', 'n', 'a', 'm', 'e', '"', ':', '"']
}

/// `","secret":"` — closes the name value, opens the secret value.
pub open spec fn l_secret() -> Seq<char> {
    seq!['"', ',', '"', 's', 'e', 'c', 'r', 'e', 't', '"', ':', '"']
}

/// `","username":"` — closes the secret value, opens the username value.
pub open spec fn l_username() -> Seq<char> {
    seq!['"', ',', '"', 'u', 's', 'e', 'r', 'n', 'a', 'm', 'e', '"', ':', '"']
}

/// `","secret_bytes":` — closes the username value, names the byte array.
pub open spec fn l_bytes() -> Seq<char> {
    seq!['"', ',', '"', 's', 'e', 'c', 'r', 'e', 't', '_', 'b', 'y', 't', 'e', 's', '"', ':']
}

/// `{"version":` — the opening of the vault document.
pub open spec fn l_version() -> Seq<char> {
    seq!['{', '"', 'v', 'e', 'r', 's', 'i', 'o', 'n', '"', ':']
}

/// `,"content":{"applications":{` — between the version and the entries.
pub open spec fn l_content() -> Seq<char> {
    seq![',', '"', 'c', 'o', 'n', 't', 'e', 'n', 't', '"', ':', '{', '"', 'a', 'p', 'p', 'l',
        'i', 'c', 'a', 't', 'i', 'o', 'n', 's', '"', ':', '{']
}

/// One entry object, fields in declaration order.
pub open spec fn ser_app(a: AppView) -> Seq<char> {
    l_name() + escape(a.name) + l_secret() + escape(a.secret) + l_username() + escape(a.username)
        + l_bytes() + bytes_array(a.secret_bytes) + seq!['}']
}

/// One keyed entry: the name as key, then the entry object.
pub open spec fn ser_entry(a: AppView) -> Seq<char> {
    quoted(a.name) + seq![':'] + ser_app(a)
}

/// The keyed entries, comma-separated, without the surrounding braces.
pub open spec fn entries_body(apps: Seq<AppView>) -> Seq<char>
    decreases apps.len(),
{
    if apps.len() == 0 {
        Seq::empty()
    } else if apps.len() == 1 {
        ser_entry(apps[0])
    } else {
        ser_entry(apps[0]) + seq![','] + entries_body(apps.drop_first())
    }
}

/// The applications object: the entries and the closing brace. (The opening
/// brace belongs to the fragment before it.)
pub open spec fn ser_entries(apps: Seq<AppView>) -> Seq<char> {
    entries_body(apps) + seq!['}']
}

/// The whole vault document.
pub open spec fn ser_vault(version: u8, apps: Seq<AppView>) -> Seq<char> {
    l_version() + dec_u8(version) + l_content() + ser_entries(apps) + seq!['}', '}']
}

/// No two entries share a name.
pub open spec fn unique_names(apps: Seq<AppView>) -> bool {
    forall|i: int, j: int| 0 <= i < j < apps.len() ==> apps[i].name != apps[j].name
}

/// Escaping distributes over appending one character.
pub proof fn lemma_escape_push(s: Seq<char>, c: char)
    ensures
        escape(s.push(c)) == escape(s) + escape_char(c),
    decreases s.len(),
{
    if s.len() == 0 {
        let t = s.push(c);
        assert(t.len() == 1);
        assert(t[0] == c);
        assert(t.drop_first() =~= Seq::<char>::empty());
        assert(escape(t.drop_first()) == escape(Seq::<char>::empty()));
        assert(escape(Seq::<char>::empty()) =~= Seq::<char>::empty());
        assert(escape(t) == escape_char(c) + escape(t.drop_first()));
        assert(escape(s.push(c)) =~= escape(s) + escape_char(c));
    } else {
        assert(s.push(c).drop_first() =~= s.drop_first().push(c));
        lemma_escape_push(s.drop_first(), c);
        assert(escape(s.push(c)) =~= escape(s) + escape_char(c));
    }
}

/// The items of a byte array distribute over appending one byte.
pub proof fn lemma_bytes_items_push(b: Seq<u8>, x: u8)
    ensures
        bytes_items(b.push(x)) == if b.len() == 0 {
            dec_u8(x)
        } else {
            bytes_items(b) + seq![','] + dec_u8(x)
        },
    decreases b.len(),
{
    if b.len() == 0 {
        assert(b.push(x)[0] == x);
        assert(bytes_items(b.push(x)) =~= dec_u8(x));
    } else {
        assert(b.push(x).drop_first() =~= b.drop_first().push(x));
        lemma_bytes_items_push(b.drop_first(), x);
        if b.len() == 1 {
            assert(bytes_items(b.push(x)) =~= bytes_items(b) + seq![','] + dec_u8(x));
        } else {
            assert(bytes_items(b.push(x)) =~= bytes_items(b) + seq![','] + dec_u8(x));
        }
    }
}

/// The entries body distributes over appending one entry.
pub proof fn lemma_entries_body_push(apps: Seq<AppView>, a: AppView)
    ensures
        entries_body(apps.push(a)) == if apps.len() == 0 {
            ser_entry(a)
        } else {
            entries_body(apps) + seq![','] + ser_entry(a)
        },
    decreases apps.len(),
{
    if apps.len() == 0 {
        assert(apps.push(a)[0] == a);
        assert(entries_body(apps.push(a)) =~= ser_entry(a));
    } else {
        assert(apps.push(a).drop_first() =~= apps.drop_first().push(a));
        lemma_entries_body_push(apps.drop_first(), a);
        assert(entries_body(apps.push(a)) =~= entries_body(apps) + seq![','] + ser_entry(a));
    }
}

/// Relies on String::push: appends one character at the end.
#[verifier::external_body]
pub(crate) fn push_char(s: &mut String, c: char)
    ensures
        final(s)@ == old(s)@.push(c),
{
    s.push(c);
}

/// The decimal digit character for a byte below ten.
fn dec_digit_char(v: u8) -> (c: char)
    requires
        v < 10,
    ensures
        c == dec_digit(v as int),
{
    if v == 0 { '0' }
    else if v == 1 { '1' }
    else if v == 2 { '2' }
    else if v == 3 { '3' }
    else if v == 4 { '4' }
    else if v == 5 { '5' }
    else if v == 6 { '6' }
    else if v == 7 { '7' }
    else if v == 8 { '8' }
    else { '9' }
}

/// The lower-case hexadecimal digit character for a value below sixteen.
fn hex_digit_char(v: u8) -> (c: char)
    requires
        v < 16,
    ensures
        c == hex_digit(v as int),
{
    if v < 10 {
        dec_digit_char(v)
    } else if v == 10 { 'a' }
    else if v == 11 { 'b' }
    else if v == 12 { 'c' }
    else if v == 13 { 'd' }
    else if v == 14 { 'e' }
    else { 'f' }
}

/// Append the escaped body of `s` to `out`.
fn push_escaped(out: &mut String, s: &str)
    ensures
        final(out)@ == old(out)@ + escape(s@),
{
    let n = s.unicode_len();
    let mut i: usize = 0;
    while i < n
        invariant
            n == s@.len(),
            i <= n,
            out@ == old(out)@ + escape(s@.take(i as int)),
        decreases n - i,
    {
        let c = s.get_char(i);
        let ghost pre = out@;
        if c == '"' {
            push_char(out, '\\');
            push_char(out, '"');
            proof {
                assert(out@ =~= pre + escape_char(c));
            }
        } else if c == '\\' {
            push_char(out, '\\');
            push_char(out, '\\');
            proof {
                assert(out@ =~= pre + escape_char(c));
            }
        } else if (c as u32) < 32 {
            let code: u32 = c as u32;
            push_char(out, '\\');
            push_char(out, 'u');
            push_char(out, '0');
            push_char(out, '0');
            push_char(out, hex_digit_char((code / 16) as u8));
            push_char(out, hex_digit_char((code % 16) as u8));
            proof {
                assert(out@ =~= pre + escape_char(c));
            }
        } else {
            push_char(out, c);
            proof {
                assert(out@ =~= pre + escape_char(c));
            }
        }
        proof {
            lemma_escape_push(s@.take(i as int), c);
            assert(s@.take(i as int).push(c) =~= s@.take(i + 1 as int));
        }
        i = i + 1;
    }
    proof {
        assert(s@.take(n as int) =~= s@);
    }
}

/// Append `s` as a JSON string literal to `out`.
fn push_quoted(out: &mut String, s: &str)
    ensures
        final(out)@ == old(out)@ + quoted(s@),
{
    push_char(out, '"');
    push_escaped(out, s);
    push_char(out, '"');
    proof {
        assert(out@ =~= old(out)@ + quoted(s@));
    }
}

/// Append the decimal form of one byte to `out`.
fn push_u8_dec(out: &mut String, n: u8)
    ensures
        final(out)@ == old(out)@ + dec_u8(n),
{
    if n < 10 {
        push_char(out, dec_digit_char(n));
        proof {
            assert(out@ =~= old(out)@ + dec_u8(n));
        }
    } else if n < 100 {
        push_char(out, dec_digit_char(n / 10));
        push_char(out, dec_digit_char(n % 10));
        proof {
            assert(out@ =~= old(out)@ + dec_u8(n));
        }
    } else {
        push_char(out, dec_digit_char(n / 100));
        push_char(out, dec_digit_char((n / 10) % 10));
        push_char(out, dec_digit_char(n % 10));
        proof {
            assert(out@ =~= old(out)@ + dec_u8(n));
        }
    }
}

/// Append the byte array form of `b` to `out`.
fn push_bytes_array(out: &mut String, b: &Vec<u8>)
    ensures
        final(out)@ == old(out)@ + bytes_array(b@),
{
    push_char(out, '[');
    let ghost base = out@;
    let mut i: usize = 0;
    while i < b.len()
        invariant
            i <= b@.len(),
            out@ == base + bytes_items(b@.take(i as int)),
        decreases b@.len() - i,
    {
        let ghost pre = out@;
        if i > 0 {
            push_char(out, ',');
        }
        push_u8_dec(out, b[i]);
        proof {
            lemma_bytes_items_push(b@.take(i as int), b@[i as int]);
            assert(b@.take(i as int).push(b@[i as int]) =~= b@.take(i + 1 as int));
            if i > 0 {
                assert(out@ =~= base + (bytes_items(b@.take(i as int)) + seq![','] + dec_u8(
                    b@[i as int],
                )));
            } else {
                assert(b@.take(0) =~= Seq::<u8>::empty());
                assert(out@ =~= base + dec_u8(b@[i as int]));
            }
        }
        i = i + 1;
    }
    push_char(out, ']');
    proof {
        assert(b@.take(b@.len() as int) =~= b@);
        assert(out@ =~= old(out)@ + bytes_array(b@));
    }
}

/// Append one entry object to `out`.
fn push_app(out: &mut String, a: &GenApp)
    ensures
        final(out)@ == old(out)@ + ser_app(a@),
{
    out.append("{\"name\":\"");
    proof {
        reveal_strlit("{\"name\":\"");
        assert("{\"name\":\""@ =~= l_name());
    }
    push_escaped(out, a.get_name());
    out.append("\",\"secret\":\"");
    proof {
        reveal_strlit("\",\"secret\":\"");
        assert("\",\"secret\":\""@ =~= l_secret());
    }
    push_escaped(out, a.get_secret());
    out.append("\",\"username\":\"");
    proof {
        reveal_strlit("\",\"username\":\"");
        assert("\",\"username\":\""@ =~= l_username());
    }
    push_escaped(out, a.get_username());
    out.append("\",\"secret_bytes\":");
    proof {
        reveal_strlit("\",\"secret_bytes\":");
        assert("\",\"secret_bytes\":"@ =~= l_bytes());
    }
    push_bytes_array(out, a.get_secret_bytes());
    push_char(out, '}');
    proof {
        assert(out@ =~= old(out)@ + ser_app(a@));
    }
}

/// Append one keyed entry to `out`.
fn push_entry(out: &mut String, a: &GenApp)
    ensures
        final(out)@ == old(out)@ + ser_entry(a@),
{
    push_quoted(out, a.get_name());
    push_char(out, ':');
    push_app(out, a);
    proof {
        assert(out@ =~= old(out)@ + ser_entry(a@));
    }
}

/// Append the applications object — the keyed entries and the closing
/// brace — to `out`.
fn push_entries(out: &mut String, apps: &Vec<GenApp>)
    ensures
        final(out)@ == old(out)@ + ser_entries(apps.deep_view()),
{
    let ghost views = apps.deep_view();
    let ghost base = out@;
    let mut i: usize = 0;
    while i < apps.len()
        invariant
            i <= apps@.len(),
            views == apps.deep_view(),
            views.len() == apps@.len(),
            forall|k: int| 0 <= k < views.len() ==> views[k] == apps@[k]@,
            out@ == base + entries_body(views.take(i as int)),
        decreases apps@.len() - i,
    {
        if i > 0 {
            push_char(out, ',');
        }
        push_entry(out, &apps[i]);
        proof {
            lemma_entries_body_push(views.take(i as int), views[i as int]);
            assert(views.take(i as int).push(views[i as int]) =~= views.take(i + 1 as int));
            if i > 0 {
                assert(out@ =~= base + (entries_body(views.take(i as int)) + seq![','] + ser_entry(
                    views[i as int],
                )));
            } else {
                assert(views.take(0) =~= Seq::<AppView>::empty());
                assert(out@ =~= base + ser_entry(views[i as int]));
            }
        }
        i = i + 1;
    }
    push_char(out, '}');
    proof {
        assert(views.take(views.len() as int) =~= views);
        assert(out@ =~= old(out)@ + ser_entries(views));
    }
}

/// The canonical JSON text of the applications object alone, as the export
/// command prints it: `{` then the keyed entries and the closing brace.
pub fn applications_json(apps: &Vec<GenApp>) -> (r: String)
    ensures
        r@ == seq!['{'] + ser_entries(apps.deep_view()),
{
    let mut out = String::new();
    push_char(&mut out, '{');
    push_entries(&mut out, apps);
    proof {
        assert(out@ =~= seq!['{'] + ser_entries(apps.deep_view()));
    }
    out
}

/// The canonical JSON text of a whole vault.
pub fn vault_json(version: u8, apps: &Vec<GenApp>) -> (r: String)
    ensures
        r@ == ser_vault(version, apps.deep_view()),
{
    let mut out = String::new();
    out.append("{\"version\":");
    proof {
        reveal_strlit("{\"version\":");
        assert("{\"version\":"@ =~= l_version());
    }
    push_u8_dec(&mut out, version);
    out.append(",\"content\":{\"applications\":{");
    proof {
        reveal_strlit(",\"content\":{\"applications\":{");
        assert(",\"content\":{\"applications\":{"@ =~= l_content());
    }
    push_entries(&mut out, apps);
    push_char(&mut out, '}');
    push_char(&mut out, '}');
    proof {
        assert(out@ =~= ser_vault(version, apps.deep_view()));
    }
    out
}

} // verus!

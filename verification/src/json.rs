//! The persisted configuration document.
//!
//! The configuration is stored durably as one small JSON object with the
//! three fields of [`crate::config::Config`]. This module defines the
//! document format mathematically, and implements a verified writer and
//! reader for it.
//!
//! The writer emits the object compactly, escaping `"` and `\` inside
//! strings; any other character stands as itself, and the reader takes it
//! back as itself. The reader accepts the three members in any order but
//! each exactly once, whitespace between tokens (so pretty-printed
//! documents load), the common single-character escapes
//! (`\"`, `\\`, `\/`, `\n`, `\t`, `\r`, `\b`, `\f`), and a non-negative
//! integer timeout up to `u32::MAX`. A document it does not accept —
//! including `\u` escapes, which it deliberately leaves out — simply fails
//! to parse, and the loader falls back to the documented defaults.

use crate::config::ConfigView;
use vstd::prelude::*;

verus! {

// ---------------------------------------------------------------------
// The document format, as spec functions.
// ---------------------------------------------------------------------
/// JSON whitespace.
pub open spec fn is_json_ws(c: char) -> bool {
    c == ' ' || c == '\n' || c == '\r' || c == '\t'
}

/// Drops leading whitespace.
pub open spec fn skip_ws(s: Seq<char>) -> Seq<char>
    decreases s.len(),
{
    if s.len() > 0 && is_json_ws(s[0]) {
        skip_ws(s.drop_first())
    } else {
        s
    }
}

/// Consumes an exact token from the front of the input.
pub open spec fn expect(s: Seq<char>, lit: Seq<char>) -> Option<Seq<char>> {
    if lit.len() <= s.len() && s.subrange(0, lit.len() as int) == lit {
        Some(s.skip(lit.len() as int))
    } else {
        None
    }
}

/// How one character of a field value is written inside a JSON string:
/// `"` and `\` get a backslash escape, everything else stands as itself.
pub open spec fn escape_char(c: char) -> Seq<char> {
    if c == '"' {
        seq!['\\', '"']
    } else if c == '\\' {
        seq!['\\', '\\']
    } else {
        seq![c]
    }
}

/// A whole field value, escaped.
pub open spec fn escape_string(s: Seq<char>) -> Seq<char>
    decreases s.len(),
{
    if s.len() == 0 {
        Seq::empty()
    } else {
        escape_char(s[0]) + escape_string(s.drop_first())
    }
}

/// The character denoted by a single-character escape code, if any.
pub open spec fn unescape_code(c: char) -> Option<char> {
    if c == '"' {
        Some('"')
    } else if c == '\\' {
        Some('\\')
    } else if c == '/' {
        Some('/')
    } else if c == 'n' {
        Some('\n')
    } else if c == 't' {
        Some('\t')
    } else if c == 'r' {
        Some('\r')
    } else if c == 'b' {
        Some('\u{0008}')
    } else if c == 'f' {
        Some('\u{000C}')
    } else {
        None
    }
}

/// Reads the body of a JSON string after its opening quote: the decoded
/// value and the input that follows the closing quote.
pub open spec fn parse_string_body(s: Seq<char>) -> Option<(Seq<char>, Seq<char>)>
    decreases s.len(),
{
    if s.len() == 0 {
        None
    } else if s[0] == '"' {
        Some((Seq::empty(), s.drop_first()))
    } else if s[0] == '\\' {
        if s.len() < 2 {
            None
        } else {
            match unescape_code(s[1]) {
                Option::None => None,
                Option::Some(c) => match parse_string_body(s.skip(2)) {
                    Option::None => None,
                    Option::Some(p) => Some((seq![c] + p.0, p.1)),
                },
            }
        }
    } else {
        match parse_string_body(s.drop_first()) {
            Option::None => None,
            Option::Some(p) => Some((seq![s[0]] + p.0, p.1)),
        }
    }
}

/// A decimal digit.
pub open spec fn is_digit(c: char) -> bool {
    48 <= c as u32 <= 57
}

/// The value of one digit.
pub open spec fn digit_val(c: char) -> nat
    recommends
        is_digit(c),
{
    (c as u32 - 48) as nat
}

/// The longest run of digits at the front of the input.
pub open spec fn digit_prefix(s: Seq<char>) -> Seq<char>
    decreases s.len(),
{
    if s.len() > 0 && is_digit(s[0]) {
        seq![s[0]] + digit_prefix(s.drop_first())
    } else {
        Seq::empty()
    }
}

/// The number a digit run denotes.
pub open spec fn digits_val(ds: Seq<char>) -> nat
    decreases ds.len(),
{
    if ds.len() == 0 {
        0
    } else {
        digits_val(ds.drop_last()) * 10 + digit_val(ds.last())
    }
}

/// Reads a non-negative integer that fits in `u32`: its value and the
/// input after the digits. Rejects an empty digit run and overflow.
pub open spec fn parse_u32(s: Seq<char>) -> Option<(u32, Seq<char>)> {
    let ds = digit_prefix(s);
    if ds.len() == 0 {
        None
    } else if digits_val(ds) > u32::MAX {
        None
    } else {
        Some((digits_val(ds) as u32, s.skip(ds.len() as int)))
    }
}

/// The first field's key.
pub open spec fn key_home_assistant_url() -> Seq<char> {
    seq!['h', 'o', 'm', 'e', '_', 'a', 's', 's', 'i', 's', 't', 'a', 'n', 't', '_', 'u', 'r', 'l']
}

/// The second field's key.
pub open spec fn key_photos_folder() -> Seq<char> {
    seq!['p', 'h', 'o', 't', 'o', 's', '_', 'f', 'o', 'l', 'd', 'e', 'r']
}

/// The third field's key.
pub open spec fn key_idle_timeout_seconds() -> Seq<char> {
    seq![
        'i',
        'd',
        'l',
        'e',
        '_',
        't',
        'i',
        'm',
        'e',
        'o',
        'u',
        't',
        '_',
        's',
        'e',
        'c',
        'o',
        'n',
        'd',
        's',
    ]
}

/// One member of the object, identified by its key.
pub ghost enum MemberVal {
    Url(Seq<char>),
    Folder(Seq<char>),
    Idle(u32),
}

/// Reads one member, `"key": value`, with whitespace allowed around the
/// tokens. The key itself is read as a JSON string, so an escaped key
/// still matches; an unknown key rejects the document, and the key
/// decides whether a string or an integer value follows.
pub open spec fn parse_member(s: Seq<char>) -> Option<(MemberVal, Seq<char>)> {
    match expect(skip_ws(s), seq!['"']) {
        Option::None => None,
        Option::Some(r0) => match parse_string_body(r0) {
            Option::None => None,
            Option::Some(kp) => match expect(skip_ws(kp.1), seq![':']) {
                Option::None => None,
                Option::Some(r1) => {
                    let r2 = skip_ws(r1);
                    if kp.0 == key_home_assistant_url() {
                        match expect(r2, seq!['"']) {
                            Option::None => None,
                            Option::Some(r3) => match parse_string_body(r3) {
                                Option::None => None,
                                Option::Some(vp) => Some((MemberVal::Url(vp.0), vp.1)),
                            },
                        }
                    } else if kp.0 == key_photos_folder() {
                        match expect(r2, seq!['"']) {
                            Option::None => None,
                            Option::Some(r3) => match parse_string_body(r3) {
                                Option::None => None,
                                Option::Some(vp) => Some((MemberVal::Folder(vp.0), vp.1)),
                            },
                        }
                    } else if kp.0 == key_idle_timeout_seconds() {
                        match parse_u32(r2) {
                            Option::None => None,
                            Option::Some(np) => Some((MemberVal::Idle(np.0), np.1)),
                        }
                    } else {
                        None
                    }
                },
            },
        },
    }
}

/// Combines three members into a configuration value: one member per
/// field, each field exactly once, in whatever order they appeared.
pub open spec fn combine_members(m1: MemberVal, m2: MemberVal, m3: MemberVal) -> Option<ConfigView> {
    match (m1, m2, m3) {
        (MemberVal::Url(u), MemberVal::Folder(f), MemberVal::Idle(n)) => Some(
            ConfigView { home_assistant_url: u, photos_folder: f, idle_timeout_seconds: n },
        ),
        (MemberVal::Url(u), MemberVal::Idle(n), MemberVal::Folder(f)) => Some(
            ConfigView { home_assistant_url: u, photos_folder: f, idle_timeout_seconds: n },
        ),
        (MemberVal::Folder(f), MemberVal::Url(u), MemberVal::Idle(n)) => Some(
            ConfigView { home_assistant_url: u, photos_folder: f, idle_timeout_seconds: n },
        ),
        (MemberVal::Folder(f), MemberVal::Idle(n), MemberVal::Url(u)) => Some(
            ConfigView { home_assistant_url: u, photos_folder: f, idle_timeout_seconds: n },
        ),
        (MemberVal::Idle(n), MemberVal::Url(u), MemberVal::Folder(f)) => Some(
            ConfigView { home_assistant_url: u, photos_folder: f, idle_timeout_seconds: n },
        ),
        (MemberVal::Idle(n), MemberVal::Folder(f), MemberVal::Url(u)) => Some(
            ConfigView { home_assistant_url: u, photos_folder: f, idle_timeout_seconds: n },
        ),
        _ => None,
    }
}

/// The whole document: the object with its three members — one per
/// field, in any order — nothing but whitespace around the tokens, and
/// nothing after the closing brace.
pub open spec fn spec_parse_config(s: Seq<char>) -> Option<ConfigView> {
    match expect(skip_ws(s), seq!['{']) {
        Option::None => None,
        Option::Some(r0) => match parse_member(r0) {
            Option::None => None,
            Option::Some(p1) => match expect(skip_ws(p1.1), seq![',']) {
                Option::None => None,
                Option::Some(r1) => match parse_member(r1) {
                    Option::None => None,
                    Option::Some(p2) => match expect(skip_ws(p2.1), seq![',']) {
                        Option::None => None,
                        Option::Some(r2) => match parse_member(r2) {
                            Option::None => None,
                            Option::Some(p3) => match expect(skip_ws(p3.1), seq!['}']) {
                                Option::None => None,
                                Option::Some(r3) => if skip_ws(r3).len() == 0 {
                                    combine_members(p1.0, p2.0, p3.0)
                                } else {
                                    None
                                },
                            },
                        },
                    },
                },
            },
        },
    }
}

/// One string-valued member as the writer lays it out.
pub open spec fn member_str(key: Seq<char>, val: Seq<char>) -> Seq<char> {
    seq!['"'] + key + seq!['"', ':', '"'] + escape_string(val) + seq!['"']
}

/// One integer-valued member as the writer lays it out.
pub open spec fn member_u32(key: Seq<char>, n: nat) -> Seq<char> {
    seq!['"'] + key + seq!['"', ':'] + dec_digits(n)
}

/// The decimal digits of a number, most significant first.
pub open spec fn dec_digits(n: nat) -> Seq<char>
    decreases n,
{
    if n < 10 {
        seq![digit_char(n)]
    } else {
        dec_digits(n / 10) + seq![digit_char(n % 10)]
    }
}

/// The digit character for a value below ten.
pub open spec fn digit_char(n: nat) -> char
    recommends
        n < 10,
{
    if n == 0 {
        '0'
    } else if n == 1 {
        '1'
    } else if n == 2 {
        '2'
    } else if n == 3 {
        '3'
    } else if n == 4 {
        '4'
    } else if n == 5 {
        '5'
    } else if n == 6 {
        '6'
    } else if n == 7 {
        '7'
    } else if n == 8 {
        '8'
    } else {
        '9'
    }
}

/// The exact text the writer produces for a configuration value.
pub open spec fn spec_serialize(c: ConfigView) -> Seq<char> {
    seq!['{'] + member_str(key_home_assistant_url(), c.home_assistant_url) + seq![','] + member_str(
        key_photos_folder(),
        c.photos_folder,
    ) + seq![','] + member_u32(key_idle_timeout_seconds(), c.idle_timeout_seconds as nat) + seq![
        '}',
    ]
}

// ---------------------------------------------------------------------
// The writer.
// ---------------------------------------------------------------------
proof fn lemma_escape_snoc(x: Seq<char>, c: char)
    ensures
        escape_string(x + seq![c]) == escape_string(x) + escape_char(c),
    decreases x.len(),
{
    let whole = x + seq![c];
    if x.len() == 0 {
        assert(whole =~= seq![c]);
        assert(whole.drop_first() =~= Seq::<char>::empty());
        assert(escape_string(Seq::<char>::empty()) == Seq::<char>::empty());
        assert(escape_string(x) == Seq::<char>::empty());
        assert(escape_string(whole) == escape_char(c) + Seq::<char>::empty());
        assert(escape_char(c) + Seq::<char>::empty() =~= Seq::<char>::empty() + escape_char(c));
    } else {
        assert(whole[0] == x[0]);
        assert(whole.drop_first() =~= x.drop_first() + seq![c]);
        lemma_escape_snoc(x.drop_first(), c);
        assert(escape_string(whole) == escape_char(x[0]) + (escape_string(x.drop_first())
            + escape_char(c)));
        assert(escape_string(x) == escape_char(x[0]) + escape_string(x.drop_first()));
        assert(escape_char(x[0]) + (escape_string(x.drop_first()) + escape_char(c)) =~= (escape_char(
            x[0],
        ) + escape_string(x.drop_first())) + escape_char(c));
    }
}

/// Appends a field value to the output, escaped.
fn write_escaped(out: &mut Vec<char>, s: &str)
    ensures
        final(out)@ == old(out)@ + escape_string(s@),
{
    let n = s.unicode_len();
    let mut i: usize = 0;
    while i < n
        invariant
            i <= n,
            n == s@.len(),
            out@ == old(out)@ + escape_string(s@.take(i as int)),
        decreases n - i,
    {
        proof {
            assert(s@.take(i + 1) =~= s@.take(i as int) + seq![s@[i as int]]);
            lemma_escape_snoc(s@.take(i as int), s@[i as int]);
        }
        let c = s.get_char(i);
        if c == '"' {
            out.push('\\');
            out.push('"');
        } else if c == '\\' {
            out.push('\\');
            out.push('\\');
        } else {
            out.push(c);
        }
        i = i + 1;
        assert(out@ =~= old(out)@ + escape_string(s@.take(i as int)));
    }
    assert(s@.take(n as int) =~= s@);
}

/// The digit character of a value below ten.
fn digit_char_exec(d: u32) -> (r: char)
    requires
        d < 10,
    ensures
        r == digit_char(d as nat),
{
    if d == 0 {
        '0'
    } else if d == 1 {
        '1'
    } else if d == 2 {
        '2'
    } else if d == 3 {
        '3'
    } else if d == 4 {
        '4'
    } else if d == 5 {
        '5'
    } else if d == 6 {
        '6'
    } else if d == 7 {
        '7'
    } else if d == 8 {
        '8'
    } else {
        '9'
    }
}

/// Appends the decimal digits of a number to the output.
fn write_u32(out: &mut Vec<char>, n: u32)
    ensures
        final(out)@ == old(out)@ + dec_digits(n as nat),
    decreases n,
{
    if n < 10 {
        out.push(digit_char_exec(n));
        assert(out@ =~= old(out)@ + dec_digits(n as nat));
    } else {
        write_u32(out, n / 10);
        out.push(digit_char_exec(n % 10));
        assert(out@ =~= old(out)@ + dec_digits(n as nat));
    }
}

/// Writes a configuration value as the persisted JSON document.
pub fn serialize_config(c: &crate::config::Config) -> (r: String)
    ensures
        r@ == spec_serialize(c@),
{
    let mut out: Vec<char> = Vec::new();
    append_key_quoted(&mut out, "home_assistant_url", '{');
    proof {
        reveal_strlit("home_assistant_url");
        assert("home_assistant_url"@ =~= key_home_assistant_url());
    }
    write_escaped(&mut out, c.home_assistant_url.as_str());
    out.push('"');
    append_key_quoted(&mut out, "photos_folder", ',');
    proof {
        reveal_strlit("photos_folder");
        assert("photos_folder"@ =~= key_photos_folder());
    }
    write_escaped(&mut out, c.photos_folder.as_str());
    out.push('"');
    out.push(',');
    out.push('"');
    append_str_key(&mut out, "idle_timeout_seconds");
    proof {
        reveal_strlit("idle_timeout_seconds");
        assert("idle_timeout_seconds"@ =~= key_idle_timeout_seconds());
    }
    out.push('"');
    out.push(':');
    write_u32(&mut out, c.idle_timeout_seconds);
    out.push('}');
    let r = crate::text::string_of_chars(&out);
    proof {
        assert(out@ =~= spec_serialize(c@));
    }
    r
}

/// Appends `<lead>"key":"` to the output.
fn append_key_quoted(out: &mut Vec<char>, key: &str, lead: char)
    ensures
        final(out)@ == old(out)@ + seq![lead, '"'] + key@ + seq!['"', ':', '"'],
{
    out.push(lead);
    out.push('"');
    append_str_key(out, key);
    out.push('"');
    out.push(':');
    out.push('"');
    assert(out@ =~= old(out)@ + seq![lead, '"'] + key@ + seq!['"', ':', '"']);
}

/// Appends the characters of a key to the output.
fn append_str_key(out: &mut Vec<char>, key: &str)
    ensures
        final(out)@ == old(out)@ + key@,
{
    crate::text::append_str_chars(out, key);
}

// ---------------------------------------------------------------------
// The reader.
// ---------------------------------------------------------------------
/// Decides JSON whitespace.
fn is_ws_exec(c: char) -> (r: bool)
    ensures
        r == is_json_ws(c),
{
    c == ' ' || c == '\n' || c == '\r' || c == '\t'
}

/// Drops leading whitespace.
fn skip_ws_exec<'a>(s: &'a [char]) -> (r: &'a [char])
    ensures
        r@ == skip_ws(s@),
    decreases s@.len(),
{
    if s.len() > 0 && is_ws_exec(*vstd::slice::slice_index_get(s, 0)) {
        let rest = vstd::slice::slice_subrange(s, 1, s.len());
        assert(rest@ =~= s@.drop_first());
        skip_ws_exec(rest)
    } else {
        s
    }
}

/// Consumes one exact character from the front of the input.
fn expect_char<'a>(s: &'a [char], c: char) -> (r: Option<&'a [char]>)
    ensures
        (match r {
            Option::Some(rest) => expect(s@, seq![c]) == Option::Some(rest@),
            Option::None => expect(s@, seq![c]) is None,
        }),
{
    if s.len() >= 1 && *vstd::slice::slice_index_get(s, 0) == c {
        let rest = vstd::slice::slice_subrange(s, 1, s.len());
        proof {
            assert(s@.subrange(0, 1) =~= seq![c]);
            assert(rest@ =~= s@.skip(1));
        }
        Some(rest)
    } else {
        proof {
            if s@.len() >= 1 {
                if s@.subrange(0, 1) == seq![c] {
                    assert(s@.subrange(0, 1)[0] == s@[0]);
                    assert(false);
                }
            }
        }
        None
    }
}

/// Compares a character vector against a string slice.
fn chars_eq_str(v: &Vec<char>, lit: &str) -> (r: bool)
    ensures
        r == (v@ == lit@),
{
    let n = lit.unicode_len();
    if v.len() != n {
        return false;
    }
    let mut i: usize = 0;
    while i < n
        invariant
            i <= n,
            n == lit@.len(),
            n == v@.len(),
            forall|j: int| 0 <= j < i ==> v@[j] == lit@[j],
        decreases n - i,
    {
        if v[i] != lit.get_char(i) {
            proof {
                if v@ == lit@ {
                    assert(v@[i as int] == lit@[i as int]);
                    assert(false);
                }
            }
            return false;
        }
        i = i + 1;
    }
    assert(v@ =~= lit@);
    true
}

/// The character denoted by a single-character escape code, if any.
fn unescape_code_exec(c: char) -> (r: Option<char>)
    ensures
        r == unescape_code(c),
{
    if c == '"' {
        Some('"')
    } else if c == '\\' {
        Some('\\')
    } else if c == '/' {
        Some('/')
    } else if c == 'n' {
        Some('\n')
    } else if c == 't' {
        Some('\t')
    } else if c == 'r' {
        Some('\r')
    } else if c == 'b' {
        Some('\u{0008}')
    } else if c == 'f' {
        Some('\u{000C}')
    } else {
        None
    }
}

/// Reads the body of a JSON string after its opening quote.
fn parse_string_body_exec<'a>(s: &'a [char]) -> (r: Option<(Vec<char>, &'a [char])>)
    ensures
        (match r {
            Option::Some(p) => parse_string_body(s@) == Option::Some((p.0@, p.1@)),
            Option::None => parse_string_body(s@) is None,
        }),
    decreases s@.len(),
{
    if s.len() == 0 {
        return None;
    }
    let c0 = *vstd::slice::slice_index_get(s, 0);
    if c0 == '"' {
        let rest = vstd::slice::slice_subrange(s, 1, s.len());
        proof {
            assert(rest@ =~= s@.drop_first());
        }
        Some((Vec::new(), rest))
    } else if c0 == '\\' {
        if s.len() < 2 {
            return None;
        }
        let c1 = *vstd::slice::slice_index_get(s, 1);
        match unescape_code_exec(c1) {
            Option::None => None,
            Option::Some(c) => {
                let tail = vstd::slice::slice_subrange(s, 2, s.len());
                proof {
                    assert(tail@ =~= s@.skip(2));
                }
                match parse_string_body_exec(tail) {
                    Option::None => None,
                    Option::Some((mut v, rest)) => {
                        let ghost decoded = v@;
                        v.insert(0, c);
                        assert(v@ =~= seq![c] + decoded);
                        Some((v, rest))
                    },
                }
            },
        }
    } else {
        let tail = vstd::slice::slice_subrange(s, 1, s.len());
        proof {
            assert(tail@ =~= s@.drop_first());
        }
        match parse_string_body_exec(tail) {
            Option::None => None,
            Option::Some((mut v, rest)) => {
                let ghost decoded = v@;
                v.insert(0, c0);
                assert(v@ =~= seq![c0] + decoded);
                Some((v, rest))
            },
        }
    }
}

proof fn lemma_digit_prefix_props(s: Seq<char>)
    ensures
        digit_prefix(s).len() <= s.len(),
        digit_prefix(s) == s.subrange(0, digit_prefix(s).len() as int),
        forall|j: int| 0 <= j < digit_prefix(s).len() ==> is_digit(s[j]),
        digit_prefix(s).len() == s.len() || !is_digit(s[digit_prefix(s).len() as int]),
    decreases s.len(),
{
    if s.len() > 0 && is_digit(s[0]) {
        lemma_digit_prefix_props(s.drop_first());
        assert(digit_prefix(s) == seq![s[0]] + digit_prefix(s.drop_first()));
        assert(digit_prefix(s) =~= s.subrange(0, digit_prefix(s).len() as int));
        assert forall|j: int| 0 <= j < digit_prefix(s).len() implies is_digit(s[j]) by {
            if j > 0 {
                assert(is_digit(s.drop_first()[j - 1]));
            }
        }
    } else {
        assert(digit_prefix(s) == Seq::<char>::empty());
        assert(digit_prefix(s) =~= s.subrange(0, 0));
    }
}

proof fn lemma_digits_val_prefix_le(ds: Seq<char>, k: int)
    requires
        0 <= k <= ds.len(),
    ensures
        digits_val(ds.subrange(0, k)) <= digits_val(ds),
    decreases ds.len() - k,
{
    if k == ds.len() {
        assert(ds.subrange(0, k) =~= ds);
    } else {
        let shorter = ds.subrange(0, k);
        let longer = ds.subrange(0, k + 1);
        assert(longer.drop_last() =~= shorter);
        assert(digits_val(longer) == digits_val(shorter) * 10 + digit_val(longer.last()));
        assert(digits_val(shorter) * 10 >= digits_val(shorter));
        lemma_digits_val_prefix_le(ds, k + 1);
    }
}

/// Reads a non-negative integer that fits in `u32`.
fn parse_u32_exec<'a>(s: &'a [char]) -> (r: Option<(u32, &'a [char])>)
    ensures
        (match r {
            Option::Some(p) => parse_u32(s@) == Option::Some((p.0, p.1@)),
            Option::None => parse_u32(s@) is None,
        }),
{
    proof {
        lemma_digit_prefix_props(s@);
    }
    let ghost dp = digit_prefix(s@);
    let n = s.len();
    let mut i: usize = 0;
    let mut acc: u64 = 0;
    let mut stop = false;
    while i < n && !stop
        invariant
            i <= n,
            n == s@.len(),
            dp == digit_prefix(s@),
            dp.len() <= n,
            dp == s@.subrange(0, dp.len() as int),
            forall|j: int| 0 <= j < dp.len() ==> is_digit(s@[j]),
            dp.len() == n || !is_digit(s@[dp.len() as int]),
            forall|j: int| 0 <= j < i ==> is_digit(s@[j]),
            acc == digits_val(s@.subrange(0, i as int)),
            acc <= u32::MAX,
            stop ==> i < n && !is_digit(s@[i as int]),
        decreases n - i, (if stop {
            0int
        } else {
            1int
        }),
    {
        let c = *vstd::slice::slice_index_get(s, i);
        if 48 <= c as u32 && c as u32 <= 57 {
            let d = c as u32 - 48;
            let acc2: u64 = acc * 10 + d as u64;
            proof {
                assert(s@.subrange(0, i + 1).drop_last() =~= s@.subrange(0, i as int));
                assert(s@.subrange(0, i + 1).last() == s@[i as int]);
                assert(digits_val(s@.subrange(0, i + 1)) == acc * 10 + d);
            }
            if acc2 > 0xFFFF_FFFFu64 {
                proof {
                    // The run of digits reaches past this position, so the
                    // whole run's value exceeds what fits; the document is
                    // rejected.
                    assert(dp.len() >= i + 1);
                    assert(dp.subrange(0, i + 1) =~= s@.subrange(0, i + 1));
                    lemma_digits_val_prefix_le(dp, i + 1);
                    assert(digits_val(dp) > u32::MAX);
                }
                return None;
            }
            acc = acc2;
            i = i + 1;
        } else {
            stop = true;
        }
    }
    if i == 0 {
        assert(digit_prefix(s@) == Seq::<char>::empty());
        return None;
    }
    proof {
        assert(dp.len() >= i);
        assert(dp.len() <= i);
        assert(dp =~= s@.subrange(0, i as int));
    }
    let rest = vstd::slice::slice_subrange(s, i, n);
    proof {
        assert(rest@ =~= s@.skip(i as int));
    }
    Some((acc as u32, rest))
}

/// One member of the object as the reader carries it.
enum ParsedMember {
    Url(Vec<char>),
    Folder(Vec<char>),
    Idle(u32),
}

impl View for ParsedMember {
    type V = MemberVal;

    closed spec fn view(&self) -> MemberVal {
        match self {
            ParsedMember::Url(v) => MemberVal::Url(v@),
            ParsedMember::Folder(v) => MemberVal::Folder(v@),
            ParsedMember::Idle(n) => MemberVal::Idle(*n),
        }
    }
}

/// Reads one member, `"key": value`.
fn parse_member_exec<'a>(s: &'a [char]) -> (r: Option<(ParsedMember, &'a [char])>)
    ensures
        (match r {
            Option::Some(p) => parse_member(s@) == Option::Some((p.0@, p.1@)),
            Option::None => parse_member(s@) is None,
        }),
{
    proof {
        reveal_strlit("home_assistant_url");
        assert("home_assistant_url"@ =~= key_home_assistant_url());
        reveal_strlit("photos_folder");
        assert("photos_folder"@ =~= key_photos_folder());
        reveal_strlit("idle_timeout_seconds");
        assert("idle_timeout_seconds"@ =~= key_idle_timeout_seconds());
    }
    let s0 = skip_ws_exec(s);
    let r0 = match expect_char(s0, '"') {
        Option::None => {
            return None;
        },
        Option::Some(r) => r,
    };
    let (key, kr) = match parse_string_body_exec(r0) {
        Option::None => {
            return None;
        },
        Option::Some(p) => p,
    };
    let r1 = match expect_char(skip_ws_exec(kr), ':') {
        Option::None => {
            return None;
        },
        Option::Some(r) => r,
    };
    let r2 = skip_ws_exec(r1);
    if chars_eq_str(&key, "home_assistant_url") {
        let r3 = match expect_char(r2, '"') {
            Option::None => {
                return None;
            },
            Option::Some(r) => r,
        };
        match parse_string_body_exec(r3) {
            Option::None => None,
            Option::Some((v, rest)) => Some((ParsedMember::Url(v), rest)),
        }
    } else if chars_eq_str(&key, "photos_folder") {
        let r3 = match expect_char(r2, '"') {
            Option::None => {
                return None;
            },
            Option::Some(r) => r,
        };
        match parse_string_body_exec(r3) {
            Option::None => None,
            Option::Some((v, rest)) => Some((ParsedMember::Folder(v), rest)),
        }
    } else if chars_eq_str(&key, "idle_timeout_seconds") {
        match parse_u32_exec(r2) {
            Option::None => None,
            Option::Some((n, rest)) => Some((ParsedMember::Idle(n), rest)),
        }
    } else {
        None
    }
}

/// Reads a configuration value from the persisted JSON document. Returns
/// `None` exactly on the documents the format does not accept.
pub fn parse_config(s: &str) -> (r: Option<crate::config::Config>)
    ensures
        (match r {
            Option::Some(c) => spec_parse_config(s@) == Option::Some(c@),
            Option::None => spec_parse_config(s@) is None,
        }),
{
    let chars = crate::text::chars_of_str(s);
    let sl = chars.as_slice();
    let s0 = skip_ws_exec(sl);
    let r0 = match expect_char(s0, '{') {
        Option::None => {
            return None;
        },
        Option::Some(r) => r,
    };
    let (m1, p1rest) = match parse_member_exec(r0) {
        Option::None => {
            return None;
        },
        Option::Some(p) => p,
    };
    let r1 = match expect_char(skip_ws_exec(p1rest), ',') {
        Option::None => {
            return None;
        },
        Option::Some(r) => r,
    };
    let (m2, p2rest) = match parse_member_exec(r1) {
        Option::None => {
            return None;
        },
        Option::Some(p) => p,
    };
    let r2 = match expect_char(skip_ws_exec(p2rest), ',') {
        Option::None => {
            return None;
        },
        Option::Some(r) => r,
    };
    let (m3, p3rest) = match parse_member_exec(r2) {
        Option::None => {
            return None;
        },
        Option::Some(p) => p,
    };
    let r3 = match expect_char(skip_ws_exec(p3rest), '}') {
        Option::None => {
            return None;
        },
        Option::Some(r) => r,
    };
    let tail = skip_ws_exec(r3);
    if tail.len() != 0 {
        return None;
    }
    combine_members_exec(m1, m2, m3)
}

/// Combines three members into a configuration value: one member per
/// field, each field exactly once, in whatever order they appeared.
fn combine_members_exec(m1: ParsedMember, m2: ParsedMember, m3: ParsedMember) -> (r: Option<
    crate::config::Config,
>)
    ensures
        (match r {
            Option::Some(c) => combine_members(m1@, m2@, m3@) == Option::Some(c@),
            Option::None => combine_members(m1@, m2@, m3@) is None,
        }),
{
    match (m1, m2, m3) {
        (ParsedMember::Url(u), ParsedMember::Folder(f), ParsedMember::Idle(n)) => Some(
            config_of_parts(u, f, n),
        ),
        (ParsedMember::Url(u), ParsedMember::Idle(n), ParsedMember::Folder(f)) => Some(
            config_of_parts(u, f, n),
        ),
        (ParsedMember::Folder(f), ParsedMember::Url(u), ParsedMember::Idle(n)) => Some(
            config_of_parts(u, f, n),
        ),
        (ParsedMember::Folder(f), ParsedMember::Idle(n), ParsedMember::Url(u)) => Some(
            config_of_parts(u, f, n),
        ),
        (ParsedMember::Idle(n), ParsedMember::Url(u), ParsedMember::Folder(f)) => Some(
            config_of_parts(u, f, n),
        ),
        (ParsedMember::Idle(n), ParsedMember::Folder(f), ParsedMember::Url(u)) => Some(
            config_of_parts(u, f, n),
        ),
        _ => None,
    }
}

/// Builds a configuration value from the three parsed fields.
fn config_of_parts(url: Vec<char>, folder: Vec<char>, idle: u32) -> (c: crate::config::Config)
    ensures
        c@ == (ConfigView {
            home_assistant_url: url@,
            photos_folder: folder@,
            idle_timeout_seconds: idle,
        }),
{
    crate::config::Config {
        home_assistant_url: crate::text::string_of_chars(&url),
        photos_folder: crate::text::string_of_chars(&folder),
        idle_timeout_seconds: idle,
    }
}

// ---------------------------------------------------------------------
// The round trip: what the writer produces, the reader accepts, and it
// denotes the value that was written.
// ---------------------------------------------------------------------
proof fn lemma_skip_ws_id(s: Seq<char>)
    requires
        s.len() > 0,
        !is_json_ws(s[0]),
    ensures
        skip_ws(s) == s,
{
}

proof fn lemma_expect_concat(a: Seq<char>, b: Seq<char>)
    ensures
        expect(a + b, a) == Some(b),
{
    assert((a + b).subrange(0, a.len() as int) =~= a);
    assert((a + b).skip(a.len() as int) =~= b);
}

proof fn lemma_string_round_trip(x: Seq<char>, t: Seq<char>)
    ensures
        parse_string_body(escape_string(x) + seq!['"'] + t) == Some((x, t)),
    decreases x.len(),
{
    let q = seq!['"'];
    let s = escape_string(x) + q + t;
    if x.len() == 0 {
        assert(escape_string(x) == Seq::<char>::empty());
        assert(s =~= q + t);
        assert(s[0] == '"');
        assert(s.drop_first() =~= t);
        assert(x =~= Seq::<char>::empty());
    } else {
        let c = x[0];
        let rest = escape_string(x.drop_first()) + q + t;
        assert(escape_string(x) == escape_char(c) + escape_string(x.drop_first()));
        lemma_string_round_trip(x.drop_first(), t);
        assert(x =~= seq![c] + x.drop_first());
        if c == '"' {
            assert(s =~= seq!['\\', '"'] + rest);
            assert(s[0] == '\\' && s[1] == '"');
            assert(unescape_code(s[1]) == Some('"'));
            assert(s.skip(2) =~= rest);
            assert(parse_string_body(s) == Some((seq!['"'] + x.drop_first(), t)));
        } else if c == '\\' {
            assert(s =~= seq!['\\', '\\'] + rest);
            assert(s[0] == '\\' && s[1] == '\\');
            assert(unescape_code(s[1]) == Some('\\'));
            assert(s.skip(2) =~= rest);
            assert(parse_string_body(s) == Some((seq!['\\'] + x.drop_first(), t)));
        } else {
            assert(s =~= seq![c] + rest);
            assert(s[0] == c);
            assert(s.drop_first() =~= rest);
            assert(parse_string_body(s) == Some((seq![c] + x.drop_first(), t)));
        }
    }
}

proof fn lemma_dec_digits_are_digits(n: nat)
    ensures
        dec_digits(n).len() >= 1,
        forall|j: int| 0 <= j < dec_digits(n).len() ==> is_digit(dec_digits(n)[j]),
    decreases n,
{
    if n < 10 {
        assert(is_digit(digit_char(n)));
    } else {
        lemma_dec_digits_are_digits(n / 10);
        assert(is_digit(digit_char(n % 10)));
        assert forall|j: int| 0 <= j < dec_digits(n).len() implies is_digit(dec_digits(n)[j]) by {
            if j < dec_digits(n / 10).len() {
                assert(dec_digits(n)[j] == dec_digits(n / 10)[j]);
            } else {
                assert(dec_digits(n)[j] == digit_char(n % 10));
            }
        }
    }
}

proof fn lemma_dec_digits_val(n: nat)
    ensures
        digits_val(dec_digits(n)) == n,
    decreases n,
{
    if n < 10 {
        assert(digit_val(digit_char(n)) == n);
        assert(dec_digits(n).drop_last() =~= Seq::<char>::empty());
        assert(digits_val(Seq::<char>::empty()) == 0);
        assert(dec_digits(n).last() == digit_char(n));
        assert(digits_val(dec_digits(n)) == digits_val(dec_digits(n).drop_last()) * 10 + digit_val(
            dec_digits(n).last(),
        ));
    } else {
        lemma_dec_digits_val(n / 10);
        assert(dec_digits(n).drop_last() =~= dec_digits(n / 10));
        assert(dec_digits(n).last() == digit_char(n % 10));
        assert(digit_val(digit_char(n % 10)) == n % 10);
        assert(digits_val(dec_digits(n)) == (n / 10) * 10 + n % 10);
        assert((n / 10) * 10 + n % 10 == n) by (nonlinear_arith);
    }
}

proof fn lemma_digit_prefix_exact(a: Seq<char>, t: Seq<char>)
    requires
        forall|j: int| 0 <= j < a.len() ==> is_digit(a[j]),
        t.len() == 0 || !is_digit(t[0]),
    ensures
        digit_prefix(a + t) == a,
    decreases a.len(),
{
    if a.len() == 0 {
        assert(a + t =~= t);
        assert(digit_prefix(t) == Seq::<char>::empty());
        assert(a =~= Seq::<char>::empty());
    } else {
        assert((a + t)[0] == a[0]);
        assert((a + t).drop_first() =~= a.drop_first() + t);
        assert(forall|j: int| 0 <= j < a.drop_first().len() ==> is_digit(a.drop_first()[j]));
        lemma_digit_prefix_exact(a.drop_first(), t);
        assert(digit_prefix(a + t) == seq![a[0]] + a.drop_first());
        assert(seq![a[0]] + a.drop_first() =~= a);
    }
}

proof fn lemma_parse_u32_dec(n: u32, t: Seq<char>)
    requires
        t.len() == 0 || !is_digit(t[0]),
    ensures
        parse_u32(dec_digits(n as nat) + t) == Some((n, t)),
{
    let d = dec_digits(n as nat);
    lemma_dec_digits_are_digits(n as nat);
    lemma_dec_digits_val(n as nat);
    lemma_digit_prefix_exact(d, t);
    assert((d + t).skip(d.len() as int) =~= t);
}

proof fn lemma_escape_id(k: Seq<char>)
    requires
        forall|i: int| 0 <= i < k.len() ==> (k[i] != '"' && k[i] != '\\'),
    ensures
        escape_string(k) == k,
    decreases k.len(),
{
    if k.len() == 0 {
        assert(k =~= Seq::<char>::empty());
    } else {
        assert(k[0] != '"' && k[0] != '\\');
        assert(escape_char(k[0]) == seq![k[0]]);
        assert forall|i: int| 0 <= i < k.drop_first().len() implies (k.drop_first()[i] != '"'
            && k.drop_first()[i] != '\\') by {
            assert(k.drop_first()[i] == k[i + 1]);
        }
        lemma_escape_id(k.drop_first());
        assert(escape_string(k) == seq![k[0]] + k.drop_first());
        assert(seq![k[0]] + k.drop_first() =~= k);
    }
}

/// No key holds a character the writer would escape.
proof fn lemma_keys_plain()
    ensures
        forall|i: int|
            0 <= i < key_home_assistant_url().len() ==> (key_home_assistant_url()[i] != '"'
                && key_home_assistant_url()[i] != '\\'),
        forall|i: int|
            0 <= i < key_photos_folder().len() ==> (key_photos_folder()[i] != '"'
                && key_photos_folder()[i] != '\\'),
        forall|i: int|
            0 <= i < key_idle_timeout_seconds().len() ==> (key_idle_timeout_seconds()[i] != '"'
                && key_idle_timeout_seconds()[i] != '\\'),
{
}

/// The steps shared by every member: the opening quote, the key read
/// back as itself, and the colon. Yields what follows the colon and its
/// whitespace.
proof fn lemma_member_head(k: Seq<char>, v: Seq<char>, t: Seq<char>)
    requires
        forall|i: int| 0 <= i < k.len() ==> (k[i] != '"' && k[i] != '\\'),
        v.len() > 0,
        !is_json_ws(v[0]),
    ensures
        ({
            let s = seq!['"'] + k + seq!['"'] + seq![':'] + v + t;
            &&& skip_ws(s) == s
            &&& expect(s, seq!['"']) == Some(k + seq!['"'] + seq![':'] + v + t)
            &&& parse_string_body(k + seq!['"'] + seq![':'] + v + t) == Some(
                (k, seq![':'] + v + t),
            )
            &&& skip_ws(seq![':'] + v + t) == seq![':'] + v + t
            &&& expect(seq![':'] + v + t, seq![':']) == Some(v + t)
            &&& skip_ws(v + t) == v + t
        }),
{
    let s = seq!['"'] + k + seq!['"'] + seq![':'] + v + t;
    let r0 = k + seq!['"'] + seq![':'] + v + t;
    let rest1 = seq![':'] + v + t;
    assert(s[0] == '"');
    lemma_skip_ws_id(s);
    assert(s =~= seq!['"'] + r0);
    lemma_expect_concat(seq!['"'], r0);
    lemma_escape_id(k);
    assert(r0 =~= escape_string(k) + seq!['"'] + rest1);
    lemma_string_round_trip(k, rest1);
    assert(rest1[0] == ':');
    lemma_skip_ws_id(rest1);
    assert(rest1 =~= seq![':'] + (v + t));
    lemma_expect_concat(seq![':'], v + t);
    assert((v + t)[0] == v[0]);
    lemma_skip_ws_id(v + t);
}

proof fn lemma_member_url_rt(x: Seq<char>, t: Seq<char>)
    ensures
        parse_member(member_str(key_home_assistant_url(), x) + t) == Some((MemberVal::Url(x), t)),
{
    let k = key_home_assistant_url();
    let v = seq!['"'] + escape_string(x) + seq!['"'];
    lemma_keys_plain();
    assert(member_str(k, x) + t =~= seq!['"'] + k + seq!['"'] + seq![':'] + v + t);
    lemma_member_head(k, v, t);
    assert(v + t =~= seq!['"'] + (escape_string(x) + seq!['"'] + t));
    lemma_expect_concat(seq!['"'], escape_string(x) + seq!['"'] + t);
    lemma_string_round_trip(x, t);
}

proof fn lemma_member_folder_rt(x: Seq<char>, t: Seq<char>)
    ensures
        parse_member(member_str(key_photos_folder(), x) + t) == Some((MemberVal::Folder(x), t)),
{
    let k = key_photos_folder();
    let v = seq!['"'] + escape_string(x) + seq!['"'];
    lemma_keys_plain();
    assert(k.len() != key_home_assistant_url().len());
    assert(member_str(k, x) + t =~= seq!['"'] + k + seq!['"'] + seq![':'] + v + t);
    lemma_member_head(k, v, t);
    assert(v + t =~= seq!['"'] + (escape_string(x) + seq!['"'] + t));
    lemma_expect_concat(seq!['"'], escape_string(x) + seq!['"'] + t);
    lemma_string_round_trip(x, t);
}

proof fn lemma_member_idle_rt(n: u32, t: Seq<char>)
    requires
        t.len() == 0 || !is_digit(t[0]),
    ensures
        parse_member(member_u32(key_idle_timeout_seconds(), n as nat) + t) == Some(
            (MemberVal::Idle(n), t),
        ),
{
    let k = key_idle_timeout_seconds();
    let v = dec_digits(n as nat);
    lemma_keys_plain();
    assert(k.len() != key_home_assistant_url().len());
    assert(k.len() != key_photos_folder().len());
    lemma_dec_digits_are_digits(n as nat);
    assert(is_digit(v[0]));
    assert(!is_json_ws(v[0]));
    assert(member_u32(k, n as nat) + t =~= seq!['"'] + k + seq!['"'] + seq![':'] + v + t);
    lemma_member_head(k, v, t);
    lemma_parse_u32_dec(n, t);
}

/// The round trip: the document the writer produces for any
/// configuration value is accepted by the reader, and denotes exactly the
/// value that was written.
pub proof fn lemma_config_round_trip(c: ConfigView)
    ensures
        spec_parse_config(spec_serialize(c)) == Some(c),
{
    let m1 = member_str(key_home_assistant_url(), c.home_assistant_url);
    let m2 = member_str(key_photos_folder(), c.photos_folder);
    let m3 = member_u32(key_idle_timeout_seconds(), c.idle_timeout_seconds as nat);
    let s = spec_serialize(c);
    let t1 = seq![','] + m2 + seq![','] + m3 + seq!['}'];
    let t2 = m2 + seq![','] + m3 + seq!['}'];
    let t3 = seq![','] + m3 + seq!['}'];
    let t4 = m3 + seq!['}'];
    let t5 = seq!['}'];
    let r1 = m1 + t1;
    assert(s =~= seq!['{'] + r1);
    assert(s[0] == '{');
    lemma_skip_ws_id(s);
    lemma_expect_concat(seq!['{'], r1);
    assert(r1 =~= m1 + t1);
    lemma_member_url_rt(c.home_assistant_url, t1);
    assert(t1[0] == ',');
    lemma_skip_ws_id(t1);
    assert(t1 =~= seq![','] + t2);
    lemma_expect_concat(seq![','], t2);
    assert(t2 =~= m2 + t3);
    lemma_member_folder_rt(c.photos_folder, t3);
    assert(t3[0] == ',');
    lemma_skip_ws_id(t3);
    assert(t3 =~= seq![','] + t4);
    lemma_expect_concat(seq![','], t4);
    assert(t4 =~= m3 + t5);
    assert(!is_digit('}'));
    lemma_member_idle_rt(c.idle_timeout_seconds, t5);
    assert(t5[0] == '}');
    lemma_skip_ws_id(t5);
    assert(t5 =~= seq!['}'] + Seq::<char>::empty());
    lemma_expect_concat(seq!['}'], Seq::<char>::empty());
    assert(skip_ws(Seq::<char>::empty()).len() == 0);
    assert(spec_parse_config(s) == Some(
        ConfigView {
            home_assistant_url: c.home_assistant_url,
            photos_folder: c.photos_folder,
            idle_timeout_seconds: c.idle_timeout_seconds,
        },
    ));
}

} // verus!

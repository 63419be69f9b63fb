//! The manager-file wire format.
//!
//! The current schema is one JSON object holding `recentFiles`, `session` and
//! `schemaVersion`; the legacy schema is a JSON array of note records.  Both
//! directions are implemented here as verified functions on character
//! sequences: `ser_*` spec functions define the exact text this library
//! writes, `spec_parse_*` define what the reader accepts (the compact form
//! written here, keys in canonical order), and the round-trip lemmas prove
//! that parsing inverts serialization.

use vstd::prelude::*;

verus! {

// ------------------------------------------------------------------
// Serialization: spec level
// ------------------------------------------------------------------

/// How one character of a JSON string is written: the five short escapes,
/// every other character verbatim.
pub open spec fn esc_char(c: char) -> Seq<char> {
    if c == '"' {
        seq!['\\', '"']
    } else if c == '\\' {
        seq!['\\', '\\']
    } else if c == '\n' {
        seq!['\\', 'n']
    } else if c == '\r' {
        seq!['\\', 'r']
    } else if c == '\t' {
        seq!['\\', 't']
    } else {
        seq![c]
    }
}

pub open spec fn ser_str_body(s: Seq<char>) -> Seq<char>
    decreases s.len(),
{
    if s.len() == 0 {
        Seq::empty()
    } else {
        esc_char(s[0]) + ser_str_body(s.drop_first())
    }
}

/// A JSON string: quote, escaped content, quote.
pub open spec fn ser_string(s: Seq<char>) -> Seq<char> {
    seq!['"'] + ser_str_body(s) + seq!['"']
}

pub open spec fn digit_char(d: u64) -> char {
    if d == 0 {
        '0'
    } else if d == 1 {
        '1'
    } else if d == 2 {
        '2'
    } else if d == 3 {
        '3'
    } else if d == 4 {
        '4'
    } else if d == 5 {
        '5'
    } else if d == 6 {
        '6'
    } else if d == 7 {
        '7'
    } else if d == 8 {
        '8'
    } else {
        '9'
    }
}

/// A non-negative integer in decimal, most significant digit first.
pub open spec fn ser_u64(n: u64) -> Seq<char>
    decreases n,
{
    if n < 10 {
        seq![digit_char(n)]
    } else {
        ser_u64(n / 10).push(digit_char(n % 10))
    }
}

pub open spec fn ser_bool(b: bool) -> Seq<char> {
    if b {
        seq!['t', 'r', 'u', 'e']
    } else {
        seq!['f', 'a', 'l', 's', 'e']
    }
}

pub open spec fn null_chars() -> Seq<char> {
    seq!['n', 'u', 'l', 'l']
}

/// An optional string: `null` when absent, a JSON string otherwise.
pub open spec fn ser_opt_string(o: Option<Seq<char>>) -> Seq<char> {
    match o {
        None => null_chars(),
        Some(s) => ser_string(s),
    }
}

// ------------------------------------------------------------------
// Parsing: spec level
// ------------------------------------------------------------------

/// The fixed text `lit` stands in `s` at position `i`.
pub open spec fn match_at(s: Seq<char>, i: int, lit: Seq<char>) -> bool {
    0 <= i && i + lit.len() <= s.len() && s.subrange(i, i + lit.len()) == lit
}

pub open spec fn spec_parse_lit(s: Seq<char>, i: int, lit: Seq<char>) -> Option<int> {
    if match_at(s, i, lit) {
        Some(i + lit.len())
    } else {
        None
    }
}

/// The character a short escape stands for.
pub open spec fn unesc_char(c: char) -> Option<char> {
    if c == '"' {
        Some('"')
    } else if c == '\\' {
        Some('\\')
    } else if c == 'n' {
        Some('\n')
    } else if c == 'r' {
        Some('\r')
    } else if c == 't' {
        Some('\t')
    } else {
        None
    }
}

/// Content of a JSON string from `i` up to its closing quote; returns the
/// unescaped content and the position after the quote.
pub open spec fn spec_parse_str_body(s: Seq<char>, i: int) -> Option<(Seq<char>, int)>
    decreases s.len() - i,
    when 0 <= i <= s.len()
{
    if i >= s.len() {
        None
    } else if s[i] == '"' {
        Some((Seq::empty(), i + 1))
    } else if s[i] == '\\' {
        if i + 1 < s.len() && unesc_char(s[i + 1]) is Some {
            match spec_parse_str_body(s, i + 2) {
                None => None,
                Some((rest, j)) => Some((seq![unesc_char(s[i + 1])->0] + rest, j)),
            }
        } else {
            None
        }
    } else {
        match spec_parse_str_body(s, i + 1) {
            None => None,
            Some((rest, j)) => Some((seq![s[i]] + rest, j)),
        }
    }
}

pub open spec fn spec_parse_string(s: Seq<char>, i: int) -> Option<(Seq<char>, int)> {
    if 0 <= i < s.len() && s[i] == '"' {
        spec_parse_str_body(s, i + 1)
    } else {
        None
    }
}

pub open spec fn is_digit(c: char) -> bool {
    48 <= c as u32 <= 57
}

pub open spec fn digit_val(c: char) -> u64 {
    (c as u32 - 48) as u64
}

/// Consume a maximal run of digits, folding them into `acc`; rejects values
/// that do not fit in a `u64`.
pub open spec fn spec_parse_digits(s: Seq<char>, i: int, acc: u64) -> Option<(u64, int)>
    decreases s.len() - i,
    when 0 <= i <= s.len()
{
    if i < s.len() && is_digit(s[i]) {
        if acc as int * 10 + digit_val(s[i]) <= u64::MAX {
            spec_parse_digits(s, i + 1, (acc * 10 + digit_val(s[i])) as u64)
        } else {
            None
        }
    } else {
        Some((acc, i))
    }
}

pub open spec fn spec_parse_u64(s: Seq<char>, i: int) -> Option<(u64, int)> {
    if 0 <= i < s.len() && is_digit(s[i]) {
        spec_parse_digits(s, i, 0)
    } else {
        None
    }
}

pub open spec fn spec_parse_bool(s: Seq<char>, i: int) -> Option<(bool, int)> {
    match spec_parse_lit(s, i, ser_bool(true)) {
        Some(j) => Some((true, j)),
        None => match spec_parse_lit(s, i, ser_bool(false)) {
            Some(j) => Some((false, j)),
            None => None,
        },
    }
}

pub open spec fn spec_parse_opt_string(s: Seq<char>, i: int) -> Option<(Option<Seq<char>>, int)> {
    match spec_parse_lit(s, i, null_chars()) {
        Some(j) => Some((None, j)),
        None => match spec_parse_string(s, i) {
            Some((v, j)) => Some((Some(v), j)),
            None => None,
        },
    }
}

// ------------------------------------------------------------------
// Serialization: executable level
// ------------------------------------------------------------------

/// Append the characters of the fixed text `lit`.
pub fn emit_lit(out: &mut Vec<char>, lit: &str)
    ensures
        final(out)@ == old(out)@ + lit@,
{
    let n = lit.unicode_len();
    let ghost orig = out@;
    let mut i: usize = 0;
    while i < n
        invariant
            n == lit@.len(),
            i <= n,
            out@ == orig + lit@.take(i as int),
        decreases n - i,
    {
        out.push(lit.get_char(i));
        i = i + 1;
        proof {
            assert(orig + lit@.take(i as int) =~= (orig + lit@.take(i - 1)).push(lit@[i - 1]));
        }
    }
    proof {
        assert(orig + lit@.take(n as int) =~= orig + lit@);
    }
}

proof fn lemma_ser_str_body_push(s: Seq<char>, c: char)
    ensures
        ser_str_body(s.push(c)) == ser_str_body(s) + esc_char(c),
    decreases s.len(),
{
    if s.len() == 0 {
        assert(s.push(c)[0] == c);
        assert(s.push(c).drop_first() =~= Seq::<char>::empty());
        assert(ser_str_body(s.push(c)) == esc_char(c) + ser_str_body(Seq::<char>::empty()));
        assert(esc_char(c) + Seq::<char>::empty() =~= esc_char(c));
        assert(ser_str_body(s) + esc_char(c) =~= esc_char(c));
    } else {
        assert(s.push(c).drop_first() =~= s.drop_first().push(c));
        lemma_ser_str_body_push(s.drop_first(), c);
        assert(ser_str_body(s.push(c)) =~= ser_str_body(s) + esc_char(c));
    }
}

/// Append one JSON string: quote, escaped characters of `s`, quote.
pub fn emit_string(out: &mut Vec<char>, s: &Vec<char>)
    ensures
        final(out)@ == old(out)@ + ser_string(s@),
{
    let ghost orig = out@;
    out.push('"');
    let mut i: usize = 0;
    while i < s.len()
        invariant
            i <= s@.len(),
            out@ == orig + seq!['"'] + ser_str_body(s@.take(i as int)),
        decreases s@.len() - i,
    {
        let c = s[i];
        if c == '"' {
            out.push('\\');
            out.push('"');
        } else if c == '\\' {
            out.push('\\');
            out.push('\\');
        } else if c == '\n' {
            out.push('\\');
            out.push('n');
        } else if c == '\r' {
            out.push('\\');
            out.push('r');
        } else if c == '\t' {
            out.push('\\');
            out.push('t');
        } else {
            out.push(c);
        }
        proof {
            lemma_ser_str_body_push(s@.take(i as int), c);
            assert(s@.take(i + 1) =~= s@.take(i as int).push(c));
            assert(out@ =~= orig + seq!['"'] + ser_str_body(s@.take(i + 1)));
        }
        i = i + 1;
    }
    out.push('"');
    proof {
        assert(s@.take(s@.len() as int) =~= s@);
        assert(out@ =~= orig + ser_string(s@));
    }
}

fn digit_of(d: u64) -> (c: char)
    requires
        d < 10,
    ensures
        c == digit_char(d),
{
    if d == 0 {
        '0'
    } else if d == 1 {
        '1'
    } else if d == 2 {
        '2'
    } else if d == 3 {
        '3'
    } else if d == 4 {
        '4'
    } else if d == 5 {
        '5'
    } else if d == 6 {
        '6'
    } else if d == 7 {
        '7'
    } else if d == 8 {
        '8'
    } else {
        '9'
    }
}

/// Append a decimal integer, most significant digit first.
pub fn emit_u64(out: &mut Vec<char>, n: u64)
    ensures
        final(out)@ == old(out)@ + ser_u64(n),
    decreases n,
{
    if n < 10 {
        out.push(digit_of(n));
    } else {
        emit_u64(out, n / 10);
        out.push(digit_of(n % 10));
        proof {
            assert(out@ =~= old(out)@ + ser_u64(n));
        }
    }
}

pub fn emit_bool(out: &mut Vec<char>, b: bool)
    ensures
        final(out)@ == old(out)@ + ser_bool(b),
{
    if b {
        emit_lit(out, "true");
        proof {
            reveal_strlit("true");
            assert(old(out)@ + "true"@ =~= old(out)@ + ser_bool(true));
        }
    } else {
        emit_lit(out, "false");
        proof {
            reveal_strlit("false");
            assert(old(out)@ + "false"@ =~= old(out)@ + ser_bool(false));
        }
    }
}

pub fn emit_opt_string(out: &mut Vec<char>, o: &Option<String>)
    ensures
        final(out)@ == old(out)@ + ser_opt_string(
            match *o {
                Some(s) => Some(s@),
                None => None,
            },
        ),
{
    match o {
        None => {
            emit_lit(out, "null");
            proof {
                reveal_strlit("null");
                assert(old(out)@ + "null"@ =~= old(out)@ + null_chars());
            }
        },
        Some(s) => {
            let cs = crate::text::str_chars(s.as_str());
            emit_string(out, &cs);
        },
    }
}

// ------------------------------------------------------------------
// Parsing: executable level
// ------------------------------------------------------------------

/// Whether the fixed text `lit` stands at position `i`; returns the position
/// after it.
pub fn parse_lit(s: &Vec<char>, i: usize, lit: &str) -> (r: Option<usize>)
    requires
        i <= s@.len(),
    ensures
        match r {
            Some(j) => spec_parse_lit(s@, i as int, lit@) == Some(j as int) && i <= j <= s@.len(),
            None => spec_parse_lit(s@, i as int, lit@) is None,
        },
{
    let n = lit.unicode_len();
    let sl = s.len();
    if n > sl - i {
        proof {
            assert(!match_at(s@, i as int, lit@));
        }
        return None;
    }
    let mut k: usize = 0;
    while k < n
        invariant
            n == lit@.len(),
            sl == s@.len(),
            i + n <= s@.len(),
            k <= n,
            forall|m: int| 0 <= m < k ==> s@[i + m] == lit@[m],
        decreases n - k,
    {
        if s[i + k] != lit.get_char(k) {
            proof {
                assert(s@.subrange(i as int, i + lit@.len())[k as int] == s@[i + k]);
            }
            return None;
        }
        k = k + 1;
    }
    proof {
        assert(s@.subrange(i as int, i + lit@.len()) =~= lit@);
    }
    Some(i + n)
}

/// Parse a JSON string starting at `i` (which must hold the opening quote);
/// returns the unescaped content and the position after the closing quote.
pub fn parse_string(s: &Vec<char>, i: usize) -> (r: Option<(String, usize)>)
    requires
        i <= s@.len(),
    ensures
        match r {
            Some((v, j)) => spec_parse_string(s@, i as int) == Some((v@, j as int)) && i < j
                <= s@.len(),
            None => spec_parse_string(s@, i as int) is None,
        },
{
    let n = s.len();
    if i >= n || s[i] != '"' {
        return None;
    }
    let mut acc: Vec<char> = Vec::new();
    let mut k: usize = i + 1;
    loop
        invariant
            n == s@.len(),
            i < n,
            s@[i as int] == '"',
            i + 1 <= k <= n,
            spec_parse_str_body(s@, i + 1) == match spec_parse_str_body(s@, k as int) {
                None => None::<(Seq<char>, int)>,
                Some((rest, j)) => Some((acc@ + rest, j)),
            },
        decreases n - k,
    {
        if k >= n {
            return None;
        }
        let c = s[k];
        if c == '"' {
            let content = crate::text::chars_to_string(&acc);
            proof {
                assert(acc@ + Seq::<char>::empty() =~= acc@);
            }
            return Some((content, k + 1));
        } else if c == '\\' {
            if k + 1 >= n {
                return None;
            }
            let e = s[k + 1];
            let u: char;
            if e == '"' {
                u = '"';
            } else if e == '\\' {
                u = '\\';
            } else if e == 'n' {
                u = '\n';
            } else if e == 'r' {
                u = '\r';
            } else if e == 't' {
                u = '\t';
            } else {
                return None;
            }
            acc.push(u);
            proof {
                assert(forall|rest: Seq<char>|
                    acc@.drop_last() + (seq![u] + rest) =~= acc@ + rest);
            }
            k = k + 2;
        } else {
            acc.push(c);
            proof {
                assert(forall|rest: Seq<char>|
                    acc@.drop_last() + (seq![c] + rest) =~= acc@ + rest);
            }
            k = k + 1;
        }
    }
}

/// Parse a decimal integer starting at `i`; fails when no digit stands there
/// or the value does not fit in a `u64`.
pub fn parse_u64(s: &Vec<char>, i: usize) -> (r: Option<(u64, usize)>)
    requires
        i <= s@.len(),
    ensures
        match r {
            Some((v, j)) => spec_parse_u64(s@, i as int) == Some((v, j as int)) && i < j
                <= s@.len(),
            None => spec_parse_u64(s@, i as int) is None,
        },
{
    let n = s.len();
    if i >= n {
        return None;
    }
    let c0 = s[i] as u32;
    if !(48 <= c0 && c0 <= 57) {
        return None;
    }
    let mut acc: u64 = 0;
    let mut k: usize = i;
    loop
        invariant
            n == s@.len(),
            i < n,
            is_digit(s@[i as int]),
            i <= k <= n,
            spec_parse_digits(s@, i as int, 0) == spec_parse_digits(s@, k as int, acc),
        decreases n - k,
    {
        if k >= n {
            return Some((acc, k));
        }
        let u = s[k] as u32;
        if !(48 <= u && u <= 57) {
            return Some((acc, k));
        }
        let d = (u - 48) as u64;
        if acc > (u64::MAX - d) / 10 {
            proof {
                assert(acc as int * 10 + d > u64::MAX) by (nonlinear_arith)
                    requires
                        acc as int > (u64::MAX - d) / 10,
                        0 <= d < 10,
                ;
            }
            return None;
        }
        proof {
            assert(acc as int * 10 + d <= u64::MAX) by (nonlinear_arith)
                requires
                    acc as int <= (u64::MAX - d) / 10,
                    0 <= d < 10,
            ;
        }
        acc = acc * 10 + d;
        k = k + 1;
    }
}

pub fn parse_bool(s: &Vec<char>, i: usize) -> (r: Option<(bool, usize)>)
    requires
        i <= s@.len(),
    ensures
        match r {
            Some((v, j)) => spec_parse_bool(s@, i as int) == Some((v, j as int)) && i < j
                <= s@.len(),
            None => spec_parse_bool(s@, i as int) is None,
        },
{
    proof {
        reveal_strlit("true");
        reveal_strlit("false");
        assert("true"@ =~= ser_bool(true));
        assert("false"@ =~= ser_bool(false));
    }
    match parse_lit(s, i, "true") {
        Some(j) => Some((true, j)),
        None => match parse_lit(s, i, "false") {
            Some(j) => Some((false, j)),
            None => None,
        },
    }
}

pub fn parse_opt_string(s: &Vec<char>, i: usize) -> (r: Option<(Option<String>, usize)>)
    requires
        i <= s@.len(),
    ensures
        match r {
            Some((v, j)) => spec_parse_opt_string(s@, i as int) == Some(
                (
                    match v {
                        Some(x) => Some(x@),
                        None => None,
                    },
                    j as int,
                ),
            ) && i < j <= s@.len(),
            None => spec_parse_opt_string(s@, i as int) is None,
        },
{
    proof {
        reveal_strlit("null");
        assert("null"@ =~= null_chars());
    }
    match parse_lit(s, i, "null") {
        Some(j) => Some((None, j)),
        None => match parse_string(s, i) {
            Some((v, j)) => Some((Some(v), j)),
            None => None,
        },
    }
}

// ------------------------------------------------------------------
// Composite grammar: fixed key texts
// ------------------------------------------------------------------

pub open spec fn l_id_open() -> Seq<char> {
    seq!['{', '"', 'i', 'd', '"', ':']
}

pub open spec fn l_filename() -> Seq<char> {
    seq![',', '"', 'f', 'i', 'l', 'e', 'n', 'a', 'm', 'e', '"', ':']
}

pub open spec fn l_modified() -> Seq<char> {
    seq![',', '"', 'm', 'o', 'd', 'i', 'f', 'i', 'e', 'd', '"', ':']
}

pub open spec fn l_path() -> Seq<char> {
    seq![',', '"', 'p', 'a', 't', 'h', '"', ':']
}

pub open spec fn l_close() -> Seq<char> {
    seq!['}']
}

pub open spec fn l_is_dirty() -> Seq<char> {
    seq![',', '"', 'i', 's', 'D', 'i', 'r', 't', 'y', '"', ':']
}

pub open spec fn l_content() -> Seq<char> {
    seq![',', '"', 'c', 'o', 'n', 't', 'e', 'n', 't', '"', ':']
}

pub open spec fn l_title_open() -> Seq<char> {
    seq!['{', '"', 't', 'i', 't', 'l', 'e', '"', ':']
}

pub open spec fn l_tag() -> Seq<char> {
    seq![',', '"', 't', 'a', 'g', '"', ':']
}

pub open spec fn l_created_at() -> Seq<char> {
    seq![',', '"', 'c', 'r', 'e', 'a', 't', 'e', 'd', 'A', 't', '"', ':']
}

pub open spec fn l_updated_at() -> Seq<char> {
    seq![',', '"', 'u', 'p', 'd', 'a', 't', 'e', 'd', 'A', 't', '"', ':']
}

pub open spec fn l_file_extension() -> Seq<char> {
    seq![',', '"', 'f', 'i', 'l', 'e', 'E', 'x', 't', 'e', 'n', 's', 'i', 'o', 'n', '"', ':']
}

pub open spec fn l_tabs_open() -> Seq<char> {
    seq!['{', '"', 't', 'a', 'b', 's', '"', ':']
}

pub open spec fn l_current_tab_id() -> Seq<char> {
    seq![',', '"', 'c', 'u', 'r', 'r', 'e', 'n', 't', 'T', 'a', 'b', 'I', 'd', '"', ':']
}

pub open spec fn l_recent_files_open() -> Seq<char> {
    seq!['{', '"', 'r', 'e', 'c', 'e', 'n', 't', 'F', 'i', 'l', 'e', 's', '"', ':']
}

pub open spec fn l_session_key() -> Seq<char> {
    seq![',', '"', 's', 'e', 's', 's', 'i', 'o', 'n', '"', ':']
}

pub open spec fn l_version_tail() -> Seq<char> {
    seq![
        ',',
        '"',
        's',
        'c',
        'h',
        'e',
        'm',
        'a',
        'V',
        'e',
        'r',
        's',
        'i',
        'o',
        'n',
        '"',
        ':',
        '"',
        'V',
        '2',
        '"',
        '}',
    ]
}

// ------------------------------------------------------------------
// Composite grammar: serialization specs
// ------------------------------------------------------------------

pub open spec fn ser_record(r: crate::model::LocalFileRecordV) -> Seq<char> {
    l_id_open() + ser_string(r.id) + l_filename() + ser_string(r.filename) + l_modified()
        + ser_u64(r.modified) + l_path() + ser_string(r.path) + l_close()
}

pub open spec fn ser_tab(t: crate::model::SessionTabV) -> Seq<char> {
    l_id_open() + ser_string(t.id) + l_path() + ser_opt_string(t.path) + l_filename()
        + ser_string(t.filename) + l_is_dirty() + ser_bool(t.is_dirty) + l_content()
        + ser_opt_string(t.content) + l_close()
}

pub open spec fn ser_note_v1(n: crate::model::NoteV1V) -> Seq<char> {
    l_title_open() + ser_string(n.title) + l_tag() + ser_string(n.tag) + l_created_at()
        + ser_u64(n.created_at) + l_updated_at() + ser_u64(n.updated_at) + l_file_extension()
        + ser_string(n.file_extension) + l_close()
}

/// One entry of the `recentFiles` object: the record keyed by its own path.
pub open spec fn ser_recent_entry(r: crate::model::LocalFileRecordV) -> Seq<char> {
    ser_string(r.path) + seq![':'] + ser_record(r)
}

pub open spec fn ser_tabs_rest(ts: Seq<crate::model::SessionTabV>) -> Seq<char>
    decreases ts.len(),
{
    if ts.len() == 0 {
        Seq::empty()
    } else {
        seq![','] + ser_tab(ts[0]) + ser_tabs_rest(ts.drop_first())
    }
}

pub open spec fn ser_tabs(ts: Seq<crate::model::SessionTabV>) -> Seq<char> {
    if ts.len() == 0 {
        seq!['[', ']']
    } else {
        seq!['['] + ser_tab(ts[0]) + ser_tabs_rest(ts.drop_first()) + seq![']']
    }
}

pub open spec fn ser_recent_rest(rs: Seq<crate::model::LocalFileRecordV>) -> Seq<char>
    decreases rs.len(),
{
    if rs.len() == 0 {
        Seq::empty()
    } else {
        seq![','] + ser_recent_entry(rs[0]) + ser_recent_rest(rs.drop_first())
    }
}

pub open spec fn ser_recent(rs: Seq<crate::model::LocalFileRecordV>) -> Seq<char> {
    if rs.len() == 0 {
        seq!['{', '}']
    } else {
        seq!['{'] + ser_recent_entry(rs[0]) + ser_recent_rest(rs.drop_first()) + seq!['}']
    }
}

pub open spec fn ser_notes_rest(ns: Seq<crate::model::NoteV1V>) -> Seq<char>
    decreases ns.len(),
{
    if ns.len() == 0 {
        Seq::empty()
    } else {
        seq![','] + ser_note_v1(ns[0]) + ser_notes_rest(ns.drop_first())
    }
}

/// The legacy manager file: a JSON array of note records.
pub open spec fn ser_legacy(ns: Seq<crate::model::NoteV1V>) -> Seq<char> {
    if ns.len() == 0 {
        seq!['[', ']']
    } else {
        seq!['['] + ser_note_v1(ns[0]) + ser_notes_rest(ns.drop_first()) + seq![']']
    }
}

pub open spec fn ser_session(s: crate::model::EditorSessionV) -> Seq<char> {
    l_tabs_open() + ser_tabs(s.tabs) + l_current_tab_id() + ser_opt_string(s.current_tab_id)
        + l_close()
}

/// The whole current-schema manager document.
pub open spec fn ser_state(st: crate::model::PersistedStateV) -> Seq<char> {
    l_recent_files_open() + ser_recent(st.recent_files) + l_session_key() + ser_session(st.session)
        + l_version_tail()
}

// ------------------------------------------------------------------
// Composite grammar: parsing specs
// ------------------------------------------------------------------

pub open spec fn spec_parse_record(s: Seq<char>, i: int) -> Option<
    (crate::model::LocalFileRecordV, int),
> {
    match spec_parse_lit(s, i, l_id_open()) {
        None => None,
        Some(i1) => match spec_parse_string(s, i1) {
            None => None,
            Some((id, i2)) => match spec_parse_lit(s, i2, l_filename()) {
                None => None,
                Some(i3) => match spec_parse_string(s, i3) {
                    None => None,
                    Some((filename, i4)) => match spec_parse_lit(s, i4, l_modified()) {
                        None => None,
                        Some(i5) => match spec_parse_u64(s, i5) {
                            None => None,
                            Some((modified, i6)) => match spec_parse_lit(s, i6, l_path()) {
                                None => None,
                                Some(i7) => match spec_parse_string(s, i7) {
                                    None => None,
                                    Some((path, i8)) => match spec_parse_lit(s, i8, l_close()) {
                                        None => None,
                                        Some(i9) => Some(
                                            (
                                                crate::model::LocalFileRecordV {
                                                    id,
                                                    filename,
                                                    modified,
                                                    path,
                                                },
                                                i9,
                                            ),
                                        ),
                                    },
                                },
                            },
                        },
                    },
                },
            },
        },
    }
}

pub open spec fn spec_parse_tab(s: Seq<char>, i: int) -> Option<(crate::model::SessionTabV, int)> {
    match spec_parse_lit(s, i, l_id_open()) {
        None => None,
        Some(i1) => match spec_parse_string(s, i1) {
            None => None,
            Some((id, i2)) => match spec_parse_lit(s, i2, l_path()) {
                None => None,
                Some(i3) => match spec_parse_opt_string(s, i3) {
                    None => None,
                    Some((path, i4)) => match spec_parse_lit(s, i4, l_filename()) {
                        None => None,
                        Some(i5) => match spec_parse_string(s, i5) {
                            None => None,
                            Some((filename, i6)) => match spec_parse_lit(s, i6, l_is_dirty()) {
                                None => None,
                                Some(i7) => match spec_parse_bool(s, i7) {
                                    None => None,
                                    Some((is_dirty, i8)) => match spec_parse_lit(
                                        s,
                                        i8,
                                        l_content(),
                                    ) {
                                        None => None,
                                        Some(i9) => match spec_parse_opt_string(s, i9) {
                                            None => None,
                                            Some((content, i10)) => match spec_parse_lit(
                                                s,
                                                i10,
                                                l_close(),
                                            ) {
                                                None => None,
                                                Some(i11) => Some(
                                                    (
                                                        crate::model::SessionTabV {
                                                            id,
                                                            path,
                                                            filename,
                                                            is_dirty,
                                                            content,
                                                        },
                                                        i11,
                                                    ),
                                                ),
                                            },
                                        },
                                    },
                                },
                            },
                        },
                    },
                },
            },
        },
    }
}

pub open spec fn spec_parse_note_v1(s: Seq<char>, i: int) -> Option<
    (crate::model::NoteV1V, int),
> {
    match spec_parse_lit(s, i, l_title_open()) {
        None => None,
        Some(i1) => match spec_parse_string(s, i1) {
            None => None,
            Some((title, i2)) => match spec_parse_lit(s, i2, l_tag()) {
                None => None,
                Some(i3) => match spec_parse_string(s, i3) {
                    None => None,
                    Some((tag, i4)) => match spec_parse_lit(s, i4, l_created_at()) {
                        None => None,
                        Some(i5) => match spec_parse_u64(s, i5) {
                            None => None,
                            Some((created_at, i6)) => match spec_parse_lit(s, i6, l_updated_at()) {
                                None => None,
                                Some(i7) => match spec_parse_u64(s, i7) {
                                    None => None,
                                    Some((updated_at, i8)) => match spec_parse_lit(
                                        s,
                                        i8,
                                        l_file_extension(),
                                    ) {
                                        None => None,
                                        Some(i9) => match spec_parse_string(s, i9) {
                                            None => None,
                                            Some((file_extension, i10)) => match spec_parse_lit(
                                                s,
                                                i10,
                                                l_close(),
                                            ) {
                                                None => None,
                                                Some(i11) => Some(
                                                    (
                                                        crate::model::NoteV1V {
                                                            title,
                                                            tag,
                                                            created_at,
                                                            updated_at,
                                                            file_extension,
                                                        },
                                                        i11,
                                                    ),
                                                ),
                                            },
                                        },
                                    },
                                },
                            },
                        },
                    },
                },
            },
        },
    }
}

/// One or more comma-separated tabs followed by the closing bracket.
pub open spec fn spec_parse_tabs_elems(s: Seq<char>, i: int) -> Option<
    (Seq<crate::model::SessionTabV>, int),
>
    decreases s.len() - i,
    when 0 <= i <= s.len()
{
    match spec_parse_tab(s, i) {
        None => None,
        Some((t, j)) => if !(i < j <= s.len()) {
            None
        } else if j < s.len() && s[j] == ',' {
            match spec_parse_tabs_elems(s, j + 1) {
                None => None,
                Some((ts, k)) => Some((seq![t] + ts, k)),
            }
        } else if j < s.len() && s[j] == ']' {
            Some((seq![t], j + 1))
        } else {
            None
        },
    }
}

pub open spec fn spec_parse_tabs(s: Seq<char>, i: int) -> Option<
    (Seq<crate::model::SessionTabV>, int),
> {
    if 0 <= i < s.len() && s[i] == '[' {
        if i + 1 < s.len() && s[i + 1] == ']' {
            Some((Seq::empty(), i + 2))
        } else {
            spec_parse_tabs_elems(s, i + 1)
        }
    } else {
        None
    }
}

/// One or more comma-separated recent-file entries followed by the closing
/// brace; each entry's key must equal the record's own `path`.
pub open spec fn spec_parse_recent_elems(s: Seq<char>, i: int) -> Option<
    (Seq<crate::model::LocalFileRecordV>, int),
>
    decreases s.len() - i,
    when 0 <= i <= s.len()
{
    match spec_parse_string(s, i) {
        None => None,
        Some((key, j0)) => if j0 < s.len() && s[j0] == ':' {
            match spec_parse_record(s, j0 + 1) {
                None => None,
                Some((r, j)) => if key != r.path {
                    None
                } else if !(i < j <= s.len()) {
                    None
                } else if j < s.len() && s[j] == ',' {
                    match spec_parse_recent_elems(s, j + 1) {
                        None => None,
                        Some((rs, k)) => Some((seq![r] + rs, k)),
                    }
                } else if j < s.len() && s[j] == '}' {
                    Some((seq![r], j + 1))
                } else {
                    None
                },
            }
        } else {
            None
        },
    }
}

pub open spec fn spec_parse_recent(s: Seq<char>, i: int) -> Option<
    (Seq<crate::model::LocalFileRecordV>, int),
> {
    if 0 <= i < s.len() && s[i] == '{' {
        if i + 1 < s.len() && s[i + 1] == '}' {
            Some((Seq::empty(), i + 2))
        } else {
            spec_parse_recent_elems(s, i + 1)
        }
    } else {
        None
    }
}

pub open spec fn spec_parse_notes_elems(s: Seq<char>, i: int) -> Option<
    (Seq<crate::model::NoteV1V>, int),
>
    decreases s.len() - i,
    when 0 <= i <= s.len()
{
    match spec_parse_note_v1(s, i) {
        None => None,
        Some((n, j)) => if !(i < j <= s.len()) {
            None
        } else if j < s.len() && s[j] == ',' {
            match spec_parse_notes_elems(s, j + 1) {
                None => None,
                Some((ns, k)) => Some((seq![n] + ns, k)),
            }
        } else if j < s.len() && s[j] == ']' {
            Some((seq![n], j + 1))
        } else {
            None
        },
    }
}

pub open spec fn spec_parse_legacy(s: Seq<char>, i: int) -> Option<
    (Seq<crate::model::NoteV1V>, int),
> {
    if 0 <= i < s.len() && s[i] == '[' {
        if i + 1 < s.len() && s[i + 1] == ']' {
            Some((Seq::empty(), i + 2))
        } else {
            spec_parse_notes_elems(s, i + 1)
        }
    } else {
        None
    }
}

pub open spec fn spec_parse_session(s: Seq<char>, i: int) -> Option<
    (crate::model::EditorSessionV, int),
> {
    match spec_parse_lit(s, i, l_tabs_open()) {
        None => None,
        Some(i1) => match spec_parse_tabs(s, i1) {
            None => None,
            Some((tabs, i2)) => match spec_parse_lit(s, i2, l_current_tab_id()) {
                None => None,
                Some(i3) => match spec_parse_opt_string(s, i3) {
                    None => None,
                    Some((current_tab_id, i4)) => match spec_parse_lit(s, i4, l_close()) {
                        None => None,
                        Some(i5) => Some(
                            (crate::model::EditorSessionV { tabs, current_tab_id }, i5),
                        ),
                    },
                },
            },
        },
    }
}

pub open spec fn spec_parse_state(s: Seq<char>, i: int) -> Option<
    (crate::model::PersistedStateV, int),
> {
    match spec_parse_lit(s, i, l_recent_files_open()) {
        None => None,
        Some(i1) => match spec_parse_recent(s, i1) {
            None => None,
            Some((recent_files, i2)) => match spec_parse_lit(s, i2, l_session_key()) {
                None => None,
                Some(i3) => match spec_parse_session(s, i3) {
                    None => None,
                    Some((session, i4)) => match spec_parse_lit(s, i4, l_version_tail()) {
                        None => None,
                        Some(i5) => Some(
                            (
                                crate::model::PersistedStateV {
                                    recent_files,
                                    session,
                                    schema_version: crate::model::SchemaVersion::V2,
                                },
                                i5,
                            ),
                        ),
                    },
                },
            },
        },
    }
}

/// What a whole manager file means under the current schema: it must parse
/// from the first character to the last.
pub open spec fn state_of_chars(content: Seq<char>) -> Option<crate::model::PersistedStateV> {
    match spec_parse_state(content, 0) {
        None => None,
        Some((v, j)) => if j == content.len() {
            Some(v)
        } else {
            None
        },
    }
}

/// What a whole manager file means under the legacy schema.
pub open spec fn legacy_of_chars(content: Seq<char>) -> Option<Seq<crate::model::NoteV1V>> {
    match spec_parse_legacy(content, 0) {
        None => None,
        Some((v, j)) => if j == content.len() {
            Some(v)
        } else {
            None
        },
    }
}

// ------------------------------------------------------------------
// Composite grammar: executable serialization
// ------------------------------------------------------------------

/// Append one JSON string taken from a `&str`.
pub fn emit_string_str(out: &mut Vec<char>, s: &str)
    ensures
        final(out)@ == old(out)@ + ser_string(s@),
{
    let cs = crate::text::str_chars(s);
    emit_string(out, &cs);
}

pub fn emit_record(out: &mut Vec<char>, r: &crate::model::LocalFileRecord)
    ensures
        final(out)@ == old(out)@ + ser_record(r@),
{
    proof {
        reveal_strlit("{\"id\":");
        reveal_strlit(",\"filename\":");
        reveal_strlit(",\"modified\":");
        reveal_strlit(",\"path\":");
        reveal_strlit("}");
        assert("{\"id\":"@ =~= l_id_open());
        assert(",\"filename\":"@ =~= l_filename());
        assert(",\"modified\":"@ =~= l_modified());
        assert(",\"path\":"@ =~= l_path());
        assert("}"@ =~= l_close());
    }
    emit_lit(out, "{\"id\":");
    emit_string_str(out, r.id.as_str());
    emit_lit(out, ",\"filename\":");
    emit_string_str(out, r.filename.as_str());
    emit_lit(out, ",\"modified\":");
    emit_u64(out, r.modified);
    emit_lit(out, ",\"path\":");
    emit_string_str(out, r.path.as_str());
    emit_lit(out, "}");
    proof {
        assert(out@ =~= old(out)@ + ser_record(r@));
    }
}

pub fn emit_tab(out: &mut Vec<char>, t: &crate::model::SessionTab)
    ensures
        final(out)@ == old(out)@ + ser_tab(t@),
{
    proof {
        reveal_strlit("{\"id\":");
        reveal_strlit(",\"path\":");
        reveal_strlit(",\"filename\":");
        reveal_strlit(",\"isDirty\":");
        reveal_strlit(",\"content\":");
        reveal_strlit("}");
        assert("{\"id\":"@ =~= l_id_open());
        assert(",\"path\":"@ =~= l_path());
        assert(",\"filename\":"@ =~= l_filename());
        assert(",\"isDirty\":"@ =~= l_is_dirty());
        assert(",\"content\":"@ =~= l_content());
        assert("}"@ =~= l_close());
    }
    emit_lit(out, "{\"id\":");
    emit_string_str(out, t.id.as_str());
    emit_lit(out, ",\"path\":");
    emit_opt_string(out, &t.path);
    emit_lit(out, ",\"filename\":");
    emit_string_str(out, t.filename.as_str());
    emit_lit(out, ",\"isDirty\":");
    emit_bool(out, t.is_dirty);
    emit_lit(out, ",\"content\":");
    emit_opt_string(out, &t.content);
    emit_lit(out, "}");
    proof {
        assert(out@ =~= old(out)@ + ser_tab(t@));
    }
}

proof fn lemma_ser_tabs_rest_push(ts: Seq<crate::model::SessionTabV>, t: crate::model::SessionTabV)
    ensures
        ser_tabs_rest(ts.push(t)) == ser_tabs_rest(ts) + (seq![','] + ser_tab(t)),
    decreases ts.len(),
{
    if ts.len() == 0 {
        assert(ts.push(t)[0] == t);
        assert(ts.push(t).drop_first() =~= Seq::<crate::model::SessionTabV>::empty());
        assert(ser_tabs_rest(Seq::<crate::model::SessionTabV>::empty()) == Seq::<char>::empty());
        assert(ser_tabs_rest(ts.push(t)) == seq![','] + ser_tab(t) + Seq::<char>::empty());
        assert(ser_tabs_rest(ts.push(t)) =~= ser_tabs_rest(ts) + (seq![','] + ser_tab(t)));
    } else {
        assert(ts.push(t).drop_first() =~= ts.drop_first().push(t));
        lemma_ser_tabs_rest_push(ts.drop_first(), t);
        assert(ser_tabs_rest(ts.push(t)) =~= ser_tabs_rest(ts) + (seq![','] + ser_tab(t)));
    }
}

pub fn emit_tabs(out: &mut Vec<char>, tabs: &Vec<crate::model::SessionTab>)
    ensures
        final(out)@ == old(out)@ + ser_tabs(crate::model::tabs_view(tabs@)),
{
    let ghost orig = out@;
    let ghost tv = crate::model::tabs_view(tabs@);
    if tabs.len() == 0 {
        proof {
            reveal_strlit("[]");
            assert("[]"@ =~= ser_tabs(tv));
        }
        emit_lit(out, "[]");
        return ;
    }
    emit_lit(out, "[");
    emit_tab(out, &tabs[0]);
    proof {
        reveal_strlit("[");
        assert(tv.take(1).drop_first() =~= Seq::<crate::model::SessionTabV>::empty());
        assert(out@ =~= orig + seq!['['] + ser_tab(tv[0]) + ser_tabs_rest(tv.take(1).drop_first()));
    }
    let mut i: usize = 1;
    while i < tabs.len()
        invariant
            tv == crate::model::tabs_view(tabs@),
            1 <= i <= tv.len(),
            tv.len() == tabs@.len(),
            out@ == orig + seq!['['] + ser_tab(tv[0]) + ser_tabs_rest(tv.take(i as int).drop_first()),
        decreases tv.len() - i,
    {
        proof {
            reveal_strlit(",");
        }
        emit_lit(out, ",");
        emit_tab(out, &tabs[i]);
        proof {
            lemma_ser_tabs_rest_push(tv.take(i as int).drop_first(), tv[i as int]);
            assert(tv.take(i + 1).drop_first() =~= tv.take(i as int).drop_first().push(
                tv[i as int],
            ));
            assert(","@ =~= seq![',']);
            assert(out@ =~= orig + seq!['['] + ser_tab(tv[0]) + ser_tabs_rest(
                tv.take(i + 1).drop_first(),
            ));
        }
        i = i + 1;
    }
    proof {
        reveal_strlit("]");
    }
    emit_lit(out, "]");
    proof {
        assert(tv.take(tv.len() as int).drop_first() =~= tv.drop_first());
        assert("]"@ =~= seq![']']);
        assert(out@ =~= orig + ser_tabs(tv));
    }
}

pub fn emit_recent_entry(out: &mut Vec<char>, r: &crate::model::LocalFileRecord)
    ensures
        final(out)@ == old(out)@ + ser_recent_entry(r@),
{
    emit_string_str(out, r.path.as_str());
    proof {
        reveal_strlit(":");
        assert(":"@ =~= seq![':']);
    }
    emit_lit(out, ":");
    emit_record(out, r);
    proof {
        assert(out@ =~= old(out)@ + ser_recent_entry(r@));
    }
}

proof fn lemma_ser_recent_rest_push(
    rs: Seq<crate::model::LocalFileRecordV>,
    r: crate::model::LocalFileRecordV,
)
    ensures
        ser_recent_rest(rs.push(r)) == ser_recent_rest(rs) + (seq![','] + ser_recent_entry(r)),
    decreases rs.len(),
{
    if rs.len() == 0 {
        assert(rs.push(r)[0] == r);
        assert(rs.push(r).drop_first() =~= Seq::<crate::model::LocalFileRecordV>::empty());
        assert(ser_recent_rest(Seq::<crate::model::LocalFileRecordV>::empty())
            == Seq::<char>::empty());
        assert(ser_recent_rest(rs.push(r)) == seq![','] + ser_recent_entry(r)
            + Seq::<char>::empty());
        assert(ser_recent_rest(rs.push(r)) =~= ser_recent_rest(rs) + (seq![','] + ser_recent_entry(
            r,
        )));
    } else {
        assert(rs.push(r).drop_first() =~= rs.drop_first().push(r));
        lemma_ser_recent_rest_push(rs.drop_first(), r);
        assert(ser_recent_rest(rs.push(r)) =~= ser_recent_rest(rs) + (seq![','] + ser_recent_entry(
            r,
        )));
    }
}

pub fn emit_recent(out: &mut Vec<char>, rs: &Vec<crate::model::LocalFileRecord>)
    ensures
        final(out)@ == old(out)@ + ser_recent(crate::model::records_view(rs@)),
{
    let ghost orig = out@;
    let ghost rv = crate::model::records_view(rs@);
    if rs.len() == 0 {
        proof {
            reveal_strlit("{}");
            assert("{}"@ =~= ser_recent(rv));
        }
        emit_lit(out, "{}");
        return ;
    }
    proof {
        reveal_strlit("{");
        assert("{"@ =~= seq!['{']);
    }
    emit_lit(out, "{");
    emit_recent_entry(out, &rs[0]);
    proof {
        assert(rv.take(1).drop_first() =~= Seq::<crate::model::LocalFileRecordV>::empty());
        assert(out@ =~= orig + seq!['{'] + ser_recent_entry(rv[0]) + ser_recent_rest(
            rv.take(1).drop_first(),
        ));
    }
    let mut i: usize = 1;
    while i < rs.len()
        invariant
            rv == crate::model::records_view(rs@),
            1 <= i <= rv.len(),
            rv.len() == rs@.len(),
            out@ == orig + seq!['{'] + ser_recent_entry(rv[0]) + ser_recent_rest(
                rv.take(i as int).drop_first(),
            ),
        decreases rv.len() - i,
    {
        proof {
            reveal_strlit(",");
            assert(","@ =~= seq![',']);
        }
        emit_lit(out, ",");
        emit_recent_entry(out, &rs[i]);
        proof {
            lemma_ser_recent_rest_push(rv.take(i as int).drop_first(), rv[i as int]);
            assert(rv.take(i + 1).drop_first() =~= rv.take(i as int).drop_first().push(
                rv[i as int],
            ));
            assert(out@ =~= orig + seq!['{'] + ser_recent_entry(rv[0]) + ser_recent_rest(
                rv.take(i + 1).drop_first(),
            ));
        }
        i = i + 1;
    }
    proof {
        reveal_strlit("}");
        assert("}"@ =~= seq!['}']);
    }
    emit_lit(out, "}");
    proof {
        assert(rv.take(rv.len() as int).drop_first() =~= rv.drop_first());
        assert(out@ =~= orig + ser_recent(rv));
    }
}

pub fn emit_session(out: &mut Vec<char>, s: &crate::model::EditorSession)
    ensures
        final(out)@ == old(out)@ + ser_session(s@),
{
    proof {
        reveal_strlit("{\"tabs\":");
        reveal_strlit(",\"currentTabId\":");
        reveal_strlit("}");
        assert("{\"tabs\":"@ =~= l_tabs_open());
        assert(",\"currentTabId\":"@ =~= l_current_tab_id());
        assert("}"@ =~= l_close());
    }
    emit_lit(out, "{\"tabs\":");
    emit_tabs(out, &s.tabs);
    emit_lit(out, ",\"currentTabId\":");
    emit_opt_string(out, &s.current_tab_id);
    emit_lit(out, "}");
    proof {
        assert(out@ =~= old(out)@ + ser_session(s@));
    }
}

/// Serialize a whole current-schema state to the exact text `ser_state`
/// describes.
pub fn serialize_state(st: &crate::model::PersistedState) -> (r: String)
    ensures
        r@ == ser_state(st@),
{
    proof {
        reveal_strlit("{\"recentFiles\":");
        reveal_strlit(",\"session\":");
        reveal_strlit(",\"schemaVersion\":\"V2\"}");
        assert("{\"recentFiles\":"@ =~= l_recent_files_open());
        assert(",\"session\":"@ =~= l_session_key());
        assert(",\"schemaVersion\":\"V2\"}"@ =~= l_version_tail());
    }
    let mut out: Vec<char> = Vec::new();
    emit_lit(&mut out, "{\"recentFiles\":");
    emit_recent(&mut out, &st.recent_files);
    emit_lit(&mut out, ",\"session\":");
    emit_session(&mut out, &st.session);
    emit_lit(&mut out, ",\"schemaVersion\":\"V2\"}");
    proof {
        assert(out@ =~= ser_state(st@));
    }
    crate::text::chars_to_string(&out)
}

// ------------------------------------------------------------------
// Composite grammar: executable parsing
// ------------------------------------------------------------------

pub fn parse_record(s: &Vec<char>, i: usize) -> (r: Option<(crate::model::LocalFileRecord, usize)>)
    requires
        i <= s@.len(),
    ensures
        match r {
            Some((v, j)) => spec_parse_record(s@, i as int) == Some((v@, j as int)) && i < j
                <= s@.len(),
            None => spec_parse_record(s@, i as int) is None,
        },
{
    proof {
        reveal_strlit("{\"id\":");
        reveal_strlit(",\"filename\":");
        reveal_strlit(",\"modified\":");
        reveal_strlit(",\"path\":");
        reveal_strlit("}");
        assert("{\"id\":"@ =~= l_id_open());
        assert(",\"filename\":"@ =~= l_filename());
        assert(",\"modified\":"@ =~= l_modified());
        assert(",\"path\":"@ =~= l_path());
        assert("}"@ =~= l_close());
    }
    let i1 = match parse_lit(s, i, "{\"id\":") {
        Some(j) => j,
        None => {
            return None;
        },
    };
    let (id, i2) = match parse_string(s, i1) {
        Some(x) => x,
        None => {
            return None;
        },
    };
    let i3 = match parse_lit(s, i2, ",\"filename\":") {
        Some(j) => j,
        None => {
            return None;
        },
    };
    let (filename, i4) = match parse_string(s, i3) {
        Some(x) => x,
        None => {
            return None;
        },
    };
    let i5 = match parse_lit(s, i4, ",\"modified\":") {
        Some(j) => j,
        None => {
            return None;
        },
    };
    let (modified, i6) = match parse_u64(s, i5) {
        Some(x) => x,
        None => {
            return None;
        },
    };
    let i7 = match parse_lit(s, i6, ",\"path\":") {
        Some(j) => j,
        None => {
            return None;
        },
    };
    let (path, i8) = match parse_string(s, i7) {
        Some(x) => x,
        None => {
            return None;
        },
    };
    let i9 = match parse_lit(s, i8, "}") {
        Some(j) => j,
        None => {
            return None;
        },
    };
    Some((crate::model::LocalFileRecord { id, filename, modified, path }, i9))
}

pub fn parse_tab(s: &Vec<char>, i: usize) -> (r: Option<(crate::model::SessionTab, usize)>)
    requires
        i <= s@.len(),
    ensures
        match r {
            Some((v, j)) => spec_parse_tab(s@, i as int) == Some((v@, j as int)) && i < j
                <= s@.len(),
            None => spec_parse_tab(s@, i as int) is None,
        },
{
    proof {
        reveal_strlit("{\"id\":");
        reveal_strlit(",\"path\":");
        reveal_strlit(",\"filename\":");
        reveal_strlit(",\"isDirty\":");
        reveal_strlit(",\"content\":");
        reveal_strlit("}");
        assert("{\"id\":"@ =~= l_id_open());
        assert(",\"path\":"@ =~= l_path());
        assert(",\"filename\":"@ =~= l_filename());
        assert(",\"isDirty\":"@ =~= l_is_dirty());
        assert(",\"content\":"@ =~= l_content());
        assert("}"@ =~= l_close());
    }
    let i1 = match parse_lit(s, i, "{\"id\":") {
        Some(j) => j,
        None => {
            return None;
        },
    };
    let (id, i2) = match parse_string(s, i1) {
        Some(x) => x,
        None => {
            return None;
        },
    };
    let i3 = match parse_lit(s, i2, ",\"path\":") {
        Some(j) => j,
        None => {
            return None;
        },
    };
    let (path, i4) = match parse_opt_string(s, i3) {
        Some(x) => x,
        None => {
            return None;
        },
    };
    let i5 = match parse_lit(s, i4, ",\"filename\":") {
        Some(j) => j,
        None => {
            return None;
        },
    };
    let (filename, i6) = match parse_string(s, i5) {
        Some(x) => x,
        None => {
            return None;
        },
    };
    let i7 = match parse_lit(s, i6, ",\"isDirty\":") {
        Some(j) => j,
        None => {
            return None;
        },
    };
    let (is_dirty, i8) = match parse_bool(s, i7) {
        Some(x) => x,
        None => {
            return None;
        },
    };
    let i9 = match parse_lit(s, i8, ",\"content\":") {
        Some(j) => j,
        None => {
            return None;
        },
    };
    let (content, i10) = match parse_opt_string(s, i9) {
        Some(x) => x,
        None => {
            return None;
        },
    };
    let i11 = match parse_lit(s, i10, "}") {
        Some(j) => j,
        None => {
            return None;
        },
    };
    Some((crate::model::SessionTab { id, path, filename, is_dirty, content }, i11))
}

pub fn parse_note_v1(s: &Vec<char>, i: usize) -> (r: Option<(crate::model::NoteV1, usize)>)
    requires
        i <= s@.len(),
    ensures
        match r {
            Some((v, j)) => spec_parse_note_v1(s@, i as int) == Some((v@, j as int)) && i < j
                <= s@.len(),
            None => spec_parse_note_v1(s@, i as int) is None,
        },
{
    proof {
        reveal_strlit("{\"title\":");
        reveal_strlit(",\"tag\":");
        reveal_strlit(",\"createdAt\":");
        reveal_strlit(",\"updatedAt\":");
        reveal_strlit(",\"fileExtension\":");
        reveal_strlit("}");
        assert("{\"title\":"@ =~= l_title_open());
        assert(",\"tag\":"@ =~= l_tag());
        assert(",\"createdAt\":"@ =~= l_created_at());
        assert(",\"updatedAt\":"@ =~= l_updated_at());
        assert(",\"fileExtension\":"@ =~= l_file_extension());
        assert("}"@ =~= l_close());
    }
    let i1 = match parse_lit(s, i, "{\"title\":") {
        Some(j) => j,
        None => {
            return None;
        },
    };
    let (title, i2) = match parse_string(s, i1) {
        Some(x) => x,
        None => {
            return None;
        },
    };
    let i3 = match parse_lit(s, i2, ",\"tag\":") {
        Some(j) => j,
        None => {
            return None;
        },
    };
    let (tag, i4) = match parse_string(s, i3) {
        Some(x) => x,
        None => {
            return None;
        },
    };
    let i5 = match parse_lit(s, i4, ",\"createdAt\":") {
        Some(j) => j,
        None => {
            return None;
        },
    };
    let (created_at, i6) = match parse_u64(s, i5) {
        Some(x) => x,
        None => {
            return None;
        },
    };
    let i7 = match parse_lit(s, i6, ",\"updatedAt\":") {
        Some(j) => j,
        None => {
            return None;
        },
    };
    let (updated_at, i8) = match parse_u64(s, i7) {
        Some(x) => x,
        None => {
            return None;
        },
    };
    let i9 = match parse_lit(s, i8, ",\"fileExtension\":") {
        Some(j) => j,
        None => {
            return None;
        },
    };
    let (file_extension, i10) = match parse_string(s, i9) {
        Some(x) => x,
        None => {
            return None;
        },
    };
    let i11 = match parse_lit(s, i10, "}") {
        Some(j) => j,
        None => {
            return None;
        },
    };
    Some((crate::model::NoteV1 { title, tag, created_at, updated_at, file_extension }, i11))
}

#[verifier::rlimit(60)]
#[verifier::spinoff_prover]
pub fn parse_tabs(s: &Vec<char>, i: usize) -> (r: Option<(Vec<crate::model::SessionTab>, usize)>)
    requires
        i <= s@.len(),
    ensures
        match r {
            Some((v, j)) => spec_parse_tabs(s@, i as int) == Some(
                (crate::model::tabs_view(v@), j as int),
            ) && i < j <= s@.len(),
            None => spec_parse_tabs(s@, i as int) is None,
        },
{
    let n = s.len();
    if i >= n || s[i] != '[' {
        return None;
    }
    if i + 1 < n && s[i + 1] == ']' {
        let out: Vec<crate::model::SessionTab> = Vec::new();
        proof {
            assert(crate::model::tabs_view(out@) =~= Seq::<crate::model::SessionTabV>::empty());
        }
        return Some((out, i + 2));
    }
    let mut acc: Vec<crate::model::SessionTab> = Vec::new();
    let mut k: usize = i + 1;
    loop
        invariant
            n == s@.len(),
            i < n,
            s@[i as int] == '[',
            !(i + 1 < n && s@[i + 1] == ']'),
            i + 1 <= k <= n,
            spec_parse_tabs_elems(s@, i + 1) == match spec_parse_tabs_elems(s@, k as int) {
                None => None::<(Seq<crate::model::SessionTabV>, int)>,
                Some((ts, j)) => Some((crate::model::tabs_view(acc@) + ts, j)),
            },
        decreases n - k,
    {
        let (t, j) = match parse_tab(s, k) {
            Some(x) => x,
            None => {
                return None;
            },
        };
        acc.push(t);
        proof {
            assert(crate::model::tabs_view(acc@) =~= crate::model::tabs_view(
                acc@.drop_last(),
            ).push(t@));
            assert(forall|ts: Seq<crate::model::SessionTabV>|
                crate::model::tabs_view(acc@.drop_last()) + (seq![t@] + ts)
                    =~= crate::model::tabs_view(acc@) + ts);
        }
        if j < n && s[j] == ',' {
            k = j + 1;
        } else if j < n && s[j] == ']' {
            proof {
                assert(crate::model::tabs_view(acc@) + Seq::<
                    crate::model::SessionTabV,
                >::empty() =~= crate::model::tabs_view(acc@));
                assert(crate::model::tabs_view(acc@.drop_last()) + seq![t@]
                    =~= crate::model::tabs_view(acc@));
            }
            return Some((acc, j + 1));
        } else {
            return None;
        }
    }
}

#[verifier::rlimit(60)]
#[verifier::spinoff_prover]
pub fn parse_recent(s: &Vec<char>, i: usize) -> (r: Option<
    (Vec<crate::model::LocalFileRecord>, usize),
>)
    requires
        i <= s@.len(),
    ensures
        match r {
            Some((v, j)) => spec_parse_recent(s@, i as int) == Some(
                (crate::model::records_view(v@), j as int),
            ) && i < j <= s@.len(),
            None => spec_parse_recent(s@, i as int) is None,
        },
{
    let n = s.len();
    if i >= n || s[i] != '{' {
        return None;
    }
    if i + 1 < n && s[i + 1] == '}' {
        let out: Vec<crate::model::LocalFileRecord> = Vec::new();
        proof {
            assert(crate::model::records_view(out@) =~= Seq::<
                crate::model::LocalFileRecordV,
            >::empty());
        }
        return Some((out, i + 2));
    }
    let mut acc: Vec<crate::model::LocalFileRecord> = Vec::new();
    let mut k: usize = i + 1;
    loop
        invariant
            n == s@.len(),
            i < n,
            s@[i as int] == '{',
            !(i + 1 < n && s@[i + 1] == '}'),
            i + 1 <= k <= n,
            spec_parse_recent_elems(s@, i + 1) == match spec_parse_recent_elems(s@, k as int) {
                None => None::<(Seq<crate::model::LocalFileRecordV>, int)>,
                Some((rs, j)) => Some((crate::model::records_view(acc@) + rs, j)),
            },
        decreases n - k,
    {
        let (key, k0) = match parse_string(s, k) {
            Some(x) => x,
            None => {
                return None;
            },
        };
        if !(k0 < n) {
            return None;
        }
        if s[k0] != ':' {
            return None;
        }
        let (rec, j) = match parse_record(s, k0 + 1) {
            Some(x) => x,
            None => {
                return None;
            },
        };
        if !(key == rec.path) {
            return None;
        }
        acc.push(rec);
        proof {
            assert(crate::model::records_view(acc@) =~= crate::model::records_view(
                acc@.drop_last(),
            ).push(rec@));
            assert(forall|rs: Seq<crate::model::LocalFileRecordV>|
                crate::model::records_view(acc@.drop_last()) + (seq![rec@] + rs)
                    =~= crate::model::records_view(acc@) + rs);
        }
        if j < n && s[j] == ',' {
            k = j + 1;
        } else if j < n && s[j] == '}' {
            proof {
                assert(crate::model::records_view(acc@) + Seq::<
                    crate::model::LocalFileRecordV,
                >::empty() =~= crate::model::records_view(acc@));
                assert(crate::model::records_view(acc@.drop_last()) + seq![rec@]
                    =~= crate::model::records_view(acc@));
            }
            return Some((acc, j + 1));
        } else {
            return None;
        }
    }
}

#[verifier::rlimit(60)]
#[verifier::spinoff_prover]
pub fn parse_legacy(s: &Vec<char>, i: usize) -> (r: Option<(Vec<crate::model::NoteV1>, usize)>)
    requires
        i <= s@.len(),
    ensures
        match r {
            Some((v, j)) => spec_parse_legacy(s@, i as int) == Some(
                (crate::model::notes_view(v@), j as int),
            ) && i < j <= s@.len(),
            None => spec_parse_legacy(s@, i as int) is None,
        },
{
    let n = s.len();
    if i >= n || s[i] != '[' {
        return None;
    }
    if i + 1 < n && s[i + 1] == ']' {
        let out: Vec<crate::model::NoteV1> = Vec::new();
        proof {
            assert(crate::model::notes_view(out@) =~= Seq::<crate::model::NoteV1V>::empty());
        }
        return Some((out, i + 2));
    }
    let mut acc: Vec<crate::model::NoteV1> = Vec::new();
    let mut k: usize = i + 1;
    loop
        invariant
            n == s@.len(),
            i < n,
            s@[i as int] == '[',
            !(i + 1 < n && s@[i + 1] == ']'),
            i + 1 <= k <= n,
            spec_parse_notes_elems(s@, i + 1) == match spec_parse_notes_elems(s@, k as int) {
                None => None::<(Seq<crate::model::NoteV1V>, int)>,
                Some((ns, j)) => Some((crate::model::notes_view(acc@) + ns, j)),
            },
        decreases n - k,
    {
        let (nv, j) = match parse_note_v1(s, k) {
            Some(x) => x,
            None => {
                return None;
            },
        };
        acc.push(nv);
        proof {
            assert(crate::model::notes_view(acc@) =~= crate::model::notes_view(
                acc@.drop_last(),
            ).push(nv@));
            assert(forall|ns: Seq<crate::model::NoteV1V>|
                crate::model::notes_view(acc@.drop_last()) + (seq![nv@] + ns)
                    =~= crate::model::notes_view(acc@) + ns);
        }
        if j < n && s[j] == ',' {
            k = j + 1;
        } else if j < n && s[j] == ']' {
            proof {
                assert(crate::model::notes_view(acc@) + Seq::<crate::model::NoteV1V>::empty()
                    =~= crate::model::notes_view(acc@));
                assert(crate::model::notes_view(acc@.drop_last()) + seq![nv@]
                    =~= crate::model::notes_view(acc@));
            }
            return Some((acc, j + 1));
        } else {
            return None;
        }
    }
}

pub fn parse_session(s: &Vec<char>, i: usize) -> (r: Option<(crate::model::EditorSession, usize)>)
    requires
        i <= s@.len(),
    ensures
        match r {
            Some((v, j)) => spec_parse_session(s@, i as int) == Some((v@, j as int)) && i < j
                <= s@.len(),
            None => spec_parse_session(s@, i as int) is None,
        },
{
    proof {
        reveal_strlit("{\"tabs\":");
        reveal_strlit(",\"currentTabId\":");
        reveal_strlit("}");
        assert("{\"tabs\":"@ =~= l_tabs_open());
        assert(",\"currentTabId\":"@ =~= l_current_tab_id());
        assert("}"@ =~= l_close());
    }
    let i1 = match parse_lit(s, i, "{\"tabs\":") {
        Some(j) => j,
        None => {
            return None;
        },
    };
    let (tabs, i2) = match parse_tabs(s, i1) {
        Some(x) => x,
        None => {
            return None;
        },
    };
    let i3 = match parse_lit(s, i2, ",\"currentTabId\":") {
        Some(j) => j,
        None => {
            return None;
        },
    };
    let (current_tab_id, i4) = match parse_opt_string(s, i3) {
        Some(x) => x,
        None => {
            return None;
        },
    };
    let i5 = match parse_lit(s, i4, "}") {
        Some(j) => j,
        None => {
            return None;
        },
    };
    Some((crate::model::EditorSession { tabs, current_tab_id }, i5))
}

pub fn parse_state(s: &Vec<char>, i: usize) -> (r: Option<(crate::model::PersistedState, usize)>)
    requires
        i <= s@.len(),
    ensures
        match r {
            Some((v, j)) => spec_parse_state(s@, i as int) == Some((v@, j as int)) && i < j
                <= s@.len(),
            None => spec_parse_state(s@, i as int) is None,
        },
{
    proof {
        reveal_strlit("{\"recentFiles\":");
        reveal_strlit(",\"session\":");
        reveal_strlit(",\"schemaVersion\":\"V2\"}");
        assert("{\"recentFiles\":"@ =~= l_recent_files_open());
        assert(",\"session\":"@ =~= l_session_key());
        assert(",\"schemaVersion\":\"V2\"}"@ =~= l_version_tail());
    }
    let i1 = match parse_lit(s, i, "{\"recentFiles\":") {
        Some(j) => j,
        None => {
            return None;
        },
    };
    let (recent_files, i2) = match parse_recent(s, i1) {
        Some(x) => x,
        None => {
            return None;
        },
    };
    let i3 = match parse_lit(s, i2, ",\"session\":") {
        Some(j) => j,
        None => {
            return None;
        },
    };
    let (session, i4) = match parse_session(s, i3) {
        Some(x) => x,
        None => {
            return None;
        },
    };
    let i5 = match parse_lit(s, i4, ",\"schemaVersion\":\"V2\"}") {
        Some(j) => j,
        None => {
            return None;
        },
    };
    Some(
        (
            crate::model::PersistedState {
                recent_files,
                session,
                schema_version: crate::model::SchemaVersion::V2,
            },
            i5,
        ),
    )
}

/// Read a whole manager file as the current schema; the text must parse from
/// its first character to its last.
pub fn parse_state_str(content: &str) -> (r: Option<crate::model::PersistedState>)
    ensures
        match r {
            Some(st) => state_of_chars(content@) == Some(st@),
            None => state_of_chars(content@) is None,
        },
{
    let cs = crate::text::str_chars(content);
    match parse_state(&cs, 0) {
        Some((st, j)) => {
            if j == cs.len() {
                Some(st)
            } else {
                None
            }
        },
        None => None,
    }
}

/// Read a whole manager file as the legacy schema.
pub fn parse_legacy_str(content: &str) -> (r: Option<Vec<crate::model::NoteV1>>)
    ensures
        match r {
            Some(ns) => legacy_of_chars(content@) == Some(crate::model::notes_view(ns@)),
            None => legacy_of_chars(content@) is None,
        },
{
    let cs = crate::text::str_chars(content);
    match parse_legacy(&cs, 0) {
        Some((ns, j)) => {
            if j == cs.len() {
                Some(ns)
            } else {
                None
            }
        },
        None => None,
    }
}

// ------------------------------------------------------------------
// Round trip: parsing inverts serialization
// ------------------------------------------------------------------

/// The suffix of `s` from position `i`.
pub open spec fn tail_from(s: Seq<char>, i: int) -> Seq<char> {
    s.subrange(i, s.len() as int)
}

/// Splitting a known suffix: when the suffix at `i` is `a + b`, the suffix
/// just after `a` is `b`.
proof fn lemma_skip_concat(s: Seq<char>, i: int, a: Seq<char>, b: Seq<char>)
    requires
        0 <= i <= s.len(),
        tail_from(s, i) == a + b,
    ensures
        i + a.len() <= s.len(),
        tail_from(s, i + a.len()) == b,
{
    assert(tail_from(s, i).len() == s.len() - i);
    assert(tail_from(s, i + a.len() as int) =~= b) by {
        assert forall|k: int| 0 <= k < b.len() implies tail_from(s, i + a.len() as int)[k] == b[k]
        by {
            assert(tail_from(s, i)[a.len() + k] == (a + b)[a.len() + k]);
        }
    }
}

proof fn lemma_rt_lit(s: Seq<char>, i: int, lit: Seq<char>, tail: Seq<char>)
    requires
        0 <= i <= s.len(),
        tail_from(s, i) == lit + tail,
    ensures
        spec_parse_lit(s, i, lit) == Some(i + lit.len()),
{
    assert(tail_from(s, i).len() == s.len() - i);
    assert(s.subrange(i, i + lit.len()) =~= lit) by {
        assert forall|k: int| 0 <= k < lit.len() implies s.subrange(i, i + lit.len() as int)[k]
            == lit[k] by {
            assert(tail_from(s, i)[k] == (lit + tail)[k]);
        }
    }
}

#[verifier::rlimit(60)]
#[verifier::spinoff_prover]
proof fn lemma_rt_str_body(s: Seq<char>, i: int, v: Seq<char>, tail: Seq<char>)
    requires
        0 <= i <= s.len(),
        tail_from(s, i) == ser_str_body(v) + seq!['"'] + tail,
    ensures
        spec_parse_str_body(s, i) == Some((v, i + ser_str_body(v).len() + 1)),
    decreases v.len(),
{
    if v.len() == 0 {
        assert(tail_from(s, i) =~= seq!['"'] + tail);
        assert(i < s.len());
        assert(s[i] == tail_from(s, i)[0]);
        assert(s[i] == '"');
        assert(v =~= Seq::<char>::empty());
    } else {
        let c = v[0];
        let e = esc_char(c);
        let vd = v.drop_first();
        assert(ser_str_body(v) == e + ser_str_body(vd));
        let rest = ser_str_body(vd) + seq!['"'] + tail;
        assert(tail_from(s, i) =~= e + rest);
        lemma_skip_concat(s, i, e, rest);
        assert(i < s.len());
        assert(s[i] == tail_from(s, i)[0]);
        assert(s[i] == e[0]);
        if e.len() == 2 {
            assert(s[i] == '\\');
            assert(i + 1 < s.len());
            assert(s[i + 1] == tail_from(s, i)[1]);
            assert(s[i + 1] == e[1]);
            assert(unesc_char(e[1]) == Some(c));
            lemma_rt_str_body(s, i + 2, vd, tail);
            assert(spec_parse_str_body(s, i) == Some(
                (seq![c] + vd, i + 2 + ser_str_body(vd).len() + 1),
            ));
            assert(seq![c] + vd =~= v);
        } else {
            assert(e =~= seq![c]);
            assert(s[i] == c);
            assert(c != '"' && c != '\\');
            lemma_rt_str_body(s, i + 1, vd, tail);
            assert(spec_parse_str_body(s, i) == Some(
                (seq![c] + vd, i + 1 + ser_str_body(vd).len() + 1),
            ));
            assert(seq![c] + vd =~= v);
        }
    }
}

proof fn lemma_rt_string(s: Seq<char>, i: int, v: Seq<char>, tail: Seq<char>)
    requires
        0 <= i <= s.len(),
        tail_from(s, i) == ser_string(v) + tail,
    ensures
        spec_parse_string(s, i) == Some((v, i + ser_string(v).len())),
        i + ser_string(v).len() <= s.len(),
        1 <= ser_string(v).len(),
{
    let rest = ser_str_body(v) + seq!['"'] + tail;
    assert(tail_from(s, i) =~= seq!['"'] + rest);
    lemma_skip_concat(s, i, seq!['"'], rest);
    assert(i < s.len());
    assert(s[i] == tail_from(s, i)[0]);
    assert(s[i] == '"');
    assert(tail_from(s, i + 1) =~= ser_str_body(v) + seq!['"'] + tail);
    lemma_rt_str_body(s, i + 1, v, tail);
    assert(tail_from(s, i).len() == s.len() - i);
}

/// The value of a digit run folded onto an accumulator, most significant
/// digit first.
pub open spec fn run_val(acc: int, ds: Seq<char>) -> int
    decreases ds.len(),
{
    if ds.len() == 0 {
        acc
    } else {
        run_val(acc * 10 + digit_val(ds[0]), ds.drop_first())
    }
}

proof fn lemma_run_val_append(acc: int, a: Seq<char>, b: Seq<char>)
    ensures
        run_val(acc, a + b) == run_val(run_val(acc, a), b),
    decreases a.len(),
{
    if a.len() == 0 {
        assert(a + b =~= b);
    } else {
        assert((a + b)[0] == a[0]);
        assert((a + b).drop_first() =~= a.drop_first() + b);
        lemma_run_val_append(acc * 10 + digit_val(a[0]), a.drop_first(), b);
    }
}

proof fn lemma_run_val_single(acc: int, c: char)
    ensures
        run_val(acc, seq![c]) == acc * 10 + digit_val(c),
{
    let s1 = seq![c];
    assert(s1[0] == c);
    assert(s1.drop_first() =~= Seq::<char>::empty());
    assert(run_val(acc * 10 + digit_val(c), Seq::<char>::empty()) == acc * 10 + digit_val(c));
}

proof fn lemma_run_val_lower(acc: int, ds: Seq<char>)
    requires
        acc >= 0,
    ensures
        run_val(acc, ds) >= acc,
    decreases ds.len(),
{
    if ds.len() > 0 {
        lemma_run_val_lower(acc * 10 + digit_val(ds[0]), ds.drop_first());
    }
}

proof fn lemma_ser_u64_digits(n: u64)
    ensures
        ser_u64(n).len() >= 1,
        forall|k: int| 0 <= k < ser_u64(n).len() ==> is_digit(#[trigger] ser_u64(n)[k]),
        run_val(0, ser_u64(n)) == n,
    decreases n,
{
    if n < 10 {
        assert(digit_val(digit_char(n)) == n);
        assert(is_digit(digit_char(n)));
        lemma_run_val_single(0, digit_char(n));
    } else {
        lemma_ser_u64_digits(n / 10);
        let a = ser_u64(n / 10);
        let d = digit_char(n % 10);
        assert(ser_u64(n) =~= a + seq![d]);
        assert(is_digit(d));
        assert(digit_val(d) == n % 10);
        lemma_run_val_append(0, a, seq![d]);
        lemma_run_val_single(run_val(0, a), d);
        assert(n / 10 * 10 + n % 10 == n);
        assert(forall|k: int| 0 <= k < ser_u64(n).len() ==> is_digit(#[trigger] ser_u64(n)[k]))
            by {
            assert(forall|k: int|
                0 <= k < a.len() ==> #[trigger] ser_u64(n)[k] == a[k] && is_digit(a[k]));
            assert(ser_u64(n)[a.len() as int] == d);
        }
    }
}

proof fn lemma_rt_digits(s: Seq<char>, i: int, ds: Seq<char>, acc: u64, tail: Seq<char>)
    requires
        0 <= i <= s.len(),
        tail_from(s, i) == ds + tail,
        forall|k: int| 0 <= k < ds.len() ==> is_digit(#[trigger] ds[k]),
        tail.len() > 0 ==> !is_digit(tail[0]),
        run_val(acc as int, ds) <= u64::MAX,
    ensures
        spec_parse_digits(s, i, acc) == Some(((run_val(acc as int, ds)) as u64, i + ds.len())),
    decreases ds.len(),
{
    assert(tail_from(s, i).len() == s.len() - i);
    if ds.len() == 0 {
        if i < s.len() {
            assert(s[i] == tail_from(s, i)[0]);
            assert(s[i] == tail[0]);
            assert(!is_digit(s[i]));
        }
    } else {
        assert(i < s.len());
        assert(s[i] == tail_from(s, i)[0]);
        assert(s[i] == ds[0]);
        assert(is_digit(s[i]));
        let d = digit_val(ds[0]);
        assert(ds =~= seq![ds[0]] + ds.drop_first());
        lemma_run_val_append(acc as int, seq![ds[0]], ds.drop_first());
        lemma_run_val_single(acc as int, ds[0]);
        assert(acc as int * 10 + d >= 0);
        lemma_run_val_lower(acc as int * 10 + d, ds.drop_first());
        assert(acc as int * 10 + d <= u64::MAX);
        let acc2 = (acc * 10 + d) as u64;
        assert(tail_from(s, i + 1) =~= ds.drop_first() + tail) by {
            assert forall|k: int| 0 <= k < ds.drop_first().len() + tail.len() implies tail_from(
                s,
                i + 1,
            )[k] == (ds.drop_first() + tail)[k] by {
                assert(tail_from(s, i)[1 + k] == (ds + tail)[1 + k]);
            }
        }
        lemma_rt_digits(s, i + 1, ds.drop_first(), acc2, tail);
    }
}

proof fn lemma_rt_u64(s: Seq<char>, i: int, n: u64, tail: Seq<char>)
    requires
        0 <= i <= s.len(),
        tail_from(s, i) == ser_u64(n) + tail,
        tail.len() > 0 ==> !is_digit(tail[0]),
    ensures
        spec_parse_u64(s, i) == Some((n, i + ser_u64(n).len())),
        i + ser_u64(n).len() <= s.len(),
        1 <= ser_u64(n).len(),
{
    lemma_ser_u64_digits(n);
    assert(tail_from(s, i).len() == s.len() - i);
    assert(i < s.len());
    assert(s[i] == tail_from(s, i)[0]);
    assert(s[i] == ser_u64(n)[0]);
    assert(is_digit(s[i]));
    lemma_rt_digits(s, i, ser_u64(n), 0u64, tail);
}

proof fn lemma_rt_bool(s: Seq<char>, i: int, b: bool, tail: Seq<char>)
    requires
        0 <= i <= s.len(),
        tail_from(s, i) == ser_bool(b) + tail,
    ensures
        spec_parse_bool(s, i) == Some((b, i + ser_bool(b).len())),
        i + ser_bool(b).len() <= s.len(),
        1 <= ser_bool(b).len(),
{
    assert(tail_from(s, i).len() == s.len() - i);
    lemma_rt_lit(s, i, ser_bool(b), tail);
    if !b {
        assert(s[i] == tail_from(s, i)[0]);
        assert(s[i] == 'f');
        assert(spec_parse_lit(s, i, ser_bool(true)) is None) by {
            if match_at(s, i, ser_bool(true)) {
                assert(s.subrange(i, i + 4)[0] == s[i]);
            }
        }
    }
}

proof fn lemma_rt_opt_string(s: Seq<char>, i: int, o: Option<Seq<char>>, tail: Seq<char>)
    requires
        0 <= i <= s.len(),
        tail_from(s, i) == ser_opt_string(o) + tail,
    ensures
        spec_parse_opt_string(s, i) == Some((o, i + ser_opt_string(o).len())),
        i + ser_opt_string(o).len() <= s.len(),
        1 <= ser_opt_string(o).len(),
{
    assert(tail_from(s, i).len() == s.len() - i);
    match o {
        None => {
            lemma_rt_lit(s, i, null_chars(), tail);
        },
        Some(v) => {
            lemma_rt_string(s, i, v, tail);
            assert(s[i] == tail_from(s, i)[0]);
            assert(s[i] == '"');
            assert(spec_parse_lit(s, i, null_chars()) is None) by {
                if match_at(s, i, null_chars()) {
                    assert(s.subrange(i, i + 4)[0] == s[i]);
                }
            }
        },
    }
}

#[verifier::rlimit(60)]
#[verifier::spinoff_prover]
proof fn lemma_rt_record(s: Seq<char>, i: int, r: crate::model::LocalFileRecordV, tail: Seq<char>)
    requires
        0 <= i <= s.len(),
        tail_from(s, i) == ser_record(r) + tail,
    ensures
        spec_parse_record(s, i) == Some((r, i + ser_record(r).len())),
        i + ser_record(r).len() <= s.len(),
        1 <= ser_record(r).len(),
{
    let t8 = l_close() + tail;
    let t7 = ser_string(r.path) + t8;
    let t6 = l_path() + t7;
    let t5 = ser_u64(r.modified) + t6;
    let t4 = l_modified() + t5;
    let t3 = ser_string(r.filename) + t4;
    let t2 = l_filename() + t3;
    let t1 = ser_string(r.id) + t2;
    assert(tail_from(s, i) =~= l_id_open() + t1);
    lemma_rt_lit(s, i, l_id_open(), t1);
    lemma_skip_concat(s, i, l_id_open(), t1);
    let i1 = i + l_id_open().len();
    lemma_rt_string(s, i1, r.id, t2);
    lemma_skip_concat(s, i1, ser_string(r.id), t2);
    let i2 = i1 + ser_string(r.id).len();
    lemma_rt_lit(s, i2, l_filename(), t3);
    lemma_skip_concat(s, i2, l_filename(), t3);
    let i3 = i2 + l_filename().len();
    lemma_rt_string(s, i3, r.filename, t4);
    lemma_skip_concat(s, i3, ser_string(r.filename), t4);
    let i4 = i3 + ser_string(r.filename).len();
    lemma_rt_lit(s, i4, l_modified(), t5);
    lemma_skip_concat(s, i4, l_modified(), t5);
    let i5 = i4 + l_modified().len();
    assert(t6[0] == ',');
    assert(!is_digit(','));
    lemma_rt_u64(s, i5, r.modified, t6);
    lemma_skip_concat(s, i5, ser_u64(r.modified), t6);
    let i6 = i5 + ser_u64(r.modified).len();
    lemma_rt_lit(s, i6, l_path(), t7);
    lemma_skip_concat(s, i6, l_path(), t7);
    let i7 = i6 + l_path().len();
    lemma_rt_string(s, i7, r.path, t8);
    lemma_skip_concat(s, i7, ser_string(r.path), t8);
    let i8 = i7 + ser_string(r.path).len();
    lemma_rt_lit(s, i8, l_close(), tail);
    lemma_skip_concat(s, i8, l_close(), tail);
    let i9 = i8 + l_close().len();
    assert(r == crate::model::LocalFileRecordV {
        id: r.id,
        filename: r.filename,
        modified: r.modified,
        path: r.path,
    });
    assert(spec_parse_record(s, i) == Some((r, i9)));
    assert(i9 == i + ser_record(r).len());
}

#[verifier::rlimit(60)]
#[verifier::spinoff_prover]
proof fn lemma_rt_tab(s: Seq<char>, i: int, t: crate::model::SessionTabV, tail: Seq<char>)
    requires
        0 <= i <= s.len(),
        tail_from(s, i) == ser_tab(t) + tail,
    ensures
        spec_parse_tab(s, i) == Some((t, i + ser_tab(t).len())),
        i + ser_tab(t).len() <= s.len(),
        1 <= ser_tab(t).len(),
{
    let t10 = l_close() + tail;
    let t9 = ser_opt_string(t.content) + t10;
    let t8 = l_content() + t9;
    let t7 = ser_bool(t.is_dirty) + t8;
    let t6 = l_is_dirty() + t7;
    let t5 = ser_string(t.filename) + t6;
    let t4 = l_filename() + t5;
    let t3 = ser_opt_string(t.path) + t4;
    let t2 = l_path() + t3;
    let t1 = ser_string(t.id) + t2;
    assert(tail_from(s, i) =~= l_id_open() + t1);
    lemma_rt_lit(s, i, l_id_open(), t1);
    lemma_skip_concat(s, i, l_id_open(), t1);
    let i1 = i + l_id_open().len();
    lemma_rt_string(s, i1, t.id, t2);
    lemma_skip_concat(s, i1, ser_string(t.id), t2);
    let i2 = i1 + ser_string(t.id).len();
    lemma_rt_lit(s, i2, l_path(), t3);
    lemma_skip_concat(s, i2, l_path(), t3);
    let i3 = i2 + l_path().len();
    lemma_rt_opt_string(s, i3, t.path, t4);
    lemma_skip_concat(s, i3, ser_opt_string(t.path), t4);
    let i4 = i3 + ser_opt_string(t.path).len();
    lemma_rt_lit(s, i4, l_filename(), t5);
    lemma_skip_concat(s, i4, l_filename(), t5);
    let i5 = i4 + l_filename().len();
    lemma_rt_string(s, i5, t.filename, t6);
    lemma_skip_concat(s, i5, ser_string(t.filename), t6);
    let i6 = i5 + ser_string(t.filename).len();
    lemma_rt_lit(s, i6, l_is_dirty(), t7);
    lemma_skip_concat(s, i6, l_is_dirty(), t7);
    let i7 = i6 + l_is_dirty().len();
    lemma_rt_bool(s, i7, t.is_dirty, t8);
    lemma_skip_concat(s, i7, ser_bool(t.is_dirty), t8);
    let i8 = i7 + ser_bool(t.is_dirty).len();
    lemma_rt_lit(s, i8, l_content(), t9);
    lemma_skip_concat(s, i8, l_content(), t9);
    let i9 = i8 + l_content().len();
    lemma_rt_opt_string(s, i9, t.content, t10);
    lemma_skip_concat(s, i9, ser_opt_string(t.content), t10);
    let i10 = i9 + ser_opt_string(t.content).len();
    lemma_rt_lit(s, i10, l_close(), tail);
    lemma_skip_concat(s, i10, l_close(), tail);
    let i11 = i10 + l_close().len();
    assert(t == crate::model::SessionTabV {
        id: t.id,
        path: t.path,
        filename: t.filename,
        is_dirty: t.is_dirty,
        content: t.content,
    });
    assert(spec_parse_tab(s, i) == Some((t, i11)));
    assert(i11 == i + ser_tab(t).len());
}

#[verifier::rlimit(60)]
#[verifier::spinoff_prover]
proof fn lemma_rt_note_v1(s: Seq<char>, i: int, n: crate::model::NoteV1V, tail: Seq<char>)
    requires
        0 <= i <= s.len(),
        tail_from(s, i) == ser_note_v1(n) + tail,
    ensures
        spec_parse_note_v1(s, i) == Some((n, i + ser_note_v1(n).len())),
        i + ser_note_v1(n).len() <= s.len(),
        1 <= ser_note_v1(n).len(),
{
    let t10 = l_close() + tail;
    let t9 = ser_string(n.file_extension) + t10;
    let t8 = l_file_extension() + t9;
    let t7 = ser_u64(n.updated_at) + t8;
    let t6 = l_updated_at() + t7;
    let t5 = ser_u64(n.created_at) + t6;
    let t4 = l_created_at() + t5;
    let t3 = ser_string(n.tag) + t4;
    let t2 = l_tag() + t3;
    let t1 = ser_string(n.title) + t2;
    assert(tail_from(s, i) =~= l_title_open() + t1);
    lemma_rt_lit(s, i, l_title_open(), t1);
    lemma_skip_concat(s, i, l_title_open(), t1);
    let i1 = i + l_title_open().len();
    lemma_rt_string(s, i1, n.title, t2);
    lemma_skip_concat(s, i1, ser_string(n.title), t2);
    let i2 = i1 + ser_string(n.title).len();
    lemma_rt_lit(s, i2, l_tag(), t3);
    lemma_skip_concat(s, i2, l_tag(), t3);
    let i3 = i2 + l_tag().len();
    lemma_rt_string(s, i3, n.tag, t4);
    lemma_skip_concat(s, i3, ser_string(n.tag), t4);
    let i4 = i3 + ser_string(n.tag).len();
    lemma_rt_lit(s, i4, l_created_at(), t5);
    lemma_skip_concat(s, i4, l_created_at(), t5);
    let i5 = i4 + l_created_at().len();
    assert(t6[0] == ',');
    assert(!is_digit(','));
    lemma_rt_u64(s, i5, n.created_at, t6);
    lemma_skip_concat(s, i5, ser_u64(n.created_at), t6);
    let i6 = i5 + ser_u64(n.created_at).len();
    lemma_rt_lit(s, i6, l_updated_at(), t7);
    lemma_skip_concat(s, i6, l_updated_at(), t7);
    let i7 = i6 + l_updated_at().len();
    assert(t8[0] == ',');
    lemma_rt_u64(s, i7, n.updated_at, t8);
    lemma_skip_concat(s, i7, ser_u64(n.updated_at), t8);
    let i8 = i7 + ser_u64(n.updated_at).len();
    lemma_rt_lit(s, i8, l_file_extension(), t9);
    lemma_skip_concat(s, i8, l_file_extension(), t9);
    let i9 = i8 + l_file_extension().len();
    lemma_rt_string(s, i9, n.file_extension, t10);
    lemma_skip_concat(s, i9, ser_string(n.file_extension), t10);
    let i10 = i9 + ser_string(n.file_extension).len();
    lemma_rt_lit(s, i10, l_close(), tail);
    lemma_skip_concat(s, i10, l_close(), tail);
    let i11 = i10 + l_close().len();
    assert(n == crate::model::NoteV1V {
        title: n.title,
        tag: n.tag,
        created_at: n.created_at,
        updated_at: n.updated_at,
        file_extension: n.file_extension,
    });
    assert(spec_parse_note_v1(s, i) == Some((n, i11)));
    assert(i11 == i + ser_note_v1(n).len());
}

#[verifier::rlimit(60)]
#[verifier::spinoff_prover]
proof fn lemma_rt_tabs_elems(
    s: Seq<char>,
    i: int,
    ts: Seq<crate::model::SessionTabV>,
    tail: Seq<char>,
)
    requires
        0 <= i <= s.len(),
        ts.len() >= 1,
        tail_from(s, i) == ser_tab(ts[0]) + ser_tabs_rest(ts.drop_first()) + seq![']'] + tail,
    ensures
        spec_parse_tabs_elems(s, i) == Some(
            (ts, i + ser_tab(ts[0]).len() + ser_tabs_rest(ts.drop_first()).len() + 1),
        ),
        i + ser_tab(ts[0]).len() + ser_tabs_rest(ts.drop_first()).len() + 1 <= s.len(),
    decreases ts.len(),
{
    let td = ts.drop_first();
    if td.len() == 0 {
        let t1 = seq![']'] + tail;
        assert(ser_tabs_rest(td) == Seq::<char>::empty());
        assert(tail_from(s, i) =~= ser_tab(ts[0]) + t1);
        lemma_rt_tab(s, i, ts[0], t1);
        lemma_skip_concat(s, i, ser_tab(ts[0]), t1);
        let j = i + ser_tab(ts[0]).len();
        assert(tail_from(s, j).len() == s.len() - j);
        assert(j < s.len());
        assert(s[j] == tail_from(s, j)[0]);
        assert(s[j] == ']');
        assert(spec_parse_tabs_elems(s, i) == Some((seq![ts[0]], j + 1)));
        assert(seq![ts[0]] =~= ts);
    } else {
        assert(ser_tabs_rest(td) == seq![','] + ser_tab(td[0]) + ser_tabs_rest(td.drop_first()));
        let t2 = ser_tab(td[0]) + ser_tabs_rest(td.drop_first()) + seq![']'] + tail;
        let t1 = seq![','] + t2;
        assert(tail_from(s, i) =~= ser_tab(ts[0]) + t1);
        lemma_rt_tab(s, i, ts[0], t1);
        lemma_skip_concat(s, i, ser_tab(ts[0]), t1);
        let j = i + ser_tab(ts[0]).len();
        assert(tail_from(s, j).len() == s.len() - j);
        assert(j < s.len());
        assert(s[j] == tail_from(s, j)[0]);
        assert(s[j] == ',');
        lemma_skip_concat(s, j, seq![','], t2);
        assert(tail_from(s, j + 1) =~= ser_tab(td[0]) + ser_tabs_rest(td.drop_first()) + seq![']']
            + tail);
        lemma_rt_tabs_elems(s, j + 1, td, tail);
        assert(seq![ts[0]] + td =~= ts);
        assert(spec_parse_tabs_elems(s, i) == Some(
            (ts, i + ser_tab(ts[0]).len() + ser_tabs_rest(td).len() + 1),
        ));
    }
}

#[verifier::rlimit(60)]
#[verifier::spinoff_prover]
proof fn lemma_rt_tabs(s: Seq<char>, i: int, ts: Seq<crate::model::SessionTabV>, tail: Seq<char>)
    requires
        0 <= i <= s.len(),
        tail_from(s, i) == ser_tabs(ts) + tail,
    ensures
        spec_parse_tabs(s, i) == Some((ts, i + ser_tabs(ts).len())),
        i + ser_tabs(ts).len() <= s.len(),
        2 <= ser_tabs(ts).len(),
{
    assert(tail_from(s, i).len() == s.len() - i);
    if ts.len() == 0 {
        assert(i + 1 < s.len());
        assert(s[i] == tail_from(s, i)[0]);
        assert(s[i + 1] == tail_from(s, i)[1]);
        assert(s[i] == '[' && s[i + 1] == ']');
        assert(ts =~= Seq::<crate::model::SessionTabV>::empty());
    } else {
        let t1 = ser_tab(ts[0]) + ser_tabs_rest(ts.drop_first()) + seq![']'] + tail;
        assert(tail_from(s, i) =~= seq!['['] + t1);
        lemma_skip_concat(s, i, seq!['['], t1);
        assert(s[i] == tail_from(s, i)[0]);
        assert(s[i] == '[');
        assert(i + 1 < s.len());
        assert(s[i + 1] == tail_from(s, i + 1)[0]);
        assert(s[i + 1] == ser_tab(ts[0])[0]);
        assert(ser_tab(ts[0])[0] == l_id_open()[0]);
        assert(s[i + 1] == '{');
        lemma_rt_tabs_elems(s, i + 1, ts, tail);
    }
}

#[verifier::rlimit(60)]
#[verifier::spinoff_prover]
proof fn lemma_rt_recent_elems(
    s: Seq<char>,
    i: int,
    rs: Seq<crate::model::LocalFileRecordV>,
    tail: Seq<char>,
)
    requires
        0 <= i <= s.len(),
        rs.len() >= 1,
        tail_from(s, i) == ser_recent_entry(rs[0]) + ser_recent_rest(rs.drop_first()) + seq!['}']
            + tail,
    ensures
        spec_parse_recent_elems(s, i) == Some(
            (rs, i + ser_recent_entry(rs[0]).len() + ser_recent_rest(rs.drop_first()).len() + 1),
        ),
        i + ser_recent_entry(rs[0]).len() + ser_recent_rest(rs.drop_first()).len() + 1 <= s.len(),
    decreases rs.len(),
{
    let rd = rs.drop_first();
    let r0 = rs[0];
    if rd.len() == 0 {
        let t1 = seq!['}'] + tail;
        assert(ser_recent_rest(rd) == Seq::<char>::empty());
        assert(tail_from(s, i) =~= ser_string(r0.path) + (seq![':'] + (ser_record(r0) + t1)));
        lemma_rt_string(s, i, r0.path, seq![':'] + (ser_record(r0) + t1));
        lemma_skip_concat(s, i, ser_string(r0.path), seq![':'] + (ser_record(r0) + t1));
        let j0 = i + ser_string(r0.path).len();
        assert(tail_from(s, j0).len() == s.len() - j0);
        assert(j0 < s.len());
        assert(s[j0] == tail_from(s, j0)[0]);
        assert(s[j0] == ':');
        lemma_skip_concat(s, j0, seq![':'], ser_record(r0) + t1);
        lemma_rt_record(s, j0 + 1, r0, t1);
        lemma_skip_concat(s, j0 + 1, ser_record(r0), t1);
        let j = j0 + 1 + ser_record(r0).len();
        assert(j < s.len());
        assert(s[j] == tail_from(s, j)[0]);
        assert(s[j] == '}');
        assert(spec_parse_recent_elems(s, i) == Some((seq![r0], j + 1)));
        assert(seq![r0] =~= rs);
    } else {
        assert(ser_recent_rest(rd) == seq![','] + ser_recent_entry(rd[0]) + ser_recent_rest(
            rd.drop_first(),
        ));
        let t2 = ser_recent_entry(rd[0]) + ser_recent_rest(rd.drop_first()) + seq!['}'] + tail;
        let t1 = seq![','] + t2;
        assert(tail_from(s, i) =~= ser_string(r0.path) + (seq![':'] + (ser_record(r0) + t1)));
        lemma_rt_string(s, i, r0.path, seq![':'] + (ser_record(r0) + t1));
        lemma_skip_concat(s, i, ser_string(r0.path), seq![':'] + (ser_record(r0) + t1));
        let j0 = i + ser_string(r0.path).len();
        assert(tail_from(s, j0).len() == s.len() - j0);
        assert(j0 < s.len());
        assert(s[j0] == tail_from(s, j0)[0]);
        assert(s[j0] == ':');
        lemma_skip_concat(s, j0, seq![':'], ser_record(r0) + t1);
        lemma_rt_record(s, j0 + 1, r0, t1);
        lemma_skip_concat(s, j0 + 1, ser_record(r0), t1);
        let j = j0 + 1 + ser_record(r0).len();
        assert(j < s.len());
        assert(s[j] == tail_from(s, j)[0]);
        assert(s[j] == ',');
        lemma_skip_concat(s, j, seq![','], t2);
        assert(tail_from(s, j + 1) =~= ser_recent_entry(rd[0]) + ser_recent_rest(rd.drop_first())
            + seq!['}'] + tail);
        lemma_rt_recent_elems(s, j + 1, rd, tail);
        assert(seq![r0] + rd =~= rs);
        assert(spec_parse_recent_elems(s, i) == Some(
            (rs, i + ser_recent_entry(r0).len() + ser_recent_rest(rd).len() + 1),
        ));
    }
}

#[verifier::rlimit(60)]
#[verifier::spinoff_prover]
proof fn lemma_rt_recent(
    s: Seq<char>,
    i: int,
    rs: Seq<crate::model::LocalFileRecordV>,
    tail: Seq<char>,
)
    requires
        0 <= i <= s.len(),
        tail_from(s, i) == ser_recent(rs) + tail,
    ensures
        spec_parse_recent(s, i) == Some((rs, i + ser_recent(rs).len())),
        i + ser_recent(rs).len() <= s.len(),
        2 <= ser_recent(rs).len(),
{
    assert(tail_from(s, i).len() == s.len() - i);
    if rs.len() == 0 {
        assert(i + 1 < s.len());
        assert(s[i] == tail_from(s, i)[0]);
        assert(s[i + 1] == tail_from(s, i)[1]);
        assert(s[i] == '{' && s[i + 1] == '}');
        assert(rs =~= Seq::<crate::model::LocalFileRecordV>::empty());
    } else {
        let t1 = ser_recent_entry(rs[0]) + ser_recent_rest(rs.drop_first()) + seq!['}'] + tail;
        assert(tail_from(s, i) =~= seq!['{'] + t1);
        lemma_skip_concat(s, i, seq!['{'], t1);
        assert(s[i] == tail_from(s, i)[0]);
        assert(s[i] == '{');
        assert(i + 1 < s.len());
        assert(s[i + 1] == tail_from(s, i + 1)[0]);
        assert(s[i + 1] == ser_recent_entry(rs[0])[0]);
        assert(ser_recent_entry(rs[0])[0] == ser_string(rs[0].path)[0]);
        assert(s[i + 1] == '"');
        lemma_rt_recent_elems(s, i + 1, rs, tail);
    }
}

#[verifier::rlimit(60)]
#[verifier::spinoff_prover]
proof fn lemma_rt_notes_elems(
    s: Seq<char>,
    i: int,
    ns: Seq<crate::model::NoteV1V>,
    tail: Seq<char>,
)
    requires
        0 <= i <= s.len(),
        ns.len() >= 1,
        tail_from(s, i) == ser_note_v1(ns[0]) + ser_notes_rest(ns.drop_first()) + seq![']'] + tail,
    ensures
        spec_parse_notes_elems(s, i) == Some(
            (ns, i + ser_note_v1(ns[0]).len() + ser_notes_rest(ns.drop_first()).len() + 1),
        ),
        i + ser_note_v1(ns[0]).len() + ser_notes_rest(ns.drop_first()).len() + 1 <= s.len(),
    decreases ns.len(),
{
    let nd = ns.drop_first();
    if nd.len() == 0 {
        let t1 = seq![']'] + tail;
        assert(ser_notes_rest(nd) == Seq::<char>::empty());
        assert(tail_from(s, i) =~= ser_note_v1(ns[0]) + t1);
        lemma_rt_note_v1(s, i, ns[0], t1);
        lemma_skip_concat(s, i, ser_note_v1(ns[0]), t1);
        let j = i + ser_note_v1(ns[0]).len();
        assert(tail_from(s, j).len() == s.len() - j);
        assert(j < s.len());
        assert(s[j] == tail_from(s, j)[0]);
        assert(s[j] == ']');
        assert(spec_parse_notes_elems(s, i) == Some((seq![ns[0]], j + 1)));
        assert(seq![ns[0]] =~= ns);
    } else {
        assert(ser_notes_rest(nd) == seq![','] + ser_note_v1(nd[0]) + ser_notes_rest(
            nd.drop_first(),
        ));
        let t2 = ser_note_v1(nd[0]) + ser_notes_rest(nd.drop_first()) + seq![']'] + tail;
        let t1 = seq![','] + t2;
        assert(tail_from(s, i) =~= ser_note_v1(ns[0]) + t1);
        lemma_rt_note_v1(s, i, ns[0], t1);
        lemma_skip_concat(s, i, ser_note_v1(ns[0]), t1);
        let j = i + ser_note_v1(ns[0]).len();
        assert(tail_from(s, j).len() == s.len() - j);
        assert(j < s.len());
        assert(s[j] == tail_from(s, j)[0]);
        assert(s[j] == ',');
        lemma_skip_concat(s, j, seq![','], t2);
        assert(tail_from(s, j + 1) =~= ser_note_v1(nd[0]) + ser_notes_rest(nd.drop_first())
            + seq![']'] + tail);
        lemma_rt_notes_elems(s, j + 1, nd, tail);
        assert(seq![ns[0]] + nd =~= ns);
        assert(spec_parse_notes_elems(s, i) == Some(
            (ns, i + ser_note_v1(ns[0]).len() + ser_notes_rest(nd).len() + 1),
        ));
    }
}

#[verifier::rlimit(60)]
#[verifier::spinoff_prover]
proof fn lemma_rt_legacy(s: Seq<char>, i: int, ns: Seq<crate::model::NoteV1V>, tail: Seq<char>)
    requires
        0 <= i <= s.len(),
        tail_from(s, i) == ser_legacy(ns) + tail,
    ensures
        spec_parse_legacy(s, i) == Some((ns, i + ser_legacy(ns).len())),
        i + ser_legacy(ns).len() <= s.len(),
        2 <= ser_legacy(ns).len(),
{
    assert(tail_from(s, i).len() == s.len() - i);
    if ns.len() == 0 {
        assert(i + 1 < s.len());
        assert(s[i] == tail_from(s, i)[0]);
        assert(s[i + 1] == tail_from(s, i)[1]);
        assert(s[i] == '[' && s[i + 1] == ']');
        assert(ns =~= Seq::<crate::model::NoteV1V>::empty());
    } else {
        let t1 = ser_note_v1(ns[0]) + ser_notes_rest(ns.drop_first()) + seq![']'] + tail;
        assert(tail_from(s, i) =~= seq!['['] + t1);
        lemma_skip_concat(s, i, seq!['['], t1);
        assert(s[i] == tail_from(s, i)[0]);
        assert(s[i] == '[');
        assert(i + 1 < s.len());
        assert(s[i + 1] == tail_from(s, i + 1)[0]);
        assert(s[i + 1] == ser_note_v1(ns[0])[0]);
        assert(ser_note_v1(ns[0])[0] == l_title_open()[0]);
        assert(s[i + 1] == '{');
        lemma_rt_notes_elems(s, i + 1, ns, tail);
    }
}

#[verifier::rlimit(60)]
#[verifier::spinoff_prover]
proof fn lemma_rt_session(s: Seq<char>, i: int, v: crate::model::EditorSessionV, tail: Seq<char>)
    requires
        0 <= i <= s.len(),
        tail_from(s, i) == ser_session(v) + tail,
    ensures
        spec_parse_session(s, i) == Some((v, i + ser_session(v).len())),
        i + ser_session(v).len() <= s.len(),
        1 <= ser_session(v).len(),
{
    let t4 = l_close() + tail;
    let t3 = ser_opt_string(v.current_tab_id) + t4;
    let t2 = l_current_tab_id() + t3;
    let t1 = ser_tabs(v.tabs) + t2;
    assert(tail_from(s, i) =~= l_tabs_open() + t1);
    lemma_rt_lit(s, i, l_tabs_open(), t1);
    lemma_skip_concat(s, i, l_tabs_open(), t1);
    let i1 = i + l_tabs_open().len();
    lemma_rt_tabs(s, i1, v.tabs, t2);
    lemma_skip_concat(s, i1, ser_tabs(v.tabs), t2);
    let i2 = i1 + ser_tabs(v.tabs).len();
    lemma_rt_lit(s, i2, l_current_tab_id(), t3);
    lemma_skip_concat(s, i2, l_current_tab_id(), t3);
    let i3 = i2 + l_current_tab_id().len();
    lemma_rt_opt_string(s, i3, v.current_tab_id, t4);
    lemma_skip_concat(s, i3, ser_opt_string(v.current_tab_id), t4);
    let i4 = i3 + ser_opt_string(v.current_tab_id).len();
    lemma_rt_lit(s, i4, l_close(), tail);
    lemma_skip_concat(s, i4, l_close(), tail);
    let i5 = i4 + l_close().len();
    assert(v == crate::model::EditorSessionV { tabs: v.tabs, current_tab_id: v.current_tab_id });
    assert(spec_parse_session(s, i) == Some((v, i5)));
    assert(i5 == i + ser_session(v).len());
}

#[verifier::rlimit(60)]
#[verifier::spinoff_prover]
proof fn lemma_rt_state(s: Seq<char>, i: int, v: crate::model::PersistedStateV, tail: Seq<char>)
    requires
        0 <= i <= s.len(),
        v.schema_version == crate::model::SchemaVersion::V2,
        tail_from(s, i) == ser_state(v) + tail,
    ensures
        spec_parse_state(s, i) == Some((v, i + ser_state(v).len())),
        i + ser_state(v).len() <= s.len(),
        1 <= ser_state(v).len(),
{
    let t4 = l_version_tail() + tail;
    let t3 = ser_session(v.session) + t4;
    let t2 = l_session_key() + t3;
    let t1 = ser_recent(v.recent_files) + t2;
    assert(tail_from(s, i) =~= l_recent_files_open() + t1);
    lemma_rt_lit(s, i, l_recent_files_open(), t1);
    lemma_skip_concat(s, i, l_recent_files_open(), t1);
    let i1 = i + l_recent_files_open().len();
    lemma_rt_recent(s, i1, v.recent_files, t2);
    lemma_skip_concat(s, i1, ser_recent(v.recent_files), t2);
    let i2 = i1 + ser_recent(v.recent_files).len();
    lemma_rt_lit(s, i2, l_session_key(), t3);
    lemma_skip_concat(s, i2, l_session_key(), t3);
    let i3 = i2 + l_session_key().len();
    lemma_rt_session(s, i3, v.session, t4);
    lemma_skip_concat(s, i3, ser_session(v.session), t4);
    let i4 = i3 + ser_session(v.session).len();
    lemma_rt_lit(s, i4, l_version_tail(), tail);
    lemma_skip_concat(s, i4, l_version_tail(), tail);
    let i5 = i4 + l_version_tail().len();
    assert(v == crate::model::PersistedStateV {
        recent_files: v.recent_files,
        session: v.session,
        schema_version: crate::model::SchemaVersion::V2,
    });
    assert(spec_parse_state(s, i) == Some((v, i5)));
    assert(i5 == i + ser_state(v).len());
}

/// A serialized current-schema state reads back as exactly the same state.
pub proof fn lemma_state_round_trip(v: crate::model::PersistedStateV)
    requires
        v.schema_version == crate::model::SchemaVersion::V2,
    ensures
        state_of_chars(ser_state(v)) == Some(v),
{
    let s = ser_state(v);
    assert(tail_from(s, 0) =~= ser_state(v) + Seq::<char>::empty());
    lemma_rt_state(s, 0, v, Seq::empty());
}

/// A serialized legacy note list reads back as exactly the same list.
pub proof fn lemma_legacy_round_trip(ns: Seq<crate::model::NoteV1V>)
    ensures
        legacy_of_chars(ser_legacy(ns)) == Some(ns),
{
    let s = ser_legacy(ns);
    assert(tail_from(s, 0) =~= ser_legacy(ns) + Seq::<char>::empty());
    lemma_rt_legacy(s, 0, ns, Seq::empty());
}

/// A current-schema document is never read as a legacy list: the two forms
/// differ already in their first character.
pub proof fn lemma_state_is_not_legacy(v: crate::model::PersistedStateV)
    ensures
        legacy_of_chars(ser_state(v)) is None,
{
    let s = ser_state(v);
    assert(s[0] == l_recent_files_open()[0]);
    assert(s[0] == '{');
}

/// A legacy document is never read as a current-schema state.
pub proof fn lemma_legacy_is_not_state(ns: Seq<crate::model::NoteV1V>)
    ensures
        state_of_chars(ser_legacy(ns)) is None,
{
    let s = ser_legacy(ns);
    assert(s[0] == '[');
    assert(spec_parse_lit(s, 0, l_recent_files_open()) is None) by {
        if match_at(s, 0, l_recent_files_open()) {
            assert(s.subrange(0, l_recent_files_open().len() as int)[0] == s[0]);
        }
    }
}

pub fn emit_note_v1(out: &mut Vec<char>, n: &crate::model::NoteV1)
    ensures
        final(out)@ == old(out)@ + ser_note_v1(n@),
{
    proof {
        reveal_strlit("{\"title\":");
        reveal_strlit(",\"tag\":");
        reveal_strlit(",\"createdAt\":");
        reveal_strlit(",\"updatedAt\":");
        reveal_strlit(",\"fileExtension\":");
        reveal_strlit("}");
        assert("{\"title\":"@ =~= l_title_open());
        assert(",\"tag\":"@ =~= l_tag());
        assert(",\"createdAt\":"@ =~= l_created_at());
        assert(",\"updatedAt\":"@ =~= l_updated_at());
        assert(",\"fileExtension\":"@ =~= l_file_extension());
        assert("}"@ =~= l_close());
    }
    emit_lit(out, "{\"title\":");
    emit_string_str(out, n.title.as_str());
    emit_lit(out, ",\"tag\":");
    emit_string_str(out, n.tag.as_str());
    emit_lit(out, ",\"createdAt\":");
    emit_u64(out, n.created_at);
    emit_lit(out, ",\"updatedAt\":");
    emit_u64(out, n.updated_at);
    emit_lit(out, ",\"fileExtension\":");
    emit_string_str(out, n.file_extension.as_str());
    emit_lit(out, "}");
    proof {
        assert(out@ =~= old(out)@ + ser_note_v1(n@));
    }
}

proof fn lemma_ser_notes_rest_push(ns: Seq<crate::model::NoteV1V>, n: crate::model::NoteV1V)
    ensures
        ser_notes_rest(ns.push(n)) == ser_notes_rest(ns) + (seq![','] + ser_note_v1(n)),
    decreases ns.len(),
{
    if ns.len() == 0 {
        assert(ns.push(n)[0] == n);
        assert(ns.push(n).drop_first() =~= Seq::<crate::model::NoteV1V>::empty());
        assert(ser_notes_rest(Seq::<crate::model::NoteV1V>::empty()) == Seq::<char>::empty());
        assert(ser_notes_rest(ns.push(n)) == seq![','] + ser_note_v1(n) + Seq::<char>::empty());
        assert(ser_notes_rest(ns.push(n)) =~= ser_notes_rest(ns) + (seq![','] + ser_note_v1(n)));
    } else {
        assert(ns.push(n).drop_first() =~= ns.drop_first().push(n));
        lemma_ser_notes_rest_push(ns.drop_first(), n);
        assert(ser_notes_rest(ns.push(n)) =~= ser_notes_rest(ns) + (seq![','] + ser_note_v1(n)));
    }
}

/// Serialize a legacy note list to the exact text `ser_legacy` describes.
pub fn serialize_legacy(notes: &Vec<crate::model::NoteV1>) -> (r: String)
    ensures
        r@ == ser_legacy(crate::model::notes_view(notes@)),
{
    let ghost nv = crate::model::notes_view(notes@);
    let mut out: Vec<char> = Vec::new();
    if notes.len() == 0 {
        proof {
            reveal_strlit("[]");
            assert("[]"@ =~= ser_legacy(nv));
        }
        emit_lit(&mut out, "[]");
        return crate::text::chars_to_string(&out);
    }
    proof {
        reveal_strlit("[");
        assert("["@ =~= seq!['[']);
    }
    emit_lit(&mut out, "[");
    emit_note_v1(&mut out, &notes[0]);
    proof {
        assert(nv.take(1).drop_first() =~= Seq::<crate::model::NoteV1V>::empty());
        assert(out@ =~= seq!['['] + ser_note_v1(nv[0]) + ser_notes_rest(nv.take(1).drop_first()));
    }
    let mut i: usize = 1;
    while i < notes.len()
        invariant
            nv == crate::model::notes_view(notes@),
            1 <= i <= nv.len(),
            nv.len() == notes@.len(),
            out@ == seq!['['] + ser_note_v1(nv[0]) + ser_notes_rest(nv.take(i as int).drop_first()),
        decreases nv.len() - i,
    {
        proof {
            reveal_strlit(",");
            assert(","@ =~= seq![',']);
        }
        emit_lit(&mut out, ",");
        emit_note_v1(&mut out, &notes[i]);
        proof {
            lemma_ser_notes_rest_push(nv.take(i as int).drop_first(), nv[i as int]);
            assert(nv.take(i + 1).drop_first() =~= nv.take(i as int).drop_first().push(
                nv[i as int],
            ));
            assert(out@ =~= seq!['['] + ser_note_v1(nv[0]) + ser_notes_rest(
                nv.take(i + 1).drop_first(),
            ));
        }
        i = i + 1;
    }
    proof {
        reveal_strlit("]");
        assert("]"@ =~= seq![']']);
    }
    emit_lit(&mut out, "]");
    proof {
        assert(nv.take(nv.len() as int).drop_first() =~= nv.drop_first());
        assert(out@ =~= ser_legacy(nv));
    }
    crate::text::chars_to_string(&out)
}

} // verus!

//! Small text and file-name utilities.

use vstd::prelude::*;
use vstd::string::{StringExecFns, StringSliceAdditionalSpecFns};
use vstd::utf8::{decode_utf8, encode_utf8, encode_utf8_decode_utf8, is_char_boundary};

verus! {

/// The characters Unicode gives the White_Space property.
pub open spec fn white_space(c: char) -> bool {
    ('\u{9}' <= c <= '\u{d}') || c == ' ' || c == '\u{85}' || c == '\u{a0}' || c == '\u{1680}'
        || ('\u{2000}' <= c <= '\u{200a}') || c == '\u{2028}' || c == '\u{2029}' || c
        == '\u{202f}' || c == '\u{205f}' || c == '\u{3000}'
}

/// Relies on `char::is_whitespace`, which tests the Unicode White_Space property.
#[verifier::external_body]
fn is_whitespace(c: char) -> (r: bool)
    ensures
        r == white_space(c),
{
    c.is_whitespace()
}

/// Relies on `str::chars`: the characters of a string, in order.
#[verifier::external_body]
pub(crate) fn chars_of(s: &str) -> (r: Vec<char>)
    ensures
        r@ == s@,
{
    s.chars().collect()
}

/// Relies on `String: FromIterator<char>`: a string of the given characters.
#[verifier::external_body]
pub(crate) fn string_of_chars(chars: &Vec<char>) -> (r: String)
    ensures
        r@ == chars@,
{
    chars.iter().collect()
}

/// The lower-case form of a text, as `str::to_lowercase` gives it.
pub uninterp spec fn lower_of(s: Seq<char>) -> Seq<char>;

/// Relies on `str::to_lowercase`: the result depends on the characters alone.
#[verifier::external_body]
fn lowercase(s: &str) -> (r: String)
    ensures
        r@ == lower_of(s@),
{
    s.to_lowercase()
}

/// The extension of a path, as `Path::extension` gives it.
pub uninterp spec fn extension_of(path: Seq<char>) -> Option<Seq<char>>;

/// Relies on `Path::extension`: the part of the file name after its last
/// dot, if the name has one that does not start it.
#[verifier::external_body]
fn path_extension(path: &str) -> (r: Option<String>)
    ensures
        r matches Some(e) ==> extension_of(path@) == Some(e@),
        r is None ==> extension_of(path@) is None,
{
    std::path::Path::new(path).extension().map(|e| e.to_string_lossy().into_owned())
}

/// The file name of a path, as `Path::file_name` gives it.
pub uninterp spec fn file_name_of(path: Seq<char>) -> Option<Seq<char>>;

/// Relies on `Path::file_name`: the last component of the path, if it is
/// not `..`.
#[verifier::external_body]
fn path_file_name(path: &str) -> (r: Option<String>)
    ensures
        r matches Some(n) ==> file_name_of(path@) == Some(n@),
        r is None ==> file_name_of(path@) is None,
{
    std::path::Path::new(path).file_name().map(|n| n.to_string_lossy().into_owned())
}

/// The decimal digit for `d`, 0 to 9.
pub open spec fn digit_char(d: nat) -> char {
    seq!['0', '1', '2', '3', '4', '5', '6', '7', '8', '9'][d as int]
}

/// The decimal numeral of `n`, without leading zeros.
pub open spec fn decimal_digits(n: nat) -> Seq<char>
    decreases n,
{
    if n < 10 {
        seq![digit_char(n)]
    } else {
        decimal_digits(n / 10).push(digit_char(n % 10))
    }
}

/// Relies on `u128`'s `Display`, which writes the decimal numeral.
#[verifier::external_body]
fn decimal(n: u128) -> (r: String)
    ensures
        r@ == decimal_digits(n as nat),
{
    n.to_string()
}

/// Whether two strings hold the same characters.
fn equals(a: &String, b: &str) -> (r: bool)
    ensures
        r == (a@ == b@),
{
    *a == String::from_str(b)
}

/// Whether `ext`, in lower case, names a Markdown file.
pub open spec fn markdown_extension(ext: Seq<char>) -> bool {
    ext == "md"@ || ext == "markdown"@ || ext == "mdown"@ || ext == "mkd"@ || ext == "mkdn"@
        || ext == "mdwn"@
}

/// Whether `ext`, in lower case, names a text file.
pub open spec fn text_extension(ext: Seq<char>) -> bool {
    ext == "txt"@ || ext == "md"@ || ext == "markdown"@ || ext == "rst"@ || ext == "text"@
}

/// Whether the lower-case extension `ext` names a Markdown file.
pub fn is_markdown_extension(ext: &String) -> (r: bool)
    ensures
        r == markdown_extension(ext@),
{
    equals(ext, "md") || equals(ext, "markdown") || equals(ext, "mdown") || equals(ext, "mkd")
        || equals(ext, "mkdn") || equals(ext, "mdwn")
}

/// Whether the lower-case extension `ext` names a text file.
pub fn is_text_extension(ext: &String) -> (r: bool)
    ensures
        r == text_extension(ext@),
{
    equals(ext, "txt") || equals(ext, "md") || equals(ext, "markdown") || equals(ext, "rst")
        || equals(ext, "text")
}

/// Whether `path` names a Markdown file, by its extension in any case.
pub fn is_markdown_file(path: &str) -> (r: bool)
    ensures
        r == match extension_of(path@) {
            Some(e) => markdown_extension(lower_of(e)),
            None => false,
        },
{
    match path_extension(path) {
        Some(ext) => is_markdown_extension(&lowercase(ext.as_str())),
        None => false,
    }
}

/// Whether `path` names a text file, by its extension in any case; a file
/// without extension counts as one.
pub fn is_text_file(path: &str) -> (r: bool)
    ensures
        r == match extension_of(path@) {
            Some(e) => text_extension(lower_of(e)),
            None => true,
        },
{
    match path_extension(path) {
        Some(ext) => is_text_extension(&lowercase(ext.as_str())),
        None => true,
    }
}

/// The extension of `path` in lower case, if it has one.
pub fn get_extension(path: &str) -> (r: Option<String>)
    ensures
        r matches Some(e) ==> extension_of(path@) matches Some(x) && e@ == lower_of(x),
        r is None ==> extension_of(path@) is None,
{
    match path_extension(path) {
        Some(ext) => Some(lowercase(ext.as_str())),
        None => None,
    }
}

/// Whether `name` starts with a dot.
pub fn is_hidden_name(name: &String) -> (r: bool)
    ensures
        r == (name@.len() > 0 && name@[0] == '.'),
{
    let chars = chars_of(name.as_str());
    chars.len() > 0 && chars[0] == '.'
}

/// Whether the file that `path` names is hidden: its name starts with a dot.
pub fn is_hidden_file(path: &str) -> (r: bool)
    ensures
        r == match file_name_of(path@) {
            Some(n) => n.len() > 0 && n[0] == '.',
            None => false,
        },
{
    match path_file_name(path) {
        Some(name) => is_hidden_name(&name),
        None => false,
    }
}

/// The character that stands for `c` in a safe file name.
pub open spec fn safe_char(c: char) -> char {
    if c == '<' || c == '>' || c == ':' || c == '"' || c == '/' || c == '\\' || c == '|' || c
        == '?' || c == '*' {
        '_'
    } else {
        c
    }
}

/// `name` with each character that file systems reserve replaced by `_`.
pub fn sanitize_filename(name: &str) -> (r: String)
    ensures
        r@ == name@.map_values(|c: char| safe_char(c)),
{
    let chars = chars_of(name);
    let mut out: Vec<char> = Vec::new();
    let mut i: usize = 0;
    while i < chars.len()
        invariant
            i <= chars@.len(),
            out@ == chars@.take(i as int).map_values(|c: char| safe_char(c)),
        decreases chars@.len() - i,
    {
        let c = chars[i];
        let safe = if c == '<' || c == '>' || c == ':' || c == '"' || c == '/' || c == '\\' || c
            == '|' || c == '?' || c == '*' {
            '_'
        } else {
            c
        };
        out.push(safe);
        i = i + 1;
        assert(out@ =~= chars@.take(i as int).map_values(|c: char| safe_char(c)));
    }
    assert(chars@.take(chars@.len() as int) =~= chars@);
    string_of_chars(&out)
}

/// `text` with every CRLF pair and every lone CR turned into LF.
pub open spec fn normalized(text: Seq<char>) -> Seq<char>
    decreases text.len(),
{
    if text.len() == 0 {
        text
    } else if text[0] == '\r' && text.len() > 1 && text[1] == '\n' {
        seq!['\n'] + normalized(text.skip(2))
    } else if text[0] == '\r' {
        seq!['\n'] + normalized(text.skip(1))
    } else {
        seq![text[0]] + normalized(text.skip(1))
    }
}

/// `text` with Windows and old Mac line endings turned into LF.
pub fn normalize_line_endings(text: &str) -> (r: String)
    ensures
        r@ == normalized(text@),
{
    let chars = chars_of(text);
    let mut out: Vec<char> = Vec::new();
    let mut i: usize = 0;
    assert(chars@.skip(0) =~= chars@);
    assert(out@ + chars@ =~= chars@);
    while i < chars.len()
        invariant
            i <= chars@.len(),
            out@ + normalized(chars@.skip(i as int)) == normalized(chars@),
        decreases chars@.len() - i,
    {
        let ghost rest = chars@.skip(i as int);
        let c = chars[i];
        if c == '\r' {
            out.push('\n');
            if i + 1 < chars.len() && chars[i + 1] == '\n' {
                assert(rest.skip(2) =~= chars@.skip(i + 2));
                i = i + 2;
            } else {
                assert(rest.skip(1) =~= chars@.skip(i + 1));
                i = i + 1;
            }
        } else {
            out.push(c);
            assert(rest.skip(1) =~= chars@.skip(i + 1));
            i = i + 1;
        }
    }
    assert(chars@.skip(chars@.len() as int) =~= Seq::<char>::empty());
    assert(out@ + Seq::<char>::empty() =~= out@);
    string_of_chars(&out)
}

/// Number of words in `text`: maximal runs of characters that are not white space.
pub open spec fn word_count(text: Seq<char>) -> nat
    decreases text.len(),
{
    if text.len() == 0 {
        0
    } else {
        let n = text.len() as int;
        word_count(text.drop_last()) + if !white_space(text[n - 1]) && (n == 1 || white_space(
            text[n - 2],
        )) {
            1nat
        } else {
            0nat
        }
    }
}

/// Number of words in `text`, as separated by white space.
pub fn count_words(text: &str) -> (r: usize)
    ensures
        r == word_count(text@),
{
    let chars = chars_of(text);
    let mut count: usize = 0;
    let mut in_word = false;
    let mut i: usize = 0;
    while i < chars.len()
        invariant
            i <= chars@.len(),
            count == word_count(chars@.take(i as int)),
            count <= i,
            in_word == (i > 0 && !white_space(chars@[i - 1])),
        decreases chars@.len() - i,
    {
        let space = is_whitespace(chars[i]);
        assert(chars@.take(i + 1).drop_last() =~= chars@.take(i as int));
        if !space && !in_word {
            count = count + 1;
        }
        in_word = !space;
        i = i + 1;
    }
    assert(chars@.take(chars@.len() as int) =~= chars@);
    count
}

/// Number of newline characters in `text`.
pub open spec fn newlines(text: Seq<char>) -> nat
    decreases text.len(),
{
    if text.len() == 0 {
        0
    } else {
        newlines(text.drop_last()) + if text.last() == '\n' {
            1nat
        } else {
            0nat
        }
    }
}

proof fn lemma_newlines_bound(text: Seq<char>)
    ensures
        newlines(text) <= text.len(),
    decreases text.len(),
{
    if text.len() > 0 {
        lemma_newlines_bound(text.drop_last());
    }
}

/// Number of lines in `text`: one per newline, and one more for text after
/// the last newline.
pub open spec fn line_total(text: Seq<char>) -> nat {
    newlines(text) + if text.len() > 0 && text.last() != '\n' {
        1nat
    } else {
        0nat
    }
}

/// Number of lines in `text`; a final line ending does not start another line.
pub fn count_lines(text: &str) -> (r: usize)
    ensures
        r == line_total(text@),
{
    let chars = chars_of(text);
    let mut count: usize = 0;
    let mut i: usize = 0;
    while i < chars.len()
        invariant
            i <= chars@.len(),
            count == newlines(chars@.take(i as int)),
            count <= i,
        decreases chars@.len() - i,
    {
        assert(chars@.take(i + 1).drop_last() =~= chars@.take(i as int));
        if chars[i] == '\n' {
            count = count + 1;
        }
        i = i + 1;
    }
    assert(chars@.take(chars@.len() as int) =~= chars@);
    if chars.len() > 0 && chars[chars.len() - 1] != '\n' {
        proof {
            lemma_newlines_bound(chars@.drop_last());
        }
        count = count + 1;
    }
    count
}

/// Minutes needed to read `word_count` words at 200 words a minute, at least one.
pub fn estimate_reading_time(word_count: usize) -> (r: usize)
    ensures
        r == if word_count / 200 > 1 {
            word_count / 200
        } else {
            1
        },
{
    let minutes = word_count / 200;
    if minutes > 1 {
        minutes
    } else {
        1
    }
}

/// Where `truncate_text` cuts a text longer than `max_len` bytes: three
/// bytes before the limit, to leave room for the ellipsis.
pub open spec fn truncation_point(max_len: usize) -> int {
    if max_len >= 3 {
        max_len - 3
    } else {
        0
    }
}

/// `text` unchanged if it is at most `max_len` bytes long; otherwise its
/// first `max_len - 3` bytes (none if `max_len < 3`) followed by `...`. The
/// cut must fall between two characters.
pub fn truncate_text(text: &str, max_len: usize) -> (r: String)
    requires
        text.spec_bytes().len() > max_len ==> is_char_boundary(
            text.spec_bytes(),
            truncation_point(max_len),
        ),
    ensures
        text.spec_bytes().len() <= max_len ==> r@ == text@,
        text.spec_bytes().len() > max_len ==> r@ == decode_utf8(
            text.spec_bytes().take(truncation_point(max_len)),
        ) + "..."@,
{
    if text.as_bytes().len() <= max_len {
        String::from_str(text)
    } else {
        let cut = max_len.saturating_sub(3);
        let (kept, _) = text.split_at(cut);
        proof {
            encode_utf8_decode_utf8(kept@);
            assert(kept.spec_bytes() == text.spec_bytes().take(cut as int));
        }
        let mut r = String::from_str(kept);
        r.append("...");
        r
    }
}

/// `a` followed by `b`.
fn joined(a: String, b: &str) -> (r: String)
    ensures
        r@ == a@ + b@,
{
    let mut r = a;
    r.append(b);
    r
}

/// A duration in words: seconds under a minute, minutes and seconds under
/// an hour, else hours and minutes.
pub open spec fn duration_text(secs: nat) -> Seq<char> {
    if secs < 60 {
        decimal_digits(secs) + "s"@
    } else if secs < 3600 {
        decimal_digits(secs / 60) + "m "@ + decimal_digits(secs % 60) + "s"@
    } else {
        decimal_digits(secs / 3600) + "h "@ + decimal_digits((secs % 3600) / 60) + "m"@
    }
}

/// A duration of `secs` seconds in words, such as `45s`, `2m 5s` or `1h 30m`.
pub fn format_duration(secs: u64) -> (r: String)
    ensures
        r@ == duration_text(secs as nat),
{
    if secs < 60 {
        joined(decimal(secs as u128), "s")
    } else if secs < 3600 {
        let m = joined(decimal((secs / 60) as u128), "m ");
        let ms = joined(m, decimal((secs % 60) as u128).as_str());
        joined(ms, "s")
    } else {
        let h = joined(decimal((secs / 3600) as u128), "h ");
        let hm = joined(h, decimal(((secs % 3600) / 60) as u128).as_str());
        joined(hm, "m")
    }
}

/// 1024 to the power `e`.
pub open spec fn pow1024(e: nat) -> nat
    decreases e,
{
    if e == 0 {
        1
    } else {
        1024 * pow1024((e - 1) as nat)
    }
}

proof fn lemma_pow1024_values()
    ensures
        pow1024(0) == 1,
        pow1024(1) == 1024,
        pow1024(2) == 1048576,
        pow1024(3) == 1073741824,
        pow1024(4) == 1099511627776,
{
    assert(pow1024(0) == 1);
    assert(pow1024(1) == 1024 * pow1024(0));
    assert(pow1024(2) == 1024 * pow1024(1));
    assert(pow1024(3) == 1024 * pow1024(2));
    assert(pow1024(4) == 1024 * pow1024(3));
}

/// The unit a size is shown in: the largest power of 1024, up to the
/// fourth, that is not above it (counting from `e`).
pub open spec fn size_exponent(size: nat, e: nat) -> nat
    decreases 4 - e,
{
    if e < 4 && size >= pow1024(e + 1) {
        size_exponent(size, e + 1)
    } else {
        e
    }
}

/// Hundredths of `size / unit`, rounded to the nearest, ties to even.
pub open spec fn rounded_hundredths(size: nat, unit: nat) -> nat
    recommends
        unit > 0,
{
    let q = size * 100 / unit;
    let rem = size * 100 % unit;
    if 2 * rem > unit || (2 * rem == unit && q % 2 == 1) {
        q + 1
    } else {
        q
    }
}

/// The name of the unit 1024 to the power `e`.
pub open spec fn unit_name(e: nat) -> Seq<char> {
    if e == 0 {
        "B"@
    } else if e == 1 {
        "KB"@
    } else if e == 2 {
        "MB"@
    } else if e == 3 {
        "GB"@
    } else {
        "TB"@
    }
}

/// Two decimal digits of `n`, below 100, with a leading zero if needed.
pub open spec fn two_digits(n: nat) -> Seq<char> {
    seq![digit_char(n / 10), digit_char(n % 10)]
}

/// A size in words: whole bytes under a kilobyte, else the value in the
/// largest unit that fits with two decimals.
pub open spec fn size_text(size: nat) -> Seq<char> {
    let e = size_exponent(size, 0);
    if e == 0 {
        decimal_digits(size) + " B"@
    } else {
        let h = rounded_hundredths(size, pow1024(e));
        decimal_digits(h / 100) + "."@ + two_digits(h % 100) + " "@ + unit_name(e)
    }
}

/// The name of the unit 1024 to the power `e`, 0 to 4.
fn unit_str(e: u64) -> (r: &'static str)
    ensures
        r@ == unit_name(e as nat),
{
    if e == 0 {
        "B"
    } else if e == 1 {
        "KB"
    } else if e == 2 {
        "MB"
    } else if e == 3 {
        "GB"
    } else {
        "TB"
    }
}

/// The decimal digit for `d`, 0 to 9.
fn digit(d: u128) -> (r: char)
    requires
        d < 10,
    ensures
        r == digit_char(d as nat),
{
    let digits = ['0', '1', '2', '3', '4', '5', '6', '7', '8', '9'];
    let r = digits[d as usize];
    assert(digits@ =~= seq!['0', '1', '2', '3', '4', '5', '6', '7', '8', '9']);
    r
}

/// A file size in human-readable form, such as `512 B` or `1.50 KB`.
pub fn format_file_size(size: u64) -> (r: String)
    ensures
        r@ == size_text(size as nat),
{
    let mut e: u64 = 0;
    let mut unit: u64 = 1;
    proof {
        lemma_pow1024_values();
    }
    while e < 4 && size / unit >= 1024
        invariant
            e <= 4,
            unit == pow1024(e as nat),
            1 <= unit <= pow1024(4),
            pow1024(4) == 1099511627776,
            size_exponent(size as nat, e as nat) == size_exponent(size as nat, 0),
        decreases 4 - e,
    {
        proof {
            assert(pow1024(e as nat + 1) == 1024 * pow1024(e as nat));
            lemma_pow1024_values();
            assert(e == 0 || e == 1 || e == 2 || e == 3);
            assert(size >= unit * 1024) by (nonlinear_arith)
                requires
                    size / unit >= 1024,
                    unit > 0,
            ;
        }
        unit = unit * 1024;
        e = e + 1;
    }
    proof {
        if e < 4 {
            assert(!(size as nat >= pow1024(e as nat + 1))) by (nonlinear_arith)
                requires
                    size / unit < 1024,
                    unit > 0,
                    pow1024(e as nat + 1) == 1024 * unit,
            ;
        }
    }
    if e == 0 {
        return joined(decimal(size as u128), " B");
    }
    let scaled = size as u128 * 100;
    let q = scaled / unit as u128;
    let rem = scaled % unit as u128;
    let h = if 2 * rem > unit as u128 || (2 * rem == unit as u128 && q % 2 == 1) {
        q + 1
    } else {
        q
    };
    let whole = joined(decimal(h / 100), ".");
    let frac = h % 100;
    let mut digits: Vec<char> = Vec::new();
    digits.push(digit(frac / 10));
    digits.push(digit(frac % 10));
    let with_frac = joined(whole, string_of_chars(&digits).as_str());
    let spaced = joined(with_frac, " ");
    joined(spaced, unit_str(e))
}

} // verus!

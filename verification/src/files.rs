//! File-name helpers of the bundler: extension extraction and
//! classification, path normalization, and the content hash used for
//! cache busting.

use vstd::prelude::*;

use crate::scan::{after_last_slash, lemma_after_last_slash_bounds, normalize_chars, sp_normalize};
use crate::text::{from_chars, str_eq, to_chars};

verus! {

/// An ASCII capital letter folded to its lowercase form; any other
/// character is left as it is.
pub open spec fn lower_char(c: char) -> char {
    if c == 'A' {
        'a'
    } else if c == 'B' {
        'b'
    } else if c == 'C' {
        'c'
    } else if c == 'D' {
        'd'
    } else if c == 'E' {
        'e'
    } else if c == 'F' {
        'f'
    } else if c == 'G' {
        'g'
    } else if c == 'H' {
        'h'
    } else if c == 'I' {
        'i'
    } else if c == 'J' {
        'j'
    } else if c == 'K' {
        'k'
    } else if c == 'L' {
        'l'
    } else if c == 'M' {
        'm'
    } else if c == 'N' {
        'n'
    } else if c == 'O' {
        'o'
    } else if c == 'P' {
        'p'
    } else if c == 'Q' {
        'q'
    } else if c == 'R' {
        'r'
    } else if c == 'S' {
        's'
    } else if c == 'T' {
        't'
    } else if c == 'U' {
        'u'
    } else if c == 'V' {
        'v'
    } else if c == 'W' {
        'w'
    } else if c == 'X' {
        'x'
    } else if c == 'Y' {
        'y'
    } else if c == 'Z' {
        'z'
    } else {
        c
    }
}

/// Executable form of [`lower_char`].
fn lower_char_exec(c: char) -> (r: char)
    ensures
        r == lower_char(c),
{
    if c == 'A' {
        'a'
    } else if c == 'B' {
        'b'
    } else if c == 'C' {
        'c'
    } else if c == 'D' {
        'd'
    } else if c == 'E' {
        'e'
    } else if c == 'F' {
        'f'
    } else if c == 'G' {
        'g'
    } else if c == 'H' {
        'h'
    } else if c == 'I' {
        'i'
    } else if c == 'J' {
        'j'
    } else if c == 'K' {
        'k'
    } else if c == 'L' {
        'l'
    } else if c == 'M' {
        'm'
    } else if c == 'N' {
        'n'
    } else if c == 'O' {
        'o'
    } else if c == 'P' {
        'p'
    } else if c == 'Q' {
        'q'
    } else if c == 'R' {
        'r'
    } else if c == 'S' {
        's'
    } else if c == 'T' {
        't'
    } else if c == 'U' {
        'u'
    } else if c == 'V' {
        'v'
    } else if c == 'W' {
        'w'
    } else if c == 'X' {
        'x'
    } else if c == 'Y' {
        'y'
    } else if c == 'Z' {
        'z'
    } else {
        c
    }
}

/// ASCII lowercase folding of a whole sequence.
pub open spec fn sp_lower(s: Seq<char>) -> Seq<char> {
    s.map_values(|c: char| lower_char(c))
}

/// The position just after the last `.` of `s` (0 if there is none).
pub open spec fn after_last_dot(s: Seq<char>) -> int
    decreases s.len(),
{
    if s.len() == 0 {
        0
    } else if s.last() == '.' {
        s.len() as int
    } else {
        after_last_dot(s.drop_last())
    }
}

pub proof fn lemma_after_last_dot_bounds(s: Seq<char>)
    ensures
        0 <= after_last_dot(s) <= s.len(),
    decreases s.len(),
{
    if s.len() > 0 && s.last() != '.' {
        lemma_after_last_dot_bounds(s.drop_last());
    }
}

/// The lowercased extension of a path: the file name is what follows the
/// last `/`; its extension is what follows its last `.`, none when the
/// name has no dot or its only dot begins it.
pub open spec fn sp_extension(path: Seq<char>) -> Option<Seq<char>> {
    let file = path.skip(after_last_slash(path));
    let d = after_last_dot(file);
    if d <= 1 {
        Option::None
    } else {
        Option::Some(sp_lower(file.skip(d)))
    }
}

/// Gets the lowercased extension of a file path, as [`sp_extension`]
/// states.
pub fn get_extension(path: &str) -> (r: Option<String>)
    ensures
        match r {
            Option::Some(e) => sp_extension(path@) == Option::Some(e@),
            Option::None => sp_extension(path@) is None,
        },
{
    let cs = to_chars(path);
    let ghost p = cs@;
    let n: usize = cs.len();
    proof {
        lemma_after_last_slash_bounds(p);
        assert(p.take(n as int) =~= p);
    }
    let mut k: usize = n;
    while k > 0 && cs[k - 1] != '/'
        invariant
            k <= n,
            n == p.len(),
            cs@ == p,
            after_last_slash(p) == after_last_slash(p.take(k as int)),
            after_last_slash(p.take(k as int)) <= k,
        decreases k,
    {
        k -= 1;
        proof {
            assert(p.take(k + 1).drop_last() =~= p.take(k as int));
            lemma_after_last_slash_bounds(p.take(k as int));
        }
    }
    proof {
        if k > 0 {
            assert(p.take(k as int).last() == p[k - 1]);
        } else {
            assert(p.take(0) =~= Seq::<char>::empty());
        }
        assert(after_last_slash(p) == k as int);
    }
    let ghost file = p.skip(k as int);
    proof {
        lemma_after_last_dot_bounds(file);
        assert(file.take((n - k) as int) =~= file);
    }
    let mut d: usize = n;
    while d > k && cs[d - 1] != '.'
        invariant
            k <= d <= n,
            n == p.len(),
            cs@ == p,
            file == p.skip(k as int),
            after_last_dot(file) == after_last_dot(file.take(d - k)),
            after_last_dot(file.take(d - k)) <= d - k,
        decreases d,
    {
        d -= 1;
        proof {
            assert(file.take(d - k + 1).drop_last() =~= file.take(d - k));
            lemma_after_last_dot_bounds(file.take(d - k));
        }
    }
    proof {
        if d > k {
            assert(file.take(d - k).last() == file[d - k - 1]);
            assert(file[d - k - 1] == p[d - 1]);
        } else {
            assert(file.take(0) =~= Seq::<char>::empty());
        }
        assert(after_last_dot(file) == d - k);
    }
    if d - k <= 1 {
        return Option::None;
    }
    let mut out: Vec<char> = Vec::new();
    let mut i: usize = d;
    while i < n
        invariant
            d <= i <= n,
            n == p.len(),
            cs@ == p,
            out@ == sp_lower(p.subrange(d as int, i as int)),
        decreases n - i,
    {
        out.push(lower_char_exec(cs[i]));
        i += 1;
        proof {
            assert(out@ =~= sp_lower(p.subrange(d as int, i as int)));
        }
    }
    proof {
        assert(p.subrange(d as int, n as int) =~= file.skip(d - k));
        assert(sp_extension(p) == Option::Some(sp_lower(file.skip(d - k))));
    }
    Option::Some(from_chars(&out))
}

/// Whether the path carries a JavaScript or TypeScript extension.
pub fn is_js_ts_file(path: &str) -> (r: bool)
    ensures
        r == (sp_extension(path@) == Option::Some("js"@) || sp_extension(path@) == Option::Some(
            "ts"@,
        ) || sp_extension(path@) == Option::Some("jsx"@) || sp_extension(path@) == Option::Some(
            "tsx"@,
        )),
{
    match get_extension(path) {
        Option::Some(e) => {
            str_eq(e.as_str(), "js") || str_eq(e.as_str(), "ts") || str_eq(e.as_str(), "jsx")
                || str_eq(e.as_str(), "tsx")
        },
        Option::None => false,
    }
}

/// Whether the path carries an HTML extension.
pub fn is_html_file(path: &str) -> (r: bool)
    ensures
        r == (sp_extension(path@) == Option::Some("html"@) || sp_extension(path@)
            == Option::Some("htm"@)),
{
    match get_extension(path) {
        Option::Some(e) => str_eq(e.as_str(), "html") || str_eq(e.as_str(), "htm"),
        Option::None => false,
    }
}

/// Whether the path carries a SASS/SCSS extension.
pub fn is_sass_file(path: &str) -> (r: bool)
    ensures
        r == (sp_extension(path@) == Option::Some("sass"@) || sp_extension(path@)
            == Option::Some("scss"@)),
{
    match get_extension(path) {
        Option::Some(e) => str_eq(e.as_str(), "sass") || str_eq(e.as_str(), "scss"),
        Option::None => false,
    }
}

/// Whether the path carries a CSS extension.
pub fn is_css_file(path: &str) -> (r: bool)
    ensures
        r == (sp_extension(path@) == Option::Some("css"@)),
{
    match get_extension(path) {
        Option::Some(e) => str_eq(e.as_str(), "css"),
        Option::None => false,
    }
}

/// Whether the path is TypeScript proper: a JS/TS extension and a name
/// ending in `.ts` or `.tsx`.
pub fn is_ts_file(path: &str) -> (r: bool)
    ensures
        r == ((sp_extension(path@) == Option::Some("js"@) || sp_extension(path@) == Option::Some(
            "ts"@,
        ) || sp_extension(path@) == Option::Some("jsx"@) || sp_extension(path@) == Option::Some(
            "tsx"@,
        )) && (crate::scan::ends_with(path@, ".ts"@) || crate::scan::ends_with(path@, ".tsx"@))),
{
    if !is_js_ts_file(path) {
        return false;
    }
    let cs = to_chars(path);
    crate::scan::chars_end_with(&cs, ".ts") || crate::scan::chars_end_with(&cs, ".tsx")
}

/// Converts backslashes in a path to forward slashes, as
/// [`sp_normalize`] states.
pub fn normalize_path(path: &str) -> (r: String)
    ensures
        r@ == sp_normalize(path@),
{
    let cs = to_chars(path);
    from_chars(&normalize_chars(&cs))
}

/// The SHA-256 digest of the UTF-8 bytes of a text, a name for what the
/// hash function returns.
pub uninterp spec fn sha256_of(s: Seq<char>) -> Seq<u8>;

/// Relies on sha2's `Sha256` through `Digest::digest`: the digest depends
/// on the input bytes alone and is 32 bytes long.
#[verifier::external_body]
fn sha256_bytes(content: &str) -> (r: Vec<u8>)
    ensures
        r@ == sha256_of(content@),
        r@.len() == 32,
{
    <sha2::Sha256 as sha2::Digest>::digest(content.as_bytes()).to_vec()
}

/// The lowercase hex digit of a value below 16.
pub open spec fn hex_digit(n: u8) -> char {
    if n == 0 {
        '0'
    } else if n == 1 {
        '1'
    } else if n == 2 {
        '2'
    } else if n == 3 {
        '3'
    } else if n == 4 {
        '4'
    } else if n == 5 {
        '5'
    } else if n == 6 {
        '6'
    } else if n == 7 {
        '7'
    } else if n == 8 {
        '8'
    } else if n == 9 {
        '9'
    } else if n == 10 {
        'a'
    } else if n == 11 {
        'b'
    } else if n == 12 {
        'c'
    } else if n == 13 {
        'd'
    } else if n == 14 {
        'e'
    } else {
        'f'
    }
}

/// Executable form of [`hex_digit`].
fn hex_digit_exec(n: u8) -> (r: char)
    requires
        n < 16,
    ensures
        r == hex_digit(n),
{
    if n == 0 {
        '0'
    } else if n == 1 {
        '1'
    } else if n == 2 {
        '2'
    } else if n == 3 {
        '3'
    } else if n == 4 {
        '4'
    } else if n == 5 {
        '5'
    } else if n == 6 {
        '6'
    } else if n == 7 {
        '7'
    } else if n == 8 {
        '8'
    } else if n == 9 {
        '9'
    } else if n == 10 {
        'a'
    } else if n == 11 {
        'b'
    } else if n == 12 {
        'c'
    } else if n == 13 {
        'd'
    } else if n == 14 {
        'e'
    } else {
        'f'
    }
}

/// The lowercase hex rendering of a byte sequence: two digits per byte,
/// high nibble first.
pub open spec fn sp_hex(bytes: Seq<u8>, i: int) -> Seq<char>
    decreases bytes.len() - i when 0 <= i <= bytes.len()
{
    if i >= bytes.len() {
        Seq::empty()
    } else {
        seq![hex_digit(bytes[i] / 16), hex_digit(bytes[i] % 16)] + sp_hex(bytes, i + 1)
    }
}

/// Renders bytes as lowercase hex, as [`sp_hex`] states.
fn hex_chars(bytes: &Vec<u8>) -> (r: Vec<char>)
    ensures
        r@ == sp_hex(bytes@, 0),
        r@.len() == 2 * bytes@.len(),
{
    let ghost b = bytes@;
    let n: usize = bytes.len();
    let mut out: Vec<char> = Vec::new();
    let mut i: usize = 0;
    proof {
        assert(Seq::<char>::empty() + sp_hex(b, 0) =~= sp_hex(b, 0));
    }
    while i < n
        invariant
            i <= n,
            n == b.len(),
            bytes@ == b,
            out@.len() == 2 * i,
            sp_hex(b, 0) == out@ + sp_hex(b, i as int),
        decreases n - i,
    {
        out.push(hex_digit_exec(bytes[i] / 16));
        out.push(hex_digit_exec(bytes[i] % 16));
        i += 1;
        proof {
            assert(sp_hex(b, 0) == out@ + sp_hex(b, i as int));
        }
    }
    proof {
        assert(sp_hex(b, i as int) == Seq::<char>::empty());
        assert(out@ + Seq::<char>::empty() =~= out@);
    }
    out
}

/// The content hash used for cache busting: the first eight lowercase
/// hex digits of the SHA-256 digest of the text.
pub fn compute_hash(content: &str) -> (r: String)
    ensures
        r@ == sp_hex(sha256_of(content@), 0).take(8),
        r@.len() == 8,
{
    let bytes = sha256_bytes(content);
    let hex = hex_chars(&bytes);
    let first = crate::text::sub_chars(&hex, 0, 8);
    proof {
        assert(first@ =~= sp_hex(sha256_of(content@), 0).take(8));
    }
    from_chars(&first)
}

} // verus!

//! Byte- and string-level helpers shared by the protocol and store code.
use vstd::prelude::*;
use vstd::utf8::*;
use vstd::string::*;
use vstd::string::StrSliceExecFns;

verus! {

broadcast use vstd::utf8::encode_utf8_decode_utf8;

/// Two strings hold the same characters exactly when their UTF-8 encodings agree.
pub proof fn lemma_bytes_eq_iff_chars_eq(a: Seq<char>, b: Seq<char>)
    ensures
        (encode_utf8(a) == encode_utf8(b)) <==> (a == b),
{
    if encode_utf8(a) == encode_utf8(b) {
        assert(decode_utf8(encode_utf8(a)) == a);
        assert(decode_utf8(encode_utf8(b)) == b);
    }
}

/// Byte-wise slice equality.
pub fn bytes_eq(a: &[u8], b: &[u8]) -> (r: bool)
    ensures
        r == (a@ == b@),
{
    if a.len() != b.len() {
        return false;
    }
    let mut i: usize = 0;
    while i < a.len()
        invariant
            a@.len() == b@.len(),
            i <= a@.len(),
            forall|j: int| 0 <= j < i ==> a@[j] == b@[j],
        decreases a@.len() - i,
    {
        if a[i] != b[i] {
            return false;
        }
        i = i + 1;
    }
    assert(a@ =~= b@);
    true
}

/// A decimal digit character.
pub open spec fn is_digit(c: char) -> bool {
    '0' <= c && c <= '9'
}

/// The number a run of decimal digits spells.
pub open spec fn digits_value(s: Seq<char>) -> nat
    decreases s.len(),
{
    if s.len() == 0 {
        0
    } else {
        digits_value(s.drop_last()) * 10 + ((s.last() as int) - ('0' as int)) as nat
    }
}

/// The digits of an unsigned number in text: a leading `+` is allowed
/// when something follows it.
pub open spec fn unsigned_digits(s: Seq<char>) -> Seq<char> {
    if s.len() >= 2 && s[0] == '+' {
        s.drop_first()
    } else {
        s
    }
}

/// The value of unsigned decimal text, as `str::parse` for unsigned
/// integers reads it: an optional `+`, then one or more ASCII digits.
pub open spec fn unsigned_value(s: Seq<char>) -> Option<nat> {
    let d = unsigned_digits(s);
    if d.len() > 0 && (forall|i: int| 0 <= i < d.len() ==> is_digit(#[trigger] d[i])) {
        Some(digits_value(d))
    } else {
        None
    }
}

/// Unsigned decimal text that fits in a `u64`.
pub open spec fn u64_value(s: Seq<char>) -> Option<u64> {
    match unsigned_value(s) {
        Some(v) => if v <= u64::MAX {
            Some(v as u64)
        } else {
            None
        },
        None => None,
    }
}

/// Unsigned decimal text that fits in a `u32`.
pub open spec fn u32_value(s: Seq<char>) -> Option<u32> {
    match unsigned_value(s) {
        Some(v) => if v <= u32::MAX {
            Some(v as u32)
        } else {
            None
        },
        None => None,
    }
}

/// A longer run of digits is worth at least as much as its prefix.
proof fn lemma_digits_prefix(s: Seq<char>, i: int)
    requires
        0 <= i <= s.len(),
        forall|k: int| 0 <= k < s.len() ==> is_digit(#[trigger] s[k]),
    ensures
        digits_value(s.subrange(0, i)) <= digits_value(s),
    decreases s.len() - i,
{
    if i < s.len() {
        lemma_digits_prefix(s, i + 1);
        let p = s.subrange(0, i + 1);
        assert(p.drop_last() =~= s.subrange(0, i));
        assert(is_digit(s[i]));
    }
    assert(s.subrange(0, s.len() as int) =~= s);
}

/// Parse unsigned decimal text into a `u64`; `None` for anything else and
/// for values that do not fit.
pub fn parse_u64_text(text: &str) -> (r: Option<u64>)
    ensures
        r == u64_value(text@),
{
    let n = text.unicode_len();
    let mut start: usize = 0;
    if n >= 2 && text.get_char(0) == '+' {
        start = 1;
    }
    let ghost d = unsigned_digits(text@);
    assert(d =~= text@.subrange(start as int, n as int));
    if start >= n {
        return None;
    }
    let mut value: u64 = 0;
    let mut i: usize = start;
    while i < n
        invariant
            n == text@.len(),
            start <= i <= n,
            d == text@.subrange(start as int, n as int),
            d == unsigned_digits(text@),
            forall|k: int| start <= k < i ==> is_digit(#[trigger] text@[k]),
            value == digits_value(text@.subrange(start as int, i as int)),
        decreases n - i,
    {
        let c = text.get_char(i);
        if !('0' <= c && c <= '9') {
            assert(!is_digit(d[i - start]));
            return None;
        }
        let digit = (c as u32 - '0' as u32) as u64;
        proof {
            let p = text@.subrange(start as int, i + 1);
            assert(p.drop_last() =~= text@.subrange(start as int, i as int));
        }
        let next = match value.checked_mul(10) {
            Some(v) => v.checked_add(digit),
            None => None,
        };
        match next {
            Some(v) => {
                value = v;
            },
            None => {
                proof {
                    if forall|j: int| 0 <= j < d.len() ==> is_digit(#[trigger] d[j]) {
                        lemma_digits_prefix(d, i + 1 - start);
                        assert(d.subrange(0, i + 1 - start) =~= text@.subrange(start as int, i + 1));
                    }
                }
                return None;
            },
        }
        i = i + 1;
    }
    assert(text@.subrange(start as int, n as int) =~= d);
    Some(value)
}

/// Parse unsigned decimal text into a `u32`.
pub fn parse_u32_text(text: &str) -> (r: Option<u32>)
    ensures
        r == u32_value(text@),
{
    match parse_u64_text(text) {
        Some(v) => if v <= 0xffff_ffff {
            Some(v as u32)
        } else {
            None
        },
        None => None,
    }
}

/// A character with the Unicode `White_Space` property, which is what
/// `char::is_whitespace` and `str::trim` go by.
pub open spec fn is_space(c: char) -> bool {
    let n = c as u32;
    ||| 0x09 <= n <= 0x0d
    ||| n == 0x20
    ||| n == 0x85
    ||| n == 0xa0
    ||| n == 0x1680
    ||| 0x2000 <= n <= 0x200a
    ||| n == 0x2028
    ||| n == 0x2029
    ||| n == 0x202f
    ||| n == 0x205f
    ||| n == 0x3000
}

pub fn is_space_char(c: char) -> (r: bool)
    ensures
        r == is_space(c),
{
    let n = c as u32;
    (0x09 <= n && n <= 0x0d) || n == 0x20 || n == 0x85 || n == 0xa0 || n == 0x1680 || (0x2000 <= n
        && n <= 0x200a) || n == 0x2028 || n == 0x2029 || n == 0x202f || n == 0x205f || n == 0x3000
}

/// The text without its leading whitespace.
pub open spec fn trim_start(s: Seq<char>) -> Seq<char>
    decreases s.len(),
{
    if s.len() > 0 && is_space(s[0]) {
        trim_start(s.drop_first())
    } else {
        s
    }
}

/// The text without its trailing whitespace.
pub open spec fn trim_end(s: Seq<char>) -> Seq<char>
    decreases s.len(),
{
    if s.len() > 0 && is_space(s.last()) {
        trim_end(s.drop_last())
    } else {
        s
    }
}

/// The text without leading and trailing whitespace.
pub open spec fn trim(s: Seq<char>) -> Seq<char> {
    trim_end(trim_start(s))
}

/// `text` without leading and trailing whitespace, as `str::trim`.
pub fn trim_text(text: &str) -> (r: &str)
    ensures
        r@ == trim(text@),
{
    let n = text.unicode_len();
    let mut a: usize = 0;
    assert(text@.subrange(0, n as int) =~= text@);
    while a < n && is_space_char(text.get_char(a))
        invariant
            n == text@.len(),
            a <= n,
            trim_start(text@) == trim_start(text@.subrange(a as int, n as int)),
        decreases n - a,
    {
        proof {
            assert(text@.subrange(a as int, n as int).drop_first() =~= text@.subrange(a + 1, n as int));
        }
        a = a + 1;
    }
    let ghost t = text@.subrange(a as int, n as int);
    assert(trim_start(t) == t);
    let mut b: usize = n;
    while b > a && is_space_char(text.get_char(b - 1))
        invariant
            n == text@.len(),
            a <= b <= n,
            t == text@.subrange(a as int, n as int),
            trim_end(t) == trim_end(text@.subrange(a as int, b as int)),
        decreases b - a,
    {
        proof {
            assert(text@.subrange(a as int, b as int).drop_last() =~= text@.subrange(a as int, b - 1));
        }
        b = b - 1;
    }
    text.substring_char(a, b)
}

/// The pieces of `s` between occurrences of `sep`, as `str::split` gives
/// them (empty pieces included; text without `sep` is one piece).
pub open spec fn split_on(s: Seq<char>, sep: char) -> Seq<Seq<char>>
    decreases s.len(),
{
    if s.len() == 0 {
        seq![Seq::empty()]
    } else {
        let init = split_on(s.drop_last(), sep);
        if s.last() == sep {
            init.push(Seq::empty())
        } else {
            init.update(init.len() - 1, init.last().push(s.last()))
        }
    }
}

/// Splitting always gives at least one piece.
pub proof fn lemma_split_on_nonempty(s: Seq<char>, sep: char)
    ensures
        split_on(s, sep).len() >= 1,
    decreases s.len(),
{
    if s.len() > 0 {
        lemma_split_on_nonempty(s.drop_last(), sep);
    }
}

/// The views of a list of string slices.
pub open spec fn str_views(v: Seq<&str>) -> Seq<Seq<char>> {
    v.map_values(|x: &str| x@)
}

/// Split `text` at every `sep`, as `str::split` with a character.
pub fn split_text(text: &str, sep: char) -> (r: Vec<&str>)
    ensures
        str_views(r@) == split_on(text@, sep),
{
    let n = text.unicode_len();
    let mut out: Vec<&str> = Vec::new();
    let mut start: usize = 0;
    let mut i: usize = 0;
    assert(text@.subrange(0, 0) =~= Seq::<char>::empty());
    assert(str_views(out@).push(text@.subrange(0, 0)) =~= seq![Seq::<char>::empty()]);
    while i < n
        invariant
            n == text@.len(),
            start <= i <= n,
            split_on(text@.subrange(0, i as int), sep) == str_views(out@).push(
                text@.subrange(start as int, i as int),
            ),
        decreases n - i,
    {
        proof {
            let p = text@.subrange(0, i + 1);
            assert(p.drop_last() =~= text@.subrange(0, i as int));
            lemma_split_on_nonempty(text@.subrange(0, i as int), sep);
        }
        if text.get_char(i) == sep {
            let piece = text.substring_char(start, i);
            out.push(piece);
            start = i + 1;
            proof {
                assert(text@.subrange(start as int, i + 1) =~= Seq::<char>::empty());
                assert(split_on(text@.subrange(0, i + 1), sep) =~= str_views(out@).push(
                    text@.subrange(start as int, i + 1),
                ));
            }
        } else {
            proof {
                assert(text@.subrange(start as int, i as int).push(text@[i as int]) =~= text@.subrange(
                    start as int,
                    i + 1,
                ));
                assert(split_on(text@.subrange(0, i + 1), sep) =~= str_views(out@).push(
                    text@.subrange(start as int, i + 1),
                ));
            }
        }
        i = i + 1;
    }
    let last = text.substring_char(start, n);
    out.push(last);
    assert(text@.subrange(0, n as int) =~= text@);
    assert(str_views(out@) =~= split_on(text@, sep));
    out
}

/// The decimal digits of `n`, as text.
pub open spec fn decimal_chars(n: nat) -> Seq<char>
    decreases n,
{
    if n < 10 {
        seq![(('0' as int) + n) as char]
    } else {
        decimal_chars(n / 10) + seq![(('0' as int) + n % 10) as char]
    }
}

fn digit_text(d: u64) -> (r: &'static str)
    requires
        d < 10,
    ensures
        r@ == seq![(('0' as int) + d) as char],
{
    proof {
        reveal_strlit("0");
        reveal_strlit("1");
        reveal_strlit("2");
        reveal_strlit("3");
        reveal_strlit("4");
        reveal_strlit("5");
        reveal_strlit("6");
        reveal_strlit("7");
        reveal_strlit("8");
        reveal_strlit("9");
    }
    match d {
        0 => "0",
        1 => "1",
        2 => "2",
        3 => "3",
        4 => "4",
        5 => "5",
        6 => "6",
        7 => "7",
        8 => "8",
        _ => "9",
    }
}

/// Append the decimal digits of `n` to `out`.
pub fn push_decimal_text(out: &mut String, n: u64)
    ensures
        final(out)@ == old(out)@ + decimal_chars(n as nat),
    decreases n,
{
    if n >= 10 {
        push_decimal_text(out, n / 10);
    }
    out.append(digit_text(n % 10));
    assert(out@ =~= old(out)@ + decimal_chars(n as nat));
}

/// The decimal text of `n`, as `n.to_string()`.
pub fn decimal_text(n: u64) -> (r: String)
    ensures
        r@ == decimal_chars(n as nat),
{
    let mut out = String::new();
    push_decimal_text(&mut out, n);
    assert(out@ =~= decimal_chars(n as nat));
    out
}

/// How one character of a string is written by Rust's `{:?}`: quote,
/// backslash, NUL, tab, line feed and carriage return are escaped, every
/// other character is copied.
pub open spec fn debug_escaped(c: char) -> Seq<char> {
    if c == '"' {
        "\\\""@
    } else if c == '\\' {
        "\\\\"@
    } else if c == '\0' {
        "\\0"@
    } else if c == '\t' {
        "\\t"@
    } else if c == '\n' {
        "\\n"@
    } else if c == '\r' {
        "\\r"@
    } else {
        seq![c]
    }
}

/// The escaped characters of a whole string.
pub open spec fn debug_escape(s: Seq<char>) -> Seq<char>
    decreases s.len(),
{
    if s.len() == 0 {
        Seq::empty()
    } else {
        debug_escape(s.drop_last()) + debug_escaped(s.last())
    }
}

/// A string as Rust's `{:?}` writes it, within double quotes.
pub open spec fn debug_quoted(s: Seq<char>) -> Seq<char> {
    "\""@ + debug_escape(s) + "\""@
}

/// Append `text` as Rust's `{:?}` writes it.
pub fn push_debug_quoted(out: &mut String, text: &str)
    ensures
        final(out)@ == old(out)@ + debug_quoted(text@),
{
    let ghost start = out@;
    out.append("\"");
    let n = text.unicode_len();
    let mut i: usize = 0;
    while i < n
        invariant
            n == text@.len(),
            i <= n,
            out@ == start + "\""@ + debug_escape(text@.subrange(0, i as int)),
        decreases n - i,
    {
        let c = text.get_char(i);
        if c == '"' {
            out.append("\\\"");
        } else if c == '\\' {
            out.append("\\\\");
        } else if c == '\0' {
            out.append("\\0");
        } else if c == '\t' {
            out.append("\\t");
        } else if c == '\n' {
            out.append("\\n");
        } else if c == '\r' {
            out.append("\\r");
        } else {
            let one = text.substring_char(i, i + 1);
            assert(one@ =~= seq![c]);
            out.append(one);
        }
        proof {
            let next = text@.subrange(0, i + 1);
            assert(next.drop_last() =~= text@.subrange(0, i as int));
            assert(next.last() == c);
        }
        i = i + 1;
        assert(out@ =~= start + "\""@ + debug_escape(text@.subrange(0, i as int)));
    }
    assert(text@.subrange(0, n as int) =~= text@);
    out.append("\"");
    assert(out@ =~= old(out)@ + debug_quoted(text@));
}

/// `prefix` starts `s`.
pub open spec fn has_prefix(s: Seq<char>, prefix: Seq<char>) -> bool {
    prefix.len() <= s.len() && s.subrange(0, prefix.len() as int) == prefix
}

/// A text begins with what was written first.
pub proof fn lemma_has_prefix_concat(prefix: Seq<char>, rest: Seq<char>)
    ensures
        has_prefix(prefix + rest, prefix),
{
    assert((prefix + rest).subrange(0, prefix.len() as int) =~= prefix);
}

/// Whether `text` starts with `prefix`, as `str::starts_with`.
pub fn starts_with_text(text: &str, prefix: &str) -> (r: bool)
    ensures
        r == has_prefix(text@, prefix@),
{
    let n = text.unicode_len();
    let m = prefix.unicode_len();
    if m > n {
        return false;
    }
    let mut i: usize = 0;
    while i < m
        invariant
            n == text@.len(),
            m == prefix@.len(),
            m <= n,
            i <= m,
            forall|j: int| 0 <= j < i ==> text@[j] == prefix@[j],
        decreases m - i,
    {
        if text.get_char(i) != prefix.get_char(i) {
            assert(text@.subrange(0, m as int)[i as int] != prefix@[i as int]);
            return false;
        }
        i = i + 1;
    }
    assert(text@.subrange(0, m as int) =~= prefix@);
    true
}

/// `text` holds two adjacent dots.
pub open spec fn has_dot_dot(s: Seq<char>) -> bool {
    exists|i: int| 0 <= i && i + 1 < s.len() && s[i] == '.' && #[trigger] s[i + 1] == '.'
}

/// Whether `text` contains `..`, as `str::contains("..")`.
pub fn contains_dot_dot(text: &str) -> (r: bool)
    ensures
        r == has_dot_dot(text@),
{
    let n = text.unicode_len();
    let mut i: usize = 0;
    while i < n && i + 1 < n
        invariant
            n == text@.len(),
            i <= n,
            forall|j: int| 0 <= j < i && j + 1 < n ==> !(text@[j] == '.' && #[trigger] text@[j + 1] == '.'),
        decreases n - i,
    {
        if text.get_char(i) == '.' && text.get_char(i + 1) == '.' {
            return true;
        }
        i = i + 1;
    }
    false
}

/// The first line of `s`, as `str::lines().next()`: the text before the
/// first line feed with one carriage return before it dropped; the whole
/// text when it has no line feed; nothing for empty text.
pub open spec fn first_line(s: Seq<char>) -> Option<Seq<char>> {
    if s.len() == 0 {
        None
    } else if split_on(s, '\n').len() == 1 {
        Some(s)
    } else {
        let p = split_on(s, '\n')[0];
        if p.len() > 0 && p.last() == '\r' {
            Some(p.drop_last())
        } else {
            Some(p)
        }
    }
}

/// The first line of `text`.
pub fn first_line_text(text: &str) -> (r: Option<&str>)
    ensures
        opt_str_view(r) == first_line(text@),
{
    if text.unicode_len() == 0 {
        return None;
    }
    let pieces = split_text(text, '\n');
    proof {
        lemma_split_on_nonempty(text@, '\n');
        lemma_split_on_single(text@, '\n');
    }
    if pieces.len() == 1 {
        return Some(text);
    }
    let p = pieces[0];
    assert(p@ == split_on(text@, '\n')[0]);
    let n = p.unicode_len();
    if n > 0 && p.get_char(n - 1) == '\r' {
        Some(p.substring_char(0, n - 1))
    } else {
        Some(p)
    }
}

proof fn lemma_split_on_single(s: Seq<char>, sep: char)
    ensures
        split_on(s, sep).len() == 1 ==> split_on(s, sep)[0] == s,
    decreases s.len(),
{
    if s.len() > 0 {
        lemma_split_on_single(s.drop_last(), sep);
        lemma_split_on_nonempty(s.drop_last(), sep);
        if split_on(s, sep).len() == 1 {
            assert(s.drop_last().push(s.last()) =~= s);
        }
    } else {
        assert(split_on(s, sep)[0] =~= s);
    }
}

/// The texts of a list of owned strings.
pub open spec fn string_views(v: Seq<String>) -> Seq<Seq<char>> {
    v.map_values(|s: String| s@)
}

/// The text an optional owned string holds.
pub open spec fn opt_text(o: Option<String>) -> Option<Seq<char>> {
    match o {
        Some(s) => Some(s@),
        None => None,
    }
}

/// The text an optional string slice holds.
pub open spec fn opt_str_view(o: Option<&str>) -> Option<Seq<char>> {
    match o {
        Some(s) => Some(s@),
        None => None,
    }
}

/// String equality by content.
pub fn str_eq(a: &str, b: &str) -> (r: bool)
    ensures
        r == (a@ == b@),
{
    let r = bytes_eq(a.as_bytes(), b.as_bytes());
    proof {
        lemma_bytes_eq_iff_chars_eq(a@, b@);
    }
    r
}

} // verus!

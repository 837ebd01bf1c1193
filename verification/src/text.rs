//! Character classes and small string building blocks shared by the lexer,
//! the error messages and the input history.
use vstd::prelude::*;

verus! {

/// `std::string::String::push`: afterwards the string holds the characters
/// it held before, followed by `ch`.
pub assume_specification[ std::string::String::push ](s: &mut std::string::String, ch: char)
    ensures
        final(s)@ == old(s)@.push(ch),
;

/// The Unicode `White_Space` property, the class that `char::is_whitespace` tests.
pub open spec fn is_white_space(c: char) -> bool {
    ||| '\u{9}' <= c <= '\u{d}'
    ||| c == ' '
    ||| c == '\u{85}'
    ||| c == '\u{a0}'
    ||| c == '\u{1680}'
    ||| '\u{2000}' <= c <= '\u{200a}'
    ||| c == '\u{2028}'
    ||| c == '\u{2029}'
    ||| c == '\u{202f}'
    ||| c == '\u{205f}'
    ||| c == '\u{3000}'
}

pub open spec fn is_digit(c: char) -> bool {
    '0' <= c <= '9'
}

pub open spec fn is_upper(c: char) -> bool {
    'A' <= c <= 'Z'
}

pub open spec fn is_lower(c: char) -> bool {
    'a' <= c <= 'z'
}

pub open spec fn is_alpha(c: char) -> bool {
    is_upper(c) || is_lower(c)
}

pub open spec fn is_alnum(c: char) -> bool {
    is_alpha(c) || is_digit(c)
}

/// ASCII lower case: an upper-case ASCII letter becomes its small letter,
/// every other character stays.
pub open spec fn lower(c: char) -> char {
    if is_upper(c) {
        ((c as u32) + 32) as char
    } else {
        c
    }
}

pub open spec fn lower_all(s: Seq<char>) -> Seq<char> {
    s.map_values(|c: char| lower(c))
}

/// ASCII upper case: a small ASCII letter becomes its capital letter, every
/// other character stays.
pub open spec fn upper(c: char) -> char {
    if is_lower(c) {
        ((c as u32) - 32) as char
    } else {
        c
    }
}

pub open spec fn upper_all(s: Seq<char>) -> Seq<char> {
    s.map_values(|c: char| upper(c))
}

pub fn is_whitespace(c: char) -> (r: bool)
    ensures
        r == is_white_space(c),
{
    ('\u{9}' <= c && c <= '\u{d}') || c == ' ' || c == '\u{85}' || c == '\u{a0}' || c
        == '\u{1680}' || ('\u{2000}' <= c && c <= '\u{200a}') || c == '\u{2028}' || c
        == '\u{2029}' || c == '\u{202f}' || c == '\u{205f}' || c == '\u{3000}'
}

pub fn is_ascii_digit(c: char) -> (r: bool)
    ensures
        r == is_digit(c),
{
    '0' <= c && c <= '9'
}

pub fn is_ascii_alphabetic(c: char) -> (r: bool)
    ensures
        r == is_alpha(c),
{
    ('A' <= c && c <= 'Z') || ('a' <= c && c <= 'z')
}

pub fn is_ascii_alphanumeric(c: char) -> (r: bool)
    ensures
        r == is_alnum(c),
{
    is_ascii_alphabetic(c) || is_ascii_digit(c)
}

pub fn to_ascii_lowercase(c: char) -> (r: char)
    ensures
        r == lower(c),
{
    if 'A' <= c && c <= 'Z' {
        let b: u8 = c as u8;
        (b + 32) as char
    } else {
        c
    }
}

/// The characters of `s`, in order.
pub fn chars_of(s: &str) -> (r: Vec<char>)
    ensures
        r@ == s@,
{
    let n = s.unicode_len();
    let mut out: Vec<char> = Vec::new();
    let mut i: usize = 0;
    while i < n
        invariant
            n == s@.len(),
            i <= n,
            out@ == s@.subrange(0, i as int),
        decreases n - i,
    {
        out.push(s.get_char(i));
        i += 1;
        assert(out@ =~= s@.subrange(0, i as int));
    }
    assert(out@ =~= s@);
    out
}

/// Appends the characters `chars[from..to]` to `out`.
pub fn push_range(out: &mut String, chars: &Vec<char>, from: usize, to: usize)
    requires
        from <= to <= chars.len(),
    ensures
        final(out)@ == old(out)@ + chars@.subrange(from as int, to as int),
{
    let mut i: usize = from;
    while i < to
        invariant
            from <= i <= to <= chars.len(),
            out@ == old(out)@ + chars@.subrange(from as int, i as int),
        decreases to - i,
    {
        out.push(chars[i]);
        i += 1;
        assert(out@ =~= old(out)@ + chars@.subrange(from as int, i as int));
    }
}

/// Index of the first character of `s` at or after `i` that is not white space,
/// or the length of `s` when there is none.
pub open spec fn skip_white_space(s: Seq<char>, i: nat) -> nat
    decreases s.len() - i,
{
    if i < s.len() && is_white_space(s[i as int]) {
        skip_white_space(s, i + 1)
    } else {
        i
    }
}

/// The end of `s` once the white space at its end is left out: the least `j`
/// with `j <= to` such that `s[j..to]` holds only white space.
pub open spec fn trim_end(s: Seq<char>, to: nat) -> nat
    decreases to,
{
    if to > 0 && to <= s.len() && is_white_space(s[to - 1]) {
        trim_end(s, (to - 1) as nat)
    } else {
        to
    }
}

/// `s` without the white space at its start and at its end (`str::trim`).
pub open spec fn trimmed(s: Seq<char>) -> Seq<char> {
    let start = skip_white_space(s, 0);
    let end = trim_end(s, s.len());
    if start < end {
        s.subrange(start as int, end as int)
    } else {
        Seq::empty()
    }
}

pub proof fn lemma_skip_white_space_bounds(s: Seq<char>, i: nat)
    requires
        i <= s.len(),
    ensures
        i <= skip_white_space(s, i) <= s.len(),
        skip_white_space(s, i) < s.len() ==> !is_white_space(s[skip_white_space(s, i) as int]),
        forall|k: int| i <= k < skip_white_space(s, i) ==> is_white_space(#[trigger] s[k]),
    decreases s.len() - i,
{
    if i < s.len() && is_white_space(s[i as int]) {
        lemma_skip_white_space_bounds(s, i + 1);
    }
}

pub proof fn lemma_trim_end_bounds(s: Seq<char>, to: nat)
    requires
        to <= s.len(),
    ensures
        trim_end(s, to) <= to,
        trim_end(s, to) > 0 ==> !is_white_space(s[trim_end(s, to) - 1]),
        forall|k: int| trim_end(s, to) <= k < to ==> is_white_space(#[trigger] s[k]),
    decreases to,
{
    if to > 0 && is_white_space(s[to - 1]) {
        lemma_trim_end_bounds(s, (to - 1) as nat);
    }
}

/// Trimming takes off the white space at both ends and nothing else: the
/// trimmed text is a stretch of `s` with only white space before and after it.
pub proof fn lemma_trimmed_stretch(s: Seq<char>)
    ensures
        exists|i: int, j: int|
            #![trigger s.subrange(i, j)]
            0 <= i <= j <= s.len() && trimmed(s) == s.subrange(i, j) && (forall|k: int|
                0 <= k < i ==> is_white_space(#[trigger] s[k])) && (forall|k: int|
                j <= k < s.len() ==> is_white_space(#[trigger] s[k])),
{
    lemma_skip_white_space_bounds(s, 0);
    lemma_trim_end_bounds(s, s.len());
    let start = skip_white_space(s, 0) as int;
    let end = trim_end(s, s.len()) as int;
    if start < end {
        assert(trimmed(s) == s.subrange(start, end));
    } else {
        assert(trimmed(s) =~= s.subrange(end, end));
        assert forall|k: int| 0 <= k < end implies is_white_space(#[trigger] s[k]) by {
            assert(k < start);
        }
    }
}

/// The trimmed text starts and ends with no white space, and trimming it
/// again leaves it as it is.
pub proof fn lemma_trimmed_twice(s: Seq<char>)
    ensures
        trimmed(s).len() > 0 ==> !is_white_space(trimmed(s)[0]) && !is_white_space(
            trimmed(s).last(),
        ),
        trimmed(trimmed(s)) == trimmed(s),
{
    lemma_skip_white_space_bounds(s, 0);
    lemma_trim_end_bounds(s, s.len());
    let t = trimmed(s);
    if t.len() > 0 {
        let start = skip_white_space(s, 0);
        let end = trim_end(s, s.len());
        assert(t[0] == s[start as int]);
        assert(t.last() == s[end - 1]);
        assert(skip_white_space(t, 0) == 0);
        assert(trim_end(t, t.len()) == t.len());
        assert(t.subrange(0, t.len() as int) =~= t);
    } else {
        assert(trimmed(t) =~= t);
    }
}

/// `str::trim`, as an owned string.
pub fn trim(s: &str) -> (r: String)
    ensures
        r@ == trimmed(s@),
{
    let chars = chars_of(s);
    let n = chars.len();
    let mut start: usize = 0;
    while start < n && is_whitespace(chars[start])
        invariant
            n == chars@.len(),
            start <= n,
            skip_white_space(chars@, start as nat) == skip_white_space(chars@, 0),
        decreases n - start,
    {
        start += 1;
    }
    let mut end: usize = n;
    while end > 0 && is_whitespace(chars[end - 1])
        invariant
            n == chars@.len(),
            end <= n,
            trim_end(chars@, end as nat) == trim_end(chars@, n as nat),
        decreases end,
    {
        end -= 1;
    }
    let mut out = String::new();
    if start < end {
        push_range(&mut out, &chars, start, end);
    }
    assert(out@ =~= trimmed(s@));
    out
}

} // verus!

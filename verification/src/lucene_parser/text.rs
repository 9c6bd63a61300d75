//! Character-level utilities shared by the lexer and the renderer: exact
//! string comparison, collecting the characters of a string slice,
//! rebuilding strings from character ranges, trimming Unicode whitespace
//! from the edges of an input, and printing numbers.

use vstd::prelude::*;

verus! {

/// Decides `a@ == b@` by comparing character by character.
pub fn str_eq(a: &str, b: &str) -> (r: bool)
    ensures
        r == (a@ == b@),
{
    let an = a.unicode_len();
    let bn = b.unicode_len();
    if an != bn {
        return false;
    }
    let mut i: usize = 0;
    while i < an
        invariant
            an == a@.len(),
            an == b@.len(),
            0 <= i <= an,
            forall|j: int| 0 <= j < i ==> a@[j] == b@[j],
        decreases an - i,
    {
        if a.get_char(i) != b.get_char(i) {
            return false;
        }
        i = i + 1;
    }
    proof {
        assert(a@ =~= b@);
    }
    true
}

/// Relies on `String::push`: appends exactly the given character to the end
/// of the string.
#[verifier::external_body]
pub fn push_char(s: &mut String, c: char)
    ensures
        final(s)@ == old(s)@.push(c),
{
    s.push(c);
}

/// The characters of `s`, as a vector.
pub fn chars_of(s: &str) -> (r: Vec<char>)
    ensures
        r@ == s@,
{
    let n = s.unicode_len();
    let mut out: Vec<char> = Vec::new();
    let mut i: usize = 0;
    while i < n
        invariant
            n == s@.len(),
            0 <= i <= n,
            out@ == s@.take(i as int),
        decreases n - i,
    {
        out.push(s.get_char(i));
        proof {
            assert(s@.take(i + 1) =~= s@.take(i as int).push(s@[i as int]));
        }
        i = i + 1;
    }
    proof {
        assert(s@.take(n as int) =~= s@);
    }
    out
}

/// The characters of `chars` between `a` (inclusive) and `b` (exclusive), as
/// a vector of their own.
pub fn subrange_chars(chars: &Vec<char>, a: usize, b: usize) -> (r: Vec<char>)
    requires
        a <= b <= chars@.len(),
    ensures
        r@ == chars@.subrange(a as int, b as int),
{
    let mut out: Vec<char> = Vec::new();
    let mut i: usize = a;
    while i < b
        invariant
            a <= i <= b <= chars@.len(),
            out@ == chars@.subrange(a as int, i as int),
        decreases b - i,
    {
        out.push(chars[i]);
        proof {
            assert(chars@.subrange(a as int, i + 1) =~= chars@.subrange(a as int, i as int).push(
                chars@[i as int],
            ));
        }
        i = i + 1;
    }
    out
}

/// The substring of `chars` between `a` (inclusive) and `b` (exclusive), as an
/// owned string.
pub fn string_of_range(chars: &Vec<char>, a: usize, b: usize) -> (r: String)
    requires
        a <= b <= chars@.len(),
    ensures
        r@ == chars@.subrange(a as int, b as int),
{
    let mut out = String::new();
    let mut i: usize = a;
    while i < b
        invariant
            a <= i <= b <= chars@.len(),
            out@ == chars@.subrange(a as int, i as int),
        decreases b - i,
    {
        push_char(&mut out, chars[i]);
        proof {
            assert(chars@.subrange(a as int, i + 1) =~= chars@.subrange(a as int, i as int).push(
                chars@[i as int],
            ));
        }
        i = i + 1;
    }
    out
}

// ---------- Unicode whitespace trimming ----------
/// The characters with the Unicode White_Space property, enumerated.
pub open spec fn is_unicode_ws_char(c: char) -> bool {
    c == '\u{0009}' || c == '\u{000A}' || c == '\u{000B}' || c == '\u{000C}' || c == '\u{000D}'
        || c == '\u{0020}' || c == '\u{0085}' || c == '\u{00A0}' || c == '\u{1680}' || c
        == '\u{2000}' || c == '\u{2001}' || c == '\u{2002}' || c == '\u{2003}' || c == '\u{2004}'
        || c == '\u{2005}' || c == '\u{2006}' || c == '\u{2007}' || c == '\u{2008}' || c
        == '\u{2009}' || c == '\u{200A}' || c == '\u{2028}' || c == '\u{2029}' || c == '\u{202F}'
        || c == '\u{205F}' || c == '\u{3000}'
}

/// Decides [`is_unicode_ws_char`] executably.
fn unicode_ws_char(c: char) -> (b: bool)
    ensures
        b == is_unicode_ws_char(c),
{
    c == '\u{0009}' || c == '\u{000A}' || c == '\u{000B}' || c == '\u{000C}' || c == '\u{000D}'
        || c == '\u{0020}' || c == '\u{0085}' || c == '\u{00A0}' || c == '\u{1680}' || c
        == '\u{2000}' || c == '\u{2001}' || c == '\u{2002}' || c == '\u{2003}' || c == '\u{2004}'
        || c == '\u{2005}' || c == '\u{2006}' || c == '\u{2007}' || c == '\u{2008}' || c
        == '\u{2009}' || c == '\u{200A}' || c == '\u{2028}' || c == '\u{2029}' || c == '\u{202F}'
        || c == '\u{205F}' || c == '\u{3000}'
}

/// End of the run of Unicode whitespace starting at `i`.
pub open spec fn ws_prefix_end(s: Seq<char>, i: int) -> int
    decreases s.len() - i,
    when 0 <= i <= s.len()
{
    if i < s.len() && is_unicode_ws_char(s[i]) {
        ws_prefix_end(s, i + 1)
    } else {
        i
    }
}

/// The whitespace prefix stays within the string and stops at the first
/// non-whitespace character.
pub proof fn lemma_ws_prefix_end(s: Seq<char>, i: int)
    requires
        0 <= i <= s.len(),
    ensures
        i <= ws_prefix_end(s, i) <= s.len(),
        forall|j: int| i <= j < ws_prefix_end(s, i) ==> is_unicode_ws_char(#[trigger] s[j]),
        ws_prefix_end(s, i) < s.len() ==> !is_unicode_ws_char(s[ws_prefix_end(s, i)]),
    decreases s.len() - i,
{
    if i < s.len() && is_unicode_ws_char(s[i]) {
        lemma_ws_prefix_end(s, i + 1);
    }
}

/// Start of the run of Unicode whitespace that ends just before `j`.
pub open spec fn ws_suffix_start(s: Seq<char>, j: int) -> int
    decreases j,
    when 0 <= j <= s.len()
{
    if j > 0 && is_unicode_ws_char(s[j - 1]) {
        ws_suffix_start(s, j - 1)
    } else {
        j
    }
}

/// The whitespace suffix stays within the string and stops just past the
/// last non-whitespace character.
pub proof fn lemma_ws_suffix_start(s: Seq<char>, j: int)
    requires
        0 <= j <= s.len(),
    ensures
        0 <= ws_suffix_start(s, j) <= j,
        forall|k: int| ws_suffix_start(s, j) <= k < j ==> is_unicode_ws_char(#[trigger] s[k]),
        ws_suffix_start(s, j) > 0 ==> !is_unicode_ws_char(s[ws_suffix_start(s, j) - 1]),
    decreases j,
{
    if j > 0 && is_unicode_ws_char(s[j - 1]) {
        lemma_ws_suffix_start(s, j - 1);
    }
}

/// The input with Unicode whitespace removed from both edges; interior
/// characters are untouched.
pub open spec fn unicode_trim(s: Seq<char>) -> Seq<char> {
    let a = ws_prefix_end(s, 0);
    let b = ws_suffix_start(s, s.len() as int);
    if a <= b {
        s.subrange(a, b)
    } else {
        Seq::empty()
    }
}

/// End of the leading whitespace run, executably.
fn scan_ws_prefix(chars: &Vec<char>) -> (a: usize)
    ensures
        a == ws_prefix_end(chars@, 0),
{
    let n = chars.len();
    let mut i: usize = 0;
    while i < n
        invariant
            0 <= i <= n,
            n == chars@.len(),
            ws_prefix_end(chars@, 0) == ws_prefix_end(chars@, i as int),
        decreases n - i,
    {
        if !unicode_ws_char(chars[i]) {
            return i;
        }
        i = i + 1;
    }
    i
}

/// Start of the trailing whitespace run, executably.
fn scan_ws_suffix(chars: &Vec<char>) -> (b: usize)
    ensures
        b == ws_suffix_start(chars@, chars@.len() as int),
{
    let n = chars.len();
    let mut j: usize = n;
    while j > 0
        invariant
            0 <= j <= n,
            n == chars@.len(),
            ws_suffix_start(chars@, n as int) == ws_suffix_start(chars@, j as int),
        decreases j,
    {
        if !unicode_ws_char(chars[j - 1]) {
            return j;
        }
        j = j - 1;
    }
    j
}

/// The bounds of the input once Unicode whitespace is trimmed from both
/// edges: the characters between them are exactly [`unicode_trim`] of the
/// input.
pub fn trim_bounds(chars: &Vec<char>) -> (r: (usize, usize))
    ensures
        r.0 <= r.1 <= chars@.len(),
        chars@.subrange(r.0 as int, r.1 as int) == unicode_trim(chars@),
{
    let a = scan_ws_prefix(chars);
    let b = scan_ws_suffix(chars);
    proof {
        lemma_ws_prefix_end(chars@, 0);
        lemma_ws_suffix_start(chars@, chars@.len() as int);
    }
    if a <= b {
        (a, b)
    } else {
        proof {
            assert(chars@.subrange(0, 0) =~= Seq::<char>::empty());
        }
        (0, 0)
    }
}

// ---------- printing numbers ----------
/// The decimal digit characters `0` to `9`.
pub open spec fn digit_char(d: nat) -> char {
    if d == 0 {
        '0'
    } else if d == 1 {
        '1'
    } else if d == 2 {
        '2'
    } else if d == 3 {
        '3'
    } else if d == 4 {
        '4'
    } else if d == 5 {
        '5'
    } else if d == 6 {
        '6'
    } else if d == 7 {
        '7'
    } else if d == 8 {
        '8'
    } else {
        '9'
    }
}

/// The decimal notation of a number: its digits in order, no sign, no
/// leading zero except for the number zero itself.
pub open spec fn decimal_digits(n: nat) -> Seq<char>
    decreases n,
{
    if n < 10 {
        seq![digit_char(n)]
    } else {
        decimal_digits(n / 10) + seq![digit_char(n % 10)]
    }
}

/// One decimal digit as a character, executably.
fn digit_char_of(d: usize) -> (c: char)
    requires
        d < 10,
    ensures
        c == digit_char(d as nat),
{
    if d == 0 {
        '0'
    } else if d == 1 {
        '1'
    } else if d == 2 {
        '2'
    } else if d == 3 {
        '3'
    } else if d == 4 {
        '4'
    } else if d == 5 {
        '5'
    } else if d == 6 {
        '6'
    } else if d == 7 {
        '7'
    } else if d == 8 {
        '8'
    } else {
        '9'
    }
}

/// The decimal notation of a number, exactly as [`decimal_digits`] states.
pub fn usize_to_string(x: usize) -> (r: String)
    ensures
        r@ == decimal_digits(x as nat),
    decreases x,
{
    if x < 10 {
        let mut s = String::new();
        push_char(&mut s, digit_char_of(x));
        proof {
            assert(s@ =~= seq![digit_char(x as nat)]);
        }
        s
    } else {
        let mut s = usize_to_string(x / 10);
        push_char(&mut s, digit_char_of(x % 10));
        proof {
            assert(s@ =~= decimal_digits((x / 10) as nat) + seq![digit_char((x % 10) as nat)]);
        }
        s
    }
}

} // verus!

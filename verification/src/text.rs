//! Text handling on sequences of characters: trimming, searching, splitting,
//! comparing and reading or writing numbers.
//!
//! Specifications speak of `Seq<char>`, the view of `str` and `String`; the
//! executable functions work on slices of characters.
use vstd::prelude::*;
use vstd::slice::slice_subrange;

verus! {

/// `String::push` appends one character.
pub assume_specification[ String::push ](s: &mut String, c: char)
    ensures
        final(s)@ == old(s)@.push(c),
;

/// What `str::to_lowercase` returns for a text.
pub uninterp spec fn unicode_lowercase(s: Seq<char>) -> Seq<char>;

/// What `str::to_uppercase` returns for a text.
pub uninterp spec fn unicode_uppercase(s: Seq<char>) -> Seq<char>;

/// Calls `str::to_lowercase`, the Unicode lower case of the whole text. The
/// contract names the result and adds that an ASCII text has its letters
/// replaced one for one.
#[verifier::external_body]
pub(crate) fn to_lowercase(s: &str) -> (r: String)
    ensures
        r@ == unicode_lowercase(s@),
        is_ascii_text(s@) ==> r@ == ascii_lowered(s@),
{
    s.to_lowercase()
}

/// Calls `str::to_uppercase`, the Unicode upper case of the whole text. The
/// contract names the result and adds that an ASCII text has its letters
/// replaced one for one.
#[verifier::external_body]
pub(crate) fn to_uppercase(s: &str) -> (r: String)
    ensures
        r@ == unicode_uppercase(s@),
        is_ascii_text(s@) ==> r@ == ascii_uppered(s@),
{
    s.to_uppercase()
}

/// Every character is an ASCII character.
pub open spec fn is_ascii_text(s: Seq<char>) -> bool {
    forall|i: int| 0 <= i < s.len() ==> (#[trigger] s[i] as u32) < 0x80
}

// ---------------------------------------------------------------------------
// Characters
// ---------------------------------------------------------------------------
/// The characters with the Unicode property `White_Space`.
pub open spec fn is_space(c: char) -> bool {
    let n = c as u32;
    ||| 0x09 <= n <= 0x0D
    ||| n == 0x20
    ||| n == 0x85
    ||| n == 0xA0
    ||| n == 0x1680
    ||| 0x2000 <= n <= 0x200A
    ||| n == 0x2028
    ||| n == 0x2029
    ||| n == 0x202F
    ||| n == 0x205F
    ||| n == 0x3000
}

/// Tells whether `c` is white space.
pub fn space(c: char) -> (r: bool)
    ensures
        r == is_space(c),
{
    let n: u32 = c as u32;
    (0x09 <= n && n <= 0x0D) || n == 0x20 || n == 0x85 || n == 0xA0 || n == 0x1680 || (0x2000 <= n
        && n <= 0x200A) || n == 0x2028 || n == 0x2029 || n == 0x202F || n == 0x205F || n == 0x3000
}

/// The ASCII lower case of a character; other characters stay.
pub open spec fn lower_char(c: char) -> char {
    if 'A' <= c && c <= 'Z' {
        ((c as u32) + 32) as char
    } else {
        c
    }
}

/// The ASCII upper case of a character; other characters stay.
pub open spec fn upper_char(c: char) -> char {
    if 'a' <= c && c <= 'z' {
        ((c as u32) - 32) as char
    } else {
        c
    }
}

/// The ASCII lower case of `c`.
pub fn lower(c: char) -> (r: char)
    ensures
        r == lower_char(c),
{
    if 'A' <= c && c <= 'Z' {
        (c as u8 + 32) as char
    } else {
        c
    }
}

/// The ASCII upper case of `c`.
pub fn upper(c: char) -> (r: char)
    ensures
        r == upper_char(c),
{
    if 'a' <= c && c <= 'z' {
        (c as u8 - 32) as char
    } else {
        c
    }
}

/// A text with its ASCII letters in lower case.
pub open spec fn ascii_lowered(s: Seq<char>) -> Seq<char> {
    Seq::new(s.len(), |i: int| lower_char(s[i]))
}

/// A text with its ASCII letters in upper case.
pub open spec fn ascii_uppered(s: Seq<char>) -> Seq<char> {
    Seq::new(s.len(), |i: int| upper_char(s[i]))
}

/// Equality up to the case of ASCII letters.
pub open spec fn same_ignoring_case(a: Seq<char>, b: Seq<char>) -> bool {
    ascii_lowered(a) == ascii_lowered(b)
}

/// The view of an optional text.
pub open spec fn option_view(t: Option<String>) -> Option<Seq<char>> {
    match t {
        Some(s) => Some(s@),
        None => None,
    }
}

/// A set of characters to search for or to trim.
#[derive(Clone, Copy)]
pub enum Class {
    /// White space.
    Space,
    /// One character.
    Is(char),
    /// White space and one more character.
    SpaceOr(char),
    /// One of two characters.
    Either(char, char),
}

/// Membership in a class.
pub open spec fn in_class(c: char, k: Class) -> bool {
    match k {
        Class::Space => is_space(c),
        Class::Is(d) => c == d,
        Class::SpaceOr(d) => is_space(c) || c == d,
        Class::Either(d, e) => c == d || c == e,
    }
}

/// Tells whether `c` belongs to `k`.
pub fn belongs(c: char, k: Class) -> (r: bool)
    ensures
        r == in_class(c, k),
{
    match k {
        Class::Space => space(c),
        Class::Is(d) => c == d,
        Class::SpaceOr(d) => space(c) || c == d,
        Class::Either(d, e) => c == d || c == e,
    }
}

// ---------------------------------------------------------------------------
// Conversions and comparison
// ---------------------------------------------------------------------------
/// The characters of a string slice.
pub fn chars_of(s: &str) -> (r: Vec<char>)
    ensures
        r@ == s@,
{
    let mut r: Vec<char> = Vec::new();
    for c in it: s.chars()
        invariant
            r@ == s@.take(it.index()),
            it.seq() == s@,
    {
        r.push(c);
    }
    r
}

/// The string made of some characters.
pub fn string_of(s: &[char]) -> (r: String)
    ensures
        r@ == s@,
{
    let mut r: String = String::new();
    for i in 0..s.len()
        invariant
            r@ == s@.take(i as int),
    {
        r.push(s[i]);
    }
    r
}

/// A copy of some characters.
pub fn copied(s: &[char]) -> (r: Vec<char>)
    ensures
        r@ == s@,
{
    let mut r: Vec<char> = Vec::new();
    for i in 0..s.len()
        invariant
            r@ == s@.take(i as int),
    {
        r.push(s[i]);
    }
    r
}

/// Appends characters to a string.
pub fn append_chars(out: &mut String, s: &[char])
    ensures
        final(out)@ == old(out)@ + s@,
{
    let ghost before = out@;
    for i in 0..s.len()
        invariant
            out@ == before + s@.take(i as int),
    {
        out.push(s[i]);
    }
}

/// The tail of a slice from `i` on.
pub fn from_index<'a>(s: &'a [char], i: usize) -> (r: &'a [char])
    requires
        i <= s@.len(),
    ensures
        r@ == s@.skip(i as int),
{
    slice_subrange(s, i, s.len())
}

/// The head of a slice up to `i`.
pub fn up_to<'a>(s: &'a [char], i: usize) -> (r: &'a [char])
    requires
        i <= s@.len(),
    ensures
        r@ == s@.take(i as int),
{
    slice_subrange(s, 0, i)
}

/// Tells whether the characters `a` spell `b`.
pub fn is_text(a: &[char], b: &str) -> (r: bool)
    ensures
        r == (a@ == b@),
{
    let mut n: usize = 0;
    for c in it: b.chars()
        invariant
            it.seq() == b@,
            n == it.index(),
            n <= a@.len(),
            a@.take(n as int) == b@.take(n as int),
    {
        if n >= a.len() {
            return false;
        }
        if a[n] != c {
            proof {
                assert(b@[n as int] == c);
            }
            return false;
        }
        proof {
            assert(a@.take(n + 1) =~= a@.take(n as int).push(a@[n as int]));
            assert(b@.take(n + 1) =~= b@.take(n as int).push(b@[n as int]));
        }
        n = n + 1;
    }
    proof {
        assert(b@.take(n as int) =~= b@);
        if n == a@.len() {
            assert(a@.take(n as int) =~= a@);
        }
    }
    n == a.len()
}

/// Tells whether two sequences of characters are the same.
pub fn same_chars(a: &[char], b: &[char]) -> (r: bool)
    ensures
        r == (a@ == b@),
{
    if a.len() != b.len() {
        return false;
    }
    for i in 0..a.len()
        invariant
            a@.len() == b@.len(),
            forall|j: int| 0 <= j < i ==> a@[j] == b@[j],
    {
        if a[i] != b[i] {
            return false;
        }
    }
    proof {
        assert(a@ =~= b@);
    }
    true
}

/// Tells whether two strings are the same.
pub fn same_str(a: &str, b: &str) -> (r: bool)
    ensures
        r == (a@ == b@),
{
    let a: Vec<char> = chars_of(a);
    is_text(&a, b)
}

/// Tells whether two texts agree up to the case of ASCII letters.
pub fn same_any_case(a: &[char], b: &[char]) -> (r: bool)
    ensures
        r == same_ignoring_case(a@, b@),
{
    if a.len() != b.len() {
        proof {
            assert(ascii_lowered(a@).len() != ascii_lowered(b@).len());
        }
        return false;
    }
    for i in 0..a.len()
        invariant
            a@.len() == b@.len(),
            forall|j: int| 0 <= j < i ==> lower_char(a@[j]) == lower_char(b@[j]),
    {
        if lower(a[i]) != lower(b[i]) {
            proof {
                assert(ascii_lowered(a@)[i as int] != ascii_lowered(b@)[i as int]);
            }
            return false;
        }
    }
    proof {
        assert(ascii_lowered(a@) =~= ascii_lowered(b@));
    }
    true
}

/// Tells whether two strings agree up to the case of ASCII letters.
pub fn same_str_any_case(a: &str, b: &str) -> (r: bool)
    ensures
        r == same_ignoring_case(a@, b@),
{
    let a: Vec<char> = chars_of(a);
    let b: Vec<char> = chars_of(b);
    same_any_case(&a, &b)
}

/// The text in ASCII lower case.
pub fn ascii_lowercase(s: &[char]) -> (r: Vec<char>)
    ensures
        r@ == ascii_lowered(s@),
{
    let mut r: Vec<char> = Vec::new();
    for i in 0..s.len()
        invariant
            r@ == ascii_lowered(s@).take(i as int),
    {
        r.push(lower(s[i]));
    }
    proof {
        assert(ascii_lowered(s@).take(s@.len() as int) =~= ascii_lowered(s@));
    }
    r
}

/// The text in ASCII upper case.
pub fn ascii_uppercase(s: &[char]) -> (r: Vec<char>)
    ensures
        r@ == ascii_uppered(s@),
{
    let mut r: Vec<char> = Vec::new();
    for i in 0..s.len()
        invariant
            r@ == ascii_uppered(s@).take(i as int),
    {
        r.push(upper(s[i]));
    }
    proof {
        assert(ascii_uppered(s@).take(s@.len() as int) =~= ascii_uppered(s@));
    }
    r
}

/// A text in lower case: letter by letter where it is ASCII.
pub open spec fn lowered(s: Seq<char>) -> Seq<char> {
    if is_ascii_text(s) {
        ascii_lowered(s)
    } else {
        unicode_lowercase(s)
    }
}

/// A text in upper case: letter by letter where it is ASCII.
pub open spec fn uppered(s: Seq<char>) -> Seq<char> {
    if is_ascii_text(s) {
        ascii_uppered(s)
    } else {
        unicode_uppercase(s)
    }
}

/// Some characters in lower case.
pub fn lowercase(s: &[char]) -> (r: Vec<char>)
    ensures
        r@ == lowered(s@),
{
    let t: String = string_of(s);
    let l: String = to_lowercase(t.as_str());
    chars_of(l.as_str())
}

/// Some characters in upper case.
pub fn uppercase(s: &[char]) -> (r: Vec<char>)
    ensures
        r@ == uppered(s@),
{
    let t: String = string_of(s);
    let l: String = to_uppercase(t.as_str());
    chars_of(l.as_str())
}

// ---------------------------------------------------------------------------
// Searching
// ---------------------------------------------------------------------------
/// Index of the first character of `s` in the class `k`; the length of `s` if
/// there is none.
pub open spec fn first_in(s: Seq<char>, k: Class) -> int
    decreases s.len(),
{
    if s.len() == 0 || in_class(s[0], k) {
        0
    } else {
        1 + first_in(s.skip(1), k)
    }
}

/// Index of the last character of `s` in the class `k`; -1 if there is none.
pub open spec fn last_in(s: Seq<char>, k: Class) -> int
    decreases s.len(),
{
    if s.len() == 0 {
        -1
    } else if in_class(s.last(), k) {
        s.len() - 1
    } else {
        last_in(s.drop_last(), k)
    }
}

/// `first_in` lies within the text, and is the first position of its class.
pub proof fn lemma_first_in(s: Seq<char>, k: Class)
    ensures
        0 <= first_in(s, k) <= s.len(),
        first_in(s, k) < s.len() ==> in_class(s[first_in(s, k)], k),
        forall|i: int| 0 <= i < first_in(s, k) ==> !in_class(#[trigger] s[i], k),
    decreases s.len(),
{
    if s.len() == 0 || in_class(s[0], k) {
    } else {
        lemma_first_in(s.skip(1), k);
        assert forall|i: int| 0 <= i < first_in(s, k) implies !in_class(#[trigger] s[i], k) by {
            if i > 0 {
                assert(s.skip(1)[i - 1] == s[i]);
            }
        }
    }
}

/// The position that `first_in` gives is determined by its property.
pub proof fn lemma_first_in_is(s: Seq<char>, k: Class, n: int)
    requires
        0 <= n <= s.len(),
        n < s.len() ==> in_class(s[n], k),
        forall|i: int| 0 <= i < n ==> !in_class(#[trigger] s[i], k),
    ensures
        first_in(s, k) == n,
{
    lemma_first_in(s, k);
    let m = first_in(s, k);
    if m < n {
        assert(!in_class(s[m], k));
    } else if n < m {
        assert(!in_class(s[n], k));
    }
}

/// `last_in` lies within the text or is -1.
pub proof fn lemma_last_in(s: Seq<char>, k: Class)
    ensures
        -1 <= last_in(s, k) < s.len(),
        last_in(s, k) >= 0 ==> in_class(s[last_in(s, k)], k),
    decreases s.len(),
{
    if s.len() == 0 || in_class(s.last(), k) {
    } else {
        lemma_last_in(s.drop_last(), k);
    }
}

/// Finds the first character of the class `k`.
pub fn find(s: &[char], k: Class) -> (r: usize)
    ensures
        r == first_in(s@, k),
        r <= s@.len(),
        r < s@.len() ==> in_class(s@[r as int], k),
{
    let mut i: usize = 0;
    while i < s.len()
        invariant
            i <= s@.len(),
            forall|j: int| 0 <= j < i ==> !in_class(#[trigger] s@[j], k),
        decreases s@.len() - i,
    {
        if belongs(s[i], k) {
            proof {
                lemma_first_in_is(s@, k, i as int);
            }
            return i;
        }
        i = i + 1;
    }
    proof {
        lemma_first_in_is(s@, k, i as int);
    }
    i
}

/// Finds the last character of the class `k`.
pub fn rfind(s: &[char], k: Class) -> (r: Option<usize>)
    ensures
        match r {
            Some(i) => i == last_in(s@, k) && i < s@.len(),
            None => last_in(s@, k) == -1,
        },
{
    let mut i: usize = s.len();
    proof {
        assert(s@.take(i as int) =~= s@);
    }
    while i > 0
        invariant
            i <= s@.len(),
            last_in(s@, k) == last_in(s@.take(i as int), k),
        decreases i,
    {
        proof {
            assert(s@.take(i as int).drop_last() =~= s@.take(i - 1));
            assert(s@.take(i as int).last() == s@[i - 1]);
        }
        i = i - 1;
        if belongs(s[i], k) {
            return Some(i);
        }
    }
    None
}

/// Position of the first occurrence of `pat` in `s`.
pub open spec fn position(s: Seq<char>, pat: Seq<char>) -> Option<int>
    decreases s.len(),
{
    if pat.len() > s.len() {
        None
    } else if s.take(pat.len() as int) == pat {
        Some(0)
    } else if s.len() == 0 {
        None
    } else {
        match position(s.skip(1), pat) {
            Some(i) => Some(i + 1),
            None => None,
        }
    }
}

/// An occurrence lies within the text.
pub proof fn lemma_position(s: Seq<char>, pat: Seq<char>)
    ensures
        position(s, pat) matches Some(i) ==> 0 <= i && i + pat.len() <= s.len() && s.subrange(
            i,
            i + pat.len(),
        ) == pat,
    decreases s.len(),
{
    if pat.len() > s.len() {
    } else if s.take(pat.len() as int) == pat {
        assert(s.subrange(0, pat.len() as int) =~= s.take(pat.len() as int));
    } else if s.len() == 0 {
    } else {
        lemma_position(s.skip(1), pat);
        if let Some(i) = position(s.skip(1), pat) {
            assert(s.subrange(i + 1, i + 1 + pat.len()) =~= s.skip(1).subrange(i, i + pat.len()));
        }
    }
}

/// Tells whether `s` begins with `pat`.
pub fn starts_with(s: &[char], pat: &[char]) -> (r: bool)
    ensures
        r == (pat@.len() <= s@.len() && s@.take(pat@.len() as int) == pat@),
{
    if pat.len() > s.len() {
        return false;
    }
    same_chars(up_to(s, pat.len()), pat)
}

/// Finds the first occurrence of `pat`.
pub fn find_text(s: &[char], pat: &[char]) -> (r: Option<usize>)
    ensures
        match r {
            Some(i) => position(s@, pat@) == Some(i as int) && i + pat@.len() <= s@.len(),
            None => position(s@, pat@) is None,
        },
{
    let n: usize = s.len();
    let mut i: usize = 0;
    proof {
        assert(s@.skip(0) =~= s@);
    }
    loop
        invariant
            n == s@.len(),
            i <= n,
            match position(s@.skip(i as int), pat@) {
                Some(j) => position(s@, pat@) == Some(j + i),
                None => position(s@, pat@) is None,
            },
        decreases s@.len() - i,
    {
        let rest: &[char] = from_index(s, i);
        if rest.len() < pat.len() {
            return None;
        }
        if starts_with(rest, pat) {
            return Some(i);
        }
        if rest.len() == 0 {
            return None;
        }
        proof {
            assert(rest@.skip(1) =~= s@.skip(i + 1));
        }
        i = i + 1;
    }
}

/// `s` with every occurrence of `pat`, from left to right and without overlap,
/// replaced by `rep`.
pub open spec fn replaced(s: Seq<char>, pat: Seq<char>, rep: Seq<char>) -> Seq<char>
    decreases s.len(),
    via replaced_decreases
{
    if pat.len() == 0 {
        s
    } else {
        match position(s, pat) {
            Some(i) => s.take(i) + rep + replaced(s.skip(i + pat.len()), pat, rep),
            None => s,
        }
    }
}

#[via_fn]
proof fn replaced_decreases(s: Seq<char>, pat: Seq<char>, rep: Seq<char>) {
    lemma_position(s, pat);
}

/// Replaces every occurrence of a text that is not empty.
pub fn replace(s: &[char], pat: &[char], rep: &[char]) -> (r: Vec<char>)
    requires
        pat@.len() > 0,
    ensures
        r@ == replaced(s@, pat@, rep@),
{
    let n: usize = s.len();
    let mut out: Vec<char> = Vec::new();
    let mut i: usize = 0;
    proof {
        assert(s@.skip(0) =~= s@);
        assert(out@ + replaced(s@, pat@, rep@) =~= replaced(s@, pat@, rep@));
    }
    loop
        invariant
            pat@.len() > 0,
            n == s@.len(),
            i <= n,
            out@ + replaced(s@.skip(i as int), pat@, rep@) == replaced(s@, pat@, rep@),
        decreases s@.len() - i,
    {
        let rest: &[char] = from_index(s, i);
        match find_text(rest, pat) {
            Some(j) => {
                let ghost before = out@;
                push_all(&mut out, up_to(rest, j));
                push_all(&mut out, rep);
                proof {
                    assert(rest@.skip(j + pat@.len()) =~= s@.skip(i + j + pat@.len()));
                    assert(before + (rest@.take(j as int) + rep@ + replaced(
                        rest@.skip(j + pat@.len()),
                        pat@,
                        rep@,
                    )) =~= before + rest@.take(j as int) + rep@ + replaced(
                        rest@.skip(j + pat@.len()),
                        pat@,
                        rep@,
                    ));
                }
                i = i + j + pat.len();
            },
            None => {
                push_all(&mut out, rest);
                return out;
            },
        }
    }
}

/// Appends characters to a vector.
pub fn push_all(out: &mut Vec<char>, s: &[char])
    ensures
        final(out)@ == old(out)@ + s@,
{
    let ghost before = out@;
    for i in 0..s.len()
        invariant
            out@ == before + s@.take(i as int),
    {
        out.push(s[i]);
    }
}

// ---------------------------------------------------------------------------
// Trimming
// ---------------------------------------------------------------------------
/// `s` without its leading characters of the class `k`.
pub open spec fn trimmed_start(s: Seq<char>, k: Class) -> Seq<char>
    decreases s.len(),
{
    if s.len() > 0 && in_class(s[0], k) {
        trimmed_start(s.skip(1), k)
    } else {
        s
    }
}

/// `s` without its trailing characters of the class `k`.
pub open spec fn trimmed_end(s: Seq<char>, k: Class) -> Seq<char>
    decreases s.len(),
{
    if s.len() > 0 && in_class(s.last(), k) {
        trimmed_end(s.drop_last(), k)
    } else {
        s
    }
}

/// `s` without the white space around it.
pub open spec fn trimmed(s: Seq<char>) -> Seq<char> {
    trimmed_end(trimmed_start(s, Class::Space), Class::Space)
}

/// Drops the leading characters of the class `k`.
pub fn trim_start<'a>(s: &'a [char], k: Class) -> (r: &'a [char])
    ensures
        r@ == trimmed_start(s@, k),
        r@.len() <= s@.len(),
{
    let mut i: usize = 0;
    proof {
        assert(s@.skip(0) =~= s@);
    }
    while i < s.len() && belongs(s[i], k)
        invariant
            i <= s@.len(),
            trimmed_start(s@, k) == trimmed_start(s@.skip(i as int), k),
        decreases s@.len() - i,
    {
        proof {
            assert(s@.skip(i as int).skip(1) =~= s@.skip(i + 1));
        }
        i = i + 1;
    }
    from_index(s, i)
}

/// Drops the trailing characters of the class `k`.
pub fn trim_end<'a>(s: &'a [char], k: Class) -> (r: &'a [char])
    ensures
        r@ == trimmed_end(s@, k),
        r@.len() <= s@.len(),
{
    let mut i: usize = s.len();
    proof {
        assert(s@.take(i as int) =~= s@);
    }
    while i > 0 && belongs(s[i - 1], k)
        invariant
            i <= s@.len(),
            trimmed_end(s@, k) == trimmed_end(s@.take(i as int), k),
        decreases i,
    {
        proof {
            assert(s@.take(i as int).drop_last() =~= s@.take(i - 1));
        }
        i = i - 1;
    }
    up_to(s, i)
}

/// Drops the white space around a text.
pub fn trim<'a>(s: &'a [char]) -> (r: &'a [char])
    ensures
        r@ == trimmed(s@),
        r@.len() <= s@.len(),
{
    trim_end(trim_start(s, Class::Space), Class::Space)
}

/// `s` without its white space.
pub open spec fn without_space(s: Seq<char>) -> Seq<char>
    decreases s.len(),
{
    if s.len() == 0 {
        s
    } else if is_space(s.last()) {
        without_space(s.drop_last())
    } else {
        without_space(s.drop_last()).push(s.last())
    }
}

/// Drops all white space.
pub fn remove_space(s: &[char]) -> (r: Vec<char>)
    ensures
        r@ == without_space(s@),
{
    let mut out: Vec<char> = Vec::new();
    for i in 0..s.len()
        invariant
            out@ == without_space(s@.take(i as int)),
    {
        proof {
            assert(s@.take(i + 1).drop_last() =~= s@.take(i as int));
        }
        if !space(s[i]) {
            out.push(s[i]);
        }
    }
    proof {
        assert(s@.take(s@.len() as int) =~= s@);
    }
    out
}

// ---------------------------------------------------------------------------
// Splitting
// ---------------------------------------------------------------------------
/// The views of some slices.
pub open spec fn views(v: Seq<&[char]>) -> Seq<Seq<char>> {
    Seq::new(v.len(), |i: int| v[i]@)
}

/// The views of some strings.
pub open spec fn texts(v: Seq<String>) -> Seq<Seq<char>> {
    Seq::new(v.len(), |i: int| v[i]@)
}

/// The pieces of `s` between occurrences of `c`.
pub open spec fn pieces(s: Seq<char>, c: char) -> Seq<Seq<char>>
    decreases s.len(),
    via pieces_decreases
{
    let i = first_in(s, Class::Is(c));
    if i >= s.len() {
        seq![s]
    } else {
        seq![s.take(i)] + pieces(s.skip(i + 1), c)
    }
}

#[via_fn]
proof fn pieces_decreases(s: Seq<char>, c: char) {
    lemma_first_in(s, Class::Is(c));
}

/// There is at least one piece.
pub proof fn lemma_pieces_len(s: Seq<char>, c: char)
    ensures
        pieces(s, c).len() >= 1,
    decreases s.len(),
{
    lemma_first_in(s, Class::Is(c));
    let i = first_in(s, Class::Is(c));
    if i < s.len() {
        lemma_pieces_len(s.skip(i + 1), c);
    }
}

/// Splits a text at every occurrence of `c`.
pub fn split<'a>(s: &'a [char], c: char) -> (r: Vec<&'a [char]>)
    ensures
        views(r@) == pieces(s@, c),
        r@.len() >= 1,
{
    let mut out: Vec<&'a [char]> = Vec::new();
    let mut rest: &'a [char] = s;
    proof {
        assert(views(out@) + pieces(rest@, c) =~= pieces(s@, c));
    }
    loop
        invariant
            views(out@) + pieces(rest@, c) == pieces(s@, c),
        decreases rest@.len(),
    {
        let i: usize = find(rest, Class::Is(c));
        let ghost before = out@;
        if i >= rest.len() {
            out.push(rest);
            proof {
                assert(views(out@) =~= views(before) + seq![rest@]);
            }
            return out;
        }
        let piece: &'a [char] = up_to(rest, i);
        let tail: &'a [char] = from_index(rest, i + 1);
        out.push(piece);
        proof {
            assert(views(out@) =~= views(before) + seq![piece@]);
            assert(views(before) + (seq![piece@] + pieces(tail@, c)) =~= views(before)
                + seq![piece@] + pieces(tail@, c));
        }
        rest = tail;
    }
}

/// The two parts of `s` around its first character of the class `k`.
pub open spec fn cut(s: Seq<char>, k: Class) -> Option<(Seq<char>, Seq<char>)> {
    let i = first_in(s, k);
    if i >= s.len() {
        None
    } else {
        Some((s.take(i), s.skip(i + 1)))
    }
}

/// Splits a text around its first character of the class `k`.
pub fn split_once<'a>(s: &'a [char], k: Class) -> (r: Option<(&'a [char], &'a [char])>)
    ensures
        match r {
            Some((a, b)) => cut(s@, k) == Some((a@, b@)) && a@.len() + b@.len() < s@.len(),
            None => cut(s@, k) is None,
        },
{
    let i: usize = find(s, k);
    if i >= s.len() {
        None
    } else {
        Some((up_to(s, i), from_index(s, i + 1)))
    }
}

/// A piece that ended at a line feed, without the carriage return before it.
pub open spec fn without_return(s: Seq<char>) -> Seq<char> {
    if s.len() > 0 && s.last() == '\r' {
        s.drop_last()
    } else {
        s
    }
}

/// The lines of a text. A line ends at a line feed or at a carriage return and
/// a line feed; the last line needs no end.
pub open spec fn lines_of(s: Seq<char>) -> Seq<Seq<char>>
    decreases s.len(),
    via lines_decreases
{
    let i = first_in(s, Class::Is('\n'));
    if s.len() == 0 {
        Seq::empty()
    } else if i >= s.len() {
        seq![s]
    } else {
        seq![without_return(s.take(i))] + lines_of(s.skip(i + 1))
    }
}

#[via_fn]
proof fn lines_decreases(s: Seq<char>) {
    lemma_first_in(s, Class::Is('\n'));
}

/// Where a text ends a line, the lines of what is appended to it follow its
/// own.
pub proof fn lemma_lines_append(a: Seq<char>, b: Seq<char>)
    requires
        a.len() == 0 || a.last() == '\n',
    ensures
        lines_of(a + b) == lines_of(a) + lines_of(b),
    decreases a.len(),
{
    let k = Class::Is('\n');
    if a.len() == 0 {
        assert(a + b =~= b);
        assert(lines_of(a) + lines_of(b) =~= lines_of(b));
    } else {
        lemma_first_in(a, k);
        let i = first_in(a, k);
        if i >= a.len() {
            assert(!in_class(a[a.len() - 1], k));
        }
        assert forall|j: int| 0 <= j < i implies !in_class(#[trigger] (a + b)[j], k) by {
            assert(!in_class(a[j], k));
        }
        assert(in_class((a + b)[i], k));
        lemma_first_in_is(a + b, k, i);
        lemma_lines_append(a.skip(i + 1), b);
        assert((a + b).take(i) =~= a.take(i));
        assert((a + b).skip(i + 1) =~= a.skip(i + 1) + b);
        let head = seq![without_return(a.take(i))];
        assert(head + (lines_of(a.skip(i + 1)) + lines_of(b)) =~= (head + lines_of(a.skip(i + 1)))
            + lines_of(b));
    }
}

/// A line that does not end in a carriage return is the only one of itself and
/// a line feed.
pub proof fn lemma_one_line(s: Seq<char>)
    requires
        forall|i: int| 0 <= i < s.len() ==> #[trigger] s[i] != '\n',
        s.len() == 0 || s.last() != '\r',
    ensures
        lines_of(s.push('\n')) == seq![s],
{
    let t = s.push('\n');
    assert forall|j: int| 0 <= j < s.len() implies !in_class(
        #[trigger] t[j],
        Class::Is('\n'),
    ) by {
        assert(s[j] != '\n');
    }
    lemma_first_in_is(t, Class::Is('\n'), s.len() as int);
    assert(t.take(s.len() as int) =~= s);
    assert(t.skip(s.len() as int + 1) =~= Seq::<char>::empty());
    assert(lines_of(Seq::<char>::empty()) =~= Seq::<Seq<char>>::empty());
    assert(without_return(s) == s);
    assert(lines_of(t) =~= seq![s]);
}

/// Splits a text into its lines.
pub fn lines<'a>(s: &'a [char]) -> (r: Vec<&'a [char]>)
    ensures
        views(r@) == lines_of(s@),
{
    let mut out: Vec<&'a [char]> = Vec::new();
    let mut rest: &'a [char] = s;
    proof {
        assert(views(out@) + lines_of(rest@) =~= lines_of(s@));
    }
    while rest.len() > 0
        invariant
            views(out@) + lines_of(rest@) == lines_of(s@),
        decreases rest@.len(),
    {
        let i: usize = find(rest, Class::Is('\n'));
        let ghost before = out@;
        if i >= rest.len() {
            out.push(rest);
            proof {
                assert(views(out@) =~= views(before) + seq![rest@]);
            }
            return out;
        }
        let mut line: &'a [char] = up_to(rest, i);
        if i > 0 && line[i - 1] == '\r' {
            line = up_to(line, i - 1);
            proof {
                assert(line@ =~= rest@.take(i as int).drop_last());
            }
        }
        let tail: &'a [char] = from_index(rest, i + 1);
        out.push(line);
        proof {
            assert(line@ == without_return(rest@.take(i as int)));
            assert(views(out@) =~= views(before) + seq![line@]);
            assert(views(before) + (seq![line@] + lines_of(tail@)) =~= views(before) + seq![line@]
                + lines_of(tail@));
        }
        rest = tail;
    }
    proof {
        assert(views(out@) + lines_of(rest@) =~= views(out@));
    }
    out
}

/// The maximal runs of characters that are not white space.
pub open spec fn words_of(s: Seq<char>) -> Seq<Seq<char>>
    decreases s.len(),
    via words_decreases
{
    let t = trimmed_start(s, Class::Space);
    if t.len() == 0 {
        Seq::empty()
    } else {
        let i = first_in(t, Class::Space);
        seq![t.take(i)] + words_of(t.skip(i))
    }
}

#[via_fn]
proof fn words_decreases(s: Seq<char>) {
    lemma_trimmed_start(s, Class::Space);
    lemma_first_in(trimmed_start(s, Class::Space), Class::Space);
}

/// What is left after trimming is no longer and begins outside the class.
pub proof fn lemma_trimmed_start(s: Seq<char>, k: Class)
    ensures
        trimmed_start(s, k).len() <= s.len(),
        trimmed_start(s, k).len() > 0 ==> !in_class(trimmed_start(s, k)[0], k),
    decreases s.len(),
{
    if s.len() > 0 && in_class(s[0], k) {
        lemma_trimmed_start(s.skip(1), k);
    }
}

/// Splits a text at white space.
pub fn words<'a>(s: &'a [char]) -> (r: Vec<&'a [char]>)
    ensures
        views(r@) == words_of(s@),
{
    let mut out: Vec<&'a [char]> = Vec::new();
    let mut rest: &'a [char] = s;
    proof {
        assert(views(out@) + words_of(rest@) =~= words_of(s@));
    }
    loop
        invariant
            views(out@) + words_of(rest@) == words_of(s@),
        decreases rest@.len(),
    {
        proof {
            lemma_trimmed_start(rest@, Class::Space);
        }
        let t: &'a [char] = trim_start(rest, Class::Space);
        if t.len() == 0 {
            proof {
                assert(views(out@) + words_of(rest@) =~= views(out@));
            }
            return out;
        }
        let i: usize = find(t, Class::Space);
        let ghost before = out@;
        let word: &'a [char] = up_to(t, i);
        let tail: &'a [char] = from_index(t, i);
        out.push(word);
        proof {
            lemma_first_in(t@, Class::Space);
            assert(views(out@) =~= views(before) + seq![word@]);
            assert(views(before) + (seq![word@] + words_of(tail@)) =~= views(before) + seq![word@]
                + words_of(tail@));
        }
        rest = tail;
    }
}

/// All of some texts, one after the other.
pub open spec fn joined(parts: Seq<Seq<char>>) -> Seq<char>
    decreases parts.len(),
{
    if parts.len() == 0 {
        Seq::empty()
    } else {
        joined(parts.drop_last()) + parts.last()
    }
}

/// Some texts with a separator between them.
pub open spec fn joined_with(parts: Seq<Seq<char>>, sep: Seq<char>) -> Seq<char>
    decreases parts.len(),
{
    if parts.len() == 0 {
        Seq::empty()
    } else if parts.len() == 1 {
        parts[0]
    } else {
        joined_with(parts.drop_last(), sep) + sep + parts.last()
    }
}

/// Joins slices without a separator.
pub fn concat_all(parts: &Vec<&[char]>) -> (r: Vec<char>)
    ensures
        r@ == joined(views(parts@)),
{
    let mut out: Vec<char> = Vec::new();
    for i in 0..parts.len()
        invariant
            out@ == joined(views(parts@).take(i as int)),
    {
        proof {
            assert(views(parts@).take(i + 1).drop_last() =~= views(parts@).take(i as int));
        }
        push_all(&mut out, parts[i]);
    }
    proof {
        assert(views(parts@).take(parts@.len() as int) =~= views(parts@));
    }
    out
}

/// Joins strings with a separator.
pub fn join_strings(parts: &Vec<String>, sep: &str) -> (r: String)
    ensures
        r@ == joined_with(texts(parts@), sep@),
{
    let mut out: String = String::new();
    for i in 0..parts.len()
        invariant
            out@ == joined_with(texts(parts@).take(i as int), sep@),
    {
        let ghost before = out@;
        proof {
            assert(texts(parts@).take(i + 1).drop_last() =~= texts(parts@).take(i as int));
        }
        if i > 0 {
            out.append(sep);
        }
        out.append(parts[i].as_str());
        proof {
            if i == 0 {
                assert(out@ =~= parts@[0]@);
            }
        }
    }
    proof {
        assert(texts(parts@).take(parts@.len() as int) =~= texts(parts@));
    }
    out
}

// ---------------------------------------------------------------------------
// Reading numbers
// ---------------------------------------------------------------------------
/// The value of a digit; letters count from 10 up in either case.
pub open spec fn digit_of(c: char) -> int {
    if '0' <= c && c <= '9' {
        c as u32 - '0' as u32
    } else if 'a' <= c && c <= 'z' {
        c as u32 - 'a' as u32 + 10
    } else if 'A' <= c && c <= 'Z' {
        c as u32 - 'A' as u32 + 10
    } else {
        36
    }
}

/// The value of the digit `c`, or 36 if it is none.
pub fn digit(c: char) -> (r: u32)
    ensures
        r == digit_of(c),
        r <= 36,
{
    if '0' <= c && c <= '9' {
        c as u32 - '0' as u32
    } else if 'a' <= c && c <= 'z' {
        c as u32 - 'a' as u32 + 10
    } else if 'A' <= c && c <= 'Z' {
        c as u32 - 'A' as u32 + 10
    } else {
        36
    }
}

/// Every character is a digit of the base.
pub open spec fn all_digits(s: Seq<char>, radix: int) -> bool {
    forall|i: int| 0 <= i < s.len() ==> digit_of(#[trigger] s[i]) < radix
}

/// The number that digits spell in a base, most significant digit first.
pub open spec fn number(s: Seq<char>, radix: int) -> int
    decreases s.len(),
{
    if s.len() == 0 {
        0
    } else {
        number(s.drop_last(), radix) * radix + digit_of(s.last())
    }
}

/// A nonempty text of digits, as a number.
pub open spec fn natural(s: Seq<char>, radix: int) -> Option<int> {
    if s.len() > 0 && all_digits(s, radix) {
        Some(number(s, radix))
    } else {
        None
    }
}

/// An unsigned number of at most `max`: digits after an optional plus sign.
pub open spec fn unsigned(s: Seq<char>, radix: int, max: int) -> Option<int> {
    let d = if s.len() > 0 && s[0] == '+' {
        s.skip(1)
    } else {
        s
    };
    match natural(d, radix) {
        Some(v) => if v <= max {
            Some(v)
        } else {
            None
        },
        None => None,
    }
}

/// A signed 64-bit number: digits after an optional sign.
pub open spec fn signed(s: Seq<char>, radix: int) -> Option<int> {
    if s.len() > 0 && s[0] == '-' {
        match natural(s.skip(1), radix) {
            Some(v) => if v <= 0x8000_0000_0000_0000 {
                Some(-v)
            } else {
                None
            },
            None => None,
        }
    } else {
        unsigned(s, radix, i64::MAX as int)
    }
}

/// A number is not negative and grows with its digits.
pub proof fn lemma_number_prefix(s: Seq<char>, radix: int, n: int)
    requires
        0 <= n <= s.len(),
        radix >= 2,
        all_digits(s, radix),
    ensures
        0 <= number(s.take(n), radix) <= number(s, radix),
    decreases s.len() - n,
{
    if n == s.len() {
        assert(s.take(n) =~= s);
        lemma_number_nonneg(s, radix);
    } else {
        lemma_number_prefix(s, radix, n + 1);
        assert(s.take(n + 1).drop_last() =~= s.take(n));
        lemma_number_nonneg(s.take(n), radix);
        let a = number(s.take(n), radix);
        assert(a * radix >= a) by (nonlinear_arith)
            requires
                a >= 0,
                radix >= 2,
        ;
        assert(digit_of(s[n]) >= 0);
    }
}

/// A number is not negative.
pub proof fn lemma_number_nonneg(s: Seq<char>, radix: int)
    requires
        radix >= 2,
    ensures
        number(s, radix) >= 0,
    decreases s.len(),
{
    if s.len() > 0 {
        lemma_number_nonneg(s.drop_last(), radix);
        let a = number(s.drop_last(), radix);
        assert(a * radix >= 0) by (nonlinear_arith)
            requires
                a >= 0,
                radix >= 2,
        ;
    }
}

/// Reads a nonempty text of digits that spell a number of at most `max`.
pub fn parse_natural(s: &[char], radix: u32, max: u64) -> (r: Option<u64>)
    requires
        2 <= radix <= 36,
    ensures
        match r {
            Some(v) => natural(s@, radix as int) == Some(v as int) && v <= max,
            None => match natural(s@, radix as int) {
                Some(v) => v > max,
                None => true,
            },
        },
{
    if s.len() == 0 {
        return None;
    }
    let mut i: usize = 0;
    while i < s.len()
        invariant
            i <= s@.len(),
            forall|j: int| 0 <= j < i ==> digit_of(#[trigger] s@[j]) < radix,
        decreases s@.len() - i,
    {
        if digit(s[i]) >= radix {
            return None;
        }
        i = i + 1;
    }
    let mut v: u64 = 0;
    let mut n: usize = 0;
    while n < s.len()
        invariant
            2 <= radix <= 36,
            n <= s@.len(),
            all_digits(s@, radix as int),
            v == number(s@.take(n as int), radix as int),
            v <= max,
        decreases s@.len() - n,
    {
        proof {
            assert(s@.take(n + 1).drop_last() =~= s@.take(n as int));
            lemma_number_prefix(s@, radix as int, n + 1);
            assert((v as int) * (radix as int) <= 0xFFFF_FFFF_FFFF_FFFF * 36) by (nonlinear_arith)
                requires
                    0 <= v <= 0xFFFF_FFFF_FFFF_FFFF,
                    0 <= radix <= 36,
            ;
            assert((v as int) * (radix as int) >= 0) by (nonlinear_arith)
                requires
                    0 <= v,
                    0 <= radix,
            ;
        }
        let next: u128 = (v as u128) * (radix as u128) + digit(s[n]) as u128;
        if next > max as u128 {
            return None;
        }
        v = next as u64;
        n = n + 1;
    }
    proof {
        assert(s@.take(n as int) =~= s@);
    }
    Some(v)
}

/// Reads an unsigned number of at most `max`.
pub fn parse_unsigned(s: &[char], radix: u32, max: u64) -> (r: Option<u64>)
    requires
        2 <= radix <= 36,
    ensures
        match r {
            Some(v) => unsigned(s@, radix as int, max as int) == Some(v as int),
            None => unsigned(s@, radix as int, max as int) is None,
        },
        r matches Some(v) ==> v <= max,
{
    if s.len() > 0 && s[0] == '+' {
        parse_natural(from_index(s, 1), radix, max)
    } else {
        parse_natural(s, radix, max)
    }
}

/// Reads a signed number.
pub fn parse_signed(s: &[char], radix: u32) -> (r: Option<i64>)
    requires
        2 <= radix <= 36,
    ensures
        match r {
            Some(v) => signed(s@, radix as int) == Some(v as int),
            None => signed(s@, radix as int) is None,
        },
{
    if s.len() > 0 && s[0] == '-' {
        match parse_natural(from_index(s, 1), radix, 0x8000_0000_0000_0000) {
            Some(v) => Some((0 - v as i128) as i64),
            None => None,
        }
    } else {
        match parse_unsigned(s, radix, 0x7FFF_FFFF_FFFF_FFFF) {
            Some(v) => Some(v as i64),
            None => None,
        }
    }
}

// ---------------------------------------------------------------------------
// Writing numbers
// ---------------------------------------------------------------------------
/// The character of a digit; digits from 10 up are capital letters.
pub open spec fn digit_char(d: int) -> char {
    if d < 10 {
        ('0' as u32 + d) as char
    } else {
        ('A' as u32 + d - 10) as char
    }
}

/// A number written in a base, without leading zeros.
pub open spec fn written(n: nat, radix: nat) -> Seq<char>
    decreases n,
{
    if radix < 2 || n < radix {
        seq![digit_char(n as int)]
    } else {
        proof {
            assert(n / radix < n) by (nonlinear_arith)
                requires
                    n >= radix,
                    radix >= 2,
            ;
        }
        written(n / radix, radix).push(digit_char((n % radix) as int))
    }
}

/// A number in decimal.
pub open spec fn decimal(n: nat) -> Seq<char> {
    written(n, 10)
}

/// A number in hexadecimal.
pub open spec fn hex(n: nat) -> Seq<char> {
    written(n, 16)
}

/// A text filled up with zeros on the left to a width.
pub open spec fn padded(s: Seq<char>, width: nat) -> Seq<char> {
    if s.len() >= width {
        s
    } else {
        Seq::new((width - s.len()) as nat, |i: int| '0') + s
    }
}

/// Writes a number in a base of at most 16.
fn write_in(n: u64, radix: u64) -> (r: Vec<char>)
    requires
        2 <= radix <= 16,
    ensures
        r@ == written(n as nat, radix as nat),
    decreases n,
{
    let d: u32 = (n % radix) as u32;
    let c: char = if d < 10 {
        (48u8 + d as u8) as char
    } else {
        (55u8 + d as u8) as char
    };
    if n < radix {
        let mut r: Vec<char> = Vec::new();
        proof {
            assert(n % radix == n) by (nonlinear_arith)
                requires
                    n < radix,
            ;
        }
        r.push(c);
        proof {
            assert(r@ =~= seq![digit_char(n as int)]);
        }
        r
    } else {
        proof {
            assert(n / radix < n) by (nonlinear_arith)
                requires
                    n >= radix,
                    radix >= 2,
            ;
        }
        let mut r: Vec<char> = write_in(n / radix, radix);
        r.push(c);
        r
    }
}

/// Writes a number in decimal.
pub fn write_decimal(n: u64) -> (r: String)
    ensures
        r@ == decimal(n as nat),
{
    let v: Vec<char> = write_in(n, 10);
    string_of(&v)
}

/// Writes a number in hexadecimal.
pub fn write_hex(n: u64) -> (r: String)
    ensures
        r@ == hex(n as nat),
{
    let v: Vec<char> = write_in(n, 16);
    string_of(&v)
}

/// Writes a number in hexadecimal with at least `width` digits.
pub fn write_hex_padded(n: u64, width: usize) -> (r: String)
    ensures
        r@ == padded(hex(n as nat), width as nat),
{
    let v: Vec<char> = write_in(n, 16);
    let mut out: String = String::new();
    if v.len() < width {
        let missing: usize = width - v.len();
        for i in 0..missing
            invariant
                out@ == Seq::new(i as nat, |i: int| '0'),
        {
            out.push('0');
            proof {
                assert(out@ =~= Seq::new((i + 1) as nat, |i: int| '0'));
            }
        }
    } else {
        proof {
            assert(Seq::<char>::empty() + v@ =~= v@);
        }
    }
    append_chars(&mut out, &v);
    out
}

// ---------------------------------------------------------------------------
// Order
// ---------------------------------------------------------------------------
/// Whether a text comes strictly before another one, compared character by
/// character.
pub open spec fn comes_before(a: Seq<char>, b: Seq<char>) -> bool
    decreases a.len(),
{
    if b.len() == 0 {
        false
    } else if a.len() == 0 {
        true
    } else if a[0] == b[0] {
        comes_before(a.skip(1), b.skip(1))
    } else {
        a[0] < b[0]
    }
}

/// Compares two texts.
pub fn before(a: &[char], b: &[char]) -> (r: bool)
    ensures
        r == comes_before(a@, b@),
{
    let n: usize = a.len();
    let m: usize = b.len();
    let mut i: usize = 0;
    proof {
        assert(a@.skip(0) =~= a@);
        assert(b@.skip(0) =~= b@);
    }
    while i < n && i < m && a[i] == b[i]
        invariant
            n == a@.len(),
            m == b@.len(),
            i <= n,
            i <= m,
            comes_before(a@, b@) == comes_before(a@.skip(i as int), b@.skip(i as int)),
        decreases n - i,
    {
        proof {
            assert(a@.skip(i as int).skip(1) =~= a@.skip(i + 1));
            assert(b@.skip(i as int).skip(1) =~= b@.skip(i + 1));
        }
        i = i + 1;
    }
    if i >= m {
        false
    } else if i >= n {
        true
    } else {
        a[i] < b[i]
    }
}

/// Compares two texts.
pub fn str_before(a: &str, b: &str) -> (r: bool)
    ensures
        r == comes_before(a@, b@),
{
    before(&chars_of(a), &chars_of(b))
}

/// Of two different texts exactly one comes first.
pub proof fn lemma_order_total(a: Seq<char>, b: Seq<char>)
    ensures
        !(comes_before(a, b) && comes_before(b, a)),
        !comes_before(a, b) && !comes_before(b, a) ==> a == b,
        !comes_before(a, a),
    decreases a.len(),
{
    if a.len() > 0 {
        lemma_order_total(a.skip(1), a.skip(1));
    }
    if a.len() > 0 && b.len() > 0 && a[0] == b[0] {
        lemma_order_total(a.skip(1), b.skip(1));
        if !comes_before(a, b) && !comes_before(b, a) {
            assert(a =~= seq![a[0]] + a.skip(1));
            assert(b =~= seq![b[0]] + b.skip(1));
        }
    } else if a.len() == 0 && b.len() == 0 {
        assert(a =~= b);
    }
}

/// What comes before a text comes before what comes after it.
pub proof fn lemma_order_transitive(a: Seq<char>, b: Seq<char>, c: Seq<char>)
    requires
        comes_before(a, b),
        comes_before(b, c),
    ensures
        comes_before(a, c),
    decreases a.len(),
{
    if a.len() > 0 && b.len() > 0 && c.len() > 0 && a[0] == b[0] && b[0] == c[0] {
        lemma_order_transitive(a.skip(1), b.skip(1), c.skip(1));
    }
}

/// What does not come before a text does not come before what that one does
/// not come before.
pub proof fn lemma_order_negative(a: Seq<char>, b: Seq<char>, c: Seq<char>)
    requires
        !comes_before(a, b),
        !comes_before(b, c),
    ensures
        !comes_before(a, c),
{
    lemma_order_total(a, b);
    lemma_order_total(b, c);
    if comes_before(a, c) {
        if comes_before(b, a) {
            lemma_order_transitive(b, a, c);
        }
    }
}

// ---------------------------------------------------------------------------
// Length in bytes
// ---------------------------------------------------------------------------
/// The bytes that a character takes in UTF-8.
pub open spec fn char_width(c: char) -> int {
    vstd::utf8::encode_scalar(c as u32).len() as int
}

/// The longest start of a text that takes at most `max` bytes in UTF-8.
pub open spec fn fitting(s: Seq<char>, max: int) -> Seq<char>
    decreases s.len(),
{
    if s.len() == 0 || char_width(s[0]) > max {
        Seq::empty()
    } else {
        seq![s[0]] + fitting(s.skip(1), max - char_width(s[0]))
    }
}

/// Counts the bytes that a character takes in UTF-8.
fn width_of(c: char) -> (r: usize)
    ensures
        r == char_width(c),
        1 <= r <= 4,
{
    if c <= '\u{7F}' {
        1
    } else if c <= '\u{7FF}' {
        2
    } else if c <= '\u{FFFF}' {
        3
    } else {
        4
    }
}

/// Takes the longest start of a text that takes at most `max` bytes in UTF-8.
pub fn fit<'a>(s: &'a [char], max: usize) -> (r: &'a [char])
    ensures
        r@ == fitting(s@, max as int),
{
    let n: usize = s.len();
    let mut i: usize = 0;
    let mut left: usize = max;
    proof {
        assert(s@.skip(0) =~= s@);
        assert(s@.take(0) + fitting(s@.skip(0), max as int) =~= fitting(s@, max as int));
    }
    while i < n
        invariant
            n == s@.len(),
            i <= n,
            s@.take(i as int) + fitting(s@.skip(i as int), left as int) == fitting(s@, max as int),
        decreases n - i,
    {
        let w: usize = width_of(s[i]);
        if w > left {
            proof {
                assert(s@.take(i as int) + Seq::<char>::empty() =~= s@.take(i as int));
            }
            return up_to(s, i);
        }
        proof {
            assert(s@.skip(i as int).skip(1) =~= s@.skip(i + 1));
            assert(s@.take(i + 1) + fitting(s@.skip(i + 1), left - w) =~= s@.take(i as int)
                + fitting(s@.skip(i as int), left as int));
        }
        left = left - w;
        i = i + 1;
    }
    proof {
        assert(s@.skip(n as int).len() == 0);
        assert(s@.take(n as int) + Seq::<char>::empty() =~= s@.take(n as int));
    }
    up_to(s, n)
}

/// What fits is a start of the text and takes at most `max` bytes.
pub proof fn lemma_fitting(s: Seq<char>, max: int)
    requires
        max >= 0,
    ensures
        fitting(s, max).len() <= s.len(),
        fitting(s, max) == s.take(fitting(s, max).len() as int),
        vstd::utf8::encode_utf8(fitting(s, max)).len() <= max,
    decreases s.len(),
{
    if s.len() > 0 && char_width(s[0]) <= max {
        let rest = fitting(s.skip(1), max - char_width(s[0]));
        lemma_fitting(s.skip(1), max - char_width(s[0]));
        assert(fitting(s, max) =~= s.take(fitting(s, max).len() as int));
        assert(fitting(s, max).drop_first() =~= rest);
    } else {
        assert(s.take(0) =~= Seq::<char>::empty());
    }
}

// ---------------------------------------------------------------------------
// What is written can be read
// ---------------------------------------------------------------------------
/// A number that is written in a base reads back as itself.
pub proof fn lemma_written_roundtrip(n: nat, radix: nat)
    requires
        2 <= radix <= 16,
    ensures
        natural(written(n, radix), radix as int) == Some(n as int),
        written(n, radix).len() > 0,
    decreases n,
{
    if n < radix {
        let s = written(n, radix);
        assert(s.drop_last() =~= Seq::<char>::empty());
        assert(number(s.drop_last(), radix as int) == 0);
        assert(digit_of(s.last()) == n);
        assert(0 * radix == 0) by (nonlinear_arith);
    } else {
        assert(n / radix < n) by (nonlinear_arith)
            requires
                n >= radix,
                radix >= 2,
        ;
        lemma_written_roundtrip(n / radix, radix);
        let s = written(n, radix);
        let head = written(n / radix, radix);
        assert(s.drop_last() =~= head);
        vstd::arithmetic::div_mod::lemma_fundamental_div_mod(n as int, radix as int);
        vstd::arithmetic::div_mod::lemma_mod_bound(n as int, radix as int);
        assert(digit_of(s.last()) == n % radix);
        assert(number(s, radix as int) == (n / radix) * radix + n % radix);
        assert((n / radix) * radix == radix * (n / radix)) by (nonlinear_arith);
        assert forall|i: int| 0 <= i < s.len() implies digit_of(#[trigger] s[i]) < radix by {
            if i < head.len() {
                assert(s[i] == head[i]);
            }
        }
    }
}

/// A number in decimal reads back as itself.
pub proof fn lemma_decimal_roundtrip(n: nat, max: int)
    requires
        n <= max,
    ensures
        unsigned(decimal(n), 10, max) == Some(n as int),
{
    lemma_written_roundtrip(n, 10);
    assert(digit_of(decimal(n)[0]) < 10);
}

/// A text without a separator, the separator and another text are split into
/// that text and the pieces of the other.
pub proof fn lemma_pieces_first(a: Seq<char>, b: Seq<char>, c: char)
    requires
        !a.contains(c),
    ensures
        pieces(a + seq![c] + b, c) == seq![a] + pieces(b, c),
{
    let s = a + seq![c] + b;
    assert forall|i: int| 0 <= i < a.len() implies !in_class(#[trigger] s[i], Class::Is(c)) by {
        assert(s[i] == a[i]);
    }
    lemma_first_in_is(s, Class::Is(c), a.len() as int);
    assert(s.take(a.len() as int) =~= a);
    assert(s.skip((a.len() + 1) as int) =~= b);
}

} // verus!

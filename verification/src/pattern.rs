//! Patterns of bytes, some of which may be any byte.
use crate::text;
use vstd::prelude::*;

verus! {

/// One byte of a pattern: a number in hexadecimal, or `?` or `??` for any byte.
pub open spec fn byte_of(w: Seq<char>) -> Option<Option<u8>> {
    if w == "?"@ || w == "??"@ {
        Some(None)
    } else {
        match text::unsigned(w, 16, 255) {
            Some(n) => Some(Some(n as u8)),
            None => None,
        }
    }
}

/// The bytes of a pattern, word by word; `None` if one of them is no byte.
pub open spec fn bytes_of(words: Seq<Seq<char>>) -> Option<Seq<Option<u8>>>
    decreases words.len(),
{
    if words.len() == 0 {
        Some(Seq::empty())
    } else {
        match (bytes_of(words.drop_last()), byte_of(words.last())) {
            (Some(v), Some(b)) => Some(v.push(b)),
            _ => None,
        }
    }
}

/// The pattern that a text stands for; `None` if it is empty or not valid.
pub open spec fn pattern_of(s: Seq<char>) -> Option<Seq<Option<u8>>> {
    let words = text::words_of(s);
    if words.len() == 0 {
        None
    } else {
        bytes_of(words)
    }
}

proof fn lemma_bytes_prefix(words: Seq<Seq<char>>, n: int)
    requires
        0 <= n <= words.len(),
        bytes_of(words.take(n)) is None,
    ensures
        bytes_of(words) is None,
    decreases words.len() - n,
{
    if n == words.len() {
        assert(words.take(n) =~= words);
    } else {
        assert(words.take(n + 1).drop_last() =~= words.take(n));
        lemma_bytes_prefix(words, n + 1);
    }
}

/// Reads a pattern.
pub fn parse_aob(s: &str) -> (r: Option<Vec<Option<u8>>>)
    ensures
        match r {
            Some(v) => pattern_of(s@) == Some(v@),
            None => pattern_of(s@) is None,
        },
{
    let chars: Vec<char> = text::chars_of(s);
    let words: Vec<&[char]> = text::words(&chars);
    let ghost all = text::words_of(s@);
    if words.len() == 0 {
        return None;
    }
    let mut out: Vec<Option<u8>> = Vec::new();
    for i in 0..words.len()
        invariant
            all == text::views(words@),
            all == text::words_of(s@),
            bytes_of(all.take(i as int)) == Some(out@),
    {
        proof {
            assert(all[i as int] == words@[i as int]@);
            assert(all.take(i + 1).drop_last() =~= all.take(i as int));
        }
        if text::is_text(words[i], "?") || text::is_text(words[i], "??") {
            out.push(None);
        } else {
            match text::parse_unsigned(words[i], 16, 255) {
                Some(n) => {
                    out.push(Some(n as u8));
                },
                None => {
                    proof {
                        lemma_bytes_prefix(all, i + 1);
                    }
                    return None;
                },
            }
        }
    }
    proof {
        assert(all.take(all.len() as int) =~= all);
    }
    Some(out)
}

/// Whether a pattern matches bytes at an index.
pub open spec fn matches_at(b: Seq<u8>, p: Seq<Option<u8>>, i: int) -> bool {
    &&& 0 <= i && i + p.len() <= b.len()
    &&& forall|k: int| 0 <= k < p.len() ==> (#[trigger] p[k] is None || p[k] == Some(b[i + k]))
}

/// Tests whether a pattern matches bytes at an index.
fn fits(b: &[u8], p: &[Option<u8>], i: usize) -> (r: bool)
    requires
        i + p@.len() <= b@.len(),
    ensures
        r == matches_at(b@, p@, i as int),
{
    let n: usize = b.len();
    for k in 0..p.len()
        invariant
            n == b@.len(),
            i + p@.len() <= n,
            forall|j: int| 0 <= j < k ==> (#[trigger] p@[j] is None || p@[j] == Some(b@[i + j])),
    {
        match p[k] {
            Some(x) => {
                if x != b[i + k] {
                    assert(!(p@[k as int] is None || p@[k as int] == Some(b@[i + k])));
                    return false;
                }
            },
            None => {},
        }
    }
    true
}

/// Finds the first place of a pattern in bytes.
pub fn first_match(b: &[u8], p: &[Option<u8>]) -> (r: Option<usize>)
    ensures
        match r {
            Some(i) => matches_at(b@, p@, i as int) && forall|j: int|
                0 <= j < i ==> !matches_at(b@, p@, j),
            None => forall|j: int| !matches_at(b@, p@, j),
        },
{
    let n: usize = b.len();
    let m: usize = p.len();
    if m > n {
        return None;
    }
    if m == 0 {
        return Some(0);
    }
    for i in 0..(n - m + 1)
        invariant
            n == b@.len(),
            m == p@.len(),
            0 < m <= n,
            forall|j: int| 0 <= j < i ==> !matches_at(b@, p@, j),
    {
        if fits(b, p, i) {
            return Some(i);
        }
    }
    None
}

} // verus!

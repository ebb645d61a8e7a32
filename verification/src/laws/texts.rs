//! Texts: words, trimming and case.
use crate::laws::plain;
use crate::order;
use crate::text;
use crate::text::Class;
use vstd::prelude::*;

verus! {

/// A text that is not empty and holds no white space.
pub open spec fn solid(t: Seq<char>) -> bool {
    t.len() > 0 && forall|i: int| 0 <= i < t.len() ==> !text::is_space(#[trigger] t[i])
}

/// Whether a character is one of the seventeen kinds of white space that a text may hold:
/// the ASCII ones among them are the tab, the four line controls and the blank.
pub proof fn lemma_white_space(c: char)
    requires
        (c as u32) < 0x80,
    ensures
        text::is_space(c) <==> c == ' ' || c == '\t' || c == '\n' || c == '\r' || c as u32 == 11
            || c as u32 == 12,
{
}

pub proof fn lemma_trimmed_start_is(s: Seq<char>, k: Class)
    ensures
        exists|n: int|
            0 <= n <= s.len() && text::trimmed_start(s, k) == #[trigger] s.skip(n) && (forall|i: int|
                0 <= i < n ==> text::in_class(#[trigger] s[i], k)),
        text::trimmed_start(s, k).len() > 0 ==> !text::in_class(text::trimmed_start(s, k)[0], k),
    decreases s.len(),
{
    if s.len() > 0 && text::in_class(s[0], k) {
        let t = s.skip(1);
        lemma_trimmed_start_is(t, k);
        let n = choose|n: int|
            0 <= n <= t.len() && text::trimmed_start(t, k) == #[trigger] t.skip(n) && (forall|i: int|
                0 <= i < n ==> text::in_class(#[trigger] t[i], k));
        assert(t.skip(n) =~= s.skip(n + 1));
        assert forall|i: int| 0 <= i < n + 1 implies text::in_class(#[trigger] s[i], k) by {
            if i > 0 {
                assert(t[i - 1] == s[i]);
            }
        }
        assert(text::trimmed_start(s, k) == s.skip(n + 1));
    } else {
        assert(s.skip(0) =~= s);
    }
}

proof fn lemma_trimmed_end_is(s: Seq<char>, k: Class)
    ensures
        exists|n: int|
            0 <= n <= s.len() && text::trimmed_end(s, k) == #[trigger] s.take(n) && (forall|i: int|
                n <= i < s.len() ==> text::in_class(#[trigger] s[i], k)),
        text::trimmed_end(s, k).len() > 0 ==> !text::in_class(text::trimmed_end(s, k).last(), k),
    decreases s.len(),
{
    if s.len() > 0 && text::in_class(s.last(), k) {
        let t = s.drop_last();
        lemma_trimmed_end_is(t, k);
        let n = choose|n: int|
            0 <= n <= t.len() && text::trimmed_end(t, k) == #[trigger] t.take(n) && (forall|i: int|
                n <= i < t.len() ==> text::in_class(#[trigger] t[i], k));
        assert(t.take(n) =~= s.take(n));
        assert forall|i: int| n <= i < s.len() implies text::in_class(#[trigger] s[i], k) by {
            if i < t.len() {
                assert(t[i] == s[i]);
            }
        }
        assert(text::trimmed_end(s, k) == s.take(n));
    } else {
        assert(s.take(s.len() as int) =~= s);
    }
}

/// Trimming takes away white space at both ends, all of it, and nothing else.
pub proof fn lemma_trimmed(s: Seq<char>)
    ensures
        exists|a: int, b: int|
            0 <= a <= b <= s.len() && text::trimmed(s) == #[trigger] s.subrange(a, b) && (forall|i: int|
                (0 <= i < a || b <= i < s.len()) ==> text::is_space(#[trigger] s[i])),
        text::trimmed(s).len() > 0 ==> !text::is_space(text::trimmed(s)[0]) && !text::is_space(
            text::trimmed(s).last(),
        ),
{
    let k = Class::Space;
    lemma_trimmed_start_is(s, k);
    let t = text::trimmed_start(s, k);
    let a = choose|n: int|
        0 <= n <= s.len() && t == #[trigger] s.skip(n) && (forall|i: int|
            0 <= i < n ==> text::in_class(#[trigger] s[i], k));
    lemma_trimmed_end_is(t, k);
    let n = choose|n: int|
        0 <= n <= t.len() && text::trimmed_end(t, k) == #[trigger] t.take(n) && (forall|i: int|
            n <= i < t.len() ==> text::in_class(#[trigger] t[i], k));
    assert(t.take(n) =~= s.subrange(a, a + n));
    assert forall|i: int| 0 <= i < a || a + n <= i < s.len() implies text::is_space(
        #[trigger] s[i],
    ) by {
        if i >= a + n {
            assert(t[i - a] == s[i]);
        }
    }
    if n > 0 {
        assert(text::trimmed(s)[0] == t[0]);
    }
}

/// A text without white space at its ends is left as it is.
pub proof fn lemma_untrimmed(s: Seq<char>)
    requires
        s.len() > 0 ==> !text::is_space(s[0]) && !text::is_space(s.last()),
    ensures
        text::trimmed(s) == s,
{
}

/// In ASCII, lower case moves the letters `A` to `Z` by 32 and leaves the rest.
pub proof fn lemma_lower_case(s: Seq<char>)
    requires
        forall|i: int| 0 <= i < s.len() ==> (#[trigger] s[i] as u32) < 0x80,
    ensures
        text::lowered(s).len() == s.len(),
        forall|i: int|
            0 <= i < s.len() ==> text::lowered(s)[i] as u32 == if 65 <= #[trigger] s[i] as u32 && s[i] as u32 <= 90 {
                s[i] as u32 + 32
            } else {
                s[i] as int
            },
{
    assert(text::is_ascii_text(s));
}

/// A text of ASCII without capital letters is in lower case.
pub proof fn lemma_in_lower_case(s: Seq<char>)
    requires
        forall|i: int| 0 <= i < s.len() ==> (#[trigger] s[i] as u32) < 0x80 && !('A' <= s[i] <= 'Z'),
    ensures
        text::lowered(s) == s,
{
    assert(text::is_ascii_text(s));
    assert(text::lowered(s) =~= s);
}

/// A text without white space is one word.
pub proof fn lemma_one_word(t: Seq<char>)
    requires
        solid(t),
    ensures
        text::words_of(t) == seq![t],
{
    text::lemma_first_in_is(t, Class::Space, t.len() as int);
    assert(text::trimmed_start(t, Class::Space) == t);
    assert(t.take(t.len() as int) =~= t);
    assert(t.skip(t.len() as int) =~= Seq::<char>::empty());
    assert(text::words_of(Seq::<char>::empty()) =~= Seq::<Seq<char>>::empty());
    assert(text::words_of(t) =~= seq![t]);
}

/// Two texts without white space and a blank between them are two words.
pub proof fn lemma_two_words(h: Seq<char>, t: Seq<char>)
    requires
        solid(h),
        solid(t),
    ensures
        text::words_of(h + " "@ + t) == seq![h, t],
{
    reveal_strlit(" ");
    let s = h + " "@ + t;
    assert(s[0] == h[0]);
    assert(text::trimmed_start(s, Class::Space) == s);
    assert(s[h.len() as int] == ' ');
    assert forall|i: int| 0 <= i < h.len() implies !text::in_class(#[trigger] s[i], Class::Space) by {
        assert(s[i] == h[i]);
    }
    text::lemma_first_in_is(s, Class::Space, h.len() as int);
    assert(s.take(h.len() as int) =~= h);
    let u = s.skip(h.len() as int);
    assert(u =~= " "@ + t);
    assert(u[0] == ' ');
    assert(u.skip(1) =~= t);
    assert(text::trimmed_start(u, Class::Space) == text::trimmed_start(t, Class::Space));
    assert(text::trimmed_start(t, Class::Space) == t);
    lemma_one_word(t);
    assert(text::words_of(u) == text::words_of(t));
    assert(text::words_of(s) =~= seq![h, t]);
}

/// A text without a character has it nowhere.
pub proof fn lemma_absent(s: Seq<char>, c: char)
    requires
        forall|i: int| 0 <= i < s.len() ==> #[trigger] s[i] != c,
    ensures
        text::first_in(s, Class::Is(c)) == s.len(),
        text::last_in(s, Class::Is(c)) == -1,
{
    text::lemma_first_in_is(s, Class::Is(c), s.len() as int);
    text::lemma_last_in(s, Class::Is(c));
}

/// The pieces of a text hold no separator, and joined with it they are the text again.
pub proof fn lemma_pieces(s: Seq<char>, c: char)
    ensures
        text::pieces(s, c).len() >= 1,
        forall|i: int|
            0 <= i < text::pieces(s, c).len() ==> !(#[trigger] text::pieces(s, c)[i]).contains(c),
        text::joined_with(text::pieces(s, c), seq![c]) == s,
    decreases s.len(),
{
    text::lemma_first_in(s, Class::Is(c));
    let n = text::first_in(s, Class::Is(c));
    let p = text::pieces(s, c);
    if n >= s.len() {
        assert(p =~= seq![s]);
        if s.contains(c) {
            let i = s.index_of(c);
            assert(text::in_class(s[i], Class::Is(c)));
        }
    } else {
        let head = s.take(n);
        let tail = s.skip(n + 1);
        let q = text::pieces(tail, c);
        lemma_pieces(tail, c);
        assert(p == seq![head] + q);
        if head.contains(c) {
            let i = head.index_of(c);
            assert(text::in_class(s[i], Class::Is(c)));
        }
        assert forall|i: int| 0 <= i < p.len() implies !(#[trigger] p[i]).contains(c) by {
            if i > 0 {
                assert(p[i] == q[i - 1]);
            }
        }
        lemma_joined_first(head, q, seq![c]);
        assert(head + seq![c] + tail =~= s);
    }
}

proof fn lemma_joined_first(a: Seq<char>, q: Seq<Seq<char>>, sep: Seq<char>)
    requires
        q.len() >= 1,
    ensures
        text::joined_with(seq![a] + q, sep) == a + sep + text::joined_with(q, sep),
    decreases q.len(),
{
    let p = seq![a] + q;
    assert(p.last() == q.last());
    if q.len() == 1 {
        assert(p.drop_last() =~= seq![a]);
        assert(text::joined_with(seq![a], sep) == a);
    } else {
        assert(p.drop_last() =~= seq![a] + q.drop_last());
        lemma_joined_first(a, q.drop_last(), sep);
        assert(a + sep + text::joined_with(q.drop_last(), sep) + sep + q.last() =~= a + sep + (
        text::joined_with(q.drop_last(), sep) + sep + q.last()));
    }
}

/// A line ends with a line feed, and a carriage return before it belongs to the end.
pub proof fn lemma_line_ends(a: Seq<char>, b: Seq<char>)
    requires
        forall|i: int| 0 <= i < a.len() ==> #[trigger] a[i] != '\n' && a[i] != '\r',
    ensures
        text::lines_of(a + seq!['\n'] + b) == seq![a] + text::lines_of(b),
        text::lines_of(a + seq!['\r', '\n'] + b) == seq![a] + text::lines_of(b),
        a.len() > 0 ==> text::lines_of(a) == seq![a],
        text::lines_of(Seq::empty()).len() == 0,
{
    let k = Class::Is('\n');
    let n = a.len() as int;
    let s = a + seq!['\n'] + b;
    assert forall|i: int| 0 <= i < n implies !text::in_class(#[trigger] s[i], k) by {
        assert(s[i] == a[i]);
    }
    assert(s[n] == '\n');
    text::lemma_first_in_is(s, k, n);
    assert(s.take(n) =~= a);
    assert(s.skip(n + 1) =~= b);
    assert(n > 0 ==> a[n - 1] != '\r');
    let t = a + seq!['\r', '\n'] + b;
    assert forall|i: int| 0 <= i < n + 1 implies !text::in_class(#[trigger] t[i], k) by {
        if i < n {
            assert(t[i] == a[i]);
        }
    }
    assert(t[n + 1] == '\n' && t[n] == '\r');
    text::lemma_first_in_is(t, k, n + 1);
    assert(t.take(n + 1).drop_last() =~= a);
    assert(t.skip(n + 2) =~= b);
    text::lemma_first_in_is(a, k, n);
}

/// A number in decimal is its digits, without zeros before them.
pub proof fn lemma_decimal(n: nat)
    ensures
        plain::is_number(text::decimal(n), 10),
        plain::value(text::decimal(n), 10) == n,
        n > 0 ==> text::decimal(n)[0] != '0',
        n == 0 ==> text::decimal(n) == seq!['0'],
{
    text::lemma_written_roundtrip(n, 10);
    plain::lemma_number(text::decimal(n), 10);
    lemma_first_digit(n, 10);
}

/// A number in hexadecimal is its digits, in capital letters and without zeros before them.
pub proof fn lemma_hexadecimal(n: nat)
    ensures
        plain::is_number(text::hex(n), 16),
        plain::value(text::hex(n), 16) == n,
        n > 0 ==> text::hex(n)[0] != '0',
        forall|i: int|
            0 <= i < text::hex(n).len() ==> '0' <= #[trigger] text::hex(n)[i] && text::hex(n)[i] <= 'F',
{
    text::lemma_written_roundtrip(n, 16);
    plain::lemma_number(text::hex(n), 16);
    lemma_first_digit(n, 16);
}

proof fn lemma_first_digit(n: nat, radix: nat)
    requires
        radix == 10 || radix == 16,
    ensures
        text::written(n, radix).len() > 0,
        n > 0 ==> text::written(n, radix)[0] != '0',
        n == 0 ==> text::written(n, radix) == seq!['0'],
        forall|i: int|
            0 <= i < text::written(n, radix).len() ==> '0' <= #[trigger] text::written(n, radix)[i]
                && text::written(n, radix)[i] <= 'F',
    decreases n,
{
    if n >= radix {
        lemma_first_digit(n / radix, radix);
        let w = text::written(n / radix, radix);
        let d = text::digit_char((n % radix) as int);
        assert(text::written(n, radix) == w.push(d));
        assert forall|i: int| 0 <= i < w.push(d).len() implies '0' <= #[trigger] w.push(d)[i] && w.push(
            d,
        )[i] <= 'F' by {
            if i < w.len() {
                assert(w.push(d)[i] == w[i]);
            }
        }
    }
}

/// A text that is filled up has the width, ends with itself and begins with zeros.
pub proof fn lemma_filled(s: Seq<char>, width: nat)
    ensures
        ({
            let p = text::padded(s, width);
            let k = p.len() - s.len();
            &&& p.len() == if s.len() < width {
                width
            } else {
                s.len()
            }
            &&& p.skip(k) == s
            &&& forall|i: int| 0 <= i < k ==> #[trigger] p[i] == '0'
        }),
{
    let p = text::padded(s, width);
    assert(p.skip(p.len() - s.len()) =~= s);
}

/// Whether two texts first differ at `k`, where the first has the smaller character or ends.
pub open spec fn differs_at(a: Seq<char>, b: Seq<char>, k: int) -> bool {
    &&& 0 <= k <= a.len()
    &&& k < b.len()
    &&& forall|i: int| 0 <= i < k ==> #[trigger] a[i] == b[i]
    &&& k == a.len() || a[k] < b[k]
}

/// Texts are ordered as in a dictionary.
pub proof fn lemma_order(a: Seq<char>, b: Seq<char>)
    ensures
        text::comes_before(a, b) <==> exists|k: int| #[trigger] differs_at(a, b, k),
    decreases a.len(),
{
    if b.len() == 0 {
    } else if a.len() == 0 {
        assert(differs_at(a, b, 0));
    } else if a[0] == b[0] {
        let (x, y) = (a.skip(1), b.skip(1));
        lemma_order(x, y);
        if text::comes_before(x, y) {
            let k = choose|k: int| #[trigger] differs_at(x, y, k);
            assert forall|i: int| 0 <= i < k + 1 implies #[trigger] a[i] == b[i] by {
                if i > 0 {
                    assert(x[i - 1] == y[i - 1]);
                }
            }
            assert(differs_at(a, b, k + 1));
        }
        if exists|k: int| #[trigger] differs_at(a, b, k) {
            let k = choose|k: int| #[trigger] differs_at(a, b, k);
            assert forall|i: int| 0 <= i < k - 1 implies #[trigger] x[i] == y[i] by {
                assert(a[i + 1] == b[i + 1]);
            }
            assert(differs_at(x, y, k - 1));
        }
    } else {
        if a[0] < b[0] {
            assert(differs_at(a, b, 0));
        }
        if exists|k: int| #[trigger] differs_at(a, b, k) {
            let k = choose|k: int| #[trigger] differs_at(a, b, k);
            if k > 0 {
                assert(a[0] == b[0]);
            }
        }
    }
}

/// What is in order already stays as it is, equal items too.
pub proof fn lemma_order_kept<A>(s: Seq<A>, lt: spec_fn(A, A) -> bool)
    requires
        forall|i: int, j: int| 0 <= i < j < s.len() ==> !lt(#[trigger] s[j], #[trigger] s[i]),
    ensures
        order::in_order(s, lt) == s,
    decreases s.len(),
{
    if s.len() > 0 {
        let t = s.drop_last();
        assert forall|i: int, j: int| 0 <= i < j < t.len() implies !lt(
            #[trigger] t[j],
            #[trigger] t[i],
        ) by {
            assert(t[i] == s[i] && t[j] == s[j]);
        }
        lemma_order_kept(t, lt);
        if t.len() > 0 {
            assert(!lt(s[s.len() - 1], s[s.len() - 2]));
        }
        assert(t.push(s.last()) =~= s);
    }
}

/// What fits is the longest beginning that does.
pub proof fn lemma_fitting(s: Seq<char>, max: int)
    requires
        max >= 0,
    ensures
        ({
            let k = text::fitting(s, max).len() as int;
            k == s.len() || vstd::utf8::encode_utf8(text::fitting(s, max)).len()
                + vstd::utf8::encode_scalar(s[k] as u32).len() > max
        }),
    decreases s.len(),
{
    if s.len() > 0 && text::char_width(s[0]) <= max {
        let t = s.skip(1);
        let f = text::fitting(t, max - text::char_width(s[0]));
        text::lemma_fitting(t, max - text::char_width(s[0]));
        lemma_fitting(t, max - text::char_width(s[0]));
        let g = text::fitting(s, max);
        assert(g == seq![s[0]] + f);
        assert(g[0] == s[0]);
        assert(g.drop_first() =~= f);
        reveal_with_fuel(vstd::utf8::encode_utf8, 2);
    } else if s.len() > 0 {
        assert(text::fitting(s, max) =~= Seq::<char>::empty());
        assert(vstd::utf8::encode_utf8(Seq::<char>::empty()).len() == 0);
    }
}

/// Without white space a text is its other characters, in their order.
pub proof fn lemma_without_space(s: Seq<char>)
    ensures
        text::without_space(s) == s.filter(|c: char| !text::is_space(c)),
    decreases s.len(),
{
    reveal(Seq::filter);
    if s.len() > 0 {
        lemma_without_space(s.drop_last());
    }
}

/// The first word of a text stands before the words of the rest.
pub proof fn lemma_words(h: Seq<char>, rest: Seq<char>)
    requires
        solid(h),
    ensures
        text::words_of(h + " "@ + rest) == seq![h] + text::words_of(rest),
        text::words_of(" "@ + rest) == text::words_of(rest),
{
    reveal_strlit(" ");
    let u = " "@ + rest;
    assert(u[0] == ' ' && u.skip(1) =~= rest);
    assert(text::trimmed_start(u, Class::Space) == text::trimmed_start(rest, Class::Space));
    assert(text::words_of(u) == text::words_of(rest));
    let s = h + " "@ + rest;
    assert(s[0] == h[0]);
    assert(text::trimmed_start(s, Class::Space) == s);
    assert(s[h.len() as int] == ' ');
    assert forall|i: int| 0 <= i < h.len() implies !text::in_class(#[trigger] s[i], Class::Space) by {
        assert(s[i] == h[i]);
    }
    text::lemma_first_in_is(s, Class::Space, h.len() as int);
    assert(s.take(h.len() as int) =~= h);
    assert(s.skip(h.len() as int) =~= u);
}

/// All white space, by its numbers.
pub proof fn lemma_all_white_space(c: char)
    ensures
        text::is_space(c) <==> {
            let n = c as int;
            ||| 9 <= n <= 13
            ||| n == 32 || n == 133 || n == 160 || n == 5760
            ||| 8192 <= n <= 8202
            ||| n == 8232 || n == 8233 || n == 8239 || n == 8287 || n == 12288
        },
{
}

} // verus!

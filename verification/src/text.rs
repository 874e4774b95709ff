//! Character-level text helpers with mathematical specifications: Unicode
//! white space, splitting, and decimal numbers.

use vstd::prelude::*;

verus! {

// ------------------------------------------------------------------
// Views of character buffers
// ------------------------------------------------------------------

/// The character sequences held by a list of character buffers.
pub open spec fn char_vecs_view(v: Seq<Vec<char>>) -> Seq<Seq<char>> {
    v.map_values(|w: Vec<char>| w@)
}

/// The characters of a string, in order.
pub fn chars_of(s: &str) -> (v: Vec<char>)
    ensures
        v@ == s@,
{
    let mut v: Vec<char> = Vec::new();
    for c in it: s.chars()
        invariant
            v@ == it.seq().take(it.index()),
    {
        v.push(c);
    }
    v
}

/// Appends one character to a string (`String::push`).
#[verifier::external_body]
pub(crate) fn push_char(s: &mut String, c: char)
    ensures
        final(s)@ == old(s)@.push(c),
{
    s.push(c);
}

/// Appends a run of characters to a string.
pub fn push_chars(s: &mut String, v: &Vec<char>)
    ensures
        final(s)@ == old(s)@ + v@,
{
    let mut i: usize = 0;
    while i < v.len()
        invariant
            i <= v.len(),
            s@ == old(s)@ + v@.take(i as int),
        decreases v.len() - i,
    {
        push_char(s, v[i]);
        i = i + 1;
        assert(v@.take(i as int) =~= v@.take(i - 1).push(v@[i - 1]));
    }
    assert(v@.take(v.len() as int) =~= v@);
}

/// A string holding exactly the given characters.
pub fn string_from_chars(v: &Vec<char>) -> (s: String)
    ensures
        s@ == v@,
{
    let mut s = String::new();
    push_chars(&mut s, v);
    assert(s@ =~= v@);
    s
}

/// Whether two character buffers hold the same characters.
pub fn chars_equal(a: &Vec<char>, b: &Vec<char>) -> (r: bool)
    ensures
        r == (a@ == b@),
{
    if a.len() != b.len() {
        return false;
    }
    let mut i: usize = 0;
    while i < a.len()
        invariant
            a.len() == b.len(),
            i <= a.len(),
            forall|j: int| 0 <= j < i ==> a@[j] == b@[j],
        decreases a.len() - i,
    {
        if a[i] != b[i] {
            return false;
        }
        i = i + 1;
    }
    assert(a@ =~= b@);
    true
}

// ------------------------------------------------------------------
// White space
// ------------------------------------------------------------------

/// The Unicode `White_Space` property, the set that `char::is_whitespace`
/// (and hence `str::trim` and `str::split_whitespace`) uses.
pub open spec fn is_white_space(c: char) -> bool {
    let v = c as u32;
    ||| 0x9 <= v <= 0xd
    ||| v == 0x20
    ||| v == 0x85
    ||| v == 0xa0
    ||| v == 0x1680
    ||| 0x2000 <= v <= 0x200a
    ||| v == 0x2028
    ||| v == 0x2029
    ||| v == 0x202f
    ||| v == 0x205f
    ||| v == 0x3000
}

/// Whether a character is Unicode white space.
pub fn is_white_space_char(c: char) -> (b: bool)
    ensures
        b == is_white_space(c),
{
    let v: u32 = c as u32;
    (0x9 <= v && v <= 0xd) || v == 0x20 || v == 0x85 || v == 0xa0 || v == 0x1680 || (0x2000 <= v
        && v <= 0x200a) || v == 0x2028 || v == 0x2029 || v == 0x202f || v == 0x205f || v == 0x3000
}

// ------------------------------------------------------------------
// Splitting
// ------------------------------------------------------------------

/// The maximal runs of non-white-space characters of `s`, in order
/// (what `str::split_whitespace` yields, also after `str::trim`).
pub open spec fn words(s: Seq<char>) -> Seq<Seq<char>>
    decreases s.len(),
{
    if s.len() == 0 {
        Seq::empty()
    } else {
        let prev = words(s.drop_last());
        let c = s.last();
        if is_white_space(c) {
            prev
        } else if s.len() >= 2 && !is_white_space(s[s.len() - 2]) {
            prev.update(prev.len() - 1, prev.last().push(c))
        } else {
            prev.push(seq![c])
        }
    }
}

/// The pieces of `s` between occurrences of `sep` (what `str::split` with a
/// character pattern yields): one more piece than there are separators.
pub open spec fn split_char(s: Seq<char>, sep: char) -> Seq<Seq<char>>
    decreases s.len(),
{
    if s.len() == 0 {
        seq![Seq::empty()]
    } else {
        let prev = split_char(s.drop_last(), sep);
        if s.last() == sep {
            prev.push(Seq::empty())
        } else {
            prev.update(prev.len() - 1, prev.last().push(s.last()))
        }
    }
}

/// A string ending in a non-white-space character has at least one word.
pub proof fn lemma_words_nonempty(s: Seq<char>)
    requires
        s.len() > 0,
        !is_white_space(s.last()),
    ensures
        words(s).len() > 0,
    decreases s.len(),
{
    if s.len() >= 2 && !is_white_space(s[s.len() - 2]) {
        lemma_words_nonempty(s.drop_last());
    }
}

/// Splitting always yields at least one piece.
pub proof fn lemma_split_char_nonempty(s: Seq<char>, sep: char)
    ensures
        split_char(s, sep).len() >= 1,
    decreases s.len(),
{
    if s.len() > 0 {
        lemma_split_char_nonempty(s.drop_last(), sep);
    }
}

/// A white-space character separates words: the words on both sides of it
/// are the words of each side, in order.
pub proof fn lemma_words_concat(a: Seq<char>, c: char, b: Seq<char>)
    requires
        is_white_space(c),
    ensures
        words(a + seq![c] + b) == words(a) + words(b),
    decreases b.len(),
{
    let s = a + seq![c] + b;
    if b.len() == 0 {
        assert(s.drop_last() =~= a);
        assert(words(b) =~= Seq::<Seq<char>>::empty());
        assert(words(a) + words(b) =~= words(a));
    } else {
        let b1 = b.drop_last();
        let x = b.last();
        lemma_words_concat(a, c, b1);
        assert(s.drop_last() =~= a + seq![c] + b1);
        assert(s.last() == x);
        let wa = words(a);
        let wb1 = words(b1);
        if is_white_space(x) {
            assert(words(b) == wb1);
        } else if b1.len() > 0 && !is_white_space(b1.last()) {
            assert(s[s.len() - 2] == b1.last());
            assert(b[b.len() - 2] == b1.last());
            lemma_words_nonempty(b1);
            assert(words(b) == wb1.update(wb1.len() - 1, wb1.last().push(x)));
            assert((wa + wb1).update((wa + wb1).len() - 1, (wa + wb1).last().push(x)) =~= wa
                + wb1.update(wb1.len() - 1, wb1.last().push(x)));
        } else {
            if b1.len() > 0 {
                assert(s[s.len() - 2] == b1.last());
                assert(b[b.len() - 2] == b1.last());
            } else {
                assert(s[s.len() - 2] == c);
            }
            assert(words(b) == wb1.push(seq![x]));
            assert((wa + wb1).push(seq![x]) =~= wa + wb1.push(seq![x]));
        }
    }
}

/// A non-empty run of non-white-space characters is a single word.
pub proof fn lemma_words_single(w: Seq<char>)
    requires
        w.len() > 0,
        forall|i: int| 0 <= i < w.len() ==> !is_white_space(#[trigger] w[i]),
    ensures
        words(w) == seq![w],
    decreases w.len(),
{
    let w1 = w.drop_last();
    assert(!is_white_space(w[w.len() - 1]));
    if w1.len() == 0 {
        assert(words(w1) =~= Seq::<Seq<char>>::empty());
        assert(seq![w.last()] =~= w);
    } else {
        assert forall|i: int| 0 <= i < w1.len() implies !is_white_space(#[trigger] w1[i]) by {
            assert(w1[i] == w[i]);
        }
        lemma_words_single(w1);
        assert(!is_white_space(w[w.len() - 2]));
        assert(w1.push(w.last()) =~= w);
    }
}

/// A separator splits the text on both sides of it independently.
pub proof fn lemma_split_char_concat(a: Seq<char>, sep: char, b: Seq<char>)
    ensures
        split_char(a + seq![sep] + b, sep) == split_char(a, sep) + split_char(b, sep),
    decreases b.len(),
{
    let s = a + seq![sep] + b;
    if b.len() == 0 {
        assert(s.drop_last() =~= a);
        assert(split_char(a, sep) + split_char(b, sep) =~= split_char(a, sep).push(Seq::empty()));
    } else {
        let b1 = b.drop_last();
        let x = b.last();
        lemma_split_char_concat(a, sep, b1);
        lemma_split_char_nonempty(b1, sep);
        assert(s.drop_last() =~= a + seq![sep] + b1);
        assert(s.last() == x);
        let pa = split_char(a, sep);
        let pb1 = split_char(b1, sep);
        if x == sep {
            assert((pa + pb1).push(Seq::empty()) =~= pa + pb1.push(Seq::empty()));
        } else {
            assert((pa + pb1).update((pa + pb1).len() - 1, (pa + pb1).last().push(x)) =~= pa
                + pb1.update(pb1.len() - 1, pb1.last().push(x)));
        }
    }
}

/// Text without the separator is a single piece.
pub proof fn lemma_split_char_single(w: Seq<char>, sep: char)
    requires
        !w.contains(sep),
    ensures
        split_char(w, sep) == seq![w],
    decreases w.len(),
{
    if w.len() > 0 {
        let w1 = w.drop_last();
        assert(!w1.contains(sep)) by {
            if w1.contains(sep) {
                let i = choose|i: int| 0 <= i < w1.len() && w1[i] == sep;
                assert(w[i] == sep);
            }
        }
        assert(w[w.len() - 1] == w.last());
        lemma_split_char_single(w1, sep);
        assert(w1.push(w.last()) =~= w);
    } else {
        assert(w =~= Seq::<char>::empty());
    }
}

/// Splits a character buffer into its white-space separated words.
pub fn split_words(s: &Vec<char>) -> (res: Vec<Vec<char>>)
    ensures
        char_vecs_view(res@) == words(s@),
{
    let mut acc: Vec<Vec<char>> = Vec::new();
    let mut cur: Vec<char> = Vec::new();
    let mut i: usize = 0;
    while i < s.len()
        invariant
            i <= s.len(),
            cur@.len() > 0 <==> (i > 0 && !is_white_space(s@[i - 1])),
            words(s@.take(i as int)) == (if cur@.len() == 0 {
                char_vecs_view(acc@)
            } else {
                char_vecs_view(acc@).push(cur@)
            }),
        decreases s.len() - i,
    {
        let c = s[i];
        let ghost before = acc@;
        let ghost old_cur = cur@;
        assert(s@.take(i + 1).drop_last() =~= s@.take(i as int));
        assert(s@.take(i + 1).last() == c);
        if i > 0 {
            assert(s@.take(i + 1)[i - 1] == s@[i - 1]);
        }
        if is_white_space_char(c) {
            if cur.len() > 0 {
                acc.push(cur);
                cur = Vec::new();
                assert(char_vecs_view(acc@) =~= char_vecs_view(before).push(
                    char_vecs_view(acc@).last(),
                ));
            }
        } else {
            cur.push(c);
            if cur.len() > 1 {
                assert(char_vecs_view(acc@).push(cur@) =~= char_vecs_view(before).push(
                    old_cur,
                ).update(char_vecs_view(before).len() as int, old_cur.push(c)));
            } else {
                assert(cur@ =~= seq![c]);
                assert(char_vecs_view(acc@).push(cur@) =~= char_vecs_view(before).push(seq![c]));
            }
        }
        i = i + 1;
    }
    if cur.len() > 0 {
        let ghost before = acc@;
        acc.push(cur);
        assert(char_vecs_view(acc@) =~= char_vecs_view(before).push(char_vecs_view(acc@).last()));
    }
    assert(s@.take(s.len() as int) =~= s@);
    acc
}

/// Splits a character buffer at every occurrence of `sep`.
pub fn split_at_char(s: &Vec<char>, sep: char) -> (res: Vec<Vec<char>>)
    ensures
        char_vecs_view(res@) == split_char(s@, sep),
{
    let mut acc: Vec<Vec<char>> = Vec::new();
    let mut cur: Vec<char> = Vec::new();
    let mut i: usize = 0;
    assert(s@.take(0) =~= Seq::<char>::empty());
    assert(char_vecs_view(acc@).push(cur@) =~= seq![Seq::<char>::empty()]);
    while i < s.len()
        invariant
            i <= s.len(),
            split_char(s@.take(i as int), sep) == char_vecs_view(acc@).push(cur@),
        decreases s.len() - i,
    {
        let c = s[i];
        let ghost before = acc@;
        let ghost old_cur = cur@;
        assert(s@.take(i + 1).drop_last() =~= s@.take(i as int));
        assert(s@.take(i + 1).last() == c);
        if c == sep {
            acc.push(cur);
            cur = Vec::new();
            assert(char_vecs_view(acc@) =~= char_vecs_view(before).push(
                char_vecs_view(acc@).last(),
            ));
            assert(char_vecs_view(acc@).push(cur@) =~= char_vecs_view(before).push(
                char_vecs_view(acc@).last(),
            ).push(Seq::empty()));
        } else {
            cur.push(c);
            assert(char_vecs_view(acc@).push(cur@) =~= char_vecs_view(before).push(
                old_cur,
            ).update(char_vecs_view(before).len() as int, old_cur.push(c)));
        }
        i = i + 1;
    }
    let ghost before = acc@;
    acc.push(cur);
    assert(char_vecs_view(acc@) =~= char_vecs_view(before).push(char_vecs_view(acc@).last()));
    assert(s@.take(s.len() as int) =~= s@);
    acc
}

// ------------------------------------------------------------------
// Decimal numbers
// ------------------------------------------------------------------

/// Whether a character is an ASCII decimal digit.
pub open spec fn is_digit(c: char) -> bool {
    48 <= (c as u32) <= 57
}

/// The ASCII digit for a value below ten.
pub open spec fn digit_char(d: nat) -> char
    recommends
        d < 10,
{
    ((d + 48) as u32) as char
}

/// The decimal text of a natural number, without leading zeros
/// (what `Display` writes for an unsigned integer).
pub open spec fn decimal(n: nat) -> Seq<char>
    decreases n,
{
    if n < 10 {
        seq![digit_char(n)]
    } else {
        decimal(n / 10).push(digit_char(n % 10))
    }
}

/// The value of a run of decimal digits, most significant first.
pub open spec fn digits_value(s: Seq<char>) -> nat
    decreases s.len(),
{
    if s.len() == 0 {
        0
    } else {
        digits_value(s.drop_last()) * 10 + ((s.last() as u32) - 48) as nat
    }
}

/// The digits that `str::parse` reads for an unsigned integer: a leading `+`
/// is dropped.
pub open spec fn unsigned_digits(s: Seq<char>) -> Seq<char> {
    if s.len() > 0 && s[0] == '+' {
        s.drop_first()
    } else {
        s
    }
}

/// What `str::parse` gives for an unsigned integer type whose largest value
/// is `max`: the value when the text is an optional `+` followed by one or
/// more ASCII digits whose value does not exceed `max`, and nothing otherwise.
pub open spec fn parse_unsigned(s: Seq<char>, max: nat) -> Option<nat> {
    let d = unsigned_digits(s);
    if d.len() > 0 && (forall|i: int| 0 <= i < d.len() ==> is_digit(#[trigger] d[i]))
        && digits_value(d) <= max {
        Some(digits_value(d))
    } else {
        None
    }
}

/// The character for a digit value.
fn digit_to_char(d: u64) -> (c: char)
    requires
        d < 10,
    ensures
        c == digit_char(d as nat),
{
    let b: u8 = (d as u8) + 48;
    b as char
}

/// Appends the decimal text of `n`.
pub fn push_decimal(s: &mut String, n: u64)
    ensures
        final(s)@ == old(s)@ + decimal(n as nat),
    decreases n,
{
    if n >= 10 {
        push_decimal(s, n / 10);
    }
    let c = digit_to_char(n % 10);
    push_char(s, c);
    assert(final(s)@ =~= old(s)@ + decimal(n as nat));
}

/// The decimal text of `n` (`u64::to_string`).
pub fn decimal_string(n: u64) -> (s: String)
    ensures
        s@ == decimal(n as nat),
{
    let mut s = String::new();
    push_decimal(&mut s, n);
    assert(s@ =~= decimal(n as nat));
    s
}

/// Reads an unsigned integer not above `max`, as `str::parse` does.
pub fn parse_bounded(s: &Vec<char>, max: u64) -> (r: Option<u64>)
    ensures
        r is Some <==> parse_unsigned(s@, max as nat) is Some,
        r matches Some(v) ==> parse_unsigned(s@, max as nat) == Some(v as nat),
{
    let mut start: usize = 0;
    if s.len() > 0 && s[0] == '+' {
        start = 1;
    }
    let ghost d = unsigned_digits(s@);
    assert(d =~= s@.subrange(start as int, s@.len() as int));
    if start >= s.len() {
        return None;
    }
    let cap: u128 = (max as u128) + 1;
    let mut acc: u128 = 0;
    let mut i: usize = start;
    while i < s.len()
        invariant
            start <= i <= s.len(),
            d == unsigned_digits(s@),
            d =~= s@.subrange(start as int, s@.len() as int),
            cap == max + 1,
            acc <= cap,
            forall|j: int| 0 <= j < i - start ==> is_digit(#[trigger] d[j]),
            acc == if digits_value(d.take(i - start)) < cap {
                digits_value(d.take(i - start))
            } else {
                cap as nat
            },
        decreases s.len() - i,
    {
        let c = s[i];
        let v: u32 = c as u32;
        if v < 48 || v > 57 {
            assert(!is_digit(d[i - start]));
            assert(!(forall|j: int| 0 <= j < d.len() ==> is_digit(#[trigger] d[j])));
            return None;
        }
        assert(d.take(i - start + 1).drop_last() =~= d.take(i - start));
        let next: u128 = acc * 10 + ((v - 48) as u128);
        acc = if next < cap {
            next
        } else {
            cap
        };
        i = i + 1;
    }
    assert(d.take(i - start) =~= d);
    if acc < cap {
        Some(acc as u64)
    } else {
        None
    }
}

/// The decimal text of `n` is a non-empty run of digits whose value is `n`.
pub proof fn lemma_decimal_digits(n: nat)
    ensures
        decimal(n).len() > 0,
        forall|i: int| 0 <= i < decimal(n).len() ==> is_digit(#[trigger] decimal(n)[i]),
        digits_value(decimal(n)) == n,
    decreases n,
{
    if n < 10 {
        assert(digits_value(decimal(n).drop_last()) == 0) by {
            assert(decimal(n).drop_last() =~= Seq::<char>::empty());
        }
    } else {
        lemma_decimal_digits(n / 10);
        let d = decimal(n);
        assert(d.drop_last() =~= decimal(n / 10));
        assert forall|i: int| 0 <= i < d.len() implies is_digit(#[trigger] d[i]) by {
            if i < d.len() - 1 {
                assert(d[i] == decimal(n / 10)[i]);
            }
        }
        assert(n == (n / 10) * 10 + n % 10);
    }
}

/// Reading the decimal text of a number gives the number back, when it is in range.
pub proof fn lemma_parse_decimal(n: nat, max: nat)
    requires
        n <= max,
    ensures
        parse_unsigned(decimal(n), max) == Some(n),
{
    lemma_decimal_digits(n);
    assert(is_digit(decimal(n)[0]));
    assert(unsigned_digits(decimal(n)) == decimal(n));
}

} // verus!

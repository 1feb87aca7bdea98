//! Character-level helpers shared by the rest of the crate.

use vstd::prelude::*;

verus! {

/// `String::push` of the standard library: the string afterwards is the
/// string before with the character appended at its end.
pub assume_specification[ String::push ](s: &mut String, ch: char)
    ensures
        final(s)@ == old(s)@.push(ch),
;

/// `==` on `str` (`PartialEq::eq`) of the standard library: two string
/// slices are equal exactly when they hold the same characters in the same
/// order.
pub assume_specification[ <str as PartialEq>::eq ](a: &str, b: &str) -> (same: bool)
    ensures
        same == (a@ == b@),
;

/// The characters with the Unicode `White_Space` property.
pub open spec fn spec_is_whitespace(c: char) -> bool {
    let n = c as u32;
    ||| 0x09 <= n <= 0x0D
    ||| n == 0x20
    ||| n == 0x85
    ||| n == 0xA0
    ||| n == 0x1680
    ||| 0x2000 <= n <= 0x200A
    ||| n == 0x2028
    ||| n == 0x2029
    ||| n == 0x202F
    ||| n == 0x205F
    ||| n == 0x3000
}

/// A string is blank when every character of it is white space.
pub open spec fn spec_is_blank(s: Seq<char>) -> bool {
    forall|i: int| 0 <= i < s.len() ==> spec_is_whitespace(#[trigger] s[i])
}

/// Whether the character is white space.
pub fn is_whitespace(c: char) -> (b: bool)
    ensures
        b == spec_is_whitespace(c),
{
    let n: u32 = c as u32;
    (0x09 <= n && n <= 0x0D) || n == 0x20 || n == 0x85 || n == 0xA0 || n == 0x1680 || (0x2000 <= n
        && n <= 0x200A) || n == 0x2028 || n == 0x2029 || n == 0x202F || n == 0x205F || n == 0x3000
}

/// The characters of a string, in order.
pub fn to_chars(s: &str) -> (v: Vec<char>)
    ensures
        v@ == s@,
{
    let mut v: Vec<char> = Vec::new();
    for c in it: s.chars()
        invariant
            it.seq() == s@,
            v@ == it.seq().take(it.index()),
    {
        v.push(c);
        assert(it.seq().take(it.index() + 1) =~= it.seq().take(it.index()).push(c));
    }
    assert(s@.take(s@.len() as int) =~= s@);
    v
}

/// The string made of the given characters.
pub fn from_chars(v: &Vec<char>) -> (s: String)
    ensures
        s@ == v@,
{
    let mut s = String::new();
    let mut i: usize = 0;
    while i < v.len()
        invariant
            0 <= i <= v.len(),
            s@ == v@.take(i as int),
        decreases v.len() - i,
    {
        s.push(v[i]);
        assert(v@.take(i + 1) =~= v@.take(i as int).push(v@[i as int]));
        i += 1;
    }
    assert(v@.take(v@.len() as int) =~= v@);
    s
}

/// Whether the string is blank: empty, or white space only.
pub fn is_blank(s: &str) -> (b: bool)
    ensures
        b == spec_is_blank(s@),
{
    let v = to_chars(s);
    let mut i: usize = 0;
    while i < v.len()
        invariant
            0 <= i <= v.len(),
            v@ == s@,
            forall|j: int| 0 <= j < i ==> spec_is_whitespace(#[trigger] v@[j]),
        decreases v.len() - i,
    {
        if !is_whitespace(v[i]) {
            return false;
        }
        i += 1;
    }
    true
}

/// The string without the white space at its start.
pub open spec fn spec_trim_start(s: Seq<char>) -> Seq<char>
    decreases s.len(),
{
    if s.len() > 0 && spec_is_whitespace(s.first()) {
        spec_trim_start(s.drop_first())
    } else {
        s
    }
}

/// The string without the white space at its end.
pub open spec fn spec_trim_end(s: Seq<char>) -> Seq<char>
    decreases s.len(),
{
    if s.len() > 0 && spec_is_whitespace(s.last()) {
        spec_trim_end(s.drop_last())
    } else {
        s
    }
}

/// The string without the white space at its start and at its end.
pub open spec fn spec_trim(s: Seq<char>) -> Seq<char> {
    spec_trim_end(spec_trim_start(s))
}

/// The string without the white space at its start and at its end.
pub fn trim(s: &str) -> (trimmed: String)
    ensures
        trimmed@ == spec_trim(s@),
{
    let chars = to_chars(s);
    let mut start: usize = 0;
    assert(chars@.skip(0) =~= chars@);
    while start < chars.len() && is_whitespace(chars[start])
        invariant
            0 <= start <= chars.len(),
            spec_trim_start(chars@) == spec_trim_start(chars@.skip(start as int)),
        decreases chars.len() - start,
    {
        assert(chars@.skip(start as int).drop_first() =~= chars@.skip(start + 1));
        start += 1;
    }
    assert(spec_trim_start(chars@) == chars@.skip(start as int));
    let mut end: usize = chars.len();
    assert(chars@.subrange(start as int, end as int) =~= chars@.skip(start as int));
    while end > start && is_whitespace(chars[end - 1])
        invariant
            start <= end <= chars.len(),
            spec_trim(chars@) == spec_trim_end(chars@.subrange(start as int, end as int)),
        decreases end,
    {
        assert(chars@.subrange(start as int, end as int).drop_last() =~= chars@.subrange(
            start as int,
            end - 1,
        ));
        end -= 1;
    }
    let mut out: Vec<char> = Vec::new();
    let mut i: usize = start;
    while i < end
        invariant
            start <= i <= end <= chars.len(),
            out@ == chars@.subrange(start as int, i as int),
        decreases end - i,
    {
        out.push(chars[i]);
        assert(chars@.subrange(start as int, i + 1) =~= chars@.subrange(
            start as int,
            i as int,
        ).push(chars@[i as int]));
        i += 1;
    }
    from_chars(&out)
}

/// The character of a decimal digit.
pub open spec fn spec_digit(d: nat) -> char {
    if d == 0 {
        '0'
    } else if d == 1 {
        '1'
    } else if d == 2 {
        '2'
    } else if d == 3 {
        '3'
    } else if d == 4 {
        '4'
    } else if d == 5 {
        '5'
    } else if d == 6 {
        '6'
    } else if d == 7 {
        '7'
    } else if d == 8 {
        '8'
    } else {
        '9'
    }
}

/// The number in decimal digits, without leading zeros.
pub open spec fn spec_decimal(n: nat) -> Seq<char>
    decreases n,
{
    if n < 10 {
        seq![spec_digit(n)]
    } else {
        spec_decimal(n / 10).push(spec_digit(n % 10))
    }
}

fn digit(d: u64) -> (c: char)
    requires
        d < 10,
    ensures
        c == spec_digit(d as nat),
{
    if d == 0 {
        '0'
    } else if d == 1 {
        '1'
    } else if d == 2 {
        '2'
    } else if d == 3 {
        '3'
    } else if d == 4 {
        '4'
    } else if d == 5 {
        '5'
    } else if d == 6 {
        '6'
    } else if d == 7 {
        '7'
    } else if d == 8 {
        '8'
    } else {
        '9'
    }
}

/// Appends the number in decimal digits.
pub fn push_decimal(s: &mut String, n: u64)
    ensures
        final(s)@ == old(s)@ + spec_decimal(n as nat),
    decreases n,
{
    if n < 10 {
        s.push(digit(n));
        assert(s@ =~= old(s)@ + spec_decimal(n as nat));
    } else {
        push_decimal(s, n / 10);
        s.push(digit(n % 10));
        assert(s@ =~= old(s)@ + spec_decimal(n as nat));
    }
}

/// The number in decimal digits.
pub fn to_decimal(n: usize) -> (s: String)
    ensures
        s@ == spec_decimal(n as nat),
{
    let mut s = String::new();
    push_decimal(&mut s, n as u64);
    assert(s@ =~= spec_decimal(n as nat));
    s
}

/// The string with each occurrence of the pattern replaced, from the left
/// and without overlap. An empty pattern replaces nothing.
pub open spec fn spec_replace(s: Seq<char>, pat: Seq<char>, with: Seq<char>) -> Seq<char>
    decreases s.len(),
{
    if pat.len() == 0 || s.len() < pat.len() {
        s
    } else if s.take(pat.len() as int) == pat {
        with + spec_replace(s.skip(pat.len() as int), pat, with)
    } else {
        seq![s[0]] + spec_replace(s.skip(1), pat, with)
    }
}

/// Whether the pattern stands in the text at the given place.
fn matches_at(text: &Vec<char>, at: usize, pat: &Vec<char>) -> (found: bool)
    requires
        at <= text@.len(),
    ensures
        found == (at + pat@.len() <= text@.len() && text@.skip(at as int).take(pat@.len() as int)
            == pat@),
{
    if pat.len() > text.len() - at {
        return false;
    }
    let mut k: usize = 0;
    while k < pat.len()
        invariant
            0 <= k <= pat.len(),
            at + pat@.len() <= text@.len() <= usize::MAX,
            forall|j: int| 0 <= j < k ==> text@[at + j] == pat@[j],
        decreases pat.len() - k,
    {
        if text[at + k] != pat[k] {
            assert(text@.skip(at as int).take(pat@.len() as int)[k as int] != pat@[k as int]);
            return false;
        }
        k += 1;
    }
    assert(text@.skip(at as int).take(pat@.len() as int) =~= pat@);
    true
}

/// The string with each occurrence of the pattern replaced, from the left
/// and without overlap. An empty pattern replaces nothing.
pub fn replace_all(s: &str, pat: &str, with: &str) -> (replaced: String)
    ensures
        replaced@ == spec_replace(s@, pat@, with@),
{
    let text = to_chars(s);
    let pattern = to_chars(pat);
    let mut out = String::new();
    let mut i: usize = 0;
    assert(text@.skip(0) =~= text@);
    assert(out@ + spec_replace(text@, pattern@, with@) =~= spec_replace(text@, pattern@, with@));
    while i < text.len()
        invariant
            0 <= i <= text.len(),
            text@ == s@,
            pattern@ == pat@,
            out@ + spec_replace(text@.skip(i as int), pattern@, with@) == spec_replace(
                text@,
                pattern@,
                with@,
            ),
        decreases text.len() - i,
    {
        let ghost rest = text@.skip(i as int);
        let ghost before = out@;
        if pattern.len() > 0 && matches_at(&text, i, &pattern) {
            out.append(with);
            proof {
                assert(rest.skip(pattern@.len() as int) =~= text@.skip(i + pattern@.len()));
                assert(out@ + spec_replace(text@.skip(i + pattern@.len()), pattern@, with@) =~= before
                    + spec_replace(rest, pattern@, with@));
            }
            i += pattern.len();
        } else {
            out.push(text[i]);
            proof {
                assert(rest.skip(1) =~= text@.skip(i + 1));
                if pattern@.len() == 0 || rest.len() < pattern@.len() {
                    assert(spec_replace(rest, pattern@, with@) == rest);
                    assert(spec_replace(rest.skip(1), pattern@, with@) == rest.skip(1));
                    assert(rest =~= seq![rest[0]] + rest.skip(1));
                }
                assert(spec_replace(rest, pattern@, with@) == seq![rest[0]] + spec_replace(
                    rest.skip(1),
                    pattern@,
                    with@,
                ));
                assert(out@ + spec_replace(text@.skip(i + 1), pattern@, with@) =~= before
                    + spec_replace(rest, pattern@, with@));
            }
            i += 1;
        }
    }
    assert(out@ + Seq::<char>::empty() =~= out@);
    out
}

/// The strings put together with the separator between each two of them.
pub open spec fn spec_join(items: Seq<Seq<char>>, sep: Seq<char>) -> Seq<char>
    decreases items.len(),
{
    if items.len() == 0 {
        Seq::empty()
    } else if items.len() == 1 {
        items[0]
    } else {
        spec_join(items.drop_last(), sep) + sep + items.last()
    }
}

/// The strings put together with the separator between each two of them.
pub fn join(items: &[String], sep: &str) -> (joined: String)
    ensures
        joined@ == spec_join(items@.map_values(|s: String| s@), sep@),
{
    let ghost all = items@.map_values(|s: String| s@);
    let mut joined = String::new();
    let mut i: usize = 0;
    assert(all.take(0) =~= Seq::<Seq<char>>::empty());
    while i < items.len()
        invariant
            0 <= i <= items.len(),
            all == items@.map_values(|s: String| s@),
            joined@ == spec_join(all.take(i as int), sep@),
        decreases items.len() - i,
    {
        let ghost before = joined@;
        proof {
            assert(all.take(i + 1).drop_last() =~= all.take(i as int));
            assert(all.take(i + 1).last() == items@[i as int]@);
        }
        if i > 0 {
            joined.append(sep);
        }
        joined.append(items[i].as_str());
        assert(joined@ =~= spec_join(all.take(i + 1), sep@));
        i += 1;
    }
    assert(all.take(all.len() as int) =~= all);
    joined
}

/// The words of a text: its longest runs of characters that are no white
/// space, in order.
pub open spec fn spec_words(s: Seq<char>) -> Seq<Seq<char>>
    decreases s.len(),
{
    if s.len() == 0 {
        Seq::empty()
    } else {
        let before = spec_words(s.drop_last());
        if spec_is_whitespace(s.last()) {
            before
        } else if s.len() >= 2 && !spec_is_whitespace(s[s.len() - 2]) {
            before.drop_last().push(before.last().push(s.last()))
        } else {
            before.push(seq![s.last()])
        }
    }
}

/// The words that are complete at the end of the text, and the word that
/// is still open there.
pub open spec fn spec_open_word(s: Seq<char>) -> (Seq<Seq<char>>, Seq<char>) {
    if s.len() > 0 && !spec_is_whitespace(s.last()) {
        (spec_words(s).drop_last(), spec_words(s).last())
    } else {
        (spec_words(s), Seq::empty())
    }
}

/// A text that does not end in white space has a last word, and that word
/// is not empty.
pub proof fn lemma_words_open(s: Seq<char>)
    requires
        s.len() > 0,
        !spec_is_whitespace(s.last()),
    ensures
        spec_words(s).len() > 0,
        spec_words(s).last().len() > 0,
    decreases s.len(),
{
    if s.len() >= 2 && !spec_is_whitespace(s[s.len() - 2]) {
        lemma_words_open(s.drop_last());
    }
}

/// The words of a text: its longest runs of characters that are no white
/// space, in order.
pub fn split_whitespace(s: &str) -> (words: Vec<String>)
    ensures
        words@.map_values(|w: String| w@) == spec_words(s@),
{
    let chars = to_chars(s);
    let mut words: Vec<String> = Vec::new();
    let mut word: Vec<char> = Vec::new();
    let mut i: usize = 0;
    assert(chars@.take(0) =~= Seq::<char>::empty());
    assert(words@.map_values(|w: String| w@) =~= Seq::<Seq<char>>::empty());
    while i < chars.len()
        invariant
            0 <= i <= chars.len(),
            chars@ == s@,
            (words@.map_values(|w: String| w@), word@) == spec_open_word(chars@.take(i as int)),
        decreases chars.len() - i,
    {
        let ghost done = chars@.take(i as int);
        let ghost next = chars@.take(i + 1);
        let ghost list = words@.map_values(|w: String| w@);
        let ghost open = word@;
        proof {
            assert(next.drop_last() =~= done);
            assert(next.last() == chars@[i as int]);
            if i > 0 {
                assert(next[next.len() - 2] == done.last());
                if !spec_is_whitespace(done.last()) {
                    lemma_words_open(done);
                    assert(spec_words(done) =~= list.push(open));
                }
            }
        }
        if is_whitespace(chars[i]) {
            if word.len() > 0 {
                words.push(from_chars(&word));
                word = Vec::new();
                assert(words@.map_values(|w: String| w@) =~= list.push(open));
            }
        } else {
            word.push(chars[i]);
            proof {
                lemma_words_open(next);
                if i > 0 && !spec_is_whitespace(done.last()) {
                    assert(spec_words(next).drop_last() =~= list);
                } else {
                    assert(spec_words(next).drop_last() =~= list);
                    assert(word@ =~= seq![chars@[i as int]]);
                }
            }
        }
        i += 1;
    }
    assert(chars@.take(chars@.len() as int) =~= chars@);
    let ghost list = words@.map_values(|w: String| w@);
    if word.len() > 0 {
        proof {
            lemma_words_open(chars@);
        }
        words.push(from_chars(&word));
        assert(words@.map_values(|w: String| w@) =~= list.push(word@));
        assert(spec_words(chars@) =~= list.push(word@));
    }
    words
}

} // verus!

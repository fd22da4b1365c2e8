//! Text building blocks: characters, decimal numbers, words and joining.

use vstd::prelude::*;
use vstd::string::*;

verus! {

/// `String::push` appends one character to the end of a text.
pub assume_specification[ String::push ](s: &mut String, c: char)
    ensures
        final(s)@ == old(s)@.push(c),
;

/// `char::is_whitespace` holds of exactly the characters with the Unicode
/// `White_Space` property, which [`is_white`] lists.
pub assume_specification[ char::is_whitespace ](c: char) -> (white: bool)
    ensures
        white == is_white(c),
;

/// The characters with the Unicode `White_Space` property.
pub open spec fn is_white(c: char) -> bool {
    let code = c as u32;
    ||| 0x0009 <= code <= 0x000D
    ||| code == 0x0020
    ||| code == 0x0085
    ||| code == 0x00A0
    ||| code == 0x1680
    ||| 0x2000 <= code <= 0x200A
    ||| code == 0x2028
    ||| code == 0x2029
    ||| code == 0x202F
    ||| code == 0x205F
    ||| code == 0x3000
}

/// The texts of a sequence of strings.
pub open spec fn texts(strings: Seq<String>) -> Seq<Seq<char>> {
    Seq::new(strings.len(), |i: int| strings[i]@)
}

/// A text that may be there.
pub open spec fn optional(text: Option<String>) -> Option<Seq<char>> {
    match text {
        Some(text) => Some(text@),
        None => None,
    }
}

/// The decimal digits of `n`, without leading zeros.
pub open spec fn decimal_text(n: nat) -> Seq<char>
    decreases n,
{
    if n < 10 {
        seq![digit_char(n)]
    } else {
        decimal_text(n / 10).push(digit_char(n % 10))
    }
}

/// The decimal digit `d`.
pub open spec fn digit_char(d: nat) -> char {
    ('0' as u32 + d) as char
}

/// The decimal form of a signed number: a minus sign in front of a negative one.
pub open spec fn signed_text(n: int) -> Seq<char> {
    if n < 0 {
        seq!['-'] + decimal_text((-n) as nat)
    } else {
        decimal_text(n as nat)
    }
}

/// `parts` in order, with `sep` between neighbours.
pub open spec fn joined(parts: Seq<Seq<char>>, sep: Seq<char>) -> Seq<char>
    decreases parts.len(),
{
    if parts.len() == 0 {
        Seq::empty()
    } else if parts.len() == 1 {
        parts[0]
    } else {
        joined(parts.drop_last(), sep) + sep + parts.last()
    }
}

/// The maximal runs of characters that are not white space, in order.
pub open spec fn words(s: Seq<char>) -> Seq<Seq<char>>
    decreases s.len(),
{
    if s.len() == 0 {
        Seq::empty()
    } else {
        let before = words(s.drop_last());
        let c = s.last();
        if is_white(c) {
            before
        } else if s.len() == 1 || is_white(s[s.len() - 2]) {
            before.push(seq![c])
        } else {
            before.drop_last().push(before.last().push(c))
        }
    }
}

/// `s` without the white space at its two ends.
pub open spec fn trimmed(s: Seq<char>) -> Seq<char>
    decreases s.len(),
{
    if s.len() == 0 {
        s
    } else if is_white(s[0]) {
        trimmed(s.drop_first())
    } else if is_white(s.last()) {
        trimmed(s.drop_last())
    } else {
        s
    }
}

/// Words are not empty and hold no white space, and a text that ends in
/// something else than white space ends in its last word.
pub proof fn lemma_words(s: Seq<char>)
    ensures
        forall|i: int| #![trigger words(s)[i]]
            0 <= i < words(s).len() ==> words(s)[i].len() > 0 && no_white(words(s)[i]),
        s.len() > 0 && !is_white(s.last()) ==> words(s).len() > 0,
    decreases s.len(),
{
    if s.len() > 0 {
        lemma_words(s.drop_last());
        let before = words(s.drop_last());
        let c = s.last();
        if !is_white(c) && s.len() > 1 && !is_white(s[s.len() - 2]) {
            assert(s.drop_last().last() == s[s.len() - 2]);
            assert(before.len() > 0);
            assert(before.last() == before[before.len() - 1]);
            assert(no_white(before.last()));
        }
    }
}

/// No character of `s` is white space.
pub open spec fn no_white(s: Seq<char>) -> bool {
    forall|i: int| 0 <= i < s.len() ==> !is_white(#[trigger] s[i])
}

/// Joining one more part.
pub proof fn lemma_joined_push(parts: Seq<Seq<char>>, sep: Seq<char>, part: Seq<char>)
    ensures
        joined(parts.push(part), sep) == if parts.len() == 0 {
            part
        } else {
            joined(parts, sep) + sep + part
        },
{
    assert(parts.push(part).drop_last() =~= parts);
}

/// Lengthening the last part lengthens the joined text.
pub proof fn lemma_joined_extend(parts: Seq<Seq<char>>, sep: Seq<char>, c: char)
    requires
        parts.len() > 0,
    ensures
        joined(parts.drop_last().push(parts.last().push(c)), sep) == joined(parts, sep).push(c),
{
    let longer = parts.drop_last().push(parts.last().push(c));
    lemma_joined_push(parts.drop_last(), sep, parts.last().push(c));
    lemma_joined_push(parts.drop_last(), sep, parts.last());
    assert(parts.drop_last().push(parts.last()) =~= parts);
    assert(joined(longer, sep) =~= joined(parts, sep).push(c));
}

/// Joining without a separator, one more part in front.
pub proof fn lemma_joined_cons(part: Seq<char>, parts: Seq<Seq<char>>)
    ensures
        joined(seq![part] + parts, Seq::empty()) == part + joined(parts, Seq::empty()),
    decreases parts.len(),
{
    let all = seq![part] + parts;
    if parts.len() == 0 {
        assert(part + joined(parts, Seq::empty()) =~= part);
    } else {
        lemma_joined_cons(part, parts.drop_last());
        assert(all.drop_last() =~= seq![part] + parts.drop_last());
        lemma_joined_push(parts.drop_last(), Seq::empty(), parts.last());
        assert(parts.drop_last().push(parts.last()) =~= parts);
        assert(joined(all, Seq::empty()) =~= part + joined(parts, Seq::empty()));
    }
}

/// A word at the end of a text, after a space or at its start, is its last word.
proof fn lemma_words_append(s: Seq<char>, word: Seq<char>)
    requires
        word.len() > 0,
        no_white(word),
        s.len() > 0 ==> is_white(s.last()),
    ensures
        words(s + word) == words(s).push(word),
    decreases word.len(),
{
    let all = s + word;
    let c = word.last();
    assert(all.drop_last() =~= s + word.drop_last());
    assert(all.last() == c);
    assert(!is_white(word[word.len() - 1]));
    if word.len() == 1 {
        assert(all.drop_last() =~= s);
        assert(word =~= seq![c]);
    } else {
        assert forall|i: int| 0 <= i < word.drop_last().len() implies !is_white(
            #[trigger] word.drop_last()[i],
        ) by {
            assert(!is_white(word[i]));
        }
        lemma_words_append(s, word.drop_last());
        assert(!is_white(word[word.len() - 2]));
        assert(all[all.len() - 2] == word[word.len() - 2]);
        let before = words(s).push(word.drop_last());
        assert(before.drop_last() =~= words(s));
        assert(word.drop_last().push(c) =~= word);
    }
}

/// Words that were joined by single spaces are the words of the joined text.
pub proof fn lemma_words_joined(parts: Seq<Seq<char>>)
    requires
        forall|i: int| #![trigger parts[i]]
            0 <= i < parts.len() ==> parts[i].len() > 0 && no_white(parts[i]),
    ensures
        words(joined(parts, seq![' '])) == parts,
    decreases parts.len(),
{
    let sep = seq![' '];
    if parts.len() == 1 {
        lemma_words_append(Seq::empty(), parts[0]);
        assert(Seq::empty() + parts[0] =~= parts[0]);
        assert(Seq::<Seq<char>>::empty().push(parts[0]) =~= parts);
    } else if parts.len() > 1 {
        let before = joined(parts.drop_last(), sep);
        lemma_words_joined(parts.drop_last());
        assert((before + sep).drop_last() =~= before);
        assert(words(before + sep) == parts.drop_last());
        assert(parts.last() == parts[parts.len() - 1]);
        lemma_words_append(before + sep, parts.last());
        assert(parts.drop_last().push(parts.last()) =~= parts);
    }
}

/// The characters of `text`, in order.
pub fn chars_of(text: &str) -> (chars: Vec<char>)
    ensures
        chars@ == text@,
{
    let mut chars: Vec<char> = Vec::new();
    for c in it: text.chars()
        invariant
            it.seq() == text@,
            chars@ == text@.take(it.index() as int),
    {
        chars.push(c);
    }
    chars
}

/// The text made of `chars`.
pub fn text_of(chars: &[char]) -> (text: String)
    ensures
        text@ == chars@,
{
    let mut text = String::new();
    let mut i: usize = 0;
    while i < chars.len()
        invariant
            i <= chars.len(),
            text@ == chars@.take(i as int),
        decreases chars.len() - i,
    {
        text.push(chars[i]);
        i += 1;
    }
    text
}

/// A copy of a list of texts.
pub fn copy_texts(list: &Vec<String>) -> (copy: Vec<String>)
    ensures
        texts(copy@) == texts(list@),
{
    let ghost want = texts(list@);
    let mut copy: Vec<String> = Vec::new();
    let mut i: usize = 0;
    assert(texts(copy@) =~= want.take(0));
    while i < list.len()
        invariant
            i <= list@.len(),
            want == texts(list@),
            texts(copy@) == want.take(i as int),
        decreases list@.len() - i,
    {
        let ghost done = copy@;
        let item: String = list[i].clone();
        assert(item@ == want[i as int]);
        copy.push(item);
        assert(texts(copy@) =~= texts(done).push(item@));
        i += 1;
        assert(texts(copy@) =~= want.take(i as int));
    }
    assert(want.take(i as int) =~= want);
    copy
}

/// Whether two texts are the same.
pub fn same_text(a: &str, b: &str) -> (same: bool)
    ensures
        same == (a@ == b@),
{
    a.to_owned() == b.to_owned()
}

/// Whether a text has no characters.
pub fn is_blank(text: &str) -> (blank: bool)
    ensures
        blank == (text@.len() == 0),
{
    let chars: Vec<char> = chars_of(text);
    chars.len() == 0
}

/// Two texts, one after the other.
pub fn appended(a: &str, b: &str) -> (text: String)
    ensures
        text@ == a@ + b@,
{
    let mut text = a.to_string();
    text.append(b);
    text
}

fn digit(d: u64) -> (c: char)
    requires
        d < 10,
    ensures
        c == digit_char(d as nat),
{
    (48u8 + d as u8) as char
}

/// The decimal form of `n`.
pub fn decimal(n: u64) -> (text: String)
    ensures
        text@ == decimal_text(n as nat),
    decreases n,
{
    if n < 10 {
        let mut text = String::new();
        text.push(digit(n));
        text
    } else {
        let mut text = decimal(n / 10);
        text.push(digit(n % 10));
        text
    }
}

/// The decimal form of a signed number.
pub fn signed_decimal(n: i32) -> (text: String)
    ensures
        text@ == signed_text(n as int),
{
    if n < 0 {
        let mut text = String::new();
        text.push('-');
        text.append(decimal((-(n as i64)) as u64).as_str());
        text
    } else {
        decimal(n as u64)
    }
}

/// The words of `text`, joined by single spaces.
pub fn join_words(text: &str) -> (line: String)
    ensures
        line@ == joined(words(text@), seq![' ']),
{
    let chars = chars_of(text);
    let mut line = String::new();
    let mut started = false;
    let mut gap = true;
    let mut i: usize = 0;
    while i < chars.len()
        invariant
            i <= chars.len(),
            line@ == joined(words(chars@.take(i as int)), seq![' ']),
            started == (words(chars@.take(i as int)).len() > 0),
            gap == (i == 0 || is_white(chars@[i - 1])),
        decreases chars.len() - i,
    {
        let c = chars[i];
        let ghost head = chars@.take(i as int);
        let ghost next = chars@.take(i + 1);
        proof {
            assert(next.drop_last() =~= head);
            assert(next.last() == c);
            lemma_words(head);
            lemma_words(next);
            if i > 0 {
                assert(next[next.len() - 2] == chars@[i - 1]);
                assert(head.last() == chars@[i - 1]);
            }
        }
        if c.is_whitespace() {
            gap = true;
        } else {
            proof {
                if gap {
                    lemma_joined_push(words(head), seq![' '], seq![c]);
                } else {
                    lemma_joined_extend(words(head), seq![' '], c);
                }
            }
            if gap && started {
                line.push(' ');
            }
            line.push(c);
            assert(line@ =~= joined(words(next), seq![' ']));
            started = true;
            gap = false;
        }
        i += 1;
    }
    assert(chars@.take(i as int) =~= text@);
    line
}

/// `text` without the white space at its two ends.
pub fn trim(text: &str) -> (inner: String)
    ensures
        inner@ == trimmed(text@),
{
    let chars = chars_of(text);
    let mut from: usize = 0;
    let mut to: usize = chars.len();
    assert(chars@.subrange(0, chars@.len() as int) =~= text@);
    while from < to && chars[from].is_whitespace()
        invariant
            from <= to == chars.len(),
            trimmed(chars@.subrange(from as int, to as int)) == trimmed(text@),
            chars@ == text@,
        decreases to - from,
    {
        assert(chars@.subrange(from as int, to as int).drop_first() =~= chars@.subrange(
            from + 1,
            to as int,
        ));
        from += 1;
    }
    while from < to && chars[to - 1].is_whitespace()
        invariant
            from <= to <= chars.len(),
            from < to ==> !is_white(chars@[from as int]),
            trimmed(chars@.subrange(from as int, to as int)) == trimmed(text@),
        decreases to - from,
    {
        assert(chars@.subrange(from as int, to as int).drop_last() =~= chars@.subrange(
            from as int,
            to - 1,
        ));
        to -= 1;
    }
    text_of(vstd::slice::slice_subrange(chars.as_slice(), from, to))
}

// ---------------------------------------------------------------------------
// Laws
// ---------------------------------------------------------------------------

/// The number that decimal digits stand for.
pub open spec fn decimal_value(s: Seq<char>) -> int
    decreases s.len(),
{
    if s.len() == 0 {
        0
    } else {
        decimal_value(s.drop_last()) * 10 + (s.last() as u32 - '0' as u32)
    }
}

/// A number is written in decimal digits that stand for it, without a leading zero.
pub proof fn law_decimal(n: nat)
    ensures
        decimal_value(decimal_text(n)) == n,
        decimal_text(n).len() > 0,
        forall|i: int| #![trigger decimal_text(n)[i]]
            0 <= i < decimal_text(n).len() ==> '0' <= decimal_text(n)[i] <= '9',
        n > 0 ==> decimal_text(n)[0] != '0',
    decreases n,
{
    let s = decimal_text(n);
    if n < 10 {
        assert(s.drop_last() =~= Seq::empty());
        assert(decimal_value(s.drop_last()) == 0);
    } else {
        law_decimal(n / 10);
        assert(s.drop_last() =~= decimal_text(n / 10));
        assert forall|i: int| #![trigger s[i]] 0 <= i < s.len() implies '0' <= s[i] <= '9' by {
            if i < s.len() - 1 {
                assert(s[i] == decimal_text(n / 10)[i]);
            }
        }
        assert(s[0] == decimal_text(n / 10)[0]);
    }
}

/// A negative number is written as a minus sign and its size; any other without a sign.
pub proof fn law_signed(n: int)
    ensures
        n >= 0 ==> decimal_value(signed_text(n)) == n,
        n < 0 ==> signed_text(n)[0] == '-' && decimal_value(signed_text(n).skip(1)) == -n,
{
    if n < 0 {
        law_decimal((-n) as nat);
        assert(signed_text(n).skip(1) =~= decimal_text((-n) as nat));
    } else {
        law_decimal(n as nat);
    }
}

/// Joining two lists joins the joined texts.
pub proof fn law_joined(a: Seq<Seq<char>>, b: Seq<Seq<char>>, sep: Seq<char>)
    ensures
        a.len() > 0 && b.len() > 0 ==> joined(a + b, sep) == joined(a, sep) + sep + joined(b, sep),
        a.len() == 0 ==> joined(a + b, sep) == joined(b, sep),
        b.len() == 0 ==> joined(a + b, sep) == joined(a, sep),
        a.len() == 1 ==> joined(a, sep) == a[0],
    decreases b.len(),
{
    if a.len() == 0 {
        assert(a + b =~= b);
    } else if b.len() == 0 {
        assert(a + b =~= a);
    } else if b.len() == 1 {
        assert((a + b).drop_last() =~= a);
    } else {
        law_joined(a, b.drop_last(), sep);
        assert((a + b).drop_last() =~= a + b.drop_last());
        assert(joined(a + b, sep) =~= joined(a, sep) + sep + joined(b, sep));
    }
}

/// White space parts words: the words of two texts with white space between them are
/// those of the first and then those of the second.
pub proof fn law_words(a: Seq<char>, white: char, b: Seq<char>)
    requires
        is_white(white),
    ensures
        words(a + seq![white] + b) == words(a) + words(b),
    decreases b.len(),
{
    let all = a + seq![white] + b;
    if b.len() == 0 {
        assert(all.drop_last() =~= a);
        assert(words(a) + words(b) =~= words(a));
    } else {
        law_words(a, white, b.drop_last());
        lemma_words(b.drop_last());
        assert(all.drop_last() =~= a + seq![white] + b.drop_last());
        let c = b.last();
        assert(all.last() == c);
        if b.len() == 1 {
            assert(all[all.len() - 2] == white);
            assert(b.drop_last() =~= Seq::empty());
        } else {
            assert(all[all.len() - 2] == b[b.len() - 2]);
            assert(b.drop_last().last() == b[b.len() - 2]);
        }
        let before = words(b.drop_last());
        let whole = words(a) + before;
        if before.len() > 0 {
            assert(whole.drop_last() =~= words(a) + before.drop_last());
            assert(whole.last() == before.last());
        }
        assert(words(all) =~= words(a) + words(b));
    }
}

/// A text without white space is one word, where it is not empty.
pub proof fn law_one_word(s: Seq<char>)
    requires
        no_white(s),
    ensures
        words(s) == if s.len() == 0 {
            Seq::empty()
        } else {
            seq![s]
        },
{
    if s.len() > 0 {
        lemma_words_append(Seq::empty(), s);
        assert(Seq::empty() + s =~= s);
        assert(words(Seq::<char>::empty()).push(s) =~= seq![s]);
    }
}

/// All characters of `s` before `i` and from `j` on are white space.
pub open spec fn white_outside(s: Seq<char>, i: int, j: int) -> bool {
    forall|k: int| 0 <= k < i || j <= k < s.len() ==> is_white(#[trigger] s[k])
}

/// Where trimming cuts.
proof fn lemma_trimmed(s: Seq<char>) -> (range: (int, int))
    ensures
        0 <= range.0 <= range.1 <= s.len(),
        trimmed(s) == s.subrange(range.0, range.1),
        white_outside(s, range.0, range.1),
        trimmed(s).len() > 0 ==> !is_white(trimmed(s)[0]) && !is_white(trimmed(s).last()),
    decreases s.len(),
{
    if s.len() == 0 {
        assert(s.subrange(0, 0) =~= trimmed(s));
        (0, 0)
    } else if is_white(s[0]) {
        let rest = s.drop_first();
        let (i, j) = lemma_trimmed(rest);
        assert(s.subrange(i + 1, j + 1) =~= rest.subrange(i, j));
        assert forall|k: int| 0 <= k < i + 1 || j + 1 <= k < s.len() implies is_white(
            #[trigger] s[k],
        ) by {
            if k > 0 {
                assert(is_white(rest[k - 1]));
            }
        }
        (i + 1, j + 1)
    } else if is_white(s.last()) {
        let rest = s.drop_last();
        let (i, j) = lemma_trimmed(rest);
        assert(s.subrange(i, j) =~= rest.subrange(i, j));
        assert forall|k: int| 0 <= k < i || j <= k < s.len() implies is_white(
            #[trigger] s[k],
        ) by {
            if k < s.len() - 1 {
                assert(is_white(rest[k]));
            }
        }
        (i, j)
    } else {
        assert(s.subrange(0, s.len() as int) =~= trimmed(s));
        (0, s.len() as int)
    }
}

/// Trimming cuts white space off both ends and nothing else.
pub proof fn law_trimmed(s: Seq<char>)
    ensures
        exists|i: int, j: int|
            0 <= i <= j <= s.len() && trimmed(s) == s.subrange(i, j) && #[trigger] white_outside(
                s,
                i,
                j,
            ),
        trimmed(s).len() > 0 ==> !is_white(trimmed(s)[0]) && !is_white(trimmed(s).last()),
{
    let (i, j) = lemma_trimmed(s);
    assert(white_outside(s, i, j));
}

} // verus!

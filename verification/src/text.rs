//! Character-level helpers shared by the tag, filename and caption logic.
//!
//! Strings are modelled by their `Seq<char>` view.  The few std string
//! operations that vstd leaves unspecified are wrapped here with contracts
//! that restate their documented behaviour.
use vstd::prelude::*;

verus! {

/// Equality of two string slices.
///
/// Trusted: wraps `<str as PartialEq>::eq`, which compares the two strings
/// character by character; the contract states exactly that.
#[verifier::external_body]
pub fn str_equal(left: &str, right: &str) -> (equal: bool)
    ensures
        equal == (left@ == right@),
{
    left == right
}

/// Appends one character to a `String`.
///
/// Trusted: wraps `String::push`, which appends the character at the end.
#[verifier::external_body]
pub fn push_char(target: &mut String, character: char)
    ensures
        final(target)@ == old(target)@.push(character),
{
    target.push(character)
}

/// Builds a `String` from a character sequence.
pub fn string_from_chars(chars: &Vec<char>) -> (text: String)
    ensures
        text@ == chars@,
{
    let mut text = String::new();
    let mut index: usize = 0;
    while index < chars.len()
        invariant
            index <= chars.len(),
            text@ == chars@.subrange(0, index as int),
        decreases chars.len() - index,
    {
        push_char(&mut text, chars[index]);
        index += 1;
        assert(text@ == chars@.subrange(0, index as int));
    }
    assert(chars@.subrange(0, chars.len() as int) == chars@);
    text
}

/// The characters of a string slice, in order.
pub fn chars_of(text: &str) -> (chars: Vec<char>)
    ensures
        chars@ == text@,
{
    broadcast use vstd::string::axiom_spec_iter, vstd::string::next_postcondition;

    let mut iter = text.chars();
    let mut chars: Vec<char> = Vec::new();
    loop
        invariant
            chars@ + vstd::std_specs::iter::IteratorSpec::remaining(&iter) == text@,
        ensures
            chars@ == text@,
        decreases text@.len() - chars@.len(),
    {
        let ghost before = vstd::std_specs::iter::IteratorSpec::remaining(&iter);
        match iter.next() {
            Some(c) => {
                chars.push(c);
                assert(chars@ + vstd::std_specs::iter::IteratorSpec::remaining(&iter) =~= text@) by {
                    assert(before == seq![c] + vstd::std_specs::iter::IteratorSpec::remaining(&iter));
                }
            },
            None => {
                assert(chars@ =~= text@);
                break;
            },
        }
    }
    chars
}

/// An owned copy of a string slice.
pub fn owned(text: &str) -> (copy: String)
    ensures
        copy@ == text@,
{
    String::from_str(text)
}

/// Copies a `String`, keeping its characters.
pub fn copy_string(text: &String) -> (copy: String)
    ensures
        copy@ == text@,
{
    text.clone()
}

/// Copies an optional `String`.
pub fn copy_optional_string(text: &Option<String>) -> (copy: Option<String>)
    ensures
        match (copy, *text) {
            (Some(a), Some(b)) => a@ == b@,
            (None, None) => true,
            _ => false,
        },
{
    match text {
        Some(value) => Some(value.clone()),
        None => None,
    }
}

/// Characters that Rust's `char::is_whitespace` accepts (the Unicode
/// `White_Space` property).
pub open spec fn is_unicode_whitespace(c: char) -> bool {
    ||| c == ' '
    ||| ('\u{9}' <= c && c <= '\u{d}')
    ||| c == '\u{85}'
    ||| c == '\u{a0}'
    ||| c == '\u{1680}'
    ||| ('\u{2000}' <= c && c <= '\u{200a}')
    ||| c == '\u{2028}'
    ||| c == '\u{2029}'
    ||| c == '\u{202f}'
    ||| c == '\u{205f}'
    ||| c == '\u{3000}'
}

/// Executable test for [`is_unicode_whitespace`].
pub fn is_whitespace(c: char) -> (r: bool)
    ensures
        r == is_unicode_whitespace(c),
{
    c == ' ' || ('\u{9}' <= c && c <= '\u{d}') || c == '\u{85}' || c == '\u{a0}' || c
        == '\u{1680}' || ('\u{2000}' <= c && c <= '\u{200a}') || c == '\u{2028}' || c
        == '\u{2029}' || c == '\u{202f}' || c == '\u{205f}' || c == '\u{3000}'
}

/// Number of leading characters of `s` that satisfy `p`.
pub open spec fn leading_count(s: Seq<char>, p: spec_fn(char) -> bool) -> nat
    decreases s.len(),
{
    if s.len() > 0 && p(s[0]) {
        1 + leading_count(s.drop_first(), p)
    } else {
        0
    }
}

/// Number of trailing characters of `s` that satisfy `p`.
pub open spec fn trailing_count(s: Seq<char>, p: spec_fn(char) -> bool) -> nat
    decreases s.len(),
{
    if s.len() > 0 && p(s.last()) {
        1 + trailing_count(s.drop_last(), p)
    } else {
        0
    }
}

/// `s` with every leading character satisfying `p` removed.
pub open spec fn trim_start_by(s: Seq<char>, p: spec_fn(char) -> bool) -> Seq<char> {
    s.subrange(leading_count(s, p) as int, s.len() as int)
}

/// `s` with every trailing character satisfying `p` removed.
pub open spec fn trim_end_by(s: Seq<char>, p: spec_fn(char) -> bool) -> Seq<char> {
    s.subrange(0, s.len() - trailing_count(s, p))
}

/// `s` with leading and trailing characters satisfying `p` removed
/// (`str::trim_matches`).
pub open spec fn trim_by(s: Seq<char>, p: spec_fn(char) -> bool) -> Seq<char> {
    trim_end_by(trim_start_by(s, p), p)
}

/// `str::trim`: leading and trailing whitespace removed.
pub open spec fn trim_spec(s: Seq<char>) -> Seq<char> {
    trim_by(s, whitespace())
}

/// The whitespace predicate.
pub open spec fn whitespace() -> spec_fn(char) -> bool {
    |c: char| is_unicode_whitespace(c)
}

/// The predicate "is one of `separators`".
pub open spec fn one_of(separators: Seq<char>) -> spec_fn(char) -> bool {
    |c: char| separators.contains(c)
}

/// `str::split` by a character predicate: the pieces between separators,
/// empty pieces included (so there is always at least one piece).
pub open spec fn split_when(s: Seq<char>, is_separator: spec_fn(char) -> bool) -> Seq<Seq<char>>
    decreases s.len(),
{
    if s.len() == 0 {
        seq![Seq::empty()]
    } else {
        let pieces = split_when(s.drop_last(), is_separator);
        if is_separator(s.last()) {
            pieces.push(Seq::empty())
        } else {
            pieces.update(pieces.len() - 1, pieces.last().push(s.last()))
        }
    }
}

pub proof fn lemma_split_when_nonempty(s: Seq<char>, is_separator: spec_fn(char) -> bool)
    ensures
        split_when(s, is_separator).len() >= 1,
    decreases s.len(),
{
    if s.len() > 0 {
        lemma_split_when_nonempty(s.drop_last(), is_separator);
    }
}

/// No piece of a split holds a separator.
pub proof fn lemma_split_pieces_clear(s: Seq<char>, is_separator: spec_fn(char) -> bool)
    ensures
        forall|i: int, j: int|
            0 <= i < split_when(s, is_separator).len() && 0 <= j < split_when(s, is_separator)[i].len()
                ==> !is_separator(#[trigger] split_when(s, is_separator)[i][j]),
    decreases s.len(),
{
    lemma_split_when_nonempty(s, is_separator);
    if s.len() > 0 {
        let front = s.drop_last();
        lemma_split_pieces_clear(front, is_separator);
        lemma_split_when_nonempty(front, is_separator);
        let pieces = split_when(front, is_separator);
        if !is_separator(s.last()) {
            let grown = pieces.last().push(s.last());
            assert forall|j: int| 0 <= j < grown.len() implies !is_separator(#[trigger] grown[j]) by {
                if j < grown.len() - 1 {
                    assert(grown[j] == pieces[pieces.len() - 1][j]);
                }
            }
        }
    }
}

/// Splitting `x + b`, where `b` holds no separator, extends the last piece
/// of the split of `x` by `b`.
pub proof fn lemma_split_append_clear(x: Seq<char>, b: Seq<char>, is_separator: spec_fn(char) -> bool)
    requires
        forall|j: int| 0 <= j < b.len() ==> !is_separator(#[trigger] b[j]),
    ensures
        split_when(x + b, is_separator) == split_when(x, is_separator).update(
            split_when(x, is_separator).len() - 1,
            split_when(x, is_separator).last() + b,
        ),
    decreases b.len(),
{
    lemma_split_when_nonempty(x, is_separator);
    let pieces = split_when(x, is_separator);
    if b.len() == 0 {
        assert(x + b =~= x);
        assert(pieces.last() + b =~= pieces.last());
        assert(pieces.update(pieces.len() - 1, pieces.last() + b) =~= pieces);
    } else {
        let b0 = b.drop_last();
        lemma_split_append_clear(x, b0, is_separator);
        assert((x + b).drop_last() =~= x + b0);
        assert((x + b).last() == b.last());
        assert(!is_separator(b[b.len() - 1]));
        assert((pieces.last() + b0).push(b.last()) =~= pieces.last() + b);
        let mid = pieces.update(pieces.len() - 1, pieces.last() + b0);
        assert(mid.last() == pieces.last() + b0);
        assert(mid.update(mid.len() - 1, mid.last().push(b.last())) =~= pieces.update(
            pieces.len() - 1,
            pieces.last() + b,
        ));
    }
}

/// Splitting a join at its separator gives the joined items back, when no
/// item holds a separator.
pub proof fn lemma_split_join(items: Seq<Seq<char>>, separator: char, is_separator: spec_fn(char) -> bool)
    requires
        items.len() >= 1,
        is_separator(separator),
        forall|i: int, j: int| 0 <= i < items.len() && 0 <= j < items[i].len() ==> !is_separator(#[trigger] items[i][j]),
    ensures
        split_when(join_with(items, seq![separator]), is_separator) == items,
    decreases items.len(),
{
    let last = items.last();
    assert forall|j: int| 0 <= j < last.len() implies !is_separator(#[trigger] last[j]) by {
        assert(last[j] == items[items.len() - 1][j]);
    }
    if items.len() == 1 {
        lemma_split_append_clear(Seq::empty(), last, is_separator);
        assert(Seq::<char>::empty() + last =~= last);
        assert(split_when(Seq::<char>::empty(), is_separator) == seq![Seq::<char>::empty()]);
        assert(seq![Seq::<char>::empty()].update(0, Seq::<char>::empty() + last) =~= items);
    } else {
        let front = items.drop_last();
        assert forall|i: int, j: int| 0 <= i < front.len() && 0 <= j < front[i].len() implies !is_separator(
            #[trigger] front[i][j],
        ) by {
            assert(front[i] == items[i]);
        }
        lemma_split_join(front, separator, is_separator);
        let a = join_with(front, seq![separator]);
        let with_sep = a + seq![separator];
        assert(with_sep.drop_last() =~= a);
        assert(with_sep.last() == separator);
        assert(split_when(with_sep, is_separator) == front.push(Seq::<char>::empty()));
        lemma_split_append_clear(with_sep, last, is_separator);
        assert(join_with(items, seq![separator]) == with_sep + last);
        assert(Seq::<char>::empty() + last =~= last);
        assert(front.push(Seq::<char>::empty()).update(front.len() as int, Seq::<char>::empty() + last) =~= items);
    }
}

/// The non-empty pieces of `s` between whitespace (`str::split_whitespace`).
pub open spec fn words(s: Seq<char>) -> Seq<Seq<char>> {
    split_when(s, whitespace()).filter(|piece: Seq<char>| piece.len() > 0)
}

/// What a filter keeps satisfies the filter and every property that all
/// items had.
pub proof fn lemma_filter_keeps<A>(items: Seq<A>, keep: spec_fn(A) -> bool, property: spec_fn(A) -> bool)
    requires
        forall|i: int| 0 <= i < items.len() ==> property(#[trigger] items[i]),
    ensures
        forall|i: int| 0 <= i < items.filter(keep).len() ==> property(#[trigger] items.filter(keep)[i]) && keep(
            items.filter(keep)[i],
        ),
    decreases items.len(),
{
    reveal(Seq::filter);
    if items.len() > 0 {
        let front = items.drop_last();
        assert forall|i: int| 0 <= i < front.len() implies property(#[trigger] front[i]) by {
            assert(front[i] == items[i]);
        }
        lemma_filter_keeps(front, keep, property);
        let kept = items.filter(keep);
        let earlier = front.filter(keep);
        assert forall|i: int| 0 <= i < kept.len() implies property(#[trigger] kept[i]) && keep(kept[i]) by {
            if i < earlier.len() {
                assert(kept[i] == earlier[i]);
            } else {
                assert(kept[i] == items[items.len() - 1]);
            }
        }
    }
}

/// The words of a text are non-empty and hold no whitespace.
pub proof fn lemma_words_have_no_whitespace(s: Seq<char>)
    ensures
        forall|i: int, k: int| 0 <= i < words(s).len() && 0 <= k < words(s)[i].len() ==> !is_unicode_whitespace(
            #[trigger] words(s)[i][k],
        ),
        forall|i: int| 0 <= i < words(s).len() ==> (#[trigger] words(s)[i]).len() > 0,
{
    let pieces = split_when(s, whitespace());
    lemma_split_pieces_clear(s, whitespace());
    let clear = |piece: Seq<char>| forall|k: int| 0 <= k < piece.len() ==> !is_unicode_whitespace(#[trigger] piece[k]);
    assert forall|i: int| 0 <= i < pieces.len() implies clear(#[trigger] pieces[i]) by {
        assert forall|k: int| 0 <= k < pieces[i].len() implies !is_unicode_whitespace(#[trigger] pieces[i][k]) by {
            assert(!whitespace()(pieces[i][k]));
        }
    }
    lemma_filter_keeps(pieces, |piece: Seq<char>| piece.len() > 0, clear);
    let w = words(s);
    assert forall|i: int, k: int| 0 <= i < w.len() && 0 <= k < w[i].len() implies !is_unicode_whitespace(#[trigger] w[i][k]) by {
        assert(clear(w[i]));
    }
}

/// Every character of a join comes from an item or the separator, so a
/// property of all of those holds of all of it.
pub proof fn lemma_join_keeps(items: Seq<Seq<char>>, separator: Seq<char>, property: spec_fn(char) -> bool)
    requires
        forall|i: int, k: int| 0 <= i < items.len() && 0 <= k < items[i].len() ==> property(#[trigger] items[i][k]),
        forall|k: int| 0 <= k < separator.len() ==> property(#[trigger] separator[k]),
    ensures
        forall|k: int| 0 <= k < join_with(items, separator).len() ==> property(#[trigger] join_with(items, separator)[k]),
    decreases items.len(),
{
    if items.len() == 1 {
        assert forall|k: int| 0 <= k < items[0].len() implies property(#[trigger] items[0][k]) by {}
    } else if items.len() > 1 {
        let front = items.drop_last();
        assert forall|i: int, k: int| 0 <= i < front.len() && 0 <= k < front[i].len() implies property(#[trigger] front[i][k]) by {
            assert(front[i] == items[i]);
        }
        lemma_join_keeps(front, separator, property);
        let a = join_with(front, separator);
        let last = items[items.len() - 1];
        let all = join_with(items, separator);
        assert(all == a + separator + last);
        assert forall|k: int| 0 <= k < all.len() implies property(#[trigger] all[k]) by {
            if k < a.len() {
                assert(all[k] == a[k]);
            } else if k < a.len() + separator.len() {
                assert(all[k] == separator[k - a.len()]);
            } else {
                assert(all[k] == last[k - a.len() - separator.len()]);
            }
        }
    }
}

/// `items` joined with `separator` between consecutive items.
pub open spec fn join_with(items: Seq<Seq<char>>, separator: Seq<char>) -> Seq<char>
    decreases items.len(),
{
    if items.len() == 0 {
        Seq::empty()
    } else if items.len() == 1 {
        items[0]
    } else {
        join_with(items.drop_last(), separator) + separator + items.last()
    }
}

pub proof fn lemma_leading_count_bound(s: Seq<char>, p: spec_fn(char) -> bool)
    ensures
        leading_count(s, p) <= s.len(),
        forall|i: int| 0 <= i < leading_count(s, p) ==> p(#[trigger] s[i]),
        leading_count(s, p) < s.len() ==> !p(s[leading_count(s, p) as int]),
    decreases s.len(),
{
    if s.len() > 0 && p(s[0]) {
        lemma_leading_count_bound(s.drop_first(), p);
        assert forall|i: int| 0 <= i < leading_count(s, p) implies p(#[trigger] s[i]) by {
            if i > 0 {
                assert(s[i] == s.drop_first()[i - 1]);
            }
        }
        if leading_count(s, p) < s.len() {
            assert(s[leading_count(s, p) as int] == s.drop_first()[leading_count(
                s.drop_first(),
                p,
            ) as int]);
        }
    }
}

pub proof fn lemma_trailing_count_bound(s: Seq<char>, p: spec_fn(char) -> bool)
    ensures
        trailing_count(s, p) <= s.len(),
        forall|i: int| s.len() - trailing_count(s, p) <= i < s.len() ==> p(#[trigger] s[i]),
        trailing_count(s, p) < s.len() ==> !p(s[s.len() - trailing_count(s, p) - 1]),
    decreases s.len(),
{
    if s.len() > 0 && p(s.last()) {
        lemma_trailing_count_bound(s.drop_last(), p);
        assert forall|i: int| s.len() - trailing_count(s, p) <= i < s.len() implies p(
            #[trigger] s[i],
        ) by {
            if i < s.len() - 1 {
                assert(s[i] == s.drop_last()[i]);
            }
        }
        if trailing_count(s, p) < s.len() {
            assert(s[s.len() - trailing_count(s, p) - 1] == s.drop_last()[s.drop_last().len()
                - trailing_count(s.drop_last(), p) - 1]);
        }
    }
}

/// Characterises `leading_count` by its two defining facts.
pub proof fn lemma_leading_count_unique(s: Seq<char>, p: spec_fn(char) -> bool, k: int)
    requires
        0 <= k <= s.len(),
        forall|i: int| 0 <= i < k ==> p(#[trigger] s[i]),
        k < s.len() ==> !p(s[k]),
    ensures
        leading_count(s, p) == k,
    decreases s.len(),
{
    if k > 0 {
        assert forall|i: int| 0 <= i < k - 1 implies p(#[trigger] s.drop_first()[i]) by {
            assert(s.drop_first()[i] == s[i + 1]);
        }
        if k - 1 < s.drop_first().len() {
            assert(s.drop_first()[k - 1] == s[k]);
        }
        lemma_leading_count_unique(s.drop_first(), p, k - 1);
    }
}

/// Characterises `trailing_count` by its two defining facts.
pub proof fn lemma_trailing_count_unique(s: Seq<char>, p: spec_fn(char) -> bool, k: int)
    requires
        0 <= k <= s.len(),
        forall|i: int| s.len() - k <= i < s.len() ==> p(#[trigger] s[i]),
        k < s.len() ==> !p(s[s.len() - k - 1]),
    ensures
        trailing_count(s, p) == k,
    decreases s.len(),
{
    if k > 0 {
        let t = s.drop_last();
        assert forall|i: int| t.len() - (k - 1) <= i < t.len() implies p(#[trigger] t[i]) by {
            assert(t[i] == s[i]);
        }
        if k - 1 < t.len() {
            assert(t[t.len() - (k - 1) - 1] == s[s.len() - k - 1]);
        }
        lemma_trailing_count_unique(t, p, k - 1);
    }
}

/// Returns the bounds `[start, end)` of `chars[from..to]` with characters
/// satisfying the whitespace predicate removed from both ends.
pub fn trim_bounds(chars: &Vec<char>, from: usize, to: usize) -> (bounds: (usize, usize))
    requires
        from <= to <= chars.len(),
    ensures
        from <= bounds.0 <= bounds.1 <= to,
        chars@.subrange(bounds.0 as int, bounds.1 as int) == trim_spec(
            chars@.subrange(from as int, to as int),
        ),
{
    let ghost s = chars@.subrange(from as int, to as int);
    let ghost p = whitespace();
    let mut start = from;
    while start < to && is_whitespace(chars[start])
        invariant
            from <= start <= to <= chars.len(),
            forall|i: int| from <= i < start ==> is_unicode_whitespace(#[trigger] chars@[i]),
        decreases to - start,
    {
        start += 1;
    }
    proof {
        assert forall|i: int| 0 <= i < start - from implies p(#[trigger] s[i]) by {
            assert(s[i] == chars@[from + i]);
        }
        if start < to {
            assert(s[start - from] == chars@[start as int]);
        }
        lemma_leading_count_unique(s, p, start - from);
    }
    let mut end = to;
    while end > start && is_whitespace(chars[end - 1])
        invariant
            from <= start <= end <= to <= chars.len(),
            forall|i: int| end <= i < to ==> is_unicode_whitespace(#[trigger] chars@[i]),
        decreases end - start,
    {
        end -= 1;
    }
    proof {
        let t = trim_start_by(s, p);
        assert(t == chars@.subrange(start as int, to as int));
        assert forall|i: int| t.len() - (to - end) <= i < t.len() implies p(#[trigger] t[i]) by {
            assert(t[i] == chars@[start + i]);
        }
        if to - end < t.len() {
            assert(t[t.len() - (to - end) - 1] == chars@[end - 1]);
        }
        lemma_trailing_count_unique(t, p, to - end);
        assert(trim_end_by(t, p) == chars@.subrange(start as int, end as int));
    }
    (start, end)
}

/// ASCII lowercase mapping of one character (`char::to_ascii_lowercase`).
pub open spec fn ascii_lower_char(c: char) -> char {
    if 'A' <= c && c <= 'Z' {
        ((c as u32) + 32) as char
    } else {
        c
    }
}

/// ASCII uppercase mapping of one character (`char::to_ascii_uppercase`).
pub open spec fn ascii_upper_char(c: char) -> char {
    if 'a' <= c && c <= 'z' {
        ((c as u32) - 32) as char
    } else {
        c
    }
}

/// `str::to_ascii_lowercase` on a character sequence.
pub open spec fn ascii_lower(s: Seq<char>) -> Seq<char> {
    s.map_values(|c: char| ascii_lower_char(c))
}

/// `str::to_ascii_uppercase` on a character sequence.
pub open spec fn ascii_upper(s: Seq<char>) -> Seq<char> {
    s.map_values(|c: char| ascii_upper_char(c))
}

pub fn to_ascii_lower_char(c: char) -> (r: char)
    ensures
        r == ascii_lower_char(c),
{
    if 'A' <= c && c <= 'Z' {
        let code = (c as u32) + 32;
        assert(code <= 0x7f);
        char_from_ascii(code)
    } else {
        c
    }
}

pub fn to_ascii_upper_char(c: char) -> (r: char)
    ensures
        r == ascii_upper_char(c),
{
    if 'a' <= c && c <= 'z' {
        let code = (c as u32) - 32;
        char_from_ascii(code)
    } else {
        c
    }
}

/// The ASCII character with the given code.
fn char_from_ascii(code: u32) -> (c: char)
    requires
        code <= 0x7f,
    ensures
        c == code as char,
{
    let byte = code as u8;
    byte as char
}

/// ASCII-lowercased copy of a character vector.
pub fn lower_ascii_chars(chars: &Vec<char>) -> (lower: Vec<char>)
    ensures
        lower@ == ascii_lower(chars@),
{
    let mut lower: Vec<char> = Vec::new();
    let mut index: usize = 0;
    while index < chars.len()
        invariant
            index <= chars.len(),
            lower@ == ascii_lower(chars@.subrange(0, index as int)),
        decreases chars.len() - index,
    {
        lower.push(to_ascii_lower_char(chars[index]));
        index += 1;
        assert(lower@ == ascii_lower(chars@.subrange(0, index as int)));
    }
    assert(chars@.subrange(0, chars.len() as int) == chars@);
    lower
}

/// ASCII-uppercased copy of a character vector.
pub fn upper_ascii_chars(chars: &Vec<char>) -> (upper: Vec<char>)
    ensures
        upper@ == ascii_upper(chars@),
{
    let mut upper: Vec<char> = Vec::new();
    let mut index: usize = 0;
    while index < chars.len()
        invariant
            index <= chars.len(),
            upper@ == ascii_upper(chars@.subrange(0, index as int)),
        decreases chars.len() - index,
    {
        upper.push(to_ascii_upper_char(chars[index]));
        index += 1;
        assert(upper@ == ascii_upper(chars@.subrange(0, index as int)));
    }
    assert(chars@.subrange(0, chars.len() as int) == chars@);
    upper
}

/// Equality of two character vectors.
pub fn chars_equal(left: &Vec<char>, right: &Vec<char>) -> (equal: bool)
    ensures
        equal == (left@ == right@),
{
    if left.len() != right.len() {
        return false;
    }
    let mut index: usize = 0;
    while index < left.len()
        invariant
            left.len() == right.len(),
            index <= left.len(),
            forall|i: int| 0 <= i < index ==> left@[i] == right@[i],
        decreases left.len() - index,
    {
        if left[index] != right[index] {
            return false;
        }
        index += 1;
    }
    assert(left@ =~= right@);
    true
}

/// Whether a character sequence equals the given literal's characters.
pub fn chars_equal_str(left: &Vec<char>, right: &str) -> (equal: bool)
    ensures
        equal == (left@ == right@),
{
    let other = chars_of(right);
    chars_equal(left, &other)
}

/// Whether `needle` occurs in `chars`.
pub fn contains_char(chars: &Vec<char>, needle: char) -> (found: bool)
    ensures
        found == chars@.contains(needle),
{
    let mut index: usize = 0;
    while index < chars.len()
        invariant
            index <= chars.len(),
            forall|i: int| 0 <= i < index ==> chars@[i] != needle,
        decreases chars.len() - index,
    {
        if chars[index] == needle {
            return true;
        }
        index += 1;
    }
    false
}

/// Whether a sequence of character vectors contains one equal to `item`.
pub fn contains_chars(items: &Vec<Vec<char>>, item: &Vec<char>) -> (found: bool)
    ensures
        found == char_views(items@).contains(item@),
{
    let ghost views = char_views(items@);
    let mut index: usize = 0;
    while index < items.len()
        invariant
            index <= items.len(),
            views == char_views(items@),
            forall|i: int| 0 <= i < index ==> views[i] != item@,
        decreases items.len() - index,
    {
        if chars_equal(&items[index], item) {
            assert(views[index as int] == item@);
            return true;
        }
        index += 1;
    }
    false
}

/// Strict lexicographic order of character sequences by code point (the
/// order of `str` comparison).
pub open spec fn lex_lt(a: Seq<char>, b: Seq<char>) -> bool
    decreases a.len(),
{
    if a.len() == 0 {
        b.len() > 0
    } else if b.len() == 0 {
        false
    } else if a[0] != b[0] {
        a[0] < b[0]
    } else {
        lex_lt(a.drop_first(), b.drop_first())
    }
}

pub proof fn lemma_lex_irreflexive(a: Seq<char>)
    ensures
        !lex_lt(a, a),
    decreases a.len(),
{
    if a.len() > 0 {
        lemma_lex_irreflexive(a.drop_first());
    }
}

pub proof fn lemma_lex_transitive(a: Seq<char>, b: Seq<char>, c: Seq<char>)
    requires
        lex_lt(a, b),
        lex_lt(b, c),
    ensures
        lex_lt(a, c),
    decreases a.len(),
{
    if a.len() > 0 && b.len() > 0 && c.len() > 0 {
        if a[0] == b[0] && b[0] == c[0] {
            lemma_lex_transitive(a.drop_first(), b.drop_first(), c.drop_first());
        }
    }
}

pub proof fn lemma_lex_total(a: Seq<char>, b: Seq<char>)
    ensures
        a == b || lex_lt(a, b) || lex_lt(b, a),
    decreases a.len(),
{
    if a.len() > 0 && b.len() > 0 && a[0] == b[0] {
        lemma_lex_total(a.drop_first(), b.drop_first());
        if a.drop_first() == b.drop_first() {
            assert(a =~= seq![a[0]] + a.drop_first());
            assert(b =~= seq![b[0]] + b.drop_first());
        }
    } else if a.len() == 0 && b.len() == 0 {
        assert(a =~= b);
    }
}

pub proof fn lemma_lex_asymmetric(a: Seq<char>, b: Seq<char>)
    requires
        lex_lt(a, b),
    ensures
        !lex_lt(b, a),
{
    if lex_lt(b, a) {
        lemma_lex_transitive(a, b, a);
        lemma_lex_irreflexive(a);
    }
}

proof fn lemma_lex_skip(a: Seq<char>, b: Seq<char>, i: int)
    requires
        0 <= i <= a.len(),
        i <= b.len(),
        a.subrange(0, i) == b.subrange(0, i),
    ensures
        lex_lt(a, b) == lex_lt(a.subrange(i, a.len() as int), b.subrange(i, b.len() as int)),
    decreases i,
{
    if i > 0 {
        assert(a[0] == a.subrange(0, i)[0]);
        assert(b[0] == b.subrange(0, i)[0]);
        assert(a.drop_first().subrange(0, i - 1) =~= a.subrange(0, i).drop_first());
        assert(b.drop_first().subrange(0, i - 1) =~= b.subrange(0, i).drop_first());
        lemma_lex_skip(a.drop_first(), b.drop_first(), i - 1);
        assert(a.drop_first().subrange(i - 1, a.len() - 1) =~= a.subrange(i, a.len() as int));
        assert(b.drop_first().subrange(i - 1, b.len() - 1) =~= b.subrange(i, b.len() as int));
    } else {
        assert(a.subrange(0, a.len() as int) =~= a);
        assert(b.subrange(0, b.len() as int) =~= b);
    }
}

/// Lexicographic order of sequences of strings, each string compared by
/// [`lex_lt`] (the order of paths compared component by component).
pub open spec fn lex_lt_parts(a: Seq<Seq<char>>, b: Seq<Seq<char>>) -> bool
    decreases a.len(),
{
    if a.len() == 0 {
        b.len() > 0
    } else if b.len() == 0 {
        false
    } else if a[0] != b[0] {
        lex_lt(a[0], b[0])
    } else {
        lex_lt_parts(a.drop_first(), b.drop_first())
    }
}

pub proof fn lemma_lex_parts_irreflexive(a: Seq<Seq<char>>)
    ensures
        !lex_lt_parts(a, a),
    decreases a.len(),
{
    if a.len() > 0 {
        lemma_lex_parts_irreflexive(a.drop_first());
    }
}

pub proof fn lemma_lex_parts_transitive(a: Seq<Seq<char>>, b: Seq<Seq<char>>, c: Seq<Seq<char>>)
    requires
        lex_lt_parts(a, b),
        lex_lt_parts(b, c),
    ensures
        lex_lt_parts(a, c),
    decreases a.len(),
{
    if a.len() > 0 && b.len() > 0 && c.len() > 0 {
        if a[0] == b[0] && b[0] == c[0] {
            lemma_lex_parts_transitive(a.drop_first(), b.drop_first(), c.drop_first());
        } else if a[0] != b[0] && b[0] != c[0] {
            lemma_lex_transitive(a[0], b[0], c[0]);
            if a[0] == c[0] {
                lemma_lex_irreflexive(a[0]);
            }
        }
    }
}

pub proof fn lemma_lex_parts_total(a: Seq<Seq<char>>, b: Seq<Seq<char>>)
    ensures
        a == b || lex_lt_parts(a, b) || lex_lt_parts(b, a),
    decreases a.len(),
{
    if a.len() > 0 && b.len() > 0 {
        if a[0] == b[0] {
            lemma_lex_parts_total(a.drop_first(), b.drop_first());
            if a.drop_first() == b.drop_first() {
                assert(a =~= seq![a[0]] + a.drop_first());
                assert(b =~= seq![b[0]] + b.drop_first());
            }
        } else {
            lemma_lex_total(a[0], b[0]);
        }
    } else if a.len() == 0 && b.len() == 0 {
        assert(a =~= b);
    }
}

/// Lexicographic comparison of two lists of strings (see
/// [`lex_lt_parts`]).
pub fn parts_less(a: &Vec<String>, b: &Vec<String>) -> (less: bool)
    ensures
        less == lex_lt_parts(
            a@.map_values(|s: String| s@),
            b@.map_values(|s: String| s@),
        ),
{
    let ghost va = a@.map_values(|s: String| s@);
    let ghost vb = b@.map_values(|s: String| s@);
    let mut index: usize = 0;
    assert(va.subrange(0, va.len() as int) =~= va);
    assert(vb.subrange(0, vb.len() as int) =~= vb);
    while index < a.len() && index < b.len()
        invariant
            index <= a.len(),
            index <= b.len(),
            va == a@.map_values(|s: String| s@),
            vb == b@.map_values(|s: String| s@),
            lex_lt_parts(va, vb) == lex_lt_parts(
                va.subrange(index as int, va.len() as int),
                vb.subrange(index as int, vb.len() as int),
            ),
        decreases a.len() - index,
    {
        let ghost ra = va.subrange(index as int, va.len() as int);
        let ghost rb = vb.subrange(index as int, vb.len() as int);
        assert(ra[0] == a@[index as int]@);
        assert(rb[0] == b@[index as int]@);
        if !str_equal(a[index].as_str(), b[index].as_str()) {
            return str_less(a[index].as_str(), b[index].as_str());
        }
        assert(ra.drop_first() =~= va.subrange(index + 1, va.len() as int));
        assert(rb.drop_first() =~= vb.subrange(index + 1, vb.len() as int));
        index += 1;
    }
    index == a.len() && index < b.len()
}

/// Lexicographic comparison of two character vectors.
pub fn chars_less(a: &Vec<char>, b: &Vec<char>) -> (less: bool)
    ensures
        less == lex_lt(a@, b@),
{
    let mut index: usize = 0;
    while index < a.len() && index < b.len()
        invariant
            index <= a.len(),
            index <= b.len(),
            a@.subrange(0, index as int) == b@.subrange(0, index as int),
        decreases a.len() - index,
    {
        if a[index] != b[index] {
            proof {
                lemma_lex_skip(a@, b@, index as int);
                let sa = a@.subrange(index as int, a.len() as int);
                let sb = b@.subrange(index as int, b.len() as int);
                assert(sa[0] == a@[index as int]);
                assert(sb[0] == b@[index as int]);
            }
            return a[index] < b[index];
        }
        index += 1;
        assert(a@.subrange(0, index as int) =~= b@.subrange(0, index as int));
    }
    proof {
        lemma_lex_skip(a@, b@, index as int);
    }
    index == a.len() && index < b.len()
}

/// Lexicographic comparison of two string slices.
pub fn str_less(a: &str, b: &str) -> (less: bool)
    ensures
        less == lex_lt(a@, b@),
{
    let left = chars_of(a);
    let right = chars_of(b);
    chars_less(&left, &right)
}

/// Views of a vector of character vectors.
pub open spec fn char_views(items: Seq<Vec<char>>) -> Seq<Seq<char>> {
    items.map_values(|v: Vec<char>| v@)
}

/// Splits `chars` at every character in `separators` (`str::split` with a
/// set of separator characters).
pub fn split_on(chars: &Vec<char>, separators: &Vec<char>) -> (pieces: Vec<Vec<char>>)
    ensures
        char_views(pieces@) == split_when(chars@, one_of(separators@)),
{
    let ghost p = one_of(separators@);
    let mut pieces: Vec<Vec<char>> = Vec::new();
    let mut current: Vec<char> = Vec::new();
    let mut index: usize = 0;
    proof {
        assert(chars@.subrange(0, 0).len() == 0);
        assert(char_views(pieces@).push(current@) =~= split_when(chars@.subrange(0, 0), p));
    }
    while index < chars.len()
        invariant
            index <= chars.len(),
            p == one_of(separators@),
            char_views(pieces@).push(current@) == split_when(chars@.subrange(0, index as int), p),
        decreases chars.len() - index,
    {
        let c = chars[index];
        let ghost prefix = chars@.subrange(0, index as int);
        let ghost next = chars@.subrange(0, index + 1);
        proof {
            assert(next.drop_last() =~= prefix);
            assert(next.last() == c);
            lemma_split_when_nonempty(prefix, p);
        }
        if contains_char(separators, c) {
            let done = current;
            pieces.push(done);
            current = Vec::new();
            proof {
                assert(char_views(pieces@).push(current@) =~= split_when(prefix, p).push(
                    Seq::empty(),
                ));
            }
        } else {
            let ghost before = char_views(pieces@).push(current@);
            current.push(c);
            proof {
                let sp = split_when(prefix, p);
                assert(char_views(pieces@).push(current@) =~= sp.update(
                    sp.len() - 1,
                    sp.last().push(c),
                ));
            }
        }
        index += 1;
    }
    pieces.push(current);
    proof {
        assert(chars@.subrange(0, chars.len() as int) =~= chars@);
        assert(char_views(pieces@) =~= split_when(chars@, p));
    }
    pieces
}

/// Splits `chars` at whitespace, keeping empty pieces.
pub fn split_at_whitespace(chars: &Vec<char>) -> (pieces: Vec<Vec<char>>)
    ensures
        char_views(pieces@) == split_when(chars@, whitespace()),
{
    let ghost p = whitespace();
    let mut pieces: Vec<Vec<char>> = Vec::new();
    let mut current: Vec<char> = Vec::new();
    let mut index: usize = 0;
    proof {
        assert(char_views(pieces@).push(current@) =~= split_when(chars@.subrange(0, 0), p));
    }
    while index < chars.len()
        invariant
            index <= chars.len(),
            p == whitespace(),
            char_views(pieces@).push(current@) == split_when(chars@.subrange(0, index as int), p),
        decreases chars.len() - index,
    {
        let c = chars[index];
        let ghost prefix = chars@.subrange(0, index as int);
        let ghost next = chars@.subrange(0, index + 1);
        proof {
            assert(next.drop_last() =~= prefix);
            assert(next.last() == c);
            lemma_split_when_nonempty(prefix, p);
        }
        if is_whitespace(c) {
            let done = current;
            pieces.push(done);
            current = Vec::new();
            proof {
                assert(char_views(pieces@).push(current@) =~= split_when(prefix, p).push(
                    Seq::empty(),
                ));
            }
        } else {
            current.push(c);
            proof {
                let sp = split_when(prefix, p);
                assert(char_views(pieces@).push(current@) =~= sp.update(
                    sp.len() - 1,
                    sp.last().push(c),
                ));
            }
        }
        index += 1;
    }
    pieces.push(current);
    proof {
        assert(chars@.subrange(0, chars.len() as int) =~= chars@);
        assert(char_views(pieces@) =~= split_when(chars@, p));
    }
    pieces
}

/// The non-empty whitespace-separated words (`str::split_whitespace`).
pub fn split_words(chars: &Vec<char>) -> (found: Vec<Vec<char>>)
    ensures
        char_views(found@) == words(chars@),
{
    let pieces = split_at_whitespace(chars);
    let ghost all = char_views(pieces@);
    let ghost keep = |piece: Seq<char>| piece.len() > 0;
    let mut found: Vec<Vec<char>> = Vec::new();
    let mut index: usize = 0;
    proof {
        reveal(Seq::filter);
        assert(char_views(found@) =~= all.take(0).filter(keep));
    }
    while index < pieces.len()
        invariant
            index <= pieces@.len(),
            all == char_views(pieces@),
            keep == (|piece: Seq<char>| piece.len() > 0),
            char_views(found@) == all.take(index as int).filter(keep),
        decreases pieces.len() - index,
    {
        let ghost previous = char_views(found@);
        if pieces[index].len() > 0 {
            found.push(copy_chars(&pieces[index]));
            assert(char_views(found@) =~= previous.push(all[index as int]));
        }
        proof {
            assert(all.take(index + 1) =~= all.take(index as int).push(all[index as int]));
            all.take(index as int).lemma_filter_push(all[index as int], keep);
        }
        index += 1;
    }
    proof {
        assert(all.take(pieces@.len() as int) =~= all);
    }
    found
}

/// A copy of a character vector.
pub fn copy_chars(chars: &Vec<char>) -> (copy: Vec<char>)
    ensures
        copy@ == chars@,
{
    let mut copy: Vec<char> = Vec::new();
    let mut index: usize = 0;
    while index < chars.len()
        invariant
            index <= chars.len(),
            copy@ == chars@.subrange(0, index as int),
        decreases chars.len() - index,
    {
        copy.push(chars[index]);
        index += 1;
        assert(copy@ == chars@.subrange(0, index as int));
    }
    assert(chars@.subrange(0, chars.len() as int) == chars@);
    copy
}

/// Appends every character of `extra` to `target`.
pub fn append_chars(target: &mut Vec<char>, extra: &Vec<char>)
    ensures
        final(target)@ == old(target)@ + extra@,
{
    let mut index: usize = 0;
    while index < extra.len()
        invariant
            index <= extra.len(),
            target@ == old(target)@ + extra@.subrange(0, index as int),
        decreases extra.len() - index,
    {
        target.push(extra[index]);
        index += 1;
        assert(target@ =~= old(target)@ + extra@.subrange(0, index as int));
    }
    assert(extra@.subrange(0, extra.len() as int) =~= extra@);
}

/// `items` joined with `separator` between consecutive items.
pub fn join_chars(items: &Vec<Vec<char>>, separator: &Vec<char>) -> (joined: Vec<char>)
    ensures
        joined@ == join_with(char_views(items@), separator@),
{
    let ghost all = char_views(items@);
    let mut joined: Vec<char> = Vec::new();
    let mut index: usize = 0;
    while index < items.len()
        invariant
            index <= items@.len(),
            all == char_views(items@),
            joined@ == join_with(all.take(index as int), separator@),
        decreases items.len() - index,
    {
        proof {
            let next = all.take(index + 1);
            assert(next.drop_last() =~= all.take(index as int));
            assert(next.last() == items@[index as int]@);
        }
        if index > 0 {
            append_chars(&mut joined, separator);
        }
        append_chars(&mut joined, &items[index]);
        proof {
            let next = all.take(index + 1);
            if index == 0 {
                assert(joined@ =~= next[0]);
            }
        }
        index += 1;
    }
    proof {
        assert(all.take(items@.len() as int) =~= all);
    }
    joined
}

/// Whether `needle` occurs in `hay` as a contiguous run.
pub open spec fn contains_run(hay: Seq<char>, needle: Seq<char>) -> bool {
    exists|i: int| 0 <= i <= hay.len() - needle.len() && #[trigger] hay.subrange(i, i + needle.len()) == needle
}

/// Whether `s` starts with `prefix`.
pub open spec fn starts_with(s: Seq<char>, prefix: Seq<char>) -> bool {
    prefix.len() <= s.len() && s.subrange(0, prefix.len() as int) == prefix
}

/// Whether `s` ends with `suffix`.
pub open spec fn ends_with(s: Seq<char>, suffix: Seq<char>) -> bool {
    suffix.len() <= s.len() && s.subrange(s.len() - suffix.len(), s.len() as int) == suffix
}

/// `str::replace`: every non-overlapping occurrence of `pattern`, scanning
/// from the left, replaced by `replacement`.
pub open spec fn replace_all(s: Seq<char>, pattern: Seq<char>, replacement: Seq<char>) -> Seq<char>
    recommends
        pattern.len() > 0,
    decreases s.len(),
{
    if s.len() == 0 || pattern.len() == 0 {
        s
    } else if starts_with(s, pattern) {
        replacement + replace_all(s.skip(pattern.len() as int), pattern, replacement)
    } else {
        seq![s[0]] + replace_all(s.drop_first(), pattern, replacement)
    }
}

/// Index of the first `c` in `s`, if any.
pub open spec fn first_index_of(s: Seq<char>, c: char) -> Option<int>
    decreases s.len(),
{
    if s.len() == 0 {
        None
    } else if s[0] == c {
        Some(0)
    } else {
        match first_index_of(s.drop_first(), c) {
            Some(i) => Some(i + 1),
            None => None,
        }
    }
}

pub proof fn lemma_first_index_of(s: Seq<char>, c: char)
    ensures
        first_index_of(s, c) matches Some(i) ==> 0 <= i < s.len() && s[i] == c && forall|j: int|
            0 <= j < i ==> s[j] != c,
        first_index_of(s, c) is None ==> !s.contains(c),
    decreases s.len(),
{
    if s.len() > 0 && s[0] != c {
        lemma_first_index_of(s.drop_first(), c);
        if first_index_of(s.drop_first(), c) is None {
            assert forall|j: int| 0 <= j < s.len() implies s[j] != c by {
                if j > 0 {
                    assert(s[j] == s.drop_first()[j - 1]);
                }
            }
        } else {
            let i = first_index_of(s.drop_first(), c)->Some_0;
            assert forall|j: int| 0 <= j < i + 1 implies s[j] != c by {
                if j > 0 {
                    assert(s[j] == s.drop_first()[j - 1]);
                }
            }
        }
    }
}

/// Characterises `first_index_of` by the position it finds.
pub proof fn lemma_first_index_at(s: Seq<char>, c: char, k: int)
    requires
        0 <= k <= s.len(),
        forall|j: int| 0 <= j < k ==> s[j] != c,
        k < s.len() ==> s[k] == c,
    ensures
        first_index_of(s, c) == if k < s.len() {
            Some(k)
        } else {
            None::<int>
        },
    decreases k,
{
    if k > 0 {
        assert forall|j: int| 0 <= j < k - 1 implies s.drop_first()[j] != c by {
            assert(s.drop_first()[j] == s[j + 1]);
        }
        if k < s.len() {
            assert(s.drop_first()[k - 1] == s[k]);
        }
        lemma_first_index_at(s.drop_first(), c, k - 1);
    }
}

/// The index of the first `c` in `chars[from..]` (absolute), if any.
pub fn find_char_from(chars: &Vec<char>, from: usize, c: char) -> (found: Option<usize>)
    requires
        from <= chars.len(),
    ensures
        match first_index_of(chars@.subrange(from as int, chars.len() as int), c) {
            Some(i) => found == Some((from + i) as usize),
            None => found is None,
        },
{
    let mut index = from;
    while index < chars.len()
        invariant
            from <= index <= chars.len(),
            forall|j: int| from <= j < index ==> chars@[j] != c,
        decreases chars.len() - index,
    {
        if chars[index] == c {
            proof {
                let tail = chars@.subrange(from as int, chars.len() as int);
                lemma_first_index_at(tail, c, index - from);
            }
            return Some(index);
        }
        index += 1;
    }
    proof {
        let tail = chars@.subrange(from as int, chars.len() as int);
        lemma_first_index_at(tail, c, tail.len() as int);
    }
    None
}

/// Whether `chars[at..]` starts with `pattern`.
pub fn starts_with_at(chars: &Vec<char>, at: usize, pattern: &Vec<char>) -> (found: bool)
    requires
        at <= chars.len(),
    ensures
        found == starts_with(chars@.subrange(at as int, chars.len() as int), pattern@),
{
    if pattern.len() > chars.len() - at {
        return false;
    }
    let mut k: usize = 0;
    while k < pattern.len()
        invariant
            k <= pattern.len(),
            at + pattern.len() <= chars.len(),
            forall|j: int| 0 <= j < k ==> chars@[at + j] == pattern@[j],
        decreases pattern.len() - k,
    {
        if chars[at + k] != pattern[k] {
            proof {
                let tail = chars@.subrange(at as int, chars.len() as int);
                assert(tail.subrange(0, pattern@.len() as int)[k as int] != pattern@[k as int]);
            }
            return false;
        }
        k += 1;
    }
    proof {
        let tail = chars@.subrange(at as int, chars.len() as int);
        assert(tail.subrange(0, pattern@.len() as int) =~= pattern@);
    }
    true
}

/// Whether `pattern` occurs in `chars`.
pub fn contains_run_exec(chars: &Vec<char>, pattern: &Vec<char>) -> (found: bool)
    ensures
        found == contains_run(chars@, pattern@),
{
    if pattern.len() > chars.len() {
        return false;
    }
    let limit = chars.len() - pattern.len();
    let mut at: usize = 0;
    loop
        invariant
            pattern.len() <= chars.len(),
            limit == chars.len() - pattern.len(),
            at <= limit,
            forall|i: int| 0 <= i < at ==> #[trigger] chars@.subrange(i, i + pattern@.len()) != pattern@,
        decreases limit - at,
    {
        let hit = starts_with_at(chars, at, pattern);
        proof {
            let tail = chars@.subrange(at as int, chars.len() as int);
            assert(tail.subrange(0, pattern@.len() as int) =~= chars@.subrange(
                at as int,
                at + pattern@.len(),
            ));
        }
        if hit {
            return true;
        }
        if at == limit {
            return false;
        }
        at += 1;
    }
}

proof fn lemma_replace_all_step(s: Seq<char>, i: int, pattern: Seq<char>, replacement: Seq<char>)
    requires
        pattern.len() > 0,
        0 <= i < s.len(),
    ensures
        replace_all(s.subrange(i, s.len() as int), pattern, replacement) == if starts_with(
            s.subrange(i, s.len() as int),
            pattern,
        ) {
            replacement + replace_all(s.subrange(i + pattern.len(), s.len() as int), pattern, replacement)
        } else {
            seq![s[i]] + replace_all(s.subrange(i + 1, s.len() as int), pattern, replacement)
        },
{
    let tail = s.subrange(i, s.len() as int);
    if starts_with(tail, pattern) {
        assert(tail.skip(pattern.len() as int) =~= s.subrange(i + pattern.len(), s.len() as int));
    } else {
        assert(tail.drop_first() =~= s.subrange(i + 1, s.len() as int));
    }
}

/// `str::replace` on character vectors.
pub fn replace_chars(chars: &Vec<char>, pattern: &Vec<char>, replacement: &Vec<char>) -> (replaced: Vec<char>)
    requires
        pattern.len() > 0,
    ensures
        replaced@ == replace_all(chars@, pattern@, replacement@),
{
    let mut out: Vec<char> = Vec::new();
    let mut at: usize = 0;
    assert(chars@.subrange(0, chars.len() as int) =~= chars@);
    assert(out@ + replace_all(chars@, pattern@, replacement@) =~= replace_all(chars@, pattern@, replacement@));
    while at < chars.len()
        invariant
            pattern.len() > 0,
            at <= chars.len(),
            out@ + replace_all(chars@.subrange(at as int, chars.len() as int), pattern@, replacement@)
                == replace_all(chars@, pattern@, replacement@),
        decreases chars.len() - at,
    {
        proof {
            lemma_replace_all_step(chars@, at as int, pattern@, replacement@);
        }
        if starts_with_at(chars, at, pattern) {
            let ghost before = out@;
            append_chars(&mut out, replacement);
            at += pattern.len();
            assert(before + (replacement@ + replace_all(chars@.subrange(at as int, chars.len() as int), pattern@, replacement@)) =~= out@ + replace_all(chars@.subrange(at as int, chars.len() as int), pattern@, replacement@));
        } else {
            let ghost before = out@;
            out.push(chars[at]);
            at += 1;
            assert(before + (seq![chars@[at - 1]] + replace_all(chars@.subrange(at as int, chars.len() as int), pattern@, replacement@)) =~= out@ + replace_all(chars@.subrange(at as int, chars.len() as int), pattern@, replacement@));
        }
    }
    proof {
        assert(chars@.subrange(at as int, chars.len() as int).len() == 0);
        assert(out@ + Seq::<char>::empty() =~= out@);
        assert(chars@.subrange(0, chars.len() as int) =~= chars@);
    }
    out
}

/// Decimal digits of a natural number (no sign, no leading zeros).
pub open spec fn decimal(n: nat) -> Seq<char>
    decreases n,
{
    if n < 10 {
        seq![digit_char(n)]
    } else {
        decimal(n / 10).push(digit_char(n % 10))
    }
}

pub open spec fn digit_char(d: nat) -> char {
    ((d + 48) as u32) as char
}

/// The decimal text of a `u64` (`u64::to_string`).
pub fn u64_to_chars(n: u64) -> (text: Vec<char>)
    ensures
        text@ == decimal(n as nat),
    decreases n,
{
    let digit = (n % 10) as u32;
    let c = char_from_digit(digit);
    if n < 10 {
        let mut text = Vec::new();
        text.push(c);
        assert(text@ =~= decimal(n as nat));
        text
    } else {
        let mut text = u64_to_chars(n / 10);
        text.push(c);
        text
    }
}

fn char_from_digit(d: u32) -> (c: char)
    requires
        d < 10,
    ensures
        c == digit_char(d as nat),
{
    let code = (d + 48) as u8;
    code as char
}

/// The decimal text of an `i64` (`i64::to_string`).
pub open spec fn signed_decimal(n: int) -> Seq<char> {
    if n < 0 {
        seq!['-'] + decimal((-n) as nat)
    } else {
        decimal(n as nat)
    }
}

pub fn i64_to_chars(n: i64) -> (text: Vec<char>)
    ensures
        text@ == signed_decimal(n as int),
{
    if n < 0 {
        let magnitude: u64 = if n == i64::MIN {
            9223372036854775808u64
        } else {
            (-n) as u64
        };
        let digits = u64_to_chars(magnitude);
        let mut text = Vec::new();
        text.push('-');
        append_chars(&mut text, &digits);
        text
    } else {
        u64_to_chars(n as u64)
    }
}

/// Value of a run of ASCII decimal digits.
pub open spec fn digits_value(s: Seq<char>) -> nat
    decreases s.len(),
{
    if s.len() == 0 {
        0
    } else {
        digits_value(s.drop_last()) * 10 + ((s.last() as u32) - 48) as nat
    }
}

pub open spec fn is_ascii_digit(c: char) -> bool {
    '0' <= c && c <= '9'
}

/// The number part of a `u64` literal: the text without one leading `+`.
pub open spec fn unsigned_digits(s: Seq<char>) -> Seq<char> {
    if s.len() > 0 && s[0] == '+' {
        s.drop_first()
    } else {
        s
    }
}

/// Every character is an ASCII decimal digit.
pub open spec fn all_ascii_digits(s: Seq<char>) -> bool {
    forall|i: int| 0 <= i < s.len() ==> is_ascii_digit(#[trigger] s[i])
}

/// `u64::from_str`: an optional `+`, then at least one ASCII digit, with a
/// value that fits in `u64`.
pub open spec fn parse_u64_spec(s: Seq<char>) -> Option<u64> {
    let digits = unsigned_digits(s);
    if digits.len() > 0 && all_ascii_digits(digits) && digits_value(digits) <= u64::MAX {
        Some(digits_value(digits) as u64)
    } else {
        None
    }
}

proof fn lemma_digits_value_monotone(s: Seq<char>, k: int)
    requires
        0 <= k <= s.len(),
        forall|i: int| 0 <= i < s.len() ==> is_ascii_digit(#[trigger] s[i]),
    ensures
        digits_value(s.subrange(0, k)) <= digits_value(s),
    decreases s.len() - k,
{
    if k < s.len() {
        lemma_digits_value_monotone(s, k + 1);
        let a = s.subrange(0, k + 1);
        assert(a.drop_last() =~= s.subrange(0, k));
        assert(digits_value(a) >= digits_value(s.subrange(0, k)) * 10);
    } else {
        assert(s.subrange(0, k) =~= s);
    }
}

/// Parses a `u64` the way `u64::from_str` does (see [`parse_u64_spec`]).
pub fn parse_u64(chars: &Vec<char>) -> (value: Option<u64>)
    ensures
        value == parse_u64_spec(chars@),
{
    let start: usize = if chars.len() > 0 && chars[0] == '+' {
        1
    } else {
        0
    };
    let ghost digits = unsigned_digits(chars@);
    assert(digits =~= chars@.subrange(start as int, chars.len() as int));
    if start == chars.len() {
        proof {
            lemma_parse_u64_fails(chars@, digits);
        }
        return None;
    }
    let mut index = start;
    let mut total: u64 = 0;
    while index < chars.len()
        invariant
            start <= index <= chars.len(),
            digits == chars@.subrange(start as int, chars.len() as int),
            digits == unsigned_digits(chars@),
            forall|i: int| start <= i < index ==> is_ascii_digit(#[trigger] chars@[i]),
            total as nat == digits_value(chars@.subrange(start as int, index as int)),
        decreases chars.len() - index,
    {
        let c = chars[index];
        if !('0' <= c && c <= '9') {
            proof {
                assert(!is_ascii_digit(digits[index - start]));
                lemma_parse_u64_fails(chars@, digits);
            }
            return None;
        }
        let d = (c as u32 - 48) as u64;
        proof {
            assert(is_ascii_digit(chars@[index as int]));
            let next = chars@.subrange(start as int, index + 1);
            assert(next.drop_last() =~= chars@.subrange(start as int, index as int));
            assert(next.last() == c);
        }
        match total.checked_mul(10) {
            None => {
                proof {
                    self_check_overflow(chars@, start as int, index as int, digits);
                    lemma_parse_u64_fails(chars@, digits);
                }
                return None;
            },
            Some(scaled) => match scaled.checked_add(d) {
                None => {
                    proof {
                        self_check_overflow(chars@, start as int, index as int, digits);
                    }
                    return None;
                },
                Some(next_total) => {
                    total = next_total;
                },
            },
        }
        index += 1;
    }
    assert(chars@.subrange(start as int, chars.len() as int) =~= digits);
    Some(total)
}

/// If the digits up to `index` already overflow, the whole run does, or a
/// later character is not a digit.
proof fn self_check_overflow(s: Seq<char>, start: int, index: int, digits: Seq<char>)
    requires
        0 <= start <= index < s.len(),
        digits == s.subrange(start, s.len() as int),
        forall|i: int| start <= i <= index ==> is_ascii_digit(#[trigger] s[i]),
        digits_value(s.subrange(start, index + 1)) > u64::MAX,
    ensures
        parse_u64_spec_digits_fail(digits),
{
    if all_ascii_digits(digits) {
        lemma_digits_value_monotone(digits, index + 1 - start);
        assert(digits.subrange(0, index + 1 - start) =~= s.subrange(start, index + 1));
    }
}

/// The digits part of a number that `u64::from_str` rejects.
pub open spec fn parse_u64_spec_digits_fail(digits: Seq<char>) -> bool {
    !(all_ascii_digits(digits) && digits_value(digits) <= u64::MAX)
}

/// A digits part that is empty or rejected makes the whole parse fail.
proof fn lemma_parse_u64_fails(s: Seq<char>, digits: Seq<char>)
    requires
        digits == unsigned_digits(s),
        digits.len() == 0 || parse_u64_spec_digits_fail(digits),
    ensures
        parse_u64_spec(s) is None,
{
}

/// `chars[from..to]` as a new vector.
pub fn slice_chars(chars: &Vec<char>, from: usize, to: usize) -> (part: Vec<char>)
    requires
        from <= to <= chars.len(),
    ensures
        part@ == chars@.subrange(from as int, to as int),
{
    let mut part: Vec<char> = Vec::new();
    let mut index = from;
    while index < to
        invariant
            from <= index <= to <= chars.len(),
            part@ == chars@.subrange(from as int, index as int),
        decreases to - index,
    {
        part.push(chars[index]);
        index += 1;
        assert(part@ =~= chars@.subrange(from as int, index as int));
    }
    part
}

/// Number of leading characters of `chars` that occur in `set`.
pub fn leading_in(chars: &Vec<char>, set: &Vec<char>) -> (count: usize)
    ensures
        count == leading_count(chars@, one_of(set@)),
{
    let mut k: usize = 0;
    while k < chars.len()
        invariant
            k <= chars.len(),
            forall|i: int| 0 <= i < k ==> set@.contains(#[trigger] chars@[i]),
        decreases chars.len() - k,
    {
        if !contains_char(set, chars[k]) {
            proof {
                lemma_leading_count_unique(chars@, one_of(set@), k as int);
            }
            return k;
        }
        k += 1;
    }
    proof {
        lemma_leading_count_unique(chars@, one_of(set@), k as int);
    }
    k
}

/// Number of trailing characters of `chars` that occur in `set`.
pub fn trailing_in(chars: &Vec<char>, set: &Vec<char>) -> (count: usize)
    ensures
        count == trailing_count(chars@, one_of(set@)),
{
    let mut k: usize = 0;
    while k < chars.len()
        invariant
            k <= chars.len(),
            forall|i: int| chars.len() - k <= i < chars.len() ==> set@.contains(#[trigger] chars@[i]),
        decreases chars.len() - k,
    {
        if !contains_char(set, chars[chars.len() - 1 - k]) {
            proof {
                lemma_trailing_count_unique(chars@, one_of(set@), k as int);
            }
            return k;
        }
        k += 1;
    }
    proof {
        lemma_trailing_count_unique(chars@, one_of(set@), k as int);
    }
    k
}

/// Index of the last `c` in `s`, if any.
pub open spec fn last_index_of(s: Seq<char>, c: char) -> Option<int>
    decreases s.len(),
{
    if s.len() == 0 {
        None
    } else if s.last() == c {
        Some(s.len() - 1)
    } else {
        last_index_of(s.drop_last(), c)
    }
}

/// Characterises `last_index_of` by the position it finds.
pub proof fn lemma_last_index_at(s: Seq<char>, c: char, k: int)
    requires
        -1 <= k < s.len(),
        forall|j: int| k < j < s.len() ==> s[j] != c,
        k >= 0 ==> s[k] == c,
    ensures
        last_index_of(s, c) == if k >= 0 {
            Some(k)
        } else {
            None::<int>
        },
    decreases s.len(),
{
    if s.len() > 0 && k < s.len() - 1 {
        assert forall|j: int| k < j < s.len() - 1 implies s.drop_last()[j] != c by {
            assert(s.drop_last()[j] == s[j]);
        }
        if k >= 0 {
            assert(s.drop_last()[k] == s[k]);
        }
        lemma_last_index_at(s.drop_last(), c, k);
    }
}

/// The index of the last `c` in `chars`, if any.
pub fn find_last_char(chars: &Vec<char>, c: char) -> (found: Option<usize>)
    ensures
        match found {
            Some(i) => last_index_of(chars@, c) == Some(i as int) && i < chars.len() && chars@[i as int]
                == c,
            None => last_index_of(chars@, c) is None,
        },
{
    let mut k: usize = chars.len();
    while k > 0
        invariant
            k <= chars.len(),
            forall|j: int| k <= j < chars.len() ==> chars@[j] != c,
        decreases k,
    {
        if chars[k - 1] == c {
            proof {
                lemma_last_index_at(chars@, c, k - 1);
            }
            return Some(k - 1);
        }
        k -= 1;
    }
    proof {
        lemma_last_index_at(chars@, c, -1);
    }
    None
}

/// The first position at or after `i` where `pattern` occurs in `s`.
pub open spec fn run_index_from(s: Seq<char>, pattern: Seq<char>, i: int) -> Option<int>
    decreases s.len() + 1 - i,
{
    if i < 0 || i + pattern.len() > s.len() {
        None
    } else if s.subrange(i, i + pattern.len()) == pattern {
        Some(i)
    } else {
        run_index_from(s, pattern, i + 1)
    }
}

/// The first position of `pattern` in `s` (`str::find`).
pub open spec fn first_run_index(s: Seq<char>, pattern: Seq<char>) -> Option<int> {
    run_index_from(s, pattern, 0)
}

/// The last position at or before `i` where `pattern` occurs in `s`.
pub open spec fn run_index_before(s: Seq<char>, pattern: Seq<char>, i: int) -> Option<int>
    decreases i + 1,
{
    if i < 0 {
        None
    } else if i + pattern.len() <= s.len() && s.subrange(i, i + pattern.len()) == pattern {
        Some(i)
    } else {
        run_index_before(s, pattern, i - 1)
    }
}

/// The last position of `pattern` in `s` (`str::rfind`).
pub open spec fn last_run_index(s: Seq<char>, pattern: Seq<char>) -> Option<int> {
    run_index_before(s, pattern, s.len() - pattern.len())
}

proof fn lemma_run_index_from_bounds(s: Seq<char>, pattern: Seq<char>, i: int)
    ensures
        run_index_from(s, pattern, i) matches Some(k) ==> i <= k && 0 <= k && k + pattern.len() <= s.len()
            && s.subrange(k, k + pattern.len()) == pattern,
    decreases s.len() + 1 - i,
{
    if !(i < 0 || i + pattern.len() > s.len()) && s.subrange(i, i + pattern.len()) != pattern {
        lemma_run_index_from_bounds(s, pattern, i + 1);
    }
}

proof fn lemma_run_index_before_bounds(s: Seq<char>, pattern: Seq<char>, i: int)
    ensures
        run_index_before(s, pattern, i) matches Some(k) ==> 0 <= k <= i && k + pattern.len() <= s.len(),
    decreases i + 1,
{
    if i >= 0 && !(i + pattern.len() <= s.len() && s.subrange(i, i + pattern.len()) == pattern) {
        lemma_run_index_before_bounds(s, pattern, i - 1);
    }
}

/// The first position of `pattern` in `chars`.
pub fn find_run(chars: &Vec<char>, pattern: &Vec<char>) -> (found: Option<usize>)
    ensures
        match found {
            Some(k) => first_run_index(chars@, pattern@) == Some(k as int) && k + pattern.len() <= chars.len(),
            None => first_run_index(chars@, pattern@) is None,
        },
{
    if pattern.len() > chars.len() {
        return None;
    }
    let limit = chars.len() - pattern.len();
    let mut at: usize = 0;
    loop
        invariant
            pattern.len() <= chars.len(),
            limit == chars.len() - pattern.len(),
            at <= limit,
            run_index_from(chars@, pattern@, 0) == run_index_from(chars@, pattern@, at as int),
        decreases limit - at,
    {
        let hit = starts_with_at(chars, at, pattern);
        proof {
            let tail = chars@.subrange(at as int, chars.len() as int);
            assert(tail.subrange(0, pattern@.len() as int) =~= chars@.subrange(
                at as int,
                at + pattern@.len(),
            ));
        }
        if hit {
            return Some(at);
        }
        if at == limit {
            assert(run_index_from(chars@, pattern@, at + 1) is None);
            return None;
        }
        at += 1;
    }
}

/// The last position of `pattern` in `chars`.
pub fn rfind_run(chars: &Vec<char>, pattern: &Vec<char>) -> (found: Option<usize>)
    ensures
        match found {
            Some(k) => last_run_index(chars@, pattern@) == Some(k as int) && k + pattern.len() <= chars.len(),
            None => last_run_index(chars@, pattern@) is None,
        },
{
    if pattern.len() > chars.len() {
        assert(run_index_before(chars@, pattern@, chars@.len() - pattern@.len()) is None);
        return None;
    }
    let mut at: usize = chars.len() - pattern.len();
    loop
        invariant
            pattern.len() <= chars.len(),
            at + pattern.len() <= chars.len(),
            last_run_index(chars@, pattern@) == run_index_before(chars@, pattern@, at as int),
        decreases at,
    {
        let hit = starts_with_at(chars, at, pattern);
        proof {
            let tail = chars@.subrange(at as int, chars.len() as int);
            assert(tail.subrange(0, pattern@.len() as int) =~= chars@.subrange(
                at as int,
                at + pattern@.len(),
            ));
        }
        if hit {
            return Some(at);
        }
        if at == 0 {
            assert(run_index_before(chars@, pattern@, -1) is None);
            return None;
        }
        at -= 1;
    }
}

/// `s` with `prefix` removed from its start as often as it occurs there
/// (`str::trim_start_matches` with a string).
pub open spec fn strip_prefix_repeatedly(s: Seq<char>, prefix: Seq<char>) -> Seq<char>
    decreases s.len(),
{
    if prefix.len() > 0 && starts_with(s, prefix) {
        strip_prefix_repeatedly(s.skip(prefix.len() as int), prefix)
    } else {
        s
    }
}

/// See [`strip_prefix_repeatedly`].
pub fn strip_prefix_all(chars: &Vec<char>, prefix: &Vec<char>) -> (stripped: Vec<char>)
    ensures
        stripped@ == strip_prefix_repeatedly(chars@, prefix@),
{
    let mut at: usize = 0;
    if prefix.len() == 0 {
        return copy_chars(chars);
    }
    assert(chars@.subrange(0, chars.len() as int) =~= chars@);
    while at < chars.len()
        invariant
            prefix.len() > 0,
            at <= chars.len(),
            strip_prefix_repeatedly(chars@.subrange(at as int, chars.len() as int), prefix@)
                == strip_prefix_repeatedly(chars@, prefix@),
        decreases chars.len() - at,
    {
        if !starts_with_at(chars, at, prefix) {
            return slice_chars(chars, at, chars.len());
        }
        proof {
            let tail = chars@.subrange(at as int, chars.len() as int);
            assert(tail.skip(prefix@.len() as int) =~= chars@.subrange(at + prefix@.len(), chars.len() as int));
        }
        at += prefix.len();
    }
    slice_chars(chars, at, chars.len())
}

/// Unicode lower case of a text (`str::to_lowercase`).
pub uninterp spec fn unicode_lowercase(s: Seq<char>) -> Seq<char>;

/// The Unicode lower case of a text.
///
/// Trusted: wraps `str::to_lowercase`; the contract names its result, which
/// depends on the characters alone.
#[verifier::external_body]
pub(crate) fn to_lowercase(text: &str) -> (lowered: String)
    ensures
        lowered@ == unicode_lowercase(text@),
{
    text.to_lowercase()
}

/// What a sequence holds after a push.
pub proof fn lemma_push_contains<T>(s: Seq<T>, x: T, key: T)
    ensures
        s.push(x).contains(key) <==> (s.contains(key) || key == x),
{
    if s.push(x).contains(key) {
        let i = choose|i: int| 0 <= i < s.push(x).len() && s.push(x)[i] == key;
        if i < s.len() {
            assert(s[i] == key);
        }
    }
    if s.contains(key) {
        let i = choose|i: int| 0 <= i < s.len() && s[i] == key;
        assert(s.push(x)[i] == key);
    }
    if key == x {
        assert(s.push(x)[s.len() as int] == key);
    }
}

} // verus!

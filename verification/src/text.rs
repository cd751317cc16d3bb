//! Text as sequences of characters: what the standard string methods that the library needs do,
//! stated and proved character by character.

use vstd::prelude::*;

verus! {

/// `String::push` appends the character.
pub assume_specification[ String::push ](text: &mut String, c: char)
    ensures
        final(text)@ == old(text)@.push(c),
;

/// Whether two texts are the same.
pub fn same_text(a: &str, b: &str) -> (r: bool)
    ensures
        r == (a@ == b@),
{
    a.to_owned() == b.to_owned()
}

/// The characters of a text.
pub fn chars_of(text: &str) -> (r: Vec<char>)
    ensures
        r@ == text@,
{
    let mut chars: Vec<char> = Vec::new();
    for c in iter: text.chars()
        invariant
            chars@ == text@.take(iter.index()),
            iter.seq() == text@,
    {
        chars.push(c);
    }
    chars
}

/// The text of the characters from `from` up to `to`.
pub fn text_of(chars: &Vec<char>, from: usize, to: usize) -> (r: String)
    requires
        from <= to <= chars@.len(),
    ensures
        r@ == chars@.subrange(from as int, to as int),
{
    let mut text = String::new();
    let mut i: usize = from;
    while i < to
        invariant
            from <= i <= to <= chars@.len(),
            text@ == chars@.subrange(from as int, i as int),
        decreases to - i,
    {
        text.push(chars[i]);
        i += 1;
        assert(text@ =~= chars@.subrange(from as int, i as int));
    }
    text
}

/// Adds the characters of `tail` to the end of `text`.
pub fn push_text(text: &mut String, tail: &str)
    ensures
        final(text)@ == old(text)@ + tail@,
{
    text.append(tail);
}

/// The two texts, one after the other.
pub fn joined(a: &str, b: &str) -> (r: String)
    ensures
        r@ == a@ + b@,
{
    let mut text = a.to_owned();
    text.append(b);
    text
}

pub open spec fn has_prefix(text: Seq<char>, prefix: Seq<char>) -> bool {
    prefix.len() <= text.len() && text.take(prefix.len() as int) == prefix
}

pub open spec fn has_suffix(text: Seq<char>, suffix: Seq<char>) -> bool {
    suffix.len() <= text.len() && text.skip(text.len() - suffix.len()) == suffix
}

/// Whether `part` stands in `text` at `i`.
pub open spec fn stands_at(text: Seq<char>, part: Seq<char>, i: int) -> bool {
    0 <= i && i + part.len() <= text.len() && text.subrange(i, i + part.len()) == part
}

pub open spec fn contains_text(text: Seq<char>, part: Seq<char>) -> bool {
    exists|i: int| stands_at(text, part, i)
}

/// The index of the first `c`, or the length if there is none.
pub open spec fn first_index(text: Seq<char>, c: char) -> int
    decreases text.len(),
{
    if text.len() == 0 {
        0
    } else if text[0] == c {
        0
    } else {
        1 + first_index(text.drop_first(), c)
    }
}

/// What lies between the separators: one piece more than there are separators.
pub open spec fn split_on(text: Seq<char>, separator: char) -> Seq<Seq<char>>
    decreases text.len(),
{
    let i = first_index(text, separator);
    if 0 <= i < text.len() {
        seq![text.take(i)] + split_on(text.skip(i + 1), separator)
    } else {
        seq![text]
    }
}

/// The characters of Unicode's `White_Space` property.
pub open spec fn white_space(c: char) -> bool {
    let code = c as u32;
    ||| 0x9 <= code <= 0xd
    ||| code == 0x20
    ||| code == 0x85
    ||| code == 0xa0
    ||| code == 0x1680
    ||| 0x2000 <= code <= 0x200a
    ||| code == 0x2028
    ||| code == 0x2029
    ||| code == 0x202f
    ||| code == 0x205f
    ||| code == 0x3000
}

/// Whether the text neither starts nor ends with white space.
pub open spec fn trimmed(text: Seq<char>) -> bool {
    text.len() > 0 ==> !white_space(text[0]) && !white_space(text.last())
}

pub proof fn lemma_first_index(text: Seq<char>, c: char)
    ensures
        0 <= first_index(text, c) <= text.len(),
        first_index(text, c) < text.len() ==> text[first_index(text, c)] == c,
        forall|k: int| 0 <= k < first_index(text, c) ==> text[k] != c,
    decreases text.len(),
{
    if text.len() > 0 && text[0] != c {
        lemma_first_index(text.drop_first(), c);
        assert forall|k: int| 0 <= k < first_index(text, c) implies text[k] != c by {
            if k > 0 {
                assert(text[k] == text.drop_first()[k - 1]);
            }
        }
    }
}

/// The first index is known by what lies before it.
pub proof fn lemma_first_index_is(text: Seq<char>, c: char, i: int)
    requires
        0 <= i <= text.len(),
        i < text.len() ==> text[i] == c,
        forall|k: int| 0 <= k < i ==> text[k] != c,
    ensures
        first_index(text, c) == i,
{
    lemma_first_index(text, c);
}

/// A piece without the separator, the separator, and the rest: the piece comes off first.
pub proof fn lemma_split_piece(piece: Seq<char>, rest: Seq<char>, separator: char)
    requires
        !piece.contains(separator),
    ensures
        split_on(piece + seq![separator] + rest, separator) == seq![piece] + split_on(
            rest,
            separator,
        ),
        split_on(piece, separator) == seq![piece],
{
    let text = piece + seq![separator] + rest;
    assert forall|k: int| 0 <= k < piece.len() implies text[k] != separator && piece[k]
        != separator by {
        assert(piece.contains(piece[k]));
    }
    lemma_first_index_is(text, separator, piece.len() as int);
    lemma_first_index_is(piece, separator, piece.len() as int);
    assert(text.take(piece.len() as int) =~= piece);
    assert(text.skip(piece.len() as int + 1) =~= rest);
}

/// The index of the first `c` from `from` on.
pub fn find_char(chars: &Vec<char>, from: usize, c: char) -> (r: usize)
    requires
        from <= chars@.len(),
    ensures
        r == from + first_index(chars@.skip(from as int), c),
        from <= r <= chars@.len(),
{
    let mut i: usize = from;
    while i < chars.len() && chars[i] != c
        invariant
            from <= i <= chars@.len(),
            forall|k: int| from <= k < i ==> chars@[k] != c,
        decreases chars@.len() - i,
    {
        i += 1;
    }
    proof {
        let rest = chars@.skip(from as int);
        assert forall|k: int| 0 <= k < i - from implies rest[k] != c by {
            assert(rest[k] == chars@[from + k]);
        }
        lemma_first_index_is(rest, c, i - from);
    }
    i
}

/// What lies between the separators.
pub fn split(text: &str, separator: char) -> (r: Vec<String>)
    ensures
        r.deep_view() == split_on(text@, separator),
        r@.len() >= 1,
{
    let chars = chars_of(text);
    let mut pieces: Vec<String> = Vec::new();
    let mut start: usize = 0;
    assert(chars@.skip(0) =~= chars@);
    assert(pieces.deep_view() + split_on(chars@, separator) =~= split_on(chars@, separator));
    loop
        invariant
            start <= chars@.len(),
            chars@ == text@,
            pieces.deep_view() + split_on(chars@.skip(start as int), separator) == split_on(
                text@,
                separator,
            ),
        decreases chars@.len() - start,
    {
        let ghost rest = chars@.skip(start as int);
        let ghost before = pieces.deep_view();
        let end = find_char(&chars, start, separator);
        let piece = text_of(&chars, start, end);
        pieces.push(piece);
        proof {
            assert(piece@ =~= rest.take(end - start));
            assert(pieces.deep_view() =~= before.push(piece@));
        }
        if end == chars.len() {
            assert(rest.take(end - start) =~= rest);
            assert(pieces.deep_view() =~= before + seq![rest]);
            return pieces;
        }
        assert(rest.skip(end - start + 1) =~= chars@.skip(end + 1));
        assert(pieces.deep_view() + split_on(chars@.skip(end + 1), separator) =~= before + (
        seq![piece@] + split_on(chars@.skip(end + 1), separator)));
        start = end + 1;
    }
}

/// Whether `text` starts with `prefix`.
pub fn starts_with(text: &str, prefix: &str) -> (r: bool)
    ensures
        r == has_prefix(text@, prefix@),
{
    let chars = chars_of(text);
    let wanted = chars_of(prefix);
    part_stands_at(&chars, &wanted, 0)
}

/// Whether `text` ends with `suffix`.
pub fn ends_with(text: &str, suffix: &str) -> (r: bool)
    ensures
        r == has_suffix(text@, suffix@),
{
    let chars = chars_of(text);
    let wanted = chars_of(suffix);
    if wanted.len() > chars.len() {
        return false;
    }
    proof {
        assert(text@.skip(text@.len() - suffix@.len()) =~= text@.subrange(
            text@.len() - suffix@.len(),
            text@.len() as int,
        ));
    }
    part_stands_at(&chars, &wanted, chars.len() - wanted.len())
}

fn part_stands_at(chars: &Vec<char>, part: &Vec<char>, at: usize) -> (r: bool)
    requires
        at <= chars@.len(),
    ensures
        r == stands_at(chars@, part@, at as int),
        at == 0 ==> r == has_prefix(chars@, part@),
{
    if part.len() > chars.len() - at {
        return false;
    }
    proof {
        if at == 0 {
            assert(chars@.take(part@.len() as int) =~= chars@.subrange(0, part@.len() as int));
        }
    }
    let mut i: usize = 0;
    while i < part.len()
        invariant
            i <= part@.len(),
            at + part@.len() <= chars@.len(),
            at + part@.len() <= usize::MAX,
            forall|k: int| 0 <= k < i ==> chars@[at + k] == part@[k],
        decreases part@.len() - i,
    {
        if chars[at + i] != part[i] {
            assert(chars@.subrange(at as int, at + part@.len())[i as int] != part@[i as int]);
            return false;
        }
        i += 1;
    }
    assert(chars@.subrange(at as int, at + part@.len()) =~= part@);
    true
}

/// Whether `part` stands anywhere in `text`.
pub fn contains(text: &str, part: &str) -> (r: bool)
    ensures
        r == contains_text(text@, part@),
{
    let chars = chars_of(text);
    let wanted = chars_of(part);
    let mut i: usize = 0;
    while i < chars.len()
        invariant
            i <= chars@.len(),
            chars@ == text@,
            wanted@ == part@,
            forall|k: int| 0 <= k < i ==> !stands_at(text@, part@, k),
        decreases chars@.len() - i,
    {
        if part_stands_at(&chars, &wanted, i) {
            return true;
        }
        i += 1;
    }
    part_stands_at(&chars, &wanted, i)
}

/// Whether the character `c` stands anywhere in `text`.
pub fn contains_char(text: &str, c: char) -> (r: bool)
    ensures
        r == text@.contains(c),
{
    let chars = chars_of(text);
    let i = find_char(&chars, 0, c);
    proof {
        assert(chars@.skip(0) =~= chars@);
        lemma_first_index(text@, c);
        if text@.contains(c) {
            let k = choose|k: int| 0 <= k < text@.len() && text@[k] == c;
            assert(text@[k] == c);
        }
    }
    i < chars.len()
}

fn is_white_space(c: char) -> (r: bool)
    ensures
        r == white_space(c),
{
    let code: u32 = c as u32;
    (0x9 <= code && code <= 0xd) || code == 0x20 || code == 0x85 || code == 0xa0 || code == 0x1680
        || (0x2000 <= code && code <= 0x200a) || code == 0x2028 || code == 0x2029 || code == 0x202f
        || code == 0x205f || code == 0x3000
}

/// Whether the text neither starts nor ends with white space.
pub fn is_trimmed(text: &str) -> (r: bool)
    ensures
        r == trimmed(text@),
{
    let chars = chars_of(text);
    if chars.len() == 0 {
        return true;
    }
    !is_white_space(chars[0]) && !is_white_space(chars[chars.len() - 1])
}

/// The order of texts: by the first character in which they differ, and a text before every longer
/// text that it starts.
pub open spec fn text_before(a: Seq<char>, b: Seq<char>) -> bool
    decreases b.len(),
{
    if b.len() == 0 {
        false
    } else if a.len() == 0 {
        true
    } else if a[0] == b[0] {
        text_before(a.drop_first(), b.drop_first())
    } else {
        a[0] < b[0]
    }
}

/// Of two texts that differ exactly one comes before the other.
pub proof fn text_order_is_total(a: Seq<char>, b: Seq<char>)
    ensures
        a == b ==> !text_before(a, b),
        a != b ==> text_before(a, b) != text_before(b, a),
    decreases b.len(),
{
    if a.len() == 0 || b.len() == 0 {
        if a.len() == b.len() {
            assert(a =~= b);
        }
    } else if a[0] == b[0] {
        text_order_is_total(a.drop_first(), b.drop_first());
        assert(a =~= seq![a[0]] + a.drop_first());
        assert(b =~= seq![b[0]] + b.drop_first());
        assert(text_before(a, b) == text_before(a.drop_first(), b.drop_first()));
        assert(text_before(b, a) == text_before(b.drop_first(), a.drop_first()));
    } else {
        assert(text_before(a, b) == (a[0] < b[0]));
        assert(text_before(b, a) == (b[0] < a[0]));
    }
}

/// What comes before a text comes before all that comes after the text.
pub proof fn text_order_is_transitive(a: Seq<char>, b: Seq<char>, c: Seq<char>)
    requires
        text_before(a, b),
        text_before(b, c),
    ensures
        text_before(a, c),
    decreases c.len(),
{
    if a.len() > 0 && a[0] == b[0] && b[0] == c[0] {
        text_order_is_transitive(a.drop_first(), b.drop_first(), c.drop_first());
    }
}

/// Texts are in the order of the characters in which they first differ. A text comes before every
/// longer text that it starts.
pub proof fn lemma_text_before(a: Seq<char>, b: Seq<char>, n: int)
    requires
        0 <= n <= a.len(),
        n < b.len(),
        a.take(n) == b.take(n),
        n < a.len() ==> a[n] < b[n],
    ensures
        text_before(a, b),
    decreases n,
{
    if n > 0 {
        assert(a[0] == a.take(n)[0] && b[0] == b.take(n)[0]);
        assert(a.drop_first().take(n - 1) =~= a.take(n).drop_first());
        assert(b.drop_first().take(n - 1) =~= b.take(n).drop_first());
        lemma_text_before(a.drop_first(), b.drop_first(), n - 1);
        assert(text_before(a, b) == text_before(a.drop_first(), b.drop_first()));
    }
}

/// Whether `a` comes before `b`.
pub fn is_before(a: &str, b: &str) -> (r: bool)
    ensures
        r == text_before(a@, b@),
{
    let first = chars_of(a);
    let second = chars_of(b);
    assert(a@.skip(0) =~= a@ && b@.skip(0) =~= b@);
    let mut i: usize = 0;
    while i < first.len() && i < second.len()
        invariant
            i <= first@.len(),
            i <= second@.len(),
            first@ == a@,
            second@ == b@,
            text_before(a@, b@) == text_before(a@.skip(i as int), b@.skip(i as int)),
        decreases first@.len() - i,
    {
        if first[i] != second[i] {
            return first[i] < second[i];
        }
        assert(a@.skip(i as int).drop_first() =~= a@.skip(i + 1));
        assert(b@.skip(i as int).drop_first() =~= b@.skip(i + 1));
        i += 1;
    }
    i < second.len()
}

/// The parts, with the separator between them.
pub open spec fn join_on(parts: Seq<Seq<char>>, separator: char) -> Seq<char>
    decreases parts.len(),
{
    if parts.len() == 0 {
        Seq::empty()
    } else if parts.len() == 1 {
        parts[0]
    } else {
        parts[0] + seq![separator] + join_on(parts.drop_first(), separator)
    }
}

/// Splitting gives back the parts that were joined, where none of them holds the separator.
pub proof fn splitting_undoes_joining(parts: Seq<Seq<char>>, separator: char)
    requires
        parts.len() > 0,
        forall|i: int| 0 <= i < parts.len() ==> !(#[trigger] parts[i]).contains(separator),
    ensures
        split_on(join_on(parts, separator), separator) == parts,
    decreases parts.len(),
{
    if parts.len() == 1 {
        lemma_split_piece(parts[0], Seq::empty(), separator);
        assert(parts =~= seq![parts[0]]);
    } else {
        let rest = parts.drop_first();
        assert forall|i: int| 0 <= i < rest.len() implies !(#[trigger] rest[i]).contains(
            separator,
        ) by {
            assert(rest[i] == parts[i + 1]);
        }
        splitting_undoes_joining(rest, separator);
        lemma_split_piece(parts[0], join_on(rest, separator), separator);
        assert(parts =~= seq![parts[0]] + rest);
    }
}

/// What stands behind the last separator is the last part.
pub proof fn lemma_join_last(parts: Seq<Seq<char>>, last: Seq<char>, separator: char)
    ensures
        join_on(parts.push(Seq::empty()), separator) + last == join_on(parts.push(last), separator),
    decreases parts.len(),
{
    let open = parts.push(Seq::<char>::empty());
    let whole = parts.push(last);
    if parts.len() == 0 {
        assert(join_on(open, separator) + last =~= last);
    } else {
        lemma_join_last(parts.drop_first(), last, separator);
        assert(open.drop_first() =~= parts.drop_first().push(Seq::empty()));
        assert(whole.drop_first() =~= parts.drop_first().push(last));
        assert(join_on(open, separator) + last =~= join_on(whole, separator));
    }
}

/// The parts, with the separator between them.
pub fn join(parts: &Vec<String>, separator: char) -> (r: String)
    ensures
        r@ == join_on(parts.deep_view(), separator),
{
    let ghost all = parts.deep_view();
    let n: usize = parts.len();
    let mut text = String::new();
    if n == 0 {
        return text;
    }
    let mut i: usize = 0;
    assert(all.skip(0) =~= all);
    while i + 1 < n
        invariant
            i < n == parts@.len(),
            n <= usize::MAX,
            all == parts.deep_view(),
            join_on(all, separator) == text@ + join_on(all.skip(i as int), separator),
        decreases n - i,
    {
        let ghost before = text@;
        push_text(&mut text, parts[i].as_str());
        text.push(separator);
        proof {
            let rest = all.skip(i as int);
            assert(rest.drop_first() =~= all.skip(i + 1));
            assert(rest[0] == parts@[i as int]@);
            assert(before + join_on(rest, separator) =~= text@ + join_on(
                all.skip(i + 1),
                separator,
            ));
        }
        i += 1;
    }
    push_text(&mut text, parts[i].as_str());
    assert(all.skip(i as int)[0] == parts@[i as int]@);
    text
}

/// Joining gives back the text that was split; none of the pieces holds the separator, and there is at
/// least one.
pub proof fn joining_undoes_splitting(text: Seq<char>, separator: char)
    ensures
        join_on(split_on(text, separator), separator) == text,
        split_on(text, separator).len() > 0,
        forall|i: int|
            0 <= i < split_on(text, separator).len() ==> !(#[trigger] split_on(text, separator)[i]).contains(
                separator,
            ),
    decreases text.len(),
{
    lemma_first_index(text, separator);
    let i = first_index(text, separator);
    let pieces = split_on(text, separator);
    if i < text.len() {
        let rest = text.skip(i + 1);
        joining_undoes_splitting(rest, separator);
        let others = split_on(rest, separator);
        assert(pieces == seq![text.take(i)] + others);
        assert(pieces.drop_first() =~= others);
        assert(text =~= text.take(i) + seq![separator] + rest);
        assert forall|k: int| 0 <= k < pieces.len() implies !(#[trigger] pieces[k]).contains(
            separator,
        ) by {
            if k > 0 {
                assert(pieces[k] == others[k - 1]);
            }
        }
    } else {
        assert(pieces == seq![text]);
    }
}

/// A text starts with another exactly if it is the other and something behind it.
pub proof fn texts_start_with_their_first_part(text: Seq<char>, part: Seq<char>, after: Seq<char>)
    ensures
        has_prefix(part + after, part),
        has_prefix(text, part) ==> text == part + text.skip(part.len() as int),
{
    assert((part + after).take(part.len() as int) =~= part);
    if has_prefix(text, part) {
        assert(text =~= text.take(part.len() as int) + text.skip(part.len() as int));
    }
}

/// A text ends with another exactly if it is something and the other behind it.
pub proof fn texts_end_with_their_last_part(text: Seq<char>, before: Seq<char>, part: Seq<char>)
    ensures
        has_suffix(before + part, part),
        has_suffix(text, part) ==> text == text.take(text.len() - part.len()) + part,
{
    assert((before + part).skip(before.len() as int) =~= part);
    if has_suffix(text, part) {
        let n = text.len() - part.len();
        assert(text =~= text.take(n) + text.skip(n));
    }
}

/// A text holds another exactly if it is something, the other, and something.
pub proof fn texts_hold_their_parts(
    text: Seq<char>,
    before: Seq<char>,
    part: Seq<char>,
    after: Seq<char>,
)
    ensures
        contains_text(before + part + after, part),
        contains_text(text, part) ==> exists|i: int|
            0 <= i <= text.len() - part.len() && parted_at(text, part, i),
{
    let n = before.len() as int;
    let whole = before + part + after;
    assert(whole.subrange(n, n + part.len()) =~= part);
    assert(stands_at(whole, part, n));
    if contains_text(text, part) {
        let i = choose|i: int| stands_at(text, part, i);
        assert(text =~= text.take(i) + text.subrange(i, i + part.len()) + text.skip(
            i + part.len(),
        ));
        assert(parted_at(text, part, i));
    }
}

/// Whether the text is what stands before `i`, the part, and what stands behind it.
pub open spec fn parted_at(text: Seq<char>, part: Seq<char>, i: int) -> bool {
    text == text.take(i) + part + text.skip(i + part.len())
}

/// The white space of Unicode.
pub proof fn white_space_is_that_of_unicode(c: char)
    ensures
        white_space(c) <==> seq![
            '\u{9}',
            '\u{a}',
            '\u{b}',
            '\u{c}',
            '\u{d}',
            '\u{20}',
            '\u{85}',
            '\u{a0}',
            '\u{1680}',
            '\u{2000}',
            '\u{2001}',
            '\u{2002}',
            '\u{2003}',
            '\u{2004}',
            '\u{2005}',
            '\u{2006}',
            '\u{2007}',
            '\u{2008}',
            '\u{2009}',
            '\u{200a}',
            '\u{2028}',
            '\u{2029}',
            '\u{202f}',
            '\u{205f}',
            '\u{3000}',
        ].contains(c),
        forall|text: Seq<char>| #[trigger]
            trimmed(text) <==> text.len() == 0 || (!white_space(text[0]) && !white_space(
                text[text.len() - 1],
            )),
{
    let all = seq![
        '\u{9}',
        '\u{a}',
        '\u{b}',
        '\u{c}',
        '\u{d}',
        '\u{20}',
        '\u{85}',
        '\u{a0}',
        '\u{1680}',
        '\u{2000}',
        '\u{2001}',
        '\u{2002}',
        '\u{2003}',
        '\u{2004}',
        '\u{2005}',
        '\u{2006}',
        '\u{2007}',
        '\u{2008}',
        '\u{2009}',
        '\u{200a}',
        '\u{2028}',
        '\u{2029}',
        '\u{202f}',
        '\u{205f}',
        '\u{3000}',
    ];
    if white_space(c) {
        let code = c as u32;
        let k: int = if code <= 0xd {
            code - 0x9
        } else if code == 0x20 {
            5
        } else if code == 0x85 {
            6
        } else if code == 0xa0 {
            7
        } else if code == 0x1680 {
            8
        } else if code <= 0x200a {
            9 + code - 0x2000
        } else if code == 0x2028 {
            20
        } else if code == 0x2029 {
            21
        } else if code == 0x202f {
            22
        } else if code == 0x205f {
            23
        } else {
            24
        };
        assert(all[k] == c);
    }
    if all.contains(c) {
        let k = choose|k: int| 0 <= k < all.len() && all[k] == c;
    }
}

} // verus!

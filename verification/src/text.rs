//! Text helpers: characters, words, joining and splitting, decimal numerals.

use vstd::prelude::*;

verus! {

/// What `str::to_lowercase` returns on the given text.
pub uninterp spec fn lowercase_of(text: Seq<char>) -> Seq<char>;

/// What `str::to_uppercase` returns on the given text.
pub uninterp spec fn uppercase_of(text: Seq<char>) -> Seq<char>;

/// What `char::is_alphanumeric` returns on the given character.
pub uninterp spec fn alphanumeric(c: char) -> bool;

/// What `char::is_uppercase` returns on the given character.
pub uninterp spec fn uppercase(c: char) -> bool;

/// `str::to_lowercase`: the Unicode lowercase of the text, which depends on the text alone; that of
/// an ASCII text has its capital letters made small, character by character.
pub assume_specification[ str::to_lowercase ](s: &str) -> (lower: String)
    ensures
        lower@ == lowercase_of(s@),
        all_ascii(s@) ==> lower@ == s@.map_values(|c: char| ascii_folded(c)),
;

/// `str::to_uppercase`: the Unicode uppercase of the text, which depends on the text alone.
pub assume_specification[ str::to_uppercase ](s: &str) -> (upper: String)
    ensures
        upper@ == uppercase_of(s@),
;

/// `char::is_alphanumeric`: a Unicode property of the character alone.
pub assume_specification[ char::is_alphanumeric ](c: char) -> (yes: bool)
    ensures
        yes == alphanumeric(c),
;

/// `char::is_uppercase`: a Unicode property of the character alone.
pub assume_specification[ char::is_uppercase ](c: char) -> (yes: bool)
    ensures
        yes == uppercase(c),
;

/// `String::push`: appends the character at the end.
pub assume_specification[ String::push ](s: &mut String, c: char)
    ensures
        final(s)@ == old(s)@.push(c),
;

/// `c` with the ASCII capital letters made small.
pub open spec fn ascii_folded(c: char) -> char {
    if 0x41 <= c as int <= 0x5a {
        (c as int + 0x20) as char
    } else {
        c
    }
}

/// Whether all characters of a text are ASCII characters.
pub open spec fn all_ascii(text: Seq<char>) -> bool {
    forall|i: int| 0 <= i < text.len() ==> #[trigger] text[i] as int <= 0x7f
}

/// The lowercase of a text.
pub open spec fn lowered(text: Seq<char>) -> Seq<char> {
    if all_ascii(text) {
        text.map_values(|c: char| ascii_folded(c))
    } else {
        lowercase_of(text)
    }
}

/// The lowercase of `s`.
pub(crate) fn lower_text(s: &str) -> (small: String)
    ensures
        small@ == lowered(s@),
{
    s.to_lowercase()
}

/// The characters of `s`, in order.
pub(crate) fn chars_of(s: &str) -> (chars: Vec<char>)
    ensures
        chars@ == s@,
{
    let mut chars: Vec<char> = Vec::new();
    for c in it: s.chars()
        invariant
            chars@ == it.seq().take(it.index() as int),
            it.seq() == s@,
    {
        chars.push(c);
    }
    assert(s@.take(s@.len() as int) =~= s@);
    chars
}

/// Whether two texts are the same, character by character.
pub(crate) fn same_text(a: &str, b: &str) -> (same: bool)
    ensures
        same == (a@ == b@),
{
    a.to_owned() == b.to_owned()
}

/// The texts that a sequence of strings holds.
pub open spec fn texts(parts: Seq<String>) -> Seq<Seq<char>> {
    parts.map_values(|part: String| part@)
}

/// The parts one after the other, with `sep` between neighbours.
pub open spec fn joined(parts: Seq<Seq<char>>, sep: Seq<char>) -> Seq<char>
    decreases parts.len(),
{
    if parts.len() == 0 {
        Seq::empty()
    } else if parts.len() == 1 {
        parts[0]
    } else {
        joined(parts.drop_last(), sep) + sep + parts.last()
    }
}

/// Joins `parts` with `sep` between neighbours.
pub(crate) fn join(parts: &[String], sep: &str) -> (whole: String)
    ensures
        whole@ == joined(texts(parts@), sep@),
{
    let mut whole = String::new();
    let mut i: usize = 0;
    while i < parts.len()
        invariant
            i <= parts.len(),
            whole@ == joined(texts(parts@).take(i as int), sep@),
        decreases parts.len() - i,
    {
        let ghost next = texts(parts@).take(i + 1);
        assert(next.drop_last() =~= texts(parts@).take(i as int));
        if i > 0 {
            whole.append(sep);
        }
        whole.append(parts[i].as_str());
        i += 1;
    }
    assert(texts(parts@).take(parts@.len() as int) =~= texts(parts@));
    whole
}

/// The pieces of `text` between occurrences of `sep`: one more than there are occurrences.
pub open spec fn split_on(text: Seq<char>, sep: char) -> Seq<Seq<char>>
    decreases text.len(),
{
    if text.len() == 0 {
        seq![Seq::empty()]
    } else {
        let before = split_on(text.drop_last(), sep);
        if text.last() == sep {
            before.push(Seq::empty())
        } else {
            before.drop_last().push(before.last().push(text.last()))
        }
    }
}

/// Splitting always gives at least one piece.
pub proof fn lemma_split_on_nonempty(text: Seq<char>, sep: char)
    ensures
        split_on(text, sep).len() >= 1,
    decreases text.len(),
{
    if text.len() > 0 {
        lemma_split_on_nonempty(text.drop_last(), sep);
    }
}

/// The pieces of `s` between occurrences of `sep`.
pub(crate) fn split(s: &str, sep: char) -> (pieces: Vec<String>)
    ensures
        texts(pieces@) == split_on(s@, sep),
{
    let chars = chars_of(s);
    let mut pieces: Vec<String> = Vec::new();
    let mut piece = String::new();
    let mut i: usize = 0;
    while i < chars.len()
        invariant
            i <= chars.len(),
            texts(pieces@).push(piece@) == split_on(chars@.take(i as int), sep),
        decreases chars.len() - i,
    {
        assert(chars@.take(i + 1).drop_last() =~= chars@.take(i as int));
        if chars[i] == sep {
            let ghost held = texts(pieces@);
            let ghost text = piece@;
            pieces.push(piece);
            assert(texts(pieces@) =~= held.push(text));
            piece = String::new();
        } else {
            assert(texts(pieces@).push(piece@).drop_last() =~= texts(pieces@));
            piece.push(chars[i]);
        }
        i += 1;
    }
    assert(chars@.take(chars@.len() as int) =~= chars@);
    let ghost held = texts(pieces@);
    let ghost text = piece@;
    pieces.push(piece);
    assert(texts(pieces@) =~= held.push(text));
    pieces
}

/// Joining the pieces of a split with the separator gives the text back.
pub proof fn lemma_join_of_split(text: Seq<char>, sep: char)
    ensures
        joined(split_on(text, sep), seq![sep]) == text,
    decreases text.len(),
{
    if text.len() > 0 {
        let before = split_on(text.drop_last(), sep);
        lemma_join_of_split(text.drop_last(), sep);
        lemma_split_on_nonempty(text.drop_last(), sep);
        let pieces = split_on(text, sep);
        if text.last() == sep {
            assert(pieces.drop_last() =~= before);
            assert(joined(pieces, seq![sep]) =~= text);
        } else {
            assert(pieces.drop_last() =~= before.drop_last());
            assert(joined(pieces, seq![sep]) =~= joined(before, seq![sep]).push(text.last()));
            assert(joined(pieces, seq![sep]) =~= text);
        }
    }
}

/// Splitting a text followed by more text without a separator lengthens the last piece.
proof fn lemma_split_on_append(text: Seq<char>, more: Seq<char>, sep: char)
    requires
        !more.contains(sep),
    ensures
        split_on(text + more, sep) == split_on(text, sep).drop_last().push(
            split_on(text, sep).last() + more,
        ),
    decreases more.len(),
{
    lemma_split_on_nonempty(text, sep);
    if more.len() == 0 {
        assert(text + more =~= text);
        assert(split_on(text, sep).last() + more =~= split_on(text, sep).last());
        assert(split_on(text, sep).drop_last().push(split_on(text, sep).last()) =~= split_on(
            text,
            sep,
        ));
    } else {
        assert(more.last() != sep) by {
            assert(more.contains(more.last()));
        }
        assert forall|c: char| more.drop_last().contains(c) implies more.contains(c) by {
            let k = choose|k: int| 0 <= k < more.drop_last().len() && more.drop_last()[k] == c;
            assert(more[k] == c);
        }
        lemma_split_on_append(text, more.drop_last(), sep);
        assert((text + more).drop_last() =~= text + more.drop_last());
        let before = split_on(text, sep).drop_last();
        let last = split_on(text, sep).last();
        assert(before.push(last + more.drop_last()).drop_last() =~= before);
        assert((last + more.drop_last()).push(more.last()) =~= last + more);
    }
}

/// Splitting the join of one or more separator-free parts gives the parts back.
pub proof fn lemma_split_of_join(parts: Seq<Seq<char>>, sep: char)
    requires
        parts.len() >= 1,
        forall|i: int| 0 <= i < parts.len() ==> !(#[trigger] parts[i]).contains(sep),
    ensures
        split_on(joined(parts, seq![sep]), sep) == parts,
    decreases parts.len(),
{
    if parts.len() == 1 {
        let none = Seq::<char>::empty();
        lemma_split_on_append(none, parts[0], sep);
        assert(none + parts[0] =~= parts[0]);
        assert(split_on(none, sep) =~= seq![none]);
        assert(split_on(parts[0], sep) =~= parts);
    } else {
        lemma_split_of_join(parts.drop_last(), sep);
        let front = joined(parts.drop_last(), seq![sep]);
        let with_sep = front + seq![sep];
        assert(with_sep.drop_last() =~= front);
        assert(split_on(with_sep, sep) =~= parts.drop_last().push(Seq::empty()));
        lemma_split_on_append(with_sep, parts.last(), sep);
        assert(Seq::<char>::empty() + parts.last() =~= parts.last());
        assert(split_on(with_sep, sep).drop_last() =~= parts.drop_last());
        assert(parts.drop_last().push(parts.last()) =~= parts);
    }
}

/// Whether `c` has the Unicode `White_Space` property.
pub open spec fn is_white(c: char) -> bool {
    ||| 0x9 <= c as int <= 0xd
    ||| c as int == 0x20
    ||| c as int == 0x85
    ||| c as int == 0xa0
    ||| c as int == 0x1680
    ||| 0x2000 <= c as int <= 0x200a
    ||| c as int == 0x2028
    ||| c as int == 0x2029
    ||| c as int == 0x202f
    ||| c as int == 0x205f
    ||| c as int == 0x3000
}

/// Whether `c` is white space.
pub(crate) fn white(c: char) -> (yes: bool)
    ensures
        yes == is_white(c),
{
    let n: u32 = c as u32;
    (0x9 <= n && n <= 0xd) || n == 0x20 || n == 0x85 || n == 0xa0 || n == 0x1680 || (0x2000 <= n
        && n <= 0x200a) || n == 0x2028 || n == 0x2029 || n == 0x202f || n == 0x205f || n == 0x3000
}

/// The maximal runs of characters of `text` that are not white space, in order.
pub open spec fn words(text: Seq<char>) -> Seq<Seq<char>>
    decreases text.len(),
{
    if text.len() == 0 {
        Seq::empty()
    } else {
        let before = words(text.drop_last());
        if is_white(text.last()) {
            before
        } else if text.len() >= 2 && !is_white(text[text.len() - 2]) {
            before.drop_last().push(before.last().push(text.last()))
        } else {
            before.push(seq![text.last()])
        }
    }
}

/// The words of `s`: its maximal runs of characters that are not white space.
pub(crate) fn split_whitespace(s: &str) -> (found: Vec<String>)
    ensures
        texts(found@) == words(s@),
{
    let chars = chars_of(s);
    let mut found: Vec<String> = Vec::new();
    let mut word = String::new();
    let mut in_word = false;
    let mut i: usize = 0;
    while i < chars.len()
        invariant
            i <= chars.len(),
            in_word == (i > 0 && !is_white(chars@[i - 1])),
            in_word ==> texts(found@).push(word@) == words(chars@.take(i as int)),
            !in_word ==> texts(found@) == words(chars@.take(i as int)) && word@.len() == 0,
        decreases chars.len() - i,
    {
        let ghost text = chars@.take(i + 1);
        assert(text.drop_last() =~= chars@.take(i as int));
        let ghost held = texts(found@);
        let ghost run = word@;
        if white(chars[i]) {
            if in_word {
                found.push(word);
                assert(texts(found@) =~= held.push(run));
                word = String::new();
            }
            in_word = false;
        } else {
            word.push(chars[i]);
            if in_word {
                assert(held.push(run).drop_last() =~= held);
            } else {
                assert(word@ =~= seq![chars@[i as int]]);
            }
            in_word = true;
        }
        i += 1;
    }
    assert(chars@.take(chars@.len() as int) =~= chars@);
    if in_word {
        let ghost held = texts(found@);
        let ghost run = word@;
        found.push(word);
        assert(texts(found@) =~= held.push(run));
    }
    found
}

/// The character that writes the digit `d`.
pub open spec fn digit(d: int) -> char {
    (0x30 + d) as char
}

/// The decimal numeral of `n`, without leading zeros.
pub open spec fn decimal(n: nat) -> Seq<char>
    decreases n,
{
    if n < 10 {
        seq![digit(n as int)]
    } else {
        decimal(n / 10).push(digit((n % 10) as int))
    }
}

/// The decimal numeral of `n`.
pub(crate) fn decimal_text(n: u64) -> (numeral: String)
    ensures
        numeral@ == decimal(n as nat),
    decreases n,
{
    let last: u8 = (n % 10) as u8;
    let mut numeral = if n < 10 {
        String::new()
    } else {
        decimal_text(n / 10)
    };
    let ghost before = numeral@;
    numeral.push((48 + last) as char);
    assert(n < 10 ==> numeral@ =~= decimal(n as nat));
    numeral
}

/// The decimal numeral of `n`, with a minus sign where it is negative.
pub open spec fn signed_decimal(n: int) -> Seq<char> {
    if n < 0 {
        seq!['-'] + decimal((-n) as nat)
    } else {
        decimal(n as nat)
    }
}

/// The decimal numeral of `n`, with a minus sign where it is negative.
pub(crate) fn signed_decimal_text(n: i32) -> (numeral: String)
    ensures
        numeral@ == signed_decimal(n as int),
{
    if n < 0 {
        let mut numeral = String::new();
        numeral.push('-');
        let size: i64 = -(n as i64);
        numeral.append(decimal_text(size as u64).as_str());
        assert(numeral@ =~= signed_decimal(n as int));
        numeral
    } else {
        decimal_text(n as u64)
    }
}

/// Whether two texts are the same up to the case of ASCII letters.
pub open spec fn same_but_ascii_case(a: Seq<char>, b: Seq<char>) -> bool {
    a.map_values(|c: char| ascii_folded(c)) == b.map_values(|c: char| ascii_folded(c))
}

fn ascii_fold(c: char) -> (folded: char)
    ensures
        folded == ascii_folded(c),
{
    let n: u32 = c as u32;
    if 0x41 <= n && n <= 0x5a {
        (n as u8 + 0x20) as char
    } else {
        c
    }
}

/// Whether two texts are the same up to the case of ASCII letters.
pub(crate) fn eq_ignore_ascii_case(a: &str, b: &str) -> (same: bool)
    ensures
        same == same_but_ascii_case(a@, b@),
{
    let x = chars_of(a);
    let y = chars_of(b);
    let ghost fold = |c: char| ascii_folded(c);
    assert(a@.map_values(fold).len() == x@.len() && b@.map_values(fold).len() == y@.len());
    if x.len() != y.len() {
        return false;
    }
    let mut i: usize = 0;
    while i < x.len()
        invariant
            i <= x.len() == y.len(),
            x@ == a@,
            y@ == b@,
            fold == (|c: char| ascii_folded(c)),
            forall|k: int| 0 <= k < i ==> ascii_folded(x@[k]) == ascii_folded(y@[k]),
        decreases x.len() - i,
    {
        if ascii_fold(x[i]) != ascii_fold(y[i]) {
            assert(x@.map_values(fold)[i as int] != y@.map_values(fold)[i as int]);
            return false;
        }
        i += 1;
    }
    assert(x@.map_values(fold) =~= y@.map_values(fold));
    true
}

// ---- what the helpers can be relied upon for --------------------------------------------------

/// Joining goes part by part: one more part comes behind the others, after one separator; a single
/// part is joined to itself, and no parts to nothing.
pub proof fn lemma_joined_part_by_part(parts: Seq<Seq<char>>, part: Seq<char>, sep: Seq<char>)
    ensures
        parts.len() > 0 ==> joined(parts.push(part), sep) == joined(parts, sep) + sep + part,
        joined(seq![part], sep) == part,
        joined(Seq::<Seq<char>>::empty(), sep) == Seq::<char>::empty(),
{
    assert(parts.push(part).drop_last() =~= parts);
}

/// Every part occurs in what was joined, whole and in its place: what comes before it depends on the
/// parts before it alone.
pub proof fn lemma_joined_holds_every_part(parts: Seq<Seq<char>>, sep: Seq<char>, i: int) -> (behind:
    Seq<char>)
    requires
        0 <= i < parts.len(),
    ensures
        joined(parts, sep) == joined(parts.take(i + 1), sep) + behind,
        joined(parts, sep) == (if i == 0 {
            Seq::empty()
        } else {
            joined(parts.take(i), sep) + sep
        }) + parts[i] + behind,
    decreases parts.len(),
{
    let upto = parts.take(i + 1);
    assert(upto.drop_last() =~= parts.take(i));
    if i == parts.len() - 1 {
        assert(upto =~= parts);
        let none = Seq::<char>::empty();
        assert(joined(parts, sep) + none =~= joined(parts, sep));
        if i == 0 {
            assert(none + parts[0] + none =~= parts[0]);
        } else {
            assert(joined(parts, sep) =~= joined(parts.take(i), sep) + sep + parts[i] + none);
        }
        none
    } else {
        let front = parts.drop_last();
        let behind = lemma_joined_holds_every_part(front, sep, i);
        assert(front.take(i + 1) =~= upto && front.take(i) =~= parts.take(i));
        let all = behind + sep + parts.last();
        let before = (if i == 0 {
            Seq::empty()
        } else {
            joined(parts.take(i), sep) + sep
        });
        assert(joined(parts, sep) =~= joined(upto, sep) + all);
        assert(joined(parts, sep) =~= before + parts[i] + all);
        all
    }
}

/// No piece of a split holds the separator, so that there are as many cuts as there can be.
pub proof fn lemma_pieces_hold_no_separator(text: Seq<char>, sep: char, i: int)
    requires
        0 <= i < split_on(text, sep).len(),
    ensures
        !split_on(text, sep)[i].contains(sep),
    decreases text.len(),
{
    if text.len() > 0 {
        let before = split_on(text.drop_last(), sep);
        lemma_split_on_nonempty(text.drop_last(), sep);
        if text.last() == sep {
            if i < before.len() {
                lemma_pieces_hold_no_separator(text.drop_last(), sep, i);
            }
        } else if i < before.len() - 1 {
            lemma_pieces_hold_no_separator(text.drop_last(), sep, i);
        } else {
            lemma_pieces_hold_no_separator(text.drop_last(), sep, before.len() - 1);
            let piece = before.last().push(text.last());
            assert forall|k: int| 0 <= k < piece.len() implies piece[k] != sep by {
                if k < before.last().len() {
                    assert(before.last()[k] == piece[k]);
                    assert(before.last().contains(before.last()[k]));
                }
            }
        }
    }
}

/// Words that white space parts are found apart.
pub proof fn lemma_words_are_parted_by_white_space(front: Seq<char>, space: char, rear: Seq<char>)
    requires
        is_white(space),
    ensures
        words(front.push(space) + rear) == words(front) + words(rear),
    decreases rear.len(),
{
    let whole = front.push(space) + rear;
    if rear.len() == 0 {
        assert(whole =~= front.push(space));
        assert(whole.drop_last() =~= front);
        assert(words(front) + words(rear) =~= words(front));
    } else {
        lemma_words_are_parted_by_white_space(front, space, rear.drop_last());
        assert(whole.drop_last() =~= front.push(space) + rear.drop_last());
        let some = words(rear.drop_last());
        if is_white(rear.last()) {
        } else if rear.len() >= 2 && !is_white(rear[rear.len() - 2]) {
            assert(whole[whole.len() - 2] == rear[rear.len() - 2]);
            lemma_words_of_open_end(rear.drop_last());
            assert(some.len() > 0);
            let all = words(front) + some;
            assert(all.drop_last() =~= words(front) + some.drop_last());
            assert(all.last() == some.last());
            assert(words(whole) =~= words(front) + words(rear));
        } else {
            if rear.len() == 1 {
                assert(whole[whole.len() - 2] == space);
            } else {
                assert(whole[whole.len() - 2] == rear[rear.len() - 2]);
            }
            assert((words(front) + some).push(seq![rear.last()]) =~= words(front) + some.push(
                seq![rear.last()],
            ));
        }
    }
}

/// A text that ends within a word has a word.
proof fn lemma_words_of_open_end(text: Seq<char>)
    requires
        text.len() > 0,
        !is_white(text.last()),
    ensures
        words(text).len() > 0,
    decreases text.len(),
{
}

/// A text without white space is one word, unless it is empty.
pub proof fn lemma_text_without_white_space_is_a_word(text: Seq<char>)
    requires
        forall|i: int| 0 <= i < text.len() ==> !is_white(#[trigger] text[i]),
    ensures
        words(text) == (if text.len() == 0 {
            Seq::empty()
        } else {
            seq![text]
        }),
    decreases text.len(),
{
    if text.len() > 0 {
        let front = text.drop_last();
        assert(!is_white(text[text.len() - 1]));
        assert forall|i: int| 0 <= i < front.len() implies !is_white(#[trigger] front[i]) by {
            assert(front[i] == text[i]);
        }
        lemma_text_without_white_space_is_a_word(front);
        if text.len() >= 2 {
            assert(!is_white(text[text.len() - 2]));
            assert(front.push(text.last()) =~= text);
            assert(words(text) =~= seq![text]);
        } else {
            assert(words(front) =~= Seq::empty());
            assert(seq![text.last()] =~= text);
            assert(words(text) =~= seq![text]);
        }
    }
}

/// The number that decimal digits write.
pub open spec fn numeral_value(numeral: Seq<char>) -> int
    decreases numeral.len(),
{
    if numeral.len() == 0 {
        0
    } else {
        10 * numeral_value(numeral.drop_last()) + (numeral.last() as int - '0' as int)
    }
}

/// A numeral is read back as the number that it writes: it is made of digits, at least one, and has
/// no leading zero but for zero itself.
pub proof fn lemma_decimal_is_read_back(n: nat)
    ensures
        numeral_value(decimal(n)) == n,
        decimal(n).len() > 0,
        forall|i: int| 0 <= i < decimal(n).len() ==> '0' as int <= #[trigger] decimal(n)[i] as int
            <= '9' as int,
        n > 0 ==> decimal(n)[0] != '0',
    decreases n,
{
    let last = digit((n % 10) as int);
    assert(last as int == 0x30 + n % 10);
    if n < 10 {
        assert(decimal(n).drop_last() =~= Seq::empty());
        assert(numeral_value(decimal(n).drop_last()) == 0);
    } else {
        lemma_decimal_is_read_back(n / 10);
        assert(decimal(n).drop_last() =~= decimal(n / 10));
        assert(decimal(n)[0] == decimal(n / 10)[0]);
    }
}

/// Numbers are told apart by their signed numerals, which have a minus sign just where they are
/// negative.
pub proof fn lemma_signed_decimal_is_read_back(n: int)
    ensures
        n < 0 <==> signed_decimal(n)[0] == '-',
        n >= 0 ==> numeral_value(signed_decimal(n)) == n,
        n < 0 ==> numeral_value(signed_decimal(n).drop_first()) == -n,
{
    if n < 0 {
        lemma_decimal_is_read_back((-n) as nat);
        assert(signed_decimal(n).drop_first() =~= decimal((-n) as nat));
    } else {
        lemma_decimal_is_read_back(n as nat);
        assert('0' as int <= decimal(n as nat)[0] as int);
    }
}

/// Texts are the same up to case just where they are equally long and differ in nothing but small
/// for capital ASCII letters.
pub proof fn lemma_case_is_all_that_may_differ(a: Seq<char>, b: Seq<char>)
    ensures
        same_but_ascii_case(a, b) <==> a.len() == b.len() && forall|i: int|
            0 <= i < a.len() ==> {
                ||| #[trigger] a[i] == b[i]
                ||| 'A' as int <= a[i] as int <= 'Z' as int && b[i] as int == a[i] as int + 32
                ||| 'A' as int <= b[i] as int <= 'Z' as int && a[i] as int == b[i] as int + 32
            },
{
    let fold = |c: char| ascii_folded(c);
    assert forall|c: char, d: char| #[trigger] ascii_folded(c) == #[trigger] ascii_folded(d) <==> {
        ||| c == d
        ||| 'A' as int <= c as int <= 'Z' as int && d as int == c as int + 32
        ||| 'A' as int <= d as int <= 'Z' as int && c as int == d as int + 32
    } by {
        assert(0x41 <= c as int <= 0x5a ==> ascii_folded(c) as int == c as int + 0x20);
        assert(0x41 <= d as int <= 0x5a ==> ascii_folded(d) as int == d as int + 0x20);
    }
    if same_but_ascii_case(a, b) {
        assert(a.map_values(fold).len() == b.map_values(fold).len());
        assert forall|i: int| 0 <= i < a.len() implies ascii_folded(#[trigger] a[i]) == ascii_folded(
            b[i],
        ) by {
            assert(a.map_values(fold)[i] == b.map_values(fold)[i]);
        }
    } else if a.len() == b.len() {
        assert(!(a.map_values(fold) =~= b.map_values(fold)));
        let i = choose|i: int| 0 <= i < a.len() && a.map_values(fold)[i] != b.map_values(fold)[i];
        assert(ascii_folded(a[i]) != ascii_folded(b[i]));
    }
}

/// The white space among the ASCII characters: the space, the tab and the line breaks.
pub proof fn lemma_ascii_white_space(c: char)
    requires
        c as int <= 0x7f,
    ensures
        is_white(c) <==> c == ' ' || '\t' as int <= c as int <= '\r' as int,
{
}

/// The lowercase of a text is the Unicode one; that of an ASCII text is as long as the text, with each
/// capital letter made small and every other character left as it is.
pub proof fn lemma_lowercase_of_a_text(text: Seq<char>, i: int)
    ensures
        !all_ascii(text) ==> lowered(text) == lowercase_of(text),
        all_ascii(text) ==> lowered(text).len() == text.len(),
        all_ascii(text) && 0 <= i < text.len() ==> lowered(text)[i] as int == (if 'A' as int
            <= text[i] as int <= 'Z' as int {
            text[i] as int + 32
        } else {
            text[i] as int
        }),
{
}

} // verus!

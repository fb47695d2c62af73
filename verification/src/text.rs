//! Character sequences: the operations on text that the gateway needs, each
//! stated over `Seq<char>`.

use vstd::prelude::*;
use vstd::string::*;

verus! {

/// `String::push` appends one character to the end of the string.
pub assume_specification[ String::push ](string: &mut String, c: char)
    ensures
        final(string)@ == old(string)@.push(c),
;

/// `str`'s `==` holds of two strings with the same characters, and of no others.
pub assume_specification[ <str as PartialEq>::eq ](a: &str, b: &str) -> (r: bool)
    ensures
        r == (a@ == b@),
;

/// `text` with every occurrence of `from` replaced by `to`, the occurrences
/// being taken from the left and without overlap.
pub open spec fn replaced(text: Seq<char>, from: Seq<char>, to: Seq<char>) -> Seq<char>
    decreases text.len(),
{
    if from.len() == 0 || text.len() < from.len() {
        text
    } else if from.is_prefix_of(text) {
        to + replaced(text.skip(from.len() as int), from, to)
    } else {
        seq![text[0]] + replaced(text.skip(1), from, to)
    }
}

/// Whether `part` stands in `text` at index `i`.
pub open spec fn part_at(text: Seq<char>, i: int, part: Seq<char>) -> bool {
    0 <= i <= text.len() - part.len() && text.subrange(i, i + part.len()) == part
}

/// Whether `part` stands anywhere in `text`.
pub open spec fn has_part(text: Seq<char>, part: Seq<char>) -> bool {
    exists|i: int| part_at(text, i, part)
}

/// The pieces of `text` between the occurrences of `separator`: always one
/// piece more than there are separators.
pub open spec fn pieces(text: Seq<char>, separator: char) -> Seq<Seq<char>>
    decreases text.len(),
{
    if text.len() == 0 {
        seq![Seq::<char>::empty()]
    } else {
        let before = pieces(text.drop_last(), separator);
        if text.last() == separator {
            before.push(Seq::empty())
        } else {
            before.drop_last().push(before.last().push(text.last()))
        }
    }
}

/// A space or a tab: the white space that visible header text can hold.
pub open spec fn is_blank(c: char) -> bool {
    c == ' ' || c == '\t'
}

/// `text` without the blanks at either end.
pub open spec fn trimmed(text: Seq<char>) -> Seq<char>
    decreases text.len(),
{
    if text.len() > 0 && is_blank(text[0]) {
        trimmed(text.skip(1))
    } else if text.len() > 0 && is_blank(text.last()) {
        trimmed(text.drop_last())
    } else {
        text
    }
}

/// An ASCII capital letter as a small letter, any other character as it is.
pub open spec fn lower_char(c: char) -> char {
    if 'A' <= c <= 'Z' {
        (c as u8 + 32) as char
    } else {
        c
    }
}

/// `text` with its ASCII capital letters as small letters.
pub open spec fn lowered(text: Seq<char>) -> Seq<char> {
    text.map_values(|c: char| lower_char(c))
}

/// The decimal digit of a number below ten.
pub open spec fn digit(n: nat) -> char {
    (n + 48) as char
}

/// A number in decimal notation, without leading zeros.
pub open spec fn decimal(n: nat) -> Seq<char>
    decreases n,
{
    if n < 10 {
        seq![digit(n)]
    } else {
        decimal(n / 10).push(digit(n % 10))
    }
}

/// The characters of `text`, in order.
pub fn to_chars(text: &str) -> (r: Vec<char>)
    ensures
        r@ == text@,
{
    let mut out: Vec<char> = Vec::new();
    for c in it: text.chars()
        invariant
            out@ == it.seq().take(it.index()),
    {
        out.push(c);
    }
    out
}

/// Whether `chars` goes on with `part` at index `at`.
fn matches_at(chars: &Vec<char>, at: usize, part: &Vec<char>) -> (r: bool)
    requires
        at + part@.len() <= chars@.len(),
    ensures
        r == part@.is_prefix_of(chars@.skip(at as int)),
{
    let mut i: usize = 0;
    while i < part.len()
        invariant
            i <= part@.len(),
            at + part@.len() <= chars.len(),
            part@.take(i as int) == chars@.subrange(at as int, at + i),
        decreases part@.len() - i,
    {
        if chars[at + i] != part[i] {
            assert(chars@.skip(at as int)[i as int] != part@[i as int]);
            return false;
        }
        assert(part@.take(i + 1) == part@.take(i as int).push(part@[i as int]));
        assert(chars@.subrange(at as int, at + i + 1) == chars@.subrange(at as int, at + i).push(
            chars@[at + i],
        ));
        i = i + 1;
    }
    assert(part@.take(i as int) == part@);
    assert forall|k: int| 0 <= k < part@.len() implies part@[k] == chars@.skip(at as int)[k] by {
        assert(part@.take(i as int)[k] == chars@.subrange(at as int, at + i)[k]);
    }
    true
}

/// Replaces every occurrence of `from` in `text` by `to`.
pub fn replace(text: &str, from: &str, to: &str) -> (r: String)
    requires
        from@.len() > 0,
    ensures
        r@ == replaced(text@, from@, to@),
{
    let chars = to_chars(text);
    let part = to_chars(from);
    let mut out = String::new();
    let mut i: usize = 0;
    assert(text@.skip(0) == text@);
    while i < chars.len()
        invariant
            i <= chars@.len(),
            chars@ == text@,
            part@ == from@,
            from@.len() > 0,
            replaced(text@, from@, to@) == out@ + replaced(text@.skip(i as int), from@, to@),
        decreases chars@.len() - i,
    {
        let ghost rest = text@.skip(i as int);
        if part.len() <= chars.len() - i && matches_at(&chars, i, &part) {
            out.append(to);
            i = i + part.len();
            assert(rest.skip(from@.len() as int) == text@.skip(i as int));
        } else {
            let ghost before = out@;
            out.push(chars[i]);
            i = i + 1;
            assert(rest.skip(1) == text@.skip(i as int));
            assert(rest == seq![rest[0]] + rest.skip(1));
            proof {
                if rest.len() < from@.len() {
                    assert(replaced(rest.skip(1), from@, to@) == rest.skip(1));
                }
            }
            assert(out@ == before + seq![rest[0]]);
        }
    }
    assert(text@.skip(i as int) == Seq::<char>::empty());
    out
}

/// Splits `chars` at every occurrence of `separator`.
pub fn split(chars: &Vec<char>, separator: char) -> (r: Vec<Vec<char>>)
    ensures
        r@.map_values(|piece: Vec<char>| piece@) == pieces(chars@, separator),
{
    let mut done: Vec<Vec<char>> = Vec::new();
    let mut piece: Vec<char> = Vec::new();
    let ghost views = |v: Vec<char>| v@;
    let mut i: usize = 0;
    while i < chars.len()
        invariant
            i <= chars@.len(),
            views == (|v: Vec<char>| v@),
            pieces(chars@.take(i as int), separator) == done@.map_values(views).push(piece@),
        decreases chars@.len() - i,
    {
        let c = chars[i];
        assert(chars@.take(i + 1).drop_last() == chars@.take(i as int));
        let ghost before = pieces(chars@.take(i as int), separator);
        assert(before.drop_last() == done@.map_values(views));
        if c == separator {
            let ghost old_done = done@;
            done.push(piece);
            piece = Vec::new();
            assert(done@.map_values(views) == old_done.map_values(views).push(before.last()));
        } else {
            piece.push(c);
        }
        i = i + 1;
    }
    assert(chars@.take(i as int) == chars@);
    let ghost old_done = done@;
    done.push(piece);
    assert(done@.map_values(views) == old_done.map_values(views).push(piece@));
    done
}

/// Strips the blanks at either end of `chars`.
pub fn trim(chars: &Vec<char>) -> (r: Vec<char>)
    ensures
        r@ == trimmed(chars@),
{
    let mut from: usize = 0;
    let mut to: usize = chars.len();
    assert(chars@.subrange(0, to as int) == chars@);
    while from < to && (chars[from] == ' ' || chars[from] == '\t')
        invariant
            from <= to == chars@.len(),
            trimmed(chars@.subrange(from as int, to as int)) == trimmed(chars@),
        decreases to - from,
    {
        assert(chars@.subrange(from as int, to as int).skip(1) == chars@.subrange(
            from + 1,
            to as int,
        ));
        from = from + 1;
    }
    while from < to && (chars[to - 1] == ' ' || chars[to - 1] == '\t')
        invariant
            from <= to <= chars@.len(),
            from < to ==> !is_blank(chars@[from as int]),
            trimmed(chars@.subrange(from as int, to as int)) == trimmed(chars@),
        decreases to - from,
    {
        assert(chars@.subrange(from as int, to as int).drop_last() == chars@.subrange(
            from as int,
            to - 1,
        ));
        to = to - 1;
    }
    let mut out: Vec<char> = Vec::new();
    let mut i: usize = from;
    while i < to
        invariant
            from <= i <= to <= chars@.len(),
            out@ == chars@.subrange(from as int, i as int),
        decreases to - i,
    {
        out.push(chars[i]);
        i = i + 1;
    }
    out
}

/// `chars` as a string, with its ASCII capital letters as small letters.
pub fn lower(chars: &Vec<char>) -> (r: String)
    ensures
        r@ == lowered(chars@),
{
    let mut out = String::new();
    let mut i: usize = 0;
    while i < chars.len()
        invariant
            i <= chars@.len(),
            out@ == lowered(chars@.take(i as int)),
        decreases chars@.len() - i,
    {
        let c = chars[i];
        if 'A' <= c && c <= 'Z' {
            out.push((c as u8 + 32) as char);
        } else {
            out.push(c);
        }
        assert(chars@.take(i + 1) == chars@.take(i as int).push(c));
        i = i + 1;
    }
    assert(chars@.take(i as int) == chars@);
    out
}

/// `n` in decimal notation.
pub fn decimal_text(n: u16) -> (r: String)
    ensures
        r@ == decimal(n as nat),
    decreases n,
{
    let mut out = if n < 10 {
        String::new()
    } else {
        decimal_text(n / 10)
    };
    out.push((48 + (n % 10) as u8) as char);
    out
}

/// A text stays as it is where there is nothing to replace.
pub proof fn law_nothing_to_replace(text: Seq<char>, from: Seq<char>, to: Seq<char>)
    requires
        !has_part(text, from),
    ensures
        replaced(text, from, to) == text,
    decreases text.len(),
{
    if from.len() > 0 && text.len() >= from.len() {
        assert(!part_at(text, 0, from));
        if from.is_prefix_of(text) {
            assert(text.subrange(0, from.len() as int) == from);
        }
        assert forall|i: int| !part_at(text.skip(1), i, from) by {
            if part_at(text.skip(1), i, from) {
                assert(text.skip(1).subrange(i, i + from.len()) == text.subrange(
                    i + 1,
                    i + 1 + from.len(),
                ));
                assert(part_at(text, i + 1, from));
            }
        }
        law_nothing_to_replace(text.skip(1), from, to);
        assert(text == seq![text[0]] + text.skip(1));
    }
}

/// The first occurrence of `from` gives way to `to`: what stands before it
/// stays, and the search goes on behind it.
pub proof fn law_first_occurrence_is_replaced(
    text: Seq<char>,
    from: Seq<char>,
    to: Seq<char>,
    i: int,
)
    requires
        from.len() > 0,
        0 <= i <= text.len() - from.len(),
        text.subrange(i, i + from.len()) == from,
        forall|j: int, k: int|
            0 <= j < i && k == j + from.len() ==> #[trigger] text.subrange(j, k) != from,
    ensures
        replaced(text, from, to) == text.take(i) + to + replaced(
            text.skip(i + from.len()),
            from,
            to,
        ),
    decreases i,
{
    if i == 0 {
        assert(from.is_prefix_of(text));
        assert(text.take(0) + to == to);
    } else {
        assert(text.subrange(0, from.len() as int) != from);
        assert(!from.is_prefix_of(text)) by {
            if from.is_prefix_of(text) {
                assert(text.subrange(0, from.len() as int) =~= from);
            }
        }
        let rest = text.skip(1);
        assert(rest.subrange(i - 1, i - 1 + from.len()) == text.subrange(i, i + from.len()));
        assert forall|j: int, k: int|
            0 <= j < i - 1 && k == j + from.len() implies #[trigger] rest.subrange(j, k)
            != from by {
            assert(rest.subrange(j, k) == text.subrange(j + 1, k + 1));
        }
        law_first_occurrence_is_replaced(rest, from, to, i - 1);
        assert(rest.skip(i - 1 + from.len()) == text.skip(i + from.len()));
        assert(text.take(i) == seq![text[0]] + rest.take(i - 1));
    }
}

/// Whether `text` has a piece from index `a` to index `b`: each end is an end
/// of the text or lies at a separator, and no separator is between them.
pub open spec fn is_piece(text: Seq<char>, separator: char, a: int, b: int) -> bool {
    &&& 0 <= a <= b <= text.len()
    &&& a == 0 || text[a - 1] == separator
    &&& b == text.len() || text[b] == separator
    &&& forall|i: int| a <= i < b ==> #[trigger] text[i] != separator
}

/// Every piece of the list has its place in the text, the last at its end.
proof fn lemma_place_of_piece(text: Seq<char>, separator: char, j: int) -> (r: (int, int))
    requires
        0 <= j < pieces(text, separator).len(),
    ensures
        is_piece(text, separator, r.0, r.1),
        pieces(text, separator)[j] == text.subrange(r.0, r.1),
        r.1 == text.len() <==> j == pieces(text, separator).len() - 1,
    decreases text.len(),
{
    lemma_some_piece(text, separator);
    if text.len() == 0 {
        (0int, 0int)
    } else {
        let shorter = text.drop_last();
        let before = pieces(shorter, separator);
        lemma_some_piece(shorter, separator);
        if text.last() == separator && j == before.len() {
            (text.len() as int, text.len() as int)
        } else {
            let (a, b) = lemma_place_of_piece(shorter, separator, j);
            assert forall|i: int| a <= i < b implies #[trigger] text[i] != separator by {
                assert(shorter[i] == text[i]);
            }
            if text.last() != separator && j == before.len() - 1 {
                assert(text.subrange(a, b + 1) == shorter.subrange(a, b).push(text.last()));
                (a, b + 1)
            } else {
                assert(text.subrange(a, b) == shorter.subrange(a, b));
                (a, b)
            }
        }
    }
}

/// There is always a piece.
proof fn lemma_some_piece(text: Seq<char>, separator: char)
    ensures
        pieces(text, separator).len() > 0,
    decreases text.len(),
{
    if text.len() > 0 {
        lemma_some_piece(text.drop_last(), separator);
    }
}

/// Every piece in the text is in the list, that at its end as the last.
proof fn lemma_index_of_piece(text: Seq<char>, separator: char, a: int, b: int) -> (j: int)
    requires
        is_piece(text, separator, a, b),
    ensures
        0 <= j < pieces(text, separator).len(),
        pieces(text, separator)[j] == text.subrange(a, b),
        b == text.len() <==> j == pieces(text, separator).len() - 1,
    decreases text.len(),
{
    lemma_some_piece(text, separator);
    if text.len() == 0 {
        0
    } else {
        let shorter = text.drop_last();
        let before = pieces(shorter, separator);
        lemma_some_piece(shorter, separator);
        if text.last() == separator {
            if b == text.len() {
                assert(a == text.len()) by {
                    if a < text.len() {
                        assert(text[text.len() - 1] != separator);
                    }
                }
                before.len() as int
            } else {
                assert(is_piece(shorter, separator, a, b));
                let j = lemma_index_of_piece(shorter, separator, a, b);
                assert(text.subrange(a, b) == shorter.subrange(a, b));
                j
            }
        } else if b == text.len() {
            assert(is_piece(shorter, separator, a, b - 1));
            let j = lemma_index_of_piece(shorter, separator, a, b - 1);
            assert(text.subrange(a, b) == shorter.subrange(a, b - 1).push(text.last()));
            j
        } else {
            assert(is_piece(shorter, separator, a, b));
            let j = lemma_index_of_piece(shorter, separator, a, b);
            assert(text.subrange(a, b) == shorter.subrange(a, b));
            j
        }
    }
}

/// The pieces of a text are exactly what stands between its separators.
pub proof fn law_pieces_stand_between_separators(
    text: Seq<char>,
    separator: char,
    piece: Seq<char>,
)
    ensures
        pieces(text, separator).contains(piece) <==> exists|a: int, b: int|
            #[trigger] is_piece(text, separator, a, b) && piece == text.subrange(a, b),
{
    if pieces(text, separator).contains(piece) {
        let j = choose|j: int|
            0 <= j < pieces(text, separator).len() && pieces(text, separator)[j] == piece;
        let (a, b) = lemma_place_of_piece(text, separator, j);
        assert(is_piece(text, separator, a, b) && piece == text.subrange(a, b));
    }
    if exists|a: int, b: int|
        #[trigger] is_piece(text, separator, a, b) && piece == text.subrange(a, b) {
        let (a, b) = choose|a: int, b: int|
            #[trigger] is_piece(text, separator, a, b) && piece == text.subrange(a, b);
        let j = lemma_index_of_piece(text, separator, a, b);
    }
}

/// Whether all blanks at the ends of `text` are outside the indices `c` to `d`:
/// only spaces and tabs are outside, and neither end inside is one.
pub open spec fn is_core(text: Seq<char>, c: int, d: int) -> bool {
    &&& 0 <= c <= d <= text.len()
    &&& forall|i: int|
        0 <= i < c || d <= i < text.len() ==> #[trigger] text[i] == ' ' || text[i] == '\t'
    &&& c < d ==> text[c] != ' ' && text[c] != '\t' && text[d - 1] != ' ' && text[d - 1] != '\t'
}

/// Trimming leaves what is between the blanks at the ends.
pub proof fn law_trimming_strips_the_ends(text: Seq<char>, c: int, d: int)
    requires
        is_core(text, c, d),
    ensures
        trimmed(text) == text.subrange(c, d),
    decreases text.len(),
{
    if text.len() > 0 && is_blank(text[0]) {
        let rest = text.skip(1);
        if c > 0 {
            assert(is_core(rest, c - 1, d - 1)) by {
                assert forall|i: int|
                    0 <= i < c - 1 || d - 1 <= i < rest.len() implies #[trigger] rest[i] == ' '
                    || rest[i] == '\t' by {
                    assert(rest[i] == text[i + 1]);
                }
            }
            law_trimming_strips_the_ends(rest, c - 1, d - 1);
            assert(rest.subrange(c - 1, d - 1) == text.subrange(c, d));
        } else {
            assert(d == 0);
            assert(is_core(rest, 0, 0)) by {
                assert forall|i: int| 0 <= i < rest.len() implies #[trigger] rest[i] == ' '
                    || rest[i] == '\t' by {
                    assert(rest[i] == text[i + 1]);
                }
            }
            law_trimming_strips_the_ends(rest, 0, 0);
            assert(rest.subrange(0, 0) == text.subrange(0, 0));
        }
    } else if text.len() > 0 && is_blank(text.last()) {
        assert(text.last() == text[text.len() - 1]);
        let rest = text.drop_last();
        assert(d < text.len());
        assert(is_core(rest, c, d));
        law_trimming_strips_the_ends(rest, c, d);
        assert(rest.subrange(c, d) == text.subrange(c, d));
    } else if text.len() > 0 {
        assert(text.last() == text[text.len() - 1]);
        assert(c == 0 && d == text.len());
    }
}

/// Where the blanks at the ends of a text stop.
pub proof fn lemma_core(text: Seq<char>) -> (r: (int, int))
    ensures
        is_core(text, r.0, r.1),
    decreases text.len(),
{
    if text.len() > 0 && is_blank(text[0]) {
        let (c, d) = lemma_core(text.skip(1));
        assert forall|i: int|
            0 <= i < c + 1 || d + 1 <= i < text.len() implies #[trigger] text[i] == ' ' || text[i]
            == '\t' by {
            if i > 0 {
                assert(text.skip(1)[i - 1] == text[i]);
            }
        }
        (c + 1, d + 1)
    } else if text.len() > 0 && is_blank(text.last()) {
        let (c, d) = lemma_core(text.drop_last());
        assert forall|i: int|
            0 <= i < c || d <= i < text.len() implies #[trigger] text[i] == ' ' || text[i]
            == '\t' by {
            if i < text.len() - 1 {
                assert(text.drop_last()[i] == text[i]);
            }
        }
        (c, d)
    } else {
        (0int, text.len() as int)
    }
}

/// The code of an ASCII capital letter's small letter, of any other character
/// its own.
pub open spec fn small_code(code: int) -> int {
    if 65 <= code <= 90 {
        code + 32
    } else {
        code
    }
}

/// Lowering keeps the length and changes capital letters of ASCII alone.
pub proof fn law_lowering_keeps_all_but_capitals(text: Seq<char>)
    ensures
        lowered(text).len() == text.len(),
        forall|i: int|
            0 <= i < text.len() ==> #[trigger] lowered(text)[i] as int == small_code(
                text[i] as int,
            ),
{
}

/// The decimal notation of a number is that of its tens, if it has any, and
/// then its last digit.
pub proof fn law_decimal_notation(tens: nat, ones: nat)
    requires
        ones < 10,
    ensures
        decimal(10 * tens + ones) == (if tens == 0 {
            Seq::empty()
        } else {
            decimal(tens)
        }).push((48 + ones) as char),
{
}

} // verus!

//! What holds of the pieces, lists, numbers and paths that texts are made of.
use vstd::prelude::*;

use crate::numbers::{all_digits, decimal, digit, digits_value, padded};
use crate::paths::path_join;
use crate::text::{
    bytes_less, clean_pieces, has_part, has_prefix, is_white, joined, lemma_split_nonempty,
    list_items, occurs_at, replaced, split_on, trim_end, trim_start, trimmed,
};

verus! {

// ---------------------------------------------------------------------------
// White space.
// ---------------------------------------------------------------------------

proof fn lemma_trim_start(s: Seq<char>) -> (a: int)
    ensures
        0 <= a <= s.len(),
        trim_start(s) == s.skip(a),
        forall|i: int| 0 <= i < a ==> is_white(#[trigger] s[i]),
        a < s.len() ==> !is_white(s[a]),
    decreases s.len(),
{
    if s.len() > 0 && is_white(s[0]) {
        let rest = s.drop_first();
        let b = lemma_trim_start(rest);
        assert(rest.skip(b) =~= s.skip(b + 1));
        assert forall|i: int| 0 <= i < b + 1 implies is_white(#[trigger] s[i]) by {
            if i > 0 {
                assert(rest[i - 1] == s[i]);
            }
        }
        b + 1
    } else {
        assert(s.skip(0) =~= s);
        0
    }
}

proof fn lemma_trim_end(s: Seq<char>) -> (b: int)
    ensures
        0 <= b <= s.len(),
        trim_end(s) == s.take(b),
        forall|i: int| b <= i < s.len() ==> is_white(#[trigger] s[i]),
        b > 0 ==> !is_white(s[b - 1]),
    decreases s.len(),
{
    if s.len() > 0 && is_white(s.last()) {
        let rest = s.drop_last();
        let b = lemma_trim_end(rest);
        assert(rest.take(b) =~= s.take(b));
        assert forall|i: int| b <= i < s.len() implies is_white(#[trigger] s[i]) by {
            if i < rest.len() {
                assert(rest[i] == s[i]);
            }
        }
        b
    } else {
        assert(s.take(s.len() as int) =~= s);
        s.len() as int
    }
}

/// Whether a text neither begins nor ends with white space.
pub open spec fn is_trim(s: Seq<char>) -> bool {
    s.len() > 0 ==> !is_white(s[0]) && !is_white(s.last())
}

/// To trim a text is to take away white space at its ends and nothing else.
pub proof fn law_trimming_takes_white_space(s: Seq<char>)
    ensures
        is_trim(trimmed(s)),
        exists|a: int, b: int|
            #![trigger s.subrange(a, b)]
            {
                &&& 0 <= a <= b <= s.len()
                &&& trimmed(s) == s.subrange(a, b)
                &&& forall|i: int| 0 <= i < a ==> is_white(#[trigger] s[i])
                &&& forall|i: int| b <= i < s.len() ==> is_white(#[trigger] s[i])
            },
        is_trim(s) ==> trimmed(s) == s,
{
    let a = lemma_trim_start(s);
    let rest = s.skip(a);
    let b = lemma_trim_end(rest);
    assert(rest.take(b) =~= s.subrange(a, a + b));
    assert forall|i: int| a + b <= i < s.len() implies is_white(#[trigger] s[i]) by {
        assert(rest[i - a] == s[i]);
    }
    if b > 0 {
        assert(rest[0] == s[a]);
        assert(trimmed(s)[0] == s[a]);
        assert(trimmed(s).last() == rest[b - 1]);
    }
    if is_trim(s) && s.len() > 0 {
        assert(a == 0);
        assert(rest =~= s);
        assert(b == s.len());
        assert(s.subrange(0, b) =~= s);
    }
}

/// Whether a text is white space only.
pub open spec fn all_white(s: Seq<char>) -> bool {
    forall|i: int| 0 <= i < s.len() ==> is_white(#[trigger] s[i])
}

/// White space around a text makes no difference once it is trimmed; white space alone leaves
/// nothing.
pub proof fn law_white_space_around_is_lost(before: Seq<char>, text: Seq<char>, after: Seq<char>)
    requires
        all_white(before),
        all_white(after),
        is_trim(text),
    ensures
        text.len() > 0 ==> trimmed(before + text + after) == text,
        trimmed(before).len() == 0,
{
    let s = before + text + after;
    let a = lemma_trim_start(s);
    let rest = s.skip(a);
    let b = lemma_trim_end(rest);
    if text.len() > 0 {
        assert(s[before.len() as int] == text[0]);
        assert(a <= before.len());
        if a < before.len() {
            assert(s[a] == before[a]);
        }
        assert(rest =~= text + after);
        assert(rest[text.len() - 1] == text.last());
        assert(b >= text.len());
        if b > text.len() {
            assert(rest[b - 1] == after[b - 1 - text.len()]);
        }
        assert(rest.take(b) =~= text);
    }
    let c = lemma_trim_start(before);
    if c < before.len() {
        assert(is_white(before[c]));
    }
    assert(before.skip(c) =~= Seq::<char>::empty());
}

/// Blanks, tabs and line ends are white space; printed ASCII characters are not.
pub proof fn law_printed_characters_are_not_white(c: char)
    ensures
        c == ' ' || c == '\t' || c == '\n' || c == '\r' ==> is_white(c),
        '!' <= c && c <= '~' ==> !is_white(c),
{
}

// ---------------------------------------------------------------------------
// Pieces.
// ---------------------------------------------------------------------------

/// A further piece is joined behind the separator.
pub proof fn law_pieces_are_joined(pieces: Seq<Seq<char>>, piece: Seq<char>, sep: Seq<char>)
    ensures
        joined(seq![piece], sep) == piece,
        pieces.len() > 0 ==> joined(pieces.push(piece), sep) == joined(pieces, sep) + sep + piece,
{
    assert(pieces.push(piece).drop_last() =~= pieces);
}

/// Joining the pieces of a text gives back the text; no piece holds the separator.
pub proof fn law_splitting_is_undone(s: Seq<char>, sep: char)
    ensures
        joined(split_on(s, sep), seq![sep]) == s,
        forall|i: int|
            0 <= i < split_on(s, sep).len() ==> !(#[trigger] split_on(s, sep)[i]).contains(sep),
    decreases s.len(),
{
    let pieces = split_on(s, sep);
    if s.len() > 0 {
        let front = s.drop_last();
        let before = split_on(front, sep);
        law_splitting_is_undone(front, sep);
        lemma_split_nonempty(front, sep);
        if s.last() == sep {
            assert(pieces.drop_last() =~= before);
            assert(joined(pieces, seq![sep]) =~= front.push(sep));
            assert(front.push(sep) =~= s);
        } else {
            let last = before.last().push(s.last());
            assert(pieces.drop_last() =~= before.drop_last());
            assert(joined(pieces, seq![sep]) =~= joined(before, seq![sep]).push(s.last()));
            assert(front.push(s.last()) =~= s);
            assert forall|i: int| 0 <= i < pieces.len() implies !(#[trigger] pieces[i]).contains(
                sep,
            ) by {
                if i < pieces.len() - 1 {
                    assert(pieces[i] == before[i]);
                } else {
                    assert(!before[before.len() - 1].contains(sep));
                    if last.contains(sep) {
                        let k = choose|k: int| 0 <= k < last.len() && last[k] == sep;
                        assert(before.last()[k] == sep);
                    }
                }
            }
        }
    } else {
        assert(joined(pieces, seq![sep]) =~= s);
    }
}

/// What stands behind the last separator is the last piece; what stands before it is split as it
/// would be alone. A text without separators is one piece.
pub proof fn law_the_last_piece_is_behind(a: Seq<char>, b: Seq<char>, sep: char)
    requires
        !b.contains(sep),
    ensures
        split_on(b, sep) == seq![b],
        split_on(a + seq![sep] + b, sep) == split_on(a, sep).push(b),
    decreases b.len(),
{
    let s = a + seq![sep] + b;
    if b.len() == 0 {
        assert(s.drop_last() =~= a);
        assert(b =~= Seq::<char>::empty());
        assert(split_on(b, sep) =~= seq![b]);
    } else {
        let front = b.drop_last();
        assert(!front.contains(sep)) by {
            if front.contains(sep) {
                let k = choose|k: int| 0 <= k < front.len() && front[k] == sep;
                assert(b[k] == sep);
            }
        }
        law_the_last_piece_is_behind(a, front, sep);
        assert(s.drop_last() =~= a + seq![sep] + front);
        assert(b[b.len() - 1] != sep);
        assert(front.push(b.last()) =~= b);
        assert(split_on(s, sep) =~= split_on(a, sep).push(b));
        assert(split_on(b, sep) =~= seq![b]);
    }
}

proof fn lemma_clean_concat(a: Seq<Seq<char>>, b: Seq<Seq<char>>)
    ensures
        clean_pieces(a + b) == clean_pieces(a) + clean_pieces(b),
    decreases b.len(),
{
    if b.len() == 0 {
        assert(a + b =~= a);
        assert(clean_pieces(a) =~= clean_pieces(a) + clean_pieces(b));
    } else {
        lemma_clean_concat(a, b.drop_last());
        assert((a + b).drop_last() =~= a + b.drop_last());
        assert(clean_pieces(a + b) =~= clean_pieces(a) + clean_pieces(b));
    }
}

proof fn lemma_split_concat(a: Seq<char>, b: Seq<char>, sep: char)
    ensures
        split_on(a + seq![sep] + b, sep) == split_on(a, sep) + split_on(b, sep),
    decreases b.len(),
{
    let s = a + seq![sep] + b;
    if b.len() == 0 {
        assert(s.drop_last() =~= a);
        assert(split_on(s, sep) =~= split_on(a, sep) + split_on(b, sep));
    } else {
        let front = b.drop_last();
        lemma_split_concat(a, front, sep);
        lemma_split_nonempty(front, sep);
        assert(s.drop_last() =~= a + seq![sep] + front);
        assert(s.last() == b.last());
        assert(split_on(s, sep) =~= split_on(a, sep) + split_on(b, sep));
    }
}

/// The items of two lists with a comma between are those of the first and then those of the second.
/// What holds no comma is one item, without the white space at its ends; nothing but white space is
/// none.
pub proof fn law_lists_are_read_item_by_item(a: Seq<char>, b: Seq<char>, item: Seq<char>)
    requires
        !item.contains(','),
    ensures
        list_items(a + seq![','] + b) == list_items(a) + list_items(b),
        trimmed(item).len() > 0 ==> list_items(item) == seq![trimmed(item)],
        trimmed(item).len() == 0 ==> list_items(item).len() == 0,
{
    lemma_split_concat(a, b, ',');
    lemma_clean_concat(split_on(a, ','), split_on(b, ','));
    law_the_last_piece_is_behind(a, item, ',');
    let one = seq![item];
    assert(one.drop_last() =~= Seq::<Seq<char>>::empty());
    assert(clean_pieces(one.drop_last()) =~= Seq::empty());
    if trimmed(item).len() > 0 {
        assert(list_items(item) =~= seq![trimmed(item)]);
    }
}

/// Whether a text can stand in a list as one item.
pub open spec fn is_item(s: Seq<char>) -> bool {
    s.len() > 0 && !s.contains(',') && is_trim(s)
}

proof fn lemma_one_item(item: Seq<char>)
    requires
        is_item(item),
    ensures
        list_items(item) == seq![item],
{
    law_trimming_takes_white_space(item);
    law_lists_are_read_item_by_item(item, item, item);
}

/// A list that was written with commas is read back item by item.
pub proof fn law_lists_are_read_back(items: Seq<Seq<char>>)
    requires
        items.len() > 0,
        forall|i: int| 0 <= i < items.len() ==> #[trigger] is_item(items[i]),
    ensures
        list_items(joined(items, seq![','])) == items,
    decreases items.len(),
{
    let last = items.last();
    assert(is_item(items[items.len() - 1]));
    lemma_one_item(last);
    if items.len() == 1 {
        assert(seq![last] =~= items);
    } else {
        let front = items.drop_last();
        assert forall|i: int| 0 <= i < front.len() implies #[trigger] is_item(front[i]) by {
            assert(is_item(items[i]));
        }
        law_lists_are_read_back(front);
        law_lists_are_read_item_by_item(joined(front, seq![',']), last, last);
        assert(front + seq![last] =~= items);
    }
}

/// A character that is replaced is gone; all others stay where they are.
pub proof fn law_replaced_characters_are_gone(s: Seq<char>, from: char, to: char, i: int)
    requires
        0 <= i < s.len(),
    ensures
        replaced(s, from, to).len() == s.len(),
        s[i] == from ==> replaced(s, from, to)[i] == to,
        s[i] != from ==> replaced(s, from, to)[i] == s[i],
        from != to ==> !replaced(s, from, to).contains(from),
{
}

// ---------------------------------------------------------------------------
// Order.
// ---------------------------------------------------------------------------

/// Bytes are ordered by the first that differs; what others continue comes before them.
pub proof fn law_bytes_are_ordered_by_the_first(
    common: Seq<u8>,
    x: u8,
    a: Seq<u8>,
    y: u8,
    b: Seq<u8>,
)
    ensures
        bytes_less(common, common + seq![x] + a),
        !bytes_less(common + seq![x] + a, common),
        x < y ==> bytes_less(common + seq![x] + a, common + seq![y] + b),
    decreases common.len(),
{
    let (s, t) = (common + seq![x] + a, common + seq![y] + b);
    if common.len() == 0 {
        assert(s[0] == x && t[0] == y);
    } else {
        let rest = common.drop_first();
        law_bytes_are_ordered_by_the_first(rest, x, a, y, b);
        assert(s.drop_first() =~= rest + seq![x] + a);
        assert(t.drop_first() =~= rest + seq![y] + b);
        assert(s[0] == common[0] && t[0] == common[0]);
    }
}

// ---------------------------------------------------------------------------
// Numbers and paths.
// ---------------------------------------------------------------------------

/// Ten to the power of `n`.
pub open spec fn ten_to(n: nat) -> nat
    decreases n,
{
    if n == 0 {
        1
    } else {
        10 * ten_to((n - 1) as nat)
    }
}

/// A padded number has exactly the wanted digits, and these write the number where it has no more.
pub proof fn law_padding_keeps_the_number(n: nat, width: nat)
    ensures
        padded(n, width).len() == width,
        all_digits(padded(n, width)),
        n < ten_to(width) ==> digits_value(padded(n, width)) == n,
    decreases width,
{
    if width > 0 {
        let front = padded(n / 10, (width - 1) as nat);
        law_padding_keeps_the_number(n / 10, (width - 1) as nat);
        let d = (n % 10) as int;
        assert(padded(n, width).drop_last() =~= front);
        assert(digit(d) as int == 48 + d);
    }
}

/// A decimal number has no leading zero.
pub proof fn law_decimals_have_no_leading_zero(n: nat)
    ensures
        decimal(n).len() > 0,
        n > 0 ==> decimal(n)[0] != '0',
        decimal(0) == seq!['0'],
    decreases n,
{
    if n >= 10 {
        law_decimals_have_no_leading_zero(n / 10);
    }
}

/// A path below a directory: one that starts at the root stays as it is; any other begins with the
/// directory and ends with the path, with a separator between unless the directory has one at its
/// end or is empty.
pub proof fn law_paths_go_below(base: Seq<char>, part: Seq<char>)
    ensures
        part.len() > 0 && part[0] == '/' ==> path_join(base, part) == part,
        !(part.len() > 0 && part[0] == '/') ==> {
            let path = path_join(base, part);
            &&& path.len() >= base.len() + part.len()
            &&& path.take(base.len() as int) == base
            &&& path.skip(path.len() - part.len()) == part
            &&& base.len() == 0 || base.last() == '/' ==> path.len() == base.len() + part.len()
            &&& base.len() > 0 && base.last() != '/' ==> path.len() == base.len() + 1 + part.len()
                && path[base.len() as int] == '/'
        },
{
    reveal_strlit("/");
    let path = path_join(base, part);
    if !(part.len() > 0 && part[0] == '/') {
        assert(path.take(base.len() as int) =~= base);
        assert(path.skip(path.len() - part.len()) =~= part);
    }
}

/// A text has the parts that it is made of, and begins with the first; a part that it has stands
/// somewhere in it.
pub proof fn law_texts_have_their_parts(before: Seq<char>, part: Seq<char>, after: Seq<char>)
    ensures
        has_part(before + part + after, part),
        has_prefix(part + after, part),
        has_part(after, part) ==> exists|x: Seq<char>, y: Seq<char>|
            after == #[trigger] (x + part + y),
        has_prefix(after, part) ==> exists|y: Seq<char>| after == #[trigger] (part + y),
{
    let s = before + part + after;
    assert(s.subrange(before.len() as int, (before.len() + part.len()) as int) =~= part);
    assert(occurs_at(s, part, before.len() as int));
    assert((part + after).subrange(0, part.len() as int) =~= part);
    if has_part(after, part) {
        let at = choose|at: int| occurs_at(after, part, at);
        let (x, y) = (after.take(at), after.skip(at + part.len()));
        assert(after =~= x + part + y);
    }
    if has_prefix(after, part) {
        let y = after.skip(part.len() as int);
        assert(after.subrange(0, part.len() as int) == part);
        assert(after =~= part + y);
    }
}

} // verus!

//! Text as the tables need it: its order, its width, and numbers written out.

use num_format::{Locale, ToFormattedString};
use vstd::prelude::*;
use vstd::string::*;
use vstd::utf8::*;

verus! {

/// Lexicographic order of byte strings: `a` stands strictly before `b`.
pub open spec fn bytes_lt(a: Seq<u8>, b: Seq<u8>) -> bool
    decreases a.len(),
{
    if b.len() == 0 {
        false
    } else if a.len() == 0 {
        true
    } else if a[0] != b[0] {
        a[0] < b[0]
    } else {
        bytes_lt(a.drop_first(), b.drop_first())
    }
}

/// The order of strings: that of their UTF-8 bytes.
pub open spec fn text_lt(a: Seq<char>, b: Seq<char>) -> bool {
    bytes_lt(encode_utf8(a), encode_utf8(b))
}

/// `a` stands before `b` in the order of strings, or is the same.
pub open spec fn text_le(a: Seq<char>, b: Seq<char>) -> bool {
    a == b || text_lt(a, b)
}

proof fn lemma_bytes_lt_irreflexive(a: Seq<u8>)
    ensures
        !bytes_lt(a, a),
    decreases a.len(),
{
    if a.len() > 0 {
        lemma_bytes_lt_irreflexive(a.drop_first());
    }
}

proof fn lemma_bytes_lt_transitive(a: Seq<u8>, b: Seq<u8>, c: Seq<u8>)
    requires
        bytes_lt(a, b),
        bytes_lt(b, c),
    ensures
        bytes_lt(a, c),
    decreases a.len(),
{
    if a.len() > 0 && a[0] == b[0] && b[0] == c[0] {
        lemma_bytes_lt_transitive(a.drop_first(), b.drop_first(), c.drop_first());
    }
}

proof fn lemma_bytes_lt_total(a: Seq<u8>, b: Seq<u8>)
    ensures
        bytes_lt(a, b) || bytes_lt(b, a) || a == b,
    decreases a.len(),
{
    if a.len() > 0 && b.len() > 0 && a[0] == b[0] {
        lemma_bytes_lt_total(a.drop_first(), b.drop_first());
        if a.drop_first() == b.drop_first() {
            assert(a =~= seq![a[0]] + a.drop_first());
            assert(b =~= seq![b[0]] + b.drop_first());
        }
    } else if a.len() == 0 && b.len() == 0 {
        assert(a =~= b);
    }
}

/// Strings are totally ordered: of two strings exactly one stands before the other, or they are
/// equal; and the order is transitive.
pub proof fn text_order_is_total(a: Seq<char>, b: Seq<char>, c: Seq<char>)
    ensures
        !text_lt(a, a),
        text_lt(a, b) ==> !text_lt(b, a),
        text_lt(a, b) || text_lt(b, a) || a == b,
        text_lt(a, b) && text_lt(b, c) ==> text_lt(a, c),
{
    let (x, y, z) = (encode_utf8(a), encode_utf8(b), encode_utf8(c));
    lemma_bytes_lt_irreflexive(x);
    lemma_bytes_lt_total(x, y);
    if text_lt(a, b) && text_lt(b, a) {
        lemma_bytes_lt_transitive(x, y, x);
    }
    if text_lt(a, b) && text_lt(b, c) {
        lemma_bytes_lt_transitive(x, y, z);
    }
    if x == y {
        encode_utf8_decode_utf8(a);
        encode_utf8_decode_utf8(b);
    }
}

/// Whether `a` stands strictly before `b` in the order of strings.
pub fn text_precedes(a: &str, b: &str) -> (r: bool)
    ensures
        r == text_lt(a@, b@),
{
    let x: &[u8] = a.as_bytes();
    let y: &[u8] = b.as_bytes();
    let mut i: usize = 0;
    assert(x@.skip(0) =~= x@);
    assert(y@.skip(0) =~= y@);
    while i < x.len() && i < y.len()
        invariant
            i <= x@.len(),
            i <= y@.len(),
            x@ == encode_utf8(a@),
            y@ == encode_utf8(b@),
            text_lt(a@, b@) == bytes_lt(x@.skip(i as int), y@.skip(i as int)),
        decreases x@.len() - i,
    {
        assert(x@.skip(i as int).drop_first() =~= x@.skip(i + 1));
        assert(y@.skip(i as int).drop_first() =~= y@.skip(i + 1));
        if x[i] != y[i] {
            return x[i] < y[i];
        }
        i += 1;
    }
    i < y.len()
}

/// Whether two texts are the same.
pub fn text_equals(a: &str, b: &str) -> (r: bool)
    ensures
        r == (a@ == b@),
{
    proof {
        text_order_is_total(a@, b@, a@);
    }
    !text_precedes(a, b) && !text_precedes(b, a)
}

/// `n` spaces.
pub open spec fn spaces(n: nat) -> Seq<char> {
    Seq::new(n, |i: int| ' ')
}

/// The spaces that widen a text of `len` characters to `width`; none where it is that wide.
pub open spec fn padding(len: nat, width: nat) -> Seq<char> {
    spaces(if len < width { (width - len) as nat } else { 0 })
}

/// `text`, left aligned in a column of `width` characters.
pub open spec fn left_aligned(text: Seq<char>, width: nat) -> Seq<char> {
    text + padding(text.len(), width)
}

/// `text`, right aligned in a column of `width` characters.
pub open spec fn right_aligned(text: Seq<char>, width: nat) -> Seq<char> {
    padding(text.len(), width) + text
}

fn pad(len: usize, width: usize) -> (r: String)
    ensures
        r@ == padding(len as nat, width as nat),
{
    let mut out = String::new();
    let mut filled: usize = len;
    proof {
        reveal_strlit(" ");
    }
    while filled < width
        invariant
            len <= filled,
            filled <= width || filled == len,
            " "@ == seq![' '],
            out@ == spaces((filled - len) as nat),
        decreases width - filled,
    {
        out.append(" ");
        filled += 1;
        assert(out@ =~= spaces((filled - len) as nat));
    }
    out
}

/// Writes `text` left aligned in a column of `width` characters.
pub fn align_left(text: &str, width: usize) -> (r: String)
    ensures
        r@ == left_aligned(text@, width as nat),
{
    let fill = pad(text.unicode_len(), width);
    let mut out = String::from_str(text);
    out.append(fill.as_str());
    out
}

/// Writes `text` right aligned in a column of `width` characters.
pub fn align_right(text: &str, width: usize) -> (r: String)
    ensures
        r@ == right_aligned(text@, width as nat),
{
    let mut out = pad(text.unicode_len(), width);
    out.append(text);
    out
}

/// The character of a decimal digit.
pub open spec fn digit(d: nat) -> char {
    (48 + d) as char
}

/// `n` in decimal, without leading zeros.
pub open spec fn decimal(n: nat) -> Seq<char>
    decreases n,
{
    if n < 10 {
        seq![digit(n)]
    } else {
        decimal(n / 10).push(digit(n % 10))
    }
}

fn digit_text(d: usize) -> (r: &'static str)
    requires
        d < 10,
    ensures
        r@ == seq![digit(d as nat)],
{
    proof {
        reveal_strlit("0");
        reveal_strlit("1");
        reveal_strlit("2");
        reveal_strlit("3");
        reveal_strlit("4");
        reveal_strlit("5");
        reveal_strlit("6");
        reveal_strlit("7");
        reveal_strlit("8");
        reveal_strlit("9");
    }
    let r: &'static str = match d {
        0 => "0",
        1 => "1",
        2 => "2",
        3 => "3",
        4 => "4",
        5 => "5",
        6 => "6",
        7 => "7",
        8 => "8",
        _ => "9",
    };
    assert(r@ =~= seq![digit(d as nat)]);
    r
}

/// Writes `n` in decimal.
pub fn decimal_text(n: usize) -> (r: String)
    ensures
        r@ == decimal(n as nat),
    decreases n,
{
    if n < 10 {
        String::from_str(digit_text(n))
    } else {
        let mut out = decimal_text(n / 10);
        out.append(digit_text(n % 10));
        assert(out@ =~= decimal(n as nat));
        out
    }
}

/// `n` in decimal with a comma before every group of three digits, counted from the right.
pub open spec fn grouped(n: nat) -> Seq<char>
    decreases n,
{
    if n < 1000 {
        decimal(n)
    } else {
        grouped(n / 1000) + seq![
            ',',
            digit(n / 100 % 10),
            digit(n / 10 % 10),
            digit(n % 10),
        ]
    }
}

/// Formats a large number in the style of the English locale.
///
/// Calls `num_format::ToFormattedString::to_formatted_string` with `Locale::en`, whose grouping is
/// by three digits and whose separator is a comma. Believed of it: the text is the decimal
/// notation of the number with those commas.
#[verifier::external_body]
pub(crate) fn format_number(number: usize) -> (r: String)
    ensures
        r@ == grouped(number as nat),
{
    number.to_formatted_string(&Locale::en)
}

/// `text` cut to at most `max_length` characters; what was cut is marked by two dots.
pub open spec fn truncated(text: Seq<char>, max_length: nat) -> Seq<char> {
    if text.len() > max_length {
        text.take(max_length - 2) + seq!['.', '.']
    } else {
        text
    }
}

/// Truncates a text that is too long to display.
pub fn truncate_string(text: &str, max_length: usize) -> (r: String)
    requires
        max_length >= 2,
    ensures
        r@ == truncated(text@, max_length as nat),
{
    if text.unicode_len() > max_length {
        proof {
            reveal_strlit("..");
        }
        let mut out = String::from_str(text.substring_char(0, max_length - 2));
        out.append("..");
        assert(out@ =~= truncated(text@, max_length as nat));
        out
    } else {
        String::from_str(text)
    }
}

/// A truncated text is not too long; a text that is not too long is not changed; else it keeps its
/// beginning.
pub proof fn truncated_texts_fit(text: Seq<char>, max_length: nat)
    requires
        max_length >= 2,
    ensures
        truncated(text, max_length).len() <= max_length,
        text.len() <= max_length ==> truncated(text, max_length) == text,
        text.len() > max_length ==> truncated(text, max_length).take(max_length - 2) == text.take(
            max_length - 2,
        ),
{
    if text.len() > max_length {
        assert(truncated(text, max_length).take(max_length - 2) =~= text.take(max_length - 2));
    }
}

/// An aligned text is exactly as wide as its column, if it fits in.
pub proof fn aligned_texts_fill_columns(text: Seq<char>, width: nat)
    requires
        text.len() <= width,
    ensures
        left_aligned(text, width).len() == width,
        right_aligned(text, width).len() == width,
        left_aligned(text, width).take(text.len() as int) == text,
        right_aligned(text, width).skip(width - text.len()) == text,
{
    assert(left_aligned(text, width).take(text.len() as int) =~= text);
    assert(right_aligned(text, width).skip(width - text.len()) =~= text);
}

/// The number that digits write, commas left out.
pub open spec fn value_of(text: Seq<char>) -> nat
    decreases text.len(),
{
    if text.len() == 0 {
        0
    } else if text.last() == ',' {
        value_of(text.drop_last())
    } else {
        (10 * value_of(text.drop_last()) + (text.last() as int - 48)) as nat
    }
}

proof fn lemma_next_digit(text: Seq<char>, d: nat)
    requires
        d < 10,
    ensures
        value_of(text.push(digit(d))) == 10 * value_of(text) + d,
{
    assert(text.push(digit(d)).drop_last() =~= text);
    assert(digit(d) as int == 48 + d);
}

proof fn lemma_decimal_value(n: nat)
    ensures
        value_of(decimal(n)) == n,
    decreases n,
{
    if n < 10 {
        assert(decimal(n) =~= Seq::<char>::empty().push(digit(n)));
        lemma_next_digit(Seq::empty(), n);
    } else {
        lemma_decimal_value(n / 10);
        lemma_next_digit(decimal(n / 10), n % 10);
    }
}

/// A number can be read back from its text, with or without commas.
pub proof fn numbers_can_be_read_back(n: nat)
    ensures
        value_of(decimal(n)) == n,
        value_of(grouped(n)) == n,
    decreases n,
{
    lemma_decimal_value(n);
    if n >= 1000 {
        numbers_can_be_read_back(n / 1000);
        let start = grouped(n / 1000);
        let (h, t, u) = (n / 100 % 10, n / 10 % 10, n % 10);
        let with_comma = start.push(',');
        assert(with_comma.drop_last() =~= start);
        lemma_next_digit(with_comma, h);
        lemma_next_digit(with_comma.push(digit(h)), t);
        lemma_next_digit(with_comma.push(digit(h)).push(digit(t)), u);
        assert(grouped(n) =~= with_comma.push(digit(h)).push(digit(t)).push(digit(u)));
    }
}

proof fn lemma_first_difference(a: Seq<u8>, b: Seq<u8>, i: int)
    requires
        0 <= i <= a.len(),
        i < b.len(),
        a.take(i) == b.take(i),
        i == a.len() || a[i] < b[i],
    ensures
        bytes_lt(a, b),
    decreases i,
{
    if i > 0 {
        let (x, y) = (a.take(i), b.take(i));
        assert(x[0] == a[0]);
        assert(y[0] == b[0]);
        assert(a.drop_first().take(i - 1) =~= a.take(i).drop_first());
        assert(b.drop_first().take(i - 1) =~= b.take(i).drop_first());
        lemma_first_difference(a.drop_first(), b.drop_first(), i - 1);
    }
}

/// A string stands before another one where its first differing byte is less, or where it is only
/// the beginning of the other one.
pub proof fn first_differing_byte_decides(a: Seq<char>, b: Seq<char>, i: int)
    requires
        0 <= i <= encode_utf8(a).len(),
        i < encode_utf8(b).len(),
        encode_utf8(a).take(i) == encode_utf8(b).take(i),
        i == encode_utf8(a).len() || encode_utf8(a)[i] < encode_utf8(b)[i],
    ensures
        text_lt(a, b),
        text_le(a, b),
        !text_le(b, a),
{
    lemma_first_difference(encode_utf8(a), encode_utf8(b), i);
    text_order_is_total(a, b, a);
}

/// Columns are filled with spaces, and a text that does not fit in is not cut.
pub proof fn columns_are_filled_with_spaces(text: Seq<char>, width: nat)
    ensures
        text.len() >= width ==> left_aligned(text, width) == text,
        text.len() >= width ==> right_aligned(text, width) == text,
        forall|i: int|
            text.len() <= i < width ==> #[trigger] left_aligned(text, width)[i] == ' ',
        forall|i: int|
            0 <= i < width - text.len() ==> #[trigger] right_aligned(text, width)[i] == ' ',
{
    if text.len() >= width {
        assert(left_aligned(text, width) =~= text);
        assert(right_aligned(text, width) =~= text);
    }
}

/// What was cut from a text is marked by two dots, which take the last two of its places.
pub proof fn cut_texts_end_in_dots(text: Seq<char>, max_length: nat)
    requires
        max_length >= 2,
        text.len() > max_length,
    ensures
        truncated(text, max_length).len() == max_length,
        truncated(text, max_length)[max_length - 2] == '.',
        truncated(text, max_length)[max_length - 1] == '.',
        forall|i: int|
            0 <= i < max_length - 2 ==> #[trigger] truncated(text, max_length)[i] == text[i],
{
}

/// A number is written with digits only, and starts with a zero only where it is zero.
pub proof fn numbers_are_written_in_digits(n: nat)
    ensures
        decimal(n).len() > 0,
        forall|i: int| 0 <= i < decimal(n).len() ==> '0' <= #[trigger] decimal(n)[i] <= '9',
        decimal(n)[0] == '0' <==> n == 0,
    decreases n,
{
    if n >= 10 {
        numbers_are_written_in_digits(n / 10);
    }
}

proof fn lemma_three_digits(n: nat)
    requires
        n >= 1000,
    ensures
        decimal(n) == decimal(n / 1000) + seq![
            digit(n / 100 % 10),
            digit(n / 10 % 10),
            digit(n % 10),
        ],
{
    assert(n / 10 / 10 == n / 100);
    assert(n / 10 / 10 / 10 == n / 1000);
    assert(decimal(n) =~= decimal(n / 10).push(digit(n % 10)));
    assert(decimal(n / 10) =~= decimal(n / 10 / 10).push(digit(n / 10 % 10)));
    assert(decimal(n / 10 / 10) =~= decimal(n / 10 / 10 / 10).push(digit(n / 10 / 10 % 10)));
    assert(decimal(n) =~= decimal(n / 1000) + seq![
        digit(n / 100 % 10),
        digit(n / 10 % 10),
        digit(n % 10),
    ]);
}

/// A grouped number is the number with a comma in every fourth place from the right, and nowhere
/// else: left out, the commas leave the number.
pub proof fn commas_group_three_digits(n: nat)
    ensures
        grouped(n).len() > 0,
        grouped(n)[0] != ',',
        forall|i: int|
            0 <= i < grouped(n).len() ==> ((#[trigger] grouped(n)[grouped(n).len() - 1 - i] == ',')
                <==> i % 4 == 3),
        grouped(n).filter(|c: char| c != ',') == decimal(n),
    decreases n,
{
    let kept = |c: char| c != ',';
    numbers_are_written_in_digits(n);
    if n < 1000 {
        lemma_short_decimal(n);
        lemma_nothing_left_out(decimal(n));
        assert forall|i: int| 0 <= i < grouped(n).len() implies ((#[trigger] grouped(n)[grouped(
            n,
        ).len() - 1 - i] == ',') <==> i % 4 == 3) by {
            assert('0' <= decimal(n)[decimal(n).len() - 1 - i] <= '9');
        }
    } else {
        let start = grouped(n / 1000);
        let (h, t, u) = (digit(n / 100 % 10), digit(n / 10 % 10), digit(n % 10));
        commas_group_three_digits(n / 1000);
        lemma_three_digits(n);
        let tail = seq![',', h, t, u];
        assert(grouped(n) =~= start + tail);
        assert(h != ',' && t != ',' && u != ',');
        assert forall|i: int| 0 <= i < grouped(n).len() implies ((#[trigger] grouped(n)[grouped(
            n,
        ).len() - 1 - i] == ',') <==> i % 4 == 3) by {
            if i >= 4 {
                assert(grouped(n)[grouped(n).len() - 1 - i] == start[start.len() - 1 - (i - 4)]);
            } else {
                assert(grouped(n)[grouped(n).len() - 1 - i] == tail[3 - i]);
            }
        }
        Seq::<char>::filter_distributes_over_add(start, tail, kept);
        assert(tail.filter(kept) =~= seq![h, t, u]) by {
            let digits = seq![h, t, u];
            assert(tail =~= seq![','] + digits);
            Seq::<char>::filter_distributes_over_add(seq![','], digits, kept);
            lemma_nothing_left_out(digits);
            assert(seq![','].filter(kept) =~= Seq::empty()) by {
                reveal_with_fuel(Seq::filter, 2);
                assert(seq![','].drop_last() =~= Seq::empty());
            }
            assert(Seq::<char>::empty() + digits =~= digits);
        }
    }
}

proof fn lemma_short_decimal(n: nat)
    requires
        n < 1000,
    ensures
        decimal(n).len() <= 3,
{
    reveal_with_fuel(decimal, 4);
}

proof fn lemma_nothing_left_out(text: Seq<char>)
    requires
        forall|i: int| 0 <= i < text.len() ==> #[trigger] text[i] != ',',
    ensures
        text.filter(|c: char| c != ',') == text,
    decreases text.len(),
{
    reveal(Seq::filter);
    if text.len() > 0 {
        assert(text[text.len() - 1] != ',');
        lemma_nothing_left_out(text.drop_last());
        assert(text =~= text.drop_last().push(text.last()));
    }
}

} // verus!

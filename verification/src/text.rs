//! Text as UTF-8 bytes: comparison, lower-casing and insertion at a byte
//! offset.

use vstd::prelude::*;
use vstd::string::*;
use vstd::utf8::*;

verus! {

/// The lower-case form of a text, as `str::to_lowercase` computes it.
pub uninterp spec fn lowercase_of(text: Seq<char>) -> Seq<char>;

/// `str::to_lowercase` of the standard library: the result is the
/// lower-case form of the argument. Nothing more is claimed of it.
pub assume_specification[ str::to_lowercase ](s: &str) -> (r: String)
    ensures
        r@ == lowercase_of(s@),
;

/// The pieces of a text between runs of white space, as
/// `str::split_whitespace` yields them.
pub uninterp spec fn whitespace_tokens(text: Seq<char>) -> Seq<Seq<char>>;

/// `str::split_whitespace` of the standard library, its pieces collected in
/// order. The contract names the list of pieces and claims nothing else of
/// it.
#[verifier::external_body]
pub(crate) fn split_whitespace(s: &str) -> (r: Vec<String>)
    ensures
        r@.map_values(|t: String| t@) == whitespace_tokens(s@),
{
    s.split_whitespace().map(|t| t.to_string()).collect()
}

/// A text without the white space at its two ends, as `str::trim` gives
/// it.
pub uninterp spec fn trimmed(text: Seq<char>) -> Seq<char>;

/// `str::trim` of the standard library. The contract names the result and
/// claims nothing else of it.
pub assume_specification[ str::trim ](s: &str) -> (r: &str)
    ensures
        r@ == trimmed(s@),
;

/// A piece of text without the carriage return at its end, where it has
/// one.
pub open spec fn without_carriage_return(piece: Seq<char>) -> Seq<char> {
    if piece.len() > 0 && piece.last() == '\r' {
        piece.drop_last()
    } else {
        piece
    }
}

/// The lines of `text` from offset `start` on, when the text is read from
/// offset `at` and no line feed lies between the two.
pub open spec fn lines_from(text: Seq<char>, start: int, at: int) -> Seq<Seq<char>>
    decreases text.len() - at,
{
    if at >= text.len() {
        if start < text.len() {
            seq![text.subrange(start, text.len() as int)]
        } else {
            Seq::empty()
        }
    } else if text[at] == '\n' {
        seq![without_carriage_return(text.subrange(start, at))] + lines_from(text, at + 1, at + 1)
    } else {
        lines_from(text, start, at + 1)
    }
}

/// The lines of a text. A line ends with a line feed or with a carriage
/// return and a line feed, neither of which belongs to it; what follows
/// the last line feed is a line unless it is empty.
pub open spec fn text_lines(text: Seq<char>) -> Seq<Seq<char>> {
    lines_from(text, 0, 0)
}

/// `str::lines` of the standard library, its lines collected in order. The
/// contract states what the documentation of `lines` says: the text is
/// split at every line feed, a carriage return right before a line feed
/// goes with it, and a last line ending adds no empty line.
#[verifier::external_body]
pub(crate) fn lines(s: &str) -> (r: Vec<String>)
    ensures
        r@.map_values(|t: String| t@) == text_lines(s@),
{
    s.lines().map(|t| t.to_string()).collect()
}

/// The UTF-8 bytes of a text.
pub open spec fn bytes_of(text: Seq<char>) -> Seq<u8> {
    encode_utf8(text)
}

/// `base` with `piece` inserted before byte offset `pos`.
pub open spec fn spliced(base: Seq<u8>, pos: int, piece: Seq<u8>) -> Seq<u8> {
    base.subrange(0, pos) + piece + base.subrange(pos, base.len() as int)
}

/// Encoding distributes over concatenation.
pub proof fn lemma_bytes_of_concat(a: Seq<char>, b: Seq<char>)
    ensures
        bytes_of(a + b) == bytes_of(a) + bytes_of(b),
    decreases a.len(),
{
    if a.len() == 0 {
        assert(a + b =~= b);
        assert(bytes_of(a) + bytes_of(b) =~= bytes_of(b));
    } else {
        assert((a + b).drop_first() =~= a.drop_first() + b);
        lemma_bytes_of_concat(a.drop_first(), b);
        assert(bytes_of(a + b) =~= bytes_of(a) + bytes_of(b));
    }
}

/// Two texts with the same bytes are the same text.
pub proof fn lemma_bytes_of_injective(a: Seq<char>, b: Seq<char>)
    requires
        bytes_of(a) == bytes_of(b),
    ensures
        a == b,
{
    encode_utf8_decode_utf8(a);
    encode_utf8_decode_utf8(b);
}

/// Inserting well-formed text at a character boundary of well-formed text
/// gives well-formed text, and every boundary of the base is still one, at
/// its old offset before the insertion point and moved by the piece's
/// length from there on.
pub proof fn lemma_spliced_is_text(base: Seq<u8>, pos: int, piece: Seq<u8>)
    requires
        valid_utf8(base),
        valid_utf8(piece),
        is_char_boundary(base, pos),
        0 <= pos <= base.len(),
    ensures
        valid_utf8(spliced(base, pos, piece)),
        forall|i: int|
            0 <= i <= pos && is_char_boundary(base, i) ==> #[trigger] is_char_boundary(
                spliced(base, pos, piece),
                i,
            ),
        forall|i: int|
            pos <= i <= base.len() && is_char_boundary(base, i) ==> #[trigger] is_char_boundary(
                spliced(base, pos, piece),
                i + piece.len(),
            ),
{
    let out = spliced(base, pos, piece);
    let head = base.subrange(0, pos);
    let tail = base.subrange(pos, base.len() as int);
    valid_utf8_split(base, pos);
    valid_utf8_concat(head, piece);
    valid_utf8_concat(head + piece, tail);
    is_char_boundary_start_end_of_seq(out);
    assert forall|i: int| 0 <= i <= pos && is_char_boundary(base, i) implies #[trigger] is_char_boundary(out, i) by {
        if i < out.len() {
            is_char_boundary_iff_not_is_continuation_byte(out, i);
            if i < pos {
                is_char_boundary_iff_not_is_continuation_byte(base, i);
                assert(out[i] == base[i]);
            } else if piece.len() > 0 {
                is_char_boundary_start_end_of_seq(piece);
                is_char_boundary_iff_not_is_continuation_byte(piece, 0);
                assert(out[i] == piece[0]);
            } else {
                is_char_boundary_iff_not_is_continuation_byte(base, i);
                assert(out[i] == base[i]);
            }
        }
    }
    assert forall|i: int|
        pos <= i <= base.len() && is_char_boundary(base, i) implies #[trigger] is_char_boundary(
        out,
        i + piece.len(),
    ) by {
        if i + piece.len() < out.len() {
            is_char_boundary_iff_not_is_continuation_byte(out, i + piece.len());
            is_char_boundary_iff_not_is_continuation_byte(base, i);
            assert(out[i + piece.len()] == base[i]);
        }
    }
}

/// Whether two string slices hold the same text.
pub fn str_eq(a: &str, b: &str) -> (r: bool)
    ensures
        r == (a@ == b@),
{
    let x = a.as_bytes();
    let y = b.as_bytes();
    proof {
        encode_utf8_decode_utf8(a@);
        encode_utf8_decode_utf8(b@);
    }
    if x.len() != y.len() {
        return false;
    }
    let mut i: usize = 0;
    while i < x.len()
        invariant
            0 <= i <= x.len(),
            x.len() == y.len(),
            x@ == encode_utf8(a@),
            y@ == encode_utf8(b@),
            decode_utf8(x@) == a@,
            decode_utf8(y@) == b@,
            forall|k: int| 0 <= k < i ==> x@[k] == y@[k],
        decreases x.len() - i,
    {
        if x[i] != y[i] {
            return false;
        }
        i += 1;
    }
    assert(x@ =~= y@);
    true
}

/// Whether the bytes of `hay` from `start` up to `end` are exactly `key`.
pub fn range_eq(hay: &[u8], start: usize, end: usize, key: &[u8]) -> (r: bool)
    requires
        start <= end <= hay.len(),
    ensures
        r == (hay@.subrange(start as int, end as int) == key@),
{
    let n = end - start;
    if key.len() != n {
        return false;
    }
    let ghost part = hay@.subrange(start as int, end as int);
    let mut i: usize = 0;
    while i < n
        invariant
            start <= end <= hay.len(),
            n == end - start,
            key.len() == n,
            part == hay@.subrange(start as int, end as int),
            0 <= i <= n,
            forall|k: int| 0 <= k < i ==> part[k] == key@[k],
        decreases n - i,
    {
        if hay[start + i] != key[i] {
            assert(part[i as int] != key@[i as int]);
            return false;
        }
        i += 1;
    }
    assert(part =~= key@);
    true
}

/// `base` with `piece` inserted before byte offset `pos`, which must be a
/// character boundary of `base`.
pub fn insert_text(base: &str, pos: usize, piece: &str) -> (r: String)
    requires
        is_char_boundary(bytes_of(base@), pos as int),
        pos <= bytes_of(base@).len(),
    ensures
        bytes_of(r@) == spliced(bytes_of(base@), pos as int, bytes_of(piece@)),
{
    let (head, tail) = base.split_at(pos);
    let mut out = String::from_str(head);
    out.append(piece);
    out.append(tail);
    proof {
        lemma_bytes_of_concat(head@, piece@);
        lemma_bytes_of_concat(head@ + piece@, tail@);
    }
    out
}

/// The text of a decimal digit.
pub open spec fn digit_text(d: int) -> Seq<char> {
    if d == 0 {
        "0"@
    } else if d == 1 {
        "1"@
    } else if d == 2 {
        "2"@
    } else if d == 3 {
        "3"@
    } else if d == 4 {
        "4"@
    } else if d == 5 {
        "5"@
    } else if d == 6 {
        "6"@
    } else if d == 7 {
        "7"@
    } else if d == 8 {
        "8"@
    } else {
        "9"@
    }
}

/// The decimal digits of a natural number, without leading zeros.
pub open spec fn decimal_digits(n: nat) -> Seq<char>
    decreases n,
{
    if n < 10 {
        digit_text(n as int)
    } else {
        decimal_digits(n / 10) + digit_text((n % 10) as int)
    }
}

/// The decimal form of an integer, with a minus sign where it is negative.
pub open spec fn decimal(n: int) -> Seq<char> {
    if n < 0 {
        "-"@ + decimal_digits((-n) as nat)
    } else {
        decimal_digits(n as nat)
    }
}

fn digit_str(d: u64) -> (r: &'static str)
    requires
        d < 10,
    ensures
        r@ == digit_text(d as int),
{
    if d == 0 {
        "0"
    } else if d == 1 {
        "1"
    } else if d == 2 {
        "2"
    } else if d == 3 {
        "3"
    } else if d == 4 {
        "4"
    } else if d == 5 {
        "5"
    } else if d == 6 {
        "6"
    } else if d == 7 {
        "7"
    } else if d == 8 {
        "8"
    } else {
        "9"
    }
}

fn digits_string(n: u64) -> (r: String)
    ensures
        r@ == decimal_digits(n as nat),
    decreases n,
{
    if n < 10 {
        String::from_str(digit_str(n))
    } else {
        let mut out = digits_string(n / 10);
        out.append(digit_str(n % 10));
        out
    }
}

/// The decimal form of an integer.
pub fn decimal_string(n: i64) -> (r: String)
    ensures
        r@ == decimal(n as int),
{
    if n < 0 {
        let magnitude: u64 = ((-(n + 1)) as u64) + 1;
        let mut out = String::from_str("-");
        let digits = digits_string(magnitude);
        out.append(digits.as_str());
        out
    } else {
        digits_string(n as u64)
    }
}

} // verus!

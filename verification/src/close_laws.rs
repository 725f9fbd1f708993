//! Where a tag ends, on tags that are given piece by piece.
//!
//! Every byte string is a row of plain and quoted pieces, followed by a `>`, by
//! an open quotation or by nothing, so that the three laws here speak of every
//! tag.

use vstd::prelude::*;

use crate::tag::closes_tag;
use crate::tag::open_quote;
use crate::tag::tag_end;

verus! {

/// A piece of a tag: bytes outside quotations, or a value between two marks.
pub enum Piece {
    Plain(Seq<u8>),
    Quoted(u8, Seq<u8>),
}

impl Piece {
    /// The bytes of the piece.
    pub open spec fn bytes(self) -> Seq<u8> {
        match self {
            Piece::Plain(text) => text,
            Piece::Quoted(quote, value) => seq![quote] + value + seq![quote],
        }
    }

    /// Whether the piece is what it is said to be: no quotation mark and no `>`
    /// stands in plain bytes, and a quoted value does not hold its own mark.
    pub open spec fn is_sound(self) -> bool {
        match self {
            Piece::Plain(text) => forall|i: int|
                0 <= i < text.len() ==> #[trigger] text[i] != 0x22 && text[i] != 0x27 && text[i]
                    != 0x3e,
            Piece::Quoted(quote, value) => (quote == 0x22 || quote == 0x27) && forall|i: int|
                0 <= i < value.len() ==> #[trigger] value[i] != quote,
        }
    }
}

/// The bytes of a row of pieces.
pub open spec fn bytes_of(pieces: Seq<Piece>) -> Seq<u8>
    decreases pieces.len(),
{
    if pieces.len() == 0 {
        Seq::empty()
    } else {
        bytes_of(pieces.drop_last()) + pieces.last().bytes()
    }
}

/// Whether all pieces are sound.
pub open spec fn all_sound(pieces: Seq<Piece>) -> bool {
    forall|i: int| 0 <= i < pieces.len() ==> (#[trigger] pieces[i]).is_sound()
}

/// No quotation is open behind whole pieces, and nothing in them closes the
/// tag.
proof fn lemma_pieces(body: Seq<u8>, start: int, pieces: Seq<Piece>)
    requires
        0 <= start,
        start + bytes_of(pieces).len() <= body.len(),
        all_sound(pieces),
        forall|k: int|
            0 <= k < bytes_of(pieces).len() ==> #[trigger] bytes_of(pieces)[k] == body[start + k],
    ensures
        open_quote(body, start, start + bytes_of(pieces).len()) is None,
        forall|k: int|
            start <= k < start + bytes_of(pieces).len() ==> !closes_tag(body, start, k),
    decreases pieces.len(),
{
    if pieces.len() > 0 {
        let front = pieces.drop_last();
        let last = pieces.last();
        let all = bytes_of(pieces);
        let before = bytes_of(front);
        assert forall|i: int| 0 <= i < front.len() implies (#[trigger] front[i]).is_sound() by {
            assert(front[i] == pieces[i]);
        }
        assert forall|k: int| 0 <= k < before.len() implies #[trigger] before[k] == body[start
            + k] by {
            assert(all[k] == before[k]);
            assert(all[k] == body[start + k]);
        }
        lemma_pieces(body, start, front);
        let i = start + before.len();
        let end = start + all.len();
        assert(pieces[pieces.len() - 1].is_sound());
        assert forall|k: int| i <= k < end implies body[k] == #[trigger] last.bytes()[k - i] by {
            assert(all[k - start] == last.bytes()[k - i]);
            assert(all[k - start] == body[start + (k - start)]);
        }
        match last {
            Piece::Plain(text) => {
                assert forall|k: int| i <= k < end implies !crate::tag::is_quote(#[trigger] body[k])
                    && body[k] != '>' as u8 by {
                    assert(body[k] == last.bytes()[k - i]);
                    assert(text[k - i] == body[k]);
                }
                crate::tag_laws::lemma_plain_run(body, start, i, end);
            },
            Piece::Quoted(quote, value) => {
                let close = end - 1;
                assert(last.bytes().len() == value.len() + 2);
                assert(body[i] == last.bytes()[i - i]);
                assert(body[close] == last.bytes()[close - i]);
                assert forall|k: int| i < k < close implies #[trigger] body[k] != quote by {
                    assert(body[k] == last.bytes()[k - i]);
                    assert(value[k - i - 1] != quote);
                }
                crate::tag_laws::lemma_quoted_run(body, start, i, close, quote);
                assert(open_quote(body, start, end) is None);
                assert(!closes_tag(body, start, close));
            },
        }
    }
}

/// A tag ends behind the first `>` outside its quoted pieces, wherever it
/// stands and however many pieces it has, where it is 4096 bytes long at most,
/// and nowhere where it is longer.
pub proof fn tag_ends_behind_its_pieces(before: Seq<u8>, pieces: Seq<Piece>, after: Seq<u8>)
    requires
        all_sound(pieces),
    ensures
        bytes_of(pieces).len() + 1 <= 4096 ==> tag_end(
            before + bytes_of(pieces) + seq!['>' as u8] + after,
            before.len() as int,
        ) == Some((before.len() + bytes_of(pieces).len() + 1) as int),
        bytes_of(pieces).len() + 1 > 4096 ==> tag_end(
            before + bytes_of(pieces) + seq!['>' as u8] + after,
            before.len() as int,
        ) is None,
{
    let text = bytes_of(pieces);
    let body = before + text + seq!['>' as u8] + after;
    let start = before.len() as int;
    let close = start + text.len();
    assert forall|k: int| 0 <= k < text.len() implies #[trigger] text[k] == body[start + k] by {}
    lemma_pieces(body, start, pieces);
    assert(body[close] == '>' as u8);
    assert(closes_tag(body, start, close));
    crate::tag::tag_end_is_first_unquoted_close(body, start);
}

/// A tag whose pieces are not followed by a `>` does not end.
pub proof fn tag_without_close_does_not_end(before: Seq<u8>, pieces: Seq<Piece>)
    requires
        all_sound(pieces),
    ensures
        tag_end(before + bytes_of(pieces), before.len() as int) is None,
{
    let text = bytes_of(pieces);
    let body = before + text;
    let start = before.len() as int;
    assert forall|k: int| 0 <= k < text.len() implies #[trigger] text[k] == body[start + k] by {}
    lemma_pieces(body, start, pieces);
    crate::tag::tag_end_is_first_unquoted_close(body, start);
}

/// A tag with a quotation that is not closed does not end, whatever stands in
/// the quotation.
pub proof fn tag_with_open_quotation_does_not_end(
    before: Seq<u8>,
    pieces: Seq<Piece>,
    quote: u8,
    value: Seq<u8>,
)
    requires
        all_sound(pieces),
        quote == 0x22 || quote == 0x27,
        !value.contains(quote),
    ensures
        tag_end(before + bytes_of(pieces) + seq![quote] + value, before.len() as int) is None,
{
    let text = bytes_of(pieces);
    let body = before + text + seq![quote] + value;
    let start = before.len() as int;
    let open = start + text.len();
    assert forall|k: int| 0 <= k < text.len() implies #[trigger] text[k] == body[start + k] by {}
    lemma_pieces(body, start, pieces);
    assert(body[open] == quote);
    assert forall|k: int| open < k < body.len() implies #[trigger] body[k] != quote by {
        assert(body[k] == value[k - open - 1]);
        assert(value.contains(value[k - open - 1]));
    }
    crate::tag_laws::lemma_quoted_run(body, start, open, body.len() as int, quote);
    crate::tag::tag_end_is_first_unquoted_close(body, start);
}

} // verus!

//! Favicons that a page declares are listed, in whatever order and form the
//! attributes of their tags are written.

use vstd::prelude::*;

use crate::ascii::ascii;
use crate::ascii::ascii_lower;
use crate::ascii::eq_ascii_nocase;
use crate::ascii::is_ascii_space;
use crate::attribute_laws::attrs_bytes;
use crate::attribute_laws::is_one_word;
use crate::attribute_laws::is_sound_tag;
use crate::attribute_laws::Attr;
use crate::attribute_laws::Form;
use crate::close_laws::all_sound;
use crate::close_laws::bytes_of;
use crate::close_laws::Piece;
use crate::favicon_laws::holds_inline;
use crate::favicon_laws::refers_to_url;
use crate::favicon_search::link_value;
use crate::favicon_search::meta_value;
use crate::favicon_search::page_favicons;
use crate::favicon_search::page_values;
use crate::favicon_search::tags;
use crate::opening::opens_at;
use crate::page_laws::all_closed;
use crate::page_laws::opening_of;
use crate::tag::tag_end;

verus! {

/// Whether bytes hold neither a quotation mark nor a `>`.
pub open spec fn is_unmarked(bytes: Seq<u8>) -> bool {
    forall|i: int|
        0 <= i < bytes.len() ==> #[trigger] bytes[i] != 0x22 && bytes[i] != 0x27 && bytes[i] != 0x3e
}

/// Whether quotation marks and `>` stand in an attribute only in and around a
/// quoted value.
pub open spec fn is_clean(attr: Attr) -> bool {
    is_unmarked(attr.name) && (attr.form is Bare ==> is_unmarked(attr.value))
}

/// The tag with the given head and attributes, with `filler` in front of its
/// `>`.
pub open spec fn tag_of(head: Seq<u8>, attrs: Seq<Attr>, filler: Seq<u8>) -> Seq<u8> {
    head + attrs_bytes(attrs) + (filler + seq!['>' as u8])
}

/// Whether a tag is declared soundly: `head` spells `word` in any case, a blank
/// follows it, the attributes are sound and clean, the filler holds no mark and
/// no `=`, and the tag is 4096 bytes long at most.
pub open spec fn is_declared(
    word: Seq<u8>,
    head: Seq<u8>,
    attrs: Seq<Attr>,
    filler: Seq<u8>,
) -> bool {
    &&& eq_ascii_nocase(head, word)
    &&& is_sound_tag(head, attrs, filler + seq!['>' as u8])
    &&& attrs.len() > 0 && attrs[0].space[0] == 0x20
    &&& forall|i: int| 0 <= i < attrs.len() ==> is_clean(#[trigger] attrs[i])
    &&& is_unmarked(filler)
    &&& tag_of(head, attrs, filler).len() <= 4096
}

spec fn pieces_of(attr: Attr) -> Seq<Piece> {
    match attr.form {
        Form::Quoted(quote) => seq![Piece::Plain(attr.front()), Piece::Quoted(quote, attr.value)],
        _ => seq![Piece::Plain(attr.bytes())],
    }
}

spec fn all_pieces(attrs: Seq<Attr>) -> Seq<Piece>
    decreases attrs.len(),
{
    if attrs.len() == 0 {
        Seq::empty()
    } else {
        pieces_of(attrs[0]) + all_pieces(attrs.drop_first())
    }
}

proof fn lemma_one_piece(piece: Piece)
    ensures
        bytes_of(seq![piece]) == piece.bytes(),
{
    assert(seq![piece].drop_last() =~= Seq::empty());
    assert(bytes_of(seq![piece].drop_last()) == Seq::<u8>::empty());
    assert(Seq::<u8>::empty() + piece.bytes() =~= piece.bytes());
}

proof fn lemma_joined_pieces(first: Seq<Piece>, second: Seq<Piece>)
    ensures
        bytes_of(first + second) == bytes_of(first) + bytes_of(second),
        all_sound(first) && all_sound(second) ==> all_sound(first + second),
    decreases second.len(),
{
    let all = first + second;
    if all_sound(first) && all_sound(second) {
        assert forall|i: int| 0 <= i < all.len() implies (#[trigger] all[i]).is_sound() by {
            if i < first.len() {
                assert(all[i] == first[i]);
            } else {
                assert(all[i] == second[i - first.len()]);
            }
        }
    }
    if second.len() == 0 {
        assert(all =~= first);
        assert(bytes_of(first) + bytes_of(second) =~= bytes_of(first));
    } else {
        assert(all.drop_last() =~= first + second.drop_last());
        assert(all.last() == second.last());
        lemma_joined_pieces(first, second.drop_last());
        assert(bytes_of(all) =~= bytes_of(first) + bytes_of(second));
    }
}

proof fn lemma_unmarked_front(attr: Attr)
    requires
        attr.is_sound(),
        is_clean(attr),
    ensures
        is_unmarked(attr.front()),
        attr.form is Bare ==> is_unmarked(attr.bytes()),
        attr.form is Missing ==> is_unmarked(attr.bytes()),
{
    let front = attr.front();
    let a = attr.space.len();
    let b = a + attr.name.len();
    let c = b + attr.left.len();
    assert forall|i: int| 0 <= i < front.len() implies #[trigger] front[i] != 0x22 && front[i]
        != 0x27 && front[i] != 0x3e by {
        if i < a {
            assert(front[i] == attr.space[i]);
            assert(is_ascii_space(attr.space[i]));
        } else if i < b {
            assert(front[i] == attr.name[i - a]);
        } else if i < c {
            assert(front[i] == attr.left[i - b]);
            assert(is_ascii_space(attr.left[i - b]));
        } else if i > c {
            assert(front[i] == attr.right[i - c - 1]);
            assert(is_ascii_space(attr.right[i - c - 1]));
        }
    }
    let bytes = attr.bytes();
    if attr.form is Bare {
        assert forall|i: int| 0 <= i < bytes.len() implies #[trigger] bytes[i] != 0x22 && bytes[i]
            != 0x27 && bytes[i] != 0x3e by {
            if i < front.len() {
                assert(bytes[i] == front[i]);
            } else {
                assert(bytes[i] == attr.value[i - front.len()]);
            }
        }
    }
    if attr.form is Missing {
        assert forall|i: int| 0 <= i < bytes.len() implies #[trigger] bytes[i] != 0x22 && bytes[i]
            != 0x27 && bytes[i] != 0x3e by {
            assert(bytes[i] == front[i]);
        }
    }
}

proof fn lemma_attribute_pieces(attr: Attr)
    requires
        attr.is_sound(),
        is_clean(attr),
    ensures
        bytes_of(pieces_of(attr)) == attr.bytes(),
        all_sound(pieces_of(attr)),
{
    lemma_unmarked_front(attr);
    match attr.form {
        Form::Quoted(quote) => {
            let front = Piece::Plain(attr.front());
            let value = Piece::Quoted(quote, attr.value);
            assert(pieces_of(attr) =~= seq![front] + seq![value]);
            lemma_joined_pieces(seq![front], seq![value]);
            lemma_one_piece(front);
            lemma_one_piece(value);
            assert(front.bytes() + value.bytes() =~= attr.bytes());
            assert forall|i: int| 0 <= i < attr.value.len() implies #[trigger] attr.value[i]
                != quote by {
                assert(attr.value.contains(attr.value[i]));
            }
        },
        _ => {
            lemma_one_piece(Piece::Plain(attr.bytes()));
        },
    }
}

proof fn lemma_all_pieces(attrs: Seq<Attr>)
    requires
        forall|i: int| 0 <= i < attrs.len() ==> (#[trigger] attrs[i]).is_sound(),
        forall|i: int| 0 <= i < attrs.len() ==> is_clean(#[trigger] attrs[i]),
    ensures
        bytes_of(all_pieces(attrs)) == attrs_bytes(attrs),
        all_sound(all_pieces(attrs)),
    decreases attrs.len(),
{
    if attrs.len() > 0 {
        let others = attrs.drop_first();
        assert forall|i: int| 0 <= i < others.len() implies (#[trigger] others[i]).is_sound()
            && is_clean(others[i]) by {
            assert(others[i] == attrs[i + 1]);
        }
        lemma_all_pieces(others);
        lemma_attribute_pieces(attrs[0]);
        lemma_joined_pieces(pieces_of(attrs[0]), all_pieces(others));
    }
}

/// A declared tag ends where its `>` stands.
proof fn lemma_declared_end(
    before: Seq<u8>,
    word: Seq<u8>,
    head: Seq<u8>,
    attrs: Seq<Attr>,
    filler: Seq<u8>,
    after: Seq<u8>,
)
    requires
        is_declared(word, head, attrs, filler),
        is_unmarked(head),
    ensures
        tag_end(before + tag_of(head, attrs, filler) + after, before.len() as int) == Some(
            (before.len() + tag_of(head, attrs, filler).len()) as int,
        ),
{
    let tag = tag_of(head, attrs, filler);
    let start = seq![Piece::Plain(head)];
    let end = seq![Piece::Plain(filler)];
    let middle = all_pieces(attrs);
    let pieces = start + middle + end;
    lemma_all_pieces(attrs);
    lemma_one_piece(Piece::Plain(head));
    lemma_one_piece(Piece::Plain(filler));
    lemma_joined_pieces(start, middle);
    lemma_joined_pieces(start + middle, end);
    let text = bytes_of(pieces);
    assert(text == head + attrs_bytes(attrs) + filler);
    assert(tag =~= text + seq!['>' as u8]);
    crate::close_laws::tag_ends_behind_its_pieces(before, pieces, after);
    assert(before + tag + after =~= before + text + seq!['>' as u8] + after);
}

/// A declared tag opens as its spelling says, and the scan for that spelling
/// reaches it.
proof fn lemma_declared_is_scanned(
    before: Seq<u8>,
    word: Seq<u8>,
    head: Seq<u8>,
    attrs: Seq<Attr>,
    filler: Seq<u8>,
    after: Seq<u8>,
)
    requires
        is_declared(word, head, attrs, filler),
        word.len() == 5,
        word[0] == '<' as u8,
        forall|i: int| 1 <= i < 5 ==> #[trigger] word[i] >= 0x41,
        all_closed(before, opening_of(head + seq![0x20u8], word + seq![0x20u8])),
    ensures
        tags(
            before + tag_of(head, attrs, filler) + after,
            opening_of(head + seq![0x20u8], word + seq![0x20u8]),
        ).contains(tag_of(head, attrs, filler)),
{
    let tag = tag_of(head, attrs, filler);
    let spelled = head + seq![0x20u8];
    let text = word + seq![0x20u8];
    let scan = opening_of(spelled, text);
    assert forall|i: int| 0 <= i < 5 implies (i == 0 ==> #[trigger] head[i] == '<' as u8) && (i > 0
        ==> head[i] >= 0x41) by {
        assert(ascii_lower(head[i]) == ascii_lower(word[i]));
        if i > 0 {
            assert(word[i] >= 0x41);
        }
    }
    assert(is_unmarked(head));
    lemma_declared_end(before, word, head, attrs, filler, after);
    assert(attrs[0].is_sound());
    assert(attrs_bytes(attrs)[0] == attrs[0].space[0]);
    assert(tag.subrange(0, 6) =~= spelled);
    assert(eq_ascii_nocase(spelled, text)) by {
        assert forall|i: int| 0 <= i < 6 implies ascii_lower(#[trigger] spelled[i]) == ascii_lower(
            text[i],
        ) by {
            if i < 5 {
                assert(ascii_lower(head[i]) == ascii_lower(word[i]));
            }
        }
    }
    assert(opens_at(tag, scan, 0));
    assert forall|i: int| 1 <= i < scan.text().len() implies #[trigger] scan.text()[i]
        != '<' as u8 by {
        if i < 5 {
            assert(head[i] >= 0x41 && word[i] >= 0x41);
        }
    }
    assert(scan.text()[0] == '<' as u8) by {
        assert(head[0] == '<' as u8);
    }
    crate::page_laws::lemma_scan_reaches(before, scan, tag, after, 0);
}

/// A favicon that a page declares in a `<link>` tag is listed: attributes in
/// any order, quoted or not, with others before, between and behind them, and
/// the tag spelled in any case. Of several attributes with one name the first
/// counts. Tags that are scanned earlier in the same pass must be closed.
pub proof fn link_with_any_attributes_is_listed(
    before: Seq<u8>,
    head: Seq<u8>,
    attrs: Seq<Attr>,
    filler: Seq<u8>,
    after: Seq<u8>,
    page: Seq<char>,
    r: int,
    h: int,
)
    requires
        is_declared(ascii("<link"@), head, attrs, filler),
        all_closed(before, opening_of(head + seq![0x20u8], ascii("<link "@))),
        0 <= r < attrs.len(),
        attrs[r].gives(ascii("rel"@)),
        forall|j: int| 0 <= j < r ==> !(#[trigger] attrs[j]).gives(ascii("rel"@)),
        eq_ascii_nocase(attrs[r].value, ascii("icon"@)) || eq_ascii_nocase(
            attrs[r].value,
            ascii("shortcut icon"@),
        ) || eq_ascii_nocase(attrs[r].value, ascii("mask-icon"@)) || eq_ascii_nocase(
            attrs[r].value,
            ascii("apple-touch-icon"@),
        ),
        0 <= h < attrs.len(),
        attrs[h].gives(ascii("href"@)),
        forall|j: int| 0 <= j < h ==> !(#[trigger] attrs[j]).gives(ascii("href"@)),
    ensures
        ({
            let body = before + tag_of(head, attrs, filler) + after;
            &&& page_values(body).contains(attrs[h].value)
            &&& forall|url: Seq<char>| #[trigger]
                refers_to_url(attrs[h].value, page, url) ==> page_favicons(
                    body,
                    page,
                ).urls.contains(url)
            &&& forall|data: Seq<u8>| #[trigger]
                holds_inline(attrs[h].value, data) ==> page_favicons(
                    body,
                    page,
                ).inline_favicons.contains(data)
        }),
{
    reveal_strlit("<link");
    reveal_strlit("<link ");
    reveal_strlit("rel");
    reveal_strlit("href");
    let word = ascii("<link"@);
    let text = ascii("<link "@);
    assert(text =~= word + seq![0x20u8]);
    let tag = tag_of(head, attrs, filler);
    let body = before + tag + after;
    let spelled = head + seq![0x20u8];
    let scan = opening_of(spelled, text);
    lemma_declared_is_scanned(before, word, head, attrs, filler, after);
    let tail = filler + seq!['>' as u8];
    assert(is_one_word(ascii("rel"@)) && is_one_word(ascii("href"@)));
    crate::attribute_laws::attribute_is_the_first_with_its_name(
        head,
        attrs,
        tail,
        ascii("rel"@),
        r,
    );
    crate::attribute_laws::attribute_is_the_first_with_its_name(
        head,
        attrs,
        tail,
        ascii("href"@),
        h,
    );
    assert(link_value(tag) == Some(attrs[h].value));
    let k = choose|k: int| 0 <= k < tags(body, scan).len() && tags(body, scan)[k] == tag;
    lemma_spelled(head, word, text);
    crate::page_laws::every_spelling_is_looked_for(spelled);
    crate::page_laws::every_link_counts(body, scan, k);
    crate::page_laws::lemma_listed_value(body, page, attrs[h].value);
}

/// A favicon that a page declares in a `<meta>` tag is listed: attributes in
/// any order, quoted or not, with others before, between and behind them, and
/// the tag spelled in any case. Of several attributes with one name the first
/// counts. Tags that are scanned earlier in the same pass must be closed.
pub proof fn meta_with_any_attributes_is_listed(
    before: Seq<u8>,
    head: Seq<u8>,
    attrs: Seq<Attr>,
    filler: Seq<u8>,
    after: Seq<u8>,
    page: Seq<char>,
    n: int,
    c: int,
)
    requires
        is_declared(ascii("<meta"@), head, attrs, filler),
        all_closed(before, opening_of(head + seq![0x20u8], ascii("<meta "@))),
        0 <= n < attrs.len(),
        attrs[n].gives(ascii("name"@)),
        forall|j: int| 0 <= j < n ==> !(#[trigger] attrs[j]).gives(ascii("name"@)),
        eq_ascii_nocase(attrs[n].value, ascii("msapplication-TileImage"@)),
        0 <= c < attrs.len(),
        attrs[c].gives(ascii("content"@)),
        forall|j: int| 0 <= j < c ==> !(#[trigger] attrs[j]).gives(ascii("content"@)),
    ensures
        ({
            let body = before + tag_of(head, attrs, filler) + after;
            &&& page_values(body).contains(attrs[c].value)
            &&& forall|url: Seq<char>| #[trigger]
                refers_to_url(attrs[c].value, page, url) ==> page_favicons(
                    body,
                    page,
                ).urls.contains(url)
            &&& forall|data: Seq<u8>| #[trigger]
                holds_inline(attrs[c].value, data) ==> page_favicons(
                    body,
                    page,
                ).inline_favicons.contains(data)
        }),
{
    reveal_strlit("<meta");
    reveal_strlit("<meta ");
    reveal_strlit("name");
    reveal_strlit("content");
    let word = ascii("<meta"@);
    let text = ascii("<meta "@);
    assert(text =~= word + seq![0x20u8]);
    let tag = tag_of(head, attrs, filler);
    let body = before + tag + after;
    let spelled = head + seq![0x20u8];
    let scan = opening_of(spelled, text);
    lemma_declared_is_scanned(before, word, head, attrs, filler, after);
    let tail = filler + seq!['>' as u8];
    assert(is_one_word(ascii("name"@)) && is_one_word(ascii("content"@)));
    crate::attribute_laws::attribute_is_the_first_with_its_name(
        head,
        attrs,
        tail,
        ascii("name"@),
        n,
    );
    crate::attribute_laws::attribute_is_the_first_with_its_name(
        head,
        attrs,
        tail,
        ascii("content"@),
        c,
    );
    assert(meta_value(tag) == Some(attrs[c].value));
    let k = choose|k: int| 0 <= k < tags(body, scan).len() && tags(body, scan)[k] == tag;
    lemma_spelled(head, word, text);
    crate::page_laws::every_spelling_is_looked_for(spelled);
    crate::page_laws::every_meta_counts(body, scan, k);
    crate::page_laws::lemma_listed_value(body, page, attrs[c].value);
}

proof fn lemma_spelled(head: Seq<u8>, word: Seq<u8>, text: Seq<u8>)
    requires
        eq_ascii_nocase(head, word),
        text == word + seq![0x20u8],
    ensures
        eq_ascii_nocase(head + seq![0x20u8], text),
{
    let spelled = head + seq![0x20u8];
    assert forall|i: int| 0 <= i < spelled.len() implies ascii_lower(#[trigger] spelled[i])
        == ascii_lower(text[i]) by {
        if i < head.len() {
            assert(ascii_lower(head[i]) == ascii_lower(word[i]));
        }
    }
}

} // verus!

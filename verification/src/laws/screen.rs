//! What holds of what the terminal shows.

use vstd::prelude::*;
use vstd::utf8::{decode_utf8, encode_utf8};

use crate::http::{authority_of, path_of, HeaderSeq};
use crate::laws::text::{decimal_counts_by_tens, numeral, padding_fills_with_spaces};
use crate::text::{lines, pad_right, same_fold};
use crate::transaction::{after_scheme, TransactionView};
use crate::tui::app::{AppView, Focus};
use crate::tui::render::{
    all_wrapped, bar_of, body_block, body_of, chunks, cuts_cleanly, field_line, header_block,
    joined, kind_of, known_content, looks_binary, never_text, pair_line, path_room,
    pieces_join_back, request_block, response_block, response_text, row_duration, row_of, row_path, safe,
    sample_of, scrollbar_for, section_line, split_width, sub_line, text_body, tone_of_method,
    tone_of_status, truncated, unprintable, url_lines, wrap_width, wrapped, LineView, SpanView,
    Tone, Weight,
};

verus! {

// ---------------------------------------------------------------------------
// Characters and pieces of text
// ---------------------------------------------------------------------------

/// Every character is shown as it is, but for control characters: a tab is shown
/// as a space, every other one as a dot.
pub proof fn characters_are_shown_one_for_one(s: Seq<char>, i: int)
    requires
        0 <= i < s.len(),
    ensures
        safe(s).len() == s.len(),
        s[i] == '\t' ==> safe(s)[i] == ' ',
        s[i] != '\t' && (s[i] as u32 <= 31 || 127 <= s[i] as u32 <= 159) ==> safe(s)[i] == '·',
        32 <= s[i] as u32 <= 126 || 160 <= s[i] as u32 ==> safe(s)[i] == s[i],
{
    assert('\t' as u32 == 9);
}

/// A text is split after every `width` characters, so that its pieces join to the
/// text; a text that fits is one piece.
pub proof fn texts_are_split_by_width(a: Seq<char>, b: Seq<char>, width: nat)
    requires
        width > 0,
    ensures
        a.len() <= width ==> chunks(a, width) == seq![a],
        a.len() == width && b.len() > 0 ==> chunks(a + b, width) == seq![a] + chunks(b, width),
        split_width(width as int) == width,
        split_width(0) == 20,
        joined(Seq::empty()) == Seq::<char>::empty(),
        joined(seq![a] + chunks(b, width)) == a + joined(chunks(b, width)),
        joined(chunks(b, width)) == b,
{
    if a.len() == width && b.len() > 0 {
        assert((a + b).take(width as int) =~= a);
        assert((a + b).skip(width as int) =~= b);
    }
    let all = seq![a] + chunks(b, width);
    assert(all[0] == a);
    assert(all.skip(1) =~= chunks(b, width));
    pieces_join_back(b, width);
}

/// A text that is too long is cut one character short of the limit and ends in an
/// ellipsis; any other is left as it is.
pub proof fn long_texts_end_in_an_ellipsis(s: Seq<char>, max: nat)
    ensures
        s.len() <= max || max == 0 ==> truncated(s, max) == s,
        s.len() > max && max > 0 ==> truncated(s, max) == s.take(max - 1) + seq!['…'],
{
    if s.len() > max && max > 0 {
        assert(truncated(s, max) =~= s.take(max - 1) + seq!['…']);
    }
}

// ---------------------------------------------------------------------------
// Colours
// ---------------------------------------------------------------------------

/// Colours tell methods and classes of status apart.
pub proof fn colours_tell_kinds_apart(method: Seq<char>, status: u16)
    ensures
        tone_of_method(method) == Tone::MethodGet <==> same_fold(method, "GET"@),
        tone_of_method(method) == Tone::MethodPost <==> same_fold(method, "POST"@),
        tone_of_method(method) == Tone::MethodPut <==> same_fold(method, "PUT"@) || same_fold(
            method,
            "PATCH"@,
        ),
        tone_of_method(method) == Tone::MethodDelete <==> same_fold(method, "DELETE"@),
        tone_of_method(method) == Tone::MethodOther <==> !same_fold(method, "GET"@) && !same_fold(
            method,
            "POST"@,
        ) && !same_fold(method, "PUT"@) && !same_fold(method, "PATCH"@) && !same_fold(
            method,
            "DELETE"@,
        ),
        tone_of_status(status) == Tone::StatusSuccess <==> 200 <= status <= 299,
        tone_of_status(status) == Tone::StatusRedirect <==> 300 <= status <= 399,
        tone_of_status(status) == Tone::StatusClientError <==> 400 <= status <= 499,
        tone_of_status(status) == Tone::StatusServerError <==> 500 <= status <= 599,
        tone_of_status(status) == Tone::StatusPending <==> status < 200 || 600 <= status,
{
    reveal_strlit("GET");
    reveal_strlit("POST");
    reveal_strlit("PUT");
    reveal_strlit("PATCH");
    reveal_strlit("DELETE");
    let (a, b, c, d, e) = (
        crate::text::lower("GET"@),
        crate::text::lower("POST"@),
        crate::text::lower("PUT"@),
        crate::text::lower("PATCH"@),
        crate::text::lower("DELETE"@),
    );
    assert(a[0] == 'g' && c[0] == 'p');
    assert(a.len() == 3 && b.len() == 4 && c.len() == 3 && d.len() == 5 && e.len() == 6);
}

/// Success is green, redirection blue, an error of the client yellow and one of
/// the server red, as the methods that they resemble; no text has the colour of
/// what it stands on.
pub proof fn colours_can_be_read()
    ensures
        Tone::StatusSuccess.channels() == (143u8, 220u8, 151u8),
        Tone::StatusRedirect.channels() == (100u8, 180u8, 255u8),
        Tone::StatusClientError.channels() == (255u8, 200u8, 80u8),
        Tone::StatusServerError.channels() == (255u8, 100u8, 100u8),
        Tone::MethodGet.channels() == Tone::StatusSuccess.channels(),
        Tone::MethodPost.channels() == Tone::StatusRedirect.channels(),
        Tone::MethodPut.channels() == Tone::StatusClientError.channels(),
        Tone::MethodDelete.channels() == Tone::StatusServerError.channels(),
        Tone::MethodOther.channels() == (200u8, 120u8, 255u8),
        Tone::StatusPending.channels() == (130u8, 130u8, 130u8),
        Tone::Key.channels() == (130u8, 130u8, 130u8),
        Tone::HeaderName.channels() == (150u8, 150u8, 150u8),
        Tone::Text.channels() == (220u8, 220u8, 220u8),
        Tone::Dim.channels() == (110u8, 110u8, 110u8),
        Tone::Background.channels() == (10u8, 10u8, 10u8),
        Tone::Border.channels() == (40u8, 40u8, 40u8),
        Tone::BorderFocus.channels() == (200u8, 200u8, 200u8),
        Tone::SelectedBackground.channels() == (45u8, 45u8, 45u8),
        Tone::SelectedText.channels() == (255u8, 255u8, 255u8),
{
}

// ---------------------------------------------------------------------------
// Lines
// ---------------------------------------------------------------------------

/// A title is one span; a key stands in a column of ten characters before its
/// value, of which every character is shown.
pub proof fn titles_and_pairs_are_shown(key: Seq<char>, value: Seq<char>, tone: Tone)
    ensures
        section_line(key) == seq![
            SpanView { text: key, fg: Tone::BorderFocus, bg: None, weight: Weight::Bold },
        ],
        sub_line(key) == seq![
            SpanView { text: key, fg: Tone::Dim, bg: None, weight: Weight::Plain },
        ],
        pair_line(key, value, tone).len() == 2,
        pair_line(key, value, tone)[1] == (SpanView {
            text: safe(value),
            fg: tone,
            bg: None,
            weight: Weight::Plain,
        }),
        ({
            let name = pair_line(key, value, tone)[0];
            &&& name.fg == Tone::Key && name.bg is None && name.weight == Weight::Plain
            &&& name.text.take(key.len() as int) == key
            &&& name.text.len() == if key.len() < 10 {
                10
            } else {
                key.len()
            }
            &&& forall|i: int| key.len() <= i < name.text.len() ==> (#[trigger] name.text[i]) == ' '
        }),
{
    padding_fills_with_spaces(key, 10);
}

/// A header field is one line: its name in a column of twenty-six characters and
/// its value in what is left of the panel, but no less than ten. Each is shown
/// whole if it fits and is else cut.
pub proof fn fields_are_shown_on_one_line(name: Seq<char>, value: Seq<char>, width: int)
    ensures
        ({
            let line = field_line(name, value, width);
            let (n, v) = (safe(name), safe(value));
            let room = if width - 27 < 10 {
                10
            } else {
                width - 27
            };
            &&& line.len() == 2
            &&& line[0].fg == Tone::HeaderName && line[0].bg is None && line[0].weight
                == Weight::Plain
            &&& line[1].fg == Tone::Text && line[1].bg is None && line[1].weight == Weight::Plain
            &&& line[0].text.len() == 26
            &&& n.len() <= 26 ==> line[0].text.take(n.len() as int) == n && forall|i: int|
                n.len() <= i < 26 ==> (#[trigger] line[0].text[i]) == ' '
            &&& n.len() > 26 ==> line[0].text == n.take(25) + seq!['…']
            &&& v.len() <= room ==> line[1].text == v
            &&& v.len() > room ==> line[1].text == v.take(room - 1) + seq!['…']
        }),
{
    let (n, v) = (safe(name), safe(value));
    let room = if width - 27 < 10 {
        10
    } else {
        width - 27
    };
    long_texts_end_in_an_ellipsis(n, 26);
    long_texts_end_in_an_ellipsis(v, room as nat);
    padding_fills_with_spaces(truncated(n, 26), 26);
    if n.len() > 26 {
        let cut = truncated(n, 26);
        assert(cut.len() == 26);
        assert(pad_right(cut, 26) =~= cut);
    }
}

// ---------------------------------------------------------------------------
// Bodies
// ---------------------------------------------------------------------------

/// A body looks binary if it holds a zero byte anywhere, or if more than one in
/// twenty of its first 512 bytes is a control character other than the tab, the
/// line ends and what stands between them.
pub proof fn binary_is_told_by_control_bytes(data: Seq<u8>)
    ensures
        data.contains(0u8) ==> looks_binary(data),
        !data.contains(0u8) && data.len() <= 512 ==> (looks_binary(data) <==> data.filter(
            |b: u8| b < 9 || 13 < b < 32 || b == 127,
        ).len() * 20 > data.len()),
        !data.contains(0u8) && data.len() > 512 ==> (looks_binary(data) <==> looks_binary(
            data.take(512),
        )),
{
    let odd = |b: u8| unprintable(b);
    let same = |b: u8| b < 9 || 13 < b < 32 || b == 127;
    assert(sample_of(data).filter(odd).len() == sample_of(data).filter(same).len()) by {
        lemma_bytes_same(sample_of(data), odd, same);
    }
    if data.len() <= 512 {
        if data.len() == 512 {
            assert(data.take(512) =~= data);
        }
    } else if !data.contains(0u8) {
        let first = data.take(512);
        assert(!first.contains(0u8)) by {
            if first.contains(0u8) {
                let k = choose|k: int| 0 <= k < first.len() && first[k] == 0u8;
                assert(data[k] == 0u8);
            }
        }
        assert(first.take(512) =~= first);
    }
}

proof fn lemma_bytes_same(s: Seq<u8>, p: spec_fn(u8) -> bool, q: spec_fn(u8) -> bool)
    requires
        forall|b: u8| #[trigger] p(b) == q(b),
    ensures
        s.filter(p) == s.filter(q),
    decreases s.len(),
{
    reveal(Seq::filter);
    if s.len() > 0 {
        lemma_bytes_same(s.drop_last(), p, q);
        assert(p(s.last()) == q(s.last()));
    }
    assert(s.filter(p) =~= s.filter(q));
}

/// Whether these are the first bytes of `data`.
pub open spec fn first_bytes(data: Seq<u8>, magic: Seq<u8>) -> bool {
    magic.len() <= data.len() && forall|i: int| 0 <= i < magic.len() ==> data[i] == #[trigger] magic[i]
}

proof fn lemma_begins(data: Seq<u8>, magic: Seq<u8>)
    ensures
        crate::tui::render::begins(data, magic) <==> first_bytes(data, magic),
{
    if crate::tui::render::begins(data, magic) {
        assert forall|i: int| 0 <= i < magic.len() implies data[i] == #[trigger] magic[i] by {
            assert(data.take(magic.len() as int)[i] == magic[i]);
        }
    }
    if first_bytes(data, magic) {
        assert(data.take(magic.len() as int) =~= magic);
    }
}

/// The kind of a binary body is told by its first bytes.
pub proof fn kinds_are_told_by_first_bytes(data: Seq<u8>)
    ensures
        first_bytes(data, seq![0x89u8, 0x50u8, 0x4eu8, 0x47u8]) ==> kind_of(data) == "image/png"@,
        first_bytes(data, seq![0xffu8, 0xd8u8, 0xffu8]) ==> kind_of(data) == "image/jpeg"@,
        first_bytes(data, seq![0x47u8, 0x49u8, 0x46u8]) ==> kind_of(data) == "image/gif"@,
        first_bytes(data, seq![0x52u8, 0x49u8, 0x46u8, 0x46u8]) ==> kind_of(data)
            == "image/webp"@,
        first_bytes(data, seq![0x1fu8, 0x8bu8]) ==> kind_of(data) == "application/gzip"@,
        first_bytes(data, seq![0x50u8, 0x4bu8, 0x03u8, 0x04u8]) ==> kind_of(data)
            == "application/zip"@,
        first_bytes(data, seq![0x25u8, 0x50u8, 0x44u8, 0x46u8]) ==> kind_of(data)
            == "application/pdf"@,
        !first_bytes(data, seq![0x89u8, 0x50u8, 0x4eu8, 0x47u8]) && !first_bytes(
            data,
            seq![0xffu8, 0xd8u8, 0xffu8],
        ) && !first_bytes(data, seq![0x47u8, 0x49u8, 0x46u8]) && !first_bytes(
            data,
            seq![0x52u8, 0x49u8, 0x46u8, 0x46u8],
        ) && !first_bytes(data, seq![0x1fu8, 0x8bu8]) && !first_bytes(
            data,
            seq![0x50u8, 0x4bu8, 0x03u8, 0x04u8],
        ) && !first_bytes(data, seq![0x25u8, 0x50u8, 0x44u8, 0x46u8]) ==> kind_of(data)
            == "binary"@,
{
    let png = seq![0x89u8, 0x50u8, 0x4eu8, 0x47u8];
    let jpeg = seq![0xffu8, 0xd8u8, 0xffu8];
    let gif = seq![0x47u8, 0x49u8, 0x46u8];
    let riff = seq![0x52u8, 0x49u8, 0x46u8, 0x46u8];
    let gzip = seq![0x1fu8, 0x8bu8];
    let zip = seq![0x50u8, 0x4bu8, 0x03u8, 0x04u8];
    let pdf = seq![0x25u8, 0x50u8, 0x44u8, 0x46u8];
    lemma_begins(data, png);
    lemma_begins(data, jpeg);
    lemma_begins(data, gif);
    lemma_begins(data, riff);
    lemma_begins(data, gzip);
    lemma_begins(data, zip);
    lemma_begins(data, pdf);
    assert(png[0] == 0x89 && jpeg[0] == 0xff && gif[0] == 0x47 && riff[0] == 0x52);
    assert(gzip[0] == 0x1f && zip[0] == 0x50 && pdf[0] == 0x25);
}

/// Images, archives and documents are told by their first bytes, and are then
/// never shown as text.
pub proof fn known_content_is_told_by_first_bytes(data: Seq<u8>)
    ensures
        known_content(data) <==> {
            ||| first_bytes(data, seq![0x89u8, 0x50u8, 0x4eu8, 0x47u8])
            ||| first_bytes(data, seq![0xffu8, 0xd8u8, 0xffu8])
            ||| first_bytes(data, seq![0x47u8, 0x49u8, 0x46u8, 0x38u8, 0x37u8, 0x61u8])
            ||| first_bytes(data, seq![0x47u8, 0x49u8, 0x46u8, 0x38u8, 0x39u8, 0x61u8])
            ||| first_bytes(data, seq![0x52u8, 0x49u8, 0x46u8, 0x46u8]) && data.len() >= 12
                && data[8] == 0x57 && data[9] == 0x45 && data[10] == 0x42 && data[11] == 0x50
            ||| first_bytes(data, seq![0x1fu8, 0x8bu8])
            ||| first_bytes(data, seq![0x50u8, 0x4bu8, 0x03u8, 0x04u8])
            ||| first_bytes(data, seq![0x25u8, 0x50u8, 0x44u8, 0x46u8, 0x2du8])
        },
        never_text(data) <==> looks_binary(data) || known_content(data),
{
    lemma_begins(data, seq![0x89u8, 0x50u8, 0x4eu8, 0x47u8]);
    lemma_begins(data, seq![0xffu8, 0xd8u8, 0xffu8]);
    lemma_begins(data, seq![0x47u8, 0x49u8, 0x46u8, 0x38u8, 0x37u8, 0x61u8]);
    lemma_begins(data, seq![0x47u8, 0x49u8, 0x46u8, 0x38u8, 0x39u8, 0x61u8]);
    lemma_begins(data, seq![0x52u8, 0x49u8, 0x46u8, 0x46u8]);
    lemma_begins(data, seq![0x1fu8, 0x8bu8]);
    lemma_begins(data, seq![0x50u8, 0x4bu8, 0x03u8, 0x04u8]);
    lemma_begins(data, seq![0x25u8, 0x50u8, 0x44u8, 0x46u8, 0x2du8]);
    if data.len() >= 12 {
        let webp = seq![0x57u8, 0x45u8, 0x42u8, 0x50u8];
        let there = data.subrange(8, 12);
        assert(webp[0] == 0x57 && webp[1] == 0x45 && webp[2] == 0x42 && webp[3] == 0x50);
        assert(there[0] == data[8] && there[1] == data[9]);
        assert(there[2] == data[10] && there[3] == data[11]);
        if data[8] == 0x57 && data[9] == 0x45 && data[10] == 0x42 && data[11] == 0x50 {
            assert(there =~= webp);
        }
    }
}

/// The texts of the spans of lines, one after the other.
pub open spec fn text_of_lines(shown: Seq<LineView>) -> Seq<char>
    decreases shown.len(),
{
    if shown.len() == 0 {
        seq![]
    } else {
        (if shown[0].len() == 0 {
            seq![]
        } else {
            shown[0][0].text
        }) + text_of_lines(shown.skip(1))
    }
}

proof fn lemma_pieces_text(pieces: Seq<Seq<char>>)
    ensures
        text_of_lines(
            pieces.map_values(
                |c: Seq<char>|
                    seq![SpanView { text: c, fg: Tone::Text, bg: None, weight: Weight::Plain }],
            ),
        ) == joined(pieces),
    decreases pieces.len(),
{
    let f = |c: Seq<char>|
        seq![SpanView { text: c, fg: Tone::Text, bg: None, weight: Weight::Plain }];
    let shown = pieces.map_values(f);
    if pieces.len() > 0 {
        lemma_pieces_text(pieces.skip(1));
        assert(shown.skip(1) =~= pieces.skip(1).map_values(f));
        assert(shown[0] == f(pieces[0]));
    }
}

/// A line of a body is shown whole, on as many lines as it needs: each is one
/// plain span, all but the last are as long as there is room, and together they
/// read as the line does. An empty line is shown as one.
pub proof fn lines_of_a_body_are_shown_whole(line: Seq<char>, wrap: nat)
    requires
        wrap > 0,
    ensures
        line.len() == 0 ==> wrapped(line, wrap) == seq![LineView::empty()],
        text_of_lines(wrapped(line, wrap)) == safe(line),
        line.len() > 0 ==> forall|i: int|
            0 <= i < wrapped(line, wrap).len() ==> {
                let shown = #[trigger] wrapped(line, wrap)[i];
                &&& shown.len() == 1
                &&& shown[0].fg == Tone::Text && shown[0].bg is None && shown[0].weight
                    == Weight::Plain
                &&& shown[0].text.len() <= wrap
                &&& i < wrapped(line, wrap).len() - 1 ==> shown[0].text.len() == wrap
            },
{
    let shown = wrapped(line, wrap);
    if line.len() == 0 {
        assert(shown.skip(1) =~= Seq::empty());
        reveal_with_fuel(text_of_lines, 2);
        assert(text_of_lines(shown) =~= Seq::<char>::empty());
        assert(safe(line) =~= Seq::<char>::empty());
    } else {
        let pieces = chunks(safe(line), wrap);
        pieces_join_back(safe(line), wrap);
        lemma_pieces_text(pieces);
        assert(shown =~= pieces.map_values(
            |c: Seq<char>|
                seq![SpanView { text: c, fg: Tone::Text, bg: None, weight: Weight::Plain }],
        ));
        assert forall|i: int| 0 <= i < shown.len() implies {
            let one = #[trigger] shown[i];
            &&& one.len() == 1
            &&& one[0].fg == Tone::Text && one[0].bg is None && one[0].weight == Weight::Plain
            &&& one[0].text.len() <= wrap
            &&& i < shown.len() - 1 ==> one[0].text.len() == wrap
        } by {
            assert(shown[i][0].text == pieces[i]);
        }
    }
}

/// Lines of a body are shown one after the other.
pub proof fn bodies_are_shown_line_by_line(
    a: Seq<Seq<char>>,
    b: Seq<Seq<char>>,
    line: Seq<char>,
    wrap: nat,
)
    ensures
        all_wrapped(Seq::empty(), wrap) == Seq::<LineView>::empty(),
        all_wrapped(seq![line], wrap) == wrapped(line, wrap),
        all_wrapped(a + b, wrap) == all_wrapped(a, wrap) + all_wrapped(b, wrap),
    decreases b.len(),
{
    let one = seq![line];
    assert(one.drop_last() =~= Seq::empty());
    assert(one.last() == line);
    assert(all_wrapped(one.drop_last(), wrap) =~= Seq::<LineView>::empty());
    assert(all_wrapped(one, wrap) =~= wrapped(line, wrap));
    if b.len() == 0 {
        assert(a + b =~= a);
        assert(all_wrapped(a, wrap) + all_wrapped(b, wrap) =~= all_wrapped(a, wrap));
    } else {
        assert((a + b).drop_last() =~= a + b.drop_last());
        assert((a + b).last() == b.last());
        bodies_are_shown_line_by_line(a, b.drop_last(), line, wrap);
        assert(all_wrapped(a + b, wrap) =~= all_wrapped(a, wrap) + all_wrapped(b, wrap));
    }
}

/// A body of text is shown in its lines, wrapped two columns short of the panel
/// but to no less than 40 and no more than 200; from the three hundred and first
/// line on they are only counted. A body of other content is named and measured,
/// and never shown.
pub proof fn bodies_are_shown_or_named(body: Seq<u8>, text: Seq<char>, width: int)
    ensures
        width <= 42 ==> wrap_width(width) == 40,
        42 <= width <= 202 ==> wrap_width(width) == width - 2,
        width >= 202 ==> wrap_width(width) == 200,
        !never_text(body) && 0 < lines(text).len() <= 300 ==> body_of(body, text, width)
            == all_wrapped(lines(text), wrap_width(width)),
        !never_text(body) && lines(text).len() > 300 ==> {
            let shown = all_wrapped(lines(text).take(300), wrap_width(width));
            &&& body_of(body, text, width).len() == shown.len() + 1
            &&& body_of(body, text, width).take(shown.len() as int) == shown
            &&& body_of(body, text, width).last() == seq![
                SpanView {
                    text: "… "@ + numeral((lines(text).len() - 300) as nat, 10, false)
                        + " more lines — scroll or use `hermes replay` to view full body"@,
                    fg: Tone::Dim,
                    bg: None,
                    weight: Weight::Italic,
                },
            ]
        },
        !never_text(body) && lines(text).len() == 0 ==> body_of(body, text, width) == seq![
            seq![
                SpanView {
                    text: "(empty body)"@,
                    fg: Tone::Dim,
                    bg: None,
                    weight: Weight::Italic,
                },
            ],
        ],
        never_text(body) ==> body_of(body, text, width) == seq![
            seq![
                SpanView {
                    text: "("@ + kind_of(body) + " — "@ + numeral(body.len(), 10, false)
                        + " bytes, not rendered)"@,
                    fg: Tone::Dim,
                    bg: None,
                    weight: Weight::Italic,
                },
            ],
        ],
{
    decimal_counts_by_tens(body.len());
    if lines(text).len() > 300 {
        decimal_counts_by_tens((lines(text).len() - 300) as nat);
        if !never_text(body) {
            let shown = all_wrapped(lines(text).take(300), wrap_width(width));
            assert(body_of(body, text, width).take(shown.len() as int) =~= shown);
        }
    }
}

// ---------------------------------------------------------------------------
// The detail panel
// ---------------------------------------------------------------------------

/// Fields are shown under a title, one line each, in order, with an empty line
/// after them; without fields there is no title. A body is shown under a title,
/// if there is one.
pub proof fn fields_and_bodies_have_titles(
    headers: HeaderSeq,
    body: Seq<u8>,
    text: Seq<char>,
    width: int,
)
    ensures
        headers.len() == 0 ==> header_block(headers, width) == Seq::<LineView>::empty(),
        headers.len() > 0 ==> {
            let block = header_block(headers, width);
            &&& block.len() == headers.len() + 2
            &&& block[0] == sub_line("Headers"@)
            &&& forall|i: int|
                0 <= i < headers.len() ==> #[trigger] block[i + 1] == field_line(
                    headers[i].0,
                    headers[i].1,
                    width,
                )
            &&& block.last() == LineView::empty()
        },
        body.len() == 0 ==> body_block(body, text, width) == Seq::<LineView>::empty(),
        body.len() > 0 ==> {
            let block = body_block(body, text, width);
            &&& block.len() == body_of(body, text, width).len() + 1
            &&& block[0] == sub_line("Body"@)
            &&& block.skip(1) == body_of(body, text, width)
        },
{
    if headers.len() > 0 {
        let block = header_block(headers, width);
        let rows = headers.map_values(|h: (Seq<char>, Seq<char>)| field_line(h.0, h.1, width));
        assert forall|i: int| 0 <= i < headers.len() implies #[trigger] block[i + 1] == field_line(
            headers[i].0,
            headers[i].1,
            width,
        ) by {
            assert(block[i + 1] == rows[i]);
        }
    }
    if body.len() > 0 {
        assert(body_block(body, text, width).skip(1) =~= body_of(body, text, width));
    }
}

/// How many lines stand before the fields of a response.
pub open spec fn before_fields(tx: TransactionView) -> int {
    if tx.duration_ms is Some {
        4
    } else {
        3
    }
}

/// How many lines fields take.
pub open spec fn field_count(headers: HeaderSeq) -> int {
    if headers.len() == 0 {
        0
    } else {
        headers.len() as int + 2
    }
}

/// A response is shown with its status, its duration if that is known, and a line
/// for every field. Whatever the status is, a response with a body is shown with
/// it: the lines end in the title of the body and the lines that show it. Until a
/// response comes, it is called pending.
pub proof fn responses_are_shown_whole(tx: TransactionView, text: Seq<char>, width: int)
    ensures
        ({
            let all = response_block(tx, text, width);
            &&& all[0] == section_line("RESPONSE"@)
            &&& tx.response is None ==> all.len() == 2 && all[1] == seq![
                SpanView {
                    text: "pending…"@,
                    fg: Tone::StatusPending,
                    bg: None,
                    weight: Weight::Italic,
                },
            ]
            &&& tx.response matches Some(response) ==> {
                let shown = body_of(response.body, text, width);
                let at = before_fields(tx);
                let end = at + field_count(response.headers);
                &&& all[1] == pair_line(
                    "Status"@,
                    numeral(response.status as nat, 10, false),
                    tone_of_status(response.status),
                )
                &&& tx.duration_ms matches Some(ms) ==> all[2] == pair_line(
                    "Duration"@,
                    numeral(ms as nat, 10, false) + " ms"@,
                    Tone::Dim,
                )
                &&& all[at - 1] == LineView::empty()
                &&& response.headers.len() > 0 ==> all[at] == sub_line("Headers"@) && all[end - 1]
                    == LineView::empty()
                &&& forall|i: int|
                    0 <= i < response.headers.len() ==> #[trigger] all[at + 1 + i] == field_line(
                        response.headers[i].0,
                        response.headers[i].1,
                        width,
                    )
                &&& response.body.len() > 0 ==> {
                    &&& all.len() == end + 1 + shown.len()
                    &&& all[end] == sub_line("Body"@)
                    &&& all.skip(end + 1) == shown
                }
                &&& response.body.len() == 0 ==> all.len() == end
            }
        }),
{
    if let Some(response) = tx.response {
        let all = response_block(tx, text, width);
        let shown = body_of(response.body, text, width);
        let at = before_fields(tx);
        let end = at + field_count(response.headers);
        let fields = header_block(response.headers, width);
        let body = body_block(response.body, text, width);
        decimal_counts_by_tens(response.status as nat);
        if let Some(ms) = tx.duration_ms {
            decimal_counts_by_tens(ms as nat);
        }
        fields_and_bodies_have_titles(response.headers, response.body, text, width);
        assert(all.len() == at + fields.len() + body.len());
        assert(all.skip(at).take(fields.len() as int) =~= fields);
        assert(all.skip(end) =~= body);
        assert forall|i: int| 0 <= i < response.headers.len() implies #[trigger] all[at + 1 + i]
            == field_line(response.headers[i].0, response.headers[i].1, width) by {
            assert(all.skip(at).take(fields.len() as int)[i + 1] == fields[i + 1]);
        }
        if response.headers.len() > 0 {
            assert(all.skip(at).take(fields.len() as int)[0] == fields[0]);
            assert(all.skip(at).take(fields.len() as int)[fields.len() - 1] == fields.last());
        }
        if response.body.len() > 0 {
            assert(all.skip(end)[0] == body[0]);
            assert(all.skip(end + 1) =~= body.skip(1));
        }
    }
}

/// The text that is shown for the body of a response is that of the body itself.
pub proof fn bodies_are_shown_as_their_own_text(tx: TransactionView)
    ensures
        tx.response matches Some(response) ==> response_text(tx) == crate::text::lossy_text(
            response.body,
        ),
        tx.response is None ==> response_text(tx) == Seq::<char>::empty(),
{
}

/// A request is shown with its method, its URL on as many lines as it needs, a
/// line for every field and, if it has a body, that body and an empty line.
pub proof fn requests_are_shown_whole(tx: TransactionView, text: Seq<char>, width: int)
    ensures
        ({
            let all = request_block(tx, text, width);
            let request = tx.request;
            let urls = url_lines(request.url, width);
            let shown = body_of(request.body, text, width);
            let at = urls.len() as int + 3;
            let end = at + field_count(request.headers);
            &&& all[0] == section_line("REQUEST"@)
            &&& all[1] == pair_line("Method"@, request.method, tone_of_method(request.method))
            &&& all.subrange(2, at - 1) == urls
            &&& all[at - 1] == LineView::empty()
            &&& request.headers.len() > 0 ==> all[at] == sub_line("Headers"@) && all[end - 1]
                == LineView::empty()
            &&& forall|i: int|
                0 <= i < request.headers.len() ==> #[trigger] all[at + 1 + i] == field_line(
                    request.headers[i].0,
                    request.headers[i].1,
                    width,
                )
            &&& request.body.len() > 0 ==> {
                &&& all.len() == end + 2 + shown.len()
                &&& all[end] == sub_line("Body"@)
                &&& all.subrange(end + 1, all.len() - 1) == shown
                &&& all.last() == LineView::empty()
            }
            &&& request.body.len() == 0 ==> all.len() == end
        }),
{
    let all = request_block(tx, text, width);
    let request = tx.request;
    let urls = url_lines(request.url, width);
    let shown = body_of(request.body, text, width);
    let at = urls.len() as int + 3;
    let end = at + field_count(request.headers);
    let fields = header_block(request.headers, width);
    let body = body_block(request.body, text, width);
    fields_and_bodies_have_titles(request.headers, request.body, text, width);
    assert(all.subrange(2, at - 1) =~= urls);
    assert(all.subrange(at, end) =~= fields);
    assert forall|i: int| 0 <= i < request.headers.len() implies #[trigger] all[at + 1 + i]
        == field_line(request.headers[i].0, request.headers[i].1, width) by {
        assert(all.subrange(at, end)[i + 1] == fields[i + 1]);
    }
    if request.headers.len() > 0 {
        assert(all.subrange(at, end)[0] == fields[0]);
        assert(all.subrange(at, end)[fields.len() - 1] == fields.last());
    }
    if request.body.len() > 0 {
        assert(all.subrange(end, all.len() - 1) =~= body);
        assert(all.subrange(end, all.len() - 1)[0] == body[0]);
        assert(all.subrange(end + 1, all.len() - 1) =~= body.skip(1));
    }
}

/// A URL is shown whole: its pieces, one on a line, join to it, and each is as
/// long as the panel has room for beside the key, but no less than twenty
/// characters.
pub proof fn urls_are_shown_whole(url: Seq<char>, width: int, i: int)
    ensures
        ({
            let room = if width - 10 < 20 {
                20
            } else {
                width - 10
            };
            let pieces = chunks(url, room as nat);
            &&& joined(pieces) == url
            &&& url_lines(url, width).len() == pieces.len()
            &&& 0 <= i < pieces.len() ==> url_lines(url, width)[i] == pair_line(
                "URL"@,
                pieces[i],
                Tone::Text,
            )
            &&& 0 <= i < pieces.len() ==> pieces[i].len() <= room
        }),
{
    let room = if width - 10 < 20 {
        20
    } else {
        width - 10
    };
    pieces_join_back(url, room as nat);
}

/// Lines that do not fit the panel have a scrollbar with their number and the
/// position, and lines that fit have none.
pub proof fn scrollbars_stand_where_needed(count: nat, scroll: u16, height: u16)
    ensures
        height < count <= 65535 ==> scrollbar_for(count, scroll, height) == Some(
            (count as usize, scroll as usize),
        ),
        count <= height ==> scrollbar_for(count, scroll, height) is None,
        scrollbar_for(count + 65536, scroll, height) == scrollbar_for(count, scroll, height),
{
    assert((count + 65536) % 65536 == count % 65536) by (nonlinear_arith);
}

// ---------------------------------------------------------------------------
// The list and the status bar
// ---------------------------------------------------------------------------

proof fn lemma_encoded_join(a: Seq<char>, b: Seq<char>)
    ensures
        encode_utf8(a + b) == encode_utf8(a) + encode_utf8(b),
    decreases a.len(),
{
    if a.len() == 0 {
        assert(a + b =~= b);
        assert(encode_utf8(a) + encode_utf8(b) =~= encode_utf8(b));
    } else {
        assert((a + b).drop_first() =~= a.drop_first() + b);
        assert((a + b)[0] == a[0]);
        lemma_encoded_join(a.drop_first(), b);
        assert(encode_utf8(a + b) =~= encode_utf8(a) + encode_utf8(b));
    }
}

/// A row has room for twenty-eight bytes of host and path. A path that fits is
/// shown whole; of any other so much is shown that one byte is left of the room
/// beside the host, and an ellipsis after it.
pub proof fn paths_are_cut_to_the_row(host: Seq<char>, shown: Seq<char>, hidden: Seq<char>)
    ensures
        encode_utf8(host).len() + encode_utf8(shown).len() <= 28 ==> row_path(host, shown) == shown,
        encode_utf8(host).len() + encode_utf8(shown).len() == 27 && encode_utf8(hidden).len() > 1
            ==> row_path(host, shown + hidden) == shown + seq!['…'],
        encode_utf8(host).len() >= 27 && encode_utf8(host).len() + encode_utf8(hidden).len() > 28
            && encode_utf8(hidden).len() > 0 ==> row_path(host, hidden) == seq!['…'],
{
    lemma_encoded_join(shown, hidden);
    vstd::utf8::encode_utf8_decode_utf8(shown);
    if encode_utf8(host).len() + encode_utf8(shown).len() == 27 && encode_utf8(hidden).len() > 1 {
        let path = shown + hidden;
        let n = encode_utf8(shown).len() as int;
        assert(path_room(host) == n + 1);
        assert(encode_utf8(path).subrange(0, n) =~= encode_utf8(shown));
        assert(row_path(host, path) =~= shown + seq!['…']);
    }
    if encode_utf8(host).len() >= 27 && encode_utf8(host).len() + encode_utf8(hidden).len() > 28
        && encode_utf8(hidden).len() > 0 {
        let none = Seq::<char>::empty();
        vstd::utf8::encode_utf8_decode_utf8(none);
        assert(encode_utf8(hidden).subrange(0, 0) =~= encode_utf8(none));
        assert(row_path(host, hidden) =~= seq!['…']);
    }
}

/// A path can be listed if it fits its row, or if it is cut between two
/// characters.
pub proof fn cuts_fall_between_characters(url: Seq<char>)
    ensures
        ({
            let host = encode_utf8(authority_of(after_scheme(url)));
            let path = encode_utf8(path_of(after_scheme(url)));
            let room = if host.len() < 28 {
                28 - host.len()
            } else {
                0
            };
            cuts_cleanly(url) <==> path.len() <= room || vstd::utf8::is_char_boundary(
                path,
                if room == 0 {
                    0
                } else {
                    room - 1
                },
            )
        }),
{
}

/// A row shows the method in a column of five, the status in a column of three or
/// three dots while there is none, the host and the path, and the duration: in
/// milliseconds below a second, in seconds from there on.
pub proof fn rows_show_the_transaction(tx: TransactionView, seconds: Seq<char>)
    ensures
        ({
            let row = row_of(tx, seconds);
            let host = authority_of(after_scheme(tx.request.url));
            let path = path_of(after_scheme(tx.request.url));
            &&& row.len() == 4
            &&& row[0] == (SpanView {
                text: pad_right(safe(tx.request.method), 5) + seq![' '],
                fg: tone_of_method(tx.request.method),
                bg: None,
                weight: Weight::Bold,
            })
            &&& tx.response matches Some(response) ==> row[1] == (SpanView {
                text: pad_right(numeral(response.status as nat, 10, false), 3) + seq![' '],
                fg: tone_of_status(response.status),
                bg: None,
                weight: Weight::Plain,
            })
            &&& tx.response is None ==> row[1] == (SpanView {
                text: seq!['·', '·', '·', ' '],
                fg: Tone::StatusPending,
                bg: None,
                weight: Weight::Plain,
            })
            &&& row[2] == (SpanView {
                text: safe(host + row_path(host, path)),
                fg: Tone::Text,
                bg: None,
                weight: Weight::Plain,
            })
            &&& row[3].fg == Tone::Dim && row[3].bg is None && row[3].weight == Weight::Plain
            &&& tx.duration_ms is None ==> row[3].text == Seq::<char>::empty()
            &&& tx.duration_ms matches Some(ms) ==> {
                &&& ms < 1000 ==> row[3].text == seq![' '] + numeral(ms as nat, 10, false) + seq![
                    'm',
                    's',
                ]
                &&& ms >= 1000 ==> row[3].text == seq![' '] + safe(seconds) + seq!['s']
            }
        }),
{
    reveal_strlit(" ");
    reveal_strlit("ms");
    reveal_strlit("s");
    reveal_strlit("···");
    assert(" "@ =~= seq![' ']);
    assert("ms"@ =~= seq!['m', 's']);
    assert("s"@ =~= seq!['s']);
    assert(pad_right("···"@, 3) + " "@ =~= seq!['·', '·', '·', ' ']);
    if let Some(response) = tx.response {
        decimal_counts_by_tens(response.status as nat);
    }
    if let Some(ms) = tx.duration_ms {
        decimal_counts_by_tens(ms as nat);
    }
    assert(row_of(tx, seconds)[3].text == row_duration(tx.duration_ms, seconds));
}

/// The status bar says how much was captured and what the tab key leads to.
pub proof fn the_bar_counts_what_was_captured(app: AppView)
    ensures
        bar_of(app).len() == 2,
        bar_of(app)[0] == (SpanView {
            text: " HERMES "@,
            fg: Tone::Background,
            bg: Some(Tone::BorderFocus),
            weight: Weight::Bold,
        }),
        bar_of(app)[1] == (SpanView {
            text: "  "@ + numeral(app.transactions.len(), 10, false) + " captured  ↑↓/jk  "@ + (
            if app.focus == Focus::List {
                "TAB→detail"@
            } else {
                "TAB→list"@
            }) + "  q quit "@,
            fg: Tone::Dim,
            bg: Some(Tone::Background),
            weight: Weight::Plain,
        }),
{
    decimal_counts_by_tens(app.transactions.len());
}

} // verus!

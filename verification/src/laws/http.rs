//! What holds of header lists, message heads and targets.

use vstd::prelude::*;

use crate::head::{block_step, ends_head, field_of, request_start, BlockView};
use crate::http::{
    absolute_target, body_kind_of, bodyless, head_text, header_line, header_lines, host_port,
    request_line, split_last_colon, status_code_of, value_of, without, BodyKind, HeaderSeq, HttpError,
};
use crate::laws::text::{
    all_line_ends, all_space, is_word, line_ends_are_removed, numbers_read_back, numeral,
    searching_finds_the_first, trimming_removes_outer_whitespace, words_stand_between_whitespace,
};
use crate::text::{is_space, lower, occurs, parse_number, same_fold, trim, words};

verus! {

// ---------------------------------------------------------------------------
// Header lists
// ---------------------------------------------------------------------------

/// Whether no field has this name.
pub open spec fn none_called(headers: HeaderSeq, name: Seq<char>) -> bool {
    forall|i: int| 0 <= i < headers.len() ==> !same_fold((#[trigger] headers[i]).0, name)
}

/// A field is looked up by its name in any case; the first one counts, whatever
/// follows it.
pub proof fn lookup_gives_the_first_field(
    before: HeaderSeq,
    h: (Seq<char>, Seq<char>),
    after: HeaderSeq,
    name: Seq<char>,
)
    requires
        none_called(before, name),
        same_fold(h.0, name),
    ensures
        value_of(before, name) is None,
        value_of(before + seq![h] + after, name) == Some(h.1),
    decreases before.len(),
{
    let all = before + seq![h] + after;
    if before.len() == 0 {
        assert(all[0] == h);
    } else {
        let rest = before.skip(1);
        assert(!same_fold(before[0].0, name));
        assert forall|i: int| 0 <= i < rest.len() implies !same_fold(
            (#[trigger] rest[i]).0,
            name,
        ) by {
            assert(rest[i] == before[i + 1]);
        }
        lookup_gives_the_first_field(rest, h, after, name);
        assert(all[0] == before[0]);
        assert(all.skip(1) =~= rest + seq![h] + after);
    }
}

/// A removal takes away every field of the name, in any case, and leaves every
/// other one where it stands.
pub proof fn removal_keeps_every_other_field(
    before: HeaderSeq,
    h: (Seq<char>, Seq<char>),
    after: HeaderSeq,
    name: Seq<char>,
)
    ensures
        without(Seq::empty(), name) == HeaderSeq::empty(),
        same_fold(h.0, name) ==> without(before + seq![h] + after, name) == without(before, name)
            + without(after, name),
        !same_fold(h.0, name) ==> without(before + seq![h] + after, name) == without(before, name)
            + seq![h] + without(after, name),
        none_called(before, name) ==> without(before, name) == before,
{
    let keep = |x: (Seq<char>, Seq<char>)| !same_fold(x.0, name);
    let one = seq![h];
    Seq::filter_distributes_over_add(before + one, after, keep);
    Seq::filter_distributes_over_add(before, one, keep);
    reveal(Seq::filter);
    assert(one.drop_last() =~= HeaderSeq::empty());
    assert(one.last() == h);
    assert(one.drop_last().filter(keep) =~= HeaderSeq::empty());
    assert(without(Seq::empty(), name) =~= HeaderSeq::empty());
    if same_fold(h.0, name) {
        assert(one.filter(keep) =~= HeaderSeq::empty());
        assert(without(before, name) + HeaderSeq::empty() =~= without(before, name));
    } else {
        assert(one.filter(keep) =~= one);
    }
    if none_called(before, name) {
        lemma_all_kept(before, name);
    }
}

proof fn lemma_all_kept(headers: HeaderSeq, name: Seq<char>)
    requires
        none_called(headers, name),
    ensures
        without(headers, name) == headers,
    decreases headers.len(),
{
    reveal(Seq::filter);
    if headers.len() == 0 {
        assert(without(headers, name) =~= headers);
    } else {
        let rest = headers.drop_last();
        assert forall|i: int| 0 <= i < rest.len() implies !same_fold(
            (#[trigger] rest[i]).0,
            name,
        ) by {
            assert(rest[i] == headers[i]);
        }
        lemma_all_kept(rest, name);
        assert(!same_fold(headers[headers.len() - 1].0, name));
        assert(without(headers, name) =~= rest.push(headers.last()));
        assert(rest.push(headers.last()) =~= headers);
    }
}

// ---------------------------------------------------------------------------
// Body delimiting
// ---------------------------------------------------------------------------

/// Whether the first `Transfer-Encoding` field speaks of chunks, in any case.
pub open spec fn says_chunked(headers: HeaderSeq) -> bool {
    value_of(headers, "transfer-encoding"@) matches Some(v) && occurs("chunked"@, lower(v))
}

/// A body is chunked exactly if its first `Transfer-Encoding` says so. Otherwise
/// it has the length that the first `Content-Length` gives, with whitespace
/// around it or not; without such a number there is none.
pub proof fn fields_delimit_the_body(
    headers: HeaderSeq,
    n: nat,
    a: Seq<char>,
    b: Seq<char>,
    v: Seq<char>,
)
    requires
        n <= u64::MAX,
        all_space(a),
        all_space(b),
    ensures
        body_kind_of(headers) is Chunked <==> says_chunked(headers),
        !(body_kind_of(headers) is UntilClose),
        !says_chunked(headers) && value_of(headers, "content-length"@) == Some(
            a + numeral(n, 10, false) + b,
        ) ==> body_kind_of(headers) == BodyKind::ContentLength(n as u64),
        !says_chunked(headers) && value_of(headers, "content-length"@) == Some(v) && parse_number(
            trim(v),
            10,
            u64::MAX as nat,
        ) == Some(n) ==> body_kind_of(headers) == BodyKind::ContentLength(n as u64),
        !says_chunked(headers) && value_of(headers, "content-length"@) is None
            ==> body_kind_of(headers) == BodyKind::Empty,
        !says_chunked(headers) && value_of(headers, "content-length"@) == Some(v) && parse_number(
            trim(v),
            10,
            u64::MAX as nat,
        ) is None ==> body_kind_of(headers) == BodyKind::Empty,
{
    let s = numeral(n, 10, false);
    crate::laws::text::lemma_numeral(n, 10, false);
    assert(!is_space(s[0]));
    assert(!is_space(s[s.len() - 1]));
    trimming_removes_outer_whitespace(a, s, b);
    numbers_read_back(n, 10, false, u64::MAX as nat);
}

/// The responses that never have a body are those of a status from 100 to 199,
/// of 204 and of 304.
pub proof fn statuses_without_a_body(status: u16)
    ensures
        bodyless(status) <==> status / 100 == 1 || status == 204 || status == 304,
{
}

// ---------------------------------------------------------------------------
// Writing heads
// ---------------------------------------------------------------------------

proof fn lemma_header_lines_push(headers: HeaderSeq, h: (Seq<char>, Seq<char>))
    ensures
        header_lines(headers.push(h)) == header_lines(headers) + header_line(h),
    decreases headers.len(),
{
    let all = headers.push(h);
    if headers.len() == 0 {
        assert(all.skip(1) =~= HeaderSeq::empty());
        assert(all[0] == h);
        reveal_with_fuel(header_lines, 2);
        assert(header_lines(all) =~= header_lines(headers) + header_line(h));
    } else {
        lemma_header_lines_push(headers.skip(1), h);
        assert(all.skip(1) =~= headers.skip(1).push(h));
        assert(all[0] == headers[0]);
        assert(header_lines(all) =~= header_lines(headers) + header_line(h));
    }
}

/// A head is its start line and a line for each field, in order, each with its
/// name, a colon, a space and its value, and then an empty line.
pub proof fn heads_are_written_line_by_line(
    start: Seq<char>,
    headers: HeaderSeq,
    h: (Seq<char>, Seq<char>),
)
    ensures
        head_text(start, Seq::empty()) == start + seq!['\r', '\n', '\r', '\n'],
        head_text(start, headers.push(h)) == head_text(start, headers).drop_last().drop_last()
            + h.0 + seq![':', ' '] + h.1 + seq!['\r', '\n', '\r', '\n'],
        head_text(start, headers).len() >= start.len() + 4,
        head_text(start, headers).take(start.len() as int) == start,
        head_text(start, headers).subrange(start.len() as int, start.len() as int + 2) == seq!['\r', '\n'],
{
    reveal_strlit("\r\n");
    reveal_strlit(": ");
    assert(head_text(start, Seq::empty()) =~= start + seq!['\r', '\n', '\r', '\n']);
    lemma_header_lines_push(headers, h);
    let shorter = head_text(start, headers).drop_last().drop_last();
    assert(shorter =~= start + "\r\n"@ + header_lines(headers));
    assert(head_text(start, headers.push(h)) =~= shorter + h.0 + seq![':', ' '] + h.1 + seq![
        '\r',
        '\n',
        '\r',
        '\n',
    ]);
    assert(head_text(start, headers).take(start.len() as int) =~= start);
    assert(head_text(start, headers).subrange(start.len() as int, start.len() as int + 2) =~= seq![
        '\r',
        '\n',
    ]);
}

// ---------------------------------------------------------------------------
// Reading heads
// ---------------------------------------------------------------------------

/// A header line is a name and a value with the first colon between them and
/// whitespace around them removed. A line without a colon is no field, and one
/// of a line end only ends the head.
pub proof fn header_lines_hold_a_name_and_a_value(
    name: Seq<char>,
    value: Seq<char>,
    end: Seq<char>,
)
    requires
        !name.contains(':'),
        all_line_ends(end),
        value.len() > 0 ==> value.last() != '\r' && value.last() != '\n',
    ensures
        field_of(name + seq![':'] + value + end) == seq![(trim(name), trim(value))],
        crate::replay::line_field(name + seq![':'] + value) == seq![(trim(name), trim(value))],
        crate::replay::line_field(name) == HeaderSeq::empty(),
        !ends_head(name + seq![':'] + value + end),
        ends_head(end),
        name.len() > 0 && name.last() != '\r' && name.last() != '\n' ==> {
            &&& field_of(name + end) == HeaderSeq::empty()
            &&& !ends_head(name + end)
        },
{
    let line = name + seq![':'] + value;
    line_ends_are_removed(line, end);
    searching_finds_the_first(name, ':', value);
    assert(line.take(name.len() as int) =~= name);
    assert(line.skip(name.len() as int + 1) =~= value);
    line_ends_are_removed(Seq::empty(), end);
    assert(Seq::<char>::empty() + end =~= end);
    if name.len() > 0 && name.last() != '\r' && name.last() != '\n' {
        line_ends_are_removed(name, end);
    }
}

/// A request line is three words with whitespace between them; what follows the
/// third is ignored. With fewer words the first one that is missing is named.
pub proof fn request_lines_hold_three_words(
    method: Seq<char>,
    target: Seq<char>,
    version: Seq<char>,
    a: Seq<char>,
    b: Seq<char>,
    space: Seq<char>,
    rest: Seq<char>,
)
    requires
        is_word(method),
        is_word(target),
        is_word(version),
        all_space(a),
        all_space(b),
        all_space(space),
        a.len() > 0,
        b.len() > 0,
        space.len() > 0,
    ensures
        request_line(method + a + target + b + version) == Ok::<
            (Seq<char>, Seq<char>, Seq<char>),
            HttpError,
        >((method, target, version)),
        request_line(method + a + target + b + version + space + rest) == Ok::<
            (Seq<char>, Seq<char>, Seq<char>),
            HttpError,
        >((method, target, version)),
        request_line(method + a + target) == Err::<(Seq<char>, Seq<char>, Seq<char>), HttpError>(
            HttpError::MissingVersion,
        ),
        request_line(method) == Err::<(Seq<char>, Seq<char>, Seq<char>), HttpError>(
            HttpError::MissingTarget,
        ),
        request_line(a) == Err::<(Seq<char>, Seq<char>, Seq<char>), HttpError>(
            HttpError::MissingMethod,
        ),
{
    let none = Seq::<char>::empty();
    let three = version + space + rest;
    words_stand_between_whitespace(none, version, space, rest);
    assert(none + version + space + rest =~= three);
    assert(none + version =~= version);
    words_stand_between_whitespace(none, target, b, version);
    words_stand_between_whitespace(none, target, b, three);
    assert(none + target + b + version =~= target + b + version);
    assert(none + target + b + three =~= target + b + three);
    assert(none + target =~= target);
    words_stand_between_whitespace(none, method, a, target);
    words_stand_between_whitespace(none, method, a, target + b + version);
    words_stand_between_whitespace(none, method, a, target + b + three);
    words_stand_between_whitespace(a, method, a, target);
    assert(none + method + a + target =~= method + a + target);
    assert(none + method =~= method);
    assert(none + method + a + (target + b + version) =~= method + a + target + b + version);
    assert(none + method + a + (target + b + three) =~= method + a + target + b + version + space
        + rest);
    assert(words(method + a + target + b + version) =~= seq![method, target, version]);
    assert(words(method + a + target) =~= seq![method, target]);
    let all = words(method + a + target + b + version + space + rest);
    assert(all[0] == method);
    assert(all[1] == target);
    assert(all[2] == version);
}

/// Only the words of a request line count, wherever they stand in it, and only the
/// second word of a status line.
pub proof fn lines_are_read_by_their_words(line: Seq<char>, n: nat)
    ensures
        words(line).len() >= 3 ==> request_line(line) == Ok::<
            (Seq<char>, Seq<char>, Seq<char>),
            HttpError,
        >((words(line)[0], words(line)[1], words(line)[2])),
        request_line(line) is Ok <==> words(line).len() >= 3,
        request_line(line) == Err::<(Seq<char>, Seq<char>, Seq<char>), HttpError>(
            HttpError::MissingVersion,
        ) <==> words(line).len() == 2,
        request_line(line) == Err::<(Seq<char>, Seq<char>, Seq<char>), HttpError>(
            HttpError::MissingTarget,
        ) <==> words(line).len() == 1,
        request_line(line) == Err::<(Seq<char>, Seq<char>, Seq<char>), HttpError>(
            HttpError::MissingMethod,
        ) <==> words(line).len() == 0,
        words(line).len() < 2 ==> status_code_of(line) == 0,
        words(line).len() >= 2 && parse_number(words(line)[1], 10, u16::MAX as nat) == Some(n)
            ==> status_code_of(line) == n,
        words(line).len() >= 2 && parse_number(words(line)[1], 10, u16::MAX as nat) is None
            ==> status_code_of(line) == 0,
{
}

/// A request starts with a line that is not empty, without its line end; the lines
/// after it are fields, in order, up to the first empty one, and what comes after
/// that is not looked at.
pub proof fn heads_are_collected_line_by_line(
    text: Seq<char>,
    line: Seq<char>,
    end: Seq<char>,
    headers: HeaderSeq,
    block: BlockView,
)
    requires
        all_line_ends(end),
        text.len() > 0 ==> text.last() != '\r' && text.last() != '\n',
    ensures
        request_start(end) == Ok::<Option<(Seq<char>, Seq<char>, Seq<char>)>, HttpError>(None),
        text.len() > 0 ==> match request_line(text) {
            Ok(parts) => request_start(text + end) == Ok::<
                Option<(Seq<char>, Seq<char>, Seq<char>)>,
                HttpError,
            >(Some(parts)),
            Err(e) => request_start(text + end) == Err::<
                Option<(Seq<char>, Seq<char>, Seq<char>)>,
                HttpError,
            >(e),
        },
        block.finished ==> block_step(block, line) == block,
        block_step(BlockView { headers, finished: false }, end) == (BlockView {
            headers,
            finished: true,
        }),
        text.len() > 0 ==> block_step(BlockView { headers, finished: false }, text + end) == (
        BlockView { headers: headers + field_of(text + end), finished: false }),
{
    let none = Seq::<char>::empty();
    line_ends_are_removed(none, end);
    assert(none + end =~= end);
    line_ends_are_removed(text, end);
}

/// The status is the number that stands second in a status line, if it is one of
/// sixteen bits, and zero otherwise.
pub proof fn status_lines_hold_the_status(
    version: Seq<char>,
    code: nat,
    word: Seq<char>,
    space: Seq<char>,
    rest: Seq<char>,
)
    requires
        is_word(version),
        is_word(word),
        all_space(space),
        space.len() > 0,
    ensures
        status_code_of(version + space + numeral(code, 10, false)) == if code <= u16::MAX {
            code as u16
        } else {
            0u16
        },
        status_code_of(version + space + numeral(code, 10, false) + space + rest) == if code
            <= u16::MAX {
            code as u16
        } else {
            0u16
        },
        parse_number(word, 10, u16::MAX as nat) is None ==> status_code_of(
            version + space + word + space + rest,
        ) == 0,
        status_code_of(version) == 0,
{
    let none = Seq::<char>::empty();
    let digits = numeral(code, 10, false);
    crate::laws::text::lemma_numeral(code, 10, false);
    assert(is_word(digits));
    numbers_read_back(code, 10, false, u16::MAX as nat);
    words_stand_between_whitespace(none, digits, space, rest);
    words_stand_between_whitespace(none, word, space, rest);
    assert(none + digits =~= digits);
    assert(none + digits + space + rest =~= digits + space + rest);
    assert(none + word + space + rest =~= word + space + rest);
    words_stand_between_whitespace(none, version, space, digits);
    words_stand_between_whitespace(none, version, space, digits + space + rest);
    words_stand_between_whitespace(none, version, space, word + space + rest);
    assert(none + version =~= version);
    assert(none + version + space + digits =~= version + space + digits);
    assert(none + version + space + (digits + space + rest) =~= version + space + digits + space
        + rest);
    assert(none + version + space + (word + space + rest) =~= version + space + word + space
        + rest);
    assert(words(version + space + digits)[1] == digits);
    assert(words(version + space + digits + space + rest)[1] == digits);
    assert(words(version + space + word + space + rest)[1] == word);
}

// ---------------------------------------------------------------------------
// Targets
// ---------------------------------------------------------------------------

/// A host in brackets keeps them and is followed by its port or by none; what
/// stands after a colon and is no port leaves the port open, and counts as part
/// of a host without brackets.
pub proof fn authorities_without_a_port(inside: Seq<char>, text: Seq<char>, default: u16)
    requires
        !inside.contains(']'),
        !text.contains(':'),
        parse_number(text, 10, u16::MAX as nat) is None,
    ensures
        host_port(seq!['['] + inside + seq![']'], default) == (
            seq!['['] + inside + seq![']'],
            default,
        ),
        host_port(seq!['['] + inside + seq![']', ':'] + text, default) == (
            seq!['['] + inside + seq![']'],
            default,
        ),
        inside.len() > 0 && inside[0] != '[' ==> host_port(inside + seq![':'] + text, default) == (
            inside + seq![':'] + text,
            default,
        ),
{
    let host = seq!['['] + inside + seq![']'];
    let open = seq!['['] + inside;
    assert(!open.contains(']')) by {
        if open.contains(']') {
            let k = choose|k: int| 0 <= k < open.len() && open[k] == ']';
            assert(inside[k - 1] == ']');
        }
    }
    searching_finds_the_first(open, ']', Seq::empty());
    assert(open + seq![']'] + Seq::<char>::empty() =~= host);
    assert(host[0] == '[');
    assert(host.take(open.len() as int + 1) =~= host);
    let b = seq!['['] + inside + seq![']', ':'] + text;
    searching_finds_the_first(open, ']', seq![':'] + text);
    assert(open + seq![']'] + (seq![':'] + text) =~= b);
    assert(b[0] == '[');
    assert(b.take(open.len() as int + 1) =~= host);
    let rest = b.skip(open.len() as int + 1);
    assert(rest =~= seq![':'] + text);
    assert(rest.skip(1) =~= text);
    if inside.len() > 0 && inside[0] != '[' {
        let c = inside + seq![':'] + text;
        assert(c[0] == inside[0]);
        searching_finds_the_first(text, ':', inside);
        assert(c.skip(inside.len() as int + 1) =~= text);
    }
}

/// A host and its port stand on the two sides of the last colon, if what stands
/// after that colon is a port; else all of it is the host. An authority that is
/// not bracketed is split in this way.
pub proof fn ports_stand_after_the_last_colon(
    host: Seq<char>,
    port: u16,
    text: Seq<char>,
    default: u16,
)
    requires
        !text.contains(':'),
    ensures
        split_last_colon(host + seq![':'] + numeral(port as nat, 10, false), default) == (
            host,
            port,
        ),
        parse_number(text, 10, u16::MAX as nat) == Some(port as nat) ==> split_last_colon(
            host + seq![':'] + text,
            default,
        ) == (host, port),
        parse_number(text, 10, u16::MAX as nat) is None ==> split_last_colon(
            host + seq![':'] + text,
            default,
        ) == (host + seq![':'] + text, default),
        !host.contains(':') ==> split_last_colon(host, default) == (host, default),
        host.len() == 0 || host[0] != '[' || !host.contains(']') ==> host_port(host, default)
            == split_last_colon(host, default),
{
    let digits = numeral(port as nat, 10, false);
    crate::laws::text::decimal_counts_by_tens(port as nat);
    crate::text::decimal_is_digits(port as nat);
    numbers_read_back(port as nat, 10, false, u16::MAX as nat);
    assert(!digits.contains(':')) by {
        if digits.contains(':') {
            let k = choose|k: int| 0 <= k < digits.len() && digits[k] == ':';
            assert(digits[k] != ':');
        }
    }
    lemma_last_colon(host, digits);
    lemma_last_colon(host, text);
    if !host.contains(':') {
        searching_finds_the_first(host, ':', host);
    }
    if !host.contains(']') {
        searching_finds_the_first(host, ']', host);
    }
}

proof fn lemma_last_colon(host: Seq<char>, text: Seq<char>)
    requires
        !text.contains(':'),
    ensures
        ({
            let s = host + seq![':'] + text;
            let n = host.len() as int;
            &&& crate::text::rfind(s, ':') == Some(n)
            &&& s.take(n) == host
            &&& s.skip(n + 1) == text
        }),
{
    let s = host + seq![':'] + text;
    searching_finds_the_first(text, ':', host);
    assert(s.take(host.len() as int) =~= host);
    assert(s.skip(host.len() as int + 1) =~= text);
}

/// The port of a bracketed host stands behind a colon after its brackets, if it is
/// one; what follows the brackets otherwise does not matter.
pub proof fn bracketed_hosts_keep_their_brackets(
    inside: Seq<char>,
    port: u16,
    text: Seq<char>,
    default: u16,
)
    requires
        !inside.contains(']'),
    ensures
        parse_number(text, 10, u16::MAX as nat) == Some(port as nat) ==> host_port(
            seq!['['] + inside + seq![']', ':'] + text,
            default,
        ) == (seq!['['] + inside + seq![']'], port),
        parse_number(text, 10, u16::MAX as nat) is None ==> host_port(
            seq!['['] + inside + seq![']', ':'] + text,
            default,
        ) == (seq!['['] + inside + seq![']'], default),
        text.len() > 0 && text[0] != ':' ==> host_port(
            seq!['['] + inside + seq![']'] + text,
            default,
        ) == (seq!['['] + inside + seq![']'], default),
{
    let open = seq!['['] + inside;
    assert(!open.contains(']')) by {
        if open.contains(']') {
            let k = choose|k: int| 0 <= k < open.len() && open[k] == ']';
            assert(inside[k - 1] == ']');
        }
    }
    let n = open.len() as int;
    let d = seq!['['] + inside + seq![']', ':'] + text;
    searching_finds_the_first(open, ']', seq![':'] + text);
    assert(open + seq![']'] + (seq![':'] + text) =~= d);
    assert(d[0] == '[');
    assert(d.take(n + 1) =~= open + seq![']']);
    assert(d.skip(n + 1) =~= seq![':'] + text);
    assert((seq![':'] + text).skip(1) =~= text);
    if text.len() > 0 {
        let c = open + seq![']'] + text;
        searching_finds_the_first(open, ']', text);
        assert(c[0] == '[');
        assert(c.take(n + 1) =~= open + seq![']']);
        assert(c.skip(n + 1) =~= text);
    }
}

/// A target is absolute exactly if it starts with the name of one of the two
/// schemes.
pub proof fn only_urls_are_absolute(target: Seq<char>)
    ensures
        absolute_target(target) is Some <==> (exists|rest: Seq<char>|
            #[trigger] ("http://"@ + rest) == target) || (exists|rest: Seq<char>|
            #[trigger] ("https://"@ + rest) == target),
{
    crate::laws::text::occurring_is_standing_between("http://"@, target);
    crate::laws::text::occurring_is_standing_between("https://"@, target);
}

} // verus!

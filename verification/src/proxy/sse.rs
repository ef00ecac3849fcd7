//! Server-sent events, in and out.
use crate::models::anthropic::{event_name, StreamEvent};
use crate::text::{
    blank, chars_of, find, find_chars, is_blank, lemma_find_first, lemma_find_is, lines,
    lines_of, occurs_at, same_text, starts_with, starts_with_text, string_from, texts, trim,
    trim_text,
};
use vstd::prelude::*;
use vstd::utf8::{decode_utf8, pop_first_scalar, valid_utf8, valid_utf8_concat};

verus! {

/// What a stream is silent with: a comment, which no reader takes for an event.
pub open spec fn keep_alive() -> Seq<char> {
    ": keep-alive\n\n"@
}

/// The comment that breaks a silence.
pub fn keep_alive_comment() -> (comment: &'static str)
    ensures
        comment@ == keep_alive(),
{
    ": keep-alive\n\n"
}

/// Seconds in a year, longer than any stream.
pub const NEVER_SECS: u64 = 31536000;

/// After how many seconds of silence to break it. None are configured as 0.
pub fn heartbeat_period(configured: u64) -> (secs: u64)
    ensures
        secs == if configured == 0 {
            NEVER_SECS
        } else {
            configured
        },
{
    if configured == 0 {
        NEVER_SECS
    } else {
        configured
    }
}

/// An event as it is sent: its name, its data and a blank line.
pub open spec fn framed_event(name: Seq<char>, data: Seq<char>) -> Seq<char> {
    "event: "@ + name + "\ndata: "@ + data + "\n\n"@
}

/// Frames an event, given its data as JSON text.
pub fn serialize_event(event: &StreamEvent, data: &str) -> (r: String)
    ensures
        r@ == framed_event(event_name(*event), data@),
{
    let mut r = "event: ".to_owned();
    r.append(event.event_type());
    r.append("\ndata: ");
    r.append(data);
    r.append("\n\n");
    r
}

// ---------------------------------------------------------------------------------------------
// Frames.

pub open spec fn blank_line() -> Seq<char> {
    seq!['\n', '\n']
}

pub open spec fn crlf_blank_line() -> Seq<char> {
    seq!['\r', '\n', '\r', '\n']
}

/// Where the first frame in a text ends, and how long the blank line is that ends it. Lines may
/// end either way; the blank line that comes first counts.
pub open spec fn frame_boundary(s: Seq<char>) -> Option<(int, int)> {
    match (find(s, blank_line()), find(s, crlf_blank_line())) {
        (Some(lf), Some(crlf)) => if lf <= crlf {
            Some((lf, 2))
        } else {
            Some((crlf, 4))
        },
        (None, Some(crlf)) => Some((crlf, 4)),
        (Some(lf), None) => Some((lf, 2)),
        (None, None) => None,
    }
}

/// Locates the end of the first complete frame: its position, in characters, and the length of
/// the blank line there.
pub fn find_frame_boundary(buffer: &Vec<char>) -> (r: Option<(usize, usize)>)
    ensures
        match r {
            Some((at, len)) => frame_boundary(buffer@) == Some((at as int, len as int)) && at + len
                <= buffer@.len() && len > 0,
            None => frame_boundary(buffer@) is None,
        },
{
    let lf_line: Vec<char> = vec!['\n', '\n'];
    let crlf_line: Vec<char> = vec!['\r', '\n', '\r', '\n'];
    assert(lf_line@ =~= blank_line());
    assert(crlf_line@ =~= crlf_blank_line());
    let lf = find_chars(buffer, &lf_line);
    let crlf = find_chars(buffer, &crlf_line);
    proof {
        lemma_find_first(buffer@, blank_line());
        lemma_find_first(buffer@, crlf_blank_line());
    }
    match (lf, crlf) {
        (Some(lf), Some(crlf)) => if lf <= crlf {
            Some((lf, 2))
        } else {
            Some((crlf, 4))
        },
        (None, Some(crlf)) => Some((crlf, 4)),
        (Some(lf), None) => Some((lf, 2)),
        (None, None) => None,
    }
}

/// What a frame brings.
#[derive(Clone, Debug)]
pub enum SseItem {
    /// The mark at the end of a stream.
    Done,
    /// The data of a line.
    Data(String),
}

pub ghost enum ItemSpec {
    Done,
    Data(Seq<char>),
}

impl SseItem {
    pub open spec fn view(&self) -> ItemSpec {
        match self {
            SseItem::Done => ItemSpec::Done,
            SseItem::Data(data) => ItemSpec::Data(data@),
        }
    }
}

pub open spec fn items_view(items: Seq<SseItem>) -> Seq<ItemSpec> {
    items.map_values(|item: SseItem| item@)
}

/// What a line brings: only data lines bring anything.
pub open spec fn line_items(line: Seq<char>) -> Seq<ItemSpec> {
    if starts_with(line, "data: "@) {
        let data = line.skip("data: "@.len() as int);
        if trim(data) == "[DONE]"@ {
            seq![ItemSpec::Done]
        } else {
            seq![ItemSpec::Data(data)]
        }
    } else {
        Seq::empty()
    }
}

pub open spec fn items_of_lines(all: Seq<Seq<char>>) -> Seq<ItemSpec>
    decreases all.len(),
{
    if all.len() == 0 {
        Seq::empty()
    } else {
        items_of_lines(all.drop_last()) + line_items(all.last())
    }
}

/// What a frame brings, line by line; a blank one nothing.
pub open spec fn frame_items(frame: Seq<char>) -> Seq<ItemSpec> {
    if blank(frame) {
        Seq::empty()
    } else {
        items_of_lines(lines(frame))
    }
}

/// What the complete frames of a text bring, and the text behind them.
pub open spec fn decoded(s: Seq<char>) -> (Seq<ItemSpec>, Seq<char>)
    decreases s.len(),
{
    match frame_boundary(s) {
        Some((at, len)) => if 0 <= at && 0 < len && at + len <= s.len() {
            let (items, rest) = decoded(s.skip(at + len));
            (frame_items(s.take(at)) + items, rest)
        } else {
            (Seq::empty(), s)
        },
        None => (Seq::empty(), s),
    }
}

fn items_of_frame(frame: &str) -> (r: Vec<SseItem>)
    ensures
        items_view(r@) == frame_items(frame@),
{
    let mut items: Vec<SseItem> = Vec::new();
    assert(items_view(items@) =~= Seq::empty());
    if is_blank(frame) {
        return items;
    }
    let all = lines_of(frame);
    let ghost view = texts(all@);
    let mut i: usize = 0;
    assert(view.take(0) =~= Seq::empty());
    while i < all.len()
        invariant
            i <= all@.len(),
            view == texts(all@),
            items_view(items@) == items_of_lines(view.take(i as int)),
        decreases all@.len() - i,
    {
        let ghost next = view.take(i + 1);
        let ghost before = items_view(items@);
        assert(next.drop_last() =~= view.take(i as int));
        assert(next.last() == all@[i as int]@);
        let line = all[i].as_str();
        if starts_with_text(line, "data: ") {
            let chars = chars_of(line);
            proof {
                reveal_strlit("data: ");
            }
            let n = chars.len();
            let data = string_from(&chars, 6, n);
            assert(data@ =~= line@.skip(6));
            let item = if same_text(trim_text(data.as_str()).as_str(), "[DONE]") {
                SseItem::Done
            } else {
                SseItem::Data(data)
            };
            items.push(item);
            assert(items_view(items@) =~= before + line_items(line@));
        } else {
            assert(before + line_items(line@) =~= before);
        }
        i += 1;
    }
    assert(view.take(view.len() as int) =~= view);
    items
}

/// The text that `String::from_utf8_lossy` makes of bytes.
pub uninterp spec fn lossy_text(bytes: Seq<u8>) -> Seq<char>;

/// `String::from_utf8_lossy`: the text of the bytes. Where they are valid UTF-8 that is the text
/// they encode; of the marks that stand for anything else nothing is said.
#[verifier::external_body]
fn text_of_bytes(bytes: &[u8]) -> (text: String)
    ensures
        text@ == lossy_text(bytes@),
        valid_utf8(bytes@) ==> text@ == decode_utf8(bytes@),
{
    String::from_utf8_lossy(bytes).into_owned()
}

/// Reads a stream that arrives in pieces of any size.
#[derive(Debug)]
pub struct SseDecoder {
    buffer: Vec<char>,
}

impl SseDecoder {
    /// The text that belongs to no complete frame yet.
    pub closed spec fn view(&self) -> Seq<char> {
        self.buffer@
    }

    pub fn new() -> (decoder: SseDecoder)
        ensures
            decoder@ == Seq::<char>::empty(),
    {
        SseDecoder { buffer: Vec::new() }
    }

    /// Takes the next piece as bytes, each piece read as text by itself.
    pub fn push_bytes(&mut self, bytes: &[u8]) -> (r: Vec<SseItem>)
        ensures
            items_view(r@) == decoded(old(self)@ + lossy_text(bytes@)).0,
            final(self)@ == decoded(old(self)@ + lossy_text(bytes@)).1,
            valid_utf8(bytes@) ==> lossy_text(bytes@) == decode_utf8(bytes@),
    {
        let text = text_of_bytes(bytes);
        self.push(text.as_str())
    }

    /// Takes the next piece and returns what the frames bring that are complete with it.
    pub fn push(&mut self, text: &str) -> (r: Vec<SseItem>)
        ensures
            items_view(r@) == decoded(old(self)@ + text@).0,
            final(self)@ == decoded(old(self)@ + text@).1,
    {
        let ghost whole = self.buffer@ + text@;
        let mut buffer: Vec<char> = Vec::new();
        std::mem::swap(&mut self.buffer, &mut buffer);
        let mut added = chars_of(text);
        buffer.append(&mut added);
        let mut items: Vec<SseItem> = Vec::new();
        assert(items_view(items@) + decoded(whole).0 =~= decoded(whole).0);
        let mut complete = true;
        while complete
            invariant
                items_view(items@) + decoded(buffer@).0 == decoded(whole).0,
                decoded(buffer@).1 == decoded(whole).1,
                !complete ==> frame_boundary(buffer@) is None,
            decreases
                    buffer@.len(),
                    if complete {
                        1nat
                    } else {
                        0nat
                    },
        {
            match find_frame_boundary(&buffer) {
                Some((at, len)) => {
                    let ghost before = buffer@;
                    let ghost so_far = items_view(items@);
                    let n = buffer.len();
                    assert(at + len <= n);
                    let frame = string_from(&buffer, 0, at);
                    assert(frame@ =~= before.take(at as int));
                    let mut found = items_of_frame(frame.as_str());
                    let ghost new_items = found@;
                    items.append(&mut found);
                    assert(items_view(items@) =~= so_far + items_view(new_items));
                    buffer = buffer.split_off(at + len);
                    assert(buffer@ =~= before.skip(at + len));
                    assert(items_view(items@) + decoded(buffer@).0 =~= so_far + decoded(before).0);
                },
                None => {
                    complete = false;
                },
            }
        }
        assert(items_view(items@) + decoded(buffer@).0 =~= items_view(items@));
        self.buffer = buffer;
        items
    }
}

// ---------------------------------------------------------------------------------------------
// Laws.

/// What stands in a text stands in it still when more follows, and the other way round where it
/// fits.
proof fn lemma_occurs_in_longer(a: Seq<char>, b: Seq<char>, pattern: Seq<char>, i: int)
    requires
        i + pattern.len() <= a.len(),
    ensures
        occurs_at(a + b, pattern, i) == occurs_at(a, pattern, i),
{
    if 0 <= i {
        assert((a + b).subrange(i, i + pattern.len()) =~= a.subrange(i, i + pattern.len()));
    }
}

proof fn lemma_found_in_longer(a: Seq<char>, b: Seq<char>, pattern: Seq<char>)
    requires
        find(a, pattern) is Some,
    ensures
        find(a + b, pattern) == find(a, pattern),
{
    lemma_find_first(a, pattern);
    let at = find(a, pattern)->0;
    lemma_occurs_in_longer(a, b, pattern, at);
    assert forall|j: int| 0 <= j < at implies !#[trigger] occurs_at(a + b, pattern, j) by {
        lemma_occurs_in_longer(a, b, pattern, j);
        assert(!occurs_at(a, pattern, j));
    }
    lemma_find_is(a + b, pattern, at);
}

/// The end of a frame stays where it is when more text follows.
proof fn lemma_boundary_in_longer(a: Seq<char>, b: Seq<char>)
    requires
        frame_boundary(a) is Some,
    ensures
        frame_boundary(a + b) == frame_boundary(a),
{
    let lf = blank_line();
    let crlf = crlf_blank_line();
    lemma_find_first(a, lf);
    lemma_find_first(a, crlf);
    lemma_find_first(a + b, lf);
    lemma_find_first(a + b, crlf);
    if find(a, lf) is Some {
        lemma_found_in_longer(a, b, lf);
    }
    if find(a, crlf) is Some {
        lemma_found_in_longer(a, b, crlf);
    }
    if find(a, lf) is Some && find(a, crlf) is None && find(a + b, crlf) is Some {
        let at = find(a, lf)->0;
        let other = find(a + b, crlf)->0;
        if other < at - 1 {
            lemma_occurs_in_longer(a, b, crlf, other);
        } else if other == at - 1 {
            assert((a + b).subrange(other, other + 4)[2] == '\r');
            assert(a.subrange(at, at + 2)[1] == '\n');
            assert(false);
        }
    }
    if find(a, crlf) is Some && find(a, lf) is None && find(a + b, lf) is Some {
        let at = find(a, crlf)->0;
        let other = find(a + b, lf)->0;
        if other <= at {
            lemma_occurs_in_longer(a, b, lf, other);
        }
    }
}

/// How a stream is cut into pieces makes no difference: a piece and then the next bring what
/// both bring together.
pub proof fn law_pieces_do_not_matter(a: Seq<char>, b: Seq<char>)
    ensures
        decoded(a + b).0 == decoded(a).0 + decoded(decoded(a).1 + b).0,
        decoded(a + b).1 == decoded(decoded(a).1 + b).1,
    decreases a.len(),
{
    lemma_find_first(a, blank_line());
    lemma_find_first(a, crlf_blank_line());
    match frame_boundary(a) {
        Some((at, len)) => {
            assert(0 <= at && 0 < len && at + len <= a.len());
            lemma_boundary_in_longer(a, b);
            let rest = a.skip(at + len);
            assert((a + b).take(at) =~= a.take(at));
            assert((a + b).skip(at + len) =~= rest + b);
            law_pieces_do_not_matter(rest, b);
            assert(decoded(a + b).0 =~= decoded(a).0 + decoded(decoded(a).1 + b).0);
        },
        None => {
            assert(decoded(a).0 + decoded(a + b).0 =~= decoded(a + b).0);
        },
    }
}

/// Bytes that encode one text and then another encode both.
proof fn lemma_text_in_pieces(a: Seq<u8>, b: Seq<u8>)
    requires
        valid_utf8(a),
        valid_utf8(b),
    ensures
        valid_utf8(a + b),
        decode_utf8(a + b) == decode_utf8(a) + decode_utf8(b),
    decreases a.len(),
{
    valid_utf8_concat(a, b);
    if a.len() == 0 {
        assert(a + b =~= b);
        assert(decode_utf8(a) + decode_utf8(b) =~= decode_utf8(b));
    } else {
        let rest = pop_first_scalar(a);
        lemma_text_in_pieces(rest, b);
        assert(pop_first_scalar(a + b) =~= rest + b);
        assert(decode_utf8(a + b) =~= decode_utf8(a) + decode_utf8(b));
    }
}

/// Bytes that are cut between two characters bring, piece by piece, what they bring together.
pub proof fn law_cut_between_characters_does_not_matter(a: Seq<u8>, b: Seq<u8>)
    requires
        valid_utf8(a),
        valid_utf8(b),
    ensures
        valid_utf8(a + b),
        decoded(decode_utf8(a + b)).0 == decoded(decode_utf8(a)).0 + decoded(
            decoded(decode_utf8(a)).1 + decode_utf8(b),
        ).0,
        decoded(decode_utf8(a + b)).1 == decoded(
            decoded(decode_utf8(a)).1 + decode_utf8(b),
        ).1,
{
    lemma_text_in_pieces(a, b);
    law_pieces_do_not_matter(decode_utf8(a), decode_utf8(b));
}

/// What is left over holds no complete frame.
pub proof fn law_nothing_complete_is_kept(s: Seq<char>)
    ensures
        frame_boundary(decoded(s).1) is None,
    decreases s.len(),
{
    lemma_find_first(s, blank_line());
    lemma_find_first(s, crlf_blank_line());
    match frame_boundary(s) {
        Some((at, len)) => {
            law_nothing_complete_is_kept(s.skip(at + len));
        },
        None => {},
    }
}

/// A text that is all on one line.
pub open spec fn one_line(s: Seq<char>) -> bool {
    forall|i: int| 0 <= i < s.len() ==> #[trigger] s[i] != '\n' && s[i] != '\r'
}

/// A tidy frame that a blank line ends is read, and then what follows.
proof fn lemma_tidy_frame_is_read(frame: Seq<char>, rest: Seq<char>)
    requires
        tidy(frame),
    ensures
        decoded(frame + "\n\n"@ + rest).0 == frame_items(frame) + decoded(rest).0,
        decoded(frame + "\n\n"@ + rest).1 == decoded(rest).1,
{
    reveal_strlit("\n\n");
    reveal(frame_end);
    assert(frame_end(false) =~= "\n\n"@);
    law_tidy_text_is_a_frame(frame);
    law_frame_is_read(frame, false, rest);
}

/// A text on one line is its only line, if it is not empty.
proof fn lemma_single_line(s: Seq<char>)
    requires
        one_line(s),
        s.len() > 0,
    ensures
        lines(s) == seq![s],
{
    let newline = seq!['\n'];
    assert forall|j: int| !occurs_at(s, newline, j) by {
        if occurs_at(s, newline, j) {
            assert(s.subrange(j, j + 1)[0] == s[j]);
        }
    }
    lemma_find_first(s, newline);
}

/// What is framed as an event is read back as its data, whatever follows.
pub proof fn law_framed_event_is_read_back(name: Seq<char>, data: Seq<char>, rest: Seq<char>)
    requires
        one_line(name),
        one_line(data),
    ensures
        decoded(framed_event(name, data) + rest).0 == seq![
            if trim(data) == "[DONE]"@ {
                ItemSpec::Done
            } else {
                ItemSpec::Data(data)
            },
        ] + decoded(rest).0,
        decoded(framed_event(name, data) + rest).1 == decoded(rest).1,
{
    reveal_strlit("event: ");
    reveal_strlit("\ndata: ");
    reveal_strlit("data: ");
    reveal_strlit("\n\n");
    let first = "event: "@ + name;
    let second = "data: "@ + data;
    let newline = seq!['\n'];
    let frame = "event: "@ + name + "\ndata: "@ + data;
    let at = first.len() as int;
    assert(frame =~= first + newline + second);
    assert(framed_event(name, data) + rest =~= frame + "\n\n"@ + rest);
    assert(one_line(first)) by {
        assert forall|i: int| 0 <= i < first.len() implies #[trigger] first[i] != '\n' && first[i]
            != '\r' by {
            if i >= 7 {
                assert(first[i] == name[i - 7]);
            }
        }
    }
    assert(one_line(second)) by {
        assert forall|i: int| 0 <= i < second.len() implies #[trigger] second[i] != '\n'
            && second[i] != '\r' by {
            if i >= 6 {
                assert(second[i] == data[i - 6]);
            }
        }
    }
    assert forall|i: int| 0 <= i < frame.len() implies #[trigger] frame[i] != '\r' && (frame[i]
        == '\n' ==> i == at) by {
        if i < at {
            assert(frame[i] == first[i]);
        } else if i > at {
            assert(frame[i] == second[i - at - 1]);
        }
    }
    assert(frame[at + 1] == second[0]);
    lemma_tidy_frame_is_read(frame, rest);
    assert(frame[0] == 'e');
    assert(!blank(frame));
    assert(frame.subrange(at, at + 1) =~= newline);
    assert forall|j: int| 0 <= j < at implies !#[trigger] occurs_at(frame, newline, j) by {
        if occurs_at(frame, newline, j) {
            assert(frame.subrange(j, j + 1)[0] == frame[j]);
        }
    }
    lemma_find_is(frame, newline, at);
    assert(frame.take(at) =~= first);
    assert(first.last() == first[first.len() - 1]);
    assert(frame.skip(at + 1) =~= second);
    lemma_single_line(second);
    let all = lines(frame);
    assert(all =~= seq![first, second]);
    assert(!starts_with(first, "data: "@)) by {
        if starts_with(first, "data: "@) {
            assert(first.subrange(0, 6)[0] == 'd');
        }
    }
    assert(second.subrange(0, 6) =~= "data: "@);
    assert(second.skip(6) =~= data);
    assert(all.drop_last() =~= seq![first]);
    assert(all.drop_last().drop_last() =~= Seq::empty());
    assert(items_of_lines(all.drop_last().drop_last()) =~= Seq::empty());
    assert(items_of_lines(all.drop_last()) =~= Seq::empty());
    assert(items_of_lines(all) =~= line_items(second));
}

/// A comment brings nothing and disturbs nothing that follows.
pub proof fn law_comments_are_ignored(comment: Seq<char>, rest: Seq<char>)
    requires
        one_line(comment),
    ensures
        decoded(":"@ + comment + "\n\n"@ + rest) == decoded(rest),
{
    reveal_strlit(":");
    reveal_strlit("data: ");
    let frame = ":"@ + comment;
    assert forall|i: int| 0 <= i < frame.len() implies #[trigger] frame[i] != '\n' && frame[i]
        != '\r' by {
        if i >= 1 {
            assert(frame[i] == comment[i - 1]);
        }
    }
    lemma_tidy_frame_is_read(frame, rest);
    lemma_single_line(frame);
    assert(frame[0] == ':');
    assert(!starts_with(frame, "data: "@)) by {
        if starts_with(frame, "data: "@) {
            assert(frame.subrange(0, 6)[0] == 'd');
        }
    }
    let all = lines(frame);
    assert(all.drop_last() =~= Seq::empty());
    assert(all.last() == frame);
    assert(items_of_lines(all.drop_last()) =~= Seq::empty());
    assert(items_of_lines(all) =~= Seq::empty());
    assert(frame_items(frame) =~= Seq::empty());
    assert(frame_items(frame) + decoded(rest).0 =~= decoded(rest).0);
}

/// A sign of life brings nothing and disturbs nothing that follows.
pub proof fn law_keep_alive_is_ignored(rest: Seq<char>)
    ensures
        decoded(keep_alive() + rest) == decoded(rest),
{
    reveal_strlit(":");
    reveal_strlit(" keep-alive");
    reveal_strlit("\n\n");
    reveal_strlit(": keep-alive\n\n");
    law_comments_are_ignored(" keep-alive"@, rest);
    assert(keep_alive() =~= ":"@ + " keep-alive"@ + "\n\n"@);
}

/// The blank line that ends a frame, of either kind.
#[verifier::opaque]
pub open spec fn frame_end(crlf: bool) -> Seq<char> {
    if crlf {
        crlf_blank_line()
    } else {
        blank_line()
    }
}

/// A text that is one frame: a blank line of either kind behind it is the first one.
#[verifier::opaque]
pub open spec fn whole_frame(frame: Seq<char>) -> bool {
    forall|crlf: bool| #[trigger]
        frame_boundary(frame + frame_end(crlf)) == Some(
            (frame.len() as int, frame_end(crlf).len() as int),
        )
}

/// A text without carriage returns and blank lines that does not end a line.
pub open spec fn tidy(frame: Seq<char>) -> bool {
    &&& forall|i: int| 0 <= i < frame.len() ==> #[trigger] frame[i] != '\r'
    &&& forall|i: int, j: int|
        #![trigger frame[i], frame[j]]
        0 <= i && j == i + 1 && j < frame.len() ==> !(frame[i] == '\n' && frame[j] == '\n')
    &&& frame.len() > 0 ==> frame[frame.len() - 1] != '\n'
}

/// A pattern that occurs nowhere before the end of a text is found behind it.
proof fn lemma_find_behind(frame: Seq<char>, pattern: Seq<char>, whole: Seq<char>)
    requires
        whole == frame + pattern,
        forall|j: int| 0 <= j < frame.len() ==> !#[trigger] occurs_at(whole, pattern, j),
    ensures
        find(whole, pattern) == Some(frame.len() as int),
{
    let at = frame.len() as int;
    assert(whole.subrange(at, at + pattern.len()) =~= pattern);
    lemma_find_is(whole, pattern, at);
}

/// Where a pattern stands, its characters stand.
pub proof fn lemma_char_of_pattern(s: Seq<char>, pattern: Seq<char>, i: int, k: int)
    requires
        occurs_at(s, pattern, i),
        0 <= k < pattern.len(),
    ensures
        s[i + k] == pattern[k],
{
    assert(s.subrange(i, i + pattern.len())[k] == s[i + k]);
}

proof fn lemma_no_lf_in_tidy(frame: Seq<char>, whole: Seq<char>, j: int)
    requires
        tidy(frame),
        frame.len() <= whole.len(),
        whole.take(frame.len() as int) == frame,
        0 <= j < frame.len(),
    ensures
        !occurs_at(whole, blank_line(), j),
{
    let at = frame.len() as int;
    if occurs_at(whole, blank_line(), j) {
        lemma_char_of_pattern(whole, blank_line(), j, 0);
        lemma_char_of_pattern(whole, blank_line(), j, 1);
        assert(whole.take(at)[j] == whole[j]);
        if j + 1 < at {
            assert(whole.take(at)[j + 1] == whole[j + 1]);
        }
    }
}

proof fn lemma_no_crlf_in_tidy(frame: Seq<char>, whole: Seq<char>, j: int)
    requires
        tidy(frame),
        frame.len() <= whole.len(),
        whole.take(frame.len() as int) == frame,
        0 <= j < frame.len(),
    ensures
        !occurs_at(whole, crlf_blank_line(), j),
{
    if occurs_at(whole, crlf_blank_line(), j) {
        lemma_char_of_pattern(whole, crlf_blank_line(), j, 0);
        assert(whole.take(frame.len() as int)[j] == whole[j]);
    }
}

proof fn lemma_tidy_before_lf(frame: Seq<char>, whole: Seq<char>)
    requires
        tidy(frame),
        whole == frame + blank_line(),
    ensures
        frame_boundary(whole) == Some((frame.len() as int, 2int)),
{
    assert(whole.take(frame.len() as int) =~= frame);
    assert forall|j: int| 0 <= j < frame.len() implies !#[trigger] occurs_at(
        whole,
        blank_line(),
        j,
    ) by {
        lemma_no_lf_in_tidy(frame, whole, j);
    }
    lemma_find_behind(frame, blank_line(), whole);
    lemma_find_first(whole, crlf_blank_line());
    if find(whole, crlf_blank_line()) is Some {
        let other = find(whole, crlf_blank_line())->0;
        if other < frame.len() {
            lemma_no_crlf_in_tidy(frame, whole, other);
        }
    }
}

proof fn lemma_tidy_before_crlf(frame: Seq<char>, whole: Seq<char>)
    requires
        tidy(frame),
        whole == frame + crlf_blank_line(),
    ensures
        frame_boundary(whole) == Some((frame.len() as int, 4int)),
{
    let at = frame.len() as int;
    assert(whole.take(at) =~= frame);
    assert forall|j: int| 0 <= j < frame.len() implies !#[trigger] occurs_at(
        whole,
        crlf_blank_line(),
        j,
    ) by {
        lemma_no_crlf_in_tidy(frame, whole, j);
    }
    lemma_find_behind(frame, crlf_blank_line(), whole);
    lemma_find_first(whole, blank_line());
    if find(whole, blank_line()) is Some {
        let other = find(whole, blank_line())->0;
        if other < at {
            lemma_no_lf_in_tidy(frame, whole, other);
        } else {
            lemma_no_lf_in_crlf(frame, whole, other);
        }
    }
}

proof fn lemma_no_lf_in_crlf(frame: Seq<char>, whole: Seq<char>, j: int)
    requires
        whole == frame + crlf_blank_line(),
        frame.len() <= j,
    ensures
        !occurs_at(whole, blank_line(), j),
{
    let at = frame.len() as int;
    if occurs_at(whole, blank_line(), j) {
        lemma_char_of_pattern(whole, blank_line(), j, 0);
        lemma_char_of_pattern(whole, blank_line(), j, 1);
        assert(whole[j] == crlf_blank_line()[j - at]);
        assert(whole[j + 1] == crlf_blank_line()[j + 1 - at]);
    }
}

proof fn lemma_frame_ends()
    ensures
        frame_end(false) == blank_line(),
        frame_end(true) == crlf_blank_line(),
        frame_end(false).len() == 2,
        frame_end(true).len() == 4,
{
    reveal(frame_end);
}

/// A tidy text is one frame.
pub proof fn law_tidy_text_is_a_frame(frame: Seq<char>)
    requires
        tidy(frame),
    ensures
        whole_frame(frame),
{
    reveal(whole_frame);
    lemma_frame_ends();
    lemma_tidy_before_lf(frame, frame + frame_end(false));
    lemma_tidy_before_crlf(frame, frame + frame_end(true));
}

/// A line that is not blank is one frame, and brings what the line brings.
pub proof fn law_line_is_a_frame(line: Seq<char>)
    requires
        one_line(line),
        !blank(line),
    ensures
        whole_frame(line),
        frame_items(line) == line_items(line),
{
    law_tidy_text_is_a_frame(line);
    lemma_single_line(line);
    let all = lines(line);
    assert(all.drop_last() =~= Seq::empty());
    assert(items_of_lines(all.drop_last()) =~= Seq::empty());
    assert(items_of_lines(all) =~= line_items(line));
}

/// A text that starts with a frame and its end is decoded behind them.
proof fn lemma_decoded_behind(frame: Seq<char>, end: Seq<char>, rest: Seq<char>)
    requires
        frame_boundary(frame + end) == Some((frame.len() as int, end.len() as int)),
        end.len() > 0,
    ensures
        decoded(frame + end + rest).0 == frame_items(frame) + decoded(rest).0,
        decoded(frame + end + rest).1 == decoded(rest).1,
{
    lemma_boundary_in_longer(frame + end, rest);
    let whole = frame + end + rest;
    let at = frame.len() as int;
    assert(whole.take(at) =~= frame);
    assert(whole.skip(at + end.len()) =~= rest);
}

proof fn lemma_end_of_frame(frame: Seq<char>, crlf: bool)
    requires
        whole_frame(frame),
    ensures
        frame_end(crlf).len() > 0,
        frame_boundary(frame + frame_end(crlf)) == Some(
            (frame.len() as int, frame_end(crlf).len() as int),
        ),
{
    reveal(whole_frame);
    lemma_frame_ends();
}

/// A frame brings what it brings, whichever blank line ends it and whatever follows.
pub proof fn law_frame_is_read(frame: Seq<char>, crlf: bool, rest: Seq<char>)
    requires
        whole_frame(frame),
    ensures
        decoded(frame + frame_end(crlf) + rest).0 == frame_items(frame) + decoded(rest).0,
        decoded(frame + frame_end(crlf) + rest).1 == decoded(rest).1,
{
    lemma_end_of_frame(frame, crlf);
    lemma_decoded_behind(frame, frame_end(crlf), rest);
}

/// Behind complete frames a text brings what it brings alone.
pub proof fn law_complete_frames_stand_alone(a: Seq<char>, b: Seq<char>)
    requires
        decoded(a).1.len() == 0,
    ensures
        decoded(a + b).0 == decoded(a).0 + decoded(b).0,
        decoded(a + b).1 == decoded(b).1,
{
    law_pieces_do_not_matter(a, b);
    assert(decoded(a).1 + b =~= b);
}

/// Frames one after another, each ended by a blank line of the kind given for it.
pub open spec fn framed_text(frames: Seq<Seq<char>>, crlf: Seq<bool>) -> Seq<char>
    decreases frames.len(),
{
    if frames.len() == 0 {
        Seq::empty()
    } else {
        frames[0] + frame_end(crlf[0]) + framed_text(frames.drop_first(), crlf.drop_first())
    }
}

/// What frames bring together.
pub open spec fn items_of_frames(frames: Seq<Seq<char>>) -> Seq<ItemSpec>
    decreases frames.len(),
{
    if frames.len() == 0 {
        Seq::empty()
    } else {
        frame_items(frames[0]) + items_of_frames(frames.drop_first())
    }
}

/// Frames bring the same whichever blank lines end them, all of one kind or mixed.
pub proof fn law_framing_does_not_matter(frames: Seq<Seq<char>>, crlf: Seq<bool>)
    requires
        crlf.len() == frames.len(),
        forall|i: int| 0 <= i < frames.len() ==> whole_frame(#[trigger] frames[i]),
    ensures
        decoded(framed_text(frames, crlf)).0 == items_of_frames(frames),
        decoded(framed_text(frames, crlf)).1.len() == 0,
    decreases frames.len(),
{
    if frames.len() == 0 {
        let none = Seq::<char>::empty();
        lemma_find_first(none, blank_line());
        lemma_find_first(none, crlf_blank_line());
        assert(decoded(none).0 =~= items_of_frames(frames));
    } else {
        let rest = frames.drop_first();
        assert forall|i: int| 0 <= i < rest.len() implies whole_frame(#[trigger] rest[i]) by {
            assert(rest[i] == frames[i + 1]);
        }
        assert(whole_frame(frames[0]));
        law_framing_does_not_matter(rest, crlf.drop_first());
        law_frame_is_read(frames[0], crlf[0], framed_text(rest, crlf.drop_first()));
    }
}

/// A blank frame brings nothing and disturbs nothing that follows.
pub proof fn law_blank_frames_are_ignored(crlf: bool, rest: Seq<char>)
    ensures
        decoded(frame_end(crlf) + rest) == decoded(rest),
{
    let frame = Seq::<char>::empty();
    law_tidy_text_is_a_frame(frame);
    law_frame_is_read(frame, crlf, rest);
    assert(frame + frame_end(crlf) + rest =~= frame_end(crlf) + rest);
    assert(frame_items(frame) + decoded(rest).0 =~= decoded(rest).0);
}

} // verus!

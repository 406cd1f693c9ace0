//! Hyprland's event stream: lines of text, `event>>data`.

use vstd::prelude::*;
use vstd::utf8::{decode_utf8, encode_utf8, is_ascii_chars, valid_utf8};
use crate::encoding;
use crate::error::{IpcError, IpcErrorKind};
use crate::number;
use crate::text;

verus! {

/// Events emitted by the Hyprland event stream.
#[derive(Debug, Clone, PartialEq, Eq)]
pub enum HyprEvent {
    /// A client changed in a way that may affect the visible client list:
    /// focus moved, a window opened/closed, or a window moved across
    /// workspaces. Carries the address from the originating event so
    /// downstream dedup against the last-seen address still works.
    ActiveWindowV2(String),
    /// Monitor added or removed.
    MonitorChanged,
    /// The focused workspace changed.
    WorkspaceV2 { id: i32, name: String },
    /// Any other event we don't specifically handle.
    Other(String),
}

/// What an event holds.
pub enum HyprEventView {
    ActiveWindowV2(Seq<char>),
    MonitorChanged,
    WorkspaceV2 { id: i32, name: Seq<char> },
    Other(Seq<char>),
}

impl View for HyprEvent {
    type V = HyprEventView;

    open spec fn view(&self) -> HyprEventView {
        match *self {
            HyprEvent::ActiveWindowV2(address) => HyprEventView::ActiveWindowV2(address@),
            HyprEvent::MonitorChanged => HyprEventView::MonitorChanged,
            HyprEvent::WorkspaceV2 { id, name } => HyprEventView::WorkspaceV2 { id, name: name@ },
            HyprEvent::Other(line) => HyprEventView::Other(line@),
        }
    }
}

/// What stands behind `prefix`.
pub open spec fn behind(line: Seq<char>, prefix: Seq<char>) -> Seq<char> {
    line.skip(prefix.len() as int)
}

/// A window opened, closed or moved. The window's address is the first field.
pub open spec fn window_fields(line: Seq<char>) -> Option<Seq<char>> {
    if text::starts_with(line, "openwindow>>"@) {
        Some(behind(line, "openwindow>>"@))
    } else if text::starts_with(line, "closewindow>>"@) {
        Some(behind(line, "closewindow>>"@))
    } else if text::starts_with(line, "movewindowv2>>"@) {
        Some(behind(line, "movewindowv2>>"@))
    } else if text::starts_with(line, "movewindow>>"@) {
        Some(behind(line, "movewindow>>"@))
    } else {
        None
    }
}

/// The id and the name in the data of a `workspacev2` event, parted by the first
/// comma. Without one there is no name.
pub open spec fn workspace_fields(data: Seq<char>) -> (Seq<char>, Seq<char>) {
    match text::split_once(data, ',') {
        Some((id, name)) => (text::trim(id), text::trim(name)),
        None => (text::trim(data), Seq::empty()),
    }
}

/// The workspace in the data of a `workspacev2` event.
pub open spec fn workspace_of(data: Seq<char>) -> Option<(i32, Seq<char>)> {
    let (id, name) = workspace_fields(data);
    match number::parse_i32(id) {
        Some(id) => Some((id, name)),
        None => None,
    }
}

/// The event that a line tells of.
pub open spec fn event_of(line: Seq<char>) -> HyprEventView {
    if text::starts_with(line, "activewindowv2>>"@) {
        HyprEventView::ActiveWindowV2(text::trim(behind(line, "activewindowv2>>"@)))
    } else if window_fields(line) is Some {
        HyprEventView::ActiveWindowV2(text::trim(text::before(window_fields(line)->0, ',')))
    } else if text::starts_with(line, "monitoraddedv2>>"@) || text::starts_with(
        line,
        "monitorremoved>>"@,
    ) {
        HyprEventView::MonitorChanged
    } else if text::starts_with(line, "workspacev2>>"@) {
        match workspace_of(behind(line, "workspacev2>>"@)) {
            Some((id, name)) => HyprEventView::WorkspaceV2 { id, name },
            None => HyprEventView::Other(line),
        }
    } else {
        HyprEventView::Other(line)
    }
}

/// What stands behind `prefix`, where the line begins with it.
fn strip<'a>(line: &'a [char], prefix: &str) -> (r: Option<&'a [char]>)
    ensures
        match r {
            Some(rest) => text::starts_with(line@, prefix@) && rest@ == behind(line@, prefix@),
            None => !text::starts_with(line@, prefix@),
        },
{
    let p = text::chars_of(prefix);
    if text::begins_with(line, p.as_slice()) {
        Some(text::skip(line, p.len()))
    } else {
        None
    }
}

fn strip_window_event<'a>(line: &'a [char]) -> (r: Option<&'a [char]>)
    ensures
        match r {
            Some(rest) => window_fields(line@) == Some(rest@),
            None => window_fields(line@) is None,
        },
{
    if let Some(rest) = strip(line, "openwindow>>") {
        return Some(rest);
    }
    if let Some(rest) = strip(line, "closewindow>>") {
        return Some(rest);
    }
    if let Some(rest) = strip(line, "movewindowv2>>") {
        return Some(rest);
    }
    strip(line, "movewindow>>")
}

/// Parses a line of the event stream. A `workspacev2` line without a numeric
/// id is any other event.
pub fn parse_event(line: &str) -> (r: HyprEvent)
    ensures
        r@ == event_of(line@),
{
    let chars = text::chars_of(line);
    let all = chars.as_slice();
    if let Some(address) = strip(all, "activewindowv2>>") {
        return HyprEvent::ActiveWindowV2(text::string_of(text::trimmed(address)));
    }
    if let Some(fields) = strip_window_event(all) {
        let address = text::trimmed(text::text_before(fields, ','));
        return HyprEvent::ActiveWindowV2(text::string_of(address));
    }
    if strip(all, "monitoraddedv2>>").is_some() || strip(all, "monitorremoved>>").is_some() {
        return HyprEvent::MonitorChanged;
    }
    if let Some(data) = strip(all, "workspacev2>>") {
        let (id, name) = match text::find_char(data, ',') {
            Some(k) => (
                text::trimmed(text::take(data, k)),
                text::string_of(text::trimmed(text::skip(data, k + 1))),
            ),
            None => (text::trimmed(data), String::new()),
        };
        if let Some(id) = number::to_i32(id) {
            return HyprEvent::WorkspaceV2 { id, name };
        }
    }
    HyprEvent::Other(line.to_owned())
}

/// Maximum event line buffer size (64KB) to prevent OOM from a misbehaving socket.
pub const MAX_EVENT_BUFFER: usize = 65536;

/// What has been read from the event socket and not been handed out.
#[derive(Debug)]
pub struct EventBuffer {
    pub remainder: String,
}

/// The first line that is not empty, and what follows it.
pub open spec fn next_line(s: Seq<char>) -> Option<(Seq<char>, Seq<char>)>
    decreases s.len(),
{
    match text::index_of(s, '\n') {
        Some(k) => if k == 0 {
            next_line(s.skip(1))
        } else {
            Some((s.take(k), s.skip(k + 1)))
        },
        None => None,
    }
}

/// What is left of `s` once there is no whole line left.
pub open spec fn unfinished(s: Seq<char>) -> Seq<char>
    decreases s.len(),
{
    if text::index_of(s, '\n') == Some(0int) {
        unfinished(s.skip(1))
    } else {
        s
    }
}

impl EventBuffer {
    /// A buffer with nothing in it.
    pub fn new() -> (r: EventBuffer)
        ensures
            r.remainder@.len() == 0,
    {
        EventBuffer { remainder: String::new() }
    }

    /// Adds what was read from the socket.
    pub fn feed(&mut self, chunk: &[u8])
        ensures
            final(self).remainder@ == old(self).remainder@ + encoding::lossy_text(chunk@),
            valid_utf8(chunk@) ==> final(self).remainder@ == old(self).remainder@ + decode_utf8(
                chunk@,
            ),
    {
        let text = encoding::utf8_lossy(chunk);
        self.feed_text(text.as_str());
    }

    /// Takes what a read from the socket gave. Nothing says that the compositor
    /// has closed it.
    pub fn on_read(&mut self, chunk: &[u8]) -> (r: Result<(), IpcError>)
        ensures
            match r {
                Ok(_) => chunk@.len() > 0 && final(self).remainder@ == old(self).remainder@
                    + encoding::lossy_text(chunk@),
                Err(e) => chunk@.len() == 0 && e.is(
                    IpcErrorKind::ConnectionReset,
                    "Hyprland event socket closed"@,
                ) && final(self).remainder@ == old(self).remainder@,
            },
            valid_utf8(chunk@) && chunk@.len() > 0 ==> final(self).remainder@ == old(
                self,
            ).remainder@ + decode_utf8(chunk@),
    {
        if chunk.len() == 0 {
            return Err(socket_closed());
        }
        self.feed(chunk);
        Ok(())
    }

    /// Adds text that was read from the socket.
    pub fn feed_text(&mut self, chunk: &str)
        ensures
            final(self).remainder@ == old(self).remainder@ + chunk@,
    {
        self.remainder.append(chunk);
    }

    /// Takes the next event out. `Ok(None)` says that more has to be read
    /// first; a line that is still unfinished beyond the greatest size is an
    /// error. Empty lines are passed over.
    pub fn next_event(&mut self) -> (r: Result<Option<HyprEvent>, IpcError>)
        ensures
            match next_line(old(self).remainder@) {
                Some((line, rest)) => r matches Ok(Some(e)) && e@ == event_of(line)
                    && final(self).remainder@ == rest,
                None => {
                    &&& final(self).remainder@ == unfinished(old(self).remainder@)
                    &&& if encode_utf8(final(self).remainder@).len() as usize > MAX_EVENT_BUFFER {
                        r matches Err(e) && e.is(
                            IpcErrorKind::InvalidData,
                            "event line too long (exceeds 64KB)"@,
                        )
                    } else {
                        r matches Ok(None)
                    }
                },
            },
    {
        let chars = text::chars_of(self.remainder.as_str());
        let mut rest = chars.as_slice();
        loop
            invariant
                next_line(old(self).remainder@) == next_line(rest@),
                next_line(rest@) is None ==> unfinished(old(self).remainder@) == unfinished(
                    rest@,
                ),
            decreases rest@.len(),
        {
            match text::find_char(rest, '\n') {
                Some(k) => {
                    if k > 0 {
                        let line = text::string_of(text::take(rest, k));
                        self.remainder = text::string_of(text::skip(rest, k + 1));
                        return Ok(Some(parse_event(line.as_str())));
                    }
                    rest = text::skip(rest, 1);
                },
                None => {
                    self.remainder = text::string_of(rest);
                    if self.remainder.as_str().len() > MAX_EVENT_BUFFER {
                        return Err(
                            IpcError::new(
                                IpcErrorKind::InvalidData,
                                "event line too long (exceeds 64KB)".to_owned(),
                            ),
                        );
                    }
                    return Ok(None);
                },
            }
        }
    }
}

/// The error for a socket that the compositor has closed.
pub fn socket_closed() -> (r: IpcError)
    ensures
        r.is(IpcErrorKind::ConnectionReset, "Hyprland event socket closed"@),
{
    IpcError::new(IpcErrorKind::ConnectionReset, "Hyprland event socket closed".to_owned())
}

proof fn lemma_index_in_front(s: Seq<char>, rest: Seq<char>)
    requires
        !s.contains('\n'),
    ensures
        text::index_of(s.push('\n') + rest, '\n') == Some(s.len() as int),
{
    let all = s.push('\n') + rest;
    text::lemma_index_from(all, '\n', 0);
    assert(all[s.len() as int] == '\n');
    assert forall|i: int| 0 <= i < s.len() implies all[i] != '\n' by {
        assert(s.contains(s[i]));
    }
}

/// Lines come out in the order in which they came in: the first one that is
/// not empty comes out first, and leaves the rest.
pub proof fn first_line_comes_out_first(line: Seq<char>, rest: Seq<char>)
    requires
        line.len() > 0,
        !line.contains('\n'),
    ensures
        next_line(line.push('\n') + rest) == Some((line, rest)),
{
    lemma_index_in_front(line, rest);
    let all = line.push('\n') + rest;
    assert(all.take(line.len() as int) == line);
    assert(all.skip(line.len() as int + 1) == rest);
}

proof fn lemma_first_index_stays(s: Seq<char>, more: Seq<char>)
    ensures
        text::index_of(s, '\n') matches Some(k) ==> text::index_of(s + more, '\n') == Some(k),
{
    text::lemma_index_from(s, '\n', 0);
    text::lemma_index_from(s + more, '\n', 0);
    if let Some(k) = text::index_of(s, '\n') {
        assert((s + more)[k] == '\n');
        assert forall|i: int| 0 <= i < k implies (s + more)[i] != '\n' by {
            assert((s + more)[i] == s[i]);
        }
    }
}

/// It does not matter in which chunks the lines arrive: a line that is whole
/// comes out as it is, whatever has arrived behind it.
pub proof fn later_chunks_change_no_whole_line(s: Seq<char>, more: Seq<char>)
    ensures
        next_line(s) matches Some((line, rest)) ==> next_line(s + more) == Some(
            (line, rest + more),
        ),
    decreases s.len(),
{
    lemma_first_index_stays(s, more);
    text::lemma_index_from(s, '\n', 0);
    if let Some(k) = text::index_of(s, '\n') {
        if k == 0 {
            later_chunks_change_no_whole_line(s.skip(1), more);
            assert((s + more).skip(1) == s.skip(1) + more);
        } else {
            assert((s + more).take(k) == s.take(k));
            assert((s + more).skip(k + 1) == s.skip(k + 1) + more);
        }
    }
}

/// It does not matter either where a line is cut: what was left unfinished and
/// what arrives later make the line that would have arrived at once.
pub proof fn cut_lines_are_put_together(s: Seq<char>, more: Seq<char>)
    requires
        next_line(s) is None,
    ensures
        next_line(unfinished(s) + more) == next_line(s + more),
    decreases s.len(),
{
    lemma_first_index_stays(s, more);
    text::lemma_index_from(s, '\n', 0);
    if text::index_of(s, '\n') == Some(0int) {
        cut_lines_are_put_together(s.skip(1), more);
        assert((s + more).skip(1) == s.skip(1) + more);
    }
}

/// Without a line feed there is no event yet, and nothing is lost.
pub proof fn unfinished_line_is_kept(s: Seq<char>)
    requires
        !s.contains('\n'),
    ensures
        next_line(s) is None,
        unfinished(s) == s,
{
    text::lemma_index_from(s, '\n', 0);
    if let Some(k) = text::index_of(s, '\n') {
        assert(s.contains(s[k]));
    }
}

/// The pieces that are not empty.
pub open spec fn non_empty(pieces: Seq<Seq<char>>) -> Seq<Seq<char>>
    decreases pieces.len(),
{
    if pieces.len() == 0 {
        Seq::empty()
    } else if pieces[0].len() == 0 {
        non_empty(pieces.skip(1))
    } else {
        seq![pieces[0]] + non_empty(pieces.skip(1))
    }
}

/// The lines of a stream that a line feed ends, without those that are empty.
pub open spec fn whole_lines(s: Seq<char>) -> Seq<Seq<char>> {
    non_empty(text::split(s, '\n').drop_last())
}

/// No line of the stream is longer than the greatest size, in characters, which
/// are the bytes of an ASCII stream.
pub open spec fn lines_fit(s: Seq<char>) -> bool {
    forall|i: int|
        0 <= i < text::split(s, '\n').len() ==> (#[trigger] text::split(s, '\n')[i]).len()
            <= MAX_EVENT_BUFFER
}

/// What a call for the next event comes to.
pub enum StreamResult {
    /// The event.
    Event(HyprEventView),
    /// A line is too long.
    TooLong,
    /// The compositor has closed the socket.
    Closed,
}

/// A stream of events: what has been read from the socket and not been handed
/// out, and what the next reads give, each UTF-8. Behind the last of them the
/// socket is closed.
pub struct Stream {
    pub kept: Seq<char>,
    pub reads: Seq<Seq<u8>>,
}

/// What a call for the next event comes to, and the stream behind it. It takes
/// an event out of what has been read; where there is none yet, it reads, and
/// tries again.
pub open spec fn next_of(s: Stream) -> (StreamResult, Stream)
    decreases s.reads.len(),
{
    match next_line(s.kept) {
        Some((line, rest)) => (
            StreamResult::Event(event_of(line)),
            Stream { kept: rest, reads: s.reads },
        ),
        None => {
            let kept = unfinished(s.kept);
            if encode_utf8(kept).len() as usize > MAX_EVENT_BUFFER {
                (StreamResult::TooLong, Stream { kept, reads: s.reads })
            } else if s.reads.len() == 0 || s.reads[0].len() == 0 {
                (StreamResult::Closed, Stream { kept, reads: s.reads })
            } else {
                next_of(Stream { kept: kept + decode_utf8(s.reads[0]), reads: s.reads.skip(1) })
            }
        },
    }
}

/// What the call number `k` for the next event comes to.
pub open spec fn nth_of(s: Stream, k: nat) -> StreamResult
    decreases k,
{
    if k == 0 {
        next_of(s).0
    } else {
        nth_of(next_of(s).1, (k - 1) as nat)
    }
}

/// The text that the reads give.
spec fn text_of(reads: Seq<Seq<u8>>) -> Seq<char>
    decreases reads.len(),
{
    if reads.len() == 0 {
        Seq::empty()
    } else {
        decode_utf8(reads[0]) + text_of(reads.skip(1))
    }
}

/// All that the stream still has.
spec fn all_of(s: Stream) -> Seq<char> {
    s.kept + text_of(s.reads)
}

/// Every read gives something, and all is ASCII.
spec fn reads_ascii(s: Stream) -> bool {
    is_ascii_chars(s.kept) && forall|i: int|
        0 <= i < s.reads.len() ==> (#[trigger] s.reads[i]).len() > 0 && encoding::is_ascii(
            s.reads[i],
        )
}

proof fn lemma_split_front(s: Seq<char>)
    ensures
        text::index_of(s, '\n') matches Some(k) ==> {
            &&& 0 <= k < s.len()
            &&& text::split(s, '\n').drop_last() == seq![s.take(k)] + text::split(
                s.skip(k + 1),
                '\n',
            ).drop_last()
            &&& lines_fit(s) ==> lines_fit(s.skip(k + 1))
        },
{
    text::lemma_index_from(s, '\n', 0);
    if let Some(k) = text::index_of(s, '\n') {
        let rest = text::split(s.skip(k + 1), '\n');
        let all = text::split(s, '\n');
        text::lemma_split_is_not_empty(s.skip(k + 1), '\n');
        assert(all == seq![s.take(k)] + rest);
        assert(all.drop_last() == seq![s.take(k)] + rest.drop_last());
        if lines_fit(s) {
            assert forall|i: int| 0 <= i < rest.len() implies (#[trigger] rest[i]).len()
                <= MAX_EVENT_BUFFER by {
                assert(all[i + 1] == rest[i]);
            }
        }
    }
}

proof fn lemma_next_of_lines(s: Seq<char>)
    ensures
        match next_line(s) {
            Some((line, rest)) => whole_lines(s) == seq![line] + whole_lines(rest) && (lines_fit(s)
                ==> lines_fit(rest)) && (is_ascii_chars(s) ==> is_ascii_chars(rest)),
            None => whole_lines(s).len() == 0,
        },
    decreases s.len(),
{
    lemma_split_front(s);
    match text::index_of(s, '\n') {
        Some(k) => {
            let pieces = text::split(s, '\n').drop_last();
            assert(pieces.skip(1) == text::split(s.skip(k + 1), '\n').drop_last());
            if k == 0 {
                lemma_next_of_lines(s.skip(1));
            }
        },
        None => {
            assert(text::split(s, '\n').drop_last() == Seq::<Seq<char>>::empty());
        },
    }
}

proof fn lemma_unfinished(s: Seq<char>, more: Seq<char>)
    requires
        next_line(s) is None,
    ensures
        whole_lines(unfinished(s) + more) == whole_lines(s + more),
        lines_fit(s + more) ==> lines_fit(unfinished(s) + more),
        lines_fit(s + more) ==> unfinished(s).len() <= MAX_EVENT_BUFFER,
        is_ascii_chars(s) ==> is_ascii_chars(unfinished(s)),
    decreases s.len(),
{
    let all = s + more;
    lemma_first_index_stays(s, more);
    text::lemma_index_from(s, '\n', 0);
    lemma_split_front(all);
    if text::index_of(s, '\n') == Some(0int) {
        lemma_unfinished(s.skip(1), more);
        assert(all.skip(1) == s.skip(1) + more);
        let pieces = text::split(all, '\n').drop_last();
        assert(pieces.skip(1) == text::split(all.skip(1), '\n').drop_last());
    } else {
        text::lemma_index_from(all, '\n', 0);
        if lines_fit(all) {
            let first = text::split(all, '\n')[0];
            assert(first.len() >= s.len()) by {
                if let Some(k) = text::index_of(all, '\n') {
                    if k < s.len() {
                        assert(s[k] == all[k]);
                    }
                    assert(first == all.take(k));
                } else {
                    assert(first == all);
                }
            }
        }
    }
}

proof fn lemma_next_of(s: Stream)
    requires
        reads_ascii(s),
        lines_fit(all_of(s)),
    ensures
        whole_lines(all_of(s)).len() == 0 ==> next_of(s).0 == StreamResult::Closed,
        whole_lines(all_of(s)).len() > 0 ==> {
            let (result, behind) = next_of(s);
            &&& result == StreamResult::Event(event_of(whole_lines(all_of(s))[0]))
            &&& reads_ascii(behind)
            &&& lines_fit(all_of(behind))
            &&& whole_lines(all_of(behind)) == whole_lines(all_of(s)).skip(1)
        },
    decreases s.reads.len(),
{
    let more = text_of(s.reads);
    match next_line(s.kept) {
        Some((line, rest)) => {
            later_chunks_change_no_whole_line(s.kept, more);
            lemma_next_of_lines(s.kept);
            lemma_next_of_lines(all_of(s));
            let behind = next_of(s).1;
            assert(all_of(behind) == rest + more);
            assert((seq![line] + whole_lines(rest + more)).skip(1) == whole_lines(rest + more));
        },
        None => {
            let kept = unfinished(s.kept);
            lemma_unfinished(s.kept, more);
            vstd::utf8::is_ascii_chars_encode_utf8(kept);
            if s.reads.len() == 0 {
                assert(all_of(s) == s.kept);
                lemma_next_of_lines(s.kept);
            } else {
                let read = s.reads[0];
                let behind = Stream { kept: kept + decode_utf8(read), reads: s.reads.skip(1) };
                encoding::ascii_is_utf8(read);
                assert(all_of(behind) == kept + more);
                assert(reads_ascii(behind)) by {
                    assert forall|i: int| 0 <= i < behind.kept.len() implies '\0'
                        <= #[trigger] behind.kept[i] <= '\u{7f}' by {
                        if i >= kept.len() {
                            assert(behind.kept[i] == decode_utf8(read)[i - kept.len()]);
                        }
                    }
                    assert forall|i: int| 0 <= i < behind.reads.len() implies (
                    #[trigger] behind.reads[i]).len() > 0 && encoding::is_ascii(
                        behind.reads[i],
                    ) by {
                        assert(behind.reads[i] == s.reads[i + 1]);
                    }
                }
                lemma_next_of(behind);
            }
        },
    }
}

proof fn lemma_nth_of(s: Stream, k: nat)
    requires
        reads_ascii(s),
        lines_fit(all_of(s)),
        k <= whole_lines(all_of(s)).len(),
    ensures
        nth_of(s, k) == (if k < whole_lines(all_of(s)).len() {
            StreamResult::Event(event_of(whole_lines(all_of(s))[k as int]))
        } else {
            StreamResult::Closed
        }),
    decreases k,
{
    lemma_next_of(s);
    if k > 0 {
        lemma_nth_of(next_of(s).1, (k - 1) as nat);
    }
}

proof fn lemma_text_of(reads: Seq<Seq<u8>>)
    requires
        encoding::is_ascii(reads.flatten()),
    ensures
        text_of(reads) == decode_utf8(reads.flatten()),
        forall|i: int| 0 <= i < reads.len() ==> encoding::is_ascii(#[trigger] reads[i]),
    decreases reads.len(),
{
    let all = reads.flatten();
    encoding::ascii_is_utf8(all);
    if reads.len() > 0 {
        let first = reads[0];
        let rest = reads.skip(1);
        assert(reads.drop_first() == rest);
        assert(all == first + rest.flatten());
        assert(encoding::is_ascii(first)) by {
            assert forall|i: int| 0 <= i < first.len() implies #[trigger] first[i] < 0x80 by {
                assert(all[i] == first[i]);
            }
        }
        assert(encoding::is_ascii(rest.flatten())) by {
            assert forall|i: int| 0 <= i < rest.flatten().len() implies #[trigger] rest.flatten()[i]
                < 0x80 by {
                assert(all[i + first.len()] == rest.flatten()[i]);
            }
        }
        encoding::ascii_is_utf8(first);
        encoding::ascii_is_utf8(rest.flatten());
        lemma_text_of(rest);
        assert forall|i: int| 0 <= i < reads.len() implies encoding::is_ascii(
            #[trigger] reads[i],
        ) by {
            if i > 0 {
                assert(reads[i] == rest[i - 1]);
            }
        }
        assert(text_of(reads) == decode_utf8(all));
    }
}

/// A stream of ASCII bytes gives its lines, whatever the reads cut it into: call
/// number `k` for the next event gives the event of line `k`, without the empty
/// ones. No line is lost, repeated, cut or moved. Behind the last line the
/// socket is closed.
pub proof fn stream_gives_its_lines(reads: Seq<Seq<u8>>, k: nat)
    requires
        encoding::is_ascii(reads.flatten()),
        forall|i: int| 0 <= i < reads.len() ==> (#[trigger] reads[i]).len() > 0,
        lines_fit(decode_utf8(reads.flatten())),
        k <= whole_lines(decode_utf8(reads.flatten())).len(),
    ensures
        ({
            let lines = whole_lines(decode_utf8(reads.flatten()));
            nth_of(Stream { kept: Seq::empty(), reads }, k) == (if k < lines.len() {
                StreamResult::Event(event_of(lines[k as int]))
            } else {
                StreamResult::Closed
            })
        }),
{
    let s = Stream { kept: Seq::empty(), reads };
    lemma_text_of(reads);
    assert(all_of(s) == decode_utf8(reads.flatten()));
    lemma_nth_of(s, k);
}

proof fn lemma_other_start(line: Seq<char>, prefix: Seq<char>)
    requires
        line.len() > 0,
        prefix.len() > 0,
        line[0] != prefix[0],
    ensures
        !text::starts_with(line, prefix),
{
    if text::starts_with(line, prefix) {
        assert(line.take(prefix.len() as int)[0] == prefix[0]);
    }
}

/// A `workspacev2` line tells of the workspace whose id and name it carries,
/// commas in the name included.
pub proof fn workspace_line_is_understood(id: i32, name: Seq<char>)
    ensures
        event_of("workspacev2>>"@ + number::int_text(id as int) + seq![','] + name)
            == (HyprEventView::WorkspaceV2 { id, name: text::trim(name) }),
{
    let number = number::int_text(id as int);
    let data = number + seq![','] + name;
    let line = "workspacev2>>"@ + data;
    assert(line == "workspacev2>>"@ + number + seq![','] + name);
    reveal_strlit("workspacev2>>");
    reveal_strlit("activewindowv2>>");
    reveal_strlit("openwindow>>");
    reveal_strlit("closewindow>>");
    reveal_strlit("movewindowv2>>");
    reveal_strlit("movewindow>>");
    reveal_strlit("monitoraddedv2>>");
    reveal_strlit("monitorremoved>>");
    assert(line[0] == 'w');
    lemma_other_start(line, "activewindowv2>>"@);
    lemma_other_start(line, "openwindow>>"@);
    lemma_other_start(line, "closewindow>>"@);
    lemma_other_start(line, "movewindowv2>>"@);
    lemma_other_start(line, "movewindow>>"@);
    lemma_other_start(line, "monitoraddedv2>>"@);
    lemma_other_start(line, "monitorremoved>>"@);
    assert(line.take(13) == "workspacev2>>"@);
    assert(line.skip(13) == data);
    number::lemma_int_text_chars(id as int);
    number::int_text_round_trip(id as int);
    text::lemma_index_from(data, ',', 0);
    assert(data[number.len() as int] == ',');
    assert forall|i: int| 0 <= i < number.len() implies data[i] != ',' by {
        assert(data[i] == number[i]);
    }
    assert(text::index_of(data, ',') == Some(number.len() as int));
    assert(data.take(number.len() as int) == number);
    assert(data.skip(number.len() as int + 1) == name);
    assert(text::trim(number) == number) by {
        assert(!text::is_white_space(number[0]));
        assert(!text::is_white_space(number.last()));
        assert(text::trim_start(number) == number);
        assert(text::trim_end(number) == number);
    }
}

/// A line begins with the name of an event and `>>`, and `data` stands behind it.
pub open spec fn reads(line: Seq<char>, prefix: Seq<char>, data: Seq<char>) -> bool {
    line == prefix + data
}

proof fn lemma_starts(line: Seq<char>, prefix: Seq<char>, data: Seq<char>)
    requires
        reads(line, prefix, data),
    ensures
        text::starts_with(line, prefix),
        behind(line, prefix) == data,
{
    assert(line.take(prefix.len() as int) == prefix);
    assert(line.skip(prefix.len() as int) == data);
}

proof fn lemma_starts_otherwise(line: Seq<char>, prefix: Seq<char>, i: int)
    requires
        0 <= i < prefix.len(),
        i < line.len(),
        line[i] != prefix[i],
    ensures
        !text::starts_with(line, prefix),
{
    if text::starts_with(line, prefix) {
        assert(line.take(prefix.len() as int)[i] == prefix[i]);
    }
}

proof fn lemma_event_names()
    ensures
        "activewindowv2>>"@.len() == 16,
        "activewindowv2>>"@[0] == 'a',
        "openwindow>>"@.len() == 12,
        "openwindow>>"@[0] == 'o',
        "closewindow>>"@.len() == 13,
        "closewindow>>"@[0] == 'c',
        "movewindowv2>>"@.len() == 14,
        "movewindowv2>>"@[0] == 'm',
        "movewindowv2>>"@[2] == 'v',
        "movewindowv2>>"@[10] == 'v',
        "movewindow>>"@.len() == 12,
        "movewindow>>"@[0] == 'm',
        "movewindow>>"@[2] == 'v',
        "movewindow>>"@[10] == '>',
        "monitoraddedv2>>"@.len() == 16,
        "monitoraddedv2>>"@[0] == 'm',
        "monitoraddedv2>>"@[2] == 'n',
        "monitorremoved>>"@.len() == 16,
        "monitorremoved>>"@[0] == 'm',
        "monitorremoved>>"@[2] == 'n',
        "workspacev2>>"@.len() == 13,
        "workspacev2>>"@[0] == 'w',
{
    reveal_strlit("activewindowv2>>");
    reveal_strlit("openwindow>>");
    reveal_strlit("closewindow>>");
    reveal_strlit("movewindowv2>>");
    reveal_strlit("movewindow>>");
    reveal_strlit("monitoraddedv2>>");
    reveal_strlit("monitorremoved>>");
    reveal_strlit("workspacev2>>");
}

/// A line that says which window is active carries its address, whatever that holds.
pub proof fn active_window_line_carries_the_address(line: &str, data: Seq<char>, r: HyprEvent)
    requires
        call_ensures(parse_event, (line,), r),
        reads(line@, "activewindowv2>>"@, data),
    ensures
        r matches HyprEvent::ActiveWindowV2(address) && address@ == text::trim(data),
{
    lemma_starts(line@, "activewindowv2>>"@, data);
}

/// A line that says that a window opened, closed or moved carries the address of
/// that window, which is what stands before the first comma.
pub proof fn window_line_carries_the_address(
    line: &str,
    prefix: Seq<char>,
    address: Seq<char>,
    more: Seq<char>,
    r: HyprEvent,
)
    requires
        call_ensures(parse_event, (line,), r),
        prefix == "openwindow>>"@ || prefix == "closewindow>>"@ || prefix == "movewindow>>"@
            || prefix == "movewindowv2>>"@,
        !address.contains(','),
        reads(line@, prefix, address) || reads(line@, prefix, address + seq![','] + more),
    ensures
        r matches HyprEvent::ActiveWindowV2(shown) && shown@ == text::trim(address),
{
    lemma_event_names();
    let data = if reads(line@, prefix, address) {
        address
    } else {
        address + seq![','] + more
    };
    lemma_starts(line@, prefix, data);
    text::first_separator_splits(data, ',', address, more);
    assert(line@[0] == prefix[0]);
    lemma_starts_otherwise(line@, "activewindowv2>>"@, 0);
    if prefix == "closewindow>>"@ {
        lemma_starts_otherwise(line@, "openwindow>>"@, 0);
    } else if prefix != "openwindow>>"@ {
        lemma_starts_otherwise(line@, "openwindow>>"@, 0);
        lemma_starts_otherwise(line@, "closewindow>>"@, 0);
        if prefix == "movewindow>>"@ {
            assert(line@[10] == prefix[10]);
            lemma_starts_otherwise(line@, "movewindowv2>>"@, 10);
        }
    }
    assert(window_fields(line@) == Some(data));
}

/// A line that says that a monitor came or went tells of the monitors, whatever
/// stands behind.
pub proof fn monitor_line_tells_of_the_monitors(line: &str, data: Seq<char>, r: HyprEvent)
    requires
        call_ensures(parse_event, (line,), r),
        reads(line@, "monitoraddedv2>>"@, data) || reads(line@, "monitorremoved>>"@, data),
    ensures
        r is MonitorChanged,
{
    lemma_event_names();
    let prefix = if reads(line@, "monitoraddedv2>>"@, data) {
        "monitoraddedv2>>"@
    } else {
        "monitorremoved>>"@
    };
    lemma_starts(line@, prefix, data);
    assert(line@[0] == prefix[0] && line@[2] == prefix[2]);
    lemma_starts_otherwise(line@, "activewindowv2>>"@, 0);
    lemma_starts_otherwise(line@, "openwindow>>"@, 0);
    lemma_starts_otherwise(line@, "closewindow>>"@, 0);
    lemma_starts_otherwise(line@, "movewindowv2>>"@, 2);
    lemma_starts_otherwise(line@, "movewindow>>"@, 2);
}

/// A line with none of these names is any other event, and is kept as it is; so is
/// a line about a workspace whose id is no number.
pub proof fn other_lines_are_kept(line: &str, r: HyprEvent)
    requires
        call_ensures(parse_event, (line,), r),
        forall|data: Seq<char>|
            !#[trigger] reads(line@, "activewindowv2>>"@, data) && !reads(
                line@,
                "openwindow>>"@,
                data,
            ) && !reads(line@, "closewindow>>"@, data) && !reads(line@, "movewindow>>"@, data)
                && !reads(line@, "movewindowv2>>"@, data) && !reads(
                line@,
                "monitoraddedv2>>"@,
                data,
            ) && !reads(line@, "monitorremoved>>"@, data) && (reads(line@, "workspacev2>>"@, data)
                ==> number::parse_i32(text::trim(text::before(data, ','))) is None),
    ensures
        r matches HyprEvent::Other(same) && same@ == line@,
{
    lemma_starting_line_reads(line@, "activewindowv2>>"@);
    lemma_starting_line_reads(line@, "openwindow>>"@);
    lemma_starting_line_reads(line@, "closewindow>>"@);
    lemma_starting_line_reads(line@, "movewindow>>"@);
    lemma_starting_line_reads(line@, "movewindowv2>>"@);
    lemma_starting_line_reads(line@, "monitoraddedv2>>"@);
    lemma_starting_line_reads(line@, "monitorremoved>>"@);
    lemma_starting_line_reads(line@, "workspacev2>>"@);
    assert(!reads(line@, "activewindowv2>>"@, behind(line@, "activewindowv2>>"@)));
    assert(!reads(line@, "activewindowv2>>"@, behind(line@, "openwindow>>"@)));
    assert(!reads(line@, "activewindowv2>>"@, behind(line@, "closewindow>>"@)));
    assert(!reads(line@, "activewindowv2>>"@, behind(line@, "movewindow>>"@)));
    assert(!reads(line@, "activewindowv2>>"@, behind(line@, "movewindowv2>>"@)));
    assert(!reads(line@, "activewindowv2>>"@, behind(line@, "monitoraddedv2>>"@)));
    assert(!reads(line@, "activewindowv2>>"@, behind(line@, "monitorremoved>>"@)));
    assert(!reads(line@, "activewindowv2>>"@, behind(line@, "workspacev2>>"@)));
}

proof fn lemma_starting_line_reads(line: Seq<char>, prefix: Seq<char>)
    ensures
        text::starts_with(line, prefix) ==> reads(line, prefix, behind(line, prefix)),
{
    if text::starts_with(line, prefix) {
        assert(line == line.take(prefix.len() as int) + line.skip(prefix.len() as int));
    }
}

/// All of `s` are line feeds.
pub open spec fn all_line_feeds(s: Seq<char>) -> bool {
    forall|i: int| 0 <= i < s.len() ==> #[trigger] s[i] == '\n'
}

/// The next line is the first that is not empty, with nothing but line feeds before
/// it; there is none only where no line feed ends such a line, and then what is
/// left over is all but those line feeds.
pub proof fn next_line_is_the_first_whole_one(s: Seq<char>) -> (feeds: Seq<char>)
    ensures
        all_line_feeds(feeds),
        match next_line(s) {
            Some((line, rest)) => line.len() > 0 && !line.contains('\n') && s == feeds + line
                + seq!['\n'] + rest,
            None => s == feeds + unfinished(s) && !unfinished(s).contains('\n'),
        },
    decreases s.len(),
{
    text::lemma_index_from(s, '\n', 0);
    match text::index_of(s, '\n') {
        Some(k) => {
            if k == 0 {
                let fewer = next_line_is_the_first_whole_one(s.skip(1));
                let feeds = seq!['\n'] + fewer;
                assert(s == seq!['\n'] + s.skip(1));
                if let Some((line, rest)) = next_line(s) {
                    assert(seq!['\n'] + (fewer + line + seq!['\n'] + rest) == feeds + line + seq![
                        '\n',
                    ] + rest);
                } else {
                    assert(seq!['\n'] + (fewer + unfinished(s)) == feeds + unfinished(s));
                }
                feeds
            } else {
                let none = Seq::<char>::empty();
                assert(!s.take(k).contains('\n'));
                assert(s == none + s.take(k) + seq!['\n'] + s.skip(k + 1));
                none
            }
        },
        None => {
            let none = Seq::<char>::empty();
            assert(s == none + s);
            none
        },
    }
}

/// A line about a workspace tells the number before its first comma and the name
/// behind it, each trimmed. Without a comma there is no name.
pub proof fn workspace_line_tells_number_and_name(
    line: &str,
    id: Seq<char>,
    name: Seq<char>,
    r: HyprEvent,
)
    requires
        call_ensures(parse_event, (line,), r),
        !id.contains(','),
        number::parse_i32(text::trim(id)) is Some,
        reads(line@, "workspacev2>>"@, id + seq![','] + name) || reads(
            line@,
            "workspacev2>>"@,
            id,
        ),
    ensures
        r matches HyprEvent::WorkspaceV2 { id: number, name: called } && {
            &&& number == number::parse_i32(text::trim(id))->0
            &&& reads(line@, "workspacev2>>"@, id + seq![','] + name) ==> called@ == text::trim(
                name,
            )
            &&& reads(line@, "workspacev2>>"@, id) ==> called@.len() == 0
        },
{
    lemma_event_names();
    let with_name = id + seq![','] + name;
    text::first_separator_splits(with_name, ',', id, name);
    text::first_separator_splits(id, ',', id, name);
    let data = if reads(line@, "workspacev2>>"@, id) {
        id
    } else {
        with_name
    };
    lemma_starts(line@, "workspacev2>>"@, data);
    if reads(line@, "workspacev2>>"@, with_name) {
        lemma_starts(line@, "workspacev2>>"@, with_name);
        assert(with_name[id.len() as int] == ',');
        if data == id {
            assert(with_name == id);
        }
    }
    assert(line@[0] == "workspacev2>>"@[0]);
    lemma_starts_otherwise(line@, "activewindowv2>>"@, 0);
    lemma_starts_otherwise(line@, "openwindow>>"@, 0);
    lemma_starts_otherwise(line@, "closewindow>>"@, 0);
    lemma_starts_otherwise(line@, "movewindowv2>>"@, 0);
    lemma_starts_otherwise(line@, "movewindow>>"@, 0);
    lemma_starts_otherwise(line@, "monitoraddedv2>>"@, 0);
    lemma_starts_otherwise(line@, "monitorremoved>>"@, 0);
}

} // verus!

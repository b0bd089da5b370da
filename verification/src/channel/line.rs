//! IRC lines, and the channel events that they tell of.

use vstd::prelude::*;
use vstd::string::*;

use crate::collections::{copy_texts, held, texts, StringMap};
use crate::text::{
    after_prefix, ascii_upper, before_suffix, begins_with, cut_once, eq_ignoring_case, first_at,
    index_of_char, is_nick_mark, join, join_from, lower, lowered, same_ignoring_case, same_text,
    split_at_each, split_on, split_once, split_words, starts_with_char, strip_leading,
    to_ascii_upper, trim, trimmed, without_nick_marks, words,
};

verus! {

/// One line from an IRC server.
#[derive(Debug)]
pub struct ParsedIrcLine {
    pub nick: Option<String>,
    pub command: String,
    pub params: Vec<String>,
    pub trailing: Option<String>,
}

/// What a `ParsedIrcLine` holds.
#[verifier::ext_equal]
pub struct LineView {
    pub nick: Option<Seq<char>>,
    pub command: Seq<char>,
    pub params: Seq<Seq<char>>,
    pub trailing: Option<Seq<char>>,
}

impl View for ParsedIrcLine {
    type V = LineView;

    open spec fn view(&self) -> LineView {
        LineView {
            nick: held(self.nick),
            command: self.command@,
            params: texts(self.params@),
            trailing: held(self.trailing),
        }
    }
}

/// The params before, and the text behind, the first piece that begins with
/// `:`. Empty pieces are no params.
pub open spec fn arguments(pieces: Seq<Seq<char>>) -> (Seq<Seq<char>>, Option<Seq<char>>)
    decreases pieces.len(),
{
    if pieces.len() == 0 {
        (Seq::empty(), None)
    } else if pieces[0].len() == 0 {
        arguments(pieces.drop_first())
    } else if begins_with(pieces[0], ':') {
        let rest = pieces.drop_first();
        let more = if rest.len() > 0 {
            " "@ + join(rest, " "@)
        } else {
            Seq::empty()
        };
        (Seq::empty(), Some(pieces[0].skip(1) + more))
    } else {
        let (params, trailing) = arguments(pieces.drop_first());
        (seq![pieces[0]] + params, trailing)
    }
}

/// The params and the trailing text of what follows the command.
pub open spec fn command_arguments(args: Option<Seq<char>>) -> (Seq<Seq<char>>, Option<Seq<char>>) {
    match args {
        None => (Seq::empty(), None),
        Some(args) => if begins_with(args, ':') {
            (Seq::empty(), Some(args.skip(1)))
        } else {
            arguments(split_on(args, ' '))
        },
    }
}

/// The line whose prefix is `prefix` and whose rest is `body`.
pub open spec fn line_of(prefix: Option<Seq<char>>, body: Seq<char>) -> LineView {
    let (command, args) = match cut_once(body, ' ') {
        Some((command, args)) => (command, Some(args)),
        None => (body, None),
    };
    let (params, trailing) = command_arguments(args);
    LineView {
        nick: match prefix {
            Some(prefix) => Some(prefix.take(first_at(prefix, '!'))),
            None => None,
        },
        command: ascii_upper(command),
        params,
        trailing,
    }
}

/// What a raw line says; nothing, if all of it is a prefix.
pub open spec fn line_parts(line: Seq<char>) -> Option<LineView> {
    if begins_with(line, ':') {
        match cut_once(line.skip(1), ' ') {
            Some((prefix, body)) => Some(line_of(Some(prefix), body)),
            None => None,
        }
    } else {
        Some(line_of(None, line))
    }
}

fn split_arguments(args: &str) -> (r: (Vec<String>, Option<String>))
    ensures
        (texts(r.0@), held(r.1)) == arguments(split_on(args@, ' ')),
{
    let pieces = split_at_each(args, ' ');
    let ghost all = texts(pieces@);
    let mut params: Vec<String> = Vec::new();
    let mut i: usize = 0;
    proof {
        assert(all.skip(0) =~= all);
        assert(texts(params@) + arguments(all).0 =~= arguments(all).0);
    }
    while i < pieces.len()
        invariant
            i <= pieces@.len(),
            all == texts(pieces@),
            all == split_on(args@, ' '),
            arguments(all) == (
                texts(params@) + arguments(all.skip(i as int)).0,
                arguments(all.skip(i as int)).1,
            ),
        decreases pieces@.len() - i,
    {
        let ghost here = all.skip(i as int);
        proof {
            assert(here[0] == pieces@[i as int]@);
            assert(here.drop_first() =~= all.skip(i + 1));
        }
        let piece = pieces[i].as_str();
        if !piece.is_empty() {
            if starts_with_char(piece, ':') {
                let n = piece.unicode_len();
                assert(piece@.subrange(1, n as int) =~= piece@.skip(1));
                let mut text = piece.substring_char(1, n).to_owned();
                let ghost first = text@;
                if i + 1 < pieces.len() {
                    text.append(" ");
                    text.append(join_from(&pieces, i + 1, " ").as_str());
                    assert(text@ =~= first + (" "@ + join(all.skip(i + 1), " "@)));
                } else {
                    assert(text@ =~= first + Seq::<char>::empty());
                }
                assert(texts(params@) + Seq::<Seq<char>>::empty() =~= texts(params@));
                return (params, Some(text));
            }
            let ghost before = texts(params@);
            params.push(pieces[i].clone());
            proof {
                let later = arguments(all.skip(i + 1)).0;
                assert(texts(params@) =~= before.push(piece@));
                assert(before + (seq![piece@] + later) =~= texts(params@) + later);
            }
        }
        i += 1;
    }
    proof {
        assert(texts(params@) + Seq::<Seq<char>>::empty() =~= texts(params@));
    }
    (params, None)
}

/// Split one raw IRC line into prefix nick, command, params and trailing
/// text. Numbers and commands are compared case-insensitively on the wire.
pub fn parse_irc_line(line: &str) -> (r: Option<ParsedIrcLine>)
    ensures
        match r {
            Some(parsed) => line_parts(line@) == Some(parsed@),
            None => line_parts(line@) is None,
        },
{
    let n = line.unicode_len();
    let (nick, body): (Option<String>, &str) = if starts_with_char(line, ':') {
        assert(line@.subrange(1, n as int) =~= line@.skip(1));
        match split_once(line.substring_char(1, n), ' ') {
            Some((prefix, body)) => {
                let at = index_of_char(prefix, '!');
                assert(prefix@.subrange(0, at as int) =~= prefix@.take(at as int));
                (Some(prefix.substring_char(0, at).to_owned()), body)
            },
            None => {
                return None;
            },
        }
    } else {
        (None, line)
    };
    let (command, args): (&str, Option<&str>) = match split_once(body, ' ') {
        Some((command, args)) => (command, Some(args)),
        None => (body, None),
    };
    let (params, trailing): (Vec<String>, Option<String>) = match args {
        None => (Vec::new(), None),
        Some(args) => if starts_with_char(args, ':') {
            let m = args.unicode_len();
            assert(args@.subrange(1, m as int) =~= args@.skip(1));
            (Vec::new(), Some(args.substring_char(1, m).to_owned()))
        } else {
            split_arguments(args)
        },
    };
    proof {
        if args is None || begins_with(args->0@, ':') {
            assert(texts(params@) =~= Seq::<Seq<char>>::empty());
        }
    }
    Some(ParsedIrcLine { nick, command: to_ascii_upper(command), params, trailing })
}

/// Channel events observed by one connected IRC session and forwarded to the
/// room bridge. Nicks are the display casing the server used.
#[derive(Debug, PartialEq)]
pub enum IrcEvent {
    /// Registration completed; `nick` is the nick the server accepted.
    Ready { nick: String },
    Message { nick: String, text: String },
    Action { nick: String, text: String },
    Joined { nick: String },
    Parted { nick: String },
    Quit { nick: String },
    Renamed { old: String, new: String },
    /// A complete `353`/`366` channel listing.
    Names { nicks: Vec<String> },
    /// The connection ended (EOF/error), not a deliberate QUIT.
    Disconnected,
}

/// What an `IrcEvent` holds.
#[verifier::ext_equal]
pub enum EventView {
    Ready { nick: Seq<char> },
    Message { nick: Seq<char>, text: Seq<char> },
    Action { nick: Seq<char>, text: Seq<char> },
    Joined { nick: Seq<char> },
    Parted { nick: Seq<char> },
    Quit { nick: Seq<char> },
    Renamed { old_nick: Seq<char>, new_nick: Seq<char> },
    Names { nicks: Seq<Seq<char>> },
    Disconnected,
}

impl View for IrcEvent {
    type V = EventView;

    open spec fn view(&self) -> EventView {
        match self {
            IrcEvent::Ready { nick } => EventView::Ready { nick: nick@ },
            IrcEvent::Message { nick, text } => EventView::Message { nick: nick@, text: text@ },
            IrcEvent::Action { nick, text } => EventView::Action { nick: nick@, text: text@ },
            IrcEvent::Joined { nick } => EventView::Joined { nick: nick@ },
            IrcEvent::Parted { nick } => EventView::Parted { nick: nick@ },
            IrcEvent::Quit { nick } => EventView::Quit { nick: nick@ },
            IrcEvent::Renamed { old, new } => EventView::Renamed {
                old_nick: old@,
                new_nick: new@,
            },
            IrcEvent::Names { nicks } => EventView::Names { nicks: texts(nicks@) },
            IrcEvent::Disconnected => EventView::Disconnected,
        }
    }
}

impl Clone for IrcEvent {
    fn clone(&self) -> (r: IrcEvent)
        ensures
            r@ == self@,
    {
        match self {
            IrcEvent::Ready { nick } => IrcEvent::Ready { nick: nick.clone() },
            IrcEvent::Message { nick, text } => IrcEvent::Message {
                nick: nick.clone(),
                text: text.clone(),
            },
            IrcEvent::Action { nick, text } => IrcEvent::Action {
                nick: nick.clone(),
                text: text.clone(),
            },
            IrcEvent::Joined { nick } => IrcEvent::Joined { nick: nick.clone() },
            IrcEvent::Parted { nick } => IrcEvent::Parted { nick: nick.clone() },
            IrcEvent::Quit { nick } => IrcEvent::Quit { nick: nick.clone() },
            IrcEvent::Renamed { old, new } => IrcEvent::Renamed {
                old: old.clone(),
                new: new.clone(),
            },
            IrcEvent::Names { nicks } => IrcEvent::Names { nicks: copy_texts(nicks) },
            IrcEvent::Disconnected => IrcEvent::Disconnected,
        }
    }
}

/// The event that an option holds.
pub open spec fn event_in(event: Option<IrcEvent>) -> Option<EventView> {
    match event {
        Some(event) => Some(event@),
        None => None,
    }
}

/// Nicks gathered from the parts of a channel listing.
#[derive(Debug)]
pub struct NickList {
    pub nicks: Vec<String>,
}

impl View for NickList {
    type V = Seq<Seq<char>>;

    open spec fn view(&self) -> Seq<Seq<char>> {
        texts(self.nicks@)
    }
}

/// The nicks of a listing: its words without the marks in front of them.
pub open spec fn listed_nicks(names: Seq<Seq<char>>) -> Seq<Seq<char>>
    decreases names.len(),
{
    if names.len() == 0 {
        Seq::empty()
    } else {
        let before = listed_nicks(names.drop_last());
        let nick = strip_leading(names.last(), |c: char| is_nick_mark(c));
        if nick.len() == 0 {
            before
        } else {
            before.push(nick)
        }
    }
}

/// Whether one of `nicks` is the same as `nick` but for its case.
pub open spec fn names_nick(nicks: Seq<Seq<char>>, nick: Seq<char>) -> bool {
    exists|i: int| 0 <= i < nicks.len() && lower(#[trigger] nicks[i]) == lower(nick)
}

/// `nicks` without those that an earlier one equals but for its case.
pub open spec fn first_of_each(nicks: Seq<Seq<char>>) -> Seq<Seq<char>>
    decreases nicks.len(),
{
    if nicks.len() == 0 {
        Seq::empty()
    } else {
        let before = first_of_each(nicks.drop_last());
        if names_nick(nicks.drop_last(), nicks.last()) {
            before
        } else {
            before.push(nicks.last())
        }
    }
}

/// The `i`th param, or the name of the watched channel.
pub open spec fn channel_key(line: LineView, i: int, channel: Seq<char>) -> Seq<char> {
    if i < line.params.len() {
        line.params[i]
    } else {
        channel
    }
}

/// Whether a `JOIN` line names the channel.
pub open spec fn joins(line: LineView, channel: Seq<char>) -> bool {
    ||| exists|i: int|
        0 <= i < line.params.len() && same_ignoring_case(#[trigger] line.params[i], channel)
    ||| line.trailing is Some && same_ignoring_case(line.trailing->0, channel)
}

/// The new nick that a `NICK` line announces.
pub open spec fn announced_nick(line: LineView) -> Option<Seq<char>> {
    match line.trailing {
        Some(nick) => Some(nick),
        None => if line.params.len() > 0 {
            Some(line.params[0])
        } else {
            None
        },
    }
}

/// Speech on the channel: an action where it is wrapped as one, a message
/// otherwise.
pub open spec fn speech(nick: Seq<char>, text: Seq<char>) -> EventView {
    let body = text.skip("\u{1}ACTION"@.len() as int);
    if "\u{1}ACTION"@.is_prefix_of(text) && "\u{1}"@.is_suffix_of(body) {
        EventView::Action { nick, text: trim(body.take(body.len() - "\u{1}"@.len())) }
    } else {
        EventView::Message { nick, text }
    }
}

/// What a line tells of the watched channel, and the listings gathered after it.
pub open spec fn observed(
    channel: Seq<char>,
    line: LineView,
    names: Map<Seq<char>, Seq<Seq<char>>>,
) -> (Map<Seq<char>, Seq<Seq<char>>>, Option<EventView>) {
    if line.command == "PRIVMSG"@ {
        (
            names,
            if line.params.len() > 0 && same_ignoring_case(line.params[0], channel)
                && line.nick is Some && line.trailing is Some {
                Some(speech(line.nick->0, line.trailing->0))
            } else {
                None
            },
        )
    } else if line.command == "JOIN"@ {
        (
            names,
            if joins(line, channel) && line.nick is Some {
                Some(EventView::Joined { nick: line.nick->0 })
            } else {
                None
            },
        )
    } else if line.command == "PART"@ {
        (
            names,
            if line.params.len() > 0 && same_ignoring_case(line.params[0], channel)
                && line.nick is Some {
                Some(EventView::Parted { nick: line.nick->0 })
            } else {
                None
            },
        )
    } else if line.command == "QUIT"@ {
        (
            names,
            if line.nick is Some {
                Some(EventView::Quit { nick: line.nick->0 })
            } else {
                None
            },
        )
    } else if line.command == "NICK"@ {
        (
            names,
            if line.nick is Some && announced_nick(line) is Some {
                Some(
                    EventView::Renamed {
                        old_nick: line.nick->0,
                        new_nick: announced_nick(line)->0,
                    },
                )
            } else {
                None
            },
        )
    } else if line.command == "353"@ {
        let key = channel_key(line, 2, channel);
        let before = if names.contains_key(key) {
            names[key]
        } else {
            Seq::empty()
        };
        let listing = match line.trailing {
            Some(listing) => listing,
            None => Seq::empty(),
        };
        (names.insert(key, before + listed_nicks(words(listing))), None)
    } else if line.command == "366"@ {
        let key = channel_key(line, 1, channel);
        let gathered = if names.contains_key(key) {
            names[key]
        } else {
            Seq::empty()
        };
        (names.remove(key), Some(EventView::Names { nicks: first_of_each(gathered) }))
    } else {
        (names, None)
    }
}

/// Adds the nicks of a listing to those gathered so far.
fn gather(list: &mut NickList, listing: &str)
    ensures
        final(list)@ == old(list)@ + listed_nicks(words(listing@)),
{
    let names = split_words(listing);
    let ghost all = texts(names@);
    let ghost before = list@;
    let mut i: usize = 0;
    proof {
        assert(all.take(0) =~= Seq::<Seq<char>>::empty());
        assert(before + listed_nicks(all.take(0)) =~= before);
    }
    while i < names.len()
        invariant
            i <= names@.len(),
            all == texts(names@),
            list@ == before + listed_nicks(all.take(i as int)),
        decreases names@.len() - i,
    {
        proof {
            assert(all.take(i + 1).drop_last() =~= all.take(i as int));
            assert(all.take(i + 1).last() == names@[i as int]@);
        }
        let nick = without_nick_marks(names[i].as_str());
        if !nick.is_empty() {
            let ghost so_far = list@;
            list.nicks.push(nick.to_owned());
            assert(list@ =~= so_far.push(nick@));
            assert(list@ =~= before + listed_nicks(all.take(i as int)).push(nick@));
        }
        i += 1;
    }
    assert(all.take(i as int) =~= all);
}

/// The nicks without repetitions.
fn without_repetitions(nicks: &Vec<String>) -> (r: Vec<String>)
    ensures
        texts(r@) == first_of_each(texts(nicks@)),
{
    let ghost all = texts(nicks@);
    let mut out: Vec<String> = Vec::new();
    let mut seen: Vec<String> = Vec::new();
    let mut i: usize = 0;
    assert(all.take(0) =~= Seq::<Seq<char>>::empty());
    while i < nicks.len()
        invariant
            i <= nicks@.len(),
            all == texts(nicks@),
            seen@.len() == i,
            forall|j: int| 0 <= j < i ==> (#[trigger] seen@[j])@ == lower(all[j]),
            texts(out@) =~= first_of_each(all.take(i as int)),
        decreases nicks@.len() - i,
    {
        let ghost before = all.take(i as int);
        proof {
            assert(all.take(i + 1).drop_last() =~= before);
            assert(all.take(i + 1).last() == nicks@[i as int]@);
        }
        let small = lowered(nicks[i].as_str());
        let mut known = false;
        let mut j: usize = 0;
        while j < seen.len() && !known
            invariant
                j <= seen@.len(),
                i < nicks@.len(),
                seen@.len() == i,
                all == texts(nicks@),
                before == all.take(i as int),
                small@ == lower(nicks@[i as int]@),
                forall|k: int| 0 <= k < i ==> (#[trigger] seen@[k])@ == lower(all[k]),
                known ==> names_nick(before, nicks@[i as int]@),
                !known ==> forall|k: int| 0 <= k < j ==> (#[trigger] seen@[k])@ != small@,
            decreases seen@.len() - j,
        {
            if same_text(seen[j].as_str(), small.as_str()) {
                assert(lower(before[j as int]) == small@);
                known = true;
            }
            j += 1;
        }
        proof {
            if !known {
                assert forall|k: int| 0 <= k < before.len() implies lower(#[trigger] before[k])
                    != small@ by {
                    assert(seen@[k]@ == lower(all[k]));
                }
            }
        }
        if !known {
            let ghost so_far = texts(out@);
            out.push(nicks[i].clone());
            assert(texts(out@) =~= so_far.push(nicks@[i as int]@));
        }
        seen.push(small);
        i += 1;
    }
    assert(all.take(i as int) =~= all);
    out
}

fn line_joins(line: &ParsedIrcLine, channel: &str) -> (r: bool)
    ensures
        r == joins(line@, channel@),
{
    let mut i: usize = 0;
    while i < line.params.len()
        invariant
            i <= line.params@.len(),
            forall|j: int|
                0 <= j < i ==> !same_ignoring_case(#[trigger] line@.params[j], channel@),
        decreases line.params@.len() - i,
    {
        if eq_ignoring_case(line.params[i].as_str(), channel) {
            assert(same_ignoring_case(line@.params[i as int], channel@));
            return true;
        }
        i += 1;
    }
    match &line.trailing {
        Some(trailing) => eq_ignoring_case(trailing.as_str(), channel),
        None => false,
    }
}

/// Whether the first param names the channel.
fn line_targets(line: &ParsedIrcLine, channel: &str) -> (r: bool)
    ensures
        r == (line@.params.len() > 0 && same_ignoring_case(line@.params[0], channel@)),
{
    line.params.len() > 0 && eq_ignoring_case(line.params[0].as_str(), channel)
}

pub fn new_nick(line: &ParsedIrcLine) -> (r: Option<String>)
    ensures
        held(r) == announced_nick(line@),
{
    match &line.trailing {
        Some(nick) => Some(nick.clone()),
        None => if line.params.len() > 0 {
            Some(line.params[0].clone())
        } else {
            None
        },
    }
}

fn key_param(line: &ParsedIrcLine, i: usize, channel: &str) -> (r: String)
    ensures
        r@ == channel_key(line@, i as int, channel@),
{
    if i < line.params.len() {
        line.params[i].clone()
    } else {
        channel.to_owned()
    }
}

fn spoken(nick: String, text: String) -> (r: IrcEvent)
    ensures
        r@ == speech(nick@, text@),
{
    match after_prefix(text.as_str(), "\u{1}ACTION") {
        Some(action) => match before_suffix(action, "\u{1}") {
            Some(body) => IrcEvent::Action { nick, text: trimmed(body).to_owned() },
            None => IrcEvent::Message { nick, text: text.clone() },
        },
        None => IrcEvent::Message { nick, text: text.clone() },
    }
}

/// Dispatch one parsed line: the event it stands for, if it concerns the
/// channel. The parts of a listing are gathered until its end is announced.
pub fn handle_irc_line(
    channel: &str,
    line: ParsedIrcLine,
    pending_names: &mut StringMap<NickList>,
) -> (r: Option<IrcEvent>)
    ensures
        (final(pending_names)@, event_in(r)) == observed(
            channel@,
            line@,
            old(pending_names)@,
        ),
{
    let command = line.command.as_str();
    if same_text(command, "PRIVMSG") {
        if !line_targets(&line, channel) {
            return None;
        }
        match (line.nick, line.trailing) {
            (Some(nick), Some(text)) => Some(spoken(nick, text)),
            _ => None,
        }
    } else if same_text(command, "JOIN") {
        if !line_joins(&line, channel) {
            return None;
        }
        match line.nick {
            Some(nick) => Some(IrcEvent::Joined { nick }),
            None => None,
        }
    } else if same_text(command, "PART") {
        if !line_targets(&line, channel) {
            return None;
        }
        match line.nick {
            Some(nick) => Some(IrcEvent::Parted { nick }),
            None => None,
        }
    } else if same_text(command, "QUIT") {
        match line.nick {
            Some(nick) => Some(IrcEvent::Quit { nick }),
            None => None,
        }
    } else if same_text(command, "NICK") {
        let new = new_nick(&line);
        match (line.nick, new) {
            (Some(old_nick), Some(new_nick)) => Some(
                IrcEvent::Renamed { old: old_nick, new: new_nick },
            ),
            _ => None,
        }
    } else if same_text(command, "353") {
        let key = key_param(&line, 2, channel);
        let mut list = match pending_names.remove(key.as_str()) {
            Some(list) => list,
            None => NickList { nicks: Vec::new() },
        };
        proof {
            if !old(pending_names)@.contains_key(key@) {
                assert(list@ =~= Seq::<Seq<char>>::empty());
            }
        }
        match &line.trailing {
            Some(listing) => {
                gather(&mut list, listing.as_str());
            },
            None => {
                proof {
                    assert(words(Seq::<char>::empty()) =~= Seq::<Seq<char>>::empty());
                    assert(listed_nicks(Seq::<Seq<char>>::empty()) =~= Seq::<Seq<char>>::empty());
                    assert(list@ + Seq::<Seq<char>>::empty() =~= list@);
                }
            },
        }
        let ghost gathered = list@;
        let ghost at = key@;
        let _ = pending_names.insert(key, list);
        assert(pending_names@ =~= old(pending_names)@.insert(at, gathered));
        None
    } else if same_text(command, "366") {
        let key = key_param(&line, 1, channel);
        let list = match pending_names.remove(key.as_str()) {
            Some(list) => list,
            None => NickList { nicks: Vec::new() },
        };
        proof {
            if !old(pending_names)@.contains_key(key@) {
                assert(list@ =~= Seq::<Seq<char>>::empty());
            }
        }
        Some(IrcEvent::Names { nicks: without_repetitions(&list.nicks) })
    } else {
        None
    }
}

/// A listing names every nick that was gathered, and none twice but for its
/// case.
pub proof fn listing_names_each_nick_once(nicks: Seq<Seq<char>>)
    ensures
        forall|i: int, j: int|
            0 <= i < j < first_of_each(nicks).len() ==> lower(
                #[trigger] first_of_each(nicks)[i],
            ) != lower(#[trigger] first_of_each(nicks)[j]),
        forall|i: int|
            0 <= i < first_of_each(nicks).len() ==> nicks.contains(
                #[trigger] first_of_each(nicks)[i],
            ),
        forall|i: int|
            0 <= i < nicks.len() ==> names_nick(first_of_each(nicks), #[trigger] nicks[i]),
    decreases nicks.len(),
{
    if nicks.len() > 0 {
        let rest = nicks.drop_last();
        let before = first_of_each(rest);
        let after = first_of_each(nicks);
        let last = nicks.last();
        listing_names_each_nick_once(rest);
        assert forall|i: int| 0 <= i < after.len() implies nicks.contains(#[trigger] after[i]) by {
            if i < before.len() {
                assert(rest.contains(before[i]));
                let k = rest.index_of(before[i]);
                assert(nicks[k] == after[i]);
            } else {
                assert(nicks[nicks.len() - 1] == after[i]);
            }
        }
        if !names_nick(rest, last) {
            assert forall|i: int| 0 <= i < before.len() implies lower(#[trigger] before[i])
                != lower(last) by {
                assert(rest.contains(before[i]));
                let k = rest.index_of(before[i]);
                assert(rest[k] == before[i]);
            }
        }
        assert forall|i: int| 0 <= i < nicks.len() implies names_nick(
            after,
            #[trigger] nicks[i],
        ) by {
            if i < rest.len() {
                assert(rest[i] == nicks[i]);
                assert(names_nick(before, rest[i]));
                let k = choose|k: int|
                    0 <= k < before.len() && lower(#[trigger] before[k]) == lower(rest[i]);
                assert(after[k] == before[k]);
            } else if names_nick(rest, last) {
                let k = choose|k: int|
                    0 <= k < rest.len() && lower(#[trigger] rest[k]) == lower(last);
                assert(names_nick(before, rest[k]));
                let m = choose|m: int|
                    0 <= m < before.len() && lower(#[trigger] before[m]) == lower(rest[k]);
                assert(after[m] == before[m]);
            } else {
                assert(after[after.len() - 1] == last);
            }
        }
    }
}

} // verus!

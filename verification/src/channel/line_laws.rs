//! What lines from a server hold, and what each of them comes to for a session
//! on a channel.

use vstd::prelude::*;

use crate::channel::endpoint::{endpoint_at, BindingView};
use crate::channel::line::{
    arguments, first_of_each, line_parts, listed_nicks, observed, speech, EventView, LineView,
};
use crate::channel::nick::candidate;
use crate::channel::session::{
    asking, ctcp_action, nick_is_one_word, opening_of, privmsg, registered, session_after,
    session_on_line, RegistrationStepView, RegistrationView, SessionStepView, SessionView,
};
use crate::channel::speech::{lemma_cut, lemma_first_piece};
use crate::text::{
    ascii_upper, cut_once, first_at, is_nick_mark, is_space, join, lemma_first_at_is,
    lemma_join_first, lemma_join_split, lemma_split_first, lemma_split_some, lemma_split_whole,
    lower, same_ignoring_case, split_on, strip_leading, trim, words,
};

verus! {

// ---- the parts of a line ----

/// Whether a text can be a param: not empty, without blanks, and not led by a
/// colon.
pub open spec fn is_param(s: Seq<char>) -> bool {
    s.len() > 0 && !s.contains(' ') && s[0] != ':'
}

/// The params and the trailing text as they stand in a line.
pub open spec fn written(params: Seq<Seq<char>>, trailing: Option<Seq<char>>) -> Seq<Seq<char>> {
    match trailing {
        Some(text) => params.push(seq![':'] + text),
        None => params,
    }
}

proof fn lemma_trailing(text: Seq<char>)
    ensures
        arguments(split_on(seq![':'] + text, ' ')) == (Seq::<Seq<char>>::empty(), Some(text)),
{
    reveal_strlit(" ");
    assert(" "@ =~= seq![' ']);
    let marked = seq![':'] + text;
    let pieces = split_on(marked, ' ');
    lemma_split_some(marked, ' ');
    lemma_first_piece(marked, ' ');
    lemma_join_split(marked, ' ');
    if pieces.len() > 1 {
        lemma_join_first(pieces, " "@);
        let more = " "@ + join(pieces.drop_first(), " "@);
        assert(marked =~= pieces[0] + more);
        assert(pieces[0].skip(1) + more =~= marked.skip(1));
    } else {
        assert(pieces[0] == marked);
        assert(pieces[0].skip(1) + Seq::<char>::empty() =~= marked.skip(1));
    }
    assert(marked.skip(1) =~= text);
}

proof fn lemma_arguments(params: Seq<Seq<char>>, trailing: Option<Seq<char>>)
    requires
        forall|i: int| 0 <= i < params.len() ==> is_param(#[trigger] params[i]),
        params.len() > 0 || trailing is Some,
    ensures
        arguments(split_on(join(written(params, trailing), " "@), ' ')) == (params, trailing),
    decreases params.len(),
{
    reveal_strlit(" ");
    assert(" "@ =~= seq![' ']);
    let all = written(params, trailing);
    if params.len() == 0 {
        assert(params =~= Seq::<Seq<char>>::empty());
        assert(all =~= seq![seq![':'] + trailing->0]);
        assert(join(all, " "@) == all[0]);
        lemma_trailing(trailing->0);
    } else {
        let rest = params.drop_first();
        let first = params[0];
        assert(is_param(first));
        if all.len() == 1 {
            assert(join(all, " "@) == first);
            lemma_split_whole(first, ' ');
            let pieces = split_on(first, ' ');
            assert(trailing is None);
            assert(pieces =~= seq![first]);
            assert(pieces.drop_first() =~= Seq::<Seq<char>>::empty());
            assert(arguments(pieces.drop_first()) == (
                Seq::<Seq<char>>::empty(),
                None::<Seq<char>>,
            ));
            assert(seq![first] + Seq::<Seq<char>>::empty() =~= params);
        } else {
            lemma_join_first(all, " "@);
            assert(all.drop_first() =~= written(rest, trailing));
            let tail = join(all.drop_first(), " "@);
            lemma_split_first(first, tail, ' ');
            assert forall|i: int| 0 <= i < rest.len() implies is_param(#[trigger] rest[i]) by {
                assert(rest[i] == params[i + 1]);
            }
            lemma_arguments(rest, trailing);
            let pieces = split_on(join(all, " "@), ' ');
            assert(pieces == seq![first] + split_on(tail, ' '));
            assert(pieces.drop_first() =~= split_on(tail, ' '));
            assert(pieces[0] == first);
            assert(arguments(pieces) == (seq![first] + rest, trailing));
            assert(seq![first] + rest =~= params);
        }
    }
}

proof fn lemma_join_starts(parts: Seq<Seq<char>>, sep: Seq<char>)
    requires
        parts.len() > 0,
        parts[0].len() > 0,
    ensures
        join(parts, sep).len() > 0,
        join(parts, sep)[0] == parts[0][0],
{
    if parts.len() > 1 {
        lemma_join_first(parts, sep);
    }
}

/// A line of a user holds what was written into it: the nick before the `!`, the
/// command in capitals, the params one by one, and the trailing text as a whole,
/// blanks and colons included; where there is none, there is none.
pub proof fn line_holds_what_was_written(
    nick: Seq<char>,
    host: Seq<char>,
    command: Seq<char>,
    params: Seq<Seq<char>>,
    trailing: Option<Seq<char>>,
)
    requires
        !nick.contains(' ') && !nick.contains('!'),
        !host.contains(' '),
        !command.contains(' '),
        forall|i: int| 0 <= i < params.len() ==> is_param(#[trigger] params[i]),
    ensures
        ({
            let args = written(params, trailing);
            let body = if args.len() == 0 {
                command
            } else {
                command + seq![' '] + join(args, " "@)
            };
            line_parts(seq![':'] + nick + seq!['!'] + host + seq![' '] + body) == Some(
                LineView { nick: Some(nick), command: ascii_upper(command), params, trailing },
            )
        }),
{
    let args = written(params, trailing);
    let text = join(args, " "@);
    let body = if args.len() == 0 {
        command
    } else {
        command + seq![' '] + text
    };
    let prefix = nick + seq!['!'] + host;
    let line = seq![':'] + nick + seq!['!'] + host + seq![' '] + body;
    assert(line.skip(1) =~= prefix + seq![' '] + body);
    assert(!prefix.contains(' ')) by {
        if prefix.contains(' ') {
            let i = prefix.index_of(' ');
            if i < nick.len() {
                assert(nick[i] == ' ');
            } else if i > nick.len() {
                assert(host[i - nick.len() - 1] == ' ');
            }
        }
    }
    lemma_cut(prefix, body, ' ');
    lemma_cut(nick, host, '!');
    lemma_first_at_is(prefix, '!');
    assert(prefix.take(first_at(prefix, '!')) =~= nick);
    if args.len() == 0 {
        lemma_first_at_is(command, ' ');
        assert(cut_once(command, ' ') is None);
        assert(params =~= Seq::<Seq<char>>::empty());
    } else {
        lemma_cut(command, text, ' ');
        if params.len() > 0 {
            assert(is_param(params[0]));
            assert(args[0] == params[0]);
            lemma_join_starts(args, " "@);
            lemma_arguments(params, trailing);
        } else {
            assert(args[0] == seq![':'] + trailing->0);
            assert(text == args[0]);
            assert(text.skip(1) =~= trailing->0);
            assert(params =~= Seq::<Seq<char>>::empty());
        }
    }
}

/// A line that does not begin with a colon names nobody.
pub proof fn line_without_prefix_names_nobody(line: Seq<char>)
    requires
        line.len() == 0 || line[0] != ':',
    ensures
        line_parts(line) is Some,
        line_parts(line)->0.nick is None,
{
}

// ---- what a line tells of the channel ----

/// Whether a line is sent to the channel: its first param names it, in whatever
/// case.
pub open spec fn sent_to(line: LineView, channel: Seq<char>) -> bool {
    line.params.len() > 0 && same_ignoring_case(line.params[0], channel)
}

proof fn lemma_irc_commands()
    ensures
        "PRIVMSG"@.len() == 7,
        "JOIN"@.len() == 4 && "JOIN"@[0] == 'J',
        "PART"@.len() == 4 && "PART"@[0] == 'P',
        "QUIT"@.len() == 4 && "QUIT"@[0] == 'Q',
        "NICK"@.len() == 4 && "NICK"@[0] == 'N',
        "353"@.len() == 3 && "353"@[0] == '3' && "353"@[1] == '5',
        "366"@.len() == 3 && "366"@[0] == '3' && "366"@[1] == '6',
        "433"@.len() == 3 && "433"@[0] == '4' && "433"@[2] == '3',
        "436"@.len() == 3 && "436"@[0] == '4' && "436"@[2] == '6',
        "437"@.len() == 3 && "437"@[0] == '4' && "437"@[2] == '7',
        "001"@.len() == 3 && "001"@[0] == '0',
{
    reveal_strlit("PRIVMSG");
    reveal_strlit("JOIN");
    reveal_strlit("PART");
    reveal_strlit("QUIT");
    reveal_strlit("NICK");
    reveal_strlit("353");
    reveal_strlit("366");
    reveal_strlit("433");
    reveal_strlit("436");
    reveal_strlit("437");
    reveal_strlit("001");
}

/// A `PART` of a user from the channel is that user's parting, whatever reason
/// is given and where none is; any other `PART` is nothing.
pub proof fn part_is_a_parting(
    channel: Seq<char>,
    line: LineView,
    names: Map<Seq<char>, Seq<Seq<char>>>,
)
    requires
        line.command == "PART"@,
    ensures
        line.nick is Some && sent_to(line, channel) ==> observed(channel, line, names) == (
            names,
            Some(EventView::Parted { nick: line.nick->0 }),
        ),
        !(line.nick is Some && sent_to(line, channel)) ==> observed(channel, line, names) == (
            names,
            None::<EventView>,
        ),
{
    lemma_irc_commands();
}

/// A `JOIN` of a user that names the channel, as a param or as trailing text, is
/// that user's joining; any other `JOIN` is nothing.
pub proof fn join_is_a_joining(
    channel: Seq<char>,
    line: LineView,
    names: Map<Seq<char>, Seq<Seq<char>>>,
)
    requires
        line.command == "JOIN"@,
    ensures
        ({
            let named = (exists|i: int|
                0 <= i < line.params.len() && same_ignoring_case(#[trigger] line.params[i], channel))
                || (line.trailing is Some && same_ignoring_case(line.trailing->0, channel));
            &&& line.nick is Some && named ==> observed(channel, line, names) == (
                names,
                Some(EventView::Joined { nick: line.nick->0 }),
            )
            &&& !(line.nick is Some && named) ==> observed(channel, line, names) == (
                names,
                None::<EventView>,
            )
        }),
{
    lemma_irc_commands();
}

/// A `QUIT` of a user is that user's quitting, whatever is said with it.
pub proof fn quit_is_a_quitting(
    channel: Seq<char>,
    line: LineView,
    names: Map<Seq<char>, Seq<Seq<char>>>,
)
    requires
        line.command == "QUIT"@,
    ensures
        line.nick is Some ==> observed(channel, line, names) == (
            names,
            Some(EventView::Quit { nick: line.nick->0 }),
        ),
        line.nick is None ==> observed(channel, line, names) == (names, None::<EventView>),
{
    lemma_irc_commands();
}

/// A `NICK` of a user is a renaming to the nick in the trailing text, or else in
/// the first param.
pub proof fn nick_is_a_renaming(
    channel: Seq<char>,
    line: LineView,
    names: Map<Seq<char>, Seq<Seq<char>>>,
)
    requires
        line.command == "NICK"@,
    ensures
        line.nick is Some && line.trailing is Some ==> observed(channel, line, names) == (
            names,
            Some(EventView::Renamed { old_nick: line.nick->0, new_nick: line.trailing->0 }),
        ),
        line.nick is Some && line.trailing is None && line.params.len() > 0 ==> observed(
            channel,
            line,
            names,
        ) == (
            names,
            Some(EventView::Renamed { old_nick: line.nick->0, new_nick: line.params[0] }),
        ),
        line.nick is None || (line.trailing is None && line.params.len() == 0) ==> observed(
            channel,
            line,
            names,
        ) == (names, None::<EventView>),
{
    lemma_irc_commands();
}

/// A `PRIVMSG` of a user to the channel is that user's speech: an action where
/// the text is wrapped as one, and a message with the whole text otherwise. Any
/// other `PRIVMSG` is nothing.
pub proof fn privmsg_is_speech(
    channel: Seq<char>,
    line: LineView,
    names: Map<Seq<char>, Seq<Seq<char>>>,
)
    requires
        line.command == "PRIVMSG"@,
    ensures
        !(line.nick is Some && line.trailing is Some && sent_to(line, channel)) ==> observed(
            channel,
            line,
            names,
        ) == (names, None::<EventView>),
        line.nick is Some && line.trailing is Some && sent_to(line, channel) ==> {
            let text = line.trailing->0;
            let event = observed(channel, line, names).1;
            &&& observed(channel, line, names).0 == names
            &&& forall|deed: Seq<char>|
                text == #[trigger] ("\u{1}ACTION"@ + deed + "\u{1}"@) ==> event == Some(
                    EventView::Action { nick: line.nick->0, text: trim(deed) },
                )
            &&& (forall|deed: Seq<char>|
                text != #[trigger] ("\u{1}ACTION"@ + deed + "\u{1}"@)) ==> event == Some(
                EventView::Message { nick: line.nick->0, text },
            )
        },
{
    lemma_irc_commands();
    if line.nick is Some && line.trailing is Some && sent_to(line, channel) {
        let text = line.trailing->0;
        let head = "\u{1}ACTION"@;
        let tail = "\u{1}"@;
        let event = observed(channel, line, names).1;
        let body = text.skip(head.len() as int);
        assert forall|deed: Seq<char>| text == #[trigger] (head + deed + tail) implies event
            == Some(EventView::Action { nick: line.nick->0, text: trim(deed) }) by {
            assert(head.is_prefix_of(text)) by {
                assert(text.subrange(0, head.len() as int) =~= head);
            }
            assert(body =~= deed + tail);
            assert(tail.is_suffix_of(body)) by {
                assert(body.subrange(body.len() - tail.len(), body.len() as int) =~= tail);
            }
            assert(body.take(body.len() - tail.len()) =~= deed);
        }
        if head.is_prefix_of(text) && tail.is_suffix_of(body) {
            let deed = body.take(body.len() - tail.len());
            assert(text =~= head + deed + tail);
        }
    }
}

/// A part of a listing adds its nicks to those gathered for its channel, and is
/// no event.
pub proof fn listing_part_is_gathered(
    channel: Seq<char>,
    line: LineView,
    names: Map<Seq<char>, Seq<Seq<char>>>,
)
    requires
        line.command == "353"@,
    ensures
        ({
            let key = if line.params.len() > 2 {
                line.params[2]
            } else {
                channel
            };
            let before = if names.contains_key(key) {
                names[key]
            } else {
                Seq::empty()
            };
            let more = if line.trailing is Some {
                listed_nicks(words(line.trailing->0))
            } else {
                Seq::empty()
            };
            observed(channel, line, names) == (names.insert(key, before + more), None::<EventView>)
        }),
{
    lemma_irc_commands();
    assert(words(Seq::<char>::empty()) =~= Seq::<Seq<char>>::empty());
    assert(listed_nicks(Seq::<Seq<char>>::empty()) =~= Seq::<Seq<char>>::empty());
}

/// The end of a listing hands out the nicks that were gathered for its channel,
/// and forgets them.
pub proof fn listing_end_hands_out_the_nicks(
    channel: Seq<char>,
    line: LineView,
    names: Map<Seq<char>, Seq<Seq<char>>>,
)
    requires
        line.command == "366"@,
    ensures
        ({
            let key = if line.params.len() > 1 {
                line.params[1]
            } else {
                channel
            };
            let (after, event) = observed(channel, line, names);
            &&& after == names.remove(key)
            &&& event is Some
            &&& names.contains_key(key) ==> event->0 == (EventView::Names {
                nicks: first_of_each(names[key]),
            })
            &&& !names.contains_key(key) ==> event->0 == (EventView::Names { nicks: Seq::empty() })
        }),
{
    lemma_irc_commands();
    assert(first_of_each(Seq::<Seq<char>>::empty()) =~= Seq::<Seq<char>>::empty());
}

/// Any other line tells nothing of the channel.
pub proof fn other_lines_tell_nothing(
    channel: Seq<char>,
    line: LineView,
    names: Map<Seq<char>, Seq<Seq<char>>>,
)
    requires
        line.command != "PRIVMSG"@ && line.command != "JOIN"@ && line.command != "PART"@,
        line.command != "QUIT"@ && line.command != "NICK"@,
        line.command != "353"@ && line.command != "366"@,
    ensures
        observed(channel, line, names) == (names, None::<EventView>),
{
}

/// A name of a listing is a nick without the marks before it; marks alone are no
/// nick.
pub proof fn listed_names_lose_their_marks(
    names: Seq<Seq<char>>,
    marks: Seq<char>,
    nick: Seq<char>,
)
    requires
        forall|i: int|
            0 <= i < marks.len() ==> (#[trigger] marks[i] == '@' || marks[i] == '+' || marks[i]
                == '%' || marks[i] == '~' || marks[i] == '&'),
        nick.len() > 0 ==> nick[0] != '@' && nick[0] != '+' && nick[0] != '%' && nick[0] != '~'
            && nick[0] != '&',
    ensures
        listed_nicks(Seq::<Seq<char>>::empty()).len() == 0,
        nick.len() > 0 ==> listed_nicks(names.push(marks + nick)) == listed_nicks(names).push(nick),
        nick.len() == 0 ==> listed_nicks(names.push(marks + nick)) == listed_nicks(names),
{
    lemma_unmarked(marks, nick);
    assert(names.push(marks + nick).drop_last() =~= names);
    assert(names.push(marks + nick).last() == marks + nick);
}

proof fn lemma_unmarked(marks: Seq<char>, nick: Seq<char>)
    requires
        forall|i: int| 0 <= i < marks.len() ==> is_nick_mark(#[trigger] marks[i]),
        nick.len() > 0 ==> !is_nick_mark(nick[0]),
    ensures
        strip_leading(marks + nick, |c: char| is_nick_mark(c)) == nick,
    decreases marks.len(),
{
    let all = marks + nick;
    if marks.len() > 0 {
        let rest = marks.drop_first();
        assert forall|i: int| 0 <= i < rest.len() implies is_nick_mark(#[trigger] rest[i]) by {
            assert(rest[i] == marks[i + 1]);
        }
        lemma_unmarked(rest, nick);
        assert(is_nick_mark(marks[0]));
        assert(all.drop_first() =~= rest + nick);
    } else {
        assert(all =~= nick);
    }
}

/// Of nicks that differ in their case alone a listing names the first, and it
/// names the nicks in the order in which they were gathered.
pub proof fn listing_names_the_first_of_each(nicks: Seq<Seq<char>>, nick: Seq<char>)
    ensures
        first_of_each(Seq::<Seq<char>>::empty()).len() == 0,
        (exists|i: int| 0 <= i < nicks.len() && lower(#[trigger] nicks[i]) == lower(nick))
            ==> first_of_each(nicks.push(nick)) == first_of_each(nicks),
        (forall|i: int| 0 <= i < nicks.len() ==> lower(#[trigger] nicks[i]) != lower(nick))
            ==> first_of_each(nicks.push(nick)) == first_of_each(nicks).push(nick),
{
    assert(nicks.push(nick).drop_last() =~= nicks);
}

// ---- registration ----

/// How a session begins: the password where there is one, then the wanted nick
/// without outer spaces, then the user, on the binding's server, in order to join
/// the binding's channel.
pub proof fn session_opens_under_the_wanted_nick(binding: BindingView, nick: Seq<char>)
    ensures
        ({
            let wanted = trim(nick);
            let opening = opening_of(binding, nick);
            let bound = binding.channel.len() > 1 && binding.channel[0] == '#';
            &&& endpoint_at(binding.server) is Err ==> opening is Err && opening->Err_0
                == endpoint_at(binding.server)->Err_0
            &&& endpoint_at(binding.server) is Ok && !bound ==> opening is Err && opening->Err_0
                == "set the IRC channel with :irc-channel #<name>"@
            &&& endpoint_at(binding.server) is Ok && bound && wanted.len() == 0 ==> opening is Err
                && opening->Err_0 == "an IRC nick is required to join the channel"@
            &&& endpoint_at(binding.server) is Ok && bound && wanted.len() > 0 ==> {
                &&& opening is Ok
                &&& opening->Ok_0.endpoint == endpoint_at(binding.server)->Ok_0
                &&& opening->Ok_0.registration.desired == wanted
                &&& opening->Ok_0.registration.nick == wanted
                &&& opening->Ok_0.registration.attempts == 0
                &&& opening->Ok_0.registration.channel == binding.channel
                &&& binding.pass is None ==> opening->Ok_0.lines == seq![
                    "NICK "@ + wanted,
                    "USER "@ + wanted + " 0 * :"@ + wanted,
                ]
                &&& binding.pass is Some ==> opening->Ok_0.lines == seq![
                    "PASS "@ + binding.pass->0,
                    "NICK "@ + wanted,
                    "USER "@ + wanted + " 0 * :"@ + wanted,
                ]
            }
        }),
{
    let wanted = trim(nick);
    match opening_of(binding, nick) {
        Ok(opening) => {
            if binding.pass is None {
                assert(opening.lines =~= seq![
                    "NICK "@ + wanted,
                    "USER "@ + wanted + " 0 * :"@ + wanted,
                ]);
            } else {
                assert(opening.lines =~= seq![
                    "PASS "@ + binding.pass->0,
                    "NICK "@ + wanted,
                    "USER "@ + wanted + " 0 * :"@ + wanted,
                ]);
            }
        },
        Err(_) => {},
    }
}

/// A ping is answered by a pong with the same token, during registration and
/// afterwards, and changes nothing.
pub proof fn ping_is_answered_by_pong(s: RegistrationView, t: SessionView, token: Seq<char>)
    ensures
        registered(s, "PING "@ + token) == (s, RegistrationStepView::Send("PONG "@ + token)),
        session_on_line(t, "PING "@ + token) == (
            t,
            SessionStepView { send: Some("PONG "@ + token), answer: None, event: None },
        ),
{
    let line = "PING "@ + token;
    assert("PING "@.is_prefix_of(line)) by {
        assert(line.subrange(0, "PING "@.len() as int) =~= "PING "@);
    }
    assert(line.skip("PING "@.len() as int) =~= token);
}

/// A welcome accepts the nick that it names, or else the one that was tried, and
/// the channel is joined and listed. A nick that cannot be had is followed by the
/// next candidate of the wanted one, six times, and then the registration is
/// refused. Any other line is waited over.
pub proof fn registration_follows_the_server(s: RegistrationView, line: Seq<char>)
    requires
        !"PING "@.is_prefix_of(line),
    ensures
        ({
            let parts = words(line);
            let (next, step) = registered(s, line);
            let refused = parts.len() > 1 && (parts[1] == "433"@ || parts[1] == "436"@ || parts[1]
                == "437"@);
            &&& parts.len() > 1 && parts[1] == "001"@ ==> next == s && step == (
                RegistrationStepView::Accepted {
                    nick: if parts.len() > 2 {
                        parts[2]
                    } else {
                        s.nick
                    },
                    lines: seq!["JOIN "@ + s.channel, "NAMES "@ + s.channel],
                }
            )
            &&& refused && s.attempts < 6 ==> {
                &&& next.attempts == s.attempts + 1
                &&& next.desired == s.desired
                &&& next.channel == s.channel
                &&& next.nick == candidate(s.desired, s.attempts + 1)
                &&& step == RegistrationStepView::Send("NICK "@ + next.nick)
            }
            &&& refused && s.attempts >= 6 ==> next == s && step == RegistrationStepView::Refused(
                "IRC nick is already in use"@,
            )
            &&& parts.len() < 2 || (parts[1] != "001"@ && !refused) ==> next == s && step
                == RegistrationStepView::Wait
        }),
{
    lemma_irc_commands();
}

// ---- the running session ----

/// What a line tells of the channel is what the session tells the bridge, and
/// the listings gathered are kept. While no nick change is pending, nothing else
/// about the session changes and nothing is sent.
pub proof fn session_tells_what_it_observes(s: SessionView, line: LineView)
    requires
        s.pending_nick is None,
    ensures
        ({
            let (names, event) = observed(s.channel, line, s.pending_names);
            session_after(s, line) == (
                SessionView { pending_names: names, ..s },
                SessionStepView { send: None, answer: None, event },
            )
        }),
{
}

/// A pending nick change is confirmed by a `NICK` from the session's own nick to
/// the wanted one, and refused by the numbers for a nick that cannot be had; no
/// other line ends it.
pub proof fn nick_change_waits_for_its_answer(s: SessionView, line: LineView)
    requires
        s.pending_nick is Some,
    ensures
        ({
            let wanted = s.pending_nick->0;
            let (names, event) = observed(s.channel, line, s.pending_names);
            let (next, step) = session_after(s, line);
            let announced = if line.trailing is Some {
                line.trailing
            } else if line.params.len() > 0 {
                Some(line.params[0])
            } else {
                None
            };
            let confirmed = line.command == "NICK"@ && line.nick is Some && same_ignoring_case(
                line.nick->0,
                s.nick,
            ) && announced is Some && same_ignoring_case(announced->0, wanted);
            let refused = line.command == "433"@ || line.command == "436"@ || line.command
                == "437"@;
            &&& step.send is None
            &&& next.channel == s.channel
            &&& confirmed ==> {
                &&& next.nick == wanted
                &&& next.pending_nick is None
                &&& next.pending_names == names
                &&& step.answer == Some(Ok::<(), Seq<char>>(()))
                &&& step.event == event
            }
            &&& refused ==> {
                &&& next.nick == s.nick
                &&& next.pending_nick is None
                &&& next.pending_names == s.pending_names
                &&& step.answer == Some(
                    Err::<(), Seq<char>>("IRC nick '"@ + wanted + "' is already in use"@),
                )
                &&& step.event is None
            }
            &&& !confirmed && !refused ==> {
                &&& next.nick == s.nick
                &&& next.pending_nick == s.pending_nick
                &&& next.pending_names == names
                &&& step.answer is None
                &&& step.event == event
            }
        }),
{
    lemma_irc_commands();
}

/// A session that asked for a nick has it once the server tells of the change, in
/// whatever case of letters, and has its old one back where the server refuses.
/// Until then it goes by the old one.
pub proof fn asked_nick_is_had_once_confirmed(
    s: SessionView,
    nick: Seq<char>,
    announced: Seq<char>,
    line: LineView,
)
    ensures
        asking(s, nick).nick == s.nick,
        asking(s, nick).channel == s.channel,
        asking(s, nick).pending_names == s.pending_names,
        line.command == "NICK"@ && line.trailing == Some(announced) && line.nick is Some
            && same_ignoring_case(line.nick->0, s.nick) && same_ignoring_case(announced, nick) ==> {
            let (next, step) = session_after(asking(s, nick), line);
            &&& next.nick == nick
            &&& next.pending_nick is None
            &&& step.answer == Some(Ok::<(), Seq<char>>(()))
        },
        line.command == "433"@ || line.command == "436"@ || line.command == "437"@ ==> {
            let (next, step) = session_after(asking(s, nick), line);
            &&& next == (SessionView { pending_nick: None, ..s })
            &&& step.answer == Some(
                Err::<(), Seq<char>>("IRC nick '"@ + nick + "' is already in use"@),
            )
        },
{
    lemma_irc_commands();
}

/// A raw line that is no ping is taken apart and handled as what it holds; one
/// that is nothing but a prefix comes to nothing.
pub proof fn session_takes_lines_apart(s: SessionView, line: Seq<char>)
    requires
        !"PING "@.is_prefix_of(line),
    ensures
        line_parts(line) is Some ==> session_on_line(s, line) == session_after(
            s,
            line_parts(line)->0,
        ),
        line_parts(line) is None ==> session_on_line(s, line) == (
            s,
            SessionStepView { send: None, answer: None, event: None },
        ),
{
}

/// A message is one line to the channel; a text of several lines is refused.
pub proof fn message_is_one_line(channel: Seq<char>, text: Seq<char>)
    ensures
        text.contains('\r') || text.contains('\n') ==> privmsg(channel, text) == Err::<
            Seq<char>,
            Seq<char>,
        >("IRC message must be one line"@),
        !text.contains('\r') && !text.contains('\n') ==> privmsg(channel, text) == Ok::<
            Seq<char>,
            Seq<char>,
        >("PRIVMSG "@ + channel + " :"@ + text),
        ctcp_action(text) == "\u{1}ACTION "@ + text + "\u{1}"@,
{
}

/// A nick can be asked for where it is one word.
pub proof fn nick_is_a_word(nick: Seq<char>)
    ensures
        nick_is_one_word(nick) <==> words(nick) == seq![nick],
{
    if nick_is_one_word(nick) {
        crate::text::lemma_one_word(nick);
    }
    if words(nick) == seq![nick] {
        lemma_words_unbroken(nick);
        assert(words(nick)[0] == nick);
        if nick.len() == 0 {
            assert(words(nick).len() == 0);
        }
    }
}

proof fn lemma_words_unbroken(s: Seq<char>)
    ensures
        forall|i: int, k: int|
            0 <= i < words(s).len() && 0 <= k < words(s)[i].len() ==> !is_space(
                #[trigger] words(s)[i][k],
            ),
    decreases s.len(),
{
    if s.len() > 0 {
        let rest = s.drop_last();
        lemma_words_unbroken(rest);
        let before = words(rest);
        let after = words(s);
        if !is_space(s.last()) && s.len() > 1 && !is_space(s[s.len() - 2]) {
            crate::text::lemma_words_some(rest);
        }
        assert forall|i: int, k: int| 0 <= i < after.len() && 0 <= k < after[i].len() implies
            !is_space(#[trigger] after[i][k]) by {
            if i < before.len() && k < before[i].len() {
                assert(!is_space(before[i][k]));
            }
        }
    }
}

} // verus!

//! One IRC connection: its registration, and the session that follows.

use vstd::prelude::*;
use vstd::string::*;

use crate::channel::endpoint::{
    endpoint_at, join_refusal, server_endpoint, BindingView, EndpointView, IrcBinding,
    ServerEndpoint,
};
use crate::channel::line::{
    announced_nick, event_in, handle_irc_line, line_parts, new_nick, observed, parse_irc_line,
    EventView, IrcEvent, LineView, NickList, ParsedIrcLine,
};
use crate::channel::nick::{candidate, nick_candidate, MAX_NICK_ATTEMPTS};
use crate::collections::{copy_option, held, texts, StringMap};
use crate::error::{outcome, Error};
use crate::text::{
    after_prefix, contains_char, contains_space, eq_ignoring_case, is_space, same_ignoring_case,
    same_text, split_words, trim, trimmed, words,
};

verus! {

// ---- registration ----

/// A connection that is being registered with a server.
#[derive(Debug)]
pub struct Registration {
    pub desired: String,
    pub nick: String,
    pub attempts: usize,
    pub channel: String,
}

/// What a `Registration` holds.
#[verifier::ext_equal]
pub struct RegistrationView {
    pub desired: Seq<char>,
    pub nick: Seq<char>,
    pub attempts: nat,
    pub channel: Seq<char>,
}

impl View for Registration {
    type V = RegistrationView;

    open spec fn view(&self) -> RegistrationView {
        RegistrationView {
            desired: self.desired@,
            nick: self.nick@,
            attempts: self.attempts as nat,
            channel: self.channel@,
        }
    }
}

/// Where to connect, and what to send first.
#[derive(Debug)]
pub struct Opening {
    pub endpoint: ServerEndpoint,
    pub lines: Vec<String>,
    pub registration: Registration,
}

/// What an `Opening` holds.
#[verifier::ext_equal]
pub struct OpeningView {
    pub endpoint: EndpointView,
    pub lines: Seq<Seq<char>>,
    pub registration: RegistrationView,
}

impl View for Opening {
    type V = OpeningView;

    open spec fn view(&self) -> OpeningView {
        OpeningView {
            endpoint: self.endpoint@,
            lines: texts(self.lines@),
            registration: self.registration@,
        }
    }
}

/// The lines that open a registration: the password where there is one, the
/// wanted nick, and the user.
pub open spec fn opening_lines(pass: Option<Seq<char>>, desired: Seq<char>) -> Seq<Seq<char>> {
    let first = match pass {
        Some(pass) => seq!["PASS "@ + pass],
        None => Seq::empty(),
    };
    first.push("NICK "@ + desired).push("USER "@ + desired + " 0 * :"@ + desired)
}

/// How a session under `nick` begins, or why it cannot.
pub open spec fn opening_of(binding: BindingView, nick: Seq<char>) -> Result<
    OpeningView,
    Seq<char>,
> {
    let desired = trim(nick);
    if join_refusal(binding) is Some {
        Err(join_refusal(binding)->0)
    } else if desired.len() == 0 {
        Err("an IRC nick is required to join the channel"@)
    } else {
        Ok(
            OpeningView {
                endpoint: endpoint_at(binding.server)->Ok_0,
                lines: opening_lines(binding.pass, desired),
                registration: RegistrationView {
                    desired,
                    nick: desired,
                    attempts: 0,
                    channel: binding.channel,
                },
            },
        )
    }
}

/// What to do after a line of the server during registration.
#[derive(Debug)]
pub enum RegistrationStep {
    Wait,
    Send(String),
    /// The server takes none of the nicks that were tried.
    Refused(Error),
    /// The server accepted `nick`; `lines` join the channel and ask who is there.
    Accepted { nick: String, lines: Vec<String> },
}

/// What a `RegistrationStep` holds.
#[verifier::ext_equal]
pub enum RegistrationStepView {
    Wait,
    Send(Seq<char>),
    Refused(Seq<char>),
    Accepted { nick: Seq<char>, lines: Seq<Seq<char>> },
}

impl View for RegistrationStep {
    type V = RegistrationStepView;

    open spec fn view(&self) -> RegistrationStepView {
        match self {
            RegistrationStep::Wait => RegistrationStepView::Wait,
            RegistrationStep::Send(line) => RegistrationStepView::Send(line@),
            RegistrationStep::Refused(error) => RegistrationStepView::Refused(error@),
            RegistrationStep::Accepted { nick, lines } => RegistrationStepView::Accepted {
                nick: nick@,
                lines: texts(lines@),
            },
        }
    }
}

/// The numbers by which a server says that a nick cannot be had.
pub open spec fn is_nick_refusal(command: Seq<char>) -> bool {
    command == "433"@ || command == "436"@ || command == "437"@
}

fn refuses_nick(command: &str) -> (r: bool)
    ensures
        r == is_nick_refusal(command@),
{
    same_text(command, "433") || same_text(command, "436") || same_text(command, "437")
}

/// The answer to a `PING` line.
pub open spec fn pong(line: Seq<char>) -> Option<Seq<char>> {
    if "PING "@.is_prefix_of(line) {
        Some("PONG "@ + line.skip("PING "@.len() as int))
    } else {
        None
    }
}

fn pong_for(line: &str) -> (r: Option<String>)
    ensures
        held(r) == pong(line@),
{
    match after_prefix(line, "PING ") {
        Some(token) => Some("PONG ".to_owned().concat(token)),
        None => None,
    }
}

/// Registration after a line: pings are answered; a refused nick is followed by
/// the next candidate, a limited number of times; a welcome names the nick.
pub open spec fn registered(s: RegistrationView, line: Seq<char>) -> (
    RegistrationView,
    RegistrationStepView,
) {
    let parts = words(line);
    if pong(line) is Some {
        (s, RegistrationStepView::Send(pong(line)->0))
    } else if parts.len() < 2 {
        (s, RegistrationStepView::Wait)
    } else if parts[1] == "001"@ {
        let nick = if parts.len() > 2 {
            parts[2]
        } else {
            s.nick
        };
        (
            s,
            RegistrationStepView::Accepted {
                nick,
                lines: seq!["JOIN "@ + s.channel, "NAMES "@ + s.channel],
            },
        )
    } else if is_nick_refusal(parts[1]) {
        if s.attempts < MAX_NICK_ATTEMPTS {
            let attempts = s.attempts + 1;
            let nick = candidate(s.desired, attempts);
            (
                RegistrationView { nick, attempts, ..s },
                RegistrationStepView::Send("NICK "@ + nick),
            )
        } else {
            (s, RegistrationStepView::Refused("IRC nick is already in use"@))
        }
    } else {
        (s, RegistrationStepView::Wait)
    }
}

impl Registration {
    /// Begin to register on the binding's server with `nick`, in order to join
    /// the binding's channel.
    pub fn open(binding: &IrcBinding, nick: &str) -> (r: Result<Opening, Error>)
        ensures
            outcome(r) == opening_of(binding@, nick@),
    {
        match binding.validate_for_join() {
            Err(error) => {
                return Err(error);
            },
            Ok(_) => {},
        }
        let desired = trimmed(nick);
        if desired.is_empty() {
            return Err(Error::of("an IRC nick is required to join the channel"));
        }
        match server_endpoint(binding.server.as_str()) {
            Err(error) => Err(error),
            Ok(endpoint) => {
                let mut lines: Vec<String> = Vec::new();
                match &binding.pass {
                    Some(pass) => {
                        lines.push("PASS ".to_owned().concat(pass.as_str()));
                    },
                    None => {},
                }
                let nick = nick_candidate(desired, 0);
                lines.push("NICK ".to_owned().concat(nick.as_str()));
                lines.push(
                    "USER ".to_owned().concat(desired).concat(" 0 * :").concat(desired),
                );
                assert(texts(lines@) =~= opening_lines(held(binding.pass), desired@));
                Ok(
                    Opening {
                        endpoint,
                        lines,
                        registration: Registration {
                            desired: desired.to_owned(),
                            nick,
                            attempts: 0,
                            channel: binding.channel.clone(),
                        },
                    },
                )
            },
        }
    }

    pub fn on_line(&mut self, line: &str) -> (r: RegistrationStep)
        ensures
            (final(self)@, r@) == registered(old(self)@, line@),
    {
        match pong_for(line) {
            Some(answer) => {
                return RegistrationStep::Send(answer);
            },
            None => {},
        }
        let parts = split_words(line);
        let ghost all = words(line@);
        proof {
            assert(all.len() == parts@.len());
            assert(forall|i: int| 0 <= i < all.len() ==> all[i] == (#[trigger] parts@[i])@);
        }
        if parts.len() < 2 {
            return RegistrationStep::Wait;
        }
        let command = parts[1].as_str();
        if same_text(command, "001") {
            let nick = if parts.len() > 2 {
                parts[2].clone()
            } else {
                self.nick.clone()
            };
            let mut lines: Vec<String> = Vec::new();
            lines.push("JOIN ".to_owned().concat(self.channel.as_str()));
            lines.push("NAMES ".to_owned().concat(self.channel.as_str()));
            assert(texts(lines@) =~= seq!["JOIN "@ + self.channel@, "NAMES "@ + self.channel@]);
            return RegistrationStep::Accepted { nick, lines };
        }
        if refuses_nick(command) {
            if self.attempts < MAX_NICK_ATTEMPTS {
                self.attempts = self.attempts + 1;
                self.nick = nick_candidate(self.desired.as_str(), self.attempts);
                return RegistrationStep::Send("NICK ".to_owned().concat(self.nick.as_str()));
            }
            return RegistrationStep::Refused(Error::of("IRC nick is already in use"));
        }
        RegistrationStep::Wait
    }
}

/// Registration never tries more than a limited number of nicks, each of them a
/// candidate of the wanted one.
pub proof fn registration_attempts_are_limited(s: RegistrationView, line: Seq<char>)
    requires
        s.attempts <= MAX_NICK_ATTEMPTS,
        s.nick == candidate(s.desired, s.attempts),
    ensures
        ({
            let next = registered(s, line).0;
            &&& s.attempts <= next.attempts <= MAX_NICK_ATTEMPTS
            &&& next.nick == candidate(next.desired, next.attempts)
            &&& next.desired == s.desired
        }),
{
}

// ---- the running session ----

/// A registered connection that has joined its channel.
#[derive(Debug)]
pub struct IrcSession {
    pub channel: String,
    pub nick: String,
    /// A nick change awaiting the server's confirmation.
    pub pending_nick: Option<String>,
    pub pending_names: StringMap<NickList>,
}

/// What an `IrcSession` holds.
#[verifier::ext_equal]
pub struct SessionView {
    pub channel: Seq<char>,
    pub nick: Seq<char>,
    pub pending_nick: Option<Seq<char>>,
    pub pending_names: Map<Seq<char>, Seq<Seq<char>>>,
}

impl View for IrcSession {
    type V = SessionView;

    open spec fn view(&self) -> SessionView {
        SessionView {
            channel: self.channel@,
            nick: self.nick@,
            pending_nick: held(self.pending_nick),
            pending_names: self.pending_names@,
        }
    }
}

/// What to do after a line of the server.
#[derive(Debug)]
pub struct SessionStep {
    /// A line to send.
    pub send: Option<String>,
    /// The answer to the nick change that was pending.
    pub answer: Option<Result<(), Error>>,
    /// An event for the room bridge.
    pub event: Option<IrcEvent>,
}

/// What a `SessionStep` holds.
#[verifier::ext_equal]
pub struct SessionStepView {
    pub send: Option<Seq<char>>,
    pub answer: Option<Result<(), Seq<char>>>,
    pub event: Option<EventView>,
}

impl View for SessionStep {
    type V = SessionStepView;

    open spec fn view(&self) -> SessionStepView {
        SessionStepView {
            send: held(self.send),
            answer: match self.answer {
                Some(answer) => Some(outcome(answer)),
                None => None,
            },
            event: event_in(self.event),
        }
    }
}

pub open spec fn idle_step() -> SessionStepView {
    SessionStepView { send: None, answer: None, event: None }
}

/// Whether a line says that the session's own nick changed to `new_nick`.
pub open spec fn confirms_nick(s: SessionView, line: LineView, new_nick: Seq<char>) -> bool {
    &&& line.command == "NICK"@
    &&& line.nick is Some
    &&& same_ignoring_case(line.nick->0, s.nick)
    &&& announced_nick(line) is Some
    &&& same_ignoring_case(announced_nick(line)->0, new_nick)
}

/// The session after a parsed line: a pending nick change is confirmed or
/// refused, and whatever else the line tells of the channel becomes an event.
pub open spec fn session_after(s: SessionView, line: LineView) -> (SessionView, SessionStepView) {
    let (names, event) = observed(s.channel, line, s.pending_names);
    match s.pending_nick {
        Some(new_nick) => if confirms_nick(s, line, new_nick) {
            (
                SessionView { nick: new_nick, pending_nick: None, pending_names: names, ..s },
                SessionStepView { send: None, answer: Some(Ok(())), event },
            )
        } else if is_nick_refusal(line.command) {
            (
                SessionView { pending_nick: None, ..s },
                SessionStepView {
                    send: None,
                    answer: Some(Err("IRC nick '"@ + new_nick + "' is already in use"@)),
                    event: None,
                },
            )
        } else {
            (
                SessionView { pending_names: names, ..s },
                SessionStepView { send: None, answer: None, event },
            )
        },
        None => (
            SessionView { pending_names: names, ..s },
            SessionStepView { send: None, answer: None, event },
        ),
    }
}

/// The session after a raw line.
pub open spec fn session_on_line(s: SessionView, line: Seq<char>) -> (
    SessionView,
    SessionStepView,
) {
    if pong(line) is Some {
        (s, SessionStepView { send: pong(line), answer: None, event: None })
    } else {
        match line_parts(line) {
            Some(parts) => session_after(s, parts),
            None => (s, idle_step()),
        }
    }
}

/// The session that has asked for another nick.
pub open spec fn asking(s: SessionView, nick: Seq<char>) -> SessionView {
    SessionView { pending_nick: Some(nick), ..s }
}

impl IrcSession {
    /// The session of a connection that the server accepted as `nick`.
    pub fn new(channel: &str, nick: &str) -> (r: IrcSession)
        ensures
            r@ == (SessionView {
                channel: channel@,
                nick: nick@,
                pending_nick: None,
                pending_names: Map::empty(),
            }),
    {
        IrcSession {
            channel: channel.to_owned(),
            nick: nick.to_owned(),
            pending_nick: None,
            pending_names: StringMap::new(),
        }
    }

    /// Ask for another nick: the line to send. The server's answer comes with a
    /// later line.
    pub fn request_nick(&mut self, nick: &str) -> (r: String)
        ensures
            r@ == "NICK "@ + nick@,
            final(self)@ == asking(old(self)@, nick@),
    {
        self.pending_nick = Some(nick.to_owned());
        "NICK ".to_owned().concat(nick)
    }

    pub fn on_line(&mut self, line: &str) -> (r: SessionStep)
        ensures
            (final(self)@, r@) == session_on_line(old(self)@, line@),
    {
        match pong_for(line) {
            Some(answer) => {
                return SessionStep { send: Some(answer), answer: None, event: None };
            },
            None => {},
        }
        let parsed = match parse_irc_line(line) {
            Some(parsed) => parsed,
            None => {
                return SessionStep { send: None, answer: None, event: None };
            },
        };
        let pending = copy_option(&self.pending_nick);
        let mut answer: Option<Result<(), Error>> = None;
        if let Some(wanted) = pending {
            if is_confirmation(self, &parsed, wanted.as_str()) {
                self.nick = wanted;
                self.pending_nick = None;
                answer = Some(Ok(()));
            } else if refuses_nick(parsed.command.as_str()) {
                self.pending_nick = None;
                let error = Error::new(
                    "IRC nick '".to_owned().concat(wanted.as_str()).concat("' is already in use"),
                );
                return SessionStep { send: None, answer: Some(Err(error)), event: None };
            }
        }
        let event = handle_irc_line(self.channel.as_str(), parsed, &mut self.pending_names);
        SessionStep { send: None, answer, event }
    }
}

fn is_confirmation(session: &IrcSession, line: &ParsedIrcLine, wanted: &str) -> (r: bool)
    ensures
        r == confirms_nick(session@, line@, wanted@),
{
    if !same_text(line.command.as_str(), "NICK") {
        return false;
    }
    match (&line.nick, new_nick(line)) {
        (Some(nick), Some(announced)) => eq_ignoring_case(nick.as_str(), session.nick.as_str())
            && eq_ignoring_case(announced.as_str(), wanted),
        _ => false,
    }
}

/// A confirmed nick change is reported to the bridge as a rename as well.
pub proof fn confirmed_nick_is_also_a_rename(s: SessionView, line: LineView)
    requires
        s.pending_nick is Some,
        confirms_nick(s, line, s.pending_nick->0),
    ensures
        ({
            let (next, step) = session_after(s, line);
            &&& next.nick == s.pending_nick->0
            &&& next.pending_nick is None
            &&& step.answer == Some(Ok::<(), Seq<char>>(()))
            &&& step.event == Some(
                EventView::Renamed { old_nick: line.nick->0, new_nick: announced_nick(line)->0 },
            )
        }),
{
    reveal_strlit("NICK");
    reveal_strlit("PRIVMSG");
    reveal_strlit("JOIN");
    reveal_strlit("PART");
    reveal_strlit("QUIT");
    assert("NICK"@[0] != "JOIN"@[0]);
    assert("NICK"@[0] != "PART"@[0]);
    assert("NICK"@[0] != "QUIT"@[0]);
    assert("NICK"@.len() != "PRIVMSG"@.len());
}

/// A refused nick change keeps the nick that the session had.
pub proof fn refused_nick_is_kept(s: SessionView, line: LineView)
    requires
        s.pending_nick is Some,
        is_nick_refusal(line.command),
    ensures
        ({
            let (next, step) = session_after(s, line);
            &&& next.nick == s.nick
            &&& next.pending_nick is None
            &&& step.answer is Some && step.answer->0 is Err
            &&& step.event is None
        }),
{
    reveal_strlit("NICK");
    reveal_strlit("433");
    reveal_strlit("436");
    reveal_strlit("437");
    assert("NICK"@.len() == 4);
}

// ---- what a session sends ----

/// The line that says `text` on the channel, unless it is more than one line.
pub open spec fn privmsg(channel: Seq<char>, text: Seq<char>) -> Result<Seq<char>, Seq<char>> {
    if text.contains('\r') || text.contains('\n') {
        Err("IRC message must be one line"@)
    } else {
        Ok("PRIVMSG "@ + channel + " :"@ + text)
    }
}

pub fn privmsg_line(channel: &str, text: &str) -> (r: Result<String, Error>)
    ensures
        outcome(r) == privmsg(channel@, text@),
{
    if contains_char(text, '\r') || contains_char(text, '\n') {
        return Err(Error::of("IRC message must be one line"));
    }
    Ok("PRIVMSG ".to_owned().concat(channel).concat(" :").concat(text))
}

/// `text` wrapped as a CTCP ACTION.
pub open spec fn ctcp_action(text: Seq<char>) -> Seq<char> {
    "\u{1}ACTION "@ + text + "\u{1}"@
}

/// Send a CTCP ACTION (`/me`) to the channel.
pub fn action_line(channel: &str, text: &str) -> (r: Result<String, Error>)
    ensures
        outcome(r) == privmsg(channel@, ctcp_action(text@)),
{
    let wrapped = "\u{1}ACTION ".to_owned().concat(text).concat("\u{1}");
    privmsg_line(channel, wrapped.as_str())
}

pub fn names_line(channel: &str) -> (r: String)
    ensures
        r@ == "NAMES "@ + channel@,
{
    "NAMES ".to_owned().concat(channel)
}

pub fn quit_line() -> (r: String)
    ensures
        r@ == "QUIT :leaving"@,
{
    "QUIT :leaving".to_owned()
}

/// Whether a nick is one word.
pub open spec fn nick_is_one_word(nick: Seq<char>) -> bool {
    nick.len() > 0 && forall|i: int| 0 <= i < nick.len() ==> !is_space(#[trigger] nick[i])
}

/// Refuses a nick that is not one word.
pub fn check_nick(nick: &str) -> (r: Result<(), Error>)
    ensures
        match r {
            Ok(_) => nick_is_one_word(nick@),
            Err(error) => !nick_is_one_word(nick@) && error@ == "invalid IRC nick"@,
        },
{
    if nick.is_empty() || contains_space(nick) {
        Err(Error::of("invalid IRC nick"))
    } else {
        Ok(())
    }
}

} // verus!

//! What one session says on a channel, the others observe.

use vstd::prelude::*;

use crate::channel::line::{arguments, line_of, line_parts, observed, speech, EventView};
use crate::channel::session::{ctcp_action, privmsg};
use crate::text::{
    ascii_upper, begins_with, cut_once, first_at, is_space, join, lemma_first_at_is,
    lemma_join_first, lemma_join_split, lemma_split_first, lemma_split_some, split_on, trim,
    trim_start,
};

verus! {

pub proof fn lemma_cut(a: Seq<char>, b: Seq<char>, c: char)
    requires
        !a.contains(c),
    ensures
        cut_once(a + seq![c] + b, c) == Some((a, b)),
{
    let s = a + seq![c] + b;
    lemma_first_at_is(s, c);
    let n = first_at(s, c);
    assert(s[a.len() as int] == c);
    if n < a.len() {
        assert(a[n] == c);
    }
    assert(n == a.len());
    assert(s.take(n) =~= a);
    assert(s.skip(n + 1) =~= b);
}

/// The first piece of a text that does not begin with `c` begins like the text.
pub proof fn lemma_first_piece(s: Seq<char>, c: char)
    requires
        s.len() > 0,
        s[0] != c,
    ensures
        split_on(s, c)[0].len() > 0,
        split_on(s, c)[0][0] == s[0],
    decreases s.len(),
{
    let rest = s.drop_last();
    lemma_split_some(rest, c);
    if rest.len() == 0 {
        assert(split_on(rest, c) =~= seq![Seq::<char>::empty()]);
        assert(split_on(s, c)[0] =~= seq![s[0]]);
    } else {
        lemma_first_piece(rest, c);
        assert(rest[0] == s[0]);
    }
}

/// The arguments of a message are its channel and its text.
proof fn lemma_message_arguments(channel: Seq<char>, text: Seq<char>)
    requires
        channel.len() > 0,
        channel[0] != ':',
        !channel.contains(' '),
    ensures
        arguments(split_on(channel + " :"@ + text, ' ')) == (seq![channel], Some(text)),
{
    reveal_strlit(" :");
    reveal_strlit(" ");
    let marked = seq![':'] + text;
    assert(channel + " :"@ + text =~= channel + seq![' '] + marked);
    assert(" "@ =~= seq![' ']);
    lemma_split_first(channel, marked, ' ');
    let rest = split_on(marked, ' ');
    let pieces = seq![channel] + rest;
    lemma_split_some(marked, ' ');
    lemma_first_piece(marked, ' ');
    lemma_join_split(marked, ' ');
    assert(pieces.drop_first() =~= rest);
    assert(pieces[0] == channel);
    assert(begins_with(rest[0], ':'));
    if rest.len() > 1 {
        lemma_join_first(rest, " "@);
        let more = " "@ + join(rest.drop_first(), " "@);
        assert(marked =~= rest[0] + more);
        assert(rest[0].skip(1) + more =~= marked.skip(1));
    } else {
        assert(rest.drop_first().len() == 0);
        assert(rest[0] == marked);
        assert(rest[0].skip(1) + Seq::<char>::empty() =~= marked.skip(1));
    }
    assert(marked.skip(1) =~= text);
    assert(arguments(rest) == (Seq::<Seq<char>>::empty(), Some(text)));
    assert(seq![channel] + Seq::<Seq<char>>::empty() =~= seq![channel]);
}

/// What a session says on its channel reaches every other session on the
/// channel as speech of that nick.
pub proof fn speech_is_observed(
    nick: Seq<char>,
    host: Seq<char>,
    channel: Seq<char>,
    text: Seq<char>,
    names: Map<Seq<char>, Seq<Seq<char>>>,
)
    requires
        !nick.contains(' ') && !nick.contains('!'),
        !host.contains(' '),
        channel.len() > 0 && channel[0] != ':' && !channel.contains(' '),
        privmsg(channel, text) is Ok,
    ensures
        ({
            let line = ":"@ + nick + "!"@ + host + " "@ + privmsg(channel, text)->Ok_0;
            &&& line_parts(line) is Some
            &&& observed(channel, line_parts(line)->0, names) == (
                names,
                Some(speech(nick, text)),
            )
        }),
{
    reveal_strlit(":");
    reveal_strlit("!");
    reveal_strlit(" ");
    reveal_strlit("PRIVMSG");
    reveal_strlit("PRIVMSG ");
    let prefix = nick + seq!['!'] + host;
    let args = channel + " :"@ + text;
    let body = "PRIVMSG"@ + seq![' '] + args;
    let line = ":"@ + nick + "!"@ + host + " "@ + privmsg(channel, text)->Ok_0;
    assert(privmsg(channel, text)->Ok_0 =~= body);
    assert(line =~= seq![':'] + (prefix + seq![' '] + body));
    assert(line.skip(1) =~= prefix + seq![' '] + body);
    assert(!prefix.contains(' ')) by {
        if prefix.contains(' ') {
            let i = prefix.index_of(' ');
            if i < nick.len() {
                assert(nick[i] == ' ');
            } else if i > nick.len() {
                assert(host[i - nick.len() - 1] == ' ');
            }
        }
    }
    lemma_cut(prefix, body, ' ');
    assert(!"PRIVMSG"@.contains(' '));
    lemma_cut("PRIVMSG"@, args, ' ');
    lemma_cut(nick, host, '!');
    lemma_first_at_is(prefix, '!');
    assert(prefix.take(first_at(prefix, '!')) =~= nick);
    assert(ascii_upper("PRIVMSG"@) =~= "PRIVMSG"@);
    assert(args[0] == channel[0]);
    lemma_message_arguments(channel, text);
    let parts = line_of(Some(prefix), body);
    assert(parts.params[0] == channel);
    assert(line_parts(line) == Some(parts));
}

/// An action that a session sends is observed as an action.
pub proof fn action_is_observed(nick: Seq<char>, text: Seq<char>)
    ensures
        speech(nick, ctcp_action(text)) == (EventView::Action { nick, text: trim(text) }),
{
    reveal_strlit("\u{1}ACTION");
    reveal_strlit("\u{1}ACTION ");
    reveal_strlit("\u{1}");
    let sent = ctcp_action(text);
    let body = sent.skip("\u{1}ACTION"@.len() as int);
    assert("\u{1}ACTION"@.is_prefix_of(sent));
    assert(body =~= seq![' '] + text + "\u{1}"@);
    assert("\u{1}"@.is_suffix_of(body));
    let inner = body.take(body.len() - "\u{1}"@.len());
    assert(inner =~= seq![' '] + text);
    assert(is_space(' '));
    assert(inner.drop_first() =~= text);
    assert(trim_start(inner) == trim_start(text));
}

} // verus!

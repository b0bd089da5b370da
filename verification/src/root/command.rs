//! The commands that rooms and the concourse obey.

use vstd::prelude::*;
use vstd::string::*;

use crate::channel::dig::RoomSpec;
use crate::channel::endpoint::{is_valid_channel, validate_irc_server_url};
use crate::channel::room::{exit_views, left, locked, room_owner, RoomActor, RoomExit};
use crate::collections::{borrow_texts, texts};
use crate::error::{outcome, Error};
use crate::ids::draw_exit_fragment;
use crate::root::dig::drawn;
use crate::root::model::{
    command_word, concourse_command_step, concourse_dispatch, ctx_step, delete_command_step,
    describe_step, dig_command_step, enter_command_step, exit_add_step, exit_del_step, exit_lines,
    exits_text, irc_step, is_irc_command, look_text, owners_only, prop_step, room_command_step,
    room_step, shown_setting, unlock_step,
};
use crate::root::{DigOutcome, EnterResult, RootActor};
use crate::text::{
    copy_from, join_all, join_from, no_text, same_text, split_words, to_ascii_lower, trimmed,
    underscores_to_spaces, without_leading, words,
};
use crate::yaml::render_ctx;

verus! {

fn shown_exits(exits: &Vec<RoomExit>) -> (r: String)
    ensures
        r@ == exits_text(exit_views(exits@)),
{
    if exits.len() == 0 {
        return "(no exits)".to_owned();
    }
    let ghost all = exit_lines(exit_views(exits@));
    let mut lines: Vec<String> = Vec::new();
    let mut i: usize = 0;
    while i < exits.len()
        invariant
            i <= exits@.len(),
            all == exit_lines(exit_views(exits@)),
            texts(lines@) =~= all.take(i as int),
        decreases exits@.len() - i,
    {
        let ghost before = texts(lines@);
        lines.push(exits[i].name.clone().concat(" -> ").concat(exits[i].target.as_str()));
        assert(texts(lines@) =~= before.push(all[i as int]));
        i += 1;
    }
    assert(texts(lines@) =~= all);
    join_all(&lines, "\n")
}

fn shown_room(room: &RoomActor) -> (r: String)
    ensures
        r@ == look_text(room@),
{
    room.name().to_owned().concat("\n").concat(room.description()).concat("\nExits:\n").concat(
        shown_exits(&room.exits).as_str(),
    )
}

/// Whether `caller` owns the room.
fn owns(room: &RoomActor, caller: &str) -> (r: bool)
    ensures
        r == (room_owner(room@) == Some(caller@)),
{
    match room.owner() {
        Some(owner) => same_text(owner, caller),
        None => false,
    }
}

fn prop_command(
    room: &mut RoomActor,
    caller: &str,
    runtime_owner: bool,
    args: &Vec<String>,
) -> (r: Result<String, Error>)
    ensures
        (final(room)@, outcome(r)) == prop_step(
            old(room)@,
            caller@,
            runtime_owner,
            texts(args@),
        ),
{
    if args.len() == 0 {
        return Err(Error::of("usage: :prop <key> [value]"));
    }
    let key = args[0].as_str();
    assert(texts(args@)[0] == key@);
    let value = join_from(args, 1, " ");
    if value.as_str().is_empty() {
        return match room.get_prop(key) {
            Some(value) => Ok(value.to_owned()),
            None => Ok("(unset)".to_owned()),
        };
    }
    if same_text(key, "owner") {
        return Err(Error::of("owner is a protected prop; use :owner <did>"));
    }
    if !(runtime_owner || owns(room, caller)) {
        return Err(Error::of("only the room owner may set props"));
    }
    room.set_prop(key, value.as_str());
    Ok(key.to_owned().concat(" set"))
}

fn unlock_command(
    room: &mut RoomActor,
    caller: &str,
    runtime_owner: bool,
    args: &Vec<String>,
) -> (r: Result<String, Error>)
    ensures
        (final(room)@, outcome(r)) == unlock_step(
            old(room)@,
            caller@,
            runtime_owner,
            texts(args@),
        ),
{
    let secret = join_all(args, " ");
    if !room.is_locked() {
        return Ok("room is not locked".to_owned());
    }
    if runtime_owner || owns(room, caller) {
        room.unlock();
        return Ok("unlocked".to_owned());
    }
    if secret.as_str().is_empty() {
        return Err(Error::of("usage: :unlock <secret>"));
    }
    if same_text(secret.as_str(), room.locked_secret()) {
        room.unlock();
        Ok("unlocked".to_owned())
    } else {
        Err(Error::of("wrong unlock secret"))
    }
}

/// A setting, or a word for its not being set.
fn show_setting(value: Option<&String>, unset: &str) -> (r: String)
    ensures
        r@ == shown_setting(
            match value {
                Some(value) => value@,
                None => Seq::empty(),
            },
            unset@,
        ),
{
    match value {
        Some(value) => if value.as_str().is_empty() {
            unset.to_owned()
        } else {
            value.clone()
        },
        None => unset.to_owned(),
    }
}

fn irc_command(room: &mut RoomActor, command: &str, args: &Vec<String>) -> (r: Result<
    String,
    Error,
>)
    requires
        is_irc_command(command@),
    ensures
        (final(room)@, outcome(r)) == irc_step(old(room)@, command@, texts(args@)),
{
    let value = join_all(args, " ");
    if same_text(command, "irc-server") {
        if value.as_str().is_empty() {
            let server = match &room.irc {
                Some(binding) => Some(&binding.server),
                None => None,
            };
            return Ok(show_setting(server, "(IRC server not set)"));
        }
        match validate_irc_server_url(value.as_str()) {
            Ok(_) => {},
            Err(error) => {
                return Err(error);
            },
        }
        let binding = room.irc_config_mut();
        binding.server = value.clone();
        Ok("IRC server set to ".to_owned().concat(value.as_str()))
    } else if same_text(command, "irc-nick") {
        if value.as_str().is_empty() {
            let nick = match &room.irc {
                Some(binding) => Some(&binding.nick),
                None => None,
            };
            return Ok(show_setting(nick, "(IRC nick not set)"));
        }
        let binding = room.irc_config_mut();
        binding.nick = value.clone();
        Ok("IRC nick set to ".to_owned().concat(value.as_str()))
    } else if same_text(command, "irc-channel") {
        if value.as_str().is_empty() {
            let channel = match &room.irc {
                Some(binding) => Some(&binding.channel),
                None => None,
            };
            return Ok(show_setting(channel, "(IRC channel not set)"));
        }
        if !is_valid_channel(value.as_str()) {
            return Err(Error::of("usage: :irc-channel #<name>"));
        }
        let binding = room.irc_config_mut();
        binding.channel = value.clone();
        Ok("IRC channel set to ".to_owned().concat(value.as_str()))
    } else if same_text(command, "irc-connect") {
        let text = match &room.irc {
            Some(binding) => match binding.validate_for_join() {
                Ok(_) => "connected ".to_owned().concat(binding.channel.as_str()).concat(
                    " on ",
                ).concat(binding.server.as_str()),
                Err(error) => {
                    return Err(error);
                },
            },
            None => {
                return Err(Error::of("set the IRC server and channel before :irc-connect"));
            },
        };
        room.irc_active = true;
        Ok(text)
    } else {
        room.deactivate_irc();
        Ok("disconnected ".to_owned().concat(room.name()))
    }
}

fn names_irc_command(command: &str) -> (r: bool)
    ensures
        r == is_irc_command(command@),
{
    same_text(command, "irc-server") || same_text(command, "irc-nick") || same_text(
        command,
        "irc-channel",
    ) || same_text(command, "irc-connect") || same_text(command, "irc-disconnect")
}

/// Does what a command says inside a room.
fn obey(
    room: &mut RoomActor,
    caller: &str,
    runtime_owner: bool,
    command: &str,
    args: &Vec<String>,
) -> (r: Result<String, Error>)
    ensures
        (final(room)@, outcome(r)) == room_step(
            old(room)@,
            caller@,
            runtime_owner,
            command@,
            texts(args@),
        ),
{
    if same_text(command, "help") || same_text(command, "look") {
        Ok(shown_room(room))
    } else if same_text(command, "exits") {
        Ok(shown_exits(&room.exits))
    } else if same_text(command, "say") {
        match room.say(caller) {
            Ok(_) => Ok(String::new()),
            Err(error) => Err(error),
        }
    } else if same_text(command, "emote") {
        match room.emote(caller) {
            Ok(_) => Ok(String::new()),
            Err(error) => Err(error),
        }
    } else if same_text(command, "prop") {
        prop_command(room, caller, runtime_owner, args)
    } else if same_text(command, "owner") {
        if args.len() != 1 {
            return Err(Error::of("usage: :owner <did>"));
        }
        let did = args[0].as_str();
        assert(texts(args@)[0] == did@);
        room.set_owner(Some(did));
        Ok("owner set to ".to_owned().concat(did))
    } else if same_text(command, "unlock") {
        unlock_command(room, caller, runtime_owner, args)
    } else if names_irc_command(command) {
        irc_command(room, command, args)
    } else if same_text(command, "leave") {
        room.leave(caller);
        Ok("left ".to_owned().concat(room.name()))
    } else {
        Err(
            Error::new(
                "unknown room command '".to_owned().concat(command).concat(
                    "' (try: look, exits, say, emote, prop, owner, unlock, irc-server, irc-nick, irc-channel, irc-connect, irc-disconnect, leave)",
                ),
            ),
        )
    }
}

fn clean_command(word: &str) -> (r: String)
    ensures
        r@ == command_word(word@),
{
    to_ascii_lower(without_leading(word, ':'))
}

fn needs_owner(command: &str) -> (r: bool)
    ensures
        r == owners_only(command@),
{
    same_text(command, "irc-connect") || same_text(command, "irc-disconnect") || same_text(
        command,
        "owner",
    )
}

/// What follows the command.
fn args_of(parts: &Vec<String>) -> (r: Vec<String>)
    ensures
        texts(r@) == (if parts@.len() == 0 {
            Seq::empty()
        } else {
            texts(parts@).skip(1)
        }),
{
    if parts.len() == 0 {
        let r: Vec<String> = Vec::new();
        assert(texts(r@) =~= Seq::<Seq<char>>::empty());
        r
    } else {
        copy_from(parts, 1)
    }
}

impl RootActor {
    /// A command given inside a room.
    pub fn room_command(&mut self, caller: &str, fragment: &str, input: &str) -> (r: Result<
        String,
        Error,
    >)
        ensures
            (final(self)@, outcome(r)) == room_command_step(
                old(self)@,
                caller@,
                fragment@,
                input@,
            ),
    {
        let parts = split_words(input);
        proof {
            assert(words(input@).len() == parts@.len());
            if parts@.len() > 0 {
                assert(words(input@)[0] == parts@[0]@);
            }
        }
        let command = if parts.len() == 0 {
            clean_command("look")
        } else {
            clean_command(parts[0].as_str())
        };
        let args = args_of(&parts);
        let runtime_owner = self.is_owner(caller);
        if needs_owner(command.as_str()) && !runtime_owner {
            return Err(Error::of("only owners may do this"));
        }
        match self.entity_mut(fragment) {
            Some(room) => obey(room, caller, runtime_owner, command.as_str(), &args),
            None => Err(Error::of("entity not found")),
        }
    }

    fn dig_command(
        &mut self,
        caller: &str,
        args: &Vec<String>,
        fragment: String,
        exit: String,
    ) -> (r: Result<String, Error>)
        ensures
            (final(self)@, outcome(r)) == dig_command_step(
                old(self)@,
                caller@,
                texts(args@),
                fragment@,
                exit@,
            ),
    {
        let borrowed = borrow_texts(args);
        match RoomSpec::from_tokens(borrowed.as_slice()) {
            Ok(spec_) => match self.dig_or_enter_at(caller, spec_, fragment, exit) {
                Ok(DigOutcome::Local { name, .. }) => Ok(
                    "entered ".to_owned().concat(name.as_str()),
                ),
                Ok(DigOutcome::Foreign { target, label }) => Ok(
                    "linked ".to_owned().concat(label.as_str()).concat(" -> ").concat(
                        target.as_str(),
                    ),
                ),
                Err(error) => Err(error),
            },
            Err(error) => Err(error),
        }
    }

    fn describe_command(&mut self, args: &Vec<String>) -> (r: Result<String, Error>)
        ensures
            (final(self)@, outcome(r)) == describe_step(old(self)@, texts(args@)),
    {
        if args.len() == 0 {
            return Err(Error::of("usage: describe <room> <text_with_underscores>"));
        }
        let name = args[0].as_str();
        assert(texts(args@)[0] == name@);
        let description = join_from(args, 1, " ");
        if description.as_str().is_empty() {
            return Err(Error::of("usage: describe <room> <text_with_underscores>"));
        }
        match self.entity_mut(name) {
            Some(room) => {
                room.set_description(underscores_to_spaces(description.as_str()));
                Ok("updated description for ".to_owned().concat(name))
            },
            None => Err(Error::of("entity not found")),
        }
    }

    fn exit_add_command(&mut self, args: &Vec<String>, exit: String) -> (r: Result<String, Error>)
        ensures
            (final(self)@, outcome(r)) == exit_add_step(old(self)@, texts(args@), exit@),
    {
        if args.len() < 3 {
            return Err(Error::of("usage: exit-add <room> <name> <target>"));
        }
        let name = args[0].as_str();
        let exit_name = args[1].as_str();
        let target = args[2].as_str();
        assert(texts(args@)[0] == name@ && texts(args@)[1] == exit_name@ && texts(args@)[2]
            == target@);
        match self.entity_mut(name) {
            Some(room) => {
                room.add_exit_at(exit_name, target, exit);
                Ok("added exit ".to_owned().concat(exit_name).concat(" -> ").concat(target))
            },
            None => Err(Error::of("entity not found")),
        }
    }

    fn exit_del_command(&mut self, args: &Vec<String>) -> (r: Result<String, Error>)
        ensures
            (final(self)@, outcome(r)) == exit_del_step(old(self)@, texts(args@)),
    {
        if args.len() < 2 {
            return Err(Error::of("usage: exit-del <room> <name>"));
        }
        let name = args[0].as_str();
        let exit_name = args[1].as_str();
        assert(texts(args@)[0] == name@ && texts(args@)[1] == exit_name@);
        match self.entity_mut(name) {
            Some(room) => match room.remove_exit(exit_name) {
                Ok(_) => Ok("removed exit ".to_owned().concat(exit_name)),
                Err(error) => Err(error),
            },
            None => Err(Error::of("entity not found")),
        }
    }

    fn delete_command(&mut self, caller: &str, args: &Vec<String>) -> (r: Result<String, Error>)
        ensures
            (final(self)@, outcome(r)) == delete_command_step(
                old(self)@,
                caller@,
                texts(args@),
            ),
    {
        if args.len() == 0 {
            return Err(Error::of("usage: delete <entity>"));
        }
        let name = args[0].as_str();
        assert(texts(args@)[0] == name@);
        match self.delete_entity(caller, name) {
            Ok(_) => Ok("deleted ".to_owned().concat(name)),
            Err(error) => Err(error),
        }
    }

    fn ctx_command(&self, args: &Vec<String>) -> (r: Result<String, Error>)
        ensures
            (self@, outcome(r)) == ctx_step(self@, texts(args@)),
    {
        if args.len() == 0 {
            return Err(Error::of("usage: ctx <room>"));
        }
        let name = args[0].as_str();
        assert(texts(args@)[0] == name@);
        match self.find_room(name) {
            Some((_, room)) => render_ctx(room),
            None => Err(Error::of("entity not found")),
        }
    }

    fn enter_command(&mut self, caller: &str, args: &Vec<String>) -> (r: Result<String, Error>)
        ensures
            (final(self)@, outcome(r)) == enter_command_step(
                old(self)@,
                caller@,
                texts(args@),
            ),
    {
        if args.len() == 0 {
            return Err(Error::of("usage: enter <entity>"));
        }
        let name = args[0].as_str();
        assert(texts(args@)[0] == name@);
        match self.enter_entity(caller, name, "{}") {
            Ok(EnterResult::Joined) => Ok("entered ".to_owned().concat(name)),
            Ok(EnterResult::ConcourseGuide(text)) => Ok(text),
            Err(error) => Err(error),
        }
    }

    /// A command given on the concourse.
    pub fn concourse_command(&mut self, caller: &str, input: &str) -> (r: Result<String, Error>)
        ensures
            exists|fragment: Seq<char>, exit: Seq<char>|
                drawn(old(self)@, fragment, exit) && (final(self)@, outcome(r))
                    == #[trigger] concourse_command_step(
                    old(self)@,
                    caller@,
                    input@,
                    fragment,
                    exit,
                ),
    {
        let fragment = self.generate_fragment();
        let exit = draw_exit_fragment();
        assert(drawn(self@, fragment@, exit@));
        self.concourse_command_at(caller, input, fragment, exit)
    }

    /// As `concourse_command`, with the addresses of a new room and of a new
    /// exit given.
    pub fn concourse_command_at(
        &mut self,
        caller: &str,
        input: &str,
        fragment: String,
        exit: String,
    ) -> (r: Result<String, Error>)
        ensures
            (final(self)@, outcome(r)) == concourse_command_step(
                old(self)@,
                caller@,
                input@,
                fragment@,
                exit@,
            ),
    {
        let text = trimmed(input);
        if text.is_empty() {
            return Ok(self.concourse_instructions());
        }
        let parts = split_words(text);
        proof {
            assert(words(text@).len() == parts@.len());
            if parts@.len() > 0 {
                assert(words(text@)[0] == parts@[0]@);
            }
        }
        let command = if parts.len() == 0 {
            clean_command(no_text())
        } else {
            clean_command(parts[0].as_str())
        };
        let args = args_of(&parts);
        self.obey_on_concourse(caller, command.as_str(), &args, fragment, exit)
    }

    fn obey_on_concourse(
        &mut self,
        caller: &str,
        command: &str,
        args: &Vec<String>,
        fragment: String,
        exit: String,
    ) -> (r: Result<String, Error>)
        ensures
            (final(self)@, outcome(r)) == concourse_dispatch(
                old(self)@,
                caller@,
                command@,
                texts(args@),
                fragment@,
                exit@,
            ),
    {
        if same_text(command, "help") || same_text(command, "look") {
            Ok(self.concourse_instructions())
        } else if same_text(command, "exits") || same_text(command, "list") {
            let labels = self.room_label_list();
            if labels.len() == 0 {
                Ok("(no rooms yet)".to_owned())
            } else {
                Ok(join_all(&labels, "\n"))
            }
        } else if same_text(command, "dig") {
            self.dig_command(caller, args, fragment, exit)
        } else if same_text(command, "describe") {
            self.describe_command(args)
        } else if same_text(command, "exit-add") {
            self.exit_add_command(args, exit)
        } else if same_text(command, "exit-del") {
            self.exit_del_command(args)
        } else if same_text(command, "delete") || same_text(command, "del") {
            self.delete_command(caller, args)
        } else if same_text(command, "ctx") {
            self.ctx_command(args)
        } else if same_text(command, "enter") {
            self.enter_command(caller, args)
        } else {
            Err(
                Error::new(
                    "unknown #concourse command '".to_owned().concat(command).concat(
                        "' (try: help, exits, dig, describe, exit-add, exit-del, delete, ctx, enter)",
                    ),
                ),
            )
        }
    }
}

} // verus!

//! What a room shows of itself, as YAML.

use vstd::prelude::*;
use vstd::string::*;

use crate::channel::endpoint::{BindingView, IrcBinding};
use crate::channel::room::{
    exit_views, room_description, room_name, ExitView, RoomActor, RoomExit, RoomView,
};
use crate::error::{outcome, Error};
use crate::term::{plain, text_entry, TermView};

verus! {

#[verifier::external_type_specification]
#[verifier::external_body]
pub struct ExYamlValue(serde_yaml::Value);

/// What a `serde_yaml::Value` holds: strings, sequences and mappings by their
/// contents, anything else as `Other`.
pub uninterp spec fn yaml_tree(value: serde_yaml::Value) -> TermView;

/// What the values of a vector hold.
pub open spec fn yaml_trees(items: Seq<serde_yaml::Value>) -> Seq<TermView> {
    items.map_values(|item: serde_yaml::Value| yaml_tree(item))
}

/// What named values hold.
pub open spec fn yaml_entries(entries: Seq<(String, serde_yaml::Value)>) -> Seq<
    (TermView, TermView),
> {
    entries.map_values(|entry: (String, serde_yaml::Value)| (TermView::Text(entry.0@), yaml_tree(
        entry.1,
    )))
}

/// Whether no two of the named values have the same name.
pub open spec fn names_differ(entries: Seq<(String, serde_yaml::Value)>) -> bool {
    forall|i: int, j: int|
        0 <= i < j < entries.len() ==> (#[trigger] entries[i]).0@ != (#[trigger] entries[j]).0@
}

/// `serde_yaml::Value::String`: a value that holds the text.
#[verifier::external_body]
fn yaml_text(text: &str) -> (r: serde_yaml::Value)
    ensures
        yaml_tree(r) == TermView::Text(text@),
{
    serde_yaml::Value::String(text.to_string())
}

/// `serde_yaml::Value::Sequence`: a value that holds the items.
#[verifier::external_body]
fn yaml_list(items: Vec<serde_yaml::Value>) -> (r: serde_yaml::Value)
    ensures
        yaml_tree(r) == TermView::Array(yaml_trees(items@)),
{
    serde_yaml::Value::Sequence(items)
}

/// `serde_yaml::Mapping::from_iter`: a value that holds the entries in their
/// order, which no two of one name upset.
#[verifier::external_body]
fn yaml_record(entries: Vec<(String, serde_yaml::Value)>) -> (r: serde_yaml::Value)
    requires
        names_differ(entries@),
    ensures
        yaml_tree(r) == TermView::Record(yaml_entries(entries@)),
{
    serde_yaml::Value::Mapping(
        entries.into_iter().map(|(name, value)| (serde_yaml::Value::String(name), value)).collect(),
    )
}

/// The text that `serde_yaml::to_string` writes for a value that holds this, or
/// the error's message.
pub uninterp spec fn yaml_rendered(t: TermView) -> Result<Seq<char>, Seq<char>>;

/// `serde_yaml::to_string`: the value as text, which depends on what the value
/// holds alone.
#[verifier::external_body]
fn yaml_render(value: &serde_yaml::Value) -> (r: Result<String, String>)
    requires
        plain(yaml_tree(*value)),
    ensures
        match r {
            Ok(text) => yaml_rendered(yaml_tree(*value)) == Ok::<Seq<char>, Seq<char>>(text@),
            Err(error) => yaml_rendered(yaml_tree(*value)) == Err::<Seq<char>, Seq<char>>(error@),
        },
{
    serde_yaml::to_string(value).map_err(|error| error.to_string())
}

pub open spec fn exit_tree(exit: ExitView) -> TermView {
    TermView::Record(
        seq![
            text_entry("name"@, exit.name),
            text_entry("target"@, exit.target),
            text_entry("fragment"@, exit.fragment),
        ],
    )
}

pub open spec fn exit_trees(exits: Seq<ExitView>) -> Seq<TermView> {
    exits.map_values(|exit: ExitView| exit_tree(exit))
}

/// The entry of a setting, if it is set.
pub open spec fn optional_entry(name: Seq<char>, text: Option<Seq<char>>) -> Seq<
    (TermView, TermView),
> {
    match text {
        Some(text) => seq![text_entry(name, text)],
        None => Seq::empty(),
    }
}

pub open spec fn binding_tree(binding: BindingView) -> TermView {
    TermView::Record(
        seq![
            text_entry("server"@, binding.server),
            text_entry("channel"@, binding.channel),
            text_entry("nick"@, binding.nick),
        ] + optional_entry("net"@, binding.net) + optional_entry("pass"@, binding.pass),
    )
}

/// What a room shows of itself: its name, its description, its exits, and its
/// binding where it has one.
pub open spec fn ctx_tree(room: RoomView) -> TermView {
    TermView::Record(
        seq![
            text_entry("name"@, room_name(room)),
            text_entry("description"@, room_description(room)),
            (TermView::Text("exits"@), TermView::Array(exit_trees(room.exits))),
        ] + match room.irc {
            Some(binding) => seq![(TermView::Text("irc"@), binding_tree(binding))],
            None => Seq::empty(),
        },
    )
}

/// What a room shows of itself, as text.
pub open spec fn ctx_text(room: RoomView) -> Result<Seq<char>, Seq<char>> {
    match yaml_rendered(ctx_tree(room)) {
        Ok(text) => Ok(text),
        Err(error) => Err("serialising room ctx: "@ + error),
    }
}

proof fn lemma_exit_tree_plain(exit: ExitView)
    ensures
        plain(exit_tree(exit)),
{
    let entries = exit_tree(exit)->Record_0;
    assert forall|i: int| 0 <= i < entries.len() implies {
        let entry = #[trigger] entries[i];
        plain(entry.0) && plain(entry.1)
    } by {
        assert(entries[i] == text_entry("name"@, exit.name) || entries[i] == text_entry(
            "target"@,
            exit.target,
        ) || entries[i] == text_entry("fragment"@, exit.fragment));
    }
}

proof fn lemma_binding_tree_plain(binding: BindingView)
    ensures
        plain(binding_tree(binding)),
{
    let entries = binding_tree(binding)->Record_0;
    assert forall|i: int| 0 <= i < entries.len() implies {
        let entry = #[trigger] entries[i];
        plain(entry.0) && plain(entry.1)
    } by {
        assert(entries[i].0 is Text && entries[i].1 is Text);
    }
}

proof fn lemma_ctx_tree_plain(room: RoomView)
    ensures
        plain(ctx_tree(room)),
{
    let exits = TermView::Array(exit_trees(room.exits));
    assert(plain(exits)) by {
        assert forall|i: int| 0 <= i < exit_trees(room.exits).len() implies plain(
            #[trigger] exit_trees(room.exits)[i],
        ) by {
            lemma_exit_tree_plain(room.exits[i]);
        }
    }
    match room.irc {
        Some(binding) => lemma_binding_tree_plain(binding),
        None => {},
    }
    let entries = ctx_tree(room)->Record_0;
    assert forall|i: int| 0 <= i < entries.len() implies {
        let entry = #[trigger] entries[i];
        plain(entry.0) && plain(entry.1)
    } by {
        if i == 2 {
            assert(entries[i].1 == exits);
        } else if i == 3 {
            assert(entries[i].1 == binding_tree(room.irc->0));
        }
    }
}

fn exit_value(exit: &RoomExit) -> (r: serde_yaml::Value)
    ensures
        yaml_tree(r) == exit_tree(exit@),
{
    let mut entries: Vec<(String, serde_yaml::Value)> = Vec::new();
    entries.push(("name".to_owned(), yaml_text(exit.name.as_str())));
    entries.push(("target".to_owned(), yaml_text(exit.target.as_str())));
    entries.push(("fragment".to_owned(), yaml_text(exit.fragment.as_str())));
    proof {
        reveal_strlit("name");
        reveal_strlit("target");
        reveal_strlit("fragment");
        assert("name"@.len() == 4 && "target"@.len() == 6 && "fragment"@.len() == 8);
        assert(yaml_entries(entries@) =~= exit_tree(exit@)->Record_0);
    }
    yaml_record(entries)
}

fn binding_value(binding: &IrcBinding) -> (r: serde_yaml::Value)
    ensures
        yaml_tree(r) == binding_tree(binding@),
{
    let mut entries: Vec<(String, serde_yaml::Value)> = Vec::new();
    entries.push(("server".to_owned(), yaml_text(binding.server.as_str())));
    entries.push(("channel".to_owned(), yaml_text(binding.channel.as_str())));
    entries.push(("nick".to_owned(), yaml_text(binding.nick.as_str())));
    if let Some(net) = &binding.net {
        entries.push(("net".to_owned(), yaml_text(net.as_str())));
    }
    if let Some(pass) = &binding.pass {
        entries.push(("pass".to_owned(), yaml_text(pass.as_str())));
    }
    proof {
        reveal_strlit("server");
        reveal_strlit("channel");
        reveal_strlit("nick");
        reveal_strlit("net");
        reveal_strlit("pass");
        assert("server"@.len() == 6 && "channel"@.len() == 7 && "nick"@.len() == 4);
        assert("net"@.len() == 3 && "pass"@.len() == 4);
        assert("nick"@[0] != "pass"@[0]);
        assert(yaml_entries(entries@) =~= binding_tree(binding@)->Record_0);
    }
    yaml_record(entries)
}

fn exit_values(exits: &[RoomExit]) -> (r: Vec<serde_yaml::Value>)
    ensures
        yaml_trees(r@) == exit_trees(exit_views(exits@)),
{
    let mut out: Vec<serde_yaml::Value> = Vec::new();
    let mut i: usize = 0;
    while i < exits.len()
        invariant
            i <= exits@.len(),
            yaml_trees(out@) =~= exit_trees(exit_views(exits@)).take(i as int),
        decreases exits@.len() - i,
    {
        let ghost before = yaml_trees(out@);
        out.push(exit_value(&exits[i]));
        assert(yaml_trees(out@) =~= before.push(exit_tree(exits@[i as int]@)));
        i += 1;
    }
    assert(yaml_trees(out@) =~= exit_trees(exit_views(exits@)));
    out
}

/// What a room shows of itself, as text.
pub fn render_ctx(room: &RoomActor) -> (r: Result<String, Error>)
    ensures
        outcome(r) == ctx_text(room@),
{
    let ctx = room.ctx_view();
    let mut entries: Vec<(String, serde_yaml::Value)> = Vec::new();
    entries.push(("name".to_owned(), yaml_text(ctx.name.as_str())));
    entries.push(("description".to_owned(), yaml_text(ctx.description.as_str())));
    entries.push(("exits".to_owned(), yaml_list(exit_values(ctx.exits))));
    if let Some(binding) = ctx.irc {
        entries.push(("irc".to_owned(), binding_value(binding)));
    }
    proof {
        reveal_strlit("name");
        reveal_strlit("description");
        reveal_strlit("exits");
        reveal_strlit("irc");
        assert("name"@.len() == 4 && "description"@.len() == 11);
        assert("exits"@.len() == 5 && "irc"@.len() == 3);
        assert(yaml_entries(entries@) =~= ctx_tree(room@)->Record_0);
        lemma_ctx_tree_plain(room@);
    }
    match yaml_render(&yaml_record(entries)) {
        Ok(text) => Ok(text),
        Err(error) => Err(
            Error::new("serialising room ctx: ".to_owned().concat(error.as_str())),
        ),
    }
}

/// What a room shows of itself holds its name and its description, every exit
/// with its name, its target and its address, and its binding where it has one.
pub proof fn shown_room_holds_exits_and_binding(room: RoomView, i: int)
    ensures
        ({
            let shown = ctx_tree(room);
            let exits = shown->Record_0[2].1->Array_0;
            &&& shown is Record
            &&& shown->Record_0[0] == (
                TermView::Text("name"@),
                TermView::Text(
                    if room.props.contains_key("name"@) {
                        room.props["name"@]
                    } else {
                        room.label
                    },
                ),
            )
            &&& shown->Record_0[1] == (
                TermView::Text("description"@),
                TermView::Text(
                    if room.props.contains_key("description"@) {
                        room.props["description"@]
                    } else {
                        Seq::empty()
                    },
                ),
            )
            &&& shown->Record_0[2].0 == TermView::Text("exits"@)
            &&& shown->Record_0[2].1 is Array
            &&& exits.len() == room.exits.len()
            &&& 0 <= i < room.exits.len() ==> exits[i] == TermView::Record(
                seq![
                    (TermView::Text("name"@), TermView::Text(room.exits[i].name)),
                    (TermView::Text("target"@), TermView::Text(room.exits[i].target)),
                    (TermView::Text("fragment"@), TermView::Text(room.exits[i].fragment)),
                ],
            )
            &&& room.irc is None ==> shown->Record_0.len() == 3
            &&& room.irc is Some ==> shown->Record_0.len() == 4 && shown->Record_0[3] == (
                TermView::Text("irc"@),
                binding_tree(room.irc->0),
            )
        }),
{
}

/// A binding is shown with its server, its channel and its nick, and with its net
/// and its password where they are set.
pub proof fn shown_binding_holds_what_is_set(binding: BindingView)
    ensures
        ({
            let common = seq![
                (TermView::Text("server"@), TermView::Text(binding.server)),
                (TermView::Text("channel"@), TermView::Text(binding.channel)),
                (TermView::Text("nick"@), TermView::Text(binding.nick)),
            ];
            let net = if binding.net is Some {
                common.push((TermView::Text("net"@), TermView::Text(binding.net->0)))
            } else {
                common
            };
            binding_tree(binding) == TermView::Record(
                if binding.pass is Some {
                    net.push((TermView::Text("pass"@), TermView::Text(binding.pass->0)))
                } else {
                    net
                },
            )
        }),
{
    let common = seq![
        (TermView::Text("server"@), TermView::Text(binding.server)),
        (TermView::Text("channel"@), TermView::Text(binding.channel)),
        (TermView::Text("nick"@), TermView::Text(binding.nick)),
    ];
    let net = if binding.net is Some {
        common.push((TermView::Text("net"@), TermView::Text(binding.net->0)))
    } else {
        common
    };
    let all = if binding.pass is Some {
        net.push((TermView::Text("pass"@), TermView::Text(binding.pass->0)))
    } else {
        net
    };
    assert(binding_tree(binding)->Record_0 =~= all);
}

/// What a room shows of itself is told as YAML, and an error of that is told as
/// one.
pub proof fn shown_room_is_told_as_yaml(room: RoomView, text: Seq<char>)
    ensures
        yaml_rendered(ctx_tree(room)) == Ok::<Seq<char>, Seq<char>>(text) ==> ctx_text(room) == Ok::<
            Seq<char>,
            Seq<char>,
        >(text),
        yaml_rendered(ctx_tree(room)) == Err::<Seq<char>, Seq<char>>(text) ==> ctx_text(room)
            == Err::<Seq<char>, Seq<char>>("serialising room ctx: "@ + text),
{
}

} // verus!

//! The local status endpoint's requests and responses.

use vstd::prelude::*;
use vstd::string::*;
use vstd::utf8::{encode_utf8, valid_utf8};

use crate::error::{outcome, Error};
use crate::root::dig::drawn;
use crate::root::model::{concourse_command_step, instructions, RootView};
use crate::root::report::shows_rooms;
use crate::root::{RoomGraphSnapshot, RootActor};
use crate::text::{
    decimal, decimal_text, first_at, index_of_char, no_text, same_text, split_words, starts_with,
    trim, trimmed, words,
};

verus! {

/// Where the status server listens, and what it tells of the runtime.
#[derive(Debug)]
pub struct StatusConfig {
    pub bind: String,
    pub did: String,
    pub slug: String,
}

/// The text that `String::from_utf8_lossy` makes of these bytes.
pub uninterp spec fn lossy_text(bytes: Seq<u8>) -> Seq<char>;

/// `String::from_utf8_lossy`: the bytes as text, by the bytes alone; where they
/// are UTF-8, the text that they encode.
#[verifier::external_body]
fn decode_lossy(bytes: &[u8]) -> (r: String)
    ensures
        r@ == lossy_text(bytes@),
        valid_utf8(bytes@) ==> encode_utf8(r@) == bytes@,
{
    String::from_utf8_lossy(bytes).into_owned()
}

/// What a request to the status server asks for.
#[derive(Debug)]
pub enum Route {
    Preflight,
    Status,
    Help,
    State,
    /// A command for the concourse, as the JSON text of the request's body.
    Command { body: String },
    /// A command without a body.
    MissingBody,
    Other,
}

/// What a `Route` holds.
#[verifier::ext_equal]
pub enum RouteView {
    Preflight,
    Status,
    Help,
    State,
    Command { body: Seq<char> },
    MissingBody,
    Other,
}

impl View for Route {
    type V = RouteView;

    open spec fn view(&self) -> RouteView {
        match self {
            Route::Preflight => RouteView::Preflight,
            Route::Status => RouteView::Status,
            Route::Help => RouteView::Help,
            Route::State => RouteView::State,
            Route::Command { body } => RouteView::Command { body: body@ },
            Route::MissingBody => RouteView::MissingBody,
            Route::Other => RouteView::Other,
        }
    }
}

/// The index at which `sep` first begins in `s`, or the length of `s`.
pub open spec fn find(s: Seq<char>, sep: Seq<char>) -> int
    decreases s.len(),
{
    if s.len() == 0 || sep.is_prefix_of(s) {
        0
    } else {
        1 + find(s.drop_first(), sep)
    }
}

/// What stands between the first two blank lines of a request.
pub open spec fn request_body(request: Seq<char>) -> Seq<char> {
    let sep = "\r\n\r\n"@;
    let n = find(request, sep);
    if n + sep.len() <= request.len() {
        let rest = request.skip(n + sep.len());
        rest.take(find(rest, sep))
    } else {
        Seq::empty()
    }
}

/// The words of the first line of a request.
pub open spec fn request_line(request: Seq<char>) -> Seq<Seq<char>> {
    words(request.take(first_at(request, '\n')))
}

/// What a request asks for.
pub open spec fn route_of(request: Seq<char>) -> RouteView {
    let line = request_line(request);
    let method = if line.len() > 0 {
        line[0]
    } else {
        "GET"@
    };
    let path = if line.len() > 1 {
        line[1]
    } else {
        "/"@
    };
    if method == "OPTIONS"@ {
        RouteView::Preflight
    } else if method == "GET"@ && path == "/status.json"@ {
        RouteView::Status
    } else if method == "GET"@ && path == "/concourse/help"@ {
        RouteView::Help
    } else if method == "GET"@ && path == "/concourse/state"@ {
        RouteView::State
    } else if method == "POST"@ && path == "/concourse/cmd"@ {
        let body = trim(request_body(request));
        if body.len() == 0 {
            RouteView::MissingBody
        } else {
            RouteView::Command { body }
        }
    } else {
        RouteView::Other
    }
}

proof fn lemma_find(s: Seq<char>, sep: Seq<char>)
    ensures
        0 <= find(s, sep) <= s.len(),
    decreases s.len(),
{
    if s.len() > 0 && !sep.is_prefix_of(s) {
        lemma_find(s.drop_first(), sep);
    }
}

/// The index at which `sep` first begins in `text`, or the length of `text`.
fn find_text(text: &str, sep: &str) -> (r: usize)
    ensures
        r == find(text@, sep@),
        r <= text@.len(),
{
    let n = text.unicode_len();
    let mut i: usize = 0;
    assert(text@.skip(0) =~= text@);
    loop
        invariant
            i <= n,
            n == text@.len(),
            find(text@, sep@) == i + find(text@.skip(i as int), sep@),
        ensures
            i <= n,
            find(text@, sep@) == i,
        decreases n - i,
    {
        assert(text@.subrange(i as int, n as int) =~= text@.skip(i as int));
        if i == n || starts_with(text.substring_char(i, n), sep) {
            break ;
        }
        assert(text@.skip(i as int).drop_first() =~= text@.skip(i + 1));
        i += 1;
    }
    i
}

fn body_of(request: &str) -> (r: &str)
    ensures
        r@ == request_body(request@),
{
    let sep = "\r\n\r\n";
    let n = request.unicode_len();
    let at = find_text(request, sep);
    let skip = sep.unicode_len();
    if skip <= n - at {
        let from = at + skip;
        assert(request@.subrange(from as int, n as int) =~= request@.skip(from as int));
        let rest = request.substring_char(from, n);
        let to = find_text(rest, sep);
        assert(rest@.subrange(0, to as int) =~= rest@.take(to as int));
        rest.substring_char(0, to)
    } else {
        no_text()
    }
}

/// What a request asks for, by its text.
pub fn route_text(request: &str) -> (r: Route)
    ensures
        r@ == route_of(request@),
{
    let end = index_of_char(request, '\n');
    assert(request@.subrange(0, end as int) =~= request@.take(end as int));
    let line = split_words(request.substring_char(0, end));
    let ghost all = request_line(request@);
    proof {
        assert(all.len() == line@.len());
        assert(forall|i: int| 0 <= i < all.len() ==> all[i] == (#[trigger] line@[i])@);
    }
    let method = if line.len() > 0 {
        line[0].as_str()
    } else {
        "GET"
    };
    let path = if line.len() > 1 {
        line[1].as_str()
    } else {
        "/"
    };
    if same_text(method, "OPTIONS") {
        Route::Preflight
    } else if same_text(method, "GET") && same_text(path, "/status.json") {
        Route::Status
    } else if same_text(method, "GET") && same_text(path, "/concourse/help") {
        Route::Help
    } else if same_text(method, "GET") && same_text(path, "/concourse/state") {
        Route::State
    } else if same_text(method, "POST") && same_text(path, "/concourse/cmd") {
        let body = trimmed(body_of(request));
        if body.is_empty() {
            Route::MissingBody
        } else {
            Route::Command { body: body.to_owned() }
        }
    } else {
        Route::Other
    }
}

/// What a request asks for, by its bytes.
pub fn route(request: &[u8]) -> (r: Route)
    ensures
        r@ == route_of(lossy_text(request@)),
{
    let text = decode_lossy(request);
    route_text(text.as_str())
}

/// The HTTP status, the content type and the body of the routes that are
/// answered with a fixed text.
pub open spec fn plain_reply(route: RouteView) -> Option<(Seq<char>, Seq<char>, Seq<char>)> {
    match route {
        RouteView::Preflight => Some(("204 No Content"@, "text/plain; charset=utf-8"@, ""@)),
        RouteView::Other => Some(
            ("200 OK"@, "text/plain; charset=utf-8"@, "ma-irc status endpoint\n"@),
        ),
        _ => None,
    }
}

/// A response with a fixed text.
#[derive(Debug)]
pub struct PlainReply {
    pub status: &'static str,
    pub content_type: &'static str,
    pub body: &'static str,
}

impl View for PlainReply {
    type V = (Seq<char>, Seq<char>, Seq<char>);

    open spec fn view(&self) -> (Seq<char>, Seq<char>, Seq<char>) {
        (self.status@, self.content_type@, self.body@)
    }
}

/// What `/status.json` tells of the runtime.
#[derive(Debug)]
pub struct StatusReport {
    pub did: String,
    pub slug: String,
    pub status_bind: String,
    pub service: &'static str,
}

/// What `/concourse/state` tells of the runtime.
#[derive(Debug)]
pub struct StateReport {
    pub ok: bool,
    pub did: String,
    pub slug: String,
    pub graph: RoomGraphSnapshot,
}

/// What a request is answered with.
#[derive(Debug)]
pub enum Response {
    Plain(PlainReply),
    Status(StatusReport),
    Answer(CommandAnswer),
    State(StateReport),
    /// The answer to the command in this JSON text.
    Run { body: String },
}

/// Whether `response` is what `route` is answered with.
pub open spec fn answers(
    response: Response,
    route: RouteView,
    cfg: StatusConfig,
    root: RootView,
) -> bool {
    match (route, response) {
        (RouteView::Preflight, Response::Plain(reply)) => plain_reply(route) == Some(reply@),
        (RouteView::Other, Response::Plain(reply)) => plain_reply(route) == Some(reply@),
        (RouteView::Status, Response::Status(report)) => {
            &&& report.did@ == cfg.did@
            &&& report.slug@ == cfg.slug@
            &&& report.status_bind@ == cfg.bind@
            &&& report.service@ == "ma-irc"@
        },
        (RouteView::Help, Response::Answer(answer)) => tells(answer, Ok(instructions(root))),
        (RouteView::State, Response::State(report)) => {
            &&& report.ok
            &&& report.did@ == cfg.did@
            &&& report.slug@ == cfg.slug@
            &&& shows_rooms(report.graph@, root.entities)
        },
        (RouteView::MissingBody, Response::Answer(answer)) => tells(
            answer,
            Err("missing JSON body"@),
        ),
        (RouteView::Command { body }, Response::Run { body: text }) => text@ == body,
        _ => false,
    }
}

/// The fixed text that a route is answered with, if it is.
pub fn plain_response(route: &Route) -> (r: Option<PlainReply>)
    ensures
        match r {
            Some(reply) => plain_reply(route@) == Some(reply@),
            None => plain_reply(route@) is None,
        },
{
    match route {
        Route::Preflight => Some(
            PlainReply {
                status: "204 No Content",
                content_type: "text/plain; charset=utf-8",
                body: "",
            },
        ),
        Route::Other => Some(
            PlainReply {
                status: "200 OK",
                content_type: "text/plain; charset=utf-8",
                body: "ma-irc status endpoint\n",
            },
        ),
        _ => None,
    }
}

/// What a route is answered with.
pub fn respond(route: Route, cfg: &StatusConfig, root: &RootActor) -> (r: Response)
    ensures
        answers(r, route@, *cfg, root@),
{
    if let Some(reply) = plain_response(&route) {
        return Response::Plain(reply);
    }
    match route {
        Route::Status => Response::Status(
            StatusReport {
                did: cfg.did.clone(),
                slug: cfg.slug.clone(),
                status_bind: cfg.bind.clone(),
                service: "ma-irc",
            },
        ),
        Route::Help => Response::Answer(command_answer(Ok(root.concourse_instructions()))),
        Route::State => Response::State(
            StateReport {
                ok: true,
                did: cfg.did.clone(),
                slug: cfg.slug.clone(),
                graph: root.room_graph_snapshot(),
            },
        ),
        Route::Command { body } => Response::Run { body },
        _ => Response::Answer(missing_body()),
    }
}

/// The HTTP status and the content type of a response; that of a command is the
/// one of its answer.
pub open spec fn head_of(response: Response) -> (Seq<char>, Seq<char>) {
    match response {
        Response::Plain(reply) => (reply.status@, reply.content_type@),
        Response::Answer(answer) => (status_of(answer.ok), "application/json"@),
        _ => ("200 OK"@, "application/json"@),
    }
}

pub fn response_head(response: &Response) -> (r: (&'static str, &'static str))
    ensures
        (r.0@, r.1@) == head_of(*response),
{
    match response {
        Response::Plain(reply) => (reply.status, reply.content_type),
        Response::Answer(answer) => (answer_status(answer), "application/json"),
        _ => ("200 OK", "application/json"),
    }
}

/// The answer to a command: whether it was obeyed, and what is told.
#[derive(Debug)]
pub struct CommandAnswer {
    pub ok: bool,
    pub output: String,
}

/// Whether an answer tells the outcome of a command.
pub open spec fn tells(answer: CommandAnswer, result: Result<Seq<char>, Seq<char>>) -> bool {
    match result {
        Ok(text) => answer.ok && answer.output@ == text,
        Err(error) => !answer.ok && answer.output@ == error,
    }
}

/// The answer to a command that came to `result`.
pub fn command_answer(result: Result<String, Error>) -> (r: CommandAnswer)
    ensures
        tells(r, outcome(result)),
{
    match result {
        Ok(output) => CommandAnswer { ok: true, output },
        Err(error) => CommandAnswer { ok: false, output: error.message().to_owned() },
    }
}

/// Gives a command on the concourse.
pub fn run_command(root: &mut RootActor, from: &str, command: &str) -> (r: CommandAnswer)
    ensures
        exists|fragment: Seq<char>, exit: Seq<char>|
            drawn(old(root)@, fragment, exit) && {
                let (after, result) = #[trigger] concourse_command_step(
                    old(root)@,
                    from@,
                    command@,
                    fragment,
                    exit,
                );
                final(root)@ == after && tells(r, result)
            },
{
    let result = root.concourse_command(from, command);
    command_answer(result)
}

pub fn missing_body() -> (r: CommandAnswer)
    ensures
        !r.ok,
        r.output@ == "missing JSON body"@,
{
    CommandAnswer { ok: false, output: "missing JSON body".to_owned() }
}

pub fn invalid_body(error: &str) -> (r: CommandAnswer)
    ensures
        !r.ok,
        r.output@ == "invalid JSON: "@ + error@,
{
    CommandAnswer { ok: false, output: "invalid JSON: ".to_owned().concat(error) }
}

/// The HTTP status of an answer.
pub open spec fn status_of(ok: bool) -> Seq<char> {
    if ok {
        "200 OK"@
    } else {
        "400 Bad Request"@
    }
}

pub fn answer_status(answer: &CommandAnswer) -> (r: &'static str)
    ensures
        r@ == status_of(answer.ok),
{
    if answer.ok {
        "200 OK"
    } else {
        "400 Bad Request"
    }
}

/// The head of a response, which lets every origin read it.
pub open spec fn header_of(status: Seq<char>, content_type: Seq<char>, len: nat) -> Seq<char> {
    "HTTP/1.1 "@ + status + "\r\nContent-Type: "@ + content_type + "\r\nContent-Length: "@
        + decimal(len)
        + "\r\nAccess-Control-Allow-Origin: *\r\nAccess-Control-Allow-Methods: GET, POST, OPTIONS\r\nAccess-Control-Allow-Headers: Content-Type\r\nConnection: close\r\n\r\n"@
}

pub fn response_header(status: &str, content_type: &str, body_len: u64) -> (r: String)
    ensures
        r@ == header_of(status@, content_type@, body_len as nat),
{
    "HTTP/1.1 ".to_owned().concat(status).concat("\r\nContent-Type: ").concat(
        content_type,
    ).concat("\r\nContent-Length: ").concat(decimal_text(body_len).as_str()).concat(
        "\r\nAccess-Control-Allow-Origin: *\r\nAccess-Control-Allow-Methods: GET, POST, OPTIONS\r\nAccess-Control-Allow-Headers: Content-Type\r\nConnection: close\r\n\r\n",
    )
}

// ---- what holds of requests and responses ----

proof fn lemma_find_at(s: Seq<char>, sep: Seq<char>, n: int)
    requires
        0 <= n <= s.len(),
        forall|i: int| 0 <= i < n ==> !sep.is_prefix_of(#[trigger] s.skip(i)),
        n < s.len() ==> sep.is_prefix_of(s.skip(n)),
    ensures
        find(s, sep) == n,
    decreases n,
{
    assert(s.skip(0) =~= s);
    if n > 0 {
        let rest = s.drop_first();
        assert(!sep.is_prefix_of(s.skip(0)));
        assert forall|i: int| 0 <= i < n - 1 implies !sep.is_prefix_of(#[trigger] rest.skip(i)) by {
            assert(rest.skip(i) =~= s.skip(i + 1));
        }
        assert(rest.skip(n - 1) =~= s.skip(n));
        lemma_find_at(rest, sep, n - 1);
    }
}

/// The body of a request is what follows its first blank line, up to the next one
/// or to the end.
pub proof fn body_follows_the_blank_line(head: Seq<char>, body: Seq<char>)
    requires
        ({
            let sep = "\r\n\r\n"@;
            let request = head + sep + body;
            &&& forall|i: int| 0 <= i < head.len() ==> !sep.is_prefix_of(#[trigger] request.skip(i))
            &&& forall|i: int| 0 <= i < body.len() ==> !sep.is_prefix_of(#[trigger] body.skip(i))
        }),
    ensures
        request_body(head + "\r\n\r\n"@ + body) == body,
{
    let sep = "\r\n\r\n"@;
    let request = head + sep + body;
    reveal_strlit("\r\n\r\n");
    assert(sep.is_prefix_of(request.skip(head.len() as int))) by {
        assert(request.skip(head.len() as int).subrange(0, sep.len() as int) =~= sep);
    }
    lemma_find_at(request, sep, head.len() as int);
    let rest = request.skip((head.len() + sep.len()) as int);
    assert(rest =~= body);
    lemma_find_at(body, sep, body.len() as int);
    assert(body.take(body.len() as int) =~= body);
}

/// A request without a blank line has no body.
pub proof fn body_needs_a_blank_line(request: Seq<char>)
    requires
        forall|i: int|
            0 <= i < request.len() ==> !"\r\n\r\n"@.is_prefix_of(#[trigger] request.skip(i)),
    ensures
        request_body(request).len() == 0,
{
    reveal_strlit("\r\n\r\n");
    lemma_find_at(request, "\r\n\r\n"@, request.len() as int);
}

/// The words of the first line decide, whatever the lines behind it say.
pub proof fn first_line_is_the_request_line(line: Seq<char>, rest: Seq<char>)
    requires
        !line.contains('\n'),
    ensures
        request_line(line + seq!['\n'] + rest) == words(line),
        request_line(line) == words(line),
{
    let whole = line + seq!['\n'] + rest;
    crate::text::lemma_first_at_is(whole, '\n');
    crate::text::lemma_first_at_is(line, '\n');
    let n = first_at(whole, '\n');
    assert(whole[line.len() as int] == '\n');
    if n < line.len() {
        assert(line[n] == '\n');
    }
    assert(whole.take(n) =~= line);
    assert(line.take(first_at(line, '\n')) =~= line);
}

/// What is asked for, by method and path.
pub proof fn method_and_path_decide(request: Seq<char>)
    ensures
        ({
            let line = request_line(request);
            let method = if line.len() > 0 {
                line[0]
            } else {
                "GET"@
            };
            let path = if line.len() > 1 {
                line[1]
            } else {
                "/"@
            };
            let body = trim(request_body(request));
            let route = route_of(request);
            &&& method == "OPTIONS"@ <==> route == RouteView::Preflight
            &&& method == "GET"@ && path == "/status.json"@ <==> route == RouteView::Status
            &&& method == "GET"@ && path == "/concourse/help"@ <==> route == RouteView::Help
            &&& method == "GET"@ && path == "/concourse/state"@ <==> route == RouteView::State
            &&& method == "POST"@ && path == "/concourse/cmd"@ && body.len() > 0 <==> route is Command
            &&& route is Command ==> route->body == body
            &&& method == "POST"@ && path == "/concourse/cmd"@ && body.len() == 0 <==> route
                == RouteView::MissingBody
        }),
{
    reveal_strlit("OPTIONS");
    reveal_strlit("GET");
    reveal_strlit("POST");
    reveal_strlit("/status.json");
    reveal_strlit("/concourse/help");
    reveal_strlit("/concourse/state");
    reveal_strlit("/concourse/cmd");
    assert("OPTIONS"@.len() == 7 && "GET"@.len() == 3 && "POST"@.len() == 4);
    assert("/status.json"@.len() == 12 && "/concourse/help"@.len() == 15);
    assert("/concourse/state"@.len() == 16 && "/concourse/cmd"@.len() == 14);
}

/// What each route is answered with.
pub proof fn every_route_has_its_answer(
    response: Response,
    route: RouteView,
    cfg: StatusConfig,
    root: RootView,
)
    requires
        answers(response, route, cfg, root),
    ensures
        route is Preflight ==> response is Plain && response->Plain_0.status@
            == "204 No Content"@ && response->Plain_0.body@ == ""@,
        route is Other ==> response is Plain && response->Plain_0.status@ == "200 OK"@
            && response->Plain_0.body@ == "ma-irc status endpoint\n"@,
        response is Plain ==> response->Plain_0.content_type@ == "text/plain; charset=utf-8"@,
        route is Status ==> response is Status && response->Status_0.did@ == cfg.did@
            && response->Status_0.slug@ == cfg.slug@ && response->Status_0.status_bind@
            == cfg.bind@ && response->Status_0.service@ == "ma-irc"@,
        route is Help ==> response is Answer && response->Answer_0.ok
            && response->Answer_0.output@ == instructions(root),
        route is State ==> response is State && response->State_0.ok && response->State_0.did@
            == cfg.did@ && response->State_0.slug@ == cfg.slug@ && shows_rooms(
            response->State_0.graph@,
            root.entities,
        ),
        route is MissingBody ==> response is Answer && !response->Answer_0.ok
            && response->Answer_0.output@ == "missing JSON body"@,
        route is Command ==> response is Run && response->Run_body@ == route->body,
{
}

/// An answer says whether the command was obeyed, and tells its text or the
/// reason; its status says the same.
pub proof fn answer_tells_the_outcome(
    answer: CommandAnswer,
    result: Result<Seq<char>, Seq<char>>,
)
    requires
        tells(answer, result),
    ensures
        answer.ok <==> result is Ok,
        result is Ok ==> answer.output@ == result->Ok_0,
        result is Err ==> answer.output@ == result->Err_0,
        result is Ok ==> head_of(Response::Answer(answer)) == ("200 OK"@, "application/json"@),
        result is Err ==> head_of(Response::Answer(answer)) == (
            "400 Bad Request"@,
            "application/json"@,
        ),
{
}

/// The head of a response gives its status, its type and its length, lets every
/// origin read it, and ends the connection.
pub proof fn header_lets_every_origin_read(
    status: Seq<char>,
    content_type: Seq<char>,
    len: nat,
    response: Response,
)
    ensures
        header_of(status, content_type, len) == "HTTP/1.1 "@ + status + "\r\nContent-Type: "@
            + content_type + "\r\nContent-Length: "@ + decimal(len)
            + "\r\nAccess-Control-Allow-Origin: *\r\nAccess-Control-Allow-Methods: GET, POST, OPTIONS\r\nAccess-Control-Allow-Headers: Content-Type\r\nConnection: close\r\n\r\n"@,
        response is Status || response is State || response is Run ==> head_of(response) == (
            "200 OK"@,
            "application/json"@,
        ),
        response is Plain ==> head_of(response) == (
            response->Plain_0.status@,
            response->Plain_0.content_type@,
        ),
{
}

} // verus!

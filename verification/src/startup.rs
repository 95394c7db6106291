//! What the programs decide while they start and while connections come in.

use vstd::prelude::*;

use crate::addr::SocketAddr;
use crate::broker::{first_free, following_id, BrokerError, SessionBroker};

verus! {

/// The key that every session is given.
pub const CIPHER_KEY: u64 = 0xdead_beef;

/// The port that the server listens at unless it is told otherwise.
pub const DEFAULT_LISTEN_PORT: u16 = 4433;

/// How a certificate or a key is written down.
#[derive(Clone, Copy, Debug, PartialEq, Eq, Structural)]
pub enum CredentialFormat {
    Der,
    Pem,
}

/// The format of a file with this extension.
pub fn credential_format(extension: Option<&str>) -> (format: CredentialFormat)
    ensures
        format == if extension is Some && extension->0@ == "der"@ {
            CredentialFormat::Der
        } else {
            CredentialFormat::Pem
        },
{
    match extension {
        Some(text) => {
            if text.to_owned() == "der".to_owned() {
                CredentialFormat::Der
            } else {
                CredentialFormat::Pem
            }
        },
        None => CredentialFormat::Pem,
    }
}

/// Slashes separate the components of a path, and on Windows backslashes do so too.
pub open spec fn is_separator(c: char, windows: bool) -> bool {
    c == '/' || windows && c == '\\'
}

/// The end of `text` behind the last `mark`; all of it if there is none.
pub open spec fn after_last(text: Seq<char>, mark: char) -> Seq<char>
    decreases text.len(),
{
    if text.len() == 0 || text.last() == mark {
        Seq::empty()
    } else {
        after_last(text.drop_last(), mark).push(text.last())
    }
}

/// The end of a path behind its last separator; all of it if there is none.
pub open spec fn last_component(path: Seq<char>, windows: bool) -> Seq<char>
    decreases path.len(),
{
    if path.len() == 0 || is_separator(path.last(), windows) {
        Seq::empty()
    } else {
        last_component(path.drop_last(), windows).push(path.last())
    }
}

/// The path without the separators, and the dots behind separators, that it ends in.
pub open spec fn without_trailing(path: Seq<char>, windows: bool) -> Seq<char>
    decreases path.len(),
{
    let len = path.len() as int;
    if len > 0 && is_separator(path[len - 1], windows) {
        without_trailing(path.drop_last(), windows)
    } else if len > 1 && path[len - 1] == '.' && is_separator(path[len - 2], windows) {
        without_trailing(path.drop_last(), windows)
    } else {
        path
    }
}

/// What a path ends in: the name of the file, unless it is empty, one dot or two dots.
pub open spec fn file_name(path: Seq<char>, windows: bool) -> Seq<char> {
    last_component(without_trailing(path, windows), windows)
}

/// The part of the file name behind its last dot, if the name has a dot other than one at its
/// start.
pub open spec fn extension_of(path: Seq<char>, windows: bool) -> Option<Seq<char>> {
    let name = file_name(path, windows);
    let extension = after_last(name, '.');
    if name == seq!['.', '.'] || name.len() - extension.len() < 2 {
        None
    } else {
        Some(extension)
    }
}

/// The path begins with two separators.
pub open spec fn begins_with_two(path: Seq<char>) -> bool {
    path.len() >= 2 && is_separator(path[0], true) && is_separator(path[1], true)
}

/// The path may begin with a prefix for a device, or with one that is taken literally.
pub open spec fn special_prefix(path: Seq<char>) -> bool {
    begins_with_two(path) && path.len() > 2 && (path[2] == '?' || path[2] == '.')
}

/// A platform may read the path in this way: with backslashes as separators or without, and, where
/// they are, behind a prefix of some characters. The prefix is a drive and a colon, or a server and
/// a share of it behind two separators.
pub open spec fn may_read(path: Seq<char>, windows: bool, prefix: int) -> bool {
    ||| prefix == 0
    ||| windows && prefix == 2 && path.len() >= 2 && path[1] == ':'
    ||| {
        &&& windows && begins_with_two(path)
        &&& 2 < prefix <= path.len()
        &&& prefix == path.len() || is_separator(path[prefix], true)
        &&& path.subrange(2, prefix).filter(|c: char| is_separator(c, true)).len() <= 1
    }
}

/// A platform may find this extension in the path.
pub open spec fn may_find(path: Seq<char>, extension: Option<Seq<char>>) -> bool {
    exists|windows: bool, prefix: int| #[trigger]
        may_read(path, windows, prefix) && extension_of(path.skip(prefix), windows) == extension
}

/// The characters of a text, if there is one.
pub open spec fn text_of(text: Option<String>) -> Option<Seq<char>> {
    match text {
        Some(given) => Some(given@),
        None => None,
    }
}

/// No backslash and no colon occurs in the path, and it does not begin with two slashes, so that
/// every platform reads it in the same way.
pub open spec fn portable_path(path: Seq<char>) -> bool {
    &&& !path.contains('\\') && !path.contains(':')
    &&& !(path.len() >= 2 && path[0] == '/' && path[1] == '/')
}

/// More separators stand before `end` than the longest prefix has that the path may begin with.
/// Only a backslash separates in a path whose prefix is taken literally.
pub open spec fn behind_prefix(path: Seq<char>, end: int) -> bool {
    let before = path.take(end);
    let separators = before.filter(|c: char| is_separator(c, true)).len();
    let backslashes = before.filter(|c: char| c == '\\').len();
    if !begins_with_two(path) {
        true
    } else if path.len() > 2 && path[2] == '?' {
        backslashes > if path.len() > 4 && (path[4] == 'U' || path[4] == 'u') {
            5int
        } else {
            3
        }
    } else {
        separators > 3
    }
}

/// The path ends in a dot and an extension behind some character of a file name, whatever separates
/// its components and whatever prefix it has.
pub open spec fn plain_ending(path: Seq<char>) -> bool {
    let extension = after_last(path, '.');
    let dot = path.len() - extension.len() - 1;
    &&& dot >= 1
    &&& !extension.contains('/') && !extension.contains('\\') && !extension.contains(':')
    &&& !is_separator(path[dot - 1], true) && path[dot - 1] != ':' && path[dot - 1] != '.'
    &&& behind_prefix(path, dot)
}

/// A dot and then `extension` occur somewhere in the path.
pub open spec fn path_holds(path: Seq<char>, extension: Seq<char>) -> bool {
    exists|i: int|
        0 <= i && i + 1 + extension.len() <= path.len() && #[trigger] path.subrange(
            i,
            i + 1 + extension.len(),
        ) == seq!['.'] + extension
}

/// What a path without backslashes ends in is the same whether or not they separate.
proof fn lemma_no_backslash(path: Seq<char>)
    requires
        !path.contains('\\'),
    ensures
        last_component(path, true) == last_component(path, false),
        without_trailing(path, true) == without_trailing(path, false),
        !without_trailing(path, true).contains('\\'),
    decreases path.len(),
{
    if path.len() > 0 {
        let shorter = path.drop_last();
        assert(!shorter.contains('\\')) by {
            if shorter.contains('\\') {
                let i = choose|i: int| 0 <= i < shorter.len() && shorter[i] == '\\';
                assert(path[i] == '\\');
            }
        }
        lemma_no_backslash(shorter);
        assert(path.last() != '\\') by {
            assert(path.contains(path[path.len() - 1]));
        }
        if path.len() > 1 {
            assert(path.contains(path[path.len() - 2]));
        }
    }
}

/// Every platform finds the same extension in a path that is read everywhere in the same way.
pub proof fn lemma_portable_path(path: Seq<char>, windows: bool, prefix: int)
    requires
        portable_path(path),
        may_read(path, windows, prefix),
    ensures
        prefix == 0,
        path.skip(prefix) == path,
        extension_of(path, windows) == extension_of(path, false),
        !special_prefix(path),
{
    assert(path.skip(0) =~= path);
    if path.len() >= 2 {
        assert(path.contains(path[0]));
        assert(path.contains(path[1]));
    }
    lemma_no_backslash(path);
    lemma_no_backslash(without_trailing(path, true));
}

/// Calls `std::path::Path::extension`: the part of the file name behind its last dot, if it has a
/// dot other than one at its start. The file name is the last component of the path; separators at
/// the end, and single dots behind separators, are no components, and two dots are no file name.
/// The platform decides whether a backslash is a separator and whether the path has a prefix, so
/// what is found is what is found in one of these ways. Where the path ends in a plain file name
/// and extension behind any prefix, all platforms agree. A path that begins with two separators and
/// a question mark or a dot may be taken literally or name a device: if it does not end plainly, it
/// is stated only that an extension stands behind a dot of the path and has no dot in it.
#[verifier::external_body]
fn path_extension(path: &str) -> (extension: Option<String>)
    ensures
        extension is Some ==> path_holds(path@, extension->0@) && !extension->0@.contains('.'),
        plain_ending(path@) ==> extension is Some && extension->0@ == after_last(path@, '.'),
        !special_prefix(path@) ==> may_find(path@, text_of(extension)),
{
    let extension = std::path::Path::new(path).extension()?;
    extension.to_str().map(|text| text.to_owned())
}

/// The format of the file at this path: DER if the extension of the file name is `der`, and else
/// PEM. The format is open only where platforms may differ in what the file name is, as they do for
/// `key.der\` and `C:.der`, and for paths that begin with two separators and in which a prefix may
/// take in the file name, or which need not be read by components at all.
pub fn path_credential_format(path: &str) -> (format: CredentialFormat)
    ensures
        format is Der ==> path_holds(path@, "der"@),
        portable_path(path@) ==> (format is Der <==> extension_of(path@, false) == Some("der"@)),
        plain_ending(path@) ==> (format is Der <==> after_last(path@, '.') == "der"@),
        !special_prefix(path@) ==> exists|windows: bool, prefix: int| #[trigger]
            may_read(path@, windows, prefix) && (format is Der <==> extension_of(
                path@.skip(prefix),
                windows,
            ) == Some("der"@)),
{
    let extension: Option<String> = path_extension(path);
    let format: CredentialFormat = match &extension {
        Some(text) => credential_format(Some(text.as_str())),
        None => credential_format(None),
    };
    proof {
        if portable_path(path@) {
            lemma_portable_path(path@, false, 0);
        }
        if !special_prefix(path@) {
            let (windows, prefix) = choose|windows: bool, prefix: int| #[trigger]
                may_read(path@, windows, prefix) && extension_of(path@.skip(prefix), windows)
                    == text_of(extension);
            assert(may_read(path@, windows, prefix));
            if portable_path(path@) {
                lemma_portable_path(path@, windows, prefix);
            }
        }
    }
    format
}

/// The address that the server listens at: the configured one, or else the IPv6 loopback address.
pub fn listen_address(configured: Option<SocketAddr>) -> (addr: SocketAddr)
    ensures
        addr == match configured {
            Some(given) => given,
            None => (SocketAddr::V6 {
                segments: 1,
                port: DEFAULT_LISTEN_PORT,
                flow_info: 0,
                scope_id: 0,
            }),
        },
{
    match configured {
        Some(given) => given,
        None => SocketAddr::V6 {
            segments: 1,
            port: DEFAULT_LISTEN_PORT,
            flow_info: 0,
            scope_id: 0,
        },
    }
}

/// The address that the client sends from: any address of its host, and a port that the host
/// picks.
pub fn client_address() -> (addr: SocketAddr)
    ensures
        addr == (SocketAddr::V4 { octets: 0, port: 0 }),
{
    SocketAddr::V4 { octets: 0, port: 0 }
}

/// Where the tasks of a server run.
#[derive(Clone, Copy, Debug, PartialEq, Eq, Structural)]
pub enum RuntimeType {
    Tokio,
    Thread,
}

/// Where the tasks run: in the configured place, or else in the Tokio runtime.
pub fn runtime_type(configured: Option<RuntimeType>) -> (runtime: RuntimeType)
    ensures
        runtime == match configured {
            Some(given) => given,
            None => RuntimeType::Tokio,
        },
{
    match configured {
        Some(given) => given,
        None => RuntimeType::Tokio,
    }
}

/// What a new connection is given.
#[derive(Clone, Copy, Debug, PartialEq, Eq, Structural)]
pub struct Admission {
    pub session_id: u64,
    pub cipher_key: u64,
}

/// What a connection is given where sessions are not told apart.
pub fn handle_connection() -> (admission: Admission)
    ensures
        admission == (Admission { session_id: 0, cipher_key: CIPHER_KEY }),
{
    Admission { session_id: 0, cipher_key: CIPHER_KEY }
}

/// Gives a new connection a player index and a session, if an index is left.
pub fn server_handle_connection<const MAX_PLAYERS: usize>(
    broker: &mut SessionBroker<MAX_PLAYERS>,
) -> (result: Result<Admission, BrokerError>)
    requires
        old(broker).wf(),
    ensures
        final(broker).wf(),
        final(broker).channel() == old(broker).channel(),
        final(broker).offered() == old(broker).offered(),
        final(broker).end() == old(broker).end(),
        result is Ok && old(broker).sessions().dom().len() <= u64::MAX ==> !old(
            broker,
        ).sessions().contains_key(result->Ok_0.session_id),
        ({
            let place = first_free(old(broker).free_list(), 0);
            let session_id = old(broker).next_id();
            if place < MAX_PLAYERS {
                &&& result == Ok::<Admission, BrokerError>(
                    (Admission { session_id, cipher_key: CIPHER_KEY }),
                )
                &&& final(broker).next_id() == following_id(session_id)
                &&& final(broker).sessions() == old(broker).sessions().insert(
                    session_id,
                    place as usize,
                )
                &&& final(broker).free_list() == old(broker).free_list().update(place, false)
            } else {
                &&& result == Err::<Admission, BrokerError>(BrokerError::MaximumPlayersReached)
                &&& final(broker).next_id() == old(broker).next_id()
                &&& final(broker).sessions() == old(broker).sessions()
                &&& final(broker).free_list() == old(broker).free_list()
            }
        }),
    opens_invariants none
{
    match broker.next_player_index() {
        Ok(player_index) => {
            let session_id: u64 = broker.allocate_session_id(player_index);
            Ok(Admission { session_id, cipher_key: CIPHER_KEY })
        },
        Err(error) => Err(error),
    }
}

/// What has happened while the server takes in connections.
#[derive(Clone, Copy, Debug, PartialEq, Eq, Structural)]
pub enum ConnectionEvent {
    /// The endpoint takes in no more connections.
    EndpointClosed,
    /// A client asks for a connection.
    Incoming,
    /// The request could not be accepted.
    AcceptFailed,
    /// The request was accepted, and the handshake is under way.
    Accepted,
    /// The handshake failed.
    HandshakeFailed,
    /// The connection stands.
    Established,
    /// The connection could not be given a session.
    SessionFailed,
    /// The connection has its session.
    SessionRegistered,
}

/// What the server does next.
#[derive(Clone, Copy, Debug, PartialEq, Eq, Structural)]
pub enum ConnectionAction {
    Stop,
    Accept,
    AwaitHandshake,
    OpenSession,
    AwaitIncoming,
}

/// What the server does after an event. A connection that fails, at whatever stage, makes it wait
/// for the next one: it stops only when the endpoint is closed.
pub fn connection_step(event: ConnectionEvent) -> (action: ConnectionAction)
    ensures
        action is Stop <==> event is EndpointClosed,
        action is Accept <==> event is Incoming,
        action is AwaitHandshake <==> event is Accepted,
        action is OpenSession <==> event is Established,
        action is AwaitIncoming <==> event is AcceptFailed || event is HandshakeFailed
            || event is SessionFailed || event is SessionRegistered,
{
    match event {
        ConnectionEvent::EndpointClosed => ConnectionAction::Stop,
        ConnectionEvent::Incoming => ConnectionAction::Accept,
        ConnectionEvent::Accepted => ConnectionAction::AwaitHandshake,
        ConnectionEvent::Established => ConnectionAction::OpenSession,
        ConnectionEvent::AcceptFailed => ConnectionAction::AwaitIncoming,
        ConnectionEvent::HandshakeFailed => ConnectionAction::AwaitIncoming,
        ConnectionEvent::SessionFailed => ConnectionAction::AwaitIncoming,
        ConnectionEvent::SessionRegistered => ConnectionAction::AwaitIncoming,
    }
}

/// What the server that does not tell sessions apart does next.
#[derive(Clone, Copy, Debug, PartialEq, Eq, Structural)]
pub enum PlainAction {
    Stop,
    /// Ends the server with the error that has come up.
    Fail,
    Accept,
    AwaitHandshake,
    OpenSession,
    AwaitIncoming,
}

/// What the server that does not tell sessions apart does after an event. A connection that fails,
/// at whatever stage, ends it, as does an endpoint that is closed.
pub fn plain_connection_step(event: ConnectionEvent) -> (action: PlainAction)
    ensures
        action is Stop <==> event is EndpointClosed,
        action is Fail <==> event is AcceptFailed || event is HandshakeFailed
            || event is SessionFailed,
        action is Accept <==> event is Incoming,
        action is AwaitHandshake <==> event is Accepted,
        action is OpenSession <==> event is Established,
        action is AwaitIncoming <==> event is SessionRegistered,
{
    match event {
        ConnectionEvent::EndpointClosed => PlainAction::Stop,
        ConnectionEvent::Incoming => PlainAction::Accept,
        ConnectionEvent::Accepted => PlainAction::AwaitHandshake,
        ConnectionEvent::Established => PlainAction::OpenSession,
        ConnectionEvent::AcceptFailed => PlainAction::Fail,
        ConnectionEvent::HandshakeFailed => PlainAction::Fail,
        ConnectionEvent::SessionFailed => PlainAction::Fail,
        ConnectionEvent::SessionRegistered => PlainAction::AwaitIncoming,
    }
}

} // verus!

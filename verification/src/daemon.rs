//! One server for each project: a daemon on a Unix socket and its clients.
//!
//! Here stands what the process decides: its mode from the arguments and the
//! environment, the address of the daemon, and the course of a client and of a
//! daemon, step by step, from what the operating system answers.

use vstd::prelude::*;
use vstd::utf8::{encode_utf8, encode_utf8_decode_utf8};

use crate::digest::{digest_of, hex, hex_is_injective, hex_of, sha256};
use crate::mcp::defaults::{BACKGROUND_SYNC_ENV, EMBEDDING_PROFILE_ENV, EP_CENSUS_ENV};
use crate::paths::{
    component_rank, component_spans, components, is_absolute, join, joined_path, span_values,
    spans, spans_are_ordered, the_last_name_is_the_last_component,
};
use crate::switches::{is_off, switched_off, text_at};
use crate::text::{
    a_number_is_read_between_white_space, chars_of, decimal, is_space, le_bytes,
    le_bytes_are_injective, parse_u64, parsed, power_of_256, push_bytes, push_le_bytes, same,
    text_of, texts, trim, trimmed, written_number_is_parsed, NumberError,
};

verus! {

/// The variable that turns the daemon off.
pub const DAEMON_ENV: &'static str = "RMC_DAEMON";

/// The variable that names the directory of the sockets.
pub const DAEMON_DIR_ENV: &'static str = "RMC_DAEMON_DIR";

/// The variable that says how many seconds the daemon lives without a connection.
pub const IDLE_ENV: &'static str = "RMC_DAEMON_IDLE_SECS";

/// How many seconds the daemon lives without a connection, where nothing says otherwise.
pub const DEFAULT_IDLE_SECS: u64 = 1800;

/// How many seconds pass between two looks at the idle time.
pub const IDLE_TICK_SECS: u64 = 15;

/// How many milliseconds a client waits for a daemon to come up.
pub const SPAWN_WAIT_MS: u64 = 90_000;

/// How many milliseconds pass between two looks at a daemon that comes up.
pub const SPAWN_POLL_MS: u64 = 50;

/// The help text.
pub const USAGE: &'static str = "\
rust-code-mcp — MCP-сервер по Rust-коду.

Без аргументов: клиент общего демона этого проекта (демон поднимается сам).

  --client            то же явно
  --daemon            стать демоном: слушать сокет, обслуживать много клиентов
  --in-process        сервер внутри этого процесса поверх stdio (как было раньше)
  --print-socket      напечатать путь сокета этого проекта и выйти
  --socket <PATH>     путь сокета вместо вычисленного по проекту
  --idle-secs <N>     демон выходит после N секунд без подключений (0 — никогда)

Env: RMC_DAEMON=0 — всегда in-process; RMC_DAEMON_DIR — каталог сокетов;
     RMC_DAEMON_IDLE_SECS — то же, что --idle-secs.
";

/// How the process runs.
#[derive(Debug, Clone, PartialEq, Eq)]
pub enum Mode {
    /// A server inside this process, over its standard streams.
    InProcess,
    /// A daemon that listens on a socket.
    Daemon { socket: String, idle_secs: u64 },
    /// A client of the daemon.
    Client { socket: String },
    /// Prints the path of the socket.
    PrintSocket { socket: String },
    /// Prints the help text.
    Help,
}

/// The content of a mode.
pub enum ModeView {
    /// A server inside this process.
    InProcess,
    /// A daemon.
    Daemon { socket: Seq<char>, idle_secs: u64 },
    /// A client.
    Client { socket: Seq<char> },
    /// Prints the path of the socket.
    PrintSocket { socket: Seq<char> },
    /// Prints the help text.
    Help,
}

impl View for Mode {
    type V = ModeView;

    open spec fn view(&self) -> ModeView {
        match *self {
            Mode::InProcess => ModeView::InProcess,
            Mode::Daemon { socket, idle_secs } => ModeView::Daemon { socket: socket@, idle_secs },
            Mode::Client { socket } => ModeView::Client { socket: socket@ },
            Mode::PrintSocket { socket } => ModeView::PrintSocket { socket: socket@ },
            Mode::Help => ModeView::Help,
        }
    }
}

/// Why no mode could be made out.
#[derive(Debug, Clone)]
pub enum ModeError {
    /// Two modes were asked for.
    Conflict { first: String, second: String },
    /// `--socket` stands last.
    SocketNeedsPath,
    /// `--idle-secs` stands last.
    IdleNeedsNumber,
    /// What follows `--idle-secs` is no number.
    IdleNotANumber(NumberError),
    /// An argument is not known.
    UnknownArgument(String),
    /// The socket was not given and could not be made out.
    NoSocket(String),
}

/// The content of a mode error.
pub enum ModeErrorView {
    /// Two modes were asked for.
    Conflict { first: Seq<char>, second: Seq<char> },
    /// `--socket` stands last.
    SocketNeedsPath,
    /// `--idle-secs` stands last.
    IdleNeedsNumber,
    /// What follows `--idle-secs` is no number.
    IdleNotANumber(NumberError),
    /// An argument is not known.
    UnknownArgument(Seq<char>),
    /// The socket was not given and could not be made out.
    NoSocket(Seq<char>),
}

impl View for ModeError {
    type V = ModeErrorView;

    open spec fn view(&self) -> ModeErrorView {
        match *self {
            ModeError::Conflict { first, second } => ModeErrorView::Conflict {
                first: first@,
                second: second@,
            },
            ModeError::SocketNeedsPath => ModeErrorView::SocketNeedsPath,
            ModeError::IdleNeedsNumber => ModeErrorView::IdleNeedsNumber,
            ModeError::IdleNotANumber(e) => ModeErrorView::IdleNotANumber(e),
            ModeError::UnknownArgument(a) => ModeErrorView::UnknownArgument(a@),
            ModeError::NoSocket(e) => ModeErrorView::NoSocket(e@),
        }
    }
}

impl ModeErrorView {
    /// The message of the error.
    pub open spec fn message(&self) -> Seq<char> {
        match *self {
            ModeErrorView::Conflict { first, second } => "режимы "@ + first + " и "@ + second
                + " несовместимы"@,
            ModeErrorView::SocketNeedsPath => "--socket требует путь"@,
            ModeErrorView::IdleNeedsNumber => "--idle-secs требует число"@,
            ModeErrorView::IdleNotANumber(e) => e.message(),
            ModeErrorView::UnknownArgument(a) => "неизвестный аргумент "@ + a,
            ModeErrorView::NoSocket(e) => e,
        }
    }
}

impl ModeError {
    /// The message of the error.
    pub fn to_text(&self) -> (text: String)
        ensures
            text@ == self@.message(),
    {
        match self {
            ModeError::Conflict { first, second } => {
                let mut text = "режимы ".to_owned();
                text.append(first.as_str());
                text.append(" и ");
                text.append(second.as_str());
                text.append(" несовместимы");
                text
            },
            ModeError::SocketNeedsPath => "--socket требует путь".to_owned(),
            ModeError::IdleNeedsNumber => "--idle-secs требует число".to_owned(),
            ModeError::IdleNotANumber(e) => e.to_text(),
            ModeError::UnknownArgument(a) => {
                let mut text = "неизвестный аргумент ".to_owned();
                text.append(a.as_str());
                text
            },
            ModeError::NoSocket(e) => e.clone(),
        }
    }
}

/// What the arguments have said so far.
pub struct Flags {
    /// The socket.
    pub socket: Option<Seq<char>>,
    /// The idle seconds.
    pub idle_secs: Option<u64>,
    /// The mode.
    pub explicit: Option<Seq<char>>,
}

/// What the arguments say.
pub enum Reading {
    /// Help is asked for.
    Help,
    /// They are in order.
    Flags(Flags),
    /// Something is wrong with them.
    Wrong(ModeErrorView),
}

/// An argument that asks for a mode.
pub open spec fn is_mode_flag(arg: Seq<char>) -> bool {
    arg == "--daemon"@ || arg == "--client"@ || arg == "--in-process"@ || arg == "--print-socket"@
}

/// What the arguments from `i` on say, after `flags` was said before them. They are
/// read from the left, and the first that asks for help or is wrong decides.
pub open spec fn reading(args: Seq<Seq<char>>, i: int, flags: Flags) -> Reading
    decreases args.len() - i,
{
    if i < 0 || i >= args.len() {
        Reading::Flags(flags)
    } else {
        let arg = args[i];
        if arg == "--help"@ || arg == "-h"@ {
            Reading::Help
        } else if is_mode_flag(arg) {
            match flags.explicit {
                Some(first) => Reading::Wrong(ModeErrorView::Conflict { first, second: arg }),
                None => reading(args, i + 1, Flags { explicit: Some(arg), ..flags }),
            }
        } else if arg == "--socket"@ {
            if i + 1 >= args.len() {
                Reading::Wrong(ModeErrorView::SocketNeedsPath)
            } else {
                reading(args, i + 2, Flags { socket: Some(args[i + 1]), ..flags })
            }
        } else if arg == "--idle-secs"@ {
            if i + 1 >= args.len() {
                Reading::Wrong(ModeErrorView::IdleNeedsNumber)
            } else {
                match parsed(args[i + 1]) {
                    Ok(secs) => reading(args, i + 2, Flags { idle_secs: Some(secs), ..flags }),
                    Err(e) => Reading::Wrong(ModeErrorView::IdleNotANumber(e)),
                }
            }
        } else {
            Reading::Wrong(ModeErrorView::UnknownArgument(arg))
        }
    }
}

/// Nothing has been said.
pub open spec fn no_flags() -> Flags {
    Flags { socket: None, idle_secs: None, explicit: None }
}

/// What the environment says of the mode.
pub struct ModeEnv {
    /// The socket of this project, or why it could not be made out.
    pub default_socket: Result<String, String>,
    /// The value that may turn the daemon off.
    pub daemon: Option<String>,
    /// The idle seconds.
    pub idle_secs: Option<String>,
}

/// The idle seconds that a value asks for.
pub open spec fn idle_of(value: Option<Seq<char>>) -> u64 {
    match value {
        None => DEFAULT_IDLE_SECS,
        Some(v) => match parsed(trimmed(v)) {
            Ok(secs) => secs,
            Err(_) => DEFAULT_IDLE_SECS,
        },
    }
}

/// The text of an optional string.
pub open spec fn text_in(s: Option<String>) -> Option<Seq<char>> {
    match s {
        Some(s) => Some(s@),
        None => None,
    }
}

fn str_of(text: &Option<String>) -> (s: Option<&str>)
    ensures
        text_at(s) == text_in(*text),
{
    match text {
        Some(text) => Some(text.as_str()),
        None => None,
    }
}

/// The mode of a session: a client, unless the daemon is turned off.
pub open spec fn client_mode(socket: Seq<char>, daemon: Option<Seq<char>>) -> ModeView {
    if is_off(daemon) {
        ModeView::InProcess
    } else {
        ModeView::Client { socket }
    }
}

/// The mode that the arguments and the environment ask for. `--client` says what is
/// meant where no mode is named.
pub open spec fn mode_of(args: Seq<Seq<char>>, env: ModeEnv) -> Result<ModeView, ModeErrorView> {
    match reading(args, 0, no_flags()) {
        Reading::Help => Ok(ModeView::Help),
        Reading::Wrong(e) => Err(e),
        Reading::Flags(flags) => {
            let given: Result<Seq<char>, Seq<char>> = match (flags.socket, env.default_socket) {
                (Some(path), _) => Ok(path),
                (None, Ok(path)) => Ok(path@),
                (None, Err(e)) => Err(e@),
            };
            let idle_secs = match flags.idle_secs {
                Some(secs) => secs,
                None => idle_of(text_in(env.idle_secs)),
            };
            match given {
                Err(e) => Err(ModeErrorView::NoSocket(e)),
                Ok(socket) => Ok(
                    match flags.explicit {
                        Some(mode) => if mode == "--daemon"@ {
                            ModeView::Daemon { socket, idle_secs }
                        } else if mode == "--client"@ {
                            client_mode(socket, text_in(env.daemon))
                        } else if mode == "--in-process"@ {
                            ModeView::InProcess
                        } else {
                            ModeView::PrintSocket { socket }
                        },
                        None => client_mode(socket, text_in(env.daemon)),
                    },
                ),
            }
        },
    }
}

/// Whether a value turns the daemon off.
pub fn daemon_disabled(value: Option<&str>) -> (r: bool)
    ensures
        r == is_off(text_at(value)),
{
    switched_off(value)
}

/// The idle seconds that a value asks for; without a value, or where it is no
/// number, the default.
pub fn idle_from_env(value: Option<&str>) -> (secs: u64)
    ensures
        secs == idle_of(text_at(value)),
{
    match value {
        None => DEFAULT_IDLE_SECS,
        Some(v) => match parse_u64(trim(v).as_str()) {
            Ok(secs) => secs,
            Err(_) => DEFAULT_IDLE_SECS,
        },
    }
}

/// The mode that the arguments, without the program's name, and the environment
/// ask for.
pub fn resolve_mode(args: &Vec<String>, env: &ModeEnv) -> (r: Result<Mode, ModeError>)
    ensures
        match r {
            Ok(mode) => mode_of(texts(args@), *env) == Ok::<ModeView, ModeErrorView>(mode@),
            Err(e) => mode_of(texts(args@), *env) == Err::<ModeView, ModeErrorView>(e@),
        },
{
    let mut socket: Option<String> = None;
    let mut idle: Option<u64> = None;
    let mut explicit: Option<String> = None;
    let ghost all = texts(args@);
    let ghost whole = reading(all, 0, no_flags());
    let mut i: usize = 0;
    let len: usize = args.len();
    while i < len
        invariant
            len == args@.len(),
            i <= len,
            all == texts(args@),
            whole == reading(all, 0, no_flags()),
            whole == reading(
                all,
                i as int,
                Flags {
                    socket: text_in(socket),
                    idle_secs: idle,
                    explicit: text_in(explicit),
                },
            ),
            explicit matches Some(e) ==> is_mode_flag(e@),
        decreases len - i,
    {
        let arg = args[i].as_str();
        assert(all[i as int] == arg@);
        if same(arg, "--help") || same(arg, "-h") {
            return Ok(Mode::Help);
        }
        if same(arg, "--daemon") || same(arg, "--client") || same(arg, "--in-process") || same(
            arg,
            "--print-socket",
        ) {
            match explicit {
                Some(first) => {
                    return Err(ModeError::Conflict { first, second: arg.to_owned() });
                },
                None => {
                    explicit = Some(arg.to_owned());
                    i += 1;
                },
            }
        } else if same(arg, "--socket") {
            if i + 1 >= len {
                return Err(ModeError::SocketNeedsPath);
            }
            assert(all[i + 1] == args@[i + 1]@);
            socket = Some(args[i + 1].clone());
            i += 2;
        } else if same(arg, "--idle-secs") {
            if i + 1 >= len {
                return Err(ModeError::IdleNeedsNumber);
            }
            assert(all[i + 1] == args@[i + 1]@);
            match parse_u64(args[i + 1].as_str()) {
                Ok(secs) => {
                    idle = Some(secs);
                },
                Err(e) => {
                    return Err(ModeError::IdleNotANumber(e));
                },
            }
            i += 2;
        } else {
            return Err(ModeError::UnknownArgument(arg.to_owned()));
        }
    }
    let socket: String = match socket {
        Some(path) => path,
        None => match &env.default_socket {
            Ok(path) => path.clone(),
            Err(e) => {
                return Err(ModeError::NoSocket(e.clone()));
            },
        },
    };
    let idle_secs: u64 = match idle {
        Some(secs) => secs,
        None => idle_from_env(str_of(&env.idle_secs)),
    };
    let off: bool = daemon_disabled(str_of(&env.daemon));
    let session: Mode = if off {
        Mode::InProcess
    } else {
        Mode::Client { socket: socket.clone() }
    };
    let mode = match explicit {
        Some(mode) => {
            if same(mode.as_str(), "--daemon") {
                Mode::Daemon { socket, idle_secs }
            } else if same(mode.as_str(), "--client") {
                session
            } else if same(mode.as_str(), "--in-process") {
                Mode::InProcess
            } else {
                Mode::PrintSocket { socket }
            }
        },
        None => session,
    };
    Ok(mode)
}

proof fn reading_passes(args: Seq<Seq<char>>, i: int, flags: Flags, more: Seq<Seq<char>>)
    requires
        0 <= i <= args.len(),
        reading(args, i, flags) is Flags,
    ensures
        reading(args + more, i, flags) == reading(
            args + more,
            args.len() as int,
            reading(args, i, flags)->Flags_0,
        ),
    decreases args.len() - i,
{
    let all = args + more;
    if i < args.len() {
        let arg = args[i];
        assert(all[i] == arg);
        if is_mode_flag(arg) {
            reading_passes(args, i + 1, Flags { explicit: Some(arg), ..flags }, more);
        } else if arg == "--socket"@ {
            assert(all[i + 1] == args[i + 1]);
            reading_passes(args, i + 2, Flags { socket: Some(args[i + 1]), ..flags }, more);
        } else if arg == "--idle-secs"@ {
            assert(all[i + 1] == args[i + 1]);
            let secs = parsed(args[i + 1])->Ok_0;
            reading_passes(args, i + 2, Flags { idle_secs: Some(secs), ..flags }, more);
        }
    }
}

/// Two modes are refused: after arguments that have named one, another one is an
/// error that names both, whatever follows.
pub proof fn two_modes_are_refused(
    head: Seq<Seq<char>>,
    second: Seq<char>,
    tail: Seq<Seq<char>>,
    env: ModeEnv,
)
    requires
        reading(head, 0, no_flags()) is Flags,
        reading(head, 0, no_flags())->Flags_0.explicit is Some,
        is_mode_flag(second),
    ensures
        mode_of(head + seq![second] + tail, env) == Err::<ModeView, ModeErrorView>(
            ModeErrorView::Conflict {
                first: reading(head, 0, no_flags())->Flags_0.explicit->Some_0,
                second,
            },
        ),
{
    let more = seq![second] + tail;
    assert(head + seq![second] + tail =~= head + more);
    reading_passes(head, 0, no_flags(), more);
    let all = head + more;
    assert(all[head.len() as int] == second);
    words_differ();
}

proof fn words_differ()
    ensures
        !is_mode_flag("--help"@),
        !is_mode_flag("-h"@),
{
    reveal_strlit("--help");
    reveal_strlit("-h");
    reveal_strlit("--daemon");
    reveal_strlit("--client");
    reveal_strlit("--in-process");
    reveal_strlit("--print-socket");
    assert("--help"@[2] == 'h' && "--daemon"@[2] == 'd' && "--client"@[2] == 'c');
    assert("--in-process"@[2] == 'i' && "--print-socket"@[2] == 'p');
    assert("-h"@.len() == 2);
}

/// A mode other than the client that the arguments name holds whatever the environment
/// says of the daemon.
pub proof fn explicit_mode_wins(args: Seq<Seq<char>>, env: ModeEnv, other: ModeEnv)
    requires
        reading(args, 0, no_flags()) matches Reading::Flags(flags) && flags.explicit is Some
            && flags.explicit != Some("--client"@),
        env.default_socket == other.default_socket,
        env.idle_secs == other.idle_secs,
    ensures
        mode_of(args, env) == mode_of(args, other),
{
}

/// Where the daemon is turned off, no session is a client, whether or not the arguments
/// say `--client`: it is served in its own process.
pub proof fn no_client_where_the_daemon_is_off(args: Seq<Seq<char>>, env: ModeEnv)
    requires
        is_off(text_in(env.daemon)),
    ensures
        !(mode_of(args, env) matches Ok(mode) && mode is Client),
        (reading(args, 0, no_flags()) matches Reading::Flags(flags) && (flags.explicit is None
            || flags.explicit == Some("--client"@))) && mode_of(args, env) is Ok ==> mode_of(
            args,
            env,
        ) == Ok::<ModeView, ModeErrorView>(ModeView::InProcess),
{
    mode_flags_differ();
}

/// To say `--client` is to say no mode.
pub proof fn client_is_the_mode_without_a_flag(
    args: Seq<Seq<char>>,
    other: Seq<Seq<char>>,
    env: ModeEnv,
)
    requires
        reading(args, 0, no_flags()) is Flags,
        reading(args, 0, no_flags())->Flags_0.explicit == Some("--client"@),
        reading(other, 0, no_flags()) == Reading::Flags(
            Flags { explicit: None, ..reading(args, 0, no_flags())->Flags_0 },
        ),
    ensures
        mode_of(args, env) == mode_of(other, env),
{
    mode_flags_differ();
}

proof fn mode_flags_differ()
    ensures
        "--client"@ != "--daemon"@,
{
    reveal_strlit("--client");
    reveal_strlit("--daemon");
    assert("--client"@[2] == 'c' && "--daemon"@[2] == 'd');
}

/// A socket that the arguments name is taken whatever this project's socket would
/// be, or that there is none.
pub proof fn explicit_socket_wins(args: Seq<Seq<char>>, env: ModeEnv, other: ModeEnv)
    requires
        reading(args, 0, no_flags()) matches Reading::Flags(flags) && flags.socket is Some,
        env.daemon == other.daemon,
        env.idle_secs == other.idle_secs,
    ensures
        mode_of(args, env) == mode_of(args, other),
        mode_of(args, env) is Ok,
{
}

/// The directory of the sockets.
pub open spec fn socket_dir_of(
    daemon_dir: Option<Seq<char>>,
    runtime_dir: Option<Seq<char>>,
    user: Option<Seq<char>>,
    temp_dir: Seq<char>,
) -> Seq<char> {
    match (daemon_dir, runtime_dir) {
        (Some(dir), _) => dir,
        (None, Some(dir)) if dir.len() > 0 => joined_path(dir, "rust-code-mcp"@),
        _ => joined_path(
            temp_dir,
            "rust-code-mcp-"@ + (match user {
                Some(user) => user,
                None => "shared"@,
            }),
        ),
    }
}

/// The directory of the sockets: the one that is named, else one in the private
/// runtime directory, else one for the user in the directory of temporary files.
pub fn socket_dir(
    daemon_dir: Option<&str>,
    runtime_dir: Option<&str>,
    user: Option<&str>,
    temp_dir: &str,
) -> (dir: String)
    ensures
        dir@ == socket_dir_of(
            text_at(daemon_dir),
            text_at(runtime_dir),
            text_at(user),
            temp_dir@,
        ),
{
    match daemon_dir {
        Some(dir) => {
            return dir.to_owned();
        },
        None => {},
    }
    match runtime_dir {
        Some(dir) => {
            if !dir.is_empty() {
                return join(dir, "rust-code-mcp");
            }
        },
        None => {},
    }
    let mut name = "rust-code-mcp-".to_owned();
    match user {
        Some(user) => {
            name.append(user);
        },
        None => {
            name.append("shared");
        },
    }
    join(temp_dir, name.as_str())
}

/// Names and values as texts.
pub open spec fn text_pairs(env: Seq<(String, String)>) -> Seq<(Seq<char>, Seq<char>)> {
    Seq::new(env.len(), |i: int| (env[i].0@, env[i].1@))
}

/// The bytes of the variables that are part of the key.
pub open spec fn env_bytes(env: Seq<(Seq<char>, Seq<char>)>) -> Seq<u8>
    decreases env.len(),
{
    if env.len() == 0 {
        Seq::empty()
    } else {
        env_bytes(env.drop_last()) + seq![0u8] + encode_utf8(env.last().0) + seq![61u8]
            + encode_utf8(env.last().1)
    }
}

/// The bytes whose digest the key is made of.
pub open spec fn key_message(
    cwd: Seq<u8>,
    exe: Seq<u8>,
    exe_len: u64,
    exe_mtime: u128,
    env: Seq<(Seq<char>, Seq<char>)>,
) -> Seq<u8> {
    cwd + seq![0u8] + exe + le_bytes(exe_len as nat, 8) + le_bytes(exe_mtime as nat, 16)
        + env_bytes(env)
}

/// The key that is made of a message: the first eight bytes of its digest.
pub open spec fn key_of(message: Seq<u8>) -> Seq<char> {
    hex_of(sha256(message).take(8))
}

/// The key of the daemon of a project: of the directory, of the program with its
/// size and its time of modification, and of the variables that change what the
/// server answers.
pub fn key_from_parts(
    cwd: &[u8],
    exe: &[u8],
    exe_len: u64,
    exe_mtime: u128,
    env: &Vec<(String, String)>,
) -> (key: String)
    ensures
        key@ == key_of(key_message(cwd@, exe@, exe_len, exe_mtime, text_pairs(env@))),
        key@.len() == 16,
{
    let mut message: Vec<u8> = Vec::new();
    push_bytes(&mut message, cwd);
    assert(message@ =~= cwd@);
    message.push(0);
    assert(message@ =~= cwd@ + seq![0u8]);
    push_bytes(&mut message, exe);
    push_le_bytes(&mut message, exe_len as u128, 8);
    push_le_bytes(&mut message, exe_mtime, 16);
    let ghost head = message@;
    let ghost pairs = text_pairs(env@);
    let mut i: usize = 0;
    assert(head + env_bytes(pairs.take(0)) =~= head);
    while i < env.len()
        invariant
            i <= env@.len(),
            pairs == text_pairs(env@),
            message@ == head + env_bytes(pairs.take(i as int)),
        decreases env@.len() - i,
    {
        let ghost before = env_bytes(pairs.take(i as int));
        message.push(0);
        push_bytes(&mut message, env[i].0.as_str().as_bytes());
        message.push(61);
        push_bytes(&mut message, env[i].1.as_str().as_bytes());
        proof {
            assert(pairs.take(i + 1).drop_last() =~= pairs.take(i as int));
            assert(message@ =~= head + (before + seq![0u8] + encode_utf8(env@[i as int].0@) + seq![
                61u8,
            ] + encode_utf8(env@[i as int].1@)));
        }
        i += 1;
    }
    assert(pairs.take(i as int) =~= pairs);
    let digest = digest_of(message.as_slice());
    hex(&digest, 8)
}

/// Variables with the same names in the same order, without a zero byte in a name
/// or a value.
pub open spec fn same_names(env: Seq<(Seq<char>, Seq<char>)>, other: Seq<(Seq<char>, Seq<char>)>) -> bool {
    &&& env.len() == other.len()
    &&& forall|i: int|
        0 <= i < env.len() ==> (#[trigger] env[i]).0 == other[i].0 && !encode_utf8(
            env[i].0,
        ).contains(0) && !encode_utf8(env[i].1).contains(0) && !encode_utf8(
            other[i].1,
        ).contains(0)
}

#[verifier::spinoff_prover]
#[verifier::rlimit(40)]
proof fn env_bytes_tell_values_apart(env: Seq<(Seq<char>, Seq<char>)>, other: Seq<(Seq<char>, Seq<char>)>)
    requires
        same_names(env, other),
        env_bytes(env) == env_bytes(other),
    ensures
        forall|i: int| 0 <= i < env.len() ==> (#[trigger] env[i]).1 == other[i].1,
    decreases env.len(),
{
    if env.len() > 0 {
        let a = env_bytes(env);
        let b = env_bytes(other);
        let i = env_bytes(env.drop_last());
        let j = env_bytes(other.drop_last());
        let n = env.len() - 1;
        assert(env[n].0 == other[n].0);
        let key = encode_utf8(env[n].0);
        let x = encode_utf8(env[n].1);
        let y = encode_utf8(other[n].1);
        let s = key + seq![61u8] + x;
        let t = key + seq![61u8] + y;
        assert(a =~= i + seq![0u8] + s);
        assert(b =~= j + seq![0u8] + t);
        assert(a[i.len() as int] == 0 && b[j.len() as int] == 0);
        if i.len() < j.len() {
            let k = j.len() - i.len() - 1;
            assert(a[j.len() as int] == s[k]);
            zero_is_in_no_part(key, x, k);
        }
        if j.len() < i.len() {
            let k = i.len() - j.len() - 1;
            assert(b[i.len() as int] == t[k]);
            zero_is_in_no_part(key, y, k);
        }
        assert(a.take(i.len() as int) =~= i);
        assert(b.take(j.len() as int) =~= j);
        assert forall|k: int| 0 <= k < env.drop_last().len() implies (
        #[trigger] env.drop_last()[k]).0 == other.drop_last()[k].0 && !encode_utf8(
            env.drop_last()[k].0,
        ).contains(0) && !encode_utf8(env.drop_last()[k].1).contains(0) && !encode_utf8(
            other.drop_last()[k].1,
        ).contains(0) by {
            assert(env[k].0 == other[k].0);
        }
        env_bytes_tell_values_apart(env.drop_last(), other.drop_last());
        assert(a.skip(i.len() as int + 2 + key.len()) =~= x);
        assert(b.skip(j.len() as int + 2 + key.len()) =~= y);
        encode_utf8_decode_utf8(env[n].1);
        encode_utf8_decode_utf8(other[n].1);
        assert forall|k: int| 0 <= k < env.len() implies (#[trigger] env[k]).1 == other[k].1 by {
            if k < n {
                assert(env.drop_last()[k].1 == other.drop_last()[k].1);
            }
        }
    }
}

proof fn zero_is_in_no_part(key: Seq<u8>, value: Seq<u8>, k: int)
    requires
        !key.contains(0),
        !value.contains(0),
        0 <= k < key.len() + 1 + value.len(),
    ensures
        (key + seq![61u8] + value)[k] != 0,
{
    let s = key + seq![61u8] + value;
    if k < key.len() {
        assert(s[k] == key[k]);
        assert(key.contains(key[k]));
    } else if k > key.len() {
        assert(s[k] == value[k - key.len() - 1]);
        assert(value.contains(value[k - key.len() - 1]));
    }
}

/// The message of the key tells projects, sizes, times and values apart: for one
/// program path, equal messages are made of equal parts. Paths and variables do
/// not hold a zero byte.
pub proof fn key_message_tells_parts_apart(
    cwd: Seq<u8>,
    exe: Seq<u8>,
    len: u64,
    mtime: u128,
    env: Seq<(Seq<char>, Seq<char>)>,
    cwd2: Seq<u8>,
    len2: u64,
    mtime2: u128,
    env2: Seq<(Seq<char>, Seq<char>)>,
)
    requires
        !cwd.contains(0),
        !cwd2.contains(0),
        same_names(env, env2),
        key_message(cwd, exe, len, mtime, env) == key_message(cwd2, exe, len2, mtime2, env2),
    ensures
        cwd == cwd2,
        len == len2,
        mtime == mtime2,
        forall|i: int| 0 <= i < env.len() ==> (#[trigger] env[i]).1 == env2[i].1,
{
    let a = key_message(cwd, exe, len, mtime, env);
    let b = key_message(cwd2, exe, len2, mtime2, env2);
    le_bytes_are_injective(len as nat, len2 as nat, 8);
    le_bytes_are_injective(mtime as nat, mtime2 as nat, 16);
    le_bytes_are_injective(len2 as nat, len as nat, 8);
    le_bytes_are_injective(mtime2 as nat, mtime as nat, 16);
    assert(a[cwd.len() as int] == 0);
    assert(b[cwd2.len() as int] == 0);
    if cwd.len() < cwd2.len() {
        assert(b[cwd.len() as int] == cwd2[cwd.len() as int]);
        assert(cwd2.contains(0));
    }
    if cwd2.len() < cwd.len() {
        assert(a[cwd2.len() as int] == cwd[cwd2.len() as int]);
        assert(cwd.contains(0));
    }
    let n = cwd.len() as int;
    assert(a.take(n) =~= cwd);
    assert(b.take(n) =~= cwd2);
    let from = n + 1 + exe.len();
    assert(a.subrange(from, from + 8) =~= le_bytes(len as nat, 8));
    assert(b.subrange(from, from + 8) =~= le_bytes(len2 as nat, 8));
    assert(a.subrange(from + 8, from + 24) =~= le_bytes(mtime as nat, 16));
    assert(b.subrange(from + 8, from + 24) =~= le_bytes(mtime2 as nat, 16));
    assert(power_of_256(8) == 0x1_0000_0000_0000_0000 && power_of_256(16)
        == 0x1_0000_0000_0000_0000_0000_0000_0000_0000) by {
        reveal_with_fuel(power_of_256, 17);
    }
    assert(a.skip(from + 24) =~= env_bytes(env));
    assert(b.skip(from + 24) =~= env_bytes(env2));
    env_bytes_tell_values_apart(env, env2);
}

/// The keys of two daemons are the same exactly where the first eight bytes of the
/// digests of their messages are.
pub proof fn keys_are_digests(m: Seq<u8>, n: Seq<u8>)
    ensures
        key_of(m) == key_of(n) <==> sha256(m).take(8) == sha256(n).take(8),
{
    if key_of(m) == key_of(n) {
        hex_is_injective(sha256(m).take(8), sha256(n).take(8));
    }
}

/// The socket of the daemon with this key.
pub open spec fn socket_of(dir: Seq<char>, key: Seq<char>) -> Seq<char> {
    joined_path(dir, key + ".sock"@)
}

/// Daemons with different keys listen at different sockets.
pub proof fn sockets_tell_keys_apart(dir: Seq<char>, m: Seq<u8>, n: Seq<u8>)
    ensures
        socket_of(dir, key_of(m)) == socket_of(dir, key_of(n)) <==> key_of(m) == key_of(n),
{
    reveal_strlit(".sock");
    let a = key_of(m) + ".sock"@;
    let b = key_of(n) + ".sock"@;
    assert(!is_absolute(a) && !is_absolute(b));
    let base = if dir.len() == 0 || dir.last() == '/' {
        dir
    } else {
        dir.push('/')
    };
    assert((base + a).skip(base.len() as int) =~= a);
    assert((base + b).skip(base.len() as int) =~= b);
    assert(a.take(a.len() - 5) =~= key_of(m));
    assert(b.take(b.len() - 5) =~= key_of(n));
}

/// The position of the last dot, or -1.
pub open spec fn last_dot(s: Seq<char>) -> int
    decreases s.len(),
{
    if s.len() == 0 {
        -1
    } else if s.last() == '.' {
        s.len() - 1
    } else {
        last_dot(s.drop_last())
    }
}

/// `path` with the extension of its last name replaced by `extension`, or with it
/// added. A dot at the start of a name starts no extension. A path that ends in no
/// name stays.
pub open spec fn with_extension_of(path: Seq<char>, extension: Seq<char>) -> Seq<char> {
    let cs = components(path);
    if cs.len() == 0 || component_rank(cs.last()) != 3 {
        path
    } else {
        let dot = last_dot(cs.last());
        let stem = if dot > 0 {
            dot
        } else {
            cs.last().len() as int
        };
        path.take(spans(path).last().0 + stem) + "."@ + extension
    }
}

proof fn last_dot_is(s: Seq<char>, k: int)
    requires
        -1 <= k < s.len(),
        forall|i: int| k < i < s.len() ==> s[i] != '.',
        k >= 0 ==> s[k] == '.',
    ensures
        last_dot(s) == k,
    decreases s.len(),
{
    if s.len() > 0 && k < s.len() - 1 {
        last_dot_is(s.drop_last(), k);
    }
}

fn with_extension(path: &str, extension: &str) -> (out: String)
    ensures
        out@ == with_extension_of(path@, extension@),
{
    let p = chars_of(path);
    let ps = component_spans(&p);
    proof {
        spans_are_ordered(path@);
        assert(span_values(ps@).len() == ps@.len());
    }
    if ps.len() == 0 {
        return path.to_owned();
    }
    let last: usize = ps.len() - 1;
    let from: usize = ps[last].0;
    let to: usize = ps[last].1;
    let ghost name = components(path@).last();
    proof {
        assert(spans(path@)[last as int] == (from as int, to as int));
        assert(name == path@.subrange(from as int, to as int));
        assert(seq!['/'][0] == '/' && seq!['.'][0] == '.');
        assert(seq!['.', '.'][0] == '.' && seq!['.', '.'][1] == '.');
        assert(name.len() == 1 ==> name =~= seq![name[0]]);
        assert(name.len() == 2 ==> name =~= seq![name[0], name[1]]);
    }
    let single: bool = to - from == 1 && (p[from] == '/' || p[from] == '.');
    let parent: bool = to - from == 2 && p[from] == '.' && p[from + 1] == '.';
    if single || parent {
        return path.to_owned();
    }
    let mut dot: usize = to;
    while dot > from && p[dot - 1] != '.'
        invariant
            p@ == path@,
            from <= dot <= to <= p@.len(),
            forall|i: int| dot <= i < to ==> path@[i] != '.',
        decreases dot,
    {
        dot -= 1;
    }
    let end: usize = if dot > from + 1 {
        dot - 1
    } else {
        to
    };
    proof {
        let k = dot - 1 - from;
        assert forall|i: int| k < i < name.len() implies name[i] != '.' by {
            assert(name[i] == path@[from + i]);
        }
        if k >= 0 {
            assert(name[k] == path@[from + k]);
        }
        last_dot_is(name, k);
        assert(p@.subrange(0, end as int) =~= path@.take(end as int));
    }
    let mut out = text_of(&p, 0, end);
    out.append(".");
    out.append(extension);
    out
}

/// Where the lock stands that guards the start of the daemon of a socket.
pub fn lock_path(socket: &str) -> (path: String)
    ensures
        path@ == with_extension_of(socket@, "lock"@),
{
    with_extension(socket, "lock")
}

/// Where the log of the daemon of a socket stands.
pub fn log_path(socket: &str) -> (path: String)
    ensures
        path@ == with_extension_of(socket@, "log"@),
{
    with_extension(socket, "log")
}

/// What a client does next.
#[derive(Debug, Clone, Copy, PartialEq, Eq, Structural)]
pub enum ClientStep {
    /// Connect to the daemon.
    Connect,
    /// Make the directory of the socket, for its owner alone.
    PrepareDir,
    /// Take the lock that guards the start of a daemon.
    TakeLock,
    /// Connect again, now under the lock.
    Reconnect,
    /// See whether a socket was left behind.
    LookForStale,
    /// Remove the socket that was left behind.
    RemoveStale,
    /// Start a daemon.
    Spawn,
    /// Wait for the daemon to accept a connection.
    Await,
    /// Give the lock back. It says whether there is a connection.
    ReleaseLock { connected: bool },
    /// Pass the session through the connection.
    Proxy,
    /// Nothing more. It says whether the daemon has served the session; where not,
    /// the session is served in this process.
    Finished { served: bool },
    /// Nothing more: the connection broke while it was in use.
    Broken,
}

/// What a client does after a step that has succeeded or failed. `has_parent` says
/// whether the socket stands in a directory.
pub open spec fn client_next(step: ClientStep, ok: bool, has_parent: bool) -> ClientStep {
    match step {
        ClientStep::Connect => if ok {
            ClientStep::Proxy
        } else if has_parent {
            ClientStep::PrepareDir
        } else {
            ClientStep::TakeLock
        },
        ClientStep::PrepareDir => if ok {
            ClientStep::TakeLock
        } else {
            ClientStep::Finished { served: false }
        },
        ClientStep::TakeLock => if ok {
            ClientStep::Reconnect
        } else {
            ClientStep::Finished { served: false }
        },
        ClientStep::Reconnect => if ok {
            ClientStep::ReleaseLock { connected: true }
        } else {
            ClientStep::LookForStale
        },
        ClientStep::LookForStale => if ok {
            ClientStep::RemoveStale
        } else {
            ClientStep::Spawn
        },
        ClientStep::RemoveStale => ClientStep::Spawn,
        ClientStep::Spawn => if ok {
            ClientStep::Await
        } else {
            ClientStep::ReleaseLock { connected: false }
        },
        ClientStep::Await => ClientStep::ReleaseLock { connected: ok },
        ClientStep::ReleaseLock { connected } => if connected {
            ClientStep::Proxy
        } else {
            ClientStep::Finished { served: false }
        },
        ClientStep::Proxy => if ok {
            ClientStep::Finished { served: true }
        } else {
            ClientStep::Broken
        },
        ClientStep::Finished { served } => step,
        ClientStep::Broken => step,
    }
}

/// What a client does after a step that has succeeded or failed.
pub fn run_client(step: ClientStep, ok: bool, has_parent: bool) -> (next: ClientStep)
    ensures
        next == client_next(step, ok, has_parent),
{
    match step {
        ClientStep::Connect => {
            if ok {
                ClientStep::Proxy
            } else if has_parent {
                ClientStep::PrepareDir
            } else {
                ClientStep::TakeLock
            }
        },
        ClientStep::PrepareDir => {
            if ok {
                ClientStep::TakeLock
            } else {
                ClientStep::Finished { served: false }
            }
        },
        ClientStep::TakeLock => {
            if ok {
                ClientStep::Reconnect
            } else {
                ClientStep::Finished { served: false }
            }
        },
        ClientStep::Reconnect => {
            if ok {
                ClientStep::ReleaseLock { connected: true }
            } else {
                ClientStep::LookForStale
            }
        },
        ClientStep::LookForStale => {
            if ok {
                ClientStep::RemoveStale
            } else {
                ClientStep::Spawn
            }
        },
        ClientStep::RemoveStale => ClientStep::Spawn,
        ClientStep::Spawn => {
            if ok {
                ClientStep::Await
            } else {
                ClientStep::ReleaseLock { connected: false }
            }
        },
        ClientStep::Await => ClientStep::ReleaseLock { connected: ok },
        ClientStep::ReleaseLock { connected } => {
            if connected {
                ClientStep::Proxy
            } else {
                ClientStep::Finished { served: false }
            }
        },
        ClientStep::Proxy => {
            if ok {
                ClientStep::Finished { served: true }
            } else {
                ClientStep::Broken
            }
        },
        ClientStep::Finished { served } => ClientStep::Finished { served },
        ClientStep::Broken => ClientStep::Broken,
    }
}

/// The step of a client after `n` steps whose outcomes are `outcomes`.
pub open spec fn client_after(outcomes: spec_fn(int) -> bool, has_parent: bool, n: nat) -> ClientStep
    decreases n,
{
    if n == 0 {
        ClientStep::Connect
    } else {
        client_next(
            client_after(outcomes, has_parent, (n - 1) as nat),
            outcomes(n - 1),
            has_parent,
        )
    }
}

/// The client holds the lock when it does this.
pub open spec fn is_locked(step: ClientStep) -> bool {
    match step {
        ClientStep::Reconnect
        | ClientStep::LookForStale
        | ClientStep::RemoveStale
        | ClientStep::Spawn
        | ClientStep::Await
        | ClientStep::ReleaseLock { .. } => true,
        _ => false,
    }
}

/// How many steps a client has before it at most.
pub open spec fn steps_left(step: ClientStep) -> nat {
    match step {
        ClientStep::Connect => 10,
        ClientStep::PrepareDir => 9,
        ClientStep::TakeLock => 8,
        ClientStep::Reconnect => 7,
        ClientStep::LookForStale => 6,
        ClientStep::RemoveStale => 5,
        ClientStep::Spawn => 4,
        ClientStep::Await => 3,
        ClientStep::ReleaseLock { .. } => 2,
        ClientStep::Proxy => 1,
        ClientStep::Finished { .. } => 0,
        ClientStep::Broken => 0,
    }
}

/// Whatever fails, a client comes to an end.
pub proof fn client_comes_to_an_end(outcomes: spec_fn(int) -> bool, has_parent: bool)
    ensures
        steps_left(client_after(outcomes, has_parent, 10)) == 0,
{
    reveal_with_fuel(client_after, 11);
}

/// A failure on the way to a daemon never leaves the session without a server: it
/// ends in a session that is served in this process, and only a connection that
/// was in use can break.
pub proof fn a_failing_daemon_leaves_the_session_served(step: ClientStep, has_parent: bool)
    ensures
        client_next(step, false, has_parent) == ClientStep::Broken ==> step == ClientStep::Proxy
            || step == ClientStep::Broken,
        client_next(step, true, has_parent) != ClientStep::Broken || step == ClientStep::Broken,
        client_next(step, true, has_parent) == (ClientStep::Finished { served: true }) ==> step
            == ClientStep::Proxy || step == (ClientStep::Finished { served: true }),
        client_next(step, false, has_parent) == (ClientStep::Finished { served: true }) ==> step == (
        ClientStep::Finished { served: true }),
{
}

/// A daemon is started, and a socket removed, only under the lock; the lock is
/// taken before and given back after, on every path.
pub proof fn a_daemon_is_started_under_the_lock(step: ClientStep, ok: bool, has_parent: bool)
    ensures
        is_locked(ClientStep::Spawn),
        is_locked(ClientStep::RemoveStale),
        !is_locked(step) && is_locked(client_next(step, ok, has_parent)) ==> step
            == ClientStep::TakeLock && ok,
        is_locked(step) && !is_locked(client_next(step, ok, has_parent)) ==> step is ReleaseLock,
        !is_locked(ClientStep::Connect),
{
}

/// A client tries to connect when it does this.
pub open spec fn is_attempt(step: ClientStep) -> bool {
    step == ClientStep::Connect || step == ClientStep::Reconnect || step == ClientStep::Await
}

/// A client makes way for a daemon, or starts one, when it does this.
pub open spec fn is_takeover(step: ClientStep) -> bool {
    step == ClientStep::LookForStale || step == ClientStep::RemoveStale || step == ClientStep::Spawn
        || step == ClientStep::Await
}

/// One project has one daemon: a socket is removed and a daemon is started only where
/// no connection could be made, neither at first nor under the lock, which is held
/// all the while. A socket is removed only where there is one.
pub proof fn a_daemon_is_started_only_where_none_answers(
    outcomes: spec_fn(int) -> bool,
    has_parent: bool,
    n: nat,
)
    requires
        is_takeover(client_after(outcomes, has_parent, n)),
    ensures
        n >= 3,
        exists|k: nat|
            k < n && #[trigger] client_after(outcomes, has_parent, k) == ClientStep::Reconnect
                && !outcomes(k as int),
        forall|k: nat|
            k < n && is_attempt(#[trigger] client_after(outcomes, has_parent, k)) ==> !outcomes(
                k as int,
            ),
        client_after(outcomes, has_parent, n) == ClientStep::RemoveStale ==> client_after(
            outcomes,
            has_parent,
            (n - 1) as nat,
        ) == ClientStep::LookForStale && outcomes(n - 1),
        client_after(outcomes, has_parent, n) == ClientStep::Await ==> client_after(
            outcomes,
            has_parent,
            (n - 1) as nat,
        ) == ClientStep::Spawn && outcomes(n - 1),
{
    attempts_have_failed(outcomes, has_parent, n);
}

proof fn attempts_have_failed(outcomes: spec_fn(int) -> bool, has_parent: bool, n: nat)
    ensures
        ({
            let step = client_after(outcomes, has_parent, n);
            let early = step == ClientStep::PrepareDir || step == ClientStep::TakeLock || step
                == ClientStep::Reconnect;
            &&& step == ClientStep::Connect ==> n == 0
            &&& step == ClientStep::PrepareDir ==> n >= 1
            &&& step == ClientStep::TakeLock ==> n >= 1
            &&& step == ClientStep::Reconnect ==> n >= 2
            &&& is_takeover(step) ==> n >= 3
            &&& early || is_takeover(step) ==> forall|k: nat|
                k < n && is_attempt(#[trigger] client_after(outcomes, has_parent, k)) ==> !outcomes(
                    k as int,
                )
            &&& is_takeover(step) ==> exists|k: nat|
                k < n && #[trigger] client_after(outcomes, has_parent, k) == ClientStep::Reconnect
                    && !outcomes(k as int)
        }),
    decreases n,
{
    if n > 0 {
        let m = (n - 1) as nat;
        attempts_have_failed(outcomes, has_parent, m);
        let before = client_after(outcomes, has_parent, m);
        let step = client_after(outcomes, has_parent, n);
        assert(step == client_next(before, outcomes(m as int), has_parent));
    }
}

/// A connection that was made is used: the session goes through it at once, or as soon
/// as the lock is given back, and no daemon is looked for, removed or started after it.
pub proof fn a_connection_is_used(
    outcomes: spec_fn(int) -> bool,
    has_parent: bool,
    n: nat,
    later: nat,
)
    requires
        is_attempt(client_after(outcomes, has_parent, n)),
        outcomes(n as int),
        n < later,
    ensures
        client_after(outcomes, has_parent, n + 1) == ClientStep::Proxy || (client_after(
            outcomes,
            has_parent,
            n + 1,
        ) == (ClientStep::ReleaseLock { connected: true }) && client_after(
            outcomes,
            has_parent,
            n + 2,
        ) == ClientStep::Proxy),
        client_after(outcomes, has_parent, n) == ClientStep::Connect ==> client_after(
            outcomes,
            has_parent,
            n + 1,
        ) == ClientStep::Proxy,
        !is_takeover(client_after(outcomes, has_parent, later)),
        !is_attempt(client_after(outcomes, has_parent, later)),
        client_after(outcomes, has_parent, later) != (ClientStep::Finished { served: false }),
    decreases later,
{
    let next = client_after(outcomes, has_parent, n + 1);
    assert(next == client_next(
        client_after(outcomes, has_parent, n),
        outcomes(n as int),
        has_parent,
    ));
    assert(client_after(outcomes, has_parent, n + 2) == client_next(
        next,
        outcomes((n + 1) as int),
        has_parent,
    ));
    stays_connected(outcomes, has_parent, n + 1, later);
}

spec fn is_connected(step: ClientStep) -> bool {
    step == (ClientStep::ReleaseLock { connected: true }) || step == ClientStep::Proxy || step
        == ClientStep::Broken || step == (ClientStep::Finished { served: true })
}

proof fn stays_connected(outcomes: spec_fn(int) -> bool, has_parent: bool, n: nat, later: nat)
    requires
        is_connected(client_after(outcomes, has_parent, n)),
        n <= later,
    ensures
        is_connected(client_after(outcomes, has_parent, later)),
    decreases later - n,
{
    if n < later {
        stays_connected(outcomes, has_parent, n, (later - 1) as nat);
    }
}

/// Where nothing but connections fails, a daemon is started, and the session is served
/// through it.
pub proof fn a_session_is_served_by_a_daemon(outcomes: spec_fn(int) -> bool, has_parent: bool)
    requires
        forall|n: nat|
            #![trigger client_after(outcomes, has_parent, n)]
            !outcomes(n as int) ==> client_after(outcomes, has_parent, n) == ClientStep::Connect
                || client_after(outcomes, has_parent, n) == ClientStep::Reconnect || client_after(
                outcomes,
                has_parent,
                n,
            ) == ClientStep::LookForStale,
    ensures
        client_after(outcomes, has_parent, 10) == (ClientStep::Finished { served: true }),
{
    reveal_with_fuel(client_after, 11);
    assert(client_after(outcomes, has_parent, 0) == ClientStep::Connect);
    let s1 = client_after(outcomes, has_parent, 1);
    let s2 = client_after(outcomes, has_parent, 2);
    let s3 = client_after(outcomes, has_parent, 3);
    let s4 = client_after(outcomes, has_parent, 4);
    let s5 = client_after(outcomes, has_parent, 5);
    let s6 = client_after(outcomes, has_parent, 6);
    let s7 = client_after(outcomes, has_parent, 7);
    let s8 = client_after(outcomes, has_parent, 8);
    let s9 = client_after(outcomes, has_parent, 9);
}

/// A session that no daemon has served never had a connection: each attempt failed.
pub proof fn an_unserved_session_had_no_connection(
    outcomes: spec_fn(int) -> bool,
    has_parent: bool,
    n: nat,
    k: nat,
)
    requires
        client_after(outcomes, has_parent, n) == (ClientStep::Finished { served: false }),
        k < n,
        is_attempt(client_after(outcomes, has_parent, k)),
    ensures
        !outcomes(k as int),
{
    if outcomes(k as int) {
        a_connection_is_used(outcomes, has_parent, k, n);
    }
}

/// How the process of a daemon that comes up is.
#[derive(Debug, Clone, Copy, PartialEq, Eq, Structural)]
pub enum ChildStatus {
    /// It runs.
    Running,
    /// It has ended.
    Exited,
    /// It could not be asked.
    Unknown,
}

/// What a client that waits for a daemon does next.
#[derive(Debug, Clone, Copy, PartialEq, Eq, Structural)]
pub enum WaitStep {
    /// It has a connection.
    Connected,
    /// It gives up.
    GiveUp,
    /// It ends the daemon's process and gives up.
    KillAndGiveUp,
    /// It waits so many milliseconds and looks again.
    Sleep(u64),
}

/// What a client that waits for a daemon does next, `elapsed_ms` after it started it.
pub open spec fn wait_step(connected: bool, child: ChildStatus, elapsed_ms: u64) -> WaitStep {
    if connected {
        WaitStep::Connected
    } else if child != ChildStatus::Running {
        WaitStep::GiveUp
    } else if elapsed_ms >= SPAWN_WAIT_MS {
        WaitStep::KillAndGiveUp
    } else {
        WaitStep::Sleep(SPAWN_POLL_MS)
    }
}

/// A daemon that accepts a connection is taken, however late; one that is gone is not
/// waited for; one that runs is waited for, and ended only after a minute and a half.
pub proof fn a_daemon_has_ninety_seconds(connected: bool, child: ChildStatus, elapsed_ms: u64)
    ensures
        wait_step(connected, child, elapsed_ms) == WaitStep::Connected <==> connected,
        wait_step(connected, child, elapsed_ms) == WaitStep::GiveUp <==> !connected && (child
            is Exited || child is Unknown),
        wait_step(connected, child, elapsed_ms) == WaitStep::KillAndGiveUp <==> !connected
            && child is Running && elapsed_ms >= 90_000,
        wait_step(connected, child, elapsed_ms) == WaitStep::Sleep(50) <==> !connected
            && child is Running && elapsed_ms < 90_000,
{
}

/// What a client that waits for a daemon does next, `elapsed_ms` after it started it.
pub fn wait_for_daemon(connected: bool, child: ChildStatus, elapsed_ms: u64) -> (step: WaitStep)
    ensures
        step == wait_step(connected, child, elapsed_ms),
{
    if connected {
        return WaitStep::Connected;
    }
    match child {
        ChildStatus::Exited => WaitStep::GiveUp,
        ChildStatus::Unknown => WaitStep::GiveUp,
        ChildStatus::Running => {
            if elapsed_ms >= SPAWN_WAIT_MS {
                WaitStep::KillAndGiveUp
            } else {
                WaitStep::Sleep(SPAWN_POLL_MS)
            }
        },
    }
}

/// The connections of a daemon.
#[derive(Debug, Clone, Copy)]
pub struct Connections {
    /// How many there are.
    pub live: usize,
    /// Since when there are none, in Unix seconds.
    pub idle_since: i64,
}

/// What the daemon has heard.
#[derive(Debug, Clone, Copy, PartialEq, Eq, Structural)]
pub enum DaemonEvent {
    /// A client has connected.
    Accepted,
    /// No client can connect any more.
    AcceptFailed,
    /// No client has connected for a while.
    Tick,
    /// It was told to end.
    Terminated,
}

/// What the daemon does.
#[derive(Debug, Clone, Copy, PartialEq, Eq, Structural)]
pub struct DaemonAction {
    /// It serves the client that has connected.
    pub serve: bool,
    /// It removes its socket and ends.
    pub stop: bool,
}

/// The daemon has been without a connection for as long as it may be; zero seconds
/// stand for ever.
pub open spec fn is_idle_too_long(c: Connections, idle_secs: u64, now: i64) -> bool {
    idle_secs != 0 && c.live == 0 && now - c.idle_since >= idle_secs
}

impl Connections {
    /// No connections since `now`.
    pub fn new(now: i64) -> (c: Self)
        ensures
            c == (Connections { live: 0, idle_since: now }),
    {
        Connections { live: 0, idle_since: now }
    }

    /// Notes that a client has left at `now`. The idle time counts from the leave of
    /// the last one.
    pub fn left(&mut self, now: i64)
        requires
            old(self).live > 0,
        ensures
            final(self).live == old(self).live - 1,
            final(self).idle_since == (if old(self).live == 1 {
                now
            } else {
                old(self).idle_since
            }),
            *final(self) == client_left(*old(self), now),
    {
        if self.live == 1 {
            self.idle_since = now;
        }
        self.live = self.live - 1;
    }
}

/// What the daemon does when it hears `event` at `now`, and what connections it then has.
pub open spec fn daemon_heard(c: Connections, event: DaemonEvent, idle_secs: u64, now: i64) -> (
    Connections,
    DaemonAction,
) {
    let after = if event == DaemonEvent::Accepted {
        Connections { live: (c.live + 1) as usize, ..c }
    } else {
        c
    };
    (
        after,
        DaemonAction {
            serve: event == DaemonEvent::Accepted,
            stop: event == DaemonEvent::AcceptFailed || event == DaemonEvent::Terminated
                || is_idle_too_long(after, idle_secs, now),
        },
    )
}

/// The connections after a client has left at `now`.
pub open spec fn client_left(c: Connections, now: i64) -> Connections {
    Connections {
        live: (c.live - 1) as usize,
        idle_since: if c.live == 1 {
            now
        } else {
            c.idle_since
        },
    }
}

/// Every client that connects is served and counted, and no other event counts one. The
/// daemon never ends on a client that connects. It ends when it is told to and when no
/// client can connect any more, whoever is served; else only at a tick on which nobody
/// is connected, and only where its idle time is bounded and over.
pub proof fn a_daemon_serves_whoever_connects(
    c: Connections,
    event: DaemonEvent,
    idle_secs: u64,
    now: i64,
)
    requires
        c.live < usize::MAX,
    ensures
        ({
            let (after, action) = daemon_heard(c, event, idle_secs, now);
            &&& after.idle_since == c.idle_since
            &&& event is Accepted ==> action == (DaemonAction { serve: true, stop: false })
                && after.live == c.live + 1
            &&& event is Terminated || event is AcceptFailed ==> action == (DaemonAction {
                serve: false,
                stop: true,
            }) && after.live == c.live
            &&& event is Tick ==> after.live == c.live && !action.serve && (action.stop <==> (
            c.live == 0 && idle_secs > 0 && now - c.idle_since >= idle_secs))
        }),
{
}

/// The idle time begins anew with each time that the last client leaves: a daemon whose
/// clients come and go is idle only since the last of them left, and a client that
/// leaves while another stays changes nothing but the count.
pub proof fn idle_time_begins_with_the_last_leave(
    c: Connections,
    accepted: i64,
    left: i64,
    later: i64,
    idle_secs: u64,
)
    requires
        c.live < usize::MAX,
        idle_secs > 0,
    ensures
        ({
            let served = daemon_heard(c, DaemonEvent::Accepted, idle_secs, accepted).0;
            let after = client_left(served, left);
            let action = daemon_heard(after, DaemonEvent::Tick, idle_secs, later).1;
            &&& after.live == c.live
            &&& c.live == 0 ==> (action.stop <==> later >= left + idle_secs)
            &&& c.live > 0 ==> after.idle_since == c.idle_since && !action.stop
        }),
{
}

/// What the daemon does when it hears `event` at `now`.
pub fn run_daemon(c: &mut Connections, event: DaemonEvent, idle_secs: u64, now: i64) -> (action:
    DaemonAction)
    requires
        event == DaemonEvent::Accepted ==> old(c).live < usize::MAX,
    ensures
        final(c).idle_since == old(c).idle_since,
        final(c).live == old(c).live + (if event == DaemonEvent::Accepted {
            1int
        } else {
            0int
        }),
        action.serve == (event == DaemonEvent::Accepted),
        action.stop == (event == DaemonEvent::AcceptFailed || event == DaemonEvent::Terminated
            || is_idle_too_long(*final(c), idle_secs, now)),
        (*final(c), action) == daemon_heard(*old(c), event, idle_secs, now),
{
    if event == DaemonEvent::AcceptFailed || event == DaemonEvent::Terminated {
        return DaemonAction { serve: false, stop: true };
    }
    if event == DaemonEvent::Accepted {
        c.live = c.live + 1;
    }
    let waited: i128 = now as i128 - c.idle_since as i128;
    let stop: bool = idle_secs != 0 && c.live == 0 && waited >= idle_secs as i128;
    DaemonAction { serve: event == DaemonEvent::Accepted, stop }
}

/// A daemon with a connection does not end for being idle, and neither does one
/// whose idle time is zero; otherwise it ends as soon as the idle time has passed.
pub proof fn a_daemon_outlives_its_clients(c: Connections, idle_secs: u64, now: i64)
    ensures
        c.live > 0 || idle_secs == 0 ==> !is_idle_too_long(c, idle_secs, now),
        c.live == 0 && idle_secs > 0 ==> (is_idle_too_long(c, idle_secs, now) <==> now
            >= c.idle_since + idle_secs),
{
}

/// What the file system says of the binary: its length, and when it was modified, in
/// nanoseconds since 1970, where that can be told.
#[derive(Debug, Clone, Copy, PartialEq, Eq, Structural)]
pub struct ExeFacts {
    /// Its length.
    pub len: u64,
    /// When it was modified.
    pub modified: Option<u128>,
}

/// The values of the variables that belong to the key: they change what the server
/// answers, and so whom it serves.
pub struct KeyedEnv {
    /// The profile.
    pub embedding_profile: Option<String>,
    /// The background index.
    pub background_sync: Option<String>,
    /// The census of providers.
    pub ep_census: Option<String>,
}

/// A value, with a word for one that is not set.
pub open spec fn or_unset(value: Option<String>) -> Seq<char> {
    match value {
        Some(v) => v@,
        None => "<unset>"@,
    }
}

/// The variables of the key with their values.
pub open spec fn keyed_env(values: KeyedEnv) -> Seq<(Seq<char>, Seq<char>)> {
    seq![
        (EMBEDDING_PROFILE_ENV@, or_unset(values.embedding_profile)),
        (BACKGROUND_SYNC_ENV@, or_unset(values.background_sync)),
        (EP_CENSUS_ENV@, or_unset(values.ep_census)),
    ]
}

/// The bytes that the key of a workspace is made of. What is not known of the binary
/// counts as zero.
pub open spec fn workspace_message(
    cwd: Seq<u8>,
    exe: Seq<u8>,
    facts: Option<ExeFacts>,
    values: KeyedEnv,
) -> Seq<u8> {
    let len: u64 = match facts {
        Some(f) => f.len,
        None => 0,
    };
    let modified: u128 = match facts {
        Some(ExeFacts { modified: Some(at), .. }) => at,
        _ => 0,
    };
    key_message(cwd, exe, len, modified, keyed_env(values))
}

fn value_or_unset(value: &Option<String>) -> (v: String)
    ensures
        v@ == or_unset(*value),
{
    match value {
        Some(v) => v.clone(),
        None => "<unset>".to_owned(),
    }
}

/// The key of a workspace: who works in the same directory with the same binary and
/// the same settings is served by the same daemon.
pub fn workspace_key(cwd: &[u8], exe: &[u8], facts: Option<ExeFacts>, values: &KeyedEnv) -> (key:
    String)
    ensures
        key@ == key_of(workspace_message(cwd@, exe@, facts, *values)),
        key@.len() == 16,
{
    let (exe_len, exe_mtime): (u64, u128) = match facts {
        Some(f) => match f.modified {
            Some(at) => (f.len, at),
            None => (f.len, 0),
        },
        None => (0, 0),
    };
    let mut env: Vec<(String, String)> = Vec::new();
    env.push((EMBEDDING_PROFILE_ENV.to_owned(), value_or_unset(&values.embedding_profile)));
    env.push((BACKGROUND_SYNC_ENV.to_owned(), value_or_unset(&values.background_sync)));
    env.push((EP_CENSUS_ENV.to_owned(), value_or_unset(&values.ep_census)));
    assert(text_pairs(env@) =~= keyed_env(*values));
    key_from_parts(cwd, exe, exe_len, exe_mtime, &env)
}

/// What says where sockets lie: the variables, and the directory of temporary files.
pub struct SocketEnv {
    /// The directory of the sockets.
    pub daemon_dir: Option<String>,
    /// The private runtime directory.
    pub runtime_dir: Option<String>,
    /// The user.
    pub user: Option<String>,
    /// The directory of temporary files.
    pub temp_dir: String,
}

/// The socket of this project's daemon, where the arguments name none: in the directory
/// of the sockets, under the key of the workspace.
pub fn default_socket_path(
    env: &SocketEnv,
    cwd: &[u8],
    exe: &[u8],
    facts: Option<ExeFacts>,
    values: &KeyedEnv,
) -> (path: String)
    ensures
        path@ == socket_of(
            socket_dir_of(
                text_in(env.daemon_dir),
                text_in(env.runtime_dir),
                text_in(env.user),
                env.temp_dir@,
            ),
            key_of(workspace_message(cwd@, exe@, facts, *values)),
        ),
{
    let dir = socket_dir(
        str_of(&env.daemon_dir),
        str_of(&env.runtime_dir),
        str_of(&env.user),
        env.temp_dir.as_str(),
    );
    let mut name = workspace_key(cwd, exe, facts, values);
    name.append(".sock");
    join(dir.as_str(), name.as_str())
}

/// Two sessions come to one socket only where the digests of their workspaces begin
/// alike: in the same directory of sockets, equal paths are made of equal keys.
pub proof fn sessions_meet_where_their_workspaces_do(
    dir: Seq<char>,
    cwd: Seq<u8>,
    exe: Seq<u8>,
    facts: Option<ExeFacts>,
    values: KeyedEnv,
    cwd2: Seq<u8>,
    exe2: Seq<u8>,
    facts2: Option<ExeFacts>,
    values2: KeyedEnv,
)
    ensures
        socket_of(dir, key_of(workspace_message(cwd, exe, facts, values))) == socket_of(
            dir,
            key_of(workspace_message(cwd2, exe2, facts2, values2)),
        ) <==> sha256(workspace_message(cwd, exe, facts, values)).take(8) == sha256(
            workspace_message(cwd2, exe2, facts2, values2),
        ).take(8),
{
    let m = workspace_message(cwd, exe, facts, values);
    let n = workspace_message(cwd2, exe2, facts2, values2);
    sockets_tell_keys_apart(dir, m, n);
    keys_are_digests(m, n);
}

/// The arguments that a daemon is started with.
pub open spec fn daemon_words(socket: Seq<char>) -> Seq<Seq<char>> {
    seq!["--daemon"@, "--socket"@, socket]
}

/// The arguments that a daemon is started with.
pub fn daemon_args(socket: &str) -> (args: Vec<String>)
    ensures
        texts(args@) == daemon_words(socket@),
{
    let mut args: Vec<String> = Vec::new();
    args.push("--daemon".to_owned());
    args.push("--socket".to_owned());
    args.push(socket.to_owned());
    assert(texts(args@) =~= daemon_words(socket@));
    args
}

/// A daemon that is started this way is a daemon, and at the socket it was started
/// for.
pub proof fn a_started_daemon_listens_where_it_is_awaited(socket: Seq<char>, env: ModeEnv)
    ensures
        mode_of(daemon_words(socket), env) == Ok::<ModeView, ModeErrorView>(
            ModeView::Daemon { socket, idle_secs: idle_of(text_in(env.idle_secs)) },
        ),
{
    reveal_with_fuel(reading, 3);
    reveal_strlit("--daemon");
    reveal_strlit("--socket");
    reveal_strlit("--help");
    reveal_strlit("-h");
    reveal_strlit("--client");
    reveal_strlit("--in-process");
    reveal_strlit("--print-socket");
    let args = daemon_words(socket);
    assert(args.len() == 3);
    assert("--daemon"@[2] == 'd' && "--socket"@[2] == 's' && "--help"@[2] == 'h');
    assert("--client"@[2] == 'c' && "--in-process"@[2] == 'i' && "--print-socket"@[2] == 'p');
    assert("-h"@.len() == 2);
}

/// A daemon stays as long without a connection as the variable says, zero for ever, with
/// white space around the number as without; where it is not set, half an hour.
pub proof fn a_daemon_stays_as_long_as_said(left: Seq<char>, secs: u64, right: Seq<char>)
    requires
        forall|i: int| 0 <= i < left.len() ==> is_space(#[trigger] left[i]),
        forall|i: int| 0 <= i < right.len() ==> is_space(#[trigger] right[i]),
    ensures
        idle_of(Some(left + decimal(secs as nat) + right)) == secs,
        idle_of(None) == 1800,
{
    a_number_is_read_between_white_space(left, secs, right);
}

proof fn option_words_differ()
    ensures
        !is_mode_flag("--socket"@),
        !is_mode_flag("--idle-secs"@),
        "--socket"@ != "--help"@,
        "--socket"@ != "-h"@,
        "--idle-secs"@ != "--help"@,
        "--idle-secs"@ != "-h"@,
        "--idle-secs"@ != "--socket"@,
        "--in-process"@ != "--daemon"@,
        "--in-process"@ != "--client"@,
        "--print-socket"@ != "--daemon"@,
        "--print-socket"@ != "--client"@,
        "--print-socket"@ != "--in-process"@,
        "--client"@ != "--daemon"@,
{
    reveal_strlit("--socket");
    reveal_strlit("--idle-secs");
    reveal_strlit("--help");
    reveal_strlit("-h");
    reveal_strlit("--daemon");
    reveal_strlit("--client");
    reveal_strlit("--in-process");
    reveal_strlit("--print-socket");
    assert("--socket"@[2] == 's' && "--idle-secs"@[2] == 'i' && "--help"@[2] == 'h');
    assert("--daemon"@[2] == 'd' && "--client"@[2] == 'c' && "--print-socket"@[2] == 'p');
    assert("--in-process"@[2] == 'i' && "--in-process"@[3] == 'n' && "--idle-secs"@[3] == 'd');
    assert("-h"@.len() == 2 && "--socket"@.len() == 8 && "--idle-secs"@.len() == 11);
}

/// What each mode means. With the socket and the idle time that follow from the rest of
/// the arguments and the environment, the arguments `args` and then the mode give that
/// mode: `--daemon` listens at the socket for the idle time, `--client` uses it unless the
/// daemon is turned off, `--in-process` does neither, and `--print-socket` names it. No
/// mode is as `--client`.
pub proof fn a_mode_is_what_it_says(args: Seq<Seq<char>>, env: ModeEnv)
    requires
        reading(args, 0, no_flags()) is Flags,
        reading(args, 0, no_flags())->Flags_0.explicit is None,
        reading(args, 0, no_flags())->Flags_0.socket is Some || env.default_socket is Ok,
    ensures
        ({
            let flags = reading(args, 0, no_flags())->Flags_0;
            let socket = match flags.socket {
                Some(path) => path,
                None => env.default_socket->Ok_0@,
            };
            let idle_secs = match flags.idle_secs {
                Some(secs) => secs,
                None => idle_of(text_in(env.idle_secs)),
            };
            let session = if is_off(text_in(env.daemon)) {
                ModeView::InProcess
            } else {
                ModeView::Client { socket }
            };
            &&& mode_of(args.push("--daemon"@), env) == Ok::<ModeView, ModeErrorView>(
                ModeView::Daemon { socket, idle_secs },
            )
            &&& mode_of(args.push("--client"@), env) == Ok::<ModeView, ModeErrorView>(session)
            &&& mode_of(args.push("--in-process"@), env) == Ok::<ModeView, ModeErrorView>(
                ModeView::InProcess,
            )
            &&& mode_of(args.push("--print-socket"@), env) == Ok::<ModeView, ModeErrorView>(
                ModeView::PrintSocket { socket },
            )
            &&& mode_of(args, env) == Ok::<ModeView, ModeErrorView>(session)
            &&& mode_of(args.push("--help"@), env) == Ok::<ModeView, ModeErrorView>(ModeView::Help)
            &&& mode_of(args.push("-h"@), env) == Ok::<ModeView, ModeErrorView>(ModeView::Help)
        }),
{
    words_differ();
    option_words_differ();
    mode_is_read(args, "--daemon"@);
    mode_is_read(args, "--client"@);
    mode_is_read(args, "--in-process"@);
    mode_is_read(args, "--print-socket"@);
    reading_goes_on(args, "--help"@);
    reading_goes_on(args, "-h"@);
}

proof fn mode_is_read(args: Seq<Seq<char>>, word: Seq<char>)
    requires
        reading(args, 0, no_flags()) is Flags,
        reading(args, 0, no_flags())->Flags_0.explicit is None,
        is_mode_flag(word),
    ensures
        reading(args.push(word), 0, no_flags()) == Reading::Flags(
            Flags { explicit: Some(word), ..reading(args, 0, no_flags())->Flags_0 },
        ),
{
    words_differ();
    reading_goes_on(args, word);
    let flags = Flags { explicit: Some(word), ..reading(args, 0, no_flags())->Flags_0 };
    assert(reading(args.push(word), args.len() as int + 1, flags) == Reading::Flags(flags));
}

proof fn reading_goes_on(args: Seq<Seq<char>>, word: Seq<char>)
    requires
        reading(args, 0, no_flags()) is Flags,
    ensures
        reading(args.push(word), 0, no_flags()) == reading(
            args.push(word),
            args.len() as int,
            reading(args, 0, no_flags())->Flags_0,
        ),
        args.push(word)[args.len() as int] == word,
        forall|flags: Flags| #[trigger]
            reading(args.push(word), args.len() as int + 1, flags) == Reading::Flags(flags),
{
    reading_passes(args, 0, no_flags(), seq![word]);
    assert(args + seq![word] =~= args.push(word));
}

/// What follows `--socket` is the socket, and what follows `--idle-secs` the idle time,
/// whatever was said of them before; each has to be followed by something, and the idle
/// time by a number. Anything that is no option is refused by its name.
pub proof fn an_option_takes_the_word_behind_it(
    args: Seq<Seq<char>>,
    path: Seq<char>,
    secs: u64,
    other: Seq<char>,
    env: ModeEnv,
)
    requires
        reading(args, 0, no_flags()) is Flags,
        other != "--help"@,
        other != "-h"@,
        other != "--daemon"@,
        other != "--client"@,
        other != "--in-process"@,
        other != "--print-socket"@,
        other != "--socket"@,
        other != "--idle-secs"@,
    ensures
        reading(args.push("--socket"@).push(path), 0, no_flags()) == Reading::Flags(
            Flags { socket: Some(path), ..reading(args, 0, no_flags())->Flags_0 },
        ),
        reading(args.push("--idle-secs"@).push(decimal(secs as nat)), 0, no_flags())
            == Reading::Flags(
            Flags { idle_secs: Some(secs), ..reading(args, 0, no_flags())->Flags_0 },
        ),
        mode_of(args.push("--socket"@), env) == Err::<ModeView, ModeErrorView>(
            ModeErrorView::SocketNeedsPath,
        ),
        mode_of(args.push("--idle-secs"@), env) == Err::<ModeView, ModeErrorView>(
            ModeErrorView::IdleNeedsNumber,
        ),
        mode_of(args.push(other), env) == Err::<ModeView, ModeErrorView>(
            ModeErrorView::UnknownArgument(other),
        ),
{
    option_words_differ();
    written_number_is_parsed(secs);
    reading_goes_on(args, "--socket"@);
    reading_goes_on(args, "--idle-secs"@);
    reading_goes_on(args, other);
    let flags = reading(args, 0, no_flags())->Flags_0;
    let n = args.len() as int;
    let a = args.push("--socket"@).push(path);
    reading_passes(args, 0, no_flags(), seq!["--socket"@, path]);
    assert(args + seq!["--socket"@, path] =~= a);
    assert(a[n] == "--socket"@ && a[n + 1] == path);
    let with_socket = Flags { socket: Some(path), ..flags };
    assert(reading(a, n + 2, with_socket) == Reading::Flags(with_socket));
    let b = args.push("--idle-secs"@).push(decimal(secs as nat));
    reading_passes(args, 0, no_flags(), seq!["--idle-secs"@, decimal(secs as nat)]);
    assert(args + seq!["--idle-secs"@, decimal(secs as nat)] =~= b);
    assert(b[n] == "--idle-secs"@ && b[n + 1] == decimal(secs as nat));
    let with_idle = Flags { idle_secs: Some(secs), ..flags };
    assert(reading(b, n + 2, with_idle) == Reading::Flags(with_idle));
}

/// The key of a workspace is made of all that shapes what the server answers: of one
/// program, workspaces whose messages are the same work in the same directory, with the
/// same size and time of the program and with the same values of the three variables.
pub proof fn a_key_is_of_all_that_shapes_the_answers(
    cwd: Seq<u8>,
    exe: Seq<u8>,
    facts: ExeFacts,
    values: KeyedEnv,
    cwd2: Seq<u8>,
    facts2: ExeFacts,
    values2: KeyedEnv,
)
    requires
        !cwd.contains(0),
        !cwd2.contains(0),
        same_names(keyed_env(values), keyed_env(values2)),
        facts.modified is Some,
        facts2.modified is Some,
        workspace_message(cwd, exe, Some(facts), values) == workspace_message(
            cwd2,
            exe,
            Some(facts2),
            values2,
        ),
    ensures
        cwd == cwd2,
        facts == facts2,
        values.embedding_profile is Some && values2.embedding_profile is Some
            ==> values.embedding_profile->Some_0@ == values2.embedding_profile->Some_0@,
        values.background_sync is Some && values2.background_sync is Some
            ==> values.background_sync->Some_0@ == values2.background_sync->Some_0@,
        values.ep_census is Some && values2.ep_census is Some ==> values.ep_census->Some_0@
            == values2.ep_census->Some_0@,
        values.embedding_profile is None && values2.embedding_profile is Some
            ==> values2.embedding_profile->Some_0@ == "<unset>"@,
        values.background_sync is None && values2.background_sync is Some
            ==> values2.background_sync->Some_0@ == "<unset>"@,
        values.ep_census is None && values2.ep_census is Some ==> values2.ep_census->Some_0@
            == "<unset>"@,
{
    let env = keyed_env(values);
    let env2 = keyed_env(values2);
    key_message_tells_parts_apart(
        cwd,
        exe,
        facts.len,
        facts.modified->Some_0,
        env,
        cwd2,
        facts2.len,
        facts2.modified->Some_0,
        env2,
    );
    assert(env[0].1 == env2[0].1);
    assert(env[1].1 == env2[1].1);
    assert(env[2].1 == env2[2].1);
}

/// Where the sockets lie: in the directory that is named, whatever else is set; else in a
/// directory of its own in the runtime directory; else in one for the user, or one that is
/// shared, in the directory of temporary files.
pub proof fn sockets_lie_where_it_is_said(
    daemon_dir: Option<&str>,
    runtime_dir: Option<&str>,
    user: Option<&str>,
    temp_dir: &str,
    dir: String,
)
    requires
        call_ensures(socket_dir, (daemon_dir, runtime_dir, user, temp_dir), dir),
        temp_dir@.len() > 0,
        temp_dir@.last() != '/',
        runtime_dir is Some && runtime_dir->Some_0@.len() > 0 ==> runtime_dir->Some_0@.last()
            != '/',
    ensures
        daemon_dir is Some ==> dir@ == daemon_dir->Some_0@,
        daemon_dir is None && runtime_dir is Some && runtime_dir->Some_0@.len() > 0 ==> dir@
            == runtime_dir->Some_0@ + "/rust-code-mcp"@,
        daemon_dir is None && (runtime_dir is None || runtime_dir->Some_0@.len() == 0)
            && user is Some ==> dir@ == temp_dir@ + "/rust-code-mcp-"@ + user->Some_0@,
        daemon_dir is None && (runtime_dir is None || runtime_dir->Some_0@.len() == 0)
            && user is None ==> dir@ == temp_dir@ + "/rust-code-mcp-shared"@,
{
    reveal_strlit("rust-code-mcp");
    reveal_strlit("/rust-code-mcp");
    reveal_strlit("rust-code-mcp-");
    reveal_strlit("/rust-code-mcp-");
    reveal_strlit("shared");
    reveal_strlit("/rust-code-mcp-shared");
    if daemon_dir is None {
        if runtime_dir is Some && runtime_dir->Some_0@.len() > 0 {
            let d = runtime_dir->Some_0@;
            assert(d.push('/') + "rust-code-mcp"@ =~= d + "/rust-code-mcp"@);
        } else if user is Some {
            let u = user->Some_0@;
            assert(temp_dir@.push('/') + ("rust-code-mcp-"@ + u) =~= temp_dir@
                + "/rust-code-mcp-"@ + u);
        } else {
            assert(temp_dir@.push('/') + ("rust-code-mcp-"@ + "shared"@) =~= temp_dir@
                + "/rust-code-mcp-shared"@);
        }
    }
}

/// The lock and the log of a daemon stand beside its socket, under its name.
pub proof fn lock_and_log_stand_beside_the_socket(
    dir: Seq<char>,
    stem: Seq<char>,
    socket: &str,
    lock: String,
    log: String,
)
    requires
        stem.len() > 0,
        !stem.contains('/'),
        !stem.contains('.'),
        socket@ == dir + "/"@ + stem + ".sock"@,
        call_ensures(lock_path, (socket,), lock),
        call_ensures(log_path, (socket,), log),
    ensures
        lock@ == dir + "/"@ + stem + ".lock"@,
        log@ == dir + "/"@ + stem + ".log"@,
{
    reveal_strlit("/");
    reveal_strlit(".");
    reveal_strlit(".sock");
    reveal_strlit("lock");
    reveal_strlit(".lock");
    reveal_strlit("log");
    reveal_strlit(".log");
    let s = socket@;
    let at = dir.len() as int + 1;
    let name = s.skip(at);
    assert(name =~= stem + ".sock"@);
    assert forall|k: int| at <= k < s.len() implies s[k] != '/' by {
        if k < at + stem.len() {
            assert(s[k] == stem[k - at]);
            assert(stem.contains(stem[k - at]));
        } else {
            assert(s[k] == ".sock"@[k - at - stem.len()]);
        }
    }
    assert(name.len() > 1);
    the_last_name_is_the_last_component(s, at);
    assert(stem.contains(stem[0]));
    assert(name[0] == stem[0]);
    assert(name != seq!['/'] && name != seq!['.'] && name != seq!['.', '.']) by {
        assert(name[0] != '.' && name[0] != '/');
    }
    assert forall|i: int| stem.len() < i < name.len() implies name[i] != '.' by {
        assert(name[i] == ".sock"@[i - stem.len()]);
    }
    last_dot_is(name, stem.len() as int);
    assert(s.take(at + stem.len()) =~= dir + "/"@ + stem);
    assert(dir + "/"@ + stem + "."@ + "lock"@ =~= dir + "/"@ + stem + ".lock"@);
    assert(dir + "/"@ + stem + "."@ + "log"@ =~= dir + "/"@ + stem + ".log"@);
}

/// What a step of a client leads to, by how it ended. A connection is always used, and
/// without one nothing is passed through; what was locked is given back before the session
/// goes on.
pub proof fn a_step_of_a_client_goes_by_its_outcome(
    step: ClientStep,
    ok: bool,
    has_parent: bool,
    next: ClientStep,
)
    requires
        call_ensures(run_client, (step, ok, has_parent), next),
    ensures
        step is Connect ==> (ok <==> next is Proxy),
        step is Reconnect || step is Await ==> (ok <==> next == (ClientStep::ReleaseLock {
            connected: true,
        })),
        step is Reconnect && !ok ==> next is LookForStale,
        step is Await && !ok ==> next == (ClientStep::ReleaseLock { connected: false }),
        next is Proxy ==> (step is Connect && ok) || step == (ClientStep::ReleaseLock {
            connected: true,
        }),
        next is Spawn ==> (step is LookForStale && !ok) || step is RemoveStale,
        next is RemoveStale ==> step is LookForStale && ok,
        next is Await ==> step is Spawn && ok,
        step is Spawn && !ok ==> next == (ClientStep::ReleaseLock { connected: false }),
        step == (ClientStep::ReleaseLock { connected: false }) ==> next == (ClientStep::Finished {
            served: false,
        }),
        step is TakeLock ==> (ok <==> next is Reconnect),
        step is Proxy ==> next == (if ok {
            ClientStep::Finished { served: true }
        } else {
            ClientStep::Broken
        }),
        step is Finished || step is Broken ==> next == step,
{
}

/// What a daemon does at an event, and what is then known of its clients.
pub proof fn a_daemon_goes_by_its_events(
    c: &mut Connections,
    event: DaemonEvent,
    idle_secs: u64,
    now: i64,
    action: DaemonAction,
)
    requires
        old(c).live < usize::MAX,
        call_ensures(run_daemon, (c, event, idle_secs, now), action),
    ensures
        action.serve <==> event is Accepted,
        event is Accepted ==> final(c).live == old(c).live + 1 && !action.stop,
        !(event is Accepted) ==> final(c).live == old(c).live,
        event is Terminated || event is AcceptFailed ==> action.stop,
        event is Tick ==> (action.stop <==> old(c).live == 0 && idle_secs > 0 && now
            - old(c).idle_since >= idle_secs),
        final(c).idle_since == old(c).idle_since,
{
}

/// Programs at different paths have different keys' messages, and so have programs of
/// different sizes or times, whatever else is the same.
pub proof fn a_key_is_of_one_program(
    cwd: Seq<u8>,
    exe: Seq<u8>,
    facts: Option<ExeFacts>,
    exe2: Seq<u8>,
    values: KeyedEnv,
)
    requires
        workspace_message(cwd, exe, facts, values) == workspace_message(cwd, exe2, facts, values),
    ensures
        exe == exe2,
{
    let a = workspace_message(cwd, exe, facts, values);
    let b = workspace_message(cwd, exe2, facts, values);
    let n = cwd.len() as int + 1;
    assert(a.len() == b.len());
    assert(exe.len() == exe2.len());
    assert(a.subrange(n, n + exe.len()) =~= exe);
    assert(b.subrange(n, n + exe2.len()) =~= exe2);
}

/// The socket of a workspace stands in the directory of the sockets, under the first eight
/// bytes of the digest in hexadecimal notation.
pub proof fn a_socket_is_named_by_its_key(
    env: SocketEnv,
    cwd: &[u8],
    exe: &[u8],
    facts: Option<ExeFacts>,
    values: KeyedEnv,
    dir: &str,
    key: String,
    path: String,
)
    requires
        env.daemon_dir is Some,
        env.daemon_dir->Some_0@ == dir@,
        dir@.len() > 0,
        dir@.last() != '/',
        call_ensures(workspace_key, (cwd, exe, facts, &values), key),
        call_ensures(default_socket_path, (&env, cwd, exe, facts, &values), path),
    ensures
        path@ == dir@ + "/"@ + key@ + ".sock"@,
        key@.len() == 16,
{
    reveal_strlit("/");
    let name = key@ + ".sock"@;
    assert(!is_absolute(name));
    assert(dir@.push('/') + name =~= dir@ + "/"@ + key@ + ".sock"@);
}

/// Where no socket is named and the default one cannot be made out, no mode is taken, and
/// the reason is told; only help is given all the same.
pub proof fn without_a_socket_no_mode_is_taken(
    args: Vec<String>,
    env: ModeEnv,
    r: Result<Mode, ModeError>,
)
    requires
        call_ensures(resolve_mode, (&args, &env), r),
        env.default_socket is Err,
        forall|i: int| 0 <= i < args@.len() ==> (#[trigger] args@[i])@ != "--socket"@,
    ensures
        r is Ok ==> r->Ok_0 is Help,
        args@.len() == 0 ==> r is Err && r->Err_0@ == ModeErrorView::NoSocket(
            env.default_socket->Err_0@,
        ),
{
    let words = texts(args@);
    assert forall|i: int| 0 <= i < words.len() implies words[i] != "--socket"@ by {
        assert(words[i] == args@[i]@);
    }
    no_socket_is_named(words, 0, no_flags());
}

proof fn no_socket_is_named(args: Seq<Seq<char>>, i: int, flags: Flags)
    requires
        0 <= i,
        flags.socket is None,
        forall|k: int| 0 <= k < args.len() ==> args[k] != "--socket"@,
    ensures
        reading(args, i, flags) matches Reading::Flags(f) ==> f.socket is None,
    decreases args.len() - i,
{
    if i < args.len() {
        let arg = args[i];
        if is_mode_flag(arg) && flags.explicit is None {
            no_socket_is_named(args, i + 1, Flags { explicit: Some(arg), ..flags });
        } else if arg == "--idle-secs"@ && i + 1 < args.len() && parsed(args[i + 1]) is Ok {
            let secs = parsed(args[i + 1])->Ok_0;
            no_socket_is_named(args, i + 2, Flags { idle_secs: Some(secs), ..flags });
        }
    }
}

/// What is no number is refused as the idle seconds, wherever it stands.
pub proof fn idle_seconds_are_a_number(args: Seq<Seq<char>>, word: Seq<char>, env: ModeEnv)
    requires
        reading(args, 0, no_flags()) is Flags,
        parsed(word) is Err,
    ensures
        mode_of(args.push("--idle-secs"@).push(word), env) is Err,
{
    option_words_differ();
    let more = args.push("--idle-secs"@).push(word);
    let n = args.len() as int;
    reading_passes(args, 0, no_flags(), seq!["--idle-secs"@, word]);
    assert(args + seq!["--idle-secs"@, word] =~= more);
    assert(more[n] == "--idle-secs"@ && more[n + 1] == word);
}

/// What is no number asks for nothing: a daemon then stays half an hour.
pub proof fn what_is_no_number_leaves_the_idle_time(value: Option<&str>, secs: u64)
    requires
        call_ensures(idle_from_env, (value,), secs),
        value is Some ==> parsed(trimmed(value->Some_0@)) is Err,
    ensures
        secs == 1800,
{
}

} // verus!

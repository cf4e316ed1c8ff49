use vstd::prelude::*;
use vstd::string::*;
use crate::server::texts;
use crate::text::{lowercase, to_lower};

verus! {

/// A command of the server.
#[derive(Debug)]
pub enum Command {
    Ping,
    Echo(String),
    Get(String),
    SetValue(String, String),
    Unknown,
}

/// A `Command` with its texts taken as characters.
pub enum CommandView {
    Ping,
    Echo(Seq<char>),
    Get(Seq<char>),
    SetValue(Seq<char>, Seq<char>),
    Unknown,
}

impl View for Command {
    type V = CommandView;

    open spec fn view(&self) -> CommandView {
        match self {
            Command::Ping => CommandView::Ping,
            Command::Echo(s) => CommandView::Echo(s@),
            Command::Get(k) => CommandView::Get(k@),
            Command::SetValue(k, v) => CommandView::SetValue(k@, v@),
            Command::Unknown => CommandView::Unknown,
        }
    }
}

/// A reply of the server, in the RESP2 protocol.
#[derive(Debug)]
pub enum RespFrame {
    /// A simple string, written `+text\r\n`.
    SimpleString(String),
    /// An error, written `-text\r\n`.
    Error(String),
}

/// A `RespFrame` with its text taken as characters.
pub enum RespFrameView {
    SimpleString(Seq<char>),
    Error(Seq<char>),
}

impl View for RespFrame {
    type V = RespFrameView;

    open spec fn view(&self) -> RespFrameView {
        match self {
            RespFrame::SimpleString(s) => RespFrameView::SimpleString(s@),
            RespFrame::Error(s) => RespFrameView::Error(s@),
        }
    }
}

/// A store that commands read and write.
pub trait InMemStore: Sized {
    /// That setting `key` to `value` turns this store into `after`. A store that does not
    /// say what setting means for it promises nothing.
    open spec fn stores(&self, key: Seq<char>, value: Seq<char>, after: Self) -> bool {
        true
    }

    fn set(&mut self, key: String, value: String) -> (previous: Option<String>)
        ensures
            old(self).stores(key@, value@, *final(self)),
    ;

    /// That this store answers `found` when asked for `key`. A store that does not say what it
    /// answers promises nothing.
    open spec fn answers(&self, key: Seq<char>, found: Option<Seq<char>>) -> bool {
        true
    }

    fn get(&self, key: String) -> (found: Option<String>)
        ensures
            self.answers(key@, found_text(found)),
    ;
}

/// The command that the arguments of a request name: `PING`; `GET` with a key, which is
/// taken in lower case; `SET` with a key, taken in lower case, and a value. Anything else,
/// and `GET` or `SET` without their arguments, is unknown.
pub open spec fn spec_command(args: Seq<Seq<char>>) -> CommandView {
    if args.len() > 0 && args[0] == "PING"@ {
        CommandView::Ping
    } else if args.len() > 0 && args[0] == "GET"@ {
        if args.len() > 1 {
            CommandView::Get(lowercase(args[1]))
        } else {
            CommandView::Unknown
        }
    } else if args.len() > 0 && args[0] == "SET"@ {
        if args.len() > 2 {
            CommandView::SetValue(lowercase(args[1]), args[2])
        } else {
            CommandView::Unknown
        }
    } else {
        CommandView::Unknown
    }
}

/// The text of what a lookup found.
pub open spec fn found_text(found: Option<String>) -> Option<Seq<char>> {
    match found {
        Some(v) => Some(v@),
        None => None,
    }
}

/// The reply to `GET key` when the lookup found `found`: the value in lower case, or an
/// error that names the key.
pub open spec fn spec_get_reply(key: Seq<char>, found: Option<Seq<char>>) -> RespFrameView {
    match found {
        Some(v) => RespFrameView::SimpleString(lowercase(v)),
        None => RespFrameView::Error("Key not found "@ + key),
    }
}

/// The reply to `GET key` when the lookup found `found`.
pub fn get_reply(key: &String, found: Option<String>) -> (f: RespFrame)
    ensures
        f@ == spec_get_reply(key@, found_text(found)),
{
    match found {
        Some(value) => RespFrame::SimpleString(to_lower(value.as_str())),
        None => {
            let mut m = String::from_str("Key not found ");
            m.append(key.as_str());
            RespFrame::Error(m)
        },
    }
}

impl Command {
    /// The command that a request names; a request that could not be read is unknown.
    pub fn from_input(input: Result<Vec<String>, String>) -> (c: Command)
        ensures
            c@ == match input {
                Ok(args) => spec_command(texts(args@)),
                Err(_) => CommandView::Unknown,
            },
    {
        if let Ok(args) = input {
            let ghost a = texts(args@);
            if args.len() > 0 {
                assert(args[0]@ == a[0]);
                if args[0] == String::from_str("PING") {
                    return Command::Ping;
                } else if args[0] == String::from_str("GET") {
                    if args.len() > 1 {
                        assert(args[1]@ == a[1]);
                        return Command::Get(to_lower(args[1].as_str()));
                    }
                } else if args[0] == String::from_str("SET") {
                    if args.len() > 2 {
                        assert(args[1]@ == a[1]);
                        assert(args[2]@ == a[2]);
                        return Command::SetValue(to_lower(args[1].as_str()), args[2].clone());
                    }
                } else {
                    return Command::Unknown;
                }
            }
        }
        Command::Unknown
    }

    /// Runs the command against the store behind `mem`: `PING` is answered `PONG`; `SET` stores
    /// the value under the key (and the store is then what setting makes it) and is answered
    /// `OK`; `GET` asks the store for the key and is answered with its answer; an unknown
    /// command fails. Only `SET` changes the store.
    pub fn execute_on<T: InMemStore>(&self, mem: &mut T) -> (r: Result<RespFrame, String>)
        ensures
            !(self@ is SetValue) ==> *final(mem) == *old(mem),
            self@ is Ping ==> (r matches Ok(f) && f@ == RespFrameView::SimpleString("PONG"@)),
            self@ is Get ==> (r matches Ok(f) && exists|k: String, found: Option<String>|
                k@ == self@->Get_0 && #[trigger] call_ensures(T::get, (&*old(mem), k), found)
                    && old(mem).answers(self@->Get_0, found_text(found)) && f@ == spec_get_reply(
                    self@->Get_0,
                    found_text(found),
                )),
            self@ is SetValue ==> (r matches Ok(f) && f@ == RespFrameView::SimpleString("OK"@)),
            self@ is SetValue ==> old(mem).stores(self@->SetValue_0, self@->SetValue_1, *final(mem)),
            self@ is Unknown ==> (r matches Err(m) && m@ == "Unknown command"@),
            self@ is Echo ==> (r matches Ok(f) && f@ == RespFrameView::SimpleString("Ok"@)),
    {
        match self {
            Command::Ping => Ok(RespFrame::SimpleString(String::from_str("PONG"))),
            Command::Get(key) => {
                let k = key.clone();
                let ghost asked = k;
                let found = mem.get(k);
                let ghost answer = found;
                let reply = get_reply(key, found);
                assert(call_ensures(T::get, (&*old(mem), asked), answer));
                assert(reply@ == spec_get_reply(self@->Get_0, found_text(answer)));
                Ok(reply)
            },
            Command::SetValue(key, value) => {
                mem.set(key.clone(), value.clone());
                Ok(RespFrame::SimpleString(String::from_str("OK")))
            },
            Command::Unknown => Err(String::from_str("Unknown command")),
            Command::Echo(_) => Ok(RespFrame::SimpleString(String::from_str("Ok"))),
        }
    }

    /// Runs the command against `mem`, as `execute_on` does; the store is handed over, so only a
    /// store that is a handle on shared data keeps what `SET` wrote.
    pub fn execute<T: InMemStore>(&self, mut mem: T) -> (r: Result<RespFrame, String>)
        ensures
            self@ is Ping ==> (r matches Ok(f) && f@ == RespFrameView::SimpleString("PONG"@)),
            self@ is Get ==> (r matches Ok(f) && exists|k: String, found: Option<String>|
                k@ == self@->Get_0 && #[trigger] call_ensures(T::get, (&mem, k), found)
                    && mem.answers(self@->Get_0, found_text(found)) && f@ == spec_get_reply(
                    self@->Get_0,
                    found_text(found),
                )),
            self@ is SetValue ==> (r matches Ok(f) && f@ == RespFrameView::SimpleString("OK"@)),
            self@ is SetValue ==> exists|after: T|
                #[trigger] mem.stores(self@->SetValue_0, self@->SetValue_1, after),
            self@ is Unknown ==> (r matches Err(m) && m@ == "Unknown command"@),
            self@ is Echo ==> (r matches Ok(f) && f@ == RespFrameView::SimpleString("Ok"@)),
    {
        let ghost before = mem;
        let r = self.execute_on(&mut mem);
        proof {
            if self@ is SetValue {
                assert(before.stores(self@->SetValue_0, self@->SetValue_1, mem));
            }
        }
        r
    }
}

/// The three command names differ from each other.
pub proof fn lemma_command_names_differ()
    ensures
        "GET"@ != "SET"@,
        "GET"@ != "PING"@,
        "SET"@ != "PING"@,
{
    reveal_strlit("GET");
    reveal_strlit("SET");
    reveal_strlit("PING");
    assert("GET"@[0] != "SET"@[0]);
    assert("GET"@.len() != "PING"@.len());
    assert("SET"@.len() != "PING"@.len());
}

/// What the arguments of a request command: `PING` pings; `GET key` gets the key in lower case;
/// `SET key value` sets the key in lower case to the whole value argument, unchanged; `GET`
/// without a key, `SET` without a value, and any other first argument are unknown.
pub proof fn law_command_of_arguments(args: Seq<Seq<char>>)
    ensures
        args.len() > 0 && args[0] == "PING"@ ==> spec_command(args) == CommandView::Ping,
        args.len() > 1 && args[0] == "GET"@ ==> spec_command(args) == CommandView::Get(
            lowercase(args[1]),
        ),
        args.len() > 2 && args[0] == "SET"@ ==> spec_command(args) == CommandView::SetValue(
            lowercase(args[1]),
            args[2],
        ),
        args.len() == 1 && args[0] == "GET"@ ==> spec_command(args) == CommandView::Unknown,
        1 <= args.len() <= 2 && args[0] == "SET"@ ==> spec_command(args) == CommandView::Unknown,
        args.len() == 0 || (args[0] != "PING"@ && args[0] != "GET"@ && args[0] != "SET"@)
            ==> spec_command(args) == CommandView::Unknown,
{
    lemma_command_names_differ();
}

/// The reply to `GET key` is the whole value found, in lower case, as a simple string; when
/// nothing is found it is the error `Key not found ` followed by the key.
pub proof fn law_get_reply(key: Seq<char>, value: Seq<char>)
    ensures
        spec_get_reply(key, Some(value)) == RespFrameView::SimpleString(lowercase(value)),
        spec_get_reply(key, None) == RespFrameView::Error("Key not found "@ + key),
{
}

/// Of a store that answers a key with the value last set under it: when `SET key first` turns
/// `m0` into `m1`, `SET key second` turns `m1` into `m2`, and `m2` answers `found` for `key`,
/// the reply to `GET key` is `second` in lower case. The later `SET` wins.
pub proof fn law_last_set_wins<T: InMemStore>(
    m0: T,
    m1: T,
    m2: T,
    key: Seq<char>,
    first: Seq<char>,
    second: Seq<char>,
    found: Option<Seq<char>>,
)
    requires
        forall|s: T, k: Seq<char>, v: Seq<char>, t: T, f: Option<Seq<char>>|
            #[trigger] s.stores(k, v, t) && #[trigger] t.answers(k, f) ==> f == Some(v),
        m0.stores(key, first, m1),
        m1.stores(key, second, m2),
        m2.answers(key, found),
    ensures
        found == Some(second),
        spec_get_reply(key, found) == RespFrameView::SimpleString(lowercase(second)),
{
}

} // verus!

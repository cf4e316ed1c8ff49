use vstd::prelude::*;
use vstd::string::*;
use vstd::utf8::{decode_utf8, encode_utf8, valid_utf8};
use redis_protocol::resp2::types::{OwnedFrame, Resp2Frame};
use crate::command::{lemma_command_names_differ, Command, CommandView, InMemStore, RespFrame, RespFrameView, found_text, spec_command, spec_get_reply};
use crate::mem_store::Mem;
use crate::number::{parse_usize, spec_parse_usize};
use crate::reader::{ByteReader, LineError, LineErrorView, line_end, line_len, spec_line, read_resp_line, lemma_line_len_bounds};
use crate::text::{chars_of, lowercase, to_lower, to_upper, uppercase, utf8_error_text, utf8_string};

verus! {

/// Why a request could not be read.
#[derive(Debug)]
pub enum RespError {
    /// The first line, the array header, could not be read.
    ArrayHeader(LineError),
    /// The array header does not start with `*`; it holds the header.
    ArrayPrefix(String),
    /// The array size is not a number; it holds the text after `*`.
    ArraySize(String),
    /// A bulk string header could not be read.
    BulkHeader(LineError),
    /// A bulk string header does not start with `$`; it holds the header.
    BulkPrefix(String),
    /// A bulk string length is not a number; it holds the text after `$`.
    BulkLength(String),
    /// Fewer bytes are left than the bulk string length says.
    BulkValue,
    /// The two bytes after a bulk string value are missing.
    Terminator,
    /// The two bytes after a bulk string value are not `\r\n`.
    MissingTerminator,
    /// A bulk string value is not valid UTF-8; it holds the text of the decoding error.
    BulkUtf8(String),
}

/// A `RespError` with its texts taken as characters.
pub enum RespErrorView {
    ArrayHeader(LineErrorView),
    ArrayPrefix(Seq<char>),
    ArraySize(Seq<char>),
    BulkHeader(LineErrorView),
    BulkPrefix(Seq<char>),
    BulkLength(Seq<char>),
    BulkValue,
    Terminator,
    MissingTerminator,
    BulkUtf8(Seq<char>),
}

impl View for RespError {
    type V = RespErrorView;

    open spec fn view(&self) -> RespErrorView {
        match self {
            RespError::ArrayHeader(e) => RespErrorView::ArrayHeader(e@),
            RespError::ArrayPrefix(h) => RespErrorView::ArrayPrefix(h@),
            RespError::ArraySize(t) => RespErrorView::ArraySize(t@),
            RespError::BulkHeader(e) => RespErrorView::BulkHeader(e@),
            RespError::BulkPrefix(h) => RespErrorView::BulkPrefix(h@),
            RespError::BulkLength(t) => RespErrorView::BulkLength(t@),
            RespError::BulkValue => RespErrorView::BulkValue,
            RespError::Terminator => RespErrorView::Terminator,
            RespError::MissingTerminator => RespErrorView::MissingTerminator,
            RespError::BulkUtf8(t) => RespErrorView::BulkUtf8(t@),
        }
    }
}

pub open spec fn starts_with(s: Seq<char>, c: char) -> bool {
    s.len() > 0 && s[0] == c
}

/// The texts of a list of strings.
pub open spec fn texts(v: Seq<String>) -> Seq<Seq<char>> {
    v.map_values(|s: String| s@)
}

/// One bulk string at the front of `s` (`$`, its length, `\r\n`, the value, `\r\n`):
/// the value in upper case and the number of bytes it takes, or why it is not one.
pub open spec fn spec_bulk(s: Seq<u8>) -> Result<(Seq<char>, int), RespErrorView> {
    let n = line_len(s);
    match spec_line(s) {
        Err(e) => Err(RespErrorView::BulkHeader(e)),
        Ok(h) => if !starts_with(h, '$') {
            Err(RespErrorView::BulkPrefix(h))
        } else {
            match spec_parse_usize(h.drop_first()) {
                None => Err(RespErrorView::BulkLength(h.drop_first())),
                Some(len) => {
                    let r = s.skip(n);
                    let len = len as int;
                    if r.len() < len {
                        Err(RespErrorView::BulkValue)
                    } else if r.len() < len + 2 {
                        Err(RespErrorView::Terminator)
                    } else if r[len] != 13u8 || r[len + 1] != 10u8 {
                        Err(RespErrorView::MissingTerminator)
                    } else if !valid_utf8(r.take(len)) {
                        Err(RespErrorView::BulkUtf8(utf8_error_text(r.take(len))))
                    } else {
                        Ok((uppercase(decode_utf8(r.take(len))), n + len + 2))
                    }
                },
            }
        },
    }
}

/// `n` bulk strings one after the other at the front of `s`: their values and the number
/// of bytes they take, or the first reason why one of them is not a bulk string.
pub open spec fn spec_bulks(s: Seq<u8>, n: nat) -> Result<(Seq<Seq<char>>, int), RespErrorView>
    decreases n,
{
    if n == 0 {
        Ok((Seq::empty(), 0))
    } else {
        match spec_bulks(s, (n - 1) as nat) {
            Err(e) => Err(e),
            Ok((args, used)) => match spec_bulk(s.skip(used)) {
                Err(e) => Err(e),
                Ok((arg, k)) => Ok((args.push(arg), used + k)),
            },
        }
    }
}

/// A request: an array header `*n\r\n` and then `n` bulk strings. Its arguments in upper
/// case, or why the bytes are not a request.
pub open spec fn spec_request(s: Seq<u8>) -> Result<Seq<Seq<char>>, RespErrorView> {
    match spec_line(s) {
        Err(e) => Err(RespErrorView::ArrayHeader(e)),
        Ok(h) => if !starts_with(h, '*') {
            Err(RespErrorView::ArrayPrefix(h))
        } else {
            match spec_parse_usize(h.drop_first()) {
                None => Err(RespErrorView::ArraySize(h.drop_first())),
                Some(n) => match spec_bulks(s.skip(line_len(s)), n as nat) {
                    Ok((args, _)) => Ok(args),
                    Err(e) => Err(e),
                },
            }
        },
    }
}

pub proof fn lemma_bulk_len(s: Seq<u8>)
    ensures
        spec_bulk(s) matches Ok((_, k)) ==> 0 < k <= s.len(),
{
    lemma_line_len_bounds(s);
}

/// Once one of the bulk strings fails, reading more of them fails in the same way.
pub proof fn lemma_bulks_error_sticks(s: Seq<u8>, i: nat, n: nat)
    requires
        i <= n,
        spec_bulks(s, i) is Err,
    ensures
        spec_bulks(s, n) == spec_bulks(s, i),
    decreases n,
{
    if i < n {
        lemma_bulks_error_sticks(s, i, (n - 1) as nat);
    }
}

/// Reads one bulk string and returns its value in upper case.
fn read_bulk(reader: &mut ByteReader) -> (r: Result<String, RespError>)
    ensures
        match spec_bulk(old(reader)@) {
            Ok((arg, k)) => r matches Ok(a) && a@ == arg && final(reader)@ == old(reader)@.skip(k),
            Err(e) => r matches Err(x) && x@ == e,
        },
{
    let ghost s = reader@;
    proof {
        lemma_line_len_bounds(s);
    }
    let header = match read_resp_line(reader) {
        Ok(h) => h,
        Err(e) => return Err(RespError::BulkHeader(e)),
    };
    let hc = chars_of(header.as_str());
    if hc.len() == 0 || hc[0] != '$' {
        return Err(RespError::BulkPrefix(header));
    }
    let length = match parse_usize(&hc, 1) {
        Some(n) => n,
        None => {
            let rest = header.as_str().substring_char(1, hc.len());
            return Err(RespError::BulkLength(String::from_str(rest)));
        },
    };
    let ghost r = s.skip(line_len(s));
    assert(reader@ == r);
    let value = match reader.read_exact(length) {
        Some(v) => v,
        None => return Err(RespError::BulkValue),
    };
    let terminator = match reader.read_exact(2) {
        Some(t) => t,
        None => return Err(RespError::Terminator),
    };
    assert(terminator@ == r.skip(length as int).take(2));
    if terminator[0] != 13u8 || terminator[1] != 10u8 {
        return Err(RespError::MissingTerminator);
    }
    let text = match utf8_string(value) {
        Ok(t) => t,
        Err(e) => return Err(RespError::BulkUtf8(e)),
    };
    assert(reader@ == s.skip(line_len(s) + length + 2));
    Ok(to_upper(text.as_str()))
}

/// Reads a request: an array header and then as many bulk strings as it says.
pub fn read_request(reader: &mut ByteReader) -> (r: Result<Vec<String>, RespError>)
    ensures
        match spec_request(old(reader)@) {
            Ok(args) => r matches Ok(v) && texts(v@) == args,
            Err(e) => r matches Err(x) && x@ == e,
        },
{
    let ghost s = reader@;
    proof {
        lemma_line_len_bounds(s);
    }
    let header = match read_resp_line(reader) {
        Ok(h) => h,
        Err(e) => return Err(RespError::ArrayHeader(e)),
    };
    let hc = chars_of(header.as_str());
    if hc.len() == 0 || hc[0] != '*' {
        return Err(RespError::ArrayPrefix(header));
    }
    let num_elements = match parse_usize(&hc, 1) {
        Some(n) => n,
        None => {
            let rest = header.as_str().substring_char(1, hc.len());
            return Err(RespError::ArraySize(String::from_str(rest)));
        },
    };
    let ghost body = s.skip(line_len(s));
    let mut arguments: Vec<String> = Vec::new();
    let mut i: usize = 0;
    let ghost mut used: int = 0;
    assert(texts(arguments@) == Seq::<Seq<char>>::empty());
    while i < num_elements
        invariant
            i <= num_elements,
            0 <= used <= body.len(),
            spec_bulks(body, i as nat) == Ok::<(Seq<Seq<char>>, int), RespErrorView>((texts(arguments@), used)),
            reader@ == body.skip(used),
            s == old(reader)@,
            spec_request(s) == (match spec_bulks(body, num_elements as nat) {
                Ok((args, _)) => Ok(args),
                Err(e) => Err(e),
            }),
        decreases num_elements - i,
    {
        let ghost before = arguments@;
        match read_bulk(reader) {
            Ok(arg) => {
                arguments.push(arg);
                proof {
                    lemma_bulk_len(body.skip(used));
                    let k = spec_bulk(body.skip(used))->Ok_0.1;
                    assert(body.skip(used).skip(k) == body.skip(used + k));
                    used = used + k;
                    assert(texts(arguments@) == texts(before).push(arg@));
                }
            },
            Err(e) => {
                proof {
                    assert(spec_bulks(body, (i + 1) as nat) == Err::<(Seq<Seq<char>>, int), RespErrorView>(e@));
                    lemma_bulks_error_sticks(body, (i + 1) as nat, num_elements as nat);
                }
                return Err(e);
            },
        }
        i += 1;
    }
    Ok(arguments)
}

/// The text of a line error.
pub open spec fn spec_line_message(e: LineErrorView) -> Seq<char> {
    match e {
        LineErrorView::Unterminated => "Invalid RESP line ending or data"@,
        LineErrorView::BadEnding => "Invalid RESP line ending or data"@,
        LineErrorView::BadUtf8(t) => "Invalid UTF-8: "@ + t,
    }
}

/// The text of a request error, as the server reports it.
pub open spec fn spec_error_message(e: RespErrorView) -> Seq<char> {
    match e {
        RespErrorView::ArrayHeader(le) => "Error reading array header: "@ + spec_line_message(le),
        RespErrorView::ArrayPrefix(h) => "Expected array prefix '*', got: "@ + h,
        RespErrorView::ArraySize(t) => "Invalid array size: "@ + t,
        RespErrorView::BulkHeader(le) => "Failed to read bulk header: "@ + spec_line_message(le),
        RespErrorView::BulkPrefix(h) => "Expected bulk string prefix '$', got: "@ + h,
        RespErrorView::BulkLength(t) => "Invalid bulk string length: "@ + t,
        RespErrorView::BulkValue => "Failed to read bulk string value: failed to fill whole buffer"@,
        RespErrorView::Terminator => "Failed to read terminator: failed to fill whole buffer"@,
        RespErrorView::MissingTerminator => "Missing bulk string terminator \\r\\n"@,
        RespErrorView::BulkUtf8(t) => "Bulk string value not valid UTF-8: "@ + t,
    }
}

impl LineError {
    /// The text of this error.
    pub fn message(&self) -> (m: String)
        ensures
            m@ == spec_line_message(self@),
    {
        match self {
            LineError::Unterminated => String::from_str("Invalid RESP line ending or data"),
            LineError::BadEnding => String::from_str("Invalid RESP line ending or data"),
            LineError::BadUtf8(t) => {
                let mut m = String::from_str("Invalid UTF-8: ");
                m.append(t.as_str());
                m
            },
        }
    }
}

impl RespError {
    /// The text of this error.
    pub fn message(&self) -> (m: String)
        ensures
            m@ == spec_error_message(self@),
    {
        match self {
            RespError::ArrayHeader(le) => {
                let mut m = String::from_str("Error reading array header: ");
                m.append(le.message().as_str());
                m
            },
            RespError::ArrayPrefix(h) => {
                let mut m = String::from_str("Expected array prefix '*', got: ");
                m.append(h.as_str());
                m
            },
            RespError::ArraySize(t) => {
                let mut m = String::from_str("Invalid array size: ");
                m.append(t.as_str());
                m
            },
            RespError::BulkHeader(le) => {
                let mut m = String::from_str("Failed to read bulk header: ");
                m.append(le.message().as_str());
                m
            },
            RespError::BulkPrefix(h) => {
                let mut m = String::from_str("Expected bulk string prefix '$', got: ");
                m.append(h.as_str());
                m
            },
            RespError::BulkLength(t) => {
                let mut m = String::from_str("Invalid bulk string length: ");
                m.append(t.as_str());
                m
            },
            RespError::BulkValue => String::from_str(
                "Failed to read bulk string value: failed to fill whole buffer",
            ),
            RespError::Terminator => String::from_str(
                "Failed to read terminator: failed to fill whole buffer",
            ),
            RespError::MissingTerminator => String::from_str("Missing bulk string terminator \\r\\n"),
            RespError::BulkUtf8(t) => {
                let mut m = String::from_str("Bulk string value not valid UTF-8: ");
                m.append(t.as_str());
                m
            },
        }
    }
}

/// That reading stopped because the bytes ran out before the request ended: a header line
/// with no newline yet, or fewer bytes than a bulk string and its `\r\n` need.
pub open spec fn is_truncation(e: RespErrorView) -> bool {
    match e {
        RespErrorView::ArrayHeader(LineErrorView::Unterminated) => true,
        RespErrorView::BulkHeader(LineErrorView::Unterminated) => true,
        RespErrorView::BulkValue => true,
        RespErrorView::Terminator => true,
        _ => false,
    }
}

impl RespError {
    /// Whether reading stopped because the bytes ran out before the request ended.
    pub fn is_truncation(&self) -> (b: bool)
        ensures
            b == is_truncation(self@),
    {
        match self {
            RespError::ArrayHeader(LineError::Unterminated) => true,
            RespError::BulkHeader(LineError::Unterminated) => true,
            RespError::BulkValue => true,
            RespError::Terminator => true,
            _ => false,
        }
    }
}

/// Whether `stream` holds the start of a request whose end has not arrived yet: reading it
/// fails only because the bytes run out.
pub fn request_is_truncated(stream: &[u8]) -> (b: bool)
    ensures
        b == (spec_request(stream@) matches Err(e) && is_truncation(e)),
{
    let mut reader = ByteReader::new(stream);
    match read_request(&mut reader) {
        Ok(_) => false,
        Err(e) => e.is_truncation(),
    }
}

/// Reads a request from `stream`: its arguments in upper case, or the text of the first
/// thing wrong with it.
pub fn read_resp_request(stream: &[u8]) -> (r: Result<Vec<String>, String>)
    ensures
        match spec_request(stream@) {
            Ok(args) => r matches Ok(v) && texts(v@) == args,
            Err(e) => r matches Err(m) && m@ == spec_error_message(e),
        },
{
    let mut reader = ByteReader::new(stream);
    match read_request(&mut reader) {
        Ok(args) => Ok(args),
        Err(e) => Err(e.message()),
    }
}

/// The RESP2 bytes of a reply: `+` or `-`, the UTF-8 bytes of its text, and `\r\n`.
pub open spec fn spec_frame_bytes(f: RespFrameView) -> Seq<u8> {
    match f {
        RespFrameView::SimpleString(s) => seq![43u8] + encode_utf8(s) + seq![13u8, 10u8],
        RespFrameView::Error(s) => seq![45u8] + encode_utf8(s) + seq![13u8, 10u8],
    }
}

/// Calls `Resp2Frame::encode_len` of `redis_protocol` on the frame: the number of bytes
/// that encoding it takes, which for a simple string or an error is 1 + its bytes + 2.
#[verifier::external_body]
fn frame_encode_len(frame: &RespFrame, int_as_bulkstring: bool) -> (n: usize)
    requires
        spec_frame_bytes(frame@).len() <= usize::MAX,
    ensures
        n == spec_frame_bytes(frame@).len(),
{
    let owned = match frame {
        RespFrame::SimpleString(s) => OwnedFrame::SimpleString(s.clone().into_bytes()),
        RespFrame::Error(s) => OwnedFrame::Error(s.clone()),
    };
    owned.encode_len(int_as_bulkstring)
}

/// Calls `redis_protocol::resp2::encode::encode`, which writes the frame's bytes at the start
/// of `buf` and returns their number. When `buf` is shorter than they are, it fails before
/// writing, with a `BufferTooSmall` error whose text is `Buffer too small: `.
#[verifier::external_body]
fn encode_frame(buf: &mut Vec<u8>, frame: &RespFrame, int_as_bulkstring: bool) -> (r: Result<
    usize,
    String,
>)
    ensures
        spec_frame_bytes(frame@).len() <= old(buf)@.len() ==> (r matches Ok(n) && n
            == spec_frame_bytes(frame@).len() && final(buf)@ == spec_frame_bytes(frame@) + old(
            buf,
        )@.skip(n as int)),
        spec_frame_bytes(frame@).len() > old(buf)@.len() ==> (r matches Err(t) && t@
            == "Buffer too small: "@ && final(buf)@ == old(buf)@),
{
    let owned = match frame {
        RespFrame::SimpleString(s) => OwnedFrame::SimpleString(s.clone().into_bytes()),
        RespFrame::Error(s) => OwnedFrame::Error(s.clone()),
    };
    match redis_protocol::resp2::encode::encode(buf.as_mut_slice(), &owned, int_as_bulkstring) {
        Ok(n) => Ok(n),
        Err(e) => Err(format!("{}", e)),
    }
}

/// Writes the RESP2 bytes of `frame` over the start of `out`, which must already be long
/// enough to hold them; otherwise `out` is left as it was and the error is returned.
pub fn write_frames(frame: &RespFrame, out: &mut Vec<u8>) -> (r: Result<(), String>)
    requires
        old(out)@.len() + 2 * spec_frame_bytes(frame@).len() <= isize::MAX,
    ensures
        spec_frame_bytes(frame@).len() <= old(out)@.len() ==> (r is Ok && final(out)@
            == spec_frame_bytes(frame@) + old(out)@.skip(spec_frame_bytes(frame@).len() as int)),
        spec_frame_bytes(frame@).len() > old(out)@.len() ==> (r matches Err(m) && final(out)@
            == old(out)@ && m@ == "Failed to encode frame: "@ + "Buffer too small: "@),
{
    let len = frame_encode_len(frame, false);
    out.reserve(len + len);
    match encode_frame(out, frame, false) {
        Ok(_) => Ok(()),
        Err(e) => {
            let mut m = String::from_str("Failed to encode frame: ");
            m.append(e.as_str());
            Err(m)
        },
    }
}

/// The bytes that are sent for `frame`: exactly its RESP2 encoding.
pub fn response_bytes(frame: &RespFrame) -> (r: Vec<u8>)
    requires
        3 * spec_frame_bytes(frame@).len() <= isize::MAX,
    ensures
        r@ == spec_frame_bytes(frame@),
{
    let len = frame_encode_len(frame, false);
    let mut out: Vec<u8> = Vec::new();
    let mut i: usize = 0;
    while i < len
        invariant
            i <= len,
            out@.len() == i,
        decreases len - i,
    {
        out.push(0u8);
        i += 1;
    }
    let _ = write_frames(frame, &mut out);
    assert(out@ == spec_frame_bytes(frame@));
    out
}

/// The command that the bytes of a request name; a request that cannot be read is unknown.
pub open spec fn spec_request_command(s: Seq<u8>) -> CommandView {
    match spec_request(s) {
        Ok(args) => spec_command(args),
        Err(_) => CommandView::Unknown,
    }
}

/// Reads the request in `request`, runs its command against the store behind `mem` and gives
/// the reply, or nothing when the command is unknown or the request could not be read. Only a
/// `SET` changes the store, and after it the store is what setting the key to the value makes it.
pub fn handle_request_on<T: InMemStore>(request: &[u8], mem: &mut T) -> (r: Option<RespFrame>)
    ensures
        !(spec_request_command(request@) is SetValue) ==> *final(mem) == *old(mem),
        spec_request_command(request@) is Unknown <==> r is None,
        spec_request_command(request@) is Ping ==> (r matches Some(f) && f@
            == RespFrameView::SimpleString("PONG"@)),
        spec_request_command(request@) is Get ==> (r matches Some(f) && exists|
            k: String,
            found: Option<String>,
        |
            k@ == spec_request_command(request@)->Get_0 && #[trigger] call_ensures(
                T::get,
                (&*old(mem), k),
                found,
            ) && old(mem).answers(spec_request_command(request@)->Get_0, found_text(found))
                && f@ == spec_get_reply(spec_request_command(request@)->Get_0, found_text(found))),
        spec_request_command(request@) is SetValue ==> (r matches Some(f) && f@
            == RespFrameView::SimpleString("OK"@)),
        spec_request_command(request@) is SetValue ==> old(mem).stores(
            spec_request_command(request@)->SetValue_0,
            spec_request_command(request@)->SetValue_1,
            *final(mem),
        ),
        spec_request_command(request@) is Echo ==> (r matches Some(f) && f@
            == RespFrameView::SimpleString("Ok"@)),
{
    let input = read_resp_request(request);
    let cmd = Command::from_input(input);
    assert(cmd@ == spec_request_command(request@));
    match cmd.execute_on(mem) {
        Ok(frame) => Some(frame),
        Err(_) => None,
    }
}

/// Reads the request in `request`, runs its command against `mem` and gives the reply, as
/// `handle_request_on` does; the store is handed over, so only a store that is a handle on
/// shared data keeps what `SET` wrote.
pub fn handle_request<T: InMemStore>(request: &[u8], mut mem: T) -> (r: Option<RespFrame>)
    ensures
        spec_request_command(request@) is Unknown <==> r is None,
        spec_request_command(request@) is Ping ==> (r matches Some(f) && f@
            == RespFrameView::SimpleString("PONG"@)),
        spec_request_command(request@) is Get ==> (r matches Some(f) && exists|
            k: String,
            found: Option<String>,
        |
            k@ == spec_request_command(request@)->Get_0 && #[trigger] call_ensures(
                T::get,
                (&mem, k),
                found,
            ) && mem.answers(spec_request_command(request@)->Get_0, found_text(found)) && f@
                == spec_get_reply(spec_request_command(request@)->Get_0, found_text(found))),
        spec_request_command(request@) is SetValue ==> (r matches Some(f) && f@
            == RespFrameView::SimpleString("OK"@)),
        spec_request_command(request@) is SetValue ==> exists|after: T|
            #[trigger] mem.stores(
                spec_request_command(request@)->SetValue_0,
                spec_request_command(request@)->SetValue_1,
                after,
            ),
        spec_request_command(request@) is Echo ==> (r matches Some(f) && f@
            == RespFrameView::SimpleString("Ok"@)),
{
    let ghost before = mem;
    let r = handle_request_on(request, &mut mem);
    proof {
        if spec_request_command(request@) is SetValue {
            assert(before.stores(
                spec_request_command(request@)->SetValue_0,
                spec_request_command(request@)->SetValue_1,
                mem,
            ));
        }
    }
    r
}

/// The status and body of a reply to a plain-text client.
#[derive(Debug)]
pub struct CmdResponse {
    pub status: String,
    pub body: String,
}

/// The body of the reply to `GET key`: `+` and the stored value in lower case, or `$-1` when the
/// lower-case key is not stored.
pub open spec fn spec_get_body(m: Map<Seq<char>, Seq<char>>, key: Seq<char>) -> Seq<char> {
    if m.contains_key(lowercase(key)) {
        "+"@ + lowercase(m[lowercase(key)]) + "\r\n"@
    } else {
        "$-1\r\n"@
    }
}

/// Looks up the lower-case form of `key`.
pub fn get_command(mem: &Mem, key: String) -> (r: CmdResponse)
    ensures
        r.status@ == "HTTP/1.1 200 OK "@,
        r.body@ == spec_get_body(mem@, key@),
{
    let k = to_lower(key.as_str());
    let body = match mem.get(k.as_str()) {
        Some(value) => {
            let mut b = String::from_str("+");
            b.append(to_lower(value.as_str()).as_str());
            b.append("\r\n");
            b
        },
        None => String::from_str("$-1\r\n"),
    };
    CmdResponse { status: String::from_str("HTTP/1.1 200 OK "), body }
}

/// Stores the lower-case form of `value` under the lower-case form of `key`.
pub fn set_command(key: String, value: String, mem: &mut Mem) -> (r: CmdResponse)
    ensures
        final(mem)@ == old(mem)@.insert(lowercase(key@), lowercase(value@)),
        r.status@ == "HTTP/1.1 200 OK"@,
        r.body@ == "write success "@,
{
    let v = to_lower(value.as_str());
    mem.set(key.as_str(), v.as_str());
    CmdResponse { status: String::from_str("HTTP/1.1 200 OK"), body: String::from_str("write success ") }
}

/// The argument at `i`, or the empty text when there is none.
pub open spec fn arg_or_empty(a: Seq<Seq<char>>, i: int) -> Seq<char> {
    if i < a.len() {
        a[i]
    } else {
        Seq::empty()
    }
}

/// What a plain-text client is answered for a request with arguments `a`, against store `m`.
pub open spec fn spec_connection_reply(m: Map<Seq<char>, Seq<char>>, a: Seq<Seq<char>>) -> Seq<char> {
    if a.len() > 0 && a[0] == "GET"@ {
        if a.len() > 1 {
            spec_get_body(m, a[1])
        } else {
            Seq::empty()
        }
    } else if a.len() > 0 && a[0] == "SET"@ {
        "+OK\r\n"@
    } else if a.len() > 0 && a[0] == "PING"@ {
        "+PONG\r\n"@
    } else {
        "$-1\r\n"@
    }
}

/// The store after a plain-text request with arguments `a`: `SET` stores the lower-case value
/// under the lower-case key, where a missing key or value counts as empty.
pub open spec fn spec_connection_store(m: Map<Seq<char>, Seq<char>>, a: Seq<Seq<char>>) -> Map<
    Seq<char>,
    Seq<char>,
> {
    if a.len() > 0 && a[0] != "GET"@ && a[0] == "SET"@ {
        m.insert(lowercase(arg_or_empty(a, 1)), lowercase(arg_or_empty(a, 2)))
    } else {
        m
    }
}

/// Answers a request of a plain-text client and updates the store as it asks; a request that
/// could not be read is answered with nothing.
pub fn connection_response(request: Result<Vec<String>, String>, mem: &mut Mem) -> (reply: String)
    ensures
        match request {
            Ok(args) => reply@ == spec_connection_reply(old(mem)@, texts(args@)) && final(mem)@
                == spec_connection_store(old(mem)@, texts(args@)),
            Err(_) => reply@ == Seq::<char>::empty() && final(mem)@ == old(mem)@,
        },
{
    let args = match request {
        Ok(args) => args,
        Err(_) => return String::new(),
    };
    let ghost a = texts(args@);
    if args.len() == 0 {
        return String::from_str("$-1\r\n");
    }
    assert(args[0]@ == a[0]);
    if args[0] == String::from_str("GET") {
        if args.len() > 1 {
            assert(args[1]@ == a[1]);
            let response = get_command(mem, args[1].clone());
            response.body
        } else {
            String::new()
        }
    } else if args[0] == String::from_str("SET") {
        let key = if args.len() > 1 {
            assert(args[1]@ == a[1]);
            args[1].clone()
        } else {
            String::new()
        };
        let value = if args.len() > 2 {
            assert(args[2]@ == a[2]);
            args[2].clone()
        } else {
            String::new()
        };
        set_command(key, value, mem);
        String::from_str("+OK\r\n")
    } else if args[0] == String::from_str("PING") {
        String::from_str("+PONG\r\n")
    } else {
        String::from_str("$-1\r\n")
    }
}

/// What a read gives back of a write, for a plain-text client: after `SET key value`, a
/// `GET key` is answered `+`, the value in lower case, and `\r\n`.
pub proof fn law_connection_get_after_set(
    m: Map<Seq<char>, Seq<char>>,
    key: Seq<char>,
    value: Seq<char>,
)
    ensures
        spec_connection_reply(
            spec_connection_store(m, seq!["SET"@, key, value]),
            seq!["GET"@, key],
        ) == "+"@ + lowercase(lowercase(value)) + "\r\n"@,
{
    reveal_strlit("GET");
    reveal_strlit("SET");
    let a = seq!["SET"@, key, value];
    assert("SET"@[0] != "GET"@[0]);
    assert(a[0] != "GET"@);
    assert(arg_or_empty(a, 1) == key);
    assert(arg_or_empty(a, 2) == value);
}

proof fn lemma_line_end_extend(s: Seq<u8>, t: Seq<u8>, i: int)
    requires
        0 <= i <= s.len(),
        i < line_end(s, i) <= s.len(),
        s[line_end(s, i) - 1] == 10u8,
    ensures
        line_end(s + t, i) == line_end(s, i),
    decreases s.len() - i,
{
    if i < s.len() && s[i] != 10u8 {
        lemma_line_end_extend(s, t, i + 1);
    }
}

proof fn lemma_line_extend(s: Seq<u8>, t: Seq<u8>)
    requires
        spec_line(s) is Ok,
    ensures
        line_len(s + t) == line_len(s),
        spec_line(s + t) == spec_line(s),
{
    lemma_line_len_bounds(s);
    lemma_line_end_extend(s, t, 0);
    let n = line_len(s);
    assert((s + t).take(n - 2) == s.take(n - 2));
}

proof fn lemma_bulk_extend(s: Seq<u8>, t: Seq<u8>)
    requires
        spec_bulk(s) is Ok,
    ensures
        spec_bulk(s + t) == spec_bulk(s),
{
    lemma_line_extend(s, t);
    lemma_line_len_bounds(s);
    let n = line_len(s);
    assert((s + t).skip(n) == s.skip(n) + t);
    if let Ok(h) = spec_line(s) {
        if let Some(len) = spec_parse_usize(h.drop_first()) {
            let r = s.skip(n);
            let len = len as int;
            if r.len() >= len + 2 {
                assert((r + t).take(len) == r.take(len));
            }
        }
    }
}

proof fn lemma_bulks_extend(s: Seq<u8>, t: Seq<u8>, n: nat)
    requires
        spec_bulks(s, n) is Ok,
    ensures
        spec_bulks(s + t, n) == spec_bulks(s, n),
        0 <= spec_bulks(s, n)->Ok_0.1 <= s.len(),
    decreases n,
{
    if n > 0 {
        lemma_bulks_extend(s, t, (n - 1) as nat);
        let used = spec_bulks(s, (n - 1) as nat)->Ok_0.1;
        assert((s + t).skip(used) == s.skip(used) + t);
        lemma_bulk_extend(s.skip(used), t);
        lemma_bulk_len(s.skip(used));
    }
}

/// A request that reads successfully reads the same whatever bytes follow it.
pub proof fn law_request_ignores_what_follows(s: Seq<u8>, t: Seq<u8>)
    requires
        spec_request(s) is Ok,
    ensures
        spec_request(s + t) == spec_request(s),
{
    lemma_line_extend(s, t);
    lemma_line_len_bounds(s);
    let n = line_len(s);
    assert((s + t).skip(n) == s.skip(n) + t);
    if let Ok(h) = spec_line(s) {
        if let Some(k) = spec_parse_usize(h.drop_first()) {
            lemma_bulks_extend(s.skip(n), t, k as nat);
        }
    }
}

/// Storing with `SET` and then reading with `GET` answers `+`, the stored (lower-case) value
/// in lower case, and `\r\n`: after `set_command(key, value)` has turned `before` into `after`,
/// `get_command(key)` on `after` has that body.
pub proof fn law_get_command_after_set_command(
    before: Map<Seq<char>, Seq<char>>,
    after: Map<Seq<char>, Seq<char>>,
    key: Seq<char>,
    value: Seq<char>,
)
    requires
        after == before.insert(lowercase(key), lowercase(value)),
    ensures
        spec_get_body(after, key) == "+"@ + lowercase(lowercase(value)) + "\r\n"@,
{
}

/// What a plain-text request does to the store: `SET key value` stores the value in lower case
/// under the key in lower case (a missing key or value counting as empty) and leaves every
/// other key as it was; every other request leaves the store as it was.
pub proof fn law_connection_store(m: Map<Seq<char>, Seq<char>>, a: Seq<Seq<char>>, other: Seq<char>)
    ensures
        ({
            let key = lowercase(if a.len() > 1 { a[1] } else { Seq::empty() });
            let value = lowercase(if a.len() > 2 { a[2] } else { Seq::empty() });
            let after = spec_connection_store(m, a);
            &&& a.len() > 0 && a[0] == "SET"@ ==> after.contains_key(key) && after[key] == value
            &&& a.len() > 0 && a[0] == "SET"@ && other != key ==> (after.contains_key(other)
                == m.contains_key(other) && (m.contains_key(other) ==> after[other] == m[other]))
            &&& !(a.len() > 0 && a[0] == "SET"@) ==> after == m
        }),
{
    lemma_command_names_differ();
}

/// What a plain-text request is answered: `GET key` with `+`, the value stored under the key in
/// lower case, in lower case, and `\r\n`, or `$-1\r\n` when nothing is stored there, and with
/// nothing when the key is missing; `SET` with `+OK\r\n`; `PING` with `+PONG\r\n`; anything
/// else with `$-1\r\n`.
pub proof fn law_connection_reply(m: Map<Seq<char>, Seq<char>>, a: Seq<Seq<char>>)
    ensures
        a.len() > 1 && a[0] == "GET"@ ==> spec_connection_reply(m, a) == (if m.contains_key(
            lowercase(a[1]),
        ) {
            "+"@ + lowercase(m[lowercase(a[1])]) + "\r\n"@
        } else {
            "$-1\r\n"@
        }),
        a.len() == 1 && a[0] == "GET"@ ==> spec_connection_reply(m, a) == Seq::<char>::empty(),
        a.len() > 0 && a[0] == "SET"@ ==> spec_connection_reply(m, a) == "+OK\r\n"@,
        a.len() > 0 && a[0] == "PING"@ ==> spec_connection_reply(m, a) == "+PONG\r\n"@,
        a.len() == 0 || (a[0] != "PING"@ && a[0] != "GET"@ && a[0] != "SET"@)
            ==> spec_connection_reply(m, a) == "$-1\r\n"@,
{
    lemma_command_names_differ();
}

} // verus!

use crate::header::{
    data_checksum_matches, field32, header_checksum_valid, lemma_nul_index_unique, name_prefix,
    spec_data_length, spec_dest_name, spec_message_type, spec_packet_number, spec_source_name,
    spec_version, MessageHeader,
};
use crate::VERSION;
use vstd::prelude::*;
use vstd::string::*;
use vstd::utf8::*;

verus! {

/// The message type codes of the wire protocol, in code order starting
/// at zero.
#[derive(Clone, Copy, Debug, PartialEq, Eq, Structural)]
pub enum MessageTypes {
    Login,
    Error,
    Who,
    Ack,
    Message,
    Disconnect,
    Nack,
}

/// The wire code of each message type.
pub open spec fn spec_type_code(t: MessageTypes) -> u8 {
    match t {
        MessageTypes::Login => 0,
        MessageTypes::Error => 1,
        MessageTypes::Who => 2,
        MessageTypes::Ack => 3,
        MessageTypes::Message => 4,
        MessageTypes::Disconnect => 5,
        MessageTypes::Nack => 6,
    }
}

impl MessageTypes {
    /// The code this type is sent as.
    pub fn as_u8(self) -> (r: u8)
        ensures
            r == spec_type_code(self),
    {
        match self {
            MessageTypes::Login => 0,
            MessageTypes::Error => 1,
            MessageTypes::Who => 2,
            MessageTypes::Ack => 3,
            MessageTypes::Message => 4,
            MessageTypes::Disconnect => 5,
            MessageTypes::Nack => 6,
        }
    }

    /// Decode a wire code; any code past the known ones is unknown and
    /// yields nothing.
    pub fn from_u8(v: u8) -> (r: Option<MessageTypes>)
        ensures
            r matches Some(t) ==> spec_type_code(t) == v,
            r is None <==> v > 6,
    {
        match v {
            0 => Some(MessageTypes::Login),
            1 => Some(MessageTypes::Error),
            2 => Some(MessageTypes::Who),
            3 => Some(MessageTypes::Ack),
            4 => Some(MessageTypes::Message),
            5 => Some(MessageTypes::Disconnect),
            6 => Some(MessageTypes::Nack),
            _ => None,
        }
    }
}

/// An ASCII text without NUL encodes byte-for-byte: same length, each
/// byte the character's code, and no NUL byte among them.
pub proof fn lemma_ascii_name_bytes(s: Seq<char>)
    requires
        is_ascii_chars(s),
        !s.contains('\0'),
    ensures
        encode_utf8(s).len() == s.len(),
        forall|i: int| 0 <= i < s.len() ==> encode_utf8(s)[i] == s[i] as u8,
        !encode_utf8(s).contains(0),
{
    is_ascii_chars_encode_utf8(s);
    broadcast use is_ascii_chars_nat_bound;

    if encode_utf8(s).contains(0u8) {
        let i = choose|i: int| 0 <= i < encode_utf8(s).len() && encode_utf8(s)[i] == 0u8;
        let c = s[i];
        assert(c as u8 == 0);
        assert((c as nat) < 128);
        assert(c as u32 == 0);
        char_u32_cast(c, c as u32);
        char_u32_cast('\0', '\0' as u32);
        assert(c == '\0');
        assert(s.contains('\0'));
    }
}

/// The name the server signs its own frames with.
pub proof fn lemma_server_name()
    ensures
        encode_utf8("server"@).len() == 6,
        !encode_utf8("server"@).contains(0),
{
    reveal_strlit("server");
    assert(is_ascii_chars("server"@));
    assert(!"server"@.contains('\0'));
    lemma_ascii_name_bytes("server"@);
}

/// The reserved destination that asks for a broadcast.
pub proof fn lemma_all_name()
    ensures
        encode_utf8("all"@).len() == 3,
        !encode_utf8("all"@).contains(0),
{
    reveal_strlit("all");
    assert(is_ascii_chars("all"@));
    assert(!"all"@.contains('\0'));
    lemma_ascii_name_bytes("all"@);
}

/// Build a server-originated frame header: zeroed, then type, version,
/// packet number, source "server", the given destination and, when a
/// body rides along, its length and digest; the header checksum is
/// computed last.
pub fn build_server_frame(
    m_type: MessageTypes,
    packet_num: u16,
    dest: &str,
    body: Option<&Vec<u8>>,
) -> (r: MessageHeader)
    requires
        dest.spec_bytes().len() <= 32,
        body matches Some(b) ==> b@.len() <= 65535,
    ensures
        spec_message_type(r.0@) == spec_type_code(m_type),
        spec_version(r.0@) == VERSION,
        spec_packet_number(r.0@) == packet_num,
        spec_source_name(r.0@) == encode_utf8("server"@),
        !dest.spec_bytes().contains(0) ==> spec_dest_name(r.0@) == dest.spec_bytes(),
        spec_data_length(r.0@) == (match body {
            Some(b) => b@.len() as int,
            None => 0,
        }),
        body matches Some(b) ==> data_checksum_matches(r.0@, b@),
        header_checksum_valid(r.0@),
{
    proof {
        lemma_server_name();
    }
    let mut h = MessageHeader::new();
    h.set_message_type(m_type.as_u8());
    h.set_version_num(VERSION);
    h.set_packet_num(packet_num);
    let src_res = h.set_source_username("server");
    proof {
        assert(src_res is Ok);
    }
    let ghost s_src = h.0@;
    let dst_res = h.set_dest_username(dest);
    proof {
        assert(dst_res is Ok);
    }
    let ghost s_dst = h.0@;
    let data_len: u16 = match body {
        Some(b) => b.len() as u16,
        None => 0,
    };
    h.set_data_packet_length(data_len);
    match body {
        Some(b) => {
            h.calculate_data_checksum(b);
        },
        None => {},
    }
    let ghost s_pre = h.0@;
    h.calculate_header_checksum();
    proof {
        let s = h.0@;
        // Fields below offset 70 are exactly as they stood before the
        // checksums were written.
        assert(forall|i: int| 0 <= i < 70 ==> s[i] == s_pre[i]);
        assert(forall|i: int| 0 <= i < 68 ==> s_pre[i] == s_dst[i]);
        assert(forall|i: int| 0 <= i < 35 ==> s_dst[i] == s_src[i]);
        // The source name field holds "server" and its terminator.
        let ws = encode_utf8("server"@);
        let fs = field32(s, 3);
        assert forall|i: int| 0 <= i < 6 implies fs[i] == ws[i] && fs[i] != 0 by {
            assert(s[3 + i] == s_src[3 + i]);
            if ws[i] == 0 {
                assert(ws.contains(0));
            }
        }
        assert(fs[6] == s_src[9]);
        assert(fs[6] == 0);
        lemma_nul_index_unique(fs, 6);
        assert(name_prefix(fs) =~= ws);
        // The destination name field holds `dest` when its bytes are
        // NUL-free.
        if !dest.spec_bytes().contains(0) {
            let wd = dest.spec_bytes();
            let fd = field32(s, 35);
            assert forall|i: int| 0 <= i < wd.len() implies fd[i] == wd[i] && fd[i] != 0 by {
                assert(s[35 + i] == s_dst[35 + i]);
                if wd[i] == 0 {
                    assert(wd.contains(0));
                }
            }
            if wd.len() < 32 {
                assert(fd[wd.len() as int] == s_dst[35 + wd.len() as int]);
                assert(fd[wd.len() as int] == 0);
            }
            lemma_nul_index_unique(fd, wd.len() as int);
            assert(name_prefix(fd) =~= wd);
        }
        // The data checksum field survives the header checksum write.
        match body {
            Some(b) => {
                assert(crate::header::stored_data_checksum(s) =~= crate::header::stored_data_checksum(
                    s_pre,
                ));
            },
            None => {},
        }
    }
    h
}

/// The shape of every server-built ERROR frame: type, version, source
/// "server", the given destination, and a digested body holding `text`.
pub open spec fn spec_error_frame(h: Seq<u8>, body: Seq<u8>, dest: Seq<u8>, text: Seq<u8>) -> bool {
    &&& spec_message_type(h) == 1
    &&& spec_version(h) == VERSION
    &&& spec_source_name(h) == encode_utf8("server"@)
    &&& spec_dest_name(h) == dest
    &&& body == text
    &&& spec_data_length(h) == text.len()
    &&& data_checksum_matches(h, body)
    &&& header_checksum_valid(h)
}

/// Build an ERROR frame to `dest` carrying `text` as its body.
pub fn build_error_frame(dest: &str, text: &str) -> (r: (MessageHeader, Vec<u8>))
    requires
        dest.spec_bytes().len() <= 32,
        text.spec_bytes().len() <= 65535,
    ensures
        r.1@ == text.spec_bytes(),
        !dest.spec_bytes().contains(0) ==> spec_error_frame(
            r.0.0@,
            r.1@,
            dest.spec_bytes(),
            text.spec_bytes(),
        ),
{
    let body = text.as_bytes_vec();
    let h = build_server_frame(MessageTypes::Error, 0, dest, Some(&body));
    (h, body)
}

/// The ERROR reply to a login under a name that is already taken.
pub fn duplicate_username_reply(dest: &str) -> (r: (MessageHeader, Vec<u8>))
    requires
        dest.spec_bytes().len() <= 32,
    ensures
        r.1@ == "Error. Username already in the system.".spec_bytes(),
        !dest.spec_bytes().contains(0) ==> spec_error_frame(
            r.0.0@,
            r.1@,
            dest.spec_bytes(),
            "Error. Username already in the system.".spec_bytes(),
        ),
{
    proof {
        reveal_strlit("Error. Username already in the system.");
        assert(is_ascii_chars("Error. Username already in the system."@));
        assert(!"Error. Username already in the system."@.contains('\0'));
        lemma_ascii_name_bytes("Error. Username already in the system."@);
    }
    build_error_frame(dest, "Error. Username already in the system.")
}

/// The ERROR reply to a LOGIN request on a session that is already
/// logged in.
pub fn already_logged_in_reply(dest: &str) -> (r: (MessageHeader, Vec<u8>))
    requires
        dest.spec_bytes().len() <= 32,
    ensures
        r.1@ == "You're already logged in dingus.".spec_bytes(),
        !dest.spec_bytes().contains(0) ==> spec_error_frame(
            r.0.0@,
            r.1@,
            dest.spec_bytes(),
            "You're already logged in dingus.".spec_bytes(),
        ),
{
    proof {
        reveal_strlit("You're already logged in dingus.");
        assert(is_ascii_chars("You're already logged in dingus."@));
        assert(!"You're already logged in dingus."@.contains('\0'));
        lemma_ascii_name_bytes("You're already logged in dingus."@);
    }
    build_error_frame(dest, "You're already logged in dingus.")
}

/// The ERROR reply to a chat message that carries no body.
pub fn empty_message_reply(dest: &str) -> (r: (MessageHeader, Vec<u8>))
    requires
        dest.spec_bytes().len() <= 32,
    ensures
        r.1@ == "The message you sent contains no content. It will not be forwarded.".spec_bytes(),
        !dest.spec_bytes().contains(0) ==> spec_error_frame(
            r.0.0@,
            r.1@,
            dest.spec_bytes(),
            "The message you sent contains no content. It will not be forwarded.".spec_bytes(),
        ),
{
    proof {
        reveal_strlit("The message you sent contains no content. It will not be forwarded.");
        assert(is_ascii_chars(
            "The message you sent contains no content. It will not be forwarded."@,
        ));
        assert(!"The message you sent contains no content. It will not be forwarded."@.contains(
            '\0',
        ));
        lemma_ascii_name_bytes(
            "The message you sent contains no content. It will not be forwarded."@,
        );
    }
    build_error_frame(dest, "The message you sent contains no content. It will not be forwarded.")
}

/// The announcement body sent to the room when a user joins.
pub fn join_body(name: &str) -> (r: Vec<u8>)
    ensures
        r@ == "User: ".spec_bytes() + name.spec_bytes() + " entered the room.".spec_bytes(),
        r@.len() == name.spec_bytes().len() + 24,
{
    proof {
        reveal_strlit("User: ");
        reveal_strlit(" entered the room.");
        assert(is_ascii_chars("User: "@));
        assert(is_ascii_chars(" entered the room."@));
        assert(!"User: "@.contains('\0'));
        assert(!" entered the room."@.contains('\0'));
        lemma_ascii_name_bytes("User: "@);
        lemma_ascii_name_bytes(" entered the room."@);
    }
    let mut out = "User: ".as_bytes_vec();
    let mut nb = name.as_bytes_vec();
    out.append(&mut nb);
    let mut tail = " entered the room.".as_bytes_vec();
    out.append(&mut tail);
    out
}

/// The announcement body sent to the room when a user leaves.
pub fn leave_body(name: &str) -> (r: Vec<u8>)
    ensures
        r@ == "User: ".spec_bytes() + name.spec_bytes()
            + " disconnected from the room.".spec_bytes(),
        r@.len() == name.spec_bytes().len() + 34,
{
    proof {
        reveal_strlit("User: ");
        reveal_strlit(" disconnected from the room.");
        assert(is_ascii_chars("User: "@));
        assert(is_ascii_chars(" disconnected from the room."@));
        assert(!"User: "@.contains('\0'));
        assert(!" disconnected from the room."@.contains('\0'));
        lemma_ascii_name_bytes("User: "@);
        lemma_ascii_name_bytes(" disconnected from the room."@);
    }
    let mut out = "User: ".as_bytes_vec();
    let mut nb = name.as_bytes_vec();
    out.append(&mut nb);
    let mut tail = " disconnected from the room.".as_bytes_vec();
    out.append(&mut tail);
    out
}

/// The MESSAGE frame announcing to the whole room that `name` joined.
pub fn join_broadcast(name: &str) -> (r: (MessageHeader, Vec<u8>))
    requires
        name.spec_bytes().len() <= 32,
    ensures
        r.1@ == "User: ".spec_bytes() + name.spec_bytes() + " entered the room.".spec_bytes(),
        spec_message_type(r.0.0@) == 4,
        spec_version(r.0.0@) == VERSION,
        spec_source_name(r.0.0@) == encode_utf8("server"@),
        spec_dest_name(r.0.0@) == encode_utf8("all"@),
        spec_data_length(r.0.0@) == r.1@.len(),
        data_checksum_matches(r.0.0@, r.1@),
        header_checksum_valid(r.0.0@),
{
    proof {
        lemma_all_name();
    }
    let body = join_body(name);
    let h = build_server_frame(MessageTypes::Message, 0, "all", Some(&body));
    (h, body)
}

/// The MESSAGE frame announcing to the whole room that `name` left.
pub fn leave_broadcast(name: &str) -> (r: (MessageHeader, Vec<u8>))
    requires
        name.spec_bytes().len() <= 32,
    ensures
        r.1@ == "User: ".spec_bytes() + name.spec_bytes()
            + " disconnected from the room.".spec_bytes(),
        spec_message_type(r.0.0@) == 4,
        spec_version(r.0.0@) == VERSION,
        spec_source_name(r.0.0@) == encode_utf8("server"@),
        spec_dest_name(r.0.0@) == encode_utf8("all"@),
        spec_data_length(r.0.0@) == r.1@.len(),
        data_checksum_matches(r.0.0@, r.1@),
        header_checksum_valid(r.0.0@),
{
    proof {
        lemma_all_name();
    }
    let body = leave_body(name);
    let h = build_server_frame(MessageTypes::Message, 0, "all", Some(&body));
    (h, body)
}

/// The WHO reply around a roster listing; a listing too long for the
/// length field yields nothing.
pub fn who_reply_frame(dest: &str, listing: &str) -> (r: Option<(MessageHeader, Vec<u8>)>)
    requires
        dest.spec_bytes().len() <= 32,
    ensures
        r is Some <==> listing.spec_bytes().len() <= 65535,
        r matches Some((h, body)) ==> body@ == listing.spec_bytes() && spec_message_type(h.0@) == 2
            && spec_version(h.0@) == VERSION && spec_source_name(h.0@) == encode_utf8("server"@)
            && (!dest.spec_bytes().contains(0) ==> spec_dest_name(h.0@) == dest.spec_bytes())
            && spec_data_length(h.0@) == listing.spec_bytes().len() && data_checksum_matches(
            h.0@,
            body@,
        ) && header_checksum_valid(h.0@),
{
    let body = listing.as_bytes_vec();
    if body.len() > 65535 {
        return None;
    }
    let h = build_server_frame(MessageTypes::Who, 0, dest, Some(&body));
    Some((h, body))
}

/// What the dispatch rules ask of a session for one incoming frame.
pub enum Reaction {
    /// A LOGIN on an already-active session: reply with an error.
    RejectLogin,
    /// ERROR, ACK, NACK and unknown types: do nothing.
    Ignore,
    /// WHO: reply with the roster listing.
    WhoReply,
    /// A chat message without a body: reply with an error, forward nothing.
    RejectEmptyMessage,
    /// A chat message whose destination name is not readable: drop it.
    MalformedMessage,
    /// A chat message whose body fails its digest: refuse it, forward
    /// nothing.
    NackMessage { packet_num: u16 },
    /// A sound chat message: confirm it first, then forward it to `dest`
    /// ("all" for a broadcast), preserving the inbound frame.
    AckThenForward { packet_num: u16, dest: String },
    /// DISCONNECT: announce the leave and end the session.
    DisconnectNotice,
}

/// The dispatch table: which reaction a frame with header bytes `h` and
/// body `body` must draw.
pub open spec fn spec_reaction(h: Seq<u8>, body: Option<Seq<u8>>, r: Reaction) -> bool {
    if spec_message_type(h) == 0 {
        r is RejectLogin
    } else if spec_message_type(h) == 2 {
        r is WhoReply
    } else if spec_message_type(h) == 5 {
        r is DisconnectNotice
    } else if spec_message_type(h) == 4 {
        match body {
            None => r is RejectEmptyMessage,
            Some(b) => if !data_checksum_matches(h, b) {
                r matches Reaction::NackMessage { packet_num } && packet_num == spec_packet_number(
                    h,
                )
            } else if !valid_utf8(spec_dest_name(h)) {
                r is MalformedMessage
            } else {
                r matches Reaction::AckThenForward { packet_num, dest } && packet_num
                    == spec_packet_number(h) && dest@ == decode_utf8(spec_dest_name(h))
            },
        }
    } else {
        r is Ignore
    }
}

/// Classify one incoming frame by its type field, checking the body
/// digest of a chat message; the confirmation of a sound message comes
/// before its forwarding.
pub fn classify_frame(header: &MessageHeader, body: Option<&Vec<u8>>) -> (r: Reaction)
    ensures
        spec_reaction(
            header.0@,
            match body {
                Some(b) => Some(b@),
                None => None,
            },
            r,
        ),
{
    let t = header.get_message_type();
    if t == 0 {
        return Reaction::RejectLogin;
    }
    if t == 2 {
        return Reaction::WhoReply;
    }
    if t == 5 {
        return Reaction::DisconnectNotice;
    }
    if t != 4 {
        return Reaction::Ignore;
    }
    match body {
        None => Reaction::RejectEmptyMessage,
        Some(b) => {
            if !header.verify_data_checksum(b) {
                Reaction::NackMessage { packet_num: header.get_packet_num() }
            } else {
                match header.get_dest_username() {
                    Ok(dest) => Reaction::AckThenForward {
                        packet_num: header.get_packet_num(),
                        dest,
                    },
                    Err(_) => Reaction::MalformedMessage,
                }
            }
        },
    }
}

/// What becomes of a session after one read off its stream.
pub enum SessionStep {
    /// Dispatch this reaction and keep receiving.
    Continue(Reaction),
    /// Close the connection; the leave is announced to the room only on
    /// an explicit disconnect, never on a failed read.
    Terminate { announce_leave: bool },
}

/// One turn of the receive loop: a framing error ends the session
/// silently, a DISCONNECT ends it with a leave announcement, and any
/// other frame is dispatched with the session kept alive.
pub fn session_step(read: Result<(MessageHeader, Option<Vec<u8>>), crate::codec::FrameError>) -> (r:
    SessionStep)
    ensures
        read matches Err(_) ==> (r matches SessionStep::Terminate { announce_leave }
            && !announce_leave),
        read matches Ok((h, b)) ==> (if spec_message_type(h.0@) == 5 {
            r matches SessionStep::Terminate { announce_leave } && announce_leave
        } else {
            r matches SessionStep::Continue(reaction) && spec_reaction(
                h.0@,
                match b {
                    Some(v) => Some(v@),
                    None => None,
                },
                reaction,
            )
        }),
{
    match read {
        Err(_) => SessionStep::Terminate { announce_leave: false },
        Ok((h, b)) => {
            if h.get_message_type() == 5 {
                SessionStep::Terminate { announce_leave: true }
            } else {
                let reaction = classify_frame(
                    &h,
                    match &b {
                        Some(v) => Some(v),
                        None => None,
                    },
                );
                SessionStep::Continue(reaction)
            }
        },
    }
}

/// How a login attempt ends.
pub enum LoginOutcome {
    /// The first frame is not a LOGIN request: close without replying.
    NotLogin,
    /// The claimed name is empty or not readable: close without replying.
    BadUsername,
    /// The name was free: the user is now in the roster, and the reply is
    /// a bare LOGIN frame confirming it.
    Admitted { username: String, reply: MessageHeader },
    /// The name was taken: the roster is unchanged, and the reply is an
    /// ERROR frame to be sent before closing.
    Rejected { username: String, reply: MessageHeader, reply_body: Vec<u8> },
}

/// Drive a login attempt from its first frame: check the type, read the
/// claimed name, and try to claim it in the roster.
pub fn process_login(
    roster: &mut crate::roster::SharedClients,
    header: &MessageHeader,
    session: u64,
) -> (r: LoginOutcome)
    requires
        old(roster).wf(),
    ensures
        final(roster).wf(),
        spec_message_type(header.0@) != 0 ==> r is NotLogin && final(roster).entries@ == old(roster).entries@,
        spec_message_type(header.0@) == 0 && !valid_utf8(spec_source_name(header.0@))
            ==> r is BadUsername && final(roster).entries@ == old(roster).entries@,
        spec_message_type(header.0@) == 0 && valid_utf8(spec_source_name(header.0@))
            && spec_source_name(header.0@).len() == 0 ==> r is BadUsername && final(roster).entries@ == old(roster).entries@,
        spec_message_type(header.0@) == 0 && valid_utf8(spec_source_name(header.0@))
            && spec_source_name(header.0@).len() > 0 && crate::roster::spec_contains(
            old(roster).entries@,
            decode_utf8(spec_source_name(header.0@)),
        ) ==> (r matches LoginOutcome::Rejected { username, reply, reply_body } && username@
            == decode_utf8(spec_source_name(header.0@)) && spec_error_frame(
            reply.0@,
            reply_body@,
            spec_source_name(header.0@),
            "Error. Username already in the system.".spec_bytes(),
        ) && final(roster).entries@ == old(roster).entries@),
        spec_message_type(header.0@) == 0 && valid_utf8(spec_source_name(header.0@))
            && spec_source_name(header.0@).len() > 0 && !crate::roster::spec_contains(
            old(roster).entries@,
            decode_utf8(spec_source_name(header.0@)),
        ) ==> (r matches LoginOutcome::Admitted { username, reply } && username@ == decode_utf8(
            spec_source_name(header.0@),
        ) && final(roster).entries@.len() == old(roster).entries@.len() + 1 && final(roster).entries@.last().name@ == decode_utf8(spec_source_name(header.0@)) && final(roster).entries@.last().session == session && final(roster).entries@.drop_last() == old(roster).entries@ && spec_message_type(reply.0@) == 0 && spec_version(reply.0@) == VERSION
            && spec_source_name(reply.0@) == encode_utf8("server"@) && spec_dest_name(reply.0@)
            == spec_source_name(header.0@) && spec_data_length(reply.0@) == 0
            && header_checksum_valid(reply.0@)),
{
    if header.get_message_type() != 0 {
        return LoginOutcome::NotLogin;
    }
    let username = match header.get_source_username() {
        Ok(u) => u,
        Err(_) => {
            return LoginOutcome::BadUsername;
        },
    };
    proof {
        crate::header::lemma_nul_index_bounds(field32(header.0@, 3));
        assert(encode_utf8(username@) == spec_source_name(header.0@));
        assert(spec_source_name(header.0@).len() <= 32);
        assert(!spec_source_name(header.0@).contains(0)) by {
            if spec_source_name(header.0@).contains(0) {
                let i = choose|i: int|
                    0 <= i < spec_source_name(header.0@).len() && spec_source_name(header.0@)[i]
                        == 0;
                assert(field32(header.0@, 3)[i] == 0);
            }
        }
    }
    if username.as_str().len() == 0 {
        return LoginOutcome::BadUsername;
    }
    match roster.add_user(username.as_str(), session) {
        Ok(_) => {
            let reply = build_server_frame(MessageTypes::Login, 0, username.as_str(), None);
            LoginOutcome::Admitted { username, reply }
        },
        Err(_) => {
            let (reply, reply_body) = duplicate_username_reply(username.as_str());
            LoginOutcome::Rejected { username, reply, reply_body }
        },
    }
}

} // verus!

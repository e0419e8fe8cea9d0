use vstd::prelude::*;

use vstd::utf8::{decode_utf8, valid_utf8};

use crate::common_fn;
use crate::common_fn::bit_operations::{remaining_length_ok, remaining_length_value};
use crate::models::client::{Client, find_client_index, lemma_find_client_index, session_ids_unique};
use crate::models::flags::ConnectFlags;

verus! {

/// What a CONNECT handler hands back on success: the CONNACK packet to send
/// and the keep-alive the connection's read timeout takes, already
/// stretched by the grace factor of one and a half.
#[derive(Debug)]
pub struct Response {
    pub return_packet: [u8; 4],
    pub keep_alive: u64,
}

/// Why a CONNECT was refused.  The connection closes either way; for an
/// unacceptable protocol level or a session conflict a CONNACK goes out
/// first.
#[derive(Debug, Clone, Copy, PartialEq, Eq, Structural)]
pub enum ConnectError {
    MalformedPacket,
    InvalidProtocolName,
    UnacceptableProtocolLevel,
    ReservedFlagSet,
    InvalidWillQos,
    SessionConflict,
}

impl ConnectError {
    /// The CONNACK owed to the peer before the close, where one is owed:
    /// return code one for an unacceptable protocol level, return code two
    /// for a session conflict.
    pub fn connack(&self) -> (r: Option<[u8; 4]>)
        ensures
            *self == ConnectError::UnacceptableProtocolLevel ==> r is Some && r->0@ == seq![
                32u8,
                2u8,
                0u8,
                1u8,
            ],
            *self == ConnectError::SessionConflict ==> r is Some && r->0@ == seq![
                32u8,
                2u8,
                0u8,
                2u8,
            ],
            *self != ConnectError::UnacceptableProtocolLevel && *self
                != ConnectError::SessionConflict ==> r is None,
    {
        match self {
            ConnectError::UnacceptableProtocolLevel => {
                let p: [u8; 4] = [32, 2, 0, 1];
                assert(p@ =~= seq![32u8, 2u8, 0u8, 1u8]);
                Some(p)
            }
            ConnectError::SessionConflict => {
                let p: [u8; 4] = [32, 2, 0, 2];
                assert(p@ =~= seq![32u8, 2u8, 0u8, 2u8]);
                Some(p)
            }
            _ => None,
        }
    }
}

/// The fields a CONNECT packet carries.
pub ghost struct ConnectFields {
    pub flags: ConnectFlags,
    pub keep_alive: int,
    pub client_id: Seq<char>,
    pub will_topic: Seq<char>,
    pub will_message: Seq<char>,
    pub username: Seq<char>,
    pub password: Seq<char>,
}

/// The two-byte big-endian length at `i`.
pub open spec fn lp_len(b: Seq<u8>, i: int) -> int {
    b[i] * 256 + b[i + 1]
}

/// Whether a length-prefixed field at `i` lies within the buffer.
pub open spec fn lp_ok(b: Seq<u8>, i: int) -> bool {
    i >= 0 && i + 2 <= b.len() && i + 2 + lp_len(b, i) <= b.len()
}

/// Whether the bytes of a length-prefixed field at `i` are valid UTF-8.
pub open spec fn lp_valid(b: Seq<u8>, i: int) -> bool {
    valid_utf8(b.subrange(i + 2, i + 2 + lp_len(b, i)))
}

/// The string of a length-prefixed field at `i`, decoded from UTF-8.
pub open spec fn lp_str(b: Seq<u8>, i: int) -> Seq<char> {
    decode_utf8(b.subrange(i + 2, i + 2 + lp_len(b, i)))
}

/// The index just past a length-prefixed field at `i`.
pub open spec fn lp_end(b: Seq<u8>, i: int) -> int {
    i + 2 + lp_len(b, i)
}

/// Reads a length-prefixed string at `i` when its flag asks for one: the
/// string and the index past it, the empty string and `i` when the flag is
/// clear, nothing when the buffer is too short.
pub open spec fn lp_read_if(b: Seq<u8>, i: int, cond: bool) -> Option<(Seq<char>, int)> {
    if !cond {
        Some((Seq::<char>::empty(), i))
    } else if lp_ok(b, i) && lp_valid(b, i) {
        Some((lp_str(b, i), lp_end(b, i)))
    } else {
        None
    }
}

/// The head of a CONNECT packet: after the remaining length come the
/// protocol name, which must be the four bytes of MQTT, the protocol
/// level, the connect-flags byte with its reserved bit clear and at most
/// one will-quality bit set, and the two keep-alive bytes.  Yields the
/// flags, the level, the keep-alive, and the index of the first
/// length-prefixed field.
pub open spec fn spec_connect_head(b: Seq<u8>, pl: int) -> Result<
    (ConnectFlags, u8, int, int),
    ConnectError,
> {
    let rl = remaining_length_value(b);
    if !remaining_length_ok(b) {
        Err(ConnectError::MalformedPacket)
    } else if rl > pl {
        Err(ConnectError::MalformedPacket)
    } else {
        let i0 = pl - rl;
        if !(lp_ok(b, i0) && lp_valid(b, i0)) {
            Err(ConnectError::MalformedPacket)
        } else if !(lp_len(b, i0) == 4 && b[i0 + 2] == 77 && b[i0 + 3] == 81 && b[i0 + 4] == 84
            && b[i0 + 5] == 84) {
            Err(ConnectError::InvalidProtocolName)
        } else {
            let i1 = lp_end(b, i0);
            if i1 + 1 >= b.len() {
                Err(ConnectError::MalformedPacket)
            } else {
                let level = b[i1];
                let fbyte = b[i1 + 1];
                if fbyte & 1 != 0 {
                    Err(ConnectError::ReservedFlagSet)
                } else {
                    let will_flag = fbyte & 4 != 0;
                    let f3 = will_flag && fbyte & 8 != 0;
                    let f4 = will_flag && fbyte & 16 != 0;
                    if f3 && f4 {
                        Err(ConnectError::InvalidWillQos)
                    } else {
                        let flags = ConnectFlags {
                            clean_session_flag: fbyte & 2 != 0,
                            will_flag,
                            will_qos_flag: if f4 {
                                2
                            } else if f3 {
                                1
                            } else {
                                0
                            },
                            will_retain_flag: will_flag && fbyte & 32 != 0,
                            password_flag: fbyte & 64 != 0,
                            username_flag: fbyte & 128 != 0,
                        };
                        let i2 = i1 + 2;
                        if i2 + 2 > b.len() {
                            Err(ConnectError::MalformedPacket)
                        } else {
                            Ok((flags, level, lp_len(b, i2), i2 + 2))
                        }
                    }
                }
            }
        }
    }
}

/// The length-prefixed fields of a CONNECT packet, in their required
/// order: client id always, will topic and will message when the will flag
/// is set, user name and password when their flags are set.  Yields the
/// five strings and the index past them.
pub open spec fn spec_connect_fields(b: Seq<u8>, flags: ConnectFlags, i3: int) -> Result<
    (Seq<char>, Seq<char>, Seq<char>, Seq<char>, Seq<char>, int),
    ConnectError,
> {
    if !(lp_ok(b, i3) && lp_valid(b, i3)) {
        Err(ConnectError::MalformedPacket)
    } else {
        let client_id = lp_str(b, i3);
        let i4 = lp_end(b, i3);
        match lp_read_if(b, i4, flags.will_flag) {
            None => Err(ConnectError::MalformedPacket),
            Some((will_topic, i5)) => match lp_read_if(b, i5, flags.will_flag) {
                None => Err(ConnectError::MalformedPacket),
                Some((will_message, i6)) => match lp_read_if(b, i6, flags.username_flag) {
                    None => Err(ConnectError::MalformedPacket),
                    Some((username, i7)) => match lp_read_if(b, i7, flags.password_flag) {
                        None => Err(ConnectError::MalformedPacket),
                        Some((password, i8)) => Ok(
                            (client_id, will_topic, will_message, username, password, i8),
                        ),
                    },
                },
            },
        }
    }
}

/// The meaning of a CONNECT packet: its head, then its fields, which must
/// consume the packet exactly; and the protocol level must be four.
pub open spec fn spec_parse_connect(b: Seq<u8>, pl: int) -> Result<ConnectFields, ConnectError> {
    match spec_connect_head(b, pl) {
        Err(e) => Err(e),
        Ok((flags, level, ka, i3)) => match spec_connect_fields(b, flags, i3) {
            Err(e) => Err(e),
            Ok((client_id, will_topic, will_message, username, password, i8)) => {
                if pl != i8 {
                    Err(ConnectError::MalformedPacket)
                } else if level != 4 {
                    Err(ConnectError::UnacceptableProtocolLevel)
                } else {
                    Ok(
                        ConnectFields {
                            flags,
                            keep_alive: ka,
                            client_id,
                            will_topic,
                            will_message,
                            username,
                            password,
                        },
                    )
                }
            },
        },
    }
}

/// Parses the fixed part of a CONNECT packet: protocol name and level,
/// connect flags, keep-alive.
fn parse_head(buffer: &[u8; 8192], packet_length: usize) -> (r: Result<
    (ConnectFlags, u8, u64, usize),
    ConnectError,
>)
    requires
        packet_length <= 8192,
    ensures
        ({
            let head = spec_connect_head(buffer@, packet_length as int);
            match r {
                Ok((flags, level, ka, i3)) => head == Ok::<_, ConnectError>(
                    (flags, level, ka as int, i3 as int),
                ),
                Err(e) => head is Err && e == head->Err_0,
            }
        }),
{
    let ghost b = buffer@;

    let remaining_length: usize;

    match common_fn::bit_operations::decode_remaining_length(buffer.as_slice()) {
        Ok(value) => {
            remaining_length = value;
        }
        Err(_) => {
            return Err(ConnectError::MalformedPacket);
        }
    }
    assert(remaining_length == remaining_length_value(b));

    if remaining_length > packet_length {
        return Err(ConnectError::MalformedPacket);
    }

    let current_index: usize = packet_length - remaining_length;

    // Control protocol length and name
    let after_name: usize;
    match common_fn::msb_lsb_reader::get_values(buffer.as_slice(), current_index, true) {
        Ok(response) => {
            if !(response.0 == 4 && buffer[current_index + 2] == 77
                && buffer[current_index + 3] == 81 && buffer[current_index + 4] == 84
                && buffer[current_index + 5] == 84) {
                return Err(ConnectError::InvalidProtocolName);
            }
            after_name = response.2;
        }
        Err(_) => {
            return Err(ConnectError::MalformedPacket);
        }
    }

    if after_name + 1 >= buffer.len() {
        return Err(ConnectError::MalformedPacket);
    }

    // Control protocol level: must be 4 for this protocol revision
    let protocol_level: u8 = buffer[after_name];

    // Control the connect flags
    let flags_byte: u8 = buffer[after_name + 1];

    // Reserved flag must be 0
    if flags_byte & 1 != 0 {
        return Err(ConnectError::ReservedFlagSet);
    }

    let will_flag: bool = flags_byte & 4 != 0;
    let mut flag_3: bool = flags_byte & 8 != 0;
    let mut flag_4: bool = flags_byte & 16 != 0;
    let mut flag_5: bool = flags_byte & 32 != 0;

    // Without a will, the will quality and retain bits are ignored
    if !will_flag {
        flag_3 = false;
        flag_4 = false;
        flag_5 = false;
    }

    if flag_3 && flag_4 {
        return Err(ConnectError::InvalidWillQos);
    }

    let mut qos_level: u8 = 0;
    if flag_3 {
        qos_level = 1;
    }
    if flag_4 {
        qos_level = 2;
    }

    let connect_flags: ConnectFlags = ConnectFlags::new(
        flags_byte & 2 != 0,
        will_flag,
        qos_level,
        flag_5,
        flags_byte & 64 != 0,
        flags_byte & 128 != 0,
    );

    // Read the keep alive bytes
    match common_fn::msb_lsb_reader::get_values(buffer.as_slice(), after_name + 2, false) {
        Ok(response) => Ok((connect_flags, protocol_level, response.0 as u64, response.2)),
        Err(_) => Err(ConnectError::MalformedPacket),
    }
}

/// Parses the length-prefixed fields of a CONNECT packet, in their
/// required order.
fn parse_fields(buffer: &[u8; 8192], flags: &ConnectFlags, start: usize) -> (r: Result<
    (String, String, String, String, String, usize),
    ConnectError,
>)
    ensures
        ({
            let fields = spec_connect_fields(buffer@, *flags, start as int);
            match r {
                Ok(out) => fields == Ok::<_, ConnectError>(
                    (out.0@, out.1@, out.2@, out.3@, out.4@, out.5 as int),
                ),
                Err(e) => fields is Err && e == fields->Err_0,
            }
        }),
{
    let mut current_index: usize = start;

    // Field order from here MUST be:
    // Client Identifier -> Will Topic -> Will Message -> User Name -> Password

    let client_id: String;

    // Read the Client Identifier
    match common_fn::msb_lsb_reader::get_values(buffer.as_slice(), current_index, true) {
        Ok(response) => {
            client_id = response.1;
            current_index = response.2;
        }
        Err(_) => {
            return Err(ConnectError::MalformedPacket);
        }
    }

    let mut will_topic: String = String::new();
    let mut will_message: String = String::new();

    if flags.will_flag {
        // Read the Will Topic
        match common_fn::msb_lsb_reader::get_values(buffer.as_slice(), current_index, true) {
            Ok(response) => {
                will_topic = response.1;
                current_index = response.2;
            }
            Err(_) => {
                return Err(ConnectError::MalformedPacket);
            }
        }

        // Read the Will Message
        match common_fn::msb_lsb_reader::get_values(buffer.as_slice(), current_index, true) {
            Ok(response) => {
                will_message = response.1;
                current_index = response.2;
            }
            Err(_) => {
                return Err(ConnectError::MalformedPacket);
            }
        }
    }

    let mut username: String = String::new();
    let mut password: String = String::new();

    if flags.username_flag {
        // Read the Username
        match common_fn::msb_lsb_reader::get_values(buffer.as_slice(), current_index, true) {
            Ok(response) => {
                username = response.1;
                current_index = response.2;
            }
            Err(_) => {
                return Err(ConnectError::MalformedPacket);
            }
        }
    }

    if flags.password_flag {
        // Read the Password
        match common_fn::msb_lsb_reader::get_values(buffer.as_slice(), current_index, true) {
            Ok(response) => {
                password = response.1;
                current_index = response.2;
            }
            Err(_) => {
                return Err(ConnectError::MalformedPacket);
            }
        }
    }

    Ok((client_id, will_topic, will_message, username, password, current_index))
}

/// The index of the first session with the given id, searched front to
/// back.
fn position_client(clients: &Vec<Client>, id: &String) -> (r: Option<usize>)
    ensures
        ({
            let i = find_client_index(clients@, id@);
            match r {
                Some(k) => k == i,
                None => i < 0,
            }
        }),
{
    proof {
        lemma_find_client_index(clients@, id@);
    }
    let mut k: usize = 0;
    while k < clients.len()
        invariant
            k <= clients@.len(),
            forall|j: int| 0 <= j < k ==> clients@[j].id@ != id@,
        decreases clients@.len() - k,
    {
        if clients[k].id == *id {
            proof {
                lemma_find_client_index(clients@, id@);
            }
            return Some(k);
        }
        k = k + 1;
    }
    None
}

/// Handles a CONNECT packet: validates it, installs or re-attaches the
/// session, and hands back the CONNACK and the stretched keep-alive.  A new
/// client id gains a fresh connected session and a CONNACK with the
/// session-present flag clear.  A known id whose session is live is a
/// session conflict.  A known id whose session is dormant re-attaches it:
/// connection data is replaced; with a clean session the will fields and
/// subscriptions reset and the session-present flag stays clear, otherwise
/// the session state is kept and the flag is set.  Law: a registry with at
/// most one session per client id keeps that property.
pub fn handle(
    buffer: [u8; 8192],
    packet_length: usize,
    socket_addr: String,
    clients: &mut Vec<Client>,
) -> (r: Result<Response, ConnectError>)
    requires
        packet_length <= 8192,
    ensures
        ({
            let parsed = spec_parse_connect(buffer@, packet_length as int);
            match r {
                Err(e) => {
                    &&& final(clients)@ == old(clients)@
                    &&& parsed is Err ==> e == parsed->Err_0
                    &&& parsed is Ok ==> {
                        let j = find_client_index(old(clients)@, parsed->Ok_0.client_id);
                        &&& e == ConnectError::SessionConflict
                        &&& j >= 0
                        &&& old(clients)@[j].is_connected
                    }
                },
                Ok(resp) => parsed is Ok && {
                    let f = parsed->Ok_0;
                    let j = find_client_index(old(clients)@, f.client_id);
                    &&& resp.keep_alive == f.keep_alive * 3 / 2
                    &&& j < 0 ==> {
                        let c = final(clients)@.last();
                        &&& final(clients)@.len() == old(clients)@.len() + 1
                        &&& forall|k: int|
                            0 <= k < old(clients)@.len() ==> final(clients)@[k] == old(clients)@[k]
                        &&& c.id@ == f.client_id
                        &&& c.will_topic@ == f.will_topic
                        &&& c.will_message@ == f.will_message
                        &&& c.is_connected
                        &&& c.subscriptions@ == Seq::<String>::empty()
                        &&& c.keep_alive == f.keep_alive
                        &&& c.username@ == f.username
                        &&& c.password@ == f.password
                        &&& c.socket_addr@ == socket_addr@
                        &&& c.connect_flags == f.flags
                        &&& resp.return_packet@ == seq![32u8, 2u8, 0u8, 0u8]
                    }
                    &&& j >= 0 ==> {
                        let oldc = old(clients)@[j];
                        let c = final(clients)@[j];
                        &&& !oldc.is_connected
                        &&& final(clients)@.len() == old(clients)@.len()
                        &&& forall|k: int|
                            0 <= k < old(clients)@.len() && k != j ==> final(clients)@[k] == old(
                                clients,
                            )@[k]
                        &&& c.id == oldc.id
                        &&& c.keep_alive == f.keep_alive
                        &&& c.username@ == f.username
                        &&& c.password@ == f.password
                        &&& c.connect_flags == f.flags
                        &&& c.socket_addr@ == socket_addr@
                        &&& c.is_connected
                        &&& f.flags.clean_session_flag ==> {
                            &&& c.will_topic@ == f.will_topic
                            &&& c.will_message@ == f.will_message
                            &&& c.subscriptions@ == Seq::<String>::empty()
                            &&& resp.return_packet@ == seq![32u8, 2u8, 0u8, 0u8]
                        }
                        &&& !f.flags.clean_session_flag ==> {
                            &&& c.will_topic == oldc.will_topic
                            &&& c.will_message == oldc.will_message
                            &&& c.subscriptions == oldc.subscriptions
                            &&& resp.return_packet@ == seq![32u8, 2u8, 1u8, 0u8]
                        }
                    }
                    &&& session_ids_unique(old(clients)@) ==> session_ids_unique(final(clients)@)
                },
            }
        }),
{
    let ghost b = buffer@;
    let ghost pl = packet_length as int;
    let ghost orig = clients@;

    let head = match parse_head(&buffer, packet_length) {
        Ok(h) => h,
        Err(e) => {
            return Err(e);
        }
    };
    let (connect_flags, protocol_level, keep_alive, fields_start): (ConnectFlags, u8, u64, usize) =
        head;

    let fields = match parse_fields(&buffer, &connect_flags, fields_start) {
        Ok(out) => out,
        Err(e) => {
            return Err(e);
        }
    };
    let (client_id, will_topic, will_message, username, password, fields_end): (
        String,
        String,
        String,
        String,
        String,
        usize,
    ) = fields;

    // The fields must consume the packet exactly
    if packet_length != fields_end {
        return Err(ConnectError::MalformedPacket);
    }

    if protocol_level != 4 {
        return Err(ConnectError::UnacceptableProtocolLevel);
    }

    let ghost parsed = spec_parse_connect(b, pl);
    assert(parsed is Ok);
    let ghost f = parsed->Ok_0;

    // Stretch the keep-alive by the grace factor before answering
    let response_keep_alive: u64 = (keep_alive * 3) / 2;

    let mut session_present_byte: u8 = 0;

    match position_client(clients, &client_id) {
        Some(j) => {
            proof {
                lemma_find_client_index(orig, client_id@);
            }
            let ghost gj = j as int;
            let mut existing_client: Client = clients.remove(j);
            if existing_client.is_connected {
                clients.insert(j, existing_client);
                proof {
                    assert(clients@ =~= orig);
                }
                return Err(ConnectError::SessionConflict);
            }

            // Re-attach the dormant session with the new connection data
            existing_client.keep_alive = keep_alive;
            existing_client.username = username;
            existing_client.password = password;
            existing_client.connect_flags = connect_flags;

            if existing_client.connect_flags.clean_session_flag {
                existing_client.will_topic = will_topic;
                existing_client.will_message = will_message;
                existing_client.subscriptions = Vec::new();
            } else {
                session_present_byte = 1;
            }

            existing_client.socket_addr = socket_addr;
            existing_client.is_connected = true;
            clients.insert(j, existing_client);
            proof {
                assert(clients@ =~= orig.update(gj, clients@[gj]));
                if session_ids_unique(orig) {
                    assert forall|x: int, y: int|
                        0 <= x < y < clients@.len() implies clients@[x].id@ != clients@[y].id@ by {
                        assert(clients@[x].id@ == orig[x].id@);
                        assert(clients@[y].id@ == orig[y].id@);
                    }
                }
            }
        }
        None => {
            proof {
                lemma_find_client_index(orig, client_id@);
            }
            let client: Client = Client::new(
                client_id,
                will_topic,
                will_message,
                keep_alive,
                username,
                password,
                socket_addr,
                connect_flags,
            );
            clients.push(client);
            proof {
                if session_ids_unique(orig) {
                    assert forall|x: int, y: int|
                        0 <= x < y < clients@.len() implies clients@[x].id@ != clients@[y].id@ by {
                        if y < orig.len() {
                            assert(clients@[x] == orig[x] && clients@[y] == orig[y]);
                        } else {
                            assert(clients@[x] == orig[x] && clients@[y].id@ == f.client_id);
                        }
                    }
                }
            }
        }
    }

    let connack_packet: [u8; 4] = [32, 2, session_present_byte, 0];
    proof {
        assert(connack_packet@ =~= seq![32u8, 2u8, session_present_byte, 0u8]);
    }

    Ok(Response { return_packet: connack_packet, keep_alive: response_keep_alive })
}

} // verus!

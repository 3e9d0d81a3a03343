//! Line-oriented wire codec.
//!
//! Each logical message is one line of structured text: a tagged object whose
//! string fields are escaped so that the encoded line never contains the line
//! terminator. Decoding parses exactly the lines this encoder produces, one
//! message per line.

use crate::protocol::{ClientMsg, FromClient, FromServer, ServerMsg};
use vstd::prelude::*;

verus! {

pub const QUOTE: u8 = 34;

pub const BACKSLASH: u8 = 92;

pub const NEWLINE: u8 = 10;

/// The lower-case hex digit for a nibble.
pub open spec fn hex_digit(n: u8) -> u8 {
    if n < 10 {
        (48 + n) as u8
    } else {
        (87 + n) as u8
    }
}

/// How one byte of a string field appears inside a quoted string on the wire.
pub open spec fn esc_byte(b: u8) -> Seq<u8> {
    if b == QUOTE {
        seq![BACKSLASH, QUOTE]
    } else if b == BACKSLASH {
        seq![BACKSLASH, BACKSLASH]
    } else if b == 8 {
        seq![BACKSLASH, 98]
    } else if b == 9 {
        seq![BACKSLASH, 116]
    } else if b == NEWLINE {
        seq![BACKSLASH, 110]
    } else if b == 12 {
        seq![BACKSLASH, 102]
    } else if b == 13 {
        seq![BACKSLASH, 114]
    } else if b < 32 {
        seq![BACKSLASH, 117, 48, 48, hex_digit(b / 16), hex_digit(b % 16)]
    } else {
        seq![b]
    }
}

/// The escaped form of a whole byte string.
pub open spec fn esc(s: Seq<u8>) -> Seq<u8>
    decreases s.len(),
{
    if s.len() == 0 {
        Seq::empty()
    } else {
        esc_byte(s[0]) + esc(s.drop_first())
    }
}

pub proof fn lemma_esc_append(a: Seq<u8>, b: Seq<u8>)
    ensures
        esc(a + b) == esc(a) + esc(b),
    decreases a.len(),
{
    if a.len() == 0 {
        assert(a + b =~= b);
        assert(esc(a) + esc(b) =~= esc(b));
    } else {
        assert((a + b).drop_first() =~= a.drop_first() + b);
        lemma_esc_append(a.drop_first(), b);
        assert(esc(a + b) =~= esc(a) + esc(b));
    }
}

pub proof fn lemma_esc_single(b: u8)
    ensures
        esc(seq![b]) == esc_byte(b),
{
    assert(seq![b].drop_first() =~= Seq::<u8>::empty());
    assert(seq![b][0] == b);
    assert(esc(Seq::<u8>::empty()) == Seq::<u8>::empty());
    assert(esc(seq![b]) == esc_byte(b) + esc(Seq::<u8>::empty()));
    assert(esc(seq![b]) =~= esc_byte(b));
}

fn hex_digit_exec(n: u8) -> (r: u8)
    requires
        n < 16,
    ensures
        r == hex_digit(n),
{
    if n < 10 {
        48 + n
    } else {
        87 + n
    }
}

/// Appends the escaped form of `s` to `out`.
fn escape_into(s: &Vec<u8>, out: &mut Vec<u8>)
    ensures
        final(out)@ == old(out)@ + esc(s@),
{
    let mut i: usize = 0;
    while i < s.len()
        invariant
            i <= s.len(),
            out@ == old(out)@ + esc(s@.take(i as int)),
        decreases s.len() - i,
    {
        let b = s[i];
        if b == 34 {
            out.push(92);
            out.push(34);
        } else if b == 92 {
            out.push(92);
            out.push(92);
        } else if b == 8 {
            out.push(92);
            out.push(98);
        } else if b == 9 {
            out.push(92);
            out.push(116);
        } else if b == 10 {
            out.push(92);
            out.push(110);
        } else if b == 12 {
            out.push(92);
            out.push(102);
        } else if b == 13 {
            out.push(92);
            out.push(114);
        } else if b < 32 {
            out.push(92);
            out.push(117);
            out.push(48);
            out.push(48);
            out.push(hex_digit_exec(b / 16));
            out.push(hex_digit_exec(b % 16));
        } else {
            out.push(b);
        }
        proof {
            assert(s@.take(i + 1) =~= s@.take(i as int) + seq![s@[i as int]]);
            lemma_esc_append(s@.take(i as int), seq![s@[i as int]]);
            lemma_esc_single(s@[i as int]);
            assert(out@ =~= old(out)@ + esc(s@.take(i + 1)));
        }
        i = i + 1;
    }
    proof {
        assert(s@.take(s@.len() as int) =~= s@);
    }
}

/// `{"Join":{"group_name":"` as bytes.
pub open spec fn join_prefix() -> Seq<u8> {
    seq![
        123u8, 34, 74, 111, 105, 110, 34, 58, 123, 34, 103, 114, 111, 117, 112, 95, 110, 97,
        109, 101, 34, 58, 34,
    ]
}

/// `{"Post":{"group_name":"` as bytes.
pub open spec fn post_prefix() -> Seq<u8> {
    seq![
        123u8, 34, 80, 111, 115, 116, 34, 58, 123, 34, 103, 114, 111, 117, 112, 95, 110, 97,
        109, 101, 34, 58, 34,
    ]
}

/// `{"Message":{"group_name":"` as bytes.
pub open spec fn message_prefix() -> Seq<u8> {
    seq![
        123u8, 34, 77, 101, 115, 115, 97, 103, 101, 34, 58, 123, 34, 103, 114, 111, 117, 112,
        95, 110, 97, 109, 101, 34, 58, 34,
    ]
}

/// `{"Error":"` as bytes.
pub open spec fn error_prefix() -> Seq<u8> {
    seq![123u8, 34, 69, 114, 114, 111, 114, 34, 58, 34]
}

/// `","message":"` as bytes.
pub open spec fn message_mid() -> Seq<u8> {
    seq![34u8, 44, 34, 109, 101, 115, 115, 97, 103, 101, 34, 58, 34]
}

/// `"}}` as bytes.
pub open spec fn obj_suffix() -> Seq<u8> {
    seq![34u8, 125, 125]
}

/// `"}` as bytes.
pub open spec fn error_suffix() -> Seq<u8> {
    seq![34u8, 125]
}

fn push_join_prefix(out: &mut Vec<u8>)
    ensures
        final(out)@ == old(out)@ + join_prefix(),
{
    out.push(123);
    out.push(34);
    out.push(74);
    out.push(111);
    out.push(105);
    out.push(110);
    out.push(34);
    out.push(58);
    out.push(123);
    out.push(34);
    out.push(103);
    out.push(114);
    out.push(111);
    out.push(117);
    out.push(112);
    out.push(95);
    out.push(110);
    out.push(97);
    out.push(109);
    out.push(101);
    out.push(34);
    out.push(58);
    out.push(34);
    proof {
        assert(out@ =~= old(out)@ + join_prefix());
    }
}

fn push_post_prefix(out: &mut Vec<u8>)
    ensures
        final(out)@ == old(out)@ + post_prefix(),
{
    out.push(123);
    out.push(34);
    out.push(80);
    out.push(111);
    out.push(115);
    out.push(116);
    out.push(34);
    out.push(58);
    out.push(123);
    out.push(34);
    out.push(103);
    out.push(114);
    out.push(111);
    out.push(117);
    out.push(112);
    out.push(95);
    out.push(110);
    out.push(97);
    out.push(109);
    out.push(101);
    out.push(34);
    out.push(58);
    out.push(34);
    proof {
        assert(out@ =~= old(out)@ + post_prefix());
    }
}

fn push_message_prefix(out: &mut Vec<u8>)
    ensures
        final(out)@ == old(out)@ + message_prefix(),
{
    out.push(123);
    out.push(34);
    out.push(77);
    out.push(101);
    out.push(115);
    out.push(115);
    out.push(97);
    out.push(103);
    out.push(101);
    out.push(34);
    out.push(58);
    out.push(123);
    out.push(34);
    out.push(103);
    out.push(114);
    out.push(111);
    out.push(117);
    out.push(112);
    out.push(95);
    out.push(110);
    out.push(97);
    out.push(109);
    out.push(101);
    out.push(34);
    out.push(58);
    out.push(34);
    proof {
        assert(out@ =~= old(out)@ + message_prefix());
    }
}

fn push_error_prefix(out: &mut Vec<u8>)
    ensures
        final(out)@ == old(out)@ + error_prefix(),
{
    out.push(123);
    out.push(34);
    out.push(69);
    out.push(114);
    out.push(114);
    out.push(111);
    out.push(114);
    out.push(34);
    out.push(58);
    out.push(34);
    proof {
        assert(out@ =~= old(out)@ + error_prefix());
    }
}

fn push_message_mid(out: &mut Vec<u8>)
    ensures
        final(out)@ == old(out)@ + message_mid(),
{
    out.push(34);
    out.push(44);
    out.push(34);
    out.push(109);
    out.push(101);
    out.push(115);
    out.push(115);
    out.push(97);
    out.push(103);
    out.push(101);
    out.push(34);
    out.push(58);
    out.push(34);
    proof {
        assert(out@ =~= old(out)@ + message_mid());
    }
}

/// One encoded client request, without its line terminator.
pub open spec fn client_line(m: ClientMsg) -> Seq<u8> {
    match m {
        ClientMsg::Join { group_name } => join_prefix() + esc(group_name) + obj_suffix(),
        ClientMsg::Post { group_name, message } => post_prefix() + esc(group_name)
            + message_mid() + esc(message) + obj_suffix(),
    }
}

/// One encoded server notification, without its line terminator.
pub open spec fn server_line(m: ServerMsg) -> Seq<u8> {
    match m {
        ServerMsg::Message { group_name, message } => message_prefix() + esc(group_name)
            + message_mid() + esc(message) + obj_suffix(),
        ServerMsg::Error(text) => error_prefix() + esc(text) + error_suffix(),
    }
}

/// A full frame: the encoded line followed by the single line terminator.
pub open spec fn client_frame(m: ClientMsg) -> Seq<u8> {
    client_line(m) + seq![NEWLINE]
}

/// A full frame: the encoded line followed by the single line terminator.
pub open spec fn server_frame(m: ServerMsg) -> Seq<u8> {
    server_line(m) + seq![NEWLINE]
}

/// Encodes a client request as one self-delimiting frame.
pub fn encode_from_client(p: &FromClient) -> (r: Vec<u8>)
    ensures
        r@ == client_frame(p@),
{
    let mut out: Vec<u8> = Vec::new();
    match p {
        FromClient::Join { group_name } => {
            push_join_prefix(&mut out);
            escape_into(group_name, &mut out);
            out.push(34);
            out.push(125);
            out.push(125);
        }
        FromClient::Post { group_name, message } => {
            push_post_prefix(&mut out);
            escape_into(group_name, &mut out);
            push_message_mid(&mut out);
            escape_into(message, &mut out);
            out.push(34);
            out.push(125);
            out.push(125);
        }
    }
    out.push(10);
    proof {
        assert(out@ =~= client_frame(p@));
    }
    out
}

/// Encodes a server notification as one self-delimiting frame.
pub fn encode_from_server(p: &FromServer) -> (r: Vec<u8>)
    ensures
        r@ == server_frame(p@),
{
    let mut out: Vec<u8> = Vec::new();
    match p {
        FromServer::Message { group_name, message } => {
            push_message_prefix(&mut out);
            escape_into(group_name, &mut out);
            push_message_mid(&mut out);
            escape_into(message, &mut out);
            out.push(34);
            out.push(125);
            out.push(125);
        }
        FromServer::Error(text) => {
            push_error_prefix(&mut out);
            escape_into(text, &mut out);
            out.push(34);
            out.push(125);
        }
    }
    out.push(10);
    proof {
        assert(out@ =~= server_frame(p@));
    }
    out
}

/// `,"message":"` as bytes: what follows the group-name string in a two-field
/// object.
pub open spec fn mid_rest() -> Seq<u8> {
    seq![44u8, 34, 109, 101, 115, 115, 97, 103, 101, 34, 58, 34]
}

fn push_mid_rest(out: &mut Vec<u8>)
    ensures
        final(out)@ == old(out)@ + mid_rest(),
{
    out.push(44);
    out.push(34);
    out.push(109);
    out.push(101);
    out.push(115);
    out.push(115);
    out.push(97);
    out.push(103);
    out.push(101);
    out.push(34);
    out.push(58);
    out.push(34);
    proof {
        assert(out@ =~= old(out)@ + mid_rest());
    }
}

/// The byte named by a single-character escape, if the character is one of
/// the accepted escapes.
pub open spec fn unesc_char(c: u8) -> Option<u8> {
    if c == QUOTE {
        Some(QUOTE)
    } else if c == BACKSLASH {
        Some(BACKSLASH)
    } else if c == 47 {
        Some(47u8)
    } else if c == 98 {
        Some(8u8)
    } else if c == 116 {
        Some(9u8)
    } else if c == 110 {
        Some(NEWLINE)
    } else if c == 102 {
        Some(12u8)
    } else if c == 114 {
        Some(13u8)
    } else {
        None
    }
}

/// The value of a lower-case hex digit.
pub open spec fn hex_val(c: u8) -> Option<u8> {
    if 48 <= c <= 57 {
        Some((c - 48) as u8)
    } else if 97 <= c <= 102 {
        Some((c - 87) as u8)
    } else {
        None
    }
}

/// Parses a quoted string body: consumes bytes and escape sequences up to and
/// including the closing quote, yielding the unescaped string and the rest of
/// the input.
pub open spec fn sp_parse_str(s: Seq<u8>) -> Option<(Seq<u8>, Seq<u8>)>
    decreases s.len(),
{
    if s.len() == 0 {
        None
    } else if s[0] == QUOTE {
        Some((Seq::empty(), s.drop_first()))
    } else if s[0] == BACKSLASH {
        if s.len() < 2 {
            None
        } else if s[1] == 117 {
            if s.len() < 6 {
                None
            } else if s[2] == 48 && s[3] == 48 && hex_val(s[4]) is Some && hex_val(s[5]) is Some {
                let b = ((hex_val(s[4]).unwrap() * 16 + hex_val(s[5]).unwrap()) as u8);
                match sp_parse_str(s.skip(6)) {
                    Some(p) => Some((seq![b] + p.0, p.1)),
                    None => None,
                }
            } else {
                None
            }
        } else {
            match unesc_char(s[1]) {
                Some(b) => match sp_parse_str(s.skip(2)) {
                    Some(p) => Some((seq![b] + p.0, p.1)),
                    None => None,
                },
                None => None,
            }
        }
    } else if s[0] >= 32 {
        match sp_parse_str(s.drop_first()) {
            Some(p) => Some((seq![s[0]] + p.0, p.1)),
            None => None,
        }
    } else {
        None
    }
}

/// `p` stands at the front of `s`.
pub open spec fn has_prefix(s: Seq<u8>, p: Seq<u8>) -> bool {
    p.len() <= s.len() && s.take(p.len() as int) == p
}

/// The client request encoded by the line, if any.
pub open spec fn decode_client_line(s: Seq<u8>) -> Option<ClientMsg> {
    if has_prefix(s, join_prefix()) {
        match sp_parse_str(s.skip(join_prefix().len() as int)) {
            Some(p) => if p.1 == seq![125u8, 125u8] {
                Some(ClientMsg::Join { group_name: p.0 })
            } else {
                None
            },
            None => None,
        }
    } else if has_prefix(s, post_prefix()) {
        match sp_parse_str(s.skip(post_prefix().len() as int)) {
            Some(p) => if has_prefix(p.1, mid_rest()) {
                match sp_parse_str(p.1.skip(mid_rest().len() as int)) {
                    Some(q) => if q.1 == seq![125u8, 125u8] {
                        Some(ClientMsg::Post { group_name: p.0, message: q.0 })
                    } else {
                        None
                    },
                    None => None,
                }
            } else {
                None
            },
            None => None,
        }
    } else {
        None
    }
}

/// The server notification encoded by the line, if any.
pub open spec fn decode_server_line(s: Seq<u8>) -> Option<ServerMsg> {
    if has_prefix(s, message_prefix()) {
        match sp_parse_str(s.skip(message_prefix().len() as int)) {
            Some(p) => if has_prefix(p.1, mid_rest()) {
                match sp_parse_str(p.1.skip(mid_rest().len() as int)) {
                    Some(q) => if q.1 == seq![125u8, 125u8] {
                        Some(ServerMsg::Message { group_name: p.0, message: q.0 })
                    } else {
                        None
                    },
                    None => None,
                }
            } else {
                None
            },
            None => None,
        }
    } else if has_prefix(s, error_prefix()) {
        match sp_parse_str(s.skip(error_prefix().len() as int)) {
            Some(p) => if p.1 == seq![125u8] {
                Some(ServerMsg::Error(p.0))
            } else {
                None
            },
            None => None,
        }
    } else {
        None
    }
}

fn hex_val_exec(c: u8) -> (r: Option<u8>)
    ensures
        r == hex_val(c),
{
    if 48 <= c && c <= 57 {
        Some(c - 48)
    } else if 97 <= c && c <= 102 {
        Some(c - 87)
    } else {
        None
    }
}

fn unesc_char_exec(c: u8) -> (r: Option<u8>)
    ensures
        r == unesc_char(c),
{
    if c == 34 {
        Some(34)
    } else if c == 92 {
        Some(92)
    } else if c == 47 {
        Some(47)
    } else if c == 98 {
        Some(8)
    } else if c == 116 {
        Some(9)
    } else if c == 110 {
        Some(10)
    } else if c == 102 {
        Some(12)
    } else if c == 114 {
        Some(13)
    } else {
        None
    }
}

/// Parses a quoted string body starting at position `i`, returning the
/// unescaped bytes and the position just past the closing quote.
fn parse_string_at(s: &Vec<u8>, i: usize) -> (r: Option<(Vec<u8>, usize)>)
    requires
        i <= s.len(),
    ensures
        match r {
            Some(p) => i < p.1 <= s.len() && sp_parse_str(s@.skip(i as int)) == Some(
                (p.0@, s@.skip(p.1 as int)),
            ),
            None => sp_parse_str(s@.skip(i as int)) is None,
        },
    decreases s.len() - i,
{
    if i >= s.len() {
        return None;
    }
    let b = s[i];
    proof {
        assert(s@.skip(i as int)[0] == s@[i as int]);
        assert(s@.skip(i as int).drop_first() =~= s@.skip(i + 1));
    }
    if b == 34 {
        return Some((Vec::new(), i + 1));
    }
    if b == 92 {
        if s.len() - i < 2 {
            return None;
        }
        let c = s[i + 1];
        proof {
            assert(s@.skip(i as int)[1] == s@[i + 1]);
        }
        if c == 117 {
            if s.len() - i < 6 {
                return None;
            }
            proof {
                assert(s@.skip(i as int)[2] == s@[i + 2]);
                assert(s@.skip(i as int)[3] == s@[i + 3]);
                assert(s@.skip(i as int)[4] == s@[i + 4]);
                assert(s@.skip(i as int)[5] == s@[i + 5]);
                assert(s@.skip(i as int).skip(6) =~= s@.skip(i + 6));
            }
            if s[i + 2] != 48 || s[i + 3] != 48 {
                return None;
            }
            let h1 = hex_val_exec(s[i + 4]);
            let h2 = hex_val_exec(s[i + 5]);
            match (h1, h2) {
                (Some(v1), Some(v2)) => {
                    let decoded: u8 = v1 * 16 + v2;
                    match parse_string_at(s, i + 6) {
                        Some((mut t, j)) => {
                            t.insert(0, decoded);
                            proof {
                                assert(t@ =~= seq![decoded] + t@.drop_first());
                            }
                            Some((t, j))
                        }
                        None => None,
                    }
                }
                _ => None,
            }
        } else {
            match unesc_char_exec(c) {
                Some(decoded) => {
                    proof {
                        assert(s@.skip(i as int).skip(2) =~= s@.skip(i + 2));
                    }
                    match parse_string_at(s, i + 2) {
                        Some((mut t, j)) => {
                            t.insert(0, decoded);
                            proof {
                                assert(t@ =~= seq![decoded] + t@.drop_first());
                            }
                            Some((t, j))
                        }
                        None => None,
                    }
                }
                None => None,
            }
        }
    } else if b >= 32 {
        match parse_string_at(s, i + 1) {
            Some((mut t, j)) => {
                t.insert(0, b);
                proof {
                    assert(t@ =~= seq![b] + t@.drop_first());
                }
                Some((t, j))
            }
            None => None,
        }
    } else {
        None
    }
}

/// Does `p` stand at position `at` of `s`?
fn matches_at(p: &Vec<u8>, s: &Vec<u8>, at: usize) -> (r: bool)
    requires
        at <= s.len(),
    ensures
        r == has_prefix(s@.skip(at as int), p@),
{
    if s.len() - at < p.len() {
        proof {
            assert(s@.skip(at as int).len() < p@.len());
        }
        return false;
    }
    let mut k: usize = 0;
    while k < p.len()
        invariant
            k <= p.len(),
            at <= s.len(),
            p.len() <= s.len() - at,
            forall|j: int| 0 <= j < k ==> s@[at + j] == p@[j],
        decreases p.len() - k,
    {
        if s[at + k] != p[k] {
            proof {
                assert(s@.skip(at as int).take(p@.len() as int)[k as int] == s@[at + k]);
            }
            return false;
        }
        k = k + 1;
    }
    proof {
        assert(s@.skip(at as int).take(p@.len() as int) =~= p@);
    }
    true
}

/// Decodes one line (without its terminator) as a client request. Returns
/// the request exactly when the line is a well-formed encoding; any other
/// line is a protocol error, reported as `None`.
#[verifier::rlimit(60)]
pub fn decode_from_client(line: &Vec<u8>) -> (r: Option<FromClient>)
    ensures
        match r {
            Some(p) => decode_client_line(line@) == Some(p@),
            None => decode_client_line(line@) is None,
        },
{
    let mut jp: Vec<u8> = Vec::new();
    push_join_prefix(&mut jp);
    let mut pp: Vec<u8> = Vec::new();
    push_post_prefix(&mut pp);
    proof {
        assert(line@.skip(0) =~= line@);
    }
    if matches_at(&jp, line, 0) {
        match parse_string_at(line, jp.len()) {
            Some((g, j)) => {
                if line.len() - j == 2 && line[j] == 125 && line[j + 1] == 125 {
                    proof {
                        assert(line@.skip(j as int) =~= seq![125u8, 125u8]);
                    }
                    Some(FromClient::Join { group_name: g })
                } else {
                    proof {
                        assert(line@.skip(j as int) != seq![125u8, 125u8]) by {
                            if line@.skip(j as int).len() == 2 {
                                assert(line@.skip(j as int)[0] == line@[j as int]);
                                assert(line@.skip(j as int)[1] == line@[j + 1]);
                            }
                        }
                    }
                    None
                }
            }
            None => None,
        }
    } else if matches_at(&pp, line, 0) {
        match parse_string_at(line, pp.len()) {
            Some((g, j)) => {
                let mut mr: Vec<u8> = Vec::new();
                push_mid_rest(&mut mr);
                if matches_at(&mr, line, j) {
                    proof {
                        assert(line@.skip(j as int).skip(mid_rest().len() as int) =~= line@.skip(
                            j + mid_rest().len(),
                        ));
                    }
                    match parse_string_at(line, j + 12) {
                        Some((m, j2)) => {
                            if line.len() - j2 == 2 && line[j2] == 125 && line[j2 + 1] == 125 {
                                proof {
                                    assert(line@.skip(j2 as int) =~= seq![125u8, 125u8]);
                                }
                                Some(FromClient::Post { group_name: g, message: m })
                            } else {
                                proof {
                                    assert(line@.skip(j2 as int) != seq![125u8, 125u8]) by {
                                        if line@.skip(j2 as int).len() == 2 {
                                            assert(line@.skip(j2 as int)[0] == line@[j2 as int]);
                                            assert(line@.skip(j2 as int)[1] == line@[j2 + 1]);
                                        }
                                    }
                                }
                                None
                            }
                        }
                        None => None,
                    }
                } else {
                    None
                }
            }
            None => None,
        }
    } else {
        None
    }
}

/// Decodes one line (without its terminator) as a server notification.
/// Returns the notification exactly when the line is a well-formed encoding;
/// any other line is a protocol error, reported as `None`.
pub fn decode_from_server(line: &Vec<u8>) -> (r: Option<FromServer>)
    ensures
        match r {
            Some(p) => decode_server_line(line@) == Some(p@),
            None => decode_server_line(line@) is None,
        },
{
    let mut mp: Vec<u8> = Vec::new();
    push_message_prefix(&mut mp);
    let mut ep: Vec<u8> = Vec::new();
    push_error_prefix(&mut ep);
    proof {
        assert(line@.skip(0) =~= line@);
    }
    if matches_at(&mp, line, 0) {
        match parse_string_at(line, mp.len()) {
            Some((g, j)) => {
                let mut mr: Vec<u8> = Vec::new();
                push_mid_rest(&mut mr);
                if matches_at(&mr, line, j) {
                    proof {
                        assert(line@.skip(j as int).skip(mid_rest().len() as int) =~= line@.skip(
                            j + mid_rest().len(),
                        ));
                    }
                    match parse_string_at(line, j + 12) {
                        Some((m, j2)) => {
                            if line.len() - j2 == 2 && line[j2] == 125 && line[j2 + 1] == 125 {
                                proof {
                                    assert(line@.skip(j2 as int) =~= seq![125u8, 125u8]);
                                }
                                Some(FromServer::Message { group_name: g, message: m })
                            } else {
                                proof {
                                    assert(line@.skip(j2 as int) != seq![125u8, 125u8]) by {
                                        if line@.skip(j2 as int).len() == 2 {
                                            assert(line@.skip(j2 as int)[0] == line@[j2 as int]);
                                            assert(line@.skip(j2 as int)[1] == line@[j2 + 1]);
                                        }
                                    }
                                }
                                None
                            }
                        }
                        None => None,
                    }
                } else {
                    None
                }
            }
            None => None,
        }
    } else if matches_at(&ep, line, 0) {
        match parse_string_at(line, ep.len()) {
            Some((t, j)) => {
                if line.len() - j == 1 && line[j] == 125 {
                    proof {
                        assert(line@.skip(j as int) =~= seq![125u8]);
                    }
                    Some(FromServer::Error(t))
                } else {
                    proof {
                        assert(line@.skip(j as int) != seq![125u8]) by {
                            if line@.skip(j as int).len() == 1 {
                                assert(line@.skip(j as int)[0] == line@[j as int]);
                            }
                        }
                    }
                    None
                }
            }
            None => None,
        }
    } else {
        None
    }
}


pub proof fn lemma_hex_inverts(n: u8)
    requires
        n < 16,
    ensures
        hex_val(hex_digit(n)) == Some(n),
{
}

/// Parsing picks up exactly what escaping laid down: the escaped form of `g`,
/// a closing quote, and then anything at all parses back to `g` with that
/// tail untouched.
pub proof fn lemma_parse_esc(g: Seq<u8>, tail: Seq<u8>)
    ensures
        sp_parse_str(esc(g) + seq![QUOTE] + tail) == Some((g, tail)),
    decreases g.len(),
{
    let s = esc(g) + seq![QUOTE] + tail;
    if g.len() == 0 {
        assert(s =~= seq![QUOTE] + tail);
        assert(s[0] == QUOTE);
        assert(s.drop_first() =~= tail);
        assert(g =~= Seq::<u8>::empty());
    } else {
        let b = g[0];
        let g1 = g.drop_first();
        lemma_parse_esc(g1, tail);
        let rest = esc(g1) + seq![QUOTE] + tail;
        assert(esc(g) == esc_byte(b) + esc(g1));
        assert(s =~= esc_byte(b) + rest);
        assert(seq![b] + g1 =~= g);
        if b == QUOTE || b == BACKSLASH || b == 8 || b == 9 || b == NEWLINE || b == 12 || b
            == 13 {
            assert(s[0] == BACKSLASH);
            assert(s[1] == esc_byte(b)[1]);
            assert(s[1] != 117);
            assert(unesc_char(s[1]) == Some(b));
            assert(s.skip(2) =~= rest);
            assert(sp_parse_str(s) == Some((seq![b] + g1, tail)));
        } else if b < 32 {
            assert(s[0] == BACKSLASH);
            assert(s[1] == 117);
            assert(s[2] == 48);
            assert(s[3] == 48);
            assert(s[4] == hex_digit(b / 16));
            assert(s[5] == hex_digit(b % 16));
            lemma_hex_inverts(b / 16);
            lemma_hex_inverts(b % 16);
            assert((b / 16) * 16 + (b % 16) == b);
            assert(s.skip(6) =~= rest);
            assert(sp_parse_str(s) == Some((seq![b] + g1, tail)));
        } else {
            assert(s[0] == b);
            assert(b != QUOTE && b != BACKSLASH && b >= 32);
            assert(s.drop_first() =~= rest);
            assert(sp_parse_str(s) == Some((seq![b] + g1, tail)));
        }
    }
}

/// Decoding an encoded client request gives back the request, whatever byte
/// strings its fields hold.
pub proof fn lemma_client_round_trip(m: ClientMsg)
    ensures
        decode_client_line(client_line(m)) == Some(m),
{
    match m {
        ClientMsg::Join { group_name: g } => {
            let line = client_line(m);
            assert(line =~= join_prefix() + esc(g) + obj_suffix());
            assert(line.take(join_prefix().len() as int) =~= join_prefix());
            assert(has_prefix(line, join_prefix()));
            assert(line.skip(join_prefix().len() as int) =~= esc(g) + seq![QUOTE] + seq![
                125u8, 125u8]);
            lemma_parse_esc(g, seq![125u8, 125u8]);
        }
        ClientMsg::Post { group_name: g, message: msg } => {
            let line = client_line(m);
            assert(line =~= post_prefix() + esc(g) + message_mid() + esc(msg) + obj_suffix());
            assert(!has_prefix(line, join_prefix())) by {
                assert(line[2] == post_prefix()[2]);
                if has_prefix(line, join_prefix()) {
                    assert(line.take(join_prefix().len() as int)[2] == line[2]);
                }
            }
            assert(line.take(post_prefix().len() as int) =~= post_prefix());
            assert(has_prefix(line, post_prefix()));
            let tail1 = mid_rest() + esc(msg) + seq![QUOTE] + seq![125u8, 125u8];
            assert(line.skip(post_prefix().len() as int) =~= esc(g) + seq![QUOTE] + tail1);
            lemma_parse_esc(g, tail1);
            assert(tail1.take(mid_rest().len() as int) =~= mid_rest());
            assert(has_prefix(tail1, mid_rest()));
            assert(tail1.skip(mid_rest().len() as int) =~= esc(msg) + seq![QUOTE] + seq![
                125u8, 125u8]);
            lemma_parse_esc(msg, seq![125u8, 125u8]);
        }
    }
}

/// Decoding an encoded server notification gives back the notification,
/// whatever byte strings its fields hold.
pub proof fn lemma_server_round_trip(m: ServerMsg)
    ensures
        decode_server_line(server_line(m)) == Some(m),
{
    match m {
        ServerMsg::Message { group_name: g, message: msg } => {
            let line = server_line(m);
            assert(line =~= message_prefix() + esc(g) + message_mid() + esc(msg)
                + obj_suffix());
            assert(line.take(message_prefix().len() as int) =~= message_prefix());
            assert(has_prefix(line, message_prefix()));
            let tail1 = mid_rest() + esc(msg) + seq![QUOTE] + seq![125u8, 125u8];
            assert(line.skip(message_prefix().len() as int) =~= esc(g) + seq![QUOTE] + tail1);
            lemma_parse_esc(g, tail1);
            assert(tail1.take(mid_rest().len() as int) =~= mid_rest());
            assert(has_prefix(tail1, mid_rest()));
            assert(tail1.skip(mid_rest().len() as int) =~= esc(msg) + seq![QUOTE] + seq![
                125u8, 125u8]);
            lemma_parse_esc(msg, seq![125u8, 125u8]);
        }
        ServerMsg::Error(t) => {
            let line = server_line(m);
            assert(line =~= error_prefix() + esc(t) + error_suffix());
            assert(!has_prefix(line, message_prefix())) by {
                assert(line[2] == error_prefix()[2]);
                if has_prefix(line, message_prefix()) {
                    assert(line.take(message_prefix().len() as int)[2] == line[2]);
                }
            }
            assert(line.take(error_prefix().len() as int) =~= error_prefix());
            assert(has_prefix(line, error_prefix()));
            assert(line.skip(error_prefix().len() as int) =~= esc(t) + seq![QUOTE] + seq![
                125u8]);
            lemma_parse_esc(t, seq![125u8]);
        }
    }
}

/// Escaping never emits the line terminator.
pub proof fn lemma_esc_no_newline(s: Seq<u8>)
    ensures
        forall|i: int| 0 <= i < esc(s).len() ==> esc(s)[i] != NEWLINE,
    decreases s.len(),
{
    if s.len() != 0 {
        lemma_esc_no_newline(s.drop_first());
        assert(forall|i: int|
            0 <= i < esc_byte(s[0]).len() ==> esc_byte(s[0])[i] != NEWLINE);
        assert forall|i: int| 0 <= i < esc(s).len() implies esc(s)[i] != NEWLINE by {
            if i < esc_byte(s[0]).len() {
                assert(esc(s)[i] == esc_byte(s[0])[i]);
            } else {
                assert(esc(s)[i] == esc(s.drop_first())[i - esc_byte(s[0]).len()]);
            }
        }
    }
}

/// An encoded client frame is one complete line: it ends with the line
/// terminator and contains no other occurrence of it. Interleaving-free
/// writes of whole frames therefore keep a one-message-per-line stream.
pub proof fn lemma_client_frame_one_line(m: ClientMsg)
    ensures
        client_frame(m).len() > 0,
        client_frame(m).last() == NEWLINE,
        forall|i: int| 0 <= i < client_frame(m).len() - 1 ==> client_frame(m)[i] != NEWLINE,
{
    match m {
        ClientMsg::Join { group_name: g } => {
            lemma_esc_no_newline(g);
            assert forall|i: int|
                0 <= i < client_frame(m).len() - 1 implies client_frame(m)[i] != NEWLINE by {
                let line = join_prefix() + esc(g) + obj_suffix();
                assert(client_frame(m)[i] == line[i]);
                if i < join_prefix().len() {
                    assert(line[i] == join_prefix()[i]);
                } else if i < join_prefix().len() + esc(g).len() {
                    assert(line[i] == esc(g)[i - join_prefix().len()]);
                } else {
                    assert(line[i] == obj_suffix()[i - join_prefix().len() - esc(g).len()]);
                }
            }
        }
        ClientMsg::Post { group_name: g, message: msg } => {
            lemma_esc_no_newline(g);
            lemma_esc_no_newline(msg);
            assert forall|i: int|
                0 <= i < client_frame(m).len() - 1 implies client_frame(m)[i] != NEWLINE by {
                let line = post_prefix() + esc(g) + message_mid() + esc(msg) + obj_suffix();
                assert(client_frame(m)[i] == line[i]);
                let n1 = post_prefix().len() as int;
                let n2 = n1 + esc(g).len();
                let n3 = n2 + message_mid().len();
                let n4 = n3 + esc(msg).len();
                if i < n1 {
                    assert(line[i] == post_prefix()[i]);
                } else if i < n2 {
                    assert(line[i] == esc(g)[i - n1]);
                } else if i < n3 {
                    assert(line[i] == message_mid()[i - n2]);
                } else if i < n4 {
                    assert(line[i] == esc(msg)[i - n3]);
                } else {
                    assert(line[i] == obj_suffix()[i - n4]);
                }
            }
        }
    }
}

/// The server-side counterpart of `lemma_client_frame_one_line`.
pub proof fn lemma_server_frame_one_line(m: ServerMsg)
    ensures
        server_frame(m).len() > 0,
        server_frame(m).last() == NEWLINE,
        forall|i: int| 0 <= i < server_frame(m).len() - 1 ==> server_frame(m)[i] != NEWLINE,
{
    match m {
        ServerMsg::Message { group_name: g, message: msg } => {
            lemma_esc_no_newline(g);
            lemma_esc_no_newline(msg);
            assert forall|i: int|
                0 <= i < server_frame(m).len() - 1 implies server_frame(m)[i] != NEWLINE by {
                let line = message_prefix() + esc(g) + message_mid() + esc(msg) + obj_suffix();
                assert(server_frame(m)[i] == line[i]);
                let n1 = message_prefix().len() as int;
                let n2 = n1 + esc(g).len();
                let n3 = n2 + message_mid().len();
                let n4 = n3 + esc(msg).len();
                if i < n1 {
                    assert(line[i] == message_prefix()[i]);
                } else if i < n2 {
                    assert(line[i] == esc(g)[i - n1]);
                } else if i < n3 {
                    assert(line[i] == message_mid()[i - n2]);
                } else if i < n4 {
                    assert(line[i] == esc(msg)[i - n3]);
                } else {
                    assert(line[i] == obj_suffix()[i - n4]);
                }
            }
        }
        ServerMsg::Error(t) => {
            lemma_esc_no_newline(t);
            assert forall|i: int|
                0 <= i < server_frame(m).len() - 1 implies server_frame(m)[i] != NEWLINE by {
                let line = error_prefix() + esc(t) + error_suffix();
                assert(server_frame(m)[i] == line[i]);
                if i < error_prefix().len() {
                    assert(line[i] == error_prefix()[i]);
                } else if i < error_prefix().len() + esc(t).len() {
                    assert(line[i] == esc(t)[i - error_prefix().len()]);
                } else {
                    assert(line[i] == error_suffix()[i - error_prefix().len() - esc(t).len()]);
                }
            }
        }
    }
}

} // verus!

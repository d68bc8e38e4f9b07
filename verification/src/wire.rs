//! The signaling wire format: tagged JSON messages exchanged through the
//! signaling server, with a verified encoder and parser.
//!
//! Every message is one JSON object whose `type` field selects the variant;
//! the remaining fields are strings (or one boolean).  The encoder emits the
//! canonical form: fields in a fixed order, no extra whitespace, strings
//! escaped as JSON demands (`"`, `\`, and control characters).

use vstd::prelude::*;
use vstd::string::StrSliceExecFns;

verus! {

/// A signaling message, as carried over the wire.
#[derive(Debug)]
pub enum SignalingMessage {
    Join { room_id: String, client_id: String },
    Leave { room_id: String, client_id: String },
    Ping { room_id: String, client_id: String },
    Welcome { room_id: String, client_id: String },
    Offer { sdp: String, room_id: String },
    Answer { sdp: String, room_id: String },
    IceCandidate { candidate: String, room_id: String },
    VoiceActivity { is_speaking: bool, client_id: String, room_id: String },
}

/// The mathematical value of a signaling message: the same variants over
/// character sequences.
#[verifier::ext_equal]
pub enum MessageView {
    Join { room_id: Seq<char>, client_id: Seq<char> },
    Leave { room_id: Seq<char>, client_id: Seq<char> },
    Ping { room_id: Seq<char>, client_id: Seq<char> },
    Welcome { room_id: Seq<char>, client_id: Seq<char> },
    Offer { sdp: Seq<char>, room_id: Seq<char> },
    Answer { sdp: Seq<char>, room_id: Seq<char> },
    IceCandidate { candidate: Seq<char>, room_id: Seq<char> },
    VoiceActivity { is_speaking: bool, client_id: Seq<char>, room_id: Seq<char> },
}

impl View for SignalingMessage {
    type V = MessageView;

    open spec fn view(&self) -> MessageView {
        match self {
            SignalingMessage::Join { room_id, client_id } => MessageView::Join {
                room_id: room_id@,
                client_id: client_id@,
            },
            SignalingMessage::Leave { room_id, client_id } => MessageView::Leave {
                room_id: room_id@,
                client_id: client_id@,
            },
            SignalingMessage::Ping { room_id, client_id } => MessageView::Ping {
                room_id: room_id@,
                client_id: client_id@,
            },
            SignalingMessage::Welcome { room_id, client_id } => MessageView::Welcome {
                room_id: room_id@,
                client_id: client_id@,
            },
            SignalingMessage::Offer { sdp, room_id } => MessageView::Offer {
                sdp: sdp@,
                room_id: room_id@,
            },
            SignalingMessage::Answer { sdp, room_id } => MessageView::Answer {
                sdp: sdp@,
                room_id: room_id@,
            },
            SignalingMessage::IceCandidate { candidate, room_id } => MessageView::IceCandidate {
                candidate: candidate@,
                room_id: room_id@,
            },
            SignalingMessage::VoiceActivity { is_speaking, client_id, room_id } => {
                MessageView::VoiceActivity {
                    is_speaking: *is_speaking,
                    client_id: client_id@,
                    room_id: room_id@,
                }
            },
        }
    }
}

/// Lowercase hexadecimal digit for a value below 16.
pub open spec fn hex_digit(v: int) -> char {
    if v == 0 {
        '0'
    } else if v == 1 {
        '1'
    } else if v == 2 {
        '2'
    } else if v == 3 {
        '3'
    } else if v == 4 {
        '4'
    } else if v == 5 {
        '5'
    } else if v == 6 {
        '6'
    } else if v == 7 {
        '7'
    } else if v == 8 {
        '8'
    } else if v == 9 {
        '9'
    } else if v == 10 {
        'a'
    } else if v == 11 {
        'b'
    } else if v == 12 {
        'c'
    } else if v == 13 {
        'd'
    } else if v == 14 {
        'e'
    } else {
        'f'
    }
}

/// JSON escape of one character: quote and backslash get a two-character
/// escape, the common control characters their short names, any other
/// control character a `\u00xx` escape, and everything else stands as is.
pub open spec fn escape_char(c: char) -> Seq<char> {
    if c == '"' {
        seq!['\\', '"']
    } else if c == '\\' {
        seq!['\\', '\\']
    } else if c == '\n' {
        seq!['\\', 'n']
    } else if c == '\r' {
        seq!['\\', 'r']
    } else if c == '\t' {
        seq!['\\', 't']
    } else if (c as u32) < 32 {
        seq!['\\', 'u', '0', '0', hex_digit((c as u32) as int / 16), hex_digit(
            (c as u32) as int % 16,
        )]
    } else {
        seq![c]
    }
}

/// JSON escape of a whole string.
pub open spec fn escape_chars(s: Seq<char>) -> Seq<char>
    decreases s.len(),
{
    if s.len() == 0 {
        Seq::empty()
    } else {
        escape_char(s[0]) + escape_chars(s.skip(1))
    }
}

/// Escaping distributes over concatenation.
pub proof fn lemma_escape_append(a: Seq<char>, b: Seq<char>)
    ensures
        escape_chars(a + b) == escape_chars(a) + escape_chars(b),
    decreases a.len(),
{
    if a.len() == 0 {
        assert(a + b =~= b);
        assert(escape_chars(a) + escape_chars(b) =~= escape_chars(b));
    } else {
        lemma_escape_append(a.skip(1), b);
        assert((a + b).skip(1) =~= a.skip(1) + b);
        assert((a + b)[0] == a[0]);
        assert(escape_char(a[0]) + (escape_chars(a.skip(1)) + escape_chars(b)) =~= (escape_char(
            a[0],
        ) + escape_chars(a.skip(1))) + escape_chars(b));
    }
}

/// The canonical encoding of a signaling message.
pub open spec fn encode_msg(m: MessageView) -> Seq<char> {
    match m {
        MessageView::Join { room_id, client_id } => "{\"type\":\"Join\",\"room_id\":\""@
            + escape_chars(room_id) + "\",\"client_id\":\""@ + escape_chars(client_id) + "\"}"@,
        MessageView::Leave { room_id, client_id } => "{\"type\":\"Leave\",\"room_id\":\""@
            + escape_chars(room_id) + "\",\"client_id\":\""@ + escape_chars(client_id) + "\"}"@,
        MessageView::Ping { room_id, client_id } => "{\"type\":\"Ping\",\"room_id\":\""@
            + escape_chars(room_id) + "\",\"client_id\":\""@ + escape_chars(client_id) + "\"}"@,
        MessageView::Welcome { room_id, client_id } => "{\"type\":\"Welcome\",\"room_id\":\""@
            + escape_chars(room_id) + "\",\"client_id\":\""@ + escape_chars(client_id) + "\"}"@,
        MessageView::Offer { sdp, room_id } => "{\"type\":\"Offer\",\"room_id\":\""@
            + escape_chars(room_id) + "\",\"sdp\":\""@ + escape_chars(sdp) + "\"}"@,
        MessageView::Answer { sdp, room_id } => "{\"type\":\"Answer\",\"room_id\":\""@
            + escape_chars(room_id) + "\",\"sdp\":\""@ + escape_chars(sdp) + "\"}"@,
        MessageView::IceCandidate { candidate, room_id } => {
            "{\"type\":\"IceCandidate\",\"room_id\":\""@ + escape_chars(room_id)
                + "\",\"candidate\":\""@ + escape_chars(candidate) + "\"}"@
        },
        MessageView::VoiceActivity { is_speaking, client_id, room_id } => {
            "{\"type\":\"VoiceActivity\",\"room_id\":\""@ + escape_chars(room_id)
                + "\",\"client_id\":\""@ + escape_chars(client_id) + "\",\"is_speaking\":"@ + (
            if is_speaking {
                "true}"@
            } else {
                "false}"@
            })
        },
    }
}

/// Lowercase hexadecimal digit character for a value below 16.
fn hex_digit_char(v: u32) -> (r: char)
    requires
        v < 16,
    ensures
        r == hex_digit(v as int),
{
    let r = match v {
        0 => '0',
        1 => '1',
        2 => '2',
        3 => '3',
        4 => '4',
        5 => '5',
        6 => '6',
        7 => '7',
        8 => '8',
        9 => '9',
        10 => 'a',
        11 => 'b',
        12 => 'c',
        13 => 'd',
        14 => 'e',
        _ => 'f',
    };
    r
}

/// Appends the JSON escape of one character.
fn push_escaped_char(out: &mut String, c: char)
    ensures
        final(out)@ == old(out)@ + escape_char(c),
{
    if c == '"' {
        out.push('\\');
        out.push('"');
    } else if c == '\\' {
        out.push('\\');
        out.push('\\');
    } else if c == '\n' {
        out.push('\\');
        out.push('n');
    } else if c == '\r' {
        out.push('\\');
        out.push('r');
    } else if c == '\t' {
        out.push('\\');
        out.push('t');
    } else if (c as u32) < 32 {
        out.push('\\');
        out.push('u');
        out.push('0');
        out.push('0');
        out.push(hex_digit_char((c as u32) / 16));
        out.push(hex_digit_char((c as u32) % 16));
    } else {
        out.push(c);
    }
    proof {
        assert(final(out)@ =~= old(out)@ + escape_char(c));
    }
}

/// Appends the JSON escape of a whole string.
fn push_escaped(out: &mut String, s: &str)
    ensures
        final(out)@ == old(out)@ + escape_chars(s@),
{
    let len = s.unicode_len();
    let mut i: usize = 0;
    proof {
        assert(s@.subrange(0, 0) =~= Seq::<char>::empty());
        assert(old(out)@ + escape_chars(s@.subrange(0, 0)) =~= old(out)@);
    }
    while i < len
        invariant
            i <= len,
            len == s@.len(),
            out@ == old(out)@ + escape_chars(s@.subrange(0, i as int)),
        decreases len - i,
    {
        let c = s.get_char(i);
        push_escaped_char(out, c);
        proof {
            let pre = s@.subrange(0, i as int);
            let post = s@.subrange(0, i + 1);
            assert(post =~= pre + seq![s@[i as int]]);
            lemma_escape_append(pre, seq![s@[i as int]]);
            let single = seq![s@[i as int]];
            assert(single.skip(1) =~= Seq::<char>::empty());
            assert(escape_chars(single) == escape_char(single[0]) + escape_chars(single.skip(1)));
            assert(escape_chars(single) =~= escape_char(s@[i as int]));
            assert(out@ =~= old(out)@ + escape_chars(post));
        }
        i = i + 1;
    }
    proof {
        assert(s@.subrange(0, s@.len() as int) =~= s@);
    }
}

/// Encodes a message in its canonical wire form.
pub fn encode_message(m: &SignalingMessage) -> (r: String)
    ensures
        r@ == encode_msg(m@),
{
    let mut out = String::new();
    match m {
        SignalingMessage::Join { room_id, client_id } => {
            out.push_str("{\"type\":\"Join\",\"room_id\":\"");
            push_escaped(&mut out, room_id.as_str());
            out.push_str("\",\"client_id\":\"");
            push_escaped(&mut out, client_id.as_str());
            out.push_str("\"}");
        },
        SignalingMessage::Leave { room_id, client_id } => {
            out.push_str("{\"type\":\"Leave\",\"room_id\":\"");
            push_escaped(&mut out, room_id.as_str());
            out.push_str("\",\"client_id\":\"");
            push_escaped(&mut out, client_id.as_str());
            out.push_str("\"}");
        },
        SignalingMessage::Ping { room_id, client_id } => {
            out.push_str("{\"type\":\"Ping\",\"room_id\":\"");
            push_escaped(&mut out, room_id.as_str());
            out.push_str("\",\"client_id\":\"");
            push_escaped(&mut out, client_id.as_str());
            out.push_str("\"}");
        },
        SignalingMessage::Welcome { room_id, client_id } => {
            out.push_str("{\"type\":\"Welcome\",\"room_id\":\"");
            push_escaped(&mut out, room_id.as_str());
            out.push_str("\",\"client_id\":\"");
            push_escaped(&mut out, client_id.as_str());
            out.push_str("\"}");
        },
        SignalingMessage::Offer { sdp, room_id } => {
            out.push_str("{\"type\":\"Offer\",\"room_id\":\"");
            push_escaped(&mut out, room_id.as_str());
            out.push_str("\",\"sdp\":\"");
            push_escaped(&mut out, sdp.as_str());
            out.push_str("\"}");
        },
        SignalingMessage::Answer { sdp, room_id } => {
            out.push_str("{\"type\":\"Answer\",\"room_id\":\"");
            push_escaped(&mut out, room_id.as_str());
            out.push_str("\",\"sdp\":\"");
            push_escaped(&mut out, sdp.as_str());
            out.push_str("\"}");
        },
        SignalingMessage::IceCandidate { candidate, room_id } => {
            out.push_str("{\"type\":\"IceCandidate\",\"room_id\":\"");
            push_escaped(&mut out, room_id.as_str());
            out.push_str("\",\"candidate\":\"");
            push_escaped(&mut out, candidate.as_str());
            out.push_str("\"}");
        },
        SignalingMessage::VoiceActivity { is_speaking, client_id, room_id } => {
            out.push_str("{\"type\":\"VoiceActivity\",\"room_id\":\"");
            push_escaped(&mut out, room_id.as_str());
            out.push_str("\",\"client_id\":\"");
            push_escaped(&mut out, client_id.as_str());
            out.push_str("\",\"is_speaking\":");
            if *is_speaking {
                out.push_str("true}");
            } else {
                out.push_str("false}");
            }
        },
    }
    proof {
        assert(out@ =~= encode_msg(m@));
    }
    out
}

/// Value of a lowercase hexadecimal digit; 16 stands for "not a digit".
pub open spec fn hex_val(c: char) -> int {
    if c == '0' {
        0
    } else if c == '1' {
        1
    } else if c == '2' {
        2
    } else if c == '3' {
        3
    } else if c == '4' {
        4
    } else if c == '5' {
        5
    } else if c == '6' {
        6
    } else if c == '7' {
        7
    } else if c == '8' {
        8
    } else if c == '9' {
        9
    } else if c == 'a' {
        10
    } else if c == 'b' {
        11
    } else if c == 'c' {
        12
    } else if c == 'd' {
        13
    } else if c == 'e' {
        14
    } else if c == 'f' {
        15
    } else {
        16
    }
}

/// The control character with a given code point below 32.
pub open spec fn low_char(v: int) -> char {
    if v == 0 {
        '\u{00}'
    } else if v == 1 {
        '\u{01}'
    } else if v == 2 {
        '\u{02}'
    } else if v == 3 {
        '\u{03}'
    } else if v == 4 {
        '\u{04}'
    } else if v == 5 {
        '\u{05}'
    } else if v == 6 {
        '\u{06}'
    } else if v == 7 {
        '\u{07}'
    } else if v == 8 {
        '\u{08}'
    } else if v == 9 {
        '\u{09}'
    } else if v == 10 {
        '\u{0a}'
    } else if v == 11 {
        '\u{0b}'
    } else if v == 12 {
        '\u{0c}'
    } else if v == 13 {
        '\u{0d}'
    } else if v == 14 {
        '\u{0e}'
    } else if v == 15 {
        '\u{0f}'
    } else if v == 16 {
        '\u{10}'
    } else if v == 17 {
        '\u{11}'
    } else if v == 18 {
        '\u{12}'
    } else if v == 19 {
        '\u{13}'
    } else if v == 20 {
        '\u{14}'
    } else if v == 21 {
        '\u{15}'
    } else if v == 22 {
        '\u{16}'
    } else if v == 23 {
        '\u{17}'
    } else if v == 24 {
        '\u{18}'
    } else if v == 25 {
        '\u{19}'
    } else if v == 26 {
        '\u{1a}'
    } else if v == 27 {
        '\u{1b}'
    } else if v == 28 {
        '\u{1c}'
    } else if v == 29 {
        '\u{1d}'
    } else if v == 30 {
        '\u{1e}'
    } else {
        '\u{1f}'
    }
}

/// The character named by a short escape (`\"`, `\\`, `\n`, `\r`, `\t`).
pub open spec fn unescape_short(e: char) -> char {
    if e == '"' {
        '"'
    } else if e == '\\' {
        '\\'
    } else if e == 'n' {
        '\n'
    } else if e == 'r' {
        '\r'
    } else {
        '\t'
    }
}

/// The literal `lit` occurs in `s` at position `i`.
pub open spec fn match_at(s: Seq<char>, i: int, lit: Seq<char>) -> bool {
    0 <= i && i + lit.len() <= s.len() && s.subrange(i, i + lit.len()) == lit
}

/// Scans a JSON string body starting at `i` (just after the opening quote),
/// accumulating the unescaped content in `acc`; stops after the closing
/// quote and yields the content together with the position after it.
pub open spec fn scan_string_from(s: Seq<char>, i: int, acc: Seq<char>) -> Option<
    (Seq<char>, int),
>
    decreases s.len() - i,
{
    if i < 0 || i >= s.len() {
        None
    } else if s[i] == '"' {
        Some((acc, i + 1))
    } else if s[i] == '\\' {
        if i + 1 < s.len() {
            let e = s[i + 1];
            if e == '"' || e == '\\' || e == 'n' || e == 'r' || e == 't' {
                scan_string_from(s, i + 2, acc.push(unescape_short(e)))
            } else if e == 'u' {
                if i + 5 < s.len() && s[i + 2] == '0' && s[i + 3] == '0' && hex_val(s[i + 4]) < 16
                    && hex_val(s[i + 5]) < 16 && hex_val(s[i + 4]) * 16 + hex_val(s[i + 5]) < 32 {
                    scan_string_from(
                        s,
                        i + 6,
                        acc.push(low_char(hex_val(s[i + 4]) * 16 + hex_val(s[i + 5]))),
                    )
                } else {
                    None
                }
            } else {
                None
            }
        } else {
            None
        }
    } else if (s[i] as u32) < 32 {
        None
    } else {
        scan_string_from(s, i + 1, acc.push(s[i]))
    }
}

/// After a message prefix: one string field, a separating literal, a second
/// string field, and the closing brace ending the input.
pub open spec fn parse_tail2(s: Seq<char>, i: int, mid: Seq<char>) -> Option<
    (Seq<char>, Seq<char>),
> {
    match scan_string_from(s, i, Seq::empty()) {
        Some((a, j)) => if match_at(s, j, mid) {
            match scan_string_from(s, j + mid.len(), Seq::empty()) {
                Some((b, k)) => if k + 1 == s.len() && s[k] == '}' {
                    Some((a, b))
                } else {
                    None
                },
                None => None,
            }
        } else {
            None
        },
        None => None,
    }
}

/// After the `VoiceActivity` prefix: room, client, and the boolean tail.
pub open spec fn parse_va_tail(s: Seq<char>, i: int) -> Option<(Seq<char>, Seq<char>, bool)> {
    match scan_string_from(s, i, Seq::empty()) {
        Some((room, j)) => if match_at(s, j, ",\"client_id\":\""@) {
            match scan_string_from(s, j + ",\"client_id\":\""@.len(), Seq::empty()) {
                Some((client, k)) => if match_at(s, k, ",\"is_speaking\":true}"@) && k
                    + ",\"is_speaking\":true}"@.len() == s.len() {
                    Some((room, client, true))
                } else if match_at(s, k, ",\"is_speaking\":false}"@) && k
                    + ",\"is_speaking\":false}"@.len() == s.len() {
                    Some((room, client, false))
                } else {
                    None
                },
                None => None,
            }
        } else {
            None
        },
        None => None,
    }
}

/// The message a canonical wire string denotes, if any.  The `type` tag is
/// selected by the object prefix; the fields follow in canonical order.
pub open spec fn parse_msg(s: Seq<char>) -> Option<MessageView> {
    if match_at(s, 0, "{\"type\":\"Join\",\"room_id\":\""@) {
        match parse_tail2(s, "{\"type\":\"Join\",\"room_id\":\""@.len() as int,
            ",\"client_id\":\""@) {
            Some((room, client)) => Some(MessageView::Join { room_id: room, client_id: client }),
            None => None,
        }
    } else if match_at(s, 0, "{\"type\":\"Leave\",\"room_id\":\""@) {
        match parse_tail2(s, "{\"type\":\"Leave\",\"room_id\":\""@.len() as int,
            ",\"client_id\":\""@) {
            Some((room, client)) => Some(MessageView::Leave { room_id: room, client_id: client }),
            None => None,
        }
    } else if match_at(s, 0, "{\"type\":\"Ping\",\"room_id\":\""@) {
        match parse_tail2(s, "{\"type\":\"Ping\",\"room_id\":\""@.len() as int,
            ",\"client_id\":\""@) {
            Some((room, client)) => Some(MessageView::Ping { room_id: room, client_id: client }),
            None => None,
        }
    } else if match_at(s, 0, "{\"type\":\"Welcome\",\"room_id\":\""@) {
        match parse_tail2(s, "{\"type\":\"Welcome\",\"room_id\":\""@.len() as int,
            ",\"client_id\":\""@) {
            Some((room, client)) => Some(MessageView::Welcome { room_id: room, client_id: client }),
            None => None,
        }
    } else if match_at(s, 0, "{\"type\":\"Offer\",\"room_id\":\""@) {
        match parse_tail2(s, "{\"type\":\"Offer\",\"room_id\":\""@.len() as int, ",\"sdp\":\""@) {
            Some((room, sdp)) => Some(MessageView::Offer { sdp, room_id: room }),
            None => None,
        }
    } else if match_at(s, 0, "{\"type\":\"Answer\",\"room_id\":\""@) {
        match parse_tail2(s, "{\"type\":\"Answer\",\"room_id\":\""@.len() as int, ",\"sdp\":\""@) {
            Some((room, sdp)) => Some(MessageView::Answer { sdp, room_id: room }),
            None => None,
        }
    } else if match_at(s, 0, "{\"type\":\"IceCandidate\",\"room_id\":\""@) {
        match parse_tail2(s, "{\"type\":\"IceCandidate\",\"room_id\":\""@.len() as int,
            ",\"candidate\":\""@) {
            Some((room, cand)) => Some(MessageView::IceCandidate { candidate: cand, room_id: room }),
            None => None,
        }
    } else if match_at(s, 0, "{\"type\":\"VoiceActivity\",\"room_id\":\""@) {
        match parse_va_tail(s, "{\"type\":\"VoiceActivity\",\"room_id\":\""@.len() as int) {
            Some((room, client, speaking)) => Some(MessageView::VoiceActivity {
                is_speaking: speaking,
                client_id: client,
                room_id: room,
            }),
            None => None,
        }
    } else {
        None
    }
}

/// Does the literal occur in `s` at position `i`?
fn match_lit(s: &str, i: usize, lit: &str) -> (r: bool)
    ensures
        r == match_at(s@, i as int, lit@),
        r ==> i + lit@.len() <= s@.len(),
{
    let s_len = s.unicode_len();
    let lit_len = lit.unicode_len();
    if i > s_len || lit_len > s_len - i {
        proof {
            assert(!match_at(s@, i as int, lit@));
        }
        return false;
    }
    let mut j: usize = 0;
    while j < lit_len
        invariant
            j <= lit_len,
            i + lit_len <= s_len,
            s_len == s@.len(),
            lit_len == lit@.len(),
            forall|t: int| 0 <= t < j ==> s@[i + t] == lit@[t],
        decreases lit_len - j,
    {
        let cs = s.get_char(i + j);
        let cl = lit.get_char(j);
        if cs != cl {
            proof {
                assert(s@.subrange(i as int, i + lit@.len())[j as int] == s@[i + j]);
                assert(s@.subrange(i as int, i + lit@.len()) != lit@);
            }
            return false;
        }
        j = j + 1;
    }
    proof {
        assert(s@.subrange(i as int, i + lit@.len()) =~= lit@);
    }
    true
}

/// Value of a lowercase hexadecimal digit character; 16 if it is none.
fn hex_val_char(c: char) -> (r: u32)
    ensures
        r == hex_val(c),
{
    match c {
        '0' => 0,
        '1' => 1,
        '2' => 2,
        '3' => 3,
        '4' => 4,
        '5' => 5,
        '6' => 6,
        '7' => 7,
        '8' => 8,
        '9' => 9,
        'a' => 10,
        'b' => 11,
        'c' => 12,
        'd' => 13,
        'e' => 14,
        'f' => 15,
        _ => 16,
    }
}

/// The control character with the given code point below 32.
fn low_char_of(v: u32) -> (r: char)
    requires
        v < 32,
    ensures
        r == low_char(v as int),
{
    match v {
        0 => '\u{00}',
        1 => '\u{01}',
        2 => '\u{02}',
        3 => '\u{03}',
        4 => '\u{04}',
        5 => '\u{05}',
        6 => '\u{06}',
        7 => '\u{07}',
        8 => '\u{08}',
        9 => '\u{09}',
        10 => '\u{0a}',
        11 => '\u{0b}',
        12 => '\u{0c}',
        13 => '\u{0d}',
        14 => '\u{0e}',
        15 => '\u{0f}',
        16 => '\u{10}',
        17 => '\u{11}',
        18 => '\u{12}',
        19 => '\u{13}',
        20 => '\u{14}',
        21 => '\u{15}',
        22 => '\u{16}',
        23 => '\u{17}',
        24 => '\u{18}',
        25 => '\u{19}',
        26 => '\u{1a}',
        27 => '\u{1b}',
        28 => '\u{1c}',
        29 => '\u{1d}',
        30 => '\u{1e}',
        _ => '\u{1f}',
    }
}

/// Scans a JSON string body beginning at `start`, returning the unescaped
/// content and the position just after the closing quote.
fn scan_string(s: &str, start: usize) -> (r: Option<(String, usize)>)
    ensures
        match r {
            Some(p) => scan_string_from(s@, start as int, Seq::empty()) == Some(
                (p.0@, p.1 as int),
            ) && p.1 <= s@.len(),
            None => scan_string_from(s@, start as int, Seq::empty()) == None::<(Seq<char>, int)>,
        },
{
    let s_len = s.unicode_len();
    let mut cur: usize = start;
    let mut acc = String::new();
    loop
        invariant
            s_len == s@.len(),
            cur <= s_len || cur == start,
            scan_string_from(s@, start as int, Seq::empty()) == scan_string_from(
                s@,
                cur as int,
                acc@,
            ),
        decreases s@.len() - cur,
    {
        if cur >= s_len {
            return None;
        }
        let c = s.get_char(cur);
        if c == '"' {
            return Some((acc, cur + 1));
        } else if c == '\\' {
            if cur + 1 >= s_len {
                return None;
            }
            let e = s.get_char(cur + 1);
            if e == '"' || e == '\\' || e == 'n' || e == 'r' || e == 't' {
                let u = if e == '"' {
                    '"'
                } else if e == '\\' {
                    '\\'
                } else if e == 'n' {
                    '\n'
                } else if e == 'r' {
                    '\r'
                } else {
                    '\t'
                };
                proof {
                    assert(u == unescape_short(s@[cur + 1]));
                }
                acc.push(u);
                cur = cur + 2;
            } else if e == 'u' {
                if s_len - cur < 6 {
                    return None;
                }
                if s.get_char(cur + 2) != '0' || s.get_char(cur + 3) != '0' {
                    return None;
                }
                let h1 = hex_val_char(s.get_char(cur + 4));
                let h2 = hex_val_char(s.get_char(cur + 5));
                if h1 >= 16 || h2 >= 16 || h1 * 16 + h2 >= 32 {
                    return None;
                }
                acc.push(low_char_of(h1 * 16 + h2));
                cur = cur + 6;
            } else {
                return None;
            }
        } else if (c as u32) < 32 {
            return None;
        } else {
            acc.push(c);
            cur = cur + 1;
        }
    }
}

/// Parses the two string fields and the closing brace that follow a message
/// prefix, as `parse_tail2` describes.
fn parse_two_fields(s: &str, i: usize, mid: &str) -> (r: Option<(String, String)>)
    ensures
        match r {
            Some(p) => parse_tail2(s@, i as int, mid@) == Some((p.0@, p.1@)),
            None => parse_tail2(s@, i as int, mid@) == None::<(Seq<char>, Seq<char>)>,
        },
{
    let s_len = s.unicode_len();
    let first = scan_string(s, i);
    match first {
        None => None,
        Some((a, j)) => {
            if !match_lit(s, j, mid) {
                return None;
            }
            let mid_len = mid.unicode_len();
            let second = scan_string(s, j + mid_len);
            match second {
                None => None,
                Some((b, k)) => {
                    if k < s_len && k + 1 == s_len && s.get_char(k) == '}' {
                        Some((a, b))
                    } else {
                        None
                    }
                },
            }
        },
    }
}

/// Parses a canonical wire string back into a message; returns `None` on
/// anything that is not the canonical encoding of some message.
pub fn parse_message(s: &str) -> (r: Option<SignalingMessage>)
    ensures
        match r {
            Some(m) => parse_msg(s@) == Some(m@),
            None => parse_msg(s@) == None::<MessageView>,
        },
{
    if match_lit(s, 0, "{\"type\":\"Join\",\"room_id\":\"") {
        let p = "{\"type\":\"Join\",\"room_id\":\"".unicode_len();
        match parse_two_fields(s, p, ",\"client_id\":\"") {
            Some((room, client)) => Some(
                SignalingMessage::Join { room_id: room, client_id: client },
            ),
            None => None,
        }
    } else if match_lit(s, 0, "{\"type\":\"Leave\",\"room_id\":\"") {
        let p = "{\"type\":\"Leave\",\"room_id\":\"".unicode_len();
        match parse_two_fields(s, p, ",\"client_id\":\"") {
            Some((room, client)) => Some(
                SignalingMessage::Leave { room_id: room, client_id: client },
            ),
            None => None,
        }
    } else if match_lit(s, 0, "{\"type\":\"Ping\",\"room_id\":\"") {
        let p = "{\"type\":\"Ping\",\"room_id\":\"".unicode_len();
        match parse_two_fields(s, p, ",\"client_id\":\"") {
            Some((room, client)) => Some(
                SignalingMessage::Ping { room_id: room, client_id: client },
            ),
            None => None,
        }
    } else if match_lit(s, 0, "{\"type\":\"Welcome\",\"room_id\":\"") {
        let p = "{\"type\":\"Welcome\",\"room_id\":\"".unicode_len();
        match parse_two_fields(s, p, ",\"client_id\":\"") {
            Some((room, client)) => Some(
                SignalingMessage::Welcome { room_id: room, client_id: client },
            ),
            None => None,
        }
    } else if match_lit(s, 0, "{\"type\":\"Offer\",\"room_id\":\"") {
        let p = "{\"type\":\"Offer\",\"room_id\":\"".unicode_len();
        match parse_two_fields(s, p, ",\"sdp\":\"") {
            Some((room, sdp)) => Some(SignalingMessage::Offer { sdp, room_id: room }),
            None => None,
        }
    } else if match_lit(s, 0, "{\"type\":\"Answer\",\"room_id\":\"") {
        let p = "{\"type\":\"Answer\",\"room_id\":\"".unicode_len();
        match parse_two_fields(s, p, ",\"sdp\":\"") {
            Some((room, sdp)) => Some(SignalingMessage::Answer { sdp, room_id: room }),
            None => None,
        }
    } else if match_lit(s, 0, "{\"type\":\"IceCandidate\",\"room_id\":\"") {
        let p = "{\"type\":\"IceCandidate\",\"room_id\":\"".unicode_len();
        match parse_two_fields(s, p, ",\"candidate\":\"") {
            Some((room, cand)) => Some(
                SignalingMessage::IceCandidate { candidate: cand, room_id: room },
            ),
            None => None,
        }
    } else if match_lit(s, 0, "{\"type\":\"VoiceActivity\",\"room_id\":\"") {
        let p = "{\"type\":\"VoiceActivity\",\"room_id\":\"".unicode_len();
        let s_len = s.unicode_len();
        let first = scan_string(s, p);
        match first {
            None => None,
            Some((room, j)) => {
                if !match_lit(s, j, ",\"client_id\":\"") {
                    return None;
                }
                let mid_len = ",\"client_id\":\"".unicode_len();
                let second = scan_string(s, j + mid_len);
                match second {
                    None => None,
                    Some((client, k)) => {
                        let t_len = ",\"is_speaking\":true}".unicode_len();
                        let f_len = ",\"is_speaking\":false}".unicode_len();
                        if match_lit(s, k, ",\"is_speaking\":true}") && k + t_len == s_len {
                            Some(
                                SignalingMessage::VoiceActivity {
                                    is_speaking: true,
                                    client_id: client,
                                    room_id: room,
                                },
                            )
                        } else if match_lit(s, k, ",\"is_speaking\":false}") && k + f_len == s_len {
                            Some(
                                SignalingMessage::VoiceActivity {
                                    is_speaking: false,
                                    client_id: client,
                                    room_id: room,
                                },
                            )
                        } else {
                            None
                        }
                    },
                }
            },
        }
    } else {
        None
    }
}

/// A hexadecimal digit reads back as its value.
proof fn lemma_hex_digit_val(v: int)
    requires
        0 <= v < 16,
    ensures
        hex_val(hex_digit(v)) == v,
{
}

/// `low_char` inverts the code point of a control character.
proof fn lemma_low_char_id(c: char)
    requires
        (c as u32) < 32,
    ensures
        low_char((c as u32) as int) == c,
{
    vstd::utf8::char_u32_cast(c, c as u32);
    let v = c as u32;
    if v == 0 {
        vstd::utf8::char_u32_cast('\u{00}', 0);
    } else if v == 1 {
        vstd::utf8::char_u32_cast('\u{01}', 1);
    } else if v == 2 {
        vstd::utf8::char_u32_cast('\u{02}', 2);
    } else if v == 3 {
        vstd::utf8::char_u32_cast('\u{03}', 3);
    } else if v == 4 {
        vstd::utf8::char_u32_cast('\u{04}', 4);
    } else if v == 5 {
        vstd::utf8::char_u32_cast('\u{05}', 5);
    } else if v == 6 {
        vstd::utf8::char_u32_cast('\u{06}', 6);
    } else if v == 7 {
        vstd::utf8::char_u32_cast('\u{07}', 7);
    } else if v == 8 {
        vstd::utf8::char_u32_cast('\u{08}', 8);
    } else if v == 9 {
        vstd::utf8::char_u32_cast('\u{09}', 9);
    } else if v == 10 {
        vstd::utf8::char_u32_cast('\u{0a}', 10);
    } else if v == 11 {
        vstd::utf8::char_u32_cast('\u{0b}', 11);
    } else if v == 12 {
        vstd::utf8::char_u32_cast('\u{0c}', 12);
    } else if v == 13 {
        vstd::utf8::char_u32_cast('\u{0d}', 13);
    } else if v == 14 {
        vstd::utf8::char_u32_cast('\u{0e}', 14);
    } else if v == 15 {
        vstd::utf8::char_u32_cast('\u{0f}', 15);
    } else if v == 16 {
        vstd::utf8::char_u32_cast('\u{10}', 16);
    } else if v == 17 {
        vstd::utf8::char_u32_cast('\u{11}', 17);
    } else if v == 18 {
        vstd::utf8::char_u32_cast('\u{12}', 18);
    } else if v == 19 {
        vstd::utf8::char_u32_cast('\u{13}', 19);
    } else if v == 20 {
        vstd::utf8::char_u32_cast('\u{14}', 20);
    } else if v == 21 {
        vstd::utf8::char_u32_cast('\u{15}', 21);
    } else if v == 22 {
        vstd::utf8::char_u32_cast('\u{16}', 22);
    } else if v == 23 {
        vstd::utf8::char_u32_cast('\u{17}', 23);
    } else if v == 24 {
        vstd::utf8::char_u32_cast('\u{18}', 24);
    } else if v == 25 {
        vstd::utf8::char_u32_cast('\u{19}', 25);
    } else if v == 26 {
        vstd::utf8::char_u32_cast('\u{1a}', 26);
    } else if v == 27 {
        vstd::utf8::char_u32_cast('\u{1b}', 27);
    } else if v == 28 {
        vstd::utf8::char_u32_cast('\u{1c}', 28);
    } else if v == 29 {
        vstd::utf8::char_u32_cast('\u{1d}', 29);
    } else if v == 30 {
        vstd::utf8::char_u32_cast('\u{1e}', 30);
    } else {
        vstd::utf8::char_u32_cast('\u{1f}', 31);
    }
}

/// Scanning an escaped string body finds exactly the original content: in
/// `pre + escape(x) + '"' + tail`, a scan starting after `pre` stops at the
/// closing quote with content `x` appended to the accumulator.
proof fn lemma_scan_escaped(x: Seq<char>, pre: Seq<char>, tail: Seq<char>, acc: Seq<char>)
    ensures
        ({
            let s = pre + escape_chars(x) + seq!['"'] + tail;
            scan_string_from(s, pre.len() as int, acc) == Some(
                (acc + x, pre.len() + escape_chars(x).len() + 1int),
            )
        }),
    decreases x.len(),
{
    let s = pre + escape_chars(x) + seq!['"'] + tail;
    let i = pre.len() as int;
    if x.len() == 0 {
        assert(escape_chars(x) =~= Seq::<char>::empty());
        assert(s[i] == '"');
        assert(acc + x =~= acc);
    } else {
        let c = x[0];
        let x1 = x.skip(1);
        let e = escape_char(c);
        assert(escape_chars(x) == e + escape_chars(x1));
        let pre2 = pre + e;
        let s2 = pre2 + escape_chars(x1) + seq!['"'] + tail;
        assert(s =~= s2);
        lemma_scan_escaped(x1, pre2, tail, acc.push(c));
        assert(scan_string_from(s, pre2.len() as int, acc.push(c)) == Some(
            (acc.push(c) + x1, pre2.len() + escape_chars(x1).len() + 1int),
        ));
        assert(acc.push(c) + x1 =~= acc + x);
        assert forall|k: int| 0 <= k < e.len() implies s[i + k] == e[k] by {
            assert((pre + escape_chars(x))[i + k] == escape_chars(x)[k]);
            assert(escape_chars(x)[k] == e[k]);
        }
        assert(i + e.len() + escape_chars(x1).len() + 1 <= s.len());
        if c == '"' || c == '\\' {
            assert(s[i] == '\\');
            assert(s[i + 1] == c);
            assert(unescape_short(c) == c);
            assert(scan_string_from(s, i, acc) == scan_string_from(s, i + 2, acc.push(c)));
        } else if c == '\n' {
            assert(s[i] == '\\');
            assert(s[i + 1] == 'n');
            assert(scan_string_from(s, i, acc) == scan_string_from(s, i + 2, acc.push(c)));
        } else if c == '\r' {
            assert(s[i] == '\\');
            assert(s[i + 1] == 'r');
            assert(scan_string_from(s, i, acc) == scan_string_from(s, i + 2, acc.push(c)));
        } else if c == '\t' {
            assert(s[i] == '\\');
            assert(s[i + 1] == 't');
            assert(scan_string_from(s, i, acc) == scan_string_from(s, i + 2, acc.push(c)));
        } else if (c as u32) < 32 {
            let v = (c as u32) as int;
            assert(s[i] == '\\');
            assert(s[i + 1] == 'u');
            assert(s[i + 2] == '0');
            assert(s[i + 3] == '0');
            assert(s[i + 4] == hex_digit(v / 16));
            assert(s[i + 5] == hex_digit(v % 16));
            assert(0 <= v / 16 < 16 && 0 <= v % 16 < 16) by {
                vstd::arithmetic::div_mod::lemma_mod_bound(v, 16);
                vstd::arithmetic::div_mod::lemma_div_pos_is_pos(v, 16);
                assert(v / 16 <= 1) by (nonlinear_arith)
                    requires
                        0 <= v < 32,
                ;
            }
            lemma_hex_digit_val(v / 16);
            lemma_hex_digit_val(v % 16);
            assert((v / 16) * 16 + v % 16 == v) by {
                vstd::arithmetic::div_mod::lemma_fundamental_div_mod(v, 16);
            }
            lemma_low_char_id(c);
            assert(scan_string_from(s, i, acc) == scan_string_from(s, i + 6, acc.push(c)));
        } else {
            assert(s[i] == c);
            assert(scan_string_from(s, i, acc) == scan_string_from(s, i + 1, acc.push(c)));
        }
    }
}

/// A literal matching at `i` rules out any literal that differs at a
/// common index.
proof fn lemma_lit_mismatch(s: Seq<char>, i: int, l1: Seq<char>, l2: Seq<char>, k: int)
    requires
        match_at(s, i, l1),
        0 <= k < l1.len(),
        k < l2.len(),
        l1[k] != l2[k],
    ensures
        !match_at(s, i, l2),
{
    if match_at(s, i, l2) {
        assert(s.subrange(i, i + l1.len())[k] == s[i + k]);
        assert(s.subrange(i, i + l2.len())[k] == s[i + k]);
    }
}

/// In `a + mid + b` the literal `mid` stands right after `a`.
proof fn lemma_match_middle(a: Seq<char>, mid: Seq<char>, b: Seq<char>)
    ensures
        match_at(a + mid + b, a.len() as int, mid),
{
    let s = a + mid + b;
    assert(s.subrange(a.len() as int, a.len() + mid.len() as int) =~= mid);
}

/// Scanning a canonical body of two escaped strings: both scans find the
/// original contents, the separating literal sits between them, and the
/// tail literal closes the input.
proof fn lemma_scan_two(
    prefix: Seq<char>,
    x1: Seq<char>,
    mid: Seq<char>,
    x2: Seq<char>,
    rest: Seq<char>,
)
    ensures
        ({
            let s = prefix + escape_chars(x1) + seq!['"'] + mid + escape_chars(x2) + seq!['"']
                + rest;
            let j = prefix.len() + escape_chars(x1).len() + 1int;
            let k = j + mid.len() + escape_chars(x2).len() + 1int;
            &&& match_at(s, 0, prefix)
            &&& scan_string_from(s, prefix.len() as int, Seq::empty()) == Some((x1, j))
            &&& match_at(s, j, mid)
            &&& scan_string_from(s, j + mid.len(), Seq::empty()) == Some((x2, k))
            &&& match_at(s, k, rest)
            &&& k + rest.len() == s.len()
        }),
{
    let s = prefix + escape_chars(x1) + seq!['"'] + mid + escape_chars(x2) + seq!['"'] + rest;
    assert(s.subrange(0, prefix.len() as int) =~= prefix);
    let tail1 = mid + escape_chars(x2) + seq!['"'] + rest;
    assert(s =~= prefix + escape_chars(x1) + seq!['"'] + tail1);
    lemma_scan_escaped(x1, prefix, tail1, Seq::empty());
    assert(Seq::<char>::empty() + x1 =~= x1);
    let j = prefix.len() + escape_chars(x1).len() + 1int;
    let a = prefix + escape_chars(x1) + seq!['"'];
    let b = escape_chars(x2) + seq!['"'] + rest;
    assert(s =~= a + mid + b);
    lemma_match_middle(a, mid, b);
    let pre2 = a + mid;
    assert(s =~= pre2 + escape_chars(x2) + seq!['"'] + rest);
    lemma_scan_escaped(x2, pre2, rest, Seq::empty());
    assert(Seq::<char>::empty() + x2 =~= x2);
    let k = j + mid.len() + escape_chars(x2).len() + 1int;
    let a2 = pre2 + escape_chars(x2) + seq!['"'];
    assert(s =~= a2 + rest + Seq::<char>::empty());
    lemma_match_middle(a2, rest, Seq::empty());
    assert(a2 + rest + Seq::<char>::empty() =~= s);
    assert(match_at(s, k, rest));
}


/// A `Leave` prefix rules out the prefixes tried before it.
#[verifier::rlimit(100)]
proof fn lemma_excluded_before_leave(s: Seq<char>)
    requires
        match_at(s, 0, "{\"type\":\"Leave\",\"room_id\":\""@),
    ensures
        !match_at(s, 0, "{\"type\":\"Join\",\"room_id\":\""@),
{
    reveal_strlit("{\"type\":\"Join\",\"room_id\":\"");
    reveal_strlit("{\"type\":\"Leave\",\"room_id\":\"");
    lemma_lit_mismatch(s, 0, "{\"type\":\"Leave\",\"room_id\":\""@, "{\"type\":\"Join\",\"room_id\":\""@, 9);
}

/// A `Ping` prefix rules out the prefixes tried before it.
#[verifier::rlimit(100)]
proof fn lemma_excluded_before_ping(s: Seq<char>)
    requires
        match_at(s, 0, "{\"type\":\"Ping\",\"room_id\":\""@),
    ensures
        !match_at(s, 0, "{\"type\":\"Join\",\"room_id\":\""@),
        !match_at(s, 0, "{\"type\":\"Leave\",\"room_id\":\""@),
{
    reveal_strlit("{\"type\":\"Join\",\"room_id\":\"");
    reveal_strlit("{\"type\":\"Leave\",\"room_id\":\"");
    reveal_strlit("{\"type\":\"Ping\",\"room_id\":\"");
    lemma_lit_mismatch(s, 0, "{\"type\":\"Ping\",\"room_id\":\""@, "{\"type\":\"Join\",\"room_id\":\""@, 9);
    lemma_lit_mismatch(s, 0, "{\"type\":\"Ping\",\"room_id\":\""@, "{\"type\":\"Leave\",\"room_id\":\""@, 9);
}

/// A `Welcome` prefix rules out the prefixes tried before it.
#[verifier::rlimit(100)]
proof fn lemma_excluded_before_welcome(s: Seq<char>)
    requires
        match_at(s, 0, "{\"type\":\"Welcome\",\"room_id\":\""@),
    ensures
        !match_at(s, 0, "{\"type\":\"Join\",\"room_id\":\""@),
        !match_at(s, 0, "{\"type\":\"Leave\",\"room_id\":\""@),
        !match_at(s, 0, "{\"type\":\"Ping\",\"room_id\":\""@),
{
    reveal_strlit("{\"type\":\"Join\",\"room_id\":\"");
    reveal_strlit("{\"type\":\"Leave\",\"room_id\":\"");
    reveal_strlit("{\"type\":\"Ping\",\"room_id\":\"");
    reveal_strlit("{\"type\":\"Welcome\",\"room_id\":\"");
    lemma_lit_mismatch(s, 0, "{\"type\":\"Welcome\",\"room_id\":\""@, "{\"type\":\"Join\",\"room_id\":\""@, 9);
    lemma_lit_mismatch(s, 0, "{\"type\":\"Welcome\",\"room_id\":\""@, "{\"type\":\"Leave\",\"room_id\":\""@, 9);
    lemma_lit_mismatch(s, 0, "{\"type\":\"Welcome\",\"room_id\":\""@, "{\"type\":\"Ping\",\"room_id\":\""@, 9);
}

/// A `Offer` prefix rules out the prefixes tried before it.
#[verifier::rlimit(100)]
proof fn lemma_excluded_before_offer(s: Seq<char>)
    requires
        match_at(s, 0, "{\"type\":\"Offer\",\"room_id\":\""@),
    ensures
        !match_at(s, 0, "{\"type\":\"Join\",\"room_id\":\""@),
        !match_at(s, 0, "{\"type\":\"Leave\",\"room_id\":\""@),
        !match_at(s, 0, "{\"type\":\"Ping\",\"room_id\":\""@),
        !match_at(s, 0, "{\"type\":\"Welcome\",\"room_id\":\""@),
{
    reveal_strlit("{\"type\":\"Join\",\"room_id\":\"");
    reveal_strlit("{\"type\":\"Leave\",\"room_id\":\"");
    reveal_strlit("{\"type\":\"Ping\",\"room_id\":\"");
    reveal_strlit("{\"type\":\"Welcome\",\"room_id\":\"");
    reveal_strlit("{\"type\":\"Offer\",\"room_id\":\"");
    lemma_lit_mismatch(s, 0, "{\"type\":\"Offer\",\"room_id\":\""@, "{\"type\":\"Join\",\"room_id\":\""@, 9);
    lemma_lit_mismatch(s, 0, "{\"type\":\"Offer\",\"room_id\":\""@, "{\"type\":\"Leave\",\"room_id\":\""@, 9);
    lemma_lit_mismatch(s, 0, "{\"type\":\"Offer\",\"room_id\":\""@, "{\"type\":\"Ping\",\"room_id\":\""@, 9);
    lemma_lit_mismatch(s, 0, "{\"type\":\"Offer\",\"room_id\":\""@, "{\"type\":\"Welcome\",\"room_id\":\""@, 9);
}

/// A `Answer` prefix rules out the prefixes tried before it.
#[verifier::rlimit(100)]
proof fn lemma_excluded_before_answer(s: Seq<char>)
    requires
        match_at(s, 0, "{\"type\":\"Answer\",\"room_id\":\""@),
    ensures
        !match_at(s, 0, "{\"type\":\"Join\",\"room_id\":\""@),
        !match_at(s, 0, "{\"type\":\"Leave\",\"room_id\":\""@),
        !match_at(s, 0, "{\"type\":\"Ping\",\"room_id\":\""@),
        !match_at(s, 0, "{\"type\":\"Welcome\",\"room_id\":\""@),
        !match_at(s, 0, "{\"type\":\"Offer\",\"room_id\":\""@),
{
    reveal_strlit("{\"type\":\"Join\",\"room_id\":\"");
    reveal_strlit("{\"type\":\"Leave\",\"room_id\":\"");
    reveal_strlit("{\"type\":\"Ping\",\"room_id\":\"");
    reveal_strlit("{\"type\":\"Welcome\",\"room_id\":\"");
    reveal_strlit("{\"type\":\"Offer\",\"room_id\":\"");
    reveal_strlit("{\"type\":\"Answer\",\"room_id\":\"");
    lemma_lit_mismatch(s, 0, "{\"type\":\"Answer\",\"room_id\":\""@, "{\"type\":\"Join\",\"room_id\":\""@, 9);
    lemma_lit_mismatch(s, 0, "{\"type\":\"Answer\",\"room_id\":\""@, "{\"type\":\"Leave\",\"room_id\":\""@, 9);
    lemma_lit_mismatch(s, 0, "{\"type\":\"Answer\",\"room_id\":\""@, "{\"type\":\"Ping\",\"room_id\":\""@, 9);
    lemma_lit_mismatch(s, 0, "{\"type\":\"Answer\",\"room_id\":\""@, "{\"type\":\"Welcome\",\"room_id\":\""@, 9);
    lemma_lit_mismatch(s, 0, "{\"type\":\"Answer\",\"room_id\":\""@, "{\"type\":\"Offer\",\"room_id\":\""@, 9);
}

/// A `IceCandidate` prefix rules out the prefixes tried before it.
#[verifier::rlimit(100)]
proof fn lemma_excluded_before_ice(s: Seq<char>)
    requires
        match_at(s, 0, "{\"type\":\"IceCandidate\",\"room_id\":\""@),
    ensures
        !match_at(s, 0, "{\"type\":\"Join\",\"room_id\":\""@),
        !match_at(s, 0, "{\"type\":\"Leave\",\"room_id\":\""@),
        !match_at(s, 0, "{\"type\":\"Ping\",\"room_id\":\""@),
        !match_at(s, 0, "{\"type\":\"Welcome\",\"room_id\":\""@),
        !match_at(s, 0, "{\"type\":\"Offer\",\"room_id\":\""@),
        !match_at(s, 0, "{\"type\":\"Answer\",\"room_id\":\""@),
{
    reveal_strlit("{\"type\":\"Join\",\"room_id\":\"");
    reveal_strlit("{\"type\":\"Leave\",\"room_id\":\"");
    reveal_strlit("{\"type\":\"Ping\",\"room_id\":\"");
    reveal_strlit("{\"type\":\"Welcome\",\"room_id\":\"");
    reveal_strlit("{\"type\":\"Offer\",\"room_id\":\"");
    reveal_strlit("{\"type\":\"Answer\",\"room_id\":\"");
    reveal_strlit("{\"type\":\"IceCandidate\",\"room_id\":\"");
    lemma_lit_mismatch(s, 0, "{\"type\":\"IceCandidate\",\"room_id\":\""@, "{\"type\":\"Join\",\"room_id\":\""@, 9);
    lemma_lit_mismatch(s, 0, "{\"type\":\"IceCandidate\",\"room_id\":\""@, "{\"type\":\"Leave\",\"room_id\":\""@, 9);
    lemma_lit_mismatch(s, 0, "{\"type\":\"IceCandidate\",\"room_id\":\""@, "{\"type\":\"Ping\",\"room_id\":\""@, 9);
    lemma_lit_mismatch(s, 0, "{\"type\":\"IceCandidate\",\"room_id\":\""@, "{\"type\":\"Welcome\",\"room_id\":\""@, 9);
    lemma_lit_mismatch(s, 0, "{\"type\":\"IceCandidate\",\"room_id\":\""@, "{\"type\":\"Offer\",\"room_id\":\""@, 9);
    lemma_lit_mismatch(s, 0, "{\"type\":\"IceCandidate\",\"room_id\":\""@, "{\"type\":\"Answer\",\"room_id\":\""@, 9);
}

/// A `VoiceActivity` prefix rules out the prefixes tried before it.
#[verifier::rlimit(100)]
proof fn lemma_excluded_before_va(s: Seq<char>)
    requires
        match_at(s, 0, "{\"type\":\"VoiceActivity\",\"room_id\":\""@),
    ensures
        !match_at(s, 0, "{\"type\":\"Join\",\"room_id\":\""@),
        !match_at(s, 0, "{\"type\":\"Leave\",\"room_id\":\""@),
        !match_at(s, 0, "{\"type\":\"Ping\",\"room_id\":\""@),
        !match_at(s, 0, "{\"type\":\"Welcome\",\"room_id\":\""@),
        !match_at(s, 0, "{\"type\":\"Offer\",\"room_id\":\""@),
        !match_at(s, 0, "{\"type\":\"Answer\",\"room_id\":\""@),
        !match_at(s, 0, "{\"type\":\"IceCandidate\",\"room_id\":\""@),
{
    reveal_strlit("{\"type\":\"Join\",\"room_id\":\"");
    reveal_strlit("{\"type\":\"Leave\",\"room_id\":\"");
    reveal_strlit("{\"type\":\"Ping\",\"room_id\":\"");
    reveal_strlit("{\"type\":\"Welcome\",\"room_id\":\"");
    reveal_strlit("{\"type\":\"Offer\",\"room_id\":\"");
    reveal_strlit("{\"type\":\"Answer\",\"room_id\":\"");
    reveal_strlit("{\"type\":\"IceCandidate\",\"room_id\":\"");
    reveal_strlit("{\"type\":\"VoiceActivity\",\"room_id\":\"");
    lemma_lit_mismatch(s, 0, "{\"type\":\"VoiceActivity\",\"room_id\":\""@, "{\"type\":\"Join\",\"room_id\":\""@, 9);
    lemma_lit_mismatch(s, 0, "{\"type\":\"VoiceActivity\",\"room_id\":\""@, "{\"type\":\"Leave\",\"room_id\":\""@, 9);
    lemma_lit_mismatch(s, 0, "{\"type\":\"VoiceActivity\",\"room_id\":\""@, "{\"type\":\"Ping\",\"room_id\":\""@, 9);
    lemma_lit_mismatch(s, 0, "{\"type\":\"VoiceActivity\",\"room_id\":\""@, "{\"type\":\"Welcome\",\"room_id\":\""@, 9);
    lemma_lit_mismatch(s, 0, "{\"type\":\"VoiceActivity\",\"room_id\":\""@, "{\"type\":\"Offer\",\"room_id\":\""@, 9);
    lemma_lit_mismatch(s, 0, "{\"type\":\"VoiceActivity\",\"room_id\":\""@, "{\"type\":\"Answer\",\"room_id\":\""@, 9);
    lemma_lit_mismatch(s, 0, "{\"type\":\"VoiceActivity\",\"room_id\":\""@, "{\"type\":\"IceCandidate\",\"room_id\":\""@, 9);
}

/// The encoder's output for a `Join`, cut at the quotes.
#[verifier::rlimit(100)]
proof fn lemma_shape_join(room_id: Seq<char>, client_id: Seq<char>)
    ensures
        encode_msg(MessageView::Join { room_id, client_id }) == "{\"type\":\"Join\",\"room_id\":\""@ + escape_chars(room_id) + seq!['"'] + ",\"client_id\":\""@ + escape_chars(client_id)
            + seq!['"'] + seq!['}'],
{
    reveal_strlit("{\"type\":\"Join\",\"room_id\":\"");
    reveal_strlit("\",\"client_id\":\"");
    reveal_strlit(",\"client_id\":\"");
    reveal_strlit("\"}");
    assert(encode_msg(MessageView::Join { room_id, client_id }) =~= "{\"type\":\"Join\",\"room_id\":\""@ + escape_chars(room_id) + seq!['"'] + ",\"client_id\":\""@ + escape_chars(
        client_id,
    ) + seq!['"'] + seq!['}']) by {
        assert("\",\"client_id\":\""@ =~= seq!['"'] + ",\"client_id\":\""@);
        assert("\"}"@ =~= seq!['"', '}']);
        assert(seq!['"', '}'] =~= seq!['"'] + seq!['}']);
    }
}

/// Round trip of a `Join` message.
#[verifier::rlimit(100)]
proof fn lemma_rt_join(room_id: Seq<char>, client_id: Seq<char>)
    ensures
        parse_msg(encode_msg(MessageView::Join { room_id, client_id })) == Some(MessageView::Join { room_id, client_id }),
{
    let m = MessageView::Join { room_id, client_id };
    let s = encode_msg(m);
    let p = "{\"type\":\"Join\",\"room_id\":\""@;
    let mid = ",\"client_id\":\""@;
    lemma_shape_join(room_id, client_id);
    lemma_scan_two(p, room_id, mid, client_id, seq!['}']);
    let j = p.len() + escape_chars(room_id).len() + 1int;
    let k = j + mid.len() + escape_chars(client_id).len() + 1int;
    assert(s.subrange(k, k + 1int)[0] == s[k]);
    assert(parse_tail2(s, p.len() as int, mid) == Some((room_id, client_id)));
    assert(parse_msg(s) == Some(m));
}

/// The encoder's output for a `Leave`, cut at the quotes.
#[verifier::rlimit(100)]
proof fn lemma_shape_leave(room_id: Seq<char>, client_id: Seq<char>)
    ensures
        encode_msg(MessageView::Leave { room_id, client_id }) == "{\"type\":\"Leave\",\"room_id\":\""@ + escape_chars(room_id) + seq!['"'] + ",\"client_id\":\""@ + escape_chars(client_id)
            + seq!['"'] + seq!['}'],
{
    reveal_strlit("{\"type\":\"Leave\",\"room_id\":\"");
    reveal_strlit("\",\"client_id\":\"");
    reveal_strlit(",\"client_id\":\"");
    reveal_strlit("\"}");
    assert(encode_msg(MessageView::Leave { room_id, client_id }) =~= "{\"type\":\"Leave\",\"room_id\":\""@ + escape_chars(room_id) + seq!['"'] + ",\"client_id\":\""@ + escape_chars(
        client_id,
    ) + seq!['"'] + seq!['}']) by {
        assert("\",\"client_id\":\""@ =~= seq!['"'] + ",\"client_id\":\""@);
        assert("\"}"@ =~= seq!['"', '}']);
        assert(seq!['"', '}'] =~= seq!['"'] + seq!['}']);
    }
}

/// Round trip of a `Leave` message.
#[verifier::rlimit(100)]
proof fn lemma_rt_leave(room_id: Seq<char>, client_id: Seq<char>)
    ensures
        parse_msg(encode_msg(MessageView::Leave { room_id, client_id })) == Some(MessageView::Leave { room_id, client_id }),
{
    let m = MessageView::Leave { room_id, client_id };
    let s = encode_msg(m);
    let p = "{\"type\":\"Leave\",\"room_id\":\""@;
    let mid = ",\"client_id\":\""@;
    lemma_shape_leave(room_id, client_id);
    lemma_scan_two(p, room_id, mid, client_id, seq!['}']);
    let j = p.len() + escape_chars(room_id).len() + 1int;
    let k = j + mid.len() + escape_chars(client_id).len() + 1int;
    assert(s.subrange(k, k + 1int)[0] == s[k]);
    assert(parse_tail2(s, p.len() as int, mid) == Some((room_id, client_id)));
    lemma_excluded_before_leave(s);
    assert(parse_msg(s) == Some(m));
}

/// The encoder's output for a `Ping`, cut at the quotes.
#[verifier::rlimit(100)]
proof fn lemma_shape_ping(room_id: Seq<char>, client_id: Seq<char>)
    ensures
        encode_msg(MessageView::Ping { room_id, client_id }) == "{\"type\":\"Ping\",\"room_id\":\""@ + escape_chars(room_id) + seq!['"'] + ",\"client_id\":\""@ + escape_chars(client_id)
            + seq!['"'] + seq!['}'],
{
    reveal_strlit("{\"type\":\"Ping\",\"room_id\":\"");
    reveal_strlit("\",\"client_id\":\"");
    reveal_strlit(",\"client_id\":\"");
    reveal_strlit("\"}");
    assert(encode_msg(MessageView::Ping { room_id, client_id }) =~= "{\"type\":\"Ping\",\"room_id\":\""@ + escape_chars(room_id) + seq!['"'] + ",\"client_id\":\""@ + escape_chars(
        client_id,
    ) + seq!['"'] + seq!['}']) by {
        assert("\",\"client_id\":\""@ =~= seq!['"'] + ",\"client_id\":\""@);
        assert("\"}"@ =~= seq!['"', '}']);
        assert(seq!['"', '}'] =~= seq!['"'] + seq!['}']);
    }
}

/// Round trip of a `Ping` message.
#[verifier::rlimit(100)]
proof fn lemma_rt_ping(room_id: Seq<char>, client_id: Seq<char>)
    ensures
        parse_msg(encode_msg(MessageView::Ping { room_id, client_id })) == Some(MessageView::Ping { room_id, client_id }),
{
    let m = MessageView::Ping { room_id, client_id };
    let s = encode_msg(m);
    let p = "{\"type\":\"Ping\",\"room_id\":\""@;
    let mid = ",\"client_id\":\""@;
    lemma_shape_ping(room_id, client_id);
    lemma_scan_two(p, room_id, mid, client_id, seq!['}']);
    let j = p.len() + escape_chars(room_id).len() + 1int;
    let k = j + mid.len() + escape_chars(client_id).len() + 1int;
    assert(s.subrange(k, k + 1int)[0] == s[k]);
    assert(parse_tail2(s, p.len() as int, mid) == Some((room_id, client_id)));
    lemma_excluded_before_ping(s);
    assert(parse_msg(s) == Some(m));
}

/// The encoder's output for a `Welcome`, cut at the quotes.
#[verifier::rlimit(100)]
proof fn lemma_shape_welcome(room_id: Seq<char>, client_id: Seq<char>)
    ensures
        encode_msg(MessageView::Welcome { room_id, client_id }) == "{\"type\":\"Welcome\",\"room_id\":\""@ + escape_chars(room_id) + seq!['"'] + ",\"client_id\":\""@ + escape_chars(client_id)
            + seq!['"'] + seq!['}'],
{
    reveal_strlit("{\"type\":\"Welcome\",\"room_id\":\"");
    reveal_strlit("\",\"client_id\":\"");
    reveal_strlit(",\"client_id\":\"");
    reveal_strlit("\"}");
    assert(encode_msg(MessageView::Welcome { room_id, client_id }) =~= "{\"type\":\"Welcome\",\"room_id\":\""@ + escape_chars(room_id) + seq!['"'] + ",\"client_id\":\""@ + escape_chars(
        client_id,
    ) + seq!['"'] + seq!['}']) by {
        assert("\",\"client_id\":\""@ =~= seq!['"'] + ",\"client_id\":\""@);
        assert("\"}"@ =~= seq!['"', '}']);
        assert(seq!['"', '}'] =~= seq!['"'] + seq!['}']);
    }
}

/// Round trip of a `Welcome` message.
#[verifier::rlimit(100)]
proof fn lemma_rt_welcome(room_id: Seq<char>, client_id: Seq<char>)
    ensures
        parse_msg(encode_msg(MessageView::Welcome { room_id, client_id })) == Some(MessageView::Welcome { room_id, client_id }),
{
    let m = MessageView::Welcome { room_id, client_id };
    let s = encode_msg(m);
    let p = "{\"type\":\"Welcome\",\"room_id\":\""@;
    let mid = ",\"client_id\":\""@;
    lemma_shape_welcome(room_id, client_id);
    lemma_scan_two(p, room_id, mid, client_id, seq!['}']);
    let j = p.len() + escape_chars(room_id).len() + 1int;
    let k = j + mid.len() + escape_chars(client_id).len() + 1int;
    assert(s.subrange(k, k + 1int)[0] == s[k]);
    assert(parse_tail2(s, p.len() as int, mid) == Some((room_id, client_id)));
    lemma_excluded_before_welcome(s);
    assert(parse_msg(s) == Some(m));
}

/// `parse_msg` on an input with an `Offer` prefix and a parsed body.
proof fn lemma_msg_offer_from_parts(s: Seq<char>, sdp: Seq<char>, room_id: Seq<char>)
    requires
        match_at(s, 0, "{\"type\":\"Offer\",\"room_id\":\""@),
        !match_at(s, 0, "{\"type\":\"Join\",\"room_id\":\""@),
        !match_at(s, 0, "{\"type\":\"Leave\",\"room_id\":\""@),
        !match_at(s, 0, "{\"type\":\"Ping\",\"room_id\":\""@),
        !match_at(s, 0, "{\"type\":\"Welcome\",\"room_id\":\""@),
        parse_tail2(s, "{\"type\":\"Offer\",\"room_id\":\""@.len() as int, ",\"sdp\":\""@)
            == Some((room_id, sdp)),
    ensures
        parse_msg(s) == Some(MessageView::Offer { sdp, room_id }),
{
}

/// `parse_msg` on an input with an `Answer` prefix and a parsed body.
proof fn lemma_msg_answer_from_parts(s: Seq<char>, sdp: Seq<char>, room_id: Seq<char>)
    requires
        match_at(s, 0, "{\"type\":\"Answer\",\"room_id\":\""@),
        !match_at(s, 0, "{\"type\":\"Join\",\"room_id\":\""@),
        !match_at(s, 0, "{\"type\":\"Leave\",\"room_id\":\""@),
        !match_at(s, 0, "{\"type\":\"Ping\",\"room_id\":\""@),
        !match_at(s, 0, "{\"type\":\"Welcome\",\"room_id\":\""@),
        !match_at(s, 0, "{\"type\":\"Offer\",\"room_id\":\""@),
        parse_tail2(s, "{\"type\":\"Answer\",\"room_id\":\""@.len() as int, ",\"sdp\":\""@)
            == Some((room_id, sdp)),
    ensures
        parse_msg(s) == Some(MessageView::Answer { sdp, room_id }),
{
}

/// `parse_msg` on an input with an `IceCandidate` prefix and a parsed body.
proof fn lemma_msg_ice_from_parts(s: Seq<char>, candidate: Seq<char>, room_id: Seq<char>)
    requires
        match_at(s, 0, "{\"type\":\"IceCandidate\",\"room_id\":\""@),
        !match_at(s, 0, "{\"type\":\"Join\",\"room_id\":\""@),
        !match_at(s, 0, "{\"type\":\"Leave\",\"room_id\":\""@),
        !match_at(s, 0, "{\"type\":\"Ping\",\"room_id\":\""@),
        !match_at(s, 0, "{\"type\":\"Welcome\",\"room_id\":\""@),
        !match_at(s, 0, "{\"type\":\"Offer\",\"room_id\":\""@),
        !match_at(s, 0, "{\"type\":\"Answer\",\"room_id\":\""@),
        parse_tail2(
            s,
            "{\"type\":\"IceCandidate\",\"room_id\":\""@.len() as int,
            ",\"candidate\":\""@,
        ) == Some((room_id, candidate)),
    ensures
        parse_msg(s) == Some(MessageView::IceCandidate { candidate, room_id }),
{
}

/// The encoder's output for a `Offer`, cut at the quotes.
#[verifier::rlimit(100)]
proof fn lemma_shape_offer(sdp: Seq<char>, room_id: Seq<char>)
    ensures
        encode_msg(MessageView::Offer { sdp, room_id }) == "{\"type\":\"Offer\",\"room_id\":\""@ + escape_chars(room_id) + seq!['"'] + ",\"sdp\":\""@ + escape_chars(sdp)
            + seq!['"'] + seq!['}'],
{
    reveal_strlit("{\"type\":\"Offer\",\"room_id\":\"");
    reveal_strlit("\",\"sdp\":\"");
    reveal_strlit(",\"sdp\":\"");
    reveal_strlit("\"}");
    assert(encode_msg(MessageView::Offer { sdp, room_id }) =~= "{\"type\":\"Offer\",\"room_id\":\""@ + escape_chars(room_id) + seq!['"'] + ",\"sdp\":\""@ + escape_chars(sdp)
        + seq!['"'] + seq!['}']) by {
        assert("\",\"sdp\":\""@ =~= seq!['"'] + ",\"sdp\":\""@);
        assert("\"}"@ =~= seq!['"', '}']);
        assert(seq!['"', '}'] =~= seq!['"'] + seq!['}']);
    }
}

/// Round trip of a `Offer` message.
#[verifier::rlimit(100)]
proof fn lemma_rt_offer(sdp: Seq<char>, room_id: Seq<char>)
    ensures
        parse_msg(encode_msg(MessageView::Offer { sdp, room_id })) == Some(MessageView::Offer { sdp, room_id }),
{
    let m = MessageView::Offer { sdp, room_id };
    let s = encode_msg(m);
    let p = "{\"type\":\"Offer\",\"room_id\":\""@;
    let mid = ",\"sdp\":\""@;
    lemma_shape_offer(sdp, room_id);
    lemma_scan_two(p, room_id, mid, sdp, seq!['}']);
    let j = p.len() + escape_chars(room_id).len() + 1int;
    let k = j + mid.len() + escape_chars(sdp).len() + 1int;
    assert(s.subrange(k, k + 1int)[0] == s[k]);
    assert(parse_tail2(s, p.len() as int, mid) == Some((room_id, sdp)));
    lemma_excluded_before_offer(s);
    lemma_msg_offer_from_parts(s, sdp, room_id);
}

/// The encoder's output for an `Answer`, cut at the quotes.
#[verifier::rlimit(100)]
proof fn lemma_shape_answer(sdp: Seq<char>, room_id: Seq<char>)
    ensures
        encode_msg(MessageView::Answer { sdp, room_id }) == "{\"type\":\"Answer\",\"room_id\":\""@
            + escape_chars(room_id) + seq!['"'] + ",\"sdp\":\""@ + escape_chars(sdp) + seq!['"']
            + seq!['}'],
{
    reveal_strlit("{\"type\":\"Answer\",\"room_id\":\"");
    reveal_strlit("\",\"sdp\":\"");
    reveal_strlit(",\"sdp\":\"");
    reveal_strlit("\"}");
    assert(encode_msg(MessageView::Answer { sdp, room_id })
        =~= "{\"type\":\"Answer\",\"room_id\":\""@ + escape_chars(room_id) + seq!['"']
        + ",\"sdp\":\""@ + escape_chars(sdp) + seq!['"'] + seq!['}']) by {
        assert("\",\"sdp\":\""@ =~= seq!['"'] + ",\"sdp\":\""@);
        assert("\"}"@ =~= seq!['"', '}']);
        assert(seq!['"', '}'] =~= seq!['"'] + seq!['}']);
    }
}

/// Round trip of a `Answer` message.
#[verifier::rlimit(100)]
proof fn lemma_rt_answer(sdp: Seq<char>, room_id: Seq<char>)
    ensures
        parse_msg(encode_msg(MessageView::Answer { sdp, room_id })) == Some(MessageView::Answer { sdp, room_id }),
{
    let m = MessageView::Answer { sdp, room_id };
    let s = encode_msg(m);
    let p = "{\"type\":\"Answer\",\"room_id\":\""@;
    let mid = ",\"sdp\":\""@;
    lemma_shape_answer(sdp, room_id);
    lemma_scan_two(p, room_id, mid, sdp, seq!['}']);
    let j = p.len() + escape_chars(room_id).len() + 1int;
    let k = j + mid.len() + escape_chars(sdp).len() + 1int;
    assert(s.subrange(k, k + 1int)[0] == s[k]);
    assert(parse_tail2(s, p.len() as int, mid) == Some((room_id, sdp)));
    lemma_excluded_before_answer(s);
    lemma_msg_answer_from_parts(s, sdp, room_id);
}

/// The encoder's output for a `IceCandidate`, cut at the quotes.
#[verifier::rlimit(100)]
proof fn lemma_shape_ice(candidate: Seq<char>, room_id: Seq<char>)
    ensures
        encode_msg(MessageView::IceCandidate { candidate, room_id }) == "{\"type\":\"IceCandidate\",\"room_id\":\""@ + escape_chars(room_id) + seq!['"'] + ",\"candidate\":\""@ + escape_chars(candidate)
            + seq!['"'] + seq!['}'],
{
    reveal_strlit("{\"type\":\"IceCandidate\",\"room_id\":\"");
    reveal_strlit("\",\"candidate\":\"");
    reveal_strlit(",\"candidate\":\"");
    reveal_strlit("\"}");
    assert(encode_msg(MessageView::IceCandidate { candidate, room_id }) =~= "{\"type\":\"IceCandidate\",\"room_id\":\""@ + escape_chars(room_id) + seq!['"'] + ",\"candidate\":\""@ + escape_chars(candidate)
        + seq!['"'] + seq!['}']) by {
        assert("\",\"candidate\":\""@ =~= seq!['"'] + ",\"candidate\":\""@);
        assert("\"}"@ =~= seq!['"', '}']);
        assert(seq!['"', '}'] =~= seq!['"'] + seq!['}']);
    }
}

/// Round trip of a `IceCandidate` message.
#[verifier::rlimit(100)]
proof fn lemma_rt_ice(candidate: Seq<char>, room_id: Seq<char>)
    ensures
        parse_msg(encode_msg(MessageView::IceCandidate { candidate, room_id })) == Some(MessageView::IceCandidate { candidate, room_id }),
{
    let m = MessageView::IceCandidate { candidate, room_id };
    let s = encode_msg(m);
    let p = "{\"type\":\"IceCandidate\",\"room_id\":\""@;
    let mid = ",\"candidate\":\""@;
    lemma_shape_ice(candidate, room_id);
    lemma_scan_two(p, room_id, mid, candidate, seq!['}']);
    let j = p.len() + escape_chars(room_id).len() + 1int;
    let k = j + mid.len() + escape_chars(candidate).len() + 1int;
    assert(s.subrange(k, k + 1int)[0] == s[k]);
    assert(parse_tail2(s, p.len() as int, mid) == Some((room_id, candidate)));
    lemma_excluded_before_ice(s);
    lemma_msg_ice_from_parts(s, candidate, room_id);
}

/// The encoder's output for a `VoiceActivity`, cut at the quotes.
#[verifier::rlimit(100)]
proof fn lemma_shape_va(is_speaking: bool, client_id: Seq<char>, room_id: Seq<char>)
    ensures
        encode_msg(MessageView::VoiceActivity { is_speaking, client_id, room_id })
            == "{\"type\":\"VoiceActivity\",\"room_id\":\""@ + escape_chars(room_id) + seq!['"']
            + ",\"client_id\":\""@ + escape_chars(client_id) + seq!['"'] + (if is_speaking {
            ",\"is_speaking\":true}"@
        } else {
            ",\"is_speaking\":false}"@
        }),
{
    reveal_strlit("\",\"client_id\":\"");
    reveal_strlit(",\"client_id\":\"");
    reveal_strlit("\",\"is_speaking\":");
    reveal_strlit(",\"is_speaking\":true}");
    reveal_strlit(",\"is_speaking\":false}");
    reveal_strlit("true}");
    reveal_strlit("false}");
    let boollit = if is_speaking {
        ",\"is_speaking\":true}"@
    } else {
        ",\"is_speaking\":false}"@
    };
    assert(encode_msg(MessageView::VoiceActivity { is_speaking, client_id, room_id })
        =~= "{\"type\":\"VoiceActivity\",\"room_id\":\""@ + escape_chars(room_id) + seq!['"']
        + ",\"client_id\":\""@ + escape_chars(client_id) + seq!['"'] + boollit) by {
        assert("\",\"client_id\":\""@ =~= seq!['"'] + ",\"client_id\":\""@);
        if is_speaking {
            assert("\",\"is_speaking\":"@ + "true}"@ =~= seq!['"'] + ",\"is_speaking\":true}"@);
        } else {
            assert("\",\"is_speaking\":"@ + "false}"@ =~= seq!['"']
                + ",\"is_speaking\":false}"@);
        }
    }
}

/// Round trip of a `VoiceActivity` message.
#[verifier::rlimit(100)]
proof fn lemma_rt_va(is_speaking: bool, client_id: Seq<char>, room_id: Seq<char>)
    ensures
        parse_msg(encode_msg(MessageView::VoiceActivity { is_speaking, client_id, room_id }))
            == Some(MessageView::VoiceActivity { is_speaking, client_id, room_id }),
{
    let m = MessageView::VoiceActivity { is_speaking, client_id, room_id };
    let s = encode_msg(m);
    let p = "{\"type\":\"VoiceActivity\",\"room_id\":\""@;
    let mid = ",\"client_id\":\""@;
    let boollit = if is_speaking {
        ",\"is_speaking\":true}"@
    } else {
        ",\"is_speaking\":false}"@
    };
    lemma_shape_va(is_speaking, client_id, room_id);
    lemma_scan_two(p, room_id, mid, client_id, boollit);
    reveal_strlit(",\"is_speaking\":true}");
    reveal_strlit(",\"is_speaking\":false}");
    let j = p.len() + escape_chars(room_id).len() + 1int;
    let k = j + mid.len() + escape_chars(client_id).len() + 1int;
    if !is_speaking {
        lemma_lit_mismatch(s, k, boollit, ",\"is_speaking\":true}"@, 15);
    }
    assert(parse_va_tail(s, p.len() as int) == Some((room_id, client_id, is_speaking)));
    lemma_excluded_before_va(s);
    assert(parse_msg(s) == Some(m));
}

/// Parsing inverts encoding: every message comes back from its canonical
/// wire form, whatever its field contents hold.
pub proof fn theorem_parse_inverts_encode(m: MessageView)
    ensures
        parse_msg(encode_msg(m)) == Some(m),
{
    match m {
        MessageView::Join { room_id, client_id } => lemma_rt_join(room_id, client_id),
        MessageView::Leave { room_id, client_id } => lemma_rt_leave(room_id, client_id),
        MessageView::Ping { room_id, client_id } => lemma_rt_ping(room_id, client_id),
        MessageView::Welcome { room_id, client_id } => lemma_rt_welcome(room_id, client_id),
        MessageView::Offer { sdp, room_id } => lemma_rt_offer(sdp, room_id),
        MessageView::Answer { sdp, room_id } => lemma_rt_answer(sdp, room_id),
        MessageView::IceCandidate { candidate, room_id } => lemma_rt_ice(candidate, room_id),
        MessageView::VoiceActivity { is_speaking, client_id, room_id } => lemma_rt_va(
            is_speaking,
            client_id,
            room_id,
        ),
    }
}

} // verus!
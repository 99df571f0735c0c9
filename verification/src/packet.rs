//! The structured control packet and its wire codec.
//!
//! A control client configures the daemon by writing one packet to the
//! control socket. The packet carries the enabled flag, the click interval
//! in milliseconds, and the key code of the toggle hotkey, as one
//! JSON-style record with its three fields in this fixed order:
//!
//! ```text
//! {"enabled":false,"interval_ms":100,"hotkey":66}
//! ```
//!
//! Whitespace may stand between the tokens. The record is always at most
//! [`MAX_PACKET_LEN`] bytes long: the encoder emits only ASCII
//! characters and provably no more than that many of them.

use vstd::prelude::*;

use crate::text::dec_u64;
use crate::text::digits_end;
use crate::text::is_digit_char;
use crate::text::lemma_digits_end_run;
use crate::text::lemma_u64_digits_len;
use crate::text::lemma_u64_digits_valid;
use crate::text::next_non_ws;
use crate::text::number_at;
use crate::text::parse_u64_at;
use crate::text::push_u64_digits;
use crate::text::skip_ws_chars;
use crate::text::str_eq;
use crate::text::u64_digits;
use vstd::seq_lib::lemma_concat_associative;
use vstd::string::StrSliceExecFns;
use vstd::string::StringExecFns;

verus! {

/// The values a control client can set: the enabled flag, the click
/// interval in milliseconds, and the key code of the toggle hotkey.
#[derive(Clone, Copy, Debug, PartialEq, Eq, Structural)]
pub struct ServerPacket {
    pub enabled: bool,
    pub interval_ms: u64,
    pub hotkey: u16,
}

/// The largest number of bytes a control packet may occupy on the wire.
pub const MAX_PACKET_LEN: usize = 128;

/// Why a control packet failed to parse.
#[derive(Clone, Copy, Debug, PartialEq, Eq, Structural)]
pub enum PacketParseError {
    /// The connection delivered no text at all.
    EmptyPacket,
    /// The text is not a well-formed packet record.
    Malformed,
}

/// The key of the enabled flag.
pub open spec fn key_enabled() -> Seq<char> {
    seq!['e', 'n', 'a', 'b', 'l', 'e', 'd']
}

/// The key of the click interval.
pub open spec fn key_interval() -> Seq<char> {
    seq!['i', 'n', 't', 'e', 'r', 'v', 'a', 'l', '_', 'm', 's']
}

/// The key of the hotkey code.
pub open spec fn key_hotkey() -> Seq<char> {
    seq!['h', 'o', 't', 'k', 'e', 'y']
}

/// A key as it stands on the wire, in double quotes.
pub open spec fn quoted(name: Seq<char>) -> Seq<char> {
    seq!['"'] + name + seq!['"']
}

/// The position after `lit` when the text carries it verbatim at `i`.
pub open spec fn lit_at(s: Seq<char>, i: int, lit: Seq<char>) -> Option<int> {
    if 0 <= i && i + lit.len() <= s.len() && s.subrange(i, i + lit.len()) == lit {
        Some(i + lit.len())
    } else {
        None
    }
}

/// The position after `lit` when it stands at `i` behind optional
/// whitespace.
pub open spec fn tok_at(s: Seq<char>, i: int, lit: Seq<char>) -> Option<int> {
    lit_at(s, next_non_ws(s, i), lit)
}

/// The position of a member's value: the quoted key, a colon, and any
/// whitespace around them.
pub open spec fn member_at(s: Seq<char>, i: int, qkey: Seq<char>) -> Option<int> {
    match tok_at(s, i, qkey) {
        None => None,
        Some(j) => match tok_at(s, j, seq![':']) {
            None => None,
            Some(k) => Some(next_non_ws(s, k)),
        },
    }
}

/// The boolean literal that starts at `i`, and the position after it.
pub open spec fn bool_at(s: Seq<char>, i: int) -> Option<(bool, int)> {
    if lit_at(s, i, seq!['t', 'r', 'u', 'e']) is Some {
        Some((true, i + 4))
    } else if lit_at(s, i, seq!['f', 'a', 'l', 's', 'e']) is Some {
        Some((false, i + 5))
    } else {
        None
    }
}

/// What parsing a packet record yields: the three members in their fixed
/// order, each value of its field's type, nothing but whitespace after
/// the closing brace, or `None` for any other text.
pub open spec fn spec_parse_packet(s: Seq<char>) -> Option<ServerPacket> {
    match tok_at(s, 0, seq!['{']) {
        None => None,
        Some(i1) => match member_at(s, i1, quoted(key_enabled())) {
            None => None,
            Some(v_en) => match bool_at(s, v_en) {
                None => None,
                Some((enabled, i2)) => match tok_at(s, i2, seq![',']) {
                    None => None,
                    Some(i3) => match member_at(s, i3, quoted(key_interval())) {
                        None => None,
                        Some(v_iv) => match number_at(s, v_iv) {
                            None => None,
                            Some((interval_ms, i4)) => match tok_at(s, i4, seq![',']) {
                                None => None,
                                Some(i5) => match member_at(s, i5, quoted(key_hotkey())) {
                                    None => None,
                                    Some(v_hk) => match number_at(s, v_hk) {
                                        None => None,
                                        Some((hk, i6)) => if hk > u16::MAX as u64 {
                                            None
                                        } else {
                                            match tok_at(s, i6, seq!['}']) {
                                                None => None,
                                                Some(i7) => if next_non_ws(s, i7) == s.len() {
                                                    Some(ServerPacket {
                                                        enabled,
                                                        interval_ms,
                                                        hotkey: hk as u16,
                                                    })
                                                } else {
                                                    None
                                                },
                                            }
                                        },
                                    },
                                },
                            },
                        },
                    },
                },
            },
        },
    }
}

/// Reads one literal at `i`, exactly as [`lit_at`] states.
fn expect_lit(s: &str, i: usize, n: usize, lit: &str) -> (r: Option<usize>)
    requires
        n == s@.len(),
        i <= n,
    ensures
        match r {
            Some(j) => lit_at(s@, i as int, lit@) == Some(j as int) && i <= j <= n,
            None => lit_at(s@, i as int, lit@) is None,
        },
{
    let l = lit.unicode_len();
    if l > n - i {
        return None;
    }
    let sub = s.substring_char(i, i + l);
    if str_eq(sub, lit) {
        Some(i + l)
    } else {
        None
    }
}

/// Reads one literal behind optional whitespace, as [`tok_at`] states.
fn expect_tok(s: &str, i: usize, n: usize, lit: &str) -> (r: Option<usize>)
    requires
        n == s@.len(),
        i <= n,
    ensures
        match r {
            Some(j) => tok_at(s@, i as int, lit@) == Some(j as int) && i <= j <= n,
            None => tok_at(s@, i as int, lit@) is None,
        },
{
    let w = skip_ws_chars(s, i, n);
    expect_lit(s, w, n, lit)
}

/// Reads a member's quoted key and colon, as [`member_at`] states,
/// returning the position of the value.
fn expect_member(s: &str, i: usize, n: usize, qkey: &str) -> (r: Option<usize>)
    requires
        n == s@.len(),
        i <= n,
    ensures
        match r {
            Some(m) => member_at(s@, i as int, qkey@) == Some(m as int) && i <= m <= n,
            None => member_at(s@, i as int, qkey@) is None,
        },
{
    let j = match expect_tok(s, i, n, qkey) {
        None => {
            return None;
        },
        Some(j) => j,
    };
    let colon = ":";
    proof {
        reveal_strlit(":");
    }
    proof {
        assert(colon@ =~= seq![':']);
    }
    let k = match expect_tok(s, j, n, colon) {
        None => {
            return None;
        },
        Some(k) => k,
    };
    Some(skip_ws_chars(s, k, n))
}

/// Reads a boolean literal at `i`, exactly as [`bool_at`] states.
fn expect_bool(s: &str, i: usize, n: usize) -> (r: Option<(bool, usize)>)
    requires
        n == s@.len(),
        i <= n,
    ensures
        match r {
            Some(pair) => bool_at(s@, i as int) == Some((pair.0, pair.1 as int)) && i <= pair.1
                <= n,
            None => bool_at(s@, i as int) is None,
        },
{
    let lit_t = "true";
    let lit_f = "false";
    proof {
        reveal_strlit("true");
        reveal_strlit("false");
    }
    proof {
        assert(lit_t@ =~= seq!['t', 'r', 'u', 'e']);
        assert(lit_f@ =~= seq!['f', 'a', 'l', 's', 'e']);
    }
    match expect_lit(s, i, n, lit_t) {
        Some(j) => Some((true, j)),
        None => match expect_lit(s, i, n, lit_f) {
            Some(j) => Some((false, j)),
            None => None,
        },
    }
}

impl ServerPacket {
    /// Parses the text of one control packet, exactly as
    /// [`spec_parse_packet`] states: the empty text is reported as such,
    /// and any other text that is not a well-formed record is malformed.
    pub fn from_packet(packet: &str) -> (r: Result<ServerPacket, PacketParseError>)
        ensures
            match r {
                Ok(p) => spec_parse_packet(packet@) == Some(p),
                Err(PacketParseError::EmptyPacket) => packet@.len() == 0,
                Err(PacketParseError::Malformed) => packet@.len() > 0 && spec_parse_packet(
                    packet@,
                ) is None,
            },
    {
        let n = packet.unicode_len();
        if n == 0 {
            return Err(PacketParseError::EmptyPacket);
        }
        let lit_open = "{";
        let lit_close = "}";
        let lit_comma = ",";
        let qkey_enabled = "\"enabled\"";
        let qkey_interval = "\"interval_ms\"";
        let qkey_hotkey = "\"hotkey\"";
        proof {
            reveal_strlit("{");
            reveal_strlit("}");
            reveal_strlit(",");
            reveal_strlit("\"enabled\"");
            reveal_strlit("\"interval_ms\"");
            reveal_strlit("\"hotkey\"");
        }
        proof {
            assert(lit_open@ =~= seq!['{']);
            assert(lit_close@ =~= seq!['}']);
            assert(lit_comma@ =~= seq![',']);
            assert(qkey_enabled@ =~= quoted(key_enabled()));
            assert(qkey_interval@ =~= quoted(key_interval()));
            assert(qkey_hotkey@ =~= quoted(key_hotkey()));
        }
        let i1 = match expect_tok(packet, 0, n, lit_open) {
            None => {
                return Err(PacketParseError::Malformed);
            },
            Some(j) => j,
        };
        let v_en = match expect_member(packet, i1, n, qkey_enabled) {
            None => {
                return Err(PacketParseError::Malformed);
            },
            Some(j) => j,
        };
        let (enabled, i2) = match expect_bool(packet, v_en, n) {
            None => {
                return Err(PacketParseError::Malformed);
            },
            Some(pair) => pair,
        };
        let i3 = match expect_tok(packet, i2, n, lit_comma) {
            None => {
                return Err(PacketParseError::Malformed);
            },
            Some(j) => j,
        };
        let v_iv = match expect_member(packet, i3, n, qkey_interval) {
            None => {
                return Err(PacketParseError::Malformed);
            },
            Some(j) => j,
        };
        let (interval_ms, i4) = match parse_u64_at(packet, v_iv, n) {
            None => {
                return Err(PacketParseError::Malformed);
            },
            Some(pair) => pair,
        };
        let i5 = match expect_tok(packet, i4, n, lit_comma) {
            None => {
                return Err(PacketParseError::Malformed);
            },
            Some(j) => j,
        };
        let v_hk = match expect_member(packet, i5, n, qkey_hotkey) {
            None => {
                return Err(PacketParseError::Malformed);
            },
            Some(j) => j,
        };
        let (hk, i6) = match parse_u64_at(packet, v_hk, n) {
            None => {
                return Err(PacketParseError::Malformed);
            },
            Some(pair) => pair,
        };
        if hk > 65535 {
            return Err(PacketParseError::Malformed);
        }
        let i7 = match expect_tok(packet, i6, n, lit_close) {
            None => {
                return Err(PacketParseError::Malformed);
            },
            Some(j) => j,
        };
        let rest = skip_ws_chars(packet, i7, n);
        if rest != n {
            return Err(PacketParseError::Malformed);
        }
        Ok(ServerPacket { enabled, interval_ms, hotkey: hk as u16 })
    }
}

/// Why building a packet from a client's raw fields failed.
#[derive(Clone, Copy, Debug, PartialEq, Eq, Structural)]
pub enum FormulateError {
    /// The interval text is not a decimal number fitting 64 bits.
    InvalidInterval,
    /// The keycode text is not a decimal number fitting 16 bits.
    InvalidKeycode,
}

/// The value of a text that is exactly one decimal number fitting 64
/// bits: an optional leading plus sign, then at least one digit and
/// nothing else, without overflow — the texts that Rust's unsigned
/// parsing accepts.
pub open spec fn spec_parse_u64_text(s: Seq<char>) -> Option<u64> {
    let start: int = if s.len() > 0 && s[0] == '+' {
        1
    } else {
        0
    };
    if start < s.len() && digits_end(s, start) == s.len() {
        dec_u64(s.subrange(start, s.len() as int))
    } else {
        None
    }
}

/// Reads a whole text as one decimal number, exactly as
/// [`spec_parse_u64_text`] states.
fn parse_u64_text(s: &str) -> (r: Option<u64>)
    ensures
        r == spec_parse_u64_text(s@),
{
    let n = s.unicode_len();
    let start: usize = if n > 0 && s.get_char(0) == '+' {
        1
    } else {
        0
    };
    if start >= n {
        return None;
    }
    match parse_u64_at(s, start, n) {
        None => None,
        Some((v, j)) => {
            if j != n {
                None
            } else {
                Some(v)
            }
        },
    }
}

/// Builds a control packet from the raw fields a client holds: the
/// enabled flag, the interval text, and the keycode text. Each text must
/// be one decimal number, optionally behind a leading plus sign; the
/// keycode must also fit a 16-bit code.
pub fn formulate_packet(enabled: bool, interval: &str, keycode: &str) -> (r: Result<
    ServerPacket,
    FormulateError,
>)
    ensures
        match r {
            Ok(p) => p.enabled == enabled && spec_parse_u64_text(interval@) == Some(p.interval_ms)
                && spec_parse_u64_text(keycode@) == Some(p.hotkey as u64),
            Err(FormulateError::InvalidInterval) => spec_parse_u64_text(interval@) is None,
            Err(FormulateError::InvalidKeycode) => spec_parse_u64_text(interval@) is Some && (
            spec_parse_u64_text(keycode@) is None || spec_parse_u64_text(keycode@).unwrap()
                > u16::MAX as u64),
        },
{
    let interval_ms = match parse_u64_text(interval) {
        None => {
            return Err(FormulateError::InvalidInterval);
        },
        Some(v) => v,
    };
    let code = match parse_u64_text(keycode) {
        None => {
            return Err(FormulateError::InvalidKeycode);
        },
        Some(v) => v,
    };
    if code > 65535 {
        return Err(FormulateError::InvalidKeycode);
    }
    Ok(ServerPacket { enabled, interval_ms, hotkey: code as u16 })
}

/// The head of the record: the opening brace and the enabled key.
pub open spec fn lit_head() -> Seq<char> {
    seq!['{', '"', 'e', 'n', 'a', 'b', 'l', 'e', 'd', '"', ':']
}

/// The middle of the record: the comma and the interval key.
pub open spec fn lit_mid_interval() -> Seq<char> {
    seq![',', '"', 'i', 'n', 't', 'e', 'r', 'v', 'a', 'l', '_', 'm', 's', '"', ':']
}

/// The tail of the record's keys: the comma and the hotkey key.
pub open spec fn lit_mid_hotkey() -> Seq<char> {
    seq![',', '"', 'h', 'o', 't', 'k', 'e', 'y', '"', ':']
}

/// The characters of a boolean literal.
pub open spec fn bool_chars(b: bool) -> Seq<char> {
    if b {
        seq!['t', 'r', 'u', 'e']
    } else {
        seq!['f', 'a', 'l', 's', 'e']
    }
}

/// The canonical text of a packet: the three members in their fixed
/// order, without whitespace.
pub open spec fn spec_encode(p: ServerPacket) -> Seq<char> {
    lit_head() + bool_chars(p.enabled) + lit_mid_interval() + u64_digits(p.interval_ms)
        + lit_mid_hotkey() + u64_digits(p.hotkey as u64) + seq!['}']
}

impl ServerPacket {
    /// Writes the packet in its canonical text, which always fits the
    /// wire bound and holds ASCII characters only.
    pub fn to_packet_text(&self) -> (r: String)
        ensures
            r@ == spec_encode(*self),
            r@.len() <= MAX_PACKET_LEN,
            all_ascii(r@),
    {
        let head = "{\"enabled\":";
        let mid_interval = ",\"interval_ms\":";
        let mid_hotkey = ",\"hotkey\":";
        let close = "}";
        let lit_t = "true";
        let lit_f = "false";
        proof {
            reveal_strlit("{\"enabled\":");
            reveal_strlit(",\"interval_ms\":");
            reveal_strlit(",\"hotkey\":");
            reveal_strlit("}");
            reveal_strlit("true");
            reveal_strlit("false");
        }
        proof {
            assert(head@ =~= lit_head());
            assert(mid_interval@ =~= lit_mid_interval());
            assert(mid_hotkey@ =~= lit_mid_hotkey());
            assert(close@ =~= seq!['}']);
            assert(lit_t@ =~= bool_chars(true));
            assert(lit_f@ =~= bool_chars(false));
        }
        let mut out = String::new();
        out.append(head);
        if self.enabled {
            out.append(lit_t);
        } else {
            out.append(lit_f);
        }
        out.append(mid_interval);
        push_u64_digits(&mut out, self.interval_ms);
        out.append(mid_hotkey);
        push_u64_digits(&mut out, self.hotkey as u64);
        out.append(close);
        proof {
            assert(out@ =~= spec_encode(*self));
            lemma_u64_digits_len(self.interval_ms);
            lemma_u64_digits_len(self.hotkey as u64);
            lemma_encode_all_ascii(*self);
        }
        out
    }
}

/// A literal is found exactly where it stands in a concatenation.
proof fn lemma_lit_at_prefix(pre: Seq<char>, lit: Seq<char>, rest: Seq<char>)
    ensures
        lit_at(pre + lit + rest, pre.len() as int, lit) == Some((pre.len() + lit.len()) as int),
{
    let s = pre + lit + rest;
    assert(s.subrange(pre.len() as int, (pre.len() + lit.len()) as int) =~= lit);
}
/// Every character has a code below 128, so the text's byte count under
/// any ASCII-compatible encoding equals its character count.
pub open spec fn all_ascii(s: Seq<char>) -> bool {
    forall|i: int| 0 <= i < s.len() ==> (#[trigger] s[i] as u32) < 128
}

proof fn lemma_all_ascii_concat(a: Seq<char>, b: Seq<char>)
    requires
        all_ascii(a),
        all_ascii(b),
    ensures
        all_ascii(a + b),
{
    assert forall|i: int| 0 <= i < (a + b).len() implies ((a + b)[i] as u32) < 128 by {
        if i < a.len() {
            assert((a + b)[i] == a[i]);
        } else {
            assert((a + b)[i] == b[i - a.len()]);
        }
    }
}

proof fn lemma_digits_all_ascii(v: u64)
    ensures
        all_ascii(u64_digits(v)),
{
    lemma_u64_digits_valid(v);
    assert forall|i: int| 0 <= i < u64_digits(v).len() implies ((u64_digits(v)[i]) as u32)
        < 128 by {
        assert(is_digit_char(u64_digits(v)[i]));
    }
}

/// The canonical text holds nothing but ASCII characters.
pub proof fn lemma_encode_all_ascii(p: ServerPacket)
    ensures
        all_ascii(spec_encode(p)),
{
    lemma_digits_all_ascii(p.interval_ms);
    lemma_digits_all_ascii(p.hotkey as u64);
    assert(all_ascii(lit_head()));
    assert(all_ascii(lit_mid_interval()));
    assert(all_ascii(lit_mid_hotkey()));
    assert(all_ascii(bool_chars(p.enabled)));
    assert(all_ascii(seq!['}']));
    lemma_all_ascii_concat(lit_head(), bool_chars(p.enabled));
    lemma_all_ascii_concat(lit_head() + bool_chars(p.enabled), lit_mid_interval());
    lemma_all_ascii_concat(
        lit_head() + bool_chars(p.enabled) + lit_mid_interval(),
        u64_digits(p.interval_ms),
    );
    lemma_all_ascii_concat(
        lit_head() + bool_chars(p.enabled) + lit_mid_interval() + u64_digits(p.interval_ms),
        lit_mid_hotkey(),
    );
    lemma_all_ascii_concat(
        lit_head() + bool_chars(p.enabled) + lit_mid_interval() + u64_digits(p.interval_ms)
            + lit_mid_hotkey(),
        u64_digits(p.hotkey as u64),
    );
    lemma_all_ascii_concat(
        lit_head() + bool_chars(p.enabled) + lit_mid_interval() + u64_digits(p.interval_ms)
            + lit_mid_hotkey() + u64_digits(p.hotkey as u64),
        seq!['}'],
    );
}

/// The canonical text, reassociated so that each token heads its own
/// tail.
proof fn lemma_encode_right_assoc(p: ServerPacket)
    ensures
        spec_encode(p) == seq!['{'] + (quoted(key_enabled()) + (seq![':'] + (bool_chars(p.enabled)
            + (seq![','] + (quoted(key_interval()) + (seq![':'] + (u64_digits(p.interval_ms)
            + (seq![','] + (quoted(key_hotkey()) + (seq![':'] + (u64_digits(p.hotkey as u64)
            + seq!['}']))))))))))),
{
    let s = spec_encode(p);
    let qe = quoted(key_enabled());
    let qi = quoted(key_interval());
    let qh = quoted(key_hotkey());
    let b = bool_chars(p.enabled);
    let d = u64_digits(p.interval_ms);
    let f = u64_digits(p.hotkey as u64);
    let brace = seq!['{'];
    let brace2 = seq!['}'];
    let colon = seq![':'];
    let comma = seq![','];
    let r12 = f + brace2;
    let r11 = colon + r12;
    let r10 = qh + r11;
    let r9 = comma + r10;
    let r8 = d + r9;
    let r7 = colon + r8;
    let r6 = qi + r7;
    let r5 = comma + r6;
    let r4 = b + r5;
    let r3 = colon + r4;
    let r2 = qe + r3;
    let h = lit_head();
    let c = lit_mid_interval();
    let e = lit_mid_hotkey();
    assert(h =~= brace + qe + colon);
    assert(c =~= comma + qi + colon);
    assert(e =~= comma + qh + colon);
    assert(s == h + b + c + d + e + f + brace2);
    lemma_concat_associative(h + b + c + d + e, f, brace2);
    assert(s == (h + b + c + d + e) + r12);
    lemma_concat_associative(h + b + c + d, e, r12);
    lemma_concat_associative(comma + qh, colon, r12);
    lemma_concat_associative(comma, qh, r11);
    assert(e + r12 == r9);
    assert(s == (h + b + c + d) + r9);
    lemma_concat_associative(h + b + c, d, r9);
    assert(s == (h + b + c) + r8);
    lemma_concat_associative(h + b, c, r8);
    lemma_concat_associative(comma + qi, colon, r8);
    lemma_concat_associative(comma, qi, r7);
    assert(c + r8 == r5);
    assert(s == (h + b) + r5);
    lemma_concat_associative(h, b, r5);
    assert(s == h + r4);
    lemma_concat_associative(brace + qe, colon, r4);
    lemma_concat_associative(brace, qe, r3);
    assert(s == brace + r2);
}

/// The head of the canonical text parses: the opening brace, the enabled
/// member, and its boolean value stand where the parser looks for them.
#[verifier::rlimit(100)]
proof fn lemma_encode_head(p: ServerPacket)
    ensures
        ({
            let s = spec_encode(p);
            let bl = bool_chars(p.enabled).len() as int;
            &&& tok_at(s, 0, seq!['{']) == Some(1int)
            &&& member_at(s, 1, quoted(key_enabled())) == Some(11int)
            &&& bool_at(s, 11) == Some((p.enabled, 11 + bl))
        }),
{
    let s = spec_encode(p);
    let qe = quoted(key_enabled());
    let qi = quoted(key_interval());
    let qh = quoted(key_hotkey());
    let b = bool_chars(p.enabled);
    let d = u64_digits(p.interval_ms);
    let f = u64_digits(p.hotkey as u64);
    let brace = seq!['{'];
    let brace2 = seq!['}'];
    let colon = seq![':'];
    let comma = seq![','];
    let r12 = f + brace2;
    let r11 = colon + r12;
    let r10 = qh + r11;
    let r9 = comma + r10;
    let r8 = d + r9;
    let r7 = colon + r8;
    let r6 = qi + r7;
    let r5 = comma + r6;
    let r4 = b + r5;
    let r3 = colon + r4;
    let r2 = qe + r3;
    lemma_encode_right_assoc(p);
    assert(s == brace + r2);
    let x1 = brace;
    let x2 = x1 + qe;
    let x3 = x2 + colon;

    assert(Seq::<char>::empty() + brace =~= brace);
    assert(s == Seq::<char>::empty() + brace + r2);
    lemma_lit_at_prefix(Seq::<char>::empty(), brace, r2);
    assert(s[0] == '{');
    assert(next_non_ws(s, 0) == 0);
    assert(tok_at(s, 0, seq!['{']) == Some(1int));

    lemma_concat_associative(x1, qe, r3);
    lemma_lit_at_prefix(x1, qe, r3);
    assert(lit_at(s, 1, qe) == Some(10int));
    assert(s[1] == qe[0]);
    assert(next_non_ws(s, 1) == 1);
    assert(s == x2 + r3);
    lemma_concat_associative(x2, colon, r4);
    lemma_lit_at_prefix(x2, colon, r4);
    assert(lit_at(s, 10, colon) == Some(11int));
    assert(s[10] == ':');
    assert(next_non_ws(s, 10) == 10);
    assert(s == x3 + r4);
    lemma_concat_associative(x3, b, r5);
    lemma_lit_at_prefix(x3, b, r5);
    assert(lit_at(s, 11, b) == Some(11 + b.len() as int));
    assert(s[11] == b[0]);
    assert(b[0] == 't' || b[0] == 'f');
    assert(next_non_ws(s, 11) == 11);
    assert(member_at(s, 1, qe) == Some(11int));

    if p.enabled {
        assert(bool_at(s, 11) == Some((true, 11 + b.len() as int)));
    } else {
        assert(lit_at(s, 11, seq!['t', 'r', 'u', 'e']) is None) by {
            if lit_at(s, 11, seq!['t', 'r', 'u', 'e']) is Some {
                assert(s.subrange(11, 15) == seq!['t', 'r', 'u', 'e']);
                assert(s.subrange(11, 15)[0] == 't');
            }
        }
        assert(bool_at(s, 11) == Some((false, 11 + b.len() as int)));
    }
}

/// The middle of the canonical text parses: the comma, the interval
/// member, and its digits stand where the parser looks for them.
#[verifier::rlimit(100)]
proof fn lemma_encode_interval(p: ServerPacket)
    ensures
        ({
            let s = spec_encode(p);
            let bl = bool_chars(p.enabled).len() as int;
            let dl = u64_digits(p.interval_ms).len() as int;
            &&& tok_at(s, 11 + bl, seq![',']) == Some(12 + bl)
            &&& member_at(s, 12 + bl, quoted(key_interval())) == Some(26 + bl)
            &&& number_at(s, 26 + bl) == Some((p.interval_ms, 26 + bl + dl))
        }),
{
    let s = spec_encode(p);
    let qe = quoted(key_enabled());
    let qi = quoted(key_interval());
    let qh = quoted(key_hotkey());
    let b = bool_chars(p.enabled);
    let d = u64_digits(p.interval_ms);
    let f = u64_digits(p.hotkey as u64);
    let brace = seq!['{'];
    let brace2 = seq!['}'];
    let colon = seq![':'];
    let comma = seq![','];
    let r12 = f + brace2;
    let r11 = colon + r12;
    let r10 = qh + r11;
    let r9 = comma + r10;
    let r8 = d + r9;
    let r7 = colon + r8;
    let r6 = qi + r7;
    let r5 = comma + r6;
    let r4 = b + r5;
    let r3 = colon + r4;
    let r2 = qe + r3;
    lemma_encode_right_assoc(p);
    assert(s == brace + r2);
    lemma_u64_digits_valid(p.interval_ms);
    let x2 = brace + qe;
    let x3 = x2 + colon;
    let x4 = x3 + b;
    let x5 = x4 + comma;
    let x6 = x5 + qi;
    let x7 = x6 + colon;
    let x8 = x7 + d;
    let bl = b.len() as int;
    let dl = d.len() as int;
    lemma_concat_associative(brace, qe, r3);
    assert(s == x2 + r3);
    lemma_concat_associative(x2, colon, r4);
    assert(s == x3 + r4);
    lemma_concat_associative(x3, b, r5);
    assert(s == x4 + r5);

    lemma_concat_associative(x4, comma, r6);
    lemma_lit_at_prefix(x4, comma, r6);
    assert(lit_at(s, 11 + bl, comma) == Some(12 + bl));
    assert(s[11 + bl] == ',');
    assert(next_non_ws(s, 11 + bl) == 11 + bl);
    assert(tok_at(s, 11 + bl, seq![',']) == Some(12 + bl));
    assert(s == x5 + r6);
    lemma_concat_associative(x5, qi, r7);
    lemma_lit_at_prefix(x5, qi, r7);
    assert(lit_at(s, 12 + bl, qi) == Some(25 + bl));
    assert(s[12 + bl] == qi[0]);
    assert(next_non_ws(s, 12 + bl) == 12 + bl);
    assert(s == x6 + r7);
    lemma_concat_associative(x6, colon, r8);
    lemma_lit_at_prefix(x6, colon, r8);
    assert(lit_at(s, 25 + bl, colon) == Some(26 + bl));
    assert(s[25 + bl] == ':');
    assert(next_non_ws(s, 25 + bl) == 25 + bl);
    assert(s == x7 + r8);
    lemma_concat_associative(x7, d, r9);
    lemma_lit_at_prefix(x7, d, r9);
    assert(lit_at(s, 26 + bl, d) == Some(26 + bl + dl));
    assert(s.subrange(26 + bl, 26 + bl + dl) == d);
    assert(s[26 + bl] == d[0]);
    assert(is_digit_char(d[0]));
    assert(next_non_ws(s, 26 + bl) == 26 + bl);
    assert(member_at(s, 12 + bl, qi) == Some(26 + bl));

    assert forall|k: int| 26 + bl <= k < 26 + bl + dl implies is_digit_char(
        #[trigger] s[k],
    ) by {
        assert(s[k] == s.subrange(26 + bl, 26 + bl + dl)[k - 26 - bl]);
    }
    assert(s == x8 + r9);
    lemma_concat_associative(x8, comma, r10);
    lemma_lit_at_prefix(x8, comma, r10);
    assert(s[26 + bl + dl] == ',');
    lemma_digits_end_run(s, 26 + bl, 26 + bl + dl);
    assert(number_at(s, 26 + bl) == Some((p.interval_ms, 26 + bl + dl)));
}

/// The tail of the canonical text parses: the comma, the hotkey member,
/// its digits, the closing brace, and nothing after it.
#[verifier::rlimit(100)]
proof fn lemma_encode_tail(p: ServerPacket)
    ensures
        ({
            let s = spec_encode(p);
            let bl = bool_chars(p.enabled).len() as int;
            let dl = u64_digits(p.interval_ms).len() as int;
            let fl = u64_digits(p.hotkey as u64).len() as int;
            &&& tok_at(s, 26 + bl + dl, seq![',']) == Some(27 + bl + dl)
            &&& member_at(s, 27 + bl + dl, quoted(key_hotkey())) == Some(36 + bl + dl)
            &&& number_at(s, 36 + bl + dl) == Some((p.hotkey as u64, 36 + bl + dl + fl))
            &&& tok_at(s, 36 + bl + dl + fl, seq!['}']) == Some(37 + bl + dl + fl)
            &&& s.len() == 37 + bl + dl + fl
            &&& next_non_ws(s, 37 + bl + dl + fl) == 37 + bl + dl + fl
        }),
{
    let s = spec_encode(p);
    let qe = quoted(key_enabled());
    let qi = quoted(key_interval());
    let qh = quoted(key_hotkey());
    let b = bool_chars(p.enabled);
    let d = u64_digits(p.interval_ms);
    let f = u64_digits(p.hotkey as u64);
    let brace = seq!['{'];
    let brace2 = seq!['}'];
    let colon = seq![':'];
    let comma = seq![','];
    let r12 = f + brace2;
    let r11 = colon + r12;
    let r10 = qh + r11;
    let r9 = comma + r10;
    let r8 = d + r9;
    let r7 = colon + r8;
    let r6 = qi + r7;
    let r5 = comma + r6;
    let r4 = b + r5;
    let r3 = colon + r4;
    let r2 = qe + r3;
    lemma_encode_right_assoc(p);
    assert(s == brace + r2);
    lemma_u64_digits_valid(p.hotkey as u64);
    let x2 = brace + qe;
    let x3 = x2 + colon;
    let x4 = x3 + b;
    let x5 = x4 + comma;
    let x6 = x5 + qi;
    let x7 = x6 + colon;
    let x8 = x7 + d;
    let x9 = x8 + comma;
    let x10 = x9 + qh;
    let x11 = x10 + colon;
    let x12 = x11 + f;
    let bl = b.len() as int;
    let dl = d.len() as int;
    let fl = f.len() as int;
    lemma_concat_associative(brace, qe, r3);
    assert(s == x2 + r3);
    lemma_concat_associative(x2, colon, r4);
    assert(s == x3 + r4);
    lemma_concat_associative(x3, b, r5);
    assert(s == x4 + r5);
    lemma_concat_associative(x4, comma, r6);
    assert(s == x5 + r6);
    lemma_concat_associative(x5, qi, r7);
    assert(s == x6 + r7);
    lemma_concat_associative(x6, colon, r8);
    assert(s == x7 + r8);
    lemma_concat_associative(x7, d, r9);
    assert(s == x8 + r9);

    lemma_concat_associative(x8, comma, r10);
    lemma_lit_at_prefix(x8, comma, r10);
    assert(lit_at(s, 26 + bl + dl, comma) == Some(27 + bl + dl));
    assert(s[26 + bl + dl] == ',');
    assert(next_non_ws(s, 26 + bl + dl) == 26 + bl + dl);
    assert(tok_at(s, 26 + bl + dl, seq![',']) == Some(27 + bl + dl));
    assert(s == x9 + r10);
    lemma_concat_associative(x9, qh, r11);
    lemma_lit_at_prefix(x9, qh, r11);
    assert(lit_at(s, 27 + bl + dl, qh) == Some(35 + bl + dl));
    assert(s[27 + bl + dl] == qh[0]);
    assert(next_non_ws(s, 27 + bl + dl) == 27 + bl + dl);
    assert(s == x10 + r11);
    lemma_concat_associative(x10, colon, r12);
    lemma_lit_at_prefix(x10, colon, r12);
    assert(lit_at(s, 35 + bl + dl, colon) == Some(36 + bl + dl));
    assert(s[35 + bl + dl] == ':');
    assert(next_non_ws(s, 35 + bl + dl) == 35 + bl + dl);
    assert(s == x11 + r12);
    lemma_concat_associative(x11, f, brace2);
    lemma_lit_at_prefix(x11, f, brace2);
    assert(lit_at(s, 36 + bl + dl, f) == Some(36 + bl + dl + fl));
    assert(s.subrange(36 + bl + dl, 36 + bl + dl + fl) == f);
    assert(s[36 + bl + dl] == f[0]);
    assert(is_digit_char(f[0]));
    assert(next_non_ws(s, 36 + bl + dl) == 36 + bl + dl);
    assert(member_at(s, 27 + bl + dl, qh) == Some(36 + bl + dl));

    assert forall|k: int| 36 + bl + dl <= k < 36 + bl + dl + fl implies is_digit_char(
        #[trigger] s[k],
    ) by {
        assert(s[k] == s.subrange(36 + bl + dl, 36 + bl + dl + fl)[k - 36 - bl - dl]);
    }
    assert(s == x12 + brace2);
    assert(x12 + brace2 + Seq::<char>::empty() =~= x12 + brace2);
    lemma_lit_at_prefix(x12, brace2, Seq::<char>::empty());
    assert(s[36 + bl + dl + fl] == '}');
    lemma_digits_end_run(s, 36 + bl + dl, 36 + bl + dl + fl);
    assert(number_at(s, 36 + bl + dl) == Some((p.hotkey as u64, 36 + bl + dl + fl)));

    assert(next_non_ws(s, 36 + bl + dl + fl) == 36 + bl + dl + fl);
    assert(tok_at(s, 36 + bl + dl + fl, seq!['}']) == Some(37 + bl + dl + fl));
    assert(s.len() == 37 + bl + dl + fl);
    assert(next_non_ws(s, 37 + bl + dl + fl) == 37 + bl + dl + fl);
}

/// The codec round-trips: the canonical text of any packet parses back
/// to exactly that packet, so a configuration written with
/// [`ServerPacket::to_packet_text`] arrives unchanged.
pub proof fn lemma_encode_parses(p: ServerPacket)
    ensures
        spec_parse_packet(spec_encode(p)) == Some(p),
{
    let s = spec_encode(p);
    lemma_encode_head(p);
    lemma_encode_interval(p);
    lemma_encode_tail(p);
    assert(spec_parse_packet(s) == Some(p));
}

} // verus!

//! Wire encoding of the broker-to-consumer delivery frame: the full packet
//! record as one structured-data object. The encoder is written here, against
//! an exact character-level model, so the delivery text is pinned down for
//! every packet; string fields are escaped, the payload text is embedded
//! unmodified as the last member.

use vstd::prelude::*;

use crate::packet::Packet;
use crate::packet::PacketModel;
use vstd::std_specs::iter::IteratorSpec;
use vstd::string::StrSliceExecFns;

verus! {

broadcast use vstd::string::axiom_spec_iter, vstd::string::next_postcondition;

pub open spec fn dec_digit(d: int) -> char {
    if d == 0 {
        '0'
    } else if d == 1 {
        '1'
    } else if d == 2 {
        '2'
    } else if d == 3 {
        '3'
    } else if d == 4 {
        '4'
    } else if d == 5 {
        '5'
    } else if d == 6 {
        '6'
    } else if d == 7 {
        '7'
    } else if d == 8 {
        '8'
    } else {
        '9'
    }
}

pub open spec fn hex_digit(d: int) -> char {
    if d < 10 {
        dec_digit(d)
    } else if d == 10 {
        'a'
    } else if d == 11 {
        'b'
    } else if d == 12 {
        'c'
    } else if d == 13 {
        'd'
    } else if d == 14 {
        'e'
    } else {
        'f'
    }
}

/// Decimal text of a non-negative integer, without leading zeroes.
pub open spec fn dec_text(n: int) -> Seq<char>
    decreases n,
{
    if n < 10 {
        seq![dec_digit(n)]
    } else {
        dec_text(n / 10).push(dec_digit(n % 10))
    }
}

/// Hexadecimal text of `n`'s low `width` digits, zero-padded.
pub open spec fn hex_text(n: int, width: nat) -> Seq<char>
    decreases width,
{
    if width == 0 {
        Seq::empty()
    } else {
        hex_text(n / 16, (width - 1) as nat).push(hex_digit(n % 16))
    }
}

/// The canonical lower-case hyphenated text of a 128-bit identity, in groups
/// of 8, 4, 4, 4 and 12 hexadecimal digits.
pub open spec fn uuid_text(n: u128) -> Seq<char> {
    hex_text(n as int / 0x1000000000000000000000000, 8) + seq!['-'] + hex_text(
        (n as int / 0x100000000000000000000) % 0x10000,
        4,
    ) + seq!['-'] + hex_text((n as int / 0x10000000000000000) % 0x10000, 4) + seq!['-'] + hex_text(
        (n as int / 0x1000000000000) % 0x10000,
        4,
    ) + seq!['-'] + hex_text(n as int % 0x1000000000000, 12)
}

/// How one character is written inside a quoted string: quote and backslash
/// get a backslash, control characters become a six-character escape, every
/// other character stands for itself.
pub open spec fn esc_char(c: char) -> Seq<char> {
    if c == '"' {
        seq!['\\', '"']
    } else if c == '\\' {
        seq!['\\', '\\']
    } else if (c as u32) < 32 {
        seq!['\\', 'u', '0', '0', hex_digit(c as u32 as int / 16), hex_digit(c as u32 as int % 16)]
    } else {
        seq![c]
    }
}

/// The escaped form of a whole string.
pub open spec fn escape(s: Seq<char>) -> Seq<char>
    decreases s.len(),
{
    if s.len() == 0 {
        Seq::empty()
    } else {
        esc_char(s[0]) + escape(s.drop_first())
    }
}

pub open spec fn bool_text(b: bool) -> Seq<char> {
    if b {
        "true"@
    } else {
        "false"@
    }
}

/// The text of a delivery frame from its integrity-tag member on: the
/// placeholder tag, priority, time-to-live and consumed flag, and the
/// payload text embedded unmodified as the last member.
pub open spec fn delivery_tail_text(m: PacketModel) -> Seq<char> {
    "\",\"hash\":\""@ + (escape(m.hash) + ("\",\"priority\":"@ + (dec_text(m.priority as int) + (
    ",\"ttl\":"@ + (dec_text(m.ttl as int) + (",\"consumed\":"@ + (bool_text(m.consumed) + (
    ",\"payload\":"@ + (m.payload + "}"@)))))))))
}

/// The delivery frame for one packet: every field of the record.
pub open spec fn packet_text(m: PacketModel) -> Seq<char> {
    "{\"message_uuid\":\""@ + (uuid_text(m.message_uuid) + ("\",\"timestamp\":"@ + (dec_text(
        m.timestamp as int,
    ) + (",\"event_type\":\""@ + (escape(m.event_type) + ("\",\"identifier_source\":\""@ + (
    uuid_text(m.identifier_source) + ("\",\"identifier_destination\":\""@ + (uuid_text(
        m.identifier_destination,
    ) + delivery_tail_text(m))))))))))
}

fn dec_digit_char(d: u64) -> (c: char)
    requires
        d < 10,
    ensures
        c == dec_digit(d as int),
{
    match d {
        0 => '0',
        1 => '1',
        2 => '2',
        3 => '3',
        4 => '4',
        5 => '5',
        6 => '6',
        7 => '7',
        8 => '8',
        _ => '9',
    }
}

fn hex_digit_char(d: u64) -> (c: char)
    requires
        d < 16,
    ensures
        c == hex_digit(d as int),
{
    if d < 10 {
        dec_digit_char(d)
    } else {
        match d {
            10 => 'a',
            11 => 'b',
            12 => 'c',
            13 => 'd',
            14 => 'e',
            _ => 'f',
        }
    }
}

fn push_dec(out: &mut Vec<char>, n: u64)
    ensures
        final(out)@ == old(out)@ + dec_text(n as int),
    decreases n,
{
    if n < 10 {
        out.push(dec_digit_char(n));
        proof {
            assert(out@ =~= old(out)@ + dec_text(n as int));
        }
    } else {
        push_dec(out, n / 10);
        out.push(dec_digit_char(n % 10));
        proof {
            assert(out@ =~= old(out)@ + dec_text(n as int));
        }
    }
}

fn push_hex(out: &mut Vec<char>, n: u128, width: u8)
    ensures
        final(out)@ == old(out)@ + hex_text(n as int, width as nat),
    decreases width,
{
    if width == 0 {
        proof {
            assert(out@ =~= old(out)@ + hex_text(n as int, 0));
        }
    } else {
        push_hex(out, n / 16, width - 1);
        out.push(hex_digit_char((n % 16) as u64));
        proof {
            assert(out@ =~= old(out)@ + hex_text(n as int, width as nat));
        }
    }
}

fn push_uuid(out: &mut Vec<char>, n: u128)
    ensures
        final(out)@ == old(out)@ + uuid_text(n),
{
    push_hex(out, n / 0x1000000000000000000000000u128, 8);
    out.push('-');
    push_hex(out, (n / 0x100000000000000000000u128) % 0x10000, 4);
    out.push('-');
    push_hex(out, (n / 0x10000000000000000u128) % 0x10000, 4);
    out.push('-');
    push_hex(out, (n / 0x1000000000000u128) % 0x10000, 4);
    out.push('-');
    push_hex(out, n % 0x1000000000000u128, 12);
    proof {
        assert(out@ =~= old(out)@ + uuid_text(n));
    }
}

fn push_literal(out: &mut Vec<char>, s: &str)
    ensures
        final(out)@ == old(out)@ + s@,
{
    let mut it = s.chars();
    let ghost mut k: int = 0;
    proof {
        assert(it.remaining() =~= s@.skip(0));
        assert(out@ =~= old(out)@ + s@.take(0));
    }
    loop
        invariant
            0 <= k <= s@.len(),
            it.remaining() == s@.skip(k),
            out@ == old(out)@ + s@.take(k),
        ensures
            out@ == old(out)@ + s@,
        decreases s@.len() - k,
    {
        let ghost rem_before = it.remaining();
        match it.next() {
            Some(c) => {
                proof {
                    assert(rem_before.len() > 0);
                    assert(c == rem_before[0]);
                    assert(c == s@[k]);
                    assert(it.remaining() =~= s@.skip(k + 1));
                    assert(s@.take(k + 1) =~= s@.take(k).push(s@[k]));
                    k = k + 1;
                }
                out.push(c);
            },
            None => {
                proof {
                    assert(rem_before.len() == 0);
                    assert(k == s@.len());
                    assert(s@.take(k) =~= s@);
                }
                break ;
            },
        }
    }
}

proof fn lemma_escape_snoc(t: Seq<char>, c: char)
    ensures
        escape(t.push(c)) == escape(t) + esc_char(c),
    decreases t.len(),
{
    reveal_with_fuel(escape, 3);
    if t.len() == 0 {
        assert(t.push(c)[0] == c);
        assert(t.push(c).drop_first() =~= Seq::<char>::empty());
        assert(escape(t.push(c)) == esc_char(c) + escape(t.push(c).drop_first()));
        assert(escape(t.push(c).drop_first()) == Seq::<char>::empty());
        assert(escape(t) == Seq::<char>::empty());
        assert(escape(t.push(c)) =~= escape(t) + esc_char(c));
    } else {
        assert(t.push(c)[0] == t[0]);
        assert(t.push(c).drop_first() =~= t.drop_first().push(c));
        lemma_escape_snoc(t.drop_first(), c);
        assert(t.push(c).len() != 0);
        assert(escape(t.push(c)) == esc_char(t[0]) + escape(t.push(c).drop_first()));
        assert(escape(t.push(c).drop_first()) == escape(t.drop_first()) + esc_char(c));
        assert(escape(t) == esc_char(t[0]) + escape(t.drop_first()));
        assert(escape(t.push(c)) =~= escape(t) + esc_char(c));
    }
}

fn push_escaped(out: &mut Vec<char>, s: &str)
    ensures
        final(out)@ == old(out)@ + escape(s@),
{
    let mut it = s.chars();
    let ghost mut k: int = 0;
    proof {
        assert(s@.take(0) =~= Seq::<char>::empty());
        assert(escape(s@.take(0)) =~= Seq::<char>::empty());
        assert(it.remaining() =~= s@.skip(0));
        assert(out@ =~= old(out)@ + escape(s@.take(0)));
    }
    loop
        invariant
            0 <= k <= s@.len(),
            it.remaining() == s@.skip(k),
            out@ == old(out)@ + escape(s@.take(k)),
        ensures
            out@ == old(out)@ + escape(s@),
        decreases s@.len() - k,
    {
        let ghost rem_before = it.remaining();
        match it.next() {
            Some(c) => {
                proof {
                    assert(rem_before.len() > 0);
                    assert(c == rem_before[0]);
                    assert(c == s@[k]);
                    assert(it.remaining() =~= s@.skip(k + 1));
                    assert(s@.take(k + 1) =~= s@.take(k).push(s@[k]));
                    lemma_escape_snoc(s@.take(k), c);
                }
                let ghost k_pre = k;
                proof {
                    k = k + 1;
                }
                if c == '"' {
                    out.push('\\');
                    out.push('"');
                    proof {
                        assert(out@ =~= old(out)@ + escape(s@.take(k_pre + 1)));
                        assert(out@ =~= old(out)@ + escape(s@.take(k)));
                    }
                } else if c == '\\' {
                    out.push('\\');
                    out.push('\\');
                    proof {
                        assert(out@ =~= old(out)@ + escape(s@.take(k_pre + 1)));
                        assert(out@ =~= old(out)@ + escape(s@.take(k)));
                    }
                } else if (c as u32) < 32 {
                    let v = c as u32;
                    out.push('\\');
                    out.push('u');
                    out.push('0');
                    out.push('0');
                    out.push(hex_digit_char((v / 16) as u64));
                    out.push(hex_digit_char((v % 16) as u64));
                    proof {
                        assert(out@ =~= old(out)@ + escape(s@.take(k_pre + 1)));
                        assert(out@ =~= old(out)@ + escape(s@.take(k)));
                    }
                } else {
                    out.push(c);
                    proof {
                        assert(out@ =~= old(out)@ + escape(s@.take(k_pre + 1)));
                        assert(out@ =~= old(out)@ + escape(s@.take(k)));
                    }
                }
            },
            None => {
                proof {
                    assert(rem_before.len() == 0);
                    assert(k == s@.len());
                    assert(s@.take(k) =~= s@);
                }
                break ;
            },
        }
    }
}

/// The numeric value a hexadecimal digit spells, or a negative value for
/// every other character.
pub open spec fn hex_val(c: char) -> int {
    if c == '0' {
        0
    } else if c == '1' {
        1
    } else if c == '2' {
        2
    } else if c == '3' {
        3
    } else if c == '4' {
        4
    } else if c == '5' {
        5
    } else if c == '6' {
        6
    } else if c == '7' {
        7
    } else if c == '8' {
        8
    } else if c == '9' {
        9
    } else if c == 'a' {
        10
    } else if c == 'b' {
        11
    } else if c == 'c' {
        12
    } else if c == 'd' {
        13
    } else if c == 'e' {
        14
    } else if c == 'f' {
        15
    } else {
        -1
    }
}

/// Reading an escaped string back: the inverse of `escape`. Nothing is
/// produced for text that is not the escaped form of anything.
pub open spec fn unescape(s: Seq<char>) -> Option<Seq<char>>
    decreases s.len(),
{
    if s.len() == 0 {
        Some(Seq::empty())
    } else if s[0] != '\\' {
        match unescape(s.drop_first()) {
            Some(r) => Some(seq![s[0]] + r),
            None => None,
        }
    } else if s.len() >= 2 && s[1] == '"' {
        match unescape(s.skip(2)) {
            Some(r) => Some(seq!['"'] + r),
            None => None,
        }
    } else if s.len() >= 2 && s[1] == '\\' {
        match unescape(s.skip(2)) {
            Some(r) => Some(seq!['\\'] + r),
            None => None,
        }
    } else if s.len() >= 6 && s[1] == 'u' && s[2] == '0' && s[3] == '0' && hex_val(s[4]) >= 0
        && hex_val(s[5]) >= 0 {
        match unescape(s.skip(6)) {
            Some(r) => Some(seq![((16 * hex_val(s[4]) + hex_val(s[5])) as u32) as char] + r),
            None => None,
        }
    } else {
        None
    }
}

proof fn lemma_hex_val_of_digit(d: int)
    requires
        0 <= d < 16,
    ensures
        hex_val(hex_digit(d)) == d,
{
}

/// Law: escaping loses nothing. Reading an escaped string back yields
/// exactly the original, character for character — so the string fields of
/// a delivery frame survive the round trip through the wire bit for bit.
pub proof fn lemma_escape_invertible(s: Seq<char>)
    ensures
        unescape(escape(s)) == Some(s),
    decreases s.len(),
{
    if s.len() == 0 {
        assert(escape(s) == Seq::<char>::empty());
        assert(unescape(escape(s)) == Some(Seq::<char>::empty()));
        assert(Seq::<char>::empty() =~= s);
    } else {
        let c = s[0];
        let rest = s.drop_first();
        lemma_escape_invertible(rest);
        let t = escape(s);
        assert(t == esc_char(c) + escape(rest));
        if c == '"' {
            assert(t[0] == '\\' && t[1] == '"');
            assert(t.len() >= 2);
            assert(t.skip(2) =~= escape(rest));
            assert(unescape(t) == Some(seq!['"'] + rest));
            assert(seq!['"'] + rest =~= s);
        } else if c == '\\' {
            assert(t[0] == '\\' && t[1] == '\\');
            assert(t.len() >= 2);
            assert(t.skip(2) =~= escape(rest));
            assert(unescape(t) == Some(seq!['\\'] + rest));
            assert(seq!['\\'] + rest =~= s);
        } else if (c as u32) < 32 {
            let v = c as u32 as int;
            assert(t[0] == '\\' && t[1] == 'u' && t[2] == '0' && t[3] == '0');
            assert(t[4] == hex_digit(v / 16) && t[5] == hex_digit(v % 16));
            assert(t.len() >= 6);
            lemma_hex_val_of_digit(v / 16);
            lemma_hex_val_of_digit(v % 16);
            assert(16 * hex_val(t[4]) + hex_val(t[5]) == v);
            assert(t.skip(6) =~= escape(rest));
            vstd::utf8::char_u32_cast(c, v as u32);
            assert(((v as u32) as char) == c);
            assert(unescape(t) == Some(seq![c] + rest));
            assert(seq![c] + rest =~= s);
        } else {
            assert(esc_char(c) =~= seq![c]);
            assert(t[0] == c);
            assert(t[0] != '\\');
            assert(t.drop_first() =~= escape(rest));
            assert(unescape(t) == Some(seq![c] + rest));
            assert(seq![c] + rest =~= s);
        }
    }
}

impl Packet {
    /// The delivery frame text of this packet.
    pub fn to_string(&self) -> (r: String)
        ensures
            r@ == packet_text(self@),
    {
        serialize_packet(self)
    }

    /// The delivery frame of this packet, as the bytes written on the wire.
    pub fn as_bytes(&self) -> (r: Vec<u8>)
        ensures
            r@ == vstd::utf8::encode_utf8(packet_text(self@)),
    {
        let text = serialize_packet(self);
        text.as_str().as_bytes_vec()
    }
}

/// The remainder of `s` behind the prefix `p`, or nothing when `s` does not
/// start with `p`.
pub open spec fn strip_prefix(s: Seq<char>, p: Seq<char>) -> Option<Seq<char>> {
    if s.len() >= p.len() && s.subrange(0, p.len() as int) == p {
        Some(s.skip(p.len() as int))
    } else {
        None
    }
}

pub open spec fn is_dec_digit(c: char) -> bool {
    48 <= (c as u32) <= 57
}

/// How many decimal digits stand at the front of `s`.
pub open spec fn digit_prefix_len(s: Seq<char>) -> int
    decreases s.len(),
{
    if s.len() == 0 || !is_dec_digit(s[0]) {
        0
    } else {
        1 + digit_prefix_len(s.drop_first())
    }
}

/// Reading a quoted string member back: decode escape sequences up to, and
/// not including, the first bare quote; yields the decoded content and the
/// remainder of the text from that quote on.
pub open spec fn read_quoted(s: Seq<char>) -> Option<(Seq<char>, Seq<char>)>
    decreases s.len(),
{
    if s.len() == 0 {
        None
    } else if s[0] == '"' {
        Some((Seq::empty(), s))
    } else if s[0] != '\\' {
        match read_quoted(s.drop_first()) {
            Some(r) => Some((seq![s[0]] + r.0, r.1)),
            None => None,
        }
    } else if s.len() >= 2 && s[1] == '"' {
        match read_quoted(s.skip(2)) {
            Some(r) => Some((seq!['"'] + r.0, r.1)),
            None => None,
        }
    } else if s.len() >= 2 && s[1] == '\\' {
        match read_quoted(s.skip(2)) {
            Some(r) => Some((seq!['\\'] + r.0, r.1)),
            None => None,
        }
    } else if s.len() >= 6 && s[1] == 'u' && s[2] == '0' && s[3] == '0' && hex_val(s[4]) >= 0
        && hex_val(s[5]) >= 0 {
        match read_quoted(s.skip(6)) {
            Some(r) => Some((seq![((16 * hex_val(s[4]) + hex_val(s[5])) as u32) as char] + r.0, r.1)),
            None => None,
        }
    } else {
        None
    }
}

/// Reading a whole delivery frame back: the event type, the payload text
/// and the destination's identity text, or nothing when the text is not a
/// delivery frame.
pub open spec fn read_delivery(s: Seq<char>) -> Option<(Seq<char>, Seq<char>, Seq<char>)> {
    match strip_prefix(s, "{\"message_uuid\":\""@) {
        None => None,
        Some(s1) => if s1.len() < 36 {
            None
        } else {
            match strip_prefix(s1.skip(36), "\",\"timestamp\":"@) {
                None => None,
                Some(s2) => match strip_prefix(
                    s2.skip(digit_prefix_len(s2)),
                    ",\"event_type\":\""@,
                ) {
                    None => None,
                    Some(s3) => match read_quoted(s3) {
                        None => None,
                        Some(r3) => match strip_prefix(r3.1, "\",\"identifier_source\":\""@) {
                            None => None,
                            Some(s4) => if s4.len() < 36 {
                                None
                            } else {
                                match strip_prefix(
                                    s4.skip(36),
                                    "\",\"identifier_destination\":\""@,
                                ) {
                                    None => None,
                                    Some(s5) => if s5.len() < 36 {
                                        None
                                    } else {
                                        read_delivery_tail(r3.0, s5.take(36), s5.skip(36))
                                    },
                                }
                            },
                        },
                    },
                },
            }
        },
    }
}

/// The back half of `read_delivery`: from the text behind the destination
/// identity, skip the integrity tag, priority, time-to-live and consumed
/// members and cut the payload out from before the closing brace.
pub open spec fn read_delivery_tail(
    event_type: Seq<char>,
    destination: Seq<char>,
    s: Seq<char>,
) -> Option<(Seq<char>, Seq<char>, Seq<char>)> {
    match strip_prefix(s, "\",\"hash\":\""@) {
        None => None,
        Some(s6) => match read_quoted(s6) {
            None => None,
            Some(r6) => match strip_prefix(r6.1, "\",\"priority\":"@) {
                None => None,
                Some(s7) => match strip_prefix(s7.skip(digit_prefix_len(s7)), ",\"ttl\":"@) {
                    None => None,
                    Some(s8) => match strip_prefix(
                        s8.skip(digit_prefix_len(s8)),
                        ",\"consumed\":"@,
                    ) {
                        None => None,
                        Some(s9) => {
                            let s10 = if strip_prefix(s9, "true"@) is Some {
                                strip_prefix(s9, "true"@)
                            } else {
                                strip_prefix(s9, "false"@)
                            };
                            match s10 {
                                None => None,
                                Some(s11) => match strip_prefix(s11, ",\"payload\":"@) {
                                    None => None,
                                    Some(s12) => if s12.len() >= 1 && s12.last() == '}' {
                                        Some((
                                            event_type,
                                            s12.take(s12.len() - 1),
                                            destination,
                                        ))
                                    } else {
                                        None
                                    },
                                },
                            }
                        },
                    },
                },
            },
        },
    }
}

proof fn lemma_strip_prefix_concat(p: Seq<char>, rest: Seq<char>)
    ensures
        strip_prefix(p + rest, p) == Some(rest),
{
    assert((p + rest).subrange(0, p.len() as int) =~= p);
    assert((p + rest).skip(p.len() as int) =~= rest);
}

proof fn lemma_skip_concat(a: Seq<char>, b: Seq<char>)
    ensures
        (a + b).skip(a.len() as int) == b,
        (a + b).take(a.len() as int) == a,
{
    assert((a + b).skip(a.len() as int) =~= b);
    assert((a + b).take(a.len() as int) =~= a);
}

proof fn lemma_hex_text_len(n: int, width: nat)
    ensures
        hex_text(n, width).len() == width,
    decreases width,
{
    if width > 0 {
        lemma_hex_text_len(n / 16, (width - 1) as nat);
    }
}

proof fn lemma_uuid_text_len(n: u128)
    ensures
        uuid_text(n).len() == 36,
{
    lemma_hex_text_len(n as int / 0x1000000000000000000000000, 8);
    lemma_hex_text_len((n as int / 0x100000000000000000000) % 0x10000, 4);
    lemma_hex_text_len((n as int / 0x10000000000000000) % 0x10000, 4);
    lemma_hex_text_len((n as int / 0x1000000000000) % 0x10000, 4);
    lemma_hex_text_len(n as int % 0x1000000000000, 12);
}

proof fn lemma_dec_text_digits(n: int)
    ensures
        dec_text(n).len() >= 1,
        forall|i: int| 0 <= i < dec_text(n).len() ==> is_dec_digit(#[trigger] dec_text(n)[i]),
    decreases n,
{
    if n >= 10 {
        lemma_dec_text_digits(n / 10);
    }
}

proof fn lemma_digit_prefix_of_number(d: Seq<char>, rest: Seq<char>)
    requires
        forall|i: int| 0 <= i < d.len() ==> is_dec_digit(#[trigger] d[i]),
        rest.len() > 0,
        !is_dec_digit(rest[0]),
    ensures
        digit_prefix_len(d + rest) == d.len(),
    decreases d.len(),
{
    if d.len() == 0 {
        assert(d + rest =~= rest);
    } else {
        assert((d + rest)[0] == d[0]);
        assert((d + rest).drop_first() =~= d.drop_first() + rest);
        lemma_digit_prefix_of_number(d.drop_first(), rest);
    }
}

proof fn lemma_read_quoted_of_escaped(s: Seq<char>, rest: Seq<char>)
    requires
        rest.len() > 0,
        rest[0] == '"',
    ensures
        read_quoted(escape(s) + rest) == Some((s, rest)),
    decreases s.len(),
{
    reveal_with_fuel(escape, 2);
    if s.len() == 0 {
        assert(escape(s) + rest =~= rest);
    } else {
        let c = s[0];
        let tail = s.drop_first();
        lemma_read_quoted_of_escaped(tail, rest);
        let t = escape(s) + rest;
        assert(escape(s) == esc_char(c) + escape(tail));
        if c == '"' {
            assert(t[0] == '\\' && t[1] == '"');
            assert(t.skip(2) =~= escape(tail) + rest);
            assert(read_quoted(t) == Some((seq!['"'] + tail, rest)));
            assert(seq!['"'] + tail =~= s);
        } else if c == '\\' {
            assert(t[0] == '\\' && t[1] == '\\');
            assert(t.skip(2) =~= escape(tail) + rest);
            assert(read_quoted(t) == Some((seq!['\\'] + tail, rest)));
            assert(seq!['\\'] + tail =~= s);
        } else if (c as u32) < 32 {
            let v = c as u32 as int;
            assert(t[0] == '\\' && t[1] == 'u' && t[2] == '0' && t[3] == '0');
            assert(t[4] == hex_digit(v / 16) && t[5] == hex_digit(v % 16));
            lemma_hex_val_of_digit(v / 16);
            lemma_hex_val_of_digit(v % 16);
            assert(16 * hex_val(t[4]) + hex_val(t[5]) == v);
            assert(t.skip(6) =~= escape(tail) + rest);
            vstd::utf8::char_u32_cast(c, v as u32);
            assert(read_quoted(t) == Some((seq![c] + tail, rest)));
            assert(seq![c] + tail =~= s);
        } else {
            assert(esc_char(c) =~= seq![c]);
            assert(t[0] == c && c != '"' && c != '\\');
            assert(t.drop_first() =~= escape(tail) + rest);
            assert(read_quoted(t) == Some((seq![c] + tail, rest)));
            assert(seq![c] + tail =~= s);
        }
    }
}

#[verifier::rlimit(100)]
#[verifier::spinoff_prover]
proof fn lemma_delivery_tail_read_back(m: PacketModel, et: Seq<char>, dst: Seq<char>)
    ensures
        read_delivery_tail(et, dst, delivery_tail_text(m)) == Some((et, m.payload, dst)),
{
    reveal_strlit("\",\"priority\":");
    reveal_strlit(",\"ttl\":");
    reveal_strlit(",\"consumed\":");
    reveal_strlit("true");
    reveal_strlit("false");
    reveal_strlit("}");
    let l6 = "\",\"hash\":\""@;
    let l7 = "\",\"priority\":"@;
    let l8 = ",\"ttl\":"@;
    let l9 = ",\"consumed\":"@;
    let l10 = ",\"payload\":"@;
    let h = escape(m.hash);
    let pr = dec_text(m.priority as int);
    let tt = dec_text(m.ttl as int);
    let bo = bool_text(m.consumed);
    let pl = m.payload;
    let br = "}"@;
    lemma_dec_text_digits(m.priority as int);
    lemma_dec_text_digits(m.ttl as int);
    let t10 = pl + br;
    let t9 = l10 + t10;
    let t8 = bo + t9;
    let t7 = l9 + t8;
    let t6 = tt + t7;
    let t5 = l8 + t6;
    let t4 = pr + t5;
    let t3 = l7 + t4;
    let t2 = h + t3;
    assert(delivery_tail_text(m) == l6 + t2);
    lemma_strip_prefix_concat(l6, t2);
    assert(t3[0] == '"');
    lemma_read_quoted_of_escaped(m.hash, t3);
    lemma_strip_prefix_concat(l7, t4);
    assert(t5[0] == ',');
    lemma_digit_prefix_of_number(pr, t5);
    lemma_skip_concat(pr, t5);
    lemma_strip_prefix_concat(l8, t6);
    assert(t7[0] == ',');
    lemma_digit_prefix_of_number(tt, t7);
    lemma_skip_concat(tt, t7);
    lemma_strip_prefix_concat(l9, t8);
    if m.consumed {
        lemma_strip_prefix_concat("true"@, t9);
    } else {
        lemma_strip_prefix_concat("false"@, t9);
        assert(strip_prefix(t8, "true"@) is None) by {
            if t8.len() >= 4 && t8.subrange(0, 4) == "true"@ {
                assert(t8[0] == 'f');
                assert(t8.subrange(0, 4)[0] == 't');
            }
        }
    }
    lemma_strip_prefix_concat(l10, t10);
    assert(t10.len() >= 1);
    assert(t10.last() == '}');
    assert(t10.take(t10.len() - 1) =~= pl);
}

#[verifier::rlimit(100)]
#[verifier::spinoff_prover]
proof fn lemma_delivery_front(m: PacketModel)
    ensures
        read_delivery(packet_text(m)) == read_delivery_tail(
            m.event_type,
            uuid_text(m.identifier_destination),
            delivery_tail_text(m),
        ),
{
    reveal_strlit(",\"event_type\":\"");
    reveal_strlit("\",\"identifier_source\":\"");
    let l1 = "{\"message_uuid\":\""@;
    let l2 = "\",\"timestamp\":"@;
    let l3 = ",\"event_type\":\""@;
    let l4 = "\",\"identifier_source\":\""@;
    let l5 = "\",\"identifier_destination\":\""@;
    let mu = uuid_text(m.message_uuid);
    let ts = dec_text(m.timestamp as int);
    let et = escape(m.event_type);
    let src = uuid_text(m.identifier_source);
    let dst = uuid_text(m.identifier_destination);
    let tail = delivery_tail_text(m);
    let s = packet_text(m);
    lemma_uuid_text_len(m.message_uuid);
    lemma_uuid_text_len(m.identifier_source);
    lemma_uuid_text_len(m.identifier_destination);
    lemma_dec_text_digits(m.timestamp as int);

    let u9 = dst + tail;
    let u8 = l5 + u9;
    let u7 = src + u8;
    let u6 = l4 + u7;
    let u5 = et + u6;
    let u4 = l3 + u5;
    let u3 = ts + u4;
    let u2 = l2 + u3;
    let u1 = mu + u2;
    assert(s == l1 + u1);
    lemma_strip_prefix_concat(l1, u1);
    lemma_skip_concat(mu, u2);
    lemma_strip_prefix_concat(l2, u3);
    assert(u4[0] == ',');
    lemma_digit_prefix_of_number(ts, u4);
    lemma_skip_concat(ts, u4);
    lemma_strip_prefix_concat(l3, u5);
    assert(u6[0] == '"');
    lemma_read_quoted_of_escaped(m.event_type, u6);
    lemma_strip_prefix_concat(l4, u7);
    lemma_skip_concat(src, u8);
    lemma_strip_prefix_concat(l5, u9);
    lemma_skip_concat(dst, tail);
}

/// Law: the wire loses nothing a consumer needs. Reading a delivery frame
/// back yields exactly the packet's event type, its payload text, and the
/// identity text of the chosen destination - for every packet.
pub proof fn lemma_delivery_read_back(m: PacketModel)
    ensures
        read_delivery(packet_text(m)) == Some(
            (m.event_type, m.payload, uuid_text(m.identifier_destination)),
        ),
{
    lemma_delivery_front(m);
    lemma_delivery_tail_read_back(m, m.event_type, uuid_text(m.identifier_destination));
}

/// Relies on `String`'s `FromIterator` over `char`: collecting characters
/// yields the string of exactly those characters, in order.
#[verifier::external_body]
fn text_of_chars(v: Vec<char>) -> (r: String)
    ensures
        r@ == v@,
{
    v.into_iter().collect()
}

#[verifier::rlimit(100)]
#[verifier::spinoff_prover]
fn push_tail(out: &mut Vec<char>, p: &Packet)
    ensures
        final(out)@ == old(out)@ + delivery_tail_text(p@),
{
    push_literal(out, "\",\"hash\":\"");
    push_escaped(out, p.hash.as_str());
    push_literal(out, "\",\"priority\":");
    push_dec(out, p.priority as u64);
    push_literal(out, ",\"ttl\":");
    push_dec(out, p.ttl);
    push_literal(out, ",\"consumed\":");
    if p.consumed {
        push_literal(out, "true");
    } else {
        push_literal(out, "false");
    }
    push_literal(out, ",\"payload\":");
    push_literal(out, p.payload.as_str());
    push_literal(out, "}");
    proof {
        assert(out@ =~= old(out)@ + delivery_tail_text(p@));
    }
}

/// Encode one packet as its delivery frame text.
#[verifier::rlimit(100)]
#[verifier::spinoff_prover]
pub fn serialize_packet(p: &Packet) -> (r: String)
    ensures
        r@ == packet_text(p@),
{
    let mut out: Vec<char> = Vec::new();
    push_literal(&mut out, "{\"message_uuid\":\"");
    push_uuid(&mut out, p.message_uuid);
    push_literal(&mut out, "\",\"timestamp\":");
    push_dec(&mut out, p.timestamp);
    push_literal(&mut out, ",\"event_type\":\"");
    push_escaped(&mut out, p.event_type.as_str());
    push_literal(&mut out, "\",\"identifier_source\":\"");
    push_uuid(&mut out, p.identifier_source);
    push_literal(&mut out, "\",\"identifier_destination\":\"");
    push_uuid(&mut out, p.identifier_destination);
    push_tail(&mut out, p);
    proof {
        assert(out@ =~= packet_text(p@));
    }
    text_of_chars(out)
}

} // verus!
